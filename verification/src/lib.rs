//! Duplicate-file classification and crash-safe removal.
//!
//! A store of file records is narrowed by a sequence of passes (collapse of
//! hardlinked records, removal of records with a unique size, removal of
//! records with a unique size-and-window, final duplicate tagging), and a
//! redundant file is removed only through a reversible two-step transaction.

pub mod checksum;
pub mod cmdline_parser;
pub mod easy_random;
pub mod fileinfo;
pub mod rdutil;
pub mod strutil;
pub mod undoable_unlink;
