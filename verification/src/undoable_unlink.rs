//! The crash-safe deletion protocol: a file is removed only through a
//! reversible two-step transaction, so that an interrupted run never leaves
//! zero copies of the content on disk.

use vstd::prelude::*;

verus! {

/// The protocol states of one deletion transaction.
#[derive(Clone, Copy, PartialEq, Eq, Structural, Debug)]
pub enum State {
    Uninitialized,
    FailedMoveToTemporary,
    MovedToTemporary,
    FailedUndo,
    Undone,
    FailedUnlink,
    Unlinked,
}

/// Where the single surviving copy of the content stands.
#[derive(Clone, Copy, PartialEq, Eq, Structural, Debug)]
pub enum ContentLocation {
    AtOriginalPath,
    AtTemporaryPath,
    Gone,
}

/// Why an undo or unlink step was refused or failed.
#[derive(Clone, Copy, PartialEq, Eq, Structural, Debug)]
pub enum UnlinkError {
    /// The step was requested out of protocol state: a usage error.
    Misuse,
    /// The filesystem operation itself failed.
    IoFailed,
}

/// One deletion transaction: the decision core of the protocol. The caller
/// performs the renames and the unlink on the filesystem and reports each
/// outcome; this type decides which step is allowed and tracks where the
/// content survives.
pub struct UndoableUnlink {
    pub state: State,
    pub filename: String,
    pub tempfilename: String,
}

impl UndoableUnlink {
    /// Where the content survives in each state; the protocol never reaches
    /// `Gone` except through a committed unlink.
    pub open spec fn content_location(self) -> ContentLocation {
        match self.state {
            State::Uninitialized => ContentLocation::AtOriginalPath,
            State::FailedMoveToTemporary => ContentLocation::AtOriginalPath,
            State::MovedToTemporary => ContentLocation::AtTemporaryPath,
            State::FailedUndo => ContentLocation::AtTemporaryPath,
            State::Undone => ContentLocation::AtOriginalPath,
            State::FailedUnlink => ContentLocation::AtTemporaryPath,
            State::Unlinked => ContentLocation::Gone,
        }
    }

    /// Begins the transaction over the outcome of the caller's atomic rename
    /// of the target to its temporary name in the same directory. On failure
    /// the object is inert and the file stands untouched at its own path.
    pub fn new(filename: String, tempfilename: String, move_succeeded: bool) -> (r: UndoableUnlink)
        ensures
            r.filename == filename,
            r.tempfilename == tempfilename,
            move_succeeded ==> r.state == State::MovedToTemporary,
            !move_succeeded ==> r.state == State::FailedMoveToTemporary,
    {
        UndoableUnlink {
            state: if move_succeeded {
                State::MovedToTemporary
            } else {
                State::FailedMoveToTemporary
            },
            filename,
            tempfilename,
        }
    }

    /// The file stands at its temporary name, ready for undo or unlink.
    pub fn file_is_moved(&self) -> (r: bool)
        ensures
            r == (self.state == State::MovedToTemporary),
    {
        self.state == State::MovedToTemporary
    }

    /// Rolls the transaction back, given the outcome of the caller's rename
    /// of the temporary file back to the original name. From any state but
    /// `MovedToTemporary` this is a usage error and nothing changes; the
    /// caller must not have touched the filesystem in that case.
    pub fn undo(&mut self, rename_succeeded: bool) -> (r: Result<(), UnlinkError>)
        ensures
            final(self).filename == old(self).filename,
            final(self).tempfilename == old(self).tempfilename,
            old(self).state != State::MovedToTemporary ==> *final(self) == *old(self) && r
                == Err::<(), UnlinkError>(UnlinkError::Misuse),
            old(self).state == State::MovedToTemporary && rename_succeeded ==> final(self).state
                == State::Undone && r == Ok::<(), UnlinkError>(()),
            old(self).state == State::MovedToTemporary && !rename_succeeded ==> final(self).state
                == State::FailedUndo && r == Err::<(), UnlinkError>(UnlinkError::IoFailed),
    {
        if self.state != State::MovedToTemporary {
            return Err(UnlinkError::Misuse);
        }
        if rename_succeeded {
            self.state = State::Undone;
            Ok(())
        } else {
            self.state = State::FailedUndo;
            Err(UnlinkError::IoFailed)
        }
    }

    /// Commits the removal, given the outcome of the caller's unlink of the
    /// temporary file. From any state but `MovedToTemporary` this is a usage
    /// error and nothing changes. A failed unlink leaves the temporary file
    /// on disk, a terminal state reported for manual cleanup.
    pub fn unlink(&mut self, remove_succeeded: bool) -> (r: Result<(), UnlinkError>)
        ensures
            final(self).filename == old(self).filename,
            final(self).tempfilename == old(self).tempfilename,
            old(self).state != State::MovedToTemporary ==> *final(self) == *old(self) && r
                == Err::<(), UnlinkError>(UnlinkError::Misuse),
            old(self).state == State::MovedToTemporary && remove_succeeded ==> final(self).state
                == State::Unlinked && r == Ok::<(), UnlinkError>(()),
            old(self).state == State::MovedToTemporary && !remove_succeeded ==> final(self).state
                == State::FailedUnlink && r == Err::<(), UnlinkError>(UnlinkError::IoFailed),
    {
        if self.state != State::MovedToTemporary {
            return Err(UnlinkError::Misuse);
        }
        if remove_succeeded {
            self.state = State::Unlinked;
            Ok(())
        } else {
            self.state = State::FailedUnlink;
            Err(UnlinkError::IoFailed)
        }
    }
}

/// The protocol's safety guarantee: in every state short of a committed
/// unlink, one copy of the content survives, at the original path or at the
/// temporary path; only the `Unlinked` state gives the content up.
pub proof fn lemma_content_never_lost(u: UndoableUnlink)
    ensures
        u.state != State::Unlinked ==> u.content_location() != ContentLocation::Gone,
        u.state == State::Undone || u.state == State::FailedMoveToTemporary || u.state
            == State::Uninitialized ==> u.content_location() == ContentLocation::AtOriginalPath,
{
}

} // verus!
