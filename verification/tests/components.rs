use rdfind_rs::checksum::{Checksum, ChecksumType};
use rdfind_rs::cmdline_parser::{CmdlineError, Parser};
use rdfind_rs::easy_random::{alphabet_byte, EasyRandom};
use rdfind_rs::undoable_unlink::{State, UndoableUnlink, UnlinkError};

fn hex_to_bytes(hex: &str) -> Vec<u8> {
    let digits: Vec<u8> = hex
        .bytes()
        .map(|b| match b {
            b'0'..=b'9' => b - b'0',
            b'a'..=b'f' => b - b'a' + 10,
            _ => panic!("not a hex digit"),
        })
        .collect();
    digits.chunks(2).map(|p| p[0] * 16 + p[1]).collect()
}

#[test]
fn md5_known_digest() {
    let mut c = Checksum::new(ChecksumType::MD5);
    c.update(b"abc").unwrap();
    let d = c.finalize_to_vec();
    assert_eq!(d, hex_to_bytes("900150983cd24fb0d6963f7d28e17f72"));
}

#[test]
fn sha1_known_digest() {
    let mut c = Checksum::new(ChecksumType::SHA1);
    c.update(b"abc").unwrap();
    let d = c.finalize_to_vec();
    assert_eq!(d, hex_to_bytes("a9993e364706816aba3e25717850c26c9cd0d89d"));
}

#[test]
fn sha256_known_digest() {
    let mut c = Checksum::new(ChecksumType::SHA256);
    c.update(b"abc").unwrap();
    let d = c.finalize_to_vec();
    assert_eq!(
        d,
        hex_to_bytes("ba7816bf8f01cfea414140de5dae2223b00361a396177a9cb410ff61f20015ad")
    );
}

#[test]
fn sha512_empty_digest() {
    let c = Checksum::new(ChecksumType::SHA512);
    let d = c.finalize_to_vec();
    assert_eq!(
        d,
        hex_to_bytes(
            "cf83e1357eefb8bdf1542850d66d8007d620e4050b5715dc83f4a921d36ce9ce\
             47d0d13c5d85f2b0ff8318d2877eec2f63b931bd47417a81a538327af927da3e"
        )
    );
}

#[test]
fn xxh128_matches_direct_call() {
    let mut c = Checksum::new(ChecksumType::XXH128);
    c.update(b"hello world").unwrap();
    let d = c.finalize_to_vec();
    let expected = xxhash_rust::xxh3::xxh3_128(b"hello world").to_le_bytes().to_vec();
    assert_eq!(d, expected);
}

#[test]
fn incremental_update_equals_single_update() {
    let mut one = Checksum::new(ChecksumType::MD5);
    one.update(b"hello ").unwrap();
    one.update(b"world").unwrap();
    let mut whole = Checksum::new(ChecksumType::MD5);
    whole.update(b"hello world").unwrap();
    assert_eq!(one.finalize_to_vec(), whole.finalize_to_vec());
}

#[test]
fn digest_lengths_per_algorithm() {
    assert_eq!(Checksum::new(ChecksumType::SHA1).get_digest_length(), 20);
    assert_eq!(Checksum::new(ChecksumType::SHA256).get_digest_length(), 32);
    assert_eq!(Checksum::new(ChecksumType::SHA512).get_digest_length(), 64);
    assert_eq!(Checksum::new(ChecksumType::MD5).get_digest_length(), 16);
    assert_eq!(Checksum::new(ChecksumType::XXH128).get_digest_length(), 16);
}

#[test]
fn random_file_string_length_and_alphabet() {
    let mut r = EasyRandom::new(42);
    let s = r.make_random_file_string(12);
    assert_eq!(s.len(), 12);
    assert!(s
        .chars()
        .all(|c| c.is_ascii_alphanumeric() || c == '_' || c == '-'));
    let empty = r.make_random_file_string(0);
    assert_eq!(empty.len(), 0);
}

#[test]
fn alphabet_maps_each_index_exactly() {
    assert_eq!(alphabet_byte(0), b'a');
    assert_eq!(alphabet_byte(25), b'z');
    assert_eq!(alphabet_byte(26), b'A');
    assert_eq!(alphabet_byte(51), b'Z');
    assert_eq!(alphabet_byte(52), b'0');
    assert_eq!(alphabet_byte(61), b'9');
    assert_eq!(alphabet_byte(62), b'_');
    assert_eq!(alphabet_byte(63), b'-');
}

#[test]
fn random_file_string_deterministic_per_seed() {
    let mut a = EasyRandom::new(7);
    let mut b = EasyRandom::new(7);
    assert_eq!(a.make_random_file_string(12), b.make_random_file_string(12));
}

fn args(list: &[&str]) -> Vec<String> {
    list.iter().map(|s| s.to_string()).collect()
}

#[test]
fn parser_reads_bool_options() {
    let mut p = Parser::new(args(&["prog", "-follow", "true", "dir"]));
    assert_eq!(p.try_parse_bool("-other"), Ok(false));
    assert_eq!(p.try_parse_bool("-follow"), Ok(true));
    assert!(p.get_parsed_bool());
    assert_eq!(p.get_current_index(), 2);
    p.advance();
    assert!(p.has_args_left());
    assert!(p.current_arg_is("dir"));
    assert_eq!(p.get_current_arg(), "dir");
    p.advance();
    assert!(!p.has_args_left());
}

#[test]
fn parser_reads_false_value() {
    let mut p = Parser::new(args(&["prog", "-follow", "false"]));
    assert_eq!(p.try_parse_bool("-follow"), Ok(true));
    assert!(!p.get_parsed_bool());
    assert_eq!(p.advance(), 3);
    assert!(!p.has_args_left());
}

#[test]
fn parser_rejects_bad_bool_value() {
    let mut p = Parser::new(args(&["prog", "-follow", "maybe"]));
    assert_eq!(p.try_parse_bool("-follow"), Err(CmdlineError::NotBool));
    let mut p = Parser::new(args(&["prog", "-follow"]));
    assert_eq!(p.try_parse_bool("-follow"), Err(CmdlineError::MissingValue));
    let mut p = Parser::new(args(&["prog"]));
    assert_eq!(p.try_parse_bool("-follow"), Err(CmdlineError::OutOfBounds));
}

#[test]
fn parser_reads_string_options() {
    let mut p = Parser::new(args(&["prog", "-checksum", "sha256"]));
    assert_eq!(p.try_parse_string("-checksum"), Ok(true));
    assert_eq!(p.get_parsed_string(), "sha256");
    assert!(p.parsed_string_is("sha256"));
    assert!(!p.parsed_string_is("md5"));
    let mut p = Parser::new(args(&["prog", "-checksum"]));
    assert_eq!(p.try_parse_string("-checksum"), Err(CmdlineError::MissingValue));
}

#[test]
fn unlink_round_trip_through_undo() {
    // begin then undo: the protocol ends in Undone, the original path kept.
    let mut u = UndoableUnlink::new("dir/file".to_string(), "dir/tmp123".to_string(), true);
    assert!(u.file_is_moved());
    assert_eq!(u.undo(true), Ok(()));
    assert_eq!(u.state, State::Undone);
    assert_eq!(u.filename, "dir/file");
    // a second undo is a usage error and changes nothing
    assert_eq!(u.undo(true), Err(UnlinkError::Misuse));
    assert_eq!(u.state, State::Undone);
}

#[test]
fn unlink_commit_path() {
    let mut u = UndoableUnlink::new("f".to_string(), "t".to_string(), true);
    assert_eq!(u.unlink(true), Ok(()));
    assert_eq!(u.state, State::Unlinked);
    assert_eq!(u.unlink(true), Err(UnlinkError::Misuse));
}

#[test]
fn unlink_failed_move_is_inert() {
    let mut u = UndoableUnlink::new("f".to_string(), "t".to_string(), false);
    assert!(!u.file_is_moved());
    assert_eq!(u.state, State::FailedMoveToTemporary);
    assert_eq!(u.undo(true), Err(UnlinkError::Misuse));
    assert_eq!(u.unlink(true), Err(UnlinkError::Misuse));
}

#[test]
fn unlink_io_failures_reach_their_terminal_states() {
    let mut u = UndoableUnlink::new("f".to_string(), "t".to_string(), true);
    assert_eq!(u.undo(false), Err(UnlinkError::IoFailed));
    assert_eq!(u.state, State::FailedUndo);
    let mut u = UndoableUnlink::new("f".to_string(), "t".to_string(), true);
    assert_eq!(u.unlink(false), Err(UnlinkError::IoFailed));
    assert_eq!(u.state, State::FailedUnlink);
}
