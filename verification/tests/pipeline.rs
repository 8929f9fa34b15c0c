use rdfind_rs::fileinfo::{DupType, FileInfo, ReadToBufferMode, StatResult};
use rdfind_rs::rdutil::Rdutil;

fn record(name: &str, prio: i32, depth: i32, size: i64, dev: u64, ino: u64) -> FileInfo {
    let mut fi = FileInfo::new(name.to_string(), prio, depth);
    let ok = fi.record_stat_result(Some(StatResult {
        size,
        ino,
        dev,
        is_file: true,
        is_directory: false,
    }));
    assert!(ok);
    fi
}

#[test]
fn scenario_three_files_size_pass_and_marking() {
    // A (priority 0, 100 bytes), B (priority 1, 100 bytes, identical content),
    // C (priority 0, 50 bytes, unique size).
    let a = record("a", 0, 1, 100, 1, 10);
    let b = record("b", 1, 1, 100, 1, 11);
    let c = record("c", 0, 1, 50, 1, 12);
    let mut store = Rdutil::new(vec![a, b, c]);
    store.mark_items();
    let removed_inodes = store.remove_identical_inodes();
    assert_eq!(removed_inodes, 0);
    let removed_sizes = store.remove_unique_sizes();
    assert_eq!(removed_sizes, 1);
    assert_eq!(store.list.len(), 2);
    assert!(store.list.iter().all(|f| f.stat_size == 100));
    store.mark_duplicate_files();
    assert_eq!(store.list[0].filename, "a");
    assert_eq!(store.list[0].duptype, DupType::FirstOccurrence);
    assert!(!store.list[0].delete_flag);
    assert_eq!(store.list[1].filename, "b");
    assert_eq!(store.list[1].duptype, DupType::OutsideTree);
    assert!(store.list[1].delete_flag);
}

#[test]
fn scenario_same_priority_depth_tiebreak() {
    // Two files at one priority with identical content, depths 2 and 1: the
    // shallower file is retained, the deeper one is redundant within the tree.
    let deep = record("deep", 0, 2, 64, 1, 20);
    let shallow = record("shallow", 0, 1, 64, 1, 21);
    let mut store = Rdutil::new(vec![deep, shallow]);
    store.mark_items();
    store.remove_identical_inodes();
    store.remove_unique_sizes();
    store.mark_duplicate_files();
    assert_eq!(store.list.len(), 2);
    assert_eq!(store.list[0].filename, "deep");
    assert_eq!(store.list[0].duptype, DupType::WithinSameTree);
    assert!(store.list[0].delete_flag);
    assert_eq!(store.list[1].filename, "shallow");
    assert_eq!(store.list[1].duptype, DupType::FirstOccurrence);
    assert!(!store.list[1].delete_flag);
}

#[test]
fn hardlinks_collapse_before_content_comparison() {
    // Three records, two of them naming the same storage object: the pair
    // collapses to the record with the lower retention key.
    let first = record("one", 0, 2, 100, 7, 42);
    let link = record("one-link", 0, 1, 100, 7, 42);
    let other = record("two", 0, 1, 100, 7, 43);
    let mut store = Rdutil::new(vec![first, link, other]);
    store.mark_items();
    let removed = store.remove_identical_inodes();
    assert_eq!(removed, 1);
    assert_eq!(store.list.len(), 2);
    assert_eq!(store.list[0].filename, "one-link");
    assert_eq!(store.list[1].filename, "two");
}

#[test]
fn distinct_sizes_leave_nothing_and_tag_nothing() {
    let a = record("a", 0, 1, 10, 1, 1);
    let b = record("b", 0, 1, 20, 1, 2);
    let c = record("c", 0, 1, 30, 1, 3);
    let mut store = Rdutil::new(vec![a, b, c]);
    store.mark_items();
    store.remove_identical_inodes();
    let removed = store.remove_unique_sizes();
    assert_eq!(removed, 3);
    assert_eq!(store.list.len(), 0);
}

#[test]
fn unique_size_and_buffer_pass() {
    let mut a = record("a", 0, 1, 100, 1, 1);
    let mut b = record("b", 0, 1, 100, 1, 2);
    let mut c = record("c", 0, 1, 100, 1, 3);
    a.store_somebytes(&[1, 2, 3]);
    b.store_somebytes(&[1, 2, 3]);
    c.store_somebytes(&[9, 9, 9]);
    let mut store = Rdutil::new(vec![a, b, c]);
    store.mark_items();
    let removed = store.remove_unique_size_and_buffer();
    assert_eq!(removed, 1);
    assert_eq!(store.list.len(), 2);
    assert_eq!(store.list[0].filename, "a");
    assert_eq!(store.list[1].filename, "b");
}

#[test]
fn zero_byte_files_group_as_duplicates() {
    let a = record("empty1", 0, 1, 0, 1, 1);
    let b = record("empty2", 0, 2, 0, 1, 2);
    let mut store = Rdutil::new(vec![a, b]);
    store.mark_items();
    store.remove_identical_inodes();
    store.remove_unique_sizes();
    store.mark_duplicate_files();
    assert_eq!(store.list.len(), 2);
    assert_eq!(store.list[0].duptype, DupType::FirstOccurrence);
    assert_eq!(store.list[1].duptype, DupType::WithinSameTree);
}

#[test]
fn cleanup_removes_flagged_records_in_order() {
    let mut a = record("a", 0, 1, 1, 1, 1);
    let b = record("b", 0, 1, 2, 1, 2);
    let mut c = record("c", 0, 1, 3, 1, 3);
    let d = record("d", 0, 1, 4, 1, 4);
    a.delete_flag = true;
    c.delete_flag = true;
    let mut store = Rdutil::new(vec![a, b, c, d]);
    let removed = store.cleanup();
    assert_eq!(removed, 2);
    assert_eq!(store.list.len(), 2);
    assert_eq!(store.list[0].filename, "b");
    assert_eq!(store.list[1].filename, "d");
}

#[test]
fn mark_items_stamps_sequence_ids() {
    let a = record("a", 0, 1, 1, 1, 1);
    let b = record("b", 0, 1, 2, 1, 2);
    let mut store = Rdutil::new(vec![a, b]);
    store.mark_items();
    assert_eq!(store.list[0].identity, 1);
    assert_eq!(store.list[1].identity, 2);
}

#[test]
fn sort_on_device_and_inode_orders_pairs() {
    let a = record("a", 0, 1, 1, 2, 5);
    let b = record("b", 0, 1, 2, 1, 9);
    let c = record("c", 0, 1, 3, 1, 3);
    let mut store = Rdutil::new(vec![a, b, c]);
    store.sort_on_device_and_inode();
    assert_eq!(store.list[0].filename, "c");
    assert_eq!(store.list[1].filename, "b");
    assert_eq!(store.list[2].filename, "a");
}

#[test]
fn sort_on_depth_and_name_sorts_suffix_only() {
    let a = record("zzz", 0, 9, 1, 1, 1);
    let b = record("beta", 0, 2, 2, 1, 2);
    let c = record("alpha", 0, 2, 3, 1, 3);
    let d = record("deep", 0, 1, 4, 1, 4);
    let mut store = Rdutil::new(vec![a, b, c, d]);
    store.sort_on_depth_and_name(1);
    assert_eq!(store.list[0].filename, "zzz");
    assert_eq!(store.list[1].filename, "deep");
    assert_eq!(store.list[2].filename, "alpha");
    assert_eq!(store.list[3].filename, "beta");
}

#[test]
fn small_files_exempt_from_renewed_reads() {
    // Once any earlier pass filled the window, a file no larger than the
    // window is never read again: the window already holds all its bytes.
    let small = record("small", 0, 1, 64, 1, 1);
    let large = record("large", 0, 1, 65, 1, 2);
    assert!(!small.needs_content_read(ReadToBufferMode::ReadFirstBytes));
    assert!(large.needs_content_read(ReadToBufferMode::ReadFirstBytes));
    // On the very first pass nothing has been captured yet, so even a small
    // file is read once.
    assert!(small.needs_content_read(ReadToBufferMode::NotDefined));
}

#[test]
fn store_somebytes_pads_with_zeros() {
    let mut fi = record("x", 0, 1, 3, 1, 1);
    fi.store_somebytes(&[7, 8, 9]);
    assert_eq!(fi.somebytes.len(), 64);
    assert_eq!(&fi.somebytes[..3], &[7, 8, 9]);
    assert!(fi.somebytes[3..].iter().all(|&b| b == 0));
}

#[test]
fn duptype_strings_match_report_format() {
    let mut fi = record("x", 0, 1, 1, 1, 1);
    assert_eq!(fi.get_duptype_string(), "DUPTYPE_UNKNOWN");
    fi.duptype = DupType::FirstOccurrence;
    assert_eq!(fi.get_duptype_string(), "DUPTYPE_FIRST_OCCURRENCE");
    fi.duptype = DupType::WithinSameTree;
    assert_eq!(fi.get_duptype_string(), "DUPTYPE_WITHIN_SAME_TREE");
    fi.duptype = DupType::OutsideTree;
    assert_eq!(fi.get_duptype_string(), "DUPTYPE_OUTSIDE_TREE");
}

#[test]
fn simplify_path_collapses_separators() {
    let out = rdfind_rs::fileinfo::simplify_path(&b"/a/./b//c".to_vec());
    assert_eq!(out, b"/a/b/c".to_vec());
    let out = rdfind_rs::fileinfo::simplify_path(&b"//x/././y".to_vec());
    assert_eq!(out, b"/x/y".to_vec());
    let out = rdfind_rs::fileinfo::simplify_path(&b"plain/name".to_vec());
    assert_eq!(out, b"plain/name".to_vec());
    let out = rdfind_rs::fileinfo::simplify_path(&b"/.//".to_vec());
    assert_eq!(out, b"/".to_vec());
}

#[test]
fn report_line_exact_format() {
    let mut fi = record("dir/name", 0, 2, 100, 7, 42);
    fi.identity = 3;
    assert_eq!(fi.report_line(), b"DUPTYPE_UNKNOWN 3 2 100 7 42 0 dir/name".to_vec());
}

#[test]
fn read_failure_excludes_the_record() {
    let mut a = record("a", 0, 1, 100, 1, 1);
    let b = record("b", 0, 1, 100, 1, 2);
    a.mark_read_failed();
    assert!(a.delete_flag);
    let mut store = Rdutil::new(vec![a, b]);
    let removed = store.cleanup();
    assert_eq!(removed, 1);
    assert_eq!(store.list.len(), 1);
    assert_eq!(store.list[0].filename, "b");
}

#[test]
fn remove_unique_sizes_sorts_ascending_by_size() {
    let a = record("big", 0, 1, 300, 1, 1);
    let b = record("small1", 0, 1, 10, 1, 2);
    let c = record("small2", 0, 1, 10, 1, 3);
    let d = record("big2", 0, 1, 300, 1, 4);
    let mut store = Rdutil::new(vec![a, b, c, d]);
    store.mark_items();
    let removed = store.remove_unique_sizes();
    assert_eq!(removed, 0);
    assert_eq!(store.list[0].filename, "small1");
    assert_eq!(store.list[1].filename, "small2");
    assert_eq!(store.list[2].filename, "big");
    assert_eq!(store.list[3].filename, "big2");
}

#[test]
fn remove_identical_inodes_sorts_by_device_and_inode() {
    let a = record("x", 0, 1, 1, 9, 1);
    let b = record("y", 0, 1, 2, 3, 7);
    let c = record("z", 0, 1, 3, 3, 2);
    let mut store = Rdutil::new(vec![a, b, c]);
    store.mark_items();
    store.remove_identical_inodes();
    assert_eq!(store.list[0].filename, "z");
    assert_eq!(store.list[1].filename, "y");
    assert_eq!(store.list[2].filename, "x");
}

#[test]
fn failed_stat_zeroes_the_record() {
    let mut fi = FileInfo::new("gone".to_string(), 0, 1);
    let ok = fi.record_stat_result(None);
    assert!(!ok);
    assert_eq!(fi.stat_size, 0);
    assert_eq!(fi.stat_ino, 0);
    assert_eq!(fi.stat_dev, 0);
    assert!(!fi.is_file);
    assert!(!fi.is_directory);
}
