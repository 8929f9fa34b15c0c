//! The file record store and the classification passes that narrow it.

use vstd::prelude::*;

verus! {

use crate::fileinfo::{
    cleared, name_bytes, precedes, rank_eq, rank_le, rank_lt, same_content, same_inode, with_flag,
    with_tag, DupType, FileInfo,
};
use crate::strutil::{bytes_eq, bytes_le, bytes_lt, lemma_bytes_lt_total, lemma_bytes_lt_trans, str_eq, str_lt};
use vstd::utf8::encode_utf8_decode_utf8;
use vstd::multiset::Multiset;

/// Record `j` of `s` shares its content discriminators with some other record.
pub open spec fn has_partner(s: Seq<FileInfo>, j: int) -> bool {
    exists|k: int| 0 <= k < s.len() && k != j && same_content(#[trigger] s[k], s[j])
}

/// Record `j` of `s` is preferred over every other record of its content
/// group: it is the one retained as the first occurrence.
pub open spec fn content_first(s: Seq<FileInfo>, j: int) -> bool {
    forall|k: int|
        0 <= k < s.len() && k != j && same_content(#[trigger] s[k], s[j]) ==> precedes(s, j, k)
}

/// What the tagging pass does to the store: records without a content partner
/// are untouched; in every content group the preferred record is tagged as
/// the retained first occurrence, and each other member is tagged redundant,
/// within the retained record's tree or outside it, and flagged.
pub open spec fn marked_correctly(pre: Seq<FileInfo>, post: Seq<FileInfo>) -> bool {
    &&& post.len() == pre.len()
    &&& forall|j: int|
        0 <= j < pre.len() && !has_partner(pre, j) ==> #[trigger] post[j] == pre[j]
    &&& forall|j: int|
        0 <= j < pre.len() && has_partner(pre, j) && content_first(pre, j) ==> #[trigger] post[j]
            == with_tag(pre[j], DupType::FirstOccurrence, false)
    &&& forall|j: int, m: int|
        #![trigger post[j], pre[m]]
        0 <= j < pre.len() && 0 <= m < pre.len() && j != m && same_content(pre[j], pre[m])
            && content_first(pre, m) ==> post[j] == with_tag(
            pre[j],
            if pre[m].cmdline_index == pre[j].cmdline_index {
                DupType::WithinSameTree
            } else {
                DupType::OutsideTree
            },
            true,
        )
}

/// The working set of file records, owned exclusively by the pipeline.
pub struct Rdutil {
    pub list: Vec<FileInfo>,
}

/// The records of `s` that are not flagged for removal, in order.
pub open spec fn kept_records(s: Seq<FileInfo>) -> Seq<FileInfo>
    decreases s.len(),
{
    if s.len() == 0 {
        s
    } else if s[0].delete_flag {
        kept_records(s.drop_first())
    } else {
        seq![s[0]] + kept_records(s.drop_first())
    }
}

/// Every record of the compacted store is an unflagged record of the store it
/// came from.
pub proof fn lemma_kept_sub(s: Seq<FileInfo>, j: int)
    requires
        0 <= j < kept_records(s).len(),
    ensures
        exists|a: int|
            0 <= a < s.len() && s[a] == kept_records(s)[j] && !s[a].delete_flag,
    decreases s.len(),
{
    if s.len() == 0 {
    } else if s[0].delete_flag {
        lemma_kept_sub(s.drop_first(), j);
        let a = choose|a: int|
            0 <= a < s.drop_first().len() && s.drop_first()[a] == kept_records(s.drop_first())[j]
                && !s.drop_first()[a].delete_flag;
        assert(s[a + 1] == kept_records(s)[j] && !s[a + 1].delete_flag);
    } else {
        if j == 0 {
            assert(s[0] == kept_records(s)[0] && !s[0].delete_flag);
        } else {
            lemma_kept_sub(s.drop_first(), j - 1);
            let a = choose|a: int|
                0 <= a < s.drop_first().len() && s.drop_first()[a] == kept_records(
                    s.drop_first(),
                )[j - 1] && !s.drop_first()[a].delete_flag;
            assert(s[a + 1] == kept_records(s)[j] && !s[a + 1].delete_flag);
        }
    }
}

/// Every unflagged record of a store survives its compaction.
pub proof fn lemma_kept_complete(s: Seq<FileInfo>, a: int)
    requires
        0 <= a < s.len(),
        !s[a].delete_flag,
    ensures
        exists|j: int| 0 <= j < kept_records(s).len() && kept_records(s)[j] == s[a],
    decreases s.len(),
{
    if a == 0 {
        assert(kept_records(s)[0] == s[0]);
    } else {
        lemma_kept_complete(s.drop_first(), a - 1);
        let j = choose|j: int|
            0 <= j < kept_records(s.drop_first()).len() && kept_records(s.drop_first())[j]
                == s.drop_first()[a - 1];
        if s[0].delete_flag {
            assert(kept_records(s)[j] == s[a]);
        } else {
            assert(kept_records(s)[j + 1] == s[a]);
        }
    }
}

/// Two distinct positions of the compacted store come from two distinct
/// positions of the store it came from, in the same order.
pub proof fn lemma_kept_pair(s: Seq<FileInfo>, j: int, k: int)
    requires
        0 <= j < k < kept_records(s).len(),
    ensures
        exists|a: int, b: int|
            0 <= a < b < s.len() && s[a] == kept_records(s)[j] && s[b] == kept_records(s)[k]
                && !s[a].delete_flag && !s[b].delete_flag,
    decreases s.len(),
{
    if s[0].delete_flag {
        lemma_kept_pair(s.drop_first(), j, k);
        let (a, b) = choose|a: int, b: int|
            0 <= a < b < s.drop_first().len() && s.drop_first()[a] == kept_records(
                s.drop_first(),
            )[j] && s.drop_first()[b] == kept_records(s.drop_first())[k]
                && !s.drop_first()[a].delete_flag && !s.drop_first()[b].delete_flag;
        assert(0 <= a + 1 < b + 1 < s.len() && s[a + 1] == kept_records(s)[j] && s[b + 1]
            == kept_records(s)[k] && !s[a + 1].delete_flag && !s[b + 1].delete_flag);
    } else if j == 0 {
        lemma_kept_sub(s.drop_first(), k - 1);
        let b = choose|b: int|
            0 <= b < s.drop_first().len() && s.drop_first()[b] == kept_records(s.drop_first())[k
                - 1] && !s.drop_first()[b].delete_flag;
        assert(0 <= 0 < b + 1 < s.len() && s[0] == kept_records(s)[0] && s[b + 1]
            == kept_records(s)[k] && !s[0].delete_flag && !s[b + 1].delete_flag);
    } else {
        lemma_kept_pair(s.drop_first(), j - 1, k - 1);
        let (a, b) = choose|a: int, b: int|
            0 <= a < b < s.drop_first().len() && s.drop_first()[a] == kept_records(
                s.drop_first(),
            )[j - 1] && s.drop_first()[b] == kept_records(s.drop_first())[k - 1]
                && !s.drop_first()[a].delete_flag && !s.drop_first()[b].delete_flag;
        assert(0 <= a + 1 < b + 1 < s.len() && s[a + 1] == kept_records(s)[j] && s[b + 1]
            == kept_records(s)[k] && !s[a + 1].delete_flag && !s[b + 1].delete_flag);
    }
}

/// Some record of `s` names the same storage object as `f`.
pub open spec fn inode_represented(s: Seq<FileInfo>, f: FileInfo) -> bool {
    exists|j: int| 0 <= j < s.len() && same_inode(f, #[trigger] s[j])
}

/// Position `j` of `s` loses the retention contest for its storage object:
/// some other record of the same object is preferred.
pub open spec fn inode_doomed(s: Seq<FileInfo>, j: int) -> bool {
    exists|k: int|
        0 <= k < s.len() && k != j && same_inode(s[k], s[j]) && precedes(s, k, j)
}

/// Among the positions below `i` whose record shares `s[j]`'s storage object,
/// one is preferred over all the others.
proof fn lemma_first_min_upto(s: Seq<FileInfo>, j: int, i: int)
    requires
        0 <= j < s.len(),
        0 <= i <= s.len(),
        exists|g: int| 0 <= g < i && same_inode(s[g], s[j]),
    ensures
        exists|m: int|
            0 <= m < i && same_inode(s[m], s[j]) && forall|k: int|
                0 <= k < i && k != m && same_inode(s[k], s[j]) ==> precedes(s, m, k),
    decreases i,
{
    if exists|g: int| 0 <= g < i - 1 && same_inode(s[g], s[j]) {
        lemma_first_min_upto(s, j, i - 1);
        let m0 = choose|m0: int|
            0 <= m0 < i - 1 && same_inode(s[m0], s[j]) && forall|k: int|
                0 <= k < i - 1 && k != m0 && same_inode(s[k], s[j]) ==> precedes(s, m0, k);
        if same_inode(s[i - 1], s[j]) && !precedes(s, m0, i - 1) {
            assert(precedes(s, i - 1, m0));
            assert forall|k: int|
                0 <= k < i && k != i - 1 && same_inode(s[k], s[j]) implies precedes(
                s,
                i - 1,
                k,
            ) by {
                if k != m0 {
                    assert(precedes(s, m0, k));
                }
            }
        } else {
            assert(forall|k: int|
                0 <= k < i && k != m0 && same_inode(s[k], s[j]) ==> precedes(s, m0, k));
        }
    } else {
        let g = choose|g: int| 0 <= g < i && same_inode(s[g], s[j]);
        assert(g == i - 1);
        assert(forall|k: int|
            0 <= k < i && k != i - 1 && same_inode(s[k], s[j]) ==> precedes(s, i - 1, k));
    }
}


/// Order on records by device then inode number.
pub open spec fn inode_key_le(a: FileInfo, b: FileInfo) -> bool {
    a.stat_dev < b.stat_dev || (a.stat_dev == b.stat_dev && a.stat_ino <= b.stat_ino)
}

/// Order on records by depth then path name, byte-lexicographically.
pub open spec fn depth_name_le(a: FileInfo, b: FileInfo) -> bool {
    a.depth < b.depth || (a.depth == b.depth && bytes_le(name_bytes(a), name_bytes(b)))
}

/// Which key a sort of the store goes by.
#[derive(Clone, Copy)]
pub enum SortKey {
    DeviceInode,
    DepthName,
    Size,
}

/// The sort order each key induces on records.
pub open spec fn key_le(k: SortKey, a: FileInfo, b: FileInfo) -> bool {
    match k {
        SortKey::DeviceInode => inode_key_le(a, b),
        SortKey::DepthName => depth_name_le(a, b),
        SortKey::Size => a.stat_size <= b.stat_size,
    }
}

/// Decides the sort key order between two records.
fn key_le_exec(k: SortKey, a: &FileInfo, b: &FileInfo) -> (r: bool)
    ensures
        r == key_le(k, *a, *b),
{
    match k {
        SortKey::DeviceInode => {
            a.stat_dev < b.stat_dev || (a.stat_dev == b.stat_dev && a.stat_ino <= b.stat_ino)
        },
        SortKey::Size => a.stat_size <= b.stat_size,
        SortKey::DepthName => {
            if a.depth < b.depth {
                true
            } else if a.depth > b.depth {
                false
            } else {
                let lt = str_lt(a.filename.as_str(), b.filename.as_str());
                let eq = str_eq(a.filename.as_str(), b.filename.as_str());
                proof {
                    if a.filename@ == b.filename@ {
                        assert(name_bytes(*a) == name_bytes(*b));
                    }
                    if !lt && !eq {
                        lemma_bytes_lt_total(name_bytes(*a), name_bytes(*b));
                        if name_bytes(*a) == name_bytes(*b) {
                            encode_utf8_decode_utf8(a.filename@);
                            encode_utf8_decode_utf8(b.filename@);
                        }
                    }
                }
                lt || eq
            }
        },
    }
}

/// Either order holds between any two records.
proof fn lemma_key_le_total(k: SortKey, a: FileInfo, b: FileInfo)
    ensures
        key_le(k, a, b) || key_le(k, b, a),
{
    match k {
        SortKey::DeviceInode => {},
        SortKey::Size => {},
        SortKey::DepthName => {
            lemma_bytes_lt_total(name_bytes(a), name_bytes(b));
        },
    }
}

/// The sort key order is transitive.
proof fn lemma_key_le_trans(k: SortKey, a: FileInfo, b: FileInfo, c: FileInfo)
    requires
        key_le(k, a, b),
        key_le(k, b, c),
    ensures
        key_le(k, a, c),
{
    match k {
        SortKey::DeviceInode => {},
        SortKey::Size => {},
        SortKey::DepthName => {
            if a.depth == b.depth && b.depth == c.depth {
                if bytes_lt(name_bytes(a), name_bytes(b)) && bytes_lt(
                    name_bytes(b),
                    name_bytes(c),
                ) {
                    lemma_bytes_lt_trans(name_bytes(a), name_bytes(b), name_bytes(c));
                }
            }
        },
    }
}

/// Inserts a record into a sorted sequence, after every record it does not
/// strictly precede: the stable insertion step.
pub open spec fn insert_sorted(x: FileInfo, s: Seq<FileInfo>, k: SortKey) -> Seq<FileInfo>
    decreases s.len(),
{
    if s.len() == 0 {
        seq![x]
    } else if key_le(k, s.last(), x) {
        s.push(x)
    } else {
        insert_sorted(x, s.drop_last(), k).push(s.last())
    }
}

/// The stable sort of a sequence by the given key: records are taken in
/// order and each inserted after its equals.
pub open spec fn stable_sorted(s: Seq<FileInfo>, k: SortKey) -> Seq<FileInfo>
    decreases s.len(),
{
    if s.len() == 0 {
        s
    } else {
        insert_sorted(s.last(), stable_sorted(s.drop_last(), k), k)
    }
}

/// Inserting at the position found by the backward scan is the stable
/// insertion step: everything from that position on strictly follows the new
/// record, and its left neighbour, if any, does not.
proof fn lemma_insert_sorted_at(x: FileInfo, s: Seq<FileInfo>, k: SortKey, p: int)
    requires
        0 <= p <= s.len(),
        forall|t: int| p <= t < s.len() ==> !key_le(k, #[trigger] s[t], x),
        p > 0 ==> key_le(k, s[p - 1], x),
    ensures
        insert_sorted(x, s, k) == s.take(p) + seq![x] + s.skip(p),
    decreases s.len() - p,
{
    if p == s.len() {
        if s.len() == 0 {
            assert(insert_sorted(x, s, k) =~= s.take(p) + seq![x] + s.skip(p));
        } else {
            assert(key_le(k, s.last(), x));
            assert(insert_sorted(x, s, k) == s.push(x));
            assert(s.push(x) =~= s.take(p) + seq![x] + s.skip(p));
        }
    } else {
        assert(!key_le(k, s.last(), x));
        lemma_insert_sorted_at(x, s.drop_last(), k, p);
        assert(insert_sorted(x, s, k) == (s.drop_last().take(p) + seq![x]
            + s.drop_last().skip(p)).push(s.last()));
        assert((s.drop_last().take(p) + seq![x] + s.drop_last().skip(p)).push(s.last())
            =~= s.take(p) + seq![x] + s.skip(p));
    }
}

/// Inserting an element anywhere adds exactly it to the sequence's multiset.
proof fn lemma_insert_multiset(s: Seq<FileInfo>, p: int, x: FileInfo)
    requires
        0 <= p <= s.len(),
    ensures
        s.insert(p, x).to_multiset() =~= s.to_multiset().insert(x),
{
    broadcast use vstd::seq_lib::group_to_multiset_ensures;

    assert(s.insert(p, x) =~= s.take(p) + (seq![x] + s.skip(p)));
    vstd::seq_lib::lemma_multiset_commutative(s.take(p), seq![x] + s.skip(p));
    vstd::seq_lib::lemma_multiset_commutative(seq![x], s.skip(p));
    vstd::seq_lib::lemma_multiset_commutative(s.take(p), s.skip(p));
    assert(s.take(p) + s.skip(p) =~= s);
    assert(seq![x] =~= Seq::<FileInfo>::empty().push(x));
    assert(Seq::<FileInfo>::empty().push(x).to_multiset() =~= Seq::<
        FileInfo,
    >::empty().to_multiset().insert(x));
    assert(Seq::<FileInfo>::empty().to_multiset() =~= Multiset::<FileInfo>::empty()) by {
        Seq::<FileInfo>::empty().to_multiset_ensures();
    }
}

/// Sorts the records by the given key with a stable insertion scheme.
fn sort_vec(v: &mut Vec<FileInfo>, k: SortKey)
    ensures
        final(v)@.len() == old(v)@.len(),
        forall|a: int, b: int|
            0 <= a < b < final(v)@.len() ==> key_le(k, final(v)@[a], final(v)@[b]),
        final(v)@.to_multiset() =~= old(v)@.to_multiset(),
        final(v)@ == stable_sorted(old(v)@, k),
{
    broadcast use vstd::seq_lib::group_to_multiset_ensures;

    let n = v.len();
    if n <= 1 {
        proof {
            if n == 1 {
                assert(v@.drop_last().len() == 0);
                assert(stable_sorted(v@.drop_last(), k) == v@.drop_last());
                assert(stable_sorted(v@, k) == insert_sorted(
                    v@.last(),
                    stable_sorted(v@.drop_last(), k),
                    k,
                ));
                assert(stable_sorted(v@, k) =~= seq![v@.last()]);
                assert(v@ =~= seq![v@.last()]);
            }
        }
        return ;
    }
    let mut i: usize = 1;
    proof {
        let t1 = v@.take(1);
        assert(t1.drop_last().len() == 0);
        assert(stable_sorted(t1.drop_last(), k) == t1.drop_last());
        assert(stable_sorted(t1, k) == insert_sorted(t1.last(), stable_sorted(t1.drop_last(), k), k));
        assert(stable_sorted(t1, k) =~= seq![t1.last()]);
        assert(t1 =~= seq![t1.last()]);
    }
    while i < n
        invariant
            1 <= i <= n,
            n == v@.len(),
            n == old(v)@.len(),
            forall|a: int, b: int| 0 <= a < b < i ==> key_le(k, v@[a], v@[b]),
            v@.to_multiset() =~= old(v)@.to_multiset(),
            v@.take(i as int) == stable_sorted(old(v)@.take(i as int), k),
            forall|t: int| i <= t < n ==> v@[t] == old(v)@[t],
        decreases n - i,
    {
        let ghost before = v@;
        let x = v.remove(i);
        let ghost mid = v@;
        proof {
            assert(mid == before.remove(i as int));
            vstd::seq_lib::to_multiset_remove(before, i as int);
            assert(before.contains(x)) by {
                assert(before[i as int] == x);
            }
            before.to_multiset_ensures();
            assert(before.to_multiset().count(x) > 0);
            assert(mid.to_multiset() =~= before.to_multiset().remove(x));
            assert(forall|t: int| 0 <= t < i ==> mid[t] == before[t]);
        }
        let mut p: usize = i;
        while p > 0 && !key_le_exec(k, &v[p - 1], &x)
            invariant
                0 <= p <= i,
                i < n,
                n - 1 == v@.len(),
                v@ == mid,
                forall|t: int| p <= t < i ==> !key_le(k, #[trigger] mid[t], x),
            decreases p,
        {
            p -= 1;
        }
        v.insert(p, x);
        proof {
            assert(v@ == mid.insert(p as int, x));
            lemma_insert_multiset(mid, p as int, x);
            assert(v@.to_multiset() =~= before.to_multiset()) by {
                assert(before.to_multiset().count(x) > 0);
                assert(v@.to_multiset() =~= before.to_multiset().remove(x).insert(x));
            }
            // the insertion point realises the stable insertion step
            let prefix = mid.take(i as int);
            assert(prefix == before.take(i as int));
            assert(forall|t: int| p <= t < i ==> !key_le(k, #[trigger] prefix[t], x));
            lemma_insert_sorted_at(x, prefix, k, p as int);
            assert(x == before[i as int]);
            assert(x == old(v)@[i as int]);
            assert(old(v)@.take(i as int + 1).drop_last() =~= old(v)@.take(i as int));
            assert(old(v)@.take(i as int + 1).last() == x);
            assert(stable_sorted(old(v)@.take(i as int + 1), k) == insert_sorted(
                x,
                stable_sorted(old(v)@.take(i as int), k),
                k,
            ));
            assert(v@.take(i as int + 1) =~= prefix.take(p as int) + seq![x] + prefix.skip(
                p as int,
            ));
            assert(forall|t: int| i + 1 <= t < n ==> v@[t] == old(v)@[t]);
            let cur = v@;
            assert forall|a: int, b: int| 0 <= a < b < i + 1 implies key_le(k, cur[a], cur[b]) by {
                if b < p {
                    assert(cur[a] == mid[a] && cur[b] == mid[b]);
                } else if a < p && b == p {
                    assert(cur[a] == mid[a] && cur[b] == x);
                    assert(key_le(k, mid[p - 1], x));
                    if a < p - 1 {
                        assert(key_le(k, mid[a], mid[p - 1]));
                        lemma_key_le_trans(k, mid[a], mid[p - 1], x);
                    }
                } else if a < p && b > p {
                    assert(cur[a] == mid[a] && cur[b] == mid[b - 1]);
                    assert(!key_le(k, mid[b - 1], x));
                    lemma_key_le_total(k, mid[b - 1], x);
                    assert(key_le(k, mid[p - 1], x));
                    if a < p - 1 {
                        assert(key_le(k, mid[a], mid[p - 1]));
                        lemma_key_le_trans(k, mid[a], mid[p - 1], x);
                    }
                    lemma_key_le_trans(k, mid[a], x, mid[b - 1]);
                } else if a == p {
                    assert(cur[a] == x && cur[b] == mid[b - 1]);
                    assert(!key_le(k, mid[b - 1], x));
                    lemma_key_le_total(k, mid[b - 1], x);
                } else {
                    assert(cur[a] == mid[a - 1] && cur[b] == mid[b - 1]);
                }
            }
        }
        i += 1;
    }
    proof {
        assert(v@.take(n as int) =~= v@);
        assert(old(v)@.take(n as int) =~= old(v)@);
    }
}

/// The store with every record's flag set by the inode contest: flagged
/// exactly where another record of the same storage object is preferred.
pub open spec fn inode_marked(s: Seq<FileInfo>) -> Seq<FileInfo> {
    Seq::new(s.len(), |t: int| with_flag(s[t], inode_doomed(s, t)))
}

/// The store with every record's flag set by its size count: flagged exactly
/// where no other record shares the size.
pub open spec fn size_marked(s: Seq<FileInfo>) -> Seq<FileInfo> {
    Seq::new(s.len(), |t: int| with_flag(s[t], size_count(s, s[t].stat_size) <= 1))
}

/// The store with every record's flag set by its content count: flagged
/// exactly where no other record shares size and window.
pub open spec fn content_marked(s: Seq<FileInfo>) -> Seq<FileInfo> {
    Seq::new(s.len(), |t: int| with_flag(s[t], content_count(s, s[t]) <= 1))
}

/// A record of one sequence also stands somewhere in any permutation of it.
proof fn lemma_perm_has_index(a: Seq<FileInfo>, b: Seq<FileInfo>, i: int)
    requires
        a.to_multiset() == b.to_multiset(),
        0 <= i < a.len(),
    ensures
        exists|j: int| 0 <= j < b.len() && b[j] == a[i],
{
    a.to_multiset_ensures();
    b.to_multiset_ensures();
    assert(a.contains(a[i]));
    assert(a.to_multiset().count(a[i]) > 0);
    assert(b.to_multiset().count(a[i]) > 0);
    assert(b.contains(a[i]));
}

/// Taking one record out takes exactly its size contribution out of the
/// count.
proof fn lemma_size_count_remove_one(s: Seq<FileInfo>, i: int, sz: i64)
    requires
        0 <= i < s.len(),
    ensures
        size_count(s, sz) == size_count(s.remove(i), sz) + (if s[i].stat_size == sz {
            1nat
        } else {
            0nat
        }),
    decreases i,
{
    if i == 0 {
        assert(s.remove(0) =~= s.drop_first());
    } else {
        lemma_size_count_remove_one(s.drop_first(), i - 1, sz);
        assert(s.remove(i).drop_first() =~= s.drop_first().remove(i - 1));
        assert(s.remove(i)[0] == s[0]);
    }
}

/// Size counts are the same in any permutation of a store.
proof fn lemma_size_count_perm(a: Seq<FileInfo>, b: Seq<FileInfo>, sz: i64)
    requires
        a.to_multiset() == b.to_multiset(),
    ensures
        size_count(a, sz) == size_count(b, sz),
    decreases a.len(),
{
    a.to_multiset_ensures();
    b.to_multiset_ensures();
    if a.len() == 0 {
        assert(b.len() == 0);
    } else {
        let x = a[0];
        assert(a.contains(x));
        assert(a.to_multiset().count(x) > 0);
        assert(b.to_multiset().count(x) > 0);
        assert(b.contains(x));
        let j = choose|j: int| 0 <= j < b.len() && b[j] == x;
        vstd::seq_lib::to_multiset_remove(a, 0);
        vstd::seq_lib::to_multiset_remove(b, j);
        assert(a.remove(0).to_multiset() =~= b.remove(j).to_multiset());
        lemma_size_count_perm(a.remove(0), b.remove(j), sz);
        lemma_size_count_remove_one(a, 0, sz);
        lemma_size_count_remove_one(b, j, sz);
    }
}

/// What compacting the contest-marked store leaves: one record per storage
/// object, the preferred one, with its flag cleared, in the sorted order.
#[verifier::spinoff_prover]
#[verifier::rlimit(100)]
proof fn lemma_inode_contest_kept(pre: Seq<FileInfo>, marked: Seq<FileInfo>, kept: Seq<FileInfo>)
    requires
        marked.len() == pre.len(),
        forall|t: int|
            0 <= t < pre.len() ==> #[trigger] marked[t] == with_flag(pre[t], inode_doomed(pre, t)),
        kept == kept_records(marked),
        forall|a: int, b: int| 0 <= a < b < pre.len() ==> inode_key_le(pre[a], pre[b]),
    ensures
        forall|i: int, j: int| 0 <= i < j < kept.len() ==> !same_inode(kept[i], kept[j]),
        forall|i: int, j: int| 0 <= i < j < kept.len() ==> inode_key_le(kept[i], kept[j]),
        forall|j: int|
            0 <= j < kept.len() ==> exists|c: int|
                0 <= c < pre.len() && #[trigger] kept[j] == cleared(#[trigger] pre[c]),
        forall|j: int, a: int|
            0 <= j < kept.len() && 0 <= a < pre.len() && same_inode(kept[j], pre[a]) ==> rank_le(
                kept[j],
                pre[a],
            ),
        forall|a: int| 0 <= a < pre.len() ==> inode_represented(kept, #[trigger] pre[a]),
        forall|j: int| 0 <= j < kept.len() ==> !kept[j].delete_flag,
{
    assert forall|j2: int| 0 <= j2 < kept.len() implies (exists|c: int|
        0 <= c < pre.len() && #[trigger] kept[j2] == cleared(#[trigger] pre[c]) && !inode_doomed(
            pre,
            c,
        )) by {
        lemma_kept_sub(marked, j2);
        let c = choose|c: int|
            0 <= c < marked.len() && marked[c] == kept[j2] && !marked[c].delete_flag;
        assert(kept[j2] == cleared(pre[c]) && !inode_doomed(pre, c));
    }
    assert forall|i2: int, j2: int|
        0 <= i2 < j2 < kept.len() implies !same_inode(kept[i2], kept[j2]) && inode_key_le(
        kept[i2],
        kept[j2],
    ) by {
        lemma_kept_pair(marked, i2, j2);
        let (a, b) = choose|a: int, b: int|
            0 <= a < b < marked.len() && marked[a] == kept[i2] && marked[b] == kept[j2]
                && !marked[a].delete_flag && !marked[b].delete_flag;
        assert(inode_key_le(pre[a], pre[b]));
        if same_inode(kept[i2], kept[j2]) {
            assert(same_inode(pre[a], pre[b]));
            if precedes(pre, a, b) {
                assert(inode_doomed(pre, b));
            } else {
                assert(precedes(pre, b, a));
                assert(inode_doomed(pre, a));
            }
        }
    }
    assert forall|j2: int, a: int|
        0 <= j2 < kept.len() && 0 <= a < pre.len() && same_inode(kept[j2], pre[a]) implies rank_le(
        kept[j2],
        pre[a],
    ) by {
        lemma_kept_sub(marked, j2);
        let c = choose|c: int|
            0 <= c < marked.len() && marked[c] == kept[j2] && !marked[c].delete_flag;
        if a != c {
            assert(same_inode(pre[c], pre[a]));
            assert(!precedes(pre, a, c));
            assert(precedes(pre, c, a));
        }
    }
    assert forall|a: int| 0 <= a < pre.len() implies inode_represented(kept, #[trigger] pre[a]) by {
        lemma_first_min_upto(pre, a, pre.len() as int);
        let m = choose|m: int|
            0 <= m < pre.len() && same_inode(pre[m], pre[a]) && forall|k: int|
                0 <= k < pre.len() && k != m && same_inode(pre[k], pre[a]) ==> precedes(pre, m, k);
        assert(!inode_doomed(pre, m)) by {
            if inode_doomed(pre, m) {
                let k = choose|k: int|
                    0 <= k < pre.len() && k != m && same_inode(pre[k], pre[m]) && precedes(
                        pre,
                        k,
                        m,
                    );
                assert(same_inode(pre[k], pre[a]));
                assert(precedes(pre, m, k));
            }
        }
        assert(!marked[m].delete_flag);
        lemma_kept_complete(marked, m);
        let j2 = choose|j2: int| 0 <= j2 < kept.len() && kept[j2] == marked[m];
        assert(same_inode(pre[a], kept[j2]));
    }
}

/// Carries the drawn-from-the-store clause over from the sorted store to
/// the store as it was handed in, which the sort permuted.
#[verifier::spinoff_prover]
proof fn lemma_bridge_cleared(orig: Seq<FileInfo>, pre: Seq<FileInfo>, kept: Seq<FileInfo>)
    requires
        pre.to_multiset() == orig.to_multiset(),
        forall|j: int|
            0 <= j < kept.len() ==> exists|c: int|
                0 <= c < pre.len() && #[trigger] kept[j] == cleared(#[trigger] pre[c]),
    ensures
        forall|j: int|
            0 <= j < kept.len() ==> exists|a: int|
                0 <= a < orig.len() && #[trigger] kept[j] == cleared(#[trigger] orig[a]),
{
    assert forall|j: int| 0 <= j < kept.len() implies (exists|a: int|
        0 <= a < orig.len() && #[trigger] kept[j] == cleared(#[trigger] orig[a])) by {
        let c = choose|c: int|
            0 <= c < pre.len() && #[trigger] kept[j] == cleared(#[trigger] pre[c]);
        lemma_perm_has_index(pre, orig, c);
        let a = choose|a: int| 0 <= a < orig.len() && orig[a] == pre[c];
        assert(kept[j] == cleared(orig[a]));
    }
}

/// Carries the rank-minimality clause over from the sorted store to the
/// store as it was handed in.
#[verifier::spinoff_prover]
proof fn lemma_bridge_rank(orig: Seq<FileInfo>, pre: Seq<FileInfo>, kept: Seq<FileInfo>)
    requires
        pre.to_multiset() == orig.to_multiset(),
        forall|j: int, a: int|
            0 <= j < kept.len() && 0 <= a < pre.len() && same_inode(kept[j], pre[a]) ==> rank_le(
                kept[j],
                pre[a],
            ),
    ensures
        forall|j: int, a: int|
            0 <= j < kept.len() && 0 <= a < orig.len() && same_inode(kept[j], orig[a]) ==> rank_le(
                kept[j],
                orig[a],
            ),
{
    assert forall|j: int, a: int|
        0 <= j < kept.len() && 0 <= a < orig.len() && same_inode(kept[j], orig[a]) implies rank_le(
        kept[j],
        orig[a],
    ) by {
        lemma_perm_has_index(orig, pre, a);
        let b = choose|b: int| 0 <= b < pre.len() && pre[b] == orig[a];
        assert(rank_le(kept[j], pre[b]));
    }
}

/// Carries the every-object-represented clause over from the sorted store to
/// the store as it was handed in.
#[verifier::spinoff_prover]
proof fn lemma_bridge_represented(orig: Seq<FileInfo>, pre: Seq<FileInfo>, kept: Seq<FileInfo>)
    requires
        pre.to_multiset() == orig.to_multiset(),
        forall|a: int| 0 <= a < pre.len() ==> inode_represented(kept, #[trigger] pre[a]),
    ensures
        forall|a: int| 0 <= a < orig.len() ==> inode_represented(kept, #[trigger] orig[a]),
{
    assert forall|a: int| 0 <= a < orig.len() implies inode_represented(
        kept,
        #[trigger] orig[a],
    ) by {
        lemma_perm_has_index(orig, pre, a);
        let b = choose|b: int| 0 <= b < pre.len() && pre[b] == orig[a];
        assert(inode_represented(kept, pre[b]));
    }
}

/// Decides whether record `a` at position `ia` is preferred over record `b`
/// at position `ib`: a strictly lower retention key, or an equal key earlier.
fn rank_before(a: &FileInfo, b: &FileInfo, ia: usize, ib: usize) -> (r: bool)
    ensures
        r == (rank_lt(*a, *b) || (rank_eq(*a, *b) && ia < ib)),
{
    if a.cmdline_index < b.cmdline_index {
        true
    } else if a.cmdline_index == b.cmdline_index && a.depth < b.depth {
        true
    } else if a.cmdline_index == b.cmdline_index && a.depth == b.depth && a.identity < b.identity {
        true
    } else if a.cmdline_index == b.cmdline_index && a.depth == b.depth && a.identity == b.identity
        && ia < ib {
        true
    } else {
        false
    }
}


/// How many records of `s` have size `sz`.
pub open spec fn size_count(s: Seq<FileInfo>, sz: i64) -> nat
    decreases s.len(),
{
    if s.len() == 0 {
        0
    } else {
        (if s[0].stat_size == sz {
            1nat
        } else {
            0nat
        }) + size_count(s.drop_first(), sz)
    }
}

/// How many records of `s` share content discriminators with `f`.
pub open spec fn content_count(s: Seq<FileInfo>, f: FileInfo) -> nat
    decreases s.len(),
{
    if s.len() == 0 {
        0
    } else {
        (if same_content(s[0], f) {
            1nat
        } else {
            0nat
        }) + content_count(s.drop_first(), f)
    }
}

/// Size counts agree between two stores whose records have the same sizes
/// position by position.
proof fn lemma_size_count_congruent(s: Seq<FileInfo>, t: Seq<FileInfo>, sz: i64)
    requires
        s.len() == t.len(),
        forall|i: int| 0 <= i < s.len() ==> (#[trigger] s[i]).stat_size == t[i].stat_size,
    ensures
        size_count(s, sz) == size_count(t, sz),
    decreases s.len(),
{
    if s.len() > 0 {
        lemma_size_count_congruent(s.drop_first(), t.drop_first(), sz);
    }
}

/// Content counts agree between two stores whose records have the same
/// content discriminators position by position.
proof fn lemma_content_count_congruent(s: Seq<FileInfo>, t: Seq<FileInfo>, f: FileInfo)
    requires
        s.len() == t.len(),
        forall|i: int| 0 <= i < s.len() ==> same_content(#[trigger] s[i], t[i]),
    ensures
        content_count(s, f) == content_count(t, f),
    decreases s.len(),
{
    if s.len() > 0 {
        lemma_content_count_congruent(s.drop_first(), t.drop_first(), f);
    }
}

/// Content counts see only the content discriminators of the probe record.
proof fn lemma_content_count_probe(s: Seq<FileInfo>, f: FileInfo, g: FileInfo)
    requires
        same_content(f, g),
    ensures
        content_count(s, f) == content_count(s, g),
    decreases s.len(),
{
    if s.len() > 0 {
        lemma_content_count_probe(s.drop_first(), f, g);
    }
}

/// Compacting a store whose flags follow the size counts of a base store
/// keeps exactly the records of the sizes that occur at least twice.
proof fn lemma_kept_size_counts(s: Seq<FileInfo>, base: Seq<FileInfo>)
    requires
        forall|j: int|
            0 <= j < s.len() ==> (#[trigger] s[j]).delete_flag == (size_count(
                base,
                s[j].stat_size,
            ) <= 1),
    ensures
        forall|sz: i64|
            #[trigger] size_count(kept_records(s), sz) == if size_count(base, sz) >= 2 {
                size_count(s, sz)
            } else {
                0nat
            },
    decreases s.len(),
{
    if s.len() > 0 {
        lemma_kept_size_counts(s.drop_first(), base);
        assert forall|sz: i64|
            #[trigger] size_count(kept_records(s), sz) == if size_count(base, sz) >= 2 {
                size_count(s, sz)
            } else {
                0nat
            } by {
            assert(size_count(s, sz) == (if s[0].stat_size == sz {
                1nat
            } else {
                0nat
            }) + size_count(s.drop_first(), sz));
            let ih = size_count(kept_records(s.drop_first()), sz);
            if s[0].delete_flag {
                assert(kept_records(s) == kept_records(s.drop_first()));
                assert(size_count(kept_records(s), sz) == ih);
                if size_count(base, sz) >= 2 {
                    assert(s[0].stat_size != sz);
                }
            } else {
                assert(kept_records(s) == seq![s[0]] + kept_records(s.drop_first()));
                assert(kept_records(s).drop_first() =~= kept_records(s.drop_first()));
                assert(size_count(kept_records(s), sz) == (if s[0].stat_size == sz {
                    1nat
                } else {
                    0nat
                }) + ih);
                if size_count(base, sz) < 2 {
                    assert(s[0].stat_size != sz);
                }
            }
        }
    }
}

/// Compacting a store whose flags follow the content counts of a base store
/// keeps exactly the records whose content occurs at least twice.
proof fn lemma_kept_content_counts(s: Seq<FileInfo>, base: Seq<FileInfo>)
    requires
        forall|j: int|
            0 <= j < s.len() ==> (#[trigger] s[j]).delete_flag == (content_count(base, s[j])
                <= 1),
    ensures
        forall|f: FileInfo|
            #[trigger] content_count(kept_records(s), f) == if content_count(base, f) >= 2 {
                content_count(s, f)
            } else {
                0nat
            },
    decreases s.len(),
{
    if s.len() > 0 {
        lemma_kept_content_counts(s.drop_first(), base);
        assert forall|f: FileInfo|
            #[trigger] content_count(kept_records(s), f) == if content_count(base, f) >= 2 {
                content_count(s, f)
            } else {
                0nat
            } by {
            assert(content_count(s, f) == (if same_content(s[0], f) {
                1nat
            } else {
                0nat
            }) + content_count(s.drop_first(), f));
            let ih = content_count(kept_records(s.drop_first()), f);
            if s[0].delete_flag {
                assert(kept_records(s) == kept_records(s.drop_first()));
                assert(content_count(kept_records(s), f) == ih);
                if content_count(base, f) >= 2 && same_content(s[0], f) {
                    lemma_content_count_probe(base, s[0], f);
                }
            } else {
                assert(kept_records(s) == seq![s[0]] + kept_records(s.drop_first()));
                assert(kept_records(s).drop_first() =~= kept_records(s.drop_first()));
                assert(content_count(kept_records(s), f) == (if same_content(kept_records(s)[0], f) {
                    1nat
                } else {
                    0nat
                }) + ih);
                if content_count(base, f) < 2 && same_content(s[0], f) {
                    lemma_content_count_probe(base, s[0], f);
                }
            }
        }
    }
}


/// Decides whether two records agree on the content discriminators.
fn same_content_exec(a: &FileInfo, b: &FileInfo) -> (r: bool)
    ensures
        r == same_content(*a, *b),
{
    a.stat_size == b.stat_size && bytes_eq(a.somebytes.as_slice(), b.somebytes.as_slice())
}

/// Counts the records of the given size.
fn count_size(list: &Vec<FileInfo>, sz: i64) -> (c: usize)
    ensures
        c == size_count(list@, sz),
{
    let n = list.len();
    let mut c: usize = 0;
    let mut i: usize = 0;
    proof {
        assert(list@.skip(0) =~= list@);
    }
    while i < n
        invariant
            0 <= i <= n,
            n == list@.len(),
            c <= i,
            c + size_count(list@.skip(i as int), sz) == size_count(list@, sz),
        decreases n - i,
    {
        proof {
            assert(list@.skip(i as int)[0] == list@[i as int]);
            assert(list@.skip(i as int).drop_first() =~= list@.skip(i as int + 1));
        }
        if list[i].stat_size == sz {
            c += 1;
        }
        i += 1;
    }
    proof {
        assert(list@.skip(n as int).len() == 0);
    }
    c
}

/// Counts the records that share content discriminators with record `j`.
fn count_content(list: &Vec<FileInfo>, j: usize) -> (c: usize)
    requires
        j < list@.len(),
    ensures
        c == content_count(list@, list@[j as int]),
{
    let n = list.len();
    let mut c: usize = 0;
    let mut i: usize = 0;
    proof {
        assert(list@.skip(0) =~= list@);
    }
    while i < n
        invariant
            0 <= i <= n,
            n == list@.len(),
            j < n,
            c <= i,
            c + content_count(list@.skip(i as int), list@[j as int]) == content_count(
                list@,
                list@[j as int],
            ),
        decreases n - i,
    {
        proof {
            assert(list@.skip(i as int)[0] == list@[i as int]);
            assert(list@.skip(i as int).drop_first() =~= list@.skip(i as int + 1));
        }
        if same_content_exec(&list[i], &list[j]) {
            c += 1;
        }
        i += 1;
    }
    proof {
        assert(list@.skip(n as int).len() == 0);
    }
    c
}

impl Rdutil {
    /// Takes ownership of the record list.
    pub fn new(list: Vec<FileInfo>) -> (r: Rdutil)
        ensures
            r.list == list,
    {
        Rdutil { list }
    }

    /// Stamps every record with its sequence id in current order, starting
    /// from one; called exactly once, before any pass that breaks ties by it.
    pub fn mark_items(&mut self)
        requires
            old(self).list@.len() < 0x7fff_ffff_ffff_ffff,
        ensures
            final(self).list@.len() == old(self).list@.len(),
            forall|j: int|
                0 <= j < old(self).list@.len() ==> final(self).list@[j] == (FileInfo {
                    identity: (j + 1) as i64,
                    ..old(self).list@[j]
                }),
    {
        let n = self.list.len();
        let mut i: usize = 0;
        while i < n
            invariant
                0 <= i <= n,
                n == self.list@.len(),
                n < 0x7fff_ffff_ffff_ffff,
                forall|j: int|
                    0 <= j < i ==> self.list@[j] == (FileInfo {
                        identity: (j + 1) as i64,
                        ..old(self).list@[j]
                    }),
                forall|j: int| i <= j < n ==> self.list@[j] == old(self).list@[j],
            decreases n - i,
        {
            let ghost pre = self.list@;
            let mut x = self.list.remove(i);
            x.identity = (i as i64) + 1;
            self.list.insert(i, x);
            proof {
                assert(self.list@ =~= pre.update(i as int, x));
            }
            i += 1;
        }
    }

    /// Removes every record flagged for removal, preserving the order of the
    /// retained ones, and reports how many left the store.
    pub fn cleanup(&mut self) -> (removed: usize)
        ensures
            final(self).list@ == kept_records(old(self).list@),
            removed == old(self).list@.len() - final(self).list@.len(),
    {
        let ghost orig = self.list@;
        let before = self.list.len();
        let mut i: usize = 0;
        proof {
            assert(orig.skip(0) =~= orig);
            assert(kept_records(orig) =~= self.list@.take(0) + kept_records(self.list@.skip(0)));
        }
        while i < self.list.len()
            invariant
                0 <= i <= self.list@.len(),
                self.list@.len() <= orig.len(),
                before == orig.len(),
                kept_records(orig) == self.list@.take(i as int) + kept_records(
                    self.list@.skip(i as int),
                ),
            decreases self.list@.len() - i,
        {
            if self.list[i].delete_flag {
                let ghost pre = self.list@;
                self.list.remove(i);
                proof {
                    assert(pre.skip(i as int)[0].delete_flag);
                    assert(kept_records(pre.skip(i as int)) == kept_records(
                        pre.skip(i as int).drop_first(),
                    ));
                    assert(pre.skip(i as int).drop_first() =~= self.list@.skip(i as int));
                    assert(self.list@.take(i as int) =~= pre.take(i as int));
                }
            } else {
                proof {
                    let rest = self.list@.skip(i as int);
                    assert(!rest[0].delete_flag);
                    assert(kept_records(rest) == seq![rest[0]] + kept_records(rest.drop_first()));
                    assert(rest.drop_first() =~= self.list@.skip(i as int + 1));
                    assert(self.list@.take(i as int + 1) =~= self.list@.take(i as int) + seq![
                        self.list@[i as int],
                    ]);
                    assert(self.list@.take(i as int) + kept_records(rest) =~= self.list@.take(
                        i as int + 1,
                    ) + kept_records(self.list@.skip(i as int + 1)));
                }
                i += 1;
            }
        }
        proof {
            assert(self.list@.skip(i as int).len() == 0);
            assert(kept_records(orig) =~= self.list@.take(i as int));
            assert(self.list@.take(i as int) =~= self.list@);
        }
        before - self.list.len()
    }

    /// Collapses records that name the same storage object (hardlinks) to a
    /// single record: the one with the minimal retention key, earliest on a
    /// tie, survives; every other record of that object leaves the store.
    #[verifier::rlimit(100)]
    #[verifier::spinoff_prover]
    pub fn remove_identical_inodes(&mut self) -> (removed: usize)
        ensures
            final(self).list@ == kept_records(
                inode_marked(stable_sorted(old(self).list@, SortKey::DeviceInode)),
            ),
            removed == old(self).list@.len() - final(self).list@.len(),
            forall|i: int, j: int|
                0 <= i < j < final(self).list@.len() ==> !same_inode(
                    final(self).list@[i],
                    final(self).list@[j],
                ),
            forall|i: int, j: int|
                0 <= i < j < final(self).list@.len() ==> inode_key_le(
                    final(self).list@[i],
                    final(self).list@[j],
                ),
            forall|j: int|
                0 <= j < final(self).list@.len() ==> exists|a: int|
                    0 <= a < old(self).list@.len() && #[trigger] final(self).list@[j]
                        == cleared(#[trigger] old(self).list@[a]),
            forall|j: int, a: int|
                0 <= j < final(self).list@.len() && 0 <= a < old(self).list@.len() && same_inode(
                    final(self).list@[j],
                    old(self).list@[a],
                ) ==> rank_le(final(self).list@[j], old(self).list@[a]),
            forall|a: int|
                0 <= a < old(self).list@.len() ==> inode_represented(
                    final(self).list@,
                    #[trigger] old(self).list@[a],
                ),
            forall|j: int|
                0 <= j < final(self).list@.len() ==> !final(self).list@[j].delete_flag,
    {
        let ghost orig = self.list@;
        sort_vec(&mut self.list, SortKey::DeviceInode);
        let ghost pre = self.list@;
        let n = self.list.len();
        let mut j: usize = 0;
        while j < n
            invariant
                0 <= j <= n,
                n == self.list@.len(),
                pre.len() == n,
                forall|t: int|
                    0 <= t < j ==> self.list@[t] == with_flag(pre[t], inode_doomed(pre, t)),
                forall|t: int| j <= t < n ==> self.list@[t] == pre[t],
            decreases n - j,
        {
            let mut doomed = false;
            let mut k: usize = 0;
            while k < n
                invariant
                    0 <= k <= n,
                    0 <= j < n,
                    n == self.list@.len(),
                    pre.len() == n,
                    forall|t: int|
                        0 <= t < j ==> self.list@[t] == with_flag(pre[t], inode_doomed(pre, t)),
                    forall|t: int| j <= t < n ==> self.list@[t] == pre[t],
                    doomed == exists|t: int|
                        0 <= t < k && t != j && same_inode(pre[t], pre[j as int]) && precedes(
                            pre,
                            t,
                            j as int,
                        ),
                decreases n - k,
            {
                if k != j {
                    if self.list[k].stat_dev == self.list[j].stat_dev && self.list[k].stat_ino
                        == self.list[j].stat_ino {
                        if rank_before(&self.list[k], &self.list[j], k, j) {
                            proof {
                                assert(same_inode(pre[k as int], pre[j as int]) && precedes(
                                    pre,
                                    k as int,
                                    j as int,
                                ));
                            }
                            doomed = true;
                        }
                    }
                }
                k += 1;
            }
            let ghost mid = self.list@;
            let mut x = self.list.remove(j);
            x.delete_flag = doomed;
            self.list.insert(j, x);
            proof {
                assert(doomed == inode_doomed(pre, j as int));
                assert(self.list@ =~= mid.update(j as int, with_flag(pre[j as int], doomed)));
            }
            j += 1;
        }
        let ghost marked = self.list@;
        proof {
            assert(forall|t: int|
                0 <= t < n ==> marked[t] == with_flag(pre[t], inode_doomed(pre, t)));
        }
        let removed = self.cleanup();
        proof {
            let kept = final(self).list@;
            assert(kept == kept_records(marked));
            assert(marked =~= inode_marked(pre));
            assert(pre == stable_sorted(orig, SortKey::DeviceInode));
            assert(pre.to_multiset() == orig.to_multiset());
            assert forall|a: int, b: int|
                0 <= a < b < pre.len() implies inode_key_le(pre[a], pre[b]) by {
                assert(key_le(SortKey::DeviceInode, pre[a], pre[b]));
            }
            lemma_inode_contest_kept(pre, marked, kept);
            lemma_bridge_cleared(orig, pre, kept);
            lemma_bridge_rank(orig, pre, kept);
            lemma_bridge_represented(orig, pre, kept);
        }
        removed
    }

    /// Removes every record whose size no other record shares: such a file
    /// cannot have a duplicate. Surviving records have their flags cleared.
    #[verifier::rlimit(100)]
    #[verifier::spinoff_prover]
    pub fn remove_unique_sizes(&mut self) -> (removed: usize)
        ensures
            final(self).list@ == kept_records(
                size_marked(stable_sorted(old(self).list@, SortKey::Size)),
            ),
            removed == old(self).list@.len() - final(self).list@.len(),
            forall|i: int, j: int|
                0 <= i < j < final(self).list@.len() ==> final(self).list@[i].stat_size
                    <= final(self).list@[j].stat_size,
            forall|j: int|
                0 <= j < final(self).list@.len() ==> exists|a: int|
                    0 <= a < old(self).list@.len() && #[trigger] final(self).list@[j]
                        == cleared(#[trigger] old(self).list@[a]),
            forall|j: int|
                0 <= j < final(self).list@.len() ==> size_count(
                    old(self).list@,
                    (#[trigger] final(self).list@[j]).stat_size,
                ) >= 2 && !final(self).list@[j].delete_flag,
            forall|sz: i64|
                #[trigger] size_count(final(self).list@, sz) == if size_count(
                    old(self).list@,
                    sz,
                ) >= 2 {
                    size_count(old(self).list@, sz)
                } else {
                    0nat
                },
    {
        let ghost orig = self.list@;
        sort_vec(&mut self.list, SortKey::Size);
        let ghost pre = self.list@;
        let n = self.list.len();
        let mut j: usize = 0;
        while j < n
            invariant
                0 <= j <= n,
                n == self.list@.len(),
                pre.len() == n,
                forall|t: int|
                    0 <= t < j ==> self.list@[t] == with_flag(
                        pre[t],
                        size_count(pre, pre[t].stat_size) <= 1,
                    ),
                forall|t: int| j <= t < n ==> self.list@[t] == pre[t],
            decreases n - j,
        {
            let sz = self.list[j].stat_size;
            let c = count_size(&self.list, sz);
            proof {
                assert forall|i: int| 0 <= i < n implies (#[trigger] self.list@[i]).stat_size
                    == pre[i].stat_size by {}
                lemma_size_count_congruent(self.list@, pre, sz);
            }
            let ghost mid = self.list@;
            let mut x = self.list.remove(j);
            x.delete_flag = c <= 1;
            self.list.insert(j, x);
            proof {
                assert(self.list@ =~= mid.update(
                    j as int,
                    with_flag(pre[j as int], size_count(pre, pre[j as int].stat_size) <= 1),
                ));
            }
            j += 1;
        }
        let ghost marked = self.list@;
        let removed = self.cleanup();
        proof {
            let kept = final(self).list@;
            assert(kept == kept_records(marked));
            assert forall|t: int| 0 <= t < marked.len() implies (#[trigger] marked[t]).delete_flag
                == (size_count(pre, marked[t].stat_size) <= 1) by {}
            lemma_kept_size_counts(marked, pre);
            assert forall|sz: i64|
                #[trigger] size_count(kept, sz) == if size_count(pre, sz) >= 2 {
                    size_count(pre, sz)
                } else {
                    0nat
                } by {
                assert forall|i: int| 0 <= i < n implies (#[trigger] marked[i]).stat_size
                    == pre[i].stat_size by {}
                lemma_size_count_congruent(marked, pre, sz);
            }
            assert forall|j2: int| 0 <= j2 < kept.len() implies (exists|a: int|
                0 <= a < pre.len() && #[trigger] kept[j2] == cleared(#[trigger] pre[a])) && size_count(
                pre,
                kept[j2].stat_size,
            ) >= 2 && !kept[j2].delete_flag by {
                lemma_kept_sub(marked, j2);
                let a = choose|a: int|
                    0 <= a < marked.len() && marked[a] == kept[j2] && !marked[a].delete_flag;
                assert(kept[j2] == cleared(pre[a]));
                assert(size_count(pre, pre[a].stat_size) >= 2);
            }
            // exactly the compaction of the sorted, count-marked store
            assert(marked =~= size_marked(pre));
            assert(pre == stable_sorted(orig, SortKey::Size));
            // survivors keep the ascending size order
            assert forall|i2: int, j2: int|
                0 <= i2 < j2 < kept.len() implies kept[i2].stat_size <= kept[j2].stat_size by {
                lemma_kept_pair(marked, i2, j2);
                let (a, b) = choose|a: int, b: int|
                    0 <= a < b < marked.len() && marked[a] == kept[i2] && marked[b] == kept[j2]
                        && !marked[a].delete_flag && !marked[b].delete_flag;
                assert(key_le(SortKey::Size, pre[a], pre[b]));
            }
            // the clauses over the store as it was handed in
            assert(pre.to_multiset() == orig.to_multiset());
            lemma_bridge_cleared(orig, pre, kept);
            assert forall|sz: i64| #[trigger] size_count(pre, sz) == size_count(orig, sz) by {
                lemma_size_count_perm(pre, orig, sz);
            }
        }
        removed
    }

    /// Removes every record whose size and window bytes no other record
    /// shares: after the window (or digest) was filled, such a file has no
    /// duplicate. Surviving records have their flags cleared.
    pub fn remove_unique_size_and_buffer(&mut self) -> (removed: usize)
        ensures
            final(self).list@ == kept_records(content_marked(old(self).list@)),
            removed == old(self).list@.len() - final(self).list@.len(),
            forall|j: int|
                0 <= j < final(self).list@.len() ==> exists|a: int|
                    0 <= a < old(self).list@.len() && #[trigger] final(self).list@[j]
                        == cleared(#[trigger] old(self).list@[a]),
            forall|j: int|
                0 <= j < final(self).list@.len() ==> content_count(
                    old(self).list@,
                    #[trigger] final(self).list@[j],
                ) >= 2 && !final(self).list@[j].delete_flag,
            forall|f: FileInfo|
                #[trigger] content_count(final(self).list@, f) == if content_count(
                    old(self).list@,
                    f,
                ) >= 2 {
                    content_count(old(self).list@, f)
                } else {
                    0nat
                },
    {
        let ghost pre = self.list@;
        let n = self.list.len();
        let mut j: usize = 0;
        while j < n
            invariant
                0 <= j <= n,
                n == self.list@.len(),
                pre.len() == n,
                forall|t: int|
                    0 <= t < j ==> self.list@[t] == with_flag(
                        pre[t],
                        content_count(pre, pre[t]) <= 1,
                    ),
                forall|t: int| j <= t < n ==> self.list@[t] == pre[t],
            decreases n - j,
        {
            let c = count_content(&self.list, j);
            proof {
                assert forall|i: int| 0 <= i < n implies same_content(
                    #[trigger] self.list@[i],
                    pre[i],
                ) by {}
                lemma_content_count_congruent(self.list@, pre, self.list@[j as int]);
                lemma_content_count_probe(pre, self.list@[j as int], pre[j as int]);
            }
            let ghost mid = self.list@;
            let mut x = self.list.remove(j);
            x.delete_flag = c <= 1;
            self.list.insert(j, x);
            proof {
                assert(self.list@ =~= mid.update(
                    j as int,
                    with_flag(pre[j as int], content_count(pre, pre[j as int]) <= 1),
                ));
            }
            j += 1;
        }
        let ghost marked = self.list@;
        let removed = self.cleanup();
        proof {
            let kept = final(self).list@;
            assert(kept == kept_records(marked));
            assert forall|t: int| 0 <= t < marked.len() implies (#[trigger] marked[t]).delete_flag
                == (content_count(pre, marked[t]) <= 1) by {
                lemma_content_count_probe(pre, marked[t], pre[t]);
            }
            lemma_kept_content_counts(marked, pre);
            assert forall|f: FileInfo|
                #[trigger] content_count(kept, f) == if content_count(pre, f) >= 2 {
                    content_count(pre, f)
                } else {
                    0nat
                } by {
                assert forall|i: int| 0 <= i < n implies same_content(
                    #[trigger] marked[i],
                    pre[i],
                ) by {}
                lemma_content_count_congruent(marked, pre, f);
            }
            assert forall|j2: int| 0 <= j2 < kept.len() implies (exists|a: int|
                0 <= a < pre.len() && #[trigger] kept[j2] == cleared(#[trigger] pre[a]))
                && content_count(pre, kept[j2]) >= 2 && !kept[j2].delete_flag by {
                lemma_kept_sub(marked, j2);
                let a = choose|a: int|
                    0 <= a < marked.len() && marked[a] == kept[j2] && !marked[a].delete_flag;
                assert(kept[j2] == cleared(pre[a]));
                lemma_content_count_probe(pre, kept[j2], pre[a]);
            }
            // exactly the compaction of the count-marked store, order kept
            assert(marked =~= content_marked(pre));
        }
        removed
    }

    /// Sorts the store by device and inode number, ascending, so that records
    /// of one storage object stand together and reads gain locality.
    pub fn sort_on_device_and_inode(&mut self)
        ensures
            final(self).list@ == stable_sorted(old(self).list@, SortKey::DeviceInode),
            final(self).list@.len() == old(self).list@.len(),
            forall|a: int, b: int|
                0 <= a < b < final(self).list@.len() ==> inode_key_le(
                    final(self).list@[a],
                    final(self).list@[b],
                ),
            final(self).list@.to_multiset() =~= old(self).list@.to_multiset(),
    {
        sort_vec(&mut self.list, SortKey::DeviceInode);
        proof {
            assert forall|a: int, b: int|
                0 <= a < b < self.list@.len() implies inode_key_le(
                self.list@[a],
                self.list@[b],
            ) by {
                assert(key_le(SortKey::DeviceInode, self.list@[a], self.list@[b]));
            }
        }
    }

    /// Sorts the records from the given index on by depth and then name,
    /// leaving earlier entries untouched; with an index at or past the end
    /// this is a no-op.
    pub fn sort_on_depth_and_name(&mut self, index_of_first: usize)
        ensures
            index_of_first < old(self).list@.len() ==> final(self).list@ == old(
                self,
            ).list@.take(index_of_first as int) + stable_sorted(
                old(self).list@.skip(index_of_first as int),
                SortKey::DepthName,
            ),
            final(self).list@.len() == old(self).list@.len(),
            forall|t: int|
                0 <= t < index_of_first && t < old(self).list@.len()
                    ==> final(self).list@[t] == old(self).list@[t],
            forall|a: int, b: int|
                index_of_first <= a < b < final(self).list@.len() ==> depth_name_le(
                    final(self).list@[a],
                    final(self).list@[b],
                ),
            index_of_first < old(self).list@.len() ==> final(self).list@.skip(
                index_of_first as int,
            ).to_multiset() =~= old(self).list@.skip(index_of_first as int).to_multiset(),
            index_of_first >= old(self).list@.len() ==> final(self).list@ == old(self).list@,
    {
        let len = self.list.len();
        if index_of_first < len {
            let mut suffix = self.list.split_off(index_of_first);
            sort_vec(&mut suffix, SortKey::DepthName);
            let ghost sorted_suffix = suffix@;
            self.list.append(&mut suffix);
            proof {
                assert(self.list@ =~= old(self).list@.take(index_of_first as int)
                    + sorted_suffix);
                assert(self.list@.skip(index_of_first as int) =~= sorted_suffix);
                assert(forall|t: int|
                    0 <= t < index_of_first ==> self.list@[t] == old(self).list@[t]);
                assert forall|a: int, b: int|
                    index_of_first <= a < b < self.list@.len() implies depth_name_le(
                    self.list@[a],
                    self.list@[b],
                ) by {
                    assert(self.list@[a] == sorted_suffix[a - index_of_first]);
                    assert(self.list@[b] == sorted_suffix[b - index_of_first]);
                    assert(key_le(
                        SortKey::DepthName,
                        sorted_suffix[a - index_of_first],
                        sorted_suffix[b - index_of_first],
                    ));
                }
            }
        }
    }

    /// Tags every record: in each content group of two or more, the preferred
    /// member becomes the retained first occurrence and the rest are tagged
    /// redundant, within its tree or outside it, and flagged for the action
    /// phase; records without a content partner are left untouched.
    pub fn mark_duplicate_files(&mut self)
        ensures
            marked_correctly(old(self).list@, final(self).list@),
    {
        let ghost pre = self.list@;
        let n = self.list.len();
        let mut j: usize = 0;
        while j < n
            invariant
                0 <= j <= n,
                n == self.list@.len(),
                pre.len() == n,
                forall|t: int| j <= t < n ==> self.list@[t] == pre[t],
                forall|t: int|
                    0 <= t < n ==> same_content(#[trigger] self.list@[t], pre[t])
                        && self.list@[t].cmdline_index == pre[t].cmdline_index
                        && self.list@[t].depth == pre[t].depth && self.list@[t].identity
                        == pre[t].identity,
                forall|t: int|
                    0 <= t < j && !has_partner(pre, t) ==> #[trigger] self.list@[t] == pre[t],
                forall|t: int|
                    0 <= t < j && has_partner(pre, t) && content_first(pre, t)
                        ==> #[trigger] self.list@[t] == with_tag(
                        pre[t],
                        DupType::FirstOccurrence,
                        false,
                    ),
                forall|t: int, m2: int|
                    #![trigger self.list@[t], pre[m2]]
                    0 <= t < j && 0 <= m2 < n && t != m2 && same_content(pre[t], pre[m2])
                        && content_first(pre, m2) ==> self.list@[t] == with_tag(
                        pre[t],
                        if pre[m2].cmdline_index == pre[t].cmdline_index {
                            DupType::WithinSameTree
                        } else {
                            DupType::OutsideTree
                        },
                        true,
                    ),
            decreases n - j,
        {
            let mut m: usize = j;
            let mut partner = false;
            let mut k: usize = 0;
            while k < n
                invariant
                    0 <= k <= n,
                    0 <= j < n,
                    m < n,
                    n == self.list@.len(),
                    pre.len() == n,
                    forall|t: int|
                        0 <= t < n ==> same_content(#[trigger] self.list@[t], pre[t])
                            && self.list@[t].cmdline_index == pre[t].cmdline_index
                            && self.list@[t].depth == pre[t].depth && self.list@[t].identity
                            == pre[t].identity,
                    same_content(pre[m as int], pre[j as int]),
                    m == j || precedes(pre, m as int, j as int),
                    forall|t: int|
                        0 <= t < k && t != m && same_content(#[trigger] pre[t], pre[j as int])
                            ==> precedes(pre, m as int, t),
                    partner == exists|t: int|
                        0 <= t < k && t != j && same_content(#[trigger] pre[t], pre[j as int]),
                decreases n - k,
            {
                if k != j {
                    if same_content_exec(&self.list[k], &self.list[j]) {
                        proof {
                            assert(same_content(pre[k as int], pre[j as int]));
                        }
                        partner = true;
                    }
                }
                if k != m {
                    if same_content_exec(&self.list[k], &self.list[j]) {
                        proof {
                            assert(same_content(pre[k as int], pre[j as int]));
                        }
                        if rank_before(&self.list[k], &self.list[m], k, m) {
                            proof {
                                assert(precedes(pre, k as int, m as int));
                                assert forall|t: int|
                                    0 <= t < k + 1 && t != k && same_content(
                                        #[trigger] pre[t],
                                        pre[j as int],
                                    ) implies precedes(pre, k as int, t) by {
                                    if t != m {
                                        assert(precedes(pre, m as int, t));
                                    }
                                }
                            }
                            m = k;
                        } else {
                            proof {
                                assert(precedes(pre, m as int, k as int));
                            }
                        }
                    }
                }
                k += 1;
            }
            proof {
                assert(partner == has_partner(pre, j as int));
            }
            if partner {
                let first = m == j;
                let tag = if first {
                    DupType::FirstOccurrence
                } else {
                    if self.list[m].cmdline_index == self.list[j].cmdline_index {
                        DupType::WithinSameTree
                    } else {
                        DupType::OutsideTree
                    }
                };
                let ghost mid = self.list@;
                let mut x = self.list.remove(j);
                x.duptype = tag;
                x.delete_flag = !first;
                self.list.insert(j, x);
                proof {
                    assert(self.list@ =~= mid.update(j as int, with_tag(pre[j as int], tag, !first)));
                    // the scanned position is the preferred member of its group
                    assert(content_first(pre, m as int)) by {
                        assert forall|t: int|
                            0 <= t < n && t != m && same_content(#[trigger] pre[t], pre[m as int])
                            implies precedes(pre, m as int, t) by {
                            assert(same_content(pre[t], pre[j as int]));
                        }
                    }
                    if first {
                        assert(content_first(pre, j as int));
                    } else {
                        // no member other than the scanned one is preferred over all
                        assert(!content_first(pre, j as int)) by {
                            assert(precedes(pre, m as int, j as int));
                        }
                        assert forall|m2: int|
                            0 <= m2 < n && m2 != j as int && same_content(pre[j as int], pre[m2])
                                && content_first(pre, m2) implies m2 == m as int by {
                            if m2 != m as int {
                                assert(same_content(pre[m2], pre[j as int]));
                                assert(precedes(pre, m as int, m2));
                                assert(same_content(pre[m as int], pre[m2]));
                                assert(precedes(pre, m2, m as int));
                            }
                        }
                    }
                }
            } else {
                proof {
                    assert forall|m2: int|
                        0 <= m2 < n && (j as int) != m2 && same_content(pre[j as int], pre[m2])
                            && content_first(pre, m2) implies false by {
                        assert(has_partner(pre, j as int));
                    }
                }
            }
            j += 1;
        }
    }
}

/// Among the positions below `i` whose record shares `s[j]`'s content, one is
/// preferred over all the others.
#[verifier::rlimit(100)]
#[verifier::spinoff_prover]
proof fn lemma_content_first_min_upto(s: Seq<FileInfo>, j: int, i: int)
    requires
        0 <= j < s.len(),
        0 <= i <= s.len(),
        exists|g: int| 0 <= g < i && same_content(#[trigger] s[g], s[j]),
    ensures
        exists|m: int|
            0 <= m < i && same_content(#[trigger] s[m], s[j]) && forall|k: int|
                0 <= k < i && k != m && same_content(#[trigger] s[k], s[j]) ==> precedes(s, m, k),
    decreases i,
{
    if exists|g: int| 0 <= g < i - 1 && same_content(#[trigger] s[g], s[j]) {
        lemma_content_first_min_upto(s, j, i - 1);
        let m0 = choose|m0: int|
            0 <= m0 < i - 1 && same_content(#[trigger] s[m0], s[j]) && forall|k: int|
                0 <= k < i - 1 && k != m0 && same_content(#[trigger] s[k], s[j]) ==> precedes(
                    s,
                    m0,
                    k,
                );
        if same_content(s[i - 1], s[j]) && !precedes(s, m0, i - 1) {
            assert(precedes(s, i - 1, m0));
            assert forall|k: int|
                0 <= k < i && k != i - 1 && same_content(#[trigger] s[k], s[j]) implies precedes(
                s,
                i - 1,
                k,
            ) by {
                if k != m0 {
                    assert(precedes(s, m0, k));
                }
            }
        } else {
            assert(forall|k: int|
                0 <= k < i && k != m0 && same_content(#[trigger] s[k], s[j]) ==> precedes(
                    s,
                    m0,
                    k,
                ));
        }
    } else {
        let g = choose|g: int| 0 <= g < i && same_content(#[trigger] s[g], s[j]);
        assert(g == i - 1);
        assert(forall|k: int|
            0 <= k < i && k != i - 1 && same_content(#[trigger] s[k], s[j]) ==> precedes(
                s,
                i - 1,
                k,
            ));
    }
}

/// Of every set of two or more records sharing content, exactly one comes out
/// of the tagging pass as the retained first occurrence, and it carries the
/// minimal retention key of the set.
pub proof fn lemma_exactly_one_first_occurrence(pre: Seq<FileInfo>, post: Seq<FileInfo>, j: int)
    requires
        marked_correctly(pre, post),
        0 <= j < pre.len(),
        has_partner(pre, j),
    ensures
        exists|m: int|
            0 <= m < pre.len() && same_content(#[trigger] pre[m], pre[j]) && #[trigger] post[m].duptype
                == DupType::FirstOccurrence && forall|k: int|
                0 <= k < pre.len() && same_content(#[trigger] pre[k], pre[j]) ==> rank_le(
                    pre[m],
                    pre[k],
                ),
        forall|k1: int, k2: int|
            0 <= k1 < pre.len() && 0 <= k2 < pre.len() && k1 != k2 && same_content(
                #[trigger] pre[k1],
                pre[j],
            ) && same_content(#[trigger] pre[k2], pre[j]) && post[k1].duptype
                == DupType::FirstOccurrence ==> post[k2].duptype != DupType::FirstOccurrence,
{
    lemma_content_first_min_upto(pre, j, pre.len() as int);
    let m = choose|m: int|
        0 <= m < pre.len() && same_content(#[trigger] pre[m], pre[j]) && forall|k: int|
            0 <= k < pre.len() && k != m && same_content(#[trigger] pre[k], pre[j]) ==> precedes(
                pre,
                m,
                k,
            );
    assert(content_first(pre, m)) by {
        assert forall|k: int|
            0 <= k < pre.len() && k != m && same_content(#[trigger] pre[k], pre[m]) implies
            precedes(pre, m, k) by {
            assert(same_content(pre[k], pre[j]));
        }
    }
    assert(has_partner(pre, m)) by {
        let w = choose|w: int|
            0 <= w < pre.len() && w != j && same_content(#[trigger] pre[w], pre[j]);
        if m == j {
            assert(same_content(pre[w], pre[m]));
        } else {
            assert(same_content(pre[j], pre[m]));
        }
    }
    assert(post[m] == with_tag(pre[m], DupType::FirstOccurrence, false));
    assert forall|k: int|
        0 <= k < pre.len() && same_content(#[trigger] pre[k], pre[j]) implies rank_le(
        pre[m],
        pre[k],
    ) by {
        if k != m {
            assert(precedes(pre, m, k));
        }
    }
    assert forall|k1: int, k2: int|
        0 <= k1 < pre.len() && 0 <= k2 < pre.len() && k1 != k2 && same_content(
            #[trigger] pre[k1],
            pre[j],
        ) && same_content(#[trigger] pre[k2], pre[j]) && post[k1].duptype
            == DupType::FirstOccurrence implies post[k2].duptype != DupType::FirstOccurrence by {
        if post[k2].duptype == DupType::FirstOccurrence {
            if k1 != m {
                assert(same_content(pre[k1], pre[m]));
                assert(post[k1] == with_tag(
                    pre[k1],
                    if pre[m].cmdline_index == pre[k1].cmdline_index {
                        DupType::WithinSameTree
                    } else {
                        DupType::OutsideTree
                    },
                    true,
                ));
            }
            if k2 != m {
                assert(same_content(pre[k2], pre[m]));
                assert(post[k2] == with_tag(
                    pre[k2],
                    if pre[m].cmdline_index == pre[k2].cmdline_index {
                        DupType::WithinSameTree
                    } else {
                        DupType::OutsideTree
                    },
                    true,
                ));
            }
        }
    }
}

/// A tag once given is never reverted: the tagging pass leaves no record's
/// classification back at Unknown once any pass has set it.
pub proof fn lemma_tags_never_reverted(pre: Seq<FileInfo>, post: Seq<FileInfo>)
    requires
        marked_correctly(pre, post),
    ensures
        forall|j: int|
            0 <= j < pre.len() && pre[j].duptype != DupType::Unknown ==> (#[trigger] post[j]).duptype
                != DupType::Unknown,
{
    assert forall|j: int|
        0 <= j < pre.len() && pre[j].duptype != DupType::Unknown implies (#[trigger] post[j]).duptype
        != DupType::Unknown by {
        if has_partner(pre, j) && !content_first(pre, j) {
            lemma_content_first_min_upto(pre, j, pre.len() as int);
            let m = choose|m: int|
                0 <= m < pre.len() && same_content(#[trigger] pre[m], pre[j]) && forall|k: int|
                    0 <= k < pre.len() && k != m && same_content(#[trigger] pre[k], pre[j])
                        ==> precedes(pre, m, k);
            assert(content_first(pre, m)) by {
                assert forall|k: int|
                    0 <= k < pre.len() && k != m && same_content(#[trigger] pre[k], pre[m]) implies
                    precedes(pre, m, k) by {
                    assert(same_content(pre[k], pre[j]));
                }
            }
            assert(m != j);
            assert(post[j] == with_tag(
                pre[j],
                if pre[m].cmdline_index == pre[j].cmdline_index {
                    DupType::WithinSameTree
                } else {
                    DupType::OutsideTree
                },
                true,
            ));
        }
    }
}

/// No two records of `s` share a file size.
pub open spec fn pairwise_distinct_sizes(s: Seq<FileInfo>) -> bool {
    forall|i: int, j: int|
        0 <= i < j < s.len() ==> (#[trigger] s[i]).stat_size != (#[trigger] s[j]).stat_size
}

/// A size that occurs at no position of `s` has count zero.
proof fn lemma_size_count_zero(s: Seq<FileInfo>, sz: i64)
    requires
        forall|i: int| 0 <= i < s.len() ==> (#[trigger] s[i]).stat_size != sz,
    ensures
        size_count(s, sz) == 0,
    decreases s.len(),
{
    if s.len() > 0 {
        lemma_size_count_zero(s.drop_first(), sz);
    }
}

/// With pairwise distinct sizes, no size is counted more than once.
proof fn lemma_distinct_size_count(s: Seq<FileInfo>, sz: i64)
    requires
        pairwise_distinct_sizes(s),
    ensures
        size_count(s, sz) <= 1,
    decreases s.len(),
{
    if s.len() > 0 {
        assert(pairwise_distinct_sizes(s.drop_first())) by {
            assert(forall|i: int, j: int|
                0 <= i < j < s.drop_first().len() ==> (#[trigger] s.drop_first()[i]).stat_size
                    != (#[trigger] s.drop_first()[j]).stat_size);
        }
        lemma_distinct_size_count(s.drop_first(), sz);
        if s[0].stat_size == sz {
            assert(forall|i: int|
                0 <= i < s.drop_first().len() ==> (#[trigger] s.drop_first()[i]).stat_size != sz);
            lemma_size_count_zero(s.drop_first(), sz);
        }
    }
}

/// Where no two files share a size, the size pass leaves the store empty:
/// every record is removed as having no possible duplicate.
pub proof fn lemma_distinct_sizes_all_removed(pre: Seq<FileInfo>, post: Seq<FileInfo>)
    requires
        pairwise_distinct_sizes(pre),
        forall|j: int|
            0 <= j < post.len() ==> size_count(pre, (#[trigger] post[j]).stat_size) >= 2,
    ensures
        post.len() == 0,
{
    if post.len() > 0 {
        lemma_distinct_size_count(pre, post[0].stat_size);
    }
}

/// Where no two files share a size, the tagging pass changes nothing: every
/// record keeps its tag, and none is ever marked as a duplicate of another.
pub proof fn lemma_distinct_sizes_stay_unknown(pre: Seq<FileInfo>, post: Seq<FileInfo>)
    requires
        pairwise_distinct_sizes(pre),
        marked_correctly(pre, post),
    ensures
        forall|j: int| 0 <= j < post.len() ==> #[trigger] post[j] == pre[j],
{
    assert forall|j: int| 0 <= j < post.len() implies #[trigger] post[j] == pre[j] by {
        assert(!has_partner(pre, j)) by {
            if has_partner(pre, j) {
                let k = choose|k: int|
                    0 <= k < pre.len() && k != j && same_content(#[trigger] pre[k], pre[j]);
                assert(pre[k].stat_size == pre[j].stat_size);
            }
        }
    }
}

} // verus!
