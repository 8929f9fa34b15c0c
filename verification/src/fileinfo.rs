//! One record per filesystem path considered, and the orders and spec-level
//! views that the classification passes are stated over.

use vstd::prelude::*;

verus! {

/// Width in bytes of the window held in `somebytes`: a leading or trailing
/// slice of the file, or a digest of the whole content, padded with zeros.
pub const SOMEBYTES_LEN: usize = 64;

/// What a pass over the store reads into each record's window.
#[derive(Clone, Copy, PartialEq, Eq, Structural, Debug)]
pub enum ReadToBufferMode {
    NotDefined,
    ReadFirstBytes,
    ReadLastBytes,
    CreateMd5Checksum,
    CreateSha1Checksum,
    CreateSha256Checksum,
    CreateSha512Checksum,
    CreateXxh128Checksum,
}

/// Classification tag: the retained copy, or one of the two redundant kinds.
#[derive(Clone, Copy, PartialEq, Eq, Structural, Debug)]
pub enum DupType {
    Unknown,
    FirstOccurrence,
    WithinSameTree,
    OutsideTree,
}

/// One file under consideration, with its filesystem metadata, its window of
/// content bytes, and the flags the passes maintain.
pub struct FileInfo {
    pub filename: String,
    pub delete_flag: bool,
    pub duptype: DupType,
    pub cmdline_index: i32,
    pub depth: i32,
    pub identity: i64,
    pub somebytes: Vec<u8>,
    pub stat_size: i64,
    pub stat_ino: u64,
    pub stat_dev: u64,
    pub is_file: bool,
    pub is_directory: bool,
}

/// Two records name the same underlying storage object (hardlinks share it).
pub open spec fn same_inode(a: FileInfo, b: FileInfo) -> bool {
    a.stat_dev == b.stat_dev && a.stat_ino == b.stat_ino
}

/// Two records agree on the cheap content discriminators: size and window.
pub open spec fn same_content(a: FileInfo, b: FileInfo) -> bool {
    a.stat_size == b.stat_size && a.somebytes@ == b.somebytes@
}

/// Strict order on the retention key `(priority, depth, sequence id)`:
/// the minimal record of a group is the one kept as the original.
pub open spec fn rank_lt(a: FileInfo, b: FileInfo) -> bool {
    ||| a.cmdline_index < b.cmdline_index
    ||| (a.cmdline_index == b.cmdline_index && a.depth < b.depth)
    ||| (a.cmdline_index == b.cmdline_index && a.depth == b.depth && a.identity < b.identity)
}

/// The retention keys of two records coincide.
pub open spec fn rank_eq(a: FileInfo, b: FileInfo) -> bool {
    a.cmdline_index == b.cmdline_index && a.depth == b.depth && a.identity == b.identity
}

/// Non-strict order on the retention key.
pub open spec fn rank_le(a: FileInfo, b: FileInfo) -> bool {
    rank_lt(a, b) || rank_eq(a, b)
}

/// Position `j` of `s` is preferred over position `k` for retention: a
/// strictly lower key, or an equal key met earlier in the store.
pub open spec fn precedes(s: Seq<FileInfo>, j: int, k: int) -> bool {
    rank_lt(s[j], s[k]) || (rank_eq(s[j], s[k]) && j < k)
}

/// The record with its removal flag replaced.
pub open spec fn with_flag(f: FileInfo, b: bool) -> FileInfo {
    FileInfo { delete_flag: b, ..f }
}

/// The record with its tag and removal flag replaced.
pub open spec fn with_tag(f: FileInfo, t: DupType, b: bool) -> FileInfo {
    FileInfo { duptype: t, delete_flag: b, ..f }
}

/// The record with its removal flag cleared.
pub open spec fn cleared(f: FileInfo) -> FileInfo {
    with_flag(f, false)
}

/// Plain values of a successful stat call, handed in from outside.
#[derive(Clone, Copy)]
pub struct StatResult {
    pub size: i64,
    pub ino: u64,
    pub dev: u64,
    pub is_file: bool,
    pub is_directory: bool,
}

impl FileInfo {
    /// A fresh record: flags clear, tag unknown, metadata on sentinel values
    /// until a stat result is recorded.
    pub fn new(filename: String, cmdline_index: i32, depth: i32) -> (r: FileInfo)
        ensures
            r.filename == filename,
            r.delete_flag == false,
            r.duptype == DupType::Unknown,
            r.cmdline_index == cmdline_index,
            r.depth == depth,
            r.identity == 0,
            r.somebytes@ == Seq::new(SOMEBYTES_LEN as nat, |i: int| 0u8),
            r.stat_size == 99999,
            r.stat_ino == 99999,
            r.stat_dev == 99999,
            r.is_file == false,
            r.is_directory == false,
    {
        let mut somebytes: Vec<u8> = Vec::new();
        let mut i: usize = 0;
        while i < SOMEBYTES_LEN
            invariant
                0 <= i <= SOMEBYTES_LEN,
                somebytes@ =~= Seq::new(i as nat, |k: int| 0u8),
            decreases SOMEBYTES_LEN - i,
        {
            somebytes.push(0u8);
            i += 1;
        }
        assert(somebytes@ =~= Seq::new(SOMEBYTES_LEN as nat, |k: int| 0u8));
        FileInfo {
            filename,
            delete_flag: false,
            duptype: DupType::Unknown,
            cmdline_index,
            depth,
            identity: 0,
            somebytes,
            stat_size: 99999,
            stat_ino: 99999,
            stat_dev: 99999,
            is_file: false,
            is_directory: false,
        }
    }

    /// Records the outcome of a metadata read: on success the stat fields are
    /// taken over; on failure they are zeroed and the record reports failure.
    pub fn record_stat_result(&mut self, stat: Option<StatResult>) -> (ok: bool)
        ensures
            match stat {
                Some(st) => ok && *final(self) == (FileInfo {
                    stat_size: st.size,
                    stat_ino: st.ino,
                    stat_dev: st.dev,
                    is_file: st.is_file,
                    is_directory: st.is_directory,
                    ..*old(self)
                }),
                None => !ok && *final(self) == (FileInfo {
                    stat_size: 0,
                    stat_ino: 0,
                    stat_dev: 0,
                    is_file: false,
                    is_directory: false,
                    ..*old(self)
                }),
            },
    {
        match stat {
            Some(st) => {
                self.stat_size = st.size;
                self.stat_ino = st.ino;
                self.stat_dev = st.dev;
                self.is_file = st.is_file;
                self.is_directory = st.is_directory;
                true
            },
            None => {
                self.stat_size = 0;
                self.stat_ino = 0;
                self.stat_dev = 0;
                self.is_file = false;
                self.is_directory = false;
                false
            },
        }
    }

    /// A content read is redundant when an earlier pass already captured the
    /// whole file: the size fits in the window, so the window is the content.
    pub open spec fn read_is_redundant(self, lasttype: ReadToBufferMode) -> bool {
        lasttype != ReadToBufferMode::NotDefined && self.stat_size <= SOMEBYTES_LEN as i64
    }

    /// Whether a pass must read this file's content again; files no larger
    /// than the window are exempt once any earlier pass has filled it.
    pub fn needs_content_read(&self, lasttype: ReadToBufferMode) -> (r: bool)
        ensures
            r == !self.read_is_redundant(lasttype),
    {
        !(lasttype != ReadToBufferMode::NotDefined && self.stat_size <= SOMEBYTES_LEN as i64)
    }

    /// Stores window bytes read from the file (or a digest of its content)
    /// into `somebytes`, padded with zeros to the fixed width.
    pub fn store_somebytes(&mut self, bytes: &[u8])
        requires
            bytes@.len() <= SOMEBYTES_LEN,
        ensures
            *final(self) == (FileInfo { somebytes: final(self).somebytes, ..*old(self) }),
            final(self).somebytes@ == bytes@ + Seq::new((SOMEBYTES_LEN - bytes@.len()) as nat, |i: int| 0u8),
    {
        let mut buf: Vec<u8> = Vec::new();
        let n = bytes.len();
        let mut i: usize = 0;
        while i < n
            invariant
                0 <= i <= n,
                n == bytes@.len(),
                buf@ =~= bytes@.take(i as int),
            decreases n - i,
        {
            buf.push(bytes[i]);
            i += 1;
        }
        while i < SOMEBYTES_LEN
            invariant
                n <= i <= SOMEBYTES_LEN,
                n == bytes@.len(),
                buf@ =~= bytes@ + Seq::new((i - n) as nat, |k: int| 0u8),
            decreases SOMEBYTES_LEN - i,
        {
            buf.push(0u8);
            i += 1;
        }
        assert(buf@ =~= bytes@ + Seq::new((SOMEBYTES_LEN - n) as nat, |k: int| 0u8));
        self.somebytes = buf;
    }

    /// Excludes this record after a failed metadata or content read between
    /// passes: it is flagged so the next compaction drops it, and its tag is
    /// left as it was, so it is never retained as an original for others.
    pub fn mark_read_failed(&mut self)
        ensures
            *final(self) == (FileInfo { delete_flag: true, ..*old(self) }),
    {
        self.delete_flag = true;
    }

    /// The report's content line for this record: tag, sequence id, depth,
    /// size, device, inode and priority, space-separated, then the name.
    pub fn report_line(&self) -> (r: Vec<u8>)
        requires
            self.identity >= 0,
            self.depth >= 0,
            self.stat_size >= 0,
            self.cmdline_index >= 0,
        ensures
            r@ == report_line_spec(*self),
    {
        let mut out: Vec<u8> = Vec::new();
        let tag = self.get_duptype_string();
        out.extend_from_slice(tag.as_bytes());
        out.push(32);
        push_dec(self.identity as u64, &mut out);
        out.push(32);
        push_dec(self.depth as u64, &mut out);
        out.push(32);
        push_dec(self.stat_size as u64, &mut out);
        out.push(32);
        push_dec(self.stat_dev, &mut out);
        out.push(32);
        push_dec(self.stat_ino, &mut out);
        out.push(32);
        push_dec(self.cmdline_index as u64, &mut out);
        out.push(32);
        out.extend_from_slice(self.filename.as_str().as_bytes());
        proof {
            assert(out@ =~= report_line_spec(*self));
        }
        out
    }

    /// The report tag for this record's classification.
    pub fn get_duptype_string(&self) -> (r: &'static str)
        ensures
            self.duptype == DupType::Unknown ==> r@ == "DUPTYPE_UNKNOWN"@,
            self.duptype == DupType::FirstOccurrence ==> r@ == "DUPTYPE_FIRST_OCCURRENCE"@,
            self.duptype == DupType::WithinSameTree ==> r@ == "DUPTYPE_WITHIN_SAME_TREE"@,
            self.duptype == DupType::OutsideTree ==> r@ == "DUPTYPE_OUTSIDE_TREE"@,
    {
        match self.duptype {
            DupType::Unknown => "DUPTYPE_UNKNOWN",
            DupType::FirstOccurrence => "DUPTYPE_FIRST_OCCURRENCE",
            DupType::WithinSameTree => "DUPTYPE_WITHIN_SAME_TREE",
            DupType::OutsideTree => "DUPTYPE_OUTSIDE_TREE",
        }
    }
}


/// The bytes of a record's path name.
pub open spec fn name_bytes(f: FileInfo) -> Seq<u8> {
    vstd::utf8::encode_utf8(f.filename@)
}

/// The decimal representation of a number, as ASCII digit bytes, most
/// significant first, with no leading zeros (zero itself is one digit).
pub open spec fn dec_rep(n: nat) -> Seq<u8>
    decreases n,
{
    if n < 10 {
        seq![(48 + n) as u8]
    } else {
        dec_rep(n / 10).push((48 + (n % 10)) as u8)
    }
}

/// Appends the decimal digits of `n` to `out`.
fn push_dec(n: u64, out: &mut Vec<u8>)
    ensures
        final(out)@ == old(out)@ + dec_rep(n as nat),
    decreases n,
{
    if n < 10 {
        out.push(48 + (n as u8));
        assert(final(out)@ =~= old(out)@ + dec_rep(n as nat));
    } else {
        push_dec(n / 10, out);
        out.push(48 + ((n % 10) as u8));
        assert(final(out)@ =~= old(out)@ + dec_rep(n as nat));
    }
}

/// The report tag of a classification, as bytes.
pub open spec fn duptype_bytes(t: DupType) -> Seq<u8> {
    vstd::utf8::encode_utf8(
        match t {
            DupType::Unknown => "DUPTYPE_UNKNOWN"@,
            DupType::FirstOccurrence => "DUPTYPE_FIRST_OCCURRENCE"@,
            DupType::WithinSameTree => "DUPTYPE_WITHIN_SAME_TREE"@,
            DupType::OutsideTree => "DUPTYPE_OUTSIDE_TREE"@,
        },
    )
}

/// One report line for a record, as bytes without the ending newline: the
/// tag, sequence id, depth, size, device, inode and priority, each followed
/// by one space, then the name.
pub open spec fn report_line_spec(f: FileInfo) -> Seq<u8> {
    duptype_bytes(f.duptype) + seq![32u8] + dec_rep(f.identity as nat) + seq![32u8] + dec_rep(
        f.depth as nat,
    ) + seq![32u8] + dec_rep(f.stat_size as nat) + seq![32u8] + dec_rep(f.stat_dev as nat)
        + seq![32u8] + dec_rep(f.stat_ino as nat) + seq![32u8] + dec_rep(f.cmdline_index as nat)
        + seq![32u8] + name_bytes(f)
}

/// The byte for `/` in a path.
pub const SLASH: u8 = 47;

/// The byte for `.` in a path.
pub const DOT: u8 = 46;

/// The simplified form of a path given as bytes: every `/./` reduced to `/`
/// and every doubled separator collapsed, scanning from the left.
pub open spec fn simplify_spec(s: Seq<u8>) -> Seq<u8>
    decreases s.len(),
{
    if s.len() >= 3 && s[0] == SLASH && s[1] == DOT && s[2] == SLASH {
        simplify_spec(s.skip(2))
    } else if s.len() >= 2 && s[0] == SLASH && s[1] == SLASH {
        simplify_spec(s.skip(1))
    } else if s.len() == 0 {
        s
    } else {
        seq![s[0]] + simplify_spec(s.skip(1))
    }
}

/// Rewrites a path, given as its bytes, to its simplified form: no `/./`
/// segments and no doubled separators remain.
pub fn simplify_path(path: &Vec<u8>) -> (r: Vec<u8>)
    ensures
        r@ == simplify_spec(path@),
{
    let mut out: Vec<u8> = Vec::new();
    let n = path.len();
    let mut i: usize = 0;
    proof {
        assert(path@.skip(0) =~= path@);
    }
    while i < n
        invariant
            0 <= i <= n,
            n == path@.len(),
            out@ + simplify_spec(path@.skip(i as int)) == simplify_spec(path@),
        decreases n - i,
    {
        let ghost rest = path@.skip(i as int);
        if n - i >= 3 && path[i] == SLASH && path[i + 1] == DOT && path[i + 2] == SLASH {
            proof {
                assert(rest.len() >= 3 && rest[0] == SLASH && rest[1] == DOT && rest[2] == SLASH);
                assert(rest.skip(2) =~= path@.skip(i as int + 2));
            }
            i += 2;
        } else if n - i >= 2 && path[i] == SLASH && path[i + 1] == SLASH {
            proof {
                assert(rest.len() >= 2 && rest[0] == SLASH && rest[1] == SLASH);
                assert(rest.skip(1) =~= path@.skip(i as int + 1));
            }
            i += 1;
        } else {
            proof {
                assert(rest.len() >= 1 && rest[0] == path@[i as int]);
                assert(!(rest.len() >= 3 && rest[0] == SLASH && rest[1] == DOT && rest[2]
                    == SLASH));
                assert(!(rest.len() >= 2 && rest[0] == SLASH && rest[1] == SLASH));
                assert(rest.skip(1) =~= path@.skip(i as int + 1));
                assert(out@ + seq![path@[i as int]] + simplify_spec(path@.skip(i as int + 1))
                    == simplify_spec(path@));
            }
            out.push(path[i]);
            i += 1;
        }
    }
    proof {
        assert(path@.skip(n as int).len() == 0);
        assert(out@ + simplify_spec(path@.skip(n as int)) =~= out@);
    }
    out
}

} // verus!
