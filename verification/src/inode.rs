//! The inode model: attribute records, timestamps, file kinds and the
//! fixed-width, zero-padded name field with its trimming rules.

use vstd::prelude::*;

verus! {

/// Width of the fixed name field of an inode: names are stored zero-padded
/// to exactly this many characters.
pub const NAME_LEN: usize = 64;

/// Number of reference slots in every inode. A directory stores child inode
/// numbers here; a regular file stores its data-block index in slot 0.
pub const REF_COUNT: usize = 128;

/// What an inode stands for. Only these two kinds are ever produced.
#[derive(Clone, Copy, PartialEq, Eq, Structural, Debug)]
pub enum FileKind {
    Directory,
    RegularFile,
}

/// A point in time: seconds and nanoseconds since the epoch.
#[derive(Clone, Copy, PartialEq, Eq, Structural, Debug)]
pub struct Timespec {
    pub sec: i64,
    pub nsec: i32,
}

/// The attribute record of one inode.
#[derive(Clone, Copy, PartialEq, Eq, Structural, Debug)]
pub struct FileAttr {
    /// Unique 1-based inode number; `ino - 1` is the superblock index.
    pub ino: u64,
    /// Bytes of associated data.
    pub size: u64,
    pub blocks: u64,
    pub atime: Timespec,
    pub mtime: Timespec,
    pub ctime: Timespec,
    pub crtime: Timespec,
    pub kind: FileKind,
    pub perm: u16,
    pub nlink: u32,
    pub uid: u32,
    pub gid: u32,
    pub rdev: u32,
    pub flags: u32,
}

/// One directory entry or regular file: a zero-padded name, an attribute
/// record, and the fixed array of optional reference slots.
pub struct Inode {
    /// Always exactly [`NAME_LEN`] characters; `'\0'` acts as padding.
    pub name: Vec<char>,
    pub attributes: FileAttr,
    /// Always exactly [`REF_COUNT`] slots. `Some(0)` is distinct from `None`.
    pub references: Vec<Option<usize>>,
}

impl Inode {
    /// Structural well-formedness: the two fixed-width arrays have their
    /// exact widths and the inode number is 1-based.
    pub open spec fn wf(self) -> bool {
        &&& self.name@.len() == NAME_LEN
        &&& self.references@.len() == REF_COUNT
        &&& 1 <= self.attributes.ino
    }
}

/// The logical name of an inode: the stored characters with leading and
/// trailing null characters removed.
pub open spec fn trim_nulls(s: Seq<char>) -> Seq<char>
    decreases s.len(),
{
    if s.len() > 0 && s[0] == '\0' {
        trim_nulls(s.drop_first())
    } else if s.len() > 0 && s[s.len() - 1] == '\0' {
        trim_nulls(s.drop_last())
    } else {
        s
    }
}

/// True when no character of `s` is the null character.
pub open spec fn has_no_nulls(s: Seq<char>) -> bool {
    forall|i: int| 0 <= i < s.len() ==> s[i] != '\0'
}

/// A sequence consisting only of nulls trims to the empty sequence.
pub proof fn lemma_trim_all_nulls(s: Seq<char>)
    requires
        forall|i: int| 0 <= i < s.len() ==> s[i] == '\0',
    ensures
        trim_nulls(s) == Seq::<char>::empty(),
    decreases s.len(),
{
    if s.len() > 0 {
        lemma_trim_all_nulls(s.drop_first());
    } else {
        assert(trim_nulls(s) =~= Seq::<char>::empty());
    }
}

/// When `s[a]` and `s[b]` are the outermost non-null characters, trimming
/// yields exactly the stretch between them.
pub proof fn lemma_trim_window(s: Seq<char>, a: int, b: int)
    requires
        0 <= a <= b < s.len(),
        s[a] != '\0',
        s[b] != '\0',
        forall|i: int| 0 <= i < a ==> s[i] == '\0',
        forall|j: int| b < j < s.len() ==> s[j] == '\0',
    ensures
        trim_nulls(s) == s.subrange(a, b + 1),
    decreases s.len(),
{
    if a > 0 {
        lemma_trim_window(s.drop_first(), a - 1, b - 1);
        assert(s.drop_first().subrange(a - 1, b) =~= s.subrange(a, b + 1));
    } else if b < s.len() - 1 {
        lemma_trim_window(s.drop_last(), a, b);
        assert(s.drop_last().subrange(a, b + 1) =~= s.subrange(a, b + 1));
    } else {
        assert(trim_nulls(s) == s);
        assert(s.subrange(0, s.len() as int) =~= s);
    }
}

/// Padding a null-free name out to the fixed width does not change its
/// trimmed form.
pub proof fn lemma_trim_padded(s: Seq<char>, padded: Seq<char>)
    requires
        has_no_nulls(s),
        s.len() <= padded.len(),
        padded.subrange(0, s.len() as int) == s,
        forall|j: int| s.len() <= j < padded.len() ==> padded[j] == '\0',
    ensures
        trim_nulls(padded) == s,
{
    if s.len() == 0 {
        lemma_trim_all_nulls(padded);
        assert(trim_nulls(padded) =~= s);
    } else {
        assert(forall|i: int| 0 <= i < s.len() ==> padded[i] == s[i]);
        lemma_trim_window(padded, 0, s.len() - 1);
        assert(padded.subrange(0, s.len() as int) =~= s);
    }
}

/// Pads `name` with nulls out to the fixed [`NAME_LEN`] width.
pub fn make_name(name: &Vec<char>) -> (r: Vec<char>)
    requires
        name@.len() <= NAME_LEN,
    ensures
        r@.len() == NAME_LEN,
        r@.subrange(0, name@.len() as int) == name@,
        forall|j: int| name@.len() <= j < NAME_LEN ==> r@[j] == '\0',
        has_no_nulls(name@) ==> trim_nulls(r@) == name@,
{
    let mut r: Vec<char> = Vec::new();
    let mut i: usize = 0;
    while i < name.len()
        invariant
            i <= name@.len(),
            r@ == name@.subrange(0, i as int),
        decreases name@.len() - i,
    {
        r.push(name[i]);
        i += 1;
    }
    assert(r@ =~= name@);
    while r.len() < NAME_LEN
        invariant
            name@.len() <= r@.len() <= NAME_LEN,
            r@.subrange(0, name@.len() as int) =~= name@,
            forall|j: int| name@.len() <= j < r@.len() ==> r@[j] == '\0',
        decreases NAME_LEN - r@.len(),
    {
        r.push('\0');
    }
    proof {
        if has_no_nulls(name@) {
            lemma_trim_padded(name@, r@);
        }
    }
    r
}

/// The logical (null-trimmed) name held in a stored name field.
pub fn trimmed_name(stored: &Vec<char>) -> (r: Vec<char>)
    ensures
        r@ == trim_nulls(stored@),
{
    let n = stored.len();
    let mut a: usize = 0;
    while a < n && stored[a] == '\0'
        invariant
            a <= n,
            n == stored@.len(),
            forall|i: int| 0 <= i < a ==> stored@[i] == '\0',
        decreases n - a,
    {
        a += 1;
    }
    if a == n {
        proof {
            lemma_trim_all_nulls(stored@);
        }
        let r: Vec<char> = Vec::new();
        assert(r@ =~= trim_nulls(stored@));
        return r;
    }
    let mut b: usize = n - 1;
    while stored[b] == '\0'
        invariant
            a <= b < n,
            n == stored@.len(),
            stored@[a as int] != '\0',
            forall|j: int| b < j < n ==> stored@[j] == '\0',
        decreases b,
    {
        b -= 1;
    }
    proof {
        lemma_trim_window(stored@, a as int, b as int);
    }
    let mut r: Vec<char> = Vec::new();
    let mut i: usize = a;
    while i <= b
        invariant
            a <= i <= b + 1,
            b < n == stored@.len(),
            r@ == stored@.subrange(a as int, i as int),
        decreases b + 1 - i,
    {
        r.push(stored[i]);
        i += 1;
    }
    assert(r@ =~= stored@.subrange(a as int, b + 1));
    r
}

/// True when the stored, zero-padded name trims to exactly `query`.
pub fn name_matches(stored: &Vec<char>, query: &Vec<char>) -> (r: bool)
    ensures
        r <==> trim_nulls(stored@) == query@,
{
    let t = trimmed_name(stored);
    if t.len() != query.len() {
        proof {
            assert(trim_nulls(stored@) != query@);
        }
        return false;
    }
    let mut i: usize = 0;
    while i < t.len()
        invariant
            i <= t@.len() == query@.len(),
            t@ == trim_nulls(stored@),
            forall|k: int| 0 <= k < i ==> t@[k] == query@[k],
        decreases t@.len() - i,
    {
        if t[i] != query[i] {
            proof {
                assert(trim_nulls(stored@)[i as int] != query@[i as int]);
            }
            return false;
        }
        i += 1;
    }
    proof {
        assert(t@ =~= query@);
    }
    true
}

} // verus!
