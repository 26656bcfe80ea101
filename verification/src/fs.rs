//! The request handler: translates filesystem operations into arena
//! mutations, enforcing per-operation semantics and error mapping, and
//! maintaining the filesystem invariant across every operation.
//!
//! Reads, writes and unlinks address the data block recorded in the
//! file's reference slot 0 — the very block `create` allocates — so a
//! paired create and unlink free exactly what they allocated.

use vstd::prelude::*;

use crate::FsError;
use crate::disk::{Disk, MemoryBlock, empty_references, inode_with_ref, same_config};
use crate::disk::{lemma_first_idx, name_slot_pred, spec_free_block, spec_free_ino_slot};
use crate::disk::{spec_free_ref, spec_name_slot, spec_ref_position, INODE_FOOTPRINT};
use crate::inode::{FileAttr, FileKind, Inode, Timespec, NAME_LEN, REF_COUNT};
use crate::inode::{has_no_nulls, make_name, trim_nulls};

verus! {

/// One row of a directory listing: the child's inode number, a monotonic
/// next-offset marker, the child's kind and its trimmed name.
#[derive(Debug)]
pub struct DirEntry {
    pub ino: u64,
    pub offset: i64,
    pub kind: FileKind,
    pub name: Vec<char>,
}

/// The stateful filesystem service: one arena, operated on by one request
/// at a time.
pub struct QrFS {
    pub disk: Disk,
}

/// Reference slot `j` of the inode at superblock slot `i`.
pub open spec fn ref_at(d: Disk, i: int, j: int) -> Option<usize> {
    d.super_block@[i]->0.references@[j]
}

/// Slot `i` holds a directory inode.
pub open spec fn is_dir_slot(d: Disk, i: int) -> bool {
    &&& 0 <= i < d.super_block@.len()
    &&& d.super_block@[i] matches Some(ind)
    &&& d.super_block@[i]->0.attributes.kind == FileKind::Directory
}

/// Slot `i` holds a regular-file inode.
pub open spec fn is_file_slot(d: Disk, i: int) -> bool {
    &&& 0 <= i < d.super_block@.len()
    &&& d.super_block@[i] matches Some(ind)
    &&& d.super_block@[i]->0.attributes.kind == FileKind::RegularFile
}

/// Trimmed name of the child referenced by slot `j` of directory slot `i`.
pub open spec fn child_name(d: Disk, i: int, j: int) -> Seq<char> {
    trim_nulls(d.super_block@[ref_at(d, i, j)->0 - 1]->0.name@)
}

/// The root inode exists at `ino = 1`, is a directory, and is named `.`.
pub open spec fn root_present(d: Disk) -> bool {
    &&& d.super_block@.len() >= 1
    &&& d.super_block@[0] is Some
    &&& d.super_block@[0]->0.attributes.kind == FileKind::Directory
    &&& trim_nulls(d.super_block@[0]->0.name@) == seq!['.']
}

/// Every present reference of a directory points to a present, non-root
/// inode slot; no directory references itself.
pub open spec fn dir_refs_valid(d: Disk) -> bool {
    forall|i: int, j: int|
        is_dir_slot(d, i) && 0 <= j < REF_COUNT ==> (#[trigger] ref_at(d, i, j) matches Some(c)
            ==> 2 <= c <= d.super_block@.len() && d.super_block@[c - 1] is Some && c != i + 1)
}

/// Every inode is referenced by at most one directory slot.
pub open spec fn parents_unique(d: Disk) -> bool {
    forall|i1: int, j1: int, i2: int, j2: int|
        is_dir_slot(d, i1) && is_dir_slot(d, i2) && 0 <= j1 < REF_COUNT && 0 <= j2 < REF_COUNT
            && #[trigger] ref_at(d, i1, j1) is Some && ref_at(d, i1, j1) == #[trigger] ref_at(
            d,
            i2,
            j2,
        ) ==> i1 == i2 && j1 == j2
}

/// Sibling names under any directory are unique after null-trimming.
pub open spec fn sibling_names_unique(d: Disk) -> bool {
    forall|i: int, j1: int, j2: int|
        is_dir_slot(d, i) && 0 <= j1 < REF_COUNT && 0 <= j2 < REF_COUNT && j1 != j2 && ref_at(
            d,
            i,
            j1,
        ) is Some && ref_at(d, i, j2) is Some ==> #[trigger] child_name(d, i, j1)
            != #[trigger] child_name(d, i, j2)
}

/// Every file inode's reference slot 0 names a present block, and no block
/// is shared between two files.
pub open spec fn file_blocks_valid(d: Disk) -> bool {
    &&& forall|i: int|
        #[trigger] is_file_slot(d, i) ==> {
            &&& ref_at(d, i, 0) matches Some(b)
            &&& b < d.memory_blocks@.len()
            &&& d.memory_blocks@[b as int].data is Some
        }
    &&& forall|i1: int, i2: int|
        #[trigger] is_file_slot(d, i1) && #[trigger] is_file_slot(d, i2) && ref_at(d, i1, 0)
            == ref_at(d, i2, 0) ==> i1 == i2
}

/// The filesystem invariant: structural arena well-formedness plus the
/// reachability, uniqueness and naming laws that every operation preserves.
pub open spec fn fs_inv(d: Disk) -> bool {
    &&& d.wf()
    &&& root_present(d)
    &&& dir_refs_valid(d)
    &&& parents_unique(d)
    &&& sibling_names_unique(d)
    &&& file_blocks_valid(d)
}

/// Attributes of the inode numbered `ino`, when that slot is filled.
pub open spec fn spec_getattr(d: Disk, ino: int) -> Option<FileAttr> {
    if 1 <= ino <= d.super_block@.len() && d.super_block@[ino - 1] is Some {
        Some(d.super_block@[ino - 1]->0.attributes)
    } else {
        None
    }
}

/// Bytes a read of inode `ino` returns: the whole buffer of the block
/// recorded in the file's reference slot 0.
pub open spec fn spec_read(d: Disk, ino: int) -> Option<Seq<u8>> {
    if is_file_slot(d, ino - 1) {
        match ref_at(d, ino - 1, 0) {
            Some(b) => if b < d.memory_blocks@.len() {
                match d.memory_blocks@[b as int].data {
                    Some(bytes) => Some(bytes@),
                    None => None,
                }
            } else {
                None
            },
            None => None,
        }
    } else {
        None
    }
}

/// Attributes of the first child of `parent` whose trimmed name is `name`.
pub open spec fn spec_lookup(d: Disk, parent: int, name: Seq<char>) -> Option<FileAttr> {
    let refs = d.super_block@[parent - 1]->0.references@;
    match spec_name_slot(d, refs, name) {
        Some(j) => Some(d.super_block@[refs[j]->0 - 1]->0.attributes),
        None => None,
    }
}

/// Under the invariant, every reference of a present directory points to a
/// present slot, stated in the raw indexing form the arena's search uses.
pub proof fn lemma_dir_refs(d: Disk, parent: int)
    requires
        fs_inv(d),
        is_dir_slot(d, parent - 1),
    ensures
        forall|j: int|
            0 <= j < REF_COUNT ==> (#[trigger] d.super_block@[parent - 1]->0.references@[j]
                matches Some(c) ==> 2 <= c <= d.super_block@.len() && d.super_block@[c
                - 1] is Some && c != parent),
{
    assert forall|j: int|
        0 <= j < REF_COUNT implies (#[trigger] d.super_block@[parent - 1]->0.references@[j]
        matches Some(c) ==> 2 <= c <= d.super_block@.len() && d.super_block@[c - 1] is Some && c
        != parent) by {
        assert(ref_at(d, parent - 1, j) == d.super_block@[parent - 1]->0.references@[j]);
    }
}

/// Whether reference slot `j` contributes a row to a directory listing: a
/// present reference to a present inode other than the root.
pub open spec fn child_emitted(d: Disk, refs: Seq<Option<usize>>, j: int) -> bool {
    &&& refs[j] matches Some(c)
    &&& 1 <= c <= d.super_block@.len()
    &&& d.super_block@[c - 1] matches Some(ch)
    &&& d.super_block@[c - 1]->0.attributes.ino != 1
}

/// The listing row of reference slot `j`: child ino, kind, trimmed name.
pub open spec fn child_row(d: Disk, refs: Seq<Option<usize>>, j: int) -> (u64, FileKind, Seq<
    char,
>) {
    (
        (refs[j]->0) as u64,
        d.super_block@[refs[j]->0 - 1]->0.attributes.kind,
        trim_nulls(d.super_block@[refs[j]->0 - 1]->0.name@),
    )
}

/// Listing rows contributed by the first `j` reference slots, in slot
/// order.
pub open spec fn spec_children_prefix(d: Disk, refs: Seq<Option<usize>>, j: int) -> Seq<
    (u64, FileKind, Seq<char>),
>
    decreases j,
{
    if j <= 0 {
        Seq::empty()
    } else {
        let rest = spec_children_prefix(d, refs, j - 1);
        if child_emitted(d, refs, j - 1) {
            rest.push(child_row(d, refs, j - 1))
        } else {
            rest
        }
    }
}

/// A listing entry carries exactly the given row and next-offset marker.
pub open spec fn entry_matches(e: DirEntry, row: (u64, FileKind, Seq<char>), off: int) -> bool {
    &&& e.ino == row.0
    &&& e.kind == row.1
    &&& e.name@ == row.2
    &&& e.offset == off
}

/// `a` with only the provided fields replaced, as `setattr` applies them.
pub open spec fn attr_updated(
    a: FileAttr,
    size: Option<u64>,
    atime: Option<Timespec>,
    mtime: Option<Timespec>,
    crtime: Option<Timespec>,
    gid: Option<u32>,
    uid: Option<u32>,
    flags: Option<u32>,
) -> FileAttr {
    FileAttr {
        ino: a.ino,
        size: if size is Some { size->0 } else { a.size },
        blocks: a.blocks,
        atime: if atime is Some { atime->0 } else { a.atime },
        mtime: if mtime is Some { mtime->0 } else { a.mtime },
        ctime: a.ctime,
        crtime: if crtime is Some { crtime->0 } else { a.crtime },
        kind: a.kind,
        perm: a.perm,
        nlink: a.nlink,
        uid: if uid is Some { uid->0 } else { a.uid },
        gid: if gid is Some { gid->0 } else { a.gid },
        rdev: a.rdev,
        flags: if flags is Some { flags->0 } else { a.flags },
    }
}

/// `a` with its size replaced, as `write` records a new content length.
pub open spec fn attr_with_size(a: FileAttr, size: u64) -> FileAttr {
    FileAttr {
        ino: a.ino,
        size: size,
        blocks: a.blocks,
        atime: a.atime,
        mtime: a.mtime,
        ctime: a.ctime,
        crtime: a.crtime,
        kind: a.kind,
        perm: a.perm,
        nlink: a.nlink,
        uid: a.uid,
        gid: a.gid,
        rdev: a.rdev,
        flags: a.flags,
    }
}

/// Operations that keep every slot's presence, kind, inode number, name
/// and references, and every block's presence (within the size bound),
/// preserve the filesystem invariant.
pub proof fn lemma_inv_same_shape(pre: Disk, post: Disk)
    requires
        fs_inv(pre),
        post.max_files == pre.max_files,
        post.block_size == pre.block_size,
        post.super_block@.len() == pre.super_block@.len(),
        post.memory_blocks@.len() == pre.memory_blocks@.len(),
        forall|x: int|
            0 <= x < pre.super_block@.len() ==> ((#[trigger] post.super_block@[x]) is Some
                <==> pre.super_block@[x] is Some),
        forall|x: int|
            0 <= x < pre.super_block@.len() && pre.super_block@[x] is Some ==> {
                let p = pre.super_block@[x]->0;
                let q = (#[trigger] post.super_block@[x])->0;
                q.attributes.kind == p.attributes.kind && q.attributes.ino == p.attributes.ino
                    && q.name@ == p.name@ && q.references@ == p.references@
            },
        forall|k: int|
            0 <= k < pre.memory_blocks@.len() ==> ((#[trigger] post.memory_blocks@[k].data)
                is Some <==> pre.memory_blocks@[k].data is Some),
        forall|k: int|
            0 <= k < post.memory_blocks@.len() ==> (#[trigger] post.memory_blocks@[k].data
                matches Some(dd) ==> dd@.len() <= post.block_size),
    ensures
        fs_inv(post),
{
    let n = pre.super_block@.len() as int;
    assert forall|x: int| 0 <= x < n implies (is_dir_slot(post, x) <==> is_dir_slot(pre, x))
        && (is_file_slot(post, x) <==> is_file_slot(pre, x)) by {
        assert(post.super_block@[x] is Some <==> pre.super_block@[x] is Some);
    }
    assert forall|x: int, j: int|
        0 <= x < n && pre.super_block@[x] is Some implies #[trigger] ref_at(post, x, j)
        == ref_at(pre, x, j) by {
        assert(post.super_block@[x]->0.references@ == pre.super_block@[x]->0.references@);
    }
    assert(post.wf()) by {
        assert forall|x: int|
            0 <= x < n implies (#[trigger] post.super_block@[x] matches Some(ind) ==> ind.wf()
                && ind.attributes.ino == x + 1) by {
            if post.super_block@[x] is Some {
                assert(pre.super_block@[x] matches Some(p) && p.wf() && p.attributes.ino == x
                    + 1);
            }
        }
    }
    assert(root_present(post));
    assert forall|i: int, j: int|
        is_dir_slot(post, i) && 0 <= j < REF_COUNT implies (#[trigger] ref_at(post, i, j)
        matches Some(c) ==> 2 <= c <= post.super_block@.len() && post.super_block@[c
        - 1] is Some && c != i + 1) by {
        if ref_at(post, i, j) is Some {
            assert(is_dir_slot(pre, i));
            assert(ref_at(pre, i, j) matches Some(c) && 2 <= c <= pre.super_block@.len()
                && pre.super_block@[c - 1] is Some && c != i + 1);
        }
    }
    assert(parents_unique(post)) by {
        assert forall|i1: int, j1: int, i2: int, j2: int|
            is_dir_slot(post, i1) && is_dir_slot(post, i2) && 0 <= j1 < REF_COUNT && 0 <= j2
                < REF_COUNT && #[trigger] ref_at(post, i1, j1) is Some && ref_at(post, i1, j1)
                == #[trigger] ref_at(post, i2, j2) implies i1 == i2 && j1 == j2 by {
            assert(ref_at(pre, i1, j1) == ref_at(post, i1, j1));
            assert(ref_at(pre, i2, j2) == ref_at(post, i2, j2));
        }
    }
    assert(sibling_names_unique(post)) by {
        assert forall|i: int, j1: int, j2: int|
            is_dir_slot(post, i) && 0 <= j1 < REF_COUNT && 0 <= j2 < REF_COUNT && j1 != j2
                && ref_at(post, i, j1) is Some && ref_at(post, i, j2) is Some implies #[trigger]
        child_name(post, i, j1) != #[trigger] child_name(post, i, j2) by {
            assert(ref_at(pre, i, j1) == ref_at(post, i, j1));
            assert(ref_at(pre, i, j2) == ref_at(post, i, j2));
            assert(is_dir_slot(pre, i));
            assert(child_name(pre, i, j1) != child_name(pre, i, j2));
            assert(ref_at(pre, i, j1) matches Some(c) && 2 <= c <= n && pre.super_block@[c
                - 1] is Some);
            assert(ref_at(pre, i, j2) matches Some(c) && 2 <= c <= n && pre.super_block@[c
                - 1] is Some);
            assert(child_name(post, i, j1) == child_name(pre, i, j1));
            assert(child_name(post, i, j2) == child_name(pre, i, j2));
        }
    }
    assert(file_blocks_valid(post)) by {
        assert forall|i: int| #[trigger] is_file_slot(post, i) implies {
            &&& ref_at(post, i, 0) matches Some(b)
            &&& b < post.memory_blocks@.len()
            &&& post.memory_blocks@[b as int].data is Some
        } by {
            assert(is_file_slot(pre, i));
            assert(ref_at(pre, i, 0) matches Some(b) && b < pre.memory_blocks@.len()
                && pre.memory_blocks@[b as int].data is Some);
            assert(ref_at(post, i, 0) == ref_at(pre, i, 0));
        }
        assert forall|i1: int, i2: int|
            #[trigger] is_file_slot(post, i1) && #[trigger] is_file_slot(post, i2) && ref_at(
                post,
                i1,
                0,
            ) == ref_at(post, i2, 0) implies i1 == i2 by {
            assert(is_file_slot(pre, i1) && is_file_slot(pre, i2));
            assert(ref_at(pre, i1, 0) == ref_at(post, i1, 0));
            assert(ref_at(pre, i2, 0) == ref_at(post, i2, 0));
        }
    }
}

/// Linking one fresh inode into a free slot of a present directory — with
/// a fresh data block for a regular file, none for a directory — preserves
/// the filesystem invariant.
pub proof fn lemma_inv_after_insert(
    pre: Disk,
    post: Disk,
    parent: int,
    rs: int,
    child: Inode,
    p2: Inode,
    blk: Option<int>,
    content: Seq<u8>,
)
    requires
        fs_inv(pre),
        post.max_files == pre.max_files,
        post.block_size == pre.block_size,
        1 <= parent <= pre.super_block@.len(),
        is_dir_slot(pre, parent - 1),
        child.wf(),
        0 <= child.attributes.ino - 1 < pre.super_block@.len(),
        pre.super_block@[child.attributes.ino - 1] is None,
        0 <= rs < REF_COUNT,
        ref_at(pre, parent - 1, rs) is None,
        inode_with_ref(
            pre.super_block@[parent - 1]->0,
            p2,
            rs,
            Some(child.attributes.ino as usize),
        ),
        forall|j: int|
            0 <= j < REF_COUNT && #[trigger] ref_at(pre, parent - 1, j) is Some ==> child_name(
                pre,
                parent - 1,
                j,
            ) != trim_nulls(child.name@),
        child.attributes.kind == FileKind::RegularFile ==> {
            &&& blk matches Some(bv)
            &&& 0 <= bv < pre.memory_blocks@.len()
            &&& pre.memory_blocks@[bv].data is None
            &&& child.references@[0] == Some(bv as usize)
            &&& forall|j: int| 1 <= j < REF_COUNT ==> child.references@[j] is None
        },
        child.attributes.kind == FileKind::Directory ==> blk is None && forall|j: int|
            0 <= j < REF_COUNT ==> child.references@[j] is None,
        post.super_block@ == pre.super_block@.update(
            child.attributes.ino - 1,
            Some(child),
        ).update(parent - 1, Some(p2)),
        post.memory_blocks@.len() == pre.memory_blocks@.len(),
        blk matches Some(bv) ==> {
            &&& post.memory_blocks@[bv].data matches Some(cv)
            &&& cv@ == content
            &&& content.len() <= pre.block_size
            &&& forall|k: int|
                0 <= k < pre.memory_blocks@.len() && k != bv ==> #[trigger] post.memory_blocks@[k]
                    == pre.memory_blocks@[k]
        },
        blk is None ==> post.memory_blocks@ == pre.memory_blocks@,
    ensures
        fs_inv(post),
{
    vstd::std_specs::vec::axiom_spec_len(&pre.super_block);
    vstd::std_specs::vec::axiom_spec_len(&pre.memory_blocks);
    let n = pre.super_block@.len() as int;
    let ci = child.attributes.ino - 1;
    let pi = parent - 1;
    let cino = (ci + 1) as usize;
    assert(ci != pi);
    assert(ci != 0);
    assert(post.super_block@.len() == n);
    assert(post.super_block@[ci] == Some(child));
    assert(post.super_block@[pi] == Some(p2));
    assert(forall|x: int| 0 <= x < n && x != ci && x != pi ==> post.super_block@[x] == pre.super_block@[x]);

    // No reference in the old arena points at the freshly filled slot.
    assert forall|i: int, j: int|
        is_dir_slot(pre, i) && 0 <= j < REF_COUNT implies #[trigger] ref_at(pre, i, j) != Some(
        cino,
    ) by {
        if ref_at(pre, i, j) == Some(cino) {
            assert(pre.super_block@[ci] is Some);
        }
    }

    // References of each post slot, related to pre.
    assert(p2.references@.len() == REF_COUNT);
    assert(forall|j: int|
        0 <= j < REF_COUNT && j != rs ==> ref_at(post, pi, j) == ref_at(pre, pi, j));
    assert(ref_at(post, pi, rs) == Some(cino));
    assert(forall|x: int, j: int|
        0 <= x < n && x != ci && x != pi ==> #[trigger] ref_at(post, x, j) == ref_at(pre, x, j));

    assert(post.wf()) by {
        assert forall|x: int|
            0 <= x < n implies (#[trigger] post.super_block@[x] matches Some(ind) ==> ind.wf()
                && ind.attributes.ino == x + 1) by {
            if x != ci && x != pi && post.super_block@[x] is Some {
                assert(pre.super_block@[x] matches Some(q) && q.wf() && q.attributes.ino == x
                    + 1);
            }
        }
        assert forall|k: int|
            0 <= k < post.memory_blocks@.len() implies (#[trigger] post.memory_blocks@[k].data
                matches Some(dd) ==> dd@.len() <= post.block_size) by {
            if let Some(bv) = blk {
                if k != bv {
                    assert(post.memory_blocks@[k] == pre.memory_blocks@[k]);
                }
            }
        }
    }
    assert(root_present(post));
    assert forall|i: int, j: int|
        is_dir_slot(post, i) && 0 <= j < REF_COUNT implies (#[trigger] ref_at(post, i, j)
        matches Some(c) ==> 2 <= c <= post.super_block@.len() && post.super_block@[c
        - 1] is Some && c != i + 1) by {
        if let Some(c) = ref_at(post, i, j) {
            if i == ci {
                assert(child.attributes.kind == FileKind::Directory);
                assert(ref_at(post, ci, j) == child.references@[j]);
                assert(false);
            } else if i == pi && j == rs {
                assert(c == cino);
            } else {
                assert(is_dir_slot(pre, i));
                assert(ref_at(pre, i, j) == Some(c));
                assert(2 <= c <= n && pre.super_block@[c - 1] is Some && c != i + 1);
            }
        }
    }
    assert(parents_unique(post)) by {
        assert forall|i1: int, j1: int, i2: int, j2: int|
            is_dir_slot(post, i1) && is_dir_slot(post, i2) && 0 <= j1 < REF_COUNT && 0 <= j2
                < REF_COUNT && #[trigger] ref_at(post, i1, j1) is Some && ref_at(post, i1, j1)
                == #[trigger] ref_at(post, i2, j2) implies i1 == i2 && j1 == j2 by {
            let new1 = i1 == pi && j1 == rs;
            let new2 = i2 == pi && j2 == rs;
            if i1 == ci || i2 == ci {
                assert(false);
            } else if new1 && new2 {
            } else if new1 {
                assert(is_dir_slot(pre, i2));
                assert(ref_at(pre, i2, j2) == Some(cino));
                assert(false);
            } else if new2 {
                assert(is_dir_slot(pre, i1));
                assert(ref_at(pre, i1, j1) == Some(cino));
                assert(false);
            } else {
                assert(is_dir_slot(pre, i1) && is_dir_slot(pre, i2));
                assert(ref_at(pre, i1, j1) == ref_at(post, i1, j1));
                assert(ref_at(pre, i2, j2) == ref_at(post, i2, j2));
            }
        }
    }
    // Names seen through post equal names seen through pre for old refs.
    assert forall|i: int, j: int|
        is_dir_slot(pre, i) && 0 <= j < REF_COUNT && #[trigger] ref_at(pre, i, j)
            is Some implies child_name(post, i, j) == child_name(pre, i, j) && ref_at(post, i, j)
        == ref_at(pre, i, j) by {
        if i == pi {
            assert(ref_at(pre, pi, rs) is None);
            assert(j != rs);
        }
        let c = ref_at(pre, i, j)->0;
        assert(2 <= c <= n && pre.super_block@[c - 1] is Some && c != i + 1);
        assert(c != cino);
        assert(c - 1 != ci);
        if c - 1 == pi {
            assert(post.super_block@[pi]->0.name@ == pre.super_block@[pi]->0.name@);
        } else {
            assert(post.super_block@[c - 1] == pre.super_block@[c - 1]);
        }
    }
    assert(sibling_names_unique(post)) by {
        assert forall|i: int, j1: int, j2: int|
            is_dir_slot(post, i) && 0 <= j1 < REF_COUNT && 0 <= j2 < REF_COUNT && j1 != j2
                && ref_at(post, i, j1) is Some && ref_at(post, i, j2) is Some implies #[trigger]
        child_name(post, i, j1) != #[trigger] child_name(post, i, j2) by {
            if i == ci {
                assert(false);
            } else {
                assert(is_dir_slot(pre, i));
                let new1 = i == pi && j1 == rs;
                let new2 = i == pi && j2 == rs;
                if new1 {
                    assert(ref_at(pre, i, j2) is Some);
                    assert(child_name(post, i, rs) == trim_nulls(child.name@)) by {
                        assert(post.super_block@[ci] == Some(child));
                    }
                    assert(child_name(pre, i, j2) != trim_nulls(child.name@));
                } else if new2 {
                    assert(ref_at(pre, i, j1) is Some);
                    assert(child_name(post, i, rs) == trim_nulls(child.name@)) by {
                        assert(post.super_block@[ci] == Some(child));
                    }
                    assert(child_name(pre, i, j1) != trim_nulls(child.name@));
                } else {
                    assert(ref_at(pre, i, j1) is Some && ref_at(pre, i, j2) is Some);
                    assert(child_name(pre, i, j1) != child_name(pre, i, j2));
                }
            }
        }
    }
    assert(file_blocks_valid(post)) by {
        assert forall|i: int| #[trigger] is_file_slot(post, i) implies {
            &&& ref_at(post, i, 0) matches Some(b)
            &&& b < post.memory_blocks@.len()
            &&& post.memory_blocks@[b as int].data is Some
        } by {
            if i == ci {
                assert(child.attributes.kind == FileKind::RegularFile);
                let bv = blk->0;
                assert(ref_at(post, ci, 0) == Some(bv as usize));
            } else if i == pi {
                assert(false);
            } else {
                assert(is_file_slot(pre, i));
                assert(ref_at(pre, i, 0) matches Some(b) && b < pre.memory_blocks@.len()
                    && pre.memory_blocks@[b as int].data is Some);
                assert(ref_at(post, i, 0) == ref_at(pre, i, 0));
                if let Some(bv) = blk {
                    let b = ref_at(pre, i, 0)->0;
                    assert(b != bv as usize);
                    assert(post.memory_blocks@[b as int] == pre.memory_blocks@[b as int]);
                }
            }
        }
        assert forall|i1: int, i2: int|
            #[trigger] is_file_slot(post, i1) && #[trigger] is_file_slot(post, i2) && ref_at(
                post,
                i1,
                0,
            ) == ref_at(post, i2, 0) implies i1 == i2 by {
            if i1 != i2 {
                if i1 == ci || i2 == ci {
                    let o = if i1 == ci { i2 } else { i1 };
                    let bv = blk->0;
                    assert(is_file_slot(pre, o));
                    assert(ref_at(post, o, 0) == ref_at(pre, o, 0));
                    assert(ref_at(pre, o, 0) matches Some(b) && b < pre.memory_blocks@.len()
                        && pre.memory_blocks@[b as int].data is Some);
                    assert(ref_at(pre, o, 0) != Some(bv as usize));
                    assert(ref_at(post, ci, 0) == Some(bv as usize));
                    assert(false);
                } else {
                    assert(is_file_slot(pre, i1) && is_file_slot(pre, i2));
                    assert(ref_at(pre, i1, 0) == ref_at(post, i1, 0));
                    assert(ref_at(pre, i2, 0) == ref_at(post, i2, 0));
                    assert(false);
                }
            }
        }
    }
}

/// Unlinking one referenced inode from its parent directory — clearing the
/// child's slot, the parent's reference, and for a file its data block —
/// preserves the filesystem invariant.
pub proof fn lemma_inv_after_remove(
    pre: Disk,
    post: Disk,
    parent: int,
    j: int,
    c: usize,
    p2: Inode,
    blk: Option<int>,
)
    requires
        fs_inv(pre),
        post.max_files == pre.max_files,
        post.block_size == pre.block_size,
        post.memory_blocks@.len() == pre.memory_blocks@.len(),
        1 <= parent <= pre.super_block@.len(),
        is_dir_slot(pre, parent - 1),
        0 <= j < REF_COUNT,
        ref_at(pre, parent - 1, j) == Some(c),
        inode_with_ref(pre.super_block@[parent - 1]->0, p2, j, None),
        post.super_block@ == pre.super_block@.update(c - 1, None).update(
            parent - 1,
            Some(p2),
        ),
        blk matches Some(bv) ==> {
            &&& 0 <= bv < pre.memory_blocks@.len()
            &&& post.memory_blocks@ == pre.memory_blocks@.update(bv, MemoryBlock { data: None })
            &&& pre.super_block@[c - 1]->0.attributes.kind == FileKind::RegularFile
            &&& ref_at(pre, c - 1, 0) == Some(bv as usize)
        },
        blk is None ==> post.memory_blocks@ == pre.memory_blocks@,
    ensures
        fs_inv(post),
{
    vstd::std_specs::vec::axiom_spec_len(&pre.super_block);
    vstd::std_specs::vec::axiom_spec_len(&pre.memory_blocks);
    let n = pre.super_block@.len() as int;
    let pi = parent - 1;
    let ci = c - 1;
    assert(2 <= c <= n && pre.super_block@[ci] is Some && c != parent);
    assert(post.super_block@[ci] is None);
    assert(post.super_block@[pi] == Some(p2));
    assert(forall|x: int| 0 <= x < n && x != ci && x != pi ==> post.super_block@[x] == pre.super_block@[x]);
    assert(forall|jj: int|
        0 <= jj < REF_COUNT && jj != j ==> ref_at(post, pi, jj) == ref_at(pre, pi, jj));
    assert(ref_at(post, pi, j) is None);
    assert(forall|x: int, jj: int|
        0 <= x < n && x != ci && x != pi ==> #[trigger] ref_at(post, x, jj) == ref_at(pre, x, jj));

    // The cleared inode is referenced nowhere else.
    assert forall|i2: int, j2: int|
        is_dir_slot(pre, i2) && 0 <= j2 < REF_COUNT && #[trigger] ref_at(pre, i2, j2) == Some(c)
            implies i2 == pi && j2 == j by {
        assert(ref_at(pre, pi, j) == Some(c));
    }

    assert(post.wf()) by {
        assert forall|x: int|
            0 <= x < n implies (#[trigger] post.super_block@[x] matches Some(ind) ==> ind.wf()
                && ind.attributes.ino == x + 1) by {
            if x != ci && x != pi && post.super_block@[x] is Some {
                assert(pre.super_block@[x] matches Some(q) && q.wf() && q.attributes.ino == x
                    + 1);
            }
        }
        assert forall|k: int|
            0 <= k < post.memory_blocks@.len() implies (#[trigger] post.memory_blocks@[k].data
                matches Some(dd) ==> dd@.len() <= post.block_size) by {
            if let Some(bv) = blk {
                if k != bv {
                    assert(post.memory_blocks@[k] == pre.memory_blocks@[k]);
                }
            }
        }
    }
    assert(root_present(post));
    assert forall|i: int, jj: int|
        is_dir_slot(post, i) && 0 <= jj < REF_COUNT implies (#[trigger] ref_at(post, i, jj)
        matches Some(cc) ==> 2 <= cc <= post.super_block@.len() && post.super_block@[cc
        - 1] is Some && cc != i + 1) by {
        if let Some(cc) = ref_at(post, i, jj) {
            assert(i != ci);
            assert(is_dir_slot(pre, i));
            assert(ref_at(pre, i, jj) == Some(cc));
            assert(2 <= cc <= n && pre.super_block@[cc - 1] is Some && cc != i + 1);
            assert(cc != c);
        }
    }
    assert(parents_unique(post)) by {
        assert forall|i1: int, j1: int, i2: int, j2: int|
            is_dir_slot(post, i1) && is_dir_slot(post, i2) && 0 <= j1 < REF_COUNT && 0 <= j2
                < REF_COUNT && #[trigger] ref_at(post, i1, j1) is Some && ref_at(post, i1, j1)
                == #[trigger] ref_at(post, i2, j2) implies i1 == i2 && j1 == j2 by {
            assert(i1 != ci && i2 != ci);
            assert(is_dir_slot(pre, i1) && is_dir_slot(pre, i2));
            assert(ref_at(pre, i1, j1) == ref_at(post, i1, j1));
            assert(ref_at(pre, i2, j2) == ref_at(post, i2, j2));
        }
    }
    assert forall|i: int, jj: int|
        is_dir_slot(post, i) && 0 <= jj < REF_COUNT && #[trigger] ref_at(post, i, jj)
            is Some implies child_name(post, i, jj) == child_name(pre, i, jj) by {
        let cc = ref_at(post, i, jj)->0;
        assert(ref_at(pre, i, jj) == Some(cc));
        assert(is_dir_slot(pre, i));
        assert(2 <= cc <= n && pre.super_block@[cc - 1] is Some && cc != i + 1);
        assert(cc != c);
        if cc - 1 == pi {
            assert(post.super_block@[pi]->0.name@ == pre.super_block@[pi]->0.name@);
        } else {
            assert(post.super_block@[cc - 1] == pre.super_block@[cc - 1]);
        }
    }
    assert(sibling_names_unique(post)) by {
        assert forall|i: int, j1: int, j2: int|
            is_dir_slot(post, i) && 0 <= j1 < REF_COUNT && 0 <= j2 < REF_COUNT && j1 != j2
                && ref_at(post, i, j1) is Some && ref_at(post, i, j2) is Some implies #[trigger]
        child_name(post, i, j1) != #[trigger] child_name(post, i, j2) by {
            assert(i != ci);
            assert(is_dir_slot(pre, i));
            assert(ref_at(pre, i, j1) == ref_at(post, i, j1));
            assert(ref_at(pre, i, j2) == ref_at(post, i, j2));
            assert(child_name(pre, i, j1) != child_name(pre, i, j2));
        }
    }
    assert(file_blocks_valid(post)) by {
        assert forall|i: int| #[trigger] is_file_slot(post, i) implies {
            &&& ref_at(post, i, 0) matches Some(b)
            &&& b < post.memory_blocks@.len()
            &&& post.memory_blocks@[b as int].data is Some
        } by {
            assert(i != ci);
            assert(i != pi);
            assert(is_file_slot(pre, i));
            assert(ref_at(pre, i, 0) matches Some(b) && b < pre.memory_blocks@.len()
                && pre.memory_blocks@[b as int].data is Some);
            assert(ref_at(post, i, 0) == ref_at(pre, i, 0));
            if let Some(bv) = blk {
                assert(is_file_slot(pre, ci));
                let b = ref_at(pre, i, 0)->0;
                assert(b as int != bv);
                assert(post.memory_blocks@[b as int] == pre.memory_blocks@[b as int]);
            }
        }
        assert forall|i1: int, i2: int|
            #[trigger] is_file_slot(post, i1) && #[trigger] is_file_slot(post, i2) && ref_at(
                post,
                i1,
                0,
            ) == ref_at(post, i2, 0) implies i1 == i2 by {
            if i1 != i2 {
                assert(is_file_slot(pre, i1) && is_file_slot(pre, i2));
                assert(ref_at(pre, i1, 0) == ref_at(post, i1, 0));
                assert(ref_at(pre, i2, 0) == ref_at(post, i2, 0));
                assert(false);
            }
        }
    }
}

/// What a successful `create` leaves behind, stated over the prior state:
/// the first free inode slot holds the fresh file, the first free block is
/// allocated, and the first free reference slot of the parent names it.
pub open spec fn create_ok_post(d0: Disk, d1: Disk, parent: int, name: Seq<char>) -> bool {
    let refs0 = d0.super_block@[parent - 1]->0.references@;
    &&& spec_free_ref(refs0) matches Some(rs)
    &&& spec_free_ino_slot(d0.super_block@) matches Some(ci)
    &&& spec_free_block(d0.memory_blocks@) matches Some(bv)
    &&& d1.super_block@[ci] matches Some(ch)
    &&& ch.attributes.kind == FileKind::RegularFile
    &&& ch.attributes.ino == ci + 1
    &&& trim_nulls(ch.name@) == name
    &&& ch.references@[0] == Some(bv as usize)
    &&& d1.super_block@[parent - 1] matches Some(p2)
    &&& inode_with_ref(d0.super_block@[parent - 1]->0, p2, rs, Some((ci + 1) as usize))
    &&& d1.super_block@ == d0.super_block@.update(ci, Some(ch)).update(parent - 1, Some(p2))
    &&& d1.memory_blocks@.len() == d0.memory_blocks@.len()
    &&& d1.memory_blocks@[bv].data is Some
    &&& forall|k: int|
        0 <= k < d0.memory_blocks@.len() && k != bv ==> d1.memory_blocks@[k]
            == d0.memory_blocks@[k]
}

/// What a successful `mkdir` leaves behind: as `create`, without a block.
pub open spec fn mkdir_ok_post(d0: Disk, d1: Disk, parent: int, name: Seq<char>) -> bool {
    let refs0 = d0.super_block@[parent - 1]->0.references@;
    &&& spec_free_ref(refs0) matches Some(rs)
    &&& spec_free_ino_slot(d0.super_block@) matches Some(ci)
    &&& d1.super_block@[ci] matches Some(ch)
    &&& ch.attributes.kind == FileKind::Directory
    &&& ch.attributes.ino == ci + 1
    &&& trim_nulls(ch.name@) == name
    &&& (forall|j: int| 0 <= j < REF_COUNT ==> ch.references@[j] is None)
    &&& d1.super_block@[parent - 1] matches Some(p2)
    &&& inode_with_ref(d0.super_block@[parent - 1]->0, p2, rs, Some((ci + 1) as usize))
    &&& d1.super_block@ == d0.super_block@.update(ci, Some(ch)).update(parent - 1, Some(p2))
    &&& d1.memory_blocks@ == d0.memory_blocks@
}

/// What a successful `unlink` leaves behind: the resolved child's slot and
/// its block are freed and the parent's reference is cleared.
pub open spec fn unlink_ok_post(d0: Disk, d1: Disk, parent: int, name: Seq<char>) -> bool {
    let refs0 = d0.super_block@[parent - 1]->0.references@;
    &&& spec_name_slot(d0, refs0, name) matches Some(j)
    &&& refs0[j] matches Some(c)
    &&& d0.super_block@[c - 1]->0.attributes.kind == FileKind::RegularFile
    &&& ref_at(d0, c - 1, 0) matches Some(bv)
    &&& d1.super_block@[parent - 1] matches Some(p3)
    &&& inode_with_ref(d0.super_block@[parent - 1]->0, p3, j, None)
    &&& d1.super_block@ == d0.super_block@.update(c - 1, None).update(parent - 1, Some(p3))
    &&& d1.memory_blocks@ == d0.memory_blocks@.update(bv as int, MemoryBlock { data: None })
}

/// What a successful `rmdir` leaves behind: the resolved child's slot is
/// freed and the parent's reference is cleared; blocks are untouched.
pub open spec fn rmdir_ok_post(d0: Disk, d1: Disk, parent: int, name: Seq<char>) -> bool {
    let refs0 = d0.super_block@[parent - 1]->0.references@;
    &&& spec_name_slot(d0, refs0, name) matches Some(j)
    &&& refs0[j] matches Some(c)
    &&& d1.super_block@[parent - 1] matches Some(p3)
    &&& inode_with_ref(d0.super_block@[parent - 1]->0, p3, j, None)
    &&& d1.super_block@ == d0.super_block@.update(c - 1, None).update(parent - 1, Some(p3))
    &&& d1.memory_blocks@ == d0.memory_blocks@
}

/// A freshly constructed arena — the root alone, no blocks in use —
/// satisfies the filesystem invariant.
pub proof fn lemma_fresh_inv(d: Disk)
    requires
        d.wf(),
        d.super_block@[0] matches Some(root) && root.attributes.kind == FileKind::Directory
            && trim_nulls(root.name@) == seq!['.'] && forall|j: int|
            0 <= j < REF_COUNT ==> root.references@[j] is None,
        forall|i: int| 1 <= i < d.super_block@.len() ==> d.super_block@[i] is None,
    ensures
        fs_inv(d),
{
    assert forall|i: int, j: int|
        is_dir_slot(d, i) && 0 <= j < REF_COUNT implies !(#[trigger] ref_at(d, i, j) is Some) by {
        if i != 0 {
            assert(d.super_block@[i] is None);
        }
    }
    assert forall|i: int| !(#[trigger] is_file_slot(d, i)) by {
        if 0 < i < d.super_block@.len() {
            assert(d.super_block@[i] is None);
        }
    }
}

impl QrFS {
    /// The filesystem invariant, on the service's own arena.
    pub open spec fn inv(self) -> bool {
        fs_inv(self.disk)
    }

    /// Builds the service over a fresh arena with the fixed production
    /// sizing: 1024 inode slots, a 1 GiB image, and blocks sized to hold
    /// the whole inode table.
    pub fn new(root_path: String, now: Timespec) -> (r: QrFS)
        ensures
            r.inv(),
            r.disk.max_files == 1024,
            r.disk.block_size == 1024 * INODE_FOOTPRINT,
            r.disk.root_path@ == root_path@,
            forall|k: int|
                0 <= k < r.disk.memory_blocks@.len() ==> r.disk.memory_blocks@[k].data is None,
            forall|i: int| 1 <= i < r.disk.super_block@.len() ==> r.disk.super_block@[i] is None,
            r.disk.super_block@[0] matches Some(root) && root.attributes.kind
                == FileKind::Directory && root.attributes.ino == 1 && trim_nulls(root.name@)
                == seq!['.'] && forall|j: int| 0 <= j < REF_COUNT ==> root.references@[j] is None,
    {
        let max_files: usize = 1024;
        let memory_size: usize = 1024 * 1024 * 1024;
        let block_size: usize = max_files * INODE_FOOTPRINT;
        let disk = Disk::new(root_path, memory_size, block_size, now);
        proof {
            lemma_fresh_inv(disk);
        }
        QrFS { disk }
    }

    /// Resolves `name` within `parent`. On a hit, replies with the child's
    /// attributes; on a miss, `ENOENT`.
    pub fn lookup(&self, parent: u64, name: &Vec<char>) -> (r: Result<FileAttr, FsError>)
        requires
            self.inv(),
            1 <= parent <= self.disk.super_block@.len(),
            is_dir_slot(self.disk, parent - 1),
        ensures
            match spec_lookup(self.disk, parent as int, name@) {
                Some(a) => r == Ok::<FileAttr, FsError>(a),
                None => r == Err::<FileAttr, FsError>(FsError::NoEntry),
            },
    {
        proof {
            lemma_dir_refs(self.disk, parent as int);
        }
        match self.disk.find_inode_in_references_by_name(parent, name) {
            Some(inode) => Ok(inode.attributes),
            None => Err(FsError::NoEntry),
        }
    }

    /// Attributes of the inode numbered `ino`, or `ENOENT`.
    pub fn getattr(&self, ino: u64) -> (r: Result<FileAttr, FsError>)
        requires
            1 <= ino <= self.disk.super_block@.len(),
        ensures
            match spec_getattr(self.disk, ino as int) {
                Some(a) => r == Ok::<FileAttr, FsError>(a),
                None => r == Err::<FileAttr, FsError>(FsError::NoEntry),
            },
    {
        match self.disk.get_inode(ino) {
            Some(inode) => Ok(inode.attributes),
            None => Err(FsError::NoEntry),
        }
    }

    /// Opens the inode numbered `ino`: replies the inode number as the file
    /// handle together with the unchanged flags, or `ENOSYS` when absent.
    pub fn open(&self, ino: u64, flags: u32) -> (r: Result<(u64, u32), FsError>)
        requires
            1 <= ino <= self.disk.super_block@.len(),
        ensures
            self.disk.super_block@[ino - 1] is Some ==> r == Ok::<(u64, u32), FsError>(
                (ino, flags),
            ),
            self.disk.super_block@[ino - 1] is None ==> r == Err::<(u64, u32), FsError>(
                FsError::NotImplemented,
            ),
    {
        match self.disk.get_inode(ino) {
            Some(_) => Ok((ino, flags)),
            None => Err(FsError::NotImplemented),
        }
    }

    /// Synchronisation is not implemented; every call replies `ENOSYS`.
    pub fn fsync(&self, _ino: u64, _fh: u64, _datasync: bool) -> (r: Result<(), FsError>)
        ensures
            r == Err::<(), FsError>(FsError::NotImplemented),
    {
        Err(FsError::NotImplemented)
    }

    /// Reads a file: the entire byte buffer of the block recorded in the
    /// file's reference slot 0; `offset` and `size` are deliberately
    /// ignored, as the whole content is returned in one reply. A miss of
    /// any kind replies `EIO`.
    pub fn read(&self, ino: u64, _fh: u64, _offset: i64, _size: u32) -> (r: Result<
        &Vec<u8>,
        FsError,
    >)
        requires
            self.inv(),
            1 <= ino <= self.disk.super_block@.len(),
        ensures
            match spec_read(self.disk, ino as int) {
                Some(bytes) => r matches Ok(v) && v@ == bytes,
                None => r matches Err(e) && e == FsError::InputOutput,
            },
    {
        match self.disk.get_inode(ino) {
            Some(inode) => {
                if inode.attributes.kind == FileKind::RegularFile {
                    match inode.references[0] {
                        Some(block_index) => {
                            proof {
                                assert(is_file_slot(self.disk, ino - 1));
                            }
                            match self.disk.get_content_as_bytes(block_index) {
                                Some(bytes) => Ok(bytes),
                                None => Err(FsError::InputOutput),
                            }
                        },
                        None => Err(FsError::InputOutput),
                    }
                } else {
                    Err(FsError::InputOutput)
                }
            },
            None => Err(FsError::InputOutput),
        }
    }

    /// Overwrites only the provided attribute fields of the inode numbered
    /// `ino` and replies with the updated attributes; `mode`, `fh`,
    /// `chgtime` and `bkuptime` are accepted but ignored. A missing inode
    /// replies `ENOENT`.
    pub fn setattr(
        &mut self,
        ino: u64,
        _mode: Option<u32>,
        uid: Option<u32>,
        gid: Option<u32>,
        size: Option<u64>,
        atime: Option<Timespec>,
        mtime: Option<Timespec>,
        _fh: Option<u64>,
        crtime: Option<Timespec>,
        _chgtime: Option<Timespec>,
        _bkuptime: Option<Timespec>,
        flags: Option<u32>,
    ) -> (r: Result<FileAttr, FsError>)
        requires
            old(self).inv(),
            1 <= ino <= old(self).disk.super_block@.len(),
        ensures
            final(self).inv(),
            same_config(old(self).disk, final(self).disk),
            final(self).disk.memory_blocks@ == old(self).disk.memory_blocks@,
            old(self).disk.super_block@[ino - 1] is None ==> r == Err::<FileAttr, FsError>(
                FsError::NoEntry,
            ) && final(self).disk.super_block@ == old(self).disk.super_block@,
            old(self).disk.super_block@[ino - 1] matches Some(old_ind) ==> {
                let updated = attr_updated(
                    old_ind.attributes,
                    size,
                    atime,
                    mtime,
                    crtime,
                    gid,
                    uid,
                    flags,
                );
                &&& r == Ok::<FileAttr, FsError>(updated)
                &&& final(self).disk.super_block@[ino - 1] matches Some(new_ind)
                &&& new_ind.attributes == updated
                &&& new_ind.name@ == old_ind.name@
                &&& new_ind.references@ == old_ind.references@
                &&& final(self).disk.super_block@ == old(self).disk.super_block@.update(
                    ino - 1,
                    Some(new_ind),
                )
            },
    {
        let n_slots = self.disk.super_block.len();
        let index: usize = (ino - 1) as usize;
        match self.disk.get_inode(ino) {
            Some(_) => {},
            None => {
                return Err(FsError::NoEntry);
            },
        }
        let ghost pre = self.disk;
        let ghost sb = self.disk.super_block@;
        let slot = self.disk.super_block.remove(index);
        match slot {
            Some(mut inode) => {
                if let Some(size) = size {
                    inode.attributes.size = size;
                }
                if let Some(atime) = atime {
                    inode.attributes.atime = atime;
                }
                if let Some(mtime) = mtime {
                    inode.attributes.mtime = mtime;
                }
                if let Some(crtime) = crtime {
                    inode.attributes.crtime = crtime;
                }
                if let Some(gid) = gid {
                    inode.attributes.gid = gid;
                }
                if let Some(uid) = uid {
                    inode.attributes.uid = uid;
                }
                if let Some(flags) = flags {
                    inode.attributes.flags = flags;
                }
                let attr = inode.attributes;
                self.disk.super_block.insert(index, Some(inode));
                proof {
                    crate::disk::lemma_remove_insert_is_update(
                        sb,
                        index as int,
                        Some(inode),
                    );
                    lemma_inv_same_shape(pre, self.disk);
                }
                Ok(attr)
            },
            None => unreached(),
        }
    }

    /// Replaces the block recorded in the file's reference slot 0 with a
    /// copy of `data`, records the new size on the inode, and replies the
    /// number of bytes written. `offset` is deliberately ignored: any prior
    /// content is discarded. A missing inode replies `ENOENT`.
    pub fn write(&mut self, ino: u64, _fh: u64, _offset: i64, data: Vec<u8>, _flags: u32) -> (r:
        Result<u32, FsError>)
        requires
            old(self).inv(),
            1 <= ino <= old(self).disk.super_block@.len(),
            data@.len() <= old(self).disk.block_size,
            data@.len() <= u32::MAX,
            old(self).disk.super_block@[ino - 1] matches Some(ind) ==> ind.attributes.kind
                == FileKind::RegularFile,
        ensures
            final(self).inv(),
            same_config(old(self).disk, final(self).disk),
            old(self).disk.super_block@[ino - 1] is None ==> r == Err::<u32, FsError>(
                FsError::NoEntry,
            ) && final(self).disk.super_block@ == old(self).disk.super_block@
                && final(self).disk.memory_blocks@ == old(self).disk.memory_blocks@,
            old(self).disk.super_block@[ino - 1] matches Some(old_ind) ==> {
                let b = ref_at(old(self).disk, ino - 1, 0)->0;
                &&& r == Ok::<u32, FsError>(data@.len() as u32)
                &&& final(self).disk.super_block@[ino - 1] matches Some(new_ind)
                &&& new_ind.attributes == attr_with_size(old_ind.attributes, data@.len() as u64)
                &&& new_ind.name@ == old_ind.name@
                &&& new_ind.references@ == old_ind.references@
                &&& final(self).disk.super_block@ == old(self).disk.super_block@.update(
                    ino - 1,
                    Some(new_ind),
                )
                &&& final(self).disk.memory_blocks@ == old(self).disk.memory_blocks@.update(
                    b as int,
                    MemoryBlock { data: Some(data) },
                )
                &&& spec_read(final(self).disk, ino as int) == Some(data@)
                &&& spec_getattr(final(self).disk, ino as int) matches Some(a) && a.size
                    == data@.len()
            },
    {
        let n_slots = self.disk.super_block.len();
        let index: usize = (ino - 1) as usize;
        match self.disk.get_inode(ino) {
            Some(_) => {},
            None => {
                return Err(FsError::NoEntry);
            },
        }
        let ghost pre = self.disk;
        let ghost sb = self.disk.super_block@;
        let written: u32 = data.len() as u32;
        let slot = self.disk.super_block.remove(index);
        match slot {
            Some(mut inode) => {
                proof {
                    assert(is_file_slot(pre, ino - 1));
                }
                let block_index = match inode.references[0] {
                    Some(b) => b,
                    None => unreached(),
                };
                inode.attributes.size = data.len() as u64;
                self.disk.super_block.insert(index, Some(inode));
                proof {
                    crate::disk::lemma_remove_insert_is_update(
                        sb,
                        index as int,
                        Some(inode),
                    );
                }
                self.disk.write_content_as_bytes(block_index, data);
                proof {
                    lemma_inv_same_shape(pre, self.disk);
                    assert(is_file_slot(self.disk, ino - 1));
                }
                Ok(written)
            },
            None => unreached(),
        }
    }

    /// Creates a regular file named `name` under `parent`: acquires the
    /// first free reference slot of the parent (else `EIO`), the lowest
    /// free inode number and the lowest free block (else `ENOSPC`), stores
    /// a fresh file inode stamped with `now`, allocates an empty block for
    /// it, and links it into the parent. Replies the new attributes and the
    /// new inode number as the file handle.
    pub fn create(&mut self, parent: u64, name: &Vec<char>, _mode: u32, flags: u32, now: Timespec)
        -> (r: Result<(FileAttr, u64), FsError>)
        requires
            old(self).inv(),
            1 <= parent <= old(self).disk.super_block@.len(),
            is_dir_slot(old(self).disk, parent - 1),
            name@.len() <= NAME_LEN,
            has_no_nulls(name@),
            forall|j: int|
                0 <= j < REF_COUNT && #[trigger] ref_at(old(self).disk, parent - 1, j)
                    is Some ==> child_name(old(self).disk, parent - 1, j) != name@,
        ensures
            final(self).inv(),
            same_config(old(self).disk, final(self).disk),
            ({
                let d0 = old(self).disk;
                let refs0 = d0.super_block@[parent - 1]->0.references@;
                if spec_free_ref(refs0) is None {
                    &&& r == Err::<(FileAttr, u64), FsError>(FsError::InputOutput)
                    &&& final(self).disk.super_block@ == d0.super_block@
                    &&& final(self).disk.memory_blocks@ == d0.memory_blocks@
                } else if spec_free_ino_slot(d0.super_block@) is None || spec_free_block(
                    d0.memory_blocks@,
                ) is None {
                    &&& r == Err::<(FileAttr, u64), FsError>(FsError::NoSpace)
                    &&& final(self).disk.super_block@ == d0.super_block@
                    &&& final(self).disk.memory_blocks@ == d0.memory_blocks@
                } else {
                    let rs = spec_free_ref(refs0)->0;
                    let ci = spec_free_ino_slot(d0.super_block@)->0;
                    let bv = spec_free_block(d0.memory_blocks@)->0;
                    let attr = (FileAttr {
                        ino: (ci + 1) as u64,
                        size: 0,
                        blocks: 1,
                        atime: now,
                        mtime: now,
                        ctime: now,
                        crtime: now,
                        kind: FileKind::RegularFile,
                        perm: 0o755,
                        nlink: 0,
                        uid: 0,
                        gid: 0,
                        rdev: 0,
                        flags: flags,
                    });
                    &&& r == Ok::<(FileAttr, u64), FsError>((attr, (ci + 1) as u64))
                    &&& final(self).disk.super_block@[ci] matches Some(ch)
                    &&& ch.attributes == attr
                    &&& trim_nulls(ch.name@) == name@
                    &&& ch.references@[0] == Some(bv as usize)
                    &&& forall|j: int| 1 <= j < REF_COUNT ==> ch.references@[j] is None
                    &&& final(self).disk.super_block@[parent - 1] matches Some(p2)
                    &&& inode_with_ref(
                        d0.super_block@[parent - 1]->0,
                        p2,
                        rs,
                        Some((ci + 1) as usize),
                    )
                    &&& final(self).disk.super_block@ == d0.super_block@.update(
                        ci,
                        Some(ch),
                    ).update(parent - 1, Some(p2))
                    &&& final(self).disk.memory_blocks@[bv].data matches Some(e) && e@
                        == Seq::<u8>::empty()
                    &&& final(self).disk.memory_blocks@ == d0.memory_blocks@.update(
                        bv,
                        final(self).disk.memory_blocks@[bv],
                    )
                    &&& create_ok_post(d0, final(self).disk, parent as int, name@)
                }
            }),
    {
        let n_slots = self.disk.super_block.len();
        let n_blocks = self.disk.memory_blocks.len();
        let ghost d0 = self.disk;
        let ref_index = match self.disk.find_index_of_empty_reference_in_inode(parent) {
            Some(j) => j,
            None => {
                return Err(FsError::InputOutput);
            },
        };
        let ino_available = self.disk.find_ino_available();
        let memory_block_index = self.disk.find_index_of_empty_memory_block();
        if ino_available.is_none() || memory_block_index.is_none() {
            return Err(FsError::NoSpace);
        }
        let ino_available = match ino_available {
            Some(i) => i,
            None => unreached(),
        };
        let memory_block_index = match memory_block_index {
            Some(b) => b,
            None => unreached(),
        };
        proof {
            let refs0 = d0.super_block@[parent - 1]->0.references@;
            crate::disk::lemma_first_idx(refs0, crate::disk::pred_ref_none(), 0, REF_COUNT as int);
            crate::disk::lemma_first_idx(
                d0.super_block@,
                crate::disk::pred_slot_none(),
                0,
                d0.super_block@.len() - 1,
            );
            crate::disk::lemma_first_idx(
                d0.memory_blocks@,
                crate::disk::pred_block_none(),
                0,
                d0.memory_blocks@.len() - 1,
            );
        }
        let attr = FileAttr {
            ino: ino_available,
            size: 0,
            blocks: 1,
            atime: now,
            mtime: now,
            ctime: now,
            crtime: now,
            kind: FileKind::RegularFile,
            perm: 0o755,
            nlink: 0,
            uid: 0,
            gid: 0,
            rdev: 0,
            flags,
        };
        let name_char = make_name(name);
        let mut references = empty_references();
        references[0] = Some(memory_block_index);
        let inode = Inode { name: name_char, attributes: attr, references };
        let ghost child = inode;
        let stored = self.disk.write_inode(inode);
        proof {
            assert(stored);
        }
        let content: Vec<u8> = Vec::new();
        let ghost content_v = content@;
        self.disk.write_content_as_bytes(memory_block_index, content);
        self.disk.write_reference_in_inode(parent, ref_index, ino_available as usize);
        proof {
            let ghost p2 = self.disk.super_block@[parent - 1]->0;
            assert(d0.memory_blocks@[memory_block_index as int].data is None);
            assert(self.disk.super_block@ =~= d0.super_block@.update(
                ino_available - 1,
                Some(child),
            ).update(parent - 1, Some(p2)));
            lemma_inv_after_insert(
                d0,
                self.disk,
                parent as int,
                ref_index as int,
                child,
                p2,
                Some(memory_block_index as int),
                content_v,
            );
        }
        Ok((attr, ino_available))
    }

    /// Creates a directory named `name` under `parent`: acquires the first
    /// free reference slot of the parent (else `EIO`) and the lowest free
    /// inode number (else `ENOSPC`), stores a fresh directory inode with an
    /// empty reference array, stamped with `now`, and links it into the
    /// parent. No data block is allocated.
    pub fn mkdir(&mut self, parent: u64, name: &Vec<char>, _mode: u32, now: Timespec) -> (r:
        Result<FileAttr, FsError>)
        requires
            old(self).inv(),
            1 <= parent <= old(self).disk.super_block@.len(),
            is_dir_slot(old(self).disk, parent - 1),
            name@.len() <= NAME_LEN,
            has_no_nulls(name@),
            forall|j: int|
                0 <= j < REF_COUNT && #[trigger] ref_at(old(self).disk, parent - 1, j)
                    is Some ==> child_name(old(self).disk, parent - 1, j) != name@,
        ensures
            final(self).inv(),
            same_config(old(self).disk, final(self).disk),
            final(self).disk.memory_blocks@ == old(self).disk.memory_blocks@,
            ({
                let d0 = old(self).disk;
                let refs0 = d0.super_block@[parent - 1]->0.references@;
                if spec_free_ref(refs0) is None {
                    &&& r == Err::<FileAttr, FsError>(FsError::InputOutput)
                    &&& final(self).disk.super_block@ == d0.super_block@
                } else if spec_free_ino_slot(d0.super_block@) is None {
                    &&& r == Err::<FileAttr, FsError>(FsError::NoSpace)
                    &&& final(self).disk.super_block@ == d0.super_block@
                } else {
                    let rs = spec_free_ref(refs0)->0;
                    let ci = spec_free_ino_slot(d0.super_block@)->0;
                    let attr = (FileAttr {
                        ino: (ci + 1) as u64,
                        size: 0,
                        blocks: 1,
                        atime: now,
                        mtime: now,
                        ctime: now,
                        crtime: now,
                        kind: FileKind::Directory,
                        perm: 0o755,
                        nlink: 0,
                        uid: 0,
                        gid: 0,
                        rdev: 0,
                        flags: 0,
                    });
                    &&& r == Ok::<FileAttr, FsError>(attr)
                    &&& final(self).disk.super_block@[ci] matches Some(ch)
                    &&& ch.attributes == attr
                    &&& trim_nulls(ch.name@) == name@
                    &&& forall|j: int| 0 <= j < REF_COUNT ==> ch.references@[j] is None
                    &&& final(self).disk.super_block@[parent - 1] matches Some(p2)
                    &&& inode_with_ref(
                        d0.super_block@[parent - 1]->0,
                        p2,
                        rs,
                        Some((ci + 1) as usize),
                    )
                    &&& final(self).disk.super_block@ == d0.super_block@.update(
                        ci,
                        Some(ch),
                    ).update(parent - 1, Some(p2))
                    &&& mkdir_ok_post(d0, final(self).disk, parent as int, name@)
                }
            }),
    {
        let n_slots = self.disk.super_block.len();
        let ghost d0 = self.disk;
        let reference_index = match self.disk.find_index_of_empty_reference_in_inode(parent) {
            Some(j) => j,
            None => {
                return Err(FsError::InputOutput);
            },
        };
        let ino = match self.disk.find_ino_available() {
            Some(i) => i,
            None => {
                return Err(FsError::NoSpace);
            },
        };
        proof {
            let refs0 = d0.super_block@[parent - 1]->0.references@;
            crate::disk::lemma_first_idx(refs0, crate::disk::pred_ref_none(), 0, REF_COUNT as int);
            crate::disk::lemma_first_idx(
                d0.super_block@,
                crate::disk::pred_slot_none(),
                0,
                d0.super_block@.len() - 1,
            );
        }
        let attr = FileAttr {
            ino,
            size: 0,
            blocks: 1,
            atime: now,
            mtime: now,
            ctime: now,
            crtime: now,
            kind: FileKind::Directory,
            perm: 0o755,
            nlink: 0,
            uid: 0,
            gid: 0,
            rdev: 0,
            flags: 0,
        };
        let name_char = make_name(name);
        let inode = Inode { name: name_char, attributes: attr, references: empty_references() };
        let ghost child = inode;
        let stored = self.disk.write_inode(inode);
        proof {
            assert(stored);
        }
        self.disk.write_reference_in_inode(parent, reference_index, ino as usize);
        proof {
            let ghost p2 = self.disk.super_block@[parent - 1]->0;
            assert(self.disk.super_block@ =~= d0.super_block@.update(
                ino - 1,
                Some(child),
            ).update(parent - 1, Some(p2)));
            lemma_inv_after_insert(
                d0,
                self.disk,
                parent as int,
                reference_index as int,
                child,
                p2,
                None,
                Seq::<u8>::empty(),
            );
        }
        Ok(attr)
    }

    /// Removes the file named `name` from `parent`: clears the inode, the
    /// data block recorded in the file's reference slot 0, and the parent's
    /// reference. A directory replies `EISDIR`; an unresolved name replies
    /// `EIO`.
    pub fn unlink(&mut self, parent: u64, name: &Vec<char>) -> (r: Result<(), FsError>)
        requires
            old(self).inv(),
            1 <= parent <= old(self).disk.super_block@.len(),
            is_dir_slot(old(self).disk, parent - 1),
        ensures
            final(self).inv(),
            same_config(old(self).disk, final(self).disk),
            ({
                let d0 = old(self).disk;
                let refs0 = d0.super_block@[parent - 1]->0.references@;
                match spec_name_slot(d0, refs0, name@) {
                    None => {
                        &&& r == Err::<(), FsError>(FsError::InputOutput)
                        &&& final(self).disk.super_block@ == d0.super_block@
                        &&& final(self).disk.memory_blocks@ == d0.memory_blocks@
                    },
                    Some(j) => {
                        let c = refs0[j]->0;
                        if d0.super_block@[c - 1]->0.attributes.kind == FileKind::Directory {
                            &&& r == Err::<(), FsError>(FsError::IsDirectory)
                            &&& final(self).disk.super_block@ == d0.super_block@
                            &&& final(self).disk.memory_blocks@ == d0.memory_blocks@
                        } else {
                            let bv = ref_at(d0, c - 1, 0)->0;
                            &&& r == Ok::<(), FsError>(())
                            &&& final(self).disk.super_block@[parent - 1] matches Some(p2)
                            &&& inode_with_ref(d0.super_block@[parent - 1]->0, p2, j, None)
                            &&& final(self).disk.super_block@ == d0.super_block@.update(
                                c - 1,
                                None,
                            ).update(parent - 1, Some(p2))
                            &&& final(self).disk.memory_blocks@ == d0.memory_blocks@.update(
                                bv as int,
                                MemoryBlock { data: None },
                            )
                            &&& unlink_ok_post(d0, final(self).disk, parent as int, name@)
                        }
                    },
                }
            }),
    {
        let n_slots = self.disk.super_block.len();
        let n_blocks = self.disk.memory_blocks.len();
        let ghost d0 = self.disk;
        let ghost refs0 = d0.super_block@[parent - 1]->0.references@;
        proof {
            lemma_dir_refs(self.disk, parent as int);
        }
        let (ino_c, kind, block0) = match self.disk.find_inode_in_references_by_name(
            parent,
            name,
        ) {
            Some(inode) => {
                proof {
                    crate::disk::lemma_first_idx(
                        refs0,
                        name_slot_pred(d0, name@),
                        0,
                        refs0.len() as int,
                    );
                    let jj = spec_name_slot(d0, refs0, name@)->0;
                    assert(d0.super_block@[refs0[jj]->0 - 1] == Some(*inode));
                    assert(inode.references@.len() == REF_COUNT);
                }
                (inode.attributes.ino, inode.attributes.kind, inode.references[0])
            },
            None => {
                return Err(FsError::InputOutput);
            },
        };
        if kind == FileKind::Directory {
            return Err(FsError::IsDirectory);
        }
        let ghost j = spec_name_slot(d0, refs0, name@)->0;
        let ghost c = refs0[j]->0;
        proof {
            crate::disk::lemma_first_idx(
                refs0,
                name_slot_pred(d0, name@),
                0,
                refs0.len() as int,
            );
            assert(ref_at(d0, parent - 1, j) == Some(c));
            assert(2 <= c <= n_slots && d0.super_block@[c - 1] is Some && c != parent);
            assert(ino_c == c as u64);
            assert(is_file_slot(d0, c - 1));
        }
        let block_index = match block0 {
            Some(b) => b,
            None => unreached(),
        };
        self.disk.clear_inode(ino_c);
        self.disk.clear_memory_block(block_index);
        proof {
            assert(self.disk.super_block@[parent - 1] == d0.super_block@[parent - 1]);
            assert(spec_ref_position(
                self.disk.super_block@[parent - 1]->0.references@,
                ino_c as usize,
            ) is Some) by {
                crate::disk::lemma_first_idx(
                    refs0,
                    crate::disk::pred_ref_eq(ino_c as usize),
                    0,
                    refs0.len() as int,
                );
                assert(crate::disk::pred_ref_eq(ino_c as usize)(refs0[j]));
            }
        }
        let ghost mid = self.disk;
        self.disk.clear_reference_in_inode(parent, ino_c as usize);
        proof {
            let jc = spec_ref_position(refs0, ino_c as usize)->0;
            crate::disk::lemma_first_idx(
                refs0,
                crate::disk::pred_ref_eq(ino_c as usize),
                0,
                refs0.len() as int,
            );
            assert(ref_at(d0, parent - 1, jc) == Some(c));
            assert(jc == j);
            let p2 = self.disk.super_block@[parent - 1]->0;
            assert(self.disk.super_block@ =~= d0.super_block@.update(c - 1, None).update(
                parent - 1,
                Some(p2),
            ));
            lemma_inv_after_remove(
                d0,
                self.disk,
                parent as int,
                j,
                c,
                p2,
                Some(block_index as int),
            );
        }
        Ok(())
    }

    /// Removes the entry named `name` from `parent`: clears the parent's
    /// reference and the child's inode slot. Children of a removed
    /// directory are left in place, unreferenced; no emptiness check is
    /// made. An unresolved name replies `EIO`.
    pub fn rmdir(&mut self, parent: u64, name: &Vec<char>) -> (r: Result<(), FsError>)
        requires
            old(self).inv(),
            1 <= parent <= old(self).disk.super_block@.len(),
            is_dir_slot(old(self).disk, parent - 1),
        ensures
            final(self).inv(),
            same_config(old(self).disk, final(self).disk),
            final(self).disk.memory_blocks@ == old(self).disk.memory_blocks@,
            ({
                let d0 = old(self).disk;
                let refs0 = d0.super_block@[parent - 1]->0.references@;
                match spec_name_slot(d0, refs0, name@) {
                    None => {
                        &&& r == Err::<(), FsError>(FsError::InputOutput)
                        &&& final(self).disk.super_block@ == d0.super_block@
                    },
                    Some(j) => {
                        let c = refs0[j]->0;
                        &&& r == Ok::<(), FsError>(())
                        &&& final(self).disk.super_block@[parent - 1] matches Some(p2)
                        &&& inode_with_ref(d0.super_block@[parent - 1]->0, p2, j, None)
                        &&& final(self).disk.super_block@ == d0.super_block@.update(
                            c - 1,
                            None,
                        ).update(parent - 1, Some(p2))
                        &&& rmdir_ok_post(d0, final(self).disk, parent as int, name@)
                    },
                }
            }),
    {
        let n_slots = self.disk.super_block.len();
        let ghost d0 = self.disk;
        let ghost refs0 = d0.super_block@[parent - 1]->0.references@;
        proof {
            lemma_dir_refs(self.disk, parent as int);
        }
        let ino_c = match self.disk.find_inode_in_references_by_name(parent, name) {
            Some(inode) => inode.attributes.ino,
            None => {
                return Err(FsError::InputOutput);
            },
        };
        let ghost j = spec_name_slot(d0, refs0, name@)->0;
        let ghost c = refs0[j]->0;
        proof {
            crate::disk::lemma_first_idx(
                refs0,
                name_slot_pred(d0, name@),
                0,
                refs0.len() as int,
            );
            assert(ref_at(d0, parent - 1, j) == Some(c));
            assert(2 <= c <= n_slots && d0.super_block@[c - 1] is Some && c != parent);
            assert(ino_c == c as u64);
            assert(spec_ref_position(refs0, ino_c as usize) is Some) by {
                crate::disk::lemma_first_idx(
                    refs0,
                    crate::disk::pred_ref_eq(ino_c as usize),
                    0,
                    refs0.len() as int,
                );
                assert(crate::disk::pred_ref_eq(ino_c as usize)(refs0[j]));
            }
        }
        self.disk.clear_reference_in_inode(parent, ino_c as usize);
        self.disk.clear_inode(ino_c);
        proof {
            let jc = spec_ref_position(refs0, ino_c as usize)->0;
            crate::disk::lemma_first_idx(
                refs0,
                crate::disk::pred_ref_eq(ino_c as usize),
                0,
                refs0.len() as int,
            );
            assert(ref_at(d0, parent - 1, jc) == Some(c));
            assert(jc == j);
            let p2 = self.disk.super_block@[parent - 1]->0;
            assert(self.disk.super_block@ =~= d0.super_block@.update(c - 1, None).update(
                parent - 1,
                Some(p2),
            ));
            lemma_inv_after_remove(d0, self.disk, parent as int, j, c, p2, None);
        }
        Ok(())
    }

    /// Lists a directory. At offset 0 the whole listing is returned in one
    /// call: for the root, synthetic `.` and `..` rows first, then one row
    /// per present child in reference-slot order, skipping the root itself;
    /// the rows carry increasing next-offset markers. At any other offset
    /// the listing is empty, ending the walk. A missing inode replies
    /// `ENOENT`.
    #[verifier::loop_isolation(false)]
    pub fn readdir(&self, ino: u64, _fh: u64, offset: i64) -> (r: Result<Vec<DirEntry>, FsError>)
        requires
            self.inv(),
            1 <= ino <= self.disk.super_block@.len(),
        ensures
            self.disk.super_block@[ino - 1] is None ==> r == Err::<Vec<DirEntry>, FsError>(
                FsError::NoEntry,
            ),
            self.disk.super_block@[ino - 1] is Some && offset != 0 ==> (r matches Ok(es)
                && es@.len() == 0),
            self.disk.super_block@[ino - 1] is Some && offset == 0 ==> {
                let base: int = if ino == 1 { 2 } else { 0 };
                let refs = self.disk.super_block@[ino - 1]->0.references@;
                let kids = spec_children_prefix(self.disk, refs, REF_COUNT as int);
                &&& r matches Ok(es)
                &&& es@.len() == base + kids.len()
                &&& ino == 1 ==> entry_matches(es@[0], (1u64, FileKind::Directory, seq!['.']), 1)
                    && entry_matches(es@[1], (1u64, FileKind::Directory, seq!['.', '.']), 2)
                &&& forall|k: int|
                    0 <= k < kids.len() ==> entry_matches(#[trigger] es@[base + k], kids[k], base + k + 1)
            },
    {
        let n_slots = self.disk.super_block.len();
        let index: usize = (ino - 1) as usize;
        let mut entries: Vec<DirEntry> = Vec::new();
        match self.disk.super_block[index].as_ref() {
            Some(inode) => {
                if offset != 0 {
                    return Ok(entries);
                }
                if ino == 1 {
                    let dot: Vec<char> = vec!['.'];
                    let dotdot: Vec<char> = vec!['.', '.'];
                    assert(dot@ =~= seq!['.']);
                    assert(dotdot@ =~= seq!['.', '.']);
                    entries.push(
                        DirEntry { ino: 1, offset: 1, kind: FileKind::Directory, name: dot },
                    );
                    entries.push(
                        DirEntry { ino: 1, offset: 2, kind: FileKind::Directory, name: dotdot },
                    );
                }
                let base = entries.len();
                let ghost refs = inode.references@;
                let n_refs = inode.references.len();
                proof {
                    assert(refs.len() == REF_COUNT);
                }
                let mut j: usize = 0;
                while j < n_refs
                    invariant
                        j <= n_refs,
                        entries@.len() == base + spec_children_prefix(
                            self.disk,
                            refs,
                            j as int,
                        ).len(),
                        entries@.len() <= base + j,
                        forall|k: int|
                            0 <= k < spec_children_prefix(self.disk, refs, j as int).len()
                                ==> entry_matches(
                                #[trigger] entries@[base + k],
                                spec_children_prefix(self.disk, refs, j as int)[k],
                                base + k + 1,
                            ),
                        base <= entries@.len(),
                        ino == 1 ==> base == 2 && entry_matches(
                            entries@[0],
                            (1u64, FileKind::Directory, seq!['.']),
                            1,
                        ) && entry_matches(entries@[1], (1u64, FileKind::Directory, seq!['.', '.']), 2),
                        ino != 1 ==> base == 0,
                    decreases n_refs - j,
                {
                    let ghost pre_kids = spec_children_prefix(self.disk, refs, j as int);
                    if let Some(c) = inode.references[j] {
                        if c >= 1 && c <= n_slots {
                            match self.disk.super_block[c - 1].as_ref() {
                                Some(child) => {
                                    if child.attributes.ino != 1 {
                                        let name = crate::inode::trimmed_name(&child.name);
                                        let next_offset: i64 = (entries.len() as i64) + 1;
                                        entries.push(
                                            DirEntry {
                                                ino: c as u64,
                                                offset: next_offset,
                                                kind: child.attributes.kind,
                                                name,
                                            },
                                        );
                                        proof {
                                            assert(child_emitted(self.disk, refs, j as int));
                                            assert(spec_children_prefix(
                                                self.disk,
                                                refs,
                                                j + 1,
                                            ) =~= pre_kids.push(child_row(self.disk, refs, j as int)));
                                        }
                                    } else {
                                        proof {
                                            assert(!child_emitted(self.disk, refs, j as int));
                                            assert(spec_children_prefix(self.disk, refs, j + 1)
                                                =~= pre_kids);
                                        }
                                    }
                                },
                                None => {
                                    proof {
                                        assert(!child_emitted(self.disk, refs, j as int));
                                        assert(spec_children_prefix(self.disk, refs, j + 1)
                                            =~= pre_kids);
                                    }
                                },
                            }
                        } else {
                            proof {
                                assert(!child_emitted(self.disk, refs, j as int));
                                assert(spec_children_prefix(self.disk, refs, j + 1)
                                    =~= pre_kids);
                            }
                        }
                    } else {
                        proof {
                            assert(!child_emitted(self.disk, refs, j as int));
                            assert(spec_children_prefix(self.disk, refs, j + 1) =~= pre_kids);
                        }
                    }
                    j += 1;
                }
                Ok(entries)
            },
            None => Err(FsError::NoEntry),
        }
    }
}

} // verus!
