//! The arena: a fixed-capacity superblock of optional inode slots plus a
//! fixed-capacity array of optional data blocks, with first-fit allocation
//! scans and slot-level mutation.

use vstd::prelude::*;

use crate::inode::{FileAttr, FileKind, Inode, Timespec, REF_COUNT};
use crate::inode::{make_name, name_matches, trim_nulls};

verus! {

/// Bytes one encoded inode occupies in the snapshot; the superblock is sized
/// so that `max_files` inodes of this footprint fill one block.
pub const INODE_FOOTPRINT: usize = 1503;

/// A single optional byte buffer; `None` means the block is unallocated.
pub struct MemoryBlock {
    pub data: Option<Vec<u8>>,
}

/// The arena: all filesystem state lives in these two fixed-width arrays.
pub struct Disk {
    /// Slot `i`, when present, holds the inode with `ino == i + 1`.
    pub super_block: Vec<Option<Inode>>,
    pub memory_blocks: Vec<MemoryBlock>,
    /// Capacity of `super_block`; immutable after construction.
    pub max_files: usize,
    /// Maximum bytes a single block may hold; immutable after construction.
    pub block_size: usize,
    /// Directory holding the two backing files; immutable after construction.
    pub root_path: String,
}

/// Index of the first element of `s` in `[from, end)` satisfying `p`.
pub open spec fn first_idx<T>(s: Seq<T>, p: spec_fn(T) -> bool, from: int, end: int) -> Option<
    int,
>
    decreases end - from,
{
    if from < 0 || from >= end || end > s.len() {
        None
    } else if p(s[from]) {
        Some(from)
    } else {
        first_idx(s, p, from + 1, end)
    }
}

/// What a `first_idx` result means: the hit satisfies `p` and nothing
/// before it does; a miss means nothing in range does.
pub proof fn lemma_first_idx<T>(s: Seq<T>, p: spec_fn(T) -> bool, from: int, end: int)
    requires
        0 <= from <= end <= s.len(),
    ensures
        match first_idx(s, p, from, end) {
            Some(j) => from <= j < end && p(s[j]) && forall|k: int| from <= k < j ==> !p(s[k]),
            None => forall|k: int| from <= k < end ==> !p(s[k]),
        },
    decreases end - from,
{
    if from < end {
        lemma_first_idx(s, p, from + 1, end);
    }
}

/// A scan that saw no hit before `i` and a hit at `i` resolves to `i`.
pub proof fn lemma_first_idx_of<T>(s: Seq<T>, p: spec_fn(T) -> bool, from: int, end: int, i: int)
    requires
        0 <= from <= i < end <= s.len(),
        p(s[i]),
        forall|k: int| from <= k < i ==> !p(s[k]),
    ensures
        first_idx(s, p, from, end) == Some(i),
    decreases i - from,
{
    if from < i {
        lemma_first_idx_of(s, p, from + 1, end, i);
    }
}

/// A scan over a range with no hit resolves to `None`.
pub proof fn lemma_first_idx_none<T>(s: Seq<T>, p: spec_fn(T) -> bool, from: int, end: int)
    requires
        0 <= from <= end <= s.len(),
        forall|k: int| from <= k < end ==> !p(s[k]),
    ensures
        first_idx(s, p, from, end) is None,
    decreases end - from,
{
    if from < end {
        lemma_first_idx_none(s, p, from + 1, end);
    }
}

/// Removing an element and re-inserting at the same index is an update.
pub proof fn lemma_remove_insert_is_update<T>(s: Seq<T>, i: int, x: T)
    requires
        0 <= i < s.len(),
    ensures
        s.remove(i).insert(i, x) =~= s.update(i, x),
{
}

/// Predicate of the inode allocation scan: an empty inode slot.
pub open spec fn pred_slot_none() -> spec_fn(Option<Inode>) -> bool {
    |q: Option<Inode>| q is None
}

/// Predicate of the block allocation scan: an unallocated block.
pub open spec fn pred_block_none() -> spec_fn(MemoryBlock) -> bool {
    |m: MemoryBlock| m.data is None
}

/// Predicate of the reference allocation scan: an empty reference slot.
pub open spec fn pred_ref_none() -> spec_fn(Option<usize>) -> bool {
    |q: Option<usize>| q is None
}

/// Predicate of the reference clearing scan: a slot holding exactly `v`.
pub open spec fn pred_ref_eq(v: usize) -> spec_fn(Option<usize>) -> bool {
    |q: Option<usize>| q == Some(v)
}

/// First free inode slot of `sb`, scanning `[0, sb.len() - 1)`; the final
/// slot is deliberately left out of the scan, mirroring the allocator's
/// historical bound (the last slot is never handed out).
pub open spec fn spec_free_ino_slot(sb: Seq<Option<Inode>>) -> Option<int> {
    first_idx(sb, pred_slot_none(), 0, sb.len() - 1)
}

/// First unallocated block of `mb`, scanning `[0, mb.len() - 1)` with the
/// same historical bound as the inode scan.
pub open spec fn spec_free_block(mb: Seq<MemoryBlock>) -> Option<int> {
    first_idx(mb, pred_block_none(), 0, mb.len() - 1)
}

/// First empty reference slot of an inode's reference array.
pub open spec fn spec_free_ref(refs: Seq<Option<usize>>) -> Option<int> {
    first_idx(refs, pred_ref_none(), 0, refs.len() as int)
}

/// First reference slot holding exactly `Some(v)`.
pub open spec fn spec_ref_position(refs: Seq<Option<usize>>, v: usize) -> Option<int> {
    first_idx(refs, pred_ref_eq(v), 0, refs.len() as int)
}

/// The new inode differs from the old one only in reference slot `j`.
pub open spec fn inode_with_ref(old_ind: Inode, new_ind: Inode, j: int, v: Option<usize>) -> bool {
    &&& new_ind.attributes == old_ind.attributes
    &&& new_ind.name@ == old_ind.name@
    &&& new_ind.references@ == old_ind.references@.update(j, v)
}

/// The two disks agree on everything except the arrays' contents.
pub open spec fn same_config(a: Disk, b: Disk) -> bool {
    &&& a.max_files == b.max_files
    &&& a.block_size == b.block_size
    &&& a.root_path@ == b.root_path@
}

impl Disk {
    /// Structural well-formedness of the arena: exact array widths, slot
    /// numbering, and the per-block size bound.
    pub open spec fn wf(self) -> bool {
        &&& self.super_block@.len() == self.max_files
        &&& 1 <= self.max_files
        &&& INODE_FOOTPRINT <= self.block_size
        &&& 1 <= self.memory_blocks@.len()
        &&& forall|i: int|
            0 <= i < self.super_block@.len() ==> (#[trigger] self.super_block@[i] matches Some(ind)
                ==> ind.wf() && ind.attributes.ino == i + 1)
        &&& forall|k: int|
            0 <= k < self.memory_blocks@.len() ==> (#[trigger] self.memory_blocks@[k].data
                matches Some(d) ==> d@.len() <= self.block_size)
    }

    /// Builds a fresh arena: every block empty, every inode slot empty but
    /// the root directory at `ino = 1`, named `.`, stamped with `now`.
    ///
    /// `memory_size_in_bytes / block_size - 1` blocks are allocated: one
    /// block's worth of space is reserved for the superblock itself.
    #[verifier::loop_isolation(false)]
    pub fn new(root_path: String, memory_size_in_bytes: usize, block_size: usize, now: Timespec) -> (d:
        Disk)
        requires
            INODE_FOOTPRINT <= block_size,
            2 * block_size <= memory_size_in_bytes,
        ensures
            d.wf(),
            d.block_size == block_size,
            d.max_files as int == block_size as int / INODE_FOOTPRINT as int,
            d.root_path@ == root_path@,
            d.memory_blocks@.len() == memory_size_in_bytes as int / block_size as int - 1,
            forall|k: int| 0 <= k < d.memory_blocks@.len() ==> d.memory_blocks@[k].data is None,
            d.super_block@[0] matches Some(root) && root.attributes == (FileAttr {
                ino: 1,
                size: 0,
                blocks: 0,
                atime: now,
                mtime: now,
                ctime: now,
                crtime: now,
                kind: FileKind::Directory,
                perm: 0o755,
                nlink: 0,
                uid: 0,
                gid: 0,
                rdev: 0,
                flags: 0,
            }) && trim_nulls(root.name@) == seq!['.'] && forall|j: int|
                0 <= j < REF_COUNT ==> root.references@[j] is None,
            forall|i: int| 1 <= i < d.super_block@.len() ==> d.super_block@[i] is None,
    {
        proof {
            assert(memory_size_in_bytes as int / block_size as int >= 2) by (nonlinear_arith)
                requires
                    2 * (block_size as int) <= memory_size_in_bytes as int,
                    1 <= block_size as int,
            ;
            assert(block_size as int / INODE_FOOTPRINT as int >= 1) by (nonlinear_arith)
                requires
                    INODE_FOOTPRINT as int <= block_size as int,
                    1 <= INODE_FOOTPRINT as int,
            ;
        }
        let memory_block_quantity: usize = memory_size_in_bytes / block_size - 1;
        let max_files: usize = block_size / INODE_FOOTPRINT;

        let dot: Vec<char> = vec!['.'];
        assert(dot@ =~= seq!['.']);
        let name = make_name(&dot);
        let attr = FileAttr {
            ino: 1,
            size: 0,
            blocks: 0,
            atime: now,
            mtime: now,
            ctime: now,
            crtime: now,
            kind: FileKind::Directory,
            perm: 0o755,
            nlink: 0,
            uid: 0,
            gid: 0,
            rdev: 0,
            flags: 0,
        };
        let root = Inode { name, attributes: attr, references: empty_references() };
        let ghost root_v = root;

        let mut super_block: Vec<Option<Inode>> = Vec::new();
        super_block.push(Some(root));
        while super_block.len() < max_files
            invariant
                1 <= super_block@.len() <= max_files,
                super_block@[0] == Some(root_v),
                forall|i: int| 1 <= i < super_block@.len() ==> super_block@[i] is None,
            decreases max_files - super_block@.len(),
        {
            super_block.push(None);
        }

        let mut memory_blocks: Vec<MemoryBlock> = Vec::new();
        while memory_blocks.len() < memory_block_quantity
            invariant
                memory_blocks@.len() <= memory_block_quantity,
                forall|k: int| 0 <= k < memory_blocks@.len() ==> memory_blocks@[k].data is None,
            decreases memory_block_quantity - memory_blocks@.len(),
        {
            memory_blocks.push(MemoryBlock { data: None });
        }

        Disk { super_block, memory_blocks, max_files, block_size, root_path }
    }

    /// First-fit inode allocation: the lowest `ino` whose slot is empty,
    /// scanning all slots but the last.
    #[verifier::loop_isolation(false)]
    pub fn find_ino_available(&self) -> (r: Option<u64>)
        requires
            self.super_block@.len() >= 1,
        ensures
            match spec_free_ino_slot(self.super_block@) {
                Some(i) => r == Some((i + 1) as u64),
                None => r is None,
            },
    {
        let ghost p = pred_slot_none();
        let end: usize = self.super_block.len() - 1;
        let mut index: usize = 0;
        while index < end
            invariant
                index <= end,
                end == self.super_block@.len() - 1,
                forall|k: int| 0 <= k < index ==> !(#[trigger] p(self.super_block@[k])),
                p == pred_slot_none(),
            decreases end - index,
        {
            if self.super_block[index].is_none() {
                proof {
                    lemma_first_idx_of(self.super_block@, p, 0, end as int, index as int);
                }
                return Some((index as u64) + 1);
            }
            index += 1;
        }
        proof {
            lemma_first_idx_none(self.super_block@, p, 0, end as int);
        }
        None
    }

    /// First-fit block allocation: the lowest unallocated block index,
    /// scanning all blocks but the last.
    #[verifier::loop_isolation(false)]
    pub fn find_index_of_empty_memory_block(&self) -> (r: Option<usize>)
        requires
            self.memory_blocks@.len() >= 1,
        ensures
            match spec_free_block(self.memory_blocks@) {
                Some(i) => r == Some(i as usize),
                None => r is None,
            },
    {
        let ghost p = pred_block_none();
        let end: usize = self.memory_blocks.len() - 1;
        let mut index: usize = 0;
        while index < end
            invariant
                index <= end,
                end == self.memory_blocks@.len() - 1,
                forall|k: int| 0 <= k < index ==> !(#[trigger] p(self.memory_blocks@[k])),
                p == pred_block_none(),
            decreases end - index,
        {
            if self.memory_blocks[index].data.is_none() {
                proof {
                    lemma_first_idx_of(self.memory_blocks@, p, 0, end as int, index as int);
                }
                return Some(index);
            }
            index += 1;
        }
        proof {
            lemma_first_idx_none(self.memory_blocks@, p, 0, end as int);
        }
        None
    }

    /// First empty reference slot of the inode numbered `ino`.
    #[verifier::loop_isolation(false)]
    pub fn find_index_of_empty_reference_in_inode(&self, ino: u64) -> (r: Option<usize>)
        requires
            1 <= ino <= self.super_block@.len(),
            self.super_block@[ino - 1] is Some,
            self.super_block@[ino - 1]->0.wf(),
        ensures
            match spec_free_ref(self.super_block@[ino - 1]->0.references@) {
                Some(j) => r == Some(j as usize),
                None => r is None,
            },
    {
        let n_slots = self.super_block.len();
        let index: usize = (ino - 1) as usize;
        match self.super_block[index].as_ref() {
            Some(inode) => {
                let ghost refs = inode.references@;
                let ghost p = pred_ref_none();
                let mut j: usize = 0;
                while j < inode.references.len()
                    invariant
                        j <= refs.len(),
                        inode.references@ == refs,
                        forall|k: int| 0 <= k < j ==> !(#[trigger] p(refs[k])),
                        p == pred_ref_none(),
                    decreases refs.len() - j,
                {
                    if inode.references[j].is_none() {
                        proof {
                            lemma_first_idx_of(refs, p, 0, refs.len() as int, j as int);
                        }
                        return Some(j);
                    }
                    j += 1;
                }
                proof {
                    lemma_first_idx_none(refs, p, 0, refs.len() as int);
                }
                None
            },
            None => unreached(),
        }
    }

    /// Stores `inode` at slot `ino - 1`, overwriting whatever was there.
    /// When the inode footprint exceeds the block size the store is refused
    /// and the arena is left unchanged.
    pub fn write_inode(&mut self, inode: Inode) -> (stored: bool)
        requires
            1 <= inode.attributes.ino <= old(self).super_block@.len(),
        ensures
            same_config(*old(self), *final(self)),
            final(self).memory_blocks@ == old(self).memory_blocks@,
            stored <==> INODE_FOOTPRINT <= final(self).block_size,
            stored ==> final(self).super_block@ == old(self).super_block@.update(
                inode.attributes.ino - 1,
                Some(inode),
            ),
            !stored ==> final(self).super_block@ == old(self).super_block@,
    {
        if INODE_FOOTPRINT > self.block_size {
            return false;
        }
        let n_slots = self.super_block.len();
        let index: usize = (inode.attributes.ino - 1) as usize;
        let ghost sb = self.super_block@;
        let _ = self.super_block.remove(index);
        self.super_block.insert(index, Some(inode));
        proof {
            lemma_remove_insert_is_update(sb, index as int, Some(inode));
        }
        true
    }

    /// Marks the block at `index` unallocated.
    pub fn clear_memory_block(&mut self, index: usize)
        requires
            index < old(self).memory_blocks@.len(),
        ensures
            same_config(*old(self), *final(self)),
            final(self).super_block@ == old(self).super_block@,
            final(self).memory_blocks@ == old(self).memory_blocks@.update(
                index as int,
                MemoryBlock { data: None },
            ),
    {
        let ghost mb = self.memory_blocks@;
        let _ = self.memory_blocks.remove(index);
        self.memory_blocks.insert(index, MemoryBlock { data: None });
        proof {
            lemma_remove_insert_is_update(mb, index as int, MemoryBlock { data: None });
        }
    }

    /// Empties the inode slot `ino - 1`.
    pub fn clear_inode(&mut self, ino: u64)
        requires
            1 <= ino <= old(self).super_block@.len(),
        ensures
            same_config(*old(self), *final(self)),
            final(self).memory_blocks@ == old(self).memory_blocks@,
            final(self).super_block@ == old(self).super_block@.update(ino - 1, None),
    {
        let n_slots = self.super_block.len();
        let index: usize = (ino - 1) as usize;
        let ghost sb = self.super_block@;
        let _ = self.super_block.remove(index);
        self.super_block.insert(index, None);
        proof {
            lemma_remove_insert_is_update(sb, index as int, None);
        }
    }

    /// Empties the first reference slot of inode `ino` holding exactly
    /// `Some(ref_value)`.
    pub fn clear_reference_in_inode(&mut self, ino: u64, ref_value: usize)
        requires
            1 <= ino <= old(self).super_block@.len(),
            old(self).super_block@[ino - 1] is Some,
            spec_ref_position(old(self).super_block@[ino - 1]->0.references@, ref_value) is Some,
        ensures
            same_config(*old(self), *final(self)),
            final(self).memory_blocks@ == old(self).memory_blocks@,
            ({
                let old_ind = old(self).super_block@[ino - 1]->0;
                let j = spec_ref_position(old_ind.references@, ref_value)->0;
                final(self).super_block@[ino - 1] matches Some(new_ind) && inode_with_ref(
                    old_ind,
                    new_ind,
                    j,
                    None,
                ) && final(self).super_block@ == old(self).super_block@.update(ino - 1, Some(new_ind))
            }),
    {
        let n_slots = self.super_block.len();
        let index: usize = (ino - 1) as usize;
        let ghost sb = self.super_block@;
        let slot = self.super_block.remove(index);
        match slot {
            Some(mut inode) => {
                let n_refs = inode.references.len();
                let j = match find_ref_position(&inode.references, ref_value) {
                    Some(j) => j,
                    None => unreached(),
                };
                proof {
                    lemma_first_idx(
                        inode.references@,
                        pred_ref_eq(ref_value),
                        0,
                        inode.references@.len() as int,
                    );
                }
                inode.references[j] = None;
                self.super_block.insert(index, Some(inode));
                proof {
                    lemma_remove_insert_is_update(sb, index as int, Some(inode));
                }
            },
            None => unreached(),
        }
    }

    /// Mutable access to the inode numbered `ino`, when present. The new
    /// arena holds whatever the caller leaves behind through the returned
    /// reference; every other slot is untouched.
    pub fn get_inode_as_mut(&mut self, ino: u64) -> (r: Option<&mut Inode>)
        requires
            1 <= ino <= old(self).super_block@.len(),
        ensures
            same_config(*old(self), *final(self)),
            final(self).memory_blocks@ == old(self).memory_blocks@,
            match r {
                Some(m) => old(self).super_block@[ino - 1] == Some(*m)
                    && final(self).super_block@ == old(self).super_block@.update(
                    ino - 1,
                    Some(*final(m)),
                ),
                None => old(self).super_block@[ino - 1] is None && final(self).super_block@
                    == old(self).super_block@,
            },
    {
        let n_slots = self.super_block.len();
        let index: usize = (ino - 1) as usize;
        self.super_block[index].as_mut()
    }

    /// Shared access to the inode numbered `ino`, when present.
    pub fn get_inode(&self, ino: u64) -> (r: Option<&Inode>)
        requires
            1 <= ino <= self.super_block@.len(),
        ensures
            match r {
                Some(ind) => self.super_block@[ino - 1] == Some(*ind),
                None => self.super_block@[ino - 1] is None,
            },
    {
        let n_slots = self.super_block.len();
        let index: usize = (ino - 1) as usize;
        self.super_block[index].as_ref()
    }

    /// Searches the reference array of the inode `parent_inode_ino` for a
    /// child whose null-trimmed stored name equals `name`, and returns the
    /// first such child.
    #[verifier::loop_isolation(false)]
    pub fn find_inode_in_references_by_name(&self, parent_inode_ino: u64, name: &Vec<char>) -> (r:
        Option<&Inode>)
        requires
            1 <= parent_inode_ino <= self.super_block@.len(),
            self.super_block@[parent_inode_ino - 1] is Some,
            self.super_block@[parent_inode_ino - 1]->0.wf(),
            forall|j: int|
                0 <= j < REF_COUNT ==> (#[trigger] self.super_block@[parent_inode_ino
                    - 1]->0.references@[j] matches Some(c) ==> 1 <= c
                    <= self.super_block@.len() && self.super_block@[c - 1] is Some),
        ensures
            ({
                let refs = self.super_block@[parent_inode_ino - 1]->0.references@;
                match spec_name_slot(*self, refs, name@) {
                    Some(j) => r matches Some(ind) && refs[j] matches Some(c)
                        && self.super_block@[c - 1] == Some(*ind),
                    None => r is None,
                }
            }),
    {
        let n_slots = self.super_block.len();
        let parent_index: usize = (parent_inode_ino - 1) as usize;
        let parent_inode = match self.super_block[parent_index].as_ref() {
            Some(p) => p,
            None => unreached(),
        };
        let ghost refs = parent_inode.references@;
        let ghost p = name_slot_pred(*self, name@);
        let mut j: usize = 0;
        while j < parent_inode.references.len()
            invariant
                j <= refs.len(),
                refs.len() == REF_COUNT,
                parent_inode.references@ == refs,
                1 <= parent_inode_ino <= self.super_block@.len(),
                forall|k: int|
                    0 <= k < REF_COUNT ==> (#[trigger] refs[k] matches Some(c) ==> 1 <= c
                        <= self.super_block@.len() && self.super_block@[c - 1] is Some),
                forall|k: int| 0 <= k < j ==> !(#[trigger] p(refs[k])),
                p == name_slot_pred(*self, name@),
            decreases refs.len() - j,
        {
            if let Some(ino_ref) = parent_inode.references[j] {
                let child_index: usize = ino_ref - 1;
                match self.super_block[child_index].as_ref() {
                    Some(child) => {
                        if name_matches(&child.name, name) {
                            proof {
                                lemma_first_idx_of(refs, p, 0, refs.len() as int, j as int);
                            }
                            return Some(child);
                        }
                    },
                    None => {
                        return unreached();
                    },
                }
            }
            j += 1;
        }
        proof {
            lemma_first_idx_none(refs, p, 0, refs.len() as int);
        }
        None
    }

    /// Shared access to the whole reference array of inode `ino`.
    pub fn get_references_from_inode(&self, ino: u64) -> (r: &Vec<Option<usize>>)
        requires
            1 <= ino <= self.super_block@.len(),
            self.super_block@[ino - 1] is Some,
        ensures
            r@ == self.super_block@[ino - 1]->0.references@,
    {
        let n_slots = self.super_block.len();
        let index: usize = (ino - 1) as usize;
        match self.super_block[index].as_ref() {
            Some(inode) => &inode.references,
            None => unreached(),
        }
    }

    /// Shared access to the byte buffer of the block at `block_index`.
    pub fn get_content_as_bytes(&self, block_index: usize) -> (r: &Option<Vec<u8>>)
        requires
            block_index < self.memory_blocks@.len(),
        ensures
            *r == self.memory_blocks@[block_index as int].data,
    {
        &self.memory_blocks[block_index].data
    }

    /// The block's bytes read back as characters, one per byte; for ASCII
    /// content this is the block's text.
    #[verifier::loop_isolation(false)]
    pub fn get_content(&self, block_index: usize) -> (r: Option<Vec<char>>)
        requires
            block_index < self.memory_blocks@.len(),
        ensures
            match self.memory_blocks@[block_index as int].data {
                Some(d) => r matches Some(cs) && cs@.len() == d@.len() && forall|i: int|
                    0 <= i < d@.len() ==> cs@[i] == d@[i] as char,
                None => r is None,
            },
    {
        match self.get_content_as_bytes(block_index) {
            Some(data) => {
                let mut cs: Vec<char> = Vec::new();
                let mut i: usize = 0;
                while i < data.len()
                    invariant
                        i <= data@.len(),
                        cs@.len() == i,
                        forall|k: int| 0 <= k < i ==> cs@[k] == data@[k] as char,
                    decreases data@.len() - i,
                {
                    cs.push(data[i] as char);
                    i += 1;
                }
                Some(cs)
            },
            None => None,
        }
    }

    /// Replaces the block at `block_index` with `content`. Content larger
    /// than the block size is refused by contract: the arena never stores a
    /// buffer longer than `block_size`.
    pub fn write_content_as_bytes(&mut self, block_index: usize, content: Vec<u8>)
        requires
            block_index < old(self).memory_blocks@.len(),
            content@.len() <= old(self).block_size,
        ensures
            same_config(*old(self), *final(self)),
            final(self).super_block@ == old(self).super_block@,
            final(self).memory_blocks@ == old(self).memory_blocks@.update(
                block_index as int,
                MemoryBlock { data: Some(content) },
            ),
    {
        let ghost mb = self.memory_blocks@;
        let _ = self.memory_blocks.remove(block_index);
        self.memory_blocks.insert(block_index, MemoryBlock { data: Some(content) });
        proof {
            lemma_remove_insert_is_update(
                mb,
                block_index as int,
                MemoryBlock { data: Some(content) },
            );
        }
    }

    /// Overwrites reference slot `ref_index` of inode `ino` with
    /// `Some(ref_content)`.
    pub fn write_reference_in_inode(&mut self, ino: u64, ref_index: usize, ref_content: usize)
        requires
            1 <= ino <= old(self).super_block@.len(),
            old(self).super_block@[ino - 1] is Some,
            ref_index < old(self).super_block@[ino - 1]->0.references@.len(),
        ensures
            same_config(*old(self), *final(self)),
            final(self).memory_blocks@ == old(self).memory_blocks@,
            ({
                let old_ind = old(self).super_block@[ino - 1]->0;
                final(self).super_block@[ino - 1] matches Some(new_ind) && inode_with_ref(
                    old_ind,
                    new_ind,
                    ref_index as int,
                    Some(ref_content),
                ) && final(self).super_block@ == old(self).super_block@.update(ino - 1, Some(new_ind))
            }),
    {
        let n_slots = self.super_block.len();
        let index: usize = (ino - 1) as usize;
        let ghost sb = self.super_block@;
        let slot = self.super_block.remove(index);
        match slot {
            Some(mut inode) => {
                inode.references[ref_index] = Some(ref_content);
                self.super_block.insert(index, Some(inode));
                proof {
                    lemma_remove_insert_is_update(sb, index as int, Some(inode));
                }
            },
            None => unreached(),
        }
    }
}

/// Predicate of the name search: the slot references a present child whose
/// stored name trims to `name`.
pub open spec fn name_slot_pred(d: Disk, name: Seq<char>) -> spec_fn(Option<usize>) -> bool {
    |q: Option<usize>|
        {
            &&& q matches Some(c)
            &&& 1 <= c <= d.super_block@.len()
            &&& d.super_block@[c - 1] matches Some(child)
            &&& trim_nulls(child.name@) == name
        }
}

/// First reference slot of `refs` whose child carries the (trimmed) `name`.
pub open spec fn spec_name_slot(d: Disk, refs: Seq<Option<usize>>, name: Seq<char>) -> Option<
    int,
> {
    first_idx(refs, name_slot_pred(d, name), 0, refs.len() as int)
}

/// Position of the first reference slot holding exactly `Some(v)`.
#[verifier::loop_isolation(false)]
pub fn find_ref_position(refs: &Vec<Option<usize>>, v: usize) -> (r: Option<usize>)
    ensures
        match spec_ref_position(refs@, v) {
            Some(j) => r == Some(j as usize),
            None => r is None,
        },
{
    let ghost p = pred_ref_eq(v);
    let mut j: usize = 0;
    while j < refs.len()
        invariant
            j <= refs@.len(),
            forall|k: int| 0 <= k < j ==> !(#[trigger] p(refs@[k])),
        decreases refs@.len() - j,
    {
        let hit = match refs[j] {
            Some(r) => r == v,
            None => false,
        };
        if hit {
            proof {
                lemma_first_idx_of(refs@, p, 0, refs@.len() as int, j as int);
            }
            return Some(j);
        }
        j += 1;
    }
    proof {
        lemma_first_idx_none(refs@, p, 0, refs@.len() as int);
    }
    None
}

/// A fully empty reference array.
#[verifier::loop_isolation(false)]
pub fn empty_references() -> (r: Vec<Option<usize>>)
    ensures
        r@.len() == REF_COUNT,
        forall|j: int| 0 <= j < REF_COUNT ==> r@[j] is None,
{
    let mut r: Vec<Option<usize>> = Vec::new();
    while r.len() < REF_COUNT
        invariant
            r@.len() <= REF_COUNT,
            forall|j: int| 0 <= j < r@.len() ==> r@[j] is None,
        decreases REF_COUNT - r@.len(),
    {
        r.push(None);
    }
    r
}

} // verus!
