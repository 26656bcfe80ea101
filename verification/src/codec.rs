//! The snapshot codec: a self-describing binary layout for the superblock
//! and the block array. Collection lengths and option presence are written
//! explicitly; primitive integers and timestamps are fixed-width
//! little-endian; decoding an encoded snapshot gives back exactly the
//! encoded state.

use vstd::prelude::*;

use crate::inode::{FileAttr, FileKind, Inode, Timespec, NAME_LEN, REF_COUNT};

verus! {

// --- Encoded form, byte for byte -----------------------------------------

/// Little-endian bytes of a 16-bit integer.
pub open spec fn spec_enc_u16(v: u16) -> Seq<u8> {
    seq![v as u8, (v >> 8) as u8]
}

/// Little-endian bytes of a 32-bit integer.
pub open spec fn spec_enc_u32(v: u32) -> Seq<u8> {
    seq![v as u8, (v >> 8) as u8, (v >> 16) as u8, (v >> 24) as u8]
}

/// Little-endian bytes of a 64-bit integer.
pub open spec fn spec_enc_u64(v: u64) -> Seq<u8> {
    seq![
        v as u8,
        (v >> 8) as u8,
        (v >> 16) as u8,
        (v >> 24) as u8,
        (v >> 32) as u8,
        (v >> 40) as u8,
        (v >> 48) as u8,
        (v >> 56) as u8,
    ]
}

/// Signed 64-bit integers travel as their two's-complement bits.
pub open spec fn spec_enc_i64(v: i64) -> Seq<u8> {
    spec_enc_u64(v as u64)
}

/// Signed 32-bit integers travel as their two's-complement bits.
pub open spec fn spec_enc_i32(v: i32) -> Seq<u8> {
    spec_enc_u32(v as u32)
}

/// One byte per kind; only the two kinds this system produces exist.
pub open spec fn spec_enc_kind(k: FileKind) -> Seq<u8> {
    match k {
        FileKind::Directory => seq![0u8],
        FileKind::RegularFile => seq![1u8],
    }
}

/// Seconds, then nanoseconds.
pub open spec fn spec_enc_ts(t: Timespec) -> Seq<u8> {
    spec_enc_i64(t.sec) + spec_enc_i32(t.nsec)
}

/// The full attribute record, field by field.
pub open spec fn spec_enc_attr(a: FileAttr) -> Seq<u8> {
    spec_enc_u64(a.ino) + spec_enc_u64(a.size) + spec_enc_u64(a.blocks) + spec_enc_ts(a.atime)
        + spec_enc_ts(a.mtime) + spec_enc_ts(a.ctime) + spec_enc_ts(a.crtime) + spec_enc_kind(
        a.kind,
    ) + spec_enc_u16(a.perm) + spec_enc_u32(a.nlink) + spec_enc_u32(a.uid) + spec_enc_u32(a.gid)
        + spec_enc_u32(a.rdev) + spec_enc_u32(a.flags)
}

/// A character is its Unicode scalar value, 4 bytes.
pub open spec fn spec_enc_char(c: char) -> Seq<u8> {
    spec_enc_u32(c as u32)
}

/// The characters of a name, in order.
pub open spec fn spec_enc_chars(s: Seq<char>) -> Seq<u8>
    decreases s.len(),
{
    if s.len() == 0 {
        Seq::empty()
    } else {
        spec_enc_char(s[0]) + spec_enc_chars(s.drop_first())
    }
}

/// A reference slot: a presence byte, then a fixed 8-byte value (zero for
/// an absent slot, so `Some(0)` and `None` stay distinct).
pub open spec fn spec_enc_ref(o: Option<usize>) -> Seq<u8> {
    match o {
        None => seq![0u8] + spec_enc_u64(0),
        Some(v) => seq![1u8] + spec_enc_u64(v as u64),
    }
}

/// The reference slots of one inode, in order.
pub open spec fn spec_enc_refs(s: Seq<Option<usize>>) -> Seq<u8>
    decreases s.len(),
{
    if s.len() == 0 {
        Seq::empty()
    } else {
        spec_enc_ref(s[0]) + spec_enc_refs(s.drop_first())
    }
}

/// One inode record: the view of an inode, as the codec sees it.
pub open spec fn spec_enc_inode_v(name: Seq<char>, attr: FileAttr, refs: Seq<Option<usize>>) -> Seq<
    u8,
> {
    spec_enc_chars(name) + spec_enc_attr(attr) + spec_enc_refs(refs)
}

/// The codec's view of one decoded inode.
pub type InodeV = (Seq<char>, FileAttr, Seq<Option<usize>>);

/// An optional inode slot: a presence byte, then the record when present.
pub open spec fn spec_enc_slot_v(o: Option<InodeV>) -> Seq<u8> {
    match o {
        None => seq![0u8],
        Some(t) => seq![1u8] + spec_enc_inode_v(t.0, t.1, t.2),
    }
}

/// The slots of the superblock, in order.
pub open spec fn spec_enc_slots_v(s: Seq<Option<InodeV>>) -> Seq<u8>
    decreases s.len(),
{
    if s.len() == 0 {
        Seq::empty()
    } else {
        spec_enc_slot_v(s[0]) + spec_enc_slots_v(s.drop_first())
    }
}

/// The whole superblock stream: a length prefix, then the slots.
pub open spec fn spec_enc_super_v(s: Seq<Option<InodeV>>) -> Seq<u8> {
    spec_enc_u64(s.len() as u64) + spec_enc_slots_v(s)
}

/// One data block: a presence byte, then a length prefix and the bytes.
pub open spec fn spec_enc_block_v(o: Option<Seq<u8>>) -> Seq<u8> {
    match o {
        None => seq![0u8],
        Some(d) => seq![1u8] + spec_enc_u64(d.len() as u64) + d,
    }
}

/// The blocks of the data array, in order.
pub open spec fn spec_enc_block_list_v(s: Seq<Option<Seq<u8>>>) -> Seq<u8>
    decreases s.len(),
{
    if s.len() == 0 {
        Seq::empty()
    } else {
        spec_enc_block_v(s[0]) + spec_enc_block_list_v(s.drop_first())
    }
}

/// The whole block stream: a length prefix, then the blocks.
pub open spec fn spec_enc_blocks_v(s: Seq<Option<Seq<u8>>>) -> Seq<u8> {
    spec_enc_u64(s.len() as u64) + spec_enc_block_list_v(s)
}

/// The codec's view of a superblock.
pub open spec fn sb_view(sb: Seq<Option<Inode>>) -> Seq<Option<InodeV>> {
    sb.map_values(
        |o: Option<Inode>|
            match o {
                Some(i) => Some((i.name@, i.attributes, i.references@)),
                None => None,
            },
    )
}

/// The codec's view of the block array.
pub open spec fn blocks_view(mb: Seq<crate::disk::MemoryBlock>) -> Seq<Option<Seq<u8>>> {
    mb.map_values(
        |m: crate::disk::MemoryBlock|
            match m.data {
                Some(d) => Some(d@),
                None => None,
            },
    )
}

// --- Decoding, as a function of the byte stream ---------------------------

/// Reassembles a 64-bit integer from its little-endian bytes.
pub open spec fn u64_from_bytes(
    b0: u8,
    b1: u8,
    b2: u8,
    b3: u8,
    b4: u8,
    b5: u8,
    b6: u8,
    b7: u8,
) -> u64 {
    (b0 as u64) | ((b1 as u64) << 8) | ((b2 as u64) << 16) | ((b3 as u64) << 24) | ((b4
        as u64) << 32) | ((b5 as u64) << 40) | ((b6 as u64) << 48) | ((b7 as u64) << 56)
}

/// Reassembles a 32-bit integer from its little-endian bytes.
pub open spec fn u32_from_bytes(b0: u8, b1: u8, b2: u8, b3: u8) -> u32 {
    (b0 as u32) | ((b1 as u32) << 8) | ((b2 as u32) << 16) | ((b3 as u32) << 24)
}

/// Reassembles a 16-bit integer from its little-endian bytes.
pub open spec fn u16_from_bytes(b0: u8, b1: u8) -> u16 {
    (b0 as u16) | ((b1 as u16) << 8)
}

pub open spec fn spec_dec_u8(b: Seq<u8>, pos: int) -> Option<(u8, int)> {
    if 0 <= pos && pos + 1 <= b.len() {
        Some((b[pos], pos + 1))
    } else {
        None
    }
}

pub open spec fn spec_dec_u16(b: Seq<u8>, pos: int) -> Option<(u16, int)> {
    if 0 <= pos && pos + 2 <= b.len() {
        Some((u16_from_bytes(b[pos], b[pos + 1]), pos + 2))
    } else {
        None
    }
}

pub open spec fn spec_dec_u32(b: Seq<u8>, pos: int) -> Option<(u32, int)> {
    if 0 <= pos && pos + 4 <= b.len() {
        Some((u32_from_bytes(b[pos], b[pos + 1], b[pos + 2], b[pos + 3]), pos + 4))
    } else {
        None
    }
}

pub open spec fn spec_dec_u64(b: Seq<u8>, pos: int) -> Option<(u64, int)> {
    if 0 <= pos && pos + 8 <= b.len() {
        Some(
            (
                u64_from_bytes(
                    b[pos],
                    b[pos + 1],
                    b[pos + 2],
                    b[pos + 3],
                    b[pos + 4],
                    b[pos + 5],
                    b[pos + 6],
                    b[pos + 7],
                ),
                pos + 8,
            ),
        )
    } else {
        None
    }
}

pub open spec fn spec_dec_i64(b: Seq<u8>, pos: int) -> Option<(i64, int)> {
    match spec_dec_u64(b, pos) {
        Some((u, p)) => Some(((u as i64), p)),
        None => None,
    }
}

pub open spec fn spec_dec_i32(b: Seq<u8>, pos: int) -> Option<(i32, int)> {
    match spec_dec_u32(b, pos) {
        Some((u, p)) => Some(((u as i32), p)),
        None => None,
    }
}

pub open spec fn spec_dec_kind(b: Seq<u8>, pos: int) -> Option<(FileKind, int)> {
    match spec_dec_u8(b, pos) {
        Some((t, p)) => if t == 0 {
            Some((FileKind::Directory, p))
        } else if t == 1 {
            Some((FileKind::RegularFile, p))
        } else {
            None
        },
        None => None,
    }
}

/// A decoded character must be a Unicode scalar value.
pub open spec fn spec_dec_char(b: Seq<u8>, pos: int) -> Option<(char, int)> {
    match spec_dec_u32(b, pos) {
        Some((u, p)) => if vstd::utf8::is_scalar(u) {
            Some(((u as char), p))
        } else {
            None
        },
        None => None,
    }
}

pub open spec fn spec_dec_ts(b: Seq<u8>, pos: int) -> Option<(Timespec, int)> {
    match spec_dec_i64(b, pos) {
        Some((sec, p1)) => match spec_dec_i32(b, p1) {
            Some((nsec, p2)) => Some((Timespec { sec, nsec }, p2)),
            None => None,
        },
        None => None,
    }
}

pub open spec fn spec_dec_attr(b: Seq<u8>, pos: int) -> Option<(FileAttr, int)> {
    match spec_dec_u64(b, pos) {
        Some((ino, p1)) => match spec_dec_u64(b, p1) {
            Some((size, p2)) => match spec_dec_u64(b, p2) {
                Some((blocks, p3)) => match spec_dec_ts(b, p3) {
                    Some((atime, p4)) => match spec_dec_ts(b, p4) {
                        Some((mtime, p5)) => match spec_dec_ts(b, p5) {
                            Some((ctime, p6)) => match spec_dec_ts(b, p6) {
                                Some((crtime, p7)) => match spec_dec_kind(b, p7) {
                                    Some((kind, p8)) => match spec_dec_u16(b, p8) {
                                        Some((perm, p9)) => match spec_dec_u32(b, p9) {
                                            Some((nlink, p10)) => match spec_dec_u32(b, p10) {
                                                Some((uid, p11)) => match spec_dec_u32(b, p11) {
                                                    Some((gid, p12)) => match spec_dec_u32(
                                                        b,
                                                        p12,
                                                    ) {
                                                        Some((rdev, p13)) => match spec_dec_u32(
                                                            b,
                                                            p13,
                                                        ) {
                                                            Some((flags, p14)) => Some(
                                                                (
                                                                    FileAttr {
                                                                        ino,
                                                                        size,
                                                                        blocks,
                                                                        atime,
                                                                        mtime,
                                                                        ctime,
                                                                        crtime,
                                                                        kind,
                                                                        perm,
                                                                        nlink,
                                                                        uid,
                                                                        gid,
                                                                        rdev,
                                                                        flags,
                                                                    },
                                                                    p14,
                                                                ),
                                                            ),
                                                            None => None,
                                                        },
                                                        None => None,
                                                    },
                                                    None => None,
                                                },
                                                None => None,
                                            },
                                            None => None,
                                        },
                                        None => None,
                                    },
                                    None => None,
                                },
                                None => None,
                            },
                            None => None,
                        },
                        None => None,
                    },
                    None => None,
                },
                None => None,
            },
            None => None,
        },
        None => None,
    }
}

pub open spec fn spec_dec_chars(b: Seq<u8>, pos: int, n: int) -> Option<(Seq<char>, int)>
    decreases n,
{
    if n <= 0 {
        Some((Seq::empty(), pos))
    } else {
        match spec_dec_char(b, pos) {
            Some((c, p1)) => match spec_dec_chars(b, p1, n - 1) {
                Some((s, p2)) => Some((seq![c] + s, p2)),
                None => None,
            },
            None => None,
        }
    }
}

/// A decoded absent reference slot must carry a zero value byte-for-byte,
/// so decoding is a function and re-encoding reproduces the input.
pub open spec fn spec_dec_ref(b: Seq<u8>, pos: int) -> Option<(Option<usize>, int)> {
    match spec_dec_u8(b, pos) {
        Some((t, p1)) => match spec_dec_u64(b, p1) {
            Some((v, p2)) => if t == 0 && v == 0 {
                Some((None, p2))
            } else if t == 1 && v <= usize::MAX as u64 {
                Some((Some(v as usize), p2))
            } else {
                None
            },
            None => None,
        },
        None => None,
    }
}

pub open spec fn spec_dec_refs(b: Seq<u8>, pos: int, n: int) -> Option<(Seq<Option<usize>>, int)>
    decreases n,
{
    if n <= 0 {
        Some((Seq::empty(), pos))
    } else {
        match spec_dec_ref(b, pos) {
            Some((o, p1)) => match spec_dec_refs(b, p1, n - 1) {
                Some((s, p2)) => Some((seq![o] + s, p2)),
                None => None,
            },
            None => None,
        }
    }
}

pub open spec fn spec_dec_inode(b: Seq<u8>, pos: int) -> Option<(InodeV, int)> {
    match spec_dec_chars(b, pos, NAME_LEN as int) {
        Some((name, p1)) => match spec_dec_attr(b, p1) {
            Some((attr, p2)) => match spec_dec_refs(b, p2, REF_COUNT as int) {
                Some((refs, p3)) => Some(((name, attr, refs), p3)),
                None => None,
            },
            None => None,
        },
        None => None,
    }
}

pub open spec fn spec_dec_slot(b: Seq<u8>, pos: int) -> Option<(Option<InodeV>, int)> {
    match spec_dec_u8(b, pos) {
        Some((t, p1)) => if t == 0 {
            Some((None, p1))
        } else if t == 1 {
            match spec_dec_inode(b, p1) {
                Some((iv, p2)) => Some((Some(iv), p2)),
                None => None,
            }
        } else {
            None
        },
        None => None,
    }
}

pub open spec fn spec_dec_slots(b: Seq<u8>, pos: int, n: int) -> Option<
    (Seq<Option<InodeV>>, int),
>
    decreases n,
{
    if n <= 0 {
        Some((Seq::empty(), pos))
    } else {
        match spec_dec_slot(b, pos) {
            Some((o, p1)) => match spec_dec_slots(b, p1, n - 1) {
                Some((s, p2)) => Some((seq![o] + s, p2)),
                None => None,
            },
            None => None,
        }
    }
}

/// The whole superblock stream; the stream must be consumed exactly.
pub open spec fn spec_dec_super(b: Seq<u8>) -> Option<Seq<Option<InodeV>>> {
    match spec_dec_u64(b, 0) {
        Some((cnt, p1)) => match spec_dec_slots(b, p1, cnt as int) {
            Some((s, p2)) => if p2 == b.len() {
                Some(s)
            } else {
                None
            },
            None => None,
        },
        None => None,
    }
}

pub open spec fn spec_dec_block(b: Seq<u8>, pos: int) -> Option<(Option<Seq<u8>>, int)> {
    match spec_dec_u8(b, pos) {
        Some((t, p1)) => if t == 0 {
            Some((None, p1))
        } else if t == 1 {
            match spec_dec_u64(b, p1) {
                Some((len, p2)) => if p2 + len <= b.len() && len <= usize::MAX as u64 {
                    Some((Some(b.subrange(p2, p2 + len)), p2 + len))
                } else {
                    None
                },
                None => None,
            }
        } else {
            None
        },
        None => None,
    }
}

pub open spec fn spec_dec_block_list(b: Seq<u8>, pos: int, n: int) -> Option<
    (Seq<Option<Seq<u8>>>, int),
>
    decreases n,
{
    if n <= 0 {
        Some((Seq::empty(), pos))
    } else {
        match spec_dec_block(b, pos) {
            Some((o, p1)) => match spec_dec_block_list(b, p1, n - 1) {
                Some((s, p2)) => Some((seq![o] + s, p2)),
                None => None,
            },
            None => None,
        }
    }
}

/// The whole block stream; the stream must be consumed exactly.
pub open spec fn spec_dec_blocks(b: Seq<u8>) -> Option<Seq<Option<Seq<u8>>>> {
    match spec_dec_u64(b, 0) {
        Some((cnt, p1)) => match spec_dec_block_list(b, p1, cnt as int) {
            Some((s, p2)) => if p2 == b.len() {
                Some(s)
            } else {
                None
            },
            None => None,
        },
        None => None,
    }
}

// --- Decoding an encoding gives back what was encoded ---------------------

/// Turns a chunk equality into byte-level equations over the stream.
pub proof fn lemma_sub_index(b: Seq<u8>, pos: int, len: int, e: Seq<u8>)
    requires
        0 <= pos,
        pos + len <= b.len(),
        e.len() == len,
        b.subrange(pos, pos + len) == e,
    ensures
        forall|idx: int| pos <= idx < pos + len ==> #[trigger] b[idx] == e[idx - pos],
{
    assert forall|idx: int| pos <= idx < pos + len implies #[trigger] b[idx] == e[idx - pos] by {
        assert(b.subrange(pos, pos + len)[idx - pos] == b[idx]);
    }
}

/// Splits a two-part chunk of the stream into its parts.
pub proof fn lemma_split_at(b: Seq<u8>, pos: int, s1: Seq<u8>, s2: Seq<u8>)
    requires
        0 <= pos,
        pos + s1.len() + s2.len() <= b.len(),
        b.subrange(pos, pos + s1.len() + s2.len()) == s1 + s2,
    ensures
        b.subrange(pos, pos + s1.len()) == s1,
        b.subrange(pos + s1.len(), pos + s1.len() + s2.len()) == s2,
{
    lemma_sub_index(b, pos, s1.len() + s2.len() as int, s1 + s2);
    assert(b.subrange(pos, pos + s1.len()) =~= s1);
    assert(b.subrange(pos + s1.len(), pos + s1.len() + s2.len()) =~= s2);
}

pub proof fn lemma_dec_u16_at(b: Seq<u8>, pos: int, v: u16)
    requires
        0 <= pos,
        pos + 2 <= b.len(),
        b.subrange(pos, pos + 2) == spec_enc_u16(v),
    ensures
        spec_dec_u16(b, pos) == Some((v, pos + 2)),
{
    let b0 = b[pos];
    let b1 = b[pos + 1];
    assert(b0 == v as u8 && b1 == (v >> 8) as u8) by {
        assert(b.subrange(pos, pos + 2)[0] == b[pos]);
        assert(b.subrange(pos, pos + 2)[1] == b[pos + 1]);
    }
    assert((b0 as u16) | ((b1 as u16) << 8) == v) by (bit_vector)
        requires
            b0 == v as u8,
            b1 == (v >> 8) as u8,
    ;
}

pub proof fn lemma_dec_u32_at(b: Seq<u8>, pos: int, v: u32)
    requires
        0 <= pos,
        pos + 4 <= b.len(),
        b.subrange(pos, pos + 4) == spec_enc_u32(v),
    ensures
        spec_dec_u32(b, pos) == Some((v, pos + 4)),
{
    let b0 = b[pos];
    let b1 = b[pos + 1];
    let b2 = b[pos + 2];
    let b3 = b[pos + 3];
    assert(b0 == v as u8 && b1 == (v >> 8) as u8 && b2 == (v >> 16) as u8 && b3 == (v >> 24)
        as u8) by {
        assert(b.subrange(pos, pos + 4)[0] == b[pos]);
        assert(b.subrange(pos, pos + 4)[1] == b[pos + 1]);
        assert(b.subrange(pos, pos + 4)[2] == b[pos + 2]);
        assert(b.subrange(pos, pos + 4)[3] == b[pos + 3]);
    }
    assert((b0 as u32) | ((b1 as u32) << 8) | ((b2 as u32) << 16) | ((b3 as u32) << 24) == v)
        by (bit_vector)
        requires
            b0 == v as u8,
            b1 == (v >> 8) as u8,
            b2 == (v >> 16) as u8,
            b3 == (v >> 24) as u8,
    ;
}

pub proof fn lemma_dec_u64_at(b: Seq<u8>, pos: int, v: u64)
    requires
        0 <= pos,
        pos + 8 <= b.len(),
        b.subrange(pos, pos + 8) == spec_enc_u64(v),
    ensures
        spec_dec_u64(b, pos) == Some((v, pos + 8)),
{
    let b0 = b[pos];
    let b1 = b[pos + 1];
    let b2 = b[pos + 2];
    let b3 = b[pos + 3];
    let b4 = b[pos + 4];
    let b5 = b[pos + 5];
    let b6 = b[pos + 6];
    let b7 = b[pos + 7];
    assert(b0 == v as u8 && b1 == (v >> 8) as u8 && b2 == (v >> 16) as u8 && b3 == (v >> 24)
        as u8 && b4 == (v >> 32) as u8 && b5 == (v >> 40) as u8 && b6 == (v >> 48) as u8 && b7 == (
    v >> 56) as u8) by {
        assert(b.subrange(pos, pos + 8)[0] == b[pos]);
        assert(b.subrange(pos, pos + 8)[1] == b[pos + 1]);
        assert(b.subrange(pos, pos + 8)[2] == b[pos + 2]);
        assert(b.subrange(pos, pos + 8)[3] == b[pos + 3]);
        assert(b.subrange(pos, pos + 8)[4] == b[pos + 4]);
        assert(b.subrange(pos, pos + 8)[5] == b[pos + 5]);
        assert(b.subrange(pos, pos + 8)[6] == b[pos + 6]);
        assert(b.subrange(pos, pos + 8)[7] == b[pos + 7]);
    }
    assert((b0 as u64) | ((b1 as u64) << 8) | ((b2 as u64) << 16) | ((b3 as u64) << 24) | ((b4
        as u64) << 32) | ((b5 as u64) << 40) | ((b6 as u64) << 48) | ((b7 as u64) << 56) == v)
        by (bit_vector)
        requires
            b0 == v as u8,
            b1 == (v >> 8) as u8,
            b2 == (v >> 16) as u8,
            b3 == (v >> 24) as u8,
            b4 == (v >> 32) as u8,
            b5 == (v >> 40) as u8,
            b6 == (v >> 48) as u8,
            b7 == (v >> 56) as u8,
    ;
}

pub proof fn lemma_dec_i64_at(b: Seq<u8>, pos: int, v: i64)
    requires
        0 <= pos,
        pos + 8 <= b.len(),
        b.subrange(pos, pos + 8) == spec_enc_i64(v),
    ensures
        spec_dec_i64(b, pos) == Some((v, pos + 8)),
{
    lemma_dec_u64_at(b, pos, v as u64);
    assert((v as u64) as i64 == v) by (bit_vector);
}

pub proof fn lemma_dec_i32_at(b: Seq<u8>, pos: int, v: i32)
    requires
        0 <= pos,
        pos + 4 <= b.len(),
        b.subrange(pos, pos + 4) == spec_enc_i32(v),
    ensures
        spec_dec_i32(b, pos) == Some((v, pos + 4)),
{
    lemma_dec_u32_at(b, pos, v as u32);
    assert((v as u32) as i32 == v) by (bit_vector);
}

pub proof fn lemma_dec_kind_at(b: Seq<u8>, pos: int, k: FileKind)
    requires
        0 <= pos,
        pos + 1 <= b.len(),
        b.subrange(pos, pos + 1) == spec_enc_kind(k),
    ensures
        spec_dec_kind(b, pos) == Some((k, pos + 1)),
{
    assert(b.subrange(pos, pos + 1)[0] == b[pos]);
}

pub proof fn lemma_dec_char_at(b: Seq<u8>, pos: int, c: char)
    requires
        0 <= pos,
        pos + 4 <= b.len(),
        b.subrange(pos, pos + 4) == spec_enc_char(c),
    ensures
        spec_dec_char(b, pos) == Some((c, pos + 4)),
{
    lemma_dec_u32_at(b, pos, c as u32);
    vstd::utf8::char_is_scalar(c);
    vstd::utf8::char_u32_cast(c, c as u32);
}

pub proof fn lemma_dec_ts_at(b: Seq<u8>, pos: int, t: Timespec)
    requires
        0 <= pos,
        pos + 12 <= b.len(),
        b.subrange(pos, pos + 12) == spec_enc_ts(t),
    ensures
        spec_dec_ts(b, pos) == Some((t, pos + 12)),
{
    lemma_split_at(b, pos, spec_enc_i64(t.sec), spec_enc_i32(t.nsec));
    lemma_dec_i64_at(b, pos, t.sec);
    lemma_dec_i32_at(b, pos + 8, t.nsec);
}

#[verifier::rlimit(100)]
pub proof fn lemma_dec_attr_at(b: Seq<u8>, pos: int, a: FileAttr)
    requires
        0 <= pos,
        pos + 95 <= b.len(),
        b.subrange(pos, pos + 95) == spec_enc_attr(a),
    ensures
        spec_dec_attr(b, pos) == Some((a, pos + 95)),
{
    assert(spec_enc_attr(a).len() == 95);
    lemma_sub_index(b, pos, 95, spec_enc_attr(a));
    assert(b.subrange(pos, pos + 8) =~= spec_enc_u64(a.ino));
    assert(b.subrange(pos + 8, pos + 16) =~= spec_enc_u64(a.size));
    assert(b.subrange(pos + 16, pos + 24) =~= spec_enc_u64(a.blocks));
    assert(b.subrange(pos + 24, pos + 36) =~= spec_enc_ts(a.atime));
    assert(b.subrange(pos + 36, pos + 48) =~= spec_enc_ts(a.mtime));
    assert(b.subrange(pos + 48, pos + 60) =~= spec_enc_ts(a.ctime));
    assert(b.subrange(pos + 60, pos + 72) =~= spec_enc_ts(a.crtime));
    assert(b.subrange(pos + 72, pos + 73) =~= spec_enc_kind(a.kind));
    assert(b.subrange(pos + 73, pos + 75) =~= spec_enc_u16(a.perm));
    assert(b.subrange(pos + 75, pos + 79) =~= spec_enc_u32(a.nlink));
    assert(b.subrange(pos + 79, pos + 83) =~= spec_enc_u32(a.uid));
    assert(b.subrange(pos + 83, pos + 87) =~= spec_enc_u32(a.gid));
    assert(b.subrange(pos + 87, pos + 91) =~= spec_enc_u32(a.rdev));
    assert(b.subrange(pos + 91, pos + 95) =~= spec_enc_u32(a.flags));
    lemma_dec_u64_at(b, pos, a.ino);
    lemma_dec_u64_at(b, pos + 8, a.size);
    lemma_dec_u64_at(b, pos + 16, a.blocks);
    lemma_dec_ts_at(b, pos + 24, a.atime);
    lemma_dec_ts_at(b, pos + 36, a.mtime);
    lemma_dec_ts_at(b, pos + 48, a.ctime);
    lemma_dec_ts_at(b, pos + 60, a.crtime);
    lemma_dec_kind_at(b, pos + 72, a.kind);
    lemma_dec_u16_at(b, pos + 73, a.perm);
    lemma_dec_u32_at(b, pos + 75, a.nlink);
    lemma_dec_u32_at(b, pos + 79, a.uid);
    lemma_dec_u32_at(b, pos + 83, a.gid);
    lemma_dec_u32_at(b, pos + 87, a.rdev);
    lemma_dec_u32_at(b, pos + 91, a.flags);
}

/// The encoded characters of a name occupy four bytes each.
pub proof fn lemma_enc_chars_len(s: Seq<char>)
    ensures
        spec_enc_chars(s).len() == 4 * s.len(),
    decreases s.len(),
{
    if s.len() > 0 {
        lemma_enc_chars_len(s.drop_first());
    }
}

pub proof fn lemma_dec_chars_at(b: Seq<u8>, pos: int, s: Seq<char>)
    requires
        0 <= pos,
        pos + 4 * s.len() <= b.len(),
        b.subrange(pos, pos + 4 * s.len()) == spec_enc_chars(s),
    ensures
        spec_dec_chars(b, pos, s.len() as int) == Some((s, pos + 4 * s.len())),
    decreases s.len(),
{
    if s.len() == 0 {
        assert(s =~= Seq::<char>::empty());
    } else {
        lemma_enc_chars_len(s.drop_first());
        lemma_split_at(b, pos, spec_enc_char(s[0]), spec_enc_chars(s.drop_first()));
        lemma_dec_char_at(b, pos, s[0]);
        lemma_dec_chars_at(b, pos + 4, s.drop_first());
        assert(seq![s[0]] + s.drop_first() =~= s);
    }
}

pub proof fn lemma_dec_ref_at(b: Seq<u8>, pos: int, o: Option<usize>)
    requires
        0 <= pos,
        pos + 9 <= b.len(),
        b.subrange(pos, pos + 9) == spec_enc_ref(o),
    ensures
        spec_dec_ref(b, pos) == Some((o, pos + 9)),
{
    lemma_sub_index(b, pos, 9, spec_enc_ref(o));
    match o {
        None => {
            assert(b.subrange(pos + 1, pos + 9) =~= spec_enc_u64(0));
            lemma_dec_u64_at(b, pos + 1, 0);
        },
        Some(v) => {
            assert(b.subrange(pos + 1, pos + 9) =~= spec_enc_u64(v as u64));
            lemma_dec_u64_at(b, pos + 1, v as u64);
        },
    }
}

/// The encoded reference slots occupy nine bytes each.
pub proof fn lemma_enc_refs_len(s: Seq<Option<usize>>)
    ensures
        spec_enc_refs(s).len() == 9 * s.len(),
    decreases s.len(),
{
    if s.len() > 0 {
        lemma_enc_refs_len(s.drop_first());
    }
}

pub proof fn lemma_dec_refs_at(b: Seq<u8>, pos: int, s: Seq<Option<usize>>)
    requires
        0 <= pos,
        pos + 9 * s.len() <= b.len(),
        b.subrange(pos, pos + 9 * s.len()) == spec_enc_refs(s),
    ensures
        spec_dec_refs(b, pos, s.len() as int) == Some((s, pos + 9 * s.len())),
    decreases s.len(),
{
    if s.len() == 0 {
        assert(s =~= Seq::<Option<usize>>::empty());
    } else {
        lemma_enc_refs_len(s.drop_first());
        lemma_split_at(b, pos, spec_enc_ref(s[0]), spec_enc_refs(s.drop_first()));
        lemma_dec_ref_at(b, pos, s[0]);
        lemma_dec_refs_at(b, pos + 9, s.drop_first());
        assert(seq![s[0]] + s.drop_first() =~= s);
    }
}

/// The fixed byte length of one encoded inode record.
pub proof fn lemma_enc_inode_len(t: InodeV)
    requires
        t.0.len() == NAME_LEN,
        t.2.len() == REF_COUNT,
    ensures
        spec_enc_inode_v(t.0, t.1, t.2).len() == crate::disk::INODE_FOOTPRINT,
{
    lemma_enc_chars_len(t.0);
    lemma_enc_refs_len(t.2);
}

pub proof fn lemma_dec_inode_at(b: Seq<u8>, pos: int, t: InodeV)
    requires
        0 <= pos,
        t.0.len() == NAME_LEN,
        t.2.len() == REF_COUNT,
        pos + 1503 <= b.len(),
        b.subrange(pos, pos + 1503) == spec_enc_inode_v(t.0, t.1, t.2),
    ensures
        spec_dec_inode(b, pos) == Some((t, pos + 1503)),
{
    lemma_enc_chars_len(t.0);
    lemma_enc_refs_len(t.2);
    assert(spec_enc_inode_v(t.0, t.1, t.2) =~= spec_enc_chars(t.0) + (spec_enc_attr(t.1)
        + spec_enc_refs(t.2)));
    lemma_split_at(
        b,
        pos,
        spec_enc_chars(t.0),
        spec_enc_attr(t.1) + spec_enc_refs(t.2),
    );
    lemma_split_at(b, pos + 256, spec_enc_attr(t.1), spec_enc_refs(t.2));
    lemma_dec_chars_at(b, pos, t.0);
    lemma_dec_attr_at(b, pos + 256, t.1);
    lemma_dec_refs_at(b, pos + 351, t.2);
}

#[verifier::rlimit(100)]
pub proof fn lemma_dec_slot_at(b: Seq<u8>, pos: int, o: Option<InodeV>)
    requires
        0 <= pos,
        o matches Some(t) ==> t.0.len() == NAME_LEN && t.2.len() == REF_COUNT,
        pos + spec_enc_slot_v(o).len() <= b.len(),
        b.subrange(pos, pos + spec_enc_slot_v(o).len()) == spec_enc_slot_v(o),
    ensures
        spec_dec_slot(b, pos) == Some((o, pos + spec_enc_slot_v(o).len())),
{
    match o {
        None => {
            assert(b.subrange(pos, pos + 1)[0] == b[pos]);
        },
        Some(t) => {
            lemma_enc_inode_len(t);
            lemma_sub_index(b, pos, 1504, spec_enc_slot_v(o));
            assert(b.subrange(pos + 1, pos + 1504) =~= spec_enc_inode_v(t.0, t.1, t.2));
            lemma_dec_inode_at(b, pos + 1, t);
        },
    }
}

pub proof fn lemma_dec_slots_at(b: Seq<u8>, pos: int, s: Seq<Option<InodeV>>)
    requires
        0 <= pos,
        forall|i: int|
            0 <= i < s.len() ==> (#[trigger] s[i] matches Some(t) ==> t.0.len() == NAME_LEN
                && t.2.len() == REF_COUNT),
        pos + spec_enc_slots_v(s).len() <= b.len(),
        b.subrange(pos, pos + spec_enc_slots_v(s).len()) == spec_enc_slots_v(s),
    ensures
        spec_dec_slots(b, pos, s.len() as int) == Some((s, pos + spec_enc_slots_v(s).len())),
    decreases s.len(),
{
    if s.len() == 0 {
        assert(s =~= Seq::<Option<InodeV>>::empty());
    } else {
        lemma_split_at(b, pos, spec_enc_slot_v(s[0]), spec_enc_slots_v(s.drop_first()));
        lemma_dec_slot_at(b, pos, s[0]);
        lemma_dec_slots_at(b, pos + spec_enc_slot_v(s[0]).len(), s.drop_first());
        assert(seq![s[0]] + s.drop_first() =~= s);
    }
}

pub proof fn lemma_dec_block_at(b: Seq<u8>, pos: int, o: Option<Seq<u8>>)
    requires
        0 <= pos,
        o matches Some(d) ==> d.len() <= usize::MAX,
        pos + spec_enc_block_v(o).len() <= b.len(),
        b.subrange(pos, pos + spec_enc_block_v(o).len()) == spec_enc_block_v(o),
    ensures
        spec_dec_block(b, pos) == Some((o, pos + spec_enc_block_v(o).len())),
{
    match o {
        None => {
            assert(b.subrange(pos, pos + 1)[0] == b[pos]);
        },
        Some(d) => {
            let dl = d.len() as int;
            lemma_sub_index(b, pos, 9 + dl, spec_enc_block_v(o));
            assert(b.subrange(pos + 1, pos + 9) =~= spec_enc_u64(d.len() as u64));
            lemma_dec_u64_at(b, pos + 1, d.len() as u64);
            assert(b.subrange(pos + 9, pos + 9 + dl) =~= d);
        },
    }
}

pub proof fn lemma_dec_block_list_at(b: Seq<u8>, pos: int, s: Seq<Option<Seq<u8>>>)
    requires
        0 <= pos,
        forall|i: int|
            0 <= i < s.len() ==> (#[trigger] s[i] matches Some(d) ==> d.len() <= usize::MAX),
        pos + spec_enc_block_list_v(s).len() <= b.len(),
        b.subrange(pos, pos + spec_enc_block_list_v(s).len()) == spec_enc_block_list_v(s),
    ensures
        spec_dec_block_list(b, pos, s.len() as int) == Some(
            (s, pos + spec_enc_block_list_v(s).len()),
        ),
    decreases s.len(),
{
    if s.len() == 0 {
        assert(s =~= Seq::<Option<Seq<u8>>>::empty());
    } else {
        lemma_split_at(b, pos, spec_enc_block_v(s[0]), spec_enc_block_list_v(s.drop_first()));
        lemma_dec_block_at(b, pos, s[0]);
        lemma_dec_block_list_at(b, pos + spec_enc_block_v(s[0]).len(), s.drop_first());
        assert(seq![s[0]] + s.drop_first() =~= s);
    }
}

/// Decoding an encoded superblock stream gives back exactly the encoded
/// slots.
pub proof fn lemma_super_round_trip(s: Seq<Option<InodeV>>)
    requires
        s.len() <= usize::MAX,
        forall|i: int|
            0 <= i < s.len() ==> (#[trigger] s[i] matches Some(t) ==> t.0.len() == NAME_LEN
                && t.2.len() == REF_COUNT),
    ensures
        spec_dec_super(spec_enc_super_v(s)) == Some(s),
{
    let b = spec_enc_super_v(s);
    assert(b.subrange(0, b.len() as int) =~= b);
    lemma_split_at(b, 0, spec_enc_u64(s.len() as u64), spec_enc_slots_v(s));
    lemma_dec_u64_at(b, 0, s.len() as u64);
    lemma_dec_slots_at(b, 8, s);
}

/// Decoding an encoded block stream gives back exactly the encoded blocks.
pub proof fn lemma_blocks_round_trip(s: Seq<Option<Seq<u8>>>)
    requires
        s.len() <= usize::MAX,
        forall|i: int|
            0 <= i < s.len() ==> (#[trigger] s[i] matches Some(d) ==> d.len() <= usize::MAX),
    ensures
        spec_dec_blocks(spec_enc_blocks_v(s)) == Some(s),
{
    let b = spec_enc_blocks_v(s);
    assert(b.subrange(0, b.len() as int) =~= b);
    lemma_split_at(b, 0, spec_enc_u64(s.len() as u64), spec_enc_block_list_v(s));
    lemma_dec_u64_at(b, 0, s.len() as u64);
    lemma_dec_block_list_at(b, 8, s);
}

// --- Executable encoding --------------------------------------------------

/// Appending a character extends the encoded name by its four bytes.
pub proof fn lemma_enc_chars_snoc(s: Seq<char>, c: char)
    ensures
        spec_enc_chars(s.push(c)) == spec_enc_chars(s) + spec_enc_char(c),
    decreases s.len(),
{
    if s.len() == 0 {
        reveal_with_fuel(spec_enc_chars, 2);
        assert(s.push(c).drop_first() =~= Seq::<char>::empty());
        assert(spec_enc_chars(s.push(c)) =~= spec_enc_chars(s) + spec_enc_char(c));
    } else {
        assert(s.push(c).drop_first() =~= s.drop_first().push(c));
        lemma_enc_chars_snoc(s.drop_first(), c);
        assert(spec_enc_chars(s.push(c)) =~= spec_enc_chars(s) + spec_enc_char(c));
    }
}

/// Appending a reference slot extends the encoded array by its nine bytes.
pub proof fn lemma_enc_refs_snoc(s: Seq<Option<usize>>, o: Option<usize>)
    ensures
        spec_enc_refs(s.push(o)) == spec_enc_refs(s) + spec_enc_ref(o),
    decreases s.len(),
{
    if s.len() == 0 {
        reveal_with_fuel(spec_enc_refs, 2);
        assert(s.push(o).drop_first() =~= Seq::<Option<usize>>::empty());
        assert(spec_enc_refs(s.push(o)) =~= spec_enc_refs(s) + spec_enc_ref(o));
    } else {
        assert(s.push(o).drop_first() =~= s.drop_first().push(o));
        lemma_enc_refs_snoc(s.drop_first(), o);
        assert(spec_enc_refs(s.push(o)) =~= spec_enc_refs(s) + spec_enc_ref(o));
    }
}

/// Appending a slot extends the encoded superblock stream by its record.
#[verifier::rlimit(100)]
#[verifier::spinoff_prover]
pub proof fn lemma_enc_slots_snoc(s: Seq<Option<InodeV>>, o: Option<InodeV>)
    ensures
        spec_enc_slots_v(s.push(o)) == spec_enc_slots_v(s) + spec_enc_slot_v(o),
    decreases s.len(),
{
    if s.len() == 0 {
        reveal_with_fuel(spec_enc_slots_v, 2);
        assert(s.push(o).drop_first() =~= Seq::<Option<InodeV>>::empty());
        assert(spec_enc_slots_v(s.push(o)) =~= spec_enc_slots_v(s) + spec_enc_slot_v(o));
    } else {
        assert(s.push(o).drop_first() =~= s.drop_first().push(o));
        lemma_enc_slots_snoc(s.drop_first(), o);
        assert(spec_enc_slots_v(s.push(o)) =~= spec_enc_slots_v(s) + spec_enc_slot_v(o));
    }
}

/// Appending a block extends the encoded block stream by its record.
pub proof fn lemma_enc_blocks_snoc(s: Seq<Option<Seq<u8>>>, o: Option<Seq<u8>>)
    ensures
        spec_enc_block_list_v(s.push(o)) == spec_enc_block_list_v(s) + spec_enc_block_v(o),
    decreases s.len(),
{
    if s.len() == 0 {
        reveal_with_fuel(spec_enc_block_list_v, 2);
        assert(s.push(o).drop_first() =~= Seq::<Option<Seq<u8>>>::empty());
        assert(spec_enc_block_list_v(s.push(o)) =~= spec_enc_block_list_v(s) + spec_enc_block_v(
            o,
        ));
    } else {
        assert(s.push(o).drop_first() =~= s.drop_first().push(o));
        lemma_enc_blocks_snoc(s.drop_first(), o);
        assert(spec_enc_block_list_v(s.push(o)) =~= spec_enc_block_list_v(s) + spec_enc_block_v(
            o,
        ));
    }
}

fn push_u16(out: &mut Vec<u8>, v: u16)
    ensures
        final(out)@ == old(out)@ + spec_enc_u16(v),
{
    out.push(v as u8);
    out.push((v >> 8) as u8);
    assert(final(out)@ =~= old(out)@ + spec_enc_u16(v));
}

fn push_u32(out: &mut Vec<u8>, v: u32)
    ensures
        final(out)@ == old(out)@ + spec_enc_u32(v),
{
    out.push(v as u8);
    out.push((v >> 8) as u8);
    out.push((v >> 16) as u8);
    out.push((v >> 24) as u8);
    assert(final(out)@ =~= old(out)@ + spec_enc_u32(v));
}

fn push_u64(out: &mut Vec<u8>, v: u64)
    ensures
        final(out)@ == old(out)@ + spec_enc_u64(v),
{
    out.push(v as u8);
    out.push((v >> 8) as u8);
    out.push((v >> 16) as u8);
    out.push((v >> 24) as u8);
    out.push((v >> 32) as u8);
    out.push((v >> 40) as u8);
    out.push((v >> 48) as u8);
    out.push((v >> 56) as u8);
    assert(final(out)@ =~= old(out)@ + spec_enc_u64(v));
}

fn push_ts(out: &mut Vec<u8>, t: Timespec)
    ensures
        final(out)@ == old(out)@ + spec_enc_ts(t),
{
    push_u64(out, t.sec as u64);
    push_u32(out, t.nsec as u32);
    assert(final(out)@ =~= old(out)@ + spec_enc_ts(t));
}

fn push_attr(out: &mut Vec<u8>, a: &FileAttr)
    ensures
        final(out)@ == old(out)@ + spec_enc_attr(*a),
{
    push_u64(out, a.ino);
    push_u64(out, a.size);
    push_u64(out, a.blocks);
    push_ts(out, a.atime);
    push_ts(out, a.mtime);
    push_ts(out, a.ctime);
    push_ts(out, a.crtime);
    match a.kind {
        FileKind::Directory => out.push(0u8),
        FileKind::RegularFile => out.push(1u8),
    }
    push_u16(out, a.perm);
    push_u32(out, a.nlink);
    push_u32(out, a.uid);
    push_u32(out, a.gid);
    push_u32(out, a.rdev);
    push_u32(out, a.flags);
    assert(final(out)@ =~= old(out)@ + spec_enc_attr(*a));
}

#[verifier::loop_isolation(false)]
fn push_chars(out: &mut Vec<u8>, s: &Vec<char>)
    ensures
        final(out)@ == old(out)@ + spec_enc_chars(s@),
{
    let ghost base = out@;
    let mut i: usize = 0;
    while i < s.len()
        invariant
            i <= s@.len(),
            out@ == base + spec_enc_chars(s@.take(i as int)),
        decreases s@.len() - i,
    {
        push_u32(out, s[i] as u32);
        proof {
            lemma_enc_chars_snoc(s@.take(i as int), s@[i as int]);
            assert(s@.take(i + 1) =~= s@.take(i as int).push(s@[i as int]));
            assert(out@ =~= base + spec_enc_chars(s@.take(i + 1)));
        }
        i += 1;
    }
    assert(s@.take(s@.len() as int) =~= s@);
}

fn push_ref(out: &mut Vec<u8>, o: Option<usize>)
    ensures
        final(out)@ == old(out)@ + spec_enc_ref(o),
{
    match o {
        None => {
            out.push(0u8);
            push_u64(out, 0);
        },
        Some(v) => {
            out.push(1u8);
            push_u64(out, v as u64);
        },
    }
    assert(final(out)@ =~= old(out)@ + spec_enc_ref(o));
}

#[verifier::loop_isolation(false)]
fn push_refs(out: &mut Vec<u8>, s: &Vec<Option<usize>>)
    ensures
        final(out)@ == old(out)@ + spec_enc_refs(s@),
{
    let ghost base = out@;
    let mut i: usize = 0;
    while i < s.len()
        invariant
            i <= s@.len(),
            out@ == base + spec_enc_refs(s@.take(i as int)),
        decreases s@.len() - i,
    {
        push_ref(out, s[i]);
        proof {
            lemma_enc_refs_snoc(s@.take(i as int), s@[i as int]);
            assert(s@.take(i + 1) =~= s@.take(i as int).push(s@[i as int]));
            assert(out@ =~= base + spec_enc_refs(s@.take(i + 1)));
        }
        i += 1;
    }
    assert(s@.take(s@.len() as int) =~= s@);
}

fn push_inode(out: &mut Vec<u8>, ind: &Inode)
    ensures
        final(out)@ == old(out)@ + spec_enc_inode_v(ind.name@, ind.attributes, ind.references@),
{
    push_chars(out, &ind.name);
    push_attr(out, &ind.attributes);
    push_refs(out, &ind.references);
    assert(final(out)@ =~= old(out)@ + spec_enc_inode_v(
        ind.name@,
        ind.attributes,
        ind.references@,
    ));
}

/// Encodes the whole superblock as one self-describing byte stream.
#[verifier::loop_isolation(false)]
pub fn encode_super_block(sb: &Vec<Option<Inode>>) -> (r: Vec<u8>)
    ensures
        r@ == spec_enc_super_v(sb_view(sb@)),
{
    let mut out: Vec<u8> = Vec::new();
    push_u64(&mut out, sb.len() as u64);
    proof {
        assert(out@ =~= spec_enc_u64(sb@.len() as u64));
    }
    let ghost header = out@;
    let mut i: usize = 0;
    while i < sb.len()
        invariant
            i <= sb@.len(),
            out@ == header + spec_enc_slots_v(sb_view(sb@).take(i as int)),
        decreases sb@.len() - i,
    {
        let ghost pre = out@;
        match &sb[i] {
            None => {
                out.push(0u8);
            },
            Some(ind) => {
                out.push(1u8);
                push_inode(&mut out, ind);
            },
        }
        proof {
            assert(out@ =~= pre + spec_enc_slot_v(sb_view(sb@)[i as int]));
            lemma_enc_slots_snoc(sb_view(sb@).take(i as int), sb_view(sb@)[i as int]);
            assert(sb_view(sb@).take(i + 1) =~= sb_view(sb@).take(i as int).push(
                sb_view(sb@)[i as int],
            ));
            assert(out@ =~= header + spec_enc_slots_v(sb_view(sb@).take(i + 1)));
        }
        i += 1;
    }
    proof {
        assert(sb_view(sb@).take(sb@.len() as int) =~= sb_view(sb@));
        assert(out@ =~= spec_enc_super_v(sb_view(sb@)));
    }
    out
}

/// Encodes the whole block array as one self-describing byte stream.
#[verifier::loop_isolation(false)]
pub fn encode_memory_blocks(mb: &Vec<crate::disk::MemoryBlock>) -> (r: Vec<u8>)
    ensures
        r@ == spec_enc_blocks_v(blocks_view(mb@)),
{
    let mut out: Vec<u8> = Vec::new();
    push_u64(&mut out, mb.len() as u64);
    proof {
        assert(out@ =~= spec_enc_u64(mb@.len() as u64));
    }
    let ghost header = out@;
    let mut i: usize = 0;
    while i < mb.len()
        invariant
            i <= mb@.len(),
            out@ == header + spec_enc_block_list_v(blocks_view(mb@).take(i as int)),
        decreases mb@.len() - i,
    {
        let ghost pre = out@;
        match &mb[i].data {
            None => {
                out.push(0u8);
            },
            Some(d) => {
                out.push(1u8);
                push_u64(&mut out, d.len() as u64);
                let mut k: usize = 0;
                let ghost mid = out@;
                while k < d.len()
                    invariant
                        k <= d@.len(),
                        out@ == mid + d@.take(k as int),
                    decreases d@.len() - k,
                {
                    out.push(d[k]);
                    proof {
                        assert(d@.take(k + 1) =~= d@.take(k as int).push(d@[k as int]));
                        assert(out@ =~= mid + d@.take(k + 1));
                    }
                    k += 1;
                }
                proof {
                    assert(d@.take(d@.len() as int) =~= d@);
                }
            },
        }
        proof {
            assert(out@ =~= pre + spec_enc_block_v(blocks_view(mb@)[i as int]));
            lemma_enc_blocks_snoc(blocks_view(mb@).take(i as int), blocks_view(mb@)[i as int]);
            assert(blocks_view(mb@).take(i + 1) =~= blocks_view(mb@).take(i as int).push(
                blocks_view(mb@)[i as int],
            ));
            assert(out@ =~= header + spec_enc_block_list_v(blocks_view(mb@).take(i + 1)));
        }
        i += 1;
    }
    proof {
        assert(blocks_view(mb@).take(mb@.len() as int) =~= blocks_view(mb@));
        assert(out@ =~= spec_enc_blocks_v(blocks_view(mb@)));
    }
    out
}

// --- Executable decoding --------------------------------------------------

/// Relies on `char::from_u32`: it returns the character of a Unicode
/// scalar value and `None` for surrogates and out-of-range values.
pub assume_specification[ char::from_u32 ](i: u32) -> (r: Option<char>)
    ensures
        r is Some <==> vstd::utf8::is_scalar(i),
        r matches Some(c) ==> c as u32 == i,
;

fn read_u8(b: &Vec<u8>, pos: usize) -> (r: Option<(u8, usize)>)
    ensures
        match spec_dec_u8(b@, pos as int) {
            Some((v, p)) => r == Some((v, p as usize)),
            None => r is None,
        },
{
    if pos < b.len() {
        Some((b[pos], pos + 1))
    } else {
        None
    }
}

fn read_u16(b: &Vec<u8>, pos: usize) -> (r: Option<(u16, usize)>)
    ensures
        match spec_dec_u16(b@, pos as int) {
            Some((v, p)) => r == Some((v, p as usize)),
            None => r is None,
        },
{
    if pos < b.len() && b.len() - pos >= 2 {
        let v = (b[pos] as u16) | ((b[pos + 1] as u16) << 8);
        Some((v, pos + 2))
    } else {
        None
    }
}

fn read_u32(b: &Vec<u8>, pos: usize) -> (r: Option<(u32, usize)>)
    ensures
        match spec_dec_u32(b@, pos as int) {
            Some((v, p)) => r == Some((v, p as usize)),
            None => r is None,
        },
{
    if pos < b.len() && b.len() - pos >= 4 {
        let v = (b[pos] as u32) | ((b[pos + 1] as u32) << 8) | ((b[pos + 2] as u32) << 16) | ((
        b[pos + 3] as u32) << 24);
        Some((v, pos + 4))
    } else {
        None
    }
}

fn read_u64(b: &Vec<u8>, pos: usize) -> (r: Option<(u64, usize)>)
    ensures
        match spec_dec_u64(b@, pos as int) {
            Some((v, p)) => r == Some((v, p as usize)),
            None => r is None,
        },
{
    if pos < b.len() && b.len() - pos >= 8 {
        let v = (b[pos] as u64) | ((b[pos + 1] as u64) << 8) | ((b[pos + 2] as u64) << 16) | ((
        b[pos + 3] as u64) << 24) | ((b[pos + 4] as u64) << 32) | ((b[pos + 5] as u64) << 40) | ((
        b[pos + 6] as u64) << 48) | ((b[pos + 7] as u64) << 56);
        Some((v, pos + 8))
    } else {
        None
    }
}

fn read_kind(b: &Vec<u8>, pos: usize) -> (r: Option<(FileKind, usize)>)
    ensures
        match spec_dec_kind(b@, pos as int) {
            Some((v, p)) => r == Some((v, p as usize)),
            None => r is None,
        },
{
    match read_u8(b, pos) {
        Some((t, p)) => {
            if t == 0 {
                Some((FileKind::Directory, p))
            } else if t == 1 {
                Some((FileKind::RegularFile, p))
            } else {
                None
            }
        },
        None => None,
    }
}

fn read_char(b: &Vec<u8>, pos: usize) -> (r: Option<(char, usize)>)
    ensures
        match spec_dec_char(b@, pos as int) {
            Some((v, p)) => r == Some((v, p as usize)),
            None => r is None,
        },
{
    match read_u32(b, pos) {
        Some((u, p)) => match char::from_u32(u) {
            Some(c) => {
                proof {
                    vstd::utf8::char_u32_cast(c, u);
                }
                Some((c, p))
            },
            None => None,
        },
        None => None,
    }
}

fn read_ts(b: &Vec<u8>, pos: usize) -> (r: Option<(Timespec, usize)>)
    ensures
        match spec_dec_ts(b@, pos as int) {
            Some((v, p)) => r == Some((v, p as usize)),
            None => r is None,
        },
{
    let n_bytes = b.len();
    match read_u64(b, pos) {
        Some((sec_bits, p1)) => match read_u32(b, p1) {
            Some((nsec_bits, p2)) => Some(
                (Timespec { sec: sec_bits as i64, nsec: nsec_bits as i32 }, p2),
            ),
            None => None,
        },
        None => None,
    }
}

fn read_attr(b: &Vec<u8>, pos: usize) -> (r: Option<(FileAttr, usize)>)
    ensures
        match spec_dec_attr(b@, pos as int) {
            Some((v, p)) => r == Some((v, p as usize)),
            None => r is None,
        },
{
    let n_bytes = b.len();
    let (ino, p1) = match read_u64(b, pos) {
        Some(x) => x,
        None => {
            return None;
        },
    };
    let (size, p2) = match read_u64(b, p1) {
        Some(x) => x,
        None => {
            return None;
        },
    };
    let (blocks, p3) = match read_u64(b, p2) {
        Some(x) => x,
        None => {
            return None;
        },
    };
    let (atime, p4) = match read_ts(b, p3) {
        Some(x) => x,
        None => {
            return None;
        },
    };
    let (mtime, p5) = match read_ts(b, p4) {
        Some(x) => x,
        None => {
            return None;
        },
    };
    let (ctime, p6) = match read_ts(b, p5) {
        Some(x) => x,
        None => {
            return None;
        },
    };
    let (crtime, p7) = match read_ts(b, p6) {
        Some(x) => x,
        None => {
            return None;
        },
    };
    let (kind, p8) = match read_kind(b, p7) {
        Some(x) => x,
        None => {
            return None;
        },
    };
    let (perm, p9) = match read_u16(b, p8) {
        Some(x) => x,
        None => {
            return None;
        },
    };
    let (nlink, p10) = match read_u32(b, p9) {
        Some(x) => x,
        None => {
            return None;
        },
    };
    let (uid, p11) = match read_u32(b, p10) {
        Some(x) => x,
        None => {
            return None;
        },
    };
    let (gid, p12) = match read_u32(b, p11) {
        Some(x) => x,
        None => {
            return None;
        },
    };
    let (rdev, p13) = match read_u32(b, p12) {
        Some(x) => x,
        None => {
            return None;
        },
    };
    let (flags, p14) = match read_u32(b, p13) {
        Some(x) => x,
        None => {
            return None;
        },
    };
    Some(
        (
            FileAttr {
                ino,
                size,
                blocks,
                atime,
                mtime,
                ctime,
                crtime,
                kind,
                perm,
                nlink,
                uid,
                gid,
                rdev,
                flags,
            },
            p14,
        ),
    )
}

#[verifier::loop_isolation(false)]
fn read_chars(b: &Vec<u8>, pos: usize, n: usize) -> (r: Option<(Vec<char>, usize)>)
    ensures
        match spec_dec_chars(b@, pos as int, n as int) {
            Some((s, p)) => r matches Some((v, p2)) && v@ == s && p2 == p,
            None => r is None,
        },
{
    let n_bytes = b.len();
    let mut out: Vec<char> = Vec::new();
    let mut cur: usize = pos;
    let mut i: usize = 0;
    while i < n
        invariant
            i <= n,
            spec_dec_chars(b@, pos as int, n as int) == (match spec_dec_chars(
                b@,
                cur as int,
                n - i,
            ) {
                Some((s2, p2)) => Some::<(Seq<char>, int)>((out@ + s2, p2)),
                None => None::<(Seq<char>, int)>,
            }),
        decreases n - i,
    {
        match read_char(b, cur) {
            Some((c, p)) => {
                out.push(c);
                proof {
                    match spec_dec_chars(b@, p as int, n - i - 1) {
                        Some((s3, p3)) => {
                            assert((out@ + s3) =~= (out@.drop_last() + (seq![c] + s3)));
                        },
                        None => {},
                    }
                }
                cur = p;
            },
            None => {
                return None;
            },
        }
        i += 1;
    }
    proof {
        assert(out@ + Seq::<char>::empty() =~= out@);
    }
    Some((out, cur))
}

fn read_ref(b: &Vec<u8>, pos: usize) -> (r: Option<(Option<usize>, usize)>)
    ensures
        match spec_dec_ref(b@, pos as int) {
            Some((o, p)) => r == Some((o, p as usize)),
            None => r is None,
        },
{
    let n_bytes = b.len();
    match read_u8(b, pos) {
        Some((t, p1)) => match read_u64(b, p1) {
            Some((v, p2)) => {
                if t == 0 && v == 0 {
                    Some((None, p2))
                } else if t == 1 && v <= usize::MAX as u64 {
                    Some((Some(v as usize), p2))
                } else {
                    None
                }
            },
            None => None,
        },
        None => None,
    }
}

#[verifier::loop_isolation(false)]
fn read_refs(b: &Vec<u8>, pos: usize, n: usize) -> (r: Option<(Vec<Option<usize>>, usize)>)
    ensures
        match spec_dec_refs(b@, pos as int, n as int) {
            Some((s, p)) => r matches Some((v, p2)) && v@ == s && p2 == p,
            None => r is None,
        },
{
    let n_bytes = b.len();
    let mut out: Vec<Option<usize>> = Vec::new();
    let mut cur: usize = pos;
    let mut i: usize = 0;
    while i < n
        invariant
            i <= n,
            spec_dec_refs(b@, pos as int, n as int) == (match spec_dec_refs(
                b@,
                cur as int,
                n - i,
            ) {
                Some((s2, p2)) => Some::<(Seq<Option<usize>>, int)>((out@ + s2, p2)),
                None => None::<(Seq<Option<usize>>, int)>,
            }),
        decreases n - i,
    {
        match read_ref(b, cur) {
            Some((o, p)) => {
                out.push(o);
                proof {
                    match spec_dec_refs(b@, p as int, n - i - 1) {
                        Some((s3, p3)) => {
                            assert((out@ + s3) =~= (out@.drop_last() + (seq![o] + s3)));
                        },
                        None => {},
                    }
                }
                cur = p;
            },
            None => {
                return None;
            },
        }
        i += 1;
    }
    proof {
        assert(out@ + Seq::<Option<usize>>::empty() =~= out@);
    }
    Some((out, cur))
}

fn read_inode(b: &Vec<u8>, pos: usize) -> (r: Option<(Inode, usize)>)
    ensures
        match spec_dec_inode(b@, pos as int) {
            Some((t, p)) => r matches Some((ind, p2)) && ind.name@ == t.0 && ind.attributes
                == t.1 && ind.references@ == t.2 && p2 == p,
            None => r is None,
        },
{
    let n_bytes = b.len();
    let (name, p1) = match read_chars(b, pos, NAME_LEN) {
        Some(x) => x,
        None => {
            return None;
        },
    };
    let (attributes, p2) = match read_attr(b, p1) {
        Some(x) => x,
        None => {
            return None;
        },
    };
    let (references, p3) = match read_refs(b, p2, REF_COUNT) {
        Some(x) => x,
        None => {
            return None;
        },
    };
    Some((Inode { name, attributes, references }, p3))
}

fn read_slot(b: &Vec<u8>, pos: usize) -> (r: Option<(Option<Inode>, usize)>)
    ensures
        match spec_dec_slot(b@, pos as int) {
            Some((o, p)) => r matches Some((o2, p2)) && p2 == p && (o is None <==> o2 is None)
                && (o matches Some(t) ==> o2 matches Some(ind) && ind.name@ == t.0
                && ind.attributes == t.1 && ind.references@ == t.2),
            None => r is None,
        },
{
    let n_bytes = b.len();
    match read_u8(b, pos) {
        Some((t, p1)) => {
            if t == 0 {
                Some((None, p1))
            } else if t == 1 {
                match read_inode(b, p1) {
                    Some((ind, p2)) => Some((Some(ind), p2)),
                    None => None,
                }
            } else {
                None
            }
        },
        None => None,
    }
}

/// Decodes a whole superblock stream; the stream must parse exactly, or
/// nothing is returned.
#[verifier::loop_isolation(false)]
pub fn decode_super_block(b: &Vec<u8>) -> (r: Option<Vec<Option<Inode>>>)
    ensures
        match spec_dec_super(b@) {
            Some(s) => r matches Some(v) && sb_view(v@) == s,
            None => r is None,
        },
{
    let n_bytes = b.len();
    let (cnt, p0) = match read_u64(b, 0) {
        Some(x) => x,
        None => {
            return None;
        },
    };
    let mut out: Vec<Option<Inode>> = Vec::new();
    let mut cur: usize = p0;
    let mut i: u64 = 0;
    while i < cnt
        invariant
            i <= cnt,
            sb_view(out@).len() == i,
            spec_dec_slots(b@, p0 as int, cnt as int) == (match spec_dec_slots(
                b@,
                cur as int,
                cnt - i,
            ) {
                Some((s2, p2)) => Some::<(Seq<Option<InodeV>>, int)>((sb_view(out@) + s2, p2)),
                None => None::<(Seq<Option<InodeV>>, int)>,
            }),
        decreases cnt - i,
    {
        match read_slot(b, cur) {
            Some((o, p)) => {
                let ghost pre = sb_view(out@);
                let ghost ov = match spec_dec_slot(b@, cur as int) {
                    Some((x, _)) => x,
                    None => None,
                };
                out.push(o);
                proof {
                    assert(sb_view(out@) =~= pre.push(ov));
                    match spec_dec_slots(b@, p as int, cnt - i - 1) {
                        Some((s3, p3)) => {
                            assert((sb_view(out@) + s3) =~= (pre + (seq![ov] + s3)));
                        },
                        None => {},
                    }
                }
                cur = p;
            },
            None => {
                return None;
            },
        }
        i += 1;
    }
    proof {
        assert(sb_view(out@) + Seq::<Option<InodeV>>::empty() =~= sb_view(out@));
    }
    if cur == b.len() {
        Some(out)
    } else {
        None
    }
}

fn read_block(b: &Vec<u8>, pos: usize) -> (r: Option<(crate::disk::MemoryBlock, usize)>)
    ensures
        match spec_dec_block(b@, pos as int) {
            Some((o, p)) => r matches Some((m, p2)) && p2 == p && (o is None <==> m.data
                is None) && (o matches Some(d) ==> m.data matches Some(dv) && dv@ == d),
            None => r is None,
        },
{
    let n_bytes = b.len();
    match read_u8(b, pos) {
        Some((t, p1)) => {
            if t == 0 {
                Some((crate::disk::MemoryBlock { data: None }, p1))
            } else if t == 1 {
                match read_u64(b, p1) {
                    Some((len, p2)) => {
                        if len <= usize::MAX as u64 && (len as usize) <= b.len() && p2 <= b.len()
                            - (len as usize) {
                            let end: usize = p2 + (len as usize);
                            let mut data: Vec<u8> = Vec::new();
                            let mut k: usize = p2;
                            while k < end
                                invariant
                                    p2 <= k <= end <= b@.len(),
                                    data@ == b@.subrange(p2 as int, k as int),
                                decreases end - k,
                            {
                                data.push(b[k]);
                                proof {
                                    assert(data@ =~= b@.subrange(p2 as int, k + 1));
                                }
                                k += 1;
                            }
                            Some((crate::disk::MemoryBlock { data: Some(data) }, end))
                        } else {
                            None
                        }
                    },
                    None => None,
                }
            } else {
                None
            }
        },
        None => None,
    }
}

/// Decodes a whole block stream; the stream must parse exactly, or nothing
/// is returned.
#[verifier::loop_isolation(false)]
pub fn decode_memory_blocks(b: &Vec<u8>) -> (r: Option<Vec<crate::disk::MemoryBlock>>)
    ensures
        match spec_dec_blocks(b@) {
            Some(s) => r matches Some(v) && blocks_view(v@) == s,
            None => r is None,
        },
{
    let n_bytes = b.len();
    let (cnt, p0) = match read_u64(b, 0) {
        Some(x) => x,
        None => {
            return None;
        },
    };
    let mut out: Vec<crate::disk::MemoryBlock> = Vec::new();
    let mut cur: usize = p0;
    let mut i: u64 = 0;
    while i < cnt
        invariant
            i <= cnt,
            blocks_view(out@).len() == i,
            spec_dec_block_list(b@, p0 as int, cnt as int) == (match spec_dec_block_list(
                b@,
                cur as int,
                cnt - i,
            ) {
                Some((s2, p2)) => Some::<(Seq<Option<Seq<u8>>>, int)>(
                    (blocks_view(out@) + s2, p2),
                ),
                None => None::<(Seq<Option<Seq<u8>>>, int)>,
            }),
        decreases cnt - i,
    {
        match read_block(b, cur) {
            Some((m, p)) => {
                let ghost pre = blocks_view(out@);
                let ghost ov = match spec_dec_block(b@, cur as int) {
                    Some((x, _)) => x,
                    None => None,
                };
                out.push(m);
                proof {
                    assert(blocks_view(out@) =~= pre.push(ov));
                    match spec_dec_block_list(b@, p as int, cnt - i - 1) {
                        Some((s3, p3)) => {
                            assert((blocks_view(out@) + s3) =~= (pre + (seq![ov] + s3)));
                        },
                        None => {},
                    }
                }
                cur = p;
            },
            None => {
                return None;
            },
        }
        i += 1;
    }
    proof {
        assert(blocks_view(out@) + Seq::<Option<Seq<u8>>>::empty() =~= blocks_view(out@));
    }
    if cur == b.len() {
        Some(out)
    } else {
        None
    }
}

impl crate::disk::Disk {
    /// Serializes the whole arena: the superblock stream for the inode
    /// table file and the block stream for the disk file. Writing the two
    /// streams to their files is the caller's part.
    pub fn write_to_disk(&self) -> (r: (Vec<u8>, Vec<u8>))
        ensures
            r.0@ == spec_enc_super_v(sb_view(self.super_block@)),
            r.1@ == spec_enc_blocks_v(blocks_view(self.memory_blocks@)),
    {
        (encode_super_block(&self.super_block), encode_memory_blocks(&self.memory_blocks))
    }

    /// Rebuilds an arena from two decoded snapshot arrays, padding both up
    /// to the configured capacities with empty slots. A snapshot larger
    /// than the configured arena is refused — the caller treats that as
    /// the fatal shrink error.
    pub fn from_snapshot(
        root_path: String,
        memory_size_in_bytes: usize,
        block_size: usize,
        super_block: Vec<Option<Inode>>,
        memory_blocks: Vec<crate::disk::MemoryBlock>,
    ) -> (r: Option<crate::disk::Disk>)
        requires
            crate::disk::INODE_FOOTPRINT <= block_size,
            2 * block_size <= memory_size_in_bytes,
        ensures
            ({
                let quantity = memory_size_in_bytes as int / block_size as int - 1;
                let max_files = block_size as int / crate::disk::INODE_FOOTPRINT as int;
                if memory_blocks@.len() > quantity || super_block@.len() > max_files {
                    r is None
                } else {
                    &&& r matches Some(d)
                    &&& d.block_size == block_size
                    &&& d.max_files == max_files
                    &&& d.root_path@ == root_path@
                    &&& d.super_block@.len() == max_files
                    &&& d.memory_blocks@.len() == quantity
                    &&& d.super_block@.subrange(0, super_block@.len() as int) == super_block@
                    &&& forall|i: int|
                        super_block@.len() <= i < max_files ==> d.super_block@[i] is None
                    &&& d.memory_blocks@.subrange(0, memory_blocks@.len() as int)
                        == memory_blocks@
                    &&& forall|k: int|
                        memory_blocks@.len() <= k < quantity ==> d.memory_blocks@[k].data
                            is None
                }
            }),
    {
        proof {
            assert(memory_size_in_bytes as int / block_size as int >= 2) by (nonlinear_arith)
                requires
                    2 * (block_size as int) <= memory_size_in_bytes as int,
                    1 <= block_size as int,
            ;
            assert(block_size as int / crate::disk::INODE_FOOTPRINT as int >= 1)
                by (nonlinear_arith)
                requires
                    crate::disk::INODE_FOOTPRINT as int <= block_size as int,
                    1 <= crate::disk::INODE_FOOTPRINT as int,
            ;
        }
        let memory_block_quantity: usize = memory_size_in_bytes / block_size - 1;
        let max_files: usize = block_size / crate::disk::INODE_FOOTPRINT;
        if memory_blocks.len() > memory_block_quantity || super_block.len() > max_files {
            return None;
        }
        let mut super_block = super_block;
        let mut memory_blocks = memory_blocks;
        let ghost sb0 = super_block@;
        let ghost mb0 = memory_blocks@;
        while super_block.len() < max_files
            invariant
                sb0.len() <= super_block@.len() <= max_files,
                super_block@.subrange(0, sb0.len() as int) == sb0,
                forall|i: int| sb0.len() <= i < super_block@.len() ==> super_block@[i] is None,
            decreases max_files - super_block@.len(),
        {
            super_block.push(None);
            proof {
                assert(super_block@.subrange(0, sb0.len() as int) =~= sb0);
            }
        }
        while memory_blocks.len() < memory_block_quantity
            invariant
                mb0.len() <= memory_blocks@.len() <= memory_block_quantity,
                memory_blocks@.subrange(0, mb0.len() as int) == mb0,
                forall|k: int|
                    mb0.len() <= k < memory_blocks@.len() ==> memory_blocks@[k].data is None,
            decreases memory_block_quantity - memory_blocks@.len(),
        {
            memory_blocks.push(crate::disk::MemoryBlock { data: None });
            proof {
                assert(memory_blocks@.subrange(0, mb0.len() as int) =~= mb0);
            }
        }
        Some(
            crate::disk::Disk {
                super_block,
                memory_blocks,
                max_files,
                block_size,
                root_path,
            },
        )
    }
}

} // verus!
