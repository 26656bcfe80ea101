//! The laws the filesystem keeps: the standing invariants of every
//! reachable arena, and the round-trip laws of paired operations.

use vstd::prelude::*;

use crate::disk::{
    lemma_first_idx, lemma_first_idx_of, name_slot_pred, spec_free_block, spec_free_ino_slot,
    spec_free_ref, spec_name_slot, Disk,
};
use crate::fs::{
    child_name, create_ok_post, fs_inv, is_dir_slot, is_file_slot, mkdir_ok_post, ref_at,
    rmdir_ok_post, unlink_ok_post,
};
use crate::codec::{
    blocks_view, lemma_blocks_round_trip, lemma_super_round_trip, sb_view, spec_dec_blocks,
    spec_dec_super, spec_enc_blocks_v, spec_enc_super_v,
};
use crate::inode::{trim_nulls, FileKind, NAME_LEN, REF_COUNT};

verus! {

/// The two arenas are observably equal: same configuration, and slot for
/// slot the same presence, attributes, names, references and block bytes.
pub open spec fn disk_like(a: Disk, b: Disk) -> bool {
    &&& a.max_files == b.max_files
    &&& a.block_size == b.block_size
    &&& a.super_block@.len() == b.super_block@.len()
    &&& a.memory_blocks@.len() == b.memory_blocks@.len()
    &&& forall|i: int|
        0 <= i < a.super_block@.len() ==> ((#[trigger] a.super_block@[i]) is Some
            <==> b.super_block@[i] is Some)
    &&& forall|i: int|
        0 <= i < a.super_block@.len() && a.super_block@[i] is Some ==> {
            let x = (#[trigger] a.super_block@[i])->0;
            let y = b.super_block@[i]->0;
            x.attributes == y.attributes && x.name@ == y.name@ && x.references@ == y.references@
        }
    &&& forall|k: int|
        0 <= k < a.memory_blocks@.len() ==> ((#[trigger] a.memory_blocks@[k].data) is Some
            <==> b.memory_blocks@[k].data is Some)
    &&& forall|k: int|
        0 <= k < a.memory_blocks@.len() && a.memory_blocks@[k].data is Some ==> (
        #[trigger] a.memory_blocks@[k].data)->0@ == b.memory_blocks@[k].data->0@
}

/// In every arena satisfying the invariant, the root inode exists at
/// `ino = 1`, is a directory, and its name trims to `.`.
pub proof fn law_root_inode(d: Disk)
    requires
        fs_inv(d),
    ensures
        d.super_block@.len() >= 1,
        d.super_block@[0] is Some,
        d.super_block@[0]->0.attributes.kind == FileKind::Directory,
        d.super_block@[0]->0.attributes.ino == 1,
        trim_nulls(d.super_block@[0]->0.name@) == seq!['.'],
{
}

/// Every present child reference in a directory points to a present inode.
pub proof fn law_child_references_present(d: Disk)
    requires
        fs_inv(d),
    ensures
        forall|i: int, j: int|
            is_dir_slot(d, i) && 0 <= j < REF_COUNT ==> (#[trigger] ref_at(d, i, j) matches Some(
                c,
            ) ==> 1 <= c <= d.super_block@.len() && d.super_block@[c - 1] is Some),
{
}

/// Every file inode's reference slot 0 points to a present block.
pub proof fn law_file_block_present(d: Disk)
    requires
        fs_inv(d),
    ensures
        forall|i: int|
            #[trigger] is_file_slot(d, i) ==> ref_at(d, i, 0) is Some && d.memory_blocks@[ref_at(
                d,
                i,
                0,
            )->0 as int].data is Some,
{
    assert forall|i: int|
        #[trigger] is_file_slot(d, i) implies ref_at(d, i, 0) is Some && d.memory_blocks@[ref_at(
        d,
        i,
        0,
    )->0 as int].data is Some by {
        assert(ref_at(d, i, 0) matches Some(b) && b < d.memory_blocks@.len()
            && d.memory_blocks@[b as int].data is Some);
    }
}

/// Sibling names under any directory are unique after null-trimming.
pub proof fn law_sibling_names_unique(d: Disk)
    requires
        fs_inv(d),
    ensures
        forall|i: int, j1: int, j2: int|
            is_dir_slot(d, i) && 0 <= j1 < REF_COUNT && 0 <= j2 < REF_COUNT && j1 != j2 && ref_at(
                d,
                i,
                j1,
            ) is Some && ref_at(d, i, j2) is Some ==> #[trigger] child_name(d, i, j1)
                != #[trigger] child_name(d, i, j2),
{
}

/// Creating a file and unlinking it again returns the arena to its prior
/// inode and block allocation state: the two states are observably equal.
pub proof fn law_create_unlink_round_trip(
    d0: Disk,
    d1: Disk,
    d2: Disk,
    parent: int,
    name: Seq<char>,
)
    requires
        fs_inv(d0),
        1 <= parent <= d0.super_block@.len(),
        is_dir_slot(d0, parent - 1),
        forall|j: int|
            0 <= j < REF_COUNT && #[trigger] ref_at(d0, parent - 1, j) is Some ==> child_name(
                d0,
                parent - 1,
                j,
            ) != name,
        crate::disk::same_config(d0, d1),
        crate::disk::same_config(d1, d2),
        create_ok_post(d0, d1, parent, name),
        unlink_ok_post(d1, d2, parent, name),
    ensures
        disk_like(d2, d0),
{
    vstd::std_specs::vec::axiom_spec_len(&d0.super_block);
    vstd::std_specs::vec::axiom_spec_len(&d0.memory_blocks);
    let n = d0.super_block@.len() as int;
    let refs0 = d0.super_block@[parent - 1]->0.references@;
    let rs = spec_free_ref(refs0)->0;
    let ci = spec_free_ino_slot(d0.super_block@)->0;
    let bv = spec_free_block(d0.memory_blocks@)->0;
    let ch = d1.super_block@[ci]->0;
    let p2 = d1.super_block@[parent - 1]->0;
    let refs1 = p2.references@;
    lemma_first_idx(refs0, crate::disk::pred_ref_none(), 0, refs0.len() as int);
    lemma_first_idx(d0.super_block@, crate::disk::pred_slot_none(), 0, n - 1);
    lemma_first_idx(d0.memory_blocks@, crate::disk::pred_block_none(), 0,
        d0.memory_blocks@.len() - 1);
    assert(d0.super_block@[ci] is None);
    assert(d0.memory_blocks@[bv].data is None);
    assert(ci != parent - 1);
    assert(refs1 == refs0.update(rs, Some((ci + 1) as usize)));

    // The unlink resolves the very child the create linked in: every
    // earlier reference slot is occupied by an older child with another
    // name.
    assert forall|k: int| 0 <= k < rs implies !(name_slot_pred(d1, name)(refs1[k])) by {
        assert(!crate::disk::pred_ref_none()(refs0[k]));
        assert(refs0[k] is Some);
        let c = refs0[k]->0;
        assert(ref_at(d0, parent - 1, k) == Some(c));
        assert(2 <= c <= n && d0.super_block@[c - 1] is Some && c != parent);
        assert(c - 1 != ci);
        assert(d1.super_block@[c - 1] == d0.super_block@[c - 1]);
        assert(child_name(d0, parent - 1, k) != name);
        assert(refs1[k] == refs0[k]);
    }
    assert(name_slot_pred(d1, name)(refs1[rs])) by {
        assert(refs1[rs] == Some((ci + 1) as usize));
        assert(d1.super_block@[ci] == Some(ch));
        assert(trim_nulls(ch.name@) == name);
    }
    lemma_first_idx_of(refs1, name_slot_pred(d1, name), 0, refs1.len() as int, rs);
    assert(spec_name_slot(d1, refs1, name) == Some(rs));
    let j = spec_name_slot(d1, refs1, name)->0;
    assert(j == rs);
    let c = refs1[j]->0;
    assert(c == (ci + 1) as usize);
    assert(c as int == ci + 1);
    assert(ref_at(d1, c - 1, 0) == Some(bv as usize));
    let p3 = d2.super_block@[parent - 1]->0;

    assert forall|i: int|
        0 <= i < n implies ((#[trigger] d2.super_block@[i]) is Some <==> d0.super_block@[i]
        is Some) by {
        if i != ci && i != parent - 1 {
            assert(d2.super_block@[i] == d0.super_block@[i]);
        }
    }
    assert forall|i: int|
        0 <= i < n && d2.super_block@[i] is Some implies {
        let x = (#[trigger] d2.super_block@[i])->0;
        let y = d0.super_block@[i]->0;
        x.attributes == y.attributes && x.name@ == y.name@ && x.references@ == y.references@
    } by {
        if i == parent - 1 {
            assert(p3.references@ == refs1.update(rs, None));
            assert(p3.references@ =~= refs0);
        } else if i != ci {
            assert(d2.super_block@[i] == d0.super_block@[i]);
        }
    }
    assert forall|k: int|
        0 <= k < d0.memory_blocks@.len() implies ((#[trigger] d2.memory_blocks@[k].data) is Some
        <==> d0.memory_blocks@[k].data is Some) && (d2.memory_blocks@[k].data is Some
        ==> d2.memory_blocks@[k].data->0@ == d0.memory_blocks@[k].data->0@) by {
        if k != bv {
            assert(d1.memory_blocks@[k] == d0.memory_blocks@[k]);
            assert(d2.memory_blocks@[k] == d1.memory_blocks@[k]);
        }
    }
}

/// Making a directory and removing it again returns the arena to its prior
/// inode allocation state: the two states are observably equal.
pub proof fn law_mkdir_rmdir_round_trip(d0: Disk, d1: Disk, d2: Disk, parent: int, name: Seq<char>)
    requires
        fs_inv(d0),
        1 <= parent <= d0.super_block@.len(),
        is_dir_slot(d0, parent - 1),
        forall|j: int|
            0 <= j < REF_COUNT && #[trigger] ref_at(d0, parent - 1, j) is Some ==> child_name(
                d0,
                parent - 1,
                j,
            ) != name,
        crate::disk::same_config(d0, d1),
        crate::disk::same_config(d1, d2),
        mkdir_ok_post(d0, d1, parent, name),
        rmdir_ok_post(d1, d2, parent, name),
    ensures
        disk_like(d2, d0),
{
    vstd::std_specs::vec::axiom_spec_len(&d0.super_block);
    let n = d0.super_block@.len() as int;
    let refs0 = d0.super_block@[parent - 1]->0.references@;
    let rs = spec_free_ref(refs0)->0;
    let ci = spec_free_ino_slot(d0.super_block@)->0;
    let ch = d1.super_block@[ci]->0;
    let p2 = d1.super_block@[parent - 1]->0;
    let refs1 = p2.references@;
    lemma_first_idx(refs0, crate::disk::pred_ref_none(), 0, refs0.len() as int);
    lemma_first_idx(d0.super_block@, crate::disk::pred_slot_none(), 0, n - 1);
    assert(d0.super_block@[ci] is None);
    assert(ci != parent - 1);
    assert(refs1 == refs0.update(rs, Some((ci + 1) as usize)));

    assert forall|k: int| 0 <= k < rs implies !(name_slot_pred(d1, name)(refs1[k])) by {
        assert(!crate::disk::pred_ref_none()(refs0[k]));
        assert(refs0[k] is Some);
        let c = refs0[k]->0;
        assert(ref_at(d0, parent - 1, k) == Some(c));
        assert(2 <= c <= n && d0.super_block@[c - 1] is Some && c != parent);
        assert(c - 1 != ci);
        assert(d1.super_block@[c - 1] == d0.super_block@[c - 1]);
        assert(child_name(d0, parent - 1, k) != name);
        assert(refs1[k] == refs0[k]);
    }
    assert(name_slot_pred(d1, name)(refs1[rs])) by {
        assert(refs1[rs] == Some((ci + 1) as usize));
        assert(d1.super_block@[ci] == Some(ch));
        assert(trim_nulls(ch.name@) == name);
    }
    lemma_first_idx_of(refs1, name_slot_pred(d1, name), 0, refs1.len() as int, rs);
    let j = spec_name_slot(d1, refs1, name)->0;
    assert(j == rs);
    let c = refs1[j]->0;
    assert(c as int == ci + 1);
    let p3 = d2.super_block@[parent - 1]->0;

    assert forall|i: int|
        0 <= i < n implies ((#[trigger] d2.super_block@[i]) is Some <==> d0.super_block@[i]
        is Some) by {
        if i != ci && i != parent - 1 {
            assert(d2.super_block@[i] == d0.super_block@[i]);
        }
    }
    assert forall|i: int|
        0 <= i < n && d2.super_block@[i] is Some implies {
        let x = (#[trigger] d2.super_block@[i])->0;
        let y = d0.super_block@[i]->0;
        x.attributes == y.attributes && x.name@ == y.name@ && x.references@ == y.references@
    } by {
        if i == parent - 1 {
            assert(p3.references@ == refs1.update(rs, None));
            assert(p3.references@ =~= refs0);
        } else if i != ci {
            assert(d2.super_block@[i] == d0.super_block@[i]);
        }
    }
}

/// Slot views of a well-formed arena carry the fixed array widths, and its
/// block views fit in memory; its two streams therefore decode again.
proof fn lemma_wf_streams_decode(d: Disk)
    requires
        d.wf(),
    ensures
        spec_dec_super(spec_enc_super_v(sb_view(d.super_block@))) == Some(sb_view(d.super_block@)),
        spec_dec_blocks(spec_enc_blocks_v(blocks_view(d.memory_blocks@))) == Some(
            blocks_view(d.memory_blocks@),
        ),
{
    vstd::std_specs::vec::axiom_spec_len(&d.super_block);
    vstd::std_specs::vec::axiom_spec_len(&d.memory_blocks);
    let sv = sb_view(d.super_block@);
    let bv = blocks_view(d.memory_blocks@);
    assert forall|i: int|
        0 <= i < sv.len() implies (#[trigger] sv[i] matches Some(t) ==> t.0.len() == NAME_LEN
        && t.2.len() == REF_COUNT) by {
        if d.super_block@[i] is Some {
            assert(d.super_block@[i] matches Some(ind) && ind.wf());
        }
    }
    assert forall|k: int|
        0 <= k < bv.len() implies (#[trigger] bv[k] matches Some(dd) ==> dd.len()
        <= usize::MAX) by {
        if d.memory_blocks@[k].data is Some {
            vstd::std_specs::vec::axiom_spec_len(&d.memory_blocks@[k].data->0);
        }
    }
    lemma_super_round_trip(sv);
    lemma_blocks_round_trip(bv);
}

/// Serialize, deserialize, serialize: the second serialization is
/// byte-identical to the first, for both snapshot streams.
pub proof fn law_snapshot_round_trip(d: Disk)
    requires
        d.wf(),
    ensures
        ({
            let bytes = spec_enc_super_v(sb_view(d.super_block@));
            spec_dec_super(bytes) matches Some(sv) && spec_enc_super_v(sv) == bytes
        }),
        ({
            let bytes = spec_enc_blocks_v(blocks_view(d.memory_blocks@));
            spec_dec_blocks(bytes) matches Some(bv) && spec_enc_blocks_v(bv) == bytes
        }),
{
    lemma_wf_streams_decode(d);
}

/// Dismounting and remounting — encoding both streams, decoding them, and
/// rebuilding an arena of the same configuration from the decoded arrays —
/// preserves every observable directory content, file byte and attribute,
/// and the filesystem invariant.
pub proof fn law_remount_preserves_state(d: Disk, d2: Disk)
    requires
        fs_inv(d),
        crate::disk::same_config(d, d2),
        Some(sb_view(d2.super_block@)) == spec_dec_super(
            spec_enc_super_v(sb_view(d.super_block@)),
        ),
        Some(blocks_view(d2.memory_blocks@)) == spec_dec_blocks(
            spec_enc_blocks_v(blocks_view(d.memory_blocks@)),
        ),
    ensures
        disk_like(d2, d),
        fs_inv(d2),
{
    lemma_wf_streams_decode(d);
    let n = d.super_block@.len() as int;
    assert(sb_view(d2.super_block@) == sb_view(d.super_block@));
    assert(blocks_view(d2.memory_blocks@) == blocks_view(d.memory_blocks@));
    assert(sb_view(d2.super_block@).len() == d2.super_block@.len());
    assert(blocks_view(d2.memory_blocks@).len() == d2.memory_blocks@.len());
    assert forall|i: int|
        0 <= i < n implies ((#[trigger] d2.super_block@[i]) is Some <==> d.super_block@[i]
        is Some) && (d.super_block@[i] is Some ==> {
        let x = d2.super_block@[i]->0;
        let y = d.super_block@[i]->0;
        x.attributes == y.attributes && x.name@ == y.name@ && x.references@ == y.references@
    }) by {
        assert(sb_view(d2.super_block@)[i] == sb_view(d.super_block@)[i]);
    }
    assert forall|k: int|
        0 <= k < d.memory_blocks@.len() implies ((#[trigger] d2.memory_blocks@[k].data) is Some
        <==> d.memory_blocks@[k].data is Some) && (d.memory_blocks@[k].data is Some
        ==> d2.memory_blocks@[k].data->0@ == d.memory_blocks@[k].data->0@) by {
        assert(blocks_view(d2.memory_blocks@)[k] == blocks_view(d.memory_blocks@)[k]);
    }
    assert forall|k: int|
        0 <= k < d2.memory_blocks@.len() implies (#[trigger] d2.memory_blocks@[k].data
        matches Some(dd) ==> dd@.len() <= d2.block_size) by {
        if d2.memory_blocks@[k].data is Some {
            assert(d.memory_blocks@[k].data matches Some(pd) && pd@.len() <= d.block_size);
        }
    }
    crate::fs::lemma_inv_same_shape(d, d2);
}

} // verus!
