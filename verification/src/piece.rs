use vstd::prelude::*;

use crate::digest::{sha1_digest, sha1_of};
use crate::error::Error;
use crate::pipeline::{
    block_count_of, empty_slots, slot_of, slots_store, slots_view, Block, BlockPipeline,
    BlockView, BLOCK_SIZE,
};

verus! {

/// A run of zero bytes.
pub open spec fn zero_seq(n: int) -> Seq<u8> {
    Seq::new(n as nat, |j: int| 0u8)
}

/// The piece bytes after one block is copied in at its offset: positions
/// covered by the block (and inside the piece) take the block's bytes, every
/// other position keeps its value.
pub open spec fn write_block(piece: Seq<u8>, begin: int, data: Seq<u8>) -> Seq<u8> {
    Seq::new(
        piece.len(),
        |j: int|
            if begin <= j && j < begin + data.len() {
                data[j - begin]
            } else {
                piece[j]
            },
    )
}

/// The piece bytes after one slot is copied in: a filled slot contributes
/// its block at the block's own offset, an empty slot contributes a
/// block-sized run of zeroes at the slot's position.
pub open spec fn slot_write(piece: Seq<u8>, slot: Option<BlockView>, i: int) -> Seq<u8> {
    match slot {
        Option::Some(b) => write_block(piece, b.begin as int, b.block),
        Option::None => write_block(piece, i * BLOCK_SIZE, zero_seq(BLOCK_SIZE as int)),
    }
}

/// The piece bytes after the first `k` slots are copied, in slot order, over
/// an all-zero piece.
pub open spec fn assemble_prefix(slots: Seq<Option<BlockView>>, piece_length: int, k: int) -> Seq<
    u8,
>
    decreases k,
{
    if k <= 0 {
        zero_seq(piece_length)
    } else {
        slot_write(assemble_prefix(slots, piece_length, k - 1), slots[k - 1], k - 1)
    }
}

/// The piece bytes a slot array reconstructs.
pub open spec fn assembled(slots: Seq<Option<BlockView>>, piece_length: int) -> Seq<u8> {
    assemble_prefix(slots, piece_length, slots.len() as int)
}

/// Whether two byte vectors hold the same bytes.
fn bytes_equal(a: &Vec<u8>, b: &Vec<u8>) -> (r: bool)
    ensures
        r == (a@ == b@),
{
    if a.len() != b.len() {
        proof {
            assert(a@.len() != b@.len());
        }
        return false;
    }
    let mut i: usize = 0;
    while i < a.len()
        invariant
            i <= a@.len(),
            a@.len() == b@.len(),
            forall|k: int| 0 <= k < i ==> a@[k] == b@[k],
        decreases a@.len() - i,
    {
        if a[i] != b[i] {
            return false;
        }
        i = i + 1;
    }
    proof {
        assert(a@ =~= b@);
    }
    true
}

/// Reassembles a piece from its slot array and verifies it against the
/// piece's published 20-byte fingerprint. Empty slots are filled with
/// zeroes. Succeeds, returning the assembled bytes, exactly when the
/// digest of the assembled bytes equals the fingerprint; any other outcome
/// is a hash mismatch, fatal to the job.
pub fn combine_blocks_into_piece(
    piece_blocks: &Vec<Option<Block>>,
    piece_length: u32,
    piece_index: u32,
    piece_hash: &Vec<u8>,
) -> (r: Result<Vec<u8>, Error>)
    requires
        piece_length >= 1,
        piece_blocks@.len() == block_count_of(piece_length),
        forall|i: int|
            0 <= i < piece_blocks@.len() ==> match #[trigger] piece_blocks@[i] {
                Option::Some(b) => b.begin + b.block@.len() <= usize::MAX,
                Option::None => true,
            },
    ensures
        r is Ok <==> sha1_of(assembled(slots_view(piece_blocks@), piece_length as int))
            == piece_hash@,
        match r {
            Ok(p) => p@ == assembled(slots_view(piece_blocks@), piece_length as int),
            Err(e) => e == Error::HashMismatch,
        },
{
    let ghost slots = slots_view(piece_blocks@);
    let mut piece: Vec<u8> = Vec::new();
    let mut z: usize = 0;
    while z < piece_length as usize
        invariant
            z <= piece_length,
            piece@ =~= zero_seq(z as int),
        decreases piece_length - z,
    {
        piece.push(0);
        proof {
            assert(piece@ =~= zero_seq(z + 1));
        }
        z = z + 1;
    }
    proof {
        assert(piece@ =~= zero_seq(piece_length as int));
    }
    let mut s: usize = 0;
    while s < piece_blocks.len()
        invariant
            s <= piece_blocks@.len(),
            slots == slots_view(piece_blocks@),
            piece_length >= 1,
            piece_blocks@.len() == block_count_of(piece_length),
            forall|i: int|
                0 <= i < piece_blocks@.len() ==> match #[trigger] piece_blocks@[i] {
                    Option::Some(b) => b.begin + b.block@.len() <= usize::MAX,
                    Option::None => true,
                },
            piece@.len() == piece_length,
            piece@ == assemble_prefix(slots, piece_length as int, s as int),
        decreases piece_blocks@.len() - s,
    {
        let ghost piece_before = piece@;
        match &piece_blocks[s] {
            Option::Some(b) => {
                let start: usize = b.begin as usize;
                let data = &b.block;
                let mut j: usize = 0;
                while j < data.len()
                    invariant
                        j <= data@.len(),
                        start + data@.len() <= usize::MAX,
                        piece@.len() == piece_before.len(),
                        piece@ =~= write_block(piece_before, start as int, data@.take(j as int)),
                    decreases data@.len() - j,
                {
                    if start + j < piece.len() {
                        let idx: usize = start + j;
                        let v: u8 = data[j];
                        piece[idx] = v;
                    }
                    proof {
                        assert(piece@ =~= write_block(
                            piece_before,
                            start as int,
                            data@.take(j + 1),
                        ));
                    }
                    j = j + 1;
                }
                proof {
                    assert(data@.take(data@.len() as int) =~= data@);
                    assert(piece@ =~= slot_write(piece_before, slots[s as int], s as int));
                }
            },
            Option::None => {
                proof {
                    crate::metadata::lemma_piece_count_bounds(piece_length, BLOCK_SIZE);
                    assert(s as int * BLOCK_SIZE <= (block_count_of(piece_length) - 1)
                        * BLOCK_SIZE) by (nonlinear_arith)
                        requires
                            s as int <= block_count_of(piece_length) - 1,
                    ;
                }
                let start: usize = s * (BLOCK_SIZE as usize);
                let mut j: usize = 0;
                while j < BLOCK_SIZE as usize
                    invariant
                        j <= BLOCK_SIZE,
                        start < piece_length,
                        piece@.len() == piece_before.len(),
                        piece@.len() == piece_length,
                        piece@ =~= write_block(piece_before, start as int, zero_seq(j as int)),
                    decreases BLOCK_SIZE - j,
                {
                    if j < piece.len() - start {
                        let idx: usize = start + j;
                        piece[idx] = 0;
                    }
                    proof {
                        assert(piece@ =~= write_block(
                            piece_before,
                            start as int,
                            zero_seq(j + 1),
                        ));
                    }
                    j = j + 1;
                }
                proof {
                    assert(piece@ =~= slot_write(piece_before, slots[s as int], s as int));
                }
            },
        }
        s = s + 1;
    }
    proof {
        assert(piece@ == assembled(slots, piece_length as int));
    }
    let digest = sha1_digest(&piece);
    if bytes_equal(&digest, piece_hash) {
        Ok(piece)
    } else {
        Err(Error::HashMismatch)
    }
}

/// The slot contents after a sequence of blocks is stored one by one, in
/// order: exactly what repeated calls of the pipeline's message handler
/// compute.
pub open spec fn store_seq(slots: Seq<Option<BlockView>>, msgs: Seq<BlockView>) -> Seq<
    Option<BlockView>,
>
    decreases msgs.len(),
{
    if msgs.len() == 0 {
        slots
    } else {
        store_seq(slots_store(slots, msgs[0]), msgs.drop_first())
    }
}

/// Storing one more block at the end of the sequence is one more store on
/// the result.
pub proof fn lemma_store_seq_push(
    slots: Seq<Option<BlockView>>,
    msgs: Seq<BlockView>,
    b: BlockView,
)
    ensures
        store_seq(slots, msgs.push(b)) == slots_store(store_seq(slots, msgs), b),
    decreases msgs.len(),
{
    if msgs.len() == 0 {
        assert(msgs.push(b)[0] == b);
        assert(msgs.push(b).drop_first() =~= Seq::<BlockView>::empty());
        assert(store_seq(slots, msgs.push(b)) == store_seq(
            slots_store(slots, b),
            Seq::<BlockView>::empty(),
        ));
        assert(store_seq(slots_store(slots, b), Seq::<BlockView>::empty()) == slots_store(
            slots,
            b,
        ));
        assert(store_seq(slots, msgs) == slots);
    } else {
        assert(msgs.push(b)[0] == msgs[0]);
        assert(msgs.push(b).drop_first() =~= msgs.drop_first().push(b));
        lemma_store_seq_push(slots_store(slots, msgs[0]), msgs.drop_first(), b);
        assert(store_seq(slots, msgs.push(b)) == store_seq(
            slots_store(slots, msgs[0]),
            msgs.drop_first().push(b),
        ));
        assert(store_seq(slots_store(slots, msgs[0]), msgs.drop_first().push(b)) == slots_store(
            store_seq(slots_store(slots, msgs[0]), msgs.drop_first()),
            b,
        ));
        assert(store_seq(slots, msgs) == store_seq(
            slots_store(slots, msgs[0]),
            msgs.drop_first(),
        ));
    }
}

/// Storing blocks never changes how many slots there are.
proof fn lemma_store_seq_len(slots: Seq<Option<BlockView>>, msgs: Seq<BlockView>)
    requires
        slots_in_range(msgs, slots.len() as int),
    ensures
        store_seq(slots, msgs).len() == slots.len(),
    decreases msgs.len(),
{
    if msgs.len() > 0 {
        let rest = msgs.drop_first();
        let slots1 = slots_store(slots, msgs[0]);
        assert(slots_in_range(rest, slots1.len() as int)) by {
            assert forall|j: int| 0 <= j < rest.len() implies 0 <= #[trigger] slot_of(rest[j])
                < slots1.len() by {
                assert(rest[j] == msgs[j + 1]);
            }
        }
        lemma_store_seq_len(slots1, rest);
    }
}

/// No two blocks of the sequence land in the same slot.
pub open spec fn distinct_slots(msgs: Seq<BlockView>) -> bool {
    forall|j1: int, j2: int|
        0 <= j1 < j2 < msgs.len() ==> slot_of(msgs[j1]) != slot_of(msgs[j2])
}

/// Every block of the sequence lands in an existing slot.
pub open spec fn slots_in_range(msgs: Seq<BlockView>, n: int) -> bool {
    forall|j: int| 0 <= j < msgs.len() ==> 0 <= #[trigger] slot_of(msgs[j]) < n
}

/// What each slot holds after a duplicate-free sequence of blocks is
/// stored: the block that picked it, or its old value if none did.
proof fn lemma_store_seq_elem(slots: Seq<Option<BlockView>>, msgs: Seq<BlockView>, k: int)
    requires
        distinct_slots(msgs),
        slots_in_range(msgs, slots.len() as int),
        0 <= k < slots.len(),
    ensures
        (forall|j: int| 0 <= j < msgs.len() ==> slot_of(msgs[j]) != k) ==> store_seq(slots, msgs)[k]
            == slots[k],
        forall|j: int|
            0 <= j < msgs.len() && slot_of(msgs[j]) == k ==> store_seq(slots, msgs)[k]
                == Option::Some(msgs[j]),
        store_seq(slots, msgs).len() == slots.len(),
    decreases msgs.len(),
{
    if msgs.len() == 0 {
    } else {
        let b = msgs[0];
        let rest = msgs.drop_first();
        let slots1 = slots_store(slots, b);
        assert(slots1.len() == slots.len());
        assert(distinct_slots(rest)) by {
            assert forall|j1: int, j2: int| 0 <= j1 < j2 < rest.len() implies slot_of(rest[j1])
                != slot_of(rest[j2]) by {
                assert(rest[j1] == msgs[j1 + 1]);
                assert(rest[j2] == msgs[j2 + 1]);
            }
        }
        assert(slots_in_range(rest, slots1.len() as int)) by {
            assert forall|j: int| 0 <= j < rest.len() implies 0 <= #[trigger] slot_of(rest[j])
                < slots1.len() by {
                assert(rest[j] == msgs[j + 1]);
            }
        }
        lemma_store_seq_elem(slots1, rest, k);
        if slot_of(b) == k {
            assert forall|j: int| 0 <= j < rest.len() implies slot_of(rest[j]) != k by {
                assert(rest[j] == msgs[j + 1]);
            }
            assert(store_seq(slots, msgs)[k] == slots1[k]);
            assert(slots1[k] == Option::Some(b));
            assert forall|j: int| 0 <= j < msgs.len() && slot_of(msgs[j]) == k implies store_seq(
                slots,
                msgs,
            )[k] == Option::Some(msgs[j]) by {
                if j > 0 {
                    assert(slot_of(msgs[0]) == slot_of(msgs[j]));
                    assert(false);
                }
            }
        } else {
            assert(slots1[k] == slots[k]);
            assert forall|j: int| 0 <= j < msgs.len() && slot_of(msgs[j]) == k implies store_seq(
                slots,
                msgs,
            )[k] == Option::Some(msgs[j]) by {
                assert(j != 0);
                assert(rest[j - 1] == msgs[j]);
            }
            if forall|j: int| 0 <= j < msgs.len() ==> slot_of(msgs[j]) != k {
                assert forall|j: int| 0 <= j < rest.len() implies slot_of(rest[j]) != k by {
                    assert(rest[j] == msgs[j + 1]);
                }
            }
        }
    }
}

/// Reconstruction is order-independent: storing the same duplicate-free set
/// of blocks in any receive order fills the slots identically, so the
/// reassembled piece bytes are identical too.
pub proof fn lemma_reassembly_order_independent(
    slots: Seq<Option<BlockView>>,
    m1: Seq<BlockView>,
    m2: Seq<BlockView>,
    piece_length: int,
)
    requires
        distinct_slots(m1),
        distinct_slots(m2),
        slots_in_range(m1, slots.len() as int),
        slots_in_range(m2, slots.len() as int),
        forall|b: BlockView| m1.contains(b) <==> m2.contains(b),
    ensures
        store_seq(slots, m1) == store_seq(slots, m2),
        assembled(store_seq(slots, m1), piece_length) == assembled(
            store_seq(slots, m2),
            piece_length,
        ),
{
    let r1 = store_seq(slots, m1);
    let r2 = store_seq(slots, m2);
    assert forall|k: int| 0 <= k < slots.len() implies r1[k] == r2[k] by {
        lemma_store_seq_elem(slots, m1, k);
        lemma_store_seq_elem(slots, m2, k);
        if exists|j: int| 0 <= j < m1.len() && slot_of(m1[j]) == k {
            let j1 = choose|j: int| 0 <= j < m1.len() && slot_of(m1[j]) == k;
            assert(m1.contains(m1[j1]));
            assert(m2.contains(m1[j1]));
            let j2 = choose|j: int| 0 <= j < m2.len() && m2[j] == m1[j1];
            assert(slot_of(m2[j2]) == k);
            assert(r1[k] == Option::Some(m1[j1]));
            assert(r2[k] == Option::Some(m2[j2]));
        } else {
            assert forall|j: int| 0 <= j < m2.len() implies slot_of(m2[j]) != k by {
                if slot_of(m2[j]) == k {
                    assert(m2.contains(m2[j]));
                    assert(m1.contains(m2[j]));
                    let ji = choose|i: int| 0 <= i < m1.len() && m1[i] == m2[j];
                    assert(slot_of(m1[ji]) == k);
                }
            }
            assert(r1[k] == slots[k]);
            assert(r2[k] == slots[k]);
        }
    }
    lemma_store_seq_len(slots, m1);
    lemma_store_seq_len(slots, m2);
    assert(r1 =~= r2);
}

/// Piece reconstruction is deterministic: two pipelines for the same piece
/// that filed the same duplicate-free set of blocks, in whatever receive
/// order, hold identical slot arrays, and so reassemble byte-identical
/// pieces.
pub proof fn lemma_pipeline_reconstruction_deterministic(p1: BlockPipeline, p2: BlockPipeline)
    requires
        p1.consistent(),
        p2.consistent(),
        p1.blocks@.len() == p2.blocks@.len(),
        distinct_slots(p1.received@),
        distinct_slots(p2.received@),
        forall|b: BlockView| p1.received@.contains(b) <==> p2.received@.contains(b),
    ensures
        slots_view(p1.blocks@) == slots_view(p2.blocks@),
        assembled(slots_view(p1.blocks@), p1.piece_length as int) == assembled(
            slots_view(p2.blocks@),
            p1.piece_length as int,
        ),
{
    let n = p1.blocks@.len() as int;
    lemma_reassembly_order_independent(
        empty_slots(n),
        p1.received@,
        p2.received@,
        p1.piece_length as int,
    );
}

} // verus!
