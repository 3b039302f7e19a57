use vstd::prelude::*;

use crate::bytes::{be_bytes_of_u32_seq, bytes_to_u32, u32_of_be, u32_slice_to_bytes};
use crate::error::Error;
use crate::messages::{encode_frame, encode_message, Message, MessageView};
use crate::metadata::{
    lemma_piece_count_alt, lemma_piece_count_bounds, lemma_piece_geometry, piece_count_of,
    piece_len_of,
};

verus! {

/// The fixed number of bytes requested per block: every block of a piece has
/// this length except possibly the last.
pub const BLOCK_SIZE: u32 = 16384;

/// How many requests stay in flight at once.
pub const PIPELINE_DEPTH: usize = 5;

/// The wire id of a `piece` message.
pub const PIECE_ID: u8 = 7;

/// How many blocks a piece of this length has: the division by the block
/// size, rounded up.
pub open spec fn block_count_of(piece_length: u32) -> int {
    piece_count_of(piece_length, BLOCK_SIZE)
}

/// The exact byte length of block `i` of a piece: the block size for every
/// block but the last, and whatever remains of the piece for the last.
pub open spec fn block_len_of(piece_length: u32, i: int) -> int {
    piece_len_of(piece_length, BLOCK_SIZE, i)
}

/// The request message for block `i` of a piece: id 6 with a payload of
/// three big-endian 32-bit values, the piece index, the block's byte offset
/// inside the piece, and the block's length.
pub open spec fn request_view(piece_index: u32, piece_length: u32, i: int) -> MessageView {
    MessageView {
        length: 13,
        id: 6,
        payload: be_bytes_of_u32_seq(
            seq![
                piece_index,
                (i * BLOCK_SIZE) as u32,
                block_len_of(piece_length, i) as u32,
            ],
        ),
    }
}

/// The shape of the request set for a piece of length `L`: exactly
/// `ceil(L / BLOCK_SIZE)` blocks are requested; each has length
/// `BLOCK_SIZE` except the last, whose length is `L mod BLOCK_SIZE`, or
/// `BLOCK_SIZE` when that remainder is zero.
pub proof fn lemma_request_set_shape(piece_length: u32)
    requires
        piece_length >= 1,
    ensures
        block_count_of(piece_length) == (piece_length + BLOCK_SIZE - 1) as int / (
        BLOCK_SIZE as int),
        forall|i: int|
            0 <= i < block_count_of(piece_length) - 1 ==> #[trigger] block_len_of(piece_length, i)
                == BLOCK_SIZE,
        block_len_of(piece_length, block_count_of(piece_length) - 1) == if piece_length as int % (
        BLOCK_SIZE as int) == 0 {
            BLOCK_SIZE as int
        } else {
            piece_length as int % (BLOCK_SIZE as int)
        },
{
    crate::metadata::lemma_last_piece_remainder(piece_length, BLOCK_SIZE);
}

/// Builds the encoded request frames for every block of a piece, in block
/// order: `ceil(piece_length / BLOCK_SIZE)` requests, each asking for
/// `BLOCK_SIZE` bytes except the last, which asks for the remainder.
pub fn get_piece_blocks_messages(piece_index: u32, piece_length: u32) -> (r: Vec<Vec<u8>>)
    requires
        piece_length >= 1,
    ensures
        r@.len() == block_count_of(piece_length),
        forall|i: int|
            0 <= i < r@.len() ==> (#[trigger] r@[i])@ == encode_frame(
                request_view(piece_index, piece_length, i),
            ),
{
    proof {
        lemma_piece_count_alt(piece_length, BLOCK_SIZE);
        lemma_piece_count_bounds(piece_length, BLOCK_SIZE);
        lemma_piece_geometry(piece_length, BLOCK_SIZE);
    }
    let chunks: usize = (((piece_length - 1) / BLOCK_SIZE) + 1) as usize;
    let mut messages_to_send: Vec<Vec<u8>> = Vec::new();
    let mut i: usize = 0;
    while i < chunks
        invariant
            piece_length >= 1,
            chunks == block_count_of(piece_length),
            i <= chunks,
            messages_to_send@.len() == i,
            forall|k: int|
                0 <= k < i ==> (#[trigger] messages_to_send@[k])@ == encode_frame(
                    request_view(piece_index, piece_length, k),
                ),
        decreases chunks - i,
    {
        proof {
            lemma_piece_count_bounds(piece_length, BLOCK_SIZE);
            lemma_piece_geometry(piece_length, BLOCK_SIZE);
            assert(i as int * BLOCK_SIZE <= (block_count_of(piece_length) - 1) * BLOCK_SIZE)
                by (nonlinear_arith)
                requires
                    i as int <= block_count_of(piece_length) - 1,
            ;
        }
        let begin: u32 = (i as u32) * BLOCK_SIZE;
        let len: u32 = if i == chunks - 1 {
            piece_length - begin
        } else {
            BLOCK_SIZE
        };
        let payload = u32_slice_to_bytes(&[piece_index, begin, len]);
        proof {
            assert(seq![piece_index, begin, len] =~= (&[piece_index, begin, len])@);
        }
        let frame = encode_message(&Message { length: 13, id: 6, payload });
        messages_to_send.push(frame);
        i = i + 1;
    }
    messages_to_send
}

/// One block received from a peer: which piece it belongs to, its byte
/// offset inside that piece, and its bytes.
#[derive(Debug, Clone)]
pub struct Block {
    pub piece_index: u32,
    pub begin: u32,
    pub block: Vec<u8>,
}

/// The mathematical content of a [`Block`].
pub ghost struct BlockView {
    pub piece_index: u32,
    pub begin: u32,
    pub block: Seq<u8>,
}

impl View for Block {
    type V = BlockView;

    open spec fn view(&self) -> BlockView {
        BlockView { piece_index: self.piece_index, begin: self.begin, block: self.block@ }
    }
}

/// The mathematical content of a slot array.
pub open spec fn slots_view(blocks: Seq<Option<Block>>) -> Seq<Option<BlockView>> {
    Seq::new(
        blocks.len(),
        |i: int|
            match blocks[i] {
                Option::Some(b) => Option::Some(b@),
                Option::None => Option::None,
            },
    )
}

/// A slot array with nothing received yet.
pub open spec fn empty_slots(n: int) -> Seq<Option<BlockView>> {
    Seq::new(n as nat, |i: int| Option::<BlockView>::None)
}

/// The slot a block's offset picks: its offset divided by the block size.
pub open spec fn slot_of(b: BlockView) -> int {
    b.begin as int / (BLOCK_SIZE as int)
}

/// The slot contents after storing one block: the slot its offset picks is
/// overwritten, every other slot keeps its value.
pub open spec fn slots_store(slots: Seq<Option<BlockView>>, b: BlockView) -> Seq<
    Option<BlockView>,
> {
    slots.update(slot_of(b), Option::Some(b))
}

/// [`slots_store`], with the block given by its parts.
pub open spec fn slots_after(
    slots: Seq<Option<BlockView>>,
    piece_index: u32,
    begin: u32,
    data: Seq<u8>,
) -> Seq<Option<BlockView>> {
    slots_store(slots, BlockView { piece_index, begin, block: data })
}

/// Drives the bounded-window block-request cycle for one piece: hands out
/// the request frames in order, and files each received `piece` message into
/// the slot its offset picks. The caller sends what `next_to_send` hands it,
/// feeds every received message to `on_message`, and stops after
/// `block_count` qualifying messages, when `done` holds.
pub struct BlockPipeline {
    pub piece_index: u32,
    pub piece_length: u32,
    pub requests: Vec<Vec<u8>>,
    pub next_request: usize,
    pub attempts_done: usize,
    pub blocks: Vec<Option<Block>>,
    /// The blocks filed so far, in receive order; only the proof sees it.
    pub received: Ghost<Seq<BlockView>>,
}

impl BlockPipeline {
    /// The pipeline's invariant: one slot and one request frame per block,
    /// the hand-out and attempt counters in range, and every filled slot
    /// holding a block whose offset picks that slot.
    pub open spec fn wf(self) -> bool {
        &&& self.piece_length >= 1
        &&& self.blocks@.len() == block_count_of(self.piece_length)
        &&& self.requests@.len() == block_count_of(self.piece_length)
        &&& self.next_request <= self.requests@.len()
        &&& self.attempts_done <= self.blocks@.len()
        &&& forall|i: int|
            0 <= i < self.requests@.len() ==> (#[trigger] self.requests@[i])@ == encode_frame(
                request_view(self.piece_index, self.piece_length, i),
            )
        &&& forall|i: int|
            0 <= i < self.blocks@.len() ==> match #[trigger] self.blocks@[i] {
                Option::Some(b) => b@.begin as int / (BLOCK_SIZE as int) == i,
                Option::None => true,
            }
    }

    /// The slot array is exactly what storing the received blocks, in
    /// receive order, over an empty slot array computes.
    pub open spec fn consistent(self) -> bool {
        &&& crate::piece::slots_in_range(self.received@, self.blocks@.len() as int)
        &&& slots_view(self.blocks@) == crate::piece::store_seq(
            empty_slots(self.blocks@.len() as int),
            self.received@,
        )
    }

    /// A fresh pipeline for one piece: all slots empty, no request handed
    /// out yet, no attempt counted.
    pub fn new(piece_index: u32, piece_length: u32) -> (r: BlockPipeline)
        requires
            piece_length >= 1,
        ensures
            r.wf(),
            r.consistent(),
            r.piece_index == piece_index,
            r.piece_length == piece_length,
            r.next_request == 0,
            r.attempts_done == 0,
            r.received@ == Seq::<BlockView>::empty(),
            forall|i: int| 0 <= i < r.blocks@.len() ==> (#[trigger] r.blocks@[i]) is None,
    {
        let requests = get_piece_blocks_messages(piece_index, piece_length);
        let count = requests.len();
        let mut blocks: Vec<Option<Block>> = Vec::new();
        let mut i: usize = 0;
        while i < count
            invariant
                i <= count,
                blocks@.len() == i,
                forall|k: int| 0 <= k < i ==> (#[trigger] blocks@[k]) is None,
            decreases count - i,
        {
            blocks.push(Option::None);
            i = i + 1;
        }
        let r = BlockPipeline {
            piece_index,
            piece_length,
            requests,
            next_request: 0,
            attempts_done: 0,
            blocks,
            received: Ghost(Seq::empty()),
        };
        proof {
            assert(slots_view(r.blocks@) =~= empty_slots(r.blocks@.len() as int));
        }
        r
    }

    /// Hands out the next request frame that has not been sent yet, or
    /// nothing once all have been handed out. Everything else is unchanged.
    pub fn next_to_send(&mut self) -> (r: Option<Vec<u8>>)
        requires
            old(self).wf(),
        ensures
            final(self).wf(),
            final(self).piece_index == old(self).piece_index,
            final(self).piece_length == old(self).piece_length,
            final(self).requests@ == old(self).requests@,
            final(self).attempts_done == old(self).attempts_done,
            final(self).blocks@ == old(self).blocks@,
            final(self).received@ == old(self).received@,
            old(self).consistent() ==> final(self).consistent(),
            if old(self).next_request < old(self).requests@.len() {
                &&& final(self).next_request == old(self).next_request + 1
                &&& match r {
                    Option::Some(f) => f@ == encode_frame(
                        request_view(
                            old(self).piece_index,
                            old(self).piece_length,
                            old(self).next_request as int,
                        ),
                    ),
                    Option::None => false,
                }
            } else {
                &&& final(self).next_request == old(self).next_request
                &&& r is None
            },
    {
        if self.next_request < self.requests.len() {
            let frame = self.requests[self.next_request].clone();
            proof {
                assert(frame@ =~= self.requests@[self.next_request as int]@);
            }
            self.next_request = self.next_request + 1;
            Option::Some(frame)
        } else {
            Option::None
        }
    }

    /// Files one received message. A message whose id is not `piece` is
    /// skipped and does not count toward the attempt budget. A `piece`
    /// message must carry at least the eight offset bytes and must pick an
    /// existing slot, else it is a protocol error and nothing changes; a
    /// well-formed one overwrites its slot and counts one attempt.
    pub fn on_message(&mut self, msg: &Message) -> (r: Result<bool, Error>)
        requires
            old(self).wf(),
            old(self).attempts_done < old(self).blocks@.len(),
        ensures
            final(self).wf(),
            final(self).piece_index == old(self).piece_index,
            final(self).piece_length == old(self).piece_length,
            final(self).requests@ == old(self).requests@,
            final(self).next_request == old(self).next_request,
            old(self).consistent() ==> final(self).consistent(),
            match r {
                Ok(true) => {
                    &&& msg.id == PIECE_ID
                    &&& msg.payload@.len() >= 8
                    &&& u32_of_be(msg.payload@.subrange(4, 8)) as int / (BLOCK_SIZE as int)
                        < old(self).blocks@.len()
                    &&& slots_view(final(self).blocks@) == slots_after(
                        slots_view(old(self).blocks@),
                        u32_of_be(msg.payload@.subrange(0, 4)) as u32,
                        u32_of_be(msg.payload@.subrange(4, 8)) as u32,
                        msg.payload@.skip(8),
                    )
                    &&& final(self).received@ == old(self).received@.push(
                        BlockView {
                            piece_index: u32_of_be(msg.payload@.subrange(0, 4)) as u32,
                            begin: u32_of_be(msg.payload@.subrange(4, 8)) as u32,
                            block: msg.payload@.skip(8),
                        },
                    )
                    &&& final(self).attempts_done == old(self).attempts_done + 1
                },
                Ok(false) => {
                    &&& msg.id != PIECE_ID
                    &&& final(self).blocks@ == old(self).blocks@
                    &&& final(self).received@ == old(self).received@
                    &&& final(self).attempts_done == old(self).attempts_done
                },
                Err(e) => {
                    &&& e == Error::Protocol
                    &&& msg.id == PIECE_ID
                    &&& (msg.payload@.len() < 8 || u32_of_be(msg.payload@.subrange(4, 8)) as int
                        / (BLOCK_SIZE as int) >= old(self).blocks@.len())
                    &&& final(self).blocks@ == old(self).blocks@
                    &&& final(self).received@ == old(self).received@
                    &&& final(self).attempts_done == old(self).attempts_done
                },
            },
    {
        if msg.id != PIECE_ID {
            return Ok(false);
        }
        if msg.payload.len() < 8 {
            return Err(Error::Protocol);
        }
        let payload = msg.payload.as_slice();
        let piece_index = bytes_to_u32(&payload[0..4]);
        let begin = bytes_to_u32(&payload[4..8]);
        proof {
            assert(payload@.subrange(0, 4).take(4) =~= msg.payload@.subrange(0, 4));
            assert(payload@.subrange(4, 8).take(4) =~= msg.payload@.subrange(4, 8));
        }
        let block_index: usize = (begin / BLOCK_SIZE) as usize;
        if block_index >= self.blocks.len() {
            return Err(Error::Protocol);
        }
        let data = vstd::slice::slice_to_vec(&payload[8..msg.payload.len()]);
        proof {
            assert(data@ =~= msg.payload@.skip(8));
        }
        let block = Block { piece_index, begin, block: data };
        let ghost bv = BlockView { piece_index, begin, block: data@ };
        self.blocks[block_index] = Option::Some(block);
        self.attempts_done = self.attempts_done + 1;
        self.received = Ghost(self.received@.push(bv));
        proof {
            assert(slots_view(self.blocks@) =~= slots_after(
                slots_view(old(self).blocks@),
                u32_of_be(msg.payload@.subrange(0, 4)) as u32,
                u32_of_be(msg.payload@.subrange(4, 8)) as u32,
                msg.payload@.skip(8),
            ));
            if old(self).consistent() {
                crate::piece::lemma_store_seq_push(
                    empty_slots(old(self).blocks@.len() as int),
                    old(self).received@,
                    bv,
                );
                assert forall|j: int| 0 <= j < self.received@.len() implies 0 <= #[trigger] slot_of(
                    self.received@[j],
                ) < self.blocks@.len() by {
                    if j < old(self).received@.len() {
                        assert(self.received@[j] == old(self).received@[j]);
                    } else {
                        assert(self.received@[j] == bv);
                    }
                }
            }
        }
        Ok(true)
    }

    /// Whether the attempt budget of one qualifying message per block has
    /// been used up, after which the caller stops receiving.
    pub fn done(&self) -> (r: bool)
        ensures
            r == (self.attempts_done == self.blocks@.len()),
    {
        self.attempts_done == self.blocks.len()
    }

    /// Gives up the slot array for reassembly.
    pub fn into_blocks(self) -> (r: Vec<Option<Block>>)
        ensures
            r@ == self.blocks@,
    {
        self.blocks
    }
}

} // verus!
