use vstd::prelude::*;

use crate::bytes::{be_bytes_of_u32, bytes_to_u32, lemma_be_bytes_of_u32_inverse, u32_of_be};
use crate::error::Error;

verus! {

/// The wire id of an `unchoke` message.
pub const UNCHOKE_ID: u8 = 1;

/// The wire id of an `interested` message.
pub const INTERESTED_ID: u8 = 2;

/// One length-prefixed wire message: `length` counts the id byte plus the
/// payload.
#[derive(Debug, PartialEq, Eq)]
pub struct Message {
    pub length: u32,
    pub id: u8,
    pub payload: Vec<u8>,
}

/// The mathematical content of a [`Message`].
pub ghost struct MessageView {
    pub length: u32,
    pub id: u8,
    pub payload: Seq<u8>,
}

impl View for Message {
    type V = MessageView;

    open spec fn view(&self) -> MessageView {
        MessageView { length: self.length, id: self.id, payload: self.payload@ }
    }
}

impl MessageView {
    /// The length field agrees with the payload it frames.
    pub open spec fn wf(self) -> bool {
        self.length == self.payload.len() + 1
    }
}

/// The bytes of one frame: big-endian length, id byte, payload.
pub open spec fn encode_frame(m: MessageView) -> Seq<u8> {
    be_bytes_of_u32(m.length) + seq![m.id] + m.payload
}

/// How many payload bytes a frame with this length field carries: one fewer
/// than the length, except that a length of zero or one carries none.
pub open spec fn payload_len_of(length: u32) -> int {
    if length > 1 {
        length - 1
    } else {
        0
    }
}

/// The message a whole frame holds, if the frame is exactly as long as its
/// length field announces.
pub open spec fn decode_frame(b: Seq<u8>) -> Option<MessageView> {
    if b.len() < 5 {
        Option::None
    } else {
        let length = u32_of_be(b.take(4)) as u32;
        if b.len() == 5 + payload_len_of(length) {
            Option::Some(MessageView { length, id: b[4], payload: b.skip(5) })
        } else {
            Option::None
        }
    }
}

/// Produces the frame bytes of a message: 4-byte big-endian length, the id
/// byte, then the payload.
pub fn encode_message(m: &Message) -> (r: Vec<u8>)
    requires
        m.payload@.len() + 5 <= usize::MAX,
    ensures
        r@ == encode_frame(m@),
{
    let mut r: Vec<u8> = Vec::new();
    let len_bytes = crate::bytes::u32_slice_to_bytes(&[m.length]);
    proof {
        assert(seq![m.length].drop_last() =~= Seq::<u32>::empty());
        assert(len_bytes@ =~= be_bytes_of_u32(m.length));
    }
    r.extend_from_slice(len_bytes.as_slice());
    r.push(m.id);
    r.extend_from_slice(m.payload.as_slice());
    proof {
        assert(r@ =~= encode_frame(m@));
    }
    r
}

/// Parses one whole frame. Succeeds exactly when the buffer is at least five
/// bytes and exactly as long as its length field announces; anything else is
/// a framing error. A zero-length prefix is not special-cased: as in the
/// framing rule, the byte after the prefix is taken as the id and the payload
/// is empty.
pub fn decode_message(buf: &Vec<u8>) -> (r: Result<Message, Error>)
    ensures
        match r {
            Ok(m) => decode_frame(buf@) == Option::Some(m@),
            Err(e) => decode_frame(buf@) is None && e == Error::Protocol,
        },
{
    if buf.len() < 5 {
        return Err(Error::Protocol);
    }
    let length = bytes_to_u32(buf.as_slice());
    let expected_payload: usize = if length > 1 {
        (length - 1) as usize
    } else {
        0
    };
    if buf.len() - 5 != expected_payload {
        return Err(Error::Protocol);
    }
    let id = buf[4];
    let mut payload: Vec<u8> = Vec::new();
    let mut i: usize = 5;
    while i < buf.len()
        invariant
            5 <= i <= buf@.len(),
            payload@ == buf@.subrange(5, i as int),
        decreases buf@.len() - i,
    {
        payload.push(buf[i]);
        proof {
            assert(payload@ =~= buf@.subrange(5, i + 1));
        }
        i = i + 1;
    }
    proof {
        assert(payload@ =~= buf@.skip(5));
    }
    Ok(Message { length, id, payload })
}

/// The five-byte `interested` frame a peer is sent before it may unchoke
/// us.
pub fn interested_message() -> (r: Vec<u8>)
    ensures
        r@ == encode_frame(
            MessageView { length: 1, id: INTERESTED_ID, payload: Seq::empty() },
        ),
{
    encode_message(&Message { length: 1, id: INTERESTED_ID, payload: Vec::new() })
}

/// Checks the message that must answer `interested`: anything but an
/// `unchoke` is a protocol error, fatal to that peer's task.
pub fn expect_unchoke(msg: &Message) -> (r: Result<(), Error>)
    ensures
        r is Ok <==> msg.id == UNCHOKE_ID,
        r matches Err(e) ==> e == Error::Protocol,
{
    if msg.id == UNCHOKE_ID {
        Ok(())
    } else {
        Err(Error::Protocol)
    }
}

/// Decoding a frame produced by encoding gives back the message unchanged.
///
/// This holds for every message whose length field agrees with its payload,
/// so in particular for the `interested`, `request` and `piece` messages the
/// engine exchanges.
pub proof fn lemma_encode_decode_round_trip(m: MessageView)
    requires
        m.wf(),
    ensures
        decode_frame(encode_frame(m)) == Option::Some(m),
{
    let b = encode_frame(m);
    lemma_be_bytes_of_u32_inverse(m.length);
    assert(b.take(4) =~= be_bytes_of_u32(m.length));
    assert(b.skip(5) =~= m.payload);
}

} // verus!
