use vstd::prelude::*;

use crate::error::Error;
use crate::messages::Message;

verus! {

/// The wire id of a `bitfield` message.
pub const BITFIELD_ID: u8 = 5;

/// Bit `k` of a byte, most significant bit first.
pub open spec fn bit_of(byte: u8, k: int) -> bool
    recommends
        0 <= k < 8,
{
    (byte >> ((7 - k) as u8)) & 1 == 1
}

/// The bit vector a bitfield payload carries: eight bits per byte, most
/// significant first, one bit per piece index.
pub open spec fn bits_of(payload: Seq<u8>) -> Seq<bool> {
    Seq::new(payload.len() * 8, |i: int| bit_of(payload[i / 8], i % 8))
}

/// Expands a bitfield payload into one flag per piece index.
pub fn bitfield_from_payload(payload: &Vec<u8>) -> (r: Vec<bool>)
    requires
        payload@.len() * 8 <= usize::MAX,
    ensures
        r@ == bits_of(payload@),
{
    let mut r: Vec<bool> = Vec::new();
    let mut i: usize = 0;
    while i < payload.len()
        invariant
            i <= payload@.len(),
            payload@.len() * 8 <= usize::MAX,
            r@.len() == i * 8,
            forall|t: int| 0 <= t < r@.len() ==> r@[t] == bit_of(payload@[t / 8], t % 8),
        decreases payload@.len() - i,
    {
        let byte = payload[i];
        let mut k: usize = 0;
        while k < 8
            invariant
                k <= 8,
                i < payload@.len(),
                payload@.len() * 8 <= usize::MAX,
                byte == payload@[i as int],
                r@.len() == i * 8 + k,
                forall|t: int| 0 <= t < r@.len() ==> r@[t] == bit_of(payload@[t / 8], t % 8),
            decreases 8 - k,
        {
            let shift: u8 = (7 - k) as u8;
            r.push((byte >> shift) & 1 == 1);
            proof {
                let t = i * 8 + k;
                vstd::arithmetic::div_mod::lemma_fundamental_div_mod_converse(
                    t as int,
                    8,
                    i as int,
                    k as int,
                );
                assert(r@[t as int] == bit_of(payload@[t as int / 8], t as int % 8));
            }
            k = k + 1;
        }
        i = i + 1;
    }
    proof {
        assert(r@ =~= bits_of(payload@));
    }
    r
}

/// Interprets the first message a peer sends after the handshake. It must
/// be a `bitfield` message; its payload gives, for each piece index, whether
/// the peer holds that piece. Any other id first is a protocol error that
/// aborts the peer's task.
pub fn parse_bitfield(msg: &Message) -> (r: Result<Vec<bool>, Error>)
    requires
        msg.payload@.len() * 8 <= usize::MAX,
    ensures
        r is Ok <==> msg.id == BITFIELD_ID,
        match r {
            Ok(bits) => bits@ == bits_of(msg.payload@),
            Err(e) => e == Error::Protocol,
        },
{
    if msg.id != BITFIELD_ID {
        return Err(Error::Protocol);
    }
    Ok(bitfield_from_payload(&msg.payload))
}

} // verus!
