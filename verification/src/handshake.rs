use vstd::prelude::*;

use crate::digest::{hex_encode, hex_of};
use crate::error::Error;

verus! {

/// The fixed size of a handshake in bytes.
pub const HANDSHAKE_LEN: usize = 68;

/// The 19 ASCII bytes of the protocol identifier string.
pub open spec fn protocol_name_bytes() -> Seq<u8> {
    seq![
        66u8,
        105u8,
        116u8,
        84u8,
        111u8,
        114u8,
        114u8,
        101u8,
        110u8,
        116u8,
        32u8,
        112u8,
        114u8,
        111u8,
        116u8,
        111u8,
        99u8,
        111u8,
        108u8,
    ]
}

/// The 20 ASCII bytes of the fixed local peer identifier.
pub open spec fn local_peer_id_bytes() -> Seq<u8> {
    seq![
        50u8,
        49u8,
        51u8,
        55u8,
        50u8,
        49u8,
        51u8,
        55u8,
        54u8,
        57u8,
        54u8,
        57u8,
        50u8,
        49u8,
        51u8,
        55u8,
        50u8,
        49u8,
        51u8,
        55u8,
    ]
}

/// The 68 handshake bytes: a length byte of 19, the protocol identifier,
/// eight reserved zero bytes, the 20-byte info hash, and a 20-byte peer
/// identifier.
pub open spec fn handshake_bytes(info_hash: Seq<u8>, peer_id: Seq<u8>) -> Seq<u8> {
    seq![19u8] + protocol_name_bytes() + seq![0u8, 0u8, 0u8, 0u8, 0u8, 0u8, 0u8, 0u8] + info_hash
        + peer_id
}

/// The fixed local peer identifier sent in every handshake.
pub fn local_peer_id() -> (r: Vec<u8>)
    ensures
        r@ == local_peer_id_bytes(),
        r@.len() == 20,
{
    let mut r: Vec<u8> = Vec::new();
    r.push(50);
    r.push(49);
    r.push(51);
    r.push(55);
    r.push(50);
    r.push(49);
    r.push(51);
    r.push(55);
    r.push(54);
    r.push(57);
    r.push(54);
    r.push(57);
    r.push(50);
    r.push(49);
    r.push(51);
    r.push(55);
    r.push(50);
    r.push(49);
    r.push(51);
    r.push(55);
    proof {
        assert(r@ =~= local_peer_id_bytes());
    }
    r
}

/// Builds the 68-byte handshake message announcing the given torrent under
/// the given local peer identifier.
pub fn construct_handshake(info_hash: &Vec<u8>, peer_id: &Vec<u8>) -> (r: Vec<u8>)
    requires
        info_hash@.len() == 20,
        peer_id@.len() == 20,
    ensures
        r@ == handshake_bytes(info_hash@, peer_id@),
        r@.len() == HANDSHAKE_LEN,
{
    let mut r: Vec<u8> = Vec::new();
    r.push(19);
    r.push(66);
    r.push(105);
    r.push(116);
    r.push(84);
    r.push(111);
    r.push(114);
    r.push(114);
    r.push(101);
    r.push(110);
    r.push(116);
    r.push(32);
    r.push(112);
    r.push(114);
    r.push(111);
    r.push(116);
    r.push(111);
    r.push(99);
    r.push(111);
    r.push(108);
    let mut z: usize = 0;
    while z < 8
        invariant
            z <= 8,
            r@ =~= (seq![19u8] + protocol_name_bytes()).add(
                Seq::new(z as nat, |j: int| 0u8),
            ),
        decreases 8 - z,
    {
        r.push(0);
        proof {
            assert(r@ =~= (seq![19u8] + protocol_name_bytes()).add(
                Seq::new((z + 1) as nat, |j: int| 0u8),
            ));
        }
        z = z + 1;
    }
    r.extend_from_slice(info_hash.as_slice());
    r.extend_from_slice(peer_id.as_slice());
    proof {
        assert(r@ =~= handshake_bytes(info_hash@, peer_id@));
    }
    r
}

/// Extracts the remote peer identifier from a handshake response as a hex
/// string: the last 20 of the 68 response bytes, hex encoded. Anything but
/// a 68-byte response is a protocol error.
pub fn remote_peer_id_hex(response: &Vec<u8>) -> (r: Result<String, Error>)
    ensures
        r is Ok <==> response@.len() == HANDSHAKE_LEN,
        match r {
            Ok(s) => s@ == hex_of(response@.subrange(48, 68)),
            Err(e) => e == Error::Protocol,
        },
{
    if response.len() != HANDSHAKE_LEN {
        return Err(Error::Protocol);
    }
    let mut id: Vec<u8> = Vec::new();
    let mut i: usize = 48;
    while i < 68
        invariant
            48 <= i <= 68,
            response@.len() == 68,
            id@ =~= response@.subrange(48, i as int),
        decreases 68 - i,
    {
        id.push(response[i]);
        proof {
            assert(id@ =~= response@.subrange(48, i + 1));
        }
        i = i + 1;
    }
    Ok(hex_encode(&id))
}

} // verus!
