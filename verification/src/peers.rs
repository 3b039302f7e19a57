use vstd::prelude::*;

use vstd::string::StringExecFns;

use crate::digest::{hex_encode, hex_of};
use crate::text::{dec_rep, push_char, push_decimal};

verus! {

/// The percent-encoding of raw bytes for a tracker query: each byte
/// becomes `%` followed by its two hex digits.
pub open spec fn urlencode_of(s: Seq<u8>) -> Seq<char>
    decreases s.len(),
{
    if s.len() == 0 {
        Seq::empty()
    } else {
        urlencode_of(s.drop_last()) + seq!['%'] + hex_of(seq![s.last()])
    }
}

/// Percent-encodes a 20-byte hash for use in a tracker query string.
pub fn urlencode(t: &[u8; 20]) -> (r: String)
    ensures
        r@ == urlencode_of(t@),
{
    let bytes = t.as_slice();
    let mut r = String::new();
    let mut i: usize = 0;
    while i < 20
        invariant
            i <= 20,
            bytes@ == t@,
            bytes@.len() == 20,
            r@ == urlencode_of(t@.take(i as int)),
        decreases 20 - i,
    {
        push_char(&mut r, '%');
        let mut one: Vec<u8> = Vec::new();
        one.push(bytes[i]);
        let h = hex_encode(&one);
        r.append(h.as_str());
        proof {
            assert(one@ =~= seq![t@[i as int]]);
            assert(t@.take(i + 1).drop_last() =~= t@.take(i as int));
            assert(t@.take(i + 1).last() == t@[i as int]);
            assert(r@ =~= urlencode_of(t@.take(i + 1)));
        }
        i = i + 1;
    }
    proof {
        assert(t@.take(20) =~= t@);
    }
    r
}

/// The announce-request parameters a tracker is asked with. The info hash
/// is held already percent-encoded, since it is raw bytes rather than text.
pub struct DiscoverPeersQuery {
    pub peer_id: String,
    pub port: u32,
    pub uploaded: u32,
    pub downloaded: u32,
    pub left: u32,
    pub compact: u32,
    pub info_hash: String,
}

impl DiscoverPeersQuery {
    /// Builds the query, percent-encoding the raw info hash.
    pub fn new(
        peer_id: String,
        port: u32,
        uploaded: u32,
        downloaded: u32,
        left: u32,
        compact: u32,
        info_hash: [u8; 20],
    ) -> (r: DiscoverPeersQuery)
        ensures
            r.peer_id@ == peer_id@,
            r.port == port,
            r.uploaded == uploaded,
            r.downloaded == downloaded,
            r.left == left,
            r.compact == compact,
            r.info_hash@ == urlencode_of(info_hash@),
    {
        let encoded = urlencode(&info_hash);
        DiscoverPeersQuery {
            peer_id,
            port,
            uploaded,
            downloaded,
            left,
            compact,
            info_hash: encoded,
        }
    }
}

/// The characters of one peer address: four decimal octets separated by
/// dots, a colon, and the decimal port read big-endian from the last two
/// bytes.
pub open spec fn peer_addr_chars(group: Seq<u8>) -> Seq<char>
    recommends
        group.len() == 6,
{
    dec_rep(group[0] as int) + seq!['.'] + dec_rep(group[1] as int) + seq!['.'] + dec_rep(
        group[2] as int,
    ) + seq!['.'] + dec_rep(group[3] as int) + seq![':'] + dec_rep(
        group[4] as int * 256 + group[5] as int,
    )
}

/// A tracker's answer to an announce request: swarm counts, the re-announce
/// intervals, and the peer list in compact form, six bytes per peer.
pub struct DiscoverPeersResponse {
    pub complete: u32,
    pub incomplete: u32,
    pub interval: u32,
    pub min_interval: u32,
    pub peers: Vec<u8>,
}

impl DiscoverPeersResponse {
    /// Decodes the compact peer list: every whole six-byte group becomes
    /// one `address:port` string, four address bytes then a big-endian
    /// port. Trailing bytes short of a full group are ignored.
    pub fn get_peers(&self) -> (r: Vec<String>)
        ensures
            r@.len() == self.peers@.len() as int / 6,
            forall|k: int|
                0 <= k < r@.len() ==> (#[trigger] r@[k])@ == peer_addr_chars(
                    self.peers@.subrange(6 * k, 6 * k + 6),
                ),
    {
        let count: usize = self.peers.len() / 6;
        proof {
            vstd::arithmetic::div_mod::lemma_fundamental_div_mod(self.peers@.len() as int, 6);
            vstd::arithmetic::div_mod::lemma_mod_bound(self.peers@.len() as int, 6);
        }
        let mut r: Vec<String> = Vec::new();
        let mut g: usize = 0;
        while g < count
            invariant
                g <= count,
                count == self.peers@.len() as int / 6,
                6 * count <= self.peers@.len(),
                self.peers@.len() <= usize::MAX,
                r@.len() == g,
                forall|k: int|
                    0 <= k < g ==> (#[trigger] r@[k])@ == peer_addr_chars(
                        self.peers@.subrange(6 * k, 6 * k + 6),
                    ),
            decreases count - g,
        {
            proof {
                assert(6 * (g + 1) <= 6 * count) by (nonlinear_arith)
                    requires
                        g + 1 <= count,
                ;
            }
            let base: usize = 6 * g;
            let ghost group = self.peers@.subrange(6 * g as int, 6 * g + 6);
            let mut s = String::new();
            push_decimal(&mut s, self.peers[base] as u32);
            push_char(&mut s, '.');
            push_decimal(&mut s, self.peers[base + 1] as u32);
            push_char(&mut s, '.');
            push_decimal(&mut s, self.peers[base + 2] as u32);
            push_char(&mut s, '.');
            push_decimal(&mut s, self.peers[base + 3] as u32);
            push_char(&mut s, ':');
            let port: u32 = (self.peers[base + 4] as u32) * 256 + (self.peers[base + 5] as u32);
            push_decimal(&mut s, port);
            proof {
                assert(group[0] == self.peers@[6 * g as int]);
                assert(group[1] == self.peers@[6 * g + 1]);
                assert(group[2] == self.peers@[6 * g + 2]);
                assert(group[3] == self.peers@[6 * g + 3]);
                assert(group[4] == self.peers@[6 * g + 4]);
                assert(group[5] == self.peers@[6 * g + 5]);
                assert(s@ =~= peer_addr_chars(group));
            }
            r.push(s);
            g = g + 1;
        }
        r
    }
}

} // verus!
