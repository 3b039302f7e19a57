use vstd::prelude::*;

use crate::digest::{hex_encode, hex_of, sha1_digest, sha1_of};
use crate::error::Error;

verus! {

/// How many pieces a torrent of `total` bytes has when every piece but the
/// last holds `piece_length` bytes: the division rounded up.
pub open spec fn piece_count_of(total: u32, piece_length: u32) -> int
    recommends
        piece_length >= 1,
{
    (total + piece_length - 1) / (piece_length as int)
}

/// The exact byte length of piece `i`: `piece_length` for every piece but
/// the last, and whatever remains of `total` for the last.
pub open spec fn piece_len_of(total: u32, piece_length: u32, i: int) -> int {
    if i == piece_count_of(total, piece_length) - 1 {
        total - i * piece_length
    } else {
        piece_length as int
    }
}

/// The piece count is at least one and brackets the total length: all pieces
/// but the last cover strictly less than the total, and all pieces together
/// cover at least the total.
pub proof fn lemma_piece_count_bounds(total: u32, piece_length: u32)
    requires
        piece_length >= 1,
        total >= 1,
    ensures
        1 <= piece_count_of(total, piece_length) <= total,
        (piece_count_of(total, piece_length) - 1) * piece_length < total,
        total <= piece_count_of(total, piece_length) * piece_length,
{
    let pl = piece_length as int;
    let x = total + piece_length - 1;
    let count = x / pl;
    vstd::arithmetic::div_mod::lemma_fundamental_div_mod(x, pl);
    let r = x % pl;
    assert(x == pl * count + r);
    assert(0 <= r < pl) by {
        vstd::arithmetic::div_mod::lemma_mod_bound(x, pl);
    }
    assert(count >= 1) by (nonlinear_arith)
        requires
            x == pl * count + r,
            0 <= r < pl,
            x >= pl,
    ;
    assert((count - 1) * pl == total - 1 - r) by (nonlinear_arith)
        requires
            x == pl * count + r,
            x == total + pl - 1,
    ;
    assert(count * pl == total - 1 - r + pl) by (nonlinear_arith)
        requires
            x == pl * count + r,
            x == total + pl - 1,
    ;
    assert(count - 1 <= (count - 1) * pl) by (nonlinear_arith)
        requires
            count >= 1,
            pl >= 1,
    ;
}

/// The rounded-up division can also be computed without overflow as
/// `(total - 1) / piece_length + 1`.
pub proof fn lemma_piece_count_alt(total: u32, piece_length: u32)
    requires
        piece_length >= 1,
        total >= 1,
    ensures
        piece_count_of(total, piece_length) == (total - 1) as int / (piece_length as int) + 1,
{
    let pl = piece_length as int;
    let a = (total - 1) as int / pl;
    let b = (total + piece_length - 1) as int / pl;
    let ra = (total - 1) as int % pl;
    let rb = (total + piece_length - 1) as int % pl;
    vstd::arithmetic::div_mod::lemma_fundamental_div_mod((total - 1) as int, pl);
    vstd::arithmetic::div_mod::lemma_fundamental_div_mod((total + piece_length - 1) as int, pl);
    vstd::arithmetic::div_mod::lemma_mod_bound((total - 1) as int, pl);
    vstd::arithmetic::div_mod::lemma_mod_bound((total + piece_length - 1) as int, pl);
    assert(b == a + 1) by (nonlinear_arith)
        requires
            total - 1 == pl * a + ra,
            total + pl - 1 == pl * b + rb,
            0 <= ra < pl,
            0 <= rb < pl,
    ;
}

/// Every piece length is between one and `piece_length`, and the last piece
/// holds exactly what the earlier ones leave over.
pub proof fn lemma_piece_geometry(total: u32, piece_length: u32)
    requires
        piece_length >= 1,
        total >= 1,
    ensures
        piece_len_of(total, piece_length, piece_count_of(total, piece_length) - 1) == total - (
        piece_count_of(total, piece_length) - 1) * piece_length,
        forall|i: int|
            0 <= i < piece_count_of(total, piece_length) ==> 1 <= #[trigger] piece_len_of(
                total,
                piece_length,
                i,
            ) <= piece_length,
{
    lemma_piece_count_bounds(total, piece_length);
    let count = piece_count_of(total, piece_length);
    let pl = piece_length as int;
    assert forall|i: int| 0 <= i < count implies 1 <= #[trigger] piece_len_of(
        total,
        piece_length,
        i,
    ) <= piece_length by {
        if i == count - 1 {
            assert(i * pl <= (count - 1) * pl) by (nonlinear_arith)
                requires
                    i <= count - 1,
                    pl >= 1,
            ;
            assert(total - i * pl >= 1);
            assert(total <= count * pl);
            assert(count * pl == (count - 1) * pl + pl) by (nonlinear_arith);
            assert(total - i * pl <= pl);
        }
    }
}

/// The last piece holds the remainder of the total length modulo the piece
/// length, or a whole piece when the total divides evenly.
pub proof fn lemma_last_piece_remainder(total: u32, piece_length: u32)
    requires
        piece_length >= 1,
        total >= 1,
    ensures
        piece_len_of(total, piece_length, piece_count_of(total, piece_length) - 1) == if total as int
            % (piece_length as int) == 0 {
            piece_length as int
        } else {
            total as int % (piece_length as int)
        },
{
    let pl = piece_length as int;
    let q = total as int / pl;
    let m = total as int % pl;
    vstd::arithmetic::div_mod::lemma_fundamental_div_mod(total as int, pl);
    vstd::arithmetic::div_mod::lemma_mod_bound(total as int, pl);
    let count = piece_count_of(total, piece_length);
    if m == 0 {
        assert(total + pl - 1 == pl * q + (pl - 1)) by (nonlinear_arith)
            requires
                total == pl * q + m,
                m == 0,
        ;
        vstd::arithmetic::div_mod::lemma_fundamental_div_mod_converse(
            total + pl - 1,
            pl,
            q,
            pl - 1,
        );
        assert(count == q);
        assert(total - (q - 1) * pl == pl) by (nonlinear_arith)
            requires
                total == pl * q,
        ;
    } else {
        assert(total + pl - 1 == pl * (q + 1) + (m - 1)) by (nonlinear_arith)
            requires
                total == pl * q + m,
        ;
        vstd::arithmetic::div_mod::lemma_fundamental_div_mod_converse(
            total + pl - 1,
            pl,
            q + 1,
            m - 1,
        );
        assert(count == q + 1);
        assert(total - q * pl == m) by (nonlinear_arith)
            requires
                total == pl * q + m,
        ;
    }
}

/// The 20-byte info hash identifying a torrent: the digest of its bencoded
/// info dictionary, handed in as plain bytes by whatever read the torrent
/// file.
pub fn info_hash_of(info_bytes: &Vec<u8>) -> (r: Vec<u8>)
    ensures
        r@ == sha1_of(info_bytes@),
        r@.len() == 20,
{
    sha1_digest(info_bytes)
}

/// Everything the engine needs to know about a torrent, loaded once before
/// any peer work begins and never changed: the 20-byte info hash, the piece
/// and total byte lengths, and one 20-byte fingerprint per piece.
#[derive(Debug, PartialEq, Eq)]
pub struct Metadata {
    pub info_hash: Vec<u8>,
    pub piece_length: u32,
    pub total_length: u32,
    pub piece_hashes: Vec<Vec<u8>>,
}

impl Metadata {
    /// The invariant of valid metadata: both lengths are positive, the hash
    /// is 20 bytes, and there is exactly one 20-byte fingerprint per piece.
    pub open spec fn wf(self) -> bool {
        &&& self.info_hash@.len() == 20
        &&& self.piece_length >= 1
        &&& self.total_length >= 1
        &&& self.piece_hashes@.len() == piece_count_of(self.total_length, self.piece_length)
        &&& forall|i: int|
            0 <= i < self.piece_hashes@.len() ==> (#[trigger] self.piece_hashes@[i])@.len() == 20
    }

    /// Builds metadata from the plain fields of a torrent's info dictionary,
    /// splitting the concatenated fingerprint bytes into one 20-byte hash
    /// per piece. Fails exactly when the fields cannot form valid metadata:
    /// a hash that is not 20 bytes, a zero length, or a fingerprint string
    /// that is not 20 bytes per piece.
    pub fn from_parts(info_hash: Vec<u8>, piece_length: u32, total_length: u32, pieces: Vec<u8>)
        -> (r: Result<Metadata, Error>)
        ensures
            r is Ok <==> {
                &&& info_hash@.len() == 20
                &&& piece_length >= 1
                &&& total_length >= 1
                &&& pieces@.len() == 20 * piece_count_of(total_length, piece_length)
            },
            match r {
                Ok(m) => {
                    &&& m.wf()
                    &&& m.info_hash@ == info_hash@
                    &&& m.piece_length == piece_length
                    &&& m.total_length == total_length
                    &&& forall|i: int|
                        0 <= i < m.piece_hashes@.len() ==> (#[trigger] m.piece_hashes@[i])@
                            == pieces@.subrange(20 * i, 20 * i + 20)
                },
                Err(e) => e == Error::Protocol,
            },
    {
        if info_hash.len() != 20 || piece_length == 0 || total_length == 0 {
            return Err(Error::Protocol);
        }
        proof {
            lemma_piece_count_bounds(total_length, piece_length);
        }
        let count: usize = (((total_length - 1) / piece_length) + 1) as usize;
        proof {
            lemma_piece_count_alt(total_length, piece_length);
        }
        if pieces.len() / 20 != count || pieces.len() % 20 != 0 {
            proof {
                vstd::arithmetic::div_mod::lemma_fundamental_div_mod(pieces@.len() as int, 20);
            }
            return Err(Error::Protocol);
        }
        proof {
            vstd::arithmetic::div_mod::lemma_fundamental_div_mod(pieces@.len() as int, 20);
        }
        let plen: usize = pieces.len();
        let mut piece_hashes: Vec<Vec<u8>> = Vec::new();
        let mut i: usize = 0;
        while i < count
            invariant
                i <= count,
                count * 20 == pieces@.len(),
                pieces@.len() == plen,
                piece_hashes@.len() == i,
                forall|k: int|
                    0 <= k < i ==> (#[trigger] piece_hashes@[k])@ == pieces@.subrange(
                        20 * k,
                        20 * k + 20,
                    ),
            decreases count - i,
        {
            proof {
                assert((i + 1) * 20 <= count * 20) by (nonlinear_arith)
                    requires
                        i + 1 <= count,
                ;
            }
            let mut hash: Vec<u8> = Vec::new();
            let mut j: usize = 0;
            while j < 20
                invariant
                    j <= 20,
                    20 * i + 20 <= pieces@.len(),
                    pieces@.len() == plen,
                    hash@ == pieces@.subrange(20 * i as int, 20 * i + j),
                decreases 20 - j,
            {
                hash.push(pieces[20 * i + j]);
                proof {
                    assert(hash@ =~= pieces@.subrange(20 * i as int, 20 * i + j + 1));
                }
                j = j + 1;
            }
            piece_hashes.push(hash);
            i = i + 1;
        }
        let m = Metadata { info_hash, piece_length, total_length, piece_hashes };
        proof {
            assert forall|k: int| 0 <= k < m.piece_hashes@.len() implies (
            #[trigger] m.piece_hashes@[k])@.len() == 20 by {
                assert(m.piece_hashes@[k]@ == pieces@.subrange(20 * k, 20 * k + 20));
            }
        }
        Ok(m)
    }

    /// The number of pieces.
    pub fn piece_count(&self) -> (r: usize)
        requires
            self.wf(),
        ensures
            r == piece_count_of(self.total_length, self.piece_length),
    {
        self.piece_hashes.len()
    }

    /// The byte length of piece `i`: the remainder of the total for the last
    /// piece, the fixed piece length for every other.
    pub fn piece_len(&self, i: usize) -> (r: u32)
        requires
            self.wf(),
            i < piece_count_of(self.total_length, self.piece_length),
        ensures
            r == piece_len_of(self.total_length, self.piece_length, i as int),
            1 <= r <= self.piece_length,
    {
        proof {
            lemma_piece_count_bounds(self.total_length, self.piece_length);
            lemma_piece_geometry(self.total_length, self.piece_length);
            assert(i as int <= u32::MAX);
            assert(i as int * self.piece_length <= (piece_count_of(
                self.total_length,
                self.piece_length,
            ) - 1) * self.piece_length) by (nonlinear_arith)
                requires
                    i as int <= piece_count_of(self.total_length, self.piece_length) - 1,
                    self.piece_length >= 1,
            ;
        }
        if i == self.piece_hashes.len() - 1 {
            self.total_length - (i as u32) * self.piece_length
        } else {
            self.piece_length
        }
    }

    /// The absolute byte offset of piece `i` in the output file.
    pub fn piece_offset(&self, i: usize) -> (r: u32)
        requires
            self.wf(),
            i < piece_count_of(self.total_length, self.piece_length),
        ensures
            r == i as int * self.piece_length,
            r + piece_len_of(self.total_length, self.piece_length, i as int) <= self.total_length,
    {
        proof {
            lemma_piece_count_bounds(self.total_length, self.piece_length);
            lemma_piece_geometry(self.total_length, self.piece_length);
            let count = piece_count_of(self.total_length, self.piece_length);
            let pl = self.piece_length as int;
            assert(i as int <= u32::MAX);
            assert(i as int * pl <= (count - 1) * pl) by (nonlinear_arith)
                requires
                    i as int <= count - 1,
                    pl >= 1,
            ;
            if i as int != count - 1 {
                assert((i as int + 1) * pl <= (count - 1) * pl) by (nonlinear_arith)
                    requires
                        i as int + 1 <= count - 1,
                        pl >= 1,
                ;
                assert((i as int + 1) * pl == i as int * pl + pl) by (nonlinear_arith);
            }
        }
        (i as u32) * self.piece_length
    }

    /// The hex encoding of the info hash.
    pub fn get_hex_hash(&self) -> (r: String)
        ensures
            r@ == hex_of(self.info_hash@),
    {
        hex_encode(&self.info_hash)
    }

    /// One lowercase hex string per piece fingerprint, in piece order.
    pub fn get_piece_hashes(&self) -> (r: Vec<String>)
        ensures
            r@.len() == self.piece_hashes@.len(),
            forall|i: int|
                0 <= i < r@.len() ==> (#[trigger] r@[i])@ == hex_of(self.piece_hashes@[i]@),
    {
        let mut r: Vec<String> = Vec::new();
        let mut i: usize = 0;
        while i < self.piece_hashes.len()
            invariant
                i <= self.piece_hashes@.len(),
                r@.len() == i,
                forall|k: int|
                    0 <= k < i ==> (#[trigger] r@[k])@ == hex_of(self.piece_hashes@[k]@),
            decreases self.piece_hashes@.len() - i,
        {
            r.push(hex_encode(&self.piece_hashes[i]));
            i = i + 1;
        }
        r
    }
}

} // verus!
