use vstd::prelude::*;

use crate::error::Error;

verus! {

/// Whether a peer's bitfield marks piece `p` as available. An index past
/// the end of the bitfield counts as unavailable.
pub open spec fn has_piece(bf: Seq<bool>, p: int) -> bool {
    0 <= p < bf.len() && bf[p]
}

/// The mathematical content of a list of peer bitfields.
pub open spec fn bitfields_view(bitfields: Seq<Vec<bool>>) -> Seq<Seq<bool>> {
    Seq::new(bitfields.len(), |i: int| bitfields[i]@)
}

/// Whether the round-robin probe at offset `j` for piece `p` misses.
pub open spec fn probe_misses(bitfields: Seq<Seq<bool>>, p: int, j: int) -> bool {
    !has_piece(bitfields[(p + j) % (bitfields.len() as int)], p)
}

/// Round-robin search for an owner of piece `p`, starting at offset `k`
/// from the piece's home peer `p mod n`: the first peer at or after the
/// home peer (wrapping around) whose bitfield has the piece.
pub open spec fn owner_search(bitfields: Seq<Seq<bool>>, p: int, k: int) -> Option<int>
    recommends
        bitfields.len() >= 1,
        0 <= k <= bitfields.len(),
    decreases bitfields.len() - k,
{
    let n = bitfields.len() as int;
    if k >= n || k < 0 || n == 0 {
        Option::None
    } else if has_piece(bitfields[(p + k) % n], p) {
        Option::Some((p + k) % n)
    } else {
        owner_search(bitfields, p, k + 1)
    }
}

/// The peer that owns piece `p` under round-robin assignment, if any peer
/// has it: peer `p mod n` when its bitfield has the piece, else the next
/// peer that does, wrapping around.
pub open spec fn owner_of(bitfields: Seq<Seq<bool>>, p: int) -> Option<int> {
    owner_search(bitfields, p, 0)
}

/// Whatever owner the search finds is a real peer index.
proof fn lemma_owner_search_range(bitfields: Seq<Seq<bool>>, p: int, k: int)
    ensures
        match owner_search(bitfields, p, k) {
            Option::Some(o) => 0 <= o < bitfields.len(),
            Option::None => true,
        },
    decreases bitfields.len() - k,
{
    let n = bitfields.len() as int;
    if k >= n || k < 0 || n == 0 {
    } else if has_piece(bitfields[(p + k) % n], p) {
        vstd::arithmetic::div_mod::lemma_mod_bound(p + k, n);
    } else {
        lemma_owner_search_range(bitfields, p, k + 1);
    }
}

/// A search that has missed everywhere before offset `k` finds the same
/// owner as the search from the start.
proof fn lemma_owner_search_skip(bitfields: Seq<Seq<bool>>, p: int, k: int)
    requires
        bitfields.len() >= 1,
        0 <= k <= bitfields.len(),
        forall|j: int| 0 <= j < k ==> #[trigger] probe_misses(bitfields, p, j),
    ensures
        owner_search(bitfields, p, 0) == owner_search(bitfields, p, k),
    decreases k,
{
    if k > 0 {
        assert(probe_misses(bitfields, p, k - 1));
        lemma_owner_search_skip(bitfields, p, k - 1);
        assert(owner_search(bitfields, p, k - 1) == owner_search(bitfields, p, k));
    }
}

/// Assigns every piece index in `[0, piece_count)` to exactly one usable
/// peer, round-robin: piece `p` goes to peer `p mod n` when that peer's
/// bitfield has it, else to the next peer (wrapping) that does. Succeeds
/// exactly when every piece has at least one peer that advertises it;
/// otherwise the job-wide piece-unavailable error is returned. Each peer's
/// list holds its pieces in increasing order, which is the order they are
/// downloaded in.
pub fn assign_pieces(bitfields: &Vec<Vec<bool>>, piece_count: usize) -> (r: Result<
    Vec<Vec<u32>>,
    Error,
>)
    requires
        bitfields@.len() >= 1,
        piece_count <= u32::MAX,
        piece_count + bitfields@.len() <= usize::MAX,
    ensures
        r is Ok <==> (forall|p: int|
            0 <= p < piece_count ==> (#[trigger] owner_of(bitfields_view(bitfields@), p)) is Some),
        match r {
            Ok(a) => {
                &&& a@.len() == bitfields@.len()
                &&& forall|i: int, t: int|
                    0 <= i < a@.len() && 0 <= t < a@[i]@.len() ==> {
                        &&& (#[trigger] a@[i]@[t]) < piece_count
                        &&& owner_of(bitfields_view(bitfields@), a@[i]@[t] as int)
                            == Option::Some(i)
                    }
                &&& forall|i: int, t1: int, t2: int|
                    0 <= i < a@.len() && 0 <= t1 < t2 < a@[i]@.len() ==> a@[i]@[t1] < a@[i]@[t2]
                &&& forall|p: int, i: int|
                    0 <= p < piece_count && owner_of(bitfields_view(bitfields@), p)
                        == Option::Some(i) ==> exists|t: int|
                        0 <= t < a@[i]@.len() && a@[i]@[t] == p
            },
            Err(e) => e == Error::PieceUnavailable,
        },
{
    let ghost bfv = bitfields_view(bitfields@);
    let n = bitfields.len();
    let mut owners: Vec<usize> = Vec::new();
    let mut p: usize = 0;
    while p < piece_count
        invariant
            bfv == bitfields_view(bitfields@),
            n == bitfields@.len(),
            1 <= n,
            piece_count <= u32::MAX,
            piece_count + n <= usize::MAX,
            p <= piece_count,
            owners@.len() == p,
            forall|q: int|
                0 <= q < p ==> Option::Some(#[trigger] owners@[q] as int) == owner_of(bfv, q),
        decreases piece_count - p,
    {
        let mut k: usize = 0;
        let mut owner: usize = n;
        while k < n && owner == n
            invariant
                bfv == bitfields_view(bitfields@),
                n == bitfields@.len(),
                1 <= n,
                p + n <= usize::MAX,
                k <= n,
                owner <= n,
                owner == n ==> forall|j: int|
                    0 <= j < k ==> #[trigger] probe_misses(bfv, p as int, j),
                owner < n ==> owner_of(bfv, p as int) == Option::Some(owner as int),
            decreases n - k + (if owner == n {
                1int
            } else {
                0int
            }),
        {
            let idx = (p + k) % n;
            let bf = &bitfields[idx];
            proof {
                assert(bfv[idx as int] == bitfields@[idx as int]@);
            }
            if p < bf.len() && bf[p] {
                proof {
                    lemma_owner_search_skip(bfv, p as int, k as int);
                    assert(owner_search(bfv, p as int, k as int) == Option::Some(idx as int));
                }
                owner = idx;
            } else {
                proof {
                    assert(probe_misses(bfv, p as int, k as int));
                }
                k = k + 1;
            }
        }
        if owner == n {
            proof {
                lemma_owner_search_skip(bfv, p as int, n as int);
                assert(owner_of(bfv, p as int) is None);
            }
            return Err(Error::PieceUnavailable);
        }
        owners.push(owner);
        p = p + 1;
    }
    proof {
        assert forall|p: int| 0 <= p < piece_count implies (#[trigger] owner_of(
            bitfields_view(bitfields@),
            p,
        )) is Some by {
            assert(Option::Some(owners@[p] as int) == owner_of(bfv, p));
        }
    }
    let mut assignments: Vec<Vec<u32>> = Vec::new();
    let mut i: usize = 0;
    while i < n
        invariant
            bfv == bitfields_view(bitfields@),
            n == bitfields@.len(),
            piece_count <= u32::MAX,
            owners@.len() == piece_count,
            forall|q: int|
                0 <= q < piece_count ==> Option::Some(#[trigger] owners@[q] as int) == owner_of(
                    bfv,
                    q,
                ),
            i <= n,
            assignments@.len() == i,
            forall|ii: int, t: int|
                0 <= ii < i && 0 <= t < assignments@[ii]@.len() ==> {
                    &&& (#[trigger] assignments@[ii]@[t]) < piece_count
                    &&& owner_of(bfv, assignments@[ii]@[t] as int) == Option::Some(ii)
                },
            forall|ii: int, t1: int, t2: int|
                0 <= ii < i && 0 <= t1 < t2 < assignments@[ii]@.len() ==> assignments@[ii]@[t1]
                    < assignments@[ii]@[t2],
            forall|q: int, ii: int|
                0 <= q < piece_count && 0 <= ii < i && owner_of(bfv, q) == Option::Some(ii)
                    ==> exists|t: int|
                    0 <= t < assignments@[ii]@.len() && assignments@[ii]@[t] == q,
        decreases n - i,
    {
        let mut row: Vec<u32> = Vec::new();
        let mut q: usize = 0;
        while q < piece_count
            invariant
                bfv == bitfields_view(bitfields@),
                piece_count <= u32::MAX,
                owners@.len() == piece_count,
                forall|qq: int|
                    0 <= qq < piece_count ==> Option::Some(#[trigger] owners@[qq] as int)
                        == owner_of(bfv, qq),
                q <= piece_count,
                forall|t: int|
                    0 <= t < row@.len() ==> {
                        &&& (#[trigger] row@[t]) < q
                        &&& owner_of(bfv, row@[t] as int) == Option::Some(i as int)
                    },
                forall|t1: int, t2: int| 0 <= t1 < t2 < row@.len() ==> row@[t1] < row@[t2],
                forall|qq: int|
                    0 <= qq < q && owner_of(bfv, qq) == Option::Some(i as int) ==> exists|t: int|
                        0 <= t < row@.len() && row@[t] == qq,
            decreases piece_count - q,
        {
            let ghost row_before = row@;
            if owners[q] == i {
                row.push(q as u32);
            }
            proof {
                assert(Option::Some(owners@[q as int] as int) == owner_of(bfv, q as int));
                assert forall|qq: int|
                    0 <= qq < q + 1 && owner_of(bfv, qq) == Option::Some(i as int) implies exists|
                    t: int,
                |
                    0 <= t < row@.len() && row@[t] == qq by {
                    if qq == q {
                        assert(owners@[qq] == i);
                        assert(row@[row@.len() - 1] == qq as u32);
                    } else {
                        let t = choose|t: int| 0 <= t < row_before.len() && row_before[t] == qq;
                        assert(row@[t] == qq);
                    }
                }
            }
            q = q + 1;
        }
        let ghost row_v = row@;
        let ghost assignments_before = assignments@;
        assignments.push(row);
        proof {
            assert forall|qq: int, ii: int|
                0 <= qq < piece_count && 0 <= ii < i + 1 && owner_of(bfv, qq) == Option::Some(ii)
                implies exists|t: int|
                0 <= t < assignments@[ii]@.len() && assignments@[ii]@[t] == qq by {
                if ii == i {
                    assert(assignments@[ii]@ == row_v);
                    let t = choose|t: int| 0 <= t < row_v.len() && row_v[t] == qq;
                    assert(assignments@[ii]@[t] == qq);
                } else {
                    let t = choose|t: int|
                        0 <= t < assignments_before[ii]@.len() && assignments_before[ii]@[t] == qq;
                    assert(assignments@[ii]@[t] == qq);
                }
            }
        }
        i = i + 1;
    }
    proof {
        assert forall|p: int, i: int|
            0 <= p < piece_count && owner_of(bitfields_view(bitfields@), p) == Option::Some(i)
            implies exists|t: int|
            0 <= t < assignments@[i]@.len() && assignments@[i]@[t] == p by {
            lemma_owner_search_range(bfv, p, 0);
        }
    }
    Ok(assignments)
}

} // verus!
