use vstd::prelude::*;

verus! {

/// The value of four big-endian bytes.
pub open spec fn u32_of_be(b: Seq<u8>) -> int
    recommends
        b.len() == 4,
{
    b[0] * 0x1000000 + b[1] * 0x10000 + b[2] * 0x100 + b[3]
}

/// The four big-endian bytes of a 32-bit value.
pub open spec fn be_bytes_of_u32(n: u32) -> Seq<u8> {
    seq![
        (n / 0x1000000) as u8,
        ((n / 0x10000) % 0x100) as u8,
        ((n / 0x100) % 0x100) as u8,
        (n % 0x100) as u8,
    ]
}

/// The big-endian bytes of a sequence of 32-bit values, in order.
pub open spec fn be_bytes_of_u32_seq(s: Seq<u32>) -> Seq<u8>
    decreases s.len(),
{
    if s.len() == 0 {
        Seq::empty()
    } else {
        be_bytes_of_u32_seq(s.drop_last()) + be_bytes_of_u32(s.last())
    }
}

/// Writing a value to big-endian bytes and reading them back is the identity.
pub proof fn lemma_be_bytes_of_u32_inverse(n: u32)
    ensures
        u32_of_be(be_bytes_of_u32(n)) == n,
{
    assert(n / 0x1000000 < 0x100) by (bit_vector);
    assert(n / 0x1000000 * 0x1000000 + (n / 0x10000) % 0x100 * 0x10000 + (n / 0x100) % 0x100
        * 0x100 + n % 0x100 == n) by (bit_vector);
}

/// Reads a 32-bit big-endian integer from the first four bytes of a slice.
pub fn bytes_to_u32(input: &[u8]) -> (r: u32)
    requires
        input@.len() >= 4,
    ensures
        r == u32_of_be(input@.take(4)),
{
    let b0 = input[0];
    let b1 = input[1];
    let b2 = input[2];
    let b3 = input[3];
    let r = ((b0 as u32) << 24) | ((b1 as u32) << 16) | ((b2 as u32) << 8) | (b3 as u32);
    proof {
        let x0 = b0 as u32;
        let x1 = b1 as u32;
        let x2 = b2 as u32;
        let x3 = b3 as u32;
        assert(((x0 << 24) | (x1 << 16) | (x2 << 8) | x3) == x0 * 0x1000000 + x1 * 0x10000 + x2
            * 0x100 + x3) by (bit_vector)
            requires
                x0 < 0x100 && x1 < 0x100 && x2 < 0x100 && x3 < 0x100,
        ;
    }
    r
}

/// Writes each 32-bit value as four big-endian bytes, in order.
pub fn u32_slice_to_bytes(input: &[u32]) -> (r: Vec<u8>)
    requires
        input@.len() * 4 <= usize::MAX,
    ensures
        r@ == be_bytes_of_u32_seq(input@),
        r@.len() == input@.len() * 4,
{
    let mut output: Vec<u8> = Vec::with_capacity(input.len() * 4);
    let mut i: usize = 0;
    while i < input.len()
        invariant
            i <= input@.len(),
            output@ == be_bytes_of_u32_seq(input@.take(i as int)),
            output@.len() == i * 4,
        decreases input@.len() - i,
    {
        let num = input[i];
        output.push(#[verifier::truncate] ((num >> 24) as u8));
        output.push(#[verifier::truncate] ((num >> 16) as u8));
        output.push(#[verifier::truncate] ((num >> 8) as u8));
        output.push(#[verifier::truncate] (num as u8));
        proof {
            lemma_shifts_are_be_bytes(num);
            assert(input@.take(i + 1).drop_last() =~= input@.take(i as int));
            assert(output@ =~= be_bytes_of_u32_seq(input@.take(i + 1)));
        }
        i = i + 1;
    }
    proof {
        assert(input@.take(input@.len() as int) =~= input@);
    }
    output
}

/// The shift-and-truncate extraction of each byte agrees with the
/// division-based one.
proof fn lemma_shifts_are_be_bytes(n: u32)
    ensures
        (n >> 24) as u8 == (n / 0x1000000) as u8,
        (n >> 16) as u8 == ((n / 0x10000) % 0x100) as u8,
        (n >> 8) as u8 == ((n / 0x100) % 0x100) as u8,
        n as u8 == (n % 0x100) as u8,
{
    assert((n >> 24) as u8 == (n / 0x1000000) as u8) by (bit_vector);
    assert((n >> 16) as u8 == ((n / 0x10000) % 0x100) as u8) by (bit_vector);
    assert((n >> 8) as u8 == ((n / 0x100) % 0x100) as u8) by (bit_vector);
    assert(n as u8 == (n % 0x100) as u8) by (bit_vector);
}

} // verus!
