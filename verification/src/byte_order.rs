//! Big-endian encoding of 32-bit numbers, as used for the length and the
//! checksum field of a chunk record.
//!
//! The two definitions are opaque: proofs about records go by the lemmas
//! below and are spared the arithmetic.

use vstd::prelude::*;

verus! {

/// The four bytes of `x`, most significant first.
#[verifier::opaque]
pub open spec fn be_bytes(x: u32) -> Seq<u8> {
    seq![
        (x / 0x100_0000) as u8,
        (x / 0x1_0000 % 0x100) as u8,
        (x / 0x100 % 0x100) as u8,
        (x % 0x100) as u8,
    ]
}

/// The number that the four bytes of `b` encode, most significant first.
#[verifier::opaque]
pub open spec fn be_value(b: Seq<u8>) -> u32
    recommends
        b.len() == 4,
{
    (b[0] * 0x100_0000 + b[1] * 0x1_0000 + b[2] * 0x100 + b[3]) as u32
}

/// Decoding undoes encoding.
pub proof fn lemma_be_value_of_bytes(x: u32)
    ensures
        be_bytes(x).len() == 4,
        be_value(be_bytes(x)) == x,
{
    reveal(be_bytes);
    reveal(be_value);
}

/// Encoding undoes decoding: on four bytes, `be_value` loses nothing.
pub proof fn lemma_be_bytes_of_value(b: Seq<u8>)
    requires
        b.len() == 4,
    ensures
        be_bytes(be_value(b)) == b,
{
    reveal(be_bytes);
    reveal(be_value);
    let b0 = b[0] as int;
    let b1 = b[1] as int;
    let b2 = b[2] as int;
    let b3 = b[3] as int;
    let hi1 = b0;
    let hi2 = b0 * 0x100 + b1;
    let hi3 = hi2 * 0x100 + b2;
    let v = hi3 * 0x100 + b3;
    assert(be_value(b) == v);
    assert(v % 0x100 == b3 && v / 0x100 == hi3);
    assert(hi3 % 0x100 == b2 && hi3 / 0x100 == hi2);
    assert(hi2 % 0x100 == b1 && hi2 / 0x100 == hi1);
    assert(v / 0x1_0000 == hi2);
    assert(v / 0x100_0000 == hi1);
    assert(be_bytes(be_value(b)) =~= b);
}

/// Appends the big-endian bytes of `x` to `out`.
pub(crate) fn push_u32_be(out: &mut Vec<u8>, x: u32)
    ensures
        final(out)@ == old(out)@ + be_bytes(x),
{
    out.push((x / 0x100_0000) as u8);
    out.push((x / 0x1_0000 % 0x100) as u8);
    out.push((x / 0x100 % 0x100) as u8);
    out.push((x % 0x100) as u8);
    proof {
        reveal(be_bytes);
        assert(out@ =~= old(out)@ + be_bytes(x));
    }
}

/// Reads the big-endian number stored in the four bytes at `at`.
pub(crate) fn read_u32_be(bytes: &[u8], at: usize) -> (x: u32)
    requires
        at + 4 <= bytes@.len(),
    ensures
        x == be_value(bytes@.subrange(at as int, at + 4)),
{
    let b0: u32 = bytes[at] as u32;
    let b1: u32 = bytes[at + 1] as u32;
    let b2: u32 = bytes[at + 2] as u32;
    let b3: u32 = bytes[at + 3] as u32;
    proof {
        reveal(be_value);
    }
    b0 * 0x100_0000 + b1 * 0x1_0000 + b2 * 0x100 + b3
}

} // verus!
