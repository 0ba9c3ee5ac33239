//! Big-endian integers on the wire.

use vstd::prelude::*;

verus! {

/// The 16-bit value that is written on the wire as `hi` followed by `lo`.
#[verifier::opaque]
pub open spec fn be16(hi: u8, lo: u8) -> u16 {
    (hi as int * 256 + lo as int) as u16
}

/// The two bytes that a 16-bit value is written as, most significant first.
#[verifier::opaque]
pub open spec fn be16_bytes(x: u16) -> Seq<u8> {
    seq![(x / 256) as u8, (x % 256) as u8]
}

/// The 32-bit value that is written on the wire as `b0`, `b1`, `b2`, `b3`.
#[verifier::opaque]
pub open spec fn be32(b0: u8, b1: u8, b2: u8, b3: u8) -> u32 {
    (b0 as int * 0x100_0000 + b1 as int * 0x1_0000 + b2 as int * 0x100 + b3 as int) as u32
}

/// The four bytes that a 32-bit value is written as, most significant first.
#[verifier::opaque]
pub open spec fn be32_bytes(x: u32) -> Seq<u8> {
    seq![
        (x / 0x100_0000) as u8,
        (x / 0x1_0000 % 0x100) as u8,
        (x / 0x100 % 0x100) as u8,
        (x % 0x100) as u8,
    ]
}

/// Reading back what was written gives the value that was written.
pub proof fn lemma_be16_of_bytes(x: u16)
    ensures
        be16_bytes(x).len() == 2,
        be16(be16_bytes(x)[0], be16_bytes(x)[1]) == x,
{
    reveal(be16);
    reveal(be16_bytes);
}

/// Writing what was read gives the bytes that were read.
pub proof fn lemma_bytes_of_be16(hi: u8, lo: u8)
    ensures
        be16_bytes(be16(hi, lo)) == seq![hi, lo],
{
    reveal(be16);
    reveal(be16_bytes);
    assert(be16_bytes(be16(hi, lo)) =~= seq![hi, lo]);
}

/// Reading back what was written gives the value that was written.
pub proof fn lemma_be32_of_bytes(x: u32)
    ensures
        be32_bytes(x).len() == 4,
        be32(be32_bytes(x)[0], be32_bytes(x)[1], be32_bytes(x)[2], be32_bytes(x)[3]) == x,
{
    reveal(be32);
    reveal(be32_bytes);
}

/// Writing what was read gives the bytes that were read.
pub proof fn lemma_bytes_of_be32(b0: u8, b1: u8, b2: u8, b3: u8)
    ensures
        be32_bytes(be32(b0, b1, b2, b3)) == seq![b0, b1, b2, b3],
{
    reveal(be32);
    reveal(be32_bytes);
    let low = b1 as int * 0x1_0000 + b2 as int * 0x100 + b3 as int;
    let x = be32(b0, b1, b2, b3);
    assert(x == b0 as int * 0x100_0000 + low);
    assert(0 <= low < 0x100_0000);
    assert(x / 0x100_0000 == b0);
    assert(x / 0x1_0000 == b0 as int * 0x100 + b1 as int);
    assert(x / 0x100 == b0 as int * 0x1_0000 + b1 as int * 0x100 + b2 as int);
    assert(be32_bytes(x) =~= seq![b0, b1, b2, b3]);
}

/// Reads the big-endian 16-bit value at `data[at]`, `data[at + 1]`.
pub(crate) fn read_u16_be(data: &[u8], at: usize) -> (x: u16)
    requires
        at + 2 <= data@.len(),
    ensures
        x == be16(data@[at as int], data@[at + 1]),
{
    proof {
        reveal(be16);
    }
    (data[at] as u16) * 256 + (data[at + 1] as u16)
}

/// Reads the big-endian 32-bit value at `data[at]` to `data[at + 3]`.
pub(crate) fn read_u32_be(data: &[u8], at: usize) -> (x: u32)
    requires
        at + 4 <= data@.len(),
    ensures
        x == be32(data@[at as int], data@[at + 1], data@[at + 2], data@[at + 3]),
{
    proof {
        reveal(be32);
    }
    (data[at] as u32) * 0x100_0000 + (data[at + 1] as u32) * 0x1_0000 + (data[at + 2] as u32)
        * 0x100 + (data[at + 3] as u32)
}

/// Appends the big-endian encoding of a 16-bit value.
pub(crate) fn push_u16_be(bytes: &mut Vec<u8>, x: u16)
    ensures
        final(bytes)@ == old(bytes)@ + be16_bytes(x),
{
    proof {
        reveal(be16_bytes);
    }
    bytes.push((x / 256) as u8);
    bytes.push((x % 256) as u8);
    assert(bytes@ =~= old(bytes)@ + be16_bytes(x));
}

/// Appends the big-endian encoding of a 32-bit value.
pub(crate) fn push_u32_be(bytes: &mut Vec<u8>, x: u32)
    ensures
        final(bytes)@ == old(bytes)@ + be32_bytes(x),
{
    proof {
        reveal(be32_bytes);
    }
    bytes.push((x / 0x100_0000) as u8);
    bytes.push((x / 0x1_0000 % 0x100) as u8);
    bytes.push((x / 0x100 % 0x100) as u8);
    bytes.push((x % 0x100) as u8);
    assert(bytes@ =~= old(bytes)@ + be32_bytes(x));
}

} // verus!
