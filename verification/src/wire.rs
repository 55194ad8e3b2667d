//! Big-endian integers and byte-buffer helpers shared by the wire formats.

use vstd::prelude::*;

verus! {

/// The two bytes of `x` in big-endian order.
pub open spec fn u16_be_bytes(x: u16) -> Seq<u8> {
    seq![(x / 256) as u8, (x % 256) as u8]
}

/// The four bytes of `x` in big-endian order.
pub open spec fn u32_be_bytes(x: u32) -> Seq<u8> {
    seq![
        (x / 0x100_0000) as u8,
        ((x / 0x1_0000) % 256) as u8,
        ((x / 256) % 256) as u8,
        (x % 256) as u8,
    ]
}

/// The integer whose big-endian bytes are the first two of `s`.
pub open spec fn u16_from_be(s: Seq<u8>) -> u16 {
    (s[0] * 256 + s[1]) as u16
}

/// The integer whose big-endian bytes are the first four of `s`.
pub open spec fn u32_from_be(s: Seq<u8>) -> u32 {
    (s[0] * 0x100_0000 + s[1] * 0x1_0000 + s[2] * 256 + s[3]) as u32
}

/// Decoding the big-endian bytes of a `u16` gives it back.
pub proof fn lemma_u16_be_roundtrip(x: u16)
    ensures
        u16_be_bytes(x).len() == 2,
        u16_from_be(u16_be_bytes(x)) == x,
{
}

/// Decoding the big-endian bytes of a `u32` gives it back.
pub proof fn lemma_u32_be_roundtrip(x: u32)
    ensures
        u32_be_bytes(x).len() == 4,
        u32_from_be(u32_be_bytes(x)) == x,
{
}

/// The first two bytes of `s` are the big-endian bytes of what they decode to.
pub proof fn lemma_u16_from_be_bytes(s: Seq<u8>)
    requires
        s.len() >= 2,
    ensures
        u16_be_bytes(u16_from_be(s)) == s.take(2),
{
    assert(u16_be_bytes(u16_from_be(s)) =~= s.take(2));
}

/// The first four bytes of `s` are the big-endian bytes of what they decode to.
pub proof fn lemma_u32_from_be_bytes(s: Seq<u8>)
    requires
        s.len() >= 4,
    ensures
        u32_be_bytes(u32_from_be(s)) == s.take(4),
{
    let b0 = s[0];
    let b1 = s[1];
    let b2 = s[2];
    let b3 = s[3];
    let x = u32_from_be(s);
    assert(x == b0 as u32 * 0x100_0000 + b1 as u32 * 0x1_0000 + b2 as u32 * 256 + b3 as u32);
    assert({
        let y = b0 as u32 * 0x100_0000 + b1 as u32 * 0x1_0000 + b2 as u32 * 256 + b3 as u32;
        &&& (y / 0x100_0000) as u8 == b0
        &&& ((y / 0x1_0000) % 256) as u8 == b1
        &&& ((y / 256) % 256) as u8 == b2
        &&& (y % 256) as u8 == b3
    }) by (bit_vector);
    assert(u32_be_bytes(u32_from_be(s)) =~= s.take(4));
}

/// The bytes of a `u16` put its high byte first: `x` is 256 times the
/// first byte plus the second.
pub proof fn lemma_u16_be_layout(x: u16)
    ensures
        u16_be_bytes(x).len() == 2,
        x == u16_be_bytes(x)[0] * 256 + u16_be_bytes(x)[1],
{
}

/// The bytes of a `u32` put its highest byte first: each byte weighs 256
/// times the one after it.
pub proof fn lemma_u32_be_layout(x: u32)
    ensures
        u32_be_bytes(x).len() == 4,
        x == u32_be_bytes(x)[0] * 0x100_0000 + u32_be_bytes(x)[1] * 0x1_0000 + u32_be_bytes(x)[2] * 256
            + u32_be_bytes(x)[3],
{
    assert(x == ((x / 0x100_0000) as u8) as u32 * 0x100_0000 + (((x / 0x1_0000) % 256) as u8) as u32
        * 0x1_0000 + (((x / 256) % 256) as u8) as u32 * 256 + ((x % 256) as u8) as u32) by (bit_vector);
}

/// Decoding a `u16` reads the high byte first.
pub proof fn lemma_u16_from_be_value(s: Seq<u8>)
    requires
        s.len() >= 2,
    ensures
        u16_from_be(s) == s[0] * 256 + s[1],
{
}

/// Decoding a `u32` reads the highest byte first.
pub proof fn lemma_u32_from_be_value(s: Seq<u8>)
    requires
        s.len() >= 4,
    ensures
        u32_from_be(s) == s[0] * 0x100_0000 + s[1] * 0x1_0000 + s[2] * 256 + s[3],
{
}

/// The big-endian bytes of `x`.
pub fn u16_to_be(x: u16) -> (res: [u8; 2])
    ensures
        res@ == u16_be_bytes(x),
{
    let res: [u8; 2] = [(x / 256) as u8, (x % 256) as u8];
    assert(res@ =~= u16_be_bytes(x));
    res
}

/// The big-endian bytes of `x`.
pub fn u32_to_be(x: u32) -> (res: [u8; 4])
    ensures
        res@ == u32_be_bytes(x),
{
    let res: [u8; 4] = [
        (x / 0x100_0000) as u8,
        ((x / 0x1_0000) % 256) as u8,
        ((x / 256) % 256) as u8,
        (x % 256) as u8,
    ];
    assert(res@ =~= u32_be_bytes(x));
    res
}

/// The integer whose big-endian bytes are `b`.
pub fn u16_from_be_bytes(b: [u8; 2]) -> (res: u16)
    ensures
        res == u16_from_be(b@),
{
    (b[0] as u16) * 256 + (b[1] as u16)
}

/// The integer whose big-endian bytes are `b`.
pub fn u32_from_be_bytes(b: [u8; 4]) -> (res: u32)
    ensures
        res == u32_from_be(b@),
{
    (b[0] as u32) * 0x100_0000 + (b[1] as u32) * 0x1_0000 + (b[2] as u32) * 256 + (b[3] as u32)
}

/// Appends every byte of `bytes` to `out`.
pub fn append_bytes(out: &mut Vec<u8>, bytes: &[u8])
    ensures
        final(out)@ == old(out)@ + bytes@,
{
    let ghost start = out@;
    let mut i: usize = 0;
    while i < bytes.len()
        invariant
            i <= bytes@.len(),
            out@ == start + bytes@.take(i as int),
        decreases bytes@.len() - i,
    {
        out.push(bytes[i]);
        i = i + 1;
        assert(bytes@.take(i as int) =~= bytes@.take((i - 1) as int).push(bytes@[i - 1]));
    }
    assert(bytes@.take(i as int) =~= bytes@);
}

} // verus!
