//! Big-endian integer encoding, and fixed byte strings.
use vstd::prelude::*;

verus! {

/// Big-endian bytes of a `u16`.
pub open spec fn be_u16(v: u16) -> Seq<u8> {
    seq![(v >> 8u16) as u8, v as u8]
}

/// Big-endian bytes of a `u32`.
pub open spec fn be_u32(v: u32) -> Seq<u8> {
    seq![(v >> 24u32) as u8, (v >> 16u32) as u8, (v >> 8u32) as u8, v as u8]
}

/// Big-endian bytes of a `u64`.
pub open spec fn be_u64(v: u64) -> Seq<u8> {
    seq![
        (v >> 56u64) as u8, (v >> 48u64) as u8, (v >> 40u64) as u8, (v >> 32u64) as u8,
        (v >> 24u64) as u8, (v >> 16u64) as u8, (v >> 8u64) as u8, v as u8,
    ]
}

/// The `u16` whose big-endian bytes these are.
pub open spec fn u16_of_be(b0: u8, b1: u8) -> u16 {
    ((b0 as u16) << 8u16) | (b1 as u16)
}

/// The `u32` whose big-endian bytes these are.
pub open spec fn u32_of_be(b0: u8, b1: u8, b2: u8, b3: u8) -> u32 {
    ((b0 as u32) << 24u32) | ((b1 as u32) << 16u32) | ((b2 as u32) << 8u32) | (b3 as u32)
}

/// Append the big-endian bytes of a `u16`.
pub fn push_u16(out: &mut Vec<u8>, v: u16)
    ensures
        final(out)@ == old(out)@ + be_u16(v),
{
    out.push((v >> 8) as u8);
    out.push(v as u8);
    assert(final(out)@ =~= old(out)@ + be_u16(v));
}

/// Append the big-endian bytes of a `u32`.
pub fn push_u32(out: &mut Vec<u8>, v: u32)
    ensures
        final(out)@ == old(out)@ + be_u32(v),
{
    out.push((v >> 24) as u8);
    out.push((v >> 16) as u8);
    out.push((v >> 8) as u8);
    out.push(v as u8);
    assert(final(out)@ =~= old(out)@ + be_u32(v));
}

/// Append the big-endian bytes of a `u64`.
pub fn push_u64(out: &mut Vec<u8>, v: u64)
    ensures
        final(out)@ == old(out)@ + be_u64(v),
{
    out.push((v >> 56) as u8);
    out.push((v >> 48) as u8);
    out.push((v >> 40) as u8);
    out.push((v >> 32) as u8);
    out.push((v >> 24) as u8);
    out.push((v >> 16) as u8);
    out.push((v >> 8) as u8);
    out.push(v as u8);
    assert(final(out)@ =~= old(out)@ + be_u64(v));
}

/// Append a byte slice.
pub fn push_bytes(out: &mut Vec<u8>, src: &[u8])
    ensures
        final(out)@ == old(out)@ + src@,
{
    let mut i: usize = 0;
    while i < src.len()
        invariant
            i <= src@.len(),
            out@ == old(out)@ + src@.take(i as int),
        decreases src@.len() - i,
    {
        out.push(src[i]);
        i = i + 1;
        assert(out@ =~= old(out)@ + src@.take(i as int));
    }
    assert(src@.take(src@.len() as int) =~= src@);
}

/// Reading back big-endian `u16` bytes gives the value.
pub proof fn u16_round_trip(v: u16)
    ensures
        u16_of_be(be_u16(v)[0], be_u16(v)[1]) == v,
{
    assert((((v >> 8u16) as u8) as u16) << 8u16 | ((v as u8) as u16) == v) by (bit_vector);
}

/// Reading back big-endian `u32` bytes gives the value.
pub proof fn u32_round_trip(v: u32)
    ensures
        u32_of_be(be_u32(v)[0], be_u32(v)[1], be_u32(v)[2], be_u32(v)[3]) == v,
{
    assert(((((v >> 24u32) as u8) as u32) << 24u32) | ((((v >> 16u32) as u8) as u32) << 16u32)
        | ((((v >> 8u32) as u8) as u32) << 8u32) | ((v as u8) as u32) == v) by (bit_vector);
}

/// Big-endian bytes determine the `u32`.
pub proof fn be_u32_injective(a: u32, b: u32)
    requires
        be_u32(a) == be_u32(b),
    ensures
        a == b,
{
    u32_round_trip(a);
    u32_round_trip(b);
}

/// Two big-endian `u16` readings agree only on the same two bytes.
pub proof fn u16_of_be_injective(x0: u8, x1: u8, y0: u8, y1: u8)
    requires
        u16_of_be(x0, x1) == u16_of_be(y0, y1),
    ensures
        x0 == y0 && x1 == y1,
{
    assert(((x0 as u16) << 8u16) | (x1 as u16) == ((y0 as u16) << 8u16) | (y1 as u16) ==> x0 == y0 && x1 == y1)
        by (bit_vector);
}

/// Two big-endian `u32` readings agree only on the same four bytes.
pub proof fn u32_of_be_injective(x0: u8, x1: u8, x2: u8, x3: u8, y0: u8, y1: u8, y2: u8, y3: u8)
    requires
        u32_of_be(x0, x1, x2, x3) == u32_of_be(y0, y1, y2, y3),
    ensures
        x0 == y0 && x1 == y1 && x2 == y2 && x3 == y3,
{
    assert(((x0 as u32) << 24u32) | ((x1 as u32) << 16u32) | ((x2 as u32) << 8u32) | (x3 as u32) == ((y0 as u32)
        << 24u32) | ((y1 as u32) << 16u32) | ((y2 as u32) << 8u32) | (y3 as u32) ==> x0 == y0 && x1 == y1 && x2
        == y2 && x3 == y3) by (bit_vector);
}

/// Big-endian bytes determine the `u64`.
pub proof fn be_u64_injective(a: u64, b: u64)
    requires
        be_u64(a) == be_u64(b),
    ensures
        a == b,
{
    assert(be_u64(a)[0] == be_u64(b)[0] && be_u64(a)[1] == be_u64(b)[1] && be_u64(a)[2] == be_u64(b)[2]
        && be_u64(a)[3] == be_u64(b)[3]);
    assert(be_u64(a)[4] == be_u64(b)[4] && be_u64(a)[5] == be_u64(b)[5] && be_u64(a)[6] == be_u64(b)[6]
        && be_u64(a)[7] == be_u64(b)[7]);
    assert(((a >> 56u64) as u8 == (b >> 56u64) as u8 && (a >> 48u64) as u8 == (b >> 48u64) as u8 && (a
        >> 40u64) as u8 == (b >> 40u64) as u8 && (a >> 32u64) as u8 == (b >> 32u64) as u8 && (a >> 24u64) as u8
        == (b >> 24u64) as u8 && (a >> 16u64) as u8 == (b >> 16u64) as u8 && (a >> 8u64) as u8 == (b >> 8u64) as u8
        && a as u8 == b as u8) ==> a == b) by (bit_vector);
}

/// Of two byte strings that agree, equal-length starts are equal, and so are the rests.
pub proof fn split_equal_prefix(a1: Seq<u8>, r1: Seq<u8>, a2: Seq<u8>, r2: Seq<u8>)
    requires
        a1.len() == a2.len(),
        a1 + r1 == a2 + r2,
    ensures
        a1 == a2,
        r1 == r2,
{
    assert(a1 =~= (a1 + r1).take(a1.len() as int));
    assert(a2 =~= (a2 + r2).take(a2.len() as int));
    assert(r1 =~= (a1 + r1).skip(a1.len() as int));
    assert(r2 =~= (a2 + r2).skip(a2.len() as int));
}

} // verus!
