//! Little-endian integer encoding on byte sequences.
use vstd::prelude::*;

verus! {

/// The two bytes of `v`, least significant first.
pub open spec fn le16(v: u16) -> Seq<u8> {
    seq![(v & 0xff) as u8, (v >> 8) as u8]
}

/// The four bytes of `v`, least significant first.
pub open spec fn le32(v: u32) -> Seq<u8> {
    seq![(v & 0xff) as u8, ((v >> 8) & 0xff) as u8, ((v >> 16) & 0xff) as u8, (v >> 24) as u8]
}

/// The 16-bit value whose little-endian bytes are `a`, `b`.
pub open spec fn u16_of(a: u8, b: u8) -> u16 {
    (a as u16) | ((b as u16) << 8)
}

/// The 32-bit value whose little-endian bytes are `a`, `b`, `c`, `d`.
pub open spec fn u32_of(a: u8, b: u8, c: u8, d: u8) -> u32 {
    (a as u32) | ((b as u32) << 8) | ((c as u32) << 16) | ((d as u32) << 24)
}

pub proof fn lemma_u16_round_trip(v: u16)
    ensures
        u16_of(le16(v)[0], le16(v)[1]) == v,
{
    let a = (v & 0xff) as u8;
    let b = (v >> 8) as u8;
    assert(((a as u16) | ((b as u16) << 8)) == v) by (bit_vector)
        requires
            a == (v & 0xff) as u8,
            b == (v >> 8) as u8,
    ;
}

pub proof fn lemma_u16_bytes(a: u8, b: u8)
    ensures
        le16(u16_of(a, b)) == seq![a, b],
{
    let v = u16_of(a, b);
    assert((v & 0xff) as u8 == a && (v >> 8) as u8 == b) by (bit_vector)
        requires
            v == (a as u16) | ((b as u16) << 8),
    ;
    assert(le16(v) =~= seq![a, b]);
}

pub proof fn lemma_u32_round_trip(v: u32)
    ensures
        u32_of(le32(v)[0], le32(v)[1], le32(v)[2], le32(v)[3]) == v,
{
    let a = (v & 0xff) as u8;
    let b = ((v >> 8) & 0xff) as u8;
    let c = ((v >> 16) & 0xff) as u8;
    let d = (v >> 24) as u8;
    assert(((a as u32) | ((b as u32) << 8) | ((c as u32) << 16) | ((d as u32) << 24)) == v)
        by (bit_vector)
        requires
            a == (v & 0xff) as u8,
            b == ((v >> 8) & 0xff) as u8,
            c == ((v >> 16) & 0xff) as u8,
            d == (v >> 24) as u8,
    ;
}

pub proof fn lemma_u32_bytes(a: u8, b: u8, c: u8, d: u8)
    ensures
        le32(u32_of(a, b, c, d)) == seq![a, b, c, d],
{
    let v = u32_of(a, b, c, d);
    assert((v & 0xff) as u8 == a && ((v >> 8) & 0xff) as u8 == b && ((v >> 16) & 0xff) as u8 == c
        && (v >> 24) as u8 == d) by (bit_vector)
        requires
            v == (a as u32) | ((b as u32) << 8) | ((c as u32) << 16) | ((d as u32) << 24),
    ;
    assert(le32(v) =~= seq![a, b, c, d]);
}

/// Appends the little-endian bytes of `v` to `out`.
pub fn push_u16(out: &mut Vec<u8>, v: u16)
    ensures
        final(out)@ == old(out)@ + le16(v),
{
    out.push((v & 0xff) as u8);
    out.push((v >> 8) as u8);
    assert(final(out)@ =~= old(out)@ + le16(v));
}

/// Appends the little-endian bytes of `v` to `out`.
pub fn push_u32(out: &mut Vec<u8>, v: u32)
    ensures
        final(out)@ == old(out)@ + le32(v),
{
    out.push((v & 0xff) as u8);
    out.push(((v >> 8) & 0xff) as u8);
    out.push(((v >> 16) & 0xff) as u8);
    out.push((v >> 24) as u8);
    assert(final(out)@ =~= old(out)@ + le32(v));
}

/// Reads a little-endian 16-bit value at `pos`.
pub fn read_u16(s: &[u8], pos: usize) -> (r: u16)
    requires
        pos + 2 <= s@.len(),
    ensures
        r == u16_of(s@[pos as int], s@[pos + 1]),
{
    (s[pos] as u16) | ((s[pos + 1] as u16) << 8)
}

/// Reads a little-endian 32-bit value at `pos`.
pub fn read_u32(s: &[u8], pos: usize) -> (r: u32)
    requires
        pos + 4 <= s@.len(),
    ensures
        r == u32_of(s@[pos as int], s@[pos + 1], s@[pos + 2], s@[pos + 3]),
{
    (s[pos] as u32) | ((s[pos + 1] as u32) << 8) | ((s[pos + 2] as u32) << 16) | ((s[pos + 3] as u32) << 24)
}

/// Appends all of `src` to `out`.
pub fn push_all(out: &mut Vec<u8>, src: &[u8])
    ensures
        final(out)@ == old(out)@ + src@,
{
    let mut i: usize = 0;
    while i < src.len()
        invariant
            i <= src@.len(),
            out@ == old(out)@ + src@.take(i as int),
        decreases src@.len() - i,
    {
        out.push(src[i]);
        i = i + 1;
        assert(out@ =~= old(out)@ + src@.take(i as int));
    }
    assert(src@.take(i as int) =~= src@);
}

/// A copy of `s[start..end]`.
pub fn copy_range(s: &[u8], start: usize, end: usize) -> (r: Vec<u8>)
    requires
        start <= end <= s@.len(),
    ensures
        r@ == s@.subrange(start as int, end as int),
{
    let mut r: Vec<u8> = Vec::new();
    let mut i: usize = start;
    while i < end
        invariant
            start <= i <= end <= s@.len(),
            r@ == s@.subrange(start as int, i as int),
        decreases end - i,
    {
        r.push(s[i]);
        i = i + 1;
        assert(r@ =~= s@.subrange(start as int, i as int));
    }
    r
}

} // verus!
