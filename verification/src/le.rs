//! Little-endian integer encoding over byte sequences.

use vstd::prelude::*;

verus! {

/// The unsigned value of four little-endian bytes starting at `off`.
pub open spec fn le_u32_at(s: Seq<u8>, off: int) -> int {
    s[off] + 256 * s[off + 1] + 65536 * s[off + 2] + 16777216 * s[off + 3]
}

/// The unsigned value of two little-endian bytes starting at `off`.
pub open spec fn le_u16_at(s: Seq<u8>, off: int) -> int {
    s[off] + 256 * s[off + 1]
}

/// Two's-complement reading of an unsigned 32-bit value.
pub open spec fn u32_as_i32(u: int) -> int {
    if u >= 0x8000_0000 {
        u - 0x1_0000_0000
    } else {
        u
    }
}

/// Two's-complement reading of an unsigned 16-bit value.
pub open spec fn u16_as_i16(u: int) -> int {
    if u >= 0x8000 {
        u - 0x1_0000
    } else {
        u
    }
}

/// The signed value of four little-endian bytes starting at `off`.
pub open spec fn le_i32_at(s: Seq<u8>, off: int) -> int {
    u32_as_i32(le_u32_at(s, off))
}

/// The signed value of two little-endian bytes starting at `off`.
pub open spec fn le_i16_at(s: Seq<u8>, off: int) -> int {
    u16_as_i16(le_u16_at(s, off))
}

/// The four little-endian bytes of an unsigned 32-bit value.
pub open spec fn u32_le_bytes(u: int) -> Seq<u8> {
    seq![(u % 256) as u8, ((u / 256) % 256) as u8, ((u / 65536) % 256) as u8, ((u / 16777216) % 256) as u8]
}

/// The two little-endian bytes of an unsigned 16-bit value.
pub open spec fn u16_le_bytes(u: int) -> Seq<u8> {
    seq![(u % 256) as u8, ((u / 256) % 256) as u8]
}

/// The unsigned 32-bit pattern of a signed value.
pub open spec fn i32_bits(v: int) -> int {
    if v < 0 {
        v + 0x1_0000_0000
    } else {
        v
    }
}

/// The unsigned 16-bit pattern of a signed value.
pub open spec fn i16_bits(v: int) -> int {
    if v < 0 {
        v + 0x1_0000
    } else {
        v
    }
}

/// The four little-endian bytes of a signed 32-bit value.
pub open spec fn i32_le_bytes(v: int) -> Seq<u8> {
    u32_le_bytes(i32_bits(v))
}

/// The two little-endian bytes of a signed 16-bit value.
pub open spec fn i16_le_bytes(v: int) -> Seq<u8> {
    u16_le_bytes(i16_bits(v))
}

/// Reads the little-endian `u32` at `off`.
pub fn read_u32_le(data: &[u8], off: usize) -> (r: u32)
    requires
        off + 4 <= data@.len(),
    ensures
        r == le_u32_at(data@, off as int),
{
    let b0 = data[off] as u32;
    let b1 = data[off + 1] as u32;
    let b2 = data[off + 2] as u32;
    let b3 = data[off + 3] as u32;
    b0 + 256 * b1 + 65536 * b2 + 16777216 * b3
}

/// Reads the little-endian `u16` at `off`.
pub fn read_u16_le(data: &[u8], off: usize) -> (r: u16)
    requires
        off + 2 <= data@.len(),
    ensures
        r == le_u16_at(data@, off as int),
{
    data[off] as u16 + 256 * (data[off + 1] as u16)
}

/// Reinterprets a 32-bit pattern as a signed value.
pub fn u32_to_i32(u: u32) -> (v: i32)
    ensures
        v == u32_as_i32(u as int),
{
    if u >= 0x8000_0000 {
        ((u - 0x8000_0000) as i32) + i32::MIN
    } else {
        u as i32
    }
}

/// Reinterprets a signed value as its 32-bit pattern.
pub fn i32_to_u32(v: i32) -> (u: u32)
    ensures
        u == i32_bits(v as int),
{
    if v < 0 {
        ((v as i64) + 0x1_0000_0000) as u32
    } else {
        v as u32
    }
}

/// Reads the little-endian `i32` at `off`.
pub fn read_i32_le(data: &[u8], off: usize) -> (r: i32)
    requires
        off + 4 <= data@.len(),
    ensures
        r == le_i32_at(data@, off as int),
{
    u32_to_i32(read_u32_le(data, off))
}

/// Reads the little-endian `i16` at `off`.
pub fn read_i16_le(data: &[u8], off: usize) -> (r: i16)
    requires
        off + 2 <= data@.len(),
    ensures
        r == le_i16_at(data@, off as int),
{
    let u = read_u16_le(data, off);
    if u >= 0x8000 {
        ((u - 0x8000) as i16) + i16::MIN
    } else {
        u as i16
    }
}

/// Appends the four little-endian bytes of `u`.
pub fn push_u32_le(out: &mut Vec<u8>, u: u32)
    ensures
        final(out)@ == old(out)@ + u32_le_bytes(u as int),
{
    out.push((u % 256) as u8);
    out.push(((u / 256) % 256) as u8);
    out.push(((u / 65536) % 256) as u8);
    out.push(((u / 16777216) % 256) as u8);
    assert(final(out)@ =~= old(out)@ + u32_le_bytes(u as int));
}

/// Appends the four little-endian bytes of `v`.
pub fn push_i32_le(out: &mut Vec<u8>, v: i32)
    ensures
        final(out)@ == old(out)@ + i32_le_bytes(v as int),
{
    push_u32_le(out, i32_to_u32(v));
}

/// Appends the two little-endian bytes of `u`.
pub fn push_u16_le(out: &mut Vec<u8>, u: u16)
    ensures
        final(out)@ == old(out)@ + u16_le_bytes(u as int),
{
    out.push((u % 256) as u8);
    out.push(((u / 256) % 256) as u8);
    assert(final(out)@ =~= old(out)@ + u16_le_bytes(u as int));
}

/// Appends the two little-endian bytes of `v`.
pub fn push_i16_le(out: &mut Vec<u8>, v: i16)
    ensures
        final(out)@ == old(out)@ + i16_le_bytes(v as int),
{
    let u: u16 = if v < 0 {
        ((v as i32) + 0x1_0000) as u16
    } else {
        v as u16
    };
    push_u16_le(out, u);
}

/// Reading back the bytes of an unsigned 32-bit value gives the value.
pub proof fn lemma_u32_le_roundtrip(u: int, s: Seq<u8>, off: int)
    requires
        0 <= u < 0x1_0000_0000,
        0 <= off,
        off + 4 <= s.len(),
        s.subrange(off, off + 4) == u32_le_bytes(u),
    ensures
        le_u32_at(s, off) == u,
{
    assert(s[off] == s.subrange(off, off + 4)[0]);
    assert(s[off + 1] == s.subrange(off, off + 4)[1]);
    assert(s[off + 2] == s.subrange(off, off + 4)[2]);
    assert(s[off + 3] == s.subrange(off, off + 4)[3]);
}

/// Reading back the bytes of a signed 32-bit value gives the value.
pub proof fn lemma_i32_le_roundtrip(v: int, s: Seq<u8>, off: int)
    requires
        -0x8000_0000 <= v < 0x8000_0000,
        0 <= off,
        off + 4 <= s.len(),
        s.subrange(off, off + 4) == i32_le_bytes(v),
    ensures
        le_i32_at(s, off) == v,
{
    lemma_u32_le_roundtrip(i32_bits(v), s, off);
}

/// Reading back the bytes of a signed 16-bit value gives the value.
pub proof fn lemma_i16_le_roundtrip(v: int, s: Seq<u8>, off: int)
    requires
        -0x8000 <= v < 0x8000,
        0 <= off,
        off + 2 <= s.len(),
        s.subrange(off, off + 2) == i16_le_bytes(v),
    ensures
        le_i16_at(s, off) == v,
{
    assert(s[off] == s.subrange(off, off + 2)[0]);
    assert(s[off + 1] == s.subrange(off, off + 2)[1]);
}

/// Reading back the bytes of an unsigned 16-bit value gives the value.
pub proof fn lemma_u16_le_roundtrip(u: int, s: Seq<u8>, off: int)
    requires
        0 <= u < 0x1_0000,
        0 <= off,
        off + 2 <= s.len(),
        s.subrange(off, off + 2) == u16_le_bytes(u),
    ensures
        le_u16_at(s, off) == u,
{
    assert(s[off] == s.subrange(off, off + 2)[0]);
    assert(s[off + 1] == s.subrange(off, off + 2)[1]);
}

} // verus!
