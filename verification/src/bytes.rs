//! Little-endian integers in byte buffers.

use vstd::prelude::*;

verus! {

/// The little-endian value of the two bytes at `at`.
pub open spec fn le_u16(s: Seq<u8>, at: int) -> u16 {
    (s[at] + 256 * s[at + 1]) as u16
}

/// The little-endian value of the four bytes at `at`.
pub open spec fn le_u32(s: Seq<u8>, at: int) -> u32 {
    (s[at] + 256 * s[at + 1] + 65536 * s[at + 2] + 16777216 * s[at + 3]) as u32
}

/// The two little-endian bytes of `v`.
pub open spec fn u16_bytes(v: u16) -> Seq<u8> {
    seq![(v % 256) as u8, (v / 256) as u8]
}

/// The four little-endian bytes of `v`.
pub open spec fn u32_bytes(v: u32) -> Seq<u8> {
    seq![(v % 256) as u8, ((v / 256) % 256) as u8, ((v / 65536) % 256) as u8, (v / 16777216) as u8]
}

/// The four little-endian bytes of `v` in two's complement.
pub open spec fn i32_bytes(v: i32) -> Seq<u8> {
    u32_bytes(v as u32)
}

/// The two's complement value of the four bytes at `at`.
pub open spec fn le_i32(s: Seq<u8>, at: int) -> i32 {
    le_u32(s, at) as i32
}

pub proof fn lemma_u16_round_trip(v: u16, rest: Seq<u8>, prefix: Seq<u8>)
    ensures
        le_u16(prefix + u16_bytes(v) + rest, prefix.len() as int) == v,
        u16_bytes(v).len() == 2,
{
    let s = prefix + u16_bytes(v) + rest;
    let p = prefix.len() as int;
    assert(s[p] == (v % 256) as u8);
    assert(s[p + 1] == (v / 256) as u8);
}

pub proof fn lemma_u32_round_trip(v: u32, rest: Seq<u8>, prefix: Seq<u8>)
    ensures
        le_u32(prefix + u32_bytes(v) + rest, prefix.len() as int) == v,
        u32_bytes(v).len() == 4,
{
    let s = prefix + u32_bytes(v) + rest;
    let p = prefix.len() as int;
    assert(s[p] == (v % 256) as u8);
    assert(s[p + 1] == ((v / 256) % 256) as u8);
    assert(s[p + 2] == ((v / 65536) % 256) as u8);
    assert(s[p + 3] == (v / 16777216) as u8);
}

pub proof fn lemma_i32_round_trip(v: i32, rest: Seq<u8>, prefix: Seq<u8>)
    ensures
        le_i32(prefix + i32_bytes(v) + rest, prefix.len() as int) == v,
        i32_bytes(v).len() == 4,
{
    lemma_u32_round_trip(v as u32, rest, prefix);
    assert(((v as u32) as i32) == v) by (bit_vector);
}

/// Reads a `u16` at `at`. The caller keeps `at + 2` within the buffer.
pub fn read_u16(bytes: &[u8], at: usize) -> (r: u16)
    requires
        at + 2 <= bytes@.len(),
    ensures
        r == le_u16(bytes@, at as int),
{
    (bytes[at] as u16) + (bytes[at + 1] as u16) * 256
}

/// Reads a `u32` at `at`. The caller keeps `at + 4` within the buffer.
pub fn read_u32(bytes: &[u8], at: usize) -> (r: u32)
    requires
        at + 4 <= bytes@.len(),
    ensures
        r == le_u32(bytes@, at as int),
{
    (bytes[at] as u32) + (bytes[at + 1] as u32) * 256 + (bytes[at + 2] as u32) * 65536 + (
    bytes[at + 3] as u32) * 16777216
}

/// Reads an `i32` at `at`, two's complement.
pub fn read_i32(bytes: &[u8], at: usize) -> (r: i32)
    requires
        at + 4 <= bytes@.len(),
    ensures
        r == le_i32(bytes@, at as int),
{
    read_u32(bytes, at) as i32
}

/// Appends the two bytes of `value`.
pub fn put_u16(out: &mut Vec<u8>, value: u16)
    ensures
        final(out)@ == old(out)@ + u16_bytes(value),
{
    out.push((value % 256) as u8);
    out.push((value / 256) as u8);
    assert(final(out)@ =~= old(out)@ + u16_bytes(value));
}

/// Appends the four bytes of `value`.
pub fn put_u32(out: &mut Vec<u8>, value: u32)
    ensures
        final(out)@ == old(out)@ + u32_bytes(value),
{
    out.push((value % 256) as u8);
    out.push(((value / 256) % 256) as u8);
    out.push(((value / 65536) % 256) as u8);
    out.push((value / 16777216) as u8);
    assert(final(out)@ =~= old(out)@ + u32_bytes(value));
}

/// Appends the four bytes of `value`, two's complement.
pub fn put_i32(out: &mut Vec<u8>, value: i32)
    ensures
        final(out)@ == old(out)@ + i32_bytes(value),
{
    put_u32(out, value as u32);
}

/// Overwrites the four bytes at `at` with `value`.
pub fn set_u32(bytes: &mut Vec<u8>, at: usize, value: u32)
    requires
        at + 4 <= old(bytes).len(),
    ensures
        final(bytes)@ == old(bytes)@.subrange(0, at as int) + u32_bytes(value) + old(bytes)@.subrange(
            at + 4,
            old(bytes)@.len() as int,
        ),
{
    bytes.set(at, (value % 256) as u8);
    bytes.set(at + 1, ((value / 256) % 256) as u8);
    bytes.set(at + 2, ((value / 65536) % 256) as u8);
    bytes.set(at + 3, (value / 16777216) as u8);
    assert(final(bytes)@ =~= old(bytes)@.subrange(0, at as int) + u32_bytes(value) + old(
        bytes,
    )@.subrange(at + 4, old(bytes)@.len() as int));
}

/// Writing back the four bytes read at `at` gives them back.
pub proof fn lemma_u32_bytes_of_read(s: Seq<u8>, at: int)
    requires
        0 <= at,
        at + 4 <= s.len(),
    ensures
        u32_bytes(le_u32(s, at)) == s.subrange(at, at + 4),
{
    let b0 = s[at];
    let b1 = s[at + 1];
    let b2 = s[at + 2];
    let b3 = s[at + 3];
    let v: int = b0 + 256 * b1 + 65536 * b2 + 16777216 * b3;
    assert(0 <= v < 0x1_0000_0000) by (nonlinear_arith)
        requires
            0 <= b0 < 256,
            0 <= b1 < 256,
            0 <= b2 < 256,
            0 <= b3 < 256,
            v == b0 + 256 * b1 + 65536 * b2 + 16777216 * b3,
    ;
    assert(v % 256 == b0 && (v / 256) % 256 == b1 && (v / 65536) % 256 == b2 && v / 16777216 == b3)
        by (nonlinear_arith)
        requires
            0 <= b0 < 256,
            0 <= b1 < 256,
            0 <= b2 < 256,
            0 <= b3 < 256,
            v == b0 + 256 * b1 + 65536 * b2 + 16777216 * b3,
    ;
    assert(le_u32(s, at) == v);
    assert(u32_bytes(le_u32(s, at)) =~= s.subrange(at, at + 4));
}

} // verus!
