//! Fixed-width unsigned integers read from byte buffers in either byte order.

use byteorder::{BigEndian, ByteOrder, LittleEndian};
use vstd::prelude::*;

verus! {

/// The byte order of the multi-byte fields of an HSD file.
pub enum Endian {
    Little,
    Big,
}

/// Little-endian value of the two bytes at `i`.
pub open spec fn le_u16_at(b: Seq<u8>, i: int) -> int {
    b[i] + b[i + 1] * 0x100
}

/// Big-endian value of the two bytes at `i`.
pub open spec fn be_u16_at(b: Seq<u8>, i: int) -> int {
    b[i] * 0x100 + b[i + 1]
}

/// Little-endian value of the four bytes at `i`.
pub open spec fn le_u32_at(b: Seq<u8>, i: int) -> int {
    le_u16_at(b, i) + le_u16_at(b, i + 2) * 0x10000
}

/// Big-endian value of the four bytes at `i`.
pub open spec fn be_u32_at(b: Seq<u8>, i: int) -> int {
    be_u16_at(b, i) * 0x10000 + be_u16_at(b, i + 2)
}

/// Little-endian value of the eight bytes at `i`.
pub open spec fn le_u64_at(b: Seq<u8>, i: int) -> int {
    le_u32_at(b, i) + le_u32_at(b, i + 4) * 0x1_0000_0000
}

/// Big-endian value of the eight bytes at `i`.
pub open spec fn be_u64_at(b: Seq<u8>, i: int) -> int {
    be_u32_at(b, i) * 0x1_0000_0000 + be_u32_at(b, i + 4)
}

/// Value of the two bytes at `i` in byte order `e`.
pub open spec fn u16_at(b: Seq<u8>, i: int, e: Endian) -> int {
    match e {
        Endian::Little => le_u16_at(b, i),
        Endian::Big => be_u16_at(b, i),
    }
}

/// Value of the four bytes at `i` in byte order `e`.
pub open spec fn u32_at(b: Seq<u8>, i: int, e: Endian) -> int {
    match e {
        Endian::Little => le_u32_at(b, i),
        Endian::Big => be_u32_at(b, i),
    }
}

/// Value of the eight bytes at `i` in byte order `e`.
pub open spec fn u64_at(b: Seq<u8>, i: int, e: Endian) -> int {
    match e {
        Endian::Little => le_u64_at(b, i),
        Endian::Big => be_u64_at(b, i),
    }
}

/// `byteorder`'s `LittleEndian::read_u16` on the bytes from `at`: the
/// little-endian value of the first two of them.
#[verifier::external_body]
fn read_le_u16(buf: &[u8], at: usize) -> (r: u16)
    requires
        at + 2 <= buf@.len(),
    ensures
        r == le_u16_at(buf@, at as int),
{
    LittleEndian::read_u16(&buf[at..])
}

/// `byteorder`'s `BigEndian::read_u16` on the bytes from `at`: the
/// big-endian value of the first two of them.
#[verifier::external_body]
fn read_be_u16(buf: &[u8], at: usize) -> (r: u16)
    requires
        at + 2 <= buf@.len(),
    ensures
        r == be_u16_at(buf@, at as int),
{
    BigEndian::read_u16(&buf[at..])
}

/// `byteorder`'s `LittleEndian::read_u32` on the bytes from `at`: the
/// little-endian value of the first four of them.
#[verifier::external_body]
fn read_le_u32(buf: &[u8], at: usize) -> (r: u32)
    requires
        at + 4 <= buf@.len(),
    ensures
        r == le_u32_at(buf@, at as int),
{
    LittleEndian::read_u32(&buf[at..])
}

/// `byteorder`'s `BigEndian::read_u32` on the bytes from `at`: the
/// big-endian value of the first four of them.
#[verifier::external_body]
fn read_be_u32(buf: &[u8], at: usize) -> (r: u32)
    requires
        at + 4 <= buf@.len(),
    ensures
        r == be_u32_at(buf@, at as int),
{
    BigEndian::read_u32(&buf[at..])
}

/// `byteorder`'s `LittleEndian::read_u64` on the bytes from `at`: the
/// little-endian value of the first eight of them.
#[verifier::external_body]
fn read_le_u64(buf: &[u8], at: usize) -> (r: u64)
    requires
        at + 8 <= buf@.len(),
    ensures
        r == le_u64_at(buf@, at as int),
{
    LittleEndian::read_u64(&buf[at..])
}

/// `byteorder`'s `BigEndian::read_u64` on the bytes from `at`: the
/// big-endian value of the first eight of them.
#[verifier::external_body]
fn read_be_u64(buf: &[u8], at: usize) -> (r: u64)
    requires
        at + 8 <= buf@.len(),
    ensures
        r == be_u64_at(buf@, at as int),
{
    BigEndian::read_u64(&buf[at..])
}

/// The byte at `at`.
pub fn byte_at(buf: &[u8], at: usize) -> (r: u8)
    requires
        at < buf@.len(),
    ensures
        r == buf@[at as int],
{
    buf[at]
}

/// The two-byte field at `at` in byte order `e`.
pub fn u16_in(buf: &[u8], at: usize, e: &Endian) -> (r: u16)
    requires
        at + 2 <= buf@.len(),
    ensures
        r == u16_at(buf@, at as int, *e),
{
    match e {
        Endian::Little => read_le_u16(buf, at),
        Endian::Big => read_be_u16(buf, at),
    }
}

/// The four-byte field at `at` in byte order `e`.
pub fn u32_in(buf: &[u8], at: usize, e: &Endian) -> (r: u32)
    requires
        at + 4 <= buf@.len(),
    ensures
        r == u32_at(buf@, at as int, *e),
{
    match e {
        Endian::Little => read_le_u32(buf, at),
        Endian::Big => read_be_u32(buf, at),
    }
}

/// The eight-byte field at `at` in byte order `e`.
pub fn u64_in(buf: &[u8], at: usize, e: &Endian) -> (r: u64)
    requires
        at + 8 <= buf@.len(),
    ensures
        r == u64_at(buf@, at as int, *e),
{
    match e {
        Endian::Little => read_le_u64(buf, at),
        Endian::Big => read_be_u64(buf, at),
    }
}

/// The byte decoders are positional: little-endian gives the byte at `i`
/// the lowest weight and each later byte 256 times more; big-endian gives
/// the byte at `i` the highest weight.
pub proof fn lemma_byte_weights(b: Seq<u8>, i: int)
    ensures
        le_u16_at(b, i) == b[i] + 256 * b[i + 1],
        be_u16_at(b, i) == 256 * b[i] + b[i + 1],
        le_u32_at(b, i) == b[i] + 256 * b[i + 1] + 65536 * b[i + 2] + 16777216 * b[i + 3],
        be_u32_at(b, i) == 16777216 * b[i] + 65536 * b[i + 1] + 256 * b[i + 2] + b[i + 3],
        le_u64_at(b, i) == b[i] + 256 * b[i + 1] + 65536 * b[i + 2] + 16777216 * b[i + 3]
            + 4294967296 * b[i + 4] + 1099511627776 * b[i + 5] + 281474976710656 * b[i + 6]
            + 72057594037927936 * b[i + 7],
        be_u64_at(b, i) == 72057594037927936 * b[i] + 281474976710656 * b[i + 1]
            + 1099511627776 * b[i + 2] + 4294967296 * b[i + 3] + 16777216 * b[i + 4] + 65536 * b[
            i + 5] + 256 * b[i + 6] + b[i + 7],
{
}

} // verus!
