//! Little-endian integer decoding and length-prefixed reads.
use vstd::prelude::*;

use crate::errors::ParseError;

verus! {

/// The value of the four bytes of `b` at `i`, least significant first.
pub open spec fn le_u32(b: Seq<u8>, i: int) -> u32 {
    (b[i] as int + 0x100 * b[i + 1] + 0x1_0000 * b[i + 2] + 0x100_0000 * b[i + 3]) as u32
}

/// The value of the eight bytes of `b` at `i`, least significant first.
pub open spec fn le_u64(b: Seq<u8>, i: int) -> u64 {
    (le_u32(b, i) as int + 0x1_0000_0000 * le_u32(b, i + 4)) as u64
}

/// Reads the byte of `buf` at 0.
pub fn parse_u8(buf: &[u8]) -> (r: Result<u8, ParseError>)
    ensures
        buf@.len() >= 1 ==> r == Ok::<u8, ParseError>(buf@[0]),
        buf@.len() < 1 ==> r == Err::<u8, ParseError>(ParseError::BufferTooSmall),
{
    parse_u8_at(buf, 0)
}

/// Reads the byte of `buf` at `index`.
pub fn parse_u8_at(buf: &[u8], index: usize) -> (r: Result<u8, ParseError>)
    ensures
        index + 1 <= buf@.len() ==> r == Ok::<u8, ParseError>(buf@[index as int]),
        index + 1 > buf@.len() ==> r == Err::<u8, ParseError>(ParseError::BufferTooSmall),
{
    if index >= buf.len() {
        Err(ParseError::BufferTooSmall)
    } else {
        Ok(buf[index])
    }
}

/// Reads a little-endian `u32` from the start of `buf`.
pub fn parse_le_u32(buf: &[u8]) -> (r: Result<u32, ParseError>)
    ensures
        buf@.len() >= 4 ==> r == Ok::<u32, ParseError>(le_u32(buf@, 0)),
        buf@.len() < 4 ==> r == Err::<u32, ParseError>(ParseError::BufferTooSmall),
{
    parse_le_u32_at(buf, 0)
}

/// Reads a little-endian `u32` from `buf` at `index`.
pub fn parse_le_u32_at(buf: &[u8], index: usize) -> (r: Result<u32, ParseError>)
    ensures
        index + 4 <= buf@.len() ==> r == Ok::<u32, ParseError>(le_u32(buf@, index as int)),
        index + 4 > buf@.len() ==> r == Err::<u32, ParseError>(ParseError::BufferTooSmall),
{
    if index >= buf.len() || buf.len() - index < 4 {
        return Err(ParseError::BufferTooSmall);
    }
    let b0 = buf[index] as u32;
    let b1 = buf[index + 1] as u32;
    let b2 = buf[index + 2] as u32;
    let b3 = buf[index + 3] as u32;
    Ok(b0 + 0x100 * b1 + 0x1_0000 * b2 + 0x100_0000 * b3)
}

/// Reads a little-endian `u64` from the start of `buf`.
pub fn parse_le_u64(buf: &[u8]) -> (r: Result<u64, ParseError>)
    ensures
        buf@.len() >= 8 ==> r == Ok::<u64, ParseError>(le_u64(buf@, 0)),
        buf@.len() < 8 ==> r == Err::<u64, ParseError>(ParseError::BufferTooSmall),
{
    parse_le_u64_at(buf, 0)
}

/// Reads a little-endian `u64` from `buf` at `index`.
pub fn parse_le_u64_at(buf: &[u8], index: usize) -> (r: Result<u64, ParseError>)
    ensures
        index + 8 <= buf@.len() ==> r == Ok::<u64, ParseError>(le_u64(buf@, index as int)),
        index + 8 > buf@.len() ==> r == Err::<u64, ParseError>(ParseError::BufferTooSmall),
{
    if index >= buf.len() || buf.len() - index < 8 {
        return Err(ParseError::BufferTooSmall);
    }
    let lo = parse_le_u32_at(buf, index);
    let hi = parse_le_u32_at(buf, index + 4);
    match (lo, hi) {
        (Ok(lo), Ok(hi)) => Ok(lo as u64 + 0x1_0000_0000 * (hi as u64)),
        _ => Err(ParseError::BufferTooSmall),
    }
}

/// Bytes `len` bytes long that follow the four-byte little-endian length
/// at `pos`: the bytes start at `pos + 4`.
pub open spec fn lengthed_span(b: Seq<u8>, pos: int) -> Option<(int, int)> {
    if pos + 4 > b.len() {
        None
    } else if pos + 4 + le_u32(b, pos) > b.len() {
        None
    } else {
        Some((pos + 4, pos + 4 + le_u32(b, pos)))
    }
}

/// Reads the length-prefixed bytes at `pos`: a four-byte little-endian
/// length `L`, then exactly `L` bytes. Returns the bytes and the position
/// just past them.
pub fn get_lengthed_bytes(buf: &[u8], pos: usize) -> (r: Result<(Vec<u8>, usize), ParseError>)
    ensures
        match lengthed_span(buf@, pos as int) {
            Some((s, e)) => r matches Ok((v, next)) && v@ == buf@.subrange(s, e) && next == e,
            None => r == Err::<(Vec<u8>, usize), ParseError>(ParseError::BufferTooSmall),
        },
{
    if pos > buf.len() || buf.len() - pos < 4 {
        return Err(ParseError::BufferTooSmall);
    }
    let len = match parse_le_u32_at(buf, pos) {
        Ok(l) => l as usize,
        Err(e) => return Err(e),
    };
    let start = pos + 4;
    if buf.len() - start < len {
        return Err(ParseError::BufferTooSmall);
    }
    let v = slice_to_vec(buf, start, start + len);
    Ok((v, start + len))
}

/// Copies `buf[start..end]` into a new vector.
pub fn slice_to_vec(buf: &[u8], start: usize, end: usize) -> (r: Vec<u8>)
    requires
        start <= end <= buf@.len(),
    ensures
        r@ == buf@.subrange(start as int, end as int),
{
    let mut v: Vec<u8> = Vec::with_capacity(end - start);
    let mut i: usize = start;
    while i < end
        invariant
            start <= i <= end <= buf@.len(),
            v@ == buf@.subrange(start as int, i as int),
        decreases end - i,
    {
        v.push(buf[i]);
        i = i + 1;
    }
    v
}

} // verus!
