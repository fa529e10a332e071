//! Fixed-width little-endian reads over a byte slice.
//!
//! Every decoder in this crate walks the input as a forward-only cursor: a
//! byte slice together with a position. Each read here either returns the
//! value and the position just past it, or `UnexpectedEof` exactly when the
//! input is too short — and nothing else.

use crate::error::DecodeError;
use vstd::prelude::*;

verus! {

/// The `u16` stored little-endian at `pos`.
pub open spec fn le16_at(input: Seq<u8>, pos: int) -> u16 {
    vstd::bytes::spec_u16_from_le_bytes(input.subrange(pos, pos + 2))
}

/// The `u32` stored little-endian at `pos`.
pub open spec fn le32_at(input: Seq<u8>, pos: int) -> u32 {
    vstd::bytes::spec_u32_from_le_bytes(input.subrange(pos, pos + 4))
}

/// The `u64` stored little-endian at `pos`.
pub open spec fn le64_at(input: Seq<u8>, pos: int) -> u64 {
    vstd::bytes::spec_u64_from_le_bytes(input.subrange(pos, pos + 8))
}

/// The `i32` stored little-endian, two's complement, at `pos`.
pub open spec fn le_i32_at(input: Seq<u8>, pos: int) -> i32 {
    le32_at(input, pos) as i32
}

/// The `i64` stored little-endian, two's complement, at `pos`.
pub open spec fn le_i64_at(input: Seq<u8>, pos: int) -> i64 {
    le64_at(input, pos) as i64
}

/// Reads one byte.
pub(crate) fn read_u8(input: &[u8], pos: usize) -> (r: Result<(u8, usize), DecodeError>)
    ensures
        match r {
            Ok((b, end)) => pos < input@.len() && b == input@[pos as int] && end == pos + 1,
            Err(e) => pos >= input@.len() && e == DecodeError::UnexpectedEof,
        },
{
    if pos < input.len() {
        let b = *vstd::slice::slice_index_get(input, pos);
        Ok((b, pos + 1))
    } else {
        Err(DecodeError::UnexpectedEof)
    }
}

/// Reads a little-endian `u16`.
pub(crate) fn read_u16_le(input: &[u8], pos: usize) -> (r: Result<(u16, usize), DecodeError>)
    ensures
        match r {
            Ok((v, end)) => pos + 2 <= input@.len() && v == le16_at(input@, pos as int) && end
                == pos + 2,
            Err(e) => pos + 2 > input@.len() && e == DecodeError::UnexpectedEof,
        },
{
    if pos <= input.len() && input.len() - pos >= 2 {
        let s = vstd::slice::slice_subrange(input, pos, pos + 2);
        Ok((vstd::bytes::u16_from_le_bytes(s), pos + 2))
    } else {
        Err(DecodeError::UnexpectedEof)
    }
}

/// Reads a little-endian `u32`.
pub(crate) fn read_u32_le(input: &[u8], pos: usize) -> (r: Result<(u32, usize), DecodeError>)
    ensures
        match r {
            Ok((v, end)) => pos + 4 <= input@.len() && v == le32_at(input@, pos as int) && end
                == pos + 4,
            Err(e) => pos + 4 > input@.len() && e == DecodeError::UnexpectedEof,
        },
{
    if pos <= input.len() && input.len() - pos >= 4 {
        let s = vstd::slice::slice_subrange(input, pos, pos + 4);
        Ok((vstd::bytes::u32_from_le_bytes(s), pos + 4))
    } else {
        Err(DecodeError::UnexpectedEof)
    }
}

/// Reads a little-endian `u64`.
pub(crate) fn read_u64_le(input: &[u8], pos: usize) -> (r: Result<(u64, usize), DecodeError>)
    ensures
        match r {
            Ok((v, end)) => pos + 8 <= input@.len() && v == le64_at(input@, pos as int) && end
                == pos + 8,
            Err(e) => pos + 8 > input@.len() && e == DecodeError::UnexpectedEof,
        },
{
    if pos <= input.len() && input.len() - pos >= 8 {
        let s = vstd::slice::slice_subrange(input, pos, pos + 8);
        Ok((vstd::bytes::u64_from_le_bytes(s), pos + 8))
    } else {
        Err(DecodeError::UnexpectedEof)
    }
}

/// Reads a little-endian `i32` (two's complement).
pub(crate) fn read_i32_le(input: &[u8], pos: usize) -> (r: Result<(i32, usize), DecodeError>)
    ensures
        match r {
            Ok((v, end)) => pos + 4 <= input@.len() && v == le_i32_at(input@, pos as int) && end
                == pos + 4,
            Err(e) => pos + 4 > input@.len() && e == DecodeError::UnexpectedEof,
        },
{
    match read_u32_le(input, pos) {
        Ok((v, end)) => Ok((
            #[verifier::truncate]
            (v as i32),
            end,
        )),
        Err(e) => Err(e),
    }
}

/// Reads a little-endian `i64` (two's complement).
pub(crate) fn read_i64_le(input: &[u8], pos: usize) -> (r: Result<(i64, usize), DecodeError>)
    ensures
        match r {
            Ok((v, end)) => pos + 8 <= input@.len() && v == le_i64_at(input@, pos as int) && end
                == pos + 8,
            Err(e) => pos + 8 > input@.len() && e == DecodeError::UnexpectedEof,
        },
{
    match read_u64_le(input, pos) {
        Ok((v, end)) => Ok((
            #[verifier::truncate]
            (v as i64),
            end,
        )),
        Err(e) => Err(e),
    }
}

/// Reads `n` bytes verbatim.
pub(crate) fn read_bytes(input: &[u8], pos: usize, n: usize) -> (r: Result<
    (Vec<u8>, usize),
    DecodeError,
>)
    ensures
        match r {
            Ok((b, end)) => pos + n <= input@.len() && b@ == input@.subrange(
                pos as int,
                pos + n,
            ) && end == pos + n,
            Err(e) => pos + n > input@.len() && e == DecodeError::UnexpectedEof,
        },
{
    if pos <= input.len() && input.len() - pos >= n {
        let s = vstd::slice::slice_subrange(input, pos, pos + n);
        Ok((vstd::slice::slice_to_vec(s), pos + n))
    } else {
        Err(DecodeError::UnexpectedEof)
    }
}

} // verus!
