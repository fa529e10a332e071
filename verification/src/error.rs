//! Decode failures.

use vstd::prelude::*;

verus! {

/// Why a decode call failed.
///
/// A decode call either returns a complete catalog or exactly one of these;
/// no partially built catalog is ever handed back.
#[derive(Clone, Copy, Debug, PartialEq, Eq, Structural)]
pub enum DecodeError {
    /// The input ended before a fixed-size field, a string terminator, or a
    /// record or node boundary was fully read.
    UnexpectedEof,
    /// A byte outside the recognized tag set appeared where a type tag was
    /// expected; the offending byte is carried along.
    InvalidTypeTag(u8),
}

} // verus!
