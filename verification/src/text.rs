//! Lossy text decoding, named but not interpreted.
//!
//! The wire format stores strings as null-terminated byte or code-unit
//! sequences; what character sequence a given byte sequence decodes to is
//! delegated to the standard library. The two results are given names here
//! so that every contract can speak of them exactly without restating the
//! Unicode algorithms.

use vstd::prelude::*;

verus! {

/// The character sequence that decoding `bytes` as UTF-8 yields, with every
/// invalid sequence replaced by U+FFFD; a function of the bytes alone.
pub uninterp spec fn utf8_lossy_of(bytes: Seq<u8>) -> Seq<char>;

/// The character sequence that decoding `units` as UTF-16 yields, with every
/// unpaired surrogate replaced by U+FFFD; a function of the units alone.
pub uninterp spec fn utf16_lossy_of(units: Seq<u16>) -> Seq<char>;

/// Relies on `String::from_utf8_lossy`: decodes the bytes as UTF-8,
/// replacing invalid sequences with U+FFFD; the result depends on the bytes
/// alone.
#[verifier::external_body]
pub(crate) fn utf8_lossy(bytes: &Vec<u8>) -> (r: String)
    ensures
        r@ == utf8_lossy_of(bytes@),
{
    String::from_utf8_lossy(bytes).into_owned()
}

/// Relies on `String::from_utf16_lossy`: decodes the code units as UTF-16,
/// replacing unpaired surrogates with U+FFFD; the result depends on the
/// units alone.
#[verifier::external_body]
pub(crate) fn utf16_lossy(units: &Vec<u16>) -> (r: String)
    ensures
        r@ == utf16_lossy_of(units@),
{
    String::from_utf16_lossy(units)
}

} // verus!
