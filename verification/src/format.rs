//! The wire format of a node, read mathematically.
//!
//! These specification functions define what any byte sequence decodes to:
//! either the denoted value together with the position just past its
//! encoding, or the error the decoder owes. The executable decoders in
//! [`crate::node`] are proved to return exactly what these functions say.
//!
//! A node is encoded as repeated `(tag, key, payload)` entries terminated by
//! a one-byte terminator tag; keys are null-terminated narrow strings
//! whatever the variant; payloads follow the tag's layout, and tag
//! `BIN_NONE` introduces a nested node that consumes its own terminator.

use crate::error::DecodeError;
use crate::reader::le16_at;
use crate::reader::le32_at;
use crate::reader::le64_at;
use crate::reader::le_i32_at;
use crate::reader::le_i64_at;
use crate::text::utf16_lossy_of;
use crate::text::utf8_lossy_of;
use crate::value::ValueView;
use vstd::prelude::*;

verus! {

pub const BIN_NONE: u8 = 0x00;

pub const BIN_STRING: u8 = 0x01;

pub const BIN_INT32: u8 = 0x02;

pub const BIN_FLOAT32: u8 = 0x03;

pub const BIN_POINTER: u8 = 0x04;

pub const BIN_WIDESTRING: u8 = 0x05;

pub const BIN_COLOR: u8 = 0x06;

pub const BIN_UINT64: u8 = 0x07;

pub const BIN_END: u8 = 0x08;

pub const BIN_INT64: u8 = 0x0A;

pub const BIN_END_ALT: u8 = 0x0B;

/// The node terminator tag of the chosen encoding variant: `BIN_END` for the
/// standard variant, `BIN_END_ALT` for the alternate one.
pub open spec fn terminator(alt_format: bool) -> u8 {
    if alt_format {
        BIN_END_ALT
    } else {
        BIN_END
    }
}

/// The bytes of a null-terminated narrow string starting at `pos`: everything
/// up to, but not including, the first zero byte, which is consumed.
pub open spec fn spec_read_narrow_raw(input: Seq<u8>, pos: int) -> Result<
    (Seq<u8>, int),
    DecodeError,
>
    decreases input.len() - pos,
{
    if pos < 0 || pos >= input.len() {
        Err(DecodeError::UnexpectedEof)
    } else if input[pos] == 0 {
        Ok((Seq::empty(), pos + 1))
    } else {
        match spec_read_narrow_raw(input, pos + 1) {
            Ok((rest, end)) => Ok((seq![input[pos]] + rest, end)),
            Err(e) => Err(e),
        }
    }
}

/// The code units of a null-terminated wide string starting at `pos`: 2-byte
/// little-endian units up to, but not including, the first zero unit, which
/// is consumed.
pub open spec fn spec_read_wide_raw(input: Seq<u8>, pos: int) -> Result<
    (Seq<u16>, int),
    DecodeError,
>
    decreases input.len() - pos,
{
    if pos < 0 || pos + 2 > input.len() {
        Err(DecodeError::UnexpectedEof)
    } else if le16_at(input, pos) == 0 {
        Ok((Seq::empty(), pos + 2))
    } else {
        match spec_read_wide_raw(input, pos + 2) {
            Ok((rest, end)) => Ok((seq![le16_at(input, pos)] + rest, end)),
            Err(e) => Err(e),
        }
    }
}

/// The string starting at `pos`: narrow strings are decoded as UTF-8, wide
/// ones as UTF-16, both with lossy replacement, so a terminated string never
/// fails to decode.
pub open spec fn spec_read_string(input: Seq<u8>, pos: int, wide: bool) -> Result<
    (Seq<char>, int),
    DecodeError,
>
{
    if wide {
        match spec_read_wide_raw(input, pos) {
            Ok((units, end)) => Ok((utf16_lossy_of(units), end)),
            Err(e) => Err(e),
        }
    } else {
        match spec_read_narrow_raw(input, pos) {
            Ok((bytes, end)) => Ok((utf8_lossy_of(bytes), end)),
            Err(e) => Err(e),
        }
    }
}

/// The node starting at `pos`: `(tag, key, payload)` entries up to the
/// variant's terminator tag. A later entry for a key overwrites an earlier
/// one, which `union_prefer_right` captures.
///
/// The two comparisons against the positions that the key and the payload
/// end at only justify termination; [`lemma_spec_read_string_advances`] and
/// [`lemma_spec_read_value_advances`] show that those branches are never
/// taken.
pub open spec fn spec_read_node(input: Seq<u8>, pos: int, alt_format: bool) -> Result<
    (Map<Seq<char>, ValueView>, int),
    DecodeError,
>
    decreases input.len() - pos, 0int,
{
    if pos < 0 || pos >= input.len() {
        Err(DecodeError::UnexpectedEof)
    } else {
        let tag = input[pos];
        if tag == terminator(alt_format) {
            Ok((Map::empty(), pos + 1))
        } else {
            match spec_read_string(input, pos + 1, false) {
                Err(e) => Err(e),
                Ok((key, key_end)) => if key_end <= pos + 1 || key_end > input.len() {
                    Err(DecodeError::UnexpectedEof)
                } else {
                    match spec_read_value(input, key_end, tag, alt_format) {
                        Err(e) => Err(e),
                        Ok((value, value_end)) => if value_end <= key_end || value_end
                            > input.len() {
                            Err(DecodeError::UnexpectedEof)
                        } else {
                            match spec_read_node(input, value_end, alt_format) {
                                Err(e) => Err(e),
                                Ok((rest, end)) => Ok(
                                    (map![key => value].union_prefer_right(rest), end),
                                ),
                            }
                        },
                    }
                },
            }
        }
    }
}

/// The payload of a non-terminator tag starting at `pos`. Tag `BIN_NONE`
/// recurses into a nested node; every tag outside the recognized set fails
/// with `InvalidTypeTag` carrying that tag.
pub open spec fn spec_read_value(input: Seq<u8>, pos: int, tag: u8, alt_format: bool) -> Result<
    (ValueView, int),
    DecodeError,
>
    decreases input.len() - pos, 1int,
{
    if tag == BIN_NONE {
        match spec_read_node(input, pos, alt_format) {
            Ok((m, end)) => Ok((ValueView::Node(m), end)),
            Err(e) => Err(e),
        }
    } else if tag == BIN_STRING {
        match spec_read_string(input, pos, false) {
            Ok((s, end)) => Ok((ValueView::Text(s), end)),
            Err(e) => Err(e),
        }
    } else if tag == BIN_WIDESTRING {
        match spec_read_string(input, pos, true) {
            Ok((s, end)) => Ok((ValueView::WideText(s), end)),
            Err(e) => Err(e),
        }
    } else if tag == BIN_INT32 || tag == BIN_POINTER || tag == BIN_COLOR {
        if pos < 0 || pos + 4 > input.len() {
            Err(DecodeError::UnexpectedEof)
        } else {
            let v = le_i32_at(input, pos);
            if tag == BIN_INT32 {
                Ok((ValueView::Int32(v), pos + 4))
            } else if tag == BIN_POINTER {
                Ok((ValueView::Pointer(v), pos + 4))
            } else {
                Ok((ValueView::Color(v), pos + 4))
            }
        }
    } else if tag == BIN_UINT64 {
        if pos < 0 || pos + 8 > input.len() {
            Err(DecodeError::UnexpectedEof)
        } else {
            Ok((ValueView::UInt64(le64_at(input, pos)), pos + 8))
        }
    } else if tag == BIN_INT64 {
        if pos < 0 || pos + 8 > input.len() {
            Err(DecodeError::UnexpectedEof)
        } else {
            Ok((ValueView::Int64(le_i64_at(input, pos)), pos + 8))
        }
    } else if tag == BIN_FLOAT32 {
        if pos < 0 || pos + 4 > input.len() {
            Err(DecodeError::UnexpectedEof)
        } else {
            Ok((ValueView::Float32(le32_at(input, pos)), pos + 4))
        }
    } else {
        Err(DecodeError::InvalidTypeTag(tag))
    }
}

/// A narrow string that decodes occupies at least its terminator byte and
/// ends within the input.
pub proof fn lemma_spec_read_narrow_raw_advances(input: Seq<u8>, pos: int)
    ensures
        spec_read_narrow_raw(input, pos) matches Ok(p) ==> pos + 1 <= p.1 <= input.len(),
    decreases input.len() - pos,
{
    if 0 <= pos < input.len() && input[pos] != 0 {
        lemma_spec_read_narrow_raw_advances(input, pos + 1);
    }
}

/// A wide string that decodes occupies at least its 2-byte terminator and
/// ends within the input.
pub proof fn lemma_spec_read_wide_raw_advances(input: Seq<u8>, pos: int)
    ensures
        spec_read_wide_raw(input, pos) matches Ok(p) ==> pos + 2 <= p.1 <= input.len(),
    decreases input.len() - pos,
{
    if 0 <= pos && pos + 2 <= input.len() && le16_at(input, pos) != 0 {
        lemma_spec_read_wide_raw_advances(input, pos + 2);
    }
}

/// A string that decodes occupies at least its terminator and ends within
/// the input.
pub proof fn lemma_spec_read_string_advances(input: Seq<u8>, pos: int, wide: bool)
    ensures
        spec_read_string(input, pos, wide) matches Ok(p) ==> pos + 1 <= p.1 <= input.len(),
{
    if wide {
        lemma_spec_read_wide_raw_advances(input, pos);
    } else {
        lemma_spec_read_narrow_raw_advances(input, pos);
    }
}

/// A node that decodes occupies at least its terminator byte and ends within
/// the input.
pub proof fn lemma_spec_read_node_advances(input: Seq<u8>, pos: int, alt_format: bool)
    ensures
        spec_read_node(input, pos, alt_format) matches Ok(p) ==> pos + 1 <= p.1 <= input.len(),
    decreases input.len() - pos, 0int,
{
    if 0 <= pos < input.len() {
        let tag = input[pos];
        if tag != terminator(alt_format) {
            lemma_spec_read_string_advances(input, pos + 1, false);
            match spec_read_string(input, pos + 1, false) {
                Ok((key, key_end)) => {
                    lemma_spec_read_value_advances(input, key_end, tag, alt_format);
                    match spec_read_value(input, key_end, tag, alt_format) {
                        Ok((value, value_end)) => {
                            if value_end > key_end {
                                lemma_spec_read_node_advances(input, value_end, alt_format);
                            }
                        },
                        Err(_) => {},
                    }
                },
                Err(_) => {},
            }
        }
    }
}

/// A payload that decodes occupies at least one byte and ends within the
/// input.
pub proof fn lemma_spec_read_value_advances(input: Seq<u8>, pos: int, tag: u8, alt_format: bool)
    ensures
        spec_read_value(input, pos, tag, alt_format) matches Ok(p) ==> pos + 1 <= p.1
            <= input.len(),
    decreases input.len() - pos, 1int,
{
    if tag == BIN_NONE {
        lemma_spec_read_node_advances(input, pos, alt_format);
    } else if tag == BIN_STRING {
        lemma_spec_read_string_advances(input, pos, false);
    } else if tag == BIN_WIDESTRING {
        lemma_spec_read_string_advances(input, pos, true);
    }
}

/// A narrow string reads the same from any prefix of the input that still
/// holds all its bytes.
proof fn lemma_narrow_raw_stable(input: Seq<u8>, pos: int, cut: int)
    requires
        spec_read_narrow_raw(input, pos) matches Ok(p) && p.1 <= cut,
        cut <= input.len(),
    ensures
        spec_read_narrow_raw(input.subrange(0, cut), pos) == spec_read_narrow_raw(input, pos),
    decreases input.len() - pos,
{
    lemma_spec_read_narrow_raw_advances(input, pos);
    let trunc = input.subrange(0, cut);
    assert(trunc[pos] == input[pos]);
    if input[pos] != 0 {
        lemma_narrow_raw_stable(input, pos + 1, cut);
    }
}

/// A wide string reads the same from any prefix of the input that still
/// holds all its bytes.
proof fn lemma_wide_raw_stable(input: Seq<u8>, pos: int, cut: int)
    requires
        spec_read_wide_raw(input, pos) matches Ok(p) && p.1 <= cut,
        cut <= input.len(),
    ensures
        spec_read_wide_raw(input.subrange(0, cut), pos) == spec_read_wide_raw(input, pos),
    decreases input.len() - pos,
{
    let trunc = input.subrange(0, cut);
    lemma_spec_read_wide_raw_advances(input, pos);
    assert(trunc.subrange(pos, pos + 2) =~= input.subrange(pos, pos + 2));
    if le16_at(input, pos) != 0 {
        lemma_wide_raw_stable(input, pos + 2, cut);
    }
}

/// A string reads the same from any prefix of the input that still holds
/// all its bytes.
pub proof fn lemma_spec_read_string_stable(input: Seq<u8>, pos: int, wide: bool, cut: int)
    requires
        spec_read_string(input, pos, wide) matches Ok(p) && p.1 <= cut,
        cut <= input.len(),
    ensures
        spec_read_string(input.subrange(0, cut), pos, wide) == spec_read_string(input, pos, wide),
{
    if wide {
        lemma_wide_raw_stable(input, pos, cut);
    } else {
        lemma_narrow_raw_stable(input, pos, cut);
    }
}

/// Cutting the input anywhere strictly before the end of a narrow string
/// that decodes leaves `UnexpectedEof`.
proof fn lemma_narrow_raw_truncated(input: Seq<u8>, pos: int, cut: int)
    requires
        spec_read_narrow_raw(input, pos) matches Ok(p) && cut < p.1,
        pos <= cut,
    ensures
        spec_read_narrow_raw(input.subrange(0, cut), pos) == Err::<(Seq<u8>, int), DecodeError>(
            DecodeError::UnexpectedEof,
        ),
    decreases input.len() - pos,
{
    lemma_spec_read_narrow_raw_advances(input, pos);
    let trunc = input.subrange(0, cut);
    assert(trunc.len() == cut);
    if pos < cut {
        assert(trunc[pos] == input[pos]);
        if input[pos] != 0 {
            lemma_narrow_raw_truncated(input, pos + 1, cut);
        }
    }
}

/// Cutting the input anywhere strictly before the end of a wide string that
/// decodes leaves `UnexpectedEof`.
proof fn lemma_wide_raw_truncated(input: Seq<u8>, pos: int, cut: int)
    requires
        spec_read_wide_raw(input, pos) matches Ok(p) && cut < p.1,
        pos <= cut,
    ensures
        spec_read_wide_raw(input.subrange(0, cut), pos) == Err::<(Seq<u16>, int), DecodeError>(
            DecodeError::UnexpectedEof,
        ),
    decreases input.len() - pos,
{
    let trunc = input.subrange(0, cut);
    lemma_spec_read_wide_raw_advances(input, pos);
    if pos + 2 <= cut {
        assert(trunc.subrange(pos, pos + 2) =~= input.subrange(pos, pos + 2));
        if le16_at(input, pos) != 0 {
            lemma_wide_raw_truncated(input, pos + 2, cut);
        }
    }
}

/// Cutting the input anywhere strictly before the end of a string that
/// decodes leaves `UnexpectedEof`.
pub proof fn lemma_spec_read_string_truncated(input: Seq<u8>, pos: int, wide: bool, cut: int)
    requires
        spec_read_string(input, pos, wide) matches Ok(p) && cut < p.1,
        pos <= cut,
    ensures
        spec_read_string(input.subrange(0, cut), pos, wide) == Err::<(Seq<char>, int), DecodeError>(
            DecodeError::UnexpectedEof,
        ),
{
    if wide {
        lemma_wide_raw_truncated(input, pos, cut);
    } else {
        lemma_narrow_raw_truncated(input, pos, cut);
    }
}

/// A node reads the same from any prefix of the input that still holds all
/// its bytes.
pub proof fn lemma_spec_read_node_stable(input: Seq<u8>, pos: int, alt_format: bool, cut: int)
    requires
        spec_read_node(input, pos, alt_format) matches Ok(p) && p.1 <= cut,
        cut <= input.len(),
    ensures
        spec_read_node(input.subrange(0, cut), pos, alt_format) == spec_read_node(
            input,
            pos,
            alt_format,
        ),
    decreases input.len() - pos, 0int,
{
    reveal_with_fuel(spec_read_node, 3);
    let trunc = input.subrange(0, cut);
    lemma_spec_read_node_advances(input, pos, alt_format);
    let tag = input[pos];
    if tag != terminator(alt_format) {
        lemma_spec_read_string_advances(input, pos + 1, false);
        match spec_read_string(input, pos + 1, false) {
            Ok((key, key_end)) => {
                lemma_spec_read_value_advances(input, key_end, tag, alt_format);
                match spec_read_value(input, key_end, tag, alt_format) {
                    Ok((value, value_end)) => {
                        lemma_spec_read_node_advances(input, value_end, alt_format);
                        match spec_read_node(input, value_end, alt_format) {
                            Ok(_) => {
                                lemma_spec_read_string_stable(input, pos + 1, false, cut);
                                lemma_spec_read_value_stable(input, key_end, tag, alt_format, cut);
                                lemma_spec_read_node_stable(input, value_end, alt_format, cut);
                            },
                            Err(_) => {},
                        }
                    },
                    Err(_) => {},
                }
            },
            Err(_) => {},
        }
    }
}

/// A payload reads the same from any prefix of the input that still holds
/// all its bytes.
pub proof fn lemma_spec_read_value_stable(
    input: Seq<u8>,
    pos: int,
    tag: u8,
    alt_format: bool,
    cut: int,
)
    requires
        spec_read_value(input, pos, tag, alt_format) matches Ok(p) && p.1 <= cut,
        cut <= input.len(),
    ensures
        spec_read_value(input.subrange(0, cut), pos, tag, alt_format) == spec_read_value(
            input,
            pos,
            tag,
            alt_format,
        ),
    decreases input.len() - pos, 1int,
{
    let trunc = input.subrange(0, cut);
    if tag == BIN_NONE {
        lemma_spec_read_node_stable(input, pos, alt_format, cut);
    } else if tag == BIN_STRING {
        lemma_spec_read_string_stable(input, pos, false, cut);
    } else if tag == BIN_WIDESTRING {
        lemma_spec_read_string_stable(input, pos, true, cut);
    } else if tag == BIN_INT32 || tag == BIN_POINTER || tag == BIN_COLOR || tag == BIN_FLOAT32 {
        assert(trunc.subrange(pos, pos + 4) =~= input.subrange(pos, pos + 4));
    } else if tag == BIN_UINT64 || tag == BIN_INT64 {
        assert(trunc.subrange(pos, pos + 8) =~= input.subrange(pos, pos + 8));
    }
}

/// Cutting the input anywhere strictly before the end of a node that
/// decodes leaves `UnexpectedEof`: a node body that ends before completion
/// is reported as truncated, never as something else.
pub proof fn lemma_spec_read_node_truncated(input: Seq<u8>, pos: int, alt_format: bool, cut: int)
    requires
        spec_read_node(input, pos, alt_format) matches Ok(p) && cut < p.1,
        pos <= cut,
    ensures
        spec_read_node(input.subrange(0, cut), pos, alt_format) == Err::<
            (Map<Seq<char>, ValueView>, int),
            DecodeError,
        >(DecodeError::UnexpectedEof),
    decreases input.len() - pos, 0int,
{
    reveal_with_fuel(spec_read_node, 3);
    let trunc = input.subrange(0, cut);
    lemma_spec_read_node_advances(input, pos, alt_format);
    let tag = input[pos];
    if pos < cut && tag != terminator(alt_format) {
        lemma_spec_read_string_advances(input, pos + 1, false);
        match spec_read_string(input, pos + 1, false) {
            Ok((key, key_end)) => {
                lemma_spec_read_value_advances(input, key_end, tag, alt_format);
                if cut < key_end {
                    lemma_spec_read_string_truncated(input, pos + 1, false, cut);
                } else {
                    lemma_spec_read_string_stable(input, pos + 1, false, cut);
                    match spec_read_value(input, key_end, tag, alt_format) {
                        Ok((value, value_end)) => {
                            lemma_spec_read_node_advances(input, value_end, alt_format);
                            if cut < value_end {
                                lemma_spec_read_value_truncated(input, key_end, tag, alt_format, cut);
                            } else {
                                lemma_spec_read_value_stable(input, key_end, tag, alt_format, cut);
                                lemma_spec_read_node_truncated(input, value_end, alt_format, cut);
                            }
                        },
                        Err(_) => {},
                    }
                }
            },
            Err(_) => {},
        }
    }
}

/// Cutting the input anywhere strictly before the end of a payload that
/// decodes leaves `UnexpectedEof`.
pub proof fn lemma_spec_read_value_truncated(
    input: Seq<u8>,
    pos: int,
    tag: u8,
    alt_format: bool,
    cut: int,
)
    requires
        spec_read_value(input, pos, tag, alt_format) matches Ok(p) && cut < p.1,
        pos <= cut,
    ensures
        spec_read_value(input.subrange(0, cut), pos, tag, alt_format) == Err::<
            (ValueView, int),
            DecodeError,
        >(DecodeError::UnexpectedEof),
    decreases input.len() - pos, 1int,
{
    if tag == BIN_NONE {
        lemma_spec_read_node_truncated(input, pos, alt_format, cut);
    } else if tag == BIN_STRING {
        lemma_spec_read_string_truncated(input, pos, false, cut);
    } else if tag == BIN_WIDESTRING {
        lemma_spec_read_string_truncated(input, pos, true, cut);
    }
}

} // verus!
