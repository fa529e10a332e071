//! The executable node decoder.
//!
//! [`binary_loads`] reads one nested key/value tree from a byte slice and is
//! proved to return exactly what [`crate::format::spec_read_node`]
//! prescribes — the same node on success, the same error otherwise.

use crate::error::DecodeError;
use crate::format::spec_read_narrow_raw;
use crate::format::spec_read_node;
use crate::format::spec_read_string;
use crate::format::spec_read_value;
use crate::format::spec_read_wide_raw;
use crate::format::BIN_COLOR;
use crate::format::BIN_END;
use crate::format::BIN_END_ALT;
use crate::format::BIN_FLOAT32;
use crate::format::BIN_INT32;
use crate::format::BIN_INT64;
use crate::format::BIN_NONE;
use crate::format::BIN_POINTER;
use crate::format::BIN_STRING;
use crate::format::BIN_UINT64;
use crate::format::BIN_WIDESTRING;
use crate::format::lemma_spec_read_string_advances;
use crate::format::lemma_spec_read_value_advances;
use crate::reader::read_i32_le;
use crate::reader::read_i64_le;
use crate::reader::read_u16_le;
use crate::reader::read_u32_le;
use crate::reader::read_u64_le;
use crate::reader::read_u8;
use crate::text::utf16_lossy;
use crate::text::utf8_lossy;
use crate::value::KeyValue;
use crate::value::Value;
use vstd::prelude::*;

verus! {

/// Reads a null-terminated narrow (1-byte units, UTF-8) or wide (2-byte
/// little-endian units, UTF-16) string; the terminator is consumed and not
/// part of the result. Decoding is lossy and never fails; only a missing
/// terminator does.
pub fn read_string(input: &[u8], pos: usize, wide: bool) -> (r: Result<
    (String, usize),
    DecodeError,
>)
    ensures
        ({
            let sr = spec_read_string(input@, pos as int, wide);
            match r {
                Ok((s, end)) => sr matches Ok(p) && p.0 == s@ && p.1 == end,
                Err(e) => sr matches Err(e2) && e2 == e,
            }
        }),
{
    if wide {
        read_wide_string(input, pos)
    } else {
        read_narrow_string(input, pos)
    }
}

fn read_narrow_string(input: &[u8], pos: usize) -> (r: Result<(String, usize), DecodeError>)
    ensures
        ({
            let sr = spec_read_string(input@, pos as int, false);
            match r {
                Ok((s, end)) => sr matches Ok(p) && p.0 == s@ && p.1 == end,
                Err(e) => sr matches Err(e2) && e2 == e,
            }
        }),
{
    let mut buf: Vec<u8> = Vec::new();
    let mut cur: usize = pos;
    loop
        invariant
            pos <= cur,
            ({
                let full = spec_read_narrow_raw(input@, pos as int);
                match spec_read_narrow_raw(input@, cur as int) {
                    Ok(p) => full matches Ok(q) && q.0 == buf@ + p.0 && q.1 == p.1,
                    Err(e) => full matches Err(e2) && e2 == e,
                }
            }),
        decreases input@.len() - cur,
    {
        match read_u8(input, cur) {
            Err(e) => {
                return Err(e);
            },
            Ok((b, next)) => {
                if b == 0 {
                    proof {
                        assert(buf@ + Seq::<u8>::empty() =~= buf@);
                    }
                    return Ok((utf8_lossy(&buf), next));
                } else {
                    let ghost buf_prev = buf@;
                    buf.push(b);
                    proof {
                        match spec_read_narrow_raw(input@, next as int) {
                            Ok(p) => {
                                assert(buf_prev + (seq![b] + p.0) =~= buf@ + p.0);
                            },
                            Err(_) => {},
                        }
                    }
                    cur = next;
                }
            },
        }
    }
}

fn read_wide_string(input: &[u8], pos: usize) -> (r: Result<(String, usize), DecodeError>)
    ensures
        ({
            let sr = spec_read_string(input@, pos as int, true);
            match r {
                Ok((s, end)) => sr matches Ok(p) && p.0 == s@ && p.1 == end,
                Err(e) => sr matches Err(e2) && e2 == e,
            }
        }),
{
    let mut buf: Vec<u16> = Vec::new();
    let mut cur: usize = pos;
    loop
        invariant
            pos <= cur,
            ({
                let full = spec_read_wide_raw(input@, pos as int);
                match spec_read_wide_raw(input@, cur as int) {
                    Ok(p) => full matches Ok(q) && q.0 == buf@ + p.0 && q.1 == p.1,
                    Err(e) => full matches Err(e2) && e2 == e,
                }
            }),
        decreases input@.len() - cur,
    {
        match read_u16_le(input, cur) {
            Err(e) => {
                return Err(e);
            },
            Ok((unit, next)) => {
                if unit == 0 {
                    proof {
                        assert(buf@ + Seq::<u16>::empty() =~= buf@);
                    }
                    return Ok((utf16_lossy(&buf), next));
                } else {
                    let ghost buf_prev = buf@;
                    buf.push(unit);
                    proof {
                        match spec_read_wide_raw(input@, next as int) {
                            Ok(p) => {
                                assert(buf_prev + (seq![unit] + p.0) =~= buf@ + p.0);
                            },
                            Err(_) => {},
                        }
                    }
                    cur = next;
                }
            },
        }
    }
}

/// Reads one node: `(tag, key, payload)` entries up to the terminator tag of
/// the chosen variant (`BIN_END`, or `BIN_END_ALT` when `alt_format` is
/// set), which is consumed. A later entry for a key overwrites an earlier
/// one. Nested nodes (tag `BIN_NONE`) are read with the same variant.
pub fn binary_loads(input: &[u8], pos: usize, alt_format: bool) -> (r: Result<
    (KeyValue, usize),
    DecodeError,
>)
    ensures
        ({
            let sr = spec_read_node(input@, pos as int, alt_format);
            match r {
                Ok((node, end)) => sr matches Ok(p) && p.0 == node@ && p.1 == end,
                Err(e) => sr matches Err(e2) && e2 == e,
            }
        }),
    decreases input@.len() - pos, 0int,
{
    let mut node = KeyValue::new();
    let mut cur: usize = pos;
    loop
        invariant
            pos <= cur,
            ({
                let full = spec_read_node(input@, pos as int, alt_format);
                match spec_read_node(input@, cur as int, alt_format) {
                    Ok(p) => full matches Ok(q) && q.0 == node@.union_prefer_right(p.0) && q.1
                        == p.1,
                    Err(e) => full matches Err(e2) && e2 == e,
                }
            }),
        decreases input@.len() - cur,
    {
        proof {
            reveal_with_fuel(spec_read_node, 3);
        }
        let (tag, tag_end) = match read_u8(input, cur) {
            Ok(x) => x,
            Err(e) => {
                return Err(e);
            },
        };
        let term = if alt_format {
            BIN_END_ALT
        } else {
            BIN_END
        };
        if tag == term {
            proof {
                assert(node@.union_prefer_right(Map::empty()) =~= node@);
            }
            return Ok((node, tag_end));
        }
        let (key, key_end) = match read_string(input, tag_end, false) {
            Ok(x) => x,
            Err(e) => {
                return Err(e);
            },
        };
        proof {
            lemma_spec_read_string_advances(input@, tag_end as int, false);
        }
        let (value, value_end): (Value, usize) = if tag == BIN_NONE {
            match binary_loads(input, key_end, alt_format) {
                Ok((sub, end)) => (Value::KeyValueType(sub), end),
                Err(e) => {
                    return Err(e);
                },
            }
        } else if tag == BIN_STRING {
            match read_string(input, key_end, false) {
                Ok((s, end)) => (Value::StringType(s), end),
                Err(e) => {
                    return Err(e);
                },
            }
        } else if tag == BIN_WIDESTRING {
            match read_string(input, key_end, true) {
                Ok((s, end)) => (Value::WideStringType(s), end),
                Err(e) => {
                    return Err(e);
                },
            }
        } else if tag == BIN_INT32 {
            match read_i32_le(input, key_end) {
                Ok((v, end)) => (Value::Int32Type(v), end),
                Err(e) => {
                    return Err(e);
                },
            }
        } else if tag == BIN_POINTER {
            match read_i32_le(input, key_end) {
                Ok((v, end)) => (Value::PointerType(v), end),
                Err(e) => {
                    return Err(e);
                },
            }
        } else if tag == BIN_COLOR {
            match read_i32_le(input, key_end) {
                Ok((v, end)) => (Value::ColorType(v), end),
                Err(e) => {
                    return Err(e);
                },
            }
        } else if tag == BIN_UINT64 {
            match read_u64_le(input, key_end) {
                Ok((v, end)) => (Value::UInt64Type(v), end),
                Err(e) => {
                    return Err(e);
                },
            }
        } else if tag == BIN_INT64 {
            match read_i64_le(input, key_end) {
                Ok((v, end)) => (Value::Int64Type(v), end),
                Err(e) => {
                    return Err(e);
                },
            }
        } else if tag == BIN_FLOAT32 {
            match read_u32_le(input, key_end) {
                Ok((bits, end)) => (Value::Float32Type(bits), end),
                Err(e) => {
                    return Err(e);
                },
            }
        } else {
            return Err(DecodeError::InvalidTypeTag(tag));
        };
        proof {
            lemma_spec_read_value_advances(input@, key_end as int, tag, alt_format);
        }
        let ghost node_prev = node@;
        let ghost key_v = key@;
        let ghost value_v = value@;
        node.insert(key, value);
        proof {
            match spec_read_node(input@, value_end as int, alt_format) {
                Ok(p) => {
                    assert(node_prev.union_prefer_right(
                        map![key_v => value_v].union_prefer_right(p.0),
                    ) =~= node@.union_prefer_right(p.0));
                },
                Err(_) => {},
            }
        }
        cur = value_end;
    }
}

} // verus!
