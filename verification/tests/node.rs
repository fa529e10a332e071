use vdfr::node::binary_loads;
use vdfr::node::read_string;
use vdfr::DecodeError;
use vdfr::KeyValue;
use vdfr::Value;

fn push_cstr(out: &mut Vec<u8>, s: &str) {
    out.extend_from_slice(s.as_bytes());
    out.push(0);
}

fn key(s: &str) -> String {
    String::from(s)
}

#[test]
fn empty_node() {
    let (node, end) = binary_loads(&[0x08], 0, false).unwrap();
    assert_eq!(end, 1);
    assert_eq!(node.get(&key("anything")), None);
}

#[test]
fn duplicate_key_second_value_wins() {
    let mut b = Vec::new();
    b.push(0x02);
    push_cstr(&mut b, "k");
    b.extend_from_slice(&1i32.to_le_bytes());
    b.push(0x02);
    push_cstr(&mut b, "k");
    b.extend_from_slice(&2i32.to_le_bytes());
    b.push(0x08);
    let (node, end) = binary_loads(&b, 0, false).unwrap();
    assert_eq!(end, b.len());
    assert_eq!(node.get(&key("k")), Some(&Value::Int32Type(2)));
}

#[test]
fn nested_node_round_trip() {
    let mut b = Vec::new();
    b.push(0x00); // nested node
    push_cstr(&mut b, "outer");
    b.push(0x02);
    push_cstr(&mut b, "inner");
    b.extend_from_slice(&7i32.to_le_bytes());
    b.push(0x08); // inner terminator
    b.push(0x02); // parsing must resume in the outer node here
    push_cstr(&mut b, "after");
    b.extend_from_slice(&9i32.to_le_bytes());
    b.push(0x08); // outer terminator
    let (node, end) = binary_loads(&b, 0, false).unwrap();
    assert_eq!(end, b.len());
    match node.get(&key("outer")) {
        Some(Value::KeyValueType(sub)) => {
            assert_eq!(sub.get(&key("inner")), Some(&Value::Int32Type(7)));
            assert_eq!(sub.get(&key("after")), None);
        }
        other => panic!("expected a nested node, got {:?}", other),
    }
    assert_eq!(node.get(&key("after")), Some(&Value::Int32Type(9)));
}

#[test]
fn unknown_tag_is_reported_with_its_value() {
    let mut b = Vec::new();
    b.push(0x09);
    push_cstr(&mut b, "k");
    b.push(0x08);
    assert_eq!(binary_loads(&b, 0, false), Err(DecodeError::InvalidTypeTag(0x09)));
}

#[test]
fn terminator_tags_are_not_valid_value_tags_of_the_other_variant() {
    // In the alternate variant 0x0B closes the node and 0x08 is no tag at all.
    let alt_ok = binary_loads(&[0x0B], 0, true).unwrap();
    assert_eq!(alt_ok.1, 1);
    let mut b = Vec::new();
    b.push(0x08);
    push_cstr(&mut b, "k");
    b.push(0x0B);
    assert_eq!(binary_loads(&b, 0, true), Err(DecodeError::InvalidTypeTag(0x08)));
    // In the standard variant it is the other way round.
    let mut c = Vec::new();
    c.push(0x0B);
    push_cstr(&mut c, "k");
    c.push(0x08);
    assert_eq!(binary_loads(&c, 0, false), Err(DecodeError::InvalidTypeTag(0x0B)));
}

#[test]
fn alternate_variant_decodes_entries() {
    let mut b = Vec::new();
    b.push(0x02);
    push_cstr(&mut b, "k");
    b.extend_from_slice(&5i32.to_le_bytes());
    b.push(0x0B);
    let (node, end) = binary_loads(&b, 0, true).unwrap();
    assert_eq!(end, b.len());
    assert_eq!(node.get(&key("k")), Some(&Value::Int32Type(5)));
}

#[test]
fn every_scalar_tag_decodes_to_its_variant() {
    let mut b = Vec::new();
    b.push(0x02);
    push_cstr(&mut b, "int32");
    b.extend_from_slice(&(-1i32).to_le_bytes());
    b.push(0x04);
    push_cstr(&mut b, "pointer");
    b.extend_from_slice(&12i32.to_le_bytes());
    b.push(0x06);
    push_cstr(&mut b, "color");
    b.extend_from_slice(&(-5i32).to_le_bytes());
    b.push(0x07);
    push_cstr(&mut b, "uint64");
    b.extend_from_slice(&u64::MAX.to_le_bytes());
    b.push(0x0A);
    push_cstr(&mut b, "int64");
    b.extend_from_slice(&(-3i64).to_le_bytes());
    b.push(0x03);
    push_cstr(&mut b, "float32");
    b.extend_from_slice(&0x4049_0FDBu32.to_le_bytes()); // bits kept verbatim
    b.push(0x08);
    let (node, _) = binary_loads(&b, 0, false).unwrap();
    assert_eq!(node.get(&key("int32")), Some(&Value::Int32Type(-1)));
    assert_eq!(node.get(&key("pointer")), Some(&Value::PointerType(12)));
    assert_eq!(node.get(&key("color")), Some(&Value::ColorType(-5)));
    assert_eq!(node.get(&key("uint64")), Some(&Value::UInt64Type(u64::MAX)));
    assert_eq!(node.get(&key("int64")), Some(&Value::Int64Type(-3)));
    assert_eq!(node.get(&key("float32")), Some(&Value::Float32Type(0x4049_0FDB)));
    assert_eq!(f32::from_bits(0x4049_0FDB), std::f32::consts::PI);
}

#[test]
fn narrow_string_reads_up_to_terminator() {
    let mut b = Vec::new();
    push_cstr(&mut b, "hello");
    b.push(0xAA); // past the terminator, must stay unread
    let (s, end) = read_string(&b, 0, false).unwrap();
    assert_eq!(s, "hello");
    assert_eq!(end, 6);
}

#[test]
fn narrow_string_replaces_invalid_utf8() {
    let b = [b'a', 0xFF, b'b', 0];
    let (s, end) = read_string(&b, 0, false).unwrap();
    assert_eq!(s, "a\u{FFFD}b");
    assert_eq!(end, 4);
}

#[test]
fn wide_string_reads_utf16_units() {
    // 'h', 'é', 'i', terminator — each unit 2 bytes little-endian.
    let b = [0x68, 0x00, 0xE9, 0x00, 0x69, 0x00, 0x00, 0x00];
    let (s, end) = read_string(&b, 0, true).unwrap();
    assert_eq!(s, "héi");
    assert_eq!(end, 8);
}

#[test]
fn wide_string_replaces_unpaired_surrogate() {
    let b = [0x00, 0xD8, 0x00, 0x00]; // lone high surrogate 0xD800
    let (s, _) = read_string(&b, 0, true).unwrap();
    assert_eq!(s, "\u{FFFD}");
}

#[test]
fn unterminated_string_is_eof() {
    assert_eq!(read_string(b"abc", 0, false), Err(DecodeError::UnexpectedEof));
    // A wide read also fails on an odd trailing byte.
    assert_eq!(read_string(&[0x61, 0x00, 0x62], 0, true), Err(DecodeError::UnexpectedEof));
}

#[test]
fn truncated_payload_is_eof() {
    let mut b = Vec::new();
    b.push(0x02);
    push_cstr(&mut b, "k");
    b.extend_from_slice(&[1, 2]); // only half of the 4-byte payload
    assert_eq!(binary_loads(&b, 0, false), Err(DecodeError::UnexpectedEof));
}

#[test]
fn missing_node_terminator_is_eof() {
    let mut b = Vec::new();
    b.push(0x02);
    push_cstr(&mut b, "k");
    b.extend_from_slice(&1i32.to_le_bytes());
    // no 0x08
    assert_eq!(binary_loads(&b, 0, false), Err(DecodeError::UnexpectedEof));
}

#[test]
fn keyvalue_insert_then_get() {
    let mut node = KeyValue::new();
    node.insert(key("a"), Value::Int32Type(1));
    node.insert(key("b"), Value::StringType(key("x")));
    node.insert(key("a"), Value::Int32Type(2));
    assert_eq!(node.get(&key("a")), Some(&Value::Int32Type(2)));
    assert_eq!(node.get(&key("b")), Some(&Value::StringType(key("x"))));
    assert_eq!(node.get(&key("c")), None);
}

#[test]
fn lookup_walks_nested_nodes() {
    let mut inner = KeyValue::new();
    inner.insert(key("leaf"), Value::UInt64Type(4));
    let mut outer = KeyValue::new();
    outer.insert(key("mid"), Value::KeyValueType(inner));
    outer.insert(key("plain"), Value::Int32Type(1));

    let path = [key("mid"), key("leaf")];
    assert_eq!(outer.lookup(&path), Some(&Value::UInt64Type(4)));
    assert_eq!(outer.lookup(&[key("mid"), key("absent")]), None);
    assert_eq!(outer.lookup(&[key("plain"), key("leaf")]), None);
    assert_eq!(outer.lookup(&[key("plain")]), Some(&Value::Int32Type(1)));
    assert_eq!(outer.lookup(&[]), None);
}

#[test]
fn empty_key_and_empty_string_value() {
    let mut b = Vec::new();
    b.push(0x01);
    b.push(0); // empty key
    b.push(0); // empty value
    b.push(0x08);
    let (node, end) = binary_loads(&b, 0, false).unwrap();
    assert_eq!(end, 4);
    assert_eq!(node.get(&key("")), Some(&Value::StringType(String::new())));
}

#[test]
fn node_decoding_twice_is_deterministic() {
    let mut b = Vec::new();
    b.push(0x05);
    push_cstr(&mut b, "w");
    b.extend_from_slice(&[0x68, 0x00, 0x00, 0x00]); // wide "h"
    b.push(0x08);
    assert_eq!(binary_loads(&b, 0, false), binary_loads(&b, 0, false));
}
