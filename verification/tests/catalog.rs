use vdfr::AppInfo;
use vdfr::DecodeError;
use vdfr::PackageInfo;
use vdfr::Value;

fn push_u32(out: &mut Vec<u8>, x: u32) {
    out.extend_from_slice(&x.to_le_bytes());
}

fn push_u64(out: &mut Vec<u8>, x: u64) {
    out.extend_from_slice(&x.to_le_bytes());
}

fn push_cstr(out: &mut Vec<u8>, s: &str) {
    out.extend_from_slice(s.as_bytes());
    out.push(0);
}

/// Header `version=1, universe=2` followed by the application sentinel.
fn empty_app_bytes() -> Vec<u8> {
    let mut b = Vec::new();
    push_u32(&mut b, 1);
    push_u32(&mut b, 2);
    push_u32(&mut b, 0);
    b
}

/// One application catalog holding a single record under id 5 whose node
/// maps "name" to Text("Half-Life").
fn single_app_bytes() -> Vec<u8> {
    let mut b = Vec::new();
    push_u32(&mut b, 1);
    push_u32(&mut b, 2);
    push_u32(&mut b, 5); // id
    push_u32(&mut b, 10); // size
    push_u32(&mut b, 0); // state
    push_u32(&mut b, 0); // last_update
    push_u64(&mut b, 0); // access_token
    b.extend_from_slice(&[0u8; 20]); // checksum
    push_u32(&mut b, 1); // change_number
    b.push(0x01); // tag: narrow string
    push_cstr(&mut b, "name");
    push_cstr(&mut b, "Half-Life");
    b.push(0x08); // node terminator
    push_u32(&mut b, 0); // sentinel
    b
}

#[test]
fn empty_app_catalog() {
    let info = AppInfo::load(&empty_app_bytes()).unwrap();
    assert_eq!(info.version, 1);
    assert_eq!(info.universe, 2);
    assert!(info.apps.is_empty());
}

#[test]
fn empty_package_catalog() {
    let mut b = Vec::new();
    push_u32(&mut b, 1);
    push_u32(&mut b, 2);
    push_u32(&mut b, 0xFFFF_FFFF);
    let info = PackageInfo::load(&b).unwrap();
    assert_eq!(info.version, 1);
    assert_eq!(info.universe, 2);
    assert!(info.packages.is_empty());
}

#[test]
fn single_app_record() {
    let info = AppInfo::load(&single_app_bytes()).unwrap();
    assert_eq!(info.apps.len(), 1);
    let app = info.apps.get(&5).unwrap();
    assert_eq!(app.size, 10);
    assert_eq!(app.state, 0);
    assert_eq!(app.last_update, 0);
    assert_eq!(app.access_token, 0);
    assert_eq!(app.checksum, vec![0u8; 20]);
    assert_eq!(app.change_number, 1);
    assert_eq!(
        app.key_values.get(&String::from("name")),
        Some(&Value::StringType(String::from("Half-Life")))
    );
}

#[test]
fn app_get_walks_key_path() {
    let info = AppInfo::load(&single_app_bytes()).unwrap();
    let app = info.apps.get(&5).unwrap();
    let keys = vec![String::from("name")];
    assert_eq!(
        app.get(&keys),
        Some(&Value::StringType(String::from("Half-Life")))
    );
    assert_eq!(app.get(&[String::from("missing")]), None);
    assert_eq!(app.get(&[]), None);
}

#[test]
fn package_record_preserves_fields() {
    let mut b = Vec::new();
    push_u32(&mut b, 3);
    push_u32(&mut b, 1);
    push_u32(&mut b, 77); // id
    b.extend_from_slice(&[0xAB; 20]); // checksum
    push_u32(&mut b, 9); // change_number
    push_u64(&mut b, 0x0123_4567_89AB_CDEF); // opaque 8-byte field
    b.push(0x02); // tag: i32
    push_cstr(&mut b, "billingtype");
    push_u32(&mut b, 0xFFFF_FFFF); // -1 as i32, little-endian
    b.push(0x08);
    push_u32(&mut b, 0xFFFF_FFFF); // sentinel
    let info = PackageInfo::load(&b).unwrap();
    assert_eq!(info.version, 3);
    assert_eq!(info.universe, 1);
    let package = info.packages.get(&77).unwrap();
    assert_eq!(package.checksum, vec![0xAB; 20]);
    assert_eq!(package.change_number, 9);
    assert_eq!(package.pics, 0x0123_4567_89AB_CDEF);
    assert_eq!(
        package.key_values.get(&String::from("billingtype")),
        Some(&Value::Int32Type(-1))
    );
}

#[test]
fn later_record_under_same_id_wins() {
    let mut b = Vec::new();
    push_u32(&mut b, 1);
    push_u32(&mut b, 2);
    for change_number in [1u32, 2u32] {
        push_u32(&mut b, 5); // same id twice
        push_u32(&mut b, 0);
        push_u32(&mut b, 0);
        push_u32(&mut b, 0);
        push_u64(&mut b, 0);
        b.extend_from_slice(&[0u8; 20]);
        push_u32(&mut b, change_number);
        b.push(0x08); // empty node
    }
    push_u32(&mut b, 0);
    let info = AppInfo::load(&b).unwrap();
    assert_eq!(info.apps.len(), 1);
    assert_eq!(info.apps.get(&5).unwrap().change_number, 2);
}

#[test]
fn truncated_header_is_eof() {
    assert_eq!(AppInfo::load(&[1, 0, 0, 0, 2, 0]), Err(DecodeError::UnexpectedEof));
    assert_eq!(PackageInfo::load(&[]), Err(DecodeError::UnexpectedEof));
}

#[test]
fn truncated_fixed_fields_are_eof() {
    let good = single_app_bytes();
    // Cut inside the record's fixed-width prefix (id=4 header bytes in).
    let cut = &good[..8 + 4 + 7];
    assert_eq!(AppInfo::load(cut), Err(DecodeError::UnexpectedEof));
}

#[test]
fn truncated_node_body_is_eof() {
    let good = single_app_bytes();
    // Every strict prefix that ends inside the record stream fails with
    // UnexpectedEof and yields no catalog.
    for cut in 0..good.len() {
        assert_eq!(AppInfo::load(&good[..cut]), Err(DecodeError::UnexpectedEof));
    }
}

#[test]
fn missing_sentinel_is_eof() {
    let mut b = empty_app_bytes();
    b.truncate(8); // header only, no sentinel
    assert_eq!(AppInfo::load(&b), Err(DecodeError::UnexpectedEof));
}

#[test]
fn unknown_tag_fails_catalog() {
    let mut b = Vec::new();
    push_u32(&mut b, 1);
    push_u32(&mut b, 2);
    push_u32(&mut b, 5);
    push_u32(&mut b, 0);
    push_u32(&mut b, 0);
    push_u32(&mut b, 0);
    push_u64(&mut b, 0);
    b.extend_from_slice(&[0u8; 20]);
    push_u32(&mut b, 0);
    b.push(0x09); // unrecognized tag inside the node
    push_cstr(&mut b, "k");
    b.push(0x08);
    push_u32(&mut b, 0);
    assert_eq!(AppInfo::load(&b), Err(DecodeError::InvalidTypeTag(0x09)));
}

#[test]
fn trailing_bytes_after_sentinel_are_ignored() {
    let mut b = single_app_bytes();
    b.extend_from_slice(&[0xDE, 0xAD, 0xBE, 0xEF]);
    let info = AppInfo::load(&b).unwrap();
    assert_eq!(info.apps.len(), 1);
}

#[test]
fn decoding_twice_is_deterministic() {
    let b = single_app_bytes();
    let first = AppInfo::load(&b).unwrap();
    let second = AppInfo::load(&b).unwrap();
    assert_eq!(first, second);

    let mut p = Vec::new();
    push_u32(&mut p, 1);
    push_u32(&mut p, 2);
    push_u32(&mut p, 0xFFFF_FFFF);
    assert_eq!(PackageInfo::load(&p).unwrap(), PackageInfo::load(&p).unwrap());
}
