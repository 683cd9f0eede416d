use ticklist::ids::{format_id, parse_id, IdGen};

#[test]
fn fresh_ids_are_version_seven() {
    let mut gen = IdGen::new();
    let id = gen.next();
    assert_eq!((id >> 76) & 0xf, 7);
    assert_eq!((id >> 62) & 0x3, 2);
}

#[test]
fn sequential_ids_distinct_and_ordered() {
    let mut gen = IdGen::new();
    let a = gen.next();
    let b = gen.next();
    let c = gen.next();
    assert_ne!(a, b);
    assert_ne!(b, c);
    assert!(a < b);
    assert!(b < c);
}

#[test]
fn format_id_canonical_text() {
    let id: u128 = 0x0123_4567_89ab_cdef_0123_4567_89ab_cdef;
    let text = format_id(id);
    assert_eq!(text, b"01234567-89ab-cdef-0123-456789abcdef".to_vec());
}

#[test]
fn format_id_zero() {
    let text = format_id(0);
    assert_eq!(text, b"00000000-0000-0000-0000-000000000000".to_vec());
}

#[test]
fn parse_id_round_trip() {
    let id: u128 = 0x0190_3df1_2345_7cde_8def_0123_4567_89ab;
    let text = format_id(id);
    assert_eq!(parse_id(&text), Some(id));
}

#[test]
fn parse_id_accepts_upper_case() {
    assert_eq!(
        parse_id(b"01234567-89AB-CDEF-0123-456789ABCDEF"),
        Some(0x0123_4567_89ab_cdef_0123_4567_89ab_cdef)
    );
}

#[test]
fn parse_id_rejects_malformed_text() {
    assert_eq!(parse_id(b""), None);
    assert_eq!(parse_id(b"0123456789abcdef0123456789abcdef"), None);
    assert_eq!(parse_id(b"01234567089ab-cdef-0123-456789abcdef"), None);
    assert_eq!(parse_id(b"0123456g-89ab-cdef-0123-456789abcdef"), None);
    assert_eq!(parse_id(b"01234567-89ab-cdef-0123-456789abcde"), None);
    assert_eq!(parse_id(b"01234567-89ab-cdef-0123-456789abcdef0"), None);
}

#[test]
fn generated_id_round_trips_through_text() {
    let mut gen = IdGen::new();
    let id = gen.next();
    let text = format_id(id);
    assert_eq!(text.len(), 36);
    assert_eq!(parse_id(&text), Some(id));
}

#[test]
fn format_id_matches_uuid_crate_text() {
    let id: u128 = 0x0190_3df1_2345_7cde_8def_0123_4567_89ab;
    let text = String::from_utf8(format_id(id)).unwrap();
    assert_eq!(text, uuid::Uuid::from_u128(id).to_string());
}

#[test]
fn generated_id_is_v7_per_uuid_crate() {
    let mut gen = IdGen::new();
    let id = gen.next();
    let u = uuid::Uuid::from_u128(id);
    assert_eq!(u.get_version_num(), 7);
}
