use ticklist::ascent::Ascent;
use ticklist::crag::Crag;
use ticklist::entity::Entity;
use ticklist::http::{db_error_response, ready_response};
use ticklist::ids::IdGen;
use ticklist::route::Route;
use ticklist::table::Table;

fn contains_sub(hay: &[u8], needle: &[u8]) -> bool {
    if needle.is_empty() {
        return true;
    }
    hay.windows(needle.len()).any(|w| w == needle)
}

#[test]
fn liveness_always_ok() {
    let r = ready_response();
    assert_eq!(r.status, 200);
    assert!(r.body.is_empty());
}

#[test]
fn db_error_is_opaque_500() {
    let r = db_error_response();
    assert_eq!(r.status, 500);
    assert!(r.body.is_empty());
}

#[test]
fn list_of_empty_table_is_empty_array() {
    let t: Table<Crag> = Table::new();
    let r = t.list();
    assert_eq!(r.status, 200);
    assert_eq!(r.body, b"[]".to_vec());
}

#[test]
fn post_then_get_includes_posted_crag() {
    let mut t: Table<Crag> = Table::new();
    let mut gen = IdGen::new();
    let r = t.create(&mut gen, b"{\"name\":\"Peak District\",\"location\":\"UK\"}");
    assert_eq!(r.status, 201);
    assert!(r.body.is_empty());
    let l = t.list();
    assert_eq!(l.status, 200);
    assert!(l.body.starts_with(b"[{\"id\":\""));
    assert!(contains_sub(&l.body, b"\"name\":\"Peak District\""));
    assert!(contains_sub(&l.body, b"\"location\":\"UK\""));
    assert!(l.body.ends_with(b"}]"));
}

#[test]
fn client_supplied_id_is_discarded() {
    let mut t: Table<Crag> = Table::new();
    let mut gen = IdGen::new();
    let sent: u128 = 0x0123_4567_89ab_7def_8123_4567_89ab_cdef;
    let body = b"{\"id\":\"01234567-89ab-7def-8123-456789abcdef\",\"name\":\"Stanage\",\"location\":\"UK\"}";
    let r = t.create(&mut gen, body);
    assert_eq!(r.status, 201);
    assert_eq!(t.rows.len(), 1);
    assert_ne!(t.rows[0].id, sent);
    assert_ne!(t.rows[0].id, 0);
    assert_eq!(t.rows[0].name, b"Stanage".to_vec());
    assert_eq!(t.rows[0].location, b"UK".to_vec());
}

#[test]
fn missing_field_is_client_error_and_persists_nothing() {
    let mut t: Table<Crag> = Table::new();
    let mut gen = IdGen::new();
    let r = t.create(&mut gen, b"{\"name\":\"Peak District\"}");
    assert_eq!(r.status, 400);
    assert!(r.body.is_empty());
    assert_eq!(t.rows.len(), 0);
    let l = t.list();
    assert_eq!(l.status, 200);
    assert_eq!(l.body, b"[]".to_vec());
}

#[test]
fn unknown_field_is_rejected() {
    let mut t: Table<Crag> = Table::new();
    let mut gen = IdGen::new();
    let r = t.create(&mut gen, b"{\"name\":\"a\",\"location\":\"b\",\"grade\":\"E1\"}");
    assert_eq!(r.status, 400);
    assert_eq!(t.rows.len(), 0);
}

#[test]
fn repeated_field_is_rejected() {
    let mut t: Table<Crag> = Table::new();
    let mut gen = IdGen::new();
    let r = t.create(&mut gen, b"{\"name\":\"a\",\"name\":\"b\",\"location\":\"c\"}");
    assert_eq!(r.status, 400);
    assert_eq!(t.rows.len(), 0);
}

#[test]
fn non_object_body_is_rejected() {
    let mut t: Table<Crag> = Table::new();
    let mut gen = IdGen::new();
    assert_eq!(t.create(&mut gen, b"[]").status, 400);
    assert_eq!(t.create(&mut gen, b"").status, 400);
    assert_eq!(t.create(&mut gen, b"{\"name\":\"a\",\"location\":3}").status, 400);
    assert_eq!(t.create(&mut gen, b"{\"name\":\"a\",\"location\":\"b\"} x").status, 400);
    assert_eq!(t.rows.len(), 0);
}

#[test]
fn whitespace_in_body_is_tolerated() {
    let mut t: Table<Crag> = Table::new();
    let mut gen = IdGen::new();
    let r = t.create(&mut gen, b" {\n  \"name\" : \"a\" ,\t\"location\" : \"b\" }\n");
    assert_eq!(r.status, 201);
    assert_eq!(t.rows.len(), 1);
    assert_eq!(t.rows[0].name, b"a".to_vec());
}

#[test]
fn two_creates_both_kept_and_retrievable() {
    let mut t: Table<Crag> = Table::new();
    let mut gen = IdGen::new();
    let r1 = t.create(&mut gen, b"{\"name\":\"one\",\"location\":\"x\"}");
    let r2 = t.create(&mut gen, b"{\"name\":\"two\",\"location\":\"y\"}");
    assert_eq!(r1.status, 201);
    assert_eq!(r2.status, 201);
    assert_eq!(t.rows.len(), 2);
    assert_ne!(t.rows[0].id, t.rows[1].id);
    let l = t.list();
    assert!(contains_sub(&l.body, b"\"name\":\"one\""));
    assert!(contains_sub(&l.body, b"\"name\":\"two\""));
}

#[test]
fn repeated_identical_posts_create_distinct_rows() {
    let mut t: Table<Crag> = Table::new();
    let mut gen = IdGen::new();
    let body = b"{\"name\":\"same\",\"location\":\"same\"}";
    assert_eq!(t.create(&mut gen, body).status, 201);
    assert_eq!(t.create(&mut gen, body).status, 201);
    assert_eq!(t.rows.len(), 2);
    assert_ne!(t.rows[0].id, t.rows[1].id);
}

#[test]
fn sequential_create_ids_reflect_order() {
    let mut t: Table<Crag> = Table::new();
    let mut gen = IdGen::new();
    t.create(&mut gen, b"{\"name\":\"one\",\"location\":\"x\"}");
    t.create(&mut gen, b"{\"name\":\"two\",\"location\":\"y\"}");
    assert!(t.rows[0].id < t.rows[1].id);
}

#[test]
fn route_requires_crag_reference() {
    let mut t: Table<Route> = Table::new();
    let mut gen = IdGen::new();
    let r = t.create(&mut gen, b"{\"name\":\"Flying Buttress\"}");
    assert_eq!(r.status, 400);
    let ok = t.create(
        &mut gen,
        b"{\"crag_id\":\"01234567-89ab-7def-8123-456789abcdef\",\"name\":\"Flying Buttress\"}",
    );
    assert_eq!(ok.status, 201);
    assert_eq!(t.rows.len(), 1);
    assert_eq!(t.rows[0].crag_id, 0x0123_4567_89ab_7def_8123_4567_89ab_cdef);
    assert_eq!(t.rows[0].name, b"Flying Buttress".to_vec());
}

#[test]
fn ascent_requires_valid_date() {
    let mut t: Table<Ascent> = Table::new();
    let mut gen = IdGen::new();
    let bad = t.create(
        &mut gen,
        b"{\"route_id\":\"01234567-89ab-7def-8123-456789abcdef\",\"date\":\"2023-02-29\"}",
    );
    assert_eq!(bad.status, 400);
    let ok = t.create(
        &mut gen,
        b"{\"route_id\":\"01234567-89ab-7def-8123-456789abcdef\",\"date\":\"2024-02-29\"}",
    );
    assert_eq!(ok.status, 201);
    assert_eq!(t.rows[0].date.year, 2024);
    assert_eq!(t.rows[0].date.month, 2);
    assert_eq!(t.rows[0].date.day, 29);
    let l = t.list();
    assert!(contains_sub(&l.body, b"\"date\":\"2024-02-29\""));
}

#[test]
fn bad_id_text_is_rejected() {
    let mut t: Table<Route> = Table::new();
    let mut gen = IdGen::new();
    let r = t.create(&mut gen, b"{\"crag_id\":\"not-a-uuid\",\"name\":\"x\"}");
    assert_eq!(r.status, 400);
}

#[test]
fn encode_decode_round_trip_with_escapes() {
    let c = Crag {
        id: 7,
        name: b"say \"hi\"\\\n".to_vec(),
        location: b"tab\there".to_vec(),
    };
    let enc = c.encode();
    let back = Crag::decode(&enc).expect("round trip");
    assert_eq!(back.id, 7);
    assert_eq!(back.name, c.name);
    assert_eq!(back.location, c.location);
}

#[test]
fn unicode_escape_decodes() {
    let mut t: Table<Crag> = Table::new();
    let mut gen = IdGen::new();
    let r = t.create(&mut gen, b"{\"name\":\"\\u0041\\u00e9\\u20ac\",\"location\":\"x\"}");
    assert_eq!(r.status, 201);
    assert_eq!(t.rows[0].name, "A\u{e9}\u{20ac}".as_bytes().to_vec());
}

#[test]
fn from_rows_checks_well_formedness() {
    let good = Ascent {
        id: 1,
        route_id: 2,
        date: ticklist::dates::DateVal { year: 2024, month: 1, day: 31 },
    };
    let bad = Ascent {
        id: 3,
        route_id: 4,
        date: ticklist::dates::DateVal { year: 2024, month: 2, day: 30 },
    };
    assert!(Table::from_rows(vec![good]).is_some());
    let bad_rows = vec![Ascent { id: 3, route_id: 4, date: bad.date }];
    assert!(Table::<Ascent>::from_rows(bad_rows).is_none());
}

#[test]
fn crag_encodes_to_exact_json() {
    let c = Crag { id: 0, name: b"a".to_vec(), location: b"b".to_vec() };
    assert_eq!(
        c.encode(),
        b"{\"id\":\"00000000-0000-0000-0000-000000000000\",\"name\":\"a\",\"location\":\"b\"}"
            .to_vec()
    );
}

#[test]
fn route_encode_decode_round_trip() {
    let r = Route { id: 9, crag_id: 7, name: b"Left Unconquerable".to_vec() };
    let back = Route::decode(&r.encode()).expect("round trip");
    assert_eq!(back.id, 9);
    assert_eq!(back.crag_id, 7);
    assert_eq!(back.name, b"Left Unconquerable".to_vec());
}

#[test]
fn ascent_encode_decode_round_trip() {
    let a = Ascent {
        id: 11,
        route_id: 12,
        date: ticklist::dates::DateVal { year: 2024, month: 6, day: 1 },
    };
    let back = Ascent::decode(&a.encode()).expect("round trip");
    assert_eq!(back.id, 11);
    assert_eq!(back.route_id, 12);
    assert_eq!(back.date, a.date);
}

#[test]
fn raw_multibyte_utf8_is_accepted() {
    let mut t: Table<Crag> = Table::new();
    let mut gen = IdGen::new();
    let r = t.create(&mut gen, "{\"name\":\"Pe\u{f1}a\",\"location\":\"Espa\u{f1}a\"}".as_bytes());
    assert_eq!(r.status, 201);
    assert_eq!(t.rows[0].name, "Pe\u{f1}a".as_bytes().to_vec());
    assert_eq!(t.rows[0].location, "Espa\u{f1}a".as_bytes().to_vec());
}

#[test]
fn invalid_utf8_in_body_is_client_error() {
    let mut t: Table<Crag> = Table::new();
    let mut gen = IdGen::new();
    assert_eq!(t.create(&mut gen, b"{\"name\":\"a\xff\",\"location\":\"b\"}").status, 400);
    assert_eq!(t.create(&mut gen, b"{\"name\":\"a\x80\",\"location\":\"b\"}").status, 400);
    // overlong two-byte form
    assert_eq!(t.create(&mut gen, b"{\"name\":\"\xc0\xaf\",\"location\":\"b\"}").status, 400);
    // truncated sequence
    assert_eq!(t.create(&mut gen, b"{\"name\":\"\xe2\x82\",\"location\":\"b\"}").status, 400);
    // surrogate code point in raw bytes
    assert_eq!(t.create(&mut gen, b"{\"name\":\"\xed\xa0\x80\",\"location\":\"b\"}").status, 400);
    assert_eq!(t.rows.len(), 0);
}

#[test]
fn surrogate_pair_escape_decodes() {
    let mut t: Table<Crag> = Table::new();
    let mut gen = IdGen::new();
    let r = t.create(&mut gen, b"{\"name\":\"\\ud83d\\ude00\",\"location\":\"x\"}");
    assert_eq!(r.status, 201);
    assert_eq!(t.rows[0].name, "\u{1f600}".as_bytes().to_vec());
}

#[test]
fn unpaired_surrogate_escape_is_client_error() {
    let mut t: Table<Crag> = Table::new();
    let mut gen = IdGen::new();
    assert_eq!(t.create(&mut gen, b"{\"name\":\"\\udc00\",\"location\":\"x\"}").status, 400);
    assert_eq!(t.create(&mut gen, b"{\"name\":\"\\ud83dab\",\"location\":\"x\"}").status, 400);
    assert_eq!(t.create(&mut gen, b"{\"name\":\"\\ud83d\\u0041\",\"location\":\"x\"}").status, 400);
    assert_eq!(t.rows.len(), 0);
}
