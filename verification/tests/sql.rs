use ticklist::ascent::Ascent;
use ticklist::crag::Crag;
use ticklist::dates::DateVal;
use ticklist::route::Route;
use ticklist::sql::{
    ascent_insert_args, ascent_insert_sql, ascent_select_sql, crag_insert_args, crag_insert_sql,
    crag_select_sql, route_insert_args, route_insert_sql, route_select_sql, SqlArg,
};

#[test]
fn select_statements_name_the_tables() {
    assert_eq!(crag_select_sql(), "SELECT * FROM crag");
    assert_eq!(route_select_sql(), "SELECT * FROM route");
    assert_eq!(ascent_select_sql(), "SELECT * FROM ascent");
}

#[test]
fn insert_statements_bind_three_parameters() {
    assert_eq!(crag_insert_sql(), "INSERT INTO crag VALUES ($1, $2, $3)");
    assert_eq!(route_insert_sql(), "INSERT INTO route VALUES ($1, $2, $3)");
    assert_eq!(ascent_insert_sql(), "INSERT INTO ascent VALUES ($1, $2, $3)");
}

#[test]
fn crag_insert_binds_fresh_id_then_fields() {
    let c = Crag { id: 999, name: b"Peak District".to_vec(), location: b"UK".to_vec() };
    let args = crag_insert_args(c, 42);
    assert_eq!(args.len(), 3);
    assert!(matches!(args[0], SqlArg::Id(42)));
    assert!(matches!(&args[1], SqlArg::Text(t) if t == b"Peak District"));
    assert!(matches!(&args[2], SqlArg::Text(t) if t == b"UK"));
}

#[test]
fn route_insert_binds_fresh_id_then_fields() {
    let r = Route { id: 999, crag_id: 7, name: b"Flying Buttress".to_vec() };
    let args = route_insert_args(r, 42);
    assert_eq!(args.len(), 3);
    assert!(matches!(args[0], SqlArg::Id(42)));
    assert!(matches!(args[1], SqlArg::Id(7)));
    assert!(matches!(&args[2], SqlArg::Text(t) if t == b"Flying Buttress"));
}

#[test]
fn ascent_insert_binds_fresh_id_then_fields() {
    let a = Ascent { id: 999, route_id: 7, date: DateVal { year: 2024, month: 6, day: 1 } };
    let args = ascent_insert_args(a, 42);
    assert_eq!(args.len(), 3);
    assert!(matches!(args[0], SqlArg::Id(42)));
    assert!(matches!(args[1], SqlArg::Id(7)));
    assert!(matches!(args[2], SqlArg::Day(d) if d.year == 2024 && d.month == 6 && d.day == 1));
}
