//! The SQL each table operation executes, and the values it binds.
//!
//! Table names are the lower-cased entity names and column order is field
//! declaration order: that layout is the schema contract kept by the
//! external migration collaborator.  A list is one unordered full-table
//! select; a create is one parameterized insert binding the fresh
//! server-generated identifier first and the remaining fields in
//! declaration order.  The boundary executes these against the pool.

use vstd::prelude::*;

verus! {

use crate::ascent::Ascent;
use crate::crag::Crag;
use crate::dates::DateVal;
use crate::route::Route;

/// One value bound into a parameterized statement.
pub enum SqlArg {
    /// A record identifier.
    Id(u128),
    /// A text field.
    Text(Vec<u8>),
    /// A calendar date.
    Day(DateVal),
}

/// The model of a bound value.
#[verifier::ext_equal]
pub ghost enum SqlArgM {
    Id(u128),
    Text(Seq<u8>),
    Day(DateVal),
}

impl View for SqlArg {
    type V = SqlArgM;

    open spec fn view(&self) -> SqlArgM {
        match self {
            SqlArg::Id(v) => SqlArgM::Id(*v),
            SqlArg::Text(t) => SqlArgM::Text(t@),
            SqlArg::Day(d) => SqlArgM::Day(*d),
        }
    }
}

pub fn crag_select_sql() -> (s: &'static str)
    ensures
        s@ == "SELECT * FROM crag"@,
{
    "SELECT * FROM crag"
}

pub fn route_select_sql() -> (s: &'static str)
    ensures
        s@ == "SELECT * FROM route"@,
{
    "SELECT * FROM route"
}

pub fn ascent_select_sql() -> (s: &'static str)
    ensures
        s@ == "SELECT * FROM ascent"@,
{
    "SELECT * FROM ascent"
}

pub fn crag_insert_sql() -> (s: &'static str)
    ensures
        s@ == "INSERT INTO crag VALUES ($1, $2, $3)"@,
{
    "INSERT INTO crag VALUES ($1, $2, $3)"
}

pub fn route_insert_sql() -> (s: &'static str)
    ensures
        s@ == "INSERT INTO route VALUES ($1, $2, $3)"@,
{
    "INSERT INTO route VALUES ($1, $2, $3)"
}

pub fn ascent_insert_sql() -> (s: &'static str)
    ensures
        s@ == "INSERT INTO ascent VALUES ($1, $2, $3)"@,
{
    "INSERT INTO ascent VALUES ($1, $2, $3)"
}

/// The values a crag insert binds: the fresh identifier — never the one
/// the client sent — then name and location, in declaration order.
pub fn crag_insert_args(crag: Crag, id: u128) -> (r: Vec<SqlArg>)
    ensures
        r@.len() == 3,
        r@[0]@ == SqlArgM::Id(id),
        r@[1]@ == SqlArgM::Text(crag.name@),
        r@[2]@ == SqlArgM::Text(crag.location@),
{
    let mut r: Vec<SqlArg> = Vec::new();
    r.push(SqlArg::Id(id));
    r.push(SqlArg::Text(crag.name));
    r.push(SqlArg::Text(crag.location));
    r
}

/// The values a route insert binds: the fresh identifier, then the crag
/// reference and the name, in declaration order.
pub fn route_insert_args(route: Route, id: u128) -> (r: Vec<SqlArg>)
    ensures
        r@.len() == 3,
        r@[0]@ == SqlArgM::Id(id),
        r@[1]@ == SqlArgM::Id(route.crag_id),
        r@[2]@ == SqlArgM::Text(route.name@),
{
    let mut r: Vec<SqlArg> = Vec::new();
    r.push(SqlArg::Id(id));
    r.push(SqlArg::Id(route.crag_id));
    r.push(SqlArg::Text(route.name));
    r
}

/// The values an ascent insert binds: the fresh identifier, then the
/// route reference and the date, in declaration order.
pub fn ascent_insert_args(ascent: Ascent, id: u128) -> (r: Vec<SqlArg>)
    ensures
        r@.len() == 3,
        r@[0]@ == SqlArgM::Id(id),
        r@[1]@ == SqlArgM::Id(ascent.route_id),
        r@[2]@ == SqlArgM::Day(ascent.date),
{
    let mut r: Vec<SqlArg> = Vec::new();
    r.push(SqlArg::Id(id));
    r.push(SqlArg::Id(ascent.route_id));
    r.push(SqlArg::Day(ascent.date));
    r
}

} // verus!
