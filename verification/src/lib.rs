//! A small record-keeping library for rock-climbing activity.
//!
//! The library holds the verified core of a REST-over-SQL service that
//! stores climbing locations (crags), routes belonging to a crag, and
//! recorded ascents of a route.  It models each entity as a plain data
//! record, encodes and decodes the JSON bodies exchanged over HTTP,
//! generates time-ordered identifiers, builds the SQL text and bind
//! arguments for the three tables, and maps outcomes to HTTP responses.
//! The surrounding process (router, socket handling, database driver)
//! lives outside this crate and hands plain values in and out.

pub mod ascent;
pub mod crag;
pub mod dates;
pub mod entity;
pub mod http;
pub mod ids;
pub mod json;
pub mod route;
pub mod sql;
pub mod table;
