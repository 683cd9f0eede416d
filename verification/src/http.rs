//! HTTP responses, and the uniform outcome mapping.
//!
//! Handlers answer with a bare status code and a body.  Every database
//! failure is surfaced as the same opaque internal error with no body —
//! callers learn nothing beyond the generic signal; diagnostics are the
//! boundary's business.  The liveness path answers independently of any
//! storage state.

use vstd::prelude::*;

verus! {

/// A response as the library hands it to the boundary: a status code and
/// a body.
pub struct Response {
    pub status: u16,
    pub body: Vec<u8>,
}

/// The liveness answer for the root path: always 200, empty body,
/// whatever the state of the storage.
pub fn ready_response() -> (r: Response)
    ensures
        r.status == 200,
        r.body@.len() == 0,
{
    Response { status: 200, body: Vec::new() }
}

/// The acknowledgment of a successful create: 201, empty body.
pub fn created_response() -> (r: Response)
    ensures
        r.status == 201,
        r.body@.len() == 0,
{
    Response { status: 201, body: Vec::new() }
}

/// The answer to a body the decoding rejects: a client error, no row is
/// ever persisted for it.
pub fn bad_request_response() -> (r: Response)
    ensures
        r.status == 400,
        r.body@.len() == 0,
{
    Response { status: 400, body: Vec::new() }
}

/// The single mapping of any internal failure: 500 with no body, for
/// every database error alike.  The boundary logs the rich error chain;
/// nothing structured reaches the client.
pub fn db_error_response() -> (r: Response)
    ensures
        r.status == 500,
        r.body@.len() == 0,
{
    Response { status: 500, body: Vec::new() }
}

} // verus!
