//! The list wrapper: list endpoints return their results wrapped in a
//! `results` field.

use vstd::prelude::*;

verus! {

/// Success with a body.
pub const STATUS_OK: u16 = 200;

/// Created, with the created entity as the body.
pub const STATUS_CREATED: u16 = 201;

/// Success with no body; also how an absent idea is reported.
pub const STATUS_NO_CONTENT: u16 = 204;

/// A creation request without its required message.
pub const STATUS_BAD_REQUEST: u16 = 400;

/// A list response, as the wire format sends it.
pub struct Response<T> {
    pub results: Vec<T>,
}

impl<T> Response<T> {
    /// An empty response.
    pub fn new() -> (r: Response<T>)
        ensures
            r.results@.len() == 0,
    {
        Response { results: Vec::new() }
    }
}

} // verus!
