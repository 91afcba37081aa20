//! What the gateway hands back to the server framework.

use http::HeaderMap;
use vstd::prelude::*;

verus! {

/// Status and headers of a response whose body is kept elsewhere and is not
/// touched here.
#[derive(Debug)]
pub struct ResponseHead {
    pub status: u16,
    pub headers: HeaderMap,
}

/// A response without headers whose body is a piece of text.
#[derive(Debug)]
pub struct TextResponse {
    pub status: u16,
    pub body: String,
}

/// The status of a redirect to another page.
pub const STATUS_FOUND: u16 = 302;

/// The status of a failure on the server's side.
pub const STATUS_INTERNAL_SERVER_ERROR: u16 = 500;

} // verus!
