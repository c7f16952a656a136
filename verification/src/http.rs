//! How the hub's web server answers a request that it has turned down.

use vstd::prelude::*;

verus! {

/// The status code of the answer to a request for something that is not
/// there.
pub const NOT_FOUND: u16 = 404;

/// The status code of the answer to a request that failed for any other
/// reason.
pub const INTERNAL_SERVER_ERROR: u16 = 500;

/// The answer to a request that was turned down.
#[derive(Debug, PartialEq, Eq)]
pub struct Reply {
    pub status: u16,
    pub body: &'static str,
}

/// The answer to a request that was turned down, `not_found` telling
/// whether that was because nothing matched the request.
pub fn handle_rejection(not_found: bool) -> (reply: Reply)
    ensures
        not_found ==> reply.status == NOT_FOUND && reply.body@ == "Not found"@,
        !not_found ==> reply.status == INTERNAL_SERVER_ERROR && reply.body@
            == "Internal server error"@,
{
    if not_found {
        Reply { status: NOT_FOUND, body: "Not found" }
    } else {
        Reply { status: INTERNAL_SERVER_ERROR, body: "Internal server error" }
    }
}

} // verus!
