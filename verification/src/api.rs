//! The decisions of the HTTP API: validation, sessions, rate limits and what refused
//! requests are answered.

use vstd::prelude::*;

pub mod rate_limit;
pub mod search_video;
pub mod session;
pub mod turnstile;

verus! {

/// The most content ids whose details one request restores.
pub const MAX_RESTORED_IDS: usize = 100;

/// The HTTP status of a forbidden request.
pub const FORBIDDEN: u16 = 403;

/// The HTTP status of too many requests.
pub const TOO_MANY_REQUESTS: u16 = 429;

/// What an error is answered with: an HTTP status, a message for the client (sent as
/// `{"error": message}`), a `Retry-After` in seconds where there is one, and whether
/// the response recommends a Turnstile verification.
#[derive(Debug, Clone)]
pub struct ErrorResponseParts {
    pub status: u16,
    pub message: String,
    pub retry_after_seconds: Option<u64>,
    pub turnstile_recommended: bool,
}

/// The ids whose details a request restores: the first [`MAX_RESTORED_IDS`] of them.
pub fn restored_ids(ids: Vec<String>) -> (r: Vec<String>)
    ensures
        r@ == ids@.take(
            if ids@.len() < MAX_RESTORED_IDS {
                ids@.len() as int
            } else {
                MAX_RESTORED_IDS as int
            },
        ),
{
    let mut ids = ids;
    ids.truncate(MAX_RESTORED_IDS);
    ids
}

} // verus!
