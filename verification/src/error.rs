//! The error type of the crate.
use vstd::prelude::*;

use crate::types::Reason;

verus! {

/// Errors that the proxy's logic produces or reacts to.
#[derive(Debug, Clone, PartialEq, Eq)]
pub enum ClewdrError {
    /// The text given as a cookie holds no cookie.
    ParseCookieError { msg: &'static str },
    /// The request did not finish within its deadline.
    RequestTimeout { seconds: u64 },
    /// The upstream service rejected the cookie; it is returned with this reason.
    InvalidCookie { reason: Reason },
    /// The upstream service answered with an HTTP error status.
    ClaudeHttpError { code: u16 },
    /// Every attempt failed with a rejected cookie.
    TooManyRetries,
    /// No cookie is available to serve the request.
    NoCookieAvailable,
}

} // verus!
