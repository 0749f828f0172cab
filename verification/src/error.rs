//! The error type for rate limiting.

use vstd::prelude::*;

verus! {

/// Errors that can occur during rate limiting.
#[derive(Debug, Clone, Copy, PartialEq, Eq, Structural)]
pub enum RateLimitError {
    /// The request was rate limited and the configured behavior is to error.
    /// Carries the minimum wait, in nanoseconds, after which the same request
    /// may be retried.
    RateLimited(u64),
}

impl RateLimitError {
    /// The advisory wait before retrying, in nanoseconds.
    pub fn retry_after_nanos(&self) -> (n: u64)
        ensures
            (match *self {
                RateLimitError::RateLimited(d) => n == d,
            }),
    {
        match *self {
            RateLimitError::RateLimited(d) => d,
        }
    }
}

} // verus!
