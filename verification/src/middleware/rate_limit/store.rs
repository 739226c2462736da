//! What a limiter does when its counter store cannot answer.
//!
//! The store itself — two atomic operations, `read` and `increment` — is the
//! application's; the limiter asks for them through the steps of
//! [`QuotaCheck`](super::quota::QuotaCheck).

use vstd::prelude::*;

verus! {

/// What a limiter does when its store cannot answer.
#[derive(Clone, Copy, Debug, PartialEq, Eq, Structural)]
pub enum StoreFailure {
    /// Allow the request. The default: an outage of the counter store must not
    /// become an outage of the API.
    Allow,
    /// Refuse, with the 429 the limiter already declares — not a second status,
    /// which would collide with a concurrency cap on the same route.
    Deny,
}

impl Default for StoreFailure {
    fn default() -> (r: Self)
        ensures
            r == StoreFailure::Allow,
    {
        StoreFailure::Allow
    }
}

} // verus!
