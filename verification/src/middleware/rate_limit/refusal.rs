//! What a limiter answers with when a policy refuses: a 429 carrying
//! `Retry-After` and the rate-limit fields of whichever spelling it speaks.

use vstd::prelude::*;

use crate::middleware::rate_limit::decision::{QuotaPolicy, ServiceLimit};
use crate::middleware::rate_limit::headers::{
    delay_secs, structured_fields, triple_fields, RateLimitFields, RateLimitHeaders,
};
use crate::octets::{ascii, decimal, literal, render_u64};
use crate::time::Duration;

verus! {

/// The status both spellings of a refusal carry.
pub const TOO_MANY_REQUESTS: u16 = 429;

/// The `Retry-After` field line for a delay: delta-seconds, rounded up.
pub open spec fn retry_after_field(delay: nat) -> (Seq<u8>, Seq<u8>) {
    (ascii("retry-after"@), decimal(delay_secs(delay)))
}

/// The `Retry-After` field line for `delay`.
fn retry_after_line(delay: Duration) -> (r: (Vec<u8>, Vec<u8>))
    ensures
        (r.0@, r.1@) == retry_after_field(delay@),
{
    proof {
        reveal_strlit("retry-after");
    }
    (literal("retry-after"), render_u64(delay.whole_seconds()))
}

/// The refusal in the `X-` spelling.
#[derive(Clone, Debug, PartialEq, Eq)]
pub struct RateLimited {
    /// How long the client should wait before retrying.
    pub retry_after: Duration,
    /// The ceiling that was exceeded.
    pub limit: u64,
}

impl RateLimited {
    /// The sentence the problem document carries.
    pub fn detail(&self) -> (r: Vec<u8>)
        ensures
            r@ == ascii("the client has exceeded its request rate"@),
    {
        proof {
            reveal_strlit("the client has exceeded its request rate");
        }
        literal("the client has exceeded its request rate")
    }

    /// A refusal to retry after `retry_after`, of a limit of `limit`.
    pub fn new(retry_after: Duration, limit: u64) -> (r: Self)
        ensures
            r.retry_after == retry_after,
            r.limit == limit,
    {
        RateLimited { retry_after, limit }
    }

    /// The field lines the refusal carries: `Retry-After`, then the triple,
    /// whose reset is the retry delay and whose remaining count is zero.
    pub fn fields(&self) -> (r: Vec<(Vec<u8>, Vec<u8>)>)
        ensures
            r@.map_values(|f: (Vec<u8>, Vec<u8>)| (f.0@, f.1@)) == seq![
                retry_after_field(self.retry_after@),
            ] + triple_fields(self.limit, 0, self.retry_after@),
    {
        let mut r: Vec<(Vec<u8>, Vec<u8>)> = Vec::new();
        r.push(retry_after_line(self.retry_after));
        let group = RateLimitHeaders { limit: self.limit, remaining: 0, reset: self.retry_after };
        let mut lines = group.encode();
        let ghost tail = lines@.map_values(|f: (Vec<u8>, Vec<u8>)| (f.0@, f.1@));
        let ghost head = r@.map_values(|f: (Vec<u8>, Vec<u8>)| (f.0@, f.1@));
        r.append(&mut lines);
        assert(r@.map_values(|f: (Vec<u8>, Vec<u8>)| (f.0@, f.1@)) =~= head + tail);
        r
    }
}

/// The refusal in the draft's spelling.
#[derive(Clone, Debug, PartialEq, Eq)]
pub struct RateLimitedFields {
    /// How long the client should wait before retrying.
    pub retry_after: Duration,
    /// Where the client stands against each policy.
    pub limits: Vec<ServiceLimit>,
    /// What the service enforces.
    pub policies: Vec<QuotaPolicy>,
}

impl RateLimitedFields {
    /// The sentence the problem document carries.
    pub fn detail(&self) -> (r: Vec<u8>)
        ensures
            r@ == ascii("the client has exceeded its request rate"@),
    {
        proof {
            reveal_strlit("the client has exceeded its request rate");
        }
        literal("the client has exceeded its request rate")
    }

    /// A refusal to retry after `retry_after`, reporting `limits` and
    /// `policies`.
    pub fn new(retry_after: Duration, limits: Vec<ServiceLimit>, policies: Vec<QuotaPolicy>) -> (r: Self)
        ensures
            r.retry_after == retry_after,
            r.limits == limits,
            r.policies == policies,
    {
        RateLimitedFields { retry_after, limits, policies }
    }

    /// The field lines the refusal carries: `Retry-After`, then the
    /// structured fields.
    pub fn fields(&self) -> (r: Vec<(Vec<u8>, Vec<u8>)>)
        ensures
            r@.map_values(|f: (Vec<u8>, Vec<u8>)| (f.0@, f.1@)) == seq![
                retry_after_field(self.retry_after@),
            ] + structured_fields(
                crate::middleware::rate_limit::decision::limit_views(self.limits@),
                crate::middleware::rate_limit::decision::policy_views(self.policies@),
            ),
    {
        let mut r: Vec<(Vec<u8>, Vec<u8>)> = Vec::new();
        r.push(retry_after_line(self.retry_after));
        let group = RateLimitFields {
            limits: crate::middleware::rate_limit::decision::copy_limits(self.limits.as_slice()),
            policies: crate::middleware::rate_limit::decision::copy_policies(self.policies.as_slice()),
        };
        let mut lines = group.encode();
        let ghost tail = lines@.map_values(|f: (Vec<u8>, Vec<u8>)| (f.0@, f.1@));
        let ghost head = r@.map_values(|f: (Vec<u8>, Vec<u8>)| (f.0@, f.1@));
        r.append(&mut lines);
        assert(r@.map_values(|f: (Vec<u8>, Vec<u8>)| (f.0@, f.1@)) =~= head + tail);
        r
    }
}

} // verus!
