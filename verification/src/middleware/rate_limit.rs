//! Rate limiting: what a policy reports, the sliding-window quotas Kynos
//! ships, and what a limited exchange says on the wire.
//!
//! Where the counters live stays the application's: a check asks for store
//! operations through its steps rather than holding a store of its own.

pub mod decision;
pub mod store;
pub mod quota;
pub mod headers;
pub mod refusal;
pub mod key;
mod sealed;

use std::marker::PhantomData;

use vstd::prelude::*;

use crate::middleware::rate_limit::decision::{QuotaPolicy, ServiceLimit};
use crate::middleware::rate_limit::headers::{RateLimitFields, RateLimitHeaders};
use crate::middleware::rate_limit::refusal::{RateLimited, RateLimitedFields};
use crate::time::Duration;

verus! {

/// Which spelling of the rate-limit fields a limiter emits. Sealed, and there
/// are exactly two: the names reach generated clients, so a third would emit
/// a field nobody reviewed.
pub trait RateLimitSpelling: sealed::Sealed {
    /// The group a forwarded response carries.
    type Headers;
    /// What a refusal answers with.
    type Denied;

    /// The group for a request that was allowed.
    fn allow(limits: &[ServiceLimit], policies: &[QuotaPolicy]) -> Self::Headers;

    /// The refusal for a request that was not.
    fn deny(retry_after: Duration, limits: &[ServiceLimit], policies: &[QuotaPolicy]) -> Self::Denied;
}

/// `X-RateLimit-Limit`, `-Remaining` and `-Reset`: the default while the
/// draft is a draft.
#[derive(Clone, Copy, Debug, Default)]
pub struct Legacy;

/// `RateLimit` and `RateLimit-Policy`, per the draft.
#[derive(Clone, Copy, Debug, Default)]
pub struct Structured;

impl sealed::Sealed for Legacy {
}

impl sealed::Sealed for Structured {
}

impl RateLimitSpelling for Legacy {
    type Headers = RateLimitHeaders;
    type Denied = RateLimited;

    /// The triple of the first limit; the policies are not reported.
    fn allow(limits: &[ServiceLimit], policies: &[QuotaPolicy]) -> (r: RateLimitHeaders)
        ensures
            limits.len() == 0 ==> r.limit == 0 && r.remaining == 0 && r.reset@ == 0,
            limits.len() > 0 ==> r.limit == limits[0].quota && r.remaining == limits[0].remaining
                && r.reset == limits[0].reset,
    {
        RateLimitHeaders::from_limits(limits)
    }

    /// A refusal naming the first limit's ceiling, or zero when there is none.
    fn deny(retry_after: Duration, limits: &[ServiceLimit], policies: &[QuotaPolicy]) -> (r: RateLimited)
        ensures
            r.retry_after == retry_after,
            r.limit == (if limits.len() == 0 {
                0
            } else {
                limits[0].quota
            }),
    {
        let limit = if limits.len() == 0 {
            0
        } else {
            limits[0].quota
        };
        RateLimited::new(retry_after, limit)
    }
}

impl RateLimitSpelling for Structured {
    type Headers = RateLimitFields;
    type Denied = RateLimitedFields;

    /// Every limit and every policy.
    fn allow(limits: &[ServiceLimit], policies: &[QuotaPolicy]) -> (r: RateLimitFields)
        ensures
            r.limits@ == limits@,
            r.policies@ == policies@,
    {
        RateLimitFields {
            limits: crate::middleware::rate_limit::decision::copy_limits(limits),
            policies: crate::middleware::rate_limit::decision::copy_policies(policies),
        }
    }

    /// A refusal reporting every limit and every policy.
    fn deny(retry_after: Duration, limits: &[ServiceLimit], policies: &[QuotaPolicy]) -> (r: RateLimitedFields)
        ensures
            r.retry_after == retry_after,
            r.limits@ == limits@,
            r.policies@ == policies@,
    {
        RateLimitedFields::new(
            retry_after,
            crate::middleware::rate_limit::decision::copy_limits(limits),
            crate::middleware::rate_limit::decision::copy_policies(policies),
        )
    }
}

/// Limits request rate per client, according to a policy that reports every
/// quota it enforced, in the spelling `D`, with the problem type `T` named on
/// its refusals.
pub struct RateLimit<P, D = Legacy, T = ()> {
    policy: P,
    spelling: PhantomData<(D, T)>,
}

impl<P, D, T> RateLimit<P, D, T> {
    /// The policy consulted.
    pub closed spec fn spec_policy(&self) -> P {
        self.policy
    }

    /// The policy consulted.
    pub fn policy(&self) -> (r: &P)
        ensures
            *r == self.spec_policy(),
    {
        &self.policy
    }
}

impl<P> RateLimit<P, Legacy, ()> {
    /// Limits requests according to `policy`, in the `X-` spelling. There is
    /// no ceiling beside it: the number a response prints and the number a
    /// counter checked are one fact.
    pub fn new(policy: P) -> (r: Self)
        ensures
            r.spec_policy() == policy,
    {
        RateLimit { policy, spelling: PhantomData }
    }
}

impl<P, T> RateLimit<P, Legacy, T> {
    /// Emits `RateLimit` and `RateLimit-Policy` instead of the `X-` triple;
    /// never both, and a problem type already named survives the change.
    pub fn standard_fields(self) -> (r: RateLimit<P, Structured, T>)
        ensures
            r.spec_policy() == self.spec_policy(),
    {
        RateLimit { policy: self.policy, spelling: PhantomData }
    }
}

impl<P, D> RateLimit<P, D, ()> {
    /// Names the problem type this limiter's 429 carries; available only on a
    /// limiter that has not named one, so a chain states it at most once.
    pub fn refusal_type<T>(self) -> (r: RateLimit<P, D, T>)
        ensures
            r.spec_policy() == self.spec_policy(),
    {
        RateLimit { policy: self.policy, spelling: PhantomData }
    }
}

} // verus!
