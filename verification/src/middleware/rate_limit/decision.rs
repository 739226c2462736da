//! What a rate-limit policy reports, and what a response says about it.

use vstd::prelude::*;

use crate::octets::{ascii, literal};
use crate::time::Duration;

verus! {

/// The unit a quota counts in: the `qu` parameter of the rate-limit fields.
///
/// `concurrent-requests` is deliberately absent: a concurrency cap consumes no
/// rate window.
#[derive(Clone, Copy, Debug, PartialEq, Eq, Hash, Structural)]
pub enum QuotaUnit {
    /// Requests. The default, and what a rate limit usually means.
    Requests,
    /// Bytes of request content.
    ContentBytes,
}

impl QuotaUnit {
    /// The token this unit is spelled with, as octets.
    pub open spec fn token(self) -> Seq<u8> {
        match self {
            QuotaUnit::Requests => ascii("requests"@),
            QuotaUnit::ContentBytes => ascii("content-bytes"@),
        }
    }

    /// The token the rate-limit draft spells this unit with.
    pub fn as_str(self) -> (r: &'static str)
        ensures
            r@ == (match self {
                QuotaUnit::Requests => "requests"@,
                QuotaUnit::ContentBytes => "content-bytes"@,
            }),
    {
        match self {
            QuotaUnit::Requests => "requests",
            QuotaUnit::ContentBytes => "content-bytes",
        }
    }

    /// The token, as octets.
    pub fn token_bytes(self) -> (r: Vec<u8>)
        ensures
            r@ == self.token(),
    {
        proof {
            reveal_strlit("requests");
            reveal_strlit("content-bytes");
        }
        match self {
            QuotaUnit::Requests => literal("requests"),
            QuotaUnit::ContentBytes => literal("content-bytes"),
        }
    }
}

impl Default for QuotaUnit {
    fn default() -> (r: Self)
        ensures
            r == QuotaUnit::Requests,
    {
        QuotaUnit::Requests
    }
}

/// One quota policy a response advertises: what the service will enforce,
/// the same for every request a limiter covers.
#[derive(Clone, Debug, PartialEq, Eq)]
pub struct QuotaPolicy {
    /// The name this policy is reported under.
    pub name: String,
    /// How much the policy permits per window.
    pub quota: u64,
    /// The window it permits that much in; `None` for a total allowance.
    pub window: Option<Duration>,
    /// What the quota counts.
    pub unit: QuotaUnit,
}

impl View for QuotaPolicy {
    type V = (Seq<char>, u64, Option<nat>, QuotaUnit);

    open spec fn view(&self) -> Self::V {
        (
            self.name@,
            self.quota,
            match self.window {
                Some(w) => Some(w@),
                None => None,
            },
            self.unit,
        )
    }
}

impl QuotaPolicy {
    /// A copy of this policy.
    pub fn copied(&self) -> (r: Self)
        ensures
            r == *self,
    {
        QuotaPolicy { name: self.name.clone(), quota: self.quota, window: self.window, unit: self.unit }
    }
}

/// One live service limit, as it stands for this request.
#[derive(Clone, Debug, PartialEq, Eq)]
pub struct ServiceLimit {
    /// The policy this reports against.
    pub name: String,
    /// The ceiling the policy permits.
    pub quota: u64,
    /// How much of it is left.
    pub remaining: u64,
    /// How long until the quota is replenished.
    pub reset: Duration,
}

impl View for ServiceLimit {
    type V = (Seq<char>, u64, u64, nat);

    open spec fn view(&self) -> Self::V {
        (self.name@, self.quota, self.remaining, self.reset@)
    }
}

impl ServiceLimit {
    /// A copy of this limit.
    pub fn copied(&self) -> (r: Self)
        ensures
            r == *self,
    {
        ServiceLimit {
            name: self.name.clone(),
            quota: self.quota,
            remaining: self.remaining,
            reset: self.reset,
        }
    }
}

/// The views of a list of limits.
pub open spec fn limit_views(limits: Seq<ServiceLimit>) -> Seq<(Seq<char>, u64, u64, nat)> {
    limits.map_values(|l: ServiceLimit| l@)
}

/// The views of a list of policies.
pub open spec fn policy_views(policies: Seq<QuotaPolicy>) -> Seq<
    (Seq<char>, u64, Option<nat>, QuotaUnit),
> {
    policies.map_values(|p: QuotaPolicy| p@)
}

/// A copy of a list of limits.
pub fn copy_limits(limits: &[ServiceLimit]) -> (r: Vec<ServiceLimit>)
    ensures
        r@ == limits@,
{
    let mut r: Vec<ServiceLimit> = Vec::new();
    let mut i: usize = 0;
    while i < limits.len()
        invariant
            0 <= i <= limits.len(),
            r@ == limits@.take(i as int),
        decreases limits.len() - i,
    {
        r.push(limits[i].copied());
        i = i + 1;
        assert(r@ =~= limits@.take(i as int));
    }
    assert(limits@.take(limits.len() as int) =~= limits@);
    r
}

/// A copy of a list of policies.
pub fn copy_policies(policies: &[QuotaPolicy]) -> (r: Vec<QuotaPolicy>)
    ensures
        r@ == policies@,
{
    let mut r: Vec<QuotaPolicy> = Vec::new();
    let mut i: usize = 0;
    while i < policies.len()
        invariant
            0 <= i <= policies.len(),
            r@ == policies@.take(i as int),
        decreases policies.len() - i,
    {
        r.push(policies[i].copied());
        i = i + 1;
        assert(r@ =~= policies@.take(i as int));
    }
    assert(policies@.take(policies.len() as int) =~= policies@);
    r
}

/// What a policy reports when a request may continue.
#[derive(Clone, Debug, Default, PartialEq, Eq)]
pub struct Allowance {
    /// Every limit consulted, in the order they should be reported.
    pub limits: Vec<ServiceLimit>,
}

/// What a policy reports when a request may not.
#[derive(Clone, Debug, PartialEq, Eq)]
pub struct Denial {
    /// How long the client should wait before retrying.
    pub retry_after: Duration,
    /// Every limit consulted, including the one that refused.
    pub limits: Vec<ServiceLimit>,
}

/// The result of consulting a rate-limit policy.
#[derive(Clone, Debug, PartialEq, Eq)]
pub enum Decision {
    /// The request may continue.
    Allow(Allowance),
    /// The request must receive 429 without reaching the handler.
    Deny(Denial),
}

/// Whether `decision` reports exactly `limits`, and refuses exactly when
/// `refusal` names a delay, with that delay.
pub open spec fn decides(
    decision: Decision,
    limits: Seq<(Seq<char>, u64, u64, nat)>,
    refusal: Option<nat>,
) -> bool {
    match decision {
        Decision::Allow(a) => refusal is None && limit_views(a.limits@) == limits,
        Decision::Deny(d) => refusal == Some(d.retry_after@) && limit_views(d.limits@) == limits,
    }
}

impl Decision {
    /// Allows the request, reporting one limit.
    pub fn allow(limit: ServiceLimit) -> (r: Self)
        ensures
            r matches Decision::Allow(a) && a.limits@ == seq![limit],
    {
        let mut limits: Vec<ServiceLimit> = Vec::new();
        limits.push(limit);
        Decision::Allow(Allowance { limits })
    }

    /// Refuses the request, reporting one limit.
    pub fn deny(retry_after: Duration, limit: ServiceLimit) -> (r: Self)
        ensures
            r matches Decision::Deny(d) && d.retry_after == retry_after && d.limits@ == seq![
                limit,
            ],
    {
        let mut limits: Vec<ServiceLimit> = Vec::new();
        limits.push(limit);
        Decision::Deny(Denial { retry_after, limits })
    }
}

} // verus!
