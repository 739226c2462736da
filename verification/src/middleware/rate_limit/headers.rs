//! What a rate-limited exchange says on the wire, in both spellings: the
//! `X-RateLimit-*` triple, and the draft's structured `RateLimit` and
//! `RateLimit-Policy` fields.

use vstd::prelude::*;

use crate::middleware::rate_limit::decision::{QuotaPolicy, QuotaUnit, ServiceLimit};
use crate::octets::{append_bytes, ascii, decimal, join, join_bytes, literal, views, render_u64};
use crate::time::{ceil_secs, min_nat, Duration};

verus! {

/// A delay in whole seconds, rounded up: `Retry-After` and the draft's `t`
/// are delta-seconds, and truncating would tell a client to retry at once
/// into the refusal it just received.
pub open spec fn delay_secs(nanos: nat) -> nat {
    min_nat(ceil_secs(nanos), u64::MAX as nat)
}

/// Whether every octet of `s` is printable ASCII, which an `sf-string` needs.
pub open spec fn sf_printable(s: Seq<u8>) -> bool {
    forall|i: int| 0 <= i < s.len() ==> 0x20u8 <= #[trigger] s[i] && s[i] < 0x7fu8
}

/// `s` with each `\` and `"` escaped by a `\`.
pub open spec fn sf_escaped(s: Seq<u8>) -> Seq<u8>
    decreases s.len(),
{
    if s.len() == 0 {
        Seq::empty()
    } else {
        let done = sf_escaped(s.drop_last());
        let b = s.last();
        if b == 0x5cu8 || b == 0x22u8 {
            done.push(0x5cu8).push(b)
        } else {
            done.push(b)
        }
    }
}

/// `s` as a structured-field String (RFC 8941 section 3.3.3), or `None` where
/// it cannot be one.
pub open spec fn sf_quoted(s: Seq<u8>) -> Option<Seq<u8>> {
    if sf_printable(s) {
        Some(seq![0x22u8] + sf_escaped(s) + seq![0x22u8])
    } else {
        None
    }
}

/// The UTF-8 octets of a name.
pub open spec fn name_bytes(name: Seq<char>) -> Seq<u8> {
    vstd::utf8::encode_utf8(name)
}

/// One `RateLimit` member: `"name";r=<remaining>;t=<seconds>`, or `None`
/// where the name cannot be a String.
pub open spec fn limit_member(l: (Seq<char>, u64, u64, nat)) -> Option<Seq<u8>> {
    match sf_quoted(name_bytes(l.0)) {
        Some(q) => Some(
            q + ascii(";r="@) + decimal(l.2 as nat) + ascii(";t="@) + decimal(delay_secs(l.3)),
        ),
        None => None,
    }
}

/// One `RateLimit-Policy` member: `"name";q=<quota>`, then `;w=<seconds>`
/// where there is a window and `;qu="<unit>"` where the unit is not the
/// default, or `None` where the name cannot be a String.
pub open spec fn policy_member(p: (Seq<char>, u64, Option<nat>, QuotaUnit)) -> Option<Seq<u8>> {
    match sf_quoted(name_bytes(p.0)) {
        Some(q) => {
            let window = match p.2 {
                Some(w) => ascii(";w="@) + decimal(w / 1_000_000_000),
                None => Seq::empty(),
            };
            let unit = if p.3 == QuotaUnit::Requests {
                Seq::empty()
            } else {
                ascii(";qu="@) + seq![0x22u8] + p.3.token() + seq![0x22u8]
            };
            Some(q + ascii(";q="@) + decimal(p.1 as nat) + window + unit)
        },
        None => None,
    }
}

/// The members of the limits that can be rendered, in order.
pub open spec fn limit_members(ls: Seq<(Seq<char>, u64, u64, nat)>) -> Seq<Seq<u8>>
    decreases ls.len(),
{
    if ls.len() == 0 {
        Seq::empty()
    } else {
        let done = limit_members(ls.drop_last());
        match limit_member(ls.last()) {
            Some(m) => done.push(m),
            None => done,
        }
    }
}

/// The members of the policies that can be rendered, in order.
pub open spec fn policy_members(ps: Seq<(Seq<char>, u64, Option<nat>, QuotaUnit)>) -> Seq<Seq<u8>>
    decreases ps.len(),
{
    if ps.len() == 0 {
        Seq::empty()
    } else {
        let done = policy_members(ps.drop_last());
        match policy_member(ps.last()) {
            Some(m) => done.push(m),
            None => done,
        }
    }
}

/// A structured-field List of `members`, or `None` when there is none.
pub open spec fn sf_list(members: Seq<Seq<u8>>) -> Option<Seq<u8>> {
    if members.len() == 0 {
        None
    } else {
        Some(join(members, ascii(", "@)))
    }
}

/// `name` as a structured-field String, or `None` where it cannot be one: a
/// name that cannot be rendered drops its member rather than producing a field
/// a parser will reject.
pub fn sf_string(name: &str) -> (r: Option<Vec<u8>>)
    ensures
        match r {
            Some(v) => sf_quoted(name_bytes(name@)) == Some(v@),
            None => sf_quoted(name_bytes(name@)) is None,
        },
{
    let bytes = name.as_bytes();
    let mut i: usize = 0;
    while i < bytes.len()
        invariant
            0 <= i <= bytes.len(),
            bytes@ == name_bytes(name@),
            forall|k: int| 0 <= k < i ==> 0x20u8 <= #[trigger] bytes@[k] && bytes@[k] < 0x7fu8,
        decreases bytes.len() - i,
    {
        if bytes[i] < 0x20 || bytes[i] >= 0x7f {
            return None;
        }
        i = i + 1;
    }
    let mut out: Vec<u8> = Vec::new();
    out.push(0x22);
    let mut j: usize = 0;
    while j < bytes.len()
        invariant
            0 <= j <= bytes.len(),
            out@ == seq![0x22u8] + sf_escaped(bytes@.take(j as int)),
        decreases bytes.len() - j,
    {
        let b = bytes[j];
        assert(bytes@.take(j + 1).drop_last() =~= bytes@.take(j as int));
        if b == 0x5c || b == 0x22 {
            out.push(0x5c);
            out.push(b);
        } else {
            out.push(b);
        }
        j = j + 1;
        assert(out@ =~= seq![0x22u8] + sf_escaped(bytes@.take(j as int)));
    }
    assert(bytes@.take(bytes.len() as int) =~= bytes@);
    out.push(0x22);
    assert(out@ =~= seq![0x22u8] + sf_escaped(bytes@) + seq![0x22u8]);
    Some(out)
}

/// One `RateLimit` member, rendered.
fn render_limit(limit: &ServiceLimit) -> (r: Option<Vec<u8>>)
    ensures
        match r {
            Some(v) => limit_member(limit@) == Some(v@),
            None => limit_member(limit@) is None,
        },
{
    proof {
        reveal_strlit(";r=");
        reveal_strlit(";t=");
    }
    match sf_string(limit.name.as_str()) {
        Some(quoted) => {
            let mut m = quoted;
            append_bytes(&mut m, literal(";r=").as_slice());
            append_bytes(&mut m, render_u64(limit.remaining).as_slice());
            append_bytes(&mut m, literal(";t=").as_slice());
            append_bytes(&mut m, render_u64(limit.reset.whole_seconds()).as_slice());
            Some(m)
        },
        None => None,
    }
}

/// One `RateLimit-Policy` member, rendered.
fn render_policy(policy: &QuotaPolicy) -> (r: Option<Vec<u8>>)
    ensures
        match r {
            Some(v) => policy_member(policy@) == Some(v@),
            None => policy_member(policy@) is None,
        },
{
    proof {
        reveal_strlit(";q=");
        reveal_strlit(";w=");
        reveal_strlit(";qu=");
    }
    match sf_string(policy.name.as_str()) {
        Some(quoted) => {
            let mut m = quoted;
            append_bytes(&mut m, literal(";q=").as_slice());
            append_bytes(&mut m, render_u64(policy.quota).as_slice());
            let ghost head = m@;
            match policy.window {
                Some(w) => {
                    append_bytes(&mut m, literal(";w=").as_slice());
                    append_bytes(&mut m, render_u64(w.as_secs()).as_slice());
                },
                None => {},
            }
            let ghost windowed = m@;
            if policy.unit != QuotaUnit::Requests {
                append_bytes(&mut m, literal(";qu=").as_slice());
                m.push(0x22);
                append_bytes(&mut m, policy.unit.token_bytes().as_slice());
                m.push(0x22);
            }
            proof {
                let p = policy@;
                let window = match p.2 {
                    Some(w) => ascii(";w="@) + decimal(w / 1_000_000_000),
                    None => Seq::empty(),
                };
                let unit = if p.3 == QuotaUnit::Requests {
                    Seq::empty()
                } else {
                    ascii(";qu="@) + seq![0x22u8] + p.3.token() + seq![0x22u8]
                };
                assert(windowed =~= head + window);
                assert(m@ =~= head + window + unit);
            }
            Some(m)
        },
        None => None,
    }
}

/// Renders the `RateLimit` field: one member per live limit that can be
/// named, or `None` when none can.
pub fn render_limits(limits: &[ServiceLimit]) -> (r: Option<Vec<u8>>)
    ensures
        match r {
            Some(v) => sf_list(
                limit_members(crate::middleware::rate_limit::decision::limit_views(limits@)),
            ) == Some(v@),
            None => sf_list(
                limit_members(crate::middleware::rate_limit::decision::limit_views(limits@)),
            ) is None,
        },
{
    let ghost lv = crate::middleware::rate_limit::decision::limit_views(limits@);
    let mut members: Vec<Vec<u8>> = Vec::new();
    let mut i: usize = 0;
    while i < limits.len()
        invariant
            0 <= i <= limits.len(),
            lv == crate::middleware::rate_limit::decision::limit_views(limits@),
            views(members@) == limit_members(lv.take(i as int)),
        decreases limits.len() - i,
    {
        assert(lv.take(i + 1).drop_last() =~= lv.take(i as int));
        assert(lv.take(i + 1).last() == limits@[i as int]@);
        let ghost before = members@;
        match render_limit(&limits[i]) {
            Some(m) => {
                members.push(m);
                assert(views(members@) =~= views(before).push(members@.last()@));
            },
            None => {},
        }
        i = i + 1;
    }
    assert(lv.take(limits.len() as int) =~= lv);
    if members.len() == 0 {
        None
    } else {
        proof {
            reveal_strlit(", ");
        }
        Some(join_bytes(&members, literal(", ").as_slice()))
    }
}

/// Renders the `RateLimit-Policy` field: one member per advertised policy
/// that can be named, or `None` when none can.
pub fn render_policies(policies: &[QuotaPolicy]) -> (r: Option<Vec<u8>>)
    ensures
        match r {
            Some(v) => sf_list(
                policy_members(crate::middleware::rate_limit::decision::policy_views(policies@)),
            ) == Some(v@),
            None => sf_list(
                policy_members(crate::middleware::rate_limit::decision::policy_views(policies@)),
            ) is None,
        },
{
    let ghost pv = crate::middleware::rate_limit::decision::policy_views(policies@);
    let mut members: Vec<Vec<u8>> = Vec::new();
    let mut i: usize = 0;
    while i < policies.len()
        invariant
            0 <= i <= policies.len(),
            pv == crate::middleware::rate_limit::decision::policy_views(policies@),
            views(members@) == policy_members(pv.take(i as int)),
        decreases policies.len() - i,
    {
        assert(pv.take(i + 1).drop_last() =~= pv.take(i as int));
        assert(pv.take(i + 1).last() == policies@[i as int]@);
        let ghost before = members@;
        match render_policy(&policies[i]) {
            Some(m) => {
                members.push(m);
                assert(views(members@) =~= views(before).push(members@.last()@));
            },
            None => {},
        }
        i = i + 1;
    }
    assert(pv.take(policies.len() as int) =~= pv);
    if members.len() == 0 {
        None
    } else {
        proof {
            reveal_strlit(", ");
        }
        Some(join_bytes(&members, literal(", ").as_slice()))
    }
}

/// The field lines of the `X-RateLimit-*` triple for a limit, remaining count
/// and reset delay.
pub open spec fn triple_fields(limit: u64, remaining: u64, reset: nat) -> Seq<(Seq<u8>, Seq<u8>)> {
    seq![
        (ascii("x-ratelimit-limit"@), decimal(limit as nat)),
        (ascii("x-ratelimit-remaining"@), decimal(remaining as nat)),
        (ascii("x-ratelimit-reset"@), decimal(delay_secs(reset))),
    ]
}

/// The `X-RateLimit-*` triple: one quota, in the spelling emitted by default
/// while the draft that owns the unprefixed names is still being revised.
#[derive(Clone, Debug, PartialEq, Eq)]
pub struct RateLimitHeaders {
    /// The ceiling the limit was configured with.
    pub limit: u64,
    /// Requests remaining in the current window.
    pub remaining: u64,
    /// How long until the window resets.
    pub reset: Duration,
}

impl RateLimitHeaders {
    /// The field names this group writes.
    pub open spec fn spec_names() -> Seq<Seq<u8>> {
        seq![
            ascii("x-ratelimit-limit"@),
            ascii("x-ratelimit-remaining"@),
            ascii("x-ratelimit-reset"@),
        ]
    }

    /// The field names this group writes.
    pub fn names() -> (r: Vec<Vec<u8>>)
        ensures
            views(r@) == Self::spec_names(),
    {
        proof {
            reveal_strlit("x-ratelimit-limit");
            reveal_strlit("x-ratelimit-remaining");
            reveal_strlit("x-ratelimit-reset");
        }
        let mut r: Vec<Vec<u8>> = Vec::new();
        r.push(literal("x-ratelimit-limit"));
        r.push(literal("x-ratelimit-remaining"));
        r.push(literal("x-ratelimit-reset"));
        assert(views(r@) =~= Self::spec_names());
        r
    }

    /// The triple, reported from the first limit a policy consulted, or all
    /// zeros when it consulted none: the spelling has room for one quota.
    pub fn from_limits(limits: &[ServiceLimit]) -> (r: Self)
        ensures
            limits.len() == 0 ==> r.limit == 0 && r.remaining == 0 && r.reset@ == 0,
            limits.len() > 0 ==> r.limit == limits[0].quota && r.remaining == limits[0].remaining
                && r.reset == limits[0].reset,
    {
        if limits.len() == 0 {
            RateLimitHeaders { limit: 0, remaining: 0, reset: Duration::zero() }
        } else {
            RateLimitHeaders { limit: limits[0].quota, remaining: limits[0].remaining, reset: limits[0].reset }
        }
    }

    /// The three field lines, delays rounded up to whole seconds.
    pub fn encode(&self) -> (r: Vec<(Vec<u8>, Vec<u8>)>)
        ensures
            r@.map_values(|f: (Vec<u8>, Vec<u8>)| (f.0@, f.1@)) == triple_fields(
                self.limit,
                self.remaining,
                self.reset@,
            ),
    {
        proof {
            reveal_strlit("x-ratelimit-limit");
            reveal_strlit("x-ratelimit-remaining");
            reveal_strlit("x-ratelimit-reset");
        }
        let mut r: Vec<(Vec<u8>, Vec<u8>)> = Vec::new();
        r.push((literal("x-ratelimit-limit"), render_u64(self.limit)));
        r.push((literal("x-ratelimit-remaining"), render_u64(self.remaining)));
        r.push((literal("x-ratelimit-reset"), render_u64(self.reset.whole_seconds())));
        assert(r@.map_values(|f: (Vec<u8>, Vec<u8>)| (f.0@, f.1@)) =~= triple_fields(
            self.limit,
            self.remaining,
            self.reset@,
        ));
        r
    }
}

/// The `RateLimit` and `RateLimit-Policy` fields the draft defines, which
/// carry every quota rather than one.
#[derive(Clone, Debug, PartialEq, Eq)]
pub struct RateLimitFields {
    /// Where the client stands against each policy.
    pub limits: Vec<ServiceLimit>,
    /// What the service enforces.
    pub policies: Vec<QuotaPolicy>,
}

/// The field lines of the structured spelling: `ratelimit` where some limit
/// can be rendered, then `ratelimit-policy` where some policy can.
pub open spec fn structured_fields(
    limits: Seq<(Seq<char>, u64, u64, nat)>,
    policies: Seq<(Seq<char>, u64, Option<nat>, QuotaUnit)>,
) -> Seq<(Seq<u8>, Seq<u8>)> {
    let first = match sf_list(limit_members(limits)) {
        Some(v) => seq![(ascii("ratelimit"@), v)],
        None => Seq::empty(),
    };
    let second = match sf_list(policy_members(policies)) {
        Some(v) => seq![(ascii("ratelimit-policy"@), v)],
        None => Seq::empty(),
    };
    first + second
}

impl RateLimitFields {
    /// The field names this group writes.
    pub open spec fn spec_names() -> Seq<Seq<u8>> {
        seq![ascii("ratelimit"@), ascii("ratelimit-policy"@)]
    }

    /// The field names this group writes.
    pub fn names() -> (r: Vec<Vec<u8>>)
        ensures
            views(r@) == Self::spec_names(),
    {
        proof {
            reveal_strlit("ratelimit");
            reveal_strlit("ratelimit-policy");
        }
        let mut r: Vec<Vec<u8>> = Vec::new();
        r.push(literal("ratelimit"));
        r.push(literal("ratelimit-policy"));
        assert(views(r@) =~= Self::spec_names());
        r
    }

    /// The field lines, each present only where it has a member.
    pub fn encode(&self) -> (r: Vec<(Vec<u8>, Vec<u8>)>)
        ensures
            r@.map_values(|f: (Vec<u8>, Vec<u8>)| (f.0@, f.1@)) == structured_fields(
                crate::middleware::rate_limit::decision::limit_views(self.limits@),
                crate::middleware::rate_limit::decision::policy_views(self.policies@),
            ),
    {
        proof {
            reveal_strlit("ratelimit");
            reveal_strlit("ratelimit-policy");
        }
        let mut r: Vec<(Vec<u8>, Vec<u8>)> = Vec::new();
        match render_limits(self.limits.as_slice()) {
            Some(v) => r.push((literal("ratelimit"), v)),
            None => {},
        }
        let ghost first = r@.map_values(|f: (Vec<u8>, Vec<u8>)| (f.0@, f.1@));
        match render_policies(self.policies.as_slice()) {
            Some(v) => r.push((literal("ratelimit-policy"), v)),
            None => {},
        }
        proof {
            let lv = crate::middleware::rate_limit::decision::limit_views(self.limits@);
            let pv = crate::middleware::rate_limit::decision::policy_views(self.policies@);
            let f = match sf_list(limit_members(lv)) {
                Some(v) => seq![(ascii("ratelimit"@), v)],
                None => Seq::empty(),
            };
            assert(first =~= f);
            assert(r@.map_values(|f: (Vec<u8>, Vec<u8>)| (f.0@, f.1@)) =~= structured_fields(lv, pv));
        }
        r
    }
}

/// The two spellings name disjoint fields, so a route carrying one is never
/// ambiguous about which it speaks.
pub proof fn the_two_spellings_name_disjoint_fields()
    ensures
        forall|i: int, j: int|
            0 <= i < RateLimitHeaders::spec_names().len() && 0 <= j < RateLimitFields::spec_names().len()
                ==> #[trigger] RateLimitHeaders::spec_names()[i] != #[trigger] RateLimitFields::spec_names()[j],
{
    reveal_strlit("x-ratelimit-limit");
    reveal_strlit("x-ratelimit-remaining");
    reveal_strlit("x-ratelimit-reset");
    reveal_strlit("ratelimit");
    reveal_strlit("ratelimit-policy");
    assert forall|i: int, j: int|
        0 <= i < RateLimitHeaders::spec_names().len() && 0 <= j < RateLimitFields::spec_names().len()
            implies #[trigger] RateLimitHeaders::spec_names()[i] != #[trigger] RateLimitFields::spec_names()[j] by {
        assert(RateLimitHeaders::spec_names()[i].len() != RateLimitFields::spec_names()[j].len());
    }
}

/// A delay shorter than a second but not empty is reported as one second,
/// never as none; only an empty delay is reported as zero.
pub proof fn a_short_delay_is_still_a_delay(nanos: nat)
    ensures
        (delay_secs(nanos) == 0) == (nanos == 0),
        nanos <= 1_000_000_000 && nanos > 0 ==> delay_secs(nanos) == 1,
{
}

} // verus!
