//! Named quotas over a counter store, and the sliding-window estimator behind
//! them.
//!
//! The store is the application's and is reached asynchronously, so a check is
//! a [`QuotaCheck`] stepped through by the server: each step names the store
//! operation to perform next, and the server hands back what the store said.

use vstd::prelude::*;

use crate::middleware::rate_limit::decision::{
    decides, Allowance, Decision, Denial, QuotaPolicy, QuotaUnit, ServiceLimit,
};
use crate::middleware::rate_limit::store::StoreFailure;
use crate::octets::{append_bytes, decimal, render_u128, slice_to_vec};
use crate::time::{min_nat, Duration, MAX_NANOS};

verus! {

/// `a + b`, or `u64::MAX` where that would not fit.
pub open spec fn sat_add(a: nat, b: nat) -> nat {
    min_nat(a + b, u64::MAX as nat)
}

/// `a - b`, or zero where `b` is the larger.
pub open spec fn sat_sub(a: nat, b: nat) -> nat {
    if a >= b {
        (a - b) as nat
    } else {
        0
    }
}

/// The larger of two.
pub open spec fn max_nat(a: nat, b: nat) -> nat {
    if a >= b {
        a
    } else {
        b
    }
}

/// The sliding-window estimate, `elapsed` nanoseconds into a window of
/// `window` nanoseconds: `current + previous × (window − elapsed) / window`,
/// counted in whole milliseconds and saturating rather than wrapping.
pub open spec fn estimated(previous: nat, current: nat, elapsed: nat, window: nat) -> nat {
    if window == 0 {
        current
    } else {
        let window_ms = max_nat(window / 1_000_000, 1);
        let elapsed_ms = min_nat(elapsed / 1_000_000, window_ms);
        let carried = min_nat(previous * (window_ms - elapsed_ms) as nat, u128::MAX as nat)
            / window_ms;
        sat_add(current, min_nat(carried, u64::MAX as nat))
    }
}

/// The earliest delay, in nanoseconds, after which the estimate falls to
/// `headroom` if the client sends nothing more: the rest of this window, plus
/// however much of the next the carried count takes to decay.
pub open spec fn recovery(current: nat, headroom: nat, elapsed: nat, window: nat) -> nat {
    let rest = sat_sub(window, elapsed);
    if current <= headroom {
        rest
    } else {
        let window_ms = window / 1_000_000;
        let decay_ms = min_nat(window_ms * (current - headroom) as nat, u128::MAX as nat)
            / max_nat(current, 1);
        min_nat(rest + min_nat(decay_ms, u64::MAX as nat) * 1_000_000, MAX_NANOS as nat)
    }
}

/// `a × b`, or `u128::MAX` where that would not fit.
fn sat_mul_u128(a: u128, b: u128) -> (r: u128)
    ensures
        r == min_nat((a * b) as nat, u128::MAX as nat),
{
    match a.checked_mul(b) {
        Some(p) => p,
        None => u128::MAX,
    }
}

/// The sliding-window estimate, `elapsed` into a window of `window`.
///
/// A fixed window lets a client spend a whole quota at the end of one and a
/// whole quota at the start of the next; weighting the previous window by how
/// much of it is still in view removes that without a log of requests.
pub fn estimate(previous: u64, current: u64, elapsed: Duration, window: Duration) -> (r: u64)
    ensures
        r == estimated(previous as nat, current as nat, elapsed@, window@),
{
    if window.is_zero() {
        return current;
    }
    let mut window_ms = window.as_millis();
    if window_ms < 1 {
        window_ms = 1;
    }
    let mut elapsed_ms = elapsed.as_millis();
    if elapsed_ms > window_ms {
        elapsed_ms = window_ms;
    }
    let weight = window_ms - elapsed_ms;
    let carried = sat_mul_u128(previous as u128, weight) / window_ms;
    let carried64: u64 = if carried > u64::MAX as u128 {
        u64::MAX
    } else {
        carried as u64
    };
    current.saturating_add(carried64)
}

/// The earliest delay after which the estimate falls to `headroom`, assuming
/// the client sends nothing more: a number the service can honour, where the
/// window's length would be a delay it does not require.
pub fn recovers_in(current: u64, headroom: u64, elapsed: Duration, window: Duration) -> (r: Duration)
    ensures
        r@ == recovery(current as nat, headroom as nat, elapsed@, window@),
{
    let remaining_window = window.saturating_sub(elapsed);
    if current <= headroom {
        return remaining_window;
    }
    let excess = (current - headroom) as u128;
    let window_ms = window.as_millis();
    let divisor: u128 = if current < 1 {
        1
    } else {
        current as u128
    };
    let decay_ms = sat_mul_u128(window_ms, excess) / divisor;
    let decay_ms64: u64 = if decay_ms > u64::MAX as u128 {
        u64::MAX
    } else {
        decay_ms as u64
    };
    let decay = Duration::from_millis(decay_ms64);
    remaining_window.saturating_add(decay)
}

/// One named window.
#[derive(Clone, Debug, PartialEq, Eq)]
pub struct Quota {
    name: String,
    limit: u64,
    window: Duration,
    burst: u64,
    unit: QuotaUnit,
}

impl Quota {
    /// The name the quota is reported under.
    pub closed spec fn spec_name(&self) -> Seq<char> {
        self.name@
    }

    /// The sustained count the quota permits per window.
    pub closed spec fn spec_limit(&self) -> u64 {
        self.limit
    }

    /// The window, in nanoseconds.
    pub closed spec fn spec_window(&self) -> nat {
        self.window@
    }

    /// What the quota permits beyond the sustained count.
    pub closed spec fn spec_burst(&self) -> u64 {
        self.burst
    }

    /// What the quota counts.
    pub closed spec fn spec_unit(&self) -> QuotaUnit {
        self.unit
    }

    /// The number a response reports: the sustained count and the burst,
    /// saturating.
    pub open spec fn spec_ceiling(&self) -> nat {
        sat_add(self.spec_limit() as nat, self.spec_burst() as nat)
    }

    /// Permits `limit` per `window`, with no burst, counting requests.
    pub fn new(name: &str, limit: u64, window: Duration) -> (r: Self)
        ensures
            r.spec_name() == name@,
            r.spec_limit() == limit,
            r.spec_window() == window@,
            r.spec_burst() == 0,
            r.spec_unit() == QuotaUnit::Requests,
    {
        Quota { name: name.to_owned(), limit, window, burst: 0, unit: QuotaUnit::Requests }
    }

    /// Permits `limit` per second.
    pub fn per_second(name: &str, limit: u64) -> (r: Self)
        ensures
            r.spec_name() == name@,
            r.spec_limit() == limit,
            r.spec_window() == 1_000_000_000,
            r.spec_burst() == 0,
            r.spec_unit() == QuotaUnit::Requests,
    {
        Self::new(name, limit, Duration::from_secs(1))
    }

    /// Permits `limit` per minute.
    pub fn per_minute(name: &str, limit: u64) -> (r: Self)
        ensures
            r.spec_name() == name@,
            r.spec_limit() == limit,
            r.spec_window() == 60_000_000_000,
            r.spec_burst() == 0,
            r.spec_unit() == QuotaUnit::Requests,
    {
        Self::new(name, limit, Duration::from_secs(60))
    }

    /// Permits `limit` per hour.
    pub fn per_hour(name: &str, limit: u64) -> (r: Self)
        ensures
            r.spec_name() == name@,
            r.spec_limit() == limit,
            r.spec_window() == 3_600_000_000_000,
            r.spec_burst() == 0,
            r.spec_unit() == QuotaUnit::Requests,
    {
        Self::new(name, limit, Duration::from_secs(3600))
    }

    /// Permits `limit` per day.
    pub fn per_day(name: &str, limit: u64) -> (r: Self)
        ensures
            r.spec_name() == name@,
            r.spec_limit() == limit,
            r.spec_window() == 86_400_000_000_000,
            r.spec_burst() == 0,
            r.spec_unit() == QuotaUnit::Requests,
    {
        Self::new(name, limit, Duration::from_secs(86400))
    }

    /// Permits `extra` beyond the sustained rate inside any one window; the
    /// advertised quota becomes `limit + extra`, because that is what the
    /// service will honour.
    pub fn burst(self, extra: u64) -> (r: Self)
        ensures
            r.spec_name() == self.spec_name(),
            r.spec_limit() == self.spec_limit(),
            r.spec_window() == self.spec_window(),
            r.spec_burst() == extra,
            r.spec_unit() == self.spec_unit(),
    {
        Quota { burst: extra, ..self }
    }

    /// What this quota counts.
    pub fn unit(self, unit: QuotaUnit) -> (r: Self)
        ensures
            r.spec_name() == self.spec_name(),
            r.spec_limit() == self.spec_limit(),
            r.spec_window() == self.spec_window(),
            r.spec_burst() == self.spec_burst(),
            r.spec_unit() == unit,
    {
        Quota { unit, ..self }
    }

    /// The number a response reports, burst included.
    pub fn ceiling(&self) -> (r: u64)
        ensures
            r == self.spec_ceiling(),
    {
        self.limit.saturating_add(self.burst)
    }

    /// This quota as the policy a response advertises.
    pub fn policy(&self) -> (r: QuotaPolicy)
        ensures
            r@ == (self.spec_name(), self.spec_ceiling() as u64, Some(self.spec_window()), self.spec_unit()),
    {
        QuotaPolicy {
            name: self.name.clone(),
            quota: self.ceiling(),
            window: Some(self.window),
            unit: self.unit,
        }
    }
}

/// The window length a quota is counted in, in whole milliseconds and at
/// least one.
pub open spec fn window_ms(q: Quota) -> nat {
    max_nat(q.spec_window() / 1_000_000, 1)
}

/// Which window of `q` the instant `now` (nanoseconds since the epoch) falls
/// in.
pub open spec fn window_index(q: Quota, now: nat) -> nat {
    (now / 1_000_000) / window_ms(q)
}

/// How far into its window the instant `now` is, in nanoseconds, counted in
/// whole milliseconds.
pub open spec fn elapsed_in(q: Quota, now: nat) -> nat {
    min_nat((now / 1_000_000) % window_ms(q), u64::MAX as nat) * 1_000_000
}

/// The store key of `q`'s counter for window `index` under `partition`:
/// `partition|name|index`.
pub open spec fn counter_key(partition: Seq<u8>, q: Quota, index: nat) -> Seq<u8> {
    partition + seq![0x7cu8] + vstd::utf8::encode_utf8(q.spec_name()) + seq![0x7cu8] + decimal(
        index,
    )
}

/// What one quota reports, how the refusal delay stands after it, and
/// whether the request spends from it, given what the store said of its two
/// windows (`Some((current, previous))`, or `None` when it could not answer).
pub open spec fn assessed(
    q: Quota,
    now: nat,
    failure: StoreFailure,
    refusal: Option<nat>,
    counts: Option<(u64, u64)>,
) -> ((Seq<char>, u64, u64, nat), Option<nat>, bool) {
    let elapsed = elapsed_in(q, now);
    let rest = sat_sub(q.spec_window(), elapsed);
    let ceiling = q.spec_ceiling();
    match counts {
        None => match failure {
            StoreFailure::Allow => ((q.spec_name(), ceiling as u64, ceiling as u64, rest), refusal, false),
            StoreFailure::Deny => (
                (q.spec_name(), ceiling as u64, 0u64, rest),
                Some(
                    match refusal {
                        Some(d) => d,
                        None => rest,
                    },
                ),
                false,
            ),
        },
        Some((current, previous)) => {
            let counted = estimated(previous as nat, current as nat, elapsed, q.spec_window());
            if counted >= ceiling {
                let wait = recovery(counted, sat_sub(ceiling, 1), elapsed, q.spec_window());
                let wait = match refusal {
                    Some(d) => max_nat(d, wait),
                    None => wait,
                };
                ((q.spec_name(), ceiling as u64, 0u64, wait), Some(wait), false)
            } else {
                (
                    (q.spec_name(), ceiling as u64, (ceiling - counted - 1) as u64, rest),
                    refusal,
                    true,
                )
            }
        },
    }
}

/// The limits reported and the refusal delay after the first `counts.len()`
/// quotas of `quotas` were assessed, in order.
pub open spec fn checked(
    quotas: Seq<Quota>,
    now: nat,
    failure: StoreFailure,
    counts: Seq<Option<(u64, u64)>>,
) -> (Seq<(Seq<char>, u64, u64, nat)>, Option<nat>)
    decreases counts.len(),
{
    if counts.len() == 0 {
        (Seq::empty(), None)
    } else {
        let before = checked(quotas, now, failure, counts.drop_last());
        let after = assessed(quotas[counts.len() - 1], now, failure, before.1, counts.last());
        (before.0.push(after.0), after.1)
    }
}

/// What an exempt request reports: every quota in full.
pub open spec fn exempt_limits(quotas: Seq<Quota>) -> Seq<(Seq<char>, u64, u64, nat)> {
    quotas.map_values(
        |q: Quota| (q.spec_name(), q.spec_ceiling() as u64, q.spec_ceiling() as u64, q.spec_window()),
    )
}

/// The named quotas a limiter enforces over a store of counters: every quota
/// added is enforced and every one is reported.
pub struct Quotas<K, S> {
    key: K,
    store: S,
    enforced: Vec<Quota>,
    policies: Vec<QuotaPolicy>,
    on_store_failure: StoreFailure,
}

/// The store operation a check needs next, or its outcome.
pub enum CheckStep {
    /// Read the counters at `current` and `previous`; each reads as zero when
    /// absent or expired.
    Read { current: Vec<u8>, previous: Vec<u8> },
    /// Add `by` to the counter at `key`, creating it to expire `ttl` after its
    /// creation.
    Increment { key: Vec<u8>, by: u64, ttl: Duration },
    /// The check is over.
    Done(Decision),
}

/// A check of one request against a limiter's quotas, in progress.
pub struct QuotaCheck {
    partition: Vec<u8>,
    now: Duration,
    next: usize,
    limits: Vec<ServiceLimit>,
    refusal: Option<Duration>,
    spending: bool,
    counts: Ghost<Seq<Option<(u64, u64)>>>,
}

impl QuotaCheck {
    /// What the store said of each quota assessed so far, in order.
    pub closed spec fn spec_counts(&self) -> Seq<Option<(u64, u64)>> {
        self.counts@
    }

    /// The partition the request counts against.
    pub closed spec fn spec_partition(&self) -> Seq<u8> {
        self.partition@
    }

    /// The instant of the check, in nanoseconds since the epoch.
    pub closed spec fn spec_now(&self) -> nat {
        self.now@
    }

    /// Whether the check waits for an increment to be performed.
    pub closed spec fn spec_spending(&self) -> bool {
        self.spending
    }
}

/// The policies a list of quotas advertises, one per quota, in order.
pub open spec fn quota_policies(qs: Seq<Quota>) -> Seq<(Seq<char>, u64, Option<nat>, QuotaUnit)> {
    qs.map_values(|q: Quota| (q.spec_name(), q.spec_ceiling() as u64, Some(q.spec_window()), q.spec_unit()))
}

impl<K, S> Quotas<K, S> {
    /// Every policy advertised is that of the quota enforced at its place.
    #[verifier::type_invariant]
    spec fn advertises_what_it_enforces(self) -> bool {
        crate::middleware::rate_limit::decision::policy_views(self.policies@) == quota_policies(self.enforced@)
    }

    /// Whether the `i`-th policy advertised is the `i`-th quota's, for every
    /// `i`: every quota added is enforced and reported, in the order added.
    pub open spec fn reports_each_quota(&self) -> bool {
        crate::middleware::rate_limit::decision::policy_views(self.spec_policies()) == quota_policies(
            self.spec_enforced(),
        )
    }

    /// The quotas enforced, in the order they are checked and reported.
    pub closed spec fn spec_enforced(&self) -> Seq<Quota> {
        self.enforced@
    }

    /// The policies advertised, one per quota.
    pub closed spec fn spec_policies(&self) -> Seq<QuotaPolicy> {
        self.policies@
    }

    /// What the limiter does when its store cannot answer.
    pub closed spec fn spec_failure(&self) -> StoreFailure {
        self.on_store_failure
    }

    /// Whether `check` is a consistent check of a request against these
    /// quotas: its reports are exactly those of the quotas assessed so far.
    pub closed spec fn tracks(&self, check: &QuotaCheck) -> bool {
        let qs = self.enforced@;
        let counts = check.counts@;
        let so_far = checked(qs, check.now@, self.on_store_failure, counts);
        &&& counts.len() <= qs.len()
        &&& check.next == counts.len()
        &&& crate::middleware::rate_limit::decision::limit_views(check.limits@) == so_far.0
        &&& so_far.1 == match check.refusal {
            Some(d) => Some(d@),
            None => None,
        }
        &&& check.spending ==> counts.len() >= 1 && assessed(
            qs[counts.len() - 1],
            check.now@,
            self.on_store_failure,
            checked(qs, check.now@, self.on_store_failure, counts.drop_last()).1,
            counts.last(),
        ).2
    }

    /// Whether `step` is what `check` asks for next: the increment of the
    /// quota just assessed when it spends, else the counters of the next
    /// quota, else the decision.
    pub open spec fn asks(&self, check: &QuotaCheck, step: CheckStep) -> bool {
        let qs = self.spec_enforced();
        let counts = check.spec_counts();
        let now = check.spec_now();
        if check.spec_spending() {
            let q = qs[counts.len() - 1];
            step matches CheckStep::Increment { key, by, ttl } && key@ == counter_key(
                check.spec_partition(),
                q,
                window_index(q, now),
            ) && by == 1 && ttl@ == min_nat((q.spec_window() * 2) as nat, MAX_NANOS as nat)
        } else if counts.len() < qs.len() {
            let q = qs[counts.len() as int];
            let index = window_index(q, now);
            step matches CheckStep::Read { current, previous } && current@ == counter_key(
                check.spec_partition(),
                q,
                index,
            ) && previous@ == counter_key(check.spec_partition(), q, sat_sub(index, 1))
        } else {
            let so_far = checked(qs, now, self.spec_failure(), counts);
            step matches CheckStep::Done(d) && decides(d, so_far.0, so_far.1)
        }
    }

    /// Counts against `key`, in `store`, with no quota yet and allowing
    /// requests when the store cannot answer.
    pub fn new(key: K, store: S) -> (r: Self)
        ensures
            r.spec_key() == key,
            r.spec_store() == store,
            r.spec_enforced() == Seq::<Quota>::empty(),
            r.spec_policies() == Seq::<QuotaPolicy>::empty(),
            r.spec_failure() == StoreFailure::Allow,
            r.reports_each_quota(),
    {
        let enforced: Vec<Quota> = Vec::new();
        let policies: Vec<QuotaPolicy> = Vec::new();
        assert(crate::middleware::rate_limit::decision::policy_views(policies@) =~= quota_policies(enforced@));
        Quotas { key, store, enforced, policies, on_store_failure: StoreFailure::Allow }
    }

    /// Adds a quota, enforced and reported.
    pub fn quota(self, quota: Quota) -> (r: Self)
        ensures
            r.spec_enforced() == self.spec_enforced().push(quota),
            crate::middleware::rate_limit::decision::policy_views(r.spec_policies())
                == crate::middleware::rate_limit::decision::policy_views(
                self.spec_policies(),
            ).push(
                (quota.spec_name(), quota.spec_ceiling() as u64, Some(quota.spec_window()), quota.spec_unit()),
            ),
            r.spec_failure() == self.spec_failure(),
            r.spec_key() == self.spec_key(),
            r.spec_store() == self.spec_store(),
            r.reports_each_quota(),
    {
        proof {
            use_type_invariant(&self);
        }
        let Quotas { key, store, enforced, policies, on_store_failure } = self;
        let mut enforced = enforced;
        let mut policies = policies;
        let policy = quota.policy();
        let ghost before = policies@;
        let ghost quotas_before = enforced@;
        policies.push(policy);
        enforced.push(quota);
        assert(crate::middleware::rate_limit::decision::policy_views(policies@)
            =~= crate::middleware::rate_limit::decision::policy_views(before).push(policy@));
        assert(quota_policies(enforced@) =~= quota_policies(quotas_before).push(policy@));
        let r = Quotas { key, store, enforced, policies, on_store_failure };
        r
    }

    /// What to do when the store cannot answer.
    pub fn on_store_failure(self, failure: StoreFailure) -> (r: Self)
        ensures
            r.spec_enforced() == self.spec_enforced(),
            r.spec_policies() == self.spec_policies(),
            r.spec_failure() == failure,
            r.spec_key() == self.spec_key(),
            r.spec_store() == self.spec_store(),
            r.reports_each_quota(),
    {
        proof {
            use_type_invariant(&self);
        }
        Quotas { on_store_failure: failure, ..self }
    }

    /// The policies this limiter advertises, in report order.
    pub fn advertised(&self) -> (r: &[QuotaPolicy])
        ensures
            r@ == self.spec_policies(),
            crate::middleware::rate_limit::decision::policy_views(r@) == quota_policies(self.spec_enforced()),
    {
        proof {
            use_type_invariant(self);
        }
        self.policies.as_slice()
    }

    /// What a request counts against.
    pub closed spec fn spec_key(&self) -> K {
        self.key
    }

    /// Where the counters live.
    pub closed spec fn spec_store(&self) -> S {
        self.store
    }

    /// What a request counts against.
    pub fn key(&self) -> (r: &K)
        ensures
            *r == self.spec_key(),
    {
        &self.key
    }

    /// Where the counters live.
    pub fn store(&self) -> (r: &S)
        ensures
            *r == self.spec_store(),
    {
        &self.store
    }

    /// The decision for an exempt request: no counter read, none written, and
    /// every quota reported in full rather than a number implying a bucket.
    pub fn exempt(&self) -> (d: Decision)
        ensures
            decides(d, exempt_limits(self.spec_enforced()), None),
    {
        let mut limits: Vec<ServiceLimit> = Vec::new();
        let mut i: usize = 0;
        while i < self.enforced.len()
            invariant
                0 <= i <= self.enforced.len(),
                crate::middleware::rate_limit::decision::limit_views(limits@) == exempt_limits(
                    self.enforced@.take(i as int),
                ),
            decreases self.enforced.len() - i,
        {
            let q = &self.enforced[i];
            let ghost before = limits@;
            let ceiling = q.ceiling();
            limits.push(ServiceLimit { name: q.name.clone(), quota: ceiling, remaining: ceiling, reset: q.window });
            i = i + 1;
            assert(self.enforced@.take(i as int) =~= self.enforced@.take(i - 1).push(*q));
            assert(crate::middleware::rate_limit::decision::limit_views(limits@)
                =~= crate::middleware::rate_limit::decision::limit_views(before).push(limits@.last()@));
        }
        assert(self.enforced@.take(self.enforced.len() as int) =~= self.enforced@);
        Decision::Allow(Allowance { limits })
    }

    /// Starts checking a request that counts against `partition`, at `now`
    /// (time since the epoch).
    pub fn begin(&self, partition: &[u8], now: Duration) -> (r: (QuotaCheck, CheckStep))
        ensures
            self.tracks(&r.0),
            r.0.spec_counts() == Seq::<Option<(u64, u64)>>::empty(),
            r.0.spec_partition() == partition@,
            r.0.spec_now() == now@,
            !r.0.spec_spending(),
            self.asks(&r.0, r.1),
    {
        let check = QuotaCheck {
            partition: slice_to_vec(partition),
            now,
            next: 0,
            limits: Vec::new(),
            refusal: None,
            spending: false,
            counts: Ghost(Seq::empty()),
        };
        assert(crate::middleware::rate_limit::decision::limit_views(check.limits@) =~= Seq::empty());
        let step = self.upcoming(&check);
        (check, step)
    }

    /// Continues a check with what the store said of the two windows of the
    /// quota it asked about: `Some((current, previous))`, or `None` when
    /// either read failed.
    pub fn counted(&self, check: &mut QuotaCheck, counts: Option<(u64, u64)>) -> (r: CheckStep)
        requires
            self.tracks(old(check)),
            !old(check).spec_spending(),
            old(check).spec_counts().len() < self.spec_enforced().len(),
        ensures
            self.tracks(final(check)),
            final(check).spec_counts() == old(check).spec_counts().push(counts),
            final(check).spec_partition() == old(check).spec_partition(),
            final(check).spec_now() == old(check).spec_now(),
            final(check).spec_spending() == assessed(
                self.spec_enforced()[old(check).spec_counts().len() as int],
                old(check).spec_now(),
                self.spec_failure(),
                checked(
                    self.spec_enforced(),
                    old(check).spec_now(),
                    self.spec_failure(),
                    old(check).spec_counts(),
                ).1,
                counts,
            ).2,
            self.asks(final(check), r),
    {
        let ghost qs = self.enforced@;
        let ghost old_counts = check.counts@;
        let ghost before = checked(qs, check.now@, self.on_store_failure, old_counts);
        let next = check.next;
        assert(next < self.enforced.len());
        let q = &self.enforced[next];
        let (index, elapsed) = position(q, check.now);
        let rest = q.window.saturating_sub(elapsed);
        let ceiling = q.ceiling();
        let ghost assessment = assessed(*q, check.now@, self.on_store_failure, before.1, counts);
        let ghost lviews = crate::middleware::rate_limit::decision::limit_views(check.limits@);
        let mut spends = false;
        let limit = match counts {
            None => match self.on_store_failure {
                StoreFailure::Allow => {
                    ServiceLimit { name: q.name.clone(), quota: ceiling, remaining: ceiling, reset: rest }
                },
                StoreFailure::Deny => {
                    if check.refusal.is_none() {
                        check.refusal = Some(rest);
                    }
                    ServiceLimit { name: q.name.clone(), quota: ceiling, remaining: 0, reset: rest }
                },
            },
            Some((current, previous)) => {
                let counted = estimate(previous, current, elapsed, q.window);
                if counted >= ceiling {
                    let wait = recovers_in(counted, ceiling.saturating_sub(1), elapsed, q.window);
                    let wait = match check.refusal {
                        Some(existing) => existing.max(wait),
                        None => wait,
                    };
                    check.refusal = Some(wait);
                    ServiceLimit { name: q.name.clone(), quota: ceiling, remaining: 0, reset: wait }
                } else {
                    spends = true;
                    ServiceLimit {
                        name: q.name.clone(),
                        quota: ceiling,
                        remaining: ceiling - counted - 1,
                        reset: rest,
                    }
                }
            },
        };
        check.limits.push(limit);
        check.next = next + 1;
        check.spending = spends;
        proof {
            check.counts = Ghost(old_counts.push(counts));
            assert(check.counts@.drop_last() =~= old_counts);
            assert(qs[check.counts@.len() - 1] == *q);
            assert(crate::middleware::rate_limit::decision::limit_views(check.limits@)
                =~= lviews.push(assessment.0));
        }
        if spends {
            let key = counter_key_bytes(check.partition.as_slice(), q, index);
            CheckStep::Increment { key, by: 1, ttl: q.window.saturating_mul(2) }
        } else {
            self.upcoming(check)
        }
    }

    /// Continues a check once the increment it asked for was performed,
    /// whatever the store answered: the count was already judged.
    pub fn spent(&self, check: &mut QuotaCheck) -> (r: CheckStep)
        requires
            self.tracks(old(check)),
            old(check).spec_spending(),
        ensures
            self.tracks(final(check)),
            final(check).spec_counts() == old(check).spec_counts(),
            final(check).spec_partition() == old(check).spec_partition(),
            final(check).spec_now() == old(check).spec_now(),
            !final(check).spec_spending(),
            self.asks(final(check), r),
    {
        check.spending = false;
        self.upcoming(check)
    }

    /// The step a check that is not spending asks for.
    fn upcoming(&self, check: &QuotaCheck) -> (r: CheckStep)
        requires
            self.tracks(check),
            !check.spending,
        ensures
            self.asks(check, r),
    {
        if check.next < self.enforced.len() {
            let q = &self.enforced[check.next];
            let (index, _elapsed) = position(q, check.now);
            let current = counter_key_bytes(check.partition.as_slice(), q, index);
            let previous = counter_key_bytes(check.partition.as_slice(), q, index.saturating_sub(1));
            CheckStep::Read { current, previous }
        } else {
            let limits = crate::middleware::rate_limit::decision::copy_limits(check.limits.as_slice());
            match check.refusal {
                Some(retry_after) => CheckStep::Done(Decision::Deny(Denial { retry_after, limits })),
                None => CheckStep::Done(Decision::Allow(Allowance { limits })),
            }
        }
    }
}

/// Which window of `q` the instant `now` falls in, and how far into it.
fn position(q: &Quota, now: Duration) -> (r: (u128, Duration))
    ensures
        r.0 == window_index(*q, now@),
        r.1@ == elapsed_in(*q, now@),
{
    let mut window_ms = q.window.as_millis();
    if window_ms < 1 {
        window_ms = 1;
    }
    let now_ms = now.as_millis();
    let index = now_ms / window_ms;
    let into = now_ms % window_ms;
    let into64: u64 = if into > u64::MAX as u128 {
        u64::MAX
    } else {
        into as u64
    };
    (index, Duration::from_millis(into64))
}

/// The store key of `q`'s counter for window `index` under `partition`.
fn counter_key_bytes(partition: &[u8], q: &Quota, index: u128) -> (r: Vec<u8>)
    ensures
        r@ == counter_key(partition@, *q, index as nat),
{
    let mut key = slice_to_vec(partition);
    key.push(0x7c);
    append_bytes(&mut key, q.name.as_str().as_bytes());
    key.push(0x7c);
    let digits = render_u128(index);
    append_bytes(&mut key, digits.as_slice());
    key
}

/// The estimate never counts fewer than the current window already holds,
/// and saturates at `u64::MAX` rather than wrapping into permission.
pub proof fn the_estimate_never_undercounts(previous: nat, current: nat, elapsed: nat, window: nat)
    requires
        current <= u64::MAX,
    ensures
        estimated(previous, current, elapsed, window) >= current,
        estimated(previous, current, elapsed, window) <= u64::MAX,
{
}

/// Past the end of its window, the previous window no longer counts.
pub proof fn a_window_out_of_view_counts_nothing(previous: nat, current: nat, elapsed: nat, window: nat)
    requires
        current <= u64::MAX,
        window > 0,
        elapsed / 1_000_000 >= max_nat(window / 1_000_000, 1),
    ensures
        estimated(previous, current, elapsed, window) == current,
{
    let window_ms = max_nat(window / 1_000_000, 1);
    assert(previous * 0 == 0) by (nonlinear_arith);
    assert(min_nat(elapsed / 1_000_000, window_ms) == window_ms);
}

/// A recovery delay is never shorter than the rest of the window: the carried
/// count only decays once the window has closed.
pub proof fn recovery_outlasts_the_window(current: nat, headroom: nat, elapsed: nat, window: nat)
    requires
        window <= MAX_NANOS,
    ensures
        recovery(current, headroom, elapsed, window) >= sat_sub(window, elapsed),
{
}

/// A quota spends only from a request it serves: a quota that spends saw its
/// counters, counted under its ceiling, and reports the count after this
/// request; a quota that refused or could not count spends nothing.
pub proof fn only_a_served_request_spends(
    q: Quota,
    now: nat,
    failure: StoreFailure,
    refusal: Option<nat>,
    counts: Option<(u64, u64)>,
)
    ensures
        assessed(q, now, failure, refusal, counts).2 ==> (counts matches Some((current, previous))
            && estimated(previous as nat, current as nat, elapsed_in(q, now), q.spec_window())
            < q.spec_ceiling() && assessed(q, now, failure, refusal, counts).0.2 == (q.spec_ceiling()
            - estimated(previous as nat, current as nat, elapsed_in(q, now), q.spec_window()) - 1)),
        assessed(q, now, failure, refusal, counts).1 != refusal ==> !assessed(q, now, failure, refusal, counts).2,
{
}

/// Once a check refuses, it stays refused: no later quota withdraws a
/// refusal an earlier one made.
pub proof fn a_refusal_is_never_withdrawn(
    quotas: Seq<Quota>,
    now: nat,
    failure: StoreFailure,
    counts: Seq<Option<(u64, u64)>>,
    i: int,
)
    requires
        0 <= i <= counts.len(),
        counts.len() <= quotas.len(),
        checked(quotas, now, failure, counts.take(i)).1 is Some,
    ensures
        checked(quotas, now, failure, counts).1 is Some,
    decreases counts.len() - i,
{
    if i < counts.len() {
        assert(counts.take(i + 1).drop_last() =~= counts.take(i));
        a_refusal_is_never_withdrawn(quotas, now, failure, counts, i + 1);
    } else {
        assert(counts.take(i) =~= counts);
    }
}

/// A quota's ceiling is its sustained limit plus its burst, saturating at
/// `u64::MAX`: the burst is honoured on top of the limit, never instead of
/// it.
pub proof fn the_ceiling_is_the_limit_and_the_burst(q: Quota)
    ensures
        q.spec_ceiling() == (if q.spec_limit() + q.spec_burst() <= u64::MAX {
            q.spec_limit() + q.spec_burst()
        } else {
            u64::MAX as int
        }),
        q.spec_ceiling() >= q.spec_limit(),
        q.spec_ceiling() >= q.spec_burst(),
{
}

} // verus!
