//! Limits on how large a request may be and how long an exchange may take,
//! each with the refusal it answers with.
//!
//! A limit owns the type of its refusal, so the status a limit can produce is
//! the status that type describes, and a field that rides the status —
//! `Retry-After` on a 503 — is set by the same type that declares it.

use vstd::prelude::*;

use crate::fields::{text_value, Fields};
use crate::octets::{ascii, decimal, literal, parse_u64, parse_u64_bytes, render_u64, trim, trim_bytes};
use crate::time::Duration;

verus! {

/// The length a request declares in `Content-Length`, when it declares one
/// that reads as a number.
pub open spec fn declared(headers: Seq<(Seq<u8>, Seq<u8>)>) -> Option<u64> {
    match text_value(headers, ascii("content-length"@)) {
        Some(v) => parse_u64(trim(v)),
        None => None,
    }
}

/// The length the request declared, when it declared one.
pub fn declared_length(headers: &Fields) -> (r: Option<u64>)
    ensures
        r == declared(headers@),
{
    proof {
        reveal_strlit("content-length");
    }
    let name = literal("content-length");
    match headers.get_text(name.as_slice()) {
        Some(v) => {
            let trimmed = trim_bytes(v.as_slice());
            parse_u64_bytes(trimmed.as_slice())
        },
        None => None,
    }
}

/// What [`BodySize`] answers with when a body is too large: a 413 that names
/// the limit it enforced.
#[derive(Clone, Copy, Debug, PartialEq, Eq, Structural)]
pub struct BodySizeExceeded {
    /// The maximum body size, in bytes.
    pub limit: u64,
}

impl BodySizeExceeded {
    /// The status the refusal carries.
    pub fn status(&self) -> (r: u16)
        ensures
            r == 413,
    {
        413
    }

    /// The statuses the refusal may answer with.
    pub fn statuses() -> (r: Vec<u16>)
        ensures
            r@ == seq![413u16],
    {
        let mut r: Vec<u16> = Vec::new();
        r.push(413);
        r
    }

    /// The sentence the problem document carries.
    pub fn detail(&self) -> (r: Vec<u8>)
        ensures
            r@ == ascii("the request body exceeds "@) + decimal(self.limit as nat) + ascii(" bytes"@),
    {
        proof {
            reveal_strlit("the request body exceeds ");
            reveal_strlit(" bytes");
        }
        let mut r = literal("the request body exceeds ");
        let digits = render_u64(self.limit);
        let tail = literal(" bytes");
        let ghost head = r@;
        r.extend_from_slice(digits.as_slice());
        r.extend_from_slice(tail.as_slice());
        assert(r@ =~= head + digits@ + tail@);
        r
    }
}

/// What a [`BodySize`] does with a request, decided from its head.
#[derive(Clone, Copy, Debug, PartialEq, Eq, Structural)]
pub enum Admission {
    /// The declared length is within the limit: the body passes through
    /// untouched, and a streaming upload stays one.
    Forward,
    /// No length was declared, so the body is counted frame by frame.
    Count,
}

/// Caps the size of a request body.
///
/// A request that declares a length is decided from its head; one that does
/// not is counted as it arrives and refused on the frame that passes the
/// limit.
#[derive(Clone, Copy, Debug, PartialEq, Eq, Structural)]
pub struct BodySize {
    /// The maximum body size, in bytes.
    pub limit: u64,
}

/// `a + b`, stopping at `u64::MAX`.
pub open spec fn saturated(a: u64, b: u64) -> u64 {
    if a + b > u64::MAX {
        u64::MAX
    } else {
        (a + b) as u64
    }
}

impl BodySize {
    /// Caps bodies at `bytes`.
    pub fn new(bytes: u64) -> (r: Self)
        ensures
            r.limit == bytes,
    {
        BodySize { limit: bytes }
    }

    /// What happens to a request with these fields: refused outright when it
    /// declares more than the limit, forwarded when it declares no more, and
    /// counted when it declares nothing.
    pub fn admission(&self, headers: &Fields) -> (r: Result<Admission, BodySizeExceeded>)
        ensures
            r == (match declared(headers@) {
                Some(n) => if n > self.limit {
                    Err(BodySizeExceeded { limit: self.limit })
                } else {
                    Ok(Admission::Forward)
                },
                None => Ok(Admission::Count),
            }),
    {
        match declared_length(headers) {
            Some(n) => if n > self.limit {
                Err(BodySizeExceeded { limit: self.limit })
            } else {
                Ok(Admission::Forward)
            },
            None => Ok(Admission::Count),
        }
    }

    /// The running total once a frame of `arriving` octets joins the
    /// `collected` ones, or `None` when that passes the limit.
    ///
    /// The sum saturates, so a count that cannot be held is a count past any
    /// limit but `u64::MAX`.
    pub fn count(&self, collected: u64, arriving: u64) -> (r: Option<u64>)
        ensures
            r == (if saturated(collected, arriving) > self.limit {
                None::<u64>
            } else {
                Some(saturated(collected, arriving))
            }),
            r matches Some(total) ==> total <= self.limit,
    {
        let total = collected.saturating_add(arriving);
        if total > self.limit {
            None
        } else {
            Some(total)
        }
    }
}

/// What [`Timeout`] answers with when a handler runs too long: a 408.
#[derive(Clone, Copy, Debug, PartialEq, Eq, Structural)]
pub struct TimedOut {
    /// The limit the handler passed.
    pub after: Duration,
}

impl TimedOut {
    /// A refusal for a handler that passed `after`.
    pub fn new(after: Duration) -> (r: Self)
        ensures
            r.after == after,
    {
        TimedOut { after }
    }

    /// The status the refusal carries.
    pub fn status(&self) -> (r: u16)
        ensures
            r == 408,
    {
        408
    }

    /// The statuses the refusal may answer with.
    pub fn statuses() -> (r: Vec<u16>)
        ensures
            r@ == seq![408u16],
    {
        let mut r: Vec<u16> = Vec::new();
        r.push(408);
        r
    }

    /// The sentence the problem document carries, in whole seconds.
    pub fn detail(&self) -> (r: Vec<u8>)
        ensures
            r@ == ascii("the handler did not finish within "@) + decimal(self.after@ / 1_000_000_000)
                + ascii(" seconds"@),
    {
        proof {
            reveal_strlit("the handler did not finish within ");
            reveal_strlit(" seconds");
        }
        let mut r = literal("the handler did not finish within ");
        let digits = render_u64(self.after.as_secs());
        let tail = literal(" seconds");
        let ghost head = r@;
        r.extend_from_slice(digits.as_slice());
        r.extend_from_slice(tail.as_slice());
        assert(r@ =~= head + digits@ + tail@);
        r
    }
}

/// Caps how long a handler may run, answering with `R` when it does.
///
/// `R` defaults to [`TimedOut`]; [`answer_with`](Timeout::answer_with)
/// substitutes a refusal of the application's own, built from the limit that
/// elapsed.
pub struct Timeout<R = TimedOut> {
    /// The maximum handler duration.
    pub limit: Duration,
    _response: core::marker::PhantomData<R>,
}

impl<R> Timeout<R> {
    /// The maximum handler duration.
    pub closed spec fn spec_limit(&self) -> Duration {
        self.limit
    }
}

impl Timeout<TimedOut> {
    /// Limits handlers to `limit`, answering with [`TimedOut`].
    pub fn new(limit: Duration) -> (r: Self)
        ensures
            r.spec_limit() == limit,
    {
        Timeout { limit, _response: core::marker::PhantomData }
    }
}

impl<R> Clone for Timeout<R> {
    /// The same limit, answering the same way; nothing of `R` is held, so
    /// nothing of it is needed.
    fn clone(&self) -> (r: Self)
        ensures
            r.spec_limit() == self.spec_limit(),
    {
        Timeout { limit: self.limit, _response: core::marker::PhantomData }
    }
}

impl<R> Copy for Timeout<R> {
}

impl<R> Timeout<R> {
    /// Answers timeouts with `S` instead, keeping the limit.
    pub fn answer_with<S: From<Duration>>(self) -> (r: Timeout<S>)
        ensures
            r.spec_limit() == self.spec_limit(),
    {
        Timeout { limit: self.limit, _response: core::marker::PhantomData }
    }
}

/// The `Retry-After` field line a delay becomes: whole seconds, the fraction
/// dropped.
pub open spec fn retry_after_lines(delay: Option<Duration>) -> Seq<(Seq<u8>, Seq<u8>)> {
    match delay {
        Some(d) => seq![(ascii("retry-after"@), decimal(d@ / 1_000_000_000))],
        None => seq![],
    }
}

/// What a concurrency cap answers with when every slot is taken: a 503,
/// with `Retry-After` when there is a useful answer.
#[derive(Clone, Copy, Debug, PartialEq, Eq, Structural)]
pub struct AtCapacity {
    /// How long a client should wait, when there is a useful answer.
    pub retry_after: Option<Duration>,
}

impl AtCapacity {
    /// The sentence the problem document carries.
    pub fn detail(&self) -> (r: Vec<u8>)
        ensures
            r@ == ascii("the service is at its concurrency limit"@),
    {
        proof {
            reveal_strlit("the service is at its concurrency limit");
        }
        literal("the service is at its concurrency limit")
    }

    /// The status the refusal carries.
    pub fn status(&self) -> (r: u16)
        ensures
            r == 503,
    {
        503
    }

    /// The statuses the refusal may answer with.
    pub fn statuses() -> (r: Vec<u16>)
        ensures
            r@ == seq![503u16],
    {
        let mut r: Vec<u16> = Vec::new();
        r.push(503);
        r
    }

    /// The field lines the refusal carries: `Retry-After` when a delay was
    /// configured, nothing otherwise.
    pub fn fields(&self) -> (r: Vec<(Vec<u8>, Vec<u8>)>)
        ensures
            r@.map_values(|f: (Vec<u8>, Vec<u8>)| (f.0@, f.1@)) == retry_after_lines(self.retry_after),
    {
        let mut r: Vec<(Vec<u8>, Vec<u8>)> = Vec::new();
        match self.retry_after {
            Some(d) => {
                proof {
                    reveal_strlit("retry-after");
                }
                r.push((literal("retry-after"), render_u64(d.as_secs())));
                assert(r@.map_values(|f: (Vec<u8>, Vec<u8>)| (f.0@, f.1@)) =~= retry_after_lines(
                    self.retry_after,
                ));
            },
            None => {
                assert(r@.map_values(|f: (Vec<u8>, Vec<u8>)| (f.0@, f.1@)) =~= retry_after_lines(
                    self.retry_after,
                ));
            },
        }
        r
    }
}

/// The error a body bounded by [`BodyTimeout`] ends with.
///
/// It reaches a client as a reset stream: the status and the fields left
/// before the timer fired, so there is no status left to send.
#[derive(Clone, Copy, Debug, PartialEq, Eq, Structural)]
pub struct BodyTimedOut {
    /// The limit the body passed.
    pub after: Duration,
}

/// Caps how long a response body may take.
///
/// [`idle`](BodyTimeout::idle) restarts the clock on every frame, bounding the
/// gap between frames; [`deadline`](BodyTimeout::deadline) never restarts it,
/// bounding the whole body.
#[derive(Clone, Copy, Debug, PartialEq, Eq, Structural)]
pub struct BodyTimeout {
    limit: Duration,
    reset_each_frame: bool,
}

impl BodyTimeout {
    /// The limit, as a gap or as a total.
    pub closed spec fn spec_limit(&self) -> Duration {
        self.limit
    }

    /// Whether a frame restarts the clock.
    pub closed spec fn spec_resets(&self) -> bool {
        self.reset_each_frame
    }

    /// Ends a body that goes `limit` without producing a frame.
    pub fn idle(limit: Duration) -> (r: Self)
        ensures
            r.spec_limit() == limit,
            r.spec_resets(),
    {
        BodyTimeout { limit, reset_each_frame: true }
    }

    /// Ends a body that has not finished within `limit` of the response head.
    pub fn deadline(limit: Duration) -> (r: Self)
        ensures
            r.spec_limit() == limit,
            !r.spec_resets(),
    {
        BodyTimeout { limit, reset_each_frame: false }
    }

    /// The limit, as a gap or as a total.
    pub fn limit(&self) -> (r: Duration)
        ensures
            r == self.spec_limit(),
    {
        self.limit
    }

    /// Whether a frame restarts the clock.
    pub fn resets_each_frame(&self) -> (r: bool)
        ensures
            r == self.spec_resets(),
    {
        self.reset_each_frame
    }
}

/// What the bounded body's source answered when asked for a frame.
#[derive(Clone, Copy, Debug, PartialEq, Eq, Structural)]
pub enum Polled {
    /// A frame.
    Frame,
    /// An error.
    Failed,
    /// The end of the body.
    Ended,
    /// Nothing yet.
    Pending,
}

/// What a bounded body does next.
#[derive(Clone, Copy, Debug, PartialEq, Eq, Structural)]
pub enum Clock {
    /// Report the end of the body.
    End,
    /// Ask the source for a frame.
    AskSource,
    /// Ask the timer whether it has fired.
    AskTimer,
    /// Hand on what the source answered.
    Deliver,
    /// Hand on the frame the source produced, restarting the clock.
    DeliverAndRestart,
    /// End the body with [`BodyTimedOut`]; nothing follows it.
    Expire,
}

/// The decisions of one bounded response body, poll by poll.
///
/// An idle clock asks the source first and the timer only when the source has
/// nothing, so a reader that is slow to ask is never reported as a writer that
/// stalled. A deadline asks the timer first, because a body still producing
/// steadily is exactly what it exists to end.
#[derive(Clone, Copy, Debug, PartialEq, Eq, Structural)]
pub struct BodyClock {
    reset_each_frame: bool,
    spent: bool,
}

impl BodyClock {
    /// Whether this clock restarts on every frame.
    pub closed spec fn spec_resets(&self) -> bool {
        self.reset_each_frame
    }

    /// Whether the timer has already ended the body.
    pub closed spec fn spec_spent(&self) -> bool {
        self.spent
    }

    /// A clock for a body bounded by `timeout`, not yet fired.
    pub fn new(timeout: &BodyTimeout) -> (r: Self)
        ensures
            r.spec_resets() == timeout.spec_resets(),
            !r.spec_spent(),
    {
        BodyClock { reset_each_frame: timeout.reset_each_frame, spent: false }
    }

    /// Whether the timer has already ended the body.
    pub fn spent(&self) -> (r: bool)
        ensures
            r == self.spec_spent(),
    {
        self.spent
    }

    /// What a poll consults first: nothing once the body has ended or been
    /// ended — a body that finished was delivered, whatever the clock says —
    /// then the source for an idle clock and the timer for a deadline.
    pub fn start(&self, source_ended: bool) -> (r: Clock)
        ensures
            r == (if self.spec_spent() || source_ended {
                Clock::End
            } else if self.spec_resets() {
                Clock::AskSource
            } else {
                Clock::AskTimer
            }),
    {
        if self.spent || source_ended {
            Clock::End
        } else if self.reset_each_frame {
            Clock::AskSource
        } else {
            Clock::AskTimer
        }
    }

    /// What follows the source's answer. An idle clock restarts on a frame,
    /// and asks the timer only when the source had nothing; a deadline, which
    /// has already asked its timer, hands on whatever came.
    pub fn source_answered(&self, polled: Polled) -> (r: Clock)
        ensures
            r == (if self.spec_resets() {
                match polled {
                    Polled::Frame => Clock::DeliverAndRestart,
                    Polled::Pending => Clock::AskTimer,
                    _ => Clock::Deliver,
                }
            } else {
                Clock::Deliver
            }),
    {
        if self.reset_each_frame {
            match polled {
                Polled::Frame => Clock::DeliverAndRestart,
                Polled::Pending => Clock::AskTimer,
                _ => Clock::Deliver,
            }
        } else {
            Clock::Deliver
        }
    }

    /// What follows the timer's answer. A fired timer ends the body, once; a
    /// quiet one lets an idle clock hand on the source's silence and a
    /// deadline ask the source.
    pub fn timer_answered(&mut self, fired: bool) -> (r: Clock)
        ensures
            fired ==> r == Clock::Expire && final(self).spec_spent(),
            !fired ==> *final(self) == *old(self) && r == (if old(self).spec_resets() {
                Clock::Deliver
            } else {
                Clock::AskSource
            }),
            final(self).spec_resets() == old(self).spec_resets(),
    {
        if fired {
            self.spent = true;
            Clock::Expire
        } else if self.reset_each_frame {
            Clock::Deliver
        } else {
            Clock::AskSource
        }
    }
}

} // verus!
