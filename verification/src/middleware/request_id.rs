//! Correlation identifiers: each request is given one, under every name of a
//! header group, on the request and on its response alike.
//!
//! The group decides the names, so the names a description declares and the
//! names a response carries are written in one place. The identifier's format
//! is the application's; the default is a per-process counter.

use std::sync::atomic::{AtomicU64, Ordering};

use vstd::prelude::*;

use crate::fields::{
    valid_header_name,
    first_value, lemma_values_of_push, lemma_values_of_without, named_value, valid_name, values_of, without,
    Fields,
};
use crate::octets::{ascii, decimal, eq_ignore_case, literal, lower, render_u64, slice_to_vec, views};

verus! {

/// Supplies identifiers for requests that arrive without one.
pub trait RequestIdSource {
    /// An identifier for a request that carried none.
    fn next_id(&self) -> Vec<u8>;
}

/// A per-process counter: unique within one process and no further.
#[derive(Debug)]
pub struct Counter {
    next: AtomicU64,
}

impl Counter {
    /// A counter starting at zero.
    pub fn new() -> Counter {
        Counter { next: AtomicU64::new(0) }
    }
}

/// Takes the counter's value and advances it, wrapping at `u64::MAX`; nothing
/// else is ordered against it.
fn fetch_next(counter: &AtomicU64) -> u64 {
    counter.fetch_add(1, Ordering::Relaxed)
}

impl RequestIdSource for Counter {
    /// The next number, in decimal: always a valid field value, which is why
    /// the identifier is a number.
    fn next_id(&self) -> (r: Vec<u8>)
        ensures
            exists|n: u64| r@ == decimal(n as nat),
    {
        let id = fetch_next(&self.next);
        let r = render_u64(id);
        assert(r@ == decimal(id as nat));
        r
    }
}

/// A group of header fields that carry one value: the names it declares,
/// how it reads itself back from a header block, and how it writes itself.
pub trait HeaderGroup: Sized {
    /// The names the group declares, in order.
    spec fn spec_names() -> Seq<Seq<u8>>;

    /// The names the group declares, in order.
    fn names() -> (r: Vec<Vec<u8>>)
        ensures
            views(r@) == Self::spec_names(),
    ;

    /// The group, read back from `headers`.
    fn decode(headers: &Fields) -> Option<Self>;

    /// The field lines the group writes.
    fn encode(&self) -> Vec<(Vec<u8>, Vec<u8>)>;
}

/// The header [`RequestId`] uses unless told otherwise: `X-Request-Id`.
#[derive(Clone, Debug, PartialEq, Eq)]
pub struct XRequestId(
    /// The identifier carried by this request.
    pub Vec<u8>,
);

impl HeaderGroup for XRequestId {
    open spec fn spec_names() -> Seq<Seq<u8>> {
        seq![ascii("x-request-id"@)]
    }

    fn names() -> (r: Vec<Vec<u8>>) {
        proof {
            reveal_strlit("x-request-id");
        }
        let mut r: Vec<Vec<u8>> = Vec::new();
        r.push(literal("x-request-id"));
        assert(views(r@) =~= Self::spec_names());
        r
    }

    /// The first `x-request-id` value, or `None` when the field is absent.
    fn decode(headers: &Fields) -> (r: Option<XRequestId>)
        ensures
            r matches Some(x) ==> first_value(headers@, ascii("x-request-id"@)) == Some(x.0@),
            r is None ==> first_value(headers@, ascii("x-request-id"@)) is None,
    {
        proof {
            reveal_strlit("x-request-id");
        }
        let name = literal("x-request-id");
        match headers.get(name.as_slice()) {
            Some(v) => Some(XRequestId(v)),
            None => None,
        }
    }

    /// One `x-request-id` line carrying the identifier.
    fn encode(&self) -> (r: Vec<(Vec<u8>, Vec<u8>)>)
        ensures
            r@.map_values(|f: (Vec<u8>, Vec<u8>)| (f.0@, f.1@)) == seq![
                (ascii("x-request-id"@), self.0@),
            ],
    {
        proof {
            reveal_strlit("x-request-id");
        }
        let mut r: Vec<(Vec<u8>, Vec<u8>)> = Vec::new();
        r.push((literal("x-request-id"), slice_to_vec(self.0.as_slice())));
        assert(r@.map_values(|f: (Vec<u8>, Vec<u8>)| (f.0@, f.1@)) =~= seq![
            (ascii("x-request-id"@), self.0@),
        ]);
        r
    }
}

/// The value of the first of `names` that is a header name and that
/// `entries` carries: what a trusting [`RequestId`] echoes.
pub open spec fn first_carried(entries: Seq<(Seq<u8>, Seq<u8>)>, names: Seq<Seq<u8>>) -> Option<
    Seq<u8>,
>
    decreases names.len(),
{
    if names.len() == 0 {
        None
    } else if valid_name(names[0]) && first_value(entries, names[0]) is Some {
        first_value(entries, names[0])
    } else {
        first_carried(entries, names.drop_first())
    }
}

/// `entries` with each of `names` that is a header name set to `id`,
/// replacing whatever it carried.
pub open spec fn stamped(entries: Seq<(Seq<u8>, Seq<u8>)>, names: Seq<Seq<u8>>, id: Seq<u8>) -> Seq<
    (Seq<u8>, Seq<u8>),
>
    decreases names.len(),
{
    if names.len() == 0 {
        entries
    } else {
        let prior = stamped(entries, names.drop_last(), id);
        if valid_name(names.last()) {
            without(prior, names.last()).push((lower(names.last()), id))
        } else {
            prior
        }
    }
}

/// Lowercasing twice is lowercasing once.
proof fn lemma_lower_idempotent(s: Seq<u8>)
    ensures
        lower(lower(s)) == lower(s),
{
    assert(lower(lower(s)) =~= lower(s));
}

/// A stamped header block carries the identifier, once, under every name of
/// the group that is a header name, whatever it carried there before.
pub proof fn each_declared_name_carries_the_identifier_once(
    entries: Seq<(Seq<u8>, Seq<u8>)>,
    names: Seq<Seq<u8>>,
    id: Seq<u8>,
    name: Seq<u8>,
)
    requires
        names.contains(name),
        valid_name(name),
    ensures
        values_of(stamped(entries, names, id), name) == seq![id],
    decreases names.len(),
{
    let prior = stamped(entries, names.drop_last(), id);
    let last = names.last();
    lemma_lower_idempotent(last);
    if eq_ignore_case(last, name) && valid_name(last) {
        lemma_values_of_without(prior, last, name);
        lemma_values_of_push(without(prior, last), (lower(last), id), name);
        assert(eq_ignore_case(lower(last), name));
        assert(Seq::<Seq<u8>>::empty().push(id) =~= seq![id]);
    } else {
        let k = choose|k: int| 0 <= k < names.len() && names[k] == name;
        if k == names.len() - 1 {
            assert(last == name);
            assert(eq_ignore_case(last, name));
        } else {
            assert(names.drop_last()[k] == name);
            each_declared_name_carries_the_identifier_once(entries, names.drop_last(), id, name);
            if valid_name(last) {
                lemma_values_of_without(prior, last, name);
                lemma_values_of_push(without(prior, last), (lower(last), id), name);
                assert(!eq_ignore_case(lower(last), name));
            }
        }
    }
}

/// Assigns each request an identifier and echoes it back under every name of
/// the group `H`, drawing identifiers from `S`.
pub struct RequestId<S = Counter, H = XRequestId> {
    source: S,
    trust_client: bool,
    _header: core::marker::PhantomData<H>,
}

impl<S, H> RequestId<S, H> {
    /// Whether an identifier the client sent is echoed.
    pub closed spec fn spec_trusts(&self) -> bool {
        self.trust_client
    }

    /// Where identifiers come from.
    pub closed spec fn spec_source(&self) -> S {
        self.source
    }
}

impl<S: Clone, H> Clone for RequestId<S, H> {
    /// A copy drawing from a clone of the source, trusting the client alike.
    fn clone(&self) -> (r: Self)
        ensures
            r.spec_trusts() == self.spec_trusts(),
    {
        RequestId { source: self.source.clone(), trust_client: self.trust_client, _header: core::marker::PhantomData }
    }
}

impl Default for RequestId<Counter, XRequestId> {
    /// [`RequestId::new`].
    fn default() -> (r: Self)
        ensures
            !r.spec_trusts(),
    {
        RequestId::new()
    }
}

impl RequestId<Counter, XRequestId> {
    /// Uses `X-Request-Id`, always minting the identifier from a counter.
    pub fn new() -> (r: Self)
        ensures
            !r.spec_trusts(),
    {
        RequestId { source: Counter::new(), trust_client: false, _header: core::marker::PhantomData }
    }
}

impl<S, H> RequestId<S, H> {
    /// Uses the group `G` instead.
    pub fn header<G>(self) -> (r: RequestId<S, G>)
        ensures
            r.spec_trusts() == self.spec_trusts(),
            r.spec_source() == self.spec_source(),
    {
        RequestId { source: self.source, trust_client: self.trust_client, _header: core::marker::PhantomData }
    }

    /// Echoes a client-supplied identifier instead of always minting one.
    ///
    /// Off by default: an inbound field is the client's to choose.
    pub fn trust_client(self, trust: bool) -> (r: Self)
        ensures
            r.spec_trusts() == trust,
            r.spec_source() == self.spec_source(),
    {
        RequestId { source: self.source, trust_client: trust, _header: core::marker::PhantomData }
    }

    /// Replaces the identifier source.
    pub fn source<T>(self, source: T) -> (r: RequestId<T, H>)
        ensures
            r.spec_trusts() == self.spec_trusts(),
            r.spec_source() == source,
    {
        RequestId { source, trust_client: self.trust_client, _header: core::marker::PhantomData }
    }
}

impl<S: RequestIdSource, H: HeaderGroup> RequestId<S, H> {
    /// The identifier the client sent, when it is to be believed: the value
    /// of the first declared name the request carries.
    pub fn inbound(&self, headers: &Fields) -> (r: Option<Vec<u8>>)
        ensures
            crate::octets::opt_bytes(r) == (if self.spec_trusts() {
                first_carried(headers@, H::spec_names())
            } else {
                None
            }),
    {
        if !self.trust_client {
            return None;
        }
        let names = H::names();
        let ghost all = views(names@);
        let mut i: usize = 0;
        assert(all.skip(0) =~= all);
        while i < names.len()
            invariant
                0 <= i <= names.len(),
                all == views(names@),
                all == H::spec_names(),
                self.spec_trusts(),
                first_carried(headers@, all) == first_carried(headers@, all.skip(i as int)),
            decreases names.len() - i,
        {
            let ghost rest = all.skip(i as int);
            assert(rest[0] == names@[i as int]@);
            assert(rest.drop_first() =~= all.skip(i + 1));
            if valid_header_name(names[i].as_slice()) {
                match headers.get(names[i].as_slice()) {
                    Some(v) => {
                        assert(first_carried(headers@, rest) == first_value(headers@, rest[0]));
                        return Some(v);
                    },
                    None => {},
                }
            }
            assert(first_carried(headers@, rest) == first_carried(headers@, rest.drop_first()));
            i = i + 1;
        }
        assert(all.skip(i as int).len() == 0);
        None
    }

    /// The identifier this request goes by: the client's, when it is
    /// believed and sent one, and a fresh one from the source otherwise.
    pub fn identify(&self, headers: &Fields) -> (r: Vec<u8>)
        ensures
            self.spec_trusts() ==> (first_carried(headers@, H::spec_names()) matches Some(v) ==> r@
                == v),
            !(self.spec_trusts() && first_carried(headers@, H::spec_names()) is Some) ==> call_ensures(
                S::next_id,
                (&self.spec_source(),),
                r,
            ),
    {
        match self.inbound(headers) {
            Some(v) => v,
            None => self.source.next_id(),
        }
    }

    /// Sets `id` under every declared name of the group on `request`, and
    /// returns the same fields as a block of their own, for the response.
    pub fn stamp(&self, request: &mut Fields, id: &[u8]) -> (declared: Fields)
        ensures
            final(request)@ == stamped(old(request)@, H::spec_names(), id@),
            declared@ == stamped(Seq::empty(), H::spec_names(), id@),
    {
        let names = H::names();
        let ghost all = views(names@);
        let ghost start = request@;
        let mut declared = Fields::new();
        let mut i: usize = 0;
        while i < names.len()
            invariant
                0 <= i <= names.len(),
                all == views(names@),
                all == H::spec_names(),
                request@ == stamped(start, all.take(i as int), id@),
                declared@ == stamped(Seq::empty(), all.take(i as int), id@),
            decreases names.len() - i,
        {
            let ghost taken = all.take(i + 1);
            assert(taken.drop_last() =~= all.take(i as int));
            assert(taken.last() == names@[i as int]@);
            if valid_header_name(names[i].as_slice()) {
                request.insert(names[i].as_slice(), id);
                declared.insert(names[i].as_slice(), id);
            }
            i = i + 1;
        }
        assert(all.take(names.len() as int) =~= all);
        declared
    }
}

} // verus!
