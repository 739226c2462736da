//! What a cache files, under which key, and which filed response answers a
//! request.
//!
//! A key names a resource before content negotiation; a store returns every
//! variant filed under it, and the cache picks the one the request selects,
//! because only a stored response knows what it varied on.

use vstd::prelude::*;

use crate::fields::{named_value, text_value, Fields};
use crate::http::method::{method_token, Method};
use crate::middleware::cache::freshness::{strip, stripped, vary, vary_set};
use crate::middleware::cache::{
    cross_origin_refused, derived_tag, derived_etag, refuses_cross_origin, Cache, CacheTagging,
};
use crate::octets::{ascii, literal, opt_bytes, slice_to_vec, views};
use crate::time::Duration;

verus! {

/// The method a key files a request under: the methods a description can
/// name, and `GET` for `CONNECT` and for any extension, which it cannot.
pub open spec fn keyed_method(m: Method) -> Method {
    match m {
        Method::Connect => Method::Get,
        Method::Extension(_) => Method::Get,
        other => other,
    }
}

/// What identifies a resource, before content negotiation.
#[derive(Clone, Debug, PartialEq, Eq)]
pub struct PrimaryKey {
    /// The application's namespace; bumped on a deploy that changes what an
    /// operation returns.
    pub namespace: &'static str,
    /// The request method.
    pub method: Method,
    /// The `paths` key, not the request path.
    pub route: Vec<u8>,
    /// The request target, path and query, exactly as it arrived.
    pub target: Vec<u8>,
}

/// Whether a request with `headers` selects the variant that varied on
/// `vary` and was stored for the values `selecting` (RFC 9111 section 4.1):
/// the request's value for every such field is the one stored, absence
/// matching absence.
pub open spec fn selects(
    vary: Seq<Seq<u8>>,
    selecting: Seq<Option<Seq<u8>>>,
    headers: Seq<(Seq<u8>, Seq<u8>)>,
) -> bool {
    forall|i: int|
        0 <= i < vary.len() && i < selecting.len() ==> named_value(headers, #[trigger] vary[i])
            == selecting[i]
}

/// The optional octet strings of a list.
pub open spec fn opt_views(v: Seq<Option<Vec<u8>>>) -> Seq<Option<Seq<u8>>> {
    v.map_values(|o: Option<Vec<u8>>| opt_bytes(o))
}

/// A response held by a store, with what selected it.
#[derive(Clone, Debug, PartialEq, Eq)]
pub struct StoredResponse {
    status: u16,
    headers: Fields,
    body: Vec<u8>,
    vary: Vec<Vec<u8>>,
    selecting: Vec<Option<Vec<u8>>>,
    freshness: Duration,
}

impl StoredResponse {
    /// The stored status.
    pub closed spec fn spec_status(&self) -> u16 {
        self.status
    }

    /// The stored fields.
    pub closed spec fn spec_headers(&self) -> Seq<(Seq<u8>, Seq<u8>)> {
        self.headers@
    }

    /// The stored body.
    pub closed spec fn spec_body(&self) -> Seq<u8> {
        self.body@
    }

    /// The names the response varied on.
    pub closed spec fn spec_vary(&self) -> Seq<Seq<u8>> {
        views(self.vary@)
    }

    /// The request's values for those names when it was stored.
    pub closed spec fn spec_selecting(&self) -> Seq<Option<Seq<u8>>> {
        opt_views(self.selecting@)
    }

    /// How long it may be reused without revalidation, in nanoseconds.
    pub closed spec fn spec_freshness(&self) -> nat {
        self.freshness@
    }

    /// Records a response and what selected it.
    pub fn new(
        status: u16,
        headers: Fields,
        body: Vec<u8>,
        vary: Vec<Vec<u8>>,
        selecting: Vec<Option<Vec<u8>>>,
        freshness: Duration,
    ) -> (r: Self)
        ensures
            r.spec_status() == status,
            r.spec_headers() == headers@,
            r.spec_body() == body@,
            r.spec_vary() == views(vary@),
            r.spec_selecting() == opt_views(selecting@),
            r.spec_freshness() == freshness@,
    {
        StoredResponse { status, headers, body, vary, selecting, freshness }
    }

    /// The stored status.
    pub fn status(&self) -> (r: u16)
        ensures
            r == self.spec_status(),
    {
        self.status
    }

    /// The stored fields, connection-specific ones already removed.
    pub fn headers(&self) -> (r: &Fields)
        ensures
            r@ == self.spec_headers(),
    {
        &self.headers
    }

    /// The stored body.
    pub fn body(&self) -> (r: &Vec<u8>)
        ensures
            r@ == self.spec_body(),
    {
        &self.body
    }

    /// The names the response varied on.
    pub fn vary(&self) -> (r: &Vec<Vec<u8>>)
        ensures
            views(r@) == self.spec_vary(),
    {
        &self.vary
    }

    /// Whether, stored `age` ago, it may still be reused without
    /// revalidation.
    pub fn is_fresh_at(&self, age: Duration) -> (r: bool)
        ensures
            r == (age@ < self.spec_freshness()),
    {
        age.shorter_than(&self.freshness)
    }

    /// Whether this variant is the one a request with `headers` selects.
    pub fn selected_by(&self, headers: &Fields) -> (r: bool)
        ensures
            r == selects(self.spec_vary(), self.spec_selecting(), headers@),
    {
        let mut i: usize = 0;
        while i < self.vary.len() && i < self.selecting.len()
            invariant
                0 <= i <= self.vary.len(),
                i <= self.selecting.len(),
                forall|k: int|
                    0 <= k < i ==> named_value(headers@, #[trigger] views(self.vary@)[k]) == opt_views(
                        self.selecting@,
                    )[k],
            decreases self.vary.len() - i,
        {
            let value = headers.get_named(self.vary[i].as_slice());
            let same = match (&value, &self.selecting[i]) {
                (Some(a), Some(b)) => crate::octets::bytes_eq(a.as_slice(), b.as_slice()),
                (None, None) => true,
                _ => false,
            };
            assert(views(self.vary@)[i as int] == self.vary@[i as int]@);
            assert(opt_views(self.selecting@)[i as int] == opt_bytes(self.selecting@[i as int]));
            if !same {
                assert(named_value(headers@, views(self.vary@)[i as int]) != opt_views(
                    self.selecting@,
                )[i as int]);
                return false;
            }
            i = i + 1;
        }
        true
    }
}

/// The index of the first variant a request with `headers` selects that is
/// still fresh at its age, if any.
pub open spec fn first_hit(
    variants: Seq<StoredResponse>,
    ages: Seq<Duration>,
    headers: Seq<(Seq<u8>, Seq<u8>)>,
    from: int,
) -> Option<int>
    decreases variants.len() - from,
{
    if from < 0 || from >= variants.len() || from >= ages.len() {
        None
    } else if selects(variants[from].spec_vary(), variants[from].spec_selecting(), headers)
        && ages[from]@ < variants[from].spec_freshness() {
        Some(from)
    } else {
        first_hit(variants, ages, headers, from + 1)
    }
}

/// The entity tag a response states: its own `ETag` where it is text, and,
/// for a cache that derives them, one derived from the body otherwise.
pub open spec fn stated_tag(derives: bool, headers: Seq<(Seq<u8>, Seq<u8>)>, body: Seq<u8>) -> Option<
    Seq<u8>,
> {
    match text_value(headers, ascii("etag"@)) {
        Some(t) => Some(t),
        None => if derives {
            Some(derived_tag(body))
        } else {
            None
        },
    }
}

/// What a cache does with a response that may be stored: the tag it states,
/// and the entry it files, unless the response answers one origin.
pub struct Filing {
    /// The entity tag the response states.
    pub etag: Option<Vec<u8>>,
    /// The entry to file, or `None` where storing would hand one origin's
    /// answer to another.
    pub entry: Option<StoredResponse>,
}

impl<S, D> Cache<S, D> {
    /// The key a request files under: this cache's namespace, the method as a
    /// description names it, the `paths` key and the target as it arrived.
    pub fn key(&self, method: &Method, route: &[u8], target: &[u8]) -> (r: PrimaryKey)
        ensures
            r.namespace@ == self.spec_namespace(),
            method_token(r.method) == method_token(keyed_method(*method)),
            r.route@ == route@,
            r.target@ == target@,
    {
        let keyed = match method {
            Method::Connect => Method::Get,
            Method::Extension(_) => Method::Get,
            other => other.copied(),
        };
        PrimaryKey {
            namespace: self.current_namespace(),
            method: keyed,
            route: slice_to_vec(route),
            target: slice_to_vec(target),
        }
    }

    /// Which of the variants filed under a key answers a request with
    /// `headers`: the first it selects that is still fresh, `ages[i]` being
    /// how long ago `variants[i]` was stored.
    pub fn hit(&self, variants: &Vec<StoredResponse>, ages: &Vec<Duration>, headers: &Fields) -> (r:
        Option<usize>)
        ensures
            (match r {
                Some(i) => Some(i as int),
                None => None,
            }) == first_hit(variants@, ages@, headers@, 0),
    {
        let mut i: usize = 0;
        while i < variants.len() && i < ages.len()
            invariant
                0 <= i <= variants.len(),
                i <= ages.len(),
                first_hit(variants@, ages@, headers@, 0) == first_hit(variants@, ages@, headers@, i as int),
            decreases variants.len() - i,
        {
            if variants[i].selected_by(headers) && variants[i].is_fresh_at(ages[i]) {
                return Some(i);
            }
            i = i + 1;
        }
        None
    }
}

impl<S, D: CacheTagging> Cache<S, D> {
    /// The entity tag a response with `headers` and `body` states.
    pub fn tag(&self, headers: &Fields, body: &[u8]) -> (r: Option<Vec<u8>>)
        requires
            body.len() <= u64::MAX,
        ensures
            opt_bytes(r) == stated_tag(D::spec_derives(), headers@, body@),
    {
        proof {
            reveal_strlit("etag");
        }
        match headers.get_text(literal("etag").as_slice()) {
            Some(t) => Some(t),
            None => if D::derives() {
                Some(derived_etag(body))
            } else {
                None
            },
        }
    }

    /// What is filed for a storable response to a request with `request`
    /// fields: its fields without the connection-specific ones, the names it
    /// varies on, the request's values for them, and its tag — unless it
    /// answers one origin without varying on the origin, which is stated but
    /// never filed.
    pub fn file(&self, request: &Fields, status: u16, headers: &Fields, body: &[u8], freshness: Duration) -> (r:
        Filing)
        requires
            body.len() <= u64::MAX,
        ensures
            opt_bytes(r.etag) == stated_tag(D::spec_derives(), stripped(headers@), body@),
            r.entry is None <==> cross_origin_refused(stripped(headers@)),
            r.entry matches Some(e) ==> {
                &&& e.spec_headers() == stripped(headers@)
                &&& e.spec_status() == status
                &&& e.spec_body() == body@
                &&& e.spec_freshness() == freshness@
                &&& vary_set(e.spec_headers(), e.spec_vary())
                &&& e.spec_selecting().len() == e.spec_vary().len()
                &&& forall|k: int|
                    0 <= k < e.spec_vary().len() ==> #[trigger] e.spec_selecting()[k] == named_value(
                        request@,
                        e.spec_vary()[k],
                    )
            },
    {
        let mut kept = headers.copied();
        strip(&mut kept);
        let etag = self.tag(&kept, body);
        if refuses_cross_origin(&kept) {
            return Filing { etag, entry: None };
        }
        let names = vary(&kept);
        let mut selecting: Vec<Option<Vec<u8>>> = Vec::new();
        let mut i: usize = 0;
        while i < names.len()
            invariant
                0 <= i <= names.len(),
                selecting.len() == i,
                forall|k: int|
                    0 <= k < i ==> named_value(request@, #[trigger] views(names@)[k]) == opt_views(
                        selecting@,
                    )[k],
            decreases names.len() - i,
        {
            let value = request.get_named(names[i].as_slice());
            selecting.push(value);
            assert(views(names@)[i as int] == names@[i as int]@);
            assert(opt_views(selecting@)[i as int] == opt_bytes(value));
            i = i + 1;
        }
        let ghost kept_view = kept@;
        let entry = StoredResponse::new(status, kept, slice_to_vec(body), names, selecting, freshness);
        assert(entry.spec_headers() == kept_view);
        Filing { etag, entry: Some(entry) }
    }
}

/// A response's own entity tag is kept, whether or not the cache derives
/// tags: a cache that does not derive states exactly the response's tag, one
/// that does states the same tag wherever the response carries one, and
/// derives a tag only for a response that carries none.
pub proof fn a_response_keeps_its_own_tag(headers: Seq<(Seq<u8>, Seq<u8>)>, body: Seq<u8>)
    ensures
        stated_tag(false, headers, body) == text_value(headers, ascii("etag"@)),
        text_value(headers, ascii("etag"@)) is Some ==> stated_tag(true, headers, body) == stated_tag(
            false,
            headers,
            body,
        ),
        text_value(headers, ascii("etag"@)) is None ==> stated_tag(true, headers, body) == Some(
            derived_tag(body),
        ),
{
}

} // verus!
