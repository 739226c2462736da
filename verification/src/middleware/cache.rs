//! A shared response cache: what is stored, under which names it varies, and
//! what a cached or forwarded response says about itself.
//!
//! The store is the application's, reached asynchronously by the server;
//! every decision about what reaches it and what comes back is here.

pub mod freshness;
pub mod store;
mod sealed;

use std::marker::PhantomData;

use vstd::prelude::*;

use crate::fields::{values_of, Fields};
use crate::middleware::cache::freshness::{list_members, vary, vary_set};
use crate::octets::{
    ascii, bytes_eq, has_prefix, literal, lower, render_u64, slice_to_vec, starts_with, to_lower,
    views,
};
use crate::time::Duration;

verus! {

/// The largest body stored unless configured otherwise: one mebibyte.
pub const DEFAULT_MAX_BODY_BYTES: u64 = 1048576;

/// Whether some field of `headers` is a CORS response field.
pub open spec fn carries_cors(headers: Seq<(Seq<u8>, Seq<u8>)>) -> bool {
    exists|i: int| 0 <= i < headers.len() && starts_with(lower(#[trigger] headers[i].0), ascii("access-control-"@))
}

/// Whether a response must not be stored because it answers one origin and
/// does not say it varies on the origin: storing it would hand one origin's
/// `Access-Control-Allow-Origin` to another.
pub open spec fn cross_origin_refused(headers: Seq<(Seq<u8>, Seq<u8>)>) -> bool {
    carries_cors(headers) && !list_members(values_of(headers, ascii("vary"@))).contains(ascii("origin"@))
}

/// Whether a response must not be stored for answering one origin.
pub fn refuses_cross_origin(headers: &Fields) -> (r: bool)
    ensures
        r == cross_origin_refused(headers@),
{
    proof {
        reveal_strlit("access-control-");
        reveal_strlit("origin");
    }
    let prefix = literal("access-control-");
    let ghost hs = headers@;
    let mut cors = false;
    let mut i: usize = 0;
    while i < headers.entries.len()
        invariant
            0 <= i <= headers.entries.len(),
            hs == headers@,
            prefix@ == ascii("access-control-"@),
            cors == (exists|k: int| 0 <= k < i && starts_with(lower(#[trigger] hs[k].0), prefix@)),
        decreases headers.entries.len() - i,
    {
        assert(hs[i as int].0 == headers.entries@[i as int].name@);
        let name = to_lower(headers.entries[i].name.as_slice());
        if has_prefix(name.as_slice(), prefix.as_slice()) {
            cors = true;
        }
        i = i + 1;
    }
    if !cors {
        return false;
    }
    let names = vary(headers);
    let origin = literal("origin");
    let ghost ns = views(names@);
    let mut j: usize = 0;
    while j < names.len()
        invariant
            0 <= j <= names.len(),
            ns == views(names@),
            vary_set(headers@, ns),
            origin@ == ascii("origin"@),
            forall|k: int| 0 <= k < j ==> ns[k] != origin@,
        decreases names.len() - j,
    {
        assert(ns[j as int] == names@[j as int]@);
        if bytes_eq(names[j].as_slice(), origin.as_slice()) {
            assert(ns.contains(origin@));
            assert(ns.to_set().contains(origin@));
            let ghost members = list_members(values_of(headers@, ascii("vary"@)));
            assert(members.to_set().contains(origin@));
            assert(members.contains(origin@));
            return false;
        }
        j = j + 1;
    }
    proof {
        assert(!ns.to_set().contains(origin@));
        let members = list_members(values_of(headers@, ascii("vary"@)));
        if members.contains(origin@) {
            assert(members.to_set().contains(origin@));
        }
    }
    true
}

/// The FNV-1a hash of `body`.
pub open spec fn fnv(body: Seq<u8>) -> u64
    decreases body.len(),
{
    if body.len() == 0 {
        0xcbf2_9ce4_8422_2325u64
    } else {
        vstd::wrapping::u64_specs::wrapping_mul(
            fnv(body.drop_last()) ^ (body.last() as u64),
            0x0000_0100_0000_01b3u64,
        )
    }
}

/// The lowercase hexadecimal digit for `d`.
pub open spec fn hex_digit(d: nat) -> u8 {
    if d < 10 {
        (0x30 + d) as u8
    } else {
        (0x61 + d - 10) as u8
    }
}

/// The last `width` hexadecimal digits of `n`, zero-padded.
pub open spec fn hex(n: nat, width: nat) -> Seq<u8>
    decreases width,
{
    if width == 0 {
        Seq::empty()
    } else {
        hex(n / 16, (width - 1) as nat).push(hex_digit(n % 16))
    }
}

/// The strong entity tag derived from a body: the FNV-1a hash of its octets
/// folded with its length, as sixteen hexadecimal digits in quotes.
pub open spec fn derived_tag(body: Seq<u8>) -> Seq<u8> {
    let hashed = vstd::wrapping::u64_specs::wrapping_mul(
        fnv(body) ^ (body.len() as u64),
        0x0000_0100_0000_01b3u64,
    );
    seq![0x22u8] + hex(hashed as nat, 16) + seq![0x22u8]
}

/// The last `width` hexadecimal digits of `n`.
fn render_hex(n: u64, width: usize) -> (r: Vec<u8>)
    ensures
        r@ == hex(n as nat, width as nat),
    decreases width,
{
    if width == 0 {
        Vec::new()
    } else {
        let mut r = render_hex(n / 16, width - 1);
        let d = n % 16;
        let c: u8 = if d < 10 {
            0x30 + d as u8
        } else {
            0x61 + (d - 10) as u8
        };
        r.push(c);
        r
    }
}

/// A strong entity tag for a body the handler gave none: the same octets
/// always derive the same tag.
pub fn derived_etag(body: &[u8]) -> (r: Vec<u8>)
    requires
        body.len() <= u64::MAX,
    ensures
        r@ == derived_tag(body@),
{
    let mut hash: u64 = 0xcbf2_9ce4_8422_2325;
    let mut i: usize = 0;
    while i < body.len()
        invariant
            0 <= i <= body.len(),
            hash == fnv(body@.take(i as int)),
        decreases body.len() - i,
    {
        assert(body@.take(i + 1).drop_last() =~= body@.take(i as int));
        hash = (hash ^ (body[i] as u64)).wrapping_mul(0x0000_0100_0000_01b3);
        i = i + 1;
    }
    assert(body@.take(body.len() as int) =~= body@);
    let hashed = (hash ^ (body.len() as u64)).wrapping_mul(0x0000_0100_0000_01b3);
    let mut r: Vec<u8> = Vec::new();
    r.push(0x22);
    let digits = render_hex(hashed, 16);
    crate::octets::append_bytes(&mut r, digits.as_slice());
    r.push(0x22);
    assert(r@ =~= seq![0x22u8] + hex(hashed as nat, 16) + seq![0x22u8]);
    r
}

/// What a cached or forwarded response says about itself: its age, and, when
/// `TAGGED`, its entity tag.
#[derive(Clone, Debug, Default)]
pub struct CacheHeaders<const TAGGED: bool> {
    age: Duration,
    etag: Option<Vec<u8>>,
}

/// The field lines of a cache group.
pub open spec fn cache_fields(tagged: bool, age: nat, etag: Option<Seq<u8>>) -> Seq<(Seq<u8>, Seq<u8>)> {
    seq![(ascii("age"@), crate::octets::decimal(age / 1_000_000_000))] + if tagged {
        match etag {
            Some(t) => if crate::octets::all_field_bytes(t) {
                seq![(ascii("etag"@), t)]
            } else {
                Seq::empty()
            },
            None => Seq::empty(),
        }
    } else {
        Seq::empty()
    }
}

impl<const TAGGED: bool> CacheHeaders<TAGGED> {
    /// The age stated.
    pub closed spec fn spec_age(&self) -> nat {
        self.age@
    }

    /// The entity tag stated, where tagged.
    pub closed spec fn spec_etag(&self) -> Option<Seq<u8>> {
        match self.etag {
            Some(t) => Some(t@),
            None => None,
        }
    }

    /// The field names the group writes.
    pub fn names() -> (r: Vec<Vec<u8>>)
        ensures
            views(r@) == if TAGGED {
                seq![ascii("age"@), ascii("etag"@)]
            } else {
                seq![ascii("age"@)]
            },
    {
        proof {
            reveal_strlit("age");
            reveal_strlit("etag");
        }
        let mut r: Vec<Vec<u8>> = Vec::new();
        r.push(literal("age"));
        if TAGGED {
            r.push(literal("etag"));
        }
        assert(views(r@) =~= if TAGGED {
            seq![ascii("age"@), ascii("etag"@)]
        } else {
            seq![ascii("age"@)]
        });
        r
    }

    /// Whether the group reaches generated clients' descriptions: only the
    /// tag does.
    pub fn described() -> (r: bool)
        ensures
            r == TAGGED,
    {
        TAGGED
    }

    /// The field lines: the age in whole seconds, then the tag where tagged
    /// and it can be a field value.
    pub fn encode(&self) -> (r: Vec<(Vec<u8>, Vec<u8>)>)
        ensures
            r@.map_values(|f: (Vec<u8>, Vec<u8>)| (f.0@, f.1@)) == cache_fields(
                TAGGED,
                self.spec_age(),
                self.spec_etag(),
            ),
    {
        proof {
            reveal_strlit("age");
            reveal_strlit("etag");
        }
        let mut r: Vec<(Vec<u8>, Vec<u8>)> = Vec::new();
        r.push((literal("age"), render_u64(self.age.as_secs())));
        if TAGGED {
            match &self.etag {
                Some(t) => if crate::octets::field_bytes(t.as_slice()) {
                    r.push((literal("etag"), slice_to_vec(t.as_slice())));
                },
                None => {},
            }
        }
        assert(r@.map_values(|f: (Vec<u8>, Vec<u8>)| (f.0@, f.1@)) =~= cache_fields(
            TAGGED,
            self.spec_age(),
            self.spec_etag(),
        ));
        r
    }
}

/// How a cache states entity tags. Sealed: there are exactly two.
pub trait CacheTagging: sealed::Sealed {
    /// The group a response carries.
    type Headers;

    /// Whether a tag is derived for a body the handler gave none.
    spec fn spec_derives() -> bool;

    /// Whether a tag is derived for a body the handler gave none.
    fn derives() -> (r: bool)
        ensures
            r == Self::spec_derives(),
    ;

    /// The group for a response of `age`, with `etag` where one is known.
    fn headers(age: Duration, etag: Option<Vec<u8>>) -> Self::Headers;
}

/// States only the age, and derives no tag.
#[derive(Clone, Copy, Debug, Default)]
pub struct Plain;

/// States the entity tag too, deriving one where the handler gave none.
#[derive(Clone, Copy, Debug, Default)]
pub struct Tagged;

impl sealed::Sealed for Plain {
}

impl sealed::Sealed for Tagged {
}

impl CacheTagging for Plain {
    type Headers = CacheHeaders<false>;

    open spec fn spec_derives() -> bool {
        false
    }

    fn derives() -> (r: bool) {
        false
    }

    /// The age; the tag is not stated.
    fn headers(age: Duration, etag: Option<Vec<u8>>) -> (r: CacheHeaders<false>)
        ensures
            r.spec_age() == age@,
            r.spec_etag() is None,
    {
        CacheHeaders { age, etag: None }
    }
}

impl CacheTagging for Tagged {
    type Headers = CacheHeaders<true>;

    open spec fn spec_derives() -> bool {
        true
    }

    fn derives() -> (r: bool) {
        true
    }

    /// The age and the tag.
    fn headers(age: Duration, etag: Option<Vec<u8>>) -> (r: CacheHeaders<true>)
        ensures
            r.spec_age() == age@,
            r.spec_etag() == (match etag {
                Some(t) => Some(t@),
                None => None,
            }),
    {
        CacheHeaders { age, etag }
    }
}

/// A shared cache over a store, stating entity tags as `D` says.
pub struct Cache<S, D = Plain> {
    store: S,
    namespace: &'static str,
    max_body_bytes: u64,
    default_freshness: Option<Duration>,
    tagging: PhantomData<D>,
}

impl<S> Cache<S, Plain> {
    /// Caches into `store`, under no namespace, bodies of at most a
    /// mebibyte, with no heuristic freshness.
    pub fn new(store: S) -> (r: Self)
        ensures
            r.spec_store() == store,
            r.spec_namespace() == ""@,
            r.spec_max_body_bytes() == DEFAULT_MAX_BODY_BYTES,
            r.spec_default_freshness() is None,
    {
        Cache { store, namespace: "", max_body_bytes: DEFAULT_MAX_BODY_BYTES, default_freshness: None, tagging: PhantomData }
    }

    /// States entity tags, deriving one for a body the handler gave none.
    pub fn deriving_etags(self) -> (r: Cache<S, Tagged>)
        ensures
            r.spec_store() == self.spec_store(),
            r.spec_namespace() == self.spec_namespace(),
            r.spec_max_body_bytes() == self.spec_max_body_bytes(),
            r.spec_default_freshness() == self.spec_default_freshness(),
    {
        Cache {
            store: self.store,
            namespace: self.namespace,
            max_body_bytes: self.max_body_bytes,
            default_freshness: self.default_freshness,
            tagging: PhantomData,
        }
    }
}

impl<S, D> Cache<S, D> {
    /// The namespace keys are stored under.
    pub closed spec fn spec_namespace(&self) -> Seq<char> {
        self.namespace@
    }

    /// The largest body stored.
    pub closed spec fn spec_max_body_bytes(&self) -> u64 {
        self.max_body_bytes
    }

    /// The freshness assumed where a response states none, in nanoseconds.
    pub closed spec fn spec_default_freshness(&self) -> Option<nat> {
        match self.default_freshness {
            Some(d) => Some(d@),
            None => None,
        }
    }

    /// Stores keys under `namespace`, so two caches over one store do not
    /// collide.
    pub fn namespace(self, namespace: &'static str) -> (r: Self)
        ensures
            r.spec_store() == self.spec_store(),
            r.spec_namespace() == namespace@,
            r.spec_max_body_bytes() == self.spec_max_body_bytes(),
            r.spec_default_freshness() == self.spec_default_freshness(),
    {
        Cache { namespace, ..self }
    }

    /// Stores bodies of at most `bytes` octets.
    pub fn max_body_bytes(self, bytes: u64) -> (r: Self)
        ensures
            r.spec_store() == self.spec_store(),
            r.spec_namespace() == self.spec_namespace(),
            r.spec_max_body_bytes() == bytes,
            r.spec_default_freshness() == self.spec_default_freshness(),
    {
        Cache { max_body_bytes: bytes, ..self }
    }

    /// Assumes `lifetime` for a response that states no freshness: a guess
    /// this cache makes only when told to.
    pub fn default_freshness(self, lifetime: Duration) -> (r: Self)
        ensures
            r.spec_store() == self.spec_store(),
            r.spec_namespace() == self.spec_namespace(),
            r.spec_max_body_bytes() == self.spec_max_body_bytes(),
            r.spec_default_freshness() == Some(lifetime@),
    {
        Cache { default_freshness: Some(lifetime), ..self }
    }

    /// The store.
    pub closed spec fn spec_store(&self) -> S {
        self.store
    }

    /// The store.
    pub fn store(&self) -> (r: &S)
        ensures
            *r == self.spec_store(),
    {
        &self.store
    }

    /// The namespace keys are stored under.
    pub fn current_namespace(&self) -> (r: &'static str)
        ensures
            r@ == self.spec_namespace(),
    {
        self.namespace
    }

    /// The freshness assumed where a response states none.
    pub fn current_default_freshness(&self) -> (r: Option<Duration>)
        ensures
            (match r {
                Some(d) => Some(d@),
                None => None,
            }) == self.spec_default_freshness(),
    {
        self.default_freshness
    }

    /// Whether a body of `length` octets, where its length is stated, may be
    /// stored: one whose length nobody knows is not read into memory.
    pub fn admits_body(&self, length: Option<u64>) -> (r: bool)
        ensures
            r == (length matches Some(n) && n <= self.spec_max_body_bytes()),
    {
        match length {
            Some(n) => n <= self.max_body_bytes,
            None => false,
        }
    }
}

} // verus!
