//! Cross-origin resource sharing: which origins may read a response, and what
//! the response says to let them.
//!
//! An origin is permitted by name (compared without regard to case), by any
//! origin being permitted, or by one of the application's own predicates;
//! the predicates are the application's code, so their verdict on an origin
//! is handed in rather than computed here.

pub mod preflight;
mod sealed;

use std::marker::PhantomData;

use vstd::prelude::*;

use crate::fields::{first_value, Fields};
use crate::http::method::Method;
use crate::middleware::MiddlewareError;
use crate::octets::{
    all_field_bytes, all_visible, ascii, eq_ignore_ascii_case, eq_ignore_case, field_bytes, join,
    join_bytes, literal, slice_to_vec, strs_bytes, strs_to_vecs, views, visible,
};
use crate::time::Duration;

verus! {

/// What a cross-origin response says: the origin permitted, whether
/// credentials are, and which response fields a script may read.
#[derive(Clone, Debug, Default)]
pub struct CorsHeaders<const DESCRIBED: bool> {
    origin: Option<Vec<u8>>,
    credentials: bool,
    expose: Option<Vec<u8>>,
}

/// The view of a CORS group: the allowed origin, credentials, and the exposed
/// fields.
pub type CorsModel = (Option<Seq<u8>>, bool, Option<Seq<u8>>);

/// The field lines of a CORS group: nothing unless an origin is allowed.
pub open spec fn cors_fields(h: CorsModel) -> Seq<(Seq<u8>, Seq<u8>)> {
    match h.0 {
        None => Seq::empty(),
        Some(o) => seq![(ascii("access-control-allow-origin"@), o)] + (if h.1 {
            seq![(ascii("access-control-allow-credentials"@), ascii("true"@))]
        } else {
            Seq::empty()
        }) + match h.2 {
            Some(e) => seq![(ascii("access-control-expose-headers"@), e)],
            None => Seq::empty(),
        },
    }
}

/// Views of optional octet strings.
pub open spec fn opt_view(v: Option<Vec<u8>>) -> Option<Seq<u8>> {
    match v {
        Some(x) => Some(x@),
        None => None,
    }
}

impl<const DESCRIBED: bool> CorsHeaders<DESCRIBED> {
    /// The group as plain values.
    pub closed spec fn model(&self) -> CorsModel {
        (opt_view(self.origin), self.credentials, opt_view(self.expose))
    }

    /// The group that says nothing: no origin is allowed.
    pub fn none() -> (r: Self)
        ensures
            r.model() == (None::<Seq<u8>>, false, None::<Seq<u8>>),
    {
        CorsHeaders { origin: None, credentials: false, expose: None }
    }

    /// The same group, described to generated clients or not as `OTHER` says.
    pub fn relabel<const OTHER: bool>(self) -> (r: CorsHeaders<OTHER>)
        ensures
            r.model() == self.model(),
    {
        CorsHeaders { origin: self.origin, credentials: self.credentials, expose: self.expose }
    }

    /// The field names the group writes.
    pub fn names() -> (r: Vec<Vec<u8>>)
        ensures
            views(r@) == seq![
                ascii("access-control-allow-origin"@),
                ascii("access-control-allow-credentials"@),
                ascii("access-control-expose-headers"@),
            ],
    {
        proof {
            reveal_strlit("access-control-allow-origin");
            reveal_strlit("access-control-allow-credentials");
            reveal_strlit("access-control-expose-headers");
        }
        let mut r: Vec<Vec<u8>> = Vec::new();
        r.push(literal("access-control-allow-origin"));
        r.push(literal("access-control-allow-credentials"));
        r.push(literal("access-control-expose-headers"));
        assert(views(r@) =~= seq![
            ascii("access-control-allow-origin"@),
            ascii("access-control-allow-credentials"@),
            ascii("access-control-expose-headers"@),
        ]);
        r
    }

    /// Whether the group is described to generated clients.
    pub fn described() -> (r: bool)
        ensures
            r == DESCRIBED,
    {
        DESCRIBED
    }

    /// The field lines.
    pub fn encode(&self) -> (r: Vec<(Vec<u8>, Vec<u8>)>)
        ensures
            r@.map_values(|f: (Vec<u8>, Vec<u8>)| (f.0@, f.1@)) == cors_fields(self.model()),
    {
        proof {
            reveal_strlit("access-control-allow-origin");
            reveal_strlit("access-control-allow-credentials");
            reveal_strlit("access-control-expose-headers");
            reveal_strlit("true");
        }
        let mut r: Vec<(Vec<u8>, Vec<u8>)> = Vec::new();
        match &self.origin {
            None => {
                assert(r@.map_values(|f: (Vec<u8>, Vec<u8>)| (f.0@, f.1@)) =~= cors_fields(self.model()));
            },
            Some(o) => {
                r.push((literal("access-control-allow-origin"), slice_to_vec(o.as_slice())));
                if self.credentials {
                    r.push((literal("access-control-allow-credentials"), literal("true")));
                }
                match &self.expose {
                    Some(e) => r.push((literal("access-control-expose-headers"), slice_to_vec(e.as_slice()))),
                    None => {},
                }
                assert(r@.map_values(|f: (Vec<u8>, Vec<u8>)| (f.0@, f.1@)) =~= cors_fields(self.model()));
            },
        }
        r
    }
}

/// Whether a CORS group is described to generated clients. Sealed: there
/// are exactly the two states the router recognises.
pub trait CorsDocumentation: sealed::Sealed {
    /// The group a response carries.
    type Headers;

    /// Labels a group.
    fn label(headers: CorsHeaders<true>) -> Self::Headers;

    /// Whether the group a response carries is described to generated
    /// clients.
    fn described() -> bool;
}

/// The group is declared but not described.
#[derive(Clone, Copy, Debug, Default)]
pub struct Undocumented;

/// The group is described to generated clients.
#[derive(Clone, Copy, Debug, Default)]
pub struct Documented;

impl sealed::Sealed for Undocumented {
}

impl sealed::Sealed for Documented {
}

impl CorsDocumentation for Undocumented {
    type Headers = CorsHeaders<false>;

    fn label(headers: CorsHeaders<true>) -> (r: CorsHeaders<false>)
        ensures
            r.model() == headers.model(),
    {
        headers.relabel()
    }

    /// Never.
    fn described() -> (r: bool)
        ensures
            !r,
    {
        CorsHeaders::<false>::described()
    }
}

impl CorsDocumentation for Documented {
    type Headers = CorsHeaders<true>;

    fn label(headers: CorsHeaders<true>) -> (r: CorsHeaders<true>)
        ensures
            r.model() == headers.model(),
    {
        headers
    }

    /// Always.
    fn described() -> (r: bool)
        ensures
            r,
    {
        CorsHeaders::<true>::described()
    }
}

/// What a CORS interceptor permits.
#[derive(Clone, Debug, Default)]
pub struct CorsConfig {
    /// The origins permitted by name.
    pub origins: Vec<String>,
    /// Whether every origin is permitted.
    pub any_origin: bool,
    /// Whether credentials are permitted.
    pub credentials: bool,
    /// The response fields a script may read.
    pub expose: Vec<String>,
    /// The methods a preflight advertises, where they replace the declared
    /// ones.
    pub methods: Option<Vec<Method>>,
    /// The request fields a preflight permits.
    pub headers: Vec<String>,
    /// Whether every request field is permitted.
    pub any_header: bool,
    /// How long a preflight may be cached.
    pub max_age: Option<Duration>,
}

/// The UTF-8 octets of each of a list of strings.
pub open spec fn string_bytes(v: Seq<String>) -> Seq<Seq<u8>> {
    v.map_values(|s: String| vstd::utf8::encode_utf8(s@))
}

/// Whether `origin`, readable as text, is one of `origins`, without regard
/// to case.
pub open spec fn named_origin(origins: Seq<String>, origin: Seq<u8>) -> bool {
    exists|i: int| 0 <= i < origins.len() && eq_ignore_case(#[trigger] string_bytes(origins)[i], origin)
}

/// The octets of each of a list of strings, as vectors.
pub fn strings_to_vecs(v: &Vec<String>) -> (r: Vec<Vec<u8>>)
    ensures
        views(r@) == string_bytes(v@),
{
    let mut out: Vec<Vec<u8>> = Vec::new();
    let mut i: usize = 0;
    while i < v.len()
        invariant
            0 <= i <= v.len(),
            views(out@) == string_bytes(v@.take(i as int)),
        decreases v.len() - i,
    {
        let ghost before = views(out@);
        let b = slice_to_vec(v[i].as_str().as_bytes());
        out.push(b);
        assert(v@.take(i + 1) =~= v@.take(i as int).push(v@[i as int]));
        assert(views(out@) =~= before.push(b@));
        assert(views(out@) =~= string_bytes(v@.take(i + 1)));
        i = i + 1;
    }
    assert(v@.take(v.len() as int) =~= v@);
    out
}

impl CorsConfig {
    /// Whether `origin` is permitted, where `predicates` is whether one of the
    /// application's predicates accepts it as text.
    pub open spec fn admits(&self, origin: Seq<u8>, predicates: bool) -> bool {
        self.any_origin || (all_visible(origin) && (named_origin(self.origins@, origin) || predicates))
    }

    /// The value of `Access-Control-Expose-Headers`, where there is one and it
    /// can be a field value.
    pub open spec fn exposed_value(&self) -> Option<Seq<u8>> {
        if self.expose@.len() == 0 {
            None
        } else {
            let joined = join(string_bytes(self.expose@), ascii(", "@));
            if all_field_bytes(joined) {
                Some(joined)
            } else {
                None
            }
        }
    }

    /// What a response to a request with head `request` says.
    pub open spec fn answer_for(&self, request: Seq<(Seq<u8>, Seq<u8>)>, predicates: bool) -> CorsModel {
        match first_value(request, ascii("origin"@)) {
            None => (None, false, None),
            Some(o) => if !self.admits(o, predicates) {
                (None, false, None)
            } else {
                (
                    Some(
                        if self.any_origin && !self.credentials {
                            ascii("*"@)
                        } else {
                            o
                        },
                    ),
                    self.credentials,
                    self.exposed_value(),
                )
            },
        }
    }

    /// The refusal of a configuration the protocol cannot honour: any origin
    /// together with credentials.
    pub fn conflict(&self) -> (r: Option<MiddlewareError>)
        ensures
            r == (if self.any_origin && self.credentials {
                Some(MiddlewareError::CredentialedWildcardOrigin)
            } else {
                None
            }),
    {
        if self.any_origin && self.credentials {
            Some(MiddlewareError::CredentialedWildcardOrigin)
        } else {
            None
        }
    }

    /// Whether `origin` is permitted.
    pub fn permits(&self, origin: &[u8], predicates: bool) -> (r: bool)
        ensures
            r == self.admits(origin@, predicates),
    {
        if self.any_origin {
            return true;
        }
        if !visible(origin) {
            return false;
        }
        let names = strings_to_vecs(&self.origins);
        let ghost ns = views(names@);
        let mut i: usize = 0;
        while i < names.len()
            invariant
                0 <= i <= names.len(),
                ns == views(names@),
                ns == string_bytes(self.origins@),
                !self.any_origin,
                all_visible(origin@),
                forall|k: int| 0 <= k < i ==> !eq_ignore_case(#[trigger] ns[k], origin@),
            decreases names.len() - i,
        {
            assert(ns[i as int] == names@[i as int]@);
            if eq_ignore_ascii_case(names[i].as_slice(), origin) {
                assert(ns.len() == self.origins@.len());
                assert(ns[i as int] == names@[i as int]@);
                assert(eq_ignore_case(string_bytes(self.origins@)[i as int], origin@));
                assert(named_origin(self.origins@, origin@));
                return true;
            }
            i = i + 1;
        }
        assert(!named_origin(self.origins@, origin@)) by {
            if named_origin(self.origins@, origin@) {
                let k = choose|k: int|
                    0 <= k < self.origins@.len() && eq_ignore_case(#[trigger] string_bytes(self.origins@)[k], origin@);
                assert(ns.len() == self.origins@.len());
                assert(i == names.len());
                assert(0 <= k < i);
                assert(ns[k] == string_bytes(self.origins@)[k]);
                assert(!eq_ignore_case(ns[k], origin@));
            }
        }
        predicates
    }

    /// The value of `Access-Control-Expose-Headers`.
    pub fn exposed(&self) -> (r: Option<Vec<u8>>)
        ensures
            opt_view(r) == self.exposed_value(),
    {
        if self.expose.len() == 0 {
            return None;
        }
        proof {
            reveal_strlit(", ");
        }
        let names = strings_to_vecs(&self.expose);
        let joined = join_bytes(&names, literal(", ").as_slice());
        if field_bytes(joined.as_slice()) {
            Some(joined)
        } else {
            None
        }
    }

    /// What a response to a request with head `request` says, where
    /// `predicates` is whether one of the application's predicates accepts
    /// its origin.
    pub fn headers_for(&self, request: &Fields, predicates: bool) -> (r: CorsHeaders<true>)
        ensures
            r.model() == self.answer_for(request@, predicates),
    {
        proof {
            reveal_strlit("origin");
            reveal_strlit("*");
        }
        let origin = match request.get(literal("origin").as_slice()) {
            Some(o) => o,
            None => {
                return CorsHeaders::none();
            },
        };
        if !self.permits(origin.as_slice(), predicates) {
            return CorsHeaders::none();
        }
        let allowed = if self.any_origin && !self.credentials {
            literal("*")
        } else {
            origin
        };
        CorsHeaders { origin: Some(allowed), credentials: self.credentials, expose: self.exposed() }
    }
}

/// Permits cross-origin reads, with its group described as `D` says.
#[derive(Debug)]
pub struct Cors<D> {
    config: CorsConfig,
    documented: PhantomData<D>,
}

impl Cors<Undocumented> {
    /// Permits nothing until configured.
    pub fn new() -> (r: Self)
        ensures
            r.spec_config().origins@.len() == 0,
            !r.spec_config().any_origin,
            !r.spec_config().credentials,
            r.spec_config().expose@.len() == 0,
            r.spec_config().methods is None,
            r.spec_config().headers@.len() == 0,
            !r.spec_config().any_header,
            r.spec_config().max_age is None,
    {
        Cors {
            config: CorsConfig {
                origins: Vec::new(),
                any_origin: false,
                credentials: false,
                expose: Vec::new(),
                methods: None,
                headers: Vec::new(),
                any_header: false,
                max_age: None,
            },
            documented: PhantomData,
        }
    }

    /// Describes the group to generated clients.
    pub fn document_response_headers(self) -> (r: Cors<Documented>)
        ensures
            r.spec_config() == self.spec_config(),
    {
        Cors { config: self.config, documented: PhantomData }
    }
}

/// `base` with `extra` appended.
fn extend_strings(base: &mut Vec<String>, extra: &[&str])
    ensures
        final(base)@.map_values(|s: String| s@) == old(base)@.map_values(|s: String| s@) + extra@.map_values(
            |s: &str| s@,
        ),
{
    let ghost start = base@.map_values(|s: String| s@);
    let mut i: usize = 0;
    while i < extra.len()
        invariant
            0 <= i <= extra.len(),
            base@.map_values(|s: String| s@) == start + extra@.take(i as int).map_values(|s: &str| s@),
        decreases extra.len() - i,
    {
        let ghost before = base@.map_values(|s: String| s@);
        let s: &str = extra[i];
        base.push(s.to_owned());
        assert(base@.map_values(|s: String| s@) =~= before.push(s@));
        assert(extra@.take(i + 1).map_values(|s: &str| s@) =~= extra@.take(i as int).map_values(
            |s: &str| s@,
        ).push(s@));
        i = i + 1;
    }
    assert(extra@.take(extra.len() as int) =~= extra@);
}

impl<D> Cors<D> {
    /// What the interceptor permits.
    pub closed spec fn spec_config(&self) -> CorsConfig {
        self.config
    }

    /// What the interceptor permits.
    pub fn config(&self) -> (r: &CorsConfig)
        ensures
            *r == self.spec_config(),
    {
        &self.config
    }

    /// Permits `origins`, compared without regard to case.
    pub fn allow_origins(self, origins: &[&str]) -> (r: Self)
        ensures
            r.spec_config().origins@.map_values(|s: String| s@) == self.spec_config().origins@.map_values(
                |s: String| s@,
            ) + origins@.map_values(|s: &str| s@),
            r.spec_config().any_origin == self.spec_config().any_origin,
            r.spec_config().credentials == self.spec_config().credentials,
    {
        let mut config = self.config;
        extend_strings(&mut config.origins, origins);
        Cors { config, documented: PhantomData }
    }

    /// Permits every origin.
    pub fn allow_any_origin(self) -> (r: Self)
        ensures
            r.spec_config() == (CorsConfig { any_origin: true, ..self.spec_config() }),
    {
        Cors { config: CorsConfig { any_origin: true, ..self.config }, documented: PhantomData }
    }

    /// Advertises `methods` in place of the declared ones.
    pub fn allow_methods(self, methods: Vec<Method>) -> (r: Self)
        ensures
            r.spec_config() == (CorsConfig { methods: Some(methods), ..self.spec_config() }),
    {
        Cors { config: CorsConfig { methods: Some(methods), ..self.config }, documented: PhantomData }
    }

    /// Permits the request fields `names`.
    pub fn allow_headers(self, names: &[&str]) -> (r: Self)
        ensures
            r.spec_config().headers@.map_values(|s: String| s@) == self.spec_config().headers@.map_values(
                |s: String| s@,
            ) + names@.map_values(|s: &str| s@),
            r.spec_config().any_header == self.spec_config().any_header,
    {
        let mut config = self.config;
        extend_strings(&mut config.headers, names);
        Cors { config, documented: PhantomData }
    }

    /// Permits every request field.
    pub fn allow_any_header(self) -> (r: Self)
        ensures
            r.spec_config() == (CorsConfig { any_header: true, ..self.spec_config() }),
    {
        Cors { config: CorsConfig { any_header: true, ..self.config }, documented: PhantomData }
    }

    /// Lets a script read the response fields `names`.
    pub fn expose_headers(self, names: &[&str]) -> (r: Self)
        ensures
            r.spec_config().expose@.map_values(|s: String| s@) == self.spec_config().expose@.map_values(
                |s: String| s@,
            ) + names@.map_values(|s: &str| s@),
    {
        let mut config = self.config;
        extend_strings(&mut config.expose, names);
        Cors { config, documented: PhantomData }
    }

    /// Lets a preflight be cached for `age`.
    pub fn max_age(self, age: Duration) -> (r: Self)
        ensures
            r.spec_config() == (CorsConfig { max_age: Some(age), ..self.spec_config() }),
    {
        Cors { config: CorsConfig { max_age: Some(age), ..self.config }, documented: PhantomData }
    }

    /// Permits credentials.
    pub fn allow_credentials(self) -> (r: Self)
        ensures
            r.spec_config() == (CorsConfig { credentials: true, ..self.spec_config() }),
    {
        Cors { config: CorsConfig { credentials: true, ..self.config }, documented: PhantomData }
    }
}

/// Where credentials are permitted, the origin allowed is the request's own
/// and never a generated wildcard, which the protocol forbids.
pub proof fn a_credentialed_answer_names_the_requesting_origin(
    config: CorsConfig,
    request: Seq<(Seq<u8>, Seq<u8>)>,
    predicates: bool,
)
    requires
        config.credentials,
        config.answer_for(request, predicates).0 is Some,
    ensures
        config.answer_for(request, predicates).0 == first_value(request, ascii("origin"@)),
{
}

/// A request carrying no `Origin` is answered with no CORS field at all.
pub proof fn a_request_without_an_origin_gets_no_cors_field(
    config: CorsConfig,
    request: Seq<(Seq<u8>, Seq<u8>)>,
    predicates: bool,
)
    requires
        first_value(request, ascii("origin"@)) is None,
    ensures
        cors_fields(config.answer_for(request, predicates)) == Seq::<(Seq<u8>, Seq<u8>)>::empty(),
{
}

} // verus!
