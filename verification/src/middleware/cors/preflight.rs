//! Answering CORS preflights: the `OPTIONS` requests a browser sends before a
//! cross-origin request it may not send unasked.

use vstd::prelude::*;

use crate::fields::{first_value, without, Fields};
use crate::http::method::{copy_methods, method_token, method_tokens, Method};
use crate::middleware::cors::CorsConfig;
use crate::middleware::{varied, vary_on};
use crate::octets::{
    all_field_bytes, ascii, decimal, eq_ignore_ascii_case, eq_ignore_case, field_bytes, join,
    join_bytes, literal, lower, render_u64, slice_to_vec, strs_bytes, views,
};

verus! {

/// The fields a preflight's answer depends on, so every answer varies on
/// them, a refusal included.
pub open spec fn preflight_varies() -> Seq<Seq<u8>> {
    seq![ascii("origin"@), ascii("access-control-request-method"@), ascii("access-control-request-headers"@)]
}

/// What a request that is not a preflight is answered with.
#[derive(Clone, Copy, Debug, PartialEq, Eq, Structural)]
pub enum FallbackPolicy {
    /// A problem document.
    Problem,
    /// An empty body.
    Empty,
}

/// The CORS configuration of the operations one set of methods reaches.
pub struct Scope {
    config: CorsConfig,
    covered: Vec<Method>,
    advertised: Vec<Method>,
}

/// Whether `proposed` names one of `covered`, without regard to case.
pub open spec fn covering(covered: Seq<Method>, proposed: Seq<u8>) -> bool {
    exists|i: int| 0 <= i < covered.len() && eq_ignore_case(proposed, method_token(#[trigger] covered[i]))
}

impl Scope {
    /// What the scope permits.
    pub closed spec fn spec_config(&self) -> CorsConfig {
        self.config
    }

    /// The methods the scope's operations declare.
    pub closed spec fn spec_covered(&self) -> Seq<Method> {
        self.covered@
    }

    /// The tokens of the methods a preflight advertises.
    pub closed spec fn spec_advertised(&self) -> Seq<Seq<u8>> {
        method_tokens(self.advertised@)
    }

    /// The scope of operations declaring `covered`, advertising the
    /// configured methods where there are any, else the declared ones.
    pub fn new(config: CorsConfig, covered: Vec<Method>) -> (r: Self)
        ensures
            r.spec_config() == config,
            r.spec_covered() == covered@,
            r.spec_advertised() == (match config.methods {
                Some(ms) => method_tokens(ms@),
                None => method_tokens(covered@),
            }),
    {
        let advertised = match &config.methods {
            Some(ms) => copy_methods(ms),
            None => copy_methods(&covered),
        };
        Scope { config, covered, advertised }
    }

    /// Whether `proposed` names a method the scope covers.
    pub fn covers(&self, proposed: &[u8]) -> (r: bool)
        ensures
            r == covering(self.spec_covered(), proposed@),
    {
        let mut i: usize = 0;
        while i < self.covered.len()
            invariant
                0 <= i <= self.covered.len(),
                forall|k: int|
                    0 <= k < i ==> !eq_ignore_case(proposed@, method_token(#[trigger] self.covered@[k])),
            decreases self.covered.len() - i,
        {
            let token = self.covered[i].token();
            if eq_ignore_ascii_case(proposed, token.as_slice()) {
                return true;
            }
            i = i + 1;
        }
        false
    }
}

/// The index of the first scope covering `proposed`, or of the first scope.
pub open spec fn scope_index(scopes: Seq<Scope>, proposed: Seq<u8>) -> int
    decreases scopes.len(),
{
    if scopes.len() <= 1 {
        0
    } else if covering(scopes.last().spec_covered(), proposed) && !(exists|k: int|
        0 <= k < scopes.len() - 1 && covering(#[trigger] scopes[k].spec_covered(), proposed)) {
        scopes.len() - 1
    } else {
        scope_index(scopes.drop_last(), proposed)
    }
}

/// `headers` with `name` set to `value`, replacing any earlier value.
pub open spec fn set(headers: Seq<(Seq<u8>, Seq<u8>)>, name: Seq<u8>, value: Seq<u8>) -> Seq<(Seq<u8>, Seq<u8>)> {
    without(headers, name).push((lower(name), value))
}

/// The value of `Access-Control-Allow-Methods`, where there is one and it
/// can be a field value.
pub open spec fn methods_value(tokens: Seq<Seq<u8>>) -> Option<Seq<u8>> {
    if tokens.len() == 0 {
        None
    } else {
        let joined = join(tokens, ascii(", "@));
        if all_field_bytes(joined) {
            Some(joined)
        } else {
            None
        }
    }
}

/// The value of `Access-Control-Allow-Headers`: the request's own list, on a
/// credentialed preflight permitting any field (where `*` is read
/// literally); `*` otherwise where any is permitted; else the named fields.
pub open spec fn headers_value(config: CorsConfig, request: Seq<(Seq<u8>, Seq<u8>)>) -> Option<Seq<u8>> {
    if config.any_header {
        if config.credentials {
            first_value(request, ascii("access-control-request-headers"@))
        } else {
            Some(ascii("*"@))
        }
    } else if config.headers@.len() == 0 {
        None
    } else {
        let joined = join(crate::middleware::cors::string_bytes(config.headers@), ascii(", "@));
        if all_field_bytes(joined) {
            Some(joined)
        } else {
            None
        }
    }
}

/// A preflight's answer: its status, its fields, and whether its body is a
/// problem document.
#[derive(Clone, Debug)]
pub struct PreflightAnswer {
    /// The status.
    pub status: u16,
    /// The fields.
    pub headers: Fields,
    /// Whether the body is a problem document rather than empty.
    pub problem: bool,
}

/// Answers preflights for one path.
pub struct Preflight {
    scopes: Vec<Scope>,
    allow: Vec<u8>,
    fallback: FallbackPolicy,
}

impl Preflight {
    /// The scopes, in order; there is at least one.
    pub closed spec fn spec_scopes(&self) -> Seq<Scope> {
        self.scopes@
    }

    /// The `Allow` value a request that is not a preflight is answered with.
    pub closed spec fn spec_allow(&self) -> Seq<u8> {
        self.allow@
    }

    /// What a request that is not a preflight gets.
    pub closed spec fn spec_fallback(&self) -> FallbackPolicy {
        self.fallback
    }

    /// A preflight over `scopes`, of which there must be one at least.
    pub fn new(scopes: Vec<Scope>, allow: &[u8], fallback: FallbackPolicy) -> (r: Self)
        requires
            scopes.len() > 0,
        ensures
            r.spec_scopes() == scopes@,
            r.spec_allow() == allow@,
            r.spec_fallback() == fallback,
    {
        Preflight { scopes, allow: slice_to_vec(allow), fallback }
    }

    /// The scope a requested method falls in: the first covering it, or the
    /// first where none does.
    pub fn scope_for(&self, method: &[u8]) -> (r: usize)
        requires
            self.spec_scopes().len() > 0,
        ensures
            r == scope_index(self.spec_scopes(), method@),
            r < self.spec_scopes().len(),
    {
        let mut i: usize = 0;
        while i < self.scopes.len()
            invariant
                0 <= i <= self.scopes.len(),
                forall|k: int| 0 <= k < i ==> !covering(#[trigger] self.scopes@[k].spec_covered(), method@),
            decreases self.scopes.len() - i,
        {
            if self.scopes[i].covers(method) {
                proof {
                    lemma_scope_index_first(self.scopes@, method@, i as int);
                }
                return i;
            }
            i = i + 1;
        }
        proof {
            lemma_scope_index_none(self.scopes@, method@);
        }
        0
    }

    /// The answer to a request with head `request`, where `predicates` is
    /// whether one of the application's predicates of the scope
    /// [`scope_for`](Preflight::scope_for) selects accepts its origin.
    pub open spec fn answered(&self, request: Seq<(Seq<u8>, Seq<u8>)>, predicates: bool) -> (u16, Seq<(Seq<u8>, Seq<u8>)>, bool) {
        match (first_value(request, ascii("origin"@)), first_value(request, ascii("access-control-request-method"@))) {
            (Some(origin), Some(method)) => {
                let scope = self.spec_scopes()[scope_index(self.spec_scopes(), method)];
                let config = scope.spec_config();
                let base = varied(Seq::empty(), preflight_varies());
                if !config.admits(origin, predicates) {
                    (204u16, base, false)
                } else {
                    let h1 = set(base, ascii("access-control-allow-origin"@), if config.any_origin && !config.credentials {
                        ascii("*"@)
                    } else {
                        origin
                    });
                    let h2 = if config.credentials {
                        set(h1, ascii("access-control-allow-credentials"@), ascii("true"@))
                    } else {
                        h1
                    };
                    let h3 = match methods_value(scope.spec_advertised()) {
                        Some(v) => set(h2, ascii("access-control-allow-methods"@), v),
                        None => h2,
                    };
                    let h4 = match headers_value(config, request) {
                        Some(v) => set(h3, ascii("access-control-allow-headers"@), v),
                        None => h3,
                    };
                    let h5 = match config.max_age {
                        Some(a) => set(h4, ascii("access-control-max-age"@), decimal(a@ / 1_000_000_000)),
                        None => h4,
                    };
                    let h6 = match config.exposed_value() {
                        Some(v) => set(h5, ascii("access-control-expose-headers"@), v),
                        None => h5,
                    };
                    (204u16, h6, false)
                }
            },
            _ => (405u16, seq![(ascii("allow"@), self.spec_allow())], self.spec_fallback() == FallbackPolicy::Problem),
        }
    }

    /// Answers a request to the path with head `request`: a 405 naming the
    /// allowed methods where it is not a preflight, else a 204 varying on
    /// what it read, carrying the CORS fields only where the origin is
    /// permitted.
    pub fn answer(&self, request: &Fields, predicates: bool) -> (r: PreflightAnswer)
        requires
            self.spec_scopes().len() > 0,
        ensures
            (r.status, r.headers@, r.problem) == self.answered(request@, predicates),
    {
        proof {
            reveal_strlit("origin");
            reveal_strlit("access-control-request-method");
            reveal_strlit("access-control-request-headers");
            reveal_strlit("access-control-allow-origin");
            reveal_strlit("access-control-allow-credentials");
            reveal_strlit("access-control-allow-methods");
            reveal_strlit("access-control-allow-headers");
            reveal_strlit("access-control-max-age");
            reveal_strlit("access-control-expose-headers");
            reveal_strlit("allow");
            reveal_strlit("true");
            reveal_strlit("*");
            reveal_strlit(", ");
        }
        let origin = request.get(literal("origin").as_slice());
        let requested = request.get(literal("access-control-request-method").as_slice());
        let (origin, requested) = match (origin, requested) {
            (Some(o), Some(m)) => (o, m),
            _ => {
                let mut headers = Fields::new();
                headers.insert(literal("allow").as_slice(), self.allow.as_slice());
                proof {
                    assert(without(Seq::<(Seq<u8>, Seq<u8>)>::empty(), ascii("allow"@)) =~= Seq::<(Seq<u8>, Seq<u8>)>::empty());
                    assert(lower(ascii("allow"@)) =~= ascii("allow"@));
                    assert(headers@ =~= seq![(ascii("allow"@), self.allow@)]);
                }
                return PreflightAnswer {
                    status: 405,
                    headers,
                    problem: self.fallback == FallbackPolicy::Problem,
                };
            },
        };
        let k = self.scope_for(requested.as_slice());
        let scope = &self.scopes[k];
        let config = &scope.config;
        let mut headers = Fields::new();
        let names: [&str; 3] = ["origin", "access-control-request-method", "access-control-request-headers"];
        proof {
            crate::octets::lemma_ascii_str("origin");
            crate::octets::lemma_ascii_str("access-control-request-method");
            crate::octets::lemma_ascii_str("access-control-request-headers");
            assert(strs_bytes(names@) =~= preflight_varies());
        }
        vary_on(&mut headers, &names);
        if !config.permits(origin.as_slice(), predicates) {
            return PreflightAnswer { status: 204, headers, problem: false };
        }
        let allowed = if config.any_origin && !config.credentials {
            literal("*")
        } else {
            origin
        };
        headers.insert(literal("access-control-allow-origin").as_slice(), allowed.as_slice());
        if config.credentials {
            headers.insert(literal("access-control-allow-credentials").as_slice(), literal("true").as_slice());
        }
        match advertised_methods(&scope.advertised) {
            Some(v) => headers.insert(literal("access-control-allow-methods").as_slice(), v.as_slice()),
            None => {},
        }
        match advertised_headers(config, request) {
            Some(v) => headers.insert(literal("access-control-allow-headers").as_slice(), v.as_slice()),
            None => {},
        }
        match config.max_age {
            Some(a) => headers.insert(literal("access-control-max-age").as_slice(), render_u64(a.as_secs()).as_slice()),
            None => {},
        }
        match config.exposed() {
            Some(v) => headers.insert(literal("access-control-expose-headers").as_slice(), v.as_slice()),
            None => {},
        }
        PreflightAnswer { status: 204, headers, problem: false }
    }
}

/// The first covering scope is the one chosen.
proof fn lemma_scope_index_first(scopes: Seq<Scope>, proposed: Seq<u8>, i: int)
    requires
        0 <= i < scopes.len(),
        covering(scopes[i].spec_covered(), proposed),
        forall|k: int| 0 <= k < i ==> !covering(#[trigger] scopes[k].spec_covered(), proposed),
    ensures
        scope_index(scopes, proposed) == i,
    decreases scopes.len(),
{
    if scopes.len() <= 1 {
    } else if i == scopes.len() - 1 {
    } else {
        assert(covering(scopes[i].spec_covered(), proposed));
        assert(scopes.drop_last()[i] == scopes[i]);
        assert forall|k: int| 0 <= k < i implies !covering(#[trigger] scopes.drop_last()[k].spec_covered(), proposed) by {
            assert(scopes.drop_last()[k] == scopes[k]);
        }
        lemma_scope_index_first(scopes.drop_last(), proposed, i);
    }
}

/// Where no scope covers a method, the first is chosen.
proof fn lemma_scope_index_none(scopes: Seq<Scope>, proposed: Seq<u8>)
    requires
        forall|k: int| 0 <= k < scopes.len() ==> !covering(#[trigger] scopes[k].spec_covered(), proposed),
    ensures
        scope_index(scopes, proposed) == 0,
    decreases scopes.len(),
{
    if scopes.len() > 1 {
        assert forall|k: int| 0 <= k < scopes.drop_last().len() implies !covering(#[trigger] scopes.drop_last()[k].spec_covered(), proposed) by {
            assert(scopes.drop_last()[k] == scopes[k]);
        }
        lemma_scope_index_none(scopes.drop_last(), proposed);
    }
}

/// The value of `Access-Control-Allow-Methods`.
fn advertised_methods(methods: &Vec<Method>) -> (r: Option<Vec<u8>>)
    ensures
        crate::middleware::cors::opt_view(r) == methods_value(method_tokens(methods@)),
{
    if methods.len() == 0 {
        return None;
    }
    proof {
        reveal_strlit(", ");
    }
    let mut tokens: Vec<Vec<u8>> = Vec::new();
    let mut i: usize = 0;
    while i < methods.len()
        invariant
            0 <= i <= methods.len(),
            views(tokens@) == method_tokens(methods@.take(i as int)),
        decreases methods.len() - i,
    {
        let ghost before = views(tokens@);
        let t = methods[i].token();
        tokens.push(t);
        assert(views(tokens@) =~= before.push(t@));
        assert(method_tokens(methods@.take(i + 1)) =~= method_tokens(methods@.take(i as int)).push(method_token(methods@[i as int])));
        i = i + 1;
    }
    assert(methods@.take(methods.len() as int) =~= methods@);
    let joined = join_bytes(&tokens, literal(", ").as_slice());
    if field_bytes(joined.as_slice()) {
        Some(joined)
    } else {
        None
    }
}

/// The value of `Access-Control-Allow-Headers`.
fn advertised_headers(config: &CorsConfig, request: &Fields) -> (r: Option<Vec<u8>>)
    ensures
        crate::middleware::cors::opt_view(r) == headers_value(*config, request@),
{
    proof {
        reveal_strlit("access-control-request-headers");
        reveal_strlit("*");
        reveal_strlit(", ");
    }
    if config.any_header {
        if config.credentials {
            return request.get(literal("access-control-request-headers").as_slice());
        }
        return Some(literal("*"));
    }
    if config.headers.len() == 0 {
        return None;
    }
    let names = crate::middleware::cors::strings_to_vecs(&config.headers);
    let joined = join_bytes(&names, literal(", ").as_slice());
    if field_bytes(joined.as_slice()) {
        Some(joined)
    } else {
        None
    }
}

/// A request without an `Origin` or without the method it proposes is not a
/// preflight, and is answered 405.
pub proof fn a_request_missing_either_field_is_not_a_preflight(
    preflight: Preflight,
    request: Seq<(Seq<u8>, Seq<u8>)>,
    predicates: bool,
)
    requires
        first_value(request, ascii("origin"@)) is None || first_value(
            request,
            ascii("access-control-request-method"@),
        ) is None,
    ensures
        preflight.answered(request, predicates).0 == 405,
{
}

/// An unpermitted origin is answered 204 with no CORS field at all: only the
/// `Vary` every preflight answer carries.
pub proof fn an_unpermitted_origin_gets_no_cors_field(
    preflight: Preflight,
    request: Seq<(Seq<u8>, Seq<u8>)>,
    predicates: bool,
    origin: Seq<u8>,
    method: Seq<u8>,
)
    requires
        first_value(request, ascii("origin"@)) == Some(origin),
        first_value(request, ascii("access-control-request-method"@)) == Some(method),
        !preflight.spec_scopes()[scope_index(preflight.spec_scopes(), method)].spec_config().admits(origin, predicates),
    ensures
        preflight.answered(request, predicates) == (204u16, varied(Seq::empty(), preflight_varies()), false),
{
}

} // verus!
