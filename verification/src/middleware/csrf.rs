//! Cross-site request forgery protection, from what a browser states about a
//! request rather than from a token.
//!
//! An ordered list of rules, the first match winning: a safe method passes;
//! `Sec-Fetch-Site`, which script cannot forge, decides where it was sent;
//! otherwise `Origin` must be trusted or name the request's own host; and a
//! request carrying neither field is not a browser's, so not subject to CSRF.

use vstd::prelude::*;

use crate::fields::{text_value, Fields};
use crate::http::method::Method;
use crate::octets::{ascii, bytes_eq, eq_ignore_ascii_case, eq_ignore_case, literal, lower, to_lower, trim, trim_bytes, slice_to_vec};

verus! {

/// Whether RFC 9110 section 9.2.1 calls `method` safe for this purpose:
/// `GET`, `HEAD` and `OPTIONS`.
pub open spec fn safe_method(method: Method) -> bool {
    method is Get || method is Head || method is Options
}

/// Whether `method` is safe: it changes nothing a forger could want.
pub fn is_safe(method: &Method) -> (r: bool)
    ensures
        r == safe_method(*method),
{
    match method {
        Method::Get | Method::Head | Method::Options => true,
        _ => false,
    }
}

/// The first position at or after `k` where `pat` occurs in `s`.
pub open spec fn find_from(s: Seq<u8>, pat: Seq<u8>, k: int) -> Option<int>
    decreases s.len() + 1 - k,
{
    if k < 0 || k + pat.len() > s.len() {
        None
    } else if s.subrange(k, k + pat.len()) == pat {
        Some(k)
    } else {
        find_from(s, pat, k + 1)
    }
}

/// An origin's authority, lowercased: what follows its `://`, or the whole
/// trimmed origin where there is none (so `null` reduces to itself).
pub open spec fn origin_authority(origin: Seq<u8>) -> Seq<u8> {
    let t = trim(origin);
    match find_from(t, ascii("://"@), 0) {
        Some(k) => lower(t.skip(k + 3)),
        None => lower(t),
    }
}

/// An origin's authority, which is what is compared against `Host`.
pub fn authority_of(origin: &str) -> (r: Vec<u8>)
    ensures
        r@ == origin_authority(vstd::utf8::encode_utf8(origin@)),
{
    authority_of_bytes(origin.as_bytes())
}

/// An origin's authority, from its octets.
pub fn authority_of_bytes(origin: &[u8]) -> (r: Vec<u8>)
    ensures
        r@ == origin_authority(origin@),
{
    proof {
        reveal_strlit("://");
    }
    let t = trim_bytes(origin);
    let pat = literal("://");
    let mut k: usize = 0;
    while k < t.len() && t.len() - k >= 3
        invariant
            0 <= k <= t.len(),
            t@ == trim(origin@),
            pat@ == ascii("://"@),
            pat@.len() == 3,
            find_from(t@, pat@, 0) == find_from(t@, pat@, k as int),
        decreases t.len() - k,
    {
        if t[k] == pat[0] && t[k + 1] == pat[1] && t[k + 2] == pat[2] {
            assert(t@.subrange(k as int, k + 3) =~= pat@);
            let rest = slice_to_vec(vstd::slice::slice_subrange(t.as_slice(), k + 3, t.len()));
            assert(rest@ =~= t@.skip(k + 3));
            assert(find_from(t@, pat@, k as int) == Some(k as int));
            return to_lower(rest.as_slice());
        }
        assert(t@.subrange(k as int, k + 3) != pat@) by {
            if t@.subrange(k as int, k + 3) == pat@ {
                assert(t@.subrange(k as int, k + 3)[0] == pat@[0]);
                assert(t@.subrange(k as int, k + 3)[1] == pat@[1]);
                assert(t@.subrange(k as int, k + 3)[2] == pat@[2]);
            }
        }
        k = k + 1;
    }
    to_lower(t.as_slice())
}

/// The request's own authority, lowercased: its `Host` field where that is
/// text, else the authority its target named; `None` where neither names one.
pub open spec fn own(headers: Seq<(Seq<u8>, Seq<u8>)>, authority: Option<Seq<u8>>) -> Option<Seq<u8>> {
    let host = match text_value(headers, ascii("host"@)) {
        Some(h) => Some(h),
        None => authority,
    };
    match host {
        Some(h) => if lower(trim(h)).len() > 0 {
            Some(lower(trim(h)))
        } else {
            None
        },
        None => None,
    }
}

/// The request's own authority.
pub fn own_authority(headers: &Fields, authority: Option<&[u8]>) -> (r: Option<Vec<u8>>)
    ensures
        match r {
            Some(v) => own(headers@, match authority {
                Some(a) => Some(a@),
                None => None,
            }) == Some(v@),
            None => own(headers@, match authority {
                Some(a) => Some(a@),
                None => None,
            }) is None,
        },
{
    proof {
        reveal_strlit("host");
    }
    let host = match headers.get_text(literal("host").as_slice()) {
        Some(h) => Some(h),
        None => match authority {
            Some(a) => Some(slice_to_vec(a)),
            None => None,
        },
    };
    match host {
        Some(h) => {
            let t = trim_bytes(h.as_slice());
            let l = to_lower(t.as_slice());
            if l.len() > 0 {
                Some(l)
            } else {
                None
            }
        },
        None => None,
    }
}

/// The refusal of a request that came from another site.
#[derive(Clone, Copy, Debug, PartialEq, Eq)]
pub struct CrossSite;

impl CrossSite {
    /// The sentence the problem document carries.
    pub fn detail(&self) -> (r: Vec<u8>)
        ensures
            r@ == ascii("this request came from another site"@),
    {
        proof {
            reveal_strlit("this request came from another site");
        }
        literal("this request came from another site")
    }

    /// The status it answers with.
    pub fn status(&self) -> (r: u16)
        ensures
            r == 403,
    {
        403
    }
}

/// Refuses unsafe requests a browser sent from another site.
#[derive(Clone, Debug, Default)]
pub struct Csrf {
    trusted: Vec<String>,
}

impl Csrf {
    /// The origins trusted beyond the request's own.
    pub closed spec fn spec_trusted(&self) -> Seq<Seq<char>> {
        self.trusted@.map_values(|t: String| t@)
    }

    /// Whether `origin`, trimmed, is one of `trusted`, without regard to case.
    pub open spec fn trusted_origin(trusted: Seq<Seq<char>>, origin: Seq<u8>) -> bool {
        exists|i: int|
            0 <= i < trusted.len() && eq_ignore_case(
                vstd::utf8::encode_utf8(#[trigger] trusted[i]),
                trim(origin),
            )
    }

    /// Whether an unsafe request with this head, whose target named
    /// `authority`, may proceed.
    pub open spec fn admits(
        &self,
        method: Method,
        headers: Seq<(Seq<u8>, Seq<u8>)>,
        authority: Option<Seq<u8>>,
    ) -> bool {
        if safe_method(method) {
            true
        } else {
            match text_value(headers, ascii("sec-fetch-site"@)) {
                Some(site) => trim(site) == ascii("same-origin"@) || trim(site) == ascii("none"@),
                None => match text_value(headers, ascii("origin"@)) {
                    Some(origin) => Self::trusted_origin(self.spec_trusted(), origin) || (own(
                        headers,
                        authority,
                    ) matches Some(host) && host == origin_authority(origin)),
                    None => true,
                },
            }
        }
    }

    /// Trusts no origin beyond the request's own.
    pub fn new() -> (r: Self)
        ensures
            r.spec_trusted() == Seq::<Seq<char>>::empty(),
    {
        let r = Csrf { trusted: Vec::new() };
        assert(r.spec_trusted() =~= Seq::<Seq<char>>::empty());
        r
    }

    /// Also trusts `origin`, exactly: not anything beneath it.
    pub fn trusting_origin(self, origin: &str) -> (r: Self)
        ensures
            r.spec_trusted() == self.spec_trusted().push(origin@),
    {
        let mut trusted = self.trusted;
        let ghost before = trusted@;
        trusted.push(origin.to_owned());
        let r = Csrf { trusted };
        assert(r.spec_trusted() =~= before.map_values(|t: String| t@).push(origin@));
        r
    }

    /// Whether `origin` is trusted.
    pub fn trusts(&self, origin: &[u8]) -> (r: bool)
        ensures
            r == Self::trusted_origin(self.spec_trusted(), origin@),
    {
        let t = trim_bytes(origin);
        let ghost ts = self.spec_trusted();
        let mut i: usize = 0;
        while i < self.trusted.len()
            invariant
                0 <= i <= self.trusted.len(),
                ts == self.spec_trusted(),
                t@ == trim(origin@),
                forall|k: int|
                    0 <= k < i ==> !eq_ignore_case(vstd::utf8::encode_utf8(#[trigger] ts[k]), t@),
            decreases self.trusted.len() - i,
        {
            let candidate = self.trusted[i].as_str().as_bytes();
            assert(ts[i as int] == self.trusted@[i as int]@);
            if eq_ignore_ascii_case(candidate, t.as_slice()) {
                return true;
            }
            i = i + 1;
        }
        false
    }

    /// Whether a request may proceed, where its target named no authority.
    pub fn permits(&self, method: &Method, headers: &Fields) -> (r: bool)
        ensures
            r == self.admits(*method, headers@, None),
    {
        self.permits_at(method, headers, None)
    }

    /// Whether a request may proceed, its target having named `authority`.
    pub fn permits_at(&self, method: &Method, headers: &Fields, authority: Option<&[u8]>) -> (r: bool)
        ensures
            r == self.admits(*method, headers@, match authority {
                Some(a) => Some(a@),
                None => None,
            }),
    {
        proof {
            reveal_strlit("sec-fetch-site");
            reveal_strlit("origin");
            reveal_strlit("same-origin");
            reveal_strlit("none");
        }
        if is_safe(method) {
            return true;
        }
        let site = headers.get_text(literal("sec-fetch-site").as_slice());
        let origin = headers.get_text(literal("origin").as_slice());
        match site {
            Some(s) => {
                let t = trim_bytes(s.as_slice());
                bytes_eq(t.as_slice(), literal("same-origin").as_slice()) || bytes_eq(
                    t.as_slice(),
                    literal("none").as_slice(),
                )
            },
            None => match origin {
                Some(o) => {
                    if self.trusts(o.as_slice()) {
                        true
                    } else {
                        match own_authority(headers, authority) {
                            Some(host) => {
                                let theirs = authority_of_bytes(o.as_slice());
                                bytes_eq(host.as_slice(), theirs.as_slice())
                            },
                            None => false,
                        }
                    }
                },
                None => true,
            },
        }
    }
}

/// A safe method is always permitted, whatever it claims.
pub proof fn a_safe_method_is_always_permitted(
    csrf: Csrf,
    method: Method,
    headers: Seq<(Seq<u8>, Seq<u8>)>,
    authority: Option<Seq<u8>>,
)
    requires
        safe_method(method),
    ensures
        csrf.admits(method, headers, authority),
{
}

/// Where the browser states `Sec-Fetch-Site`, which script cannot forge, it
/// alone decides: no `Origin`, trusted or not, can outvote it.
pub proof fn the_browsers_statement_decides_alone(
    csrf: Csrf,
    method: Method,
    headers: Seq<(Seq<u8>, Seq<u8>)>,
    authority: Option<Seq<u8>>,
    site: Seq<u8>,
)
    requires
        !safe_method(method),
        text_value(headers, ascii("sec-fetch-site"@)) == Some(site),
    ensures
        csrf.admits(method, headers, authority) == (trim(site) == ascii("same-origin"@) || trim(site)
            == ascii("none"@)),
{
}

} // verus!
