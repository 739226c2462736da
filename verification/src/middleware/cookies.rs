//! Setting cookies on every response an operation produces.
//!
//! `Set-Cookie` is the one field RFC 6265 forbids joining with commas, so a
//! response setting two cookies carries the field twice.

use vstd::prelude::*;

use crate::fields::Fields;
use crate::octets::{all_field_bytes, ascii, field_bytes, literal, slice_to_vec, views};

verus! {

/// The `Set-Cookie` lines for `cookies`: one per cookie that may stand in a
/// field value, in order. A cookie that cannot is dropped rather than sent
/// malformed.
pub open spec fn cookie_lines(cookies: Seq<Seq<u8>>) -> Seq<(Seq<u8>, Seq<u8>)>
    decreases cookies.len(),
{
    if cookies.len() == 0 {
        Seq::empty()
    } else {
        let rest = cookie_lines(cookies.drop_last());
        if all_field_bytes(cookies.last()) {
            rest.push((ascii("set-cookie"@), cookies.last()))
        } else {
            rest
        }
    }
}

/// What a [`SetCookies`] writes onto a response: each cookie, serialized.
#[derive(Clone, Debug, Default, PartialEq, Eq)]
pub struct SetCookieHeaders {
    /// The cookies this response sets, each as its `Set-Cookie` value.
    pub cookies: Vec<Vec<u8>>,
}

impl SetCookieHeaders {
    /// The one name the group declares.
    pub fn names() -> (r: Vec<Vec<u8>>)
        ensures
            views(r@) == seq![ascii("set-cookie"@)],
    {
        proof {
            reveal_strlit("set-cookie");
        }
        let mut r: Vec<Vec<u8>> = Vec::new();
        r.push(literal("set-cookie"));
        assert(views(r@) =~= seq![ascii("set-cookie"@)]);
        r
    }

    /// Whether the field may repeat: always, which is what keeps two cookies
    /// two lines.
    pub fn repeatable() -> (r: bool)
        ensures
            r,
    {
        true
    }

    /// The field lines, one per sendable cookie.
    pub fn encode(&self) -> (r: Vec<(Vec<u8>, Vec<u8>)>)
        ensures
            r@.map_values(|f: (Vec<u8>, Vec<u8>)| (f.0@, f.1@)) == cookie_lines(views(self.cookies@)),
    {
        proof {
            reveal_strlit("set-cookie");
        }
        let mut r: Vec<(Vec<u8>, Vec<u8>)> = Vec::new();
        let mut i: usize = 0;
        while i < self.cookies.len()
            invariant
                0 <= i <= self.cookies.len(),
                r@.map_values(|f: (Vec<u8>, Vec<u8>)| (f.0@, f.1@)) == cookie_lines(
                    views(self.cookies@).take(i as int),
                ),
            decreases self.cookies.len() - i,
        {
            let ghost before = r@.map_values(|f: (Vec<u8>, Vec<u8>)| (f.0@, f.1@));
            let ghost taken = views(self.cookies@).take(i + 1);
            assert(taken.drop_last() =~= views(self.cookies@).take(i as int));
            assert(taken.last() == self.cookies@[i as int]@);
            if field_bytes(self.cookies[i].as_slice()) {
                proof {
                    reveal_strlit("set-cookie");
                }
                let line = (literal("set-cookie"), slice_to_vec(self.cookies[i].as_slice()));
                r.push(line);
                assert(r@.map_values(|f: (Vec<u8>, Vec<u8>)| (f.0@, f.1@)) =~= before.push(
                    (line.0@, line.1@),
                ));
            }
            i = i + 1;
        }
        assert(views(self.cookies@).take(self.cookies.len() as int) =~= views(self.cookies@));
        r
    }
}

/// Where a response's cookies come from: a pure function of the request, so
/// that anything needing I/O to decide stays in the handler that does I/O.
pub trait CookieSource {
    /// The cookies a response to a request with `request` fields sets.
    spec fn spec_cookies(&self, request: Seq<(Seq<u8>, Seq<u8>)>) -> Seq<Seq<u8>>;

    /// The cookies this response should set, each as its `Set-Cookie` value.
    fn cookies(&self, request: &Fields) -> (r: Vec<Vec<u8>>)
        ensures
            views(r@) == self.spec_cookies(request@),
    ;
}

/// A fixed set, for cookies that do not depend on the request.
impl CookieSource for Vec<Vec<u8>> {
    open spec fn spec_cookies(&self, request: Seq<(Seq<u8>, Seq<u8>)>) -> Seq<Seq<u8>> {
        views(self@)
    }

    fn cookies(&self, request: &Fields) -> (r: Vec<Vec<u8>>) {
        let mut r: Vec<Vec<u8>> = Vec::new();
        let mut i: usize = 0;
        while i < self.len()
            invariant
                0 <= i <= self.len(),
                views(r@) == views(self@).take(i as int),
            decreases self.len() - i,
        {
            let ghost before = views(r@);
            let c = slice_to_vec(self[i].as_slice());
            r.push(c);
            assert(views(r@) =~= before.push(c@));
            assert(views(self@).take(i + 1) =~= views(self@).take(i as int).push(self@[i as int]@));
            i = i + 1;
        }
        assert(views(self@).take(self.len() as int) =~= views(self@));
        r
    }
}

/// Attaches `Set-Cookie` to every response the covered operations produce.
/// It never refuses a request: setting a cookie is no reason to.
#[derive(Clone, Debug, PartialEq, Eq)]
pub struct SetCookies<S> {
    source: S,
}

impl<S> SetCookies<S> {
    /// The cookies come from `source`.
    pub closed spec fn spec_source(&self) -> S {
        self.source
    }

    /// Sets the cookies `source` supplies.
    pub fn new(source: S) -> (r: Self)
        ensures
            r.spec_source() == source,
    {
        SetCookies { source }
    }
}

impl<S: CookieSource> SetCookies<S> {
    /// The group a response carries, decided from the request before the
    /// chain consumes it.
    pub fn headers(&self, request: &Fields) -> (r: SetCookieHeaders)
        ensures
            views(r.cookies@) == self.spec_source().spec_cookies(request@),
    {
        SetCookieHeaders { cookies: self.source.cookies(request) }
    }
}

} // verus!
