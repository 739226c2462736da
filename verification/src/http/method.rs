//! Request methods.

use vstd::prelude::*;

use crate::octets::{ascii, literal, slice_to_vec};

verus! {

/// A request method: the ones RFC 9110 section 9 defines, and any other
/// token as it was sent.
#[derive(Clone, Debug, PartialEq, Eq, Hash)]
pub enum Method {
    /// `GET`.
    Get,
    /// `HEAD`.
    Head,
    /// `POST`.
    Post,
    /// `PUT`.
    Put,
    /// `DELETE`.
    Delete,
    /// `CONNECT`.
    Connect,
    /// `OPTIONS`.
    Options,
    /// `TRACE`.
    Trace,
    /// `PATCH` (RFC 5789).
    Patch,
    /// Any other method token.
    Extension(Vec<u8>),
}

/// The method token a method is sent as.
pub open spec fn method_token(m: Method) -> Seq<u8> {
    match m {
        Method::Get => ascii("GET"@),
        Method::Head => ascii("HEAD"@),
        Method::Post => ascii("POST"@),
        Method::Put => ascii("PUT"@),
        Method::Delete => ascii("DELETE"@),
        Method::Connect => ascii("CONNECT"@),
        Method::Options => ascii("OPTIONS"@),
        Method::Trace => ascii("TRACE"@),
        Method::Patch => ascii("PATCH"@),
        Method::Extension(t) => t@,
    }
}

impl Method {
    /// `GET`.
    pub const GET: Method = Method::Get;
    /// `HEAD`.
    pub const HEAD: Method = Method::Head;
    /// `POST`.
    pub const POST: Method = Method::Post;
    /// `PUT`.
    pub const PUT: Method = Method::Put;
    /// `DELETE`.
    pub const DELETE: Method = Method::Delete;
    /// `CONNECT`.
    pub const CONNECT: Method = Method::Connect;
    /// `OPTIONS`.
    pub const OPTIONS: Method = Method::Options;
    /// `TRACE`.
    pub const TRACE: Method = Method::Trace;
    /// `PATCH`.
    pub const PATCH: Method = Method::Patch;

    /// The method a token names; method tokens are case-sensitive.
    pub fn from_token(token: &[u8]) -> (r: Method)
        ensures
            method_token(r) == token@,
    {
        proof {
            reveal_strlit("GET");
            reveal_strlit("HEAD");
            reveal_strlit("POST");
            reveal_strlit("PUT");
            reveal_strlit("DELETE");
            reveal_strlit("CONNECT");
            reveal_strlit("OPTIONS");
            reveal_strlit("TRACE");
            reveal_strlit("PATCH");
        }
        if crate::octets::bytes_eq(token, literal("GET").as_slice()) {
            Method::Get
        } else if crate::octets::bytes_eq(token, literal("HEAD").as_slice()) {
            Method::Head
        } else if crate::octets::bytes_eq(token, literal("POST").as_slice()) {
            Method::Post
        } else if crate::octets::bytes_eq(token, literal("PUT").as_slice()) {
            Method::Put
        } else if crate::octets::bytes_eq(token, literal("DELETE").as_slice()) {
            Method::Delete
        } else if crate::octets::bytes_eq(token, literal("CONNECT").as_slice()) {
            Method::Connect
        } else if crate::octets::bytes_eq(token, literal("OPTIONS").as_slice()) {
            Method::Options
        } else if crate::octets::bytes_eq(token, literal("TRACE").as_slice()) {
            Method::Trace
        } else if crate::octets::bytes_eq(token, literal("PATCH").as_slice()) {
            Method::Patch
        } else {
            Method::Extension(slice_to_vec(token))
        }
    }

    /// The same method.
    pub fn copied(&self) -> (r: Method)
        ensures
            method_token(r) == method_token(*self),
            r is Get <==> self is Get,
            r is Head <==> self is Head,
            r is Options <==> self is Options,
    {
        match self {
            Method::Get => Method::Get,
            Method::Head => Method::Head,
            Method::Post => Method::Post,
            Method::Put => Method::Put,
            Method::Delete => Method::Delete,
            Method::Connect => Method::Connect,
            Method::Options => Method::Options,
            Method::Trace => Method::Trace,
            Method::Patch => Method::Patch,
            Method::Extension(t) => Method::Extension(slice_to_vec(t.as_slice())),
        }
    }

    /// The token the method is sent as.
    pub fn token(&self) -> (r: Vec<u8>)
        ensures
            r@ == method_token(*self),
    {
        proof {
            reveal_strlit("GET");
            reveal_strlit("HEAD");
            reveal_strlit("POST");
            reveal_strlit("PUT");
            reveal_strlit("DELETE");
            reveal_strlit("CONNECT");
            reveal_strlit("OPTIONS");
            reveal_strlit("TRACE");
            reveal_strlit("PATCH");
        }
        match self {
            Method::Get => literal("GET"),
            Method::Head => literal("HEAD"),
            Method::Post => literal("POST"),
            Method::Put => literal("PUT"),
            Method::Delete => literal("DELETE"),
            Method::Connect => literal("CONNECT"),
            Method::Options => literal("OPTIONS"),
            Method::Trace => literal("TRACE"),
            Method::Patch => literal("PATCH"),
            Method::Extension(t) => slice_to_vec(t.as_slice()),
        }
    }
}

/// The tokens of a list of methods.
pub open spec fn method_tokens(ms: Seq<Method>) -> Seq<Seq<u8>> {
    ms.map_values(|m: Method| method_token(m))
}

/// A copy of a list of methods.
pub fn copy_methods(ms: &Vec<Method>) -> (r: Vec<Method>)
    ensures
        method_tokens(r@) == method_tokens(ms@),
{
    let mut out: Vec<Method> = Vec::new();
    let mut i: usize = 0;
    while i < ms.len()
        invariant
            0 <= i <= ms.len(),
            method_tokens(out@) == method_tokens(ms@.take(i as int)),
        decreases ms.len() - i,
    {
        let ghost before = method_tokens(out@);
        let m = ms[i].copied();
        out.push(m);
        assert(method_tokens(out@) =~= before.push(method_token(m)));
        assert(method_tokens(ms@.take(i + 1)) =~= method_tokens(ms@.take(i as int)).push(method_token(ms@[i as int])));
        i = i + 1;
    }
    assert(ms@.take(ms.len() as int) =~= ms@);
    out
}

} // verus!
