//! What a request counts against: the partition a key names for it.
//!
//! A key returning `None` exempts the request entirely: no counter is read and
//! none is written. Every key shipped here names a partition even for a
//! request that lacks what it reads, so a missing field or address is one
//! shared bucket rather than a way past the limit.

use vstd::prelude::*;

use crate::fields::{text_value, Fields};
use crate::http::method::{method_token, Method};
use crate::octets::{ascii, literal, lower, opt_bytes, slice_to_vec, to_lower};

verus! {

/// What a key may read of a request.
///
/// The addresses arrive as text: the peer's as the connection reported it,
/// and the client's as the router's trusted-proxy policy resolved it.
#[derive(Clone, Debug, PartialEq, Eq)]
pub struct KeyedRequest {
    /// The peer address, when the request arrived on a socket.
    pub peer: Option<Vec<u8>>,
    /// The resolved client address, when there is one.
    pub client: Option<Vec<u8>>,
    /// The request's fields.
    pub headers: Fields,
    /// The request method.
    pub method: Method,
    /// The matched operation's path template, the `paths` key.
    pub route: Vec<u8>,
}

/// What a request counts against.
pub trait RateLimitKey {
    /// The partition `request` counts against, or `None` to exempt it.
    spec fn spec_partition(&self, request: &KeyedRequest) -> Option<Seq<u8>>;

    /// The partition `request` counts against, or `None` to exempt it.
    fn partition(&self, request: &KeyedRequest) -> (r: Option<Vec<u8>>)
        ensures
            opt_bytes(r) == self.spec_partition(request),
    ;
}

/// `prefix`, then `:`, then the address, or `none` when there is none.
pub open spec fn labelled(prefix: Seq<u8>, address: Option<Vec<u8>>) -> Seq<u8> {
    match address {
        Some(a) => prefix + seq![0x3au8] + a@,
        None => prefix + ascii(":none"@),
    }
}

/// `prefix`, then `:`, then the address, or `none`.
fn label(prefix: Vec<u8>, address: &Option<Vec<u8>>) -> (r: Vec<u8>)
    ensures
        r@ == labelled(prefix@, *address),
{
    let mut r = prefix;
    let ghost head = r@;
    match address {
        Some(a) => {
            r.push(0x3a);
            r.extend_from_slice(a.as_slice());
            assert(r@ =~= head + seq![0x3au8] + a@);
        },
        None => {
            proof {
                reveal_strlit(":none");
            }
            let tail = literal(":none");
            r.extend_from_slice(tail.as_slice());
            assert(r@ =~= head + ascii(":none"@));
        },
    }
    r
}

/// The peer address of the connection.
///
/// Behind a proxy every client shares the proxy's address, so this is a
/// per-proxy limit there; [`ByClientAddress`] is the key for that case.
#[derive(Clone, Copy, Debug, Default, PartialEq, Eq)]
pub struct ByPeerAddress;

impl RateLimitKey for ByPeerAddress {
    open spec fn spec_partition(&self, request: &KeyedRequest) -> Option<Seq<u8>> {
        Some(labelled(ascii("peer"@), request.peer))
    }

    /// `peer:` and the address, or `peer:none` off a socket.
    fn partition(&self, request: &KeyedRequest) -> (r: Option<Vec<u8>>) {
        proof {
            reveal_strlit("peer");
        }
        Some(label(literal("peer"), &request.peer))
    }
}

/// The client address, as the router's trusted-proxy policy resolved it.
///
/// Until that policy is configured the resolution is the peer, so a client
/// never chooses the bucket it counts against.
#[derive(Clone, Copy, Debug, Default, PartialEq, Eq)]
pub struct ByClientAddress;

impl RateLimitKey for ByClientAddress {
    open spec fn spec_partition(&self, request: &KeyedRequest) -> Option<Seq<u8>> {
        Some(labelled(ascii("client"@), request.client))
    }

    /// `client:` and the address, or `client:none` when nothing resolved.
    fn partition(&self, request: &KeyedRequest) -> (r: Option<Vec<u8>>) {
        proof {
            reveal_strlit("client");
        }
        Some(label(literal("client"), &request.client))
    }
}

/// A request field's value, keyed under the field's lowercased name.
///
/// A request without the field, or with one that is not text, counts as
/// `none`, so removing the field is not a way past the limit.
#[derive(Clone, Debug, PartialEq, Eq)]
pub struct ByHeader(
    /// The field name.
    pub Vec<u8>,
);

/// The field's value as text, or `none`.
pub open spec fn header_or_none(request: &KeyedRequest, name: Seq<u8>) -> Seq<u8> {
    match text_value(request.headers@, name) {
        Some(v) => v,
        None => ascii("none"@),
    }
}

impl RateLimitKey for ByHeader {
    open spec fn spec_partition(&self, request: &KeyedRequest) -> Option<Seq<u8>> {
        Some(lower(self.0@) + seq![0x3au8] + header_or_none(request, self.0@))
    }

    /// The name, `:`, and the value.
    fn partition(&self, request: &KeyedRequest) -> (r: Option<Vec<u8>>) {
        proof {
            reveal_strlit("none");
        }
        let value = match request.headers.get_text(self.0.as_slice()) {
            Some(v) => v,
            None => literal("none"),
        };
        let mut r = to_lower(self.0.as_slice());
        let ghost head = r@;
        r.push(0x3a);
        r.extend_from_slice(value.as_slice());
        assert(r@ =~= head + seq![0x3au8] + value@);
        Some(r)
    }
}

/// The matched operation: the method and the path template, so the number of
/// buckets is bounded by the operations rather than by the URLs a client can
/// invent.
#[derive(Clone, Copy, Debug, Default, PartialEq, Eq)]
pub struct ByRoute;

impl RateLimitKey for ByRoute {
    open spec fn spec_partition(&self, request: &KeyedRequest) -> Option<Seq<u8>> {
        Some(ascii("route:"@) + method_token(request.method) + seq![0x20u8] + request.route@)
    }

    /// `route:`, the method, a space, and the path template.
    fn partition(&self, request: &KeyedRequest) -> (r: Option<Vec<u8>>) {
        proof {
            reveal_strlit("route:");
        }
        let mut r = literal("route:");
        let ghost head = r@;
        let method = request.method.token();
        r.extend_from_slice(method.as_slice());
        r.push(0x20);
        r.extend_from_slice(request.route.as_slice());
        assert(r@ =~= head + method@ + seq![0x20u8] + request.route@);
        Some(r)
    }
}

/// One fixed bucket: everything the limiter covers shares a quota.
#[derive(Clone, Debug, PartialEq, Eq)]
pub struct Shared(
    /// The partition's name.
    pub Vec<u8>,
);

impl RateLimitKey for Shared {
    open spec fn spec_partition(&self, request: &KeyedRequest) -> Option<Seq<u8>> {
        Some(self.0@)
    }

    /// The fixed name, whatever the request.
    fn partition(&self, request: &KeyedRequest) -> (r: Option<Vec<u8>>) {
        Some(slice_to_vec(self.0.as_slice()))
    }
}

/// Both keys, joined with `|`. Either half exempting the request exempts it:
/// a key with a missing part is not a key.
#[derive(Clone, Copy, Debug, Default, PartialEq, Eq)]
pub struct And<A, B>(
    /// The left half.
    pub A,
    /// The right half.
    pub B,
);

impl<A: RateLimitKey, B: RateLimitKey> RateLimitKey for And<A, B> {
    open spec fn spec_partition(&self, request: &KeyedRequest) -> Option<Seq<u8>> {
        match (self.0.spec_partition(request), self.1.spec_partition(request)) {
            (Some(l), Some(r)) => Some(l + seq![0x7cu8] + r),
            _ => None,
        }
    }

    /// The left partition, `|`, and the right one.
    fn partition(&self, request: &KeyedRequest) -> (r: Option<Vec<u8>>) {
        let left = match self.0.partition(request) {
            Some(l) => l,
            None => {
                return None;
            },
        };
        let right = match self.1.partition(request) {
            Some(r) => r,
            None => {
                return None;
            },
        };
        let mut joined = left;
        let ghost head = joined@;
        joined.push(0x7c);
        joined.extend_from_slice(right.as_slice());
        assert(joined@ =~= head + seq![0x7cu8] + right@);
        Some(joined)
    }
}

/// Joining keys never invents a partition: a joined key counts a request
/// exactly when both halves do, and each half's partition can be read back
/// from the front and the back of the joined one.
pub proof fn a_joined_key_exempts_what_either_half_exempts<A: RateLimitKey, B: RateLimitKey>(
    key: And<A, B>,
    request: &KeyedRequest,
)
    ensures
        key.spec_partition(request) is Some <==> (key.0.spec_partition(request) is Some
            && key.1.spec_partition(request) is Some),
        key.spec_partition(request) matches Some(joined) ==> (key.0.spec_partition(
            request,
        ) matches Some(l) && joined.take(l.len() as int) == l) && (key.1.spec_partition(
            request,
        ) matches Some(r) && joined.skip(joined.len() - r.len()) == r),
{
    if let (Some(l), Some(r)) = (key.0.spec_partition(request), key.1.spec_partition(request)) {
        let joined = l + seq![0x7cu8] + r;
        assert(joined.take(l.len() as int) =~= l);
        assert(joined.skip(joined.len() - r.len()) =~= r);
    }
}

} // verus!
