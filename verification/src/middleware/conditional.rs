//! Conditional requests: `If-None-Match`, answered with 304 when the client's
//! copy is current.
//!
//! A malformed precondition is absent rather than a rejection (RFC 9110
//! section 13.1), so the only status this adds is the 304 itself.

use vstd::prelude::*;

use crate::fields::{text_value, values_of, Fields};
use crate::http::etag::{members, split, weak_equivalent, weak_match};
use crate::http::method::Method;
use crate::octets::{ascii, literal, lower, slice_to_vec, trim, trim_bytes, views, bytes_eq};

verus! {

/// What `If-None-Match` asks.
#[derive(Clone, Debug, PartialEq, Eq)]
pub enum IfNoneMatch {
    /// `*`: any current representation.
    Any,
    /// A list of entity tags, each as sent, quotes and weakness marker
    /// included.
    Tags(Vec<Vec<u8>>),
}

/// What `If-None-Match` asks, as a plain value.
pub open spec fn condition_view(c: IfNoneMatch) -> Option<Seq<Seq<u8>>> {
    match c {
        IfNoneMatch::Any => None,
        IfNoneMatch::Tags(ts) => Some(views(ts@)),
    }
}

/// The preconditions a request carries.
#[derive(Clone, Debug, Default, PartialEq, Eq)]
pub struct Preconditions {
    /// `If-None-Match`, where it is present and readable.
    pub if_none_match: Option<IfNoneMatch>,
}

/// What a request head's `If-None-Match` reads as: absent where the field is
/// absent or not text, `*` where it says so, else its list of tags.
pub open spec fn precondition_of(headers: Seq<(Seq<u8>, Seq<u8>)>) -> Option<Option<Seq<Seq<u8>>>> {
    match text_value(headers, ascii("if-none-match"@)) {
        None => None,
        Some(text) => if trim(text) == ascii("*"@) {
            Some(None)
        } else {
            Some(Some(members(text)))
        },
    }
}

impl Preconditions {
    /// The field names this group reads.
    pub fn names() -> (r: Vec<Vec<u8>>)
        ensures
            views(r@) == seq![ascii("if-none-match"@)],
    {
        proof {
            reveal_strlit("if-none-match");
        }
        let mut r: Vec<Vec<u8>> = Vec::new();
        r.push(literal("if-none-match"));
        assert(views(r@) =~= seq![ascii("if-none-match"@)]);
        r
    }

    /// Reads the preconditions of a request head; this never fails.
    pub fn decode(headers: &Fields) -> (r: Preconditions)
        ensures
            match r.if_none_match {
                None => precondition_of(headers@) is None,
                Some(c) => precondition_of(headers@) == Some(condition_view(c)),
            },
    {
        proof {
            reveal_strlit("if-none-match");
            reveal_strlit("*");
        }
        match headers.get_text(literal("if-none-match").as_slice()) {
            None => Preconditions { if_none_match: None },
            Some(text) => {
                let t = trim_bytes(text.as_slice());
                if bytes_eq(t.as_slice(), literal("*").as_slice()) {
                    Preconditions { if_none_match: Some(IfNoneMatch::Any) }
                } else {
                    Preconditions { if_none_match: Some(IfNoneMatch::Tags(split(text.as_slice()))) }
                }
            },
        }
    }
}

/// Whether some member of `tags` is weakly equivalent to `current`.
pub open spec fn listed(tags: Seq<Seq<u8>>, current: Seq<u8>) -> bool {
    exists|i: int| 0 <= i < tags.len() && weak_equivalent(#[trigger] tags[i], current)
}

/// Whether a response whose head is `headers` meets the condition: it must
/// carry an `ETag` readable as text, which `*` always matches and a list
/// matches where some member is weakly equivalent to it.
pub open spec fn meets(condition: Option<Seq<Seq<u8>>>, headers: Seq<(Seq<u8>, Seq<u8>)>) -> bool {
    match text_value(headers, ascii("etag"@)) {
        None => false,
        Some(current) => match condition {
            None => true,
            Some(tags) => listed(tags, current),
        },
    }
}

/// Whether the response's validator meets the condition; a response with no
/// tag matches nothing, `*` included, since it has no current representation
/// to compare.
pub fn matched(condition: &IfNoneMatch, headers: &Fields) -> (r: bool)
    ensures
        r == meets(condition_view(*condition), headers@),
{
    proof {
        reveal_strlit("etag");
    }
    let current = match headers.get_text(literal("etag").as_slice()) {
        Some(c) => c,
        None => {
            return false;
        },
    };
    match condition {
        IfNoneMatch::Any => true,
        IfNoneMatch::Tags(tags) => {
            let ghost ts = views(tags@);
            let mut i: usize = 0;
            while i < tags.len()
                invariant
                    0 <= i <= tags.len(),
                    ts == views(tags@),
                    condition_view(*condition) == Some(ts),
                    text_value(headers@, ascii("etag"@)) == Some(current@),
                    forall|k: int| 0 <= k < i ==> !weak_equivalent(#[trigger] ts[k], current@),
                decreases tags.len() - i,
            {
                assert(ts[i as int] == tags@[i as int]@);
                if weak_match(tags[i].as_slice(), current.as_slice()) {
                    assert(weak_equivalent(ts[i as int], current@));
                    assert(listed(ts, current@));
                    return true;
                }
                i = i + 1;
            }
            false
        },
    }
}

/// The fields a 304 replays, in this order: what a cache needs to update its
/// stored copy (RFC 9110 section 15.4.5), and nothing that describes a body.
pub open spec fn replayed_names() -> Seq<Seq<u8>> {
    seq![
        ascii("cache-control"@),
        ascii("content-location"@),
        ascii("date"@),
        ascii("etag"@),
        ascii("expires"@),
        ascii("vary"@),
        ascii("age"@),
        ascii("last-modified"@),
    ]
}

/// The fields replayed for the first `names.len()` replayed names: each
/// name's values in turn, filed under the name.
pub open spec fn replay(headers: Seq<(Seq<u8>, Seq<u8>)>, names: Seq<Seq<u8>>) -> Seq<(Seq<u8>, Seq<u8>)>
    decreases names.len(),
{
    if names.len() == 0 {
        Seq::empty()
    } else {
        replay(headers, names.drop_last()) + values_of(headers, names.last()).map_values(
            |v: Seq<u8>| (names.last(), v),
        )
    }
}

/// The 304 answering a request whose copy is current.
#[derive(Clone, Debug, Default)]
pub struct NotModified {
    replayed: Fields,
}

impl NotModified {
    /// The fields the 304 carries.
    pub closed spec fn spec_replayed(&self) -> Seq<(Seq<u8>, Seq<u8>)> {
        self.replayed@
    }

    /// The 304 for a response with head `headers`: the fields a cache needs,
    /// and no `Content-Type`, no `Content-Length` and no body.
    pub fn from_headers(headers: &Fields) -> (r: Self)
        ensures
            r.spec_replayed() == replay(headers@, replayed_names()),
    {
        proof {
            reveal_strlit("cache-control");
            reveal_strlit("content-location");
            reveal_strlit("date");
            reveal_strlit("etag");
            reveal_strlit("expires");
            reveal_strlit("vary");
            reveal_strlit("age");
            reveal_strlit("last-modified");
        }
        let mut names: Vec<Vec<u8>> = Vec::new();
        names.push(literal("cache-control"));
        names.push(literal("content-location"));
        names.push(literal("date"));
        names.push(literal("etag"));
        names.push(literal("expires"));
        names.push(literal("vary"));
        names.push(literal("age"));
        names.push(literal("last-modified"));
        let ghost ns = views(names@);
        assert(ns =~= replayed_names());
        let mut replayed = Fields::new();
        let mut i: usize = 0;
        while i < names.len()
            invariant
                0 <= i <= names.len(),
                ns == views(names@),
                forall|k: int| 0 <= k < ns.len() ==> lower(#[trigger] ns[k]) == ns[k],
                replayed@ == replay(headers@, ns.take(i as int)),
            decreases names.len() - i,
        {
            assert(ns.take(i + 1).drop_last() =~= ns.take(i as int));
            assert(ns.take(i + 1).last() == names@[i as int]@);
            let name = names[i].as_slice();
            let values = headers.get_all(name);
            let ghost vs = views(values@);
            let ghost start = replayed@;
            let mut j: usize = 0;
            while j < values.len()
                invariant
                    0 <= j <= values.len(),
                    vs == views(values@),
                    vs == values_of(headers@, name@),
                    lower(name@) == name@,
                    replayed@ == start + vs.take(j as int).map_values(|v: Seq<u8>| (name@, v)),
                decreases values.len() - j,
            {
                replayed.append(name, values[j].as_slice());
                assert(vs[j as int] == values@[j as int]@);
                assert(vs.take(j + 1).map_values(|v: Seq<u8>| (name@, v)) =~= vs.take(j as int).map_values(
                    |v: Seq<u8>| (name@, v),
                ).push((name@, vs[j as int])));
                j = j + 1;
            }
            assert(vs.take(values.len() as int) =~= vs);
            i = i + 1;
        }
        assert(ns.take(names.len() as int) =~= ns);
        NotModified { replayed }
    }

    /// The fields the 304 carries.
    pub fn replayed(&self) -> (r: &Fields)
        ensures
            r@ == self.spec_replayed(),
    {
        &self.replayed
    }

    /// The status it answers with.
    pub fn status(&self) -> (r: u16)
        ensures
            r == 304,
    {
        304
    }
}

/// Answers a safe request whose copy is current with 304.
#[derive(Clone, Copy, Debug, Default)]
pub struct Conditional;

impl Conditional {
    /// The interceptor.
    pub fn new() -> (r: Self) {
        Conditional
    }

    /// Whether a request with `method` and `preconditions`, whose response
    /// has status `status` and head `headers`, is answered with 304 instead:
    /// only a `GET` or `HEAD`, only a successful response, and only where the
    /// condition is met.
    pub open spec fn answers_not_modified(
        method: Method,
        preconditions: Option<Option<Seq<Seq<u8>>>>,
        status: u16,
        headers: Seq<(Seq<u8>, Seq<u8>)>,
    ) -> bool {
        &&& (method is Get || method is Head)
        &&& preconditions matches Some(c) && meets(c, headers)
        &&& 200 <= status <= 299
    }

    /// The 304 owed instead of the response, if one is.
    pub fn decide(&self, method: &Method, reads: &Preconditions, status: u16, headers: &Fields) -> (r:
        Option<NotModified>)
        ensures
            r is Some <==> Self::answers_not_modified(
                *method,
                match reads.if_none_match {
                    Some(c) => Some(condition_view(c)),
                    None => None,
                },
                status,
                headers@,
            ),
            r matches Some(n) ==> n.spec_replayed() == replay(headers@, replayed_names()),
    {
        let safe = match method {
            Method::Get | Method::Head => true,
            _ => false,
        };
        if !safe {
            return None;
        }
        match &reads.if_none_match {
            None => None,
            Some(condition) => {
                if status < 200 || status > 299 {
                    return None;
                }
                if matched(condition, headers) {
                    Some(NotModified::from_headers(headers))
                } else {
                    None
                }
            },
        }
    }
}

/// A response carrying no readable validator matches no condition, `*`
/// included: a 304 there would call a copy current on no evidence.
pub proof fn an_untagged_response_matches_nothing(condition: Option<Seq<Seq<u8>>>, headers: Seq<(Seq<u8>, Seq<u8>)>)
    requires
        text_value(headers, ascii("etag"@)) is None,
    ensures
        !meets(condition, headers),
{
}

/// A 304 replays only fields a cache needs: every field it carries is named
/// among them, so no `Content-Type` or `Content-Length` ever reaches it.
pub proof fn a_not_modified_replays_only_what_a_cache_needs(headers: Seq<(Seq<u8>, Seq<u8>)>, names: Seq<Seq<u8>>)
    ensures
        forall|i: int|
            0 <= i < replay(headers, names).len() ==> names.contains(#[trigger] replay(headers, names)[i].0),
    decreases names.len(),
{
    if names.len() > 0 {
        a_not_modified_replays_only_what_a_cache_needs(headers, names.drop_last());
        let before = replay(headers, names.drop_last());
        let added = values_of(headers, names.last()).map_values(|v: Seq<u8>| (names.last(), v));
        let all = replay(headers, names);
        assert(all =~= before + added);
        assert forall|i: int| 0 <= i < all.len() implies names.contains(#[trigger] all[i].0) by {
            if i < before.len() {
                assert(all[i] == before[i]);
                let k = choose|k: int| 0 <= k < names.drop_last().len() && names.drop_last()[k] == before[i].0;
                assert(names[k] == names.drop_last()[k]);
            } else {
                assert(all[i] == added[i - before.len()]);
                assert(names[names.len() - 1] == names.last());
            }
        }
    }
}

/// Only a safe request is ever answered 304, and only after a successful
/// response.
pub proof fn only_a_safe_successful_request_is_answered_not_modified(
    method: Method,
    preconditions: Option<Option<Seq<Seq<u8>>>>,
    status: u16,
    headers: Seq<(Seq<u8>, Seq<u8>)>,
)
    requires
        Conditional::answers_not_modified(method, preconditions, status, headers),
    ensures
        method is Get || method is Head,
        200 <= status <= 299,
{
}

/// A `HEAD` is answered exactly as a `GET` is: both are safe, and a 304 owed
/// to one is owed to the other.
pub proof fn a_head_is_answered_like_a_get(
    preconditions: Option<Option<Seq<Seq<u8>>>>,
    status: u16,
    headers: Seq<(Seq<u8>, Seq<u8>)>,
)
    ensures
        Conditional::answers_not_modified(Method::Head, preconditions, status, headers)
            == Conditional::answers_not_modified(Method::Get, preconditions, status, headers),
{
}

/// A safe request whose `If-None-Match` a successful response meets is
/// answered 304.
pub proof fn a_met_precondition_on_a_safe_request_is_answered_not_modified(
    method: Method,
    condition: Option<Seq<Seq<u8>>>,
    status: u16,
    headers: Seq<(Seq<u8>, Seq<u8>)>,
)
    requires
        method is Get || method is Head,
        meets(condition, headers),
        200 <= status <= 299,
    ensures
        Conditional::answers_not_modified(method, Some(condition), status, headers),
{
}

} // verus!
