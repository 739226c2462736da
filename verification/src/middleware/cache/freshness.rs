//! Whether a response may be stored, and for how long: RFC 9111 as a shared
//! cache reads it, with no heuristic freshness unless one was configured.

use vstd::prelude::*;

use crate::fields::{first_value, text_value, values_of, Fields};
use crate::http::method::Method;
use crate::octets::{
    all_visible, any_trimmed, ascii, bytes_eq, has_prefix, has_trimmed, literal, lower,
    parse_u64, parse_u64_bytes, slice_to_vec, sorted_set, split, split_bytes, starts_with,
    strictly_sorted, to_lower, trim, trim_bytes, views, visible,
};
use crate::time::Duration;

verus! {

/// The statuses a response may be stored with: those RFC 9110 section 15.1
/// calls heuristically cacheable. 206 is absent, since a partial body stored
/// without range machinery would be served as a whole one.
pub open spec fn cacheable_statuses() -> Seq<u16> {
    seq![200u16, 203, 204, 300, 301, 308, 404, 405, 410, 414, 501]
}

/// The statuses a response may be stored with.
pub fn cacheable() -> (r: Vec<u16>)
    ensures
        r@ == cacheable_statuses(),
{
    let mut r: Vec<u16> = Vec::new();
    r.push(200);
    r.push(203);
    r.push(204);
    r.push(300);
    r.push(301);
    r.push(308);
    r.push(404);
    r.push(405);
    r.push(410);
    r.push(414);
    r.push(501);
    assert(r@ =~= cacheable_statuses());
    r
}

/// The connection-specific fields a stored response must not keep, `Age`
/// included since the cache states its own.
pub open spec fn hop_by_hop_names() -> Seq<Seq<u8>> {
    seq![
        ascii("connection"@),
        ascii("proxy-connection"@),
        ascii("keep-alive"@),
        ascii("te"@),
        ascii("trailer"@),
        ascii("transfer-encoding"@),
        ascii("upgrade"@),
        ascii("age"@),
    ]
}

/// The connection-specific fields a stored response must not keep.
pub fn hop_by_hop() -> (r: Vec<Vec<u8>>)
    ensures
        views(r@) == hop_by_hop_names(),
{
    proof {
        reveal_strlit("connection");
        reveal_strlit("proxy-connection");
        reveal_strlit("keep-alive");
        reveal_strlit("te");
        reveal_strlit("trailer");
        reveal_strlit("transfer-encoding");
        reveal_strlit("upgrade");
        reveal_strlit("age");
    }
    let mut r: Vec<Vec<u8>> = Vec::new();
    r.push(literal("connection"));
    r.push(literal("proxy-connection"));
    r.push(literal("keep-alive"));
    r.push(literal("te"));
    r.push(literal("trailer"));
    r.push(literal("transfer-encoding"));
    r.push(literal("upgrade"));
    r.push(literal("age"));
    assert(views(r@) =~= hop_by_hop_names());
    r
}

/// Why a response was not stored.
#[derive(Clone, Copy, Debug, PartialEq, Eq, Structural)]
pub enum Unstorable {
    /// The method is neither `GET` nor `HEAD`.
    Method,
    /// The status is not one a response may be stored with.
    Status,
    /// The request said `no-store`.
    RequestNoStore,
    /// The response said `no-store`.
    ResponseNoStore,
    /// The response said `private`: not for a shared cache.
    Private,
    /// The response said `no-cache`, which this cache cannot revalidate.
    NoCache,
    /// The response varies on everything.
    VaryWildcard,
    /// The response sets a cookie, which belongs to one client.
    SetCookie,
    /// The request was authorized and the response did not say it may be
    /// shared anyway.
    Authorized,
    /// Nothing says how long the response stays fresh.
    NoFreshness,
    /// The body is too large, or its length unknown; decided by the
    /// interceptor rather than here.
    Body,
}

/// The non-empty, trimmed, lowercased members of `pieces`.
pub open spec fn tokens(pieces: Seq<Seq<u8>>) -> Seq<Seq<u8>>
    decreases pieces.len(),
{
    if pieces.len() == 0 {
        Seq::empty()
    } else {
        let done = tokens(pieces.drop_last());
        let t = lower(trim(pieces.last()));
        if t.len() > 0 {
            done.push(t)
        } else {
            done
        }
    }
}

/// The comma-separated members of every field line in `values` readable as
/// text, trimmed, lowercased and non-empty, in order.
pub open spec fn list_members(values: Seq<Seq<u8>>) -> Seq<Seq<u8>>
    decreases values.len(),
{
    if values.len() == 0 {
        Seq::empty()
    } else {
        list_members(values.drop_last()) + if all_visible(values.last()) {
            tokens(split(values.last(), 0x2cu8))
        } else {
            Seq::empty()
        }
    }
}

/// The members of every `name` field line.
fn members_of(headers: &Fields, name: &[u8]) -> (r: Vec<Vec<u8>>)
    ensures
        views(r@) == list_members(values_of(headers@, name@)),
{
    let values = headers.get_all(name);
    let ghost vs = views(values@);
    let mut out: Vec<Vec<u8>> = Vec::new();
    let mut i: usize = 0;
    while i < values.len()
        invariant
            0 <= i <= values.len(),
            vs == views(values@),
            views(out@) == list_members(vs.take(i as int)),
        decreases values.len() - i,
    {
        assert(vs.take(i + 1).drop_last() =~= vs.take(i as int));
        assert(vs.take(i + 1).last() == values@[i as int]@);
        let ghost before = views(out@);
        if visible(values[i].as_slice()) {
            let pieces = split_bytes(values[i].as_slice(), 0x2c);
            let ghost ps = views(pieces@);
            let mut j: usize = 0;
            while j < pieces.len()
                invariant
                    0 <= j <= pieces.len(),
                    ps == views(pieces@),
                    views(out@) == before + tokens(ps.take(j as int)),
                decreases pieces.len() - j,
            {
                assert(ps.take(j + 1).drop_last() =~= ps.take(j as int));
                assert(ps.take(j + 1).last() == pieces@[j as int]@);
                let t = to_lower(trim_bytes(pieces[j].as_slice()).as_slice());
                if t.len() > 0 {
                    let ghost mid = views(out@);
                    out.push(t);
                    assert(views(out@) =~= mid.push(t@));
                }
                j = j + 1;
            }
            assert(ps.take(pieces.len() as int) =~= ps);
        } else {
            assert(before + Seq::<Seq<u8>>::empty() =~= before);
        }
        i = i + 1;
    }
    assert(vs.take(values.len() as int) =~= vs);
    out
}

/// The `Cache-Control` directives of a head, trimmed and lowercased.
pub open spec fn directive_list(headers: Seq<(Seq<u8>, Seq<u8>)>) -> Seq<Seq<u8>> {
    list_members(values_of(headers, ascii("cache-control"@)))
}

/// The `Cache-Control` directives of a head, trimmed and lowercased.
pub fn directives(headers: &Fields) -> (r: Vec<Vec<u8>>)
    ensures
        views(r@) == directive_list(headers@),
{
    proof {
        reveal_strlit("cache-control");
    }
    members_of(headers, literal("cache-control").as_slice())
}

/// Whether some directive is `name`, or `name` narrowed with an argument:
/// storing part of a response is not something this cache can do, so a
/// narrowed directive is read as the whole one.
pub open spec fn says(control: Seq<Seq<u8>>, name: Seq<u8>) -> bool {
    exists|i: int|
        0 <= i < control.len() && (#[trigger] control[i] == name || starts_with(
            control[i],
            name.push(0x3du8),
        ))
}

/// Whether some directive is `name` or narrows it.
fn saying(control: &Vec<Vec<u8>>, name: &[u8]) -> (r: bool)
    ensures
        r == says(views(control@), name@),
{
    let ghost cs = views(control@);
    let mut narrowed = slice_to_vec(name);
    narrowed.push(0x3d);
    let mut i: usize = 0;
    while i < control.len()
        invariant
            0 <= i <= control.len(),
            cs == views(control@),
            narrowed@ == name@.push(0x3du8),
            forall|k: int|
                0 <= k < i ==> !(#[trigger] cs[k] == name@ || starts_with(cs[k], name@.push(0x3du8))),
        decreases control.len() - i,
    {
        assert(cs[i as int] == control@[i as int]@);
        if bytes_eq(control[i].as_slice(), name) || has_prefix(control[i].as_slice(), narrowed.as_slice()) {
            return true;
        }
        i = i + 1;
    }
    false
}

/// The first directive beginning with `prefix`, with the prefix removed.
pub open spec fn after_prefix(control: Seq<Seq<u8>>, prefix: Seq<u8>) -> Option<Seq<u8>>
    decreases control.len(),
{
    if control.len() == 0 {
        None
    } else {
        match after_prefix(control.drop_last(), prefix) {
            Some(v) => Some(v),
            None => if starts_with(control.last(), prefix) {
                Some(control.last().skip(prefix.len() as int))
            } else {
                None
            },
        }
    }
}

/// The lifetime the first directive starting with `prefix` states, in
/// seconds, where it states one.
pub open spec fn stated(control: Seq<Seq<u8>>, prefix: Seq<u8>) -> Option<u64> {
    match after_prefix(control, prefix) {
        Some(v) => parse_u64(trim(v)),
        None => None,
    }
}

/// How long a response stays fresh, in nanoseconds: `s-maxage`, which a
/// shared cache is for, else `max-age`, else the configured default.
pub open spec fn fresh_for(control: Seq<Seq<u8>>, default: Option<nat>) -> Option<nat> {
    match stated(control, ascii("s-maxage="@)) {
        Some(s) => Some((s * 1_000_000_000) as nat),
        None => match stated(control, ascii("max-age="@)) {
            Some(s) => Some((s * 1_000_000_000) as nat),
            None => default,
        },
    }
}

/// The first directive beginning with `prefix`, with the prefix removed.
fn strip_first(control: &Vec<Vec<u8>>, prefix: &[u8]) -> (r: Option<Vec<u8>>)
    ensures
        match r {
            Some(v) => after_prefix(views(control@), prefix@) == Some(v@),
            None => after_prefix(views(control@), prefix@) is None,
        },
{
    let ghost cs = views(control@);
    let mut i: usize = 0;
    while i < control.len()
        invariant
            0 <= i <= control.len(),
            cs == views(control@),
            after_prefix(cs.take(i as int), prefix@) is None,
        decreases control.len() - i,
    {
        assert(cs.take(i + 1).drop_last() =~= cs.take(i as int));
        assert(cs.take(i + 1).last() == control@[i as int]@);
        if has_prefix(control[i].as_slice(), prefix) {
            let rest = slice_to_vec(vstd::slice::slice_subrange(control[i].as_slice(), prefix.len(), control[i].len()));
            assert(rest@ =~= cs[i as int].skip(prefix@.len() as int));
            proof {
                lemma_after_prefix_found(cs, prefix@, i as int);
            }
            return Some(rest);
        }
        i = i + 1;
    }
    assert(cs.take(control.len() as int) =~= cs);
    None
}

/// Once a prefix is found, later directives do not change what it says.
proof fn lemma_after_prefix_found(control: Seq<Seq<u8>>, prefix: Seq<u8>, i: int)
    requires
        0 <= i < control.len(),
        after_prefix(control.take(i), prefix) is None,
        starts_with(control[i], prefix),
    ensures
        after_prefix(control, prefix) == Some(control[i].skip(prefix.len() as int)),
    decreases control.len() - i,
{
    assert(control.take(i + 1).drop_last() =~= control.take(i));
    lemma_after_prefix_stays(control, prefix, i + 1);
}

/// A found prefix stays found as the list grows.
proof fn lemma_after_prefix_stays(control: Seq<Seq<u8>>, prefix: Seq<u8>, j: int)
    requires
        0 <= j <= control.len(),
        after_prefix(control.take(j), prefix) is Some,
    ensures
        after_prefix(control, prefix) == after_prefix(control.take(j), prefix),
    decreases control.len() - j,
{
    if j < control.len() {
        assert(control.take(j + 1).drop_last() =~= control.take(j));
        lemma_after_prefix_stays(control, prefix, j + 1);
    } else {
        assert(control.take(j) =~= control);
    }
}

/// How long a response stays fresh, from its directives and the configured
/// default.
pub fn freshness(control: &Vec<Vec<u8>>, default: Option<Duration>) -> (r: Option<Duration>)
    ensures
        match r {
            Some(d) => fresh_for(views(control@), match default {
                Some(x) => Some(x@),
                None => None,
            }) == Some(d@),
            None => fresh_for(views(control@), match default {
                Some(x) => Some(x@),
                None => None,
            }) is None,
        },
{
    proof {
        reveal_strlit("s-maxage=");
        reveal_strlit("max-age=");
    }
    match strip_first(control, literal("s-maxage=").as_slice()) {
        Some(v) => match parse_u64_bytes(trim_bytes(v.as_slice()).as_slice()) {
            Some(s) => {
                return Some(Duration::from_secs(s));
            },
            None => {},
        },
        None => {},
    }
    match strip_first(control, literal("max-age=").as_slice()) {
        Some(v) => match parse_u64_bytes(trim_bytes(v.as_slice()).as_slice()) {
            Some(s) => {
                return Some(Duration::from_secs(s));
            },
            None => {},
        },
        None => {},
    }
    default
}

/// Whether a response may be stored, and for how long; or which rule
/// refused it, the first that applies in this order.
pub open spec fn storability(
    method: Method,
    status: u16,
    request: Seq<(Seq<u8>, Seq<u8>)>,
    response: Seq<(Seq<u8>, Seq<u8>)>,
    default: Option<nat>,
) -> Result<nat, Unstorable> {
    let request_control = directive_list(request);
    let response_control = directive_list(response);
    if !(method is Get || method is Head) {
        Err(Unstorable::Method)
    } else if !cacheable_statuses().contains(status) {
        Err(Unstorable::Status)
    } else if request_control.contains(ascii("no-store"@)) {
        Err(Unstorable::RequestNoStore)
    } else if says(response_control, ascii("no-store"@)) {
        Err(Unstorable::ResponseNoStore)
    } else if says(response_control, ascii("private"@)) {
        Err(Unstorable::Private)
    } else if says(response_control, ascii("no-cache"@)) {
        Err(Unstorable::NoCache)
    } else if (match text_value(response, ascii("vary"@)) {
        Some(v) => any_trimmed(split(v, 0x2cu8), ascii("*"@)),
        None => false,
    }) {
        Err(Unstorable::VaryWildcard)
    } else if values_of(response, ascii("set-cookie"@)).len() > 0 {
        Err(Unstorable::SetCookie)
    } else if values_of(request, ascii("authorization"@)).len() > 0 && !(exists|i: int|
        0 <= i < response_control.len() && (#[trigger] response_control[i] == ascii("public"@)
            || starts_with(response_control[i], ascii("s-maxage="@)))) {
        Err(Unstorable::Authorized)
    } else {
        match fresh_for(response_control, default) {
            Some(d) => Ok(d),
            None => Err(Unstorable::NoFreshness),
        }
    }
}

/// Whether a response may be stored, and for how long.
pub fn storable(
    method: &Method,
    status: u16,
    request: &Fields,
    response: &Fields,
    default_freshness: Option<Duration>,
) -> (r: Result<Duration, Unstorable>)
    ensures
        match r {
            Ok(d) => storability(*method, status, request@, response@, match default_freshness {
                Some(x) => Some(x@),
                None => None,
            }) == Ok::<nat, Unstorable>(d@),
            Err(e) => storability(*method, status, request@, response@, match default_freshness {
                Some(x) => Some(x@),
                None => None,
            }) == Err::<nat, Unstorable>(e),
        },
{
    proof {
        reveal_strlit("no-store");
        reveal_strlit("private");
        reveal_strlit("no-cache");
        reveal_strlit("vary");
        reveal_strlit("*");
        reveal_strlit("set-cookie");
        reveal_strlit("authorization");
        reveal_strlit("public");
        reveal_strlit("s-maxage=");
    }
    match method {
        Method::Get | Method::Head => {},
        _ => {
            return Err(Unstorable::Method);
        },
    }
    let statuses = cacheable();
    let mut listed = false;
    let mut i: usize = 0;
    while i < statuses.len()
        invariant
            0 <= i <= statuses.len(),
            statuses@ == cacheable_statuses(),
            listed == (exists|k: int| 0 <= k < i && statuses@[k] == status),
        decreases statuses.len() - i,
    {
        if statuses[i] == status {
            listed = true;
        }
        i = i + 1;
    }
    if !listed {
        return Err(Unstorable::Status);
    }
    assert(cacheable_statuses().contains(status));
    let request_control = directives(request);
    let no_store = literal("no-store");
    let ghost rc = views(request_control@);
    let mut j: usize = 0;
    while j < request_control.len()
        invariant
            0 <= j <= request_control.len(),
            rc == views(request_control@),
            rc == directive_list(request@),
            *method is Get || *method is Head,
            cacheable_statuses().contains(status),
            no_store@ == ascii("no-store"@),
            forall|k: int| 0 <= k < j ==> rc[k] != no_store@,
        decreases request_control.len() - j,
    {
        assert(rc[j as int] == request_control@[j as int]@);
        if bytes_eq(request_control[j].as_slice(), no_store.as_slice()) {
            assert(rc.contains(ascii("no-store"@)));
            assert(directive_list(request@) == rc);
            return Err(Unstorable::RequestNoStore);
        }
        j = j + 1;
    }
    let response_control = directives(response);
    if saying(&response_control, no_store.as_slice()) {
        return Err(Unstorable::ResponseNoStore);
    }
    if saying(&response_control, literal("private").as_slice()) {
        return Err(Unstorable::Private);
    }
    if saying(&response_control, literal("no-cache").as_slice()) {
        return Err(Unstorable::NoCache);
    }
    match response.get_text(literal("vary").as_slice()) {
        Some(v) => {
            let pieces = split_bytes(v.as_slice(), 0x2c);
            if has_trimmed(&pieces, literal("*").as_slice()) {
                return Err(Unstorable::VaryWildcard);
            }
        },
        None => {},
    }
    if response.contains(literal("set-cookie").as_slice()) {
        return Err(Unstorable::SetCookie);
    }
    if request.contains(literal("authorization").as_slice()) {
        let public = literal("public");
        let shared = literal("s-maxage=");
        let ghost sc = views(response_control@);
        let mut shareable = false;
        let mut k: usize = 0;
        while k < response_control.len()
            invariant
                0 <= k <= response_control.len(),
                sc == views(response_control@),
                public@ == ascii("public"@),
                shared@ == ascii("s-maxage="@),
                shareable == (exists|m: int|
                    0 <= m < k && (#[trigger] sc[m] == public@ || starts_with(sc[m], shared@))),
            decreases response_control.len() - k,
        {
            assert(sc[k as int] == response_control@[k as int]@);
            if bytes_eq(response_control[k].as_slice(), public.as_slice()) || has_prefix(
                response_control[k].as_slice(),
                shared.as_slice(),
            ) {
                shareable = true;
            }
            k = k + 1;
        }
        if !shareable {
            return Err(Unstorable::Authorized);
        }
    }
    match freshness(&response_control, default_freshness) {
        Some(d) => Ok(d),
        None => Err(Unstorable::NoFreshness),
    }
}

/// The names a stored response varies on, as a set: lowercased, in
/// increasing order, each once.
pub open spec fn vary_set(headers: Seq<(Seq<u8>, Seq<u8>)>, names: Seq<Seq<u8>>) -> bool {
    &&& strictly_sorted(names)
    &&& names.to_set() == list_members(values_of(headers, ascii("vary"@))).to_set()
}

/// The names a response varies on, as a set.
pub fn vary(headers: &Fields) -> (r: Vec<Vec<u8>>)
    ensures
        vary_set(headers@, views(r@)),
{
    proof {
        reveal_strlit("vary");
    }
    let names = members_of(headers, literal("vary").as_slice());
    sorted_set(&names)
}

/// A head without its connection-specific fields: what is stored of it.
pub open spec fn stripped(headers: Seq<(Seq<u8>, Seq<u8>)>) -> Seq<(Seq<u8>, Seq<u8>)> {
    crate::fields::without(
        crate::fields::without(
            crate::fields::without(
                crate::fields::without(
                    crate::fields::without(
                        crate::fields::without(
                            crate::fields::without(
                                crate::fields::without(headers, ascii("connection"@)),
                                ascii("proxy-connection"@),
                            ),
                            ascii("keep-alive"@),
                        ),
                        ascii("te"@),
                    ),
                    ascii("trailer"@),
                ),
                ascii("transfer-encoding"@),
            ),
            ascii("upgrade"@),
        ),
        ascii("age"@),
    )
}

/// Removes every connection-specific field from a head about to be stored.
pub fn strip(headers: &mut Fields)
    ensures
        final(headers)@ == stripped(old(headers)@),
{
    proof {
        reveal_strlit("connection");
        reveal_strlit("proxy-connection");
        reveal_strlit("keep-alive");
        reveal_strlit("te");
        reveal_strlit("trailer");
        reveal_strlit("transfer-encoding");
        reveal_strlit("upgrade");
        reveal_strlit("age");
    }
    headers.remove(literal("connection").as_slice());
    headers.remove(literal("proxy-connection").as_slice());
    headers.remove(literal("keep-alive").as_slice());
    headers.remove(literal("te").as_slice());
    headers.remove(literal("trailer").as_slice());
    headers.remove(literal("transfer-encoding").as_slice());
    headers.remove(literal("upgrade").as_slice());
    headers.remove(literal("age").as_slice());
}

/// No response is reused on a guess: with no default configured, a response
/// is stored only where it states its own lifetime.
pub proof fn nothing_is_stored_on_a_guess(
    method: Method,
    status: u16,
    request: Seq<(Seq<u8>, Seq<u8>)>,
    response: Seq<(Seq<u8>, Seq<u8>)>,
)
    requires
        storability(method, status, request, response, None) is Ok,
    ensures
        stated(directive_list(response), ascii("s-maxage="@)) is Some || stated(
            directive_list(response),
            ascii("max-age="@),
        ) is Some,
{
}

/// A stored response never sets a cookie and never answers anything but a
/// `GET` or `HEAD` with a cacheable status.
pub proof fn a_stored_response_belongs_to_no_one_client(
    method: Method,
    status: u16,
    request: Seq<(Seq<u8>, Seq<u8>)>,
    response: Seq<(Seq<u8>, Seq<u8>)>,
    default: Option<nat>,
)
    requires
        storability(method, status, request, response, default) is Ok,
    ensures
        values_of(response, ascii("set-cookie"@)).len() == 0,
        method is Get || method is Head,
        cacheable_statuses().contains(status),
{
}

} // verus!
