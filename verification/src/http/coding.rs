//! Which stored or producible coding a client prefers, once the qvalues of
//! its `Accept-Encoding` are reduced to ordering keys.
//!
//! Two parts of a server choose a content coding from the same field and
//! must agree about what it says: the compressor, among the codings it can
//! produce, and an asset server, among the codings it has stored.

use vstd::prelude::*;

use crate::middleware::compression::{at_most, best_of, Weight};
use crate::octets::{
    ascii, bytes_eq, eq_ignore_ascii_case, eq_ignore_case, literal, split, split_bytes, trim_text,
    trim_text_bytes, views,
};

verus! {

/// The index of the coding the client prefers among those offered, given the
/// weight it gives each (`None` where the field mentions it not at all) and
/// the weight it gives identity: the heaviest accepted coding, the earlier on
/// a tie, unless identity is weighed more strongly still.
pub open spec fn preference(ws: Seq<Option<Weight>>, identity: Weight) -> Option<int> {
    match best_of(ws) {
        Some((i, w)) => if at_most(identity, w) {
            Some(i)
        } else {
            None
        },
        None => None,
    }
}

/// The index of the offered coding the client prefers, or `None` for the
/// identity representation — either because no offered coding was
/// acceptable, or because the client preferred identity to all of them.
/// A tie with identity goes to the coding.
pub fn preferred(weights: &[Option<Weight>], identity: Weight) -> (r: Option<usize>)
    ensures
        (match r {
            Some(i) => Some(i as int),
            None => None,
        }) == preference(weights@, identity),
{
    let mut best: Option<(usize, Weight)> = None;
    let mut i: usize = 0;
    while i < weights.len()
        invariant
            0 <= i <= weights.len(),
            best matches Some((j, _)) ==> j < i,
            (match best {
                Some((j, w)) => best_of(weights@.take(i as int)) == Some((j as int, w)),
                None => best_of(weights@.take(i as int)) is None,
            }),
        decreases weights.len() - i,
    {
        assert(weights@.take(i + 1).drop_last() =~= weights@.take(i as int));
        match weights[i] {
            Some(w) => {
                if w.key != Some(0u32) {
                    let replace = match best {
                        None => true,
                        Some((_, b)) => match (w.key, b.key) {
                            (Some(x), Some(y)) => x > y,
                            _ => false,
                        },
                    };
                    if replace {
                        best = Some((i, w));
                    }
                }
            },
            None => {},
        }
        i = i + 1;
    }
    assert(weights@.take(weights.len() as int) =~= weights@);
    match best {
        None => None,
        Some((j, w)) => {
            let le = match (identity.key, w.key) {
                (Some(x), Some(y)) => x <= y,
                _ => false,
            };
            if le {
                Some(j)
            } else {
                None
            }
        },
    }
}

/// Whether every weight given is a number.
pub open spec fn all_numbers(ws: Seq<Option<Weight>>) -> bool {
    forall|k: int| 0 <= k < ws.len() ==> (#[trigger] ws[k] matches Some(w) ==> w.key is Some)
}

/// A tie between two offered codings goes to the one offered first, so a
/// caller states its own preference by its order.
pub proof fn a_tie_goes_to_the_earlier_coding(ws: Seq<Option<Weight>>, identity: Weight, i: int, j: int)
    requires
        0 <= i < j < ws.len(),
        all_numbers(ws),
        ws[i] == ws[j],
        ws[i] matches Some(w) && w.key matches Some(k) && k > 0,
    ensures
        preference(ws, identity) != Some(j),
{
    lemma_best_never_ties_later(ws, i, j);
}

/// The best of a list never lands on a coding weighed the same as an earlier
/// accepted one.
proof fn lemma_best_never_ties_later(ws: Seq<Option<Weight>>, i: int, j: int)
    requires
        0 <= i < j < ws.len(),
        all_numbers(ws),
        ws[i] == ws[j],
        ws[i] matches Some(w) && w.key matches Some(k) && k > 0,
    ensures
        !(best_of(ws) matches Some((b, _)) && b == j),
    decreases ws.len(),
{
    let prefix = ws.drop_last();
    assert(all_numbers(prefix)) by {
        assert forall|k: int| 0 <= k < prefix.len() implies (#[trigger] prefix[k] matches Some(w)
            ==> w.key is Some) by {
            assert(prefix[k] == ws[k]);
        }
    }
    assert(prefix[i] == ws[i]);
    assert(ws.last() == ws[ws.len() - 1]);
    lemma_best_in_range(prefix);
    if j < ws.len() - 1 {
        assert(prefix[j] == ws[j]);
        lemma_best_never_ties_later(prefix, i, j);
    } else {
        lemma_best_is_at_least(prefix, i);
    }
}

/// The best of a list is one of its members.
proof fn lemma_best_in_range(ws: Seq<Option<Weight>>)
    ensures
        best_of(ws) matches Some((b, _)) ==> 0 <= b < ws.len(),
    decreases ws.len(),
{
    if ws.len() > 0 {
        lemma_best_in_range(ws.drop_last());
    }
}

/// Where every weight is a number, the best of a list weighs at least as much
/// as any accepted member of it.
proof fn lemma_best_is_at_least(ws: Seq<Option<Weight>>, i: int)
    requires
        0 <= i < ws.len(),
        all_numbers(ws),
        ws[i] matches Some(w) && w.key matches Some(k) && k > 0,
    ensures
        best_of(ws) matches Some((_, b)) && b.key matches Some(bk) && (ws[i] matches Some(w) && w.key
            matches Some(k) && bk >= k),
    decreases ws.len(),
{
    let prefix = ws.drop_last();
    assert(all_numbers(prefix)) by {
        assert forall|k: int| 0 <= k < prefix.len() implies (#[trigger] prefix[k] matches Some(w)
            ==> w.key is Some) by {
            assert(prefix[k] == ws[k]);
        }
    }
    assert(ws.last() == ws[ws.len() - 1]);
    if i < ws.len() - 1 {
        assert(prefix[i] == ws[i]);
        lemma_best_is_at_least(prefix, i);
    } else if prefix.len() > 0 {
        lemma_best_keyed(prefix);
    }
}

/// Where every weight is a number, so is the best one.
proof fn lemma_best_keyed(ws: Seq<Option<Weight>>)
    requires
        all_numbers(ws),
    ensures
        best_of(ws) matches Some((_, b)) ==> b.key is Some,
    decreases ws.len(),
{
    if ws.len() > 0 {
        let prefix = ws.drop_last();
        assert(all_numbers(prefix)) by {
            assert forall|k: int| 0 <= k < prefix.len() implies (#[trigger] prefix[k] matches Some(w)
                ==> w.key is Some) by {
                assert(prefix[k] == ws[k]);
            }
        }
        assert(ws.last() == ws[ws.len() - 1]);
        lemma_best_keyed(prefix);
    }
}

/// The deprecated spellings a recipient treats as `token`: RFC 9110 section
/// 8.4.1.3 keeps `x-gzip` for `gzip`, the only one among the codings this
/// crate names.
pub open spec fn alias_table(token: Seq<u8>) -> Seq<Seq<u8>> {
    if token == ascii("gzip"@) {
        seq![ascii("x-gzip"@)]
    } else {
        Seq::empty()
    }
}

/// The deprecated spellings a recipient treats as `token`.
pub fn aliases(token: &[u8]) -> (r: Vec<Vec<u8>>)
    ensures
        views(r@) == alias_table(token@),
{
    proof {
        reveal_strlit("gzip");
        reveal_strlit("x-gzip");
    }
    let gzip = literal("gzip");
    let mut r: Vec<Vec<u8>> = Vec::new();
    if bytes_eq(token, gzip.as_slice()) {
        r.push(literal("x-gzip"));
        assert(views(r@) =~= seq![ascii("x-gzip"@)]);
    } else {
        assert(views(r@) =~= Seq::<Seq<u8>>::empty());
    }
    r
}

/// The text of the first `q` parameter among `params`: the first whose
/// trimmed form starts with `q=` or `Q=`, without those two octets, trimmed.
pub open spec fn q_text(params: Seq<Seq<u8>>) -> Option<Seq<u8>>
    decreases params.len(),
{
    if params.len() == 0 {
        None
    } else {
        let p = trim_text(params[0]);
        if p.len() >= 2 && (p[0] == 0x71u8 || p[0] == 0x51u8) && p[1] == 0x3du8 {
            Some(trim_text(p.skip(2)))
        } else {
            q_text(params.drop_first())
        }
    }
}

/// The coding an `Accept-Encoding` entry names: what precedes its first `;`,
/// trimmed.
pub open spec fn entry_name(entry: Seq<u8>) -> Seq<u8> {
    trim_text(split(entry, 0x3bu8)[0])
}

/// The text of an entry's `q` parameter, where it has one.
pub open spec fn entry_q(entry: Seq<u8>) -> Option<Seq<u8>> {
    q_text(split(entry, 0x3bu8).drop_first())
}

/// Whether `name` is `token` or one of its aliases, ignoring ASCII case.
pub open spec fn names_token(name: Seq<u8>, token: Seq<u8>) -> bool {
    eq_ignore_case(name, token) || exists|k: int|
        0 <= k < alias_table(token).len() && eq_ignore_case(#[trigger] alias_table(token)[k], name)
}

/// What the entries from here on say of `token`, with `wildcard` what the
/// latest `*` entry so far said: the first entry naming the token decides,
/// and failing one the last `*` does.
pub open spec fn quality_from(
    entries: Seq<Seq<u8>>,
    token: Seq<u8>,
    wildcard: Option<Option<Seq<u8>>>,
) -> Option<Option<Seq<u8>>>
    decreases entries.len(),
{
    if entries.len() == 0 {
        wildcard
    } else {
        let e = entries[0];
        if names_token(entry_name(e), token) {
            Some(entry_q(e))
        } else {
            quality_from(
                entries.drop_first(),
                token,
                if entry_name(e) == seq![0x2au8] {
                    Some(entry_q(e))
                } else {
                    wildcard
                },
            )
        }
    }
}

/// What an `Accept-Encoding` value says of `token`: `None` where neither the
/// token nor `*` appears, and otherwise the entry that decides, with the text
/// of its `q` parameter where it has one.
pub open spec fn stated_quality(accept: Seq<u8>, token: Seq<u8>) -> Option<Option<Seq<u8>>> {
    quality_from(split(accept, 0x2cu8), token, None)
}

/// The octets of a stated quality.
pub open spec fn stated_view(q: Option<Option<Vec<u8>>>) -> Option<Option<Seq<u8>>> {
    match q {
        None => None,
        Some(None) => Some(None),
        Some(Some(v)) => Some(Some(v@)),
    }
}

/// The text of the `q` parameter among the pieces of an entry after its
/// first.
fn entry_q_bytes(pieces: &Vec<Vec<u8>>) -> (r: Option<Vec<u8>>)
    requires
        pieces.len() >= 1,
    ensures
        (match r {
            Some(v) => Some(v@),
            None => None,
        }) == q_text(views(pieces@).drop_first()),
{
    let ghost all = views(pieces@);
    assert(all.drop_first() =~= all.skip(1));
    let mut i: usize = 1;
    while i < pieces.len()
        invariant
            1 <= i <= pieces.len(),
            all == views(pieces@),
            q_text(all.drop_first()) == q_text(all.skip(i as int)),
        decreases pieces.len() - i,
    {
        assert(all.skip(i as int)[0] == pieces@[i as int]@);
        assert(all.skip(i as int).drop_first() =~= all.skip(i + 1));
        let p = trim_text_bytes(pieces[i].as_slice());
        if p.len() >= 2 && (p[0] == 0x71 || p[0] == 0x51) && p[1] == 0x3d {
            let rest = trim_text_bytes(&p.as_slice()[2..p.len()]);
            assert(p@.subrange(2, p@.len() as int) =~= p@.skip(2));
            return Some(rest);
        }
        i = i + 1;
    }
    assert(all.skip(i as int) =~= Seq::<Seq<u8>>::empty());
    None
}

/// Whether `name` is `token` or one of its aliases, ignoring ASCII case.
fn names_token_bytes(name: &[u8], token: &[u8]) -> (r: bool)
    ensures
        r == names_token(name@, token@),
{
    if eq_ignore_ascii_case(name, token) {
        return true;
    }
    let al = aliases(token);
    let mut k: usize = 0;
    while k < al.len()
        invariant
            0 <= k <= al.len(),
            views(al@) == alias_table(token@),
            !eq_ignore_case(name@, token@),
            forall|j: int| 0 <= j < k ==> !eq_ignore_case(#[trigger] alias_table(token@)[j], name@),
        decreases al.len() - k,
    {
        assert(alias_table(token@)[k as int] == al@[k as int]@);
        if eq_ignore_ascii_case(al[k].as_slice(), name) {
            return true;
        }
        k = k + 1;
    }
    false
}

/// What an `Accept-Encoding` value says of `token`, as [`stated_quality`]
/// reads it: the float the `q` text spells is the caller's to read.
pub fn quality_text(accept: &[u8], token: &[u8]) -> (r: Option<Option<Vec<u8>>>)
    ensures
        stated_view(r) == stated_quality(accept@, token@),
{
    let entries = split_bytes(accept, 0x2c);
    let ghost es = views(entries@);
    let mut wildcard: Option<Option<Vec<u8>>> = None;
    let star: [u8; 1] = [0x2a];
    assert(star@ =~= seq![0x2au8]);
    assert(es.skip(0) =~= es);
    let mut i: usize = 0;
    while i < entries.len()
        invariant
            0 <= i <= entries.len(),
            es == views(entries@),
            es == split(accept@, 0x2cu8),
            star@ == seq![0x2au8],
            stated_quality(accept@, token@) == quality_from(es.skip(i as int), token@, stated_view(wildcard)),
        decreases entries.len() - i,
    {
        let ghost rest = es.skip(i as int);
        assert(rest[0] == entries@[i as int]@);
        assert(rest.drop_first() =~= es.skip(i + 1));
        let pieces = split_bytes(entries[i].as_slice(), 0x3b);
        assert(views(pieces@).len() >= 1);
        let name = trim_text_bytes(pieces[0].as_slice());
        assert(views(pieces@)[0] == pieces@[0]@);
        let q = entry_q_bytes(&pieces);
        if names_token_bytes(name.as_slice(), token) {
            return Some(q);
        }
        if bytes_eq(name.as_slice(), &star) {
            wildcard = Some(q);
        }
        i = i + 1;
    }
    assert(es.skip(i as int) =~= Seq::<Seq<u8>>::empty());
    wildcard
}

/// From any point of the scan, the first entry naming the coding decides.
proof fn lemma_first_naming_decides(
    entries: Seq<Seq<u8>>,
    token: Seq<u8>,
    wildcard: Option<Option<Seq<u8>>>,
    i: int,
)
    requires
        0 <= i < entries.len(),
        names_token(entry_name(entries[i]), token),
        forall|j: int| 0 <= j < i ==> !names_token(entry_name(#[trigger] entries[j]), token),
    ensures
        quality_from(entries, token, wildcard) == Some(entry_q(entries[i])),
    decreases i,
{
    if i > 0 {
        assert(!names_token(entry_name(entries[0]), token));
        let rest = entries.drop_first();
        assert forall|j: int| 0 <= j < i - 1 implies !names_token(entry_name(#[trigger] rest[j]), token) by {
            assert(rest[j] == entries[j + 1]);
        }
        assert(rest[i - 1] == entries[i]);
        let w = if entry_name(entries[0]) == seq![0x2au8] {
            Some(entry_q(entries[0]))
        } else {
            wildcard
        };
        lemma_first_naming_decides(rest, token, w, i - 1);
    }
}

/// From any point of the scan where no entry left names the coding, the last
/// `*` entry left answers, and failing one what was seen before.
proof fn lemma_last_wildcard_answers(
    entries: Seq<Seq<u8>>,
    token: Seq<u8>,
    wildcard: Option<Option<Seq<u8>>>,
)
    requires
        forall|j: int| 0 <= j < entries.len() ==> !names_token(entry_name(#[trigger] entries[j]), token),
    ensures
        quality_from(entries, token, wildcard) == (match last_wildcard(entries) {
            Some(k) => Some(entry_q(entries[k])),
            None => wildcard,
        }),
    decreases entries.len(),
{
    if entries.len() > 0 {
        assert(!names_token(entry_name(entries[0]), token));
        let rest = entries.drop_first();
        assert forall|j: int| 0 <= j < rest.len() implies !names_token(entry_name(#[trigger] rest[j]), token) by {
            assert(rest[j] == entries[j + 1]);
        }
        let w = if entry_name(entries[0]) == seq![0x2au8] {
            Some(entry_q(entries[0]))
        } else {
            wildcard
        };
        lemma_last_wildcard_answers(rest, token, w);
        lemma_last_wildcard_bound(rest);
        match last_wildcard(rest) {
            Some(k) => {
                assert(rest[k] == entries[k + 1]);
            },
            None => {},
        }
    }
}

/// The last `*` entry is one of the entries, and a `*` entry.
proof fn lemma_last_wildcard_bound(entries: Seq<Seq<u8>>)
    ensures
        last_wildcard(entries) matches Some(k) ==> 0 <= k < entries.len() && entry_name(entries[k])
            == seq![0x2au8],
    decreases entries.len(),
{
    if entries.len() > 0 {
        let rest = entries.drop_first();
        lemma_last_wildcard_bound(rest);
        if let Some(k) = last_wildcard(rest) {
            assert(rest[k] == entries[k + 1]);
        }
    }
}

/// The index of the last `*` entry, if any.
pub open spec fn last_wildcard(entries: Seq<Seq<u8>>) -> Option<int>
    decreases entries.len(),
{
    if entries.len() == 0 {
        None
    } else {
        match last_wildcard(entries.drop_first()) {
            Some(k) => Some(k + 1),
            None => if entry_name(entries[0]) == seq![0x2au8] {
                Some(0)
            } else {
                None
            },
        }
    }
}

/// An entry naming the coding, or one of its aliases, answers for it wherever
/// a wildcard stands: the first such entry decides.
pub proof fn a_named_entry_beats_the_wildcard(accept: Seq<u8>, token: Seq<u8>, i: int)
    requires
        0 <= i < split(accept, 0x2cu8).len(),
        names_token(entry_name(split(accept, 0x2cu8)[i]), token),
        forall|j: int|
            0 <= j < i ==> !names_token(entry_name(#[trigger] split(accept, 0x2cu8)[j]), token),
    ensures
        stated_quality(accept, token) == Some(entry_q(split(accept, 0x2cu8)[i])),
{
    lemma_first_naming_decides(split(accept, 0x2cu8), token, None, i);
}

/// With no entry naming the coding, the last `*` entry answers for it, and
/// without one the field says nothing of it.
pub proof fn the_last_wildcard_answers_for_anything_not_named(accept: Seq<u8>, token: Seq<u8>)
    requires
        forall|j: int|
            0 <= j < split(accept, 0x2cu8).len() ==> !names_token(
                entry_name(#[trigger] split(accept, 0x2cu8)[j]),
                token,
            ),
    ensures
        stated_quality(accept, token) == (match last_wildcard(split(accept, 0x2cu8)) {
            Some(k) => Some(entry_q(split(accept, 0x2cu8)[k])),
            None => None,
        }),
{
    lemma_last_wildcard_answers(split(accept, 0x2cu8), token, None);
}

} // verus!
