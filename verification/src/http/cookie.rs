//! Reading the cookies a request carries, per RFC 6265 section 5.4.

use vstd::prelude::*;

use crate::fields::{values_of, Fields};
use crate::octets::{
    all_visible, ascii, bytes_eq, slice_to_vec, split, split_bytes, split_once, split_once_bytes,
    trim, trim_bytes, views, visible,
};

verus! {

/// A quoted value without its quotes; anything else as it is.
pub open spec fn unquoted(v: Seq<u8>) -> Seq<u8> {
    if v.len() >= 2 && v[0] == 0x22u8 && v.last() == 0x22u8 {
        v.subrange(1, v.len() - 1)
    } else {
        v
    }
}

/// The `name=value` pair one `;`-separated entry holds, if it is not blank.
///
/// A pair with no `=` is a name with an empty value.
pub open spec fn pair_of(entry: Seq<u8>) -> Option<(Seq<u8>, Seq<u8>)> {
    let e = trim(entry);
    if e.len() == 0 {
        None
    } else {
        let (name, value) = match split_once(e, 0x3du8) {
            Some(p) => p,
            None => (e, Seq::<u8>::empty()),
        };
        Some((trim(name), unquoted(trim(value))))
    }
}

/// The pairs a sequence of entries holds, blank entries skipped.
pub open spec fn pairs_of(entries: Seq<Seq<u8>>) -> Seq<(Seq<u8>, Seq<u8>)>
    decreases entries.len(),
{
    if entries.len() == 0 {
        Seq::empty()
    } else {
        let rest = pairs_of(entries.drop_last());
        match pair_of(entries.last()) {
            Some(p) => rest.push(p),
            None => rest,
        }
    }
}

/// The jar the `Cookie` field values hold: each readable one split on `;`,
/// concatenated in order. A value that is not printable ASCII is skipped.
pub open spec fn jar_of(values: Seq<Seq<u8>>) -> Seq<(Seq<u8>, Seq<u8>)>
    decreases values.len(),
{
    if values.len() == 0 {
        Seq::empty()
    } else {
        let rest = jar_of(values.drop_last());
        if all_visible(values.last()) {
            rest + pairs_of(split(values.last(), 0x3bu8))
        } else {
            rest
        }
    }
}

/// The views of a list of pairs.
pub open spec fn pair_views(v: Seq<(Vec<u8>, Vec<u8>)>) -> Seq<(Seq<u8>, Seq<u8>)> {
    v.map_values(|p: (Vec<u8>, Vec<u8>)| (p.0@, p.1@))
}

/// The first value filed under `name` in a jar.
pub open spec fn lookup(jar: Seq<(Seq<u8>, Seq<u8>)>, name: Seq<u8>) -> Option<Seq<u8>>
    decreases jar.len(),
{
    if jar.len() == 0 {
        None
    } else if jar[0].0 == name {
        Some(jar[0].1)
    } else {
        lookup(jar.drop_first(), name)
    }
}

/// The pair one entry holds.
fn read_pair(entry: &[u8]) -> (r: Option<(Vec<u8>, Vec<u8>)>)
    ensures
        match r {
            Some(p) => pair_of(entry@) == Some((p.0@, p.1@)),
            None => pair_of(entry@) is None,
        },
{
    let e = trim_bytes(entry);
    if e.len() == 0 {
        return None;
    }
    let (name, value) = match split_once_bytes(e.as_slice(), 0x3d) {
        Some(p) => p,
        None => (e, Vec::new()),
    };
    let name = trim_bytes(name.as_slice());
    let value = trim_bytes(value.as_slice());
    let n = value.len();
    if n >= 2 && value[0] == 0x22 && value[n - 1] == 0x22 {
        let inner = slice_to_vec(&value.as_slice()[1..n - 1]);
        assert(inner@ =~= value@.subrange(1, n - 1));
        Some((name, inner))
    } else {
        Some((name, value))
    }
}

/// Every `name=value` pair the request's `Cookie` fields carry, in order.
///
/// A request may carry more than one `Cookie` field and each may hold more
/// than one pair, so the jar is the concatenation of both. A field that is
/// not printable ASCII is skipped rather than failing the whole jar. A quoted
/// value is unwrapped, and a pair with no `=` is a name with an empty value.
pub fn jar(headers: &Fields) -> (r: Vec<(Vec<u8>, Vec<u8>)>)
    ensures
        pair_views(r@) == jar_of(values_of(headers@, ascii("cookie"@))),
{
    let name: [u8; 6] = [0x63, 0x6f, 0x6f, 0x6b, 0x69, 0x65];
    proof {
        reveal_strlit("cookie");
        assert(name@ =~= ascii("cookie"@));
    }
    let values = headers.get_all(&name);
    let ghost vs = views(values@);
    let mut out: Vec<(Vec<u8>, Vec<u8>)> = Vec::new();
    let mut i: usize = 0;
    while i < values.len()
        invariant
            0 <= i <= values.len(),
            vs == views(values@),
            pair_views(out@) == jar_of(vs.take(i as int)),
        decreases values.len() - i,
    {
        assert(vs.take(i + 1).drop_last() =~= vs.take(i as int));
        assert(vs[i as int] == values@[i as int]@);
        if visible(values[i].as_slice()) {
            let entries = split_bytes(values[i].as_slice(), 0x3b);
            let ghost es = views(entries@);
            let ghost base = pair_views(out@);
            let mut j: usize = 0;
            while j < entries.len()
                invariant
                    0 <= j <= entries.len(),
                    es == views(entries@),
                    pair_views(out@) == base + pairs_of(es.take(j as int)),
                decreases entries.len() - j,
            {
                assert(es.take(j + 1).drop_last() =~= es.take(j as int));
                assert(es[j as int] == entries@[j as int]@);
                let ghost before = pair_views(out@);
                match read_pair(entries[j].as_slice()) {
                    Some(p) => {
                        out.push(p);
                        assert(pair_views(out@) =~= before.push((p.0@, p.1@)));
                    },
                    None => {},
                }
                j = j + 1;
            }
            assert(es.take(entries.len() as int) =~= es);
        }
        i = i + 1;
    }
    assert(vs.take(values.len() as int) =~= vs);
    out
}

/// The first value filed under `name`.
///
/// The first rather than the last: RFC 6265 section 5.4 orders a jar by
/// specificity, so the earlier of two same-named cookies is the one for the
/// more specific path.
pub fn value_of(headers: &Fields, name: &[u8]) -> (r: Option<Vec<u8>>)
    ensures
        match r {
            Some(v) => lookup(jar_of(values_of(headers@, ascii("cookie"@))), name@) == Some(v@),
            None => lookup(jar_of(values_of(headers@, ascii("cookie"@))), name@) is None,
        },
{
    let all = jar(headers);
    let ghost pv = pair_views(all@);
    assert(pv.skip(0) =~= pv);
    let mut i: usize = 0;
    while i < all.len()
        invariant
            0 <= i <= all.len(),
            pv == pair_views(all@),
            pv == jar_of(values_of(headers@, ascii("cookie"@))),
            lookup(pv, name@) == lookup(pv.skip(i as int), name@),
        decreases all.len() - i,
    {
        let ghost rest = pv.skip(i as int);
        assert(rest[0] == (all@[i as int].0@, all@[i as int].1@));
        if bytes_eq(all[i].0.as_slice(), name) {
            let v = slice_to_vec(all[i].1.as_slice());
            assert(rest.len() > 0);
            assert(lookup(rest, name@) == Some(v@));
            return Some(v);
        }
        assert(rest.drop_first() =~= pv.skip(i + 1));
        i = i + 1;
    }
    assert(pv.skip(all.len() as int).len() == 0);
    None
}

} // verus!
