//! Middleware: what each interceptor decides, and the declarations that keep
//! two of them from colliding.
//!
//! An interceptor here is its configuration and the decision it takes for one
//! exchange: given what arrived, what it answers with or what it adds. Driving
//! the exchange itself — awaiting the rest of the chain, reading a body — is
//! the server's.

pub mod stack;
pub mod rate_limit;
pub mod security_headers;
pub mod compression;
pub mod decompression;
pub mod csrf;
pub mod conditional;
pub mod cache;
pub mod cors;
pub mod limits;
pub mod request_id;
pub mod cookies;
pub mod catch_panic;

use vstd::prelude::*;

use crate::fields::{text_value, without, Fields};
use crate::octets::lower;
use crate::octets::{
    all_field_bytes, any_trimmed, ascii, contains_ignore_case, eq_ignore_case, field_bytes, has_ignore_case,
    has_trimmed, items, join, join_bytes, list_items, split, split_bytes, strs_bytes,
    strs_to_vecs, views,
};

verus! {

/// An interceptor configured with a combination it cannot honour.
#[derive(Clone, Copy, Debug, PartialEq, Eq)]
pub enum MiddlewareError {
    /// A CORS configuration permitted every origin and credentials together,
    /// which the protocol forbids.
    CredentialedWildcardOrigin,
    /// A CORS configuration exposed every response header and permitted
    /// credentials, which the protocol reads as exposing a header literally
    /// named `*`.
    CredentialedWildcardExposure,
}

/// `acc` with each of `names` added unless a member already equals it
/// ignoring case.
pub open spec fn add_missing(acc: Seq<Seq<u8>>, names: Seq<Seq<u8>>) -> Seq<Seq<u8>>
    decreases names.len(),
{
    if names.len() == 0 {
        acc
    } else {
        let a = add_missing(acc, names.drop_last());
        if contains_ignore_case(a, names.last()) {
            a
        } else {
            a.push(names.last())
        }
    }
}

/// The header block after `names` are merged into its `Vary`.
///
/// `Vary` is an unordered set of field names (RFC 9110 section 12.5.5), so the
/// names already present stay, a name present in another spelling is not added
/// again, and `Vary: *` absorbs every addition. A merged value that cannot be a
/// field value leaves the block as it was.
pub open spec fn varied(entries: Seq<(Seq<u8>, Seq<u8>)>, names: Seq<Seq<u8>>) -> Seq<
    (Seq<u8>, Seq<u8>),
> {
    let vary = ascii("vary"@);
    let existing = match text_value(entries, vary) {
        Some(v) => v,
        None => Seq::empty(),
    };
    let pieces = split(existing, 0x2cu8);
    if names.len() == 0 || any_trimmed(pieces, ascii("*"@)) {
        entries
    } else {
        let joined = join(add_missing(items(pieces), names), ascii(", "@));
        if all_field_bytes(joined) {
            without(entries, vary).push((vary, joined))
        } else {
            entries
        }
    }
}

/// Whether no two members of `list` are the same name in different cases.
pub open spec fn distinct_ignoring_case(list: Seq<Seq<u8>>) -> bool {
    forall|i: int, j: int|
        0 <= i < j < list.len() ==> !eq_ignore_case(#[trigger] list[i], #[trigger] list[j])
}

/// A union of `Vary` names keeps every name already present, in place: the
/// names it adds come after them.
pub proof fn a_vary_union_keeps_the_names_already_present(acc: Seq<Seq<u8>>, names: Seq<Seq<u8>>)
    ensures
        add_missing(acc, names).len() >= acc.len(),
        add_missing(acc, names).take(acc.len() as int) == acc,
    decreases names.len(),
{
    if names.len() > 0 {
        a_vary_union_keeps_the_names_already_present(acc, names.drop_last());
        let a = add_missing(acc, names.drop_last());
        if !contains_ignore_case(a, names.last()) {
            assert(a.push(names.last()).take(acc.len() as int) =~= a.take(acc.len() as int));
        }
    }
}

/// A union of `Vary` names ends up naming every name added, in some case.
pub proof fn a_vary_union_names_every_name_added(acc: Seq<Seq<u8>>, names: Seq<Seq<u8>>)
    ensures
        forall|i: int| 0 <= i < names.len() ==> contains_ignore_case(add_missing(acc, names), #[trigger] names[i]),
    decreases names.len(),
{
    if names.len() > 0 {
        a_vary_union_names_every_name_added(acc, names.drop_last());
        a_vary_union_keeps_the_names_already_present(add_missing(acc, names.drop_last()), seq![names.last()]);
        let a = add_missing(acc, names.drop_last());
        let b = add_missing(acc, names);
        assert forall|i: int| 0 <= i < names.len() implies contains_ignore_case(b, #[trigger] names[i]) by {
            if i < names.len() - 1 {
                assert(names.drop_last()[i] == names[i]);
                assert(contains_ignore_case(a, names[i]));
                let k = choose|k: int| 0 <= k < a.len() && eq_ignore_case(#[trigger] a[k], names[i]);
                if !contains_ignore_case(a, names.last()) {
                    assert(b[k] == a[k]);
                }
            } else {
                if !contains_ignore_case(a, names.last()) {
                    assert(b[a.len() as int] == names.last());
                }
            }
        }
    }
}

/// A union of `Vary` names adds no name twice, whatever its case: where the
/// names present are distinct, so are the names after it.
pub proof fn a_vary_union_adds_no_name_twice(acc: Seq<Seq<u8>>, names: Seq<Seq<u8>>)
    requires
        distinct_ignoring_case(acc),
    ensures
        distinct_ignoring_case(add_missing(acc, names)),
    decreases names.len(),
{
    if names.len() > 0 {
        a_vary_union_adds_no_name_twice(acc, names.drop_last());
        let a = add_missing(acc, names.drop_last());
        if !contains_ignore_case(a, names.last()) {
            let b = a.push(names.last());
            assert forall|i: int, j: int| 0 <= i < j < b.len() implies !eq_ignore_case(#[trigger] b[i], #[trigger] b[j]) by {
                if j == b.len() - 1 {
                    assert(b[i] == a[i]);
                    if eq_ignore_case(a[i], names.last()) {
                        assert(contains_ignore_case(a, names.last()));
                    }
                } else {
                    assert(b[i] == a[i] && b[j] == a[j]);
                }
            }
        }
    }
}

/// `Vary: *` absorbs every name added to it: the head is left as it was.
pub proof fn a_wildcard_vary_absorbs_every_name(entries: Seq<(Seq<u8>, Seq<u8>)>, names: Seq<Seq<u8>>)
    requires
        text_value(entries, ascii("vary"@)) matches Some(v) && any_trimmed(split(v, 0x2cu8), ascii("*"@)),
    ensures
        varied(entries, names) == entries,
{
}

/// Merging no names leaves the head as it was: a group that varies on
/// nothing writes no `Vary`.
pub proof fn varying_on_nothing_changes_nothing(entries: Seq<(Seq<u8>, Seq<u8>)>)
    ensures
        varied(entries, Seq::empty()) == entries,
{
}

/// The octets of each field line of a list.
pub open spec fn line_views(lines: Seq<(Vec<u8>, Vec<u8>)>) -> Seq<(Seq<u8>, Seq<u8>)> {
    lines.map_values(|f: (Vec<u8>, Vec<u8>)| (f.0@, f.1@))
}

/// The block `entries` becomes once a group writes `lines`: each line added
/// after the others where the group's field may repeat, and otherwise
/// replacing whatever its name carried.
pub open spec fn written(
    entries: Seq<(Seq<u8>, Seq<u8>)>,
    lines: Seq<(Seq<u8>, Seq<u8>)>,
    repeatable: bool,
) -> Seq<(Seq<u8>, Seq<u8>)>
    decreases lines.len(),
{
    if lines.len() == 0 {
        entries
    } else {
        let prior = written(entries, lines.drop_last(), repeatable);
        let line = lines.last();
        if repeatable {
            prior.push((lower(line.0), line.1))
        } else {
            without(prior, line.0).push((lower(line.0), line.1))
        }
    }
}

/// Writes a header group's `lines` onto a response's fields — appended where
/// the group's field may repeat, each replacing its name's value otherwise —
/// and merges the names the group `varies` on into `Vary`.
pub fn write_group(fields: &mut Fields, lines: &Vec<(Vec<u8>, Vec<u8>)>, repeatable: bool, varies: &[&str])
    ensures
        final(fields)@ == varied(written(old(fields)@, line_views(lines@), repeatable), strs_bytes(varies@)),
{
    let ghost start = fields@;
    let mut i: usize = 0;
    while i < lines.len()
        invariant
            0 <= i <= lines.len(),
            fields@ == written(start, line_views(lines@).take(i as int), repeatable),
        decreases lines.len() - i,
    {
        let ghost taken = line_views(lines@).take(i + 1);
        assert(taken.drop_last() =~= line_views(lines@).take(i as int));
        assert(taken.last() == (lines@[i as int].0@, lines@[i as int].1@));
        if repeatable {
            fields.append(lines[i].0.as_slice(), lines[i].1.as_slice());
        } else {
            fields.insert(lines[i].0.as_slice(), lines[i].1.as_slice());
        }
        i = i + 1;
    }
    assert(line_views(lines@).take(lines.len() as int) =~= line_views(lines@));
    vary_on(fields, varies);
}

/// Merges `names` into whatever `Vary` a response already carries.
pub fn vary_on(fields: &mut Fields, names: &[&str])
    ensures
        final(fields)@ == varied(old(fields)@, strs_bytes(names@)),
{
    proof {
        reveal_strlit("vary");
        reveal_strlit("*");
        reveal_strlit(", ");
    }
    if names.len() == 0 {
        return;
    }
    let vary: [u8; 4] = [0x76, 0x61, 0x72, 0x79];
    assert(vary@ =~= ascii("vary"@));
    let existing = match fields.get_text(&vary) {
        Some(v) => v,
        None => Vec::new(),
    };
    let pieces = split_bytes(existing.as_slice(), 0x2c);
    let star: [u8; 1] = [0x2a];
    assert(star@ =~= ascii("*"@));
    if has_trimmed(&pieces, &star) {
        return;
    }
    let mut merged = list_items(existing.as_slice(), 0x2c);
    let wanted = strs_to_vecs(names);
    let ghost ws = views(wanted@);
    let ghost base = views(merged@);
    let mut i: usize = 0;
    while i < wanted.len()
        invariant
            0 <= i <= wanted.len(),
            ws == views(wanted@),
            views(merged@) == add_missing(base, ws.take(i as int)),
        decreases wanted.len() - i,
    {
        assert(ws.take(i + 1).drop_last() =~= ws.take(i as int));
        assert(ws[i as int] == wanted@[i as int]@);
        if !has_ignore_case(&merged, wanted[i].as_slice()) {
            let ghost before = views(merged@);
            let w = crate::octets::slice_to_vec(wanted[i].as_slice());
            merged.push(w);
            assert(views(merged@) =~= before.push(ws[i as int]));
        }
        i = i + 1;
    }
    assert(ws.take(wanted.len() as int) =~= ws);
    let sep: [u8; 2] = [0x2c, 0x20];
    assert(sep@ =~= ascii(", "@));
    let joined = join_bytes(&merged, &sep);
    if field_bytes(joined.as_slice()) {
        fields.insert(&vary, joined.as_slice());
        assert(crate::octets::lower(vary@) =~= vary@);
    }
}

} // verus!
