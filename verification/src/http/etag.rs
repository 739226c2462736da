//! Entity tags: reading a list of them, and the two ways to compare two.
//!
//! RFC 9110 section 8.8.3:
//!
//! ```text
//! entity-tag = [ weak ] opaque-tag
//! weak       = %s"W/"
//! opaque-tag = DQUOTE *etagc DQUOTE
//! etagc      = %x21 / %x23-7E / obs-text
//! ```
//!
//! `etagc` admits `,`, so a comma inside the quotes is part of the tag and
//! only a comma outside them separates two. The quotes are the delimiter.

use vstd::prelude::*;

use crate::octets::{
    all_space, append_bytes, bytes_eq, has_prefix, is_space, lemma_trim_text_idempotent,
    lemma_trim_text_padded, slice_to_vec, starts_with, trim_text, trim_text_bytes, views,
};

verus! {

/// An entity tag a handler attaches to its own response.
#[derive(Clone, Debug, PartialEq, Eq)]
pub struct ETag {
    /// The tag, without quotes or a weakness marker.
    pub value: String,
    /// Whether the tag is weak.
    pub weak: bool,
}

/// Whether `b` may stand inside an `opaque-tag` this crate writes: printable
/// ASCII other than the double quote.
pub open spec fn is_etagc(b: u8) -> bool {
    0x21u8 <= b && b <= 0x7eu8 && b != 0x22u8
}

/// The field value an entity tag renders as, where it can be one.
pub open spec fn encoded(value: Seq<u8>, weak: bool) -> Option<Seq<u8>> {
    if forall|k: int| 0 <= k < value.len() ==> is_etagc(#[trigger] value[k]) {
        let marker = if weak {
            seq![0x57u8, 0x2fu8]
        } else {
            Seq::<u8>::empty()
        };
        Some(marker + seq![0x22u8] + value + seq![0x22u8])
    } else {
        None
    }
}

impl ETag {
    /// A strong tag: the representation is byte-for-byte this one.
    pub fn strong(value: &str) -> (r: ETag)
        ensures
            r.value@ == value@,
            !r.weak,
    {
        ETag { value: value.to_owned(), weak: false }
    }

    /// A weak tag: the representation is equivalent, not identical.
    pub fn weak(value: &str) -> (r: ETag)
        ensures
            r.value@ == value@,
            r.weak,
    {
        ETag { value: value.to_owned(), weak: true }
    }

    /// The field value: `W/` for a weak tag, then the value in quotes.
    ///
    /// `None` where the value holds an octet `etagc` does not admit.
    pub fn encode(&self) -> (r: Option<Vec<u8>>)
        ensures
            match r {
                Some(v) => encoded(vstd::utf8::encode_utf8(self.value@), self.weak) == Some(v@),
                None => encoded(vstd::utf8::encode_utf8(self.value@), self.weak) is None,
            },
    {
        let bytes = self.value.as_str().as_bytes();
        let mut i: usize = 0;
        while i < bytes.len()
            invariant
                0 <= i <= bytes.len(),
                bytes@ == vstd::utf8::encode_utf8(self.value@),
                forall|k: int| 0 <= k < i ==> is_etagc(#[trigger] bytes@[k]),
            decreases bytes.len() - i,
        {
            let b = bytes[i];
            if !(0x21 <= b && b <= 0x7e && b != 0x22) {
                assert(!is_etagc(bytes@[i as int]));
                assert(bytes@ == vstd::utf8::encode_utf8(self.value@));
                return None;
            }
            i = i + 1;
        }
        let mut out: Vec<u8> = Vec::new();
        if self.weak {
            out.push(0x57);
            out.push(0x2f);
        }
        out.push(0x22);
        append_bytes(&mut out, bytes);
        out.push(0x22);
        let ghost marker = if self.weak {
            seq![0x57u8, 0x2fu8]
        } else {
            Seq::<u8>::empty()
        };
        assert(out@ =~= marker + seq![0x22u8] + bytes@ + seq![0x22u8]);
        Some(out)
    }
}

/// `*`, which matches any current representation the server has.
pub const ANY: &'static str = "*";

/// The list scan after `s`: the members finished so far, the member being
/// read, and whether a quoted tag is open.
pub open spec fn scan(s: Seq<u8>) -> (Seq<Seq<u8>>, Seq<u8>, bool)
    decreases s.len(),
{
    if s.len() == 0 {
        (Seq::empty(), Seq::empty(), false)
    } else {
        let (done, cur, quoted) = scan(s.drop_last());
        let b = s.last();
        if b == 0x22u8 {
            (done, cur.push(b), !quoted)
        } else if b == 0x2cu8 && !quoted {
            (keep(done, cur), Seq::empty(), quoted)
        } else {
            (done, cur.push(b), quoted)
        }
    }
}

/// `done` with `piece`, trimmed, added unless it is blank.
pub open spec fn keep(done: Seq<Seq<u8>>, piece: Seq<u8>) -> Seq<Seq<u8>> {
    if trim_text(piece).len() > 0 {
        done.push(trim_text(piece))
    } else {
        done
    }
}

/// The members of a `1#entity-tag` field value, trimmed, blank ones dropped,
/// split only at commas outside quotes.
pub open spec fn members(s: Seq<u8>) -> Seq<Seq<u8>> {
    let (done, cur, _quoted) = scan(s);
    keep(done, cur)
}

/// Adds `piece`, trimmed, to `out` unless it is blank.
fn keep_piece(out: &mut Vec<Vec<u8>>, piece: &[u8])
    ensures
        views(final(out)@) == keep(views(old(out)@), piece@),
{
    let t = trim_text_bytes(piece);
    if t.len() > 0 {
        let ghost before = views(out@);
        out.push(t);
        assert(views(out@) =~= before.push(trim_text(piece@)));
    }
}

/// The members of a `1#entity-tag` field value, trimmed.
///
/// Quote-aware: a comma inside a quoted tag belongs to it. A blank element is
/// dropped rather than refused, as RFC 9110 section 5.6.1.2 asks. Tags joined
/// by separators come back as the same tags
/// ([`splitting_joined_tags_gives_them_back`]), and every member is trimmed
/// and non-empty ([`split_members_are_trimmed`]).
pub fn split(text: &[u8]) -> (r: Vec<Vec<u8>>)
    ensures
        views(r@) == members(text@),
{
    let mut out: Vec<Vec<u8>> = Vec::new();
    let mut cur: Vec<u8> = Vec::new();
    let mut quoted = false;
    let mut i: usize = 0;
    while i < text.len()
        invariant
            0 <= i <= text.len(),
            (views(out@), cur@, quoted) == scan(text@.take(i as int)),
        decreases text.len() - i,
    {
        assert(text@.take(i + 1).drop_last() =~= text@.take(i as int));
        let b = text[i];
        if b == 0x22 {
            cur.push(b);
            quoted = !quoted;
        } else if b == 0x2c && !quoted {
            keep_piece(&mut out, cur.as_slice());
            cur = Vec::new();
        } else {
            cur.push(b);
        }
        i = i + 1;
    }
    assert(text@.take(text.len() as int) =~= text@);
    keep_piece(&mut out, cur.as_slice());
    out
}

/// Whether `tag` is an `entity-tag`: an optional `W/`, then an opaque tag in
/// double quotes with no double quote inside.
pub open spec fn entity_tag(tag: Seq<u8>) -> bool {
    let body = opaque_tag(tag);
    &&& body.len() >= 2
    &&& body[0] == 0x22u8
    &&& body.last() == 0x22u8
    &&& forall|k: int| 1 <= k < body.len() - 1 ==> #[trigger] body[k] != 0x22u8
}

/// Whether `sep` separates two list members: one comma, with nothing but
/// whitespace before and after it, such as `,`, `, `, ` ,`, ` , ` or `,\t`.
pub open spec fn list_separator(sep: Seq<u8>) -> bool {
    exists|k: int|
        0 <= k < sep.len() && #[trigger] sep[k] == 0x2cu8 && all_space(sep.take(k)) && all_space(
            sep.skip(k + 1),
        )
}

/// Tags written one after another, `seps[i]` between `tags[i]` and
/// `tags[i + 1]`.
pub open spec fn joined(tags: Seq<Seq<u8>>, seps: Seq<Seq<u8>>) -> Seq<u8>
    decreases tags.len(),
{
    if tags.len() == 0 {
        Seq::empty()
    } else if tags.len() == 1 {
        tags[0]
    } else {
        joined(tags.drop_last(), seps) + seps[tags.len() - 2] + tags.last()
    }
}

/// The whitespace after the comma of a separator.
spec fn after_comma(sep: Seq<u8>) -> Seq<u8> {
    let k = choose|k: int|
        0 <= k < sep.len() && #[trigger] sep[k] == 0x2cu8 && all_space(sep.take(k)) && all_space(
            sep.skip(k + 1),
        );
    sep.skip(k + 1)
}

/// Octets that neither open or close a quote nor, outside quotes, end a
/// member only lengthen the member being read.
proof fn lemma_scan_plain(s: Seq<u8>, t: Seq<u8>)
    requires
        forall|k: int|
            0 <= k < t.len() ==> #[trigger] t[k] != 0x22u8 && (scan(s).2 || t[k] != 0x2cu8),
    ensures
        scan(s + t) == (scan(s).0, scan(s).1 + t, scan(s).2),
    decreases t.len(),
{
    if t.len() == 0 {
        assert(s + t =~= s);
        assert(scan(s).1 + t =~= scan(s).1);
    } else {
        let u = t.drop_last();
        lemma_scan_plain(s, u);
        assert((s + t).drop_last() =~= s + u);
        assert((s + t).last() == t.last());
        assert(t[t.len() - 1] == t.last());
        assert((scan(s).1 + u).push(t.last()) =~= scan(s).1 + t);
    }
}

/// An entity tag starts and ends with a printable ASCII character: `W` or a
/// double quote, and a double quote.
proof fn lemma_entity_tag_edges(t: Seq<u8>)
    requires
        entity_tag(t),
    ensures
        t.len() > 0,
        t[0] == 0x57u8 || t[0] == 0x22u8,
        t.last() == 0x22u8,
{
    if weak_tag(t) {
        assert(t.skip(2)[0] == t[2]);
        assert(t.skip(2).last() == t.last());
    }
}

/// Reading an entity tag outside quotes adds it whole to the member being
/// read, commas inside its quotes included, and leaves the quotes closed.
proof fn lemma_scan_tag(s: Seq<u8>, t: Seq<u8>)
    requires
        !scan(s).2,
        entity_tag(t),
    ensures
        scan(s + t) == (scan(s).0, scan(s).1 + t, false),
{
    let marker = if weak_tag(t) {
        t.take(2)
    } else {
        Seq::<u8>::empty()
    };
    let body = opaque_tag(t);
    assert(t =~= marker + body);
    let inner = body.subrange(1, body.len() - 1);
    assert(body =~= seq![0x22u8] + inner + seq![0x22u8]);
    assert forall|k: int| 0 <= k < marker.len() implies #[trigger] marker[k] != 0x22u8 && (scan(
        s,
    ).2 || marker[k] != 0x2cu8) by {
        assert(marker[k] == t[k]);
    }
    lemma_scan_plain(s, marker);
    let s1 = s + marker;
    let s2 = s1.push(0x22u8);
    assert(s2.drop_last() =~= s1);
    assert(scan(s2) == (scan(s).0, (scan(s).1 + marker).push(0x22u8), true));
    assert forall|k: int| 0 <= k < inner.len() implies #[trigger] inner[k] != 0x22u8 && (scan(
        s2,
    ).2 || inner[k] != 0x2cu8) by {
        assert(inner[k] == body[k + 1]);
    }
    lemma_scan_plain(s2, inner);
    let s3 = s2 + inner;
    let s4 = s3.push(0x22u8);
    assert(s4.drop_last() =~= s3);
    assert(s + t =~= s4);
    assert(((scan(s).1 + marker).push(0x22u8) + inner).push(0x22u8) =~= scan(s).1 + t);
}

/// Reading a joined list leaves every tag but the last finished, and the
/// last one, after the whitespace that follows the comma before it, being
/// read.
proof fn lemma_scan_joined(tags: Seq<Seq<u8>>, seps: Seq<Seq<u8>>)
    requires
        tags.len() >= 1,
        seps.len() + 1 >= tags.len(),
        forall|i: int| 0 <= i < tags.len() ==> entity_tag(#[trigger] tags[i]),
        forall|i: int| 0 <= i < seps.len() ==> list_separator(#[trigger] seps[i]),
    ensures
        scan(joined(tags, seps)) == (tags.drop_last(), (if tags.len() == 1 {
            Seq::<u8>::empty()
        } else {
            after_comma(seps[tags.len() - 2])
        }) + tags.last(), false),
        tags.len() > 1 ==> all_space(after_comma(seps[tags.len() - 2])),
    decreases tags.len(),
{
    let n = tags.len();
    let t = tags.last();
    assert(entity_tag(tags[n - 1]));
    if n == 1 {
        let e = Seq::<u8>::empty();
        assert(scan(e) == (Seq::<Seq<u8>>::empty(), e, false));
        lemma_scan_tag(e, t);
        assert(e + t =~= t);
        assert(tags.drop_last() =~= Seq::<Seq<u8>>::empty());
    } else {
        let p = tags.drop_last();
        assert forall|i: int| 0 <= i < p.len() implies entity_tag(#[trigger] p[i]) by {
            assert(p[i] == tags[i]);
        }
        lemma_scan_joined(p, seps);
        let lead = if p.len() == 1 {
            Seq::<u8>::empty()
        } else {
            after_comma(seps[p.len() - 2])
        };
        let sep = seps[n - 2];
        assert(list_separator(sep));
        let k = choose|k: int|
            0 <= k < sep.len() && #[trigger] sep[k] == 0x2cu8 && all_space(sep.take(k)) && all_space(
                sep.skip(k + 1),
            );
        let pre = sep.take(k);
        let post = sep.skip(k + 1);
        assert(post == after_comma(sep));
        assert(sep =~= pre + seq![0x2cu8] + post);
        let j = joined(p, seps);
        assert forall|i: int| 0 <= i < pre.len() implies #[trigger] pre[i] != 0x22u8 && (scan(
            j,
        ).2 || pre[i] != 0x2cu8) by {
            assert(is_space(pre[i]));
        }
        lemma_scan_plain(j, pre);
        let x = j + pre;
        let y = x.push(0x2cu8);
        assert(y.drop_last() =~= x);
        let last = p.last();
        assert(entity_tag(p[p.len() - 1]));
        lemma_entity_tag_edges(last);
        lemma_trim_text_padded(lead, last, pre);
        assert(trim_text(lead + last + pre) == last);
        assert(p.drop_last().push(last) =~= p);
        assert(scan(y) == (p, Seq::<u8>::empty(), false));
        assert forall|i: int| 0 <= i < post.len() implies #[trigger] post[i] != 0x22u8 && (scan(
            y,
        ).2 || post[i] != 0x2cu8) by {
            assert(is_space(post[i]));
        }
        lemma_scan_plain(y, post);
        assert(Seq::<u8>::empty() + post =~= post);
        lemma_scan_tag(y + post, t);
        assert(joined(tags, seps) =~= y + post + t);
    }
}

/// Splitting a list written from entity tags, one separator between each
/// two, gives those tags back in order: a comma inside a tag's quotes never
/// splits it.
pub proof fn splitting_joined_tags_gives_them_back(tags: Seq<Seq<u8>>, seps: Seq<Seq<u8>>)
    requires
        tags.len() >= 1,
        seps.len() + 1 == tags.len(),
        forall|i: int| 0 <= i < tags.len() ==> entity_tag(#[trigger] tags[i]),
        forall|i: int| 0 <= i < seps.len() ==> list_separator(#[trigger] seps[i]),
    ensures
        members(joined(tags, seps)) == tags,
{
    lemma_scan_joined(tags, seps);
    let n = tags.len();
    let lead = if n == 1 {
        Seq::<u8>::empty()
    } else {
        after_comma(seps[n - 2])
    };
    let t = tags.last();
    assert(entity_tag(tags[n - 1]));
    lemma_entity_tag_edges(t);
    lemma_trim_text_padded(lead, t, Seq::<u8>::empty());
    assert(lead + t + Seq::<u8>::empty() =~= lead + t);
    assert(tags.drop_last().push(t) =~= tags);
}

/// Whether every member is non-empty and trimmed.
pub open spec fn all_trimmed(ms: Seq<Seq<u8>>) -> bool {
    forall|i: int|
        0 <= i < ms.len() ==> (#[trigger] ms[i]).len() > 0 && trim_text(ms[i]) == ms[i]
}

/// Keeping a piece keeps every member non-empty and trimmed.
proof fn lemma_keep_trimmed(done: Seq<Seq<u8>>, piece: Seq<u8>)
    requires
        all_trimmed(done),
    ensures
        all_trimmed(keep(done, piece)),
{
    lemma_trim_text_idempotent(piece);
}

/// Every member the scan has finished is non-empty and trimmed.
proof fn lemma_scan_trimmed(s: Seq<u8>)
    ensures
        all_trimmed(scan(s).0),
    decreases s.len(),
{
    if s.len() > 0 {
        lemma_scan_trimmed(s.drop_last());
        let (done, cur, _quoted) = scan(s.drop_last());
        lemma_keep_trimmed(done, cur);
    }
}

/// Whatever the text, every member a split gives is non-empty and trimmed.
pub proof fn split_members_are_trimmed(s: Seq<u8>)
    ensures
        all_trimmed(members(s)),
{
    lemma_scan_trimmed(s);
    lemma_keep_trimmed(scan(s).0, scan(s).1);
}

/// Whether `tag` carries the weakness marker `W/`.
pub open spec fn weak_tag(tag: Seq<u8>) -> bool {
    starts_with(tag, seq![0x57u8, 0x2fu8])
}

/// A tag's `opaque-tag`: itself with any weakness marker removed.
pub open spec fn opaque_tag(tag: Seq<u8>) -> Seq<u8> {
    if weak_tag(tag) {
        tag.skip(2)
    } else {
        tag
    }
}

/// Whether `tag` carries the weakness marker.
pub fn is_weak(tag: &[u8]) -> (r: bool)
    ensures
        r == weak_tag(tag@),
{
    let marker: [u8; 2] = [0x57, 0x2f];
    assert(marker@ =~= seq![0x57u8, 0x2fu8]);
    has_prefix(tag, &marker)
}

/// A tag's `opaque-tag`, which is itself with any weakness marker removed.
pub fn opaque(tag: &[u8]) -> (r: Vec<u8>)
    ensures
        r@ == opaque_tag(tag@),
{
    if is_weak(tag) {
        let r = slice_to_vec(&tag[2..tag.len()]);
        assert(r@ =~= tag@.skip(2));
        r
    } else {
        slice_to_vec(tag)
    }
}

/// RFC 9110 section 8.8.3.2's weak comparison.
pub open spec fn weak_equivalent(left: Seq<u8>, right: Seq<u8>) -> bool {
    opaque_tag(left) == opaque_tag(right)
}

/// RFC 9110 section 8.8.3.2's strong comparison.
pub open spec fn strong_equivalent(left: Seq<u8>, right: Seq<u8>) -> bool {
    !weak_tag(left) && !weak_tag(right) && left == right
}

/// RFC 9110 section 8.8.3.2's *weak comparison*: the opaque tags match,
/// whatever either side's weakness.
pub fn weak_match(left: &[u8], right: &[u8]) -> (r: bool)
    ensures
        r == weak_equivalent(left@, right@),
{
    let l = opaque(left);
    let r = opaque(right);
    bytes_eq(l.as_slice(), r.as_slice())
}

/// RFC 9110 section 8.8.3.2's *strong comparison*: neither is weak and the
/// two match octet for octet.
pub fn strong_match(left: &[u8], right: &[u8]) -> (r: bool)
    ensures
        r == strong_equivalent(left@, right@),
{
    !is_weak(left) && !is_weak(right) && bytes_eq(left, right)
}

/// Both comparisons are symmetric: the table in RFC 9110 section 8.8.3.2 lists
/// one order of each pair, and the other order answers the same.
pub proof fn comparisons_are_symmetric(left: Seq<u8>, right: Seq<u8>)
    ensures
        weak_equivalent(left, right) == weak_equivalent(right, left),
        strong_equivalent(left, right) == strong_equivalent(right, left),
{
}

/// Strong equivalence is the narrower of the two: every strongly equivalent
/// pair is weakly equivalent too.
pub proof fn strong_implies_weak(left: Seq<u8>, right: Seq<u8>)
    requires
        strong_equivalent(left, right),
    ensures
        weak_equivalent(left, right),
{
}

/// A weak tag satisfies no strong comparison, on either side.
pub proof fn weak_never_matches_strongly(left: Seq<u8>, right: Seq<u8>)
    requires
        weak_tag(left) || weak_tag(right),
    ensures
        !strong_equivalent(left, right),
{
}

} // verus!
