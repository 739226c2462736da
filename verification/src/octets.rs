//! Octet strings: the ASCII operations every header grammar in this crate is
//! read with, each stated over the octets it inspects.
//!
//! A header field value is a sequence of octets, so the readers here work on
//! `&[u8]` and produce `Vec<u8>`. Whitespace is the ASCII whitespace that
//! `str::trim` removes: space and the controls from tab to carriage return.

use vstd::prelude::*;

verus! {

/// The octets of an ASCII text, one per character.
pub open spec fn ascii(s: Seq<char>) -> Seq<u8> {
    s.map_values(|c: char| c as u8)
}

/// Whether `byte` is ASCII whitespace as `char::is_whitespace` reads it.
pub open spec fn is_space(byte: u8) -> bool {
    byte == 0x20u8 || (0x09u8 <= byte && byte <= 0x0du8)
}

/// Executable form of [`is_space`].
pub fn space(byte: u8) -> (r: bool)
    ensures
        r == is_space(byte),
{
    byte == 0x20 || (0x09 <= byte && byte <= 0x0d)
}

/// How many whitespace octets `s` starts with.
pub open spec fn lead(s: Seq<u8>) -> nat
    decreases s.len(),
{
    if s.len() > 0 && is_space(s[0]) {
        1 + lead(s.drop_first())
    } else {
        0
    }
}

/// How many whitespace octets `s` ends with.
pub open spec fn trail(s: Seq<u8>) -> nat
    decreases s.len(),
{
    if s.len() > 0 && is_space(s.last()) {
        1 + trail(s.drop_last())
    } else {
        0
    }
}

/// `s` without its leading and trailing whitespace.
pub open spec fn trim(s: Seq<u8>) -> Seq<u8> {
    let rest = s.skip(lead(s) as int);
    rest.take(rest.len() - trail(rest))
}

pub proof fn lemma_lead_bound(s: Seq<u8>)
    ensures
        lead(s) <= s.len(),
        forall|k: int| 0 <= k < lead(s) ==> is_space(#[trigger] s[k]),
        lead(s) < s.len() ==> !is_space(s[lead(s) as int]),
    decreases s.len(),
{
    if s.len() > 0 && is_space(s[0]) {
        lemma_lead_bound(s.drop_first());
        assert forall|k: int| 0 <= k < lead(s) implies is_space(#[trigger] s[k]) by {
            if k > 0 {
                assert(s[k] == s.drop_first()[k - 1]);
            }
        }
    }
}

pub proof fn lemma_trail_bound(s: Seq<u8>)
    ensures
        trail(s) <= s.len(),
        forall|k: int| s.len() - trail(s) <= k < s.len() ==> is_space(#[trigger] s[k]),
        trail(s) < s.len() ==> !is_space(s[s.len() - trail(s) - 1]),
    decreases s.len(),
{
    if s.len() > 0 && is_space(s.last()) {
        lemma_trail_bound(s.drop_last());
        assert forall|k: int| s.len() - trail(s) <= k < s.len() implies is_space(#[trigger] s[k]) by {
            if k < s.len() - 1 {
                assert(s[k] == s.drop_last()[k]);
            }
        }
    }
}

/// `lead` is the index of the first non-whitespace octet.
pub proof fn lemma_lead_is(s: Seq<u8>, i: int)
    requires
        0 <= i <= s.len(),
        forall|k: int| 0 <= k < i ==> is_space(#[trigger] s[k]),
        i == s.len() || !is_space(s[i]),
    ensures
        lead(s) == i,
    decreases i,
{
    if i > 0 {
        let t = s.drop_first();
        assert forall|k: int| 0 <= k < i - 1 implies is_space(#[trigger] t[k]) by {
            assert(t[k] == s[k + 1]);
        }
        if i < s.len() {
            assert(t[i - 1] == s[i]);
        }
        lemma_lead_is(t, i - 1);
    } else if s.len() > 0 {
        assert(!is_space(s[0]));
    }
}

/// `trail` counts back to the last non-whitespace octet.
pub proof fn lemma_trail_is(s: Seq<u8>, j: int)
    requires
        0 <= j <= s.len(),
        forall|k: int| j <= k < s.len() ==> is_space(#[trigger] s[k]),
        j == 0 || !is_space(s[j - 1]),
    ensures
        trail(s) == s.len() - j,
    decreases s.len() - j,
{
    if j < s.len() {
        let t = s.drop_last();
        assert forall|k: int| j <= k < t.len() implies is_space(#[trigger] t[k]) by {
            assert(t[k] == s[k]);
        }
        if j > 0 {
            assert(t[j - 1] == s[j - 1]);
        }
        assert(is_space(s[s.len() - 1]));
        lemma_trail_is(t, j);
    } else if s.len() > 0 {
        assert(!is_space(s.last()));
    }
}

/// The bounds of `trim(s)` within `s`.
pub open spec fn trim_bounds(s: Seq<u8>, lo: int, hi: int) -> bool {
    &&& 0 <= lo <= hi <= s.len()
    &&& forall|k: int| 0 <= k < lo ==> is_space(#[trigger] s[k])
    &&& forall|k: int| hi <= k < s.len() ==> is_space(#[trigger] s[k])
    &&& lo < hi ==> !is_space(s[lo]) && !is_space(s[hi - 1])
    &&& lo == hi ==> hi == s.len()
}

pub proof fn lemma_trim_by_bounds(s: Seq<u8>, lo: int, hi: int)
    requires
        trim_bounds(s, lo, hi),
    ensures
        trim(s) == s.subrange(lo, hi),
{
    lemma_lead_is(s, lo);
    let rest = s.skip(lo);
    assert forall|k: int| hi - lo <= k < rest.len() implies is_space(#[trigger] rest[k]) by {
        assert(rest[k] == s[k + lo]);
    }
    if hi > lo {
        assert(rest[hi - lo - 1] == s[hi - 1]);
    }
    lemma_trail_is(rest, hi - lo);
    assert(trim(s) =~= s.subrange(lo, hi));
}

/// Whether three octets encode one of the `White_Space` characters whose
/// UTF-8 encoding is three octets long: U+1680, U+2000 to U+200A, U+2028,
/// U+2029, U+202F, U+205F and U+3000.
pub open spec fn wide_space(a: u8, b: u8, c: u8) -> bool {
    (a == 0xe1u8 && b == 0x9au8 && c == 0x80u8) || (a == 0xe2u8 && b == 0x80u8 && ((0x80u8 <= c
        && c <= 0x8au8) || c == 0xa8u8 || c == 0xa9u8 || c == 0xafu8)) || (a == 0xe2u8 && b == 0x81u8
        && c == 0x9fu8) || (a == 0xe3u8 && b == 0x80u8 && c == 0x80u8)
}

/// How many octets the `White_Space` character `s` starts with takes, or
/// zero where it starts with none; U+0085 and U+00A0 take two.
pub open spec fn space_head(s: Seq<u8>) -> nat {
    if s.len() >= 1 && is_space(s[0]) {
        1
    } else if s.len() >= 2 && s[0] == 0xc2u8 && (s[1] == 0x85u8 || s[1] == 0xa0u8) {
        2
    } else if s.len() >= 3 && wide_space(s[0], s[1], s[2]) {
        3
    } else {
        0
    }
}

/// How many octets the `White_Space` character `s` ends with takes, or zero.
pub open spec fn space_tail(s: Seq<u8>) -> nat {
    let n = s.len() as int;
    if n >= 1 && is_space(s[n - 1]) {
        1
    } else if n >= 2 && s[n - 2] == 0xc2u8 && (s[n - 1] == 0x85u8 || s[n - 1] == 0xa0u8) {
        2
    } else if n >= 3 && wide_space(s[n - 3], s[n - 2], s[n - 1]) {
        3
    } else {
        0
    }
}

/// UTF-8 text without its leading `White_Space` characters.
pub open spec fn trim_start_text(s: Seq<u8>) -> Seq<u8>
    decreases s.len(),
{
    if space_head(s) > 0 {
        trim_start_text(s.skip(space_head(s) as int))
    } else {
        s
    }
}

/// UTF-8 text without its trailing `White_Space` characters.
pub open spec fn trim_end_text(s: Seq<u8>) -> Seq<u8>
    decreases s.len(),
{
    if space_tail(s) > 0 {
        trim_end_text(s.take(s.len() - space_tail(s)))
    } else {
        s
    }
}

/// What `str::trim` leaves of UTF-8 text: no `White_Space` character at
/// either end.
pub open spec fn trim_text(s: Seq<u8>) -> Seq<u8> {
    trim_end_text(trim_start_text(s))
}

/// Text that starts and ends with a printable ASCII character is its own
/// trimmed form.
pub proof fn lemma_trim_text_idle(s: Seq<u8>)
    requires
        s.len() > 0,
        s[0] < 0x80u8 && !is_space(s[0]),
        s.last() < 0x80u8 && !is_space(s.last()),
    ensures
        trim_text(s) == s,
{
    assert(space_head(s) == 0);
    assert(space_tail(s) == 0);
}

/// Whether every octet of `s` is ASCII whitespace.
pub open spec fn all_space(s: Seq<u8>) -> bool {
    forall|k: int| 0 <= k < s.len() ==> is_space(#[trigger] s[k])
}

/// Leading whitespace goes, up to text that starts with a printable ASCII
/// character.
proof fn lemma_trim_start_spaces(w: Seq<u8>, x: Seq<u8>)
    requires
        all_space(w),
        x.len() > 0,
        x[0] < 0x80u8 && !is_space(x[0]),
    ensures
        trim_start_text(w + x) == x,
    decreases w.len(),
{
    if w.len() == 0 {
        assert(w + x =~= x);
        assert(space_head(x) == 0);
    } else {
        assert(space_head(w + x) == 1);
        assert((w + x).skip(1) =~= w.drop_first() + x);
        lemma_trim_start_spaces(w.drop_first(), x);
    }
}

/// Trailing whitespace goes, back to text that ends with a printable ASCII
/// character.
proof fn lemma_trim_end_spaces(x: Seq<u8>, w: Seq<u8>)
    requires
        all_space(w),
        x.len() > 0,
        x.last() < 0x80u8 && !is_space(x.last()),
    ensures
        trim_end_text(x + w) == x,
    decreases w.len(),
{
    if w.len() == 0 {
        assert(x + w =~= x);
        assert(space_tail(x) == 0);
    } else {
        let s = x + w;
        assert(s[s.len() - 1] == w.last());
        assert(space_tail(s) == 1);
        assert(s.take(s.len() - 1) =~= x + w.drop_last());
        lemma_trim_end_spaces(x, w.drop_last());
    }
}

/// Whitespace around text that starts and ends with a printable ASCII
/// character is all that trimming removes.
pub proof fn lemma_trim_text_padded(before: Seq<u8>, x: Seq<u8>, after: Seq<u8>)
    requires
        all_space(before),
        all_space(after),
        x.len() > 0,
        x[0] < 0x80u8 && !is_space(x[0]),
        x.last() < 0x80u8 && !is_space(x.last()),
    ensures
        trim_text(before + x + after) == x,
{
    assert(before + x + after =~= before + (x + after));
    assert((x + after)[0] == x[0]);
    lemma_trim_start_spaces(before, x + after);
    lemma_trim_end_spaces(x, after);
}

/// What trimming the start leaves starts with no `White_Space` character.
proof fn lemma_trim_start_head(s: Seq<u8>)
    ensures
        space_head(trim_start_text(s)) == 0,
    decreases s.len(),
{
    if space_head(s) > 0 {
        lemma_trim_start_head(s.skip(space_head(s) as int));
    }
}

/// What trimming the end leaves is a prefix of the text, and ends with no
/// `White_Space` character.
proof fn lemma_trim_end_prefix(s: Seq<u8>)
    ensures
        trim_end_text(s).len() <= s.len(),
        trim_end_text(s) == s.take(trim_end_text(s).len() as int),
        space_tail(trim_end_text(s)) == 0,
    decreases s.len(),
{
    if space_tail(s) > 0 {
        let rest = s.take(s.len() - space_tail(s));
        lemma_trim_end_prefix(rest);
        assert(rest.take(trim_end_text(rest).len() as int) =~= s.take(
            trim_end_text(rest).len() as int,
        ));
    } else {
        assert(s.take(s.len() as int) =~= s);
    }
}

/// A prefix of text that starts with no `White_Space` character starts with
/// none either.
proof fn lemma_prefix_head(s: Seq<u8>, k: int)
    requires
        0 <= k <= s.len(),
        space_head(s) == 0,
    ensures
        space_head(s.take(k)) == 0,
{
}

/// Trimming trimmed text changes nothing.
pub proof fn lemma_trim_text_idempotent(s: Seq<u8>)
    ensures
        trim_text(trim_text(s)) == trim_text(s),
{
    let a = trim_start_text(s);
    lemma_trim_start_head(s);
    lemma_trim_end_prefix(a);
    let b = trim_end_text(a);
    lemma_prefix_head(a, b.len() as int);
    assert(space_head(b) == 0);
    assert(trim_start_text(b) == b);
    assert(trim_end_text(b) == b);
}

/// [`space_head`] of `s[lo..hi]`.
fn head_at(s: &[u8], lo: usize, hi: usize) -> (r: usize)
    requires
        lo <= hi <= s.len(),
    ensures
        r == space_head(s@.subrange(lo as int, hi as int)),
{
    let n = hi - lo;
    if n >= 1 && space(s[lo]) {
        1
    } else if n >= 2 && s[lo] == 0xc2 && (s[lo + 1] == 0x85 || s[lo + 1] == 0xa0) {
        2
    } else if n >= 3 && ((s[lo] == 0xe1 && s[lo + 1] == 0x9a && s[lo + 2] == 0x80) || (s[lo] == 0xe2
        && s[lo + 1] == 0x80 && ((0x80 <= s[lo + 2] && s[lo + 2] <= 0x8a) || s[lo + 2] == 0xa8 || s[lo
        + 2] == 0xa9 || s[lo + 2] == 0xaf)) || (s[lo] == 0xe2 && s[lo + 1] == 0x81 && s[lo + 2] == 0x9f)
        || (s[lo] == 0xe3 && s[lo + 1] == 0x80 && s[lo + 2] == 0x80)) {
        3
    } else {
        0
    }
}

/// [`space_tail`] of `s[lo..hi]`.
fn tail_at(s: &[u8], lo: usize, hi: usize) -> (r: usize)
    requires
        lo <= hi <= s.len(),
    ensures
        r == space_tail(s@.subrange(lo as int, hi as int)),
{
    let n = hi - lo;
    if n >= 1 && space(s[hi - 1]) {
        1
    } else if n >= 2 && s[hi - 2] == 0xc2 && (s[hi - 1] == 0x85 || s[hi - 1] == 0xa0) {
        2
    } else if n >= 3 && ((s[hi - 3] == 0xe1 && s[hi - 2] == 0x9a && s[hi - 1] == 0x80) || (s[hi - 3]
        == 0xe2 && s[hi - 2] == 0x80 && ((0x80 <= s[hi - 1] && s[hi - 1] <= 0x8a) || s[hi - 1] == 0xa8
        || s[hi - 1] == 0xa9 || s[hi - 1] == 0xaf)) || (s[hi - 3] == 0xe2 && s[hi - 2] == 0x81 && s[hi
        - 1] == 0x9f) || (s[hi - 3] == 0xe3 && s[hi - 2] == 0x80 && s[hi - 1] == 0x80)) {
        3
    } else {
        0
    }
}

/// UTF-8 text with the `White_Space` characters at either end removed, as
/// `str::trim` removes them.
pub fn trim_text_bytes(s: &[u8]) -> (r: Vec<u8>)
    ensures
        r@ == trim_text(s@),
{
    let mut lo: usize = 0;
    let mut k = head_at(s, 0, s.len());
    assert(s@.subrange(0, s.len() as int) =~= s@);
    while k > 0
        invariant
            0 <= lo <= s.len(),
            k == space_head(s@.subrange(lo as int, s.len() as int)),
            trim_start_text(s@) == trim_start_text(s@.subrange(lo as int, s.len() as int)),
        decreases s.len() - lo,
    {
        let ghost rest = s@.subrange(lo as int, s.len() as int);
        assert(rest.skip(k as int) =~= s@.subrange(lo + k, s.len() as int));
        lo = lo + k;
        k = head_at(s, lo, s.len());
    }
    let mut hi: usize = s.len();
    let mut j = tail_at(s, lo, hi);
    while j > 0
        invariant
            0 <= lo <= hi <= s.len(),
            j == space_tail(s@.subrange(lo as int, hi as int)),
            trim_text(s@) == trim_end_text(s@.subrange(lo as int, hi as int)),
        decreases hi,
    {
        let ghost kept = s@.subrange(lo as int, hi as int);
        assert(kept.take(kept.len() - j) =~= s@.subrange(lo as int, hi - j));
        hi = hi - j;
        j = tail_at(s, lo, hi);
    }
    slice_to_vec(&s[lo..hi])
}

/// `s` with its surrounding whitespace removed.
pub fn trim_bytes(s: &[u8]) -> (r: Vec<u8>)
    ensures
        r@ == trim(s@),
{
    let mut lo: usize = 0;
    while lo < s.len() && space(s[lo])
        invariant
            0 <= lo <= s.len(),
            forall|k: int| 0 <= k < lo ==> is_space(#[trigger] s@[k]),
        decreases s.len() - lo,
    {
        lo = lo + 1;
    }
    let mut hi: usize = s.len();
    if lo < s.len() {
        while hi > lo && space(s[hi - 1])
            invariant
                lo < s.len(),
                !is_space(s@[lo as int]),
                lo <= hi <= s.len(),
                forall|k: int| hi <= k < s.len() ==> is_space(#[trigger] s@[k]),
            decreases hi,
        {
            hi = hi - 1;
        }
    }
    proof {
        lemma_trim_by_bounds(s@, lo as int, hi as int);
    }
    slice_to_vec(&s[lo..hi])
}

/// A copy of `s`.
pub fn slice_to_vec(s: &[u8]) -> (r: Vec<u8>)
    ensures
        r@ == s@,
{
    let mut r: Vec<u8> = Vec::new();
    let mut i: usize = 0;
    while i < s.len()
        invariant
            0 <= i <= s.len(),
            r@ == s@.take(i as int),
        decreases s.len() - i,
    {
        r.push(s[i]);
        i = i + 1;
        assert(r@ =~= s@.take(i as int));
    }
    assert(s@.take(s.len() as int) =~= s@);
    r
}

/// ASCII lowercase of one octet.
pub open spec fn lower_byte(b: u8) -> u8 {
    if 0x41u8 <= b && b <= 0x5au8 {
        (b + 32) as u8
    } else {
        b
    }
}

/// ASCII lowercase of an octet string.
pub open spec fn lower(s: Seq<u8>) -> Seq<u8> {
    s.map_values(|b: u8| lower_byte(b))
}

/// Executable form of [`lower_byte`].
pub fn to_lower_byte(b: u8) -> (r: u8)
    ensures
        r == lower_byte(b),
{
    if 0x41 <= b && b <= 0x5a {
        b + 32
    } else {
        b
    }
}

/// `s`, ASCII-lowercased.
pub fn to_lower(s: &[u8]) -> (r: Vec<u8>)
    ensures
        r@ == lower(s@),
{
    let mut r: Vec<u8> = Vec::new();
    let mut i: usize = 0;
    while i < s.len()
        invariant
            0 <= i <= s.len(),
            r@ == lower(s@.take(i as int)),
        decreases s.len() - i,
    {
        r.push(to_lower_byte(s[i]));
        i = i + 1;
        assert(r@ =~= lower(s@.take(i as int)));
    }
    assert(s@.take(s.len() as int) =~= s@);
    r
}

/// Whether two octet strings are equal ignoring ASCII case.
pub open spec fn eq_ignore_case(a: Seq<u8>, b: Seq<u8>) -> bool {
    lower(a) == lower(b)
}

/// Executable form of [`eq_ignore_case`].
pub fn eq_ignore_ascii_case(a: &[u8], b: &[u8]) -> (r: bool)
    ensures
        r == eq_ignore_case(a@, b@),
{
    if a.len() != b.len() {
        assert(lower(a@).len() != lower(b@).len());
        return false;
    }
    let mut i: usize = 0;
    while i < a.len()
        invariant
            a.len() == b.len(),
            0 <= i <= a.len(),
            forall|k: int| 0 <= k < i ==> lower_byte(#[trigger] a@[k]) == lower_byte(b@[k]),
        decreases a.len() - i,
    {
        if to_lower_byte(a[i]) != to_lower_byte(b[i]) {
            assert(lower(a@)[i as int] != lower(b@)[i as int]);
            return false;
        }
        i = i + 1;
    }
    assert(lower(a@) =~= lower(b@));
    true
}

/// Whether two octet strings are equal.
pub fn bytes_eq(a: &[u8], b: &[u8]) -> (r: bool)
    ensures
        r == (a@ == b@),
{
    if a.len() != b.len() {
        return false;
    }
    let mut i: usize = 0;
    while i < a.len()
        invariant
            a.len() == b.len(),
            0 <= i <= a.len(),
            forall|k: int| 0 <= k < i ==> #[trigger] a@[k] == b@[k],
        decreases a.len() - i,
    {
        if a[i] != b[i] {
            return false;
        }
        i = i + 1;
    }
    assert(a@ =~= b@);
    true
}

/// Whether `s` begins with `p`.
pub open spec fn starts_with(s: Seq<u8>, p: Seq<u8>) -> bool {
    p.len() <= s.len() && s.take(p.len() as int) == p
}

/// Executable form of [`starts_with`].
pub fn has_prefix(s: &[u8], p: &[u8]) -> (r: bool)
    ensures
        r == starts_with(s@, p@),
{
    if p.len() > s.len() {
        return false;
    }
    let mut i: usize = 0;
    while i < p.len()
        invariant
            p.len() <= s.len(),
            0 <= i <= p.len(),
            forall|k: int| 0 <= k < i ==> #[trigger] s@[k] == p@[k],
        decreases p.len() - i,
    {
        if s[i] != p[i] {
            assert(s@.take(p.len() as int)[i as int] != p@[i as int]);
            return false;
        }
        i = i + 1;
    }
    assert(s@.take(p.len() as int) =~= p@);
    true
}

/// The index of the first `b` in `s`.
pub open spec fn first_index(s: Seq<u8>, b: u8) -> Option<int>
    decreases s.len(),
{
    if s.len() == 0 {
        None
    } else {
        match first_index(s.drop_last(), b) {
            Some(i) => Some(i),
            None => if s.last() == b {
                Some(s.len() - 1)
            } else {
                None
            },
        }
    }
}

pub proof fn lemma_first_index(s: Seq<u8>, b: u8)
    ensures
        match first_index(s, b) {
            Some(i) => 0 <= i < s.len() && s[i] == b && forall|k: int| 0 <= k < i ==> s[k] != b,
            None => forall|k: int| 0 <= k < s.len() ==> s[k] != b,
        },
    decreases s.len(),
{
    if s.len() > 0 {
        lemma_first_index(s.drop_last(), b);
        match first_index(s.drop_last(), b) {
            Some(i) => {
                assert forall|k: int| 0 <= k < i implies s[k] != b by {
                    assert(s[k] == s.drop_last()[k]);
                }
                assert(s[i] == s.drop_last()[i]);
            },
            None => {
                assert forall|k: int| 0 <= k < s.len() - 1 implies s[k] != b by {
                    assert(s[k] == s.drop_last()[k]);
                }
            },
        }
    }
}

pub proof fn lemma_first_index_is(s: Seq<u8>, b: u8, i: int)
    requires
        0 <= i <= s.len(),
        forall|k: int| 0 <= k < i ==> s[k] != b,
        i < s.len() ==> s[i] == b,
    ensures
        first_index(s, b) == (if i < s.len() {
            Some(i)
        } else {
            None::<int>
        }),
{
    lemma_first_index(s, b);
}

/// The index of the first `b` in `s`.
pub fn find_byte(s: &[u8], b: u8) -> (r: Option<usize>)
    ensures
        match r {
            Some(i) => first_index(s@, b) == Some(i as int),
            None => first_index(s@, b) is None,
        },
{
    let mut i: usize = 0;
    while i < s.len()
        invariant
            0 <= i <= s.len(),
            forall|k: int| 0 <= k < i ==> s@[k] != b,
        decreases s.len() - i,
    {
        if s[i] == b {
            proof {
                lemma_first_index_is(s@, b, i as int);
            }
            return Some(i);
        }
        i = i + 1;
    }
    proof {
        lemma_first_index_is(s@, b, s.len() as int);
    }
    None
}

/// `str::split_once` on one octet: the parts before and after the first `b`.
pub open spec fn split_once(s: Seq<u8>, b: u8) -> Option<(Seq<u8>, Seq<u8>)> {
    match first_index(s, b) {
        Some(i) => Some((s.take(i), s.skip(i + 1))),
        None => None,
    }
}

/// Executable form of [`split_once`].
pub fn split_once_bytes(s: &[u8], b: u8) -> (r: Option<(Vec<u8>, Vec<u8>)>)
    ensures
        match r {
            Some((x, y)) => split_once(s@, b) == Some((x@, y@)),
            None => split_once(s@, b) is None,
        },
{
    match find_byte(s, b) {
        Some(i) => {
            proof {
                lemma_first_index(s@, b);
            }
            assert(i < s.len());
            let x = slice_to_vec(&s[0..i]);
            let y = slice_to_vec(&s[i + 1..s.len()]);
            assert(x@ =~= s@.take(i as int));
            assert(y@ =~= s@.skip(i + 1));
            Some((x, y))
        },
        None => None,
    }
}

/// The pieces and the unfinished last piece of a left-to-right split of `s`
/// on `sep`.
pub open spec fn split_state(s: Seq<u8>, sep: u8) -> (Seq<Seq<u8>>, Seq<u8>)
    decreases s.len(),
{
    if s.len() == 0 {
        (Seq::empty(), Seq::empty())
    } else {
        let (done, cur) = split_state(s.drop_last(), sep);
        if s.last() == sep {
            (done.push(cur), Seq::empty())
        } else {
            (done, cur.push(s.last()))
        }
    }
}

/// The views of a sequence of vectors.
pub open spec fn views(v: Seq<Vec<u8>>) -> Seq<Seq<u8>> {
    v.map_values(|x: Vec<u8>| x@)
}

/// `str::split` on one octet: every piece between separators, the empty ones
/// included, and always at least one.
pub open spec fn split(s: Seq<u8>, sep: u8) -> Seq<Seq<u8>> {
    let (done, cur) = split_state(s, sep);
    done.push(cur)
}

/// Executable form of [`split`].
pub fn split_bytes(s: &[u8], sep: u8) -> (r: Vec<Vec<u8>>)
    ensures
        views(r@) == split(s@, sep),
{
    let mut done: Vec<Vec<u8>> = Vec::new();
    let mut cur: Vec<u8> = Vec::new();
    let mut i: usize = 0;
    while i < s.len()
        invariant
            0 <= i <= s.len(),
            (views(done@), cur@) == split_state(s@.take(i as int), sep),
        decreases s.len() - i,
    {
        let ghost prev = s@.take(i as int);
        assert(s@.take(i + 1).drop_last() =~= prev);
        if s[i] == sep {
            let piece = cur;
            cur = Vec::new();
            done.push(piece);
            assert(views(done@) =~= split_state(prev, sep).0.push(piece@));
        } else {
            cur.push(s[i]);
        }
        i = i + 1;
    }
    assert(s@.take(s.len() as int) =~= s@);
    let ghost d = views(done@);
    done.push(cur);
    assert(views(done@) =~= d.push(cur@));
    done
}

/// The value of a string of decimal digits.
pub open spec fn digits_value(s: Seq<u8>) -> nat
    decreases s.len(),
{
    if s.len() == 0 {
        0
    } else {
        10 * digits_value(s.drop_last()) + (s.last() - 0x30u8) as nat
    }
}

/// Whether `b` is an ASCII digit.
pub open spec fn is_digit(b: u8) -> bool {
    0x30u8 <= b && b <= 0x39u8
}

/// Whether every octet of `s` is an ASCII digit.
pub open spec fn all_digits(s: Seq<u8>) -> bool {
    forall|k: int| 0 <= k < s.len() ==> is_digit(#[trigger] s[k])
}

/// What `u64::from_str` gives for these octets: an optional `+`, then at
/// least one digit, and a value that fits.
pub open spec fn parse_u64(s: Seq<u8>) -> Option<u64> {
    let digits = if s.len() > 0 && s[0] == 0x2bu8 {
        s.drop_first()
    } else {
        s
    };
    if digits.len() > 0 && all_digits(digits) && digits_value(digits) <= u64::MAX {
        Some(digits_value(digits) as u64)
    } else {
        None
    }
}

pub proof fn lemma_digits_value_prefix(s: Seq<u8>, i: int)
    requires
        0 <= i <= s.len(),
        all_digits(s),
    ensures
        digits_value(s.take(i)) <= digits_value(s),
    decreases s.len() - i,
{
    if i < s.len() {
        lemma_digits_value_prefix(s.drop_last(), i);
        assert(s.drop_last().take(i) =~= s.take(i));
        assert(is_digit(s.last()));
    } else {
        assert(s.take(i) =~= s);
    }
}

/// Executable form of [`parse_u64`].
pub fn parse_u64_bytes(s: &[u8]) -> (r: Option<u64>)
    ensures
        r == parse_u64(s@),
{
    let start: usize = if s.len() > 0 && s[0] == 0x2b {
        1
    } else {
        0
    };
    let ghost digits = if s@.len() > 0 && s@[0] == 0x2bu8 {
        s@.drop_first()
    } else {
        s@
    };
    assert(digits =~= s@.skip(start as int));
    if start >= s.len() {
        return None;
    }
    let mut value: u64 = 0;
    let mut i: usize = start;
    while i < s.len()
        invariant
            start <= i <= s.len(),
            start < s.len(),
            digits =~= s@.skip(start as int),
            digits == (if s@.len() > 0 && s@[0] == 0x2bu8 {
                s@.drop_first()
            } else {
                s@
            }),
            all_digits(digits.take(i - start)),
            value as nat == digits_value(digits.take(i - start)),
        decreases s.len() - i,
    {
        let b = s[i];
        let ghost prev = digits.take(i - start);
        assert(digits.take(i - start + 1).drop_last() =~= prev);
        if b < 0x30 || b > 0x39 {
            assert(digits[i - start] == b);
            assert(!is_digit(digits[i - start]));
            assert(!all_digits(digits));
            return None;
        }
        let d: u64 = (b - 0x30) as u64;
        if value > (u64::MAX - d) / 10 {
            proof {
                let next = digits.take(i - start + 1);
                assert(next.last() == b);
                assert(all_digits(next));
                assert(digits_value(next) == 10 * value + d);
                if all_digits(digits) {
                    lemma_digits_value_prefix(digits, i - start + 1);
                }
                assert(value * 10 + d > u64::MAX) by (nonlinear_arith)
                    requires
                        value > (u64::MAX - d) / 10,
                        d <= 9,
                ;
            }
            return None;
        }
        proof {
            assert(value * 10 + d <= u64::MAX) by (nonlinear_arith)
                requires
                    value <= (u64::MAX - d) / 10,
                    d <= 9,
            ;
        }
        value = value * 10 + d;
        i = i + 1;
        assert(all_digits(digits.take(i - start)));
    }
    assert(digits.take(i - start) =~= digits);
    Some(value)
}

/// The ASCII digit for `d`.
pub open spec fn digit_byte(d: nat) -> u8 {
    (0x30 + d) as u8
}

/// The shortest decimal rendering of `n`.
pub open spec fn decimal(n: nat) -> Seq<u8>
    decreases n,
{
    if n < 10 {
        seq![digit_byte(n)]
    } else {
        decimal(n / 10).push(digit_byte(n % 10))
    }
}

/// Rendering then reading a number gives it back.
pub proof fn lemma_decimal_digits(n: nat)
    ensures
        decimal(n).len() > 0,
        all_digits(decimal(n)),
        digits_value(decimal(n)) == n,
        decimal(n)[0] != 0x2bu8,
    decreases n,
{
    if n >= 10 {
        lemma_decimal_digits(n / 10);
        let d = decimal(n);
        assert(d.drop_last() =~= decimal(n / 10));
        assert forall|k: int| 0 <= k < d.len() implies is_digit(#[trigger] d[k]) by {
            if k < d.len() - 1 {
                assert(d[k] == decimal(n / 10)[k]);
            }
        }
        assert(d[0] == decimal(n / 10)[0]);
        assert(n % 10 < 10);
        assert(0x30 + n % 10 < 256);
        assert(d.last() == digit_byte(n % 10));
        assert(d.last() as int == 0x30 + n % 10);
        assert(digits_value(d) == 10 * digits_value(d.drop_last()) + (d.last() - 0x30u8) as nat);
        assert(n == 10 * (n / 10) + n % 10);
    } else {
        let d = decimal(n);
        assert(d.drop_last() =~= Seq::<u8>::empty());
        assert(digits_value(d.drop_last()) == 0);
        assert(d.last() as int == 0x30 + n);
    }
}

/// The decimal rendering of `n`.
pub fn render_u64(n: u64) -> (r: Vec<u8>)
    ensures
        r@ == decimal(n as nat),
    decreases n,
{
    if n < 10 {
        let mut r: Vec<u8> = Vec::new();
        r.push(0x30 + n as u8);
        assert(r@ =~= decimal(n as nat));
        r
    } else {
        let mut r = render_u64(n / 10);
        r.push(0x30 + (n % 10) as u8);
        r
    }
}

/// The decimal rendering of a 128-bit `n`.
pub fn render_u128(n: u128) -> (r: Vec<u8>)
    ensures
        r@ == decimal(n as nat),
    decreases n,
{
    if n < 10 {
        let mut r: Vec<u8> = Vec::new();
        r.push(0x30 + n as u8);
        assert(r@ =~= decimal(n as nat));
        r
    } else {
        let mut r = render_u128(n / 10);
        r.push(0x30 + (n % 10) as u8);
        r
    }
}

/// A short byte string from an ASCII literal.
pub fn literal(text: &str) -> (r: Vec<u8>)
    requires
        text.is_ascii(),
    ensures
        r@ == ascii(text@),
{
    let bytes = text.as_bytes();
    proof {
        vstd::string::is_ascii_spec_bytes(text);
    }
    let r = slice_to_vec(bytes);
    assert(r@ =~= ascii(text@));
    r
}

/// `n` rendered in decimal with leading zeros to at least `width` digits.
pub open spec fn padded(n: nat, width: nat) -> Seq<u8> {
    let digits = decimal(n);
    if digits.len() < width {
        Seq::new((width - digits.len()) as nat, |_i: int| 0x30u8) + digits
    } else {
        digits
    }
}

/// Executable form of [`padded`].
pub fn render_padded(n: u64, width: usize) -> (r: Vec<u8>)
    ensures
        r@ == padded(n as nat, width as nat),
{
    let digits = render_u64(n);
    if digits.len() >= width {
        return digits;
    }
    let mut r: Vec<u8> = Vec::new();
    let zeros = width - digits.len();
    let mut i: usize = 0;
    while i < zeros
        invariant
            0 <= i <= zeros,
            r@ == Seq::new(i as nat, |_i: int| 0x30u8),
        decreases zeros - i,
    {
        r.push(0x30);
        i = i + 1;
        assert(r@ =~= Seq::new(i as nat, |_i: int| 0x30u8));
    }
    let ghost front = r@;
    let mut j: usize = 0;
    while j < digits.len()
        invariant
            0 <= j <= digits.len(),
            r@ == front + digits@.take(j as int),
        decreases digits.len() - j,
    {
        r.push(digits[j]);
        j = j + 1;
        assert(r@ =~= front + digits@.take(j as int));
    }
    assert(digits@.take(digits.len() as int) =~= digits@);
    r
}

/// Appends `b` to `a`.
pub fn append_bytes(a: &mut Vec<u8>, b: &[u8])
    ensures
        final(a)@ == old(a)@ + b@,
{
    let ghost start = a@;
    let mut i: usize = 0;
    while i < b.len()
        invariant
            0 <= i <= b.len(),
            a@ == start + b@.take(i as int),
        decreases b.len() - i,
    {
        a.push(b[i]);
        i = i + 1;
        assert(a@ =~= start + b@.take(i as int));
    }
    assert(b@.take(b.len() as int) =~= b@);
}

/// Whether `b` may stand in a header field value: visible ASCII, space,
/// or tab — what `HeaderValue::to_str` accepts.
pub open spec fn is_visible(b: u8) -> bool {
    (0x20u8 <= b && b < 0x7fu8) || b == 0x09u8
}

/// Whether every octet of `s` is [`is_visible`].
pub open spec fn all_visible(s: Seq<u8>) -> bool {
    forall|k: int| 0 <= k < s.len() ==> is_visible(#[trigger] s[k])
}

/// Executable form of [`all_visible`].
pub fn visible(s: &[u8]) -> (r: bool)
    ensures
        r == all_visible(s@),
{
    let mut i: usize = 0;
    while i < s.len()
        invariant
            0 <= i <= s.len(),
            forall|k: int| 0 <= k < i ==> is_visible(#[trigger] s@[k]),
        decreases s.len() - i,
    {
        let b = s[i];
        if !((0x20 <= b && b < 0x7f) || b == 0x09) {
            return false;
        }
        i = i + 1;
    }
    true
}

/// Whether `b` may be sent in a header field value at all: what
/// `HeaderValue::from_str` accepts — anything but the controls other than
/// tab, and DEL.
pub open spec fn is_field_byte(b: u8) -> bool {
    (b >= 0x20u8 && b != 0x7fu8) || b == 0x09u8
}

/// Whether every octet of `s` is [`is_field_byte`].
pub open spec fn all_field_bytes(s: Seq<u8>) -> bool {
    forall|k: int| 0 <= k < s.len() ==> is_field_byte(#[trigger] s[k])
}

/// Executable form of [`all_field_bytes`].
pub fn field_bytes(s: &[u8]) -> (r: bool)
    ensures
        r == all_field_bytes(s@),
{
    let mut i: usize = 0;
    while i < s.len()
        invariant
            0 <= i <= s.len(),
            forall|k: int| 0 <= k < i ==> is_field_byte(#[trigger] s@[k]),
        decreases s.len() - i,
    {
        let b = s[i];
        if !((b >= 0x20 && b != 0x7f) || b == 0x09) {
            return false;
        }
        i = i + 1;
    }
    true
}

/// The pieces of a list, each trimmed, the blank ones dropped.
pub open spec fn items(pieces: Seq<Seq<u8>>) -> Seq<Seq<u8>>
    decreases pieces.len(),
{
    if pieces.len() == 0 {
        Seq::empty()
    } else {
        let rest = items(pieces.drop_last());
        if trim(pieces.last()).len() > 0 {
            rest.push(trim(pieces.last()))
        } else {
            rest
        }
    }
}

/// The members of a `#` list split on `sep`: trimmed, blanks dropped.
pub fn list_items(text: &[u8], sep: u8) -> (r: Vec<Vec<u8>>)
    ensures
        views(r@) == items(split(text@, sep)),
{
    let pieces = split_bytes(text, sep);
    let ghost ps = views(pieces@);
    let mut out: Vec<Vec<u8>> = Vec::new();
    let mut i: usize = 0;
    while i < pieces.len()
        invariant
            0 <= i <= pieces.len(),
            ps == views(pieces@),
            views(out@) == items(ps.take(i as int)),
        decreases pieces.len() - i,
    {
        assert(ps.take(i + 1).drop_last() =~= ps.take(i as int));
        assert(ps[i as int] == pieces@[i as int]@);
        let t = trim_bytes(pieces[i].as_slice());
        if t.len() > 0 {
            let ghost before = views(out@);
            out.push(t);
            assert(views(out@) =~= before.push(trim(ps[i as int])));
        }
        i = i + 1;
    }
    assert(ps.take(pieces.len() as int) =~= ps);
    out
}

/// `parts` joined with `sep` between each two.
pub open spec fn join(parts: Seq<Seq<u8>>, sep: Seq<u8>) -> Seq<u8>
    decreases parts.len(),
{
    if parts.len() == 0 {
        Seq::empty()
    } else if parts.len() == 1 {
        parts[0]
    } else {
        join(parts.drop_last(), sep) + sep + parts.last()
    }
}

/// Executable form of [`join`].
pub fn join_bytes(parts: &Vec<Vec<u8>>, sep: &[u8]) -> (r: Vec<u8>)
    ensures
        r@ == join(views(parts@), sep@),
{
    let ghost ps = views(parts@);
    let mut out: Vec<u8> = Vec::new();
    let mut i: usize = 0;
    while i < parts.len()
        invariant
            0 <= i <= parts.len(),
            ps == views(parts@),
            out@ == join(ps.take(i as int), sep@),
        decreases parts.len() - i,
    {
        assert(ps.take(i + 1).drop_last() =~= ps.take(i as int));
        assert(ps[i as int] == parts@[i as int]@);
        if i > 0 {
            append_bytes(&mut out, sep);
        } else {
            assert(ps.take(1) =~= seq![ps[0]]);
        }
        append_bytes(&mut out, parts[i].as_slice());
        i = i + 1;
    }
    assert(ps.take(parts.len() as int) =~= ps);
    out
}

/// Whether some member of `list` equals `name` ignoring ASCII case.
pub open spec fn contains_ignore_case(list: Seq<Seq<u8>>, name: Seq<u8>) -> bool {
    exists|k: int| 0 <= k < list.len() && eq_ignore_case(#[trigger] list[k], name)
}

/// Executable form of [`contains_ignore_case`].
pub fn has_ignore_case(list: &Vec<Vec<u8>>, name: &[u8]) -> (r: bool)
    ensures
        r == contains_ignore_case(views(list@), name@),
{
    let ghost ls = views(list@);
    let mut i: usize = 0;
    while i < list.len()
        invariant
            0 <= i <= list.len(),
            ls == views(list@),
            forall|k: int| 0 <= k < i ==> !eq_ignore_case(#[trigger] ls[k], name@),
        decreases list.len() - i,
    {
        assert(ls[i as int] == list@[i as int]@);
        if eq_ignore_ascii_case(list[i].as_slice(), name) {
            return true;
        }
        i = i + 1;
    }
    false
}


/// The view of an optional octet string.
pub open spec fn opt_bytes(o: Option<Vec<u8>>) -> Option<Seq<u8>> {
    match o {
        Some(v) => Some(v@),
        None => None,
    }
}

/// The UTF-8 octets of a string.
pub open spec fn str_bytes(s: &str) -> Seq<u8> {
    vstd::utf8::encode_utf8(s@)
}

/// An ASCII string's octets are its characters.
pub proof fn lemma_ascii_str(s: &str)
    requires
        vstd::string::is_ascii(s),
    ensures
        str_bytes(s) == ascii(s@),
{
    vstd::string::is_ascii_spec_bytes(s);
    assert(str_bytes(s) =~= ascii(s@));
}

/// The UTF-8 octets of each of a list of strings.
pub open spec fn strs_bytes(v: Seq<&str>) -> Seq<Seq<u8>> {
    v.map_values(|s: &str| str_bytes(s))
}

/// The octets of each string of a list, as vectors.
pub fn strs_to_vecs(v: &[&str]) -> (r: Vec<Vec<u8>>)
    ensures
        views(r@) == strs_bytes(v@),
{
    let mut out: Vec<Vec<u8>> = Vec::new();
    let mut i: usize = 0;
    while i < v.len()
        invariant
            0 <= i <= v.len(),
            views(out@) == strs_bytes(v@.take(i as int)),
        decreases v.len() - i,
    {
        let ghost before = views(out@);
        let s: &str = v[i];
        let b = slice_to_vec(s.as_bytes());
        assert(b@ == str_bytes(v@[i as int]));
        out.push(b);
        assert(v@.take(i + 1) =~= v@.take(i as int).push(v@[i as int]));
        assert(views(out@) =~= before.push(b@));
        assert(views(out@) =~= strs_bytes(v@.take(i + 1)));
        i = i + 1;
    }
    assert(v@.take(v.len() as int) =~= v@);
    out
}

/// Whether some member of `pieces`, trimmed, is exactly `name`.
pub open spec fn any_trimmed(pieces: Seq<Seq<u8>>, name: Seq<u8>) -> bool {
    exists|k: int| 0 <= k < pieces.len() && trim(#[trigger] pieces[k]) == name
}

/// Executable form of [`any_trimmed`].
pub fn has_trimmed(pieces: &Vec<Vec<u8>>, name: &[u8]) -> (r: bool)
    ensures
        r == any_trimmed(views(pieces@), name@),
{
    let ghost ps = views(pieces@);
    let mut i: usize = 0;
    while i < pieces.len()
        invariant
            0 <= i <= pieces.len(),
            ps == views(pieces@),
            forall|k: int| 0 <= k < i ==> trim(#[trigger] ps[k]) != name@,
        decreases pieces.len() - i,
    {
        assert(ps[i as int] == pieces@[i as int]@);
        let t = trim_bytes(pieces[i].as_slice());
        if bytes_eq(t.as_slice(), name) {
            return true;
        }
        i = i + 1;
    }
    false
}

} // verus!

verus! {

/// Lexicographic order on octet strings, as `Ord` for `[u8]` and `String`
/// orders them: the first differing octet decides, and a proper prefix comes
/// first.
pub open spec fn lex_lt(a: Seq<u8>, b: Seq<u8>) -> bool
    decreases a.len(),
{
    if a.len() == 0 {
        b.len() > 0
    } else if b.len() == 0 {
        false
    } else if a[0] < b[0] {
        true
    } else if a[0] > b[0] {
        false
    } else {
        lex_lt(a.drop_first(), b.drop_first())
    }
}

/// No string comes before itself.
pub proof fn lemma_lex_irreflexive(a: Seq<u8>)
    ensures
        !lex_lt(a, a),
    decreases a.len(),
{
    if a.len() > 0 {
        lemma_lex_irreflexive(a.drop_first());
    }
}

/// The order is transitive.
pub proof fn lemma_lex_transitive(a: Seq<u8>, b: Seq<u8>, c: Seq<u8>)
    requires
        lex_lt(a, b),
        lex_lt(b, c),
    ensures
        lex_lt(a, c),
    decreases a.len(),
{
    if a.len() > 0 && b.len() > 0 && c.len() > 0 && a[0] == b[0] && b[0] == c[0] {
        lemma_lex_transitive(a.drop_first(), b.drop_first(), c.drop_first());
    }
}

/// Of two different strings, one comes first.
pub proof fn lemma_lex_total(a: Seq<u8>, b: Seq<u8>)
    requires
        a != b,
    ensures
        lex_lt(a, b) || lex_lt(b, a),
    decreases a.len(),
{
    if a.len() > 0 && b.len() > 0 && a[0] == b[0] {
        if a.drop_first() == b.drop_first() {
            assert(a =~= seq![a[0]] + a.drop_first());
            assert(b =~= seq![b[0]] + b.drop_first());
        }
        lemma_lex_total(a.drop_first(), b.drop_first());
    } else if a.len() == 0 && b.len() == 0 {
        assert(a =~= b);
    }
}

/// Whether `s` is strictly increasing.
pub open spec fn strictly_sorted(s: Seq<Seq<u8>>) -> bool {
    forall|i: int, j: int| 0 <= i < j < s.len() ==> lex_lt(#[trigger] s[i], #[trigger] s[j])
}

/// `a < b` on octet strings.
pub fn lex_less(a: &[u8], b: &[u8]) -> (r: bool)
    ensures
        r == lex_lt(a@, b@),
{
    let mut i: usize = 0;
    assert(a@.skip(0) =~= a@);
    assert(b@.skip(0) =~= b@);
    while i < a.len() && i < b.len()
        invariant
            0 <= i <= a.len(),
            i <= b.len(),
            lex_lt(a@, b@) == lex_lt(a@.skip(i as int), b@.skip(i as int)),
        decreases a.len() - i,
    {
        let ghost sa = a@.skip(i as int);
        let ghost sb = b@.skip(i as int);
        assert(sa.drop_first() =~= a@.skip(i + 1));
        assert(sb.drop_first() =~= b@.skip(i + 1));
        if a[i] < b[i] {
            return true;
        }
        if a[i] > b[i] {
            return false;
        }
        i = i + 1;
    }
    assert(a@.skip(i as int).len() == 0 || b@.skip(i as int).len() == 0);
    i == a.len() && i < b.len()
}

/// Adds `x` to the strictly increasing `out`, where it is not already there,
/// keeping it strictly increasing.
pub fn insert_sorted(out: &mut Vec<Vec<u8>>, x: Vec<u8>)
    requires
        strictly_sorted(views(old(out)@)),
    ensures
        strictly_sorted(views(final(out)@)),
        views(final(out)@).to_set() == views(old(out)@).to_set().insert(x@),
{
    let ghost s = views(out@);
    let mut k: usize = 0;
    while k < out.len() && lex_less(out[k].as_slice(), x.as_slice())
        invariant
            0 <= k <= out.len(),
            s == views(out@),
            forall|i: int| 0 <= i < k ==> lex_lt(#[trigger] s[i], x@),
        decreases out.len() - k,
    {
        assert(s[k as int] == out@[k as int]@);
        k = k + 1;
    }
    if k < out.len() && bytes_eq(out[k].as_slice(), x.as_slice()) {
        assert(s[k as int] == out@[k as int]@);
        assert(s.to_set().insert(x@) =~= s.to_set()) by {
            assert(s.contains(x@)) by {
                assert(s[k as int] == x@);
            }
        }
        return;
    }
    proof {
        if k < out.len() {
            assert(s[k as int] == out@[k as int]@);
            assert(!lex_lt(s[k as int], x@));
            assert(s[k as int] != x@);
            lemma_lex_total(s[k as int], x@);
        }
    }
    let ghost xv = x@;
    out.insert(k, x);
    let ghost t = views(out@);
    assert(t =~= s.take(k as int).push(xv) + s.skip(k as int));
    assert forall|i: int, j: int| 0 <= i < j < t.len() implies lex_lt(#[trigger] t[i], #[trigger] t[j]) by {
        if j < k {
            assert(t[i] == s[i] && t[j] == s[j]);
        } else if j == k {
            assert(t[i] == s[i]);
        } else if i < k {
            assert(t[i] == s[i] && t[j] == s[j - 1]);
            assert(lex_lt(s[i], xv));
            if j - 1 == k {
                lemma_lex_transitive(s[i], xv, s[j - 1]);
            } else {
                assert(lex_lt(s[k as int], s[j - 1]));
                lemma_lex_transitive(xv, s[k as int], s[j - 1]);
                lemma_lex_transitive(s[i], xv, s[j - 1]);
            }
        } else if i == k {
            assert(t[j] == s[j - 1]);
            if j - 1 > k {
                assert(lex_lt(s[k as int], s[j - 1]));
                lemma_lex_transitive(xv, s[k as int], s[j - 1]);
            }
        } else {
            assert(t[i] == s[i - 1] && t[j] == s[j - 1]);
        }
    }
    assert(t.to_set() =~= s.to_set().insert(xv)) by {
        assert forall|e: Seq<u8>| t.to_set().contains(e) implies s.to_set().insert(xv).contains(e) by {
            let i = choose|i: int| 0 <= i < t.len() && t[i] == e;
            if i < k {
                assert(s[i] == e);
            } else if i > k {
                assert(s[i - 1] == e);
            }
        }
        assert forall|e: Seq<u8>| s.to_set().insert(xv).contains(e) implies t.to_set().contains(e) by {
            if e == xv {
                assert(t[k as int] == e);
            } else {
                let i = choose|i: int| 0 <= i < s.len() && s[i] == e;
                if i < k {
                    assert(t[i] == e);
                } else {
                    assert(t[i + 1] == e);
                }
            }
        }
    }
}

/// The distinct members of `items`, in increasing order.
pub fn sorted_set(items: &Vec<Vec<u8>>) -> (r: Vec<Vec<u8>>)
    ensures
        strictly_sorted(views(r@)),
        views(r@).to_set() == views(items@).to_set(),
{
    let ghost all = views(items@);
    let mut out: Vec<Vec<u8>> = Vec::new();
    let mut i: usize = 0;
    assert(views(out@).to_set() =~= all.take(0).to_set());
    while i < items.len()
        invariant
            0 <= i <= items.len(),
            all == views(items@),
            strictly_sorted(views(out@)),
            views(out@).to_set() == all.take(i as int).to_set(),
        decreases items.len() - i,
    {
        assert(all.take(i + 1) =~= all.take(i as int).push(all[i as int]));
        assert(all[i as int] == items@[i as int]@);
        insert_sorted(&mut out, slice_to_vec(items[i].as_slice()));
        proof {
            all.take(i as int).lemma_push_to_set_commute(all[i as int]);
        }
        i = i + 1;
    }
    assert(all.take(items.len() as int) =~= all);
    out
}

/// Splitting a text that continues without a separator extends the piece
/// being read.
pub proof fn lemma_split_state_extend(x: Seq<u8>, y: Seq<u8>, sep: u8)
    requires
        forall|k: int| 0 <= k < y.len() ==> #[trigger] y[k] != sep,
    ensures
        split_state(x + y, sep) == (split_state(x, sep).0, split_state(x, sep).1 + y),
    decreases y.len(),
{
    if y.len() == 0 {
        assert(x + y =~= x);
        assert(split_state(x, sep).1 + y =~= split_state(x, sep).1);
    } else {
        lemma_split_state_extend(x, y.drop_last(), sep);
        assert((x + y).drop_last() =~= x + y.drop_last());
        assert((x + y).last() == y.last());
        assert(split_state(x, sep).1 + y =~= (split_state(x, sep).1 + y.drop_last()).push(y.last()));
    }
}

/// Three pieces without separators, joined by two separators, split back
/// into the three.
pub proof fn lemma_split_three(a: Seq<u8>, b: Seq<u8>, c: Seq<u8>, sep: u8)
    requires
        forall|k: int| 0 <= k < a.len() ==> #[trigger] a[k] != sep,
        forall|k: int| 0 <= k < b.len() ==> #[trigger] b[k] != sep,
        forall|k: int| 0 <= k < c.len() ==> #[trigger] c[k] != sep,
    ensures
        split(a + seq![sep] + b + seq![sep] + c, sep) == seq![a, b, c],
{
    let e = Seq::<u8>::empty();
    lemma_split_state_extend(e, a, sep);
    assert(e + a =~= a);
    let s1 = a.push(sep);
    assert(s1.drop_last() =~= a);
    assert(split_state(s1, sep) == (seq![a], e));
    lemma_split_state_extend(s1, b, sep);
    let s2 = (s1 + b).push(sep);
    assert(s2.drop_last() =~= s1 + b);
    assert(split_state(s1 + b, sep) == (seq![a], e + b));
    assert(e + b =~= b);
    assert(split_state(s2, sep) == (seq![a, b], e));
    lemma_split_state_extend(s2, c, sep);
    assert(e + c =~= c);
    assert(a + seq![sep] + b + seq![sep] + c =~= s2 + c);
    assert(split(a + seq![sep] + b + seq![sep] + c, sep) =~= seq![a, b, c]);
}

/// Leading zeros add nothing to a number's value.
pub proof fn lemma_leading_zeros(k: nat, s: Seq<u8>)
    ensures
        digits_value(Seq::new(k, |_i: int| 0x30u8) + s) == digits_value(s),
    decreases s.len(), k,
{
    let z = Seq::new(k, |_i: int| 0x30u8);
    if s.len() == 0 {
        assert(z + s =~= z);
        if k > 0 {
            let z1 = Seq::new((k - 1) as nat, |_i: int| 0x30u8);
            assert(z.drop_last() =~= z1);
            lemma_leading_zeros((k - 1) as nat, s);
            assert(z1 + s =~= z1);
        }
    } else {
        lemma_leading_zeros(k, s.drop_last());
        assert((z + s).drop_last() =~= z + s.drop_last());
    }
}

/// The decimal rendering of a number below `10^width` has at most `width`
/// digits.
pub proof fn lemma_decimal_short(n: nat, width: nat)
    requires
        width >= 1,
        n < vstd::arithmetic::power::pow(10, width),
    ensures
        decimal(n).len() <= width,
    decreases width,
{
    vstd::arithmetic::power::lemma_pow_positive(10, width);
    if n >= 10 {
        assert(width >= 2) by {
            if width == 1 {
                vstd::arithmetic::power::lemma_pow1(10);
            }
        }
        vstd::arithmetic::power::lemma_pow_adds(10, 1, (width - 1) as nat);
        vstd::arithmetic::power::lemma_pow1(10);
        let p = vstd::arithmetic::power::pow(10, (width - 1) as nat);
        assert(n / 10 < p) by (nonlinear_arith)
            requires
                n < 10 * p,
        ;
        lemma_decimal_short(n / 10, (width - 1) as nat);
    }
}

/// A number rendered zero-padded to `width` digits, where it fits, is
/// exactly `width` digits that read back as it.
pub proof fn lemma_padded_reads_back(n: nat, width: nat)
    requires
        width >= 1,
        n < vstd::arithmetic::power::pow(10, width),
        n <= u64::MAX,
    ensures
        padded(n, width).len() == width,
        all_digits(padded(n, width)),
        parse_u64(padded(n, width)) == Some(n as u64),
{
    lemma_decimal_short(n, width);
    lemma_decimal_digits(n);
    let d = decimal(n);
    let p = padded(n, width);
    if d.len() < width {
        let k = (width - d.len()) as nat;
        lemma_leading_zeros(k, d);
        let z = Seq::new(k, |_i: int| 0x30u8);
        assert forall|i: int| 0 <= i < p.len() implies is_digit(#[trigger] p[i]) by {
            if i < k {
                assert(p[i] == z[i]);
            } else {
                assert(p[i] == d[i - k]);
            }
        }
        assert(p[0] == 0x30u8);
    }
}

} // verus!
