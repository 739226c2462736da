//! A header block: the name/value pairs of a request or response head, in the
//! order they were added.
//!
//! Names are compared without regard to ASCII case, as RFC 9110 section 5.1
//! asks, and stored lowercased. A name may repeat; every value is kept.

use vstd::prelude::*;

use crate::octets::{
    eq_ignore_ascii_case, eq_ignore_case, lower, slice_to_vec, to_lower, all_visible, visible,
};

verus! {

/// One header field.
#[derive(Clone, Debug, PartialEq, Eq)]
pub struct Field {
    /// The field name, lowercased.
    pub name: Vec<u8>,
    /// The field value, as octets.
    pub value: Vec<u8>,
}

/// A header block.
#[derive(Clone, Debug, Default, PartialEq, Eq)]
pub struct Fields {
    /// Every field, in the order it was added.
    pub entries: Vec<Field>,
}

/// The view of one field: its name and its value.
pub open spec fn field_view(f: Field) -> (Seq<u8>, Seq<u8>) {
    (f.name@, f.value@)
}

impl View for Fields {
    type V = Seq<(Seq<u8>, Seq<u8>)>;

    open spec fn view(&self) -> Seq<(Seq<u8>, Seq<u8>)> {
        self.entries@.map_values(|f: Field| field_view(f))
    }
}

/// Every value filed under `name`, in order.
pub open spec fn values_of(entries: Seq<(Seq<u8>, Seq<u8>)>, name: Seq<u8>) -> Seq<Seq<u8>>
    decreases entries.len(),
{
    if entries.len() == 0 {
        Seq::empty()
    } else {
        let rest = values_of(entries.drop_last(), name);
        if eq_ignore_case(entries.last().0, name) {
            rest.push(entries.last().1)
        } else {
            rest
        }
    }
}

/// The first value filed under `name`.
pub open spec fn first_value(entries: Seq<(Seq<u8>, Seq<u8>)>, name: Seq<u8>) -> Option<Seq<u8>> {
    let all = values_of(entries, name);
    if all.len() > 0 {
        Some(all[0])
    } else {
        None
    }
}

/// The first value filed under `name`, where it is readable as text —
/// `HeaderMap::get` followed by `HeaderValue::to_str`.
pub open spec fn text_value(entries: Seq<(Seq<u8>, Seq<u8>)>, name: Seq<u8>) -> Option<Seq<u8>> {
    match first_value(entries, name) {
        Some(v) => if all_visible(v) {
            Some(v)
        } else {
            None
        },
        None => None,
    }
}

/// `entries` without any field named `name`.
pub open spec fn without(entries: Seq<(Seq<u8>, Seq<u8>)>, name: Seq<u8>) -> Seq<(Seq<u8>, Seq<u8>)>
    decreases entries.len(),
{
    if entries.len() == 0 {
        Seq::empty()
    } else {
        let rest = without(entries.drop_last(), name);
        if eq_ignore_case(entries.last().0, name) {
            rest
        } else {
            rest.push(entries.last())
        }
    }
}

pub proof fn lemma_values_of_without(entries: Seq<(Seq<u8>, Seq<u8>)>, name: Seq<u8>, other: Seq<u8>)
    ensures
        values_of(without(entries, name), other) == (if eq_ignore_case(name, other) {
            Seq::<Seq<u8>>::empty()
        } else {
            values_of(entries, other)
        }),
    decreases entries.len(),
{
    if entries.len() > 0 {
        lemma_values_of_without(entries.drop_last(), name, other);
        let rest = without(entries.drop_last(), name);
        if !eq_ignore_case(entries.last().0, name) {
            assert(rest.push(entries.last()).drop_last() =~= rest);
        }
    }
}

pub proof fn lemma_values_of_push(entries: Seq<(Seq<u8>, Seq<u8>)>, e: (Seq<u8>, Seq<u8>), name: Seq<u8>)
    ensures
        values_of(entries.push(e), name) == (if eq_ignore_case(e.0, name) {
            values_of(entries, name).push(e.1)
        } else {
            values_of(entries, name)
        }),
{
    assert(entries.push(e).drop_last() =~= entries);
}

/// Whether `b` may stand in a header name: a `tchar` of RFC 9110, capitals
/// included, since a name is lowercased on the way in.
pub open spec fn name_byte(b: u8) -> bool {
    b == 0x21u8 || (0x23u8 <= b && b <= 0x27u8) || b == 0x2au8 || b == 0x2bu8 || b == 0x2du8
        || b == 0x2eu8 || (0x30u8 <= b && b <= 0x39u8) || (0x41u8 <= b && b <= 0x5au8) || (0x5eu8
        <= b && b <= 0x7au8) || b == 0x7cu8 || b == 0x7eu8
}

/// Whether `s` is a header name: between one and 65 535 `tchar`s.
pub open spec fn valid_name(s: Seq<u8>) -> bool {
    0 < s.len() <= 65535 && forall|k: int| 0 <= k < s.len() ==> name_byte(#[trigger] s[k])
}

/// Whether `http::HeaderName::from_bytes` accepts `name`.
///
/// Trusted: the `http` crate's table of name characters admits exactly the
/// `tchar`s, capitals mapped to lower case, and its length check admits one to
/// 65 535 octets; this claims that of the call and nothing more.
#[verifier::external_body]
pub(crate) fn valid_header_name(name: &[u8]) -> (r: bool)
    ensures
        r == valid_name(name@),
{
    http::HeaderName::from_bytes(name).is_ok()
}

/// What `HeaderMap::get` gives for a name passed as text: the first value
/// filed under it, and nothing for a string that is no header name.
pub open spec fn named_value(entries: Seq<(Seq<u8>, Seq<u8>)>, name: Seq<u8>) -> Option<Seq<u8>> {
    if valid_name(name) {
        first_value(entries, name)
    } else {
        None
    }
}

impl Fields {
    /// An empty header block.
    pub fn new() -> (r: Fields)
        ensures
            r@ == Seq::<(Seq<u8>, Seq<u8>)>::empty(),
    {
        let r = Fields { entries: Vec::new() };
        assert(r@ =~= Seq::<(Seq<u8>, Seq<u8>)>::empty());
        r
    }

    /// Adds a field after every existing one, keeping any of the same name.
    pub fn append(&mut self, name: &[u8], value: &[u8])
        ensures
            final(self)@ == old(self)@.push((lower(name@), value@)),
    {
        let f = Field { name: to_lower(name), value: slice_to_vec(value) };
        let ghost before = self@;
        self.entries.push(f);
        assert(self@ =~= before.push((lower(name@), value@)));
    }

    /// Removes every field named `name`.
    pub fn remove(&mut self, name: &[u8])
        ensures
            final(self)@ == without(old(self)@, name@),
    {
        let mut kept: Vec<Field> = Vec::new();
        let mut i: usize = 0;
        let ghost all = self@;
        while i < self.entries.len()
            invariant
                0 <= i <= self.entries.len(),
                all == self@,
                kept@.map_values(|f: Field| field_view(f)) == without(all.take(i as int), name@),
            decreases self.entries.len() - i,
        {
            let ghost prev = kept@.map_values(|f: Field| field_view(f));
            assert(all.take(i + 1).drop_last() =~= all.take(i as int));
            assert(all.take(i + 1).last() == field_view(self.entries@[i as int]));
            if !eq_ignore_ascii_case(self.entries[i].name.as_slice(), name) {
                let f = Field {
                    name: slice_to_vec(self.entries[i].name.as_slice()),
                    value: slice_to_vec(self.entries[i].value.as_slice()),
                };
                kept.push(f);
                assert(kept@.map_values(|f: Field| field_view(f)) =~= prev.push(field_view(f)));
            }
            i = i + 1;
        }
        assert(all.take(self.entries.len() as int) =~= all);
        self.entries = kept;
    }

    /// Replaces every field named `name` with one carrying `value`.
    pub fn insert(&mut self, name: &[u8], value: &[u8])
        ensures
            final(self)@ == without(old(self)@, name@).push((lower(name@), value@)),
    {
        self.remove(name);
        self.append(name, value);
    }

    /// Every value filed under `name`, in order.
    pub fn get_all(&self, name: &[u8]) -> (r: Vec<Vec<u8>>)
        ensures
            crate::octets::views(r@) == values_of(self@, name@),
    {
        let mut r: Vec<Vec<u8>> = Vec::new();
        let mut i: usize = 0;
        while i < self.entries.len()
            invariant
                0 <= i <= self.entries.len(),
                crate::octets::views(r@) == values_of(self@.take(i as int), name@),
            decreases self.entries.len() - i,
        {
            let ghost prev = crate::octets::views(r@);
            assert(self@.take(i + 1).drop_last() =~= self@.take(i as int));
            assert(self@.take(i + 1).last() == field_view(self.entries@[i as int]));
            if eq_ignore_ascii_case(self.entries[i].name.as_slice(), name) {
                let v = slice_to_vec(self.entries[i].value.as_slice());
                r.push(v);
                assert(crate::octets::views(r@) =~= prev.push(v@));
            }
            i = i + 1;
        }
        assert(self@.take(self.entries.len() as int) =~= self@);
        r
    }

    /// The first value filed under `name`.
    pub fn get(&self, name: &[u8]) -> (r: Option<Vec<u8>>)
        ensures
            match r {
                Some(v) => first_value(self@, name@) == Some(v@),
                None => first_value(self@, name@) is None,
            },
    {
        let all = self.get_all(name);
        if all.len() > 0 {
            let v = slice_to_vec(all[0].as_slice());
            assert(crate::octets::views(all@)[0] == all@[0]@);
            Some(v)
        } else {
            None
        }
    }

    /// The first value filed under `name`, where it is readable as text.
    pub fn get_text(&self, name: &[u8]) -> (r: Option<Vec<u8>>)
        ensures
            match r {
                Some(v) => text_value(self@, name@) == Some(v@),
                None => text_value(self@, name@) is None,
            },
    {
        match self.get(name) {
            Some(v) => if visible(v.as_slice()) {
                Some(v)
            } else {
                None
            },
            None => None,
        }
    }

    /// The first value filed under `name`, where `name` is a header name.
    pub fn get_named(&self, name: &[u8]) -> (r: Option<Vec<u8>>)
        ensures
            crate::octets::opt_bytes(r) == named_value(self@, name@),
    {
        if valid_header_name(name) {
            self.get(name)
        } else {
            None
        }
    }

    /// A copy of this block, field for field.
    pub fn copied(&self) -> (r: Fields)
        ensures
            r@ == self@,
    {
        let mut entries: Vec<Field> = Vec::new();
        let mut i: usize = 0;
        while i < self.entries.len()
            invariant
                0 <= i <= self.entries.len(),
                entries@.map_values(|f: Field| field_view(f)) == self@.take(i as int),
            decreases self.entries.len() - i,
        {
            let ghost before = entries@.map_values(|f: Field| field_view(f));
            let f = Field {
                name: slice_to_vec(self.entries[i].name.as_slice()),
                value: slice_to_vec(self.entries[i].value.as_slice()),
            };
            entries.push(f);
            assert(entries@.map_values(|f: Field| field_view(f)) =~= before.push(field_view(f)));
            assert(self@.take(i + 1) =~= self@.take(i as int).push(self@[i as int]));
            i = i + 1;
        }
        assert(self@.take(self.entries.len() as int) =~= self@);
        Fields { entries }
    }

    /// Whether any field is named `name`.
    pub fn contains(&self, name: &[u8]) -> (r: bool)
        ensures
            r == (values_of(self@, name@).len() > 0),
    {
        let all = self.get_all(name);
        all.len() > 0
    }
}

} // verus!
