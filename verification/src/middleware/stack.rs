//! The lists an interceptor stack is checked with: two interceptors covering
//! one operation collide when they add the same response header or answer
//! with the same status.
//!
//! Reading the same request header is not a collision: reading is
//! non-destructive, and the operation declares the parameter once.

use vstd::prelude::*;

use crate::octets::{eq_ignore_ascii_case, eq_ignore_case, str_bytes, strs_bytes};

verus! {

/// One interceptor in front of the rest. The empty stack is `()`.
#[derive(Debug)]
pub struct Cons<H, T>(pub core::marker::PhantomData<(H, T)>);

/// Two stacks that cover different operations, so neither is checked against
/// the other: no request reaches both.
#[derive(Debug)]
pub struct Both<L, R>(pub core::marker::PhantomData<(L, R)>);

/// Appends a stack in front of `S`: the interceptors of `Self`, then those of
/// `S`, with every [`Both`] opened into the line its two halves make.
pub trait Flatten<S> {
    /// The flattened stack.
    type Out;
}

impl<S> Flatten<S> for () {
    type Out = S;
}

impl<H, T: Flatten<S>, S> Flatten<S> for Cons<H, T> {
    type Out = Cons<H, <T as Flatten<S>>::Out>;
}

impl<L, R, S> Flatten<S> for Both<L, R> where R: Flatten<S>, L: Flatten<<R as Flatten<S>>::Out> {
    type Out = <L as Flatten<<R as Flatten<S>>::Out>>::Out;
}

/// Whether two header names match, ignoring ASCII case.
///
/// Header names are case-insensitive per RFC 9110, so `X-Request-Id` and
/// `x-request-id` are one name and must collide.
pub fn header_name_eq(left: &str, right: &str) -> (r: bool)
    ensures
        r == eq_ignore_case(str_bytes(left), str_bytes(right)),
{
    eq_ignore_ascii_case(left.as_bytes(), right.as_bytes())
}

/// Whether two header-name lists share no name.
pub fn header_names_disjoint(left: &[&str], right: &[&str]) -> (r: bool)
    ensures
        r == (forall|i: int, j: int|
            0 <= i < left@.len() && 0 <= j < right@.len() ==> !eq_ignore_case(
                #[trigger] str_bytes(left@[i]),
                #[trigger] str_bytes(right@[j]),
            )),
{
    let mut outer: usize = 0;
    while outer < left.len()
        invariant
            0 <= outer <= left.len(),
            forall|i: int, j: int|
                0 <= i < outer && 0 <= j < right@.len() ==> !eq_ignore_case(
                    #[trigger] str_bytes(left@[i]),
                    #[trigger] str_bytes(right@[j]),
                ),
        decreases left.len() - outer,
    {
        let mut inner: usize = 0;
        while inner < right.len()
            invariant
                0 <= outer < left.len(),
                0 <= inner <= right.len(),
                forall|i: int, j: int|
                    0 <= i < outer && 0 <= j < right@.len() ==> !eq_ignore_case(
                        #[trigger] str_bytes(left@[i]),
                        #[trigger] str_bytes(right@[j]),
                    ),
                forall|j: int|
                    0 <= j < inner ==> !eq_ignore_case(
                        str_bytes(left@[outer as int]),
                        #[trigger] str_bytes(right@[j]),
                    ),
            decreases right.len() - inner,
        {
            if header_name_eq(left[outer], right[inner]) {
                return false;
            }
            inner = inner + 1;
        }
        outer = outer + 1;
    }
    true
}

/// Whether two status lists share no status.
pub fn statuses_disjoint(left: &[u16], right: &[u16]) -> (r: bool)
    ensures
        r == (forall|i: int, j: int|
            0 <= i < left@.len() && 0 <= j < right@.len() ==> #[trigger] left@[i] != #[trigger] right@[j]),
{
    let mut outer: usize = 0;
    while outer < left.len()
        invariant
            0 <= outer <= left.len(),
            forall|i: int, j: int|
                0 <= i < outer && 0 <= j < right@.len() ==> #[trigger] left@[i] != #[trigger] right@[j],
        decreases left.len() - outer,
    {
        let mut inner: usize = 0;
        while inner < right.len()
            invariant
                0 <= outer < left.len(),
                0 <= inner <= right.len(),
                forall|i: int, j: int|
                    0 <= i < outer && 0 <= j < right@.len() ==> #[trigger] left@[i] != #[trigger] right@[j],
                forall|j: int| 0 <= j < inner ==> left@[outer as int] != #[trigger] right@[j],
            decreases right.len() - inner,
        {
            if left[outer] == right[inner] {
                return false;
            }
            inner = inner + 1;
        }
        outer = outer + 1;
    }
    true
}

/// Disjointness is symmetric: which of two interceptors was mounted first
/// does not change whether they collide.
pub proof fn disjointness_is_symmetric(left: Seq<u16>, right: Seq<u16>)
    ensures
        (forall|i: int, j: int|
            0 <= i < left.len() && 0 <= j < right.len() ==> #[trigger] left[i] != #[trigger] right[j])
            == (forall|i: int, j: int|
            0 <= i < right.len() && 0 <= j < left.len() ==> #[trigger] right[i] != #[trigger] left[j]),
{
}

} // verus!
