//! What a handler asks compression to do with one response.

use vstd::prelude::*;

verus! {

/// A handler's word on whether its response is encoded, which outranks
/// negotiation in both directions.
#[derive(Clone, Copy, Debug, PartialEq, Eq, Structural)]
pub enum Encoding {
    /// Encode where the client accepts a coding and the response allows it.
    Automatic,
    /// Never encode this response.
    Disabled,
    /// Encode or refuse: identity is not an answer.
    Required,
}

impl Default for Encoding {
    fn default() -> (r: Self)
        ensures
            r == Encoding::Automatic,
    {
        Encoding::Automatic
    }
}

impl Encoding {
    /// The word a response carries, or the default where it carries none.
    pub fn of_extensions(carried: Option<Encoding>) -> (r: Self)
        ensures
            r == (match carried {
                Some(e) => e,
                None => Encoding::Automatic,
            }),
    {
        match carried {
            Some(e) => e,
            None => Encoding::Automatic,
        }
    }
}

/// A response body together with the handler's word on its encoding.
#[derive(Clone, Copy, Debug)]
pub struct WithEncoding<T> {
    /// The response.
    pub body: T,
    /// What compression may do with it.
    pub encoding: Encoding,
}

impl<T> WithEncoding<T> {
    /// `body`, encoded as `encoding` says.
    pub fn new(body: T, encoding: Encoding) -> (r: Self)
        ensures
            r.body == body,
            r.encoding == encoding,
    {
        WithEncoding { body, encoding }
    }
}

} // verus!
