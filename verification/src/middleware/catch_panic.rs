//! Whether a panic in a handler unwinds or becomes a documented response.

mod sealed;

use vstd::prelude::*;

verus! {

/// A panic recovery policy, chosen at compile time. Sealed: the two below are
/// all there is.
pub trait PanicPolicy: sealed::Sealed {
    /// The statuses the policy adds to every operation it covers.
    fn statuses() -> Vec<u16>;
}

/// Lets a panic continue unwinding: the default, which installs no recovery
/// and declares nothing.
#[derive(Clone, Copy, Debug, Default, PartialEq, Eq)]
pub struct Propagate {
    _private: (),
}

impl sealed::Sealed for Propagate {
}

impl PanicPolicy for Propagate {
    /// Nothing: a panic that unwinds answers with no status of its own.
    fn statuses() -> (r: Vec<u16>)
        ensures
            r@ == Seq::<u16>::empty(),
    {
        Vec::new()
    }
}

/// Turns a panic into a 500 problem document, which every covered operation
/// then declares.
#[derive(Clone, Copy, Debug, Default, PartialEq, Eq)]
pub struct Catch {
    _private: (),
}

impl sealed::Sealed for Catch {
}

impl PanicPolicy for Catch {
    /// 500.
    fn statuses() -> (r: Vec<u16>)
        ensures
            r@ == seq![500u16],
    {
        let mut r: Vec<u16> = Vec::new();
        r.push(500);
        r
    }
}

} // verus!
