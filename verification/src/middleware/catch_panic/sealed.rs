//! The seal on the panic policies.

use vstd::prelude::*;

verus! {

/// Implemented by the two panic policies and nothing else.
pub trait Sealed {
}

} // verus!
