//! The seal on the ways a CORS group is documented.

use vstd::prelude::*;

verus! {

/// Implemented by the two CORS documentation states and nothing else.
pub trait Sealed {
}

} // verus!
