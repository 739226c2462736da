//! The seal on the ways a cache states entity tags.

use vstd::prelude::*;

verus! {

/// Implemented by the two tagging modes and nothing else.
pub trait Sealed {
}

} // verus!
