//! The seal on the spellings of the rate-limit fields.

use vstd::prelude::*;

verus! {

/// Implemented by the two spellings and nothing else.
pub trait Sealed {
}

} // verus!
