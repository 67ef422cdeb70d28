//! Keeps [`crate::ArgumentTrait`] closed to the argument types of this crate.
use vstd::prelude::*;

verus! {

/// Implemented only by this crate's argument types.
pub trait Sealed {
}

} // verus!
