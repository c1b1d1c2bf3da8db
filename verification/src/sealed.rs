//! Keeps the label traits to the labels of this crate.

use vstd::prelude::*;

verus! {

/// Implemented by the labels of this crate alone.
pub trait Sealed {

}

} // verus!
