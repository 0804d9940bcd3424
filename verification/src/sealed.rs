//! Keeps the durability markers to this crate's own stores.

use vstd::prelude::*;

verus! {

/// Implemented by the stores of this crate only.
pub trait Sealed {

}

} // verus!
