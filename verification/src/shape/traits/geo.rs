//! Seals the family of geometric kinds.

use vstd::prelude::*;

verus! {

/// Implemented by the geometric kinds of this crate, and by nothing else.
pub trait Sealed {
}

} // verus!
