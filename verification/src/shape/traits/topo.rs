//! Seals the family of topological kinds.

use vstd::prelude::*;

verus! {

/// Implemented by the topological kinds of this crate, and by nothing else.
pub trait Sealed {
}

} // verus!
