//! Opaque wrapper for values handed across the runtime boundary unexamined.

use vstd::prelude::*;

verus! {

/// A sequence value carried through this crate without being inspected.
#[derive(Debug)]
pub struct Sequence<T>(pub T);

} // verus!
