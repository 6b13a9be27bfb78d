//! The per-compilation-unit iterator-id generator.

use vstd::prelude::*;

verus! {

/// Numeric identifier of an iterator.
pub type Id = usize;

/// Monotonic generator for iterator identifiers, owned by one compilation
/// unit.
#[derive(Debug, Default)]
pub struct Iter {
    next: Id,
}

impl Iter {
    /// The identifier the next allocation will use.
    pub closed spec fn spec_next(self) -> Id {
        self.next
    }

    pub fn new() -> (it: Iter)
        ensures
            it.spec_next() == 0,
    {
        Iter { next: 0 }
    }

    /// Allocate the next iterator identifier.
    pub fn next_id(&mut self) -> (id: Id)
        requires
            old(self).spec_next() < Id::MAX,
        ensures
            id == old(self).spec_next(),
            final(self).spec_next() == old(self).spec_next() + 1,
    {
        let curr = self.next;
        self.next = curr + 1;
        curr
    }
}

} // verus!
