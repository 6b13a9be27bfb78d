//! Local-variable slots and the per-compilation-unit slot generator.

use vstd::prelude::*;

verus! {

/// Numeric identifier of an unnamed local-variable slot.
pub type Id = usize;

/// A local variable: either a source-level name or an unnamed slot.
#[derive(Debug, Clone, PartialEq, Eq)]
pub enum Type {
    Unnamed(Id),
    Named(String),
}

/// Mathematical value of a local variable.
#[verifier::ext_equal]
pub enum TypeV {
    Unnamed(Id),
    Named(Seq<char>),
}

impl View for Type {
    type V = TypeV;

    open spec fn view(&self) -> TypeV {
        match self {
            Type::Unnamed(id) => TypeV::Unnamed(*id),
            Type::Named(s) => TypeV::Named(s@),
        }
    }
}

/// Monotonic generator for unnamed local slots, owned by one compilation
/// unit.
#[derive(Debug, Default)]
pub struct Gen {
    counter: Id,
}

impl Gen {
    /// The slot the next allocation will use.
    pub closed spec fn spec_counter(self) -> Id {
        self.counter
    }

    pub fn new() -> (g: Gen)
        ensures
            g.spec_counter() == 0,
    {
        Gen { counter: 0 }
    }

    /// Allocate the next unnamed local slot.
    pub fn next_unnamed(&mut self) -> (l: Type)
        requires
            old(self).spec_counter() < Id::MAX,
        ensures
            l == Type::Unnamed(old(self).spec_counter()),
            final(self).spec_counter() == old(self).spec_counter() + 1,
    {
        let curr = self.counter;
        self.counter = curr + 1;
        Type::Unnamed(curr)
    }
}

} // verus!
