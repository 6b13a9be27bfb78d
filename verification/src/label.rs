//! Symbolic jump targets and the per-compilation-unit label generator.

use vstd::prelude::*;

verus! {

/// Numeric identifier carried by a compiler-synthesized label.
pub type Id = usize;

/// A symbolic jump target.
///
/// `Regular` labels are synthesized by [`Gen`] and are unique within one
/// compilation unit.  `Named` labels are anchored to source-level names (for
/// example default-argument markers) and live in a separate identifier space:
/// a regular label and a named label never alias each other.
#[derive(Debug, Clone, PartialEq, Eq)]
pub enum Label {
    Regular(Id),
    Named(String),
}

/// Mathematical value of a [`Label`]: the same two variants, with the name
/// abstracted to its character sequence.
#[verifier::ext_equal]
pub enum LabelV {
    Regular(Id),
    Named(Seq<char>),
}

impl View for Label {
    type V = LabelV;

    open spec fn view(&self) -> LabelV {
        match self {
            Label::Regular(id) => LabelV::Regular(*id),
            Label::Named(s) => LabelV::Named(s@),
        }
    }
}

impl Label {
    /// A label is finalized once it is a plain numeric label; the relabeling
    /// passes refuse anything else.
    pub open spec fn is_finalized(self) -> bool {
        self@ is Regular
    }

    /// The numeric identifier of a finalized label.
    pub fn id(&self) -> (r: Option<Id>)
        ensures
            self@ is Regular ==> r == Some(self@->Regular_0),
            self@ is Named ==> r is None,
    {
        match self {
            Label::Regular(id) => Some(*id),
            Label::Named(_) => None,
        }
    }
}

/// The view of each label of a label sequence.
pub open spec fn labels_view(s: Seq<Label>) -> Seq<LabelV> {
    s.map_values(|l: Label| l@)
}

/// Pointwise description of [`labels_view`].
pub proof fn lemma_labels_view_index(s: Seq<Label>, k: int)
    requires
        0 <= k < s.len(),
    ensures
        labels_view(s)[k] == s[k]@,
        labels_view(s).len() == s.len(),
{
}

/// Monotonic generator for regular labels, owned by one compilation unit.
///
/// The only operation hands out the next unused identifier; identifiers are
/// never reused within the generator's lifetime.
#[derive(Debug, Default)]
pub struct Gen {
    next_id: Id,
}

impl Gen {
    /// How many labels have been handed out so far; also the identifier the
    /// next allocation will use.
    pub closed spec fn spec_next_id(self) -> Id {
        self.next_id
    }

    pub fn new() -> (g: Gen)
        ensures
            g.spec_next_id() == 0,
    {
        Gen { next_id: 0 }
    }

    /// Allocate the next regular label.
    pub fn next_regular(&mut self) -> (l: Label)
        requires
            old(self).spec_next_id() < Id::MAX,
        ensures
            l == Label::Regular(old(self).spec_next_id()),
            final(self).spec_next_id() == old(self).spec_next_id() + 1,
    {
        let curr = self.next_id;
        self.next_id = curr + 1;
        Label::Regular(curr)
    }
}

} // verus!
