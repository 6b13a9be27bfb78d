//! Ordered, possibly nested sequences of instructions.
//!
//! A sequence is a concatenation-of-lists tree; its mathematical value is
//! the flattened, left-to-right sequence of atomic instructions.  The
//! *offset* of an atomic instruction is its position in that flattened
//! enumeration with label-definition pseudo-instructions excluded: a
//! definition occupies no offset of its own and refers to the next atomic
//! instruction's offset.

use vstd::prelude::*;

use crate::hhbc_ast::{Instruct, InstructBasic, InstructGet, InstructMisc, InstructMutator,
    InstructV};
use crate::label::Label;
use crate::local;

verus! {

/// A possibly nested instruction sequence.
#[derive(Debug, PartialEq, Eq)]
pub enum Instr {
    Empty,
    One(Instruct),
    List(Vec<Instruct>),
    Concat(Vec<Instr>),
}

impl Instr {
    /// The flattened enumeration of atomic instructions, left to right and
    /// depth first.
    pub open spec fn flat(self) -> Seq<InstructV>
        decreases self,
    {
        match self {
            Instr::Empty => Seq::empty(),
            Instr::One(i) => seq![i@],
            Instr::List(v) => v@.map_values(|i: Instruct| i@),
            Instr::Concat(v) => flat_concat(v@),
        }
    }
}

/// Flattened enumeration of a sequence of trees, left to right.
pub open spec fn flat_concat(v: Seq<Instr>) -> Seq<InstructV>
    decreases v,
{
    if v.len() == 0 {
        Seq::empty()
    } else {
        v[0].flat() + flat_concat(v.drop_first())
    }
}

impl View for Instr {
    type V = Seq<InstructV>;

    open spec fn view(&self) -> Seq<InstructV> {
        self.flat()
    }
}

/// Splitting a concatenation list splits its flattened enumeration.
pub proof fn lemma_flat_concat_split(v: Seq<Instr>, k: int)
    requires
        0 <= k <= v.len(),
    ensures
        flat_concat(v) == flat_concat(v.take(k)) + flat_concat(v.skip(k)),
    decreases k,
{
    if k == 0 {
        assert(v.take(0) =~= Seq::<Instr>::empty());
        assert(v.skip(0) =~= v);
        assert(flat_concat(v.take(0)) + flat_concat(v.skip(0)) =~= flat_concat(v));
    } else {
        assert(v.len() > 0);
        lemma_flat_concat_split(v.drop_first(), k - 1);
        assert(v.take(k).drop_first() =~= v.drop_first().take(k - 1));
        assert(v.skip(k) =~= v.drop_first().skip(k - 1));
        assert(flat_concat(v.take(k)) == v[0].flat() + flat_concat(v.drop_first().take(k - 1)));
        assert(flat_concat(v.take(k)) + flat_concat(v.skip(k)) =~= flat_concat(v));
    }
}

/// Flattening distributes over concatenation of lists.
pub proof fn lemma_flat_concat_app(a: Seq<Instr>, b: Seq<Instr>)
    ensures
        flat_concat(a + b) == flat_concat(a) + flat_concat(b),
{
    lemma_flat_concat_split(a + b, a.len() as int);
    assert((a + b).take(a.len() as int) =~= a);
    assert((a + b).skip(a.len() as int) =~= b);
}

/// The flattened enumeration of one element of a concatenation list stands
/// between its neighbours.
pub proof fn lemma_flat_concat_elem(v: Seq<Instr>, k: int)
    requires
        0 <= k < v.len(),
    ensures
        flat_concat(v.take(k + 1)) == flat_concat(v.take(k)) + v[k].flat(),
{
    lemma_flat_concat_split(v.take(k + 1), k);
    assert(v.take(k + 1).take(k) =~= v.take(k));
    assert(v.take(k + 1).skip(k) =~= seq![v[k]]);
    assert(seq![v[k]].drop_first() =~= Seq::<Instr>::empty());
    assert(flat_concat(seq![v[k]]) == v[k].flat() + flat_concat(Seq::<Instr>::empty()));
    assert(flat_concat(seq![v[k]]) =~= v[k].flat());
}

impl Instr {
    /// An empty sequence.
    pub fn make_empty() -> (r: Instr)
        ensures
            r@ =~= Seq::<InstructV>::empty(),
    {
        Instr::Empty
    }

    /// A sequence holding one atomic instruction.
    pub fn make_instr(i: Instruct) -> (r: Instr)
        ensures
            r@ =~= seq![i@],
    {
        Instr::One(i)
    }

    /// A sequence holding a list of atomic instructions.
    pub fn make_instrs(is: Vec<Instruct>) -> (r: Instr)
        ensures
            r@ =~= is@.map_values(|i: Instruct| i@),
    {
        Instr::List(is)
    }

    /// Concatenate sub-sequences in order.
    pub fn gather(vs: Vec<Instr>) -> (r: Instr)
        ensures
            r@ =~= flat_concat(vs@),
    {
        Instr::Concat(vs)
    }

    pub fn make_instr_nop() -> (r: Instr)
        ensures
            r@ =~= seq![InstructV::IBasic(InstructBasic::Nop)],
    {
        Instr::One(Instruct::IBasic(InstructBasic::Nop))
    }

    pub fn make_instr_popc() -> (r: Instr)
        ensures
            r@ =~= seq![InstructV::IBasic(InstructBasic::PopC)],
    {
        Instr::One(Instruct::IBasic(InstructBasic::PopC))
    }

    pub fn make_instr_label(l: Label) -> (r: Instr)
        ensures
            r@ =~= seq![InstructV::ILabel(l@)],
    {
        Instr::One(Instruct::ILabel(l))
    }

    pub fn make_instr_getmemokeyl(local: local::Type) -> (r: Instr)
        ensures
            r@ =~= seq![InstructV::GetMemoKeyL(local@)],
    {
        Instr::One(Instruct::IMisc(InstructMisc::GetMemoKeyL(local)))
    }

    pub fn make_instr_setl(local: local::Type) -> (r: Instr)
        ensures
            r@ =~= seq![InstructV::SetL(local@)],
    {
        Instr::One(Instruct::IMutator(InstructMutator::SetL(local)))
    }

    pub fn make_instr_cgetl(local: local::Type) -> (r: Instr)
        ensures
            r@ =~= seq![InstructV::CGetL(local@)],
    {
        Instr::One(Instruct::IGet(InstructGet::CGetL(local)))
    }
}

} // verus!
