//! The relabel-in-place pipeline: offset indexing, reference collection,
//! dense renumbering, and rewriting.
//!
//! The pipeline runs once per emitted function body, after lowering and
//! before serialization.  It computes the offset of every label definition,
//! walks the body and the parameters' out-of-band default-value labels to
//! find every reference, assigns each referenced offset a dense zero-based
//! identifier in first-reference order, and rewrites definitions and
//! references in place.  A reference whose label has no definition is an
//! internal invariant violation of the producing pass, never a user error;
//! the checked entry point reports it instead of rewriting.

use vstd::prelude::*;

use crate::hhbc_ast::{apply_labels, instr_label_refs, FcallArgs, GenDelegation, Instruct,
    InstructCall, InstructControlFlow, InstructIterator, InstructMisc, InstructV};
use crate::hhas_param::{param_label_refs, HhasParam, HhasParamV};
use crate::emitter::Emitter;
use crate::id_collections::{IdMap, IdSet, NamedMap};
use crate::instruction_sequence::{flat_concat, lemma_flat_concat_elem, lemma_flat_concat_split,
    Instr};
use crate::label::{labels_view, Label, LabelV};

verus! {

// ---------------------------------------------------------------------------
// Offset indexing
// ---------------------------------------------------------------------------

/// Accumulator of the offset indexer: the offset of the next atomic
/// instruction, and the definitions seen so far.
pub struct IndexSt {
    pub off: usize,
    pub defs: Map<usize, usize>,
}

/// One indexing step.  A label definition binds its identifier to the
/// current offset and occupies no offset of its own; every other instruction
/// advances the offset.  A definition whose label is not yet finalized is
/// rejected by the executable passes and leaves the accumulator unchanged
/// here.
pub open spec fn index_step(st: IndexSt, i: InstructV) -> IndexSt {
    match i {
        InstructV::ILabel(l) => match l {
            LabelV::Regular(id) => IndexSt { off: st.off, defs: st.defs.insert(id, st.off) },
            LabelV::Named(_) => st,
        },
        _ => IndexSt { off: (st.off + 1) as usize, defs: st.defs },
    }
}

/// The indexer folded over a flattened sequence, left to right.
pub open spec fn index_fold(st: IndexSt, s: Seq<InstructV>) -> IndexSt
    decreases s.len(),
{
    if s.len() == 0 {
        st
    } else {
        index_fold(index_step(st, s[0]), s.drop_first())
    }
}

/// The label-to-offset map of a flattened body.
pub open spec fn label_defs(s: Seq<InstructV>) -> Map<usize, usize> {
    index_fold(IndexSt { off: 0, defs: Map::empty() }, s).defs
}

/// Folding a concatenation folds its parts in order.
pub proof fn lemma_index_fold_app(st: IndexSt, a: Seq<InstructV>, b: Seq<InstructV>)
    ensures
        index_fold(st, a + b) == index_fold(index_fold(st, a), b),
    decreases a.len(),
{
    if a.len() == 0 {
        assert(a + b =~= b);
    } else {
        assert((a + b).drop_first() =~= a.drop_first() + b);
        assert((a + b)[0] == a[0]);
        lemma_index_fold_app(index_step(st, a[0]), a.drop_first(), b);
    }
}

/// The offset component never decreases and grows by at most the number of
/// instructions folded in.
pub proof fn lemma_index_fold_off(st: IndexSt, s: Seq<InstructV>)
    requires
        st.off + s.len() <= usize::MAX,
    ensures
        st.off <= index_fold(st, s).off <= st.off + s.len(),
    decreases s.len(),
{
    if s.len() > 0 {
        lemma_index_fold_off(index_step(st, s[0]), s.drop_first());
    }
}

/// Folding a single instruction is one step.
pub proof fn lemma_index_fold_single(st: IndexSt, x: InstructV)
    ensures
        index_fold(st, seq![x]) == index_step(st, x),
{
    assert(seq![x].drop_first() =~= Seq::<InstructV>::empty());
    assert(index_fold(index_step(st, x), Seq::<InstructV>::empty()) == index_step(st, x));
    assert(seq![x][0] == x);
}

/// Every label definition in the sequence is finalized.
pub open spec fn defs_finalized(s: Seq<InstructV>) -> bool {
    forall|k: int| 0 <= k < s.len() && s[k] is ILabel ==> s[k]->ILabel_0 is Regular
}

// ---------------------------------------------------------------------------
// References
// ---------------------------------------------------------------------------

/// The in-sequence label references of a flattened body, in document order.
pub open spec fn body_refs(s: Seq<InstructV>) -> Seq<LabelV>
    decreases s.len(),
{
    if s.len() == 0 {
        Seq::empty()
    } else {
        instr_label_refs(s[0]) + body_refs(s.drop_first())
    }
}

pub proof fn lemma_body_refs_app(a: Seq<InstructV>, b: Seq<InstructV>)
    ensures
        body_refs(a + b) == body_refs(a) + body_refs(b),
    decreases a.len(),
{
    if a.len() == 0 {
        assert(a + b =~= b);
        assert(body_refs(a) + body_refs(b) =~= body_refs(b));
    } else {
        assert((a + b).drop_first() =~= a.drop_first() + b);
        assert((a + b)[0] == a[0]);
        lemma_body_refs_app(a.drop_first(), b);
        assert(instr_label_refs(a[0]) + (body_refs(a.drop_first()) + body_refs(b))
            =~= (instr_label_refs(a[0]) + body_refs(a.drop_first())) + body_refs(b));
    }
}

/// The references of a single-instruction sequence are that instruction's.
pub proof fn lemma_body_refs_single(x: InstructV)
    ensures
        body_refs(seq![x]) == instr_label_refs(x),
{
    assert(seq![x].drop_first() =~= Seq::<InstructV>::empty());
    assert(body_refs(Seq::<InstructV>::empty()) =~= Seq::<LabelV>::empty());
    assert(seq![x][0] == x);
    assert(instr_label_refs(x) + Seq::<LabelV>::empty() =~= instr_label_refs(x));
}

/// Every label reference of the body and the parameter list, in renumbering
/// order: in-sequence references first, then each parameter's default-value
/// reference in parameter order.
pub open spec fn all_label_refs(s: Seq<InstructV>, ps: Seq<HhasParamV>) -> Seq<LabelV> {
    body_refs(s) + param_label_refs(ps)
}

/// A reference is acceptable when it is finalized and its identifier has a
/// definition.
pub open spec fn ref_ok(l: LabelV, defs: Map<usize, usize>) -> bool {
    l is Regular && defs.contains_key(l->Regular_0)
}

/// The precondition of the relabel-in-place pipeline: the flattened body
/// fits the offset counter, every definition is finalized, and every
/// reference resolves through the label-to-offset map.
pub open spec fn wf_relabel_input(s: Seq<InstructV>, ps: Seq<HhasParamV>) -> bool {
    &&& s.len() <= usize::MAX
    &&& defs_finalized(s)
    &&& forall|k: int|
        0 <= k < all_label_refs(s, ps).len() ==> ref_ok(
            #[trigger] all_label_refs(s, ps)[k],
            label_defs(s),
        )
}

// ---------------------------------------------------------------------------
// Reference collection and dense renumbering
// ---------------------------------------------------------------------------

/// Accumulator of the reference collector: the identifiers confirmed used,
/// and the dense renaming keyed by resolved offset.
pub struct CollectSt {
    pub used: Set<usize>,
    pub rename: Map<usize, usize>,
}

impl CollectSt {
    pub open spec fn empty() -> CollectSt {
        CollectSt { used: Set::empty(), rename: Map::empty() }
    }
}

/// One collection step.  The first reference to an offset allocates the next
/// dense identifier and records the referencing label as used; later
/// references to the same offset, through any alias, reuse the identifier.
/// References the executable passes reject leave the accumulator unchanged
/// here.
pub open spec fn collect_step(st: CollectSt, l: LabelV, defs: Map<usize, usize>) -> CollectSt {
    match l {
        LabelV::Regular(id) => if defs.contains_key(id) {
            if st.rename.contains_key(defs[id]) {
                st
            } else {
                CollectSt {
                    used: st.used.insert(id),
                    rename: st.rename.insert(defs[id], st.rename.dom().len() as usize),
                }
            }
        } else {
            st
        },
        LabelV::Named(_) => st,
    }
}

/// The collector folded over a reference sequence, left to right.
pub open spec fn collect_fold(st: CollectSt, ls: Seq<LabelV>, defs: Map<usize, usize>) -> CollectSt
    decreases ls.len(),
{
    if ls.len() == 0 {
        st
    } else {
        collect_fold(collect_step(st, ls[0], defs), ls.drop_first(), defs)
    }
}

pub proof fn lemma_collect_fold_app(
    st: CollectSt,
    a: Seq<LabelV>,
    b: Seq<LabelV>,
    defs: Map<usize, usize>,
)
    ensures
        collect_fold(st, a + b, defs) == collect_fold(collect_fold(st, a, defs), b, defs),
    decreases a.len(),
{
    if a.len() == 0 {
        assert(a + b =~= b);
    } else {
        assert((a + b).drop_first() =~= a.drop_first() + b);
        assert((a + b)[0] == a[0]);
        lemma_collect_fold_app(collect_step(st, a[0], defs), a.drop_first(), b, defs);
    }
}

/// The used set and rename map of a body and parameter list.
pub open spec fn label_ref_state(s: Seq<InstructV>, ps: Seq<HhasParamV>) -> CollectSt {
    collect_fold(CollectSt::empty(), all_label_refs(s, ps), label_defs(s))
}

// ---------------------------------------------------------------------------
// Rewriting
// ---------------------------------------------------------------------------

/// A rewritten label reference: the dense identifier of its resolved offset.
/// A reference the pipeline would reject is left unchanged here; the
/// executable passes exclude that case.
pub open spec fn relabel_ref_l(
    l: LabelV,
    defs: Map<usize, usize>,
    rm: Map<usize, usize>,
) -> LabelV {
    match l {
        LabelV::Regular(id) => if defs.contains_key(id) && rm.contains_key(defs[id]) {
            LabelV::Regular(rm[defs[id]])
        } else {
            l
        },
        LabelV::Named(_) => l,
    }
}

/// A rewritten label definition: renumbered only when its identifier was
/// referenced; an unreferenced definition keeps its original identifier and
/// stays in place.
pub open spec fn relabel_def_l(
    l: LabelV,
    defs: Map<usize, usize>,
    used: Set<usize>,
    rm: Map<usize, usize>,
) -> LabelV {
    match l {
        LabelV::Regular(id) => if used.contains(id) && defs.contains_key(id)
            && rm.contains_key(defs[id]) {
            LabelV::Regular(rm[defs[id]])
        } else {
            l
        },
        LabelV::Named(_) => l,
    }
}

/// One rewritten instruction.
pub open spec fn relabel_instr_v(
    i: InstructV,
    defs: Map<usize, usize>,
    used: Set<usize>,
    rm: Map<usize, usize>,
) -> InstructV {
    apply_labels(
        i,
        |l: LabelV| relabel_def_l(l, defs, used, rm),
        |l: LabelV| relabel_ref_l(l, defs, rm),
    )
}

/// The rewritten body.
pub open spec fn relabel_body_v(
    s: Seq<InstructV>,
    defs: Map<usize, usize>,
    used: Set<usize>,
    rm: Map<usize, usize>,
) -> Seq<InstructV> {
    s.map_values(|i: InstructV| relabel_instr_v(i, defs, used, rm))
}

/// One rewritten parameter: its default-value label is renumbered like any
/// other reference.
pub open spec fn relabel_param_v(
    p: HhasParamV,
    defs: Map<usize, usize>,
    rm: Map<usize, usize>,
) -> HhasParamV {
    HhasParamV {
        default_value: match p.default_value {
            Some(d) => Some((relabel_ref_l(d.0, defs, rm), d.1)),
            None => None,
        },
        ..p
    }
}

/// The rewritten parameter list.
pub open spec fn relabel_params_v(
    ps: Seq<HhasParamV>,
    defs: Map<usize, usize>,
    rm: Map<usize, usize>,
) -> Seq<HhasParamV> {
    ps.map_values(|p: HhasParamV| relabel_param_v(p, defs, rm))
}

// ---------------------------------------------------------------------------
// Offset indexing, executable
// ---------------------------------------------------------------------------

/// Recursive walk of the indexer.
fn index_pass(instr: &Instr, off: &mut usize, defs: &mut IdMap)
    requires
        old(defs).wf(),
        *old(off) + instr@.len() <= usize::MAX,
    ensures
        final(defs).wf(),
        (IndexSt { off: *final(off), defs: final(defs)@ }) == index_fold(
            (IndexSt { off: *old(off), defs: old(defs)@ }),
            instr@,
        ),
    decreases *instr,
{
    let ghost st0 = IndexSt { off: *old(off), defs: old(defs)@ };
    match instr {
        Instr::Empty => {
            proof {
                assert(instr@ =~= Seq::<InstructV>::empty());
            }
        },
        Instr::One(i) => {
            index_instr(i, off, defs);
            proof {
                assert(instr@ =~= seq![i@]);
                lemma_index_fold_single(st0, i@);
            }
        },
        Instr::List(v) => {
            let len = v.len();
            let mut j: usize = 0;
            proof {
                assert(instr@ =~= v@.map_values(|i: Instruct| i@));
            }
            while j < len
                invariant
                    defs.wf(),
                    len == v@.len(),
                    0 <= j <= len,
                    instr@ == v@.map_values(|i: Instruct| i@),
                    instr@.len() == len,
                    st0.off + len <= usize::MAX,
                    (IndexSt { off: *off, defs: defs@ }) == index_fold(
                        st0,
                        instr@.take(j as int),
                    ),
                decreases len - j,
            {
                proof {
                    lemma_index_fold_off(st0, instr@.take(j as int));
                    lemma_index_fold_app(st0, instr@.take(j as int), seq![instr@[j as int]]);
                    assert(instr@.take(j as int) + seq![instr@[j as int]]
                        =~= instr@.take(j + 1 as int));
                    lemma_index_fold_single(
                        index_fold(st0, instr@.take(j as int)),
                        instr@[j as int],
                    );
                    assert(instr@[j as int] == v@[j as int]@);
                }
                index_instr(&v[j], off, defs);
                proof {
                    assert(index_fold(st0, instr@.take(j + 1 as int))
                        == index_step(index_fold(st0, instr@.take(j as int)), instr@[j as int]));
                }
                j += 1;
            }
            proof {
                assert(instr@.take(len as int) =~= instr@);
            }
        },
        Instr::Concat(vs) => {
            let len = vs.len();
            let mut j: usize = 0;
            while j < len
                invariant
                    defs.wf(),
                    len == vs@.len(),
                    0 <= j <= len,
                    *instr == Instr::Concat(*vs),
                    instr@ == flat_concat(vs@),
                    st0.off + instr@.len() <= usize::MAX,
                    (IndexSt { off: *off, defs: defs@ }) == index_fold(
                        st0,
                        flat_concat(vs@.take(j as int)),
                    ),
                decreases len - j,
            {
                proof {
                    lemma_flat_concat_elem(vs@, j as int);
                    lemma_flat_concat_split(vs@, j + 1 as int);
                    lemma_index_fold_off(st0, flat_concat(vs@.take(j as int)));
                    lemma_index_fold_app(
                        st0,
                        flat_concat(vs@.take(j as int)),
                        vs@[j as int].flat(),
                    );
                    assert(flat_concat(vs@.take(j + 1 as int)).len() <= instr@.len());
                }
                index_pass(&vs[j], off, defs);
                j += 1;
            }
            proof {
                assert(vs@.take(len as int) =~= vs@);
            }
        },
    }
}

/// One indexing step on an atomic instruction.
fn index_instr(i: &Instruct, off: &mut usize, defs: &mut IdMap)
    requires
        old(defs).wf(),
        *old(off) < usize::MAX,
    ensures
        final(defs).wf(),
        (IndexSt { off: *final(off), defs: final(defs)@ }) == index_step(
            (IndexSt { off: *old(off), defs: old(defs)@ }),
            i@,
        ),
{
    match i {
        Instruct::ILabel(l) => {
            match l {
                Label::Regular(id) => {
                    defs.insert(*id, *off);
                },
                Label::Named(_) => {
                },
            }
        },
        _ => {
            *off = *off + 1;
        },
    }
}

/// Compute the label-to-offset map of a body.
///
/// Offsets count atomic instructions only: a definition refers to the offset
/// of the next atomic instruction and occupies none itself.  Definitions
/// must already be finalized; the flattened body must fit the offset
/// counter.
pub fn create_label_to_offset_map(body: &Instr) -> (r: IdMap)
    requires
        body@.len() <= usize::MAX,
        defs_finalized(body@),
    ensures
        r.wf(),
        r@ == label_defs(body@),
{
    let mut off: usize = 0;
    let mut defs = IdMap::new();
    index_pass(body, &mut off, &mut defs);
    defs
}


// ---------------------------------------------------------------------------
// Reference collection, executable
// ---------------------------------------------------------------------------

/// Folding a single reference is one step.
pub proof fn lemma_collect_fold_single(st: CollectSt, x: LabelV, defs: Map<usize, usize>)
    ensures
        collect_fold(st, seq![x], defs) == collect_step(st, x, defs),
{
    assert(seq![x].drop_first() =~= Seq::<LabelV>::empty());
    assert(collect_fold(collect_step(st, x, defs), Seq::<LabelV>::empty(), defs)
        == collect_step(st, x, defs));
    assert(seq![x][0] == x);
}

/// Every reference of the body and parameter list resolves through `defs`.
pub open spec fn refs_all_ok(
    s: Seq<InstructV>,
    ps: Seq<HhasParamV>,
    defs: Map<usize, usize>,
) -> bool {
    forall|k: int|
        0 <= k < all_label_refs(s, ps).len() ==> ref_ok(#[trigger] all_label_refs(s, ps)[k], defs)
}

/// A fresh label equal in value to the given one.
fn clone_label(l: &Label) -> (r: Label)
    ensures
        r@ == l@,
{
    match l {
        Label::Regular(id) => Label::Regular(*id),
        Label::Named(s) => Label::Named(s.clone()),
    }
}

/// The label references an instruction carries, in operand order.
fn get_regular_labels(i: &Instruct) -> (r: Vec<Label>)
    ensures
        labels_view(r@) == instr_label_refs(i@),
{
    let mut r: Vec<Label> = Vec::new();
    match i {
        Instruct::IIterator(InstructIterator::IterInit(_, l))
        | Instruct::IIterator(InstructIterator::IterNext(_, l))
        | Instruct::IIterator(InstructIterator::IterBreak(l, _))
        | Instruct::IGenDelegation(GenDelegation::YieldFromDelegate(_, l))
        | Instruct::IMisc(InstructMisc::MemoGet(l, _))
        | Instruct::IContFlow(InstructControlFlow::Jmp(l))
        | Instruct::IContFlow(InstructControlFlow::JmpNS(l))
        | Instruct::IContFlow(InstructControlFlow::JmpZ(l))
        | Instruct::IContFlow(InstructControlFlow::JmpNZ(l)) => {
            r.push(clone_label(l));
            proof {
                assert(labels_view(r@) =~= instr_label_refs(i@));
            }
        },
        Instruct::ICall(InstructCall::FCall(FcallArgs(_, _, _, _, fl)))
        | Instruct::ICall(InstructCall::FCallClsMethod(FcallArgs(_, _, _, _, fl), _, _))
        | Instruct::ICall(InstructCall::FCallClsMethodD(FcallArgs(_, _, _, _, fl), _, _))
        | Instruct::ICall(InstructCall::FCallClsMethodS(FcallArgs(_, _, _, _, fl), _))
        | Instruct::ICall(InstructCall::FCallClsMethodSD(FcallArgs(_, _, _, _, fl), _, _))
        | Instruct::ICall(InstructCall::FCallFunc(FcallArgs(_, _, _, _, fl), _))
        | Instruct::ICall(InstructCall::FCallFuncD(FcallArgs(_, _, _, _, fl), _))
        | Instruct::ICall(InstructCall::FCallObjMethod(FcallArgs(_, _, _, _, fl), _, _))
        | Instruct::ICall(InstructCall::FCallObjMethodD(FcallArgs(_, _, _, _, fl), _, _)) => {
            match fl {
                Some(l) => {
                    r.push(clone_label(l));
                },
                None => {
                },
            }
            proof {
                assert(labels_view(r@) =~= instr_label_refs(i@));
            }
        },
        Instruct::IContFlow(InstructControlFlow::Switch(_, _, ls)) => {
            let len = ls.len();
            let mut j: usize = 0;
            while j < len
                invariant
                    len == ls@.len(),
                    0 <= j <= len,
                    labels_view(ls@).len() == len,
                    labels_view(r@) =~= labels_view(ls@).take(j as int),
                decreases len - j,
            {
                let ghost r0 = r@;
                let x = clone_label(&ls[j]);
                r.push(x);
                proof {
                    assert(r@ == r0.push(x));
                    assert(labels_view(r0).len() == j);
                    assert(r0.len() == j);
                    assert(labels_view(r@) =~= labels_view(ls@).take(j + 1 as int));
                }
                j += 1;
            }
            proof {
                assert(labels_view(ls@).take(len as int) =~= labels_view(ls@));
                assert(labels_view(r@) =~= instr_label_refs(i@));
            }
        },
        Instruct::IContFlow(InstructControlFlow::SSwitch(pairs)) => {
            let len = pairs.len();
            let mut j: usize = 0;
            while j < len
                invariant
                    len == pairs@.len(),
                    0 <= j <= len,
                    labels_view(r@) =~= instr_label_refs(i@).take(j as int),
                    instr_label_refs(i@).len() == len,
                    forall|k: int|
                        0 <= k < len ==> #[trigger] instr_label_refs(i@)[k]
                            == pairs@[k].1@,
                decreases len - j,
            {
                let ghost r0 = r@;
                let x = clone_label(&pairs[j].1);
                r.push(x);
                proof {
                    assert(r@ == r0.push(x));
                    assert(labels_view(r0).len() == j);
                    assert(r0.len() == j);
                    assert(labels_view(r@) =~= instr_label_refs(i@).take(j + 1 as int));
                }
                j += 1;
            }
            proof {
                assert(instr_label_refs(i@).take(len as int) =~= instr_label_refs(i@));
            }
        },
        Instruct::IMisc(InstructMisc::MemoGetEager(l1, l2, _)) => {
            r.push(clone_label(l1));
            r.push(clone_label(l2));
            proof {
                assert(labels_view(r@) =~= instr_label_refs(i@));
            }
        },
        _ => {
            proof {
                assert(labels_view(r@) =~= instr_label_refs(i@));
            }
        },
    }
    r
}

/// Record one reference: resolve it to its offset and, on first sight of
/// that offset, allocate the next dense identifier and mark the label used.
fn process_ref(l: &Label, defs: &IdMap, used: &mut IdSet, rm: &mut IdMap)
    requires
        defs.wf(),
        old(used).wf(),
        old(rm).wf(),
    ensures
        final(used).wf(),
        final(rm).wf(),
        (CollectSt { used: final(used)@, rename: final(rm)@ }) == collect_step(
            (CollectSt { used: old(used)@, rename: old(rm)@ }),
            l@,
            defs@,
        ),
{
    match l {
        Label::Regular(id) => {
            match defs.get(*id) {
                Some(off) => {
                    if !rm.contains_key(off) {
                        let n = rm.len();
                        used.insert(*id);
                        rm.insert(off, n);
                    }
                },
                None => {
                },
            }
        },
        Label::Named(_) => {
        },
    }
}

/// Record the references of one label vector, in order.
fn process_refs_vec(ls: &Vec<Label>, defs: &IdMap, used: &mut IdSet, rm: &mut IdMap)
    requires
        defs.wf(),
        old(used).wf(),
        old(rm).wf(),
    ensures
        final(used).wf(),
        final(rm).wf(),
        (CollectSt { used: final(used)@, rename: final(rm)@ }) == collect_fold(
            (CollectSt { used: old(used)@, rename: old(rm)@ }),
            labels_view(ls@),
            defs@,
        ),
{
    let ghost st0 = CollectSt { used: old(used)@, rename: old(rm)@ };
    let ghost lv = labels_view(ls@);
    let len = ls.len();
    let mut j: usize = 0;
    while j < len
        invariant
            defs.wf(),
            used.wf(),
            rm.wf(),
            len == ls@.len(),
            0 <= j <= len,
            lv == labels_view(ls@),
            lv.len() == ls@.len(),
            (CollectSt { used: used@, rename: rm@ }) == collect_fold(
                st0,
                lv.take(j as int),
                defs@,
            ),
        decreases len - j,
    {
        proof {
            lemma_collect_fold_app(st0, lv.take(j as int), seq![lv[j as int]], defs@);
            lemma_collect_fold_single(
                collect_fold(st0, lv.take(j as int), defs@),
                lv[j as int],
                defs@,
            );
            assert(lv.take(j as int) + seq![lv[j as int]] =~= lv.take(j + 1 as int));
        }
        proof {
            crate::label::lemma_labels_view_index(ls@, j as int);
        }
        process_ref(&ls[j], defs, used, rm);
        j += 1;
    }
    proof {
        assert(lv.take(len as int) =~= lv);
    }
}

/// Recursive walk of the collector over the body.
fn collect_pass(instr: &Instr, defs: &IdMap, used: &mut IdSet, rm: &mut IdMap)
    requires
        defs.wf(),
        old(used).wf(),
        old(rm).wf(),
    ensures
        final(used).wf(),
        final(rm).wf(),
        (CollectSt { used: final(used)@, rename: final(rm)@ }) == collect_fold(
            (CollectSt { used: old(used)@, rename: old(rm)@ }),
            body_refs(instr@),
            defs@,
        ),
    decreases *instr,
{
    let ghost st0 = CollectSt { used: old(used)@, rename: old(rm)@ };
    match instr {
        Instr::Empty => {
            proof {
                assert(instr@ =~= Seq::<InstructV>::empty());
            }
        },
        Instr::One(i) => {
            let ls = get_regular_labels(i);
            process_refs_vec(&ls, defs, used, rm);
            proof {
                assert(instr@ =~= seq![i@]);
                lemma_body_refs_single(i@);
            }
        },
        Instr::List(v) => {
            let len = v.len();
            let mut j: usize = 0;
            proof {
                assert(instr@ =~= v@.map_values(|i: Instruct| i@));
            }
            while j < len
                invariant
                    defs.wf(),
                    used.wf(),
                    rm.wf(),
                    len == v@.len(),
                    0 <= j <= len,
                    instr@ == v@.map_values(|i: Instruct| i@),
                    instr@.len() == len,
                    (CollectSt { used: used@, rename: rm@ }) == collect_fold(
                        st0,
                        body_refs(instr@.take(j as int)),
                        defs@,
                    ),
                decreases len - j,
            {
                let ls = get_regular_labels(&v[j]);
                proof {
                    assert(instr@[j as int] == v@[j as int]@);
                    lemma_body_refs_app(instr@.take(j as int), seq![instr@[j as int]]);
                    assert(instr@.take(j as int) + seq![instr@[j as int]]
                        =~= instr@.take(j + 1 as int));
                    lemma_body_refs_single(instr@[j as int]);
                    lemma_collect_fold_app(
                        st0,
                        body_refs(instr@.take(j as int)),
                        instr_label_refs(instr@[j as int]),
                        defs@,
                    );
                }
                process_refs_vec(&ls, defs, used, rm);
                j += 1;
            }
            proof {
                assert(instr@.take(len as int) =~= instr@);
            }
        },
        Instr::Concat(vs) => {
            let len = vs.len();
            let mut j: usize = 0;
            while j < len
                invariant
                    defs.wf(),
                    used.wf(),
                    rm.wf(),
                    len == vs@.len(),
                    0 <= j <= len,
                    *instr == Instr::Concat(*vs),
                    instr@ == flat_concat(vs@),
                    (CollectSt { used: used@, rename: rm@ }) == collect_fold(
                        st0,
                        body_refs(flat_concat(vs@.take(j as int))),
                        defs@,
                    ),
                decreases len - j,
            {
                proof {
                    lemma_flat_concat_elem(vs@, j as int);
                    lemma_body_refs_app(flat_concat(vs@.take(j as int)), vs@[j as int].flat());
                    lemma_collect_fold_app(
                        st0,
                        body_refs(flat_concat(vs@.take(j as int))),
                        body_refs(vs@[j as int].flat()),
                        defs@,
                    );
                }
                collect_pass(&vs[j], defs, used, rm);
                j += 1;
            }
            proof {
                assert(vs@.take(len as int) =~= vs@);
            }
        },
    }
}

/// The references of a single-parameter list are that parameter's.
pub proof fn lemma_param_refs_single(p: HhasParamV)
    ensures
        param_label_refs(seq![p]) == crate::hhas_param::param_refs(p),
{
    assert(seq![p].drop_first() =~= Seq::<HhasParamV>::empty());
    assert(param_label_refs(Seq::<HhasParamV>::empty()) =~= Seq::<LabelV>::empty());
    assert(seq![p][0] == p);
    assert(crate::hhas_param::param_refs(p) + Seq::<LabelV>::empty()
        =~= crate::hhas_param::param_refs(p));
}

/// Record the parameters' default-value references, in parameter order.
fn process_params(params: &Vec<HhasParam>, defs: &IdMap, used: &mut IdSet, rm: &mut IdMap)
    requires
        defs.wf(),
        old(used).wf(),
        old(rm).wf(),
    ensures
        final(used).wf(),
        final(rm).wf(),
        (CollectSt { used: final(used)@, rename: final(rm)@ }) == collect_fold(
            (CollectSt { used: old(used)@, rename: old(rm)@ }),
            param_label_refs(crate::hhas_param::params_view(params@)),
            defs@,
        ),
{
    let ghost st0 = CollectSt { used: old(used)@, rename: old(rm)@ };
    let ghost pv = crate::hhas_param::params_view(params@);
    let len = params.len();
    let mut j: usize = 0;
    while j < len
        invariant
            defs.wf(),
            used.wf(),
            rm.wf(),
            len == params@.len(),
            0 <= j <= len,
            pv == crate::hhas_param::params_view(params@),
            pv.len() == len,
            (CollectSt { used: used@, rename: rm@ }) == collect_fold(
                st0,
                param_label_refs(pv.take(j as int)),
                defs@,
            ),
        decreases len - j,
    {
        proof {
            crate::hhas_param::lemma_param_label_refs_app(
                pv.take(j as int),
                seq![pv[j as int]],
            );
            assert(pv.take(j as int) + seq![pv[j as int]] =~= pv.take(j + 1 as int));
            lemma_param_refs_single(pv[j as int]);
            lemma_collect_fold_app(
                st0,
                param_label_refs(pv.take(j as int)),
                crate::hhas_param::param_refs(pv[j as int]),
                defs@,
            );
            assert(pv[j as int] == params@[j as int]@);
        }
        match &params[j].default_value {
            Some(d) => {
                let ghost stj = CollectSt { used: used@, rename: rm@ };
                process_ref(&d.0, defs, used, rm);
                proof {
                    lemma_collect_fold_single(stj, d.0@, defs@);
                }
            },
            None => {
            },
        }
        j += 1;
    }
    proof {
        assert(pv.take(len as int) =~= pv);
    }
}

/// Walk the body, then the parameter list, and return the used set and the
/// dense rename map.
///
/// The first reference to each offset, in document order with in-sequence
/// references before parameter references, allocates the next dense
/// identifier starting from zero; aliasing references reuse it.  Every
/// reference must resolve through `defs`.
pub fn create_label_ref_map(defs: &IdMap, params: &Vec<HhasParam>, body: &Instr) -> (r: (
    IdSet,
    IdMap,
))
    requires
        defs.wf(),
        refs_all_ok(body@, crate::hhas_param::params_view(params@), defs@),
    ensures
        r.0.wf(),
        r.1.wf(),
        (CollectSt { used: r.0@, rename: r.1@ }) == label_ref_state_with(
            body@,
            crate::hhas_param::params_view(params@),
            defs@,
        ),
{
    let mut used = IdSet::new();
    let mut rm = IdMap::new();
    collect_pass(body, defs, &mut used, &mut rm);
    process_params(params, defs, &mut used, &mut rm);
    proof {
        lemma_collect_fold_app(
            CollectSt::empty(),
            body_refs(body@),
            param_label_refs(crate::hhas_param::params_view(params@)),
            defs@,
        );
    }
    (used, rm)
}

/// The collector state over a body and parameter list with a given
/// label-to-offset map.
pub open spec fn label_ref_state_with(
    s: Seq<InstructV>,
    ps: Seq<HhasParamV>,
    defs: Map<usize, usize>,
) -> CollectSt {
    collect_fold(CollectSt::empty(), all_label_refs(s, ps), defs)
}


// ---------------------------------------------------------------------------
// Rewriting, executable
// ---------------------------------------------------------------------------

/// Every reference an instruction carries can be rewritten: it resolves
/// through `defs` into `rm`.
pub open spec fn instr_rewritable(
    i: InstructV,
    defs: Map<usize, usize>,
    used: Set<usize>,
    rm: Map<usize, usize>,
) -> bool {
    &&& forall|k: int|
        0 <= k < instr_label_refs(i).len() ==> (#[trigger] instr_label_refs(i)[k] is Regular
            ==> defs.contains_key(instr_label_refs(i)[k]->Regular_0) && rm.contains_key(
            defs[instr_label_refs(i)[k]->Regular_0],
        ))
    &&& (i is ILabel && i->ILabel_0 is Regular && used.contains(i->ILabel_0->Regular_0)
        ==> defs.contains_key(i->ILabel_0->Regular_0))
}

/// Every instruction of a flattened body can be rewritten.
pub open spec fn body_rewritable(
    s: Seq<InstructV>,
    defs: Map<usize, usize>,
    used: Set<usize>,
    rm: Map<usize, usize>,
) -> bool {
    forall|k: int| 0 <= k < s.len() ==> instr_rewritable(#[trigger] s[k], defs, used, rm)
}

/// Every parameter reference can be rewritten.
pub open spec fn params_rewritable(
    ps: Seq<HhasParamV>,
    defs: Map<usize, usize>,
    rm: Map<usize, usize>,
) -> bool {
    forall|k: int|
        0 <= k < ps.len() ==> (match #[trigger] ps[k].default_value {
            Some(d) => d.0 is Regular ==> defs.contains_key(d.0->Regular_0)
                && rm.contains_key(defs[d.0->Regular_0]),
            None => true,
        })
}

/// Rewrite one label reference in place.
fn relabel_ref_label(l: &mut Label, defs: &IdMap, rm: &IdMap)
    requires
        defs.wf(),
        rm.wf(),
        old(l)@ is Regular ==> defs@.contains_key(old(l)@->Regular_0) && rm@.contains_key(
            defs@[old(l)@->Regular_0],
        ),
    ensures
        final(l)@ == relabel_ref_l(old(l)@, defs@, rm@),
{
    match l {
        Label::Regular(id) => {
            let off = defs.get(*id).unwrap();
            let dense = rm.get(off).unwrap();
            *id = dense;
        },
        Label::Named(_) => {
        },
    }
}

/// Rewrite one label definition in place: only labels confirmed used are
/// renumbered; an unreferenced definition keeps its original identifier.
fn relabel_def_label(l: &mut Label, defs: &IdMap, used: &IdSet, rm: &IdMap)
    requires
        defs.wf(),
        used.wf(),
        rm.wf(),
        old(l)@ is Regular && used@.contains(old(l)@->Regular_0) ==> defs@.contains_key(
            old(l)@->Regular_0,
        ),
    ensures
        final(l)@ == relabel_def_l(old(l)@, defs@, used@, rm@),
{
    match l {
        Label::Regular(id) => {
            if used.contains(*id) {
                let off = defs.get(*id).unwrap();
                match rm.get(off) {
                    Some(dense) => {
                        *id = dense;
                    },
                    None => {
                    },
                }
            }
        },
        Label::Named(_) => {
        },
    }
}

/// Rewrite the optional branch target of a call-argument block in place.
fn relabel_fcall(fa: &mut FcallArgs, defs: &IdMap, rm: &IdMap)
    requires
        defs.wf(),
        rm.wf(),
        forall|k: int|
            0 <= k < crate::hhbc_ast::fcall_label_refs(old(fa)@).len() ==> (
            #[trigger] crate::hhbc_ast::fcall_label_refs(old(fa)@)[k] is Regular
                ==> defs@.contains_key(crate::hhbc_ast::fcall_label_refs(old(fa)@)[k]->Regular_0)
                && rm@.contains_key(
                defs@[crate::hhbc_ast::fcall_label_refs(old(fa)@)[k]->Regular_0],
            )),
    ensures
        final(fa)@ == crate::hhbc_ast::apply_fcall(
            old(fa)@,
            |l: LabelV| relabel_ref_l(l, defs@, rm@),
        ),
{
    match &mut fa.4 {
        Some(l) => {
            proof {
                assert(crate::hhbc_ast::fcall_label_refs(old(fa)@)[0] == old(fa)@
                    .async_eager_target->0);
            }
            relabel_ref_label(l, defs, rm);
        },
        None => {
        },
    }
}

/// Rewrite one instruction in place: a definition through the used-set rule,
/// every reference unconditionally.
fn rewrite_instruct(i: &mut Instruct, defs: &IdMap, used: &IdSet, rm: &IdMap)
    requires
        defs.wf(),
        used.wf(),
        rm.wf(),
        instr_rewritable(old(i)@, defs@, used@, rm@),
    ensures
        final(i)@ == relabel_instr_v(old(i)@, defs@, used@, rm@),
{
    match i {
        Instruct::ILabel(l) => {
            relabel_def_label(l, defs, used, rm);
        },
        Instruct::IIterator(InstructIterator::IterInit(_, l)) => {
            proof {
                assert(instr_label_refs(old(i)@)[0] == l@);
            }
            relabel_ref_label(l, defs, rm);
        },
        Instruct::IIterator(InstructIterator::IterNext(_, l)) => {
            proof {
                assert(instr_label_refs(old(i)@)[0] == l@);
            }
            relabel_ref_label(l, defs, rm);
        },
        Instruct::IIterator(InstructIterator::IterBreak(l, _)) => {
            proof {
                assert(instr_label_refs(old(i)@)[0] == l@);
            }
            relabel_ref_label(l, defs, rm);
        },
        Instruct::IGenDelegation(GenDelegation::YieldFromDelegate(_, l)) => {
            proof {
                assert(instr_label_refs(old(i)@)[0] == l@);
            }
            relabel_ref_label(l, defs, rm);
        },
        Instruct::IMisc(InstructMisc::MemoGet(l, _)) => {
            proof {
                assert(instr_label_refs(old(i)@)[0] == l@);
            }
            relabel_ref_label(l, defs, rm);
        },
        Instruct::IContFlow(InstructControlFlow::Jmp(l)) => {
            proof {
                assert(instr_label_refs(old(i)@)[0] == l@);
            }
            relabel_ref_label(l, defs, rm);
        },
        Instruct::IContFlow(InstructControlFlow::JmpNS(l)) => {
            proof {
                assert(instr_label_refs(old(i)@)[0] == l@);
            }
            relabel_ref_label(l, defs, rm);
        },
        Instruct::IContFlow(InstructControlFlow::JmpZ(l)) => {
            proof {
                assert(instr_label_refs(old(i)@)[0] == l@);
            }
            relabel_ref_label(l, defs, rm);
        },
        Instruct::IContFlow(InstructControlFlow::JmpNZ(l)) => {
            proof {
                assert(instr_label_refs(old(i)@)[0] == l@);
            }
            relabel_ref_label(l, defs, rm);
        },
        Instruct::ICall(InstructCall::FCall(fa)) => {
            proof {
                assert(forall|k: int|
                    0 <= k < crate::hhbc_ast::fcall_label_refs(fa@).len()
                        ==> crate::hhbc_ast::fcall_label_refs(fa@)[k]
                        == instr_label_refs(old(i)@)[k]);
            }
            relabel_fcall(fa, defs, rm);
        },
        Instruct::ICall(InstructCall::FCallClsMethod(fa, _, _)) => {
            proof {
                assert(forall|k: int|
                    0 <= k < crate::hhbc_ast::fcall_label_refs(fa@).len()
                        ==> crate::hhbc_ast::fcall_label_refs(fa@)[k]
                        == instr_label_refs(old(i)@)[k]);
            }
            relabel_fcall(fa, defs, rm);
        },
        Instruct::ICall(InstructCall::FCallClsMethodD(fa, _, _)) => {
            proof {
                assert(forall|k: int|
                    0 <= k < crate::hhbc_ast::fcall_label_refs(fa@).len()
                        ==> crate::hhbc_ast::fcall_label_refs(fa@)[k]
                        == instr_label_refs(old(i)@)[k]);
            }
            relabel_fcall(fa, defs, rm);
        },
        Instruct::ICall(InstructCall::FCallClsMethodS(fa, _)) => {
            proof {
                assert(forall|k: int|
                    0 <= k < crate::hhbc_ast::fcall_label_refs(fa@).len()
                        ==> crate::hhbc_ast::fcall_label_refs(fa@)[k]
                        == instr_label_refs(old(i)@)[k]);
            }
            relabel_fcall(fa, defs, rm);
        },
        Instruct::ICall(InstructCall::FCallClsMethodSD(fa, _, _)) => {
            proof {
                assert(forall|k: int|
                    0 <= k < crate::hhbc_ast::fcall_label_refs(fa@).len()
                        ==> crate::hhbc_ast::fcall_label_refs(fa@)[k]
                        == instr_label_refs(old(i)@)[k]);
            }
            relabel_fcall(fa, defs, rm);
        },
        Instruct::ICall(InstructCall::FCallFunc(fa, _)) => {
            proof {
                assert(forall|k: int|
                    0 <= k < crate::hhbc_ast::fcall_label_refs(fa@).len()
                        ==> crate::hhbc_ast::fcall_label_refs(fa@)[k]
                        == instr_label_refs(old(i)@)[k]);
            }
            relabel_fcall(fa, defs, rm);
        },
        Instruct::ICall(InstructCall::FCallFuncD(fa, _)) => {
            proof {
                assert(forall|k: int|
                    0 <= k < crate::hhbc_ast::fcall_label_refs(fa@).len()
                        ==> crate::hhbc_ast::fcall_label_refs(fa@)[k]
                        == instr_label_refs(old(i)@)[k]);
            }
            relabel_fcall(fa, defs, rm);
        },
        Instruct::ICall(InstructCall::FCallObjMethod(fa, _, _)) => {
            proof {
                assert(forall|k: int|
                    0 <= k < crate::hhbc_ast::fcall_label_refs(fa@).len()
                        ==> crate::hhbc_ast::fcall_label_refs(fa@)[k]
                        == instr_label_refs(old(i)@)[k]);
            }
            relabel_fcall(fa, defs, rm);
        },
        Instruct::ICall(InstructCall::FCallObjMethodD(fa, _, _)) => {
            proof {
                assert(forall|k: int|
                    0 <= k < crate::hhbc_ast::fcall_label_refs(fa@).len()
                        ==> crate::hhbc_ast::fcall_label_refs(fa@)[k]
                        == instr_label_refs(old(i)@)[k]);
            }
            relabel_fcall(fa, defs, rm);
        },
        Instruct::IContFlow(InstructControlFlow::Switch(_, _, ls)) => {
            let ghost ls0 = ls@;
            let len = ls.len();
            let mut j: usize = 0;
            while j < len
                invariant
                    defs.wf(),
                    rm.wf(),
                    len == ls@.len(),
                    0 <= j <= len,
                    ls0.len() == len,
                    instr_rewritable(old(i)@, defs@, used@, rm@),
                    *old(i) is IContFlow,
                    old(i)->IContFlow_0 is Switch,
                    ls0 == old(i)->IContFlow_0->Switch_2@,
                    instr_label_refs(old(i)@) == labels_view(ls0),
                    forall|k: int| j <= k < len ==> #[trigger] ls@[k] == ls0[k],
                    forall|k: int|
                        0 <= k < j ==> #[trigger] ls@[k]@ == relabel_ref_l(
                            ls0[k]@,
                            defs@,
                            rm@,
                        ),
                decreases len - j,
            {
                proof {
                    crate::label::lemma_labels_view_index(ls0, j as int);
                }
                let l = &mut ls[j];
                relabel_ref_label(l, defs, rm);
                j += 1;
            }
            proof {
                assert forall|k: int| 0 <= k < len implies #[trigger] labels_view(ls@)[k]
                    == relabel_ref_l(labels_view(ls0)[k], defs@, rm@) by {
                    crate::label::lemma_labels_view_index(ls@, k);
                    crate::label::lemma_labels_view_index(ls0, k);
                }
                assert(labels_view(ls@) =~= labels_view(ls0).map_values(
                    |l: LabelV| relabel_ref_l(l, defs@, rm@),
                ));
                assert(i@ =~= relabel_instr_v(old(i)@, defs@, used@, rm@));
            }
        },
        Instruct::IContFlow(InstructControlFlow::SSwitch(pairs)) => {
            let ghost ps0 = pairs@;
            let len = pairs.len();
            let mut j: usize = 0;
            while j < len
                invariant
                    defs.wf(),
                    rm.wf(),
                    len == pairs@.len(),
                    0 <= j <= len,
                    ps0.len() == len,
                    instr_rewritable(old(i)@, defs@, used@, rm@),
                    *old(i) is IContFlow,
                    old(i)->IContFlow_0 is SSwitch,
                    ps0 == old(i)->IContFlow_0->SSwitch_0@,
                    forall|k: int|
                        0 <= k < len ==> #[trigger] instr_label_refs(old(i)@)[k]
                            == ps0[k].1@,
                    instr_label_refs(old(i)@).len() == len,
                    forall|k: int| j <= k < len ==> #[trigger] pairs@[k] == ps0[k],
                    forall|k: int|
                        0 <= k < j ==> (#[trigger] pairs@[k].1@ == relabel_ref_l(
                            ps0[k].1@,
                            defs@,
                            rm@,
                        ) && pairs@[k].0@ == ps0[k].0@),
                decreases len - j,
            {
                proof {
                    assert(pairs@[j as int] == ps0[j as int]);
                    assert(instr_label_refs(old(i)@)[j as int] == ps0[j as int].1@);
                }
                let pair = &mut pairs[j];
                relabel_ref_label(&mut pair.1, defs, rm);
                j += 1;
            }
            proof {
                assert forall|k: int| 0 <= k < len implies #[trigger] pairs@[k].1@
                    == relabel_ref_l(ps0[k].1@, defs@, rm@) && pairs@[k].0@ == ps0[k].0@ by {}
                assert(i@ =~= relabel_instr_v(old(i)@, defs@, used@, rm@));
            }
        },
        Instruct::IMisc(InstructMisc::MemoGetEager(l1, l2, _)) => {
            proof {
                assert(instr_label_refs(old(i)@)[0] == l1@);
                assert(instr_label_refs(old(i)@)[1] == l2@);
            }
            relabel_ref_label(l1, defs, rm);
            relabel_ref_label(l2, defs, rm);
        },
        _ => {
        },
    }
}


/// Rewriting distributes over concatenation.
pub proof fn lemma_relabel_body_app(
    a: Seq<InstructV>,
    b: Seq<InstructV>,
    defs: Map<usize, usize>,
    used: Set<usize>,
    rm: Map<usize, usize>,
)
    ensures
        relabel_body_v(a + b, defs, used, rm) == relabel_body_v(a, defs, used, rm)
            + relabel_body_v(b, defs, used, rm),
{
    assert(relabel_body_v(a + b, defs, used, rm) =~= relabel_body_v(a, defs, used, rm)
        + relabel_body_v(b, defs, used, rm));
}

/// Rewriting a single instruction.
pub proof fn lemma_relabel_body_single(
    x: InstructV,
    defs: Map<usize, usize>,
    used: Set<usize>,
    rm: Map<usize, usize>,
)
    ensures
        relabel_body_v(seq![x], defs, used, rm) == seq![relabel_instr_v(x, defs, used, rm)],
{
    assert(relabel_body_v(seq![x], defs, used, rm) =~= seq![
        relabel_instr_v(x, defs, used, rm),
    ]);
}

/// The flattened tail of a concatenation list starts with its next element.
pub proof fn lemma_flat_concat_skip_unfold(v: Seq<Instr>, j: int)
    requires
        0 <= j < v.len(),
    ensures
        flat_concat(v.skip(j)) == v[j].flat() + flat_concat(v.skip(j + 1)),
{
    assert(v.skip(j).len() > 0);
    assert(v.skip(j)[0] == v[j]);
    assert(v.skip(j).drop_first() =~= v.skip(j + 1));
}

/// An element of a rewritable concatenation is itself rewritable.
proof fn lemma_body_rewritable_concat_elem(
    v: Seq<Instr>,
    j: int,
    defs: Map<usize, usize>,
    used: Set<usize>,
    rm: Map<usize, usize>,
)
    requires
        body_rewritable(flat_concat(v), defs, used, rm),
        0 <= j < v.len(),
    ensures
        body_rewritable(v[j].flat(), defs, used, rm),
{
    lemma_flat_concat_split(v, j);
    lemma_flat_concat_skip_unfold(v, j);
    let pre = flat_concat(v.take(j));
    let elem = v[j].flat();
    assert forall|k: int| 0 <= k < elem.len() implies instr_rewritable(
        #[trigger] elem[k],
        defs,
        used,
        rm,
    ) by {
        assert(flat_concat(v)[pre.len() + k] == elem[k]);
    }
}

/// Recursive walk of the rewriter over the body.
fn rewrite_body_pass(instr: &mut Instr, defs: &IdMap, used: &IdSet, rm: &IdMap)
    requires
        defs.wf(),
        used.wf(),
        rm.wf(),
        body_rewritable(old(instr)@, defs@, used@, rm@),
    ensures
        final(instr)@ == relabel_body_v(old(instr)@, defs@, used@, rm@),
    decreases *old(instr),
{
    match instr {
        Instr::Empty => {
            proof {
                assert(instr@ =~= Seq::<InstructV>::empty());
                assert(instr@ =~= relabel_body_v(old(instr)@, defs@, used@, rm@));
            }
        },
        Instr::One(i0) => {
            proof {
                assert(old(instr)@ =~= seq![old(instr)->One_0@]);
                assert(old(instr)@[0] == old(instr)->One_0@);
            }
            rewrite_instruct(i0, defs, used, rm);
            proof {
                assert(instr@ =~= seq![i0@]);
                lemma_relabel_body_single(old(instr)->One_0@, defs@, used@, rm@);
            }
        },
        Instr::List(v) => {
            let ghost v0 = old(instr)->List_0@;
            let len = v.len();
            let mut j: usize = 0;
            while j < len
                invariant
                    defs.wf(),
                    used.wf(),
                    rm.wf(),
                    len == v@.len(),
                    0 <= j <= len,
                    *old(instr) is List,
                    v0 == old(instr)->List_0@,
                    v0.len() == len,
                    body_rewritable(old(instr)@, defs@, used@, rm@),
                    old(instr)@ == v0.map_values(|i: Instruct| i@),
                    forall|k: int| j <= k < len ==> #[trigger] v@[k] == v0[k],
                    forall|k: int|
                        0 <= k < j ==> #[trigger] v@[k]@ == relabel_instr_v(
                            v0[k]@,
                            defs@,
                            used@,
                            rm@,
                        ),
                decreases len - j,
            {
                proof {
                    assert(old(instr)@[j as int] == v0[j as int]@);
                    assert(instr_rewritable(old(instr)@[j as int], defs@, used@, rm@));
                }
                let e = &mut v[j];
                rewrite_instruct(e, defs, used, rm);
                j += 1;
            }
            proof {
                assert forall|k: int| 0 <= k < len implies v@.map_values(
                    |i: Instruct| i@,
                )[k] == #[trigger] relabel_body_v(old(instr)@, defs@, used@, rm@)[k] by {
                    assert(v@[k]@ == relabel_instr_v(v0[k]@, defs@, used@, rm@));
                    assert(old(instr)@[k] == v0[k]@);
                }
                assert(instr@ =~= relabel_body_v(old(instr)@, defs@, used@, rm@));
            }
        },
        Instr::Concat(vs) => {
            let ghost vs0 = old(instr)->Concat_0@;
            let len = vs.len();
            let mut j: usize = 0;
            while j < len
                invariant
                    defs.wf(),
                    used.wf(),
                    rm.wf(),
                    len == vs@.len(),
                    0 <= j <= len,
                    *old(instr) is Concat,
                    vs0 == old(instr)->Concat_0@,
                    vs0.len() == len,
                    body_rewritable(flat_concat(vs0), defs@, used@, rm@),
                    old(instr)@ == flat_concat(vs0),
                    forall|k: int| j <= k < len ==> #[trigger] vs@[k] == vs0[k],
                    flat_concat(vs@.take(j as int)) == relabel_body_v(
                        flat_concat(vs0.take(j as int)),
                        defs@,
                        used@,
                        rm@,
                    ),
                decreases len - j,
            {
                let ghost vs_a = vs@;
                proof {
                    lemma_body_rewritable_concat_elem(vs0, j as int, defs@, used@, rm@);
                    assert(decreases_to!(*old(instr) => old(instr)->Concat_0));
                    assert(decreases_to!(old(instr)->Concat_0 => old(instr)->Concat_0@));
                    assert(decreases_to!(old(instr)->Concat_0@ => old(instr)->Concat_0@[
                        j as int]));
                }
                let e = &mut vs[j];
                rewrite_body_pass(e, defs, used, rm);
                proof {
                    assert(vs@ == vs_a.update(j as int, vs@[j as int]));
                    assert(vs@.take(j as int) =~= vs_a.take(j as int));
                    assert(vs@[j as int]@ == relabel_body_v(
                        vs0[j as int].flat(),
                        defs@,
                        used@,
                        rm@,
                    ));
                    lemma_flat_concat_elem(vs@, j as int);
                    lemma_flat_concat_elem(vs0, j as int);
                    lemma_relabel_body_app(
                        flat_concat(vs0.take(j as int)),
                        vs0[j as int].flat(),
                        defs@,
                        used@,
                        rm@,
                    );
                }
                j += 1;
            }
            proof {
                assert(vs@.take(len as int) =~= vs@);
                assert(vs0.take(len as int) =~= vs0);
            }
        },
    }
}

/// Rewrite the parameters' default-value references in place, in parameter
/// order.
fn rewrite_params(params: &mut Vec<HhasParam>, defs: &IdMap, rm: &IdMap)
    requires
        defs.wf(),
        rm.wf(),
        params_rewritable(crate::hhas_param::params_view(old(params)@), defs@, rm@),
    ensures
        crate::hhas_param::params_view(final(params)@) == relabel_params_v(
            crate::hhas_param::params_view(old(params)@),
            defs@,
            rm@,
        ),
{
    let ghost ps0 = old(params)@;
    let len = params.len();
    let mut j: usize = 0;
    while j < len
        invariant
            defs.wf(),
            rm.wf(),
            len == params@.len(),
            0 <= j <= len,
            ps0.len() == len,
            params_rewritable(crate::hhas_param::params_view(ps0), defs@, rm@),
            forall|k: int| j <= k < len ==> #[trigger] params@[k] == ps0[k],
            forall|k: int|
                0 <= k < j ==> #[trigger] params@[k]@ == relabel_param_v(
                    ps0[k]@,
                    defs@,
                    rm@,
                ),
        decreases len - j,
    {
        proof {
            assert(crate::hhas_param::params_view(ps0)[j as int] == ps0[j as int]@);
        }
        let p = &mut params[j];
        match &mut p.default_value {
            Some(d) => {
                relabel_ref_label(&mut d.0, defs, rm);
            },
            None => {
            },
        }
        j += 1;
    }
    proof {
        assert forall|k: int| 0 <= k < len implies crate::hhas_param::params_view(
            params@,
        )[k] == #[trigger] relabel_params_v(crate::hhas_param::params_view(ps0), defs@, rm@)[
            k] by {
            assert(params@[k]@ == relabel_param_v(ps0[k]@, defs@, rm@));
            assert(crate::hhas_param::params_view(ps0)[k] == ps0[k]@);
        }
        assert(crate::hhas_param::params_view(params@) =~= relabel_params_v(
            crate::hhas_param::params_view(ps0),
            defs@,
            rm@,
        ));
    }
}

/// Rewrite definitions and references throughout the parameter list and the
/// body, through the three scratch tables.
///
/// A definition whose label is in the used set takes the dense identifier of
/// its offset; an unreferenced definition is left unchanged.  Every
/// reference, in-sequence or parameter-borne, takes the dense identifier of
/// its resolved offset.
pub fn rewrite_params_and_body(
    defs: &IdMap,
    used: &IdSet,
    refs: &IdMap,
    params: &mut Vec<HhasParam>,
    body: &mut Instr,
)
    requires
        defs.wf(),
        used.wf(),
        refs.wf(),
        body_rewritable(old(body)@, defs@, used@, refs@),
        params_rewritable(crate::hhas_param::params_view(old(params)@), defs@, refs@),
    ensures
        final(body)@ == relabel_body_v(old(body)@, defs@, used@, refs@),
        crate::hhas_param::params_view(final(params)@) == relabel_params_v(
            crate::hhas_param::params_view(old(params)@),
            defs@,
            refs@,
        ),
{
    rewrite_params(params, defs, refs);
    rewrite_body_pass(body, defs, used, refs);
}


// ---------------------------------------------------------------------------
// From well-formed input to rewritable state
// ---------------------------------------------------------------------------

/// Collection only grows the used set and the rename map's domain.
pub proof fn lemma_collect_mono(st: CollectSt, ls: Seq<LabelV>, defs: Map<usize, usize>)
    ensures
        st.used.subset_of(collect_fold(st, ls, defs).used),
        st.rename.dom().subset_of(collect_fold(st, ls, defs).rename.dom()),
    decreases ls.len(),
{
    if ls.len() > 0 {
        lemma_collect_mono(collect_step(st, ls[0], defs), ls.drop_first(), defs);
    }
}

/// After collection, every resolvable reference's offset has a dense
/// identifier.
pub proof fn lemma_collect_covers(
    st: CollectSt,
    ls: Seq<LabelV>,
    defs: Map<usize, usize>,
    l: LabelV,
)
    requires
        ls.contains(l),
        ref_ok(l, defs),
    ensures
        collect_fold(st, ls, defs).rename.contains_key(defs[l->Regular_0]),
    decreases ls.len(),
{
    let st1 = collect_step(st, ls[0], defs);
    if ls[0] == l {
        assert(st1.rename.contains_key(defs[l->Regular_0]));
        lemma_collect_mono(st1, ls.drop_first(), defs);
    } else {
        let i = choose|i: int| 0 <= i < ls.len() && ls[i] == l;
        assert(i > 0);
        assert(ls.drop_first()[i - 1] == l);
        assert(ls.drop_first().contains(l));
        lemma_collect_covers(st1, ls.drop_first(), defs, l);
    }
}

/// Every identifier the collector marks used has a definition (or was
/// already in the incoming used set).
pub proof fn lemma_collect_used_dom(st: CollectSt, ls: Seq<LabelV>, defs: Map<usize, usize>)
    ensures
        forall|id: usize|
            collect_fold(st, ls, defs).used.contains(id) ==> st.used.contains(id)
                || defs.contains_key(id),
    decreases ls.len(),
{
    if ls.len() > 0 {
        lemma_collect_used_dom(collect_step(st, ls[0], defs), ls.drop_first(), defs);
    }
}

/// Each reference an instruction carries occurs among the body's references.
proof fn lemma_body_refs_contains(s: Seq<InstructV>, k: int, m: int)
    requires
        0 <= k < s.len(),
        0 <= m < instr_label_refs(s[k]).len(),
    ensures
        body_refs(s).contains(instr_label_refs(s[k])[m]),
    decreases k,
{
    if k == 0 {
        assert(body_refs(s)[m] == instr_label_refs(s[0])[m]);
    } else {
        lemma_body_refs_contains(s.drop_first(), k - 1, m);
        assert(s.drop_first()[k - 1] == s[k]);
        let t = choose|t: int|
            0 <= t < body_refs(s.drop_first()).len() && body_refs(s.drop_first())[t]
                == instr_label_refs(s[k])[m];
        assert(body_refs(s)[instr_label_refs(s[0]).len() + t] == instr_label_refs(s[k])[m]);
    }
}

/// Each parameter's default-value reference occurs among the parameter
/// references.
proof fn lemma_param_refs_contains(ps: Seq<HhasParamV>, k: int)
    requires
        0 <= k < ps.len(),
        ps[k].default_value is Some,
    ensures
        param_label_refs(ps).contains((ps[k].default_value->0).0),
    decreases k,
{
    if k == 0 {
        assert(param_label_refs(ps)[0] == (ps[0].default_value->0).0);
    } else {
        lemma_param_refs_contains(ps.drop_first(), k - 1);
        assert(ps.drop_first()[k - 1] == ps[k]);
        let pr0 = crate::hhas_param::param_refs(ps[0]);
        let t = choose|t: int|
            0 <= t < param_label_refs(ps.drop_first()).len() && param_label_refs(
                ps.drop_first(),
            )[t] == (ps[k].default_value->0).0;
        assert(param_label_refs(ps)[pr0.len() + t] == (ps[k].default_value->0).0);
    }
}

/// An element of the body's references, or of the parameters' references, is
/// an element of the combined reference sequence.
proof fn lemma_all_refs_elem(s: Seq<InstructV>, ps: Seq<HhasParamV>, l: LabelV)
    requires
        body_refs(s).contains(l) || param_label_refs(ps).contains(l),
    ensures
        all_label_refs(s, ps).contains(l),
{
    if body_refs(s).contains(l) {
        let t = choose|t: int| 0 <= t < body_refs(s).len() && body_refs(s)[t] == l;
        assert(all_label_refs(s, ps)[t] == l);
    } else {
        let t = choose|t: int|
            0 <= t < param_label_refs(ps).len() && param_label_refs(ps)[t] == l;
        assert(all_label_refs(s, ps)[body_refs(s).len() + t] == l);
    }
}

/// On well-formed input, the collector's output lets the rewriter resolve
/// every definition and reference.
pub proof fn lemma_wf_gives_rewritable(s: Seq<InstructV>, ps: Seq<HhasParamV>)
    requires
        wf_relabel_input(s, ps),
    ensures
        body_rewritable(s, label_defs(s), label_ref_state(s, ps).used, label_ref_state(
            s,
            ps,
        ).rename),
        params_rewritable(ps, label_defs(s), label_ref_state(s, ps).rename),
{
    let defs = label_defs(s);
    let st = label_ref_state(s, ps);
    lemma_collect_used_dom(CollectSt::empty(), all_label_refs(s, ps), defs);
    assert forall|k: int| 0 <= k < s.len() implies instr_rewritable(
        #[trigger] s[k],
        defs,
        st.used,
        st.rename,
    ) by {
        assert forall|m: int|
            0 <= m < instr_label_refs(s[k]).len() implies (#[trigger] instr_label_refs(s[k])[m]
            is Regular ==> defs.contains_key(instr_label_refs(s[k])[m]->Regular_0)
            && st.rename.contains_key(defs[instr_label_refs(s[k])[m]->Regular_0])) by {
            lemma_body_refs_contains(s, k, m);
            let l = instr_label_refs(s[k])[m];
            lemma_all_refs_elem(s, ps, l);
            let t = choose|t: int|
                0 <= t < all_label_refs(s, ps).len() && all_label_refs(s, ps)[t] == l;
            assert(ref_ok(all_label_refs(s, ps)[t], defs));
            lemma_collect_covers(CollectSt::empty(), all_label_refs(s, ps), defs, l);
        }
    }
    assert forall|k: int| 0 <= k < ps.len() implies (match #[trigger] ps[k].default_value {
        Some(d) => d.0 is Regular ==> defs.contains_key(d.0->Regular_0)
            && st.rename.contains_key(defs[d.0->Regular_0]),
        None => true,
    }) by {
        if ps[k].default_value is Some {
            lemma_param_refs_contains(ps, k);
            let l = (ps[k].default_value->0).0;
            lemma_all_refs_elem(s, ps, l);
            let t = choose|t: int|
                0 <= t < all_label_refs(s, ps).len() && all_label_refs(s, ps)[t] == l;
            assert(ref_ok(all_label_refs(s, ps)[t], defs));
            lemma_collect_covers(CollectSt::empty(), all_label_refs(s, ps), defs, l);
        }
    }
}

// ---------------------------------------------------------------------------
// The relabel-in-place pipeline
// ---------------------------------------------------------------------------

/// Relabel one function or method body in place.
///
/// Computes the label-to-offset map, collects every reference (in-sequence
/// first, then the parameters' default-value references in parameter order),
/// assigns each referenced offset a dense zero-based identifier in
/// first-reference order, and rewrites definitions and references
/// accordingly.  Unreferenced definitions keep their original identifiers.
/// The input must be well formed: every definition finalized, every
/// reference defined; [`try_relabel_function`] checks that instead of
/// requiring it.
pub fn relabel_function(params: &mut Vec<HhasParam>, body: &mut Instr)
    requires
        wf_relabel_input(old(body)@, crate::hhas_param::params_view(old(params)@)),
    ensures
        ({
            let defs = label_defs(old(body)@);
            let st = label_ref_state(old(body)@, crate::hhas_param::params_view(old(params)@));
            &&& final(body)@ == relabel_body_v(old(body)@, defs, st.used, st.rename)
            &&& crate::hhas_param::params_view(final(params)@) == relabel_params_v(
                crate::hhas_param::params_view(old(params)@),
                defs,
                st.rename,
            )
        }),
{
    let ghost s = old(body)@;
    let ghost psv = crate::hhas_param::params_view(old(params)@);
    let defs = create_label_to_offset_map(body);
    let (used, refs) = create_label_ref_map(&defs, params, body);
    proof {
        lemma_wf_gives_rewritable(s, psv);
    }
    rewrite_params_and_body(&defs, &used, &refs, params, body);
}


// ---------------------------------------------------------------------------
// Checked entry point
// ---------------------------------------------------------------------------

/// An internal invariant violation found in the input of the relabeling
/// pipeline.  Either kind means the producing pass is buggy; neither is a
/// user-facing error.
#[derive(Debug, Clone, Copy, PartialEq, Eq, Structural)]
pub enum LabelError {
    /// A label definition or reference is not in final, numeric form.
    UnfinalizedLabel,
    /// A reference's label has no definition anywhere in the body.
    DanglingReference,
}

/// A single definition is acceptable when it is not an unfinalized label.
pub open spec fn instr_def_ok(i: InstructV) -> bool {
    i is ILabel ==> i->ILabel_0 is Regular
}

/// The fault of one reference, if any.
pub open spec fn ref_fault(l: LabelV, defs: Map<usize, usize>) -> Option<LabelError> {
    match l {
        LabelV::Named(_) => Some(LabelError::UnfinalizedLabel),
        LabelV::Regular(id) => if defs.contains_key(id) {
            None
        } else {
            Some(LabelError::DanglingReference)
        },
    }
}

/// Keep the first fault found.
pub open spec fn fault_step(
    acc: Option<LabelError>,
    l: LabelV,
    defs: Map<usize, usize>,
) -> Option<LabelError> {
    if acc is Some {
        acc
    } else {
        ref_fault(l, defs)
    }
}

/// The first fault of a reference sequence, scanned left to right.
pub open spec fn fault_fold(
    acc: Option<LabelError>,
    ls: Seq<LabelV>,
    defs: Map<usize, usize>,
) -> Option<LabelError>
    decreases ls.len(),
{
    if ls.len() == 0 {
        acc
    } else {
        fault_fold(fault_step(acc, ls[0], defs), ls.drop_first(), defs)
    }
}

pub proof fn lemma_fault_fold_app(
    acc: Option<LabelError>,
    a: Seq<LabelV>,
    b: Seq<LabelV>,
    defs: Map<usize, usize>,
)
    ensures
        fault_fold(acc, a + b, defs) == fault_fold(fault_fold(acc, a, defs), b, defs),
    decreases a.len(),
{
    if a.len() == 0 {
        assert(a + b =~= b);
    } else {
        assert((a + b).drop_first() =~= a.drop_first() + b);
        assert((a + b)[0] == a[0]);
        lemma_fault_fold_app(fault_step(acc, a[0], defs), a.drop_first(), b, defs);
    }
}

pub proof fn lemma_fault_fold_single(
    acc: Option<LabelError>,
    x: LabelV,
    defs: Map<usize, usize>,
)
    ensures
        fault_fold(acc, seq![x], defs) == fault_step(acc, x, defs),
{
    assert(seq![x].drop_first() =~= Seq::<LabelV>::empty());
    assert(fault_fold(fault_step(acc, x, defs), Seq::<LabelV>::empty(), defs) == fault_step(
        acc,
        x,
        defs,
    ));
    assert(seq![x][0] == x);
}

/// The scan reports no fault exactly when every reference is acceptable.
pub proof fn lemma_fault_fold_none(ls: Seq<LabelV>, defs: Map<usize, usize>)
    ensures
        fault_fold(None, ls, defs) is None <==> (forall|k: int|
            0 <= k < ls.len() ==> ref_ok(#[trigger] ls[k], defs)),
    decreases ls.len(),
{
    if ls.len() > 0 {
        let tail = ls.drop_first();
        lemma_fault_fold_none(tail, defs);
        if ref_fault(ls[0], defs) is Some {
            lemma_fault_fold_some(ref_fault(ls[0], defs)->0, tail, defs);
            assert(!ref_ok(ls[0], defs));
            assert(fault_fold(None, ls, defs) is Some);
        } else {
            assert(ref_ok(ls[0], defs));
            assert(fault_fold(None, ls, defs) == fault_fold(None, tail, defs));
            if fault_fold(None, tail, defs) is None {
                assert forall|k: int| 0 <= k < ls.len() implies ref_ok(
                    #[trigger] ls[k],
                    defs,
                ) by {
                    if k > 0 {
                        assert(tail[k - 1] == ls[k]);
                    }
                }
            } else {
                let k = choose|k: int| 0 <= k < tail.len() && !ref_ok(#[trigger] tail[k], defs);
                assert(ls[k + 1] == tail[k]);
                assert(!ref_ok(ls[k + 1], defs));
            }
        }
    }
}

/// A fault already found is reported regardless of what follows.
pub proof fn lemma_fault_fold_some(e: LabelError, ls: Seq<LabelV>, defs: Map<usize, usize>)
    ensures
        fault_fold(Some(e), ls, defs) == Some(e),
    decreases ls.len(),
{
    if ls.len() > 0 {
        lemma_fault_fold_some(e, ls.drop_first(), defs);
    }
}

/// Whether every definition of the body is finalized.
fn check_defs_finalized(instr: &Instr) -> (b: bool)
    ensures
        b == defs_finalized(instr@),
    decreases *instr,
{
    match instr {
        Instr::Empty => {
            proof {
                assert(instr@ =~= Seq::<InstructV>::empty());
            }
            true
        },
        Instr::One(i) => {
            let ok = match i {
                Instruct::ILabel(Label::Named(_)) => false,
                _ => true,
            };
            proof {
                assert(instr@ =~= seq![i@]);
                assert(instr@[0] == i@);
                assert(ok == instr_def_ok(i@));
            }
            ok
        },
        Instr::List(v) => {
            let len = v.len();
            let mut j: usize = 0;
            let mut ok = true;
            proof {
                assert(instr@ =~= v@.map_values(|i: Instruct| i@));
            }
            while j < len
                invariant
                    len == v@.len(),
                    0 <= j <= len,
                    instr@ == v@.map_values(|i: Instruct| i@),
                    instr@.len() == len,
                    ok == (forall|k: int|
                        0 <= k < j ==> instr_def_ok(#[trigger] instr@[k])),
                decreases len - j,
            {
                proof {
                    assert(instr@[j as int] == v@[j as int]@);
                }
                let this_ok = match &v[j] {
                    Instruct::ILabel(Label::Named(_)) => false,
                    _ => true,
                };
                proof {
                    assert(this_ok == instr_def_ok(instr@[j as int]));
                }
                ok = ok && this_ok;
                j += 1;
            }
            ok
        },
        Instr::Concat(vs) => {
            let len = vs.len();
            let mut j: usize = 0;
            let mut ok = true;
            while j < len
                invariant
                    len == vs@.len(),
                    0 <= j <= len,
                    *instr == Instr::Concat(*vs),
                    instr@ == flat_concat(vs@),
                    ok == defs_finalized(flat_concat(vs@.take(j as int))),
                decreases len - j,
            {
                proof {
                    lemma_flat_concat_elem(vs@, j as int);
                }
                let sub_ok = check_defs_finalized(&vs[j]);
                proof {
                    let a = flat_concat(vs@.take(j as int));
                    let b = vs@[j as int].flat();
                    assert forall|k: int|
                        0 <= k < (a + b).len() && (ok && sub_ok) implies instr_def_ok(
                        #[trigger] (a + b)[k],
                    ) by {
                        if k < a.len() {
                            assert((a + b)[k] == a[k]);
                        } else {
                            assert((a + b)[k] == b[k - a.len()]);
                        }
                    }
                    if !(ok && sub_ok) {
                        if !ok {
                            let k = choose|k: int| 0 <= k < a.len() && !instr_def_ok(a[k]);
                            assert((a + b)[k] == a[k]);
                            assert(!defs_finalized(a + b));
                        } else {
                            let k = choose|k: int| 0 <= k < b.len() && !instr_def_ok(b[k]);
                            assert((a + b)[a.len() + k] == b[k]);
                            assert(!defs_finalized(a + b));
                        }
                    }
                }
                ok = ok && sub_ok;
                j += 1;
            }
            proof {
                assert(vs@.take(len as int) =~= vs@);
            }
            ok
        },
    }
}

/// Scan one instruction's references for the first fault.
fn fault_scan_vec(ls: &Vec<Label>, defs: &IdMap, acc: &mut Option<LabelError>)
    requires
        defs.wf(),
    ensures
        *final(acc) == fault_fold(*old(acc), labels_view(ls@), defs@),
{
    let ghost lv = labels_view(ls@);
    let len = ls.len();
    let mut j: usize = 0;
    while j < len
        invariant
            defs.wf(),
            len == ls@.len(),
            0 <= j <= len,
            lv == labels_view(ls@),
            lv.len() == len,
            *acc == fault_fold(*old(acc), lv.take(j as int), defs@),
        decreases len - j,
    {
        proof {
            lemma_fault_fold_app(*old(acc), lv.take(j as int), seq![lv[j as int]], defs@);
            lemma_fault_fold_single(
                fault_fold(*old(acc), lv.take(j as int), defs@),
                lv[j as int],
                defs@,
            );
            assert(lv.take(j as int) + seq![lv[j as int]] =~= lv.take(j + 1 as int));
            crate::label::lemma_labels_view_index(ls@, j as int);
        }
        if acc.is_none() {
            match &ls[j] {
                Label::Named(_) => {
                    *acc = Some(LabelError::UnfinalizedLabel);
                },
                Label::Regular(id) => {
                    if !defs.contains_key(*id) {
                        *acc = Some(LabelError::DanglingReference);
                    }
                },
            }
        }
        j += 1;
    }
    proof {
        assert(lv.take(len as int) =~= lv);
    }
}

/// Scan the body's references for the first fault, in document order.
fn fault_scan_body(instr: &Instr, defs: &IdMap, acc: &mut Option<LabelError>)
    requires
        defs.wf(),
    ensures
        *final(acc) == fault_fold(*old(acc), body_refs(instr@), defs@),
    decreases *instr,
{
    match instr {
        Instr::Empty => {
            proof {
                assert(instr@ =~= Seq::<InstructV>::empty());
            }
        },
        Instr::One(i) => {
            let ls = get_regular_labels(i);
            fault_scan_vec(&ls, defs, acc);
            proof {
                assert(instr@ =~= seq![i@]);
                lemma_body_refs_single(i@);
            }
        },
        Instr::List(v) => {
            let len = v.len();
            let mut j: usize = 0;
            proof {
                assert(instr@ =~= v@.map_values(|i: Instruct| i@));
            }
            while j < len
                invariant
                    defs.wf(),
                    len == v@.len(),
                    0 <= j <= len,
                    instr@ == v@.map_values(|i: Instruct| i@),
                    instr@.len() == len,
                    *acc == fault_fold(*old(acc), body_refs(instr@.take(j as int)), defs@),
                decreases len - j,
            {
                let ls = get_regular_labels(&v[j]);
                proof {
                    assert(instr@[j as int] == v@[j as int]@);
                    lemma_body_refs_app(instr@.take(j as int), seq![instr@[j as int]]);
                    assert(instr@.take(j as int) + seq![instr@[j as int]]
                        =~= instr@.take(j + 1 as int));
                    lemma_body_refs_single(instr@[j as int]);
                    lemma_fault_fold_app(
                        *old(acc),
                        body_refs(instr@.take(j as int)),
                        instr_label_refs(instr@[j as int]),
                        defs@,
                    );
                }
                fault_scan_vec(&ls, defs, acc);
                j += 1;
            }
            proof {
                assert(instr@.take(len as int) =~= instr@);
            }
        },
        Instr::Concat(vs) => {
            let len = vs.len();
            let mut j: usize = 0;
            while j < len
                invariant
                    defs.wf(),
                    len == vs@.len(),
                    0 <= j <= len,
                    *instr == Instr::Concat(*vs),
                    instr@ == flat_concat(vs@),
                    *acc == fault_fold(
                        *old(acc),
                        body_refs(flat_concat(vs@.take(j as int))),
                        defs@,
                    ),
                decreases len - j,
            {
                proof {
                    lemma_flat_concat_elem(vs@, j as int);
                    lemma_body_refs_app(flat_concat(vs@.take(j as int)), vs@[j as int].flat());
                    lemma_fault_fold_app(
                        *old(acc),
                        body_refs(flat_concat(vs@.take(j as int))),
                        body_refs(vs@[j as int].flat()),
                        defs@,
                    );
                }
                fault_scan_body(&vs[j], defs, acc);
                j += 1;
            }
            proof {
                assert(vs@.take(len as int) =~= vs@);
            }
        },
    }
}

/// Scan the parameters' references for the first fault, in parameter order.
fn fault_scan_params(params: &Vec<HhasParam>, defs: &IdMap, acc: &mut Option<LabelError>)
    requires
        defs.wf(),
    ensures
        *final(acc) == fault_fold(
            *old(acc),
            param_label_refs(crate::hhas_param::params_view(params@)),
            defs@,
        ),
{
    let ghost pv = crate::hhas_param::params_view(params@);
    let len = params.len();
    let mut j: usize = 0;
    while j < len
        invariant
            defs.wf(),
            len == params@.len(),
            0 <= j <= len,
            pv == crate::hhas_param::params_view(params@),
            pv.len() == len,
            *acc == fault_fold(*old(acc), param_label_refs(pv.take(j as int)), defs@),
        decreases len - j,
    {
        proof {
            crate::hhas_param::lemma_param_label_refs_app(
                pv.take(j as int),
                seq![pv[j as int]],
            );
            assert(pv.take(j as int) + seq![pv[j as int]] =~= pv.take(j + 1 as int));
            lemma_param_refs_single(pv[j as int]);
            lemma_fault_fold_app(
                *old(acc),
                param_label_refs(pv.take(j as int)),
                crate::hhas_param::param_refs(pv[j as int]),
                defs@,
            );
            assert(pv[j as int] == params@[j as int]@);
        }
        match &params[j].default_value {
            Some(d) => {
                let ghost acc0 = *acc;
                if acc.is_none() {
                    match &d.0 {
                        Label::Named(_) => {
                            *acc = Some(LabelError::UnfinalizedLabel);
                        },
                        Label::Regular(id) => {
                            if !defs.contains_key(*id) {
                                *acc = Some(LabelError::DanglingReference);
                            }
                        },
                    }
                }
                proof {
                    lemma_fault_fold_single(acc0, d.0@, defs@);
                }
            },
            None => {
            },
        }
        j += 1;
    }
    proof {
        assert(pv.take(len as int) =~= pv);
    }
}

/// Relabel one function or method body in place, first checking the
/// pipeline's invariants instead of assuming them.
///
/// On well-formed input this rewrites exactly as [`relabel_function`] and
/// returns `Ok`.  A definition that is not finalized is reported as
/// [`LabelError::UnfinalizedLabel`]; otherwise the first offending
/// reference, in renumbering order, decides between
/// [`LabelError::UnfinalizedLabel`] and [`LabelError::DanglingReference`].
/// On any error nothing is modified: the producing pass is buggy and no
/// partial output is emitted.
pub fn try_relabel_function(params: &mut Vec<HhasParam>, body: &mut Instr) -> (r: Result<
    (),
    LabelError,
>)
    requires
        old(body)@.len() <= usize::MAX,
    ensures
        ({
            let s = old(body)@;
            let psv = crate::hhas_param::params_view(old(params)@);
            let defs = label_defs(s);
            let st = label_ref_state(s, psv);
            &&& (r is Ok <==> wf_relabel_input(s, psv))
            &&& (!defs_finalized(s) ==> r == Result::<(), LabelError>::Err(
                LabelError::UnfinalizedLabel,
            ))
            &&& (defs_finalized(s) && fault_fold(None, all_label_refs(s, psv), defs) is Some
                ==> r == Result::<(), LabelError>::Err(
                fault_fold(None, all_label_refs(s, psv), defs)->0,
            ))
            &&& (r is Err ==> *final(body) == *old(body) && *final(params) == *old(params))
            &&& (r is Ok ==> final(body)@ == relabel_body_v(s, defs, st.used, st.rename)
                && crate::hhas_param::params_view(final(params)@) == relabel_params_v(
                psv,
                defs,
                st.rename,
            ))
        }),
{
    let ghost s = old(body)@;
    let ghost psv = crate::hhas_param::params_view(old(params)@);
    if !check_defs_finalized(body) {
        return Err(LabelError::UnfinalizedLabel);
    }
    let defs = create_label_to_offset_map(body);
    let mut fault: Option<LabelError> = None;
    fault_scan_body(body, &defs, &mut fault);
    fault_scan_params(params, &defs, &mut fault);
    proof {
        lemma_fault_fold_app(None, body_refs(s), param_label_refs(psv), defs@);
        lemma_fault_fold_none(all_label_refs(s, psv), defs@);
    }
    match fault {
        Some(e) => Err(e),
        None => {
            relabel_function(params, body);
            Ok(())
        },
    }
}


// ---------------------------------------------------------------------------
// Fresh-label cloning
// ---------------------------------------------------------------------------

/// Accumulator of the cloner's first pass: replacement identifiers for the
/// regular and the named labels defined inside the block, and how many fresh
/// labels have been allocated.  Regular and named labels share no identifier
/// space, so the two maps are independent.
pub struct FreshSt {
    pub regular: Map<usize, usize>,
    pub named: Map<Seq<char>, usize>,
    pub count: nat,
}

impl FreshSt {
    pub open spec fn empty() -> FreshSt {
        FreshSt { regular: Map::empty(), named: Map::empty(), count: 0 }
    }
}

/// One allocation step: every label definition, regular or named, draws the
/// next fresh identifier, `base` being the generator's state when cloning
/// began.
pub open spec fn fresh_step(st: FreshSt, i: InstructV, base: usize) -> FreshSt {
    match i {
        InstructV::ILabel(l) => match l {
            LabelV::Regular(id) => FreshSt {
                regular: st.regular.insert(id, (base + st.count) as usize),
                count: st.count + 1,
                ..st
            },
            LabelV::Named(nm) => FreshSt {
                named: st.named.insert(nm, (base + st.count) as usize),
                count: st.count + 1,
                ..st
            },
        },
        _ => st,
    }
}

/// The allocation pass folded over a flattened block, left to right.
pub open spec fn fresh_fold(st: FreshSt, s: Seq<InstructV>, base: usize) -> FreshSt
    decreases s.len(),
{
    if s.len() == 0 {
        st
    } else {
        fresh_fold(fresh_step(st, s[0], base), s.drop_first(), base)
    }
}

/// The replacement maps of a block.
pub open spec fn fresh_maps(s: Seq<InstructV>, base: usize) -> FreshSt {
    fresh_fold(FreshSt::empty(), s, base)
}

/// The number of label definitions in a flattened block.
pub open spec fn def_count(s: Seq<InstructV>) -> nat
    decreases s.len(),
{
    if s.len() == 0 {
        0
    } else {
        (if s[0] is ILabel {
            1nat
        } else {
            0nat
        }) + def_count(s.drop_first())
    }
}

pub proof fn lemma_fresh_fold_app(st: FreshSt, a: Seq<InstructV>, b: Seq<InstructV>, base: usize)
    ensures
        fresh_fold(st, a + b, base) == fresh_fold(fresh_fold(st, a, base), b, base),
    decreases a.len(),
{
    if a.len() == 0 {
        assert(a + b =~= b);
    } else {
        assert((a + b).drop_first() =~= a.drop_first() + b);
        assert((a + b)[0] == a[0]);
        lemma_fresh_fold_app(fresh_step(st, a[0], base), a.drop_first(), b, base);
    }
}

pub proof fn lemma_fresh_fold_single(st: FreshSt, x: InstructV, base: usize)
    ensures
        fresh_fold(st, seq![x], base) == fresh_step(st, x, base),
{
    assert(seq![x].drop_first() =~= Seq::<InstructV>::empty());
    assert(fresh_fold(fresh_step(st, x, base), Seq::<InstructV>::empty(), base) == fresh_step(
        st,
        x,
        base,
    ));
    assert(seq![x][0] == x);
}

/// The allocation pass draws exactly one fresh label per definition.
pub proof fn lemma_fresh_fold_count(st: FreshSt, s: Seq<InstructV>, base: usize)
    ensures
        fresh_fold(st, s, base).count == st.count + def_count(s),
    decreases s.len(),
{
    if s.len() > 0 {
        lemma_fresh_fold_count(fresh_step(st, s[0], base), s.drop_first(), base);
    }
}

/// `def_count` adds over concatenation.
pub proof fn lemma_def_count_app(a: Seq<InstructV>, b: Seq<InstructV>)
    ensures
        def_count(a + b) == def_count(a) + def_count(b),
    decreases a.len(),
{
    if a.len() == 0 {
        assert(a + b =~= b);
    } else {
        assert((a + b).drop_first() =~= a.drop_first() + b);
        assert((a + b)[0] == a[0]);
        lemma_def_count_app(a.drop_first(), b);
    }
}

/// A substituted label: labels defined inside the block take their fresh
/// replacement; labels defined outside are left unchanged.
pub open spec fn subst_label(
    l: LabelV,
    reg: Map<usize, usize>,
    named: Map<Seq<char>, usize>,
) -> LabelV {
    match l {
        LabelV::Regular(id) => if reg.contains_key(id) {
            LabelV::Regular(reg[id])
        } else {
            l
        },
        LabelV::Named(nm) => if named.contains_key(nm) {
            LabelV::Regular(named[nm])
        } else {
            l
        },
    }
}

/// One substituted instruction: definitions and references alike.
pub open spec fn subst_instr_v(
    i: InstructV,
    reg: Map<usize, usize>,
    named: Map<Seq<char>, usize>,
) -> InstructV {
    apply_labels(i, |l: LabelV| subst_label(l, reg, named), |l: LabelV| subst_label(l, reg, named))
}

/// The substituted block.
pub open spec fn subst_body_v(
    s: Seq<InstructV>,
    reg: Map<usize, usize>,
    named: Map<Seq<char>, usize>,
) -> Seq<InstructV> {
    s.map_values(|i: InstructV| subst_instr_v(i, reg, named))
}

pub proof fn lemma_subst_body_app(
    a: Seq<InstructV>,
    b: Seq<InstructV>,
    reg: Map<usize, usize>,
    named: Map<Seq<char>, usize>,
)
    ensures
        subst_body_v(a + b, reg, named) == subst_body_v(a, reg, named) + subst_body_v(
            b,
            reg,
            named,
        ),
{
    assert(subst_body_v(a + b, reg, named) =~= subst_body_v(a, reg, named) + subst_body_v(
        b,
        reg,
        named,
    ));
}

/// Rebuilding an instruction through identity label maps yields the
/// instruction itself.
pub proof fn lemma_apply_labels_id(
    i: InstructV,
    fd: spec_fn(LabelV) -> LabelV,
    fr: spec_fn(LabelV) -> LabelV,
)
    requires
        forall|l: LabelV| #[trigger] fd(l) == l,
        forall|l: LabelV| #[trigger] fr(l) == l,
    ensures
        apply_labels(i, fd, fr) == i,
{
    match i {
        InstructV::Switch(k, base, ls) => {
            assert(ls.map_values(fr) =~= ls);
            assert(apply_labels(i, fd, fr) =~= i);
        },
        InstructV::SSwitch(pairs) => {
            assert(pairs.map_values(|p: (Seq<char>, LabelV)| (p.0, fr(p.1))) =~= pairs);
            assert(apply_labels(i, fd, fr) =~= i);
        },
        InstructV::FCall(fa) => {
            assert(apply_labels(i, fd, fr) =~= i);
        },
        InstructV::FCallClsMethod(fa, _, _) => {
            assert(apply_labels(i, fd, fr) =~= i);
        },
        InstructV::FCallClsMethodD(fa, _, _) => {
            assert(apply_labels(i, fd, fr) =~= i);
        },
        InstructV::FCallClsMethodS(fa, _) => {
            assert(apply_labels(i, fd, fr) =~= i);
        },
        InstructV::FCallClsMethodSD(fa, _, _) => {
            assert(apply_labels(i, fd, fr) =~= i);
        },
        InstructV::FCallFunc(fa, _) => {
            assert(apply_labels(i, fd, fr) =~= i);
        },
        InstructV::FCallFuncD(fa, _) => {
            assert(apply_labels(i, fd, fr) =~= i);
        },
        InstructV::FCallObjMethod(fa, _, _) => {
            assert(apply_labels(i, fd, fr) =~= i);
        },
        InstructV::FCallObjMethodD(fa, _, _) => {
            assert(apply_labels(i, fd, fr) =~= i);
        },
        _ => {
            assert(apply_labels(i, fd, fr) =~= i);
        },
    }
}

/// Substituting through empty maps changes nothing.
pub proof fn lemma_subst_empty_id(s: Seq<InstructV>)
    ensures
        subst_body_v(s, Map::empty(), Map::empty()) == s,
{
    assert forall|k: int| 0 <= k < s.len() implies #[trigger] subst_body_v(
        s,
        Map::empty(),
        Map::empty(),
    )[k] == s[k] by {
        lemma_apply_labels_id(
            s[k],
            |l: LabelV| subst_label(l, Map::empty(), Map::empty()),
            |l: LabelV| subst_label(l, Map::empty(), Map::empty()),
        );
    }
    assert(subst_body_v(s, Map::empty(), Map::empty()) =~= s);
}

// ---------------------------------------------------------------------------
// Fresh-label cloning, executable
// ---------------------------------------------------------------------------

/// One allocation step on an atomic instruction.
fn fresh_instr(
    i: &Instruct,
    gen: &mut crate::label::Gen,
    reg: &mut IdMap,
    named: &mut NamedMap,
    Ghost(base): Ghost<usize>,
)
    requires
        old(reg).wf(),
        old(named).wf(),
        old(gen).spec_next_id() < usize::MAX || !(i@ is ILabel),
        old(gen).spec_next_id() >= base,
    ensures
        final(reg).wf(),
        final(named).wf(),
        ({
            let st0 = FreshSt {
                regular: old(reg)@,
                named: old(named)@,
                count: (old(gen).spec_next_id() - base) as nat,
            };
            let st1 = fresh_step(st0, i@, base);
            &&& final(reg)@ == st1.regular
            &&& final(named)@ == st1.named
            &&& final(gen).spec_next_id() == base + st1.count
        }),
{
    match i {
        Instruct::ILabel(l) => {
            let fresh = gen.next_regular();
            let fid = match fresh {
                Label::Regular(nid) => nid,
                Label::Named(_) => {
                    proof {
                        assert(false);
                    }
                    unreached()
                },
            };
            match l {
                Label::Regular(id) => {
                    reg.insert(*id, fid);
                },
                Label::Named(nm) => {
                    named.insert(nm.clone(), fid);
                },
            }
        },
        _ => {
        },
    }
}

/// Recursive walk of the allocation pass.
fn fresh_pass(
    block: &Instr,
    gen: &mut crate::label::Gen,
    reg: &mut IdMap,
    named: &mut NamedMap,
    Ghost(base): Ghost<usize>,
)
    requires
        old(reg).wf(),
        old(named).wf(),
        old(gen).spec_next_id() >= base,
        old(gen).spec_next_id() + def_count(block@) <= usize::MAX,
    ensures
        final(reg).wf(),
        final(named).wf(),
        ({
            let st0 = FreshSt {
                regular: old(reg)@,
                named: old(named)@,
                count: (old(gen).spec_next_id() - base) as nat,
            };
            let st1 = fresh_fold(st0, block@, base);
            &&& final(reg)@ == st1.regular
            &&& final(named)@ == st1.named
            &&& final(gen).spec_next_id() == base + st1.count
        }),
    decreases *block,
{
    let ghost st0 = FreshSt {
        regular: old(reg)@,
        named: old(named)@,
        count: (old(gen).spec_next_id() - base) as nat,
    };
    match block {
        Instr::Empty => {
            proof {
                assert(block@ =~= Seq::<InstructV>::empty());
            }
        },
        Instr::One(i) => {
            proof {
                assert(block@ =~= seq![i@]);
                lemma_fresh_fold_single(st0, i@, base);
            }
            fresh_instr(i, gen, reg, named, Ghost(base));
        },
        Instr::List(v) => {
            let len = v.len();
            let mut j: usize = 0;
            proof {
                assert(block@ =~= v@.map_values(|i: Instruct| i@));
            }
            while j < len
                invariant
                    reg.wf(),
                    named.wf(),
                    len == v@.len(),
                    0 <= j <= len,
                    block@ == v@.map_values(|i: Instruct| i@),
                    block@.len() == len,
                    gen.spec_next_id() >= base,
                    base + st0.count + def_count(block@) <= usize::MAX,
                    st0.count + def_count(block@) >= st0.count + def_count(
                        block@.take(j as int),
                    ),
                    (FreshSt { regular: reg@, named: named@, count: (gen.spec_next_id()
                        - base) as nat }) == fresh_fold(st0, block@.take(j as int), base),
                decreases len - j,
            {
                proof {
                    lemma_fresh_fold_app(st0, block@.take(j as int), seq![block@[j as int]], base);
                    lemma_fresh_fold_single(
                        fresh_fold(st0, block@.take(j as int), base),
                        block@[j as int],
                        base,
                    );
                    assert(block@.take(j as int) + seq![block@[j as int]]
                        =~= block@.take(j + 1 as int));
                    assert(block@[j as int] == v@[j as int]@);
                    lemma_fresh_fold_count(st0, block@.take(j as int), base);
                    lemma_fresh_fold_count(st0, block@.take(j + 1 as int), base);
                    lemma_def_count_app(block@.take(j as int), seq![block@[j as int]]);
                    lemma_def_count_single(block@[j as int]);
                    lemma_def_count_take_full(block@, j + 1);
                }
                fresh_instr(&v[j], gen, reg, named, Ghost(base));
                j += 1;
            }
            proof {
                assert(block@.take(len as int) =~= block@);
            }
        },
        Instr::Concat(vs) => {
            let len = vs.len();
            let mut j: usize = 0;
            while j < len
                invariant
                    reg.wf(),
                    named.wf(),
                    len == vs@.len(),
                    0 <= j <= len,
                    *block == Instr::Concat(*vs),
                    block@ == flat_concat(vs@),
                    gen.spec_next_id() >= base,
                    base + st0.count + def_count(block@) <= usize::MAX,
                    (FreshSt { regular: reg@, named: named@, count: (gen.spec_next_id()
                        - base) as nat }) == fresh_fold(
                        st0,
                        flat_concat(vs@.take(j as int)),
                        base,
                    ),
                decreases len - j,
            {
                proof {
                    lemma_flat_concat_elem(vs@, j as int);
                    lemma_fresh_fold_app(
                        st0,
                        flat_concat(vs@.take(j as int)),
                        vs@[j as int].flat(),
                        base,
                    );
                    lemma_fresh_fold_count(st0, flat_concat(vs@.take(j as int)), base);
                    lemma_def_count_app(flat_concat(vs@.take(j as int)), vs@[j as int].flat());
                    lemma_def_count_take_full_flat(vs@, j + 1);
                }
                fresh_pass(&vs[j], gen, reg, named, Ghost(base));
                j += 1;
            }
            proof {
                assert(vs@.take(len as int) =~= vs@);
            }
        },
    }
}

proof fn lemma_def_count_single(x: InstructV)
    ensures
        def_count(seq![x]) == (if x is ILabel {
            1nat
        } else {
            0nat
        }),
{
    assert(seq![x].drop_first() =~= Seq::<InstructV>::empty());
    assert(def_count(Seq::<InstructV>::empty()) == 0);
    assert(def_count(seq![x].drop_first()) == 0);
    assert(seq![x][0] == x);
    assert(seq![x].len() == 1);
}

/// A prefix never holds more definitions than the whole.
proof fn lemma_def_count_take_full(s: Seq<InstructV>, j: int)
    requires
        0 <= j <= s.len(),
    ensures
        def_count(s.take(j)) <= def_count(s),
{
    lemma_def_count_app(s.take(j), s.skip(j));
    assert(s.take(j) + s.skip(j) =~= s);
}

/// A prefix of a concatenation never holds more definitions than the whole.
proof fn lemma_def_count_take_full_flat(vs: Seq<Instr>, j: int)
    requires
        0 <= j <= vs.len(),
    ensures
        def_count(flat_concat(vs.take(j))) <= def_count(flat_concat(vs)),
{
    lemma_flat_concat_split(vs, j);
    lemma_def_count_app(flat_concat(vs.take(j)), flat_concat(vs.skip(j)));
}

/// Substitute one label in place through the replacement maps.
fn subst_label_mut(l: &mut Label, reg: &IdMap, named: &NamedMap)
    requires
        reg.wf(),
        named.wf(),
    ensures
        final(l)@ == subst_label(old(l)@, reg@, named@),
{
    let fresh: Option<usize> = match &*l {
        Label::Regular(id) => reg.get(*id),
        Label::Named(nm) => named.get(nm),
    };
    match fresh {
        Some(d) => {
            *l = Label::Regular(d);
        },
        None => {
        },
    }
}

/// Substitute every label of one instruction in place.
fn subst_instruct(i: &mut Instruct, reg: &IdMap, named: &NamedMap)
    requires
        reg.wf(),
        named.wf(),
    ensures
        final(i)@ == subst_instr_v(old(i)@, reg@, named@),
{
    match i {
        Instruct::ILabel(l) => {
            subst_label_mut(l, reg, named);
        },
        Instruct::IIterator(InstructIterator::IterInit(_, l)) => {
            subst_label_mut(l, reg, named);
        },
        Instruct::IIterator(InstructIterator::IterNext(_, l)) => {
            subst_label_mut(l, reg, named);
        },
        Instruct::IIterator(InstructIterator::IterBreak(l, _)) => {
            subst_label_mut(l, reg, named);
        },
        Instruct::IGenDelegation(GenDelegation::YieldFromDelegate(_, l)) => {
            subst_label_mut(l, reg, named);
        },
        Instruct::IMisc(InstructMisc::MemoGet(l, _)) => {
            subst_label_mut(l, reg, named);
        },
        Instruct::IContFlow(InstructControlFlow::Jmp(l)) => {
            subst_label_mut(l, reg, named);
        },
        Instruct::IContFlow(InstructControlFlow::JmpNS(l)) => {
            subst_label_mut(l, reg, named);
        },
        Instruct::IContFlow(InstructControlFlow::JmpZ(l)) => {
            subst_label_mut(l, reg, named);
        },
        Instruct::IContFlow(InstructControlFlow::JmpNZ(l)) => {
            subst_label_mut(l, reg, named);
        },
        Instruct::ICall(InstructCall::FCall(fa)) => {
            subst_fcall(fa, reg, named);
        },
        Instruct::ICall(InstructCall::FCallClsMethod(fa, _, _)) => {
            subst_fcall(fa, reg, named);
        },
        Instruct::ICall(InstructCall::FCallClsMethodD(fa, _, _)) => {
            subst_fcall(fa, reg, named);
        },
        Instruct::ICall(InstructCall::FCallClsMethodS(fa, _)) => {
            subst_fcall(fa, reg, named);
        },
        Instruct::ICall(InstructCall::FCallClsMethodSD(fa, _, _)) => {
            subst_fcall(fa, reg, named);
        },
        Instruct::ICall(InstructCall::FCallFunc(fa, _)) => {
            subst_fcall(fa, reg, named);
        },
        Instruct::ICall(InstructCall::FCallFuncD(fa, _)) => {
            subst_fcall(fa, reg, named);
        },
        Instruct::ICall(InstructCall::FCallObjMethod(fa, _, _)) => {
            subst_fcall(fa, reg, named);
        },
        Instruct::ICall(InstructCall::FCallObjMethodD(fa, _, _)) => {
            subst_fcall(fa, reg, named);
        },
        Instruct::IContFlow(InstructControlFlow::Switch(_, _, ls)) => {
            let ghost ls0 = ls@;
            let len = ls.len();
            let mut j: usize = 0;
            while j < len
                invariant
                    reg.wf(),
                    named.wf(),
                    len == ls@.len(),
                    0 <= j <= len,
                    ls0.len() == len,
                    *old(i) is IContFlow,
                    old(i)->IContFlow_0 is Switch,
                    ls0 == old(i)->IContFlow_0->Switch_2@,
                    forall|k: int| j <= k < len ==> #[trigger] ls@[k] == ls0[k],
                    forall|k: int|
                        0 <= k < j ==> #[trigger] ls@[k]@ == subst_label(
                            ls0[k]@,
                            reg@,
                            named@,
                        ),
                decreases len - j,
            {
                let l = &mut ls[j];
                subst_label_mut(l, reg, named);
                j += 1;
            }
            proof {
                assert forall|k: int| 0 <= k < len implies #[trigger] labels_view(ls@)[k]
                    == subst_label(labels_view(ls0)[k], reg@, named@) by {
                    crate::label::lemma_labels_view_index(ls@, k);
                    crate::label::lemma_labels_view_index(ls0, k);
                }
                assert(labels_view(ls@) =~= labels_view(ls0).map_values(
                    |l: LabelV| subst_label(l, reg@, named@),
                ));
                assert(i@ =~= subst_instr_v(old(i)@, reg@, named@));
            }
        },
        Instruct::IContFlow(InstructControlFlow::SSwitch(pairs)) => {
            let ghost ps0 = pairs@;
            let len = pairs.len();
            let mut j: usize = 0;
            while j < len
                invariant
                    reg.wf(),
                    named.wf(),
                    len == pairs@.len(),
                    0 <= j <= len,
                    ps0.len() == len,
                    *old(i) is IContFlow,
                    old(i)->IContFlow_0 is SSwitch,
                    ps0 == old(i)->IContFlow_0->SSwitch_0@,
                    forall|k: int| j <= k < len ==> #[trigger] pairs@[k] == ps0[k],
                    forall|k: int|
                        0 <= k < j ==> (#[trigger] pairs@[k].1@ == subst_label(
                            ps0[k].1@,
                            reg@,
                            named@,
                        ) && pairs@[k].0@ == ps0[k].0@),
                decreases len - j,
            {
                let pair = &mut pairs[j];
                subst_label_mut(&mut pair.1, reg, named);
                j += 1;
            }
            proof {
                assert forall|k: int| 0 <= k < len implies #[trigger] pairs@[k].1@
                    == subst_label(ps0[k].1@, reg@, named@) && pairs@[k].0@ == ps0[k].0@ by {}
                assert(i@ =~= subst_instr_v(old(i)@, reg@, named@));
            }
        },
        Instruct::IMisc(InstructMisc::MemoGetEager(l1, l2, _)) => {
            subst_label_mut(l1, reg, named);
            subst_label_mut(l2, reg, named);
        },
        _ => {
        },
    }
}

/// Substitute the optional branch target of a call-argument block.
fn subst_fcall(fa: &mut FcallArgs, reg: &IdMap, named: &NamedMap)
    requires
        reg.wf(),
        named.wf(),
    ensures
        final(fa)@ == crate::hhbc_ast::apply_fcall(
            old(fa)@,
            |l: LabelV| subst_label(l, reg@, named@),
        ),
{
    match &mut fa.4 {
        Some(l) => {
            subst_label_mut(l, reg, named);
        },
        None => {
        },
    }
}

/// Recursive walk of the substitution pass.
fn subst_body_pass(block: &mut Instr, reg: &IdMap, named: &NamedMap)
    requires
        reg.wf(),
        named.wf(),
    ensures
        final(block)@ == subst_body_v(old(block)@, reg@, named@),
    decreases *old(block),
{
    match block {
        Instr::Empty => {
            proof {
                assert(block@ =~= Seq::<InstructV>::empty());
                assert(block@ =~= subst_body_v(old(block)@, reg@, named@));
            }
        },
        Instr::One(i0) => {
            proof {
                assert(old(block)@ =~= seq![old(block)->One_0@]);
            }
            subst_instruct(i0, reg, named);
            proof {
                assert(block@ =~= seq![i0@]);
                assert(subst_body_v(old(block)@, reg@, named@) =~= seq![
                    subst_instr_v(old(block)->One_0@, reg@, named@),
                ]);
            }
        },
        Instr::List(v) => {
            let ghost v0 = old(block)->List_0@;
            let len = v.len();
            let mut j: usize = 0;
            while j < len
                invariant
                    reg.wf(),
                    named.wf(),
                    len == v@.len(),
                    0 <= j <= len,
                    *old(block) is List,
                    v0 == old(block)->List_0@,
                    v0.len() == len,
                    old(block)@ == v0.map_values(|i: Instruct| i@),
                    forall|k: int| j <= k < len ==> #[trigger] v@[k] == v0[k],
                    forall|k: int|
                        0 <= k < j ==> #[trigger] v@[k]@ == subst_instr_v(
                            v0[k]@,
                            reg@,
                            named@,
                        ),
                decreases len - j,
            {
                let e = &mut v[j];
                subst_instruct(e, reg, named);
                j += 1;
            }
            proof {
                assert forall|k: int| 0 <= k < len implies v@.map_values(
                    |i: Instruct| i@,
                )[k] == #[trigger] subst_body_v(old(block)@, reg@, named@)[k] by {
                    assert(v@[k]@ == subst_instr_v(v0[k]@, reg@, named@));
                    assert(old(block)@[k] == v0[k]@);
                }
                assert(block@ =~= subst_body_v(old(block)@, reg@, named@));
            }
        },
        Instr::Concat(vs) => {
            let ghost vs0 = old(block)->Concat_0@;
            let len = vs.len();
            let mut j: usize = 0;
            while j < len
                invariant
                    reg.wf(),
                    named.wf(),
                    len == vs@.len(),
                    0 <= j <= len,
                    *old(block) is Concat,
                    vs0 == old(block)->Concat_0@,
                    vs0.len() == len,
                    old(block)@ == flat_concat(vs0),
                    forall|k: int| j <= k < len ==> #[trigger] vs@[k] == vs0[k],
                    flat_concat(vs@.take(j as int)) == subst_body_v(
                        flat_concat(vs0.take(j as int)),
                        reg@,
                        named@,
                    ),
                decreases len - j,
            {
                let ghost vs_a = vs@;
                proof {
                    assert(decreases_to!(*old(block) => old(block)->Concat_0));
                    assert(decreases_to!(old(block)->Concat_0 => old(block)->Concat_0@));
                    assert(decreases_to!(old(block)->Concat_0@ => old(block)->Concat_0@[
                        j as int]));
                }
                let e = &mut vs[j];
                subst_body_pass(e, reg, named);
                proof {
                    assert(vs@ == vs_a.update(j as int, vs@[j as int]));
                    assert(vs@.take(j as int) =~= vs_a.take(j as int));
                    assert(vs@[j as int]@ == subst_body_v(vs0[j as int].flat(), reg@, named@));
                    lemma_flat_concat_elem(vs@, j as int);
                    lemma_flat_concat_elem(vs0, j as int);
                    lemma_subst_body_app(
                        flat_concat(vs0.take(j as int)),
                        vs0[j as int].flat(),
                        reg@,
                        named@,
                    );
                }
                j += 1;
            }
            proof {
                assert(vs@.take(len as int) =~= vs@);
                assert(vs0.take(len as int) =~= vs0);
            }
        },
    }
}

/// Clone-support: give every label defined inside `block` a brand-new
/// regular label from the emitter's generator and substitute it throughout
/// the block, definitions and references alike.
///
/// Labels defined outside the block (a jump to an enclosing loop's exit) are
/// left untouched.  The pass draws exactly one fresh label per definition,
/// in definition order; if the block defines no labels at all it is left
/// completely unchanged.  This entry point never consults the offset or
/// rename tables of the relabel-in-place pipeline.
pub fn clone_with_fresh_regular_labels(emitter: &mut Emitter, block: &mut Instr)
    requires
        old(emitter).spec_label_gen().spec_next_id() + def_count(old(block)@) <= usize::MAX,
    ensures
        ({
            let base = old(emitter).spec_label_gen().spec_next_id();
            let st = fresh_maps(old(block)@, base);
            &&& final(block)@ == subst_body_v(old(block)@, st.regular, st.named)
            &&& final(emitter).spec_label_gen().spec_next_id() == base + def_count(old(block)@)
            &&& final(emitter).spec_local_gen() == old(emitter).spec_local_gen()
            &&& final(emitter).spec_iterator() == old(emitter).spec_iterator()
            &&& final(emitter).spec_options() == old(emitter).spec_options()
            &&& final(emitter).spec_systemlib() == old(emitter).spec_systemlib()
        }),
{
    let ghost base = old(emitter).spec_label_gen().spec_next_id();
    let ghost s0 = old(block)@;
    let mut reg = IdMap::new();
    let mut named = NamedMap::new();
    let gen = emitter.label_gen_mut();
    fresh_pass(block, gen, &mut reg, &mut named, Ghost(base));
    proof {
        lemma_fresh_fold_count(FreshSt::empty(), s0, base);
    }
    let reg_empty = reg.is_empty();
    let named_empty = named.is_empty();
    if !reg_empty || !named_empty {
        subst_body_pass(block, &reg, &named);
    } else {
        proof {
            let st = fresh_maps(s0, base);
            assert(st.regular.dom() =~= Set::<usize>::empty());
            assert(st.named.dom() =~= Set::<Seq<char>>::empty());
            assert(st.regular =~= Map::<usize, usize>::empty());
            assert(st.named =~= Map::<Seq<char>, usize>::empty());
            lemma_subst_empty_id(s0);
        }
    }
}

} // verus!
