//! Properties of the relabeling pipeline, stated and proved once for every
//! input.
//!
//! Density: the dense identifiers handed to used definitions are exactly
//! `0..k`.  Order preservation: dense identifiers follow first-reference
//! order, so the first reference always resolves to 0.  Aliasing collapse:
//! two labels defined at the same offset receive the same dense identifier.
//! No-op inputs: a body without label-carrying instructions is left
//! unchanged with empty scratch tables.

use vstd::prelude::*;

use crate::hhbc_ast::{instr_label_refs, InstructV};
use crate::hhas_param::{param_label_refs, HhasParamV};
use crate::label::LabelV;
use crate::label_rewriter::{all_label_refs, collect_fold, collect_step, def_count, fresh_fold,
    fresh_maps, fresh_step, label_defs, label_ref_state, lemma_collect_covers,
    lemma_collect_fold_app, lemma_collect_fold_single, relabel_body_v, relabel_instr_v,
    relabel_params_v, relabel_ref_l, ref_ok, subst_label, wf_relabel_input, CollectSt, FreshSt,
    IndexSt, index_fold, index_step};

verus! {

// ---------------------------------------------------------------------------
// Invariants of the collector state
// ---------------------------------------------------------------------------

/// Some offset in the rename map carries dense identifier `d`.
pub open spec fn dense_covered(st: CollectSt, d: usize) -> bool {
    exists|o: usize| #[trigger] st.rename.dom().contains(o) && st.rename[o] == d
}

/// The shape every collector state reachable from the empty state has: the
/// rename map is a bijection between its offsets and the dense range
/// `0..n`, and the used set picks exactly one defining identifier per
/// renamed offset.
pub open spec fn collect_inv(st: CollectSt, defs: Map<usize, usize>) -> bool {
    &&& st.rename.dom().finite()
    &&& st.used.finite()
    &&& st.used.len() == st.rename.dom().len()
    &&& (forall|o: usize|
        #[trigger] st.rename.dom().contains(o) ==> st.rename[o] < st.rename.dom().len())
    &&& (forall|o1: usize, o2: usize|
        st.rename.dom().contains(o1) && st.rename.dom().contains(o2)
            && #[trigger] st.rename[o1] == #[trigger] st.rename[o2] ==> o1 == o2)
    &&& (forall|d: usize| d < st.rename.dom().len() ==> #[trigger] dense_covered(st, d))
    &&& (forall|id: usize|
        #[trigger] st.used.contains(id) ==> defs.contains_key(id) && st.rename.contains_key(
            defs[id],
        ))
    &&& (forall|id1: usize, id2: usize|
        #[trigger] st.used.contains(id1) && #[trigger] st.used.contains(id2) && id1 != id2
            ==> defs[id1] != defs[id2])
    &&& (forall|o: usize|
        #[trigger] st.rename.dom().contains(o) ==> exists|id: usize|
            #[trigger] st.used.contains(id) && defs[id] == o)
}

/// The label-to-offset map holds at most one entry per instruction.
pub proof fn lemma_label_defs_size(s: Seq<InstructV>)
    ensures
        label_defs(s).dom().finite(),
        label_defs(s).dom().len() <= s.len(),
{
    lemma_index_fold_size(IndexSt { off: 0, defs: Map::empty() }, s);
    assert(Map::<usize, usize>::empty().dom() =~= Set::<usize>::empty());
}

proof fn lemma_index_fold_size(st: IndexSt, s: Seq<InstructV>)
    requires
        st.defs.dom().finite(),
    ensures
        index_fold(st, s).defs.dom().finite(),
        index_fold(st, s).defs.dom().len() <= st.defs.dom().len() + s.len(),
    decreases s.len(),
{
    if s.len() > 0 {
        let st1 = index_step(st, s[0]);
        assert(st1.defs.dom().finite() && st1.defs.dom().len() <= st.defs.dom().len() + 1) by {
            if s[0] is ILabel && s[0]->ILabel_0 is Regular {
                vstd::set::axiom_set_insert_finite(st.defs.dom(), s[0]->ILabel_0->Regular_0);
                vstd::set::axiom_set_insert_len(st.defs.dom(), s[0]->ILabel_0->Regular_0);
                assert(st1.defs.dom() =~= st.defs.dom().insert(s[0]->ILabel_0->Regular_0));
            }
        }
        lemma_index_fold_size(st1, s.drop_first());
    }
}

/// One collection step preserves the state shape.
proof fn lemma_collect_step_inv(st: CollectSt, l: LabelV, defs: Map<usize, usize>)
    requires
        collect_inv(st, defs),
        defs.dom().finite(),
        defs.dom().len() <= usize::MAX,
    ensures
        collect_inv(collect_step(st, l, defs), defs),
{
    assert(st.used.subset_of(defs.dom()));
    vstd::set_lib::lemma_len_subset(st.used, defs.dom());
    assert(st.rename.dom().len() <= usize::MAX);
    let st1 = collect_step(st, l, defs);
    if l is Regular && defs.contains_key(l->Regular_0) && !st.rename.contains_key(
        defs[l->Regular_0],
    ) {
        let id = l->Regular_0;
        let off = defs[id];
        let n = st.rename.dom().len();
        assert(!st.used.contains(id));
        assert(st1.rename.dom() =~= st.rename.dom().insert(off));
        assert(st1.used =~= st.used.insert(id));
        vstd::set::axiom_set_insert_finite(st.rename.dom(), off);
        vstd::set::axiom_set_insert_finite(st.used, id);
        vstd::set::axiom_set_insert_len(st.rename.dom(), off);
        vstd::set::axiom_set_insert_len(st.used, id);
        assert(st1.rename.dom().len() == n + 1);
        assert(st1.used.len() == st.used.len() + 1);
        assert forall|d: usize| d < st1.rename.dom().len() implies #[trigger] dense_covered(
            st1,
            d,
        ) by {
            if d < n {
                assert(dense_covered(st, d));
                let o = choose|o: usize|
                    #[trigger] st.rename.dom().contains(o) && st.rename[o] == d;
                assert(o != off);
                assert(st1.rename.dom().contains(o) && st1.rename[o] == d);
            } else {
                assert(st1.rename.dom().contains(off) && st1.rename[off] == n as usize);
            }
        }
        assert forall|o: usize| #[trigger] st1.rename.dom().contains(o) implies exists|i: usize|
            #[trigger] st1.used.contains(i) && defs[i] == o by {
            if o == off {
                assert(st1.used.contains(id) && defs[id] == off);
            } else {
                let i = choose|i: usize| #[trigger] st.used.contains(i) && defs[i] == o;
                assert(st1.used.contains(i));
            }
        }
    }
}

/// Folding any reference sequence preserves the state shape.
pub proof fn lemma_collect_fold_inv(st: CollectSt, ls: Seq<LabelV>, defs: Map<usize, usize>)
    requires
        collect_inv(st, defs),
        defs.dom().finite(),
        defs.dom().len() <= usize::MAX,
    ensures
        collect_inv(collect_fold(st, ls, defs), defs),
    decreases ls.len(),
{
    if ls.len() > 0 {
        lemma_collect_step_inv(st, ls[0], defs);
        lemma_collect_fold_inv(collect_step(st, ls[0], defs), ls.drop_first(), defs);
    }
}

/// The empty state has the shape.
pub proof fn lemma_collect_inv_empty(defs: Map<usize, usize>)
    ensures
        collect_inv(CollectSt::empty(), defs),
{
    assert(CollectSt::empty().rename.dom() =~= Set::<usize>::empty());
}

/// The state the pipeline computes has the shape.
pub proof fn lemma_ref_state_inv(s: Seq<InstructV>, ps: Seq<HhasParamV>)
    requires
        s.len() <= usize::MAX,
    ensures
        collect_inv(label_ref_state(s, ps), label_defs(s)),
{
    lemma_collect_inv_empty(label_defs(s));
    lemma_label_defs_size(s);
    lemma_collect_fold_inv(CollectSt::empty(), all_label_refs(s, ps), label_defs(s));
}

// ---------------------------------------------------------------------------
// The label-to-offset map's domain
// ---------------------------------------------------------------------------

/// An identifier is in the label-to-offset map exactly when some definition
/// in the sequence declares it.
pub proof fn lemma_label_defs_dom(s: Seq<InstructV>, id: usize)
    ensures
        label_defs(s).contains_key(id) <==> exists|k: int|
            0 <= k < s.len() && #[trigger] s[k] == InstructV::ILabel(LabelV::Regular(id)),
    decreases s.len(),
{
    lemma_index_fold_dom(IndexSt { off: 0, defs: Map::empty() }, s, id);
}

proof fn lemma_index_fold_dom(st: IndexSt, s: Seq<InstructV>, id: usize)
    ensures
        index_fold(st, s).defs.contains_key(id) <==> (st.defs.contains_key(id) || exists|k: int|
            0 <= k < s.len() && #[trigger] s[k] == InstructV::ILabel(LabelV::Regular(id))),
    decreases s.len(),
{
    if s.len() > 0 {
        let st1 = index_step(st, s[0]);
        lemma_index_fold_dom(st1, s.drop_first(), id);
        if index_fold(st, s).defs.contains_key(id) {
            if !st.defs.contains_key(id) {
                if st1.defs.contains_key(id) {
                    assert(s[0] == InstructV::ILabel(LabelV::Regular(id)));
                } else {
                    let k = choose|k: int|
                        0 <= k < s.drop_first().len() && #[trigger] s.drop_first()[k]
                            == InstructV::ILabel(LabelV::Regular(id));
                    assert(s[k + 1] == InstructV::ILabel(LabelV::Regular(id)));
                }
            }
        }
        if exists|k: int|
            0 <= k < s.len() && #[trigger] s[k] == InstructV::ILabel(LabelV::Regular(id)) {
            let k = choose|k: int|
                0 <= k < s.len() && #[trigger] s[k] == InstructV::ILabel(LabelV::Regular(id));
            if k == 0 {
                assert(st1.defs.contains_key(id));
            } else {
                assert(s.drop_first()[k - 1] == InstructV::ILabel(LabelV::Regular(id)));
            }
        }
    }
}

// ---------------------------------------------------------------------------
// Density
// ---------------------------------------------------------------------------

/// No two finalized definitions declare the same identifier.
pub open spec fn distinct_def_ids(s: Seq<InstructV>) -> bool {
    forall|k1: int, k2: int|
        0 <= k1 < k2 < s.len() && #[trigger] s[k1] is ILabel && #[trigger] s[k2] is ILabel
            && s[k1]->ILabel_0 is Regular && s[k2]->ILabel_0 is Regular
            ==> s[k1]->ILabel_0->Regular_0 != s[k2]->ILabel_0->Regular_0
}

/// Whether position `k` of the body holds a definition the pipeline counts
/// as used.
pub open spec fn is_used_def(s: Seq<InstructV>, used: Set<usize>, k: int) -> bool {
    &&& 0 <= k < s.len()
    &&& s[k] is ILabel
    &&& s[k]->ILabel_0 is Regular
    &&& used.contains(s[k]->ILabel_0->Regular_0)
}

/// Dense identifier `d` appears on some used definition of the rewritten
/// body.
pub open spec fn dense_id_appears(
    s: Seq<InstructV>,
    used: Set<usize>,
    out: Seq<InstructV>,
    d: usize,
) -> bool {
    exists|k: int|
        #[trigger] is_used_def(s, used, k) && out[k] == InstructV::ILabel(LabelV::Regular(d))
}

/// Density: after rewriting, the dense identifiers on used definitions are
/// the range `0..k` with `k` the size of the used set: every used
/// definition gets an identifier below `k`, no two used definitions share
/// one, and each value below `k` occurs.
///
/// The law asks that each identifier be defined only once; a body defining
/// one identifier twice renumbers both copies alike and duplicates would
/// appear.
pub proof fn lemma_density(s: Seq<InstructV>, ps: Seq<HhasParamV>)
    requires
        wf_relabel_input(s, ps),
        distinct_def_ids(s),
    ensures
        ({
            let defs = label_defs(s);
            let st = label_ref_state(s, ps);
            let out = relabel_body_v(s, defs, st.used, st.rename);
            &&& (forall|k: int|
                is_used_def(s, st.used, k) ==> #[trigger] out[k] == InstructV::ILabel(
                    LabelV::Regular(st.rename[defs[s[k]->ILabel_0->Regular_0]]),
                ) && st.rename[defs[s[k]->ILabel_0->Regular_0]] < st.used.len())
            &&& (forall|k1: int, k2: int|
                #[trigger] is_used_def(s, st.used, k1) && #[trigger] is_used_def(s, st.used, k2)
                    && k1 != k2 ==> out[k1]->ILabel_0->Regular_0 != out[k2]->ILabel_0->Regular_0)
            &&& (forall|d: usize|
                d < st.used.len() ==> #[trigger] dense_id_appears(s, st.used, out, d))
        }),
{
    let defs = label_defs(s);
    let st = label_ref_state(s, ps);
    let out = relabel_body_v(s, defs, st.used, st.rename);
    lemma_ref_state_inv(s, ps);
    assert forall|k: int| is_used_def(s, st.used, k) implies #[trigger] out[k]
        == InstructV::ILabel(LabelV::Regular(st.rename[defs[s[k]->ILabel_0->Regular_0]]))
        && st.rename[defs[s[k]->ILabel_0->Regular_0]] < st.used.len() by {
        let id = s[k]->ILabel_0->Regular_0;
        assert(st.used.contains(id));
        assert(defs.contains_key(id) && st.rename.contains_key(defs[id]));
        assert(out[k] == relabel_instr_v(s[k], defs, st.used, st.rename));
        assert(st.rename.dom().contains(defs[id]));
    }
    assert forall|k1: int, k2: int|
        #[trigger] is_used_def(s, st.used, k1) && #[trigger] is_used_def(s, st.used, k2) && k1
            != k2 implies out[k1]->ILabel_0->Regular_0 != out[k2]->ILabel_0->Regular_0 by {
        let id1 = s[k1]->ILabel_0->Regular_0;
        let id2 = s[k2]->ILabel_0->Regular_0;
        assert(id1 != id2);
        assert(defs[id1] != defs[id2]);
        assert(st.rename.dom().contains(defs[id1]) && st.rename.dom().contains(defs[id2]));
    }
    assert forall|d: usize| d < st.used.len() implies #[trigger] dense_id_appears(
        s,
        st.used,
        out,
        d,
    ) by {
        assert(dense_covered(st, d));
        let o = choose|o: usize| #[trigger] st.rename.dom().contains(o) && st.rename[o] == d;
        let id = choose|id: usize| #[trigger] st.used.contains(id) && defs[id] == o;
        lemma_label_defs_dom(s, id);
        let k = choose|k: int|
            0 <= k < s.len() && #[trigger] s[k] == InstructV::ILabel(LabelV::Regular(id));
        assert(is_used_def(s, st.used, k));
        assert(out[k] == relabel_instr_v(s[k], defs, st.used, st.rename));
        assert(out[k] == InstructV::ILabel(LabelV::Regular(d)));
    }
}

// ---------------------------------------------------------------------------
// Order preservation
// ---------------------------------------------------------------------------

/// The resolved offsets of a reference sequence.
pub open spec fn offsets_of(ls: Seq<LabelV>, defs: Map<usize, usize>) -> Seq<usize> {
    ls.map_values(|l: LabelV| defs[l->Regular_0])
}

/// The distinct values of a sequence, kept in first-occurrence order.
pub open spec fn first_occurs(offs: Seq<usize>) -> Seq<usize>
    decreases offs.len(),
{
    if offs.len() == 0 {
        Seq::empty()
    } else {
        let rest = first_occurs(offs.drop_last());
        if rest.contains(offs.last()) {
            rest
        } else {
            rest.push(offs.last())
        }
    }
}

/// The collector numbers offsets by their rank in first-occurrence order:
/// the `j`-th distinct referenced offset gets dense identifier `j`.
pub proof fn lemma_collect_first_occurs(ls: Seq<LabelV>, defs: Map<usize, usize>)
    requires
        forall|k: int| 0 <= k < ls.len() ==> ref_ok(#[trigger] ls[k], defs),
        defs.dom().finite(),
        defs.dom().len() <= usize::MAX,
    ensures
        ({
            let st = collect_fold(CollectSt::empty(), ls, defs);
            let fo = first_occurs(offsets_of(ls, defs));
            &&& (forall|o: usize| st.rename.contains_key(o) <==> fo.contains(o))
            &&& (forall|j: int|
                0 <= j < fo.len() ==> st.rename.contains_key(#[trigger] fo[j])
                    && st.rename[fo[j]] == j)
            &&& st.rename.dom().len() == fo.len()
        }),
    decreases ls.len(),
{
    let st = collect_fold(CollectSt::empty(), ls, defs);
    let offs = offsets_of(ls, defs);
    let fo = first_occurs(offs);
    if ls.len() == 0 {
        assert(offs =~= Seq::<usize>::empty());
        assert(st.rename.dom() =~= Set::<usize>::empty());
    } else {
        let init = ls.drop_last();
        let l = ls.last();
        assert(forall|k: int| 0 <= k < init.len() ==> init[k] == ls[k]);
        lemma_collect_first_occurs(init, defs);
        let st0 = collect_fold(CollectSt::empty(), init, defs);
        lemma_collect_fold_app(CollectSt::empty(), init, seq![l], defs);
        lemma_collect_fold_single(st0, l, defs);
        assert(init + seq![l] =~= ls);
        assert(st == collect_step(st0, l, defs));
        lemma_collect_inv_empty(defs);
        lemma_collect_fold_inv(CollectSt::empty(), init, defs);
        assert(st0.used.subset_of(defs.dom()));
        vstd::set_lib::lemma_len_subset(st0.used, defs.dom());
        assert(st0.rename.dom().len() <= usize::MAX);
        assert(offsets_of(init, defs) =~= offs.drop_last());
        let fo0 = first_occurs(offs.drop_last());
        let off = defs[l->Regular_0];
        assert(ls[ls.len() - 1] == l);
        assert(ref_ok(l, defs));
        assert(offs.last() == off);
        if st0.rename.contains_key(off) {
            assert(fo0.contains(off));
            assert(fo == fo0);
            assert(st == st0);
        } else {
            assert(!fo0.contains(off));
            assert(fo == fo0.push(off));
            assert(st.rename == st0.rename.insert(off, st0.rename.dom().len() as usize));
            assert forall|o: usize| st.rename.contains_key(o) implies fo.contains(o) by {
                if o == off {
                    assert(fo[fo.len() - 1] == off);
                } else {
                    assert(st0.rename.contains_key(o));
                    assert(fo0.contains(o));
                    let j = choose|j: int| 0 <= j < fo0.len() && fo0[j] == o;
                    assert(fo[j] == fo0[j]);
                    assert(fo[j] == o);
                }
            }
            assert forall|o: usize| fo.contains(o) implies st.rename.contains_key(o) by {
                let j = choose|j: int| 0 <= j < fo.len() && fo[j] == o;
                if j < fo0.len() {
                    assert(fo0[j] == o);
                    assert(fo0.contains(o));
                }
            }
            assert(st.rename.dom() =~= st0.rename.dom().insert(off));
            vstd::set::axiom_set_insert_finite(st0.rename.dom(), off);
            vstd::set::axiom_set_insert_len(st0.rename.dom(), off);
            assert forall|j: int| 0 <= j < fo.len() implies st.rename.contains_key(
                #[trigger] fo[j],
            ) && st.rename[fo[j]] == j by {
                if j < fo0.len() {
                    assert(fo0[j] == fo[j]);
                    assert(st0.rename.contains_key(fo0[j]) && st0.rename[fo0[j]] == j);
                    assert(fo0.contains(fo0[j]));
                    assert(fo[j] != off);
                    assert(st.rename[fo[j]] == st0.rename[fo0[j]]);
                } else {
                    assert(fo[j] == off);
                    assert(st0.rename.dom().len() == fo0.len());
                    assert(st.rename[off] == fo0.len() as usize);
                }
            }
        }
    }
}

/// The first element survives first-occurrence dedup in front position.
pub proof fn lemma_first_occurs_first(offs: Seq<usize>)
    requires
        offs.len() > 0,
    ensures
        first_occurs(offs).len() > 0,
        first_occurs(offs)[0] == offs[0],
    decreases offs.len(),
{
    if offs.len() == 1 {
        assert(offs.drop_last() =~= Seq::<usize>::empty());
        assert(first_occurs(offs.drop_last()) =~= Seq::<usize>::empty());
        assert(first_occurs(offs)[0] == offs.last());
    } else {
        lemma_first_occurs_first(offs.drop_last());
        assert(offs.drop_last()[0] == offs[0]);
    }
}

/// Order preservation: the very first reference, in renumbering order,
/// always resolves to dense identifier 0; in general the `j`-th distinct
/// referenced offset resolves to `j` (see [`lemma_collect_first_occurs`]).
pub proof fn lemma_order_preservation(s: Seq<InstructV>, ps: Seq<HhasParamV>)
    requires
        wf_relabel_input(s, ps),
        all_label_refs(s, ps).len() > 0,
    ensures
        ({
            let st = label_ref_state(s, ps);
            let first = all_label_refs(s, ps)[0];
            &&& st.rename.contains_key(label_defs(s)[first->Regular_0])
            &&& st.rename[label_defs(s)[first->Regular_0]] == 0
        }),
{
    let defs = label_defs(s);
    let ls = all_label_refs(s, ps);
    lemma_label_defs_size(s);
    lemma_collect_first_occurs(ls, defs);
    let offs = offsets_of(ls, defs);
    lemma_first_occurs_first(offs);
    assert(offs[0] == defs[ls[0]->Regular_0]);
    assert(first_occurs(offs)[0] == offs[0]);
}

// ---------------------------------------------------------------------------
// Aliasing collapse
// ---------------------------------------------------------------------------

/// Aliasing collapse: two distinct labels defined at the same offset and
/// both referenced are rewritten, at every reference, to the same dense
/// identifier.
pub proof fn lemma_aliasing_collapse(s: Seq<InstructV>, ps: Seq<HhasParamV>, a: usize, b: usize)
    requires
        wf_relabel_input(s, ps),
        a != b,
        label_defs(s).contains_key(a),
        label_defs(s).contains_key(b),
        label_defs(s)[a] == label_defs(s)[b],
        all_label_refs(s, ps).contains(LabelV::Regular(a)),
        all_label_refs(s, ps).contains(LabelV::Regular(b)),
    ensures
        ({
            let defs = label_defs(s);
            let st = label_ref_state(s, ps);
            &&& relabel_ref_l(LabelV::Regular(a), defs, st.rename) == relabel_ref_l(
                LabelV::Regular(b),
                defs,
                st.rename,
            )
            &&& relabel_ref_l(LabelV::Regular(a), defs, st.rename) == LabelV::Regular(
                st.rename[defs[a]],
            )
        }),
{
    let defs = label_defs(s);
    lemma_collect_covers(
        CollectSt::empty(),
        all_label_refs(s, ps),
        defs,
        LabelV::Regular(a),
    );
}

// ---------------------------------------------------------------------------
// No-op inputs
// ---------------------------------------------------------------------------

/// A body with zero label-carrying instructions: nothing defines and
/// nothing references a label.
pub open spec fn label_free(s: Seq<InstructV>) -> bool {
    forall|k: int|
        0 <= k < s.len() ==> instr_label_refs(#[trigger] s[k]).len() == 0 && !(s[k] is ILabel)
}

/// A parameter list without default values carries no references.
pub open spec fn params_label_free(ps: Seq<HhasParamV>) -> bool {
    forall|k: int| 0 <= k < ps.len() ==> (#[trigger] ps[k].default_value) is None
}

proof fn lemma_body_refs_empty(s: Seq<InstructV>)
    requires
        label_free(s),
    ensures
        crate::label_rewriter::body_refs(s).len() == 0,
    decreases s.len(),
{
    if s.len() > 0 {
        assert(instr_label_refs(s[0]).len() == 0);
        assert(forall|k: int|
            0 <= k < s.drop_first().len() ==> #[trigger] s.drop_first()[k] == s[k + 1]);
        lemma_body_refs_empty(s.drop_first());
    }
}

proof fn lemma_param_refs_empty(ps: Seq<HhasParamV>)
    requires
        params_label_free(ps),
    ensures
        param_label_refs(ps).len() == 0,
    decreases ps.len(),
{
    if ps.len() > 0 {
        assert(ps[0].default_value is None);
        assert(forall|k: int|
            0 <= k < ps.drop_first().len() ==> #[trigger] ps.drop_first()[k] == ps[k + 1]);
        lemma_param_refs_empty(ps.drop_first());
    }
}

/// An instruction without labels is rewritten to itself, whatever the
/// tables hold.
proof fn lemma_relabel_instr_id(
    i: InstructV,
    defs: Map<usize, usize>,
    used: Set<usize>,
    rm: Map<usize, usize>,
)
    requires
        instr_label_refs(i).len() == 0,
        !(i is ILabel),
    ensures
        relabel_instr_v(i, defs, used, rm) == i,
{
    match i {
        InstructV::Switch(k, base, ls) => {
            assert(instr_label_refs(i) == ls);
            assert(ls.len() == 0);
            assert(ls.map_values(|l: LabelV| relabel_ref_l(l, defs, rm)) =~= ls);
            assert(relabel_instr_v(i, defs, used, rm) =~= i);
        },
        InstructV::SSwitch(pairs) => {
            assert(instr_label_refs(i).len() == pairs.len());
            assert(pairs.len() == 0);
            assert(pairs.map_values(
                |p: (Seq<char>, LabelV)| (p.0, relabel_ref_l(p.1, defs, rm)),
            ) =~= pairs);
            assert(relabel_instr_v(i, defs, used, rm) =~= i);
        },
        InstructV::FCall(fa) => {
            assert(fa.async_eager_target is None);
            assert(relabel_instr_v(i, defs, used, rm) =~= i);
        },
        InstructV::FCallClsMethod(fa, _, _) => {
            assert(fa.async_eager_target is None);
            assert(relabel_instr_v(i, defs, used, rm) =~= i);
        },
        InstructV::FCallClsMethodD(fa, _, _) => {
            assert(fa.async_eager_target is None);
            assert(relabel_instr_v(i, defs, used, rm) =~= i);
        },
        InstructV::FCallClsMethodS(fa, _) => {
            assert(fa.async_eager_target is None);
            assert(relabel_instr_v(i, defs, used, rm) =~= i);
        },
        InstructV::FCallClsMethodSD(fa, _, _) => {
            assert(fa.async_eager_target is None);
            assert(relabel_instr_v(i, defs, used, rm) =~= i);
        },
        InstructV::FCallFunc(fa, _) => {
            assert(fa.async_eager_target is None);
            assert(relabel_instr_v(i, defs, used, rm) =~= i);
        },
        InstructV::FCallFuncD(fa, _) => {
            assert(fa.async_eager_target is None);
            assert(relabel_instr_v(i, defs, used, rm) =~= i);
        },
        InstructV::FCallObjMethod(fa, _, _) => {
            assert(fa.async_eager_target is None);
            assert(relabel_instr_v(i, defs, used, rm) =~= i);
        },
        InstructV::FCallObjMethodD(fa, _, _) => {
            assert(fa.async_eager_target is None);
            assert(relabel_instr_v(i, defs, used, rm) =~= i);
        },
        _ => {
            assert(relabel_instr_v(i, defs, used, rm) =~= i);
        },
    }
}

/// No-op input: relabeling a body with zero label-carrying instructions
/// computes empty used and rename tables and leaves body and parameters
/// unchanged.
pub proof fn lemma_noop_relabel(s: Seq<InstructV>, ps: Seq<HhasParamV>)
    requires
        label_free(s),
        params_label_free(ps),
    ensures
        ({
            let st = label_ref_state(s, ps);
            &&& st.used == Set::<usize>::empty()
            &&& st.rename == Map::<usize, usize>::empty()
            &&& relabel_body_v(s, label_defs(s), st.used, st.rename) == s
            &&& relabel_params_v(ps, label_defs(s), st.rename) == ps
        }),
{
    let defs = label_defs(s);
    let st = label_ref_state(s, ps);
    lemma_body_refs_empty(s);
    lemma_param_refs_empty(ps);
    assert(all_label_refs(s, ps) =~= Seq::<LabelV>::empty());
    assert(st == CollectSt::empty());
    assert forall|k: int| 0 <= k < s.len() implies #[trigger] relabel_body_v(
        s,
        defs,
        st.used,
        st.rename,
    )[k] == s[k] by {
        lemma_relabel_instr_id(s[k], defs, st.used, st.rename);
    }
    assert(relabel_body_v(s, defs, st.used, st.rename) =~= s);
    assert forall|k: int| 0 <= k < ps.len() implies #[trigger] relabel_params_v(
        ps,
        defs,
        st.rename,
    )[k] == ps[k] by {
        assert(ps[k].default_value is None);
        assert(relabel_params_v(ps, defs, st.rename)[k] =~= ps[k]);
    }
    assert(relabel_params_v(ps, defs, st.rename) =~= ps);
}


// ---------------------------------------------------------------------------
// Cloner isolation
// ---------------------------------------------------------------------------

/// The shape of every replacement-map state the cloner's allocation pass
/// reaches: all fresh identifiers lie in the allocated band and no two
/// entries, within a map or across the two maps, share one.
pub open spec fn fresh_inv(st: FreshSt, base: usize) -> bool {
    &&& (forall|id: usize|
        #[trigger] st.regular.contains_key(id) ==> base <= st.regular[id] < base + st.count)
    &&& (forall|nm: Seq<char>|
        #[trigger] st.named.contains_key(nm) ==> base <= st.named[nm] < base + st.count)
    &&& (forall|id1: usize, id2: usize|
        #[trigger] st.regular.contains_key(id1) && #[trigger] st.regular.contains_key(id2)
            && id1 != id2 ==> st.regular[id1] != st.regular[id2])
    &&& (forall|nm1: Seq<char>, nm2: Seq<char>|
        #[trigger] st.named.contains_key(nm1) && #[trigger] st.named.contains_key(nm2) && nm1
            != nm2 ==> st.named[nm1] != st.named[nm2])
    &&& (forall|id: usize, nm: Seq<char>|
        #[trigger] st.regular.contains_key(id) && #[trigger] st.named.contains_key(nm)
            ==> st.regular[id] != st.named[nm])
}

proof fn lemma_fresh_step_inv(st: FreshSt, i: InstructV, base: usize)
    requires
        fresh_inv(st, base),
        base + st.count < usize::MAX || !(i is ILabel),
    ensures
        fresh_inv(fresh_step(st, i, base), base),
{
}

proof fn lemma_fresh_fold_inv(st: FreshSt, s: Seq<InstructV>, base: usize)
    requires
        fresh_inv(st, base),
        base + st.count + def_count(s) <= usize::MAX,
    ensures
        fresh_inv(fresh_fold(st, s, base), base),
    decreases s.len(),
{
    if s.len() > 0 {
        lemma_fresh_step_inv(st, s[0], base);
        lemma_fresh_fold_inv(fresh_step(st, s[0], base), s.drop_first(), base);
    }
}

/// The regular replacement map holds exactly the identifiers the block
/// defines.
proof fn lemma_fresh_fold_dom_regular(st: FreshSt, s: Seq<InstructV>, base: usize, id: usize)
    ensures
        fresh_fold(st, s, base).regular.contains_key(id) <==> (st.regular.contains_key(id)
            || exists|k: int|
            0 <= k < s.len() && #[trigger] s[k] == InstructV::ILabel(LabelV::Regular(id))),
    decreases s.len(),
{
    if s.len() > 0 {
        let st1 = fresh_step(st, s[0], base);
        lemma_fresh_fold_dom_regular(st1, s.drop_first(), base, id);
        if fresh_fold(st, s, base).regular.contains_key(id) {
            if !st.regular.contains_key(id) {
                if st1.regular.contains_key(id) {
                    assert(s[0] == InstructV::ILabel(LabelV::Regular(id)));
                } else {
                    let k = choose|k: int|
                        0 <= k < s.drop_first().len() && #[trigger] s.drop_first()[k]
                            == InstructV::ILabel(LabelV::Regular(id));
                    assert(s[k + 1] == InstructV::ILabel(LabelV::Regular(id)));
                }
            }
        }
        if exists|k: int|
            0 <= k < s.len() && #[trigger] s[k] == InstructV::ILabel(LabelV::Regular(id)) {
            let k = choose|k: int|
                0 <= k < s.len() && #[trigger] s[k] == InstructV::ILabel(LabelV::Regular(id));
            if k == 0 {
                assert(st1.regular.contains_key(id));
            } else {
                assert(s.drop_first()[k - 1] == InstructV::ILabel(LabelV::Regular(id)));
            }
        }
    }
}

/// The named replacement map holds exactly the names the block defines.
proof fn lemma_fresh_fold_dom_named(st: FreshSt, s: Seq<InstructV>, base: usize, nm: Seq<char>)
    ensures
        fresh_fold(st, s, base).named.contains_key(nm) <==> (st.named.contains_key(nm)
            || exists|k: int|
            0 <= k < s.len() && #[trigger] s[k] == InstructV::ILabel(LabelV::Named(nm))),
    decreases s.len(),
{
    if s.len() > 0 {
        let st1 = fresh_step(st, s[0], base);
        lemma_fresh_fold_dom_named(st1, s.drop_first(), base, nm);
        if fresh_fold(st, s, base).named.contains_key(nm) {
            if !st.named.contains_key(nm) {
                if st1.named.contains_key(nm) {
                    assert(s[0] == InstructV::ILabel(LabelV::Named(nm)));
                } else {
                    let k = choose|k: int|
                        0 <= k < s.drop_first().len() && #[trigger] s.drop_first()[k]
                            == InstructV::ILabel(LabelV::Named(nm));
                    assert(s[k + 1] == InstructV::ILabel(LabelV::Named(nm)));
                }
            }
        }
        if exists|k: int|
            0 <= k < s.len() && #[trigger] s[k] == InstructV::ILabel(LabelV::Named(nm)) {
            let k = choose|k: int|
                0 <= k < s.len() && #[trigger] s[k] == InstructV::ILabel(LabelV::Named(nm));
            if k == 0 {
                assert(st1.named.contains_key(nm));
            } else {
                assert(s.drop_first()[k - 1] == InstructV::ILabel(LabelV::Named(nm)));
            }
        }
    }
}

/// Cloner isolation: every label defined inside the block is substituted,
/// consistently at all of its occurrences, by one fresh regular label from
/// the band the generator allocated; distinct defined labels, regular or
/// named, receive distinct fresh labels; and a label with no definition
/// inside the block is left exactly as it was.
pub proof fn lemma_cloner_isolation(s: Seq<InstructV>, base: usize)
    requires
        base + def_count(s) <= usize::MAX,
    ensures
        ({
            let st = fresh_maps(s, base);
            &&& (forall|id: usize|
                #[trigger] st.regular.contains_key(id) <==> exists|k: int|
                    0 <= k < s.len() && #[trigger] s[k] == InstructV::ILabel(
                        LabelV::Regular(id),
                    ))
            &&& (forall|nm: Seq<char>|
                #[trigger] st.named.contains_key(nm) <==> exists|k: int|
                    0 <= k < s.len() && #[trigger] s[k] == InstructV::ILabel(
                        LabelV::Named(nm),
                    ))
            &&& (forall|id: usize|
                #[trigger] st.regular.contains_key(id) ==> subst_label(
                    LabelV::Regular(id),
                    st.regular,
                    st.named,
                ) == LabelV::Regular(st.regular[id]) && base <= st.regular[id] < base
                    + st.count)
            &&& (forall|nm: Seq<char>|
                #[trigger] st.named.contains_key(nm) ==> subst_label(
                    LabelV::Named(nm),
                    st.regular,
                    st.named,
                ) == LabelV::Regular(st.named[nm]) && base <= st.named[nm] < base + st.count)
            &&& (forall|id1: usize, id2: usize|
                #[trigger] st.regular.contains_key(id1) && #[trigger] st.regular.contains_key(
                    id2,
                ) && id1 != id2 ==> st.regular[id1] != st.regular[id2])
            &&& (forall|nm1: Seq<char>, nm2: Seq<char>|
                #[trigger] st.named.contains_key(nm1) && #[trigger] st.named.contains_key(nm2)
                    && nm1 != nm2 ==> st.named[nm1] != st.named[nm2])
            &&& (forall|id: usize, nm: Seq<char>|
                #[trigger] st.regular.contains_key(id) && #[trigger] st.named.contains_key(nm)
                    ==> st.regular[id] != st.named[nm])
            &&& (forall|id: usize|
                !(#[trigger] st.regular.contains_key(id)) ==> subst_label(
                    LabelV::Regular(id),
                    st.regular,
                    st.named,
                ) == LabelV::Regular(id))
            &&& (forall|nm: Seq<char>|
                !(#[trigger] st.named.contains_key(nm)) ==> subst_label(
                    LabelV::Named(nm),
                    st.regular,
                    st.named,
                ) == LabelV::Named(nm))
        }),
{
    lemma_fresh_fold_inv(FreshSt::empty(), s, base);
    let st = fresh_maps(s, base);
    assert forall|id: usize| #[trigger] st.regular.contains_key(id) <==> exists|k: int|
        0 <= k < s.len() && #[trigger] s[k] == InstructV::ILabel(LabelV::Regular(id)) by {
        lemma_fresh_fold_dom_regular(FreshSt::empty(), s, base, id);
    }
    assert forall|nm: Seq<char>| #[trigger] st.named.contains_key(nm) <==> exists|k: int|
        0 <= k < s.len() && #[trigger] s[k] == InstructV::ILabel(LabelV::Named(nm)) by {
        lemma_fresh_fold_dom_named(FreshSt::empty(), s, base, nm);
    }
}

} // verus!
