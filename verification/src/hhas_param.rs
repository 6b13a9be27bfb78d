//! Function parameters as the relabeling engine sees them.

use vstd::prelude::*;

use crate::label::{Label, LabelV};

verus! {

/// One function parameter.  A parameter with a default value carries, out of
/// band of the main instruction sequence, the label guarding the evaluation
/// of that default expression; the engine renumbers it exactly like an
/// in-sequence reference.
#[derive(Debug, Clone, PartialEq, Eq)]
pub struct HhasParam {
    pub name: String,
    pub is_variadic: bool,
    pub default_value: Option<(Label, String)>,
}

/// Mathematical value of a parameter.
#[verifier::ext_equal]
pub struct HhasParamV {
    pub name: Seq<char>,
    pub is_variadic: bool,
    pub default_value: Option<(LabelV, Seq<char>)>,
}

impl View for HhasParam {
    type V = HhasParamV;

    open spec fn view(&self) -> HhasParamV {
        HhasParamV {
            name: self.name@,
            is_variadic: self.is_variadic,
            default_value: match &self.default_value {
                Some(p) => Some((p.0@, p.1@)),
                None => None,
            },
        }
    }
}

/// The out-of-band label reference of one parameter, if it has a default
/// value.
pub open spec fn param_refs(p: HhasParamV) -> Seq<LabelV> {
    match p.default_value {
        Some(d) => seq![d.0],
        None => Seq::empty(),
    }
}

/// The out-of-band label references of a parameter list, in parameter order.
pub open spec fn param_label_refs(ps: Seq<HhasParamV>) -> Seq<LabelV>
    decreases ps.len(),
{
    if ps.len() == 0 {
        Seq::empty()
    } else {
        param_refs(ps[0]) + param_label_refs(ps.drop_first())
    }
}

pub proof fn lemma_param_label_refs_app(a: Seq<HhasParamV>, b: Seq<HhasParamV>)
    ensures
        param_label_refs(a + b) == param_label_refs(a) + param_label_refs(b),
    decreases a.len(),
{
    if a.len() == 0 {
        assert(a + b =~= b);
        assert(param_label_refs(a) + param_label_refs(b) =~= param_label_refs(b));
    } else {
        assert((a + b).drop_first() =~= a.drop_first() + b);
        assert((a + b)[0] == a[0]);
        lemma_param_label_refs_app(a.drop_first(), b);
        assert(param_refs(a[0]) + (param_label_refs(a.drop_first()) + param_label_refs(b))
            =~= (param_refs(a[0]) + param_label_refs(a.drop_first())) + param_label_refs(b));
    }
}

/// The view of each parameter of an executable parameter list.
pub open spec fn params_view(ps: Seq<HhasParam>) -> Seq<HhasParamV> {
    ps.map_values(|p: HhasParam| p@)
}

} // verus!
