//! Producers of the instruction sequences that drive memoization wrappers.
//!
//! These helpers build the memo-key store and load sequences for a wrapped
//! function's parameters, and check up front that a function can be
//! memoized at all.

use vstd::prelude::*;

use crate::emit_fatal::{raise_fatal_runtime, Error, FatalOp, Pos};
use crate::hhas_param::{params_view, HhasParam, HhasParamV};
use crate::hhbc_ast::InstructV;
use crate::instruction_sequence::{flat_concat, lemma_flat_concat_app, Instr};
use crate::label_rewriter;
use crate::local;

verus! {

/// The three instructions that hash one parameter into its memo-key slot.
pub open spec fn memo_key_triple(p: HhasParamV, slot: usize) -> Seq<InstructV> {
    seq![
        InstructV::GetMemoKeyL(local::TypeV::Named(p.name)),
        InstructV::SetL(local::TypeV::Unnamed(slot)),
        InstructV::IBasic(crate::hhbc_ast::InstructBasic::PopC),
    ]
}

/// The memo-key store sequence for the parameters from position `j` on.
pub open spec fn param_code_sets_v(ps: Seq<HhasParamV>, local: usize, j: int) -> Seq<InstructV>
    decreases ps.len() - j,
{
    if j < 0 || j >= ps.len() {
        Seq::empty()
    } else {
        memo_key_triple(ps[j], (local + j) as usize) + param_code_sets_v(ps, local, j + 1)
    }
}

/// The memo-key load sequence for the parameters from position `j` on.
pub open spec fn param_code_gets_v(ps: Seq<HhasParamV>, j: int) -> Seq<InstructV>
    decreases ps.len() - j,
{
    if j < 0 || j >= ps.len() {
        Seq::empty()
    } else {
        seq![InstructV::CGetL(local::TypeV::Named(ps[j].name))] + param_code_gets_v(ps, j + 1)
    }
}

/// The instructions that hash one parameter's value into the memo-key slot
/// `local + index`.
pub fn get_memo_key_list(local: local::Id, index: usize, name: String) -> (r: Vec<Instr>)
    requires
        local + index <= usize::MAX,
    ensures
        flat_concat(r@) == memo_key_triple(
            (HhasParamV { name: name@, is_variadic: false, default_value: None }),
            (local + index) as usize,
        ),
        r@.len() == 3,
{
    let mut r: Vec<Instr> = Vec::new();
    r.push(Instr::make_instr_getmemokeyl(local::Type::Named(name)));
    r.push(Instr::make_instr_setl(local::Type::Unnamed(local + index)));
    r.push(Instr::make_instr_popc());
    proof {
        crate::instruction_sequence::lemma_flat_concat_elem(r@, 0);
        crate::instruction_sequence::lemma_flat_concat_elem(r@, 1);
        crate::instruction_sequence::lemma_flat_concat_elem(r@, 2);
        assert(r@.take(0) =~= Seq::<Instr>::empty());
        assert(flat_concat(r@.take(0)) =~= Seq::<InstructV>::empty());
        assert(r@.take(3) =~= r@);
        assert(flat_concat(r@) =~= memo_key_triple(
            (HhasParamV { name: name@, is_variadic: false, default_value: None }),
            (local + index) as usize,
        ));
    }
    r
}

/// The memo-key store sequence of a whole parameter list: parameter `i` is
/// hashed into slot `local + i`, in parameter order.
pub fn param_code_sets(params: Vec<HhasParam>, local: local::Id) -> (r: Instr)
    requires
        local + params@.len() <= usize::MAX,
    ensures
        r@ == param_code_sets_v(params_view(params@), local, 0),
{
    let ghost ps = params_view(params@);
    let mut items: Vec<Instr> = Vec::new();
    let len = params.len();
    let mut i: usize = 0;
    while i < len
        invariant
            len == params@.len(),
            0 <= i <= len,
            ps == params_view(params@),
            ps.len() == len,
            local + len <= usize::MAX,
            flat_concat(items@) == param_code_sets_prefix(ps, local, i as int),
        decreases len - i,
    {
        proof {
            assert(ps[i as int] == params@[i as int]@);
        }
        let mut triple = get_memo_key_list(local, i, params[i].name.clone());
        let ghost items0 = items@;
        let ghost triple0 = triple@;
        items.append(&mut triple);
        proof {
            assert(items@ =~= items0 + triple0);
            lemma_flat_concat_app(items0, triple0);
            lemma_sets_prefix_step(ps, local, i as int);
        }
        i += 1;
    }
    proof {
        lemma_sets_prefix_full(ps, local, len as int);
    }
    Instr::gather(items)
}

/// The part of the store sequence for parameters before position `j`.
pub open spec fn param_code_sets_prefix(
    ps: Seq<HhasParamV>,
    local: usize,
    j: int,
) -> Seq<InstructV>
    decreases j,
{
    if j <= 0 {
        Seq::empty()
    } else {
        param_code_sets_prefix(ps, local, j - 1) + (if j - 1 < ps.len() {
            memo_key_triple(ps[j - 1], (local + j - 1) as usize)
        } else {
            Seq::empty()
        })
    }
}

proof fn lemma_sets_prefix_step(ps: Seq<HhasParamV>, local: usize, j: int)
    requires
        0 <= j < ps.len(),
    ensures
        param_code_sets_prefix(ps, local, j + 1) == param_code_sets_prefix(ps, local, j)
            + memo_key_triple(ps[j], (local + j) as usize),
{
}

/// The prefix through the whole list is the full store sequence.
proof fn lemma_sets_prefix_full(ps: Seq<HhasParamV>, local: usize, j: int)
    requires
        0 <= j <= ps.len(),
    ensures
        param_code_sets_prefix(ps, local, j) + param_code_sets_v(ps, local, j)
            == param_code_sets_v(ps, local, 0),
    decreases j,
{
    if j == 0 {
        assert(param_code_sets_prefix(ps, local, 0) + param_code_sets_v(ps, local, 0)
            =~= param_code_sets_v(ps, local, 0));
    } else {
        lemma_sets_prefix_full(ps, local, j - 1);
        assert(param_code_sets_prefix(ps, local, j - 1) + (memo_key_triple(
            ps[j - 1],
            (local + j - 1) as usize,
        ) + param_code_sets_v(ps, local, j)) =~= (param_code_sets_prefix(ps, local, j - 1)
            + memo_key_triple(ps[j - 1], (local + j - 1) as usize)) + param_code_sets_v(
            ps,
            local,
            j,
        ));
    }
}

/// The memo-key load sequence of a whole parameter list, in parameter
/// order.
pub fn param_code_gets(params: Vec<HhasParam>) -> (r: Instr)
    ensures
        r@ == param_code_gets_v(params_view(params@), 0),
{
    let ghost ps = params_view(params@);
    let mut items: Vec<Instr> = Vec::new();
    let len = params.len();
    let mut i: usize = 0;
    while i < len
        invariant
            len == params@.len(),
            0 <= i <= len,
            ps == params_view(params@),
            ps.len() == len,
            flat_concat(items@) == param_code_gets_prefix(ps, i as int),
        decreases len - i,
    {
        proof {
            assert(ps[i as int] == params@[i as int]@);
        }
        let one = Instr::make_instr_cgetl(local::Type::Named(params[i].name.clone()));
        let ghost items0 = items@;
        items.push(one);
        proof {
            assert(items@ =~= items0 + seq![items@.last()]);
            lemma_flat_concat_app(items0, seq![items@.last()]);
            assert(seq![items@.last()].drop_first() =~= Seq::<Instr>::empty());
            assert(flat_concat(Seq::<Instr>::empty()) =~= Seq::<InstructV>::empty());
            assert(seq![items@.last()][0] == items@.last());
            assert(flat_concat(seq![items@.last()]) =~= items@.last()@);
        }
        i += 1;
    }
    proof {
        lemma_gets_prefix_full(ps, len as int);
    }
    Instr::gather(items)
}

/// The part of the load sequence for parameters before position `j`.
pub open spec fn param_code_gets_prefix(ps: Seq<HhasParamV>, j: int) -> Seq<InstructV>
    decreases j,
{
    if j <= 0 {
        Seq::empty()
    } else {
        param_code_gets_prefix(ps, j - 1) + (if j - 1 < ps.len() {
            seq![InstructV::CGetL(local::TypeV::Named(ps[j - 1].name))]
        } else {
            Seq::empty()
        })
    }
}

proof fn lemma_gets_prefix_full(ps: Seq<HhasParamV>, j: int)
    requires
        0 <= j <= ps.len(),
    ensures
        param_code_gets_prefix(ps, j) + param_code_gets_v(ps, j) == param_code_gets_v(ps, 0),
    decreases j,
{
    if j == 0 {
        assert(param_code_gets_prefix(ps, 0) + param_code_gets_v(ps, 0) =~= param_code_gets_v(
            ps,
            0,
        ));
    } else {
        lemma_gets_prefix_full(ps, j - 1);
        assert(param_code_gets_prefix(ps, j - 1) + (seq![
            InstructV::CGetL(local::TypeV::Named(ps[j - 1].name)),
        ] + param_code_gets_v(ps, j)) =~= (param_code_gets_prefix(ps, j - 1) + seq![
            InstructV::CGetL(local::TypeV::Named(ps[j - 1].name)),
        ]) + param_code_gets_v(ps, j));
    }
}

/// A function parameter as semantic analysis describes it.
#[derive(Debug, Clone, PartialEq, Eq)]
pub struct FunParam {
    pub name: String,
    pub is_reference: bool,
    pub is_variadic: bool,
}

/// Whether any parameter is passed by reference.
pub open spec fn has_reference_param(ps: Seq<FunParam>) -> bool {
    exists|i: int| 0 <= i < ps.len() && (#[trigger] ps[i]).is_reference
}

/// Whether any parameter is variadic.
pub open spec fn has_variadic_param(ps: Seq<FunParam>) -> bool {
    exists|i: int| 0 <= i < ps.len() && (#[trigger] ps[i]).is_variadic
}

/// Check that a function can carry a memoization wrapper: none of its
/// parameters may be passed by reference, and a plain function (not a
/// method) may not be variadic.  The first violated rule decides the
/// message.
pub fn check_memoize_possible(pos: Pos, params: &[FunParam], is_method: bool) -> (r: Result<
    (),
    Error,
>)
    ensures
        r is Err <==> (has_reference_param(params@) || (!is_method && has_variadic_param(
            params@,
        ))),
        has_reference_param(params@) ==> (r matches Err(
            Error::IncludeTimeFatalException(op, p, m),
        ) && op == FatalOp::Runtime && p == pos && m@
            == "<<__Memoize>> cannot be used on functions with args passed by reference"@),
        !has_reference_param(params@) && !is_method && has_variadic_param(params@) ==> (
        r matches Err(Error::IncludeTimeFatalException(op, p, m)) && op == FatalOp::Runtime && p
            == pos && m@
            == "<<__Memoize>> cannot be used on functions with variable arguments"@),
{
    let n = params.len();
    let mut i: usize = 0;
    while i < n
        invariant
            n == params@.len(),
            0 <= i <= n,
            forall|k: int| 0 <= k < i ==> !(#[trigger] params@[k]).is_reference,
        decreases n - i,
    {
        if params[i].is_reference {
            proof {
                assert(has_reference_param(params@));
            }
            return raise_fatal_runtime(
                pos,
                String::from_str(
                    "<<__Memoize>> cannot be used on functions with args passed by reference",
                ),
            );
        }
        i += 1;
    }
    proof {
        assert(!has_reference_param(params@));
    }
    if !is_method {
        let mut j: usize = 0;
        while j < n
            invariant
                n == params@.len(),
                0 <= j <= n,
                !is_method,
                !has_reference_param(params@),
                forall|k: int| 0 <= k < j ==> !(#[trigger] params@[k]).is_variadic,
            decreases n - j,
        {
            if params[j].is_variadic {
                proof {
                    assert(has_variadic_param(params@));
                }
                return raise_fatal_runtime(
                    pos,
                    String::from_str(
                        "<<__Memoize>> cannot be used on functions with variable arguments",
                    ),
                );
            }
            j += 1;
        }
        proof {
            assert(!has_variadic_param(params@));
        }
    }
    Ok(())
}

} // verus!
