use hhbc::emit_fatal::{raise_fatal_parse, Error, FatalOp, Pos};
use hhbc::emit_memoize_helpers::{check_memoize_possible, get_memo_key_list, param_code_gets,
    param_code_sets, FunParam};
use hhbc::hhas_param::HhasParam;
use hhbc::hhbc_ast::{Instruct, InstructBasic, InstructGet, InstructMisc, InstructMutator};
use hhbc::instruction_sequence::Instr;
use hhbc::local::Type as LocalType;

fn plain_param(name: &str) -> HhasParam {
    HhasParam { name: String::from(name), is_variadic: false, default_value: None }
}

#[test]
fn memo_key_list_builds_three_instructions() {
    let r = get_memo_key_list(5, 2, String::from("x"));
    assert_eq!(r.len(), 3);
    assert_eq!(
        r[0],
        Instr::One(Instruct::IMisc(InstructMisc::GetMemoKeyL(LocalType::Named(
            String::from("x")
        ))))
    );
    assert_eq!(
        r[1],
        Instr::One(Instruct::IMutator(InstructMutator::SetL(LocalType::Unnamed(7))))
    );
    assert_eq!(r[2], Instr::One(Instruct::IBasic(InstructBasic::PopC)));
}

#[test]
fn param_code_sets_hashes_each_parameter_into_its_slot() {
    let params = vec![plain_param("a"), plain_param("b")];
    let r = param_code_sets(params, 10);
    let expected = Instr::Concat(vec![
        Instr::One(Instruct::IMisc(InstructMisc::GetMemoKeyL(LocalType::Named(
            String::from("a"),
        )))),
        Instr::One(Instruct::IMutator(InstructMutator::SetL(LocalType::Unnamed(10)))),
        Instr::One(Instruct::IBasic(InstructBasic::PopC)),
        Instr::One(Instruct::IMisc(InstructMisc::GetMemoKeyL(LocalType::Named(
            String::from("b"),
        )))),
        Instr::One(Instruct::IMutator(InstructMutator::SetL(LocalType::Unnamed(11)))),
        Instr::One(Instruct::IBasic(InstructBasic::PopC)),
    ]);
    assert_eq!(r, expected);
}

#[test]
fn param_code_gets_loads_each_parameter() {
    let params = vec![plain_param("a"), plain_param("b")];
    let r = param_code_gets(params);
    let expected = Instr::Concat(vec![
        Instr::One(Instruct::IGet(InstructGet::CGetL(LocalType::Named(String::from("a"))))),
        Instr::One(Instruct::IGet(InstructGet::CGetL(LocalType::Named(String::from("b"))))),
    ]);
    assert_eq!(r, expected);
}

fn fun_param(is_reference: bool, is_variadic: bool) -> FunParam {
    FunParam { name: String::from("p"), is_reference, is_variadic }
}

#[test]
fn memoize_allowed_on_plain_parameters() {
    let pos = Pos::default();
    let params = [fun_param(false, false), fun_param(false, false)];
    assert_eq!(check_memoize_possible(pos, &params, false), Ok(()));
    assert_eq!(check_memoize_possible(pos, &params, true), Ok(()));
}

#[test]
fn memoize_rejected_on_reference_parameter() {
    let pos = Pos { start_offset: 3, end_offset: 9 };
    let params = [fun_param(false, false), fun_param(true, false)];
    let r = check_memoize_possible(pos, &params, false);
    match r {
        Err(Error::IncludeTimeFatalException(op, p, m)) => {
            assert_eq!(op, FatalOp::Runtime);
            assert_eq!(p, pos);
            assert_eq!(
                m,
                "<<__Memoize>> cannot be used on functions with args passed by reference"
            );
        },
        other => panic!("expected a runtime fatal, got {:?}", other),
    }
}

#[test]
fn memoize_rejected_on_variadic_function_but_not_method() {
    let pos = Pos::default();
    let params = [fun_param(false, true)];
    let r = check_memoize_possible(pos, &params, false);
    match r {
        Err(Error::IncludeTimeFatalException(op, _, m)) => {
            assert_eq!(op, FatalOp::Runtime);
            assert_eq!(
                m,
                "<<__Memoize>> cannot be used on functions with variable arguments"
            );
        },
        other => panic!("expected a runtime fatal, got {:?}", other),
    }
    // The variadic restriction does not apply to methods.
    assert_eq!(check_memoize_possible(pos, &params, true), Ok(()));
}

#[test]
fn reference_violation_reported_before_variadic() {
    let pos = Pos::default();
    let params = [fun_param(true, true)];
    let r = check_memoize_possible(pos, &params, false);
    match r {
        Err(Error::IncludeTimeFatalException(_, _, m)) => {
            assert_eq!(
                m,
                "<<__Memoize>> cannot be used on functions with args passed by reference"
            );
        },
        other => panic!("expected a runtime fatal, got {:?}", other),
    }
}

#[test]
fn parse_fatal_carries_position_and_message() {
    let pos = Pos { start_offset: 1, end_offset: 2 };
    let r: Result<(), Error> = raise_fatal_parse(pos, String::from("bad token"));
    assert_eq!(
        r,
        Err(Error::IncludeTimeFatalException(FatalOp::Parse, pos, String::from("bad token")))
    );
}
