use hhbc::emitter::{Emitter, GlobalState, Options};
use hhbc::hhbc_ast::{Instruct, InstructControlFlow};
use hhbc::instruction_sequence::Instr;
use hhbc::label::Label;
use hhbc::label_rewriter::clone_with_fresh_regular_labels;

fn jmp(l: Label) -> Instr {
    Instr::One(Instruct::IContFlow(InstructControlFlow::Jmp(l)))
}

fn label(l: Label) -> Instr {
    Instr::make_instr_label(l)
}

#[test]
fn internal_label_replaced_consistently_outside_label_untouched() {
    // The block defines label 4 and references it, and also references
    // label 9 which is defined outside the block: 4 is replaced by one
    // fresh label everywhere, 9 is left alone.
    let mut e = Emitter::new(Options::default(), GlobalState::default());
    let mut block = Instr::gather(vec![
        label(Label::Regular(4)),
        jmp(Label::Regular(4)),
        jmp(Label::Regular(9)),
    ]);
    clone_with_fresh_regular_labels(&mut e, &mut block);
    let expected = Instr::Concat(vec![
        label(Label::Regular(0)),
        jmp(Label::Regular(0)),
        jmp(Label::Regular(9)),
    ]);
    assert_eq!(block, expected);
}

#[test]
fn two_labels_get_distinct_fresh_ids() {
    let mut e = Emitter::new(Options::default(), GlobalState::default());
    let mut block = Instr::gather(vec![
        label(Label::Regular(100)),
        jmp(Label::Regular(200)),
        label(Label::Regular(200)),
        jmp(Label::Regular(100)),
    ]);
    clone_with_fresh_regular_labels(&mut e, &mut block);
    let expected = Instr::Concat(vec![
        label(Label::Regular(0)),
        jmp(Label::Regular(1)),
        label(Label::Regular(1)),
        jmp(Label::Regular(0)),
    ]);
    assert_eq!(block, expected);
}

#[test]
fn named_definitions_get_fresh_regular_labels() {
    // A named label defined in the block is replaced by a fresh regular
    // label; named and regular definitions draw from the same generator in
    // definition order.
    let mut e = Emitter::new(Options::default(), GlobalState::default());
    let mut block = Instr::gather(vec![
        label(Label::Named(String::from("DV1"))),
        label(Label::Regular(7)),
        jmp(Label::Named(String::from("DV1"))),
        jmp(Label::Regular(7)),
        jmp(Label::Named(String::from("DV2"))),
    ]);
    clone_with_fresh_regular_labels(&mut e, &mut block);
    let expected = Instr::Concat(vec![
        label(Label::Regular(0)),
        label(Label::Regular(1)),
        jmp(Label::Regular(0)),
        jmp(Label::Regular(1)),
        jmp(Label::Named(String::from("DV2"))),
    ]);
    assert_eq!(block, expected);
}

#[test]
fn block_without_definitions_left_untouched() {
    let mut e = Emitter::new(Options::default(), GlobalState::default());
    let mut block = Instr::gather(vec![
        jmp(Label::Regular(3)),
        Instr::make_instr_nop(),
    ]);
    clone_with_fresh_regular_labels(&mut e, &mut block);
    let expected = Instr::Concat(vec![
        jmp(Label::Regular(3)),
        Instr::make_instr_nop(),
    ]);
    assert_eq!(block, expected);
}

#[test]
fn generator_advances_once_per_definition() {
    // Two clones from the same emitter never reuse identifiers: the second
    // clone's fresh labels start where the first stopped.
    let mut e = Emitter::new(Options::default(), GlobalState::default());
    let mut first = Instr::gather(vec![label(Label::Regular(4)), jmp(Label::Regular(4))]);
    clone_with_fresh_regular_labels(&mut e, &mut first);
    let mut second = Instr::gather(vec![label(Label::Regular(4)), jmp(Label::Regular(4))]);
    clone_with_fresh_regular_labels(&mut e, &mut second);
    assert_eq!(
        first,
        Instr::Concat(vec![label(Label::Regular(0)), jmp(Label::Regular(0))])
    );
    assert_eq!(
        second,
        Instr::Concat(vec![label(Label::Regular(1)), jmp(Label::Regular(1))])
    );
}
