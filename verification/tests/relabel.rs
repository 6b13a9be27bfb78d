use hhbc::hhas_param::HhasParam;
use hhbc::hhbc_ast::{Instruct, InstructBasic, InstructControlFlow, InstructMisc, LocalRange};
use hhbc::instruction_sequence::Instr;
use hhbc::label::Label;
use hhbc::hhbc_ast::SwitchKind;
use hhbc::label_rewriter::{create_label_ref_map, create_label_to_offset_map, relabel_function,
    try_relabel_function, LabelError};

fn jmp(l: Label) -> Instr {
    Instr::One(Instruct::IContFlow(InstructControlFlow::Jmp(l)))
}

fn label(l: Label) -> Instr {
    Instr::make_instr_label(l)
}

#[test]
fn single_label_single_jump() {
    // [Label(L1), Jmp(L1)]: L1 sits at offset 0, is referenced once, and is
    // renumbered to the first dense id.
    let body = Instr::gather(vec![label(Label::Regular(1)), jmp(Label::Regular(1))]);
    let defs = create_label_to_offset_map(&body);
    assert_eq!(defs.get(1), Some(0));
    assert_eq!(defs.get(0), None);

    let params: Vec<HhasParam> = Vec::new();
    let (used, rename) = create_label_ref_map(&defs, &params, &body);
    assert!(used.contains(1));
    assert!(!used.contains(0));
    assert_eq!(rename.get(0), Some(0));
    assert_eq!(rename.len(), 1);

    let mut params: Vec<HhasParam> = Vec::new();
    let mut body = Instr::gather(vec![label(Label::Regular(1)), jmp(Label::Regular(1))]);
    relabel_function(&mut params, &mut body);
    let expected = Instr::Concat(vec![label(Label::Regular(0)), jmp(Label::Regular(0))]);
    assert_eq!(body, expected);
}

#[test]
fn aliased_labels_unreferenced_definition() {
    // [Jmp(L2), Label(L1), Label(L2), Nop] with L1 unreferenced: both labels
    // alias offset 1; only L2 is used and gets dense id 0; Label(L1) keeps
    // its stale identifier.
    let l1 = 1usize;
    let l2 = 2usize;
    let make = || {
        Instr::gather(vec![
            jmp(Label::Regular(l2)),
            label(Label::Regular(l1)),
            label(Label::Regular(l2)),
            Instr::make_instr_nop(),
        ])
    };
    let body = make();
    let defs = create_label_to_offset_map(&body);
    assert_eq!(defs.get(l1), Some(1));
    assert_eq!(defs.get(l2), Some(1));

    let params: Vec<HhasParam> = Vec::new();
    let (used, rename) = create_label_ref_map(&defs, &params, &body);
    assert!(used.contains(l2));
    assert!(!used.contains(l1));
    assert_eq!(rename.get(1), Some(0));
    assert_eq!(rename.len(), 1);

    let mut params: Vec<HhasParam> = Vec::new();
    let mut body = make();
    relabel_function(&mut params, &mut body);
    let expected = Instr::Concat(vec![
        jmp(Label::Regular(0)),
        label(Label::Regular(l1)),
        label(Label::Regular(0)),
        Instr::make_instr_nop(),
    ]);
    assert_eq!(body, expected);
}

#[test]
fn aliasing_references_share_dense_id() {
    // Two distinct labels defined at the same offset, both referenced:
    // every reference collapses to the same dense id.  Only the alias seen
    // first joins the used set; the other definition keeps its identifier.
    let mut body = Instr::gather(vec![
        jmp(Label::Regular(7)),
        jmp(Label::Regular(8)),
        label(Label::Regular(7)),
        label(Label::Regular(8)),
        Instr::make_instr_nop(),
    ]);
    let mut params: Vec<HhasParam> = Vec::new();
    relabel_function(&mut params, &mut body);
    let expected = Instr::Concat(vec![
        jmp(Label::Regular(0)),
        jmp(Label::Regular(0)),
        label(Label::Regular(0)),
        label(Label::Regular(8)),
        Instr::make_instr_nop(),
    ]);
    assert_eq!(body, expected);
}

#[test]
fn first_reference_order_decides_numbering() {
    // References appear to offsets in the order 2, 0; dense ids follow the
    // first-reference order, not the definition order.
    let mut body = Instr::gather(vec![
        label(Label::Regular(10)),
        jmp(Label::Regular(20)),
        jmp(Label::Regular(10)),
        label(Label::Regular(20)),
        Instr::make_instr_nop(),
    ]);
    let mut params: Vec<HhasParam> = Vec::new();
    relabel_function(&mut params, &mut body);
    // Label 20 (offset 2) is referenced first and becomes 0; label 10
    // (offset 0) becomes 1.
    let expected = Instr::Concat(vec![
        label(Label::Regular(1)),
        jmp(Label::Regular(0)),
        jmp(Label::Regular(1)),
        label(Label::Regular(0)),
        Instr::make_instr_nop(),
    ]);
    assert_eq!(body, expected);
}

#[test]
fn label_free_body_unchanged() {
    // Relabeling a body with zero label-carrying instructions leaves it
    // unchanged and records nothing.
    let make = || {
        Instr::gather(vec![
            Instr::make_instr_nop(),
            Instr::make_instr_popc(),
            Instr::One(Instruct::IContFlow(InstructControlFlow::RetC)),
        ])
    };
    let body = make();
    let defs = create_label_to_offset_map(&body);
    let params: Vec<HhasParam> = Vec::new();
    let (used, rename) = create_label_ref_map(&defs, &params, &body);
    assert_eq!(rename.len(), 0);
    assert!(!used.contains(0));

    let mut body = make();
    let mut params: Vec<HhasParam> = Vec::new();
    relabel_function(&mut params, &mut body);
    assert_eq!(body, make());
}

#[test]
fn parameter_default_value_reference_is_renumbered() {
    // A parameter's default-value label is treated exactly like an
    // in-sequence reference; body references come first in numbering order.
    let mut body = Instr::gather(vec![
        label(Label::Regular(3)),
        Instr::make_instr_nop(),
        label(Label::Regular(4)),
        jmp(Label::Regular(4)),
    ]);
    let mut params = vec![HhasParam {
        name: String::from("a"),
        is_variadic: false,
        default_value: Some((Label::Regular(3), String::from("1 + 2"))),
    }];
    relabel_function(&mut params, &mut body);
    // The body's Jmp(4) is the first reference (dense id 0); the parameter's
    // reference to label 3 comes after (dense id 1).
    let expected_body = Instr::Concat(vec![
        label(Label::Regular(1)),
        Instr::make_instr_nop(),
        label(Label::Regular(0)),
        jmp(Label::Regular(0)),
    ]);
    assert_eq!(body, expected_body);
    assert_eq!(params[0].default_value, Some((Label::Regular(1), String::from("1 + 2"))));
}

#[test]
fn memo_get_eager_labels_both_renumbered() {
    let range = LocalRange { start: 0, len: 0 };
    let mut body = Instr::gather(vec![
        Instr::One(Instruct::IMisc(InstructMisc::MemoGetEager(
            Label::Regular(5),
            Label::Regular(6),
            range,
        ))),
        label(Label::Regular(5)),
        Instr::make_instr_nop(),
        label(Label::Regular(6)),
        Instr::make_instr_popc(),
    ]);
    let mut params: Vec<HhasParam> = Vec::new();
    relabel_function(&mut params, &mut body);
    let expected = Instr::Concat(vec![
        Instr::One(Instruct::IMisc(InstructMisc::MemoGetEager(
            Label::Regular(0),
            Label::Regular(1),
            range,
        ))),
        label(Label::Regular(0)),
        Instr::make_instr_nop(),
        label(Label::Regular(1)),
        Instr::make_instr_popc(),
    ]);
    assert_eq!(body, expected);
}

#[test]
fn switch_targets_renumbered_in_place() {
    let mut body = Instr::gather(vec![
        Instr::One(Instruct::IContFlow(InstructControlFlow::Switch(
            SwitchKind::Bounded,
            0,
            vec![Label::Regular(11), Label::Regular(12)],
        ))),
        label(Label::Regular(11)),
        Instr::make_instr_nop(),
        label(Label::Regular(12)),
        Instr::make_instr_popc(),
    ]);
    let mut params: Vec<HhasParam> = Vec::new();
    relabel_function(&mut params, &mut body);
    let expected = Instr::Concat(vec![
        Instr::One(Instruct::IContFlow(InstructControlFlow::Switch(
            SwitchKind::Bounded,
            0,
            vec![Label::Regular(0), Label::Regular(1)],
        ))),
        label(Label::Regular(0)),
        Instr::make_instr_nop(),
        label(Label::Regular(1)),
        Instr::make_instr_popc(),
    ]);
    assert_eq!(body, expected);
}

#[test]
fn sswitch_targets_renumbered_with_keys_kept() {
    let mut body = Instr::gather(vec![
        Instr::One(Instruct::IContFlow(InstructControlFlow::SSwitch(vec![
            (String::from("a"), Label::Regular(30)),
            (String::from("b"), Label::Regular(31)),
        ]))),
        label(Label::Regular(31)),
        Instr::make_instr_nop(),
        label(Label::Regular(30)),
        Instr::make_instr_popc(),
    ]);
    let mut params: Vec<HhasParam> = Vec::new();
    relabel_function(&mut params, &mut body);
    let expected = Instr::Concat(vec![
        Instr::One(Instruct::IContFlow(InstructControlFlow::SSwitch(vec![
            (String::from("a"), Label::Regular(0)),
            (String::from("b"), Label::Regular(1)),
        ]))),
        label(Label::Regular(1)),
        Instr::make_instr_nop(),
        label(Label::Regular(0)),
        Instr::make_instr_popc(),
    ]);
    assert_eq!(body, expected);
}

#[test]
fn dangling_reference_is_fatal() {
    // A reference to a label with no definition anywhere is an internal
    // invariant violation: the checked entry point refuses to rewrite.
    let mut body = Instr::gather(vec![label(Label::Regular(1)), jmp(Label::Regular(2))]);
    let mut params: Vec<HhasParam> = Vec::new();
    let r = try_relabel_function(&mut params, &mut body);
    assert_eq!(r, Err(LabelError::DanglingReference));
    // Nothing was modified.
    let expected = Instr::Concat(vec![label(Label::Regular(1)), jmp(Label::Regular(2))]);
    assert_eq!(body, expected);
}

#[test]
fn dangling_parameter_reference_is_fatal() {
    let mut body = Instr::gather(vec![label(Label::Regular(1)), Instr::make_instr_nop()]);
    let mut params = vec![HhasParam {
        name: String::from("a"),
        is_variadic: false,
        default_value: Some((Label::Regular(9), String::from("null"))),
    }];
    let r = try_relabel_function(&mut params, &mut body);
    assert_eq!(r, Err(LabelError::DanglingReference));
    // Nothing was modified, the parameter's reference included.
    assert_eq!(params[0].default_value, Some((Label::Regular(9), String::from("null"))));
    assert_eq!(body, Instr::Concat(vec![label(Label::Regular(1)), Instr::make_instr_nop()]));
}

#[test]
fn unfinalized_definition_is_fatal() {
    let mut body = Instr::gather(vec![
        label(Label::Named(String::from("DV1"))),
        Instr::make_instr_nop(),
    ]);
    let mut params: Vec<HhasParam> = Vec::new();
    let r = try_relabel_function(&mut params, &mut body);
    assert_eq!(r, Err(LabelError::UnfinalizedLabel));
}

#[test]
fn unfinalized_reference_is_fatal() {
    let mut body = Instr::gather(vec![
        label(Label::Regular(1)),
        jmp(Label::Named(String::from("DV1"))),
    ]);
    let mut params: Vec<HhasParam> = Vec::new();
    let r = try_relabel_function(&mut params, &mut body);
    assert_eq!(r, Err(LabelError::UnfinalizedLabel));
}

#[test]
fn well_formed_input_relabels_through_checked_entry() {
    let mut body = Instr::gather(vec![label(Label::Regular(5)), jmp(Label::Regular(5))]);
    let mut params: Vec<HhasParam> = Vec::new();
    let r = try_relabel_function(&mut params, &mut body);
    assert_eq!(r, Ok(()));
    let expected = Instr::Concat(vec![label(Label::Regular(0)), jmp(Label::Regular(0))]);
    assert_eq!(body, expected);
}

#[test]
fn nested_sequences_flatten_in_document_order() {
    // Offsets are computed over the flattened enumeration, depth first.
    let inner = Instr::Concat(vec![
        Instr::List(vec![
            Instruct::IBasic(InstructBasic::Nop),
            Instruct::ILabel(Label::Regular(2)),
        ]),
        jmp(Label::Regular(2)),
    ]);
    let mut body = Instr::gather(vec![label(Label::Regular(1)), inner, jmp(Label::Regular(1))]);
    let defs = create_label_to_offset_map(&body);
    // Label 1 marks offset 0; Nop occupies offset 0; label 2 marks offset 1.
    assert_eq!(defs.get(1), Some(0));
    assert_eq!(defs.get(2), Some(1));

    let mut params: Vec<HhasParam> = Vec::new();
    relabel_function(&mut params, &mut body);
    let expected = Instr::Concat(vec![
        label(Label::Regular(1)),
        Instr::Concat(vec![
            Instr::List(vec![
                Instruct::IBasic(InstructBasic::Nop),
                Instruct::ILabel(Label::Regular(0)),
            ]),
            jmp(Label::Regular(0)),
        ]),
        jmp(Label::Regular(1)),
    ]);
    assert_eq!(body, expected);
}

#[test]
fn dense_ids_cover_zero_to_count() {
    // Three referenced labels: the used definitions carry exactly the dense
    // identifiers 0, 1 and 2, in first-reference order.
    let mut body = Instr::gather(vec![
        Instr::make_instrs(vec![
            Instruct::ILabel(Label::Regular(31)),
            Instruct::IBasic(InstructBasic::Nop),
            Instruct::ILabel(Label::Regular(32)),
            Instruct::IBasic(InstructBasic::Nop),
            Instruct::ILabel(Label::Regular(33)),
            Instruct::IBasic(InstructBasic::Nop),
        ]),
        jmp(Label::Regular(33)),
        jmp(Label::Regular(31)),
        jmp(Label::Regular(32)),
        jmp(Label::Regular(33)),
    ]);
    let mut params: Vec<HhasParam> = Vec::new();
    relabel_function(&mut params, &mut body);
    let expected = Instr::Concat(vec![
        Instr::List(vec![
            Instruct::ILabel(Label::Regular(1)),
            Instruct::IBasic(InstructBasic::Nop),
            Instruct::ILabel(Label::Regular(2)),
            Instruct::IBasic(InstructBasic::Nop),
            Instruct::ILabel(Label::Regular(0)),
            Instruct::IBasic(InstructBasic::Nop),
        ]),
        jmp(Label::Regular(0)),
        jmp(Label::Regular(1)),
        jmp(Label::Regular(2)),
        jmp(Label::Regular(0)),
    ]);
    assert_eq!(body, expected);
}
