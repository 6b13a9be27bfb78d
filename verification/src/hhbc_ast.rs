//! The tagged-union instruction model.
//!
//! Every atomic opcode the relabeling engine can meet is listed here,
//! grouped into closed categories.  The engine only inspects the embedded
//! [`Label`] values; all other payloads ride along untouched.  Label
//! extraction and label rewriting are each a single exhaustive match, so
//! adding a label-carrying opcode without updating them fails to compile
//! instead of silently dropping a label.

use vstd::prelude::*;

use crate::label::{Id, Label, LabelV};
use crate::local;

verus! {

/// Flag bits carried by a call instruction; opaque to this engine.
pub type FcallFlags = u16;

/// Mangled class name, opaque to this engine.
pub type ClassId = String;

/// Mangled method name, opaque to this engine.
pub type MethodId = String;

/// Mangled function name, opaque to this engine.
pub type FunctionId = String;

/// Index of a parameter slot, opaque to this engine.
pub type ParamId = usize;

/// Common argument block of every call instruction.  The final component is
/// an optional "async eager" fallthrough target and is the only part this
/// engine reads.
#[derive(Debug, Clone, PartialEq, Eq)]
pub struct FcallArgs(pub FcallFlags, pub usize, pub usize, pub Vec<bool>, pub Option<Label>);

/// Mathematical value of [`FcallArgs`].
#[verifier::ext_equal]
pub struct FcallArgsV {
    pub flags: FcallFlags,
    pub num_args: usize,
    pub num_rets: usize,
    pub by_refs: Seq<bool>,
    pub async_eager_target: Option<LabelV>,
}

impl View for FcallArgs {
    type V = FcallArgsV;

    open spec fn view(&self) -> FcallArgsV {
        FcallArgsV {
            flags: self.0,
            num_args: self.1,
            num_rets: self.2,
            by_refs: self.3@,
            async_eager_target: match self.4 {
                Some(l) => Some(l@),
                None => None,
            },
        }
    }
}

/// A contiguous range of local-variable slots.
#[derive(Debug, Clone, Copy, PartialEq, Eq)]
pub struct LocalRange {
    pub start: Id,
    pub len: usize,
}

/// Resolution mode for a `self`/`parent`/`static` class reference.
#[derive(Debug, Clone, Copy, PartialEq, Eq)]
pub enum SpecialClsRef {
    Static,
    Self_,
    Parent,
}

/// Null-receiver behaviour of an object method call.
#[derive(Debug, Clone, Copy, PartialEq, Eq)]
pub enum ObjNullFlavor {
    NullThrows,
    NullSafe,
}

/// Bounds behaviour of a dense switch.
#[derive(Debug, Clone, Copy, PartialEq, Eq)]
pub enum SwitchKind {
    Bounded,
    Unbounded,
}

/// Label-free basic instructions.
#[derive(Debug, Clone, PartialEq, Eq)]
pub enum InstructBasic {
    Nop,
    PopC,
}

/// Iterator instructions; init/next/break name a jump target.
#[derive(Debug, Clone, PartialEq, Eq)]
pub enum InstructIterator {
    IterInit(Id, Label),
    IterNext(Id, Label),
    IterBreak(Label, Vec<Id>),
    IterFree(Id),
}

/// Generator-delegation instructions.
#[derive(Debug, Clone, PartialEq, Eq)]
pub enum GenDelegation {
    YieldFromDelegate(Id, Label),
}

/// Control-flow instructions.
#[derive(Debug, Clone, PartialEq, Eq)]
pub enum InstructControlFlow {
    Jmp(Label),
    JmpNS(Label),
    JmpZ(Label),
    JmpNZ(Label),
    Switch(SwitchKind, i64, Vec<Label>),
    SSwitch(Vec<(String, Label)>),
    RetC,
}

/// Call instructions; each carries an [`FcallArgs`] whose optional label is a
/// branch target.
#[derive(Debug, Clone, PartialEq, Eq)]
pub enum InstructCall {
    FCall(FcallArgs),
    FCallClsMethod(FcallArgs, ParamId, bool),
    FCallClsMethodD(FcallArgs, ClassId, MethodId),
    FCallClsMethodS(FcallArgs, SpecialClsRef),
    FCallClsMethodSD(FcallArgs, SpecialClsRef, MethodId),
    FCallFunc(FcallArgs, ParamId),
    FCallFuncD(FcallArgs, FunctionId),
    FCallObjMethod(FcallArgs, ObjNullFlavor, ParamId),
    FCallObjMethodD(FcallArgs, ObjNullFlavor, MethodId),
}

/// Miscellaneous instructions; the memo-cache probes carry one or two
/// fallthrough targets.
#[derive(Debug, Clone, PartialEq, Eq)]
pub enum InstructMisc {
    MemoGet(Label, LocalRange),
    MemoGetEager(Label, Label, LocalRange),
    GetMemoKeyL(local::Type),
}

/// Read instructions.
#[derive(Debug, Clone, PartialEq, Eq)]
pub enum InstructGet {
    CGetL(local::Type),
}

/// Write instructions.
#[derive(Debug, Clone, PartialEq, Eq)]
pub enum InstructMutator {
    SetL(local::Type),
}

/// One atomic instruction.
///
/// `ILabel` is the pseudo-instruction marking a label definition: it occupies
/// no offset of its own and refers to the next atomic instruction's offset.
#[derive(Debug, Clone, PartialEq, Eq)]
pub enum Instruct {
    IBasic(InstructBasic),
    IIterator(InstructIterator),
    IGenDelegation(GenDelegation),
    IContFlow(InstructControlFlow),
    ICall(InstructCall),
    IMisc(InstructMisc),
    IGet(InstructGet),
    IMutator(InstructMutator),
    ILabel(Label),
}

/// Mathematical value of one instruction, mirroring [`Instruct`] with labels
/// and strings abstracted to their views.
#[verifier::ext_equal]
pub enum InstructV {
    IBasic(InstructBasic),
    IterInit(Id, LabelV),
    IterNext(Id, LabelV),
    IterBreak(LabelV, Seq<Id>),
    IterFree(Id),
    YieldFromDelegate(Id, LabelV),
    Jmp(LabelV),
    JmpNS(LabelV),
    JmpZ(LabelV),
    JmpNZ(LabelV),
    Switch(SwitchKind, i64, Seq<LabelV>),
    SSwitch(Seq<(Seq<char>, LabelV)>),
    RetC,
    FCall(FcallArgsV),
    FCallClsMethod(FcallArgsV, ParamId, bool),
    FCallClsMethodD(FcallArgsV, Seq<char>, Seq<char>),
    FCallClsMethodS(FcallArgsV, SpecialClsRef),
    FCallClsMethodSD(FcallArgsV, SpecialClsRef, Seq<char>),
    FCallFunc(FcallArgsV, ParamId),
    FCallFuncD(FcallArgsV, Seq<char>),
    FCallObjMethod(FcallArgsV, ObjNullFlavor, ParamId),
    FCallObjMethodD(FcallArgsV, ObjNullFlavor, Seq<char>),
    MemoGet(LabelV, LocalRange),
    MemoGetEager(LabelV, LabelV, LocalRange),
    GetMemoKeyL(local::TypeV),
    CGetL(local::TypeV),
    SetL(local::TypeV),
    ILabel(LabelV),
}

impl View for Instruct {
    type V = InstructV;

    open spec fn view(&self) -> InstructV {
        match self {
            Instruct::IBasic(b) => InstructV::IBasic(*b),
            Instruct::IIterator(InstructIterator::IterInit(it, l)) => InstructV::IterInit(
                *it,
                l@,
            ),
            Instruct::IIterator(InstructIterator::IterNext(it, l)) => InstructV::IterNext(
                *it,
                l@,
            ),
            Instruct::IIterator(InstructIterator::IterBreak(l, its)) => InstructV::IterBreak(
                l@,
                its@,
            ),
            Instruct::IIterator(InstructIterator::IterFree(it)) => InstructV::IterFree(*it),
            Instruct::IGenDelegation(GenDelegation::YieldFromDelegate(it, l)) =>
                InstructV::YieldFromDelegate(*it, l@),
            Instruct::IContFlow(InstructControlFlow::Jmp(l)) => InstructV::Jmp(l@),
            Instruct::IContFlow(InstructControlFlow::JmpNS(l)) => InstructV::JmpNS(l@),
            Instruct::IContFlow(InstructControlFlow::JmpZ(l)) => InstructV::JmpZ(l@),
            Instruct::IContFlow(InstructControlFlow::JmpNZ(l)) => InstructV::JmpNZ(l@),
            Instruct::IContFlow(InstructControlFlow::Switch(k, base, ls)) => InstructV::Switch(
                *k,
                *base,
                ls@.map_values(|l: Label| l@),
            ),
            Instruct::IContFlow(InstructControlFlow::SSwitch(pairs)) => InstructV::SSwitch(
                pairs@.map_values(|p: (String, Label)| (p.0@, p.1@)),
            ),
            Instruct::IContFlow(InstructControlFlow::RetC) => InstructV::RetC,
            Instruct::ICall(InstructCall::FCall(fa)) => InstructV::FCall(fa@),
            Instruct::ICall(InstructCall::FCallClsMethod(fa, p, log)) =>
                InstructV::FCallClsMethod(fa@, *p, *log),
            Instruct::ICall(InstructCall::FCallClsMethodD(fa, c, m)) =>
                InstructV::FCallClsMethodD(fa@, c@, m@),
            Instruct::ICall(InstructCall::FCallClsMethodS(fa, r)) => InstructV::FCallClsMethodS(
                fa@,
                *r,
            ),
            Instruct::ICall(InstructCall::FCallClsMethodSD(fa, r, m)) =>
                InstructV::FCallClsMethodSD(fa@, *r, m@),
            Instruct::ICall(InstructCall::FCallFunc(fa, p)) => InstructV::FCallFunc(fa@, *p),
            Instruct::ICall(InstructCall::FCallFuncD(fa, f)) => InstructV::FCallFuncD(fa@, f@),
            Instruct::ICall(InstructCall::FCallObjMethod(fa, nf, p)) =>
                InstructV::FCallObjMethod(fa@, *nf, *p),
            Instruct::ICall(InstructCall::FCallObjMethodD(fa, nf, m)) =>
                InstructV::FCallObjMethodD(fa@, *nf, m@),
            Instruct::IMisc(InstructMisc::MemoGet(l, range)) => InstructV::MemoGet(l@, *range),
            Instruct::IMisc(InstructMisc::MemoGetEager(l1, l2, range)) => InstructV::MemoGetEager(
                l1@,
                l2@,
                *range,
            ),
            Instruct::IMisc(InstructMisc::GetMemoKeyL(loc)) => InstructV::GetMemoKeyL(loc@),
            Instruct::IGet(InstructGet::CGetL(loc)) => InstructV::CGetL(loc@),
            Instruct::IMutator(InstructMutator::SetL(loc)) => InstructV::SetL(loc@),
            Instruct::ILabel(l) => InstructV::ILabel(l@),
        }
    }
}

/// Whether an instruction is a label-definition pseudo-instruction.
pub open spec fn is_label_def(i: InstructV) -> bool {
    i is ILabel
}

/// The label references an instruction carries, in operand order.  Label
/// definitions are not references; instructions outside the listed categories
/// carry no labels at all.
pub open spec fn instr_label_refs(i: InstructV) -> Seq<LabelV> {
    match i {
        InstructV::IBasic(_) => Seq::empty(),
        InstructV::IterInit(_, l) => seq![l],
        InstructV::IterNext(_, l) => seq![l],
        InstructV::IterBreak(l, _) => seq![l],
        InstructV::IterFree(_) => Seq::empty(),
        InstructV::YieldFromDelegate(_, l) => seq![l],
        InstructV::Jmp(l) => seq![l],
        InstructV::JmpNS(l) => seq![l],
        InstructV::JmpZ(l) => seq![l],
        InstructV::JmpNZ(l) => seq![l],
        InstructV::Switch(_, _, ls) => ls,
        InstructV::SSwitch(pairs) => pairs.map_values(|p: (Seq<char>, LabelV)| p.1),
        InstructV::RetC => Seq::empty(),
        InstructV::FCall(fa) => fcall_label_refs(fa),
        InstructV::FCallClsMethod(fa, _, _) => fcall_label_refs(fa),
        InstructV::FCallClsMethodD(fa, _, _) => fcall_label_refs(fa),
        InstructV::FCallClsMethodS(fa, _) => fcall_label_refs(fa),
        InstructV::FCallClsMethodSD(fa, _, _) => fcall_label_refs(fa),
        InstructV::FCallFunc(fa, _) => fcall_label_refs(fa),
        InstructV::FCallFuncD(fa, _) => fcall_label_refs(fa),
        InstructV::FCallObjMethod(fa, _, _) => fcall_label_refs(fa),
        InstructV::FCallObjMethodD(fa, _, _) => fcall_label_refs(fa),
        InstructV::MemoGet(l, _) => seq![l],
        InstructV::MemoGetEager(l1, l2, _) => seq![l1, l2],
        InstructV::GetMemoKeyL(_) => Seq::empty(),
        InstructV::CGetL(_) => Seq::empty(),
        InstructV::SetL(_) => Seq::empty(),
        InstructV::ILabel(_) => Seq::empty(),
    }
}

/// The label references of one call-argument block.
pub open spec fn fcall_label_refs(fa: FcallArgsV) -> Seq<LabelV> {
    match fa.async_eager_target {
        Some(l) => seq![l],
        None => Seq::empty(),
    }
}

/// Rebuild an instruction with every label definition passed through `fd`
/// and every label reference passed through `fr`.  This is the single
/// exhaustive description of where labels live; both the in-place renumbering
/// pass and the fresh-label cloner are specified with it.
pub open spec fn apply_labels(
    i: InstructV,
    fd: spec_fn(LabelV) -> LabelV,
    fr: spec_fn(LabelV) -> LabelV,
) -> InstructV {
    match i {
        InstructV::IBasic(b) => InstructV::IBasic(b),
        InstructV::IterInit(it, l) => InstructV::IterInit(it, fr(l)),
        InstructV::IterNext(it, l) => InstructV::IterNext(it, fr(l)),
        InstructV::IterBreak(l, its) => InstructV::IterBreak(fr(l), its),
        InstructV::IterFree(it) => InstructV::IterFree(it),
        InstructV::YieldFromDelegate(it, l) => InstructV::YieldFromDelegate(it, fr(l)),
        InstructV::Jmp(l) => InstructV::Jmp(fr(l)),
        InstructV::JmpNS(l) => InstructV::JmpNS(fr(l)),
        InstructV::JmpZ(l) => InstructV::JmpZ(fr(l)),
        InstructV::JmpNZ(l) => InstructV::JmpNZ(fr(l)),
        InstructV::Switch(k, base, ls) => InstructV::Switch(k, base, ls.map_values(fr)),
        InstructV::SSwitch(pairs) => InstructV::SSwitch(
            pairs.map_values(|p: (Seq<char>, LabelV)| (p.0, fr(p.1))),
        ),
        InstructV::RetC => InstructV::RetC,
        InstructV::FCall(fa) => InstructV::FCall(apply_fcall(fa, fr)),
        InstructV::FCallClsMethod(fa, p, log) => InstructV::FCallClsMethod(
            apply_fcall(fa, fr),
            p,
            log,
        ),
        InstructV::FCallClsMethodD(fa, c, m) => InstructV::FCallClsMethodD(
            apply_fcall(fa, fr),
            c,
            m,
        ),
        InstructV::FCallClsMethodS(fa, r) => InstructV::FCallClsMethodS(apply_fcall(fa, fr), r),
        InstructV::FCallClsMethodSD(fa, r, m) => InstructV::FCallClsMethodSD(
            apply_fcall(fa, fr),
            r,
            m,
        ),
        InstructV::FCallFunc(fa, p) => InstructV::FCallFunc(apply_fcall(fa, fr), p),
        InstructV::FCallFuncD(fa, f) => InstructV::FCallFuncD(apply_fcall(fa, fr), f),
        InstructV::FCallObjMethod(fa, nf, p) => InstructV::FCallObjMethod(
            apply_fcall(fa, fr),
            nf,
            p,
        ),
        InstructV::FCallObjMethodD(fa, nf, m) => InstructV::FCallObjMethodD(
            apply_fcall(fa, fr),
            nf,
            m,
        ),
        InstructV::MemoGet(l, range) => InstructV::MemoGet(fr(l), range),
        InstructV::MemoGetEager(l1, l2, range) => InstructV::MemoGetEager(fr(l1), fr(l2), range),
        InstructV::GetMemoKeyL(loc) => InstructV::GetMemoKeyL(loc),
        InstructV::CGetL(loc) => InstructV::CGetL(loc),
        InstructV::SetL(loc) => InstructV::SetL(loc),
        InstructV::ILabel(l) => InstructV::ILabel(fd(l)),
    }
}

/// Rebuild a call-argument block with its optional label passed through `fr`.
pub open spec fn apply_fcall(fa: FcallArgsV, fr: spec_fn(LabelV) -> LabelV) -> FcallArgsV {
    FcallArgsV {
        async_eager_target: match fa.async_eager_target {
            Some(l) => Some(fr(l)),
            None => None,
        },
        ..fa
    }
}

} // verus!
