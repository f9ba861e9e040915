//! The shape of a function with its frame: what stands behind the clauses
//! on shape in the contracts of the frame functions, and that the frame of
//! every function balances.

use crate::frame::{
    frame_epilogue, frame_probe, frame_prologue, local_size, pointer_sized, saved_registers,
};
use crate::frame_laws::{
    count_kind, law_frame_amounts, law_frame_balanced, prologue_kinds, total_sp_delta, StackModel,
};
use crate::frame_plan::{
    alloc_kinds, alloc_plan, lemma_alloc_plan, lemma_save_plan, lemma_stack_check_plan, save_plan,
    stack_check_plan,
};
use crate::function::{FunctionView, InstKind};
use crate::plan::plan_kinds;
use crate::registers::RegUnit;
use crate::settings::Flags;
use crate::signature::{last_with_purpose, AbiParam, ArgumentPurpose};
use crate::target::Width;
use vstd::prelude::*;

verus! {

/// The kinds of the check of the stack limit, where one is checked.
spec fn check_kinds(limit: Option<(i64, crate::function::Value)>) -> Seq<InstKind> {
    match limit {
        Some((area, value)) => plan_kinds(stack_check_plan(area, value)),
        None => Seq::empty(),
    }
}

/// The last entry with a purpose is not moved by entries of other purposes
/// behind the list.
pub proof fn lemma_last_with_purpose_behind(
    list: Seq<AbiParam>,
    more: Seq<AbiParam>,
    purpose: ArgumentPurpose,
)
    requires
        forall|i: int| 0 <= i < more.len() ==> (#[trigger] more[i]).purpose != purpose,
    ensures
        last_with_purpose(list + more, purpose) == last_with_purpose(list, purpose),
    decreases more.len(),
{
    if more.len() == 0 {
        assert(list + more =~= list);
    } else {
        let shorter = more.drop_last();
        assert((list + more).drop_last() =~= list + shorter);
        assert((list + more).last() == more[more.len() - 1]);
        assert forall|i: int| 0 <= i < shorter.len() implies (#[trigger] shorter[i]).purpose
            != purpose by {
            assert(shorter[i] == more[i]);
        }
        lemma_last_with_purpose_behind(list, shorter, purpose);
    }
}

/// Is no instruction of the sequence a return?
pub open spec fn no_return(kinds: Seq<InstKind>) -> bool {
    forall|i: int| 0 <= i < kinds.len() ==> !(#[trigger] kinds[i]).is_return()
}

proof fn lemma_check_has_no_return(limit: Option<(i64, crate::function::Value)>)
    ensures
        no_return(check_kinds(limit)),
{
    if let Some((area, value)) = limit {
        lemma_stack_check_plan(area, value, value + 1);
    }
}

proof fn lemma_save_has_no_return(csrs: Seq<RegUnit>)
    requires
        csrs.len() < usize::MAX,
    ensures
        no_return(plan_kinds(save_plan(csrs))),
        plan_kinds(save_plan(csrs)).len() >= 2,
{
    lemma_save_plan(csrs, 0);
    let save = plan_kinds(save_plan(csrs));
    assert(save == crate::frame_plan::save_kinds(csrs.len()));
    assert forall|i: int| 0 <= i < save.len() implies !(#[trigger] save[i]).is_return() by {
        if i >= 2 {
            assert(save[i] == InstKind::X86Push);
        }
    }
}

proof fn lemma_alloc_has_no_return(stack_size: i64, probe: Option<crate::frame_plan::ProbeCall>)
    ensures
        no_return(plan_kinds(alloc_plan(stack_size, probe))),
{
    lemma_alloc_plan(stack_size, probe, 0);
    let alloc = plan_kinds(alloc_plan(stack_size, probe));
    assert(alloc == alloc_kinds(stack_size, probe));
}

proof fn lemma_no_return_concat(a: Seq<InstKind>, b: Seq<InstKind>)
    requires
        no_return(a),
        no_return(b),
    ensures
        no_return(a + b),
{
    assert forall|i: int| 0 <= i < (a + b).len() implies !(#[trigger] (a + b)[i]).is_return() by {
        if i < a.len() {
            assert((a + b)[i] == a[i]);
        } else {
            assert((a + b)[i] == b[i - a.len()]);
        }
    }
}

/// No instruction of a prologue is a return.
pub proof fn lemma_prologue_has_no_return(
    stack_size: i64,
    csrs: Seq<RegUnit>,
    limit: Option<(i64, crate::function::Value)>,
    probe: Option<crate::frame_plan::ProbeCall>,
)
    requires
        csrs.len() < usize::MAX,
    ensures
        prologue_kinds(stack_size, csrs, limit, probe).len() >= 2,
        forall|i: int|
            0 <= i < prologue_kinds(stack_size, csrs, limit, probe).len() ==> !(
            #[trigger] prologue_kinds(stack_size, csrs, limit, probe)[i]).is_return(),
{
    let check = check_kinds(limit);
    let save = plan_kinds(save_plan(csrs));
    let alloc = if stack_size > 0 {
        plan_kinds(alloc_plan(stack_size, probe))
    } else {
        Seq::empty()
    };
    lemma_check_has_no_return(limit);
    lemma_save_has_no_return(csrs);
    if stack_size > 0 {
        lemma_alloc_has_no_return(stack_size, probe);
    }
    lemma_no_return_concat(check, save);
    lemma_no_return_concat(check + save, alloc);
    assert(prologue_kinds(stack_size, csrs, limit, probe) == check + save + alloc);
}

/// The frame of every function balances. Followed through the prologue of
/// a function and then through one of its epilogues, the stack pointer ends
/// where it began: the prologue lowers it by one word for the frame pointer,
/// one for each callee-saved register that the function uses, and the size
/// of the frame without the saved area, and each epilogue raises it by the
/// same. The prologue pushes, and each epilogue pops, once for the frame
/// pointer and once for each of those registers. The probe routine is taken
/// to be called with the size that the prologue hands it.
pub proof fn law_function_frame_balances(
    f: FunctionView,
    width: Width,
    flags: Flags,
    shadow: int,
    word: int,
)
    ensures
        ({
            let count = saved_registers(f, width).len();
            let local = local_size(f, width, shadow);
            let m = StackModel {
                word,
                probe: frame_probe(f, local, pointer_sized(width), width, flags),
                probe_size: local as int,
            };
            let size = if local > 0 {
                local as int
            } else {
                0
            };
            let prologue = frame_prologue(f, width, flags, shadow);
            let epilogue = frame_epilogue(f, width, shadow);
            &&& total_sp_delta(prologue, m) == -((count + 1) * word + size)
            &&& total_sp_delta(epilogue, m) == size + (count + 1) * word
            &&& total_sp_delta(prologue, m) + total_sp_delta(epilogue, m) == 0
            &&& count_kind(prologue, InstKind::X86Push) == count + 1
            &&& count_kind(epilogue, InstKind::X86Pop) == count + 1
            &&& count_kind(prologue, InstKind::X86Pop) == 0
            &&& count_kind(epilogue, InstKind::X86Push) == 0
        }),
{
    let csrs = saved_registers(f, width);
    crate::regset::lemma_units_in_order(
        crate::abi_regs::referenced_registers(f).intersect(
            crate::abi_regs::callee_saved(width, f.signature.call_conv).to_set(),
        ),
        0,
        16,
    );
    let local = local_size(f, width, shadow);
    let limit = crate::frame::frame_limit(f, local, csrs, width);
    let probe = frame_probe(f, local, pointer_sized(width), width, flags);
    law_frame_balanced(local, csrs, limit, probe, word);
    law_frame_amounts(local, csrs, limit, probe, word);
}

} // verus!
