//! The prologue and epilogue synthesizer: gives a function the code that
//! sets up its stack frame on entry and takes it down before every return.

use crate::abi_regs::{callee_saved, callee_saved_gprs_used, referenced_registers};
use crate::callconv::CallConv;
use crate::frame_plan::{
    alloc_plan, lemma_alloc_plan, lemma_restore_plan, lemma_save_plan, lemma_stack_check_plan,
    pop_into, pop_steps, restore_plan, save_plan, stack_check_plan, ProbeCall,
};
use crate::function::{
    Block, ExtFuncData, ExternalName, FuncRef, Function, FunctionView, Inst, InstKind, IntCC,
    LibCall, Position, TrapCode, Value, ValueLoc,
};
use crate::frame_laws::{epilogue_kinds, prologue_kinds};
use crate::frame_shape::{lemma_last_with_purpose_behind, lemma_prologue_has_no_return};
use crate::plan::{
    emit, emitted, inserted, lemma_inserted_kept, lemma_inserted_nothing, lemma_inserted_twice,
    lemma_same_kinds, plan_kinds, same_kinds, Operand, Step,
};
use crate::registers::{RegClass, RegUnit, R11, RAX, RBP, RFLAGS, RSP};
use crate::regset::{class_units, RegisterSet};
use crate::result::CodegenError;
use crate::settings::Flags;
use crate::signature::{
    AbiParam, ArgumentExtension, ArgumentLoc, ArgumentPurpose, Signature, SignatureView,
};
use crate::stack::{
    frame_layout, layout_stack, same_slots_but_offsets, StackSlotData, StackSlotKind,
};
use crate::target::{TargetIsa, Width};
use crate::types::Type;
use vstd::prelude::*;

verus! {

/// The number of the last of the routines at the end of `ext_funcs` that is
/// the given routine of the runtime library. Only the routines of the
/// library that stand at the end of the list are looked at.
pub open spec fn find_libcall(ext_funcs: Seq<ExtFuncData>, libcall: LibCall) -> Option<FuncRef>
    decreases ext_funcs.len(),
{
    if ext_funcs.len() == 0 {
        None
    } else {
        match ext_funcs.last().name {
            ExternalName::LibCall(lc) => if lc == libcall {
                Some((ext_funcs.len() - 1) as FuncRef)
            } else {
                find_libcall(ext_funcs.drop_last(), libcall)
            },
            _ => None,
        }
    }
}

/// The signature of the probe routine: it takes the size in `arg_reg` and,
/// where it leaves the stack pointer alone, gives it back there.
pub open spec fn probestack_signature(
    reg_type: Type,
    arg_reg: RegUnit,
    adjusts_sp: bool,
) -> SignatureView {
    let size = AbiParam {
        value_type: reg_type,
        purpose: ArgumentPurpose::Normal,
        extension: ArgumentExtension::Unextended,
        location: ArgumentLoc::Reg(arg_reg),
    };
    SignatureView {
        params: seq![size],
        returns: if adjusts_sp {
            Seq::empty()
        } else {
            seq![size]
        },
        call_conv: CallConv::Probestack,
    }
}

/// The function with the probe routine among the functions that it refers
/// to, and the number of the routine: the one that is there, or a new one
/// with a new signature.
pub open spec fn with_probestack(
    f: FunctionView,
    reg_type: Type,
    arg_reg: RegUnit,
    flags: Flags,
) -> (FunctionView, FuncRef) {
    match find_libcall(f.ext_funcs, LibCall::Probestack) {
        Some(func_ref) => (f, func_ref),
        None => (
            FunctionView {
                signatures: f.signatures.push(
                    probestack_signature(reg_type, arg_reg, flags.probestack_func_adjusts_sp),
                ),
                ext_funcs: f.ext_funcs.push(
                    ExtFuncData {
                        name: ExternalName::LibCall(LibCall::Probestack),
                        signature: f.signatures.len() as usize,
                        colocated: flags.colocated_libcalls,
                    },
                ),
                ..f
            },
            f.ext_funcs.len() as FuncRef,
        ),
    }
}

/// The routine of the runtime library among the functions that `func`
/// refers to, if it is there.
fn find_funcref(libcall: LibCall, func: &Function) -> (r: Option<FuncRef>)
    ensures
        r == find_libcall(func@.ext_funcs, libcall),
        r matches Some(func_ref) ==> func_ref < func@.ext_funcs.len(),
{
    let mut i: usize = func.ext_funcs.len();
    assert(func@.ext_funcs.take(i as int) =~= func@.ext_funcs);
    while i > 0
        invariant
            i <= func.ext_funcs.len(),
            find_libcall(func@.ext_funcs, libcall) == find_libcall(
                func@.ext_funcs.take(i as int),
                libcall,
            ),
        decreases i,
    {
        let ghost prefix = func@.ext_funcs.take(i as int);
        assert(prefix.last() == func@.ext_funcs[i - 1]);
        assert(prefix.drop_last() =~= func@.ext_funcs.take(i - 1));
        match func.ext_funcs[i - 1].name {
            ExternalName::LibCall(lc) => {
                if lc == libcall {
                    return Some(i - 1);
                }
            },
            _ => {
                return None;
            },
        }
        i -= 1;
    }
    None
}

/// The probe routine among the functions that `func` refers to; it is
/// added where it is not there.
pub fn get_probestack_funcref(
    func: &mut Function,
    reg_type: Type,
    arg_reg: RegUnit,
    isa: &TargetIsa,
) -> (func_ref: FuncRef)
    ensures
        (final(func)@, func_ref) == with_probestack(old(func)@, reg_type, arg_reg, isa.flags),
        func_ref < final(func)@.ext_funcs.len(),
{
    match find_funcref(LibCall::Probestack, func) {
        Some(func_ref) => func_ref,
        None => {
            let size = AbiParam::special_reg(reg_type, ArgumentPurpose::Normal, arg_reg);
            let mut sig = Signature::new(CallConv::Probestack);
            sig.params.push(size);
            if !isa.flags.probestack_func_adjusts_sp {
                sig.returns.push(size);
            }
            assert(sig@.params =~= seq![size]);
            assert(sig@.returns =~= if isa.flags.probestack_func_adjusts_sp {
                Seq::empty()
            } else {
                seq![size]
            });
            let sig_ref = func.import_signature(sig);
            func.import_function(
                ExtFuncData {
                    name: ExternalName::LibCall(LibCall::Probestack),
                    signature: sig_ref,
                    colocated: isa.flags.colocated_libcalls,
                },
            )
        },
    }
}

/// Inserts the check that traps where the stack pointer is not below the
/// limit in `stack_limit_arg` by more than `stack_size` bytes.
pub fn insert_stack_check(
    func: &mut Function,
    pos: &mut Position,
    stack_size: i64,
    stack_limit_arg: Value,
)
    requires
        old(func)@.wf(),
        old(func)@.has_position(*old(pos)),
        stack_limit_arg < old(func)@.locations.len(),
    ensures
        final(func)@ == emitted(
            old(func)@,
            old(pos).block,
            old(pos).index as int,
            stack_check_plan(stack_size, stack_limit_arg),
        ).0,
        final(pos).block == old(pos).block,
        final(pos).index == old(pos).index + 4,
        final(func)@.wf(),
        final(func)@.has_position(*final(pos)),
        final(func)@.blocks.len() == old(func)@.blocks.len(),
        inserted(
            old(func)@,
            final(func)@,
            old(pos).block,
            old(pos).index as int,
            plan_kinds(stack_check_plan(stack_size, stack_limit_arg)),
        ),
        plan_kinds(stack_check_plan(stack_size, stack_limit_arg)).len() == 4,
        final(func)@.ext_funcs == old(func)@.ext_funcs,
        final(func)@.signatures == old(func)@.signatures,
{
    let mut plan: Vec<Step> = Vec::new();
    plan.push(
        Step::Inst {
            kind: InstKind::Copy,
            first: Some(Operand::Value(stack_limit_arg)),
            second: None,
            result: Some(ValueLoc::Reg(RAX)),
        },
    );
    plan.push(
        Step::Inst {
            kind: InstKind::IaddImm { imm: stack_size },
            first: Some(Operand::Fresh(0)),
            second: None,
            result: Some(ValueLoc::Reg(RAX)),
        },
    );
    plan.push(
        Step::Inst {
            kind: InstKind::IfSp,
            first: Some(Operand::Fresh(1)),
            second: None,
            result: Some(ValueLoc::Reg(RFLAGS)),
        },
    );
    plan.push(
        Step::Inst {
            kind: InstKind::Trapif {
                cond: IntCC::UnsignedGreaterThanOrEqual,
                code: TrapCode::StackOverflow,
            },
            first: Some(Operand::Fresh(2)),
            second: None,
            result: None,
        },
    );
    proof {
        assert(plan@ =~= stack_check_plan(stack_size, stack_limit_arg));
        lemma_stack_check_plan(stack_size, stack_limit_arg, func@.locations.len() as int);
    }
    emit(func, pos, &plan);
}

/// The saving part of the prologue for the given callee-saved registers.
fn build_save_plan(csrs: &Vec<RegUnit>) -> (plan: Vec<Step>)
    requires
        csrs@.len() < usize::MAX,
    ensures
        plan@ == save_plan(csrs@),
{
    let mut plan: Vec<Step> = Vec::new();
    plan.push(Step::Param { reg: RBP });
    plan.push(
        Step::Inst {
            kind: InstKind::X86Push,
            first: Some(Operand::Fresh(0)),
            second: None,
            result: None,
        },
    );
    plan.push(
        Step::Inst {
            kind: InstKind::CopySpecial { src: RSP, dst: RBP },
            first: None,
            second: None,
            result: None,
        },
    );
    let mut i: usize = 0;
    assert(csrs@.take(0) =~= Seq::empty());
    assert(plan@ =~= save_plan(csrs@.take(0)));
    while i < csrs.len()
        invariant
            i <= csrs.len(),
            csrs@.len() < usize::MAX,
            plan@ == save_plan(csrs@.take(i as int)),
        decreases csrs.len() - i,
    {
        proof {
            let next = csrs@.take(i + 1);
            assert(next.drop_last() =~= csrs@.take(i as int));
            assert(next.last() == csrs@[i as int]);
        }
        plan.push(Step::Param { reg: csrs[i] });
        plan.push(
            Step::Inst {
                kind: InstKind::X86Push,
                first: Some(Operand::Fresh(i + 1)),
                second: None,
                result: None,
            },
        );
        i += 1;
    }
    assert(csrs@.take(i as int) =~= csrs@);
    plan
}

/// The allocating part of the prologue.
fn build_alloc_plan(stack_size: i64, probe: Option<ProbeCall>) -> (plan: Vec<Step>)
    ensures
        plan@ == alloc_plan(stack_size, probe),
{
    let mut plan: Vec<Step> = Vec::new();
    match probe {
        None => {
            plan.push(
                Step::Inst {
                    kind: InstKind::AdjustSpDownImm { imm: stack_size },
                    first: None,
                    second: None,
                    result: None,
                },
            );
        },
        Some(call) => {
            let result = if call.adjusts_sp {
                None
            } else {
                Some(ValueLoc::Reg(RAX))
            };
            plan.push(
                Step::Inst {
                    kind: InstKind::Iconst { imm: stack_size },
                    first: None,
                    second: None,
                    result: Some(ValueLoc::Reg(RAX)),
                },
            );
            if call.indirect {
                plan.push(
                    Step::Inst {
                        kind: InstKind::FuncAddr { func_ref: call.callee },
                        first: None,
                        second: None,
                        result: Some(ValueLoc::Reg(R11)),
                    },
                );
                plan.push(
                    Step::Inst {
                        kind: InstKind::CallIndirect { sig_ref: call.sig },
                        first: Some(Operand::Fresh(1)),
                        second: Some(Operand::Fresh(0)),
                        result,
                    },
                );
            } else {
                plan.push(
                    Step::Inst {
                        kind: InstKind::Call { func_ref: call.callee },
                        first: Some(Operand::Fresh(0)),
                        second: None,
                        result,
                    },
                );
            }
            if !call.adjusts_sp {
                let size: usize = if call.indirect {
                    2
                } else {
                    1
                };
                plan.push(
                    Step::Inst {
                        kind: InstKind::AdjustSpDown,
                        first: Some(Operand::Fresh(size)),
                        second: None,
                        result: None,
                    },
                );
            }
        },
    }
    assert(plan@ =~= alloc_plan(stack_size, probe));
    plan
}

/// The epilogue for the given callee-saved registers.
fn build_restore_plan(stack_size: i64, csrs: &Vec<RegUnit>) -> (plan: Vec<Step>)
    ensures
        plan@ == restore_plan(stack_size, csrs@),
{
    let mut plan: Vec<Step> = Vec::new();
    if stack_size > 0 {
        plan.push(
            Step::Inst {
                kind: InstKind::AdjustSpUpImm { imm: stack_size },
                first: None,
                second: None,
                result: None,
            },
        );
    }
    let ghost head = plan@;
    let mut i: usize = csrs.len();
    assert(plan@ =~= head + pop_steps(csrs@.skip(i as int).reverse()));
    while i > 0
        invariant
            i <= csrs.len(),
            plan@ == head + pop_steps(csrs@.skip(i as int).reverse()),
        decreases i,
    {
        i -= 1;
        proof {
            let popped = csrs@.skip(i + 1).reverse();
            assert(csrs@.skip(i as int).reverse() =~= popped.push(csrs@[i as int]));
            assert(pop_steps(popped.push(csrs@[i as int])) =~= pop_steps(popped).push(
                pop_into(csrs@[i as int]),
            ));
        }
        plan.push(
            Step::Inst {
                kind: InstKind::X86Pop,
                first: None,
                second: None,
                result: Some(ValueLoc::Reg(csrs[i])),
            },
        );
    }
    plan.push(
        Step::Inst {
            kind: InstKind::X86Pop,
            first: None,
            second: None,
            result: Some(ValueLoc::Reg(RBP)),
        },
    );
    assert(csrs@.skip(0) =~= csrs@);
    assert(plan@ =~= restore_plan(stack_size, csrs@));
    plan
}

/// Is a frame of `stack_size` bytes probed? It is where probing is enabled
/// and the size is above the threshold, a power of two.
pub open spec fn probes(flags: Flags, stack_size: i64) -> bool {
    flags.probestack_enabled && stack_size > 0 && stack_size as u64 > (1u64 << (
    flags.probestack_size_log2 as u64))
}

/// The bytes that the pushes of the prologue and the return address take:
/// one word for each callee-saved register, one for the frame pointer and
/// one for the return address.
pub open spec fn saved_area(count: int, width: Width) -> int {
    (count + 2) * width.spec_bytes()
}

/// The stack limit that the prologue checks, with the size that the check
/// allows for: there is one where the frame has a size and the signature
/// has a parameter for the limit.
pub open spec fn frame_limit(
    f: FunctionView,
    stack_size: i64,
    csrs: Seq<RegUnit>,
    width: Width,
) -> Option<(i64, Value)> {
    if stack_size > 0 && f.special_param(ArgumentPurpose::StackLimit) is Some {
        Some(
            (
                saved_area(csrs.len() as int, width) as i64,
                f.special_param(ArgumentPurpose::StackLimit).unwrap(),
            ),
        )
    } else {
        None
    }
}

/// How the prologue calls the probe routine, where the frame is probed. The
/// call goes through the address of the routine on a 64-bit target where
/// code is not position independent and the routine is not near.
pub open spec fn frame_probe(
    f: FunctionView,
    stack_size: i64,
    reg_type: Type,
    width: Width,
    flags: Flags,
) -> Option<ProbeCall> {
    if probes(flags, stack_size) {
        let (imported, callee) = with_probestack(f, reg_type, RAX, flags);
        Some(
            ProbeCall {
                callee,
                sig: imported.ext_funcs[callee as int].signature,
                indirect: !flags.is_pic && width == Width::U64
                    && !imported.ext_funcs[callee as int].colocated,
                adjusts_sp: flags.probestack_func_adjusts_sp,
            },
        )
    } else {
        None
    }
}

/// The function with the allocating part of the prologue before the
/// instruction `at` of `block`, for a frame that has a size. Where the frame
/// is probed, the probe routine is made known first. The last instruction
/// of the part is noted as the end of the prologue, unless the probe
/// routine lowers the stack pointer itself.
pub open spec fn with_allocation(
    f: FunctionView,
    block: Block,
    at: int,
    stack_size: i64,
    reg_type: Type,
    width: Width,
    flags: Flags,
) -> FunctionView {
    let probe = frame_probe(f, stack_size, reg_type, width, flags);
    let imported = if probe is Some {
        with_probestack(f, reg_type, RAX, flags).0
    } else {
        f
    };
    let allocated = emitted(imported, block, at, alloc_plan(stack_size, probe)).0;
    if probe is Some && flags.probestack_func_adjusts_sp {
        allocated
    } else {
        FunctionView { prologue_end: Some((allocated.insts.len() - 1) as Inst), ..allocated }
    }
}

/// The function with the prologue at `pos`, which is a place in the entry
/// block. In order: the check of the stack limit, where one is checked; the
/// saving part; and, where the frame has a size, the allocating part.
pub open spec fn with_prologue(
    f: FunctionView,
    pos: Position,
    stack_size: i64,
    reg_type: Type,
    csrs: Seq<RegUnit>,
    width: Width,
    flags: Flags,
) -> FunctionView {
    let limit = frame_limit(f, stack_size, csrs, width);
    let checked = match limit {
        Some((area, value)) => emitted(
            f,
            pos.block,
            pos.index as int,
            stack_check_plan(area, value),
        ).0,
        None => f,
    };
    let at = pos.index + if limit is Some {
        4int
    } else {
        0int
    };
    let saved = emitted(checked, pos.block, at, save_plan(csrs)).0;
    let at_alloc = at + 2 + csrs.len();
    if stack_size <= 0 {
        saved
    } else {
        with_allocation(saved, pos.block, at_alloc, stack_size, reg_type, width, flags)
    }
}

/// Inserts the allocating part of the prologue at `pos`.
fn insert_allocation(
    func: &mut Function,
    pos: &mut Position,
    stack_size: i64,
    reg_type: Type,
    isa: &TargetIsa,
)
    requires
        isa.wf(),
        stack_size > 0,
        old(func)@.wf(),
        old(func)@.has_position(*old(pos)),
    ensures
        final(func)@ == with_allocation(
            old(func)@,
            old(pos).block,
            old(pos).index as int,
            stack_size,
            reg_type,
            isa.width(),
            isa.flags,
        ),
        final(func)@.wf(),
        final(func)@.blocks.len() == old(func)@.blocks.len(),
        final(pos).block == old(pos).block,
        final(func)@.has_position(*final(pos)),
        inserted(
            old(func)@,
            final(func)@,
            old(pos).block,
            old(pos).index as int,
            plan_kinds(
                alloc_plan(
                    stack_size,
                    frame_probe(old(func)@, stack_size, reg_type, isa.width(), isa.flags),
                ),
            ),
        ),
{
    let ghost f = func@;
    let ghost start = *pos;
    let probe = if isa.flags.probestack_enabled && stack_size as u64 > (1u64
        << (isa.flags.probestack_size_log2 as u64)) {
        let callee = get_probestack_funcref(func, reg_type, RAX, isa);
        let data = func.ext_funcs[callee];
        Some(
            ProbeCall {
                callee,
                sig: data.signature,
                indirect: !isa.flags.is_pic && isa.pointer_bits() == 64 && !data.colocated,
                adjusts_sp: isa.flags.probestack_func_adjusts_sp,
            },
        )
    } else {
        None
    };
    let ghost imported = func@;
    proof {
        lemma_same_kinds(f, imported);
    }
    let alloc = build_alloc_plan(stack_size, probe);
    proof {
        lemma_alloc_plan(stack_size, probe, func@.locations.len() as int);
    }
    let (_, last) = emit(func, pos, &alloc);
    let ghost allocated = func@;
    if probe.is_none() || !isa.flags.probestack_func_adjusts_sp {
        func.prologue_end = last;
        proof {
            assert(func@.insts =~= allocated.insts);
            assert(func@.blocks =~= allocated.blocks);
            assert(func@.signatures =~= allocated.signatures);
        }
    }
    proof {
        lemma_same_kinds(allocated, func@);
        lemma_inserted_kept(
            imported,
            allocated,
            func@,
            start.block,
            start.index as int,
            plan_kinds(alloc@),
        );
        lemma_inserted_nothing(f, imported, start.block, start.index as int);
        lemma_inserted_twice(
            f,
            imported,
            func@,
            start.block,
            start.index as int,
            Seq::empty(),
            plan_kinds(alloc@),
        );
        assert(Seq::<InstKind>::empty() + plan_kinds(alloc@) =~= plan_kinds(alloc@));
    }
}

/// Inserts the prologue at `pos` for a frame of `stack_size` bytes that
/// saves the callee-saved registers in `csrs`.
pub fn insert_common_prologue(
    func: &mut Function,
    pos: &mut Position,
    stack_size: i64,
    reg_type: Type,
    csrs: &RegisterSet,
    isa: &TargetIsa,
)
    requires
        isa.wf(),
        old(func)@.wf(),
        old(func)@.has_position(*old(pos)),
    ensures
        final(func)@ == with_prologue(
            old(func)@,
            *old(pos),
            stack_size,
            reg_type,
            class_units(csrs@, RegClass::GPR),
            isa.width(),
            isa.flags,
        ),
        final(func)@.wf(),
        final(func)@.blocks.len() == old(func)@.blocks.len(),
        final(pos).block == old(pos).block,
        final(func)@.has_position(*final(pos)),
        inserted(
            old(func)@,
            final(func)@,
            old(pos).block,
            old(pos).index as int,
            prologue_kinds(
                stack_size,
                class_units(csrs@, RegClass::GPR),
                frame_limit(old(func)@, stack_size, class_units(csrs@, RegClass::GPR), isa.width()),
                frame_probe(old(func)@, stack_size, reg_type, isa.width(), isa.flags),
            ),
        ),
{
    let ghost f = func@;
    let ghost start = *pos;
    let ghost limit = frame_limit(f, stack_size, class_units(csrs@, RegClass::GPR), isa.width());
    let ghost check = match limit {
        Some((area, value)) => plan_kinds(stack_check_plan(area, value)),
        None => Seq::empty(),
    };
    let csr_list = csrs.iter(RegClass::GPR);
    proof {
        lemma_same_kinds(f, f);
        lemma_inserted_nothing(f, f, start.block, start.index as int);
    }
    if stack_size > 0 {
        if let Some(stack_limit_arg) = func.special_param(ArgumentPurpose::StackLimit) {
            let word_size: i64 = isa.pointer_bytes() as i64;
            let words: i64 = csr_list.len() as i64 + 1 + 1;
            assert(0 <= words * word_size <= 18 * 8) by (nonlinear_arith)
                requires
                    0 <= words <= 18,
                    0 <= word_size <= 8,
            ;
            let total_stack_size: i64 = words * word_size;
            insert_stack_check(func, pos, total_stack_size, stack_limit_arg);
        }
    }
    let ghost checked = func@;
    assert(inserted(f, checked, start.block, start.index as int, check));
    assert(pos.index == start.index + check.len());
    let save = build_save_plan(&csr_list);
    proof {
        lemma_save_plan(csr_list@, func@.locations.len() as int);
    }
    emit(func, pos, &save);
    let ghost saved = func@;
    proof {
        lemma_inserted_twice(
            f,
            checked,
            saved,
            start.block,
            start.index as int,
            check,
            plan_kinds(save@),
        );
    }
    if stack_size > 0 {
        insert_allocation(func, pos, stack_size, reg_type, isa);
        proof {
            let probe = frame_probe(f, stack_size, reg_type, isa.width(), isa.flags);
            assert(frame_probe(saved, stack_size, reg_type, isa.width(), isa.flags) == probe);
            lemma_inserted_twice(
                f,
                saved,
                func@,
                start.block,
                start.index as int,
                check + plan_kinds(save@),
                plan_kinds(alloc_plan(stack_size, probe)),
            );
        }
    } else {
        assert(check + plan_kinds(save@) + Seq::<InstKind>::empty() =~= check + plan_kinds(save@));
    }
}

/// The function with `values` as further arguments of `inst`, in order.
pub open spec fn with_inst_args(f: FunctionView, inst: Inst, values: Seq<Value>) -> FunctionView
    decreases values.len(),
{
    if values.len() == 0 {
        f
    } else {
        with_inst_args(f, inst, values.drop_last()).add_inst_arg(inst, values.last())
    }
}

/// The function with the epilogue before the return at `pos`. The values
/// that the epilogue pops become further arguments of the return: first the
/// frame pointer, then the callee-saved registers in the order of `csrs`.
pub open spec fn with_epilogue(
    f: FunctionView,
    pos: Position,
    stack_size: i64,
    csrs: Seq<RegUnit>,
) -> FunctionView {
    let inst = f.blocks[pos.block as int].insts[pos.index as int];
    let (restored, popped) = emitted(
        f,
        pos.block,
        pos.index as int,
        restore_plan(stack_size, csrs),
    );
    with_inst_args(restored, inst, popped.reverse())
}

/// Adding arguments to an instruction keeps the numbers of values, of
/// instructions and of blocks, and the layout.
pub proof fn lemma_with_inst_args(f: FunctionView, inst: Inst, values: Seq<Value>)
    requires
        f.wf(),
        inst < f.insts.len(),
        forall|k: int| 0 <= k < values.len() ==> values[k] < f.locations.len(),
    ensures
        with_inst_args(f, inst, values).wf(),
        with_inst_args(f, inst, values).locations == f.locations,
        with_inst_args(f, inst, values).blocks == f.blocks,
        with_inst_args(f, inst, values).insts.len() == f.insts.len(),
        with_inst_args(f, inst, values).insts == f.insts.update(
            inst as int,
            crate::function::InstView {
                args: f.insts[inst as int].args + values,
                ..f.insts[inst as int]
            },
        ),
    decreases values.len(),
{
    if values.len() == 0 {
        assert(f.insts[inst as int].args + values =~= f.insts[inst as int].args);
        assert(f.insts =~= f.insts.update(
            inst as int,
            crate::function::InstView {
                args: f.insts[inst as int].args + values,
                ..f.insts[inst as int]
            },
        ));
    } else {
        let shorter = values.drop_last();
        lemma_with_inst_args(f, inst, shorter);
        let g = with_inst_args(f, inst, shorter);
        let h = g.add_inst_arg(inst, values.last());
        assert(values[values.len() - 1] == values.last());
        assert((f.insts[inst as int].args + shorter).push(values.last())
            =~= f.insts[inst as int].args + values);
        assert(h.insts =~= f.insts.update(
            inst as int,
            crate::function::InstView {
                args: f.insts[inst as int].args + values,
                ..f.insts[inst as int]
            },
        ));
        assert(h.wf()) by {
            assert forall|n: int, i: int|
                0 <= n < h.insts.len() && 0 <= i < h.insts[n].args.len() implies (
            #[trigger] h.insts[n].args[i]) < h.locations.len() by {
                if n == inst {
                    if i < g.insts[n].args.len() {
                        assert(h.insts[n].args[i] == g.insts[n].args[i]);
                    }
                } else {
                    assert(h.insts[n].args[i] == g.insts[n].args[i]);
                }
            }
            assert forall|n: int| 0 <= n < h.insts.len() implies ((
            #[trigger] h.insts[n]).result matches Some(v) ==> v < h.locations.len()) by {
                assert(h.insts[n].result == g.insts[n].result);
            }
        }
    }
}

/// Inserts the epilogue before the return `inst`, which is the instruction
/// at `pos`, and gives the return the popped values as further arguments.
pub fn insert_common_epilogue(
    inst: Inst,
    stack_size: i64,
    func: &mut Function,
    pos: &mut Position,
    reg_type: Type,
    csrs: &RegisterSet,
)
    requires
        old(func)@.wf(),
        old(pos).block < old(func)@.blocks.len(),
        old(pos).index < old(func)@.blocks[old(pos).block as int].insts.len(),
        old(func)@.blocks[old(pos).block as int].insts[old(pos).index as int] == inst,
    ensures
        final(func)@ == with_epilogue(
            old(func)@,
            *old(pos),
            stack_size,
            class_units(csrs@, RegClass::GPR),
        ),
        final(func)@.wf(),
        final(func)@.blocks.len() == old(func)@.blocks.len(),
        final(pos).block == old(pos).block,
        final(func)@.has_position(*final(pos)),
        inserted(
            old(func)@,
            final(func)@,
            old(pos).block,
            old(pos).index as int,
            epilogue_kinds(stack_size, class_units(csrs@, RegClass::GPR)),
        ),
{
    let ghost f = func@;
    let ghost start = *pos;
    let csr_list = csrs.iter(RegClass::GPR);
    let restore = build_restore_plan(stack_size, &csr_list);
    proof {
        lemma_restore_plan(stack_size, csr_list@, func@.locations.len() as int);
    }
    let (popped, _) = emit(func, pos, &restore);
    let ghost restored = func@;
    let ghost to_add = popped@.reverse();
    let mut k: usize = popped.len();
    while k > 0
        invariant
            k <= popped.len(),
            to_add == popped@.reverse(),
            restored.wf(),
            inst < restored.insts.len(),
            forall|i: int| 0 <= i < popped@.len() ==> popped@[i] < restored.locations.len(),
            func@ == with_inst_args(restored, inst, to_add.take(popped.len() - k)),
            func@.wf(),
        decreases k,
    {
        k -= 1;
        proof {
            let done = to_add.take(popped.len() - k - 1);
            let next = to_add.take(popped.len() - k);
            assert(next.drop_last() =~= done);
            assert(next.last() == popped@[k as int]);
            lemma_with_inst_args(restored, inst, done);
        }
        func.append_inst_arg(inst, popped[k]);
    }
    proof {
        assert(to_add.take(popped.len() as int) =~= to_add);
        lemma_with_inst_args(restored, inst, to_add);
        lemma_same_kinds(restored, func@);
        lemma_inserted_kept(
            f,
            restored,
            func@,
            start.block,
            start.index as int,
            plan_kinds(restore@),
        );
    }
}

/// The instructions of a block with the epilogue before its return: those
/// of a block that does not end in a return are left as they are.
pub open spec fn with_restore(kinds: Seq<InstKind>, epilogue: Seq<InstKind>) -> Seq<InstKind> {
    if kinds.len() > 0 && kinds.last().is_return() {
        kinds.drop_last() + epilogue + seq![kinds.last()]
    } else {
        kinds
    }
}

/// `g` is `f` with the epilogue of the given kinds before the return of
/// every one of its first `upto` blocks that ends in one; every other
/// block has the instructions that it had.
pub open spec fn restored(
    f: FunctionView,
    g: FunctionView,
    epilogue: Seq<InstKind>,
    upto: int,
) -> bool {
    &&& g.blocks.len() == f.blocks.len()
    &&& forall|b: int|
        0 <= b < upto ==> #[trigger] g.block_kinds(b) == with_restore(f.block_kinds(b), epilogue)
    &&& forall|b: int|
        upto <= b < f.blocks.len() ==> #[trigger] g.block_kinds(b) == f.block_kinds(b)
}

/// Does the block end in a return?
pub open spec fn ends_in_return(f: FunctionView, block: int) -> bool {
    f.blocks[block].insts.len() > 0 && f.insts[f.blocks[block].insts.last() as int].kind.is_return()
}

/// The function with the epilogue before the return at the end of each of
/// its first `upto` blocks that ends in one.
pub open spec fn with_epilogues(
    f: FunctionView,
    stack_size: i64,
    csrs: Seq<RegUnit>,
    upto: int,
) -> FunctionView
    decreases upto,
{
    if upto <= 0 {
        f
    } else {
        let g = with_epilogues(f, stack_size, csrs, upto - 1);
        if ends_in_return(g, upto - 1) {
            with_epilogue(
                g,
                Position {
                    block: (upto - 1) as usize,
                    index: (g.blocks[upto - 1].insts.len() - 1) as usize,
                },
                stack_size,
                csrs,
            )
        } else {
            g
        }
    }
}

/// Finds the returns at the ends of the blocks and inserts the epilogue
/// before each.
pub fn insert_common_epilogues(
    func: &mut Function,
    stack_size: i64,
    reg_type: Type,
    csrs: &RegisterSet,
)
    requires
        old(func)@.wf(),
    ensures
        final(func)@ == with_epilogues(
            old(func)@,
            stack_size,
            class_units(csrs@, RegClass::GPR),
            old(func)@.blocks.len() as int,
        ),
        final(func)@.wf(),
        final(func)@.blocks.len() == old(func)@.blocks.len(),
        restored(
            old(func)@,
            final(func)@,
            epilogue_kinds(stack_size, class_units(csrs@, RegClass::GPR)),
            old(func)@.blocks.len() as int,
        ),
{
    let ghost f = func@;
    let ghost epilogue = epilogue_kinds(stack_size, class_units(csrs@, RegClass::GPR));
    let count = func.blocks.len();
    let mut block: usize = 0;
    while block < count
        invariant
            block <= count,
            count == f.blocks.len(),
            func@.blocks.len() == count,
            func@.wf(),
            epilogue == epilogue_kinds(stack_size, class_units(csrs@, RegClass::GPR)),
            func@ == with_epilogues(
                f,
                stack_size,
                class_units(csrs@, RegClass::GPR),
                block as int,
            ),
            restored(f, func@, epilogue, block as int),
        decreases count - block,
    {
        let ghost g = func@;
        let ghost kinds = f.block_kinds(block as int);
        assert(g.block_kinds(block as int) == kinds);
        let len = func.blocks[block].insts.len();
        assert(len == func@.blocks[block as int].insts.len());
        if len > 0 {
            let inst = func.blocks[block].insts[len - 1];
            assert(inst == func@.blocks[block as int].insts.last());
            assert(func@.insts[inst as int].kind == func.insts@[inst as int].kind);
            assert(kinds.last() == g.insts[inst as int].kind);
            if func.insts[inst].kind.is_return() {
                let mut pos = Position { block, index: len - 1 };
                insert_common_epilogue(inst, stack_size, func, &mut pos, reg_type, csrs);
                proof {
                    assert(kinds.take(len - 1) + epilogue + kinds.skip(len - 1)
                        =~= kinds.drop_last() + epilogue + seq![kinds.last()]);
                }
            }
        }
        proof {
            let h = func@;
            assert forall|b: int| 0 <= b < block + 1 implies #[trigger] h.block_kinds(b)
                == with_restore(f.block_kinds(b), epilogue) by {
                if b < block {
                    assert(g.block_kinds(b) == with_restore(f.block_kinds(b), epilogue));
                }
            }
            assert forall|b: int| block + 1 <= b < f.blocks.len() implies #[trigger] h.block_kinds(
                b,
            ) == f.block_kinds(b) by {
                assert(g.block_kinds(b) == f.block_kinds(b));
            }
        }
        block += 1;
    }
}

/// The pseudo-parameter for a register that the prologue saves.
pub open spec fn saved_register_param(
    reg_type: Type,
    purpose: ArgumentPurpose,
    reg: RegUnit,
) -> AbiParam {
    AbiParam {
        value_type: reg_type,
        purpose,
        extension: ArgumentExtension::Unextended,
        location: ArgumentLoc::Reg(reg),
    }
}

/// The pseudo-parameters for the frame pointer and for the callee-saved
/// registers, in order.
pub open spec fn frame_params(reg_type: Type, csrs: Seq<RegUnit>) -> Seq<AbiParam> {
    seq![saved_register_param(reg_type, ArgumentPurpose::FramePointer, RBP)] + Seq::new(
        csrs.len(),
        |i: int| saved_register_param(reg_type, ArgumentPurpose::CalleeSaved, csrs[i]),
    )
}

/// The signature with the frame pointer and the callee-saved registers as
/// further parameters and return values, each pinned to its register.
pub open spec fn frame_signature(
    sig: SignatureView,
    reg_type: Type,
    csrs: Seq<RegUnit>,
) -> SignatureView {
    SignatureView {
        params: sig.params + frame_params(reg_type, csrs),
        returns: sig.returns + frame_params(reg_type, csrs),
        call_conv: sig.call_conv,
    }
}

/// The callee-saved registers that a function has to save, in rising order.
pub open spec fn saved_registers(f: FunctionView, width: Width) -> Seq<RegUnit> {
    class_units(
        referenced_registers(f).intersect(callee_saved(width, f.signature.call_conv).to_set()),
        RegClass::GPR,
    )
}

/// The slot for what the call and the prologue push, below a shadow store
/// of `shadow` bytes.
pub open spec fn saved_area_slot(count: int, width: Width, shadow: int) -> StackSlotData {
    StackSlotData {
        kind: StackSlotKind::IncomingArg,
        size: saved_area(count, width) as u32,
        offset: Some((-(shadow + saved_area(count, width))) as i32),
    }
}

/// The integer type as wide as a pointer.
pub open spec fn pointer_sized(width: Width) -> Type {
    Type { kind: crate::types::LaneKind::Int, lane_bits: width.spec_bits() as u16, lanes: 1 }
}

/// The size of the frame without the saved area, for which prologue and
/// epilogue are made, where the frame can be laid out.
pub open spec fn local_size(f: FunctionView, width: Width, shadow: int) -> i64 {
    let count = saved_registers(f, width).len() as int;
    (frame_layout(f.stack_slots.push(saved_area_slot(count, width, shadow)), 16).unwrap().1
        - saved_area(count, width)) as i64
}

/// The instructions of the prologue of a function, as kinds.
pub open spec fn frame_prologue(
    f: FunctionView,
    width: Width,
    flags: Flags,
    shadow: int,
) -> Seq<InstKind> {
    let csrs = saved_registers(f, width);
    let local = local_size(f, width, shadow);
    prologue_kinds(
        local,
        csrs,
        frame_limit(f, local, csrs, width),
        frame_probe(f, local, pointer_sized(width), width, flags),
    )
}

/// The instructions of each epilogue of a function, as kinds.
pub open spec fn frame_epilogue(f: FunctionView, width: Width, shadow: int) -> Seq<InstKind> {
    epilogue_kinds(local_size(f, width, shadow), saved_registers(f, width))
}

/// `g` has the shape of `f` with its frame: it has the blocks of `f`; its
/// entry block begins with the prologue; and every block that ended in a
/// return has the epilogue before that return, while all other instructions
/// stand in their order where they stood.
pub open spec fn has_frame_shape(
    f: FunctionView,
    g: FunctionView,
    prologue: Seq<InstKind>,
    epilogue: Seq<InstKind>,
) -> bool {
    &&& g.blocks.len() == f.blocks.len()
    &&& g.block_kinds(0) == prologue + with_restore(f.block_kinds(0), epilogue)
    &&& forall|b: int|
        1 <= b < f.blocks.len() ==> #[trigger] g.block_kinds(b) == with_restore(
            f.block_kinds(b),
            epilogue,
        )
}

/// A function that got a prologue without a return at the start of its
/// entry block, and then its epilogues, has the shape of a function with
/// its frame.
pub proof fn lemma_has_frame_shape(
    f: FunctionView,
    prepared: FunctionView,
    entered: FunctionView,
    g: FunctionView,
    prologue: Seq<InstKind>,
    epilogue: Seq<InstKind>,
)
    requires
        f.blocks.len() > 0,
        same_kinds(f, prepared),
        inserted(prepared, entered, 0, 0, prologue),
        restored(entered, g, epilogue, entered.blocks.len() as int),
        prologue.len() > 0,
        forall|i: int| 0 <= i < prologue.len() ==> !(#[trigger] prologue[i]).is_return(),
    ensures
        has_frame_shape(f, g, prologue, epilogue),
{
    let entry = f.block_kinds(0);
    assert(prepared.block_kinds(0) == entry);
    assert(entered.block_kinds(0) =~= prologue + entry) by {
        assert(entry.take(0) =~= Seq::<InstKind>::empty());
        assert(entry.skip(0) =~= entry);
    }
    assert(g.block_kinds(0) == with_restore(entered.block_kinds(0), epilogue));
    assert(with_restore(prologue + entry, epilogue) =~= prologue + with_restore(entry, epilogue))
        by {
        let whole = prologue + entry;
        if entry.len() == 0 {
            assert(whole =~= prologue);
            assert(!prologue[prologue.len() - 1].is_return());
        } else {
            assert(whole.last() == entry.last());
            assert(whole.drop_last() =~= prologue + entry.drop_last());
        }
    }
    assert forall|b: int| 1 <= b < f.blocks.len() implies #[trigger] g.block_kinds(b)
        == with_restore(f.block_kinds(b), epilogue) by {
        assert(g.block_kinds(b) == with_restore(entered.block_kinds(b), epilogue));
        assert(entered.block_kinds(b) == prepared.block_kinds(b));
        assert(prepared.block_kinds(b) == f.block_kinds(b));
    }
}

/// What is left of `f` in `g` where the frame could not be laid out: the
/// slot `slot` was added, and some of the slots may have an offset that they
/// had not; values, instructions, blocks, signature and all else are as they
/// were, and no size of a frame was noted.
pub open spec fn left_without_frame(f: FunctionView, g: FunctionView, slot: StackSlotData) -> bool {
    &&& same_slots_but_offsets(g.stack_slots, f.stack_slots.push(slot))
    &&& g.frame_size == f.frame_size
    &&& g.signature == f.signature
    &&& g.locations == f.locations
    &&& g.insts == f.insts
    &&& g.blocks == f.blocks
    &&& g.ext_funcs == f.ext_funcs
    &&& g.signatures == f.signatures
    &&& g.encoded_sizes == f.encoded_sizes
    &&& g.prologue_end == f.prologue_end
}

/// The function with its frame: the callee-saved registers that it uses are
/// found; a slot for the saved area is added and the frame is laid out at
/// an alignment of 16 bytes; the signature gets the saved registers; the
/// prologue is put at the start of the entry block and the epilogue before
/// every return, both for the frame without the saved area. `None` where
/// the frame cannot be laid out.
pub open spec fn framed(f: FunctionView, width: Width, flags: Flags, shadow: int) -> Option<
    FunctionView,
> {
    let csrs = saved_registers(f, width);
    let area = saved_area(csrs.len() as int, width);
    let reg_type = Type {
        kind: crate::types::LaneKind::Int,
        lane_bits: width.spec_bits() as u16,
        lanes: 1,
    };
    match frame_layout(f.stack_slots.push(saved_area_slot(csrs.len() as int, width, shadow)), 16) {
        None => None,
        Some((slots, total)) => {
            let local = (total - area) as i64;
            let prepared = FunctionView {
                signature: frame_signature(f.signature, reg_type, csrs),
                stack_slots: slots,
                frame_size: Some(total as u32),
                ..f
            };
            let entered = with_prologue(
                prepared,
                Position { block: 0, index: 0 },
                local,
                reg_type,
                csrs,
                width,
                flags,
            );
            Some(with_epilogues(entered, local, csrs, entered.blocks.len() as int))
        },
    }
}

/// Gives the function its frame, with a shadow store of `shadow` bytes
/// above the saved area.
fn common_prologue_epilogue(func: &mut Function, isa: &TargetIsa, shadow: i32) -> (r: Result<
    (),
    CodegenError,
>)
    requires
        isa.wf(),
        old(func)@.wf(),
        old(func)@.blocks.len() > 0,
        shadow == 0 || shadow == 32,
    ensures
        match framed(old(func)@, isa.width(), isa.flags, shadow as int) {
            Some(with_frame) => {
                &&& r is Ok
                &&& final(func)@ == with_frame
                &&& has_frame_shape(
                    old(func)@,
                    final(func)@,
                    frame_prologue(old(func)@, isa.width(), isa.flags, shadow as int),
                    frame_epilogue(old(func)@, isa.width(), shadow as int),
                )
                &&& local_size(old(func)@, isa.width(), shadow as int) >= shadow as int
            },
            None => {
                &&& r == Err::<(), CodegenError>(CodegenError::ImplLimitExceeded)
                &&& left_without_frame(
                    old(func)@,
                    final(func)@,
                    saved_area_slot(
                        saved_registers(old(func)@, isa.width()).len() as int,
                        isa.width(),
                        shadow as int,
                    ),
                )
            },
        },
{
    let stack_align: u32 = 16;
    let word_size: usize = isa.pointer_bytes() as usize;
    let reg_type = isa.pointer_type();
    let ghost f = func@;

    let csrs = callee_saved_gprs_used(isa, func);
    let csr_list = csrs.iter(RegClass::GPR);
    let words: usize = csr_list.len() + 2;
    assert(0 <= words * word_size <= 18 * 8) by (nonlinear_arith)
        requires
            0 <= words <= 18,
            0 <= word_size <= 8,
    ;
    let csr_stack_size: i32 = (words * word_size) as i32;
    func.create_stack_slot(
        StackSlotData {
            kind: StackSlotKind::IncomingArg,
            size: csr_stack_size as u32,
            offset: Some(-(shadow + csr_stack_size)),
        },
    );
    let ghost with_slot = func@;
    let total_stack_size: i32 = match layout_stack(&mut func.stack_slots, stack_align) {
        Ok(size) => size as i32,
        Err(e) => {
            proof {
                assert(func@.insts =~= f.insts);
                assert(func@.blocks =~= f.blocks);
                assert(func@.signatures =~= f.signatures);
            }
            return Err(e);
        },
    };
    let local_stack_size: i64 = (total_stack_size - csr_stack_size) as i64;
    proof {
        let slots = with_slot.stack_slots;
        assert(slots[slots.len() - 1].kind == StackSlotKind::IncomingArg);
        crate::stack::lemma_frame_covers_incoming(slots, 16, slots.len() - 1);
        assert(local_stack_size >= shadow);
        assert(func@.insts =~= f.insts);
        assert(func@.blocks =~= f.blocks);
        assert(func@.signatures =~= f.signatures);
    }

    let fp_arg = AbiParam::special_reg(reg_type, ArgumentPurpose::FramePointer, RBP);
    func.signature.params.push(fp_arg);
    func.signature.returns.push(fp_arg);
    let ghost params = f.signature.params;
    let ghost rets = f.signature.returns;
    let mut i: usize = 0;
    assert(csr_list@.take(0) =~= Seq::empty());
    assert(func.signature.params@ =~= params + frame_params(reg_type, csr_list@.take(0)));
    assert(func.signature.returns@ =~= rets + frame_params(reg_type, csr_list@.take(0)));
    while i < csr_list.len()
        invariant
            i <= csr_list.len(),
            func.signature.params@ == params + frame_params(reg_type, csr_list@.take(i as int)),
            func.signature.returns@ == rets + frame_params(reg_type, csr_list@.take(i as int)),
            func.signature.call_conv == f.signature.call_conv,
            func.locations@ == f.locations,
            func@.insts == f.insts,
            func@.blocks == f.blocks,
            func@.ext_funcs == f.ext_funcs,
            func@.signatures == f.signatures,
            func@.encoded_sizes == f.encoded_sizes,
            func@.prologue_end == f.prologue_end,
            func@.stack_slots == frame_layout(with_slot.stack_slots, 16).unwrap().0,
            func@.frame_size == Some(total_stack_size as u32),
        decreases csr_list.len() - i,
    {
        let csr_arg = AbiParam::special_reg(reg_type, ArgumentPurpose::CalleeSaved, csr_list[i]);
        proof {
            let before = frame_params(reg_type, csr_list@.take(i as int));
            let after = frame_params(reg_type, csr_list@.take(i + 1));
            assert(after =~= before.push(csr_arg));
            assert((params + before).push(csr_arg) =~= params + after);
            assert((rets + before).push(csr_arg) =~= rets + after);
        }
        func.signature.params.push(csr_arg);
        func.signature.returns.push(csr_arg);
        proof {
            assert(func@.insts =~= f.insts);
            assert(func@.blocks =~= f.blocks);
            assert(func@.signatures =~= f.signatures);
        }
        i += 1;
    }
    assert(csr_list@.take(i as int) =~= csr_list@);
    assert(func@.signature == frame_signature(f.signature, reg_type, csr_list@));

    let ghost prepared = func@;
    let mut pos = Position { block: 0, index: 0 };
    insert_common_prologue(func, &mut pos, local_stack_size, reg_type, &csrs, isa);
    let ghost entered = func@;
    insert_common_epilogues(func, local_stack_size, reg_type, &csrs);
    proof {
        let width = isa.width();
        let list = csr_list@;
        lemma_same_kinds(f, prepared);
        lemma_last_with_purpose_behind(
            f.signature.params,
            frame_params(reg_type, list),
            ArgumentPurpose::StackLimit,
        );
        assert(frame_limit(prepared, local_stack_size, list, width) == frame_limit(
            f,
            local_stack_size,
            list,
            width,
        ));
        let limit = frame_limit(f, local_stack_size, list, width);
        let probe = frame_probe(f, local_stack_size, reg_type, width, isa.flags);
        assert(frame_probe(prepared, local_stack_size, reg_type, width, isa.flags) == probe);
        lemma_prologue_has_no_return(local_stack_size, list, limit, probe);
        lemma_has_frame_shape(
            f,
            prepared,
            entered,
            func@,
            prologue_kinds(local_stack_size, list, limit, probe),
            epilogue_kinds(local_stack_size, list),
        );
    }
    Ok(())
}

/// Gives the function the prologue and the epilogues of the System V
/// convention.
pub fn system_v_prologue_epilogue(func: &mut Function, isa: &TargetIsa) -> (r: Result<
    (),
    CodegenError,
>)
    requires
        isa.wf(),
        old(func)@.wf(),
        old(func)@.blocks.len() > 0,
    ensures
        match framed(old(func)@, isa.width(), isa.flags, 0) {
            Some(with_frame) => {
                &&& r is Ok
                &&& final(func)@ == with_frame
                &&& has_frame_shape(
                    old(func)@,
                    final(func)@,
                    frame_prologue(old(func)@, isa.width(), isa.flags, 0),
                    frame_epilogue(old(func)@, isa.width(), 0),
                )
                &&& local_size(old(func)@, isa.width(), 0) >= 0
            },
            None => {
                &&& r == Err::<(), CodegenError>(CodegenError::ImplLimitExceeded)
                &&& left_without_frame(
                    old(func)@,
                    final(func)@,
                    saved_area_slot(
                        saved_registers(old(func)@, isa.width()).len() as int,
                        isa.width(),
                        0,
                    ),
                )
            },
        },
{
    common_prologue_epilogue(func, isa, 0)
}

/// The bytes of the shadow store, in which a callee may keep the four
/// parameters that arrive in registers.
pub const SHADOW_STORE_SIZE: i32 = 32;

/// Gives the function the prologue and the epilogues of the 64-bit Windows
/// convention: those of `system_v_prologue_epilogue`, with the saved area
/// below the shadow store.
pub fn fastcall_prologue_epilogue(func: &mut Function, isa: &TargetIsa) -> (r: Result<
    (),
    CodegenError,
>)
    requires
        isa.wf(),
        isa.width() == Width::U64,
        old(func)@.wf(),
        old(func)@.blocks.len() > 0,
    ensures
        match framed(old(func)@, isa.width(), isa.flags, SHADOW_STORE_SIZE as int) {
            Some(with_frame) => {
                &&& r is Ok
                &&& final(func)@ == with_frame
                &&& has_frame_shape(
                    old(func)@,
                    final(func)@,
                    frame_prologue(old(func)@, isa.width(), isa.flags, SHADOW_STORE_SIZE as int),
                    frame_epilogue(old(func)@, isa.width(), SHADOW_STORE_SIZE as int),
                )
                &&& local_size(old(func)@, isa.width(), SHADOW_STORE_SIZE as int)
                    >= SHADOW_STORE_SIZE as int
            },
            None => {
                &&& r == Err::<(), CodegenError>(CodegenError::ImplLimitExceeded)
                &&& left_without_frame(
                    old(func)@,
                    final(func)@,
                    saved_area_slot(
                        saved_registers(old(func)@, isa.width()).len() as int,
                        isa.width(),
                        SHADOW_STORE_SIZE as int,
                    ),
                )
            },
        },
{
    common_prologue_epilogue(func, isa, SHADOW_STORE_SIZE)
}

/// The slot for what the embedder's own prologue pushes, with the shadow
/// store where the convention has one.
pub open spec fn embedder_slot(call_conv: CallConv, width: Width, flags: Flags) -> StackSlotData {
    let shadow = if call_conv.extends_windows_fastcall() {
        32int
    } else {
        0int
    };
    let bytes = flags.baldrdash_prologue_words * width.spec_bytes() + shadow;
    StackSlotData {
        kind: StackSlotKind::IncomingArg,
        size: bytes as u32,
        offset: Some((-bytes) as i32),
    }
}

/// The function as it is lowered for an embedder that manages the frame
/// itself: only a slot for what the embedder pushes is added, and the frame
/// is laid out at an alignment of 16 bytes.
pub open spec fn embedder_framed(f: FunctionView, width: Width, flags: Flags) -> Option<
    FunctionView,
> {
    match frame_layout(
        f.stack_slots.push(embedder_slot(f.signature.call_conv, width, flags)),
        16,
    ) {
        None => None,
        Some((slots, total)) => Some(
            FunctionView { stack_slots: slots, frame_size: Some(total as u32), ..f },
        ),
    }
}

/// Lays out the frame of a function of an embedder convention. The embedder
/// writes prologue and epilogue, and no code is added.
pub fn baldrdash_prologue_epilogue(func: &mut Function, isa: &TargetIsa) -> (r: Result<
    (),
    CodegenError,
>)
    requires
        isa.wf(),
        !isa.flags.probestack_enabled,
    ensures
        match embedder_framed(old(func)@, isa.width(), isa.flags) {
            Some(with_frame) => r is Ok && final(func)@ == with_frame,
            None => {
                &&& r == Err::<(), CodegenError>(CodegenError::ImplLimitExceeded)
                &&& left_without_frame(
                    old(func)@,
                    final(func)@,
                    embedder_slot(old(func)@.signature.call_conv, isa.width(), isa.flags),
                )
            },
        },
{
    let stack_align: u32 = 16;
    let word_size: u32 = isa.pointer_bytes() as u32;
    let shadow_store_size: u32 = if func.signature.call_conv.extends_windows_fastcall() {
        32
    } else {
        0
    };
    let words: u32 = isa.flags.baldrdash_prologue_words as u32;
    assert(0 <= words * word_size <= 255 * 8) by (nonlinear_arith)
        requires
            0 <= words <= 255,
            0 <= word_size <= 8,
    ;
    let bytes: u32 = words * word_size + shadow_store_size;
    let mut ss = StackSlotData::new(StackSlotKind::IncomingArg, bytes);
    ss.offset = Some(-(bytes as i32));
    let ghost f = func@;
    func.stack_slots.push(ss);
    match layout_stack(&mut func.stack_slots, stack_align) {
        Ok(_) => {
            proof {
                assert(func@.insts =~= f.insts);
                assert(func@.blocks =~= f.blocks);
                assert(func@.signatures =~= f.signatures);
            }
            Ok(())
        },
        Err(e) => {
            proof {
                assert(func@.insts =~= f.insts);
                assert(func@.blocks =~= f.blocks);
                assert(func@.signatures =~= f.signatures);
            }
            Err(e)
        },
    }
}

/// Can the frame of the function be lowered on the target? The stack-probe
/// convention has no frames; the Windows convention is lowered for 64-bit
/// targets only; the embedder conventions ask for probing to be off; and
/// all others need an entry block.
pub open spec fn can_lower(f: FunctionView, width: Width, flags: Flags) -> bool {
    match f.signature.call_conv {
        CallConv::Fast | CallConv::Cold | CallConv::SystemV => f.wf() && f.blocks.len() > 0,
        CallConv::WindowsFastcall => f.wf() && f.blocks.len() > 0 && width == Width::U64,
        CallConv::BaldrdashSystemV | CallConv::BaldrdashWindows => !flags.probestack_enabled,
        CallConv::Probestack => false,
    }
}

/// The slot that lowering adds for what is pushed before the locals of
/// the function.
pub open spec fn reserved_slot(f: FunctionView, width: Width, flags: Flags) -> StackSlotData {
    match f.signature.call_conv {
        CallConv::WindowsFastcall => saved_area_slot(
            saved_registers(f, width).len() as int,
            width,
            SHADOW_STORE_SIZE as int,
        ),
        CallConv::BaldrdashSystemV | CallConv::BaldrdashWindows => embedder_slot(
            f.signature.call_conv,
            width,
            flags,
        ),
        _ => saved_area_slot(saved_registers(f, width).len() as int, width, 0),
    }
}

/// The bytes of the shadow store of a convention.
pub open spec fn shadow_store(call_conv: CallConv) -> int {
    if call_conv == CallConv::WindowsFastcall {
        SHADOW_STORE_SIZE as int
    } else {
        0
    }
}

/// The function with its frame under its calling convention.
pub open spec fn lowered(f: FunctionView, width: Width, flags: Flags) -> Option<FunctionView> {
    match f.signature.call_conv {
        CallConv::WindowsFastcall => framed(f, width, flags, SHADOW_STORE_SIZE as int),
        CallConv::BaldrdashSystemV | CallConv::BaldrdashWindows => embedder_framed(
            f,
            width,
            flags,
        ),
        _ => framed(f, width, flags, 0),
    }
}

/// Gives the function the stack frame of its calling convention: lays out
/// its stack slots and inserts prologue and epilogues, so that the entry
/// block begins with the prologue and every return has the epilogue before
/// it. An embedder convention gets the layout alone. Fails where the
/// frame cannot be laid out; the function then has one more stack slot, and
/// no instruction, block or signature of it was touched.
pub fn prologue_epilogue(func: &mut Function, isa: &TargetIsa) -> (r: Result<(), CodegenError>)
    requires
        isa.wf(),
        can_lower(old(func)@, isa.width(), isa.flags),
    ensures
        match lowered(old(func)@, isa.width(), isa.flags) {
            Some(with_frame) => {
                &&& r is Ok
                &&& final(func)@ == with_frame
                &&& !old(func)@.signature.call_conv.extends_baldrdash() ==> {
                    &&& has_frame_shape(
                        old(func)@,
                        final(func)@,
                        frame_prologue(
                            old(func)@,
                            isa.width(),
                            isa.flags,
                            shadow_store(old(func)@.signature.call_conv),
                        ),
                        frame_epilogue(
                            old(func)@,
                            isa.width(),
                            shadow_store(old(func)@.signature.call_conv),
                        ),
                    )
                    &&& local_size(
                        old(func)@,
                        isa.width(),
                        shadow_store(old(func)@.signature.call_conv),
                    ) >= shadow_store(old(func)@.signature.call_conv)
                }
            },
            None => {
                &&& r == Err::<(), CodegenError>(CodegenError::ImplLimitExceeded)
                &&& left_without_frame(
                    old(func)@,
                    final(func)@,
                    reserved_slot(old(func)@, isa.width(), isa.flags),
                )
            },
        },
{
    match func.signature.call_conv {
        CallConv::Fast | CallConv::Cold | CallConv::SystemV => system_v_prologue_epilogue(
            func,
            isa,
        ),
        CallConv::WindowsFastcall => fastcall_prologue_epilogue(func, isa),
        CallConv::BaldrdashSystemV | CallConv::BaldrdashWindows => baldrdash_prologue_epilogue(
            func,
            isa,
        ),
        CallConv::Probestack => unreached(),
    }
}

} // verus!
