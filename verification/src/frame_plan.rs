//! The instruction sequences of a stack frame: what the prologue and the
//! epilogue of a function consist of.

use crate::function::{FuncRef, InstKind, IntCC, SigRef, TrapCode, Value, ValueLoc};
use crate::plan::{fresh_count, operand_fits, plan_fits, plan_kinds, Operand, Step};
use crate::registers::{RegUnit, R11, RAX, RBP, RFLAGS, RSP};
use vstd::prelude::*;

verus! {

/// An instruction without operands or result.
pub open spec fn plain(kind: InstKind) -> Step {
    Step::Inst { kind, first: None, second: None, result: None }
}

/// The push of the value that the plan creates as its `n`-th.
pub open spec fn push_fresh(n: int) -> Step {
    Step::Inst {
        kind: InstKind::X86Push,
        first: Some(Operand::Fresh(n as usize)),
        second: None,
        result: None,
    }
}

/// The pop of a value that lives in `reg`.
pub open spec fn pop_into(reg: RegUnit) -> Step {
    Step::Inst {
        kind: InstKind::X86Pop,
        first: None,
        second: None,
        result: Some(ValueLoc::Reg(reg)),
    }
}

/// The check of the stack limit: a copy of the limit, the threshold that is
/// `stack_size` above it, the comparison of the stack pointer with the
/// threshold, and the trap where the stack would overflow.
pub open spec fn stack_check_plan(stack_size: i64, limit: Value) -> Seq<Step> {
    seq![
        Step::Inst {
            kind: InstKind::Copy,
            first: Some(Operand::Value(limit)),
            second: None,
            result: Some(ValueLoc::Reg(RAX)),
        },
        Step::Inst {
            kind: InstKind::IaddImm { imm: stack_size },
            first: Some(Operand::Fresh(0)),
            second: None,
            result: Some(ValueLoc::Reg(RAX)),
        },
        Step::Inst {
            kind: InstKind::IfSp,
            first: Some(Operand::Fresh(1)),
            second: None,
            result: Some(ValueLoc::Reg(RFLAGS)),
        },
        Step::Inst {
            kind: InstKind::Trapif {
                cond: IntCC::UnsignedGreaterThanOrEqual,
                code: TrapCode::StackOverflow,
            },
            first: Some(Operand::Fresh(2)),
            second: None,
            result: None,
        },
    ]
}

/// The saving part of the prologue: the frame pointer arrives as a new
/// parameter in its register and is pushed, the stack pointer is copied to
/// the frame pointer, and each callee-saved register arrives as a new
/// parameter and is pushed, in the order of `csrs`.
pub open spec fn save_plan(csrs: Seq<RegUnit>) -> Seq<Step>
    decreases csrs.len(),
{
    if csrs.len() == 0 {
        seq![
            Step::Param { reg: RBP },
            push_fresh(0),
            plain(InstKind::CopySpecial { src: RSP, dst: RBP }),
        ]
    } else {
        save_plan(csrs.drop_last()).push(Step::Param { reg: csrs.last() }).push(
            push_fresh(csrs.len() as int),
        )
    }
}

/// How the probe routine is called.
#[derive(Clone, Copy, PartialEq, Eq, Structural, Debug)]
pub struct ProbeCall {
    /// The probe routine.
    pub callee: FuncRef,
    /// Its signature.
    pub sig: SigRef,
    /// The routine is called through its address in a register.
    pub indirect: bool,
    /// The routine lowers the stack pointer itself.
    pub adjusts_sp: bool,
}

/// The call of the probe routine, direct or through its address, with the
/// size in the plan's first value. The call gives the size back where the
/// routine leaves the stack pointer alone.
pub open spec fn probe_call_steps(probe: ProbeCall) -> Seq<Step> {
    let result = if probe.adjusts_sp {
        None
    } else {
        Some(ValueLoc::Reg(RAX))
    };
    if probe.indirect {
        seq![
            Step::Inst {
                kind: InstKind::FuncAddr { func_ref: probe.callee },
                first: None,
                second: None,
                result: Some(ValueLoc::Reg(R11)),
            },
            Step::Inst {
                kind: InstKind::CallIndirect { sig_ref: probe.sig },
                first: Some(Operand::Fresh(1)),
                second: Some(Operand::Fresh(0)),
                result,
            },
        ]
    } else {
        seq![
            Step::Inst {
                kind: InstKind::Call { func_ref: probe.callee },
                first: Some(Operand::Fresh(0)),
                second: None,
                result,
            },
        ]
    }
}

/// The allocating part of the prologue for a frame of `stack_size` bytes.
/// Without a probe the stack pointer is lowered by the size. With one, the
/// size is put in a register and the probe routine is called; where the
/// routine leaves the stack pointer alone, the stack pointer is then
/// lowered by what the routine gave back.
pub open spec fn alloc_plan(stack_size: i64, probe: Option<ProbeCall>) -> Seq<Step> {
    match probe {
        None => seq![plain(InstKind::AdjustSpDownImm { imm: stack_size })],
        Some(call) => {
            let size = seq![
                Step::Inst {
                    kind: InstKind::Iconst { imm: stack_size },
                    first: None,
                    second: None,
                    result: Some(ValueLoc::Reg(RAX)),
                },
            ];
            let lower = if call.adjusts_sp {
                Seq::empty()
            } else {
                seq![
                    Step::Inst {
                        kind: InstKind::AdjustSpDown,
                        first: Some(
                            Operand::Fresh(
                                if call.indirect {
                                    2
                                } else {
                                    1
                                },
                            ),
                        ),
                        second: None,
                        result: None,
                    },
                ]
            };
            size + probe_call_steps(call) + lower
        },
    }
}

/// The pops into the given registers, in order.
pub open spec fn pop_steps(regs: Seq<RegUnit>) -> Seq<Step> {
    Seq::new(regs.len(), |i: int| pop_into(regs[i]))
}

/// The epilogue: the stack pointer is raised by the size of the frame where
/// there is one, the callee-saved registers are popped in the reverse of
/// the order of `csrs`, and the frame pointer is popped.
pub open spec fn restore_plan(stack_size: i64, csrs: Seq<RegUnit>) -> Seq<Step> {
    (if stack_size > 0 {
        seq![plain(InstKind::AdjustSpUpImm { imm: stack_size })]
    } else {
        Seq::empty()
    }) + pop_steps(csrs.reverse()) + seq![pop_into(RBP)]
}

/// The kinds and the number of new values of a plan with one more step.
pub proof fn lemma_plan_push(plan: Seq<Step>, step: Step)
    ensures
        fresh_count(plan.push(step)) == fresh_count(plan) + if step.creates_value() {
            1int
        } else {
            0int
        },
        plan_kinds(plan.push(step)) == (match step {
            Step::Param { .. } => plan_kinds(plan),
            Step::Inst { kind, .. } => plan_kinds(plan).push(kind),
        }),
{
    assert(plan.push(step).drop_last() =~= plan);
    assert(plan.push(step).last() == step);
}

/// The kinds and the number of new values of one plan followed by another.
pub proof fn lemma_plan_concat(a: Seq<Step>, b: Seq<Step>)
    ensures
        fresh_count(a + b) == fresh_count(a) + fresh_count(b),
        plan_kinds(a + b) == plan_kinds(a) + plan_kinds(b),
    decreases b.len(),
{
    if b.len() == 0 {
        assert(a + b =~= a);
        assert(plan_kinds(a) + plan_kinds(b) =~= plan_kinds(a));
    } else {
        lemma_plan_concat(a, b.drop_last());
        assert((a + b).drop_last() =~= a + b.drop_last());
        assert((a + b).last() == b.last());
        match b.last() {
            Step::Param { .. } => {},
            Step::Inst { kind, .. } => {
                assert(plan_kinds(a) + plan_kinds(b.drop_last()).push(kind) =~= (plan_kinds(a)
                    + plan_kinds(b.drop_last())).push(kind));
            },
        }
    }
}

/// A plan that fits stays fitting with one more step whose operands are
/// values of the function or are created by the plan.
pub proof fn lemma_plan_fits_push(plan: Seq<Step>, step: Step, values: int)
    requires
        plan_fits(plan, values),
        step matches Step::Inst { first, second, .. } ==> {
            &&& operand_fits(first, values, fresh_count(plan) as int)
            &&& operand_fits(second, values, fresh_count(plan) as int)
            &&& first is None ==> second is None
        },
    ensures
        plan_fits(plan.push(step), values),
{
    let longer = plan.push(step);
    assert forall|i: int| 0 <= i < longer.len() implies (#[trigger] longer[i] matches Step::Inst {
        first,
        second,
        ..
    } ==> {
        &&& operand_fits(first, values, fresh_count(longer.take(i)) as int)
        &&& operand_fits(second, values, fresh_count(longer.take(i)) as int)
        &&& first is None ==> second is None
    }) by {
        if i < plan.len() {
            assert(longer[i] == plan[i]);
            assert(longer.take(i) =~= plan.take(i));
        } else {
            assert(longer.take(i) =~= plan);
        }
    }
}

/// The check of the stack limit fits where the limit is a value of the
/// function; it has four instructions and creates three values.
pub proof fn lemma_stack_check_plan(stack_size: i64, limit: Value, values: int)
    requires
        limit < values,
    ensures
        plan_fits(stack_check_plan(stack_size, limit), values),
        fresh_count(stack_check_plan(stack_size, limit)) == 3,
        plan_kinds(stack_check_plan(stack_size, limit)) == seq![
            InstKind::Copy,
            InstKind::IaddImm { imm: stack_size },
            InstKind::IfSp,
            InstKind::Trapif {
                cond: IntCC::UnsignedGreaterThanOrEqual,
                code: TrapCode::StackOverflow,
            },
        ],
{
    let plan = stack_check_plan(stack_size, limit);
    let empty = Seq::<Step>::empty();
    let one = empty.push(plan[0]);
    let two = one.push(plan[1]);
    let three = two.push(plan[2]);
    let four = three.push(plan[3]);
    assert(four =~= plan);
    lemma_plan_push(empty, plan[0]);
    lemma_plan_push(one, plan[1]);
    lemma_plan_push(two, plan[2]);
    lemma_plan_push(three, plan[3]);
    assert(plan_fits(empty, values));
    lemma_plan_fits_push(empty, plan[0], values);
    lemma_plan_fits_push(one, plan[1], values);
    lemma_plan_fits_push(two, plan[2], values);
    lemma_plan_fits_push(three, plan[3], values);
    assert(plan_kinds(plan) =~= seq![
        InstKind::Copy,
        InstKind::IaddImm { imm: stack_size },
        InstKind::IfSp,
        InstKind::Trapif { cond: IntCC::UnsignedGreaterThanOrEqual, code: TrapCode::StackOverflow },
    ]);
}

/// The pushes of the saving part, as kinds: one for the frame pointer, the
/// copy of the stack pointer, and one for each callee-saved register.
pub open spec fn save_kinds(count: nat) -> Seq<InstKind> {
    seq![InstKind::X86Push, InstKind::CopySpecial { src: RSP, dst: RBP }] + Seq::new(
        count,
        |i: int| InstKind::X86Push,
    )
}

/// The saving part fits any function; it creates one value for the frame
/// pointer and one for each callee-saved register.
pub proof fn lemma_save_plan(csrs: Seq<RegUnit>, values: int)
    requires
        csrs.len() < usize::MAX,
    ensures
        plan_fits(save_plan(csrs), values),
        fresh_count(save_plan(csrs)) == csrs.len() + 1,
        plan_kinds(save_plan(csrs)) == save_kinds(csrs.len()),
        save_plan(csrs).len() == 3 + 2 * csrs.len(),
    decreases csrs.len(),
{
    if csrs.len() == 0 {
        let plan = save_plan(csrs);
        let empty = Seq::<Step>::empty();
        let one = empty.push(plan[0]);
        let two = one.push(plan[1]);
        let three = two.push(plan[2]);
        assert(three =~= plan);
        lemma_plan_push(empty, plan[0]);
        lemma_plan_push(one, plan[1]);
        lemma_plan_push(two, plan[2]);
        assert(plan_fits(empty, values));
        lemma_plan_fits_push(empty, plan[0], values);
        lemma_plan_fits_push(one, plan[1], values);
        lemma_plan_fits_push(two, plan[2], values);
        assert(plan_kinds(plan) =~= save_kinds(0));
    } else {
        let shorter = save_plan(csrs.drop_last());
        lemma_save_plan(csrs.drop_last(), values);
        let with_param = shorter.push(Step::Param { reg: csrs.last() });
        lemma_plan_push(shorter, Step::Param { reg: csrs.last() });
        lemma_plan_push(with_param, push_fresh(csrs.len() as int));
        lemma_plan_fits_push(shorter, Step::Param { reg: csrs.last() }, values);
        lemma_plan_fits_push(with_param, push_fresh(csrs.len() as int), values);
        assert(plan_kinds(save_plan(csrs)) =~= save_kinds(csrs.len()));
    }
}

/// The kinds of the allocating part.
pub open spec fn alloc_kinds(stack_size: i64, probe: Option<ProbeCall>) -> Seq<InstKind> {
    match probe {
        None => seq![InstKind::AdjustSpDownImm { imm: stack_size }],
        Some(call) => seq![InstKind::Iconst { imm: stack_size }] + (if call.indirect {
            seq![
                InstKind::FuncAddr { func_ref: call.callee },
                InstKind::CallIndirect { sig_ref: call.sig },
            ]
        } else {
            seq![InstKind::Call { func_ref: call.callee }]
        }) + (if call.adjusts_sp {
            Seq::empty()
        } else {
            seq![InstKind::AdjustSpDown]
        }),
    }
}

/// The allocating part fits any function and has the kinds of
/// `alloc_kinds`.
pub proof fn lemma_alloc_plan(stack_size: i64, probe: Option<ProbeCall>, values: int)
    ensures
        plan_fits(alloc_plan(stack_size, probe), values),
        plan_kinds(alloc_plan(stack_size, probe)) == alloc_kinds(stack_size, probe),
        plan_kinds(alloc_plan(stack_size, probe)).len() >= 1,
        fresh_count(alloc_plan(stack_size, probe)) <= 3,
{
    let plan = alloc_plan(stack_size, probe);
    let empty = Seq::<Step>::empty();
    assert(plan_fits(empty, values));
    let one = empty.push(plan[0]);
    lemma_plan_push(empty, plan[0]);
    lemma_plan_fits_push(empty, plan[0], values);
    match probe {
        None => {
            assert(one =~= plan);
            assert(plan_kinds(plan) =~= alloc_kinds(stack_size, probe));
        },
        Some(call) => {
            let two = one.push(plan[1]);
            lemma_plan_push(one, plan[1]);
            lemma_plan_fits_push(one, plan[1], values);
            if plan.len() == 2 {
                assert(two =~= plan);
            } else {
                let three = two.push(plan[2]);
                lemma_plan_push(two, plan[2]);
                lemma_plan_fits_push(two, plan[2], values);
                if plan.len() == 3 {
                    assert(three =~= plan);
                } else {
                    let four = three.push(plan[3]);
                    lemma_plan_push(three, plan[3]);
                    lemma_plan_fits_push(three, plan[3], values);
                    assert(four =~= plan);
                }
            }
            assert(plan_kinds(plan) =~= alloc_kinds(stack_size, probe));
        },
    }
}

/// Pops fit any function; there is one instruction and one new value for
/// each register.
pub proof fn lemma_pop_steps(regs: Seq<RegUnit>, values: int)
    ensures
        plan_fits(pop_steps(regs), values),
        fresh_count(pop_steps(regs)) == regs.len(),
        plan_kinds(pop_steps(regs)) == Seq::new(regs.len(), |i: int| InstKind::X86Pop),
    decreases regs.len(),
{
    if regs.len() == 0 {
        assert(pop_steps(regs) =~= Seq::empty());
        assert(plan_kinds(pop_steps(regs)) =~= Seq::new(0, |i: int| InstKind::X86Pop));
    } else {
        let shorter = regs.drop_last();
        lemma_pop_steps(shorter, values);
        assert(pop_steps(regs) =~= pop_steps(shorter).push(pop_into(regs.last())));
        lemma_plan_push(pop_steps(shorter), pop_into(regs.last()));
        lemma_plan_fits_push(pop_steps(shorter), pop_into(regs.last()), values);
        assert(plan_kinds(pop_steps(regs)) =~= Seq::new(regs.len(), |i: int| InstKind::X86Pop));
    }
}

/// The kinds of the epilogue.
pub open spec fn restore_kinds(stack_size: i64, count: nat) -> Seq<InstKind> {
    (if stack_size > 0 {
        seq![InstKind::AdjustSpUpImm { imm: stack_size }]
    } else {
        Seq::empty()
    }) + Seq::new(count + 1, |i: int| InstKind::X86Pop)
}

/// A plan without operands fits any function.
pub proof fn lemma_no_operands_fit(plan: Seq<Step>, values: int)
    requires
        forall|i: int|
            0 <= i < plan.len() ==> (#[trigger] plan[i] matches Step::Inst { first, second, .. }
                ==> first is None && second is None),
    ensures
        plan_fits(plan, values),
{
}

/// The epilogue fits any function; it creates one value for each
/// callee-saved register and one for the frame pointer.
pub proof fn lemma_restore_plan(stack_size: i64, csrs: Seq<RegUnit>, values: int)
    ensures
        plan_fits(restore_plan(stack_size, csrs), values),
        fresh_count(restore_plan(stack_size, csrs)) == csrs.len() + 1,
        plan_kinds(restore_plan(stack_size, csrs)) == restore_kinds(stack_size, csrs.len()),
{
    let head = if stack_size > 0 {
        seq![plain(InstKind::AdjustSpUpImm { imm: stack_size })]
    } else {
        Seq::empty()
    };
    let pops = pop_steps(csrs.reverse());
    let last = seq![pop_into(RBP)];
    lemma_pop_steps(csrs.reverse(), values);
    assert(last =~= pop_steps(seq![RBP]));
    lemma_pop_steps(seq![RBP], values);
    if stack_size > 0 {
        assert(head =~= Seq::<Step>::empty().push(head[0]));
        lemma_plan_push(Seq::<Step>::empty(), head[0]);
    }
    lemma_plan_concat(head, pops);
    lemma_plan_concat(head + pops, last);
    lemma_no_operands_fit(restore_plan(stack_size, csrs), values);
    assert(plan_kinds(restore_plan(stack_size, csrs)) =~= restore_kinds(stack_size, csrs.len()));
}

} // verus!
