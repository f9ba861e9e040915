//! Laws of stack frames: the prologue and the epilogue of a function
//! balance.

use crate::frame_plan::{
    alloc_kinds, alloc_plan, lemma_alloc_plan, lemma_restore_plan, lemma_save_plan,
    lemma_stack_check_plan, restore_plan, save_plan, stack_check_plan, ProbeCall,
};
use crate::function::{InstKind, Value};
use crate::plan::plan_kinds;
use crate::registers::RegUnit;
use vstd::prelude::*;

verus! {

/// What is known of the machine when the stack pointer is followed through
/// a frame: the size of a word, and the probe routine with the size that it
/// is called with. The routine lowers the stack pointer by that size where
/// it adjusts it, and gives the size back where it does not.
pub struct StackModel {
    pub word: int,
    pub probe: Option<ProbeCall>,
    pub probe_size: int,
}

/// The bytes by which an instruction raises the stack pointer; negative
/// where it lowers it.
pub open spec fn sp_delta(kind: InstKind, m: StackModel) -> int {
    match kind {
        InstKind::X86Push => -m.word,
        InstKind::X86Pop => m.word,
        InstKind::AdjustSpDownImm { imm } => -imm,
        InstKind::AdjustSpUpImm { imm } => imm as int,
        InstKind::AdjustSpDown => -m.probe_size,
        InstKind::Call { func_ref } => if m.probe matches Some(call) && !call.indirect
            && call.callee == func_ref && call.adjusts_sp {
            -m.probe_size
        } else {
            0
        },
        InstKind::CallIndirect { sig_ref } => if m.probe matches Some(call) && call.indirect
            && call.sig == sig_ref && call.adjusts_sp {
            -m.probe_size
        } else {
            0
        },
        _ => 0,
    }
}

/// The bytes by which a sequence of instructions raises the stack pointer.
pub open spec fn total_sp_delta(kinds: Seq<InstKind>, m: StackModel) -> int
    decreases kinds.len(),
{
    if kinds.len() == 0 {
        0
    } else {
        total_sp_delta(kinds.drop_last(), m) + sp_delta(kinds.last(), m)
    }
}

/// How often `kind` occurs in a sequence of instructions.
pub open spec fn count_kind(kinds: Seq<InstKind>, kind: InstKind) -> nat
    decreases kinds.len(),
{
    if kinds.len() == 0 {
        0
    } else {
        count_kind(kinds.drop_last(), kind) + if kinds.last() == kind {
            1nat
        } else {
            0nat
        }
    }
}

/// The instructions of the whole prologue, as kinds: the check of the stack
/// limit where there is `limit`, the saving part, and the allocating part
/// where the frame has a size.
pub open spec fn prologue_kinds(
    stack_size: i64,
    csrs: Seq<RegUnit>,
    limit: Option<(i64, Value)>,
    probe: Option<ProbeCall>,
) -> Seq<InstKind> {
    (match limit {
        Some((area, value)) => plan_kinds(stack_check_plan(area, value)),
        None => Seq::empty(),
    }) + plan_kinds(save_plan(csrs)) + (if stack_size > 0 {
        plan_kinds(alloc_plan(stack_size, probe))
    } else {
        Seq::empty()
    })
}

/// The instructions of one epilogue, as kinds.
pub open spec fn epilogue_kinds(stack_size: i64, csrs: Seq<RegUnit>) -> Seq<InstKind> {
    plan_kinds(restore_plan(stack_size, csrs))
}

proof fn lemma_total_concat(a: Seq<InstKind>, b: Seq<InstKind>, m: StackModel)
    ensures
        total_sp_delta(a + b, m) == total_sp_delta(a, m) + total_sp_delta(b, m),
    decreases b.len(),
{
    if b.len() == 0 {
        assert(a + b =~= a);
    } else {
        assert((a + b).drop_last() =~= a + b.drop_last());
        assert((a + b).last() == b.last());
        lemma_total_concat(a, b.drop_last(), m);
    }
}

proof fn lemma_count_concat(a: Seq<InstKind>, b: Seq<InstKind>, kind: InstKind)
    ensures
        count_kind(a + b, kind) == count_kind(a, kind) + count_kind(b, kind),
    decreases b.len(),
{
    if b.len() == 0 {
        assert(a + b =~= a);
    } else {
        assert((a + b).drop_last() =~= a + b.drop_last());
        assert((a + b).last() == b.last());
        lemma_count_concat(a, b.drop_last(), kind);
    }
}

proof fn lemma_repeated(kind: InstKind, n: nat, other: InstKind, m: StackModel)
    ensures
        total_sp_delta(Seq::new(n, |i: int| kind), m) == n * sp_delta(kind, m),
        count_kind(Seq::new(n, |i: int| kind), other) == if kind == other {
            n
        } else {
            0
        },
    decreases n,
{
    let all = Seq::new(n, |i: int| kind);
    if n > 0 {
        let fewer = Seq::new((n - 1) as nat, |i: int| kind);
        assert(all.drop_last() =~= fewer);
        assert(all.last() == kind);
        lemma_repeated(kind, (n - 1) as nat, other, m);
        assert(n * sp_delta(kind, m) == (n - 1) * sp_delta(kind, m) + sp_delta(kind, m))
            by (nonlinear_arith);
    } else {
        assert(n * sp_delta(kind, m) == 0) by (nonlinear_arith)
            requires
                n == 0,
        ;
    }
}

proof fn lemma_short(kinds: Seq<InstKind>, kind: InstKind, m: StackModel)
    requires
        kinds.len() <= 4,
    ensures
        total_sp_delta(kinds, m) == (if kinds.len() > 0 {
            sp_delta(kinds[0], m)
        } else {
            0
        }) + (if kinds.len() > 1 {
            sp_delta(kinds[1], m)
        } else {
            0
        }) + (if kinds.len() > 2 {
            sp_delta(kinds[2], m)
        } else {
            0
        }) + (if kinds.len() > 3 {
            sp_delta(kinds[3], m)
        } else {
            0
        }),
        count_kind(kinds, kind) == (if kinds.len() > 0 && kinds[0] == kind {
            1nat
        } else {
            0nat
        }) + (if kinds.len() > 1 && kinds[1] == kind {
            1nat
        } else {
            0nat
        }) + (if kinds.len() > 2 && kinds[2] == kind {
            1nat
        } else {
            0nat
        }) + (if kinds.len() > 3 && kinds[3] == kind {
            1nat
        } else {
            0nat
        }),
    decreases kinds.len(),
{
    if kinds.len() > 0 {
        let shorter = kinds.drop_last();
        lemma_short(shorter, kind, m);
        assert(forall|i: int| 0 <= i < shorter.len() ==> shorter[i] == kinds[i]);
    }
}

/// The check of the stack limit leaves the stack pointer alone.
proof fn lemma_check_effect(limit: Option<(i64, Value)>, m: StackModel)
    ensures
        ({
            let check = match limit {
                Some((area, value)) => plan_kinds(stack_check_plan(area, value)),
                None => Seq::empty(),
            };
            &&& total_sp_delta(check, m) == 0
            &&& count_kind(check, InstKind::X86Push) == 0
            &&& count_kind(check, InstKind::X86Pop) == 0
        }),
{
    let check = match limit {
        Some((area, value)) => plan_kinds(stack_check_plan(area, value)),
        None => Seq::empty(),
    };
    if let Some((area, value)) = limit {
        lemma_stack_check_plan(area, value, value + 1);
    }
    lemma_short(check, InstKind::X86Push, m);
    lemma_short(check, InstKind::X86Pop, m);
}

/// The saving part pushes one word for the frame pointer and one for each
/// callee-saved register.
proof fn lemma_save_effect(csrs: Seq<RegUnit>, m: StackModel)
    requires
        csrs.len() < usize::MAX,
    ensures
        total_sp_delta(plan_kinds(save_plan(csrs)), m) == -((csrs.len() + 1) * m.word),
        count_kind(plan_kinds(save_plan(csrs)), InstKind::X86Push) == csrs.len() + 1,
        count_kind(plan_kinds(save_plan(csrs)), InstKind::X86Pop) == 0,
{
    let n = csrs.len();
    let push = InstKind::X86Push;
    let pop = InstKind::X86Pop;
    lemma_save_plan(csrs, 0);
    let head = seq![InstKind::X86Push, InstKind::CopySpecial {
        src: crate::registers::RSP,
        dst: crate::registers::RBP,
    }];
    let pushes = Seq::new(n, |i: int| InstKind::X86Push);
    assert(plan_kinds(save_plan(csrs)) == head + pushes);
    lemma_short(head, push, m);
    lemma_short(head, pop, m);
    lemma_repeated(push, n, push, m);
    lemma_repeated(push, n, pop, m);
    lemma_total_concat(head, pushes, m);
    lemma_count_concat(head, pushes, push);
    lemma_count_concat(head, pushes, pop);
    let word = m.word;
    assert(-word + n * (-word) == -((n + 1) * word)) by (nonlinear_arith);
}

/// The allocating part lowers the stack pointer by the size of the frame.
proof fn lemma_alloc_effect(stack_size: i64, probe: Option<ProbeCall>, m: StackModel)
    requires
        m.probe == probe,
        m.probe_size == stack_size,
    ensures
        total_sp_delta(plan_kinds(alloc_plan(stack_size, probe)), m) == -stack_size,
        count_kind(plan_kinds(alloc_plan(stack_size, probe)), InstKind::X86Push) == 0,
        count_kind(plan_kinds(alloc_plan(stack_size, probe)), InstKind::X86Pop) == 0,
{
    lemma_alloc_plan(stack_size, probe, 0);
    let alloc = plan_kinds(alloc_plan(stack_size, probe));
    assert(alloc == alloc_kinds(stack_size, probe));
    match probe {
        None => {
            assert(alloc.len() == 1);
            lemma_short(alloc, InstKind::X86Push, m);
            lemma_short(alloc, InstKind::X86Pop, m);
        },
        Some(call) => {
            let size = seq![InstKind::Iconst { imm: stack_size }];
            let calls = if call.indirect {
                seq![
                    InstKind::FuncAddr { func_ref: call.callee },
                    InstKind::CallIndirect { sig_ref: call.sig },
                ]
            } else {
                seq![InstKind::Call { func_ref: call.callee }]
            };
            let lower = if call.adjusts_sp {
                Seq::<InstKind>::empty()
            } else {
                seq![InstKind::AdjustSpDown]
            };
            assert(alloc == size + calls + lower);
            lemma_short(size, InstKind::X86Push, m);
            lemma_short(size, InstKind::X86Pop, m);
            lemma_short(calls, InstKind::X86Push, m);
            lemma_short(calls, InstKind::X86Pop, m);
            lemma_short(lower, InstKind::X86Push, m);
            lemma_short(lower, InstKind::X86Pop, m);
            lemma_total_concat(size, calls, m);
            lemma_total_concat(size + calls, lower, m);
            lemma_count_concat(size, calls, InstKind::X86Push);
            lemma_count_concat(size + calls, lower, InstKind::X86Push);
            lemma_count_concat(size, calls, InstKind::X86Pop);
            lemma_count_concat(size + calls, lower, InstKind::X86Pop);
        },
    }
}

/// The epilogue raises the stack pointer by the size of the frame, and
/// pops one word for each callee-saved register and one for the frame
/// pointer.
proof fn lemma_restore_effect(stack_size: i64, csrs: Seq<RegUnit>, m: StackModel)
    ensures
        total_sp_delta(plan_kinds(restore_plan(stack_size, csrs)), m) == (if stack_size > 0 {
            stack_size as int
        } else {
            0
        }) + (csrs.len() + 1) * m.word,
        count_kind(plan_kinds(restore_plan(stack_size, csrs)), InstKind::X86Pop) == csrs.len()
            + 1,
        count_kind(plan_kinds(restore_plan(stack_size, csrs)), InstKind::X86Push) == 0,
{
    let n = csrs.len();
    let push = InstKind::X86Push;
    let pop = InstKind::X86Pop;
    lemma_restore_plan(stack_size, csrs, 0);
    let up = if stack_size > 0 {
        seq![InstKind::AdjustSpUpImm { imm: stack_size }]
    } else {
        Seq::empty()
    };
    let pops = Seq::new(n + 1, |i: int| InstKind::X86Pop);
    assert(plan_kinds(restore_plan(stack_size, csrs)) == up + pops);
    lemma_short(up, push, m);
    lemma_short(up, pop, m);
    lemma_repeated(pop, n + 1, pop, m);
    lemma_repeated(pop, n + 1, push, m);
    lemma_total_concat(up, pops, m);
    lemma_count_concat(up, pops, push);
    lemma_count_concat(up, pops, pop);
}

/// The size that prologue and epilogue are made for, where the frame has
/// one.
pub open spec fn allocated_size(stack_size: i64) -> int {
    if stack_size > 0 {
        stack_size as int
    } else {
        0
    }
}

/// The amounts by which a frame moves the stack pointer: the prologue
/// lowers it by one word for the frame pointer, one for each callee-saved
/// register, and the size of the frame; and every epilogue raises it by the
/// same. The probe routine is taken to be called with the size of the
/// frame.
pub proof fn law_frame_amounts(
    stack_size: i64,
    csrs: Seq<RegUnit>,
    limit: Option<(i64, Value)>,
    probe: Option<ProbeCall>,
    word: int,
)
    requires
        csrs.len() < usize::MAX,
    ensures
        ({
            let m = StackModel { word, probe, probe_size: stack_size as int };
            &&& total_sp_delta(prologue_kinds(stack_size, csrs, limit, probe), m) == -((csrs.len()
                + 1) * word + allocated_size(stack_size))
            &&& total_sp_delta(epilogue_kinds(stack_size, csrs), m) == allocated_size(stack_size)
                + (csrs.len() + 1) * word
        }),
{
    let m = StackModel { word, probe, probe_size: stack_size as int };
    let check = match limit {
        Some((area, value)) => plan_kinds(stack_check_plan(area, value)),
        None => Seq::empty(),
    };
    let save = plan_kinds(save_plan(csrs));
    let alloc = if stack_size > 0 {
        plan_kinds(alloc_plan(stack_size, probe))
    } else {
        Seq::empty()
    };
    lemma_check_effect(limit, m);
    lemma_save_effect(csrs, m);
    if stack_size > 0 {
        lemma_alloc_effect(stack_size, probe, m);
    }
    lemma_restore_effect(stack_size, csrs, m);
    lemma_total_concat(check, save, m);
    lemma_total_concat(check + save, alloc, m);
}

/// Prologue and epilogue balance: followed through the prologue and then
/// through one epilogue, the stack pointer ends where it began; and the
/// prologue pushes as often as the epilogue pops, once for the frame
/// pointer and once for each callee-saved register. The probe routine is
/// taken to be called with the size of the frame.
pub proof fn law_frame_balanced(
    stack_size: i64,
    csrs: Seq<RegUnit>,
    limit: Option<(i64, Value)>,
    probe: Option<ProbeCall>,
    word: int,
)
    requires
        csrs.len() < usize::MAX,
    ensures
        ({
            let m = StackModel { word, probe, probe_size: stack_size as int };
            &&& total_sp_delta(prologue_kinds(stack_size, csrs, limit, probe), m) + total_sp_delta(
                epilogue_kinds(stack_size, csrs),
                m,
            ) == 0
            &&& count_kind(prologue_kinds(stack_size, csrs, limit, probe), InstKind::X86Push)
                == csrs.len() + 1
            &&& count_kind(epilogue_kinds(stack_size, csrs), InstKind::X86Pop) == csrs.len() + 1
            &&& count_kind(prologue_kinds(stack_size, csrs, limit, probe), InstKind::X86Pop) == 0
            &&& count_kind(epilogue_kinds(stack_size, csrs), InstKind::X86Push) == 0
        }),
{
    let m = StackModel { word, probe, probe_size: stack_size as int };
    let push = InstKind::X86Push;
    let pop = InstKind::X86Pop;
    let check = match limit {
        Some((area, value)) => plan_kinds(stack_check_plan(area, value)),
        None => Seq::empty(),
    };
    let save = plan_kinds(save_plan(csrs));
    let alloc = if stack_size > 0 {
        plan_kinds(alloc_plan(stack_size, probe))
    } else {
        Seq::empty()
    };
    lemma_check_effect(limit, m);
    lemma_save_effect(csrs, m);
    if stack_size > 0 {
        lemma_alloc_effect(stack_size, probe, m);
    }
    lemma_restore_effect(stack_size, csrs, m);
    lemma_total_concat(check, save, m);
    lemma_total_concat(check + save, alloc, m);
    lemma_count_concat(check, save, push);
    lemma_count_concat(check + save, alloc, push);
    lemma_count_concat(check, save, pop);
    lemma_count_concat(check + save, alloc, pop);
}

} // verus!
