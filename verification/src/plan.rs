//! Instruction sequences that are planned first and then laid out at a
//! place in a function.

use crate::function::{Block, Function, FunctionView, Inst, InstKind, Position, Value, ValueLoc};
use crate::registers::RegUnit;
use vstd::prelude::*;

verus! {

/// A value that a planned instruction takes: one of the function, or one
/// that an earlier step of the plan creates.
#[derive(Clone, Copy, PartialEq, Eq, Structural, Debug)]
pub enum Operand {
    /// A value of the function.
    Value(Value),
    /// The value that the plan creates as its `n`-th, counted from zero.
    Fresh(usize),
}

/// One step of a plan.
#[derive(Clone, Copy, PartialEq, Eq, Structural, Debug)]
pub enum Step {
    /// A new parameter of the block, which lives in `reg`.
    Param { reg: RegUnit },
    /// A new instruction at the place of the plan, behind those of the
    /// earlier steps. Where `result` is given, the instruction gives a new
    /// value that lives there.
    Inst { kind: InstKind, first: Option<Operand>, second: Option<Operand>, result: Option<
        ValueLoc,
    > },
}

impl Step {
    /// Does the step create a value?
    pub open spec fn creates_value(self) -> bool {
        match self {
            Step::Param { .. } => true,
            Step::Inst { result, .. } => result is Some,
        }
    }

    /// Is the step an instruction?
    pub open spec fn is_inst(self) -> bool {
        self is Inst
    }
}

/// The number of values that a plan creates.
pub open spec fn fresh_count(plan: Seq<Step>) -> nat
    decreases plan.len(),
{
    if plan.len() == 0 {
        0
    } else {
        fresh_count(plan.drop_last()) + if plan.last().creates_value() {
            1nat
        } else {
            0nat
        }
    }
}

/// The kinds of the instructions of a plan, in order.
pub open spec fn plan_kinds(plan: Seq<Step>) -> Seq<InstKind>
    decreases plan.len(),
{
    if plan.len() == 0 {
        Seq::empty()
    } else {
        match plan.last() {
            Step::Param { .. } => plan_kinds(plan.drop_last()),
            Step::Inst { kind, .. } => plan_kinds(plan.drop_last()).push(kind),
        }
    }
}

/// Can the operand be resolved in a function with `values` values, after
/// `fresh` values were created?
pub open spec fn operand_fits(op: Option<Operand>, values: int, fresh: int) -> bool {
    match op {
        None => true,
        Some(Operand::Value(v)) => v < values,
        Some(Operand::Fresh(k)) => k < fresh,
    }
}

/// Every operand of the plan is a value of a function with `values` values
/// or is created by an earlier step; and an instruction has a second operand
/// only where it has a first.
pub open spec fn plan_fits(plan: Seq<Step>, values: int) -> bool {
    forall|i: int|
        0 <= i < plan.len() ==> (#[trigger] plan[i] matches Step::Inst {
            first,
            second,
            ..
        } ==> {
            &&& operand_fits(first, values, fresh_count(plan.take(i)) as int)
            &&& operand_fits(second, values, fresh_count(plan.take(i)) as int)
            &&& first is None ==> second is None
        })
}

/// The value that an operand stands for.
pub open spec fn resolve(op: Operand, fresh: Seq<Value>) -> Value {
    match op {
        Operand::Value(v) => v,
        Operand::Fresh(k) => fresh[k as int],
    }
}

/// The arguments of an instruction with the given operands.
pub open spec fn resolved_args(
    first: Option<Operand>,
    second: Option<Operand>,
    fresh: Seq<Value>,
) -> Seq<Value> {
    match first {
        None => Seq::empty(),
        Some(a) => match second {
            None => seq![resolve(a, fresh)],
            Some(b) => seq![resolve(a, fresh), resolve(b, fresh)],
        },
    }
}

/// The function after one step was carried out at `pos`, and the values
/// that the plan has created by then.
pub open spec fn emitted_step(g: FunctionView, pos: Position, step: Step, fresh: Seq<Value>) -> (
    FunctionView,
    Seq<Value>,
) {
    let value = g.locations.len() as Value;
    match step {
        Step::Param { reg } => (
            g.add_value(ValueLoc::Reg(reg)).add_block_param(pos.block, value),
            fresh.push(value),
        ),
        Step::Inst { kind, first, second, result } => (
            g.ins(pos, kind, resolved_args(first, second, fresh), result),
            if result is Some {
                fresh.push(value)
            } else {
                fresh
            },
        ),
    }
}

/// The function after the plan was carried out at the instruction `index`
/// of `block`, and the values that the plan created, in order. The
/// instructions of the plan stand in their order before the instruction
/// that was at `index`.
pub open spec fn emitted(f: FunctionView, block: Block, index: int, plan: Seq<Step>) -> (
    FunctionView,
    Seq<Value>,
)
    decreases plan.len(),
{
    if plan.len() == 0 {
        (f, Seq::empty())
    } else {
        let (g, fresh) = emitted(f, block, index, plan.drop_last());
        let at = index + plan_kinds(plan.drop_last()).len();
        emitted_step(g, Position { block, index: at as usize }, plan.last(), fresh)
    }
}

/// What carrying out one step changes and what it leaves.
pub proof fn lemma_emitted_step(g: FunctionView, pos: Position, step: Step, fresh: Seq<Value>)
    requires
        g.wf(),
        g.has_position(pos),
        g.locations.len() <= usize::MAX,
        g.insts.len() <= usize::MAX,
        step.creates_value() ==> g.locations.len() < usize::MAX,
        step.is_inst() ==> g.insts.len() < usize::MAX,
        forall|k: int| 0 <= k < fresh.len() ==> fresh[k] < g.locations.len(),
        step matches Step::Inst { first, second, .. } ==> {
            &&& operand_fits(first, g.locations.len() as int, fresh.len() as int)
            &&& operand_fits(second, g.locations.len() as int, fresh.len() as int)
            &&& first is None ==> second is None
        },
    ensures
        ({
            let (h, fresh2) = emitted_step(g, pos, step, fresh);
            let old_insts = g.blocks[pos.block as int].insts;
            &&& h.wf()
            &&& fresh2.len() == fresh.len() + if step.creates_value() {
                1int
            } else {
                0int
            }
            &&& forall|k: int| 0 <= k < fresh.len() ==> fresh2[k] == fresh[k]
            &&& step.creates_value() ==> fresh2[fresh.len() as int] == g.locations.len()
            &&& h.locations.len() == g.locations.len() + if step.creates_value() {
                1int
            } else {
                0int
            }
            &&& forall|k: int| 0 <= k < g.locations.len() ==> h.locations[k] == g.locations[k]
            &&& h.insts.len() == g.insts.len() + if step.is_inst() {
                1int
            } else {
                0int
            }
            &&& forall|k: int| 0 <= k < g.insts.len() ==> h.insts[k] == g.insts[k]
            &&& step matches Step::Inst { kind, .. } ==> h.insts[g.insts.len() as int].kind == kind
            &&& h.blocks.len() == g.blocks.len()
            &&& forall|b: int|
                0 <= b < g.blocks.len() && b != pos.block ==> #[trigger] h.blocks[b] == g.blocks[b]
            &&& h.blocks[pos.block as int].insts == (if step.is_inst() {
                old_insts.insert(pos.index as int, g.insts.len() as Inst)
            } else {
                old_insts
            })
            &&& h.blocks[pos.block as int].params.len() >= g.blocks[pos.block as int].params.len()
            &&& forall|k: int|
                0 <= k < g.blocks[pos.block as int].params.len()
                    ==> h.blocks[pos.block as int].params[k] == g.blocks[pos.block as int].params[k]
            &&& h.signature == g.signature
            &&& h.stack_slots == g.stack_slots
            &&& h.frame_size == g.frame_size
            &&& h.ext_funcs == g.ext_funcs
            &&& h.signatures == g.signatures
            &&& h.encoded_sizes == g.encoded_sizes
            &&& h.prologue_end == g.prologue_end
        }),
{
    let (h, fresh2) = emitted_step(g, pos, step, fresh);
    let value = g.locations.len() as Value;
    match step {
        Step::Param { reg } => {
            assert(h.wf());
        },
        Step::Inst { kind, first, second, result } => {
            let args = resolved_args(first, second, fresh);
            assert forall|k: int| 0 <= k < args.len() implies args[k] < g.locations.len() by {
                assert(operand_fits(first, g.locations.len() as int, fresh.len() as int));
                assert(operand_fits(second, g.locations.len() as int, fresh.len() as int));
            }
            let g_insts = g.blocks[pos.block as int].insts;
            assert(h.blocks[pos.block as int].insts == g_insts.insert(
                pos.index as int,
                g.insts.len() as Inst,
            ));
            assert(h.wf()) by {
                assert forall|b: int, i: int|
                    0 <= b < h.blocks.len() && 0 <= i < h.blocks[b].insts.len() implies (
                #[trigger] h.blocks[b].insts[i]) < h.insts.len() by {
                    if b == pos.block {
                        if i < pos.index {
                            assert(h.blocks[b].insts[i] == g_insts[i]);
                        } else if i > pos.index {
                            assert(h.blocks[b].insts[i] == g_insts[i - 1]);
                        }
                    } else {
                        assert(h.blocks[b].insts[i] == g.blocks[b].insts[i]);
                    }
                }
                assert forall|n: int, i: int|
                    0 <= n < h.insts.len() && 0 <= i < h.insts[n].args.len() implies (
                #[trigger] h.insts[n].args[i]) < h.locations.len() by {
                    if n < g.insts.len() {
                        assert(h.insts[n].args[i] == g.insts[n].args[i]);
                    }
                }
                assert forall|b: int, i: int|
                    0 <= b < h.blocks.len() && 0 <= i < h.blocks[b].params.len() implies (
                #[trigger] h.blocks[b].params[i]) < h.locations.len() by {
                    assert(h.blocks[b].params[i] == g.blocks[b].params[i]);
                }
                assert forall|n: int| 0 <= n < h.insts.len() implies ((
                #[trigger] h.insts[n]).result matches Some(v) ==> v < h.locations.len()) by {
                    if n < g.insts.len() {
                        assert(h.insts[n] == g.insts[n]);
                    }
                }
            }
        },
    }
}

/// What carrying out a plan changes and what it leaves: the block gets the
/// instructions of the plan, which are new, at the place of the plan, and
/// keeps all others in their order; the values and instructions that were
/// there stay as they are; every other block keeps its instructions.
pub proof fn lemma_emitted(f: FunctionView, block: Block, index: int, plan: Seq<Step>)
    requires
        f.wf(),
        block < f.blocks.len(),
        0 <= index <= f.blocks[block as int].insts.len(),
        index + plan_kinds(plan).len() <= usize::MAX,
        f.insts.len() + plan_kinds(plan).len() <= usize::MAX,
        f.locations.len() + fresh_count(plan) <= usize::MAX,
        plan_fits(plan, f.locations.len() as int),
    ensures
        ({
            let (g, fresh) = emitted(f, block, index, plan);
            let added = plan_kinds(plan).len();
            &&& g.wf()
            &&& fresh.len() == fresh_count(plan)
            &&& forall|k: int|
                0 <= k < fresh.len() ==> f.locations.len() <= #[trigger] fresh[k]
                    < g.locations.len()
            &&& g.locations.len() == f.locations.len() + fresh_count(plan)
            &&& g.locations.take(f.locations.len() as int) == f.locations
            &&& g.insts.len() == f.insts.len() + added
            &&& g.insts.take(f.insts.len() as int) == f.insts
            &&& forall|k: int|
                0 <= k < added ==> (#[trigger] g.insts[f.insts.len() + k]).kind == plan_kinds(
                    plan,
                )[k]
            &&& g.blocks.len() == f.blocks.len()
            &&& forall|b: int|
                0 <= b < f.blocks.len() && b != block ==> #[trigger] g.blocks[b] == f.blocks[b]
            &&& g.blocks[block as int].insts == f.blocks[block as int].insts.take(index) + Seq::new(
                added,
                |k: int| (f.insts.len() + k) as Inst,
            ) + f.blocks[block as int].insts.skip(index)
            &&& g.blocks[block as int].params.len() >= f.blocks[block as int].params.len()
            &&& g.blocks[block as int].params.take(f.blocks[block as int].params.len() as int)
                == f.blocks[block as int].params
            &&& g.signature == f.signature
            &&& g.stack_slots == f.stack_slots
            &&& g.frame_size == f.frame_size
            &&& g.ext_funcs == f.ext_funcs
            &&& g.signatures == f.signatures
            &&& g.encoded_sizes == f.encoded_sizes
            &&& g.prologue_end == f.prologue_end
        }),
    decreases plan.len(),
{
    let old_insts = f.blocks[block as int].insts;
    if plan.len() == 0 {
        assert(f.locations.take(f.locations.len() as int) =~= f.locations);
        assert(f.insts.take(f.insts.len() as int) =~= f.insts);
        assert(old_insts =~= old_insts.take(index) + Seq::new(
            0,
            |k: int| (f.insts.len() + k) as Inst,
        ) + old_insts.skip(index));
        assert(f.blocks[block as int].params.take(f.blocks[block as int].params.len() as int)
            =~= f.blocks[block as int].params);
    } else {
        let shorter = plan.drop_last();
        assert forall|i: int| 0 <= i < shorter.len() implies (
        #[trigger] shorter[i] matches Step::Inst { first, second, .. } ==> {
            &&& operand_fits(first, f.locations.len() as int, fresh_count(shorter.take(i)) as int)
            &&& operand_fits(second, f.locations.len() as int, fresh_count(shorter.take(i)) as int)
            &&& first is None ==> second is None
        }) by {
            assert(shorter[i] == plan[i]);
            assert(shorter.take(i) =~= plan.take(i));
        }
        lemma_emitted(f, block, index, shorter);
        let (g, fresh) = emitted(f, block, index, shorter);
        let (h, fresh2) = emitted(f, block, index, plan);
        let before = plan_kinds(shorter).len();
        let at = index + before;
        let pos = Position { block, index: at as usize };
        assert(plan.take(plan.len() - 1) =~= shorter);
        assert(plan[plan.len() - 1] == plan.last());
        let step = plan.last();
        assert(step matches Step::Inst { first, second, .. } ==> {
            &&& operand_fits(first, g.locations.len() as int, fresh.len() as int)
            &&& operand_fits(second, g.locations.len() as int, fresh.len() as int)
            &&& first is None ==> second is None
        });
        assert(g.blocks[block as int].insts.len() == old_insts.len() + before);
        lemma_emitted_step(g, pos, step, fresh);
        assert(h.locations.take(f.locations.len() as int) =~= f.locations) by {
            assert forall|k: int| 0 <= k < f.locations.len() implies h.locations[k]
                == f.locations[k] by {
                assert(g.locations.take(f.locations.len() as int)[k] == g.locations[k]);
            }
        }
        assert(h.insts.take(f.insts.len() as int) =~= f.insts) by {
            assert forall|k: int| 0 <= k < f.insts.len() implies h.insts[k] == f.insts[k] by {
                assert(g.insts.take(f.insts.len() as int)[k] == g.insts[k]);
            }
        }
        assert(h.blocks[block as int].params.take(f.blocks[block as int].params.len() as int)
            =~= f.blocks[block as int].params) by {
            let n = f.blocks[block as int].params.len() as int;
            assert forall|k: int| 0 <= k < n implies h.blocks[block as int].params[k]
                == f.blocks[block as int].params[k] by {
                assert(g.blocks[block as int].params.take(n)[k]
                    == g.blocks[block as int].params[k]);
            }
        }
        assert forall|b: int| 0 <= b < f.blocks.len() && b != block implies #[trigger] h.blocks[b]
            == f.blocks[b] by {
            assert(g.blocks[b] == f.blocks[b]);
        }
        let added = plan_kinds(plan).len();
        assert forall|k: int| 0 <= k < added implies (#[trigger] h.insts[f.insts.len()
            + k]).kind == plan_kinds(plan)[k] by {
            if k < before {
                assert(h.insts[f.insts.len() + k] == g.insts[f.insts.len() + k]);
            }
        }
        assert(h.blocks[block as int].insts =~= old_insts.take(index) + Seq::new(
            added,
            |k: int| (f.insts.len() + k) as Inst,
        ) + old_insts.skip(index));
    }
}

/// The block in which a plan was carried out has the instructions of the
/// plan at the place of the plan, between those that were there; and every
/// other block has the instructions that it had.
pub proof fn lemma_emitted_kinds(f: FunctionView, block: Block, index: int, plan: Seq<Step>)
    requires
        f.wf(),
        block < f.blocks.len(),
        0 <= index <= f.blocks[block as int].insts.len(),
        index + plan_kinds(plan).len() <= usize::MAX,
        f.insts.len() + plan_kinds(plan).len() <= usize::MAX,
        f.locations.len() + fresh_count(plan) <= usize::MAX,
        plan_fits(plan, f.locations.len() as int),
    ensures
        emitted(f, block, index, plan).0.block_kinds(block as int) == f.block_kinds(
            block as int,
        ).take(index) + plan_kinds(plan) + f.block_kinds(block as int).skip(index),
        forall|b: int|
            0 <= b < f.blocks.len() && b != block ==> #[trigger] emitted(
                f,
                block,
                index,
                plan,
            ).0.block_kinds(b) == f.block_kinds(b),
{
    lemma_emitted(f, block, index, plan);
    let g = emitted(f, block, index, plan).0;
    let old_insts = f.blocks[block as int].insts;
    let new_insts = g.blocks[block as int].insts;
    let added = plan_kinds(plan).len() as int;
    let expected = f.block_kinds(block as int).take(index) + plan_kinds(plan) + f.block_kinds(
        block as int,
    ).skip(index);
    assert(g.block_kinds(block as int).len() == expected.len());
    assert forall|i: int| 0 <= i < expected.len() implies g.block_kinds(block as int)[i]
        == expected[i] by {
        if i < index {
            assert(new_insts[i] == old_insts[i]);
            assert(g.insts.take(f.insts.len() as int)[old_insts[i] as int]
                == g.insts[old_insts[i] as int]);
        } else if i < index + added {
            assert(new_insts[i] == f.insts.len() + (i - index));
        } else {
            assert(new_insts[i] == old_insts[i - added]);
            assert(g.insts.take(f.insts.len() as int)[old_insts[i - added] as int]
                == g.insts[old_insts[i - added] as int]);
        }
    }
    assert(g.block_kinds(block as int) =~= expected);
    assert forall|b: int| 0 <= b < f.blocks.len() && b != block implies #[trigger] g.block_kinds(b)
        == f.block_kinds(b) by {
        assert(g.blocks[b] == f.blocks[b]);
        assert forall|i: int| 0 <= i < f.blocks[b].insts.len() implies g.block_kinds(b)[i]
            == f.block_kinds(b)[i] by {
            assert(g.insts.take(f.insts.len() as int)[f.blocks[b].insts[i] as int]
                == g.insts[f.blocks[b].insts[i] as int]);
        }
        assert(g.block_kinds(b) =~= f.block_kinds(b));
    }
}

/// `g` has the blocks of `f`, with instructions of the kinds `kinds` put
/// before the instruction `index` of `block`: the block has what it had
/// before and behind them, and every other block has the instructions that
/// it had.
pub open spec fn inserted(
    f: FunctionView,
    g: FunctionView,
    block: Block,
    index: int,
    kinds: Seq<InstKind>,
) -> bool {
    &&& g.blocks.len() == f.blocks.len()
    &&& g.block_kinds(block as int) == f.block_kinds(block as int).take(index) + kinds
        + f.block_kinds(block as int).skip(index)
    &&& forall|b: int|
        0 <= b < f.blocks.len() && b != block ==> #[trigger] g.block_kinds(b) == f.block_kinds(b)
}

/// Every block of `g` has the instructions, by their kinds, of the block of
/// `f` at its place.
pub open spec fn same_kinds(f: FunctionView, g: FunctionView) -> bool {
    &&& g.blocks.len() == f.blocks.len()
    &&& forall|b: int| 0 <= b < f.blocks.len() ==> #[trigger] g.block_kinds(b) == f.block_kinds(b)
}

/// Instructions put in at adjoining places are put in at one place, in
/// their order.
pub proof fn lemma_inserted_twice(
    f: FunctionView,
    g: FunctionView,
    h: FunctionView,
    block: Block,
    index: int,
    first: Seq<InstKind>,
    second: Seq<InstKind>,
)
    requires
        block < f.blocks.len(),
        0 <= index <= f.blocks[block as int].insts.len(),
        inserted(f, g, block, index, first),
        inserted(g, h, block, index + first.len(), second),
    ensures
        inserted(f, h, block, index, first + second),
{
    let k = f.block_kinds(block as int);
    let gk = g.block_kinds(block as int);
    assert(gk.take(index + first.len()) =~= k.take(index) + first);
    assert(gk.skip(index + first.len()) =~= k.skip(index));
    assert(h.block_kinds(block as int) =~= k.take(index) + (first + second) + k.skip(index));
    assert forall|b: int| 0 <= b < f.blocks.len() && b != block implies #[trigger] h.block_kinds(b)
        == f.block_kinds(b) by {
        assert(g.block_kinds(b) == f.block_kinds(b));
    }
}

/// Nothing put in leaves every block as it was.
pub proof fn lemma_inserted_nothing(f: FunctionView, g: FunctionView, block: Block, index: int)
    requires
        block < f.blocks.len(),
        0 <= index <= f.blocks[block as int].insts.len(),
        same_kinds(f, g),
    ensures
        inserted(f, g, block, index, Seq::empty()),
{
    let k = f.block_kinds(block as int);
    assert(k =~= k.take(index) + Seq::<InstKind>::empty() + k.skip(index));
}

/// What does not touch the layout or the kinds of the instructions leaves
/// what was put in.
pub proof fn lemma_inserted_kept(
    f: FunctionView,
    g: FunctionView,
    h: FunctionView,
    block: Block,
    index: int,
    kinds: Seq<InstKind>,
)
    requires
        block < f.blocks.len(),
        inserted(f, g, block, index, kinds),
        same_kinds(g, h),
    ensures
        inserted(f, h, block, index, kinds),
{
    assert(h.block_kinds(block as int) == g.block_kinds(block as int));
    assert forall|b: int| 0 <= b < f.blocks.len() && b != block implies #[trigger] h.block_kinds(b)
        == f.block_kinds(b) by {
        assert(h.block_kinds(b) == g.block_kinds(b));
    }
}

/// Two functions with the same layout, and with instructions of the same
/// kinds, have the same kinds in every block.
pub proof fn lemma_same_kinds(f: FunctionView, g: FunctionView)
    requires
        g.insts.len() == f.insts.len(),
        forall|n: int| 0 <= n < f.insts.len() ==> (#[trigger] g.insts[n]).kind == f.insts[n].kind,
        g.blocks == f.blocks,
        f.wf(),
    ensures
        same_kinds(f, g),
{
    assert forall|b: int| 0 <= b < f.blocks.len() implies #[trigger] g.block_kinds(b)
        == f.block_kinds(b) by {
        assert forall|i: int| 0 <= i < f.blocks[b].insts.len() implies g.block_kinds(b)[i]
            == f.block_kinds(b)[i] by {
            let n = f.blocks[b].insts[i];
            assert(g.insts[n as int].kind == f.insts[n as int].kind);
        }
        assert(g.block_kinds(b) =~= f.block_kinds(b));
    }
}

/// Carries out one step at `pos`, and leaves `pos` behind the instruction
/// where the step is one. Returns the instruction.
fn emit_step(func: &mut Function, pos: &mut Position, step: Step, fresh: &mut Vec<Value>) -> (inst:
    Option<Inst>)
    requires
        old(func)@.wf(),
        old(func)@.has_position(*old(pos)),
        forall|k: int| 0 <= k < old(fresh)@.len() ==> old(fresh)@[k] < old(func)@.locations.len(),
        step matches Step::Inst { first, second, .. } ==> {
            &&& operand_fits(first, old(func)@.locations.len() as int, old(fresh)@.len() as int)
            &&& operand_fits(second, old(func)@.locations.len() as int, old(fresh)@.len() as int)
            &&& first is None ==> second is None
        },
    ensures
        (final(func)@, final(fresh)@) == emitted_step(old(func)@, *old(pos), step, old(fresh)@),
        final(func)@.wf(),
        final(func)@.has_position(*final(pos)),
        final(pos).block == old(pos).block,
        final(pos).index == old(pos).index + if step.is_inst() {
            1int
        } else {
            0int
        },
        inst == (if step.is_inst() {
            Some(old(func)@.insts.len() as Inst)
        } else {
            None
        }),
        final(func)@.insts.len() == old(func)@.insts.len() + if step.is_inst() {
            1int
        } else {
            0int
        },
        final(func)@.locations.len() == old(func)@.locations.len() + if step.creates_value() {
            1int
        } else {
            0int
        },
        final(fresh)@.len() == old(fresh)@.len() + if step.creates_value() {
            1int
        } else {
            0int
        },
        forall|k: int|
            0 <= k < final(fresh)@.len() ==> final(fresh)@[k] < final(func)@.locations.len(),
        final(func)@.blocks.len() == old(func)@.blocks.len(),
{
    match step {
        Step::Param { reg } => {
            let value = func.make_value(ValueLoc::Reg(reg));
            func.append_block_param(pos.block, value);
            fresh.push(value);
            None
        },
        Step::Inst { kind, first, second, result } => {
            let mut args: Vec<Value> = Vec::new();
            if let Some(a) = first {
                args.push(
                    match a {
                        Operand::Value(v) => v,
                        Operand::Fresh(k) => fresh[k],
                    },
                );
                if let Some(b) = second {
                    args.push(
                        match b {
                            Operand::Value(v) => v,
                            Operand::Fresh(k) => fresh[k],
                        },
                    );
                }
            }
            assert(args@ =~= resolved_args(first, second, fresh@));
            let (inst, value) = func.ins(*pos, kind, args, result);
            if let Some(v) = value {
                fresh.push(v);
            }
            let len = func.blocks[pos.block].insts.len();
            assert(len == func@.blocks[pos.block as int].insts.len());
            pos.index = pos.index + 1;
            Some(inst)
        },
    }
}

/// Carries out the plan at `pos`, and leaves `pos` behind the instructions
/// of the plan. Returns the values that the plan created, in order, and the
/// last instruction of the plan.
pub fn emit(func: &mut Function, pos: &mut Position, plan: &Vec<Step>) -> (r: (
    Vec<Value>,
    Option<Inst>,
))
    requires
        old(func)@.wf(),
        old(func)@.has_position(*old(pos)),
        plan_fits(plan@, old(func)@.locations.len() as int),
    ensures
        final(func)@ == emitted(old(func)@, old(pos).block, old(pos).index as int, plan@).0,
        r.0@ == emitted(old(func)@, old(pos).block, old(pos).index as int, plan@).1,
        final(pos).block == old(pos).block,
        final(pos).index == old(pos).index + plan_kinds(plan@).len(),
        final(func)@.has_position(*final(pos)),
        final(func)@.wf(),
        final(func)@.insts.len() == old(func)@.insts.len() + plan_kinds(plan@).len(),
        final(func)@.locations.len() == old(func)@.locations.len() + fresh_count(plan@),
        final(func)@.blocks.len() == old(func)@.blocks.len(),
        inserted(
            old(func)@,
            final(func)@,
            old(pos).block,
            old(pos).index as int,
            plan_kinds(plan@),
        ),
        final(func)@.signature == old(func)@.signature,
        final(func)@.stack_slots == old(func)@.stack_slots,
        final(func)@.frame_size == old(func)@.frame_size,
        final(func)@.ext_funcs == old(func)@.ext_funcs,
        final(func)@.signatures == old(func)@.signatures,
        final(func)@.encoded_sizes == old(func)@.encoded_sizes,
        final(func)@.prologue_end == old(func)@.prologue_end,
        r.0@.len() == fresh_count(plan@),
        forall|k: int| 0 <= k < r.0@.len() ==> r.0@[k] < final(func)@.locations.len(),
        r.1 == (if plan_kinds(plan@).len() > 0 {
            Some((old(func)@.insts.len() + plan_kinds(plan@).len() - 1) as Inst)
        } else {
            None
        }),
{
    let ghost f = func@;
    let ghost start = *pos;
    let mut fresh: Vec<Value> = Vec::new();
    let mut last: Option<Inst> = None;
    let mut i: usize = 0;
    assert(plan@.take(0) =~= Seq::empty());
    while i < plan.len()
        invariant
            i <= plan.len(),
            f.wf(),
            f.has_position(start),
            plan_fits(plan@, f.locations.len() as int),
            func@.wf(),
            (func@, fresh@) == emitted(f, start.block, start.index as int, plan@.take(i as int)),
            pos.block == start.block,
            pos.index == start.index + plan_kinds(plan@.take(i as int)).len(),
            func@.has_position(*pos),
            fresh@.len() == fresh_count(plan@.take(i as int)),
            func@.locations.len() == f.locations.len() + fresh_count(plan@.take(i as int)),
            func@.insts.len() == f.insts.len() + plan_kinds(plan@.take(i as int)).len(),
            forall|k: int| 0 <= k < fresh@.len() ==> fresh@[k] < func@.locations.len(),
            func@.blocks.len() == f.blocks.len(),
            last == (if plan_kinds(plan@.take(i as int)).len() > 0 {
                Some((f.insts.len() + plan_kinds(plan@.take(i as int)).len() - 1) as Inst)
            } else {
                None
            }),
        decreases plan.len() - i,
    {
        proof {
            let next = plan@.take(i + 1);
            assert(next.drop_last() =~= plan@.take(i as int));
            assert(next.last() == plan@[i as int]);
        }
        let inst = emit_step(func, pos, plan[i], &mut fresh);
        if inst.is_some() {
            last = inst;
        }
        i += 1;
    }
    assert(plan@.take(i as int) =~= plan@);
    let values = func.locations.len();
    let count = func.insts.len();
    proof {
        assert(func@.insts.len() == count);
        assert(func@.locations.len() == values);
        lemma_emitted(f, start.block, start.index as int, plan@);
        lemma_emitted_kinds(f, start.block, start.index as int, plan@);
    }
    (fresh, last)
}

} // verus!
