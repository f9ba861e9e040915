//! The register sets of the ABI: the registers that the allocator may use,
//! and the callee-saved registers that a function has to save.

use crate::callconv::CallConv;
use crate::classify::valid_gpr_pool;
use crate::function::{BlockView, Function, FunctionView, Inst, InstKind, InstView, ValueLoc};
use crate::registers::{
    RegClass, RegUnit, R12, R13, R14, R15, RBP, RBX, RDI, RSI, RSP, TOTAL_UNITS,
};
use crate::regset::RegisterSet;
use crate::result::CodegenError;
use crate::settings::Flags;
use crate::target::{lexicon_pointer_width, triple_pointer_width, TargetIsa, Width};
use target_lexicon::Triple;
use vstd::prelude::*;

verus! {

/// The registers that the allocator may use: all but the stack pointer and
/// the frame pointer; on a target that is not 64-bit, only the first eight
/// of each bank; and not the pinned register where one is pinned.
pub open spec fn allocatable_set(width: Width, flags: Flags) -> Set<RegUnit> {
    Set::new(
        |unit: RegUnit|
            {
                &&& unit < TOTAL_UNITS
                &&& unit != RSP
                &&& unit != RBP
                &&& width != Width::U64 ==> !(8 <= unit < 16) && !(24 <= unit < 32)
                &&& flags.enable_pinned_reg ==> unit != R15
            },
    )
}

/// Is there a set of allocatable registers for the target? There is none
/// for a target that is not 64-bit where a register is to be pinned.
pub open spec fn allocatable_defined(width: Width, flags: Flags) -> bool {
    width == Width::U64 || !flags.enable_pinned_reg
}

/// The set of registers that the allocator may use on a target with
/// pointers of the given width.
pub fn allocatable_registers_for(width: Width, flags: &Flags) -> (regs: RegisterSet)
    requires
        allocatable_defined(width, *flags),
    ensures
        regs@ == allocatable_set(width, *flags),
{
    let mut regs = RegisterSet::new();
    regs.take(RegClass::GPR, RSP);
    regs.take(RegClass::GPR, RBP);
    let ghost base = regs@;
    match width {
        Width::U64 => {
            if flags.enable_pinned_reg {
                regs.take(RegClass::GPR, R15);
            }
        },
        _ => {
            let mut i: usize = 8;
            while i < 16
                invariant
                    8 <= i <= 16,
                    regs@ == Set::new(
                        |unit: RegUnit|
                            base.contains(unit) && !(8 <= unit < i) && !(24 <= unit < 16 + i),
                    ),
                    base == Set::new(
                        |unit: RegUnit| unit < TOTAL_UNITS && unit != RSP && unit != RBP,
                    ),
                decreases 16 - i,
            {
                let ghost before = regs@;
                regs.take(RegClass::GPR, RegClass::GPR.unit(i));
                regs.take(RegClass::FPR, RegClass::FPR.unit(i));
                i += 1;
                assert(regs@ =~= Set::new(
                    |unit: RegUnit|
                        base.contains(unit) && !(8 <= unit < i) && !(24 <= unit < 16 + i),
                ));
            }
        },
    }
    assert(regs@ =~= allocatable_set(width, *flags));
    regs
}

/// The set of registers that the allocator may use on the target that
/// `triple` names.
pub fn allocatable_registers(triple: &Triple, flags: &Flags) -> (regs: RegisterSet)
    requires
        triple_pointer_width(*triple) matches Some(width) && allocatable_defined(width, *flags),
    ensures
        regs@ == allocatable_set(triple_pointer_width(*triple).unwrap(), *flags),
{
    match lexicon_pointer_width(triple) {
        Some(width) => allocatable_registers_for(width, flags),
        None => unreached(),
    }
}

/// The set that `allocatable_registers` gives where there is one for the
/// target, and the report that the target is unsupported where there is
/// none.
pub fn try_allocatable_registers(triple: &Triple, flags: &Flags) -> (r: Result<
    RegisterSet,
    CodegenError,
>)
    ensures
        match triple_pointer_width(*triple) {
            Some(width) => if allocatable_defined(width, *flags) {
                r matches Ok(regs) && regs@ == allocatable_set(width, *flags)
            } else {
                r matches Err(e) && e == CodegenError::Unsupported
            },
            None => r matches Err(e) && e == CodegenError::Unsupported,
        },
{
    match lexicon_pointer_width(triple) {
        Some(width) => {
            if flags.enable_pinned_reg && width != Width::U64 {
                Err(CodegenError::Unsupported)
            } else {
                Ok(allocatable_registers(triple, flags))
            }
        },
        None => Err(CodegenError::Unsupported),
    }
}

/// The registers that a callee has to preserve, in the order in which they
/// are listed for the convention.
pub open spec fn callee_saved(width: Width, call_conv: CallConv) -> Seq<RegUnit> {
    if width != Width::U64 {
        seq![RBX, RSI, RDI]
    } else if call_conv.extends_windows_fastcall() {
        seq![RBX, RDI, RSI, R12, R13, R14, R15]
    } else {
        seq![RBX, R12, R13, R14, R15]
    }
}

/// The callee-saved registers of a convention on the target.
pub fn callee_saved_gprs(isa: &TargetIsa, call_conv: CallConv) -> (regs: Vec<RegUnit>)
    requires
        isa.wf(),
    ensures
        regs@ == callee_saved(isa.width(), call_conv),
        valid_gpr_pool(regs@),
{
    let regs: Vec<RegUnit> = match isa.pointer_width() {
        Width::U64 => {
            if call_conv.extends_windows_fastcall() {
                vec![RBX, RDI, RSI, R12, R13, R14, R15]
            } else {
                vec![RBX, R12, R13, R14, R15]
            }
        },
        _ => vec![RBX, RSI, RDI],
    };
    assert(regs@ =~= callee_saved(isa.width(), call_conv));
    regs
}

/// The registers that values live in.
pub open spec fn located_registers(locations: Seq<ValueLoc>) -> Set<RegUnit>
    decreases locations.len(),
{
    if locations.len() == 0 {
        Set::empty()
    } else {
        match locations.last() {
            ValueLoc::Reg(unit) => located_registers(locations.drop_last()).insert(unit),
            _ => located_registers(locations.drop_last()),
        }
    }
}

/// The registers that the given instructions divert a value to.
pub open spec fn diverted_by(insts: Seq<InstView>, list: Seq<Inst>) -> Set<RegUnit>
    decreases list.len(),
{
    if list.len() == 0 {
        Set::empty()
    } else {
        match insts[list.last() as int].kind {
            InstKind::RegMove { src, dst } => diverted_by(insts, list.drop_last()).insert(dst),
            InstKind::RegFill { slot, dst } => diverted_by(insts, list.drop_last()).insert(dst),
            _ => diverted_by(insts, list.drop_last()),
        }
    }
}

/// The registers that the instructions of the given blocks divert a value
/// to.
pub open spec fn diverted_registers(insts: Seq<InstView>, blocks: Seq<BlockView>) -> Set<RegUnit>
    decreases blocks.len(),
{
    if blocks.len() == 0 {
        Set::empty()
    } else {
        diverted_registers(insts, blocks.drop_last()).union(diverted_by(insts, blocks.last().insts))
    }
}

/// The registers that a function refers to: those that its values live in,
/// and those that a move or a fill in its layout diverts a value to.
pub open spec fn referenced_registers(func: FunctionView) -> Set<RegUnit> {
    located_registers(func.locations).union(diverted_registers(func.insts, func.blocks))
}

/// A register is among the located ones exactly where a value lives in it.
pub proof fn lemma_located_registers(locations: Seq<ValueLoc>, unit: RegUnit)
    ensures
        located_registers(locations).contains(unit) <==> exists|v: int|
            0 <= v < locations.len() && #[trigger] locations[v] == ValueLoc::Reg(unit),
    decreases locations.len(),
{
    if locations.len() > 0 {
        let shorter = locations.drop_last();
        lemma_located_registers(shorter, unit);
        if located_registers(locations).contains(unit) {
            if locations.last() == ValueLoc::Reg(unit) {
                assert(locations[locations.len() - 1] == ValueLoc::Reg(unit));
            } else {
                let v = choose|v: int|
                    0 <= v < shorter.len() && #[trigger] shorter[v] == ValueLoc::Reg(unit);
                assert(locations[v] == ValueLoc::Reg(unit));
            }
        }
        if exists|v: int|
            0 <= v < locations.len() && #[trigger] locations[v] == ValueLoc::Reg(unit) {
            let v = choose|v: int|
                0 <= v < locations.len() && #[trigger] locations[v] == ValueLoc::Reg(unit);
            if v < shorter.len() {
                assert(shorter[v] == ValueLoc::Reg(unit));
            }
        }
    }
}

/// Is `unit` the register that `kind` diverts a value to?
pub open spec fn diverts_to(kind: InstKind, unit: RegUnit) -> bool {
    match kind {
        InstKind::RegMove { src, dst } => dst == unit,
        InstKind::RegFill { slot, dst } => dst == unit,
        _ => false,
    }
}

/// A register is among those diverted to by a list of instructions exactly
/// where one of them is a move or a fill to it.
pub proof fn lemma_diverted_by(insts: Seq<InstView>, list: Seq<Inst>, unit: RegUnit)
    ensures
        diverted_by(insts, list).contains(unit) <==> exists|i: int|
            0 <= i < list.len() && diverts_to(insts[(#[trigger] list[i]) as int].kind, unit),
    decreases list.len(),
{
    if list.len() > 0 {
        let shorter = list.drop_last();
        lemma_diverted_by(insts, shorter, unit);
        if diverted_by(insts, list).contains(unit) {
            if diverts_to(insts[list.last() as int].kind, unit) {
                assert(diverts_to(insts[list[list.len() - 1] as int].kind, unit));
            } else {
                let i = choose|i: int|
                    0 <= i < shorter.len() && diverts_to(
                        insts[(#[trigger] shorter[i]) as int].kind,
                        unit,
                    );
                assert(diverts_to(insts[list[i] as int].kind, unit));
            }
        }
        if exists|i: int|
            0 <= i < list.len() && diverts_to(insts[(#[trigger] list[i]) as int].kind, unit) {
            let i = choose|i: int|
                0 <= i < list.len() && diverts_to(insts[(#[trigger] list[i]) as int].kind, unit);
            if i < shorter.len() {
                assert(diverts_to(insts[shorter[i] as int].kind, unit));
            }
        }
    }
}

/// A register is among those diverted to in a layout exactly where an
/// instruction of one of its blocks is a move or a fill to it.
pub proof fn lemma_diverted_registers(insts: Seq<InstView>, blocks: Seq<BlockView>, unit: RegUnit)
    ensures
        diverted_registers(insts, blocks).contains(unit) <==> exists|b: int, i: int|
            0 <= b < blocks.len() && 0 <= i < blocks[b].insts.len() && diverts_to(
                insts[(#[trigger] blocks[b].insts[i]) as int].kind,
                unit,
            ),
    decreases blocks.len(),
{
    if blocks.len() > 0 {
        let shorter = blocks.drop_last();
        let last = blocks.last();
        lemma_diverted_registers(insts, shorter, unit);
        lemma_diverted_by(insts, last.insts, unit);
        if diverted_registers(insts, blocks).contains(unit) {
            if diverted_by(insts, last.insts).contains(unit) {
                let i = choose|i: int|
                    0 <= i < last.insts.len() && diverts_to(
                        insts[(#[trigger] last.insts[i]) as int].kind,
                        unit,
                    );
                assert(diverts_to(insts[blocks[blocks.len() - 1].insts[i] as int].kind, unit));
            } else {
                let (b, i) = choose|b: int, i: int|
                    0 <= b < shorter.len() && 0 <= i < shorter[b].insts.len() && diverts_to(
                        insts[(#[trigger] shorter[b].insts[i]) as int].kind,
                        unit,
                    );
                assert(diverts_to(insts[blocks[b].insts[i] as int].kind, unit));
            }
        }
        if exists|b: int, i: int|
            0 <= b < blocks.len() && 0 <= i < blocks[b].insts.len() && diverts_to(
                insts[(#[trigger] blocks[b].insts[i]) as int].kind,
                unit,
            ) {
            let (b, i) = choose|b: int, i: int|
                0 <= b < blocks.len() && 0 <= i < blocks[b].insts.len() && diverts_to(
                    insts[(#[trigger] blocks[b].insts[i]) as int].kind,
                    unit,
                );
            if b < shorter.len() {
                assert(diverts_to(insts[shorter[b].insts[i] as int].kind, unit));
            } else {
                assert(diverts_to(insts[last.insts[i] as int].kind, unit));
            }
        }
    }
}

/// The callee-saved tracking is exact: a register is saved if and only if
/// the convention lists it as callee-saved and the function refers to it,
/// by a value that lives in it or by a move or a fill in its layout that
/// diverts a value to it.
pub proof fn law_save_set(func: FunctionView, width: Width, unit: RegUnit)
    ensures
        referenced_registers(func).intersect(
            callee_saved(width, func.signature.call_conv).to_set(),
        ).contains(unit) <==> callee_saved(width, func.signature.call_conv).contains(unit) && ((
        exists|v: int|
            0 <= v < func.locations.len() && #[trigger] func.locations[v] == ValueLoc::Reg(unit))
            || (exists|b: int, i: int|
            0 <= b < func.blocks.len() && 0 <= i < func.blocks[b].insts.len() && diverts_to(
                func.insts[(#[trigger] func.blocks[b].insts[i]) as int].kind,
                unit,
            ))),
{
    lemma_located_registers(func.locations, unit);
    lemma_diverted_registers(func.insts, func.blocks, unit);
}

/// The units that a register set can hold.
pub open spec fn all_units() -> Set<RegUnit> {
    Set::new(|unit: RegUnit| unit < TOTAL_UNITS)
}

/// The callee-saved registers that the function uses: those that one of its
/// values lives in or that a move or a fill in its layout diverts a value to.
pub fn callee_saved_gprs_used(isa: &TargetIsa, func: &Function) -> (used: RegisterSet)
    requires
        isa.wf(),
        func@.wf(),
    ensures
        used@ == referenced_registers(func@).intersect(
            callee_saved(isa.width(), func@.signature.call_conv).to_set(),
        ),
{
    let mut all_callee_saved = RegisterSet::empty();
    let saved = callee_saved_gprs(isa, func.signature.call_conv);
    let mut k: usize = 0;
    while k < saved.len()
        invariant
            k <= saved.len(),
            valid_gpr_pool(saved@),
            all_callee_saved@ == saved@.take(k as int).to_set(),
        decreases saved.len() - k,
    {
        proof {
            let next = saved@.take(k + 1);
            let unit = saved@[k as int];
            assert(next =~= saved@.take(k as int).push(unit));
            assert(next.to_set() =~= saved@.take(k as int).to_set().insert(unit)) by {
                assert forall|u: RegUnit| next.to_set().contains(u) <==> saved@.take(
                    k as int,
                ).to_set().insert(unit).contains(u) by {
                    if next.contains(u) {
                        let n = choose|n: int| 0 <= n < next.len() && next[n] == u;
                        if n < k {
                            assert(saved@.take(k as int)[n] == u);
                        }
                    }
                    if saved@.take(k as int).contains(u) {
                        let n = choose|n: int| 0 <= n < k && saved@.take(k as int)[n] == u;
                        assert(next[n] == u);
                    }
                    if u == unit {
                        assert(next[k as int] == u);
                    }
                }
            }
            if saved@.take(k as int).contains(unit) {
                let n = choose|n: int| 0 <= n < k && saved@.take(k as int)[n] == unit;
                assert(saved@[n] == saved@[k as int]);
            }
        }
        all_callee_saved.free(RegClass::GPR, saved[k]);
        k += 1;
    }
    assert(saved@.take(k as int) =~= saved@);

    let mut used = RegisterSet::empty();
    let mut v: usize = 0;
    assert(func.locations@.take(0) =~= Seq::empty());
    while v < func.locations.len()
        invariant
            v <= func.locations.len(),
            used@ == located_registers(func.locations@.take(v as int)).intersect(all_units()),
        decreases func.locations.len() - v,
    {
        proof {
            let next = func.locations@.take(v + 1);
            assert(next.drop_last() =~= func.locations@.take(v as int));
            assert(next.last() == func.locations@[v as int]);
        }
        let ghost before = used@;
        if let ValueLoc::Reg(ru) = func.locations[v] {
            if ru < TOTAL_UNITS && !used.is_avail(RegClass::GPR, ru) {
                used.free(RegClass::GPR, ru);
            }
            assert(used@ =~= before.insert(ru).intersect(all_units()));
        }
        assert(used@ =~= located_registers(func.locations@.take(v + 1)).intersect(all_units()));
        v += 1;
    }
    assert(func.locations@.take(v as int) =~= func.locations@);

    let ghost located = located_registers(func@.locations);
    let mut b: usize = 0;
    assert(func@.blocks.take(0) =~= Seq::empty());
    while b < func.blocks.len()
        invariant
            b <= func.blocks.len(),
            func@.wf(),
            located == located_registers(func@.locations),
            used@ == located.union(diverted_registers(func@.insts, func@.blocks.take(b as int)))
                .intersect(all_units()),
        decreases func.blocks.len() - b,
    {
        let block = &func.blocks[b];
        let ghost done = diverted_registers(func@.insts, func@.blocks.take(b as int));
        proof {
            let next = func@.blocks.take(b + 1);
            assert(next.drop_last() =~= func@.blocks.take(b as int));
            assert(next.last() == func@.blocks[b as int]);
            assert(func@.blocks[b as int].insts == block.insts@);
        }
        let mut i: usize = 0;
        assert(block.insts@.take(0) =~= Seq::empty());
        while i < block.insts.len()
            invariant
                i <= block.insts.len(),
                b < func.blocks.len(),
                func@.wf(),
                func@.blocks[b as int].insts == block.insts@,
                used@ == located.union(done).union(
                    diverted_by(func@.insts, block.insts@.take(i as int)),
                ).intersect(all_units()),
            decreases block.insts.len() - i,
        {
            let inst = block.insts[i];
            proof {
                let next = block.insts@.take(i + 1);
                assert(next.drop_last() =~= block.insts@.take(i as int));
                assert(next.last() == inst);
                assert(func@.blocks[b as int].insts[i as int] == inst);
                assert(func@.insts[inst as int].kind == func.insts@[inst as int].kind);
            }
            let ghost before = used@;
            match func.insts[inst].kind {
                InstKind::RegMove { src, dst } => {
                    if dst < TOTAL_UNITS && !used.is_avail(RegClass::GPR, dst) {
                        used.free(RegClass::GPR, dst);
                    }
                    assert(used@ =~= before.insert(dst).intersect(all_units()));
                },
                InstKind::RegFill { slot, dst } => {
                    if dst < TOTAL_UNITS && !used.is_avail(RegClass::GPR, dst) {
                        used.free(RegClass::GPR, dst);
                    }
                    assert(used@ =~= before.insert(dst).intersect(all_units()));
                },
                _ => {},
            }
            assert(used@ =~= located.union(done).union(
                diverted_by(func@.insts, block.insts@.take(i + 1)),
            ).intersect(all_units()));
            i += 1;
        }
        assert(block.insts@.take(i as int) =~= block.insts@);
        assert(used@ =~= located.union(
            diverted_registers(func@.insts, func@.blocks.take(b + 1)),
        ).intersect(all_units()));
        b += 1;
    }
    assert(func@.blocks.take(b as int) =~= func@.blocks);

    used.intersect(&all_callee_saved);
    proof {
        let saved_set = callee_saved(isa.width(), func@.signature.call_conv).to_set();
        assert forall|u: RegUnit| saved_set.contains(u) implies u < TOTAL_UNITS by {
            let n = choose|n: int| 0 <= n < saved@.len() && saved@[n] == u;
        }
        assert(used@ =~= referenced_registers(func@).intersect(saved_set));
    }
    used
}

} // verus!
