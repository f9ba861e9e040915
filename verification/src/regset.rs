//! Sets of register units, kept as one bit per unit.

use crate::registers::{RegClass, RegUnit, BANK_UNITS, TOTAL_UNITS};
use vstd::prelude::*;

verus! {

/// Is the bit of `unit` set in `mask`?
pub open spec fn has_bit(mask: u64, unit: RegUnit) -> bool {
    unit < 64 && (mask >> (unit as u64)) & 1 == 1
}

proof fn lemma_bit_set(mask: u64, unit: u64, other: u64)
    by (bit_vector)
    requires
        unit < 64,
        other < 64,
    ensures
        (((mask | (1u64 << unit)) >> other) & 1 == 1) == (other == unit || (mask >> other) & 1
            == 1),
{
}

proof fn lemma_bit_cleared(mask: u64, unit: u64, other: u64)
    by (bit_vector)
    requires
        unit < 64,
        other < 64,
    ensures
        (((mask & !(1u64 << unit)) >> other) & 1 == 1) == (other != unit && (mask >> other) & 1
            == 1),
{
}

proof fn lemma_bit_both(mask: u64, with: u64, other: u64)
    by (bit_vector)
    requires
        other < 64,
    ensures
        (((mask & with) >> other) & 1 == 1) == ((mask >> other) & 1 == 1 && (with >> other) & 1
            == 1),
{
}

proof fn lemma_bit_ends(other: u64)
    by (bit_vector)
    requires
        other < 64,
    ensures
        (0u64 >> other) & 1 != 1,
        (0xffff_ffff_ffff_ffffu64 >> other) & 1 == 1,
{
}

/// The units of `set` from `from` up to, not including, `to`, in rising
/// order.
pub open spec fn units_in_order(set: Set<RegUnit>, from: int, to: int) -> Seq<RegUnit>
    decreases to - from,
{
    if from >= to {
        Seq::empty()
    } else if set.contains((to - 1) as RegUnit) {
        units_in_order(set, from, to - 1).push((to - 1) as RegUnit)
    } else {
        units_in_order(set, from, to - 1)
    }
}

/// The units of a class that are in `set`, in rising order.
pub open spec fn class_units(set: Set<RegUnit>, rc: RegClass) -> Seq<RegUnit> {
    units_in_order(set, rc.spec_first() as int, rc.spec_first() + BANK_UNITS)
}

/// `units_in_order` lists exactly the units of the set in the range, each
/// once, in strictly rising order.
pub proof fn lemma_units_in_order(set: Set<RegUnit>, from: int, to: int)
    requires
        0 <= from,
        to <= u16::MAX + 1,
    ensures
        units_in_order(set, from, to).len() <= if to >= from {
            to - from
        } else {
            0
        },
        forall|i: int|
            0 <= i < units_in_order(set, from, to).len() ==> from <= (#[trigger] units_in_order(
                set,
                from,
                to,
            )[i]) < to && set.contains(units_in_order(set, from, to)[i]),
        forall|i: int, j: int|
            0 <= i < j < units_in_order(set, from, to).len() ==> units_in_order(set, from, to)[i]
                < units_in_order(set, from, to)[j],
        forall|u: RegUnit|
            from <= u < to && set.contains(u) ==> units_in_order(set, from, to).contains(u),
    decreases to - from,
{
    if from < to {
        lemma_units_in_order(set, from, to - 1);
        let shorter = units_in_order(set, from, to - 1);
        let all = units_in_order(set, from, to);
        assert forall|u: RegUnit| from <= u < to && set.contains(u) implies all.contains(u) by {
            if u < to - 1 {
                assert(shorter.contains(u));
                let k = choose|k: int| 0 <= k < shorter.len() && shorter[k] == u;
                assert(all[k] == u);
            } else {
                assert(all[all.len() - 1] == u);
            }
        }
    }
}

/// A set of register units.
#[derive(Clone, Copy, Debug)]
pub struct RegisterSet {
    avail: u64,
}

impl View for RegisterSet {
    type V = Set<RegUnit>;

    closed spec fn view(&self) -> Set<RegUnit> {
        Set::new(|unit: RegUnit| has_bit(self.avail, unit))
    }
}

impl RegisterSet {
    /// The set of all units.
    pub fn new() -> (set: RegisterSet)
        ensures
            set@ == Set::new(|unit: RegUnit| unit < TOTAL_UNITS),
    {
        let set = RegisterSet { avail: 0xffff_ffff_ffff_ffff };
        proof {
            assert forall|unit: RegUnit| unit < 64 implies has_bit(set.avail, unit) by {
                lemma_bit_ends(unit as u64);
            }
            assert(set@ =~= Set::new(|unit: RegUnit| unit < TOTAL_UNITS));
        }
        set
    }

    /// The set without any unit.
    pub fn empty() -> (set: RegisterSet)
        ensures
            set@ == Set::<RegUnit>::empty(),
    {
        let set = RegisterSet { avail: 0 };
        proof {
            assert forall|unit: RegUnit| !has_bit(set.avail, unit) by {
                if unit < 64 {
                    lemma_bit_ends(unit as u64);
                }
            }
            assert(set@ =~= Set::<RegUnit>::empty());
        }
        set
    }

    /// Is `reg` in the set?
    pub fn is_avail(&self, rc: RegClass, reg: RegUnit) -> (b: bool)
        ensures
            b == self@.contains(reg),
    {
        reg < 64 && (self.avail >> (reg as u64)) & 1 == 1
    }

    /// Takes `reg` out of the set.
    pub fn take(&mut self, rc: RegClass, reg: RegUnit)
        requires
            old(self)@.contains(reg),
        ensures
            final(self)@ == old(self)@.remove(reg),
    {
        let ghost before = self.avail;
        assert(reg < 64);
        self.avail = self.avail & !(1u64 << (reg as u64));
        proof {
            assert forall|unit: RegUnit| has_bit(self.avail, unit) == (unit != reg && has_bit(
                before,
                unit,
            )) by {
                if unit < 64 {
                    lemma_bit_cleared(before, reg as u64, unit as u64);
                }
            }
            assert(self@ =~= old(self)@.remove(reg));
        }
    }

    /// Puts `reg` into the set.
    pub fn free(&mut self, rc: RegClass, reg: RegUnit)
        requires
            reg < TOTAL_UNITS,
            !old(self)@.contains(reg),
        ensures
            final(self)@ == old(self)@.insert(reg),
    {
        let ghost before = self.avail;
        self.avail = self.avail | (1u64 << (reg as u64));
        proof {
            assert forall|unit: RegUnit| has_bit(self.avail, unit) == (unit == reg || has_bit(
                before,
                unit,
            )) by {
                if unit < 64 {
                    lemma_bit_set(before, reg as u64, unit as u64);
                }
            }
            assert(self@ =~= old(self)@.insert(reg));
        }
    }

    /// Keeps the units that are in `other` too.
    pub fn intersect(&mut self, other: &RegisterSet)
        ensures
            final(self)@ == old(self)@.intersect(other@),
    {
        let ghost before = self.avail;
        self.avail = self.avail & other.avail;
        proof {
            assert forall|unit: RegUnit| has_bit(self.avail, unit) == (has_bit(before, unit)
                && has_bit(other.avail, unit)) by {
                if unit < 64 {
                    lemma_bit_both(before, other.avail, unit as u64);
                }
            }
            assert(self@ =~= old(self)@.intersect(other@));
        }
    }

    /// The units of class `rc` in the set, in rising order.
    pub fn iter(&self, rc: RegClass) -> (units: Vec<RegUnit>)
        ensures
            units@ == class_units(self@, rc),
            units@.len() <= BANK_UNITS,
    {
        let first: RegUnit = rc.first();
        let mut units: Vec<RegUnit> = Vec::new();
        let mut unit: RegUnit = first;
        while unit < first + BANK_UNITS
            invariant
                first == rc.spec_first(),
                first <= unit <= first + BANK_UNITS,
                units@ == units_in_order(self@, first as int, unit as int),
                units@.len() <= unit - first,
            decreases first + BANK_UNITS - unit,
        {
            if self.is_avail(rc, unit) {
                units.push(unit);
            }
            unit += 1;
        }
        units
    }
}

} // verus!
