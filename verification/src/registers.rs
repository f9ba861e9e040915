//! Register units of the x86 register banks and the two classes that
//! arguments are passed in.

use vstd::prelude::*;

verus! {

/// A register unit: the number of one physical register.
pub type RegUnit = u16;

pub const RAX: RegUnit = 0;

pub const RCX: RegUnit = 1;

pub const RDX: RegUnit = 2;

pub const RBX: RegUnit = 3;

pub const RSP: RegUnit = 4;

pub const RBP: RegUnit = 5;

pub const RSI: RegUnit = 6;

pub const RDI: RegUnit = 7;

pub const R8: RegUnit = 8;

pub const R9: RegUnit = 9;

pub const R10: RegUnit = 10;

pub const R11: RegUnit = 11;

pub const R12: RegUnit = 12;

pub const R13: RegUnit = 13;

pub const R14: RegUnit = 14;

pub const R15: RegUnit = 15;

/// The first unit of the floating-point bank, `xmm0`.
pub const XMM0: RegUnit = 16;

pub const RFLAGS: RegUnit = 32;

/// Units in each of the two banks.
pub const BANK_UNITS: u16 = 16;

/// Units that a register set can hold.
pub const TOTAL_UNITS: u16 = 64;

/// A register class: the general-purpose or the floating-point bank.
#[derive(Clone, Copy, PartialEq, Eq, Structural, Debug)]
pub enum RegClass {
    GPR,
    FPR,
}

impl RegClass {
    /// The first unit of the class.
    pub open spec fn spec_first(self) -> RegUnit {
        match self {
            RegClass::GPR => RAX,
            RegClass::FPR => XMM0,
        }
    }

    /// The unit at `offset` within the class.
    pub open spec fn spec_unit(self, offset: int) -> RegUnit {
        (self.spec_first() + offset) as RegUnit
    }

    /// Does `unit` belong to the class?
    pub open spec fn spec_contains(self, unit: RegUnit) -> bool {
        self.spec_first() <= unit < self.spec_first() + BANK_UNITS
    }

    /// The first unit of the class.
    pub fn first(self) -> (u: RegUnit)
        ensures
            u == self.spec_first(),
    {
        match self {
            RegClass::GPR => RAX,
            RegClass::FPR => XMM0,
        }
    }

    /// The unit at `offset` within the class.
    pub fn unit(self, offset: usize) -> (u: RegUnit)
        requires
            offset < BANK_UNITS,
        ensures
            u == self.spec_unit(offset as int),
            self.spec_contains(u),
    {
        self.first() + (offset as u16)
    }

    /// Does `unit` belong to the class?
    pub fn contains(self, unit: RegUnit) -> (b: bool)
        ensures
            b == self.spec_contains(unit),
    {
        let first: u16 = self.first();
        first <= unit && unit < first + BANK_UNITS
    }
}

} // verus!
