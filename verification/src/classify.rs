//! The argument classifier: decides, value by value, which register or stack
//! slot a parameter or return value gets, or how it must be converted first.

use crate::callconv::CallConv;
use crate::registers::{
    RegClass, RegUnit, BANK_UNITS, R10, R14, R8, R9, RAX, RCX, RDI, RDX, RSI,
};
use crate::settings::{Flags, IsaFlags};
use crate::signature::{AbiParam, ArgumentExtension, ArgumentLoc, ArgumentPurpose};
use crate::types::{LaneKind, Type};
use vstd::prelude::*;

verus! {

/// A change of type that a value needs before it can be given a location.
#[derive(Clone, Copy, PartialEq, Eq, Structural, Debug)]
pub enum ValueConversion {
    /// Split an integer into two halves.
    IntSplit,
    /// Split a vector into two halves.
    VectorSplit,
    /// Reinterpret the bits as an integer of the same width.
    IntBits,
    /// Sign-extend to the given type.
    Sext(Type),
    /// Zero-extend to the given type.
    Uext(Type),
}

impl ValueConversion {
    /// The type of the converted value, where the conversion applies to `ty`.
    pub open spec fn spec_apply(self, ty: Type) -> Option<Type> {
        match self {
            ValueConversion::IntSplit => ty.spec_half_width(),
            ValueConversion::VectorSplit => ty.spec_half_vector(),
            ValueConversion::IntBits => if ty.spec_bits() <= u16::MAX {
                Type::spec_int(ty.spec_bits() as u16)
            } else {
                None
            },
            ValueConversion::Sext(nty) => Some(nty),
            ValueConversion::Uext(nty) => Some(nty),
        }
    }

    /// Does the conversion turn one value into two?
    pub open spec fn spec_is_split(self) -> bool {
        self == ValueConversion::IntSplit || self == ValueConversion::VectorSplit
    }

    /// The type of the converted value.
    pub fn apply(self, ty: Type) -> (r: Type)
        requires
            ty.wf(),
            self.spec_apply(ty) is Some,
        ensures
            Some(r) == self.spec_apply(ty),
            self.spec_is_split() ==> r.wf(),
    {
        let converted = match self {
            ValueConversion::IntSplit => ty.half_width(),
            ValueConversion::VectorSplit => ty.half_vector(),
            ValueConversion::IntBits => Type::int_type(ty.bits()),
            ValueConversion::Sext(nty) => Some(nty),
            ValueConversion::Uext(nty) => Some(nty),
        };
        converted.unwrap()
    }

    /// Does the conversion turn one value into two?
    #[verifier::when_used_as_spec(spec_is_split)]
    pub fn is_split(self) -> (b: bool)
        ensures
            b == self.spec_is_split(),
    {
        match self {
            ValueConversion::IntSplit | ValueConversion::VectorSplit => true,
            _ => false,
        }
    }
}

/// What the classifier decides for one value.
#[derive(Clone, Copy, PartialEq, Eq, Structural, Debug)]
pub enum ArgAction {
    /// The value lives at this location.
    Assign(ArgumentLoc),
    /// The value must be converted and presented again.
    Convert(ValueConversion),
}

/// Argument registers of the 64-bit System V convention, in order.
pub open spec fn arg_gprs() -> Seq<RegUnit> {
    seq![RDI, RSI, RDX, RCX, R8, R9]
}

/// Return registers, in order.
pub open spec fn ret_gprs() -> Seq<RegUnit> {
    seq![RAX, RDX, RCX]
}

/// Argument registers of the 64-bit Windows convention, in order.
pub open spec fn arg_gprs_win_fastcall_x64() -> Seq<RegUnit> {
    seq![RCX, RDX, R8, R9]
}

/// Return registers of the 64-bit Windows convention.
pub open spec fn ret_gprs_win_fastcall_x64() -> Seq<RegUnit> {
    seq![RAX]
}

/// A pool of general registers: each in the general bank, none twice.
pub open spec fn valid_gpr_pool(pool: Seq<RegUnit>) -> bool {
    &&& pool.len() <= BANK_UNITS
    &&& forall|i: int| 0 <= i < pool.len() ==> RegClass::GPR.spec_contains(#[trigger] pool[i])
    &&& forall|i: int, j: int| 0 <= i < j < pool.len() ==> pool[i] != pool[j]
}

/// Is `offset` a multiple of the size of a stack slot, which is as wide as a
/// pointer?
pub open spec fn is_slot_offset(offset: int, pointer_bits: int) -> bool {
    if pointer_bits == 64 {
        offset % 8 == 0
    } else {
        offset % 4 == 0
    }
}

/// The state of one classification pass over one list, as mathematics: what
/// is left of the register pools, and the next stack offset.
pub struct Cursor {
    pub pointer_bits: int,
    /// The general registers to hand out, in order.
    pub gpr: Seq<RegUnit>,
    pub gpr_used: int,
    /// How many float registers may be handed out, from the first on.
    pub fpr_limit: int,
    pub fpr_used: int,
    /// The offset of the next stack slot.
    pub offset: int,
    pub call_conv: CallConv,
    /// Vector values may stay in vector registers.
    pub simd: bool,
}

impl Cursor {
    /// The state before the first value of a list. The first stack offset
    /// lies above the shadow store where the convention has one.
    pub open spec fn fresh(
        bits: int,
        gpr: Seq<RegUnit>,
        fpr_limit: int,
        call_conv: CallConv,
        simd: bool,
    ) -> Cursor {
        Cursor {
            pointer_bits: bits,
            gpr,
            gpr_used: 0,
            fpr_limit,
            fpr_used: 0,
            offset: if call_conv.extends_windows_fastcall() {
                32
            } else {
                0
            },
            call_conv,
            simd,
        }
    }

    /// The state is one that a pass can be in.
    pub open spec fn wf(self) -> bool {
        &&& self.pointer_bits == 32 || self.pointer_bits == 64
        &&& valid_gpr_pool(self.gpr)
        &&& 0 <= self.gpr_used <= self.gpr.len()
        &&& 0 <= self.fpr_used <= self.fpr_limit <= BANK_UNITS
        &&& 0 <= self.offset <= i32::MAX
        &&& is_slot_offset(self.offset, self.pointer_bits)
        &&& self.shares_index() ==> self.gpr_used == self.fpr_used && self.fpr_limit
            == self.gpr.len()
    }

    /// Bytes in a pointer, and in a stack slot.
    pub open spec fn pointer_bytes(self) -> int {
        if self.pointer_bits == 64 {
            8
        } else {
            4
        }
    }

    /// The integer type as wide as a pointer.
    pub open spec fn pointer_type(self) -> Type {
        Type { kind: LaneKind::Int, lane_bits: self.pointer_bits as u16, lanes: 1 }
    }

    /// Do general and float registers share one positional index, so that
    /// taking either kind uses up the other too?
    pub open spec fn shares_index(self) -> bool {
        self.call_conv.extends_windows_fastcall()
    }

    /// The register that the convention pins a purpose to.
    pub open spec fn pinned_reg(self, purpose: ArgumentPurpose) -> Option<RegUnit> {
        if !self.call_conv.extends_baldrdash() {
            None
        } else if purpose == ArgumentPurpose::VMContext {
            Some(
                if self.pointer_bits == 64 {
                    R14
                } else {
                    RSI
                },
            )
        } else if purpose == ArgumentPurpose::SignatureId {
            Some(
                if self.pointer_bits == 64 {
                    R10
                } else {
                    RCX
                },
            )
        } else {
            None
        }
    }

    /// The state after the next general register was handed out.
    pub open spec fn take_gpr(self) -> Cursor {
        Cursor {
            gpr_used: self.gpr_used + 1,
            fpr_used: if self.shares_index() {
                self.fpr_used + 1
            } else {
                self.fpr_used
            },
            ..self
        }
    }

    /// The state after the next float register was handed out.
    pub open spec fn take_fpr(self) -> Cursor {
        Cursor {
            fpr_used: self.fpr_used + 1,
            gpr_used: if self.shares_index() {
                self.gpr_used + 1
            } else {
                self.gpr_used
            },
            ..self
        }
    }

    /// The state after the next stack slot was handed out.
    pub open spec fn take_stack(self) -> Cursor {
        Cursor { offset: self.offset + self.pointer_bytes(), ..self }
    }

    /// The decision for `arg` in this state, and the state after it.
    ///
    /// In order: a vector takes the next float register where vectors are
    /// enabled and one is left, and is split otherwise; a value that is no
    /// float and wider than a pointer is split; an integer narrower than a
    /// pointer that asks for an extension is extended to pointer width; an
    /// integer with a pinned purpose gets the pinned register; a value that
    /// is no float takes the next general register, a float the next float
    /// register; what is left goes to the next stack slot.
    pub open spec fn assign(self, arg: AbiParam) -> (ArgAction, Cursor) {
        let ty = arg.value_type;
        if ty.is_vector() {
            if self.simd && self.fpr_used < self.fpr_limit {
                (
                    ArgAction::Assign(ArgumentLoc::Reg(RegClass::FPR.spec_unit(self.fpr_used))),
                    self.take_fpr(),
                )
            } else {
                (ArgAction::Convert(ValueConversion::VectorSplit), self)
            }
        } else if !ty.is_float() && ty.spec_bits() > self.pointer_bits {
            (ArgAction::Convert(ValueConversion::IntSplit), self)
        } else if ty.is_int() && ty.spec_bits() < self.pointer_bits && arg.extension
            == ArgumentExtension::Uext {
            (ArgAction::Convert(ValueConversion::Uext(self.pointer_type())), self)
        } else if ty.is_int() && ty.spec_bits() < self.pointer_bits && arg.extension
            == ArgumentExtension::Sext {
            (ArgAction::Convert(ValueConversion::Sext(self.pointer_type())), self)
        } else if ty.is_int() && self.pinned_reg(arg.purpose) is Some {
            (ArgAction::Assign(ArgumentLoc::Reg(self.pinned_reg(arg.purpose).unwrap())), self)
        } else if !ty.is_float() && self.gpr_used < self.gpr.len() {
            (ArgAction::Assign(ArgumentLoc::Reg(self.gpr[self.gpr_used])), self.take_gpr())
        } else if ty.is_float() && self.fpr_used < self.fpr_limit {
            (
                ArgAction::Assign(ArgumentLoc::Reg(RegClass::FPR.spec_unit(self.fpr_used))),
                self.take_fpr(),
            )
        } else {
            (ArgAction::Assign(ArgumentLoc::Stack(self.offset as i32)), self.take_stack())
        }
    }
}

/// The state of one classification pass over one list: what is left of the
/// register pools, and the next stack offset.
#[derive(Debug)]
pub struct Args {
    pub pointer_bytes: u8,
    pub pointer_bits: u8,
    pub pointer_type: Type,
    /// The general registers to hand out, in order.
    pub gpr: Vec<RegUnit>,
    pub gpr_used: usize,
    /// How many float registers may be handed out, from the first on.
    pub fpr_limit: usize,
    pub fpr_used: usize,
    /// The offset of the next stack slot.
    pub offset: u32,
    pub call_conv: CallConv,
    pub shared_flags: Flags,
    pub isa_flags: IsaFlags,
}

impl View for Args {
    type V = Cursor;

    open spec fn view(&self) -> Cursor {
        Cursor {
            pointer_bits: self.pointer_bits as int,
            gpr: self.gpr@,
            gpr_used: self.gpr_used as int,
            fpr_limit: self.fpr_limit as int,
            fpr_used: self.fpr_used as int,
            offset: self.offset as int,
            call_conv: self.call_conv,
            simd: self.shared_flags.enable_simd,
        }
    }
}

impl Args {
    /// The state is one that a pass can be in, and the pointer's size and
    /// type agree with its width.
    pub open spec fn wf(self) -> bool {
        &&& self@.wf()
        &&& self.pointer_bytes == self@.pointer_bytes()
        &&& self.pointer_type == self@.pointer_type()
    }

    /// The two states have the same settings and the same pointer: the
    /// fields that the view leaves out are equal.
    pub open spec fn same_setup(self, other: Args) -> bool {
        &&& self.shared_flags == other.shared_flags
        &&& self.isa_flags == other.isa_flags
        &&& self.pointer_bytes == other.pointer_bytes
        &&& self.pointer_type == other.pointer_type
    }

    /// The state before the first value of a list.
    pub fn new(
        bits: u8,
        gpr: Vec<RegUnit>,
        fpr_limit: usize,
        call_conv: CallConv,
        shared_flags: &Flags,
        isa_flags: &IsaFlags,
    ) -> (args: Args)
        requires
            bits == 32 || bits == 64,
        ensures
            args@ == Cursor::fresh(
                bits as int,
                gpr@,
                fpr_limit as int,
                call_conv,
                shared_flags.enable_simd,
            ),
            args.pointer_bytes == bits / 8,
            args.pointer_type == (Type { kind: LaneKind::Int, lane_bits: bits as u16, lanes: 1 }),
            args.shared_flags == *shared_flags,
            args.isa_flags == *isa_flags,
            valid_gpr_pool(gpr@) && fpr_limit <= BANK_UNITS && (call_conv.extends_windows_fastcall()
                ==> fpr_limit == gpr@.len()) ==> args.wf(),
    {
        let offset: u32 = if call_conv.extends_windows_fastcall() {
            32
        } else {
            0
        };
        let pointer_type = Type::int_type(bits as u16).unwrap();
        Args {
            pointer_bytes: bits / 8,
            pointer_bits: bits,
            pointer_type,
            gpr,
            gpr_used: 0,
            fpr_limit,
            fpr_used: 0,
            offset,
            call_conv,
            shared_flags: *shared_flags,
            isa_flags: *isa_flags,
        }
    }

    /// Advances the counters for one general register taken.
    fn use_gpr(&mut self)
        requires
            old(self).wf(),
            old(self).gpr_used < old(self).gpr@.len(),
        ensures
            final(self)@ == old(self)@.take_gpr(),
            final(self).wf(),
            final(self).same_setup(*old(self)),
    {
        self.gpr_used += 1;
        if self.call_conv.extends_windows_fastcall() {
            self.fpr_used += 1;
        }
    }

    /// Advances the counters for one float register taken.
    fn use_fpr(&mut self)
        requires
            old(self).wf(),
            old(self).fpr_used < old(self).fpr_limit,
        ensures
            final(self)@ == old(self)@.take_fpr(),
            final(self).wf(),
            final(self).same_setup(*old(self)),
    {
        self.fpr_used += 1;
        if self.call_conv.extends_windows_fastcall() {
            self.gpr_used += 1;
        }
    }

    /// Decides where `arg` goes, or how it must be converted first.
    pub fn assign(&mut self, arg: &AbiParam) -> (action: ArgAction)
        requires
            old(self).wf(),
            arg.wf(),
            old(self)@.assign(*arg).1.offset <= i32::MAX,
        ensures
            (action, final(self)@) == old(self)@.assign(*arg),
            final(self).wf(),
            final(self).same_setup(*old(self)),
    {
        let ty = arg.value_type;

        if ty.is_vector() {
            if self.shared_flags.enable_simd && self.fpr_used < self.fpr_limit {
                let reg = RegClass::FPR.unit(self.fpr_used);
                self.use_fpr();
                return ArgAction::Assign(ArgumentLoc::Reg(reg));
            }
            return ArgAction::Convert(ValueConversion::VectorSplit);
        }
        let bits: u16 = ty.bits();
        let pointer_bits: u16 = self.pointer_bits as u16;

        if !ty.is_float() && bits > pointer_bits {
            return ArgAction::Convert(ValueConversion::IntSplit);
        }
        if ty.is_int() && bits < pointer_bits {
            match arg.extension {
                ArgumentExtension::Unextended => {},
                ArgumentExtension::Uext => {
                    return ArgAction::Convert(ValueConversion::Uext(self.pointer_type));
                },
                ArgumentExtension::Sext => {
                    return ArgAction::Convert(ValueConversion::Sext(self.pointer_type));
                },
            }
        }
        if ty.is_int() && self.call_conv.extends_baldrdash() {
            match arg.purpose {
                ArgumentPurpose::VMContext => {
                    let reg: RegUnit = if self.pointer_bits == 64 {
                        R14
                    } else {
                        RSI
                    };
                    return ArgAction::Assign(ArgumentLoc::Reg(reg));
                },
                ArgumentPurpose::SignatureId => {
                    let reg: RegUnit = if self.pointer_bits == 64 {
                        R10
                    } else {
                        RCX
                    };
                    return ArgAction::Assign(ArgumentLoc::Reg(reg));
                },
                _ => {},
            }
        }
        if !ty.is_float() && self.gpr_used < self.gpr.len() {
            let reg: RegUnit = self.gpr[self.gpr_used];
            self.use_gpr();
            return ArgAction::Assign(ArgumentLoc::Reg(reg));
        }
        if ty.is_float() && self.fpr_used < self.fpr_limit {
            let reg = RegClass::FPR.unit(self.fpr_used);
            self.use_fpr();
            return ArgAction::Assign(ArgumentLoc::Reg(reg));
        }
        let loc = ArgumentLoc::Stack(self.offset as i32);
        self.offset += self.pointer_bytes as u32;
        ArgAction::Assign(loc)
    }
}

/// The register class for a type that appears in a legalized signature.
pub open spec fn regclass_for_abi_type_spec(ty: Type) -> RegClass {
    if ty.is_int() || ty.is_bool() {
        RegClass::GPR
    } else {
        RegClass::FPR
    }
}

/// The register class for a type that appears in a legalized signature:
/// general for scalar integers and booleans, float for all else.
pub fn regclass_for_abi_type(ty: Type) -> (rc: RegClass)
    ensures
        rc == regclass_for_abi_type_spec(ty),
{
    if ty.is_int() || ty.is_bool() {
        RegClass::GPR
    } else {
        RegClass::FPR
    }
}

} // verus!
