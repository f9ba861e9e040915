//! The return-register requirement estimator: how many registers of each
//! class a list of return values would take if enough were there.

use crate::callconv::CallConv;
use crate::classify::{regclass_for_abi_type, regclass_for_abi_type_spec};
use crate::registers::RegClass;
use crate::settings::{Flags, IsaFlags};
use crate::signature::{params_wf, AbiParam, ArgumentLoc};
use crate::types::{LaneKind, Type};
use vstd::prelude::*;

verus! {

/// The number of registers that a value of type `ty` takes when none runs
/// out: one for a vector where vectors are enabled, twice the number for
/// either half where the value must be split, one for all else.
pub open spec fn register_pieces(ty: Type, pointer_bits: int, simd: bool) -> nat
    decreases ty.lane_bits + ty.lanes,
{
    if ty.is_vector() {
        if simd {
            1
        } else {
            match ty.spec_half_vector() {
                Some(half) => 2 * register_pieces(half, pointer_bits, simd),
                None => 1,
            }
        }
    } else if !ty.is_float() && ty.spec_bits() > pointer_bits {
        match ty.spec_half_width() {
            Some(half) => 2 * register_pieces(half, pointer_bits, simd),
            None => 1,
        }
    } else {
        1
    }
}

/// The class of the registers that a value of type `ty` takes: float for a
/// vector that stays whole and for float lanes, general for all else.
pub open spec fn piece_class(ty: Type, simd: bool) -> RegClass {
    if (ty.is_vector() && simd) || ty.kind == LaneKind::Float {
        RegClass::FPR
    } else {
        RegClass::GPR
    }
}

/// The registers of class `class` that one return value takes. One that has
/// a register counts once, by its type; one at another location takes none;
/// one without a location takes what its pieces take.
pub open spec fn registers_required_by(
    p: AbiParam,
    class: RegClass,
    pointer_bits: int,
    simd: bool,
) -> nat {
    match p.location {
        ArgumentLoc::Unassigned => if piece_class(p.value_type, simd) == class {
            register_pieces(p.value_type, pointer_bits, simd)
        } else {
            0
        },
        ArgumentLoc::Reg(_) => if regclass_for_abi_type_spec(p.value_type) == class {
            1
        } else {
            0
        },
        ArgumentLoc::Stack(_) => 0,
    }
}

/// The registers of class `class` that a list of return values takes.
pub open spec fn registers_required(
    list: Seq<AbiParam>,
    class: RegClass,
    pointer_bits: int,
    simd: bool,
) -> nat
    decreases list.len(),
{
    if list.len() == 0 {
        0
    } else {
        registers_required(list.drop_last(), class, pointer_bits, simd) + registers_required_by(
            list.last(),
            class,
            pointer_bits,
            simd,
        )
    }
}

/// A value takes at least one register and at most one for each of its bits.
pub proof fn lemma_register_pieces_bounds(ty: Type, pointer_bits: int, simd: bool)
    requires
        ty.wf(),
    ensures
        1 <= register_pieces(ty, pointer_bits, simd) <= ty.spec_bits(),
    decreases ty.lane_bits + ty.lanes,
{
    let bits = ty.lane_bits as int;
    let lanes = ty.lanes as int;
    assert(bits * lanes >= 1) by (nonlinear_arith)
        requires
            bits >= 1,
            lanes >= 1,
    ;
    if ty.is_vector() {
        if !simd {
            let half = ty.spec_half_vector().unwrap();
            lemma_register_pieces_bounds(half, pointer_bits, simd);
            let half_lanes = half.lanes as int;
            assert(2 * (bits * half_lanes) == bits * lanes) by (nonlinear_arith)
                requires
                    2 * half_lanes == lanes,
            ;
        }
    } else if !ty.is_float() && ty.spec_bits() > pointer_bits {
        if let Some(half) = ty.spec_half_width() {
            lemma_register_pieces_bounds(half, pointer_bits, simd);
            let half_bits = half.lane_bits as int;
            assert(2 * (half_bits * lanes) == bits * lanes) by (nonlinear_arith)
                requires
                    2 * half_bits == bits,
            ;
        }
    }
}

/// The registers that one value without a location takes, and their class.
fn registers_for_type(ty: Type, pointer_bits: u8, simd: bool) -> (r: (RegClass, u16))
    requires
        ty.wf(),
        pointer_bits == 32 || pointer_bits == 64,
    ensures
        r.0 == piece_class(ty, simd),
        r.1 == register_pieces(ty, pointer_bits as int, simd),
{
    let mut part = ty;
    let mut split_factor: u16 = 1;
    proof {
        lemma_register_pieces_bounds(ty, pointer_bits as int, simd);
    }
    loop
        invariant
            part.wf(),
            ty.wf(),
            pointer_bits == 32 || pointer_bits == 64,
            1 <= split_factor,
            split_factor * part.spec_bits() == ty.spec_bits(),
            1 <= part.spec_bits(),
            ty.spec_bits() <= 32768,
            split_factor * register_pieces(part, pointer_bits as int, simd) == register_pieces(
                ty,
                pointer_bits as int,
                simd,
            ),
            piece_class(part, simd) == piece_class(ty, simd),
        decreases part.lane_bits + part.lanes,
    {
        let ghost before = part;
        let ghost factor = split_factor as int;
        let ghost pieces = register_pieces(part, pointer_bits as int, simd) as int;
        let half = if part.is_vector() {
            if simd {
                None
            } else {
                part.half_vector()
            }
        } else if !part.is_float() && part.bits() > pointer_bits as u16 {
            part.half_width()
        } else {
            None
        };
        match half {
            Some(half_ty) => {
                proof {
                    lemma_register_pieces_bounds(half_ty, pointer_bits as int, simd);
                    let half_bits = half_ty.spec_bits();
                    let half_pieces = register_pieces(half_ty, pointer_bits as int, simd) as int;
                    let bits = before.spec_bits();
                    let whole_bits = ty.spec_bits();
                    assert(2 * factor * half_bits == whole_bits && 2 * factor <= whole_bits)
                        by (nonlinear_arith)
                        requires
                            factor * bits == whole_bits,
                            2 * half_bits == bits,
                            half_bits >= 1,
                            factor >= 1,
                    ;
                    let whole_pieces = register_pieces(ty, pointer_bits as int, simd) as int;
                    assert(2 * factor * half_pieces == whole_pieces) by (nonlinear_arith)
                        requires
                            factor * pieces == whole_pieces,
                            2 * half_pieces == pieces,
                    ;
                }
                split_factor = split_factor * 2;
                part = half_ty;
            },
            None => {
                proof {
                    assert(pieces == 1);
                    assert(factor * 1 == factor);
                }
                return (regclass_for_abi_type(part), split_factor);
            },
        }
    }
}

/// The number of general-purpose and of floating-point registers that it
/// takes to hold the given return values in registers.
pub fn num_return_registers_required(
    word_bit_size: u8,
    call_conv: CallConv,
    shared_flags: &Flags,
    isa_flags: &IsaFlags,
    return_params: &Vec<AbiParam>,
) -> (r: (u128, u128))
    requires
        word_bit_size == 32 || word_bit_size == 64,
        params_wf(return_params@),
    ensures
        r.0 == registers_required(
            return_params@,
            RegClass::GPR,
            word_bit_size as int,
            shared_flags.enable_simd,
        ),
        r.1 == registers_required(
            return_params@,
            RegClass::FPR,
            word_bit_size as int,
            shared_flags.enable_simd,
        ),
{
    let simd = shared_flags.enable_simd;
    let mut gprs_required: u128 = 0;
    let mut fprs_required: u128 = 0;
    let mut i: usize = 0;
    assert(return_params@.take(0) =~= Seq::empty());
    while i < return_params.len()
        invariant
            i <= return_params.len(),
            word_bit_size == 32 || word_bit_size == 64,
            params_wf(return_params@),
            simd == shared_flags.enable_simd,
            gprs_required == registers_required(
                return_params@.take(i as int),
                RegClass::GPR,
                word_bit_size as int,
                simd,
            ),
            fprs_required == registers_required(
                return_params@.take(i as int),
                RegClass::FPR,
                word_bit_size as int,
                simd,
            ),
            gprs_required + fprs_required <= i * 65536,
        decreases return_params.len() - i,
    {
        let param = return_params[i];
        proof {
            let next = return_params@.take(i + 1);
            assert(next.drop_last() =~= return_params@.take(i as int));
            assert(next.last() == param);
        }
        match param.location {
            ArgumentLoc::Unassigned => {
                let (class, count) = registers_for_type(param.value_type, word_bit_size, simd);
                match class {
                    RegClass::FPR => {
                        fprs_required += count as u128;
                    },
                    RegClass::GPR => {
                        gprs_required += count as u128;
                    },
                }
            },
            ArgumentLoc::Reg(_) => {
                match regclass_for_abi_type(param.value_type) {
                    RegClass::FPR => {
                        fprs_required += 1;
                    },
                    RegClass::GPR => {
                        gprs_required += 1;
                    },
                }
            },
            ArgumentLoc::Stack(_) => {},
        }
        i += 1;
    }
    assert(return_params@.take(i as int) =~= return_params@);
    (gprs_required, fprs_required)
}

} // verus!
