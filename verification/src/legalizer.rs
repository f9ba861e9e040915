//! The signature legalizer: gives every parameter and return value of a
//! signature its location under a calling convention, and passes the return
//! values through memory where the return registers do not suffice.

use crate::callconv::CallConv;
use crate::classify::{
    arg_gprs, arg_gprs_win_fastcall_x64, ret_gprs, ret_gprs_win_fastcall_x64, valid_gpr_pool,
    ArgAction, Args, Cursor,
};
use crate::estimate::{num_return_registers_required, registers_required};
use crate::legalize::{legalize_args, legalized_list, settled};
use crate::registers::{RegClass, RegUnit, BANK_UNITS, R8, R9, RAX, RCX, RDI, RDX, RSI};
use crate::result::CodegenError;
use crate::settings::{Flags, IsaFlags};
use crate::signature::{
    last_with_purpose, params_wf, AbiParam, ArgumentExtension, ArgumentLoc, ArgumentPurpose,
    Signature, SignatureView,
};
use crate::target::{lexicon_pointer_width, triple_pointer_width, Width};
use crate::types::Type;
use target_lexicon::Triple;
use vstd::prelude::*;

verus! {

/// The entries of a list that live in registers, in their order.
pub open spec fn in_registers(list: Seq<AbiParam>) -> Seq<AbiParam>
    decreases list.len(),
{
    if list.len() == 0 {
        Seq::empty()
    } else if list.last().location.is_reg() {
        in_registers(list.drop_last()).push(list.last())
    } else {
        in_registers(list.drop_last())
    }
}

/// The pointer to the place for the return values, before it has a location.
pub open spec fn return_pointer(pointer_type: Type) -> AbiParam {
    AbiParam {
        value_type: pointer_type,
        purpose: ArgumentPurpose::StructReturn,
        extension: ArgumentExtension::Unextended,
        location: ArgumentLoc::Unassigned,
    }
}

/// Would the return values take more registers, of either class, than the
/// classifier has left for them?
pub open spec fn needs_struct_return(list: Seq<AbiParam>, rets: Cursor) -> bool {
    ||| registers_required(list, RegClass::GPR, rets.pointer_bits, rets.simd) > rets.gpr.len()
        - rets.gpr_used
    ||| registers_required(list, RegClass::FPR, rets.pointer_bits, rets.simd) > rets.fpr_limit
        - rets.fpr_used
}

/// The signature that passes its return values through memory, and the two
/// classifier states after the pointer was placed in each list: the pointer
/// is appended as a parameter and as a return value, each presented to its
/// classifier before any other value, and of the return values only those in
/// registers stay.
pub open spec fn with_struct_return(sig: SignatureView, args: Cursor, rets: Cursor) -> (
    SignatureView,
    Cursor,
    Cursor,
) {
    let param = return_pointer(args.pointer_type());
    let ret = return_pointer(args.pointer_type());
    let (param_action, args1) = args.assign(param);
    let (ret_action, rets1) = rets.assign(ret);
    (
        SignatureView {
            params: sig.params.push(settled(param, param_action)),
            returns: in_registers(sig.returns.push(settled(ret, ret_action))),
            call_conv: sig.call_conv,
        },
        args1,
        rets1,
    )
}

/// The signature whose lists are to be legalized, and the classifier states
/// to legalize them with: those of `with_struct_return` where the return
/// registers do not suffice, the given ones where they do.
pub open spec fn prepared(sig: SignatureView, args: Cursor, rets: Cursor) -> (
    SignatureView,
    Cursor,
    Cursor,
) {
    if needs_struct_return(sig.returns, rets) {
        with_struct_return(sig, args, rets)
    } else {
        (sig, args, rets)
    }
}

/// The legalized signature: both lists of the prepared signature, each
/// legalized with its own classifier.
pub open spec fn legalized_signature(
    sig: SignatureView,
    args: Cursor,
    rets: Cursor,
) -> SignatureView {
    let (with_pointer, args1, rets1) = prepared(sig, args, rets);
    SignatureView {
        params: legalized_list(with_pointer.params, args1).0,
        returns: legalized_list(with_pointer.returns, rets1).0,
        call_conv: sig.call_conv,
    }
}

/// Can the signature be legalized? Where the return values go through
/// memory, the signature has no such pointer yet and each classifier has a
/// general register left for it; and no stack offset leaves the range of a
/// signed 32-bit number.
pub open spec fn can_legalize(sig: SignatureView, args: Cursor, rets: Cursor) -> bool {
    let (with_pointer, args1, rets1) = prepared(sig, args, rets);
    &&& needs_struct_return(sig.returns, rets) ==> {
        &&& last_with_purpose(sig.params, ArgumentPurpose::StructReturn) is None
        &&& args.gpr_used < args.gpr.len()
        &&& rets.gpr_used < rets.gpr.len()
    }
    &&& legalized_list(with_pointer.params, args1).1.offset <= i32::MAX
    &&& legalized_list(with_pointer.returns, rets1).1.offset <= i32::MAX
}

/// The entries of `list` that live in registers.
fn retain_registers(list: &Vec<AbiParam>) -> (kept: Vec<AbiParam>)
    ensures
        kept@ == in_registers(list@),
{
    let mut kept: Vec<AbiParam> = Vec::new();
    let mut i: usize = 0;
    assert(list@.take(0) =~= Seq::empty());
    while i < list.len()
        invariant
            i <= list.len(),
            kept@ == in_registers(list@.take(i as int)),
        decreases list.len() - i,
    {
        proof {
            let next = list@.take(i + 1);
            assert(next.drop_last() =~= list@.take(i as int));
            assert(next.last() == list@[i as int]);
        }
        if list[i].location.is_reg() {
            kept.push(list[i]);
        }
        i += 1;
    }
    assert(list@.take(i as int) =~= list@);
    kept
}

/// Every entry of `in_registers(list)` lives in a register and is an entry
/// of `list`.
pub proof fn lemma_in_registers(list: Seq<AbiParam>)
    ensures
        forall|i: int|
            0 <= i < in_registers(list).len() ==> (#[trigger] in_registers(
                list,
            )[i]).location.is_reg() && list.contains(in_registers(list)[i]),
        in_registers(list).len() <= list.len(),
    decreases list.len(),
{
    if list.len() > 0 {
        let shorter = list.drop_last();
        lemma_in_registers(shorter);
        assert forall|i: int| 0 <= i < in_registers(list).len() implies (#[trigger] in_registers(
            list,
        )[i]).location.is_reg() && list.contains(in_registers(list)[i]) by {
            if i < in_registers(shorter).len() {
                let e = in_registers(shorter)[i];
                assert(shorter.contains(e));
                let k = choose|k: int| 0 <= k < shorter.len() && shorter[k] == e;
                assert(list[k] == e);
            } else {
                assert(list[list.len() - 1] == list.last());
            }
        }
    }
}

/// Legalizes `sig` for a pointer width and for the given register pools:
/// `arg_regs` and the first `arg_fpr_limit` float registers for parameters,
/// `ret_regs` and the first `ret_fpr_limit` float registers for return
/// values.
pub fn legalize_signature_with_pools(
    sig: &mut Signature,
    bits: u8,
    arg_regs: Vec<RegUnit>,
    arg_fpr_limit: usize,
    ret_regs: Vec<RegUnit>,
    ret_fpr_limit: usize,
    shared_flags: &Flags,
    isa_flags: &IsaFlags,
)
    requires
        old(sig).wf(),
        bits == 32 || bits == 64,
        valid_gpr_pool(arg_regs@),
        valid_gpr_pool(ret_regs@),
        arg_fpr_limit <= BANK_UNITS,
        ret_fpr_limit <= BANK_UNITS,
        old(sig).call_conv.extends_windows_fastcall() ==> arg_fpr_limit == arg_regs@.len()
            && ret_fpr_limit == ret_regs@.len(),
        can_legalize(
            old(sig)@,
            Cursor::fresh(
                bits as int,
                arg_regs@,
                arg_fpr_limit as int,
                old(sig).call_conv,
                shared_flags.enable_simd,
            ),
            Cursor::fresh(
                bits as int,
                ret_regs@,
                ret_fpr_limit as int,
                old(sig).call_conv,
                shared_flags.enable_simd,
            ),
        ),
    ensures
        final(sig)@ == legalized_signature(
            old(sig)@,
            Cursor::fresh(
                bits as int,
                arg_regs@,
                arg_fpr_limit as int,
                old(sig).call_conv,
                shared_flags.enable_simd,
            ),
            Cursor::fresh(
                bits as int,
                ret_regs@,
                ret_fpr_limit as int,
                old(sig).call_conv,
                shared_flags.enable_simd,
            ),
        ),
{
    let mut args = Args::new(
        bits,
        arg_regs,
        arg_fpr_limit,
        sig.call_conv,
        shared_flags,
        isa_flags,
    );
    let mut rets = Args::new(
        bits,
        ret_regs,
        ret_fpr_limit,
        sig.call_conv,
        shared_flags,
        isa_flags,
    );
    let ghost args0 = args@;
    let ghost rets0 = rets@;
    let ghost sig0 = sig@;

    let (gprs_required, fprs_required) = num_return_registers_required(
        bits,
        sig.call_conv,
        shared_flags,
        isa_flags,
        &sig.returns,
    );
    if gprs_required > rets.gpr.len() as u128 || fprs_required > ret_fpr_limit as u128 {
        assert(needs_struct_return(sig0.returns, rets0));
        let mut ret_ptr_param = AbiParam {
            value_type: args.pointer_type,
            purpose: ArgumentPurpose::StructReturn,
            extension: ArgumentExtension::Unextended,
            location: ArgumentLoc::Unassigned,
        };
        match args.assign(&ret_ptr_param) {
            ArgAction::Assign(loc) => {
                ret_ptr_param.location = loc;
                sig.params.push(ret_ptr_param);
            },
            ArgAction::Convert(_) => unreached(),
        }
        let mut ret_ptr_return = AbiParam {
            value_type: args.pointer_type,
            purpose: ArgumentPurpose::StructReturn,
            extension: ArgumentExtension::Unextended,
            location: ArgumentLoc::Unassigned,
        };
        match rets.assign(&ret_ptr_return) {
            ArgAction::Assign(loc) => {
                ret_ptr_return.location = loc;
                sig.returns.push(ret_ptr_return);
            },
            ArgAction::Convert(_) => unreached(),
        }
        let kept = retain_registers(&sig.returns);
        sig.returns = kept;
        proof {
            lemma_in_registers(sig0.returns.push(ret_ptr_return));
            assert(params_wf(sig.returns@)) by {
                let full = sig0.returns.push(ret_ptr_return);
                assert forall|i: int| 0 <= i < sig.returns@.len() implies (
                #[trigger] sig.returns@[i]).wf() by {
                    let e = sig.returns@[i];
                    assert(full.contains(e));
                    let k = choose|k: int| 0 <= k < full.len() && full[k] == e;
                    if k < sig0.returns.len() {
                        assert(full[k] == sig0.returns[k]);
                    }
                }
            }
        }
    } else {
        assert(!needs_struct_return(sig0.returns, rets0));
    }
    assert((sig@, args@, rets@) == prepared(sig0, args0, rets0));

    if let Some(new_params) = legalize_args(&sig.params, &mut args) {
        sig.params = new_params;
    }
    if let Some(new_returns) = legalize_args(&sig.returns, &mut rets) {
        sig.returns = new_returns;
    }
}

/// The general registers and the number of float registers that parameters
/// are passed in: none on a 32-bit target, where all parameters go on the
/// stack.
pub open spec fn param_pool(width: Width, call_conv: CallConv) -> (Seq<RegUnit>, int) {
    if width != Width::U64 {
        (Seq::empty(), 0)
    } else if call_conv.extends_windows_fastcall() {
        (arg_gprs_win_fastcall_x64(), 4)
    } else {
        (arg_gprs(), 8)
    }
}

/// The general registers and the number of float registers that values are
/// returned in. The first general register is the primary return register.
pub open spec fn return_pool(call_conv: CallConv) -> (Seq<RegUnit>, int) {
    if call_conv.extends_windows_fastcall() {
        (ret_gprs_win_fastcall_x64(), 1)
    } else {
        (ret_gprs(), 2)
    }
}

/// The classifier state before the first parameter.
pub open spec fn param_cursor(width: Width, call_conv: CallConv, simd: bool) -> Cursor {
    Cursor::fresh(
        width.spec_bits() as int,
        param_pool(width, call_conv).0,
        param_pool(width, call_conv).1,
        call_conv,
        simd,
    )
}

/// The classifier state before the first return value.
pub open spec fn return_cursor(width: Width, call_conv: CallConv, simd: bool) -> Cursor {
    Cursor::fresh(
        width.spec_bits() as int,
        return_pool(call_conv).0,
        return_pool(call_conv).1,
        call_conv,
        simd,
    )
}

/// Legalizes `sig` under its calling convention for a target with pointers
/// of the given width.
pub fn legalize_signature_for(
    sig: &mut Signature,
    width: Width,
    shared_flags: &Flags,
    isa_flags: &IsaFlags,
)
    requires
        old(sig).wf(),
        width != Width::U16,
        can_legalize(
            old(sig)@,
            param_cursor(width, old(sig).call_conv, shared_flags.enable_simd),
            return_cursor(width, old(sig).call_conv, shared_flags.enable_simd),
        ),
    ensures
        final(sig)@ == legalized_signature(
            old(sig)@,
            param_cursor(width, old(sig).call_conv, shared_flags.enable_simd),
            return_cursor(width, old(sig).call_conv, shared_flags.enable_simd),
        ),
{
    let windows = sig.call_conv.extends_windows_fastcall();
    let bits: u8 = width.bits();
    let arg_regs: Vec<RegUnit> = match width {
        Width::U64 => if windows {
            vec![RCX, RDX, R8, R9]
        } else {
            vec![RDI, RSI, RDX, RCX, R8, R9]
        },
        _ => Vec::new(),
    };
    let arg_fpr_limit: usize = match width {
        Width::U64 => if windows {
            4
        } else {
            8
        },
        _ => 0,
    };
    let ret_regs: Vec<RegUnit> = if windows {
        vec![RAX]
    } else {
        vec![RAX, RDX, RCX]
    };
    let ret_fpr_limit: usize = if windows {
        1
    } else {
        2
    };
    assert(arg_regs@ =~= param_pool(width, sig.call_conv).0);
    assert(ret_regs@ =~= return_pool(sig.call_conv).0);
    legalize_signature_with_pools(
        sig,
        bits,
        arg_regs,
        arg_fpr_limit,
        ret_regs,
        ret_fpr_limit,
        shared_flags,
        isa_flags,
    );
}

/// Legalizes `sig` under its calling convention for the target that `triple`
/// names.
pub fn legalize_signature(
    sig: &mut Signature,
    triple: &Triple,
    _current: bool,
    shared_flags: &Flags,
    isa_flags: &IsaFlags,
)
    requires
        old(sig).wf(),
        triple_pointer_width(*triple) matches Some(width) && width != Width::U16 && can_legalize(
            old(sig)@,
            param_cursor(width, old(sig).call_conv, shared_flags.enable_simd),
            return_cursor(width, old(sig).call_conv, shared_flags.enable_simd),
        ),
    ensures
        final(sig)@ == legalized_signature(
            old(sig)@,
            param_cursor(
                triple_pointer_width(*triple).unwrap(),
                old(sig).call_conv,
                shared_flags.enable_simd,
            ),
            return_cursor(
                triple_pointer_width(*triple).unwrap(),
                old(sig).call_conv,
                shared_flags.enable_simd,
            ),
        ),
{
    match lexicon_pointer_width(triple) {
        Some(width) => {
            legalize_signature_for(sig, width, shared_flags, isa_flags);
        },
        None => unreached(),
    }
}

/// Legalizes `sig` as `legalize_signature` does where the target has
/// pointers of 32 or 64 bits, and leaves it alone and reports the target as
/// unsupported where it has not.
pub fn try_legalize_signature(
    sig: &mut Signature,
    triple: &Triple,
    current: bool,
    shared_flags: &Flags,
    isa_flags: &IsaFlags,
) -> (r: Result<(), CodegenError>)
    requires
        old(sig).wf(),
        triple_pointer_width(*triple) matches Some(width) ==> width != Width::U16 ==> can_legalize(
            old(sig)@,
            param_cursor(width, old(sig).call_conv, shared_flags.enable_simd),
            return_cursor(width, old(sig).call_conv, shared_flags.enable_simd),
        ),
    ensures
        match triple_pointer_width(*triple) {
            Some(Width::U16) | None => r == Err::<(), CodegenError>(CodegenError::Unsupported)
                && final(sig)@ == old(sig)@,
            Some(width) => r is Ok && final(sig)@ == legalized_signature(
                old(sig)@,
                param_cursor(width, old(sig).call_conv, shared_flags.enable_simd),
                return_cursor(width, old(sig).call_conv, shared_flags.enable_simd),
            ),
        },
{
    match lexicon_pointer_width(triple) {
        Some(Width::U16) | None => Err(CodegenError::Unsupported),
        Some(_) => {
            legalize_signature(sig, triple, current, shared_flags, isa_flags);
            Ok(())
        },
    }
}

} // verus!
