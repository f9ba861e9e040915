//! Laws of signature legalization: what holds of every legalized signature.

use crate::classify::{is_slot_offset, ArgAction, Cursor};
use crate::estimate::{registers_required, registers_required_by};
use crate::legalize::{
    all_assigned, legalized_list, legalized_value, lemma_assigned_list_unchanged,
    lemma_value_offset_grows, with_type,
};
use crate::legalizer::{
    can_legalize, in_registers, legalized_signature, needs_struct_return, param_cursor, prepared,
    return_cursor, return_pointer,
};
use crate::placement::{
    drawn, is_pinned, lemma_extended_is_assigned, lemma_list_assigned, lemma_list_placed,
    lemma_value_placed, none_assigned, placed,
};
use crate::registers::RegClass;
use crate::signature::{
    params_wf, AbiParam, ArgumentExtension, ArgumentLoc, ArgumentPurpose, SignatureView,
};
use crate::target::Width;
use crate::callconv::CallConv;
use vstd::prelude::*;

verus! {

/// A list as legalization leaves it: every entry has a location; two entries
/// that the convention does not pin by their purpose never hold the same
/// register; every stack offset is a non-negative multiple of the pointer
/// size, and the offsets rise strictly along the list.
pub open spec fn well_placed(list: Seq<AbiParam>, c: Cursor) -> bool {
    &&& all_assigned(list)
    &&& forall|i: int, j: int|
        0 <= i < j < list.len() && (#[trigger] list[i]).location is Reg && (
        #[trigger] list[j]).location is Reg && !is_pinned(c, list[i]) && !is_pinned(c, list[j])
            ==> list[i].location->Reg_0 != list[j].location->Reg_0
    &&& forall|i: int|
        0 <= i < list.len() && (#[trigger] list[i]).location is Stack ==> {
            &&& 0 <= list[i].location->Stack_0
            &&& is_slot_offset(list[i].location->Stack_0 as int, c.pointer_bits)
        }
    &&& forall|i: int, j: int|
        0 <= i < j < list.len() && (#[trigger] list[i]).location is Stack && (
        #[trigger] list[j]).location is Stack ==> list[i].location->Stack_0
            < list[j].location->Stack_0
}

/// The pointer to the place for the return values, in the register that the
/// classifier hands out next.
pub open spec fn placed_return_pointer(c: Cursor) -> AbiParam {
    AbiParam {
        value_type: c.pointer_type(),
        purpose: ArgumentPurpose::StructReturn,
        extension: ArgumentExtension::Unextended,
        location: ArgumentLoc::Reg(c.gpr[c.gpr_used]),
    }
}

/// The classifier states with which both lists of a signature are legalized
/// under a convention are states that a pass can be in.
pub proof fn lemma_convention_cursors(width: Width, call_conv: CallConv, simd: bool)
    requires
        width != Width::U16,
    ensures
        param_cursor(width, call_conv, simd).wf(),
        return_cursor(width, call_conv, simd).wf(),
        param_cursor(width, call_conv, simd).pointer_bits == return_cursor(
            width,
            call_conv,
            simd,
        ).pointer_bits,
{
}

/// A list without an entry in a register keeps none of its entries when
/// only those in registers stay.
proof fn lemma_in_registers_none(list: Seq<AbiParam>)
    requires
        forall|i: int| 0 <= i < list.len() ==> !(#[trigger] list[i]).location.is_reg(),
    ensures
        in_registers(list) == Seq::<AbiParam>::empty(),
    decreases list.len(),
{
    if list.len() > 0 {
        let shorter = list.drop_last();
        assert forall|i: int| 0 <= i < shorter.len() implies !(
        #[trigger] shorter[i]).location.is_reg() by {
            assert(shorter[i] == list[i]);
        }
        lemma_in_registers_none(shorter);
    }
}

/// Where the return values go through memory: what the prepared signature
/// holds.
proof fn lemma_with_struct_return(sig: SignatureView, args: Cursor, rets: Cursor)
    requires
        args.wf(),
        rets.wf(),
        args.pointer_bits == rets.pointer_bits,
        needs_struct_return(sig.returns, rets),
        args.gpr_used < args.gpr.len(),
        rets.gpr_used < rets.gpr.len(),
    ensures
        prepared(sig, args, rets) == (
            SignatureView {
                params: sig.params.push(placed_return_pointer(args)),
                returns: in_registers(sig.returns).push(placed_return_pointer(rets)),
                call_conv: sig.call_conv,
            },
            args.take_gpr(),
            rets.take_gpr(),
        ),
        legalized_signature(sig, args, rets).params == legalized_list(
            sig.params,
            args.take_gpr(),
        ).0.push(placed_return_pointer(args)),
        legalized_signature(sig, args, rets).returns == in_registers(sig.returns).push(
            placed_return_pointer(rets),
        ),
        legalized_list(sig.params.push(placed_return_pointer(args)), args.take_gpr()).1
            == legalized_list(sig.params, args.take_gpr()).1,
        legalized_list(
            in_registers(sig.returns).push(placed_return_pointer(rets)),
            rets.take_gpr(),
        ).1 == rets.take_gpr(),
{
    let ptr = return_pointer(args.pointer_type());
    assert(args.assign(ptr) == (
        ArgAction::Assign(ArgumentLoc::Reg(args.gpr[args.gpr_used])),
        args.take_gpr(),
    ));
    assert(rets.assign(ptr) == (
        ArgAction::Assign(ArgumentLoc::Reg(rets.gpr[rets.gpr_used])),
        rets.take_gpr(),
    ));
    let param = placed_return_pointer(args);
    let ret = placed_return_pointer(rets);
    let with_ret = sig.returns.push(ret);
    assert(with_ret.drop_last() =~= sig.returns);
    assert(with_ret.last() == ret);
    let kept = in_registers(sig.returns).push(ret);
    assert(in_registers(with_ret) == kept);
    crate::legalizer::lemma_in_registers(sig.returns);
    assert(all_assigned(kept)) by {
        assert forall|i: int| 0 <= i < kept.len() implies (
        #[trigger] kept[i]).location.is_assigned() by {
            if i < kept.len() - 1 {
                assert(kept[i] == in_registers(sig.returns)[i]);
            }
        }
    }
    lemma_assigned_list_unchanged(kept, rets.take_gpr());
    let with_param = sig.params.push(param);
    assert(with_param.drop_last() =~= sig.params);
    assert(with_param.last() == param);
}

/// A signature of at most 8000 parameters and 8000 return values can be
/// legalized from the start of a pass, where its lists begin at an offset of
/// at most 32 bytes, if the pointer for return values through memory can be
/// placed where one is needed: no stack offset leaves the 32-bit range.
pub proof fn lemma_can_legalize(sig: SignatureView, args: Cursor, rets: Cursor)
    requires
        args.wf(),
        rets.wf(),
        args.pointer_bits == rets.pointer_bits,
        params_wf(sig.params),
        params_wf(sig.returns),
        sig.params.len() <= 8000,
        sig.returns.len() <= 8000,
        args.offset <= 32,
        rets.offset <= 32,
        needs_struct_return(sig.returns, rets) ==> {
            &&& crate::signature::last_with_purpose(sig.params, ArgumentPurpose::StructReturn)
                is None
            &&& args.gpr_used < args.gpr.len()
            &&& rets.gpr_used < rets.gpr.len()
        },
    ensures
        can_legalize(sig, args, rets),
{
    if needs_struct_return(sig.returns, rets) {
        lemma_with_struct_return(sig, args, rets);
        crate::legalize::lemma_list_offset_bound(sig.params, args.take_gpr());
    } else {
        crate::legalize::lemma_list_offset_bound(sig.params, args);
        crate::legalize::lemma_list_offset_bound(sig.returns, rets);
    }
}

/// Every entry of a legalized signature has an assigned location. Where no
/// entry had one before, no two entries of one list share a register, unless
/// the convention pins one of them by its purpose; and the stack offsets of
/// a list are non-negative multiples of the pointer size that rise strictly
/// in the order of the list.
pub proof fn law_locations_assigned(sig: SignatureView, args: Cursor, rets: Cursor)
    requires
        args.wf(),
        rets.wf(),
        args.pointer_bits == rets.pointer_bits,
        params_wf(sig.params),
        params_wf(sig.returns),
        can_legalize(sig, args, rets),
    ensures
        all_assigned(legalized_signature(sig, args, rets).params),
        all_assigned(legalized_signature(sig, args, rets).returns),
        params_wf(legalized_signature(sig, args, rets).params),
        params_wf(legalized_signature(sig, args, rets).returns),
        none_assigned(sig.params) ==> well_placed(
            legalized_signature(sig, args, rets).params,
            args,
        ),
        none_assigned(sig.returns) ==> well_placed(
            legalized_signature(sig, args, rets).returns,
            rets,
        ),
{
    let out = legalized_signature(sig, args, rets);
    if needs_struct_return(sig.returns, rets) {
        lemma_with_struct_return(sig, args, rets);
        let param = placed_return_pointer(args);
        let ret = placed_return_pointer(rets);
        let args1 = args.take_gpr();
        let (inner, after) = legalized_list(sig.params, args1);
        lemma_list_assigned(sig.params, args1);
        assert(out.params == inner.push(param));
        assert forall|i: int| 0 <= i < out.params.len() implies (
        #[trigger] out.params[i]).location.is_assigned() && out.params[i].wf() by {
            if i < inner.len() {
                assert(out.params[i] == inner[i]);
            }
        }
        crate::legalizer::lemma_in_registers(sig.returns);
        let kept = in_registers(sig.returns);
        assert forall|i: int| 0 <= i < out.returns.len() implies (
        #[trigger] out.returns[i]).location.is_assigned() && out.returns[i].wf() by {
            if i < kept.len() {
                assert(out.returns[i] == kept[i]);
                assert(sig.returns.contains(kept[i]));
            }
        }
        if none_assigned(sig.params) {
            lemma_list_placed(sig.params, args1);
            assert forall|i: int, j: int|
                0 <= i < j < out.params.len() && (#[trigger] out.params[i]).location is Reg && (
                #[trigger] out.params[j]).location is Reg && !is_pinned(args, out.params[i])
                    && !is_pinned(args, out.params[j]) implies out.params[i].location->Reg_0
                != out.params[j].location->Reg_0 by {
                assert(out.params[i] == inner[i]);
                if j < inner.len() {
                    assert(out.params[j] == inner[j]);
                } else {
                    assert(drawn(args1, after, inner[i].location->Reg_0));
                }
            }
            assert forall|i: int|
                0 <= i < out.params.len() && (#[trigger] out.params[i]).location is Stack implies {
                &&& 0 <= out.params[i].location->Stack_0
                &&& is_slot_offset(out.params[i].location->Stack_0 as int, args.pointer_bits)
            } by {
                assert(out.params[i] == inner[i]);
            }
            assert forall|i: int, j: int|
                0 <= i < j < out.params.len() && (#[trigger] out.params[i]).location is Stack && (
                #[trigger] out.params[j]).location is Stack implies out.params[i].location->Stack_0
                < out.params[j].location->Stack_0 by {
                assert(out.params[i] == inner[i]);
                assert(out.params[j] == inner[j]);
            }
        }
        if none_assigned(sig.returns) {
            lemma_in_registers_none(sig.returns);
            assert(out.returns =~= seq![ret]);
        }
    } else {
        lemma_list_assigned(sig.params, args);
        lemma_list_assigned(sig.returns, rets);
        if none_assigned(sig.params) {
            lemma_list_placed(sig.params, args);
        }
        if none_assigned(sig.returns) {
            lemma_list_placed(sig.returns, rets);
        }
    }
}

/// The return values go through memory if and only if they would take more
/// registers of either class than are there for them. Where they do, one
/// pointer is added as the last parameter, in the first register for
/// parameters, and one as the last return value, in the primary return
/// register; of the other return values only those that held a register
/// before stay, so that none stays where none held one. Where they do not,
/// both lists are legalized as they are.
pub proof fn law_struct_return(sig: SignatureView, args: Cursor, rets: Cursor)
    requires
        args.wf(),
        rets.wf(),
        args.pointer_bits == rets.pointer_bits,
        can_legalize(sig, args, rets),
    ensures
        needs_struct_return(sig.returns, rets) <==> registers_required(
            sig.returns,
            RegClass::GPR,
            rets.pointer_bits,
            rets.simd,
        ) > rets.gpr.len() - rets.gpr_used || registers_required(
            sig.returns,
            RegClass::FPR,
            rets.pointer_bits,
            rets.simd,
        ) > rets.fpr_limit - rets.fpr_used,
        needs_struct_return(sig.returns, rets) ==> {
            &&& legalized_signature(sig, args, rets).params == legalized_list(
                sig.params,
                args.take_gpr(),
            ).0.push(placed_return_pointer(args))
            &&& legalized_signature(sig, args, rets).returns == in_registers(sig.returns).push(
                placed_return_pointer(rets),
            )
            &&& (forall|i: int|
                0 <= i < sig.returns.len() ==> !(#[trigger] sig.returns[i]).location.is_reg())
                ==> legalized_signature(sig, args, rets).returns == seq![
                placed_return_pointer(rets),
            ]
        },
        !needs_struct_return(sig.returns, rets) ==> {
            &&& legalized_signature(sig, args, rets).params == legalized_list(sig.params, args).0
            &&& legalized_signature(sig, args, rets).returns == legalized_list(
                sig.returns,
                rets,
            ).0
        },
{
    if needs_struct_return(sig.returns, rets) {
        lemma_with_struct_return(sig, args, rets);
        if forall|i: int|
            0 <= i < sig.returns.len() ==> !(#[trigger] sig.returns[i]).location.is_reg() {
            lemma_in_registers_none(sig.returns);
            assert(legalized_signature(sig, args, rets).returns =~= seq![
                placed_return_pointer(rets),
            ]);
        }
    }
}

/// The registers that a list takes are those of its front and those of its
/// back.
proof fn lemma_registers_required_concat(
    a: Seq<AbiParam>,
    b: Seq<AbiParam>,
    class: RegClass,
    pointer_bits: int,
    simd: bool,
)
    ensures
        registers_required(a + b, class, pointer_bits, simd) == registers_required(
            a,
            class,
            pointer_bits,
            simd,
        ) + registers_required(b, class, pointer_bits, simd),
    decreases b.len(),
{
    if b.len() == 0 {
        assert(a + b =~= a);
    } else {
        assert((a + b).drop_last() =~= a + b.drop_last());
        assert((a + b).last() == b.last());
        lemma_registers_required_concat(a, b.drop_last(), class, pointer_bits, simd);
    }
}

/// The registers that a list of one entry takes are those of the entry.
proof fn lemma_registers_required_one(e: AbiParam, class: RegClass, pointer_bits: int, simd: bool)
    ensures
        registers_required(seq![e], class, pointer_bits, simd) == registers_required_by(
            e,
            class,
            pointer_bits,
            simd,
        ),
{
    let list = seq![e];
    assert(list.drop_last() =~= Seq::<AbiParam>::empty());
    assert(list.last() == e);
    assert(registers_required(list.drop_last(), class, pointer_bits, simd) == 0);
}

/// Lives no entry of the list in a register?
pub open spec fn none_in_registers(list: Seq<AbiParam>) -> bool {
    forall|i: int| 0 <= i < list.len() ==> !(#[trigger] list[i]).location.is_reg()
}

/// The register that the classifier hands out next is none that the
/// convention pins a purpose to.
pub open spec fn next_register_unpinned(c: Cursor) -> bool {
    forall|purpose: ArgumentPurpose|
        #[trigger] c.pinned_reg(purpose) != Some(c.gpr[c.gpr_used])
}

/// On a 64-bit target the registers that the conventions pin are not
/// among those that parameters are passed in.
pub proof fn lemma_convention_pins_outside_pool(call_conv: CallConv, simd: bool)
    ensures
        next_register_unpinned(param_cursor(Width::U64, call_conv, simd)),
{
    let c = param_cursor(Width::U64, call_conv, simd);
    assert(c.gpr[0] == crate::registers::RDI || c.gpr[0] == crate::registers::RCX);
}

/// Where the return values go through memory, the pointer to them is the
/// last parameter and has its register to itself: no other parameter of a
/// signature whose parameters had no location holds that register, pinned
/// or not, where the convention pins no purpose to it.
pub proof fn law_struct_return_register_is_exclusive(
    sig: SignatureView,
    args: Cursor,
    rets: Cursor,
)
    requires
        args.wf(),
        rets.wf(),
        args.pointer_bits == rets.pointer_bits,
        params_wf(sig.params),
        none_assigned(sig.params),
        needs_struct_return(sig.returns, rets),
        next_register_unpinned(args),
        can_legalize(sig, args, rets),
    ensures
        legalized_signature(sig, args, rets).params.len() >= 1,
        legalized_signature(sig, args, rets).params.last() == placed_return_pointer(args),
        forall|i: int|
            0 <= i < legalized_signature(sig, args, rets).params.len() - 1 ==> (
            #[trigger] legalized_signature(sig, args, rets).params[i]).location
                != placed_return_pointer(args).location,
{
    lemma_with_struct_return(sig, args, rets);
    let args1 = args.take_gpr();
    let (inner, after) = legalized_list(sig.params, args1);
    let out = legalized_signature(sig, args, rets).params;
    let unit = args.gpr[args.gpr_used];
    lemma_list_placed(sig.params, args1);
    crate::placement::lemma_list_pins_held(sig.params, args1);
    assert forall|i: int| 0 <= i < out.len() - 1 implies (#[trigger] out[i]).location
        != ArgumentLoc::Reg(unit) by {
        assert(out[i] == inner[i]);
        if inner[i].location is Reg {
            if is_pinned(args1, inner[i]) {
                assert(args.pinned_reg(inner[i].purpose) != Some(unit));
            } else {
                assert(drawn(args1, after, inner[i].location->Reg_0));
            }
        }
    }
}

/// Is `p` a vector of integers with a purpose that the convention pins to
/// a register?
pub open spec fn is_pinned_vector(p: AbiParam, c: Cursor) -> bool {
    p.value_type.is_vector() && p.value_type.kind == crate::types::LaneKind::Int && c.pinned_reg(
        p.purpose,
    ) is Some
}

/// Under a convention with one index for both kinds of register, and with
/// vectors enabled, no entry of the list without a location is a vector of
/// integers with a pinned purpose. Such a vector is counted as one float
/// register, and where none is left for it, each of its lanes gets the
/// pinned register.
pub open spec fn no_pinned_vector(list: Seq<AbiParam>, c: Cursor) -> bool {
    c.shares_index() && c.simd ==> forall|i: int|
        0 <= i < list.len() ==> !(!(#[trigger] list[i]).location.is_assigned() && is_pinned_vector(
            list[i],
            c,
        ))
}

/// A value that is no vector for which the float registers have run out
/// has, once it is legalized, no more entries in registers of either class
/// than the estimator counts for it.
proof fn lemma_value_within_estimate(c: Cursor, p: AbiParam)
    requires
        c.wf(),
        p.wf(),
        !p.location.is_assigned(),
        legalized_value(c, p).1.offset <= i32::MAX,
        !(p.value_type.is_vector() && c.simd && c.fpr_used >= c.fpr_limit),
    ensures
        registers_required(legalized_value(c, p).0, RegClass::GPR, c.pointer_bits, c.simd)
            <= registers_required_by(p, RegClass::GPR, c.pointer_bits, c.simd),
        registers_required(legalized_value(c, p).0, RegClass::FPR, c.pointer_bits, c.simd)
            <= registers_required_by(p, RegClass::FPR, c.pointer_bits, c.simd),
        !c.shares_index() ==> legalized_value(c, p).1.fpr_used - c.fpr_used
            <= registers_required_by(p, RegClass::FPR, c.pointer_bits, c.simd),
    decreases p.value_type.lane_bits + p.value_type.lanes,
{
    let (action, c1) = c.assign(p);
    let ty = p.value_type;
    match action {
        ArgAction::Assign(loc) => {
            let e = AbiParam { location: loc, ..p };
            lemma_registers_required_one(e, RegClass::GPR, c.pointer_bits, c.simd);
            lemma_registers_required_one(e, RegClass::FPR, c.pointer_bits, c.simd);
        },
        ArgAction::Convert(conv) => {
            let half = conv.spec_apply(ty).unwrap();
            let q = with_type(p, half);
            if conv.is_split() {
                let (lo, c2) = legalized_value(c1, q);
                let (hi, c3) = legalized_value(c2, q);
                lemma_value_offset_grows(c2, q);
                lemma_value_placed(c1, q);
                assert(crate::estimate::piece_class(half, c.simd) == crate::estimate::piece_class(
                    ty,
                    c.simd,
                ));
                lemma_value_within_estimate(c1, q);
                lemma_value_within_estimate(c2, q);
                lemma_registers_required_concat(lo, hi, RegClass::GPR, c.pointer_bits, c.simd);
                lemma_registers_required_concat(lo, hi, RegClass::FPR, c.pointer_bits, c.simd);
            } else {
                lemma_extended_is_assigned(c, p);
                let e = crate::legalize::settled(q, c1.assign(q).0);
                lemma_registers_required_one(e, RegClass::GPR, c.pointer_bits, c.simd);
                lemma_registers_required_one(e, RegClass::FPR, c.pointer_bits, c.simd);
            }
        },
    }
}

/// A value for which no register of either pool is left, and which the
/// convention does not pin, has no entry in a register once it is
/// legalized, and leaves the counters as they were.
proof fn lemma_value_without_registers(c: Cursor, p: AbiParam)
    requires
        c.wf(),
        p.wf(),
        !p.location.is_assigned(),
        legalized_value(c, p).1.offset <= i32::MAX,
        c.gpr_used >= c.gpr.len(),
        c.fpr_used >= c.fpr_limit,
        p.value_type.kind != crate::types::LaneKind::Int || c.pinned_reg(p.purpose) is None,
    ensures
        registers_required(legalized_value(c, p).0, RegClass::GPR, c.pointer_bits, c.simd) == 0,
        registers_required(legalized_value(c, p).0, RegClass::FPR, c.pointer_bits, c.simd) == 0,
        legalized_value(c, p).1.gpr_used == c.gpr_used,
        legalized_value(c, p).1.fpr_used == c.fpr_used,
    decreases p.value_type.lane_bits + p.value_type.lanes,
{
    let (action, c1) = c.assign(p);
    let ty = p.value_type;
    match action {
        ArgAction::Assign(loc) => {
            let e = AbiParam { location: loc, ..p };
            lemma_registers_required_one(e, RegClass::GPR, c.pointer_bits, c.simd);
            lemma_registers_required_one(e, RegClass::FPR, c.pointer_bits, c.simd);
        },
        ArgAction::Convert(conv) => {
            let half = conv.spec_apply(ty).unwrap();
            let q = with_type(p, half);
            if conv.is_split() {
                let (lo, c2) = legalized_value(c1, q);
                let (hi, c3) = legalized_value(c2, q);
                lemma_value_offset_grows(c2, q);
                lemma_value_placed(c1, q);
                lemma_value_without_registers(c1, q);
                lemma_value_without_registers(c2, q);
                lemma_registers_required_concat(lo, hi, RegClass::GPR, c.pointer_bits, c.simd);
                lemma_registers_required_concat(lo, hi, RegClass::FPR, c.pointer_bits, c.simd);
            } else {
                lemma_extended_is_assigned(c, p);
                let e = crate::legalize::settled(q, c1.assign(q).0);
                lemma_registers_required_one(e, RegClass::GPR, c.pointer_bits, c.simd);
                lemma_registers_required_one(e, RegClass::FPR, c.pointer_bits, c.simd);
            }
        },
    }
}

/// A list for which the estimator counts no more float registers than are
/// left has, once it is legalized, no more entries in registers of either
/// class than the estimator counts for it.
proof fn lemma_list_within_estimate(list: Seq<AbiParam>, c: Cursor)
    requires
        c.wf(),
        params_wf(list),
        no_pinned_vector(list, c),
        legalized_list(list, c).1.offset <= i32::MAX,
        c.fpr_used + registers_required(list, RegClass::FPR, c.pointer_bits, c.simd)
            <= c.fpr_limit,
    ensures
        registers_required(legalized_list(list, c).0, RegClass::GPR, c.pointer_bits, c.simd)
            <= registers_required(list, RegClass::GPR, c.pointer_bits, c.simd),
        registers_required(legalized_list(list, c).0, RegClass::FPR, c.pointer_bits, c.simd)
            <= registers_required(list, RegClass::FPR, c.pointer_bits, c.simd),
        !c.shares_index() ==> legalized_list(list, c).1.fpr_used - c.fpr_used
            <= registers_required(list, RegClass::FPR, c.pointer_bits, c.simd),
    decreases list.len(),
{
    if list.len() > 0 {
        let shorter = list.drop_last();
        let last = list.last();
        let (init, c1) = legalized_list(shorter, c);
        assert forall|i: int| 0 <= i < shorter.len() implies (#[trigger] shorter[i]).wf() by {
            assert(shorter[i] == list[i]);
        }
        assert(no_pinned_vector(shorter, c)) by {
            if c.shares_index() && c.simd {
                assert forall|i: int| 0 <= i < shorter.len() implies !(!(
                #[trigger] shorter[i]).location.is_assigned() && is_pinned_vector(
                    shorter[i],
                    c,
                )) by {
                    assert(shorter[i] == list[i]);
                }
            }
        }
        crate::legalize::lemma_list_offset_grows(list, c, list.len() - 1);
        assert(list.take(list.len() - 1) =~= shorter);
        lemma_list_within_estimate(shorter, c);
        lemma_list_assigned(shorter, c);
        if last.location.is_assigned() {
            let out = init.push(last);
            assert(out.drop_last() =~= init);
            assert(out.last() == last);
        } else {
            let (pieces, c2) = legalized_value(c1, last);
            lemma_registers_required_concat(init, pieces, RegClass::GPR, c.pointer_bits, c.simd);
            lemma_registers_required_concat(init, pieces, RegClass::FPR, c.pointer_bits, c.simd);
            assert(list[list.len() - 1] == last);
            if last.value_type.is_vector() && c1.simd && c1.fpr_used >= c1.fpr_limit {
                assert(c.shares_index());
                lemma_value_without_registers(c1, last);
            } else {
                lemma_value_within_estimate(c1, last);
            }
        }
    }
}

/// Where none of the return values is in a register, the pointer for
/// return values through memory is, with what stays beside it, within the
/// return registers.
pub proof fn lemma_pointer_alone_fits(sig: SignatureView, args: Cursor, rets: Cursor)
    requires
        rets.wf(),
        none_in_registers(sig.returns),
        rets.gpr_used < rets.gpr.len(),
    ensures
        !needs_struct_return(
            in_registers(sig.returns).push(placed_return_pointer(rets)),
            rets,
        ),
{
    lemma_in_registers_none(sig.returns);
    let ret = placed_return_pointer(rets);
    assert(in_registers(sig.returns).push(ret) =~= seq![ret]);
    lemma_registers_required_one(ret, RegClass::GPR, rets.pointer_bits, rets.simd);
    lemma_registers_required_one(ret, RegClass::FPR, rets.pointer_bits, rets.simd);
}

/// Legalization is idempotent: a legalized signature can be legalized again,
/// and that changes nothing. Two kinds of signature are left out, on which
/// a second pass does not leave the first as it is. One has return values
/// that were in registers before the first pass and that, kept beside the
/// pointer for return values through memory, take more registers than are
/// there; by `lemma_pointer_alone_fits` no signature whose return values
/// had no register is of this kind. The other has, under a convention with
/// one index for both kinds of register and with vectors enabled, a return
/// value that is a vector of integers with a pinned purpose.
pub proof fn law_idempotent(sig: SignatureView, args: Cursor, rets: Cursor)
    requires
        args.wf(),
        rets.wf(),
        args.pointer_bits == rets.pointer_bits,
        params_wf(sig.params),
        params_wf(sig.returns),
        needs_struct_return(sig.returns, rets) ==> !needs_struct_return(
            in_registers(sig.returns).push(placed_return_pointer(rets)),
            rets,
        ),
        no_pinned_vector(sig.returns, rets),
        can_legalize(sig, args, rets),
    ensures
        can_legalize(legalized_signature(sig, args, rets), args, rets),
        legalized_signature(legalized_signature(sig, args, rets), args, rets)
            == legalized_signature(sig, args, rets),
{
    let out = legalized_signature(sig, args, rets);
    law_locations_assigned(sig, args, rets);
    assert(!needs_struct_return(out.returns, rets)) by {
        if needs_struct_return(sig.returns, rets) {
            lemma_with_struct_return(sig, args, rets);
        } else {
            lemma_list_within_estimate(sig.returns, rets);
        }
    }
    lemma_assigned_list_unchanged(out.params, args);
    lemma_assigned_list_unchanged(out.returns, rets);
}

/// An integer wider than a pointer is split into as many values as there
/// are pointer widths in its width. Each is an integer as wide as a
/// pointer with the purpose and the extension of the whole, and each is
/// placed as any value of the pass is.
pub proof fn law_wide_integer_split(c: Cursor, p: AbiParam)
    requires
        c.wf(),
        p.wf(),
        p.value_type.is_int(),
        p.value_type.spec_bits() >= c.pointer_bits,
        legalized_value(c, p).1.offset <= i32::MAX,
    ensures
        legalized_value(c, p).0.len() * c.pointer_bits == p.value_type.spec_bits(),
        forall|i: int|
            0 <= i < legalized_value(c, p).0.len() ==> {
                &&& (#[trigger] legalized_value(c, p).0[i]).value_type == c.pointer_type()
                &&& legalized_value(c, p).0[i].purpose == p.purpose
                &&& legalized_value(c, p).0[i].extension == p.extension
            },
        placed(legalized_value(c, p).0, c, legalized_value(c, p).1),
    decreases p.value_type.lane_bits + p.value_type.lanes,
{
    lemma_value_placed(c, p);
    let (action, c1) = c.assign(p);
    let bits = p.value_type.lane_bits as int;
    assert(p.value_type.spec_bits() == bits) by {
        assert(p.value_type.lanes == 1);
    }
    if bits > c.pointer_bits {
        let half = p.value_type.spec_half_width().unwrap();
        let q = with_type(p, half);
        assert(half.spec_bits() == half.lane_bits) by {
            assert(half.lanes == 1);
        }
        let (lo, c2) = legalized_value(c1, q);
        let (hi, c3) = legalized_value(c2, q);
        lemma_value_offset_grows(c2, q);
        lemma_value_placed(c1, q);
        law_wide_integer_split(c1, q);
        law_wide_integer_split(c2, q);
        let out = lo + hi;
        assert(out.len() == lo.len() + hi.len());
        if c.pointer_bits == 64 {
            assert(out.len() * 64 == bits);
        } else {
            assert(out.len() * 32 == bits);
        }
        assert forall|i: int| 0 <= i < out.len() implies {
            &&& (#[trigger] out[i]).value_type == c.pointer_type()
            &&& out[i].purpose == p.purpose
            &&& out[i].extension == p.extension
        } by {
            if i < lo.len() {
                assert(out[i] == lo[i]);
            } else {
                assert(out[i] == hi[i - lo.len()]);
            }
        }
    } else {
        assert(action is Assign);
        assert(legalized_value(c, p).0.len() == 1);
    }
}

/// Is every entry of the list in a register?
pub open spec fn all_in_registers(list: Seq<AbiParam>) -> bool {
    forall|i: int| 0 <= i < list.len() ==> (#[trigger] list[i]).location.is_reg()
}

/// Where general and float registers are counted apart and enough of both
/// are left for a value, the value ends in registers alone and takes no
/// more registers than the estimator counts for it.
proof fn lemma_value_fits(c: Cursor, p: AbiParam)
    requires
        c.wf(),
        p.wf(),
        !c.shares_index(),
        !p.location.is_assigned(),
        c.gpr_used + registers_required_by(p, RegClass::GPR, c.pointer_bits, c.simd)
            <= c.gpr.len(),
        c.fpr_used + registers_required_by(p, RegClass::FPR, c.pointer_bits, c.simd)
            <= c.fpr_limit,
    ensures
        all_in_registers(legalized_value(c, p).0),
        legalized_value(c, p).1.gpr_used <= c.gpr_used + registers_required_by(
            p,
            RegClass::GPR,
            c.pointer_bits,
            c.simd,
        ),
        legalized_value(c, p).1.fpr_used <= c.fpr_used + registers_required_by(
            p,
            RegClass::FPR,
            c.pointer_bits,
            c.simd,
        ),
        legalized_value(c, p).1.offset == c.offset,
        legalized_value(c, p).1.wf(),
        crate::placement::advanced(c, legalized_value(c, p).1),
    decreases p.value_type.lane_bits + p.value_type.lanes,
{
    let (action, c1) = c.assign(p);
    let ty = p.value_type;
    crate::estimate::lemma_register_pieces_bounds(ty, c.pointer_bits, c.simd);
    match action {
        ArgAction::Assign(loc) => {
            assert(loc is Reg);
            assert(legalized_value(c, p).0[0].location == loc);
        },
        ArgAction::Convert(conv) => {
            let half = conv.spec_apply(ty).unwrap();
            let q = with_type(p, half);
            if conv.is_split() {
                crate::estimate::lemma_register_pieces_bounds(half, c.pointer_bits, c.simd);
                assert(crate::estimate::piece_class(half, c.simd) == crate::estimate::piece_class(
                    ty,
                    c.simd,
                ));
                lemma_value_fits(c1, q);
                let (lo, c2) = legalized_value(c1, q);
                lemma_value_fits(c2, q);
                let (hi, c3) = legalized_value(c2, q);
                assert forall|i: int| 0 <= i < (lo + hi).len() implies (#[trigger] (lo
                    + hi)[i]).location.is_reg() by {
                    if i < lo.len() {
                        assert((lo + hi)[i] == lo[i]);
                    } else {
                        assert((lo + hi)[i] == hi[i - lo.len()]);
                    }
                }
            } else {
                lemma_extended_is_assigned(c, p);
                let again = c1.assign(q).0;
                assert(again->Assign_0 is Reg);
                assert(legalized_value(c, p).0[0].location == again->Assign_0);
            }
        },
    }
}

/// Where enough registers are left for a list, every entry of the list
/// that had no location ends in registers alone.
proof fn lemma_list_fits(list: Seq<AbiParam>, c: Cursor)
    requires
        c.wf(),
        params_wf(list),
        !c.shares_index(),
        none_assigned(list),
        c.gpr_used + registers_required(list, RegClass::GPR, c.pointer_bits, c.simd)
            <= c.gpr.len(),
        c.fpr_used + registers_required(list, RegClass::FPR, c.pointer_bits, c.simd)
            <= c.fpr_limit,
    ensures
        all_in_registers(legalized_list(list, c).0),
        legalized_list(list, c).1.gpr_used <= c.gpr_used + registers_required(
            list,
            RegClass::GPR,
            c.pointer_bits,
            c.simd,
        ),
        legalized_list(list, c).1.fpr_used <= c.fpr_used + registers_required(
            list,
            RegClass::FPR,
            c.pointer_bits,
            c.simd,
        ),
        legalized_list(list, c).1.offset == c.offset,
        legalized_list(list, c).1.wf(),
        crate::placement::advanced(c, legalized_list(list, c).1),
    decreases list.len(),
{
    if list.len() > 0 {
        let shorter = list.drop_last();
        let last = list.last();
        assert forall|i: int| 0 <= i < shorter.len() implies (#[trigger] shorter[i]).wf() && !(
        shorter[i]).location.is_assigned() by {
            assert(shorter[i] == list[i]);
        }
        lemma_list_fits(shorter, c);
        let (init, c1) = legalized_list(shorter, c);
        assert(!last.location.is_assigned());
        lemma_value_fits(c1, last);
        let pieces = legalized_value(c1, last).0;
        assert forall|i: int| 0 <= i < (init + pieces).len() implies (#[trigger] (init
            + pieces)[i]).location.is_reg() by {
            if i < init.len() {
                assert((init + pieces)[i] == init[i]);
            } else {
                assert((init + pieces)[i] == pieces[i - init.len()]);
            }
        }
    }
}

/// Return values go through memory only where they cannot fit: under a
/// convention that counts general and float registers apart, a signature
/// whose return values have no location yet and do not take more registers
/// than are there has every return value in a register once it is legalized,
/// and none on the stack.
pub proof fn law_fitting_returns_stay_in_registers(sig: SignatureView, args: Cursor, rets: Cursor)
    requires
        args.wf(),
        rets.wf(),
        args.pointer_bits == rets.pointer_bits,
        params_wf(sig.returns),
        none_assigned(sig.returns),
        !rets.shares_index(),
        !needs_struct_return(sig.returns, rets),
    ensures
        all_in_registers(legalized_signature(sig, args, rets).returns),
        legalized_signature(sig, args, rets).returns == legalized_list(sig.returns, rets).0,
{
    lemma_list_fits(sig.returns, rets);
}

} // verus!
