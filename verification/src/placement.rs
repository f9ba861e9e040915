//! What holds of the locations that a classification pass hands out: every
//! value gets one, no register is given twice, and stack offsets rise.

use crate::classify::{is_slot_offset, ArgAction, Cursor};
use crate::legalize::{legalized_list, legalized_value, with_type};
use crate::registers::{RegUnit, XMM0};
use crate::signature::{params_wf, AbiParam, ArgumentLoc};
use vstd::prelude::*;

verus! {

/// Does the convention pin `p` to a fixed register, whatever the pools hold?
pub open spec fn is_pinned(c: Cursor, p: AbiParam) -> bool {
    p.value_type.is_int() && c.pinned_reg(p.purpose) is Some
}

/// `after` is a state that a pass reaches from `before`: the same pools and
/// settings, with no counter and no offset gone back.
pub open spec fn advanced(before: Cursor, after: Cursor) -> bool {
    &&& after.pointer_bits == before.pointer_bits
    &&& after.gpr == before.gpr
    &&& after.fpr_limit == before.fpr_limit
    &&& after.call_conv == before.call_conv
    &&& after.simd == before.simd
    &&& before.gpr_used <= after.gpr_used
    &&& before.fpr_used <= after.fpr_used
    &&& before.offset <= after.offset
}

/// Is `unit` one of the registers that the pools gave up between the two
/// states?
pub open spec fn drawn(before: Cursor, after: Cursor, unit: RegUnit) -> bool {
    ||| exists|k: int| before.gpr_used <= k < after.gpr_used && #[trigger] before.gpr[k] == unit
    ||| XMM0 + before.fpr_used <= unit < XMM0 + after.fpr_used
}

/// The entries of `list` are placed as a pass places them between the two
/// states: each has a location; each register that is not pinned was drawn
/// from the pools, and no two entries hold the same one; each stack offset
/// is a multiple of the slot size between the two states' offsets, and the
/// offsets rise strictly along the list.
pub open spec fn placed(list: Seq<AbiParam>, before: Cursor, after: Cursor) -> bool {
    &&& forall|i: int| 0 <= i < list.len() ==> (#[trigger] list[i]).location.is_assigned()
    &&& forall|i: int|
        0 <= i < list.len() && (#[trigger] list[i]).location is Reg && !is_pinned(before, list[i])
            ==> drawn(before, after, list[i].location->Reg_0)
    &&& forall|i: int, j: int|
        0 <= i < j < list.len() && (#[trigger] list[i]).location is Reg && (
        #[trigger] list[j]).location is Reg && !is_pinned(before, list[i]) && !is_pinned(
            before,
            list[j],
        ) ==> list[i].location->Reg_0 != list[j].location->Reg_0
    &&& forall|i: int|
        0 <= i < list.len() && (#[trigger] list[i]).location is Stack ==> {
            &&& before.offset <= list[i].location->Stack_0 < after.offset
            &&& is_slot_offset(list[i].location->Stack_0 as int, before.pointer_bits)
        }
    &&& forall|i: int, j: int|
        0 <= i < j < list.len() && (#[trigger] list[i]).location is Stack && (
        #[trigger] list[j]).location is Stack ==> list[i].location->Stack_0
            < list[j].location->Stack_0
}

/// What was placed between two states, followed by what was placed between
/// the second and a third, is placed between the first and the third.
pub proof fn lemma_placed_concat(
    a: Seq<AbiParam>,
    b: Seq<AbiParam>,
    c0: Cursor,
    c1: Cursor,
    c2: Cursor,
)
    requires
        c0.wf(),
        advanced(c0, c1),
        advanced(c1, c2),
        c1.gpr_used <= c1.gpr.len(),
        c2.gpr_used <= c2.gpr.len(),
        placed(a, c0, c1),
        placed(b, c1, c2),
    ensures
        placed(a + b, c0, c2),
        advanced(c0, c2),
{
    let ab = a + b;
    assert forall|i: int| 0 <= i < ab.len() implies (#[trigger] ab[i]).location.is_assigned() by {
        if i < a.len() {
            assert(ab[i] == a[i]);
        } else {
            assert(ab[i] == b[i - a.len()]);
        }
    }
    assert forall|i: int|
        0 <= i < ab.len() && (#[trigger] ab[i]).location is Reg && !is_pinned(
            c0,
            ab[i],
        ) implies drawn(c0, c2, ab[i].location->Reg_0) by {
        if i < a.len() {
            assert(ab[i] == a[i]);
            assert(drawn(c0, c1, a[i].location->Reg_0));
        } else {
            assert(ab[i] == b[i - a.len()]);
            assert(drawn(c1, c2, b[i - a.len()].location->Reg_0));
        }
    }
    assert forall|i: int, j: int|
        0 <= i < j < ab.len() && (#[trigger] ab[i]).location is Reg && (
        #[trigger] ab[j]).location is Reg && !is_pinned(c0, ab[i]) && !is_pinned(
            c0,
            ab[j],
        ) implies ab[i].location->Reg_0 != ab[j].location->Reg_0 by {
        if j < a.len() {
            assert(ab[i] == a[i] && ab[j] == a[j]);
        } else if i >= a.len() {
            assert(ab[i] == b[i - a.len()] && ab[j] == b[j - a.len()]);
        } else {
            assert(ab[i] == a[i] && ab[j] == b[j - a.len()]);
            assert(drawn(c0, c1, a[i].location->Reg_0));
            assert(drawn(c1, c2, b[j - a.len()].location->Reg_0));
        }
    }
    assert forall|i: int| 0 <= i < ab.len() && (#[trigger] ab[i]).location is Stack implies {
        &&& c0.offset <= ab[i].location->Stack_0 < c2.offset
        &&& is_slot_offset(ab[i].location->Stack_0 as int, c0.pointer_bits)
    } by {
        if i < a.len() {
            assert(ab[i] == a[i]);
        } else {
            assert(ab[i] == b[i - a.len()]);
        }
    }
    assert forall|i: int, j: int|
        0 <= i < j < ab.len() && (#[trigger] ab[i]).location is Stack && (
        #[trigger] ab[j]).location is Stack implies ab[i].location->Stack_0
        < ab[j].location->Stack_0 by {
        if j < a.len() {
            assert(ab[i] == a[i] && ab[j] == a[j]);
        } else if i >= a.len() {
            assert(ab[i] == b[i - a.len()] && ab[j] == b[j - a.len()]);
        } else {
            assert(ab[i] == a[i] && ab[j] == b[j - a.len()]);
        }
    }
}

/// A value to which the classifier assigns a location is placed by that one
/// step.
pub proof fn lemma_assigned_placed(c: Cursor, p: AbiParam)
    requires
        c.wf(),
        p.wf(),
        c.assign(p).0 is Assign,
        c.assign(p).1.offset <= i32::MAX,
    ensures
        placed(seq![AbiParam { location: c.assign(p).0->Assign_0, ..p }], c, c.assign(p).1),
        advanced(c, c.assign(p).1),
        c.assign(p).1.wf(),
{
    let (action, c1) = c.assign(p);
    let loc = action->Assign_0;
    let e = AbiParam { location: loc, ..p };
    let list = seq![e];
    assert(list[0] == e);
    if loc is Reg && !is_pinned(c, e) {
        let unit = loc->Reg_0;
        if unit < XMM0 {
            assert(c.gpr[c.gpr_used] == unit);
        }
        assert(drawn(c, c1, unit));
    }
}

/// A value that the classifier asks to extend is assigned a location when
/// it is presented again at pointer width.
pub proof fn lemma_extended_is_assigned(c: Cursor, p: AbiParam)
    requires
        c.wf(),
        p.wf(),
        c.assign(p).0 matches ArgAction::Convert(conv) && !conv.is_split(),
    ensures
        c.assign(p).1 == c,
        c.assign(p).0->Convert_0.spec_apply(p.value_type) == Some(c.pointer_type()),
        c.assign(with_type(p, c.pointer_type())).0 is Assign,
        with_type(p, c.pointer_type()).wf(),
{
    let ty = c.pointer_type();
    assert(ty.lanes == 1);
    assert(ty.spec_bits() == c.pointer_bits) by {
        assert(ty.lane_bits * 1 == ty.lane_bits);
    }
    assert(!ty.is_vector());
    assert(ty.is_int());
}

/// Legalizing a value places all that it becomes, and leaves the classifier
/// in a state that a pass can be in.
pub proof fn lemma_value_placed(c: Cursor, p: AbiParam)
    requires
        c.wf(),
        p.wf(),
        legalized_value(c, p).1.offset <= i32::MAX,
    ensures
        placed(legalized_value(c, p).0, c, legalized_value(c, p).1),
        advanced(c, legalized_value(c, p).1),
        legalized_value(c, p).1.wf(),
        params_wf(legalized_value(c, p).0),
    decreases p.value_type.lane_bits + p.value_type.lanes,
{
    let (action, c1) = c.assign(p);
    match action {
        ArgAction::Assign(loc) => {
            lemma_assigned_placed(c, p);
            assert(legalized_value(c, p).0[0].wf());
        },
        ArgAction::Convert(conv) => {
            let ty = conv.spec_apply(p.value_type).unwrap();
            let q = with_type(p, ty);
            if conv.is_split() {
                let (lo, c2) = legalized_value(c1, q);
                let (hi, c3) = legalized_value(c2, q);
                crate::legalize::lemma_value_offset_grows(c2, q);
                lemma_value_placed(c1, q);
                lemma_value_placed(c2, q);
                lemma_placed_concat(lo, hi, c, c2, c3);
                assert forall|i: int| 0 <= i < (lo + hi).len() implies (#[trigger] (lo
                    + hi)[i]).wf() by {
                    if i < lo.len() {
                        assert((lo + hi)[i] == lo[i]);
                    } else {
                        assert((lo + hi)[i] == hi[i - lo.len()]);
                    }
                }
            } else {
                lemma_extended_is_assigned(c, p);
                lemma_assigned_placed(c1, q);
                assert(legalized_value(c, p).0[0].wf());
            }
        },
    }
}

/// Has no entry of the list a location yet?
pub open spec fn none_assigned(list: Seq<AbiParam>) -> bool {
    forall|i: int| 0 <= i < list.len() ==> !(#[trigger] list[i]).location.is_assigned()
}

/// Legalizing a list in which no entry has a location places every entry of
/// the result, and leaves the classifier in a state that a pass can be in.
pub proof fn lemma_list_placed(list: Seq<AbiParam>, c: Cursor)
    requires
        c.wf(),
        params_wf(list),
        none_assigned(list),
        legalized_list(list, c).1.offset <= i32::MAX,
    ensures
        placed(legalized_list(list, c).0, c, legalized_list(list, c).1),
        advanced(c, legalized_list(list, c).1),
        legalized_list(list, c).1.wf(),
        params_wf(legalized_list(list, c).0),
    decreases list.len(),
{
    if list.len() > 0 {
        let shorter = list.drop_last();
        let (init, c1) = legalized_list(shorter, c);
        let (pieces, c2) = legalized_value(c1, list.last());
        crate::legalize::lemma_value_offset_grows(c1, list.last());
        assert forall|i: int| 0 <= i < shorter.len() implies (#[trigger] shorter[i]).wf() && !(
        shorter[i]).location.is_assigned() by {
            assert(shorter[i] == list[i]);
        }
        lemma_list_placed(shorter, c);
        lemma_value_placed(c1, list.last());
        lemma_placed_concat(init, pieces, c, c1, c2);
        assert forall|i: int| 0 <= i < (init + pieces).len() implies (#[trigger] (init
            + pieces)[i]).wf() by {
            if i < init.len() {
                assert((init + pieces)[i] == init[i]);
            } else {
                assert((init + pieces)[i] == pieces[i - init.len()]);
            }
        }
    }
}

/// Legalizing any list gives every entry a location and a valid type, and
/// leaves the classifier in a state that a pass can be in.
pub proof fn lemma_list_assigned(list: Seq<AbiParam>, c: Cursor)
    requires
        c.wf(),
        params_wf(list),
        legalized_list(list, c).1.offset <= i32::MAX,
    ensures
        crate::legalize::all_assigned(legalized_list(list, c).0),
        advanced(c, legalized_list(list, c).1),
        legalized_list(list, c).1.wf(),
        params_wf(legalized_list(list, c).0),
    decreases list.len(),
{
    if list.len() > 0 {
        let shorter = list.drop_last();
        let last = list.last();
        let (init, c1) = legalized_list(shorter, c);
        assert forall|i: int| 0 <= i < shorter.len() implies (#[trigger] shorter[i]).wf() by {
            assert(shorter[i] == list[i]);
        }
        if last.location.is_assigned() {
            lemma_list_assigned(shorter, c);
            let out = init.push(last);
            assert forall|i: int| 0 <= i < out.len() implies (#[trigger] out[i]).wf()
                && out[i].location.is_assigned() by {
                if i < init.len() {
                    assert(out[i] == init[i]);
                }
            }
        } else {
            let (pieces, c2) = legalized_value(c1, last);
            crate::legalize::lemma_value_offset_grows(c1, last);
            lemma_list_assigned(shorter, c);
            lemma_value_placed(c1, last);
            let out = init + pieces;
            assert forall|i: int| 0 <= i < out.len() implies (#[trigger] out[i]).wf()
                && out[i].location.is_assigned() by {
                if i < init.len() {
                    assert(out[i] == init[i]);
                } else {
                    assert(out[i] == pieces[i - init.len()]);
                }
            }
        }
    }
}

/// Every entry of the list that the convention pins holds the register
/// that its purpose is pinned to.
pub open spec fn pins_held(list: Seq<AbiParam>, c: Cursor) -> bool {
    forall|i: int|
        0 <= i < list.len() && is_pinned(c, #[trigger] list[i]) ==> list[i].location
            == ArgumentLoc::Reg(c.pinned_reg(list[i].purpose).unwrap())
}

/// What a value without a location becomes holds the pinned register
/// wherever the convention pins it.
pub proof fn lemma_value_pins_held(c: Cursor, p: AbiParam)
    requires
        c.wf(),
        p.wf(),
        !p.location.is_assigned(),
        legalized_value(c, p).1.offset <= i32::MAX,
    ensures
        pins_held(legalized_value(c, p).0, c),
    decreases p.value_type.lane_bits + p.value_type.lanes,
{
    let (action, c1) = c.assign(p);
    match action {
        ArgAction::Assign(loc) => {
            assert(legalized_value(c, p).0[0] == AbiParam { location: loc, ..p });
        },
        ArgAction::Convert(conv) => {
            let ty = conv.spec_apply(p.value_type).unwrap();
            let q = with_type(p, ty);
            if conv.is_split() {
                let (lo, c2) = legalized_value(c1, q);
                let (hi, c3) = legalized_value(c2, q);
                crate::legalize::lemma_value_offset_grows(c2, q);
                lemma_value_placed(c1, q);
                lemma_value_pins_held(c1, q);
                lemma_value_pins_held(c2, q);
                assert forall|i: int| 0 <= i < (lo + hi).len() && is_pinned(
                    c,
                    #[trigger] (lo + hi)[i],
                ) implies (lo + hi)[i].location == ArgumentLoc::Reg(
                    c.pinned_reg((lo + hi)[i].purpose).unwrap(),
                ) by {
                    if i < lo.len() {
                        assert((lo + hi)[i] == lo[i]);
                    } else {
                        assert((lo + hi)[i] == hi[i - lo.len()]);
                    }
                }
            } else {
                lemma_extended_is_assigned(c, p);
                assert(legalized_value(c, p).0[0] == crate::legalize::settled(
                    q,
                    c1.assign(q).0,
                ));
            }
        },
    }
}

/// A legalized list in which no entry had a location holds the pinned
/// register wherever the convention pins an entry.
pub proof fn lemma_list_pins_held(list: Seq<AbiParam>, c: Cursor)
    requires
        c.wf(),
        params_wf(list),
        none_assigned(list),
        legalized_list(list, c).1.offset <= i32::MAX,
    ensures
        pins_held(legalized_list(list, c).0, c),
    decreases list.len(),
{
    if list.len() > 0 {
        let shorter = list.drop_last();
        let (init, c1) = legalized_list(shorter, c);
        let (pieces, c2) = legalized_value(c1, list.last());
        crate::legalize::lemma_value_offset_grows(c1, list.last());
        assert forall|i: int| 0 <= i < shorter.len() implies (#[trigger] shorter[i]).wf() && !(
        shorter[i]).location.is_assigned() by {
            assert(shorter[i] == list[i]);
        }
        lemma_list_pins_held(shorter, c);
        lemma_list_assigned(shorter, c);
        lemma_value_pins_held(c1, list.last());
        assert forall|i: int| 0 <= i < (init + pieces).len() && is_pinned(
            c,
            #[trigger] (init + pieces)[i],
        ) implies (init + pieces)[i].location == ArgumentLoc::Reg(
            c.pinned_reg((init + pieces)[i].purpose).unwrap(),
        ) by {
            if i < init.len() {
                assert((init + pieces)[i] == init[i]);
            } else {
                assert((init + pieces)[i] == pieces[i - init.len()]);
            }
        }
    }
}

} // verus!
