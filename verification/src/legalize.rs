//! Legalization of a parameter or return list: every value without a
//! location is presented to the classifier, converted as often as the
//! classifier asks, and given the location that it decides.

use crate::classify::{ArgAction, Args, Cursor};
use crate::signature::{params_wf, AbiParam, ArgumentLoc};
use crate::types::Type;
use vstd::prelude::*;

verus! {

/// `p` at the location `loc`.
pub open spec fn with_location(p: AbiParam, loc: ArgumentLoc) -> AbiParam {
    AbiParam { location: loc, ..p }
}

/// `p` with the type `ty`.
pub open spec fn with_type(p: AbiParam, ty: Type) -> AbiParam {
    AbiParam { value_type: ty, ..p }
}

/// `p` after the classifier's decision: at its location where it got one.
pub open spec fn settled(p: AbiParam, action: ArgAction) -> AbiParam {
    match action {
        ArgAction::Assign(loc) => with_location(p, loc),
        ArgAction::Convert(_) => p,
    }
}

/// What one value becomes, and the classifier's state after it.
///
/// A value that gets a location stays one entry. A value that must be split
/// becomes the entries of its first half followed by those of its second
/// half, each half presented in turn. A value that must be extended is
/// presented once more at pointer width.
pub open spec fn legalized_value(c: Cursor, p: AbiParam) -> (Seq<AbiParam>, Cursor)
    decreases p.value_type.lane_bits + p.value_type.lanes,
{
    let (action, c1) = c.assign(p);
    match action {
        ArgAction::Assign(loc) => (seq![with_location(p, loc)], c1),
        ArgAction::Convert(conv) => match conv.spec_apply(p.value_type) {
            Some(ty) => {
                let q = with_type(p, ty);
                if conv.is_split() {
                    let (lo, c2) = legalized_value(c1, q);
                    let (hi, c3) = legalized_value(c2, q);
                    (lo + hi, c3)
                } else {
                    let (again, c2) = c1.assign(q);
                    (seq![settled(q, again)], c2)
                }
            },
            None => (seq![p], c1),
        },
    }
}

/// What a list becomes, and the classifier's state after it: entries that
/// have a location stay as they are, and each of the others is replaced, in
/// its place, by what `legalized_value` makes of it.
pub open spec fn legalized_list(list: Seq<AbiParam>, c: Cursor) -> (Seq<AbiParam>, Cursor)
    decreases list.len(),
{
    if list.len() == 0 {
        (Seq::empty(), c)
    } else {
        let (init, c1) = legalized_list(list.drop_last(), c);
        let last = list.last();
        if last.location.is_assigned() {
            (init.push(last), c1)
        } else {
            let (pieces, c2) = legalized_value(c1, last);
            (init + pieces, c2)
        }
    }
}

/// Has every entry of the list a location?
pub open spec fn all_assigned(list: Seq<AbiParam>) -> bool {
    forall|i: int| 0 <= i < list.len() ==> (#[trigger] list[i]).location.is_assigned()
}

/// The stack offset never goes back while a value is legalized.
pub proof fn lemma_value_offset_grows(c: Cursor, p: AbiParam)
    ensures
        c.offset <= legalized_value(c, p).1.offset,
    decreases p.value_type.lane_bits + p.value_type.lanes,
{
    let (action, c1) = c.assign(p);
    if let ArgAction::Convert(conv) = action {
        if let Some(ty) = conv.spec_apply(p.value_type) {
            let q = with_type(p, ty);
            if conv.is_split() {
                lemma_value_offset_grows(c1, q);
                lemma_value_offset_grows(legalized_value(c1, q).1, q);
            }
        }
    }
}

/// The stack offset after a prefix of a list is at most that after the
/// whole list.
pub proof fn lemma_list_offset_grows(list: Seq<AbiParam>, c: Cursor, n: int)
    requires
        0 <= n <= list.len(),
    ensures
        c.offset <= legalized_list(list.take(n), c).1.offset <= legalized_list(list, c).1.offset,
    decreases list.len(),
{
    if list.len() == 0 {
        assert(list.take(n) =~= list);
    } else if n == list.len() {
        assert(list.take(n) =~= list);
        lemma_list_offset_grows(list.drop_last(), c, n - 1);
        lemma_value_offset_grows(legalized_list(list.drop_last(), c).1, list.last());
    } else {
        assert(list.drop_last().take(n) =~= list.take(n));
        lemma_list_offset_grows(list.drop_last(), c, n);
        lemma_value_offset_grows(legalized_list(list.drop_last(), c).1, list.last());
    }
}

/// Legalizing a value moves the stack offset by at most one slot of eight
/// bytes for each bit of the value.
pub proof fn lemma_value_offset_bound(c: Cursor, p: AbiParam)
    requires
        p.wf(),
    ensures
        legalized_value(c, p).1.offset <= c.offset + 8 * p.value_type.spec_bits(),
    decreases p.value_type.lane_bits + p.value_type.lanes,
{
    let (action, c1) = c.assign(p);
    let bits = p.value_type.lane_bits as int;
    let lanes = p.value_type.lanes as int;
    assert(bits * lanes >= 1) by (nonlinear_arith)
        requires
            bits >= 1,
            lanes >= 1,
    ;
    if let ArgAction::Convert(conv) = action {
        if let Some(ty) = conv.spec_apply(p.value_type) {
            let q = with_type(p, ty);
            if conv.is_split() {
                let c2 = legalized_value(c1, q).1;
                lemma_value_offset_bound(c1, q);
                lemma_value_offset_bound(c2, q);
                let half_bits = ty.lane_bits as int;
                let half_lanes = ty.lanes as int;
                assert(2 * (half_bits * half_lanes) <= bits * lanes) by (nonlinear_arith)
                    requires
                        (2 * half_bits == bits && half_lanes == lanes) || (half_bits == bits && 2
                            * half_lanes == lanes),
                        bits >= 0,
                        lanes >= 0,
                ;
            }
        }
    }
}

/// Legalizing a list moves the stack offset by at most 262144 bytes for each
/// of its entries, which is what a value of the widest type can take.
pub proof fn lemma_list_offset_bound(list: Seq<AbiParam>, c: Cursor)
    requires
        params_wf(list),
    ensures
        legalized_list(list, c).1.offset <= c.offset + 262144 * list.len(),
    decreases list.len(),
{
    if list.len() > 0 {
        let shorter = list.drop_last();
        assert forall|i: int| 0 <= i < shorter.len() implies (#[trigger] shorter[i]).wf() by {
            assert(shorter[i] == list[i]);
        }
        lemma_list_offset_bound(shorter, c);
        let last = list.last();
        lemma_value_offset_bound(legalized_list(shorter, c).1, last);
        let bits = last.value_type.lane_bits as int;
        let lanes = last.value_type.lanes as int;
        assert(bits * lanes <= 128 * 256) by (nonlinear_arith)
            requires
                0 <= bits <= 128,
                0 <= lanes <= 256,
        ;
    }
}

/// A list in which every entry has a location is left as it is.
pub proof fn lemma_assigned_list_unchanged(list: Seq<AbiParam>, c: Cursor)
    requires
        all_assigned(list),
    ensures
        legalized_list(list, c) == (list, c),
    decreases list.len(),
{
    if list.len() > 0 {
        lemma_assigned_list_unchanged(list.drop_last(), c);
        assert(list.drop_last().push(list.last()) =~= list);
    } else {
        assert(list =~= Seq::empty());
    }
}

/// Presents `arg` to the classifier until all of it has a location, and
/// appends the resulting entries to `out`.
pub fn legalize_value(aa: &mut Args, arg: AbiParam, out: &mut Vec<AbiParam>)
    requires
        old(aa).wf(),
        arg.wf(),
        legalized_value(old(aa)@, arg).1.offset <= i32::MAX,
    ensures
        final(aa).wf(),
        final(aa).same_setup(*old(aa)),
        final(aa)@ == legalized_value(old(aa)@, arg).1,
        final(out)@ == old(out)@ + legalized_value(old(aa)@, arg).0,
    decreases arg.value_type.lane_bits + arg.value_type.lanes,
{
    let ghost c = aa@;
    proof {
        lemma_value_offset_grows(c, arg);
        let (action, c1) = c.assign(arg);
        if let ArgAction::Convert(conv) = action {
            if conv.is_split() {
                let q = with_type(arg, conv.spec_apply(arg.value_type).unwrap());
                lemma_value_offset_grows(c1, q);
                lemma_value_offset_grows(legalized_value(c1, q).1, q);
            }
        }
    }
    match aa.assign(&arg) {
        ArgAction::Assign(loc) => {
            out.push(AbiParam { location: loc, ..arg });
        },
        ArgAction::Convert(conv) => {
            let value_type = conv.apply(arg.value_type);
            let new_arg = AbiParam { value_type, ..arg };
            if conv.is_split() {
                legalize_value(aa, new_arg, out);
                legalize_value(aa, new_arg, out);
                assert(out@ == old(out)@ + legalized_value(c, arg).0);
            } else {
                match aa.assign(&new_arg) {
                    ArgAction::Assign(loc) => {
                        out.push(AbiParam { location: loc, ..new_arg });
                    },
                    ArgAction::Convert(_) => {
                        out.push(new_arg);
                    },
                }
            }
        },
    }
}

/// Gives every entry of `args` that has none a location, converting values
/// as the classifier asks. Returns the new list, or `None` where every entry
/// had a location already and nothing changes.
pub fn legalize_args(args: &Vec<AbiParam>, aa: &mut Args) -> (r: Option<Vec<AbiParam>>)
    requires
        old(aa).wf(),
        params_wf(args@),
        legalized_list(args@, old(aa)@).1.offset <= i32::MAX,
    ensures
        final(aa).wf(),
        final(aa).same_setup(*old(aa)),
        final(aa)@ == legalized_list(args@, old(aa)@).1,
        r is None <==> all_assigned(args@),
        r is None ==> legalized_list(args@, old(aa)@).0 == args@,
        r matches Some(v) ==> v@ == legalized_list(args@, old(aa)@).0,
{
    let ghost c = aa@;
    let mut out: Vec<AbiParam> = Vec::new();
    let mut changed = false;
    let mut argno: usize = 0;
    assert(args@.take(0) =~= Seq::empty());
    while argno < args.len()
        invariant
            argno <= args.len(),
            aa.wf(),
            aa.same_setup(*old(aa)),
            params_wf(args@),
            legalized_list(args@, c).1.offset <= i32::MAX,
            (out@, aa@) == legalized_list(args@.take(argno as int), c),
            !changed <==> all_assigned(args@.take(argno as int)),
        decreases args.len() - argno,
    {
        let arg = args[argno];
        proof {
            let next = args@.take(argno + 1);
            assert(next.drop_last() =~= args@.take(argno as int));
            assert(next.last() == arg);
            lemma_list_offset_grows(args@, c, argno + 1);
            if all_assigned(next) {
                assert forall|i: int| 0 <= i < argno implies (#[trigger] args@.take(
                    argno as int,
                )[i]).location.is_assigned() by {
                    assert(next[i] == args@.take(argno as int)[i]);
                }
            }
            if !arg.location.is_assigned() {
                assert(!next[argno as int].location.is_assigned());
            }
        }
        if arg.location.is_assigned() {
            out.push(arg);
        } else {
            legalize_value(aa, arg, &mut out);
            changed = true;
        }
        argno += 1;
    }
    assert(args@.take(argno as int) =~= args@);
    if changed {
        Some(out)
    } else {
        proof {
            lemma_assigned_list_unchanged(args@, c);
        }
        None
    }
}

} // verus!
