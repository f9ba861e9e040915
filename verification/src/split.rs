//! The values behind a split: how an integer that is wider than a pointer
//! is cut into pointer-sized parts, and put together again.

use crate::classify::Cursor;
use crate::laws::law_wide_integer_split;
use crate::legalize::legalized_value;
use crate::signature::AbiParam;
use vstd::arithmetic::power2::{lemma_pow2_adds, lemma_pow2_pos, pow2};
use vstd::prelude::*;

verus! {

/// Is `bits` the width of a pointer, doubled some number of times?
pub open spec fn splits_evenly(bits: nat, pointer_bits: nat) -> bool
    decreases bits,
{
    bits == pointer_bits || (bits > pointer_bits && bits % 2 == 0 && splits_evenly(
        bits / 2,
        pointer_bits,
    ))
}

/// The parts of the value `v` of a type of `bits` bits, in the order of the
/// entries that the type is split into: a value that is wider than a pointer
/// is halved, and the parts of its low half come before those of its high
/// half.
pub open spec fn value_parts(v: nat, bits: nat, pointer_bits: nat) -> Seq<nat>
    decreases bits,
{
    if bits <= pointer_bits || bits % 2 != 0 {
        seq![v]
    } else {
        value_parts(v % pow2(bits / 2), bits / 2, pointer_bits) + value_parts(
            v / pow2(bits / 2),
            bits / 2,
            pointer_bits,
        )
    }
}

/// The value whose pointer-sized parts are `parts`, the lowest first.
pub open spec fn reassembled(parts: Seq<nat>, pointer_bits: nat) -> nat
    decreases parts.len(),
{
    if parts.len() == 0 {
        0
    } else {
        reassembled(parts.drop_last(), pointer_bits) + parts.last() * pow2(
            pointer_bits * ((parts.len() - 1) as nat),
        )
    }
}

proof fn lemma_reassembled_concat(a: Seq<nat>, b: Seq<nat>, pointer_bits: nat)
    ensures
        reassembled(a + b, pointer_bits) == reassembled(a, pointer_bits) + pow2(
            pointer_bits * a.len(),
        ) * reassembled(b, pointer_bits),
    decreases b.len(),
{
    let shift = pow2(pointer_bits * a.len());
    if b.len() == 0 {
        assert(a + b =~= a);
        assert(shift * 0 == 0) by (nonlinear_arith);
    } else {
        let shorter = b.drop_last();
        assert((a + b).drop_last() =~= a + shorter);
        assert((a + b).last() == b.last());
        lemma_reassembled_concat(a, shorter, pointer_bits);
        let k = (b.len() - 1) as nat;
        assert(pointer_bits * ((a + b).len() - 1) as nat == pointer_bits * a.len() + pointer_bits
            * k) by (nonlinear_arith)
            requires
                (a + b).len() - 1 == a.len() + k,
        ;
        lemma_pow2_adds(pointer_bits * a.len(), pointer_bits * k);
        let rest = reassembled(shorter, pointer_bits);
        let last = b.last();
        let weight = pow2(pointer_bits * k);
        assert(shift * rest + last * (shift * weight) == shift * (rest + last * weight))
            by (nonlinear_arith);
    }
}

/// Splitting loses nothing: the parts of a value are as many as there are
/// pointer widths in its width, each fits a pointer, and put together in
/// their order, the lowest first, they give the value back.
pub proof fn law_split_round_trip(v: nat, bits: nat, pointer_bits: nat)
    requires
        pointer_bits > 0,
        splits_evenly(bits, pointer_bits),
        v < pow2(bits),
    ensures
        value_parts(v, bits, pointer_bits).len() * pointer_bits == bits,
        forall|i: int|
            0 <= i < value_parts(v, bits, pointer_bits).len() ==> #[trigger] value_parts(
                v,
                bits,
                pointer_bits,
            )[i] < pow2(pointer_bits),
        reassembled(value_parts(v, bits, pointer_bits), pointer_bits) == v,
    decreases bits,
{
    let parts = value_parts(v, bits, pointer_bits);
    if bits == pointer_bits {
        assert(parts.drop_last() =~= Seq::<nat>::empty());
        assert(parts.last() == v);
        assert(pow2(0) == 1) by {
            vstd::arithmetic::power2::lemma2_to64();
        }
        assert(pointer_bits * 0 == 0) by (nonlinear_arith);
        assert(reassembled(parts.drop_last(), pointer_bits) == 0);
        assert(v * 1 == v) by (nonlinear_arith);
        assert(1 * pointer_bits == pointer_bits) by (nonlinear_arith);
    } else {
        let half = bits / 2;
        let d = pow2(half);
        lemma_pow2_pos(half);
        lemma_pow2_adds(half, half);
        let lo = v % d;
        let hi = v / d;
        assert(v == d * hi + lo && 0 <= lo < d) by {
            vstd::arithmetic::div_mod::lemma_fundamental_div_mod(v as int, d as int);
            vstd::arithmetic::div_mod::lemma_mod_bound(v as int, d as int);
        }
        assert(hi < d) by (nonlinear_arith)
            requires
                v == d * hi + lo,
                0 <= lo,
                v < d * d,
                d > 0,
        ;
        law_split_round_trip(lo, half, pointer_bits);
        law_split_round_trip(hi, half, pointer_bits);
        let a = value_parts(lo, half, pointer_bits);
        let b = value_parts(hi, half, pointer_bits);
        assert(parts == a + b);
        lemma_reassembled_concat(a, b, pointer_bits);
        assert(pointer_bits * a.len() == half) by (nonlinear_arith)
            requires
                a.len() * pointer_bits == half,
        ;
        assert((a.len() + b.len()) * pointer_bits == bits) by (nonlinear_arith)
            requires
                a.len() * pointer_bits == half,
                b.len() * pointer_bits == half,
                bits == 2 * half,
        ;
        assert forall|i: int| 0 <= i < parts.len() implies #[trigger] parts[i] < pow2(
            pointer_bits,
        ) by {
            if i < a.len() {
                assert(parts[i] == a[i]);
            } else {
                assert(parts[i] == b[i - a.len()]);
            }
        }
    }
}

/// A value of an integer type that is wider than a pointer has one part for
/// each entry that legalization makes of the type; and those parts, put
/// together with the part of the first entry lowest, give the value back.
pub proof fn law_split_entries_hold_the_value(c: Cursor, p: AbiParam, v: nat)
    requires
        c.wf(),
        p.wf(),
        p.value_type.is_int(),
        p.value_type.spec_bits() >= c.pointer_bits,
        legalized_value(c, p).1.offset <= i32::MAX,
        v < pow2(p.value_type.spec_bits() as nat),
    ensures
        value_parts(v, p.value_type.spec_bits() as nat, c.pointer_bits as nat).len()
            == legalized_value(c, p).0.len(),
        reassembled(
            value_parts(v, p.value_type.spec_bits() as nat, c.pointer_bits as nat),
            c.pointer_bits as nat,
        ) == v,
{
    let bits = p.value_type.spec_bits() as nat;
    let pointer_bits = c.pointer_bits as nat;
    assert(bits == p.value_type.lane_bits) by {
        assert(p.value_type.lanes == 1);
    }
    assert(splits_evenly(bits, pointer_bits)) by {
        reveal_with_fuel(splits_evenly, 3);
    }
    law_split_round_trip(v, bits, pointer_bits);
    law_wide_integer_split(c, p);
    let parts = value_parts(v, bits, pointer_bits).len();
    let entries = legalized_value(c, p).0.len();
    if pointer_bits == 64 {
        assert(parts * 64 == entries * 64);
    } else {
        assert(parts * 32 == entries * 32);
    }
}

} // verus!
