//! Stack slots and the layout of a stack frame.

use crate::result::CodegenError;
use vstd::prelude::*;

verus! {

/// What a stack slot is for.
#[derive(Clone, Copy, PartialEq, Eq, Structural, Debug)]
pub enum StackSlotKind {
    /// A value spilled by the register allocator.
    SpillSlot,
    /// A slot that the function asked for.
    ExplicitSlot,
    /// An argument that the caller passed on the stack, at a fixed offset
    /// from the stack pointer on entry.
    IncomingArg,
    /// An argument for a callee, at a fixed offset from the stack pointer
    /// at the call.
    OutgoingArg,
    /// The place for return values that go through memory.
    StructReturnSlot,
    /// A slot kept for moves that need a scratch place.
    EmergencySlot,
}

impl StackSlotKind {
    /// Has a slot of this kind a place that the convention fixes?
    pub open spec fn spec_is_fixed(self) -> bool {
        self == StackSlotKind::IncomingArg || self == StackSlotKind::OutgoingArg
    }

    #[verifier::when_used_as_spec(spec_is_fixed)]
    pub fn is_fixed(self) -> (b: bool)
        ensures
            b == self.spec_is_fixed(),
    {
        match self {
            StackSlotKind::IncomingArg | StackSlotKind::OutgoingArg => true,
            _ => false,
        }
    }
}

/// A stack slot: its kind, its size in bytes and, once it is known, its
/// offset from the stack pointer on entry.
#[derive(Clone, Copy, PartialEq, Eq, Structural, Debug)]
pub struct StackSlotData {
    pub kind: StackSlotKind,
    pub size: u32,
    pub offset: Option<i32>,
}

impl StackSlotData {
    /// A slot of the given kind and size without an offset.
    pub fn new(kind: StackSlotKind, size: u32) -> (slot: StackSlotData)
        ensures
            slot == (StackSlotData { kind, size, offset: None }),
    {
        StackSlotData { kind, size, offset: None }
    }
}

/// The largest size of a slot or a frame: offsets within a frame fit a
/// signed 32-bit number.
pub const MAX_FRAME: u32 = 0x7fff_ffff;

/// The powers of two that a frame can be aligned to.
pub open spec fn valid_alignment(alignment: u32) -> bool {
    alignment == 1 || alignment == 2 || alignment == 4 || alignment == 8 || alignment == 16
        || alignment == 32 || alignment == 64
}

/// `n` rounded up to a multiple of `alignment`.
pub open spec fn round_up(n: int, alignment: int) -> int {
    if n % alignment == 0 {
        n
    } else {
        n + alignment - n % alignment
    }
}

/// The alignment of a slot: the largest power of two up to `alignment` that
/// divides its size.
pub open spec fn slot_alignment(size: int, alignment: int) -> int
    decreases alignment,
{
    if alignment <= 1 || size % alignment == 0 {
        alignment
    } else {
        slot_alignment(size, alignment / 2)
    }
}

/// What a fixed slot asks of the frame: how far below the stack pointer on
/// entry the incoming area reaches, and how far the outgoing area reaches
/// above the stack pointer at a call. `None` where a fixed slot has no
/// offset, is larger than a frame can be, or ends outside the 32-bit range.
pub open spec fn fixed_extent(slots: Seq<StackSlotData>) -> Option<(int, int)>
    decreases slots.len(),
{
    if slots.len() == 0 {
        Some((0, 0))
    } else {
        let slot = slots.last();
        match fixed_extent(slots.drop_last()) {
            None => None,
            Some((incoming, outgoing)) => if slot.size > MAX_FRAME {
                None
            } else if !slot.kind.is_fixed() {
                Some((incoming, outgoing))
            } else {
                match slot.offset {
                    None => None,
                    Some(offset) => if offset + slot.size > i32::MAX {
                        None
                    } else if slot.kind == StackSlotKind::IncomingArg {
                        Some(
                            (
                                if -offset > incoming {
                                    -offset
                                } else {
                                    incoming
                                },
                                outgoing,
                            ),
                        )
                    } else {
                        Some(
                            (
                                incoming,
                                if offset + slot.size > outgoing {
                                    offset + slot.size
                                } else {
                                    outgoing
                                },
                            ),
                        )
                    },
                }
            },
        }
    }
}

/// The slots with the slots that are not fixed placed one after the other
/// below `depth` bytes, each at its own alignment, and the depth that the
/// last of them reaches. `None` where the depth leaves the range of a frame.
pub open spec fn placed_below(slots: Seq<StackSlotData>, depth: int, alignment: int) -> Option<
    (Seq<StackSlotData>, int),
>
    decreases slots.len(),
{
    if slots.len() == 0 {
        Some((Seq::empty(), depth))
    } else {
        let slot = slots.last();
        match placed_below(slots.drop_last(), depth, alignment) {
            None => None,
            Some((init, reached)) => if slot.kind.is_fixed() {
                Some((init.push(slot), reached))
            } else {
                let bottom = round_up(
                    reached + slot.size,
                    slot_alignment(slot.size as int, alignment),
                );
                if bottom > MAX_FRAME {
                    None
                } else {
                    Some(
                        (
                            init.push(StackSlotData { offset: Some((-bottom) as i32), ..slot }),
                            bottom,
                        ),
                    )
                }
            },
        }
    }
}

/// The frame for `slots`: the slots with their offsets, and the size of the
/// frame. The slots that are not fixed lie below the incoming area, in their
/// order; below them lies the outgoing area; and the whole is rounded up to
/// the alignment of the frame. `None` where the slots cannot be laid out.
pub open spec fn frame_layout(slots: Seq<StackSlotData>, alignment: int) -> Option<
    (Seq<StackSlotData>, int),
> {
    match fixed_extent(slots) {
        None => None,
        Some((incoming, outgoing)) => match placed_below(slots, incoming, alignment) {
            None => None,
            Some((laid_out, reached)) => {
                let size = round_up(reached + outgoing, alignment);
                if size > MAX_FRAME {
                    None
                } else {
                    Some((laid_out, size))
                }
            },
        },
    }
}

/// The two lists hold the same slots but for their offsets: they are
/// equally long, and each slot has the kind and the size of the slot at its
/// place in the other.
pub open spec fn same_slots_but_offsets(a: Seq<StackSlotData>, b: Seq<StackSlotData>) -> bool {
    &&& a.len() == b.len()
    &&& forall|i: int|
        0 <= i < a.len() ==> (#[trigger] a[i]).kind == b[i].kind && a[i].size == b[i].size
}

/// The stack slots of a function and, once they are laid out, the size of
/// its frame.
#[derive(Debug)]
pub struct StackSlots {
    pub slots: Vec<StackSlotData>,
    pub frame_size: Option<u32>,
}

impl StackSlots {
    /// No slots, and no layout yet.
    pub fn new() -> (s: StackSlots)
        ensures
            s.slots@ == Seq::<StackSlotData>::empty(),
            s.frame_size is None,
    {
        StackSlots { slots: Vec::new(), frame_size: None }
    }

    /// Adds a slot and returns its number.
    pub fn push(&mut self, data: StackSlotData) -> (slot: usize)
        ensures
            slot == old(self).slots@.len(),
            final(self).slots@ == old(self).slots@.push(data),
            final(self).frame_size == old(self).frame_size,
    {
        let slot = self.slots.len();
        self.slots.push(data);
        slot
    }
}

/// `n` rounded up to a multiple of `alignment`.
fn align_up(n: u64, alignment: u32) -> (r: u64)
    requires
        valid_alignment(alignment),
        n <= 0xffff_ffff_ffff,
    ensures
        r == round_up(n as int, alignment as int),
        n <= r < n + alignment,
        r % (alignment as u64) == 0,
{
    let rest: u64 = n % (alignment as u64);
    if rest == 0 {
        n
    } else {
        n + (alignment as u64 - rest)
    }
}

/// The largest power of two up to `alignment` that divides `size`.
fn natural_alignment(size: u32, alignment: u32) -> (r: u32)
    requires
        valid_alignment(alignment),
    ensures
        r == slot_alignment(size as int, alignment as int),
        valid_alignment(r),
        r <= alignment,
{
    let mut r: u32 = alignment;
    while r > 1 && size % r != 0
        invariant
            valid_alignment(r),
            r <= alignment,
            slot_alignment(size as int, r as int) == slot_alignment(size as int, alignment as int),
        decreases r,
    {
        r = r / 2;
    }
    r
}

/// Lays out the frame: gives every slot that is not fixed its offset, and
/// returns the size of the frame, a multiple of `alignment`.
pub fn layout_stack(frame: &mut StackSlots, alignment: u32) -> (r: Result<u32, CodegenError>)
    requires
        valid_alignment(alignment),
    ensures
        match frame_layout(old(frame).slots@, alignment as int) {
            Some((laid_out, size)) => {
                &&& r == Ok::<u32, CodegenError>(size as u32)
                &&& final(frame).slots@ == laid_out
                &&& final(frame).frame_size == Some(size as u32)
            },
            None => {
                &&& r == Err::<u32, CodegenError>(CodegenError::ImplLimitExceeded)
                &&& final(frame).frame_size == old(frame).frame_size
            },
        },
        same_slots_but_offsets(final(frame).slots@, old(frame).slots@),
        frame_layout(old(frame).slots@, alignment as int) matches Some((_, size)) ==> 0 <= size
            <= MAX_FRAME,
{
    let ghost slots = frame.slots@;
    let mut incoming: u64 = 0;
    let mut outgoing: u64 = 0;
    let mut i: usize = 0;
    assert(slots.take(0) =~= Seq::empty());
    while i < frame.slots.len()
        invariant
            i <= frame.slots.len(),
            slots == old(frame).slots@,
            frame.slots@ == slots,
            frame.frame_size == old(frame).frame_size,
            fixed_extent(slots.take(i as int)) == Some((incoming as int, outgoing as int)),
            incoming <= 0x8000_0000,
            outgoing <= MAX_FRAME,
            fixed_extent(slots) is None ==> frame_layout(slots, alignment as int) is None,
        decreases frame.slots.len() - i,
    {
        let slot = frame.slots[i];
        proof {
            let next = slots.take(i + 1);
            assert(next.drop_last() =~= slots.take(i as int));
            assert(next.last() == slot);
            lemma_fixed_extent_prefix(slots, i + 1);
        }
        if slot.size > MAX_FRAME {
            return Err(CodegenError::ImplLimitExceeded);
        }
        if slot.kind.is_fixed() {
            match slot.offset {
                None => {
                    return Err(CodegenError::ImplLimitExceeded);
                },
                Some(offset) => {
                    let end: i64 = offset as i64 + slot.size as i64;
                    if end > i32::MAX as i64 {
                        return Err(CodegenError::ImplLimitExceeded);
                    }
                    match slot.kind {
                        StackSlotKind::IncomingArg => {
                            if -(offset as i64) > incoming as i64 {
                                incoming = (-(offset as i64)) as u64;
                            }
                        },
                        _ => {
                            if end > outgoing as i64 {
                                outgoing = end as u64;
                            }
                        },
                    }
                },
            }
        }
        i += 1;
    }
    assert(slots.take(i as int) =~= slots);

    let mut depth: u64 = incoming;
    let mut j: usize = 0;
    assert(frame.slots@.take(0) =~= Seq::<StackSlotData>::empty());
    while j < frame.slots.len()
        invariant
            j <= frame.slots.len(),
            slots == old(frame).slots@,
            frame.slots@.len() == slots.len(),
            frame.frame_size == old(frame).frame_size,
            same_slots_but_offsets(frame.slots@, slots),
            valid_alignment(alignment),
            depth <= 0x8000_0000,
            fixed_extent(slots) == Some((incoming as int, outgoing as int)),
            placed_below(slots.take(j as int), incoming as int, alignment as int) == Some(
                (frame.slots@.take(j as int), depth as int),
            ),
            forall|k: int| j <= k < slots.len() ==> frame.slots@[k] == slots[k],
        decreases frame.slots.len() - j,
    {
        let slot = frame.slots[j];
        proof {
            let next = slots.take(j + 1);
            assert(next.drop_last() =~= slots.take(j as int));
            assert(next.last() == slot);
            lemma_placed_below_prefix(slots, incoming as int, alignment as int, j + 1);
        }
        let ghost before = frame.slots@;
        if !slot.kind.is_fixed() {
            let bottom: u64 = align_up(depth + slot.size as u64, natural_alignment(
                slot.size,
                alignment,
            ));
            if bottom > MAX_FRAME as u64 {
                return Err(CodegenError::ImplLimitExceeded);
            }
            let offset: i32 = -(bottom as i64) as i32;
            frame.slots.set(j, StackSlotData { offset: Some(offset), ..slot });
            depth = bottom;
        }
        proof {
            assert(frame.slots@.take(j + 1) =~= before.take(j as int).push(frame.slots@[j as int]));
        }
        j += 1;
    }
    assert(slots.take(j as int) =~= slots);
    assert(frame.slots@.take(j as int) =~= frame.slots@);

    let size: u64 = align_up(depth + outgoing, alignment);
    if size > MAX_FRAME as u64 {
        return Err(CodegenError::ImplLimitExceeded);
    }
    frame.frame_size = Some(size as u32);
    Ok(size as u32)
}

/// Where a prefix of the slots has no fixed extent, the slots have none.
proof fn lemma_fixed_extent_prefix(slots: Seq<StackSlotData>, n: int)
    requires
        0 <= n <= slots.len(),
    ensures
        fixed_extent(slots.take(n)) is None ==> fixed_extent(slots) is None,
    decreases slots.len(),
{
    if n < slots.len() {
        assert(slots.drop_last().take(n) =~= slots.take(n));
        lemma_fixed_extent_prefix(slots.drop_last(), n);
    } else {
        assert(slots.take(n) =~= slots);
    }
}

/// Where a prefix of the slots cannot be placed, the slots cannot.
proof fn lemma_placed_below_prefix(slots: Seq<StackSlotData>, depth: int, alignment: int, n: int)
    requires
        0 <= n <= slots.len(),
    ensures
        placed_below(slots.take(n), depth, alignment) is None ==> placed_below(
            slots,
            depth,
            alignment,
        ) is None,
    decreases slots.len(),
{
    if n < slots.len() {
        assert(slots.drop_last().take(n) =~= slots.take(n));
        lemma_placed_below_prefix(slots.drop_last(), depth, alignment, n);
    } else {
        assert(slots.take(n) =~= slots);
    }
}

/// The fixed extent reaches at least as far down as every incoming slot.
proof fn lemma_fixed_extent_covers(slots: Seq<StackSlotData>, i: int)
    requires
        0 <= i < slots.len(),
        slots[i].kind == StackSlotKind::IncomingArg,
        fixed_extent(slots) is Some,
    ensures
        slots[i].offset is Some,
        fixed_extent(slots).unwrap().0 >= -slots[i].offset.unwrap(),
        fixed_extent(slots).unwrap().0 >= 0,
        fixed_extent(slots).unwrap().1 >= 0,
    decreases slots.len(),
{
    let shorter = slots.drop_last();
    lemma_fixed_extent_nonnegative(shorter);
    if i < slots.len() - 1 {
        assert(shorter[i] == slots[i]);
        lemma_fixed_extent_covers(shorter, i);
    }
}

/// The fixed extent is not negative.
proof fn lemma_fixed_extent_nonnegative(slots: Seq<StackSlotData>)
    ensures
        fixed_extent(slots) matches Some((incoming, outgoing)) ==> incoming >= 0 && outgoing >= 0,
    decreases slots.len(),
{
    if slots.len() > 0 {
        lemma_fixed_extent_nonnegative(slots.drop_last());
    }
}

/// The slots that are placed reach at least as far down as the depth they
/// start at.
proof fn lemma_placed_below_reaches(slots: Seq<StackSlotData>, depth: int, alignment: int)
    requires
        depth >= 0,
        alignment >= 1,
    ensures
        placed_below(slots, depth, alignment) matches Some((_, reached)) ==> reached >= depth,
    decreases slots.len(),
{
    if slots.len() > 0 {
        lemma_placed_below_reaches(slots.drop_last(), depth, alignment);
        let slot = slots.last();
        lemma_slot_alignment_positive(slot.size as int, alignment);
    }
}

/// The alignment of a slot is at least one.
proof fn lemma_slot_alignment_positive(size: int, alignment: int)
    requires
        alignment >= 1,
    ensures
        slot_alignment(size, alignment) >= 1,
    decreases alignment,
{
    if !(alignment <= 1 || size % alignment == 0) {
        lemma_slot_alignment_positive(size, alignment / 2);
    }
}

/// A frame holds its incoming area: it is at least as large as any incoming
/// slot lies below the stack pointer on entry.
pub proof fn lemma_frame_covers_incoming(slots: Seq<StackSlotData>, alignment: int, i: int)
    requires
        alignment >= 1,
        0 <= i < slots.len(),
        slots[i].kind == StackSlotKind::IncomingArg,
        frame_layout(slots, alignment) is Some,
    ensures
        slots[i].offset is Some,
        frame_layout(slots, alignment).unwrap().1 >= -slots[i].offset.unwrap(),
{
    lemma_fixed_extent_covers(slots, i);
    let (incoming, outgoing) = fixed_extent(slots).unwrap();
    lemma_placed_below_reaches(slots, incoming, alignment);
}

} // verus!
