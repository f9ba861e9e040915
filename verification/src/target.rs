//! The compilation target: its triple and the pointer width derived from it.

use crate::settings::Flags;
use crate::types::{LaneKind, Type};
use target_lexicon::PointerWidth;
use target_lexicon::Triple;
use vstd::prelude::*;

verus! {

/// `target_lexicon::Triple`, the name of a target. The library carries a
/// triple through and never looks inside one.
#[verifier::external_type_specification]
#[verifier::external_body]
pub struct ExTriple(Triple);

/// Width of a pointer on a target.
#[derive(Clone, Copy, PartialEq, Eq, Structural, Debug)]
pub enum Width {
    U16,
    U32,
    U64,
}

impl Width {
    /// Number of bits in a pointer.
    pub open spec fn spec_bits(self) -> u8 {
        match self {
            Width::U16 => 16,
            Width::U32 => 32,
            Width::U64 => 64,
        }
    }

    /// Number of bytes in a pointer.
    pub open spec fn spec_bytes(self) -> u8 {
        match self {
            Width::U16 => 2,
            Width::U32 => 4,
            Width::U64 => 8,
        }
    }

    /// Number of bytes in a pointer.
    #[verifier::when_used_as_spec(spec_bytes)]
    pub fn bytes(self) -> (b: u8)
        ensures
            b == self.spec_bytes(),
    {
        match self {
            Width::U16 => 2,
            Width::U32 => 4,
            Width::U64 => 8,
        }
    }

    /// Number of bits in a pointer.
    #[verifier::when_used_as_spec(spec_bits)]
    pub fn bits(self) -> (b: u8)
        ensures
            b == self.spec_bits(),
    {
        match self {
            Width::U16 => 16,
            Width::U32 => 32,
            Width::U64 => 64,
        }
    }
}

/// What `target_lexicon::Triple::pointer_width` returns for a triple: the
/// pointer width of its architecture, or `None` where the crate knows none
/// for it.
pub uninterp spec fn triple_pointer_width(triple: Triple) -> Option<Width>;

/// Calls `target_lexicon::Triple::pointer_width` and hands its result on,
/// variant by variant. Not proved: that the result is the named one. The
/// call reads the architecture of the triple and nothing else, so that the
/// same triple always has the same width; the table from architectures to
/// widths is the crate's and is not stated here.
#[verifier::external_body]
pub(crate) fn lexicon_pointer_width(triple: &Triple) -> (w: Option<Width>)
    ensures
        w == triple_pointer_width(*triple),
{
    match triple.pointer_width() {
        Ok(PointerWidth::U16) => Some(Width::U16),
        Ok(PointerWidth::U32) => Some(Width::U32),
        Ok(PointerWidth::U64) => Some(Width::U64),
        Err(()) => None,
    }
}

/// The pointer width of `triple`, if its architecture has one.
pub fn pointer_width(triple: &Triple) -> (w: Option<Width>)
    ensures
        w == triple_pointer_width(*triple),
{
    lexicon_pointer_width(triple)
}

/// The target that a function is lowered for: its triple and the settings.
#[derive(Debug)]
pub struct TargetIsa {
    pub triple: Triple,
    pub flags: Flags,
}

impl TargetIsa {
    /// The target has pointers of 32 or 64 bits, and its settings are valid.
    pub open spec fn wf(self) -> bool {
        &&& triple_pointer_width(self.triple) matches Some(width) && width != Width::U16
        &&& self.flags.wf()
    }

    /// The pointer width of the target.
    pub open spec fn width(self) -> Width {
        triple_pointer_width(self.triple).unwrap()
    }

    /// The integer type as wide as a pointer.
    pub open spec fn spec_pointer_type(self) -> Type {
        Type { kind: LaneKind::Int, lane_bits: self.width().spec_bits() as u16, lanes: 1 }
    }

    /// The target for `triple` with the given settings, where lowering
    /// supports it: where pointers have 32 or 64 bits and the probe
    /// threshold is at most two to the power of 62.
    pub fn new(triple: Triple, flags: Flags) -> (isa: Option<TargetIsa>)
        ensures
            isa is Some <==> (triple_pointer_width(triple) matches Some(width) && width
                != Width::U16) && flags.wf(),
            isa matches Some(target) ==> target.triple == triple && target.flags == flags
                && target.wf(),
    {
        match lexicon_pointer_width(&triple) {
            Some(Width::U16) | None => None,
            Some(_) => {
                if flags.probestack_size_log2 <= 62 {
                    Some(TargetIsa { triple, flags })
                } else {
                    None
                }
            },
        }
    }

    /// The triple of the target.
    pub fn triple(&self) -> (triple: &Triple)
        ensures
            *triple == self.triple,
    {
        &self.triple
    }

    /// The settings.
    pub fn flags(&self) -> (flags: &Flags)
        ensures
            *flags == self.flags,
    {
        &self.flags
    }

    /// The pointer width of the target.
    pub fn pointer_width(&self) -> (width: Width)
        requires
            self.wf(),
        ensures
            width == self.width(),
            width != Width::U16,
    {
        match lexicon_pointer_width(&self.triple) {
            Some(width) => width,
            None => unreached(),
        }
    }

    /// Number of bytes in a pointer.
    pub fn pointer_bytes(&self) -> (bytes: u8)
        requires
            self.wf(),
        ensures
            bytes == self.width().spec_bytes(),
            bytes == 4 || bytes == 8,
    {
        self.pointer_width().bytes()
    }

    /// Number of bits in a pointer.
    pub fn pointer_bits(&self) -> (bits: u8)
        requires
            self.wf(),
        ensures
            bits == self.width().spec_bits(),
            bits == 32 || bits == 64,
    {
        self.pointer_width().bits()
    }

    /// The integer type as wide as a pointer.
    pub fn pointer_type(&self) -> (ty: Type)
        requires
            self.wf(),
        ensures
            ty == self.spec_pointer_type(),
            ty.wf(),
    {
        Type { kind: LaneKind::Int, lane_bits: self.pointer_bits() as u16, lanes: 1 }
    }
}

} // verus!
