//! Value types: scalar integers, booleans and floats, and vectors of them.

use vstd::prelude::*;

verus! {

/// What one lane of a value holds.
#[derive(Clone, Copy, PartialEq, Eq, Structural, Debug)]
pub enum LaneKind {
    Int,
    Bool,
    Float,
}

/// The type of a value: the kind and width of a lane, and the number of
/// lanes. A scalar has one lane.
#[derive(Clone, Copy, PartialEq, Eq, Structural, Debug)]
pub struct Type {
    pub kind: LaneKind,
    pub lane_bits: u16,
    pub lanes: u16,
}

/// Lane counts are the powers of two up to 256.
pub open spec fn valid_lane_count(lanes: u16) -> bool {
    lanes == 1 || lanes == 2 || lanes == 4 || lanes == 8 || lanes == 16 || lanes == 32
        || lanes == 64 || lanes == 128 || lanes == 256
}

/// The lane widths that exist for each kind.
pub open spec fn valid_lane_bits(kind: LaneKind, bits: u16) -> bool {
    match kind {
        LaneKind::Int => bits == 8 || bits == 16 || bits == 32 || bits == 64 || bits == 128,
        LaneKind::Bool => bits == 1 || bits == 8 || bits == 16 || bits == 32 || bits == 64
            || bits == 128,
        LaneKind::Float => bits == 32 || bits == 64,
    }
}

impl Type {
    /// The type names an existing lane type and lane count.
    pub open spec fn wf(self) -> bool {
        valid_lane_bits(self.kind, self.lane_bits) && valid_lane_count(self.lanes)
    }

    pub open spec fn spec_is_vector(self) -> bool {
        self.lanes > 1
    }

    pub open spec fn spec_is_int(self) -> bool {
        self.kind == LaneKind::Int && self.lanes <= 1
    }

    pub open spec fn spec_is_bool(self) -> bool {
        self.kind == LaneKind::Bool && self.lanes <= 1
    }

    pub open spec fn spec_is_float(self) -> bool {
        self.kind == LaneKind::Float && self.lanes <= 1
    }

    /// Total width in bits, all lanes together.
    pub open spec fn spec_bits(self) -> int {
        self.lane_bits * self.lanes
    }

    /// The integer type of the given width; it exists for 8, 16, 32, 64 and 128.
    pub open spec fn spec_int(bits: u16) -> Option<Type> {
        if valid_lane_bits(LaneKind::Int, bits) {
            Some(Type { kind: LaneKind::Int, lane_bits: bits, lanes: 1 })
        } else {
            None
        }
    }

    /// The same lanes at half their width, where that lane type exists.
    pub open spec fn spec_half_width(self) -> Option<Type> {
        if self.lane_bits % 2 == 0 && valid_lane_bits(self.kind, (self.lane_bits / 2) as u16) {
            Some(
                Type { kind: self.kind, lane_bits: (self.lane_bits / 2) as u16, lanes: self.lanes },
            )
        } else {
            None
        }
    }

    /// Half as many lanes of the same type, for a vector.
    pub open spec fn spec_half_vector(self) -> Option<Type> {
        if self.lanes > 1 {
            Some(Type { kind: self.kind, lane_bits: self.lane_bits, lanes: self.lanes / 2 })
        } else {
            None
        }
    }

    /// Is this a vector, that is, has it more than one lane?
    #[verifier::when_used_as_spec(spec_is_vector)]
    pub fn is_vector(self) -> (b: bool)
        ensures
            b == self.spec_is_vector(),
    {
        self.lanes > 1
    }

    /// Is this a scalar integer?
    #[verifier::when_used_as_spec(spec_is_int)]
    pub fn is_int(self) -> (b: bool)
        ensures
            b == self.spec_is_int(),
    {
        self.kind == LaneKind::Int && self.lanes <= 1
    }

    /// Is this a scalar boolean?
    #[verifier::when_used_as_spec(spec_is_bool)]
    pub fn is_bool(self) -> (b: bool)
        ensures
            b == self.spec_is_bool(),
    {
        self.kind == LaneKind::Bool && self.lanes <= 1
    }

    /// Is this a scalar float?
    #[verifier::when_used_as_spec(spec_is_float)]
    pub fn is_float(self) -> (b: bool)
        ensures
            b == self.spec_is_float(),
    {
        self.kind == LaneKind::Float && self.lanes <= 1
    }

    /// Total width in bits.
    pub fn bits(self) -> (b: u16)
        requires
            self.wf(),
        ensures
            b == self.spec_bits(),
            1 <= b <= 32768,
    {
        assert(self.lane_bits * self.lanes <= 128 * 256) by (nonlinear_arith)
            requires
                self.lane_bits <= 128,
                self.lanes <= 256,
        ;
        assert(self.lane_bits * self.lanes >= 1) by (nonlinear_arith)
            requires
                self.lane_bits >= 1,
                self.lanes >= 1,
        ;
        self.lane_bits * self.lanes
    }

    /// The scalar integer type of the given width, if there is one.
    pub fn int_type(bits: u16) -> (t: Option<Type>)
        ensures
            t == Type::spec_int(bits),
            t matches Some(ty) ==> ty.wf(),
    {
        if bits == 8 || bits == 16 || bits == 32 || bits == 64 || bits == 128 {
            Some(Type { kind: LaneKind::Int, lane_bits: bits, lanes: 1 })
        } else {
            None
        }
    }

    /// The scalar boolean type of the given width, if there is one.
    pub fn bool_type(bits: u16) -> (t: Option<Type>)
        ensures
            t == (if valid_lane_bits(LaneKind::Bool, bits) {
                Some(Type { kind: LaneKind::Bool, lane_bits: bits, lanes: 1 })
            } else {
                None
            }),
            t matches Some(ty) ==> ty.wf(),
    {
        if bits == 1 || bits == 8 || bits == 16 || bits == 32 || bits == 64 || bits == 128 {
            Some(Type { kind: LaneKind::Bool, lane_bits: bits, lanes: 1 })
        } else {
            None
        }
    }

    /// The scalar float type of the given width, if there is one.
    pub fn float_type(bits: u16) -> (t: Option<Type>)
        ensures
            t == (if valid_lane_bits(LaneKind::Float, bits) {
                Some(Type { kind: LaneKind::Float, lane_bits: bits, lanes: 1 })
            } else {
                None
            }),
            t matches Some(ty) ==> ty.wf(),
    {
        if bits == 32 || bits == 64 {
            Some(Type { kind: LaneKind::Float, lane_bits: bits, lanes: 1 })
        } else {
            None
        }
    }

    /// The vector of `lanes` lanes of this scalar type, if `lanes` is a lane
    /// count and this is a scalar.
    pub fn vector_of(self, lanes: u16) -> (t: Option<Type>)
        ensures
            t == (if self.lanes == 1 && valid_lane_count(lanes) {
                Some(Type { kind: self.kind, lane_bits: self.lane_bits, lanes })
            } else {
                None
            }),
            self.wf() ==> (t matches Some(ty) ==> ty.wf()),
    {
        if self.lanes == 1 && (lanes == 1 || lanes == 2 || lanes == 4 || lanes == 8 || lanes == 16
            || lanes == 32 || lanes == 64 || lanes == 128 || lanes == 256) {
            Some(Type { kind: self.kind, lane_bits: self.lane_bits, lanes })
        } else {
            None
        }
    }

    /// The type with lanes of half the width, if that lane type exists.
    pub fn half_width(self) -> (t: Option<Type>)
        ensures
            t == self.spec_half_width(),
            self.wf() ==> (t matches Some(ty) ==> ty.wf() && 2 * ty.spec_bits()
                == self.spec_bits()),
    {
        let half: u16 = self.lane_bits / 2;
        let exists = self.lane_bits % 2 == 0 && match self.kind {
            LaneKind::Int => half == 8 || half == 16 || half == 32 || half == 64 || half == 128,
            LaneKind::Bool => half == 1 || half == 8 || half == 16 || half == 32 || half == 64
                || half == 128,
            LaneKind::Float => half == 32 || half == 64,
        };
        if exists {
            proof {
                let lanes = self.lanes;
                let whole = self.lane_bits;
                assert(2 * (half * lanes) == whole * lanes) by (nonlinear_arith)
                    requires
                        2 * half == whole,
                ;
            }
            Some(Type { kind: self.kind, lane_bits: half, lanes: self.lanes })
        } else {
            None
        }
    }

    /// The vector type with half as many lanes, if this is a vector.
    pub fn half_vector(self) -> (t: Option<Type>)
        ensures
            t == self.spec_half_vector(),
            self.wf() ==> (t matches Some(ty) ==> ty.wf() && 2 * ty.spec_bits()
                == self.spec_bits()),
    {
        if self.lanes > 1 {
            let half: u16 = self.lanes / 2;
            proof {
                if self.wf() {
                    let lane_bits = self.lane_bits;
                    let whole = self.lanes;
                    assert(2 * (lane_bits * half) == lane_bits * whole) by (nonlinear_arith)
                        requires
                            2 * half == whole,
                    ;
                }
            }
            Some(Type { kind: self.kind, lane_bits: self.lane_bits, lanes: half })
        } else {
            None
        }
    }
}

} // verus!
