//! Calling conventions.

use vstd::prelude::*;

verus! {

/// A calling convention: the named variant of the binary interface that a
/// signature follows.
#[derive(Clone, Copy, PartialEq, Eq, Structural, Debug)]
pub enum CallConv {
    /// Best performance, not ABI-stable.
    Fast,
    /// Smallest caller code size, not ABI-stable.
    Cold,
    /// The System V convention.
    SystemV,
    /// The Windows x64 convention.
    WindowsFastcall,
    /// The embedder's convention on System V platforms.
    BaldrdashSystemV,
    /// The embedder's convention on Windows.
    BaldrdashWindows,
    /// The convention of the stack-probe routine.
    Probestack,
}

impl CallConv {
    /// Does the convention follow the Windows rules: a shadow store, and one
    /// positional index shared by general and float argument registers?
    pub open spec fn spec_extends_windows_fastcall(self) -> bool {
        self == CallConv::WindowsFastcall || self == CallConv::BaldrdashWindows
    }

    /// Is this one of the two embedder conventions?
    pub open spec fn spec_extends_baldrdash(self) -> bool {
        self == CallConv::BaldrdashSystemV || self == CallConv::BaldrdashWindows
    }

    #[verifier::when_used_as_spec(spec_extends_windows_fastcall)]
    pub fn extends_windows_fastcall(self) -> (b: bool)
        ensures
            b == self.spec_extends_windows_fastcall(),
    {
        match self {
            CallConv::WindowsFastcall | CallConv::BaldrdashWindows => true,
            _ => false,
        }
    }

    #[verifier::when_used_as_spec(spec_extends_baldrdash)]
    pub fn extends_baldrdash(self) -> (b: bool)
        ensures
            b == self.spec_extends_baldrdash(),
    {
        match self {
            CallConv::BaldrdashSystemV | CallConv::BaldrdashWindows => true,
            _ => false,
        }
    }
}

} // verus!
