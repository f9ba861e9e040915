//! Settings that steer ABI lowering.

use vstd::prelude::*;

verus! {

/// Settings shared by all targets.
#[derive(Clone, Copy, PartialEq, Eq, Structural, Debug)]
pub struct Flags {
    /// Vector values may stay in vector registers.
    pub enable_simd: bool,
    /// One general register is pinned and kept from the allocator.
    pub enable_pinned_reg: bool,
    /// Large frames are probed by an out-of-line routine.
    pub probestack_enabled: bool,
    /// Frames above two to this power are probed.
    pub probestack_size_log2: u8,
    /// The probe routine lowers the stack pointer itself.
    pub probestack_func_adjusts_sp: bool,
    /// Code is position independent.
    pub is_pic: bool,
    /// Library routines are placed near the code that calls them.
    pub colocated_libcalls: bool,
    /// Words that the embedder's own prologue pushes.
    pub baldrdash_prologue_words: u8,
}

impl Flags {
    /// The probe threshold is a power of two that a signed 64-bit size can
    /// be compared with.
    pub open spec fn wf(self) -> bool {
        self.probestack_size_log2 <= 62
    }
}

/// Settings of the x86 targets. ABI lowering carries them along and reads
/// none of them.
#[derive(Clone, Copy, PartialEq, Eq, Structural, Debug)]
pub struct IsaFlags {
    pub has_sse3: bool,
    pub has_sse41: bool,
    pub has_avx: bool,
}

} // verus!
