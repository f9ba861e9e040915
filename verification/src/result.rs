//! The ways in which lowering a function can fail.

use vstd::prelude::*;

verus! {

/// Why code generation for a function was given up.
#[derive(Clone, Copy, PartialEq, Eq, Structural, Debug)]
pub enum CodegenError {
    /// A size or an offset does not fit the range that the implementation
    /// has for it.
    ImplLimitExceeded,
    /// The target has no pointer width that lowering is written for.
    Unsupported,
    /// The prologue of a function is not of the shape that its unwind
    /// information can describe.
    MalformedPrologue,
}

} // verus!
