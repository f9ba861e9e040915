//! ABI lowering for x86: the legalization of signatures under a calling
//! convention, and the code that manages the stack frame of a function.
//!
//! A signature is legalized by [`legalizer::legalize_signature`]: every
//! parameter and return value gets a register or a stack slot from the
//! classifier in [`classify`], after the conversions that it asks for, and
//! the return values go through memory where the estimator in [`estimate`]
//! finds that the return registers do not suffice. What holds of every
//! legalized signature is proved in [`laws`], [`placement`] and [`split`].
//!
//! A function gets its frame from [`frame::prologue_epilogue`]: the
//! callee-saved registers that it uses are found by the tracker in
//! [`abi_regs`], its stack slots are laid out by [`stack`], and prologue and
//! epilogues are planned in [`frame_plan`] and carried out by [`plan`] on
//! the function of [`function`]. Where prologue and epilogues stand is part
//! of the contracts in [`frame`]; that they balance is proved in
//! [`frame_laws`] and, for the frame of every function, in [`frame_shape`].
//! The unwind information of a finished function is written by [`unwind`].

pub mod abi_regs;
pub mod callconv;
pub mod classify;
pub mod estimate;
pub mod frame;
pub mod frame_laws;
pub mod frame_plan;
pub mod frame_shape;
pub mod function;
pub mod laws;
pub mod legalize;
pub mod legalizer;
pub mod placement;
pub mod plan;
pub mod registers;
pub mod regset;
pub mod result;
pub mod settings;
pub mod signature;
pub mod split;
pub mod stack;
pub mod target;
pub mod types;
pub mod unwind;
