use std::str::FromStr;
use target_lexicon::Triple;
use x86_abi::abi_regs::{
    allocatable_registers, allocatable_registers_for, callee_saved_gprs, callee_saved_gprs_used,
    try_allocatable_registers,
};
use x86_abi::callconv::CallConv;
use x86_abi::function::{Function, InstKind, Position, ValueLoc};
use x86_abi::registers::{
    RegClass, R12, R13, R14, R15, R8, RAX, RBP, RBX, RCX, RDI, RFLAGS, RSI, RSP, XMM0,
};
use x86_abi::regset::RegisterSet;
use x86_abi::result::CodegenError;
use x86_abi::settings::Flags;
use x86_abi::signature::Signature;
use x86_abi::target::{pointer_width, TargetIsa, Width};
use x86_abi::types::{LaneKind, Type};

fn flags(pinned: bool) -> Flags {
    Flags {
        enable_simd: false,
        enable_pinned_reg: pinned,
        probestack_enabled: false,
        probestack_size_log2: 12,
        probestack_func_adjusts_sp: false,
        is_pic: false,
        colocated_libcalls: false,
        baldrdash_prologue_words: 0,
    }
}

fn triple(name: &str) -> Triple {
    Triple::from_str(name).unwrap()
}

#[test]
fn pointer_width_of_x86_64() {
    assert_eq!(pointer_width(&triple("x86_64-unknown-linux-gnu")), Some(Width::U64));
}

#[test]
fn pointer_widths_of_other_targets() {
    assert_eq!(pointer_width(&triple("i686-unknown-linux-gnu")), Some(Width::U32));
    assert_eq!(pointer_width(&triple("msp430-none-elf")), Some(Width::U16));
    assert_eq!(pointer_width(&triple("unknown-unknown-unknown")), None);
    assert_eq!(pointer_width(&triple("aarch64-unknown-linux-gnu")), Some(Width::U64));
}

#[test]
fn widths_in_bits_and_bytes() {
    assert_eq!((Width::U16.bits(), Width::U16.bytes()), (16, 2));
    assert_eq!((Width::U32.bits(), Width::U32.bytes()), (32, 4));
    assert_eq!((Width::U64.bits(), Width::U64.bytes()), (64, 8));
}

#[test]
fn a_target_is_made_for_supported_widths_only() {
    let isa = TargetIsa::new(triple("x86_64-unknown-linux-gnu"), flags(false)).unwrap();
    assert_eq!(isa.pointer_width(), Width::U64);
    assert_eq!(isa.pointer_bytes(), 8);
    assert_eq!(isa.pointer_bits(), 64);
    assert_eq!(isa.pointer_type(), Type::int_type(64).unwrap());
    assert_eq!(isa.triple(), &triple("x86_64-unknown-linux-gnu"));
    assert_eq!(isa.flags(), &flags(false));
    let isa32 = TargetIsa::new(triple("i686-unknown-linux-gnu"), flags(false)).unwrap();
    assert_eq!(isa32.pointer_bytes(), 4);
    assert_eq!(isa32.pointer_type(), Type::int_type(32).unwrap());
    assert!(TargetIsa::new(triple("msp430-none-elf"), flags(false)).is_none());
    assert!(TargetIsa::new(triple("unknown-unknown-unknown"), flags(false)).is_none());
    let mut bad = flags(false);
    bad.probestack_size_log2 = 63;
    assert!(TargetIsa::new(triple("x86_64-unknown-linux-gnu"), bad).is_none());
}

#[test]
fn register_classes_hold_sixteen_units_each() {
    assert_eq!(RegClass::GPR.first(), RAX);
    assert_eq!(RegClass::FPR.first(), XMM0);
    assert_eq!(RegClass::GPR.unit(7), RDI);
    assert_eq!(RegClass::FPR.unit(3), 19);
    assert!(RegClass::GPR.contains(R15));
    assert!(!RegClass::GPR.contains(XMM0));
    assert!(RegClass::FPR.contains(31));
    assert!(!RegClass::FPR.contains(RFLAGS));
}

#[test]
fn register_sets_take_free_and_intersect() {
    let mut all = RegisterSet::new();
    assert!(all.is_avail(RegClass::GPR, RAX));
    assert!(all.is_avail(RegClass::FPR, 31));
    assert!(all.is_avail(RegClass::GPR, 63));
    assert!(!all.is_avail(RegClass::GPR, 64));
    all.take(RegClass::GPR, RCX);
    assert!(!all.is_avail(RegClass::GPR, RCX));
    assert!(all.is_avail(RegClass::GPR, RAX));
    assert_eq!(all.iter(RegClass::GPR).len(), 15);

    let mut some = RegisterSet::empty();
    assert!(!some.is_avail(RegClass::GPR, RAX));
    assert!(some.iter(RegClass::GPR).is_empty());
    some.free(RegClass::GPR, R12);
    some.free(RegClass::GPR, RBX);
    some.free(RegClass::GPR, RCX);
    some.free(RegClass::FPR, XMM0 + 2);
    assert_eq!(some.iter(RegClass::GPR), vec![RCX, RBX, R12]);
    assert_eq!(some.iter(RegClass::FPR), vec![XMM0 + 2]);
    some.intersect(&all);
    assert_eq!(some.iter(RegClass::GPR), vec![RBX, R12]);
    assert_eq!(some.iter(RegClass::FPR), vec![XMM0 + 2]);
}

#[test]
fn allocatable_registers_of_a_64_bit_target() {
    let regs = allocatable_registers(&triple("x86_64-unknown-linux-gnu"), &flags(false));
    assert_eq!(
        regs.iter(RegClass::GPR),
        vec![0, 1, 2, 3, 6, 7, 8, 9, 10, 11, 12, 13, 14, 15]
    );
    assert_eq!(regs.iter(RegClass::FPR).len(), 16);
    assert!(!regs.is_avail(RegClass::GPR, RSP));
    assert!(!regs.is_avail(RegClass::GPR, RBP));
    let pinned = allocatable_registers(&triple("x86_64-unknown-linux-gnu"), &flags(true));
    assert!(!pinned.is_avail(RegClass::GPR, R15));
    assert_eq!(pinned.iter(RegClass::GPR).len(), 13);
}

#[test]
fn allocatable_registers_of_a_32_bit_target() {
    let regs = allocatable_registers(&triple("i686-unknown-linux-gnu"), &flags(false));
    assert_eq!(regs.iter(RegClass::GPR), vec![0, 1, 2, 3, 6, 7]);
    assert_eq!(regs.iter(RegClass::FPR), vec![16, 17, 18, 19, 20, 21, 22, 23]);
    assert!(!regs.is_avail(RegClass::GPR, R8));
    let same = allocatable_registers_for(Width::U32, &flags(false));
    assert_eq!(same.iter(RegClass::GPR), regs.iter(RegClass::GPR));
}

#[test]
fn allocatable_registers_may_be_unsupported() {
    assert_eq!(
        try_allocatable_registers(&triple("i686-unknown-linux-gnu"), &flags(true)).err(),
        Some(CodegenError::Unsupported)
    );
    assert_eq!(
        try_allocatable_registers(&triple("unknown-unknown-unknown"), &flags(false)).err(),
        Some(CodegenError::Unsupported)
    );
    let regs = try_allocatable_registers(&triple("x86_64-unknown-linux-gnu"), &flags(true))
        .unwrap();
    assert_eq!(regs.iter(RegClass::GPR).len(), 13);
}

#[test]
fn callee_saved_registers_of_the_conventions() {
    let isa = TargetIsa::new(triple("x86_64-unknown-linux-gnu"), flags(false)).unwrap();
    assert_eq!(callee_saved_gprs(&isa, CallConv::SystemV), vec![RBX, R12, R13, R14, R15]);
    assert_eq!(
        callee_saved_gprs(&isa, CallConv::WindowsFastcall),
        vec![RBX, RDI, RSI, R12, R13, R14, R15]
    );
    let isa32 = TargetIsa::new(triple("i686-unknown-linux-gnu"), flags(false)).unwrap();
    assert_eq!(callee_saved_gprs(&isa32, CallConv::SystemV), vec![RBX, RSI, RDI]);
}

#[test]
fn the_tracker_finds_the_callee_saved_registers_in_use() {
    let isa = TargetIsa::new(triple("x86_64-unknown-linux-gnu"), flags(false)).unwrap();
    let mut func = Function::new(Signature::new(CallConv::SystemV));
    let block = func.make_block();
    let a = func.make_value(ValueLoc::Reg(RBX));
    let _b = func.make_value(ValueLoc::Reg(RAX));
    let _c = func.make_value(ValueLoc::Reg(RSI));
    let _d = func.make_value(ValueLoc::Stack(0));
    let _e = func.make_value(ValueLoc::Reg(XMM0));
    let _f = func.make_value(ValueLoc::Unassigned);
    func.ins(
        Position { block, index: 0 },
        InstKind::RegMove { src: RBX, dst: R13 },
        vec![a],
        None,
    );
    func.ins(Position { block, index: 1 }, InstKind::RegFill { slot: 0, dst: R15 }, vec![a], None);
    func.ins(
        Position { block, index: 2 },
        InstKind::RegMove { src: RBX, dst: RCX },
        vec![a],
        None,
    );
    func.ins(Position { block, index: 3 }, InstKind::Return, vec![], None);
    let used = callee_saved_gprs_used(&isa, &func);
    assert_eq!(used.iter(RegClass::GPR), vec![RBX, R13, R15]);
    assert!(used.iter(RegClass::FPR).is_empty());

    func.signature.call_conv = CallConv::WindowsFastcall;
    let used = callee_saved_gprs_used(&isa, &func);
    assert_eq!(used.iter(RegClass::GPR), vec![RBX, RSI, R13, R15]);

    let isa32 = TargetIsa::new(triple("i686-unknown-linux-gnu"), flags(false)).unwrap();
    func.signature.call_conv = CallConv::SystemV;
    let used = callee_saved_gprs_used(&isa32, &func);
    assert_eq!(used.iter(RegClass::GPR), vec![RBX, RSI]);
    let _ = (R12, R14);
}

#[test]
fn types_have_kinds_widths_and_halves() {
    let i64t = Type::int_type(64).unwrap();
    assert_eq!(i64t, Type { kind: LaneKind::Int, lane_bits: 64, lanes: 1 });
    assert!(i64t.is_int() && !i64t.is_float() && !i64t.is_bool() && !i64t.is_vector());
    assert_eq!(i64t.bits(), 64);
    assert_eq!(i64t.half_width(), Type::int_type(32));
    assert_eq!(Type::int_type(8).unwrap().half_width(), None);
    assert_eq!(Type::int_type(12), None);
    assert_eq!(Type::float_type(16), None);
    assert_eq!(Type::bool_type(2), None);
    let f64t = Type::float_type(64).unwrap();
    assert!(f64t.is_float());
    assert_eq!(f64t.half_width(), Type::float_type(32));
    assert_eq!(Type::float_type(32).unwrap().half_width(), None);
    let b1 = Type::bool_type(1).unwrap();
    assert!(b1.is_bool());
    assert_eq!(b1.bits(), 1);
    assert_eq!(Type::bool_type(8).unwrap().half_width(), None);
    let v = Type::int_type(32).unwrap().vector_of(4).unwrap();
    assert!(v.is_vector() && !v.is_int());
    assert_eq!(v.bits(), 128);
    assert_eq!(v.half_vector(), Type::int_type(32).unwrap().vector_of(2));
    assert_eq!(v.half_width(), Type::int_type(16).unwrap().vector_of(4));
    assert_eq!(i64t.half_vector(), None);
    assert_eq!(i64t.vector_of(3), None);
    assert_eq!(v.vector_of(2), None);
    assert_eq!(Type::int_type(128).unwrap().vector_of(256).unwrap().bits(), 32768);
}

#[test]
fn conventions_extend_others() {
    assert!(CallConv::WindowsFastcall.extends_windows_fastcall());
    assert!(CallConv::BaldrdashWindows.extends_windows_fastcall());
    assert!(!CallConv::SystemV.extends_windows_fastcall());
    assert!(CallConv::BaldrdashWindows.extends_baldrdash());
    assert!(CallConv::BaldrdashSystemV.extends_baldrdash());
    assert!(!CallConv::Fast.extends_baldrdash());
    assert!(!CallConv::Cold.extends_baldrdash());
    assert!(!CallConv::Probestack.extends_baldrdash());
}
