use std::str::FromStr;
use target_lexicon::Triple;
use x86_abi::callconv::CallConv;
use x86_abi::frame::{
    baldrdash_prologue_epilogue, fastcall_prologue_epilogue, get_probestack_funcref,
    insert_common_epilogue, insert_common_epilogues, insert_common_prologue, insert_stack_check,
    prologue_epilogue, system_v_prologue_epilogue,
};
use x86_abi::function::{
    ExtFuncData, ExternalName, Function, InstKind, IntCC, LibCall, Position, TrapCode, ValueLoc,
};
use x86_abi::plan::{emit, Operand, Step};
use x86_abi::registers::{R11, R12, RAX, RBP, RBX, RDI, RFLAGS, RSI, RSP};
use x86_abi::regset::RegisterSet;
use x86_abi::registers::RegClass;
use x86_abi::result::CodegenError;
use x86_abi::settings::Flags;
use x86_abi::signature::{AbiParam, ArgumentPurpose, Signature};
use x86_abi::stack::{layout_stack, StackSlotData, StackSlotKind, StackSlots};
use x86_abi::target::TargetIsa;
use x86_abi::types::Type;
use x86_abi::unwind::{emit_unwind_info, UnwindCode, UnwindInfo};

fn flags() -> Flags {
    Flags {
        enable_simd: false,
        enable_pinned_reg: false,
        probestack_enabled: false,
        probestack_size_log2: 12,
        probestack_func_adjusts_sp: false,
        is_pic: false,
        colocated_libcalls: false,
        baldrdash_prologue_words: 0,
    }
}

fn isa64(flags: Flags) -> TargetIsa {
    TargetIsa::new(Triple::from_str("x86_64-unknown-linux-gnu").unwrap(), flags).unwrap()
}

fn isa32(flags: Flags) -> TargetIsa {
    TargetIsa::new(Triple::from_str("i686-unknown-linux-gnu").unwrap(), flags).unwrap()
}

fn i64t() -> Type {
    Type::int_type(64).unwrap()
}

/// A function with one parameter that lives in `param_reg`, one block, and
/// in it one other instruction and a return of the parameter.
fn small_function(conv: CallConv, param_reg: u16) -> Function {
    let mut sig = Signature::new(conv);
    sig.params.push(AbiParam::special_reg(i64t(), ArgumentPurpose::Normal, RDI));
    sig.returns.push(AbiParam::special_reg(i64t(), ArgumentPurpose::Normal, RAX));
    let mut func = Function::new(sig);
    let block = func.make_block();
    let v0 = func.make_value(ValueLoc::Reg(param_reg));
    func.append_block_param(block, v0);
    func.ins(Position { block, index: 0 }, InstKind::Other, vec![], None);
    func.ins(Position { block, index: 1 }, InstKind::Return, vec![v0], None);
    func
}

fn kinds(func: &Function, block: usize) -> Vec<InstKind> {
    func.blocks[block].insts.iter().map(|&i| func.insts[i].kind).collect()
}

#[test]
fn stack_layout_places_slots_below_the_incoming_area() {
    let mut frame = StackSlots::new();
    frame.push(StackSlotData {
        kind: StackSlotKind::IncomingArg,
        size: 16,
        offset: Some(-16),
    });
    frame.push(StackSlotData::new(StackSlotKind::ExplicitSlot, 8));
    frame.push(StackSlotData::new(StackSlotKind::SpillSlot, 4));
    frame.push(StackSlotData { kind: StackSlotKind::OutgoingArg, size: 8, offset: Some(0) });
    frame.push(StackSlotData::new(StackSlotKind::EmergencySlot, 3));
    assert_eq!(layout_stack(&mut frame, 16), Ok(48));
    assert_eq!(frame.frame_size, Some(48));
    assert_eq!(
        frame.slots.iter().map(|s| s.offset).collect::<Vec<_>>(),
        vec![Some(-16), Some(-24), Some(-28), Some(0), Some(-31)]
    );
}

#[test]
fn stack_layout_of_no_slots_is_empty() {
    let mut frame = StackSlots::new();
    assert_eq!(layout_stack(&mut frame, 16), Ok(0));
    assert_eq!(frame.frame_size, Some(0));
    let mut one = StackSlots::new();
    one.push(StackSlotData::new(StackSlotKind::StructReturnSlot, 24));
    assert_eq!(layout_stack(&mut one, 16), Ok(32));
    assert_eq!(one.slots[0].offset, Some(-24));
    let mut unaligned = StackSlots::new();
    unaligned.push(StackSlotData::new(StackSlotKind::SpillSlot, 24));
    assert_eq!(layout_stack(&mut unaligned, 1), Ok(24));
}

#[test]
fn stack_layout_fails_on_slots_that_cannot_be_placed() {
    let mut no_offset = StackSlots::new();
    no_offset.push(StackSlotData::new(StackSlotKind::IncomingArg, 8));
    assert_eq!(layout_stack(&mut no_offset, 16), Err(CodegenError::ImplLimitExceeded));
    let mut too_large = StackSlots::new();
    too_large.push(StackSlotData::new(StackSlotKind::SpillSlot, 0x8000_0000));
    assert_eq!(layout_stack(&mut too_large, 16), Err(CodegenError::ImplLimitExceeded));
    let mut too_much = StackSlots::new();
    too_much.push(StackSlotData::new(StackSlotKind::SpillSlot, 0x7fff_fff0));
    too_much.push(StackSlotData::new(StackSlotKind::SpillSlot, 0x20));
    assert_eq!(layout_stack(&mut too_much, 16), Err(CodegenError::ImplLimitExceeded));
    let mut beyond = StackSlots::new();
    beyond.push(StackSlotData {
        kind: StackSlotKind::OutgoingArg,
        size: 16,
        offset: Some(0x7fff_fff8),
    });
    assert_eq!(layout_stack(&mut beyond, 16), Err(CodegenError::ImplLimitExceeded));
    let mut full = StackSlots::new();
    full.push(StackSlotData::new(StackSlotKind::SpillSlot, 0x7fff_fff8));
    assert_eq!(layout_stack(&mut full, 16), Err(CodegenError::ImplLimitExceeded));
    let mut fits = StackSlots::new();
    fits.push(StackSlotData::new(StackSlotKind::SpillSlot, 0x7fff_fff0));
    assert_eq!(layout_stack(&mut fits, 16), Ok(0x7fff_fff0));
}

#[test]
fn system_v_frame_saves_and_restores_what_the_function_uses() {
    let isa = isa64(flags());
    let mut func = small_function(CallConv::SystemV, RBX);
    assert_eq!(prologue_epilogue(&mut func, &isa), Ok(()));

    let fp = AbiParam::special_reg(i64t(), ArgumentPurpose::FramePointer, RBP);
    let csr = AbiParam::special_reg(i64t(), ArgumentPurpose::CalleeSaved, RBX);
    assert_eq!(func.signature.params[1..], [fp, csr]);
    assert_eq!(func.signature.returns[1..], [fp, csr]);
    assert_eq!(func.signature.params.len(), 3);

    assert_eq!(
        func.stack_slots.slots,
        vec![StackSlotData { kind: StackSlotKind::IncomingArg, size: 24, offset: Some(-24) }]
    );
    assert_eq!(func.stack_slots.frame_size, Some(32));

    assert_eq!(
        kinds(&func, 0),
        vec![
            InstKind::X86Push,
            InstKind::CopySpecial { src: RSP, dst: RBP },
            InstKind::X86Push,
            InstKind::AdjustSpDownImm { imm: 8 },
            InstKind::Other,
            InstKind::AdjustSpUpImm { imm: 8 },
            InstKind::X86Pop,
            InstKind::X86Pop,
            InstKind::Return,
        ]
    );
    assert_eq!(func.blocks[0].insts, vec![2, 3, 4, 5, 0, 6, 7, 8, 1]);
    assert_eq!(func.blocks[0].params, vec![0, 1, 2]);
    assert_eq!(
        func.locations,
        vec![
            ValueLoc::Reg(RBX),
            ValueLoc::Reg(RBP),
            ValueLoc::Reg(RBX),
            ValueLoc::Reg(RBX),
            ValueLoc::Reg(RBP),
        ]
    );
    assert_eq!(func.insts[2].args, vec![1]);
    assert_eq!(func.insts[4].args, vec![2]);
    assert_eq!(func.insts[7].result, Some(3));
    assert_eq!(func.insts[8].result, Some(4));
    assert_eq!(func.insts[1].args, vec![0, 4, 3]);
    assert_eq!(func.prologue_end, Some(5));
}

#[test]
fn a_frame_without_locals_only_pushes_and_pops() {
    let isa = isa64(flags());
    let mut func = small_function(CallConv::Fast, RAX);
    assert_eq!(system_v_prologue_epilogue(&mut func, &isa), Ok(()));
    assert_eq!(func.stack_slots.frame_size, Some(16));
    assert_eq!(
        kinds(&func, 0),
        vec![
            InstKind::X86Push,
            InstKind::CopySpecial { src: RSP, dst: RBP },
            InstKind::Other,
            InstKind::X86Pop,
            InstKind::Return,
        ]
    );
    assert_eq!(func.prologue_end, None);
    assert_eq!(func.signature.params.len(), 2);
    assert_eq!(func.insts[1].args, vec![0, 2]);
}

#[test]
fn pushes_and_pops_balance_in_every_block() {
    let isa = isa64(flags());
    let mut func = small_function(CallConv::SystemV, RBX);
    let second = func.make_block();
    let v = func.make_value(ValueLoc::Reg(R12));
    func.ins(Position { block: second, index: 0 }, InstKind::Return, vec![v], None);
    let third = func.make_block();
    func.ins(Position { block: third, index: 0 }, InstKind::Other, vec![], None);
    let _empty = func.make_block();
    func.stack_slots.push(StackSlotData::new(StackSlotKind::ExplicitSlot, 40));
    assert_eq!(prologue_epilogue(&mut func, &isa), Ok(()));
    // Saved: rbx and r12, so the saved area has four words and the locals
    // start 32 bytes down; one slot of 40 bytes at its alignment of 8.
    assert_eq!(func.stack_slots.slots[0].offset, Some(-72));
    assert_eq!(func.stack_slots.frame_size, Some(80));
    let local = 80 - 32;
    let mut sp: i64 = 0;
    let mut pushes = 0;
    for k in kinds(&func, 0).iter().take(5) {
        match k {
            InstKind::X86Push => {
                sp -= 8;
                pushes += 1;
            }
            InstKind::AdjustSpDownImm { imm } => sp -= imm,
            InstKind::CopySpecial { .. } => {}
            other => panic!("unexpected {:?}", other),
        }
    }
    assert_eq!(pushes, 3);
    assert_eq!(sp, -(24 + local));
    for block in [0, 1] {
        let all = kinds(&func, block);
        let n = all.len();
        assert_eq!(
            all[n - 5..],
            [
                InstKind::AdjustSpUpImm { imm: local },
                InstKind::X86Pop,
                InstKind::X86Pop,
                InstKind::X86Pop,
                InstKind::Return,
            ]
        );
    }
    assert_eq!(kinds(&func, 2), vec![InstKind::Other]);
    assert!(kinds(&func, 3).is_empty());
    // The pops restore r12, rbx and the frame pointer, in that order.
    let ret = *func.blocks[1].insts.last().unwrap();
    let args = func.insts[ret].args.clone();
    assert_eq!(args.len(), 4);
    let regs: Vec<ValueLoc> = args[1..].iter().map(|&v| func.locations[v]).collect();
    assert_eq!(regs, vec![ValueLoc::Reg(RBP), ValueLoc::Reg(RBX), ValueLoc::Reg(R12)]);
    let pops: Vec<ValueLoc> = func.blocks[1].insts[1..4]
        .iter()
        .map(|&i| func.locations[func.insts[i].result.unwrap()])
        .collect();
    assert_eq!(pops, vec![ValueLoc::Reg(R12), ValueLoc::Reg(RBX), ValueLoc::Reg(RBP)]);
}

#[test]
fn a_stack_limit_is_checked_before_the_frame_is_set_up() {
    let isa = isa64(flags());
    let mut func = small_function(CallConv::SystemV, RBX);
    func.signature.params.push(AbiParam::special_reg(i64t(), ArgumentPurpose::StackLimit, RSI));
    let limit = func.make_value(ValueLoc::Reg(RSI));
    func.append_block_param(0, limit);
    assert_eq!(prologue_epilogue(&mut func, &isa), Ok(()));
    assert_eq!(
        kinds(&func, 0)[..5],
        [
            InstKind::Copy,
            InstKind::IaddImm { imm: 24 },
            InstKind::IfSp,
            InstKind::Trapif {
                cond: IntCC::UnsignedGreaterThanOrEqual,
                code: TrapCode::StackOverflow,
            },
            InstKind::X86Push,
        ]
    );
    let copy = func.blocks[0].insts[0];
    assert_eq!(func.insts[copy].args, vec![limit]);
    let threshold = func.blocks[0].insts[1];
    assert_eq!(func.insts[threshold].args, vec![func.insts[copy].result.unwrap()]);
    assert_eq!(func.locations[func.insts[threshold].result.unwrap()], ValueLoc::Reg(RAX));
    let flags_value = func.insts[func.blocks[0].insts[2]].result.unwrap();
    assert_eq!(func.locations[flags_value], ValueLoc::Reg(RFLAGS));
    assert_eq!(func.insts[func.blocks[0].insts[3]].args, vec![flags_value]);

    // No check where the frame has no locals.
    let mut plain = small_function(CallConv::SystemV, RAX);
    plain.signature.params.push(AbiParam::special_reg(i64t(), ArgumentPurpose::StackLimit, RSI));
    let limit = plain.make_value(ValueLoc::Reg(RSI));
    plain.append_block_param(0, limit);
    assert_eq!(prologue_epilogue(&mut plain, &isa), Ok(()));
    assert_eq!(kinds(&plain, 0)[0], InstKind::X86Push);
}

#[test]
fn large_frames_are_probed() {
    let mut probing = flags();
    probing.probestack_enabled = true;
    probing.probestack_size_log2 = 3;
    let isa = isa64(probing);
    let mut func = small_function(CallConv::SystemV, RBX);
    func.stack_slots.push(StackSlotData::new(StackSlotKind::ExplicitSlot, 64));
    assert_eq!(prologue_epilogue(&mut func, &isa), Ok(()));
    assert_eq!(func.stack_slots.frame_size, Some(96));
    assert_eq!(
        func.ext_funcs,
        vec![ExtFuncData {
            name: ExternalName::LibCall(LibCall::Probestack),
            signature: 0,
            colocated: false,
        }]
    );
    assert_eq!(func.signatures.len(), 1);
    assert_eq!(func.signatures[0].call_conv, CallConv::Probestack);
    assert_eq!(
        func.signatures[0].params,
        vec![AbiParam::special_reg(i64t(), ArgumentPurpose::Normal, RAX)]
    );
    assert_eq!(func.signatures[0].returns, func.signatures[0].params);
    assert_eq!(
        kinds(&func, 0)[3..7],
        [
            InstKind::Iconst { imm: 72 },
            InstKind::FuncAddr { func_ref: 0 },
            InstKind::CallIndirect { sig_ref: 0 },
            InstKind::AdjustSpDown,
        ]
    );
    let size = func.insts[func.blocks[0].insts[3]].result.unwrap();
    let addr = func.insts[func.blocks[0].insts[4]].result.unwrap();
    let call = func.blocks[0].insts[5];
    assert_eq!(func.locations[size], ValueLoc::Reg(RAX));
    assert_eq!(func.locations[addr], ValueLoc::Reg(R11));
    assert_eq!(func.insts[call].args, vec![addr, size]);
    let given_back = func.insts[call].result.unwrap();
    assert_eq!(func.locations[given_back], ValueLoc::Reg(RAX));
    let lower = func.blocks[0].insts[6];
    assert_eq!(func.insts[lower].args, vec![given_back]);
    assert_eq!(func.prologue_end, Some(lower));
    assert_eq!(kinds(&func, 0)[8], InstKind::AdjustSpUpImm { imm: 72 });
}

#[test]
fn a_probe_routine_that_adjusts_the_stack_pointer_is_only_called() {
    let mut probing = flags();
    probing.probestack_enabled = true;
    probing.probestack_size_log2 = 3;
    probing.probestack_func_adjusts_sp = true;
    probing.is_pic = true;
    probing.colocated_libcalls = true;
    let isa = isa64(probing);
    let mut func = small_function(CallConv::SystemV, RBX);
    func.stack_slots.push(StackSlotData::new(StackSlotKind::ExplicitSlot, 64));
    assert_eq!(prologue_epilogue(&mut func, &isa), Ok(()));
    assert_eq!(
        kinds(&func, 0)[3..6],
        [InstKind::Iconst { imm: 72 }, InstKind::Call { func_ref: 0 }, InstKind::Other]
    );
    assert_eq!(func.insts[func.blocks[0].insts[4]].result, None);
    assert!(func.signatures[0].returns.is_empty());
    assert!(func.ext_funcs[0].colocated);
    assert_eq!(func.prologue_end, None);

    // At the threshold the frame is not probed.
    let mut at = flags();
    at.probestack_enabled = true;
    at.probestack_size_log2 = 3;
    let mut small = small_function(CallConv::SystemV, RBX);
    assert_eq!(prologue_epilogue(&mut small, &isa64(at)), Ok(()));
    assert_eq!(kinds(&small, 0)[3], InstKind::AdjustSpDownImm { imm: 8 });
}

#[test]
fn the_probe_routine_is_looked_up_before_it_is_added() {
    let isa = isa64(flags());
    let mut func = small_function(CallConv::SystemV, RBX);
    func.ext_funcs.push(ExtFuncData {
        name: ExternalName::User { namespace: 0, index: 7 },
        signature: 0,
        colocated: false,
    });
    let first = get_probestack_funcref(&mut func, i64t(), RAX, &isa);
    assert_eq!(first, 1);
    func.ext_funcs.push(ExtFuncData {
        name: ExternalName::LibCall(LibCall::Memcpy),
        signature: 0,
        colocated: false,
    });
    assert_eq!(get_probestack_funcref(&mut func, i64t(), RAX, &isa), 1);
    func.ext_funcs.push(ExtFuncData {
        name: ExternalName::User { namespace: 0, index: 8 },
        signature: 0,
        colocated: false,
    });
    assert_eq!(get_probestack_funcref(&mut func, i64t(), RAX, &isa), 4);
    assert_eq!(func.ext_funcs.len(), 5);
    assert_eq!(func.signatures.len(), 2);
}

#[test]
fn windows_frames_lie_below_the_shadow_store() {
    let isa = isa64(flags());
    let mut func = small_function(CallConv::WindowsFastcall, RDI);
    let v = func.make_value(ValueLoc::Reg(RSI));
    func.ins(Position { block: 0, index: 1 }, InstKind::RegMove { src: RSI, dst: RBX }, vec![v],
        None);
    assert_eq!(prologue_epilogue(&mut func, &isa), Ok(()));
    assert_eq!(
        func.stack_slots.slots,
        vec![StackSlotData { kind: StackSlotKind::IncomingArg, size: 40, offset: Some(-72) }]
    );
    assert_eq!(func.stack_slots.frame_size, Some(80));
    assert_eq!(
        func.signature.params[1..]
            .iter()
            .map(|p| (p.purpose, p.location))
            .collect::<Vec<_>>(),
        vec![
            (ArgumentPurpose::FramePointer, x86_abi::signature::ArgumentLoc::Reg(RBP)),
            (ArgumentPurpose::CalleeSaved, x86_abi::signature::ArgumentLoc::Reg(RBX)),
            (ArgumentPurpose::CalleeSaved, x86_abi::signature::ArgumentLoc::Reg(RSI)),
            (ArgumentPurpose::CalleeSaved, x86_abi::signature::ArgumentLoc::Reg(RDI)),
        ]
    );
    assert_eq!(kinds(&func, 0)[5], InstKind::AdjustSpDownImm { imm: 40 });
    let mut same = small_function(CallConv::WindowsFastcall, RDI);
    let v = same.make_value(ValueLoc::Reg(RSI));
    same.ins(Position { block: 0, index: 1 }, InstKind::RegMove { src: RSI, dst: RBX }, vec![v],
        None);
    assert_eq!(fastcall_prologue_epilogue(&mut same, &isa), Ok(()));
    assert_eq!(kinds(&same, 0), kinds(&func, 0));
}

#[test]
fn a_32_bit_frame_uses_words_of_four_bytes() {
    let isa = isa32(flags());
    let mut func = small_function(CallConv::SystemV, RSI);
    func.stack_slots.push(StackSlotData::new(StackSlotKind::SpillSlot, 4));
    assert_eq!(prologue_epilogue(&mut func, &isa), Ok(()));
    assert_eq!(func.stack_slots.slots[1].size, 12);
    assert_eq!(func.stack_slots.slots[1].offset, Some(-12));
    assert_eq!(func.stack_slots.slots[0].offset, Some(-16));
    assert_eq!(func.stack_slots.frame_size, Some(16));
    assert_eq!(kinds(&func, 0)[3], InstKind::AdjustSpDownImm { imm: 4 });
    assert_eq!(func.signature.params[1].value_type, Type::int_type(32).unwrap());
}

#[test]
fn the_embedder_conventions_only_lay_out_the_frame() {
    let mut words = flags();
    words.baldrdash_prologue_words = 3;
    let isa = isa64(words);
    let mut func = small_function(CallConv::BaldrdashSystemV, RBX);
    assert_eq!(prologue_epilogue(&mut func, &isa), Ok(()));
    assert_eq!(
        func.stack_slots.slots,
        vec![StackSlotData { kind: StackSlotKind::IncomingArg, size: 24, offset: Some(-24) }]
    );
    assert_eq!(func.stack_slots.frame_size, Some(32));
    assert_eq!(kinds(&func, 0), vec![InstKind::Other, InstKind::Return]);
    assert_eq!(func.signature.params.len(), 1);

    let mut win = small_function(CallConv::BaldrdashWindows, RBX);
    assert_eq!(baldrdash_prologue_epilogue(&mut win, &isa), Ok(()));
    assert_eq!(
        win.stack_slots.slots,
        vec![StackSlotData { kind: StackSlotKind::IncomingArg, size: 56, offset: Some(-56) }]
    );
    assert_eq!(win.stack_slots.frame_size, Some(64));
}

#[test]
fn a_frame_that_cannot_be_laid_out_fails() {
    let isa = isa64(flags());
    let mut func = small_function(CallConv::SystemV, RBX);
    func.stack_slots.push(StackSlotData::new(StackSlotKind::OutgoingArg, 8));
    assert_eq!(prologue_epilogue(&mut func, &isa), Err(CodegenError::ImplLimitExceeded));
    let mut embedded = small_function(CallConv::BaldrdashSystemV, RBX);
    embedded.stack_slots.push(StackSlotData::new(StackSlotKind::SpillSlot, 0x7fff_ffff));
    assert_eq!(prologue_epilogue(&mut embedded, &isa), Err(CodegenError::ImplLimitExceeded));
}

#[test]
fn the_parts_of_a_frame_can_be_inserted_one_by_one() {
    let isa = isa64(flags());
    let mut func = small_function(CallConv::SystemV, RBX);
    let mut csrs = RegisterSet::empty();
    csrs.free(RegClass::GPR, R12);
    csrs.free(RegClass::GPR, RBX);
    let mut pos = Position { block: 0, index: 0 };
    insert_stack_check(&mut func, &mut pos, 100, 0);
    assert_eq!(pos, Position { block: 0, index: 4 });
    assert_eq!(kinds(&func, 0)[1], InstKind::IaddImm { imm: 100 });
    insert_common_prologue(&mut func, &mut pos, 16, i64t(), &csrs, &isa);
    assert_eq!(pos, Position { block: 0, index: 9 });
    assert_eq!(
        kinds(&func, 0)[4..9],
        [
            InstKind::X86Push,
            InstKind::CopySpecial { src: RSP, dst: RBP },
            InstKind::X86Push,
            InstKind::X86Push,
            InstKind::AdjustSpDownImm { imm: 16 },
        ]
    );
    let pushed: Vec<ValueLoc> = [4usize, 6, 7]
        .iter()
        .map(|&i| func.locations[func.insts[func.blocks[0].insts[i]].args[0]])
        .collect();
    assert_eq!(pushed, vec![ValueLoc::Reg(RBP), ValueLoc::Reg(RBX), ValueLoc::Reg(R12)]);

    let mut at_return = Position { block: 0, index: 10 };
    let ret = func.blocks[0].insts[10];
    insert_common_epilogue(ret, 16, &mut func, &mut at_return, i64t(), &csrs);
    assert_eq!(at_return, Position { block: 0, index: 14 });
    assert_eq!(func.blocks[0].insts[14], ret);
    assert_eq!(
        kinds(&func, 0)[10..],
        [
            InstKind::AdjustSpUpImm { imm: 16 },
            InstKind::X86Pop,
            InstKind::X86Pop,
            InstKind::X86Pop,
            InstKind::Return,
        ]
    );

    let mut other = small_function(CallConv::SystemV, RBX);
    insert_common_epilogues(&mut other, 0, i64t(), &csrs);
    assert_eq!(
        kinds(&other, 0),
        vec![
            InstKind::Other,
            InstKind::X86Pop,
            InstKind::X86Pop,
            InstKind::X86Pop,
            InstKind::Return,
        ]
    );
}

#[test]
fn plans_resolve_the_values_that_they_create() {
    let mut func = small_function(CallConv::SystemV, RBX);
    let mut pos = Position { block: 0, index: 1 };
    let plan = vec![
        Step::Param { reg: RDI },
        Step::Inst {
            kind: InstKind::Copy,
            first: Some(Operand::Fresh(0)),
            second: None,
            result: Some(ValueLoc::Reg(RSI)),
        },
        Step::Inst {
            kind: InstKind::CallIndirect { sig_ref: 3 },
            first: Some(Operand::Fresh(1)),
            second: Some(Operand::Value(0)),
            result: None,
        },
    ];
    let (fresh, last) = emit(&mut func, &mut pos, &plan);
    assert_eq!(fresh, vec![1, 2]);
    assert_eq!(last, Some(3));
    assert_eq!(pos, Position { block: 0, index: 3 });
    assert_eq!(func.blocks[0].insts, vec![0, 2, 3, 1]);
    assert_eq!(func.blocks[0].params, vec![0, 1]);
    assert_eq!(func.insts[2].args, vec![1]);
    assert_eq!(func.insts[2].result, Some(2));
    assert_eq!(func.insts[3].args, vec![2, 0]);
    assert_eq!(func.special_param(ArgumentPurpose::Normal), Some(0));
    assert_eq!(func.special_param(ArgumentPurpose::StackLimit), None);
}

#[test]
fn unwind_information_describes_a_windows_prologue() {
    let isa = isa64(flags());
    let mut func = small_function(CallConv::WindowsFastcall, RDI);
    let v = func.make_value(ValueLoc::Reg(RSI));
    func.ins(Position { block: 0, index: 1 }, InstKind::RegMove { src: RSI, dst: RAX }, vec![v],
        None);
    assert_eq!(prologue_epilogue(&mut func, &isa), Ok(()));
    assert_eq!(
        kinds(&func, 0)[..5],
        [
            InstKind::X86Push,
            InstKind::CopySpecial { src: RSP, dst: RBP },
            InstKind::X86Push,
            InstKind::X86Push,
            InstKind::AdjustSpDownImm { imm: 32 },
        ]
    );
    func.encoded_sizes = vec![0; func.insts.len()];
    for (&inst, size) in func.blocks[0].insts.iter().zip([1u8, 3, 1, 1, 4]) {
        func.encoded_sizes[inst] = size;
    }
    let info = UnwindInfo::try_from_func(&func, &isa, Some(RBP)).unwrap().unwrap();
    assert_eq!(info.prologue_size, 10);
    assert_eq!(info.frame_register, Some(RBP));
    assert_eq!(
        info.unwind_codes,
        vec![
            UnwindCode::PushRegister { offset: 1, reg: RBP },
            UnwindCode::SetFramePointer { offset: 4, sp_offset: 0 },
            UnwindCode::PushRegister { offset: 5, reg: RSI },
            UnwindCode::PushRegister { offset: 6, reg: RDI },
            UnwindCode::StackAlloc { offset: 10, size: 32 },
        ]
    );
    assert_eq!(info.node_count(), 5);
    let mut mem = vec![0xaa, 0xbb, 0xcc, 0xdd];
    assert_eq!(emit_unwind_info(&func, &isa, &mut mem), Ok(()));
    assert_eq!(
        mem,
        vec![0xaa, 0xbb, 0xcc, 0xdd, 1, 10, 5, 5, 10, 50, 6, 112, 5, 96, 4, 3, 1, 80, 0, 0]
    );
}

#[test]
fn unwind_codes_are_written_by_their_size() {
    let mut mem = Vec::new();
    UnwindCode::StackAlloc { offset: 7, size: 128 }.emit(&mut mem);
    assert_eq!(mem, vec![7, 242]);
    mem.clear();
    UnwindCode::StackAlloc { offset: 7, size: 136 }.emit(&mut mem);
    assert_eq!(mem, vec![7, 1, 17, 0]);
    mem.clear();
    UnwindCode::StackAlloc { offset: 9, size: 524280 }.emit(&mut mem);
    assert_eq!(mem, vec![9, 1, 0xff, 0xff]);
    mem.clear();
    UnwindCode::StackAlloc { offset: 9, size: 524288 }.emit(&mut mem);
    assert_eq!(mem, vec![9, 17, 0, 0, 8, 0]);
    mem.clear();
    UnwindCode::StackAlloc { offset: 9, size: 0x1234_5678 }.emit(&mut mem);
    assert_eq!(mem, vec![9, 17, 0x78, 0x56, 0x34, 0x12]);
    mem.clear();
    UnwindCode::PushRegister { offset: 2, reg: 15 }.emit(&mut mem);
    assert_eq!(mem, vec![2, 240]);
    assert_eq!(UnwindCode::StackAlloc { offset: 0, size: 128 }.node_count(), 1);
    assert_eq!(UnwindCode::StackAlloc { offset: 0, size: 136 }.node_count(), 2);
    assert_eq!(UnwindCode::StackAlloc { offset: 0, size: 524288 }.node_count(), 3);
    let even = UnwindInfo {
        flags: 0,
        prologue_size: 4,
        frame_register: None,
        frame_register_offset: 0,
        unwind_codes: vec![
            UnwindCode::PushRegister { offset: 1, reg: RBX },
            UnwindCode::StackAlloc { offset: 4, size: 8 },
        ],
    };
    let mut out = Vec::new();
    even.emit(&mut out);
    assert_eq!(out, vec![1, 4, 2, 0, 4, 2, 1, 48]);
}

#[test]
fn functions_without_a_windows_prologue_have_no_unwind_information() {
    let isa = isa64(flags());
    let mut func = small_function(CallConv::SystemV, RBX);
    assert_eq!(prologue_epilogue(&mut func, &isa), Ok(()));
    func.encoded_sizes = vec![1; func.insts.len()];
    let mut mem = Vec::new();
    assert_eq!(emit_unwind_info(&func, &isa, &mut mem), Ok(()));
    assert!(mem.is_empty());

    // No noted end of the prologue: a frame without locals.
    let mut bare = small_function(CallConv::WindowsFastcall, RAX);
    bare.signature.call_conv = CallConv::WindowsFastcall;
    assert!(UnwindInfo::try_from_func(&bare, &isa, Some(RBP)).unwrap().is_none());

    // The noted end is not in the entry block.
    let mut lost = small_function(CallConv::WindowsFastcall, RDI);
    assert_eq!(prologue_epilogue(&mut lost, &isa), Ok(()));
    lost.encoded_sizes = vec![1; lost.insts.len()];
    lost.prologue_end = Some(1000);
    assert_eq!(emit_unwind_info(&lost, &isa, &mut mem), Ok(()));
    assert!(mem.is_empty());
}

#[test]
fn malformed_prologues_are_reported() {
    let isa = isa64(flags());
    let mut func = small_function(CallConv::WindowsFastcall, RDI);
    assert_eq!(prologue_epilogue(&mut func, &isa), Ok(()));
    let mut mem = vec![1, 2, 3, 4];

    // Not encoded yet.
    assert_eq!(emit_unwind_info(&func, &isa, &mut mem), Err(CodegenError::MalformedPrologue));
    assert_eq!(mem, vec![1, 2, 3, 4]);

    // A prologue of more than 255 bytes.
    func.encoded_sizes = vec![100; func.insts.len()];
    assert_eq!(emit_unwind_info(&func, &isa, &mut mem), Err(CodegenError::ImplLimitExceeded));

    // A pushed value that lives in no register.
    func.encoded_sizes = vec![1; func.insts.len()];
    let pushed = func.insts[func.blocks[0].insts[0]].args[0];
    func.locations[pushed] = ValueLoc::Stack(0);
    assert_eq!(emit_unwind_info(&func, &isa, &mut mem), Err(CodegenError::MalformedPrologue));
    func.locations[pushed] = ValueLoc::Reg(RBP);

    // An allocation that is no multiple of eight.
    let alloc = func.prologue_end.unwrap();
    func.insts[alloc].kind = InstKind::AdjustSpDownImm { imm: 12 };
    assert_eq!(emit_unwind_info(&func, &isa, &mut mem), Err(CodegenError::MalformedPrologue));

    // The stack pointer lowered by a register without a constant.
    func.insts[alloc].kind = InstKind::AdjustSpDown;
    assert_eq!(emit_unwind_info(&func, &isa, &mut mem), Err(CodegenError::MalformedPrologue));
    assert_eq!(mem, vec![1, 2, 3, 4]);
}

#[test]
fn a_failed_layout_leaves_code_and_signature_alone() {
    let isa = isa64(flags());
    for conv in [CallConv::SystemV, CallConv::WindowsFastcall, CallConv::BaldrdashSystemV] {
        let mut func = small_function(conv, RBX);
        func.stack_slots.push(StackSlotData::new(StackSlotKind::SpillSlot, 8));
        func.stack_slots.push(StackSlotData::new(StackSlotKind::SpillSlot, 0x7fff_fff0));
        let before_kinds = kinds(&func, 0);
        let before_insts = func.blocks[0].insts.clone();
        let before_params = func.blocks[0].params.clone();
        let before_sig = func.signature.clone();
        let before_values = func.locations.clone();
        assert_eq!(prologue_epilogue(&mut func, &isa), Err(CodegenError::ImplLimitExceeded));
        assert_eq!(kinds(&func, 0), before_kinds);
        assert_eq!(func.blocks[0].insts, before_insts);
        assert_eq!(func.blocks[0].params, before_params);
        assert_eq!(func.insts.len(), 2);
        assert_eq!(func.insts[1].args, vec![0]);
        assert_eq!(func.signature.params, before_sig.params);
        assert_eq!(func.signature.returns, before_sig.returns);
        assert_eq!(func.locations, before_values);
        assert!(func.ext_funcs.is_empty() && func.signatures.is_empty());
        assert_eq!(func.prologue_end, None);
        assert_eq!(func.stack_slots.frame_size, None);
        assert_eq!(func.stack_slots.slots.len(), 3);
        assert_eq!(
            func.stack_slots.slots.iter().map(|s| (s.kind, s.size)).collect::<Vec<_>>()[..2],
            [(StackSlotKind::SpillSlot, 8), (StackSlotKind::SpillSlot, 0x7fff_fff0)]
        );
        assert_eq!(func.stack_slots.slots[2].kind, StackSlotKind::IncomingArg);
    }
}

#[test]
fn a_failed_stack_layout_keeps_the_slots() {
    let mut frame = StackSlots::new();
    frame.push(StackSlotData::new(StackSlotKind::SpillSlot, 8));
    frame.push(StackSlotData::new(StackSlotKind::ExplicitSlot, 0x7fff_fff8));
    frame.push(StackSlotData::new(StackSlotKind::SpillSlot, 4));
    assert_eq!(layout_stack(&mut frame, 16), Err(CodegenError::ImplLimitExceeded));
    assert_eq!(frame.frame_size, None);
    assert_eq!(
        frame.slots.iter().map(|s| (s.kind, s.size)).collect::<Vec<_>>(),
        vec![
            (StackSlotKind::SpillSlot, 8),
            (StackSlotKind::ExplicitSlot, 0x7fff_fff8),
            (StackSlotKind::SpillSlot, 4),
        ]
    );
}
