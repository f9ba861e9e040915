use std::str::FromStr;
use target_lexicon::Triple;
use x86_abi::callconv::CallConv;
use x86_abi::classify::{regclass_for_abi_type, ArgAction, Args, ValueConversion};
use x86_abi::estimate::num_return_registers_required;
use x86_abi::legalize::legalize_args;
use x86_abi::legalizer::{
    legalize_signature, legalize_signature_for, legalize_signature_with_pools,
    try_legalize_signature,
};
use x86_abi::registers::{
    RegClass, R10, R14, R8, R9, RAX, RCX, RDI, RDX, RSI, XMM0,
};
use x86_abi::result::CodegenError;
use x86_abi::settings::{Flags, IsaFlags};
use x86_abi::signature::{
    AbiParam, ArgumentExtension, ArgumentLoc, ArgumentPurpose, Signature,
};
use x86_abi::target::Width;
use x86_abi::types::Type;

fn flags(simd: bool) -> Flags {
    Flags {
        enable_simd: simd,
        enable_pinned_reg: false,
        probestack_enabled: false,
        probestack_size_log2: 12,
        probestack_func_adjusts_sp: false,
        is_pic: false,
        colocated_libcalls: false,
        baldrdash_prologue_words: 0,
    }
}

fn isa_flags() -> IsaFlags {
    IsaFlags { has_sse3: false, has_sse41: false, has_avx: false }
}

fn ity(bits: u16) -> Type {
    Type::int_type(bits).unwrap()
}

fn fty(bits: u16) -> Type {
    Type::float_type(bits).unwrap()
}

fn sig(conv: CallConv, params: Vec<Type>, returns: Vec<Type>) -> Signature {
    let mut s = Signature::new(conv);
    for t in params {
        s.params.push(AbiParam::new(t));
    }
    for t in returns {
        s.returns.push(AbiParam::new(t));
    }
    s
}

fn x64() -> Triple {
    Triple::from_str("x86_64-unknown-linux-gnu").unwrap()
}

fn x86() -> Triple {
    Triple::from_str("i686-unknown-linux-gnu").unwrap()
}

fn locs(list: &[AbiParam]) -> Vec<ArgumentLoc> {
    list.iter().map(|p| p.location).collect()
}

#[test]
fn six_integer_parameters_use_the_six_registers_in_order() {
    let mut s = sig(CallConv::SystemV, vec![ity(64); 6], vec![ity(64)]);
    legalize_signature(&mut s, &x64(), true, &flags(false), &isa_flags());
    assert_eq!(
        locs(&s.params),
        vec![
            ArgumentLoc::Reg(RDI),
            ArgumentLoc::Reg(RSI),
            ArgumentLoc::Reg(RDX),
            ArgumentLoc::Reg(RCX),
            ArgumentLoc::Reg(R8),
            ArgumentLoc::Reg(R9),
        ]
    );
    assert_eq!(locs(&s.returns), vec![ArgumentLoc::Reg(RAX)]);
    assert!(s.params.iter().all(|p| !p.location.is_stack()));
    assert_eq!(s.params.len(), 6);
}

#[test]
fn eight_integer_parameters_put_the_last_two_on_the_stack() {
    let mut s = sig(CallConv::SystemV, vec![ity(64); 8], vec![ity(64)]);
    legalize_signature(&mut s, &x64(), true, &flags(false), &isa_flags());
    assert_eq!(
        locs(&s.params),
        vec![
            ArgumentLoc::Reg(RDI),
            ArgumentLoc::Reg(RSI),
            ArgumentLoc::Reg(RDX),
            ArgumentLoc::Reg(RCX),
            ArgumentLoc::Reg(R8),
            ArgumentLoc::Reg(R9),
            ArgumentLoc::Stack(0),
            ArgumentLoc::Stack(8),
        ]
    );
    assert_eq!(locs(&s.returns), vec![ArgumentLoc::Reg(RAX)]);
}

#[test]
fn three_returns_with_two_return_registers_go_through_memory() {
    let mut s = sig(CallConv::SystemV, vec![ity(64)], vec![ity(64); 3]);
    legalize_signature_with_pools(
        &mut s,
        64,
        vec![RDI, RSI, RDX, RCX, R8, R9],
        8,
        vec![RAX, RDX],
        2,
        &flags(false),
        &isa_flags(),
    );
    assert_eq!(s.params.len(), 2);
    assert_eq!(s.params[0].purpose, ArgumentPurpose::Normal);
    assert_eq!(s.params[0].location, ArgumentLoc::Reg(RSI));
    assert_eq!(
        s.params[1],
        AbiParam {
            value_type: ity(64),
            purpose: ArgumentPurpose::StructReturn,
            extension: ArgumentExtension::Unextended,
            location: ArgumentLoc::Reg(RDI),
        }
    );
    assert_eq!(
        s.returns,
        vec![AbiParam {
            value_type: ity(64),
            purpose: ArgumentPurpose::StructReturn,
            extension: ArgumentExtension::Unextended,
            location: ArgumentLoc::Reg(RAX),
        }]
    );
    assert!(s.returns.iter().all(|r| r.purpose != ArgumentPurpose::Normal));
}

#[test]
fn three_returns_fit_the_three_return_registers() {
    let mut s = sig(CallConv::SystemV, vec![], vec![ity(64); 3]);
    legalize_signature(&mut s, &x64(), true, &flags(false), &isa_flags());
    assert!(s.params.is_empty());
    assert_eq!(
        locs(&s.returns),
        vec![ArgumentLoc::Reg(RAX), ArgumentLoc::Reg(RDX), ArgumentLoc::Reg(RCX)]
    );
}

#[test]
fn four_returns_go_through_memory() {
    let mut s = sig(CallConv::SystemV, vec![ity(32)], vec![ity(64); 4]);
    legalize_signature(&mut s, &x64(), true, &flags(false), &isa_flags());
    assert_eq!(s.params.len(), 2);
    assert_eq!(s.params[1].purpose, ArgumentPurpose::StructReturn);
    assert_eq!(s.params[1].location, ArgumentLoc::Reg(RDI));
    assert_eq!(s.params[0].location, ArgumentLoc::Reg(RSI));
    assert_eq!(s.returns.len(), 1);
    assert_eq!(s.returns[0].purpose, ArgumentPurpose::StructReturn);
    assert_eq!(s.returns[0].location, ArgumentLoc::Reg(RAX));
}

#[test]
fn windows_returns_two_values_through_memory() {
    let mut s = sig(CallConv::WindowsFastcall, vec![ity(64)], vec![ity(64), ity(64)]);
    legalize_signature(&mut s, &x64(), true, &flags(false), &isa_flags());
    assert_eq!(locs(&s.params), vec![ArgumentLoc::Reg(RDX), ArgumentLoc::Reg(RCX)]);
    assert_eq!(s.params[1].purpose, ArgumentPurpose::StructReturn);
    assert_eq!(locs(&s.returns), vec![ArgumentLoc::Reg(RAX)]);
}

#[test]
fn legalizing_twice_changes_nothing() {
    let mut s = sig(
        CallConv::SystemV,
        vec![ity(64), fty(64), ity(128), ity(8), ity(64), ity(64), ity(64), ity(64)],
        vec![ity(64), fty(32)],
    );
    s.params[3].extension = ArgumentExtension::Sext;
    legalize_signature(&mut s, &x64(), true, &flags(false), &isa_flags());
    let once = s.clone();
    legalize_signature(&mut s, &x64(), true, &flags(false), &isa_flags());
    assert_eq!(s.params, once.params);
    assert_eq!(s.returns, once.returns);

    let mut t = sig(CallConv::SystemV, vec![ity(64)], vec![ity(64); 5]);
    legalize_signature(&mut t, &x64(), true, &flags(false), &isa_flags());
    let once = t.clone();
    legalize_signature(&mut t, &x64(), true, &flags(false), &isa_flags());
    assert_eq!(t.params, once.params);
    assert_eq!(t.returns, once.returns);
}

#[test]
fn every_entry_gets_a_location_and_no_register_twice() {
    let mut s = sig(
        CallConv::SystemV,
        vec![
            ity(64),
            fty(64),
            ity(128),
            fty(32),
            ity(64),
            ity(64),
            ity(64),
            ity(64),
            fty(64),
            ity(32),
        ],
        vec![ity(64), fty(64)],
    );
    legalize_signature(&mut s, &x64(), true, &flags(false), &isa_flags());
    assert_eq!(
        locs(&s.params),
        vec![
            ArgumentLoc::Reg(RDI),
            ArgumentLoc::Reg(XMM0),
            ArgumentLoc::Reg(RSI),
            ArgumentLoc::Reg(RDX),
            ArgumentLoc::Reg(XMM0 + 1),
            ArgumentLoc::Reg(RCX),
            ArgumentLoc::Reg(R8),
            ArgumentLoc::Reg(R9),
            ArgumentLoc::Stack(0),
            ArgumentLoc::Reg(XMM0 + 2),
            ArgumentLoc::Stack(8),
        ]
    );
    for list in [&s.params, &s.returns] {
        let mut regs: Vec<u16> = Vec::new();
        let mut last_offset = -1;
        for p in list.iter() {
            match p.location {
                ArgumentLoc::Unassigned => panic!("unassigned"),
                ArgumentLoc::Reg(r) => {
                    assert!(!regs.contains(&r));
                    regs.push(r);
                }
                ArgumentLoc::Stack(o) => {
                    assert!(o >= 0 && o % 8 == 0 && o > last_offset);
                    last_offset = o;
                }
            }
        }
    }
    assert_eq!(locs(&s.returns), vec![ArgumentLoc::Reg(RAX), ArgumentLoc::Reg(XMM0)]);
}

#[test]
fn windows_shares_one_index_and_starts_above_the_shadow_store() {
    let mut s = sig(
        CallConv::WindowsFastcall,
        vec![ity(64), fty(64), ity(64), fty(32), ity(64), fty(64)],
        vec![fty(64)],
    );
    legalize_signature(&mut s, &x64(), true, &flags(false), &isa_flags());
    assert_eq!(
        locs(&s.params),
        vec![
            ArgumentLoc::Reg(RCX),
            ArgumentLoc::Reg(XMM0 + 1),
            ArgumentLoc::Reg(R8),
            ArgumentLoc::Reg(XMM0 + 3),
            ArgumentLoc::Stack(32),
            ArgumentLoc::Stack(40),
        ]
    );
    assert_eq!(locs(&s.returns), vec![ArgumentLoc::Reg(XMM0)]);
}

#[test]
fn a_wide_integer_splits_into_pointer_sized_parts() {
    let mut s = sig(CallConv::SystemV, vec![ity(128)], vec![]);
    s.params[0].purpose = ArgumentPurpose::Normal;
    legalize_signature(&mut s, &x64(), true, &flags(false), &isa_flags());
    assert_eq!(s.params.len(), 2);
    assert!(s.params.iter().all(|p| p.value_type == ity(64)));
    assert_eq!(locs(&s.params), vec![ArgumentLoc::Reg(RDI), ArgumentLoc::Reg(RSI)]);

    let mut t = sig(CallConv::SystemV, vec![ity(128), ity(64)], vec![]);
    legalize_signature(&mut t, &x86(), true, &flags(false), &isa_flags());
    assert_eq!(t.params.len(), 6);
    assert!(t.params.iter().all(|p| p.value_type == ity(32)));
    assert_eq!(
        locs(&t.params),
        vec![
            ArgumentLoc::Stack(0),
            ArgumentLoc::Stack(4),
            ArgumentLoc::Stack(8),
            ArgumentLoc::Stack(12),
            ArgumentLoc::Stack(16),
            ArgumentLoc::Stack(20),
        ]
    );
}

#[test]
fn a_narrow_integer_is_extended_as_asked() {
    let mut s = sig(CallConv::SystemV, vec![ity(8), ity(16), ity(32)], vec![]);
    s.params[0] = s.params[0].uext();
    s.params[1] = s.params[1].sext();
    legalize_signature(&mut s, &x64(), true, &flags(false), &isa_flags());
    assert_eq!(s.params[0].value_type, ity(64));
    assert_eq!(s.params[0].extension, ArgumentExtension::Uext);
    assert_eq!(s.params[1].value_type, ity(64));
    assert_eq!(s.params[1].extension, ArgumentExtension::Sext);
    assert_eq!(s.params[2].value_type, ity(32));
    assert_eq!(
        locs(&s.params),
        vec![ArgumentLoc::Reg(RDI), ArgumentLoc::Reg(RSI), ArgumentLoc::Reg(RDX)]
    );
}

#[test]
fn vectors_stay_whole_with_simd_and_are_split_without() {
    let v = fty(32).vector_of(4).unwrap();
    let mut s = sig(CallConv::SystemV, vec![v], vec![]);
    legalize_signature(&mut s, &x64(), true, &flags(true), &isa_flags());
    assert_eq!(s.params.len(), 1);
    assert_eq!(s.params[0].value_type, v);
    assert_eq!(s.params[0].location, ArgumentLoc::Reg(XMM0));

    let mut t = sig(CallConv::SystemV, vec![v], vec![]);
    legalize_signature(&mut t, &x64(), true, &flags(false), &isa_flags());
    assert_eq!(t.params.len(), 4);
    assert!(t.params.iter().all(|p| p.value_type == fty(32)));
    assert_eq!(
        locs(&t.params),
        vec![
            ArgumentLoc::Reg(XMM0),
            ArgumentLoc::Reg(XMM0 + 1),
            ArgumentLoc::Reg(XMM0 + 2),
            ArgumentLoc::Reg(XMM0 + 3),
        ]
    );
}

#[test]
fn the_embedder_conventions_pin_their_special_values() {
    let mut s = sig(CallConv::BaldrdashSystemV, vec![ity(64), ity(64), ity(64)], vec![]);
    s.params[0].purpose = ArgumentPurpose::VMContext;
    s.params[1].purpose = ArgumentPurpose::SignatureId;
    legalize_signature(&mut s, &x64(), true, &flags(false), &isa_flags());
    assert_eq!(
        locs(&s.params),
        vec![ArgumentLoc::Reg(R14), ArgumentLoc::Reg(R10), ArgumentLoc::Reg(RDI)]
    );

    let mut t = sig(CallConv::BaldrdashSystemV, vec![ity(32), ity(32), ity(32)], vec![]);
    t.params[0].purpose = ArgumentPurpose::VMContext;
    t.params[1].purpose = ArgumentPurpose::SignatureId;
    legalize_signature(&mut t, &x86(), true, &flags(false), &isa_flags());
    assert_eq!(
        locs(&t.params),
        vec![ArgumentLoc::Reg(RSI), ArgumentLoc::Reg(RCX), ArgumentLoc::Stack(0)]
    );

    let mut u = sig(CallConv::SystemV, vec![ity(64)], vec![]);
    u.params[0].purpose = ArgumentPurpose::VMContext;
    legalize_signature(&mut u, &x64(), true, &flags(false), &isa_flags());
    assert_eq!(locs(&u.params), vec![ArgumentLoc::Reg(RDI)]);
}

#[test]
fn entries_with_a_location_are_left_alone() {
    let mut s = sig(CallConv::SystemV, vec![ity(64), ity(64)], vec![]);
    s.params[0].location = ArgumentLoc::Stack(24);
    legalize_signature(&mut s, &x64(), true, &flags(false), &isa_flags());
    assert_eq!(locs(&s.params), vec![ArgumentLoc::Stack(24), ArgumentLoc::Reg(RDI)]);
}

#[test]
fn legalize_args_says_when_nothing_changed() {
    let mut aa = Args::new(64, vec![RDI, RSI], 8, CallConv::SystemV, &flags(false), &isa_flags());
    let assigned = vec![AbiParam::special_reg(ity(64), ArgumentPurpose::Normal, RAX)];
    assert_eq!(legalize_args(&assigned, &mut aa), None);
    assert_eq!(aa.gpr_used, 0);
    let open = vec![AbiParam::new(ity(64)), AbiParam::new(fty(64)), AbiParam::new(ity(64)),
        AbiParam::new(ity(64))];
    let done = legalize_args(&open, &mut aa).unwrap();
    assert_eq!(
        locs(&done),
        vec![
            ArgumentLoc::Reg(RDI),
            ArgumentLoc::Reg(XMM0),
            ArgumentLoc::Reg(RSI),
            ArgumentLoc::Stack(0),
        ]
    );
    assert_eq!(aa.gpr_used, 2);
    assert_eq!(aa.fpr_used, 1);
    assert_eq!(aa.offset, 8);
}

#[test]
fn the_classifier_answers_one_value_at_a_time() {
    let mut aa = Args::new(64, vec![RDI], 1, CallConv::SystemV, &flags(false), &isa_flags());
    assert_eq!(aa.pointer_bytes, 8);
    assert_eq!(aa.pointer_type, ity(64));
    assert_eq!(aa.offset, 0);
    assert_eq!(
        aa.assign(&AbiParam::new(ity(128))),
        ArgAction::Convert(ValueConversion::IntSplit)
    );
    assert_eq!(
        aa.assign(&AbiParam::new(ity(64).vector_of(2).unwrap())),
        ArgAction::Convert(ValueConversion::VectorSplit)
    );
    assert_eq!(
        aa.assign(&AbiParam::new(ity(16)).uext()),
        ArgAction::Convert(ValueConversion::Uext(ity(64)))
    );
    assert_eq!(
        aa.assign(&AbiParam::new(ity(16)).sext()),
        ArgAction::Convert(ValueConversion::Sext(ity(64)))
    );
    assert_eq!(aa.assign(&AbiParam::new(ity(16))), ArgAction::Assign(ArgumentLoc::Reg(RDI)));
    assert_eq!(aa.assign(&AbiParam::new(ity(64))), ArgAction::Assign(ArgumentLoc::Stack(0)));
    assert_eq!(aa.assign(&AbiParam::new(fty(64))), ArgAction::Assign(ArgumentLoc::Reg(XMM0)));
    assert_eq!(aa.assign(&AbiParam::new(fty(64))), ArgAction::Assign(ArgumentLoc::Stack(8)));
    let win = Args::new(64, vec![RCX], 1, CallConv::WindowsFastcall, &flags(false), &isa_flags());
    assert_eq!(win.offset, 32);
}

#[test]
fn conversions_apply_to_types() {
    assert_eq!(ValueConversion::IntSplit.apply(ity(64)), ity(32));
    assert_eq!(
        ValueConversion::VectorSplit.apply(fty(32).vector_of(4).unwrap()),
        fty(32).vector_of(2).unwrap()
    );
    assert_eq!(ValueConversion::IntBits.apply(fty(32)), ity(32));
    assert_eq!(ValueConversion::Sext(ity(64)).apply(ity(8)), ity(64));
    assert_eq!(ValueConversion::Uext(ity(32)).apply(ity(8)), ity(32));
    assert!(ValueConversion::IntSplit.is_split());
    assert!(ValueConversion::VectorSplit.is_split());
    assert!(!ValueConversion::IntBits.is_split());
}

#[test]
fn the_estimator_counts_registers_by_class() {
    let list = vec![
        AbiParam::new(ity(64)),
        AbiParam::new(ity(128)),
        AbiParam::new(fty(64)),
        AbiParam::new(fty(32).vector_of(4).unwrap()),
        AbiParam::special_reg(ity(64), ArgumentPurpose::Normal, RAX),
        AbiParam::special_reg(fty(64), ArgumentPurpose::Normal, XMM0),
        AbiParam {
            value_type: ity(64),
            purpose: ArgumentPurpose::Normal,
            extension: ArgumentExtension::Unextended,
            location: ArgumentLoc::Stack(0),
        },
        AbiParam::new(ity(8)).sext(),
    ];
    assert_eq!(
        num_return_registers_required(64, CallConv::SystemV, &flags(false), &isa_flags(), &list),
        (5, 6)
    );
    assert_eq!(
        num_return_registers_required(64, CallConv::SystemV, &flags(true), &isa_flags(), &list),
        (5, 3)
    );
    assert_eq!(
        num_return_registers_required(32, CallConv::SystemV, &flags(true), &isa_flags(), &list),
        (8, 3)
    );
    let wide = vec![AbiParam::new(ity(64).vector_of(2).unwrap())];
    assert_eq!(
        num_return_registers_required(32, CallConv::SystemV, &flags(false), &isa_flags(), &wide),
        (4, 0)
    );
}

#[test]
fn register_classes_of_types() {
    assert_eq!(regclass_for_abi_type(ity(64)), RegClass::GPR);
    assert_eq!(regclass_for_abi_type(Type::bool_type(1).unwrap()), RegClass::GPR);
    assert_eq!(regclass_for_abi_type(fty(32)), RegClass::FPR);
    assert_eq!(regclass_for_abi_type(ity(32).vector_of(4).unwrap()), RegClass::FPR);
}

#[test]
fn a_target_without_a_supported_pointer_width_is_reported() {
    let mut s = sig(CallConv::SystemV, vec![ity(64)], vec![]);
    let before = s.clone();
    let msp = Triple::from_str("msp430-none-elf").unwrap();
    assert_eq!(
        try_legalize_signature(&mut s, &msp, true, &flags(false), &isa_flags()),
        Err(CodegenError::Unsupported)
    );
    assert_eq!(s.params, before.params);
    let unknown = Triple::from_str("unknown-unknown-unknown").unwrap();
    assert_eq!(
        try_legalize_signature(&mut s, &unknown, true, &flags(false), &isa_flags()),
        Err(CodegenError::Unsupported)
    );
    assert_eq!(
        try_legalize_signature(&mut s, &x64(), true, &flags(false), &isa_flags()),
        Ok(())
    );
    assert_eq!(locs(&s.params), vec![ArgumentLoc::Reg(RDI)]);
}

#[test]
fn the_width_decides_between_registers_and_stack() {
    let mut s = sig(CallConv::SystemV, vec![ity(32), fty(32)], vec![ity(32)]);
    legalize_signature_for(&mut s, Width::U32, &flags(false), &isa_flags());
    assert_eq!(locs(&s.params), vec![ArgumentLoc::Stack(0), ArgumentLoc::Stack(4)]);
    assert_eq!(locs(&s.returns), vec![ArgumentLoc::Reg(RAX)]);
    let mut t = sig(CallConv::SystemV, vec![ity(32), fty(32)], vec![ity(32)]);
    legalize_signature(&mut t, &x86(), true, &flags(false), &isa_flags());
    assert_eq!(t.params, s.params);
    let mut u = sig(CallConv::SystemV, vec![ity(32), fty(32)], vec![ity(32)]);
    legalize_signature(&mut u, &x64(), true, &flags(false), &isa_flags());
    assert_eq!(locs(&u.params), vec![ArgumentLoc::Reg(RDI), ArgumentLoc::Reg(XMM0)]);
}

#[test]
fn special_parameters_are_found_from_the_back() {
    let mut s = sig(CallConv::SystemV, vec![ity(64), ity(64), ity(64)], vec![]);
    s.params[0].purpose = ArgumentPurpose::VMContext;
    s.params[1].purpose = ArgumentPurpose::VMContext;
    assert_eq!(s.special_param_index(ArgumentPurpose::VMContext), Some(1));
    assert_eq!(s.special_param_index(ArgumentPurpose::StackLimit), None);
    assert!(!s.uses_struct_return_param());
    s.params[2].purpose = ArgumentPurpose::StructReturn;
    assert!(s.uses_struct_return_param());
}

#[test]
fn returns_that_fit_stay_in_registers() {
    let mut s = sig(CallConv::SystemV, vec![], vec![ity(64), fty(64), ity(128), fty(32)]);
    legalize_signature(&mut s, &x64(), true, &flags(false), &isa_flags());
    assert_eq!(
        locs(&s.returns),
        vec![
            ArgumentLoc::Reg(RAX),
            ArgumentLoc::Reg(XMM0),
            ArgumentLoc::Reg(RDX),
            ArgumentLoc::Reg(RCX),
            ArgumentLoc::Reg(XMM0 + 1),
        ]
    );
    assert!(s.params.is_empty());
}

#[test]
fn a_shared_index_can_leave_a_fitting_return_on_the_stack() {
    let mut s = sig(CallConv::WindowsFastcall, vec![], vec![ity(64), fty(64)]);
    legalize_signature(&mut s, &x64(), true, &flags(false), &isa_flags());
    assert!(s.params.is_empty());
    assert_eq!(locs(&s.returns), vec![ArgumentLoc::Reg(RAX), ArgumentLoc::Stack(32)]);
}

#[test]
fn legalizing_twice_changes_nothing_with_pinned_returns() {
    let mut s = sig(CallConv::BaldrdashSystemV, vec![ity(64)], vec![ity(64), ity(64)]);
    s.returns[0].purpose = ArgumentPurpose::VMContext;
    legalize_signature(&mut s, &x64(), true, &flags(true), &isa_flags());
    assert_eq!(locs(&s.returns), vec![ArgumentLoc::Reg(R14), ArgumentLoc::Reg(RAX)]);
    let once = s.clone();
    legalize_signature(&mut s, &x64(), true, &flags(true), &isa_flags());
    assert_eq!(s.params, once.params);
    assert_eq!(s.returns, once.returns);

    let mut t = sig(CallConv::BaldrdashWindows, vec![], vec![ity(64).vector_of(2).unwrap()]);
    t.returns[0].purpose = ArgumentPurpose::VMContext;
    legalize_signature(&mut t, &x64(), true, &flags(true), &isa_flags());
    assert_eq!(locs(&t.returns), vec![ArgumentLoc::Reg(XMM0)]);
    let once = t.clone();
    legalize_signature(&mut t, &x64(), true, &flags(true), &isa_flags());
    assert_eq!(t.returns, once.returns);
    assert!(t.params.is_empty());
}

#[test]
fn a_pinned_vector_without_a_register_is_counted_anew_by_a_second_pass() {
    // One index for both kinds of register, vectors enabled: the integer
    // takes the one return register, the vector is counted as one float
    // register, there is none left for it, and each lane gets the pinned
    // register. A second pass counts three general registers.
    let mut s = sig(
        CallConv::BaldrdashWindows,
        vec![],
        vec![ity(64), ity(64).vector_of(2).unwrap()],
    );
    s.returns[1].purpose = ArgumentPurpose::VMContext;
    assert_eq!(
        num_return_registers_required(
            64,
            CallConv::BaldrdashWindows,
            &flags(true),
            &isa_flags(),
            &s.returns
        ),
        (1, 1)
    );
    legalize_signature(&mut s, &x64(), true, &flags(true), &isa_flags());
    assert!(s.params.is_empty());
    assert_eq!(
        locs(&s.returns),
        vec![ArgumentLoc::Reg(RAX), ArgumentLoc::Reg(R14), ArgumentLoc::Reg(R14)]
    );
    assert_eq!(
        num_return_registers_required(
            64,
            CallConv::BaldrdashWindows,
            &flags(true),
            &isa_flags(),
            &s.returns
        ),
        (3, 0)
    );
    legalize_signature(&mut s, &x64(), true, &flags(true), &isa_flags());
    assert_eq!(s.params.len(), 1);
    assert_eq!(s.params[0].purpose, ArgumentPurpose::StructReturn);
    assert_eq!(s.returns.len(), 4);
}

#[test]
fn a_fresh_classifier_has_all_its_fields_for_any_pool() {
    let long: Vec<u16> = (0..20).collect();
    let mut shared = flags(true);
    shared.is_pic = true;
    let isa = IsaFlags { has_sse3: true, has_sse41: false, has_avx: true };
    let aa = Args::new(32, long.clone(), 40, CallConv::WindowsFastcall, &shared, &isa);
    assert_eq!(aa.pointer_bytes, 4);
    assert_eq!(aa.pointer_bits, 32);
    assert_eq!(aa.pointer_type, ity(32));
    assert_eq!(aa.gpr, long);
    assert_eq!((aa.gpr_used, aa.fpr_used, aa.fpr_limit), (0, 0, 40));
    assert_eq!(aa.offset, 32);
    assert_eq!(aa.call_conv, CallConv::WindowsFastcall);
    assert_eq!(aa.shared_flags, shared);
    assert_eq!(aa.isa_flags, isa);

    let mut bb = Args::new(64, vec![RDI], 1, CallConv::SystemV, &shared, &isa);
    bb.assign(&AbiParam::new(ity(64)));
    bb.assign(&AbiParam::new(fty(64)));
    bb.assign(&AbiParam::new(ity(64)));
    assert_eq!(bb.shared_flags, shared);
    assert_eq!(bb.isa_flags, isa);
    assert_eq!(bb.pointer_bytes, 8);
    assert_eq!(bb.pointer_type, ity(64));
    assert_eq!((bb.gpr_used, bb.fpr_used, bb.offset), (1, 1, 8));
}
