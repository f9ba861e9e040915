//! Unwind information for the 64-bit Windows convention: the description of
//! a prologue from which a stack walker finds the saved registers and the
//! return address.

use crate::callconv::CallConv;
use crate::function::{Function, FunctionView, Inst, InstKind, ValueLoc};
use crate::registers::{RegUnit, BANK_UNITS, RBP, RSP};
use crate::result::CodegenError;
use crate::target::TargetIsa;
use vstd::prelude::*;

verus! {

/// One step of a prologue that a stack walker has to undo. `offset` is the
/// offset of the end of the instruction from the start of the function.
#[derive(Clone, Copy, PartialEq, Eq, Structural, Debug)]
pub enum UnwindCode {
    /// A register was pushed.
    PushRegister { offset: u8, reg: RegUnit },
    /// The stack pointer was lowered by `size` bytes.
    StackAlloc { offset: u8, size: u32 },
    /// The frame pointer was set to the stack pointer.
    SetFramePointer { offset: u8, sp_offset: u8 },
}

/// The largest allocation that is written in one node.
pub const SMALL_ALLOC_MAX: u32 = 128;

/// The largest allocation that is written with a 16-bit size.
pub const LARGE_ALLOC_16BIT_MAX: u32 = 524280;

impl UnwindCode {
    /// The code can be written: a pushed register is a general one, and an
    /// allocation is a multiple of eight bytes and not empty.
    pub open spec fn wf(self) -> bool {
        match self {
            UnwindCode::PushRegister { reg, .. } => reg < BANK_UNITS,
            UnwindCode::StackAlloc { size, .. } => size >= 8 && size % 8 == 0,
            UnwindCode::SetFramePointer { .. } => true,
        }
    }

    /// The number of 16-bit nodes that the code takes.
    pub open spec fn spec_node_count(self) -> nat {
        match self {
            UnwindCode::StackAlloc { size, .. } => if size <= SMALL_ALLOC_MAX {
                1
            } else if size <= LARGE_ALLOC_16BIT_MAX {
                2
            } else {
                3
            },
            _ => 1,
        }
    }

    /// The bytes of the code: the offset, then the operation in the low and
    /// its operand in the high four bits, then, for a large allocation, the
    /// size in little-endian order, in units of eight bytes where it takes
    /// 16 bits.
    pub open spec fn bytes(self) -> Seq<u8> {
        match self {
            UnwindCode::PushRegister { offset, reg } => seq![offset, (reg * 16) as u8],
            UnwindCode::StackAlloc { offset, size } => if size <= SMALL_ALLOC_MAX {
                seq![offset, (((size - 8) / 8) * 16 + 2) as u8]
            } else if size <= LARGE_ALLOC_16BIT_MAX {
                seq![offset, 1u8, ((size / 8) % 256) as u8, ((size / 8) / 256) as u8]
            } else {
                seq![
                    offset,
                    17u8,
                    (size % 256) as u8,
                    ((size / 256) % 256) as u8,
                    ((size / 65536) % 256) as u8,
                    (size / 16777216) as u8,
                ]
            },
            UnwindCode::SetFramePointer { offset, sp_offset } => seq![offset, 3u8],
        }
    }

    /// The number of 16-bit nodes that the code takes.
    pub fn node_count(&self) -> (n: usize)
        ensures
            n == self.spec_node_count(),
            1 <= n <= 3,
    {
        match self {
            UnwindCode::StackAlloc { size, .. } => {
                if *size <= SMALL_ALLOC_MAX {
                    1
                } else if *size <= LARGE_ALLOC_16BIT_MAX {
                    2
                } else {
                    3
                }
            },
            _ => 1,
        }
    }

    /// Appends the bytes of the code to `mem`.
    pub fn emit(&self, mem: &mut Vec<u8>)
        requires
            self.wf(),
        ensures
            final(mem)@ == old(mem)@ + self.bytes(),
            self.bytes().len() == 2 * self.spec_node_count(),
    {
        match *self {
            UnwindCode::PushRegister { offset, reg } => {
                mem.push(offset);
                mem.push((reg * 16) as u8);
            },
            UnwindCode::StackAlloc { offset, size } => {
                mem.push(offset);
                if size <= SMALL_ALLOC_MAX {
                    mem.push((((size - 8) / 8) * 16 + 2) as u8);
                } else if size <= LARGE_ALLOC_16BIT_MAX {
                    mem.push(1);
                    mem.push(((size / 8) % 256) as u8);
                    mem.push(((size / 8) / 256) as u8);
                } else {
                    mem.push(17);
                    mem.push((size % 256) as u8);
                    mem.push(((size / 256) % 256) as u8);
                    mem.push(((size / 65536) % 256) as u8);
                    mem.push((size / 16777216) as u8);
                }
            },
            UnwindCode::SetFramePointer { offset, sp_offset } => {
                mem.push(offset);
                mem.push(3);
            },
        }
        assert(mem@ =~= old(mem)@ + self.bytes());
    }
}

/// The nodes that the codes take together.
pub open spec fn total_nodes(codes: Seq<UnwindCode>) -> nat
    decreases codes.len(),
{
    if codes.len() == 0 {
        0
    } else {
        total_nodes(codes.drop_last()) + codes.last().spec_node_count()
    }
}

/// The bytes of the codes, the last code first.
pub open spec fn codes_bytes(codes: Seq<UnwindCode>) -> Seq<u8>
    decreases codes.len(),
{
    if codes.len() == 0 {
        Seq::empty()
    } else {
        codes.last().bytes() + codes_bytes(codes.drop_last())
    }
}

/// Unwind information as mathematics.
pub struct UnwindInfoView {
    pub flags: u8,
    pub prologue_size: u8,
    pub frame_register: Option<RegUnit>,
    pub frame_register_offset: u8,
    pub unwind_codes: Seq<UnwindCode>,
}

impl UnwindInfoView {
    /// The information can be written: there are no handlers, every code
    /// can be written, the codes take at most 255 nodes, and the frame
    /// register is a general one whose offset fits four bits.
    pub open spec fn wf(self) -> bool {
        &&& self.flags == 0
        &&& forall|i: int|
            0 <= i < self.unwind_codes.len() ==> (#[trigger] self.unwind_codes[i]).wf()
        &&& total_nodes(self.unwind_codes) <= 255
        &&& self.frame_register matches Some(reg) ==> reg < BANK_UNITS
        &&& self.frame_register_offset < 16
    }

    /// The bytes of the information: the version, the size of the prologue,
    /// the number of nodes, the frame register with its offset, the codes
    /// with the last first, and two zero bytes where the number of nodes is
    /// odd.
    pub open spec fn bytes(self) -> Seq<u8> {
        seq![
            1u8,
            self.prologue_size,
            total_nodes(self.unwind_codes) as u8,
            match self.frame_register {
                Some(reg) => (self.frame_register_offset * 16 + reg) as u8,
                None => 0u8,
            },
        ] + codes_bytes(self.unwind_codes) + if total_nodes(self.unwind_codes) % 2 == 1 {
            seq![0u8, 0u8]
        } else {
            Seq::empty()
        }
    }
}

/// Unwind information for one function.
#[derive(Debug)]
pub struct UnwindInfo {
    pub flags: u8,
    pub prologue_size: u8,
    pub frame_register: Option<RegUnit>,
    pub frame_register_offset: u8,
    pub unwind_codes: Vec<UnwindCode>,
}

impl View for UnwindInfo {
    type V = UnwindInfoView;

    open spec fn view(&self) -> UnwindInfoView {
        UnwindInfoView {
            flags: self.flags,
            prologue_size: self.prologue_size,
            frame_register: self.frame_register,
            frame_register_offset: self.frame_register_offset,
            unwind_codes: self.unwind_codes@,
        }
    }
}

/// How far a prologue has been read.
pub struct Scan {
    /// The bytes of the instructions read.
    pub offset: int,
    pub codes: Seq<UnwindCode>,
    /// The constant that was put in a register for the probe routine.
    pub stack_size: Option<u32>,
    /// The last instruction of the prologue was read.
    pub found_end: bool,
    /// Why the prologue cannot be described.
    pub failed: Option<CodegenError>,
}

/// What one instruction of a prologue means to a stack walker: a code, no
/// code, or that the prologue is malformed. It is malformed where a pushed
/// value lives in no general register, where a constant is negative, takes
/// more than 32 bits or is the second one, and where the stack pointer is
/// lowered by a register that no constant was put in or by a size that is no
/// positive multiple of eight.
pub open spec fn decoded(
    f: FunctionView,
    frame_register: Option<RegUnit>,
    stack_size: Option<u32>,
    inst: Inst,
    end: u8,
) -> Result<Option<UnwindCode>, CodegenError> {
    let data = f.insts[inst as int];
    match data.kind {
        InstKind::X86Push => if data.args.len() == 1 && data.args[0] < f.locations.len()
            && f.locations[data.args[0] as int] is Reg && f.locations[data.args[0] as int]->Reg_0
            < BANK_UNITS {
            Ok(
                Some(
                    UnwindCode::PushRegister {
                        offset: end,
                        reg: f.locations[data.args[0] as int]->Reg_0,
                    },
                ),
            )
        } else {
            Err(CodegenError::MalformedPrologue)
        },
        InstKind::AdjustSpDown => match stack_size {
            Some(size) => if size >= 8 && size % 8 == 0 {
                Ok(Some(UnwindCode::StackAlloc { offset: end, size }))
            } else {
                Err(CodegenError::MalformedPrologue)
            },
            None => Err(CodegenError::MalformedPrologue),
        },
        InstKind::CopySpecial { src, dst } => if frame_register == Some(dst) && src == RSP {
            Ok(Some(UnwindCode::SetFramePointer { offset: end, sp_offset: 0 }))
        } else {
            Ok(None)
        },
        InstKind::Iconst { imm } => if 0 <= imm <= u32::MAX && stack_size is None {
            Ok(None)
        } else {
            Err(CodegenError::MalformedPrologue)
        },
        InstKind::AdjustSpDownImm { imm } => if 8 <= imm <= u32::MAX && imm % 8 == 0 {
            Ok(Some(UnwindCode::StackAlloc { offset: end, size: imm as u32 }))
        } else {
            Err(CodegenError::MalformedPrologue)
        },
        _ => Ok(None),
    }
}

/// The scan after one more instruction. Nothing is read behind the end of
/// the prologue or behind a failure. The scan fails where the instruction
/// has no encoded size, where the prologue is longer than 255 bytes, where
/// the instruction is malformed, and where the codes take more than 255
/// nodes.
pub open spec fn scan_step(
    f: FunctionView,
    frame_register: Option<RegUnit>,
    s: Scan,
    inst: Inst,
) -> Scan {
    if s.found_end || s.failed is Some {
        s
    } else if inst >= f.encoded_sizes.len() || inst >= f.insts.len() {
        Scan { failed: Some(CodegenError::MalformedPrologue), ..s }
    } else if s.offset + f.encoded_sizes[inst as int] > 255 {
        Scan { failed: Some(CodegenError::ImplLimitExceeded), ..s }
    } else {
        let end = s.offset + f.encoded_sizes[inst as int];
        let read = Scan {
            offset: end,
            found_end: f.prologue_end == Some(inst),
            stack_size: match f.insts[inst as int].kind {
                InstKind::Iconst { imm } => Some(imm as u32),
                _ => s.stack_size,
            },
            ..s
        };
        match decoded(f, frame_register, s.stack_size, inst, end as u8) {
            Err(e) => Scan { failed: Some(e), ..s },
            Ok(None) => read,
            Ok(Some(code)) => if total_nodes(s.codes) + code.spec_node_count() > 255 {
                Scan { failed: Some(CodegenError::ImplLimitExceeded), ..s }
            } else {
                Scan { codes: s.codes.push(code), ..read }
            },
        }
    }
}

/// The scan of the given instructions, in order.
pub open spec fn scanned(f: FunctionView, frame_register: Option<RegUnit>, insts: Seq<Inst>) -> Scan
    decreases insts.len(),
{
    if insts.len() == 0 {
        Scan { offset: 0, codes: Seq::empty(), stack_size: None, found_end: false, failed: None }
    } else {
        scan_step(f, frame_register, scanned(f, frame_register, insts.drop_last()), insts.last())
    }
}

/// The unwind information of a function. There is none, and that is no
/// failure, for a function of another convention than the 64-bit Windows
/// one, for one whose prologue has no noted end, and for one in whose entry
/// block that end is not found. Where the entry block is scanned, a failure
/// of the scan is the result.
pub open spec fn unwind_info(f: FunctionView, frame_register: Option<RegUnit>) -> Result<
    Option<UnwindInfoView>,
    CodegenError,
> {
    if f.signature.call_conv != CallConv::WindowsFastcall || f.prologue_end is None
        || f.blocks.len() == 0 || (frame_register is Some && frame_register.unwrap()
        >= BANK_UNITS) {
        Ok(None)
    } else {
        let s = scanned(f, frame_register, f.blocks[0].insts);
        match s.failed {
            Some(e) => Err(e),
            None => if !s.found_end {
                Ok(None)
            } else {
                Ok(
                    Some(
                        UnwindInfoView {
                            flags: 0,
                            prologue_size: s.offset as u8,
                            frame_register,
                            frame_register_offset: 0,
                            unwind_codes: s.codes,
                        },
                    ),
                )
            },
        }
    }
}

impl UnwindInfo {
    /// The unwind information of `func`, if its prologue is one that can be
    /// described.
    pub fn try_from_func(func: &Function, isa: &TargetIsa, frame_register: Option<RegUnit>) -> (r:
        Result<Option<UnwindInfo>, CodegenError>)
        ensures
            match unwind_info(func@, frame_register) {
                Ok(Some(info)) => r matches Ok(Some(found)) && found@ == info && info.wf(),
                Ok(None) => r matches Ok(None),
                Err(e) => r matches Err(failure) && failure == e,
            },
    {
        if func.signature.call_conv != CallConv::WindowsFastcall || func.prologue_end.is_none()
            || func.blocks.len() == 0 {
            return Ok(None);
        }
        if let Some(reg) = frame_register {
            if reg >= BANK_UNITS {
                return Ok(None);
            }
        }
        let prologue_end: Inst = func.prologue_end.unwrap();
        let entry = &func.blocks[0];
        let ghost f = func@;
        assert(f.blocks[0].insts == entry.insts@);

        let mut stack_size: Option<u32> = None;
        let mut prologue_size: usize = 0;
        let mut unwind_codes: Vec<UnwindCode> = Vec::new();
        let mut nodes: usize = 0;
        let mut found_end = false;
        let mut i: usize = 0;
        assert(entry.insts@.take(0) =~= Seq::empty());
        while i < entry.insts.len() && !found_end
            invariant
                i <= entry.insts.len(),
                f == func@,
                f.blocks.len() > 0,
                f.blocks[0].insts == entry.insts@,
                f.signature.call_conv == CallConv::WindowsFastcall,
                f.prologue_end == Some(prologue_end),
                frame_register matches Some(reg) ==> reg < BANK_UNITS,
                prologue_size <= 255,
                nodes == total_nodes(unwind_codes@),
                nodes <= 255,
                forall|k: int| 0 <= k < unwind_codes@.len() ==> (#[trigger] unwind_codes@[k]).wf(),
                scanned(f, frame_register, entry.insts@.take(i as int)) == (Scan {
                    offset: prologue_size as int,
                    codes: unwind_codes@,
                    stack_size,
                    found_end,
                    failed: None,
                }),
                found_end ==> scanned(f, frame_register, entry.insts@) == scanned(
                    f,
                    frame_register,
                    entry.insts@.take(i as int),
                ),
            decreases entry.insts.len() - i,
        {
            let inst = entry.insts[i];
            proof {
                let next = entry.insts@.take(i + 1);
                assert(next.drop_last() =~= entry.insts@.take(i as int));
                assert(next.last() == inst);
                lemma_scan_stops(f, frame_register, entry.insts@, i + 1);
            }
            if inst >= func.encoded_sizes.len() || inst >= func.insts.len() {
                return Err(CodegenError::MalformedPrologue);
            }
            let size: usize = func.encoded_sizes[inst] as usize;
            if prologue_size + size > 255 {
                return Err(CodegenError::ImplLimitExceeded);
            }
            let end: u8 = (prologue_size + size) as u8;
            let code = match decode(func, frame_register, stack_size, inst, end) {
                Ok(code) => code,
                Err(e) => {
                    return Err(e);
                },
            };
            if let Some(code) = code {
                let count = code.node_count();
                if nodes + count > 255 {
                    return Err(CodegenError::ImplLimitExceeded);
                }
                let ghost before = unwind_codes@;
                nodes += count;
                unwind_codes.push(code);
                assert(unwind_codes@.drop_last() =~= before);
            }
            assert(f.insts[inst as int].kind == func.insts@[inst as int].kind);
            if let InstKind::Iconst { imm } = func.insts[inst].kind {
                stack_size = Some(imm as u32);
            }
            prologue_size += size;
            if inst == prologue_end {
                found_end = true;
            }
            i += 1;
        }
        proof {
            if !found_end {
                assert(entry.insts@.take(i as int) =~= entry.insts@);
            }
        }
        if !found_end {
            return Ok(None);
        }
        Ok(
            Some(
                UnwindInfo {
                    flags: 0,
                    prologue_size: prologue_size as u8,
                    frame_register,
                    frame_register_offset: 0,
                    unwind_codes,
                },
            ),
        )
    }

    /// The number of 16-bit nodes that the codes take.
    pub fn node_count(&self) -> (n: usize)
        requires
            self@.wf(),
        ensures
            n == total_nodes(self@.unwind_codes),
    {
        let mut n: usize = 0;
        let mut i: usize = 0;
        assert(self.unwind_codes@.take(0) =~= Seq::empty());
        while i < self.unwind_codes.len()
            invariant
                i <= self.unwind_codes.len(),
                n == total_nodes(self.unwind_codes@.take(i as int)),
                total_nodes(self.unwind_codes@) <= 255,
            decreases self.unwind_codes.len() - i,
        {
            proof {
                let next = self.unwind_codes@.take(i + 1);
                assert(next.drop_last() =~= self.unwind_codes@.take(i as int));
                assert(next.last() == self.unwind_codes@[i as int]);
                lemma_total_nodes_prefix(self.unwind_codes@, i + 1);
            }
            n += self.unwind_codes[i].node_count();
            i += 1;
        }
        assert(self.unwind_codes@.take(i as int) =~= self.unwind_codes@);
        n
    }

    /// Appends the bytes of the information to `mem`.
    pub fn emit(&self, mem: &mut Vec<u8>)
        requires
            self@.wf(),
        ensures
            final(mem)@ == old(mem)@ + self@.bytes(),
    {
        let node_count = self.node_count();
        mem.push(1);
        mem.push(self.prologue_size);
        mem.push(node_count as u8);
        match self.frame_register {
            Some(reg) => {
                mem.push((self.frame_register_offset as u16 * 16 + reg) as u8);
            },
            None => {
                mem.push(0);
            },
        }
        let ghost header = mem@;
        let ghost codes = self.unwind_codes@;
        let mut i: usize = self.unwind_codes.len();
        assert(codes.take(i as int) =~= codes);
        while i > 0
            invariant
                i <= self.unwind_codes.len(),
                codes == self.unwind_codes@,
                forall|k: int| 0 <= k < codes.len() ==> (#[trigger] codes[k]).wf(),
                mem@ + codes_bytes(codes.take(i as int)) == header + codes_bytes(codes),
            decreases i,
        {
            i -= 1;
            proof {
                let upto = codes.take(i + 1);
                assert(upto.drop_last() =~= codes.take(i as int));
                assert(upto.last() == codes[i as int]);
                assert(mem@ + (codes[i as int].bytes() + codes_bytes(codes.take(i as int))) =~= (
                mem@ + codes[i as int].bytes()) + codes_bytes(codes.take(i as int)));
            }
            self.unwind_codes[i].emit(mem);
        }
        proof {
            assert(codes.take(0) =~= Seq::empty());
            assert(mem@ + codes_bytes(codes.take(0)) =~= mem@);
        }
        if node_count % 2 == 1 {
            mem.push(0);
            mem.push(0);
        }
        assert(mem@ =~= old(mem)@ + self@.bytes());
    }
}

/// What the instruction `inst` of a prologue means to a stack walker.
fn decode(
    func: &Function,
    frame_register: Option<RegUnit>,
    stack_size: Option<u32>,
    inst: Inst,
    end: u8,
) -> (r: Result<Option<UnwindCode>, CodegenError>)
    requires
        inst < func@.insts.len(),
    ensures
        r == decoded(func@, frame_register, stack_size, inst, end),
        r matches Ok(Some(code)) ==> code.wf(),
{
    let data = &func.insts[inst];
    assert(func@.insts[inst as int] == data@);
    match data.kind {
        InstKind::X86Push => {
            if data.args.len() != 1 || data.args[0] >= func.locations.len() {
                return Err(CodegenError::MalformedPrologue);
            }
            match func.locations[data.args[0]] {
                ValueLoc::Reg(reg) => {
                    if reg >= BANK_UNITS {
                        return Err(CodegenError::MalformedPrologue);
                    }
                    Ok(Some(UnwindCode::PushRegister { offset: end, reg }))
                },
                _ => Err(CodegenError::MalformedPrologue),
            }
        },
        InstKind::AdjustSpDown => {
            match stack_size {
                Some(size) => {
                    if size < 8 || size % 8 != 0 {
                        return Err(CodegenError::MalformedPrologue);
                    }
                    Ok(Some(UnwindCode::StackAlloc { offset: end, size }))
                },
                None => Err(CodegenError::MalformedPrologue),
            }
        },
        InstKind::CopySpecial { src, dst } => {
            if let Some(frame_register) = frame_register {
                if src == RSP && dst == frame_register {
                    return Ok(Some(UnwindCode::SetFramePointer { offset: end, sp_offset: 0 }));
                }
            }
            Ok(None)
        },
        InstKind::Iconst { imm } => {
            if imm < 0 || imm > u32::MAX as i64 || stack_size.is_some() {
                return Err(CodegenError::MalformedPrologue);
            }
            Ok(None)
        },
        InstKind::AdjustSpDownImm { imm } => {
            if imm < 8 || imm > u32::MAX as i64 || imm % 8 != 0 {
                return Err(CodegenError::MalformedPrologue);
            }
            Ok(Some(UnwindCode::StackAlloc { offset: end, size: imm as u32 }))
        },
        _ => Ok(None),
    }
}

/// The codes at the front of a list take no more nodes than the list.
proof fn lemma_total_nodes_prefix(codes: Seq<UnwindCode>, n: int)
    requires
        0 <= n <= codes.len(),
    ensures
        total_nodes(codes.take(n)) <= total_nodes(codes),
    decreases codes.len(),
{
    if n < codes.len() {
        assert(codes.drop_last().take(n) =~= codes.take(n));
        lemma_total_nodes_prefix(codes.drop_last(), n);
    } else {
        assert(codes.take(n) =~= codes);
    }
}

/// Once a scan has failed or has found the end of the prologue, reading on
/// changes nothing.
proof fn lemma_scan_stops(
    f: FunctionView,
    frame_register: Option<RegUnit>,
    insts: Seq<Inst>,
    n: int,
)
    requires
        0 <= n <= insts.len(),
    ensures
        scanned(f, frame_register, insts.take(n)).failed is Some || scanned(
            f,
            frame_register,
            insts.take(n),
        ).found_end ==> scanned(f, frame_register, insts) == scanned(
            f,
            frame_register,
            insts.take(n),
        ),
    decreases insts.len(),
{
    if n < insts.len() {
        assert(insts.drop_last().take(n) =~= insts.take(n));
        lemma_scan_stops(f, frame_register, insts.drop_last(), n);
    } else {
        assert(insts.take(n) =~= insts);
    }
}

/// Writes the unwind information of `func` to `mem`, with the frame
/// pointer as the frame register. Nothing is written for a function that
/// has none.
pub fn emit_unwind_info(func: &Function, isa: &TargetIsa, mem: &mut Vec<u8>) -> (r: Result<
    (),
    CodegenError,
>)
    ensures
        match unwind_info(func@, Some(RBP)) {
            Ok(Some(info)) => r is Ok && final(mem)@ == old(mem)@ + info.bytes(),
            Ok(None) => r is Ok && final(mem)@ == old(mem)@,
            Err(e) => r == Err::<(), CodegenError>(e) && final(mem)@ == old(mem)@,
        },
{
    match UnwindInfo::try_from_func(func, isa, Some(RBP)) {
        Ok(Some(info)) => {
            info.emit(mem);
            Ok(())
        },
        Ok(None) => Ok(()),
        Err(e) => Err(e),
    }
}

} // verus!
