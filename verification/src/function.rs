//! The function that is lowered: its signature, stack slots, values with
//! their locations, instructions and their layout in blocks.

use crate::registers::RegUnit;
use crate::signature::{last_with_purpose, ArgumentPurpose, Signature, SignatureView};
use crate::stack::{StackSlotData, StackSlots};
use vstd::prelude::*;

verus! {

/// A value, by its number.
pub type Value = usize;

/// An instruction, by its number.
pub type Inst = usize;

/// A block, by its place in the layout.
pub type Block = usize;

/// A stack slot, by its number.
pub type StackSlot = usize;

/// A function that this one refers to, by its number.
pub type FuncRef = usize;

/// A signature that this function refers to, by its number.
pub type SigRef = usize;

/// Where a value lives after register allocation.
#[derive(Clone, Copy, PartialEq, Eq, Structural, Debug)]
pub enum ValueLoc {
    Unassigned,
    Reg(RegUnit),
    Stack(StackSlot),
}

/// A condition on the flags of an integer comparison.
#[derive(Clone, Copy, PartialEq, Eq, Structural, Debug)]
pub enum IntCC {
    Equal,
    NotEqual,
    SignedLessThan,
    SignedGreaterThanOrEqual,
    UnsignedLessThan,
    UnsignedGreaterThanOrEqual,
}

/// Why a trap was taken.
#[derive(Clone, Copy, PartialEq, Eq, Structural, Debug)]
pub enum TrapCode {
    StackOverflow,
    HeapOutOfBounds,
    IntegerOverflow,
    User(u16),
}

/// A routine of the runtime library.
#[derive(Clone, Copy, PartialEq, Eq, Structural, Debug)]
pub enum LibCall {
    /// Touches the pages of a new stack frame.
    Probestack,
    Memcpy,
}

/// The name of a function outside this one.
#[derive(Clone, Copy, PartialEq, Eq, Structural, Debug)]
pub enum ExternalName {
    User { namespace: u32, index: u32 },
    LibCall(LibCall),
}

/// A function that this one refers to.
#[derive(Clone, Copy, PartialEq, Eq, Structural, Debug)]
pub struct ExtFuncData {
    pub name: ExternalName,
    pub signature: SigRef,
    /// The function lies near enough for a direct call.
    pub colocated: bool,
}

/// What an instruction does, with the operands that are no values.
#[derive(Clone, Copy, PartialEq, Eq, Structural, Debug)]
pub enum InstKind {
    /// Pushes its argument.
    X86Push,
    /// Pops into its result.
    X86Pop,
    /// Copies one register to another.
    CopySpecial { src: RegUnit, dst: RegUnit },
    /// Lowers the stack pointer by its argument.
    AdjustSpDown,
    /// Lowers the stack pointer by a constant.
    AdjustSpDownImm { imm: i64 },
    /// Raises the stack pointer by a constant.
    AdjustSpUpImm { imm: i64 },
    /// A constant.
    Iconst { imm: i64 },
    /// A copy of its argument.
    Copy,
    /// Its argument plus a constant.
    IaddImm { imm: i64 },
    /// The flags of the stack pointer compared with its argument.
    IfSp,
    /// Traps where the flags in its argument meet the condition.
    Trapif { cond: IntCC, code: TrapCode },
    /// The address of a function.
    FuncAddr { func_ref: FuncRef },
    /// A direct call.
    Call { func_ref: FuncRef },
    /// A call of the address in its first argument.
    CallIndirect { sig_ref: SigRef },
    /// Returns its arguments.
    Return,
    /// Returns its arguments by falling through to the end of the function.
    FallthroughReturn,
    /// Diverts its argument from one register to another.
    RegMove { src: RegUnit, dst: RegUnit },
    /// Diverts its argument from a stack slot to a register.
    RegFill { slot: StackSlot, dst: RegUnit },
    /// Any other instruction.
    Other,
}

impl InstKind {
    pub open spec fn spec_is_return(self) -> bool {
        self == InstKind::Return || self == InstKind::FallthroughReturn
    }

    /// Does the instruction return from the function?
    #[verifier::when_used_as_spec(spec_is_return)]
    pub fn is_return(self) -> (b: bool)
        ensures
            b == self.spec_is_return(),
    {
        match self {
            InstKind::Return | InstKind::FallthroughReturn => true,
            _ => false,
        }
    }
}

/// An instruction as mathematics.
pub struct InstView {
    pub kind: InstKind,
    pub args: Seq<Value>,
    pub result: Option<Value>,
}

/// An instruction: what it does, the values it takes and the value it gives.
#[derive(Debug)]
pub struct InstructionData {
    pub kind: InstKind,
    pub args: Vec<Value>,
    pub result: Option<Value>,
}

impl View for InstructionData {
    type V = InstView;

    open spec fn view(&self) -> InstView {
        InstView { kind: self.kind, args: self.args@, result: self.result }
    }
}

/// A block as mathematics.
pub struct BlockView {
    pub params: Seq<Value>,
    pub insts: Seq<Inst>,
}

/// A block: its parameters and its instructions, in order.
#[derive(Debug)]
pub struct BlockData {
    pub params: Vec<Value>,
    pub insts: Vec<Inst>,
}

impl View for BlockData {
    type V = BlockView;

    open spec fn view(&self) -> BlockView {
        BlockView { params: self.params@, insts: self.insts@ }
    }
}

/// A place in the layout: before the instruction at `index` of `block`, or
/// at the end of the block where `index` is the number of its instructions.
#[derive(Clone, Copy, PartialEq, Eq, Structural, Debug)]
pub struct Position {
    pub block: Block,
    pub index: usize,
}

/// A function as mathematics.
pub struct FunctionView {
    pub signature: SignatureView,
    pub stack_slots: Seq<StackSlotData>,
    pub frame_size: Option<u32>,
    /// The location of every value.
    pub locations: Seq<ValueLoc>,
    pub insts: Seq<InstView>,
    /// The blocks in layout order; the first is the entry block.
    pub blocks: Seq<BlockView>,
    pub ext_funcs: Seq<ExtFuncData>,
    pub signatures: Seq<SignatureView>,
    /// The bytes that the encoding of each instruction takes, as far as the
    /// function has been encoded.
    pub encoded_sizes: Seq<u8>,
    pub prologue_end: Option<Inst>,
}

impl FunctionView {
    /// Every block, instruction and value that is referred to exists.
    pub open spec fn wf(self) -> bool {
        &&& forall|b: int, i: int|
            0 <= b < self.blocks.len() && 0 <= i < self.blocks[b].insts.len() ==> (
            #[trigger] self.blocks[b].insts[i]) < self.insts.len()
        &&& forall|b: int, i: int|
            0 <= b < self.blocks.len() && 0 <= i < self.blocks[b].params.len() ==> (
            #[trigger] self.blocks[b].params[i]) < self.locations.len()
        &&& forall|n: int, i: int|
            0 <= n < self.insts.len() && 0 <= i < self.insts[n].args.len() ==> (
            #[trigger] self.insts[n].args[i]) < self.locations.len()
        &&& forall|n: int|
            0 <= n < self.insts.len() ==> ((#[trigger] self.insts[n]).result matches Some(v)
                ==> v < self.locations.len())
    }

    /// Is `pos` a place in the layout?
    pub open spec fn has_position(self, pos: Position) -> bool {
        pos.block < self.blocks.len() && pos.index <= self.blocks[pos.block as int].insts.len()
    }

    /// The function with one more value, at `loc`.
    pub open spec fn add_value(self, loc: ValueLoc) -> FunctionView {
        FunctionView { locations: self.locations.push(loc), ..self }
    }

    /// The function with one more instruction, not yet in the layout.
    pub open spec fn add_inst(self, inst: InstView) -> FunctionView {
        FunctionView { insts: self.insts.push(inst), ..self }
    }

    /// The function with `inst` laid out at `pos`.
    pub open spec fn insert_inst(self, pos: Position, inst: Inst) -> FunctionView {
        let block = self.blocks[pos.block as int];
        FunctionView {
            blocks: self.blocks.update(
                pos.block as int,
                BlockView { insts: block.insts.insert(pos.index as int, inst), ..block },
            ),
            ..self
        }
    }

    /// The function with `value` as one more parameter of `block`.
    pub open spec fn add_block_param(self, block: Block, value: Value) -> FunctionView {
        let data = self.blocks[block as int];
        FunctionView {
            blocks: self.blocks.update(
                block as int,
                BlockView { params: data.params.push(value), ..data },
            ),
            ..self
        }
    }

    /// The function with `value` as one more argument of `inst`.
    pub open spec fn add_inst_arg(self, inst: Inst, value: Value) -> FunctionView {
        let data = self.insts[inst as int];
        FunctionView {
            insts: self.insts.update(inst as int, InstView { args: data.args.push(value), ..data }),
            ..self
        }
    }

    /// The function with a new instruction laid out at `pos`. Where the
    /// instruction gives a value, that value is new too and lives at `loc`.
    pub open spec fn ins(
        self,
        pos: Position,
        kind: InstKind,
        args: Seq<Value>,
        result_loc: Option<ValueLoc>,
    ) -> FunctionView {
        let with_value = match result_loc {
            Some(loc) => self.add_value(loc),
            None => self,
        };
        let result = match result_loc {
            Some(_) => Some(self.locations.len() as Value),
            None => None,
        };
        with_value.add_inst(InstView { kind, args, result }).insert_inst(
            pos,
            self.insts.len() as Inst,
        )
    }

    /// The kinds of the instructions of a block, in order.
    pub open spec fn block_kinds(self, block: int) -> Seq<InstKind> {
        Seq::new(
            self.blocks[block].insts.len(),
            |i: int| self.insts[self.blocks[block].insts[i] as int].kind,
        )
    }

    /// The value that the entry block has for the last parameter with the
    /// given purpose.
    pub open spec fn special_param(self, purpose: ArgumentPurpose) -> Option<Value> {
        match last_with_purpose(self.signature.params, purpose) {
            Some(i) => if self.blocks.len() > 0 && i < self.blocks[0].params.len() {
                Some(self.blocks[0].params[i])
            } else {
                None
            },
            None => None,
        }
    }
}

/// A function.
#[derive(Debug)]
pub struct Function {
    pub signature: Signature,
    pub stack_slots: StackSlots,
    /// The location of every value.
    pub locations: Vec<ValueLoc>,
    pub insts: Vec<InstructionData>,
    /// The blocks in layout order; the first is the entry block.
    pub blocks: Vec<BlockData>,
    pub ext_funcs: Vec<ExtFuncData>,
    pub signatures: Vec<Signature>,
    /// The bytes that the encoding of each instruction takes, as far as the
    /// function has been encoded.
    pub encoded_sizes: Vec<u8>,
    /// The last instruction of the prologue.
    pub prologue_end: Option<Inst>,
}

impl View for Function {
    type V = FunctionView;

    open spec fn view(&self) -> FunctionView {
        FunctionView {
            signature: self.signature@,
            stack_slots: self.stack_slots.slots@,
            frame_size: self.stack_slots.frame_size,
            locations: self.locations@,
            insts: Seq::new(self.insts@.len(), |i: int| self.insts@[i]@),
            blocks: Seq::new(self.blocks@.len(), |i: int| self.blocks@[i]@),
            ext_funcs: self.ext_funcs@,
            signatures: Seq::new(self.signatures@.len(), |i: int| self.signatures@[i]@),
            encoded_sizes: self.encoded_sizes@,
            prologue_end: self.prologue_end,
        }
    }
}

impl Function {
    /// The function without anything in it.
    pub fn new(signature: Signature) -> (func: Function)
        ensures
            func@.signature == signature@,
            func@.stack_slots.len() == 0,
            func@.frame_size is None,
            func@.locations.len() == 0,
            func@.insts.len() == 0,
            func@.blocks.len() == 0,
            func@.ext_funcs.len() == 0,
            func@.signatures.len() == 0,
            func@.encoded_sizes.len() == 0,
            func@.prologue_end is None,
            func@.wf(),
    {
        Function {
            signature,
            stack_slots: StackSlots::new(),
            locations: Vec::new(),
            insts: Vec::new(),
            blocks: Vec::new(),
            ext_funcs: Vec::new(),
            signatures: Vec::new(),
            encoded_sizes: Vec::new(),
            prologue_end: None,
        }
    }

    /// Adds a value that lives at `loc`.
    pub fn make_value(&mut self, loc: ValueLoc) -> (value: Value)
        requires
            old(self)@.wf(),
        ensures
            value == old(self)@.locations.len(),
            final(self)@ == old(self)@.add_value(loc),
            final(self)@.wf(),
    {
        let value = self.locations.len();
        self.locations.push(loc);
        proof {
            assert(self@.insts =~= old(self)@.insts);
            assert(self@.blocks =~= old(self)@.blocks);
            assert(self@.signatures =~= old(self)@.signatures);
        }
        value
    }

    /// Adds an empty block at the end of the layout.
    pub fn make_block(&mut self) -> (block: Block)
        requires
            old(self)@.wf(),
        ensures
            block == old(self)@.blocks.len(),
            final(self)@ == (FunctionView {
                blocks: old(self)@.blocks.push(
                    BlockView { params: Seq::empty(), insts: Seq::empty() },
                ),
                ..old(self)@
            }),
            final(self)@.wf(),
    {
        let block = self.blocks.len();
        self.blocks.push(BlockData { params: Vec::new(), insts: Vec::new() });
        proof {
            assert(self@.insts =~= old(self)@.insts);
            assert(self@.blocks =~= old(self)@.blocks.push(
                BlockView { params: Seq::empty(), insts: Seq::empty() },
            ));
            assert(self@.signatures =~= old(self)@.signatures);
        }
        block
    }

    /// Adds `value` to the parameters of `block`.
    pub fn append_block_param(&mut self, block: Block, value: Value)
        requires
            old(self)@.wf(),
            block < old(self)@.blocks.len(),
            value < old(self)@.locations.len(),
        ensures
            final(self)@ == old(self)@.add_block_param(block, value),
            final(self)@.wf(),
    {
        self.blocks[block].params.push(value);
        proof {
            assert(self@.insts =~= old(self)@.insts);
            assert(self@.blocks =~= old(self)@.add_block_param(block, value).blocks);
            assert(self@.signatures =~= old(self)@.signatures);
        }
    }

    /// Adds `value` to the arguments of `inst`.
    pub fn append_inst_arg(&mut self, inst: Inst, value: Value)
        requires
            old(self)@.wf(),
            inst < old(self)@.insts.len(),
            value < old(self)@.locations.len(),
        ensures
            final(self)@ == old(self)@.add_inst_arg(inst, value),
            final(self)@.wf(),
    {
        self.insts[inst].args.push(value);
        proof {
            assert(self@.insts =~= old(self)@.add_inst_arg(inst, value).insts);
            assert(self@.blocks =~= old(self)@.blocks);
            assert(self@.signatures =~= old(self)@.signatures);
        }
    }

    /// Adds an instruction and lays it out at `pos`. Where `result_loc` is
    /// given, the instruction gives a new value that lives there. Returns
    /// the instruction and its result.
    pub fn ins(
        &mut self,
        pos: Position,
        kind: InstKind,
        args: Vec<Value>,
        result_loc: Option<ValueLoc>,
    ) -> (r: (Inst, Option<Value>))
        requires
            old(self)@.wf(),
            old(self)@.has_position(pos),
            forall|i: int| 0 <= i < args@.len() ==> args@[i] < old(self)@.locations.len(),
        ensures
            r.0 == old(self)@.insts.len(),
            r.1 == (match result_loc {
                Some(_) => Some(old(self)@.locations.len() as Value),
                None => None,
            }),
            final(self)@ == old(self)@.ins(pos, kind, args@, result_loc),
            final(self)@.wf(),
    {
        let result = match result_loc {
            Some(loc) => Some(self.make_value(loc)),
            None => None,
        };
        let ghost with_value = self@;
        let inst = self.insts.len();
        self.insts.push(InstructionData { kind, args, result });
        self.blocks[pos.block].insts.insert(pos.index, inst);
        proof {
            let new_inst = InstView { kind, args: args@, result };
            let expected = with_value.add_inst(new_inst).insert_inst(pos, inst);
            assert(self@.insts =~= expected.insts);
            assert(self@.blocks =~= expected.blocks);
            assert(self@.signatures =~= expected.signatures);
            assert(self@ == expected);
            assert(self@.wf()) by {
                assert forall|b: int, i: int|
                    0 <= b < self@.blocks.len() && 0 <= i < self@.blocks[b].insts.len() implies (
                #[trigger] self@.blocks[b].insts[i]) < self@.insts.len() by {
                    if b == pos.block {
                        if i < pos.index {
                            assert(self@.blocks[b].insts[i] == with_value.blocks[b].insts[i]);
                        } else if i > pos.index {
                            assert(self@.blocks[b].insts[i] == with_value.blocks[b].insts[i - 1]);
                        }
                    } else {
                        assert(self@.blocks[b].insts[i] == with_value.blocks[b].insts[i]);
                    }
                }
                assert forall|n: int, i: int|
                    0 <= n < self@.insts.len() && 0 <= i < self@.insts[n].args.len() implies (
                #[trigger] self@.insts[n].args[i]) < self@.locations.len() by {
                    if n < with_value.insts.len() {
                        assert(self@.insts[n].args[i] == with_value.insts[n].args[i]);
                    }
                }
            }
        }
        (inst, result)
    }

    /// Adds a stack slot and returns its number.
    pub fn create_stack_slot(&mut self, data: StackSlotData) -> (slot: StackSlot)
        ensures
            slot == old(self)@.stack_slots.len(),
            final(self)@ == (FunctionView {
                stack_slots: old(self)@.stack_slots.push(data),
                ..old(self)@
            }),
    {
        let slot = self.stack_slots.push(data);
        proof {
            assert(self@.insts =~= old(self)@.insts);
            assert(self@.blocks =~= old(self)@.blocks);
            assert(self@.signatures =~= old(self)@.signatures);
        }
        slot
    }

    /// Adds a signature that the function refers to, and returns its
    /// number.
    pub fn import_signature(&mut self, signature: Signature) -> (sig_ref: SigRef)
        ensures
            sig_ref == old(self)@.signatures.len(),
            final(self)@ == (FunctionView {
                signatures: old(self)@.signatures.push(signature@),
                ..old(self)@
            }),
    {
        let sig_ref = self.signatures.len();
        self.signatures.push(signature);
        proof {
            assert(self@.insts =~= old(self)@.insts);
            assert(self@.blocks =~= old(self)@.blocks);
            assert(self@.signatures =~= old(self)@.signatures.push(signature@));
        }
        sig_ref
    }

    /// Adds a function that this one refers to, and returns its number.
    pub fn import_function(&mut self, data: ExtFuncData) -> (func_ref: FuncRef)
        ensures
            func_ref == old(self)@.ext_funcs.len(),
            final(self)@ == (FunctionView {
                ext_funcs: old(self)@.ext_funcs.push(data),
                ..old(self)@
            }),
    {
        let func_ref = self.ext_funcs.len();
        self.ext_funcs.push(data);
        proof {
            assert(self@.insts =~= old(self)@.insts);
            assert(self@.blocks =~= old(self)@.blocks);
            assert(self@.signatures =~= old(self)@.signatures);
        }
        func_ref
    }

    /// The value that the entry block has for the last parameter of the
    /// signature with the given purpose.
    pub fn special_param(&self, purpose: ArgumentPurpose) -> (r: Option<Value>)
        ensures
            r == self@.special_param(purpose),
            self@.wf() ==> (r matches Some(value) ==> value < self@.locations.len()),
    {
        match self.signature.special_param_index(purpose) {
            Some(i) => {
                if self.blocks.len() > 0 && i < self.blocks[0].params.len() {
                    assert(self@.blocks[0].params[i as int] == self.blocks@[0].params@[i as int]);
                    Some(self.blocks[0].params[i])
                } else {
                    None
                }
            },
            None => None,
        }
    }
}

} // verus!
