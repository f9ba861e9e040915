//! Function signatures: parameters and return values with their ABI
//! annotations.

use crate::callconv::CallConv;
use crate::registers::RegUnit;
use crate::types::Type;
use vstd::prelude::*;

verus! {

/// How a value narrower than a register is widened.
#[derive(Clone, Copy, PartialEq, Eq, Structural, Debug)]
pub enum ArgumentExtension {
    /// The high bits are left as they are.
    Unextended,
    /// Zero-extended.
    Uext,
    /// Sign-extended.
    Sext,
}

/// What a parameter or return value is for.
#[derive(Clone, Copy, PartialEq, Eq, Structural, Debug)]
pub enum ArgumentPurpose {
    Normal,
    StructReturn,
    FramePointer,
    CalleeSaved,
    VMContext,
    SignatureId,
    StackLimit,
}

/// Where a parameter or return value lives.
#[derive(Clone, Copy, PartialEq, Eq, Structural, Debug)]
pub enum ArgumentLoc {
    Unassigned,
    /// In the register with this unit.
    Reg(RegUnit),
    /// On the stack, at this offset from the convention's base.
    Stack(i32),
}

impl ArgumentLoc {
    pub open spec fn spec_is_assigned(self) -> bool {
        self != ArgumentLoc::Unassigned
    }

    pub open spec fn spec_is_reg(self) -> bool {
        self is Reg
    }

    pub open spec fn spec_is_stack(self) -> bool {
        self is Stack
    }

    #[verifier::when_used_as_spec(spec_is_assigned)]
    pub fn is_assigned(self) -> (b: bool)
        ensures
            b == self.spec_is_assigned(),
    {
        match self {
            ArgumentLoc::Unassigned => false,
            _ => true,
        }
    }

    #[verifier::when_used_as_spec(spec_is_reg)]
    pub fn is_reg(self) -> (b: bool)
        ensures
            b == self.spec_is_reg(),
    {
        match self {
            ArgumentLoc::Reg(_) => true,
            _ => false,
        }
    }

    #[verifier::when_used_as_spec(spec_is_stack)]
    pub fn is_stack(self) -> (b: bool)
        ensures
            b == self.spec_is_stack(),
    {
        match self {
            ArgumentLoc::Stack(_) => true,
            _ => false,
        }
    }
}

/// One parameter or return value of a signature.
#[derive(Clone, Copy, PartialEq, Eq, Structural, Debug)]
pub struct AbiParam {
    pub value_type: Type,
    pub purpose: ArgumentPurpose,
    pub extension: ArgumentExtension,
    pub location: ArgumentLoc,
}

impl AbiParam {
    pub open spec fn wf(self) -> bool {
        self.value_type.wf()
    }

    /// A normal parameter of type `vt`, not extended, with no location yet.
    pub fn new(vt: Type) -> (p: AbiParam)
        ensures
            p == (AbiParam {
                value_type: vt,
                purpose: ArgumentPurpose::Normal,
                extension: ArgumentExtension::Unextended,
                location: ArgumentLoc::Unassigned,
            }),
    {
        AbiParam {
            value_type: vt,
            purpose: ArgumentPurpose::Normal,
            extension: ArgumentExtension::Unextended,
            location: ArgumentLoc::Unassigned,
        }
    }

    /// A parameter of type `vt` with a special purpose and no location yet.
    pub fn special(vt: Type, purpose: ArgumentPurpose) -> (p: AbiParam)
        ensures
            p == (AbiParam {
                value_type: vt,
                purpose,
                extension: ArgumentExtension::Unextended,
                location: ArgumentLoc::Unassigned,
            }),
    {
        AbiParam {
            value_type: vt,
            purpose,
            extension: ArgumentExtension::Unextended,
            location: ArgumentLoc::Unassigned,
        }
    }

    /// A parameter of type `vt` with a special purpose, pinned to `regunit`.
    pub fn special_reg(vt: Type, purpose: ArgumentPurpose, regunit: RegUnit) -> (p: AbiParam)
        ensures
            p == (AbiParam {
                value_type: vt,
                purpose,
                extension: ArgumentExtension::Unextended,
                location: ArgumentLoc::Reg(regunit),
            }),
    {
        AbiParam {
            value_type: vt,
            purpose,
            extension: ArgumentExtension::Unextended,
            location: ArgumentLoc::Reg(regunit),
        }
    }

    /// The same parameter, to be zero-extended.
    pub fn uext(self) -> (p: AbiParam)
        ensures
            p == (AbiParam { extension: ArgumentExtension::Uext, ..self }),
    {
        AbiParam { extension: ArgumentExtension::Uext, ..self }
    }

    /// The same parameter, to be sign-extended.
    pub fn sext(self) -> (p: AbiParam)
        ensures
            p == (AbiParam { extension: ArgumentExtension::Sext, ..self }),
    {
        AbiParam { extension: ArgumentExtension::Sext, ..self }
    }
}

/// Every entry of the list has a valid type.
pub open spec fn params_wf(list: Seq<AbiParam>) -> bool {
    forall|i: int| 0 <= i < list.len() ==> (#[trigger] list[i]).wf()
}

/// The index of the last entry of `list` with the given purpose.
pub open spec fn last_with_purpose(list: Seq<AbiParam>, purpose: ArgumentPurpose) -> Option<int>
    decreases list.len(),
{
    if list.len() == 0 {
        None
    } else if list.last().purpose == purpose {
        Some(list.len() - 1)
    } else {
        last_with_purpose(list.drop_last(), purpose)
    }
}

/// `last_with_purpose` finds an entry with the purpose, after which none has
/// it, or says that the list holds none.
pub proof fn lemma_last_with_purpose(list: Seq<AbiParam>, purpose: ArgumentPurpose)
    ensures
        match last_with_purpose(list, purpose) {
            Some(i) => 0 <= i < list.len() && list[i].purpose == purpose && forall|j: int|
                i < j < list.len() ==> (#[trigger] list[j]).purpose != purpose,
            None => forall|j: int| 0 <= j < list.len() ==> (#[trigger] list[j]).purpose != purpose,
        },
    decreases list.len(),
{
    if list.len() > 0 && list.last().purpose != purpose {
        let shorter = list.drop_last();
        lemma_last_with_purpose(shorter, purpose);
        assert(forall|j: int| 0 <= j < shorter.len() ==> shorter[j] == #[trigger] list[j]);
    }
}

/// A function signature.
#[derive(Clone, Debug)]
pub struct Signature {
    pub params: Vec<AbiParam>,
    pub returns: Vec<AbiParam>,
    pub call_conv: CallConv,
}

/// A signature as mathematics: its two lists as sequences.
pub struct SignatureView {
    pub params: Seq<AbiParam>,
    pub returns: Seq<AbiParam>,
    pub call_conv: CallConv,
}

impl View for Signature {
    type V = SignatureView;

    open spec fn view(&self) -> SignatureView {
        SignatureView { params: self.params@, returns: self.returns@, call_conv: self.call_conv }
    }
}

impl Signature {
    /// Every parameter and return value has a valid type.
    pub open spec fn wf(self) -> bool {
        params_wf(self.params@) && params_wf(self.returns@)
    }

    /// The signature without parameters or return values.
    pub fn new(call_conv: CallConv) -> (sig: Signature)
        ensures
            sig.params@ == Seq::<AbiParam>::empty(),
            sig.returns@ == Seq::<AbiParam>::empty(),
            sig.call_conv == call_conv,
    {
        Signature { params: Vec::new(), returns: Vec::new(), call_conv }
    }

    /// The index of the last parameter with the given purpose.
    pub fn special_param_index(&self, purpose: ArgumentPurpose) -> (r: Option<usize>)
        ensures
            match r {
                Some(i) => last_with_purpose(self.params@, purpose) == Some(i as int),
                None => last_with_purpose(self.params@, purpose) is None,
            },
    {
        let mut i: usize = self.params.len();
        assert(self.params@.take(i as int) =~= self.params@);
        while i > 0
            invariant
                i <= self.params.len(),
                last_with_purpose(self.params@, purpose) == last_with_purpose(
                    self.params@.take(i as int),
                    purpose,
                ),
            decreases i,
        {
            let ghost prefix = self.params@.take(i as int);
            assert(prefix.last() == self.params@[i - 1]);
            assert(prefix.drop_last() == self.params@.take(i - 1));
            if self.params[i - 1].purpose == purpose {
                return Some(i - 1);
            }
            i -= 1;
        }
        assert(self.params@.take(0).len() == 0);
        None
    }

    /// Has the signature a parameter that points to the place for the
    /// return values?
    pub fn uses_struct_return_param(&self) -> (b: bool)
        ensures
            b == last_with_purpose(self.params@, ArgumentPurpose::StructReturn).is_some(),
    {
        self.special_param_index(ArgumentPurpose::StructReturn).is_some()
    }
}

} // verus!
