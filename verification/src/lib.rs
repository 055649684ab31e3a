//! The x86-64 (System V AMD64) backend of a method JIT.
//!
//! A method comes in a low-level intermediate representation ([`ir`]) and leaves
//! as machine code, with the tables that the runtime needs to walk its frames:
//!
//! - [`regs`], [`target`], [`abi`], [`frame`]: registers, calls, frames
//! - [`inst`], [`lower`]: instruction descriptors, and the rules that choose them
//! - [`bind`], [`codegen`], [`artifact`]: descriptors to instructions with physical
//!   operands, and to the code of a method
//! - [`encode`], [`bytes`]: instructions to bytes
//! - [`metadata`], [`gcinfo`], [`livestate`], [`unwind`], [`bits`], [`sort`]: the GC
//!   info and the unwind info
//!
//! What holds across functions is stated beside them:
//!
//! - [`meaning`], [`faithful`], [`covered`], [`passing`]: what descriptors do, and that
//!   those of a statement do what it says
//! - [`computed`], [`decided`], [`entry`]: what the bound instructions leave behind, and
//!   what a method begins with
//! - [`sequences`], [`spare`], [`residency`], [`replay`], [`flags`], [`machine`]: of
//!   lowering and binding
//! - [`emission`], [`disasm`]: of the code
//! - [`gcdecode`], [`livedecode`]: of the GC info
//!
//! Each function states its result in its contract; proof functions named `law_`
//! state what holds across functions.

use crate::abi::{classify_error, is_abi_of};
use crate::artifact::CodegenOutput;
use crate::bind::{Reply, Stop};
use crate::bits::pack;
use crate::codegen::{is_tier0_output, tier0_stop};
use crate::error::CompileResult;
use crate::gcinfo::{gc_info_bits, gc_info_error, roots_have_bits};
use crate::ir::{CallSig, Method, StructLayouts, Type};
use crate::metadata::{GcInfoInput, GcRootSlot, UnwindBlob, UnwindInput};
use crate::regs::{
    CALL_SITE_STACK_ALIGNMENT, GPR_ALLOCATABLE, GPR_CALLEE_SAVED, GPR_CLASS_ID, XMM_ALLOCATABLE,
    XMM_CLASS_ID,
};
use crate::target::{CallAbi, PhysReg, RegClassId, RegClassKind, RegisterClass};
use crate::unwind::{is_funclet_blob, is_root_blob, unwind_error};
use vstd::prelude::*;

pub mod abi;
pub mod artifact;
pub mod bind;
pub mod bits;
pub mod bytes;
pub mod codegen;
pub mod computed;
pub mod covered;
pub mod decided;
pub mod disasm;
pub mod emission;
pub mod encode;
pub mod entry;
pub mod error;
pub mod faithful;
pub mod flags;
pub mod frame;
pub mod gcdecode;
pub mod gcinfo;
pub mod inst;
pub mod ir;
pub mod livedecode;
pub mod livestate;
pub mod lower;
pub mod machine;
pub mod meaning;
pub mod metadata;
pub mod passing;
pub mod regs;
pub mod replay;
pub mod residency;
pub mod sequences;
pub mod sort;
pub mod spare;
pub mod target;
pub mod unwind;

verus! {

/// The class of the registers that values of a type live in. A struct lives in
/// memory; it is legal where its layout is known.
pub open spec fn class_of_type(ty: Type, layouts: StructLayouts) -> Option<RegClassId> {
    match ty {
        Type::Int32 | Type::Int64 | Type::NativeInt | Type::Ref | Type::ByRef => Some(GPR_CLASS_ID),
        Type::Float | Type::Double => Some(XMM_CLASS_ID),
        Type::Struct(class) => if layouts.layout_of(class) is Some {
            Some(GPR_CLASS_ID)
        } else {
            None
        },
        Type::Void => None,
    }
}

/// The x86-64 System V target.
#[derive(Clone, Copy, Debug)]
pub struct X64Target;

impl X64Target {
    pub fn pointer_size(&self) -> (n: u8)
        ensures
            n == 8,
    {
        8
    }

    /// The register classes, by their [`RegClassId`].
    pub fn register_classes(&self) -> (classes: Vec<RegisterClass>)
        ensures
            classes.len() == 2,
            classes[GPR_CLASS_ID as int].name == "x64-gpr",
            classes[GPR_CLASS_ID as int].kind == RegClassKind::Int,
            classes[GPR_CLASS_ID as int].registers@ == GPR_ALLOCATABLE@,
            classes[GPR_CLASS_ID as int].callee_saved@ == GPR_CALLEE_SAVED@,
            classes[XMM_CLASS_ID as int].name == "x64-xmm",
            classes[XMM_CLASS_ID as int].kind == RegClassKind::Float,
            classes[XMM_CLASS_ID as int].registers@ == XMM_ALLOCATABLE@,
            classes[XMM_CLASS_ID as int].callee_saved@ == Seq::<PhysReg>::empty(),
    {
        regs::register_classes()
    }

    /// The class of the registers that values of a type live in.
    pub fn class_of(&self, ty: Type, layouts: &StructLayouts) -> (class: Option<RegClassId>)
        ensures
            class == class_of_type(ty, *layouts),
    {
        match ty {
            Type::Int32 | Type::Int64 | Type::NativeInt | Type::Ref | Type::ByRef => Some(
                GPR_CLASS_ID,
            ),
            Type::Float | Type::Double => Some(XMM_CLASS_ID),
            Type::Struct(class) => match layouts.get(class) {
                Some(_) => Some(GPR_CLASS_ID),
                None => None,
            },
            Type::Void => None,
        }
    }

    /// How a call passes its arguments and its result.
    pub fn classify_call(&self, sig: &CallSig, layouts: &StructLayouts) -> (r: CompileResult<
        CallAbi,
    >)
        ensures
            match r {
                Ok(abi) => classify_error(*sig, *layouts) is None && is_abi_of(abi, *sig, *layouts),
                Err(e) => classify_error(*sig, *layouts) == Some(e),
            },
    {
        abi::classify_call(sig, layouts)
    }

    /// The alignment of the stack at a call.
    pub fn call_site_stack_alignment(&self) -> (n: u32)
        ensures
            n == CALL_SITE_STACK_ALIGNMENT == 16,
    {
        CALL_SITE_STACK_ALIGNMENT
    }

    /// The code of a method on given replies; [`codegen::Emitter`] takes the
    /// replies one by one.
    pub fn emit_tier0(
        &self,
        method: &Method,
        gc_roots: Vec<GcRootSlot>,
        replies: Vec<Reply>,
    ) -> (r: Result<CodegenOutput, Stop>)
        ensures
            match r {
                Ok(out) => {
                    &&& tier0_stop(*method, replies@) is None
                    &&& is_tier0_output(out, *method, replies@, gc_roots)
                },
                Err(stop) => tier0_stop(*method, replies@) == Some(stop),
            },
    {
        codegen::emit_tier0(method, gc_roots, replies)
    }

    /// The GC info of a method.
    pub fn encode_gc_info(&self, input: &GcInfoInput) -> (r: CompileResult<Vec<u8>>)
        requires
            roots_have_bits(*input),
        ensures
            match r {
                Ok(bytes) => gc_info_error(*input) is None && bytes@ == pack(gc_info_bits(*input)),
                Err(e) => e is Internal && gc_info_error(*input) == Some(e->Internal_0),
            },
    {
        gcinfo::encode(input)
    }

    /// The unwind info of a method and its funclets.
    pub fn encode_unwind_info(&self, input: &UnwindInput) -> (r: CompileResult<Vec<UnwindBlob>>)
        ensures
            match r {
                Ok(blobs) => {
                    &&& unwind_error(*input) is None
                    &&& blobs.len() == input.funclets.len() + 1
                    &&& is_root_blob(blobs[0], *input)
                    &&& forall|i: int|
                        0 <= i < input.funclets.len() ==> is_funclet_blob(
                            #[trigger] blobs[i + 1],
                            input.funclets[i],
                        )
                },
                Err(e) => e is Internal && unwind_error(*input) == Some(e->Internal_0),
            },
    {
        unwind::encode(input)
    }
}

} // verus!
