//! What a compiled method's side tables are made from.

use crate::sort::SortKey;
use vstd::prelude::*;

verus! {

/// A frame slot that holds a GC pointer.
#[derive(Clone, Copy, PartialEq, Eq, Structural, Debug)]
pub struct GcRootSlot {
    /// Bytes below the frame pointer.
    pub offset: u32,
    /// An interior pointer.
    pub is_byref: bool,
    pub pinned: bool,
}

impl GcRootSlot {
    /// The flag bits of the slot: interior, then pinned.
    pub open spec fn flag_bits(self) -> nat {
        (if self.is_byref {
            1nat
        } else {
            0nat
        }) + (if self.pinned {
            2nat
        } else {
            0nat
        })
    }

    pub fn flags(&self) -> (f: u64)
        ensures
            f == self.flag_bits(),
    {
        (if self.is_byref {
            1u64
        } else {
            0u64
        }) + (if self.pinned {
            2u64
        } else {
            0u64
        })
    }
}

/// Flagged slots come first; among slots of one kind, the lowest address.
impl SortKey for GcRootSlot {
    open spec fn key(self) -> u64 {
        ((3 - self.flag_bits()) * 0x1_0000_0000 + (0xFFFF_FFFF - self.offset)) as u64
    }

    fn sort_key(self) -> (k: u64) {
        (3 - self.flags()) * 0x1_0000_0000 + (0xFFFF_FFFF - self.offset as u64)
    }
}

/// A register that holds a GC pointer when a call returns.
#[derive(Clone, Copy, PartialEq, Eq, Structural, Debug)]
pub struct GcReturnReg {
    /// The hardware register number.
    pub reg: u8,
    /// An interior pointer.
    pub interior: bool,
}

/// Where a method's generics context comes from.
#[derive(Clone, Copy, PartialEq, Eq, Structural, Debug)]
pub enum GenericsContext {
    MethodTable,
    MethodDesc,
    This,
}

/// The reported generics context of a method.
#[derive(Clone, Copy, PartialEq, Eq, Structural, Debug)]
pub struct GenericsContextGcInfo {
    /// The slot's offset from the frame pointer, in bytes.
    pub slot_offset: i32,
    pub kind: GenericsContext,
    /// The code offset from which the slot holds the context.
    pub prolog_end: u32,
}

/// The input of the GC-info encoder.
#[derive(Debug)]
pub struct GcInfoInput {
    pub code_len: u32,
    pub frame_size: u32,
    pub gc_roots: Vec<GcRootSlot>,
    /// The return addresses of the calls.
    pub safepoints: Vec<u32>,
    /// The registers that some call returns a GC pointer in.
    pub reg_roots: Vec<GcReturnReg>,
    /// Per safepoint, the register roots that are live there, a bit each.
    pub reg_live: Vec<u32>,
    /// Per safepoint, the offset from which the result is in its frame slot.
    pub reg_home_end: Vec<u32>,
    /// The code ranges in which the method may be interrupted anywhere.
    pub interruptible_ranges: Vec<(u32, u32)>,
    pub has_funclets: bool,
    pub outgoing_area_size: u32,
    pub generics_context: Option<GenericsContextGcInfo>,
}

/// What the EE is told a code fragment is.
#[derive(Clone, Copy, PartialEq, Eq, Structural, Debug)]
pub enum CorJitFuncKind {
    Root,
    Handler,
    Filter,
}

/// A funclet: an exception handler with a prolog of its own.
#[derive(Clone, Copy, PartialEq, Eq, Structural, Debug)]
pub struct FuncletInfo {
    pub start_offset: u32,
    pub end_offset: u32,
    pub prolog_len: u8,
    /// What the prolog takes from the stack pointer.
    pub sp_delta: u32,
    pub kind: CorJitFuncKind,
}

/// The input of the unwind encoder.
#[derive(Debug)]
pub struct UnwindInput {
    pub frame_size: u32,
    /// The length of the main body.
    pub code_len: u32,
    pub funclets: Vec<FuncletInfo>,
}

/// The unwind description of one code fragment.
#[derive(PartialEq, Eq, Debug)]
pub struct UnwindBlob {
    pub func_kind: CorJitFuncKind,
    pub is_cold_code: bool,
    pub start_offset: u32,
    pub end_offset: u32,
    pub bytes: Vec<u8>,
}

} // verus!
