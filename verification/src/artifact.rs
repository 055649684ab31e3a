//! What the emission of a method yields.

use crate::ir::{CallSig, MethodHandle};
use crate::metadata::GcRootSlot;
use vstd::prelude::*;

verus! {

/// The chunk that an offset counts in.
#[derive(Clone, Copy, PartialEq, Eq, Structural, Debug)]
pub enum ChunkRef {
    HotCode,
    ColdCode,
    RoData,
}

#[derive(Clone, Copy, PartialEq, Eq, Structural, Debug)]
pub enum RelocType {
    /// A 32-bit distance from the end of the field.
    Relative32,
}

/// A field that the loader fills in.
#[derive(Clone, Copy, PartialEq, Eq, Structural, Debug)]
pub struct Relocation {
    pub chunk: ChunkRef,
    pub offset: u32,
    pub target: u64,
    pub reloc_type: RelocType,
    pub addl_delta: i32,
}

/// A call. The collector may run at the byte behind it.
#[derive(Debug)]
pub struct CallSite {
    pub chunk: ChunkRef,
    pub offset: u32,
    pub size: u32,
    /// Of a managed call; a helper call has neither signature nor method.
    pub sig: Option<CallSig>,
    pub method: Option<MethodHandle>,
}

#[derive(Debug)]
pub struct CodeChunk {
    pub bytes: Vec<u8>,
    pub alignment: u32,
}

#[derive(Debug)]
pub struct CodeChunks {
    pub hot: CodeChunk,
    pub cold: Option<CodeChunk>,
}

#[derive(Debug)]
pub struct FrameInfo {
    pub frame_size: u32,
    pub gc_roots: Vec<GcRootSlot>,
}

/// The code of a method and what goes with it.
#[derive(Debug)]
pub struct CodegenOutput {
    pub code: CodeChunks,
    pub ro_data: Vec<u8>,
    pub relocations: Vec<Relocation>,
    pub call_sites: Vec<CallSite>,
    pub frame: FrameInfo,
}

} // verus!
