//! The unwind encoder: how to undo a frame, as `UNWIND_INFO` structures.
//!
//! The prolog is `push rbp; mov rbp, rsp; sub rsp, N`. Its unwind codes stand
//! in undo order, each with the offset of the end of its instruction. A
//! funclet runs on its parent's `rbp`, so its prolog is `sub rsp, N` alone.

use crate::bytes::{le16, le32, push_le16, push_le32};
use crate::error::{CompileError, CompileResult};
use crate::metadata::{CorJitFuncKind, FuncletInfo, UnwindBlob, UnwindInput};
use vstd::prelude::*;

verus! {

pub const UWOP_PUSH_NONVOL: u8 = 0;

pub const UWOP_ALLOC_LARGE: u8 = 1;

pub const UWOP_ALLOC_SMALL: u8 = 2;

pub const UWOP_SET_FPREG: u8 = 3;

/// The register number of `rbp`.
pub const RBP: u8 = 5;

/// The end of `push rbp`.
pub const AFTER_PUSH_RBP: u8 = 1;

/// The end of `mov rbp, rsp`.
pub const AFTER_MOV_RBP_RSP: u8 = 4;

/// The largest allocation in one code slot.
pub const ALLOC_SMALL_MAX: u32 = 128;

/// The largest allocation in two code slots.
pub const ALLOC_LARGE_16_MAX: u32 = 0x7FFF8;

/// The largest frame whose `sub rsp, N` takes a one-byte immediate.
pub const SUB_RSP_IMM8_MAX: u32 = 127;

/// The length of the prolog of a frame.
pub open spec fn prolog_length(frame_size: u32) -> u8 {
    if frame_size <= SUB_RSP_IMM8_MAX {
        8
    } else {
        11
    }
}

/// One unwind code: its offset, then the operation in the low and its operand
/// in the high half of a byte.
pub open spec fn code_bytes(offset: u8, op: u8, op_info: int) -> Seq<u8> {
    seq![offset, (op + 16 * op_info) as u8]
}

/// A stack allocation the codes can describe.
pub open spec fn alloc_valid(size: u32) -> bool {
    size >= 8 && size % 8 == 0
}

/// The code of a stack allocation: the size in words in the code itself, in a
/// 16-bit slot behind it, or in bytes in a 32-bit one.
pub open spec fn alloc_code(offset: u8, size: u32) -> Seq<u8> {
    if size <= ALLOC_SMALL_MAX {
        code_bytes(offset, UWOP_ALLOC_SMALL, (size - 8) / 8)
    } else if size <= ALLOC_LARGE_16_MAX {
        code_bytes(offset, UWOP_ALLOC_LARGE, 0) + le16((size / 8) as u16)
    } else {
        code_bytes(offset, UWOP_ALLOC_LARGE, 1) + le32(size)
    }
}

/// The codes of the main body.
pub open spec fn root_codes(frame_size: u32) -> Seq<u8> {
    (if frame_size > 0 {
        alloc_code(prolog_length(frame_size), frame_size)
    } else {
        Seq::empty()
    }) + code_bytes(AFTER_MOV_RBP_RSP, UWOP_SET_FPREG, 0) + code_bytes(
        AFTER_PUSH_RBP,
        UWOP_PUSH_NONVOL,
        RBP as int,
    )
}

/// An `UNWIND_INFO`: version 1, the prolog length, the number of code slots,
/// the frame register, and the codes.
pub open spec fn unwind_info(prolog_len: u8, frame_register: u8, codes: Seq<u8>) -> Seq<u8> {
    seq![1u8, prolog_len, (codes.len() / 2) as u8, frame_register] + codes
}

pub open spec fn root_info(frame_size: u32) -> Seq<u8> {
    unwind_info(prolog_length(frame_size), RBP, root_codes(frame_size))
}

pub open spec fn funclet_info(f: FuncletInfo) -> Seq<u8> {
    unwind_info(f.prolog_len, 0, alloc_code(f.prolog_len, f.sp_delta))
}

/// The blob of the main body.
pub open spec fn is_root_blob(blob: UnwindBlob, input: UnwindInput) -> bool {
    &&& blob.func_kind == CorJitFuncKind::Root
    &&& !blob.is_cold_code
    &&& blob.start_offset == 0
    &&& blob.end_offset == input.code_len
    &&& blob.bytes@ == root_info(input.frame_size)
}

/// The blob of a funclet.
pub open spec fn is_funclet_blob(blob: UnwindBlob, f: FuncletInfo) -> bool {
    &&& blob.func_kind == f.kind
    &&& !blob.is_cold_code
    &&& blob.start_offset == f.start_offset
    &&& blob.end_offset == f.end_offset
    &&& blob.bytes@ == funclet_info(f)
}

/// What is wrong with the input.
pub open spec fn unwind_error(input: UnwindInput) -> Option<&'static str> {
    if input.frame_size % 8 != 0 {
        Some("frame size outside the 8-aligned frame contract")
    } else if exists|i: int|
        0 <= i < input.funclets.len() && !alloc_valid((#[trigger] input.funclets[i]).sp_delta) {
        Some("stack allocation outside the 8-aligned ≥ 8 contract")
    } else {
        None
    }
}

/// The prolog length for a frame size: 1 (`push rbp`) + 3 (`mov rbp, rsp`) + 4
/// or 7 (`sub rsp, N`).
pub fn prolog_len(frame_size: u32) -> (n: u8)
    ensures
        n == prolog_length(frame_size),
{
    if frame_size <= SUB_RSP_IMM8_MAX {
        8
    } else {
        11
    }
}

/// One unwind code.
fn push_code(codes: &mut Vec<u8>, code_offset: u8, op: u8, op_info: u8)
    requires
        op < 16,
        op_info < 16,
    ensures
        final(codes)@ == old(codes)@ + code_bytes(code_offset, op, op_info as int),
{
    codes.push(code_offset);
    codes.push(op + 16 * op_info);
    assert(codes@ =~= old(codes)@ + code_bytes(code_offset, op, op_info as int));
}

/// One allocation code, with its size slots.
fn push_alloc_code(codes: &mut Vec<u8>, code_offset: u8, size: u32) -> (r: CompileResult<()>)
    ensures
        match r {
            Ok(_) => alloc_valid(size) && final(codes)@ == old(codes)@ + alloc_code(
                code_offset,
                size,
            ),
            Err(e) => !alloc_valid(size) && final(codes)@ == old(codes)@ && e
                == CompileError::Internal("stack allocation outside the 8-aligned ≥ 8 contract"),
        },
{
    if size < 8 || size % 8 != 0 {
        return Err(CompileError::Internal("stack allocation outside the 8-aligned ≥ 8 contract"));
    }
    if size <= ALLOC_SMALL_MAX {
        push_code(codes, code_offset, UWOP_ALLOC_SMALL, ((size - 8) / 8) as u8);
    } else if size <= ALLOC_LARGE_16_MAX {
        let words: u32 = size / 8;
        push_code(codes, code_offset, UWOP_ALLOC_LARGE, 0);
        push_le16(codes, words as u16);
    } else {
        push_code(codes, code_offset, UWOP_ALLOC_LARGE, 1);
        push_le32(codes, size);
    }
    assert(codes@ =~= old(codes)@ + alloc_code(code_offset, size));
    Ok(())
}

fn build_info(prolog_len: u8, frame_register: u8, codes: Vec<u8>) -> (bytes: Vec<u8>)
    requires
        codes.len() <= 16,
    ensures
        bytes@ == unwind_info(prolog_len, frame_register, codes@),
{
    let mut bytes: Vec<u8> = vec![1u8, prolog_len, (codes.len() / 2) as u8, frame_register];
    let mut codes: Vec<u8> = codes;
    let ghost tail = codes@;
    bytes.append(&mut codes);
    assert(bytes@ =~= unwind_info(prolog_len, frame_register, tail));
    bytes
}

/// The blob of the main body, then one blob per funclet in emission order.
pub fn encode(input: &UnwindInput) -> (r: CompileResult<Vec<UnwindBlob>>)
    ensures
        match r {
            Ok(blobs) => {
                &&& unwind_error(*input) is None
                &&& blobs.len() == input.funclets.len() + 1
                &&& is_root_blob(blobs[0], *input)
                &&& forall|i: int|
                    0 <= i < input.funclets.len() ==> is_funclet_blob(
                        #[trigger] blobs[i + 1],
                        input.funclets[i],
                    )
            },
            Err(e) => e is Internal && unwind_error(*input) == Some(e->Internal_0),
        },
{
    if input.frame_size % 8 != 0 {
        return Err(CompileError::Internal("frame size outside the 8-aligned frame contract"));
    }
    let prolog_len: u8 = self::prolog_len(input.frame_size);
    let mut codes: Vec<u8> = Vec::new();
    if input.frame_size > 0 {
        push_alloc_code(&mut codes, prolog_len, input.frame_size)?;
    }
    push_code(&mut codes, AFTER_MOV_RBP_RSP, UWOP_SET_FPREG, 0);
    push_code(&mut codes, AFTER_PUSH_RBP, UWOP_PUSH_NONVOL, RBP);
    assert(codes@ =~= root_codes(input.frame_size));
    let mut blobs: Vec<UnwindBlob> = Vec::new();
    blobs.push(
        UnwindBlob {
            func_kind: CorJitFuncKind::Root,
            is_cold_code: false,
            start_offset: 0,
            end_offset: input.code_len,
            bytes: build_info(prolog_len, RBP, codes),
        },
    );
    let mut n: usize = 0;
    while n < input.funclets.len()
        invariant
            n <= input.funclets.len(),
            input.frame_size % 8 == 0,
            blobs.len() == n + 1,
            is_root_blob(blobs[0], *input),
            forall|i: int|
                0 <= i < n ==> alloc_valid((#[trigger] input.funclets[i]).sp_delta),
            forall|i: int|
                0 <= i < n ==> is_funclet_blob(#[trigger] blobs[i + 1], input.funclets[i]),
        decreases input.funclets.len() - n,
    {
        let f: FuncletInfo = input.funclets[n];
        let mut codes: Vec<u8> = Vec::new();
        push_alloc_code(&mut codes, f.prolog_len, f.sp_delta)?;
        assert(codes@ =~= alloc_code(f.prolog_len, f.sp_delta));
        let ghost before = blobs@;
        blobs.push(
            UnwindBlob {
                func_kind: f.kind,
                is_cold_code: false,
                start_offset: f.start_offset,
                end_offset: f.end_offset,
                bytes: build_info(f.prolog_len, 0, codes),
            },
        );
        assert forall|i: int| 0 <= i < n + 1 implies is_funclet_blob(
            #[trigger] blobs[i + 1],
            input.funclets[i],
        ) by {
            if i < n {
                assert(blobs[i + 1] == before[i + 1]);
            }
        }
        n = n + 1;
    }
    Ok(blobs)
}

/// What unwinding changes: the stack pointer and the frame pointer. Memory
/// stays as it is.
pub struct UnwindState {
    pub rsp: int,
    pub rbp: int,
}

/// The number in the 16-bit slot at `i`.
pub open spec fn slot16(codes: Seq<u8>, i: int) -> int {
    codes[i] + 256 * codes[i + 1]
}

/// The number in the 32-bit slot at `i`.
pub open spec fn slot32(codes: Seq<u8>, i: int) -> int {
    codes[i] + 0x100 * codes[i + 1] + 0x1_0000 * codes[i + 2] + 0x100_0000 * codes[i + 3]
}

/// Apply the unwind codes from byte `i` on, as the unwinder does for a method
/// that was stopped `at` bytes into its prolog: a code of an instruction that
/// has not run yet is skipped.
pub open spec fn unwind(
    codes: Seq<u8>,
    i: int,
    at: int,
    memory: spec_fn(int) -> int,
    state: UnwindState,
) -> UnwindState
    decreases codes.len() + 4 - i,
{
    if i < 0 || i + 1 >= codes.len() {
        state
    } else {
        let op = codes[i + 1] as int % 16;
        let info = codes[i + 1] as int / 16;
        let runs = codes[i] <= at;
        if op == UWOP_ALLOC_SMALL {
            let after = UnwindState { rsp: state.rsp + 8 * info + 8, ..state };
            unwind(codes, i + 2, at, memory, if runs { after } else { state })
        } else if op == UWOP_ALLOC_LARGE && info == 0 {
            let after = UnwindState { rsp: state.rsp + 8 * slot16(codes, i + 2), ..state };
            unwind(codes, i + 4, at, memory, if runs { after } else { state })
        } else if op == UWOP_ALLOC_LARGE {
            let after = UnwindState { rsp: state.rsp + slot32(codes, i + 2), ..state };
            unwind(codes, i + 6, at, memory, if runs { after } else { state })
        } else if op == UWOP_SET_FPREG {
            let after = UnwindState { rsp: state.rbp, ..state };
            unwind(codes, i + 2, at, memory, if runs { after } else { state })
        } else {
            let after = UnwindState { rsp: state.rsp + 8, rbp: memory(state.rsp) };
            unwind(codes, i + 2, at, memory, if runs { after } else { state })
        }
    }
}

/// Unwinding one allocation takes it back.
proof fn lemma_unwind_alloc(
    offset: u8,
    size: u32,
    tail: Seq<u8>,
    at: int,
    memory: spec_fn(int) -> int,
    state: UnwindState,
)
    requires
        alloc_valid(size),
    ensures
        unwind(alloc_code(offset, size) + tail, 0, at, memory, state) == unwind(
            alloc_code(offset, size) + tail,
            alloc_code(offset, size).len() as int,
            at,
            memory,
            if offset <= at {
                UnwindState { rsp: state.rsp + size, ..state }
            } else {
                state
            },
        ),
{
    let codes = alloc_code(offset, size) + tail;
    if size <= ALLOC_SMALL_MAX {
        assert(codes[1] == 2 + 16 * ((size - 8) / 8));
    } else if size <= ALLOC_LARGE_16_MAX {
        assert(codes[1] == 1);
        assert(slot16(codes, 2) == size as int / 8);
    } else {
        assert(codes[1] == 17);
        assert(slot32(codes, 2) == size as int);
    }
}

/// Unwinding the main body restores the caller's stack and frame pointer,
/// wherever in the prolog or behind it the method was stopped. `rsp` and `rbp`
/// are the caller's values at the method's entry.
pub proof fn law_root_unwinds(
    frame_size: u32,
    at: int,
    rsp: int,
    rbp: int,
    memory: spec_fn(int) -> int,
)
    requires
        frame_size % 8 == 0,
        at == 0 || at == AFTER_PUSH_RBP || at == AFTER_MOV_RBP_RSP || at >= prolog_length(
            frame_size,
        ),
        at >= AFTER_PUSH_RBP ==> memory(rsp - 8) == rbp,
    ensures
        ({
            let stopped = if at < AFTER_PUSH_RBP {
                UnwindState { rsp, rbp }
            } else if at < AFTER_MOV_RBP_RSP {
                UnwindState { rsp: rsp - 8, rbp }
            } else if at < prolog_length(frame_size) {
                UnwindState { rsp: rsp - 8, rbp: rsp - 8 }
            } else {
                UnwindState { rsp: rsp - 8 - frame_size, rbp: rsp - 8 }
            };
            unwind(root_codes(frame_size), 0, at, memory, stopped) == (UnwindState { rsp, rbp })
        }),
{
    let stopped = if at < AFTER_PUSH_RBP {
        UnwindState { rsp, rbp }
    } else if at < AFTER_MOV_RBP_RSP {
        UnwindState { rsp: rsp - 8, rbp }
    } else if at < prolog_length(frame_size) {
        UnwindState { rsp: rsp - 8, rbp: rsp - 8 }
    } else {
        UnwindState { rsp: rsp - 8 - frame_size, rbp: rsp - 8 }
    };
    let codes = root_codes(frame_size);
    let tail = code_bytes(AFTER_MOV_RBP_RSP, UWOP_SET_FPREG, 0) + code_bytes(
        AFTER_PUSH_RBP,
        UWOP_PUSH_NONVOL,
        RBP as int,
    );
    let n = codes.len() - 4;
    assert(codes[n + 1] == 3);
    assert(codes[n + 3] == 80);
    if frame_size > 0 {
        let alloc = alloc_code(prolog_length(frame_size), frame_size);
        assert(codes =~= alloc + tail);
        lemma_unwind_alloc(prolog_length(frame_size), frame_size, tail, at, memory, stopped);
    }
    let allocated = if at >= prolog_length(frame_size) && frame_size > 0 {
        UnwindState { rsp: stopped.rsp + frame_size, ..stopped }
    } else {
        stopped
    };
    reveal_with_fuel(unwind, 3);
    assert(unwind(codes, 0, at, memory, stopped) == unwind(codes, n as int, at, memory, allocated));
}

/// Past the prolog, the main body unwinds from any stack pointer: the frame
/// pointer alone decides.
pub proof fn law_root_unwinds_from_the_frame_pointer(
    frame_size: u32,
    at: int,
    stopped: UnwindState,
    memory: spec_fn(int) -> int,
)
    requires
        frame_size % 8 == 0,
        at >= prolog_length(frame_size),
    ensures
        unwind(root_codes(frame_size), 0, at, memory, stopped) == (UnwindState {
            rsp: stopped.rbp + 8,
            rbp: memory(stopped.rbp),
        }),
{
    let codes = root_codes(frame_size);
    let tail = code_bytes(AFTER_MOV_RBP_RSP, UWOP_SET_FPREG, 0) + code_bytes(
        AFTER_PUSH_RBP,
        UWOP_PUSH_NONVOL,
        RBP as int,
    );
    let n = codes.len() - 4;
    assert(codes[n + 1] == 3);
    assert(codes[n + 3] == 80);
    if frame_size > 0 {
        let alloc = alloc_code(prolog_length(frame_size), frame_size);
        assert(codes =~= alloc + tail);
        lemma_unwind_alloc(prolog_length(frame_size), frame_size, tail, at, memory, stopped);
    }
    reveal_with_fuel(unwind, 3);
}

/// Unwinding a funclet gives its allocation back and keeps the parent's frame
/// pointer.
pub proof fn law_funclet_unwinds(
    f: FuncletInfo,
    at: int,
    stopped: UnwindState,
    memory: spec_fn(int) -> int,
)
    requires
        alloc_valid(f.sp_delta),
        at >= f.prolog_len,
    ensures
        unwind(alloc_code(f.prolog_len, f.sp_delta), 0, at, memory, stopped) == (UnwindState {
            rsp: stopped.rsp + f.sp_delta,
            ..stopped
        }),
{
    let alloc = alloc_code(f.prolog_len, f.sp_delta);
    assert(alloc + Seq::<u8>::empty() =~= alloc);
    lemma_unwind_alloc(f.prolog_len, f.sp_delta, Seq::empty(), at, memory, stopped);
}

/// A blob is four bytes longer than its code slots, two bytes each, and counts
/// them.
pub proof fn law_blob_length(input: UnwindInput, f: FuncletInfo)
    requires
        input.frame_size % 8 == 0,
        alloc_valid(f.sp_delta),
    ensures
        root_info(input.frame_size).len() == 4 + 2 * root_info(input.frame_size)[2],
        funclet_info(f).len() == 4 + 2 * funclet_info(f)[2],
{
}

} // verus!
