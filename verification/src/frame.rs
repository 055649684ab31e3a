//! The frame: where each local lies below the frame pointer.

use crate::abi::round_up16;
use crate::error::{CompileError, CompileResult};
use crate::ir::{Local, Method, Type};
use vstd::prelude::*;

verus! {

/// The largest frame: a multiple of 16 that a displacement can span.
pub const MAX_FRAME: u32 = 0x7FFF_FFF0;

/// The slot of every local and the size of the frame. The bytes of slot `i` are
/// those from `rbp - slots[i]` on.
#[derive(Debug)]
pub struct FrameLayout {
    pub slots: Vec<u32>,
    pub frame_size: u32,
}

pub open spec fn slot_size_spec(ty: Type) -> CompileResult<u32> {
    match ty {
        Type::Int32 | Type::Float => Ok(4),
        Type::Int64 | Type::NativeInt | Type::Ref | Type::ByRef | Type::Double => Ok(8),
        Type::Struct(_) => Err(CompileError::Unsupported("struct local in tier-0 frame layout")),
        Type::Void => Err(CompileError::Internal("void-typed local")),
    }
}

/// The size of a local. It is aligned to its size.
#[verifier::when_used_as_spec(slot_size_spec)]
pub fn slot_size(ty: Type) -> (r: CompileResult<u32>)
    ensures
        r == slot_size_spec(ty),
{
    match ty {
        Type::Int32 | Type::Float => Ok(4),
        Type::Int64 | Type::NativeInt | Type::Ref | Type::ByRef | Type::Double => Ok(8),
        Type::Struct(_) => Err(CompileError::Unsupported("struct local in tier-0 frame layout")),
        Type::Void => Err(CompileError::Internal("void-typed local")),
    }
}

/// `n` rounded up to a multiple of `to`.
pub open spec fn round_up(n: int, to: int) -> int {
    (n + to - 1) / to * to
}

/// The bytes that the first `n` locals take, padding included.
pub open spec fn frame_end(locals: Seq<Local>, n: nat) -> int
    decreases n,
{
    if n == 0 {
        0
    } else {
        let size = slot_size(locals[n - 1].ty)->Ok_0 as int;
        round_up(frame_end(locals, (n - 1) as nat), size) + size
    }
}

/// The first of the first `n` locals that can have no slot.
pub open spec fn slot_error(locals: Seq<Local>, n: nat) -> Option<CompileError>
    decreases n,
{
    if n == 0 {
        None
    } else {
        match slot_error(locals, (n - 1) as nat) {
            Some(e) => Some(e),
            None => match slot_size(locals[n - 1].ty) {
                Ok(_) => None,
                Err(e) => Some(e),
            },
        }
    }
}

/// Why there is no frame for these locals, if there is none.
pub open spec fn layout_error(locals: Seq<Local>) -> Option<CompileError> {
    match slot_error(locals, locals.len()) {
        Some(e) => Some(e),
        None => if frame_end(locals, locals.len()) > MAX_FRAME {
            Some(CompileError::Unsupported("frame too large"))
        } else {
            None
        },
    }
}

/// The frame offsets of the locals.
pub open spec fn frame_slots(locals: Seq<Local>) -> Seq<u32> {
    Seq::new(locals.len(), |i: int| frame_end(locals, (i + 1) as nat) as u32)
}

/// The size of the frame.
pub open spec fn frame_size_of(locals: Seq<Local>) -> u32 {
    round_up16(frame_end(locals, locals.len())) as u32
}

impl FrameLayout {
    /// Lay the locals out, in order, each naturally aligned.
    pub fn compute(method: &Method) -> (r: CompileResult<FrameLayout>)
        ensures
            match r {
                Ok(layout) => {
                    &&& layout_error(method.locals@) is None
                    &&& layout.slots@ == frame_slots(method.locals@)
                    &&& layout.frame_size == frame_size_of(method.locals@)
                },
                Err(e) => layout_error(method.locals@) == Some(e),
            },
    {
        let ghost locals = method.locals@;
        let mut n: usize = 0;
        while n < method.locals.len()
            invariant
                n <= method.locals.len(),
                locals == method.locals@,
                slot_error(locals, n as nat) is None,
            decreases method.locals.len() - n,
        {
            match slot_size(method.locals[n].ty) {
                Ok(_) => {},
                Err(e) => {
                    proof {
                        lemma_slot_error_stays(locals, (n + 1) as nat, locals.len());
                    }
                    return Err(e);
                },
            }
            n = n + 1;
        }
        let mut slots: Vec<u32> = Vec::new();
        let mut offset: u32 = 0;
        let mut n: usize = 0;
        while n < method.locals.len()
            invariant
                n <= method.locals.len(),
                locals == method.locals@,
                slot_error(locals, locals.len()) is None,
                offset == frame_end(locals, n as nat),
                offset <= MAX_FRAME,
                slots.len() == n,
                forall|i: int|
                    0 <= i < n ==> #[trigger] slots@[i] == frame_end(locals, (i + 1) as nat) as u32,
            decreases method.locals.len() - n,
        {
            proof {
                lemma_no_slot_error(locals, n as int, locals.len());
            }
            match slot_size(method.locals[n].ty) {
                Ok(size) => {
                    offset = (offset + size - 1) / size * size + size;
                },
                Err(e) => return Err(e),
            }
            n = n + 1;
            if offset > MAX_FRAME {
                proof {
                    lemma_frame_grows(locals, n as nat, locals.len());
                }
                return Err(CompileError::Unsupported("frame too large"));
            }
            slots.push(offset);
        }
        assert(slots@ =~= frame_slots(locals));
        Ok(FrameLayout { slots, frame_size: (offset + 15) / 16 * 16 })
    }
}

/// A local that can have no slot spoils every longer list.
proof fn lemma_slot_error_stays(locals: Seq<Local>, n: nat, m: nat)
    requires
        n <= m,
        slot_error(locals, n) is Some,
    ensures
        slot_error(locals, m) == slot_error(locals, n),
    decreases m,
{
    if n < m {
        lemma_slot_error_stays(locals, n, (m - 1) as nat);
    }
}

/// Where no local is in the way, each has a size.
proof fn lemma_no_slot_error(locals: Seq<Local>, i: int, n: nat)
    requires
        0 <= i < n,
        slot_error(locals, n) is None,
    ensures
        slot_size(locals[i].ty) is Ok,
    decreases n,
{
    if i < n - 1 {
        lemma_no_slot_error(locals, i, (n - 1) as nat);
    }
}

/// One more local takes its bytes above the others.
proof fn lemma_frame_step(locals: Seq<Local>, n: nat)
    requires
        n > 0,
        slot_size(locals[n - 1].ty) is Ok,
    ensures
        ({
            let size = slot_size(locals[n - 1].ty)->Ok_0;
            &&& frame_end(locals, (n - 1) as nat) + size <= frame_end(locals, n)
            &&& frame_end(locals, n) < frame_end(locals, (n - 1) as nat) + 2 * size
            &&& frame_end(locals, n) % (size as int) == 0
        }),
{
}

/// The locals that follow take more bytes.
proof fn lemma_frame_grows(locals: Seq<Local>, n: nat, m: nat)
    requires
        n <= m,
        slot_error(locals, m) is None,
    ensures
        frame_end(locals, n) <= frame_end(locals, m),
    decreases m,
{
    if n < m {
        lemma_no_slot_error(locals, m - 1, m);
        lemma_frame_step(locals, m);
        lemma_frame_grows(locals, n, (m - 1) as nat);
    }
}

/// Every slot is aligned to its size and lies inside of the frame.
pub proof fn law_slots_fit_the_frame(locals: Seq<Local>, i: int)
    requires
        layout_error(locals) is None,
        0 <= i < locals.len(),
    ensures
        slot_size(locals[i].ty) is Ok,
        frame_slots(locals)[i] % slot_size(locals[i].ty)->Ok_0 == 0,
        slot_size(locals[i].ty)->Ok_0 <= frame_slots(locals)[i],
        frame_slots(locals)[i] <= frame_size_of(locals),
{
    lemma_no_slot_error(locals, i, locals.len());
    lemma_frame_step(locals, (i + 1) as nat);
    lemma_no_slot_error_before(locals, i as nat, locals.len());
    lemma_frame_grows(locals, 0, i as nat);
    lemma_frame_grows(locals, (i + 1) as nat, locals.len());
}

/// Two slots share no byte: the later one ends before the earlier one begins,
/// counted away from the frame pointer.
pub proof fn law_slots_are_disjoint(locals: Seq<Local>, i: int, j: int)
    requires
        layout_error(locals) is None,
        0 <= i < j < locals.len(),
    ensures
        frame_slots(locals)[i] + slot_size(locals[j].ty)->Ok_0 <= frame_slots(locals)[j],
{
    law_slots_fit_the_frame(locals, i);
    law_slots_fit_the_frame(locals, j);
    lemma_frame_step(locals, (j + 1) as nat);
    lemma_no_slot_error_before(locals, (i + 1) as nat, locals.len());
    lemma_no_slot_error_before(locals, j as nat, locals.len());
    lemma_frame_grows(locals, 0, (i + 1) as nat);
    lemma_frame_grows(locals, (i + 1) as nat, j as nat);
    lemma_frame_grows(locals, (j + 1) as nat, locals.len());
}

/// No local of a shorter list is in the way either.
proof fn lemma_no_slot_error_before(locals: Seq<Local>, n: nat, m: nat)
    requires
        n <= m,
        slot_error(locals, m) is None,
    ensures
        slot_error(locals, n) is None,
    decreases m,
{
    if n < m {
        lemma_no_slot_error_before(locals, n, (m - 1) as nat);
    }
}

/// The frame size is a multiple of 16. A method is entered with `rsp` 8 off such
/// a multiple; with the frame pointer pushed and the frame allocated, `rsp` is
/// one, and so it is at every call.
pub proof fn law_calls_are_aligned(locals: Seq<Local>, entry_rsp: int)
    requires
        layout_error(locals) is None,
        entry_rsp % 16 == 8,
    ensures
        frame_size_of(locals) % 16 == 0,
        (entry_rsp - 8 - frame_size_of(locals)) % 16 == 0,
{
    lemma_no_slot_error_before(locals, 0, locals.len());
    lemma_frame_grows(locals, 0, locals.len());
}

/// The frame is within the reach of a displacement, and no larger than it must be:
/// it ends less than 16 bytes behind the last slot.
pub proof fn law_frame_is_tight(locals: Seq<Local>)
    requires
        layout_error(locals) is None,
    ensures
        frame_size_of(locals) <= MAX_FRAME,
        locals.len() == 0 ==> frame_size_of(locals) == 0,
        locals.len() > 0 ==> frame_size_of(locals) < frame_slots(locals).last() + 16,
{
    lemma_frame_grows(locals, 0, locals.len());
}

} // verus!
