//! The live state of the return registers.
//!
//! A register that a call returns a GC pointer in is live from the call's
//! return address until the result has been stored to its frame slot. In a
//! method that can be interrupted anywhere, these windows are written as
//! lifetime transitions. Code offsets are counted through the interruptible
//! ranges only, and cut into chunks of 64. A table points to the data of each
//! chunk that holds a transition; a chunk without one takes the state in which
//! the chunk before it ended.

use crate::bits::{low_bits, pack, padding, unpack, varl_u_bits, zero_bits, BitWriter};
use crate::error::{CompileError, CompileResult};
use crate::gcinfo::{
    ceil_log2, ceil_log2_of, last_stop, ranges_valid, NUM_NORM_CODE_OFFSETS_PER_CHUNK_LOG2,
    POINTER_SIZE_ENCBASE,
};
use crate::metadata::GcInfoInput;
use crate::sort::{sort_by_key, sorted, SortKey};
use vstd::prelude::*;

verus! {

/// From `offset` on, a register is live, or dead.
#[derive(Clone, Copy, PartialEq, Eq, Structural, Debug)]
pub struct Transition {
    pub offset: u32,
    pub live: bool,
}

/// By offset; where one window ends as another begins, the end comes first.
impl SortKey for Transition {
    open spec fn key(self) -> u64 {
        (2 * (self.offset as int) + if self.live {
            1int
        } else {
            0int
        }) as u64
    }

    fn sort_key(self) -> (k: u64) {
        2 * (self.offset as u64) + if self.live {
            1u64
        } else {
            0u64
        }
    }
}

/// The offsets between which the registers of `mask` are live.
#[derive(Clone, Copy, PartialEq, Eq, Structural, Debug)]
pub struct Window {
    pub live_at: u32,
    pub dead_at: u32,
    pub mask: u32,
}

/// The number of code offsets in the first `n` ranges.
pub open spec fn covered(ranges: Seq<(u32, u32)>, n: nat) -> int
    decreases n,
{
    if n == 0 {
        0
    } else {
        covered(ranges, (n - 1) as nat) + (ranges[n - 1].1 - ranges[n - 1].0)
    }
}

/// The code offsets that can be interrupted.
pub open spec fn total_offsets(input: GcInfoInput) -> int {
    covered(input.interruptible_ranges@, input.interruptible_ranges@.len())
}

/// A code offset counted through the ranges from the `k`th on. The end of a
/// range counts as the offset behind its last byte.
pub open spec fn pseudo_offset(ranges: Seq<(u32, u32)>, k: nat, native: u32) -> Option<u32>
    decreases ranges.len() - k,
{
    if k >= ranges.len() {
        None
    } else if ranges[k as int].0 <= native <= ranges[k as int].1 {
        Some((covered(ranges, k) + (native - ranges[k as int].0)) as u32)
    } else {
        pseudo_offset(ranges, k + 1, native)
    }
}

/// What is wrong with the window of the `i`th call.
pub open spec fn window_error(input: GcInfoInput, i: int) -> Option<&'static str> {
    let ranges = input.interruptible_ranges@;
    if input.reg_live[i] == 0 {
        None
    } else if input.reg_home_end[i] <= input.safepoints[i] {
        Some("return-register window not forward")
    } else if pseudo_offset(ranges, 0, input.safepoints[i]) is None || pseudo_offset(
        ranges,
        0,
        input.reg_home_end[i],
    ) is None {
        Some("return-register window outside the interruptible ranges")
    } else {
        None
    }
}

/// What is wrong with the windows of the first `n` calls.
pub open spec fn windows_error(input: GcInfoInput, n: nat) -> Option<&'static str>
    decreases n,
{
    if n == 0 {
        None
    } else {
        match windows_error(input, (n - 1) as nat) {
            Some(e) => Some(e),
            None => window_error(input, n - 1),
        }
    }
}

/// A live mask has room for 32 registers. That is enough, or no mask is looked at:
/// each is empty, or stands behind a window with an error, or has one itself.
pub open spec fn masks_suffice(input: GcInfoInput) -> bool {
    input.reg_roots.len() <= 32 || forall|i: int|
        0 <= i < input.safepoints@.len() && #[trigger] input.reg_live@[i] != 0 ==> windows_error(
            input,
            (i + 1) as nat,
        ) is Some
}

/// The windows of the first `n` calls.
pub open spec fn windows(input: GcInfoInput, n: nat) -> Seq<Window>
    decreases n,
{
    if n == 0 {
        Seq::empty()
    } else {
        let before = windows(input, (n - 1) as nat);
        let ranges = input.interruptible_ranges@;
        if input.reg_live[n - 1] == 0 {
            before
        } else {
            before.push(
                Window {
                    live_at: pseudo_offset(ranges, 0, input.safepoints[n - 1])->0,
                    dead_at: pseudo_offset(ranges, 0, input.reg_home_end[n - 1])->0,
                    mask: input.reg_live[n - 1],
                },
            )
        }
    }
}

/// The window is one of the register slot `slot`.
pub open spec fn window_has(window: Window, slot: nat) -> bool {
    low_bits(window.mask as nat, 64)[slot as int]
}

/// The transitions of one window. A window that ends with the code needs no
/// transition there.
pub open spec fn window_events(window: Window, total: int, slot: nat) -> Seq<Transition> {
    if !window_has(window, slot) {
        Seq::empty()
    } else if window.dead_at < total {
        seq![
            Transition { offset: window.live_at, live: true },
            Transition { offset: window.dead_at, live: false },
        ]
    } else {
        seq![Transition { offset: window.live_at, live: true }]
    }
}

/// The transitions of a register slot, in the order of the calls.
pub open spec fn events(windows: Seq<Window>, total: int, slot: nat) -> Seq<Transition>
    decreases windows.len(),
{
    if windows.len() == 0 {
        Seq::empty()
    } else {
        events(windows.drop_last(), total, slot) + window_events(windows.last(), total, slot)
    }
}

/// The transitions of each register slot, ascending.
pub open spec fn slot_transitions(input: GcInfoInput) -> Seq<Seq<Transition>> {
    Seq::new(
        input.reg_roots@.len(),
        |slot: int|
            sort_by_key(
                events(
                    windows(input, input.safepoints@.len()),
                    total_offsets(input),
                    slot as nat,
                ),
            ),
    )
}

/// Live and dead alternate.
pub open spec fn alternating(t: Seq<Transition>) -> bool {
    forall|i: int, j: int|
        0 <= i && j == i + 1 && j < t.len() ==> (#[trigger] t[i]).live != (#[trigger] t[j]).live
}

/// What is wrong with the transitions of one slot.
pub open spec fn transitions_error(t: Seq<Transition>) -> Option<&'static str> {
    if !alternating(t) {
        Some("overlapping return-register windows")
    } else if t.len() > 0 && !t[0].live {
        Some("a return-register window starts dead")
    } else {
        None
    }
}

/// What is wrong with the transitions of the first `n` slots.
pub open spec fn slots_error(trans: Seq<Seq<Transition>>, n: nat) -> Option<&'static str>
    decreases n,
{
    if n == 0 {
        None
    } else {
        match slots_error(trans, (n - 1) as nat) {
            Some(e) => Some(e),
            None => transitions_error(trans[n - 1]),
        }
    }
}

/// How many transitions come before `offset`.
pub open spec fn count_before(t: Seq<Transition>, offset: int) -> nat
    decreases t.len(),
{
    if t.len() == 0 || t.last().offset < offset {
        t.len()
    } else {
        count_before(t.drop_last(), offset)
    }
}

/// The state behind the first `n` transitions.
pub open spec fn state_after(t: Seq<Transition>, n: nat) -> bool {
    n > 0 && t[n - 1].live
}

pub open spec fn chunk_start(chunk: nat) -> int {
    64 * chunk as int
}

pub open spec fn chunk_end(total: int, chunk: nat) -> int {
    if total < chunk_start(chunk) + 64 {
        total
    } else {
        chunk_start(chunk) + 64
    }
}

/// The transitions before a chunk.
pub open spec fn chunk_lo(t: Seq<Transition>, chunk: nat) -> nat {
    count_before(t, chunk_start(chunk))
}

/// The transitions up to the end of a chunk.
pub open spec fn chunk_hi(t: Seq<Transition>, total: int, chunk: nat) -> nat {
    count_before(t, chunk_end(total, chunk))
}

/// A transition lies in the chunk.
pub open spec fn has_transition(t: Seq<Transition>, total: int, chunk: nat) -> bool {
    chunk_lo(t, chunk) < chunk_hi(t, total, chunk)
}

/// The slot is live somewhere in the chunk, or changes in it.
pub open spec fn could_be_live(t: Seq<Transition>, total: int, chunk: nat) -> bool {
    state_after(t, chunk_lo(t, chunk)) || has_transition(t, total, chunk)
}

/// Some slot has a transition in the chunk.
pub open spec fn chunk_active(trans: Seq<Seq<Transition>>, total: int, chunk: nat) -> bool {
    exists|slot: int| 0 <= slot < trans.len() && has_transition(#[trigger] trans[slot], total, chunk)
}

/// Which of the first `n` slots could be live.
pub open spec fn could_be_live_bits(
    trans: Seq<Seq<Transition>>,
    total: int,
    chunk: nat,
    n: nat,
) -> Seq<bool> {
    Seq::new(n, |slot: int| could_be_live(trans[slot], total, chunk))
}

/// The state in which the chunk ends, of those of the first `n` slots that
/// could be live.
pub open spec fn final_state_bits(
    trans: Seq<Seq<Transition>>,
    total: int,
    chunk: nat,
    n: nat,
) -> Seq<bool>
    decreases n,
{
    if n == 0 {
        Seq::empty()
    } else {
        let before = final_state_bits(trans, total, chunk, (n - 1) as nat);
        let t = trans[n - 1];
        if could_be_live(t, total, chunk) {
            before.push(state_after(t, chunk_hi(t, total, chunk)))
        } else {
            before
        }
    }
}

/// One transition, relative to the chunk. One at the very start of the chunk
/// carries no information.
pub open spec fn transition_bits(delta: nat) -> Seq<bool> {
    if delta == 0 {
        Seq::empty()
    } else {
        seq![true] + low_bits(delta, NUM_NORM_CODE_OFFSETS_PER_CHUNK_LOG2 as nat)
    }
}

/// The transitions `lo..hi` of a slot.
pub open spec fn transition_list_bits(
    t: Seq<Transition>,
    chunk: nat,
    lo: nat,
    hi: nat,
) -> Seq<bool>
    decreases hi,
{
    if hi <= lo {
        Seq::empty()
    } else {
        transition_list_bits(t, chunk, lo, (hi - 1) as nat) + transition_bits(
            (t[hi - 1].offset - chunk_start(chunk)) as nat,
        )
    }
}

/// The transitions in a chunk, of those of the first `n` slots that could be
/// live; a zero bit ends each slot's list.
pub open spec fn chunk_transition_bits(
    trans: Seq<Seq<Transition>>,
    total: int,
    chunk: nat,
    n: nat,
) -> Seq<bool>
    decreases n,
{
    if n == 0 {
        Seq::empty()
    } else {
        let before = chunk_transition_bits(trans, total, chunk, (n - 1) as nat);
        let t = trans[n - 1];
        if could_be_live(t, total, chunk) {
            before + transition_list_bits(t, chunk, chunk_lo(t, chunk), chunk_hi(t, total, chunk))
                + seq![false]
        } else {
            before
        }
    }
}

/// The data of one chunk.
pub open spec fn chunk_bits(trans: Seq<Seq<Transition>>, total: int, chunk: nat) -> Seq<bool> {
    seq![false] + could_be_live_bits(trans, total, chunk, trans.len()) + final_state_bits(
        trans,
        total,
        chunk,
        trans.len(),
    ) + chunk_transition_bits(trans, total, chunk, trans.len())
}

/// The data of the first `n` chunks.
pub open spec fn chunk_stream(trans: Seq<Seq<Transition>>, total: int, n: nat) -> Seq<bool>
    decreases n,
{
    if n == 0 {
        Seq::empty()
    } else {
        let before = chunk_stream(trans, total, (n - 1) as nat);
        if chunk_active(trans, total, (n - 1) as nat) {
            before + chunk_bits(trans, total, (n - 1) as nat)
        } else {
            before
        }
    }
}

/// Where the data of a chunk starts in the chunk stream, counted from 1; 0 for
/// a chunk without data.
pub open spec fn chunk_pointer(trans: Seq<Seq<Transition>>, total: int, chunk: nat) -> nat {
    if chunk_active(trans, total, chunk) {
        chunk_stream(trans, total, chunk).len() + 1
    } else {
        0
    }
}

/// The largest of the first `n` pointers.
pub open spec fn largest_pointer(trans: Seq<Seq<Transition>>, total: int, n: nat) -> nat
    decreases n,
{
    if n == 0 {
        0
    } else {
        let before = largest_pointer(trans, total, (n - 1) as nat);
        let last = chunk_pointer(trans, total, (n - 1) as nat);
        if last > before {
            last
        } else {
            before
        }
    }
}

pub open spec fn chunk_count(total: int) -> nat {
    ((total + 63) / 64) as nat
}

/// The width of a pointer.
pub open spec fn pointer_width(trans: Seq<Seq<Transition>>, total: int) -> nat {
    ceil_log2_of(((largest_pointer(trans, total, chunk_count(total)) + 1) as u32) as nat)
}

/// The pointers of the first `n` chunks.
pub open spec fn pointer_table_bits(
    trans: Seq<Seq<Transition>>,
    total: int,
    width: nat,
    n: nat,
) -> Seq<bool>
    decreases n,
{
    if n == 0 {
        Seq::empty()
    } else {
        pointer_table_bits(trans, total, width, (n - 1) as nat) + low_bits(
            (chunk_pointer(trans, total, (n - 1) as nat) as u64) as nat,
            width,
        )
    }
}

/// The size of a pointer and the pointer table.
pub open spec fn pointer_bits(trans: Seq<Seq<Transition>>, total: int) -> Seq<bool> {
    varl_u_bits(pointer_width(trans, total), POINTER_SIZE_ENCBASE as nat) + pointer_table_bits(
        trans,
        total,
        pointer_width(trans, total),
        chunk_count(total),
    )
}

/// The stream `before` followed by the pointers and, from the next byte on, the
/// chunk stream.
pub open spec fn with_chunks(
    before: Seq<bool>,
    trans: Seq<Seq<Transition>>,
    total: int,
) -> Seq<bool> {
    let pointed = before + pointer_bits(trans, total);
    pointed + zero_bits(padding(pointed.len())) + unpack(
        pack(chunk_stream(trans, total, chunk_count(total))),
    )
}

/// What is wrong with the live windows, the first thing first.
pub open spec fn chunks_error(input: GcInfoInput) -> Option<&'static str> {
    let total = total_offsets(input);
    let trans = slot_transitions(input);
    if total == 0 {
        Some("register roots in a method with no interruptible range")
    } else {
        match windows_error(input, input.safepoints@.len()) {
            Some(e) => Some(e),
            None => match slots_error(trans, trans.len()) {
                Some(e) => Some(e),
                None => if largest_pointer(trans, total, chunk_count(total)) == 0 {
                    Some("register roots with no live window anywhere")
                } else {
                    None
                },
            },
        }
    }
}

/// The transition lists as sequences.
pub open spec fn lists(v: Seq<Vec<Transition>>) -> Seq<Seq<Transition>> {
    Seq::new(v.len(), |i: int| v[i]@)
}

proof fn lemma_covered(ranges: Seq<(u32, u32)>, n: nat)
    requires
        ranges_valid(ranges),
        n <= ranges.len(),
    ensures
        0 <= covered(ranges, n) <= last_stop(ranges, n as int),
        n > 0 ==> covered(ranges, n) > covered(ranges, (n - 1) as nat),
    decreases n,
{
    if n > 0 {
        lemma_covered(ranges, (n - 1) as nat);
        let r = ranges[n - 1];
        assert(last_stop(ranges, n - 1) <= r.0 < r.1);
    }
}

fn count_offsets(ranges: &Vec<(u32, u32)>) -> (total: u32)
    requires
        ranges_valid(ranges@),
    ensures
        total == covered(ranges@, ranges@.len()),
{
    let mut total: u32 = 0;
    let mut n: usize = 0;
    while n < ranges.len()
        invariant
            n <= ranges.len(),
            ranges_valid(ranges@),
            total == covered(ranges@, n as nat),
        decreases ranges.len() - n,
    {
        let (start, end) = ranges[n];
        proof {
            lemma_covered(ranges@, (n + 1) as nat);
            assert(last_stop(ranges@, n as int) <= ranges@[n as int].0 < ranges@[n as int].1);
        }
        total = total + (end - start);
        n = n + 1;
    }
    total
}

/// A code offset counted through the interruptible ranges.
fn pseudo(ranges: &Vec<(u32, u32)>, native: u32) -> (r: Option<u32>)
    requires
        ranges_valid(ranges@),
    ensures
        r == pseudo_offset(ranges@, 0, native),
{
    let mut acc: u32 = 0;
    let mut n: usize = 0;
    while n < ranges.len()
        invariant
            n <= ranges.len(),
            ranges_valid(ranges@),
            acc == covered(ranges@, n as nat),
            pseudo_offset(ranges@, 0, native) == pseudo_offset(ranges@, n as nat, native),
        decreases ranges.len() - n,
    {
        let (start, end) = ranges[n];
        proof {
            lemma_covered(ranges@, (n + 1) as nat);
            assert(last_stop(ranges@, n as int) <= ranges@[n as int].0 < ranges@[n as int].1);
        }
        if native >= start && native <= end {
            return Some(acc + (native - start));
        }
        acc = acc + (end - start);
        n = n + 1;
    }
    None
}

fn collect_windows(input: &GcInfoInput) -> (r: CompileResult<Vec<Window>>)
    requires
        ranges_valid(input.interruptible_ranges@),
        input.reg_live.len() == input.safepoints.len(),
        input.reg_home_end.len() == input.safepoints.len(),
    ensures
        match r {
            Ok(v) => windows_error(*input, input.safepoints@.len()) is None && v@ == windows(
                *input,
                input.safepoints@.len(),
            ),
            Err(e) => e is Internal && windows_error(*input, input.safepoints@.len()) == Some(
                e->Internal_0,
            ),
        },
{
    let mut out: Vec<Window> = Vec::new();
    let mut n: usize = 0;
    while n < input.safepoints.len()
        invariant
            n <= input.safepoints.len(),
            ranges_valid(input.interruptible_ranges@),
            input.reg_live.len() == input.safepoints.len(),
            input.reg_home_end.len() == input.safepoints.len(),
            windows_error(*input, n as nat) is None,
            out@ == windows(*input, n as nat),
        decreases input.safepoints.len() - n,
    {
        let mask: u32 = input.reg_live[n];
        if mask != 0 {
            let ret: u32 = input.safepoints[n];
            let home_end: u32 = input.reg_home_end[n];
            let failed: Option<&'static str> = if home_end <= ret {
                Some("return-register window not forward")
            } else {
                match (
                    pseudo(&input.interruptible_ranges, ret),
                    pseudo(&input.interruptible_ranges, home_end),
                ) {
                    (Some(live_at), Some(dead_at)) => {
                        out.push(Window { live_at, dead_at, mask });
                        None
                    },
                    _ => Some("return-register window outside the interruptible ranges"),
                }
            };
            assert(failed == window_error(*input, n as int));
            if let Some(message) = failed {
                proof {
                    lemma_windows_error(*input, (n + 1) as nat, input.safepoints@.len());
                }
                return Err(CompileError::Internal(message));
            }
        }
        n = n + 1;
    }
    Ok(out)
}

/// The first error stays the error.
proof fn lemma_windows_error(input: GcInfoInput, n: nat, m: nat)
    requires
        n <= m,
        windows_error(input, n) is Some,
    ensures
        windows_error(input, m) == windows_error(input, n),
    decreases m,
{
    if n < m {
        lemma_windows_error(input, n, (m - 1) as nat);
    }
}

/// Where there are more registers than bits, there is no window.
proof fn lemma_no_windows(input: GcInfoInput, n: nat)
    requires
        masks_suffice(input),
        windows_error(input, n) is None,
        n <= input.safepoints@.len(),
    ensures
        input.reg_roots.len() > 32 ==> windows(input, n).len() == 0,
    decreases n,
{
    if n > 0 {
        lemma_no_windows(input, (n - 1) as nat);
        assert(input.reg_live@[n - 1] == input.reg_live[n - 1]);
    }
}

proof fn lemma_slots_error(trans: Seq<Seq<Transition>>, n: nat, m: nat)
    requires
        n <= m,
        slots_error(trans, n) is Some,
    ensures
        slots_error(trans, m) == slots_error(trans, n),
    decreases m,
{
    if n < m {
        lemma_slots_error(trans, n, (m - 1) as nat);
    }
}

fn collect_events(windows: &Vec<Window>, total: u32, slot: usize) -> (out: Vec<Transition>)
    requires
        windows.len() > 0 ==> slot < 32,
    ensures
        out@ == events(windows@, total as int, slot as nat),
{
    let mut out: Vec<Transition> = Vec::new();
    let mut n: usize = 0;
    assert(windows@.take(0) =~= Seq::<Window>::empty());
    while n < windows.len()
        invariant
            n <= windows.len(),
            windows.len() > 0 ==> slot < 32,
            out@ == events(windows@.take(n as int), total as int, slot as nat),
        decreases windows.len() - n,
    {
        let window: Window = windows[n];
        let bit: u32 = slot as u32;
        let ghost before = out@;
        proof {
            crate::bits::lemma_bit_of(window.mask as u64, bit);
            assert(windows@.take(n + 1).drop_last() =~= windows@.take(n as int));
        }
        if ((window.mask as u64) >> bit) & 1 == 1 {
            out.push(Transition { offset: window.live_at, live: true });
            if window.dead_at < total {
                out.push(Transition { offset: window.dead_at, live: false });
            }
        }
        assert(out@ =~= before + window_events(window, total as int, slot as nat));
        n = n + 1;
    }
    assert(windows@.take(n as int) =~= windows@);
    out
}

fn check_transitions(t: &Vec<Transition>) -> (r: Option<&'static str>)
    ensures
        r == transitions_error(t@),
{
    let mut n: usize = 1;
    while n < t.len()
        invariant
            1 <= n,
            forall|i: int, j: int|
                0 <= i && j == i + 1 && j < n && j < t.len() ==> (#[trigger] t[i]).live != (
                #[trigger] t[j]).live,
        decreases t.len() - n,
    {
        if t[n - 1].live == t[n].live {
            assert(t@[n - 1].live == t@[n as int].live);
            return Some("overlapping return-register windows");
        }
        n = n + 1;
    }
    if t.len() > 0 && !t[0].live {
        return Some("a return-register window starts dead");
    }
    None
}

fn collect_transitions(
    input: &GcInfoInput,
    windows: &Vec<Window>,
    total: u32,
) -> (r: CompileResult<Vec<Vec<Transition>>>)
    requires
        windows.len() > 0 ==> input.reg_roots.len() <= 32,
        windows@ == self::windows(*input, input.safepoints@.len()),
        total == total_offsets(*input),
    ensures
        match r {
            Ok(v) => slots_error(slot_transitions(*input), input.reg_roots@.len()) is None && lists(
                v@,
            ) == slot_transitions(*input),
            Err(e) => e is Internal && slots_error(slot_transitions(*input), input.reg_roots@.len())
                == Some(e->Internal_0),
        },
{
    let ghost trans = slot_transitions(*input);
    let mut out: Vec<Vec<Transition>> = Vec::new();
    let mut slot: usize = 0;
    while slot < input.reg_roots.len()
        invariant
            slot <= input.reg_roots.len(),
            windows.len() > 0 ==> input.reg_roots.len() <= 32,
            windows@ == self::windows(*input, input.safepoints@.len()),
            total == total_offsets(*input),
            trans == slot_transitions(*input),
            slots_error(trans, slot as nat) is None,
            out.len() == slot,
            forall|i: int| 0 <= i < slot ==> (#[trigger] out[i])@ == trans[i],
        decreases input.reg_roots.len() - slot,
    {
        let t: Vec<Transition> = sorted(&collect_events(windows, total, slot));
        assert(t@ == trans[slot as int]);
        if let Some(message) = check_transitions(&t) {
            proof {
                lemma_slots_error(trans, (slot + 1) as nat, input.reg_roots@.len());
            }
            return Err(CompileError::Internal(message));
        }
        out.push(t);
        slot = slot + 1;
    }
    assert(lists(out@) =~= trans);
    Ok(out)
}

/// The transitions of a sorted list that come before an offset are its first.
proof fn lemma_count_before(t: Seq<Transition>, offset: int)
    requires
        crate::sort::is_sorted(t),
    ensures
        count_before(t, offset) <= t.len(),
        forall|i: int| 0 <= i < count_before(t, offset) ==> (#[trigger] t[i]).offset < offset,
        forall|i: int| count_before(t, offset) <= i < t.len() ==> (#[trigger] t[i]).offset >= offset,
    decreases t.len(),
{
    if t.len() > 0 {
        if t.last().offset < offset {
            assert forall|i: int| 0 <= i < t.len() implies (#[trigger] t[i]).offset < offset by {
                assert(t[i].key() <= t[t.len() - 1].key());
            }
        } else {
            let front = t.drop_last();
            assert(crate::sort::is_sorted(front));
            lemma_count_before(front, offset);
            assert forall|i: int| 0 <= i < count_before(t, offset) implies (#[trigger] t[i]).offset
                < offset by {
                assert(front[i] == t[i]);
            }
            assert forall|i: int| count_before(t, offset) <= i < t.len() implies (
            #[trigger] t[i]).offset >= offset by {
                if i < front.len() {
                    assert(front[i] == t[i]);
                }
            }
        }
    }
}

proof fn lemma_count_unique(t: Seq<Transition>, offset: int, n: nat)
    requires
        crate::sort::is_sorted(t),
        n <= t.len(),
        n == 0 || t[n - 1].offset < offset,
        n == t.len() || t[n as int].offset >= offset,
    ensures
        n == count_before(t, offset),
{
    lemma_count_before(t, offset);
    let k = count_before(t, offset);
    if k < n {
        assert(t[n - 1].offset >= offset);
    } else if k > n {
        assert(t[n as int].offset < offset);
    }
}

/// Move every cursor past the transitions before `end`.
fn advance(trans: &Vec<Vec<Transition>>, cursors: &Vec<usize>, base: u32, end: u32) -> (out: Vec<
    usize,
>)
    requires
        base <= end,
        cursors.len() == trans.len(),
        forall|s: int|
            0 <= s < trans.len() ==> crate::sort::is_sorted(#[trigger] lists(trans@)[s])
                && cursors[s] == count_before(lists(trans@)[s], base as int),
    ensures
        out.len() == trans.len(),
        forall|s: int|
            0 <= s < trans.len() ==> out[s] == count_before(#[trigger] lists(trans@)[s], end as int),
{
    let mut out: Vec<usize> = Vec::new();
    let mut slot: usize = 0;
    while slot < trans.len()
        invariant
            base <= end,
            slot <= trans.len(),
            cursors.len() == trans.len(),
            forall|s: int|
                0 <= s < trans.len() ==> crate::sort::is_sorted(#[trigger] lists(trans@)[s])
                    && cursors[s] == count_before(lists(trans@)[s], base as int),
            out.len() == slot,
            forall|s: int|
                0 <= s < slot ==> out[s] == count_before(#[trigger] lists(trans@)[s], end as int),
        decreases trans.len() - slot,
    {
        let ghost t = lists(trans@)[slot as int];
        let mut cursor: usize = cursors[slot];
        proof {
            lemma_count_before(t, base as int);
        }
        while cursor < trans[slot].len() && trans[slot][cursor].offset < end
            invariant
                slot < trans.len(),
                t == trans[slot as int]@,
                cursor <= t.len(),
                base <= end,
                cursor == 0 || t[cursor - 1].offset < end,
            decreases t.len() - cursor,
        {
            cursor = cursor + 1;
        }
        proof {
            lemma_count_unique(t, end as int, cursor as nat);
        }
        out.push(cursor);
        slot = slot + 1;
    }
    out
}

/// The cursors of a chunk: the transitions before it, and up to its end.
spec fn cursors_at(
    trans: Seq<Seq<Transition>>,
    total: int,
    chunk: nat,
    los: Seq<usize>,
    his: Seq<usize>,
) -> bool {
    &&& los.len() == trans.len()
    &&& his.len() == trans.len()
    &&& forall|s: int|
        0 <= s < trans.len() ==> {
            &&& crate::sort::is_sorted(#[trigger] trans[s])
            &&& los[s] == chunk_lo(trans[s], chunk)
            &&& his[s] == chunk_hi(trans[s], total, chunk)
            &&& los[s] <= his[s] <= trans[s].len()
        }
}

/// The slot at `slot` could be live in the chunk.
fn slot_could_be_live(
    trans: &Vec<Vec<Transition>>,
    los: &Vec<usize>,
    his: &Vec<usize>,
    slot: usize,
    Ghost(total): Ghost<int>,
    Ghost(chunk): Ghost<nat>,
) -> (b: bool)
    requires
        cursors_at(lists(trans@), total, chunk, los@, his@),
        slot < trans.len(),
    ensures
        b == could_be_live(lists(trans@)[slot as int], total, chunk),
{
    let ghost t = lists(trans@)[slot as int];
    let lo: usize = los[slot];
    lo < his[slot] || (lo > 0 && trans[slot][lo - 1].live)
}

/// One slot's transitions `lo..hi` in a chunk.
fn write_transitions(
    data: &mut BitWriter,
    t: &Vec<Transition>,
    lo: usize,
    hi: usize,
    base: u32,
    Ghost(chunk): Ghost<nat>,
)
    requires
        old(data).well_formed(),
        base == chunk_start(chunk),
        lo <= hi <= t.len(),
        forall|i: int| lo <= i < hi ==> base <= (#[trigger] t[i]).offset,
    ensures
        final(data).well_formed(),
        final(data)@ == old(data)@ + transition_list_bits(t@, chunk, lo as nat, hi as nat),
{
    let ghost before = data@;
    let mut j: usize = lo;
    assert(data@ =~= before + transition_list_bits(t@, chunk, lo as nat, lo as nat));
    while j < hi
        invariant
            lo <= j <= hi <= t.len(),
            data.well_formed(),
            base == chunk_start(chunk),
            forall|i: int| lo <= i < hi ==> base <= (#[trigger] t[i]).offset,
            data@ == before + transition_list_bits(t@, chunk, lo as nat, j as nat),
        decreases hi - j,
    {
        let delta: u32 = t[j].offset - base;
        let ghost start = data@;
        if delta != 0 {
            data.write_bit(true);
            data.write(delta as u64, NUM_NORM_CODE_OFFSETS_PER_CHUNK_LOG2);
        }
        assert(data@ =~= start + transition_bits(delta as nat));
        assert(start + transition_bits(delta as nat) =~= before + (transition_list_bits(
            t@,
            chunk,
            lo as nat,
            j as nat,
        ) + transition_bits(delta as nat)));
        j = j + 1;
    }
}

/// The data of one chunk.
fn write_chunk(
    data: &mut BitWriter,
    trans: &Vec<Vec<Transition>>,
    los: &Vec<usize>,
    his: &Vec<usize>,
    base: u32,
    Ghost(total): Ghost<int>,
    Ghost(chunk): Ghost<nat>,
)
    requires
        old(data).well_formed(),
        base == chunk_start(chunk),
        cursors_at(lists(trans@), total, chunk, los@, his@),
    ensures
        final(data).well_formed(),
        final(data)@ == old(data)@ + chunk_bits(lists(trans@), total, chunk),
{
    let ghost all = lists(trans@);
    let ghost before = data@;
    let ghost head = seq![false];
    data.write_bit(false);
    assert(data@ =~= before + head);
    let mut slot: usize = 0;
    assert(data@ =~= before + (head + could_be_live_bits(all, total, chunk, 0)));
    while slot < trans.len()
        invariant
            slot <= trans.len(),
            data.well_formed(),
            all == lists(trans@),
            cursors_at(all, total, chunk, los@, his@),
            data@ == before + (head + could_be_live_bits(all, total, chunk, slot as nat)),
        decreases trans.len() - slot,
    {
        let live: bool = slot_could_be_live(trans, los, his, slot, Ghost(total), Ghost(chunk));
        data.write_bit(live);
        slot = slot + 1;
        assert(data@ =~= before + (head + could_be_live_bits(all, total, chunk, slot as nat)));
    }
    let ghost vector = head + could_be_live_bits(all, total, chunk, all.len());
    slot = 0;
    assert(data@ =~= before + (vector + final_state_bits(all, total, chunk, 0)));
    while slot < trans.len()
        invariant
            slot <= trans.len(),
            data.well_formed(),
            all == lists(trans@),
            cursors_at(all, total, chunk, los@, his@),
            data@ == before + (vector + final_state_bits(all, total, chunk, slot as nat)),
        decreases trans.len() - slot,
    {
        let ghost t = all[slot as int];
        let live: bool = slot_could_be_live(trans, los, his, slot, Ghost(total), Ghost(chunk));
        if live {
            let hi: usize = his[slot];
            assert(hi <= t.len());
            data.write_bit(hi > 0 && trans[slot][hi - 1].live);
        }
        slot = slot + 1;
        assert(data@ =~= before + (vector + final_state_bits(all, total, chunk, slot as nat)));
    }
    let ghost states = vector + final_state_bits(all, total, chunk, all.len());
    slot = 0;
    assert(data@ =~= before + (states + chunk_transition_bits(all, total, chunk, 0)));
    while slot < trans.len()
        invariant
            slot <= trans.len(),
            data.well_formed(),
            base == chunk_start(chunk),
            all == lists(trans@),
            cursors_at(all, total, chunk, los@, his@),
            data@ == before + (states + chunk_transition_bits(all, total, chunk, slot as nat)),
        decreases trans.len() - slot,
    {
        let ghost t = all[slot as int];
        let ghost start = data@;
        let live: bool = slot_could_be_live(trans, los, his, slot, Ghost(total), Ghost(chunk));
        if live {
            let lo: usize = los[slot];
            let hi: usize = his[slot];
            proof {
                assert(hi <= t.len());
                lemma_count_before(t, chunk_start(chunk));
                assert(forall|i: int| lo <= i < hi ==> base <= (#[trigger] t[i]).offset);
            }
            write_transitions(data, &trans[slot], lo, hi, base, Ghost(chunk));
            data.write_bit(false);
            let ghost list = transition_list_bits(t, chunk, lo as nat, hi as nat);
            assert(data@ =~= start + (list + seq![false]));
            assert(start + (list + seq![false]) =~= before + (states + (chunk_transition_bits(
                all,
                total,
                chunk,
                slot as nat,
            ) + list + seq![false])));
        }
        slot = slot + 1;
    }
}

/// The live state of a method that can be interrupted anywhere.
pub fn encode_tracked_chunks(w: &mut BitWriter, input: &GcInfoInput) -> (r: CompileResult<()>)
    requires
        old(w).well_formed(),
        ranges_valid(input.interruptible_ranges@),
        input.reg_live.len() == input.safepoints.len(),
        input.reg_home_end.len() == input.safepoints.len(),
        masks_suffice(*input),
    ensures
        final(w).well_formed(),
        match r {
            Ok(_) => chunks_error(*input) is None && final(w)@ == with_chunks(
                old(w)@,
                slot_transitions(*input),
                total_offsets(*input),
            ),
            Err(e) => e is Internal && chunks_error(*input) == Some(e->Internal_0) && final(w)@
                == old(w)@,
        },
{
    let total: u32 = count_offsets(&input.interruptible_ranges);
    if total == 0 {
        return Err(
            CompileError::Internal("register roots in a method with no interruptible range"),
        );
    }
    let windows: Vec<Window> = collect_windows(input)?;
    proof {
        lemma_no_windows(*input, input.safepoints@.len());
    }
    let trans: Vec<Vec<Transition>> = collect_transitions(input, &windows, total)?;
    let ghost all = slot_transitions(*input);
    proof {
        assert forall|s: int| 0 <= s < all.len() implies crate::sort::is_sorted(
            #[trigger] all[s],
        ) by {
            crate::sort::law_sort_is_a_sorted_permutation(
                events(
                    self::windows(*input, input.safepoints@.len()),
                    total_offsets(*input),
                    s as nat,
                ),
            );
        }
    }
    let mut data: BitWriter = BitWriter::new();
    let mut pointers: Vec<u128> = Vec::new();
    let mut largest: u128 = 0;
    let mut cursors: Vec<usize> = Vec::new();
    while cursors.len() < trans.len()
        invariant
            cursors.len() <= trans.len(),
            forall|s: int| 0 <= s < cursors.len() ==> #[trigger] cursors[s] == 0,
        decreases trans.len() - cursors.len(),
    {
        cursors.push(0);
    }
    proof {
        assert forall|s: int| 0 <= s < all.len() implies cursors[s] == count_before(
            #[trigger] all[s],
            0,
        ) by {
            lemma_count_before(all[s], 0);
            if count_before(all[s], 0) > 0 {
                assert(all[s][0].offset < 0);
            }
        }
    }
    let chunks: u32 = (total - 1) / 64 + 1;
    let mut chunk: u32 = 0;
    assert(data@ =~= chunk_stream(all, total as int, 0));
    while chunk < chunks
        invariant
            0 < total,
            chunk <= chunks,
            chunks == chunk_count(total as int),
            all == lists(trans@),
            all.len() == trans.len(),
            data.well_formed(),
            data@ == chunk_stream(all, total as int, chunk as nat),
            pointers.len() == chunk,
            forall|c: int|
                0 <= c < chunk ==> #[trigger] pointers[c] == chunk_pointer(
                    all,
                    total as int,
                    c as nat,
                ),
            largest == largest_pointer(all, total as int, chunk as nat),
            largest <= 8 * usize::MAX + 1,
            cursors.len() == trans.len(),
            forall|s: int| 0 <= s < all.len() ==> crate::sort::is_sorted(#[trigger] all[s]),
            chunk < chunks ==> forall|s: int|
                0 <= s < all.len() ==> cursors[s] == count_before(
                    #[trigger] all[s],
                    chunk_start(chunk as nat),
                ),
        decreases chunks - chunk,
    {
        let base: u32 = chunk * 64;
        let end: u32 = if total - base < 64 {
            total
        } else {
            base + 64
        };
        assert(end == chunk_end(total as int, chunk as nat));
        let ends: Vec<usize> = advance(&trans, &cursors, base, end);
        let mut active: bool = false;
        let mut slot: usize = 0;
        proof {
            assert forall|s: int| 0 <= s < all.len() implies cursors[s] <= ends[s] && ends[s]
                <= (#[trigger] all[s]).len() by {
                lemma_count_before(all[s], base as int);
                lemma_count_before(all[s], end as int);
                if ends[s] < cursors[s] {
                    assert(all[s][ends[s] as int].offset < base);
                }
            }
            assert(cursors_at(all, total as int, chunk as nat, cursors@, ends@));
        }
        while slot < trans.len()
            invariant
                slot <= trans.len(),
                all == lists(trans@),
                cursors_at(all, total as int, chunk as nat, cursors@, ends@),
                active == exists|s: int|
                    0 <= s < slot && has_transition(#[trigger] all[s], total as int, chunk as nat),
            decreases trans.len() - slot,
        {
            let ghost t = all[slot as int];
            if cursors[slot] < ends[slot] {
                assert(has_transition(all[slot as int], total as int, chunk as nat));
                active = true;
            }
            slot = slot + 1;
        }
        assert(active == chunk_active(all, total as int, chunk as nat));
        if active {
            let pointer: u128 = data.bit_count() + 1;
            pointers.push(pointer);
            if pointer > largest {
                largest = pointer;
            }
            write_chunk(
                &mut data,
                &trans,
                &cursors,
                &ends,
                base,
                Ghost(total as int),
                Ghost(chunk as nat),
            );
        } else {
            pointers.push(0);
        }
        cursors = ends;
        chunk = chunk + 1;
    }
    if largest == 0 {
        return Err(CompileError::Internal("register roots with no live window anywhere"));
    }
    let width: u32 = ceil_log2(
        #[verifier::truncate]
        ((largest + 1) as u32),
    );
    let ghost before = w@;
    w.write_varl_u(width, POINTER_SIZE_ENCBASE);
    let ghost sized = w@;
    let mut n: usize = 0;
    assert(w@ =~= sized + pointer_table_bits(all, total as int, width as nat, 0));
    while n < pointers.len()
        invariant
            n <= pointers.len(),
            pointers.len() == chunks,
            width <= 32,
            w.well_formed(),
            forall|c: int|
                0 <= c < chunks ==> #[trigger] pointers[c] == chunk_pointer(
                    all,
                    total as int,
                    c as nat,
                ),
            w@ == sized + pointer_table_bits(all, total as int, width as nat, n as nat),
        decreases pointers.len() - n,
    {
        let ghost start = w@;
        let pointer: u64 = #[verifier::truncate]
        (pointers[n] as u64);
        w.write(pointer, width);
        assert(start + low_bits(pointer as nat, width as nat) =~= sized + (pointer_table_bits(
            all,
            total as int,
            width as nat,
            n as nat,
        ) + low_bits(pointer as nat, width as nat)));
        n = n + 1;
    }
    assert(w@ =~= before + pointer_bits(all, total as int));
    w.pad_to_byte();
    w.append_bytes(data.finish());
    Ok(())
}

} // verus!
