//! Reading the live state of the return registers back.
//!
//! The runtime looks up the chunk of a code offset, walks back to the nearest
//! chunk with data, and undoes the transitions behind the offset. The law at the
//! end says that it finds a register live exactly inside of its windows.

use crate::bits::{
    law_low_bits_read_back, law_unpack_pack, law_varl_u_read_back, low_bits, pack, padding,
    read_bits, read_varl_u, unpack, varl_u_bits,
};
use crate::gcdecode::{lemma_parts, stands_at};
use crate::gcinfo::{
    ceil_log2_of, gc_info_bits, gc_info_error, last_stop, ranges_valid, table_bits,
    NUM_NORM_CODE_OFFSETS_PER_CHUNK_LOG2, POINTER_SIZE_ENCBASE,
};
use crate::livestate::{
    alternating, chunk_active, chunk_bits, chunk_count, chunk_end, chunk_hi, chunk_lo,
    chunk_pointer, chunk_start, chunk_stream, chunk_transition_bits, chunks_error, could_be_live,
    could_be_live_bits, count_before, covered, events, final_state_bits, has_transition,
    largest_pointer, pointer_bits, pointer_table_bits, pointer_width, pseudo_offset,
    slot_transitions, slots_error, state_after, total_offsets, transition_bits,
    transition_list_bits, transitions_error, window_error, window_events, window_has, windows,
    windows_error, with_chunks, Transition, Window,
};
use crate::metadata::GcInfoInput;
use crate::sort::{insert_by_key, is_sorted, law_sort_is_a_sorted_permutation, sort_by_key, SortKey};
use vstd::arithmetic::power2::{lemma2_to64, lemma_pow2_pos, pow2};
use vstd::prelude::*;

verus! {

/// What a transition adds to the number of open windows at `p`.
spec fn weight(t: Transition, p: int) -> int {
    if t.offset > p {
        0
    } else if t.live {
        1
    } else {
        -1
    }
}

/// The windows open at `p`, by their transitions.
spec fn balance(s: Seq<Transition>, p: int) -> int
    decreases s.len(),
{
    if s.len() == 0 {
        0
    } else {
        balance(s.drop_last(), p) + weight(s.last(), p)
    }
}

proof fn lemma_balance_insert(s: Seq<Transition>, x: Transition, p: int)
    ensures
        balance(insert_by_key(s, x), p) == balance(s, p) + weight(x, p),
    decreases s.len(),
{
    if s.len() == 0 || s.last().key() <= x.key() {
        assert(s.push(x).drop_last() =~= s);
    } else {
        let inner = insert_by_key(s.drop_last(), x);
        lemma_balance_insert(s.drop_last(), x, p);
        assert(inner.push(s.last()).drop_last() =~= inner);
    }
}

proof fn lemma_balance_sort(s: Seq<Transition>, p: int)
    ensures
        balance(sort_by_key(s), p) == balance(s, p),
    decreases s.len(),
{
    if s.len() > 0 {
        lemma_balance_sort(s.drop_last(), p);
        lemma_balance_insert(sort_by_key(s.drop_last()), s.last(), p);
    }
}

/// The window of `slot` is open at `p`.
pub open spec fn window_open(window: Window, slot: nat, p: int) -> bool {
    window_has(window, slot) && window.live_at <= p < window.dead_at
}

/// The number of windows open at `p`.
spec fn open_windows(ws: Seq<Window>, slot: nat, p: int) -> int
    decreases ws.len(),
{
    if ws.len() == 0 {
        0
    } else {
        open_windows(ws.drop_last(), slot, p) + if window_open(ws.last(), slot, p) {
            1int
        } else {
            0int
        }
    }
}

proof fn lemma_open_windows(ws: Seq<Window>, slot: nat, p: int)
    ensures
        open_windows(ws, slot, p) >= 0,
        open_windows(ws, slot, p) > 0 <==> exists|i: int|
            0 <= i < ws.len() && window_open(#[trigger] ws[i], slot, p),
    decreases ws.len(),
{
    if ws.len() > 0 {
        let front = ws.drop_last();
        lemma_open_windows(front, slot, p);
        if window_open(ws.last(), slot, p) {
            assert(window_open(ws[ws.len() - 1], slot, p));
        }
        if exists|i: int| 0 <= i < front.len() && window_open(#[trigger] front[i], slot, p) {
            let i = choose|i: int| 0 <= i < front.len() && window_open(#[trigger] front[i], slot, p);
            assert(window_open(ws[i], slot, p));
        }
        if exists|i: int| 0 <= i < ws.len() && window_open(#[trigger] ws[i], slot, p) {
            let i = choose|i: int| 0 <= i < ws.len() && window_open(#[trigger] ws[i], slot, p);
            if i < front.len() {
                assert(window_open(front[i], slot, p));
            }
        }
    }
}

/// No window ends before it begins.
pub open spec fn windows_forward(ws: Seq<Window>) -> bool {
    forall|i: int| 0 <= i < ws.len() ==> (#[trigger] ws[i]).live_at <= ws[i].dead_at
}

proof fn lemma_balance_concat(a: Seq<Transition>, b: Seq<Transition>, p: int)
    ensures
        balance(a + b, p) == balance(a, p) + balance(b, p),
    decreases b.len(),
{
    if b.len() == 0 {
        assert(a + b =~= a);
    } else {
        lemma_balance_concat(a, b.drop_last(), p);
        assert((a + b).drop_last() =~= a + b.drop_last());
    }
}

proof fn lemma_balance_events(ws: Seq<Window>, total: int, slot: nat, p: int)
    requires
        p < total,
        windows_forward(ws),
    ensures
        balance(events(ws, total, slot), p) == open_windows(ws, slot, p),
    decreases ws.len(),
{
    if ws.len() > 0 {
        let front = ws.drop_last();
        let last = ws.last();
        assert(windows_forward(front)) by {
            assert forall|i: int| 0 <= i < front.len() implies (#[trigger] front[i]).live_at
                <= front[i].dead_at by {
                assert(ws[i].live_at <= ws[i].dead_at);
            }
        }
        assert(ws[ws.len() - 1].live_at <= ws[ws.len() - 1].dead_at);
        lemma_balance_events(front, total, slot, p);
        let more = window_events(last, total, slot);
        lemma_balance_concat(events(front, total, slot), more, p);
        let begin = Transition { offset: last.live_at, live: true };
        let end = Transition { offset: last.dead_at, live: false };
        assert(seq![begin].drop_last() =~= Seq::<Transition>::empty());
        assert(seq![begin, end].drop_last() =~= seq![begin]);
        assert(balance(Seq::<Transition>::empty(), p) == 0);
        assert(balance(seq![begin], p) == weight(begin, p));
        assert(balance(seq![begin, end], p) == weight(begin, p) + weight(end, p));
    }
}

/// The transitions alternate, and the first one is live.
pub open spec fn well_paired(t: Seq<Transition>) -> bool {
    alternating(t) && (t.len() > 0 ==> t[0].live)
}

/// Offsets ascend.
pub open spec fn ascending(t: Seq<Transition>) -> bool {
    forall|i: int, j: int| 0 <= i <= j < t.len() ==> t[i].offset <= t[j].offset
}

proof fn lemma_ascending(t: Seq<Transition>)
    requires
        is_sorted(t),
    ensures
        ascending(t),
{
    assert forall|i: int, j: int| 0 <= i <= j < t.len() implies t[i].offset <= t[j].offset by {
        assert(t[i].key() <= t[j].key());
    }
}

/// The state behind `n` transitions is live for odd `n`.
proof fn lemma_parity(t: Seq<Transition>, n: nat)
    requires
        well_paired(t),
        n <= t.len(),
    ensures
        state_after(t, n) == (n % 2 == 1),
    decreases n,
{
    if n >= 2 {
        lemma_parity(t, (n - 1) as nat);
        assert(t[n - 2].live != t[n - 1].live);
    }
}

proof fn lemma_balance_of_pairs(t: Seq<Transition>, p: int)
    requires
        well_paired(t),
        forall|i: int| 0 <= i < t.len() ==> (#[trigger] t[i]).offset <= p,
    ensures
        balance(t, p) == if t.len() % 2 == 1 {
            1int
        } else {
            0int
        },
    decreases t.len(),
{
    if t.len() > 0 {
        let front = t.drop_last();
        assert(well_paired(front)) by {
            assert forall|i: int, j: int| 0 <= i && j == i + 1 && j < front.len() implies (
            #[trigger] front[i]).live != (#[trigger] front[j]).live by {
                assert(t[i].live != t[j].live);
            }
        }
        lemma_balance_of_pairs(front, p);
        lemma_parity(t, t.len());
    }
}

/// Which transitions come before an offset.
proof fn lemma_count_before(t: Seq<Transition>, offset: int)
    requires
        ascending(t),
    ensures
        count_before(t, offset) <= t.len(),
        forall|i: int| 0 <= i < t.len() ==> ((#[trigger] t[i]).offset < offset <==> i < count_before(
            t,
            offset,
        )),
    decreases t.len(),
{
    if t.len() > 0 {
        let front = t.drop_last();
        if t.last().offset < offset {
            assert forall|i: int| 0 <= i < t.len() implies (#[trigger] t[i]).offset < offset by {
                assert(t[i].offset <= t[t.len() - 1].offset);
            }
        } else {
            assert(ascending(front)) by {
                assert forall|i: int, j: int| 0 <= i <= j < front.len() implies front[i].offset
                    <= front[j].offset by {
                    assert(t[i].offset <= t[j].offset);
                }
            }
            lemma_count_before(front, offset);
            assert forall|i: int| 0 <= i < t.len() implies ((#[trigger] t[i]).offset < offset <==> i
                < count_before(t, offset)) by {
                if i < front.len() {
                    assert(front[i] == t[i]);
                }
            }
        }
    }
}

proof fn lemma_count_monotone(t: Seq<Transition>, a: int, b: int)
    requires
        ascending(t),
        a <= b,
    ensures
        count_before(t, a) <= count_before(t, b),
{
    lemma_count_before(t, a);
    lemma_count_before(t, b);
    let n = count_before(t, a);
    if n > 0 {
        assert(t[n - 1].offset < a);
    }
}

/// Transitions behind `p` do not count at `p`.
proof fn lemma_balance_prefix(t: Seq<Transition>, p: int)
    requires
        ascending(t),
    ensures
        balance(t, p) == balance(t.take(count_before(t, p + 1) as int), p),
    decreases t.len(),
{
    if t.len() == 0 || t.last().offset < p + 1 {
        assert(t.take(t.len() as int) =~= t);
    } else {
        let front = t.drop_last();
        assert(ascending(front)) by {
            assert forall|i: int, j: int| 0 <= i <= j < front.len() implies front[i].offset
                <= front[j].offset by {
                assert(t[i].offset <= t[j].offset);
            }
        }
        lemma_balance_prefix(front, p);
        lemma_count_before(front, p + 1);
        assert(front.take(count_before(front, p + 1) as int) =~= t.take(
            count_before(t, p + 1) as int,
        ));
    }
}

/// The state at an offset is live exactly where a window is open.
proof fn lemma_state_is_open(ws: Seq<Window>, total: int, slot: nat, p: int)
    requires
        p < total,
        windows_forward(ws),
        well_paired(sort_by_key(events(ws, total, slot))),
    ensures
        ({
            let t = sort_by_key(events(ws, total, slot));
            (count_before(t, p + 1) % 2 == 1) <==> exists|i: int|
                0 <= i < ws.len() && window_open(#[trigger] ws[i], slot, p)
        }),
{
    let all = events(ws, total, slot);
    let t = sort_by_key(all);
    law_sort_is_a_sorted_permutation(all);
    lemma_ascending(t);
    lemma_balance_sort(all, p);
    lemma_balance_events(ws, total, slot, p);
    lemma_open_windows(ws, slot, p);
    lemma_balance_prefix(t, p);
    lemma_count_before(t, p + 1);
    let n = count_before(t, p + 1);
    let prefix = t.take(n as int);
    assert(well_paired(prefix)) by {
        assert forall|i: int, j: int| 0 <= i && j == i + 1 && j < prefix.len() implies (
        #[trigger] prefix[i]).live != (#[trigger] prefix[j]).live by {
            assert(t[i].live != t[j].live);
        }
    }
    assert forall|i: int| 0 <= i < prefix.len() implies (#[trigger] prefix[i]).offset <= p by {
        assert(t[i].offset < p + 1);
    }
    lemma_balance_of_pairs(prefix, p);
}

/// Code offset `native` lies in the `k`th range.
pub open spec fn in_range(ranges: Seq<(u32, u32)>, k: int, native: int) -> bool {
    0 <= k < ranges.len() && ranges[k].0 <= native < ranges[k].1
}

/// A code offset of the `k`th range, counted through the ranges.
pub open spec fn counted_offset(ranges: Seq<(u32, u32)>, k: int, native: int) -> int {
    covered(ranges, k as nat) + (native - ranges[k].0)
}

proof fn lemma_covered_grows(ranges: Seq<(u32, u32)>, i: nat, j: nat)
    requires
        ranges_valid(ranges),
        i <= j <= ranges.len(),
    ensures
        0 <= covered(ranges, i) <= covered(ranges, j),
        j > 0 ==> covered(ranges, j) <= ranges[j - 1].1,
    decreases j,
{
    if j > 0 {
        assert(last_stop(ranges, j - 1) <= ranges[j - 1].0 < ranges[j - 1].1);
        if i < j {
            lemma_covered_grows(ranges, i, (j - 1) as nat);
        } else {
            lemma_covered_grows(ranges, (i - 1) as nat, (j - 1) as nat);
        }
    }
}

/// The ranges ascend.
proof fn lemma_ranges_ascend(ranges: Seq<(u32, u32)>, i: int, j: int)
    requires
        ranges_valid(ranges),
        0 <= i < j < ranges.len(),
    ensures
        ranges[i].1 <= ranges[j].0,
    decreases j - i,
{
    assert(last_stop(ranges, j) <= ranges[j].0 < ranges[j].1);
    if i < j - 1 {
        assert(last_stop(ranges, j - 1) <= ranges[j - 1].0 < ranges[j - 1].1);
        lemma_ranges_ascend(ranges, i, j - 1);
    }
}

/// The range in which a code offset was found, the end of a range included.
proof fn lemma_found(ranges: Seq<(u32, u32)>, k: nat, native: u32) -> (found: int)
    requires
        ranges_valid(ranges),
        k <= ranges.len(),
        pseudo_offset(ranges, k, native) is Some,
    ensures
        k <= found < ranges.len(),
        ranges[found].0 <= native <= ranges[found].1,
        pseudo_offset(ranges, k, native)->0 == covered(ranges, found as nat) + (native
            - ranges[found].0),
    decreases ranges.len() - k,
{
    if ranges[k as int].0 <= native <= ranges[k as int].1 {
        lemma_covered_grows(ranges, k, k + 1);
        k as int
    } else {
        lemma_found(ranges, k + 1, native)
    }
}

/// Counting through the ranges keeps the order of code offsets.
proof fn lemma_order_kept(ranges: Seq<(u32, u32)>, k: int, native: int, other: u32)
    requires
        ranges_valid(ranges),
        in_range(ranges, k, native),
        pseudo_offset(ranges, 0, other) is Some,
    ensures
        other <= native <==> pseudo_offset(ranges, 0, other)->0 <= counted_offset(
            ranges,
            k,
            native,
        ),
{
    let j = lemma_found(ranges, 0, other);
    if j < k {
        lemma_ranges_ascend(ranges, j, k);
        lemma_covered_grows(ranges, (j + 1) as nat, k as nat);
    } else if j > k {
        lemma_ranges_ascend(ranges, k, j);
        lemma_covered_grows(ranges, (k + 1) as nat, j as nat);
    }
}

proof fn lemma_windows_error(input: GcInfoInput, i: int, n: nat)
    requires
        0 <= i < n,
        windows_error(input, n) is None,
    ensures
        window_error(input, i) is None,
        windows_error(input, (n - 1) as nat) is None,
    decreases n,
{
    if i < n - 1 {
        lemma_windows_error(input, i, (n - 1) as nat);
    }
}

proof fn lemma_windows_forward(input: GcInfoInput, n: nat)
    requires
        ranges_valid(input.interruptible_ranges@),
        windows_error(input, n) is None,
    ensures
        windows_forward(windows(input, n)),
    decreases n,
{
    if n > 0 {
        lemma_windows_error(input, n - 1, n);
        lemma_windows_forward(input, (n - 1) as nat);
        let ranges = input.interruptible_ranges@;
        if input.reg_live[n - 1] != 0 {
            let a = lemma_found(ranges, 0, input.safepoints[n - 1]);
            let b = lemma_found(ranges, 0, input.reg_home_end[n - 1]);
            if a < b {
                lemma_ranges_ascend(ranges, a, b);
                lemma_covered_grows(ranges, (a + 1) as nat, b as nat);
            } else if b < a {
                lemma_ranges_ascend(ranges, b, a);
            }
        }
    }
}

/// Register slot `slot` is live at `native`: call `i` has returned with a pointer
/// in it that is not stored yet.
pub open spec fn live_after_call(input: GcInfoInput, slot: nat, native: int, i: int) -> bool {
    &&& low_bits(input.reg_live[i] as nat, 64)[slot as int]
    &&& input.safepoints[i] <= native < input.reg_home_end[i]
}

/// Register slot `slot` is live at `native`.
pub open spec fn live_at(input: GcInfoInput, slot: nat, native: int) -> bool {
    exists|i: int|
        0 <= i < input.safepoints@.len() && #[trigger] live_after_call(input, slot, native, i)
}

/// A window is open exactly where its register is live.
proof fn lemma_windows_are_calls(input: GcInfoInput, slot: nat, k: int, native: int, n: nat)
    requires
        slot < 64,
        n <= input.safepoints@.len(),
        ranges_valid(input.interruptible_ranges@),
        windows_error(input, n) is None,
        in_range(input.interruptible_ranges@, k, native),
    ensures
        ({
            let ws = windows(input, n);
            let p = counted_offset(input.interruptible_ranges@, k, native);
            (exists|i: int| 0 <= i < ws.len() && window_open(#[trigger] ws[i], slot, p)) <==> (
            exists|i: int| 0 <= i < n && #[trigger] live_after_call(input, slot, native, i))
        }),
    decreases n,
{
    let ranges = input.interruptible_ranges@;
    let p = counted_offset(ranges, k, native);
    let ws = windows(input, n);
    if n > 0 {
        let m = (n - 1) as nat;
        lemma_windows_error(input, n - 1, n);
        lemma_windows_are_calls(input, slot, k, native, m);
        let front = windows(input, m);
        if input.reg_live[n - 1] == 0 {
            lemma_zero_mask(slot);
            assert(ws == front);
            if exists|i: int| 0 <= i < n && #[trigger] live_after_call(input, slot, native, i) {
                let i = choose|i: int|
                    0 <= i < n && #[trigger] live_after_call(input, slot, native, i);
                assert(i < m);
            }
        } else {
            lemma_order_kept(ranges, k, native, input.safepoints[n - 1]);
            lemma_order_kept(ranges, k, native, input.reg_home_end[n - 1]);
            let last = ws[ws.len() - 1];
            assert(window_open(last, slot, p) <==> live_after_call(input, slot, native, n - 1));
            if exists|i: int| 0 <= i < ws.len() && window_open(#[trigger] ws[i], slot, p) {
                let i = choose|i: int| 0 <= i < ws.len() && window_open(#[trigger] ws[i], slot, p);
                if i < front.len() {
                    assert(window_open(front[i], slot, p));
                }
            }
            if exists|i: int| 0 <= i < n && #[trigger] live_after_call(input, slot, native, i) {
                let i = choose|i: int|
                    0 <= i < n && #[trigger] live_after_call(input, slot, native, i);
                if i < m {
                    assert(exists|j: int|
                        0 <= j < front.len() && window_open(#[trigger] front[j], slot, p));
                    let j = choose|j: int|
                        0 <= j < front.len() && window_open(#[trigger] front[j], slot, p);
                    assert(window_open(ws[j], slot, p));
                }
            }
        }
    }
}

/// No bit of zero is set.
proof fn lemma_zero_mask(slot: nat)
    requires
        slot < 64,
    ensures
        !low_bits(0, 64)[slot as int],
{
    lemma_pow2_pos(slot);
    vstd::arithmetic::div_mod::lemma_div_basics(pow2(slot) as int);
    assert(0int / (pow2(slot) as int) == 0) by (nonlinear_arith)
        requires pow2(slot) > 0;
}

proof fn lemma_slots_error(trans: Seq<Seq<Transition>>, slot: int, n: nat)
    requires
        0 <= slot < n,
        slots_error(trans, n) is None,
    ensures
        transitions_error(trans[slot]) is None,
    decreases n,
{
    if slot < n - 1 {
        lemma_slots_error(trans, slot, (n - 1) as nat);
    }
}

/// A register is live where an odd number of transitions lies behind.
proof fn lemma_live_is_odd(input: GcInfoInput, slot: nat, k: int, native: int)
    requires
        chunks_error(input) is None,
        ranges_valid(input.interruptible_ranges@),
        slot < input.reg_roots@.len(),
        slot < 64,
        in_range(input.interruptible_ranges@, k, native),
    ensures
        ({
            let p = counted_offset(input.interruptible_ranges@, k, native);
            let t = slot_transitions(input)[slot as int];
            &&& 0 <= p < total_offsets(input)
            &&& well_paired(t)
            &&& ascending(t)
            &&& (count_before(t, p + 1) % 2 == 1) <==> live_at(input, slot, native)
        }),
{
    let ranges = input.interruptible_ranges@;
    let p = counted_offset(ranges, k, native);
    let total = total_offsets(input);
    let n = input.safepoints@.len();
    let ws = windows(input, n);
    let trans = slot_transitions(input);
    lemma_covered_grows(ranges, k as nat, k as nat);
    lemma_covered_grows(ranges, (k + 1) as nat, ranges.len());
    lemma_slots_error(trans, slot as int, trans.len());
    lemma_windows_forward(input, n);
    law_sort_is_a_sorted_permutation(events(ws, total, slot));
    lemma_ascending(trans[slot as int]);
    lemma_state_is_open(ws, total, slot, p);
    lemma_windows_are_calls(input, slot, k, native, n);
}

/// The transitions of one slot at `at`, and where they end: a one bit before
/// each, a zero bit behind the last.
pub open spec fn read_transitions(bits: Seq<bool>, at: nat) -> (Seq<nat>, nat)
    decreases bits.len() - at,
{
    if at + 7 <= bits.len() && bits[at as int] {
        let offset = read_bits(bits, at + 1, NUM_NORM_CODE_OFFSETS_PER_CHUNK_LOG2 as nat);
        let (rest, end) = read_transitions(bits, at + 7);
        (seq![offset] + rest, end)
    } else {
        (Seq::empty(), at + 1)
    }
}

/// How many of `n` bits at `at` are set.
pub open spec fn ones(bits: Seq<bool>, at: nat, n: nat) -> nat
    decreases n,
{
    if n == 0 {
        0
    } else {
        ones(bits, at, (n - 1) as nat) + if bits[at + n - 1] {
            1nat
        } else {
            0nat
        }
    }
}

/// Where the transitions of a slot stand in a chunk at `at` with `n` slots.
pub open spec fn list_at(bits: Seq<bool>, at: nat, n: nat, slot: nat) -> nat
    decreases slot,
{
    if slot == 0 {
        at + 1 + n + ones(bits, at + 1, n)
    } else {
        let before = list_at(bits, at, n, (slot - 1) as nat);
        if bits[(at + slot) as int] {
            read_transitions(bits, before).1
        } else {
            before
        }
    }
}

/// How many of the offsets lie behind `delta`.
pub open spec fn behind(offsets: Seq<nat>, delta: nat) -> nat
    decreases offsets.len(),
{
    if offsets.len() == 0 {
        0
    } else {
        behind(offsets.drop_first(), delta) + if offsets[0] > delta {
            1nat
        } else {
            0nat
        }
    }
}

/// The state of a slot by the chunk at `at`: at `delta` in it, or at its end.
pub open spec fn read_chunk(
    bits: Seq<bool>,
    at: nat,
    n: nat,
    slot: nat,
    delta: Option<nat>,
) -> bool {
    if !bits[(at + 1 + slot) as int] {
        false
    } else {
        let last = bits[(at + 1 + n + ones(bits, at + 1, slot)) as int];
        match delta {
            None => last,
            Some(delta) => last == (behind(
                read_transitions(bits, list_at(bits, at, n, slot)).0,
                delta,
            ) % 2 == 0),
        }
    }
}

/// The nearest chunk with data, from `chunk` backwards, and its pointer.
pub open spec fn find_chunk(bits: Seq<bool>, table: nat, width: nat, chunk: nat) -> Option<
    (nat, nat),
>
    decreases chunk,
{
    let pointer = read_bits(bits, table + chunk * width, width);
    if pointer != 0 {
        Some((chunk, pointer))
    } else if chunk == 0 {
        None
    } else {
        find_chunk(bits, table, width, (chunk - 1) as nat)
    }
}

/// The state of register slot `slot` of `n` at the counted offset `p`, by the
/// chunks that start at `at`, of a method with `total` code offsets.
pub open spec fn read_live(
    bits: Seq<bool>,
    at: nat,
    total: int,
    n: nat,
    slot: nat,
    p: nat,
) -> bool {
    let (width, table) = read_varl_u(bits, at, POINTER_SIZE_ENCBASE as nat);
    let end = table + chunk_count(total) * width;
    let chunks = end + padding(end);
    match find_chunk(bits, table, width, p / 64) {
        None => false,
        Some((chunk, pointer)) => read_chunk(
            bits,
            (chunks + pointer - 1) as nat,
            n,
            slot,
            if chunk == p / 64 {
                Some(p % 64)
            } else {
                None
            },
        ),
    }
}

/// A bit of what stands somewhere.
proof fn lemma_bit(bits: Seq<bool>, at: nat, part: Seq<bool>, i: nat)
    requires
        stands_at(bits, at, part),
        i < part.len(),
    ensures
        bits[(at + i) as int] == part[i as int],
{
    assert(bits.subrange(at as int, (at + part.len()) as int)[i as int] == bits[(at + i) as int]);
}

/// Where the pieces of a sequence stand, its prefixes do.
proof fn lemma_prefix(bits: Seq<bool>, at: nat, whole: Seq<bool>, part: Seq<bool>, i: nat)
    requires
        stands_at(bits, at, whole),
        stands_at(whole, i, part),
    ensures
        stands_at(bits, at + i, part),
{
    assert(bits.subrange((at + i) as int, (at + i + part.len()) as int) =~= bits.subrange(
        at as int,
        (at + whole.len()) as int,
    ).subrange(i as int, (i + part.len()) as int));
}

/// The offsets of the transitions `lo..hi` in their chunk, without those at its
/// start.
spec fn deltas(t: Seq<Transition>, chunk: nat, lo: nat, hi: nat) -> Seq<nat>
    decreases hi - lo,
{
    if hi <= lo {
        Seq::empty()
    } else {
        let first = (t[lo as int].offset - chunk_start(chunk)) as nat;
        let rest = deltas(t, chunk, lo + 1, hi);
        if first == 0 {
            rest
        } else {
            seq![first] + rest
        }
    }
}

/// The list of transitions from its front.
proof fn lemma_list_front(t: Seq<Transition>, chunk: nat, lo: nat, hi: nat)
    requires
        lo < hi,
    ensures
        transition_list_bits(t, chunk, lo, hi) == transition_bits(
            (t[lo as int].offset - chunk_start(chunk)) as nat,
        ) + transition_list_bits(t, chunk, lo + 1, hi),
    decreases hi,
{
    let first = transition_bits((t[lo as int].offset - chunk_start(chunk)) as nat);
    if hi == lo + 1 {
        assert(transition_list_bits(t, chunk, lo, lo) =~= Seq::empty());
        assert(transition_list_bits(t, chunk, lo, hi) =~= first + transition_list_bits(
            t,
            chunk,
            hi,
            hi,
        ));
    } else {
        lemma_list_front(t, chunk, lo, (hi - 1) as nat);
        let last = transition_bits((t[hi - 1].offset - chunk_start(chunk)) as nat);
        let middle = transition_list_bits(t, chunk, lo + 1, (hi - 1) as nat);
        assert((first + middle) + last =~= first + (middle + last));
    }
}

proof fn lemma_read_transitions(
    bits: Seq<bool>,
    at: nat,
    t: Seq<Transition>,
    chunk: nat,
    lo: nat,
    hi: nat,
)
    requires
        lo <= hi <= t.len(),
        stands_at(bits, at, transition_list_bits(t, chunk, lo, hi) + seq![false]),
        forall|i: int|
            lo <= i < hi ==> chunk_start(chunk) <= (#[trigger] t[i]).offset < chunk_start(chunk)
                + 64,
    ensures
        read_transitions(bits, at) == (
            deltas(t, chunk, lo, hi),
            at + transition_list_bits(t, chunk, lo, hi).len() + 1,
        ),
    decreases hi - lo,
{
    let list = transition_list_bits(t, chunk, lo, hi);
    if lo == hi {
        assert(list =~= Seq::empty());
        assert(list + seq![false] =~= seq![false]);
        lemma_bit(bits, at, seq![false], 0);
    } else {
        lemma_list_front(t, chunk, lo, hi);
        let delta = (t[lo as int].offset - chunk_start(chunk)) as nat;
        let first = transition_bits(delta);
        let rest = transition_list_bits(t, chunk, lo + 1, hi);
        assert(list + seq![false] =~= first + (rest + seq![false]));
        lemma_parts(bits, at, first, rest + seq![false]);
        lemma_read_transitions(bits, at + first.len(), t, chunk, lo + 1, hi);
        if delta > 0 {
            assert(t[lo as int].offset < chunk_start(chunk) + 64);
            lemma_parts(bits, at, seq![true], low_bits(delta, 6));
            lemma_bit(bits, at, seq![true], 0);
            law_low_bits_read_back(delta, 6);
            lemma2_to64();
        } else {
            assert(first =~= Seq::empty());
        }
    }
}

/// The transitions behind an offset are those that are not before it.
proof fn lemma_behind(t: Seq<Transition>, chunk: nat, lo: nat, hi: nat, delta: nat)
    requires
        ascending(t),
        lo <= hi <= t.len(),
        forall|i: int| lo <= i < hi ==> chunk_start(chunk) <= (#[trigger] t[i]).offset,
    ensures
        ({
            let m = count_before(t, chunk_start(chunk) + delta + 1);
            behind(deltas(t, chunk, lo, hi), delta) == if m <= lo {
                (hi - lo) as int
            } else if m >= hi {
                0int
            } else {
                hi - m
            }
        }),
    decreases hi - lo,
{
    let m = count_before(t, chunk_start(chunk) + delta + 1);
    lemma_count_before(t, chunk_start(chunk) + delta + 1);
    if lo < hi {
        lemma_behind(t, chunk, lo + 1, hi, delta);
        let first = (t[lo as int].offset - chunk_start(chunk)) as nat;
        let rest = deltas(t, chunk, lo + 1, hi);
        assert((seq![first] + rest).drop_first() =~= rest);
        assert(t[lo as int].offset < chunk_start(chunk) + delta + 1 <==> lo < m);
    }
}

/// The transitions of a chunk lie in it.
proof fn lemma_chunk_offsets(t: Seq<Transition>, total: int, chunk: nat)
    requires
        ascending(t),
    ensures
        chunk_hi(t, total, chunk) <= t.len(),
        chunk_start(chunk) <= chunk_end(total, chunk) ==> chunk_lo(t, chunk) <= chunk_hi(
            t,
            total,
            chunk,
        ),
        forall|i: int|
            chunk_lo(t, chunk) <= i < chunk_hi(t, total, chunk) ==> chunk_start(chunk) <= (
            #[trigger] t[i]).offset < chunk_start(chunk) + 64,
{
    lemma_count_before(t, chunk_start(chunk));
    lemma_count_before(t, chunk_end(total, chunk));
    if chunk_start(chunk) <= chunk_end(total, chunk) {
        lemma_count_monotone(t, chunk_start(chunk), chunk_end(total, chunk));
    }
}

/// The final states of fewer slots come first.
proof fn lemma_final_state(trans: Seq<Seq<Transition>>, total: int, chunk: nat, slot: nat, n: nat)
    requires
        slot < n,
        could_be_live(trans[slot as int], total, chunk),
    ensures
        ({
            let at = final_state_bits(trans, total, chunk, slot).len();
            let t = trans[slot as int];
            let all = final_state_bits(trans, total, chunk, n);
            at < all.len() && all[at as int] == state_after(t, chunk_hi(t, total, chunk))
        }),
    decreases n,
{
    if slot < n - 1 {
        lemma_final_state(trans, total, chunk, slot, (n - 1) as nat);
    }
}

/// The transitions of fewer slots come first.
proof fn lemma_transitions_stand(
    trans: Seq<Seq<Transition>>,
    total: int,
    chunk: nat,
    slot: nat,
    n: nat,
)
    requires
        slot < n,
        could_be_live(trans[slot as int], total, chunk),
    ensures
        ({
            let t = trans[slot as int];
            let at = chunk_transition_bits(trans, total, chunk, slot).len();
            let list = transition_list_bits(
                t,
                chunk,
                chunk_lo(t, chunk),
                chunk_hi(t, total, chunk),
            );
            stands_at(chunk_transition_bits(trans, total, chunk, n), at, list + seq![false])
        }),
    decreases n,
{
    let all = chunk_transition_bits(trans, total, chunk, n);
    let before = chunk_transition_bits(trans, total, chunk, (n - 1) as nat);
    let t = trans[slot as int];
    let at = chunk_transition_bits(trans, total, chunk, slot).len();
    let list = transition_list_bits(t, chunk, chunk_lo(t, chunk), chunk_hi(t, total, chunk));
    let part = list + seq![false];
    if slot < n - 1 {
        lemma_transitions_stand(trans, total, chunk, slot, (n - 1) as nat);
        assert(all.subrange(at as int, (at + part.len()) as int) =~= before.subrange(
            at as int,
            (at + part.len()) as int,
        ));
    } else {
        assert(all.subrange(at as int, (at + part.len()) as int) =~= part);
    }
}

/// The data of a chunk stands at `at`, part by part.
proof fn lemma_chunk_parts(
    bits: Seq<bool>,
    at: nat,
    trans: Seq<Seq<Transition>>,
    total: int,
    chunk: nat,
)
    requires
        stands_at(bits, at, chunk_bits(trans, total, chunk)),
    ensures
        stands_at(bits, at + 1, could_be_live_bits(trans, total, chunk, trans.len())),
        stands_at(
            bits,
            at + 1 + trans.len(),
            final_state_bits(trans, total, chunk, trans.len()),
        ),
        stands_at(
            bits,
            at + 1 + trans.len() + final_state_bits(trans, total, chunk, trans.len()).len(),
            chunk_transition_bits(trans, total, chunk, trans.len()),
        ),
{
    let n = trans.len();
    let could = could_be_live_bits(trans, total, chunk, n);
    let states = final_state_bits(trans, total, chunk, n);
    let lists = chunk_transition_bits(trans, total, chunk, n);
    lemma_parts(bits, at, seq![false] + could + states, lists);
    lemma_parts(bits, at, seq![false] + could, states);
    lemma_parts(bits, at, seq![false], could);
}

proof fn lemma_ones(
    bits: Seq<bool>,
    at: nat,
    trans: Seq<Seq<Transition>>,
    total: int,
    chunk: nat,
    n: nat,
    slot: nat,
)
    requires
        stands_at(bits, at, could_be_live_bits(trans, total, chunk, n)),
        slot <= n,
    ensures
        ones(bits, at, slot) == final_state_bits(trans, total, chunk, slot).len(),
    decreases slot,
{
    if slot > 0 {
        lemma_ones(bits, at, trans, total, chunk, n, (slot - 1) as nat);
        lemma_bit(bits, at, could_be_live_bits(trans, total, chunk, n), (slot - 1) as nat);
    }
}

/// Every list of transitions is in order.
spec fn all_ascending(trans: Seq<Seq<Transition>>) -> bool {
    forall|i: int| 0 <= i < trans.len() ==> ascending(#[trigger] trans[i])
}

proof fn lemma_slot_transitions(
    bits: Seq<bool>,
    at: nat,
    trans: Seq<Seq<Transition>>,
    total: int,
    chunk: nat,
    slot: nat,
)
    requires
        stands_at(bits, at, chunk_bits(trans, total, chunk)),
        all_ascending(trans),
        chunk_start(chunk) <= chunk_end(total, chunk),
        slot < trans.len(),
        could_be_live(trans[slot as int], total, chunk),
        list_at(bits, at, trans.len(), slot) == at + 1 + trans.len() + final_state_bits(
            trans,
            total,
            chunk,
            trans.len(),
        ).len() + chunk_transition_bits(trans, total, chunk, slot).len(),
    ensures
        ({
            let t = trans[slot as int];
            let lo = chunk_lo(t, chunk);
            let hi = chunk_hi(t, total, chunk);
            read_transitions(bits, list_at(bits, at, trans.len(), slot)) == (
                deltas(t, chunk, lo, hi),
                list_at(bits, at, trans.len(), slot) + transition_list_bits(t, chunk, lo, hi).len()
                    + 1,
            )
        }),
{
    let n = trans.len();
    let t = trans[slot as int];
    let lo = chunk_lo(t, chunk);
    let hi = chunk_hi(t, total, chunk);
    lemma_chunk_parts(bits, at, trans, total, chunk);
    lemma_transitions_stand(trans, total, chunk, slot, n);
    let lists = at + 1 + n + final_state_bits(trans, total, chunk, n).len();
    lemma_prefix(
        bits,
        lists,
        chunk_transition_bits(trans, total, chunk, n),
        transition_list_bits(t, chunk, lo, hi) + seq![false],
        chunk_transition_bits(trans, total, chunk, slot).len(),
    );
    lemma_chunk_offsets(t, total, chunk);
    lemma_read_transitions(bits, list_at(bits, at, n, slot), t, chunk, lo, hi);
}

proof fn lemma_list_at(
    bits: Seq<bool>,
    at: nat,
    trans: Seq<Seq<Transition>>,
    total: int,
    chunk: nat,
    slot: nat,
)
    requires
        stands_at(bits, at, chunk_bits(trans, total, chunk)),
        all_ascending(trans),
        chunk_start(chunk) <= chunk_end(total, chunk),
        slot <= trans.len(),
    ensures
        list_at(bits, at, trans.len(), slot) == at + 1 + trans.len() + final_state_bits(
            trans,
            total,
            chunk,
            trans.len(),
        ).len() + chunk_transition_bits(trans, total, chunk, slot).len(),
    decreases slot,
{
    let n = trans.len();
    lemma_chunk_parts(bits, at, trans, total, chunk);
    let could = could_be_live_bits(trans, total, chunk, n);
    if slot == 0 {
        lemma_ones(bits, at + 1, trans, total, chunk, n, n);
    } else {
        lemma_list_at(bits, at, trans, total, chunk, (slot - 1) as nat);
        lemma_bit(bits, at + 1, could, (slot - 1) as nat);
        if could_be_live(trans[slot - 1], total, chunk) {
            lemma_slot_transitions(bits, at, trans, total, chunk, (slot - 1) as nat);
        }
    }
}

/// The data of a chunk gives the state of a slot, at an offset in the chunk or at
/// its end.
proof fn lemma_read_chunk(
    bits: Seq<bool>,
    at: nat,
    trans: Seq<Seq<Transition>>,
    total: int,
    chunk: nat,
    slot: nat,
    delta: Option<nat>,
)
    requires
        stands_at(bits, at, chunk_bits(trans, total, chunk)),
        all_ascending(trans),
        slot < trans.len(),
        well_paired(trans[slot as int]),
        chunk_start(chunk) < total,
        delta is Some ==> delta->0 < 64 && chunk_start(chunk) + delta->0 < total,
    ensures
        ({
            let t = trans[slot as int];
            read_chunk(bits, at, trans.len(), slot, delta) == match delta {
                Some(delta) => count_before(t, chunk_start(chunk) + delta + 1) % 2 == 1,
                None => chunk_hi(t, total, chunk) % 2 == 1,
            }
        }),
{
    let n = trans.len();
    let t = trans[slot as int];
    let lo = chunk_lo(t, chunk);
    let hi = chunk_hi(t, total, chunk);
    lemma_chunk_parts(bits, at, trans, total, chunk);
    lemma_bit(bits, at + 1, could_be_live_bits(trans, total, chunk, n), slot);
    lemma_chunk_offsets(t, total, chunk);
    lemma_count_before(t, chunk_start(chunk));
    lemma_parity(t, lo);
    lemma_parity(t, hi);
    if delta is Some {
        lemma_count_monotone(t, chunk_start(chunk), chunk_start(chunk) + delta->0 + 1);
        lemma_count_monotone(t, chunk_start(chunk) + delta->0 + 1, chunk_end(total, chunk));
    }
    if could_be_live(t, total, chunk) {
        lemma_ones(bits, at + 1, trans, total, chunk, n, slot);
        lemma_final_state(trans, total, chunk, slot, n);
        lemma_bit(
            bits,
            at + 1 + n,
            final_state_bits(trans, total, chunk, n),
            final_state_bits(trans, total, chunk, slot).len(),
        );
        if delta is Some {
            lemma_list_at(bits, at, trans, total, chunk, slot);
            lemma_slot_transitions(bits, at, trans, total, chunk, slot);
            lemma_behind(t, chunk, lo, hi, delta->0);
        }
    }
}

/// The nearest chunk with data, from `chunk` backwards.
spec fn last_active(trans: Seq<Seq<Transition>>, total: int, chunk: nat) -> Option<nat>
    decreases chunk,
{
    if chunk_active(trans, total, chunk) {
        Some(chunk)
    } else if chunk == 0 {
        None
    } else {
        last_active(trans, total, (chunk - 1) as nat)
    }
}

/// A chunk without data has no transition of any slot.
proof fn lemma_inactive(trans: Seq<Seq<Transition>>, total: int, chunk: nat, slot: int)
    requires
        !chunk_active(trans, total, chunk),
        0 <= slot < trans.len(),
        ascending(trans[slot]),
        chunk_start(chunk) <= chunk_end(total, chunk),
    ensures
        chunk_lo(trans[slot], chunk) == chunk_hi(trans[slot], total, chunk),
{
    assert(!has_transition(trans[slot], total, chunk));
    lemma_chunk_offsets(trans[slot], total, chunk);
}

/// Behind the nearest chunk with data, the state is that of its end.
proof fn lemma_walk_back(trans: Seq<Seq<Transition>>, total: int, chunk: nat, slot: int)
    requires
        0 <= slot < trans.len(),
        ascending(trans[slot]),
        chunk_start(chunk) < total,
    ensures
        ({
            let t = trans[slot];
            match last_active(trans, total, chunk) {
                Some(active) => active <= chunk && chunk_active(trans, total, active) && (active
                    < chunk ==> chunk_hi(t, total, active) == chunk_hi(t, total, chunk)
                    && !chunk_active(trans, total, chunk)),
                None => chunk_hi(t, total, chunk) == 0 && !chunk_active(trans, total, chunk),
            }
        }),
    decreases chunk,
{
    let t = trans[slot];
    if !chunk_active(trans, total, chunk) {
        lemma_inactive(trans, total, chunk, slot);
        if chunk == 0 {
            lemma_count_before(t, 0);
            if count_before(t, 0) > 0 {
                assert(t[0].offset < 0);
            }
        } else {
            let before = (chunk - 1) as nat;
            lemma_walk_back(trans, total, before, slot);
            assert(chunk_end(total, before) == chunk_start(chunk));
        }
    }
}

/// The numbers up to `x` fit into the bits that `ceil_log2_of` gives.
proof fn lemma_ceil_log2_covers(x: nat)
    ensures
        x <= pow2(ceil_log2_of(x)),
    decreases x,
{
    lemma2_to64();
    if x > 1 {
        let half = ((x + 1) / 2) as nat;
        lemma_ceil_log2_covers(half);
        vstd::arithmetic::power2::lemma_pow2_unfold(ceil_log2_of(x));
    }
}

proof fn lemma_largest_pointer(trans: Seq<Seq<Transition>>, total: int, chunk: nat, n: nat)
    requires
        chunk < n,
    ensures
        chunk_pointer(trans, total, chunk) <= largest_pointer(trans, total, n),
    decreases n,
{
    if chunk < n - 1 {
        lemma_largest_pointer(trans, total, chunk, (n - 1) as nat);
    }
}

proof fn lemma_pointer_table_len(trans: Seq<Seq<Transition>>, total: int, width: nat, n: nat)
    ensures
        pointer_table_bits(trans, total, width, n).len() == n * width,
    decreases n,
{
    if n > 0 {
        lemma_pointer_table_len(trans, total, width, (n - 1) as nat);
        assert((n - 1) * width + width == n * width) by (nonlinear_arith);
    } else {
        assert(0 * width == 0) by (nonlinear_arith);
    }
}

proof fn lemma_read_pointer(
    bits: Seq<bool>,
    table: nat,
    trans: Seq<Seq<Transition>>,
    total: int,
    width: nat,
    n: nat,
    chunk: nat,
)
    requires
        stands_at(bits, table, pointer_table_bits(trans, total, width, n)),
        chunk < n,
        chunk_pointer(trans, total, chunk) < pow2(width),
        chunk_pointer(trans, total, chunk) <= u32::MAX,
    ensures
        read_bits(bits, table + chunk * width, width) == chunk_pointer(trans, total, chunk),
    decreases n,
{
    let before = pointer_table_bits(trans, total, width, (n - 1) as nat);
    let pointer = chunk_pointer(trans, total, (n - 1) as nat);
    lemma_parts(bits, table, before, low_bits((pointer as u64) as nat, width));
    if chunk < n - 1 {
        lemma_read_pointer(bits, table, trans, total, width, (n - 1) as nat, chunk);
    } else {
        lemma_pointer_table_len(trans, total, width, (n - 1) as nat);
        law_low_bits_read_back(pointer, width);
        vstd::arithmetic::div_mod::lemma_small_mod(pointer, pow2(width));
    }
}

proof fn lemma_find_chunk(
    bits: Seq<bool>,
    table: nat,
    trans: Seq<Seq<Transition>>,
    total: int,
    width: nat,
    n: nat,
    chunk: nat,
)
    requires
        stands_at(bits, table, pointer_table_bits(trans, total, width, n)),
        chunk < n,
        largest_pointer(trans, total, n) < pow2(width),
        largest_pointer(trans, total, n) <= u32::MAX,
    ensures
        find_chunk(bits, table, width, chunk) == match last_active(trans, total, chunk) {
            Some(active) => Some((active, chunk_pointer(trans, total, active))),
            None => None,
        },
    decreases chunk,
{
    lemma_largest_pointer(trans, total, chunk, n);
    lemma_read_pointer(bits, table, trans, total, width, n, chunk);
    if chunk > 0 && !chunk_active(trans, total, chunk) {
        lemma_find_chunk(bits, table, trans, total, width, n, (chunk - 1) as nat);
    }
}

/// The data of a chunk stands in the chunk stream where its pointer says.
proof fn lemma_chunk_stands(trans: Seq<Seq<Transition>>, total: int, chunk: nat, n: nat)
    requires
        chunk < n,
        chunk_active(trans, total, chunk),
    ensures
        stands_at(
            chunk_stream(trans, total, n),
            chunk_stream(trans, total, chunk).len(),
            chunk_bits(trans, total, chunk),
        ),
    decreases n,
{
    let all = chunk_stream(trans, total, n);
    let before = chunk_stream(trans, total, (n - 1) as nat);
    let at = chunk_stream(trans, total, chunk).len();
    let part = chunk_bits(trans, total, chunk);
    if chunk < n - 1 {
        lemma_chunk_stands(trans, total, chunk, (n - 1) as nat);
        assert(all.subrange(at as int, (at + part.len()) as int) =~= before.subrange(
            at as int,
            (at + part.len()) as int,
        ));
    } else {
        assert(all.subrange(at as int, (at + part.len()) as int) =~= part);
    }
}

/// Where the pieces of the live state stand.
proof fn lemma_stream_stands(before: Seq<bool>, trans: Seq<Seq<Transition>>, total: int)
    ensures
        ({
            let bits = unpack(pack(with_chunks(before, trans, total)));
            let pointed = before + pointer_bits(trans, total);
            &&& stands_at(bits, before.len(), pointer_bits(trans, total))
            &&& stands_at(
                bits,
                pointed.len() + padding(pointed.len()),
                chunk_stream(trans, total, chunk_count(total)),
            )
        }),
{
    let all = with_chunks(before, trans, total);
    let bits = unpack(pack(all));
    law_unpack_pack(all);
    let pointers = pointer_bits(trans, total);
    let pointed = before + pointers;
    let stream = chunk_stream(trans, total, chunk_count(total));
    law_unpack_pack(stream);
    let at = pointed.len() + padding(pointed.len());
    assert(bits.subrange(before.len() as int, (before.len() + pointers.len()) as int)
        =~= pointers);
    assert(bits.subrange(at as int, (at + stream.len()) as int) =~= stream);
}

/// The pointer table leads to the data of the nearest chunk.
spec fn pointers_lead(
    bits: Seq<bool>,
    at: nat,
    table: nat,
    trans: Seq<Seq<Transition>>,
    total: int,
    chunk: nat,
) -> bool {
    let width = pointer_width(trans, total);
    let end = table + chunk_count(total) * width;
    &&& read_varl_u(bits, at, POINTER_SIZE_ENCBASE as nat) == (width, table)
    &&& find_chunk(bits, table, width, chunk) == match last_active(trans, total, chunk) {
        Some(active) => Some((active, chunk_pointer(trans, total, active))),
        None => None,
    }
    &&& stands_at(bits, end + padding(end), chunk_stream(trans, total, chunk_count(total)))
}

/// The state that the chunks give at an offset is live where an odd number of
/// transitions lies behind.
proof fn lemma_read_live(
    bits: Seq<bool>,
    at: nat,
    table: nat,
    trans: Seq<Seq<Transition>>,
    total: int,
    slot: nat,
    p: nat,
)
    requires
        pointers_lead(bits, at, table, trans, total, p / 64),
        all_ascending(trans),
        slot < trans.len(),
        well_paired(trans[slot as int]),
        p < total,
    ensures
        read_live(bits, at, total, trans.len(), slot, p) == (count_before(
            trans[slot as int],
            (p + 1) as int,
        ) % 2 == 1),
{
    let width = pointer_width(trans, total);
    let t = trans[slot as int];
    let end = table + chunk_count(total) * width;
    let chunk = p / 64;
    assert(chunk_start(chunk) <= p < chunk_start(chunk) + 64);
    lemma_walk_back(trans, total, chunk, slot as int);
    match last_active(trans, total, chunk) {
        Some(active) => {
            let delta = if active == chunk {
                Some(p % 64)
            } else {
                None
            };
            lemma_read_pointed_chunk(bits, end + padding(end), trans, total, active, slot, delta);
            let found = Some((active, chunk_pointer(trans, total, active)));
            lemma_read_live_found(bits, at, total, trans.len(), slot, p, table, width, found);
        },
        None => {
            lemma_read_live_found(bits, at, total, trans.len(), slot, p, table, width, None);
        },
    }
    if last_active(trans, total, chunk) != Some(chunk) {
        lemma_inactive(trans, total, chunk, slot as int);
        lemma_count_monotone(t, chunk_start(chunk), (p + 1) as int);
        lemma_count_monotone(t, (p + 1) as int, chunk_end(total, chunk));
    }
}

/// The state by the chunk that was found.
proof fn lemma_read_live_found(
    bits: Seq<bool>,
    at: nat,
    total: int,
    n: nat,
    slot: nat,
    p: nat,
    table: nat,
    width: nat,
    found: Option<(nat, nat)>,
)
    requires
        read_varl_u(bits, at, POINTER_SIZE_ENCBASE as nat) == (width, table),
        find_chunk(bits, table, width, p / 64) == found,
    ensures
        read_live(bits, at, total, n, slot, p) == match found {
            None => false,
            Some((chunk, pointer)) => {
                let end = table + chunk_count(total) * width;
                read_chunk(
                    bits,
                    (end + padding(end) + pointer - 1) as nat,
                    n,
                    slot,
                    if chunk == p / 64 {
                        Some(p % 64)
                    } else {
                        None
                    },
                )
            },
        },
{
}

proof fn lemma_pointers_lead(
    bits: Seq<bool>,
    at: nat,
    trans: Seq<Seq<Transition>>,
    total: int,
    chunk: nat,
)
    requires
        stands_at(bits, at, pointer_bits(trans, total)),
        ({
            let end = at + pointer_bits(trans, total).len();
            stands_at(bits, end + padding(end), chunk_stream(trans, total, chunk_count(total)))
        }),
        chunk < chunk_count(total),
        largest_pointer(trans, total, chunk_count(total)) < u32::MAX,
    ensures
        pointers_lead(
            bits,
            at,
            at + varl_u_bits(pointer_width(trans, total), POINTER_SIZE_ENCBASE as nat).len(),
            trans,
            total,
            chunk,
        ),
{
    let count = chunk_count(total);
    let width = pointer_width(trans, total);
    let size = varl_u_bits(width, POINTER_SIZE_ENCBASE as nat);
    let pointers = pointer_table_bits(trans, total, width, count);
    lemma_parts(bits, at, size, pointers);
    law_varl_u_read_back(bits, at, width, POINTER_SIZE_ENCBASE as nat);
    lemma_pointer_table_len(trans, total, width, count);
    lemma_ceil_log2_covers(largest_pointer(trans, total, count) + 1);
    lemma_find_chunk(bits, at + size.len(), trans, total, width, count, chunk);
}

/// The data that the pointer of a chunk leads to gives the state of a slot.
proof fn lemma_read_pointed_chunk(
    bits: Seq<bool>,
    chunks: nat,
    trans: Seq<Seq<Transition>>,
    total: int,
    chunk: nat,
    slot: nat,
    delta: Option<nat>,
)
    requires
        stands_at(bits, chunks, chunk_stream(trans, total, chunk_count(total))),
        all_ascending(trans),
        slot < trans.len(),
        well_paired(trans[slot as int]),
        total > 0,
        chunk < chunk_count(total),
        chunk_active(trans, total, chunk),
        delta is Some ==> delta->0 < 64 && chunk_start(chunk) + delta->0 < total,
    ensures
        ({
            let t = trans[slot as int];
            let at = (chunks + chunk_pointer(trans, total, chunk) - 1) as nat;
            read_chunk(bits, at, trans.len(), slot, delta) == match delta {
                Some(delta) => count_before(t, chunk_start(chunk) + delta + 1) % 2 == 1,
                None => chunk_hi(t, total, chunk) % 2 == 1,
            }
        }),
{
    lemma_chunk_stands(trans, total, chunk, chunk_count(total));
    let here = chunk_stream(trans, total, chunk).len();
    lemma_prefix(
        bits,
        chunks,
        chunk_stream(trans, total, chunk_count(total)),
        chunk_bits(trans, total, chunk),
        here,
    );
    lemma_read_chunk(bits, chunks + here, trans, total, chunk, slot, delta);
}

/// The live state reads back: a register is reported live at a code offset exactly
/// where a call has returned with a pointer in it that is not in its frame slot
/// yet. `native` is a code offset of the `k`th interruptible range.
pub proof fn law_registers_are_live_in_their_windows(
    input: GcInfoInput,
    slot: nat,
    k: int,
    native: int,
)
    requires
        gc_info_error(input) is None,
        slot < input.reg_roots@.len() <= 32,
        in_range(input.interruptible_ranges@, k, native),
        largest_pointer(
            slot_transitions(input),
            total_offsets(input),
            chunk_count(total_offsets(input)),
        ) < u32::MAX,
    ensures
        read_live(
            unpack(pack(gc_info_bits(input))),
            table_bits(input).len(),
            total_offsets(input),
            input.reg_roots@.len(),
            slot,
            counted_offset(input.interruptible_ranges@, k, native) as nat,
        ) == live_at(input, slot, native),
{
    let trans = slot_transitions(input);
    lemma_live_is_odd(input, slot, k, native);
    assert(all_ascending(trans)) by {
        assert forall|i: int| 0 <= i < trans.len() implies ascending(#[trigger] trans[i]) by {
            lemma_live_is_odd(input, i as nat, k, native);
        }
    }
    let bits = unpack(pack(gc_info_bits(input)));
    let table = table_bits(input);
    let total = total_offsets(input);
    let p = counted_offset(input.interruptible_ranges@, k, native) as nat;
    lemma_stream_stands(table, trans, total);
    lemma_pointers_lead(bits, table.len(), trans, total, p / 64);
    let pointers = table.len() + varl_u_bits(
        pointer_width(trans, total),
        POINTER_SIZE_ENCBASE as nat,
    ).len();
    lemma_read_live(bits, table.len(), pointers, trans, total, slot, p);
}

} // verus!
