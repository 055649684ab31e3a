//! The GC-info encoder: what the garbage collector reads of a method, as a bit
//! stream ([`crate::bits`]).
//!
//! The stream holds, in order,
//!
//! - the header: one bit that tells the slim form from the fat one, the code
//!   length, and the safepoints or the interruptible ranges. The slim form
//!   serves a method that has neither interruptible ranges nor a reported
//!   generics context. The frame is always based on `rbp`, whose normalized
//!   number is 0;
//! - the slot table: the counts of register slots and of untracked stack slots,
//!   then the register entries, then the stack entries. An entry whose
//!   predecessor has no flag set is written as a difference;
//! - the live state of the register slots: a bitmap per safepoint, or, in a
//!   method that can be interrupted anywhere, lifetime transitions by chunks of
//!   the code.

use crate::bits::{low_bits, pack, varl_s_bits, varl_u_bits, BitWriter};
use crate::error::{CompileError, CompileResult};
use crate::livestate::{
    chunks_error, encode_tracked_chunks, masks_suffice, slot_transitions, total_offsets,
    with_chunks,
};
use crate::metadata::{GcInfoInput, GcReturnReg, GcRootSlot, GenericsContext, GenericsContextGcInfo};
use crate::sort::{sort_by_key, sorted, SortKey};
use vstd::arithmetic::power2::pow2;
use vstd::prelude::*;

verus! {

// Group widths of the variable-length fields.
pub const NUM_REGISTERS_ENCBASE: u32 = 2;

pub const REGISTER_ENCBASE: u32 = 3;

pub const REGISTER_DELTA_ENCBASE: u32 = 2;

pub const CODE_LENGTH_ENCBASE: u32 = 8;

pub const NUM_SAFE_POINTS_ENCBASE: u32 = 2;

pub const NUM_STACK_SLOTS_ENCBASE: u32 = 2;

pub const NUM_UNTRACKED_SLOTS_ENCBASE: u32 = 1;

pub const STACK_SLOT_ENCBASE: u32 = 6;

pub const STACK_SLOT_DELTA_ENCBASE: u32 = 4;

pub const STACK_BASE_REGISTER_ENCBASE: u32 = 3;

pub const SIZE_OF_STACK_AREA_ENCBASE: u32 = 3;

pub const NUM_INTERRUPTIBLE_RANGES_ENCBASE: u32 = 1;

pub const INTERRUPTIBLE_RANGE_DELTA1_ENCBASE: u32 = 6;

pub const INTERRUPTIBLE_RANGE_DELTA2_ENCBASE: u32 = 6;

pub const POINTER_SIZE_ENCBASE: u32 = 3;

pub const NORM_PROLOG_SIZE_ENCBASE: u32 = 5;

pub const GENERICS_INST_CONTEXT_STACK_SLOT_ENCBASE: u32 = 6;

/// The base of a stack slot that is addressed from the frame register.
pub const GC_FRAMEREG_REL: u64 = 2;

/// One chunk covers this many code offsets.
pub const NUM_NORM_CODE_OFFSETS_PER_CHUNK: u32 = 64;

/// The width of an offset within a chunk.
pub const NUM_NORM_CODE_OFFSETS_PER_CHUNK_LOG2: u32 = 6;

/// Fat-header flag: the method has a stack base register.
pub const HAS_STACK_BASE_REGISTER: u64 = 0x40;

/// Fat-header flag: only the leaf frame of the method and its funclets reports.
pub const WANTS_REPORT_ONLY_LEAF: u64 = 0x80;

/// The method can be interrupted at any instruction of its ranges.
pub open spec fn fully_interruptible(input: GcInfoInput) -> bool {
    input.interruptible_ranges.len() > 0
}

/// The method takes the fat header.
pub open spec fn fat_header(input: GcInfoInput) -> bool {
    fully_interruptible(input) || input.generics_context is Some
}

pub open spec fn context_param_type(kind: GenericsContext) -> nat {
    match kind {
        GenericsContext::MethodTable => 0x10,
        GenericsContext::MethodDesc => 0x20,
        GenericsContext::This => 0x30,
    }
}

/// The flag word of the fat header.
pub open spec fn fat_flags(input: GcInfoInput) -> nat {
    0x40 + (if fully_interruptible(input) && input.has_funclets {
        0x80nat
    } else {
        0nat
    }) + (match input.generics_context {
        Some(ctx) => context_param_type(ctx.kind),
        None => 0nat,
    })
}

/// Numbers in fields of one width.
pub open spec fn fixed_width_bits(values: Seq<u32>, width: nat) -> Seq<bool>
    decreases values.len(),
{
    if values.len() == 0 {
        Seq::empty()
    } else {
        fixed_width_bits(values.drop_last(), width) + low_bits(values.last() as nat, width)
    }
}

/// Where the `i`th range counts from: the end of the range before it.
pub open spec fn last_stop(ranges: Seq<(u32, u32)>, i: int) -> u32 {
    if i <= 0 {
        0
    } else {
        ranges[i - 1].1
    }
}

/// The ranges ascend, are disjoint, and none is empty.
pub open spec fn ranges_valid(ranges: Seq<(u32, u32)>) -> bool {
    forall|i: int|
        0 <= i < ranges.len() ==> last_stop(ranges, i) <= #[trigger] ranges[i].0 < ranges[i].1
}

/// The interruptible ranges: each the distance from the one before it, and its
/// length less one.
pub open spec fn range_bits(ranges: Seq<(u32, u32)>) -> Seq<bool>
    decreases ranges.len(),
{
    if ranges.len() == 0 {
        Seq::empty()
    } else {
        let (start, end) = ranges.last();
        let stop = last_stop(ranges, ranges.len() - 1);
        range_bits(ranges.drop_last()) + varl_u_bits(
            (start - stop) as nat,
            INTERRUPTIBLE_RANGE_DELTA1_ENCBASE as nat,
        ) + varl_u_bits((end - start - 1) as nat, INTERRUPTIBLE_RANGE_DELTA2_ENCBASE as nat)
    }
}

/// The generics context: where the prolog ends, and the slot.
pub open spec fn context_bits(context: Option<GenericsContextGcInfo>) -> Seq<bool> {
    match context {
        Some(ctx) => varl_u_bits((ctx.prolog_end - 1) as nat, NORM_PROLOG_SIZE_ENCBASE as nat)
            + varl_s_bits(
            ctx.slot_offset as int / 8,
            GENERICS_INST_CONTEXT_STACK_SLOT_ENCBASE as nat,
        ),
        None => Seq::empty(),
    }
}

/// `k` is the smallest exponent with `x <= 2^k`.
pub open spec fn is_ceil_log2(x: nat, k: nat) -> bool {
    x <= pow2(k) && (k > 0 ==> pow2((k - 1) as nat) < x)
}

/// The smallest exponent whose power of two is not below `x`.
pub open spec fn ceil_log2_of(x: nat) -> nat
    decreases x,
{
    if x <= 1 {
        0
    } else {
        1 + ceil_log2_of(((x + 1) / 2) as nat)
    }
}

/// The safepoint offsets, ascending, each as wide as the code length asks.
pub open spec fn safepoint_bits(input: GcInfoInput) -> Seq<bool> {
    fixed_width_bits(sort_by_key(input.safepoints@), ceil_log2_of(input.code_len as nat))
}

/// The number of safepoints that are listed.
pub open spec fn safepoint_count_bits(count: usize) -> Seq<bool> {
    varl_u_bits((count as u32) as nat, NUM_SAFE_POINTS_ENCBASE as nat)
}

/// The fat header behind the generics context: the stack base register, the
/// outgoing argument area, and what tells where the method may be interrupted.
pub open spec fn fat_end_bits(input: GcInfoInput) -> Seq<bool> {
    varl_u_bits(0, STACK_BASE_REGISTER_ENCBASE as nat) + varl_u_bits(
        input.outgoing_area_size as nat / 8,
        SIZE_OF_STACK_AREA_ENCBASE as nat,
    ) + (if fully_interruptible(input) {
        safepoint_count_bits(0)
    } else {
        safepoint_count_bits(input.safepoints.len())
    }) + varl_u_bits(
        (input.interruptible_ranges.len() as u32) as nat,
        NUM_INTERRUPTIBLE_RANGES_ENCBASE as nat,
    ) + (if fully_interruptible(input) {
        range_bits(input.interruptible_ranges@)
    } else {
        safepoint_bits(input)
    })
}

pub open spec fn header_bits(input: GcInfoInput) -> Seq<bool> {
    let code_length = varl_u_bits(input.code_len as nat, CODE_LENGTH_ENCBASE as nat);
    if fat_header(input) {
        seq![true] + low_bits(fat_flags(input), 10) + code_length + context_bits(
            input.generics_context,
        ) + fat_end_bits(input)
    } else {
        seq![false, true] + code_length + safepoint_count_bits(input.safepoints.len())
            + safepoint_bits(input)
    }
}

/// The counts of the slot table: register slots, then untracked stack slots.
pub open spec fn slot_count_bits(input: GcInfoInput) -> Seq<bool> {
    (if input.reg_roots.len() == 0 {
        seq![false]
    } else {
        seq![true] + varl_u_bits(
            (input.reg_roots.len() as u32) as nat,
            NUM_REGISTERS_ENCBASE as nat,
        )
    }) + (if input.gc_roots.len() == 0 {
        seq![false]
    } else {
        seq![true] + varl_u_bits(0, NUM_STACK_SLOTS_ENCBASE as nat) + varl_u_bits(
            (input.gc_roots.len() as u32) as nat,
            NUM_UNTRACKED_SLOTS_ENCBASE as nat,
        )
    })
}

pub open spec fn interior_flag(root: GcReturnReg) -> nat {
    if root.interior {
        1
    } else {
        0
    }
}

/// One register entry.
pub open spec fn register_entry_bits(roots: Seq<GcReturnReg>, i: int) -> Seq<bool> {
    if i == 0 || roots[i - 1].interior {
        varl_u_bits(roots[i].reg as nat, REGISTER_ENCBASE as nat) + low_bits(
            interior_flag(roots[i]),
            2,
        )
    } else {
        varl_u_bits((roots[i].reg - roots[i - 1].reg - 1) as nat, REGISTER_DELTA_ENCBASE as nat)
    }
}

/// The first `n` register entries.
pub open spec fn register_entries_bits(roots: Seq<GcReturnReg>, n: nat) -> Seq<bool>
    decreases n,
{
    if n == 0 {
        Seq::empty()
    } else {
        register_entries_bits(roots, (n - 1) as nat) + register_entry_bits(roots, n - 1)
    }
}

/// Flagged registers come first, and numbers ascend among registers of a kind.
pub open spec fn registers_canonical(roots: Seq<GcReturnReg>) -> bool {
    forall|i: int, j: int|
        0 <= i && j == i + 1 && j < roots.len() ==> register_pair_canonical(
            #[trigger] roots[i],
            #[trigger] roots[j],
        )
}

pub open spec fn register_pair_canonical(a: GcReturnReg, b: GcReturnReg) -> bool {
    if a.interior == b.interior {
        a.reg < b.reg
    } else {
        a.interior
    }
}

/// The slot's address relative to the frame register, in words.
pub open spec fn normalized_slot(root: GcRootSlot) -> int {
    -(root.offset as int / 8)
}

/// One untracked stack entry.
pub open spec fn stack_entry_bits(roots: Seq<GcRootSlot>, i: int) -> Seq<bool> {
    low_bits(GC_FRAMEREG_REL as nat, 2) + (if i == 0 || roots[i - 1].flag_bits() != 0 {
        varl_s_bits(normalized_slot(roots[i]), STACK_SLOT_ENCBASE as nat) + low_bits(
            roots[i].flag_bits(),
            2,
        )
    } else {
        varl_u_bits(
            (normalized_slot(roots[i]) - normalized_slot(roots[i - 1])) as nat,
            STACK_SLOT_DELTA_ENCBASE as nat,
        )
    })
}

/// The first `n` untracked stack entries.
pub open spec fn stack_entries_bits(roots: Seq<GcRootSlot>, n: nat) -> Seq<bool>
    decreases n,
{
    if n == 0 {
        Seq::empty()
    } else {
        stack_entries_bits(roots, (n - 1) as nat) + stack_entry_bits(roots, n - 1)
    }
}

/// The header and the slot table.
pub open spec fn table_bits(input: GcInfoInput) -> Seq<bool> {
    header_bits(input) + slot_count_bits(input) + register_entries_bits(
        input.reg_roots@,
        input.reg_roots@.len(),
    ) + stack_entries_bits(sort_by_key(input.gc_roots@), input.gc_roots@.len())
}

/// What is wrong with a method's header or slot table, the first thing first.
pub open spec fn table_error(input: GcInfoInput) -> Option<&'static str> {
    match header_error(input) {
        Some(e) => Some(e),
        None => match registers_error(input) {
            Some(e) => Some(e),
            None => if exists|i: int|
                0 <= i < input.gc_roots.len() && #[trigger] input.gc_roots[i].offset % 8 != 0 {
                Some("GC-root slot not 8-aligned")
            } else {
                None
            },
        },
    }
}

pub open spec fn context_error(input: GcInfoInput) -> Option<&'static str> {
    match input.generics_context {
        Some(ctx) => if ctx.prolog_end == 0 || ctx.prolog_end >= input.code_len {
            Some("generics-context prolog end outside the method body")
        } else if ctx.slot_offset as int % 8 != 0 {
            Some("generics-context slot not 8-aligned")
        } else {
            None
        },
        None => None,
    }
}

pub open spec fn header_error(input: GcInfoInput) -> Option<&'static str> {
    if !fat_header(input) {
        None
    } else {
        match context_error(input) {
            Some(e) => Some(e),
            None => if input.outgoing_area_size % 8 != 0 {
                Some("outgoing argument area not 8-aligned")
            } else if !ranges_valid(input.interruptible_ranges@) {
                Some("interruptible ranges not sorted, disjoint, and non-empty")
            } else {
                None
            },
        }
    }
}

pub open spec fn registers_error(input: GcInfoInput) -> Option<&'static str> {
    if input.reg_roots.len() == 0 {
        None
    } else if input.safepoints.len() == 0 {
        Some("register roots without safepoints (a return register is live at a call site)")
    } else if input.reg_live.len() != input.safepoints.len() || input.reg_home_end.len()
        != input.safepoints.len() {
        Some("register live masks and home ends must parallel the safepoints")
    } else if !registers_canonical(input.reg_roots@) {
        Some("register roots not in canonical (flagged-first, ascending) order")
    } else {
        None
    }
}

/// The 2-bit context kind, in its place in the flag word.
pub fn context_param_type_bits(kind: GenericsContext) -> (bits: u64)
    ensures
        bits == context_param_type(kind),
{
    match kind {
        GenericsContext::MethodTable => 0x10,
        GenericsContext::MethodDesc => 0x20,
        GenericsContext::This => 0x30,
    }
}

/// The smallest `k` with `2^k >= x` (0 for `x <= 1`).
pub fn ceil_log2(x: u32) -> (k: u32)
    ensures
        k == ceil_log2_of(x as nat),
        is_ceil_log2(x as nat, k as nat),
        k <= 32,
{
    let mut k: u32 = 0;
    let mut power: u64 = 1;
    proof {
        vstd::arithmetic::power2::lemma2_to64();
    }
    while power < x as u64
        invariant
            k <= 32,
            power == pow2(k as nat),
            k > 0 ==> pow2((k - 1) as nat) < x,
        decreases 32 - k,
    {
        proof {
            if k >= 32 {
                vstd::arithmetic::power2::lemma2_to64();
                assert(false);
            }
            vstd::arithmetic::power2::lemma_pow2_unfold((k + 1) as nat);
        }
        k = k + 1;
        power = power * 2;
    }
    proof {
        lemma_ceil_log2_unique(x as nat, k as nat);
    }
    k
}

proof fn lemma_ceil_log2_unique(x: nat, k: nat)
    requires
        is_ceil_log2(x, k),
    ensures
        k == ceil_log2_of(x),
    decreases x,
{
    vstd::arithmetic::power2::lemma2_to64();
    if x <= 1 {
        if k > 0 {
            vstd::arithmetic::power2::lemma_pow2_pos((k - 1) as nat);
        }
    } else {
        let half = ((x + 1) / 2) as nat;
        assert(k > 0);
        let j = (k - 1) as nat;
        vstd::arithmetic::power2::lemma_pow2_unfold(k);
        if j > 0 {
            vstd::arithmetic::power2::lemma_pow2_unfold(j);
        }
        lemma_ceil_log2_unique(half, j);
    }
}

/// Division of a signed offset by 8, rounding down.
fn eighth(x: i32) -> (r: (i32, i32))
    ensures
        r.0 == x as int / 8,
        r.1 == x as int % 8,
{
    let q: i32 = x >> 3;
    let r: i32 = x & 7;
    assert(0 <= (x & 7) < 8 && x == 8 * (x >> 3) + (x & 7)) by (bit_vector);
    (q, r)
}

fn write_fixed_width(w: &mut BitWriter, values: &Vec<u32>, width: u32)
    requires
        old(w).well_formed(),
        width <= 64,
    ensures
        final(w).well_formed(),
        final(w)@ == old(w)@ + fixed_width_bits(values@, width as nat),
{
    let ghost before = w@;
    let mut n: usize = 0;
    assert(w@ =~= before + fixed_width_bits(values@.take(0), width as nat));
    while n < values.len()
        invariant
            n <= values.len(),
            width <= 64,
            w.well_formed(),
            w@ == before + fixed_width_bits(values@.take(n as int), width as nat),
        decreases values.len() - n,
    {
        w.write(values[n] as u64, width);
        assert(values@.take(n + 1).drop_last() =~= values@.take(n as int));
        n = n + 1;
        assert(w@ =~= before + fixed_width_bits(values@.take(n as int), width as nat));
    }
    assert(values@.take(n as int) =~= values@);
}

/// The ranges, up to the first that is out of order or empty.
fn write_ranges(w: &mut BitWriter, ranges: &Vec<(u32, u32)>) -> (ok: bool)
    requires
        old(w).well_formed(),
    ensures
        final(w).well_formed(),
        ok == ranges_valid(ranges@),
        ok ==> final(w)@ == old(w)@ + range_bits(ranges@),
{
    let ghost before = w@;
    let mut n: usize = 0;
    let mut stop: u32 = 0;
    assert(w@ =~= before + range_bits(ranges@.take(0)));
    while n < ranges.len()
        invariant
            n <= ranges.len(),
            w.well_formed(),
            stop == last_stop(ranges@, n as int),
            forall|i: int|
                0 <= i < n ==> last_stop(ranges@, i) <= #[trigger] ranges[i].0 < ranges[i].1,
            w@ == before + range_bits(ranges@.take(n as int)),
        decreases ranges.len() - n,
    {
        let (start, end) = ranges[n];
        if start < stop || end <= start {
            assert(!(last_stop(ranges@, n as int) <= ranges@[n as int].0 < ranges@[n as int].1));
            return false;
        }
        w.write_varl_u(start - stop, INTERRUPTIBLE_RANGE_DELTA1_ENCBASE);
        w.write_varl_u(end - start - 1, INTERRUPTIBLE_RANGE_DELTA2_ENCBASE);
        stop = end;
        proof {
            let longer = ranges@.take(n + 1);
            assert(longer.drop_last() =~= ranges@.take(n as int));
            assert(last_stop(longer, n as int) == last_stop(ranges@, n as int));
        }
        n = n + 1;
        assert(w@ =~= before + range_bits(ranges@.take(n as int)));
    }
    assert(ranges@.take(n as int) =~= ranges@);
    true
}

/// The generics context, where there is one.
fn write_context(w: &mut BitWriter, input: &GcInfoInput) -> (r: CompileResult<()>)
    requires
        old(w).well_formed(),
    ensures
        final(w).well_formed(),
        match r {
            Ok(_) => context_error(*input) is None && final(w)@ == old(w)@ + context_bits(
                input.generics_context,
            ),
            Err(e) => e is Internal && context_error(*input) == Some(e->Internal_0),
        },
{
    let ghost before = w@;
    match input.generics_context {
        Some(ctx) => {
            if ctx.prolog_end == 0 || ctx.prolog_end >= input.code_len {
                return Err(
                    CompileError::Internal("generics-context prolog end outside the method body"),
                );
            }
            w.write_varl_u(ctx.prolog_end - 1, NORM_PROLOG_SIZE_ENCBASE);
            let (words, rest) = eighth(ctx.slot_offset);
            if rest != 0 {
                return Err(CompileError::Internal("generics-context slot not 8-aligned"));
            }
            w.write_varl_s(words as i64, GENERICS_INST_CONTEXT_STACK_SLOT_ENCBASE);
        },
        None => {},
    }
    assert(w@ =~= before + context_bits(input.generics_context));
    Ok(())
}

proof fn lemma_assoc(a: Seq<bool>, b: Seq<bool>, c: Seq<bool>)
    ensures
        (a + b) + c == a + (b + c),
{
    assert((a + b) + c =~= a + (b + c));
}

/// The fat header up to the generics context.
fn write_fat_start(w: &mut BitWriter, input: &GcInfoInput) -> (r: CompileResult<()>)
    requires
        old(w).well_formed(),
    ensures
        final(w).well_formed(),
        match r {
            Ok(_) => context_error(*input) is None && final(w)@ == old(w)@ + (seq![true] + low_bits(
                fat_flags(*input),
                10,
            ) + varl_u_bits(input.code_len as nat, CODE_LENGTH_ENCBASE as nat) + context_bits(
                input.generics_context,
            )),
            Err(e) => e is Internal && context_error(*input) == Some(e->Internal_0),
        },
{
    let ghost before = w@;
    let mut flags: u64 = HAS_STACK_BASE_REGISTER;
    if input.interruptible_ranges.len() > 0 && input.has_funclets {
        flags = flags + WANTS_REPORT_ONLY_LEAF;
    }
    if let Some(ctx) = input.generics_context {
        flags = flags + context_param_type_bits(ctx.kind);
    }
    w.write_bit(true);
    w.write(flags, 10);
    w.write_varl_u(input.code_len, CODE_LENGTH_ENCBASE);
    write_context(w, input)?;
    proof {
        let start = seq![true];
        let word = low_bits(fat_flags(*input), 10);
        let length = varl_u_bits(input.code_len as nat, CODE_LENGTH_ENCBASE as nat);
        assert(before.push(true) =~= before + start);
        lemma_assoc(before, start, word);
        lemma_assoc(before, start + word, length);
        lemma_assoc(before, start + word + length, context_bits(input.generics_context));
    }
    Ok(())
}

/// The fat header behind the generics context.
fn write_fat_end(w: &mut BitWriter, input: &GcInfoInput) -> (r: CompileResult<()>)
    requires
        old(w).well_formed(),
        fat_header(*input),
        context_error(*input) is None,
    ensures
        final(w).well_formed(),
        match r {
            Ok(_) => header_error(*input) is None && final(w)@ == old(w)@ + fat_end_bits(*input),
            Err(e) => e is Internal && header_error(*input) == Some(e->Internal_0),
        },
{
    let ghost before = w@;
    let fully: bool = input.interruptible_ranges.len() > 0;
    w.write_varl_u(0, STACK_BASE_REGISTER_ENCBASE);
    if input.outgoing_area_size % 8 != 0 {
        return Err(CompileError::Internal("outgoing argument area not 8-aligned"));
    }
    w.write_varl_u(input.outgoing_area_size / 8, SIZE_OF_STACK_AREA_ENCBASE);
    let listed: u32 = if fully {
        0
    } else {
        #[verifier::truncate]
        (input.safepoints.len() as u32)
    };
    w.write_varl_u(listed, NUM_SAFE_POINTS_ENCBASE);
    w.write_varl_u(
        #[verifier::truncate]
        (input.interruptible_ranges.len() as u32),
        NUM_INTERRUPTIBLE_RANGES_ENCBASE,
    );
    let ghost counted = w@;
    if fully {
        if !write_ranges(w, &input.interruptible_ranges) {
            return Err(
                CompileError::Internal("interruptible ranges not sorted, disjoint, and non-empty"),
            );
        }
    } else {
        write_fixed_width(w, &sorted(&input.safepoints), ceil_log2(input.code_len));
    }
    proof {
        let base = varl_u_bits(0, STACK_BASE_REGISTER_ENCBASE as nat);
        let area = varl_u_bits(
            input.outgoing_area_size as nat / 8,
            SIZE_OF_STACK_AREA_ENCBASE as nat,
        );
        let points = if fully_interruptible(*input) {
            safepoint_count_bits(0)
        } else {
            safepoint_count_bits(input.safepoints.len())
        };
        let ranges = varl_u_bits(
            (input.interruptible_ranges.len() as u32) as nat,
            NUM_INTERRUPTIBLE_RANGES_ENCBASE as nat,
        );
        let list = if fully_interruptible(*input) {
            range_bits(input.interruptible_ranges@)
        } else {
            safepoint_bits(*input)
        };
        lemma_assoc(before, base, area);
        lemma_assoc(before, base + area, points);
        lemma_assoc(before, base + area + points, ranges);
        lemma_assoc(before, base + area + points + ranges, list);
        assert(counted == before + (base + area + points + ranges));
        assert(w@ == counted + list);
    }
    Ok(())
}

/// The header.
fn write_header(w: &mut BitWriter, input: &GcInfoInput) -> (r: CompileResult<()>)
    requires
        old(w).well_formed(),
    ensures
        final(w).well_formed(),
        match r {
            Ok(_) => header_error(*input) is None && final(w)@ == old(w)@ + header_bits(*input),
            Err(e) => e is Internal && header_error(*input) == Some(e->Internal_0),
        },
{
    let ghost before = w@;
    if input.interruptible_ranges.len() > 0 || input.generics_context.is_some() {
        write_fat_start(w, input)?;
        let ghost started = w@;
        write_fat_end(w, input)?;
        proof {
            let start = seq![true] + low_bits(fat_flags(*input), 10) + varl_u_bits(
                input.code_len as nat,
                CODE_LENGTH_ENCBASE as nat,
            ) + context_bits(input.generics_context);
            lemma_assoc(before, start, fat_end_bits(*input));
        }
    } else {
        w.write_bit(false);
        w.write_bit(true);
        w.write_varl_u(input.code_len, CODE_LENGTH_ENCBASE);
        w.write_varl_u(
            #[verifier::truncate]
            (input.safepoints.len() as u32),
            NUM_SAFE_POINTS_ENCBASE,
        );
        write_fixed_width(w, &sorted(&input.safepoints), ceil_log2(input.code_len));
        proof {
            let start = seq![false, true];
            let length = varl_u_bits(input.code_len as nat, CODE_LENGTH_ENCBASE as nat);
            let points = safepoint_count_bits(input.safepoints.len());
            assert(before.push(false).push(true) =~= before + start);
            lemma_assoc(before, start, length);
            lemma_assoc(before, start + length, points);
            lemma_assoc(before, start + length + points, safepoint_bits(*input));
        }
    }
    Ok(())
}

/// What is wrong with the register roots.
fn check_registers(input: &GcInfoInput) -> (r: CompileResult<()>)
    ensures
        match r {
            Ok(_) => registers_error(*input) is None,
            Err(e) => e is Internal && registers_error(*input) == Some(e->Internal_0),
        },
{
    if input.reg_roots.len() == 0 {
        return Ok(());
    }
    if input.safepoints.len() == 0 {
        return Err(
            CompileError::Internal(
                "register roots without safepoints (a return register is live at a call site)",
            ),
        );
    }
    if input.reg_live.len() != input.safepoints.len() || input.reg_home_end.len()
        != input.safepoints.len() {
        return Err(
            CompileError::Internal("register live masks and home ends must parallel the safepoints"),
        );
    }
    let mut n: usize = 1;
    while n < input.reg_roots.len()
        invariant
            1 <= n <= input.reg_roots.len(),
            forall|i: int, j: int|
                0 <= i && j == i + 1 && j < n ==> register_pair_canonical(
                    #[trigger] input.reg_roots[i],
                    #[trigger] input.reg_roots[j],
                ),
            input.reg_live.len() == input.safepoints.len(),
            input.reg_home_end.len() == input.safepoints.len(),
            input.safepoints.len() > 0,
        decreases input.reg_roots.len() - n,
    {
        let a: GcReturnReg = input.reg_roots[n - 1];
        let b: GcReturnReg = input.reg_roots[n];
        if (!a.interior && b.interior) || (a.interior == b.interior && b.reg <= a.reg) {
            assert(!register_pair_canonical(input.reg_roots@[n - 1], input.reg_roots@[n as int]));
            return Err(
                CompileError::Internal(
                    "register roots not in canonical (flagged-first, ascending) order",
                ),
            );
        }
        n = n + 1;
    }
    Ok(())
}

/// The counts of the slot table.
fn write_slot_counts(w: &mut BitWriter, input: &GcInfoInput)
    requires
        old(w).well_formed(),
    ensures
        final(w).well_formed(),
        final(w)@ == old(w)@ + slot_count_bits(*input),
{
    let ghost before = w@;
    if input.reg_roots.len() == 0 {
        w.write_bit(false);
    } else {
        w.write_bit(true);
        w.write_varl_u(
            #[verifier::truncate]
            (input.reg_roots.len() as u32),
            NUM_REGISTERS_ENCBASE,
        );
    }
    if input.gc_roots.len() == 0 {
        w.write_bit(false);
    } else {
        w.write_bit(true);
        w.write_varl_u(0, NUM_STACK_SLOTS_ENCBASE);
        w.write_varl_u(
            #[verifier::truncate]
            (input.gc_roots.len() as u32),
            NUM_UNTRACKED_SLOTS_ENCBASE,
        );
    }
    assert(w@ =~= before + slot_count_bits(*input));
}

/// The register entries.
fn write_registers(w: &mut BitWriter, roots: &Vec<GcReturnReg>)
    requires
        old(w).well_formed(),
        registers_canonical(roots@),
    ensures
        final(w).well_formed(),
        final(w)@ == old(w)@ + register_entries_bits(roots@, roots@.len()),
{
    let ghost before = w@;
    let mut n: usize = 0;
    assert(w@ =~= before + register_entries_bits(roots@, 0));
    while n < roots.len()
        invariant
            n <= roots.len(),
            w.well_formed(),
            registers_canonical(roots@),
            w@ == before + register_entries_bits(roots@, n as nat),
        decreases roots.len() - n,
    {
        let root: GcReturnReg = roots[n];
        let ghost start = w@;
        if n == 0 || roots[n - 1].interior {
            let flag: u64 = if root.interior {
                1
            } else {
                0
            };
            w.write_varl_u(root.reg as u32, REGISTER_ENCBASE);
            w.write(flag, 2);
        } else {
            let previous: GcReturnReg = roots[n - 1];
            assert(register_pair_canonical(roots@[n - 1], roots@[n as int]));
            w.write_varl_u(root.reg as u32 - previous.reg as u32 - 1, REGISTER_DELTA_ENCBASE);
        }
        assert(w@ =~= start + register_entry_bits(roots@, n as int));
        proof {
            lemma_assoc(
                before,
                register_entries_bits(roots@, n as nat),
                register_entry_bits(roots@, n as int),
            );
        }
        n = n + 1;
    }
}

/// The untracked stack entries, up to the first whose offset is not aligned.
fn write_stack_slots(w: &mut BitWriter, roots: &Vec<GcRootSlot>) -> (ok: bool)
    requires
        old(w).well_formed(),
        crate::sort::is_sorted(roots@),
    ensures
        final(w).well_formed(),
        ok == (forall|i: int| 0 <= i < roots.len() ==> #[trigger] roots[i].offset % 8 == 0),
        ok ==> final(w)@ == old(w)@ + stack_entries_bits(roots@, roots@.len()),
{
    let ghost before = w@;
    let mut n: usize = 0;
    assert(w@ =~= before + stack_entries_bits(roots@, 0));
    while n < roots.len()
        invariant
            n <= roots.len(),
            w.well_formed(),
            crate::sort::is_sorted(roots@),
            forall|i: int| 0 <= i < n ==> #[trigger] roots[i].offset % 8 == 0,
            w@ == before + stack_entries_bits(roots@, n as nat),
        decreases roots.len() - n,
    {
        let root: GcRootSlot = roots[n];
        if root.offset % 8 != 0 {
            assert(roots@[n as int].offset % 8 != 0);
            return false;
        }
        let ghost start = w@;
        let words: u32 = root.offset / 8;
        w.write(GC_FRAMEREG_REL, 2);
        if n == 0 || roots[n - 1].flags() != 0 {
            w.write_varl_s(-(words as i64), STACK_SLOT_ENCBASE);
            w.write(root.flags(), 2);
        } else {
            assert(roots@[n - 1].key() <= roots@[n as int].key());
            w.write_varl_u(roots[n - 1].offset / 8 - words, STACK_SLOT_DELTA_ENCBASE);
        }
        assert(w@ =~= start + stack_entry_bits(roots@, n as int));
        proof {
            lemma_assoc(
                before,
                stack_entries_bits(roots@, n as nat),
                stack_entry_bits(roots@, n as int),
            );
        }
        n = n + 1;
    }
    true
}

/// The header and the slot table.
fn write_table(w: &mut BitWriter, input: &GcInfoInput) -> (r: CompileResult<()>)
    requires
        old(w).well_formed(),
    ensures
        final(w).well_formed(),
        match r {
            Ok(_) => table_error(*input) is None && final(w)@ == old(w)@ + table_bits(*input),
            Err(e) => e is Internal && table_error(*input) == Some(e->Internal_0),
        },
{
    let ghost before = w@;
    write_header(w, input)?;
    check_registers(input)?;
    write_slot_counts(w, input);
    assert(input.reg_roots.len() == 0 ==> registers_canonical(input.reg_roots@));
    write_registers(w, &input.reg_roots);
    let ghost entered = w@;
    let roots: Vec<GcRootSlot> = sorted(&input.gc_roots);
    proof {
        crate::sort::law_sort_is_a_sorted_permutation(input.gc_roots@);
        lemma_same_alignment(roots@, input.gc_roots@);
    }
    if !write_stack_slots(w, &roots) {
        return Err(CompileError::Internal("GC-root slot not 8-aligned"));
    }
    proof {
        let header = header_bits(*input);
        let counts = slot_count_bits(*input);
        let registers = register_entries_bits(input.reg_roots@, input.reg_roots@.len());
        let stack = stack_entries_bits(roots@, input.gc_roots@.len());
        lemma_assoc(before, header, counts);
        lemma_assoc(before, header + counts, registers);
        lemma_assoc(before, header + counts + registers, stack);
    }
    Ok(())
}

/// Alignment of all roots does not depend on their order.
proof fn lemma_same_alignment(a: Seq<GcRootSlot>, b: Seq<GcRootSlot>)
    requires
        a.to_multiset() == b.to_multiset(),
    ensures
        (exists|i: int| 0 <= i < a.len() && #[trigger] a[i].offset % 8 != 0) == (exists|i: int|
            0 <= i < b.len() && #[trigger] b[i].offset % 8 != 0),
{
    broadcast use vstd::seq_lib::group_to_multiset_ensures;

    if exists|i: int| 0 <= i < a.len() && #[trigger] a[i].offset % 8 != 0 {
        let i = choose|i: int| 0 <= i < a.len() && #[trigger] a[i].offset % 8 != 0;
        assert(a.to_multiset().count(a[i]) > 0);
        assert(b.contains(a[i]));
    }
    if exists|i: int| 0 <= i < b.len() && #[trigger] b[i].offset % 8 != 0 {
        let i = choose|i: int| 0 <= i < b.len() && #[trigger] b[i].offset % 8 != 0;
        assert(b.to_multiset().count(b[i]) > 0);
        assert(a.contains(b[i]));
    }
}

/// A safepoint and the register roots that are live there.
#[derive(Clone, Copy, PartialEq, Eq, Structural, Debug)]
pub struct LivePoint {
    pub offset: u32,
    pub mask: u32,
}

impl SortKey for LivePoint {
    open spec fn key(self) -> u64 {
        self.offset as u64
    }

    fn sort_key(self) -> (k: u64) {
        self.offset as u64
    }
}

/// The safepoints with their live masks.
pub open spec fn live_points(input: GcInfoInput) -> Seq<LivePoint> {
    Seq::new(
        input.safepoints@.len(),
        |i: int| LivePoint { offset: input.safepoints[i], mask: input.reg_live[i] },
    )
}

/// One bit per register slot for each safepoint.
pub open spec fn live_mask_bits(points: Seq<LivePoint>, slots: nat) -> Seq<bool>
    decreases points.len(),
{
    if points.len() == 0 {
        Seq::empty()
    } else {
        live_mask_bits(points.drop_last(), slots) + low_bits(points.last().mask as nat, slots)
    }
}

/// The live state of a method that is interrupted at safepoints only: a zero
/// bit, then the bitmaps by ascending safepoint.
pub open spec fn safepoint_state_bits(input: GcInfoInput) -> Seq<bool> {
    seq![false] + live_mask_bits(sort_by_key(live_points(input)), input.reg_roots@.len())
}

/// The whole stream.
pub open spec fn gc_info_bits(input: GcInfoInput) -> Seq<bool> {
    let table = table_bits(input);
    if input.reg_roots.len() > 0 {
        if fully_interruptible(input) {
            with_chunks(table, slot_transitions(input), total_offsets(input))
        } else {
            table + safepoint_state_bits(input)
        }
    } else if fully_interruptible(input) && input.gc_roots.len() > 0 {
        table + varl_u_bits(0, POINTER_SIZE_ENCBASE as nat)
    } else {
        table
    }
}

/// What is wrong with a method's input, the first thing first.
pub open spec fn gc_info_error(input: GcInfoInput) -> Option<&'static str> {
    match table_error(input) {
        Some(e) => Some(e),
        None => if fully_interruptible(input) && input.reg_roots.len() > 0 {
            chunks_error(input)
        } else {
            None
        },
    }
}

/// The live bitmaps of the safepoints.
fn write_safepoint_state(w: &mut BitWriter, input: &GcInfoInput)
    requires
        old(w).well_formed(),
        input.reg_live.len() == input.safepoints.len(),
        input.reg_roots.len() <= 32,
    ensures
        final(w).well_formed(),
        final(w)@ == old(w)@ + safepoint_state_bits(*input),
{
    let ghost before = w@;
    let mut points: Vec<LivePoint> = Vec::new();
    let mut n: usize = 0;
    while n < input.safepoints.len()
        invariant
            n <= input.safepoints.len(),
            input.reg_live.len() == input.safepoints.len(),
            points@ == live_points(*input).take(n as int),
        decreases input.safepoints.len() - n,
    {
        points.push(LivePoint { offset: input.safepoints[n], mask: input.reg_live[n] });
        n = n + 1;
        assert(points@ =~= live_points(*input).take(n as int));
    }
    assert(points@ =~= live_points(*input));
    let by_offset: Vec<LivePoint> = sorted(&points);
    let slots: u32 = input.reg_roots.len() as u32;
    w.write_bit(false);
    let ghost started = w@;
    n = 0;
    assert(w@ =~= started + live_mask_bits(by_offset@.take(0), slots as nat));
    while n < by_offset.len()
        invariant
            n <= by_offset.len(),
            slots <= 32,
            w.well_formed(),
            w@ == started + live_mask_bits(by_offset@.take(n as int), slots as nat),
        decreases by_offset.len() - n,
    {
        w.write(by_offset[n].mask as u64, slots);
        assert(by_offset@.take(n + 1).drop_last() =~= by_offset@.take(n as int));
        n = n + 1;
        assert(w@ =~= started + live_mask_bits(by_offset@.take(n as int), slots as nat));
    }
    assert(by_offset@.take(n as int) =~= by_offset@);
    assert(w@ =~= before + safepoint_state_bits(*input));
}

/// The live masks have a bit for every register root, as far as they are looked
/// at.
pub open spec fn roots_have_bits(input: GcInfoInput) -> bool {
    table_error(input) is None ==> if fully_interruptible(input) {
        masks_suffice(input)
    } else {
        input.reg_roots.len() <= 32
    }
}

/// Encode a method's GC info.
pub fn encode(input: &GcInfoInput) -> (r: CompileResult<Vec<u8>>)
    requires
        roots_have_bits(*input),
    ensures
        match r {
            Ok(bytes) => gc_info_error(*input) is None && bytes@ == pack(gc_info_bits(*input)),
            Err(e) => e is Internal && gc_info_error(*input) == Some(e->Internal_0),
        },
{
    let mut w: BitWriter = BitWriter::new();
    write_table(&mut w, input)?;
    let ghost table = table_bits(*input);
    assert(w@ =~= table);
    if input.reg_roots.len() > 0 {
        if input.interruptible_ranges.len() > 0 {
            encode_tracked_chunks(&mut w, input)?;
        } else {
            write_safepoint_state(&mut w, input);
        }
    } else if input.interruptible_ranges.len() > 0 && input.gc_roots.len() > 0 {
        w.write_varl_u(0, POINTER_SIZE_ENCBASE);
    }
    Ok(w.finish())
}

} // verus!
