//! Reading GC info back.
//!
//! The runtime reads the header, the safepoints or the interruptible ranges, and
//! the slot table, in this order. The laws here say that it finds what the
//! encoder was given.

use crate::bits::{
    law_low_bits_read_back, law_unpack_pack, law_varl_s_read_back, law_varl_u_read_back, low_bits,
    pack, read_bits, read_varl_s, read_varl_u, unpack, varl_s_bits, varl_u_bits,
};
use crate::gcinfo::{
    ceil_log2_of, context_bits, context_param_type, fat_end_bits, fat_flags, fat_header,
    fixed_width_bits, fully_interruptible, gc_info_bits, gc_info_error, header_bits, header_error,
    last_stop, live_mask_bits, live_points, normalized_slot, range_bits, ranges_valid,
    register_entries_bits, register_entry_bits, registers_canonical, safepoint_bits,
    safepoint_count_bits, safepoint_state_bits, slot_count_bits, stack_entries_bits,
    stack_entry_bits, table_bits, table_error, LivePoint, CODE_LENGTH_ENCBASE,
    GENERICS_INST_CONTEXT_STACK_SLOT_ENCBASE, INTERRUPTIBLE_RANGE_DELTA1_ENCBASE,
    INTERRUPTIBLE_RANGE_DELTA2_ENCBASE, NORM_PROLOG_SIZE_ENCBASE, NUM_INTERRUPTIBLE_RANGES_ENCBASE,
    NUM_REGISTERS_ENCBASE, NUM_SAFE_POINTS_ENCBASE, NUM_STACK_SLOTS_ENCBASE,
    NUM_UNTRACKED_SLOTS_ENCBASE, REGISTER_DELTA_ENCBASE, REGISTER_ENCBASE,
    SIZE_OF_STACK_AREA_ENCBASE, STACK_BASE_REGISTER_ENCBASE, STACK_SLOT_DELTA_ENCBASE,
    STACK_SLOT_ENCBASE,
};
use crate::metadata::{GcInfoInput, GcReturnReg, GcRootSlot, GenericsContext};
use crate::sort::{insert_by_key, is_sorted, law_sort_is_a_sorted_permutation, sort_by_key, SortKey};
use vstd::arithmetic::power2::{lemma2_to64, pow2};
use vstd::prelude::*;

verus! {

/// `part` stands at `at`.
pub open spec fn stands_at(bits: Seq<bool>, at: nat, part: Seq<bool>) -> bool {
    at + part.len() <= bits.len() && bits.subrange(at as int, (at + part.len()) as int) == part
}

/// `n` numbers of one width.
pub open spec fn read_fixed(bits: Seq<bool>, at: nat, width: nat, n: nat) -> Seq<nat> {
    Seq::new(n, |i: int| read_bits(bits, (at + i * width) as nat, width))
}

/// `n` ranges, and where they end.
pub open spec fn read_ranges(bits: Seq<bool>, at: nat, n: nat) -> (Seq<(nat, nat)>, nat)
    decreases n,
{
    if n == 0 {
        (Seq::empty(), at)
    } else {
        let (before, here) = read_ranges(bits, at, (n - 1) as nat);
        let stop = if n == 1 {
            0nat
        } else {
            before.last().1
        };
        let (skipped, here) = read_varl_u(bits, here, INTERRUPTIBLE_RANGE_DELTA1_ENCBASE as nat);
        let (length, here) = read_varl_u(bits, here, INTERRUPTIBLE_RANGE_DELTA2_ENCBASE as nat);
        (before.push((stop + skipped, stop + skipped + length + 1)), here)
    }
}

/// What the header says.
pub struct Header {
    pub fat: bool,
    pub report_only_leaf: bool,
    /// The stack base register is given, and it is the frame pointer.
    pub frame_based: bool,
    pub code_len: nat,
    /// The kind of the generics context, where the prolog ends, and the slot.
    pub context: Option<(nat, nat, int)>,
    pub outgoing_area: nat,
    pub safepoints: Seq<nat>,
    pub ranges: Seq<(nat, nat)>,
}

/// The generics context of a method whose flags are `flags`, and where it ends.
pub open spec fn read_context(bits: Seq<bool>, at: nat, flags: nat) -> (
    Option<(nat, nat, int)>,
    nat,
) {
    let kind = (flags / 16) % 4;
    if kind == 0 {
        (None, at)
    } else {
        let (prolog, here) = read_varl_u(bits, at, NORM_PROLOG_SIZE_ENCBASE as nat);
        let (slot, here) = read_varl_s(
            bits,
            here,
            GENERICS_INST_CONTEXT_STACK_SLOT_ENCBASE as nat,
        );
        (Some((16 * kind, prolog + 1, 8 * slot)), here)
    }
}

/// A fat header, from its flags on.
pub open spec fn read_fat_header(bits: Seq<bool>) -> (Header, nat) {
    let flags = read_bits(bits, 1, 10);
    let (code_len, here) = read_varl_u(bits, 11, CODE_LENGTH_ENCBASE as nat);
    let (context, here) = read_context(bits, here, flags);
    let (base, here) = read_varl_u(bits, here, STACK_BASE_REGISTER_ENCBASE as nat);
    let (area, here) = read_varl_u(bits, here, SIZE_OF_STACK_AREA_ENCBASE as nat);
    let (points, here) = read_varl_u(bits, here, NUM_SAFE_POINTS_ENCBASE as nat);
    let (count, here) = read_varl_u(bits, here, NUM_INTERRUPTIBLE_RANGES_ENCBASE as nat);
    let width = ceil_log2_of(code_len);
    let (ranges, end) = read_ranges(bits, here + points * width, count);
    (
        Header {
            fat: true,
            report_only_leaf: (flags / 128) % 2 == 1,
            frame_based: (flags / 64) % 2 == 1 && base == 0,
            code_len,
            context,
            outgoing_area: 8 * area,
            safepoints: read_fixed(bits, here, width, points),
            ranges,
        },
        end,
    )
}

/// A slim header, from its second bit on.
pub open spec fn read_slim_header(bits: Seq<bool>) -> (Header, nat) {
    let (code_len, here) = read_varl_u(bits, 2, CODE_LENGTH_ENCBASE as nat);
    let (points, here) = read_varl_u(bits, here, NUM_SAFE_POINTS_ENCBASE as nat);
    let width = ceil_log2_of(code_len);
    (
        Header {
            fat: false,
            report_only_leaf: false,
            frame_based: bits[1],
            code_len,
            context: None,
            outgoing_area: 0,
            safepoints: read_fixed(bits, here, width, points),
            ranges: Seq::empty(),
        },
        here + points * width,
    )
}

/// The header, and where it ends.
pub open spec fn read_header(bits: Seq<bool>) -> (Header, nat) {
    if bits[0] {
        read_fat_header(bits)
    } else {
        read_slim_header(bits)
    }
}

/// `n` register slots, each a number and its flags, and where they end. A slot
/// behind one without flags is a distance from it, and has no flags either.
pub open spec fn read_registers(bits: Seq<bool>, at: nat, n: nat) -> (Seq<(nat, nat)>, nat)
    decreases n,
{
    if n == 0 {
        (Seq::empty(), at)
    } else {
        let (before, here) = read_registers(bits, at, (n - 1) as nat);
        if n == 1 || before.last().1 != 0 {
            let (reg, here) = read_varl_u(bits, here, REGISTER_ENCBASE as nat);
            (before.push((reg, read_bits(bits, here, 2))), here + 2)
        } else {
            let (delta, here) = read_varl_u(bits, here, REGISTER_DELTA_ENCBASE as nat);
            (before.push((before.last().0 + delta + 1, 0)), here)
        }
    }
}

/// `n` untracked stack slots, each a base, a word offset and flags, and where
/// they end. A slot behind one without flags is a distance from it, and has no
/// flags either.
pub open spec fn read_stack_slots(bits: Seq<bool>, at: nat, n: nat) -> (Seq<(nat, int, nat)>, nat)
    decreases n,
{
    if n == 0 {
        (Seq::empty(), at)
    } else {
        let (before, here) = read_stack_slots(bits, at, (n - 1) as nat);
        let base = read_bits(bits, here, 2);
        if n == 1 || before.last().2 != 0 {
            let (slot, here) = read_varl_s(bits, here + 2, STACK_SLOT_ENCBASE as nat);
            (before.push((base, slot, read_bits(bits, here, 2))), here + 2)
        } else {
            let (delta, here) = read_varl_u(bits, here + 2, STACK_SLOT_DELTA_ENCBASE as nat);
            (before.push((base, before.last().1 + delta, 0)), here)
        }
    }
}

/// The number of register slots, and where it ends.
pub open spec fn read_register_count(bits: Seq<bool>, at: nat) -> (nat, nat) {
    if bits[at as int] {
        read_varl_u(bits, at + 1, NUM_REGISTERS_ENCBASE as nat)
    } else {
        (0, at + 1)
    }
}

/// The numbers of tracked and of untracked stack slots, and where they end.
pub open spec fn read_stack_count(bits: Seq<bool>, at: nat) -> (nat, nat, nat) {
    if bits[at as int] {
        let (with_state, here) = read_varl_u(bits, at + 1, NUM_STACK_SLOTS_ENCBASE as nat);
        let (untracked, here) = read_varl_u(bits, here, NUM_UNTRACKED_SLOTS_ENCBASE as nat);
        (with_state, untracked, here)
    } else {
        (0, 0, at + 1)
    }
}

/// What the slot table says.
pub struct SlotTable {
    /// The registers, each with its flags.
    pub registers: Seq<(nat, nat)>,
    /// The number of tracked stack slots.
    pub with_state: nat,
    /// The untracked stack slots, each with its base and its flags.
    pub untracked: Seq<(nat, int, nat)>,
}

/// The slot table at `at`, and where it ends.
pub open spec fn read_slot_table(bits: Seq<bool>, at: nat) -> (SlotTable, nat) {
    let (registers, here) = read_register_count(bits, at);
    let (with_state, untracked, here) = read_stack_count(bits, here);
    let (registers, here) = read_registers(bits, here, registers);
    let (untracked, here) = read_stack_slots(bits, here, untracked);
    (SlotTable { registers, with_state, untracked }, here)
}

/// The header of a method.
pub open spec fn header_of(input: GcInfoInput) -> Header {
    Header {
        fat: fat_header(input),
        report_only_leaf: fully_interruptible(input) && input.has_funclets,
        frame_based: true,
        code_len: input.code_len as nat,
        context: match input.generics_context {
            Some(ctx) => Some(
                (context_param_type(ctx.kind), ctx.prolog_end as nat, ctx.slot_offset as int),
            ),
            None => None,
        },
        outgoing_area: if fat_header(input) {
            input.outgoing_area_size as nat
        } else {
            0
        },
        safepoints: if fully_interruptible(input) {
            Seq::empty()
        } else {
            let sorted = sort_by_key(input.safepoints@);
            Seq::new(sorted.len(), |i: int| sorted[i] as nat)
        },
        ranges: Seq::new(
            input.interruptible_ranges@.len(),
            |i: int|
                (input.interruptible_ranges[i].0 as nat, input.interruptible_ranges[i].1 as nat),
        ),
    }
}

/// The slot table of a method: the registers as given, the frame slots with the
/// flagged ones first, the lowest address first among slots of a kind.
pub open spec fn slot_table_of(input: GcInfoInput) -> SlotTable {
    let roots = sort_by_key(input.gc_roots@);
    SlotTable {
        registers: Seq::new(
            input.reg_roots@.len(),
            |i: int|
                (
                    input.reg_roots[i].reg as nat,
                    if input.reg_roots[i].interior {
                        1nat
                    } else {
                        0nat
                    },
                ),
        ),
        with_state: 0,
        untracked: Seq::new(
            roots.len(),
            |i: int| (2nat, -(roots[i].offset as int) / 8, roots[i].flag_bits()),
        ),
    }
}

/// The counts of a method fit their fields, and so do its safepoints. A
/// safepoint at the very end of a code whose length is a power of two does not.
pub open spec fn fields_suffice(input: GcInfoInput) -> bool {
    &&& input.safepoints@.len() <= u32::MAX
    &&& input.interruptible_ranges@.len() <= u32::MAX
    &&& input.reg_roots@.len() <= u32::MAX
    &&& input.gc_roots@.len() <= u32::MAX
    &&& !fully_interruptible(input) ==> forall|i: int|
        0 <= i < input.safepoints@.len() ==> #[trigger] input.safepoints@[i] < pow2(
            ceil_log2_of(input.code_len as nat),
        )
}

/// The parts of what stands somewhere.
pub proof fn lemma_parts(bits: Seq<bool>, at: nat, a: Seq<bool>, b: Seq<bool>)
    requires
        stands_at(bits, at, a + b),
    ensures
        stands_at(bits, at, a),
        stands_at(bits, at + a.len(), b),
{
    let here = bits.subrange(at as int, (at + (a + b).len()) as int);
    assert(bits.subrange(at as int, (at + a.len()) as int) =~= here.subrange(0, a.len() as int));
    assert(a =~= (a + b).subrange(0, a.len() as int));
    assert(bits.subrange((at + a.len()) as int, (at + a.len() + b.len()) as int)
        =~= here.subrange(a.len() as int, (a + b).len() as int));
    assert(b =~= (a + b).subrange(a.len() as int, (a + b).len() as int));
}

/// Fixed-width numbers read back.
proof fn lemma_read_low(bits: Seq<bool>, at: nat, value: nat, count: nat)
    requires
        stands_at(bits, at, low_bits(value, count)),
        value < pow2(count),
    ensures
        read_bits(bits, at, count) == value,
        low_bits(value, count).len() == count,
{
    law_low_bits_read_back(value, count);
    vstd::arithmetic::div_mod::lemma_small_mod(value, pow2(count));
}

proof fn lemma_fixed_len(values: Seq<u32>, width: nat)
    ensures
        fixed_width_bits(values, width).len() == values.len() * width,
    decreases values.len(),
{
    if values.len() > 0 {
        lemma_fixed_len(values.drop_last(), width);
        assert((values.len() - 1) * width + width == values.len() * width) by (nonlinear_arith);
    } else {
        assert(0 * width == 0) by (nonlinear_arith);
    }
}

proof fn lemma_read_fixed(bits: Seq<bool>, at: nat, values: Seq<u32>, width: nat)
    requires
        stands_at(bits, at, fixed_width_bits(values, width)),
        forall|i: int| 0 <= i < values.len() ==> #[trigger] values[i] < pow2(width),
    ensures
        read_fixed(bits, at, width, values.len()) =~= Seq::new(
            values.len(),
            |i: int| values[i] as nat,
        ),
    decreases values.len(),
{
    if values.len() > 0 {
        let before = values.drop_last();
        let last = values.last() as nat;
        lemma_parts(bits, at, fixed_width_bits(before, width), low_bits(last, width));
        lemma_fixed_len(before, width);
        lemma_read_fixed(bits, at, before, width);
        lemma_read_low(bits, at + before.len() * width, last, width);
        assert forall|i: int| 0 <= i < values.len() implies #[trigger] read_fixed(
            bits,
            at,
            width,
            values.len(),
        )[i] == values[i] by {
            if i < values.len() - 1 {
                assert(read_fixed(bits, at, width, before.len())[i] == before[i]);
            }
        }
    }
}

proof fn lemma_read_ranges(bits: Seq<bool>, at: nat, ranges: Seq<(u32, u32)>)
    requires
        stands_at(bits, at, range_bits(ranges)),
        ranges_valid(ranges),
    ensures
        read_ranges(bits, at, ranges.len()).0 =~= Seq::new(
            ranges.len(),
            |i: int| (ranges[i].0 as nat, ranges[i].1 as nat),
        ),
        read_ranges(bits, at, ranges.len()).1 == at + range_bits(ranges).len(),
    decreases ranges.len(),
{
    if ranges.len() > 0 {
        let before = ranges.drop_last();
        let n = ranges.len() - 1;
        let (start, end) = ranges.last();
        let stop = last_stop(ranges, n);
        let first = range_bits(before);
        let skipped = varl_u_bits(
            (start - stop) as nat,
            INTERRUPTIBLE_RANGE_DELTA1_ENCBASE as nat,
        );
        let length = varl_u_bits(
            (end - start - 1) as nat,
            INTERRUPTIBLE_RANGE_DELTA2_ENCBASE as nat,
        );
        assert(last_stop(ranges, n) <= ranges[n].0 < ranges[n].1);
        assert(ranges_valid(before)) by {
            assert forall|i: int| 0 <= i < before.len() implies last_stop(before, i)
                <= #[trigger] before[i].0 < before[i].1 by {
                assert(last_stop(ranges, i) <= ranges[i].0 < ranges[i].1);
            }
        }
        lemma_parts(bits, at, first + skipped, length);
        lemma_parts(bits, at, first, skipped);
        lemma_read_ranges(bits, at, before);
        law_varl_u_read_back(
            bits,
            at + first.len(),
            (start - stop) as nat,
            INTERRUPTIBLE_RANGE_DELTA1_ENCBASE as nat,
        );
        law_varl_u_read_back(
            bits,
            at + first.len() + skipped.len(),
            (end - start - 1) as nat,
            INTERRUPTIBLE_RANGE_DELTA2_ENCBASE as nat,
        );
        if n > 0 {
            assert(read_ranges(bits, at, n as nat).0.last() == (
                before[n - 1].0 as nat,
                before[n - 1].1 as nat,
            ));
        }
    }
}

proof fn lemma_read_registers(bits: Seq<bool>, at: nat, roots: Seq<GcReturnReg>, n: nat)
    requires
        n <= roots.len(),
        stands_at(bits, at, register_entries_bits(roots, n)),
        registers_canonical(roots),
    ensures
        read_registers(bits, at, n).0 =~= Seq::new(
            n,
            |i: int|
                (
                    roots[i].reg as nat,
                    if roots[i].interior {
                        1nat
                    } else {
                        0nat
                    },
                ),
        ),
        read_registers(bits, at, n).1 == at + register_entries_bits(roots, n).len(),
    decreases n,
{
    if n > 0 {
        let m = (n - 1) as nat;
        let first = register_entries_bits(roots, m);
        let here = at + first.len();
        lemma_parts(bits, at, first, register_entry_bits(roots, n - 1));
        lemma_read_registers(bits, at, roots, m);
        let root = roots[n - 1];
        let flag = if root.interior {
            1nat
        } else {
            0nat
        };
        lemma2_to64();
        if n > 1 {
            assert(read_registers(bits, at, m).0.last().0 == roots[n - 2].reg);
            assert(crate::gcinfo::register_pair_canonical(roots[n - 2], roots[n - 1]));
        }
        if n == 1 || roots[n - 2].interior {
            let number = varl_u_bits(root.reg as nat, REGISTER_ENCBASE as nat);
            lemma_parts(bits, here, number, low_bits(flag, 2));
            law_varl_u_read_back(bits, here, root.reg as nat, REGISTER_ENCBASE as nat);
            lemma_read_low(bits, here + number.len(), flag, 2);
        } else {
            law_varl_u_read_back(
                bits,
                here,
                (root.reg - roots[n - 2].reg - 1) as nat,
                REGISTER_DELTA_ENCBASE as nat,
            );
        }
    }
}

/// Frame slots in the order of the table: one behind a slot without flags has
/// none either and lies above it.
spec fn slots_ordered(roots: Seq<GcRootSlot>) -> bool {
    forall|i: int|
        0 < i < roots.len() && (#[trigger] roots[i - 1]).flag_bits() == 0 ==> roots[i].flag_bits()
            == 0 && roots[i].offset <= roots[i - 1].offset
}

proof fn lemma_slots_ordered(roots: Seq<GcRootSlot>)
    requires
        is_sorted(roots),
    ensures
        slots_ordered(roots),
{
    assert forall|i: int| 0 < i < roots.len() && (#[trigger] roots[i - 1]).flag_bits()
        == 0 implies roots[i].flag_bits() == 0 && roots[i].offset <= roots[i - 1].offset by {
        assert(roots[i - 1].key() <= roots[i].key());
    }
}

proof fn lemma_read_stack_slots(bits: Seq<bool>, at: nat, roots: Seq<GcRootSlot>, n: nat)
    requires
        n <= roots.len(),
        stands_at(bits, at, stack_entries_bits(roots, n)),
        slots_ordered(roots),
        forall|i: int| 0 <= i < roots.len() ==> #[trigger] roots[i].offset % 8 == 0,
    ensures
        read_stack_slots(bits, at, n).0 =~= Seq::new(
            n,
            |i: int| (2nat, -(roots[i].offset as int) / 8, roots[i].flag_bits()),
        ),
        read_stack_slots(bits, at, n).1 == at + stack_entries_bits(roots, n).len(),
    decreases n,
{
    if n > 0 {
        let m = (n - 1) as nat;
        let first = stack_entries_bits(roots, m);
        let here = at + first.len();
        let entry = stack_entry_bits(roots, n - 1);
        lemma_parts(bits, at, first, entry);
        lemma_read_stack_slots(bits, at, roots, m);
        let root = roots[n - 1];
        let slot = normalized_slot(root);
        lemma2_to64();
        assert(roots[n - 1].offset % 8 == 0);
        if n > 1 {
            assert(roots[n - 2].offset % 8 == 0);
            assert(read_stack_slots(bits, at, m).0.last().1 == normalized_slot(roots[n - 2]));
            assert(read_stack_slots(bits, at, m).0.last().2 == roots[n - 2].flag_bits());
        }
        if n == 1 || roots[n - 2].flag_bits() != 0 {
            let number = varl_s_bits(slot, STACK_SLOT_ENCBASE as nat);
            let flags = low_bits(root.flag_bits(), 2);
            lemma_parts(bits, here, low_bits(2, 2), number + flags);
            lemma_parts(bits, here + 2, number, flags);
            lemma_read_low(bits, here, 2, 2);
            law_varl_s_read_back(bits, here + 2, slot, STACK_SLOT_ENCBASE as nat);
            lemma_read_low(bits, here + 2 + number.len(), root.flag_bits(), 2);
        } else {
            let delta = (slot - normalized_slot(roots[n - 2])) as nat;
            assert(roots[n - 2].flag_bits() == 0);
            lemma_parts(
                bits,
                here,
                low_bits(2, 2),
                varl_u_bits(delta, STACK_SLOT_DELTA_ENCBASE as nat),
            );
            lemma_read_low(bits, here, 2, 2);
            law_varl_u_read_back(bits, here + 2, delta, STACK_SLOT_DELTA_ENCBASE as nat);
        }
    }
}

/// The slot table reads back: every register root and every frame slot, with its
/// flags.
pub proof fn law_slot_table_reads_back(bits: Seq<bool>, input: GcInfoInput)
    requires
        table_error(input) is None,
        fields_suffice(input),
        stands_at(bits, 0, table_bits(input)),
    ensures
        read_slot_table(bits, header_bits(input).len()) == (
            slot_table_of(input),
            table_bits(input).len(),
        ),
{
    let header = header_bits(input);
    let counts = slot_count_bits(input);
    let registers = register_entries_bits(input.reg_roots@, input.reg_roots@.len());
    let roots = sort_by_key(input.gc_roots@);
    let slots = stack_entries_bits(roots, input.gc_roots@.len());
    lemma_parts(bits, 0, header + counts + registers, slots);
    lemma_parts(bits, 0, header + counts, registers);
    lemma_parts(bits, 0, header, counts);
    let at = header.len();
    let reg_count = if input.reg_roots.len() == 0 {
        seq![false]
    } else {
        seq![true] + varl_u_bits(
            (input.reg_roots.len() as u32) as nat,
            NUM_REGISTERS_ENCBASE as nat,
        )
    };
    let stack_count = if input.gc_roots.len() == 0 {
        seq![false]
    } else {
        seq![true] + varl_u_bits(0, NUM_STACK_SLOTS_ENCBASE as nat) + varl_u_bits(
            (input.gc_roots.len() as u32) as nat,
            NUM_UNTRACKED_SLOTS_ENCBASE as nat,
        )
    };
    assert(counts == reg_count + stack_count);
    lemma_parts(bits, at, reg_count, stack_count);
    let here = at + reg_count.len();
    if input.reg_roots.len() == 0 {
        assert(bits.subrange(at as int, (at + 1) as int)[0] == bits[at as int]);
    } else {
        let number = varl_u_bits(input.reg_roots.len() as nat, NUM_REGISTERS_ENCBASE as nat);
        lemma_parts(bits, at, seq![true], number);
        assert(bits.subrange(at as int, (at + 1) as int)[0] == bits[at as int]);
        law_varl_u_read_back(
            bits,
            at + 1,
            input.reg_roots.len() as nat,
            NUM_REGISTERS_ENCBASE as nat,
        );
    }
    if input.gc_roots.len() == 0 {
        assert(bits.subrange(here as int, (here + 1) as int)[0] == bits[here as int]);
    } else {
        let zero = varl_u_bits(0, NUM_STACK_SLOTS_ENCBASE as nat);
        let number = varl_u_bits(input.gc_roots.len() as nat, NUM_UNTRACKED_SLOTS_ENCBASE as nat);
        lemma_parts(bits, here, seq![true] + zero, number);
        lemma_parts(bits, here, seq![true], zero);
        assert(bits.subrange(here as int, (here + 1) as int)[0] == bits[here as int]);
        law_varl_u_read_back(bits, here + 1, 0, NUM_STACK_SLOTS_ENCBASE as nat);
        law_varl_u_read_back(
            bits,
            here + 1 + zero.len(),
            input.gc_roots.len() as nat,
            NUM_UNTRACKED_SLOTS_ENCBASE as nat,
        );
    }
    law_sort_is_a_sorted_permutation(input.gc_roots@);
    lemma_slots_ordered(roots);
    lemma_sorted_alignment(input.gc_roots@);
    lemma_read_registers(bits, at + counts.len(), input.reg_roots@, input.reg_roots@.len());
    lemma_read_stack_slots(bits, at + counts.len() + registers.len(), roots, roots.len());
}

/// Sorting keeps the slots aligned, and their number.
proof fn lemma_sorted_alignment(roots: Seq<GcRootSlot>)
    requires
        !exists|i: int| 0 <= i < roots.len() && #[trigger] roots[i].offset % 8 != 0,
    ensures
        sort_by_key(roots).len() == roots.len(),
        forall|i: int|
            0 <= i < roots.len() ==> #[trigger] sort_by_key(roots)[i].offset % 8 == 0,
{
    broadcast use vstd::seq_lib::group_to_multiset_ensures;

    let sorted = sort_by_key(roots);
    law_sort_is_a_sorted_permutation(roots);
    assert forall|i: int| 0 <= i < roots.len() implies #[trigger] sorted[i].offset % 8 == 0 by {
        assert(sorted.to_multiset().count(sorted[i]) > 0);
        assert(roots.contains(sorted[i]));
    }
}

/// Sorting keeps the safepoints within their field.
proof fn lemma_sorted_below(points: Seq<u32>, bound: nat)
    requires
        forall|i: int| 0 <= i < points.len() ==> #[trigger] points[i] < bound,
    ensures
        sort_by_key(points).len() == points.len(),
        forall|i: int| 0 <= i < points.len() ==> #[trigger] sort_by_key(points)[i] < bound,
{
    broadcast use vstd::seq_lib::group_to_multiset_ensures;

    let sorted = sort_by_key(points);
    law_sort_is_a_sorted_permutation(points);
    assert forall|i: int| 0 <= i < points.len() implies #[trigger] sorted[i] < bound by {
        assert(sorted.to_multiset().count(sorted[i]) > 0);
        assert(points.contains(sorted[i]));
    }
}

/// The safepoints read back, and where they end.
proof fn lemma_read_safepoints(bits: Seq<bool>, at: nat, input: GcInfoInput)
    requires
        !fully_interruptible(input),
        fields_suffice(input),
        stands_at(bits, at, safepoint_bits(input)),
    ensures
        read_fixed(
            bits,
            at,
            ceil_log2_of(input.code_len as nat),
            input.safepoints@.len(),
        ) =~= header_of(input).safepoints,
        safepoint_bits(input).len() == input.safepoints@.len() * ceil_log2_of(
            input.code_len as nat,
        ),
{
    let width = ceil_log2_of(input.code_len as nat);
    lemma_sorted_below(input.safepoints@, pow2(width));
    lemma_fixed_len(sort_by_key(input.safepoints@), width);
    lemma_read_fixed(bits, at, sort_by_key(input.safepoints@), width);
}

proof fn lemma_read_slim_header(bits: Seq<bool>, input: GcInfoInput)
    requires
        !fat_header(input),
        fields_suffice(input),
        stands_at(bits, 0, header_bits(input)),
    ensures
        read_header(bits) == (header_of(input), header_bits(input).len()),
{
    let start = seq![false, true];
    let length = varl_u_bits(input.code_len as nat, CODE_LENGTH_ENCBASE as nat);
    let count = safepoint_count_bits(input.safepoints.len());
    let points = safepoint_bits(input);
    lemma_parts(bits, 0, start + length + count, points);
    lemma_parts(bits, 0, start + length, count);
    lemma_parts(bits, 0, start, length);
    assert(bits.subrange(0, 2)[0] == bits[0]);
    assert(bits.subrange(0, 2)[1] == bits[1]);
    law_varl_u_read_back(bits, 2, input.code_len as nat, CODE_LENGTH_ENCBASE as nat);
    law_varl_u_read_back(
        bits,
        2 + length.len(),
        input.safepoints@.len(),
        NUM_SAFE_POINTS_ENCBASE as nat,
    );
    lemma_read_safepoints(bits, 2 + length.len() + count.len(), input);
    assert(read_header(bits).0.ranges =~= header_of(input).ranges);
}

/// What the flag word says.
proof fn lemma_flags(input: GcInfoInput)
    ensures
        fat_flags(input) < pow2(10),
        (fat_flags(input) / 128) % 2 == (if fully_interruptible(input) && input.has_funclets {
            1nat
        } else {
            0nat
        }),
        (fat_flags(input) / 64) % 2 == 1,
        16 * ((fat_flags(input) / 16) % 4) == (match input.generics_context {
            Some(ctx) => context_param_type(ctx.kind),
            None => 0nat,
        }),
        input.generics_context is Some <==> (fat_flags(input) / 16) % 4 != 0,
{
    lemma2_to64();
}

proof fn lemma_read_context(bits: Seq<bool>, at: nat, input: GcInfoInput)
    requires
        header_error(input) is None,
        fat_header(input),
        stands_at(bits, at, context_bits(input.generics_context)),
    ensures
        read_context(bits, at, fat_flags(input)) == (
            header_of(input).context,
            at + context_bits(input.generics_context).len(),
        ),
{
    lemma_flags(input);
    if let Some(ctx) = input.generics_context {
        let prolog = varl_u_bits((ctx.prolog_end - 1) as nat, NORM_PROLOG_SIZE_ENCBASE as nat);
        let slot = varl_s_bits(
            ctx.slot_offset as int / 8,
            GENERICS_INST_CONTEXT_STACK_SLOT_ENCBASE as nat,
        );
        lemma_parts(bits, at, prolog, slot);
        law_varl_u_read_back(
            bits,
            at,
            (ctx.prolog_end - 1) as nat,
            NORM_PROLOG_SIZE_ENCBASE as nat,
        );
        law_varl_s_read_back(
            bits,
            at + prolog.len(),
            ctx.slot_offset as int / 8,
            GENERICS_INST_CONTEXT_STACK_SLOT_ENCBASE as nat,
        );
    }
}

/// The end of a fat header: its base register, outgoing area, safepoints and
/// ranges, and where it ends.
spec fn read_fat_end(bits: Seq<bool>, at: nat, code_len: nat) -> (
    nat,
    nat,
    Seq<nat>,
    Seq<(nat, nat)>,
    nat,
) {
    let (base, here) = read_varl_u(bits, at, STACK_BASE_REGISTER_ENCBASE as nat);
    let (area, here) = read_varl_u(bits, here, SIZE_OF_STACK_AREA_ENCBASE as nat);
    let (points, here) = read_varl_u(bits, here, NUM_SAFE_POINTS_ENCBASE as nat);
    let (count, here) = read_varl_u(bits, here, NUM_INTERRUPTIBLE_RANGES_ENCBASE as nat);
    let width = ceil_log2_of(code_len);
    let (ranges, end) = read_ranges(bits, here + points * width, count);
    (base, area, read_fixed(bits, here, width, points), ranges, end)
}

proof fn lemma_read_fat_end(bits: Seq<bool>, at: nat, input: GcInfoInput)
    requires
        header_error(input) is None,
        fat_header(input),
        fields_suffice(input),
        stands_at(bits, at, fat_end_bits(input)),
    ensures
        read_fat_end(bits, at, input.code_len as nat) == (
            0nat,
            input.outgoing_area_size as nat / 8,
            header_of(input).safepoints,
            header_of(input).ranges,
            at + fat_end_bits(input).len(),
        ),
{
    let base = varl_u_bits(0, STACK_BASE_REGISTER_ENCBASE as nat);
    let area = varl_u_bits(
        input.outgoing_area_size as nat / 8,
        SIZE_OF_STACK_AREA_ENCBASE as nat,
    );
    let points: nat = if fully_interruptible(input) {
        0
    } else {
        input.safepoints@.len()
    };
    let point_count = varl_u_bits(points, NUM_SAFE_POINTS_ENCBASE as nat);
    let ranges = input.interruptible_ranges@.len();
    let range_count = varl_u_bits(ranges, NUM_INTERRUPTIBLE_RANGES_ENCBASE as nat);
    let rest = if fully_interruptible(input) {
        range_bits(input.interruptible_ranges@)
    } else {
        safepoint_bits(input)
    };
    assert(fat_end_bits(input) == base + area + point_count + range_count + rest);
    lemma_parts(bits, at, base + area + point_count + range_count, rest);
    lemma_parts(bits, at, base + area + point_count, range_count);
    lemma_parts(bits, at, base + area, point_count);
    lemma_parts(bits, at, base, area);
    let p1 = at + base.len();
    let p2 = p1 + area.len();
    let p3 = p2 + point_count.len();
    let p4 = p3 + range_count.len();
    law_varl_u_read_back(bits, at, 0, STACK_BASE_REGISTER_ENCBASE as nat);
    law_varl_u_read_back(
        bits,
        p1,
        input.outgoing_area_size as nat / 8,
        SIZE_OF_STACK_AREA_ENCBASE as nat,
    );
    law_varl_u_read_back(bits, p2, points, NUM_SAFE_POINTS_ENCBASE as nat);
    law_varl_u_read_back(bits, p3, ranges, NUM_INTERRUPTIBLE_RANGES_ENCBASE as nat);
    let width = ceil_log2_of(input.code_len as nat);
    if fully_interruptible(input) {
        assert(points * width == 0) by (nonlinear_arith)
            requires points == 0;
        assert(read_fixed(bits, p4, width, 0) =~= header_of(input).safepoints);
        lemma_read_ranges(bits, p4, input.interruptible_ranges@);
    } else {
        lemma_read_safepoints(bits, p4, input);
        assert(read_ranges(bits, p4 + points * width, 0).0 =~= header_of(input).ranges);
    }
}

proof fn lemma_read_fat_header(bits: Seq<bool>, input: GcInfoInput)
    requires
        header_error(input) is None,
        fat_header(input),
        fields_suffice(input),
        stands_at(bits, 0, header_bits(input)),
    ensures
        read_header(bits) == (header_of(input), header_bits(input).len()),
{
    let flags = low_bits(fat_flags(input), 10);
    let length = varl_u_bits(input.code_len as nat, CODE_LENGTH_ENCBASE as nat);
    let context = context_bits(input.generics_context);
    let end = fat_end_bits(input);
    lemma_parts(bits, 0, seq![true] + flags + length + context, end);
    lemma_parts(bits, 0, seq![true] + flags + length, context);
    lemma_parts(bits, 0, seq![true] + flags, length);
    lemma_parts(bits, 0, seq![true], flags);
    assert(bits.subrange(0, 1)[0] == bits[0]);
    lemma_flags(input);
    lemma_read_low(bits, 1, fat_flags(input), 10);
    law_varl_u_read_back(bits, 11, input.code_len as nat, CODE_LENGTH_ENCBASE as nat);
    lemma_read_context(bits, 11 + length.len(), input);
    lemma_read_fat_end(bits, 11 + length.len() + context.len(), input);
}

/// The header reads back.
pub proof fn law_header_reads_back(bits: Seq<bool>, input: GcInfoInput)
    requires
        header_error(input) is None,
        fields_suffice(input),
        stands_at(bits, 0, header_bits(input)),
    ensures
        read_header(bits) == (header_of(input), header_bits(input).len()),
{
    if fat_header(input) {
        lemma_read_fat_header(bits, input);
    } else {
        lemma_read_slim_header(bits, input);
    }
}

/// What the encoder writes begins with the header and the slot table.
pub proof fn law_table_stands_first(input: GcInfoInput)
    ensures
        stands_at(unpack(pack(gc_info_bits(input))), 0, table_bits(input)),
        stands_at(unpack(pack(gc_info_bits(input))), 0, header_bits(input)),
{
    let all = gc_info_bits(input);
    let bits = unpack(pack(all));
    law_unpack_pack(all);
    let table = table_bits(input);
    assert(all.subrange(0, table.len() as int) =~= table);
    assert(bits.subrange(0, table.len() as int) =~= all.subrange(0, table.len() as int));
    let header = header_bits(input);
    let counts = slot_count_bits(input);
    let registers = register_entries_bits(input.reg_roots@, input.reg_roots@.len());
    let slots = stack_entries_bits(sort_by_key(input.gc_roots@), input.gc_roots@.len());
    lemma_parts(bits, 0, header + counts + registers, slots);
    lemma_parts(bits, 0, header + counts, registers);
    lemma_parts(bits, 0, header, counts);
}

/// The slot table of a method, as its bytes tell it.
#[verifier::opaque]
pub open spec fn reported(bytes: Seq<u8>) -> SlotTable {
    let bits = unpack(bytes);
    read_slot_table(bits, read_header(bits).1).0
}

/// Every frame slot with a GC pointer stands in the table that is read back from the
/// bytes: its address from the frame register, and whether it is interior and pinned.
/// The table has no other slots.
pub proof fn law_frame_slots_are_reported(input: GcInfoInput, j: int) -> (i: int)
    requires
        table_error(input) is None,
        fields_suffice(input),
        0 <= j < input.gc_roots@.len(),
    ensures
        ({
            let slots = reported(pack(gc_info_bits(input))).untracked;
            let (base, words, flags) = slots[i];
            let root = input.gc_roots[j];
            &&& 0 <= i < slots.len() == input.gc_roots@.len()
            &&& base == 2
            &&& 8 * words == -root.offset
            &&& flags < 4
            &&& flags % 2 == 1 <==> root.is_byref
            &&& flags / 2 == 1 <==> root.pinned
        }),
{
    let i = lemma_among_sorted(input.gc_roots@, j);
    lemma_table_of_bytes(input);
    let root = input.gc_roots[j];
    assert(root.offset % 8 == 0);
    assert(slot_table_of(input).untracked[i] == (
        2nat,
        -(root.offset as int) / 8,
        root.flag_bits(),
    ));
    i
}

proof fn lemma_among_sorted(roots: Seq<GcRootSlot>, j: int) -> (i: int)
    requires
        0 <= j < roots.len(),
    ensures
        sort_by_key(roots).len() == roots.len(),
        0 <= i < roots.len(),
        sort_by_key(roots)[i] == roots[j],
{
    broadcast use vstd::seq_lib::group_to_multiset_ensures;

    let sorted = sort_by_key(roots);
    law_sort_is_a_sorted_permutation(roots);
    assert(roots.to_multiset().count(roots[j]) > 0);
    assert(sorted.contains(roots[j]));
    choose|i: int| 0 <= i < sorted.len() && sorted[i] == roots[j]
}

proof fn lemma_table_of_bytes(input: GcInfoInput)
    requires
        table_error(input) is None,
        fields_suffice(input),
    ensures
        reported(pack(gc_info_bits(input))) == slot_table_of(input),
{
    reveal(reported);
    let bits = unpack(pack(gc_info_bits(input)));
    law_table_stands_first(input);
    law_header_reads_back(bits, input);
    law_slot_table_reads_back(bits, input);
}

/// The generics context that is read back from the bytes is the method's: its kind, where
/// the prolog ends, and the slot.
pub proof fn law_contexts_are_reported(input: GcInfoInput)
    requires
        header_error(input) is None,
        fields_suffice(input),
    ensures
        ({
            let bits = unpack(pack(gc_info_bits(input)));
            match (input.generics_context, read_header(bits).0.context) {
                (None, None) => true,
                (Some(ctx), Some((kind, prolog_end, slot))) => {
                    &&& prolog_end == ctx.prolog_end
                    &&& slot == ctx.slot_offset
                    &&& kind == match ctx.kind {
                        GenericsContext::MethodTable => 16nat,
                        GenericsContext::MethodDesc => 32,
                        GenericsContext::This => 48,
                    }
                },
                _ => false,
            }
        }),
{
    let bits = unpack(pack(gc_info_bits(input)));
    law_table_stands_first(input);
    law_header_reads_back(bits, input);
}

/// Pinned slots come first, then interior ones, and the lowest address first among slots
/// of a kind.
pub proof fn law_slots_are_listed_by_kind(a: GcRootSlot, b: GcRootSlot)
    ensures
        a.key() < b.key() <==> {
            ||| a.pinned && !b.pinned
            ||| a.pinned == b.pinned && a.is_byref && !b.is_byref
            ||| a.pinned == b.pinned && a.is_byref == b.is_byref && a.offset > b.offset
        },
{
}

/// A method with neither interruptible ranges nor a generics context takes the
/// slim header, and no other does.
pub proof fn law_slim_header(input: GcInfoInput)
    requires
        gc_info_error(input) is None,
    ensures
        unpack(pack(gc_info_bits(input)))[0] == (input.interruptible_ranges@.len() > 0
            || input.generics_context is Some),
{
    law_table_stands_first(input);
    let bits = unpack(pack(gc_info_bits(input)));
    let header = header_bits(input);
    assert(header.len() > 0);
    assert(bits.subrange(0, header.len() as int)[0] == bits[0]);
}

proof fn lemma_mask_len(points: Seq<LivePoint>, slots: nat)
    ensures
        live_mask_bits(points, slots).len() == points.len() * slots,
    decreases points.len(),
{
    if points.len() > 0 {
        lemma_mask_len(points.drop_last(), slots);
        assert((points.len() - 1) * slots + slots == points.len() * slots) by (nonlinear_arith);
    } else {
        assert(0 * slots == 0) by (nonlinear_arith);
    }
}

proof fn lemma_mask_bit(points: Seq<LivePoint>, slots: nat, i: int, slot: int)
    requires
        0 <= i < points.len(),
        0 <= slot < slots,
    ensures
        i * slots + slot < live_mask_bits(points, slots).len(),
        live_mask_bits(points, slots)[i * slots + slot] == low_bits(points[i].mask as nat, slots)[slot],
    decreases points.len(),
{
    let front = points.drop_last();
    lemma_mask_len(points, slots);
    lemma_mask_len(front, slots);
    assert(i * slots + slots <= points.len() * slots) by (nonlinear_arith)
        requires i + 1 <= points.len();
    if i < front.len() {
        lemma_mask_bit(front, slots, i, slot);
    }
}

/// The offsets of points that are sorted by offset are the sorted offsets.
proof fn lemma_insert_offsets(points: Seq<LivePoint>, x: LivePoint)
    ensures
        insert_by_key(points, x).map_values(|q: LivePoint| q.offset) =~= insert_by_key(
            points.map_values(|q: LivePoint| q.offset),
            x.offset,
        ),
    decreases points.len(),
{
    let offsets = points.map_values(|q: LivePoint| q.offset);
    if points.len() > 0 {
        assert(offsets.drop_last() =~= points.drop_last().map_values(|q: LivePoint| q.offset));
        if points.last().key() > x.key() {
            lemma_insert_offsets(points.drop_last(), x);
        }
    }
}

proof fn lemma_sorted_offsets(points: Seq<LivePoint>)
    ensures
        sort_by_key(points).map_values(|q: LivePoint| q.offset) =~= sort_by_key(
            points.map_values(|q: LivePoint| q.offset),
        ),
    decreases points.len(),
{
    let offsets = points.map_values(|q: LivePoint| q.offset);
    if points.len() > 0 {
        assert(offsets.drop_last() =~= points.drop_last().map_values(|q: LivePoint| q.offset));
        lemma_sorted_offsets(points.drop_last());
        lemma_insert_offsets(sort_by_key(points.drop_last()), points.last());
    }
}

/// In a method that is interrupted at safepoints only, the live state reads back:
/// at the `i`th safepoint of the header, each register slot has the bit that its
/// call gave it.
pub proof fn law_safepoint_state_reads_back(input: GcInfoInput, i: int, slot: int) -> (call: int)
    requires
        gc_info_error(input) is None,
        !fully_interruptible(input),
        0 <= i < input.safepoints@.len(),
        0 <= slot < input.reg_roots@.len() <= 32,
    ensures
        0 <= call < input.safepoints@.len(),
        input.safepoints[call] == header_of(input).safepoints[i],
        ({
            let bits = unpack(pack(gc_info_bits(input)));
            let at = table_bits(input).len();
            let n = input.reg_roots@.len();
            &&& !bits[at as int]
            &&& bits[at + 1 + i * n + slot] == low_bits(input.reg_live[call] as nat, 32)[slot]
        }),
{
    broadcast use vstd::seq_lib::group_to_multiset_ensures;

    let all = gc_info_bits(input);
    let bits = unpack(pack(all));
    law_unpack_pack(all);
    let n = input.reg_roots@.len();
    let points = live_points(input);
    let sorted = sort_by_key(points);
    law_sort_is_a_sorted_permutation(points);
    law_sort_is_a_sorted_permutation(input.safepoints@);
    lemma_mask_bit(sorted, n, i, slot);
    lemma_sorted_offsets(points);
    assert(points.map_values(|q: LivePoint| q.offset) =~= input.safepoints@);
    assert(sorted.map_values(|q: LivePoint| q.offset)[i] == sorted[i].offset);
    assert(sorted.to_multiset().count(sorted[i]) > 0);
    assert(points.contains(sorted[i]));
    let call = choose|j: int| 0 <= j < points.len() && points[j] == sorted[i];
    let state = safepoint_state_bits(input);
    let at = table_bits(input).len();
    assert(0 <= i * n) by (nonlinear_arith)
        requires i >= 0;
    assert(all[at as int] == state[0]);
    assert(all[at + 1 + i * n + slot] == state[1 + i * n + slot]);
    call
}

} // verus!
