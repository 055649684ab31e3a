use rokajit_x64::error::CompileError;
use rokajit_x64::gcinfo::{
    ceil_log2, encode, CODE_LENGTH_ENCBASE, GC_FRAMEREG_REL,
    GENERICS_INST_CONTEXT_STACK_SLOT_ENCBASE, INTERRUPTIBLE_RANGE_DELTA1_ENCBASE,
    INTERRUPTIBLE_RANGE_DELTA2_ENCBASE, NORM_PROLOG_SIZE_ENCBASE, NUM_INTERRUPTIBLE_RANGES_ENCBASE,
    NUM_NORM_CODE_OFFSETS_PER_CHUNK, NUM_NORM_CODE_OFFSETS_PER_CHUNK_LOG2, NUM_REGISTERS_ENCBASE,
    NUM_SAFE_POINTS_ENCBASE, NUM_STACK_SLOTS_ENCBASE, NUM_UNTRACKED_SLOTS_ENCBASE,
    POINTER_SIZE_ENCBASE, REGISTER_DELTA_ENCBASE, REGISTER_ENCBASE, SIZE_OF_STACK_AREA_ENCBASE,
    STACK_BASE_REGISTER_ENCBASE, STACK_SLOT_DELTA_ENCBASE, STACK_SLOT_ENCBASE,
};
use rokajit_x64::metadata::{
    GcInfoInput, GcReturnReg, GcRootSlot, GenericsContext, GenericsContextGcInfo,
};

fn input(code_len: u32, safepoints: &[u32]) -> GcInfoInput {
    GcInfoInput {
        code_len,
        frame_size: 32,
        gc_roots: Vec::new(),
        safepoints: safepoints.to_vec(),
        reg_roots: Vec::new(),
        reg_live: Vec::new(),
        reg_home_end: Vec::new(),
        interruptible_ranges: Vec::new(),
        has_funclets: false,
        outgoing_area_size: 0,
        generics_context: None,
    }
}

struct Reader<'a> {
    bytes: &'a [u8],
    bit: usize,
}

impl Reader<'_> {
    fn read(&mut self, count: u32) -> u64 {
        let mut value = 0u64;
        for i in 0..count {
            let b = (self.bytes[self.bit / 8] >> (self.bit % 8)) & 1;
            value |= u64::from(b) << i;
            self.bit += 1;
        }
        value
    }

    fn read_varl_u(&mut self, base: u32) -> u64 {
        let mut value = 0u64;
        let mut shift = 0;
        loop {
            let chunk = self.read(base + 1);
            value |= (chunk & ((1 << base) - 1)) << shift;
            if chunk & (1 << base) == 0 {
                return value;
            }
            shift += base;
        }
    }

    fn read_varl_s(&mut self, base: u32) -> i64 {
        let mut value = 0i64;
        let mut shift = 0;
        loop {
            let chunk = self.read(base + 1);
            value |= ((chunk & ((1 << base) - 1)) as i64) << shift;
            if chunk & (1 << base) == 0 {
                let sbits = 64 - (shift + base);
                return (value << sbits) >> sbits;
            }
            shift += base;
        }
    }
}

#[test]
fn fib_blob_is_byte_exact() {
    let blob = encode(&input(73, &[37, 56])).expect("encodes");
    assert_eq!(blob, [0x26, 0x51, 0x09, 0x07]);
}

#[test]
fn fib_blob_decodes_back() {
    let blob = encode(&input(73, &[37, 56])).expect("encodes");
    let mut r = Reader {
        bytes: &blob,
        bit: 0,
    };
    assert_eq!(r.read(1), 0, "slim header");
    assert_eq!(r.read(1), 1, "rbp stack base register");
    assert_eq!(r.read_varl_u(CODE_LENGTH_ENCBASE), 73);
    assert_eq!(r.read_varl_u(NUM_SAFE_POINTS_ENCBASE), 2);
    assert_eq!(r.read(7), 37, "first call's return address");
    assert_eq!(r.read(7), 56, "second call's return address");
    assert_eq!(r.read(1), 0, "no register slots");
    assert_eq!(r.read(1), 0, "no stack/untracked slots");
    assert_eq!(r.bit, 30, "30 bits = 4 bytes, 2 padding");
}

#[test]
fn leaf_method_blob() {
    let blob = encode(&input(9, &[])).expect("encodes");
    assert_eq!(blob, [0x26, 0x00]);
    let mut r = Reader {
        bytes: &blob,
        bit: 0,
    };
    assert_eq!(r.read(1), 0);
    assert_eq!(r.read(1), 1);
    assert_eq!(r.read_varl_u(CODE_LENGTH_ENCBASE), 9);
    assert_eq!(r.read_varl_u(NUM_SAFE_POINTS_ENCBASE), 0);
    assert_eq!(r.read(1), 0);
    assert_eq!(r.read(1), 0);
}

#[test]
fn code_length_varl_continuation() {
    let blob = encode(&input(300, &[])).expect("encodes");
    let mut r = Reader {
        bytes: &blob,
        bit: 0,
    };
    assert_eq!(r.read(1), 0);
    assert_eq!(r.read(1), 1);
    assert_eq!(r.read_varl_u(CODE_LENGTH_ENCBASE), 300);
    assert_eq!(r.read_varl_u(NUM_SAFE_POINTS_ENCBASE), 0);
}

#[test]
fn safepoint_bit_width_follows_code_length() {
    let blob = encode(&input(300, &[300])).expect("encodes");
    let mut r = Reader {
        bytes: &blob,
        bit: 0,
    };
    assert_eq!(r.read(2), 0b10, "slim + sbr");
    assert_eq!(r.read_varl_u(CODE_LENGTH_ENCBASE), 300);
    assert_eq!(r.read_varl_u(NUM_SAFE_POINTS_ENCBASE), 1);
    assert_eq!(r.read(9), 300, "the last byte is the safepoint");
}

fn read_untracked_slot(r: &mut Reader, delta_from: Option<(i32, u64)>) -> (i32, u64) {
    assert_eq!(r.read(2), GC_FRAMEREG_REL, "rbp-based frame slot");
    match delta_from {
        Some((last_norm, flags)) => {
            let delta = r.read_varl_u(STACK_SLOT_DELTA_ENCBASE) as i32;
            (last_norm + delta, flags)
        }
        None => {
            let norm = r.read_varl_s(STACK_SLOT_ENCBASE) as i32;
            let flags = r.read(2);
            (norm, flags)
        }
    }
}

fn root(offset: u32, is_byref: bool, pinned: bool) -> GcRootSlot {
    GcRootSlot {
        offset,
        is_byref,
        pinned,
    }
}

#[test]
fn one_live_ref_local_blob_is_byte_exact() {
    let mut i = input(9, &[]);
    i.gc_roots.push(root(8, false, false));
    let blob = encode(&i).expect("encodes");
    assert_eq!(blob, [0x26, 0x80, 0xC8, 0x1F]);
}

#[test]
fn live_ref_local_across_a_call_decodes_back() {
    let mut i = input(73, &[37, 56]);
    i.gc_roots.push(root(16, false, false));
    let blob = encode(&i).expect("encodes");
    let mut r = Reader {
        bytes: &blob,
        bit: 0,
    };
    assert_eq!(r.read(1), 0, "slim header");
    assert_eq!(r.read(1), 1, "rbp stack base register");
    assert_eq!(r.read_varl_u(CODE_LENGTH_ENCBASE), 73);
    assert_eq!(r.read_varl_u(NUM_SAFE_POINTS_ENCBASE), 2);
    assert_eq!(r.read(7), 37);
    assert_eq!(r.read(7), 56);
    assert_eq!(r.read(1), 0, "no register slots");
    assert_eq!(r.read(1), 1, "stack slots follow");
    assert_eq!(r.read_varl_u(NUM_STACK_SLOTS_ENCBASE), 0, "none tracked");
    assert_eq!(r.read_varl_u(NUM_UNTRACKED_SLOTS_ENCBASE), 1);
    assert_eq!(read_untracked_slot(&mut r, None), (-2, 0), "rbp - 16");
    assert!(blob.len() * 8 - r.bit < 8, "only padding remains");
}

#[test]
fn same_flag_slots_delta_encode_in_ascending_order() {
    let mut i = input(9, &[]);
    i.gc_roots.push(root(8, false, false));
    i.gc_roots.push(root(24, false, false));
    let blob = encode(&i).expect("encodes");
    let mut r = Reader {
        bytes: &blob,
        bit: 0,
    };
    assert_eq!(r.read(2), 0b10);
    assert_eq!(r.read_varl_u(CODE_LENGTH_ENCBASE), 9);
    assert_eq!(r.read_varl_u(NUM_SAFE_POINTS_ENCBASE), 0);
    assert_eq!(r.read(1), 0);
    assert_eq!(r.read(1), 1);
    assert_eq!(r.read_varl_u(NUM_STACK_SLOTS_ENCBASE), 0);
    assert_eq!(r.read_varl_u(NUM_UNTRACKED_SLOTS_ENCBASE), 2);
    let first = read_untracked_slot(&mut r, None);
    assert_eq!(first, (-3, 0), "the deeper slot first (ascending norm)");
    let second = read_untracked_slot(&mut r, Some(first));
    assert_eq!(second, (-1, 0), "delta of 2 to rbp - 8");
}

#[test]
fn a_flag_change_forces_the_full_slot_form() {
    let mut i = input(9, &[]);
    i.gc_roots.push(root(16, false, false));
    i.gc_roots.push(root(8, true, false));
    let blob = encode(&i).expect("encodes");
    let mut r = Reader {
        bytes: &blob,
        bit: 0,
    };
    assert_eq!(r.read(2), 0b10);
    assert_eq!(r.read_varl_u(CODE_LENGTH_ENCBASE), 9);
    assert_eq!(r.read_varl_u(NUM_SAFE_POINTS_ENCBASE), 0);
    assert_eq!(r.read(1), 0);
    assert_eq!(r.read(1), 1);
    assert_eq!(r.read_varl_u(NUM_STACK_SLOTS_ENCBASE), 0);
    assert_eq!(r.read_varl_u(NUM_UNTRACKED_SLOTS_ENCBASE), 2);
    let first = read_untracked_slot(&mut r, None);
    assert_eq!(first, (-1, 1), "rbp - 8, interior");
    let second = read_untracked_slot(&mut r, None);
    assert_eq!(second, (-2, 0));
}

#[test]
fn consecutive_byref_roots_both_take_the_full_form() {
    let mut i = input(9, &[]);
    i.gc_roots.push(root(16, true, false));
    i.gc_roots.push(root(8, true, false));
    i.gc_roots.push(root(24, false, false));
    let blob = encode(&i).expect("encodes");
    let mut r = Reader {
        bytes: &blob,
        bit: 0,
    };
    assert_eq!(r.read(2), 0b10);
    assert_eq!(r.read_varl_u(CODE_LENGTH_ENCBASE), 9);
    assert_eq!(r.read_varl_u(NUM_SAFE_POINTS_ENCBASE), 0);
    assert_eq!(r.read(2), 0b10);
    assert_eq!(r.read_varl_u(NUM_STACK_SLOTS_ENCBASE), 0);
    assert_eq!(r.read_varl_u(NUM_UNTRACKED_SLOTS_ENCBASE), 3);
    assert_eq!(read_untracked_slot(&mut r, None), (-2, 1));
    assert_eq!(read_untracked_slot(&mut r, None), (-1, 1));
    assert_eq!(read_untracked_slot(&mut r, None), (-3, 0));
}

#[test]
fn plain_roots_after_flagged_delta_encode() {
    let mut i = input(9, &[]);
    i.gc_roots.push(root(8, true, false));
    i.gc_roots.push(root(16, false, false));
    i.gc_roots.push(root(24, false, false));
    let blob = encode(&i).expect("encodes");
    let mut r = Reader {
        bytes: &blob,
        bit: 0,
    };
    assert_eq!(r.read(2), 0b10);
    assert_eq!(r.read_varl_u(CODE_LENGTH_ENCBASE), 9);
    assert_eq!(r.read_varl_u(NUM_SAFE_POINTS_ENCBASE), 0);
    assert_eq!(r.read(2), 0b10);
    assert_eq!(r.read_varl_u(NUM_STACK_SLOTS_ENCBASE), 0);
    assert_eq!(r.read_varl_u(NUM_UNTRACKED_SLOTS_ENCBASE), 3);
    assert_eq!(
        read_untracked_slot(&mut r, None),
        (-1, 1),
        "the byref first"
    );
    assert_eq!(
        read_untracked_slot(&mut r, None),
        (-3, 0),
        "flag change: full"
    );
    assert_eq!(
        read_untracked_slot(&mut r, Some((-3, 0))),
        (-2, 0),
        "delta +1 from the previous plain ref"
    );
}

fn read_register_slots(r: &mut Reader) -> Vec<(u32, u64)> {
    assert_eq!(r.read(1), 1, "register slots follow");
    let count = r.read_varl_u(NUM_REGISTERS_ENCBASE) as usize;
    assert_eq!(r.read(1), 0, "no stack slots in these tests");
    let mut slots = Vec::with_capacity(count);
    let mut last_reg = 0u32;
    let mut last_flags = 0u64;
    for i in 0..count {
        if i == 0 || last_flags != 0 {
            let reg = r.read_varl_u(REGISTER_ENCBASE) as u32;
            let flags = r.read(2);
            slots.push((reg, flags));
            last_reg = reg;
            last_flags = flags;
        } else {
            let delta = r.read_varl_u(REGISTER_DELTA_ENCBASE) as u32 + 1;
            slots.push((last_reg + delta, 0));
            last_reg += delta;
            last_flags = 0;
        }
    }
    slots
}

#[test]
fn byref_return_register_is_live_at_its_own_safepoint_only() {
    let mut i = input(73, &[37, 56]);
    i.reg_roots.push(GcReturnReg {
        reg: 0,
        interior: true,
    });
    i.reg_live = vec![0b1, 0b0];
    i.reg_home_end = vec![0, 0];
    let blob = encode(&i).expect("encodes");
    let mut r = Reader {
        bytes: &blob,
        bit: 0,
    };
    assert_eq!(r.read(2), 0b10, "slim + sbr");
    assert_eq!(r.read_varl_u(CODE_LENGTH_ENCBASE), 73);
    assert_eq!(r.read_varl_u(NUM_SAFE_POINTS_ENCBASE), 2);
    assert_eq!(r.read(7), 37);
    assert_eq!(r.read(7), 56);
    assert_eq!(read_register_slots(&mut r), vec![(0, 1)], "rax, interior");
    assert_eq!(r.read(1), 0, "the direct (non-indirect) form");
    assert_eq!(r.read(1), 1, "rax live at the first safepoint");
    assert_eq!(r.read(1), 0, "rax dead at the second");
    assert!(blob.len() * 8 - r.bit < 8, "only padding remains");
}

#[test]
fn flagged_registers_sort_before_plain_ones() {
    let mut i = input(73, &[37, 56]);
    i.reg_roots.push(GcReturnReg {
        reg: 2,
        interior: true,
    });
    i.reg_roots.push(GcReturnReg {
        reg: 0,
        interior: false,
    });
    i.reg_live = vec![0b01, 0b10];
    i.reg_home_end = vec![0, 0];
    let blob = encode(&i).expect("encodes");
    let mut r = Reader {
        bytes: &blob,
        bit: 0,
    };
    assert_eq!(r.read(2), 0b10);
    assert_eq!(r.read_varl_u(CODE_LENGTH_ENCBASE), 73);
    assert_eq!(r.read_varl_u(NUM_SAFE_POINTS_ENCBASE), 2);
    assert_eq!(r.read(7), 37);
    assert_eq!(r.read(7), 56);
    assert_eq!(
        read_register_slots(&mut r),
        vec![(2, 1), (0, 0)],
        "rdx interior first (full form), then plain rax in full form after a flagged predecessor"
    );
    assert_eq!(r.read(1), 0, "direct form");
    assert_eq!(r.read(1), 1);
    assert_eq!(r.read(1), 0);
    assert_eq!(r.read(1), 0);
    assert_eq!(r.read(1), 1);
    assert!(blob.len() * 8 - r.bit < 8, "only padding remains");
}

#[test]
fn plain_register_roots_delta_encode() {
    let mut i = input(73, &[37]);
    i.reg_roots.push(GcReturnReg {
        reg: 0,
        interior: false,
    });
    i.reg_roots.push(GcReturnReg {
        reg: 2,
        interior: false,
    });
    i.reg_live = vec![0b11];
    i.reg_home_end = vec![0];
    let blob = encode(&i).expect("encodes");
    let mut r = Reader {
        bytes: &blob,
        bit: 0,
    };
    assert_eq!(r.read(2), 0b10);
    assert_eq!(r.read_varl_u(CODE_LENGTH_ENCBASE), 73);
    assert_eq!(r.read_varl_u(NUM_SAFE_POINTS_ENCBASE), 1);
    assert_eq!(r.read(7), 37);
    assert_eq!(
        read_register_slots(&mut r),
        vec![(0, 0), (2, 0)],
        "rax full form, rdx as delta (2 - 0 - 1 = 1)"
    );
    assert_eq!(r.read(1), 0, "direct form");
    assert_eq!(r.read(1), 1, "rax live");
    assert_eq!(r.read(1), 1, "rdx live");
    assert!(blob.len() * 8 - r.bit < 8, "only padding remains");
}

#[test]
fn register_roots_reject_bad_order() {
    let mut i = input(73, &[37]);
    i.reg_roots.push(GcReturnReg {
        reg: 0,
        interior: false,
    });
    i.reg_roots.push(GcReturnReg {
        reg: 2,
        interior: true,
    });
    i.reg_live = vec![0b11];
    i.reg_home_end = vec![45];
    assert!(
        matches!(encode(&i), Err(CompileError::Internal(_))),
        "a flagged register after a plain one breaks the delta rule"
    );
}

fn decode_eh_live_regs(
    r: &mut Reader,
    ranges: &[(u32, u32)],
    nregs: usize,
    native_break: u32,
) -> Vec<usize> {
    let mut pseudo = None;
    let mut acc = 0u32;
    for &(start, end) in ranges {
        if native_break >= start && native_break < end {
            pseudo = Some(acc + native_break - start);
        }
        acc += end - start;
    }
    let pseudo = pseudo.expect("the break is inside a range");
    let total = acc;
    let num_chunks = total.div_ceil(NUM_NORM_CODE_OFFSETS_PER_CHUNK);
    let num_bits = r.read_varl_u(POINTER_SIZE_ENCBASE) as u32;
    assert!(num_bits > 0, "register roots: a pointer table exists");
    let table_pos = r.bit;
    let chunks_start = (table_pos + num_chunks as usize * num_bits as usize + 7) & !7;
    let mut chunk = (pseudo / NUM_NORM_CODE_OFFSETS_PER_CHUNK) as usize;
    let pointer = loop {
        r.bit = table_pos + chunk * num_bits as usize;
        let p = r.read(num_bits) as usize;
        if p != 0 {
            break p;
        }
        assert!(chunk > 0, "no active chunk at or before the break");
        chunk -= 1;
    };
    r.bit = chunks_start + pointer - 1;
    assert_eq!(r.read(1), 0, "the simple (non-RLE) vector");
    let could_be_live: Vec<bool> = (0..nregs).map(|_| r.read(1) == 1).collect();
    let nlive = could_be_live.iter().filter(|&&b| b).count();
    let mut final_reader = Reader {
        bytes: r.bytes,
        bit: r.bit,
    };
    r.bit += nlive;
    let mut out = Vec::new();
    let break_delta = pseudo % NUM_NORM_CODE_OFFSETS_PER_CHUNK;
    for (slot, &cbl) in could_be_live.iter().enumerate() {
        if !cbl {
            continue;
        }
        let mut is_live = final_reader.read(1) == 1;
        if chunk == (pseudo / NUM_NORM_CODE_OFFSETS_PER_CHUNK) as usize {
            while r.read(1) == 1 {
                let off = r.read(NUM_NORM_CODE_OFFSETS_PER_CHUNK_LOG2) as u32;
                if off > break_delta {
                    is_live = !is_live;
                }
            }
        }
        if is_live {
            out.push(slot);
        }
    }
    out
}

#[test]
fn eh_register_root_live_exactly_inside_its_window() {
    let mut i = eh_input();
    i.reg_roots.push(GcReturnReg {
        reg: 0,
        interior: true,
    });
    i.safepoints = vec![50];
    i.reg_live = vec![0b1];
    i.reg_home_end = vec![56];
    let blob = encode(&i).expect("encodes");
    let ranges = i.interruptible_ranges.clone();
    let live_at = |native: u32| {
        let mut r = Reader {
            bytes: &blob,
            bit: 0,
        };
        assert_eq!(r.read(1), 1, "fat header");
        assert_eq!(r.read(10), 0xC0, "SBR | report-only-leaf");
        assert_eq!(r.read_varl_u(CODE_LENGTH_ENCBASE), 100);
        assert_eq!(r.read_varl_u(STACK_BASE_REGISTER_ENCBASE), 0);
        assert_eq!(r.read_varl_u(SIZE_OF_STACK_AREA_ENCBASE), 0);
        assert_eq!(r.read_varl_u(NUM_SAFE_POINTS_ENCBASE), 0);
        assert_eq!(
            r.read_varl_u(NUM_INTERRUPTIBLE_RANGES_ENCBASE),
            ranges.len() as u64
        );
        let mut last_stop = 0;
        for _ in 0..ranges.len() {
            let (start, stop) = read_range(&mut r, last_stop);
            last_stop = stop;
            let _ = start;
        }
        assert_eq!(r.read(1), 1, "register slots follow");
        assert_eq!(r.read_varl_u(NUM_REGISTERS_ENCBASE), 1);
        assert_eq!(r.read(1), 0, "no stack slots");
        assert_eq!(r.read_varl_u(REGISTER_ENCBASE), 0, "rax");
        assert_eq!(r.read(2), 1, "interior");
        decode_eh_live_regs(&mut r, &ranges, 1, native)
    };
    assert_eq!(live_at(53), vec![0], "inside the window");
    assert!(live_at(60).is_empty(), "after homing");
    assert!(live_at(40).is_empty(), "before the call returns");
    assert!(
        live_at(90).is_empty(),
        "in the funclet range, past an empty chunk (walk-back)"
    );
}

#[test]
fn eh_register_window_crossing_a_chunk_boundary() {
    let mut i = eh_input();
    i.reg_roots.push(GcReturnReg {
        reg: 0,
        interior: true,
    });
    i.safepoints = vec![70];
    i.reg_live = vec![0b1];
    i.reg_home_end = vec![73];
    let blob = encode(&i).expect("encodes");
    let ranges = i.interruptible_ranges.clone();
    let live_at = |native: u32| {
        let mut r = Reader {
            bytes: &blob,
            bit: 0,
        };
        assert_eq!(r.read(1), 1);
        r.read(10);
        assert_eq!(r.read_varl_u(CODE_LENGTH_ENCBASE), 100);
        r.read_varl_u(STACK_BASE_REGISTER_ENCBASE);
        r.read_varl_u(SIZE_OF_STACK_AREA_ENCBASE);
        r.read_varl_u(NUM_SAFE_POINTS_ENCBASE);
        r.read_varl_u(NUM_INTERRUPTIBLE_RANGES_ENCBASE);
        let mut last_stop = 0;
        for _ in 0..ranges.len() {
            last_stop = read_range(&mut r, last_stop).1;
        }
        r.read(1);
        r.read_varl_u(NUM_REGISTERS_ENCBASE);
        r.read(1);
        r.read_varl_u(REGISTER_ENCBASE);
        r.read(2);
        decode_eh_live_regs(&mut r, &ranges, 1, native)
    };
    assert_eq!(live_at(71), vec![0], "pseudo 63: inside, chunk 0");
    assert_eq!(live_at(72), vec![0], "pseudo 64: inside, chunk 1");
    assert!(
        live_at(90).is_empty(),
        "pseudo 71 (funclet range): homed — dead"
    );
    assert!(live_at(50).is_empty(), "before the call");
}

#[test]
fn pinned_sets_the_second_flag_bit() {
    let mut i = input(9, &[]);
    i.gc_roots.push(root(8, false, true));
    let blob = encode(&i).expect("encodes");
    let mut r = Reader {
        bytes: &blob,
        bit: 0,
    };
    assert_eq!(r.read(2), 0b10);
    assert_eq!(r.read_varl_u(CODE_LENGTH_ENCBASE), 9);
    assert_eq!(r.read_varl_u(NUM_SAFE_POINTS_ENCBASE), 0);
    assert_eq!(r.read(2), 0b10, "no register slots, stack slots follow");
    assert_eq!(r.read_varl_u(NUM_STACK_SLOTS_ENCBASE), 0);
    assert_eq!(r.read_varl_u(NUM_UNTRACKED_SLOTS_ENCBASE), 1);
    assert_eq!(read_untracked_slot(&mut r, None), (-1, 2));
}

#[test]
fn misaligned_root_is_an_internal_error() {
    let mut i = input(9, &[]);
    i.gc_roots.push(root(4, false, false));
    assert!(matches!(encode(&i), Err(CompileError::Internal(_))));
}

#[test]
fn ceil_log2_boundaries() {
    assert_eq!(ceil_log2(0), 0);
    assert_eq!(ceil_log2(1), 0);
    assert_eq!(ceil_log2(2), 1);
    assert_eq!(ceil_log2(64), 6);
    assert_eq!(ceil_log2(73), 7);
    assert_eq!(ceil_log2(128), 7);
    assert_eq!(ceil_log2(129), 8);
}

fn eh_input() -> GcInfoInput {
    GcInfoInput {
        code_len: 100,
        interruptible_ranges: vec![(8, 73), (84, 96)],
        has_funclets: true,
        ..input(100, &[37, 56])
    }
}

fn read_range(r: &mut Reader, last_stop: u32) -> (u32, u32) {
    let start = last_stop + r.read_varl_u(INTERRUPTIBLE_RANGE_DELTA1_ENCBASE) as u32;
    let stop = start + r.read_varl_u(INTERRUPTIBLE_RANGE_DELTA2_ENCBASE) as u32 + 1;
    (start, stop)
}

#[test]
fn empty_ranges_keep_the_slim_encoding() {
    let blob = encode(&input(73, &[37, 56])).expect("encodes");
    assert_eq!(blob, [0x26, 0x51, 0x09, 0x07], "the fib blob");
    assert_eq!(blob[0] & 1, 0, "slim bit");
}

#[test]
fn fat_header_blob_is_byte_exact() {
    let blob = encode(&eh_input()).expect("encodes");
    assert_eq!(blob, [0x81, 0x21, 0x03, 0x00, 0x43, 0x00, 0x03, 0x8B, 0x05]);
}

#[test]
fn fat_header_decodes_back() {
    let mut i = eh_input();
    i.outgoing_area_size = 32;
    i.gc_roots.push(root(16, false, false));
    let blob = encode(&i).expect("encodes");
    let mut r = Reader {
        bytes: &blob,
        bit: 0,
    };
    assert_eq!(r.read(1), 1, "fat header");
    assert_eq!(
        r.read(10),
        0xC0,
        "HAS_STACK_BASE_REGISTER | WANTS_REPORT_ONLY_LEAF"
    );
    assert_eq!(
        r.read_varl_u(CODE_LENGTH_ENCBASE),
        100,
        "TOTAL code length (main + funclet)"
    );
    assert_eq!(
        r.read_varl_u(STACK_BASE_REGISTER_ENCBASE),
        0,
        "rbp normalizes to 0"
    );
    assert_eq!(r.read_varl_u(SIZE_OF_STACK_AREA_ENCBASE), 4, "32 >> 3");
    assert_eq!(r.read_varl_u(NUM_SAFE_POINTS_ENCBASE), 0, "no safepoints");
    assert_eq!(r.read_varl_u(NUM_INTERRUPTIBLE_RANGES_ENCBASE), 2);
    let first = read_range(&mut r, 0);
    assert_eq!(first, (8, 73), "the main body range");
    let second = read_range(&mut r, first.1);
    assert_eq!(second, (84, 96), "the funclet body range");
    assert_eq!(r.read(1), 0, "no register slots");
    assert_eq!(r.read(1), 1, "stack slots follow");
    assert_eq!(r.read_varl_u(NUM_STACK_SLOTS_ENCBASE), 0, "none tracked");
    assert_eq!(r.read_varl_u(NUM_UNTRACKED_SLOTS_ENCBASE), 1);
    assert_eq!(read_untracked_slot(&mut r, None), (-2, 0), "rbp - 16");
    assert_eq!(r.read_varl_u(POINTER_SIZE_ENCBASE), 0);
    assert!(blob.len() * 8 - r.bit < 8, "only padding remains");
}

#[test]
fn filter_funclet_adds_an_interruptible_range() {
    let mut i = eh_input();
    i.code_len = 130;
    i.interruptible_ranges.push((105, 121));
    let blob = encode(&i).expect("encodes");
    let mut r = Reader {
        bytes: &blob,
        bit: 0,
    };
    assert_eq!(r.read(1), 1, "fat header");
    assert_eq!(r.read(10), 0xC0, "SBR | WANTS_REPORT_ONLY_LEAF");
    assert_eq!(r.read_varl_u(CODE_LENGTH_ENCBASE), 130, "TOTAL code length");
    assert_eq!(r.read_varl_u(STACK_BASE_REGISTER_ENCBASE), 0);
    assert_eq!(r.read_varl_u(SIZE_OF_STACK_AREA_ENCBASE), 0);
    assert_eq!(r.read_varl_u(NUM_SAFE_POINTS_ENCBASE), 0);
    assert_eq!(r.read_varl_u(NUM_INTERRUPTIBLE_RANGES_ENCBASE), 3);
    let first = read_range(&mut r, 0);
    assert_eq!(first, (8, 73), "the main body range");
    let second = read_range(&mut r, first.1);
    assert_eq!(second, (84, 96), "the handler funclet body");
    let third = read_range(&mut r, second.1);
    assert_eq!(third, (105, 121), "the filter funclet body");
}

#[test]
fn loop_method_blob_carries_ranges_without_report_only_leaf() {
    let mut i = input(58, &[40]);
    i.interruptible_ranges = vec![(8, 42), (44, 58)];
    i.gc_roots.push(root(16, false, false));
    let blob = encode(&i).expect("encodes");
    let mut r = Reader {
        bytes: &blob,
        bit: 0,
    };
    assert_eq!(r.read(1), 1, "fat header");
    assert_eq!(
        r.read(10),
        0x40,
        "HAS_STACK_BASE_REGISTER only — no funclets, no report-only-leaf"
    );
    assert_eq!(r.read_varl_u(CODE_LENGTH_ENCBASE), 58);
    assert_eq!(r.read_varl_u(STACK_BASE_REGISTER_ENCBASE), 0);
    assert_eq!(r.read_varl_u(SIZE_OF_STACK_AREA_ENCBASE), 0);
    assert_eq!(
        r.read_varl_u(NUM_SAFE_POINTS_ENCBASE),
        0,
        "fully interruptible: the safepoint count is 0 even though the input lists the call"
    );
    assert_eq!(r.read_varl_u(NUM_INTERRUPTIBLE_RANGES_ENCBASE), 2);
    let first = read_range(&mut r, 0);
    assert_eq!(first, (8, 42), "the body up to the epilog");
    let second = read_range(&mut r, first.1);
    assert_eq!(second, (44, 58), "the loop body after the exit block");
    assert_eq!(r.read(1), 0, "no register slots");
    assert_eq!(r.read(1), 1, "stack slots follow");
    assert_eq!(r.read_varl_u(NUM_STACK_SLOTS_ENCBASE), 0);
    assert_eq!(r.read_varl_u(NUM_UNTRACKED_SLOTS_ENCBASE), 1);
    assert_eq!(read_untracked_slot(&mut r, None), (-2, 0), "rbp - 16");
    assert_eq!(r.read_varl_u(POINTER_SIZE_ENCBASE), 0);
    assert!(blob.len() * 8 - r.bit < 8, "only padding remains");
}

#[test]
fn loop_method_register_root_window_decodes_at_any_offset() {
    let mut i = input(58, &[40]);
    i.interruptible_ranges = vec![(8, 42), (44, 58)];
    i.reg_roots.push(GcReturnReg {
        reg: 0,
        interior: true,
    });
    i.reg_live = vec![0b1];
    i.reg_home_end = vec![46];
    let blob = encode(&i).expect("encodes");
    let ranges = i.interruptible_ranges.clone();
    let live_at = |native: u32| {
        let mut r = Reader {
            bytes: &blob,
            bit: 0,
        };
        assert_eq!(r.read(1), 1, "fat header");
        assert_eq!(r.read(10), 0x40, "no report-only-leaf");
        assert_eq!(r.read_varl_u(CODE_LENGTH_ENCBASE), 58);
        assert_eq!(r.read_varl_u(STACK_BASE_REGISTER_ENCBASE), 0);
        assert_eq!(r.read_varl_u(SIZE_OF_STACK_AREA_ENCBASE), 0);
        assert_eq!(r.read_varl_u(NUM_SAFE_POINTS_ENCBASE), 0);
        assert_eq!(r.read_varl_u(NUM_INTERRUPTIBLE_RANGES_ENCBASE), 2);
        let mut last_stop = 0;
        for _ in 0..ranges.len() {
            last_stop = read_range(&mut r, last_stop).1;
        }
        assert_eq!(r.read(1), 1, "register slots follow");
        assert_eq!(r.read_varl_u(NUM_REGISTERS_ENCBASE), 1);
        assert_eq!(r.read(1), 0, "no stack slots");
        assert_eq!(r.read_varl_u(REGISTER_ENCBASE), 0, "rax");
        assert_eq!(r.read(2), 1, "interior");
        decode_eh_live_regs(&mut r, &ranges, 1, native)
    };
    assert!(live_at(39).is_empty(), "before the call returns");
    assert_eq!(live_at(40), vec![0], "at the return address");
    assert_eq!(live_at(45), vec![0], "inside the window, second range");
    assert!(live_at(46).is_empty(), "homed: dead from here on");
    assert!(live_at(57).is_empty(), "dead at the loop's back edge");
    assert!(live_at(20).is_empty(), "dead mid-loop, before the call");
}

#[test]
fn bad_ranges_are_internal_errors() {
    let mut i = eh_input();
    i.interruptible_ranges = vec![(8, 8)];
    assert!(matches!(encode(&i), Err(CompileError::Internal(_))));
    let mut i = eh_input();
    i.interruptible_ranges = vec![(8, 73), (72, 96)];
    assert!(matches!(encode(&i), Err(CompileError::Internal(_))));
    let mut i = eh_input();
    i.outgoing_area_size = 12;
    assert!(matches!(encode(&i), Err(CompileError::Internal(_))));
}

#[test]
fn generics_context_forces_the_fat_header() {
    let mut i = input(73, &[37, 56]);
    i.generics_context = Some(GenericsContextGcInfo {
        slot_offset: -16,
        kind: GenericsContext::MethodDesc,
        prolog_end: 8,
    });
    let blob = encode(&i).expect("encodes");
    let mut r = Reader {
        bytes: &blob,
        bit: 0,
    };
    assert_eq!(r.read(1), 1, "fat header");
    assert_eq!(
        r.read(10),
        0x60,
        "HAS_STACK_BASE_REGISTER | contextParamType=MD (0x20)"
    );
    assert_eq!(r.read_varl_u(CODE_LENGTH_ENCBASE), 73);
    assert_eq!(
        r.read_varl_u(NORM_PROLOG_SIZE_ENCBASE),
        7,
        "normPrologSize - 1"
    );
    assert_eq!(
        r.read_varl_s(GENERICS_INST_CONTEXT_STACK_SLOT_ENCBASE),
        -2,
        "the context slot at rbp - 16"
    );
    assert_eq!(r.read_varl_u(STACK_BASE_REGISTER_ENCBASE), 0);
    assert_eq!(r.read_varl_u(SIZE_OF_STACK_AREA_ENCBASE), 0);
    assert_eq!(r.read_varl_u(NUM_SAFE_POINTS_ENCBASE), 2);
    assert_eq!(
        r.read_varl_u(NUM_INTERRUPTIBLE_RANGES_ENCBASE),
        0,
        "partially interruptible: no ranges"
    );
    assert_eq!(r.read(7), 37);
    assert_eq!(r.read(7), 56);
    assert_eq!(r.read(1), 0, "no register slots");
    assert_eq!(r.read(1), 0, "no stack/untracked slots");
    assert!(blob.len() * 8 - r.bit < 8, "only padding remains");
}

#[test]
fn generics_context_and_a_safepoint_encode_together() {
    let mut i = input(40, &[22]);
    i.generics_context = Some(GenericsContextGcInfo {
        slot_offset: -16,
        kind: GenericsContext::MethodTable,
        prolog_end: 8,
    });
    let blob = encode(&i).expect("encodes");
    let mut r = Reader {
        bytes: &blob,
        bit: 0,
    };
    assert_eq!(r.read(1), 1, "fat header");
    assert_eq!(
        r.read(10),
        0x50,
        "HAS_STACK_BASE_REGISTER | contextParamType=MT (0x10)"
    );
    assert_eq!(r.read_varl_u(CODE_LENGTH_ENCBASE), 40);
    assert_eq!(r.read_varl_u(NORM_PROLOG_SIZE_ENCBASE), 7);
    assert_eq!(
        r.read_varl_s(GENERICS_INST_CONTEXT_STACK_SLOT_ENCBASE),
        -2,
        "the context slot at rbp - 16"
    );
    assert_eq!(r.read_varl_u(STACK_BASE_REGISTER_ENCBASE), 0);
    assert_eq!(r.read_varl_u(SIZE_OF_STACK_AREA_ENCBASE), 0);
    assert_eq!(r.read_varl_u(NUM_SAFE_POINTS_ENCBASE), 1);
    assert_eq!(r.read_varl_u(NUM_INTERRUPTIBLE_RANGES_ENCBASE), 0);
    assert_eq!(r.read(6), 22, "the safepoint (CeilOfLog2(40) = 6 bits)");
    assert_eq!(r.read(1), 0, "no register slots");
    assert_eq!(r.read(1), 0, "no stack/untracked slots");
    assert!(blob.len() * 8 - r.bit < 8, "only padding remains");
}

#[test]
fn generics_context_composes_with_the_eh_fat_path() {
    let mut i = eh_input();
    i.generics_context = Some(GenericsContextGcInfo {
        slot_offset: -8,
        kind: GenericsContext::This,
        prolog_end: 6,
    });
    let blob = encode(&i).expect("encodes");
    let mut r = Reader {
        bytes: &blob,
        bit: 0,
    };
    assert_eq!(r.read(1), 1, "fat header");
    assert_eq!(
        r.read(10),
        0xF0,
        "SBR | WANTS_REPORT_ONLY_LEAF | contextParamType=THIS (0x30)"
    );
    assert_eq!(r.read_varl_u(CODE_LENGTH_ENCBASE), 100);
    assert_eq!(r.read_varl_u(NORM_PROLOG_SIZE_ENCBASE), 5);
    assert_eq!(
        r.read_varl_s(GENERICS_INST_CONTEXT_STACK_SLOT_ENCBASE),
        -1,
        "the context slot at rbp - 8"
    );
    assert_eq!(r.read_varl_u(STACK_BASE_REGISTER_ENCBASE), 0);
    assert_eq!(r.read_varl_u(SIZE_OF_STACK_AREA_ENCBASE), 0);
    assert_eq!(r.read_varl_u(NUM_SAFE_POINTS_ENCBASE), 0);
    assert_eq!(r.read_varl_u(NUM_INTERRUPTIBLE_RANGES_ENCBASE), 2);
    let first = read_range(&mut r, 0);
    assert_eq!(first, (8, 73));
    let second = read_range(&mut r, first.1);
    assert_eq!(second, (84, 96));
    assert_eq!(r.read(1), 0, "no register slots");
    assert_eq!(r.read(1), 0, "no stack/untracked slots");
    assert!(blob.len() * 8 - r.bit < 8, "only padding remains");
}
