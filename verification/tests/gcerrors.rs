use rokajit_x64::error::CompileError;
use rokajit_x64::gcinfo::{context_param_type_bits, encode};
use rokajit_x64::metadata::{
    GcInfoInput, GcReturnReg, GcRootSlot, GenericsContext, GenericsContextGcInfo,
};

fn input() -> GcInfoInput {
    GcInfoInput {
        code_len: 100,
        frame_size: 32,
        gc_roots: Vec::new(),
        safepoints: vec![50],
        reg_roots: Vec::new(),
        reg_live: Vec::new(),
        reg_home_end: Vec::new(),
        interruptible_ranges: Vec::new(),
        has_funclets: false,
        outgoing_area_size: 0,
        generics_context: None,
    }
}

/// One register root, live from 50 to 56, in a method that can be interrupted
/// between 8 and 73 and between 84 and 96.
fn watched() -> GcInfoInput {
    GcInfoInput {
        reg_roots: vec![root(0, false)],
        reg_live: vec![1],
        reg_home_end: vec![56],
        interruptible_ranges: vec![(8, 73), (84, 96)],
        ..input()
    }
}

fn root(reg: u8, interior: bool) -> GcReturnReg {
    GcReturnReg { reg, interior }
}

fn context(slot_offset: i32, prolog_end: u32) -> Option<GenericsContextGcInfo> {
    Some(GenericsContextGcInfo {
        slot_offset,
        kind: GenericsContext::This,
        prolog_end,
    })
}

fn error(i: &GcInfoInput) -> &'static str {
    match encode(i) {
        Err(CompileError::Internal(message)) => message,
        other => panic!("encoded: {other:?}"),
    }
}

#[test]
fn context_kinds() {
    assert_eq!(context_param_type_bits(GenericsContext::MethodTable), 0x10);
    assert_eq!(context_param_type_bits(GenericsContext::MethodDesc), 0x20);
    assert_eq!(context_param_type_bits(GenericsContext::This), 0x30);
}

#[test]
fn contexts_that_cannot_be_reported() {
    let mut i = input();
    for end in [0, 100] {
        i.generics_context = context(-8, end);
        assert_eq!(
            error(&i),
            "generics-context prolog end outside the method body"
        );
    }
    i.generics_context = context(-12, 8);
    assert_eq!(error(&i), "generics-context slot not 8-aligned");
    i.generics_context = context(-16, 99);
    assert!(encode(&i).is_ok());
}

#[test]
fn fat_headers_that_cannot_be_written() {
    let mut i = watched();
    i.outgoing_area_size = 4;
    assert_eq!(error(&i), "outgoing argument area not 8-aligned");
    let mut i = watched();
    i.interruptible_ranges = vec![(84, 96), (8, 73)];
    assert_eq!(
        error(&i),
        "interruptible ranges not sorted, disjoint, and non-empty"
    );
}

#[test]
fn register_roots_that_cannot_be_reported() {
    let mut i = watched();
    i.safepoints = vec![];
    assert_eq!(
        error(&i),
        "register roots without safepoints (a return register is live at a call site)"
    );
    let mut i = watched();
    i.reg_live = vec![];
    assert_eq!(
        error(&i),
        "register live masks and home ends must parallel the safepoints"
    );
    let mut i = watched();
    i.reg_home_end = vec![56, 60];
    assert_eq!(
        error(&i),
        "register live masks and home ends must parallel the safepoints"
    );
    let mut i = watched();
    i.reg_roots = vec![root(2, false), root(0, false)];
    assert_eq!(
        error(&i),
        "register roots not in canonical (flagged-first, ascending) order"
    );
}

#[test]
fn windows_that_cannot_be_written() {
    let mut i = watched();
    i.reg_home_end = vec![50];
    assert_eq!(error(&i), "return-register window not forward");
    let mut i = watched();
    i.reg_home_end = vec![80];
    assert_eq!(
        error(&i),
        "return-register window outside the interruptible ranges"
    );
    let mut i = watched();
    i.safepoints = vec![50, 52];
    i.reg_live = vec![1, 1];
    i.reg_home_end = vec![56, 60];
    assert_eq!(error(&i), "overlapping return-register windows");
    let mut i = watched();
    i.safepoints = vec![73];
    i.reg_home_end = vec![84];
    assert_eq!(error(&i), "a return-register window starts dead");
    let mut i = watched();
    i.reg_live = vec![0];
    assert_eq!(error(&i), "register roots with no live window anywhere");
}

#[test]
fn more_registers_than_mask_bits_with_no_window() {
    let mut i = watched();
    i.reg_roots = (0..40).map(|r| root(r, false)).collect();
    i.reg_live = vec![0];
    assert_eq!(error(&i), "register roots with no live window anywhere");
}

#[test]
fn a_window_may_begin_where_another_ends() {
    let mut i = watched();
    i.safepoints = vec![50, 56];
    i.reg_live = vec![1, 1];
    i.reg_home_end = vec![56, 60];
    assert!(encode(&i).is_ok());
}

#[test]
fn the_first_error_is_reported() {
    let mut i = watched();
    i.outgoing_area_size = 4;
    i.safepoints = vec![];
    i.gc_roots = vec![GcRootSlot {
        offset: 4,
        is_byref: false,
        pinned: false,
    }];
    assert_eq!(error(&i), "outgoing argument area not 8-aligned");
    i.outgoing_area_size = 8;
    assert!(error(&i).starts_with("register roots without safepoints"));
    i.reg_roots = vec![];
    assert_eq!(error(&i), "GC-root slot not 8-aligned");
}
