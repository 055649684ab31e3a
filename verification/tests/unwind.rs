use rokajit_x64::error::CompileError;
use rokajit_x64::metadata::{CorJitFuncKind, FuncletInfo, UnwindInput};
use rokajit_x64::unwind::{
    encode, RBP, UWOP_ALLOC_LARGE, UWOP_ALLOC_SMALL, UWOP_PUSH_NONVOL, UWOP_SET_FPREG,
};

fn input(frame_size: u32) -> UnwindInput {
    UnwindInput {
        frame_size,
        code_len: 73,
        funclets: Vec::new(),
    }
}

#[test]
fn fib_unwind_blob_is_byte_exact() {
    let blobs = encode(&input(32)).expect("encodes");
    assert_eq!(blobs.len(), 1);
    let blob = &blobs[0];
    assert_eq!(blob.func_kind, CorJitFuncKind::Root);
    assert!(!blob.is_cold_code);
    assert_eq!((blob.start_offset, blob.end_offset), (0, 73));
    let expected: &[u8] = &[
        0x01,
        0x08,
        0x03,
        0x05,
        0x08, 0x32,
        0x04, 0x03,
        0x01, 0x50,
    ];
    assert_eq!(blob.bytes, expected);
}

#[test]
fn codes_actually_unwind_the_frame() {
    let mut stack = [0u64; 6];
    stack[5] = 0xDEAD;
    stack[4] = 0xBEEF;
    let (mut rsp, mut rbp) = (960u64, 992u64);
    let read = |addr: u64| stack[((addr - 960) / 8) as usize];

    let blob = encode(&input(32)).expect("encodes").remove(0);
    let count = blob.bytes[2] as usize;
    for i in 0..count {
        let op = blob.bytes[4 + 2 * i + 1] & 0xF;
        let op_info = blob.bytes[4 + 2 * i + 1] >> 4;
        match op {
            UWOP_ALLOC_SMALL => rsp += u64::from(op_info) * 8 + 8,
            UWOP_SET_FPREG => rsp = rbp,
            UWOP_PUSH_NONVOL => {
                assert_eq!(op_info, RBP);
                rbp = read(rsp);
                rsp += 8;
            }
            other => panic!("unexpected op {other}"),
        }
    }
    assert_eq!(rsp, 1000, "rsp now points at the return address");
    assert_eq!(rbp, 0xBEEF, "caller's rbp restored");
    assert_eq!(read(rsp), 0xDEAD);
}

#[test]
fn zero_frame_omits_the_alloc_code() {
    let blob = encode(&input(0)).expect("encodes").remove(0);
    let expected: &[u8] = &[
        0x01, 0x08, 0x02, 0x05,
        0x04, 0x03,
        0x01, 0x50,
    ];
    assert_eq!(blob.bytes, expected);
}

#[test]
fn alloc_boundary_forms() {
    let blob = encode(&input(128)).expect("encodes").remove(0);
    assert_eq!(blob.bytes[1], 11, "SizeOfProlog follows the encoder");
    assert_eq!(blob.bytes[4..6], [0x0B, (15 << 4) | UWOP_ALLOC_SMALL]);
    assert_eq!(blob.bytes[2], 3);
    let blob = encode(&input(136)).expect("encodes").remove(0);
    assert_eq!(blob.bytes[2], 4, "the size word counts as a code slot");
    assert_eq!(&blob.bytes[4..8], &[0x0B, UWOP_ALLOC_LARGE, 17, 0]);
    let blob = encode(&input(0x80000)).expect("encodes").remove(0);
    assert_eq!(blob.bytes[2], 5);
    assert_eq!(blob.bytes[5] >> 4, 1);
    assert_eq!(&blob.bytes[6..10], &0x80000u32.to_le_bytes());
    let blob = encode(&input(112)).expect("encodes").remove(0);
    assert_eq!(blob.bytes[1], 8);
}

#[test]
fn unaligned_frame_is_an_internal_error() {
    assert!(matches!(encode(&input(12)), Err(CompileError::Internal(_))));
}

fn funclet(start: u32, end: u32, prolog_len: u8, sp_delta: u32) -> FuncletInfo {
    FuncletInfo {
        start_offset: start,
        end_offset: end,
        prolog_len,
        sp_delta,
        kind: CorJitFuncKind::Handler,
    }
}

#[test]
fn funclet_blob_is_byte_exact() {
    let mut i = input(32);
    i.funclets.push(funclet(73, 105, 4, 16));
    let blobs = encode(&i).expect("encodes");
    assert_eq!(blobs.len(), 2);

    let root = &blobs[0];
    assert_eq!(root.func_kind, CorJitFuncKind::Root);
    assert_eq!((root.start_offset, root.end_offset), (0, 73));
    assert_eq!(root.bytes.len(), 10, "the fib shape, unchanged");

    let f = &blobs[1];
    assert_eq!(f.func_kind, CorJitFuncKind::Handler);
    assert!(!f.is_cold_code);
    assert_eq!((f.start_offset, f.end_offset), (73, 105));
    let expected: &[u8] = &[
        0x01,
        0x04,
        0x01,
        0x00,
        0x04, 0x12,
    ];
    assert_eq!(f.bytes, expected);
}

#[test]
fn funclet_blob_unwinds_rsp_and_keeps_rbp() {
    let mut i = input(32);
    i.funclets.push(funclet(73, 105, 4, 16));
    let f = encode(&i).expect("encodes").remove(1);
    let (mut rsp, rbp) = (960u64, 992u64);
    let count = f.bytes[2] as usize;
    for i in 0..count {
        let op = f.bytes[4 + 2 * i + 1] & 0xF;
        let op_info = f.bytes[4 + 2 * i + 1] >> 4;
        match op {
            UWOP_ALLOC_SMALL => rsp += u64::from(op_info) * 8 + 8,
            other => panic!("unexpected op {other}"),
        }
    }
    assert_eq!(rsp, 976, "rsp += 16");
    assert_eq!(rbp, 992, "rbp inherited from the parent, untouched");
}

#[test]
fn funclet_alloc_boundary_forms() {
    let mut i = input(32);
    i.funclets.push(funclet(73, 100, 4, 128));
    let f = encode(&i).expect("encodes").remove(1);
    assert_eq!(f.bytes[2], 1);
    assert_eq!(f.bytes[4..6], [4, (15 << 4) | UWOP_ALLOC_SMALL]);

    let mut i = input(32);
    i.funclets.push(funclet(73, 100, 7, 136));
    let f = encode(&i).expect("encodes").remove(1);
    assert_eq!(f.bytes[1], 7, "SizeOfProlog follows the funclet prolog");
    assert_eq!(f.bytes[2], 2, "the size word counts as a code slot");
    assert_eq!(&f.bytes[4..8], &[7, UWOP_ALLOC_LARGE, 17, 0]);

    let mut i = input(32);
    i.funclets.push(funclet(73, 100, 7, 0x80000));
    let f = encode(&i).expect("encodes").remove(1);
    assert_eq!(f.bytes[2], 3);
    assert_eq!(f.bytes[5] >> 4, 1);
    assert_eq!(&f.bytes[6..10], &0x80000u32.to_le_bytes());
}

#[test]
fn funclets_emit_in_order_after_the_root() {
    let mut i = input(32);
    i.funclets.push(funclet(73, 105, 4, 16));
    i.funclets.push(funclet(105, 130, 4, 32));
    let blobs = encode(&i).expect("encodes");
    assert_eq!(blobs.len(), 3);
    assert_eq!(blobs[0].func_kind, CorJitFuncKind::Root);
    assert_eq!((blobs[1].start_offset, blobs[1].end_offset), (73, 105));
    assert_eq!((blobs[2].start_offset, blobs[2].end_offset), (105, 130));
    assert_eq!(blobs[2].bytes[4..6], [4, (3 << 4) | UWOP_ALLOC_SMALL]);
}

#[test]
fn filter_funclet_blob_keeps_the_filter_kind() {
    let mut i = input(32);
    let mut f = funclet(73, 105, 4, 16);
    f.kind = CorJitFuncKind::Filter;
    i.funclets.push(f);
    let blobs = encode(&i).expect("encodes");
    assert_eq!(blobs.len(), 2);
    assert_eq!(blobs[1].func_kind, CorJitFuncKind::Filter);
    let mut h = funclet(73, 105, 4, 16);
    h.kind = CorJitFuncKind::Handler;
    let mut j = input(32);
    j.funclets.push(h);
    let handler_blobs = encode(&j).expect("encodes");
    assert_eq!(blobs[1].bytes, handler_blobs[1].bytes);
}

#[test]
fn bad_funclet_sp_delta_is_an_internal_error() {
    let mut i = input(32);
    i.funclets.push(funclet(73, 105, 4, 12));
    assert!(matches!(encode(&i), Err(CompileError::Internal(_))));
    let mut i = input(32);
    i.funclets.push(funclet(73, 105, 4, 0));
    assert!(matches!(encode(&i), Err(CompileError::Internal(_))));
}
