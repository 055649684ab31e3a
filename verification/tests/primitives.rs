use rokajit_x64::bind::{
    bits_imm, float_jcc_tail, float_recipe, sign_mask, slot_disp, slot_mem, wide_imm_of, Second,
};
use rokajit_x64::bits::BitWriter;
use rokajit_x64::bytes::{push_le16, push_le32, push_le64, set_le32};
use rokajit_x64::encode::{Asm, CallReloc, EncodeError, Mem, Rm, Rmi};
use rokajit_x64::inst::{ArithFOp, CondCode, FWidth, Width};
use rokajit_x64::ir::{BinaryOp, BlockId, Label, MethodHandle, Type};
use rokajit_x64::livestate::Transition;
use rokajit_x64::metadata::GcRootSlot;
use rokajit_x64::regs::{Gpr, Xmm};
use rokajit_x64::sort::sorted;
use rokajit_x64::unwind::prolog_len;

#[test]
fn bits_are_packed_from_the_low_end() {
    let mut w = BitWriter::new();
    w.write_bit(true);
    w.write(0b1011, 4);
    w.write(0xFF, 6);
    assert_eq!(w.bit_count(), 11);
    assert_eq!(w.finish(), [0b1111_0111, 0b0000_0111]);
}

#[test]
fn variable_length_unsigned_groups() {
    let bits = |n: u32, base: u32| {
        let mut w = BitWriter::new();
        w.write_varl_u(n, base);
        (w.bit_count(), w.finish())
    };
    assert_eq!(bits(0, 3), (4, vec![0b0000]));
    assert_eq!(bits(7, 3), (4, vec![0b0111]));
    assert_eq!(bits(8, 3), (8, vec![0b0001_1000]));
    assert_eq!(bits(300, 8), (18, vec![44, 0b11, 0]));
    assert_eq!(bits(u32::MAX, 31).0, 64);
}

#[test]
fn variable_length_signed_groups() {
    let bits = |n: i64, base: u32| {
        let mut w = BitWriter::new();
        w.write_varl_s(n, base);
        (w.bit_count(), w.finish())
    };
    assert_eq!(bits(-1, 6), (7, vec![0b011_1111]));
    assert_eq!(bits(31, 6), (7, vec![0b001_1111]));
    assert_eq!(bits(32, 6).0, 14);
    assert_eq!(bits(-33, 6).0, 14);
    assert_eq!(bits(i64::MIN, 63).0, 128);
}

#[test]
fn padding_and_whole_bytes() {
    let mut w = BitWriter::new();
    w.write(0b101, 3);
    w.pad_to_byte();
    assert_eq!(w.bit_count(), 8);
    w.pad_to_byte();
    assert_eq!(w.bit_count(), 8);
    w.append_bytes(vec![0xAB, 0xCD]);
    assert_eq!(w.finish(), [0b101, 0xAB, 0xCD]);
}

#[test]
fn little_endian_numbers() {
    let mut out = Vec::new();
    push_le16(&mut out, 0x1234);
    push_le32(&mut out, 0x89AB_CDEF);
    push_le64(&mut out, 0x0102_0304_0506_0708);
    assert_eq!(
        out,
        [0x34, 0x12, 0xEF, 0xCD, 0xAB, 0x89, 8, 7, 6, 5, 4, 3, 2, 1]
    );
    set_le32(&mut out, 1, 0xDDCC_BBAA);
    assert_eq!(out[..6], [0x34, 0xAA, 0xBB, 0xCC, 0xDD, 0x89]);
}

#[test]
fn sorting_keeps_equal_items_in_order() {
    assert_eq!(sorted(&vec![5u32, 1, 3, 1]), [1, 1, 3, 5]);
    assert_eq!(sorted(&Vec::<u32>::new()), []);
    let t = |offset: u32, live: bool| Transition { offset, live };
    assert_eq!(
        sorted(&vec![t(8, true), t(8, false), t(2, true)]),
        [t(2, true), t(8, false), t(8, true)]
    );
    let root = |offset: u32, is_byref: bool, pinned: bool| GcRootSlot {
        offset,
        is_byref,
        pinned,
    };
    let given = vec![
        root(8, false, false),
        root(24, false, false),
        root(16, true, false),
        root(32, false, true),
    ];
    assert_eq!(
        sorted(&given),
        [
            root(32, false, true),
            root(16, true, false),
            root(24, false, false),
            root(8, false, false)
        ]
    );
}

#[test]
fn registers_by_number() {
    assert_eq!(Gpr::from_phys(5), Some(Gpr::Rbp));
    assert_eq!(Gpr::from_phys(16), None);
    assert_eq!(Xmm::from_phys(15), None);
    assert_eq!(Xmm::from_phys(31), Some(Xmm::Xmm15));
    assert_eq!(Xmm::from_phys(32), None);
    for n in 0..16 {
        assert_eq!(Gpr::from_phys(n).unwrap().phys(), n);
        assert_eq!(Xmm::from_phys(16 + n).unwrap().phys(), 16 + n);
        assert_eq!(Xmm::from_phys(16 + n).unwrap().enc(), n);
    }
}

#[test]
fn float_operators_with_a_scalar_instruction() {
    assert_eq!(ArithFOp::of(BinaryOp::MinF), Some(ArithFOp::Min));
    assert_eq!(ArithFOp::of(BinaryOp::MaxF), Some(ArithFOp::Max));
    assert_eq!(ArithFOp::of(BinaryOp::Div), Some(ArithFOp::Div));
    assert_eq!(ArithFOp::of(BinaryOp::Rem), None);
    assert_eq!(FWidth::of(Type::Float), Some(FWidth::S));
    assert_eq!(FWidth::of(Type::Double), Some(FWidth::D));
    assert_eq!(FWidth::of(Type::Int64), None);
}

/// The flags of `ucomisd a, b`.
fn flags(a: f64, b: f64) -> (bool, bool, bool) {
    if a.is_nan() || b.is_nan() {
        (true, true, true)
    } else {
        (a == b, false, a < b)
    }
}

fn holds(cc: CondCode, (zero, parity, carry): (bool, bool, bool)) -> bool {
    match cc {
        CondCode::Eq => zero,
        CondCode::Ne => !zero,
        CondCode::ULt => carry,
        CondCode::ULe => carry || zero,
        CondCode::UGt => !carry && !zero,
        CondCode::UGe => !carry,
        CondCode::Parity => parity,
        CondCode::NotParity => !parity,
        other => panic!("no float condition: {other:?}"),
    }
}

#[test]
fn float_recipes_give_the_truth_value() {
    let pairs = [
        (1.0, 2.0),
        (2.0, 1.0),
        (1.0, 1.0),
        (f64::NAN, 1.0),
        (1.0, f64::NAN),
    ];
    for (a, b) in pairs {
        let unordered = a.is_nan() || b.is_nan();
        let cases = [
            (BinaryOp::Eq, a == b),
            (BinaryOp::Ne, a != b),
            (BinaryOp::Lt, a < b),
            (BinaryOp::Le, a <= b),
            (BinaryOp::Gt, a > b),
            (BinaryOp::Ge, a >= b),
            (BinaryOp::ULt, unordered || a < b),
            (BinaryOp::ULe, unordered || a <= b),
            (BinaryOp::UGt, unordered || a > b),
            (BinaryOp::UGe, unordered || a >= b),
        ];
        for (op, truth) in cases {
            let recipe = float_recipe(op).unwrap();
            let first = holds(recipe.first, flags(a, b));
            let value = match recipe.second {
                Second::Nothing => first,
                Second::And(cc) => first && holds(cc, flags(a, b)),
                Second::Or(cc) => first || holds(cc, flags(a, b)),
            };
            assert_eq!(value, truth, "{op:?} of {a} and {b}");
        }
    }
    assert_eq!(float_recipe(BinaryOp::Add), None);
    assert_eq!(float_jcc_tail(BinaryOp::Le), CondCode::ULe);
}

#[test]
fn the_sign_mask_flips_the_sign_alone() {
    for x in [0.0f64, -0.0, 1.5, f64::INFINITY] {
        assert_eq!((-x).to_bits(), x.to_bits() ^ sign_mask(FWidth::D));
    }
    for x in [0.0f32, -0.0, 1.5, f32::NEG_INFINITY] {
        assert_eq!(
            u64::from((-x).to_bits()),
            u64::from(x.to_bits()) ^ sign_mask(FWidth::S)
        );
    }
    assert_eq!(bits_imm(sign_mask(FWidth::D)), i64::MIN);
}

#[test]
fn slots_lie_below_the_frame_pointer() {
    assert_eq!(slot_mem(16), Mem::base_disp(Gpr::Rbp, -16));
    assert_eq!(slot_disp(0), 0);
    assert_eq!(slot_disp(0x8000_0000), i32::MIN);
    assert_eq!(slot_disp(0xFFFF_FFFF), 1);
}

#[test]
fn immediates_that_need_a_register() {
    assert_eq!(wide_imm_of(Width::W64, Rmi::Imm(0x7FFF_FFFF)), None);
    assert_eq!(
        wide_imm_of(Width::W64, Rmi::Imm(0x8000_0000)),
        Some(0x8000_0000)
    );
    assert_eq!(wide_imm_of(Width::W64, Rmi::Imm(-0x8000_0000)), None);
    assert_eq!(wide_imm_of(Width::W32, Rmi::Imm(i64::MIN)), None);
    assert_eq!(wide_imm_of(Width::W64, Rmi::Reg(Gpr::Rax)), None);
}

#[test]
fn a_call_beyond_the_reach_of_a_displacement() {
    let reloc = CallReloc {
        method: MethodHandle(7),
        offset: 1,
    };
    let mut code = vec![0xE8, 1, 2, 3, 4];
    assert_eq!(
        reloc.patch(&mut code, 0x1000, 0x1_0000_1005),
        Err(EncodeError::Rel32OutOfRange {
            at: 1,
            displacement: 0x1_0000_0000,
        })
    );
    assert_eq!(code, [0xE8, 1, 2, 3, 4]);
    assert_eq!(reloc.patch(&mut code, 0x1000, 0x8000_1004), Ok(()));
    assert_eq!(code, [0xE8, 0xFF, 0xFF, 0xFF, 0x7F]);
    assert_eq!(
        reloc.patch(&mut code, 0xFFFF_8000_0000_1000, 0xFFFF_8000_0000_1000),
        Ok(())
    );
    assert_eq!(code, [0xE8, 0xFB, 0xFF, 0xFF, 0xFF]);
}

#[test]
fn labels_are_bound_once() {
    let mut a = Asm::new();
    let label = Label(BlockId(3));
    assert!(!a.is_bound(label));
    a.nop();
    a.bind(label);
    assert!(a.is_bound(label));
    assert_eq!(a.offset(), 1);
}

#[test]
fn the_prolog_is_as_long_as_its_code() {
    for (frame, length) in [(0, 8), (127, 8), (128, 11), (0x7FFF_FFF0, 11)] {
        let mut a = Asm::new();
        a.push(Gpr::Rbp);
        assert_eq!(a.offset(), 1);
        a.mov(Width::W64, Rm::Reg(Gpr::Rbp), Rmi::Reg(Gpr::Rsp));
        assert_eq!(a.offset(), 4);
        a.sub(Width::W64, Rm::Reg(Gpr::Rsp), Rmi::Imm(frame));
        assert_eq!(a.offset(), length);
        assert_eq!(u32::from(prolog_len(frame as u32)), length);
    }
}
