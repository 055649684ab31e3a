use rokajit_x64::error::CompileError;
use rokajit_x64::inst::{
    Amode, ArithFOp, ArithOp, BlockAddr, CondCode, EbReg, FWidth, Inst, Place, ShiftOp, Src, Width,
    XmmPlace, XmmSrc,
};
use rokajit_x64::ir::{
    BinaryOp, Block, BlockId, BranchCond, CallSig, CallTarget, ClassHandle, Const, CorInfoHelpFunc,
    Eightbyte, Eightbytes, Label, Local, LocalId, LocalKind, MemAccess, Method, MethodHandle,
    Operand, Stmt, StmtKind, StructLayout, StructLayouts, SysVClass, SysVPass, Type, UnaryOp, Val,
};
use rokajit_x64::lower::{catch_leave, lower_frame, lower_method, lower_stmt, Cx, FrameReq};
use rokajit_x64::regs::{Gpr, Xmm, INT_ARG_REGS};

fn locals() -> Vec<Local> {
    let int = |i: u32| Local {
        ty: Type::Int32,
        kind: LocalKind::IlLocal(i),
        pinned: false,
    };
    let float = || Local {
        ty: Type::Float,
        kind: LocalKind::Temp,
        pinned: false,
    };
    vec![int(0), int(1), int(2), float()]
}

fn stmt(kind: StmtKind) -> Stmt {
    Stmt {
        kind,
    }
}

fn handle(raw: u64) -> MethodHandle {
    MethodHandle(raw)
}

fn lower_one(s: &Stmt) -> Option<Vec<Inst>> {
    lower_stmt(s, &Cx::new(&locals(), &StructLayouts::new()))
}

fn val(i: u32) -> Place {
    Place::Val(Val(LocalId(i)))
}

fn vsrc(i: u32) -> Src {
    Src::Val(Val(LocalId(i)))
}

#[test]
fn copy_const_lowers_to_mov_imm() {
    let s = stmt(StmtKind::Copy {
        dst: LocalId(0),
        src: Operand::Const(Const::Int32(7)),
    });
    assert_eq!(
        lower_one(&s),
        Some(vec![Inst::Mov {
            width: Width::W32,
            dst: val(0),
            src: Src::Imm(7),
        }])
    );
    let s = stmt(StmtKind::Copy {
        dst: LocalId(0),
        src: Operand::Const(Const::NullRef),
    });
    assert_eq!(
        lower_one(&s),
        Some(vec![Inst::Mov {
            width: Width::W64,
            dst: val(0),
            src: Src::Imm(0),
        }])
    );
    let s = stmt(StmtKind::Copy {
        dst: LocalId(0),
        src: Operand::Const(Const::FrozenRef(0x1_2345_6789)),
    });
    assert_eq!(
        lower_one(&s),
        Some(vec![Inst::Mov {
            width: Width::W64,
            dst: val(0),
            src: Src::Imm(0x1_2345_6789),
        }])
    );
    let s = stmt(StmtKind::Copy {
        dst: LocalId(3),
        src: Operand::Const(Const::Float((1.0f32).to_bits())),
    });
    assert_eq!(
        lower_one(&s),
        Some(vec![Inst::ConstF {
            width: FWidth::S,
            dst: XmmPlace::Val(Val(LocalId(3))),
            bits: u64::from(1.0f32.to_bits()),
        }])
    );
}

#[test]
fn copy_addr_of_lowers_to_lea_frame_slot() {
    let s = stmt(StmtKind::Copy {
        dst: LocalId(1),
        src: Operand::AddrOf(LocalId(0)),
    });
    assert_eq!(
        lower_one(&s),
        Some(vec![Inst::Lea {
            dst: val(1),
            addr: Amode::FrameSlot(LocalId(0)),
        }])
    );
}

#[test]
fn copy_value_lowers_to_mov() {
    let s = stmt(StmtKind::Copy {
        dst: LocalId(1),
        src: Operand::Local(LocalId(0)),
    });
    assert_eq!(
        lower_one(&s),
        Some(vec![Inst::Mov {
            width: Width::W32,
            dst: val(1),
            src: vsrc(0),
        }])
    );
}

#[test]
fn arith_lowers_to_three_operand_descriptor() {
    let s = stmt(StmtKind::Binary {
        dst: LocalId(2),
        op: BinaryOp::Add,
        lhs: Operand::Local(LocalId(0)),
        rhs: Operand::Temp(LocalId(1)),
    });
    assert_eq!(
        lower_one(&s),
        Some(vec![Inst::Arith {
            op: ArithOp::Add,
            width: Width::W32,
            dst: val(2),
            lhs: vsrc(0),
            rhs: vsrc(1),
        }])
    );
    let s = stmt(StmtKind::Binary {
        dst: LocalId(2),
        op: BinaryOp::Sub,
        lhs: Operand::Local(LocalId(0)),
        rhs: Operand::Const(Const::Int32(1)),
    });
    assert_eq!(
        lower_one(&s),
        Some(vec![Inst::Arith {
            op: ArithOp::Sub,
            width: Width::W32,
            dst: val(2),
            lhs: vsrc(0),
            rhs: Src::Imm(1),
        }])
    );
    let s = stmt(StmtKind::Binary {
        dst: LocalId(2),
        op: BinaryOp::Mul,
        lhs: Operand::Local(LocalId(0)),
        rhs: Operand::Local(LocalId(1)),
    });
    assert_eq!(
        lower_one(&s),
        Some(vec![Inst::Arith {
            op: ArithOp::Imul,
            width: Width::W32,
            dst: val(2),
            lhs: vsrc(0),
            rhs: vsrc(1),
        }])
    );
    let s = stmt(StmtKind::Binary {
        dst: LocalId(3),
        op: BinaryOp::Add,
        lhs: Operand::Local(LocalId(3)),
        rhs: Operand::Local(LocalId(3)),
    });
    assert_eq!(
        lower_one(&s),
        Some(vec![Inst::ArithF {
            op: ArithFOp::Add,
            width: FWidth::S,
            dst: XmmPlace::Val(Val(LocalId(3))),
            lhs: XmmSrc::Val(Val(LocalId(3))),
            rhs: XmmSrc::Val(Val(LocalId(3))),
        }])
    );
}

#[test]
fn rem_lowers_to_the_idiv_fixed_register_sequence() {
    let s = stmt(StmtKind::Binary {
        dst: LocalId(2),
        op: BinaryOp::Rem,
        lhs: Operand::Local(LocalId(0)),
        rhs: Operand::Local(LocalId(1)),
    });
    assert_eq!(
        lower_one(&s),
        Some(vec![
            Inst::Mov {
                width: Width::W32,
                dst: Place::Reg(Gpr::Rax),
                src: vsrc(0),
            },
            Inst::Cdq { width: Width::W32 },
            Inst::Idiv {
                width: Width::W32,
                divisor: vsrc(1),
            },
            Inst::Mov {
                width: Width::W32,
                dst: val(2),
                src: Src::Reg(Gpr::Rdx),
            },
        ])
    );
}

fn locals_mixed() -> Vec<Local> {
    let l = |ty: Type, i: u32| Local {
        ty,
        kind: LocalKind::IlLocal(i),
        pinned: false,
    };
    vec![
        l(Type::Int64, 0),
        l(Type::Int64, 1),
        l(Type::Int32, 2),
        l(Type::Int32, 3),
        l(Type::Int64, 4),
    ]
}

fn lower_with(locals: &Vec<Local>, s: &Stmt) -> Option<Vec<Inst>> {
    lower_stmt(s, &Cx::new(locals, &StructLayouts::new()))
}

#[test]
fn div_lowers_like_rem_with_quotient_from_rax() {
    let s = stmt(StmtKind::Binary {
        dst: LocalId(2),
        op: BinaryOp::Div,
        lhs: Operand::Local(LocalId(0)),
        rhs: Operand::Local(LocalId(1)),
    });
    assert_eq!(
        lower_one(&s),
        Some(vec![
            Inst::Mov {
                width: Width::W32,
                dst: Place::Reg(Gpr::Rax),
                src: vsrc(0),
            },
            Inst::Cdq { width: Width::W32 },
            Inst::Idiv {
                width: Width::W32,
                divisor: vsrc(1),
            },
            Inst::Mov {
                width: Width::W32,
                dst: val(2),
                src: Src::Reg(Gpr::Rax),
            },
        ])
    );
}

#[test]
fn unsigned_div_rem_zero_rdx_and_use_div() {
    let s = stmt(StmtKind::Binary {
        dst: LocalId(2),
        op: BinaryOp::UDiv,
        lhs: Operand::Local(LocalId(0)),
        rhs: Operand::Local(LocalId(1)),
    });
    assert_eq!(
        lower_one(&s),
        Some(vec![
            Inst::Mov {
                width: Width::W32,
                dst: Place::Reg(Gpr::Rax),
                src: vsrc(0),
            },
            Inst::Mov {
                width: Width::W32,
                dst: Place::Reg(Gpr::Rdx),
                src: Src::Imm(0),
            },
            Inst::Div {
                width: Width::W32,
                divisor: vsrc(1),
            },
            Inst::Mov {
                width: Width::W32,
                dst: val(2),
                src: Src::Reg(Gpr::Rax),
            },
        ])
    );
    let s = stmt(StmtKind::Binary {
        dst: LocalId(2),
        op: BinaryOp::URem,
        lhs: Operand::Local(LocalId(0)),
        rhs: Operand::Local(LocalId(1)),
    });
    let lowered = lower_one(&s).expect("matches");
    assert!(matches!(lowered[2], Inst::Div { .. }));
    assert_eq!(
        lowered[3],
        Inst::Mov {
            width: Width::W32,
            dst: val(2),
            src: Src::Reg(Gpr::Rdx),
        }
    );
}

#[test]
fn arith_ovf_lowers_to_one_descriptor() {
    for (op, unsigned) in [
        (BinaryOp::Add, false),
        (BinaryOp::Add, true),
        (BinaryOp::Sub, false),
        (BinaryOp::Sub, true),
        (BinaryOp::Mul, false),
        (BinaryOp::Mul, true),
    ] {
        let s = stmt(StmtKind::BinaryOvf {
            dst: LocalId(2),
            op,
            unsigned,
            lhs: Operand::Local(LocalId(0)),
            rhs: Operand::Local(LocalId(1)),
        });
        assert_eq!(
            lower_one(&s),
            Some(vec![Inst::ArithOvf {
                op,
                unsigned,
                width: Width::W32,
                dst: val(2),
                lhs: vsrc(0),
                rhs: vsrc(1),
            }]),
            "{op:?} unsigned={unsigned}"
        );
    }
    let s = stmt(StmtKind::BinaryOvf {
        dst: LocalId(4),
        op: BinaryOp::Mul,
        unsigned: false,
        lhs: Operand::Local(LocalId(0)),
        rhs: Operand::Const(Const::Int64(3)),
    });
    assert_eq!(
        lower_with(&locals_mixed(), &s),
        Some(vec![Inst::ArithOvf {
            op: BinaryOp::Mul,
            unsigned: false,
            width: Width::W64,
            dst: val(4),
            lhs: vsrc(0),
            rhs: Src::Imm(3),
        }])
    );
}

#[test]
fn shifts_lower_to_the_shift_descriptor() {
    for (op, expected) in [
        (BinaryOp::Shl, ShiftOp::Shl),
        (BinaryOp::Shr, ShiftOp::Sar),
        (BinaryOp::UShr, ShiftOp::Shr),
    ] {
        let s = stmt(StmtKind::Binary {
            dst: LocalId(4),
            op,
            lhs: Operand::Local(LocalId(0)),
            rhs: Operand::Local(LocalId(3)),
        });
        assert_eq!(
            lower_with(&locals_mixed(), &s),
            Some(vec![Inst::Shift {
                op: expected,
                width: Width::W64,
                dst: val(4),
                lhs: vsrc(0),
                rhs: vsrc(3),
            }])
        );
    }
    let s = stmt(StmtKind::Binary {
        dst: LocalId(2),
        op: BinaryOp::Shl,
        lhs: Operand::Local(LocalId(3)),
        rhs: Operand::Const(Const::Int32(3)),
    });
    assert_eq!(
        lower_with(&locals_mixed(), &s),
        Some(vec![Inst::Shift {
            op: ShiftOp::Shl,
            width: Width::W32,
            dst: val(2),
            lhs: vsrc(3),
            rhs: Src::Imm(3),
        }])
    );
}

#[test]
fn neg_not_lower_to_the_unary_descriptor() {
    for (op, name) in [(UnaryOp::Neg, "neg"), (UnaryOp::Not, "not")] {
        let s = stmt(StmtKind::Unary {
            dst: LocalId(2),
            op,
            src: Operand::Local(LocalId(0)),
        });
        assert_eq!(
            lower_one(&s),
            Some(vec![Inst::Unary {
                op,
                width: Width::W32,
                dst: val(2),
                src: vsrc(0),
            }]),
            "{name}"
        );
    }
}

#[test]
fn compare_as_value_lowers_to_cmp_setcc() {
    for (op, cc) in [(BinaryOp::Eq, CondCode::Eq), (BinaryOp::UGt, CondCode::UGt)] {
        let s = stmt(StmtKind::Binary {
            dst: LocalId(2),
            op,
            lhs: Operand::Local(LocalId(0)),
            rhs: Operand::Local(LocalId(1)),
        });
        assert_eq!(
            lower_one(&s),
            Some(vec![
                Inst::Cmp {
                    width: Width::W32,
                    lhs: vsrc(0),
                    rhs: vsrc(1),
                },
                Inst::Setcc { cc, dst: val(2) },
            ])
        );
    }
}

#[test]
fn conv_rules_truncate_and_extend() {
    let s = stmt(StmtKind::Conv {
        dst: LocalId(2),
        to: Type::Int32,
        overflow: false,
        unsigned: false,
        src: Operand::Local(LocalId(0)),
    });
    assert_eq!(
        lower_with(&locals_mixed(), &s),
        Some(vec![Inst::Mov {
            width: Width::W32,
            dst: val(2),
            src: vsrc(0),
        }])
    );
    for (unsigned, signed) in [(true, false), (false, true)] {
        let s = stmt(StmtKind::Conv {
            dst: LocalId(4),
            to: Type::Int64,
            overflow: false,
            unsigned,
            src: Operand::Local(LocalId(3)),
        });
        assert_eq!(
            lower_with(&locals_mixed(), &s),
            Some(vec![Inst::MovExt {
                dst: val(4),
                src: vsrc(3),
                signed,
            }])
        );
    }
    let s = stmt(StmtKind::Conv {
        dst: LocalId(4),
        to: Type::Int64,
        overflow: false,
        unsigned: false,
        src: Operand::Local(LocalId(0)),
    });
    assert_eq!(lower_with(&locals_mixed(), &s), None);
}

#[test]
fn conv_ovf_lowers_to_the_checked_descriptor() {
    let s = stmt(StmtKind::ConvOvf {
        dst: LocalId(2),
        dst_bits: 32,
        signed_dst: true,
        unsigned_src: false,
        src: Operand::Local(LocalId(0)),
    });
    assert_eq!(
        lower_with(&locals_mixed(), &s),
        Some(vec![Inst::ConvOvf {
            width_src: Width::W64,
            width_dst: 32,
            signed_dst: true,
            unsigned_src: false,
            dst: val(2),
            src: vsrc(0),
        }])
    );
    let s = stmt(StmtKind::ConvOvf {
        dst: LocalId(2),
        dst_bits: 16,
        signed_dst: false,
        unsigned_src: true,
        src: Operand::Local(LocalId(3)),
    });
    assert_eq!(
        lower_with(&locals_mixed(), &s),
        Some(vec![Inst::ConvOvf {
            width_src: Width::W32,
            width_dst: 16,
            signed_dst: false,
            unsigned_src: true,
            dst: val(2),
            src: vsrc(3),
        }])
    );
    let locals = vec![
        Local {
            ty: Type::Double,
            kind: LocalKind::IlLocal(0),
            pinned: false,
        },
        Local {
            ty: Type::Int32,
            kind: LocalKind::IlLocal(1),
            pinned: false,
        },
    ];
    let s = stmt(StmtKind::ConvOvf {
        dst: LocalId(1),
        dst_bits: 32,
        signed_dst: true,
        unsigned_src: false,
        src: Operand::Local(LocalId(0)),
    });
    assert_eq!(lower_with(&locals, &s), None);
}

#[test]
fn ckfinite_lowers_to_the_check_descriptor() {
    let locals = vec![
        Local {
            ty: Type::Double,
            kind: LocalKind::IlLocal(0),
            pinned: false,
        },
        Local {
            ty: Type::Double,
            kind: LocalKind::IlLocal(1),
            pinned: false,
        },
    ];
    let s = stmt(StmtKind::CkFinite {
        dst: LocalId(1),
        src: Operand::Local(LocalId(0)),
    });
    assert_eq!(
        lower_with(&locals, &s),
        Some(vec![Inst::CkFinite {
            width: FWidth::D,
            dst: XmmPlace::Val(Val(LocalId(1))),
            src: XmmSrc::Val(Val(LocalId(0))),
        }])
    );
    let s = stmt(StmtKind::CkFinite {
        dst: LocalId(1),
        src: Operand::Const(Const::Float((1.5f32).to_bits())),
    });
    assert_eq!(
        lower_with(&locals, &s),
        Some(vec![Inst::CkFinite {
            width: FWidth::S,
            dst: XmmPlace::Val(Val(LocalId(1))),
            src: XmmSrc::Bits(1.5f32.to_bits() as u64),
        }])
    );
}

#[test]
fn byref_call_arg_materializes_with_lea() {
    let sig = CallSig {
        ret: Type::Void,
        args: vec![Type::ByRef],
        has_this: false,
    };
    let s = stmt(StmtKind::Call {
        dst: None,
        target: CallTarget::Direct(handle(0x42)),
        sig,
        args: vec![Operand::AddrOf(LocalId(0))],
    });
    assert_eq!(
        lower_one(&s),
        Some(vec![
            Inst::Lea {
                dst: Place::Reg(Gpr::Rdi),
                addr: Amode::FrameSlot(LocalId(0)),
            },
            Inst::CallDirect {
                method: handle(0x42),
            },
        ])
    );
}

#[test]
fn localloc_lowers_to_one_descriptor() {
    let s = stmt(StmtKind::LocAlloc {
        dst: LocalId(2),
        size: Operand::Local(LocalId(0)),
    });
    assert_eq!(
        lower_one(&s),
        Some(vec![Inst::LocAlloc {
            dst: val(2),
            size: vsrc(0),
        }])
    );
    let s = stmt(StmtKind::LocAlloc {
        dst: LocalId(2),
        size: Operand::Const(Const::NativeInt(64)),
    });
    assert_eq!(
        lower_one(&s),
        Some(vec![Inst::LocAlloc {
            dst: val(2),
            size: Src::Imm(64),
        }])
    );
}

#[test]
fn cpblk_initblk_lower_to_one_descriptor_each() {
    let s = stmt(StmtKind::BlockCopyDyn {
        dst_addr: Operand::Local(LocalId(0)),
        src_addr: Operand::AddrOf(LocalId(1)),
        size: Operand::Local(LocalId(2)),
    });
    assert_eq!(
        lower_one(&s),
        Some(vec![Inst::BlockCopyDyn {
            dst: BlockAddr::Val(Val(LocalId(0))),
            src: BlockAddr::FrameSlot(LocalId(1)),
            size: vsrc(2),
        }])
    );
    let s = stmt(StmtKind::BlockCopyDyn {
        dst_addr: Operand::Local(LocalId(0)),
        src_addr: Operand::Local(LocalId(1)),
        size: Operand::Const(Const::NativeInt(24)),
    });
    assert_eq!(
        lower_one(&s),
        Some(vec![Inst::BlockCopyDyn {
            dst: BlockAddr::Val(Val(LocalId(0))),
            src: BlockAddr::Val(Val(LocalId(1))),
            size: Src::Imm(24),
        }])
    );
    let s = stmt(StmtKind::BlockFillDyn {
        dst_addr: Operand::Local(LocalId(0)),
        fill: Operand::Const(Const::Int32(0x7F)),
        size: Operand::Local(LocalId(2)),
    });
    assert_eq!(
        lower_one(&s),
        Some(vec![Inst::BlockFillDyn {
            dst: BlockAddr::Val(Val(LocalId(0))),
            fill: Src::Imm(0x7F),
            size: vsrc(2),
        }])
    );
    let s = stmt(StmtKind::BlockCopyDyn {
        dst_addr: Operand::Const(Const::NativeInt(0x1000)),
        src_addr: Operand::Local(LocalId(1)),
        size: Operand::Local(LocalId(2)),
    });
    assert_eq!(lower_one(&s), None);
}

#[test]
fn compare_branch_materializes_flags() {
    let s = stmt(StmtKind::Branch {
        cond: BranchCond::Cmp {
            op: BinaryOp::Lt,
            lhs: Operand::Local(LocalId(0)),
            rhs: Operand::Const(Const::Int32(2)),
        },
        target: BlockId(2),
    });
    assert_eq!(
        lower_one(&s),
        Some(vec![
            Inst::Cmp {
                width: Width::W32,
                lhs: vsrc(0),
                rhs: Src::Imm(2),
            },
            Inst::Jcc {
                cc: CondCode::Lt,
                target: Label(BlockId(2)),
            },
        ])
    );
    let s = stmt(StmtKind::Branch {
        cond: BranchCond::Cmp {
            op: BinaryOp::ULt,
            lhs: Operand::Local(LocalId(0)),
            rhs: Operand::Local(LocalId(1)),
        },
        target: BlockId(1),
    });
    assert_eq!(
        lower_one(&s),
        Some(vec![
            Inst::Cmp {
                width: Width::W32,
                lhs: vsrc(0),
                rhs: vsrc(1),
            },
            Inst::Jcc {
                cc: CondCode::ULt,
                target: Label(BlockId(1)),
            },
        ])
    );
}

#[test]
fn true_false_branches_compare_against_zero() {
    let s = stmt(StmtKind::Branch {
        cond: BranchCond::True(Operand::Local(LocalId(0))),
        target: BlockId(1),
    });
    assert_eq!(
        lower_one(&s),
        Some(vec![
            Inst::Cmp {
                width: Width::W32,
                lhs: vsrc(0),
                rhs: Src::Imm(0),
            },
            Inst::Jcc {
                cc: CondCode::Ne,
                target: Label(BlockId(1)),
            },
        ])
    );
    let s = stmt(StmtKind::Branch {
        cond: BranchCond::False(Operand::Local(LocalId(0))),
        target: BlockId(1),
    });
    assert!(matches!(
        lower_one(&s).as_deref(),
        Some([
            _,
            Inst::Jcc {
                cc: CondCode::Eq,
                ..
            }
        ])
    ));
}

#[test]
fn jump_lowers_to_jmp() {
    let s = stmt(StmtKind::Jump { target: BlockId(1) });
    assert_eq!(
        lower_one(&s),
        Some(vec![Inst::Jmp {
            target: Label(BlockId(1))
        }])
    );
}

#[test]
fn switch_lowers_to_a_compare_chain() {
    let s = stmt(StmtKind::Switch {
        value: Operand::Local(LocalId(0)),
        targets: vec![BlockId(2), BlockId(3), BlockId(3)],
        default: BlockId(1),
    });
    assert_eq!(
        lower_one(&s),
        Some(vec![
            Inst::Cmp {
                width: Width::W32,
                lhs: vsrc(0),
                rhs: Src::Imm(0),
            },
            Inst::Jcc {
                cc: CondCode::Eq,
                target: Label(BlockId(2)),
            },
            Inst::Cmp {
                width: Width::W32,
                lhs: vsrc(0),
                rhs: Src::Imm(1),
            },
            Inst::Jcc {
                cc: CondCode::Eq,
                target: Label(BlockId(3)),
            },
            Inst::Cmp {
                width: Width::W32,
                lhs: vsrc(0),
                rhs: Src::Imm(2),
            },
            Inst::Jcc {
                cc: CondCode::Eq,
                target: Label(BlockId(3)),
            },
            Inst::Jmp {
                target: Label(BlockId(1)),
            },
        ])
    );
}

#[test]
fn direct_call_moves_args_per_the_abi() {
    let sig = CallSig {
        ret: Type::Int32,
        args: vec![Type::Int32],
        has_this: false,
    };
    let s = stmt(StmtKind::Call {
        dst: Some(LocalId(2)),
        target: CallTarget::Direct(handle(0x42)),
        sig,
        args: vec![Operand::Temp(LocalId(1))],
    });
    assert_eq!(
        lower_one(&s),
        Some(vec![
            Inst::Mov {
                width: Width::W32,
                dst: Place::Reg(INT_ARG_REGS[0]),
                src: vsrc(1),
            },
            Inst::CallDirect {
                method: handle(0x42),
            },
            Inst::Mov {
                width: Width::W32,
                dst: val(2),
                src: Src::Reg(Gpr::Rax),
            },
        ])
    );
    assert_eq!(INT_ARG_REGS[0], Gpr::Rdi);
}

#[test]
fn void_direct_call_has_no_result_move() {
    let sig = CallSig {
        ret: Type::Void,
        args: vec![Type::Int32, Type::Int32],
        has_this: false,
    };
    let s = stmt(StmtKind::Call {
        dst: None,
        target: CallTarget::Direct(handle(0x42)),
        sig,
        args: vec![Operand::Const(Const::Int32(1)), Operand::Local(LocalId(0))],
    });
    assert_eq!(
        lower_one(&s),
        Some(vec![
            Inst::Mov {
                width: Width::W32,
                dst: Place::Reg(Gpr::Rdi),
                src: Src::Imm(1),
            },
            Inst::Mov {
                width: Width::W32,
                dst: Place::Reg(Gpr::Rsi),
                src: vsrc(0),
            },
            Inst::CallDirect {
                method: handle(0x42),
            },
        ])
    );
}

#[test]
fn seven_int_args_overflow_to_an_outgoing_stack_store() {
    let sig = CallSig {
        ret: Type::Int32,
        args: vec![Type::Int32; 7],
        has_this: false,
    };
    let s = stmt(StmtKind::Call {
        dst: Some(LocalId(2)),
        target: CallTarget::Direct(handle(0x42)),
        sig,
        args: vec![Operand::Local(LocalId(0)); 7],
    });
    let insts = lower_one(&s).expect("matches");
    assert_eq!(insts.len(), 9, "seven arg moves, the call, the result");
    assert_eq!(
        insts[6],
        Inst::StoreStackArg {
            width: Width::W32,
            offset: 0,
            src: vsrc(0),
        }
    );
    assert!(matches!(insts[7], Inst::CallDirect { .. }));
}

#[test]
fn calls_outside_the_subset_match_no_rule() {
    let sig = |n: usize| CallSig {
        ret: Type::Int32,
        args: vec![Type::Int32; n],
        has_this: false,
    };
    let s = stmt(StmtKind::Call {
        dst: Some(LocalId(2)),
        target: CallTarget::Direct(handle(0x42)),
        sig: CallSig {
            ret: Type::Int32,
            args: vec![Type::Float],
            has_this: false,
        },
        args: vec![Operand::Local(LocalId(3))],
    });
    assert_eq!(
        lower_one(&s),
        Some(vec![
            Inst::MovF {
                width: FWidth::S,
                dst: XmmPlace::Reg(Xmm::Xmm0),
                src: XmmSrc::Val(Val(LocalId(3))),
            },
            Inst::CallDirect {
                method: handle(0x42),
            },
            Inst::Mov {
                width: Width::W32,
                dst: val(2),
                src: Src::Reg(Gpr::Rax),
            },
        ])
    );
    let s = stmt(StmtKind::Call {
        dst: Some(LocalId(2)),
        target: CallTarget::Virtual {
            method: handle(0x42),
        },
        sig: sig(0),
        args: Vec::new(),
    });
    assert_eq!(lower_one(&s), None);
}

#[test]
fn call_indirect_reads_the_pointer_after_the_argument_moves() {
    let sig = CallSig {
        ret: Type::Int32,
        args: vec![Type::Int32],
        has_this: false,
    };
    let s = stmt(StmtKind::Call {
        dst: Some(LocalId(2)),
        target: CallTarget::Indirect(Operand::Local(LocalId(0))),
        sig,
        args: vec![Operand::Local(LocalId(1))],
    });
    assert_eq!(
        lower_one(&s),
        Some(vec![
            Inst::Mov {
                width: Width::W32,
                dst: Place::Reg(Gpr::Rdi),
                src: vsrc(1),
            },
            Inst::CallReg { target: vsrc(0) },
            Inst::Mov {
                width: Width::W32,
                dst: val(2),
                src: Src::Reg(Gpr::Rax),
            },
        ])
    );
    let s = stmt(StmtKind::Call {
        dst: None,
        target: CallTarget::Indirect(Operand::Const(Const::NativeInt(
            0x7777,
        ))),
        sig: CallSig {
            ret: Type::Void,
            args: Vec::new(),
            has_this: false,
        },
        args: Vec::new(),
    });
    assert_eq!(
        lower_one(&s),
        Some(vec![Inst::CallReg {
            target: Src::Imm(0x7777),
        }])
    );
}

#[test]
fn returns_emit_the_per_block_epilog() {
    let s = stmt(StmtKind::Return {
        value: Some(Operand::Temp(LocalId(1))),
    });
    assert_eq!(
        lower_one(&s),
        Some(vec![
            Inst::Mov {
                width: Width::W32,
                dst: Place::Reg(Gpr::Rax),
                src: vsrc(1),
            },
            Inst::Leave,
            Inst::Ret,
        ])
    );
    let s = stmt(StmtKind::Return { value: None });
    assert_eq!(lower_one(&s), Some(vec![Inst::Leave, Inst::Ret]));
}

#[test]
fn prolog_is_the_frame_contract_sequence() {
    let prolog = lower_frame(&FrameReq, &Cx::new(&locals(), &StructLayouts::new()))
        .expect("frame rule matches");
    assert_eq!(
        prolog,
        vec![
            Inst::Push { reg: Gpr::Rbp },
            Inst::Mov {
                width: Width::W64,
                dst: Place::Reg(Gpr::Rbp),
                src: Src::Reg(Gpr::Rsp),
            },
            Inst::AllocFrame,
        ]
    );
}

#[test]
fn unmatched_statement_is_unsupported_at_the_method_driver() {
    let method = Method {
        blocks: vec![Block {
            id: BlockId(0),
            stmts: vec![stmt(StmtKind::ArrLen {
                dst: LocalId(1),
                array: Operand::Local(LocalId(0)),
            })],
        }],
        locals: locals(),
        num_args: 0,
        num_il_locals: 3,
        struct_layouts: StructLayouts::new(),
    };
    assert!(matches!(
        lower_method(&method),
        Err(CompileError::Unsupported(_))
    ));
}

fn locals_obj() -> Vec<Local> {
    let l = |ty: Type, i: u32| Local {
        ty,
        kind: LocalKind::IlLocal(i),
        pinned: false,
    };
    vec![
        l(Type::Ref, 0),
        l(Type::Int32, 1),
        l(Type::Ref, 2),
        l(Type::ByRef, 3),
        l(Type::Double, 4),
    ]
}

fn lower_obj(s: &Stmt) -> Option<Vec<Inst>> {
    lower_stmt(s, &Cx::new(&locals_obj(), &StructLayouts::new()))
}

#[test]
fn load_lowers_to_load_mem() {
    let s = stmt(StmtKind::Load {
        dst: LocalId(1),
        addr: Operand::Local(LocalId(0)),
        offset: 16,
        ty: Type::Int32,
        access: MemAccess::Natural,
    });
    assert_eq!(
        lower_obj(&s),
        Some(vec![Inst::LoadMem {
            width: Width::W32,
            dst: val(1),
            addr: vsrc(0),
            disp: 16,
        }])
    );
    let s = stmt(StmtKind::Load {
        dst: LocalId(2),
        addr: Operand::Local(LocalId(0)),
        offset: 24,
        ty: Type::Ref,
        access: MemAccess::Natural,
    });
    assert_eq!(
        lower_obj(&s),
        Some(vec![Inst::LoadMem {
            width: Width::W64,
            dst: val(2),
            addr: vsrc(0),
            disp: 24,
        }])
    );
    let s = stmt(StmtKind::Load {
        dst: LocalId(4),
        addr: Operand::Local(LocalId(0)),
        offset: 8,
        ty: Type::Double,
        access: MemAccess::Natural,
    });
    assert_eq!(
        lower_obj(&s),
        Some(vec![Inst::LoadMemF {
            width: FWidth::D,
            dst: xval(4),
            addr: vsrc(0),
            disp: 8,
        }])
    );
    let s = stmt(StmtKind::Load {
        dst: LocalId(1),
        addr: Operand::Local(LocalId(0)),
        offset: 4,
        ty: Type::Int32,
        access: MemAccess::U16,
    });
    assert_eq!(
        lower_obj(&s),
        Some(vec![Inst::LoadMemNarrow {
            size: 2,
            signed: false,
            dst: val(1),
            addr: vsrc(0),
            disp: 4,
        }])
    );
    let s = stmt(StmtKind::Load {
        dst: LocalId(1),
        addr: Operand::Local(LocalId(0)),
        offset: 4,
        ty: Type::Int32,
        access: MemAccess::I8,
    });
    assert_eq!(
        lower_obj(&s),
        Some(vec![Inst::LoadMemNarrow {
            size: 1,
            signed: true,
            dst: val(1),
            addr: vsrc(0),
            disp: 4,
        }])
    );
}

#[test]
fn store_lowers_to_store_mem() {
    let s = stmt(StmtKind::Store {
        addr: Operand::Local(LocalId(0)),
        offset: 16,
        src: Operand::Local(LocalId(1)),
        access: MemAccess::Natural,
    });
    assert_eq!(
        lower_obj(&s),
        Some(vec![Inst::StoreMem {
            width: Width::W32,
            addr: vsrc(0),
            disp: 16,
            src: vsrc(1),
        }])
    );
    let s = stmt(StmtKind::Store {
        addr: Operand::Local(LocalId(0)),
        offset: 8,
        src: Operand::Const(Const::Int32(0)),
        access: MemAccess::Natural,
    });
    assert_eq!(
        lower_obj(&s),
        Some(vec![Inst::StoreMem {
            width: Width::W32,
            addr: vsrc(0),
            disp: 8,
            src: Src::Imm(0),
        }])
    );
    let s = stmt(StmtKind::Store {
        addr: Operand::Local(LocalId(0)),
        offset: 8,
        src: Operand::Local(LocalId(4)),
        access: MemAccess::Natural,
    });
    assert_eq!(
        lower_obj(&s),
        Some(vec![Inst::StoreMemF {
            width: FWidth::D,
            addr: vsrc(0),
            disp: 8,
            src: xsrc(4),
        }])
    );
    let s = stmt(StmtKind::Store {
        addr: Operand::Local(LocalId(0)),
        offset: 4,
        src: Operand::Local(LocalId(1)),
        access: MemAccess::U8,
    });
    assert_eq!(
        lower_obj(&s),
        Some(vec![Inst::StoreMemNarrow {
            size: 1,
            addr: vsrc(0),
            disp: 4,
            src: vsrc(1),
        }])
    );
}

#[test]
fn null_check_lowers_to_the_trap_load() {
    let s = stmt(StmtKind::NullCheck {
        arg: Operand::Local(LocalId(0)),
    });
    assert_eq!(lower_obj(&s), Some(vec![Inst::NullCheck { addr: vsrc(0) }]));
    let s = stmt(StmtKind::NullCheck {
        arg: Operand::Const(Const::NullRef),
    });
    assert_eq!(
        lower_obj(&s),
        Some(vec![Inst::NullCheck { addr: Src::Imm(0) }])
    );
}

#[test]
fn bounds_check_lowers_to_the_descriptor() {
    let mut ls = locals_obj();
    ls.push(Local {
        ty: Type::NativeInt,
        kind: LocalKind::Temp,
        pinned: false,
    });
    let s = stmt(StmtKind::BoundsCheck {
        array: Operand::Local(LocalId(0)),
        index: Operand::Local(LocalId(1)),
    });
    assert_eq!(
        lower_with(&ls, &s),
        Some(vec![Inst::BoundsCheck {
            index: vsrc(1),
            index_wide: false,
            array: vsrc(0),
        }])
    );
    let s = stmt(StmtKind::BoundsCheck {
        array: Operand::Local(LocalId(0)),
        index: Operand::Local(LocalId(5)),
    });
    assert_eq!(
        lower_with(&ls, &s),
        Some(vec![Inst::BoundsCheck {
            index: vsrc(5),
            index_wide: true,
            array: vsrc(0),
        }])
    );
}

fn locals_matrix() -> Vec<Local> {
    let l = |ty: Type, i: u32| Local {
        ty,
        kind: LocalKind::IlLocal(i),
        pinned: false,
    };
    vec![
        l(Type::Int32, 0),
        l(Type::Int64, 1),
        l(Type::NativeInt, 2),
        l(Type::Float, 3),
        l(Type::Double, 4),
        l(Type::Ref, 5),
        l(Type::ByRef, 6),
    ]
}

#[test]
fn element_matrix_loads_cover_every_kind() {
    let addr = Operand::Temp(LocalId(6));
    let load = |dst: u32, ty: Type, access: MemAccess| {
        stmt(StmtKind::Load {
            dst: LocalId(dst),
            addr,
            offset: 0,
            ty,
            access,
        })
    };
    for (access, size, signed) in [
        (MemAccess::I8, 1, true),
        (MemAccess::U8, 1, false),
        (MemAccess::I16, 2, true),
        (MemAccess::U16, 2, false),
    ] {
        assert_eq!(
            lower_with(&locals_matrix(), &load(0, Type::Int32, access)),
            Some(vec![Inst::LoadMemNarrow {
                size,
                signed,
                dst: val(0),
                addr: vsrc(6),
                disp: 0,
            }]),
            "{access:?}"
        );
    }
    for (dst, ty, w) in [
        (0, Type::Int32, Width::W32),
        (1, Type::Int64, Width::W64),
        (2, Type::NativeInt, Width::W64),
        (5, Type::Ref, Width::W64),
    ] {
        assert_eq!(
            lower_with(&locals_matrix(), &load(dst, ty, MemAccess::Natural)),
            Some(vec![Inst::LoadMem {
                width: w,
                dst: val(dst),
                addr: vsrc(6),
                disp: 0,
            }]),
            "{ty:?}"
        );
    }
    for (dst, ty, w) in [(3, Type::Float, FWidth::S), (4, Type::Double, FWidth::D)] {
        assert_eq!(
            lower_with(&locals_matrix(), &load(dst, ty, MemAccess::Natural)),
            Some(vec![Inst::LoadMemF {
                width: w,
                dst: xval(dst),
                addr: vsrc(6),
                disp: 0,
            }]),
            "{ty:?}"
        );
    }
}

#[test]
fn element_matrix_stores_cover_every_kind() {
    let addr = Operand::Temp(LocalId(6));
    let store = |src: u32, access: MemAccess| {
        stmt(StmtKind::Store {
            addr,
            offset: 0,
            src: Operand::Temp(LocalId(src)),
            access,
        })
    };
    for (access, size) in [
        (MemAccess::I8, 1),
        (MemAccess::U8, 1),
        (MemAccess::I16, 2),
        (MemAccess::U16, 2),
    ] {
        assert_eq!(
            lower_with(&locals_matrix(), &store(0, access)),
            Some(vec![Inst::StoreMemNarrow {
                size,
                addr: vsrc(6),
                disp: 0,
                src: vsrc(0),
            }]),
            "{access:?}"
        );
    }
    for (src, w) in [
        (0, Width::W32),
        (1, Width::W64),
        (2, Width::W64),
        (5, Width::W64),
    ] {
        assert_eq!(
            lower_with(&locals_matrix(), &store(src, MemAccess::Natural)),
            Some(vec![Inst::StoreMem {
                width: w,
                addr: vsrc(6),
                disp: 0,
                src: vsrc(src),
            }]),
            "src local {src}"
        );
    }
    for (src, w) in [(3, FWidth::S), (4, FWidth::D)] {
        assert_eq!(
            lower_with(&locals_matrix(), &store(src, MemAccess::Natural)),
            Some(vec![Inst::StoreMemF {
                width: w,
                addr: vsrc(6),
                disp: 0,
                src: xsrc(src),
            }]),
            "src local {src}"
        );
    }
}

#[test]
fn field_addr_add_lowers_through_the_arith_rule() {
    let s = stmt(StmtKind::Binary {
        dst: LocalId(3),
        op: BinaryOp::Add,
        lhs: Operand::Local(LocalId(0)),
        rhs: Operand::Const(Const::NativeInt(16)),
    });
    assert_eq!(
        lower_obj(&s),
        Some(vec![Inst::Arith {
            op: ArithOp::Add,
            width: Width::W64,
            dst: val(3),
            lhs: vsrc(0),
            rhs: Src::Imm(16),
        }])
    );
}

#[test]
fn throw_lowers_to_helper_call_and_nop() {
    let s = stmt(StmtKind::Throw {
        exception: Operand::Local(LocalId(0)),
    });
    assert_eq!(
        lower_obj(&s),
        Some(vec![
            Inst::Mov {
                width: Width::W64,
                dst: Place::Reg(Gpr::Rdi),
                src: vsrc(0),
            },
            Inst::CallHelper {
                id: CorInfoHelpFunc::Throw,
            },
            Inst::Nop,
        ])
    );
}

#[test]
fn leave_lowers_to_a_jump_and_the_catch_form_is_the_funclet_return() {
    let s = stmt(StmtKind::Leave { target: BlockId(3) });
    assert_eq!(
        lower_obj(&s),
        Some(vec![Inst::Jmp {
            target: Label(BlockId(3))
        }])
    );
    assert_eq!(
        catch_leave(BlockId(2)),
        vec![
            Inst::LeaLabel {
                dst: Gpr::Rax,
                target: Label(BlockId(2)),
            },
            Inst::FuncletEpilog,
        ]
    );
}

#[test]
fn call_finally_lowers_to_call_nop_jmp() {
    let s = stmt(StmtKind::CallFinally {
        funclet: BlockId(4),
        continuation: BlockId(1),
    });
    assert_eq!(
        lower_obj(&s),
        Some(vec![
            Inst::CallLabel {
                target: Label(BlockId(4)),
            },
            Inst::Nop,
            Inst::Jmp {
                target: Label(BlockId(1)),
            },
        ])
    );
}

#[test]
fn catch_arg_stores_rdi_into_the_destination() {
    let s = stmt(StmtKind::CatchArg { dst: LocalId(2) });
    assert_eq!(
        lower_obj(&s),
        Some(vec![Inst::Mov {
            width: Width::W64,
            dst: val(2),
            src: Src::Reg(Gpr::Rdi),
        }])
    );
}

#[test]
fn end_finally_lowers_to_the_funclet_epilog() {
    let s = stmt(StmtKind::EndFinally);
    assert_eq!(lower_obj(&s), Some(vec![Inst::FuncletEpilog]));
}

#[test]
fn rethrow_lowers_to_the_helper_call_plus_nop() {
    let s = stmt(StmtKind::Rethrow);
    assert_eq!(
        lower_obj(&s),
        Some(vec![
            Inst::CallHelper {
                id: CorInfoHelpFunc::Rethrow,
            },
            Inst::Nop,
        ])
    );
}

#[test]
fn fib_lowers_end_to_end() {
    let fib_handle = handle(1);
    let temp = || Local {
        ty: Type::Int32,
        kind: LocalKind::Temp,
        pinned: false,
    };
    let recurse = |sub: u32, by: i32, result: u32| {
        [
            stmt(StmtKind::Binary {
                dst: LocalId(sub),
                op: BinaryOp::Sub,
                lhs: Operand::Local(LocalId(0)),
                rhs: Operand::Const(Const::Int32(by)),
            }),
            stmt(StmtKind::Call {
                dst: Some(LocalId(result)),
                target: CallTarget::Direct(fib_handle),
                sig: CallSig {
                    ret: Type::Int32,
                    args: vec![Type::Int32],
                    has_this: false,
                },
                args: vec![Operand::Temp(LocalId(sub))],
            }),
        ]
    };
    let mut sum: Vec<Stmt> = Vec::new();
    sum.extend(recurse(1, 1, 2));
    sum.extend(recurse(3, 2, 4));
    sum.push(stmt(StmtKind::Binary {
        dst: LocalId(5),
        op: BinaryOp::Add,
        lhs: Operand::Temp(LocalId(2)),
        rhs: Operand::Temp(LocalId(4)),
    }));
    sum.push(stmt(StmtKind::Return {
        value: Some(Operand::Temp(LocalId(5))),
    }));
    let lir = Method {
        blocks: vec![
            Block {
                id: BlockId(0),
                stmts: vec![stmt(StmtKind::Branch {
                    cond: BranchCond::Cmp {
                        op: BinaryOp::Lt,
                        lhs: Operand::Local(LocalId(0)),
                        rhs: Operand::Const(Const::Int32(2)),
                    },
                    target: BlockId(2),
                })],
            },
            Block {
                id: BlockId(1),
                stmts: sum,
            },
            Block {
                id: BlockId(2),
                stmts: vec![stmt(StmtKind::Return {
                    value: Some(Operand::Local(LocalId(0))),
                })],
            },
        ],
        locals: vec![
            Local {
                ty: Type::Int32,
                kind: LocalKind::IlArg(0),
                pinned: false,
            },
            temp(),
            temp(),
            temp(),
            temp(),
            temp(),
        ],
        num_args: 1,
        num_il_locals: 0,
        struct_layouts: StructLayouts::new(),
    };
    let m = lower_method(&lir).expect("lowers to descriptors");

    assert_eq!(
        m.prolog,
        vec![
            Inst::Push { reg: Gpr::Rbp },
            Inst::Mov {
                width: Width::W64,
                dst: Place::Reg(Gpr::Rbp),
                src: Src::Reg(Gpr::Rsp),
            },
            Inst::AllocFrame,
        ]
    );
    assert_eq!(m.blocks.len(), 3);

    assert_eq!(
        m.blocks[0].insts,
        vec![
            Inst::Cmp {
                width: Width::W32,
                lhs: vsrc(0),
                rhs: Src::Imm(2),
            },
            Inst::Jcc {
                cc: CondCode::Lt,
                target: Label(BlockId(2)),
            },
        ]
    );

    let call1 = [
        Inst::Arith {
            op: ArithOp::Sub,
            width: Width::W32,
            dst: val(1),
            lhs: vsrc(0),
            rhs: Src::Imm(1),
        },
        Inst::Mov {
            width: Width::W32,
            dst: Place::Reg(Gpr::Rdi),
            src: vsrc(1),
        },
        Inst::CallDirect { method: fib_handle },
        Inst::Mov {
            width: Width::W32,
            dst: val(2),
            src: Src::Reg(Gpr::Rax),
        },
    ];
    let call2 = [
        Inst::Arith {
            op: ArithOp::Sub,
            width: Width::W32,
            dst: val(3),
            lhs: vsrc(0),
            rhs: Src::Imm(2),
        },
        Inst::Mov {
            width: Width::W32,
            dst: Place::Reg(Gpr::Rdi),
            src: vsrc(3),
        },
        Inst::CallDirect { method: fib_handle },
        Inst::Mov {
            width: Width::W32,
            dst: val(4),
            src: Src::Reg(Gpr::Rax),
        },
    ];
    let tail = [
        Inst::Arith {
            op: ArithOp::Add,
            width: Width::W32,
            dst: val(5),
            lhs: vsrc(2),
            rhs: vsrc(4),
        },
        Inst::Mov {
            width: Width::W32,
            dst: Place::Reg(Gpr::Rax),
            src: vsrc(5),
        },
        Inst::Leave,
        Inst::Ret,
    ];
    let expected: Vec<Inst> = [call1.as_slice(), call2.as_slice(), tail.as_slice()].concat();
    assert_eq!(m.blocks[1].insts, expected);

    assert_eq!(
        m.blocks[2].insts,
        vec![
            Inst::Mov {
                width: Width::W32,
                dst: Place::Reg(Gpr::Rax),
                src: vsrc(0),
            },
            Inst::Leave,
            Inst::Ret,
        ]
    );
}

fn locals_f() -> Vec<Local> {
    let l = |ty: Type, i: u32| Local {
        ty,
        kind: LocalKind::IlLocal(i),
        pinned: false,
    };
    vec![
        l(Type::Double, 0),
        l(Type::Double, 1),
        l(Type::Int32, 2),
        l(Type::Float, 3),
        l(Type::Int64, 4),
        l(Type::Double, 5),
    ]
}

fn lower_f(s: &Stmt) -> Option<Vec<Inst>> {
    lower_stmt(s, &Cx::new(&locals_f(), &StructLayouts::new()))
}

fn xval(i: u32) -> XmmPlace {
    XmmPlace::Val(Val(LocalId(i)))
}

fn xsrc(i: u32) -> XmmSrc {
    XmmSrc::Val(Val(LocalId(i)))
}

#[test]
fn float_copy_and_const_lower_to_movsd_and_constf() {
    let s = stmt(StmtKind::Copy {
        dst: LocalId(5),
        src: Operand::Local(LocalId(0)),
    });
    assert_eq!(
        lower_f(&s),
        Some(vec![Inst::MovF {
            width: FWidth::D,
            dst: xval(5),
            src: xsrc(0),
        }])
    );
    let s = stmt(StmtKind::Copy {
        dst: LocalId(3),
        src: Operand::Const(Const::Float((-0.5f32).to_bits())),
    });
    assert_eq!(
        lower_f(&s),
        Some(vec![Inst::ConstF {
            width: FWidth::S,
            dst: xval(3),
            bits: u64::from((-0.5f32).to_bits()),
        }])
    );
}

#[test]
fn float_arith_lowers_to_the_scalar_sse_descriptor() {
    for (op, aop) in [
        (BinaryOp::Add, ArithFOp::Add),
        (BinaryOp::Sub, ArithFOp::Sub),
        (BinaryOp::Mul, ArithFOp::Mul),
        (BinaryOp::Div, ArithFOp::Div),
        (BinaryOp::MinF, ArithFOp::Min),
        (BinaryOp::MaxF, ArithFOp::Max),
    ] {
        let s = stmt(StmtKind::Binary {
            dst: LocalId(5),
            op,
            lhs: Operand::Local(LocalId(0)),
            rhs: Operand::Local(LocalId(1)),
        });
        assert_eq!(
            lower_f(&s),
            Some(vec![Inst::ArithF {
                op: aop,
                width: FWidth::D,
                dst: xval(5),
                lhs: xsrc(0),
                rhs: xsrc(1),
            }]),
            "{op:?}"
        );
    }
    let s = stmt(StmtKind::Binary {
        dst: LocalId(5),
        op: BinaryOp::Add,
        lhs: Operand::Local(LocalId(0)),
        rhs: Operand::Const(Const::Double((1.0f64).to_bits())),
    });
    assert_eq!(
        lower_f(&s),
        Some(vec![Inst::ArithF {
            op: ArithFOp::Add,
            width: FWidth::D,
            dst: xval(5),
            lhs: xsrc(0),
            rhs: XmmSrc::Bits(1.0f64.to_bits()),
        }])
    );
    let s = stmt(StmtKind::Binary {
        dst: LocalId(5),
        op: BinaryOp::Rem,
        lhs: Operand::Local(LocalId(0)),
        rhs: Operand::Local(LocalId(1)),
    });
    assert_eq!(lower_f(&s), None);
}

#[test]
fn float_neg_and_not() {
    let s = stmt(StmtKind::Unary {
        dst: LocalId(5),
        op: UnaryOp::Neg,
        src: Operand::Local(LocalId(0)),
    });
    assert_eq!(
        lower_f(&s),
        Some(vec![Inst::NegF {
            width: FWidth::D,
            dst: xval(5),
            src: xsrc(0),
        }])
    );
    let s = stmt(StmtKind::Unary {
        dst: LocalId(5),
        op: UnaryOp::Not,
        src: Operand::Local(LocalId(0)),
    });
    assert_eq!(lower_f(&s), None);
}

#[test]
fn float_compare_value_lowers_to_ucomisd_setccf() {
    for op in [
        BinaryOp::Eq,
        BinaryOp::Gt,
        BinaryOp::UGt,
        BinaryOp::Lt,
        BinaryOp::ULt,
    ] {
        let s = stmt(StmtKind::Binary {
            dst: LocalId(2),
            op,
            lhs: Operand::Local(LocalId(0)),
            rhs: Operand::Local(LocalId(1)),
        });
        assert_eq!(
            lower_f(&s),
            Some(vec![
                Inst::CmpF {
                    width: FWidth::D,
                    lhs: xsrc(0),
                    rhs: xsrc(1),
                },
                Inst::SetccF {
                    op,
                    dst: Place::Val(Val(LocalId(2))),
                },
            ]),
            "{op:?}"
        );
    }
}

#[test]
fn float_branch_lowers_to_ucomisd_jccf() {
    let s = stmt(StmtKind::Branch {
        cond: BranchCond::Cmp {
            op: BinaryOp::UGt,
            lhs: Operand::Local(LocalId(0)),
            rhs: Operand::Local(LocalId(1)),
        },
        target: BlockId(2),
    });
    assert_eq!(
        lower_f(&s),
        Some(vec![
            Inst::CmpF {
                width: FWidth::D,
                lhs: xsrc(0),
                rhs: xsrc(1),
            },
            Inst::JccF {
                op: BinaryOp::UGt,
                target: Label(BlockId(2)),
            },
        ])
    );
}

#[test]
fn float_convs_lower_to_the_cvt_descriptors() {
    let s = stmt(StmtKind::Conv {
        dst: LocalId(5),
        to: Type::Double,
        overflow: false,
        unsigned: false,
        src: Operand::Local(LocalId(2)),
    });
    assert_eq!(
        lower_f(&s),
        Some(vec![Inst::CvtIntToF {
            width: FWidth::D,
            src_w64: false,
            dst: xval(5),
            src: vsrc(2),
        }])
    );
    let s = stmt(StmtKind::Conv {
        dst: LocalId(3),
        to: Type::Float,
        overflow: false,
        unsigned: false,
        src: Operand::Local(LocalId(4)),
    });
    assert_eq!(
        lower_f(&s),
        Some(vec![Inst::CvtIntToF {
            width: FWidth::S,
            src_w64: true,
            dst: xval(3),
            src: vsrc(4),
        }])
    );
    let s = stmt(StmtKind::Conv {
        dst: LocalId(2),
        to: Type::Int32,
        overflow: false,
        unsigned: false,
        src: Operand::Local(LocalId(0)),
    });
    assert_eq!(
        lower_f(&s),
        Some(vec![Inst::CvtFToInt {
            src_width: FWidth::D,
            dst_w64: false,
            dst: Place::Val(Val(LocalId(2))),
            src: xsrc(0),
        }])
    );
    let s = stmt(StmtKind::Conv {
        dst: LocalId(2),
        to: Type::Int32,
        overflow: false,
        unsigned: true,
        src: Operand::Local(LocalId(3)),
    });
    assert_eq!(
        lower_f(&s),
        Some(vec![Inst::CvtFToInt {
            src_width: FWidth::S,
            dst_w64: true,
            dst: Place::Val(Val(LocalId(2))),
            src: xsrc(3),
        }])
    );
    let s = stmt(StmtKind::Conv {
        dst: LocalId(4),
        to: Type::Int64,
        overflow: false,
        unsigned: false,
        src: Operand::Local(LocalId(0)),
    });
    assert_eq!(
        lower_f(&s),
        Some(vec![Inst::CvtFToInt {
            src_width: FWidth::D,
            dst_w64: true,
            dst: Place::Val(Val(LocalId(4))),
            src: xsrc(0),
        }])
    );
    let s = stmt(StmtKind::Conv {
        dst: LocalId(4),
        to: Type::NativeInt,
        overflow: false,
        unsigned: false,
        src: Operand::Local(LocalId(0)),
    });
    assert_eq!(
        lower_f(&s),
        Some(vec![Inst::CvtFToInt {
            src_width: FWidth::D,
            dst_w64: true,
            dst: Place::Val(Val(LocalId(4))),
            src: xsrc(0),
        }])
    );
    let s = stmt(StmtKind::Conv {
        dst: LocalId(3),
        to: Type::Float,
        overflow: false,
        unsigned: false,
        src: Operand::Local(LocalId(0)),
    });
    assert_eq!(
        lower_f(&s),
        Some(vec![Inst::CvtFToF {
            to: FWidth::S,
            dst: xval(3),
            src: xsrc(0),
        }])
    );
}

#[test]
fn conv_r_un_of_an_i64_lowers_to_the_u64_fixup() {
    let s = stmt(StmtKind::Conv {
        dst: LocalId(5),
        to: Type::Double,
        overflow: false,
        unsigned: true,
        src: Operand::Local(LocalId(4)),
    });
    assert_eq!(
        lower_f(&s),
        Some(vec![Inst::CvtU64ToF {
            width: FWidth::D,
            dst: xval(5),
            src: vsrc(4),
        }])
    );
    let s = stmt(StmtKind::Conv {
        dst: LocalId(5),
        to: Type::Double,
        overflow: false,
        unsigned: true,
        src: Operand::Local(LocalId(2)),
    });
    assert_eq!(lower_f(&s), None);
}

#[test]
fn helper_call_lowers_like_a_direct_call() {
    let sig = CallSig {
        ret: Type::Double,
        args: vec![Type::Double, Type::Double],
        has_this: false,
    };
    let s = stmt(StmtKind::Call {
        dst: Some(LocalId(5)),
        target: CallTarget::Helper(CorInfoHelpFunc::Dblrem),
        sig,
        args: vec![Operand::Local(LocalId(0)), Operand::Local(LocalId(1))],
    });
    assert_eq!(
        lower_f(&s),
        Some(vec![
            Inst::MovF {
                width: FWidth::D,
                dst: XmmPlace::Reg(Xmm::Xmm0),
                src: xsrc(0),
            },
            Inst::MovF {
                width: FWidth::D,
                dst: XmmPlace::Reg(Xmm::Xmm1),
                src: xsrc(1),
            },
            Inst::CallHelper {
                id: CorInfoHelpFunc::Dblrem,
            },
            Inst::MovF {
                width: FWidth::D,
                dst: xval(5),
                src: XmmSrc::Reg(Xmm::Xmm0),
            },
        ])
    );
}

#[test]
fn helper_call_with_a_struct_return_stores_the_eightbyte() {
    let c = ClassHandle(0x9008);
    let mut layouts = StructLayouts::new();
    layouts.insert(
        c,
        StructLayout {
            size: 8,
            align: 8,
            sysv: SysVPass {
                passed_in_registers: true,
                eightbytes: Eightbytes::One(Eightbyte {
                    class: SysVClass::IntegerRef,
                    size: 8,
                    offset: 0,
                }),
            },
        },
    );
    let locals = vec![
        Local {
            ty: Type::NativeInt,
            kind: LocalKind::Temp,
            pinned: false,
        },
        Local {
            ty: Type::Struct(c),
            kind: LocalKind::Temp,
            pinned: false,
        },
    ];
    let s = stmt(StmtKind::Call {
        dst: Some(LocalId(1)),
        target: CallTarget::Helper(
            CorInfoHelpFunc::TypehandleToRuntimetypehandle,
        ),
        sig: CallSig {
            ret: Type::Struct(c),
            args: vec![Type::NativeInt],
            has_this: false,
        },
        args: vec![Operand::Local(LocalId(0))],
    });
    assert_eq!(
        lower_stmt(&s, &Cx::new(&locals, &layouts)),
        Some(vec![
            Inst::Mov {
                width: Width::W64,
                dst: Place::Reg(Gpr::Rdi),
                src: vsrc(0),
            },
            Inst::CallHelper {
                id: CorInfoHelpFunc::TypehandleToRuntimetypehandle,
            },
            Inst::StoreEightbyte {
                local: LocalId(1),
                offset: 0,
                size: 8,
                src: EbReg::Gpr(Gpr::Rax),
            },
        ])
    );
}

#[test]
fn mixed_signature_call_interleaves_the_register_classes() {
    let sig = CallSig {
        ret: Type::Int32,
        args: vec![Type::Int32, Type::Double, Type::Float, Type::Int64],
        has_this: false,
    };
    let s = stmt(StmtKind::Call {
        dst: Some(LocalId(2)),
        target: CallTarget::Direct(handle(0x42)),
        sig,
        args: vec![
            Operand::Local(LocalId(2)),
            Operand::Local(LocalId(0)),
            Operand::Local(LocalId(3)),
            Operand::Local(LocalId(4)),
        ],
    });
    assert_eq!(
        lower_f(&s),
        Some(vec![
            Inst::Mov {
                width: Width::W32,
                dst: Place::Reg(Gpr::Rdi),
                src: vsrc(2),
            },
            Inst::MovF {
                width: FWidth::D,
                dst: XmmPlace::Reg(Xmm::Xmm0),
                src: xsrc(0),
            },
            Inst::MovF {
                width: FWidth::S,
                dst: XmmPlace::Reg(Xmm::Xmm1),
                src: xsrc(3),
            },
            Inst::Mov {
                width: Width::W64,
                dst: Place::Reg(Gpr::Rsi),
                src: vsrc(4),
            },
            Inst::CallDirect {
                method: handle(0x42),
            },
            Inst::Mov {
                width: Width::W32,
                dst: val(2),
                src: Src::Reg(Gpr::Rax),
            },
        ])
    );
}

#[test]
fn float_return_moves_to_xmm0() {
    let s = stmt(StmtKind::Return {
        value: Some(Operand::Local(LocalId(0))),
    });
    assert_eq!(
        lower_f(&s),
        Some(vec![
            Inst::MovF {
                width: FWidth::D,
                dst: XmmPlace::Reg(Xmm::Xmm0),
                src: xsrc(0),
            },
            Inst::Leave,
            Inst::Ret,
        ])
    );
    let s = stmt(StmtKind::Return {
        value: Some(Operand::Const(Const::Double((1.0f64).to_bits()))),
    });
    assert_eq!(
        lower_f(&s),
        Some(vec![
            Inst::MovF {
                width: FWidth::D,
                dst: XmmPlace::Reg(Xmm::Xmm0),
                src: XmmSrc::Bits(1.0f64.to_bits()),
            },
            Inst::Leave,
            Inst::Ret,
        ])
    );
}

#[test]
fn repro_github_19288_byref_conv_compare() {
    let local = |ty: Type, kind: LocalKind| Local {
        ty,
        kind,
        pinned: false,
    };
    address_compared_with_zero(vec![
        local(Type::Int32, LocalKind::IlLocal(0)),
        local(Type::NativeInt, LocalKind::Temp),
        local(Type::NativeInt, LocalKind::Temp),
    ]);
}

#[test]
fn repro_github_19288_ldarga_of_a_value_class_arg() {
    let local = |ty: Type, kind: LocalKind| Local {
        ty,
        kind,
        pinned: false,
    };
    address_compared_with_zero(vec![
        local(Type::Struct(ClassHandle(3)), LocalKind::IlArg(1)),
        local(Type::NativeInt, LocalKind::Temp),
        local(Type::NativeInt, LocalKind::Temp),
    ]);
}

/// The address of local 0 compared with a zero that was widened.
fn address_compared_with_zero(locals: Vec<Local>) {
    let lir = Method {
        blocks: vec![
            Block {
                id: BlockId(0),
                stmts: vec![
                    stmt(StmtKind::Copy {
                        dst: LocalId(1),
                        src: Operand::AddrOf(LocalId(0)),
                    }),
                    stmt(StmtKind::Conv {
                        dst: LocalId(2),
                        to: Type::NativeInt,
                        overflow: false,
                        unsigned: true,
                        src: Operand::Const(Const::Int32(0)),
                    }),
                    stmt(StmtKind::Branch {
                        cond: BranchCond::Cmp {
                            op: BinaryOp::Ne,
                            lhs: Operand::Temp(LocalId(1)),
                            rhs: Operand::Temp(LocalId(2)),
                        },
                        target: BlockId(1),
                    }),
                ],
            },
            Block {
                id: BlockId(1),
                stmts: vec![stmt(StmtKind::Return { value: None })],
            },
        ],
        locals,
        num_args: 0,
        num_il_locals: 1,
        struct_layouts: StructLayouts::new(),
    };
    let cx = Cx::new(&lir.locals, &lir.struct_layouts);
    for (bi, b) in lir.blocks.iter().enumerate() {
        for (si, s) in b.stmts.iter().enumerate() {
            assert!(lower_stmt(s, &cx).is_some(), "stmt {bi}/{si} missed a rule");
        }
    }
    assert!(lower_method(&lir).is_ok(), "whole method lowers");
}
