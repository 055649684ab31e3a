use rokajit_x64::inst::{ArithOp, CondCode, Inst, Place, ShiftOp, Src, Width};
use rokajit_x64::ir::{BinaryOp as B, MethodHandle};
use rokajit_x64::regs::{Gpr, GPR_CALLEE_SAVED};

#[test]
fn arith_op_maps_the_lowering_subset() {
    assert_eq!(ArithOp::of(B::Add), Some(ArithOp::Add));
    assert_eq!(ArithOp::of(B::Sub), Some(ArithOp::Sub));
    assert_eq!(ArithOp::of(B::Mul), Some(ArithOp::Imul));
    assert_eq!(ArithOp::of(B::And), Some(ArithOp::And));
    assert_eq!(ArithOp::of(B::Or), Some(ArithOp::Or));
    assert_eq!(ArithOp::of(B::Xor), Some(ArithOp::Xor));
    assert_eq!(ArithOp::of(B::Rem), None);
    assert_eq!(ArithOp::of(B::Lt), None);
}

#[test]
fn shift_op_maps_the_shift_subset() {
    assert_eq!(ShiftOp::of(B::Shl), Some(ShiftOp::Shl));
    assert_eq!(ShiftOp::of(B::Shr), Some(ShiftOp::Sar));
    assert_eq!(ShiftOp::of(B::UShr), Some(ShiftOp::Shr));
    assert_eq!(ShiftOp::of(B::Add), None);
}

#[test]
fn cond_code_maps_every_comparison() {
    let signed = [
        (B::Eq, CondCode::Eq),
        (B::Ne, CondCode::Ne),
        (B::Lt, CondCode::Lt),
        (B::Le, CondCode::Le),
        (B::Gt, CondCode::Gt),
        (B::Ge, CondCode::Ge),
    ];
    let unsigned = [
        (B::ULt, CondCode::ULt),
        (B::ULe, CondCode::ULe),
        (B::UGt, CondCode::UGt),
        (B::UGe, CondCode::UGe),
    ];
    for (op, cc) in signed.into_iter().chain(unsigned) {
        assert_eq!(CondCode::of(op), Some(cc));
    }
    assert_eq!(CondCode::of(B::Add), None);
}

#[test]
fn fixed_reg_duties_are_declared() {
    let idiv = Inst::Idiv {
        width: Width::W32,
        divisor: Src::Imm(3),
    }
    .fixed_regs();
    assert_eq!(idiv.uses, [Gpr::Rax, Gpr::Rdx]);
    assert_eq!(idiv.defs, [Gpr::Rax, Gpr::Rdx]);

    let method = MethodHandle(1);
    let call = Inst::CallDirect { method }.fixed_regs();
    assert!(call.defs.contains(&Gpr::Rax), "return register clobbered");
    for reg in GPR_CALLEE_SAVED {
        assert!(!call.defs.iter().any(|g| g.phys() == reg));
    }

    let mov = Inst::Mov {
        width: Width::W64,
        dst: Place::Reg(Gpr::Rax),
        src: Src::Imm(0),
    };
    assert!(mov.fixed_regs().uses.is_empty());
    assert!(mov.fixed_regs().defs.is_empty());
}
