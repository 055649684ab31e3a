use rokajit_x64::bind::{Binder, Facts, Move, Op, Reply, Request, Stop, FIRST_SYNTHETIC_LABEL};
use rokajit_x64::encode::{Mem, Rm, Rmi};
use rokajit_x64::error::CompileError;
use rokajit_x64::inst::{ArithOp, Inst, Place, ShiftOp, Src, Width};
use rokajit_x64::ir::{BinaryOp, BlockId, Label, LocalId, Type, UnaryOp, Val};
use rokajit_x64::regs::Gpr;

fn facts() -> Facts {
    Facts {
        types: vec![Type::Int32],
        slots: vec![4],
        num_frame_fixed: 0,
        frame_size: 16,
    }
}

/// A binding that has used no reply yet.
fn binder<'a>(facts: &'a Facts, replies: &'a Vec<Reply>) -> Binder<'a> {
    Binder::new(facts, replies, 0, FIRST_SYNTHETIC_LABEL)
}

fn internal(message: &'static str) -> Result<(), Stop> {
    Err(Stop::Fail(CompileError::Internal(message)))
}

fn assert_untouched(binder: Binder) {
    assert_eq!(binder.finish(), (vec![], 0, FIRST_SYNTHETIC_LABEL));
}

#[test]
fn labels_that_are_no_block_count_down() {
    let (facts, replies) = (facts(), vec![]);
    let mut b = binder(&facts, &replies);
    assert_eq!(b.synthetic_label(), Ok(Label(BlockId(0x8000_0000))));
    assert_eq!(b.synthetic_label(), Ok(Label(BlockId(0x7FFF_FFFF))));
    assert_eq!(b.finish(), (vec![], 0, 0x7FFF_FFFE));
}

#[test]
fn labels_run_out() {
    let (facts, replies) = (facts(), vec![]);
    let mut b = Binder::new(&facts, &replies, 0, 1);
    assert_eq!(b.synthetic_label(), Ok(Label(BlockId(1))));
    assert_eq!(
        b.synthetic_label(),
        Err(Stop::Fail(CompileError::Internal("out of synthetic labels")))
    );
    assert_eq!(b.finish(), (vec![], 0, 0));
}

#[test]
fn results_in_registers_are_refused_before_anything_is_emitted() {
    let (facts, replies) = (facts(), vec![Reply::Done]);
    let dst = Place::Reg(Gpr::Rax);
    let (lhs, rhs) = (Src::Imm(1), Src::Imm(2));

    let mut b = binder(&facts, &replies);
    assert_eq!(
        b.emit_arith(ArithOp::Add, Width::W64, dst, lhs, rhs),
        internal("arithmetic destination is always a value")
    );
    assert_untouched(b);

    let mut b = binder(&facts, &replies);
    assert_eq!(
        b.emit_inst(Inst::Arith {
            op: ArithOp::Imul,
            width: Width::W32,
            dst,
            lhs,
            rhs,
        }),
        internal("arithmetic destination is always a value")
    );
    assert_untouched(b);

    let mut b = binder(&facts, &replies);
    assert_eq!(
        b.emit_inst(Inst::Shift {
            op: ShiftOp::Shl,
            width: Width::W32,
            dst,
            lhs,
            rhs,
        }),
        internal("shift destination is always a value")
    );
    assert_untouched(b);

    let mut b = binder(&facts, &replies);
    assert_eq!(
        b.emit_inst(Inst::Unary {
            op: UnaryOp::Neg,
            width: Width::W32,
            dst,
            src: lhs,
        }),
        internal("unary destination is always a value")
    );
    assert_untouched(b);
}

#[test]
fn a_float_setcc_that_compares_nothing_emits_nothing() {
    let (facts, replies) = (facts(), vec![Reply::Done]);
    let dst = Place::Val(Val(LocalId(0)));

    let mut b = binder(&facts, &replies);
    assert_eq!(
        b.emit_setcc_f(BinaryOp::Add, dst),
        internal("non-comparison operator in a float setcc")
    );
    assert_untouched(b);

    let mut b = binder(&facts, &replies);
    assert_eq!(
        b.emit_inst(Inst::SetccF {
            op: BinaryOp::Shl,
            dst,
        }),
        internal("non-comparison operator in a float setcc")
    );
    assert_untouched(b);
}

#[test]
fn a_descriptor_without_a_binding_emits_nothing() {
    let (facts, replies) = (facts(), vec![Reply::Done]);
    let mut b = binder(&facts, &replies);
    assert_eq!(
        b.emit_inst(Inst::NullCheck { addr: Src::Imm(0) }),
        Err(Stop::Fail(CompileError::Unsupported(
            "instruction outside the tier-0 emission subset"
        )))
    );
    assert_untouched(b);
}

#[test]
fn an_unknown_target_is_not_called() {
    let facts = facts();
    let replies = vec![Reply::Moves(vec![Move::Spill {
        reg: Gpr::Rax.phys(),
        slot: 4,
        ty: Type::Int32,
    }])];
    let mut b = binder(&facts, &replies);
    assert_eq!(
        b.emit_call_lookup(None, None, None),
        Err(Stop::Fail(CompileError::Unsupported(
            "call target with more than one indirection (IAT_PPVALUE/IAT_RELPVALUE)"
        )))
    );
    let spill = Op::Mov {
        width: Width::W32,
        dst: Rm::Mem(Mem::base_disp(Gpr::Rbp, -4)),
        src: Rmi::Reg(Gpr::Rax),
    };
    assert_eq!(b.finish(), (vec![spill], 1, FIRST_SYNTHETIC_LABEL));
}

#[test]
fn a_stop_leaves_what_was_emitted_before_it() {
    let facts = facts();
    let replies = vec![Reply::Scratch {
        reg: Gpr::Rcx.phys(),
        moves: vec![],
    }];
    let mut b = binder(&facts, &replies);
    let dst = Place::Val(Val(LocalId(0)));
    let width = Width::W32;
    assert_eq!(
        b.emit_arith(ArithOp::Add, width, dst, Src::Imm(1), Src::Val(Val(LocalId(0)))),
        Err(Stop::Ask(Request::Read(LocalId(0))))
    );
    let load = Op::Mov {
        width,
        dst: Rm::Reg(Gpr::Rcx),
        src: Rmi::Imm(1),
    };
    assert_eq!(b.finish(), (vec![load], 1, FIRST_SYNTHETIC_LABEL));
}
