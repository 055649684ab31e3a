use rokajit_x64::bind::{Binder, Facts, Move, Op, ReadSrc, Reply, FIRST_SYNTHETIC_LABEL};
use rokajit_x64::encode::{AluOp, Mem, Rm, Rmi};
use rokajit_x64::inst::{ArithOp, Inst, Place, ShiftOp, Src, Width};
use rokajit_x64::ir::{LocalId, Type, UnaryOp, Val};
use rokajit_x64::regs::Gpr;
use std::collections::HashMap;

/// A processor for the integer instructions.
struct Cpu {
    gpr: [u64; 16],
    cells: HashMap<i32, u64>,
}

impl Cpu {
    fn new() -> Cpu {
        Cpu {
            gpr: [0; 16],
            cells: HashMap::new(),
        }
    }

    fn cell(&self, m: Mem) -> u64 {
        self.cells.get(&m.disp).copied().unwrap_or(0)
    }

    fn read(&self, width: Width, src: Rmi) -> u64 {
        let wide = match src {
            Rmi::Reg(g) => self.gpr[g.enc() as usize],
            Rmi::Mem(m) => self.cell(m),
            Rmi::Imm(i) => i as u64,
        };
        cut(width, wide)
    }

    fn write(&mut self, width: Width, dst: Rm, value: u64) {
        match dst {
            Rm::Reg(g) => self.gpr[g.enc() as usize] = cut(width, value),
            Rm::Mem(m) => {
                let old = self.cell(m);
                let new = match width {
                    Width::W64 => value,
                    Width::W32 => (old & !0xFFFF_FFFF) | cut(width, value),
                };
                self.cells.insert(m.disp, new);
            }
        }
    }

    fn run(&mut self, ops: &[Op]) {
        for op in ops {
            self.execute(*op);
        }
    }

    fn execute(&mut self, op: Op) {
        match op {
            Op::Mov { width, dst, src } => self.write(width, dst, self.read(width, src)),
            Op::Alu {
                op,
                width,
                dst,
                src,
            } => {
                let x = self.read(width, rmi(dst));
                let y = self.read(width, src);
                match op {
                    AluOp::Add => self.write(width, dst, x.wrapping_add(y)),
                    AluOp::Sub => self.write(width, dst, x.wrapping_sub(y)),
                    AluOp::And => self.write(width, dst, x & y),
                    AluOp::Or => self.write(width, dst, x | y),
                    AluOp::Xor => self.write(width, dst, x ^ y),
                    AluOp::Cmp | AluOp::Test => {}
                }
            }
            Op::Neg { width, dst } => {
                self.write(width, dst, self.read(width, rmi(dst)).wrapping_neg())
            }
            Op::Not { width, dst } => self.write(width, dst, !self.read(width, rmi(dst))),
            Op::Imul { width, dst, src } => {
                let x = self.read(width, Rmi::Reg(dst));
                let y = self.read(width, rmi(src));
                self.write(width, Rm::Reg(dst), x.wrapping_mul(y));
            }
            Op::ImulImm {
                width,
                dst,
                lhs,
                imm,
            } => {
                let x = self.read(width, rmi(lhs));
                self.write(width, Rm::Reg(dst), x.wrapping_mul(imm as u64));
            }
            Op::ShiftCl { op, width, dst } => {
                let count = self.gpr[Gpr::Rcx.enc() as usize];
                self.shift(op, width, dst, count);
            }
            Op::ShiftImm {
                op,
                width,
                dst,
                count,
            } => self.shift(op, width, dst, count as u64),
            Op::Movsxd { dst, src } => {
                let x = self.read(Width::W32, rmi(src));
                self.write(Width::W64, Rm::Reg(dst), x as i32 as i64 as u64);
            }
            Op::Cdq { width: Width::W32 } => {
                let sign = (self.gpr[0] as i32) >> 31;
                self.write(Width::W32, Rm::Reg(Gpr::Rdx), sign as u64);
            }
            Op::Idiv {
                width: Width::W32,
                divisor,
            } => {
                let x = (cut(Width::W32, self.gpr[2]) << 32 | cut(Width::W32, self.gpr[0])) as i64;
                let y = i64::from(self.read(Width::W32, rmi(divisor)) as i32);
                self.write(Width::W32, Rm::Reg(Gpr::Rax), (x / y) as u64);
                self.write(Width::W32, Rm::Reg(Gpr::Rdx), (x % y) as u64);
            }
            Op::Div {
                width: Width::W32,
                divisor,
            } => {
                let x = cut(Width::W32, self.gpr[2]) << 32 | cut(Width::W32, self.gpr[0]);
                let y = self.read(Width::W32, rmi(divisor));
                self.write(Width::W32, Rm::Reg(Gpr::Rax), x / y);
                self.write(Width::W32, Rm::Reg(Gpr::Rdx), x % y);
            }
            other => panic!("no integer instruction: {other:?}"),
        }
    }

    fn shift(&mut self, op: ShiftOp, width: Width, dst: Rm, count: u64) {
        let x = self.read(width, rmi(dst));
        let value = match (width, op) {
            (Width::W32, ShiftOp::Shl) => u64::from((x as u32) << (count % 32)),
            (Width::W32, ShiftOp::Shr) => u64::from((x as u32) >> (count % 32)),
            (Width::W32, ShiftOp::Sar) => ((x as i32) >> (count % 32)) as u64,
            (Width::W64, ShiftOp::Shl) => x << (count % 64),
            (Width::W64, ShiftOp::Shr) => x >> (count % 64),
            (Width::W64, ShiftOp::Sar) => ((x as i64) >> (count % 64)) as u64,
        };
        self.write(width, dst, value);
    }
}

fn cut(width: Width, x: u64) -> u64 {
    match width {
        Width::W32 => x & 0xFFFF_FFFF,
        Width::W64 => x,
    }
}

fn rmi(rm: Rm) -> Rmi {
    match rm {
        Rm::Reg(g) => Rmi::Reg(g),
        Rm::Mem(m) => Rmi::Mem(m),
    }
}

fn facts(ty: Type) -> Facts {
    Facts {
        types: vec![ty, ty, ty],
        slots: vec![8, 16, 24],
        num_frame_fixed: 0,
        frame_size: 32,
    }
}

fn bind(ty: Type, inst: Inst, replies: Vec<Reply>) -> Vec<Op> {
    let facts = facts(ty);
    let mut binder = Binder::new(&facts, &replies, 0, FIRST_SYNTHETIC_LABEL);
    assert_eq!(binder.emit_inst(inst), Ok(()));
    let (ops, used, _) = binder.finish();
    assert_eq!(used, replies.len());
    ops
}

fn val(id: u32) -> Src {
    Src::Val(Val(LocalId(id)))
}

fn dst() -> Place {
    Place::Val(Val(LocalId(2)))
}

fn scratch(g: Gpr, moves: Vec<Move>) -> Reply {
    Reply::Scratch {
        reg: g.phys(),
        moves,
    }
}

fn spill(g: Gpr, slot: u32) -> Move {
    Move::Spill {
        reg: g.phys(),
        slot,
        ty: Type::Int64,
    }
}

#[test]
fn arithmetic_leaves_its_value_in_the_scratch_register() {
    let cases: [(ArithOp, u64); 6] = [
        (ArithOp::Add, 0x1_0000_0006),
        (ArithOp::Sub, 0xFFFF_FFFE),
        (ArithOp::And, 0),
        (ArithOp::Or, 0x1_0000_0006),
        (ArithOp::Xor, 0x1_0000_0006),
        (ArithOp::Imul, 0x4_0000_0008),
    ];
    for (op, value) in cases {
        let inst = Inst::Arith {
            op,
            width: Width::W64,
            dst: dst(),
            lhs: val(0),
            rhs: val(1),
        };
        let replies = vec![
            scratch(Gpr::Rax, vec![spill(Gpr::Rax, 24)]),
            Reply::Source(ReadSrc::Slot(8)),
            Reply::Source(ReadSrc::Reg(Gpr::Rcx.phys())),
            Reply::Moves(vec![]),
        ];
        let mut cpu = Cpu::new();
        cpu.gpr[0] = 77;
        cpu.cells.insert(-8, 0x1_0000_0002);
        cpu.gpr[1] = 4;
        cpu.run(&bind(Type::Int64, inst, replies));
        assert_eq!(cpu.gpr[0], value, "{op:?}");
        assert_eq!(cpu.cells[&-24], 77);
        assert_eq!(cpu.gpr[1], 4);
    }
}

#[test]
fn narrow_arithmetic_clears_the_upper_half() {
    let inst = Inst::Arith {
        op: ArithOp::Add,
        width: Width::W32,
        dst: dst(),
        lhs: val(0),
        rhs: Src::Imm(-1),
    };
    let replies = vec![
        scratch(Gpr::Rdx, vec![]),
        Reply::Source(ReadSrc::Imm(1)),
        Reply::Moves(vec![]),
    ];
    let mut cpu = Cpu::new();
    cpu.gpr[2] = u64::MAX;
    cpu.run(&bind(Type::Int32, inst, replies));
    assert_eq!(cpu.gpr[2], 0);
}

#[test]
fn a_wide_constant_takes_another_scratch_register() {
    let inst = Inst::Arith {
        op: ArithOp::Sub,
        width: Width::W64,
        dst: dst(),
        lhs: Src::Imm(0),
        rhs: Src::Imm(0x1_2345_6789),
    };
    let replies = vec![
        scratch(Gpr::Rax, vec![]),
        scratch(Gpr::Rcx, vec![spill(Gpr::Rcx, 16)]),
        Reply::Moves(vec![]),
    ];
    let mut cpu = Cpu::new();
    cpu.gpr[1] = 5;
    cpu.run(&bind(Type::Int64, inst, replies));
    assert_eq!(cpu.gpr[0], 0x1_2345_6789u64.wrapping_neg());
    assert_eq!(cpu.cells[&-16], 5);
}

#[test]
fn a_product_by_a_constant() {
    let inst = Inst::Arith {
        op: ArithOp::Imul,
        width: Width::W64,
        dst: dst(),
        lhs: val(0),
        rhs: Src::Imm(-3),
    };
    let replies = vec![
        scratch(Gpr::R8, vec![]),
        Reply::Source(ReadSrc::Reg(Gpr::R9.phys())),
        Reply::Moves(vec![]),
    ];
    let mut cpu = Cpu::new();
    cpu.gpr[9] = 14;
    cpu.run(&bind(Type::Int64, inst, replies));
    assert_eq!(cpu.gpr[8] as i64, -42);
}

#[test]
fn shifts_by_a_value_go_through_cl() {
    let cases: [(ShiftOp, u64); 3] = [
        (ShiftOp::Shl, 0xFFFF_FFF0_0000_0000),
        (ShiftOp::Shr, 0x0000_0000_0FFF_FFFF),
        (ShiftOp::Sar, 0xFFFF_FFFF_FFFF_FFFF),
    ];
    for (op, value) in cases {
        let inst = Inst::Shift {
            op,
            width: Width::W64,
            dst: dst(),
            lhs: val(0),
            rhs: val(1),
        };
        let replies = vec![
            scratch(Gpr::Rax, vec![]),
            Reply::Source(ReadSrc::Slot(8)),
            Reply::Moves(vec![spill(Gpr::Rcx, 24)]),
            Reply::Source(ReadSrc::Slot(16)),
            Reply::Moves(vec![]),
        ];
        let mut cpu = Cpu::new();
        cpu.cells.insert(-8, 0xFFFF_FFFF_FFFF_FFFF);
        cpu.cells.insert(-16, 36 + 64);
        cpu.gpr[1] = 9;
        cpu.run(&bind(Type::Int64, inst, replies));
        assert_eq!(cpu.gpr[0], value, "{op:?}");
        assert_eq!(cpu.cells[&-24], 9);
    }
}

#[test]
fn shifts_by_a_constant() {
    let inst = Inst::Shift {
        op: ShiftOp::Sar,
        width: Width::W32,
        dst: dst(),
        lhs: val(0),
        rhs: Src::Imm(4),
    };
    let replies = vec![
        scratch(Gpr::Rax, vec![]),
        Reply::Source(ReadSrc::Imm(-64)),
        Reply::Moves(vec![]),
    ];
    let mut cpu = Cpu::new();
    cpu.run(&bind(Type::Int32, inst, replies));
    assert_eq!(cpu.gpr[0], 0xFFFF_FFFC);
}

#[test]
fn one_operand_operations() {
    for (op, value) in [(UnaryOp::Neg, -5i64), (UnaryOp::Not, -6i64)] {
        let inst = Inst::Unary {
            op,
            width: Width::W64,
            dst: dst(),
            src: val(0),
        };
        let replies = vec![
            scratch(Gpr::Rsi, vec![]),
            Reply::Source(ReadSrc::Reg(Gpr::Rdi.phys())),
            Reply::Moves(vec![]),
        ];
        let mut cpu = Cpu::new();
        cpu.gpr[7] = 5;
        cpu.run(&bind(Type::Int64, inst, replies));
        assert_eq!(cpu.gpr[6] as i64, value);
        assert_eq!(cpu.gpr[7], 5);
    }
}

#[test]
fn widening_keeps_the_sign_or_clears() {
    for (signed, value) in [(true, 0xFFFF_FFFF_8000_0000u64), (false, 0x8000_0000)] {
        let inst = Inst::MovExt {
            dst: dst(),
            src: val(0),
            signed,
        };
        let replies = vec![
            scratch(Gpr::Rax, vec![]),
            Reply::Source(ReadSrc::Slot(8)),
            Reply::Moves(vec![]),
        ];
        let mut cpu = Cpu::new();
        cpu.cells.insert(-8, 0x1234_5678_8000_0000);
        cpu.run(&bind(Type::Int64, inst, replies));
        assert_eq!(cpu.gpr[0], value);
    }
}

#[test]
fn comparisons_compare_their_operands() {
    let inst = Inst::Cmp {
        width: Width::W64,
        lhs: val(0),
        rhs: val(1),
    };
    let replies = vec![
        Reply::Source(ReadSrc::Slot(16)),
        Reply::Source(ReadSrc::Slot(8)),
        scratch(Gpr::Rcx, vec![spill(Gpr::Rcx, 24)]),
    ];
    let ops = bind(Type::Int64, inst, replies);
    let mut cpu = Cpu::new();
    cpu.cells.insert(-8, 11);
    cpu.cells.insert(-16, 22);
    cpu.run(&ops[..ops.len() - 1]);
    match ops[ops.len() - 1] {
        Op::Alu {
            op: AluOp::Cmp,
            width,
            dst,
            src,
        } => {
            assert_eq!(cpu.read(width, rmi(dst)), 11);
            assert_eq!(cpu.read(width, src), 22);
        }
        other => panic!("no comparison: {other:?}"),
    }
}

#[test]
fn gc_pointers_go_to_their_slots_at_once() {
    let inst = Inst::Arith {
        op: ArithOp::Add,
        width: Width::W64,
        dst: dst(),
        lhs: val(0),
        rhs: Src::Imm(8),
    };
    let replies = vec![
        scratch(Gpr::Rax, vec![]),
        Reply::Source(ReadSrc::Slot(8)),
        Reply::Moves(vec![]),
    ];
    let mut cpu = Cpu::new();
    cpu.cells.insert(-8, 1000);
    cpu.run(&bind(Type::ByRef, inst, replies));
    assert_eq!(cpu.cells[&-24], 1008);
}

fn load(g: Gpr, src: Src) -> Inst {
    Inst::Mov {
        width: Width::W32,
        dst: Place::Reg(g),
        src,
    }
}

#[test]
fn signed_division_rounds_toward_zero() {
    for (x, y, quotient, remainder) in [(7, 2, 3, 1), (-7, 2, -3, -1), (7, -2, -3, 1)] {
        let mut cpu = Cpu::new();
        cpu.cells.insert(-8, x as u32 as u64);
        cpu.gpr[0] = 99;
        let quiet = || Reply::Moves(vec![]);
        let loaded = bind(
            Type::Int32,
            load(Gpr::Rax, val(0)),
            vec![
                Reply::Moves(vec![spill(Gpr::Rax, 24)]),
                Reply::Source(ReadSrc::Slot(8)),
            ],
        );
        cpu.run(&loaded);
        let width = Width::W32;
        cpu.run(&bind(Type::Int32, Inst::Cdq { width }, vec![quiet()]));
        let divisor = Src::Imm(y);
        cpu.run(&bind(
            Type::Int32,
            Inst::Idiv { width, divisor },
            vec![quiet(), quiet(), scratch(Gpr::Rcx, vec![])],
        ));
        assert_eq!(cpu.gpr[0] as i32, quotient);
        assert_eq!(cpu.gpr[2] as i32, remainder);
        assert_eq!(cpu.cells[&-24], 99);
    }
}

#[test]
fn unsigned_division_takes_all_bits() {
    let mut cpu = Cpu::new();
    cpu.cells.insert(-8, 0xFFFF_FFF9);
    cpu.cells.insert(-16, 10);
    cpu.gpr[2] = 1234;
    let quiet = || Reply::Moves(vec![]);
    let slot = |offset: u32| Reply::Source(ReadSrc::Slot(offset));
    cpu.run(&bind(
        Type::Int32,
        load(Gpr::Rax, val(0)),
        vec![quiet(), slot(8)],
    ));
    cpu.run(&bind(
        Type::Int32,
        load(Gpr::Rdx, Src::Imm(0)),
        vec![quiet()],
    ));
    cpu.run(&bind(
        Type::Int32,
        Inst::Div {
            width: Width::W32,
            divisor: val(1),
        },
        vec![quiet(), quiet(), slot(16)],
    ));
    assert_eq!(cpu.gpr[0], 0xFFFF_FFF9 / 10);
    assert_eq!(cpu.gpr[2], 0xFFFF_FFF9 % 10);
}
