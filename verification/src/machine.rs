//! What instructions do, and what the emitted ones compute.
//!
//! The model is a processor with general-purpose registers and the cells of a
//! frame. A cell is named by its memory operand; no two cells overlap, as no two
//! slots of a frame do. The laws say that the instructions emitted for an operation
//! leave its result in the scratch register, computed from the operands as they
//! were when the value machine said where they are. A comparison leaves its truth
//! value as 0 or 1. What the laws ask of the value machine is what it was told: to
//! keep clear of the register that is in use.

use crate::bind::{
    alu_of, apply_spec, arith_into_spec, bound_at, define_temp_reg_spec, emit_cmp_spec,
    emit_divide_spec, emit_mov_spec, emit_setcc_spec, exclude_reg, ext_into_spec, float_recipe,
    gpr_of, imm_of, is_small_imm, move_op, outcome, rm_of_spec, rmi_of_spec, run_moves_spec,
    scratch_spec, setcc_f_into_spec, shift_into_spec, slot_mem, unary_into_spec, wide_imm_of,
    wide_imm_spec, Bound, Ctx, Exclude, Move, Op, Reply, Request, Second, Step, Stop,
};
use crate::encode::{AluOp, Mem, Rm, RmX, Rmi};
use crate::flags::{
    float_flags, float_truth, holds, int_flags, int_truth, law_float_recipe, law_integer_condition,
    Flags, Relation,
};
use crate::inst::{ArithOp, CondCode, FWidth, Place, ShiftOp, Src, Width};
use crate::ir::{BinaryOp, UnaryOp};
use crate::meaning::{arith_float_result, float_modulus, other_width, Math};
use crate::regs::{Gpr, Xmm};
use vstd::arithmetic::power2::pow2;
use vstd::prelude::*;

verus! {

/// The registers and the cells of the frame, each with a 64-bit number, and the
/// flags.
pub struct Cpu {
    pub gpr: Map<Gpr, int>,
    pub cells: Map<Mem, int>,
    pub flags: Flags,
    /// The float registers: as many low bits as hold a float.
    pub xmm: Map<Xmm, int>,
    pub math: Math,
    /// The address that a memory operand stands for.
    pub address: spec_fn(Mem) -> int,
}

/// The numbers of a width.
pub open spec fn modulus(width: Width) -> int {
    match width {
        Width::W32 => 0x1_0000_0000,
        Width::W64 => 0x1_0000_0000_0000_0000,
    }
}

/// The bits of a width.
pub open spec fn bits_of(width: Width) -> int {
    match width {
        Width::W32 => 32,
        Width::W64 => 64,
    }
}

pub open spec fn read_rm(cpu: Cpu, width: Width, rm: Rm) -> int {
    match rm {
        Rm::Reg(g) => cpu.gpr[g] % modulus(width),
        Rm::Mem(m) => cpu.cells[m] % modulus(width),
    }
}

pub open spec fn read_rmi(cpu: Cpu, width: Width, rmi: Rmi) -> int {
    match rmi {
        Rmi::Reg(g) => cpu.gpr[g] % modulus(width),
        Rmi::Mem(m) => cpu.cells[m] % modulus(width),
        Rmi::Imm(i) => i as int % modulus(width),
    }
}

/// A 32-bit result clears the upper half of a register, and leaves that of a cell.
pub open spec fn write_rm(cpu: Cpu, width: Width, rm: Rm, value: int) -> Cpu {
    match rm {
        Rm::Reg(g) => Cpu { gpr: cpu.gpr.insert(g, value), ..cpu },
        Rm::Mem(m) => Cpu {
            cells: cpu.cells.insert(
                m,
                match width {
                    Width::W64 => value,
                    Width::W32 => cpu.cells[m] - cpu.cells[m] % modulus(width) + value,
                },
            ),
            ..cpu
        },
    }
}

pub open spec fn read_rmx(cpu: Cpu, width: FWidth, rm: RmX) -> int {
    match rm {
        RmX::Reg(x) => cpu.xmm[x] % float_modulus(width),
        RmX::Mem(m) => cpu.cells[m] % float_modulus(width),
    }
}

/// A float register takes a float of a width.
pub open spec fn write_float(cpu: Cpu, width: FWidth, x: Xmm, value: int) -> Cpu {
    Cpu { xmm: cpu.xmm.insert(x, value % float_modulus(width)), ..cpu }
}

/// The number as a signed one.
pub open spec fn signed(width: Width, x: int) -> int {
    if 2 * x >= modulus(width) {
        x - modulus(width)
    } else {
        x
    }
}

pub open spec fn alu_value(op: AluOp, width: Width, x: int, y: int) -> int {
    match op {
        AluOp::Add => (x + y) % modulus(width),
        AluOp::Sub => (x - y) % modulus(width),
        AluOp::And => ((x as u64) & (y as u64)) as int,
        AluOp::Or => ((x as u64) | (y as u64)) as int,
        AluOp::Xor => ((x as u64) ^ (y as u64)) as int,
        AluOp::Cmp | AluOp::Test => x,
    }
}

/// A shift by a count below the width.
pub open spec fn shift_value(op: ShiftOp, width: Width, x: int, n: nat) -> int {
    match op {
        ShiftOp::Shl => (x * pow2(n)) % modulus(width),
        ShiftOp::Shr => x / (pow2(n) as int),
        ShiftOp::Sar => (signed(width, x) / (pow2(n) as int)) % modulus(width),
    }
}

/// A truth value as a number.
pub open spec fn bit(b: bool) -> int {
    if b {
        1
    } else {
        0
    }
}

/// The processor with other flags, of which nothing is said.
pub open spec fn spoiled(cpu: Cpu) -> Cpu {
    Cpu { flags: arbitrary(), ..cpu }
}

/// What an instruction does.
pub open spec fn execute(cpu: Cpu, op: Op) -> Cpu {
    match op {
        Op::Mov { width, dst, src } => write_rm(cpu, width, dst, read_rmi(cpu, width, src)),
        Op::Alu { op, width, dst, src } => if op is Cmp {
            Cpu {
                flags: int_flags(width, read_rm(cpu, width, dst), read_rmi(cpu, width, src)),
                ..cpu
            }
        } else if op is Test {
            spoiled(cpu)
        } else {
            write_rm(
                spoiled(cpu),
                width,
                dst,
                alu_value(op, width, read_rm(cpu, width, dst), read_rmi(cpu, width, src)),
            )
        },
        Op::Neg { width, dst } => write_rm(
            spoiled(cpu),
            width,
            dst,
            (-read_rm(cpu, width, dst)) % modulus(width),
        ),
        Op::Not { width, dst } => write_rm(
            cpu,
            width,
            dst,
            modulus(width) - 1 - read_rm(cpu, width, dst),
        ),
        Op::ShiftCl { op, width, dst } => write_rm(
            spoiled(cpu),
            width,
            dst,
            shift_value(
                op,
                width,
                read_rm(cpu, width, dst),
                (cpu.gpr[Gpr::Rcx] % 256 % bits_of(width)) as nat,
            ),
        ),
        Op::ShiftImm { op, width, dst, count } => write_rm(
            spoiled(cpu),
            width,
            dst,
            shift_value(
                op,
                width,
                read_rm(cpu, width, dst),
                (count as int % 256 % bits_of(width)) as nat,
            ),
        ),
        Op::Imul { width, dst, src } => write_rm(
            spoiled(cpu),
            width,
            Rm::Reg(dst),
            (read_rm(cpu, width, Rm::Reg(dst)) * read_rm(cpu, width, src)) % modulus(width),
        ),
        Op::ImulImm { width, dst, lhs, imm } => write_rm(
            spoiled(cpu),
            width,
            Rm::Reg(dst),
            (read_rm(cpu, width, lhs) * (imm as int % modulus(width))) % modulus(width),
        ),
        Op::Movsxd { dst, src } => write_rm(
            cpu,
            Width::W64,
            Rm::Reg(dst),
            signed(Width::W32, read_rm(cpu, Width::W32, src)) % modulus(Width::W64),
        ),
        Op::Cdq { width } => write_rm(
            cpu,
            width,
            Rm::Reg(Gpr::Rdx),
            if signed(width, cpu.gpr[Gpr::Rax] % modulus(width)) < 0 {
                modulus(width) - 1
            } else {
                0
            },
        ),
        Op::Idiv { width, divisor } => divided(
            spoiled(cpu),
            width,
            signed(width, cpu.gpr[Gpr::Rdx] % modulus(width)) * modulus(width) + cpu.gpr[Gpr::Rax]
                % modulus(width),
            signed(width, read_rm(cpu, width, divisor)),
            -modulus(width) / 2,
        ),
        Op::Div { width, divisor } => divided(
            spoiled(cpu),
            width,
            cpu.gpr[Gpr::Rdx] % modulus(width) * modulus(width) + cpu.gpr[Gpr::Rax] % modulus(
                width,
            ),
            read_rm(cpu, width, divisor),
            0,
        ),
        Op::Setcc { cc, dst } => write_rm(
            cpu,
            Width::W64,
            Rm::Reg(dst),
            cpu.gpr[dst] - cpu.gpr[dst] % 256 + bit(holds(cc, cpu.flags)),
        ),
        Op::Lea { dst, addr } => write_rm(cpu, Width::W64, Rm::Reg(dst), (cpu.address)(addr)),
        Op::MovFLoad { width, dst, src } => write_float(
            cpu,
            width,
            dst,
            read_rmx(cpu, width, src),
        ),
        Op::MovFStore { width, dst, src } => {
            let value = cpu.xmm[src] % float_modulus(width);
            Cpu {
                cells: cpu.cells.insert(
                    dst,
                    match width {
                        FWidth::D => value,
                        FWidth::S => cpu.cells[dst] - cpu.cells[dst] % float_modulus(width) + value,
                    },
                ),
                ..cpu
            }
        },
        Op::MovGprToXmm { width, dst, src } => write_float(cpu, width, dst, cpu.gpr[src]),
        Op::ArithF { op, width, dst, src } => write_float(
            cpu,
            width,
            dst,
            arith_float_result(
                cpu.math,
                op,
                width,
                read_rmx(cpu, width, RmX::Reg(dst)),
                read_rmx(cpu, width, src),
            ),
        ),
        Op::XorF { width, dst, src } => write_float(
            cpu,
            width,
            dst,
            ((read_rmx(cpu, width, RmX::Reg(dst)) as u64) ^ (read_rmx(
                cpu,
                width,
                src,
            ) as u64)) as int,
        ),
        Op::Ucomis { width, lhs, rhs } => Cpu {
            flags: float_flags(
                (cpu.math.compare)(
                    width,
                    read_rmx(cpu, width, RmX::Reg(lhs)),
                    read_rmx(cpu, width, rhs),
                ),
            ),
            ..cpu
        },
        Op::Cvtsi2s { width, dst, src, src_w64 } => {
            let from = if src_w64 {
                Width::W64
            } else {
                Width::W32
            };
            write_float(
                cpu,
                width,
                dst,
                (cpu.math.of_int)(width, signed(from, read_rm(cpu, from, src))),
            )
        },
        Op::Cvtts2si { width, dst, src, dst_w64 } => {
            let to = if dst_w64 {
                Width::W64
            } else {
                Width::W32
            };
            write_rm(
                cpu,
                to,
                Rm::Reg(dst),
                (cpu.math.to_int)(width, read_rmx(cpu, width, src), to) % modulus(to),
            )
        },
        Op::Cvts2s { to, dst, src } => {
            let from = other_width(to);
            write_float(cpu, to, dst, (cpu.math.convert)(from, to, read_rmx(cpu, from, src)))
        },
        _ => arbitrary(),
    }
}

/// The quotient, rounded toward zero.
pub open spec fn quotient(x: int, y: int) -> int {
    if (x < 0) == (y < 0) {
        abs(x) / abs(y)
    } else {
        -(abs(x) / abs(y))
    }
}

/// What is left: it has the sign of the dividend.
pub open spec fn remainder(x: int, y: int) -> int {
    x - quotient(x, y) * y
}

/// The absolute value.
pub open spec fn abs(x: int) -> int {
    if x < 0 {
        -x
    } else {
        x
    }
}

/// A division: the quotient goes to `rax`, the remainder to `rdx`. The quotients of
/// a width are those from `least` on. A division by zero traps, and so does one
/// whose quotient does not fit: then nothing is said.
pub open spec fn divided(cpu: Cpu, width: Width, x: int, y: int, least: int) -> Cpu {
    if y == 0 || !(least <= quotient(x, y) < least + modulus(width)) {
        arbitrary()
    } else {
        write_rm(
            write_rm(cpu, width, Rm::Reg(Gpr::Rax), quotient(x, y) % modulus(width)),
            width,
            Rm::Reg(Gpr::Rdx),
            remainder(x, y) % modulus(width),
        )
    }
}

/// What some instructions do, one after the other.
pub open spec fn run(cpu: Cpu, ops: Seq<Op>) -> Cpu
    decreases ops.len(),
{
    if ops.len() == 0 {
        cpu
    } else {
        execute(run(cpu, ops.drop_last()), ops.last())
    }
}

/// The instructions that `after` has and `b` has not.
pub open spec fn added(b: Bound, after: Bound) -> Seq<Op> {
    after.ops.skip(b.ops.len() as int)
}

/// The processor behind the instructions that were added to `b`.
pub open spec fn reached(cpu: Cpu, b: Bound, after: Bound) -> Cpu {
    run(cpu, added(b, after))
}

/// One more instruction.
pub proof fn lemma_emit(cpu: Cpu, b: Bound, after: Bound, op: Op)
    requires
        b.ops.len() <= after.ops.len(),
    ensures
        reached(cpu, b, after.emit(op)) == execute(reached(cpu, b, after), op),
{
    assert(added(b, after.emit(op)).drop_last() =~= added(b, after));
    assert(added(b, after.emit(op)).last() == op);
}

/// The move does not write the register.
pub open spec fn move_keeps(m: Move, g: Gpr) -> bool {
    match m {
        Move::Spill { .. } => true,
        Move::Reload { reg, .. } => gpr_of(reg) != Ok::<_, Stop>(g),
        Move::Remat { reg, .. } => gpr_of(reg) != Ok::<_, Stop>(g),
    }
}

pub open spec fn moves_keep(moves: Seq<Move>, g: Gpr) -> bool {
    forall|i: int| 0 <= i < moves.len() ==> move_keeps(#[trigger] moves[i], g)
}

/// The reply keeps clear of the register: it neither hands it out nor writes it.
pub open spec fn reply_keeps(reply: Reply, g: Gpr) -> bool {
    match reply {
        Reply::Moves(moves) => moves_keep(moves@, g),
        Reply::Scratch { reg, moves } => gpr_of(reg) != Ok::<_, Stop>(g) && moves_keep(
            moves@,
            g,
        ),
        _ => true,
    }
}

/// From reply `from` on, the value machine keeps clear of the register.
pub open spec fn keeps(c: Ctx, from: nat, g: Gpr) -> bool {
    forall|i: int| from <= i < c.replies.len() ==> reply_keeps(#[trigger] c.replies[i], g)
}

/// Moves that keep clear of a register leave its value.
proof fn lemma_apply_keeps(cpu: Cpu, b: Bound, mid: Bound, moves: Seq<Move>, n: nat, g: Gpr)
    requires
        b.ops.len() <= mid.ops.len(),
        n <= moves.len(),
        moves_keep(moves, g),
        apply_spec(mid, moves, n) is Ok,
    ensures
        ({
            let (after, _) = apply_spec(mid, moves, n)->Ok_0;
            &&& mid.ops.len() <= after.ops.len()
            &&& reached(cpu, b, after).gpr[g] == reached(cpu, b, mid).gpr[g]
        }),
    decreases n,
{
    if n > 0 {
        lemma_apply_keeps(cpu, b, mid, moves, (n - 1) as nat, g);
        let (before, _) = apply_spec(mid, moves, (n - 1) as nat)->Ok_0;
        let op = move_op(moves[n - 1])->Ok_0;
        assert(move_keeps(moves[n - 1], g));
        lemma_emit(cpu, b, before, op);
    }
}

proof fn lemma_run_keeps(cpu: Cpu, c: Ctx, b: Bound, mid: Bound, request: Request, g: Gpr)
    requires
        b.ops.len() <= mid.ops.len(),
        keeps(c, mid.next, g),
        run_moves_spec(c, mid, request) is Ok,
    ensures
        ({
            let (after, _) = run_moves_spec(c, mid, request)->Ok_0;
            &&& mid.ops.len() <= after.ops.len()
            &&& after.next == mid.next + 1
            &&& reached(cpu, b, after).gpr[g] == reached(cpu, b, mid).gpr[g]
        }),
{
    assert(reply_keeps(c.replies[mid.next as int], g));
    if let Reply::Moves(moves) = c.replies[mid.next as int] {
        assert(added(b, mid.used(request)) == added(b, mid));
        lemma_apply_keeps(cpu, b, mid.used(request), moves@, moves@.len(), g);
        lemma_apply_next(mid.used(request), moves@, moves@.len());
    }
}

/// Moves use no reply.
proof fn lemma_apply_next(b: Bound, moves: Seq<Move>, n: nat)
    requires
        apply_spec(b, moves, n) is Ok,
    ensures
        ({
            let (after, _) = apply_spec(b, moves, n)->Ok_0;
            after.next == b.next && b.ops.len() <= after.ops.len()
        }),
    decreases n,
{
    if n > 0 {
        lemma_apply_next(b, moves, (n - 1) as nat);
    }
}

proof fn lemma_scratch_keeps(cpu: Cpu, c: Ctx, b: Bound, mid: Bound, exclude: Exclude, g: Gpr)
    requires
        b.ops.len() <= mid.ops.len(),
        keeps(c, mid.next, g),
        scratch_spec(c, mid, exclude) is Ok,
    ensures
        ({
            let (after, taken) = scratch_spec(c, mid, exclude)->Ok_0;
            &&& mid.ops.len() <= after.ops.len()
            &&& taken != g
            &&& reached(cpu, b, after).gpr[g] == reached(cpu, b, mid).gpr[g]
        }),
{
    assert(reply_keeps(c.replies[mid.next as int], g));
    if let Reply::Scratch { reg, moves } = c.replies[mid.next as int] {
        assert(added(b, mid.used(Request::TakeScratch(exclude))) == added(b, mid));
        lemma_apply_keeps(cpu, b, mid.used(Request::TakeScratch(exclude)), moves@, moves@.len(), g);
    }
}

proof fn lemma_scratch_grows(c: Ctx, b: Bound, exclude: Exclude)
    requires
        scratch_spec(c, b, exclude) is Ok,
    ensures
        ({
            let (after, _) = scratch_spec(c, b, exclude)->Ok_0;
            b.ops.len() <= after.ops.len() && after.next == b.next + 1
        }),
{
    if let Reply::Scratch { reg, moves } = c.replies[b.next as int] {
        lemma_apply_next(b.used(Request::TakeScratch(exclude)), moves@, moves@.len());
    }
}

/// An operand that may have moved to a scratch register still has its value, and
/// the register in use is untouched.
spec fn operand_kept(
    cpu: Cpu,
    b: Bound,
    mid: Bound,
    after: Bound,
    width: Width,
    given: Rmi,
    used: Rmi,
    d: Gpr,
) -> bool {
    &&& mid.ops.len() <= after.ops.len()
    &&& used != Rmi::Reg(d)
    &&& reached(cpu, b, after).gpr[d] == reached(cpu, b, mid).gpr[d]
    &&& read_rmi(reached(cpu, b, after), width, used) == read_rmi(
        reached(cpu, b, mid),
        width,
        given,
    )
}

proof fn lemma_wide_operand(
    cpu: Cpu,
    c: Ctx,
    b: Bound,
    mid: Bound,
    width: Width,
    src: Src,
    d: Gpr,
)
    requires
        b.ops.len() <= mid.ops.len(),
        keeps(c, mid.next, d),
        wide_imm_spec(c, mid, width, src, Exclude::One(d.phys())) is Ok,
        outcome(rmi_of_spec(c, mid, src)) != Rmi::Reg(d),
    ensures
        ({
            let (after, used) = wide_imm_spec(c, mid, width, src, Exclude::One(d.phys()))->Ok_0;
            operand_kept(
                cpu,
                b,
                mid,
                after,
                width,
                outcome(rmi_of_spec(c, mid, src)),
                used,
                d,
            )
        }),
{
    let (found, rmi) = rmi_of_spec(c, mid, src)->Ok_0;
    assert(added(b, found) == added(b, mid));
    if let Some(i) = wide_imm_of(width, rmi) {
        lemma_scratch_keeps(cpu, c, b, found, Exclude::One(d.phys()), d);
        let (taken, g) = scratch_spec(c, found, Exclude::One(d.phys()))->Ok_0;
        lemma_emit(
            cpu,
            b,
            taken,
            Op::Mov { width: Width::W64, dst: Rm::Reg(g), src: Rmi::Imm(i) },
        );
    }
}

/// The same, for an operand that must not be an immediate.
proof fn lemma_rm_operand(
    cpu: Cpu,
    c: Ctx,
    b: Bound,
    mid: Bound,
    width: Width,
    src: Src,
    d: Gpr,
)
    requires
        b.ops.len() <= mid.ops.len(),
        keeps(c, mid.next, d),
        rm_of_spec(c, mid, src, width, Exclude::One(d.phys())) is Ok,
    ensures
        ({
            let (after, used) = rm_of_spec(c, mid, src, width, Exclude::One(d.phys()))->Ok_0;
            let given = outcome(rmi_of_spec(c, mid, src));
            &&& mid.ops.len() <= after.ops.len()
            &&& given != Rmi::Reg(d) ==> used != Rm::Reg(d)
            &&& reached(cpu, b, after).gpr[d] == reached(cpu, b, mid).gpr[d]
            &&& read_rm(reached(cpu, b, after), width, used) == read_rmi(
                reached(cpu, b, mid),
                width,
                given,
            )
        }),
{
    let (found, rmi) = rmi_of_spec(c, mid, src)->Ok_0;
    assert(added(b, found) == added(b, mid));
    if let Rmi::Imm(i) = rmi {
        lemma_scratch_keeps(cpu, c, b, found, Exclude::One(d.phys()), d);
        let (taken, g) = scratch_spec(c, found, Exclude::One(d.phys()))->Ok_0;
        lemma_emit(cpu, b, taken, Op::Mov { width, dst: Rm::Reg(g), src: Rmi::Imm(i) });
        assert(i as int % modulus(width) % modulus(width) == i as int % modulus(width));
    }
}

/// What is read fits the width.
pub proof fn lemma_in_width(cpu: Cpu, width: Width, rmi: Rmi)
    ensures
        read_rmi(cpu, width, rmi) % modulus(width) == read_rmi(cpu, width, rmi),
{
}

/// The value of an integer operation.
pub open spec fn arith_value(op: ArithOp, width: Width, x: int, y: int) -> int {
    match alu_of(op) {
        Some(alu) => alu_value(alu, width, x, y),
        None => (x * y) % modulus(width),
    }
}

/// An integer operation from where its left operand is in the register.
spec fn arith_tail(c: Ctx, b: Bound, op: ArithOp, width: Width, rhs: Src, d: Gpr) -> Step<Gpr> {
    match alu_of(op) {
        Some(alu) => match wide_imm_spec(c, b, width, rhs, Exclude::One(d.phys())) {
            Err(stop) => Err(stop),
            Ok((b, r)) => Ok((b.emit(Op::Alu { op: alu, width, dst: Rm::Reg(d), src: r }), d)),
        },
        None => match rm_of_spec(c, b, rhs, width, Exclude::One(d.phys())) {
            Err(stop) => Err(stop),
            Ok((b, r)) => Ok((b.emit(Op::Imul { width, dst: d, src: r }), d)),
        },
    }
}

proof fn lemma_arith_tail(
    cpu: Cpu,
    c: Ctx,
    b: Bound,
    mid: Bound,
    op: ArithOp,
    width: Width,
    rhs: Src,
    d: Gpr,
)
    requires
        b.ops.len() <= mid.ops.len(),
        arith_tail(c, mid, op, width, rhs, d) is Ok,
        keeps(c, mid.next, d),
        outcome(rmi_of_spec(c, mid, rhs)) != Rmi::Reg(d),
    ensures
        ({
            let before = reached(cpu, b, mid);
            let after = bound_at(arith_tail(c, mid, op, width, rhs, d));
            reached(cpu, b, after).gpr[d] == arith_value(
                op,
                width,
                before.gpr[d] % modulus(width),
                read_rmi(before, width, outcome(rmi_of_spec(c, mid, rhs))),
            )
        }),
{
    match alu_of(op) {
        Some(alu) => {
            lemma_wide_operand(cpu, c, b, mid, width, rhs, d);
            let (at, r) = wide_imm_spec(c, mid, width, rhs, Exclude::One(d.phys()))->Ok_0;
            lemma_emit(cpu, b, at, Op::Alu { op: alu, width, dst: Rm::Reg(d), src: r });
        },
        None => {
            lemma_rm_operand(cpu, c, b, mid, width, rhs, d);
            let (at, r) = rm_of_spec(c, mid, rhs, width, Exclude::One(d.phys()))->Ok_0;
            lemma_emit(cpu, b, at, Op::Imul { width, dst: d, src: r });
        },
    }
}

/// The instructions of an integer operation leave its value in the scratch
/// register. Both operands count as they were when the scratch register was free;
/// the right one is not said to be in it.
pub proof fn law_arithmetic_computes(
    cpu: Cpu,
    c: Ctx,
    b: Bound,
    op: ArithOp,
    width: Width,
    lhs: Src,
    rhs: Src,
)
    requires
        arith_into_spec(c, b, op, width, lhs, rhs) is Ok,
        ({
            let (free, d) = scratch_spec(c, b, Exclude::Nothing)->Ok_0;
            let left = rmi_of_spec(c, free, lhs);
            &&& keeps(c, free.next, d)
            &&& outcome(rmi_of_spec(c, bound_at(left), rhs)) != Rmi::Reg(d)
        }),
    ensures
        ({
            let (free, d) = scratch_spec(c, b, Exclude::Nothing)->Ok_0;
            let left = rmi_of_spec(c, free, lhs);
            let right = rmi_of_spec(c, bound_at(left), rhs);
            let ready = reached(cpu, b, free);
            let (after, result) = arith_into_spec(c, b, op, width, lhs, rhs)->Ok_0;
            &&& result == d
            &&& reached(cpu, b, after).gpr[d] == arith_value(
                op,
                width,
                read_rmi(ready, width, outcome(left)),
                read_rmi(ready, width, outcome(right)),
            )
        }),
{
    let (free, d) = scratch_spec(c, b, Exclude::Nothing)->Ok_0;
    let ready = reached(cpu, b, free);
    lemma_scratch_grows(c, b, Exclude::Nothing);
    if op == ArithOp::Imul && is_small_imm(rhs) {
        lemma_rm_operand(cpu, c, b, free, width, lhs, d);
        let (got, l) = rm_of_spec(c, free, lhs, width, Exclude::One(d.phys()))->Ok_0;
        lemma_emit(cpu, b, got, Op::ImulImm { width, dst: d, lhs: l, imm: imm_of(rhs) });
    } else {
        let (got, l) = rmi_of_spec(c, free, lhs)->Ok_0;
        assert(added(b, got) == added(b, free));
        let op_mov = Op::Mov { width, dst: Rm::Reg(d), src: l };
        let moved = got.emit(op_mov);
        lemma_emit(cpu, b, got, op_mov);
        lemma_in_width(ready, width, l);
        lemma_arith_tail(cpu, c, b, moved, op, width, rhs, d);
    }
}

/// The value of a one-operand operation.
pub open spec fn unary_value(op: UnaryOp, width: Width, x: int) -> int {
    match op {
        UnaryOp::Neg => (-x) % modulus(width),
        UnaryOp::Not => modulus(width) - 1 - x,
    }
}

/// The instructions of a one-operand operation leave its value in the scratch
/// register.
pub proof fn law_unary_computes(
    cpu: Cpu,
    c: Ctx,
    b: Bound,
    op: UnaryOp,
    width: Width,
    src: Src,
)
    requires
        unary_into_spec(c, b, op, width, src) is Ok,
    ensures
        ({
            let (free, d) = scratch_spec(c, b, Exclude::Nothing)->Ok_0;
            let ready = reached(cpu, b, free);
            let x = read_rmi(ready, width, outcome(rmi_of_spec(c, free, src)));
            let (after, result) = unary_into_spec(c, b, op, width, src)->Ok_0;
            result == d && reached(cpu, b, after).gpr[d] == unary_value(op, width, x)
        }),
{
    let (free, d) = scratch_spec(c, b, Exclude::Nothing)->Ok_0;
    lemma_scratch_grows(c, b, Exclude::Nothing);
    let (got, l) = rmi_of_spec(c, free, src)->Ok_0;
    assert(added(b, got) == added(b, free));
    let op_mov = Op::Mov { width, dst: Rm::Reg(d), src: l };
    lemma_emit(cpu, b, got, op_mov);
    let moved = got.emit(op_mov);
    lemma_in_width(reached(cpu, b, free), width, l);
    match op {
        UnaryOp::Neg => lemma_emit(cpu, b, moved, Op::Neg { width, dst: Rm::Reg(d) }),
        UnaryOp::Not => lemma_emit(cpu, b, moved, Op::Not { width, dst: Rm::Reg(d) }),
    }
}

/// The instructions of a widening leave the extended value in the register.
pub proof fn law_widening_computes(cpu: Cpu, c: Ctx, b: Bound, g: Gpr, src: Src, sign: bool)
    requires
        ext_into_spec(c, b, g, src, sign) is Ok,
        keeps(c, b.next, g),
    ensures
        ({
            let x = read_rmi(cpu, Width::W32, outcome(rmi_of_spec(c, b, src)));
            let after = bound_at(ext_into_spec(c, b, g, src, sign));
            reached(cpu, b, after).gpr[g] == if sign {
                signed(Width::W32, x) % modulus(Width::W64)
            } else {
                x
            }
        }),
{
    assert(added(b, b) =~= Seq::empty());
    assert(reached(cpu, b, b) == cpu);
    if sign {
        lemma_rm_operand(cpu, c, b, b, Width::W32, src, g);
        let (at, rm) = rm_of_spec(c, b, src, Width::W32, Exclude::One(g.phys()))->Ok_0;
        lemma_emit(cpu, b, at, Op::Movsxd { dst: g, src: rm });
    } else {
        let (got, rmi) = rmi_of_spec(c, b, src)->Ok_0;
        assert(added(b, got) == added(b, b));
        lemma_emit(cpu, b, got, Op::Mov { width: Width::W32, dst: Rm::Reg(g), src: rmi });
    }
}

/// The instructions of a shift leave its value in the scratch register. The count
/// is taken modulo the width; one that is not constant counts as it was when `rcx`
/// was free.
pub proof fn law_shifts_compute(
    cpu: Cpu,
    c: Ctx,
    b: Bound,
    op: ShiftOp,
    width: Width,
    lhs: Src,
    rhs: Src,
)
    requires
        shift_into_spec(c, b, op, width, lhs, rhs) is Ok,
        ({
            let (free, d) = scratch_spec(c, b, Exclude::One(Gpr::Rcx.phys()))->Ok_0;
            let (got, l) = rmi_of_spec(c, free, lhs)->Ok_0;
            let moved = got.emit(Op::Mov { width, dst: Rm::Reg(d), src: l });
            let cleared = bound_at(run_moves_spec(c, moved, Request::Clobber(Gpr::Rcx.phys())));
            &&& d != Gpr::Rcx
            &&& keeps(c, free.next, d)
            &&& !(rhs is Imm) ==> outcome(rmi_of_spec(c, cleared, rhs)) != Rmi::Reg(d)
        }),
    ensures
        ({
            let (free, d) = scratch_spec(c, b, Exclude::One(Gpr::Rcx.phys()))->Ok_0;
            let ready = reached(cpu, b, free);
            let (got, l) = rmi_of_spec(c, free, lhs)->Ok_0;
            let moved = got.emit(Op::Mov { width, dst: Rm::Reg(d), src: l });
            let x = read_rmi(ready, width, l);
            let (after, result) = shift_into_spec(c, b, op, width, lhs, rhs)->Ok_0;
            let n = match rhs {
                Src::Imm(count) => count as int,
                _ => {
                    let cleared = bound_at(
                        run_moves_spec(c, moved, Request::Clobber(Gpr::Rcx.phys())),
                    );
                    read_rmi(
                        reached(cpu, b, cleared),
                        Width::W32,
                        outcome(rmi_of_spec(c, cleared, rhs)),
                    )
                },
            };
            &&& result == d
            &&& reached(cpu, b, after).gpr[d] == shift_value(
                op,
                width,
                x,
                (n % 256 % bits_of(width)) as nat,
            )
        }),
{
    let (free, d) = scratch_spec(c, b, Exclude::One(Gpr::Rcx.phys()))->Ok_0;
    lemma_scratch_grows(c, b, Exclude::One(Gpr::Rcx.phys()));
    let (got, l) = rmi_of_spec(c, free, lhs)->Ok_0;
    assert(added(b, got) == added(b, free));
    let op_mov = Op::Mov { width, dst: Rm::Reg(d), src: l };
    lemma_emit(cpu, b, got, op_mov);
    let moved = got.emit(op_mov);
    lemma_in_width(reached(cpu, b, free), width, l);
    match rhs {
        Src::Imm(count) => {
            lemma_emit(cpu, b, moved, Op::ShiftImm { op, width, dst: Rm::Reg(d), count });
        },
        _ => {
            let request = Request::Clobber(Gpr::Rcx.phys());
            lemma_run_keeps(cpu, c, b, moved, request, d);
            let (cleared, _) = run_moves_spec(c, moved, request)->Ok_0;
            let (counted, r) = rmi_of_spec(c, cleared, rhs)->Ok_0;
            assert(added(b, counted) == added(b, cleared));
            let op_count = Op::Mov { width: Width::W32, dst: Rm::Reg(Gpr::Rcx), src: r };
            lemma_emit(cpu, b, counted, op_count);
            let loaded = counted.emit(op_count);
            lemma_emit(cpu, b, loaded, Op::ShiftCl { op, width, dst: Rm::Reg(d) });
        },
    }
}

/// The move leaves an operand as it is.
pub open spec fn move_keeps_operand(m: Move, operand: Rmi) -> bool {
    match operand {
        Rmi::Reg(g) => move_keeps(m, g),
        Rmi::Mem(cell) => match m {
            Move::Spill { slot, .. } => slot_mem(slot) != cell,
            _ => true,
        },
        Rmi::Imm(_) => true,
    }
}

/// The reply leaves an operand as it is.
pub open spec fn reply_keeps_operand(reply: Reply, operand: Rmi) -> bool {
    match reply {
        Reply::Scratch { reg, moves } => {
            &&& gpr_of(reg) is Ok ==> operand != Rmi::Reg(gpr_of(reg)->Ok_0)
            &&& forall|i: int|
                0 <= i < moves@.len() ==> move_keeps_operand(#[trigger] moves@[i], operand)
        },
        _ => true,
    }
}

/// The next reply, if it frees a scratch register, leaves an operand as it is.
pub open spec fn next_keeps_operand(c: Ctx, b: Bound, operand: Rmi) -> bool {
    b.next < c.replies.len() ==> reply_keeps_operand(c.replies[b.next as int], operand)
}

proof fn lemma_apply_keeps_operand(
    cpu: Cpu,
    b: Bound,
    mid: Bound,
    moves: Seq<Move>,
    n: nat,
    width: Width,
    operand: Rmi,
)
    requires
        b.ops.len() <= mid.ops.len(),
        n <= moves.len(),
        forall|i: int| 0 <= i < moves.len() ==> move_keeps_operand(#[trigger] moves[i], operand),
        apply_spec(mid, moves, n) is Ok,
    ensures
        ({
            let (after, _) = apply_spec(mid, moves, n)->Ok_0;
            &&& mid.ops.len() <= after.ops.len()
            &&& read_rmi(reached(cpu, b, after), width, operand) == read_rmi(
                reached(cpu, b, mid),
                width,
                operand,
            )
        }),
    decreases n,
{
    if n > 0 {
        lemma_apply_keeps_operand(cpu, b, mid, moves, (n - 1) as nat, width, operand);
        let (before, _) = apply_spec(mid, moves, (n - 1) as nat)->Ok_0;
        let op = move_op(moves[n - 1])->Ok_0;
        assert(move_keeps_operand(moves[n - 1], operand));
        lemma_emit(cpu, b, before, op);
    }
}

proof fn lemma_scratch_keeps_operand(
    cpu: Cpu,
    c: Ctx,
    b: Bound,
    mid: Bound,
    exclude: Exclude,
    width: Width,
    operand: Rmi,
)
    requires
        b.ops.len() <= mid.ops.len(),
        next_keeps_operand(c, mid, operand),
        scratch_spec(c, mid, exclude) is Ok,
    ensures
        ({
            let (after, g) = scratch_spec(c, mid, exclude)->Ok_0;
            &&& mid.ops.len() <= after.ops.len()
            &&& operand != Rmi::Reg(g)
            &&& read_rmi(reached(cpu, b, after), width, operand) == read_rmi(
                reached(cpu, b, mid),
                width,
                operand,
            )
        }),
{
    if let Reply::Scratch { reg, moves } = c.replies[mid.next as int] {
        assert(added(b, mid.used(Request::TakeScratch(exclude))) == added(b, mid));
        lemma_apply_keeps_operand(
            cpu,
            b,
            mid.used(Request::TakeScratch(exclude)),
            moves@,
            moves@.len(),
            width,
            operand,
        );
    }
}

/// A comparison compares its operands, as they were when the left one was looked
/// up, and leaves the flags of the two. Where it takes a scratch register for the
/// left one, freeing it leaves both as they are.
pub proof fn law_comparison_compares(
    cpu: Cpu,
    c: Ctx,
    b: Bound,
    width: Width,
    lhs: Src,
    rhs: Src,
)
    requires
        emit_cmp_spec(c, b, width, lhs, rhs) is Ok,
        ({
            let (mid, right) = wide_imm_spec(c, b, width, rhs, Exclude::Nothing)->Ok_0;
            let (got, left) = rmi_of_spec(c, mid, lhs)->Ok_0;
            next_keeps_operand(c, got, left) && next_keeps_operand(c, got, right)
        }),
    ensures
        ({
            let (mid, right) = wide_imm_spec(c, b, width, rhs, Exclude::Nothing)->Ok_0;
            let left = outcome(rmi_of_spec(c, mid, lhs));
            let ready = reached(cpu, b, mid);
            let ops = added(b, bound_at(emit_cmp_spec(c, b, width, lhs, rhs)));
            let before = run(cpu, ops.drop_last());
            &&& ops.len() > 0
            &&& match ops.last() {
                Op::Alu { op: AluOp::Cmp, width: w, dst, src } => {
                    &&& w == width
                    &&& read_rm(before, width, dst) == read_rmi(ready, width, left)
                    &&& read_rmi(before, width, src) == read_rmi(ready, width, right)
                },
                _ => false,
            }
            &&& run(cpu, ops).flags == int_flags(
                width,
                read_rmi(ready, width, left),
                read_rmi(ready, width, right),
            )
        }),
{
    reveal(emit_cmp_spec);
    let (mid, right) = wide_imm_spec(c, b, width, rhs, Exclude::Nothing)->Ok_0;
    let (got, left) = rmi_of_spec(c, mid, lhs)->Ok_0;
    let (found, rmi) = rmi_of_spec(c, b, rhs)->Ok_0;
    if wide_imm_of(width, rmi) is Some {
        lemma_scratch_grows(c, found, Exclude::Nothing);
    }
    assert(added(b, got) == added(b, mid));
    let after = bound_at(emit_cmp_spec(c, b, width, lhs, rhs));
    let ops = added(b, after);
    lemma_in_width(reached(cpu, b, mid), width, left);
    let with_scratch = left is Imm || (left is Mem && right is Mem);
    if with_scratch {
        let exclude = if left is Imm {
            exclude_reg(right)
        } else {
            Exclude::Nothing
        };
        lemma_scratch_keeps_operand(cpu, c, b, got, exclude, width, left);
        lemma_scratch_keeps_operand(cpu, c, b, got, exclude, width, right);
        let (free, g) = scratch_spec(c, got, exclude)->Ok_0;
        let op_mov = Op::Mov { width, dst: Rm::Reg(g), src: left };
        lemma_emit(cpu, b, free, op_mov);
        assert(ops.drop_last() =~= added(b, free.emit(op_mov)));
    } else {
        assert(ops.drop_last() =~= added(b, got));
    }
}

/// The first part of a division: the dividend goes to `rax`.
proof fn lemma_dividend(cpu: Cpu, c: Ctx, b: Bound, width: Width, lhs: Src)
    requires
        emit_mov_spec(c, b, width, Place::Reg(Gpr::Rax), lhs) is Ok,
    ensures
        ({
            let clear = bound_at(run_moves_spec(c, b, Request::Clobber(Gpr::Rax.phys())));
            let x = read_rmi(
                reached(cpu, b, clear),
                width,
                outcome(rmi_of_spec(c, clear, lhs)),
            );
            let after = bound_at(emit_mov_spec(c, b, width, Place::Reg(Gpr::Rax), lhs));
            &&& b.ops.len() <= after.ops.len()
            &&& reached(cpu, b, after).gpr[Gpr::Rax] % modulus(width) == x
        }),
{
    reveal(emit_mov_spec);
    let request = Request::Clobber(Gpr::Rax.phys());
    let (clear, _) = run_moves_spec(c, b, request)->Ok_0;
    lemma_run_grows(c, b, request);
    let (got, l) = rmi_of_spec(c, clear, lhs)->Ok_0;
    assert(added(b, got) == added(b, clear));
    lemma_in_width(reached(cpu, b, clear), width, l);
    lemma_emit(cpu, b, got, Op::Mov { width, dst: Rm::Reg(Gpr::Rax), src: l });
}

proof fn lemma_run_grows(c: Ctx, b: Bound, request: Request)
    requires
        run_moves_spec(c, b, request) is Ok,
    ensures
        ({
            let after = bound_at(run_moves_spec(c, b, request));
            b.ops.len() <= after.ops.len() && after.next == b.next + 1
        }),
{
    if let Reply::Moves(moves) = c.replies[b.next as int] {
        lemma_apply_next(b.used(request), moves@, moves@.len());
    }
}

/// Where a division has emptied its registers.
pub open spec fn division_ready(c: Ctx, b: Bound) -> Bound {
    let first = bound_at(run_moves_spec(c, b, Request::Clobber(Gpr::Rax.phys())));
    bound_at(run_moves_spec(c, first, Request::Clobber(Gpr::Rdx.phys())))
}

/// The last part of a division: the divisor is read, and the registers in use are
/// untouched up to the instruction that divides.
proof fn lemma_divisor(cpu: Cpu, c: Ctx, b: Bound, mid: Bound, width: Width, src: Src, sign: bool)
    requires
        b.ops.len() <= mid.ops.len(),
        emit_divide_spec(c, mid, width, src, sign) is Ok,
        keeps(c, mid.next, Gpr::Rax),
        keeps(c, mid.next, Gpr::Rdx),
    ensures
        ({
            let ready = division_ready(c, mid);
            let y = read_rmi(
                reached(cpu, b, ready),
                width,
                outcome(rmi_of_spec(c, ready, src)),
            );
            let after = bound_at(emit_divide_spec(c, mid, width, src, sign));
            exists|at: Bound, rm: Rm|
                {
                    &&& #[trigger] read_rm(reached(cpu, b, at), width, rm) == y
                    &&& reached(cpu, b, at).gpr[Gpr::Rax] == reached(cpu, b, mid).gpr[Gpr::Rax]
                    &&& reached(cpu, b, at).gpr[Gpr::Rdx] == reached(cpu, b, mid).gpr[Gpr::Rdx]
                    &&& reached(cpu, b, after) == execute(
                        reached(cpu, b, at),
                        if sign {
                            Op::Idiv { width, divisor: rm }
                        } else {
                            Op::Div { width, divisor: rm }
                        },
                    )
                }
        }),
{
    reveal(emit_divide_spec);
    let rax = Request::Clobber(Gpr::Rax.phys());
    let rdx = Request::Clobber(Gpr::Rdx.phys());
    let (first, _) = run_moves_spec(c, mid, rax)->Ok_0;
    lemma_run_keeps(cpu, c, b, mid, rax, Gpr::Rax);
    lemma_run_keeps(cpu, c, b, mid, rax, Gpr::Rdx);
    let (ready, _) = run_moves_spec(c, first, rdx)->Ok_0;
    lemma_run_keeps(cpu, c, b, first, rdx, Gpr::Rax);
    lemma_run_keeps(cpu, c, b, first, rdx, Gpr::Rdx);
    let exclude = Exclude::Two(Gpr::Rax.phys(), Gpr::Rdx.phys());
    let (found, rmi) = rmi_of_spec(c, ready, src)->Ok_0;
    assert(added(b, found) == added(b, ready));
    let (at, rm) = rm_of_spec(c, ready, src, width, exclude)->Ok_0;
    if let Rmi::Imm(i) = rmi {
        lemma_scratch_keeps(cpu, c, b, found, exclude, Gpr::Rax);
        lemma_scratch_keeps(cpu, c, b, found, exclude, Gpr::Rdx);
        let (taken, g) = scratch_spec(c, found, exclude)->Ok_0;
        lemma_emit(cpu, b, taken, Op::Mov { width, dst: Rm::Reg(g), src: Rmi::Imm(i) });
        lemma_in_width(reached(cpu, b, ready), width, rmi);
    }
    lemma_emit(
        cpu,
        b,
        at,
        if sign {
            Op::Idiv { width, divisor: rm }
        } else {
            Op::Div { width, divisor: rm }
        },
    );
    let y = read_rmi(reached(cpu, b, ready), width, rmi);
    assert(read_rm(reached(cpu, b, at), width, rm) == y);
}

/// A signed division does not trap.
pub open spec fn divides(width: Width, x: int, y: int) -> bool {
    let q = quotient(signed(width, x), signed(width, y));
    signed(width, y) != 0 && -modulus(width) / 2 <= q < modulus(width) / 2
}

/// The instructions of a signed division leave the quotient, rounded toward zero, in
/// `rax` and the remainder in `rdx`. The dividend counts as it was when `rax` was
/// free, the divisor as it was when both were.
#[verifier::rlimit(40)]
#[verifier::spinoff_prover]
pub proof fn law_signed_division_computes(
    cpu: Cpu,
    c: Ctx,
    b: Bound,
    width: Width,
    lhs: Src,
    rhs: Src,
)
    requires
        emit_mov_spec(c, b, width, Place::Reg(Gpr::Rax), lhs) is Ok,
        ({
            let clear = bound_at(run_moves_spec(c, b, Request::Clobber(Gpr::Rax.phys())));
            let loaded = bound_at(emit_mov_spec(c, b, width, Place::Reg(Gpr::Rax), lhs));
            let freed = run_moves_spec(c, loaded, Request::Clobber(Gpr::Rdx.phys()));
            let extended = bound_at(freed).emit(Op::Cdq { width });
            let ready = division_ready(c, extended);
            &&& freed is Ok
            &&& emit_divide_spec(c, extended, width, rhs, true) is Ok
            &&& keeps(c, loaded.next, Gpr::Rax)
            &&& keeps(c, extended.next, Gpr::Rdx)
            &&& divides(
                width,
                read_rmi(reached(cpu, b, clear), width, outcome(rmi_of_spec(c, clear, lhs))),
                read_rmi(reached(cpu, b, ready), width, outcome(rmi_of_spec(c, ready, rhs))),
            )
        }),
    ensures
        ({
            let clear = bound_at(run_moves_spec(c, b, Request::Clobber(Gpr::Rax.phys())));
            let x = read_rmi(
                reached(cpu, b, clear),
                width,
                outcome(rmi_of_spec(c, clear, lhs)),
            );
            let loaded = bound_at(emit_mov_spec(c, b, width, Place::Reg(Gpr::Rax), lhs));
            let freed = run_moves_spec(c, loaded, Request::Clobber(Gpr::Rdx.phys()));
            let extended = bound_at(freed).emit(Op::Cdq { width });
            let y = read_rmi(
                reached(cpu, b, division_ready(c, extended)),
                width,
                outcome(rmi_of_spec(c, division_ready(c, extended), rhs)),
            );
            let end = reached(cpu, b, bound_at(emit_divide_spec(c, extended, width, rhs, true)));
            let (sx, sy) = (signed(width, x), signed(width, y));
            &&& end.gpr[Gpr::Rax] == quotient(sx, sy) % modulus(width)
            &&& end.gpr[Gpr::Rdx] == remainder(sx, sy) % modulus(width)
        }),
{
    lemma_dividend(cpu, c, b, width, lhs);
    let loaded = bound_at(emit_mov_spec(c, b, width, Place::Reg(Gpr::Rax), lhs));
    let request = Request::Clobber(Gpr::Rdx.phys());
    let (freed, _) = run_moves_spec(c, loaded, request)->Ok_0;
    lemma_run_keeps(cpu, c, b, loaded, request, Gpr::Rax);
    lemma_emit(cpu, b, freed, Op::Cdq { width });
    let extended = freed.emit(Op::Cdq { width });
    let x = reached(cpu, b, loaded).gpr[Gpr::Rax] % modulus(width);
    lemma_cdq(reached(cpu, b, freed), width);
    lemma_divisor(cpu, c, b, extended, width, rhs, true);
    let ready = division_ready(c, extended);
    let y = read_rmi(reached(cpu, b, ready), width, outcome(rmi_of_spec(c, ready, rhs)));
    let (at, rm) = choose|at: Bound, rm: Rm|
        {
            &&& #[trigger] read_rm(reached(cpu, b, at), width, rm) == y
            &&& reached(cpu, b, at).gpr[Gpr::Rax] == reached(cpu, b, extended).gpr[Gpr::Rax]
            &&& reached(cpu, b, at).gpr[Gpr::Rdx] == reached(cpu, b, extended).gpr[Gpr::Rdx]
            &&& reached(cpu, b, bound_at(emit_divide_spec(c, extended, width, rhs, true)))
                == execute(reached(cpu, b, at), Op::Idiv { width, divisor: rm })
        };
    lemma_idiv(reached(cpu, b, at), width, rm, x, y);
}

/// `cdq` fills `rdx` with the sign of `rax`.
proof fn lemma_cdq(cpu: Cpu, width: Width)
    ensures
        ({
            let end = execute(cpu, Op::Cdq { width });
            let x = cpu.gpr[Gpr::Rax] % modulus(width);
            &&& end.gpr[Gpr::Rax] == cpu.gpr[Gpr::Rax]
            &&& end.gpr[Gpr::Rdx] % modulus(width) == if signed(width, x) < 0 {
                modulus(width) - 1
            } else {
                0
            }
        }),
{
    match width {
        Width::W32 => {},
        Width::W64 => {},
    }
}

/// `idiv` divides, where `rdx` holds the sign of the dividend.
proof fn lemma_idiv(cpu: Cpu, width: Width, rm: Rm, x: int, y: int)
    requires
        cpu.gpr[Gpr::Rax] % modulus(width) == x,
        cpu.gpr[Gpr::Rdx] % modulus(width) == if signed(width, x) < 0 {
            modulus(width) - 1
        } else {
            0
        },
        read_rm(cpu, width, rm) == y,
        divides(width, x, y),
    ensures
        ({
            let end = execute(cpu, Op::Idiv { width, divisor: rm });
            let (sx, sy) = (signed(width, x), signed(width, y));
            &&& end.gpr[Gpr::Rax] == quotient(sx, sy) % modulus(width)
            &&& end.gpr[Gpr::Rdx] == remainder(sx, sy) % modulus(width)
        }),
{
    lemma_sign_fill(width, x, cpu.gpr[Gpr::Rdx] % modulus(width));
}

/// A number below a word of its sign is the number with its sign.
pub proof fn lemma_sign_fill(width: Width, x: int, fill: int)
    requires
        0 <= x < modulus(width),
        fill == if signed(width, x) < 0 {
            modulus(width) - 1
        } else {
            0
        },
    ensures
        signed(width, fill) * modulus(width) + x == signed(width, x),
{
    match width {
        Width::W32 => {},
        Width::W64 => {},
    }
}

/// The instructions of an unsigned division leave the quotient in `rax` and the
/// remainder in `rdx`. A 32-bit move clears all of `rdx`.
pub proof fn law_unsigned_division_computes(
    cpu: Cpu,
    c: Ctx,
    b: Bound,
    width: Width,
    lhs: Src,
    rhs: Src,
)
    requires
        emit_mov_spec(c, b, width, Place::Reg(Gpr::Rax), lhs) is Ok,
        ({
            let loaded = bound_at(emit_mov_spec(c, b, width, Place::Reg(Gpr::Rax), lhs));
            let zeroed = emit_mov_spec(c, loaded, Width::W32, Place::Reg(Gpr::Rdx), Src::Imm(0));
            let ready = division_ready(c, bound_at(zeroed));
            &&& zeroed is Ok
            &&& emit_divide_spec(c, bound_at(zeroed), width, rhs, false) is Ok
            &&& keeps(c, loaded.next, Gpr::Rax)
            &&& keeps(c, bound_at(zeroed).next, Gpr::Rdx)
            &&& read_rmi(
                reached(cpu, b, ready),
                width,
                outcome(rmi_of_spec(c, ready, rhs)),
            ) != 0
        }),
    ensures
        ({
            let clear = bound_at(run_moves_spec(c, b, Request::Clobber(Gpr::Rax.phys())));
            let x = read_rmi(
                reached(cpu, b, clear),
                width,
                outcome(rmi_of_spec(c, clear, lhs)),
            );
            let loaded = bound_at(emit_mov_spec(c, b, width, Place::Reg(Gpr::Rax), lhs));
            let zeroed = bound_at(
                emit_mov_spec(c, loaded, Width::W32, Place::Reg(Gpr::Rdx), Src::Imm(0)),
            );
            let ready = division_ready(c, zeroed);
            let y = read_rmi(
                reached(cpu, b, ready),
                width,
                outcome(rmi_of_spec(c, ready, rhs)),
            );
            let end = reached(cpu, b, bound_at(emit_divide_spec(c, zeroed, width, rhs, false)));
            &&& end.gpr[Gpr::Rax] == x / y
            &&& end.gpr[Gpr::Rdx] == x % y
        }),
{
    lemma_dividend(cpu, c, b, width, lhs);
    let loaded = bound_at(emit_mov_spec(c, b, width, Place::Reg(Gpr::Rax), lhs));
    lemma_zeroed(cpu, c, b, loaded);
    let zeroed = bound_at(emit_mov_spec(c, loaded, Width::W32, Place::Reg(Gpr::Rdx), Src::Imm(0)));
    lemma_divisor(cpu, c, b, zeroed, width, rhs, false);
    let x = reached(cpu, b, loaded).gpr[Gpr::Rax] % modulus(width);
    let ready = division_ready(c, zeroed);
    let y = read_rmi(reached(cpu, b, ready), width, outcome(rmi_of_spec(c, ready, rhs)));
    lemma_in_width(reached(cpu, b, ready), width, outcome(rmi_of_spec(c, ready, rhs)));
    lemma_unsigned_parts(width, x, y);
    let (at, rm) = choose|at: Bound, rm: Rm|
        {
            &&& #[trigger] read_rm(reached(cpu, b, at), width, rm) == y
            &&& reached(cpu, b, at).gpr[Gpr::Rax] == reached(cpu, b, zeroed).gpr[Gpr::Rax]
            &&& reached(cpu, b, at).gpr[Gpr::Rdx] == reached(cpu, b, zeroed).gpr[Gpr::Rdx]
            &&& reached(cpu, b, bound_at(emit_divide_spec(c, zeroed, width, rhs, false)))
                == execute(reached(cpu, b, at), Op::Div { width, divisor: rm })
        };
    assert(reached(cpu, b, at).gpr[Gpr::Rdx] % modulus(width) * modulus(width) + x == x);
}

/// The second part of an unsigned division: `rdx` is zero, and `rax` is untouched.
proof fn lemma_zeroed(cpu: Cpu, c: Ctx, b: Bound, mid: Bound)
    requires
        b.ops.len() <= mid.ops.len(),
        keeps(c, mid.next, Gpr::Rax),
        emit_mov_spec(c, mid, Width::W32, Place::Reg(Gpr::Rdx), Src::Imm(0)) is Ok,
    ensures
        ({
            let after = bound_at(
                emit_mov_spec(c, mid, Width::W32, Place::Reg(Gpr::Rdx), Src::Imm(0)),
            );
            &&& mid.ops.len() <= after.ops.len()
            &&& mid.next <= after.next
            &&& reached(cpu, b, after).gpr[Gpr::Rax] == reached(cpu, b, mid).gpr[Gpr::Rax]
            &&& reached(cpu, b, after).gpr[Gpr::Rdx] == 0
        }),
{
    reveal(emit_mov_spec);
    let request = Request::Clobber(Gpr::Rdx.phys());
    let (freed, _) = run_moves_spec(c, mid, request)->Ok_0;
    lemma_run_keeps(cpu, c, b, mid, request, Gpr::Rax);
    lemma_emit(
        cpu,
        b,
        freed,
        Op::Mov { width: Width::W32, dst: Rm::Reg(Gpr::Rdx), src: Rmi::Imm(0) },
    );
}

/// A quotient and a remainder of numbers of a width are numbers of that width.
pub proof fn lemma_unsigned_parts(width: Width, x: int, y: int)
    requires
        0 <= x < modulus(width),
        0 < y < modulus(width),
    ensures
        0 <= quotient(x, y) < modulus(width),
        quotient(x, y) % modulus(width) == x / y,
        remainder(x, y) % modulus(width) == x % y,
{
    vstd::arithmetic::div_mod::lemma_fundamental_div_mod(x, y);
    vstd::arithmetic::div_mod::lemma_div_is_ordered_by_denominator(x, 1, y);
    vstd::arithmetic::div_mod::lemma_div_pos_is_pos(x, y);
    vstd::arithmetic::mul::lemma_mul_is_commutative(x / y, y);
    vstd::arithmetic::div_mod::lemma_small_mod((x / y) as nat, modulus(width) as nat);
    vstd::arithmetic::div_mod::lemma_small_mod((x % y) as nat, modulus(width) as nat);
}

/// Moves leave the flags alone.
proof fn lemma_apply_keeps_flags(cpu: Cpu, b: Bound, mid: Bound, moves: Seq<Move>, n: nat)
    requires
        b.ops.len() <= mid.ops.len(),
        n <= moves.len(),
        apply_spec(mid, moves, n) is Ok,
    ensures
        ({
            let (after, _) = apply_spec(mid, moves, n)->Ok_0;
            &&& mid.ops.len() <= after.ops.len()
            &&& reached(cpu, b, after).flags == reached(cpu, b, mid).flags
        }),
    decreases n,
{
    if n > 0 {
        lemma_apply_keeps_flags(cpu, b, mid, moves, (n - 1) as nat);
        let (before, _) = apply_spec(mid, moves, (n - 1) as nat)->Ok_0;
        lemma_emit(cpu, b, before, move_op(moves[n - 1])->Ok_0);
    }
}

proof fn lemma_scratch_keeps_flags(cpu: Cpu, c: Ctx, b: Bound, mid: Bound, exclude: Exclude)
    requires
        b.ops.len() <= mid.ops.len(),
        scratch_spec(c, mid, exclude) is Ok,
    ensures
        ({
            let (after, _) = scratch_spec(c, mid, exclude)->Ok_0;
            &&& mid.ops.len() <= after.ops.len()
            &&& after.next == mid.next + 1
            &&& reached(cpu, b, after).flags == reached(cpu, b, mid).flags
        }),
{
    let request = Request::TakeScratch(exclude);
    if let Reply::Scratch { reg, moves } = c.replies[mid.next as int] {
        assert(added(b, mid.used(request)) == added(b, mid));
        lemma_apply_keeps_flags(cpu, b, mid.used(request), moves@, moves@.len());
        lemma_apply_next(mid.used(request), moves@, moves@.len());
    }
}

/// A register that is cleared and then set to a condition.
pub open spec fn set_to(b: Bound, cc: CondCode, g: Gpr) -> Bound {
    b.emit(Op::Mov { width: Width::W32, dst: Rm::Reg(g), src: Rmi::Imm(0) }).emit(
        Op::Setcc { cc, dst: g },
    )
}

/// It holds 1 where the condition does, else 0. Other registers and the flags are
/// as they were.
proof fn lemma_set_to(cpu: Cpu, b: Bound, mid: Bound, cc: CondCode, g: Gpr)
    requires
        b.ops.len() <= mid.ops.len(),
    ensures
        ({
            let before = reached(cpu, b, mid);
            let end = reached(cpu, b, set_to(mid, cc, g));
            &&& end.gpr[g] == bit(holds(cc, before.flags))
            &&& end.flags == before.flags
            &&& forall|other: Gpr| other != g ==> #[trigger] end.gpr[other] == before.gpr[other]
        }),
{
    let clear = Op::Mov { width: Width::W32, dst: Rm::Reg(g), src: Rmi::Imm(0) };
    lemma_emit(cpu, b, mid, clear);
    lemma_emit(cpu, b, mid.emit(clear), Op::Setcc { cc, dst: g });
}

/// The `setcc` of an integer comparison leaves exactly 1 or 0 in its register: 1 where
/// the condition holds. After a comparison of `x` and `y` that is where the operator's
/// comparison does. A temporary is then defined by that register.
pub proof fn law_setcc_computes(
    cpu: Cpu,
    c: Ctx,
    b: Bound,
    op: BinaryOp,
    cc: CondCode,
    dst: Place,
    width: Width,
    x: int,
    y: int,
)
    requires
        emit_setcc_spec(c, b, cc, dst) is Ok,
        CondCode::of(op) == Some(cc),
        0 <= x < modulus(width),
        0 <= y < modulus(width),
        cpu.flags == int_flags(width, x, y),
    ensures
        match dst {
            Place::Val(t) => {
                let (free, g) = scratch_spec(c, b, Exclude::Nothing)->Ok_0;
                let set = set_to(free, cc, g);
                &&& emit_setcc_spec(c, b, cc, dst) == define_temp_reg_spec(c, set, t.0, g)
                &&& reached(cpu, b, set).gpr[g] == bit(int_truth(op, width, x, y))
            },
            Place::Reg(g) => reached(cpu, b, bound_at(emit_setcc_spec(c, b, cc, dst))).gpr[g]
                == bit(int_truth(op, width, x, y)),
        },
{
    reveal(emit_setcc_spec);
    law_integer_condition(op, cc, width, x, y);
    assert(added(b, b) =~= Seq::empty());
    assert(reached(cpu, b, b) == cpu);
    match dst {
        Place::Val(t) => {
            lemma_scratch_keeps_flags(cpu, c, b, b, Exclude::Nothing);
            let (free, g) = scratch_spec(c, b, Exclude::Nothing)->Ok_0;
            lemma_set_to(cpu, b, free, cc, g);
        },
        Place::Reg(g) => {
            let request = Request::Clobber(g.phys());
            let (free, _) = run_moves_spec(c, b, request)->Ok_0;
            lemma_run_grows(c, b, request);
            if let Reply::Moves(moves) = c.replies[b.next as int] {
                assert(added(b, b.used(request)) == added(b, b));
                lemma_apply_keeps_flags(cpu, b, b.used(request), moves@, moves@.len());
            }
            lemma_set_to(cpu, b, free, cc, g);
        },
    }
}

/// The `setcc`s of a float comparison leave exactly 1 or 0 in the scratch register: 1
/// where the comparison holds, whatever its outcome.
pub proof fn law_float_setcc_computes(
    cpu: Cpu,
    c: Ctx,
    b: Bound,
    op: BinaryOp,
    relation: Relation,
)
    requires
        setcc_f_into_spec(c, b, op) is Ok,
        cpu.flags == float_flags(relation),
        ({
            let (free, g) = scratch_spec(c, b, Exclude::Nothing)->Ok_0;
            keeps(c, free.next, g)
        }),
    ensures
        ({
            let (after, g) = setcc_f_into_spec(c, b, op)->Ok_0;
            &&& g == outcome(scratch_spec(c, b, Exclude::Nothing))
            &&& reached(cpu, b, after).gpr[g] == bit(float_truth(op, relation))
        }),
{
    law_float_recipe(op, relation);
    let recipe = float_recipe(op)->0;
    assert(added(b, b) =~= Seq::empty());
    assert(reached(cpu, b, b) == cpu);
    lemma_scratch_keeps_flags(cpu, c, b, b, Exclude::Nothing);
    let (free, ga) = scratch_spec(c, b, Exclude::Nothing)->Ok_0;
    lemma_set_to(cpu, b, free, recipe.first, ga);
    let first = set_to(free, recipe.first, ga);
    let joined = match recipe.second {
        Second::Nothing => None,
        Second::And(cc) => Some((cc, AluOp::And)),
        Second::Or(cc) => Some((cc, AluOp::Or)),
    };
    if let Some((cc, join)) = joined {
        lemma_joined(cpu, c, b, first, cc, join, ga);
    }
}

/// The second condition of a float comparison, joined with the one in `ga`.
proof fn lemma_joined(
    cpu: Cpu,
    c: Ctx,
    b: Bound,
    mid: Bound,
    cc: CondCode,
    join: AluOp,
    ga: Gpr,
)
    requires
        b.ops.len() <= mid.ops.len(),
        keeps(c, mid.next, ga),
        scratch_spec(c, mid, Exclude::One(ga.phys())) is Ok,
        join is And || join is Or,
        ({
            let before = reached(cpu, b, mid);
            before.gpr[ga] == 0 || before.gpr[ga] == 1
        }),
    ensures
        ({
            let before = reached(cpu, b, mid);
            let (free, gb) = scratch_spec(c, mid, Exclude::One(ga.phys()))->Ok_0;
            let after = set_to(free, cc, gb).emit(
                Op::Alu { op: join, width: Width::W32, dst: Rm::Reg(ga), src: Rmi::Reg(gb) },
            );
            let (p, q) = (before.gpr[ga] == 1, holds(cc, before.flags));
            reached(cpu, b, after).gpr[ga] == bit(
                if join is And {
                    p && q
                } else {
                    p || q
                },
            )
        }),
{
    let exclude = Exclude::One(ga.phys());
    lemma_scratch_keeps_flags(cpu, c, b, mid, exclude);
    lemma_scratch_keeps(cpu, c, b, mid, exclude, ga);
    let (free, gb) = scratch_spec(c, mid, exclude)->Ok_0;
    lemma_set_to(cpu, b, free, cc, gb);
    let op_join = Op::Alu { op: join, width: Width::W32, dst: Rm::Reg(ga), src: Rmi::Reg(gb) };
    lemma_emit(cpu, b, set_to(free, cc, gb), op_join);
    let before = reached(cpu, b, mid);
    lemma_bits_join(before.gpr[ga] == 1, holds(cc, before.flags));
}

/// Truth values join as their numbers do.
proof fn lemma_bits_join(p: bool, q: bool)
    ensures
        alu_value(AluOp::And, Width::W32, bit(p), bit(q)) == bit(p && q),
        alu_value(AluOp::Or, Width::W32, bit(p), bit(q)) == bit(p || q),
{
    assert(0u64 & 0u64 == 0 && 0u64 & 1u64 == 0 && 1u64 & 0u64 == 0 && 1u64 & 1u64 == 1)
        by (bit_vector);
    assert(0u64 | 0u64 == 0 && 0u64 | 1u64 == 1 && 1u64 | 0u64 == 1 && 1u64 | 1u64 == 1)
        by (bit_vector);
}

} // verus!
