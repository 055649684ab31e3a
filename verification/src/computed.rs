//! What bound descriptors compute.
//!
//! Each law runs the instructions that a descriptor is bound to, on any processor, and
//! says what they leave: the value in a register or in a frame slot, where the value
//! machine was told it is. Operands count as the value machine said where they are.
//! What a law asks of the value machine is that its moves leave alone what is in use.

use crate::bind::{
    apply_spec, arith_into_spec, bits_imm, bound_at, define_gc_temp_spec, define_temp_reg_spec,
    define_xmm_spec, emit_arith_f_spec, emit_arith_spec, emit_cmp_f_spec, emit_const_f_spec,
    emit_cvt_f_to_f_spec, emit_cvt_f_to_int_spec, emit_cvt_int_to_f_spec, emit_define_temp_spec,
    emit_float_inst_spec, emit_inst_spec, emit_lea_spec, emit_mov_f_spec, emit_mov_spec,
    emit_movext_spec, emit_neg_f_spec, emit_shift_spec, emit_store_to_local_spec, emit_unary_spec,
    ext_into_spec, int_width, is_gc, materialize_bits_spec, move_op, outcome, place_int_spec,
    rm_of_spec, rmi_of_spec, rmx_of_spec, run_moves_spec, scratch_spec, shift_into_spec, sign_mask,
    slot_mem, unary_into_spec, wide_imm_of, wide_imm_spec, Asked, Bound, Ctx, Exclude, Loc, Move,
    Op, ReadSrc, Reply, Request, Step, SCRATCH_XMM_A, SCRATCH_XMM_B,
};
use crate::encode::{Mem, Rm, RmX, Rmi};
use crate::faithful::lemma_as_signed;
use crate::flags::{float_flags, law_sign_mask_flips_the_sign};
use crate::inst::{
    Amode, ArithFOp, ArithOp, FWidth, Inst, Place, ShiftOp, Src, Width, XmmPlace, XmmSrc,
};
use crate::ir::{LocalId, UnaryOp, Val};
use crate::machine::{
    added, bits_of, keeps, law_arithmetic_computes, law_shifts_compute, law_unary_computes,
    law_widening_computes, lemma_emit, lemma_in_width, modulus, move_keeps, moves_keep, reached,
    read_rm, read_rmi, read_rmx, reply_keeps, run, shift_value, signed, Cpu,
};
use crate::meaning::{arith_float_result, arith_result, float_modulus, negated, other_width};
use crate::regs::{law_from_phys_inverts_phys, Gpr, Xmm};
use crate::residency::{
    extends, lemma_kept_arith_into, lemma_kept_ext_into, lemma_kept_shift_into,
    lemma_kept_unary_into, lemma_noted,
};
use vstd::prelude::*;

verus! {

/// No move writes the cell.
pub open spec fn moves_spare(moves: Seq<Move>, m: Mem) -> bool {
    forall|i: int|
        0 <= i < moves.len() ==> match #[trigger] moves[i] {
            Move::Spill { slot, .. } => slot_mem(slot) != m,
            _ => true,
        }
}

pub open spec fn reply_spares_cell(reply: Reply, m: Mem) -> bool {
    match reply {
        Reply::Moves(moves) => moves_spare(moves@, m),
        Reply::Scratch { moves, .. } => moves_spare(moves@, m),
        _ => true,
    }
}

/// From reply `from` on, the value machine leaves the cell alone.
pub open spec fn spares_cell(c: Ctx, from: nat, m: Mem) -> bool {
    forall|i: int| from <= i < c.replies.len() ==> reply_spares_cell(#[trigger] c.replies[i], m)
}

/// Moves of the value machine came between: they leave the flags and the float
/// registers, and the registers and cells that it keeps clear of.
pub open spec fn only_moved(c: Ctx, from: nat, before: Cpu, after: Cpu) -> bool {
    &&& after.xmm == before.xmm
    &&& after.math == before.math
    &&& after.address == before.address
    &&& after.flags == before.flags
    &&& forall|g: Gpr| keeps(c, from, g) ==> #[trigger] after.gpr[g] == before.gpr[g]
    &&& forall|m: Mem| spares_cell(c, from, m) ==> #[trigger] after.cells[m] == before.cells[m]
}

proof fn lemma_apply_leaves(cpu: Cpu, b: Bound, mid: Bound, moves: Seq<Move>, n: nat)
    requires
        b.ops.len() <= mid.ops.len(),
        n <= moves.len(),
        apply_spec(mid, moves, n) is Ok,
    ensures
        ({
            let after = bound_at(apply_spec(mid, moves, n));
            let (start, end) = (reached(cpu, b, mid), reached(cpu, b, after));
            &&& mid.ops.len() <= after.ops.len()
            &&& after.next == mid.next
            &&& after.asked == mid.asked
            &&& end.xmm == start.xmm
            &&& end.math == start.math
            &&& end.address == start.address
            &&& end.flags == start.flags
            &&& forall|g: Gpr| moves_keep(moves, g) ==> #[trigger] end.gpr[g] == start.gpr[g]
            &&& forall|m: Mem| moves_spare(moves, m) ==> #[trigger] end.cells[m] == start.cells[m]
        }),
    decreases n,
{
    if n > 0 {
        lemma_apply_leaves(cpu, b, mid, moves, (n - 1) as nat);
        let before = bound_at(apply_spec(mid, moves, (n - 1) as nat));
        let op = move_op(moves[n - 1])->Ok_0;
        lemma_emit(cpu, b, before, op);
        assert forall|g: Gpr| moves_keep(moves, g) implies #[trigger] reached(
            cpu,
            b,
            before.emit(op),
        ).gpr[g] == reached(cpu, b, mid).gpr[g] by {
            assert(move_keeps(moves[n - 1], g));
            assert(reached(cpu, b, before).gpr[g] == reached(cpu, b, mid).gpr[g]);
        }
        assert forall|m: Mem| moves_spare(moves, m) implies #[trigger] reached(
            cpu,
            b,
            before.emit(op),
        ).cells[m] == reached(cpu, b, mid).cells[m] by {
            let last = moves[n - 1];
            assert(reached(cpu, b, before).cells[m] == reached(cpu, b, mid).cells[m]);
        }
    }
}

/// The moves that a request brings.
pub proof fn lemma_moves(cpu: Cpu, c: Ctx, b: Bound, mid: Bound, request: Request, from: nat)
    requires
        from <= mid.next,
        b.ops.len() <= mid.ops.len(),
        run_moves_spec(c, mid, request) is Ok,
    ensures
        ({
            let after = bound_at(run_moves_spec(c, mid, request));
            &&& mid.ops.len() <= after.ops.len()
            &&& after.next == mid.next + 1
            &&& after.asked.len() == mid.asked.len() + 1
            &&& only_moved(c, from, reached(cpu, b, mid), reached(cpu, b, after))
        }),
{
    if let Reply::Moves(moves) = c.replies[mid.next as int] {
        let used = mid.used(request);
        assert(added(b, used) == added(b, mid));
        lemma_apply_leaves(cpu, b, used, moves@, moves@.len());
        lemma_reply_leaves(c, from, mid.next, moves@);
    }
}

/// The moves of one reply are among those that the value machine makes.
proof fn lemma_reply_leaves(c: Ctx, from: nat, at: nat, moves: Seq<Move>)
    requires
        from <= at < c.replies.len(),
        match c.replies[at as int] {
            Reply::Moves(m) => m@ == moves,
            Reply::Scratch { moves: m, .. } => m@ == moves,
            _ => false,
        },
    ensures
        forall|g: Gpr| keeps(c, from, g) ==> #[trigger] moves_keep(moves, g),
        forall|m: Mem| spares_cell(c, from, m) ==> #[trigger] moves_spare(moves, m),
{
    assert forall|g: Gpr| keeps(c, from, g) implies #[trigger] moves_keep(moves, g) by {
        assert(reply_keeps(c.replies[at as int], g));
    }
    assert forall|m: Mem| spares_cell(c, from, m) implies #[trigger] moves_spare(moves, m) by {
        assert(reply_spares_cell(c.replies[at as int], m));
    }
}

/// The moves that free a scratch register. It is none that the machine keeps clear of.
pub proof fn lemma_takes(cpu: Cpu, c: Ctx, b: Bound, mid: Bound, exclude: Exclude, from: nat)
    requires
        from <= mid.next,
        b.ops.len() <= mid.ops.len(),
        scratch_spec(c, mid, exclude) is Ok,
    ensures
        ({
            let (after, taken) = scratch_spec(c, mid, exclude)->Ok_0;
            &&& mid.ops.len() <= after.ops.len()
            &&& after.next == mid.next + 1
            &&& after.asked.len() == mid.asked.len() + 1
            &&& only_moved(c, from, reached(cpu, b, mid), reached(cpu, b, after))
            &&& !keeps(c, from, taken)
        }),
{
    if let Reply::Scratch { reg, moves } = c.replies[mid.next as int] {
        let used = mid.used(Request::TakeScratch(exclude));
        assert(added(b, used) == added(b, mid));
        lemma_apply_leaves(cpu, b, used, moves@, moves@.len());
        lemma_reply_leaves(c, from, mid.next, moves@);
        let taken = outcome(scratch_spec(c, mid, exclude));
        if keeps(c, from, taken) {
            assert(reply_keeps(c.replies[mid.next as int], taken));
        }
    }
}

/// The value of a source: of a value, what is where the reply says.
pub open spec fn given(c: Ctx, b: Bound, cpu: Cpu, width: Width, src: Src) -> int {
    match src {
        Src::Reg(g) => cpu.gpr[g] % modulus(width),
        Src::Imm(k) => k as int % modulus(width),
        Src::Val(_) => match c.replies[b.next as int] {
            Reply::Source(ReadSrc::Reg(p)) => cpu.gpr[Gpr::from_phys(p)->0] % modulus(width),
            Reply::Source(ReadSrc::Slot(offset)) => cpu.cells[slot_mem(offset)] % modulus(width),
            Reply::Source(ReadSrc::Imm(k)) => k as int % modulus(width),
            _ => arbitrary(),
        },
    }
}

/// A source is what the value machine says of its value, and of no other.
pub proof fn law_sources_are_where_they_are_said_to_be(
    c: Ctx,
    b: Bound,
    cpu: Cpu,
    width: Width,
    src: Src,
)
    requires
        rmi_of_spec(c, b, src) is Ok,
    ensures
        read_rmi(cpu, width, outcome(rmi_of_spec(c, b, src))) == given(c, b, cpu, width, src),
        bound_at(rmi_of_spec(c, b, src)) == match src {
            Src::Val(v) => b.used(Request::Read(v.0)),
            _ => b,
        },
{
}

/// The source keeps its value while the value machine moves others.
pub open spec fn stays(c: Ctx, b: Bound, src: Src) -> bool {
    match src {
        Src::Imm(_) => true,
        Src::Reg(g) => keeps(c, b.next, g),
        Src::Val(_) => match c.replies[b.next as int] {
            Reply::Source(ReadSrc::Reg(p)) => keeps(c, b.next, Gpr::from_phys(p)->0),
            Reply::Source(ReadSrc::Slot(offset)) => spares_cell(c, b.next, slot_mem(offset)),
            _ => true,
        },
    }
}

/// What a place holds. A constant is what it is, and another local's value is in its
/// slot.
pub open spec fn held(c: Ctx, cpu: Cpu, loc: Loc) -> int {
    match loc {
        Loc::Reg(p) => cpu.gpr[Gpr::from_phys(p)->0],
        Loc::Mem(offset) => cpu.cells[slot_mem(offset)],
        Loc::Const(k) => k as int,
        Loc::Local(l) => cpu.cells[slot_mem(c.slots[l.0 as int])],
    }
}

/// The processor when the last request was made.
pub open spec fn when_asked(cpu: Cpu, b: Bound, after: Bound) -> Cpu {
    run(cpu, after.ops.subrange(b.ops.len() as int, after.asked.last().emitted as int))
}

/// The last request notes where a temporary is, and that is where its value was then.
pub open spec fn defines(
    cpu: Cpu,
    c: Ctx,
    b: Bound,
    after: Bound,
    t: LocalId,
    width: Width,
    v: int,
) -> bool {
    &&& b.asked.len() < after.asked.len()
    &&& b.ops.len() <= after.asked.last().emitted <= after.ops.len()
    &&& match after.asked.last().request {
        Request::Define(id, loc) => id == t && held(c, when_asked(cpu, b, after), loc) % modulus(
            width,
        ) == v,
        _ => false,
    }
}

/// A note of a place, made where the place holds the value.
proof fn lemma_defines(
    cpu: Cpu,
    c: Ctx,
    b: Bound,
    mid: Bound,
    t: LocalId,
    loc: Loc,
    width: Width,
    v: int,
)
    requires
        b.ops.len() <= mid.ops.len(),
        b.asked.len() <= mid.asked.len(),
        run_moves_spec(c, mid, Request::Define(t, loc)) is Ok,
        held(c, reached(cpu, b, mid), loc) % modulus(width) == v,
    ensures
        defines(
            cpu,
            c,
            b,
            bound_at(run_moves_spec(c, mid, Request::Define(t, loc))),
            t,
            width,
            v,
        ),
{
    let request = Request::Define(t, loc);
    lemma_noted(c, mid, request);
    let after = bound_at(run_moves_spec(c, mid, request));
    assert(after.asked.last() == (Asked { request, emitted: mid.ops.len() }));
    assert(after.ops.subrange(b.ops.len() as int, mid.ops.len() as int) =~= added(b, mid));
}

/// A temporary that is defined by a register is where it is said to be: in the register,
/// or, where it is a GC pointer, in its slot.
pub proof fn lemma_defined_by(
    cpu: Cpu,
    c: Ctx,
    b: Bound,
    mid: Bound,
    t: LocalId,
    g: Gpr,
    width: Width,
)
    requires
        b.ops.len() <= mid.ops.len(),
        b.asked.len() <= mid.asked.len(),
        define_temp_reg_spec(c, mid, t, g) is Ok,
    ensures
        defines(
            cpu,
            c,
            b,
            bound_at(define_temp_reg_spec(c, mid, t, g)),
            t,
            width,
            reached(cpu, b, mid).gpr[g] % modulus(width),
        ),
{
    let v = reached(cpu, b, mid).gpr[g] % modulus(width);
    let ty = c.types[t.0 as int];
    if is_gc(ty) {
        let slot = c.slots[t.0 as int];
        let op = Op::Mov { width: Width::W64, dst: Rm::Mem(slot_mem(slot)), src: Rmi::Reg(g) };
        lemma_emit(cpu, b, mid, op);
        lemma_halves(reached(cpu, b, mid).gpr[g]);
        lemma_defines(cpu, c, b, mid.emit(op), t, Loc::Mem(slot), width, v);
    } else {
        law_from_phys_inverts_phys(g, Xmm::Xmm0);
        lemma_defines(cpu, c, b, mid, t, Loc::Reg(g.phys()), width, v);
    }
}

/// The low half of a word is that of the whole.
pub proof fn lemma_halves(x: int)
    ensures
        x % modulus(Width::W64) % modulus(Width::W32) == x % modulus(Width::W32),
        x % modulus(Width::W64) % modulus(Width::W64) == x % modulus(Width::W64),
        x % modulus(Width::W32) % modulus(Width::W32) == x % modulus(Width::W32),
{
}

/// A value on its way to a cell.
spec fn to_cell(c: Ctx, b: Bound, width: Width, src: Src, m: Mem) -> Step<()> {
    match wide_imm_spec(c, b, width, src, Exclude::Nothing) {
        Err(halt) => Err(halt),
        Ok((b, rmi)) => match rmi {
            Rmi::Mem(from) => if from == m {
                Ok((b, ()))
            } else {
                match scratch_spec(c, b, Exclude::Nothing) {
                    Err(halt) => Err(halt),
                    Ok((b, g)) => Ok(
                        (
                            b.emit(Op::Mov { width, dst: Rm::Reg(g), src: Rmi::Mem(from) }).emit(
                                Op::Mov { width, dst: Rm::Mem(m), src: Rmi::Reg(g) },
                            ),
                            (),
                        ),
                    ),
                }
            },
            _ => Ok((b.emit(Op::Mov { width, dst: Rm::Mem(m), src: rmi }), ())),
        },
    }
}

/// The cell got a value of a width, and no other cell that the value machine leaves
/// alone changed, nor a register that it keeps clear of, nor a float register.
pub open spec fn stores(
    c: Ctx,
    from: nat,
    before: Cpu,
    after: Cpu,
    m: Mem,
    width: Width,
    v: int,
) -> bool {
    &&& after.cells[m] % modulus(width) == v
    &&& after.xmm == before.xmm
    &&& forall|other: Mem|
        other != m && spares_cell(c, from, other) ==> #[trigger] after.cells[other]
            == before.cells[other]
    &&& forall|g: Gpr| keeps(c, from, g) ==> #[trigger] after.gpr[g] == before.gpr[g]
}

proof fn lemma_cell_written(x: int, width: Width, v: int)
    requires
        0 <= v < modulus(width),
    ensures
        (x - x % modulus(width) + v) % modulus(width) == v,
        v % modulus(width) == v,
{
    match width {
        Width::W32 => {},
        Width::W64 => {},
    }
}

proof fn lemma_to_cell(cpu: Cpu, c: Ctx, b: Bound, mid: Bound, width: Width, src: Src, m: Mem)
    requires
        b.ops.len() <= mid.ops.len(),
        to_cell(c, mid, width, src, m) is Ok,
        stays(c, mid, src),
    ensures
        ({
            let after = bound_at(to_cell(c, mid, width, src, m));
            let start = reached(cpu, b, mid);
            &&& mid.ops.len() <= after.ops.len()
            &&& mid.asked.len() <= after.asked.len()
            &&& stores(
                c,
                mid.next,
                start,
                reached(cpu, b, after),
                m,
                width,
                given(c, mid, start, width, src),
            )
        }),
{
    let start = reached(cpu, b, mid);
    let v = given(c, mid, start, width, src);
    law_sources_are_where_they_are_said_to_be(c, mid, start, width, src);
    let (found, rmi) = rmi_of_spec(c, mid, src)->Ok_0;
    assert(added(b, found) == added(b, mid));
    if let Some(i) = wide_imm_of(width, rmi) {
        lemma_takes(cpu, c, b, found, Exclude::Nothing, mid.next);
        let (taken, g) = scratch_spec(c, found, Exclude::Nothing)->Ok_0;
        let load = Op::Mov { width: Width::W64, dst: Rm::Reg(g), src: Rmi::Imm(i) };
        lemma_emit(cpu, b, taken, load);
        let save = Op::Mov { width, dst: Rm::Mem(m), src: Rmi::Reg(g) };
        lemma_emit(cpu, b, taken.emit(load), save);
        lemma_halves(i as int);
    } else {
        match rmi {
            Rmi::Mem(at) => {
                if at != m {
                    lemma_takes(cpu, c, b, found, Exclude::Nothing, mid.next);
                    let (taken, g) = scratch_spec(c, found, Exclude::Nothing)->Ok_0;
                    let load = Op::Mov { width, dst: Rm::Reg(g), src: Rmi::Mem(at) };
                    lemma_emit(cpu, b, taken, load);
                    let save = Op::Mov { width, dst: Rm::Mem(m), src: Rmi::Reg(g) };
                    lemma_emit(cpu, b, taken.emit(load), save);
                    assert(reached(cpu, b, taken).cells[at] == start.cells[at]);
                    lemma_cell_written(reached(cpu, b, taken.emit(load)).cells[m], width, v);
                }
            },
            _ => {
                lemma_emit(cpu, b, found, Op::Mov { width, dst: Rm::Mem(m), src: rmi });
                lemma_cell_written(start.cells[m], width, v);
            },
        }
    }
}

/// A move to an argument or IL local leaves in its slot the value of the source, of the
/// width of the move.
pub proof fn law_moves_to_locals_store(
    cpu: Cpu,
    c: Ctx,
    b: Bound,
    width: Width,
    v: Val,
    src: Src,
)
    requires
        emit_inst_spec(c, b, Inst::Mov { width, dst: Place::Val(v), src }) is Ok,
        (v.0.0 as u64) < c.num_frame_fixed,
        ({
            let moved = bound_at(run_moves_spec(c, b, Request::BeforeLocalWrite(v.0)));
            stays(c, moved, src)
        }),
    ensures
        ({
            let moved = bound_at(run_moves_spec(c, b, Request::BeforeLocalWrite(v.0)));
            let ready = reached(cpu, b, moved);
            let after = bound_at(emit_inst_spec(c, b, Inst::Mov { width, dst: Place::Val(v), src }));
            &&& only_moved(c, b.next, cpu, ready)
            &&& stores(
                c,
                moved.next,
                ready,
                reached(cpu, b, after),
                slot_mem(c.slots[v.0.0 as int]),
                width,
                given(c, moved, ready, width, src),
            )
        }),
{
    reveal(emit_mov_spec);
    reveal(emit_store_to_local_spec);
    let request = Request::BeforeLocalWrite(v.0);
    assert(added(b, b) =~= Seq::empty());
    lemma_moves(cpu, c, b, b, request, b.next);
    let moved = bound_at(run_moves_spec(c, b, request));
    let m = slot_mem(c.slots[v.0.0 as int]);
    assert(emit_store_to_local_spec(c, b, v.0, width, src) == to_cell(c, moved, width, src, m));
    lemma_to_cell(cpu, c, b, moved, width, src, m);
}

/// A move to a register leaves the value of the source in it, as it was when the register
/// was empty.
pub proof fn law_moves_to_registers_load(
    cpu: Cpu,
    c: Ctx,
    b: Bound,
    width: Width,
    g: Gpr,
    src: Src,
)
    requires
        emit_inst_spec(c, b, Inst::Mov { width, dst: Place::Reg(g), src }) is Ok,
    ensures
        ({
            let empty = bound_at(run_moves_spec(c, b, Request::Clobber(g.phys())));
            let ready = reached(cpu, b, empty);
            let after = bound_at(emit_inst_spec(c, b, Inst::Mov { width, dst: Place::Reg(g), src }));
            let end = reached(cpu, b, after);
            &&& only_moved(c, b.next, cpu, ready)
            &&& end.gpr[g] % modulus(width) == given(c, empty, ready, width, src)
            &&& end.cells == ready.cells
            &&& forall|other: Gpr| other != g ==> #[trigger] end.gpr[other] == ready.gpr[other]
        }),
{
    reveal(emit_mov_spec);
    let request = Request::Clobber(g.phys());
    assert(added(b, b) =~= Seq::empty());
    lemma_moves(cpu, c, b, b, request, b.next);
    let empty = bound_at(run_moves_spec(c, b, request));
    let ready = reached(cpu, b, empty);
    law_sources_are_where_they_are_said_to_be(c, empty, ready, width, src);
    let (found, rmi) = rmi_of_spec(c, empty, src)->Ok_0;
    assert(added(b, found) == added(b, empty));
    lemma_emit(cpu, b, found, Op::Mov { width, dst: Rm::Reg(g), src: rmi });
    lemma_in_width(ready, width, rmi);
}

/// The value that a move gives to a temporary. Where the source is an argument or IL
/// local nothing is asked: its value is in its slot.
pub open spec fn moved_value(c: Ctx, b: Bound, cpu: Cpu, t: LocalId, width: Width, src: Src) -> int {
    match src {
        Src::Val(v) => if (v.0.0 as u64) < c.num_frame_fixed && !is_gc(c.types[t.0 as int]) {
            cpu.cells[slot_mem(c.slots[v.0.0 as int])] % modulus(width)
        } else {
            given(c, b, cpu, width, src)
        },
        _ => given(c, b, cpu, width, src),
    }
}

/// A move to a temporary notes a place that holds the value of the source.
pub proof fn law_moves_to_temporaries_define(
    cpu: Cpu,
    c: Ctx,
    b: Bound,
    width: Width,
    t: Val,
    src: Src,
)
    requires
        emit_inst_spec(c, b, Inst::Mov { width, dst: Place::Val(t), src }) is Ok,
        (t.0.0 as u64) >= c.num_frame_fixed,
        stays(c, b, src),
    ensures
        defines(
            cpu,
            c,
            b,
            bound_at(emit_inst_spec(c, b, Inst::Mov { width, dst: Place::Val(t), src })),
            t.0,
            width,
            moved_value(c, b, cpu, t.0, width, src),
        ),
{
    reveal(emit_mov_spec);
    reveal(emit_define_temp_spec);
    assert(added(b, b) =~= Seq::empty());
    assert(reached(cpu, b, b) == cpu);
    let v = moved_value(c, b, cpu, t.0, width, src);
    if rmi_of_spec(c, b, src) is Ok {
        law_sources_are_where_they_are_said_to_be(c, b, cpu, width, src);
    }
    if is_gc(c.types[t.0.0 as int]) {
        let slot = c.slots[t.0.0 as int];
        let m = slot_mem(slot);
        let stored = bound_at(to_cell(c, b, width, src, m));
        lemma_to_cell(cpu, c, b, b, width, src, m);
        assert(define_gc_temp_spec(c, b, t.0, width, src) == run_moves_spec(
            c,
            stored,
            Request::Define(t.0, Loc::Mem(slot)),
        ));
        lemma_defines(cpu, c, b, stored, t.0, Loc::Mem(slot), width, v);
    } else {
        match src {
            Src::Imm(k) => lemma_defines(cpu, c, b, b, t.0, Loc::Const(k), width, v),
            Src::Reg(g) => lemma_defined_by(cpu, c, b, b, t.0, g, width),
            Src::Val(s) => {
                if (s.0.0 as u64) < c.num_frame_fixed {
                    lemma_defines(cpu, c, b, b, t.0, Loc::Local(s.0), width, v);
                } else {
                    let found = b.used(Request::Read(s.0));
                    assert(added(b, found) == added(b, b));
                    match c.replies[b.next as int] {
                        Reply::Source(ReadSrc::Slot(offset)) => {
                            lemma_defines(cpu, c, b, found, t.0, Loc::Mem(offset), width, v);
                        },
                        Reply::Source(ReadSrc::Imm(k)) => {
                            lemma_defines(cpu, c, b, found, t.0, Loc::Const(k), width, v);
                        },
                        Reply::Source(ReadSrc::Reg(p)) => {
                            lemma_takes(cpu, c, b, found, Exclude::One(p), b.next);
                            let (taken, d) = scratch_spec(c, found, Exclude::One(p))->Ok_0;
                            let g = Gpr::from_phys(p)->0;
                            let copy = Op::Mov { width, dst: Rm::Reg(d), src: Rmi::Reg(g) };
                            lemma_emit(cpu, b, taken, copy);
                            lemma_halves(cpu.gpr[g]);
                            lemma_defined_by(cpu, c, b, taken.emit(copy), t.0, d, width);
                        },
                        _ => {},
                    }
                }
            },
        }
    }
}

/// Integer arithmetic defines its destination by the operator's value of the left and the
/// right operand, as they were when the scratch register was free.
pub proof fn law_arithmetic_is_bound(
    cpu: Cpu,
    c: Ctx,
    b: Bound,
    op: ArithOp,
    width: Width,
    t: Val,
    lhs: Src,
    rhs: Src,
)
    requires
        emit_inst_spec(c, b, Inst::Arith { op, width, dst: Place::Val(t), lhs, rhs }) is Ok,
        ({
            let (free, d) = scratch_spec(c, b, Exclude::Nothing)->Ok_0;
            let left = rmi_of_spec(c, free, lhs);
            &&& keeps(c, free.next, d)
            &&& outcome(rmi_of_spec(c, bound_at(left), rhs)) != Rmi::Reg(d)
        }),
    ensures
        ({
            let free = bound_at(scratch_spec(c, b, Exclude::Nothing));
            let ready = reached(cpu, b, free);
            let second = bound_at(rmi_of_spec(c, free, lhs));
            let inst = Inst::Arith { op, width, dst: Place::Val(t), lhs, rhs };
            &&& only_moved(c, b.next, cpu, ready)
            &&& defines(
                cpu,
                c,
                b,
                bound_at(emit_inst_spec(c, b, inst)),
                t.0,
                width,
                arith_result(
                    op,
                    width,
                    given(c, free, ready, width, lhs),
                    given(c, second, ready, width, rhs),
                ) % modulus(width),
            )
        }),
{
    reveal(emit_arith_spec);
    assert(added(b, b) =~= Seq::empty());
    lemma_takes(cpu, c, b, b, Exclude::Nothing, b.next);
    law_arithmetic_computes(cpu, c, b, op, width, lhs, rhs);
    lemma_kept_arith_into(c, b, op, width, lhs, rhs);
    let (free, d) = scratch_spec(c, b, Exclude::Nothing)->Ok_0;
    let ready = reached(cpu, b, free);
    law_sources_are_where_they_are_said_to_be(c, free, ready, width, lhs);
    let second = bound_at(rmi_of_spec(c, free, lhs));
    law_sources_are_where_they_are_said_to_be(c, second, ready, width, rhs);
    let (done, g) = arith_into_spec(c, b, op, width, lhs, rhs)->Ok_0;
    lemma_defined_by(cpu, c, b, done, t.0, g, width);
}

/// Negation and complement define their destination by the value of the source.
pub proof fn law_unary_operations_are_bound(
    cpu: Cpu,
    c: Ctx,
    b: Bound,
    op: UnaryOp,
    width: Width,
    t: Val,
    src: Src,
)
    requires
        emit_inst_spec(c, b, Inst::Unary { op, width, dst: Place::Val(t), src }) is Ok,
    ensures
        ({
            let free = bound_at(scratch_spec(c, b, Exclude::Nothing));
            let ready = reached(cpu, b, free);
            let x = given(c, free, ready, width, src);
            let inst = Inst::Unary { op, width, dst: Place::Val(t), src };
            &&& only_moved(c, b.next, cpu, ready)
            &&& defines(
                cpu,
                c,
                b,
                bound_at(emit_inst_spec(c, b, inst)),
                t.0,
                width,
                (match op {
                    UnaryOp::Neg => -x,
                    UnaryOp::Not => modulus(width) - 1 - x,
                }) % modulus(width),
            )
        }),
{
    reveal(emit_unary_spec);
    assert(added(b, b) =~= Seq::empty());
    lemma_takes(cpu, c, b, b, Exclude::Nothing, b.next);
    law_unary_computes(cpu, c, b, op, width, src);
    lemma_kept_unary_into(c, b, op, width, src);
    let free = bound_at(scratch_spec(c, b, Exclude::Nothing));
    law_sources_are_where_they_are_said_to_be(c, free, reached(cpu, b, free), width, src);
    let (done, g) = unary_into_spec(c, b, op, width, src)->Ok_0;
    lemma_defined_by(cpu, c, b, done, t.0, g, width);
    let x = given(c, free, reached(cpu, b, free), width, src);
    lemma_residues(width, -x);
}

proof fn lemma_residues(width: Width, x: int)
    ensures
        x % modulus(width) % modulus(width) == x % modulus(width),
{
}

/// A shift defines its destination by the left operand, shifted by the right one.
pub proof fn law_shifts_are_bound(
    cpu: Cpu,
    c: Ctx,
    b: Bound,
    op: ShiftOp,
    width: Width,
    t: Val,
    lhs: Src,
    rhs: Src,
)
    requires
        emit_inst_spec(c, b, Inst::Shift { op, width, dst: Place::Val(t), lhs, rhs }) is Ok,
        ({
            let (free, d) = scratch_spec(c, b, Exclude::One(Gpr::Rcx.phys()))->Ok_0;
            let (got, l) = rmi_of_spec(c, free, lhs)->Ok_0;
            let moved = got.emit(Op::Mov { width, dst: Rm::Reg(d), src: l });
            let cleared = bound_at(run_moves_spec(c, moved, Request::Clobber(Gpr::Rcx.phys())));
            &&& d != Gpr::Rcx
            &&& keeps(c, free.next, d)
            &&& !(rhs is Imm) ==> outcome(rmi_of_spec(c, cleared, rhs)) != Rmi::Reg(d)
        }),
    ensures
        ({
            let (free, d) = scratch_spec(c, b, Exclude::One(Gpr::Rcx.phys()))->Ok_0;
            let ready = reached(cpu, b, free);
            let (got, l) = rmi_of_spec(c, free, lhs)->Ok_0;
            let moved = got.emit(Op::Mov { width, dst: Rm::Reg(d), src: l });
            let n = match rhs {
                Src::Imm(count) => count as int,
                _ => {
                    let cleared = bound_at(
                        run_moves_spec(c, moved, Request::Clobber(Gpr::Rcx.phys())),
                    );
                    given(c, cleared, reached(cpu, b, cleared), Width::W32, rhs)
                },
            };
            let inst = Inst::Shift { op, width, dst: Place::Val(t), lhs, rhs };
            &&& only_moved(c, b.next, cpu, ready)
            &&& defines(
                cpu,
                c,
                b,
                bound_at(emit_inst_spec(c, b, inst)),
                t.0,
                width,
                shift_value(
                    op,
                    width,
                    given(c, free, ready, width, lhs),
                    (n % 256 % bits_of(width)) as nat,
                ) % modulus(width),
            )
        }),
{
    reveal(emit_shift_spec);
    let exclude = Exclude::One(Gpr::Rcx.phys());
    assert(added(b, b) =~= Seq::empty());
    lemma_takes(cpu, c, b, b, exclude, b.next);
    law_shifts_compute(cpu, c, b, op, width, lhs, rhs);
    lemma_kept_shift_into(c, b, op, width, lhs, rhs);
    let (free, d) = scratch_spec(c, b, exclude)->Ok_0;
    law_sources_are_where_they_are_said_to_be(c, free, reached(cpu, b, free), width, lhs);
    let (got, l) = rmi_of_spec(c, free, lhs)->Ok_0;
    let moved = got.emit(Op::Mov { width, dst: Rm::Reg(d), src: l });
    if !(rhs is Imm) {
        let cleared = bound_at(run_moves_spec(c, moved, Request::Clobber(Gpr::Rcx.phys())));
        law_sources_are_where_they_are_said_to_be(
            c,
            cleared,
            reached(cpu, b, cleared),
            Width::W32,
            rhs,
        );
    }
    let (done, g) = shift_into_spec(c, b, op, width, lhs, rhs)->Ok_0;
    lemma_defined_by(cpu, c, b, done, t.0, g, width);
}

/// A widening defines its destination by the 32-bit source, with its sign or without.
pub proof fn law_widenings_are_bound(
    cpu: Cpu,
    c: Ctx,
    b: Bound,
    dst: Place,
    src: Src,
    sign: bool,
)
    requires
        emit_inst_spec(c, b, Inst::MovExt { dst, src, signed: sign }) is Ok,
        match dst {
            Place::Val(_) => {
                let (free, g) = scratch_spec(c, b, Exclude::Nothing)->Ok_0;
                keeps(c, free.next, g)
            },
            Place::Reg(g) => keeps(c, b.next, g),
        },
    ensures
        ({
            let after = bound_at(emit_inst_spec(c, b, Inst::MovExt { dst, src, signed: sign }));
            let free = match dst {
                Place::Val(_) => bound_at(scratch_spec(c, b, Exclude::Nothing)),
                Place::Reg(g) => bound_at(run_moves_spec(c, b, Request::Clobber(g.phys()))),
            };
            let ready = reached(cpu, b, free);
            let x = given(c, free, ready, Width::W32, src);
            let v = if sign {
                signed(Width::W32, x) % modulus(Width::W64)
            } else {
                x
            };
            &&& only_moved(c, b.next, cpu, ready)
            &&& match dst {
                Place::Val(t) => defines(cpu, c, b, after, t.0, Width::W64, v),
                Place::Reg(g) => reached(cpu, b, after).gpr[g] == v,
            }
        }),
{
    reveal(emit_movext_spec);
    assert(added(b, b) =~= Seq::empty());
    match dst {
        Place::Val(t) => {
            lemma_takes(cpu, c, b, b, Exclude::Nothing, b.next);
            let (free, g) = scratch_spec(c, b, Exclude::Nothing)->Ok_0;
            let ready = reached(cpu, b, free);
            lemma_widened(cpu, c, b, free, g, src, sign);
            let done = bound_at(ext_into_spec(c, free, g, src, sign));
            lemma_defined_by(cpu, c, b, done, t.0, g, Width::W64);
        },
        Place::Reg(g) => {
            lemma_moves(cpu, c, b, b, Request::Clobber(g.phys()), b.next);
            let free = bound_at(run_moves_spec(c, b, Request::Clobber(g.phys())));
            lemma_widened(cpu, c, b, free, g, src, sign);
        },
    }
}

proof fn lemma_widened(cpu: Cpu, c: Ctx, b: Bound, mid: Bound, g: Gpr, src: Src, sign: bool)
    requires
        b.ops.len() <= mid.ops.len(),
        ext_into_spec(c, mid, g, src, sign) is Ok,
        keeps(c, mid.next, g),
    ensures
        ({
            let ready = reached(cpu, b, mid);
            let x = given(c, mid, ready, Width::W32, src);
            let after = bound_at(ext_into_spec(c, mid, g, src, sign));
            let v = if sign {
                signed(Width::W32, x) % modulus(Width::W64)
            } else {
                x
            };
            &&& mid.ops.len() <= after.ops.len()
            &&& mid.asked.len() <= after.asked.len()
            &&& reached(cpu, b, after).gpr[g] == v
            &&& v % modulus(Width::W64) == v
        }),
{
    let ready = reached(cpu, b, mid);
    lemma_kept_ext_into(c, mid, g, src, sign);
    law_widening_computes(ready, c, mid, g, src, sign);
    law_sources_are_where_they_are_said_to_be(c, mid, ready, Width::W32, src);
    let after = bound_at(ext_into_spec(c, mid, g, src, sign));
    lemma_on_from(cpu, b, mid, after);
}

/// What runs behind `mid` runs on from where `mid` leads.
proof fn lemma_on_from(cpu: Cpu, b: Bound, mid: Bound, after: Bound)
    requires
        b.ops.len() <= mid.ops.len(),
        extends(mid, after),
    ensures
        reached(cpu, b, after) == reached(reached(cpu, b, mid), mid, after),
{
    let first = added(b, mid);
    let second = added(mid, after);
    assert(added(b, after) =~= first + second);
    lemma_run_concat(cpu, first, second);
}

proof fn lemma_run_concat(cpu: Cpu, first: Seq<Op>, second: Seq<Op>)
    ensures
        run(cpu, first + second) == run(run(cpu, first), second),
    decreases second.len(),
{
    if second.len() == 0 {
        assert(first + second =~= first);
    } else {
        lemma_run_concat(cpu, first, second.drop_last());
        assert((first + second).drop_last() =~= first + second.drop_last());
    }
}

/// An address goes where it is asked for.
pub proof fn law_addresses_are_bound(cpu: Cpu, c: Ctx, b: Bound, dst: Place, l: LocalId)
    requires
        emit_inst_spec(c, b, Inst::Lea { dst, addr: Amode::FrameSlot(l) }) is Ok,
        match dst {
            Place::Val(t) => {
                let (free, g) = scratch_spec(c, b, Exclude::Nothing)->Ok_0;
                (t.0.0 as u64) < c.num_frame_fixed ==> keeps(c, free.next, g)
            },
            _ => true,
        },
    ensures
        ({
            let after = bound_at(emit_inst_spec(c, b, Inst::Lea { dst, addr: Amode::FrameSlot(l) }));
            let v = (cpu.address)(slot_mem(c.slots[l.0 as int])) % modulus(Width::W64);
            let end = reached(cpu, b, after);
            match dst {
                Place::Reg(g) => end.gpr[g] % modulus(Width::W64) == v,
                Place::Val(t) => if (t.0.0 as u64) < c.num_frame_fixed {
                    end.cells[slot_mem(c.slots[t.0.0 as int])] % modulus(Width::W64) == v
                } else {
                    defines(cpu, c, b, after, t.0, Width::W64, v)
                },
            }
        }),
{
    reveal(emit_lea_spec);
    reveal(emit_store_to_local_spec);
    assert(added(b, b) =~= Seq::empty());
    let addr = slot_mem(c.slots[l.0 as int]);
    match dst {
        Place::Reg(g) => {
            lemma_moves(cpu, c, b, b, Request::Clobber(g.phys()), b.next);
            let free = bound_at(run_moves_spec(c, b, Request::Clobber(g.phys())));
            lemma_emit(cpu, b, free, Op::Lea { dst: g, addr });
        },
        Place::Val(t) => {
            lemma_takes(cpu, c, b, b, Exclude::Nothing, b.next);
            let (free, g) = scratch_spec(c, b, Exclude::Nothing)->Ok_0;
            let lea = Op::Lea { dst: g, addr };
            lemma_emit(cpu, b, free, lea);
            let got = free.emit(lea);
            if (t.0.0 as u64) < c.num_frame_fixed {
                let request = Request::BeforeLocalWrite(t.0);
                lemma_moves(cpu, c, b, got, request, got.next);
                let moved = bound_at(run_moves_spec(c, got, request));
                let m = slot_mem(c.slots[t.0.0 as int]);
                assert(emit_store_to_local_spec(c, got, t.0, Width::W64, Src::Reg(g)) == to_cell(
                    c,
                    moved,
                    Width::W64,
                    Src::Reg(g),
                    m,
                ));
                assert(keeps(c, moved.next, g));
                lemma_to_cell(cpu, c, b, moved, Width::W64, Src::Reg(g), m);
            } else {
                lemma_defined_by(cpu, c, b, got, t.0, g, Width::W64);
            }
        },
    }
}

/// The value of a float source: of a value, what is in the slot that the reply names.
pub open spec fn given_float(c: Ctx, b: Bound, cpu: Cpu, width: FWidth, src: XmmSrc) -> int {
    match src {
        XmmSrc::Reg(x) => cpu.xmm[x] % float_modulus(width),
        XmmSrc::Bits(bits) => bits as int % float_modulus(width),
        XmmSrc::Val(_) => match c.replies[b.next as int] {
            Reply::Source(ReadSrc::Slot(offset)) => cpu.cells[slot_mem(offset)] % float_modulus(
                width,
            ),
            _ => arbitrary(),
        },
    }
}

/// The float keeps its value while the value machine moves others.
pub open spec fn float_stays(c: Ctx, b: Bound, src: XmmSrc) -> bool {
    match src {
        XmmSrc::Val(_) => match c.replies[b.next as int] {
            Reply::Source(ReadSrc::Slot(offset)) => spares_cell(c, b.next, slot_mem(offset)),
            _ => true,
        },
        _ => true,
    }
}

/// One float register was used, and moves of the value machine came between.
pub open spec fn float_used(c: Ctx, from: nat, before: Cpu, after: Cpu, used: Xmm) -> bool {
    &&& after.math == before.math
    &&& forall|x: Xmm| x != used ==> #[trigger] after.xmm[x] == before.xmm[x]
    &&& forall|m: Mem| spares_cell(c, from, m) ==> #[trigger] after.cells[m] == before.cells[m]
}

proof fn lemma_bits(cpu: Cpu, c: Ctx, b: Bound, mid: Bound, dst: Xmm, width: FWidth, bits: u64, from: nat)
    requires
        from <= mid.next,
        b.ops.len() <= mid.ops.len(),
        materialize_bits_spec(c, mid, dst, width, bits) is Ok,
    ensures
        ({
            let after = bound_at(materialize_bits_spec(c, mid, dst, width, bits));
            let end = reached(cpu, b, after);
            &&& mid.ops.len() <= after.ops.len()
            &&& mid.asked.len() <= after.asked.len()
            &&& mid.next <= after.next
            &&& float_used(c, from, reached(cpu, b, mid), end, dst)
            &&& end.xmm[dst] == bits as int % float_modulus(width)
        }),
{
    lemma_takes(cpu, c, b, mid, Exclude::Nothing, from);
    let (taken, g) = scratch_spec(c, mid, Exclude::Nothing)->Ok_0;
    let load = Op::Mov {
        width: int_width(width),
        dst: Rm::Reg(g),
        src: Rmi::Imm(bits_imm(bits)),
    };
    lemma_emit(cpu, b, taken, load);
    lemma_emit(cpu, b, taken.emit(load), Op::MovGprToXmm { width, dst, src: g });
    lemma_as_signed(bits);
    lemma_residues(int_width(width), bits as int);
}

/// A float source is readable at the operand that it is bound to.
proof fn lemma_float_operand(
    cpu: Cpu,
    c: Ctx,
    b: Bound,
    mid: Bound,
    src: XmmSrc,
    width: FWidth,
    scratch: Xmm,
    from: nat,
)
    requires
        from <= mid.next,
        b.ops.len() <= mid.ops.len(),
        rmx_of_spec(c, mid, src, width, scratch) is Ok,
    ensures
        ({
            let (after, rm) = rmx_of_spec(c, mid, src, width, scratch)->Ok_0;
            let (start, end) = (reached(cpu, b, mid), reached(cpu, b, after));
            &&& mid.ops.len() <= after.ops.len()
            &&& mid.asked.len() <= after.asked.len()
            &&& mid.next <= after.next
            &&& float_used(c, from, start, end, scratch)
            &&& read_rmx(end, width, rm) == given_float(c, mid, start, width, src)
            &&& rm == match src {
                XmmSrc::Reg(x) => RmX::Reg(x),
                XmmSrc::Bits(_) => RmX::Reg(scratch),
                XmmSrc::Val(_) => match c.replies[mid.next as int] {
                    Reply::Source(ReadSrc::Slot(offset)) => RmX::Mem(slot_mem(offset)),
                    _ => arbitrary(),
                },
            }
        }),
{
    match src {
        XmmSrc::Bits(bits) => {
            lemma_bits(cpu, c, b, mid, scratch, width, bits, from);
            lemma_float_residues(width, bits as int);
        },
        XmmSrc::Val(v) => {
            assert(added(b, mid.used(Request::Read(v.0))) == added(b, mid));
        },
        XmmSrc::Reg(_) => {},
    }
}

proof fn lemma_float_residues(width: FWidth, x: int)
    ensures
        x % float_modulus(width) % float_modulus(width) == x % float_modulus(width),
{
}

/// A float went where it is asked for: to a register; to the slot of an argument or IL
/// local; or, of a temporary, to the slot that the last request notes.
pub open spec fn lands(
    cpu: Cpu,
    c: Ctx,
    b: Bound,
    after: Bound,
    dst: XmmPlace,
    width: FWidth,
    v: int,
) -> bool {
    match dst {
        XmmPlace::Reg(x) => reached(cpu, b, after).xmm[x] % float_modulus(width) == v,
        XmmPlace::Val(t) => {
            let slot = c.slots[t.0.0 as int];
            if (t.0.0 as u64) < c.num_frame_fixed {
                reached(cpu, b, after).cells[slot_mem(slot)] % float_modulus(width) == v
            } else {
                &&& b.asked.len() < after.asked.len()
                &&& b.ops.len() <= after.asked.last().emitted <= after.ops.len()
                &&& after.asked.last().request == Request::Define(t.0, Loc::Mem(slot))
                &&& when_asked(cpu, b, after).cells[slot_mem(slot)] % float_modulus(width) == v
            }
        },
    }
}

proof fn lemma_float_written(x: int, width: FWidth, v: int)
    requires
        0 <= v < float_modulus(width),
    ensures
        (x - x % float_modulus(width) + v) % float_modulus(width) == v,
        v % float_modulus(width) == v,
{
    match width {
        FWidth::S => {},
        FWidth::D => {},
    }
}

/// A note of the slot of a temporary, made where the slot holds the float.
proof fn lemma_lands(
    cpu: Cpu,
    c: Ctx,
    b: Bound,
    mid: Bound,
    t: Val,
    width: FWidth,
    v: int,
)
    requires
        b.ops.len() <= mid.ops.len(),
        b.asked.len() <= mid.asked.len(),
        (t.0.0 as u64) >= c.num_frame_fixed,
        run_moves_spec(c, mid, Request::Define(t.0, Loc::Mem(c.slots[t.0.0 as int]))) is Ok,
        reached(cpu, b, mid).cells[slot_mem(c.slots[t.0.0 as int])] % float_modulus(width) == v,
    ensures
        lands(
            cpu,
            c,
            b,
            bound_at(
                run_moves_spec(c, mid, Request::Define(t.0, Loc::Mem(c.slots[t.0.0 as int]))),
            ),
            XmmPlace::Val(t),
            width,
            v,
        ),
{
    let request = Request::Define(t.0, Loc::Mem(c.slots[t.0.0 as int]));
    lemma_noted(c, mid, request);
    let after = bound_at(run_moves_spec(c, mid, request));
    assert(after.asked.last() == (Asked { request, emitted: mid.ops.len() }));
    assert(after.ops.subrange(b.ops.len() as int, mid.ops.len() as int) =~= added(b, mid));
}

/// A float register goes where it is asked for.
proof fn lemma_float_lands(
    cpu: Cpu,
    c: Ctx,
    b: Bound,
    mid: Bound,
    dst: XmmPlace,
    width: FWidth,
    src: Xmm,
)
    requires
        b.ops.len() <= mid.ops.len(),
        b.asked.len() <= mid.asked.len(),
        define_xmm_spec(c, mid, dst, width, src) is Ok,
    ensures
        lands(
            cpu,
            c,
            b,
            bound_at(define_xmm_spec(c, mid, dst, width, src)),
            dst,
            width,
            reached(cpu, b, mid).xmm[src] % float_modulus(width),
        ),
{
    let v = reached(cpu, b, mid).xmm[src] % float_modulus(width);
    match dst {
        XmmPlace::Reg(x) => {
            lemma_emit(cpu, b, mid, Op::MovFLoad { width, dst: x, src: RmX::Reg(src) });
            lemma_float_residues(width, reached(cpu, b, mid).xmm[src]);
        },
        XmmPlace::Val(t) => {
            let m = slot_mem(c.slots[t.0.0 as int]);
            let store = Op::MovFStore { width, dst: m, src };
            if (t.0.0 as u64) < c.num_frame_fixed {
                let request = Request::BeforeLocalWrite(t.0);
                lemma_moves(cpu, c, b, mid, request, mid.next);
                let moved = bound_at(run_moves_spec(c, mid, request));
                lemma_emit(cpu, b, moved, store);
                lemma_float_written(reached(cpu, b, moved).cells[m], width, v);
            } else {
                lemma_emit(cpu, b, mid, store);
                lemma_float_written(reached(cpu, b, mid).cells[m], width, v);
                lemma_lands(cpu, c, b, mid.emit(store), t, width, v);
            }
        },
    }
}

/// A float constant lands with its bits.
pub proof fn law_float_constants_are_bound(
    cpu: Cpu,
    c: Ctx,
    b: Bound,
    width: FWidth,
    dst: XmmPlace,
    bits: u64,
)
    requires
        emit_inst_spec(c, b, Inst::ConstF { width, dst, bits }) is Ok,
    ensures
        lands(
            cpu,
            c,
            b,
            bound_at(emit_inst_spec(c, b, Inst::ConstF { width, dst, bits })),
            dst,
            width,
            bits as int % float_modulus(width),
        ),
{
    reveal(emit_float_inst_spec);
    reveal(emit_const_f_spec);
    assert(added(b, b) =~= Seq::empty());
    let v = bits as int % float_modulus(width);
    lemma_float_residues(width, bits as int);
    lemma_as_signed(bits);
    match dst {
        XmmPlace::Reg(x) => lemma_bits(cpu, c, b, b, x, width, bits, b.next),
        XmmPlace::Val(t) => {
            let fixed = (t.0.0 as u64) < c.num_frame_fixed;
            let m = slot_mem(c.slots[t.0.0 as int]);
            let request = Request::BeforeLocalWrite(t.0);
            if fixed {
                lemma_moves(cpu, c, b, b, request, b.next);
            }
            let start = if fixed {
                bound_at(run_moves_spec(c, b, request))
            } else {
                b
            };
            let stored = match width {
                FWidth::S => {
                    let op = Op::Mov {
                        width: Width::W32,
                        dst: Rm::Mem(m),
                        src: Rmi::Imm(bits_imm(bits)),
                    };
                    lemma_emit(cpu, b, start, op);
                    lemma_float_written(reached(cpu, b, start).cells[m], width, v);
                    start.emit(op)
                },
                FWidth::D => {
                    lemma_takes(cpu, c, b, start, Exclude::Nothing, start.next);
                    let (taken, g) = scratch_spec(c, start, Exclude::Nothing)->Ok_0;
                    let load = Op::Mov {
                        width: Width::W64,
                        dst: Rm::Reg(g),
                        src: Rmi::Imm(bits_imm(bits)),
                    };
                    lemma_emit(cpu, b, taken, load);
                    let save = Op::Mov { width: Width::W64, dst: Rm::Mem(m), src: Rmi::Reg(g) };
                    lemma_emit(cpu, b, taken.emit(load), save);
                    taken.emit(load).emit(save)
                },
            };
            assert(reached(cpu, b, stored).cells[m] % float_modulus(width) == v);
            if !fixed {
                lemma_lands(cpu, c, b, stored, t, width, v);
            }
        },
    }
}

/// A float move lands with the value of its source. Where that is in the slot of the
/// destination already, it stays there and nothing is noted.
pub proof fn law_float_moves_are_bound(
    cpu: Cpu,
    c: Ctx,
    b: Bound,
    width: FWidth,
    dst: XmmPlace,
    src: XmmSrc,
)
    requires
        emit_inst_spec(c, b, Inst::MovF { width, dst, src }) is Ok,
    ensures
        ({
            let after = bound_at(emit_inst_spec(c, b, Inst::MovF { width, dst, src }));
            let v = given_float(c, b, cpu, width, src);
            ||| lands(cpu, c, b, after, dst, width, v)
            ||| match (dst, src) {
                (XmmPlace::Val(t), XmmSrc::Val(s)) => {
                    let m = slot_mem(c.slots[t.0.0 as int]);
                    &&& after == b.used(Request::Read(s.0))
                    &&& cpu.cells[m] % float_modulus(width) == v
                },
                _ => false,
            }
        }),
{
    reveal(emit_float_inst_spec);
    reveal(emit_mov_f_spec);
    assert(added(b, b) =~= Seq::empty());
    assert(reached(cpu, b, b) == cpu);
    lemma_float_operand(cpu, c, b, b, src, width, SCRATCH_XMM_A, b.next);
    let (found, from) = rmx_of_spec(c, b, src, width, SCRATCH_XMM_A)->Ok_0;
    let v = given_float(c, b, cpu, width, src);
    lemma_float_residues(width, v);
    match (dst, from) {
        (XmmPlace::Reg(x), _) => {
            lemma_emit(cpu, b, found, Op::MovFLoad { width, dst: x, src: from });
            lemma_rmx_in_width(reached(cpu, b, found), width, from);
        },
        (XmmPlace::Val(_), RmX::Reg(x)) => lemma_float_lands(cpu, c, b, found, dst, width, x),
        (XmmPlace::Val(t), RmX::Mem(m)) => {
            if m != slot_mem(c.slots[t.0.0 as int]) {
                let load = Op::MovFLoad { width, dst: SCRATCH_XMM_A, src: from };
                lemma_emit(cpu, b, found, load);
                lemma_rmx_in_width(reached(cpu, b, found), width, from);
                lemma_float_lands(cpu, c, b, found.emit(load), dst, width, SCRATCH_XMM_A);
            }
        },
    }
}

proof fn lemma_rmx_in_width(cpu: Cpu, width: FWidth, rm: RmX)
    ensures
        read_rmx(cpu, width, rm) % float_modulus(width) == read_rmx(cpu, width, rm),
{
}

/// The first source is not what the second one's register is for, nor the other way.
pub open spec fn scratch_free(lhs: XmmSrc, rhs: XmmSrc) -> bool {
    lhs != XmmSrc::Reg(SCRATCH_XMM_B) && rhs != XmmSrc::Reg(SCRATCH_XMM_A)
}

/// Float arithmetic lands with the operator's value of the left and the right operand, as
/// they were when each was looked up.
pub proof fn law_float_arithmetic_is_bound(
    cpu: Cpu,
    c: Ctx,
    b: Bound,
    op: ArithFOp,
    width: FWidth,
    dst: XmmPlace,
    lhs: XmmSrc,
    rhs: XmmSrc,
)
    requires
        emit_inst_spec(c, b, Inst::ArithF { op, width, dst, lhs, rhs }) is Ok,
        scratch_free(lhs, rhs),
        float_stays(c, b, lhs),
    ensures
        ({
            let second = bound_at(rmx_of_spec(c, b, lhs, width, SCRATCH_XMM_A));
            let x = given_float(c, b, cpu, width, lhs);
            let y = given_float(c, second, reached(cpu, b, second), width, rhs);
            lands(
                cpu,
                c,
                b,
                bound_at(emit_inst_spec(c, b, Inst::ArithF { op, width, dst, lhs, rhs })),
                dst,
                width,
                arith_float_result(cpu.math, op, width, x, y) % float_modulus(width),
            )
        }),
{
    reveal(emit_float_inst_spec);
    reveal(emit_arith_f_spec);
    assert(added(b, b) =~= Seq::empty());
    assert(reached(cpu, b, b) == cpu);
    lemma_float_pair(cpu, c, b, width, lhs, rhs);
    let (left, l) = rmx_of_spec(c, b, lhs, width, SCRATCH_XMM_A)->Ok_0;
    let (right, r) = rmx_of_spec(c, left, rhs, width, SCRATCH_XMM_B)->Ok_0;
    let x = given_float(c, b, cpu, width, lhs);
    let y = given_float(c, left, reached(cpu, b, left), width, rhs);
    let load = Op::MovFLoad { width, dst: SCRATCH_XMM_A, src: l };
    let loaded = if l != RmX::Reg(SCRATCH_XMM_A) {
        right.emit(load)
    } else {
        right
    };
    lemma_emit(cpu, b, right, load);
    lemma_rmx_in_width(reached(cpu, b, right), width, l);
    assert(read_rmx(reached(cpu, b, loaded), width, RmX::Reg(SCRATCH_XMM_A)) == x);
    assert(read_rmx(reached(cpu, b, loaded), width, r) == y);
    let compute = Op::ArithF { op, width, dst: SCRATCH_XMM_A, src: r };
    lemma_emit(cpu, b, loaded, compute);
    lemma_float_residues(width, arith_float_result(cpu.math, op, width, x, y));
    lemma_float_lands(cpu, c, b, loaded.emit(compute), dst, width, SCRATCH_XMM_A);
}

/// Two float sources, bound one after the other, are both readable.
proof fn lemma_float_pair(cpu: Cpu, c: Ctx, b: Bound, width: FWidth, lhs: XmmSrc, rhs: XmmSrc)
    requires
        rmx_of_spec(c, b, lhs, width, SCRATCH_XMM_A) is Ok,
        rmx_of_spec(
            c,
            bound_at(rmx_of_spec(c, b, lhs, width, SCRATCH_XMM_A)),
            rhs,
            width,
            SCRATCH_XMM_B,
        ) is Ok,
        scratch_free(lhs, rhs),
        float_stays(c, b, lhs),
    ensures
        ({
            let (left, l) = rmx_of_spec(c, b, lhs, width, SCRATCH_XMM_A)->Ok_0;
            let (right, r) = rmx_of_spec(c, left, rhs, width, SCRATCH_XMM_B)->Ok_0;
            let end = reached(cpu, b, right);
            &&& b.ops.len() <= right.ops.len()
            &&& b.asked.len() <= right.asked.len()
            &&& end.math == cpu.math
            &&& read_rmx(end, width, l) == given_float(c, b, cpu, width, lhs)
            &&& read_rmx(end, width, r) == given_float(
                c,
                left,
                reached(cpu, b, left),
                width,
                rhs,
            )
            &&& r != RmX::Reg(SCRATCH_XMM_A)
        }),
{
    assert(added(b, b) =~= Seq::empty());
    assert(reached(cpu, b, b) == cpu);
    lemma_float_operand(cpu, c, b, b, lhs, width, SCRATCH_XMM_A, b.next);
    let (left, l) = rmx_of_spec(c, b, lhs, width, SCRATCH_XMM_A)->Ok_0;
    lemma_float_operand(cpu, c, b, left, rhs, width, SCRATCH_XMM_B, b.next);
}

/// A float comparison leaves the flags of its left and its right operand.
pub proof fn law_float_comparisons_are_bound(
    cpu: Cpu,
    c: Ctx,
    b: Bound,
    width: FWidth,
    lhs: XmmSrc,
    rhs: XmmSrc,
)
    requires
        emit_inst_spec(c, b, Inst::CmpF { width, lhs, rhs }) is Ok,
        scratch_free(lhs, rhs),
        float_stays(c, b, lhs),
    ensures
        ({
            let second = bound_at(rmx_of_spec(c, b, lhs, width, SCRATCH_XMM_A));
            let x = given_float(c, b, cpu, width, lhs);
            let y = given_float(c, second, reached(cpu, b, second), width, rhs);
            let after = bound_at(emit_inst_spec(c, b, Inst::CmpF { width, lhs, rhs }));
            reached(cpu, b, after).flags == float_flags((cpu.math.compare)(width, x, y))
        }),
{
    reveal(emit_float_inst_spec);
    reveal(emit_cmp_f_spec);
    lemma_float_pair(cpu, c, b, width, lhs, rhs);
    let (left, l) = rmx_of_spec(c, b, lhs, width, SCRATCH_XMM_A)->Ok_0;
    let (right, r) = rmx_of_spec(c, left, rhs, width, SCRATCH_XMM_B)->Ok_0;
    lemma_rmx_in_width(reached(cpu, b, right), width, l);
    match l {
        RmX::Reg(x) => lemma_emit(cpu, b, right, Op::Ucomis { width, lhs: x, rhs: r }),
        RmX::Mem(m) => {
            let load = Op::MovFLoad { width, dst: SCRATCH_XMM_A, src: l };
            lemma_emit(cpu, b, right, load);
            lemma_emit(
                cpu,
                b,
                right.emit(load),
                Op::Ucomis { width, lhs: SCRATCH_XMM_A, rhs: r },
            );
        },
    }
}

/// A float negation lands with the source, its sign changed.
pub proof fn law_float_negations_are_bound(
    cpu: Cpu,
    c: Ctx,
    b: Bound,
    width: FWidth,
    dst: XmmPlace,
    src: XmmSrc,
)
    requires
        emit_inst_spec(c, b, Inst::NegF { width, dst, src }) is Ok,
        src != XmmSrc::Reg(SCRATCH_XMM_B),
    ensures
        ({
            let masked = bound_at(
                materialize_bits_spec(c, b, SCRATCH_XMM_B, width, sign_mask(width)),
            );
            let x = given_float(c, masked, reached(cpu, b, masked), width, src);
            &&& float_used(c, b.next, cpu, reached(cpu, b, masked), SCRATCH_XMM_B)
            &&& lands(
                cpu,
                c,
                b,
                bound_at(emit_inst_spec(c, b, Inst::NegF { width, dst, src })),
                dst,
                width,
                negated(width, x),
            )
        }),
{
    reveal(emit_float_inst_spec);
    reveal(emit_neg_f_spec);
    assert(added(b, b) =~= Seq::empty());
    assert(reached(cpu, b, b) == cpu);
    let mask = sign_mask(width);
    lemma_bits(cpu, c, b, b, SCRATCH_XMM_B, width, mask, b.next);
    let masked = bound_at(materialize_bits_spec(c, b, SCRATCH_XMM_B, width, mask));
    lemma_float_operand(cpu, c, b, masked, src, width, SCRATCH_XMM_A, masked.next);
    let (found, from) = rmx_of_spec(c, masked, src, width, SCRATCH_XMM_A)->Ok_0;
    let x = given_float(c, masked, reached(cpu, b, masked), width, src);
    let load = Op::MovFLoad { width, dst: SCRATCH_XMM_A, src: from };
    let loaded = if from != RmX::Reg(SCRATCH_XMM_A) {
        found.emit(load)
    } else {
        found
    };
    lemma_emit(cpu, b, found, load);
    lemma_rmx_in_width(reached(cpu, b, found), width, from);
    let flip = Op::XorF { width, dst: SCRATCH_XMM_A, src: RmX::Reg(SCRATCH_XMM_B) };
    lemma_emit(cpu, b, loaded, flip);
    assert(mask as int % float_modulus(width) == mask as int);
    lemma_float_residues(width, mask as int);
    assert(read_rmx(reached(cpu, b, loaded), width, RmX::Reg(SCRATCH_XMM_A)) == x);
    assert(read_rmx(reached(cpu, b, loaded), width, RmX::Reg(SCRATCH_XMM_B)) == mask as int);
    lemma_flipped(width, x);
    lemma_float_residues(width, negated(width, x));
    lemma_float_lands(cpu, c, b, loaded.emit(flip), dst, width, SCRATCH_XMM_A);
}

proof fn lemma_flipped(width: FWidth, x: int)
    requires
        0 <= x < float_modulus(width),
    ensures
        ((x as u64) ^ (sign_mask(width) as int as u64)) as int == negated(width, x),
        0 <= negated(width, x) < float_modulus(width),
        negated(width, x) % float_modulus(width) == negated(width, x),
{
    match width {
        FWidth::S => law_sign_mask_flips_the_sign(0, x as u32),
        FWidth::D => law_sign_mask_flips_the_sign(x as u64, 0),
    }
}

/// A conversion between float widths reads its source in the other width and lands with a
/// float of the width that it converts to.
pub proof fn law_float_conversions_are_bound(
    cpu: Cpu,
    c: Ctx,
    b: Bound,
    to: FWidth,
    dst: XmmPlace,
    src: XmmSrc,
)
    requires
        emit_inst_spec(c, b, Inst::CvtFToF { to, dst, src }) is Ok,
    ensures
        ({
            let from = other_width(to);
            lands(
                cpu,
                c,
                b,
                bound_at(emit_inst_spec(c, b, Inst::CvtFToF { to, dst, src })),
                dst,
                to,
                (cpu.math.convert)(from, to, given_float(c, b, cpu, from, src)) % float_modulus(to),
            )
        }),
{
    reveal(emit_float_inst_spec);
    reveal(emit_cvt_f_to_f_spec);
    assert(added(b, b) =~= Seq::empty());
    assert(reached(cpu, b, b) == cpu);
    let width = other_width(to);
    lemma_float_operand(cpu, c, b, b, src, width, SCRATCH_XMM_A, b.next);
    let (found, from) = rmx_of_spec(c, b, src, width, SCRATCH_XMM_A)->Ok_0;
    let convert = Op::Cvts2s { to, dst: SCRATCH_XMM_A, src: from };
    lemma_emit(cpu, b, found, convert);
    lemma_float_residues(
        to,
        (cpu.math.convert)(width, to, given_float(c, b, cpu, width, src)),
    );
    lemma_float_lands(cpu, c, b, found.emit(convert), dst, to, SCRATCH_XMM_A);
}

/// An integer source as a register or memory operand is readable there.
proof fn lemma_whole_operand(
    cpu: Cpu,
    c: Ctx,
    b: Bound,
    mid: Bound,
    src: Src,
    width: Width,
    exclude: Exclude,
)
    requires
        b.ops.len() <= mid.ops.len(),
        rm_of_spec(c, mid, src, width, exclude) is Ok,
    ensures
        ({
            let (after, rm) = rm_of_spec(c, mid, src, width, exclude)->Ok_0;
            let end = reached(cpu, b, after);
            &&& mid.ops.len() <= after.ops.len()
            &&& mid.asked.len() <= after.asked.len()
            &&& end.math == reached(cpu, b, mid).math
            &&& read_rm(end, width, rm) == given(c, mid, reached(cpu, b, mid), width, src)
        }),
{
    let start = reached(cpu, b, mid);
    law_sources_are_where_they_are_said_to_be(c, mid, start, width, src);
    let (found, rmi) = rmi_of_spec(c, mid, src)->Ok_0;
    assert(added(b, found) == added(b, mid));
    if let Rmi::Imm(i) = rmi {
        lemma_takes(cpu, c, b, found, exclude, mid.next);
        let (taken, g) = scratch_spec(c, found, exclude)->Ok_0;
        lemma_emit(cpu, b, taken, Op::Mov { width, dst: Rm::Reg(g), src: Rmi::Imm(i) });
        lemma_residues(width, i as int);
    }
}

/// A conversion from an integer lands with the float of its signed value.
pub proof fn law_conversions_from_integers_are_bound(
    cpu: Cpu,
    c: Ctx,
    b: Bound,
    width: FWidth,
    src_w64: bool,
    dst: XmmPlace,
    src: Src,
)
    requires
        emit_inst_spec(c, b, Inst::CvtIntToF { width, src_w64, dst, src }) is Ok,
    ensures
        ({
            let from = if src_w64 {
                Width::W64
            } else {
                Width::W32
            };
            lands(
                cpu,
                c,
                b,
                bound_at(emit_inst_spec(c, b, Inst::CvtIntToF { width, src_w64, dst, src })),
                dst,
                width,
                (cpu.math.of_int)(width, signed(from, given(c, b, cpu, from, src)))
                    % float_modulus(width),
            )
        }),
{
    reveal(emit_float_inst_spec);
    reveal(emit_cvt_int_to_f_spec);
    assert(added(b, b) =~= Seq::empty());
    assert(reached(cpu, b, b) == cpu);
    let from = if src_w64 {
        Width::W64
    } else {
        Width::W32
    };
    lemma_whole_operand(cpu, c, b, b, src, from, Exclude::Nothing);
    let (found, rm) = rm_of_spec(c, b, src, from, Exclude::Nothing)->Ok_0;
    let convert = Op::Cvtsi2s { width, dst: SCRATCH_XMM_A, src: rm, src_w64 };
    lemma_emit(cpu, b, found, convert);
    lemma_float_residues(
        width,
        (cpu.math.of_int)(width, signed(from, given(c, b, cpu, from, src))),
    );
    lemma_float_lands(cpu, c, b, found.emit(convert), dst, width, SCRATCH_XMM_A);
}

/// A conversion to an integer of a width gives the float, cut to that width.
pub proof fn law_conversions_to_integers_are_bound(
    cpu: Cpu,
    c: Ctx,
    b: Bound,
    src_width: FWidth,
    dst_w64: bool,
    dst: Place,
    src: XmmSrc,
)
    requires
        emit_inst_spec(c, b, Inst::CvtFToInt { src_width, dst_w64, dst, src }) is Ok,
        float_stays(c, b, src),
        match dst {
            Place::Val(_) => true,
            Place::Reg(_) => {
                let found = bound_at(rmx_of_spec(c, b, src, src_width, SCRATCH_XMM_A));
                let (free, g) = scratch_spec(c, found, Exclude::Nothing)->Ok_0;
                keeps(c, free.next, g)
            },
        },
    ensures
        ({
            let to = if dst_w64 {
                Width::W64
            } else {
                Width::W32
            };
            let after = bound_at(
                emit_inst_spec(c, b, Inst::CvtFToInt { src_width, dst_w64, dst, src }),
            );
            let v = (cpu.math.to_int)(src_width, given_float(c, b, cpu, src_width, src), to)
                % modulus(to);
            match dst {
                Place::Val(t) => defines(cpu, c, b, after, t.0, to, v),
                Place::Reg(g) => reached(cpu, b, after).gpr[g] % modulus(to) == v,
            }
        }),
{
    reveal(emit_float_inst_spec);
    reveal(emit_cvt_f_to_int_spec);
    assert(added(b, b) =~= Seq::empty());
    assert(reached(cpu, b, b) == cpu);
    let to = if dst_w64 {
        Width::W64
    } else {
        Width::W32
    };
    lemma_float_operand(cpu, c, b, b, src, src_width, SCRATCH_XMM_A, b.next);
    let (found, from) = rmx_of_spec(c, b, src, src_width, SCRATCH_XMM_A)->Ok_0;
    lemma_takes(cpu, c, b, found, Exclude::Nothing, b.next);
    let (free, g) = scratch_spec(c, found, Exclude::Nothing)->Ok_0;
    let x = given_float(c, b, cpu, src_width, src);
    assert(read_rmx(reached(cpu, b, free), src_width, from) == x);
    let cut = Op::Cvtts2si { width: src_width, dst: g, src: from, dst_w64 };
    lemma_emit(cpu, b, free, cut);
    lemma_residues(to, (cpu.math.to_int)(src_width, x, to));
    lemma_placed(cpu, c, b, free.emit(cut), dst, g, to);
}

/// An integer in a register goes where it is asked for.
proof fn lemma_placed(cpu: Cpu, c: Ctx, b: Bound, mid: Bound, dst: Place, g: Gpr, width: Width)
    requires
        b.ops.len() <= mid.ops.len(),
        b.asked.len() <= mid.asked.len(),
        place_int_spec(c, mid, dst, Width::W64, g) is Ok,
        dst is Reg ==> keeps(c, mid.next, g),
    ensures
        ({
            let after = bound_at(place_int_spec(c, mid, dst, Width::W64, g));
            let v = reached(cpu, b, mid).gpr[g] % modulus(width);
            match dst {
                Place::Val(t) => defines(cpu, c, b, after, t.0, width, v),
                Place::Reg(to) => reached(cpu, b, after).gpr[to] % modulus(width) == v,
            }
        }),
{
    match dst {
        Place::Val(t) => lemma_defined_by(cpu, c, b, mid, t.0, g, width),
        Place::Reg(to) => {
            let request = Request::Clobber(to.phys());
            lemma_moves(cpu, c, b, mid, request, mid.next);
            let freed = bound_at(run_moves_spec(c, mid, request));
            let copy = Op::Mov { width: Width::W64, dst: Rm::Reg(to), src: Rmi::Reg(g) };
            lemma_emit(cpu, b, freed, copy);
            lemma_halves(reached(cpu, b, mid).gpr[g]);
        },
    }
}

} // verus!
