//! Callee-saved registers are left alone.

use crate::bind::{
    alu_of, apply_spec, arith_into_spec, bits_imm, define_gc_temp_spec, define_temp_reg_spec,
    define_xmm_spec, emit_arith_f_spec, emit_arith_spec, emit_call_lookup_spec, emit_call_spec,
    emit_cmp_f_spec, emit_cmp_spec, emit_const_f_spec, emit_cvt_f_to_f_spec, emit_cvt_f_to_int_spec,
    emit_cvt_int_to_f_spec, emit_define_temp_spec, emit_divide_spec, emit_float_inst_spec,
    emit_helper_call_spec, emit_inst_spec, emit_jcc_f_spec, emit_lea_spec, emit_mov_f_spec,
    emit_mov_spec, emit_movext_spec, emit_neg_f_spec, emit_plain_inst_spec, emit_setcc_f_spec,
    emit_setcc_spec, emit_shift_spec, emit_store_to_local_spec, emit_unary_spec, exclude_reg,
    ext_into_spec, float_recipe, frame_slot, gpr_spec, is_fixed_spec, is_gc, is_small_imm,
    lookup_spec, materialize_bits_spec, other_fwidth, outcome, place_int_spec, read_spec,
    rm_of_spec, rmi_of_spec, rmx_of_spec, run_moves_spec, scratch_spec, setcc_f_into_spec,
    shift_into_spec, sign_mask, slot_mem, slot_of_spec, ty_of_spec, unary_into_spec, wide_imm_of,
    wide_imm_spec, width_if, Bound, Ctx, Exclude, Loc, Move, Op, ReadSrc, Reply, Request, Second,
    Step, SCRATCH_XMM_A, SCRATCH_XMM_B,
};
use crate::encode::{Mem, Rm, RmX, Rmi};
use crate::inst::{
    Amode, ArithFOp, ArithOp, CondCode, EbReg, FWidth, Inst, Place, ShiftOp, Src, Width, XmmPlace,
    XmmSrc,
};
use crate::ir::{BinaryOp, CorInfoHelpFunc, Label, LocalId, MethodHandle, UnaryOp};
use crate::regs::{Gpr, Xmm};
use crate::target::{PhysReg};
use vstd::prelude::*;

verus! {

/// The register is one that a call may change, or the stack or frame pointer.
pub open spec fn spares(g: Gpr) -> bool {
    !(g is Rbx || g is R12 || g is R13 || g is R14 || g is R15)
}

pub open spec fn phys_spares(reg: PhysReg) -> bool {
    Gpr::from_phys(reg) is Some ==> spares(Gpr::from_phys(reg)->0)
}

pub open spec fn mem_spares(m: Mem) -> bool {
    &&& m.base is Some ==> spares(m.base->0)
    &&& m.index is Some ==> spares(m.index->0.reg)
}

pub open spec fn rm_spares(rm: Rm) -> bool {
    match rm {
        Rm::Reg(g) => spares(g),
        Rm::Mem(m) => mem_spares(m),
    }
}

pub open spec fn rmi_spares(rmi: Rmi) -> bool {
    match rmi {
        Rmi::Reg(g) => spares(g),
        Rmi::Mem(m) => mem_spares(m),
        Rmi::Imm(_) => true,
    }
}

pub open spec fn rmx_spares(rmx: RmX) -> bool {
    match rmx {
        RmX::Reg(_) => true,
        RmX::Mem(m) => mem_spares(m),
    }
}

pub open spec fn src_spares(src: Src) -> bool {
    match src {
        Src::Reg(g) => spares(g),
        _ => true,
    }
}

pub open spec fn place_spares(place: Place) -> bool {
    match place {
        Place::Reg(g) => spares(g),
        _ => true,
    }
}

pub open spec fn source_spares(source: ReadSrc) -> bool {
    match source {
        ReadSrc::Reg(reg) => phys_spares(reg),
        _ => true,
    }
}

pub open spec fn move_spares(m: Move) -> bool {
    match m {
        Move::Spill { reg, .. } => phys_spares(reg),
        Move::Reload { reg, .. } => phys_spares(reg),
        Move::Remat { reg, .. } => phys_spares(reg),
    }
}

pub open spec fn moves_spare(moves: Seq<Move>) -> bool {
    forall|i: int| 0 <= i < moves.len() ==> move_spares(#[trigger] moves[i])
}

pub open spec fn reply_spares(reply: Reply) -> bool {
    match reply {
        Reply::Moves(moves) => moves_spare(moves@),
        Reply::Scratch { reg, moves } => phys_spares(reg) && moves_spare(moves@),
        Reply::Source(source) => source_spares(source),
        _ => true,
    }
}

/// The value machine hands out no callee-saved register.
pub open spec fn replies_spare(c: Ctx) -> bool {
    forall|i: int| 0 <= i < c.replies.len() ==> reply_spares(#[trigger] c.replies[i])
}

/// The instruction names no callee-saved register.
pub open spec fn op_spares(op: Op) -> bool {
    match op {
        Op::Mov { dst, src, .. } => rm_spares(dst) && rmi_spares(src),
        Op::Lea { dst, addr } => spares(dst) && mem_spares(addr),
        Op::Alu { dst, src, .. } => rm_spares(dst) && rmi_spares(src),
        Op::Neg { dst, .. } => rm_spares(dst),
        Op::Not { dst, .. } => rm_spares(dst),
        Op::Div { divisor, .. } => rm_spares(divisor),
        Op::Idiv { divisor, .. } => rm_spares(divisor),
        Op::ShiftCl { dst, .. } => rm_spares(dst),
        Op::ShiftImm { dst, .. } => rm_spares(dst),
        Op::Setcc { dst, .. } => spares(dst),
        Op::Movsxd { dst, src } => spares(dst) && rm_spares(src),
        Op::Imul { dst, src, .. } => spares(dst) && rm_spares(src),
        Op::ImulImm { dst, lhs, .. } => spares(dst) && rm_spares(lhs),
        Op::MovFLoad { src, .. } => rmx_spares(src),
        Op::MovFStore { dst, .. } => mem_spares(dst),
        Op::ArithF { src, .. } => rmx_spares(src),
        Op::Ucomis { rhs, .. } => rmx_spares(rhs),
        Op::XorF { src, .. } => rmx_spares(src),
        Op::Cvtsi2s { src, .. } => rm_spares(src),
        Op::Cvtts2si { dst, src, .. } => spares(dst) && rmx_spares(src),
        Op::Cvts2s { src, .. } => rmx_spares(src),
        Op::MovGprToXmm { src, .. } => spares(src),
        Op::Push { reg } => spares(reg),
        _ => true,
    }
}

pub open spec fn ops_spare(ops: Seq<Op>) -> bool {
    forall|i: int| 0 <= i < ops.len() ==> op_spares(#[trigger] ops[i])
}

/// A part of a binding leaves only such instructions.
pub open spec fn spared<T>(s: Step<T>) -> bool {
    match s {
        Ok((after, _)) => ops_spare(after.ops),
        Err(_) => true,
    }
}

/// The descriptor names no callee-saved register.
pub open spec fn inst_spares(inst: Inst) -> bool {
    match inst {
        Inst::Mov { dst, src, .. } => place_spares(dst) && src_spares(src),
        Inst::SetccF { dst, .. } => place_spares(dst),
        Inst::CvtIntToF { src, .. } => src_spares(src),
        Inst::CvtU64ToF { src, .. } => src_spares(src),
        Inst::CvtFToInt { dst, .. } => place_spares(dst),
        Inst::Lea { dst, .. } => place_spares(dst),
        Inst::Arith { dst, lhs, rhs, .. } => place_spares(dst) && src_spares(lhs) && src_spares(
            rhs,
        ),
        Inst::ArithOvf { dst, lhs, rhs, .. } => place_spares(dst) && src_spares(lhs) && src_spares(
            rhs,
        ),
        Inst::ConvOvf { dst, src, .. } => place_spares(dst) && src_spares(src),
        Inst::Idiv { divisor, .. } => src_spares(divisor),
        Inst::Div { divisor, .. } => src_spares(divisor),
        Inst::Shift { dst, lhs, rhs, .. } => place_spares(dst) && src_spares(lhs) && src_spares(
            rhs,
        ),
        Inst::Unary { dst, src, .. } => place_spares(dst) && src_spares(src),
        Inst::Setcc { dst, .. } => place_spares(dst),
        Inst::MovExt { dst, src, .. } => place_spares(dst) && src_spares(src),
        Inst::Cmp { lhs, rhs, .. } => src_spares(lhs) && src_spares(rhs),
        Inst::LoadMem { dst, addr, .. } => place_spares(dst) && src_spares(addr),
        Inst::StoreMem { addr, src, .. } => src_spares(addr) && src_spares(src),
        Inst::LoadMemNarrow { dst, addr, .. } => place_spares(dst) && src_spares(addr),
        Inst::StoreMemNarrow { addr, src, .. } => src_spares(addr) && src_spares(src),
        Inst::LoadMemF { addr, .. } => src_spares(addr),
        Inst::StoreMemF { addr, .. } => src_spares(addr),
        Inst::NullCheck { addr } => src_spares(addr),
        Inst::BoundsCheck { index, array, .. } => src_spares(index) && src_spares(array),
        Inst::CallReg { target } => src_spares(target),
        Inst::Push { reg } => spares(reg),
        Inst::LoadEightbyte { dst, .. } => match dst {
            EbReg::Gpr(g) => spares(g),
            EbReg::Xmm(_) => true,
        },
        Inst::StoreEightbyte { src, .. } => match src {
            EbReg::Gpr(g) => spares(g),
            EbReg::Xmm(_) => true,
        },
        Inst::StoreStackArg { src, .. } => src_spares(src),
        Inst::BlockCopyDyn { size, .. } => src_spares(size),
        Inst::BlockFillDyn { fill, size, .. } => src_spares(fill) && src_spares(size),
        Inst::LocAlloc { dst, size } => place_spares(dst) && src_spares(size),
        Inst::LeaLabel { dst, .. } => spares(dst),
        _ => true,
    }
}

proof fn lemma_spared_apply(b: Bound, moves: Seq<Move>, n: nat)
    requires
        ops_spare(b.ops),
        moves_spare(moves),
        n <= moves.len(),
    ensures
        spared(apply_spec(b, moves, n)),
    decreases n,
{
    if n > 0 {
        lemma_spared_apply(b, moves, (n - 1) as nat);
        assert(move_spares(moves[n - 1]));
    }
}

proof fn lemma_spared_run_moves(c: Ctx, b: Bound, request: Request)
    requires
        replies_spare(c),
        ops_spare(b.ops),
    ensures
        spared(run_moves_spec(c, b, request)),
{
    if b.next < c.replies.len() {
        assert(reply_spares(c.replies[b.next as int]));
        match c.replies[b.next as int] {
            Reply::Moves(moves) => lemma_spared_apply(b.used(request), moves@, moves@.len()),
            Reply::Scratch { reg, moves } => lemma_spared_apply(
                b.used(request),
                moves@,
                moves@.len(),
            ),
            _ => {},
        }
    }
}

proof fn lemma_spared_scratch(c: Ctx, b: Bound, exclude: Exclude)
    requires
        replies_spare(c),
        ops_spare(b.ops),
    ensures
        spared(scratch_spec(c, b, exclude)),
        scratch_spec(c, b, exclude) is Ok ==> spares(outcome(scratch_spec(c, b, exclude))),
{
    if b.next < c.replies.len() {
        assert(reply_spares(c.replies[b.next as int]));
        match c.replies[b.next as int] {
            Reply::Moves(moves) => lemma_spared_apply(
                b.used(Request::TakeScratch(exclude)),
                moves@,
                moves@.len(),
            ),
            Reply::Scratch { reg, moves } => lemma_spared_apply(
                b.used(Request::TakeScratch(exclude)),
                moves@,
                moves@.len(),
            ),
            _ => {},
        }
    }
}

proof fn lemma_spared_read(c: Ctx, b: Bound, id: LocalId)
    requires
        replies_spare(c),
        ops_spare(b.ops),
    ensures
        spared(read_spec(c, b, id)),
        read_spec(c, b, id) is Ok ==> source_spares(outcome(read_spec(c, b, id))),
{
    if b.next < c.replies.len() {
        assert(reply_spares(c.replies[b.next as int]));
    }
}

proof fn lemma_spared_lookup(c: Ctx, b: Bound, request: Request)
    requires
        replies_spare(c),
        ops_spare(b.ops),
    ensures
        spared(lookup_spec(c, b, request)),
{
    if b.next < c.replies.len() {
        assert(reply_spares(c.replies[b.next as int]));
    }
}

proof fn lemma_spared_rmi_of(c: Ctx, b: Bound, src: Src)
    requires
        replies_spare(c),
        ops_spare(b.ops),
        src_spares(src),
    ensures
        spared(rmi_of_spec(c, b, src)),
        rmi_of_spec(c, b, src) is Ok ==> rmi_spares(outcome(rmi_of_spec(c, b, src))),
{
    match src {
        Src::Reg(g) => {
        },
        Src::Imm(i) => {
        },
        Src::Val(v) => {
            lemma_spared_read(c, b, v.0);
        },
    }
}

proof fn lemma_spared_wide_imm(c: Ctx, b: Bound, width: Width, src: Src, exclude: Exclude)
    requires
        replies_spare(c),
        ops_spare(b.ops),
        src_spares(src),
    ensures
        spared(wide_imm_spec(c, b, width, src, exclude)),
        wide_imm_spec(c, b, width, src, exclude) is Ok ==> rmi_spares(
            outcome(wide_imm_spec(c, b, width, src, exclude)),
        ),
{
    lemma_spared_rmi_of(c, b, src);
    match rmi_of_spec(c, b, src) {
        Ok((b, rmi)) => {
            match wide_imm_of(width, rmi) {
                Some(i) => {
                    lemma_spared_scratch(c, b, exclude);
                },
                None => {
                },
            }
        },
        Err(_) => {},
    }
}

proof fn lemma_spared_rm_of(c: Ctx, b: Bound, src: Src, width: Width, exclude: Exclude)
    requires
        replies_spare(c),
        ops_spare(b.ops),
        src_spares(src),
    ensures
        spared(rm_of_spec(c, b, src, width, exclude)),
        rm_of_spec(c, b, src, width, exclude) is Ok ==> rm_spares(
            outcome(rm_of_spec(c, b, src, width, exclude)),
        ),
{
    lemma_spared_rmi_of(c, b, src);
    match rmi_of_spec(c, b, src) {
        Ok((b, rmi)) => {
            match rmi {
                Rmi::Reg(g) => {
                },
                Rmi::Mem(m) => {
                },
                Rmi::Imm(i) => {
                    lemma_spared_scratch(c, b, exclude);
                },
            }
        },
        Err(_) => {},
    }
}

proof fn lemma_spared_define_temp_reg(c: Ctx, b: Bound, t: LocalId, g: Gpr)
    requires
        replies_spare(c),
        ops_spare(b.ops),
        spares(g),
    ensures
        spared(define_temp_reg_spec(c, b, t, g)),
{
    match ty_of_spec(c, b, t) {
        Ok((b, ty)) => {
            if is_gc(ty) {
                match slot_of_spec(c, b, t) {
                    Ok((b, slot)) => {
                        let b = b.emit(
                            Op::Mov {
                                width: Width::W64,
                                dst: Rm::Mem(slot_mem(slot)),
                                src: Rmi::Reg(g),
                            },
                        );
                        lemma_spared_run_moves(c, b, Request::Define(t, Loc::Mem(slot)));
                    },
                    Err(_) => {},
                }
            } else {
                lemma_spared_run_moves(c, b, Request::Define(t, Loc::Reg(g.phys())));
            }
        },
        Err(_) => {},
    }
}

proof fn lemma_spared_materialize_bits(c: Ctx, b: Bound, dst: Xmm, width: FWidth, bits: u64)
    requires
        replies_spare(c),
        ops_spare(b.ops),
    ensures
        spared(materialize_bits_spec(c, b, dst, width, bits)),
{
    lemma_spared_scratch(c, b, Exclude::Nothing);
}

proof fn lemma_spared_rmx_of(c: Ctx, b: Bound, src: XmmSrc, width: FWidth, scratch: Xmm)
    requires
        replies_spare(c),
        ops_spare(b.ops),
    ensures
        spared(rmx_of_spec(c, b, src, width, scratch)),
{
    match src {
        XmmSrc::Reg(x) => {
        },
        XmmSrc::Val(v) => {
            lemma_spared_read(c, b, v.0);
        },
        XmmSrc::Bits(bits) => {
            lemma_spared_materialize_bits(c, b, scratch, width, bits);
        },
    }
}

proof fn lemma_spared_define_xmm(c: Ctx, b: Bound, dst: XmmPlace, width: FWidth, src: Xmm)
    requires
        replies_spare(c),
        ops_spare(b.ops),
    ensures
        spared(define_xmm_spec(c, b, dst, width, src)),
{
    match dst {
        XmmPlace::Reg(x) => {
        },
        XmmPlace::Val(v) => {
            match slot_of_spec(c, b, v.0) {
                Ok((b, slot)) => {
                    match is_fixed_spec(c, b, v.0) {
                        Ok((b, fixed)) => {
                            if fixed {
                                lemma_spared_run_moves(c, b, Request::BeforeLocalWrite(v.0));
                            } else {
                                let b = b.emit(Op::MovFStore { width, dst: slot_mem(slot), src });
                                lemma_spared_run_moves(c, b, Request::Define(v.0, Loc::Mem(slot)));
                            }
                        },
                        Err(_) => {},
                    }
                },
                Err(_) => {},
            }
        },
    }
}

proof fn lemma_spared_emit_const_f(c: Ctx, b: Bound, width: FWidth, dst: XmmPlace, bits: u64)
    requires
        replies_spare(c),
        ops_spare(b.ops),
    ensures
        spared(emit_const_f_spec(c, b, width, dst, bits)),
{
    reveal(emit_const_f_spec);
    match dst {
        XmmPlace::Reg(x) => {
            lemma_spared_materialize_bits(c, b, x, width, bits);
        },
        XmmPlace::Val(v) => {
            match slot_of_spec(c, b, v.0) {
                Ok((b, slot)) => {
                    match is_fixed_spec(c, b, v.0) {
                        Ok((b, fixed)) => {
                            if fixed {
                                lemma_spared_run_moves(c, b, Request::BeforeLocalWrite(v.0));
                            }
                            match if fixed {
                                run_moves_spec(c, b, Request::BeforeLocalWrite(v.0))
                            } else {
                                Ok((b, ()))
                            } {
                                Ok((b, _)) => {
                                    match width {
                                        FWidth::S => {
                                            let b = b.emit(
                                                Op::Mov {
                                                    width: Width::W32,
                                                    dst: Rm::Mem(slot_mem(slot)),
                                                    src: Rmi::Imm(bits_imm(bits)),
                                                },
                                            );
                                            if !fixed {
                                                lemma_spared_run_moves(
                                                    c,
                                                    b,
                                                    Request::Define(v.0, Loc::Mem(slot)),
                                                );
                                            }
                                            match if !fixed {
                                                run_moves_spec(
                                                    c,
                                                    b,
                                                    Request::Define(v.0, Loc::Mem(slot)),
                                                )
                                            } else {
                                                Ok((b, ()))
                                            } {
                                                Ok((b, _)) => {
                                                },
                                                Err(_) => {},
                                            }
                                        },
                                        FWidth::D => {
                                            lemma_spared_scratch(c, b, Exclude::Nothing);
                                            match scratch_spec(c, b, Exclude::Nothing) {
                                                Ok((b, g)) => {
                                                    let b = b.emit(
                                                        Op::Mov {
                                                            width: Width::W64,
                                                            dst: Rm::Reg(g),
                                                            src: Rmi::Imm(bits_imm(bits)),
                                                        },
                                                    );
                                                    let b = b.emit(
                                                        Op::Mov {
                                                            width: Width::W64,
                                                            dst: Rm::Mem(slot_mem(slot)),
                                                            src: Rmi::Reg(g),
                                                        },
                                                    );
                                                    if !fixed {
                                                        lemma_spared_run_moves(
                                                            c,
                                                            b,
                                                            Request::Define(v.0, Loc::Mem(slot)),
                                                        );
                                                    }
                                                    match if !fixed {
                                                        run_moves_spec(
                                                            c,
                                                            b,
                                                            Request::Define(v.0, Loc::Mem(slot)),
                                                        )
                                                    } else {
                                                        Ok((b, ()))
                                                    } {
                                                        Ok((b, _)) => {
                                                        },
                                                        Err(_) => {},
                                                    }
                                                },
                                                Err(_) => {},
                                            }
                                        },
                                    }
                                },
                                Err(_) => {},
                            }
                        },
                        Err(_) => {},
                    }
                },
                Err(_) => {},
            }
        },
    }
}

proof fn lemma_spared_emit_mov_f(c: Ctx, b: Bound, width: FWidth, dst: XmmPlace, src: XmmSrc)
    requires
        replies_spare(c),
        ops_spare(b.ops),
    ensures
        spared(emit_mov_f_spec(c, b, width, dst, src)),
{
    reveal(emit_mov_f_spec);
    lemma_spared_rmx_of(c, b, src, width, SCRATCH_XMM_A);
    match rmx_of_spec(c, b, src, width, SCRATCH_XMM_A) {
        Ok((b, from)) => {
            match dst {
                XmmPlace::Reg(x) => {
                },
                XmmPlace::Val(v) => {
                    match from {
                        RmX::Reg(x) => {
                            lemma_spared_define_xmm(c, b, XmmPlace::Val(v), width, x);
                        },
                        RmX::Mem(m) => {
                            match slot_of_spec(c, b, v.0) {
                                Ok((b, slot)) => {
                                    if m == slot_mem(slot) {
                                    } else {
                                        let b = b.emit(
                                            Op::MovFLoad {
                                                width,
                                                dst: SCRATCH_XMM_A,
                                                src: RmX::Mem(m),
                                            },
                                        );
                                        lemma_spared_define_xmm(
                                            c,
                                            b,
                                            XmmPlace::Val(v),
                                            width,
                                            SCRATCH_XMM_A,
                                        );
                                    }
                                },
                                Err(_) => {},
                            }
                        },
                    }
                },
            }
        },
        Err(_) => {},
    }
}

proof fn lemma_spared_emit_arith_f(
    c: Ctx,
    b: Bound,
    op: ArithFOp,
    width: FWidth,
    dst: XmmPlace,
    lhs: XmmSrc,
    rhs: XmmSrc,
)
    requires
        replies_spare(c),
        ops_spare(b.ops),
    ensures
        spared(emit_arith_f_spec(c, b, op, width, dst, lhs, rhs)),
{
    reveal(emit_arith_f_spec);
    lemma_spared_rmx_of(c, b, lhs, width, SCRATCH_XMM_A);
    match rmx_of_spec(c, b, lhs, width, SCRATCH_XMM_A) {
        Ok((b, l)) => {
            lemma_spared_rmx_of(c, b, rhs, width, SCRATCH_XMM_B);
            match rmx_of_spec(c, b, rhs, width, SCRATCH_XMM_B) {
                Ok((b, r)) => {
                    let b = if l != RmX::Reg(SCRATCH_XMM_A) {
                        b.emit(Op::MovFLoad { width, dst: SCRATCH_XMM_A, src: l })
                    } else {
                        b
                    };
                    let b = b.emit(Op::ArithF { op, width, dst: SCRATCH_XMM_A, src: r });
                    lemma_spared_define_xmm(c, b, dst, width, SCRATCH_XMM_A);
                },
                Err(_) => {},
            }
        },
        Err(_) => {},
    }
}

proof fn lemma_spared_emit_neg_f(c: Ctx, b: Bound, width: FWidth, dst: XmmPlace, src: XmmSrc)
    requires
        replies_spare(c),
        ops_spare(b.ops),
    ensures
        spared(emit_neg_f_spec(c, b, width, dst, src)),
{
    reveal(emit_neg_f_spec);
    lemma_spared_materialize_bits(c, b, SCRATCH_XMM_B, width, sign_mask(width));
    match materialize_bits_spec(c, b, SCRATCH_XMM_B, width, sign_mask(width)) {
        Ok((b, _)) => {
            lemma_spared_rmx_of(c, b, src, width, SCRATCH_XMM_A);
            match rmx_of_spec(c, b, src, width, SCRATCH_XMM_A) {
                Ok((b, from)) => {
                    let b = if from != RmX::Reg(SCRATCH_XMM_A) {
                        b.emit(Op::MovFLoad { width, dst: SCRATCH_XMM_A, src: from })
                    } else {
                        b
                    };
                    let b = b.emit(
                        Op::XorF { width, dst: SCRATCH_XMM_A, src: RmX::Reg(SCRATCH_XMM_B) },
                    );
                    lemma_spared_define_xmm(c, b, dst, width, SCRATCH_XMM_A);
                },
                Err(_) => {},
            }
        },
        Err(_) => {},
    }
}

proof fn lemma_spared_emit_cmp_f(c: Ctx, b: Bound, width: FWidth, lhs: XmmSrc, rhs: XmmSrc)
    requires
        replies_spare(c),
        ops_spare(b.ops),
    ensures
        spared(emit_cmp_f_spec(c, b, width, lhs, rhs)),
{
    reveal(emit_cmp_f_spec);
    lemma_spared_rmx_of(c, b, lhs, width, SCRATCH_XMM_A);
    match rmx_of_spec(c, b, lhs, width, SCRATCH_XMM_A) {
        Ok((b, l)) => {
            lemma_spared_rmx_of(c, b, rhs, width, SCRATCH_XMM_B);
        },
        Err(_) => {},
    }
}

proof fn lemma_spared_place_int(c: Ctx, b: Bound, dst: Place, width: Width, g: Gpr)
    requires
        replies_spare(c),
        ops_spare(b.ops),
        place_spares(dst),
        spares(g),
    ensures
        spared(place_int_spec(c, b, dst, width, g)),
{
    match dst {
        Place::Val(t) => {
            lemma_spared_define_temp_reg(c, b, t.0, g);
        },
        Place::Reg(to) => {
            lemma_spared_run_moves(c, b, Request::Clobber(to.phys()));
        },
    }
}

proof fn lemma_spared_setcc_f_into(c: Ctx, b: Bound, op: BinaryOp)
    requires
        replies_spare(c),
        ops_spare(b.ops),
    ensures
        spared(setcc_f_into_spec(c, b, op)),
        setcc_f_into_spec(c, b, op) is Ok ==> spares(outcome(setcc_f_into_spec(c, b, op))),
{
    match float_recipe(op) {
        None => {
        },
        Some(recipe) => {
            lemma_spared_scratch(c, b, Exclude::Nothing);
            match scratch_spec(c, b, Exclude::Nothing) {
                Ok((b, ga)) => {
                    let b = b.emit(
                        Op::Mov { width: Width::W32, dst: Rm::Reg(ga), src: Rmi::Imm(0) },
                    );
                    let b = b.emit(Op::Setcc { cc: recipe.first, dst: ga });
                    match recipe.second {
                        Second::Nothing => {
                        },
                        Second::And(cc) => {
                            lemma_spared_scratch(c, b, Exclude::One(ga.phys()));
                        },
                        Second::Or(cc) => {
                            lemma_spared_scratch(c, b, Exclude::One(ga.phys()));
                        },
                    }
                },
                Err(_) => {},
            }
        },
    }
}

proof fn lemma_spared_emit_setcc_f(c: Ctx, b: Bound, op: BinaryOp, dst: Place)
    requires
        replies_spare(c),
        ops_spare(b.ops),
        place_spares(dst),
    ensures
        spared(emit_setcc_f_spec(c, b, op, dst)),
{
    reveal(emit_setcc_f_spec);
    lemma_spared_setcc_f_into(c, b, op);
    match setcc_f_into_spec(c, b, op) {
        Ok((b, g)) => {
            lemma_spared_place_int(c, b, dst, Width::W32, g);
        },
        Err(_) => {},
    }
}

proof fn lemma_spared_emit_jcc_f(c: Ctx, b: Bound, op: BinaryOp, target: Label)
    requires
        replies_spare(c),
        ops_spare(b.ops),
    ensures
        spared(emit_jcc_f_spec(c, b, op, target)),
{
    reveal(emit_jcc_f_spec);
    match op {
        BinaryOp::Ne | BinaryOp::UGt | BinaryOp::UGe => {
        },
        BinaryOp::Eq | BinaryOp::Lt | BinaryOp::Le => {
        },
        BinaryOp::Gt | BinaryOp::Ge | BinaryOp::ULt | BinaryOp::ULe => {
        },
        _ => {
        },
    }
}

proof fn lemma_spared_emit_cvt_int_to_f(
    c: Ctx,
    b: Bound,
    width: FWidth,
    src_w64: bool,
    dst: XmmPlace,
    src: Src,
)
    requires
        replies_spare(c),
        ops_spare(b.ops),
        src_spares(src),
    ensures
        spared(emit_cvt_int_to_f_spec(c, b, width, src_w64, dst, src)),
{
    reveal(emit_cvt_int_to_f_spec);
    lemma_spared_rm_of(c, b, src, width_if(src_w64), Exclude::Nothing);
    match rm_of_spec(c, b, src, width_if(src_w64), Exclude::Nothing) {
        Ok((b, rm)) => {
            let b = b.emit(Op::Cvtsi2s { width, dst: SCRATCH_XMM_A, src: rm, src_w64 });
            lemma_spared_define_xmm(c, b, dst, width, SCRATCH_XMM_A);
        },
        Err(_) => {},
    }
}

proof fn lemma_spared_emit_cvt_f_to_int(
    c: Ctx,
    b: Bound,
    src_width: FWidth,
    dst_w64: bool,
    dst: Place,
    src: XmmSrc,
)
    requires
        replies_spare(c),
        ops_spare(b.ops),
        place_spares(dst),
    ensures
        spared(emit_cvt_f_to_int_spec(c, b, src_width, dst_w64, dst, src)),
{
    reveal(emit_cvt_f_to_int_spec);
    lemma_spared_rmx_of(c, b, src, src_width, SCRATCH_XMM_A);
    match rmx_of_spec(c, b, src, src_width, SCRATCH_XMM_A) {
        Ok((b, from)) => {
            lemma_spared_scratch(c, b, Exclude::Nothing);
            match scratch_spec(c, b, Exclude::Nothing) {
                Ok((b, g)) => {
                    let b = b.emit(Op::Cvtts2si { width: src_width, dst: g, src: from, dst_w64 });
                    lemma_spared_place_int(c, b, dst, Width::W64, g);
                },
                Err(_) => {},
            }
        },
        Err(_) => {},
    }
}

proof fn lemma_spared_emit_cvt_f_to_f(c: Ctx, b: Bound, to: FWidth, dst: XmmPlace, src: XmmSrc)
    requires
        replies_spare(c),
        ops_spare(b.ops),
    ensures
        spared(emit_cvt_f_to_f_spec(c, b, to, dst, src)),
{
    reveal(emit_cvt_f_to_f_spec);
    lemma_spared_rmx_of(c, b, src, other_fwidth(to), SCRATCH_XMM_A);
    match rmx_of_spec(c, b, src, other_fwidth(to), SCRATCH_XMM_A) {
        Ok((b, from)) => {
            let b = b.emit(Op::Cvts2s { to, dst: SCRATCH_XMM_A, src: from });
            lemma_spared_define_xmm(c, b, dst, to, SCRATCH_XMM_A);
        },
        Err(_) => {},
    }
}

proof fn lemma_spared_emit_store_to_local(c: Ctx, b: Bound, id: LocalId, width: Width, src: Src)
    requires
        replies_spare(c),
        ops_spare(b.ops),
        src_spares(src),
    ensures
        spared(emit_store_to_local_spec(c, b, id, width, src)),
{
    reveal(emit_store_to_local_spec);
    lemma_spared_run_moves(c, b, Request::BeforeLocalWrite(id));
    match run_moves_spec(c, b, Request::BeforeLocalWrite(id)) {
        Ok((b, _)) => {
            match slot_of_spec(c, b, id) {
                Ok((b, slot)) => {
                    lemma_spared_wide_imm(c, b, width, src, Exclude::Nothing);
                    match wide_imm_spec(c, b, width, src, Exclude::Nothing) {
                        Ok((b, rmi)) => {
                            match rmi {
                                Rmi::Reg(g) => {
                                },
                                Rmi::Imm(i) => {
                                },
                                Rmi::Mem(m) => {
                                    if m == slot_mem(slot) {
                                    } else {
                                        lemma_spared_scratch(c, b, Exclude::Nothing);
                                    }
                                },
                            }
                        },
                        Err(_) => {},
                    }
                },
                Err(_) => {},
            }
        },
        Err(_) => {},
    }
}

proof fn lemma_spared_define_gc_temp(c: Ctx, b: Bound, id: LocalId, width: Width, src: Src)
    requires
        replies_spare(c),
        ops_spare(b.ops),
        src_spares(src),
    ensures
        spared(define_gc_temp_spec(c, b, id, width, src)),
{
    match slot_of_spec(c, b, id) {
        Ok((b, slot)) => {
            lemma_spared_wide_imm(c, b, width, src, Exclude::Nothing);
            match wide_imm_spec(c, b, width, src, Exclude::Nothing) {
                Ok((b, rmi)) => {
                    match rmi {
                        Rmi::Reg(g) => {
                            let b = b.emit(
                                Op::Mov { width, dst: Rm::Mem(slot_mem(slot)), src: Rmi::Reg(g) },
                            );
                            lemma_spared_run_moves(c, b, Request::Define(id, Loc::Mem(slot)));
                        },
                        Rmi::Imm(i) => {
                            let b = b.emit(
                                Op::Mov { width, dst: Rm::Mem(slot_mem(slot)), src: Rmi::Imm(i) },
                            );
                            lemma_spared_run_moves(c, b, Request::Define(id, Loc::Mem(slot)));
                        },
                        Rmi::Mem(m) => {
                            if m == slot_mem(slot) {
                                lemma_spared_run_moves(c, b, Request::Define(id, Loc::Mem(slot)));
                            } else {
                                lemma_spared_scratch(c, b, Exclude::Nothing);
                                match scratch_spec(c, b, Exclude::Nothing) {
                                    Ok((b, g)) => {
                                        let b = b.emit(
                                            Op::Mov { width, dst: Rm::Reg(g), src: Rmi::Mem(m) },
                                        );
                                        let b = b.emit(
                                            Op::Mov {
                                                width,
                                                dst: Rm::Mem(slot_mem(slot)),
                                                src: Rmi::Reg(g),
                                            },
                                        );
                                        lemma_spared_run_moves(
                                            c,
                                            b,
                                            Request::Define(id, Loc::Mem(slot)),
                                        );
                                    },
                                    Err(_) => {},
                                }
                            }
                        },
                    }
                },
                Err(_) => {},
            }
        },
        Err(_) => {},
    }
}

proof fn lemma_spared_emit_define_temp(c: Ctx, b: Bound, id: LocalId, width: Width, src: Src)
    requires
        replies_spare(c),
        ops_spare(b.ops),
        src_spares(src),
    ensures
        spared(emit_define_temp_spec(c, b, id, width, src)),
{
    reveal(emit_define_temp_spec);
    match ty_of_spec(c, b, id) {
        Ok((b, ty)) => {
            if is_gc(ty) {
                lemma_spared_define_gc_temp(c, b, id, width, src);
            } else {
                match src {
                    Src::Imm(i) => {
                        lemma_spared_run_moves(c, b, Request::Define(id, Loc::Const(i)));
                    },
                    Src::Reg(g) => {
                        lemma_spared_define_temp_reg(c, b, id, g);
                    },
                    Src::Val(v) => {
                        match is_fixed_spec(c, b, v.0) {
                            Ok((b, fixed)) => {
                                if fixed {
                                    lemma_spared_run_moves(
                                        c,
                                        b,
                                        Request::Define(id, Loc::Local(v.0)),
                                    );
                                } else {
                                    lemma_spared_read(c, b, v.0);
                                    match read_spec(c, b, v.0) {
                                        Ok((b, source)) => {
                                            match source {
                                                ReadSrc::Slot(offset) => {
                                                    lemma_spared_run_moves(
                                                        c,
                                                        b,
                                                        Request::Define(id, Loc::Mem(offset)),
                                                    );
                                                },
                                                ReadSrc::Imm(i) => {
                                                    lemma_spared_run_moves(
                                                        c,
                                                        b,
                                                        Request::Define(id, Loc::Const(i)),
                                                    );
                                                },
                                                ReadSrc::Reg(p) => {
                                                    lemma_spared_scratch(c, b, Exclude::One(p));
                                                    match scratch_spec(c, b, Exclude::One(p)) {
                                                        Ok((b, d)) => {
                                                            match gpr_spec(c, b, p) {
                                                                Ok((b, g)) => {
                                                                    let b = b.emit(
                                                                        Op::Mov {
                                                                            width,
                                                                            dst: Rm::Reg(d),
                                                                            src: Rmi::Reg(g),
                                                                        },
                                                                    );
                                                                    lemma_spared_define_temp_reg(
                                                                        c,
                                                                        b,
                                                                        id,
                                                                        d,
                                                                    );
                                                                },
                                                                Err(_) => {},
                                                            }
                                                        },
                                                        Err(_) => {},
                                                    }
                                                },
                                            }
                                        },
                                        Err(_) => {},
                                    }
                                }
                            },
                            Err(_) => {},
                        }
                    },
                }
            }
        },
        Err(_) => {},
    }
}

proof fn lemma_spared_emit_mov(c: Ctx, b: Bound, width: Width, dst: Place, src: Src)
    requires
        replies_spare(c),
        ops_spare(b.ops),
        place_spares(dst),
        src_spares(src),
    ensures
        spared(emit_mov_spec(c, b, width, dst, src)),
{
    reveal(emit_mov_spec);
    match dst {
        Place::Reg(g) => {
            lemma_spared_run_moves(c, b, Request::Clobber(g.phys()));
            match run_moves_spec(c, b, Request::Clobber(g.phys())) {
                Ok((b, _)) => {
                    lemma_spared_rmi_of(c, b, src);
                },
                Err(_) => {},
            }
        },
        Place::Val(v) => {
            match is_fixed_spec(c, b, v.0) {
                Ok((b, fixed)) => {
                    if fixed {
                        lemma_spared_emit_store_to_local(c, b, v.0, width, src);
                    } else {
                        lemma_spared_emit_define_temp(c, b, v.0, width, src);
                    }
                },
                Err(_) => {},
            }
        },
    }
}

proof fn lemma_spared_emit_lea(c: Ctx, b: Bound, dst: Place, addr: Amode)
    requires
        replies_spare(c),
        ops_spare(b.ops),
        place_spares(dst),
    ensures
        spared(emit_lea_spec(c, b, dst, addr)),
{
    reveal(emit_lea_spec);
    match slot_of_spec(c, b, frame_slot(addr)) {
        Ok((b, offset)) => {
            match dst {
                Place::Val(t) => {
                    lemma_spared_scratch(c, b, Exclude::Nothing);
                    match scratch_spec(c, b, Exclude::Nothing) {
                        Ok((b, g)) => {
                            let b = b.emit(Op::Lea { dst: g, addr: slot_mem(offset) });
                            match is_fixed_spec(c, b, t.0) {
                                Ok((b, fixed)) => {
                                    if fixed {
                                        lemma_spared_emit_store_to_local(
                                            c,
                                            b,
                                            t.0,
                                            Width::W64,
                                            Src::Reg(g),
                                        );
                                    } else {
                                        lemma_spared_define_temp_reg(c, b, t.0, g);
                                    }
                                },
                                Err(_) => {},
                            }
                        },
                        Err(_) => {},
                    }
                },
                Place::Reg(g) => {
                    lemma_spared_run_moves(c, b, Request::Clobber(g.phys()));
                },
            }
        },
        Err(_) => {},
    }
}

proof fn lemma_spared_shift_into(c: Ctx, b: Bound, op: ShiftOp, width: Width, lhs: Src, rhs: Src)
    requires
        replies_spare(c),
        ops_spare(b.ops),
        src_spares(lhs),
        src_spares(rhs),
    ensures
        spared(shift_into_spec(c, b, op, width, lhs, rhs)),
        shift_into_spec(c, b, op, width, lhs, rhs) is Ok ==> spares(
            outcome(shift_into_spec(c, b, op, width, lhs, rhs)),
        ),
{
    lemma_spared_scratch(c, b, Exclude::One(Gpr::Rcx.phys()));
    match scratch_spec(c, b, Exclude::One(Gpr::Rcx.phys())) {
        Ok((b, d)) => {
            lemma_spared_rmi_of(c, b, lhs);
            match rmi_of_spec(c, b, lhs) {
                Ok((b, l)) => {
                    let b = b.emit(Op::Mov { width, dst: Rm::Reg(d), src: l });
                    match rhs {
                        Src::Imm(count) => {
                        },
                        _ => {
                            lemma_spared_run_moves(c, b, Request::Clobber(Gpr::Rcx.phys()));
                            match run_moves_spec(c, b, Request::Clobber(Gpr::Rcx.phys())) {
                                Ok((b, _)) => {
                                    lemma_spared_rmi_of(c, b, rhs);
                                },
                                Err(_) => {},
                            }
                        },
                    }
                },
                Err(_) => {},
            }
        },
        Err(_) => {},
    }
}

proof fn lemma_spared_emit_shift(
    c: Ctx,
    b: Bound,
    op: ShiftOp,
    width: Width,
    dst: Place,
    lhs: Src,
    rhs: Src,
)
    requires
        replies_spare(c),
        ops_spare(b.ops),
        place_spares(dst),
        src_spares(lhs),
        src_spares(rhs),
    ensures
        spared(emit_shift_spec(c, b, op, width, dst, lhs, rhs)),
{
    reveal(emit_shift_spec);
    match dst {
        Place::Reg(_) => {
        },
        Place::Val(t) => {
            lemma_spared_shift_into(c, b, op, width, lhs, rhs);
            match shift_into_spec(c, b, op, width, lhs, rhs) {
                Ok((b, d)) => {
                    lemma_spared_define_temp_reg(c, b, t.0, d);
                },
                Err(_) => {},
            }
        },
    }
}

proof fn lemma_spared_unary_into(c: Ctx, b: Bound, op: UnaryOp, width: Width, src: Src)
    requires
        replies_spare(c),
        ops_spare(b.ops),
        src_spares(src),
    ensures
        spared(unary_into_spec(c, b, op, width, src)),
        unary_into_spec(c, b, op, width, src) is Ok ==> spares(
            outcome(unary_into_spec(c, b, op, width, src)),
        ),
{
    lemma_spared_scratch(c, b, Exclude::Nothing);
    match scratch_spec(c, b, Exclude::Nothing) {
        Ok((b, d)) => {
            lemma_spared_rmi_of(c, b, src);
        },
        Err(_) => {},
    }
}

proof fn lemma_spared_emit_unary(c: Ctx, b: Bound, op: UnaryOp, width: Width, dst: Place, src: Src)
    requires
        replies_spare(c),
        ops_spare(b.ops),
        place_spares(dst),
        src_spares(src),
    ensures
        spared(emit_unary_spec(c, b, op, width, dst, src)),
{
    reveal(emit_unary_spec);
    match dst {
        Place::Reg(_) => {
        },
        Place::Val(t) => {
            lemma_spared_unary_into(c, b, op, width, src);
            match unary_into_spec(c, b, op, width, src) {
                Ok((b, d)) => {
                    lemma_spared_define_temp_reg(c, b, t.0, d);
                },
                Err(_) => {},
            }
        },
    }
}

proof fn lemma_spared_emit_setcc(c: Ctx, b: Bound, cc: CondCode, dst: Place)
    requires
        replies_spare(c),
        ops_spare(b.ops),
        place_spares(dst),
    ensures
        spared(emit_setcc_spec(c, b, cc, dst)),
{
    reveal(emit_setcc_spec);
    match dst {
        Place::Val(t) => {
            lemma_spared_scratch(c, b, Exclude::Nothing);
            match scratch_spec(c, b, Exclude::Nothing) {
                Ok((b, g)) => {
                    let b = b.emit(
                        Op::Mov { width: Width::W32, dst: Rm::Reg(g), src: Rmi::Imm(0) },
                    );
                    let b = b.emit(Op::Setcc { cc, dst: g });
                    lemma_spared_define_temp_reg(c, b, t.0, g);
                },
                Err(_) => {},
            }
        },
        Place::Reg(g) => {
            lemma_spared_run_moves(c, b, Request::Clobber(g.phys()));
        },
    }
}

proof fn lemma_spared_ext_into(c: Ctx, b: Bound, g: Gpr, src: Src, signed: bool)
    requires
        replies_spare(c),
        ops_spare(b.ops),
        spares(g),
        src_spares(src),
    ensures
        spared(ext_into_spec(c, b, g, src, signed)),
{
    if signed {
        lemma_spared_rm_of(c, b, src, Width::W32, Exclude::One(g.phys()));
    } else {
        lemma_spared_rmi_of(c, b, src);
    }
}

proof fn lemma_spared_emit_movext(c: Ctx, b: Bound, dst: Place, src: Src, signed: bool)
    requires
        replies_spare(c),
        ops_spare(b.ops),
        place_spares(dst),
        src_spares(src),
    ensures
        spared(emit_movext_spec(c, b, dst, src, signed)),
{
    reveal(emit_movext_spec);
    match dst {
        Place::Val(t) => {
            lemma_spared_scratch(c, b, Exclude::Nothing);
            match scratch_spec(c, b, Exclude::Nothing) {
                Ok((b, g)) => {
                    lemma_spared_ext_into(c, b, g, src, signed);
                    match ext_into_spec(c, b, g, src, signed) {
                        Ok((b, _)) => {
                            lemma_spared_define_temp_reg(c, b, t.0, g);
                        },
                        Err(_) => {},
                    }
                },
                Err(_) => {},
            }
        },
        Place::Reg(g) => {
            lemma_spared_run_moves(c, b, Request::Clobber(g.phys()));
            match run_moves_spec(c, b, Request::Clobber(g.phys())) {
                Ok((b, _)) => {
                    lemma_spared_ext_into(c, b, g, src, signed);
                },
                Err(_) => {},
            }
        },
    }
}

proof fn lemma_spared_arith_into(c: Ctx, b: Bound, op: ArithOp, width: Width, lhs: Src, rhs: Src)
    requires
        replies_spare(c),
        ops_spare(b.ops),
        src_spares(lhs),
        src_spares(rhs),
    ensures
        spared(arith_into_spec(c, b, op, width, lhs, rhs)),
        arith_into_spec(c, b, op, width, lhs, rhs) is Ok ==> spares(
            outcome(arith_into_spec(c, b, op, width, lhs, rhs)),
        ),
{
    lemma_spared_scratch(c, b, Exclude::Nothing);
    match scratch_spec(c, b, Exclude::Nothing) {
        Ok((b, d)) => {
            if op == ArithOp::Imul && is_small_imm(rhs) {
                lemma_spared_rm_of(c, b, lhs, width, Exclude::One(d.phys()));
            } else {
                lemma_spared_rmi_of(c, b, lhs);
                match rmi_of_spec(c, b, lhs) {
                    Ok((b, l)) => {
                        let b = b.emit(Op::Mov { width, dst: Rm::Reg(d), src: l });
                        match alu_of(op) {
                            Some(alu) => {
                                lemma_spared_wide_imm(c, b, width, rhs, Exclude::One(d.phys()));
                            },
                            None => {
                                lemma_spared_rm_of(c, b, rhs, width, Exclude::One(d.phys()));
                            },
                        }
                    },
                    Err(_) => {},
                }
            }
        },
        Err(_) => {},
    }
}

proof fn lemma_spared_emit_arith(
    c: Ctx,
    b: Bound,
    op: ArithOp,
    width: Width,
    dst: Place,
    lhs: Src,
    rhs: Src,
)
    requires
        replies_spare(c),
        ops_spare(b.ops),
        place_spares(dst),
        src_spares(lhs),
        src_spares(rhs),
    ensures
        spared(emit_arith_spec(c, b, op, width, dst, lhs, rhs)),
{
    reveal(emit_arith_spec);
    match dst {
        Place::Reg(_) => {
        },
        Place::Val(t) => {
            lemma_spared_arith_into(c, b, op, width, lhs, rhs);
            match arith_into_spec(c, b, op, width, lhs, rhs) {
                Ok((b, d)) => {
                    lemma_spared_define_temp_reg(c, b, t.0, d);
                },
                Err(_) => {},
            }
        },
    }
}

proof fn lemma_spared_emit_cmp(c: Ctx, b: Bound, width: Width, lhs: Src, rhs: Src)
    requires
        replies_spare(c),
        ops_spare(b.ops),
        src_spares(lhs),
        src_spares(rhs),
    ensures
        spared(emit_cmp_spec(c, b, width, lhs, rhs)),
{
    reveal(emit_cmp_spec);
    lemma_spared_wide_imm(c, b, width, rhs, Exclude::Nothing);
    match wide_imm_spec(c, b, width, rhs, Exclude::Nothing) {
        Ok((b, r)) => {
            lemma_spared_rmi_of(c, b, lhs);
            match rmi_of_spec(c, b, lhs) {
                Ok((b, l)) => {
                    match l {
                        Rmi::Reg(g) => {
                        },
                        Rmi::Mem(m) => {
                            match r {
                                Rmi::Mem(_) => {
                                    lemma_spared_scratch(c, b, Exclude::Nothing);
                                },
                                _ => {
                                },
                            }
                        },
                        Rmi::Imm(_) => {
                            lemma_spared_scratch(c, b, exclude_reg(r));
                        },
                    }
                },
                Err(_) => {},
            }
        },
        Err(_) => {},
    }
}

proof fn lemma_spared_emit_divide(c: Ctx, b: Bound, width: Width, divisor: Src, signed: bool)
    requires
        replies_spare(c),
        ops_spare(b.ops),
        src_spares(divisor),
    ensures
        spared(emit_divide_spec(c, b, width, divisor, signed)),
{
    reveal(emit_divide_spec);
    lemma_spared_run_moves(c, b, Request::Clobber(Gpr::Rax.phys()));
    match run_moves_spec(c, b, Request::Clobber(Gpr::Rax.phys())) {
        Ok((b, _)) => {
            lemma_spared_run_moves(c, b, Request::Clobber(Gpr::Rdx.phys()));
            match run_moves_spec(c, b, Request::Clobber(Gpr::Rdx.phys())) {
                Ok((b, _)) => {
                    lemma_spared_rm_of(
                        c,
                        b,
                        divisor,
                        width,
                        Exclude::Two(Gpr::Rax.phys(), Gpr::Rdx.phys()),
                    );
                },
                Err(_) => {},
            }
        },
        Err(_) => {},
    }
}

proof fn lemma_spared_emit_call_lookup(
    c: Ctx,
    b: Bound,
    method: Option<MethodHandle>,
    addr: Option<u64>,
    slot: Option<u64>,
)
    requires
        replies_spare(c),
        ops_spare(b.ops),
    ensures
        spared(emit_call_lookup_spec(c, b, method, addr, slot)),
{
    reveal(emit_call_lookup_spec);
    lemma_spared_run_moves(c, b, Request::SpillRegisters);
}

proof fn lemma_spared_emit_call(c: Ctx, b: Bound, method: MethodHandle)
    requires
        replies_spare(c),
        ops_spare(b.ops),
    ensures
        spared(emit_call_spec(c, b, method)),
{
    reveal(emit_call_spec);
    lemma_spared_lookup(c, b, Request::EntryPoint(method));
    match lookup_spec(c, b, Request::EntryPoint(method)) {
        Ok((b, target)) => {
            lemma_spared_emit_call_lookup(c, b, Some(method), target.addr, target.slot);
        },
        Err(_) => {},
    }
}

proof fn lemma_spared_emit_helper_call(c: Ctx, b: Bound, id: CorInfoHelpFunc)
    requires
        replies_spare(c),
        ops_spare(b.ops),
    ensures
        spared(emit_helper_call_spec(c, b, id)),
{
    reveal(emit_helper_call_spec);
    lemma_spared_lookup(c, b, Request::HelperEntry(id));
    match lookup_spec(c, b, Request::HelperEntry(id)) {
        Ok((b, target)) => {
            lemma_spared_emit_call_lookup(c, b, None, target.addr, target.slot);
        },
        Err(_) => {},
    }
}

proof fn lemma_spared_emit_float_inst(c: Ctx, b: Bound, inst: Inst)
    requires
        replies_spare(c),
        ops_spare(b.ops),
        inst_spares(inst),
    ensures
        spared(emit_float_inst_spec(c, b, inst)),
{
    reveal(emit_float_inst_spec);
    match inst {
        Inst::ConstF { width, dst, bits } => {
            lemma_spared_emit_const_f(c, b, width, dst, bits);
        },
        Inst::MovF { width, dst, src } => {
            lemma_spared_emit_mov_f(c, b, width, dst, src);
        },
        Inst::ArithF { op, width, dst, lhs, rhs } => {
            lemma_spared_emit_arith_f(c, b, op, width, dst, lhs, rhs);
        },
        Inst::NegF { width, dst, src } => {
            lemma_spared_emit_neg_f(c, b, width, dst, src);
        },
        Inst::CmpF { width, lhs, rhs } => {
            lemma_spared_emit_cmp_f(c, b, width, lhs, rhs);
        },
        Inst::SetccF { op, dst } => {
            lemma_spared_emit_setcc_f(c, b, op, dst);
        },
        Inst::JccF { op, target } => {
            lemma_spared_emit_jcc_f(c, b, op, target);
        },
        Inst::CvtIntToF { width, src_w64, dst, src } => {
            lemma_spared_emit_cvt_int_to_f(c, b, width, src_w64, dst, src);
        },
        Inst::CvtFToInt { src_width, dst_w64, dst, src } => {
            lemma_spared_emit_cvt_f_to_int(c, b, src_width, dst_w64, dst, src);
        },
        Inst::CvtFToF { to, dst, src } => {
            lemma_spared_emit_cvt_f_to_f(c, b, to, dst, src);
        },
        _ => {
        },
    }
}

proof fn lemma_spared_emit_plain_inst(c: Ctx, b: Bound, inst: Inst)
    requires
        replies_spare(c),
        ops_spare(b.ops),
        inst_spares(inst),
    ensures
        spared(emit_plain_inst_spec(c, b, inst)),
{
    reveal(emit_plain_inst_spec);
    match inst {
        Inst::Cdq { width } => {
            lemma_spared_run_moves(c, b, Request::Clobber(Gpr::Rdx.phys()));
        },
        Inst::Jcc { cc, target } => {
        },
        Inst::Jmp { target } => {
        },
        Inst::Push { reg } => {
        },
        Inst::AllocFrame => {
        },
        Inst::Leave => {
        },
        Inst::Ret => {
        },
        _ => {
        },
    }
}

proof fn lemma_spared_emit_inst(c: Ctx, b: Bound, inst: Inst)
    requires
        replies_spare(c),
        ops_spare(b.ops),
        inst_spares(inst),
    ensures
        spared(emit_inst_spec(c, b, inst)),
{
    match inst {
        Inst::Mov { width, dst, src } => {
            lemma_spared_emit_mov(c, b, width, dst, src);
        },
        Inst::Lea { dst, addr } => {
            lemma_spared_emit_lea(c, b, dst, addr);
        },
        Inst::Arith { op, width, dst, lhs, rhs } => {
            lemma_spared_emit_arith(c, b, op, width, dst, lhs, rhs);
        },
        Inst::Idiv { width, divisor } => {
            lemma_spared_emit_divide(c, b, width, divisor, true);
        },
        Inst::Div { width, divisor } => {
            lemma_spared_emit_divide(c, b, width, divisor, false);
        },
        Inst::Shift { op, width, dst, lhs, rhs } => {
            lemma_spared_emit_shift(c, b, op, width, dst, lhs, rhs);
        },
        Inst::Unary { op, width, dst, src } => {
            lemma_spared_emit_unary(c, b, op, width, dst, src);
        },
        Inst::Setcc { cc, dst } => {
            lemma_spared_emit_setcc(c, b, cc, dst);
        },
        Inst::MovExt { dst, src, signed } => {
            lemma_spared_emit_movext(c, b, dst, src, signed);
        },
        Inst::Cmp { width, lhs, rhs } => {
            lemma_spared_emit_cmp(c, b, width, lhs, rhs);
        },
        Inst::CallDirect { method } => {
            lemma_spared_emit_call(c, b, method);
        },
        Inst::CallHelper { id } => {
            lemma_spared_emit_helper_call(c, b, id);
        },
        Inst::ConstF { .. }
        | Inst::MovF { .. }
        | Inst::ArithF { .. }
        | Inst::NegF { .. }
        | Inst::CmpF { .. }
        | Inst::SetccF { .. }
        | Inst::JccF { .. }
        | Inst::CvtIntToF { .. }
        | Inst::CvtFToInt { .. }
        | Inst::CvtFToF { .. } => {
            lemma_spared_emit_float_inst(c, b, inst);
        },
        Inst::Cdq { .. }
        | Inst::Jcc { .. }
        | Inst::Jmp { .. }
        | Inst::Push { .. }
        | Inst::AllocFrame
        | Inst::Leave
        | Inst::Ret => {
            lemma_spared_emit_plain_inst(c, b, inst);
        },
        _ => {
        },
    }
}

/// Binding a descriptor that names no callee-saved register emits no instruction
/// that names one, as long as the value machine hands none out. So nothing has to
/// be saved, and every method has the same prolog and epilog.
pub proof fn law_bindings_spare_callee_saved(c: Ctx, b: Bound, inst: Inst)
    requires
        replies_spare(c),
        ops_spare(b.ops),
        inst_spares(inst),
    ensures
        spared(emit_inst_spec(c, b, inst)),
{
    lemma_spared_emit_inst(c, b, inst);
}

} // verus!
