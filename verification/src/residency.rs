//! Where values live.
//!
//! The collector looks at frame slots only. So a temporary that holds a GC pointer
//! goes to its slot as soon as it is defined, and so does every float. A value that
//! is in the way of a write moves away first.

use crate::bind::{
    alu_of, apply_spec, arith_into_spec, bits_imm, bound_at, define_gc_temp_spec,
    define_temp_reg_spec, define_xmm_spec, emit_arith_f_spec, emit_arith_spec,
    emit_call_lookup_spec, emit_call_spec, emit_cmp_f_spec, emit_cmp_spec, emit_const_f_spec,
    emit_cvt_f_to_f_spec, emit_cvt_f_to_int_spec, emit_cvt_int_to_f_spec, emit_define_temp_spec,
    emit_divide_spec, emit_float_inst_spec, emit_helper_call_spec, emit_inst_spec, emit_jcc_f_spec,
    emit_lea_spec, emit_mov_f_spec, emit_mov_spec, emit_movext_spec, emit_neg_f_spec,
    emit_plain_inst_spec, emit_setcc_f_spec, emit_setcc_spec, emit_shift_spec,
    emit_store_to_local_spec, emit_unary_spec, exclude_reg, ext_into_spec, float_recipe, frame_slot,
    gpr_spec, is_fixed_spec, is_gc, is_small_imm, lookup_spec, materialize_bits_spec, other_fwidth,
    place_int_spec, read_spec, rm_of_spec, rmi_of_spec, rmx_of_spec, run_moves_spec, scratch_spec,
    setcc_f_into_spec, shift_into_spec, sign_mask, slot_mem, slot_of_spec, ty_of_spec,
    unary_into_spec, wide_imm_of, wide_imm_spec, width_if, Asked, Bound, Ctx, Exclude, Halt, Loc,
    Move, Op, ReadSrc, Reply, Request, Second, Step, Stop, SCRATCH_XMM_A, SCRATCH_XMM_B,
};
use crate::encode::{Mem, Rm, RmX, Rmi};
use crate::inst::{
    Amode, ArithFOp, ArithOp, CondCode, FWidth, Inst, Place, ShiftOp, Src, Width, XmmPlace, XmmSrc,
};
use crate::ir::{BinaryOp, CorInfoHelpFunc, Label, LocalId, MethodHandle, UnaryOp, Val};
use crate::regs::{Gpr, Xmm};
use vstd::prelude::*;

verus! {

/// The instruction stores to the cell.
pub open spec fn stores_to(op: Op, m: Mem) -> bool {
    match op {
        Op::Mov { dst, .. } => dst == Rm::Mem(m),
        Op::MovFStore { dst, .. } => dst == m,
        _ => false,
    }
}

/// The reply to the `i`th request.
pub open spec fn reply_to(c: Ctx, b: Bound, i: int) -> Reply {
    c.replies[b.next - b.asked.len() + i]
}

/// What a binding has emitted and asked stays. Labels that are no block count down,
/// and the new ones are bound here.
pub open spec fn extends(b: Bound, after: Bound) -> bool {
    &&& b.ops.len() <= after.ops.len()
    &&& forall|i: int| 0 <= i < b.ops.len() ==> #[trigger] after.ops[i] == b.ops[i]
    &&& b.asked.len() <= after.asked.len()
    &&& forall|i: int| 0 <= i < b.asked.len() ==> #[trigger] after.asked[i] == b.asked[i]
    &&& after.next - after.asked.len() == b.next - b.asked.len()
    &&& after.synthetic <= b.synthetic
    &&& forall|i: int|
        b.ops.len() <= i < after.ops.len() && (#[trigger] after.ops[i]) is Bind ==> after.synthetic
            < after.ops[i]->label.0.0 <= b.synthetic
    &&& forall|i: int, j: int|
        #![trigger after.ops[i], after.ops[j]]
        b.ops.len() <= i < j < after.ops.len() && after.ops[i] is Bind && after.ops[j] is Bind
            ==> after.ops[j]->label.0.0 < after.ops[i]->label.0.0
}

/// The temporary holds a GC pointer.
pub open spec fn is_gc_temp(c: Ctx, id: LocalId) -> bool {
    id.0 < c.types.len() && is_gc(c.types[id.0 as int])
}

/// A temporary that holds a GC pointer is only ever said to lie in its own slot.
pub open spec fn request_kept(c: Ctx, request: Request) -> bool {
    match request {
        Request::Define(id, loc) => is_gc_temp(c, id) ==> id.0 < c.slots.len() && loc == Loc::Mem(
            c.slots[id.0 as int],
        ),
        _ => true,
    }
}

/// The pointer is in its slot: the last of the first `emitted` instructions stored
/// it there, or it was just read from there, by the request before the `i`th.
pub open spec fn in_its_slot(c: Ctx, b: Bound, emitted: nat, i: int, m: Mem) -> bool {
    ||| 0 < emitted <= b.ops.len() && stores_to(b.ops[emitted - 1], m)
    ||| i > 0 && b.asked[i - 1].request is Read && match reply_to(c, b, i - 1) {
        Reply::Source(ReadSrc::Slot(offset)) => slot_mem(offset) == m,
        _ => false,
    }
}

/// When the binding said that a temporary with a GC pointer lies in its slot, the
/// pointer was there.
pub open spec fn entry_kept(c: Ctx, b: Bound, i: int) -> bool {
    let asked = b.asked[i];
    &&& request_kept(c, asked.request)
    &&& match asked.request {
        Request::Define(id, _) => is_gc_temp(c, id) ==> in_its_slot(
            c,
            b,
            asked.emitted,
            i,
            slot_mem(c.slots[id.0 as int]),
        ),
        _ => true,
    }
}

/// The request can be made here: what it says is so.
pub open spec fn ready(c: Ctx, b: Bound, request: Request) -> bool {
    &&& request_kept(c, request)
    &&& match request {
        Request::Define(id, _) => is_gc_temp(c, id) ==> in_its_slot(
            c,
            b,
            b.ops.len(),
            b.asked.len() as int,
            slot_mem(c.slots[id.0 as int]),
        ),
        _ => true,
    }
}

/// How far a part of a binding came, whether it stopped or not.
pub open spec fn came_to<T>(s: Step<T>) -> Bound {
    match s {
        Ok((b, _)) => b,
        Err(halt) => halt.at,
    }
}

/// A part of a binding adds to what was emitted, and what it says of GC pointers is
/// so, in the request that it stops with too.
pub open spec fn kept<T>(c: Ctx, b: Bound, s: Step<T>) -> bool {
    let after = came_to(s);
    &&& extends(b, after)
    &&& forall|i: int|
        #![trigger after.asked[i]]
        b.asked.len() <= i < after.asked.len() ==> entry_kept(c, after, i)
    &&& match s {
        Err(Halt { at, stop: Stop::Ask(request) }) => ready(c, at, request),
        _ => true,
    }
}

proof fn lemma_kept_apply(b: Bound, moves: Seq<Move>, n: nat)
    ensures
        extends(b, came_to(apply_spec(b, moves, n))),
        came_to(apply_spec(b, moves, n)).asked == b.asked,
        match apply_spec(b, moves, n) {
            Err(halt) => halt.stop is Fail,
            Ok(_) => true,
        },
    decreases n,
{
    if n > 0 {
        lemma_kept_apply(b, moves, (n - 1) as nat);
    }
}

proof fn lemma_kept_run_moves(c: Ctx, b: Bound, request: Request)
    requires
        ready(c, b, request),
    ensures
        kept(c, b, run_moves_spec(c, b, request)),
{
    if b.next < c.replies.len() {
        match c.replies[b.next as int] {
            Reply::Moves(moves) => lemma_kept_apply(b.used(request), moves@, moves@.len()),
            Reply::Scratch { reg, moves } => lemma_kept_apply(
                b.used(request),
                moves@,
                moves@.len(),
            ),
            _ => {},
        }
    }
}

pub proof fn lemma_kept_scratch(c: Ctx, b: Bound, exclude: Exclude)
    ensures
        kept(c, b, scratch_spec(c, b, exclude)),
{
    if b.next < c.replies.len() {
        match c.replies[b.next as int] {
            Reply::Moves(moves) => lemma_kept_apply(
                b.used(Request::TakeScratch(exclude)),
                moves@,
                moves@.len(),
            ),
            Reply::Scratch { reg, moves } => lemma_kept_apply(
                b.used(Request::TakeScratch(exclude)),
                moves@,
                moves@.len(),
            ),
            _ => {},
        }
    }
}

proof fn lemma_kept_read(c: Ctx, b: Bound, id: LocalId)
    ensures
        kept(c, b, read_spec(c, b, id)),
{
}

proof fn lemma_kept_lookup(c: Ctx, b: Bound, request: Request)
    requires
        ready(c, b, request),
    ensures
        kept(c, b, lookup_spec(c, b, request)),
{
}

proof fn lemma_kept_rmi_of(c: Ctx, b: Bound, src: Src)
    ensures
        kept(c, b, rmi_of_spec(c, b, src)),
{
    match src {
        Src::Reg(g) => {
        },
        Src::Imm(i) => {
        },
        Src::Val(v) => {
            lemma_kept_read(c, b, v.0);
        },
    }
}

pub proof fn lemma_kept_wide_imm(c: Ctx, b: Bound, width: Width, src: Src, exclude: Exclude)
    ensures
        kept(c, b, wide_imm_spec(c, b, width, src, exclude)),
{
    lemma_kept_rmi_of(c, b, src);
    match rmi_of_spec(c, b, src) {
        Ok((b, rmi)) => {
            match wide_imm_of(width, rmi) {
                Some(i) => {
                    lemma_kept_scratch(c, b, exclude);
                },
                None => {
                },
            }
        },
        Err(_) => {},
    }
}

pub proof fn lemma_kept_rm_of(c: Ctx, b: Bound, src: Src, width: Width, exclude: Exclude)
    ensures
        kept(c, b, rm_of_spec(c, b, src, width, exclude)),
{
    lemma_kept_rmi_of(c, b, src);
    match rmi_of_spec(c, b, src) {
        Ok((b, rmi)) => {
            match rmi {
                Rmi::Reg(g) => {
                },
                Rmi::Mem(m) => {
                },
                Rmi::Imm(i) => {
                    lemma_kept_scratch(c, b, exclude);
                },
            }
        },
        Err(_) => {},
    }
}

proof fn lemma_kept_define_temp_reg(c: Ctx, b: Bound, t: LocalId, g: Gpr)
    ensures
        kept(c, b, define_temp_reg_spec(c, b, t, g)),
{
    match ty_of_spec(c, b, t) {
        Ok((b, ty)) => {
            if is_gc(ty) {
                match slot_of_spec(c, b, t) {
                    Ok((b, slot)) => {
                        let b = b.emit(
                            Op::Mov {
                                width: Width::W64,
                                dst: Rm::Mem(slot_mem(slot)),
                                src: Rmi::Reg(g),
                            },
                        );
                        lemma_kept_run_moves(c, b, Request::Define(t, Loc::Mem(slot)));
                    },
                    Err(_) => {},
                }
            } else {
                lemma_kept_run_moves(c, b, Request::Define(t, Loc::Reg(g.phys())));
            }
        },
        Err(_) => {},
    }
}

pub proof fn lemma_kept_materialize_bits(c: Ctx, b: Bound, dst: Xmm, width: FWidth, bits: u64)
    ensures
        kept(c, b, materialize_bits_spec(c, b, dst, width, bits)),
{
    lemma_kept_scratch(c, b, Exclude::Nothing);
}

pub proof fn lemma_kept_rmx_of(c: Ctx, b: Bound, src: XmmSrc, width: FWidth, scratch: Xmm)
    ensures
        kept(c, b, rmx_of_spec(c, b, src, width, scratch)),
{
    match src {
        XmmSrc::Reg(x) => {
        },
        XmmSrc::Val(v) => {
            lemma_kept_read(c, b, v.0);
        },
        XmmSrc::Bits(bits) => {
            lemma_kept_materialize_bits(c, b, scratch, width, bits);
        },
    }
}

proof fn lemma_kept_define_xmm(c: Ctx, b: Bound, dst: XmmPlace, width: FWidth, src: Xmm)
    ensures
        kept(c, b, define_xmm_spec(c, b, dst, width, src)),
{
    match dst {
        XmmPlace::Reg(x) => {
        },
        XmmPlace::Val(v) => {
            match slot_of_spec(c, b, v.0) {
                Ok((b, slot)) => {
                    match is_fixed_spec(c, b, v.0) {
                        Ok((b, fixed)) => {
                            if fixed {
                                lemma_kept_run_moves(c, b, Request::BeforeLocalWrite(v.0));
                            } else {
                                let b = b.emit(Op::MovFStore { width, dst: slot_mem(slot), src });
                                lemma_kept_run_moves(c, b, Request::Define(v.0, Loc::Mem(slot)));
                            }
                        },
                        Err(_) => {},
                    }
                },
                Err(_) => {},
            }
        },
    }
}

proof fn lemma_kept_emit_const_f(c: Ctx, b: Bound, width: FWidth, dst: XmmPlace, bits: u64)
    ensures
        kept(c, b, emit_const_f_spec(c, b, width, dst, bits)),
{
    reveal(emit_const_f_spec);
    match dst {
        XmmPlace::Reg(x) => {
            lemma_kept_materialize_bits(c, b, x, width, bits);
        },
        XmmPlace::Val(v) => {
            match slot_of_spec(c, b, v.0) {
                Ok((b, slot)) => {
                    match is_fixed_spec(c, b, v.0) {
                        Ok((b, fixed)) => {
                            if fixed {
                                lemma_kept_run_moves(c, b, Request::BeforeLocalWrite(v.0));
                            }
                            match if fixed {
                                run_moves_spec(c, b, Request::BeforeLocalWrite(v.0))
                            } else {
                                Ok((b, ()))
                            } {
                                Ok((b, _)) => {
                                    match width {
                                        FWidth::S => {
                                            let b = b.emit(
                                                Op::Mov {
                                                    width: Width::W32,
                                                    dst: Rm::Mem(slot_mem(slot)),
                                                    src: Rmi::Imm(bits_imm(bits)),
                                                },
                                            );
                                            if !fixed {
                                                lemma_kept_run_moves(
                                                    c,
                                                    b,
                                                    Request::Define(v.0, Loc::Mem(slot)),
                                                );
                                            }
                                            match if !fixed {
                                                run_moves_spec(
                                                    c,
                                                    b,
                                                    Request::Define(v.0, Loc::Mem(slot)),
                                                )
                                            } else {
                                                Ok((b, ()))
                                            } {
                                                Ok((b, _)) => {
                                                },
                                                Err(_) => {},
                                            }
                                        },
                                        FWidth::D => {
                                            lemma_kept_scratch(c, b, Exclude::Nothing);
                                            match scratch_spec(c, b, Exclude::Nothing) {
                                                Ok((b, g)) => {
                                                    let b = b.emit(
                                                        Op::Mov {
                                                            width: Width::W64,
                                                            dst: Rm::Reg(g),
                                                            src: Rmi::Imm(bits_imm(bits)),
                                                        },
                                                    );
                                                    let b = b.emit(
                                                        Op::Mov {
                                                            width: Width::W64,
                                                            dst: Rm::Mem(slot_mem(slot)),
                                                            src: Rmi::Reg(g),
                                                        },
                                                    );
                                                    if !fixed {
                                                        lemma_kept_run_moves(
                                                            c,
                                                            b,
                                                            Request::Define(v.0, Loc::Mem(slot)),
                                                        );
                                                    }
                                                    match if !fixed {
                                                        run_moves_spec(
                                                            c,
                                                            b,
                                                            Request::Define(v.0, Loc::Mem(slot)),
                                                        )
                                                    } else {
                                                        Ok((b, ()))
                                                    } {
                                                        Ok((b, _)) => {
                                                        },
                                                        Err(_) => {},
                                                    }
                                                },
                                                Err(_) => {},
                                            }
                                        },
                                    }
                                },
                                Err(_) => {},
                            }
                        },
                        Err(_) => {},
                    }
                },
                Err(_) => {},
            }
        },
    }
}

proof fn lemma_kept_emit_mov_f(c: Ctx, b: Bound, width: FWidth, dst: XmmPlace, src: XmmSrc)
    ensures
        kept(c, b, emit_mov_f_spec(c, b, width, dst, src)),
{
    reveal(emit_mov_f_spec);
    lemma_kept_rmx_of(c, b, src, width, SCRATCH_XMM_A);
    match rmx_of_spec(c, b, src, width, SCRATCH_XMM_A) {
        Ok((b, from)) => {
            match dst {
                XmmPlace::Reg(x) => {
                },
                XmmPlace::Val(v) => {
                    match from {
                        RmX::Reg(x) => {
                            lemma_kept_define_xmm(c, b, XmmPlace::Val(v), width, x);
                        },
                        RmX::Mem(m) => {
                            match slot_of_spec(c, b, v.0) {
                                Ok((b, slot)) => {
                                    if m == slot_mem(slot) {
                                    } else {
                                        let b = b.emit(
                                            Op::MovFLoad {
                                                width,
                                                dst: SCRATCH_XMM_A,
                                                src: RmX::Mem(m),
                                            },
                                        );
                                        lemma_kept_define_xmm(
                                            c,
                                            b,
                                            XmmPlace::Val(v),
                                            width,
                                            SCRATCH_XMM_A,
                                        );
                                    }
                                },
                                Err(_) => {},
                            }
                        },
                    }
                },
            }
        },
        Err(_) => {},
    }
}

proof fn lemma_kept_emit_arith_f(
    c: Ctx,
    b: Bound,
    op: ArithFOp,
    width: FWidth,
    dst: XmmPlace,
    lhs: XmmSrc,
    rhs: XmmSrc,
)
    ensures
        kept(c, b, emit_arith_f_spec(c, b, op, width, dst, lhs, rhs)),
{
    reveal(emit_arith_f_spec);
    lemma_kept_rmx_of(c, b, lhs, width, SCRATCH_XMM_A);
    match rmx_of_spec(c, b, lhs, width, SCRATCH_XMM_A) {
        Ok((b, l)) => {
            lemma_kept_rmx_of(c, b, rhs, width, SCRATCH_XMM_B);
            match rmx_of_spec(c, b, rhs, width, SCRATCH_XMM_B) {
                Ok((b, r)) => {
                    let b = if l != RmX::Reg(SCRATCH_XMM_A) {
                        b.emit(Op::MovFLoad { width, dst: SCRATCH_XMM_A, src: l })
                    } else {
                        b
                    };
                    let b = b.emit(Op::ArithF { op, width, dst: SCRATCH_XMM_A, src: r });
                    lemma_kept_define_xmm(c, b, dst, width, SCRATCH_XMM_A);
                },
                Err(_) => {},
            }
        },
        Err(_) => {},
    }
}

proof fn lemma_kept_emit_neg_f(c: Ctx, b: Bound, width: FWidth, dst: XmmPlace, src: XmmSrc)
    ensures
        kept(c, b, emit_neg_f_spec(c, b, width, dst, src)),
{
    reveal(emit_neg_f_spec);
    lemma_kept_materialize_bits(c, b, SCRATCH_XMM_B, width, sign_mask(width));
    match materialize_bits_spec(c, b, SCRATCH_XMM_B, width, sign_mask(width)) {
        Ok((b, _)) => {
            lemma_kept_rmx_of(c, b, src, width, SCRATCH_XMM_A);
            match rmx_of_spec(c, b, src, width, SCRATCH_XMM_A) {
                Ok((b, from)) => {
                    let b = if from != RmX::Reg(SCRATCH_XMM_A) {
                        b.emit(Op::MovFLoad { width, dst: SCRATCH_XMM_A, src: from })
                    } else {
                        b
                    };
                    let b = b.emit(
                        Op::XorF { width, dst: SCRATCH_XMM_A, src: RmX::Reg(SCRATCH_XMM_B) },
                    );
                    lemma_kept_define_xmm(c, b, dst, width, SCRATCH_XMM_A);
                },
                Err(_) => {},
            }
        },
        Err(_) => {},
    }
}

proof fn lemma_kept_emit_cmp_f(c: Ctx, b: Bound, width: FWidth, lhs: XmmSrc, rhs: XmmSrc)
    ensures
        kept(c, b, emit_cmp_f_spec(c, b, width, lhs, rhs)),
{
    reveal(emit_cmp_f_spec);
    lemma_kept_rmx_of(c, b, lhs, width, SCRATCH_XMM_A);
    match rmx_of_spec(c, b, lhs, width, SCRATCH_XMM_A) {
        Ok((b, l)) => {
            lemma_kept_rmx_of(c, b, rhs, width, SCRATCH_XMM_B);
        },
        Err(_) => {},
    }
}

proof fn lemma_kept_place_int(c: Ctx, b: Bound, dst: Place, width: Width, g: Gpr)
    ensures
        kept(c, b, place_int_spec(c, b, dst, width, g)),
{
    match dst {
        Place::Val(t) => {
            lemma_kept_define_temp_reg(c, b, t.0, g);
        },
        Place::Reg(to) => {
            lemma_kept_run_moves(c, b, Request::Clobber(to.phys()));
        },
    }
}

pub proof fn lemma_kept_setcc_f_into(c: Ctx, b: Bound, op: BinaryOp)
    ensures
        kept(c, b, setcc_f_into_spec(c, b, op)),
{
    match float_recipe(op) {
        None => {
        },
        Some(recipe) => {
            lemma_kept_scratch(c, b, Exclude::Nothing);
            match scratch_spec(c, b, Exclude::Nothing) {
                Ok((b, ga)) => {
                    let b = b.emit(
                        Op::Mov { width: Width::W32, dst: Rm::Reg(ga), src: Rmi::Imm(0) },
                    );
                    let b = b.emit(Op::Setcc { cc: recipe.first, dst: ga });
                    match recipe.second {
                        Second::Nothing => {
                        },
                        Second::And(cc) => {
                            lemma_kept_scratch(c, b, Exclude::One(ga.phys()));
                        },
                        Second::Or(cc) => {
                            lemma_kept_scratch(c, b, Exclude::One(ga.phys()));
                        },
                    }
                },
                Err(_) => {},
            }
        },
    }
}

proof fn lemma_kept_emit_setcc_f(c: Ctx, b: Bound, op: BinaryOp, dst: Place)
    ensures
        kept(c, b, emit_setcc_f_spec(c, b, op, dst)),
{
    reveal(emit_setcc_f_spec);
    lemma_kept_setcc_f_into(c, b, op);
    match setcc_f_into_spec(c, b, op) {
        Ok((b, g)) => {
            lemma_kept_place_int(c, b, dst, Width::W32, g);
        },
        Err(_) => {},
    }
}

proof fn lemma_kept_emit_jcc_f(c: Ctx, b: Bound, op: BinaryOp, target: Label)
    ensures
        kept(c, b, emit_jcc_f_spec(c, b, op, target)),
{
    reveal(emit_jcc_f_spec);
    match op {
        BinaryOp::Ne | BinaryOp::UGt | BinaryOp::UGe => {
        },
        BinaryOp::Eq | BinaryOp::Lt | BinaryOp::Le => {
        },
        BinaryOp::Gt | BinaryOp::Ge | BinaryOp::ULt | BinaryOp::ULe => {
        },
        _ => {
        },
    }
}

proof fn lemma_kept_emit_cvt_int_to_f(
    c: Ctx,
    b: Bound,
    width: FWidth,
    src_w64: bool,
    dst: XmmPlace,
    src: Src,
)
    ensures
        kept(c, b, emit_cvt_int_to_f_spec(c, b, width, src_w64, dst, src)),
{
    reveal(emit_cvt_int_to_f_spec);
    lemma_kept_rm_of(c, b, src, width_if(src_w64), Exclude::Nothing);
    match rm_of_spec(c, b, src, width_if(src_w64), Exclude::Nothing) {
        Ok((b, rm)) => {
            let b = b.emit(Op::Cvtsi2s { width, dst: SCRATCH_XMM_A, src: rm, src_w64 });
            lemma_kept_define_xmm(c, b, dst, width, SCRATCH_XMM_A);
        },
        Err(_) => {},
    }
}

proof fn lemma_kept_emit_cvt_f_to_int(
    c: Ctx,
    b: Bound,
    src_width: FWidth,
    dst_w64: bool,
    dst: Place,
    src: XmmSrc,
)
    ensures
        kept(c, b, emit_cvt_f_to_int_spec(c, b, src_width, dst_w64, dst, src)),
{
    reveal(emit_cvt_f_to_int_spec);
    lemma_kept_rmx_of(c, b, src, src_width, SCRATCH_XMM_A);
    match rmx_of_spec(c, b, src, src_width, SCRATCH_XMM_A) {
        Ok((b, from)) => {
            lemma_kept_scratch(c, b, Exclude::Nothing);
            match scratch_spec(c, b, Exclude::Nothing) {
                Ok((b, g)) => {
                    let b = b.emit(Op::Cvtts2si { width: src_width, dst: g, src: from, dst_w64 });
                    lemma_kept_place_int(c, b, dst, Width::W64, g);
                },
                Err(_) => {},
            }
        },
        Err(_) => {},
    }
}

proof fn lemma_kept_emit_cvt_f_to_f(c: Ctx, b: Bound, to: FWidth, dst: XmmPlace, src: XmmSrc)
    ensures
        kept(c, b, emit_cvt_f_to_f_spec(c, b, to, dst, src)),
{
    reveal(emit_cvt_f_to_f_spec);
    lemma_kept_rmx_of(c, b, src, other_fwidth(to), SCRATCH_XMM_A);
    match rmx_of_spec(c, b, src, other_fwidth(to), SCRATCH_XMM_A) {
        Ok((b, from)) => {
            let b = b.emit(Op::Cvts2s { to, dst: SCRATCH_XMM_A, src: from });
            lemma_kept_define_xmm(c, b, dst, to, SCRATCH_XMM_A);
        },
        Err(_) => {},
    }
}

proof fn lemma_kept_emit_store_to_local(c: Ctx, b: Bound, id: LocalId, width: Width, src: Src)
    ensures
        kept(c, b, emit_store_to_local_spec(c, b, id, width, src)),
{
    reveal(emit_store_to_local_spec);
    lemma_kept_run_moves(c, b, Request::BeforeLocalWrite(id));
    match run_moves_spec(c, b, Request::BeforeLocalWrite(id)) {
        Ok((b, _)) => {
            match slot_of_spec(c, b, id) {
                Ok((b, slot)) => {
                    lemma_kept_wide_imm(c, b, width, src, Exclude::Nothing);
                    match wide_imm_spec(c, b, width, src, Exclude::Nothing) {
                        Ok((b, rmi)) => {
                            match rmi {
                                Rmi::Reg(g) => {
                                },
                                Rmi::Imm(i) => {
                                },
                                Rmi::Mem(m) => {
                                    if m == slot_mem(slot) {
                                    } else {
                                        lemma_kept_scratch(c, b, Exclude::Nothing);
                                    }
                                },
                            }
                        },
                        Err(_) => {},
                    }
                },
                Err(_) => {},
            }
        },
        Err(_) => {},
    }
}

proof fn lemma_kept_define_gc_temp(c: Ctx, b: Bound, id: LocalId, width: Width, src: Src)
    ensures
        kept(c, b, define_gc_temp_spec(c, b, id, width, src)),
{
    match slot_of_spec(c, b, id) {
        Ok((b, slot)) => {
            lemma_kept_wide_imm(c, b, width, src, Exclude::Nothing);
            match wide_imm_spec(c, b, width, src, Exclude::Nothing) {
                Ok((b, rmi)) => {
                    match rmi {
                        Rmi::Reg(g) => {
                            let b = b.emit(
                                Op::Mov { width, dst: Rm::Mem(slot_mem(slot)), src: Rmi::Reg(g) },
                            );
                            lemma_kept_run_moves(c, b, Request::Define(id, Loc::Mem(slot)));
                        },
                        Rmi::Imm(i) => {
                            let b = b.emit(
                                Op::Mov { width, dst: Rm::Mem(slot_mem(slot)), src: Rmi::Imm(i) },
                            );
                            lemma_kept_run_moves(c, b, Request::Define(id, Loc::Mem(slot)));
                        },
                        Rmi::Mem(m) => {
                            if m == slot_mem(slot) {
                                lemma_kept_run_moves(c, b, Request::Define(id, Loc::Mem(slot)));
                            } else {
                                lemma_kept_scratch(c, b, Exclude::Nothing);
                                match scratch_spec(c, b, Exclude::Nothing) {
                                    Ok((b, g)) => {
                                        let b = b.emit(
                                            Op::Mov { width, dst: Rm::Reg(g), src: Rmi::Mem(m) },
                                        );
                                        let b = b.emit(
                                            Op::Mov {
                                                width,
                                                dst: Rm::Mem(slot_mem(slot)),
                                                src: Rmi::Reg(g),
                                            },
                                        );
                                        lemma_kept_run_moves(
                                            c,
                                            b,
                                            Request::Define(id, Loc::Mem(slot)),
                                        );
                                    },
                                    Err(_) => {},
                                }
                            }
                        },
                    }
                },
                Err(_) => {},
            }
        },
        Err(_) => {},
    }
}

proof fn lemma_kept_emit_define_temp(c: Ctx, b: Bound, id: LocalId, width: Width, src: Src)
    ensures
        kept(c, b, emit_define_temp_spec(c, b, id, width, src)),
{
    reveal(emit_define_temp_spec);
    match ty_of_spec(c, b, id) {
        Ok((b, ty)) => {
            if is_gc(ty) {
                lemma_kept_define_gc_temp(c, b, id, width, src);
            } else {
                match src {
                    Src::Imm(i) => {
                        lemma_kept_run_moves(c, b, Request::Define(id, Loc::Const(i)));
                    },
                    Src::Reg(g) => {
                        lemma_kept_define_temp_reg(c, b, id, g);
                    },
                    Src::Val(v) => {
                        match is_fixed_spec(c, b, v.0) {
                            Ok((b, fixed)) => {
                                if fixed {
                                    lemma_kept_run_moves(
                                        c,
                                        b,
                                        Request::Define(id, Loc::Local(v.0)),
                                    );
                                } else {
                                    lemma_kept_read(c, b, v.0);
                                    match read_spec(c, b, v.0) {
                                        Ok((b, source)) => {
                                            match source {
                                                ReadSrc::Slot(offset) => {
                                                    lemma_kept_run_moves(
                                                        c,
                                                        b,
                                                        Request::Define(id, Loc::Mem(offset)),
                                                    );
                                                },
                                                ReadSrc::Imm(i) => {
                                                    lemma_kept_run_moves(
                                                        c,
                                                        b,
                                                        Request::Define(id, Loc::Const(i)),
                                                    );
                                                },
                                                ReadSrc::Reg(p) => {
                                                    lemma_kept_scratch(c, b, Exclude::One(p));
                                                    match scratch_spec(c, b, Exclude::One(p)) {
                                                        Ok((b, d)) => {
                                                            match gpr_spec(c, b, p) {
                                                                Ok((b, g)) => {
                                                                    let b = b.emit(
                                                                        Op::Mov {
                                                                            width,
                                                                            dst: Rm::Reg(d),
                                                                            src: Rmi::Reg(g),
                                                                        },
                                                                    );
                                                                    lemma_kept_define_temp_reg(
                                                                        c,
                                                                        b,
                                                                        id,
                                                                        d,
                                                                    );
                                                                },
                                                                Err(_) => {},
                                                            }
                                                        },
                                                        Err(_) => {},
                                                    }
                                                },
                                            }
                                        },
                                        Err(_) => {},
                                    }
                                }
                            },
                            Err(_) => {},
                        }
                    },
                }
            }
        },
        Err(_) => {},
    }
}

proof fn lemma_kept_emit_mov(c: Ctx, b: Bound, width: Width, dst: Place, src: Src)
    ensures
        kept(c, b, emit_mov_spec(c, b, width, dst, src)),
{
    reveal(emit_mov_spec);
    match dst {
        Place::Reg(g) => {
            lemma_kept_run_moves(c, b, Request::Clobber(g.phys()));
            match run_moves_spec(c, b, Request::Clobber(g.phys())) {
                Ok((b, _)) => {
                    lemma_kept_rmi_of(c, b, src);
                },
                Err(_) => {},
            }
        },
        Place::Val(v) => {
            match is_fixed_spec(c, b, v.0) {
                Ok((b, fixed)) => {
                    if fixed {
                        lemma_kept_emit_store_to_local(c, b, v.0, width, src);
                    } else {
                        lemma_kept_emit_define_temp(c, b, v.0, width, src);
                    }
                },
                Err(_) => {},
            }
        },
    }
}

proof fn lemma_kept_emit_lea(c: Ctx, b: Bound, dst: Place, addr: Amode)
    ensures
        kept(c, b, emit_lea_spec(c, b, dst, addr)),
{
    reveal(emit_lea_spec);
    match slot_of_spec(c, b, frame_slot(addr)) {
        Ok((b, offset)) => {
            match dst {
                Place::Val(t) => {
                    lemma_kept_scratch(c, b, Exclude::Nothing);
                    match scratch_spec(c, b, Exclude::Nothing) {
                        Ok((b, g)) => {
                            let b = b.emit(Op::Lea { dst: g, addr: slot_mem(offset) });
                            match is_fixed_spec(c, b, t.0) {
                                Ok((b, fixed)) => {
                                    if fixed {
                                        lemma_kept_emit_store_to_local(
                                            c,
                                            b,
                                            t.0,
                                            Width::W64,
                                            Src::Reg(g),
                                        );
                                    } else {
                                        lemma_kept_define_temp_reg(c, b, t.0, g);
                                    }
                                },
                                Err(_) => {},
                            }
                        },
                        Err(_) => {},
                    }
                },
                Place::Reg(g) => {
                    lemma_kept_run_moves(c, b, Request::Clobber(g.phys()));
                },
            }
        },
        Err(_) => {},
    }
}

pub proof fn lemma_kept_shift_into(c: Ctx, b: Bound, op: ShiftOp, width: Width, lhs: Src, rhs: Src)
    ensures
        kept(c, b, shift_into_spec(c, b, op, width, lhs, rhs)),
{
    lemma_kept_scratch(c, b, Exclude::One(Gpr::Rcx.phys()));
    match scratch_spec(c, b, Exclude::One(Gpr::Rcx.phys())) {
        Ok((b, d)) => {
            lemma_kept_rmi_of(c, b, lhs);
            match rmi_of_spec(c, b, lhs) {
                Ok((b, l)) => {
                    let b = b.emit(Op::Mov { width, dst: Rm::Reg(d), src: l });
                    match rhs {
                        Src::Imm(count) => {
                        },
                        _ => {
                            lemma_kept_run_moves(c, b, Request::Clobber(Gpr::Rcx.phys()));
                            match run_moves_spec(c, b, Request::Clobber(Gpr::Rcx.phys())) {
                                Ok((b, _)) => {
                                    lemma_kept_rmi_of(c, b, rhs);
                                },
                                Err(_) => {},
                            }
                        },
                    }
                },
                Err(_) => {},
            }
        },
        Err(_) => {},
    }
}

proof fn lemma_kept_emit_shift(
    c: Ctx,
    b: Bound,
    op: ShiftOp,
    width: Width,
    dst: Place,
    lhs: Src,
    rhs: Src,
)
    ensures
        kept(c, b, emit_shift_spec(c, b, op, width, dst, lhs, rhs)),
{
    reveal(emit_shift_spec);
    match dst {
        Place::Reg(_) => {
        },
        Place::Val(t) => {
            lemma_kept_shift_into(c, b, op, width, lhs, rhs);
            match shift_into_spec(c, b, op, width, lhs, rhs) {
                Ok((b, d)) => {
                    lemma_kept_define_temp_reg(c, b, t.0, d);
                },
                Err(_) => {},
            }
        },
    }
}

pub proof fn lemma_kept_unary_into(c: Ctx, b: Bound, op: UnaryOp, width: Width, src: Src)
    ensures
        kept(c, b, unary_into_spec(c, b, op, width, src)),
{
    lemma_kept_scratch(c, b, Exclude::Nothing);
    match scratch_spec(c, b, Exclude::Nothing) {
        Ok((b, d)) => {
            lemma_kept_rmi_of(c, b, src);
        },
        Err(_) => {},
    }
}

proof fn lemma_kept_emit_unary(c: Ctx, b: Bound, op: UnaryOp, width: Width, dst: Place, src: Src)
    ensures
        kept(c, b, emit_unary_spec(c, b, op, width, dst, src)),
{
    reveal(emit_unary_spec);
    match dst {
        Place::Reg(_) => {
        },
        Place::Val(t) => {
            lemma_kept_unary_into(c, b, op, width, src);
            match unary_into_spec(c, b, op, width, src) {
                Ok((b, d)) => {
                    lemma_kept_define_temp_reg(c, b, t.0, d);
                },
                Err(_) => {},
            }
        },
    }
}

proof fn lemma_kept_emit_setcc(c: Ctx, b: Bound, cc: CondCode, dst: Place)
    ensures
        kept(c, b, emit_setcc_spec(c, b, cc, dst)),
{
    reveal(emit_setcc_spec);
    match dst {
        Place::Val(t) => {
            lemma_kept_scratch(c, b, Exclude::Nothing);
            match scratch_spec(c, b, Exclude::Nothing) {
                Ok((b, g)) => {
                    let b = b.emit(
                        Op::Mov { width: Width::W32, dst: Rm::Reg(g), src: Rmi::Imm(0) },
                    );
                    let b = b.emit(Op::Setcc { cc, dst: g });
                    lemma_kept_define_temp_reg(c, b, t.0, g);
                },
                Err(_) => {},
            }
        },
        Place::Reg(g) => {
            lemma_kept_run_moves(c, b, Request::Clobber(g.phys()));
        },
    }
}

pub proof fn lemma_kept_ext_into(c: Ctx, b: Bound, g: Gpr, src: Src, signed: bool)
    ensures
        kept(c, b, ext_into_spec(c, b, g, src, signed)),
{
    if signed {
        lemma_kept_rm_of(c, b, src, Width::W32, Exclude::One(g.phys()));
    } else {
        lemma_kept_rmi_of(c, b, src);
    }
}

proof fn lemma_kept_emit_movext(c: Ctx, b: Bound, dst: Place, src: Src, signed: bool)
    ensures
        kept(c, b, emit_movext_spec(c, b, dst, src, signed)),
{
    reveal(emit_movext_spec);
    match dst {
        Place::Val(t) => {
            lemma_kept_scratch(c, b, Exclude::Nothing);
            match scratch_spec(c, b, Exclude::Nothing) {
                Ok((b, g)) => {
                    lemma_kept_ext_into(c, b, g, src, signed);
                    match ext_into_spec(c, b, g, src, signed) {
                        Ok((b, _)) => {
                            lemma_kept_define_temp_reg(c, b, t.0, g);
                        },
                        Err(_) => {},
                    }
                },
                Err(_) => {},
            }
        },
        Place::Reg(g) => {
            lemma_kept_run_moves(c, b, Request::Clobber(g.phys()));
            match run_moves_spec(c, b, Request::Clobber(g.phys())) {
                Ok((b, _)) => {
                    lemma_kept_ext_into(c, b, g, src, signed);
                },
                Err(_) => {},
            }
        },
    }
}

#[verifier::rlimit(40)]
pub proof fn lemma_kept_arith_into(c: Ctx, b: Bound, op: ArithOp, width: Width, lhs: Src, rhs: Src)
    ensures
        kept(c, b, arith_into_spec(c, b, op, width, lhs, rhs)),
{
    lemma_kept_scratch(c, b, Exclude::Nothing);
    match scratch_spec(c, b, Exclude::Nothing) {
        Ok((b, d)) => {
            if op == ArithOp::Imul && is_small_imm(rhs) {
                lemma_kept_rm_of(c, b, lhs, width, Exclude::One(d.phys()));
            } else {
                lemma_kept_rmi_of(c, b, lhs);
                match rmi_of_spec(c, b, lhs) {
                    Ok((b, l)) => {
                        let b = b.emit(Op::Mov { width, dst: Rm::Reg(d), src: l });
                        match alu_of(op) {
                            Some(alu) => {
                                lemma_kept_wide_imm(c, b, width, rhs, Exclude::One(d.phys()));
                            },
                            None => {
                                lemma_kept_rm_of(c, b, rhs, width, Exclude::One(d.phys()));
                            },
                        }
                    },
                    Err(_) => {},
                }
            }
        },
        Err(_) => {},
    }
}

proof fn lemma_kept_emit_arith(
    c: Ctx,
    b: Bound,
    op: ArithOp,
    width: Width,
    dst: Place,
    lhs: Src,
    rhs: Src,
)
    ensures
        kept(c, b, emit_arith_spec(c, b, op, width, dst, lhs, rhs)),
{
    reveal(emit_arith_spec);
    match dst {
        Place::Reg(_) => {
        },
        Place::Val(t) => {
            lemma_kept_arith_into(c, b, op, width, lhs, rhs);
            match arith_into_spec(c, b, op, width, lhs, rhs) {
                Ok((b, d)) => {
                    lemma_kept_define_temp_reg(c, b, t.0, d);
                },
                Err(_) => {},
            }
        },
    }
}

#[verifier::rlimit(40)]
proof fn lemma_kept_emit_cmp(c: Ctx, b: Bound, width: Width, lhs: Src, rhs: Src)
    ensures
        kept(c, b, emit_cmp_spec(c, b, width, lhs, rhs)),
{
    reveal(emit_cmp_spec);
    lemma_kept_wide_imm(c, b, width, rhs, Exclude::Nothing);
    match wide_imm_spec(c, b, width, rhs, Exclude::Nothing) {
        Ok((b, r)) => {
            lemma_kept_rmi_of(c, b, lhs);
            match rmi_of_spec(c, b, lhs) {
                Ok((b, l)) => {
                    match l {
                        Rmi::Reg(g) => {
                        },
                        Rmi::Mem(m) => {
                            match r {
                                Rmi::Mem(_) => {
                                    lemma_kept_scratch(c, b, Exclude::Nothing);
                                },
                                _ => {
                                },
                            }
                        },
                        Rmi::Imm(_) => {
                            lemma_kept_scratch(c, b, exclude_reg(r));
                        },
                    }
                },
                Err(_) => {},
            }
        },
        Err(_) => {},
    }
}

proof fn lemma_kept_emit_divide(c: Ctx, b: Bound, width: Width, divisor: Src, signed: bool)
    ensures
        kept(c, b, emit_divide_spec(c, b, width, divisor, signed)),
{
    reveal(emit_divide_spec);
    lemma_kept_run_moves(c, b, Request::Clobber(Gpr::Rax.phys()));
    match run_moves_spec(c, b, Request::Clobber(Gpr::Rax.phys())) {
        Ok((b, _)) => {
            lemma_kept_run_moves(c, b, Request::Clobber(Gpr::Rdx.phys()));
            match run_moves_spec(c, b, Request::Clobber(Gpr::Rdx.phys())) {
                Ok((b, _)) => {
                    lemma_kept_rm_of(
                        c,
                        b,
                        divisor,
                        width,
                        Exclude::Two(Gpr::Rax.phys(), Gpr::Rdx.phys()),
                    );
                },
                Err(_) => {},
            }
        },
        Err(_) => {},
    }
}

proof fn lemma_kept_emit_call_lookup(
    c: Ctx,
    b: Bound,
    method: Option<MethodHandle>,
    addr: Option<u64>,
    slot: Option<u64>,
)
    ensures
        kept(c, b, emit_call_lookup_spec(c, b, method, addr, slot)),
{
    reveal(emit_call_lookup_spec);
    lemma_kept_run_moves(c, b, Request::SpillRegisters);
}

proof fn lemma_kept_emit_call(c: Ctx, b: Bound, method: MethodHandle)
    ensures
        kept(c, b, emit_call_spec(c, b, method)),
{
    reveal(emit_call_spec);
    lemma_kept_lookup(c, b, Request::EntryPoint(method));
    match lookup_spec(c, b, Request::EntryPoint(method)) {
        Ok((b, target)) => {
            lemma_kept_emit_call_lookup(c, b, Some(method), target.addr, target.slot);
        },
        Err(_) => {},
    }
}

proof fn lemma_kept_emit_helper_call(c: Ctx, b: Bound, id: CorInfoHelpFunc)
    ensures
        kept(c, b, emit_helper_call_spec(c, b, id)),
{
    reveal(emit_helper_call_spec);
    lemma_kept_lookup(c, b, Request::HelperEntry(id));
    match lookup_spec(c, b, Request::HelperEntry(id)) {
        Ok((b, target)) => {
            lemma_kept_emit_call_lookup(c, b, None, target.addr, target.slot);
        },
        Err(_) => {},
    }
}

proof fn lemma_kept_emit_float_inst(c: Ctx, b: Bound, inst: Inst)
    ensures
        kept(c, b, emit_float_inst_spec(c, b, inst)),
{
    reveal(emit_float_inst_spec);
    match inst {
        Inst::ConstF { width, dst, bits } => {
            lemma_kept_emit_const_f(c, b, width, dst, bits);
        },
        Inst::MovF { width, dst, src } => {
            lemma_kept_emit_mov_f(c, b, width, dst, src);
        },
        Inst::ArithF { op, width, dst, lhs, rhs } => {
            lemma_kept_emit_arith_f(c, b, op, width, dst, lhs, rhs);
        },
        Inst::NegF { width, dst, src } => {
            lemma_kept_emit_neg_f(c, b, width, dst, src);
        },
        Inst::CmpF { width, lhs, rhs } => {
            lemma_kept_emit_cmp_f(c, b, width, lhs, rhs);
        },
        Inst::SetccF { op, dst } => {
            lemma_kept_emit_setcc_f(c, b, op, dst);
        },
        Inst::JccF { op, target } => {
            lemma_kept_emit_jcc_f(c, b, op, target);
        },
        Inst::CvtIntToF { width, src_w64, dst, src } => {
            lemma_kept_emit_cvt_int_to_f(c, b, width, src_w64, dst, src);
        },
        Inst::CvtFToInt { src_width, dst_w64, dst, src } => {
            lemma_kept_emit_cvt_f_to_int(c, b, src_width, dst_w64, dst, src);
        },
        Inst::CvtFToF { to, dst, src } => {
            lemma_kept_emit_cvt_f_to_f(c, b, to, dst, src);
        },
        _ => {
        },
    }
}

proof fn lemma_kept_emit_plain_inst(c: Ctx, b: Bound, inst: Inst)
    ensures
        kept(c, b, emit_plain_inst_spec(c, b, inst)),
{
    reveal(emit_plain_inst_spec);
    match inst {
        Inst::Cdq { width } => {
            lemma_kept_run_moves(c, b, Request::Clobber(Gpr::Rdx.phys()));
        },
        Inst::Jcc { cc, target } => {
        },
        Inst::Jmp { target } => {
        },
        Inst::Push { reg } => {
        },
        Inst::AllocFrame => {
        },
        Inst::Leave => {
        },
        Inst::Ret => {
        },
        _ => {
        },
    }
}

proof fn lemma_kept_emit_inst(c: Ctx, b: Bound, inst: Inst)
    ensures
        kept(c, b, emit_inst_spec(c, b, inst)),
{
    match inst {
        Inst::Mov { width, dst, src } => {
            lemma_kept_emit_mov(c, b, width, dst, src);
        },
        Inst::Lea { dst, addr } => {
            lemma_kept_emit_lea(c, b, dst, addr);
        },
        Inst::Arith { op, width, dst, lhs, rhs } => {
            lemma_kept_emit_arith(c, b, op, width, dst, lhs, rhs);
        },
        Inst::Idiv { width, divisor } => {
            lemma_kept_emit_divide(c, b, width, divisor, true);
        },
        Inst::Div { width, divisor } => {
            lemma_kept_emit_divide(c, b, width, divisor, false);
        },
        Inst::Shift { op, width, dst, lhs, rhs } => {
            lemma_kept_emit_shift(c, b, op, width, dst, lhs, rhs);
        },
        Inst::Unary { op, width, dst, src } => {
            lemma_kept_emit_unary(c, b, op, width, dst, src);
        },
        Inst::Setcc { cc, dst } => {
            lemma_kept_emit_setcc(c, b, cc, dst);
        },
        Inst::MovExt { dst, src, signed } => {
            lemma_kept_emit_movext(c, b, dst, src, signed);
        },
        Inst::Cmp { width, lhs, rhs } => {
            lemma_kept_emit_cmp(c, b, width, lhs, rhs);
        },
        Inst::CallDirect { method } => {
            lemma_kept_emit_call(c, b, method);
        },
        Inst::CallHelper { id } => {
            lemma_kept_emit_helper_call(c, b, id);
        },
        Inst::ConstF { .. }
        | Inst::MovF { .. }
        | Inst::ArithF { .. }
        | Inst::NegF { .. }
        | Inst::CmpF { .. }
        | Inst::SetccF { .. }
        | Inst::JccF { .. }
        | Inst::CvtIntToF { .. }
        | Inst::CvtFToInt { .. }
        | Inst::CvtFToF { .. } => {
            lemma_kept_emit_float_inst(c, b, inst);
        },
        Inst::Cdq { .. }
        | Inst::Jcc { .. }
        | Inst::Jmp { .. }
        | Inst::Push { .. }
        | Inst::AllocFrame
        | Inst::Leave
        | Inst::Ret => {
            lemma_kept_emit_plain_inst(c, b, inst);
        },
        _ => {
        },
    }
}

/// Binding a descriptor adds to what was emitted. Where it asks to note the place
/// of a temporary that holds a GC pointer, that place is the temporary's own slot,
/// and the pointer is there: the instruction before the request stored it, or it was
/// read from there. So the collector finds every pointer in the frame.
pub proof fn law_gc_pointers_are_in_the_frame(c: Ctx, b: Bound, inst: Inst)
    ensures
        kept(c, b, emit_inst_spec(c, b, inst)),
{
    lemma_kept_emit_inst(c, b, inst);
}

/// A float went to the slot of the local, and is recorded there: a fixed local is
/// stored last, and for another the store stands right before the note of its place,
/// which is the last request.
pub open spec fn float_in_its_slot(c: Ctx, b: Bound, id: LocalId, after: Bound) -> bool {
    &&& id.0 < c.slots.len()
    &&& {
        let slot = c.slots[id.0 as int];
        if (id.0 as u64) < c.num_frame_fixed {
            b.ops.len() < after.ops.len() && stores_to(after.ops.last(), slot_mem(slot))
        } else {
            let asked = after.asked.last();
            &&& b.asked.len() < after.asked.len()
            &&& asked.request == Request::Define(id, Loc::Mem(slot))
            &&& b.ops.len() < asked.emitted <= after.ops.len()
            &&& stores_to(after.ops[asked.emitted - 1], slot_mem(slot))
        }
    }
}

/// The moves that a request brings leave the store before it in place, and the
/// request is the last one.
pub proof fn lemma_noted(c: Ctx, b: Bound, request: Request)
    ensures
        match run_moves_spec(c, b, request) {
            Ok((after, _)) => {
                &&& extends(b, after)
                &&& after.asked == b.asked.push(Asked { request, emitted: b.ops.len() })
            },
            Err(_) => true,
        },
{
    if b.next < c.replies.len() {
        if let Reply::Moves(moves) = c.replies[b.next as int] {
            lemma_kept_apply(b.used(request), moves@, moves@.len());
        }
    }
}

/// A float result goes from its register to the slot of its local.
pub proof fn law_float_results_are_in_the_frame(
    c: Ctx,
    b: Bound,
    v: Val,
    width: FWidth,
    src: Xmm,
)
    ensures
        match define_xmm_spec(c, b, XmmPlace::Val(v), width, src) {
            Ok((after, _)) => float_in_its_slot(c, b, v.0, after),
            Err(_) => true,
        },
{
    lemma_noted(c, b, Request::BeforeLocalWrite(v.0));
    if v.0.0 < c.slots.len() {
        let slot = c.slots[v.0.0 as int];
        let stored = b.emit(Op::MovFStore { width, dst: slot_mem(slot), src });
        lemma_noted(c, stored, Request::Define(v.0, Loc::Mem(slot)));
    }
}

/// A float constant goes to the slot of its local.
pub proof fn law_float_constants_are_in_the_frame(
    c: Ctx,
    b: Bound,
    width: FWidth,
    v: Val,
    bits: u64,
)
    ensures
        match emit_const_f_spec(c, b, width, XmmPlace::Val(v), bits) {
            Ok((after, _)) => float_in_its_slot(c, b, v.0, after),
            Err(_) => true,
        },
{
    reveal(emit_const_f_spec);
    if v.0.0 < c.slots.len() {
        let fixed = (v.0.0 as u64) < c.num_frame_fixed;
        let slot = c.slots[v.0.0 as int];
        let note = Request::Define(v.0, Loc::Mem(slot));
        let dst = Rm::Mem(slot_mem(slot));
        let request = Request::BeforeLocalWrite(v.0);
        lemma_noted(c, b, request);
        let start = if fixed {
            bound_at(run_moves_spec(c, b, request))
        } else {
            b
        };
        lemma_noted(
            c,
            start.emit(Op::Mov { width: Width::W32, dst, src: Rmi::Imm(bits_imm(bits)) }),
            note,
        );
        lemma_kept_scratch(c, start, Exclude::Nothing);
        if let Ok((taken, g)) = scratch_spec(c, start, Exclude::Nothing) {
            let loaded = taken.emit(
                Op::Mov { width: Width::W64, dst: Rm::Reg(g), src: Rmi::Imm(bits_imm(bits)) },
            );
            lemma_noted(
                c,
                loaded.emit(Op::Mov { width: Width::W64, dst, src: Rmi::Reg(g) }),
                note,
            );
        }
    }
}

/// A copied float goes to the slot of its local. Where it is there already, nothing
/// is emitted and nothing changes.
pub proof fn law_float_copies_are_in_the_frame(
    c: Ctx,
    b: Bound,
    width: FWidth,
    v: Val,
    src: XmmSrc,
)
    ensures
        match emit_mov_f_spec(c, b, width, XmmPlace::Val(v), src) {
            Ok((after, _)) => {
                let (found, from) = rmx_of_spec(c, b, src, width, SCRATCH_XMM_A)->Ok_0;
                if from == RmX::Mem(slot_mem(c.slots[v.0.0 as int])) {
                    after == found
                } else {
                    float_in_its_slot(c, b, v.0, after)
                }
            },
            Err(_) => true,
        },
{
    reveal(emit_mov_f_spec);
    lemma_kept_rmx_of(c, b, src, width, SCRATCH_XMM_A);
    if let Ok((found, from)) = rmx_of_spec(c, b, src, width, SCRATCH_XMM_A) {
        match from {
            RmX::Reg(x) => law_float_results_are_in_the_frame(c, found, v, width, x),
            RmX::Mem(m) => {
                let loaded = found.emit(
                    Op::MovFLoad { width, dst: SCRATCH_XMM_A, src: RmX::Mem(m) },
                );
                law_float_results_are_in_the_frame(c, loaded, v, width, SCRATCH_XMM_A);
            },
        }
    }
}

/// The local that a float operation computes.
pub open spec fn float_result(inst: Inst) -> Option<Val> {
    let dst = match inst {
        Inst::ArithF { dst, .. } => Some(dst),
        Inst::NegF { dst, .. } => Some(dst),
        Inst::CvtIntToF { dst, .. } => Some(dst),
        Inst::CvtFToF { dst, .. } => Some(dst),
        _ => None,
    };
    match dst {
        Some(XmmPlace::Val(v)) => Some(v),
        _ => None,
    }
}

/// What a float operation or a conversion to a float computes goes to the slot of
/// its local.
pub proof fn law_float_operations_are_in_the_frame(c: Ctx, b: Bound, inst: Inst, v: Val)
    requires
        float_result(inst) == Some(v),
    ensures
        match emit_inst_spec(c, b, inst) {
            Ok((after, _)) => float_in_its_slot(c, b, v.0, after),
            Err(_) => true,
        },
{
    reveal(emit_float_inst_spec);
    match inst {
        Inst::ArithF { op, width, dst, lhs, rhs } => {
            reveal(emit_arith_f_spec);
            lemma_kept_rmx_of(c, b, lhs, width, SCRATCH_XMM_A);
            if let Ok((left, l)) = rmx_of_spec(c, b, lhs, width, SCRATCH_XMM_A) {
                lemma_kept_rmx_of(c, left, rhs, width, SCRATCH_XMM_B);
                if let Ok((right, r)) = rmx_of_spec(c, left, rhs, width, SCRATCH_XMM_B) {
                    let loaded = if l != RmX::Reg(SCRATCH_XMM_A) {
                        right.emit(Op::MovFLoad { width, dst: SCRATCH_XMM_A, src: l })
                    } else {
                        right
                    };
                    let done = loaded.emit(Op::ArithF { op, width, dst: SCRATCH_XMM_A, src: r });
                    law_float_results_are_in_the_frame(c, done, v, width, SCRATCH_XMM_A);
                }
            }
        },
        Inst::NegF { width, dst, src } => {
            reveal(emit_neg_f_spec);
            let mask = sign_mask(width);
            let masked = materialize_bits_spec(c, b, SCRATCH_XMM_B, width, mask);
            lemma_kept_materialize_bits(c, b, SCRATCH_XMM_B, width, mask);
            if let Ok((masked, _)) = masked {
                lemma_kept_rmx_of(c, masked, src, width, SCRATCH_XMM_A);
                if let Ok((found, from)) = rmx_of_spec(c, masked, src, width, SCRATCH_XMM_A) {
                    let loaded = if from != RmX::Reg(SCRATCH_XMM_A) {
                        found.emit(Op::MovFLoad { width, dst: SCRATCH_XMM_A, src: from })
                    } else {
                        found
                    };
                    let done = loaded.emit(
                        Op::XorF { width, dst: SCRATCH_XMM_A, src: RmX::Reg(SCRATCH_XMM_B) },
                    );
                    law_float_results_are_in_the_frame(c, done, v, width, SCRATCH_XMM_A);
                }
            }
        },
        Inst::CvtIntToF { width, src_w64, dst, src } => {
            reveal(emit_cvt_int_to_f_spec);
            let wide = width_if(src_w64);
            lemma_kept_rm_of(c, b, src, wide, Exclude::Nothing);
            if let Ok((found, from)) = rm_of_spec(c, b, src, wide, Exclude::Nothing) {
                let done = found.emit(
                    Op::Cvtsi2s { width, dst: SCRATCH_XMM_A, src: from, src_w64 },
                );
                law_float_results_are_in_the_frame(c, done, v, width, SCRATCH_XMM_A);
            }
        },
        Inst::CvtFToF { to, dst, src } => {
            reveal(emit_cvt_f_to_f_spec);
            let from_width = other_fwidth(to);
            lemma_kept_rmx_of(c, b, src, from_width, SCRATCH_XMM_A);
            if let Ok((found, from)) = rmx_of_spec(c, b, src, from_width, SCRATCH_XMM_A) {
                let done = found.emit(Op::Cvts2s { to, dst: SCRATCH_XMM_A, src: from });
                law_float_results_are_in_the_frame(c, done, v, to, SCRATCH_XMM_A);
            }
        },
        _ => {},
    }
}

/// The first request, made before anything was emitted.
pub open spec fn first_asked(b: Bound, after: Bound, request: Request) -> bool {
    &&& b.asked.len() < after.asked.len()
    &&& after.asked[b.asked.len() as int] == (Asked { request, emitted: b.ops.len() })
}

/// Before a local is written, the values that still read its slot move away. The
/// write comes last; there is none where the value is in the slot already.
pub proof fn law_aliases_move_before_a_local_is_written(
    c: Ctx,
    b: Bound,
    id: LocalId,
    width: Width,
    src: Src,
)
    requires
        emit_store_to_local_spec(c, b, id, width, src) is Ok,
    ensures
        ({
            let after = bound_at(emit_store_to_local_spec(c, b, id, width, src));
            let moved = bound_at(run_moves_spec(c, b, Request::BeforeLocalWrite(id)));
            let (found, rmi) = wide_imm_spec(c, moved, width, src, Exclude::Nothing)->Ok_0;
            let m = slot_mem(c.slots[id.0 as int]);
            &&& id.0 < c.slots.len()
            &&& first_asked(b, after, Request::BeforeLocalWrite(id))
            &&& if rmi == Rmi::Mem(m) {
                after == found
            } else {
                after.ops.len() > moved.ops.len() && stores_to(after.ops.last(), m)
            }
        }),
{
    reveal(emit_store_to_local_spec);
    let request = Request::BeforeLocalWrite(id);
    lemma_noted(c, b, request);
    let moved = bound_at(run_moves_spec(c, b, request));
    lemma_kept_wide_imm(c, moved, width, src, Exclude::Nothing);
    let (found, rmi) = wide_imm_spec(c, moved, width, src, Exclude::Nothing)->Ok_0;
    lemma_kept_scratch(c, found, Exclude::Nothing);
}

/// The same where a float is written to a local.
pub proof fn law_aliases_move_before_a_float_is_written(
    c: Ctx,
    b: Bound,
    v: Val,
    width: FWidth,
    src: Xmm,
    bits: u64,
)
    requires
        (v.0.0 as u64) < c.num_frame_fixed,
    ensures
        match define_xmm_spec(c, b, XmmPlace::Val(v), width, src) {
            Ok((after, _)) => first_asked(b, after, Request::BeforeLocalWrite(v.0)),
            Err(_) => true,
        },
        match emit_const_f_spec(c, b, width, XmmPlace::Val(v), bits) {
            Ok((after, _)) => first_asked(b, after, Request::BeforeLocalWrite(v.0)),
            Err(_) => true,
        },
{
    reveal(emit_const_f_spec);
    let request = Request::BeforeLocalWrite(v.0);
    lemma_noted(c, b, request);
    lemma_kept_scratch(c, bound_at(run_moves_spec(c, b, request)), Exclude::Nothing);
}

/// The register that an instruction writes whatever is in it.
pub open spec fn fixed_target(inst: Inst) -> Option<Gpr> {
    match inst {
        Inst::Mov { dst: Place::Reg(g), .. } => Some(g),
        Inst::Lea { dst: Place::Reg(g), .. } => Some(g),
        Inst::Setcc { dst: Place::Reg(g), .. } => Some(g),
        Inst::MovExt { dst: Place::Reg(g), .. } => Some(g),
        Inst::Cdq { .. } => Some(Gpr::Rdx),
        Inst::Idiv { .. } => Some(Gpr::Rax),
        Inst::Div { .. } => Some(Gpr::Rax),
        _ => None,
    }
}

/// A value in a register that an instruction must write moves away before anything
/// is emitted. A division empties `rax` and then `rdx`.
pub proof fn law_fixed_registers_are_emptied_first(c: Ctx, b: Bound, inst: Inst, g: Gpr)
    requires
        fixed_target(inst) == Some(g),
        emit_inst_spec(c, b, inst) is Ok,
    ensures
        ({
            let after = bound_at(emit_inst_spec(c, b, inst));
            let emptied = bound_at(run_moves_spec(c, b, Request::Clobber(g.phys())));
            &&& first_asked(b, after, Request::Clobber(g.phys()))
            &&& inst is Idiv || inst is Div ==> first_asked(
                emptied,
                after,
                Request::Clobber(Gpr::Rdx.phys()),
            )
        }),
{
    reveal(emit_mov_spec);
    reveal(emit_lea_spec);
    reveal(emit_setcc_spec);
    reveal(emit_movext_spec);
    reveal(emit_divide_spec);
    reveal(emit_plain_inst_spec);
    let request = Request::Clobber(g.phys());
    lemma_noted(c, b, request);
    let emptied = bound_at(run_moves_spec(c, b, request));
    match inst {
        Inst::Mov { src, .. } => lemma_kept_rmi_of(c, emptied, src),
        Inst::MovExt { src, signed, .. } => lemma_kept_ext_into(c, emptied, g, src, signed),
        Inst::Idiv { width, divisor } => lemma_division_empties(c, emptied, width, divisor),
        Inst::Div { width, divisor } => lemma_division_empties(c, emptied, width, divisor),
        _ => {},
    }
}

/// From where a division has emptied `rax`.
proof fn lemma_division_empties(c: Ctx, b: Bound, width: Width, divisor: Src)
    ensures
        ({
            let request = Request::Clobber(Gpr::Rdx.phys());
            let freed = bound_at(run_moves_spec(c, b, request));
            let exclude = Exclude::Two(Gpr::Rax.phys(), Gpr::Rdx.phys());
            let found = rm_of_spec(c, freed, divisor, width, exclude);
            run_moves_spec(c, b, request) is Ok && found is Ok ==> extends(b, bound_at(found))
                && first_asked(b, bound_at(found), request)
        }),
{
    let request = Request::Clobber(Gpr::Rdx.phys());
    lemma_noted(c, b, request);
    let freed = bound_at(run_moves_spec(c, b, request));
    let exclude = Exclude::Two(Gpr::Rax.phys(), Gpr::Rdx.phys());
    lemma_kept_rm_of(c, freed, divisor, width, exclude);
}

} // verus!
