//! A binding does not look ahead: more replies do not change what the earlier
//! ones led to.

use crate::bind::{
    alu_of, arith_into_spec, bits_imm, define_gc_temp_spec, define_temp_reg_spec, define_xmm_spec,
    emit_arith_f_spec, emit_arith_spec, emit_call_lookup_spec, emit_call_spec, emit_cmp_f_spec,
    emit_cmp_spec, emit_const_f_spec, emit_cvt_f_to_f_spec, emit_cvt_f_to_int_spec,
    emit_cvt_int_to_f_spec, emit_define_temp_spec, emit_divide_spec, emit_float_inst_spec,
    emit_helper_call_spec, emit_inst_spec, emit_jcc_f_spec, emit_lea_spec, emit_mov_f_spec,
    emit_mov_spec, emit_movext_spec, emit_neg_f_spec, emit_plain_inst_spec, emit_setcc_f_spec,
    emit_setcc_spec, emit_shift_spec, emit_store_to_local_spec, emit_unary_spec, exclude_reg,
    ext_into_spec, float_recipe, frame_slot, gpr_spec, is_fixed_spec, is_gc, is_small_imm,
    lookup_spec, materialize_bits_spec, other_fwidth, place_int_spec, read_spec, reset_spec,
    rm_of_spec, rmi_of_spec, rmx_of_spec, run_moves_spec, scratch_spec, setcc_f_into_spec,
    shift_into_spec, sign_mask, slot_mem, slot_of_spec, ty_of_spec, unary_into_spec, wide_imm_of,
    wide_imm_spec, width_if, Bound, Ctx, Exclude, Loc, Op, ReadSrc, Request, Second, Step,
    SCRATCH_XMM_A, SCRATCH_XMM_B,
};
use crate::encode::{Mem, Rm, RmX, Rmi};
use crate::inst::{
    Amode, ArithFOp, ArithOp, CondCode, FWidth, Inst, Place, ShiftOp, Src, Width, XmmPlace, XmmSrc,
};
use crate::ir::{BinaryOp, CorInfoHelpFunc, Label, LocalId, MethodHandle, UnaryOp};
use crate::regs::{Gpr, Xmm};
use vstd::prelude::*;

verus! {

/// `all` has the replies of `c`, and perhaps more.
pub open spec fn more(c: Ctx, all: Ctx) -> bool {
    &&& all.types == c.types
    &&& all.slots == c.slots
    &&& all.num_frame_fixed == c.num_frame_fixed
    &&& all.frame_size == c.frame_size
    &&& c.replies.len() <= all.replies.len()
    &&& forall|i: int| 0 <= i < c.replies.len() ==> #[trigger] c.replies[i] == all.replies[i]
}

/// The binding stopped for want of a reply.
pub open spec fn asks<T>(s: Step<T>) -> bool {
    match s {
        Err(halt) => halt.stop is Ask,
        Ok(_) => false,
    }
}

pub proof fn lemma_more_run_moves(c: Ctx, all: Ctx, b: Bound, request: Request)
    requires
        more(c, all),
        !asks(run_moves_spec(c, b, request)),
    ensures
        run_moves_spec(all, b, request) == run_moves_spec(c, b, request),
{
}

pub proof fn lemma_more_scratch(c: Ctx, all: Ctx, b: Bound, exclude: Exclude)
    requires
        more(c, all),
        !asks(scratch_spec(c, b, exclude)),
    ensures
        scratch_spec(all, b, exclude) == scratch_spec(c, b, exclude),
{
}

pub proof fn lemma_more_read(c: Ctx, all: Ctx, b: Bound, id: LocalId)
    requires
        more(c, all),
        !asks(read_spec(c, b, id)),
    ensures
        read_spec(all, b, id) == read_spec(c, b, id),
{
}

pub proof fn lemma_more_lookup(c: Ctx, all: Ctx, b: Bound, request: Request)
    requires
        more(c, all),
        !asks(lookup_spec(c, b, request)),
    ensures
        lookup_spec(all, b, request) == lookup_spec(c, b, request),
{
}

pub proof fn lemma_more_reset(c: Ctx, all: Ctx, b: Bound)
    requires
        more(c, all),
        !asks(reset_spec(c, b)),
    ensures
        reset_spec(all, b) == reset_spec(c, b),
{
}

pub proof fn lemma_more_rmi_of(c: Ctx, all: Ctx, b: Bound, src: Src)
    requires
        more(c, all),
        !asks(rmi_of_spec(c, b, src)),
    ensures
        rmi_of_spec(all, b, src) == rmi_of_spec(c, b, src),
{
    match src {
        Src::Reg(g) => {
        },
        Src::Imm(i) => {
        },
        Src::Val(v) => {
            lemma_more_read(c, all, b, v.0);
        },
    }
}

pub proof fn lemma_more_wide_imm(
    c: Ctx,
    all: Ctx,
    b: Bound,
    width: Width,
    src: Src,
    exclude: Exclude,
)
    requires
        more(c, all),
        !asks(wide_imm_spec(c, b, width, src, exclude)),
    ensures
        wide_imm_spec(all, b, width, src, exclude) == wide_imm_spec(c, b, width, src, exclude),
{
    lemma_more_rmi_of(c, all, b, src);
    match rmi_of_spec(c, b, src) {
        Ok((b, rmi)) => {
            match wide_imm_of(width, rmi) {
                Some(i) => {
                    lemma_more_scratch(c, all, b, exclude);
                },
                None => {
                },
            }
        },
        Err(_) => {},
    }
}

pub proof fn lemma_more_rm_of(c: Ctx, all: Ctx, b: Bound, src: Src, width: Width, exclude: Exclude)
    requires
        more(c, all),
        !asks(rm_of_spec(c, b, src, width, exclude)),
    ensures
        rm_of_spec(all, b, src, width, exclude) == rm_of_spec(c, b, src, width, exclude),
{
    lemma_more_rmi_of(c, all, b, src);
    match rmi_of_spec(c, b, src) {
        Ok((b, rmi)) => {
            match rmi {
                Rmi::Reg(g) => {
                },
                Rmi::Mem(m) => {
                },
                Rmi::Imm(i) => {
                    lemma_more_scratch(c, all, b, exclude);
                },
            }
        },
        Err(_) => {},
    }
}

pub proof fn lemma_more_define_temp_reg(c: Ctx, all: Ctx, b: Bound, t: LocalId, g: Gpr)
    requires
        more(c, all),
        !asks(define_temp_reg_spec(c, b, t, g)),
    ensures
        define_temp_reg_spec(all, b, t, g) == define_temp_reg_spec(c, b, t, g),
{
    match ty_of_spec(c, b, t) {
        Ok((b, ty)) => {
            if is_gc(ty) {
                match slot_of_spec(c, b, t) {
                    Ok((b, slot)) => {
                        let b = b.emit(
                            Op::Mov {
                                width: Width::W64,
                                dst: Rm::Mem(slot_mem(slot)),
                                src: Rmi::Reg(g),
                            },
                        );
                        lemma_more_run_moves(c, all, b, Request::Define(t, Loc::Mem(slot)));
                    },
                    Err(_) => {},
                }
            } else {
                lemma_more_run_moves(c, all, b, Request::Define(t, Loc::Reg(g.phys())));
            }
        },
        Err(_) => {},
    }
}

pub proof fn lemma_more_materialize_bits(
    c: Ctx,
    all: Ctx,
    b: Bound,
    dst: Xmm,
    width: FWidth,
    bits: u64,
)
    requires
        more(c, all),
        !asks(materialize_bits_spec(c, b, dst, width, bits)),
    ensures
        materialize_bits_spec(
            all,
            b,
            dst,
            width,
            bits,
        ) == materialize_bits_spec(c, b, dst, width, bits),
{
    lemma_more_scratch(c, all, b, Exclude::Nothing);
}

pub proof fn lemma_more_rmx_of(c: Ctx, all: Ctx, b: Bound, src: XmmSrc, width: FWidth, scratch: Xmm)
    requires
        more(c, all),
        !asks(rmx_of_spec(c, b, src, width, scratch)),
    ensures
        rmx_of_spec(all, b, src, width, scratch) == rmx_of_spec(c, b, src, width, scratch),
{
    match src {
        XmmSrc::Reg(x) => {
        },
        XmmSrc::Val(v) => {
            lemma_more_read(c, all, b, v.0);
        },
        XmmSrc::Bits(bits) => {
            lemma_more_materialize_bits(c, all, b, scratch, width, bits);
        },
    }
}

pub proof fn lemma_more_define_xmm(
    c: Ctx,
    all: Ctx,
    b: Bound,
    dst: XmmPlace,
    width: FWidth,
    src: Xmm,
)
    requires
        more(c, all),
        !asks(define_xmm_spec(c, b, dst, width, src)),
    ensures
        define_xmm_spec(all, b, dst, width, src) == define_xmm_spec(c, b, dst, width, src),
{
    match dst {
        XmmPlace::Reg(x) => {
        },
        XmmPlace::Val(v) => {
            match slot_of_spec(c, b, v.0) {
                Ok((b, slot)) => {
                    match is_fixed_spec(c, b, v.0) {
                        Ok((b, fixed)) => {
                            if fixed {
                                lemma_more_run_moves(c, all, b, Request::BeforeLocalWrite(v.0));
                            } else {
                                let b = b.emit(Op::MovFStore { width, dst: slot_mem(slot), src });
                                lemma_more_run_moves(
                                    c,
                                    all,
                                    b,
                                    Request::Define(v.0, Loc::Mem(slot)),
                                );
                            }
                        },
                        Err(_) => {},
                    }
                },
                Err(_) => {},
            }
        },
    }
}

pub proof fn lemma_more_emit_const_f(
    c: Ctx,
    all: Ctx,
    b: Bound,
    width: FWidth,
    dst: XmmPlace,
    bits: u64,
)
    requires
        more(c, all),
        !asks(emit_const_f_spec(c, b, width, dst, bits)),
    ensures
        emit_const_f_spec(all, b, width, dst, bits) == emit_const_f_spec(c, b, width, dst, bits),
{
    reveal(emit_const_f_spec);
    match dst {
        XmmPlace::Reg(x) => {
            lemma_more_materialize_bits(c, all, b, x, width, bits);
        },
        XmmPlace::Val(v) => {
            match slot_of_spec(c, b, v.0) {
                Ok((b, slot)) => {
                    match is_fixed_spec(c, b, v.0) {
                        Ok((b, fixed)) => {
                            if fixed {
                                lemma_more_run_moves(c, all, b, Request::BeforeLocalWrite(v.0));
                            }
                            match if fixed {
                                run_moves_spec(c, b, Request::BeforeLocalWrite(v.0))
                            } else {
                                Ok((b, ()))
                            } {
                                Ok((b, _)) => {
                                    match width {
                                        FWidth::S => {
                                            let b = b.emit(
                                                Op::Mov {
                                                    width: Width::W32,
                                                    dst: Rm::Mem(slot_mem(slot)),
                                                    src: Rmi::Imm(bits_imm(bits)),
                                                },
                                            );
                                            if !fixed {
                                                lemma_more_run_moves(
                                                    c,
                                                    all,
                                                    b,
                                                    Request::Define(v.0, Loc::Mem(slot)),
                                                );
                                            }
                                            match if !fixed {
                                                run_moves_spec(
                                                    c,
                                                    b,
                                                    Request::Define(v.0, Loc::Mem(slot)),
                                                )
                                            } else {
                                                Ok((b, ()))
                                            } {
                                                Ok((b, _)) => {
                                                },
                                                Err(_) => {},
                                            }
                                        },
                                        FWidth::D => {
                                            lemma_more_scratch(c, all, b, Exclude::Nothing);
                                            match scratch_spec(c, b, Exclude::Nothing) {
                                                Ok((b, g)) => {
                                                    let b = b.emit(
                                                        Op::Mov {
                                                            width: Width::W64,
                                                            dst: Rm::Reg(g),
                                                            src: Rmi::Imm(bits_imm(bits)),
                                                        },
                                                    );
                                                    let b = b.emit(
                                                        Op::Mov {
                                                            width: Width::W64,
                                                            dst: Rm::Mem(slot_mem(slot)),
                                                            src: Rmi::Reg(g),
                                                        },
                                                    );
                                                    if !fixed {
                                                        lemma_more_run_moves(
                                                            c,
                                                            all,
                                                            b,
                                                            Request::Define(v.0, Loc::Mem(slot)),
                                                        );
                                                    }
                                                    match if !fixed {
                                                        run_moves_spec(
                                                            c,
                                                            b,
                                                            Request::Define(v.0, Loc::Mem(slot)),
                                                        )
                                                    } else {
                                                        Ok((b, ()))
                                                    } {
                                                        Ok((b, _)) => {
                                                        },
                                                        Err(_) => {},
                                                    }
                                                },
                                                Err(_) => {},
                                            }
                                        },
                                    }
                                },
                                Err(_) => {},
                            }
                        },
                        Err(_) => {},
                    }
                },
                Err(_) => {},
            }
        },
    }
}

pub proof fn lemma_more_emit_mov_f(
    c: Ctx,
    all: Ctx,
    b: Bound,
    width: FWidth,
    dst: XmmPlace,
    src: XmmSrc,
)
    requires
        more(c, all),
        !asks(emit_mov_f_spec(c, b, width, dst, src)),
    ensures
        emit_mov_f_spec(all, b, width, dst, src) == emit_mov_f_spec(c, b, width, dst, src),
{
    reveal(emit_mov_f_spec);
    lemma_more_rmx_of(c, all, b, src, width, SCRATCH_XMM_A);
    match rmx_of_spec(c, b, src, width, SCRATCH_XMM_A) {
        Ok((b, from)) => {
            match dst {
                XmmPlace::Reg(x) => {
                },
                XmmPlace::Val(v) => {
                    match from {
                        RmX::Reg(x) => {
                            lemma_more_define_xmm(c, all, b, XmmPlace::Val(v), width, x);
                        },
                        RmX::Mem(m) => {
                            match slot_of_spec(c, b, v.0) {
                                Ok((b, slot)) => {
                                    if m == slot_mem(slot) {
                                    } else {
                                        let b = b.emit(
                                            Op::MovFLoad {
                                                width,
                                                dst: SCRATCH_XMM_A,
                                                src: RmX::Mem(m),
                                            },
                                        );
                                        lemma_more_define_xmm(
                                            c,
                                            all,
                                            b,
                                            XmmPlace::Val(v),
                                            width,
                                            SCRATCH_XMM_A,
                                        );
                                    }
                                },
                                Err(_) => {},
                            }
                        },
                    }
                },
            }
        },
        Err(_) => {},
    }
}

pub proof fn lemma_more_emit_arith_f(
    c: Ctx,
    all: Ctx,
    b: Bound,
    op: ArithFOp,
    width: FWidth,
    dst: XmmPlace,
    lhs: XmmSrc,
    rhs: XmmSrc,
)
    requires
        more(c, all),
        !asks(emit_arith_f_spec(c, b, op, width, dst, lhs, rhs)),
    ensures
        emit_arith_f_spec(
            all,
            b,
            op,
            width,
            dst,
            lhs,
            rhs,
        ) == emit_arith_f_spec(c, b, op, width, dst, lhs, rhs),
{
    reveal(emit_arith_f_spec);
    lemma_more_rmx_of(c, all, b, lhs, width, SCRATCH_XMM_A);
    match rmx_of_spec(c, b, lhs, width, SCRATCH_XMM_A) {
        Ok((b, l)) => {
            lemma_more_rmx_of(c, all, b, rhs, width, SCRATCH_XMM_B);
            match rmx_of_spec(c, b, rhs, width, SCRATCH_XMM_B) {
                Ok((b, r)) => {
                    let b = if l != RmX::Reg(SCRATCH_XMM_A) {
                        b.emit(Op::MovFLoad { width, dst: SCRATCH_XMM_A, src: l })
                    } else {
                        b
                    };
                    let b = b.emit(Op::ArithF { op, width, dst: SCRATCH_XMM_A, src: r });
                    lemma_more_define_xmm(c, all, b, dst, width, SCRATCH_XMM_A);
                },
                Err(_) => {},
            }
        },
        Err(_) => {},
    }
}

pub proof fn lemma_more_emit_neg_f(
    c: Ctx,
    all: Ctx,
    b: Bound,
    width: FWidth,
    dst: XmmPlace,
    src: XmmSrc,
)
    requires
        more(c, all),
        !asks(emit_neg_f_spec(c, b, width, dst, src)),
    ensures
        emit_neg_f_spec(all, b, width, dst, src) == emit_neg_f_spec(c, b, width, dst, src),
{
    reveal(emit_neg_f_spec);
    lemma_more_materialize_bits(c, all, b, SCRATCH_XMM_B, width, sign_mask(width));
    match materialize_bits_spec(c, b, SCRATCH_XMM_B, width, sign_mask(width)) {
        Ok((b, _)) => {
            lemma_more_rmx_of(c, all, b, src, width, SCRATCH_XMM_A);
            match rmx_of_spec(c, b, src, width, SCRATCH_XMM_A) {
                Ok((b, from)) => {
                    let b = if from != RmX::Reg(SCRATCH_XMM_A) {
                        b.emit(Op::MovFLoad { width, dst: SCRATCH_XMM_A, src: from })
                    } else {
                        b
                    };
                    let b = b.emit(
                        Op::XorF { width, dst: SCRATCH_XMM_A, src: RmX::Reg(SCRATCH_XMM_B) },
                    );
                    lemma_more_define_xmm(c, all, b, dst, width, SCRATCH_XMM_A);
                },
                Err(_) => {},
            }
        },
        Err(_) => {},
    }
}

pub proof fn lemma_more_emit_cmp_f(
    c: Ctx,
    all: Ctx,
    b: Bound,
    width: FWidth,
    lhs: XmmSrc,
    rhs: XmmSrc,
)
    requires
        more(c, all),
        !asks(emit_cmp_f_spec(c, b, width, lhs, rhs)),
    ensures
        emit_cmp_f_spec(all, b, width, lhs, rhs) == emit_cmp_f_spec(c, b, width, lhs, rhs),
{
    reveal(emit_cmp_f_spec);
    lemma_more_rmx_of(c, all, b, lhs, width, SCRATCH_XMM_A);
    match rmx_of_spec(c, b, lhs, width, SCRATCH_XMM_A) {
        Ok((b, l)) => {
            lemma_more_rmx_of(c, all, b, rhs, width, SCRATCH_XMM_B);
        },
        Err(_) => {},
    }
}

pub proof fn lemma_more_place_int(c: Ctx, all: Ctx, b: Bound, dst: Place, width: Width, g: Gpr)
    requires
        more(c, all),
        !asks(place_int_spec(c, b, dst, width, g)),
    ensures
        place_int_spec(all, b, dst, width, g) == place_int_spec(c, b, dst, width, g),
{
    match dst {
        Place::Val(t) => {
            lemma_more_define_temp_reg(c, all, b, t.0, g);
        },
        Place::Reg(to) => {
            lemma_more_run_moves(c, all, b, Request::Clobber(to.phys()));
        },
    }
}

pub proof fn lemma_more_setcc_f_into(c: Ctx, all: Ctx, b: Bound, op: BinaryOp)
    requires
        more(c, all),
        !asks(setcc_f_into_spec(c, b, op)),
    ensures
        setcc_f_into_spec(all, b, op) == setcc_f_into_spec(c, b, op),
{
    match float_recipe(op) {
        None => {
        },
        Some(recipe) => {
            lemma_more_scratch(c, all, b, Exclude::Nothing);
            match scratch_spec(c, b, Exclude::Nothing) {
                Ok((b, ga)) => {
                    let b = b.emit(
                        Op::Mov { width: Width::W32, dst: Rm::Reg(ga), src: Rmi::Imm(0) },
                    );
                    let b = b.emit(Op::Setcc { cc: recipe.first, dst: ga });
                    match recipe.second {
                        Second::Nothing => {
                        },
                        Second::And(cc) => {
                            lemma_more_scratch(c, all, b, Exclude::One(ga.phys()));
                        },
                        Second::Or(cc) => {
                            lemma_more_scratch(c, all, b, Exclude::One(ga.phys()));
                        },
                    }
                },
                Err(_) => {},
            }
        },
    }
}

pub proof fn lemma_more_emit_setcc_f(c: Ctx, all: Ctx, b: Bound, op: BinaryOp, dst: Place)
    requires
        more(c, all),
        !asks(emit_setcc_f_spec(c, b, op, dst)),
    ensures
        emit_setcc_f_spec(all, b, op, dst) == emit_setcc_f_spec(c, b, op, dst),
{
    reveal(emit_setcc_f_spec);
    lemma_more_setcc_f_into(c, all, b, op);
    match setcc_f_into_spec(c, b, op) {
        Ok((b, g)) => {
            lemma_more_place_int(c, all, b, dst, Width::W32, g);
        },
        Err(_) => {},
    }
}

pub proof fn lemma_more_emit_jcc_f(c: Ctx, all: Ctx, b: Bound, op: BinaryOp, target: Label)
    requires
        more(c, all),
        !asks(emit_jcc_f_spec(c, b, op, target)),
    ensures
        emit_jcc_f_spec(all, b, op, target) == emit_jcc_f_spec(c, b, op, target),
{
    reveal(emit_jcc_f_spec);
    match op {
        BinaryOp::Ne | BinaryOp::UGt | BinaryOp::UGe => {
        },
        BinaryOp::Eq | BinaryOp::Lt | BinaryOp::Le => {
        },
        BinaryOp::Gt | BinaryOp::Ge | BinaryOp::ULt | BinaryOp::ULe => {
        },
        _ => {
        },
    }
}

pub proof fn lemma_more_emit_cvt_int_to_f(
    c: Ctx,
    all: Ctx,
    b: Bound,
    width: FWidth,
    src_w64: bool,
    dst: XmmPlace,
    src: Src,
)
    requires
        more(c, all),
        !asks(emit_cvt_int_to_f_spec(c, b, width, src_w64, dst, src)),
    ensures
        emit_cvt_int_to_f_spec(
            all,
            b,
            width,
            src_w64,
            dst,
            src,
        ) == emit_cvt_int_to_f_spec(c, b, width, src_w64, dst, src),
{
    reveal(emit_cvt_int_to_f_spec);
    lemma_more_rm_of(c, all, b, src, width_if(src_w64), Exclude::Nothing);
    match rm_of_spec(c, b, src, width_if(src_w64), Exclude::Nothing) {
        Ok((b, rm)) => {
            let b = b.emit(Op::Cvtsi2s { width, dst: SCRATCH_XMM_A, src: rm, src_w64 });
            lemma_more_define_xmm(c, all, b, dst, width, SCRATCH_XMM_A);
        },
        Err(_) => {},
    }
}

pub proof fn lemma_more_emit_cvt_f_to_int(
    c: Ctx,
    all: Ctx,
    b: Bound,
    src_width: FWidth,
    dst_w64: bool,
    dst: Place,
    src: XmmSrc,
)
    requires
        more(c, all),
        !asks(emit_cvt_f_to_int_spec(c, b, src_width, dst_w64, dst, src)),
    ensures
        emit_cvt_f_to_int_spec(
            all,
            b,
            src_width,
            dst_w64,
            dst,
            src,
        ) == emit_cvt_f_to_int_spec(c, b, src_width, dst_w64, dst, src),
{
    reveal(emit_cvt_f_to_int_spec);
    lemma_more_rmx_of(c, all, b, src, src_width, SCRATCH_XMM_A);
    match rmx_of_spec(c, b, src, src_width, SCRATCH_XMM_A) {
        Ok((b, from)) => {
            lemma_more_scratch(c, all, b, Exclude::Nothing);
            match scratch_spec(c, b, Exclude::Nothing) {
                Ok((b, g)) => {
                    let b = b.emit(Op::Cvtts2si { width: src_width, dst: g, src: from, dst_w64 });
                    lemma_more_place_int(c, all, b, dst, Width::W64, g);
                },
                Err(_) => {},
            }
        },
        Err(_) => {},
    }
}

pub proof fn lemma_more_emit_cvt_f_to_f(
    c: Ctx,
    all: Ctx,
    b: Bound,
    to: FWidth,
    dst: XmmPlace,
    src: XmmSrc,
)
    requires
        more(c, all),
        !asks(emit_cvt_f_to_f_spec(c, b, to, dst, src)),
    ensures
        emit_cvt_f_to_f_spec(all, b, to, dst, src) == emit_cvt_f_to_f_spec(c, b, to, dst, src),
{
    reveal(emit_cvt_f_to_f_spec);
    lemma_more_rmx_of(c, all, b, src, other_fwidth(to), SCRATCH_XMM_A);
    match rmx_of_spec(c, b, src, other_fwidth(to), SCRATCH_XMM_A) {
        Ok((b, from)) => {
            let b = b.emit(Op::Cvts2s { to, dst: SCRATCH_XMM_A, src: from });
            lemma_more_define_xmm(c, all, b, dst, to, SCRATCH_XMM_A);
        },
        Err(_) => {},
    }
}

pub proof fn lemma_more_emit_store_to_local(
    c: Ctx,
    all: Ctx,
    b: Bound,
    id: LocalId,
    width: Width,
    src: Src,
)
    requires
        more(c, all),
        !asks(emit_store_to_local_spec(c, b, id, width, src)),
    ensures
        emit_store_to_local_spec(
            all,
            b,
            id,
            width,
            src,
        ) == emit_store_to_local_spec(c, b, id, width, src),
{
    reveal(emit_store_to_local_spec);
    lemma_more_run_moves(c, all, b, Request::BeforeLocalWrite(id));
    match run_moves_spec(c, b, Request::BeforeLocalWrite(id)) {
        Ok((b, _)) => {
            match slot_of_spec(c, b, id) {
                Ok((b, slot)) => {
                    lemma_more_wide_imm(c, all, b, width, src, Exclude::Nothing);
                    match wide_imm_spec(c, b, width, src, Exclude::Nothing) {
                        Ok((b, rmi)) => {
                            match rmi {
                                Rmi::Reg(g) => {
                                },
                                Rmi::Imm(i) => {
                                },
                                Rmi::Mem(m) => {
                                    if m == slot_mem(slot) {
                                    } else {
                                        lemma_more_scratch(c, all, b, Exclude::Nothing);
                                    }
                                },
                            }
                        },
                        Err(_) => {},
                    }
                },
                Err(_) => {},
            }
        },
        Err(_) => {},
    }
}

pub proof fn lemma_more_define_gc_temp(
    c: Ctx,
    all: Ctx,
    b: Bound,
    id: LocalId,
    width: Width,
    src: Src,
)
    requires
        more(c, all),
        !asks(define_gc_temp_spec(c, b, id, width, src)),
    ensures
        define_gc_temp_spec(all, b, id, width, src) == define_gc_temp_spec(c, b, id, width, src),
{
    match slot_of_spec(c, b, id) {
        Ok((b, slot)) => {
            lemma_more_wide_imm(c, all, b, width, src, Exclude::Nothing);
            match wide_imm_spec(c, b, width, src, Exclude::Nothing) {
                Ok((b, rmi)) => {
                    match rmi {
                        Rmi::Reg(g) => {
                            let b = b.emit(
                                Op::Mov { width, dst: Rm::Mem(slot_mem(slot)), src: Rmi::Reg(g) },
                            );
                            lemma_more_run_moves(c, all, b, Request::Define(id, Loc::Mem(slot)));
                        },
                        Rmi::Imm(i) => {
                            let b = b.emit(
                                Op::Mov { width, dst: Rm::Mem(slot_mem(slot)), src: Rmi::Imm(i) },
                            );
                            lemma_more_run_moves(c, all, b, Request::Define(id, Loc::Mem(slot)));
                        },
                        Rmi::Mem(m) => {
                            if m == slot_mem(slot) {
                                lemma_more_run_moves(
                                    c,
                                    all,
                                    b,
                                    Request::Define(id, Loc::Mem(slot)),
                                );
                            } else {
                                lemma_more_scratch(c, all, b, Exclude::Nothing);
                                match scratch_spec(c, b, Exclude::Nothing) {
                                    Ok((b, g)) => {
                                        let b = b.emit(
                                            Op::Mov { width, dst: Rm::Reg(g), src: Rmi::Mem(m) },
                                        );
                                        let b = b.emit(
                                            Op::Mov {
                                                width,
                                                dst: Rm::Mem(slot_mem(slot)),
                                                src: Rmi::Reg(g),
                                            },
                                        );
                                        lemma_more_run_moves(
                                            c,
                                            all,
                                            b,
                                            Request::Define(id, Loc::Mem(slot)),
                                        );
                                    },
                                    Err(_) => {},
                                }
                            }
                        },
                    }
                },
                Err(_) => {},
            }
        },
        Err(_) => {},
    }
}

pub proof fn lemma_more_emit_define_temp(
    c: Ctx,
    all: Ctx,
    b: Bound,
    id: LocalId,
    width: Width,
    src: Src,
)
    requires
        more(c, all),
        !asks(emit_define_temp_spec(c, b, id, width, src)),
    ensures
        emit_define_temp_spec(
            all,
            b,
            id,
            width,
            src,
        ) == emit_define_temp_spec(c, b, id, width, src),
{
    reveal(emit_define_temp_spec);
    match ty_of_spec(c, b, id) {
        Ok((b, ty)) => {
            if is_gc(ty) {
                lemma_more_define_gc_temp(c, all, b, id, width, src);
            } else {
                match src {
                    Src::Imm(i) => {
                        lemma_more_run_moves(c, all, b, Request::Define(id, Loc::Const(i)));
                    },
                    Src::Reg(g) => {
                        lemma_more_define_temp_reg(c, all, b, id, g);
                    },
                    Src::Val(v) => {
                        match is_fixed_spec(c, b, v.0) {
                            Ok((b, fixed)) => {
                                if fixed {
                                    lemma_more_run_moves(
                                        c,
                                        all,
                                        b,
                                        Request::Define(id, Loc::Local(v.0)),
                                    );
                                } else {
                                    lemma_more_read(c, all, b, v.0);
                                    match read_spec(c, b, v.0) {
                                        Ok((b, source)) => {
                                            match source {
                                                ReadSrc::Slot(offset) => {
                                                    lemma_more_run_moves(
                                                        c,
                                                        all,
                                                        b,
                                                        Request::Define(id, Loc::Mem(offset)),
                                                    );
                                                },
                                                ReadSrc::Imm(i) => {
                                                    lemma_more_run_moves(
                                                        c,
                                                        all,
                                                        b,
                                                        Request::Define(id, Loc::Const(i)),
                                                    );
                                                },
                                                ReadSrc::Reg(p) => {
                                                    lemma_more_scratch(c, all, b, Exclude::One(p));
                                                    match scratch_spec(c, b, Exclude::One(p)) {
                                                        Ok((b, d)) => {
                                                            match gpr_spec(c, b, p) {
                                                                Ok((b, g)) => {
                                                                    let b = b.emit(
                                                                        Op::Mov {
                                                                            width,
                                                                            dst: Rm::Reg(d),
                                                                            src: Rmi::Reg(g),
                                                                        },
                                                                    );
                                                                    lemma_more_define_temp_reg(
                                                                        c,
                                                                        all,
                                                                        b,
                                                                        id,
                                                                        d,
                                                                    );
                                                                },
                                                                Err(_) => {},
                                                            }
                                                        },
                                                        Err(_) => {},
                                                    }
                                                },
                                            }
                                        },
                                        Err(_) => {},
                                    }
                                }
                            },
                            Err(_) => {},
                        }
                    },
                }
            }
        },
        Err(_) => {},
    }
}

pub proof fn lemma_more_emit_mov(c: Ctx, all: Ctx, b: Bound, width: Width, dst: Place, src: Src)
    requires
        more(c, all),
        !asks(emit_mov_spec(c, b, width, dst, src)),
    ensures
        emit_mov_spec(all, b, width, dst, src) == emit_mov_spec(c, b, width, dst, src),
{
    reveal(emit_mov_spec);
    match dst {
        Place::Reg(g) => {
            lemma_more_run_moves(c, all, b, Request::Clobber(g.phys()));
            match run_moves_spec(c, b, Request::Clobber(g.phys())) {
                Ok((b, _)) => {
                    lemma_more_rmi_of(c, all, b, src);
                },
                Err(_) => {},
            }
        },
        Place::Val(v) => {
            match is_fixed_spec(c, b, v.0) {
                Ok((b, fixed)) => {
                    if fixed {
                        lemma_more_emit_store_to_local(c, all, b, v.0, width, src);
                    } else {
                        lemma_more_emit_define_temp(c, all, b, v.0, width, src);
                    }
                },
                Err(_) => {},
            }
        },
    }
}

pub proof fn lemma_more_emit_lea(c: Ctx, all: Ctx, b: Bound, dst: Place, addr: Amode)
    requires
        more(c, all),
        !asks(emit_lea_spec(c, b, dst, addr)),
    ensures
        emit_lea_spec(all, b, dst, addr) == emit_lea_spec(c, b, dst, addr),
{
    reveal(emit_lea_spec);
    match slot_of_spec(c, b, frame_slot(addr)) {
        Ok((b, offset)) => {
            match dst {
                Place::Val(t) => {
                    lemma_more_scratch(c, all, b, Exclude::Nothing);
                    match scratch_spec(c, b, Exclude::Nothing) {
                        Ok((b, g)) => {
                            let b = b.emit(Op::Lea { dst: g, addr: slot_mem(offset) });
                            match is_fixed_spec(c, b, t.0) {
                                Ok((b, fixed)) => {
                                    if fixed {
                                        lemma_more_emit_store_to_local(
                                            c,
                                            all,
                                            b,
                                            t.0,
                                            Width::W64,
                                            Src::Reg(g),
                                        );
                                    } else {
                                        lemma_more_define_temp_reg(c, all, b, t.0, g);
                                    }
                                },
                                Err(_) => {},
                            }
                        },
                        Err(_) => {},
                    }
                },
                Place::Reg(g) => {
                    lemma_more_run_moves(c, all, b, Request::Clobber(g.phys()));
                },
            }
        },
        Err(_) => {},
    }
}

pub proof fn lemma_more_shift_into(
    c: Ctx,
    all: Ctx,
    b: Bound,
    op: ShiftOp,
    width: Width,
    lhs: Src,
    rhs: Src,
)
    requires
        more(c, all),
        !asks(shift_into_spec(c, b, op, width, lhs, rhs)),
    ensures
        shift_into_spec(all, b, op, width, lhs, rhs) == shift_into_spec(c, b, op, width, lhs, rhs),
{
    lemma_more_scratch(c, all, b, Exclude::One(Gpr::Rcx.phys()));
    match scratch_spec(c, b, Exclude::One(Gpr::Rcx.phys())) {
        Ok((b, d)) => {
            lemma_more_rmi_of(c, all, b, lhs);
            match rmi_of_spec(c, b, lhs) {
                Ok((b, l)) => {
                    let b = b.emit(Op::Mov { width, dst: Rm::Reg(d), src: l });
                    match rhs {
                        Src::Imm(count) => {
                        },
                        _ => {
                            lemma_more_run_moves(c, all, b, Request::Clobber(Gpr::Rcx.phys()));
                            match run_moves_spec(c, b, Request::Clobber(Gpr::Rcx.phys())) {
                                Ok((b, _)) => {
                                    lemma_more_rmi_of(c, all, b, rhs);
                                },
                                Err(_) => {},
                            }
                        },
                    }
                },
                Err(_) => {},
            }
        },
        Err(_) => {},
    }
}

pub proof fn lemma_more_emit_shift(
    c: Ctx,
    all: Ctx,
    b: Bound,
    op: ShiftOp,
    width: Width,
    dst: Place,
    lhs: Src,
    rhs: Src,
)
    requires
        more(c, all),
        !asks(emit_shift_spec(c, b, op, width, dst, lhs, rhs)),
    ensures
        emit_shift_spec(
            all,
            b,
            op,
            width,
            dst,
            lhs,
            rhs,
        ) == emit_shift_spec(c, b, op, width, dst, lhs, rhs),
{
    reveal(emit_shift_spec);
    match dst {
        Place::Reg(_) => {
        },
        Place::Val(t) => {
            lemma_more_shift_into(c, all, b, op, width, lhs, rhs);
            match shift_into_spec(c, b, op, width, lhs, rhs) {
                Ok((b, d)) => {
                    lemma_more_define_temp_reg(c, all, b, t.0, d);
                },
                Err(_) => {},
            }
        },
    }
}

pub proof fn lemma_more_unary_into(c: Ctx, all: Ctx, b: Bound, op: UnaryOp, width: Width, src: Src)
    requires
        more(c, all),
        !asks(unary_into_spec(c, b, op, width, src)),
    ensures
        unary_into_spec(all, b, op, width, src) == unary_into_spec(c, b, op, width, src),
{
    lemma_more_scratch(c, all, b, Exclude::Nothing);
    match scratch_spec(c, b, Exclude::Nothing) {
        Ok((b, d)) => {
            lemma_more_rmi_of(c, all, b, src);
        },
        Err(_) => {},
    }
}

pub proof fn lemma_more_emit_unary(
    c: Ctx,
    all: Ctx,
    b: Bound,
    op: UnaryOp,
    width: Width,
    dst: Place,
    src: Src,
)
    requires
        more(c, all),
        !asks(emit_unary_spec(c, b, op, width, dst, src)),
    ensures
        emit_unary_spec(all, b, op, width, dst, src) == emit_unary_spec(c, b, op, width, dst, src),
{
    reveal(emit_unary_spec);
    match dst {
        Place::Reg(_) => {
        },
        Place::Val(t) => {
            lemma_more_unary_into(c, all, b, op, width, src);
            match unary_into_spec(c, b, op, width, src) {
                Ok((b, d)) => {
                    lemma_more_define_temp_reg(c, all, b, t.0, d);
                },
                Err(_) => {},
            }
        },
    }
}

pub proof fn lemma_more_emit_setcc(c: Ctx, all: Ctx, b: Bound, cc: CondCode, dst: Place)
    requires
        more(c, all),
        !asks(emit_setcc_spec(c, b, cc, dst)),
    ensures
        emit_setcc_spec(all, b, cc, dst) == emit_setcc_spec(c, b, cc, dst),
{
    reveal(emit_setcc_spec);
    match dst {
        Place::Val(t) => {
            lemma_more_scratch(c, all, b, Exclude::Nothing);
            match scratch_spec(c, b, Exclude::Nothing) {
                Ok((b, g)) => {
                    let b = b.emit(
                        Op::Mov { width: Width::W32, dst: Rm::Reg(g), src: Rmi::Imm(0) },
                    );
                    let b = b.emit(Op::Setcc { cc, dst: g });
                    lemma_more_define_temp_reg(c, all, b, t.0, g);
                },
                Err(_) => {},
            }
        },
        Place::Reg(g) => {
            lemma_more_run_moves(c, all, b, Request::Clobber(g.phys()));
        },
    }
}

pub proof fn lemma_more_ext_into(c: Ctx, all: Ctx, b: Bound, g: Gpr, src: Src, signed: bool)
    requires
        more(c, all),
        !asks(ext_into_spec(c, b, g, src, signed)),
    ensures
        ext_into_spec(all, b, g, src, signed) == ext_into_spec(c, b, g, src, signed),
{
    if signed {
        lemma_more_rm_of(c, all, b, src, Width::W32, Exclude::One(g.phys()));
    } else {
        lemma_more_rmi_of(c, all, b, src);
    }
}

pub proof fn lemma_more_emit_movext(c: Ctx, all: Ctx, b: Bound, dst: Place, src: Src, signed: bool)
    requires
        more(c, all),
        !asks(emit_movext_spec(c, b, dst, src, signed)),
    ensures
        emit_movext_spec(all, b, dst, src, signed) == emit_movext_spec(c, b, dst, src, signed),
{
    reveal(emit_movext_spec);
    match dst {
        Place::Val(t) => {
            lemma_more_scratch(c, all, b, Exclude::Nothing);
            match scratch_spec(c, b, Exclude::Nothing) {
                Ok((b, g)) => {
                    lemma_more_ext_into(c, all, b, g, src, signed);
                    match ext_into_spec(c, b, g, src, signed) {
                        Ok((b, _)) => {
                            lemma_more_define_temp_reg(c, all, b, t.0, g);
                        },
                        Err(_) => {},
                    }
                },
                Err(_) => {},
            }
        },
        Place::Reg(g) => {
            lemma_more_run_moves(c, all, b, Request::Clobber(g.phys()));
            match run_moves_spec(c, b, Request::Clobber(g.phys())) {
                Ok((b, _)) => {
                    lemma_more_ext_into(c, all, b, g, src, signed);
                },
                Err(_) => {},
            }
        },
    }
}

pub proof fn lemma_more_arith_into(
    c: Ctx,
    all: Ctx,
    b: Bound,
    op: ArithOp,
    width: Width,
    lhs: Src,
    rhs: Src,
)
    requires
        more(c, all),
        !asks(arith_into_spec(c, b, op, width, lhs, rhs)),
    ensures
        arith_into_spec(all, b, op, width, lhs, rhs) == arith_into_spec(c, b, op, width, lhs, rhs),
{
    lemma_more_scratch(c, all, b, Exclude::Nothing);
    match scratch_spec(c, b, Exclude::Nothing) {
        Ok((b, d)) => {
            if op == ArithOp::Imul && is_small_imm(rhs) {
                lemma_more_rm_of(c, all, b, lhs, width, Exclude::One(d.phys()));
            } else {
                lemma_more_rmi_of(c, all, b, lhs);
                match rmi_of_spec(c, b, lhs) {
                    Ok((b, l)) => {
                        let b = b.emit(Op::Mov { width, dst: Rm::Reg(d), src: l });
                        match alu_of(op) {
                            Some(alu) => {
                                lemma_more_wide_imm(c, all, b, width, rhs, Exclude::One(d.phys()));
                            },
                            None => {
                                lemma_more_rm_of(c, all, b, rhs, width, Exclude::One(d.phys()));
                            },
                        }
                    },
                    Err(_) => {},
                }
            }
        },
        Err(_) => {},
    }
}

pub proof fn lemma_more_emit_arith(
    c: Ctx,
    all: Ctx,
    b: Bound,
    op: ArithOp,
    width: Width,
    dst: Place,
    lhs: Src,
    rhs: Src,
)
    requires
        more(c, all),
        !asks(emit_arith_spec(c, b, op, width, dst, lhs, rhs)),
    ensures
        emit_arith_spec(
            all,
            b,
            op,
            width,
            dst,
            lhs,
            rhs,
        ) == emit_arith_spec(c, b, op, width, dst, lhs, rhs),
{
    reveal(emit_arith_spec);
    match dst {
        Place::Reg(_) => {
        },
        Place::Val(t) => {
            lemma_more_arith_into(c, all, b, op, width, lhs, rhs);
            match arith_into_spec(c, b, op, width, lhs, rhs) {
                Ok((b, d)) => {
                    lemma_more_define_temp_reg(c, all, b, t.0, d);
                },
                Err(_) => {},
            }
        },
    }
}

pub proof fn lemma_more_emit_cmp(c: Ctx, all: Ctx, b: Bound, width: Width, lhs: Src, rhs: Src)
    requires
        more(c, all),
        !asks(emit_cmp_spec(c, b, width, lhs, rhs)),
    ensures
        emit_cmp_spec(all, b, width, lhs, rhs) == emit_cmp_spec(c, b, width, lhs, rhs),
{
    reveal(emit_cmp_spec);
    lemma_more_wide_imm(c, all, b, width, rhs, Exclude::Nothing);
    match wide_imm_spec(c, b, width, rhs, Exclude::Nothing) {
        Ok((b, r)) => {
            lemma_more_rmi_of(c, all, b, lhs);
            match rmi_of_spec(c, b, lhs) {
                Ok((b, l)) => {
                    match l {
                        Rmi::Reg(g) => {
                        },
                        Rmi::Mem(m) => {
                            match r {
                                Rmi::Mem(_) => {
                                    lemma_more_scratch(c, all, b, Exclude::Nothing);
                                },
                                _ => {
                                },
                            }
                        },
                        Rmi::Imm(_) => {
                            lemma_more_scratch(c, all, b, exclude_reg(r));
                        },
                    }
                },
                Err(_) => {},
            }
        },
        Err(_) => {},
    }
}

pub proof fn lemma_more_emit_divide(
    c: Ctx,
    all: Ctx,
    b: Bound,
    width: Width,
    divisor: Src,
    signed: bool,
)
    requires
        more(c, all),
        !asks(emit_divide_spec(c, b, width, divisor, signed)),
    ensures
        emit_divide_spec(
            all,
            b,
            width,
            divisor,
            signed,
        ) == emit_divide_spec(c, b, width, divisor, signed),
{
    reveal(emit_divide_spec);
    lemma_more_run_moves(c, all, b, Request::Clobber(Gpr::Rax.phys()));
    match run_moves_spec(c, b, Request::Clobber(Gpr::Rax.phys())) {
        Ok((b, _)) => {
            lemma_more_run_moves(c, all, b, Request::Clobber(Gpr::Rdx.phys()));
            match run_moves_spec(c, b, Request::Clobber(Gpr::Rdx.phys())) {
                Ok((b, _)) => {
                    lemma_more_rm_of(
                        c,
                        all,
                        b,
                        divisor,
                        width,
                        Exclude::Two(Gpr::Rax.phys(), Gpr::Rdx.phys()),
                    );
                },
                Err(_) => {},
            }
        },
        Err(_) => {},
    }
}

pub proof fn lemma_more_emit_call_lookup(
    c: Ctx,
    all: Ctx,
    b: Bound,
    method: Option<MethodHandle>,
    addr: Option<u64>,
    slot: Option<u64>,
)
    requires
        more(c, all),
        !asks(emit_call_lookup_spec(c, b, method, addr, slot)),
    ensures
        emit_call_lookup_spec(
            all,
            b,
            method,
            addr,
            slot,
        ) == emit_call_lookup_spec(c, b, method, addr, slot),
{
    reveal(emit_call_lookup_spec);
    lemma_more_run_moves(c, all, b, Request::SpillRegisters);
}

pub proof fn lemma_more_emit_call(c: Ctx, all: Ctx, b: Bound, method: MethodHandle)
    requires
        more(c, all),
        !asks(emit_call_spec(c, b, method)),
    ensures
        emit_call_spec(all, b, method) == emit_call_spec(c, b, method),
{
    reveal(emit_call_spec);
    lemma_more_lookup(c, all, b, Request::EntryPoint(method));
    match lookup_spec(c, b, Request::EntryPoint(method)) {
        Ok((b, target)) => {
            lemma_more_emit_call_lookup(c, all, b, Some(method), target.addr, target.slot);
        },
        Err(_) => {},
    }
}

pub proof fn lemma_more_emit_helper_call(c: Ctx, all: Ctx, b: Bound, id: CorInfoHelpFunc)
    requires
        more(c, all),
        !asks(emit_helper_call_spec(c, b, id)),
    ensures
        emit_helper_call_spec(all, b, id) == emit_helper_call_spec(c, b, id),
{
    reveal(emit_helper_call_spec);
    lemma_more_lookup(c, all, b, Request::HelperEntry(id));
    match lookup_spec(c, b, Request::HelperEntry(id)) {
        Ok((b, target)) => {
            lemma_more_emit_call_lookup(c, all, b, None, target.addr, target.slot);
        },
        Err(_) => {},
    }
}

pub proof fn lemma_more_emit_float_inst(c: Ctx, all: Ctx, b: Bound, inst: Inst)
    requires
        more(c, all),
        !asks(emit_float_inst_spec(c, b, inst)),
    ensures
        emit_float_inst_spec(all, b, inst) == emit_float_inst_spec(c, b, inst),
{
    reveal(emit_float_inst_spec);
    match inst {
        Inst::ConstF { width, dst, bits } => {
            lemma_more_emit_const_f(c, all, b, width, dst, bits);
        },
        Inst::MovF { width, dst, src } => {
            lemma_more_emit_mov_f(c, all, b, width, dst, src);
        },
        Inst::ArithF { op, width, dst, lhs, rhs } => {
            lemma_more_emit_arith_f(c, all, b, op, width, dst, lhs, rhs);
        },
        Inst::NegF { width, dst, src } => {
            lemma_more_emit_neg_f(c, all, b, width, dst, src);
        },
        Inst::CmpF { width, lhs, rhs } => {
            lemma_more_emit_cmp_f(c, all, b, width, lhs, rhs);
        },
        Inst::SetccF { op, dst } => {
            lemma_more_emit_setcc_f(c, all, b, op, dst);
        },
        Inst::JccF { op, target } => {
            lemma_more_emit_jcc_f(c, all, b, op, target);
        },
        Inst::CvtIntToF { width, src_w64, dst, src } => {
            lemma_more_emit_cvt_int_to_f(c, all, b, width, src_w64, dst, src);
        },
        Inst::CvtFToInt { src_width, dst_w64, dst, src } => {
            lemma_more_emit_cvt_f_to_int(c, all, b, src_width, dst_w64, dst, src);
        },
        Inst::CvtFToF { to, dst, src } => {
            lemma_more_emit_cvt_f_to_f(c, all, b, to, dst, src);
        },
        _ => {
        },
    }
}

pub proof fn lemma_more_emit_plain_inst(c: Ctx, all: Ctx, b: Bound, inst: Inst)
    requires
        more(c, all),
        !asks(emit_plain_inst_spec(c, b, inst)),
    ensures
        emit_plain_inst_spec(all, b, inst) == emit_plain_inst_spec(c, b, inst),
{
    reveal(emit_plain_inst_spec);
    match inst {
        Inst::Cdq { width } => {
            lemma_more_run_moves(c, all, b, Request::Clobber(Gpr::Rdx.phys()));
        },
        Inst::Jcc { cc, target } => {
        },
        Inst::Jmp { target } => {
        },
        Inst::Push { reg } => {
        },
        Inst::AllocFrame => {
        },
        Inst::Leave => {
        },
        Inst::Ret => {
        },
        _ => {
        },
    }
}

pub proof fn lemma_more_emit_inst(c: Ctx, all: Ctx, b: Bound, inst: Inst)
    requires
        more(c, all),
        !asks(emit_inst_spec(c, b, inst)),
    ensures
        emit_inst_spec(all, b, inst) == emit_inst_spec(c, b, inst),
{
    match inst {
        Inst::Mov { width, dst, src } => {
            lemma_more_emit_mov(c, all, b, width, dst, src);
        },
        Inst::Lea { dst, addr } => {
            lemma_more_emit_lea(c, all, b, dst, addr);
        },
        Inst::Arith { op, width, dst, lhs, rhs } => {
            lemma_more_emit_arith(c, all, b, op, width, dst, lhs, rhs);
        },
        Inst::Idiv { width, divisor } => {
            lemma_more_emit_divide(c, all, b, width, divisor, true);
        },
        Inst::Div { width, divisor } => {
            lemma_more_emit_divide(c, all, b, width, divisor, false);
        },
        Inst::Shift { op, width, dst, lhs, rhs } => {
            lemma_more_emit_shift(c, all, b, op, width, dst, lhs, rhs);
        },
        Inst::Unary { op, width, dst, src } => {
            lemma_more_emit_unary(c, all, b, op, width, dst, src);
        },
        Inst::Setcc { cc, dst } => {
            lemma_more_emit_setcc(c, all, b, cc, dst);
        },
        Inst::MovExt { dst, src, signed } => {
            lemma_more_emit_movext(c, all, b, dst, src, signed);
        },
        Inst::Cmp { width, lhs, rhs } => {
            lemma_more_emit_cmp(c, all, b, width, lhs, rhs);
        },
        Inst::CallDirect { method } => {
            lemma_more_emit_call(c, all, b, method);
        },
        Inst::CallHelper { id } => {
            lemma_more_emit_helper_call(c, all, b, id);
        },
        Inst::ConstF { .. }
        | Inst::MovF { .. }
        | Inst::ArithF { .. }
        | Inst::NegF { .. }
        | Inst::CmpF { .. }
        | Inst::SetccF { .. }
        | Inst::JccF { .. }
        | Inst::CvtIntToF { .. }
        | Inst::CvtFToInt { .. }
        | Inst::CvtFToF { .. } => {
            lemma_more_emit_float_inst(c, all, b, inst);
        },
        Inst::Cdq { .. }
        | Inst::Jcc { .. }
        | Inst::Jmp { .. }
        | Inst::Push { .. }
        | Inst::AllocFrame
        | Inst::Leave
        | Inst::Ret => {
            lemma_more_emit_plain_inst(c, all, b, inst);
        },
        _ => {
        },
    }
}

} // verus!
