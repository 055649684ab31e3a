//! Which statements are lowered.
//!
//! A statement whose operands and destination have the types that it is for is never
//! refused. What its instructions then do is said elsewhere.

use crate::inst::Width;
use crate::ir::{
    BinaryOp, BlockId, BranchCond, ClassHandle, LocalId, MemAccess, Operand, StmtKind, Type,
    UnaryOp,
};
use crate::lower::{
    arith_f_rule, arith_ovf_rule, arith_rule, block_copy_dyn_rule, block_copy_rule,
    block_fill_dyn_rule, block_zero_rule, bounds_check_rule, branch_compare_f_rule,
    branch_compare_rule, branch_truth_rule, ckfinite_rule, compare_value_f_rule, compare_value_rule,
    conv_ext_rule, conv_f_to_f_rule, conv_f_to_i_rule, conv_i_to_f_rule, conv_ovf_rule,
    conv_trunc_rule, conv_u64_to_f_rule, copy_addr_of_rule, copy_const_f_rule, copy_const_rule,
    copy_value_f_rule, copy_value_rule, divide_rule, divide_unsigned_rule, load_mem_f_rule,
    load_mem_narrow_rule, load_mem_rule, loc_alloc_rule, lowering, neg_f_rule, null_check_rule,
    return_value_f_rule, return_value_rule, shift_rule, store_mem_f_rule, store_mem_narrow_rule,
    store_mem_rule, switch_rule, throw_exception_rule, unary_rule, Cx,
};
use crate::meaning::{fractional, type_of_operand, whole};
use vstd::prelude::*;

verus! {

/// The local exists.
pub open spec fn exists_in(cx: &Cx, id: LocalId) -> bool {
    id.0 < cx.locals@.len()
}

/// The local is an integer or a pointer.
pub open spec fn whole_local(cx: &Cx, id: LocalId) -> bool {
    exists_in(cx, id) && whole(cx.locals@[id.0 as int].ty) is Some
}

pub open spec fn float_local(cx: &Cx, id: LocalId) -> bool {
    exists_in(cx, id) && fractional(cx.locals@[id.0 as int].ty) is Some
}

/// The operand is an integer or a pointer, and no address of a local.
pub open spec fn whole_operand(cx: &Cx, op: Operand) -> bool {
    match op {
        Operand::Temp(id) | Operand::Local(id) => whole_local(cx, id),
        Operand::Const(_) => whole(type_of_operand(cx, op)) is Some,
        Operand::AddrOf(_) => false,
    }
}

pub open spec fn float_operand(cx: &Cx, op: Operand) -> bool {
    match op {
        Operand::Temp(id) | Operand::Local(id) => float_local(cx, id),
        Operand::Const(_) => fractional(type_of_operand(cx, op)) is Some,
        Operand::AddrOf(_) => false,
    }
}

/// The operand says where a block of memory is.
pub open spec fn block_operand(op: Operand) -> bool {
    !(op is Const)
}

pub open spec fn compares_values(op: BinaryOp) -> bool {
    match op {
        BinaryOp::Eq
        | BinaryOp::Ne
        | BinaryOp::Lt
        | BinaryOp::Le
        | BinaryOp::Gt
        | BinaryOp::Ge
        | BinaryOp::ULt
        | BinaryOp::ULe
        | BinaryOp::UGt
        | BinaryOp::UGe => true,
        _ => false,
    }
}

/// A value goes to a local of its kind, and an address to any.
pub proof fn law_copies_are_lowered(cx: &Cx, dst: LocalId, src: Operand)
    ensures
        lowering(StmtKind::Copy { dst, src }, cx) is Some <== {
            ||| src is AddrOf
            ||| whole_local(cx, dst) && whole_operand(cx, src)
            ||| float_local(cx, dst) && float_operand(cx, src)
        },
{
    reveal(copy_const_rule);
    reveal(copy_const_f_rule);
    reveal(copy_addr_of_rule);
    reveal(copy_value_rule);
    reveal(copy_value_f_rule);
}

/// A cell of any size and kind is loaded.
pub proof fn law_loads_are_lowered(
    cx: &Cx,
    dst: LocalId,
    addr: Operand,
    offset: u32,
    ty: Type,
    access: MemAccess,
)
    ensures
        lowering(StmtKind::Load { dst, addr, offset, ty, access }, cx) is Some <== {
            &&& whole_operand(cx, addr)
            &&& whole(ty) is Some || fractional(ty) is Some || !(access is Natural)
        },
{
    reveal(load_mem_rule);
    reveal(load_mem_f_rule);
    reveal(load_mem_narrow_rule);
}

pub proof fn law_stores_are_lowered(
    cx: &Cx,
    addr: Operand,
    offset: u32,
    src: Operand,
    access: MemAccess,
)
    ensures
        lowering(StmtKind::Store { addr, offset, src, access }, cx) is Some <== {
            &&& whole_operand(cx, addr)
            &&& whole_operand(cx, src) || float_operand(cx, src) && access is Natural
        },
{
    reveal(store_mem_rule);
    reveal(store_mem_f_rule);
    reveal(store_mem_narrow_rule);
}

pub proof fn law_checks_are_lowered(cx: &Cx, arg: Operand, array: Operand, index: Operand)
    ensures
        whole_operand(cx, arg) ==> lowering(StmtKind::NullCheck { arg }, cx) is Some,
        whole_operand(cx, array) && whole_operand(cx, index) ==> lowering(
            StmtKind::BoundsCheck { array, index },
            cx,
        ) is Some,
{
    reveal(null_check_rule);
    reveal(bounds_check_rule);
}

/// Every operator on integers, every comparison, and the arithmetic of floats.
pub proof fn law_operators_are_lowered(
    cx: &Cx,
    dst: LocalId,
    op: BinaryOp,
    lhs: Operand,
    rhs: Operand,
)
    ensures
        lowering(StmtKind::Binary { dst, op, lhs, rhs }, cx) is Some <== {
            ||| {
                &&& whole_local(cx, dst)
                &&& whole_operand(cx, lhs) && whole_operand(cx, rhs)
                &&& !(op is MinF) && !(op is MaxF)
            }
            ||| {
                &&& whole_local(cx, dst)
                &&& float_operand(cx, lhs) && float_operand(cx, rhs)
                &&& compares_values(op)
            }
            ||| {
                &&& float_local(cx, dst)
                &&& float_operand(cx, lhs) && float_operand(cx, rhs)
                &&& op is Add || op is Sub || op is Mul || op is Div
            }
        },
{
    reveal(arith_rule);
    reveal(arith_f_rule);
    reveal(divide_rule);
    reveal(divide_unsigned_rule);
    reveal(shift_rule);
    reveal(compare_value_rule);
    reveal(compare_value_f_rule);
}

/// Checked sums, differences and products; negations and complements.
pub proof fn law_checked_and_unary_operators_are_lowered(
    cx: &Cx,
    dst: LocalId,
    op: BinaryOp,
    unsigned: bool,
    lhs: Operand,
    rhs: Operand,
    unary: UnaryOp,
)
    ensures
        lowering(StmtKind::BinaryOvf { dst, op, unsigned, lhs, rhs }, cx) is Some <== {
            &&& whole_local(cx, dst)
            &&& whole_operand(cx, lhs) && whole_operand(cx, rhs)
            &&& op is Add || op is Sub || op is Mul
        },
        lowering(StmtKind::Unary { dst, op: unary, src: lhs }, cx) is Some <== {
            ||| whole_local(cx, dst) && whole_operand(cx, lhs) && (unary is Neg || unary is Not)
            ||| float_local(cx, dst) && float_operand(cx, lhs) && unary is Neg
        },
{
    reveal(arith_ovf_rule);
    reveal(unary_rule);
    reveal(neg_f_rule);
}

/// Integers to the other width, to floats and back, and floats to the other width.
pub proof fn law_conversions_are_lowered(
    cx: &Cx,
    dst: LocalId,
    to: Type,
    overflow: bool,
    unsigned: bool,
    src: Operand,
)
    ensures
        lowering(StmtKind::Conv { dst, to, overflow, unsigned, src }, cx) is Some <== {
            let from = type_of_operand(cx, src);
            let wide = to is Int64 || to is NativeInt;
            ||| whole_operand(cx, src) && whole(from) == Some(Width::W64) && to is Int32
            ||| whole_operand(cx, src) && whole(from) == Some(Width::W32) && wide
            ||| whole_operand(cx, src) && whole(from) == Some(Width::W64) && fractional(to) is Some
            ||| whole_operand(cx, src) && fractional(to) is Some && !unsigned
            ||| float_operand(cx, src) && (to is Int32 || wide)
            ||| {
                &&& float_operand(cx, src)
                &&& fractional(to) is Some && fractional(from) != fractional(to)
            }
        },
{
    reveal(conv_trunc_rule);
    reveal(conv_ext_rule);
    reveal(conv_u64_to_f_rule);
    reveal(conv_i_to_f_rule);
    reveal(conv_f_to_i_rule);
    reveal(conv_f_to_f_rule);
}

pub proof fn law_checked_conversions_are_lowered(
    cx: &Cx,
    dst: LocalId,
    dst_bits: u8,
    signed_dst: bool,
    unsigned_src: bool,
    src: Operand,
)
    ensures
        whole_operand(cx, src) ==> lowering(
            StmtKind::ConvOvf { dst, dst_bits, signed_dst, unsigned_src, src },
            cx,
        ) is Some,
        float_operand(cx, src) ==> lowering(StmtKind::CkFinite { dst, src }, cx) is Some,
{
    reveal(conv_ovf_rule);
    reveal(ckfinite_rule);
}

/// Branches on every comparison of two integers or two floats, and on a truth; switches;
/// and throws.
pub proof fn law_branches_are_lowered(
    cx: &Cx,
    op: BinaryOp,
    lhs: Operand,
    rhs: Operand,
    target: BlockId,
)
    ensures
        lowering(
            StmtKind::Branch { cond: BranchCond::Cmp { op, lhs, rhs }, target },
            cx,
        ) is Some <== {
            &&& compares_values(op)
            &&& {
                ||| whole_operand(cx, lhs) && whole_operand(cx, rhs)
                ||| float_operand(cx, lhs) && float_operand(cx, rhs)
            }
        },
        whole_operand(cx, lhs) ==> {
            &&& lowering(StmtKind::Branch { cond: BranchCond::True(lhs), target }, cx) is Some
            &&& lowering(StmtKind::Branch { cond: BranchCond::False(lhs), target }, cx) is Some
            &&& lowering(StmtKind::Throw { exception: lhs }, cx) is Some
            &&& switch_rule(lhs, seq![target], target) is Some
        },
{
    reveal(branch_compare_rule);
    reveal(branch_compare_f_rule);
    reveal(branch_truth_rule);
    reveal(throw_exception_rule);
}

/// Blocks of memory, of a struct's size or of a size known late.
pub proof fn law_block_operations_are_lowered(
    cx: &Cx,
    dst: LocalId,
    dst_addr: Operand,
    dst_offset: u32,
    src_addr: Operand,
    class: ClassHandle,
    fill: Operand,
    size: Operand,
)
    ensures
        block_operand(dst_addr) && block_operand(src_addr) && cx.layout_of(class) is Some
            ==> lowering(StmtKind::BlockCopy { dst_addr, dst_offset, src_addr, class }, cx) is Some,
        block_operand(dst_addr) && cx.layout_of(class) is Some ==> lowering(
            StmtKind::BlockZero { dst_addr, class },
            cx,
        ) is Some,
        block_operand(dst_addr) && block_operand(src_addr) && whole_operand(cx, size) ==> lowering(
            StmtKind::BlockCopyDyn { dst_addr, src_addr, size },
            cx,
        ) is Some,
        block_operand(dst_addr) && whole_operand(cx, fill) && whole_operand(cx, size) ==> lowering(
            StmtKind::BlockFillDyn { dst_addr, fill, size },
            cx,
        ) is Some,
        whole_operand(cx, size) ==> lowering(StmtKind::LocAlloc { dst, size }, cx) is Some,
{
    reveal(block_copy_rule);
    reveal(block_zero_rule);
    reveal(block_copy_dyn_rule);
    reveal(block_fill_dyn_rule);
    reveal(loc_alloc_rule);
}

/// A return of nothing, of an integer, of a pointer or of a float.
pub proof fn law_returns_are_lowered(cx: &Cx, v: Operand)
    ensures
        lowering(StmtKind::Return { value: None }, cx) is Some,
        whole_operand(cx, v) || float_operand(cx, v) ==> lowering(
            StmtKind::Return { value: Some(v) },
            cx,
        ) is Some,
{
    reveal(return_value_rule);
    reveal(return_value_f_rule);
}

} // verus!
