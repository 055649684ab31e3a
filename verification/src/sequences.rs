//! What holds of the instructions of every statement.

use crate::abi::{
    all_args, classify_error, law_args_are_in_argument_registers, layout_of_type, location_of,
    return_location, state_after, uses_reg,
};
use crate::codegen::is_edge;
use crate::inst::{CondCode, Inst, Place, Src, Width};
use crate::ir::{
    BinaryOp, BlockId, BranchCond, CallSig, CallTarget, ClassHandle, Label, LocalId, MemAccess,
    Operand, StmtKind, StructLayout, Type, UnaryOp,
};
use crate::lower::{
    arg_move_rule, arg_setup, arg_setups, arith_f_rule, arith_ovf_rule, arith_rule,
    block_copy_dyn_rule, block_copy_rule, block_fill_dyn_rule, block_zero_rule, bounds_check_rule,
    branch_compare_f_rule, branch_compare_rule, branch_truth_rule, call_rule, ckfinite_rule,
    compare_value_f_rule, compare_value_rule, conv_ext_rule, conv_f_to_f_rule, conv_f_to_i_rule,
    conv_i_to_f_rule, conv_ovf_rule, conv_trunc_rule, conv_u64_to_f_rule, copy_addr_of_rule,
    copy_const_f_rule, copy_const_rule, copy_value_f_rule, copy_value_rule, divide_rule,
    divide_unsigned_rule, load_mem_f_rule, load_mem_narrow_rule, load_mem_rule, loc_alloc_rule,
    lowering, neg_f_rule, null_check_rule, operand_fwidth, operand_src, passed_args,
    result_move_rule, return_struct_rule, return_value_f_rule, return_value_rule, shift_rule,
    store_mem_f_rule, store_mem_narrow_rule, store_mem_rule, switch_cases, throw_exception_rule,
    unary_rule, Cx,
};
use crate::regs::{Gpr, INT_RETURN_REGS};
use crate::spare::{inst_spares, phys_spares};
use crate::target::{ArgLocation, PhysReg, StructRegs};
use vstd::prelude::*;

verus! {

/// The instruction reads the flags of an integer comparison.
pub open spec fn reads_int_flags(inst: Inst) -> bool {
    inst is Jcc || inst is Setcc
}

/// The instruction reads the flags of a float comparison.
pub open spec fn reads_float_flags(inst: Inst) -> bool {
    inst is JccF || inst is SetccF
}

/// Every instruction that reads flags stands directly behind the comparison that
/// sets them.
pub open spec fn flags_adjacent(insts: Seq<Inst>) -> bool {
    forall|i: int|
        0 <= i < insts.len() ==> {
            &&& reads_int_flags(#[trigger] insts[i]) ==> i > 0 && insts[i - 1] is Cmp
            &&& reads_float_flags(insts[i]) ==> i > 0 && insts[i - 1] is CmpF
        }
}

/// No instruction names a callee-saved register.
pub open spec fn all_spare(insts: Seq<Inst>) -> bool {
    forall|i: int| 0 <= i < insts.len() ==> inst_spares(#[trigger] insts[i])
}

/// No instruction undoes the frame or returns.
pub open spec fn stays(insts: Seq<Inst>) -> bool {
    forall|i: int|
        0 <= i < insts.len() ==> !((#[trigger] insts[i]) is Leave) && !(insts[i] is Ret)
}

/// No instruction calls a method.
pub open spec fn calls_no_method(insts: Seq<Inst>) -> bool {
    forall|i: int| 0 <= i < insts.len() ==> !((#[trigger] insts[i]) is CallDirect)
}

/// What holds of every statement but a return.
spec fn well_made(s: Option<Seq<Inst>>) -> bool {
    s is Some ==> flags_adjacent(s->0) && all_spare(s->0) && stays(s->0)
}

/// What holds of every statement but a call or a return.
spec fn local(s: Option<Seq<Inst>>) -> bool {
    well_made(s) && (s is Some ==> calls_no_method(s->0))
}

/// The instruction leads to a block of the method.
pub open spec fn jumps(inst: Inst) -> bool {
    inst is Jmp || inst is Jcc || inst is JccF || inst is CallLabel
}

/// No instruction leads to a block.
pub open spec fn never_jumps(insts: Seq<Inst>) -> bool {
    forall|i: int| 0 <= i < insts.len() ==> !jumps(#[trigger] insts[i])
}

/// What holds of every statement but an edge, a call or a return.
spec fn straight(s: Option<Seq<Inst>>) -> bool {
    local(s) && (s is Some ==> never_jumps(s->0))
}

proof fn lemma_copy_const(dst: LocalId, src: Operand)
    ensures
        straight(copy_const_rule(dst, src)),
{
    reveal(copy_const_rule);
}

proof fn lemma_copy_const_f(cx: &Cx, dst: LocalId, src: Operand)
    ensures
        straight(copy_const_f_rule(cx, dst, src)),
{
    reveal(copy_const_f_rule);
}

proof fn lemma_copy_addr_of(dst: LocalId, src: Operand)
    ensures
        straight(copy_addr_of_rule(dst, src)),
{
    reveal(copy_addr_of_rule);
}

proof fn lemma_copy_value(cx: &Cx, dst: LocalId, src: Operand)
    ensures
        straight(copy_value_rule(cx, dst, src)),
{
    reveal(copy_value_rule);
}

proof fn lemma_copy_value_f(cx: &Cx, dst: LocalId, src: Operand)
    ensures
        straight(copy_value_f_rule(cx, dst, src)),
{
    reveal(copy_value_f_rule);
}

proof fn lemma_load_mem(dst: LocalId, addr: Operand, offset: u32, ty: Type, access: MemAccess)
    ensures
        straight(load_mem_rule(dst, addr, offset, ty, access)),
{
    reveal(load_mem_rule);
}

proof fn lemma_load_mem_f(dst: LocalId, addr: Operand, offset: u32, ty: Type, access: MemAccess)
    ensures
        straight(load_mem_f_rule(dst, addr, offset, ty, access)),
{
    reveal(load_mem_f_rule);
}

proof fn lemma_load_mem_narrow(dst: LocalId, addr: Operand, offset: u32, access: MemAccess)
    ensures
        straight(load_mem_narrow_rule(dst, addr, offset, access)),
{
    reveal(load_mem_narrow_rule);
}

proof fn lemma_store_mem(cx: &Cx, addr: Operand, offset: u32, src: Operand, access: MemAccess)
    ensures
        straight(store_mem_rule(cx, addr, offset, src, access)),
{
    reveal(store_mem_rule);
}

proof fn lemma_store_mem_f(cx: &Cx, addr: Operand, offset: u32, src: Operand, access: MemAccess)
    ensures
        straight(store_mem_f_rule(cx, addr, offset, src, access)),
{
    reveal(store_mem_f_rule);
}

proof fn lemma_store_mem_narrow(addr: Operand, offset: u32, src: Operand, access: MemAccess)
    ensures
        straight(store_mem_narrow_rule(addr, offset, src, access)),
{
    reveal(store_mem_narrow_rule);
}

proof fn lemma_null_check(arg: Operand)
    ensures
        straight(null_check_rule(arg)),
{
    reveal(null_check_rule);
}

proof fn lemma_bounds_check(cx: &Cx, array: Operand, index: Operand)
    ensures
        straight(bounds_check_rule(cx, array, index)),
{
    reveal(bounds_check_rule);
}

proof fn lemma_arith(cx: &Cx, dst: LocalId, op: BinaryOp, lhs: Operand, rhs: Operand)
    ensures
        straight(arith_rule(cx, dst, op, lhs, rhs)),
{
    reveal(arith_rule);
}

proof fn lemma_arith_f(cx: &Cx, dst: LocalId, op: BinaryOp, lhs: Operand, rhs: Operand)
    ensures
        straight(arith_f_rule(cx, dst, op, lhs, rhs)),
{
    reveal(arith_f_rule);
}

proof fn lemma_divide(cx: &Cx, dst: LocalId, op: BinaryOp, lhs: Operand, rhs: Operand)
    ensures
        straight(divide_rule(cx, dst, op, lhs, rhs)),
{
    reveal(divide_rule);
}

proof fn lemma_divide_unsigned(cx: &Cx, dst: LocalId, op: BinaryOp, lhs: Operand, rhs: Operand)
    ensures
        straight(divide_unsigned_rule(cx, dst, op, lhs, rhs)),
{
    reveal(divide_unsigned_rule);
}

proof fn lemma_arith_ovf(
    cx: &Cx,
    dst: LocalId,
    op: BinaryOp,
    unsigned: bool,
    lhs: Operand,
    rhs: Operand,
)
    ensures
        straight(arith_ovf_rule(cx, dst, op, unsigned, lhs, rhs)),
{
    reveal(arith_ovf_rule);
}

proof fn lemma_conv_ovf(
    cx: &Cx,
    dst: LocalId,
    dst_bits: u8,
    signed_dst: bool,
    unsigned_src: bool,
    src: Operand,
)
    ensures
        straight(conv_ovf_rule(cx, dst, dst_bits, signed_dst, unsigned_src, src)),
{
    reveal(conv_ovf_rule);
}

proof fn lemma_ckfinite(cx: &Cx, dst: LocalId, src: Operand)
    ensures
        straight(ckfinite_rule(cx, dst, src)),
{
    reveal(ckfinite_rule);
}

proof fn lemma_shift(cx: &Cx, dst: LocalId, op: BinaryOp, lhs: Operand, rhs: Operand)
    ensures
        straight(shift_rule(cx, dst, op, lhs, rhs)),
{
    reveal(shift_rule);
}

proof fn lemma_unary(cx: &Cx, dst: LocalId, op: UnaryOp, src: Operand)
    ensures
        straight(unary_rule(cx, dst, op, src)),
{
    reveal(unary_rule);
}

proof fn lemma_neg_f(cx: &Cx, dst: LocalId, op: UnaryOp, src: Operand)
    ensures
        straight(neg_f_rule(cx, dst, op, src)),
{
    reveal(neg_f_rule);
}

proof fn lemma_compare_value(cx: &Cx, dst: LocalId, op: BinaryOp, lhs: Operand, rhs: Operand)
    ensures
        straight(compare_value_rule(cx, dst, op, lhs, rhs)),
{
    reveal(compare_value_rule);
}

proof fn lemma_compare_value_f(cx: &Cx, dst: LocalId, op: BinaryOp, lhs: Operand, rhs: Operand)
    ensures
        straight(compare_value_f_rule(cx, dst, op, lhs, rhs)),
{
    reveal(compare_value_f_rule);
}

proof fn lemma_conv_trunc(cx: &Cx, dst: LocalId, to: Type, unsigned: bool, src: Operand)
    ensures
        straight(conv_trunc_rule(cx, dst, to, unsigned, src)),
{
    reveal(conv_trunc_rule);
}

proof fn lemma_conv_ext(cx: &Cx, dst: LocalId, to: Type, unsigned: bool, src: Operand)
    ensures
        straight(conv_ext_rule(cx, dst, to, unsigned, src)),
{
    reveal(conv_ext_rule);
}

proof fn lemma_conv_u64_to_f(cx: &Cx, dst: LocalId, to: Type, unsigned: bool, src: Operand)
    ensures
        straight(conv_u64_to_f_rule(cx, dst, to, unsigned, src)),
{
    reveal(conv_u64_to_f_rule);
}

proof fn lemma_conv_i_to_f(cx: &Cx, dst: LocalId, to: Type, unsigned: bool, src: Operand)
    ensures
        straight(conv_i_to_f_rule(cx, dst, to, unsigned, src)),
{
    reveal(conv_i_to_f_rule);
}

proof fn lemma_conv_f_to_i(cx: &Cx, dst: LocalId, to: Type, unsigned: bool, src: Operand)
    ensures
        straight(conv_f_to_i_rule(cx, dst, to, unsigned, src)),
{
    reveal(conv_f_to_i_rule);
}

proof fn lemma_conv_f_to_f(cx: &Cx, dst: LocalId, to: Type, unsigned: bool, src: Operand)
    ensures
        straight(conv_f_to_f_rule(cx, dst, to, unsigned, src)),
{
    reveal(conv_f_to_f_rule);
}

proof fn lemma_branch_compare(cx: &Cx, op: BinaryOp, lhs: Operand, rhs: Operand, target: BlockId)
    ensures
        local(branch_compare_rule(cx, op, lhs, rhs, target)),
{
    reveal(branch_compare_rule);
}

proof fn lemma_branch_compare_f(cx: &Cx, op: BinaryOp, lhs: Operand, rhs: Operand, target: BlockId)
    ensures
        local(branch_compare_f_rule(cx, op, lhs, rhs, target)),
{
    reveal(branch_compare_f_rule);
}

proof fn lemma_branch_truth(cx: &Cx, v: Operand, cc: CondCode, target: BlockId)
    ensures
        local(branch_truth_rule(cx, v, cc, target)),
{
    reveal(branch_truth_rule);
}

proof fn lemma_throw_exception(exception: Operand)
    ensures
        straight(throw_exception_rule(exception)),
{
    reveal(throw_exception_rule);
}

proof fn lemma_block_copy(
    cx: &Cx,
    dst_addr: Operand,
    dst_offset: u32,
    src_addr: Operand,
    class: ClassHandle,
)
    ensures
        straight(block_copy_rule(cx, dst_addr, dst_offset, src_addr, class)),
{
    reveal(block_copy_rule);
}

proof fn lemma_block_zero(cx: &Cx, dst_addr: Operand, class: ClassHandle)
    ensures
        straight(block_zero_rule(cx, dst_addr, class)),
{
    reveal(block_zero_rule);
}

proof fn lemma_block_copy_dyn(dst_addr: Operand, src_addr: Operand, size: Operand)
    ensures
        straight(block_copy_dyn_rule(dst_addr, src_addr, size)),
{
    reveal(block_copy_dyn_rule);
}

proof fn lemma_block_fill_dyn(dst_addr: Operand, fill: Operand, size: Operand)
    ensures
        straight(block_fill_dyn_rule(dst_addr, fill, size)),
{
    reveal(block_fill_dyn_rule);
}

proof fn lemma_loc_alloc(dst: LocalId, size: Operand)
    ensures
        straight(loc_alloc_rule(dst, size)),
{
    reveal(loc_alloc_rule);
}

proof fn lemma_switch(s: Src, targets: Seq<BlockId>, n: nat)
    requires
        !(s is Reg),
    ensures
        local(Some(switch_cases(s, targets, n))),
    decreases n,
{
    if n > 0 {
        lemma_switch(s, targets, (n - 1) as nat);
    }
}

/// The registers of an argument or a result are no callee-saved ones.
spec fn location_spares(loc: ArgLocation) -> bool {
    forall|reg: PhysReg| #[trigger] uses_reg(loc, reg) ==> phys_spares(reg)
}

/// The moves of one argument, or of a result: neither reads flags nor returns, and
/// reads no register but the one that it has just loaded an address to.
spec fn plain_moves(s: Option<Seq<Inst>>) -> bool {
    s is Some ==> ({
        &&& all_spare(s->0)
        &&& stays(s->0)
        &&& never_jumps(s->0)
        &&& forall|i: int|
            0 <= i < s->0.len() ==> !reads_int_flags(#[trigger] s->0[i]) && !reads_float_flags(
                s->0[i],
            )
    })
}

proof fn lemma_arg_move(cx: &Cx, arg: Operand, loc: ArgLocation)
    requires
        location_spares(loc),
    ensures
        plain_moves(arg_move_rule(cx, arg, loc)),
{
    reveal(arg_move_rule);
    match loc {
        ArgLocation::Reg(reg) => {
            assert(uses_reg(loc, reg));
        },
        ArgLocation::StructRegs(StructRegs::One(a)) => {
            assert(uses_reg(loc, a.reg));
        },
        ArgLocation::StructRegs(StructRegs::Two(a, b)) => {
            assert(uses_reg(loc, a.reg));
            assert(uses_reg(loc, b.reg));
        },
        _ => {},
    }
}

proof fn lemma_result_move(cx: &Cx, ret: Option<ArgLocation>, dst: LocalId)
    requires
        ret is Some ==> location_spares(ret->0),
    ensures
        plain_moves(result_move_rule(cx, ret, dst)),
{
    reveal(result_move_rule);
    if let Some(loc) = ret {
        match loc {
            ArgLocation::Reg(reg) => {
                assert(uses_reg(loc, reg));
            },
            ArgLocation::StructRegs(StructRegs::One(a)) => {
                assert(uses_reg(loc, a.reg));
            },
            ArgLocation::StructRegs(StructRegs::Two(a, b)) => {
                assert(uses_reg(loc, a.reg));
                assert(uses_reg(loc, b.reg));
            },
            _ => {},
        }
    }
}

proof fn lemma_location_spares(types: Seq<Type>, cx: &Cx, i: nat)
    requires
        state_after(types, *cx.layouts, types.len()) is Ok,
        i < types.len(),
    ensures
        location_spares(location_of(types, *cx.layouts, i)),
{
    let loc = location_of(types, *cx.layouts, i);
    assert forall|reg: PhysReg| #[trigger] uses_reg(loc, reg) implies phys_spares(reg) by {
        law_args_are_in_argument_registers(types, *cx.layouts, i, reg);
    }
}

proof fn lemma_return_spares(ty: Type, layout: Option<StructLayout>)
    requires
        return_location(ty, layout) is Ok,
    ensures
        return_location(ty, layout)->Ok_0 is Some ==> location_spares(
            return_location(ty, layout)->Ok_0->0,
        ),
{
    assert(INT_RETURN_REGS[0] == Gpr::Rax && INT_RETURN_REGS[1] == Gpr::Rdx);
    if let Some(loc) = return_location(ty, layout)->Ok_0 {
        assert forall|reg: PhysReg| #[trigger] uses_reg(loc, reg) implies phys_spares(reg) by {}
    }
}

proof fn lemma_arg_setups(cx: &Cx, sig: CallSig, args: Seq<Operand>, n: nat)
    requires
        classify_error(sig, *cx.layouts) is None,
        n <= all_args(sig).len(),
    ensures
        plain_moves(arg_setups(cx, sig, args, n)),
    decreases n,
{
    if n > 0 {
        lemma_arg_setups(cx, sig, args, (n - 1) as nat);
        let loc = location_of(all_args(sig), *cx.layouts, (n - 1) as nat);
        lemma_location_spares(all_args(sig), cx, (n - 1) as nat);
        lemma_arg_move(cx, args[n - 1], loc);
    }
}

proof fn lemma_call(
    cx: &Cx,
    dst: Option<LocalId>,
    sig: CallSig,
    args: Seq<Operand>,
    call: Inst,
)
    requires
        inst_spares(call),
        call is CallDirect || call is CallHelper || call is CallReg,
    ensures
        well_made(call_rule(cx, dst, sig, args, call)),
        call_rule(cx, dst, sig, args, call) is Some ==> never_jumps(
            call_rule(cx, dst, sig, args, call)->0,
        ),
{
    if classify_error(sig, *cx.layouts) is None {
        let ret = return_location(sig.ret, layout_of_type(sig.ret, *cx.layouts));
        lemma_arg_setups(cx, sig, args, passed_args(sig, args));
        lemma_return_spares(sig.ret, layout_of_type(sig.ret, *cx.layouts));
        if let Some(d) = dst {
            lemma_result_move(cx, ret->Ok_0, d);
        }
    }
}

/// The statement returns.
pub open spec fn is_return(kind: StmtKind) -> bool {
    kind is Return || kind is ReturnStruct
}

proof fn lemma_simple(kind: StmtKind, cx: &Cx)
    requires
        !is_return(kind),
    ensures
        well_made(lowering(kind, cx)),
        !(kind is Call) ==> local(lowering(kind, cx)),
        !is_edge(kind) && lowering(kind, cx) is Some ==> never_jumps(lowering(kind, cx)->0),
{
    match kind {
        StmtKind::Copy { dst, src } => {
            lemma_copy_const(dst, src);
            lemma_copy_const_f(cx, dst, src);
            lemma_copy_addr_of(dst, src);
            lemma_copy_value(cx, dst, src);
            lemma_copy_value_f(cx, dst, src);
        },
        StmtKind::Load { dst, addr, offset, ty, access } => {
            lemma_load_mem(dst, addr, offset, ty, access);
            lemma_load_mem_f(dst, addr, offset, ty, access);
            lemma_load_mem_narrow(dst, addr, offset, access);
        },
        StmtKind::Store { addr, offset, src, access } => {
            lemma_store_mem(cx, addr, offset, src, access);
            lemma_store_mem_f(cx, addr, offset, src, access);
            lemma_store_mem_narrow(addr, offset, src, access);
        },
        StmtKind::NullCheck { arg } => {
            lemma_null_check(arg);
        },
        StmtKind::BoundsCheck { array, index } => {
            lemma_bounds_check(cx, array, index);
        },
        StmtKind::Binary { dst, op, lhs, rhs } => {
            lemma_arith(cx, dst, op, lhs, rhs);
            lemma_arith_f(cx, dst, op, lhs, rhs);
            lemma_divide(cx, dst, op, lhs, rhs);
            lemma_divide_unsigned(cx, dst, op, lhs, rhs);
            lemma_shift(cx, dst, op, lhs, rhs);
            lemma_compare_value(cx, dst, op, lhs, rhs);
            lemma_compare_value_f(cx, dst, op, lhs, rhs);
        },
        StmtKind::BinaryOvf { dst, op, unsigned, lhs, rhs } => {
            lemma_arith_ovf(cx, dst, op, unsigned, lhs, rhs);
        },
        StmtKind::Unary { dst, op, src } => {
            lemma_unary(cx, dst, op, src);
            lemma_neg_f(cx, dst, op, src);
        },
        StmtKind::Conv { dst, to, overflow, unsigned, src } => {
            lemma_conv_trunc(cx, dst, to, unsigned, src);
            lemma_conv_ext(cx, dst, to, unsigned, src);
            lemma_conv_u64_to_f(cx, dst, to, unsigned, src);
            lemma_conv_i_to_f(cx, dst, to, unsigned, src);
            lemma_conv_f_to_i(cx, dst, to, unsigned, src);
            lemma_conv_f_to_f(cx, dst, to, unsigned, src);
        },
        StmtKind::ConvOvf { dst, dst_bits, signed_dst, unsigned_src, src } => {
            lemma_conv_ovf(cx, dst, dst_bits, signed_dst, unsigned_src, src);
        },
        StmtKind::CkFinite { dst, src } => {
            lemma_ckfinite(cx, dst, src);
        },
        StmtKind::Branch { cond, target } => match cond {
            BranchCond::Cmp { op, lhs, rhs } => {
                lemma_branch_compare(cx, op, lhs, rhs, target);
                lemma_branch_compare_f(cx, op, lhs, rhs, target);
            },
            BranchCond::True(v) => lemma_branch_truth(cx, v, CondCode::Ne, target),
            BranchCond::False(v) => lemma_branch_truth(cx, v, CondCode::Eq, target),
        },
        StmtKind::Switch { value, targets, default } => {
            if let Some(s) = operand_src(value) {
                lemma_switch(s, targets@, targets@.len());
            }
        },
        StmtKind::Call { dst, target, sig, args } => match target {
            CallTarget::Direct(method) => lemma_call(
                cx,
                dst,
                sig,
                args@,
                Inst::CallDirect { method },
            ),
            CallTarget::Helper(id) => lemma_call(cx, dst, sig, args@, Inst::CallHelper { id }),
            CallTarget::Indirect(addr) => {
                if let Some(t) = operand_src(addr) {
                    lemma_call(cx, dst, sig, args@, Inst::CallReg { target: t });
                }
            },
            CallTarget::Virtual { .. } => {},
        },
        StmtKind::Throw { exception } => {
            lemma_throw_exception(exception);
        },
        StmtKind::BlockCopy { dst_addr, dst_offset, src_addr, class } => {
            lemma_block_copy(cx, dst_addr, dst_offset, src_addr, class);
        },
        StmtKind::BlockZero { dst_addr, class } => {
            lemma_block_zero(cx, dst_addr, class);
        },
        StmtKind::BlockCopyDyn { dst_addr, src_addr, size } => {
            lemma_block_copy_dyn(dst_addr, src_addr, size);
        },
        StmtKind::BlockFillDyn { dst_addr, fill, size } => {
            lemma_block_fill_dyn(dst_addr, fill, size);
        },
        StmtKind::LocAlloc { dst, size } => {
            lemma_loc_alloc(dst, size);
        },
        _ => {},
    }
}

/// What holds of a return.
spec fn returns_well(s: Option<Seq<Inst>>) -> bool {
    s is Some ==> ({
        let insts = s->0;
        let n = insts.len() as int;
        &&& n >= 2
        &&& insts[n - 2] is Leave
        &&& insts[n - 1] is Ret
        &&& all_spare(insts)
        &&& flags_adjacent(insts)
        &&& calls_no_method(insts)
        &&& never_jumps(insts)
        &&& stays(insts.take(n - 2))
    })
}

proof fn lemma_return(kind: StmtKind, cx: &Cx)
    requires
        is_return(kind),
    ensures
        returns_well(lowering(kind, cx)),
{
    match kind {
        StmtKind::Return { value: Some(v) } => {
            reveal(return_value_rule);
            reveal(return_value_f_rule);
        },
        StmtKind::ReturnStruct { addr, class } => {
            reveal(return_struct_rule);
            assert(INT_RETURN_REGS[0] == Gpr::Rax && INT_RETURN_REGS[1] == Gpr::Rdx);
        },
        _ => {},
    }
}

/// Only an edge leads to a block of the method.
pub proof fn lemma_only_edges_jump(kind: StmtKind, cx: &Cx)
    requires
        !is_edge(kind),
    ensures
        lowering(kind, cx) is Some ==> never_jumps(lowering(kind, cx)->0),
{
    if is_return(kind) {
        lemma_return(kind, cx);
    } else {
        lemma_simple(kind, cx);
    }
}

/// Only a call statement calls a method.
pub proof fn lemma_only_calls_call(kind: StmtKind, cx: &Cx)
    requires
        !(kind is Call),
    ensures
        lowering(kind, cx) is Some ==> calls_no_method(lowering(kind, cx)->0),
{
    if is_return(kind) {
        lemma_return(kind, cx);
    } else {
        lemma_simple(kind, cx);
    }
}

/// Every `jcc` and `setcc` stands directly behind its comparison: nothing can come
/// between the two.
pub proof fn law_flags_are_read_at_once(kind: StmtKind, cx: &Cx)
    requires
        lowering(kind, cx) is Some,
    ensures
        flags_adjacent(lowering(kind, cx)->0),
{
    if is_return(kind) {
        lemma_return(kind, cx);
    } else {
        lemma_simple(kind, cx);
    }
}

/// No statement names a callee-saved register.
pub proof fn law_statements_spare_callee_saved(kind: StmtKind, cx: &Cx)
    requires
        lowering(kind, cx) is Some,
    ensures
        all_spare(lowering(kind, cx)->0),
{
    if is_return(kind) {
        lemma_return(kind, cx);
    } else {
        lemma_simple(kind, cx);
    }
}

/// A return undoes the frame and returns, at its end and nowhere before; no other
/// statement does either.
pub proof fn law_returns_undo_the_frame(kind: StmtKind, cx: &Cx)
    requires
        lowering(kind, cx) is Some,
    ensures
        ({
            let insts = lowering(kind, cx)->0;
            let n = insts.len() as int;
            if is_return(kind) {
                n >= 2 && insts[n - 2] is Leave && insts[n - 1] is Ret && stays(insts.take(n - 2))
            } else {
                stays(insts)
            }
        }),
{
    if is_return(kind) {
        lemma_return(kind, cx);
    } else {
        lemma_simple(kind, cx);
    }
}

/// A division loads `rax`. A signed one extends the sign into `rdx` and divides with
/// `idiv`; an unsigned one clears `rdx` with a 32-bit move and divides with `div`. The
/// quotient is taken from `rax`, the remainder from `rdx`.
pub proof fn law_division_keeps_the_sign(
    cx: &Cx,
    dst: LocalId,
    op: BinaryOp,
    lhs: Operand,
    rhs: Operand,
)
    requires
        lowering(StmtKind::Binary { dst, op, lhs, rhs }, cx) is Some,
        operand_fwidth(cx, lhs) is None,
        op is Div || op is Rem || op is UDiv || op is URem,
    ensures
        ({
            let insts = lowering(StmtKind::Binary { dst, op, lhs, rhs }, cx)->0;
            &&& insts.len() == 4
            &&& insts[0] is Mov && insts[0]->Mov_dst == Place::Reg(Gpr::Rax)
            &&& if op is Div || op is Rem {
                insts[1] is Cdq && insts[2] is Idiv
            } else {
                &&& insts[1] == (Inst::Mov {
                    width: Width::W32,
                    dst: Place::Reg(Gpr::Rdx),
                    src: Src::Imm(0),
                })
                &&& insts[2] is Div
            }
            &&& insts[3] is Mov && insts[3]->Mov_src == Src::Reg(
                if op is Div || op is UDiv {
                    Gpr::Rax
                } else {
                    Gpr::Rdx
                },
            )
        }),
{
    reveal(arith_rule);
    reveal(arith_f_rule);
    reveal(divide_rule);
    reveal(divide_unsigned_rule);
    reveal(shift_rule);
    reveal(compare_value_rule);
    reveal(compare_value_f_rule);
}

/// A 32-bit comparison finds the two equal.
pub open spec fn low_halves_agree(v: i32, k: i64) -> bool {
    v as int % 0x1_0000_0000 == k as int % 0x1_0000_0000
}

/// Where a chain of 32-bit comparisons of `s` with constants leads, from `at` on, when
/// `s` is `v`.
pub open spec fn chain_leads(insts: Seq<Inst>, at: int, s: Src, v: i32) -> Option<Label>
    decreases insts.len() - at,
{
    if at < 0 || at >= insts.len() {
        None
    } else {
        match insts[at] {
            Inst::Jmp { target } => Some(target),
            Inst::Cmp { width: Width::W32, lhs, rhs: Src::Imm(k) } => if lhs != s || at + 1
                >= insts.len() {
                None
            } else {
                match insts[at + 1] {
                    Inst::Jcc { cc: CondCode::Eq, target } => if low_halves_agree(v, k) {
                        Some(target)
                    } else {
                        chain_leads(insts, at + 2, s, v)
                    },
                    _ => None,
                }
            },
            _ => None,
        }
    }
}

proof fn lemma_switch_cases(s: Src, targets: Seq<BlockId>, n: nat, i: int)
    requires
        0 <= i < n,
    ensures
        ({
            let cases = switch_cases(s, targets, n);
            &&& cases.len() == 2 * n
            &&& cases[2 * i] == (Inst::Cmp { width: Width::W32, lhs: s, rhs: Src::Imm(i as i64) })
            &&& cases[2 * i + 1] == (Inst::Jcc { cc: CondCode::Eq, target: Label(targets[i]) })
        }),
    decreases n,
{
    if i < n - 1 {
        lemma_switch_cases(s, targets, (n - 1) as nat, i);
    } else {
        lemma_switch_cases_len(s, targets, (n - 1) as nat);
    }
}

proof fn lemma_switch_cases_len(s: Src, targets: Seq<BlockId>, n: nat)
    ensures
        switch_cases(s, targets, n).len() == 2 * n,
    decreases n,
{
    if n > 0 {
        lemma_switch_cases_len(s, targets, (n - 1) as nat);
    }
}

/// The block that a switch goes to.
pub open spec fn switch_target(targets: Seq<BlockId>, default: BlockId, v: i32) -> Label {
    Label(
        if 0 <= v < targets.len() {
            targets[v as int]
        } else {
            default
        },
    )
}

/// From case `i` on, where no earlier one was taken.
proof fn lemma_switch_leads(s: Src, targets: Seq<BlockId>, default: BlockId, v: i32, i: nat)
    requires
        i <= targets.len() <= 0x8000_0000,
        !(0 <= v < i),
    ensures
        chain_leads(
            switch_cases(s, targets, targets.len()).push(Inst::Jmp { target: Label(default) }),
            2 * i as int,
            s,
            v,
        ) == Some(switch_target(targets, default, v)),
    decreases targets.len() - i,
{
    lemma_switch_cases_len(s, targets, targets.len());
    if i < targets.len() {
        lemma_switch_cases(s, targets, targets.len(), i as int);
        if v != i {
            lemma_switch_leads(s, targets, default, v, i + 1);
        }
    }
}

/// A switch goes to the block of its value's case, and to the default for every
/// value that has none: no range is checked.
pub proof fn law_switch_reaches_its_case(
    cx: &Cx,
    value: Operand,
    targets: Vec<BlockId>,
    default: BlockId,
    v: i32,
)
    requires
        lowering(StmtKind::Switch { value, targets, default }, cx) is Some,
        targets@.len() <= 0x8000_0000,
    ensures
        chain_leads(
            lowering(StmtKind::Switch { value, targets, default }, cx)->0,
            0,
            operand_src(value)->0,
            v,
        ) == Some(switch_target(targets@, default, v)),
{
    lemma_switch_leads(operand_src(value)->0, targets@, default, v, 0);
}

/// The instruction that makes a call.
pub open spec fn call_inst(target: CallTarget) -> Option<Inst> {
    match target {
        CallTarget::Direct(method) => Some(Inst::CallDirect { method }),
        CallTarget::Helper(id) => Some(Inst::CallHelper { id }),
        CallTarget::Indirect(addr) => match operand_src(addr) {
            Some(target) => Some(Inst::CallReg { target }),
            None => None,
        },
        CallTarget::Virtual { .. } => None,
    }
}

/// A call stands right behind the moves of its arguments. So the target of an indirect
/// one is read when all of them are done, and setting up arguments cannot destroy it.
pub proof fn law_calls_follow_their_arguments(
    cx: &Cx,
    dst: Option<LocalId>,
    target: CallTarget,
    sig: CallSig,
    args: Vec<Operand>,
)
    requires
        lowering(StmtKind::Call { dst, target, sig, args }, cx) is Some,
    ensures
        ({
            let insts = lowering(StmtKind::Call { dst, target, sig, args }, cx)->0;
            let moves = arg_setups(cx, sig, args@, passed_args(sig, args@));
            &&& moves is Some
            &&& moves->0.len() < insts.len()
            &&& insts.take(moves->0.len() as int) == moves->0
            &&& Some(insts[moves->0.len() as int]) == call_inst(target)
        }),
{
    let insts = lowering(StmtKind::Call { dst, target, sig, args }, cx)->0;
    let moves = arg_setups(cx, sig, args@, passed_args(sig, args@))->0;
    assert(insts.take(moves.len() as int) =~= moves);
}

/// A call that does not come back is followed by an instruction, and so is the call of
/// a finally block: the address that the call leaves stays inside of its region.
pub proof fn law_calls_of_handlers_are_padded(kind: StmtKind, cx: &Cx, i: int)
    requires
        kind is Throw || kind is Rethrow || kind is CallFinally,
        lowering(kind, cx) is Some,
        0 <= i < lowering(kind, cx)->0.len(),
        lowering(kind, cx)->0[i] is CallHelper || lowering(kind, cx)->0[i] is CallLabel,
    ensures
        i + 1 < lowering(kind, cx)->0.len(),
        lowering(kind, cx)->0[i + 1] is Nop,
{
    reveal(throw_exception_rule);
}

/// A register that the instruction reads as an operand.
pub open spec fn operand_register(inst: Inst) -> Option<Gpr> {
    match inst {
        Inst::Mov { src: Src::Reg(g), .. } => Some(g),
        Inst::StoreStackArg { src: Src::Reg(g), .. } => Some(g),
        _ => None,
    }
}

/// The moves of the arguments read values and constants only, and `r11`, which is
/// no argument register: no move can destroy what a later one reads.
pub open spec fn reads_no_argument_register(insts: Seq<Inst>) -> bool {
    forall|i: int|
        0 <= i < insts.len() ==> match operand_register(#[trigger] insts[i]) {
            Some(g) => g == Gpr::R11 && i > 0 && insts[i - 1] is Lea && insts[i - 1]->Lea_dst
                == Place::Reg(Gpr::R11),
            None => true,
        }
}

proof fn lemma_arg_move_reads(cx: &Cx, arg: Operand, loc: ArgLocation)
    ensures
        arg_move_rule(cx, arg, loc) is Some ==> reads_no_argument_register(
            arg_move_rule(cx, arg, loc)->0,
        ),
{
    reveal(arg_move_rule);
}

/// Setting the arguments of a call up never reads an argument register.
pub proof fn law_arguments_do_not_interfere(cx: &Cx, sig: CallSig, args: Seq<Operand>, n: nat)
    requires
        arg_setups(cx, sig, args, n) is Some,
    ensures
        reads_no_argument_register(arg_setups(cx, sig, args, n)->0),
    decreases n,
{
    if n > 0 {
        law_arguments_do_not_interfere(cx, sig, args, (n - 1) as nat);
        let loc = location_of(all_args(sig), *cx.layouts, (n - 1) as nat);
        lemma_arg_move_reads(cx, args[n - 1], loc);
        let before = arg_setups(cx, sig, args, (n - 1) as nat)->0;
        let last = arg_setup(cx, all_args(sig)[n - 1], args[n - 1], loc)->0;
        let all = arg_setups(cx, sig, args, n)->0;
        assert forall|i: int| 0 <= i < all.len() implies match operand_register(
            #[trigger] all[i],
        ) {
            Some(g) => g == Gpr::R11 && i > 0 && all[i - 1] is Lea && all[i - 1]->Lea_dst
                == Place::Reg(Gpr::R11),
            None => true,
        } by {
            if i < before.len() {
                assert(all[i] == before[i]);
            } else {
                assert(all[i] == last[i - before.len()]);
            }
        }
    }
}

/// At most one of the rules for a statement covers it: their order does not
/// matter.
pub open spec fn at_most_one(rules: Seq<Option<Seq<Inst>>>) -> bool {
    forall|i: int, j: int|
        0 <= i < j < rules.len() ==> (#[trigger] rules[i]) is None || (#[trigger] rules[j]) is None
}

/// The rules for moves, loads and stores do not overlap, but for one pair: a float
/// constant is a value too, and its own rule comes first.
pub proof fn law_memory_rules_are_disjoint(
    cx: &Cx,
    dst: LocalId,
    addr: Operand,
    offset: u32,
    src: Operand,
    ty: Type,
    access: MemAccess,
)
    ensures
        at_most_one(
            seq![
                copy_const_rule(dst, src),
                copy_const_f_rule(cx, dst, src),
                copy_addr_of_rule(dst, src),
                copy_value_rule(cx, dst, src),
            ],
        ),
        at_most_one(
            seq![
                copy_const_rule(dst, src),
                copy_addr_of_rule(dst, src),
                copy_value_rule(cx, dst, src),
                copy_value_f_rule(cx, dst, src),
            ],
        ),
        at_most_one(
            seq![
                load_mem_rule(dst, addr, offset, ty, access),
                load_mem_f_rule(dst, addr, offset, ty, access),
                load_mem_narrow_rule(dst, addr, offset, access),
            ],
        ),
        at_most_one(
            seq![
                store_mem_rule(cx, addr, offset, src, access),
                store_mem_f_rule(cx, addr, offset, src, access),
                store_mem_narrow_rule(addr, offset, src, access),
            ],
        ),
{
    reveal(copy_const_rule);
    reveal(copy_const_f_rule);
    reveal(copy_addr_of_rule);
    reveal(copy_value_rule);
    reveal(copy_value_f_rule);
    reveal(load_mem_rule);
    reveal(load_mem_f_rule);
    reveal(load_mem_narrow_rule);
    reveal(store_mem_rule);
    reveal(store_mem_f_rule);
    reveal(store_mem_narrow_rule);
}

/// The rules for operators do not overlap.
pub proof fn law_operator_rules_are_disjoint(
    cx: &Cx,
    dst: LocalId,
    op: BinaryOp,
    lhs: Operand,
    rhs: Operand,
    unary: UnaryOp,
)
    ensures
        at_most_one(
            seq![
                arith_rule(cx, dst, op, lhs, rhs),
                arith_f_rule(cx, dst, op, lhs, rhs),
                divide_rule(cx, dst, op, lhs, rhs),
                divide_unsigned_rule(cx, dst, op, lhs, rhs),
                shift_rule(cx, dst, op, lhs, rhs),
                compare_value_rule(cx, dst, op, lhs, rhs),
                compare_value_f_rule(cx, dst, op, lhs, rhs),
            ],
        ),
        at_most_one(seq![unary_rule(cx, dst, unary, lhs), neg_f_rule(cx, dst, unary, lhs)]),
{
    reveal(arith_rule);
    reveal(arith_f_rule);
    reveal(divide_rule);
    reveal(divide_unsigned_rule);
    reveal(shift_rule);
    reveal(compare_value_rule);
    reveal(compare_value_f_rule);
    reveal(unary_rule);
    reveal(neg_f_rule);
}

/// The rules for conversions do not overlap.
pub proof fn law_conversion_rules_are_disjoint(
    cx: &Cx,
    dst: LocalId,
    to: Type,
    unsigned: bool,
    src: Operand,
)
    ensures
        at_most_one(
            seq![
                conv_trunc_rule(cx, dst, to, unsigned, src),
                conv_ext_rule(cx, dst, to, unsigned, src),
                conv_u64_to_f_rule(cx, dst, to, unsigned, src),
                conv_i_to_f_rule(cx, dst, to, unsigned, src),
                conv_f_to_i_rule(cx, dst, to, unsigned, src),
                conv_f_to_f_rule(cx, dst, to, unsigned, src),
            ],
        ),
{
    reveal(conv_trunc_rule);
    reveal(conv_ext_rule);
    reveal(conv_u64_to_f_rule);
    reveal(conv_i_to_f_rule);
    reveal(conv_f_to_i_rule);
    reveal(conv_f_to_f_rule);
}

/// The rules for branches and returns do not overlap.
pub proof fn law_branch_rules_are_disjoint(
    cx: &Cx,
    op: BinaryOp,
    lhs: Operand,
    rhs: Operand,
    target: BlockId,
)
    ensures
        at_most_one(
            seq![
                branch_compare_rule(cx, op, lhs, rhs, target),
                branch_compare_f_rule(cx, op, lhs, rhs, target),
            ],
        ),
        at_most_one(seq![return_value_rule(cx, lhs), return_value_f_rule(cx, lhs)]),
{
    reveal(branch_compare_rule);
    reveal(branch_compare_f_rule);
    reveal(return_value_rule);
    reveal(return_value_f_rule);
}

} // verus!
