//! Lowered statements do what the statements ask for.
//!
//! Each law follows the descriptors of a statement, in any world, and says what
//! comes of it in terms of the statement: which local gets which value, which bytes of
//! memory change and how, and where the flow goes.

use crate::flags::{
    float_flags, float_truth, holds, int_flags, int_truth, law_integer_condition, Relation,
};
use crate::inst::{CondCode, FWidth, Inst, Place, Src, Width, XmmPlace};
use crate::ir::{
    BinaryOp, BlockId, BranchCond, ClassHandle, Const, CorInfoHelpFunc, Label, LocalId, MemAccess,
    Operand, StmtKind, Type, UnaryOp, Val,
};
use crate::lower::{
    arith_f_rule, arith_ovf_rule, arith_rule, block_copy_dyn_rule, block_copy_rule,
    block_fill_dyn_rule, block_zero_rule, bounds_check_rule, branch_compare_f_rule,
    branch_compare_rule, branch_truth_rule, ckfinite_rule, compare_value_f_rule, compare_value_rule,
    conv_ext_rule, conv_f_to_f_rule, conv_f_to_i_rule, conv_i_to_f_rule, conv_ovf_rule,
    conv_trunc_rule, conv_u64_to_f_rule, copy_addr_of_rule, copy_const_f_rule, copy_const_rule,
    copy_value_f_rule, copy_value_rule, divide_rule, divide_unsigned_rule, load_mem_f_rule,
    load_mem_narrow_rule, load_mem_rule, loc_alloc_rule, lowering, neg_f_rule, null_check_rule,
    operand_src, or_else, return_value_f_rule, return_value_rule, shift_rule, store_mem_f_rule,
    store_mem_narrow_rule, store_mem_rule, throw_exception_rule, unary_rule, xmm_opnd, Cx,
};
use crate::machine::{
    bit, bits_of, divides, lemma_sign_fill, lemma_unsigned_parts, modulus, quotient, remainder,
    signed,
};
use crate::meaning::{
    counted, fits, float_outcome, float_value, follow, fractional, leaves, load, negated,
    operand_number, pointer, rdx_rax, read, read_float, sets, src_value, step, stored,
    type_of_operand, typed, undisturbed, whole, widened, End, World,
};
use crate::regs::{Gpr, Xmm};
use vstd::arithmetic::power2::pow2;
use vstd::prelude::*;

verus! {

/// A 64-bit number keeps its low bits when it counts as a signed one.
pub proof fn lemma_as_signed(v: u64)
    ensures
        (v as i64) as int % modulus(Width::W64) == v as int % modulus(Width::W64),
        (v as i64) as int % modulus(Width::W32) == v as int % modulus(Width::W32),
{
    assert(v < 0x8000_0000_0000_0000 ==> (v as i64) as int == v as int) by (bit_vector);
    assert(v >= 0x8000_0000_0000_0000 ==> (v as i64) as int == v as int - 0x1_0000_0000_0000_0000)
        by (bit_vector);
}

/// A source stands for its operand.
pub proof fn lemma_read(w: World, op: Operand, width: Width)
    ensures
        match operand_src(op) {
            Some(s) => src_value(w, s, width) == read(w, op, width),
            None => true,
        },
{
    if let Operand::Const(Const::FrozenRef(v)) = op {
        lemma_as_signed(v);
    }
}

pub proof fn lemma_read_float(cx: &Cx, w: World, op: Operand, width: FWidth)
    ensures
        match xmm_opnd(cx, op) {
            Some(s) => float_value(w, s, width) == read_float(w, op, width),
            None => true,
        },
{
}

/// Each outcome of a float comparison has flags of its own.
proof fn lemma_outcome(op: BinaryOp, relation: Relation)
    ensures
        float_outcome(op, float_flags(relation)) == float_truth(op, relation),
{
    if float_truth(op, relation) {
        assert(float_flags(relation) == float_flags(relation));
    }
}

/// A copy gives its destination the value of the source: of a constant all of it, of a
/// local as many bits as the destination has.
pub proof fn law_copies_copy(cx: &Cx, w: World, dst: LocalId, src: Operand, ty: Type)
    requires
        lowering(StmtKind::Copy { dst, src }, cx) is Some,
        typed(cx, dst, ty),
        type_of_operand(cx, src) is Double ==> ty is Double,
    ensures
        sets(
            w,
            follow(w, lowering(StmtKind::Copy { dst, src }, cx)->0, 0),
            dst,
            match src {
                Operand::Const(_) => match whole(type_of_operand(cx, src)) {
                    Some(width) => read(w, src, width),
                    None => operand_number(w, src),
                },
                Operand::AddrOf(l) => w.slots[l],
                _ => match whole(ty) {
                    Some(width) => read(w, src, width),
                    None => read_float(w, src, fractional(ty)->0),
                },
            },
        ),
{
    reveal(copy_const_rule);
    reveal(copy_const_f_rule);
    reveal(copy_addr_of_rule);
    reveal(copy_value_rule);
    reveal(copy_value_f_rule);
    reveal(step);
    reveal_with_fuel(follow, 2);
    lemma_read(w, src, Width::W32);
    lemma_read(w, src, Width::W64);
    lemma_read_float(cx, w, src, FWidth::S);
    lemma_read_float(cx, w, src, FWidth::D);
}

/// The value of an integer operator.
pub open spec fn integer_result(op: BinaryOp, width: Width, x: int, y: int) -> int {
    let m = modulus(width);
    let n = (y % bits_of(width)) as nat;
    match op {
        BinaryOp::Add => (x + y) % m,
        BinaryOp::Sub => (x - y) % m,
        BinaryOp::Mul => (x * y) % m,
        BinaryOp::And => ((x as u64) & (y as u64)) as int,
        BinaryOp::Or => ((x as u64) | (y as u64)) as int,
        BinaryOp::Xor => ((x as u64) ^ (y as u64)) as int,
        BinaryOp::Shl => (x * pow2(n)) % m,
        BinaryOp::Shr => (signed(width, x) / (pow2(n) as int)) % m,
        BinaryOp::UShr => x / (pow2(n) as int),
        BinaryOp::Div => quotient(signed(width, x), signed(width, y)) % m,
        BinaryOp::Rem => remainder(signed(width, x), signed(width, y)) % m,
        BinaryOp::UDiv => quotient(x, y) % m,
        BinaryOp::URem => remainder(x, y) % m,
        _ => arbitrary(),
    }
}

pub open spec fn compares(op: BinaryOp) -> bool {
    match op {
        BinaryOp::Eq
        | BinaryOp::Ne
        | BinaryOp::Lt
        | BinaryOp::Le
        | BinaryOp::Gt
        | BinaryOp::Ge
        | BinaryOp::ULt
        | BinaryOp::ULe
        | BinaryOp::UGt
        | BinaryOp::UGe => true,
        _ => false,
    }
}

pub open spec fn shifts(op: BinaryOp) -> bool {
    op is Shl || op is Shr || op is UShr
}

/// One descriptor on.
pub proof fn lemma_on(w: World, next: World, insts: Seq<Inst>, at: int)
    requires
        0 <= at < insts.len(),
        step(w, insts[at]) == End::On(next),
    ensures
        follow(w, insts, at) == follow(next, insts, at + 1),
{
}

/// The source reads the same whatever the registers are.
spec fn no_register(s: Src) -> bool {
    !(s is Reg)
}

/// The signed division of two sources.
proof fn lemma_signed_division(
    w: World,
    width: Width,
    dst: LocalId,
    l: Src,
    r: Src,
    out: Gpr,
)
    requires
        no_register(l) && no_register(r),
        out is Rax || out is Rdx,
        divides(width, src_value(w, l, width), src_value(w, r, width)),
    ensures
        ({
            let insts = seq![
                Inst::Mov { width, dst: Place::Reg(Gpr::Rax), src: l },
                Inst::Cdq { width },
                Inst::Idiv { width, divisor: r },
                Inst::Mov { width, dst: Place::Val(Val(dst)), src: Src::Reg(out) },
            ];
            let x = signed(width, src_value(w, l, width));
            let y = signed(width, src_value(w, r, width));
            sets(
                w,
                follow(w, insts, 0),
                dst,
                if out is Rax {
                    quotient(x, y) % modulus(width)
                } else {
                    remainder(x, y) % modulus(width)
                },
            )
        }),
{
    let insts = seq![
        Inst::Mov { width, dst: Place::Reg(Gpr::Rax), src: l },
        Inst::Cdq { width },
        Inst::Idiv { width, divisor: r },
        Inst::Mov { width, dst: Place::Val(Val(dst)), src: Src::Reg(out) },
    ];
    let x = src_value(w, l, width);
    let y = src_value(w, r, width);
    let fill = if signed(width, x) < 0 {
        modulus(width) - 1
    } else {
        0
    };
    lemma_sign_fill(width, x, fill);
    let w1 = World { gpr: w.gpr.insert(Gpr::Rax, x), ..w };
    assert(step(w, insts[0]) == End::On(w1)) by {
        reveal(step);
    }
    lemma_on(w, w1, insts, 0);
    let w2 = World { gpr: w1.gpr.insert(Gpr::Rdx, fill), ..w1 };
    assert(x % modulus(width) == x);
    assert(step(w1, insts[1]) == End::On(w2)) by {
        reveal(step);
    }
    lemma_on(w1, w2, insts, 1);
    let q = quotient(signed(width, x), signed(width, y)) % modulus(width);
    let m = remainder(signed(width, x), signed(width, y)) % modulus(width);
    let w3 = World { gpr: w2.gpr.insert(Gpr::Rax, q).insert(Gpr::Rdx, m), ..w2 };
    assert(fill % modulus(width) == fill);
    assert(rdx_rax(w2, width, true) == signed(width, x));
    assert(src_value(w2, r, width) == y);
    assert(step(w2, insts[2]) == End::On(w3)) by {
        reveal(step);
    }
    lemma_on(w2, w3, insts, 2);
    let v = if out is Rax {
        q
    } else {
        m
    };
    assert(v % modulus(width) == v);
    let w4 = World { vals: w3.vals.insert(dst, v), ..w3 };
    assert(step(w3, insts[3]) == End::On(w4)) by {
        reveal(step);
    }
    lemma_on(w3, w4, insts, 3);
}

/// The unsigned division of two sources.
#[verifier::spinoff_prover]
#[verifier::rlimit(60)]
proof fn lemma_unsigned_division(
    w: World,
    width: Width,
    dst: LocalId,
    l: Src,
    r: Src,
    out: Gpr,
)
    requires
        no_register(l) && no_register(r),
        out is Rax || out is Rdx,
        src_value(w, r, width) != 0,
    ensures
        ({
            let insts = seq![
                Inst::Mov { width, dst: Place::Reg(Gpr::Rax), src: l },
                Inst::Mov { width: Width::W32, dst: Place::Reg(Gpr::Rdx), src: Src::Imm(0) },
                Inst::Div { width, divisor: r },
                Inst::Mov { width, dst: Place::Val(Val(dst)), src: Src::Reg(out) },
            ];
            let x = src_value(w, l, width);
            let y = src_value(w, r, width);
            sets(
                w,
                follow(w, insts, 0),
                dst,
                if out is Rax {
                    quotient(x, y) % modulus(width)
                } else {
                    remainder(x, y) % modulus(width)
                },
            )
        }),
{
    let insts = seq![
        Inst::Mov { width, dst: Place::Reg(Gpr::Rax), src: l },
        Inst::Mov { width: Width::W32, dst: Place::Reg(Gpr::Rdx), src: Src::Imm(0) },
        Inst::Div { width, divisor: r },
        Inst::Mov { width, dst: Place::Val(Val(dst)), src: Src::Reg(out) },
    ];
    let x = src_value(w, l, width);
    let y = src_value(w, r, width);
    lemma_unsigned_parts(width, x, y);
    let w1 = World { gpr: w.gpr.insert(Gpr::Rax, x), ..w };
    assert(step(w, insts[0]) == End::On(w1)) by {
        reveal(step);
    }
    lemma_on(w, w1, insts, 0);
    let w2 = World { gpr: w1.gpr.insert(Gpr::Rdx, 0), ..w1 };
    assert(step(w1, insts[1]) == End::On(w2)) by {
        reveal(step);
    }
    lemma_on(w1, w2, insts, 1);
    let q = quotient(x, y) % modulus(width);
    let m = remainder(x, y) % modulus(width);
    let w3 = World { gpr: w2.gpr.insert(Gpr::Rax, q).insert(Gpr::Rdx, m), ..w2 };
    assert(x % modulus(width) == x);
    assert(0int % modulus(width) == 0);
    assert(rdx_rax(w2, width, false) == x);
    assert(src_value(w2, r, width) == y);
    assert(step(w2, insts[2]) == End::On(w3)) by {
        reveal(step);
    }
    lemma_on(w2, w3, insts, 2);
    let v = if out is Rax {
        q
    } else {
        m
    };
    assert(v % modulus(width) == v);
    let w4 = World { vals: w3.vals.insert(dst, v), ..w3 };
    assert(step(w3, insts[3]) == End::On(w4)) by {
        reveal(step);
    }
    lemma_on(w3, w4, insts, 3);
}

/// Arithmetic on integers gives the destination the operator's value of the left and the
/// right operand, as numbers of the destination's width. A shift counts by the low
/// bits of its right operand.
#[verifier::spinoff_prover]
#[verifier::rlimit(60)]
pub proof fn law_integer_operators_compute(
    cx: &Cx,
    w: World,
    dst: LocalId,
    op: BinaryOp,
    lhs: Operand,
    rhs: Operand,
    ty: Type,
    width: Width,
)
    requires
        lowering(StmtKind::Binary { dst, op, lhs, rhs }, cx) is Some,
        typed(cx, dst, ty),
        whole(ty) == Some(width),
        !compares(op),
        op is Div || op is Rem ==> divides(width, read(w, lhs, width), read(w, rhs, width)),
        op is UDiv || op is URem ==> read(w, rhs, width) != 0,
    ensures
        sets(
            w,
            follow(w, lowering(StmtKind::Binary { dst, op, lhs, rhs }, cx)->0, 0),
            dst,
            integer_result(
                op,
                width,
                read(w, lhs, width),
                read(
                    w,
                    rhs,
                    if shifts(op) {
                        Width::W32
                    } else {
                        width
                    },
                ),
            ),
        ),
{
    reveal(arith_rule);
    reveal(arith_f_rule);
    reveal(divide_rule);
    reveal(divide_unsigned_rule);
    reveal(shift_rule);
    reveal(compare_value_rule);
    reveal(compare_value_f_rule);
    lemma_read(w, lhs, width);
    lemma_read(w, rhs, width);
    lemma_read(w, rhs, Width::W32);
    if op is Div || op is Rem || op is UDiv || op is URem {
        let out = if op is Div || op is UDiv {
            Gpr::Rax
        } else {
            Gpr::Rdx
        };
        let (l, r) = (operand_src(lhs)->0, operand_src(rhs)->0);
        if op is Div || op is Rem {
            lemma_signed_division(w, width, dst, l, r, out);
        } else {
            lemma_unsigned_division(w, width, dst, l, r, out);
        }
    } else {
        reveal(step);
        reveal_with_fuel(follow, 2);
    }
}

/// The value of a float operator.
pub open spec fn float_result(w: World, op: BinaryOp, width: FWidth, x: int, y: int) -> int {
    match op {
        BinaryOp::Add => (w.math.add)(width, x, y),
        BinaryOp::Sub => (w.math.sub)(width, x, y),
        BinaryOp::Mul => (w.math.mul)(width, x, y),
        BinaryOp::Div => (w.math.div)(width, x, y),
        BinaryOp::MinF => (w.math.min)(width, x, y),
        BinaryOp::MaxF => (w.math.max)(width, x, y),
        _ => arbitrary(),
    }
}

/// Arithmetic on floats gives the destination the operator's value of the left and the
/// right operand.
pub proof fn law_float_operators_compute(
    cx: &Cx,
    w: World,
    dst: LocalId,
    op: BinaryOp,
    lhs: Operand,
    rhs: Operand,
    ty: Type,
    width: FWidth,
)
    requires
        lowering(StmtKind::Binary { dst, op, lhs, rhs }, cx) is Some,
        typed(cx, dst, ty),
        fractional(ty) == Some(width),
        !compares(op),
    ensures
        sets(
            w,
            follow(w, lowering(StmtKind::Binary { dst, op, lhs, rhs }, cx)->0, 0),
            dst,
            float_result(w, op, width, read_float(w, lhs, width), read_float(w, rhs, width)),
        ),
{
    reveal(arith_rule);
    reveal(arith_f_rule);
    reveal(divide_rule);
    reveal(divide_unsigned_rule);
    reveal(shift_rule);
    reveal(compare_value_rule);
    reveal(compare_value_f_rule);
    reveal(step);
    reveal_with_fuel(follow, 2);
    lemma_read_float(cx, w, lhs, width);
    lemma_read_float(cx, w, rhs, width);
}

/// The truth value of a comparison of two operands: as integers of the left one's width,
/// or as floats of it.
pub open spec fn comparison(cx: &Cx, w: World, op: BinaryOp, lhs: Operand, rhs: Operand) -> bool {
    match whole(type_of_operand(cx, lhs)) {
        Some(width) => int_truth(op, width, read(w, lhs, width), read(w, rhs, width)),
        None => {
            let width = fractional(type_of_operand(cx, lhs))->0;
            float_truth(
                op,
                (w.math.compare)(width, read_float(w, lhs, width), read_float(w, rhs, width)),
            )
        },
    }
}

proof fn lemma_compared(
    cx: &Cx,
    w: World,
    op: BinaryOp,
    lhs: Operand,
    rhs: Operand,
)
    requires
        CondCode::of(op) is Some,
    ensures
        match whole(type_of_operand(cx, lhs)) {
            Some(width) => holds(
                CondCode::of(op)->0,
                int_flags(width, read(w, lhs, width), read(w, rhs, width)),
            ) == int_truth(op, width, read(w, lhs, width), read(w, rhs, width)),
            None => true,
        },
        match fractional(type_of_operand(cx, lhs)) {
            Some(width) => {
                let relation = (w.math.compare)(
                    width,
                    read_float(w, lhs, width),
                    read_float(w, rhs, width),
                );
                float_outcome(op, float_flags(relation)) == float_truth(op, relation)
            },
            None => true,
        },
{
    match whole(type_of_operand(cx, lhs)) {
        Some(width) => law_integer_condition(
            op,
            CondCode::of(op)->0,
            width,
            read(w, lhs, width),
            read(w, rhs, width),
        ),
        None => {},
    }
    match fractional(type_of_operand(cx, lhs)) {
        Some(width) => lemma_outcome(
            op,
            (w.math.compare)(width, read_float(w, lhs, width), read_float(w, rhs, width)),
        ),
        None => {},
    }
    lemma_read(w, lhs, Width::W32);
    lemma_read(w, lhs, Width::W64);
    lemma_read(w, rhs, Width::W32);
    lemma_read(w, rhs, Width::W64);
    lemma_read_float(cx, w, lhs, FWidth::S);
    lemma_read_float(cx, w, lhs, FWidth::D);
    lemma_read_float(cx, w, rhs, FWidth::S);
    lemma_read_float(cx, w, rhs, FWidth::D);
}

/// The world behind the comparison of two operands.
spec fn flagged(cx: &Cx, w: World, lhs: Operand, rhs: Operand) -> World {
    World {
        flags: match whole(type_of_operand(cx, lhs)) {
            Some(width) => int_flags(width, read(w, lhs, width), read(w, rhs, width)),
            None => {
                let width = fractional(type_of_operand(cx, lhs))->0;
                float_flags(
                    (w.math.compare)(width, read_float(w, lhs, width), read_float(w, rhs, width)),
                )
            },
        },
        ..w
    }
}

/// The operand exists.
pub open spec fn exists_in(cx: &Cx, op: Operand) -> bool {
    match op {
        Operand::Temp(id) | Operand::Local(id) => id.0 < cx.locals@.len(),
        _ => true,
    }
}

/// A comparison as a value gives the destination 1 where it holds and else 0.
pub proof fn law_comparisons_compare(
    cx: &Cx,
    w: World,
    dst: LocalId,
    op: BinaryOp,
    lhs: Operand,
    rhs: Operand,
)
    requires
        lowering(StmtKind::Binary { dst, op, lhs, rhs }, cx) is Some,
        compares(op),
        exists_in(cx, lhs),
    ensures
        sets(
            w,
            follow(w, lowering(StmtKind::Binary { dst, op, lhs, rhs }, cx)->0, 0),
            dst,
            bit(comparison(cx, w, op, lhs, rhs)),
        ),
{
    reveal(arith_rule);
    reveal(arith_f_rule);
    reveal(divide_rule);
    reveal(divide_unsigned_rule);
    reveal(shift_rule);
    reveal(compare_value_rule);
    reveal(compare_value_f_rule);
    let insts = lowering(StmtKind::Binary { dst, op, lhs, rhs }, cx)->0;
    lemma_compared(cx, w, op, lhs, rhs);
    let w1 = flagged(cx, w, lhs, rhs);
    assert(step(w, insts[0]) == End::On(w1)) by {
        reveal(step);
        lemma_reads(cx, w, lhs, rhs);
    }
    lemma_on(w, w1, insts, 0);
    let v = bit(comparison(cx, w, op, lhs, rhs));
    let w2 = World { vals: w1.vals.insert(dst, v), ..w1 };
    assert(step(w1, insts[1]) == End::On(w2)) by {
        reveal(step);
    }
    lemma_on(w1, w2, insts, 1);
}

proof fn lemma_reads(cx: &Cx, w: World, lhs: Operand, rhs: Operand)
    ensures
        forall|width: Width|
            operand_src(lhs) is Some ==> #[trigger] src_value(w, operand_src(lhs)->0, width) == read(
                w,
                lhs,
                width,
            ),
        forall|width: Width|
            operand_src(rhs) is Some ==> #[trigger] src_value(w, operand_src(rhs)->0, width) == read(
                w,
                rhs,
                width,
            ),
        forall|width: FWidth|
            xmm_opnd(cx, lhs) is Some ==> #[trigger] float_value(w, xmm_opnd(cx, lhs)->0, width)
                == read_float(w, lhs, width),
        forall|width: FWidth|
            xmm_opnd(cx, rhs) is Some ==> #[trigger] float_value(w, xmm_opnd(cx, rhs)->0, width)
                == read_float(w, rhs, width),
{
    assert forall|width: Width|
        operand_src(lhs) is Some implies #[trigger] src_value(w, operand_src(lhs)->0, width) == read(
        w,
        lhs,
        width,
    ) by {
        lemma_read(w, lhs, width);
    }
    assert forall|width: Width|
        operand_src(rhs) is Some implies #[trigger] src_value(w, operand_src(rhs)->0, width) == read(
        w,
        rhs,
        width,
    ) by {
        lemma_read(w, rhs, width);
    }
}

/// The branch is taken.
pub open spec fn taken(cx: &Cx, w: World, cond: BranchCond) -> bool {
    match cond {
        BranchCond::Cmp { op, lhs, rhs } => comparison(cx, w, op, lhs, rhs),
        BranchCond::True(v) => read(w, v, whole(type_of_operand(cx, v))->0) != 0,
        BranchCond::False(v) => read(w, v, whole(type_of_operand(cx, v))->0) == 0,
    }
}

/// What a branch compares exists.
pub open spec fn cond_exists(cx: &Cx, cond: BranchCond) -> bool {
    match cond {
        BranchCond::Cmp { lhs, .. } => exists_in(cx, lhs),
        BranchCond::True(v) => exists_in(cx, v),
        BranchCond::False(v) => exists_in(cx, v),
    }
}

/// A branch goes to its target exactly where its condition holds, and else on. It
/// changes no value and no memory.
pub proof fn law_branches_branch(cx: &Cx, w: World, cond: BranchCond, target: BlockId)
    requires
        lowering(StmtKind::Branch { cond, target }, cx) is Some,
        cond_exists(cx, cond),
    ensures
        match follow(w, lowering(StmtKind::Branch { cond, target }, cx)->0, 0) {
            End::To(after, label) => {
                &&& taken(cx, w, cond)
                &&& label == Label(target)
                &&& undisturbed(w, after)
            },
            End::On(after) => !taken(cx, w, cond) && undisturbed(w, after),
            _ => false,
        },
{
    reveal(branch_compare_rule);
    reveal(branch_compare_f_rule);
    reveal(branch_truth_rule);
    let insts = lowering(StmtKind::Branch { cond, target }, cx)->0;
    let zero = Operand::Const(Const::Int32(0));
    let (op, lhs, rhs) = match cond {
        BranchCond::Cmp { op, lhs, rhs } => (op, lhs, rhs),
        BranchCond::True(v) => (BinaryOp::Ne, v, zero),
        BranchCond::False(v) => (BinaryOp::Eq, v, zero),
    };
    lemma_compared(cx, w, op, lhs, rhs);
    let w1 = flagged(cx, w, lhs, rhs);
    assert(step(w, insts[0]) == End::On(w1)) by {
        reveal(step);
        lemma_reads(cx, w, lhs, rhs);
    }
    lemma_on(w, w1, insts, 0);
    let end = if taken(cx, w, cond) {
        End::To(w1, Label(target))
    } else {
        End::On(w1)
    };
    assert(step(w1, insts[1]) == end) by {
        reveal(step);
    }
    reveal_with_fuel(follow, 2);
}

/// A jump and a leave go to their target, and change nothing.
pub proof fn law_jumps_jump(cx: &Cx, w: World, target: BlockId)
    ensures
        lowering(StmtKind::Jump { target }, cx) is Some,
        follow(w, lowering(StmtKind::Jump { target }, cx)->0, 0) == End::To(w, Label(target)),
        lowering(StmtKind::Leave { target }, cx) is Some,
        follow(w, lowering(StmtKind::Leave { target }, cx)->0, 0) == End::To(w, Label(target)),
{
    reveal(step);
    reveal_with_fuel(follow, 2);
}

/// The call of a finally block calls it and then goes to the continuation.
pub proof fn law_finally_calls_continue(
    cx: &Cx,
    w: World,
    back: World,
    funclet: BlockId,
    continuation: BlockId,
)
    ensures
        ({
            let insts = lowering(StmtKind::CallFinally { funclet, continuation }, cx)->0;
            &&& lowering(StmtKind::CallFinally { funclet, continuation }, cx) is Some
            &&& follow(w, insts, 0) == End::Calls(w, Inst::CallLabel { target: Label(funclet) })
            &&& follow(back, insts, 1) == End::To(back, Label(continuation))
        }),
{
    reveal(step);
    reveal_with_fuel(follow, 4);
}

/// A throw hands the exception over in `rdi`, and a catch block takes it from there.
pub proof fn law_exceptions_are_handed_over(
    cx: &Cx,
    w: World,
    exception: Operand,
    dst: LocalId,
)
    requires
        lowering(StmtKind::Throw { exception }, cx) is Some,
    ensures
        match follow(w, lowering(StmtKind::Throw { exception }, cx)->0, 0) {
            End::Calls(at, call) => {
                &&& call == (Inst::CallHelper { id: CorInfoHelpFunc::Throw })
                &&& at.gpr[Gpr::Rdi] == read(w, exception, Width::W64)
                &&& undisturbed(w, at)
            },
            _ => false,
        },
        sets(
            w,
            follow(w, lowering(StmtKind::CatchArg { dst }, cx)->0, 0),
            dst,
            w.gpr[Gpr::Rdi] % modulus(Width::W64),
        ),
        follow(w, lowering(StmtKind::Rethrow, cx)->0, 0) == End::Calls(
            w,
            Inst::CallHelper { id: CorInfoHelpFunc::Rethrow },
        ),
{
    reveal(throw_exception_rule);
    lemma_read(w, exception, Width::W64);
    let insts = lowering(StmtKind::Throw { exception }, cx)->0;
    let w1 = World { gpr: w.gpr.insert(Gpr::Rdi, read(w, exception, Width::W64)), ..w };
    assert(step(w, insts[0]) == End::On(w1)) by {
        reveal(step);
    }
    lemma_on(w, w1, insts, 0);
    assert(step(w1, insts[1]) == End::Calls(w1, insts[1])) by {
        reveal(step);
    }
    let caught = lowering(StmtKind::CatchArg { dst }, cx)->0;
    let w2 = World { vals: w.vals.insert(dst, w.gpr[Gpr::Rdi] % modulus(Width::W64)), ..w };
    assert(step(w, caught[0]) == End::On(w2)) by {
        reveal(step);
    }
    lemma_on(w, w2, caught, 0);
    let again = lowering(StmtKind::Rethrow, cx)->0;
    assert(step(w, again[0]) == End::Calls(w, again[0])) by {
        reveal(step);
    }
}

/// Negation and complement.
pub proof fn law_unary_operators_compute(
    cx: &Cx,
    w: World,
    dst: LocalId,
    op: UnaryOp,
    src: Operand,
    ty: Type,
)
    requires
        lowering(StmtKind::Unary { dst, op, src }, cx) is Some,
        typed(cx, dst, ty),
    ensures
        sets(
            w,
            follow(w, lowering(StmtKind::Unary { dst, op, src }, cx)->0, 0),
            dst,
            match whole(ty) {
                Some(width) => {
                    let x = read(w, src, width);
                    match op {
                        UnaryOp::Neg => (-x) % modulus(width),
                        UnaryOp::Not => modulus(width) - 1 - x,
                    }
                },
                None => negated(fractional(ty)->0, read_float(w, src, fractional(ty)->0)),
            },
        ),
        whole(ty) is None ==> op is Neg,
{
    reveal(unary_rule);
    reveal(neg_f_rule);
    reveal(step);
    reveal_with_fuel(follow, 2);
    lemma_reads(cx, w, src, src);
}

/// What a conversion makes of its operand. A float that is cut to an unsigned 32-bit
/// integer is cut to a 64-bit one, of which the low half counts.
pub open spec fn conversion(cx: &Cx, w: World, to: Type, unsigned: bool, src: Operand) -> int {
    let from = type_of_operand(cx, src);
    match (whole(from), whole(to)) {
        (Some(Width::W32), Some(Width::W64)) => if unsigned {
            read(w, src, Width::W32)
        } else {
            signed(Width::W32, read(w, src, Width::W32)) % modulus(Width::W64)
        },
        (Some(_), Some(width)) => read(w, src, width),
        (Some(width), None) => (w.math.of_int)(
            fractional(to)->0,
            counted(unsigned, width, read(w, src, width)),
        ),
        (None, Some(width)) => (w.math.to_int)(
            fractional(from)->0,
            read_float(w, src, fractional(from)->0),
            if unsigned {
                Width::W64
            } else {
                width
            },
        ),
        (None, None) => (w.math.convert)(
            fractional(from)->0,
            fractional(to)->0,
            read_float(w, src, fractional(from)->0),
        ),
    }
}

/// A conversion gives the destination the converted value. The type that it converts to
/// is one of numbers.
#[verifier::spinoff_prover]
#[verifier::rlimit(60)]
pub proof fn law_conversions_convert(
    cx: &Cx,
    w: World,
    dst: LocalId,
    to: Type,
    overflow: bool,
    unsigned: bool,
    src: Operand,
)
    requires
        lowering(StmtKind::Conv { dst, to, overflow, unsigned, src }, cx) is Some,
        exists_in(cx, src),
        !(to is Ref) && !(to is ByRef),
    ensures
        sets(
            w,
            follow(w, lowering(StmtKind::Conv { dst, to, overflow, unsigned, src }, cx)->0, 0),
            dst,
            conversion(cx, w, to, unsigned, src),
        ),
{
    reveal(conv_trunc_rule);
    reveal(conv_ext_rule);
    reveal(conv_u64_to_f_rule);
    reveal(conv_i_to_f_rule);
    reveal(conv_f_to_i_rule);
    reveal(conv_f_to_f_rule);
    reveal(step);
    reveal_with_fuel(follow, 2);
    lemma_reads(cx, w, src, src);
}

/// Checked arithmetic gives the exact value where it fits and throws where it does not.
pub proof fn law_checked_operators_check(
    cx: &Cx,
    w: World,
    dst: LocalId,
    op: BinaryOp,
    unsigned: bool,
    lhs: Operand,
    rhs: Operand,
    ty: Type,
)
    requires
        lowering(StmtKind::BinaryOvf { dst, op, unsigned, lhs, rhs }, cx) is Some,
        typed(cx, dst, ty),
    ensures
        ({
            let end = follow(
                w,
                lowering(StmtKind::BinaryOvf { dst, op, unsigned, lhs, rhs }, cx)->0,
                0,
            );
            let width = whole(ty)->0;
            let x = counted(unsigned, width, read(w, lhs, width));
            let y = counted(unsigned, width, read(w, rhs, width));
            let exact = match op {
                BinaryOp::Add => x + y,
                BinaryOp::Sub => x - y,
                _ => x * y,
            };
            &&& op is Add || op is Sub || op is Mul
            &&& if fits(unsigned, bits_of(width), exact) {
                sets(w, end, dst, exact % modulus(width))
            } else {
                end == End::Throws(w)
            }
        }),
{
    reveal(arith_ovf_rule);
    reveal(step);
    reveal_with_fuel(follow, 2);
    lemma_reads(cx, w, lhs, rhs);
}

/// A checked conversion gives the number where it fits and throws where it does not.
pub proof fn law_checked_conversions_check(
    cx: &Cx,
    w: World,
    dst: LocalId,
    dst_bits: u8,
    signed_dst: bool,
    unsigned_src: bool,
    src: Operand,
)
    requires
        lowering(StmtKind::ConvOvf { dst, dst_bits, signed_dst, unsigned_src, src }, cx) is Some,
        exists_in(cx, src),
    ensures
        ({
            let end = follow(
                w,
                lowering(StmtKind::ConvOvf { dst, dst_bits, signed_dst, unsigned_src, src }, cx)->0,
                0,
            );
            let width = whole(type_of_operand(cx, src))->0;
            let x = counted(unsigned_src, width, read(w, src, width));
            if fits(!signed_dst, dst_bits as int, x) {
                sets(w, end, dst, x % modulus(Width::W64))
            } else {
                end == End::Throws(w)
            }
        }),
{
    reveal(conv_ovf_rule);
    reveal(step);
    reveal_with_fuel(follow, 2);
    lemma_reads(cx, w, src, src);
}

/// The check of a float copies it where it is finite and else throws.
pub proof fn law_finite_checks_check(cx: &Cx, w: World, dst: LocalId, src: Operand)
    requires
        lowering(StmtKind::CkFinite { dst, src }, cx) is Some,
        exists_in(cx, src),
    ensures
        ({
            let end = follow(w, lowering(StmtKind::CkFinite { dst, src }, cx)->0, 0);
            let width = fractional(type_of_operand(cx, src))->0;
            let x = read_float(w, src, width);
            if (w.math.finite)(width, x) {
                sets(w, end, dst, x)
            } else {
                end == End::Throws(w)
            }
        }),
{
    reveal(ckfinite_rule);
    reveal(step);
    reveal_with_fuel(follow, 2);
    lemma_reads(cx, w, src, src);
}

/// A null check throws on null, and a bounds check on an index, unsigned, that is not
/// below the length of the array.
pub proof fn law_checks_check(cx: &Cx, w: World, array: Operand, index: Operand)
    requires
        exists_in(cx, index),
    ensures
        lowering(StmtKind::NullCheck { arg: array }, cx) is Some ==> follow(
            w,
            lowering(StmtKind::NullCheck { arg: array }, cx)->0,
            0,
        ) == if read(w, array, Width::W64) == 0 {
            End::Throws(w)
        } else {
            End::On(w)
        },
        lowering(StmtKind::BoundsCheck { array, index }, cx) is Some ==> follow(
            w,
            lowering(StmtKind::BoundsCheck { array, index }, cx)->0,
            0,
        ) == if read(w, index, whole(type_of_operand(cx, index))->0) < (w.length)(
            read(w, array, Width::W64),
        ) {
            End::On(w)
        } else {
            End::Throws(w)
        },
{
    reveal(null_check_rule);
    reveal(bounds_check_rule);
    reveal(step);
    reveal_with_fuel(follow, 2);
    lemma_reads(cx, w, array, index);
}

/// The bytes of a value of a type in memory.
pub open spec fn size_in_memory(ty: Type) -> nat {
    match ty {
        Type::Int32 | Type::Float => 4,
        _ => 8,
    }
}

/// What a load from an address reads: a value of its type, or a narrower integer that is
/// extended.
pub open spec fn loaded(w: World, at: int, ty: Type, access: MemAccess) -> int {
    match access {
        MemAccess::Natural => load(w.bytes, at, size_in_memory(ty)),
        MemAccess::I8 => widened(1, true, load(w.bytes, at, 1)),
        MemAccess::U8 => load(w.bytes, at, 1),
        MemAccess::I16 => widened(2, true, load(w.bytes, at, 2)),
        MemAccess::U16 => load(w.bytes, at, 2),
    }
}

/// A load gives the destination what stands at the address plus the offset.
#[verifier::spinoff_prover]
#[verifier::rlimit(60)]
pub proof fn law_loads_load(
    cx: &Cx,
    w: World,
    dst: LocalId,
    addr: Operand,
    offset: u32,
    ty: Type,
    access: MemAccess,
)
    requires
        lowering(StmtKind::Load { dst, addr, offset, ty, access }, cx) is Some,
        offset < 0x8000_0000,
    ensures
        sets(
            w,
            follow(w, lowering(StmtKind::Load { dst, addr, offset, ty, access }, cx)->0, 0),
            dst,
            loaded(w, (pointer(w, addr) + offset) % modulus(Width::W64), ty, access),
        ),
{
    reveal(load_mem_rule);
    reveal(load_mem_f_rule);
    reveal(load_mem_narrow_rule);
    reveal(step);
    reveal_with_fuel(follow, 2);
    lemma_reads(cx, w, addr, addr);
}

/// A store changes the bytes at the address plus the offset, as many as the cell has,
/// to those of the value, and no other byte.
pub proof fn law_stores_store(
    cx: &Cx,
    w: World,
    addr: Operand,
    offset: u32,
    src: Operand,
    access: MemAccess,
)
    requires
        lowering(StmtKind::Store { addr, offset, src, access }, cx) is Some,
        offset < 0x8000_0000,
        exists_in(cx, src),
    ensures
        ({
            let ty = type_of_operand(cx, src);
            let n = match access {
                MemAccess::Natural => size_in_memory(ty),
                MemAccess::I8 | MemAccess::U8 => 1,
                MemAccess::I16 | MemAccess::U16 => 2,
            };
            let v = match (access, whole(ty)) {
                (MemAccess::Natural, Some(width)) => read(w, src, width),
                (MemAccess::Natural, None) => read_float(w, src, fractional(ty)->0),
                _ => read(w, src, Width::W32),
            };
            leaves(
                w,
                follow(w, lowering(StmtKind::Store { addr, offset, src, access }, cx)->0, 0),
                stored(w.bytes, (pointer(w, addr) + offset) % modulus(Width::W64), n, v),
            )
        }),
{
    reveal(store_mem_rule);
    reveal(store_mem_f_rule);
    reveal(store_mem_narrow_rule);
    reveal(step);
    reveal_with_fuel(follow, 2);
    lemma_reads(cx, w, addr, src);
}

/// A struct copy changes the bytes of the struct at the destination address plus the
/// offset to those that stood at the source address, and no other byte.
pub proof fn law_struct_copies_copy(
    cx: &Cx,
    w: World,
    dst_addr: Operand,
    dst_offset: u32,
    src_addr: Operand,
    class: ClassHandle,
    x: int,
)
    requires
        lowering(StmtKind::BlockCopy { dst_addr, dst_offset, src_addr, class }, cx) is Some,
    ensures
        ({
            let size = cx.layouts.layout_of(class)->0.size;
            let end = follow(
                w,
                lowering(StmtKind::BlockCopy { dst_addr, dst_offset, src_addr, class }, cx)->0,
                0,
            );
            let to = pointer(w, dst_addr) + dst_offset;
            let from = pointer(w, src_addr);
            &&& end is On
            &&& leaves(w, end, end->On_0.bytes)
            &&& (end->On_0.bytes)(x) == if to <= x < to + size {
                (w.bytes)(from + (x - to))
            } else {
                (w.bytes)(x)
            }
        }),
{
    reveal(block_copy_rule);
    reveal(step);
    reveal_with_fuel(follow, 2);
}

/// A struct that is cleared is zero in all its bytes, and no other byte changes.
pub proof fn law_struct_clears_clear(
    cx: &Cx,
    w: World,
    dst_addr: Operand,
    class: ClassHandle,
    x: int,
)
    requires
        lowering(StmtKind::BlockZero { dst_addr, class }, cx) is Some,
    ensures
        ({
            let size = cx.layouts.layout_of(class)->0.size;
            let end = follow(w, lowering(StmtKind::BlockZero { dst_addr, class }, cx)->0, 0);
            let to = pointer(w, dst_addr);
            &&& end is On
            &&& leaves(w, end, end->On_0.bytes)
            &&& (end->On_0.bytes)(x) == if to <= x < to + size {
                0
            } else {
                (w.bytes)(x)
            }
        }),
{
    reveal(block_zero_rule);
    reveal(step);
    reveal_with_fuel(follow, 2);
}

/// A copy and a fill of so many bytes as an operand says. A fill takes the low byte of
/// its operand.
pub proof fn law_blocks_are_copied_and_filled(
    cx: &Cx,
    w: World,
    dst_addr: Operand,
    src_addr: Operand,
    fill: Operand,
    size: Operand,
    x: int,
)
    ensures
        lowering(StmtKind::BlockCopyDyn { dst_addr, src_addr, size }, cx) is Some ==> ({
            let end = follow(
                w,
                lowering(StmtKind::BlockCopyDyn { dst_addr, src_addr, size }, cx)->0,
                0,
            );
            let to = pointer(w, dst_addr);
            &&& end is On
            &&& leaves(w, end, end->On_0.bytes)
            &&& (end->On_0.bytes)(x) == if to <= x < to + read(w, size, Width::W64) {
                (w.bytes)(pointer(w, src_addr) + (x - to))
            } else {
                (w.bytes)(x)
            }
        }),
        lowering(StmtKind::BlockFillDyn { dst_addr, fill, size }, cx) is Some ==> ({
            let end = follow(
                w,
                lowering(StmtKind::BlockFillDyn { dst_addr, fill, size }, cx)->0,
                0,
            );
            let to = pointer(w, dst_addr);
            &&& end is On
            &&& leaves(w, end, end->On_0.bytes)
            &&& (end->On_0.bytes)(x) == if to <= x < to + read(w, size, Width::W64) {
                read(w, fill, Width::W32) % 256
            } else {
                (w.bytes)(x)
            }
        }),
{
    reveal(block_copy_dyn_rule);
    reveal(block_fill_dyn_rule);
    reveal(step);
    reveal_with_fuel(follow, 2);
    lemma_reads(cx, w, fill, size);
}

/// Memory that is taken from the stack: its address goes to the destination.
pub proof fn law_stack_memory_is_taken(cx: &Cx, w: World, dst: LocalId, size: Operand)
    requires
        lowering(StmtKind::LocAlloc { dst, size }, cx) is Some,
    ensures
        sets(
            w,
            follow(w, lowering(StmtKind::LocAlloc { dst, size }, cx)->0, 0),
            dst,
            (w.taken)(read(w, size, Width::W64)),
        ),
{
    reveal(loc_alloc_rule);
    reveal(step);
    reveal_with_fuel(follow, 2);
    lemma_reads(cx, w, size, size);
}

/// A return leaves an integer or a pointer in `rax` and a float in `xmm0`, changes
/// nothing else that is seen, and returns.
pub proof fn law_returns_return(cx: &Cx, w: World, v: Operand)
    requires
        lowering(StmtKind::Return { value: Some(v) }, cx) is Some,
        exists_in(cx, v),
    ensures
        match follow(w, lowering(StmtKind::Return { value: Some(v) }, cx)->0, 0) {
            End::Returns(after) => {
                &&& undisturbed(w, after)
                &&& match whole(type_of_operand(cx, v)) {
                    Some(width) => after.gpr[Gpr::Rax] == read(w, v, width),
                    None => {
                        let width = fractional(type_of_operand(cx, v))->0;
                        after.xmm[Xmm::Xmm0] == read_float(w, v, width)
                    },
                }
            },
            _ => false,
        },
        follow(w, lowering(StmtKind::Return { value: None }, cx)->0, 0) == End::Returns(w),
{
    lemma_bare_return(w);
    if let Some(width) = whole(type_of_operand(cx, v)) {
        lemma_whole_return(cx, w, v, width);
    } else {
        lemma_float_return(cx, w, v);
    }
}

proof fn lemma_whole_return(cx: &Cx, w: World, v: Operand, width: Width)
    requires
        or_else(return_value_rule(cx, v), return_value_f_rule(cx, v)) is Some,
        exists_in(cx, v),
        whole(type_of_operand(cx, v)) == Some(width),
    ensures
        follow(w, or_else(return_value_rule(cx, v), return_value_f_rule(cx, v))->0, 0)
            == End::Returns(World { gpr: w.gpr.insert(Gpr::Rax, read(w, v, width)), ..w }),
{
    let load = Inst::Mov { width, dst: Place::Reg(Gpr::Rax), src: operand_src(v)->0 };
    assert(return_value_rule(cx, v) == Some(seq![load, Inst::Leave, Inst::Ret])) by {
        reveal(return_value_rule);
        reveal(return_value_f_rule);
    }
    assert(operand_src(v) is Some) by {
        reveal(return_value_rule);
    }
    lemma_read(w, v, width);
    let w1 = World { gpr: w.gpr.insert(Gpr::Rax, read(w, v, width)), ..w };
    assert(step(w, load) == End::On(w1)) by {
        reveal(step);
    }
    lemma_returns(w, w1, load);
}

proof fn lemma_float_return(cx: &Cx, w: World, v: Operand)
    requires
        or_else(return_value_rule(cx, v), return_value_f_rule(cx, v)) is Some,
        exists_in(cx, v),
        whole(type_of_operand(cx, v)) is None,
    ensures
        ({
            let width = fractional(type_of_operand(cx, v))->0;
            let w1 = World { xmm: w.xmm.insert(Xmm::Xmm0, read_float(w, v, width)), ..w };
            follow(w, or_else(return_value_rule(cx, v), return_value_f_rule(cx, v))->0, 0)
                == End::Returns(w1)
        }),
{
    let width = fractional(type_of_operand(cx, v))->0;
    let load = Inst::MovF { width, dst: XmmPlace::Reg(Xmm::Xmm0), src: xmm_opnd(cx, v)->0 };
    assert(return_value_rule(cx, v) is None) by {
        reveal(return_value_rule);
    }
    assert(xmm_opnd(cx, v) is Some && return_value_f_rule(cx, v) == Some(
        seq![load, Inst::Leave, Inst::Ret],
    )) by {
        reveal(return_value_f_rule);
    }
    lemma_read_float(cx, w, v, width);
    let w1 = World { xmm: w.xmm.insert(Xmm::Xmm0, read_float(w, v, width)), ..w };
    assert(step(w, load) == End::On(w1)) by {
        reveal(step);
    }
    lemma_returns(w, w1, load);
}

/// An instruction, and then the epilog.
proof fn lemma_returns(w: World, after: World, load: Inst)
    requires
        step(w, load) == End::On(after),
    ensures
        follow(w, seq![load, Inst::Leave, Inst::Ret], 0) == End::Returns(after),
{
    let insts = seq![load, Inst::Leave, Inst::Ret];
    lemma_on(w, after, insts, 0);
    assert(step(after, Inst::Leave) == End::On(after) && step(after, Inst::Ret) == End::Returns(
        after,
    )) by {
        reveal(step);
    }
    lemma_on(after, after, insts, 1);
    assert(insts[2] == Inst::Ret);
}

proof fn lemma_bare_return(w: World)
    ensures
        follow(w, seq![Inst::Leave, Inst::Ret], 0) == End::Returns(w),
{
    let insts = seq![Inst::Leave, Inst::Ret];
    assert(step(w, Inst::Leave) == End::On(w) && step(w, Inst::Ret) == End::Returns(w)) by {
        reveal(step);
    }
    lemma_on(w, w, insts, 0);
    assert(insts[1] == Inst::Ret);
}

} // verus!
