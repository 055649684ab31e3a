//! The condition flags between a comparison and the instruction that reads them.
//!
//! An integer comparison leaves the flags of a difference, and each operator has a
//! condition that reads its truth value from them. A float comparison has four
//! outcomes, and the flags tell them apart only in
//! part: a pair that is not ordered, because one side is no number, looks equal
//! and less at once. The laws here say that the conditions chosen for each
//! operator give its truth value for every outcome, and that nothing between a
//! comparison and its reader changes the flags.

use crate::bind::{
    apply_spec, bound_at, define_temp_reg_spec, emit_cmp_f_spec, emit_cmp_spec, emit_inst_spec,
    emit_jcc_f_spec, emit_plain_inst_spec, emit_setcc_f_spec, emit_setcc_spec, float_recipe, is_gc,
    place_int_spec, run_moves_spec, scratch_spec, setcc_f_into_spec, sign_mask, slot_mem,
    slot_of_spec, ty_of_spec, Bound, Ctx, Exclude, FloatRecipe, Halt, Loc, Move, Op, Reply, Request,
    Second,
};
use crate::encode::{AluOp, Rm, Rmi};
use crate::inst::{CondCode, FWidth, Inst, Place, Src, Width, XmmSrc};
use crate::ir::{BinaryOp, BlockId, Label, LocalId};
use crate::machine::{modulus, signed};
use crate::regs::Gpr;
use vstd::prelude::*;

verus! {

/// The outcome of a float comparison.
pub enum Relation {
    Less,
    Equal,
    Greater,
    /// One side is no number.
    Unordered,
}

/// The flags of a comparison.
pub struct Flags {
    pub zero: bool,
    pub parity: bool,
    pub carry: bool,
    pub sign: bool,
    pub overflow: bool,
}

/// The flags that `ucomiss` and `ucomisd` set. They clear the last two.
pub open spec fn float_flags(relation: Relation) -> Flags {
    Flags {
        zero: relation is Equal || relation is Unordered,
        parity: relation is Unordered,
        carry: relation is Less || relation is Unordered,
        sign: false,
        overflow: false,
    }
}

/// How many bits of a number are set.
pub open spec fn ones(x: nat) -> nat
    decreases x,
{
    if x == 0 {
        0
    } else {
        x % 2 + ones(x / 2)
    }
}

/// The flags that `cmp` sets for two numbers of a width: those of their difference.
#[verifier::opaque]
pub open spec fn int_flags(width: Width, x: int, y: int) -> Flags {
    let exact = signed(width, x) - signed(width, y);
    Flags {
        zero: x == y,
        parity: ones(((x - y) % 256) as nat) % 2 == 0,
        carry: x < y,
        sign: 2 * ((x - y) % modulus(width)) >= modulus(width),
        overflow: !(-modulus(width) <= 2 * exact < modulus(width)),
    }
}

/// The condition holds.
pub open spec fn holds(cc: CondCode, flags: Flags) -> bool {
    match cc {
        CondCode::Eq => flags.zero,
        CondCode::Ne => !flags.zero,
        CondCode::Lt => flags.sign != flags.overflow,
        CondCode::Le => flags.zero || flags.sign != flags.overflow,
        CondCode::Gt => !flags.zero && flags.sign == flags.overflow,
        CondCode::Ge => flags.sign == flags.overflow,
        CondCode::ULt => flags.carry,
        CondCode::ULe => flags.carry || flags.zero,
        CondCode::UGt => !flags.carry && !flags.zero,
        CondCode::UGe => !flags.carry,
        CondCode::Parity => flags.parity,
        CondCode::NotParity => !flags.parity,
    }
}

/// The truth value of an integer comparison. The `U` forms compare the numbers as
/// they are, the others as signed ones.
pub open spec fn int_truth(op: BinaryOp, width: Width, x: int, y: int) -> bool {
    match op {
        BinaryOp::Eq => x == y,
        BinaryOp::Ne => x != y,
        BinaryOp::Lt => signed(width, x) < signed(width, y),
        BinaryOp::Le => signed(width, x) <= signed(width, y),
        BinaryOp::Gt => signed(width, x) > signed(width, y),
        BinaryOp::Ge => signed(width, x) >= signed(width, y),
        BinaryOp::ULt => x < y,
        BinaryOp::ULe => x <= y,
        BinaryOp::UGt => x > y,
        BinaryOp::UGe => x >= y,
        _ => false,
    }
}

/// After `cmp`, the condition of an operator holds exactly where the comparison
/// does.
pub proof fn law_integer_condition(op: BinaryOp, cc: CondCode, width: Width, x: int, y: int)
    requires
        CondCode::of(op) == Some(cc),
        0 <= x < modulus(width),
        0 <= y < modulus(width),
    ensures
        holds(cc, int_flags(width, x, y)) == int_truth(op, width, x, y),
{
    reveal(int_flags);
    let m = modulus(width);
    let exact = signed(width, x) - signed(width, y);
    assert((x - y) % m == if x >= y {
        x - y
    } else {
        x - y + m
    }) by {
        match width {
            Width::W32 => {},
            Width::W64 => {},
        }
    }
    assert((int_flags(width, x, y).sign != int_flags(width, x, y).overflow) == (exact < 0));
}

/// The truth value of a float comparison. The `U` forms hold for a pair that is
/// not ordered, and so does inequality; the others do not.
pub open spec fn float_truth(op: BinaryOp, relation: Relation) -> bool {
    match op {
        BinaryOp::Eq => relation is Equal,
        BinaryOp::Ne => !(relation is Equal),
        BinaryOp::Lt => relation is Less,
        BinaryOp::Le => relation is Less || relation is Equal,
        BinaryOp::Gt => relation is Greater,
        BinaryOp::Ge => relation is Greater || relation is Equal,
        BinaryOp::ULt => relation is Less || relation is Unordered,
        BinaryOp::ULe => !(relation is Greater),
        BinaryOp::UGt => relation is Greater || relation is Unordered,
        BinaryOp::UGe => !(relation is Less),
        _ => false,
    }
}

/// The operator compares.
pub open spec fn is_comparison(op: BinaryOp) -> bool {
    CondCode::of(op) is Some
}

/// The value that a recipe makes of the flags.
pub open spec fn recipe_value(recipe: FloatRecipe, flags: Flags) -> bool {
    match recipe.second {
        Second::Nothing => holds(recipe.first, flags),
        Second::And(cc) => holds(recipe.first, flags) && holds(cc, flags),
        Second::Or(cc) => holds(recipe.first, flags) || holds(cc, flags),
    }
}

/// Every comparison has a recipe, and its value is the truth value of the
/// comparison, whatever the outcome.
pub proof fn law_float_recipe(op: BinaryOp, relation: Relation)
    ensures
        float_recipe(op) is Some <==> is_comparison(op),
        float_recipe(op) is Some ==> recipe_value(float_recipe(op)->0, float_flags(relation))
            == float_truth(op, relation),
{
}

/// Where a label is bound in `ops`, from `at` on.
pub open spec fn label_index(ops: Seq<Op>, label: Label, at: int) -> int
    decreases ops.len() - at,
{
    if at >= ops.len() {
        ops.len() as int
    } else if ops[at] == (Op::Bind { label }) {
        at
    } else {
        label_index(ops, label, at + 1)
    }
}

/// Running `ops` from `at` on leads to `target`. A label that is not bound behind
/// the jump is left for the caller.
pub open spec fn leads_to(ops: Seq<Op>, at: int, flags: Flags, target: Label) -> bool
    decreases ops.len() - at,
{
    if at >= ops.len() {
        false
    } else {
        match ops[at] {
            Op::Jcc { cc, target: label } => if !holds(cc, flags) {
                leads_to(ops, at + 1, flags, target)
            } else if label == target {
                true
            } else {
                let next = label_index(ops, label, at + 1);
                if next < at + 1 || next >= ops.len() {
                    false
                } else {
                    leads_to(ops, next, flags, target)
                }
            },
            _ => leads_to(ops, at + 1, flags, target),
        }
    }
}

/// The jumps of a float branch lead to its target exactly where the comparison
/// holds. The target is not the label that the branch makes for itself.
pub proof fn law_float_branch(c: Ctx, b: Bound, op: BinaryOp, target: Label, relation: Relation)
    requires
        is_comparison(op),
        target != Label(BlockId(b.synthetic)),
        emit_jcc_f_spec(c, b, op, target) is Ok,
    ensures
        ({
            let (after, _) = emit_jcc_f_spec(c, b, op, target)->Ok_0;
            &&& b.ops.len() < after.ops.len()
            &&& after.ops.take(b.ops.len() as int) == b.ops
            &&& leads_to(
                after.ops.skip(b.ops.len() as int),
                0,
                float_flags(relation),
                target,
            ) == float_truth(op, relation)
        }),
{
    reveal(emit_jcc_f_spec);
    reveal_with_fuel(leads_to, 5);
    reveal_with_fuel(label_index, 5);
    let (after, _) = emit_jcc_f_spec(c, b, op, target)->Ok_0;
    let ops = after.ops.skip(b.ops.len() as int);
    assert(after.ops.take(b.ops.len() as int) =~= b.ops);
}

/// An integer branch is one jump. After `cmp` it leads to its target exactly where
/// the comparison holds.
pub proof fn law_integer_branch(
    c: Ctx,
    b: Bound,
    op: BinaryOp,
    cc: CondCode,
    target: Label,
    width: Width,
    x: int,
    y: int,
)
    requires
        CondCode::of(op) == Some(cc),
        0 <= x < modulus(width),
        0 <= y < modulus(width),
    ensures
        emit_inst_spec(c, b, Inst::Jcc { cc, target }) == Ok::<_, Halt>(
            (b.emit(Op::Jcc { cc, target }), ()),
        ),
        leads_to(
            seq![Op::Jcc { cc, target }],
            0,
            int_flags(width, x, y),
            target,
        ) == int_truth(op, width, x, y),
{
    reveal(emit_plain_inst_spec);
    reveal_with_fuel(leads_to, 2);
    law_integer_condition(op, cc, width, x, y);
}

/// The instruction leaves the flags alone.
pub open spec fn keeps_flags(op: Op) -> bool {
    match op {
        Op::Mov { .. }
        | Op::Lea { .. }
        | Op::Setcc { .. }
        | Op::Movsxd { .. }
        | Op::MovFLoad { .. }
        | Op::MovFStore { .. }
        | Op::MovGprToXmm { .. }
        | Op::Jcc { .. }
        | Op::Jmp { .. }
        | Op::Bind { .. }
        | Op::Push { .. }
        | Op::Leave
        | Op::Cdq { .. } => true,
        _ => false,
    }
}

/// The instruction reads the flags.
pub open spec fn reads_flags(op: Op) -> bool {
    op is Setcc || op is Jcc
}

/// The parts of `after` that `b` does not have are moves.
spec fn only_moves(b: Bound, after: Bound) -> bool {
    &&& b.ops.len() <= after.ops.len()
    &&& forall|i: int| 0 <= i < b.ops.len() ==> #[trigger] after.ops[i] == b.ops[i]
    &&& forall|i: int| b.ops.len() <= i < after.ops.len() ==> (#[trigger] after.ops[i]) is Mov
}

proof fn lemma_apply_is_moves(b: Bound, moves: Seq<Move>, n: nat)
    ensures
        apply_spec(b, moves, n) is Ok ==> only_moves(b, bound_at(apply_spec(b, moves, n))),
    decreases n,
{
    if n > 0 {
        lemma_apply_is_moves(b, moves, (n - 1) as nat);
    }
}

proof fn lemma_run_is_moves(c: Ctx, b: Bound, request: Request)
    ensures
        run_moves_spec(c, b, request) is Ok ==> only_moves(
            b,
            bound_at(run_moves_spec(c, b, request)),
        ),
{
    if b.next < c.replies.len() {
        if let Reply::Moves(moves) = c.replies[b.next as int] {
            lemma_apply_is_moves(b.used(request), moves@, moves@.len());
        }
    }
}

proof fn lemma_scratch_is_moves(c: Ctx, b: Bound, exclude: Exclude)
    ensures
        scratch_spec(c, b, exclude) is Ok ==> only_moves(b, bound_at(scratch_spec(c, b, exclude))),
{
    if b.next < c.replies.len() {
        if let Reply::Scratch { reg, moves } = c.replies[b.next as int] {
            lemma_apply_is_moves(b.used(Request::TakeScratch(exclude)), moves@, moves@.len());
        }
    }
}

/// Every instruction of `after` that reads the flags finds them as they were
/// before what `after` adds to `b`.
pub open spec fn reads_given_flags(b: Bound, after: Bound) -> bool {
    forall|i: int, j: int|
        b.ops.len() <= i < j < after.ops.len() && reads_flags(#[trigger] after.ops[j])
            ==> keeps_flags(#[trigger] after.ops[i])
}

proof fn lemma_define_temp_is_moves(c: Ctx, b: Bound, t: LocalId, g: Gpr)
    ensures
        define_temp_reg_spec(c, b, t, g) is Ok ==> only_moves(
            b,
            bound_at(define_temp_reg_spec(c, b, t, g)),
        ),
{
    if let Ok((b, ty)) = ty_of_spec(c, b, t) {
        if is_gc(ty) {
            if let Ok((b, slot)) = slot_of_spec(c, b, t) {
                let b = b.emit(
                    Op::Mov {
                        width: Width::W64,
                        dst: Rm::Mem(slot_mem(slot)),
                        src: Rmi::Reg(g),
                    },
                );
                lemma_run_is_moves(c, b, Request::Define(t, Loc::Mem(slot)));
            }
        } else {
            lemma_run_is_moves(c, b, Request::Define(t, Loc::Reg(g.phys())));
        }
    }
}

/// The `setcc` of a comparison reads the flags that the comparison left: what is
/// emitted for it up to there, spills included, leaves the flags alone.
pub proof fn law_setcc_reads_the_comparison(c: Ctx, b: Bound, cc: CondCode, dst: Place)
    requires
        emit_setcc_spec(c, b, cc, dst) is Ok,
    ensures
        ({
            let (after, _) = emit_setcc_spec(c, b, cc, dst)->Ok_0;
            &&& reads_given_flags(b, after)
            &&& exists|i: int|
                b.ops.len() <= i < after.ops.len() && (#[trigger] after.ops[i]) is Setcc
                    && after.ops[i]->Setcc_cc == cc
        }),
{
    reveal(emit_setcc_spec);
    let (after, _) = emit_setcc_spec(c, b, cc, dst)->Ok_0;
    match dst {
        Place::Val(t) => {
            lemma_scratch_is_moves(c, b, Exclude::Nothing);
            let (mid, g) = scratch_spec(c, b, Exclude::Nothing)->Ok_0;
            let set = mid.emit(
                Op::Mov { width: Width::W32, dst: Rm::Reg(g), src: Rmi::Imm(0) },
            ).emit(Op::Setcc { cc, dst: g });
            lemma_define_temp_is_moves(c, set, t.0, g);
            assert(after.ops[mid.ops.len() as int + 1] == set.ops[mid.ops.len() as int + 1]);
        },
        Place::Reg(g) => {
            lemma_run_is_moves(c, b, Request::Clobber(g.phys()));
            let (mid, _) = run_moves_spec(c, b, Request::Clobber(g.phys()))->Ok_0;
            assert(after.ops[mid.ops.len() as int + 1] == (Op::Setcc { cc, dst: g }));
        },
    }
}

/// The instructions of a float `setcc` up to the one that joins its parts.
proof fn lemma_setcc_f_into(c: Ctx, b: Bound, op: BinaryOp)
    requires
        setcc_f_into_spec(c, b, op) is Ok,
    ensures
        ({
            let after = bound_at(setcc_f_into_spec(c, b, op));
            &&& b.ops.len() <= after.ops.len()
            &&& reads_given_flags(b, after)
        }),
{
    let recipe = float_recipe(op)->0;
    lemma_scratch_is_moves(c, b, Exclude::Nothing);
    let (mid, ga) = scratch_spec(c, b, Exclude::Nothing)->Ok_0;
    let first = mid.emit(
        Op::Mov { width: Width::W32, dst: Rm::Reg(ga), src: Rmi::Imm(0) },
    ).emit(Op::Setcc { cc: recipe.first, dst: ga });
    assert(forall|i: int|
        b.ops.len() <= i < first.ops.len() ==> keeps_flags(#[trigger] first.ops[i]));
    lemma_scratch_is_moves(c, first, Exclude::One(ga.phys()));
}

proof fn lemma_place_int_is_moves(c: Ctx, b: Bound, dst: Place, g: Gpr)
    ensures
        place_int_spec(c, b, dst, Width::W32, g) is Ok ==> only_moves(
            b,
            bound_at(place_int_spec(c, b, dst, Width::W32, g)),
        ),
{
    match dst {
        Place::Val(t) => {
            lemma_define_temp_is_moves(c, b, t.0, g);
        },
        Place::Reg(to) => {
            lemma_run_is_moves(c, b, Request::Clobber(to.phys()));
        },
    }
}

/// Both `setcc`s of a float comparison read the flags that the comparison left.
pub proof fn law_float_setcc_reads_the_comparison(c: Ctx, b: Bound, op: BinaryOp, dst: Place)
    requires
        emit_setcc_f_spec(c, b, op, dst) is Ok,
    ensures
        ({
            let (after, _) = emit_setcc_f_spec(c, b, op, dst)->Ok_0;
            reads_given_flags(b, after)
        }),
{
    reveal(emit_setcc_f_spec);
    lemma_setcc_f_into(c, b, op);
    let (mid, g) = setcc_f_into_spec(c, b, op)->Ok_0;
    lemma_place_int_is_moves(c, mid, dst, g);
}

/// A comparison ends with the instruction that sets the flags.
pub proof fn law_comparison_comes_last(c: Ctx, b: Bound, width: Width, lhs: Src, rhs: Src)
    requires
        emit_cmp_spec(c, b, width, lhs, rhs) is Ok,
    ensures
        ({
            let (after, _) = emit_cmp_spec(c, b, width, lhs, rhs)->Ok_0;
            after.ops.len() > 0 && after.ops.last() is Alu && after.ops.last()->Alu_op == AluOp::Cmp
        }),
{
    reveal(emit_cmp_spec);
}

/// A float comparison ends with the instruction that sets the flags.
pub proof fn law_float_comparison_comes_last(
    c: Ctx,
    b: Bound,
    width: FWidth,
    lhs: XmmSrc,
    rhs: XmmSrc,
)
    requires
        emit_cmp_f_spec(c, b, width, lhs, rhs) is Ok,
    ensures
        ({
            let (after, _) = emit_cmp_f_spec(c, b, width, lhs, rhs)->Ok_0;
            after.ops.len() > 0 && after.ops.last() is Ucomis
        }),
{
    reveal(emit_cmp_f_spec);
}

/// The mask that negates a float flips its sign bit and no other.
pub proof fn law_sign_mask_flips_the_sign(x: u64, y: u32)
    ensures
        (x ^ sign_mask(FWidth::D)) == (if x < 0x8000_0000_0000_0000 {
            x + 0x8000_0000_0000_0000
        } else {
            x - 0x8000_0000_0000_0000
        }),
        ((y as u64) ^ sign_mask(FWidth::S)) == (if y < 0x8000_0000 {
            y + 0x8000_0000
        } else {
            y - 0x8000_0000
        }),
{
    assert(x < 0x8000_0000_0000_0000 ==> x ^ 0x8000_0000_0000_0000 == x + 0x8000_0000_0000_0000)
        by (bit_vector);
    assert(x >= 0x8000_0000_0000_0000 ==> x ^ 0x8000_0000_0000_0000 == x - 0x8000_0000_0000_0000)
        by (bit_vector);
    assert(y < 0x8000_0000 ==> (y as u64) ^ 0x8000_0000u64 == y + 0x8000_0000) by (bit_vector);
    assert(y >= 0x8000_0000 ==> (y as u64) ^ 0x8000_0000u64 == y - 0x8000_0000) by (bit_vector);
}

} // verus!
