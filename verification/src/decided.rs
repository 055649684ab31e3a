//! What bound comparisons, branches and divisions decide and divide.
//!
//! Like the laws on what is computed, these run the instructions that a descriptor is
//! bound to, on any processor.

use crate::bind::{
    bound_at, emit_cmp_spec, emit_divide_spec, emit_float_inst_spec, emit_inst_spec, emit_mov_spec,
    emit_plain_inst_spec, emit_setcc_f_spec, emit_setcc_spec, float_recipe, rmi_of_spec,
    run_moves_spec, scratch_spec, setcc_f_into_spec, wide_imm_of, wide_imm_spec, Bound, Ctx,
    Exclude, Halt, Op, Request,
};
use crate::computed::{
    defines, given, law_sources_are_where_they_are_said_to_be, lemma_defined_by, lemma_halves,
    lemma_moves, lemma_takes,
};
use crate::encode::{Rm, Rmi};
use crate::flags::{
    float_flags, float_truth, int_flags, int_truth, is_comparison, law_float_branch, leads_to,
    Relation,
};
use crate::inst::{CondCode, Inst, Place, ShiftOp, Src, Width};
use crate::ir::{BinaryOp, BlockId, Label};
use crate::machine::{
    added, bit, division_ready, divides, execute, keeps, law_comparison_compares,
    law_float_setcc_computes, law_setcc_computes, law_signed_division_computes,
    law_unsigned_division_computes, lemma_emit, modulus, next_keeps_operand, quotient, reached,
    read_rmi, remainder, set_to, signed, Cpu,
};
use crate::regs::Gpr;
use crate::residency::{lemma_kept_scratch, lemma_kept_setcc_f_into};
use vstd::prelude::*;

verus! {

/// A comparison leaves the flags of its left and its right operand, in that order.
pub proof fn law_comparisons_are_bound(
    cpu: Cpu,
    c: Ctx,
    b: Bound,
    width: Width,
    lhs: Src,
    rhs: Src,
)
    requires
        emit_inst_spec(c, b, Inst::Cmp { width, lhs, rhs }) is Ok,
        ({
            let (second, right) = wide_imm_spec(c, b, width, rhs, Exclude::Nothing)->Ok_0;
            let (got, left) = rmi_of_spec(c, second, lhs)->Ok_0;
            next_keeps_operand(c, got, left) && next_keeps_operand(c, got, right)
        }),
    ensures
        ({
            let second = bound_at(wide_imm_spec(c, b, width, rhs, Exclude::Nothing));
            let x = given(c, second, reached(cpu, b, second), width, lhs);
            let y = given(c, b, cpu, width, rhs);
            let after = bound_at(emit_inst_spec(c, b, Inst::Cmp { width, lhs, rhs }));
            reached(cpu, b, after).flags == int_flags(width, x, y)
        }),
{
    reveal(emit_cmp_spec);
    assert(added(b, b) =~= Seq::empty());
    assert(reached(cpu, b, b) == cpu);
    law_comparison_compares(cpu, c, b, width, lhs, rhs);
    let second = bound_at(wide_imm_spec(c, b, width, rhs, Exclude::Nothing));
    law_sources_are_where_they_are_said_to_be(c, second, reached(cpu, b, second), width, lhs);
    lemma_wide_source(cpu, c, b, width, rhs);
}

/// A source is its value, in a register too where it is a wide constant.
proof fn lemma_wide_source(cpu: Cpu, c: Ctx, b: Bound, width: Width, src: Src)
    requires
        wide_imm_spec(c, b, width, src, Exclude::Nothing) is Ok,
    ensures
        ({
            let (second, rmi) = wide_imm_spec(c, b, width, src, Exclude::Nothing)->Ok_0;
            read_rmi(reached(cpu, b, second), width, rmi) == given(c, b, cpu, width, src)
        }),
{
    law_sources_are_where_they_are_said_to_be(c, b, cpu, width, src);
    let (found, rmi) = rmi_of_spec(c, b, src)->Ok_0;
    assert(added(b, b) =~= Seq::empty());
    assert(added(b, found) == added(b, b));
    if let Some(i) = wide_imm_of(width, rmi) {
        lemma_takes(cpu, c, b, found, Exclude::Nothing, b.next);
        let (taken, g) = scratch_spec(c, found, Exclude::Nothing)->Ok_0;
        lemma_emit(
            cpu,
            b,
            taken,
            Op::Mov { width: Width::W64, dst: Rm::Reg(g), src: Rmi::Imm(i) },
        );
        lemma_halves(i as int);
    }
}

/// Behind a comparison, the truth of its operator is in the place asked for, as 1 or 0.
pub proof fn law_truths_are_bound(
    cpu: Cpu,
    c: Ctx,
    b: Bound,
    op: BinaryOp,
    cc: CondCode,
    dst: Place,
    width: Width,
    x: int,
    y: int,
)
    requires
        emit_inst_spec(c, b, Inst::Setcc { cc, dst }) is Ok,
        CondCode::of(op) == Some(cc),
        0 <= x < modulus(width),
        0 <= y < modulus(width),
        cpu.flags == int_flags(width, x, y),
    ensures
        ({
            let after = bound_at(emit_inst_spec(c, b, Inst::Setcc { cc, dst }));
            let v = bit(int_truth(op, width, x, y));
            match dst {
                Place::Val(t) => defines(cpu, c, b, after, t.0, Width::W64, v),
                Place::Reg(g) => reached(cpu, b, after).gpr[g] == v,
            }
        }),
{
    reveal(emit_setcc_spec);
    law_setcc_computes(cpu, c, b, op, cc, dst, width, x, y);
    assert(added(b, b) =~= Seq::empty());
    match dst {
        Place::Val(t) => {
            lemma_takes(cpu, c, b, b, Exclude::Nothing, b.next);
            let (free, g) = scratch_spec(c, b, Exclude::Nothing)->Ok_0;
            let set = set_to(free, cc, g);
            lemma_defined_by(cpu, c, b, set, t.0, g, Width::W64);
        },
        Place::Reg(_) => {},
    }
}

/// Behind a float comparison, the truth of its operator is in the place asked for, as 1
/// or 0.
pub proof fn law_float_truths_are_bound(
    cpu: Cpu,
    c: Ctx,
    b: Bound,
    op: BinaryOp,
    dst: Place,
    relation: Relation,
)
    requires
        emit_inst_spec(c, b, Inst::SetccF { op, dst }) is Ok,
        cpu.flags == float_flags(relation),
        ({
            let (free, g) = scratch_spec(c, b, Exclude::Nothing)->Ok_0;
            keeps(c, free.next, g)
        }),
    ensures
        ({
            let after = bound_at(emit_inst_spec(c, b, Inst::SetccF { op, dst }));
            let v = bit(float_truth(op, relation));
            match dst {
                Place::Val(t) => defines(cpu, c, b, after, t.0, Width::W64, v),
                Place::Reg(g) => reached(cpu, b, after).gpr[g] == v,
            }
        }),
{
    reveal(emit_float_inst_spec);
    reveal(emit_setcc_f_spec);
    law_float_setcc_computes(cpu, c, b, op, relation);
    lemma_kept_setcc_f_into(c, b, op);
    let (set, g) = setcc_f_into_spec(c, b, op)->Ok_0;
    let v = bit(float_truth(op, relation));
    match dst {
        Place::Val(t) => lemma_defined_by(cpu, c, b, set, t.0, g, Width::W64),
        Place::Reg(to) => {
            let free = bound_at(scratch_spec(c, b, Exclude::Nothing));
            let request = Request::Clobber(to.phys());
            lemma_set_later(c, b, op);
            lemma_moves(cpu, c, b, set, request, free.next);
            let freed = bound_at(run_moves_spec(c, set, request));
            assert(reached(cpu, b, freed).gpr[g] == v);
            lemma_emit(
                cpu,
                b,
                freed,
                Op::Mov { width: Width::W32, dst: Rm::Reg(to), src: Rmi::Reg(g) },
            );
        },
    }
}

/// The replies that the conditions of a float comparison use are used up.
proof fn lemma_set_later(c: Ctx, b: Bound, op: BinaryOp)
    requires
        setcc_f_into_spec(c, b, op) is Ok,
    ensures
        bound_at(scratch_spec(c, b, Exclude::Nothing)).next <= bound_at(
            setcc_f_into_spec(c, b, op),
        ).next,
{
    let (free, g) = scratch_spec(c, b, Exclude::Nothing)->Ok_0;
    let recipe = float_recipe(op)->0;
    lemma_kept_scratch(c, set_to(free, recipe.first, g), Exclude::One(g.phys()));
}

/// A branch on a float comparison is taken exactly where the operator is true.
pub proof fn law_float_branches_are_bound(
    c: Ctx,
    b: Bound,
    op: BinaryOp,
    target: Label,
    relation: Relation,
)
    requires
        is_comparison(op),
        target != Label(BlockId(b.synthetic)),
        emit_inst_spec(c, b, Inst::JccF { op, target }) is Ok,
    ensures
        ({
            let after = bound_at(emit_inst_spec(c, b, Inst::JccF { op, target }));
            let ops = after.ops.skip(b.ops.len() as int);
            leads_to(ops, 0, float_flags(relation), target) == float_truth(op, relation)
        }),
{
    reveal(emit_float_inst_spec);
    law_float_branch(c, b, op, target, relation);
}

/// A jump goes to its label.
pub proof fn law_jumps_are_bound(c: Ctx, b: Bound, target: Label)
    ensures
        emit_inst_spec(c, b, Inst::Jmp { target }) is Ok,
        bound_at(emit_inst_spec(c, b, Inst::Jmp { target })).ops == b.ops.push(
            Op::Jmp { target },
        ),
{
    reveal(emit_plain_inst_spec);
}

/// A dividend in `rax`, its sign in `rdx`, and then the division: the quotient is in
/// `rax`, rounded toward zero, and the remainder in `rdx`.
pub proof fn law_signed_divisions_are_bound(
    cpu: Cpu,
    c: Ctx,
    b: Bound,
    width: Width,
    lhs: Src,
    rhs: Src,
)
    requires
        ({
            let first = Inst::Mov { width, dst: Place::Reg(Gpr::Rax), src: lhs };
            let load = emit_inst_spec(c, b, first);
            let fill = emit_inst_spec(c, bound_at(load), Inst::Cdq { width });
            let divide = emit_inst_spec(c, bound_at(fill), Inst::Idiv { width, divisor: rhs });
            let clear = bound_at(run_moves_spec(c, b, Request::Clobber(Gpr::Rax.phys())));
            let ready = division_ready(c, bound_at(fill));
            &&& load is Ok
            &&& fill is Ok
            &&& divide is Ok
            &&& keeps(c, bound_at(load).next, Gpr::Rax)
            &&& keeps(c, bound_at(fill).next, Gpr::Rdx)
            &&& divides(
                width,
                given(c, clear, reached(cpu, b, clear), width, lhs),
                given(c, ready, reached(cpu, b, ready), width, rhs),
            )
        }),
    ensures
        ({
            let first = Inst::Mov { width, dst: Place::Reg(Gpr::Rax), src: lhs };
            let load = emit_inst_spec(c, b, first);
            let fill = emit_inst_spec(c, bound_at(load), Inst::Cdq { width });
            let divide = emit_inst_spec(c, bound_at(fill), Inst::Idiv { width, divisor: rhs });
            let clear = bound_at(run_moves_spec(c, b, Request::Clobber(Gpr::Rax.phys())));
            let ready = division_ready(c, bound_at(fill));
            let x = signed(width, given(c, clear, reached(cpu, b, clear), width, lhs));
            let y = signed(width, given(c, ready, reached(cpu, b, ready), width, rhs));
            let end = reached(cpu, b, bound_at(divide));
            &&& end.gpr[Gpr::Rax] == quotient(x, y) % modulus(width)
            &&& end.gpr[Gpr::Rdx] == remainder(x, y) % modulus(width)
        }),
{
    reveal(emit_plain_inst_spec);
    let loaded = bound_at(emit_mov_spec(c, b, width, Place::Reg(Gpr::Rax), lhs));
    let freed = run_moves_spec(c, loaded, Request::Clobber(Gpr::Rdx.phys()));
    let filled = bound_at(freed).emit(Op::Cdq { width });
    assert(emit_inst_spec(c, loaded, Inst::Cdq { width }) == Ok::<_, Halt>(
        (filled, ()),
    ));
    let clear = bound_at(run_moves_spec(c, b, Request::Clobber(Gpr::Rax.phys())));
    let ready = division_ready(c, filled);
    assert(rmi_of_spec(c, clear, lhs) is Ok) by {
        reveal(emit_mov_spec);
    }
    assert(rmi_of_spec(c, ready, rhs) is Ok) by {
        reveal(emit_divide_spec);
    }
    law_sources_are_where_they_are_said_to_be(c, clear, reached(cpu, b, clear), width, lhs);
    law_sources_are_where_they_are_said_to_be(c, ready, reached(cpu, b, ready), width, rhs);
    law_signed_division_computes(cpu, c, b, width, lhs, rhs);
}

/// A dividend in `rax`, zero in `rdx`, and then the division without signs: the quotient
/// is in `rax`, and the remainder in `rdx`.
pub proof fn law_unsigned_divisions_are_bound(
    cpu: Cpu,
    c: Ctx,
    b: Bound,
    width: Width,
    lhs: Src,
    rhs: Src,
)
    requires
        ({
            let first = Inst::Mov { width, dst: Place::Reg(Gpr::Rax), src: lhs };
            let load = emit_inst_spec(c, b, first);
            let zero = Inst::Mov { width: Width::W32, dst: Place::Reg(Gpr::Rdx), src: Src::Imm(0) };
            let fill = emit_inst_spec(c, bound_at(load), zero);
            let divide = emit_inst_spec(c, bound_at(fill), Inst::Div { width, divisor: rhs });
            let ready = division_ready(c, bound_at(fill));
            &&& load is Ok
            &&& fill is Ok
            &&& divide is Ok
            &&& keeps(c, bound_at(load).next, Gpr::Rax)
            &&& keeps(c, bound_at(fill).next, Gpr::Rdx)
            &&& given(c, ready, reached(cpu, b, ready), width, rhs) != 0
        }),
    ensures
        ({
            let first = Inst::Mov { width, dst: Place::Reg(Gpr::Rax), src: lhs };
            let load = emit_inst_spec(c, b, first);
            let zero = Inst::Mov { width: Width::W32, dst: Place::Reg(Gpr::Rdx), src: Src::Imm(0) };
            let fill = emit_inst_spec(c, bound_at(load), zero);
            let divide = emit_inst_spec(c, bound_at(fill), Inst::Div { width, divisor: rhs });
            let clear = bound_at(run_moves_spec(c, b, Request::Clobber(Gpr::Rax.phys())));
            let ready = division_ready(c, bound_at(fill));
            let x = given(c, clear, reached(cpu, b, clear), width, lhs);
            let y = given(c, ready, reached(cpu, b, ready), width, rhs);
            let end = reached(cpu, b, bound_at(divide));
            &&& end.gpr[Gpr::Rax] == x / y
            &&& end.gpr[Gpr::Rdx] == x % y
        }),
{
    let loaded = bound_at(emit_mov_spec(c, b, width, Place::Reg(Gpr::Rax), lhs));
    let zeroed = bound_at(emit_mov_spec(c, loaded, Width::W32, Place::Reg(Gpr::Rdx), Src::Imm(0)));
    let clear = bound_at(run_moves_spec(c, b, Request::Clobber(Gpr::Rax.phys())));
    let ready = division_ready(c, zeroed);
    assert(rmi_of_spec(c, clear, lhs) is Ok) by {
        reveal(emit_mov_spec);
    }
    assert(rmi_of_spec(c, ready, rhs) is Ok) by {
        reveal(emit_divide_spec);
    }
    law_sources_are_where_they_are_said_to_be(c, clear, reached(cpu, b, clear), width, lhs);
    law_sources_are_where_they_are_said_to_be(c, ready, reached(cpu, b, ready), width, rhs);
    law_unsigned_division_computes(cpu, c, b, width, lhs, rhs);
}

/// A sign fill reads `rax` and writes `rdx` and no other register; a division reads and
/// writes both. A shift takes a count that is no constant from `rcx`.
pub proof fn law_fixed_registers_are_those_of_the_processor(
    cpu: Cpu,
    width: Width,
    divisor: Src,
    g: Gpr,
    op: ShiftOp,
    dst: Place,
    lhs: Src,
)
    ensures
        ({
            let shift = (Inst::Shift { op, width, dst, lhs, rhs: divisor });
            &&& shift.fixed_defs().contains(g) <==> g == Gpr::Rcx && !(divisor is Imm)
            &&& !shift.fixed_uses().contains(g)
        }),
        ({
            let fill = (Inst::Cdq { width });
            let end = execute(cpu, Op::Cdq { width });
            &&& fill.fixed_defs().contains(g) <==> g == Gpr::Rdx
            &&& fill.fixed_uses().contains(g) <==> g == Gpr::Rax
            &&& !fill.fixed_defs().contains(g) ==> end.gpr[g] == cpu.gpr[g]
        }),
        ({
            let divide = (Inst::Idiv { width, divisor });
            let both = g == Gpr::Rax || g == Gpr::Rdx;
            &&& divide.fixed_defs().contains(g) <==> both
            &&& divide.fixed_uses().contains(g) <==> both
        }),
        ({
            let divide = (Inst::Div { width, divisor });
            let both = g == Gpr::Rax || g == Gpr::Rdx;
            &&& divide.fixed_defs().contains(g) <==> both
            &&& divide.fixed_uses().contains(g) <==> both
        }),
{
    let count = seq![Gpr::Rcx];
    assert(count[0] == Gpr::Rcx);
    let one = seq![Gpr::Rdx];
    assert(one[0] == Gpr::Rdx);
    let other = seq![Gpr::Rax];
    assert(other[0] == Gpr::Rax);
    let two = seq![Gpr::Rax, Gpr::Rdx];
    assert(two[0] == Gpr::Rax && two[1] == Gpr::Rdx);
}

} // verus!
