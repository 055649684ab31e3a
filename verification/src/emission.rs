//! What holds of the code of every method.

use crate::abi::{law_args_are_in_argument_registers, location_of, state_after};
use crate::bind::{
    apply_spec, bound_at, define_temp_reg_spec, emit_arith_spec, emit_call_lookup_spec,
    emit_float_inst_spec, emit_inst_spec, emit_movext_spec, emit_setcc_f_spec, emit_shift_spec,
    emit_unary_spec, ext_into_spec, is_gc, refused, rmi_of_spec, run_moves_spec, scratch_spec,
    slot_mem, slot_of_spec, synthetic_label_spec, ty_of_spec, Bound, CallForm, Ctx, Exclude, Halt,
    Loc, Move, Op, Reply, Request, Step, Stop, FIRST_SYNTHETIC_LABEL, SCRATCH_XMM_A, SCRATCH_XMM_B,
};
use crate::bytes::le32;
use crate::codegen::{
    arg_types, args_work, block_work, blocks_work, call_code, ctx_of, emission, ends_in_return,
    insts_work, is_edge, lemma_more_works, nothing_emitted, op_code, plan, relocation_of, sig_of,
    starts_as_zero, stmt_work, stmts_work, tier0_stop, unbound, with_op, with_ops, with_work,
    with_works, work_bound, zero_op, zero_work, Emission, Site, Work, DIRECT_CALL_LEN,
    INDIRECT_CALL_LEN, SCRATCH_GPRS,
};
use crate::encode::{
    cond_number, field_value, fields_ordered, in_field, law_branches_resolve, law_fields_are_kept,
    law_fields_stay_ordered, reg_enc, AluOp, Fixup, Rm, Rmi,
};
use crate::error::CompileError;
use crate::frame::{layout_error, MAX_FRAME};
use crate::inst::{Inst, Place, Src, Width, CALL_DEFS};
use crate::ir::{Block, BlockId, CallSig, Label, LocalId, Method, MethodHandle, Stmt, StmtKind};
use crate::lower::{block_lowering, frame_prolog, lowering, Cx};
use crate::regs::{Gpr, FLOAT_ARG_REGS, FRAME_POINTER, STACK_POINTER};
use crate::residency::{extends, law_gc_pointers_are_in_the_frame, lemma_noted};
use crate::sequences::{
    jumps, law_statements_spare_callee_saved, lemma_only_calls_call, lemma_only_edges_jump,
};
use crate::spare::{inst_spares, op_spares, spares};
use crate::target::ArgLocation;
use crate::unwind::{prolog_length, AFTER_MOV_RBP_RSP, AFTER_PUSH_RBP};
use vstd::prelude::*;

verus! {

/// The length of a call.
pub open spec fn call_len(form: CallForm) -> u32 {
    match form {
        CallForm::Direct => DIRECT_CALL_LEN,
        CallForm::Indirect => INDIRECT_CALL_LEN,
    }
}

/// A call stands where the record says.
pub open spec fn call_stands(bytes: Seq<u8>, site: Site) -> bool {
    &&& site.offset + call_len(site.form) <= bytes.len()
    &&& bytes.subrange(site.offset as int, site.offset + call_len(site.form)) == call_code(
        site.form,
    )
}

/// The field of a branch is no part of a call.
pub open spec fn field_clear(fixup: Fixup, site: Site) -> bool {
    fixup.at + 4 <= site.offset || site.offset + call_len(site.form) <= fixup.at
}

/// The branches have their fields, the calls stand where their records say, in
/// order, and no two of them overlap.
pub open spec fn well_laid(e: Emission) -> bool {
    &&& e.code.fields_exist()
    &&& fields_ordered(e.code)
    &&& forall|i: int| 0 <= i < e.sites.len() ==> call_stands(e.code.bytes, #[trigger] e.sites[i])
    &&& forall|i: int, j: int|
        0 <= i < j < e.sites.len() ==> (#[trigger] e.sites[i]).offset + call_len(e.sites[i].form)
            <= (#[trigger] e.sites[j]).offset
    &&& forall|i: int, j: int|
        0 <= i < e.code.fixups.len() && 0 <= j < e.sites.len() ==> field_clear(
            #[trigger] e.code.fixups[i],
            #[trigger] e.sites[j],
        )
}

/// The emission is within the reach of its offsets, then it is well laid.
spec fn laid(e: Emission) -> bool {
    e.code.bytes.len() <= u32::MAX ==> well_laid(e)
}

proof fn lemma_call_code_len(form: CallForm)
    ensures
        call_code(form).len() == call_len(form),
{
}

proof fn lemma_stands_on(bytes: Seq<u8>, more: Seq<u8>, site: Site)
    requires
        call_stands(bytes, site),
    ensures
        call_stands(bytes + more, site),
{
    let end = site.offset + call_len(site.form);
    assert((bytes + more).subrange(site.offset as int, end) =~= bytes.subrange(
        site.offset as int,
        end,
    ));
}

/// More bytes leave what is there.
proof fn lemma_laid_emit(e: Emission, more: Seq<u8>)
    requires
        well_laid(e),
        e.code.bytes.len() <= u32::MAX,
    ensures
        well_laid(Emission { code: e.code.emit(more), ..e }),
{
    law_fields_are_kept(e.code, more, Label(BlockId(0)), MethodHandle(0));
    law_fields_stay_ordered(e.code, more, Label(BlockId(0)), MethodHandle(0));
    let after = Emission { code: e.code.emit(more), ..e };
    assert forall|i: int| 0 <= i < after.sites.len() implies call_stands(
        after.code.bytes,
        #[trigger] after.sites[i],
    ) by {
        lemma_stands_on(e.code.bytes, more, e.sites[i]);
    }
}

/// A branch to be filled in leaves what is there.
proof fn lemma_laid_branch(e: Emission, target: Label)
    requires
        well_laid(e),
        e.code.bytes.len() <= u32::MAX,
    ensures
        well_laid(Emission { code: e.code.branch_field(target), ..e }),
{
    law_fields_are_kept(e.code, Seq::empty(), target, MethodHandle(0));
    law_fields_stay_ordered(e.code, Seq::empty(), target, MethodHandle(0));
    let after = Emission { code: e.code.branch_field(target), ..e };
    assert forall|i: int| 0 <= i < after.sites.len() implies call_stands(
        after.code.bytes,
        #[trigger] after.sites[i],
    ) by {
        lemma_stands_on(e.code.bytes, le32(0), e.sites[i]);
    }
    assert forall|i: int, j: int|
        0 <= i < after.code.fixups.len() && 0 <= j < after.sites.len() implies field_clear(
        #[trigger] after.code.fixups[i],
        #[trigger] after.sites[j],
    ) by {
        assert(call_stands(e.code.bytes, e.sites[j]));
        if i < e.code.fixups.len() {
            assert(after.code.fixups[i] == e.code.fixups[i]);
        }
    }
}

/// A recorded call leaves what is there.
proof fn lemma_laid_call<'a>(e: Emission<'a>, site: Site<'a>)
    requires
        well_laid(e),
        e.code.bytes.len() <= u32::MAX,
        site.offset == e.code.here(),
    ensures
        well_laid(
            (Emission {
                code: e.code.emit(call_code(site.form)),
                sites: e.sites.push(site),
                ..e
            }),
        ),
{
    let code = call_code(site.form);
    lemma_call_code_len(site.form);
    lemma_laid_emit(e, code);
    let after = Emission { code: e.code.emit(code), sites: e.sites.push(site), ..e };
    let mid = Emission { code: e.code.emit(code), ..e };
    assert(after.code.bytes.subrange(site.offset as int, site.offset + call_len(site.form))
        =~= code);
    assert forall|i: int| 0 <= i < after.sites.len() implies call_stands(
        after.code.bytes,
        #[trigger] after.sites[i],
    ) by {
        if i < e.sites.len() {
            assert(call_stands(mid.code.bytes, mid.sites[i]));
        }
    }
    assert forall|i: int, j: int| 0 <= i < j < after.sites.len() implies (
    #[trigger] after.sites[i]).offset + call_len(after.sites[i].form) <= (
    #[trigger] after.sites[j]).offset by {
        assert(call_stands(e.code.bytes, e.sites[i]));
        if j < e.sites.len() {
            assert(after.sites[j] == e.sites[j]);
        }
    }
    assert forall|i: int, j: int|
        0 <= i < after.code.fixups.len() && 0 <= j < after.sites.len() implies field_clear(
        #[trigger] after.code.fixups[i],
        #[trigger] after.sites[j],
    ) by {
        assert(e.code.fixups[i].at + 4 <= e.code.bytes.len());
        if j < e.sites.len() {
            assert(after.sites[j] == e.sites[j]);
        }
    }
}

proof fn lemma_laid_op<'a>(e: Emission<'a>, op: Op, sig: Option<&'a CallSig>)
    requires
        laid(e),
        with_op(e, op, sig) is Ok,
    ensures
        laid(with_op(e, op, sig)->Ok_0),
{
    let after = with_op(e, op, sig)->Ok_0;
    if after.code.bytes.len() <= u32::MAX {
        match op {
            Op::Jcc { cc, target } => {
                let opcode = seq![0x0Fu8, (0x80 + cond_number(cc)) as u8];
                lemma_laid_emit(e, opcode);
                lemma_laid_branch(Emission { code: e.code.emit(opcode), ..e }, target);
            },
            Op::Jmp { target } => {
                lemma_laid_emit(e, seq![0xE9u8]);
                lemma_laid_branch(Emission { code: e.code.emit(seq![0xE9u8]), ..e }, target);
            },
            Op::Bind { label } => {
                law_fields_are_kept(e.code, Seq::empty(), label, MethodHandle(0));
                law_fields_stay_ordered(e.code, Seq::empty(), label, MethodHandle(0));
            },
            Op::Call { form, method, target } => {
                lemma_laid_call(e, after.sites.last());
            },
            _ => {
                lemma_laid_emit(e, op_code(op));
            },
        }
    }
}

proof fn lemma_laid_ops<'a>(e: Emission<'a>, ops: Seq<Op>, sig: Option<&'a CallSig>, n: nat)
    requires
        laid(e),
        with_ops(e, ops, sig, n) is Ok,
    ensures
        laid(with_ops(e, ops, sig, n)->Ok_0),
    decreases n,
{
    if n > 0 {
        lemma_laid_ops(e, ops, sig, (n - 1) as nat);
        lemma_laid_op(with_ops(e, ops, sig, (n - 1) as nat)->Ok_0, ops[n - 1], sig);
    }
}

proof fn lemma_laid_works<'a>(c: Ctx, work: Seq<Work<'a>>, n: nat)
    requires
        with_works(c, work, n) is Ok,
    ensures
        laid(with_works(c, work, n)->Ok_0),
    decreases n,
{
    if n > 0 {
        lemma_laid_works(c, work, (n - 1) as nat);
        let e = with_works(c, work, (n - 1) as nat)->Ok_0;
        let (step, sig) = work_bound(c, unbound(e), work[n - 1]);
        let (b, _) = step->Ok_0;
        let started = Emission { next: b.next, synthetic: b.synthetic, ..e };
        lemma_laid_ops(started, b.ops, sig, b.ops.len());
    }
}

/// In the code of a method every branch goes to its label, and every recorded call
/// is a call, with a zero displacement for the loader to fill in. The records are in
/// the order of the code, and no two calls overlap. The code is within the reach of
/// its offsets.
pub proof fn law_code_is_linked(method: Method, replies: Seq<Reply>)
    requires
        tier0_stop(method, replies) is None,
        emission(method, replies)->Ok_0.code.bytes.len() <= u32::MAX,
    ensures
        ({
            let e = emission(method, replies)->Ok_0;
            let bytes = e.code.patched(e.code.fixups.len());
            &&& bytes.len() == e.code.bytes.len()
            &&& forall|i: int|
                0 <= i < e.code.fixups.len() ==> field_value(
                    bytes,
                    (#[trigger] e.code.fixups[i]).at as int,
                ) == e.code.displacement(e.code.fixups[i])
            &&& forall|i: int|
                0 <= i < e.sites.len() ==> call_stands(bytes, #[trigger] e.sites[i])
            &&& forall|i: int, j: int|
                0 <= i < j < e.sites.len() ==> (#[trigger] e.sites[i]).offset + call_len(
                    e.sites[i].form,
                ) <= (#[trigger] e.sites[j]).offset
        }),
{
    let e = emission(method, replies)->Ok_0;
    let n = e.code.fixups.len();
    let bytes = e.code.patched(n);
    lemma_laid_works(ctx_of(method, replies), plan(method), plan(method).len());
    law_branches_resolve(e.code, n);
    assert forall|i: int| 0 <= i < e.sites.len() implies call_stands(
        bytes,
        #[trigger] e.sites[i],
    ) by {
        let site = e.sites[i];
        let end = site.offset + call_len(site.form);
        assert(call_stands(e.code.bytes, site));
        assert forall|k: int| site.offset <= k < end implies bytes[k] == e.code.bytes[k] by {
            if in_field(e.code, n, k) {
                let j = choose|j: int|
                    0 <= j < n && (#[trigger] e.code.fixups[j]).at <= k < e.code.fixups[j].at + 4;
                assert(field_clear(e.code.fixups[j], e.sites[i]));
            }
        }
        assert(bytes.subrange(site.offset as int, end) =~= e.code.bytes.subrange(
            site.offset as int,
            end,
        ));
    }
}

/// The field that the loader fills in is the displacement of its call.
pub proof fn law_relocations_are_call_displacements(bytes: Seq<u8>, site: Site)
    requires
        call_stands(bytes, site),
        bytes.len() <= u32::MAX,
    ensures
        ({
            let at = relocation_of(site).offset as int;
            &&& site.offset < at
            &&& at + 4 == site.offset + call_len(site.form) <= bytes.len()
            &&& bytes.subrange(at, at + 4) == le32(0)
        }),
{
    let end = site.offset + call_len(site.form);
    let at = relocation_of(site).offset as int;
    assert(bytes.subrange(at, at + 4) =~= bytes.subrange(site.offset as int, end).subrange(
        at - site.offset,
        at - site.offset + 4,
    ));
    assert(call_code(site.form).subrange(at - site.offset, at - site.offset + 4) =~= le32(0));
}

/// The prolog of a frame, as instructions.
pub open spec fn prolog_ops(frame_size: u32) -> Seq<Op> {
    seq![
        Op::Push { reg: FRAME_POINTER },
        Op::Mov {
            width: Width::W64,
            dst: Rm::Reg(FRAME_POINTER),
            src: Rmi::Reg(STACK_POINTER),
        },
        Op::Alu {
            op: AluOp::Sub,
            width: Width::W64,
            dst: Rm::Reg(STACK_POINTER),
            src: Rmi::Imm(frame_size as i64),
        },
    ]
}

/// The offsets in the unwind info of a frame are those of its prolog's code.
pub proof fn law_unwind_info_matches_the_prolog(frame_size: u32)
    requires
        frame_size <= MAX_FRAME,
    ensures
        ({
            let ops = prolog_ops(frame_size);
            let pushed = op_code(ops[0]);
            let moved = pushed + op_code(ops[1]);
            let allocated = moved + op_code(ops[2]);
            &&& pushed.len() == AFTER_PUSH_RBP
            &&& moved.len() == AFTER_MOV_RBP_RSP
            &&& allocated.len() == prolog_length(frame_size)
        }),
{
    reveal(reg_enc);
}

/// The prolog is emitted first, whatever moves the value machine makes between its
/// instructions.
pub proof fn law_prolog_comes_first(method: Method)
    ensures
        plan(method).len() >= 3,
        plan(method)[0] == (Work::Inst { inst: frame_prolog()[0], sig: None }),
        plan(method)[1] == (Work::Inst { inst: frame_prolog()[1], sig: None }),
        plan(method)[2] == (Work::Inst { inst: frame_prolog()[2], sig: None }),
{
    assert(insts_work(frame_prolog(), None).len() == 3);
}

/// More replies do not change what the first ones led to: an emission that is
/// complete or has failed stays as it is.
pub proof fn law_more_replies_change_nothing(
    method: Method,
    replies: Seq<Reply>,
    more_replies: Seq<Reply>,
)
    requires
        emission(method, replies) is Err ==> emission(method, replies)->Err_0 is Fail,
    ensures
        emission(method, replies + more_replies) == emission(method, replies),
{
    if layout_error(method.locals@) is None {
        lemma_more_works(
            ctx_of(method, replies),
            ctx_of(method, replies + more_replies),
            plan(method),
            plan(method).len(),
        );
    }
}

/// Every local that must start as zero is set to zero before the first block.
pub proof fn law_slots_start_as_zero(method: Method, i: int) -> (at: int)
    requires
        0 <= i < method.locals@.len(),
        starts_as_zero(method, i),
    ensures
        0 <= at < plan(method).len() - blocks_work(method, method.blocks@.len()).len(),
        plan(method)[at] == Work::Op(zero_op(method, i)),
{
    let head = insts_work(frame_prolog(), None) + args_work(method);
    let at = lemma_zeroed(method, i, method.locals@.len());
    head.len() + at
}

proof fn lemma_zeroed(method: Method, i: int, n: nat) -> (at: int)
    requires
        0 <= i < n <= method.locals@.len(),
        starts_as_zero(method, i),
    ensures
        0 <= at < zero_work(method, n).len(),
        zero_work(method, n)[at] == Work::Op(zero_op(method, i)),
    decreases n,
{
    if i == n - 1 {
        zero_work(method, (n - 1) as nat).len() as int
    } else {
        lemma_zeroed(method, i, (n - 1) as nat)
    }
}

/// Before an edge of the flow graph every value goes to its slot: a statement whose
/// instructions lead to a block of the method starts with that, before its first
/// comparison, and a block that does not return ends with it.
pub proof fn law_values_join_in_their_slots(block: Block, kind: StmtKind, cx: &Cx, i: int)
    ensures
        lowering(kind, cx) is Some && 0 <= i < lowering(kind, cx)->0.len() && jumps(
            lowering(kind, cx)->0[i],
        ) ==> stmt_work(kind, cx)[0] == Work::Join,
        !ends_in_return(block.stmts@) ==> block_work(block, cx).last() == Work::Join,
{
    if !is_edge(kind) {
        lemma_only_edges_jump(kind, cx);
    }
}

/// A piece of work names no callee-saved register.
pub open spec fn work_spares(work: Work) -> bool {
    match work {
        Work::Op(op) => op_spares(op),
        Work::Inst { inst, .. } => inst_spares(inst),
        _ => true,
    }
}

pub open spec fn all_work_spares(work: Seq<Work>) -> bool {
    forall|i: int| 0 <= i < work.len() ==> work_spares(#[trigger] work[i])
}

proof fn lemma_zero_work_spares(method: Method, n: nat)
    ensures
        all_work_spares(zero_work(method, n)),
    decreases n,
{
    if n > 0 {
        lemma_zero_work_spares(method, (n - 1) as nat);
    }
}

proof fn lemma_args_work_spares(method: Method)
    ensures
        all_work_spares(args_work(method)),
{
    let types = arg_types(method);
    let work = args_work(method);
    assert forall|i: int| 0 <= i < work.len() implies work_spares(#[trigger] work[i]) by {
        if work.len() == method.num_args && state_after(
            types,
            method.struct_layouts,
            types.len(),
        ) is Ok && method.num_args <= method.locals@.len() {
            if let ArgLocation::Reg(phys) = location_of(types, method.struct_layouts, i as nat) {
                law_args_are_in_argument_registers(types, method.struct_layouts, i as nat, phys);
            }
        }
    }
}

proof fn lemma_stmts_work_spares(stmts: Seq<Stmt>, cx: &Cx, n: nat)
    ensures
        all_work_spares(stmts_work(stmts, cx, n)),
    decreases n,
{
    if n > 0 {
        lemma_stmts_work_spares(stmts, cx, (n - 1) as nat);
        let kind = stmts[n - 1].kind;
        if let Some(insts) = lowering(kind, cx) {
            law_statements_spare_callee_saved(kind, cx);
            assert forall|i: int| 0 <= i < stmt_work(kind, cx).len() implies work_spares(
                #[trigger] stmt_work(kind, cx)[i],
            ) by {
                if is_edge(kind) {
                    if i > 0 {
                        assert(inst_spares(insts[i - 1]));
                    }
                } else {
                    assert(inst_spares(insts[i]));
                }
            }
        }
    }
}

proof fn lemma_blocks_work_spares(method: Method, n: nat)
    requires
        n <= method.blocks@.len(),
    ensures
        all_work_spares(blocks_work(method, n)),
    decreases n,
{
    if n > 0 {
        lemma_blocks_work_spares(method, (n - 1) as nat);
        let cx = Cx { locals: &method.locals, layouts: &method.struct_layouts };
        let block = method.blocks[n - 1];
        lemma_stmts_work_spares(block.stmts@, &cx, block.stmts@.len());
    }
}

/// No piece of a method's code names a callee-saved register.
pub proof fn law_methods_spare_callee_saved(method: Method)
    ensures
        all_work_spares(plan(method)),
{
    lemma_args_work_spares(method);
    lemma_zero_work_spares(method, method.locals@.len());
    lemma_blocks_work_spares(method, method.blocks@.len());
    assert(all_work_spares(insts_work(frame_prolog(), None)));
}

/// Before a call every register is emptied: the moves that the value machine gives
/// for that come directly before it.
pub proof fn law_calls_spill_the_registers(
    c: Ctx,
    b: Bound,
    method: Option<MethodHandle>,
    addr: Option<u64>,
    slot: Option<u64>,
)
    requires
        emit_call_lookup_spec(c, b, method, addr, slot) is Ok,
    ensures
        ({
            let (after, _) = emit_call_lookup_spec(c, b, method, addr, slot)->Ok_0;
            &&& run_moves_spec(c, b, Request::SpillRegisters) is Ok
            &&& ({
                let (spilled, _) = run_moves_spec(c, b, Request::SpillRegisters)->Ok_0;
                &&& after.ops.drop_last() == spilled.ops
                &&& after.ops.last() == (match addr {
                    Some(target) => Op::Call { form: CallForm::Direct, method, target },
                    None => Op::Call { form: CallForm::Indirect, method, target: slot->0 },
                })
            })
        }),
{
    reveal(emit_call_lookup_spec);
    let (after, _) = emit_call_lookup_spec(c, b, method, addr, slot)->Ok_0;
    let (spilled, _) = run_moves_spec(c, b, Request::SpillRegisters)->Ok_0;
    assert(after.ops.drop_last() =~= spilled.ops);
}

/// A widening copy never shares the slot of its source: the result is said to lie
/// in a register, or in its own slot.
pub proof fn law_widening_copies_never_alias(c: Ctx, b: Bound, dst: Place, src: Src, signed: bool)
    ensures
        match emit_movext_spec(c, b, dst, src, signed) {
            Err(Halt { stop: Stop::Ask(Request::Define(id, loc)), .. }) => loc is Reg || (id.0
                < c.slots.len() && loc == Loc::Mem(c.slots[id.0 as int])),
            _ => true,
        },
{
    reveal(emit_movext_spec);
    if let Place::Val(t) = dst {
        lemma_no_define_scratch(c, b, Exclude::Nothing);
        if let Ok((b, g)) = scratch_spec(c, b, Exclude::Nothing) {
            lemma_no_define_ext(c, b, g, src, signed);
            if let Ok((b, _)) = ext_into_spec(c, b, g, src, signed) {
                lemma_define_temp_asks(c, b, t.0, g);
            }
        }
    } else if let Place::Reg(g) = dst {
        lemma_no_define_run(c, b, Request::Clobber(g.phys()));
        if let Ok((b, _)) = run_moves_spec(c, b, Request::Clobber(g.phys())) {
            lemma_no_define_ext(c, b, g, src, signed);
        }
    }
}

/// Only the request itself can be missing.
proof fn lemma_run_asks(c: Ctx, b: Bound, request: Request)
    ensures
        match run_moves_spec(c, b, request) {
            Err(Halt { stop: Stop::Ask(asked), .. }) => asked == request,
            _ => true,
        },
{
    if b.next < c.replies.len() {
        if let Reply::Moves(moves) = c.replies[b.next as int] {
            lemma_no_ask_apply(b.used(request), moves@, moves@.len());
        }
    }
}

proof fn lemma_no_ask_apply(b: Bound, moves: Seq<Move>, n: nat)
    ensures
        apply_spec(b, moves, n) is Err ==> apply_spec(b, moves, n)->Err_0.stop is Fail,
    decreases n,
{
    if n > 0 {
        lemma_no_ask_apply(b, moves, (n - 1) as nat);
    }
}

proof fn lemma_define_temp_asks(c: Ctx, b: Bound, t: LocalId, g: Gpr)
    ensures
        match define_temp_reg_spec(c, b, t, g) {
            Err(Halt { stop: Stop::Ask(Request::Define(id, loc)), .. }) => loc is Reg || (id.0
                < c.slots.len() && loc == Loc::Mem(c.slots[id.0 as int])),
            _ => true,
        },
{
    if let Ok((b, ty)) = ty_of_spec(c, b, t) {
        if is_gc(ty) {
            if let Ok((b, slot)) = slot_of_spec(c, b, t) {
                let b = b.emit(
                    Op::Mov {
                        width: Width::W64,
                        dst: Rm::Mem(slot_mem(slot)),
                        src: Rmi::Reg(g),
                    },
                );
                lemma_run_asks(c, b, Request::Define(t, Loc::Mem(slot)));
            }
        } else {
            lemma_run_asks(c, b, Request::Define(t, Loc::Reg(g.phys())));
        }
    }
}

/// The binding does not stop to note the place of a temporary.
spec fn no_define<T>(s: Step<T>) -> bool {
    match s {
        Err(Halt { stop: Stop::Ask(Request::Define(_, _)), .. }) => false,
        _ => true,
    }
}

proof fn lemma_no_define_run(c: Ctx, b: Bound, request: Request)
    requires
        !(request is Define),
    ensures
        no_define(run_moves_spec(c, b, request)),
{
    if b.next < c.replies.len() {
        if let Reply::Moves(moves) = c.replies[b.next as int] {
            lemma_no_ask_apply(b.used(request), moves@, moves@.len());
        }
    }
}

proof fn lemma_no_define_scratch(c: Ctx, b: Bound, exclude: Exclude)
    ensures
        no_define(scratch_spec(c, b, exclude)),
{
    if b.next < c.replies.len() {
        if let Reply::Scratch { reg, moves } = c.replies[b.next as int] {
            lemma_no_ask_apply(b.used(Request::TakeScratch(exclude)), moves@, moves@.len());
        }
    }
}

proof fn lemma_no_define_ext(c: Ctx, b: Bound, g: Gpr, src: Src, signed: bool)
    ensures
        no_define(ext_into_spec(c, b, g, src, signed)),
{
    if let Ok((mid, Rmi::Imm(_))) = rmi_of_spec(c, b, src) {
        lemma_no_define_scratch(c, mid, Exclude::One(g.phys()));
    }
}

/// A descriptor that cannot be bound fails at once: nothing is emitted for it and
/// nothing is asked.
pub proof fn law_refusals_emit_nothing(c: Ctx, b: Bound, inst: Inst)
    requires
        refused(inst),
    ensures
        match emit_inst_spec(c, b, inst) {
            Err(halt) => halt.at == b && halt.stop is Fail,
            Ok(_) => false,
        },
{
    reveal(emit_arith_spec);
    reveal(emit_shift_spec);
    reveal(emit_unary_spec);
    reveal(emit_setcc_f_spec);
    reveal(emit_float_inst_spec);
}

/// A call whose target has neither an address nor a slot fails behind its spills: no
/// call is emitted.
pub proof fn law_unknown_targets_are_not_called(c: Ctx, b: Bound, method: Option<MethodHandle>)
    ensures
        match run_moves_spec(c, b, Request::SpillRegisters) {
            Ok((spilled, _)) => {
                let call = emit_call_lookup_spec(c, b, method, None, None);
                &&& call is Err
                &&& call->Err_0.at == spilled
                &&& call->Err_0.stop == Stop::Fail(
                    CompileError::Unsupported(
                        "call target with more than one indirection (IAT_PPVALUE/IAT_RELPVALUE)",
                    ),
                )
            },
            Err(halt) => {
                let call = emit_call_lookup_spec(c, b, method, None, None);
                call is Err && call->Err_0 == halt
            },
        },
{
    reveal(emit_call_lookup_spec);
}

/// What the `i`th piece of an emission is bound to.
pub open spec fn piece(c: Ctx, work: Seq<Work>, i: int) -> Step<()> {
    work_bound(c, unbound(with_works(c, work, i as nat)->Ok_0), work[i]).0
}

/// The piece binds a label of its own at `p`.
pub open spec fn makes_label(c: Ctx, work: Seq<Work>, i: int, p: int) -> bool {
    &&& 0 <= i < work.len() && work[i] is Inst
    &&& piece(c, work, i) is Ok
    &&& 0 <= p < bound_at(piece(c, work, i)).ops.len()
    &&& bound_at(piece(c, work, i)).ops[p] is Bind
}

/// The label that a piece binds at `p`.
pub open spec fn label_at(c: Ctx, work: Seq<Work>, i: int, p: int) -> Label {
    bound_at(piece(c, work, i)).ops[p]->label
}

/// An emission begins with the first label that is no block, and each one that is
/// made is the next smaller.
pub proof fn law_synthetic_labels_count_down(c: Ctx, b: Bound, e: Emission)
    requires
        b.synthetic > 0,
    ensures
        nothing_emitted().synthetic == FIRST_SYNTHETIC_LABEL,
        unbound(e).synthetic == e.synthetic,
        ({
            let (next, label) = synthetic_label_spec(c, b)->Ok_0;
            &&& synthetic_label_spec(c, b) is Ok
            &&& label == Label(BlockId(b.synthetic))
            &&& next.synthetic == b.synthetic - 1
            &&& next.ops == b.ops
        }),
{
}

/// Labels that are no block only count down, from the first on.
proof fn lemma_labels_fall(c: Ctx, work: Seq<Work>, m: nat, n: nat)
    requires
        m <= n <= work.len(),
        with_works(c, work, n) is Ok,
    ensures
        with_works(c, work, m) is Ok,
        with_works(c, work, n)->Ok_0.synthetic <= with_works(c, work, m)->Ok_0.synthetic
            <= FIRST_SYNTHETIC_LABEL,
    decreases n,
{
    if m < n {
        let before = (n - 1) as nat;
        lemma_labels_fall(c, work, m, before);
        let e = with_works(c, work, before)->Ok_0;
        lemma_piece_labels(c, e, work[n - 1]);
    } else if n > 0 {
        let before = (n - 1) as nat;
        lemma_labels_fall(c, work, before, before);
        let e = with_works(c, work, before)->Ok_0;
        lemma_piece_labels(c, e, work[n - 1]);
    }
}

/// One piece counts on from where the emission is.
proof fn lemma_piece_labels(c: Ctx, e: Emission, work: Work)
    ensures
        ({
            let step = work_bound(c, unbound(e), work).0;
            match step {
                Ok((after, _)) => {
                    &&& after.synthetic <= e.synthetic
                    &&& work is Inst ==> extends(unbound(e), after)
                },
                Err(_) => true,
            }
        }),
        match with_work(c, e, work) {
            Ok(next) => next.synthetic == bound_at(work_bound(c, unbound(e), work).0).synthetic,
            Err(_) => true,
        },
{
    match work {
        Work::Inst { inst, .. } => {
            law_gc_pointers_are_in_the_frame(c, unbound(e), inst);
        },
        Work::Join => {
            lemma_noted(c, unbound(e), Request::SpillAll);
        },
        _ => {},
    }
    let (step, sig) = work_bound(c, unbound(e), work);
    if let Ok((after, _)) = step {
        let start = Emission { next: after.next, synthetic: after.synthetic, ..e };
        lemma_ops_keep_synthetic(start, after.ops, sig, after.ops.len());
    }
}

proof fn lemma_ops_keep_synthetic<'a>(
    e: Emission<'a>,
    ops: Seq<Op>,
    sig: Option<&'a CallSig>,
    n: nat,
)
    ensures
        with_ops(e, ops, sig, n) is Ok ==> with_ops(e, ops, sig, n)->Ok_0.synthetic == e.synthetic,
    decreases n,
{
    if n > 0 {
        lemma_ops_keep_synthetic(e, ops, sig, (n - 1) as nat);
    }
}

/// No two labels that an emission makes for itself are the same: a later one is
/// smaller. None is above the first, and each is above what the emission ends at.
/// So none is a block, where the numbers of blocks are not above that end.
pub proof fn law_synthetic_labels_differ(
    c: Ctx,
    work: Seq<Work>,
    i: int,
    p: int,
    j: int,
    q: int,
    block: BlockId,
)
    requires
        with_works(c, work, work.len()) is Ok,
        makes_label(c, work, i, p),
        makes_label(c, work, j, q),
        i < j || (i == j && p < q),
        block.0 <= with_works(c, work, work.len())->Ok_0.synthetic,
    ensures
        label_at(c, work, j, q).0.0 < label_at(c, work, i, p).0.0 <= FIRST_SYNTHETIC_LABEL,
        label_at(c, work, i, p) != label_at(c, work, j, q),
        label_at(c, work, i, p) != Label(block),
        label_at(c, work, j, q) != Label(block),
{
    let n = work.len();
    lemma_labels_fall(c, work, i as nat, n);
    lemma_labels_fall(c, work, (i + 1) as nat, n);
    lemma_labels_fall(c, work, j as nat, n);
    lemma_labels_fall(c, work, (j + 1) as nat, n);
    if i < j {
        lemma_labels_fall(c, work, (i + 1) as nat, j as nat);
    }
    lemma_piece_labels(c, with_works(c, work, i as nat)->Ok_0, work[i]);
    lemma_piece_labels(c, with_works(c, work, j as nat)->Ok_0, work[j]);
}

/// The record of a helper call has no signature.
spec fn anonymous_helpers(sites: Seq<Site>) -> bool {
    forall|i: int|
        0 <= i < sites.len() && (#[trigger] sites[i]).method is None ==> sites[i].sig is None
}

proof fn lemma_anonymous_ops<'a>(e: Emission<'a>, ops: Seq<Op>, sig: Option<&'a CallSig>, n: nat)
    requires
        anonymous_helpers(e.sites),
        with_ops(e, ops, sig, n) is Ok,
    ensures
        anonymous_helpers(with_ops(e, ops, sig, n)->Ok_0.sites),
    decreases n,
{
    if n > 0 {
        lemma_anonymous_ops(e, ops, sig, (n - 1) as nat);
    }
}

proof fn lemma_anonymous_works<'a>(c: Ctx, work: Seq<Work<'a>>, n: nat)
    requires
        with_works(c, work, n) is Ok,
    ensures
        anonymous_helpers(with_works(c, work, n)->Ok_0.sites),
    decreases n,
{
    if n > 0 {
        lemma_anonymous_works(c, work, (n - 1) as nat);
        let e = with_works(c, work, (n - 1) as nat)->Ok_0;
        let (step, sig) = work_bound(c, unbound(e), work[n - 1]);
        let (b, _) = step->Ok_0;
        let started = Emission { next: b.next, synthetic: b.synthetic, ..e };
        lemma_anonymous_ops(started, b.ops, sig, b.ops.len());
    }
}

/// A helper call is recorded with neither a method nor a signature.
pub proof fn law_helper_calls_are_anonymous(method: Method, replies: Seq<Reply>, i: int)
    requires
        emission(method, replies) is Ok,
        0 <= i < emission(method, replies)->Ok_0.sites.len(),
        emission(method, replies)->Ok_0.sites[i].method is None,
    ensures
        emission(method, replies)->Ok_0.sites[i].sig is None,
{
    lemma_anonymous_works(ctx_of(method, replies), plan(method), plan(method).len());
}

/// The call of a method carries the signature of its statement.
pub proof fn law_managed_calls_carry_their_signature(kind: StmtKind, cx: &Cx, i: int)
    requires
        0 <= i < stmt_work(kind, cx).len(),
        stmt_work(kind, cx)[i] is Inst,
        stmt_work(kind, cx)[i]->Inst_inst is CallDirect,
    ensures
        kind is Call,
        stmt_work(kind, cx)[i]->Inst_sig == Some(&kind->Call_sig),
{
    if !(kind is Call) {
        lemma_only_calls_call(kind, cx);
    }
}

/// The scratch registers are those that a call may change, and no two are the same.
/// The float scratch registers pass no argument.
pub proof fn law_scratch_registers(i: int, j: int, k: int)
    requires
        0 <= i < 9,
        0 <= j < i,
        0 <= k < 8,
    ensures
        SCRATCH_GPRS[i] == CALL_DEFS[i],
        spares(SCRATCH_GPRS[i]),
        SCRATCH_GPRS[i] != SCRATCH_GPRS[j],
        FLOAT_ARG_REGS[k] != SCRATCH_XMM_A,
        FLOAT_ARG_REGS[k] != SCRATCH_XMM_B,
        SCRATCH_XMM_A != SCRATCH_XMM_B,
{
}

/// The descriptors of some work.
pub open spec fn descriptors(work: Seq<Work>) -> Seq<Inst>
    decreases work.len(),
{
    if work.len() == 0 {
        Seq::empty()
    } else {
        match work.last() {
            Work::Inst { inst, .. } => descriptors(work.drop_last()).push(inst),
            _ => descriptors(work.drop_last()),
        }
    }
}

proof fn lemma_descriptors_concat(a: Seq<Work>, b: Seq<Work>)
    ensures
        descriptors(a + b) == descriptors(a) + descriptors(b),
    decreases b.len(),
{
    if b.len() == 0 {
        assert(a + b =~= a);
        assert(descriptors(a) + descriptors(b) =~= descriptors(a));
    } else {
        lemma_descriptors_concat(a, b.drop_last());
        assert((a + b).drop_last() =~= a + b.drop_last());
        assert(descriptors(a + b) =~= descriptors(a) + descriptors(b));
    }
}

proof fn lemma_insts_are_descriptors<'a>(insts: Seq<Inst>, sig: Option<&'a CallSig>)
    ensures
        descriptors(insts_work(insts, sig)) == insts,
    decreases insts.len(),
{
    let work = insts_work(insts, sig);
    if insts.len() > 0 {
        lemma_insts_are_descriptors(insts.drop_last(), sig);
        assert(work.drop_last() =~= insts_work(insts.drop_last(), sig));
        assert(descriptors(work) =~= insts);
    } else {
        assert(descriptors(work) =~= insts);
    }
}

/// The emission of a block works through the instructions that lowering gives for
/// it, in order.
pub proof fn law_emission_follows_the_lowering(stmts: Seq<Stmt>, cx: &Cx, n: nat)
    requires
        n <= stmts.len(),
        block_lowering(stmts, cx, n) is Some,
    ensures
        descriptors(stmts_work(stmts, cx, n)) == block_lowering(stmts, cx, n)->0,
    decreases n,
{
    if n > 0 {
        law_emission_follows_the_lowering(stmts, cx, (n - 1) as nat);
        let kind = stmts[n - 1].kind;
        let insts = lowering(kind, cx)->0;
        let last = insts_work(insts, sig_of(kind));
        lemma_insts_are_descriptors(insts, sig_of(kind));
        lemma_descriptors_concat(seq![Work::Join], last);
        assert(seq![Work::Join].drop_last() =~= Seq::<Work>::empty());
        reveal_with_fuel(descriptors, 2);
        assert(descriptors(seq![Work::Join]) =~= Seq::<Inst>::empty());
        assert(descriptors(stmt_work(kind, cx)) =~= insts);
        lemma_descriptors_concat(
            stmts_work(stmts, cx, (n - 1) as nat),
            stmt_work(kind, cx),
        );
    }
}

} // verus!
