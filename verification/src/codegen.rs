//! Emission: the intermediate representation of a method to its code.
//!
//! A method is emitted in one pass over its blocks. Every local, argument and
//! temporary has a slot in the frame. Float values are always in their slot;
//! what else a value's place is at a given moment is up to a value machine
//! outside of this library, which the [`Emitter`] asks. Before an edge of the
//! flow graph every value goes to its slot, before the comparison of a branch.

use crate::abi::{location_of, state_after};
use crate::artifact::{
    CallSite, ChunkRef, CodeChunk, CodeChunks, CodegenOutput, FrameInfo, RelocType, Relocation,
};
use crate::bind::{
    bound_at, emit_inst_spec, op_valid, reset_spec, run_moves_spec, slot_mem, Binder, Bound,
    CallForm, Ctx, Facts, Op, Reply, Request, Step, Stop, FIRST_SYNTHETIC_LABEL,
};
use crate::bytes::le32;
use crate::encode::{
    alu_code, arith_f_code, cdq_code, cond_number, cvts2s_code, cvtsi2s_code, cvtts2si_code,
    div_code, idiv_code, imul_code, imul_imm_code, law_fields_are_kept, lea_code, mov_code,
    mov_f_load_code, mov_f_store_code, mov_gpr_to_xmm_code, movsxd_code, neg_code, not_code,
    plus_reg_code, setcc_code, shift_cl_code, shift_imm_code, ucomis_code, xor_f_code, Asm, Code,
    Mem, Rm, Rmi,
};
use crate::error::{CompileError, CompileResult};
use crate::frame::{frame_size_of, frame_slots, law_frame_is_tight, layout_error};
use crate::inst::{FWidth, Inst, Width};
use crate::ir::{
    same_sig, Block, BlockId, CallSig, Label, Method, MethodHandle, Stmt, StmtKind, Type,
};
use crate::lower::{frame_prolog, lower_frame, lower_stmt, lowering, width_of_ty, Cx, FrameReq};
use crate::metadata::GcRootSlot;
use crate::regs::{Gpr, Xmm};
use crate::replay::{lemma_more_emit_inst, lemma_more_reset, lemma_more_run_moves, more};
use crate::target::{ArgLocation, CallAbi};
use vstd::prelude::*;

pub use crate::abi::classify_call;
pub use crate::frame::FrameLayout;

verus! {

/// The scratch registers, in the order in which they are taken: those that a
/// call does not preserve.
pub const SCRATCH_GPRS: [Gpr; 9] = [
    Gpr::Rax,
    Gpr::Rcx,
    Gpr::Rdx,
    Gpr::Rsi,
    Gpr::Rdi,
    Gpr::R8,
    Gpr::R9,
    Gpr::R10,
    Gpr::R11,
];

/// The alignment of the code.
pub const HOT_CODE_ALIGNMENT: u32 = 16;

/// The length of `call target`.
pub const DIRECT_CALL_LEN: u32 = 5;

/// The length of `call [slot]`.
pub const INDIRECT_CALL_LEN: u32 = 6;

/// One piece of the emission of a method.
#[derive(Clone, Copy)]
pub enum Work<'a> {
    /// An instruction with physical operands.
    Op(Op),
    /// A descriptor, and the signature of the call statement that it is part of.
    Inst { inst: Inst, sig: Option<&'a CallSig> },
    /// Every value goes to its slot.
    Join,
    /// A block begins.
    Reset,
    /// The method cannot be emitted.
    Fail(CompileError),
}

/// The types of the arguments.
pub open spec fn arg_types(method: Method) -> Seq<Type> {
    Seq::new(method.num_args as nat, |i: int| method.locals[i].ty)
}

/// The store of an incoming argument to its slot.
pub open spec fn arg_work<'a>(method: Method, i: int) -> Work<'a> {
    let ty = method.locals[i].ty;
    let slot = slot_mem(frame_slots(method.locals@)[i]);
    match location_of(arg_types(method), method.struct_layouts, i as nat) {
        ArgLocation::Reg(phys) => if let Some(g) = Gpr::from_phys(phys) {
            match width_of_ty(ty) {
                Some(width) => Work::Op(Op::Mov { width, dst: Rm::Mem(slot), src: Rmi::Reg(g) }),
                None => Work::Fail(
                    CompileError::Internal("value-state entry without a GPR width"),
                ),
            }
        } else if let Some(x) = Xmm::from_phys(phys) {
            match FWidth::of(ty) {
                Some(width) => Work::Op(Op::MovFStore { width, dst: slot, src: x }),
                None => Work::Fail(
                    CompileError::Internal("XMM-classified argument without a float type"),
                ),
            }
        } else {
            Work::Fail(CompileError::Internal("PhysReg outside both classes"))
        },
        ArgLocation::Stack { .. } => Work::Fail(
            CompileError::Unsupported("incoming stack arguments (argument-register overflow)"),
        ),
        ArgLocation::StructRegs(_) => Work::Fail(
            CompileError::Unsupported("struct local in tier-0 frame layout"),
        ),
    }
}

/// The stores of the incoming arguments.
pub open spec fn args_work<'a>(method: Method) -> Seq<Work<'a>> {
    if method.num_args > method.locals.len() {
        seq![Work::Fail(CompileError::Internal("more arguments than locals"))]
    } else {
        match state_after(arg_types(method), method.struct_layouts, method.num_args as nat) {
            Err(e) => seq![Work::Fail(e)],
            Ok(_) => Seq::new(method.num_args as nat, |i: int| arg_work(method, i)),
        }
    }
}

/// Local `i` must hold zero from the start: an IL local, or a temporary that the
/// collector looks at.
pub open spec fn starts_as_zero(method: Method, i: int) -> bool {
    if i < method.num_args {
        false
    } else if i < method.num_args + method.num_il_locals {
        true
    } else {
        method.locals[i].ty is Ref || method.locals[i].ty is ByRef
    }
}

/// The width of a slot.
pub open spec fn slot_width(ty: Type) -> Width {
    match ty {
        Type::Int32 | Type::Float => Width::W32,
        _ => Width::W64,
    }
}

/// The store that zeroes local `i`.
pub open spec fn zero_op(method: Method, i: int) -> Op {
    Op::Mov {
        width: slot_width(method.locals[i].ty),
        dst: Rm::Mem(slot_mem(frame_slots(method.locals@)[i])),
        src: Rmi::Imm(0),
    }
}

/// The stores that zero the first `n` locals, as far as they must be zero.
pub open spec fn zero_work<'a>(method: Method, n: nat) -> Seq<Work<'a>>
    decreases n,
{
    if n == 0 {
        Seq::empty()
    } else if starts_as_zero(method, n - 1) {
        zero_work(method, (n - 1) as nat).push(Work::Op(zero_op(method, n - 1)))
    } else {
        zero_work(method, (n - 1) as nat)
    }
}

/// The signature of a call statement.
pub open spec fn sig_of<'a>(kind: StmtKind) -> Option<&'a CallSig> {
    match kind {
        StmtKind::Call { sig, .. } => Some(&sig),
        _ => None,
    }
}

/// The instructions of a statement.
pub open spec fn insts_work<'a>(insts: Seq<Inst>, sig: Option<&'a CallSig>) -> Seq<Work<'a>> {
    Seq::new(insts.len(), |i: int| Work::Inst { inst: insts[i], sig })
}

/// The statement leads to another block of the method.
pub open spec fn is_edge(kind: StmtKind) -> bool {
    match kind {
        StmtKind::Branch { .. }
        | StmtKind::Jump { .. }
        | StmtKind::Switch { .. }
        | StmtKind::Leave { .. }
        | StmtKind::CallFinally { .. } => true,
        _ => false,
    }
}

/// The emission of a statement.
pub open spec fn stmt_work<'a>(kind: StmtKind, cx: &Cx) -> Seq<Work<'a>> {
    match lowering(kind, cx) {
        None => seq![
            Work::Fail(CompileError::Unsupported("no x64 lowering rule matched an LIR statement")),
        ],
        Some(insts) => if is_edge(kind) {
            seq![Work::Join] + insts_work(insts, sig_of(kind))
        } else {
            insts_work(insts, sig_of(kind))
        },
    }
}

/// The emission of the first `n` statements of a block.
pub open spec fn stmts_work<'a>(stmts: Seq<Stmt>, cx: &Cx, n: nat) -> Seq<Work<'a>>
    decreases n,
{
    if n == 0 {
        Seq::empty()
    } else {
        stmts_work(stmts, cx, (n - 1) as nat) + stmt_work(stmts[n - 1].kind, cx)
    }
}

/// The block ends with a return: there is no edge behind it.
pub open spec fn ends_in_return(stmts: Seq<Stmt>) -> bool {
    stmts.len() > 0 && stmts.last().kind is Return
}

/// What stands before the statements of a block.
pub open spec fn block_head<'a>(block: Block) -> Seq<Work<'a>> {
    seq![Work::Op(Op::Bind { label: Label(block.id) }), Work::Reset]
}

/// What stands behind the statements of a block.
pub open spec fn block_tail<'a>(block: Block) -> Seq<Work<'a>> {
    if ends_in_return(block.stmts@) {
        Seq::empty()
    } else {
        seq![Work::Join]
    }
}

/// The emission of a block.
pub open spec fn block_work<'a>(block: Block, cx: &Cx) -> Seq<Work<'a>> {
    block_head(block) + stmts_work(block.stmts@, cx, block.stmts@.len()) + block_tail(block)
}

/// The emission of the first `n` blocks.
pub open spec fn blocks_work<'a>(method: Method, n: nat) -> Seq<Work<'a>>
    decreases n,
{
    if n == 0 {
        Seq::empty()
    } else {
        blocks_work(method, (n - 1) as nat) + block_work(
            method.blocks[n - 1],
            &Cx { locals: &method.locals, layouts: &method.struct_layouts },
        )
    }
}

/// The emission of a method: the prolog, the arguments to their slots, the slots
/// that start as zero, and the blocks.
pub open spec fn plan<'a>(method: Method) -> Seq<Work<'a>> {
    insts_work(frame_prolog(), None) + args_work(method) + zero_work(method, method.locals@.len())
        + blocks_work(method, method.blocks@.len())
}

fn plan_insts<'a>(work: &mut Vec<Work<'a>>, insts: &Vec<Inst>, sig: Option<&'a CallSig>)
    ensures
        final(work)@ == old(work)@ + insts_work(insts@, sig),
{
    let mut n: usize = 0;
    while n < insts.len()
        invariant
            n <= insts.len(),
            work@ == old(work)@ + insts_work(insts@, sig).take(n as int),
        decreases insts.len() - n,
    {
        work.push(Work::Inst { inst: insts[n], sig });
        n = n + 1;
        assert(insts_work(insts@, sig).take(n as int) =~= insts_work(insts@, sig).take(n - 1).push(
            Work::Inst { inst: insts@[n - 1], sig },
        ));
    }
    assert(insts_work(insts@, sig).take(n as int) =~= insts_work(insts@, sig));
}

fn plan_arg<'a>(method: &Method, layout: &FrameLayout, abi: &CallAbi, i: usize) -> (w: Work<'a>)
    requires
        layout.slots@ == frame_slots(method.locals@),
        i < method.num_args <= method.locals.len(),
        abi.args.len() == method.num_args,
        abi.args@[i as int] == location_of(
            arg_types(*method),
            method.struct_layouts,
            i as nat,
        ),
    ensures
        w == arg_work(*method, i as int),
{
    let ty: Type = method.locals[i].ty;
    let slot: Mem = slot_mem(layout.slots[i]);
    match abi.args[i] {
        ArgLocation::Reg(phys) => match Gpr::from_phys(phys) {
            Some(g) => match width_of_ty(ty) {
                Some(width) => Work::Op(Op::Mov { width, dst: Rm::Mem(slot), src: Rmi::Reg(g) }),
                None => Work::Fail(
                    CompileError::Internal("value-state entry without a GPR width"),
                ),
            },
            None => match Xmm::from_phys(phys) {
                Some(x) => match FWidth::of(ty) {
                    Some(width) => Work::Op(Op::MovFStore { width, dst: slot, src: x }),
                    None => Work::Fail(
                        CompileError::Internal("XMM-classified argument without a float type"),
                    ),
                },
                None => Work::Fail(CompileError::Internal("PhysReg outside both classes")),
            },
        },
        ArgLocation::Stack { .. } => Work::Fail(
            CompileError::Unsupported("incoming stack arguments (argument-register overflow)"),
        ),
        ArgLocation::StructRegs(_) => Work::Fail(
            CompileError::Unsupported("struct local in tier-0 frame layout"),
        ),
    }
}

fn plan_args<'a>(work: &mut Vec<Work<'a>>, method: &Method, layout: &FrameLayout)
    requires
        layout.slots@ == frame_slots(method.locals@),
    ensures
        final(work)@ == old(work)@ + args_work(*method),
{
    let num_args: usize = method.num_args as usize;
    let ghost before = work@;
    if num_args > method.locals.len() {
        work.push(Work::Fail(CompileError::Internal("more arguments than locals")));
        assert(work@ =~= before + args_work(*method));
        return;
    }
    let mut args: Vec<Type> = Vec::new();
    let mut n: usize = 0;
    while n < num_args
        invariant
            n <= num_args == method.num_args <= method.locals.len(),
            args@ == arg_types(*method).take(n as int),
        decreases num_args - n,
    {
        args.push(method.locals[n].ty);
        n = n + 1;
        assert(args@ =~= arg_types(*method).take(n as int));
    }
    assert(args@ =~= arg_types(*method));
    let sig: CallSig = CallSig { ret: Type::Void, args, has_this: false };
    match classify_call(&sig, &method.struct_layouts) {
        Err(e) => {
            work.push(Work::Fail(e));
            assert(work@ =~= before + args_work(*method));
        },
        Ok(abi) => {
            let mut n: usize = 0;
            let ghost all = Seq::new(num_args as nat, |i: int| arg_work(*method, i));
            while n < num_args
                invariant
                    n <= num_args == method.num_args <= method.locals.len(),
                    layout.slots@ == frame_slots(method.locals@),
                    abi.args@.len() == num_args,
                    forall|i: int|
                        0 <= i < num_args ==> #[trigger] abi.args@[i] == location_of(
                            arg_types(*method),
                            method.struct_layouts,
                            i as nat,
                        ),
                    all == Seq::new(num_args as nat, |i: int| arg_work(*method, i)),
                    work@ == before + all.take(n as int),
                decreases num_args - n,
            {
                work.push(plan_arg(method, layout, &abi, n));
                n = n + 1;
                assert(all.take(n as int) =~= all.take(n - 1).push(all[n - 1]));
            }
            assert(all.take(n as int) =~= all);
        },
    }
}

fn plan_zeros<'a>(work: &mut Vec<Work<'a>>, method: &Method, layout: &FrameLayout)
    requires
        layout.slots@ == frame_slots(method.locals@),
    ensures
        final(work)@ == old(work)@ + zero_work(*method, method.locals@.len()),
{
    let num_args: u64 = method.num_args as u64;
    let num_fixed: u64 = num_args + method.num_il_locals as u64;
    let mut n: usize = 0;
    assert(work@ =~= old(work)@ + zero_work(*method, 0));
    while n < method.locals.len()
        invariant
            n <= method.locals.len(),
            num_args == method.num_args,
            num_fixed == method.num_args + method.num_il_locals,
            layout.slots@ == frame_slots(method.locals@),
            work@ == old(work)@ + zero_work(*method, n as nat),
        decreases method.locals.len() - n,
    {
        let ty: Type = method.locals[n].ty;
        let at: u64 = n as u64;
        let is_gc: bool = match ty {
            Type::Ref | Type::ByRef => true,
            _ => false,
        };
        let ghost before = work@;
        if at >= num_args && (at < num_fixed || is_gc) {
            let width: Width = match ty {
                Type::Int32 | Type::Float => Width::W32,
                _ => Width::W64,
            };
            work.push(
                Work::Op(
                    Op::Mov { width, dst: Rm::Mem(slot_mem(layout.slots[n])), src: Rmi::Imm(0) },
                ),
            );
        }
        n = n + 1;
        assert(work@ =~= old(work)@ + zero_work(*method, n as nat));
    }
}

fn plan_stmt<'a>(work: &mut Vec<Work<'a>>, stmt: &'a Stmt, cx: &Cx)
    ensures
        final(work)@ == old(work)@ + stmt_work(stmt.kind, cx),
{
    let ghost before = work@;
    match lower_stmt(stmt, cx) {
        None => {
            work.push(
                Work::Fail(
                    CompileError::Unsupported("no x64 lowering rule matched an LIR statement"),
                ),
            );
            assert(work@ =~= before + stmt_work(stmt.kind, cx));
        },
        Some(insts) => {
            assert(lowering(stmt.kind, cx)->0 == insts@);
            let edge: bool = match &stmt.kind {
                StmtKind::Branch { .. }
                | StmtKind::Jump { .. }
                | StmtKind::Switch { .. }
                | StmtKind::Leave { .. }
                | StmtKind::CallFinally { .. } => true,
                _ => false,
            };
            if edge {
                work.push(Work::Join);
            }
            let sig: Option<&'a CallSig> = match &stmt.kind {
                StmtKind::Call { sig, .. } => Some(sig),
                _ => None,
            };
            plan_insts(work, &insts, sig);
            assert(work@ =~= before + stmt_work(stmt.kind, cx));
        },
    }
}

fn plan_block<'a>(work: &mut Vec<Work<'a>>, block: &'a Block, cx: &Cx)
    ensures
        final(work)@ == old(work)@ + block_work(*block, cx),
{
    let ghost before = work@;
    work.push(Work::Op(Op::Bind { label: Label(block.id) }));
    work.push(Work::Reset);
    let ghost head = before + block_head(*block);
    assert(work@ =~= head);
    let ghost stmts = block.stmts@;
    let mut n: usize = 0;
    assert(work@ =~= head + stmts_work(stmts, cx, 0));
    while n < block.stmts.len()
        invariant
            n <= block.stmts.len(),
            stmts == block.stmts@,
            work@ == head + stmts_work(stmts, cx, n as nat),
        decreases block.stmts.len() - n,
    {
        plan_stmt(work, &block.stmts[n], cx);
        n = n + 1;
        assert(work@ =~= head + stmts_work(stmts, cx, n as nat));
    }
    let last: usize = block.stmts.len();
    if !(last > 0 && matches!(block.stmts[last - 1].kind, StmtKind::Return { .. })) {
        work.push(Work::Join);
    }
    assert(work@ =~= before + block_work(*block, cx));
}

/// The emission of a method, laid out.
fn plan_method<'a>(method: &'a Method, layout: &FrameLayout) -> (work: Vec<Work<'a>>)
    requires
        layout.slots@ == frame_slots(method.locals@),
    ensures
        work@ == plan(*method),
{
    let cx: Cx = Cx::new(&method.locals, &method.struct_layouts);
    let mut work: Vec<Work<'a>> = Vec::new();
    if let Some(prolog) = lower_frame(&FrameReq, &cx) {
        plan_insts(&mut work, &prolog, None);
    }
    assert(work@ =~= insts_work(frame_prolog(), None));
    plan_args(&mut work, method, layout);
    plan_zeros(&mut work, method, layout);
    let ghost head = work@;
    assert(work@ =~= head + blocks_work(*method, 0));
    let mut n: usize = 0;
    while n < method.blocks.len()
        invariant
            n <= method.blocks.len(),
            cx == (Cx { locals: &method.locals, layouts: &method.struct_layouts }),
            work@ == head + blocks_work(*method, n as nat),
        decreases method.blocks.len() - n,
    {
        plan_block(&mut work, &method.blocks[n], &cx);
        n = n + 1;
        assert(work@ =~= head + blocks_work(*method, n as nat));
    }
    work
}

/// A call that was emitted.
#[derive(Clone, Copy)]
pub struct Site<'a> {
    /// The offset of the instruction.
    pub offset: u32,
    pub form: CallForm,
    pub target: u64,
    pub method: Option<MethodHandle>,
    /// The signature, where a method is called.
    pub sig: Option<&'a CallSig>,
}

/// How far the emission of a method has come.
pub struct Emission<'a> {
    pub code: Code,
    pub sites: Seq<Site<'a>>,
    /// The replies used.
    pub next: nat,
    /// The next label that is no block.
    pub synthetic: u32,
}

/// Nothing is emitted yet.
pub open spec fn nothing_emitted<'a>() -> Emission<'a> {
    Emission {
        code: Code::empty(),
        sites: Seq::empty(),
        next: 0,
        synthetic: FIRST_SYNTHETIC_LABEL,
    }
}

/// The bytes of an instruction that is neither a jump nor a label.
pub open spec fn op_code(op: Op) -> Seq<u8> {
    match op {
        Op::Mov { width, dst, src } => mov_code(width, dst, src),
        Op::Lea { dst, addr } => lea_code(dst, addr),
        Op::Alu { op, width, dst, src } => alu_code(op, width, dst, src),
        Op::Neg { width, dst } => neg_code(width, dst),
        Op::Not { width, dst } => not_code(width, dst),
        Op::Div { width, divisor } => div_code(width, divisor),
        Op::Idiv { width, divisor } => idiv_code(width, divisor),
        Op::ShiftCl { op, width, dst } => shift_cl_code(op, width, dst),
        Op::ShiftImm { op, width, dst, count } => shift_imm_code(op, width, dst, count),
        Op::Setcc { cc, dst } => setcc_code(cc, dst),
        Op::Movsxd { dst, src } => movsxd_code(dst, src),
        Op::Imul { width, dst, src } => imul_code(width, dst, src),
        Op::ImulImm { width, dst, lhs, imm } => imul_imm_code(width, dst, lhs, imm),
        Op::Cdq { width } => cdq_code(width),
        Op::MovFLoad { width, dst, src } => mov_f_load_code(width, dst, src),
        Op::MovFStore { width, dst, src } => mov_f_store_code(width, dst, src),
        Op::ArithF { op, width, dst, src } => arith_f_code(op, width, dst, src),
        Op::Ucomis { width, lhs, rhs } => ucomis_code(width, lhs, rhs),
        Op::XorF { width, dst, src } => xor_f_code(width, dst, src),
        Op::Cvtsi2s { width, dst, src, src_w64 } => cvtsi2s_code(width, dst, src, src_w64),
        Op::Cvtts2si { width, dst, src, dst_w64 } => cvtts2si_code(width, dst, src, dst_w64),
        Op::Cvts2s { to, dst, src } => cvts2s_code(to, dst, src),
        Op::MovGprToXmm { width, dst, src } => mov_gpr_to_xmm_code(width, dst, src),
        Op::Call { form, .. } => call_code(form),
        Op::Push { reg } => plus_reg_code(0x50, reg),
        Op::Leave => seq![0xC9u8],
        Op::Ret => seq![0xC3u8],
        Op::Jcc { .. } | Op::Jmp { .. } | Op::Bind { .. } => Seq::empty(),
    }
}

/// A call whose displacement is filled in later.
pub open spec fn call_code(form: CallForm) -> Seq<u8> {
    match form {
        CallForm::Direct => seq![0xE8u8] + le32(0),
        CallForm::Indirect => seq![0xFFu8, 0x15u8] + le32(0),
    }
}

/// The code with one more instruction.
pub open spec fn assembled(code: Code, op: Op) -> Code {
    match op {
        Op::Jcc { cc, target } => code.emit(
            seq![0x0Fu8, (0x80 + cond_number(cc)) as u8],
        ).branch_field(target),
        Op::Jmp { target } => code.emit(seq![0xE9u8]).branch_field(target),
        Op::Bind { label } => code.bound(label),
        _ => code.emit(op_code(op)),
    }
}

/// The emission with one more instruction. A label is bound once.
pub open spec fn with_op<'a>(e: Emission<'a>, op: Op, sig: Option<&'a CallSig>) -> Result<
    Emission<'a>,
    Stop,
> {
    match op {
        Op::Bind { label } if e.code.labels.contains_key(label.0.0) => Err(
            Stop::Fail(CompileError::Internal("label bound twice")),
        ),
        Op::Call { form, method, target } => Ok(
            Emission {
                code: assembled(e.code, op),
                sites: e.sites.push(
                    Site {
                        offset: e.code.here(),
                        form,
                        target,
                        method,
                        sig: if method is Some {
                            sig
                        } else {
                            None
                        },
                    },
                ),
                ..e
            },
        ),
        _ => Ok(Emission { code: assembled(e.code, op), ..e }),
    }
}

/// The emission with the first `n` of some instructions more.
pub open spec fn with_ops<'a>(
    e: Emission<'a>,
    ops: Seq<Op>,
    sig: Option<&'a CallSig>,
    n: nat,
) -> Result<Emission<'a>, Stop>
    decreases n,
{
    if n == 0 {
        Ok(e)
    } else {
        match with_ops(e, ops, sig, (n - 1) as nat) {
            Err(stop) => Err(stop),
            Ok(before) => with_op(before, ops[n - 1], sig),
        }
    }
}

/// The emission with what was bound.
pub open spec fn with_bound<'a>(
    e: Emission<'a>,
    step: Step<()>,
    sig: Option<&'a CallSig>,
) -> Result<Emission<'a>, Stop> {
    match step {
        Err(halt) => Err(halt.stop),
        Ok((b, _)) => with_ops(
            Emission { next: b.next, synthetic: b.synthetic, ..e },
            b.ops,
            sig,
            b.ops.len(),
        ),
    }
}

/// Where the binding of the next piece starts.
pub open spec fn unbound(e: Emission) -> Bound {
    Bound { next: e.next, ops: Seq::empty(), synthetic: e.synthetic, asked: Seq::empty() }
}

/// The binding of a piece, and the signature that goes with it.
pub open spec fn work_bound<'a>(c: Ctx, b: Bound, work: Work<'a>) -> (
    Step<()>,
    Option<&'a CallSig>,
) {
    match work {
        Work::Op(op) => (Ok((b.emit(op), ())), None),
        Work::Inst { inst, sig } => (emit_inst_spec(c, b, inst), sig),
        Work::Join => (run_moves_spec(c, b, Request::SpillAll), None),
        Work::Reset => (reset_spec(c, b), None),
        Work::Fail(e) => (b.halt(Stop::Fail(e)), None),
    }
}

/// The emission with one more piece.
pub open spec fn with_work<'a>(c: Ctx, e: Emission<'a>, work: Work<'a>) -> Result<
    Emission<'a>,
    Stop,
> {
    let (step, sig) = work_bound(c, unbound(e), work);
    with_bound(e, step, sig)
}

/// The emission of the first `n` pieces.
pub open spec fn with_works<'a>(c: Ctx, work: Seq<Work<'a>>, n: nat) -> Result<Emission<'a>, Stop>
    decreases n,
{
    if n == 0 {
        Ok(nothing_emitted())
    } else {
        match with_works(c, work, (n - 1) as nat) {
            Err(stop) => Err(stop),
            Ok(e) => with_work(c, e, work[n - 1]),
        }
    }
}

/// What binding knows of a method, with the replies.
pub open spec fn ctx_of(method: Method, replies: Seq<Reply>) -> Ctx {
    Ctx {
        types: Seq::new(method.locals@.len(), |i: int| method.locals[i].ty),
        slots: frame_slots(method.locals@),
        num_frame_fixed: (method.num_args + method.num_il_locals) as u64,
        frame_size: frame_size_of(method.locals@),
        replies,
    }
}

/// The emission of a method on given replies: as far as they lead, and as far as
/// the method can be emitted.
pub open spec fn emission<'a>(method: Method, replies: Seq<Reply>) -> Result<Emission<'a>, Stop> {
    match layout_error(method.locals@) {
        Some(e) => Err(Stop::Fail(e)),
        None => with_works(ctx_of(method, replies), plan(method), plan(method).len()),
    }
}

fn facts_of(method: &Method, layout: FrameLayout) -> (facts: Facts)
    requires
        layout.slots@ == frame_slots(method.locals@),
        layout.frame_size == frame_size_of(method.locals@),
    ensures
        forall|replies: Seq<Reply>| #[trigger] facts.with(replies) == ctx_of(*method, replies),
{
    let mut types: Vec<Type> = Vec::new();
    let mut n: usize = 0;
    let ghost all = Seq::new(method.locals@.len(), |i: int| method.locals[i].ty);
    while n < method.locals.len()
        invariant
            n <= method.locals.len(),
            all == Seq::new(method.locals@.len(), |i: int| method.locals[i].ty),
            types@ == all.take(n as int),
        decreases method.locals.len() - n,
    {
        types.push(method.locals[n].ty);
        n = n + 1;
        assert(types@ =~= all.take(n as int));
    }
    assert(types@ =~= all);
    Facts {
        types,
        slots: layout.slots,
        num_frame_fixed: method.num_args as u64 + method.num_il_locals as u64,
        frame_size: layout.frame_size,
    }
}

/// Assemble one instruction.
fn assemble(assembler: &mut Asm, op: Op)
    requires
        op_valid(op),
        op is Bind ==> !old(assembler)@.labels.contains_key(op->label.0.0),
    ensures
        final(assembler)@ == assembled(old(assembler)@, op),
{
    match op {
        Op::Mov { width, dst, src } => assembler.mov(width, dst, src),
        Op::Lea { dst, addr } => assembler.lea(dst, addr),
        Op::Alu { op, width, dst, src } => assembler.alu(op, width, dst, src),
        Op::Neg { width, dst } => assembler.neg(width, dst),
        Op::Not { width, dst } => assembler.not(width, dst),
        Op::Div { width, divisor } => assembler.div(width, divisor),
        Op::Idiv { width, divisor } => assembler.idiv(width, divisor),
        Op::ShiftCl { op, width, dst } => assembler.shift_cl(op, width, dst),
        Op::ShiftImm { op, width, dst, count } => assembler.shift_imm(op, width, dst, count),
        Op::Setcc { cc, dst } => assembler.setcc(cc, dst),
        Op::Movsxd { dst, src } => assembler.movsxd(dst, src),
        Op::Imul { width, dst, src } => assembler.imul(width, dst, src),
        Op::ImulImm { width, dst, lhs, imm } => assembler.imul_imm(width, dst, lhs, imm),
        Op::Cdq { width } => assembler.cdq(width),
        Op::MovFLoad { width, dst, src } => assembler.mov_f_load(width, dst, src),
        Op::MovFStore { width, dst, src } => assembler.mov_f_store(width, dst, src),
        Op::ArithF { op, width, dst, src } => assembler.arith_f(op, width, dst, src),
        Op::Ucomis { width, lhs, rhs } => assembler.ucomis(width, lhs, rhs),
        Op::XorF { width, dst, src } => assembler.xor_f(width, dst, src),
        Op::Cvtsi2s { width, dst, src, src_w64 } => assembler.cvtsi2s(width, dst, src, src_w64),
        Op::Cvtts2si { width, dst, src, dst_w64 } => assembler.cvtts2si(width, dst, src, dst_w64),
        Op::Cvts2s { to, dst, src } => assembler.cvts2s(to, dst, src),
        Op::MovGprToXmm { width, dst, src } => assembler.mov_gpr_to_xmm(width, dst, src),
        Op::Call { form, .. } => match form {
            CallForm::Direct => assembler.call_unlinked(),
            CallForm::Indirect => assembler.call_indirect(),
        },
        Op::Push { reg } => assembler.push(reg),
        Op::Leave => assembler.leave(),
        Op::Ret => assembler.ret(),
        Op::Jcc { cc, target } => assembler.jcc(cc, target),
        Op::Jmp { target } => assembler.jmp(target),
        Op::Bind { label } => assembler.bind(label),
    }
}

/// The emission of a method, in the making.
///
/// It is driven from outside: [`Emitter::advance`] emits as far as the replies
/// lead and then names the next request; [`Emitter::reply`] takes the answer.
pub struct Emitter<'a> {
    method: &'a Method,
    facts: Facts,
    work: Vec<Work<'a>>,
    /// The pieces that are emitted.
    done: usize,
    replies: Vec<Reply>,
    next: usize,
    synthetic: u32,
    assembler: Asm,
    sites: Vec<Site<'a>>,
    failed: Option<CompileError>,
}

impl<'a> Emitter<'a> {
    /// The method.
    pub closed spec fn method(&self) -> Method {
        *self.method
    }

    /// The replies so far.
    pub closed spec fn replies(&self) -> Seq<Reply> {
        self.replies@
    }

    closed spec fn progress(&self) -> Emission<'a> {
        Emission {
            code: self.assembler@,
            sites: self.sites@,
            next: self.next as nat,
            synthetic: self.synthetic,
        }
    }

    closed spec fn ctx(&self) -> Ctx {
        ctx_of(*self.method, self.replies@)
    }

    /// What is emitted is what the method and the replies ask for.
    pub closed spec fn well_formed(&self) -> bool {
        &&& layout_error(self.method.locals@) is None
        &&& forall|replies: Seq<Reply>| #[trigger]
            self.facts.with(replies) == ctx_of(*self.method, replies)
        &&& self.work@ == plan(*self.method)
        &&& self.done <= self.work.len()
        &&& match self.failed {
            None => {
                &&& with_works(self.ctx(), self.work@, self.done as nat) == Ok::<_, Stop>(
                    self.progress(),
                )
                &&& self.assembler@.fields_exist()
            },
            Some(e) => with_works(self.ctx(), self.work@, self.done as nat) == Err::<
                Emission<'a>,
                Stop,
            >(Stop::Fail(e)),
        }
    }

    /// Begin. Fails where the method has no frame.
    pub fn new(method: &'a Method) -> (r: CompileResult<Emitter<'a>>)
        ensures
            match r {
                Ok(emitter) => {
                    &&& layout_error(method.locals@) is None
                    &&& emitter.well_formed()
                    &&& emitter.method() == *method
                    &&& emitter.replies() == Seq::<Reply>::empty()
                },
                Err(e) => layout_error(method.locals@) == Some(e),
            },
    {
        Self::with_replies(method, Vec::new())
    }

    /// Begin, with replies.
    fn with_replies(method: &'a Method, replies: Vec<Reply>) -> (r: CompileResult<Emitter<'a>>)
        ensures
            match r {
                Ok(emitter) => {
                    &&& layout_error(method.locals@) is None
                    &&& emitter.well_formed()
                    &&& emitter.method() == *method
                    &&& emitter.replies() == replies@
                },
                Err(e) => layout_error(method.locals@) == Some(e),
            },
    {
        let layout: FrameLayout = match FrameLayout::compute(method) {
            Ok(layout) => layout,
            Err(e) => return Err(e),
        };
        let work: Vec<Work<'a>> = plan_method(method, &layout);
        let facts: Facts = facts_of(method, layout);
        Ok(
            Emitter {
                method,
                facts,
                work,
                done: 0,
                replies,
                next: 0,
                synthetic: FIRST_SYNTHETIC_LABEL,
                assembler: Asm::new(),
                sites: Vec::new(),
                failed: None,
            },
        )
    }

    /// Take the answer to the request that `advance` named.
    pub fn reply(&mut self, reply: Reply)
        requires
            old(self).well_formed(),
        ensures
            final(self).well_formed(),
            final(self).method() == old(self).method(),
            final(self).replies() == old(self).replies().push(reply),
    {
        let ghost before = self.ctx();
        self.replies.push(reply);
        proof {
            lemma_more_works(before, self.ctx(), self.work@, self.done as nat);
        }
    }

    /// One more instruction.
    fn emit_op(&mut self, op: Op, sig: Option<&'a CallSig>) -> (r: Result<(), Stop>)
        requires
            old(self).assembler@.fields_exist(),
            op_valid(op),
        ensures
            same_but_code(*old(self), *final(self)),
            final(self).assembler@.fields_exist(),
            match r {
                Ok(_) => with_op(old(self).progress(), op, sig) == Ok::<_, Stop>(
                    final(self).progress(),
                ),
                Err(stop) => {
                    &&& with_op(old(self).progress(), op, sig) == Err::<Emission<'a>, Stop>(stop)
                    &&& final(self).progress() == old(self).progress()
                },
            },
    {
        if let Op::Bind { label } = op {
            if self.assembler.is_bound(label) {
                return Err(Stop::Fail(CompileError::Internal("label bound twice")));
            }
        }
        if let Op::Call { form, method, target } = op {
            let offset: u32 = self.assembler.offset();
            let sig: Option<&'a CallSig> = match method {
                Some(_) => sig,
                None => None,
            };
            self.sites.push(Site { offset, form, target, method, sig });
        }
        assemble(&mut self.assembler, op);
        proof {
            lemma_assembled_fields(old(self).assembler@, op);
        }
        Ok(())
    }

    fn emit_ops(&mut self, ops: &Vec<Op>, sig: Option<&'a CallSig>) -> (r: Result<(), Stop>)
        requires
            old(self).assembler@.fields_exist(),
            forall|i: int| 0 <= i < ops.len() ==> op_valid(#[trigger] ops@[i]),
        ensures
            same_but_code(*old(self), *final(self)),
            final(self).assembler@.fields_exist(),
            match r {
                Ok(_) => with_ops(old(self).progress(), ops@, sig, ops@.len()) == Ok::<_, Stop>(
                    final(self).progress(),
                ),
                Err(stop) => {
                    &&& with_ops(old(self).progress(), ops@, sig, ops@.len()) == Err::<
                        Emission<'a>,
                        Stop,
                    >(stop)
                    &&& exists|n: nat|
                        n < ops.len() && #[trigger] with_ops(old(self).progress(), ops@, sig, n)
                            == Ok::<_, Stop>(final(self).progress())
                },
            },
    {
        let ghost before = self.progress();
        let mut n: usize = 0;
        while n < ops.len()
            invariant
                n <= ops.len(),
                forall|i: int| 0 <= i < ops.len() ==> op_valid(#[trigger] ops@[i]),
                before == old(self).progress(),
                same_but_code(*old(self), *self),
                self.assembler@.fields_exist(),
                with_ops(before, ops@, sig, n as nat) == Ok::<_, Stop>(self.progress()),
            decreases ops.len() - n,
        {
            match self.emit_op(ops[n], sig) {
                Ok(_) => {},
                Err(stop) => {
                    proof {
                        lemma_ops_fail(before, ops@, sig, (n + 1) as nat, ops@.len());
                    }
                    return Err(stop);
                },
            }
            n = n + 1;
        }
        Ok(())
    }

    /// Bind the next piece.
    fn bind(&self, work: Work<'a>) -> (r: Result<(Vec<Op>, usize, u32), Stop>)
        requires
            self.well_formed(),
            self.failed is None,
        ensures
            match r {
                Ok((ops, next, synthetic)) => {
                    let step = work_bound(self.ctx(), unbound(self.progress()), work).0;
                    &&& step is Ok
                    &&& bound_at(step).next == next
                    &&& bound_at(step).ops == ops@
                    &&& bound_at(step).synthetic == synthetic
                    &&& work is Op ==> work->Op_0 == ops@[0] && ops.len() == 1
                    &&& work is Op || forall|i: int| 0 <= i < ops.len() ==> op_valid(#[trigger] ops@[i])
                },
                Err(stop) => {
                    let step = work_bound(self.ctx(), unbound(self.progress()), work).0;
                    step is Err && step->Err_0.stop == stop
                },
            },
    {
        proof {
            assert(self.facts.with(self.replies@) == self.ctx());
            law_frame_is_tight(self.method.locals@);
        }
        let mut binder: Binder = Binder::new(
            &self.facts,
            &self.replies,
            self.next,
            self.synthetic,
        );
        match work {
            Work::Op(op) => {
                let mut ops: Vec<Op> = Vec::new();
                ops.push(op);
                assert(ops@ =~= unbound(self.progress()).emit(op).ops);
                return Ok((ops, self.next, self.synthetic));
            },
            Work::Inst { inst, .. } => binder.emit_inst(inst)?,
            Work::Join => binder.join()?,
            Work::Reset => binder.reset()?,
            Work::Fail(e) => return Err(Stop::Fail(e)),
        }
        Ok(binder.finish())
    }

    /// Emit the next piece.
    fn advance_one(&mut self) -> (r: Result<(), Stop>)
        requires
            old(self).well_formed(),
            old(self).failed is None,
            old(self).done < old(self).work.len(),
        ensures
            final(self).well_formed(),
            final(self).method() == old(self).method(),
            final(self).replies() == old(self).replies(),
            final(self).work@ == old(self).work@,
            match r {
                Ok(_) => final(self).failed is None && final(self).done == old(self).done + 1,
                Err(stop) => {
                    &&& with_works(
                        final(self).ctx(),
                        final(self).work@,
                        (old(self).done + 1) as nat,
                    ) == Err::<Emission<'a>, Stop>(stop)
                    &&& match stop {
                        Stop::Ask(_) => *final(self) == *old(self),
                        Stop::Fail(e) => final(self).failed == Some(e),
                    }
                },
            },
    {
        let work: Work<'a> = self.work[self.done];
        proof {
            lemma_plan_is_valid(*self.method, self.done as int);
        }
        let (ops, next, synthetic) = match self.bind(work) {
            Ok(bound) => bound,
            Err(stop) => {
                if let Stop::Fail(e) = stop {
                    self.failed = Some(e);
                    self.done = self.done + 1;
                }
                return Err(stop);
            },
        };
        let sig: Option<&'a CallSig> = match work {
            Work::Inst { sig, .. } => sig,
            _ => None,
        };
        self.next = next;
        self.synthetic = synthetic;
        self.done = self.done + 1;
        match self.emit_ops(&ops, sig) {
            Ok(_) => Ok(()),
            Err(stop) => {
                proof {
                    lemma_ops_never_ask(
                        Emission { next: next as nat, synthetic, ..old(self).progress() },
                        ops@,
                        sig,
                        ops@.len(),
                    );
                }
                if let Stop::Fail(e) = stop {
                    self.failed = Some(e);
                }
                Err(stop)
            },
        }
    }

    /// Emit as far as the replies lead. Stops with the next request, or with what
    /// is wrong with the method; else the method is emitted.
    pub fn advance(&mut self) -> (r: Result<(), Stop>)
        requires
            old(self).well_formed(),
        ensures
            final(self).well_formed(),
            final(self).method() == old(self).method(),
            final(self).replies() == old(self).replies(),
            match r {
                Ok(_) => {
                    &&& final(self).is_done()
                    &&& emission(final(self).method(), final(self).replies()) is Ok
                },
                Err(stop) => emission(final(self).method(), final(self).replies()) == Err::<
                    Emission<'a>,
                    Stop,
                >(stop),
            },
    {
        if let Some(e) = self.failed {
            proof {
                lemma_works_fail(self.ctx(), self.work@, self.done as nat, self.work@.len());
            }
            return Err(Stop::Fail(e));
        }
        while self.done < self.work.len()
            invariant
                self.well_formed(),
                self.failed is None,
                self.method() == old(self).method(),
                self.replies() == old(self).replies(),
                self.work@ == old(self).work@,
            decreases self.work.len() - self.done,
        {
            let ghost n = (self.done + 1) as nat;
            match self.advance_one() {
                Ok(_) => {},
                Err(stop) => {
                    proof {
                        lemma_works_fail(self.ctx(), self.work@, n, self.work@.len());
                    }
                    return Err(stop);
                },
            }
        }
        Ok(())
    }

    /// The method is emitted.
    pub closed spec fn is_done(&self) -> bool {
        self.done == self.work.len() && self.failed is None
    }

    /// The code of the method, with its branches filled in, and what goes with it.
    pub fn finish(self, gc_roots: Vec<GcRootSlot>) -> (r: Result<CodegenOutput, Stop>)
        requires
            self.well_formed(),
        ensures
            match r {
                Ok(out) => {
                    &&& tier0_stop(self.method(), self.replies()) is None
                    &&& is_tier0_output(out, self.method(), self.replies(), gc_roots)
                },
                Err(stop) => tier0_stop(self.method(), self.replies()) == Some(stop),
            },
    {
        let mut emitter: Emitter<'a> = self;
        match emitter.advance() {
            Ok(_) => {},
            Err(stop) => {
                return Err(stop);
            },
        }
        let ghost end = emitter.progress();
        assert(emission(self.method(), self.replies()) == Ok::<_, Stop>(end));
        let bytes: Vec<u8> = match emitter.assembler.finalize() {
            Ok(code) => code.bytes,
            Err(_) => {
                return Err(Stop::Fail(CompileError::Internal("unbound branch label at finalize")));
            },
        };
        let relocations: Vec<Relocation> = relocations_of(&emitter.sites);
        let call_sites: Vec<CallSite> = call_sites_of(&emitter.sites);
        let out: CodegenOutput = CodegenOutput {
            code: CodeChunks {
                hot: CodeChunk { bytes, alignment: HOT_CODE_ALIGNMENT },
                cold: None,
            },
            ro_data: Vec::new(),
            relocations,
            call_sites,
            frame: FrameInfo { frame_size: emitter.facts.frame_size, gc_roots },
        };
        assert(emitter.facts.with(emitter.replies@) == emitter.ctx());
        Ok(out)
    }
}

/// The field of a call that the loader fills in.
pub open spec fn relocation_of(site: Site) -> Relocation {
    Relocation {
        chunk: ChunkRef::HotCode,
        offset: match site.form {
            CallForm::Direct => (site.offset + 1) as u32,
            CallForm::Indirect => (site.offset + 2) as u32,
        },
        target: site.target,
        reloc_type: RelocType::Relative32,
        addl_delta: 0,
    }
}

/// The record of a call.
pub open spec fn is_call_site_of(call: CallSite, site: Site) -> bool {
    &&& call.chunk == ChunkRef::HotCode
    &&& call.offset == site.offset
    &&& call.size == match site.form {
        CallForm::Direct => DIRECT_CALL_LEN,
        CallForm::Indirect => INDIRECT_CALL_LEN,
    }
    &&& call.method == site.method
    &&& match (call.sig, site.sig) {
        (Some(sig), Some(given)) => same_sig(sig, *given),
        (None, None) => true,
        _ => false,
    }
}

/// Why a method has no code on given replies, if it has none.
pub open spec fn tier0_stop(method: Method, replies: Seq<Reply>) -> Option<Stop> {
    match emission(method, replies) {
        Err(stop) => Some(stop),
        Ok(e) => if e.code.error_among(e.code.fixups.len()) is Some {
            Some(Stop::Fail(CompileError::Internal("unbound branch label at finalize")))
        } else {
            None
        },
    }
}

/// The code of a method on given replies, and what goes with it.
pub open spec fn is_tier0_output(
    out: CodegenOutput,
    method: Method,
    replies: Seq<Reply>,
    gc_roots: Vec<GcRootSlot>,
) -> bool {
    let e = emission(method, replies)->Ok_0;
    &&& out.code.hot.bytes@ == e.code.patched(e.code.fixups.len())
    &&& out.code.hot.alignment == HOT_CODE_ALIGNMENT
    &&& out.code.cold is None
    &&& out.ro_data@.len() == 0
    &&& out.relocations@ == Seq::new(e.sites.len(), |i: int| relocation_of(e.sites[i]))
    &&& out.call_sites@.len() == e.sites.len()
    &&& forall|i: int|
        0 <= i < e.sites.len() ==> is_call_site_of(#[trigger] out.call_sites@[i], e.sites[i])
    &&& out.frame.frame_size == frame_size_of(method.locals@)
    &&& out.frame.gc_roots == gc_roots
}

fn relocations_of(sites: &Vec<Site>) -> (relocations: Vec<Relocation>)
    ensures
        relocations@ == Seq::new(sites@.len(), |i: int| relocation_of(sites@[i])),
{
    let mut relocations: Vec<Relocation> = Vec::new();
    let mut n: usize = 0;
    while n < sites.len()
        invariant
            n <= sites.len(),
            relocations.len() == n,
            forall|i: int| 0 <= i < n ==> #[trigger] relocations@[i] == relocation_of(sites@[i]),
        decreases sites.len() - n,
    {
        let site: Site = sites[n];
        let offset: u32 = match site.form {
            CallForm::Direct => #[verifier::truncate]
            ((site.offset as u64 + 1) as u32),
            CallForm::Indirect => #[verifier::truncate]
            ((site.offset as u64 + 2) as u32),
        };
        relocations.push(
            Relocation {
                chunk: ChunkRef::HotCode,
                offset,
                target: site.target,
                reloc_type: RelocType::Relative32,
                addl_delta: 0,
            },
        );
        n = n + 1;
    }
    assert(relocations@ =~= Seq::new(sites@.len(), |i: int| relocation_of(sites@[i])));
    relocations
}

fn call_sites_of(sites: &Vec<Site>) -> (calls: Vec<CallSite>)
    ensures
        calls.len() == sites.len(),
        forall|i: int| 0 <= i < sites.len() ==> is_call_site_of(#[trigger] calls@[i], sites@[i]),
{
    let mut calls: Vec<CallSite> = Vec::new();
    let mut n: usize = 0;
    while n < sites.len()
        invariant
            n <= sites.len(),
            calls.len() == n,
            forall|i: int| 0 <= i < n ==> is_call_site_of(#[trigger] calls@[i], sites@[i]),
        decreases sites.len() - n,
    {
        let site: Site = sites[n];
        let size: u32 = match site.form {
            CallForm::Direct => DIRECT_CALL_LEN,
            CallForm::Indirect => INDIRECT_CALL_LEN,
        };
        let sig: Option<CallSig> = match site.sig {
            Some(sig) => Some(sig.copy()),
            None => None,
        };
        calls.push(
            CallSite {
                chunk: ChunkRef::HotCode,
                offset: site.offset,
                size,
                sig,
                method: site.method,
            },
        );
        n = n + 1;
    }
    calls
}

/// Emit a method on given replies: its code and what goes with it, or the request
/// that the replies do not answer, or what is wrong with the method.
pub fn emit_tier0(method: &Method, gc_roots: Vec<GcRootSlot>, replies: Vec<Reply>) -> (r: Result<
    CodegenOutput,
    Stop,
>)
    ensures
        match r {
            Ok(out) => {
                &&& tier0_stop(*method, replies@) is None
                &&& is_tier0_output(out, *method, replies@, gc_roots)
            },
            Err(stop) => tier0_stop(*method, replies@) == Some(stop),
        },
{
    match Emitter::with_replies(method, replies) {
        Ok(emitter) => emitter.finish(gc_roots),
        Err(e) => Err(Stop::Fail(e)),
    }
}

/// Two states of an emission that differ only in the code.
spec fn same_but_code(a: Emitter, b: Emitter) -> bool {
    &&& b.method == a.method
    &&& b.facts == a.facts
    &&& b.work == a.work
    &&& b.done == a.done
    &&& b.replies == a.replies
    &&& b.next == a.next
    &&& b.synthetic == a.synthetic
    &&& b.failed == a.failed
}

/// An instruction keeps the fields of the fixups.
proof fn lemma_assembled_fields(code: Code, op: Op)
    requires
        code.fields_exist(),
    ensures
        assembled(code, op).fields_exist(),
{
    match op {
        Op::Jcc { cc, target } => {
            let opcode = seq![0x0Fu8, (0x80 + cond_number(cc)) as u8];
            law_fields_are_kept(code, opcode, target, MethodHandle(0));
            law_fields_are_kept(code.emit(opcode), opcode, target, MethodHandle(0));
        },
        Op::Jmp { target } => {
            law_fields_are_kept(code, seq![0xE9u8], target, MethodHandle(0));
            law_fields_are_kept(code.emit(seq![0xE9u8]), seq![0xE9u8], target, MethodHandle(0));
        },
        Op::Bind { label } => {
            law_fields_are_kept(code, Seq::empty(), label, MethodHandle(0));
        },
        _ => {
            law_fields_are_kept(code, op_code(op), Label(BlockId(0)), MethodHandle(0));
        },
    }
}

/// An instruction that cannot be emitted spoils all that follow.
proof fn lemma_ops_fail<'a>(
    e: Emission<'a>,
    ops: Seq<Op>,
    sig: Option<&'a CallSig>,
    n: nat,
    m: nat,
)
    requires
        n <= m,
        with_ops(e, ops, sig, n) is Err,
    ensures
        with_ops(e, ops, sig, m) == with_ops(e, ops, sig, n),
    decreases m,
{
    if n < m {
        lemma_ops_fail(e, ops, sig, n, (m - 1) as nat);
    }
}

/// Bound instructions need no reply.
proof fn lemma_ops_never_ask<'a>(e: Emission<'a>, ops: Seq<Op>, sig: Option<&'a CallSig>, n: nat)
    ensures
        with_ops(e, ops, sig, n) is Err ==> with_ops(e, ops, sig, n)->Err_0 is Fail,
    decreases n,
{
    if n > 0 {
        lemma_ops_never_ask(e, ops, sig, (n - 1) as nat);
    }
}

/// A piece that cannot be emitted spoils all that follow.
proof fn lemma_works_fail<'a>(c: Ctx, work: Seq<Work<'a>>, n: nat, m: nat)
    requires
        n <= m,
        with_works(c, work, n) is Err,
    ensures
        with_works(c, work, m) == with_works(c, work, n),
    decreases m,
{
    if n < m {
        lemma_works_fail(c, work, n, (m - 1) as nat);
    }
}

/// More replies do not change what the earlier ones led to.
pub proof fn lemma_more_works<'a>(c: Ctx, all: Ctx, work: Seq<Work<'a>>, n: nat)
    requires
        more(c, all),
        with_works(c, work, n) is Ok || with_works(c, work, n)->Err_0 is Fail,
    ensures
        with_works(all, work, n) == with_works(c, work, n),
    decreases n,
{
    if n > 0 {
        let before = with_works(c, work, (n - 1) as nat);
        lemma_more_works(c, all, work, (n - 1) as nat);
        if let Ok(e) = before {
            let b = unbound(e);
            match work[n - 1] {
                Work::Inst { inst, .. } => lemma_more_emit_inst(c, all, b, inst),
                Work::Join => lemma_more_run_moves(c, all, b, Request::SpillAll),
                Work::Reset => lemma_more_reset(c, all, b),
                _ => {},
            }
        }
    }
}

/// The work of a method holds only instructions that have an encoding.
proof fn lemma_plan_is_valid(method: Method, i: int)
    requires
        0 <= i < plan(method).len(),
    ensures
        plan(method)[i] is Op ==> op_valid(plan(method)[i]->Op_0),
{
    lemma_plan_parts(method);
}

/// Every instruction of some work has an encoding.
spec fn work_valid(work: Seq<Work>) -> bool {
    forall|i: int| 0 <= i < work.len() ==> ((#[trigger] work[i]) is Op ==> op_valid(work[i]->Op_0))
}

proof fn lemma_plan_parts(method: Method)
    ensures
        work_valid(plan(method)),
{
    lemma_zero_valid(method, method.locals@.len());
    lemma_blocks_valid(method, method.blocks@.len());
}

proof fn lemma_zero_valid(method: Method, n: nat)
    ensures
        work_valid(zero_work(method, n)),
    decreases n,
{
    if n > 0 {
        lemma_zero_valid(method, (n - 1) as nat);
    }
}

proof fn lemma_stmts_valid(stmts: Seq<Stmt>, cx: &Cx, n: nat)
    ensures
        work_valid(stmts_work(stmts, cx, n)),
    decreases n,
{
    if n > 0 {
        lemma_stmts_valid(stmts, cx, (n - 1) as nat);
        assert(work_valid(stmt_work(stmts[n - 1].kind, cx)));
    }
}

proof fn lemma_blocks_valid(method: Method, n: nat)
    ensures
        work_valid(blocks_work(method, n)),
    decreases n,
{
    if n > 0 {
        lemma_blocks_valid(method, (n - 1) as nat);
        let cx = Cx { locals: &method.locals, layouts: &method.struct_layouts };
        let block = method.blocks[n - 1];
        lemma_stmts_valid(block.stmts@, &cx, block.stmts@.len());
    }
}

} // verus!
