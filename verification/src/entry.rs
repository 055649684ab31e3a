//! How a method begins, and where its parts stand.
//!
//! The instructions before the first block bring every argument to its slot and set
//! to zero what must be zero. The blocks follow in their order, each at its label.

use crate::abi::location_of;
use crate::artifact::{CallSite, ChunkRef, RelocType};
use crate::bind::{
    bound_at, emit_call_lookup_spec, emit_call_spec, emit_helper_call_spec, emit_inst_spec,
    emit_mov_spec, emit_plain_inst_spec, slot_mem, Bound, CallForm, Ctx, Loc, Op, Reply, Request,
};
use crate::codegen::{
    arg_types, arg_work, args_work, block_work, blocks_work, ctx_of, insts_work, is_call_site_of,
    plan, relocation_of, stmts_work, zero_work, Site, Work,
};
use crate::computed::held;
use crate::emission::prolog_ops;
use crate::encode::Mem;
use crate::faithful::size_in_memory;
use crate::frame::{
    frame_slots, law_frame_is_tight, law_slots_are_disjoint, law_slots_fit_the_frame, layout_error,
    slot_size,
};
use crate::inst::Inst;
use crate::ir::{CorInfoHelpFunc, Label, Local, LocalId, Method, MethodHandle, Type};
use crate::lower::{frame_prolog, Cx};
use crate::machine::{execute, modulus, run, Cpu};
use crate::meaning::{float_modulus, fractional, whole};
use crate::regs::{Gpr, Xmm};
use crate::residency::lemma_noted;
use crate::target::PhysReg;
use vstd::prelude::*;

verus! {

/// The numbers that a value of a type can be.
pub open spec fn numbers(ty: Type) -> int {
    match whole(ty) {
        Some(width) => modulus(width),
        None => float_modulus(fractional(ty)->0),
    }
}

/// What a register holds, whatever its kind.
pub open spec fn register_of(cpu: Cpu, reg: PhysReg) -> int {
    match Gpr::from_phys(reg) {
        Some(g) => cpu.gpr[g],
        None => cpu.xmm[Xmm::from_phys(reg)->0],
    }
}

/// The slot of a local.
pub open spec fn slot_cell(method: Method, i: int) -> Mem {
    slot_mem(frame_slots(method.locals@)[i])
}

/// The pieces between the prolog and the blocks.
pub open spec fn opening<'a>(method: Method) -> Seq<Work<'a>> {
    args_work(method) + zero_work(method, method.locals@.len())
}

/// Some pieces that are instructions, as such.
pub open spec fn as_ops(work: Seq<Work>) -> Seq<Op> {
    Seq::new(work.len(), |k: int| work[k]->Op_0)
}

/// A slot is as large as a value of its local's type.
pub proof fn law_slots_hold_their_values(locals: Seq<Local>, i: int)
    requires
        layout_error(locals) is None,
        0 <= i < locals.len(),
    ensures
        slot_size(locals[i].ty)->Ok_0 == size_in_memory(locals[i].ty),
        whole(locals[i].ty) is Some || fractional(locals[i].ty) is Some,
{
    law_slots_fit_the_frame(locals, i);
}

/// Two locals have different slots.
pub proof fn law_slots_are_different_cells(method: Method, i: int, j: int)
    requires
        layout_error(method.locals@) is None,
        0 <= i < method.locals@.len(),
        0 <= j < method.locals@.len(),
        i != j,
    ensures
        slot_cell(method, i) != slot_cell(method, j),
{
    let locals = method.locals@;
    law_slots_fit_the_frame(locals, i);
    law_slots_fit_the_frame(locals, j);
    law_frame_is_tight(locals);
    if i < j {
        law_slots_are_disjoint(locals, i, j);
        law_slots_hold_their_values(locals, j);
    } else {
        law_slots_are_disjoint(locals, j, i);
        law_slots_hold_their_values(locals, i);
    }
}

/// The local must be zero when the first block begins: an IL local, or a temporary that
/// holds a GC pointer.
pub open spec fn must_be_zero(method: Method, i: int) -> bool {
    &&& method.num_args <= i < method.locals@.len()
    &&& i < method.num_args + method.num_il_locals || method.locals[i].ty is Ref
        || method.locals[i].ty is ByRef
}

/// The low part of a cell, as it is written.
proof fn lemma_low(n: int, was: int, value: int)
    requires
        n == 0x1_0000_0000 || n == 0x1_0000_0000_0000_0000,
    ensures
        (was - was % n + value % n) % n == value % n,
        value % n % n == value % n,
        0int % n == 0,
{
    if n == 0x1_0000_0000 {
        assert((was - was % 0x1_0000_0000 + value % 0x1_0000_0000) % 0x1_0000_0000 == value
            % 0x1_0000_0000);
    } else {
        assert((was - was % 0x1_0000_0000_0000_0000 + value % 0x1_0000_0000_0000_0000)
            % 0x1_0000_0000_0000_0000 == value % 0x1_0000_0000_0000_0000);
    }
}

proof fn lemma_zeros(cpu: Cpu, method: Method, n: nat)
    requires
        layout_error(method.locals@) is None,
        n <= method.locals@.len(),
    ensures
        ({
            let end = run(cpu, as_ops(zero_work(method, n)));
            &&& forall|i: int|
                0 <= i < n && must_be_zero(method, i) ==> (#[trigger] end.cells[slot_cell(
                    method,
                    i,
                )]) % numbers(method.locals[i].ty) == 0
            &&& forall|i: int|
                0 <= i < method.locals@.len() && (i >= n || !must_be_zero(method, i)) ==> (
                #[trigger] end.cells[slot_cell(method, i)]) == cpu.cells[slot_cell(method, i)]
        }),
    decreases n,
{
    if n > 0 {
        let k = (n - 1) as nat;
        lemma_zeros(cpu, method, k);
        let before = run(cpu, as_ops(zero_work(method, k)));
        law_slots_hold_their_values(method.locals@, k as int);
        if must_be_zero(method, k as int) {
            let works = zero_work(method, n);
            let op = works.last()->Op_0;
            assert(as_ops(works).drop_last() =~= as_ops(zero_work(method, k)));
            assert(as_ops(works).last() == op);
            let end = run(cpu, as_ops(works));
            assert(end == execute(before, op));
            assert forall|i: int| 0 <= i < method.locals@.len() && i != k implies end.cells[slot_cell(
                method,
                i,
            )] == before.cells[slot_cell(method, i)] by {
                law_slots_are_different_cells(method, i, k as int);
            }
            let cell = slot_cell(method, k as int);
            lemma_low(numbers(method.locals[k as int].ty), before.cells[cell], 0);
            assert(end.cells[slot_cell(method, k as int)] % numbers(method.locals[k as int].ty)
                == 0);
        }
    }
}

/// The stores of the first `n` arguments.
spec fn arg_stores<'a>(method: Method, n: nat) -> Seq<Work<'a>> {
    Seq::new(n, |i: int| arg_work(method, i))
}

proof fn lemma_arguments(cpu: Cpu, method: Method, n: nat)
    requires
        layout_error(method.locals@) is None,
        n <= method.num_args <= method.locals@.len(),
        forall|i: int| 0 <= i < n ==> (#[trigger] arg_work(method, i)) is Op,
    ensures
        ({
            let works = arg_stores(method, n);
            let end = run(cpu, as_ops(works));
            &&& end.gpr == cpu.gpr
            &&& end.xmm == cpu.xmm
            &&& forall|i: int|
                0 <= i < n ==> {
                    let loc = location_of(arg_types(method), method.struct_layouts, i as nat);
                    &&& loc is Reg
                    &&& (#[trigger] end.cells[slot_cell(method, i)]) % numbers(method.locals[i].ty)
                        == register_of(cpu, loc->Reg_0) % numbers(method.locals[i].ty)
                }
        }),
    decreases n,
{
    let works = arg_stores(method, n);
    if n > 0 {
        let k = (n - 1) as nat;
        lemma_arguments(cpu, method, k);
        let head = arg_stores(method, k);
        assert(as_ops(works).drop_last() =~= as_ops(head));
        let before = run(cpu, as_ops(head));
        assert(arg_work(method, k as int) is Op);
        let op = arg_work(method, k as int)->Op_0;
        assert(as_ops(works).last() == op);
        let end = run(cpu, as_ops(works));
        assert(end == execute(before, op));
        law_slots_hold_their_values(method.locals@, k as int);
        lemma_argument_stored(before, method, k as int);
        assert forall|i: int| 0 <= i < k implies end.cells[slot_cell(method, i)]
            == before.cells[slot_cell(method, i)] by {
            law_slots_are_different_cells(method, i, k as int);
        }
    }
}

/// The store of one argument.
proof fn lemma_argument_stored(cpu: Cpu, method: Method, i: int)
    requires
        0 <= i < method.num_args <= method.locals@.len(),
        arg_work(method, i) is Op,
        whole(method.locals[i].ty) is Some || fractional(method.locals[i].ty) is Some,
    ensures
        ({
            let loc = location_of(arg_types(method), method.struct_layouts, i as nat);
            let end = execute(cpu, arg_work(method, i)->Op_0);
            let n = numbers(method.locals[i].ty);
            &&& loc is Reg
            &&& end.gpr == cpu.gpr
            &&& end.xmm == cpu.xmm
            &&& end.cells[slot_cell(method, i)] % n == register_of(cpu, loc->Reg_0) % n
            &&& forall|m: Mem|
                m != slot_cell(method, i) ==> #[trigger] end.cells[m] == cpu.cells[m]
        }),
{
    let loc = location_of(arg_types(method), method.struct_layouts, i as nat);
    let ty = method.locals[i].ty;
    let was = cpu.cells[slot_cell(method, i)];
    lemma_low(numbers(ty), was, register_of(cpu, loc->Reg_0));
    match ty {
        Type::Int32 => {},
        Type::Float => {},
        Type::Double => {},
        _ => {},
    }
}

/// When the first block begins, every argument is in its slot, as many bits as its type
/// has, from the place where the caller put it; and what must be zero is zero.
pub proof fn law_methods_begin_with_their_arguments(cpu: Cpu, method: Method, i: int)
    requires
        layout_error(method.locals@) is None,
        forall|k: int| 0 <= k < opening(method).len() ==> (#[trigger] opening(method)[k]) is Op,
        0 <= i < method.locals@.len(),
    ensures
        ({
            let end = run(cpu, as_ops(opening(method)));
            let loc = location_of(arg_types(method), method.struct_layouts, i as nat);
            let n = numbers(method.locals[i].ty);
            &&& i < method.num_args ==> loc is Reg && end.cells[slot_cell(method, i)] % n
                == register_of(cpu, loc->Reg_0) % n
            &&& must_be_zero(method, i) ==> end.cells[slot_cell(method, i)] % n == 0
        }),
{
    let args = args_work(method);
    let zeros = zero_work(method, method.locals@.len());
    assert(opening(method) =~= args + zeros);
    if args.len() > 0 {
        assert(opening(method)[0] == args[0]);
    }
    assert(method.num_args > 0 ==> method.num_args <= method.locals@.len());
    let works = arg_stores(method, method.num_args as nat);
    assert(args =~= works);
    assert forall|k: int| 0 <= k < method.num_args implies (#[trigger] arg_work(
        method,
        k,
    )) is Op by {
        assert(opening(method)[k] == args[k]);
    }
    lemma_arguments(cpu, method, method.num_args as nat);
    let mid = run(cpu, as_ops(args));
    lemma_zeros(mid, method, method.locals@.len());
    assert(as_ops(opening(method)) =~= as_ops(args) + as_ops(zeros));
    lemma_run_on(cpu, as_ops(args), as_ops(zeros));
    let end = run(cpu, as_ops(opening(method)));
    let cell = slot_cell(method, i);
    assert(must_be_zero(method, i) ==> end.cells[cell] % numbers(method.locals[i].ty) == 0);
    if i < method.num_args {
        assert(!must_be_zero(method, i));
        assert(end.cells[cell] == mid.cells[cell]);
    }
}

/// Where an instruction looks for a local, it finds what the method began with: in an
/// argument the caller's value, in an IL local zero. These are the locals that stay in
/// the frame; the other ones are temporaries.
pub proof fn law_locals_are_read_where_they_begin(
    cpu: Cpu,
    method: Method,
    replies: Seq<Reply>,
    id: LocalId,
)
    requires
        layout_error(method.locals@) is None,
        forall|k: int| 0 <= k < opening(method).len() ==> (#[trigger] opening(method)[k]) is Op,
        id.0 < method.locals@.len(),
    ensures
        ({
            let c = ctx_of(method, replies);
            let i = id.0 as int;
            let end = run(cpu, as_ops(opening(method)));
            let loc = location_of(arg_types(method), method.struct_layouts, i as nat);
            let n = numbers(method.locals[i].ty);
            let found = held(c, end, Loc::Local(id)) % n;
            let fixed = (id.0 as u64) < c.num_frame_fixed;
            &&& i < method.num_args ==> fixed && found == register_of(cpu, loc->Reg_0) % n
            &&& method.num_args <= i < method.num_args + method.num_il_locals ==> fixed && found
                == 0
            &&& method.num_args + method.num_il_locals <= i ==> !fixed
            &&& c.types[i] == method.locals[i].ty
        }),
{
    law_methods_begin_with_their_arguments(cpu, method, id.0 as int);
}

proof fn lemma_run_on(cpu: Cpu, first: Seq<Op>, second: Seq<Op>)
    ensures
        run(cpu, first + second) == run(run(cpu, first), second),
    decreases second.len(),
{
    if second.len() == 0 {
        assert(first + second =~= first);
    } else {
        lemma_run_on(cpu, first, second.drop_last());
        assert((first + second).drop_last() =~= first + second.drop_last());
    }
}

/// The opening stands between the prolog and the blocks.
pub proof fn law_opening_stands_before_the_blocks(method: Method)
    ensures
        ({
            let blocks = blocks_work(method, method.blocks@.len());
            plan(method) == insts_work(frame_prolog(), None) + opening(method) + blocks
        }),
{
    let blocks = blocks_work(method, method.blocks@.len());
    assert(plan(method) =~= insts_work(frame_prolog(), None) + opening(method) + blocks);
}

/// The prolog's descriptors are bound to the prolog's instructions.
pub proof fn law_prolog_is_bound(c: Ctx, b: Bound, k: int)
    requires
        0 <= k < 3,
        emit_inst_spec(c, b, frame_prolog()[k]) is Ok,
    ensures
        frame_prolog().len() == 3,
        bound_at(emit_inst_spec(c, b, frame_prolog()[k])).ops.last() == prolog_ops(
            c.frame_size,
        )[k],
{
    reveal(emit_mov_spec);
    reveal(emit_plain_inst_spec);
}

/// Every block of a method has its place in the emission: its label, then its statements,
/// behind the blocks before it.
pub proof fn law_blocks_stand_in_order(method: Method, i: int)
    requires
        0 <= i < method.blocks@.len(),
    ensures
        ({
            let cx = Cx { locals: &method.locals, layouts: &method.struct_layouts };
            let block = method.blocks[i];
            let at = blocks_work(method, i as nat).len() as int;
            let work = block_work(block, &cx);
            let stmts = stmts_work(block.stmts@, &cx, block.stmts@.len());
            let all = blocks_work(method, method.blocks@.len());
            &&& at + work.len() <= all.len()
            &&& all.subrange(at, at + work.len()) == work
            &&& work[0] == Work::Op(Op::Bind { label: Label(block.id) })
            &&& work[1] == Work::Reset
            &&& work.subrange(2, 2 + stmts.len() as int) == stmts
        }),
{
    let cx = Cx { locals: &method.locals, layouts: &method.struct_layouts };
    let block = method.blocks[i];
    let work = block_work(block, &cx);
    let stmts = stmts_work(block.stmts@, &cx, block.stmts@.len());
    lemma_block_stands(method, i, method.blocks@.len());
    assert(work.subrange(2, 2 + stmts.len() as int) =~= stmts);
}

proof fn lemma_block_stands(method: Method, i: int, n: nat)
    requires
        0 <= i < n <= method.blocks@.len(),
    ensures
        ({
            let cx = Cx { locals: &method.locals, layouts: &method.struct_layouts };
            let at = blocks_work(method, i as nat).len() as int;
            let work = block_work(method.blocks[i], &cx);
            let all = blocks_work(method, n);
            &&& at + work.len() <= all.len()
            &&& all.subrange(at, at + work.len()) == work
        }),
    decreases n,
{
    let cx = Cx { locals: &method.locals, layouts: &method.struct_layouts };
    let at = blocks_work(method, i as nat).len() as int;
    let work = block_work(method.blocks[i], &cx);
    let all = blocks_work(method, n);
    if i < n - 1 {
        lemma_block_stands(method, i, (n - 1) as nat);
        let before = blocks_work(method, (n - 1) as nat);
        assert(all.subrange(at, at + work.len()) =~= before.subrange(at, at + work.len()));
    } else {
        assert(all.subrange(at, at + work.len()) =~= work);
    }
}

/// A call of a method asks for its entry point and calls there: at its address where it has
/// one, else through its slot. So does a call of a helper, which has no method.
pub open spec fn calls_where_said(
    b: Bound,
    after: Bound,
    c: Ctx,
    request: Request,
    method: Option<MethodHandle>,
) -> bool {
    &&& after.asked.len() >= b.asked.len() + 2
    &&& after.asked[b.asked.len() as int].request == request
    &&& after.asked[b.asked.len() as int + 1].request == Request::SpillRegisters
    &&& match c.replies[b.next as int] {
        Reply::Target(lookup) => match (lookup.addr, lookup.slot) {
            (Some(target), _) => after.ops.last() == (Op::Call {
                form: CallForm::Direct,
                method,
                target,
            }),
            (None, Some(target)) => after.ops.last() == (Op::Call {
                form: CallForm::Indirect,
                method,
                target,
            }),
            _ => false,
        },
        _ => false,
    }
}

pub proof fn law_calls_go_where_they_are_told(
    c: Ctx,
    b: Bound,
    method: MethodHandle,
    id: CorInfoHelpFunc,
)
    ensures
        emit_inst_spec(c, b, Inst::CallDirect { method }) is Ok ==> calls_where_said(
            b,
            bound_at(emit_inst_spec(c, b, Inst::CallDirect { method })),
            c,
            Request::EntryPoint(method),
            Some(method),
        ),
        emit_inst_spec(c, b, Inst::CallHelper { id }) is Ok ==> calls_where_said(
            b,
            bound_at(emit_inst_spec(c, b, Inst::CallHelper { id })),
            c,
            Request::HelperEntry(id),
            None,
        ),
{
    reveal(emit_call_spec);
    reveal(emit_helper_call_spec);
    reveal(emit_call_lookup_spec);
    lemma_noted(c, b.used(Request::EntryPoint(method)), Request::SpillRegisters);
    lemma_noted(c, b.used(Request::HelperEntry(id)), Request::SpillRegisters);
}

/// The record of a call says where it is and how long, what it calls, and where the loader
/// leads it.
pub proof fn law_records_say_what_is_called(call: CallSite, site: Site)
    requires
        is_call_site_of(call, site),
        site.offset + 6 <= u32::MAX,
    ensures
        call.offset == site.offset,
        call.method == site.method,
        call.chunk == ChunkRef::HotCode,
        relocation_of(site).chunk == ChunkRef::HotCode,
        relocation_of(site).target == site.target,
        relocation_of(site).reloc_type == RelocType::Relative32,
        relocation_of(site).addl_delta == 0,
        relocation_of(site).offset + 4 == call.offset + call.size,
        call.size == match site.form {
            CallForm::Direct => 5u32,
            CallForm::Indirect => 6u32,
        },
{
}

} // verus!
