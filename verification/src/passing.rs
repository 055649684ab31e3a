//! Calls pass their arguments, and take their results.
//!
//! The moves before a call bring every argument to the place that the calling
//! convention gives it, none destroys what another brought, and the moves behind it
//! bring the result to its destination.

use crate::abi::{
    all_args, is_abi_of, law_args_are_in_argument_registers, law_args_share_no_register,
    law_arguments_are_inside, law_results_come_back, law_returned_structs_come_back,
    law_stack_args_are_disjoint, law_struct_halves_differ, law_structs_are_passed_whole,
    layout_of_type, location_of, return_location, stack_bytes, state_after, struct_comes_back,
    struct_return, uses_reg,
};
use crate::faithful::{lemma_on, lemma_read, lemma_read_float};
use crate::inst::{FWidth, Inst, Width};
use crate::ir::{
    BlockId, CallSig, CallTarget, ClassHandle, Label, LocalId, Operand, StmtKind, StructLayout,
    StructLayouts, Type,
};
use crate::lower::{
    arg_move_rule, arg_setup, arg_setups, block_addr, catch_exit, load_eightbyte, lowering,
    passed_args, result_move_rule, return_struct_rule, store_eightbyte, Cx,
};
use crate::machine::modulus;
use crate::meaning::{
    byte_of, float_modulus, follow, fractional, leaves, load, pointer, read, read_float, sets, step,
    stored, type_of_operand, typed, undisturbed, whole, End, World,
};
use crate::regs::{
    law_from_phys_inverts_phys, law_phys_numbers_are_unique, Gpr, Xmm, FLOAT_ARG_REGS, INT_ARG_REGS,
};
use crate::sequences::{call_inst, law_calls_follow_their_arguments};
use crate::target::{ArgLocation, CallAbi, EightbyteReg, PhysReg, StructRegs};
use vstd::prelude::*;

verus! {

/// What a register holds, whatever its kind.
pub open spec fn register(w: World, reg: PhysReg) -> int {
    match Gpr::from_phys(reg) {
        Some(g) => w.gpr[g],
        None => w.xmm[Xmm::from_phys(reg)->0],
    }
}

/// An eightbyte of a struct in memory is in its register.
pub open spec fn eightbyte_at(w: World, at: World, base: int, eb: EightbyteReg) -> bool {
    register(at, eb.reg) == load(w.bytes, base + eb.offset, eb.size as nat)
}

/// The bytes of a scalar on the stack.
pub open spec fn scalar_bytes(cx: &Cx, arg: Operand) -> nat {
    match type_of_operand(cx, arg) {
        Type::Int32 | Type::Float => 4,
        _ => 8,
    }
}

/// The number of a scalar argument, as so many bits as its type has.
pub open spec fn scalar(cx: &Cx, w: World, arg: Operand) -> int {
    match whole(type_of_operand(cx, arg)) {
        Some(width) => read(w, arg, width),
        None => read_float(w, arg, fractional(type_of_operand(cx, arg))->0),
    }
}

/// The argument, as it was in `w`, is where `loc` says.
pub open spec fn passed(
    cx: &Cx,
    w: World,
    at: World,
    ty: Type,
    arg: Operand,
    loc: ArgLocation,
) -> bool {
    match loc {
        ArgLocation::Reg(p) => {
            &&& Gpr::from_phys(p) is Some ==> {
                &&& whole(type_of_operand(cx, arg)) is Some
                &&& register(at, p) % modulus(whole(type_of_operand(cx, arg))->0) == scalar(
                    cx,
                    w,
                    arg,
                )
            }
            &&& Gpr::from_phys(p) is None ==> {
                &&& fractional(type_of_operand(cx, arg)) is Some
                &&& register(at, p) % float_modulus(fractional(type_of_operand(cx, arg))->0)
                    == scalar(cx, w, arg)
            }
        },
        ArgLocation::Stack { offset } => match ty {
            Type::Struct(class) => forall|i: int|
                0 <= i < cx.layouts.layout_of(class)->0.size ==> #[trigger] (at.bytes)(
                    w.outgoing + offset + i,
                ) == (w.bytes)(pointer(w, arg) + i),
            _ => forall|i: int|
                0 <= i < scalar_bytes(cx, arg) ==> #[trigger] (at.bytes)(w.outgoing + offset + i)
                    == byte_of(scalar(cx, w, arg), i as nat),
        },
        ArgLocation::StructRegs(regs) => match regs {
            StructRegs::Zero => true,
            StructRegs::One(a) => eightbyte_at(w, at, pointer(w, arg), a),
            StructRegs::Two(a, b) => eightbyte_at(w, at, pointer(w, arg), a) && eightbyte_at(
                w,
                at,
                pointer(w, arg),
                b,
            ),
        },
    }
}

/// Only the place of one argument changed, and `r11`.
pub open spec fn only_there(
    w: World,
    at: World,
    ty: Type,
    layout: Option<StructLayout>,
    loc: ArgLocation,
) -> bool {
    &&& at.vals == w.vals
    &&& at.slots == w.slots
    &&& at.outgoing == w.outgoing
    &&& forall|g: Gpr|
        g != Gpr::R11 && !uses_reg(loc, g.phys()) ==> #[trigger] at.gpr[g] == w.gpr[g]
    &&& forall|x: Xmm| !uses_reg(loc, x.phys()) ==> #[trigger] at.xmm[x] == w.xmm[x]
    &&& match loc {
        ArgLocation::Stack { offset } => forall|i: int|
            !(0 <= i - w.outgoing - offset < stack_bytes(loc, ty, layout)) ==> #[trigger] (
            at.bytes)(i) == (w.bytes)(i),
        _ => at.bytes == w.bytes,
    }
}

/// The operand exists.
pub open spec fn known(cx: &Cx, op: Operand) -> bool {
    match op {
        Operand::Temp(id) | Operand::Local(id) => id.0 < cx.locals@.len(),
        _ => true,
    }
}

/// One descriptor alone.
proof fn lemma_single(w: World, inst: Inst)
    ensures
        follow(w, seq![inst], 0) == step(w, inst),
{
    reveal_with_fuel(follow, 2);
}

/// A register and its number.
proof fn lemma_numbers(p: PhysReg)
    ensures
        forall|g: Gpr| Gpr::from_phys(p) == Some(g) <==> #[trigger] g.phys() == p,
        forall|x: Xmm|
            Gpr::from_phys(p) is None && Xmm::from_phys(p) == Some(x) <==> #[trigger] x.phys() == p,
{
    assert forall|g: Gpr| Gpr::from_phys(p) == Some(g) <==> #[trigger] g.phys() == p by {
        law_from_phys_inverts_phys(g, Xmm::Xmm0);
    }
    assert forall|x: Xmm|
        Gpr::from_phys(p) is None && Xmm::from_phys(p) == Some(x) <==> #[trigger] x.phys() == p by {
        law_from_phys_inverts_phys(Gpr::Rax, x);
    }
}

proof fn lemma_register_move(cx: &Cx, w: World, ty: Type, arg: Operand, p: PhysReg)
    requires
        arg_move_rule(cx, arg, ArgLocation::Reg(p)) is Some,
        known(cx, arg),
    ensures
        match follow(w, arg_move_rule(cx, arg, ArgLocation::Reg(p))->0, 0) {
            End::On(at) => {
                &&& passed(cx, w, at, ty, arg, ArgLocation::Reg(p))
                &&& only_there(
                    w,
                    at,
                    ty,
                    layout_of_type(ty, *cx.layouts),
                    ArgLocation::Reg(p),
                )
            },
            _ => false,
        },
{
    reveal(arg_move_rule);
    let insts = arg_move_rule(cx, arg, ArgLocation::Reg(p))->0;
    assert(insts.len() == 1);
    assert(insts =~= seq![insts[0]]);
    lemma_single(w, insts[0]);
    match Gpr::from_phys(p) {
        Some(g) => {
            let width = whole(type_of_operand(cx, arg))->0;
            let v = match arg {
                Operand::AddrOf(l) => w.slots[l],
                _ => read(w, arg, width),
            };
            let at = World { gpr: w.gpr.insert(g, v), ..w };
            assert(step(w, insts[0]) == End::On(at)) by {
                lemma_read(w, arg, width);
                reveal(step);
            }
            lemma_numbers(p);
        },
        None => {
            let x = Xmm::from_phys(p)->0;
            let width = fractional(type_of_operand(cx, arg))->0;
            let at = World { xmm: w.xmm.insert(x, read_float(w, arg, width)), ..w };
            assert(step(w, insts[0]) == End::On(at)) by {
                lemma_read_float(cx, w, arg, width);
                reveal(step);
            }
            lemma_numbers(p);
        },
    }
}

proof fn lemma_stack_move(cx: &Cx, w: World, ty: Type, arg: Operand, offset: u32)
    requires
        arg_move_rule(cx, arg, ArgLocation::Stack { offset }) is Some,
        known(cx, arg),
        !(ty is Struct),
    ensures
        match follow(w, arg_move_rule(cx, arg, ArgLocation::Stack { offset })->0, 0) {
            End::On(at) => {
                &&& passed(cx, w, at, ty, arg, ArgLocation::Stack { offset })
                &&& only_there(
                    w,
                    at,
                    ty,
                    layout_of_type(ty, *cx.layouts),
                    ArgLocation::Stack { offset },
                )
            },
            _ => false,
        },
{
    reveal(arg_move_rule);
    let insts = arg_move_rule(cx, arg, ArgLocation::Stack { offset })->0;
    lemma_read(w, arg, Width::W32);
    lemma_read(w, arg, Width::W64);
    lemma_read_float(cx, w, arg, FWidth::S);
    lemma_read_float(cx, w, arg, FWidth::D);
    reveal(step);
    if let Operand::AddrOf(l) = arg {
        let w1 = World { gpr: w.gpr.insert(Gpr::R11, w.slots[l]), ..w };
        assert(step(w, insts[0]) == End::On(w1));
        lemma_on(w, w1, insts, 0);
        reveal_with_fuel(follow, 2);
    } else {
        assert(insts =~= seq![insts[0]]);
        lemma_single(w, insts[0]);
    }
}

proof fn lemma_struct_move(cx: &Cx, w: World, ty: Type, arg: Operand, regs: StructRegs)
    requires
        arg_move_rule(cx, arg, ArgLocation::StructRegs(regs)) is Some,
        match regs {
            StructRegs::Two(a, b) => a.reg != b.reg,
            _ => true,
        },
    ensures
        match follow(w, arg_move_rule(cx, arg, ArgLocation::StructRegs(regs))->0, 0) {
            End::On(at) => {
                &&& passed(cx, w, at, ty, arg, ArgLocation::StructRegs(regs))
                &&& only_there(
                    w,
                    at,
                    ty,
                    layout_of_type(ty, *cx.layouts),
                    ArgLocation::StructRegs(regs),
                )
            },
            _ => false,
        },
{
    reveal(arg_move_rule);
    let insts = arg_move_rule(cx, arg, ArgLocation::StructRegs(regs))->0;
    let addr = block_addr(arg)->0;
    match regs {
        StructRegs::Zero => {},
        StructRegs::One(a) => {
            lemma_single(w, insts[0]);
            lemma_loaded(w, arg, a);
        },
        StructRegs::Two(a, b) => {
            lemma_loaded(w, arg, a);
            let w1 = step(w, insts[0])->On_0;
            lemma_on(w, w1, insts, 0);
            lemma_loaded(w1, arg, b);
            let w2 = step(w1, insts[1])->On_0;
            lemma_on(w1, w2, insts, 1);
            lemma_numbers(a.reg);
            lemma_numbers(b.reg);
        },
    }
}

/// One eightbyte goes to its register.
proof fn lemma_loaded(w: World, arg: Operand, eb: EightbyteReg)
    requires
        block_addr(arg) is Some,
        load_eightbyte(block_addr(arg)->0, eb) is Some,
    ensures
        match step(w, load_eightbyte(block_addr(arg)->0, eb)->0) {
            End::On(at) => {
                &&& eightbyte_at(w, at, pointer(w, arg), eb)
                &&& at.vals == w.vals
                &&& at.slots == w.slots
                &&& at.outgoing == w.outgoing
                &&& at.bytes == w.bytes
                &&& forall|g: Gpr| g.phys() != eb.reg ==> #[trigger] at.gpr[g] == w.gpr[g]
                &&& forall|x: Xmm| x.phys() != eb.reg ==> #[trigger] at.xmm[x] == w.xmm[x]
            },
            _ => false,
        },
{
    reveal(step);
    lemma_numbers(eb.reg);
}

/// The moves of one argument bring it to its place, and change nothing else but `r11`.
/// A scalar has the type that it is passed as, or it is an address.
pub proof fn law_argument_moves_pass(
    cx: &Cx,
    w: World,
    ty: Type,
    arg: Operand,
    loc: ArgLocation,
)
    requires
        arg_setup(cx, ty, arg, loc) is Some,
        known(cx, arg),
        !uses_reg(loc, Gpr::R11.phys()),
        match loc {
            ArgLocation::StructRegs(StructRegs::Two(a, b)) => a.reg != b.reg,
            _ => true,
        },
    ensures
        match follow(w, arg_setup(cx, ty, arg, loc)->0, 0) {
            End::On(at) => {
                &&& passed(cx, w, at, ty, arg, loc)
                &&& only_there(w, at, ty, layout_of_type(ty, *cx.layouts), loc)
            },
            _ => false,
        },
{
    match (ty, loc) {
        (Type::Struct(class), ArgLocation::Stack { offset }) => {
            let addr = block_addr(arg)->0;
            let size = cx.layouts.layout_of(class)->0.size;
            lemma_single(w, Inst::CopyStackArg { addr, offset, size });
            reveal(step);
        },
        (_, ArgLocation::Reg(p)) => lemma_register_move(cx, w, ty, arg, p),
        (_, ArgLocation::Stack { offset }) => lemma_stack_move(cx, w, ty, arg, offset),
        (_, ArgLocation::StructRegs(regs)) => lemma_struct_move(cx, w, ty, arg, regs),
    }
}

/// Descriptors one behind the other.
proof fn lemma_concat(w: World, a: Seq<Inst>, b: Seq<Inst>, at: int)
    requires
        0 <= at <= a.len(),
        follow(w, a, at) is On,
    ensures
        follow(w, a + b, at) == follow(follow(w, a, at)->On_0, b, 0),
    decreases a.len() - at,
{
    if at < a.len() {
        assert((a + b)[at] == a[at]);
        lemma_concat(step(w, a[at])->On_0, a, b, at + 1);
    } else {
        lemma_behind(w, a, b, 0);
    }
}

proof fn lemma_behind(w: World, a: Seq<Inst>, b: Seq<Inst>, at: int)
    requires
        0 <= at <= b.len(),
    ensures
        follow(w, a + b, a.len() + at) == follow(w, b, at),
    decreases b.len() - at,
{
    if at < b.len() {
        assert((a + b)[a.len() + at] == b[at]);
        if let End::On(next) = step(w, b[at]) {
            lemma_behind(next, a, b, at + 1);
        }
    }
}

/// The byte is one that passing a struct reads.
pub open spec fn reads_byte(
    w: World,
    ty: Type,
    layout: Option<StructLayout>,
    arg: Operand,
    loc: ArgLocation,
    x: int,
) -> bool {
    let base = pointer(w, arg);
    match loc {
        ArgLocation::Reg(_) => false,
        ArgLocation::Stack { .. } => ty is Struct && base <= x < base + layout->0.size,
        ArgLocation::StructRegs(regs) => match regs {
            StructRegs::Zero => false,
            StructRegs::One(a) => 0 <= x - base - a.offset < a.size,
            StructRegs::Two(a, b) => 0 <= x - base - a.offset < a.size || 0 <= x - base - b.offset
                < b.size,
        },
    }
}

/// No struct that is passed stands where the outgoing arguments go.
pub open spec fn apart(cx: &Cx, w: World, sig: CallSig, args: Seq<Operand>) -> bool {
    let types = all_args(sig);
    let area = state_after(types, *cx.layouts, types.len())->Ok_0.stack;
    forall|i: int, x: int|
        0 <= i < passed_args(sig, args) && #[trigger] reads_byte(
            w,
            types[i],
            layout_of_type(types[i], *cx.layouts),
            args[i],
            location_of(types, *cx.layouts, i as nat),
            x,
        ) ==> !(w.outgoing <= x < w.outgoing + area)
}

/// Only the outgoing area and registers changed.
pub open spec fn only_outgoing(w: World, at: World, area: int) -> bool {
    &&& at.vals == w.vals
    &&& at.slots == w.slots
    &&& at.outgoing == w.outgoing
    &&& forall|x: int|
        !(w.outgoing <= x < w.outgoing + area) ==> #[trigger] (at.bytes)(x) == (w.bytes)(x)
}

proof fn lemma_same_load(a: spec_fn(int) -> int, b: spec_fn(int) -> int, at: int, n: nat)
    requires
        forall|x: int| at <= x < at + n ==> #[trigger] a(x) == b(x),
    ensures
        load(a, at, n) == load(b, at, n),
    decreases n,
{
    if n > 0 {
        lemma_same_load(a, b, at + 1, (n - 1) as nat);
    }
}

/// What was passed as it was in `m` was passed as it was in `w`, where the two agree on
/// what is read.
proof fn lemma_passed_from(
    cx: &Cx,
    w: World,
    m: World,
    at: World,
    ty: Type,
    arg: Operand,
    loc: ArgLocation,
    area: int,
)
    requires
        passed(cx, m, at, ty, arg, loc),
        only_outgoing(w, m, area),
        forall|x: int|
            #[trigger] reads_byte(w, ty, layout_of_type(ty, *cx.layouts), arg, loc, x) ==> !(
            w.outgoing <= x < w.outgoing + area),
    ensures
        passed(cx, w, at, ty, arg, loc),
{
    let layout = layout_of_type(ty, *cx.layouts);
    let base = pointer(w, arg);
    assert(pointer(m, arg) == base);
    assert forall|x: int|
        reads_byte(w, ty, layout, arg, loc, x) implies #[trigger] (m.bytes)(x) == (w.bytes)(x) by {}
    match loc {
        ArgLocation::StructRegs(StructRegs::One(a)) => {
            assert forall|x: int|
                base + a.offset <= x < base + a.offset + a.size as nat implies #[trigger] (m.bytes)(x)
                == (w.bytes)(x) by {
                assert(reads_byte(w, ty, layout, arg, loc, x));
            }
            lemma_same_load(m.bytes, w.bytes, base + a.offset, a.size as nat);
        },
        ArgLocation::StructRegs(StructRegs::Two(a, b)) => {
            assert forall|x: int|
                base + a.offset <= x < base + a.offset + a.size as nat implies #[trigger] (m.bytes)(x)
                == (w.bytes)(x) by {
                assert(reads_byte(w, ty, layout, arg, loc, x));
            }
            assert forall|x: int|
                base + b.offset <= x < base + b.offset + b.size as nat implies #[trigger] (m.bytes)(x)
                == (w.bytes)(x) by {
                assert(reads_byte(w, ty, layout, arg, loc, x));
            }
            lemma_same_load(m.bytes, w.bytes, base + a.offset, a.size as nat);
            lemma_same_load(m.bytes, w.bytes, base + b.offset, b.size as nat);
        },
        ArgLocation::Stack { offset } => {
            if let Type::Struct(class) = ty {
                assert forall|i: int|
                    0 <= i < cx.layouts.layout_of(class)->0.size implies #[trigger] (at.bytes)(
                    w.outgoing + offset + i,
                ) == (w.bytes)(base + i) by {
                    assert((at.bytes)(m.outgoing + offset + i) == (m.bytes)(base + i));
                    assert(reads_byte(w, ty, layout, arg, loc, base + i));
                }
            }
        },
        _ => {},
    }
}

/// An argument stays where it is while the next one is passed.
proof fn lemma_stays_passed(
    cx: &Cx,
    w: World,
    m: World,
    at: World,
    types: Seq<Type>,
    arg: Operand,
    j: nat,
    n: nat,
)
    requires
        state_after(types, *cx.layouts, types.len()) is Ok,
        j < n < types.len(),
        m.outgoing == w.outgoing,
        passed(cx, w, m, types[j as int], arg, location_of(types, *cx.layouts, j)),
        !(location_of(types, *cx.layouts, j) is Stack) || types[j as int] is Struct
            || scalar_bytes(cx, arg) <= 8,
        types[j as int] is Struct ==> layout_of_type(types[j as int], *cx.layouts) is Some,
        only_there(
            m,
            at,
            types[n as int],
            layout_of_type(types[n as int], *cx.layouts),
            location_of(types, *cx.layouts, n),
        ),
    ensures
        passed(cx, w, at, types[j as int], arg, location_of(types, *cx.layouts, j)),
{
    let layouts = *cx.layouts;
    let ty = types[j as int];
    let loc = location_of(types, layouts, j);
    let next = location_of(types, layouts, n);
    law_arguments_are_inside(types, layouts, j);
    match loc {
        ArgLocation::Reg(p) => lemma_register_stays(m, at, types, layouts, j, n, p),
        ArgLocation::StructRegs(StructRegs::One(a)) => lemma_register_stays(
            m,
            at,
            types,
            layouts,
            j,
            n,
            a.reg,
        ),
        ArgLocation::StructRegs(StructRegs::Two(a, b)) => {
            lemma_register_stays(m, at, types, layouts, j, n, a.reg);
            lemma_register_stays(m, at, types, layouts, j, n, b.reg);
        },
        ArgLocation::Stack { offset } => {
            let len = stack_bytes(loc, ty, layout_of_type(ty, layouts));
            if next is Stack {
                law_stack_args_are_disjoint(types, layouts, j, n);
            }
            assert forall|i: int| 0 <= i < len implies #[trigger] (at.bytes)(
                w.outgoing + offset + i,
            ) == (m.bytes)(w.outgoing + offset + i) by {}
        },
        _ => {},
    }
}

proof fn lemma_register_stays(
    m: World,
    at: World,
    types: Seq<Type>,
    layouts: StructLayouts,
    j: nat,
    n: nat,
    p: PhysReg,
)
    requires
        state_after(types, layouts, types.len()) is Ok,
        j < n < types.len(),
        uses_reg(location_of(types, layouts, j), p),
        only_there(
            m,
            at,
            types[n as int],
            layout_of_type(types[n as int], layouts),
            location_of(types, layouts, n),
        ),
    ensures
        register(at, p) == register(m, p),
{
    law_args_share_no_register(types, layouts, j, n, p);
    law_arguments_are_inside(types, layouts, j);
    law_args_are_in_argument_registers(types, layouts, j, p);
    lemma_numbers(p);
    lemma_is_register(types, layouts, j, p);
}

/// An argument register is a register.
proof fn lemma_is_register(types: Seq<Type>, layouts: StructLayouts, j: nat, p: PhysReg)
    requires
        state_after(types, layouts, types.len()) is Ok,
        j < types.len(),
        uses_reg(location_of(types, layouts, j), p),
    ensures
        Gpr::from_phys(p) is Some || Xmm::from_phys(p) is Some,
{
    law_args_are_in_argument_registers(types, layouts, j, p);
    if exists|k: int| 0 <= k < 6 && #[trigger] INT_ARG_REGS[k].phys() == p {
        let k = choose|k: int| 0 <= k < 6 && #[trigger] INT_ARG_REGS[k].phys() == p;
        law_from_phys_inverts_phys(INT_ARG_REGS[k], Xmm::Xmm0);
    } else {
        let k = choose|k: int| 0 <= k < 8 && #[trigger] FLOAT_ARG_REGS[k].phys() == p;
        law_from_phys_inverts_phys(Gpr::Rax, FLOAT_ARG_REGS[k]);
    }
}

/// The first `n` arguments are where they are expected.
pub open spec fn all_passed(
    cx: &Cx,
    w: World,
    at: World,
    sig: CallSig,
    args: Seq<Operand>,
    n: nat,
) -> bool {
    let types = all_args(sig);
    forall|j: int|
        0 <= j < n ==> passed(
            cx,
            w,
            at,
            types[j],
            #[trigger] args[j],
            location_of(types, *cx.layouts, j as nat),
        )
}

proof fn lemma_all_passed(cx: &Cx, w: World, sig: CallSig, args: Seq<Operand>, n: nat)
    requires
        state_after(all_args(sig), *cx.layouts, all_args(sig).len()) is Ok,
        n <= passed_args(sig, args),
        arg_setups(cx, sig, args, n) is Some,
        forall|i: int| 0 <= i < args.len() ==> known(cx, #[trigger] args[i]),
        apart(cx, w, sig, args),
    ensures
        match follow(w, arg_setups(cx, sig, args, n)->0, 0) {
            End::On(at) => {
                &&& all_passed(cx, w, at, sig, args, n)
                &&& only_outgoing(
                    w,
                    at,
                    state_after(all_args(sig), *cx.layouts, all_args(sig).len())->Ok_0.stack as int,
                )
            },
            _ => false,
        },
    decreases n,
{
    if n > 0 {
        let types = all_args(sig);
        let layouts = *cx.layouts;
        let area = state_after(types, layouts, types.len())->Ok_0.stack as int;
        let k = (n - 1) as nat;
        lemma_all_passed(cx, w, sig, args, k);
        let before = arg_setups(cx, sig, args, k)->0;
        let ty = types[k as int];
        let arg = args[k as int];
        let loc = location_of(types, layouts, k);
        let last = arg_setup(cx, ty, arg, loc)->0;
        let m = follow(w, before, 0)->On_0;
        law_arguments_are_inside(types, layouts, k);
        law_struct_halves_differ(types, layouts, k);
        law_argument_moves_pass(cx, m, ty, arg, loc);
        let at = follow(m, last, 0)->On_0;
        lemma_concat(w, before, last, 0);
        assert(follow(w, arg_setups(cx, sig, args, n)->0, 0) == End::On(at));
        assert forall|x: int|
            #[trigger] reads_byte(w, ty, layout_of_type(ty, layouts), arg, loc, x) implies !(
        w.outgoing <= x < w.outgoing + area) by {
            assert(reads_byte(
                w,
                types[k as int],
                layout_of_type(types[k as int], layouts),
                args[k as int],
                location_of(types, layouts, k as int as nat),
                x,
            ));
        }
        lemma_passed_from(cx, w, m, at, ty, arg, loc, area);
        assert forall|j: int| 0 <= j < n implies passed(
            cx,
            w,
            at,
            types[j],
            #[trigger] args[j],
            location_of(types, layouts, j as nat),
        ) by {
            if j < k {
                lemma_struct_known(cx, sig, args, n, j);
                lemma_stays_passed(cx, w, m, at, types, args[j], j as nat, k);
            }
        }
    }
}

/// A struct that is passed has a layout.
proof fn lemma_struct_known(cx: &Cx, sig: CallSig, args: Seq<Operand>, n: nat, j: int)
    requires
        0 <= j < n <= passed_args(sig, args),
        state_after(all_args(sig), *cx.layouts, all_args(sig).len()) is Ok,
        arg_setups(cx, sig, args, n) is Some,
    ensures
        all_args(sig)[j] is Struct ==> layout_of_type(all_args(sig)[j], *cx.layouts) is Some,
{
    if all_args(sig)[j] is Struct {
        law_structs_are_passed_whole(all_args(sig), *cx.layouts, j as nat);
    }
}

/// A call is reached with every argument in its place: values of all kinds, structs
/// included, each as it was before the call. Nothing else in memory has changed, and the
/// target of an indirect call is what it was.
pub proof fn law_calls_pass_their_arguments(
    cx: &Cx,
    w: World,
    dst: Option<LocalId>,
    target: CallTarget,
    sig: CallSig,
    args: Vec<Operand>,
)
    requires
        lowering(StmtKind::Call { dst, target, sig, args }, cx) is Some,
        forall|i: int| 0 <= i < args@.len() ==> known(cx, #[trigger] args@[i]),
        apart(cx, w, sig, args@),
    ensures
        match follow(w, lowering(StmtKind::Call { dst, target, sig, args }, cx)->0, 0) {
            End::Calls(at, call) => {
                &&& Some(call) == call_inst(target)
                &&& all_passed(cx, w, at, sig, args@, passed_args(sig, args@))
                &&& only_outgoing(
                    w,
                    at,
                    state_after(all_args(sig), *cx.layouts, all_args(sig).len())->Ok_0.stack as int,
                )
            },
            _ => false,
        },
{
    let insts = lowering(StmtKind::Call { dst, target, sig, args }, cx)->0;
    let n = passed_args(sig, args@);
    let moves = arg_setups(cx, sig, args@, n)->0;
    law_calls_follow_their_arguments(cx, dst, target, sig, args);
    lemma_all_passed(cx, w, sig, args@, n);
    let rest = insts.skip(moves.len() as int);
    assert(insts =~= moves + rest);
    lemma_concat(w, moves, rest, 0);
    reveal(step);
}

/// Behind a call, an integer result goes from `rax` to its destination, a float from
/// `xmm0`. `back` is the world that the call came back to.
pub proof fn law_results_are_taken(
    cx: &Cx,
    back: World,
    dst: LocalId,
    target: CallTarget,
    sig: CallSig,
    args: Vec<Operand>,
    ty: Type,
)
    requires
        lowering(StmtKind::Call { dst: Some(dst), target, sig, args }, cx) is Some,
        typed(cx, dst, ty),
        !(sig.ret is Struct),
    ensures
        ({
            let insts = lowering(StmtKind::Call { dst: Some(dst), target, sig, args }, cx)->0;
            let at = arg_setups(cx, sig, args@, passed_args(sig, args@))->0.len();
            sets(
                back,
                follow(back, insts, at as int + 1),
                dst,
                match whole(sig.ret) {
                    Some(_) => back.gpr[Gpr::Rax] % modulus(whole(ty)->0),
                    None => back.xmm[Xmm::Xmm0] % float_modulus(fractional(ty)->0),
                },
            )
        }),
{
    let insts = lowering(StmtKind::Call { dst: Some(dst), target, sig, args }, cx)->0;
    let moves = arg_setups(cx, sig, args@, passed_args(sig, args@))->0;
    let ret = return_location(sig.ret, layout_of_type(sig.ret, *cx.layouts))->Ok_0;
    let result = result_move_rule(cx, ret, dst)->0;
    let head = moves.push(call_inst(target)->0);
    assert(insts =~= head + result);
    lemma_behind(back, head, result, 0);
    reveal(result_move_rule);
    assert(result =~= seq![result[0]]);
    lemma_single(back, result[0]);
    law_from_phys_inverts_phys(Gpr::Rax, Xmm::Xmm0);
    reveal(step);
}

/// The memory with the eightbytes of a struct stored from their registers.
pub open spec fn struct_stored(w: World, base: int, regs: StructRegs) -> spec_fn(int) -> int {
    match regs {
        StructRegs::Zero => w.bytes,
        StructRegs::One(a) => stored(w.bytes, base + a.offset, a.size as nat, register(w, a.reg)),
        StructRegs::Two(a, b) => stored(
            stored(w.bytes, base + a.offset, a.size as nat, register(w, a.reg)),
            base + b.offset,
            b.size as nat,
            register(w, b.reg),
        ),
    }
}

/// Behind a call, the eightbytes of a struct result go from their registers to the slot of
/// the destination.
pub proof fn law_struct_results_are_taken(
    cx: &Cx,
    back: World,
    dst: LocalId,
    target: CallTarget,
    sig: CallSig,
    args: Vec<Operand>,
    abi: CallAbi,
)
    requires
        lowering(StmtKind::Call { dst: Some(dst), target, sig, args }, cx) is Some,
        is_abi_of(abi, sig, *cx.layouts),
        sig.ret is Struct,
    ensures
        ({
            let insts = lowering(StmtKind::Call { dst: Some(dst), target, sig, args }, cx)->0;
            let at = arg_setups(cx, sig, args@, passed_args(sig, args@))->0.len();
            let layout = layout_of_type(sig.ret, *cx.layouts)->0;
            &&& struct_comes_back(layout.sysv.eightbytes, abi.ret->0)
            &&& leaves(
                back,
                follow(back, insts, at as int + 1),
                struct_stored(back, back.slots[dst], abi.ret->0->StructRegs_0),
            )
        }),
{
    let insts = lowering(StmtKind::Call { dst: Some(dst), target, sig, args }, cx)->0;
    let moves = arg_setups(cx, sig, args@, passed_args(sig, args@))->0;
    law_results_come_back(abi, sig, *cx.layouts);
    let result = result_move_rule(cx, abi.ret, dst)->0;
    let head = moves.push(call_inst(target)->0);
    assert(insts =~= head + result);
    lemma_behind(back, head, result, 0);
    reveal(result_move_rule);
    match abi.ret->0->StructRegs_0 {
        StructRegs::Zero => {},
        StructRegs::One(a) => {
            lemma_single(back, result[0]);
            lemma_saved(back, dst, a);
        },
        StructRegs::Two(a, b) => {
            lemma_saved(back, dst, a);
            let w1 = step(back, result[0])->On_0;
            lemma_on(back, w1, result, 0);
            lemma_saved(w1, dst, b);
            let w2 = step(w1, result[1])->On_0;
            lemma_on(w1, w2, result, 1);
        },
    }
}

/// One eightbyte goes from its register to a slot.
proof fn lemma_saved(w: World, dst: LocalId, eb: EightbyteReg)
    requires
        store_eightbyte(dst, eb) is Some,
    ensures
        step(w, store_eightbyte(dst, eb)->0) == End::On(
            World {
                bytes: stored(
                    w.bytes,
                    w.slots[dst] + eb.offset,
                    eb.size as nat,
                    register(w, eb.reg),
                ),
                ..w
            },
        ),
{
    reveal(step);
}

/// A struct that a method returns leaves in the registers where its callers look for it.
pub proof fn law_struct_returns_return(cx: &Cx, w: World, addr: Operand, class: ClassHandle)
    requires
        lowering(StmtKind::ReturnStruct { addr, class }, cx) is Some,
    ensures
        ({
            let layout = cx.layouts.layout_of(class);
            let loc = ArgLocation::StructRegs(struct_return(layout->0.sysv.eightbytes));
            &&& layout is Some
            &&& struct_comes_back(layout->0.sysv.eightbytes, loc)
            &&& match follow(w, lowering(StmtKind::ReturnStruct { addr, class }, cx)->0, 0) {
                End::Returns(after) => undisturbed(w, after) && passed(
                    cx,
                    w,
                    after,
                    Type::Struct(class),
                    addr,
                    loc,
                ),
                _ => false,
            }
        }),
{
    reveal(return_struct_rule);
    let insts = lowering(StmtKind::ReturnStruct { addr, class }, cx)->0;
    let ebs = cx.layouts.layout_of(class)->0.sysv.eightbytes;
    let tail = seq![Inst::Leave, Inst::Ret];
    law_returned_structs_come_back(ebs);
    match struct_return(ebs) {
        StructRegs::Zero => lemma_leaves(w, insts, 0),
        StructRegs::One(a) => {
            lemma_loaded(w, addr, a);
            let w1 = step(w, insts[0])->On_0;
            lemma_on(w, w1, insts, 0);
            lemma_leaves(w1, insts, 1);
        },
        StructRegs::Two(a, b) => {
            lemma_loaded(w, addr, a);
            let w1 = step(w, insts[0])->On_0;
            lemma_on(w, w1, insts, 0);
            lemma_loaded(w1, addr, b);
            let w2 = step(w1, insts[1])->On_0;
            lemma_on(w1, w2, insts, 1);
            lemma_leaves(w2, insts, 2);
            lemma_numbers(a.reg);
            lemma_numbers(b.reg);
            law_from_phys_inverts_phys(Gpr::Rax, Xmm::Xmm0);
            law_from_phys_inverts_phys(Gpr::Rdx, Xmm::Xmm1);
            law_phys_numbers_are_unique(Gpr::Rax, Gpr::Rdx, Xmm::Xmm0, Xmm::Xmm1);
        },
    }
}

proof fn lemma_leaves(w: World, insts: Seq<Inst>, at: int)
    requires
        0 <= at,
        insts.len() == at + 2,
        insts[at] == Inst::Leave,
        insts[at + 1] == Inst::Ret,
    ensures
        follow(w, insts, at) == End::Returns(w),
{
    reveal(step);
    reveal_with_fuel(follow, 3);
}

/// Leaving a catch block hands back the address of the target in `rax` and returns.
pub proof fn law_catch_blocks_hand_back_their_target(w: World, target: BlockId)
    ensures
        match follow(w, catch_exit(target), 0) {
            End::Returns(after) => after.gpr[Gpr::Rax] == (w.places)(Label(target)) && undisturbed(
                w,
                after,
            ),
            _ => false,
        },
{
    reveal(step);
    reveal_with_fuel(follow, 3);
}

} // verus!
