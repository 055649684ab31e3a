//! The System V AMD64 assignment of arguments and results to registers and
//! stack slots.

use crate::error::{CompileError, CompileResult};
use crate::ir::{CallSig, Eightbyte, Eightbytes, StructLayout, StructLayouts, SysVClass, Type};
use crate::meaning::{fractional, whole};
use crate::regs::{
    Gpr, Xmm, FLOAT_ARG_REGS, FLOAT_RETURN_REG, FLOAT_RETURN_REGS, INT_ARG_REGS, INT_RETURN_REGS,
};
use crate::target::{ArgLocation, CallAbi, EightbyteReg, PhysReg, StructRegs};
use vstd::prelude::*;

verus! {

/// The argument registers taken so far, and the bytes of the outgoing area.
#[derive(Clone, Copy, PartialEq, Eq, Structural, Debug)]
pub struct ArgState {
    pub ints: u8,
    pub floats: u8,
    pub stack: u32,
}

/// The largest outgoing area whose rounded size has a stack offset.
pub const STACK_ARGS_MAX: u32 = 0xFFFF_FFF0;

pub open spec fn start_state() -> ArgState {
    ArgState { ints: 0, floats: 0, stack: 0 }
}

/// No more registers are taken than there are.
pub open spec fn state_valid(st: ArgState) -> bool {
    st.ints <= 6 && st.floats <= 8 && st.stack <= STACK_ARGS_MAX
}

/// The next `size` bytes of the outgoing area, in words.
pub open spec fn place_on_stack(size: int, st: ArgState) -> CompileResult<
    (ArgLocation, ArgState),
> {
    let end = st.stack + (size + 7) / 8 * 8;
    if end > STACK_ARGS_MAX {
        Err(CompileError::Unsupported("outgoing argument area beyond the reach of a stack offset"))
    } else {
        Ok((ArgLocation::Stack { offset: st.stack }, ArgState { stack: end as u32, ..st }))
    }
}

/// An integer, a pointer, or an eightbyte of them: the next register, if there
/// is one.
pub open spec fn next_int(st: ArgState) -> Option<(PhysReg, ArgState)> {
    if st.ints < 6 {
        Some((INT_ARG_REGS[st.ints as int].phys(), ArgState { ints: (st.ints + 1) as u8, ..st }))
    } else {
        None
    }
}

/// A float, or an eightbyte of them: the next register, if there is one.
pub open spec fn next_float(st: ArgState) -> Option<(PhysReg, ArgState)> {
    if st.floats < 8 {
        Some(
            (
                FLOAT_ARG_REGS[st.floats as int].phys(),
                ArgState { floats: (st.floats + 1) as u8, ..st },
            ),
        )
    } else {
        None
    }
}

pub open spec fn next_eightbyte(eb: Eightbyte, st: ArgState) -> Option<(EightbyteReg, ArgState)> {
    match if eb.class is Sse {
        next_float(st)
    } else {
        next_int(st)
    } {
        Some((reg, after)) => Some(
            (EightbyteReg { reg, size: eb.size, offset: eb.offset }, after),
        ),
        None => None,
    }
}

/// The registers of a whole struct; there are enough, or it takes none.
pub open spec fn next_struct(ebs: Eightbytes, st: ArgState) -> Option<(StructRegs, ArgState)> {
    match ebs {
        Eightbytes::Zero => Some((StructRegs::Zero, st)),
        Eightbytes::One(a) => match next_eightbyte(a, st) {
            Some((ra, after)) => Some((StructRegs::One(ra), after)),
            None => None,
        },
        Eightbytes::Two(a, b) => match next_eightbyte(a, st) {
            Some((ra, mid)) => match next_eightbyte(b, mid) {
                Some((rb, after)) => Some((StructRegs::Two(ra, rb), after)),
                None => None,
            },
            None => None,
        },
    }
}

/// Where the next argument goes, and what is taken then.
pub open spec fn place(ty: Type, layout: Option<StructLayout>, st: ArgState) -> CompileResult<
    (ArgLocation, ArgState),
> {
    match ty {
        Type::Int32 | Type::Int64 | Type::NativeInt | Type::Ref | Type::ByRef => match next_int(
            st,
        ) {
            Some((reg, after)) => Ok((ArgLocation::Reg(reg), after)),
            None => place_on_stack(8, st),
        },
        Type::Float | Type::Double => match next_float(st) {
            Some((reg, after)) => Ok((ArgLocation::Reg(reg), after)),
            None => place_on_stack(8, st),
        },
        Type::Struct(_) => match layout {
            None => Err(CompileError::Unsupported("struct arguments: outside the tier-0 subset")),
            Some(l) => match next_struct(l.sysv.eightbytes, st) {
                Some((regs, after)) => if l.sysv.passed_in_registers {
                    Ok((ArgLocation::StructRegs(regs), after))
                } else {
                    place_on_stack(l.size as int, st)
                },
                None => place_on_stack(l.size as int, st),
            },
        },
        Type::Void => Err(CompileError::Internal("void-typed argument")),
    }
}

/// The layout of a struct type.
pub open spec fn layout_of_type(ty: Type, layouts: StructLayouts) -> Option<StructLayout> {
    match ty {
        Type::Struct(class) => layouts.layout_of(class),
        _ => None,
    }
}

/// What is taken behind the first `n` arguments.
pub open spec fn state_after(types: Seq<Type>, layouts: StructLayouts, n: nat) -> CompileResult<
    ArgState,
>
    decreases n,
{
    if n == 0 {
        Ok(start_state())
    } else {
        match state_after(types, layouts, (n - 1) as nat) {
            Err(e) => Err(e),
            Ok(st) => match place(types[n - 1], layout_of_type(types[n - 1], layouts), st) {
                Err(e) => Err(e),
                Ok((_, after)) => Ok(after),
            },
        }
    }
}

/// Where the `i`th argument goes.
pub open spec fn location_of(types: Seq<Type>, layouts: StructLayouts, i: nat) -> ArgLocation {
    place(
        types[i as int],
        layout_of_type(types[i as int], layouts),
        state_after(types, layouts, i)->Ok_0,
    )->Ok_0.0
}

/// The types of all arguments, the receiver first.
pub open spec fn all_args(sig: CallSig) -> Seq<Type> {
    if sig.has_this {
        seq![Type::Ref] + sig.args@
    } else {
        sig.args@
    }
}

/// The return register of an eightbyte that has `ints` integer and `floats`
/// float eightbytes before it.
pub open spec fn return_reg(eb: Eightbyte, ints: int, floats: int) -> EightbyteReg {
    EightbyteReg {
        reg: if eb.class is Sse {
            FLOAT_RETURN_REGS[floats].phys()
        } else {
            INT_RETURN_REGS[ints].phys()
        },
        size: eb.size,
        offset: eb.offset,
    }
}

/// The registers that a struct is returned in.
pub open spec fn struct_return_regs(ebs: Eightbytes) -> StructRegs {
    match ebs {
        Eightbytes::Zero => StructRegs::Zero,
        Eightbytes::One(a) => StructRegs::One(return_reg(a, 0, 0)),
        Eightbytes::Two(a, b) => StructRegs::Two(
            return_reg(a, 0, 0),
            if a.class is Sse {
                return_reg(b, 0, 1)
            } else {
                return_reg(b, 1, 0)
            },
        ),
    }
}

/// Where the result comes back.
pub open spec fn return_location(ty: Type, layout: Option<StructLayout>) -> CompileResult<
    Option<ArgLocation>,
> {
    match ty {
        Type::Void => Ok(None),
        Type::Float | Type::Double => Ok(Some(ArgLocation::Reg(FLOAT_RETURN_REG.phys()))),
        Type::Struct(_) => match layout {
            Some(l) => if l.sysv.passed_in_registers {
                Ok(Some(ArgLocation::StructRegs(struct_return_regs(l.sysv.eightbytes))))
            } else {
                Err(CompileError::Unsupported("struct return values: outside the tier-0 subset"))
            },
            None => Err(
                CompileError::Unsupported("struct return values: outside the tier-0 subset"),
            ),
        },
        _ => Ok(Some(ArgLocation::Reg(INT_RETURN_REGS[0].phys()))),
    }
}

/// `n` rounded up to a multiple of 16.
pub open spec fn round_up16(n: int) -> int {
    (n + 15) / 16 * 16
}

/// Why a call cannot be classified, if it cannot.
pub open spec fn classify_error(sig: CallSig, layouts: StructLayouts) -> Option<CompileError> {
    let types = all_args(sig);
    match state_after(types, layouts, types.len()) {
        Err(e) => Some(e),
        Ok(_) => match return_location(sig.ret, layout_of_type(sig.ret, layouts)) {
            Err(e) => Some(e),
            Ok(_) => None,
        },
    }
}

/// The assignment of a call.
pub open spec fn is_abi_of(abi: CallAbi, sig: CallSig, layouts: StructLayouts) -> bool {
    let types = all_args(sig);
    &&& abi.args@ == Seq::new(types.len(), |i: int| location_of(types, layouts, i as nat))
    &&& return_location(sig.ret, layout_of_type(sig.ret, layouts)) == Ok::<_, CompileError>(abi.ret)
    &&& abi.stack_arg_bytes == round_up16(state_after(types, layouts, types.len())->Ok_0.stack as int)
}

fn take_int(st: ArgState) -> (r: Option<(PhysReg, ArgState)>)
    requires
        state_valid(st),
    ensures
        r == next_int(st),
{
    if st.ints < 6 {
        let table = INT_ARG_REGS;
        Some((table[st.ints as usize].phys(), ArgState { ints: st.ints + 1, ..st }))
    } else {
        None
    }
}

fn take_float(st: ArgState) -> (r: Option<(PhysReg, ArgState)>)
    requires
        state_valid(st),
    ensures
        r == next_float(st),
{
    if st.floats < 8 {
        let table = FLOAT_ARG_REGS;
        Some((table[st.floats as usize].phys(), ArgState { floats: st.floats + 1, ..st }))
    } else {
        None
    }
}

fn take_stack(size: u32, st: ArgState) -> (r: CompileResult<(ArgLocation, ArgState)>)
    requires
        state_valid(st),
    ensures
        r == place_on_stack(size as int, st),
{
    let end: u64 = st.stack as u64 + (size as u64 + 7) / 8 * 8;
    if end > STACK_ARGS_MAX as u64 {
        Err(CompileError::Unsupported("outgoing argument area beyond the reach of a stack offset"))
    } else {
        Ok((ArgLocation::Stack { offset: st.stack }, ArgState { stack: end as u32, ..st }))
    }
}

fn take_eightbyte(eb: Eightbyte, st: ArgState) -> (r: Option<(EightbyteReg, ArgState)>)
    requires
        state_valid(st),
    ensures
        r == next_eightbyte(eb, st),
{
    let taken: Option<(PhysReg, ArgState)> = if eb.class.is_sse() {
        take_float(st)
    } else {
        take_int(st)
    };
    match taken {
        Some((reg, after)) => Some(
            (EightbyteReg { reg, size: eb.size, offset: eb.offset }, after),
        ),
        None => None,
    }
}

fn take_struct(ebs: Eightbytes, st: ArgState) -> (r: Option<(StructRegs, ArgState)>)
    requires
        state_valid(st),
    ensures
        r == next_struct(ebs, st),
{
    match ebs {
        Eightbytes::Zero => Some((StructRegs::Zero, st)),
        Eightbytes::One(a) => match take_eightbyte(a, st) {
            Some((ra, after)) => Some((StructRegs::One(ra), after)),
            None => None,
        },
        Eightbytes::Two(a, b) => match take_eightbyte(a, st) {
            Some((ra, mid)) => match take_eightbyte(b, mid) {
                Some((rb, after)) => Some((StructRegs::Two(ra, rb), after)),
                None => None,
            },
            None => None,
        },
    }
}

/// Place the next argument.
pub fn place_arg(ty: Type, layout: Option<StructLayout>, st: ArgState) -> (r: CompileResult<
    (ArgLocation, ArgState),
>)
    requires
        state_valid(st),
    ensures
        r == place(ty, layout, st),
        r is Ok ==> state_valid(r->Ok_0.1),
{
    match ty {
        Type::Int32 | Type::Int64 | Type::NativeInt | Type::Ref | Type::ByRef => match take_int(
            st,
        ) {
            Some((reg, after)) => Ok((ArgLocation::Reg(reg), after)),
            None => take_stack(8, st),
        },
        Type::Float | Type::Double => match take_float(st) {
            Some((reg, after)) => Ok((ArgLocation::Reg(reg), after)),
            None => take_stack(8, st),
        },
        Type::Struct(_) => match layout {
            None => Err(CompileError::Unsupported("struct arguments: outside the tier-0 subset")),
            Some(l) => match take_struct(l.sysv.eightbytes, st) {
                Some((regs, after)) => if l.sysv.passed_in_registers {
                    Ok((ArgLocation::StructRegs(regs), after))
                } else {
                    take_stack(l.size, st)
                },
                None => take_stack(l.size, st),
            },
        },
        Type::Void => Err(CompileError::Internal("void-typed argument")),
    }
}

fn find_layout(ty: Type, layouts: &StructLayouts) -> (l: Option<StructLayout>)
    ensures
        l == layout_of_type(ty, *layouts),
{
    match ty {
        Type::Struct(class) => layouts.get(class),
        _ => None,
    }
}

fn return_eightbyte(eb: Eightbyte, ints: usize, floats: usize) -> (r: EightbyteReg)
    requires
        ints < 2,
        floats < 2,
    ensures
        r == return_reg(eb, ints as int, floats as int),
{
    let int_regs = INT_RETURN_REGS;
    let float_regs = FLOAT_RETURN_REGS;
    EightbyteReg {
        reg: if eb.class.is_sse() {
            float_regs[floats].phys()
        } else {
            int_regs[ints].phys()
        },
        size: eb.size,
        offset: eb.offset,
    }
}

/// The registers that a struct is returned in.
#[verifier::when_used_as_spec(struct_return_regs)]
pub fn struct_return(ebs: Eightbytes) -> (r: StructRegs)
    ensures
        r == struct_return_regs(ebs),
{
    match ebs {
        Eightbytes::Zero => StructRegs::Zero,
        Eightbytes::One(a) => StructRegs::One(return_eightbyte(a, 0, 0)),
        Eightbytes::Two(a, b) => StructRegs::Two(
            return_eightbyte(a, 0, 0),
            if a.class.is_sse() {
                return_eightbyte(b, 0, 1)
            } else {
                return_eightbyte(b, 1, 0)
            },
        ),
    }
}

fn classify_return(ty: Type, layout: Option<StructLayout>) -> (r: CompileResult<
    Option<ArgLocation>,
>)
    ensures
        r == return_location(ty, layout),
{
    match ty {
        Type::Void => Ok(None),
        Type::Float | Type::Double => Ok(Some(ArgLocation::Reg(FLOAT_RETURN_REG.phys()))),
        Type::Struct(_) => match layout {
            Some(l) => if l.sysv.passed_in_registers {
                Ok(Some(ArgLocation::StructRegs(struct_return(l.sysv.eightbytes))))
            } else {
                Err(CompileError::Unsupported("struct return values: outside the tier-0 subset"))
            },
            None => Err(
                CompileError::Unsupported("struct return values: outside the tier-0 subset"),
            ),
        },
        _ => {
            let int_regs = INT_RETURN_REGS;
            Ok(Some(ArgLocation::Reg(int_regs[0].phys())))
        },
    }
}

/// The argument and result assignment of a call. Integers and pointers take the
/// integer registers in order, floats the float registers, structs that fit
/// them both; what is left goes to the stack in words.
pub fn classify_call(sig: &CallSig, layouts: &StructLayouts) -> (r: CompileResult<CallAbi>)
    ensures
        match r {
            Ok(abi) => classify_error(*sig, *layouts) is None && is_abi_of(abi, *sig, *layouts),
            Err(e) => classify_error(*sig, *layouts) == Some(e),
        },
{
    let ghost types = all_args(*sig);
    let mut args: Vec<ArgLocation> = Vec::new();
    let mut st: ArgState = ArgState { ints: 0, floats: 0, stack: 0 };
    let mut n: usize = 0;
    if sig.has_this {
        let (loc, after) = place_arg(Type::Ref, None, st)?;
        args.push(loc);
        st = after;
    }
    let ghost first: int = if sig.has_this {
        1
    } else {
        0
    };
    proof {
        reveal_with_fuel(state_after, 2);
        assert(args@ =~= Seq::new(first as nat, |i: int| location_of(types, *layouts, i as nat)));
    }
    while n < sig.args.len()
        invariant
            n <= sig.args.len(),
            types == all_args(*sig),
            first == (if sig.has_this {
                1int
            } else {
                0int
            }),
            types.len() == sig.args.len() + first,
            state_valid(st),
            state_after(types, *layouts, (n + first) as nat) == Ok::<_, CompileError>(st),
            args@ == Seq::new(
                (n + first) as nat,
                |i: int| location_of(types, *layouts, i as nat),
            ),
        decreases sig.args.len() - n,
    {
        let ty: Type = sig.args[n];
        assert(types[n + first] == ty);
        match place_arg(ty, find_layout(ty, layouts), st) {
            Err(e) => {
                proof {
                    lemma_state_error(types, *layouts, (n + first + 1) as nat, types.len());
                }
                return Err(e);
            },
            Ok((loc, after)) => {
                args.push(loc);
                st = after;
            },
        }
        n = n + 1;
        assert(args@ =~= Seq::new(
            (n + first) as nat,
            |i: int| location_of(types, *layouts, i as nat),
        ));
    }
    let ret: Option<ArgLocation> = classify_return(sig.ret, find_layout(sig.ret, layouts))?;
    Ok(CallAbi { args, ret, stack_arg_bytes: (st.stack + 15) / 16 * 16 })
}

/// The first error stays the error.
proof fn lemma_state_error(types: Seq<Type>, layouts: StructLayouts, n: nat, m: nat)
    requires
        n <= m,
        state_after(types, layouts, n) is Err,
    ensures
        state_after(types, layouts, m) == state_after(types, layouts, n),
    decreases m,
{
    if n < m {
        lemma_state_error(types, layouts, n, (m - 1) as nat);
    }
}

/// The argument is passed in `reg`, or part of it is.
pub open spec fn uses_reg(loc: ArgLocation, reg: PhysReg) -> bool {
    match loc {
        ArgLocation::Reg(r) => r == reg,
        ArgLocation::StructRegs(StructRegs::One(a)) => a.reg == reg,
        ArgLocation::StructRegs(StructRegs::Two(a, b)) => a.reg == reg || b.reg == reg,
        _ => false,
    }
}

/// The register is one of those that are taken.
spec fn taken(st: ArgState, reg: PhysReg) -> bool {
    ||| exists|k: int| 0 <= k < st.ints && #[trigger] INT_ARG_REGS[k].phys() == reg
    ||| exists|k: int| 0 <= k < st.floats && #[trigger] FLOAT_ARG_REGS[k].phys() == reg
}

proof fn lemma_arg_regs_differ()
    ensures
        forall|i: int, j: int|
            0 <= i < j < 6 ==> #[trigger] INT_ARG_REGS[i].phys() != #[trigger] INT_ARG_REGS[j].phys(),
        forall|i: int, j: int|
            0 <= i < j < 8 ==> #[trigger] FLOAT_ARG_REGS[i].phys() != #[trigger] FLOAT_ARG_REGS[j].phys(),
        forall|i: int, j: int|
            0 <= i < 6 && 0 <= j < 8 ==> #[trigger] INT_ARG_REGS[i].phys()
                != #[trigger] FLOAT_ARG_REGS[j].phys(),
{
}

/// The next register of either kind is a new one.
proof fn lemma_next_reg(eb: Eightbyte, st: ArgState)
    requires
        state_valid(st),
        next_eightbyte(eb, st) is Some,
    ensures
        ({
            let (r, after) = next_eightbyte(eb, st)->0;
            &&& state_valid(after)
            &&& after.stack == st.stack
            &&& !taken(st, r.reg)
            &&& taken(after, r.reg)
            &&& forall|reg: PhysReg| taken(st, reg) ==> taken(after, reg)
        }),
{
    lemma_arg_regs_differ();
    let (r, after) = next_eightbyte(eb, st)->0;
    if eb.class is Sse {
        assert(FLOAT_ARG_REGS[st.floats as int].phys() == r.reg);
    } else {
        assert(INT_ARG_REGS[st.ints as int].phys() == r.reg);
    }
    assert forall|reg: PhysReg| taken(st, reg) implies taken(after, reg) by {
        if exists|k: int| 0 <= k < st.ints && #[trigger] INT_ARG_REGS[k].phys() == reg {
            let k = choose|k: int| 0 <= k < st.ints && #[trigger] INT_ARG_REGS[k].phys() == reg;
            assert(0 <= k < after.ints && INT_ARG_REGS[k].phys() == reg);
        } else {
            let k = choose|k: int| 0 <= k < st.floats && #[trigger] FLOAT_ARG_REGS[k].phys() == reg;
            assert(0 <= k < after.floats && FLOAT_ARG_REGS[k].phys() == reg);
        }
    }
}

/// The words of the outgoing area that an argument takes.
pub open spec fn stack_bytes(loc: ArgLocation, ty: Type, layout: Option<StructLayout>) -> int {
    match (loc, ty, layout) {
        (ArgLocation::Stack { .. }, Type::Struct(_), Some(l)) => (l.size as int + 7) / 8 * 8,
        (ArgLocation::Stack { .. }, _, _) => 8,
        _ => 0,
    }
}

/// An argument takes registers that were free, or the next words of the area.
proof fn lemma_place(ty: Type, layout: Option<StructLayout>, st: ArgState)
    requires
        state_valid(st),
        place(ty, layout, st) is Ok,
    ensures
        ({
            let (loc, after) = place(ty, layout, st)->Ok_0;
            &&& state_valid(after)
            &&& forall|reg: PhysReg|
                uses_reg(loc, reg) ==> !taken(st, reg) && #[trigger] taken(after, reg)
            &&& forall|reg: PhysReg| taken(st, reg) ==> #[trigger] taken(after, reg)
            &&& after.stack == st.stack + stack_bytes(loc, ty, layout)
            &&& loc is Stack ==> loc->offset == st.stack
        }),
{
    let int_part = Eightbyte { class: SysVClass::Integer, size: 8, offset: 0 };
    let float_part = Eightbyte { class: SysVClass::Sse, size: 8, offset: 0 };
    if next_eightbyte(int_part, st) is Some {
        lemma_next_reg(int_part, st);
    }
    if next_eightbyte(float_part, st) is Some {
        lemma_next_reg(float_part, st);
    }
    if let Some(l) = layout {
        match l.sysv.eightbytes {
            Eightbytes::Zero => {},
            Eightbytes::One(a) => {
                if next_eightbyte(a, st) is Some {
                    lemma_next_reg(a, st);
                }
            },
            Eightbytes::Two(a, b) => {
                if next_eightbyte(a, st) is Some {
                    lemma_next_reg(a, st);
                    let (_, mid) = next_eightbyte(a, st)->0;
                    if next_eightbyte(b, mid) is Some {
                        lemma_next_reg(b, mid);
                    }
                }
            },
        }
    }
}

proof fn lemma_state_grows(types: Seq<Type>, layouts: StructLayouts, i: nat, j: nat)
    requires
        i <= j <= types.len(),
        state_after(types, layouts, j) is Ok,
    ensures
        state_after(types, layouts, i) is Ok,
        state_valid(state_after(types, layouts, i)->Ok_0),
        state_valid(state_after(types, layouts, j)->Ok_0),
        state_after(types, layouts, i)->Ok_0.stack <= state_after(types, layouts, j)->Ok_0.stack,
        state_after(types, layouts, j)->Ok_0.stack % 8 == 0,
        forall|reg: PhysReg|
            taken(state_after(types, layouts, i)->Ok_0, reg) ==> #[trigger] taken(
                state_after(types, layouts, j)->Ok_0,
                reg,
            ),
    decreases j,
{
    if j > 0 {
        let m = (j - 1) as nat;
        if i < j {
            lemma_state_grows(types, layouts, i, m);
        } else {
            lemma_state_grows(types, layouts, m, m);
        }
        let st = state_after(types, layouts, m)->Ok_0;
        lemma_place(types[m as int], layout_of_type(types[m as int], layouts), st);
    }
}

/// The argument was placed.
proof fn lemma_placed(types: Seq<Type>, layouts: StructLayouts, i: nat, n: nat)
    requires
        i < n <= types.len(),
        state_after(types, layouts, n) is Ok,
    ensures
        state_after(types, layouts, i) is Ok,
        state_after(types, layouts, i + 1) is Ok,
        state_valid(state_after(types, layouts, i)->Ok_0),
        place(
            types[i as int],
            layout_of_type(types[i as int], layouts),
            state_after(types, layouts, i)->Ok_0,
        ) == Ok::<_, CompileError>(
            (location_of(types, layouts, i), state_after(types, layouts, i + 1)->Ok_0),
        ),
{
    lemma_state_grows(types, layouts, i, n);
    lemma_state_grows(types, layouts, i + 1, n);
}

/// No two arguments share a register.
pub proof fn law_args_share_no_register(
    types: Seq<Type>,
    layouts: StructLayouts,
    i: nat,
    j: nat,
    reg: PhysReg,
)
    requires
        state_after(types, layouts, types.len()) is Ok,
        i < j < types.len(),
    ensures
        !(uses_reg(location_of(types, layouts, i), reg) && uses_reg(
            location_of(types, layouts, j),
            reg,
        )),
{
    lemma_placed(types, layouts, i, types.len());
    lemma_placed(types, layouts, j, types.len());
    lemma_place(
        types[i as int],
        layout_of_type(types[i as int], layouts),
        state_after(types, layouts, i)->Ok_0,
    );
    lemma_place(
        types[j as int],
        layout_of_type(types[j as int], layouts),
        state_after(types, layouts, j)->Ok_0,
    );
    lemma_state_grows(types, layouts, i + 1, j);
    if uses_reg(location_of(types, layouts, i), reg) {
        assert(taken(state_after(types, layouts, i + 1)->Ok_0, reg));
        assert(taken(state_after(types, layouts, j)->Ok_0, reg));
        assert(taken(state_after(types, layouts, j + 1)->Ok_0, reg));
    }
}

/// The two halves of a struct are in different registers.
pub proof fn law_struct_halves_differ(types: Seq<Type>, layouts: StructLayouts, i: nat)
    requires
        state_after(types, layouts, types.len()) is Ok,
        i < types.len(),
    ensures
        match location_of(types, layouts, i) {
            ArgLocation::StructRegs(StructRegs::Two(a, b)) => a.reg != b.reg,
            _ => true,
        },
{
    lemma_placed(types, layouts, i, types.len());
    let st = state_after(types, layouts, i)->Ok_0;
    if let Some(l) = layout_of_type(types[i as int], layouts) {
        if let Eightbytes::Two(a, b) = l.sysv.eightbytes {
            if next_eightbyte(a, st) is Some {
                lemma_next_reg(a, st);
                let (_, mid) = next_eightbyte(a, st)->0;
                if next_eightbyte(b, mid) is Some {
                    lemma_next_reg(b, mid);
                }
            }
        }
    }
}

/// Arguments on the stack are aligned to words and do not overlap, and the
/// outgoing area holds them all.
pub proof fn law_stack_args_are_disjoint(types: Seq<Type>, layouts: StructLayouts, i: nat, j: nat)
    requires
        state_after(types, layouts, types.len()) is Ok,
        i < j < types.len(),
        location_of(types, layouts, i) is Stack,
        location_of(types, layouts, j) is Stack,
    ensures
        ({
            let a = location_of(types, layouts, i);
            let b = location_of(types, layouts, j);
            let (ta, tb) = (types[i as int], types[j as int]);
            &&& a->offset % 8 == 0
            &&& b->offset % 8 == 0
            &&& a->offset + stack_bytes(a, ta, layout_of_type(ta, layouts)) <= b->offset
            &&& b->offset + stack_bytes(b, tb, layout_of_type(tb, layouts)) <= round_up16(
                state_after(types, layouts, types.len())->Ok_0.stack as int,
            )
        }),
{
    lemma_placed(types, layouts, i, types.len());
    lemma_placed(types, layouts, j, types.len());
    lemma_place(
        types[i as int],
        layout_of_type(types[i as int], layouts),
        state_after(types, layouts, i)->Ok_0,
    );
    lemma_place(
        types[j as int],
        layout_of_type(types[j as int], layouts),
        state_after(types, layouts, j)->Ok_0,
    );
    lemma_state_grows(types, layouts, i, j);
    lemma_state_grows(types, layouts, i + 1, j);
    lemma_state_grows(types, layouts, i, i);
    lemma_state_grows(types, layouts, j + 1, types.len());
}

/// The outgoing area keeps the stack aligned at the call.
pub proof fn law_outgoing_area_is_aligned(abi: CallAbi, sig: CallSig, layouts: StructLayouts)
    requires
        classify_error(sig, layouts) is None,
        is_abi_of(abi, sig, layouts),
    ensures
        abi.stack_arg_bytes % 16 == 0,
{
}

/// The receiver is the first argument, in `rdi`.
pub proof fn law_receiver_comes_first(abi: CallAbi, sig: CallSig, layouts: StructLayouts)
    requires
        classify_error(sig, layouts) is None,
        is_abi_of(abi, sig, layouts),
        sig.has_this,
    ensures
        abi.args@.len() == sig.args@.len() + 1,
        abi.args@[0] == ArgLocation::Reg(Gpr::Rdi.phys()),
{
    let types = all_args(sig);
    assert(types[0] == Type::Ref);
    assert(state_after(types, layouts, 0) == Ok::<_, CompileError>(start_state()));
    assert(INT_ARG_REGS[0].phys() == Gpr::Rdi.phys());
}

/// An argument in registers is in argument registers.
pub proof fn law_args_are_in_argument_registers(
    types: Seq<Type>,
    layouts: StructLayouts,
    i: nat,
    reg: PhysReg,
)
    requires
        state_after(types, layouts, types.len()) is Ok,
        i < types.len(),
        uses_reg(location_of(types, layouts, i), reg),
    ensures
        (exists|k: int| 0 <= k < 6 && #[trigger] INT_ARG_REGS[k].phys() == reg) || (exists|k: int|
            0 <= k < 8 && #[trigger] FLOAT_ARG_REGS[k].phys() == reg),
{
    lemma_placed(types, layouts, i, types.len());
    lemma_place(
        types[i as int],
        layout_of_type(types[i as int], layouts),
        state_after(types, layouts, i)->Ok_0,
    );
    lemma_state_grows(types, layouts, i + 1, types.len());
    let after = state_after(types, layouts, i + 1)->Ok_0;
    assert(taken(after, reg));
    if exists|k: int| 0 <= k < after.ints && #[trigger] INT_ARG_REGS[k].phys() == reg {
        let k = choose|k: int| 0 <= k < after.ints && #[trigger] INT_ARG_REGS[k].phys() == reg;
        assert(0 <= k < 6 && INT_ARG_REGS[k].phys() == reg);
    } else {
        let k = choose|k: int| 0 <= k < after.floats && #[trigger] FLOAT_ARG_REGS[k].phys() == reg;
        assert(0 <= k < 8 && FLOAT_ARG_REGS[k].phys() == reg);
    }
}

/// The integer argument registers, in order.
pub open spec fn int_arg(k: int) -> Gpr {
    if k == 0 {
        Gpr::Rdi
    } else if k == 1 {
        Gpr::Rsi
    } else if k == 2 {
        Gpr::Rdx
    } else if k == 3 {
        Gpr::Rcx
    } else if k == 4 {
        Gpr::R8
    } else {
        Gpr::R9
    }
}

/// The float argument registers, in order.
pub open spec fn float_arg(k: int) -> Xmm {
    if k == 0 {
        Xmm::Xmm0
    } else if k == 1 {
        Xmm::Xmm1
    } else if k == 2 {
        Xmm::Xmm2
    } else if k == 3 {
        Xmm::Xmm3
    } else if k == 4 {
        Xmm::Xmm4
    } else if k == 5 {
        Xmm::Xmm5
    } else if k == 6 {
        Xmm::Xmm6
    } else {
        Xmm::Xmm7
    }
}

/// An argument before the `n`th takes the register.
pub open spec fn taken_before(
    types: Seq<Type>,
    layouts: StructLayouts,
    n: nat,
    reg: PhysReg,
) -> bool {
    exists|j: nat| j < n && uses_reg(#[trigger] location_of(types, layouts, j), reg)
}

/// The registers that are taken are those that arguments take.
proof fn lemma_taken_before(types: Seq<Type>, layouts: StructLayouts, n: nat, reg: PhysReg)
    requires
        n <= types.len(),
        state_after(types, layouts, types.len()) is Ok,
        taken(state_after(types, layouts, n)->Ok_0, reg),
    ensures
        taken_before(types, layouts, n, reg),
    decreases n,
{
    lemma_state_grows(types, layouts, n, types.len());
    if n > 0 {
        let m = (n - 1) as nat;
        lemma_placed(types, layouts, m, types.len());
        let st = state_after(types, layouts, m)->Ok_0;
        let ty = types[m as int];
        lemma_place(ty, layout_of_type(ty, layouts), st);
        if taken(st, reg) {
            lemma_taken_before(types, layouts, m, reg);
            let j = choose|j: nat| j < m && uses_reg(#[trigger] location_of(types, layouts, j), reg);
            assert(uses_reg(location_of(types, layouts, j), reg));
        } else {
            lemma_newly_taken(ty, layout_of_type(ty, layouts), st, reg);
            assert(uses_reg(location_of(types, layouts, m), reg));
        }
    }
}

proof fn lemma_newly_taken(ty: Type, layout: Option<StructLayout>, st: ArgState, reg: PhysReg)
    requires
        state_valid(st),
        place(ty, layout, st) is Ok,
        !taken(st, reg),
        ({
            let (_, after) = place(ty, layout, st)->Ok_0;
            taken(after, reg)
        }),
    ensures
        ({
            let (loc, _) = place(ty, layout, st)->Ok_0;
            uses_reg(loc, reg)
        }),
{
    let (loc, after) = place(ty, layout, st)->Ok_0;
    if exists|k: int| 0 <= k < after.ints && #[trigger] INT_ARG_REGS[k].phys() == reg {
        let k = choose|k: int| 0 <= k < after.ints && #[trigger] INT_ARG_REGS[k].phys() == reg;
        assert(k >= st.ints);
    } else {
        let k = choose|k: int| 0 <= k < after.floats && #[trigger] FLOAT_ARG_REGS[k].phys() == reg;
        assert(k >= st.floats);
    }
}

/// Arguments take the registers in order: what is counted as taken is taken by an earlier
/// argument, and nothing else is.
pub proof fn law_registers_are_taken_in_order(
    types: Seq<Type>,
    layouts: StructLayouts,
    n: nat,
    k: int,
)
    requires
        n <= types.len(),
        state_after(types, layouts, types.len()) is Ok,
    ensures
        ({
            let st = state_after(types, layouts, n)->Ok_0;
            &&& 0 <= k < 6 ==> (taken_before(types, layouts, n, int_arg(k).phys()) <==> k < st.ints)
            &&& 0 <= k < 8 ==> (taken_before(types, layouts, n, float_arg(k).phys()) <==> k
                < st.floats)
        }),
{
    lemma_state_grows(types, layouts, n, types.len());
    lemma_arg_regs_differ();
    let st = state_after(types, layouts, n)->Ok_0;
    if 0 <= k < 6 {
        let reg = int_arg(k).phys();
        assert(INT_ARG_REGS[k].phys() == reg);
        if k < st.ints {
            assert(taken(st, reg));
            lemma_taken_before(types, layouts, n, reg);
        } else {
            assert(!taken(st, reg));
            lemma_not_taken_before(types, layouts, n, reg);
        }
    }
    if 0 <= k < 8 {
        let reg = float_arg(k).phys();
        assert(FLOAT_ARG_REGS[k].phys() == reg);
        if k < st.floats {
            assert(taken(st, reg));
            lemma_taken_before(types, layouts, n, reg);
        } else {
            assert(!taken(st, reg));
            lemma_not_taken_before(types, layouts, n, reg);
        }
    }
}

proof fn lemma_not_taken_before(types: Seq<Type>, layouts: StructLayouts, n: nat, reg: PhysReg)
    requires
        n <= types.len(),
        state_after(types, layouts, types.len()) is Ok,
        !taken(state_after(types, layouts, n)->Ok_0, reg),
    ensures
        !taken_before(types, layouts, n, reg),
{
    if taken_before(types, layouts, n, reg) {
        let j = choose|j: nat| j < n && uses_reg(#[trigger] location_of(types, layouts, j), reg);
        lemma_placed(types, layouts, j, types.len());
        let ty = types[j as int];
        lemma_place(ty, layout_of_type(ty, layouts), state_after(types, layouts, j)->Ok_0);
        lemma_state_grows(types, layouts, n, types.len());
        lemma_state_grows(types, layouts, j + 1, n);
        assert(taken(state_after(types, layouts, j + 1)->Ok_0, reg));
        assert(taken(state_after(types, layouts, n)->Ok_0, reg));
    }
}

/// The argument takes the first register of its kind that no earlier one takes, and goes
/// to the stack where there is none. Integers and pointers take integer registers,
/// floats take float registers.
pub proof fn law_scalars_take_the_next_register(
    types: Seq<Type>,
    layouts: StructLayouts,
    i: nat,
    k: int,
)
    requires
        state_after(types, layouts, types.len()) is Ok,
        i < types.len(),
    ensures
        ({
            let loc = location_of(types, layouts, i);
            &&& whole(types[i as int]) is Some ==> {
                &&& loc is Reg || loc is Stack
                &&& 0 <= k < 6 && loc == ArgLocation::Reg(int_arg(k).phys()) ==> {
                    &&& !taken_before(types, layouts, i, int_arg(k).phys())
                    &&& k > 0 ==> taken_before(types, layouts, i, int_arg(k - 1).phys())
                }
                &&& loc is Reg ==> exists|n: int|
                    0 <= n < 6 && loc == ArgLocation::Reg((#[trigger] int_arg(n)).phys())
                &&& 0 <= k < 6 && loc is Stack ==> taken_before(types, layouts, i, int_arg(k).phys())
            }
            &&& fractional(types[i as int]) is Some ==> {
                &&& loc is Reg || loc is Stack
                &&& 0 <= k < 8 && loc == ArgLocation::Reg(float_arg(k).phys()) ==> {
                    &&& !taken_before(types, layouts, i, float_arg(k).phys())
                    &&& k > 0 ==> taken_before(types, layouts, i, float_arg(k - 1).phys())
                }
                &&& loc is Reg ==> exists|n: int|
                    0 <= n < 8 && loc == ArgLocation::Reg((#[trigger] float_arg(n)).phys())
                &&& 0 <= k < 8 && loc is Stack ==> taken_before(
                    types,
                    layouts,
                    i,
                    float_arg(k).phys(),
                )
            }
        }),
{
    lemma_placed(types, layouts, i, types.len());
    law_registers_are_taken_in_order(types, layouts, i, k);
    law_registers_are_taken_in_order(types, layouts, i, k - 1);
    lemma_arg_regs_differ();
    let st = state_after(types, layouts, i)->Ok_0;
    assert(forall|n: int| 0 <= n < 6 ==> INT_ARG_REGS[n] == #[trigger] int_arg(n));
    assert(forall|n: int| 0 <= n < 8 ==> FLOAT_ARG_REGS[n] == #[trigger] float_arg(n));
    let a = int_arg(st.ints as int);
    let b = float_arg(st.floats as int);
    if 0 <= k < 6 {
        assert(INT_ARG_REGS[k].phys() == int_arg(k).phys());
    }
    if 0 <= k < 8 {
        assert(FLOAT_ARG_REGS[k].phys() == float_arg(k).phys());
    }
}

/// The integer and the float eightbytes of a struct.
pub open spec fn eightbytes_of(ebs: Eightbytes, sse: bool) -> int {
    match ebs {
        Eightbytes::Zero => 0,
        Eightbytes::One(a) => if a.class is Sse == sse {
            1
        } else {
            0
        },
        Eightbytes::Two(a, b) => (if a.class is Sse == sse {
            1int
        } else {
            0
        }) + (if b.class is Sse == sse {
            1int
        } else {
            0
        }),
    }
}

/// The register is of the kind of the eightbyte, which keeps its size and place.
pub open spec fn register_fits(eb: Eightbyte, r: EightbyteReg) -> bool {
    &&& r.size == eb.size
    &&& r.offset == eb.offset
    &&& if eb.class is Sse {
        exists|k: int| 0 <= k < 8 && r.reg == (#[trigger] float_arg(k)).phys()
    } else {
        exists|k: int| 0 <= k < 6 && r.reg == (#[trigger] int_arg(k)).phys()
    }
}

/// A struct takes one register for each of its eightbytes, of the eightbyte's kind,
/// where its class allows it and there are enough of both kinds; else all of it goes to
/// the stack.
pub proof fn law_structs_are_passed_whole(types: Seq<Type>, layouts: StructLayouts, i: nat)
    requires
        state_after(types, layouts, types.len()) is Ok,
        i < types.len(),
        types[i as int] is Struct,
    ensures
        ({
            let layout = layout_of_type(types[i as int], layouts);
            let st = state_after(types, layouts, i)->Ok_0;
            let ebs = layout->0.sysv.eightbytes;
            &&& layout is Some
            &&& if layout->0.sysv.passed_in_registers && st.ints + eightbytes_of(ebs, false) <= 6
                && st.floats + eightbytes_of(ebs, true) <= 8 {
                match (ebs, location_of(types, layouts, i)) {
                    (Eightbytes::Zero, ArgLocation::StructRegs(StructRegs::Zero)) => true,
                    (
                        Eightbytes::One(a),
                        ArgLocation::StructRegs(StructRegs::One(r)),
                    ) => register_fits(a, r),
                    (
                        Eightbytes::Two(a, b),
                        ArgLocation::StructRegs(StructRegs::Two(r, s)),
                    ) => register_fits(a, r) && register_fits(b, s),
                    _ => false,
                }
            } else {
                location_of(types, layouts, i) is Stack
            }
        }),
{
    lemma_placed(types, layouts, i, types.len());
    let st = state_after(types, layouts, i)->Ok_0;
    assert(forall|n: int| 0 <= n < 6 ==> INT_ARG_REGS[n] == #[trigger] int_arg(n));
    assert(forall|n: int| 0 <= n < 8 ==> FLOAT_ARG_REGS[n] == #[trigger] float_arg(n));
    let (a, b) = (int_arg(st.ints as int), int_arg(st.ints + 1));
    let (x, y) = (float_arg(st.floats as int), float_arg(st.floats + 1));
}

/// An argument on the stack is inside of the outgoing area, and no argument is in `r11`.
pub proof fn law_arguments_are_inside(types: Seq<Type>, layouts: StructLayouts, i: nat)
    requires
        state_after(types, layouts, types.len()) is Ok,
        i < types.len(),
    ensures
        ({
            let loc = location_of(types, layouts, i);
            let ty = types[i as int];
            &&& loc is Stack ==> loc->offset + stack_bytes(loc, ty, layout_of_type(ty, layouts))
                <= state_after(types, layouts, types.len())->Ok_0.stack
            &&& loc is StructRegs ==> ty is Struct
            &&& !uses_reg(loc, Gpr::R11.phys())
        }),
{
    lemma_placed(types, layouts, i, types.len());
    let ty = types[i as int];
    lemma_place(ty, layout_of_type(ty, layouts), state_after(types, layouts, i)->Ok_0);
    lemma_state_grows(types, layouts, i + 1, types.len());
    if uses_reg(location_of(types, layouts, i), Gpr::R11.phys()) {
        law_args_are_in_argument_registers(types, layouts, i, Gpr::R11.phys());
    }
}

/// The bytes that the first `n` arguments take of the outgoing area.
pub open spec fn stack_sum(types: Seq<Type>, layouts: StructLayouts, n: nat) -> int
    decreases n,
{
    if n == 0 {
        0
    } else {
        let ty = types[n - 1];
        stack_sum(types, layouts, (n - 1) as nat) + stack_bytes(
            location_of(types, layouts, (n - 1) as nat),
            ty,
            layout_of_type(ty, layouts),
        )
    }
}

proof fn lemma_stack_sum(types: Seq<Type>, layouts: StructLayouts, n: nat)
    requires
        n <= types.len(),
        state_after(types, layouts, types.len()) is Ok,
    ensures
        state_after(types, layouts, n) is Ok,
        state_after(types, layouts, n)->Ok_0.stack == stack_sum(types, layouts, n),
    decreases n,
{
    lemma_state_grows(types, layouts, n, types.len());
    if n > 0 {
        let m = (n - 1) as nat;
        lemma_stack_sum(types, layouts, m);
        lemma_placed(types, layouts, m, types.len());
        let ty = types[m as int];
        lemma_place(ty, layout_of_type(ty, layouts), state_after(types, layouts, m)->Ok_0);
    }
}

/// An argument on the stack stands right behind those before it, and the outgoing area
/// is what all of them take, rounded up to 16 bytes.
pub proof fn law_stack_args_are_packed(
    abi: CallAbi,
    sig: CallSig,
    layouts: StructLayouts,
    i: nat,
)
    requires
        classify_error(sig, layouts) is None,
        is_abi_of(abi, sig, layouts),
        i < all_args(sig).len(),
    ensures
        abi.args@[i as int] is Stack ==> abi.args@[i as int]->offset == stack_sum(
            all_args(sig),
            layouts,
            i,
        ),
        ({
            let sum = stack_sum(all_args(sig), layouts, all_args(sig).len());
            sum <= abi.stack_arg_bytes < sum + 16
        }),
{
    let types = all_args(sig);
    lemma_stack_sum(types, layouts, i);
    lemma_stack_sum(types, layouts, types.len());
    lemma_placed(types, layouts, i, types.len());
    let ty = types[i as int];
    lemma_place(ty, layout_of_type(ty, layouts), state_after(types, layouts, i)->Ok_0);
}

/// The receiver is the first of the arguments, and the others follow in their order.
pub proof fn law_arguments_keep_their_order(sig: CallSig, i: int)
    requires
        0 <= i < sig.args@.len(),
    ensures
        sig.has_this ==> all_args(sig).len() == sig.args@.len() + 1 && all_args(sig)[0]
            == Type::Ref && all_args(sig)[i + 1] == sig.args@[i],
        !sig.has_this ==> all_args(sig) == sig.args@,
{
}

/// The return register of an eightbyte: `rax` or `xmm0` for the first of its kind, `rdx` or
/// `xmm1` for the second. It keeps its size and place.
pub open spec fn returned_in(eb: Eightbyte, r: EightbyteReg, second: bool) -> bool {
    &&& r.size == eb.size
    &&& r.offset == eb.offset
    &&& r.reg == match (eb.class is Sse, second) {
        (false, false) => Gpr::Rax.phys(),
        (false, true) => Gpr::Rdx.phys(),
        (true, false) => Xmm::Xmm0.phys(),
        (true, true) => Xmm::Xmm1.phys(),
    }
}

/// An integer or a pointer comes back in `rax`, a float in `xmm0`, nothing of a method that
/// returns nothing, and a struct in the first registers of the kinds of its
/// eightbytes.
pub proof fn law_results_come_back(abi: CallAbi, sig: CallSig, layouts: StructLayouts)
    requires
        classify_error(sig, layouts) is None,
        is_abi_of(abi, sig, layouts),
    ensures
        whole(sig.ret) is Some ==> abi.ret == Some(ArgLocation::Reg(Gpr::Rax.phys())),
        fractional(sig.ret) is Some ==> abi.ret == Some(ArgLocation::Reg(Xmm::Xmm0.phys())),
        sig.ret is Void ==> abi.ret is None,
        sig.ret is Struct ==> ({
            let layout = layout_of_type(sig.ret, layouts);
            &&& layout is Some
            &&& layout->0.sysv.passed_in_registers
            &&& abi.ret is Some
            &&& struct_comes_back(layout->0.sysv.eightbytes, abi.ret->0)
        }),
{
}

/// The struct is in its return registers.
pub open spec fn struct_comes_back(ebs: Eightbytes, loc: ArgLocation) -> bool {
    match (ebs, loc) {
        (Eightbytes::Zero, ArgLocation::StructRegs(StructRegs::Zero)) => true,
        (Eightbytes::One(a), ArgLocation::StructRegs(StructRegs::One(r))) => returned_in(
            a,
            r,
            false,
        ),
        (Eightbytes::Two(a, b), ArgLocation::StructRegs(StructRegs::Two(r, s))) => returned_in(
            a,
            r,
            false,
        ) && returned_in(b, s, a.class is Sse == b.class is Sse),
        _ => false,
    }
}

/// A struct that a method returns is where its callers look for it.
pub proof fn law_returned_structs_come_back(ebs: Eightbytes)
    ensures
        struct_comes_back(ebs, ArgLocation::StructRegs(struct_return(ebs))),
{
}

} // verus!
