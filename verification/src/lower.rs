//! The lowering rules: statements to instruction descriptors.
//!
//! Each rule is a function of its own: it gives the instructions for the
//! statements it covers and nothing for the others. [`lower_stmt`] takes the
//! first rule that covers a statement.

use crate::abi::{
    all_args, classify_call, classify_error, is_abi_of, layout_of_type, location_of,
    return_location, struct_return,
};
use crate::error::{CompileError, CompileResult};
use crate::inst::{
    Amode, ArithFOp, ArithOp, BlockAddr, CondCode, EbReg, FWidth, Inst, Place, ShiftOp, Src, Width,
    XmmPlace, XmmSrc,
};
use crate::ir::{
    BinaryOp, Block, BlockId, BranchCond, CallSig, CallTarget, ClassHandle, Const, CorInfoHelpFunc,
    Label, Local, LocalId, MemAccess, Method, Operand, Stmt, StmtKind, StructLayout, StructLayouts,
    Type, UnaryOp, Val,
};
use crate::regs::{Gpr, Xmm, FLOAT_RETURN_REG, FRAME_POINTER, STACK_POINTER};
use crate::target::{ArgLocation, CallAbi, EightbyteReg, PhysReg, StructRegs};
use vstd::prelude::*;

verus! {

/// A lowered method: the prolog, and the instructions of each block.
#[derive(Debug)]
pub struct LoweredMethod {
    pub prolog: Vec<Inst>,
    pub blocks: Vec<LoweredBlock>,
}

#[derive(Debug)]
pub struct LoweredBlock {
    pub id: BlockId,
    pub insts: Vec<Inst>,
}

/// What the rules know of the method: its locals and its struct layouts.
#[derive(Clone, Copy)]
pub struct Cx<'a> {
    pub locals: &'a Vec<Local>,
    pub layouts: &'a StructLayouts,
}

impl<'a> Cx<'a> {
    pub fn new(locals: &'a Vec<Local>, layouts: &'a StructLayouts) -> (cx: Cx<'a>)
        ensures
            cx == (Cx { locals, layouts }),
    {
        Cx { locals, layouts }
    }

    pub open spec fn ty_of_spec(&self, id: LocalId) -> Option<Type> {
        if id.0 < self.locals@.len() {
            Some(self.locals@[id.0 as int].ty)
        } else {
            None
        }
    }

    /// The type of a local, if it exists.
    #[verifier::when_used_as_spec(ty_of_spec)]
    pub fn ty_of(&self, id: LocalId) -> (ty: Option<Type>)
        ensures
            ty == self.ty_of_spec(id),
    {
        let i: usize = id.0 as usize;
        if i < self.locals.len() {
            Some(self.locals[i].ty)
        } else {
            None
        }
    }

    pub open spec fn layout_of_spec(&self, class: ClassHandle) -> Option<StructLayout> {
        self.layouts.layout_of(class)
    }

    /// The layout of a class, if it is known.
    #[verifier::when_used_as_spec(layout_of_spec)]
    pub fn layout_of(&self, class: ClassHandle) -> (l: Option<StructLayout>)
        ensures
            l == self.layout_of_spec(class),
    {
        self.layouts.get(class)
    }
}

pub open spec fn width_of_ty_spec(ty: Type) -> Option<Width> {
    match ty {
        Type::Int32 => Some(Width::W32),
        Type::Int64 | Type::NativeInt | Type::Ref | Type::ByRef => Some(Width::W64),
        Type::Float | Type::Double | Type::Struct(_) | Type::Void => None,
    }
}

/// The width of a type that lives in general-purpose registers.
#[verifier::when_used_as_spec(width_of_ty_spec)]
pub fn width_of_ty(ty: Type) -> (r: Option<Width>)
    ensures
        r == width_of_ty_spec(ty),
{
    match ty {
        Type::Int32 => Some(Width::W32),
        Type::Int64 | Type::NativeInt | Type::Ref | Type::ByRef => Some(Width::W64),
        Type::Float | Type::Double | Type::Struct(_) | Type::Void => None,
    }
}

pub open spec fn width_of_spec(cx: &Cx, id: LocalId) -> Option<Width> {
    match cx.ty_of(id) {
        Some(ty) => width_of_ty(ty),
        None => None,
    }
}

/// The width of a local.
#[verifier::when_used_as_spec(width_of_spec)]
pub fn width_of(cx: &Cx, id: LocalId) -> (r: Option<Width>)
    ensures
        r == width_of_spec(cx, id),
{
    match cx.ty_of(id) {
        Some(ty) => width_of_ty(ty),
        None => None,
    }
}

pub open spec fn const_imm_spec(k: Const) -> Option<(i64, Width)> {
    match k {
        Const::Int32(v) => Some((v as i64, Width::W32)),
        Const::Int64(v) => Some((v, Width::W64)),
        Const::NativeInt(v) => Some((v, Width::W64)),
        Const::NullRef => Some((0i64, Width::W64)),
        Const::FrozenRef(v) => Some((v as i64, Width::W64)),
        Const::Float(_) | Const::Double(_) => None,
    }
}

/// An integer constant as an immediate, and its width.
#[verifier::when_used_as_spec(const_imm_spec)]
pub fn const_imm(k: Const) -> (r: Option<(i64, Width)>)
    ensures
        r == const_imm_spec(k),
{
    match k {
        Const::Int32(v) => Some((v as i64, Width::W32)),
        Const::Int64(v) => Some((v, Width::W64)),
        Const::NativeInt(v) => Some((v, Width::W64)),
        Const::NullRef => Some((0i64, Width::W64)),
        Const::FrozenRef(v) => Some(
            (
                #[verifier::truncate]
                (v as i64),
                Width::W64,
            ),
        ),
        Const::Float(_) | Const::Double(_) => None,
    }
}

pub open spec fn operand_src_spec(op: Operand) -> Option<Src> {
    match op {
        Operand::Temp(id) | Operand::Local(id) => Some(Src::Val(Val(id))),
        Operand::Const(k) => match const_imm(k) {
            Some((imm, _)) => Some(Src::Imm(imm)),
            None => None,
        },
        Operand::AddrOf(_) => None,
    }
}

/// An operand as a source. An address is none: it takes a `lea`.
#[verifier::when_used_as_spec(operand_src_spec)]
pub fn operand_src(op: Operand) -> (r: Option<Src>)
    ensures
        r == operand_src_spec(op),
{
    match op {
        Operand::Temp(id) | Operand::Local(id) => Some(Src::Val(Val(id))),
        Operand::Const(k) => match const_imm(k) {
            Some((imm, _)) => Some(Src::Imm(imm)),
            None => None,
        },
        Operand::AddrOf(_) => None,
    }
}

pub open spec fn value_src_spec(op: Operand) -> Option<Src> {
    match op {
        Operand::Temp(id) | Operand::Local(id) => Some(Src::Val(Val(id))),
        Operand::Const(_) | Operand::AddrOf(_) => None,
    }
}

/// A local or temporary as a source.
#[verifier::when_used_as_spec(value_src_spec)]
pub fn value_src(op: Operand) -> (r: Option<Src>)
    ensures
        r == value_src_spec(op),
{
    match op {
        Operand::Temp(id) | Operand::Local(id) => Some(Src::Val(Val(id))),
        Operand::Const(_) | Operand::AddrOf(_) => None,
    }
}

pub open spec fn operand_width_spec(cx: &Cx, op: Operand) -> Option<Width> {
    match op {
        Operand::Temp(id) | Operand::Local(id) => width_of(cx, id),
        Operand::Const(k) => match const_imm(k) {
            Some((_, w)) => Some(w),
            None => None,
        },
        Operand::AddrOf(_) => Some(Width::W64),
    }
}

/// The width of an operand.
#[verifier::when_used_as_spec(operand_width_spec)]
pub fn operand_width(cx: &Cx, op: Operand) -> (r: Option<Width>)
    ensures
        r == operand_width_spec(cx, op),
{
    match op {
        Operand::Temp(id) | Operand::Local(id) => width_of(cx, id),
        Operand::Const(k) => match const_imm(k) {
            Some((_, w)) => Some(w),
            None => None,
        },
        Operand::AddrOf(_) => Some(Width::W64),
    }
}

pub open spec fn fwidth_of_spec(cx: &Cx, id: LocalId) -> Option<FWidth> {
    match cx.ty_of(id) {
        Some(ty) => FWidth::of(ty),
        None => None,
    }
}

/// The float width of a local.
#[verifier::when_used_as_spec(fwidth_of_spec)]
pub fn fwidth_of(cx: &Cx, id: LocalId) -> (r: Option<FWidth>)
    ensures
        r == fwidth_of_spec(cx, id),
{
    match cx.ty_of(id) {
        Some(ty) => FWidth::of(ty),
        None => None,
    }
}

pub open spec fn const_float_spec(k: Const) -> Option<(u64, FWidth)> {
    match k {
        Const::Float(v) => Some((v as u64, FWidth::S)),
        Const::Double(v) => Some((v, FWidth::D)),
        _ => None,
    }
}

/// A float constant as its bit pattern, and its width.
#[verifier::when_used_as_spec(const_float_spec)]
pub fn const_float(k: Const) -> (r: Option<(u64, FWidth)>)
    ensures
        r == const_float_spec(k),
{
    match k {
        Const::Float(v) => Some((v as u64, FWidth::S)),
        Const::Double(v) => Some((v, FWidth::D)),
        _ => None,
    }
}

pub open spec fn xmm_opnd_spec(cx: &Cx, op: Operand) -> Option<XmmSrc> {
    match op {
        Operand::Temp(id) | Operand::Local(id) => match fwidth_of(cx, id) {
            Some(_) => Some(XmmSrc::Val(Val(id))),
            None => None,
        },
        Operand::Const(k) => match const_float(k) {
            Some((bits, _)) => Some(XmmSrc::Bits(bits)),
            None => None,
        },
        Operand::AddrOf(_) => None,
    }
}

/// An operand as a float source.
#[verifier::when_used_as_spec(xmm_opnd_spec)]
pub fn xmm_opnd(cx: &Cx, op: Operand) -> (r: Option<XmmSrc>)
    ensures
        r == xmm_opnd_spec(cx, op),
{
    match op {
        Operand::Temp(id) | Operand::Local(id) => match fwidth_of(cx, id) {
            Some(_) => Some(XmmSrc::Val(Val(id))),
            None => None,
        },
        Operand::Const(k) => match const_float(k) {
            Some((bits, _)) => Some(XmmSrc::Bits(bits)),
            None => None,
        },
        Operand::AddrOf(_) => None,
    }
}

pub open spec fn operand_fwidth_spec(cx: &Cx, op: Operand) -> Option<FWidth> {
    match op {
        Operand::Temp(id) | Operand::Local(id) => fwidth_of(cx, id),
        Operand::Const(k) => match const_float(k) {
            Some((_, w)) => Some(w),
            None => None,
        },
        Operand::AddrOf(_) => None,
    }
}

/// The float width of an operand.
#[verifier::when_used_as_spec(operand_fwidth_spec)]
pub fn operand_fwidth(cx: &Cx, op: Operand) -> (r: Option<FWidth>)
    ensures
        r == operand_fwidth_spec(cx, op),
{
    match op {
        Operand::Temp(id) | Operand::Local(id) => fwidth_of(cx, id),
        Operand::Const(k) => match const_float(k) {
            Some((_, w)) => Some(w),
            None => None,
        },
        Operand::AddrOf(_) => None,
    }
}

pub open spec fn block_addr_spec(op: Operand) -> Option<BlockAddr> {
    match op {
        Operand::AddrOf(l) => Some(BlockAddr::FrameSlot(l)),
        Operand::Temp(id) | Operand::Local(id) => Some(BlockAddr::Val(Val(id))),
        Operand::Const(_) => None,
    }
}

/// An operand as the address of a block of memory.
#[verifier::when_used_as_spec(block_addr_spec)]
pub fn block_addr(op: Operand) -> (r: Option<BlockAddr>)
    ensures
        r == block_addr_spec(op),
{
    match op {
        Operand::AddrOf(l) => Some(BlockAddr::FrameSlot(l)),
        Operand::Temp(id) | Operand::Local(id) => Some(BlockAddr::Val(Val(id))),
        Operand::Const(_) => None,
    }
}

pub open spec fn eb_reg_spec(phys: PhysReg) -> Option<EbReg> {
    match Gpr::from_phys(phys) {
        Some(g) => Some(EbReg::Gpr(g)),
        None => match Xmm::from_phys(phys) {
            Some(x) => Some(EbReg::Xmm(x)),
            None => None,
        },
    }
}

/// The register of an eightbyte.
#[verifier::when_used_as_spec(eb_reg_spec)]
pub fn eb_reg(phys: PhysReg) -> (r: Option<EbReg>)
    ensures
        r == eb_reg_spec(phys),
{
    match Gpr::from_phys(phys) {
        Some(g) => Some(EbReg::Gpr(g)),
        None => match Xmm::from_phys(phys) {
            Some(x) => Some(EbReg::Xmm(x)),
            None => None,
        },
    }
}

/// `r` holds the instructions `s`, or there are none.
pub open spec fn gives(r: Option<Vec<Inst>>, s: Option<Seq<Inst>>) -> bool {
    match r {
        Some(v) => s is Some && s->0 =~= v@,
        None => s is None,
    }
}

#[verifier::opaque]
pub open spec fn arg_move_rule(cx: &Cx, arg: Operand, loc: ArgLocation) -> Option<Seq<Inst>> {
    match loc {
        ArgLocation::Reg(phys) => match Gpr::from_phys(phys) {
            Some(g) => match arg {
                Operand::AddrOf(l) => Some(
                    seq![Inst::Lea { dst: Place::Reg(g), addr: Amode::FrameSlot(l) }],
                ),
                _ => match (operand_width(cx, arg), operand_src(arg)) {
                    (Some(width), Some(src)) => Some(
                        seq![Inst::Mov { width, dst: Place::Reg(g), src }],
                    ),
                    _ => None,
                },
            },
            None => match (Xmm::from_phys(phys), arg) {
                (Some(x), Operand::Const(k)) => match const_float(k) {
                    Some((bits, width)) => Some(
                        seq![Inst::ConstF { width, dst: XmmPlace::Reg(x), bits }],
                    ),
                    None => None,
                },
                (Some(x), _) => match (operand_fwidth(cx, arg), xmm_opnd(cx, arg)) {
                    (Some(width), Some(src)) => Some(
                        seq![Inst::MovF { width, dst: XmmPlace::Reg(x), src }],
                    ),
                    _ => None,
                },
                _ => None,
            },
        },
        ArgLocation::Stack { offset } => match (operand_width(cx, arg), arg) {
            (Some(width), Operand::AddrOf(l)) => Some(
                seq![
                    Inst::Lea { dst: Place::Reg(Gpr::R11), addr: Amode::FrameSlot(l) },
                    Inst::StoreStackArg { width, offset, src: Src::Reg(Gpr::R11) },
                ],
            ),
            (Some(width), _) => match operand_src(arg) {
                Some(src) => Some(seq![Inst::StoreStackArg { width, offset, src }]),
                None => None,
            },
            (None, _) => match (operand_fwidth(cx, arg), xmm_opnd(cx, arg)) {
                (Some(width), Some(src)) => Some(
                    seq![Inst::StoreStackArgF { width, offset, src }],
                ),
                _ => None,
            },
        },
        ArgLocation::StructRegs(regs) => match block_addr(arg) {
            Some(addr) => match regs {
                StructRegs::Zero => Some(seq![]),
                StructRegs::One(a) => match load_eightbyte(addr, a) {
                    Some(first) => Some(seq![first]),
                    None => None,
                },
                StructRegs::Two(a, b) => match (
                    load_eightbyte(addr, a),
                    load_eightbyte(addr, b),
                ) {
                    (Some(first), Some(second)) => Some(seq![first, second]),
                    _ => None,
                },
            },
            None => None,
        },
    }
}

/// The instructions that put one argument where the call wants it.
fn arg_move(cx: &Cx, arg: Operand, loc: ArgLocation) -> (r: Option<Vec<Inst>>)
    ensures
        gives(r, arg_move_rule(cx, arg, loc)),
{
    proof {
        reveal(arg_move_rule);
    }
    match loc {
        ArgLocation::Reg(phys) => match Gpr::from_phys(phys) {
            Some(g) => match arg {
                Operand::AddrOf(l) => Some(
                    vec![Inst::Lea { dst: Place::Reg(g), addr: Amode::FrameSlot(l) }],
                ),
                _ => match (operand_width(cx, arg), operand_src(arg)) {
                    (Some(width), Some(src)) => Some(
                        vec![Inst::Mov { width, dst: Place::Reg(g), src }],
                    ),
                    _ => None,
                },
            },
            None => match (Xmm::from_phys(phys), arg) {
                (Some(x), Operand::Const(k)) => match const_float(k) {
                    Some((bits, width)) => Some(
                        vec![Inst::ConstF { width, dst: XmmPlace::Reg(x), bits }],
                    ),
                    None => None,
                },
                (Some(x), _) => match (operand_fwidth(cx, arg), xmm_opnd(cx, arg)) {
                    (Some(width), Some(src)) => Some(
                        vec![Inst::MovF { width, dst: XmmPlace::Reg(x), src }],
                    ),
                    _ => None,
                },
                _ => None,
            },
        },
        ArgLocation::Stack { offset } => match (operand_width(cx, arg), arg) {
            (Some(width), Operand::AddrOf(l)) => Some(
                vec![
                    Inst::Lea { dst: Place::Reg(Gpr::R11), addr: Amode::FrameSlot(l) },
                    Inst::StoreStackArg { width, offset, src: Src::Reg(Gpr::R11) },
                ],
            ),
            (Some(width), _) => match operand_src(arg) {
                Some(src) => Some(vec![Inst::StoreStackArg { width, offset, src }]),
                None => None,
            },
            (None, _) => match (operand_fwidth(cx, arg), xmm_opnd(cx, arg)) {
                (Some(width), Some(src)) => Some(
                    vec![Inst::StoreStackArgF { width, offset, src }],
                ),
                _ => None,
            },
        },
        ArgLocation::StructRegs(regs) => match block_addr(arg) {
            Some(addr) => match regs {
                StructRegs::Zero => Some(vec![]),
                StructRegs::One(a) => match load_eightbyte(addr, a) {
                    Some(first) => Some(vec![first]),
                    None => None,
                },
                StructRegs::Two(a, b) => match (
                    load_eightbyte(addr, a),
                    load_eightbyte(addr, b),
                ) {
                    (Some(first), Some(second)) => Some(vec![first, second]),
                    _ => None,
                },
            },
            None => None,
        },
    }
}

pub open spec fn load_eightbyte_spec(addr: BlockAddr, eb: EightbyteReg) -> Option<Inst> {
    match eb_reg(eb.reg) {
        Some(dst) => Some(
            Inst::LoadEightbyte { addr, disp: eb.offset as u32, size: eb.size, dst },
        ),
        None => None,
    }
}

/// An eightbyte from memory to its register.
#[verifier::when_used_as_spec(load_eightbyte_spec)]
pub fn load_eightbyte(addr: BlockAddr, eb: EightbyteReg) -> (r: Option<Inst>)
    ensures
        r == load_eightbyte_spec(addr, eb),
{
    match eb_reg(eb.reg) {
        Some(dst) => Some(
            Inst::LoadEightbyte { addr, disp: eb.offset as u32, size: eb.size, dst },
        ),
        None => None,
    }
}

pub open spec fn store_eightbyte_spec(local: LocalId, eb: EightbyteReg) -> Option<Inst> {
    match eb_reg(eb.reg) {
        Some(src) => Some(
            Inst::StoreEightbyte { local, offset: eb.offset as u32, size: eb.size, src },
        ),
        None => None,
    }
}

/// An eightbyte from its register to a frame slot.
#[verifier::when_used_as_spec(store_eightbyte_spec)]
pub fn store_eightbyte(local: LocalId, eb: EightbyteReg) -> (r: Option<Inst>)
    ensures
        r == store_eightbyte_spec(local, eb),
{
    match eb_reg(eb.reg) {
        Some(src) => Some(
            Inst::StoreEightbyte { local, offset: eb.offset as u32, size: eb.size, src },
        ),
        None => None,
    }
}

#[verifier::opaque]
pub open spec fn result_move_rule(
    cx: &Cx,
    ret: Option<ArgLocation>,
    dst: LocalId,
) -> Option<Seq<Inst>> {
    match ret {
        Some(ArgLocation::Reg(phys)) => match Gpr::from_phys(phys) {
            Some(g) => match width_of(cx, dst) {
                Some(width) => Some(
                    seq![Inst::Mov { width, dst: Place::Val(Val(dst)), src: Src::Reg(g) }],
                ),
                None => None,
            },
            None => match (Xmm::from_phys(phys), fwidth_of(cx, dst)) {
                (Some(x), Some(width)) => Some(
                    seq![Inst::MovF { width, dst: XmmPlace::Val(Val(dst)), src: XmmSrc::Reg(x) }],
                ),
                _ => None,
            },
        },
        Some(ArgLocation::StructRegs(regs)) => match regs {
            StructRegs::Zero => Some(seq![]),
            StructRegs::One(a) => match store_eightbyte(dst, a) {
                Some(first) => Some(seq![first]),
                None => None,
            },
            StructRegs::Two(a, b) => match (store_eightbyte(dst, a), store_eightbyte(dst, b)) {
                (Some(first), Some(second)) => Some(seq![first, second]),
                _ => None,
            },
        },
        _ => None,
    }
}

/// The instructions that store a result that came back at `ret`.
fn result_move(cx: &Cx, ret: Option<ArgLocation>, dst: LocalId) -> (r: Option<Vec<Inst>>)
    ensures
        gives(r, result_move_rule(cx, ret, dst)),
{
    proof {
        reveal(result_move_rule);
    }
    match ret {
        Some(ArgLocation::Reg(phys)) => match Gpr::from_phys(phys) {
            Some(g) => match width_of(cx, dst) {
                Some(width) => Some(
                    vec![Inst::Mov { width, dst: Place::Val(Val(dst)), src: Src::Reg(g) }],
                ),
                None => None,
            },
            None => match (Xmm::from_phys(phys), fwidth_of(cx, dst)) {
                (Some(x), Some(width)) => Some(
                    vec![Inst::MovF { width, dst: XmmPlace::Val(Val(dst)), src: XmmSrc::Reg(x) }],
                ),
                _ => None,
            },
        },
        Some(ArgLocation::StructRegs(regs)) => match regs {
            StructRegs::Zero => Some(vec![]),
            StructRegs::One(a) => match store_eightbyte(dst, a) {
                Some(first) => Some(vec![first]),
                None => None,
            },
            StructRegs::Two(a, b) => match (store_eightbyte(dst, a), store_eightbyte(dst, b)) {
                (Some(first), Some(second)) => Some(vec![first, second]),
                _ => None,
            },
        },
        _ => None,
    }
}

pub open spec fn disp_of_spec(offset: u32) -> i32 {
    offset as i32
}

/// A field offset as a displacement.
#[verifier::when_used_as_spec(disp_of_spec)]
pub fn disp_of(offset: u32) -> (d: i32)
    ensures
        d == disp_of_spec(offset),
{
    #[verifier::truncate]
    (offset as i32)
}

#[verifier::opaque]
pub open spec fn copy_const_rule(dst: LocalId, src: Operand) -> Option<Seq<Inst>> {
    match src {
        Operand::Const(k) => match const_imm(k) {
            Some((imm, width)) => Some(
                seq![Inst::Mov { width, dst: Place::Val(Val(dst)), src: Src::Imm(imm) }],
            ),
            None => None,
        },
        _ => None,
    }
}

/// `t := C`.
fn copy_const(dst: LocalId, src: Operand) -> (r: Option<Vec<Inst>>)
    ensures
        gives(r, copy_const_rule(dst, src)),
{
    proof {
        reveal(copy_const_rule);
    }
    match src {
        Operand::Const(k) => match const_imm(k) {
            Some((imm, width)) => Some(
                vec![Inst::Mov { width, dst: Place::Val(Val(dst)), src: Src::Imm(imm) }],
            ),
            None => None,
        },
        _ => None,
    }
}

#[verifier::opaque]
pub open spec fn copy_const_f_rule(cx: &Cx, dst: LocalId, src: Operand) -> Option<Seq<Inst>> {
    match src {
        Operand::Const(k) => match (fwidth_of(cx, dst), const_float(k)) {
            (Some(width), Some((bits, _))) => Some(
                seq![Inst::ConstF { width, dst: XmmPlace::Val(Val(dst)), bits }],
            ),
            _ => None,
        },
        _ => None,
    }
}

/// `t := f`, a float constant.
fn copy_const_f(cx: &Cx, dst: LocalId, src: Operand) -> (r: Option<Vec<Inst>>)
    ensures
        gives(r, copy_const_f_rule(cx, dst, src)),
{
    proof {
        reveal(copy_const_f_rule);
    }
    match src {
        Operand::Const(k) => match (fwidth_of(cx, dst), const_float(k)) {
            (Some(width), Some((bits, _))) => Some(
                vec![Inst::ConstF { width, dst: XmmPlace::Val(Val(dst)), bits }],
            ),
            _ => None,
        },
        _ => None,
    }
}

#[verifier::opaque]
pub open spec fn copy_addr_of_rule(dst: LocalId, src: Operand) -> Option<Seq<Inst>> {
    match src {
        Operand::AddrOf(l) => Some(
            seq![Inst::Lea { dst: Place::Val(Val(dst)), addr: Amode::FrameSlot(l) }],
        ),
        _ => None,
    }
}

/// `t := &local`.
fn copy_addr_of(dst: LocalId, src: Operand) -> (r: Option<Vec<Inst>>)
    ensures
        gives(r, copy_addr_of_rule(dst, src)),
{
    proof {
        reveal(copy_addr_of_rule);
    }
    match src {
        Operand::AddrOf(l) => Some(
            vec![Inst::Lea { dst: Place::Val(Val(dst)), addr: Amode::FrameSlot(l) }],
        ),
        _ => None,
    }
}

#[verifier::opaque]
pub open spec fn copy_value_rule(cx: &Cx, dst: LocalId, src: Operand) -> Option<Seq<Inst>> {
    match (width_of(cx, dst), value_src(src)) {
        (Some(width), Some(s)) => Some(
            seq![Inst::Mov { width, dst: Place::Val(Val(dst)), src: s }],
        ),
        _ => None,
    }
}

/// `t := v`.
fn copy_value(cx: &Cx, dst: LocalId, src: Operand) -> (r: Option<Vec<Inst>>)
    ensures
        gives(r, copy_value_rule(cx, dst, src)),
{
    proof {
        reveal(copy_value_rule);
    }
    match (width_of(cx, dst), value_src(src)) {
        (Some(width), Some(s)) => Some(
            vec![Inst::Mov { width, dst: Place::Val(Val(dst)), src: s }],
        ),
        _ => None,
    }
}

#[verifier::opaque]
pub open spec fn copy_value_f_rule(cx: &Cx, dst: LocalId, src: Operand) -> Option<Seq<Inst>> {
    match (fwidth_of(cx, dst), xmm_opnd(cx, src)) {
        (Some(width), Some(s)) => Some(
            seq![Inst::MovF { width, dst: XmmPlace::Val(Val(dst)), src: s }],
        ),
        _ => None,
    }
}

/// `t := v`, floats.
fn copy_value_f(cx: &Cx, dst: LocalId, src: Operand) -> (r: Option<Vec<Inst>>)
    ensures
        gives(r, copy_value_f_rule(cx, dst, src)),
{
    proof {
        reveal(copy_value_f_rule);
    }
    match (fwidth_of(cx, dst), xmm_opnd(cx, src)) {
        (Some(width), Some(s)) => Some(
            vec![Inst::MovF { width, dst: XmmPlace::Val(Val(dst)), src: s }],
        ),
        _ => None,
    }
}

#[verifier::opaque]
pub open spec fn load_mem_rule(
    dst: LocalId,
    addr: Operand,
    offset: u32,
    ty: Type,
    access: MemAccess,
) -> Option<Seq<Inst>> {
    match (width_of_ty(ty), operand_src(addr), access) {
        (Some(width), Some(a), MemAccess::Natural) => Some(
            seq![
                Inst::LoadMem {
                    width,
                    dst: Place::Val(Val(dst)),
                    addr: a,
                    disp: disp_of(offset),
                },
            ],
        ),
        _ => None,
    }
}

/// `t := [addr + offset]`, a whole cell.
fn load_mem(
    dst: LocalId,
    addr: Operand,
    offset: u32,
    ty: Type,
    access: MemAccess,
) -> (r: Option<Vec<Inst>>)
    ensures
        gives(r, load_mem_rule(dst, addr, offset, ty, access)),
{
    proof {
        reveal(load_mem_rule);
    }
    match (width_of_ty(ty), operand_src(addr), access) {
        (Some(width), Some(a), MemAccess::Natural) => Some(
            vec![
                Inst::LoadMem {
                    width,
                    dst: Place::Val(Val(dst)),
                    addr: a,
                    disp: disp_of(offset),
                },
            ],
        ),
        _ => None,
    }
}

#[verifier::opaque]
pub open spec fn load_mem_f_rule(
    dst: LocalId,
    addr: Operand,
    offset: u32,
    ty: Type,
    access: MemAccess,
) -> Option<Seq<Inst>> {
    match (FWidth::of(ty), operand_src(addr), access) {
        (Some(width), Some(a), MemAccess::Natural) => Some(
            seq![
                Inst::LoadMemF {
                    width,
                    dst: XmmPlace::Val(Val(dst)),
                    addr: a,
                    disp: disp_of(offset),
                },
            ],
        ),
        _ => None,
    }
}

/// `t := [addr + offset]`, a float.
fn load_mem_f(
    dst: LocalId,
    addr: Operand,
    offset: u32,
    ty: Type,
    access: MemAccess,
) -> (r: Option<Vec<Inst>>)
    ensures
        gives(r, load_mem_f_rule(dst, addr, offset, ty, access)),
{
    proof {
        reveal(load_mem_f_rule);
    }
    match (FWidth::of(ty), operand_src(addr), access) {
        (Some(width), Some(a), MemAccess::Natural) => Some(
            vec![
                Inst::LoadMemF {
                    width,
                    dst: XmmPlace::Val(Val(dst)),
                    addr: a,
                    disp: disp_of(offset),
                },
            ],
        ),
        _ => None,
    }
}

#[verifier::opaque]
pub open spec fn load_mem_narrow_rule(
    dst: LocalId,
    addr: Operand,
    offset: u32,
    access: MemAccess,
) -> Option<Seq<Inst>> {
    match (access.narrow_bytes(), operand_src(addr)) {
        (Some(size), Some(a)) => Some(
            seq![
                Inst::LoadMemNarrow {
                    size,
                    signed: access.sign_extends(),
                    dst: Place::Val(Val(dst)),
                    addr: a,
                    disp: disp_of(offset),
                },
            ],
        ),
        _ => None,
    }
}

/// `t := [addr + offset]`, a narrow cell.
fn load_mem_narrow(
    dst: LocalId,
    addr: Operand,
    offset: u32,
    access: MemAccess,
) -> (r: Option<Vec<Inst>>)
    ensures
        gives(r, load_mem_narrow_rule(dst, addr, offset, access)),
{
    proof {
        reveal(load_mem_narrow_rule);
    }
    match (access.narrow_bytes(), operand_src(addr)) {
        (Some(size), Some(a)) => Some(
            vec![
                Inst::LoadMemNarrow {
                    size,
                    signed: access.sign_extends(),
                    dst: Place::Val(Val(dst)),
                    addr: a,
                    disp: disp_of(offset),
                },
            ],
        ),
        _ => None,
    }
}

#[verifier::opaque]
pub open spec fn store_mem_rule(
    cx: &Cx,
    addr: Operand,
    offset: u32,
    src: Operand,
    access: MemAccess,
) -> Option<Seq<Inst>> {
    match (operand_src(addr), operand_src(src), operand_width(cx, src), access) {
        (Some(a), Some(s), Some(width), MemAccess::Natural) => Some(
            seq![Inst::StoreMem { width, addr: a, disp: disp_of(offset), src: s }],
        ),
        _ => None,
    }
}

/// `[addr + offset] := src`, a whole cell.
fn store_mem(
    cx: &Cx,
    addr: Operand,
    offset: u32,
    src: Operand,
    access: MemAccess,
) -> (r: Option<Vec<Inst>>)
    ensures
        gives(r, store_mem_rule(cx, addr, offset, src, access)),
{
    proof {
        reveal(store_mem_rule);
    }
    match (operand_src(addr), operand_src(src), operand_width(cx, src), access) {
        (Some(a), Some(s), Some(width), MemAccess::Natural) => Some(
            vec![Inst::StoreMem { width, addr: a, disp: disp_of(offset), src: s }],
        ),
        _ => None,
    }
}

#[verifier::opaque]
pub open spec fn store_mem_f_rule(
    cx: &Cx,
    addr: Operand,
    offset: u32,
    src: Operand,
    access: MemAccess,
) -> Option<Seq<Inst>> {
    match (operand_src(addr), xmm_opnd(cx, src), operand_fwidth(cx, src), access) {
        (Some(a), Some(s), Some(width), MemAccess::Natural) => Some(
            seq![Inst::StoreMemF { width, addr: a, disp: disp_of(offset), src: s }],
        ),
        _ => None,
    }
}

/// `[addr + offset] := src`, a float.
fn store_mem_f(
    cx: &Cx,
    addr: Operand,
    offset: u32,
    src: Operand,
    access: MemAccess,
) -> (r: Option<Vec<Inst>>)
    ensures
        gives(r, store_mem_f_rule(cx, addr, offset, src, access)),
{
    proof {
        reveal(store_mem_f_rule);
    }
    match (operand_src(addr), xmm_opnd(cx, src), operand_fwidth(cx, src), access) {
        (Some(a), Some(s), Some(width), MemAccess::Natural) => Some(
            vec![Inst::StoreMemF { width, addr: a, disp: disp_of(offset), src: s }],
        ),
        _ => None,
    }
}

#[verifier::opaque]
pub open spec fn store_mem_narrow_rule(
    addr: Operand,
    offset: u32,
    src: Operand,
    access: MemAccess,
) -> Option<Seq<Inst>> {
    match (access.narrow_bytes(), operand_src(addr), operand_src(src)) {
        (Some(size), Some(a), Some(s)) => Some(
            seq![Inst::StoreMemNarrow { size, addr: a, disp: disp_of(offset), src: s }],
        ),
        _ => None,
    }
}

/// `[addr + offset] := src`, a narrow cell.
fn store_mem_narrow(
    addr: Operand,
    offset: u32,
    src: Operand,
    access: MemAccess,
) -> (r: Option<Vec<Inst>>)
    ensures
        gives(r, store_mem_narrow_rule(addr, offset, src, access)),
{
    proof {
        reveal(store_mem_narrow_rule);
    }
    match (access.narrow_bytes(), operand_src(addr), operand_src(src)) {
        (Some(size), Some(a), Some(s)) => Some(
            vec![Inst::StoreMemNarrow { size, addr: a, disp: disp_of(offset), src: s }],
        ),
        _ => None,
    }
}

#[verifier::opaque]
pub open spec fn null_check_rule(arg: Operand) -> Option<Seq<Inst>> {
    match operand_src(arg) {
        Some(addr) => Some(seq![Inst::NullCheck { addr }]),
        _ => None,
    }
}

/// A load that faults on null.
fn null_check(arg: Operand) -> (r: Option<Vec<Inst>>)
    ensures
        gives(r, null_check_rule(arg)),
{
    proof {
        reveal(null_check_rule);
    }
    match operand_src(arg) {
        Some(addr) => Some(vec![Inst::NullCheck { addr }]),
        _ => None,
    }
}

#[verifier::opaque]
pub open spec fn bounds_check_rule(cx: &Cx, array: Operand, index: Operand) -> Option<Seq<Inst>> {
    match (operand_src(array), operand_src(index), operand_width(cx, index)) {
        (Some(a), Some(i), Some(w)) => Some(
            seq![Inst::BoundsCheck { index: i, index_wide: w == Width::W64, array: a }],
        ),
        _ => None,
    }
}

/// An index compared with the length of its array.
fn bounds_check(cx: &Cx, array: Operand, index: Operand) -> (r: Option<Vec<Inst>>)
    ensures
        gives(r, bounds_check_rule(cx, array, index)),
{
    proof {
        reveal(bounds_check_rule);
    }
    match (operand_src(array), operand_src(index), operand_width(cx, index)) {
        (Some(a), Some(i), Some(w)) => Some(
            vec![Inst::BoundsCheck { index: i, index_wide: w == Width::W64, array: a }],
        ),
        _ => None,
    }
}

#[verifier::opaque]
pub open spec fn arith_rule(
    cx: &Cx,
    dst: LocalId,
    op: BinaryOp,
    lhs: Operand,
    rhs: Operand,
) -> Option<Seq<Inst>> {
    match (ArithOp::of(op), width_of(cx, dst), operand_src(lhs), operand_src(rhs)) {
        (Some(aop), Some(width), Some(l), Some(r)) => Some(
            seq![
                Inst::Arith { op: aop, width, dst: Place::Val(Val(dst)), lhs: l, rhs: r },
            ],
        ),
        _ => None,
    }
}

/// `t := a op b` in one instruction.
fn arith(cx: &Cx, dst: LocalId, op: BinaryOp, lhs: Operand, rhs: Operand) -> (r: Option<Vec<Inst>>)
    ensures
        gives(r, arith_rule(cx, dst, op, lhs, rhs)),
{
    proof {
        reveal(arith_rule);
    }
    match (ArithOp::of(op), width_of(cx, dst), operand_src(lhs), operand_src(rhs)) {
        (Some(aop), Some(width), Some(l), Some(r)) => Some(
            vec![
                Inst::Arith { op: aop, width, dst: Place::Val(Val(dst)), lhs: l, rhs: r },
            ],
        ),
        _ => None,
    }
}

#[verifier::opaque]
pub open spec fn arith_f_rule(
    cx: &Cx,
    dst: LocalId,
    op: BinaryOp,
    lhs: Operand,
    rhs: Operand,
) -> Option<Seq<Inst>> {
    match (ArithFOp::of(op), fwidth_of(cx, dst), xmm_opnd(cx, lhs), xmm_opnd(cx, rhs)) {
        (Some(aop), Some(width), Some(l), Some(r)) => Some(
            seq![
                Inst::ArithF { op: aop, width, dst: XmmPlace::Val(Val(dst)), lhs: l, rhs: r },
            ],
        ),
        _ => None,
    }
}

/// `t := a op b`, floats.
fn arith_f(
    cx: &Cx,
    dst: LocalId,
    op: BinaryOp,
    lhs: Operand,
    rhs: Operand,
) -> (r: Option<Vec<Inst>>)
    ensures
        gives(r, arith_f_rule(cx, dst, op, lhs, rhs)),
{
    proof {
        reveal(arith_f_rule);
    }
    match (ArithFOp::of(op), fwidth_of(cx, dst), xmm_opnd(cx, lhs), xmm_opnd(cx, rhs)) {
        (Some(aop), Some(width), Some(l), Some(r)) => Some(
            vec![
                Inst::ArithF { op: aop, width, dst: XmmPlace::Val(Val(dst)), lhs: l, rhs: r },
            ],
        ),
        _ => None,
    }
}

#[verifier::opaque]
pub open spec fn divide_rule(
    cx: &Cx,
    dst: LocalId,
    op: BinaryOp,
    lhs: Operand,
    rhs: Operand,
) -> Option<Seq<Inst>> {
    match (op, width_of(cx, dst), operand_src(lhs), operand_src(rhs)) {
        (BinaryOp::Rem, Some(width), Some(l), Some(r)) => Some(
            seq![
                Inst::Mov { width, dst: Place::Reg(Gpr::Rax), src: l },
                Inst::Cdq { width },
                Inst::Idiv { width, divisor: r },
                Inst::Mov { width, dst: Place::Val(Val(dst)), src: Src::Reg(Gpr::Rdx) },
            ],
        ),
        (BinaryOp::Div, Some(width), Some(l), Some(r)) => Some(
            seq![
                Inst::Mov { width, dst: Place::Reg(Gpr::Rax), src: l },
                Inst::Cdq { width },
                Inst::Idiv { width, divisor: r },
                Inst::Mov { width, dst: Place::Val(Val(dst)), src: Src::Reg(Gpr::Rax) },
            ],
        ),
        _ => None,
    }
}

/// `t := a / b` and `a % b`, signed: through `rax` and `rdx`, the sign of the
/// dividend extended.
fn divide(cx: &Cx, dst: LocalId, op: BinaryOp, lhs: Operand, rhs: Operand) -> (r: Option<Vec<Inst>>)
    ensures
        gives(r, divide_rule(cx, dst, op, lhs, rhs)),
{
    proof {
        reveal(divide_rule);
    }
    match (op, width_of(cx, dst), operand_src(lhs), operand_src(rhs)) {
        (BinaryOp::Rem, Some(width), Some(l), Some(r)) => Some(
            vec![
                Inst::Mov { width, dst: Place::Reg(Gpr::Rax), src: l },
                Inst::Cdq { width },
                Inst::Idiv { width, divisor: r },
                Inst::Mov { width, dst: Place::Val(Val(dst)), src: Src::Reg(Gpr::Rdx) },
            ],
        ),
        (BinaryOp::Div, Some(width), Some(l), Some(r)) => Some(
            vec![
                Inst::Mov { width, dst: Place::Reg(Gpr::Rax), src: l },
                Inst::Cdq { width },
                Inst::Idiv { width, divisor: r },
                Inst::Mov { width, dst: Place::Val(Val(dst)), src: Src::Reg(Gpr::Rax) },
            ],
        ),
        _ => None,
    }
}

#[verifier::opaque]
pub open spec fn divide_unsigned_rule(
    cx: &Cx,
    dst: LocalId,
    op: BinaryOp,
    lhs: Operand,
    rhs: Operand,
) -> Option<Seq<Inst>> {
    match (op, width_of(cx, dst), operand_src(lhs), operand_src(rhs)) {
        (BinaryOp::UDiv, Some(width), Some(l), Some(r)) => Some(
            seq![
                Inst::Mov { width, dst: Place::Reg(Gpr::Rax), src: l },
                Inst::Mov { width: Width::W32, dst: Place::Reg(Gpr::Rdx), src: Src::Imm(0) },
                Inst::Div { width, divisor: r },
                Inst::Mov { width, dst: Place::Val(Val(dst)), src: Src::Reg(Gpr::Rax) },
            ],
        ),
        (BinaryOp::URem, Some(width), Some(l), Some(r)) => Some(
            seq![
                Inst::Mov { width, dst: Place::Reg(Gpr::Rax), src: l },
                Inst::Mov { width: Width::W32, dst: Place::Reg(Gpr::Rdx), src: Src::Imm(0) },
                Inst::Div { width, divisor: r },
                Inst::Mov { width, dst: Place::Val(Val(dst)), src: Src::Reg(Gpr::Rdx) },
            ],
        ),
        _ => None,
    }
}

/// `t := a / b` and `a % b`, unsigned: `rdx` is zeroed.
fn divide_unsigned(
    cx: &Cx,
    dst: LocalId,
    op: BinaryOp,
    lhs: Operand,
    rhs: Operand,
) -> (r: Option<Vec<Inst>>)
    ensures
        gives(r, divide_unsigned_rule(cx, dst, op, lhs, rhs)),
{
    proof {
        reveal(divide_unsigned_rule);
    }
    match (op, width_of(cx, dst), operand_src(lhs), operand_src(rhs)) {
        (BinaryOp::UDiv, Some(width), Some(l), Some(r)) => Some(
            vec![
                Inst::Mov { width, dst: Place::Reg(Gpr::Rax), src: l },
                Inst::Mov { width: Width::W32, dst: Place::Reg(Gpr::Rdx), src: Src::Imm(0) },
                Inst::Div { width, divisor: r },
                Inst::Mov { width, dst: Place::Val(Val(dst)), src: Src::Reg(Gpr::Rax) },
            ],
        ),
        (BinaryOp::URem, Some(width), Some(l), Some(r)) => Some(
            vec![
                Inst::Mov { width, dst: Place::Reg(Gpr::Rax), src: l },
                Inst::Mov { width: Width::W32, dst: Place::Reg(Gpr::Rdx), src: Src::Imm(0) },
                Inst::Div { width, divisor: r },
                Inst::Mov { width, dst: Place::Val(Val(dst)), src: Src::Reg(Gpr::Rdx) },
            ],
        ),
        _ => None,
    }
}

#[verifier::opaque]
pub open spec fn arith_ovf_rule(
    cx: &Cx,
    dst: LocalId,
    op: BinaryOp,
    unsigned: bool,
    lhs: Operand,
    rhs: Operand,
) -> Option<Seq<Inst>> {
    match (op, width_of(cx, dst), operand_src(lhs), operand_src(rhs)) {
        (
            BinaryOp::Add | BinaryOp::Sub | BinaryOp::Mul,
            Some(width),
            Some(l),
            Some(r),
        ) => Some(
            seq![
                Inst::ArithOvf {
                    op,
                    unsigned,
                    width,
                    dst: Place::Val(Val(dst)),
                    lhs: l,
                    rhs: r,
                },
            ],
        ),
        _ => None,
    }
}

/// `t := a op b`, checked.
fn arith_ovf(
    cx: &Cx,
    dst: LocalId,
    op: BinaryOp,
    unsigned: bool,
    lhs: Operand,
    rhs: Operand,
) -> (r: Option<Vec<Inst>>)
    ensures
        gives(r, arith_ovf_rule(cx, dst, op, unsigned, lhs, rhs)),
{
    proof {
        reveal(arith_ovf_rule);
    }
    match (op, width_of(cx, dst), operand_src(lhs), operand_src(rhs)) {
        (
            BinaryOp::Add | BinaryOp::Sub | BinaryOp::Mul,
            Some(width),
            Some(l),
            Some(r),
        ) => Some(
            vec![
                Inst::ArithOvf {
                    op,
                    unsigned,
                    width,
                    dst: Place::Val(Val(dst)),
                    lhs: l,
                    rhs: r,
                },
            ],
        ),
        _ => None,
    }
}

#[verifier::opaque]
pub open spec fn conv_ovf_rule(
    cx: &Cx,
    dst: LocalId,
    dst_bits: u8,
    signed_dst: bool,
    unsigned_src: bool,
    src: Operand,
) -> Option<Seq<Inst>> {
    match (operand_width(cx, src), operand_src(src)) {
        (Some(w), Some(s)) => Some(
            seq![
                Inst::ConvOvf {
                    width_src: w,
                    width_dst: dst_bits,
                    signed_dst,
                    unsigned_src,
                    dst: Place::Val(Val(dst)),
                    src: s,
                },
            ],
        ),
        _ => None,
    }
}

/// A checked conversion between integers.
fn conv_ovf(
    cx: &Cx,
    dst: LocalId,
    dst_bits: u8,
    signed_dst: bool,
    unsigned_src: bool,
    src: Operand,
) -> (r: Option<Vec<Inst>>)
    ensures
        gives(r, conv_ovf_rule(cx, dst, dst_bits, signed_dst, unsigned_src, src)),
{
    proof {
        reveal(conv_ovf_rule);
    }
    match (operand_width(cx, src), operand_src(src)) {
        (Some(w), Some(s)) => Some(
            vec![
                Inst::ConvOvf {
                    width_src: w,
                    width_dst: dst_bits,
                    signed_dst,
                    unsigned_src,
                    dst: Place::Val(Val(dst)),
                    src: s,
                },
            ],
        ),
        _ => None,
    }
}

#[verifier::opaque]
pub open spec fn ckfinite_rule(cx: &Cx, dst: LocalId, src: Operand) -> Option<Seq<Inst>> {
    match (operand_fwidth(cx, src), xmm_opnd(cx, src)) {
        (Some(width), Some(s)) => Some(
            seq![Inst::CkFinite { width, dst: XmmPlace::Val(Val(dst)), src: s }],
        ),
        _ => None,
    }
}

/// A float that must be finite.
fn ckfinite(cx: &Cx, dst: LocalId, src: Operand) -> (r: Option<Vec<Inst>>)
    ensures
        gives(r, ckfinite_rule(cx, dst, src)),
{
    proof {
        reveal(ckfinite_rule);
    }
    match (operand_fwidth(cx, src), xmm_opnd(cx, src)) {
        (Some(width), Some(s)) => Some(
            vec![Inst::CkFinite { width, dst: XmmPlace::Val(Val(dst)), src: s }],
        ),
        _ => None,
    }
}

#[verifier::opaque]
pub open spec fn shift_rule(
    cx: &Cx,
    dst: LocalId,
    op: BinaryOp,
    lhs: Operand,
    rhs: Operand,
) -> Option<Seq<Inst>> {
    match (ShiftOp::of(op), width_of(cx, dst), operand_src(lhs), operand_src(rhs)) {
        (Some(sop), Some(width), Some(l), Some(r)) => Some(
            seq![
                Inst::Shift { op: sop, width, dst: Place::Val(Val(dst)), lhs: l, rhs: r },
            ],
        ),
        _ => None,
    }
}

/// `t := a << b` and `a >> b`.
fn shift(cx: &Cx, dst: LocalId, op: BinaryOp, lhs: Operand, rhs: Operand) -> (r: Option<Vec<Inst>>)
    ensures
        gives(r, shift_rule(cx, dst, op, lhs, rhs)),
{
    proof {
        reveal(shift_rule);
    }
    match (ShiftOp::of(op), width_of(cx, dst), operand_src(lhs), operand_src(rhs)) {
        (Some(sop), Some(width), Some(l), Some(r)) => Some(
            vec![
                Inst::Shift { op: sop, width, dst: Place::Val(Val(dst)), lhs: l, rhs: r },
            ],
        ),
        _ => None,
    }
}

#[verifier::opaque]
pub open spec fn unary_rule(cx: &Cx, dst: LocalId, op: UnaryOp, src: Operand) -> Option<Seq<Inst>> {
    match (width_of(cx, dst), operand_src(src)) {
        (Some(width), Some(s)) => Some(
            seq![Inst::Unary { op, width, dst: Place::Val(Val(dst)), src: s }],
        ),
        _ => None,
    }
}

/// `t := -a` and `~a`.
fn unary(cx: &Cx, dst: LocalId, op: UnaryOp, src: Operand) -> (r: Option<Vec<Inst>>)
    ensures
        gives(r, unary_rule(cx, dst, op, src)),
{
    proof {
        reveal(unary_rule);
    }
    match (width_of(cx, dst), operand_src(src)) {
        (Some(width), Some(s)) => Some(
            vec![Inst::Unary { op, width, dst: Place::Val(Val(dst)), src: s }],
        ),
        _ => None,
    }
}

#[verifier::opaque]
pub open spec fn neg_f_rule(cx: &Cx, dst: LocalId, op: UnaryOp, src: Operand) -> Option<Seq<Inst>> {
    match (op, fwidth_of(cx, dst), xmm_opnd(cx, src)) {
        (UnaryOp::Neg, Some(width), Some(s)) => Some(
            seq![Inst::NegF { width, dst: XmmPlace::Val(Val(dst)), src: s }],
        ),
        _ => None,
    }
}

/// `t := -a`, floats.
fn neg_f(cx: &Cx, dst: LocalId, op: UnaryOp, src: Operand) -> (r: Option<Vec<Inst>>)
    ensures
        gives(r, neg_f_rule(cx, dst, op, src)),
{
    proof {
        reveal(neg_f_rule);
    }
    match (op, fwidth_of(cx, dst), xmm_opnd(cx, src)) {
        (UnaryOp::Neg, Some(width), Some(s)) => Some(
            vec![Inst::NegF { width, dst: XmmPlace::Val(Val(dst)), src: s }],
        ),
        _ => None,
    }
}

#[verifier::opaque]
pub open spec fn compare_value_rule(
    cx: &Cx,
    dst: LocalId,
    op: BinaryOp,
    lhs: Operand,
    rhs: Operand,
) -> Option<Seq<Inst>> {
    match (CondCode::of(op), operand_width(cx, lhs), operand_src(lhs), operand_src(rhs)) {
        (Some(cc), Some(width), Some(l), Some(r)) => Some(
            seq![
                Inst::Cmp { width, lhs: l, rhs: r },
                Inst::Setcc { cc, dst: Place::Val(Val(dst)) },
            ],
        ),
        _ => None,
    }
}

/// `t := (a ? b)`: a comparison, and its outcome as 0 or 1.
fn compare_value(
    cx: &Cx,
    dst: LocalId,
    op: BinaryOp,
    lhs: Operand,
    rhs: Operand,
) -> (r: Option<Vec<Inst>>)
    ensures
        gives(r, compare_value_rule(cx, dst, op, lhs, rhs)),
{
    proof {
        reveal(compare_value_rule);
    }
    match (CondCode::of(op), operand_width(cx, lhs), operand_src(lhs), operand_src(rhs)) {
        (Some(cc), Some(width), Some(l), Some(r)) => Some(
            vec![
                Inst::Cmp { width, lhs: l, rhs: r },
                Inst::Setcc { cc, dst: Place::Val(Val(dst)) },
            ],
        ),
        _ => None,
    }
}

#[verifier::opaque]
pub open spec fn compare_value_f_rule(
    cx: &Cx,
    dst: LocalId,
    op: BinaryOp,
    lhs: Operand,
    rhs: Operand,
) -> Option<Seq<Inst>> {
    match (CondCode::of(op), operand_fwidth(cx, lhs), xmm_opnd(cx, lhs), xmm_opnd(cx, rhs)) {
        (Some(_), Some(width), Some(l), Some(r)) => Some(
            seq![
                Inst::CmpF { width, lhs: l, rhs: r },
                Inst::SetccF { op, dst: Place::Val(Val(dst)) },
            ],
        ),
        _ => None,
    }
}

/// `t := (a ? b)`, floats.
fn compare_value_f(
    cx: &Cx,
    dst: LocalId,
    op: BinaryOp,
    lhs: Operand,
    rhs: Operand,
) -> (r: Option<Vec<Inst>>)
    ensures
        gives(r, compare_value_f_rule(cx, dst, op, lhs, rhs)),
{
    proof {
        reveal(compare_value_f_rule);
    }
    match (CondCode::of(op), operand_fwidth(cx, lhs), xmm_opnd(cx, lhs), xmm_opnd(cx, rhs)) {
        (Some(_), Some(width), Some(l), Some(r)) => Some(
            vec![
                Inst::CmpF { width, lhs: l, rhs: r },
                Inst::SetccF { op, dst: Place::Val(Val(dst)) },
            ],
        ),
        _ => None,
    }
}

#[verifier::opaque]
pub open spec fn conv_trunc_rule(
    cx: &Cx,
    dst: LocalId,
    to: Type,
    unsigned: bool,
    src: Operand,
) -> Option<Seq<Inst>> {
    match (to, operand_width(cx, src), operand_src(src)) {
        (Type::Int32, Some(Width::W64), Some(s)) => Some(
            seq![Inst::Mov { width: Width::W32, dst: Place::Val(Val(dst)), src: s }],
        ),
        _ => None,
    }
}

/// From 64 to 32 bits.
fn conv_trunc(
    cx: &Cx,
    dst: LocalId,
    to: Type,
    unsigned: bool,
    src: Operand,
) -> (r: Option<Vec<Inst>>)
    ensures
        gives(r, conv_trunc_rule(cx, dst, to, unsigned, src)),
{
    proof {
        reveal(conv_trunc_rule);
    }
    match (to, operand_width(cx, src), operand_src(src)) {
        (Type::Int32, Some(Width::W64), Some(s)) => Some(
            vec![Inst::Mov { width: Width::W32, dst: Place::Val(Val(dst)), src: s }],
        ),
        _ => None,
    }
}

#[verifier::opaque]
pub open spec fn conv_ext_rule(
    cx: &Cx,
    dst: LocalId,
    to: Type,
    unsigned: bool,
    src: Operand,
) -> Option<Seq<Inst>> {
    match (to, operand_width(cx, src), operand_src(src)) {
        (Type::Int64 | Type::NativeInt, Some(Width::W32), Some(s)) => Some(
            seq![Inst::MovExt { dst: Place::Val(Val(dst)), src: s, signed: !unsigned }],
        ),
        _ => None,
    }
}

/// From 32 to 64 bits.
fn conv_ext(cx: &Cx, dst: LocalId, to: Type, unsigned: bool, src: Operand) -> (r: Option<Vec<Inst>>)
    ensures
        gives(r, conv_ext_rule(cx, dst, to, unsigned, src)),
{
    proof {
        reveal(conv_ext_rule);
    }
    match (to, operand_width(cx, src), operand_src(src)) {
        (Type::Int64 | Type::NativeInt, Some(Width::W32), Some(s)) => Some(
            vec![Inst::MovExt { dst: Place::Val(Val(dst)), src: s, signed: !unsigned }],
        ),
        _ => None,
    }
}

#[verifier::opaque]
pub open spec fn conv_u64_to_f_rule(
    cx: &Cx,
    dst: LocalId,
    to: Type,
    unsigned: bool,
    src: Operand,
) -> Option<Seq<Inst>> {
    match (unsigned, FWidth::of(to), operand_width(cx, src), operand_src(src)) {
        (true, Some(width), Some(Width::W64), Some(s)) => Some(
            seq![Inst::CvtU64ToF { width, dst: XmmPlace::Val(Val(dst)), src: s }],
        ),
        _ => None,
    }
}

/// From an unsigned 64-bit integer to a float.
fn conv_u64_to_f(
    cx: &Cx,
    dst: LocalId,
    to: Type,
    unsigned: bool,
    src: Operand,
) -> (r: Option<Vec<Inst>>)
    ensures
        gives(r, conv_u64_to_f_rule(cx, dst, to, unsigned, src)),
{
    proof {
        reveal(conv_u64_to_f_rule);
    }
    match (unsigned, FWidth::of(to), operand_width(cx, src), operand_src(src)) {
        (true, Some(width), Some(Width::W64), Some(s)) => Some(
            vec![Inst::CvtU64ToF { width, dst: XmmPlace::Val(Val(dst)), src: s }],
        ),
        _ => None,
    }
}

#[verifier::opaque]
pub open spec fn conv_i_to_f_rule(
    cx: &Cx,
    dst: LocalId,
    to: Type,
    unsigned: bool,
    src: Operand,
) -> Option<Seq<Inst>> {
    match (unsigned, FWidth::of(to), operand_width(cx, src), operand_src(src)) {
        (false, Some(width), Some(w), Some(s)) => Some(
            seq![
                Inst::CvtIntToF {
                    width,
                    src_w64: w == Width::W64,
                    dst: XmmPlace::Val(Val(dst)),
                    src: s,
                },
            ],
        ),
        _ => None,
    }
}

/// From a signed integer to a float.
fn conv_i_to_f(
    cx: &Cx,
    dst: LocalId,
    to: Type,
    unsigned: bool,
    src: Operand,
) -> (r: Option<Vec<Inst>>)
    ensures
        gives(r, conv_i_to_f_rule(cx, dst, to, unsigned, src)),
{
    proof {
        reveal(conv_i_to_f_rule);
    }
    match (unsigned, FWidth::of(to), operand_width(cx, src), operand_src(src)) {
        (false, Some(width), Some(w), Some(s)) => Some(
            vec![
                Inst::CvtIntToF {
                    width,
                    src_w64: w == Width::W64,
                    dst: XmmPlace::Val(Val(dst)),
                    src: s,
                },
            ],
        ),
        _ => None,
    }
}

#[verifier::opaque]
pub open spec fn conv_f_to_i_rule(
    cx: &Cx,
    dst: LocalId,
    to: Type,
    unsigned: bool,
    src: Operand,
) -> Option<Seq<Inst>> {
    match (to, operand_fwidth(cx, src), xmm_opnd(cx, src)) {
        (Type::Int32, Some(w), Some(s)) => Some(
            seq![
                Inst::CvtFToInt {
                    src_width: w,
                    dst_w64: unsigned,
                    dst: Place::Val(Val(dst)),
                    src: s,
                },
            ],
        ),
        (Type::Int64 | Type::NativeInt, Some(w), Some(s)) => Some(
            seq![
                Inst::CvtFToInt {
                    src_width: w,
                    dst_w64: true,
                    dst: Place::Val(Val(dst)),
                    src: s,
                },
            ],
        ),
        _ => None,
    }
}

/// From a float to an integer. An unsigned 32-bit result is the low half of a
/// 64-bit one.
fn conv_f_to_i(
    cx: &Cx,
    dst: LocalId,
    to: Type,
    unsigned: bool,
    src: Operand,
) -> (r: Option<Vec<Inst>>)
    ensures
        gives(r, conv_f_to_i_rule(cx, dst, to, unsigned, src)),
{
    proof {
        reveal(conv_f_to_i_rule);
    }
    match (to, operand_fwidth(cx, src), xmm_opnd(cx, src)) {
        (Type::Int32, Some(w), Some(s)) => Some(
            vec![
                Inst::CvtFToInt {
                    src_width: w,
                    dst_w64: unsigned,
                    dst: Place::Val(Val(dst)),
                    src: s,
                },
            ],
        ),
        (Type::Int64 | Type::NativeInt, Some(w), Some(s)) => Some(
            vec![
                Inst::CvtFToInt {
                    src_width: w,
                    dst_w64: true,
                    dst: Place::Val(Val(dst)),
                    src: s,
                },
            ],
        ),
        _ => None,
    }
}

#[verifier::opaque]
pub open spec fn conv_f_to_f_rule(
    cx: &Cx,
    dst: LocalId,
    to: Type,
    unsigned: bool,
    src: Operand,
) -> Option<Seq<Inst>> {
    match (FWidth::of(to), operand_fwidth(cx, src), xmm_opnd(cx, src)) {
        (Some(w), Some(from), Some(s)) => if w == from {
            None
        } else {
            Some(seq![Inst::CvtFToF { to: w, dst: XmmPlace::Val(Val(dst)), src: s }])
        },
        _ => None,
    }
}

/// From a float to a float of the other width.
fn conv_f_to_f(
    cx: &Cx,
    dst: LocalId,
    to: Type,
    unsigned: bool,
    src: Operand,
) -> (r: Option<Vec<Inst>>)
    ensures
        gives(r, conv_f_to_f_rule(cx, dst, to, unsigned, src)),
{
    proof {
        reveal(conv_f_to_f_rule);
    }
    match (FWidth::of(to), operand_fwidth(cx, src), xmm_opnd(cx, src)) {
        (Some(w), Some(from), Some(s)) => if w == from {
            None
        } else {
            Some(vec![Inst::CvtFToF { to: w, dst: XmmPlace::Val(Val(dst)), src: s }])
        },
        _ => None,
    }
}

#[verifier::opaque]
pub open spec fn branch_compare_rule(
    cx: &Cx,
    op: BinaryOp,
    lhs: Operand,
    rhs: Operand,
    target: BlockId,
) -> Option<Seq<Inst>> {
    match (CondCode::of(op), operand_width(cx, lhs), operand_src(lhs), operand_src(rhs)) {
        (Some(cc), Some(width), Some(l), Some(r)) => Some(
            seq![
                Inst::Cmp { width, lhs: l, rhs: r },
                Inst::Jcc { cc, target: Label(target) },
            ],
        ),
        _ => None,
    }
}

/// `if (a ? b) goto L`: the comparison directly before its jump.
fn branch_compare(
    cx: &Cx,
    op: BinaryOp,
    lhs: Operand,
    rhs: Operand,
    target: BlockId,
) -> (r: Option<Vec<Inst>>)
    ensures
        gives(r, branch_compare_rule(cx, op, lhs, rhs, target)),
{
    proof {
        reveal(branch_compare_rule);
    }
    match (CondCode::of(op), operand_width(cx, lhs), operand_src(lhs), operand_src(rhs)) {
        (Some(cc), Some(width), Some(l), Some(r)) => Some(
            vec![
                Inst::Cmp { width, lhs: l, rhs: r },
                Inst::Jcc { cc, target: Label(target) },
            ],
        ),
        _ => None,
    }
}

#[verifier::opaque]
pub open spec fn branch_compare_f_rule(
    cx: &Cx,
    op: BinaryOp,
    lhs: Operand,
    rhs: Operand,
    target: BlockId,
) -> Option<Seq<Inst>> {
    match (CondCode::of(op), operand_fwidth(cx, lhs), xmm_opnd(cx, lhs), xmm_opnd(cx, rhs)) {
        (Some(_), Some(width), Some(l), Some(r)) => Some(
            seq![
                Inst::CmpF { width, lhs: l, rhs: r },
                Inst::JccF { op, target: Label(target) },
            ],
        ),
        _ => None,
    }
}

/// `if (a ? b) goto L`, floats.
fn branch_compare_f(
    cx: &Cx,
    op: BinaryOp,
    lhs: Operand,
    rhs: Operand,
    target: BlockId,
) -> (r: Option<Vec<Inst>>)
    ensures
        gives(r, branch_compare_f_rule(cx, op, lhs, rhs, target)),
{
    proof {
        reveal(branch_compare_f_rule);
    }
    match (CondCode::of(op), operand_fwidth(cx, lhs), xmm_opnd(cx, lhs), xmm_opnd(cx, rhs)) {
        (Some(_), Some(width), Some(l), Some(r)) => Some(
            vec![
                Inst::CmpF { width, lhs: l, rhs: r },
                Inst::JccF { op, target: Label(target) },
            ],
        ),
        _ => None,
    }
}

#[verifier::opaque]
pub open spec fn branch_truth_rule(
    cx: &Cx,
    v: Operand,
    cc: CondCode,
    target: BlockId,
) -> Option<Seq<Inst>> {
    match (operand_width(cx, v), operand_src(v)) {
        (Some(width), Some(s)) => Some(
            seq![
                Inst::Cmp { width, lhs: s, rhs: Src::Imm(0) },
                Inst::Jcc { cc, target: Label(target) },
            ],
        ),
        _ => None,
    }
}

/// `if v goto L` and `if !v goto L`: a comparison with zero.
fn branch_truth(cx: &Cx, v: Operand, cc: CondCode, target: BlockId) -> (r: Option<Vec<Inst>>)
    ensures
        gives(r, branch_truth_rule(cx, v, cc, target)),
{
    proof {
        reveal(branch_truth_rule);
    }
    match (operand_width(cx, v), operand_src(v)) {
        (Some(width), Some(s)) => Some(
            vec![
                Inst::Cmp { width, lhs: s, rhs: Src::Imm(0) },
                Inst::Jcc { cc, target: Label(target) },
            ],
        ),
        _ => None,
    }
}

#[verifier::opaque]
pub open spec fn throw_exception_rule(exception: Operand) -> Option<Seq<Inst>> {
    match operand_src(exception) {
        Some(s) => Some(
            seq![
                Inst::Mov { width: Width::W64, dst: Place::Reg(Gpr::Rdi), src: s },
                Inst::CallHelper { id: CorInfoHelpFunc::Throw },
                Inst::Nop,
            ],
        ),
        None => None,
    }
}

/// The exception object in `rdi`, the helper that throws it, and a byte behind
/// the call that keeps its return address in the region.
fn throw_exception(exception: Operand) -> (r: Option<Vec<Inst>>)
    ensures
        gives(r, throw_exception_rule(exception)),
{
    proof {
        reveal(throw_exception_rule);
    }
    match operand_src(exception) {
        Some(s) => Some(
            vec![
                Inst::Mov { width: Width::W64, dst: Place::Reg(Gpr::Rdi), src: s },
                Inst::CallHelper { id: CorInfoHelpFunc::Throw },
                Inst::Nop,
            ],
        ),
        None => None,
    }
}

#[verifier::opaque]
pub open spec fn block_copy_rule(
    cx: &Cx,
    dst_addr: Operand,
    dst_offset: u32,
    src_addr: Operand,
    class: ClassHandle,
) -> Option<Seq<Inst>> {
    match (block_addr(dst_addr), block_addr(src_addr), cx.layout_of(class)) {
        (Some(dst), Some(src), Some(layout)) => Some(
            seq![Inst::BlockCopy { dst, dst_disp: dst_offset, src, size: layout.size }],
        ),
        _ => None,
    }
}

/// A struct copied.
fn block_copy(
    cx: &Cx,
    dst_addr: Operand,
    dst_offset: u32,
    src_addr: Operand,
    class: ClassHandle,
) -> (r: Option<Vec<Inst>>)
    ensures
        gives(r, block_copy_rule(cx, dst_addr, dst_offset, src_addr, class)),
{
    proof {
        reveal(block_copy_rule);
    }
    match (block_addr(dst_addr), block_addr(src_addr), cx.layout_of(class)) {
        (Some(dst), Some(src), Some(layout)) => Some(
            vec![Inst::BlockCopy { dst, dst_disp: dst_offset, src, size: layout.size }],
        ),
        _ => None,
    }
}

#[verifier::opaque]
pub open spec fn block_zero_rule(
    cx: &Cx,
    dst_addr: Operand,
    class: ClassHandle,
) -> Option<Seq<Inst>> {
    match (block_addr(dst_addr), cx.layout_of(class)) {
        (Some(dst), Some(layout)) => Some(
            seq![Inst::BlockZero { dst, dst_disp: 0, size: layout.size }],
        ),
        _ => None,
    }
}

/// A struct zeroed.
fn block_zero(cx: &Cx, dst_addr: Operand, class: ClassHandle) -> (r: Option<Vec<Inst>>)
    ensures
        gives(r, block_zero_rule(cx, dst_addr, class)),
{
    proof {
        reveal(block_zero_rule);
    }
    match (block_addr(dst_addr), cx.layout_of(class)) {
        (Some(dst), Some(layout)) => Some(
            vec![Inst::BlockZero { dst, dst_disp: 0, size: layout.size }],
        ),
        _ => None,
    }
}

#[verifier::opaque]
pub open spec fn block_copy_dyn_rule(
    dst_addr: Operand,
    src_addr: Operand,
    size: Operand,
) -> Option<Seq<Inst>> {
    match (block_addr(dst_addr), block_addr(src_addr), operand_src(size)) {
        (Some(dst), Some(src), Some(n)) => Some(seq![Inst::BlockCopyDyn { dst, src, size: n }]),
        _ => None,
    }
}

/// A copy of a size known at run time.
fn block_copy_dyn(dst_addr: Operand, src_addr: Operand, size: Operand) -> (r: Option<Vec<Inst>>)
    ensures
        gives(r, block_copy_dyn_rule(dst_addr, src_addr, size)),
{
    proof {
        reveal(block_copy_dyn_rule);
    }
    match (block_addr(dst_addr), block_addr(src_addr), operand_src(size)) {
        (Some(dst), Some(src), Some(n)) => Some(vec![Inst::BlockCopyDyn { dst, src, size: n }]),
        _ => None,
    }
}

#[verifier::opaque]
pub open spec fn block_fill_dyn_rule(
    dst_addr: Operand,
    fill: Operand,
    size: Operand,
) -> Option<Seq<Inst>> {
    match (block_addr(dst_addr), operand_src(fill), operand_src(size)) {
        (Some(dst), Some(f), Some(n)) => Some(
            seq![Inst::BlockFillDyn { dst, fill: f, size: n }],
        ),
        _ => None,
    }
}

/// A fill of a size known at run time.
fn block_fill_dyn(dst_addr: Operand, fill: Operand, size: Operand) -> (r: Option<Vec<Inst>>)
    ensures
        gives(r, block_fill_dyn_rule(dst_addr, fill, size)),
{
    proof {
        reveal(block_fill_dyn_rule);
    }
    match (block_addr(dst_addr), operand_src(fill), operand_src(size)) {
        (Some(dst), Some(f), Some(n)) => Some(
            vec![Inst::BlockFillDyn { dst, fill: f, size: n }],
        ),
        _ => None,
    }
}

#[verifier::opaque]
pub open spec fn loc_alloc_rule(dst: LocalId, size: Operand) -> Option<Seq<Inst>> {
    match operand_src(size) {
        Some(s) => Some(seq![Inst::LocAlloc { dst: Place::Val(Val(dst)), size: s }]),
        None => None,
    }
}

/// Memory from the stack.
fn loc_alloc(dst: LocalId, size: Operand) -> (r: Option<Vec<Inst>>)
    ensures
        gives(r, loc_alloc_rule(dst, size)),
{
    proof {
        reveal(loc_alloc_rule);
    }
    match operand_src(size) {
        Some(s) => Some(vec![Inst::LocAlloc { dst: Place::Val(Val(dst)), size: s }]),
        None => None,
    }
}

#[verifier::opaque]
pub open spec fn return_struct_rule(
    cx: &Cx,
    addr: Operand,
    class: ClassHandle,
) -> Option<Seq<Inst>> {
    match (block_addr(addr), cx.layout_of(class)) {
        (Some(a), Some(layout)) => if layout.sysv.passed_in_registers {
            match struct_return(layout.sysv.eightbytes) {
                StructRegs::Zero => Some(seq![Inst::Leave, Inst::Ret]),
                StructRegs::One(x) => match load_eightbyte(a, x) {
                    Some(first) => Some(seq![first, Inst::Leave, Inst::Ret]),
                    None => None,
                },
                StructRegs::Two(x, y) => match (load_eightbyte(a, x), load_eightbyte(a, y)) {
                    (Some(first), Some(second)) => Some(
                        seq![first, second, Inst::Leave, Inst::Ret],
                    ),
                    _ => None,
                },
            }
        } else {
            None
        },
        _ => None,
    }
}

/// A struct returned in registers: its eightbytes loaded, then the epilog.
fn return_struct(cx: &Cx, addr: Operand, class: ClassHandle) -> (r: Option<Vec<Inst>>)
    ensures
        gives(r, return_struct_rule(cx, addr, class)),
{
    proof {
        reveal(return_struct_rule);
    }
    match (block_addr(addr), cx.layout_of(class)) {
        (Some(a), Some(layout)) => if layout.sysv.passed_in_registers {
            match struct_return(layout.sysv.eightbytes) {
                StructRegs::Zero => Some(vec![Inst::Leave, Inst::Ret]),
                StructRegs::One(x) => match load_eightbyte(a, x) {
                    Some(first) => Some(vec![first, Inst::Leave, Inst::Ret]),
                    None => None,
                },
                StructRegs::Two(x, y) => match (load_eightbyte(a, x), load_eightbyte(a, y)) {
                    (Some(first), Some(second)) => Some(
                        vec![first, second, Inst::Leave, Inst::Ret],
                    ),
                    _ => None,
                },
            }
        } else {
            None
        },
        _ => None,
    }
}

#[verifier::opaque]
pub open spec fn return_value_rule(cx: &Cx, v: Operand) -> Option<Seq<Inst>> {
    match (operand_width(cx, v), operand_src(v)) {
        (Some(width), Some(s)) => Some(
            seq![
                Inst::Mov { width, dst: Place::Reg(Gpr::Rax), src: s },
                Inst::Leave,
                Inst::Ret,
            ],
        ),
        _ => None,
    }
}

/// `return v`: the result in `rax`, then the epilog.
fn return_value(cx: &Cx, v: Operand) -> (r: Option<Vec<Inst>>)
    ensures
        gives(r, return_value_rule(cx, v)),
{
    proof {
        reveal(return_value_rule);
    }
    match (operand_width(cx, v), operand_src(v)) {
        (Some(width), Some(s)) => Some(
            vec![
                Inst::Mov { width, dst: Place::Reg(Gpr::Rax), src: s },
                Inst::Leave,
                Inst::Ret,
            ],
        ),
        _ => None,
    }
}

#[verifier::opaque]
pub open spec fn return_value_f_rule(cx: &Cx, v: Operand) -> Option<Seq<Inst>> {
    match (operand_fwidth(cx, v), xmm_opnd(cx, v)) {
        (Some(width), Some(s)) => Some(
            seq![
                Inst::MovF { width, dst: XmmPlace::Reg(FLOAT_RETURN_REG), src: s },
                Inst::Leave,
                Inst::Ret,
            ],
        ),
        _ => None,
    }
}

/// `return f`: the result in `xmm0`, then the epilog.
fn return_value_f(cx: &Cx, v: Operand) -> (r: Option<Vec<Inst>>)
    ensures
        gives(r, return_value_f_rule(cx, v)),
{
    proof {
        reveal(return_value_f_rule);
    }
    match (operand_fwidth(cx, v), xmm_opnd(cx, v)) {
        (Some(width), Some(s)) => Some(
            vec![
                Inst::MovF { width, dst: XmmPlace::Reg(FLOAT_RETURN_REG), src: s },
                Inst::Leave,
                Inst::Ret,
            ],
        ),
        _ => None,
    }
}

/// The first of two rules that covers a statement.
pub open spec fn or_else(a: Option<Seq<Inst>>, b: Option<Seq<Inst>>) -> Option<Seq<Inst>> {
    if a is Some {
        a
    } else {
        b
    }
}

/// The moves for one argument of a call. A struct that goes to the stack is
/// copied there.
pub open spec fn arg_setup(cx: &Cx, ty: Type, arg: Operand, loc: ArgLocation) -> Option<Seq<Inst>> {
    match (ty, loc) {
        (Type::Struct(class), ArgLocation::Stack { offset }) => match (
            cx.layout_of(class),
            block_addr(arg),
        ) {
            (Some(layout), Some(addr)) => Some(
                seq![Inst::CopyStackArg { addr, offset, size: layout.size }],
            ),
            _ => None,
        },
        (Type::Struct(_), ArgLocation::Reg(_)) => None,
        _ => arg_move_rule(cx, arg, loc),
    }
}

/// The moves for the first `n` arguments of a call.
pub open spec fn arg_setups(cx: &Cx, sig: CallSig, args: Seq<Operand>, n: nat) -> Option<Seq<Inst>>
    decreases n,
{
    if n == 0 {
        Some(Seq::empty())
    } else {
        let types = all_args(sig);
        match (
            arg_setups(cx, sig, args, (n - 1) as nat),
            arg_setup(
                cx,
                types[n - 1],
                args[n - 1],
                location_of(types, *cx.layouts, (n - 1) as nat),
            ),
        ) {
            (Some(before), Some(last)) => Some(before + last),
            _ => None,
        }
    }
}

/// The arguments that a call passes: as many as both the signature and the
/// statement have.
pub open spec fn passed_args(sig: CallSig, args: Seq<Operand>) -> nat {
    if args.len() < all_args(sig).len() {
        args.len()
    } else {
        all_args(sig).len()
    }
}

/// A call: its argument moves, the call itself, and its result moves.
pub open spec fn call_rule(
    cx: &Cx,
    dst: Option<LocalId>,
    sig: CallSig,
    args: Seq<Operand>,
    call: Inst,
) -> Option<Seq<Inst>> {
    if classify_error(sig, *cx.layouts) is Some {
        None
    } else {
        let ret = return_location(sig.ret, layout_of_type(sig.ret, *cx.layouts))->Ok_0;
        match arg_setups(cx, sig, args, passed_args(sig, args)) {
            None => None,
            Some(moves) => match dst {
                None => Some(moves.push(call)),
                Some(d) => match result_move_rule(cx, ret, d) {
                    Some(result) => Some(moves.push(call) + result),
                    None => None,
                },
            },
        }
    }
}

/// The comparisons of the first `n` cases of a switch.
pub open spec fn switch_cases(s: Src, targets: Seq<BlockId>, n: nat) -> Seq<Inst>
    decreases n,
{
    if n == 0 {
        Seq::empty()
    } else {
        switch_cases(s, targets, (n - 1) as nat).push(
            Inst::Cmp { width: Width::W32, lhs: s, rhs: Src::Imm((n - 1) as i64) },
        ).push(Inst::Jcc { cc: CondCode::Eq, target: Label(targets[n - 1]) })
    }
}

/// A switch: a comparison for each case, then the jump to the default.
pub open spec fn switch_rule(value: Operand, targets: Seq<BlockId>, default: BlockId) -> Option<
    Seq<Inst>,
> {
    match operand_src(value) {
        Some(s) => Some(
            switch_cases(s, targets, targets.len()).push(Inst::Jmp { target: Label(default) }),
        ),
        None => None,
    }
}

/// The instructions of a statement, by the first rule that covers it.
pub open spec fn lowering(kind: StmtKind, cx: &Cx) -> Option<Seq<Inst>> {
    match kind {
        StmtKind::Copy { dst, src } => or_else(
            copy_const_rule(dst, src),
            or_else(
                copy_const_f_rule(cx, dst, src),
                or_else(
                    copy_addr_of_rule(dst, src),
                    or_else(copy_value_rule(cx, dst, src), copy_value_f_rule(cx, dst, src)),
                ),
            ),
        ),
        StmtKind::Load { dst, addr, offset, ty, access } => or_else(
            load_mem_rule(dst, addr, offset, ty, access),
            or_else(
                load_mem_f_rule(dst, addr, offset, ty, access),
                load_mem_narrow_rule(dst, addr, offset, access),
            ),
        ),
        StmtKind::Store { addr, offset, src, access } => or_else(
            store_mem_rule(cx, addr, offset, src, access),
            or_else(
                store_mem_f_rule(cx, addr, offset, src, access),
                store_mem_narrow_rule(addr, offset, src, access),
            ),
        ),
        StmtKind::NullCheck { arg } => null_check_rule(arg),
        StmtKind::BoundsCheck { array, index } => bounds_check_rule(cx, array, index),
        StmtKind::ArrLen { dst, array } => None,
        StmtKind::Binary { dst, op, lhs, rhs } => or_else(
            arith_rule(cx, dst, op, lhs, rhs),
            or_else(
                arith_f_rule(cx, dst, op, lhs, rhs),
                or_else(
                    divide_rule(cx, dst, op, lhs, rhs),
                    or_else(
                        divide_unsigned_rule(cx, dst, op, lhs, rhs),
                        or_else(
                            shift_rule(cx, dst, op, lhs, rhs),
                            or_else(
                                compare_value_rule(cx, dst, op, lhs, rhs),
                                compare_value_f_rule(cx, dst, op, lhs, rhs),
                            ),
                        ),
                    ),
                ),
            ),
        ),
        StmtKind::BinaryOvf { dst, op, unsigned, lhs, rhs } => arith_ovf_rule(
            cx,
            dst,
            op,
            unsigned,
            lhs,
            rhs,
        ),
        StmtKind::Unary { dst, op, src } => or_else(
            unary_rule(cx, dst, op, src),
            neg_f_rule(cx, dst, op, src),
        ),
        StmtKind::Conv { dst, to, overflow, unsigned, src } => or_else(
            conv_trunc_rule(cx, dst, to, unsigned, src),
            or_else(
                conv_ext_rule(cx, dst, to, unsigned, src),
                or_else(
                    conv_u64_to_f_rule(cx, dst, to, unsigned, src),
                    or_else(
                        conv_i_to_f_rule(cx, dst, to, unsigned, src),
                        or_else(
                            conv_f_to_i_rule(cx, dst, to, unsigned, src),
                            conv_f_to_f_rule(cx, dst, to, unsigned, src),
                        ),
                    ),
                ),
            ),
        ),
        StmtKind::ConvOvf { dst, dst_bits, signed_dst, unsigned_src, src } => conv_ovf_rule(
            cx,
            dst,
            dst_bits,
            signed_dst,
            unsigned_src,
            src,
        ),
        StmtKind::CkFinite { dst, src } => ckfinite_rule(cx, dst, src),
        StmtKind::Branch { cond, target } => match cond {
            BranchCond::Cmp { op, lhs, rhs } => or_else(
                branch_compare_rule(cx, op, lhs, rhs, target),
                branch_compare_f_rule(cx, op, lhs, rhs, target),
            ),
            BranchCond::True(v) => branch_truth_rule(cx, v, CondCode::Ne, target),
            BranchCond::False(v) => branch_truth_rule(cx, v, CondCode::Eq, target),
        },
        StmtKind::Jump { target } => Some(seq![Inst::Jmp { target: Label(target) }]),
        StmtKind::Switch { value, targets, default } => switch_rule(value, targets@, default),
        StmtKind::Call { dst, target, sig, args } => match target {
            CallTarget::Direct(method) => call_rule(
                cx,
                dst,
                sig,
                args@,
                Inst::CallDirect { method },
            ),
            CallTarget::Helper(id) => call_rule(cx, dst, sig, args@, Inst::CallHelper { id }),
            CallTarget::Indirect(addr) => match operand_src(addr) {
                Some(t) => call_rule(cx, dst, sig, args@, Inst::CallReg { target: t }),
                None => None,
            },
            CallTarget::Virtual { method } => None,
        },
        StmtKind::Throw { exception } => throw_exception_rule(exception),
        StmtKind::Rethrow => Some(
            seq![Inst::CallHelper { id: CorInfoHelpFunc::Rethrow }, Inst::Nop],
        ),
        StmtKind::Leave { target } => Some(seq![Inst::Jmp { target: Label(target) }]),
        StmtKind::CallFinally { funclet, continuation } => Some(
            seq![
                Inst::CallLabel { target: Label(funclet) },
                Inst::Nop,
                Inst::Jmp { target: Label(continuation) },
            ],
        ),
        StmtKind::CatchArg { dst } => Some(
            seq![
                Inst::Mov {
                    width: Width::W64,
                    dst: Place::Val(Val(dst)),
                    src: Src::Reg(Gpr::Rdi),
                },
            ],
        ),
        StmtKind::EndFinally => Some(seq![Inst::FuncletEpilog]),
        StmtKind::BlockCopy { dst_addr, dst_offset, src_addr, class } => block_copy_rule(
            cx,
            dst_addr,
            dst_offset,
            src_addr,
            class,
        ),
        StmtKind::BlockZero { dst_addr, class } => block_zero_rule(cx, dst_addr, class),
        StmtKind::BlockCopyDyn { dst_addr, src_addr, size } => block_copy_dyn_rule(
            dst_addr,
            src_addr,
            size,
        ),
        StmtKind::BlockFillDyn { dst_addr, fill, size } => block_fill_dyn_rule(
            dst_addr,
            fill,
            size,
        ),
        StmtKind::LocAlloc { dst, size } => loc_alloc_rule(dst, size),
        StmtKind::ReturnStruct { addr, class } => return_struct_rule(cx, addr, class),
        StmtKind::Return { value } => match value {
            Some(v) => or_else(return_value_rule(cx, v), return_value_f_rule(cx, v)),
            None => Some(seq![Inst::Leave, Inst::Ret]),
        },
    }
}

/// The moves for one argument.
fn set_up_arg(cx: &Cx, ty: Type, arg: Operand, loc: ArgLocation) -> (r: Option<Vec<Inst>>)
    ensures
        gives(r, arg_setup(cx, ty, arg, loc)),
{
    match (ty, loc) {
        (Type::Struct(class), ArgLocation::Stack { offset }) => match (
            cx.layout_of(class),
            block_addr(arg),
        ) {
            (Some(layout), Some(addr)) => Some(
                vec![Inst::CopyStackArg { addr, offset, size: layout.size }],
            ),
            _ => None,
        },
        (Type::Struct(_), ArgLocation::Reg(_)) => None,
        _ => arg_move(cx, arg, loc),
    }
}

/// The moves for the arguments of a call, in order.
fn arg_moves(cx: &Cx, sig: &CallSig, args: &Vec<Operand>, abi: &CallAbi) -> (r: Option<Vec<Inst>>)
    requires
        is_abi_of(*abi, *sig, *cx.layouts),
    ensures
        gives(r, arg_setups(cx, *sig, args@, passed_args(*sig, args@))),
{
    let ghost types = all_args(*sig);
    let mut out: Vec<Inst> = Vec::new();
    let mut n: usize = 0;
    while n < args.len() && n < abi.args.len()
        invariant
            n <= args.len(),
            n <= abi.args.len(),
            abi.args.len() == types.len(),
            types == all_args(*sig),
            is_abi_of(*abi, *sig, *cx.layouts),
            arg_setups(cx, *sig, args@, n as nat) == Some(out@),
        decreases args.len() - n,
    {
        let ty: Type = if sig.has_this {
            if n == 0 {
                Type::Ref
            } else {
                sig.args[n - 1]
            }
        } else {
            sig.args[n]
        };
        assert(ty == types[n as int]);
        assert(abi.args[n as int] == location_of(types, *cx.layouts, n as nat));
        match set_up_arg(cx, ty, args[n], abi.args[n]) {
            Some(more) => {
                let mut more: Vec<Inst> = more;
                out.append(&mut more);
            },
            None => {
                proof {
                    lemma_setups_fail(cx, *sig, args@, (n + 1) as nat, passed_args(*sig, args@));
                }
                return None;
            },
        }
        n = n + 1;
    }
    Some(out)
}

/// A call that cannot set up an argument cannot be lowered.
proof fn lemma_setups_fail(cx: &Cx, sig: CallSig, args: Seq<Operand>, n: nat, m: nat)
    requires
        n <= m,
        arg_setups(cx, sig, args, n) is None,
    ensures
        arg_setups(cx, sig, args, m) is None,
    decreases m,
{
    if n < m {
        lemma_setups_fail(cx, sig, args, n, (m - 1) as nat);
    }
}

/// The moves that store the result of a call.
fn call_result_move(cx: &Cx, abi: &CallAbi, dst: LocalId) -> (r: Option<Vec<Inst>>)
    ensures
        gives(r, result_move_rule(cx, abi.ret, dst)),
{
    result_move(cx, abi.ret, dst)
}

/// A call.
fn lower_call(
    cx: &Cx,
    dst: Option<LocalId>,
    sig: &CallSig,
    args: &Vec<Operand>,
    call: Inst,
) -> (r: Option<Vec<Inst>>)
    ensures
        gives(r, call_rule(cx, dst, *sig, args@, call)),
{
    let abi: CallAbi = match classify_call(sig, cx.layouts) {
        Ok(abi) => abi,
        Err(_) => return None,
    };
    let mut insts: Vec<Inst> = arg_moves(cx, sig, args, &abi)?;
    insts.push(call);
    if let Some(d) = dst {
        let mut result: Vec<Inst> = call_result_move(cx, &abi, d)?;
        insts.append(&mut result);
    }
    Some(insts)
}

/// A switch.
fn lower_switch(value: Operand, targets: &Vec<BlockId>, default: BlockId) -> (r: Option<Vec<Inst>>)
    ensures
        gives(r, switch_rule(value, targets@, default)),
{
    let s: Src = operand_src(value)?;
    let mut insts: Vec<Inst> = Vec::new();
    let mut n: usize = 0;
    while n < targets.len()
        invariant
            n <= targets.len(),
            insts@ == switch_cases(s, targets@, n as nat),
        decreases targets.len() - n,
    {
        insts.push(
            Inst::Cmp {
                width: Width::W32,
                lhs: s,
                rhs: Src::Imm(
                    #[verifier::truncate]
                    (n as i64),
                ),
            },
        );
        insts.push(Inst::Jcc { cc: CondCode::Eq, target: Label(targets[n]) });
        n = n + 1;
    }
    insts.push(Inst::Jmp { target: Label(default) });
    Some(insts)
}

/// The first result that is there.
fn either(a: Option<Vec<Inst>>, b: Option<Vec<Inst>>) -> (r: Option<Vec<Inst>>)
    ensures
        r == (if a is Some {
            a
        } else {
            b
        }),
{
    if a.is_some() {
        a
    } else {
        b
    }
}

/// A binary operation.
fn lower_binary(cx: &Cx, dst: LocalId, op: BinaryOp, lhs: Operand, rhs: Operand) -> (r: Option<
    Vec<Inst>,
>)
    ensures
        gives(r, lowering(StmtKind::Binary { dst, op, lhs, rhs }, cx)),
{
    either(
        arith(cx, dst, op, lhs, rhs),
        either(
            arith_f(cx, dst, op, lhs, rhs),
            either(
                divide(cx, dst, op, lhs, rhs),
                either(
                    divide_unsigned(cx, dst, op, lhs, rhs),
                    either(
                        shift(cx, dst, op, lhs, rhs),
                        either(
                            compare_value(cx, dst, op, lhs, rhs),
                            compare_value_f(cx, dst, op, lhs, rhs),
                        ),
                    ),
                ),
            ),
        ),
    )
}

/// A conversion.
fn lower_conv(
    cx: &Cx,
    dst: LocalId,
    to: Type,
    unsigned: bool,
    src: Operand,
) -> (r: Option<Vec<Inst>>)
    ensures
        gives(r, lowering(StmtKind::Conv { dst, to, overflow: false, unsigned, src }, cx)),
{
    either(
        conv_trunc(cx, dst, to, unsigned, src),
        either(
            conv_ext(cx, dst, to, unsigned, src),
            either(
                conv_u64_to_f(cx, dst, to, unsigned, src),
                either(
                    conv_i_to_f(cx, dst, to, unsigned, src),
                    either(
                        conv_f_to_i(cx, dst, to, unsigned, src),
                        conv_f_to_f(cx, dst, to, unsigned, src),
                    ),
                ),
            ),
        ),
    )
}

/// Lower one statement, by the first rule that covers it.
pub fn lower_stmt(stmt: &Stmt, cx: &Cx) -> (r: Option<Vec<Inst>>)
    ensures
        gives(r, lowering(stmt.kind, cx)),
{
    match &stmt.kind {
        StmtKind::Copy { dst, src } => either(
            copy_const(*dst, *src),
            either(
                copy_const_f(cx, *dst, *src),
                either(
                    copy_addr_of(*dst, *src),
                    either(copy_value(cx, *dst, *src), copy_value_f(cx, *dst, *src)),
                ),
            ),
        ),
        StmtKind::Load { dst, addr, offset, ty, access } => either(
            load_mem(*dst, *addr, *offset, *ty, *access),
            either(
                load_mem_f(*dst, *addr, *offset, *ty, *access),
                load_mem_narrow(*dst, *addr, *offset, *access),
            ),
        ),
        StmtKind::Store { addr, offset, src, access } => either(
            store_mem(cx, *addr, *offset, *src, *access),
            either(
                store_mem_f(cx, *addr, *offset, *src, *access),
                store_mem_narrow(*addr, *offset, *src, *access),
            ),
        ),
        StmtKind::NullCheck { arg } => null_check(*arg),
        StmtKind::BoundsCheck { array, index } => bounds_check(cx, *array, *index),
        StmtKind::ArrLen { .. } => None,
        StmtKind::Binary { dst, op, lhs, rhs } => lower_binary(cx, *dst, *op, *lhs, *rhs),
        StmtKind::BinaryOvf { dst, op, unsigned, lhs, rhs } => arith_ovf(
            cx,
            *dst,
            *op,
            *unsigned,
            *lhs,
            *rhs,
        ),
        StmtKind::Unary { dst, op, src } => either(
            unary(cx, *dst, *op, *src),
            neg_f(cx, *dst, *op, *src),
        ),
        StmtKind::Conv { dst, to, unsigned, src, .. } => lower_conv(
            cx,
            *dst,
            *to,
            *unsigned,
            *src,
        ),
        StmtKind::ConvOvf { dst, dst_bits, signed_dst, unsigned_src, src } => conv_ovf(
            cx,
            *dst,
            *dst_bits,
            *signed_dst,
            *unsigned_src,
            *src,
        ),
        StmtKind::CkFinite { dst, src } => ckfinite(cx, *dst, *src),
        StmtKind::Branch { cond, target } => match cond {
            BranchCond::Cmp { op, lhs, rhs } => either(
                branch_compare(cx, *op, *lhs, *rhs, *target),
                branch_compare_f(cx, *op, *lhs, *rhs, *target),
            ),
            BranchCond::True(v) => branch_truth(cx, *v, CondCode::Ne, *target),
            BranchCond::False(v) => branch_truth(cx, *v, CondCode::Eq, *target),
        },
        StmtKind::Jump { target } => Some(vec![Inst::Jmp { target: Label(*target) }]),
        StmtKind::Switch { value, targets, default } => lower_switch(*value, targets, *default),
        StmtKind::Call { dst, target, sig, args } => match target {
            CallTarget::Direct(method) => lower_call(
                cx,
                *dst,
                sig,
                args,
                Inst::CallDirect { method: *method },
            ),
            CallTarget::Helper(id) => lower_call(
                cx,
                *dst,
                sig,
                args,
                Inst::CallHelper { id: *id },
            ),
            CallTarget::Indirect(addr) => match operand_src(*addr) {
                Some(t) => lower_call(cx, *dst, sig, args, Inst::CallReg { target: t }),
                None => None,
            },
            CallTarget::Virtual { .. } => None,
        },
        StmtKind::Throw { exception } => throw_exception(*exception),
        StmtKind::Rethrow => Some(
            vec![Inst::CallHelper { id: CorInfoHelpFunc::Rethrow }, Inst::Nop],
        ),
        StmtKind::Leave { target } => Some(vec![Inst::Jmp { target: Label(*target) }]),
        StmtKind::CallFinally { funclet, continuation } => Some(
            vec![
                Inst::CallLabel { target: Label(*funclet) },
                Inst::Nop,
                Inst::Jmp { target: Label(*continuation) },
            ],
        ),
        StmtKind::CatchArg { dst } => Some(
            vec![
                Inst::Mov {
                    width: Width::W64,
                    dst: Place::Val(Val(*dst)),
                    src: Src::Reg(Gpr::Rdi),
                },
            ],
        ),
        StmtKind::EndFinally => Some(vec![Inst::FuncletEpilog]),
        StmtKind::BlockCopy { dst_addr, dst_offset, src_addr, class } => block_copy(
            cx,
            *dst_addr,
            *dst_offset,
            *src_addr,
            *class,
        ),
        StmtKind::BlockZero { dst_addr, class } => block_zero(cx, *dst_addr, *class),
        StmtKind::BlockCopyDyn { dst_addr, src_addr, size } => block_copy_dyn(
            *dst_addr,
            *src_addr,
            *size,
        ),
        StmtKind::BlockFillDyn { dst_addr, fill, size } => block_fill_dyn(
            *dst_addr,
            *fill,
            *size,
        ),
        StmtKind::LocAlloc { dst, size } => loc_alloc(*dst, *size),
        StmtKind::ReturnStruct { addr, class } => return_struct(cx, *addr, *class),
        StmtKind::Return { value } => match value {
            Some(v) => either(return_value(cx, *v), return_value_f(cx, *v)),
            None => Some(vec![Inst::Leave, Inst::Ret]),
        },
    }
}

/// The facts of a frame that its prolog depends on: none, there is one shape.
pub struct FrameReq;

/// `push rbp; mov rbp, rsp; sub rsp, <frame size>`.
pub open spec fn frame_prolog() -> Seq<Inst> {
    seq![
        Inst::Push { reg: FRAME_POINTER },
        Inst::Mov {
            width: Width::W64,
            dst: Place::Reg(FRAME_POINTER),
            src: Src::Reg(STACK_POINTER),
        },
        Inst::AllocFrame,
    ]
}

/// The prolog.
pub fn lower_frame(req: &FrameReq, cx: &Cx) -> (r: Option<Vec<Inst>>)
    ensures
        gives(r, Some(frame_prolog())),
{
    Some(
        vec![
            Inst::Push { reg: FRAME_POINTER },
            Inst::Mov {
                width: Width::W64,
                dst: Place::Reg(FRAME_POINTER),
                src: Src::Reg(STACK_POINTER),
            },
            Inst::AllocFrame,
        ],
    )
}

/// The instructions that leave a catch block.
pub open spec fn catch_exit(target: BlockId) -> Seq<Inst> {
    seq![Inst::LeaLabel { dst: Gpr::Rax, target: Label(target) }, Inst::FuncletEpilog]
}

/// `leave` out of a catch handler: the funclet returns the address at which
/// the method goes on.
pub fn catch_leave(target: BlockId) -> (insts: Vec<Inst>)
    ensures
        insts@ == seq![
            Inst::LeaLabel { dst: Gpr::Rax, target: Label(target) },
            Inst::FuncletEpilog,
        ],
        insts@ == catch_exit(target),
{
    vec![Inst::LeaLabel { dst: Gpr::Rax, target: Label(target) }, Inst::FuncletEpilog]
}

/// The instructions of the first `n` statements of a block, if all of them can
/// be lowered.
pub open spec fn block_lowering(stmts: Seq<Stmt>, cx: &Cx, n: nat) -> Option<Seq<Inst>>
    decreases n,
{
    if n == 0 {
        Some(Seq::empty())
    } else {
        match (
            block_lowering(stmts, cx, (n - 1) as nat),
            lowering(stmts[n - 1].kind, cx),
        ) {
            (Some(before), Some(last)) => Some(before + last),
            _ => None,
        }
    }
}

/// The lowered form of a block.
pub open spec fn is_lowered_block(lowered: LoweredBlock, block: Block, cx: &Cx) -> bool {
    lowered.id == block.id && block_lowering(block.stmts@, cx, block.stmts@.len()) == Some(
        lowered.insts@,
    )
}

fn lower_block(block: &Block, cx: &Cx) -> (r: Option<LoweredBlock>)
    ensures
        match r {
            Some(lowered) => is_lowered_block(lowered, *block, cx),
            None => block_lowering(block.stmts@, cx, block.stmts@.len()) is None,
        },
{
    let mut insts: Vec<Inst> = Vec::new();
    let mut n: usize = 0;
    while n < block.stmts.len()
        invariant
            n <= block.stmts.len(),
            block_lowering(block.stmts@, cx, n as nat) == Some(insts@),
        decreases block.stmts.len() - n,
    {
        match lower_stmt(&block.stmts[n], cx) {
            Some(more) => {
                let mut more: Vec<Inst> = more;
                insts.append(&mut more);
            },
            None => {
                proof {
                    lemma_block_fails(block.stmts@, cx, (n + 1) as nat, block.stmts@.len());
                }
                return None;
            },
        }
        n = n + 1;
    }
    Some(LoweredBlock { id: block.id, insts })
}

/// A block with a statement that cannot be lowered cannot be lowered.
proof fn lemma_block_fails(stmts: Seq<Stmt>, cx: &Cx, n: nat, m: nat)
    requires
        n <= m,
        block_lowering(stmts, cx, n) is None,
    ensures
        block_lowering(stmts, cx, m) is None,
    decreases m,
{
    if n < m {
        lemma_block_fails(stmts, cx, n, (m - 1) as nat);
    }
}

/// Every statement of every block can be lowered.
pub open spec fn method_lowers(method: Method) -> bool {
    let cx = Cx { locals: &method.locals, layouts: &method.struct_layouts };
    forall|i: int|
        0 <= i < method.blocks.len() ==> block_lowering(
            (#[trigger] method.blocks[i]).stmts@,
            &cx,
            method.blocks[i].stmts@.len(),
        ) is Some
}

/// Lower a whole method.
pub fn lower_method(method: &Method) -> (r: CompileResult<LoweredMethod>)
    ensures
        match r {
            Ok(m) => {
                &&& method_lowers(*method)
                &&& m.prolog@ == frame_prolog()
                &&& m.blocks.len() == method.blocks.len()
                &&& forall|i: int|
                    0 <= i < m.blocks.len() ==> is_lowered_block(
                        #[trigger] m.blocks[i],
                        method.blocks[i],
                        &Cx { locals: &method.locals, layouts: &method.struct_layouts },
                    )
            },
            Err(e) => !method_lowers(*method) && e == CompileError::Unsupported(
                "no x64 lowering rule matched an LIR statement",
            ),
        },
{
    let cx: Cx = Cx::new(&method.locals, &method.struct_layouts);
    let prolog: Vec<Inst> = match lower_frame(&FrameReq, &cx) {
        Some(prolog) => prolog,
        None => return Err(CompileError::Internal("the catch-all frame rule must match")),
    };
    let mut blocks: Vec<LoweredBlock> = Vec::new();
    let mut n: usize = 0;
    while n < method.blocks.len()
        invariant
            n <= method.blocks.len(),
            cx == (Cx { locals: &method.locals, layouts: &method.struct_layouts }),
            blocks.len() == n,
            forall|i: int|
                0 <= i < n ==> is_lowered_block(#[trigger] blocks[i], method.blocks[i], &cx),
        decreases method.blocks.len() - n,
    {
        match lower_block(&method.blocks[n], &cx) {
            Some(block) => blocks.push(block),
            None => {
                assert(block_lowering(
                    method.blocks@[n as int].stmts@,
                    &cx,
                    method.blocks@[n as int].stmts@.len(),
                ) is None);
                return Err(
                    CompileError::Unsupported("no x64 lowering rule matched an LIR statement"),
                );
            },
        }
        n = n + 1;
    }
    proof {
        assert forall|i: int| 0 <= i < method.blocks.len() implies block_lowering(
            (#[trigger] method.blocks[i]).stmts@,
            &cx,
            method.blocks[i].stmts@.len(),
        ) is Some by {
            assert(is_lowered_block(blocks[i], method.blocks[i], &cx));
        }
    }
    Ok(LoweredMethod { prolog, blocks })
}

} // verus!
