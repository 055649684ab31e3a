//! Binding: instruction descriptors to instructions with physical operands.
//!
//! Where a value lies at a given moment, which scratch register is free, and
//! what must be moved out of the way is decided by a value machine outside of
//! this library; the addresses of methods and helpers come from the execution
//! engine. A [`Binder`] binds one descriptor. It works on the replies that it
//! was given, in the order of its requests. Where they do not suffice, it stops
//! with the next [`Request`], and the descriptor is bound anew once that reply
//! is there too.

use crate::encode::{AluOp, Mem, Rm, RmX, Rmi};
use crate::encode::{fits_i32, not_mem_mem};
use crate::error::CompileError;
use crate::inst::{
    Amode, ArithFOp, ArithOp, CondCode, FWidth, Inst, Place, ShiftOp, Src, Width, XmmPlace, XmmSrc,
};
use crate::ir::{BinaryOp, BlockId, CorInfoHelpFunc, Label, LocalId, MethodHandle, Type, UnaryOp};
use crate::lower::width_of_ty;
use crate::regs::{Gpr, Xmm, FRAME_POINTER, STACK_POINTER};
use crate::target::PhysReg;
use vstd::prelude::*;

verus! {

/// The float scratch registers. No argument is passed in them.
pub const SCRATCH_XMM_A: Xmm = Xmm::Xmm15;

pub const SCRATCH_XMM_B: Xmm = Xmm::Xmm14;

/// The first label that is no block. Block numbers are small; such labels count
/// down from here.
pub const FIRST_SYNTHETIC_LABEL: u32 = 0x8000_0000;

/// Where the value of a temporary lies.
#[derive(Clone, Copy, PartialEq, Eq, Structural, Debug)]
pub enum Loc {
    Reg(PhysReg),
    /// At a frame offset.
    Mem(u32),
    /// In the slot of a local.
    Local(LocalId),
    Const(i64),
}

/// Where a value is read from.
#[derive(Clone, Copy, PartialEq, Eq, Structural, Debug)]
pub enum ReadSrc {
    Reg(PhysReg),
    /// At a frame offset.
    Slot(u32),
    Imm(i64),
}

/// A move that the value machine wants made.
#[derive(Clone, Copy, PartialEq, Eq, Structural, Debug)]
pub enum Move {
    Spill { reg: PhysReg, slot: u32, ty: Type },
    Reload { slot: u32, ty: Type, reg: PhysReg },
    Remat { imm: i64, reg: PhysReg, ty: Type },
}

/// The registers that a scratch register must not be.
#[derive(Clone, Copy, PartialEq, Eq, Structural, Debug)]
pub enum Exclude {
    Nothing,
    One(PhysReg),
    Two(PhysReg, PhysReg),
}

/// What the emission needs to know.
#[derive(Clone, Copy, PartialEq, Eq, Structural, Debug)]
pub enum Request {
    /// The register is about to be overwritten: the moves that save its value.
    Clobber(PhysReg),
    /// A scratch register, and the moves that free it.
    TakeScratch(Exclude),
    /// Where a value is read from.
    Read(LocalId),
    /// The temporary lies there now: the moves that this takes.
    Define(LocalId, Loc),
    /// The local is about to be written: the moves that save the values that
    /// are read from its slot.
    BeforeLocalWrite(LocalId),
    /// The moves that empty all registers.
    SpillRegisters,
    /// The moves that bring every value to its slot.
    SpillAll,
    /// A block begins: every value is in its slot.
    Reset,
    /// The address of a method.
    EntryPoint(MethodHandle),
    /// The address of a helper.
    HelperEntry(CorInfoHelpFunc),
}

/// The answer to a [`Request`].
#[derive(Debug)]
pub enum Reply {
    Moves(Vec<Move>),
    Scratch { reg: PhysReg, moves: Vec<Move> },
    Source(ReadSrc),
    Target(Lookup),
    Done,
}

/// How a call reaches its target: at an address, or through a slot that holds
/// it.
#[derive(Clone, Copy, PartialEq, Eq, Structural, Debug)]
pub struct Lookup {
    pub addr: Option<u64>,
    pub slot: Option<u64>,
}

/// Why a binding stopped.
#[derive(Clone, Copy, PartialEq, Eq, Debug)]
pub enum Stop {
    /// A reply is missing.
    Ask(Request),
    Fail(CompileError),
}

#[derive(Clone, Copy, PartialEq, Eq, Structural, Debug)]
pub enum CallForm {
    /// `call target`.
    Direct,
    /// `call [slot]`.
    Indirect,
}

/// An instruction with physical operands.
#[derive(Clone, Copy, PartialEq, Eq, Structural, Debug)]
#[allow(inconsistent_fields)]
pub enum Op {
    Mov { width: Width, dst: Rm, src: Rmi },
    Lea { dst: Gpr, addr: Mem },
    Alu { op: AluOp, width: Width, dst: Rm, src: Rmi },
    Neg { width: Width, dst: Rm },
    Not { width: Width, dst: Rm },
    Div { width: Width, divisor: Rm },
    Idiv { width: Width, divisor: Rm },
    ShiftCl { op: ShiftOp, width: Width, dst: Rm },
    ShiftImm { op: ShiftOp, width: Width, dst: Rm, count: i64 },
    Setcc { cc: CondCode, dst: Gpr },
    Movsxd { dst: Gpr, src: Rm },
    Imul { width: Width, dst: Gpr, src: Rm },
    ImulImm { width: Width, dst: Gpr, lhs: Rm, imm: i64 },
    Cdq { width: Width },
    MovFLoad { width: FWidth, dst: Xmm, src: RmX },
    MovFStore { width: FWidth, dst: Mem, src: Xmm },
    ArithF { op: ArithFOp, width: FWidth, dst: Xmm, src: RmX },
    Ucomis { width: FWidth, lhs: Xmm, rhs: RmX },
    XorF { width: FWidth, dst: Xmm, src: RmX },
    Cvtsi2s { width: FWidth, dst: Xmm, src: Rm, src_w64: bool },
    Cvtts2si { width: FWidth, dst: Gpr, src: RmX, dst_w64: bool },
    Cvts2s { to: FWidth, dst: Xmm, src: RmX },
    MovGprToXmm { width: FWidth, dst: Xmm, src: Gpr },
    Jcc { cc: CondCode, target: Label },
    Jmp { target: Label },
    Bind { label: Label },
    Call { form: CallForm, method: Option<MethodHandle>, target: u64 },
    Push { reg: Gpr },
    Leave,
    Ret,
}

/// The instruction has an encoding, and the encoding holds its immediate: 32 bits
/// that a 64-bit instruction extends. Only a move to a register holds more.
pub open spec fn op_valid(op: Op) -> bool {
    op_encodes(op) && match op {
        Op::Mov { width, dst, src } => not_mem_mem(dst, src) && (dst is Mem ==> imm_fits(
            width,
            src,
        )),
        Op::Alu { width, dst, src, .. } => not_mem_mem(dst, src) && imm_fits(width, src),
        Op::ImulImm { imm, .. } => fits_i32(imm as int),
        _ => true,
    }
}

/// Every memory operand of the instruction has an encoding.
pub open spec fn op_encodes(op: Op) -> bool {
    match op {
        Op::Mov { dst, src, .. } => rm_encodes(dst) && rmi_encodes(src),
        Op::Lea { addr, .. } => mem_encodes(addr),
        Op::Alu { dst, src, .. } => rm_encodes(dst) && rmi_encodes(src),
        Op::Neg { dst, .. } => rm_encodes(dst),
        Op::Not { dst, .. } => rm_encodes(dst),
        Op::Div { divisor, .. } => rm_encodes(divisor),
        Op::Idiv { divisor, .. } => rm_encodes(divisor),
        Op::ShiftCl { dst, .. } => rm_encodes(dst),
        Op::ShiftImm { dst, .. } => rm_encodes(dst),
        Op::Movsxd { src, .. } => rm_encodes(src),
        Op::Imul { src, .. } => rm_encodes(src),
        Op::ImulImm { lhs, .. } => rm_encodes(lhs),
        Op::MovFLoad { src, .. } => rmx_encodes(src),
        Op::MovFStore { dst, .. } => mem_encodes(dst),
        Op::ArithF { src, .. } => rmx_encodes(src),
        Op::Ucomis { rhs, .. } => rmx_encodes(rhs),
        Op::XorF { src, .. } => rmx_encodes(src),
        Op::Cvtsi2s { src, .. } => rm_encodes(src),
        Op::Cvtts2si { src, .. } => rmx_encodes(src),
        Op::Cvts2s { src, .. } => rmx_encodes(src),
        _ => true,
    }
}

/// The operand has an encoding: `rsp` is no index.
pub open spec fn mem_encodes(m: Mem) -> bool {
    m.index is Some ==> m.index->0.reg != Gpr::Rsp
}

pub open spec fn rm_encodes(rm: Rm) -> bool {
    rm is Mem ==> mem_encodes(rm->Mem_0)
}

pub open spec fn rmi_encodes(rmi: Rmi) -> bool {
    rmi is Mem ==> mem_encodes(rmi->Mem_0)
}

pub open spec fn rmx_encodes(rm: RmX) -> bool {
    rm is Mem ==> mem_encodes(rm->Mem_0)
}

/// An immediate fits 32 bits, where the instruction has 64. A 32-bit instruction
/// takes the low half.
pub open spec fn imm_fits(width: Width, src: Rmi) -> bool {
    match (width, src) {
        (Width::W64, Rmi::Imm(i)) => fits_i32(i as int),
        _ => true,
    }
}

/// What binding knows of the method.
#[derive(Debug)]
pub struct Facts {
    /// The type of each local.
    pub types: Vec<Type>,
    /// The frame offset of each local.
    pub slots: Vec<u32>,
    /// The arguments and IL locals come before the temporaries.
    pub num_frame_fixed: u64,
    pub frame_size: u32,
}

/// What one binding works on.
pub struct Ctx {
    pub types: Seq<Type>,
    pub slots: Seq<u32>,
    pub num_frame_fixed: u64,
    pub frame_size: u32,
    pub replies: Seq<Reply>,
}

impl Facts {
    /// These facts, with replies.
    pub open spec fn with(self, replies: Seq<Reply>) -> Ctx {
        Ctx {
            types: self.types@,
            slots: self.slots@,
            num_frame_fixed: self.num_frame_fixed,
            frame_size: self.frame_size,
            replies,
        }
    }
}

/// How far a binding has come.
#[verifier::ext_equal]
pub struct Bound {
    /// The replies used.
    pub next: nat,
    /// The instructions so far.
    pub ops: Seq<Op>,
    /// The next label that is no block.
    pub synthetic: u32,
    /// The requests that were answered, one reply each.
    pub asked: Seq<Asked>,
}

/// A request, and the number of instructions that were emitted before it.
pub struct Asked {
    pub request: Request,
    pub emitted: nat,
}

impl Bound {
    pub open spec fn emit(self, op: Op) -> Bound {
        Bound { ops: self.ops.push(op), ..self }
    }

    /// With one more reply used: the answer to `request`.
    pub open spec fn used(self, request: Request) -> Bound {
        Bound {
            next: self.next + 1,
            asked: self.asked.push(Asked { request, emitted: self.ops.len() }),
            ..self
        }
    }

    /// It stops here.
    pub open spec fn halt<T>(self, stop: Stop) -> Step<T> {
        Err(Halt { at: self, stop })
    }
}

/// A binding that stopped: how far it came, and why it stopped.
pub struct Halt {
    pub at: Bound,
    pub stop: Stop,
}

/// A part of a binding: how far it came, with what result or why it stopped.
pub type Step<T> = Result<(Bound, T), Halt>;

/// How far a part of a binding came that did not stop.
pub open spec fn bound_at<T>(s: Step<T>) -> Bound {
    match s {
        Ok((b, _)) => b,
        Err(_) => arbitrary(),
    }
}

/// The result of a part of a binding.
pub open spec fn outcome<T>(s: Step<T>) -> T {
    match s {
        Ok((_, v)) => v,
        Err(_) => arbitrary(),
    }
}

/// `r` is the outcome `s`, and `b` is how far it came.
pub open spec fn answers<T>(r: Result<T, Stop>, b: Bound, s: Step<T>) -> bool {
    match r {
        Ok(v) => s == Ok::<(Bound, T), Halt>((b, v)),
        Err(stop) => s == b.halt::<T>(stop),
    }
}

pub open spec fn slot_disp_spec(offset: u32) -> i32 {
    if offset <= 0x8000_0000 {
        (-(offset as i64)) as i32
    } else {
        (0x1_0000_0000i64 - offset as i64) as i32
    }
}

/// A frame offset as a displacement from the frame pointer.
#[verifier::when_used_as_spec(slot_disp_spec)]
pub fn slot_disp(offset: u32) -> (r: i32)
    ensures
        r == slot_disp_spec(offset),
{
    if offset <= 0x8000_0000 {
        (-(offset as i64)) as i32
    } else {
        (0x1_0000_0000i64 - offset as i64) as i32
    }
}

pub open spec fn slot_mem_spec(offset: u32) -> Mem {
    Mem { base: Some(FRAME_POINTER), index: None, disp: slot_disp(offset) }
}

/// The slot at a frame offset.
#[verifier::when_used_as_spec(slot_mem_spec)]
pub fn slot_mem(offset: u32) -> (r: Mem)
    ensures
        r == slot_mem_spec(offset),
{
    Mem { base: Some(FRAME_POINTER), index: None, disp: slot_disp(offset) }
}

pub open spec fn is_gc_spec(ty: Type) -> bool {
    match ty {
        Type::Ref | Type::ByRef => true,
        _ => false,
    }
}

/// The type is a GC pointer.
#[verifier::when_used_as_spec(is_gc_spec)]
pub fn is_gc(ty: Type) -> (r: bool)
    ensures
        r == is_gc_spec(ty),
{
    match ty {
        Type::Ref | Type::ByRef => true,
        _ => false,
    }
}

pub open spec fn wide_imm_of_spec(width: Width, rmi: Rmi) -> Option<i64> {
    match (width, rmi) {
        (Width::W64, Rmi::Imm(i)) => if i < -0x8000_0000 || i > 0x7FFF_FFFF {
            Some(i)
        } else {
            None
        },
        _ => None,
    }
}

/// An immediate that a 64-bit instruction cannot hold.
#[verifier::when_used_as_spec(wide_imm_of_spec)]
pub fn wide_imm_of(width: Width, rmi: Rmi) -> (r: Option<i64>)
    ensures
        r == wide_imm_of_spec(width, rmi),
{
    match (width, rmi) {
        (Width::W64, Rmi::Imm(i)) => if i < -0x8000_0000 || i > 0x7FFF_FFFF {
            Some(i)
        } else {
            None
        },
        _ => None,
    }
}

pub open spec fn is_small_imm_spec(src: Src) -> bool {
    match src {
        Src::Imm(i) => -0x8000_0000 <= i && i <= 0x7FFF_FFFF,
        _ => false,
    }
}

/// The source is an immediate that fits 32 bits.
#[verifier::when_used_as_spec(is_small_imm_spec)]
pub fn is_small_imm(src: Src) -> (r: bool)
    ensures
        r == is_small_imm_spec(src),
{
    match src {
        Src::Imm(i) => -0x8000_0000 <= i && i <= 0x7FFF_FFFF,
        _ => false,
    }
}

pub open spec fn imm_of_spec(src: Src) -> i64 {
    match src {
        Src::Imm(i) => i,
        _ => 0,
    }
}

/// The immediate that a source is.
#[verifier::when_used_as_spec(imm_of_spec)]
pub fn imm_of(src: Src) -> (r: i64)
    ensures
        r == imm_of_spec(src),
{
    match src {
        Src::Imm(i) => i,
        _ => 0,
    }
}

pub open spec fn int_width_spec(width: FWidth) -> Width {
    match width {
        FWidth::S => Width::W32,
        FWidth::D => Width::W64,
    }
}

/// The integer width of a float's bit pattern.
#[verifier::when_used_as_spec(int_width_spec)]
pub fn int_width(width: FWidth) -> (r: Width)
    ensures
        r == int_width_spec(width),
{
    match width {
        FWidth::S => Width::W32,
        FWidth::D => Width::W64,
    }
}

pub open spec fn other_fwidth_spec(width: FWidth) -> FWidth {
    match width {
        FWidth::S => FWidth::D,
        FWidth::D => FWidth::S,
    }
}

/// The other float width.
#[verifier::when_used_as_spec(other_fwidth_spec)]
pub fn other_fwidth(width: FWidth) -> (r: FWidth)
    ensures
        r == other_fwidth_spec(width),
{
    match width {
        FWidth::S => FWidth::D,
        FWidth::D => FWidth::S,
    }
}

pub open spec fn width_if_spec(wide: bool) -> Width {
    if wide {
        Width::W64
    } else {
        Width::W32
    }
}

/// 64 bits or 32.
#[verifier::when_used_as_spec(width_if_spec)]
pub fn width_if(wide: bool) -> (r: Width)
    ensures
        r == width_if_spec(wide),
{
    if wide {
        Width::W64
    } else {
        Width::W32
    }
}

pub open spec fn bits_imm_spec(bits: u64) -> i64 {
    bits as i64
}

/// A bit pattern as an immediate.
#[verifier::when_used_as_spec(bits_imm_spec)]
pub fn bits_imm(bits: u64) -> (r: i64)
    ensures
        r == bits_imm_spec(bits),
{
    #[verifier::truncate]
    (bits as i64)
}

pub open spec fn sign_mask_spec(width: FWidth) -> u64 {
    match width {
        FWidth::S => 0x8000_0000,
        FWidth::D => 0x8000_0000_0000_0000,
    }
}

/// The sign bit of a float.
#[verifier::when_used_as_spec(sign_mask_spec)]
pub fn sign_mask(width: FWidth) -> (r: u64)
    ensures
        r == sign_mask_spec(width),
{
    match width {
        FWidth::S => 0x8000_0000,
        FWidth::D => 0x8000_0000_0000_0000,
    }
}

pub open spec fn frame_slot_spec(addr: Amode) -> LocalId {
    match addr {
        Amode::FrameSlot(l) => l,
    }
}

/// The local whose slot is addressed.
#[verifier::when_used_as_spec(frame_slot_spec)]
pub fn frame_slot(addr: Amode) -> (r: LocalId)
    ensures
        r == frame_slot_spec(addr),
{
    match addr {
        Amode::FrameSlot(l) => l,
    }
}

pub open spec fn alu_of_spec(op: ArithOp) -> Option<AluOp> {
    match op {
        ArithOp::Add => Some(AluOp::Add),
        ArithOp::Sub => Some(AluOp::Sub),
        ArithOp::And => Some(AluOp::And),
        ArithOp::Or => Some(AluOp::Or),
        ArithOp::Xor => Some(AluOp::Xor),
        ArithOp::Imul => None,
    }
}

/// The two-operand form of an operation; a product has its own.
#[verifier::when_used_as_spec(alu_of_spec)]
pub fn alu_of(op: ArithOp) -> (r: Option<AluOp>)
    ensures
        r == alu_of_spec(op),
{
    match op {
        ArithOp::Add => Some(AluOp::Add),
        ArithOp::Sub => Some(AluOp::Sub),
        ArithOp::And => Some(AluOp::And),
        ArithOp::Or => Some(AluOp::Or),
        ArithOp::Xor => Some(AluOp::Xor),
        ArithOp::Imul => None,
    }
}

pub open spec fn exclude_reg_spec(rmi: Rmi) -> Exclude {
    match rmi {
        Rmi::Reg(g) => Exclude::One(g.phys()),
        _ => Exclude::Nothing,
    }
}

/// The register that an operand is in.
#[verifier::when_used_as_spec(exclude_reg_spec)]
pub fn exclude_reg(rmi: Rmi) -> (r: Exclude)
    ensures
        r == exclude_reg_spec(rmi),
{
    match rmi {
        Rmi::Reg(g) => Exclude::One(g.phys()),
        _ => Exclude::Nothing,
    }
}

/// The second condition of a float comparison.
#[derive(Clone, Copy, PartialEq, Eq, Structural, Debug)]
pub enum Second {
    Nothing,
    /// Both must hold.
    And(CondCode),
    /// Either is enough.
    Or(CondCode),
}

/// How the flags of a float comparison make its outcome.
#[derive(Clone, Copy, PartialEq, Eq, Structural, Debug)]
pub struct FloatRecipe {
    pub first: CondCode,
    pub second: Second,
}

pub open spec fn float_recipe_spec(op: BinaryOp) -> Option<FloatRecipe> {
    match op {
        BinaryOp::Eq => Some(
            FloatRecipe { first: CondCode::Eq, second: Second::And(CondCode::NotParity) },
        ),
        BinaryOp::Ne => Some(
            FloatRecipe { first: CondCode::Ne, second: Second::Or(CondCode::Parity) },
        ),
        BinaryOp::Gt => Some(FloatRecipe { first: CondCode::UGt, second: Second::Nothing }),
        BinaryOp::Ge => Some(FloatRecipe { first: CondCode::UGe, second: Second::Nothing }),
        BinaryOp::Lt => Some(
            FloatRecipe { first: CondCode::ULt, second: Second::And(CondCode::NotParity) },
        ),
        BinaryOp::Le => Some(
            FloatRecipe { first: CondCode::ULe, second: Second::And(CondCode::NotParity) },
        ),
        BinaryOp::UGt => Some(
            FloatRecipe { first: CondCode::UGt, second: Second::Or(CondCode::Parity) },
        ),
        BinaryOp::UGe => Some(
            FloatRecipe { first: CondCode::UGe, second: Second::Or(CondCode::Parity) },
        ),
        BinaryOp::ULt => Some(FloatRecipe { first: CondCode::ULt, second: Second::Nothing }),
        BinaryOp::ULe => Some(FloatRecipe { first: CondCode::ULe, second: Second::Nothing }),
        _ => None,
    }
}

/// The conditions of a float comparison, or `None` for another operator.
#[verifier::when_used_as_spec(float_recipe_spec)]
pub fn float_recipe(op: BinaryOp) -> (r: Option<FloatRecipe>)
    ensures
        r == float_recipe_spec(op),
{
    match op {
        BinaryOp::Eq => Some(
            FloatRecipe { first: CondCode::Eq, second: Second::And(CondCode::NotParity) },
        ),
        BinaryOp::Ne => Some(
            FloatRecipe { first: CondCode::Ne, second: Second::Or(CondCode::Parity) },
        ),
        BinaryOp::Gt => Some(FloatRecipe { first: CondCode::UGt, second: Second::Nothing }),
        BinaryOp::Ge => Some(FloatRecipe { first: CondCode::UGe, second: Second::Nothing }),
        BinaryOp::Lt => Some(
            FloatRecipe { first: CondCode::ULt, second: Second::And(CondCode::NotParity) },
        ),
        BinaryOp::Le => Some(
            FloatRecipe { first: CondCode::ULe, second: Second::And(CondCode::NotParity) },
        ),
        BinaryOp::UGt => Some(
            FloatRecipe { first: CondCode::UGt, second: Second::Or(CondCode::Parity) },
        ),
        BinaryOp::UGe => Some(
            FloatRecipe { first: CondCode::UGe, second: Second::Or(CondCode::Parity) },
        ),
        BinaryOp::ULt => Some(FloatRecipe { first: CondCode::ULt, second: Second::Nothing }),
        BinaryOp::ULe => Some(FloatRecipe { first: CondCode::ULe, second: Second::Nothing }),
        _ => None,
    }
}

pub open spec fn float_jcc_tail_spec(op: BinaryOp) -> CondCode {
    match op {
        BinaryOp::Ne => CondCode::Ne,
        BinaryOp::Gt | BinaryOp::UGt => CondCode::UGt,
        BinaryOp::Ge | BinaryOp::UGe => CondCode::UGe,
        BinaryOp::Lt | BinaryOp::ULt => CondCode::ULt,
        BinaryOp::Le | BinaryOp::ULe => CondCode::ULe,
        _ => CondCode::Eq,
    }
}

/// The condition of a float branch, parity aside.
#[verifier::when_used_as_spec(float_jcc_tail_spec)]
pub fn float_jcc_tail(op: BinaryOp) -> (r: CondCode)
    ensures
        r == float_jcc_tail_spec(op),
{
    match op {
        BinaryOp::Ne => CondCode::Ne,
        BinaryOp::Gt | BinaryOp::UGt => CondCode::UGt,
        BinaryOp::Ge | BinaryOp::UGe => CondCode::UGe,
        BinaryOp::Lt | BinaryOp::ULt => CondCode::ULt,
        BinaryOp::Le | BinaryOp::ULe => CondCode::ULe,
        _ => CondCode::Eq,
    }
}

/// The descriptor cannot be bound, whatever the replies: an operation whose result
/// would go to a register, a float `setcc` that compares nothing, or one of those that
/// have no binding.
pub open spec fn refused(inst: Inst) -> bool {
    match inst {
        Inst::Arith { dst, .. } => dst is Reg,
        Inst::Shift { dst, .. } => dst is Reg,
        Inst::Unary { dst, .. } => dst is Reg,
        Inst::SetccF { op, .. } => float_recipe(op) is None,
        Inst::Mov { .. }
        | Inst::Lea { .. }
        | Inst::Idiv { .. }
        | Inst::Div { .. }
        | Inst::Setcc { .. }
        | Inst::MovExt { .. }
        | Inst::Cmp { .. }
        | Inst::CallDirect { .. }
        | Inst::CallHelper { .. }
        | Inst::ConstF { .. }
        | Inst::MovF { .. }
        | Inst::ArithF { .. }
        | Inst::NegF { .. }
        | Inst::CmpF { .. }
        | Inst::JccF { .. }
        | Inst::CvtIntToF { .. }
        | Inst::CvtFToInt { .. }
        | Inst::CvtFToF { .. }
        | Inst::Cdq { .. }
        | Inst::Jcc { .. }
        | Inst::Jmp { .. }
        | Inst::Push { .. }
        | Inst::AllocFrame
        | Inst::Leave
        | Inst::Ret => false,
        _ => true,
    }
}

/// The register with a number.
pub open spec fn gpr_of(reg: PhysReg) -> Result<Gpr, Stop> {
    match Gpr::from_phys(reg) {
        Some(g) => Ok(g),
        None => Err(Stop::Fail(CompileError::Internal("PhysReg outside the GPR range"))),
    }
}

pub open spec fn gpr_spec(c: Ctx, b: Bound, reg: PhysReg) -> Step<Gpr> {
    match gpr_of(reg) {
        Ok(g) => Ok((b, g)),
        Err(stop) => b.halt(stop),
    }
}

/// The type of a local.
pub open spec fn ty_of_spec(c: Ctx, b: Bound, id: LocalId) -> Step<Type> {
    if id.0 < c.types.len() {
        Ok((b, c.types[id.0 as int]))
    } else {
        b.halt(Stop::Fail(CompileError::Internal("local out of range")))
    }
}

/// The frame offset of a local.
pub open spec fn slot_of_spec(c: Ctx, b: Bound, id: LocalId) -> Step<u32> {
    if id.0 < c.slots.len() {
        Ok((b, c.slots[id.0 as int]))
    } else {
        b.halt(Stop::Fail(CompileError::Internal("local out of range")))
    }
}

/// The local is an argument or an IL local: its value is always in its slot.
pub open spec fn is_fixed_spec(c: Ctx, b: Bound, id: LocalId) -> Step<bool> {
    Ok((b, (id.0 as u64) < c.num_frame_fixed))
}

/// The frame size as an immediate.
pub open spec fn frame_imm_spec(c: Ctx, b: Bound) -> Step<i64> {
    Ok((b, c.frame_size as i64))
}

/// A label that is no block.
pub open spec fn synthetic_label_spec(c: Ctx, b: Bound) -> Step<Label> {
    if b.synthetic == 0 {
        b.halt(Stop::Fail(CompileError::Internal("out of synthetic labels")))
    } else {
        Ok((Bound { synthetic: (b.synthetic - 1) as u32, ..b }, Label(BlockId(b.synthetic))))
    }
}

pub open spec fn wrong_reply() -> Stop {
    Stop::Fail(CompileError::Internal("reply does not answer the request"))
}

/// One move of the value machine as an instruction.
pub open spec fn move_op(m: Move) -> Result<Op, Stop> {
    match m {
        Move::Spill { reg, slot, ty } => match width_of_ty(ty) {
            None => Err(Stop::Fail(CompileError::Internal("spill of a non-GPR value"))),
            Some(width) => match gpr_of(reg) {
                Err(stop) => Err(stop),
                Ok(g) => Ok(Op::Mov { width, dst: Rm::Mem(slot_mem(slot)), src: Rmi::Reg(g) }),
            },
        },
        Move::Reload { slot, ty, reg } => match width_of_ty(ty) {
            None => Err(Stop::Fail(CompileError::Internal("reload of a non-GPR value"))),
            Some(width) => match gpr_of(reg) {
                Err(stop) => Err(stop),
                Ok(g) => Ok(Op::Mov { width, dst: Rm::Reg(g), src: Rmi::Mem(slot_mem(slot)) }),
            },
        },
        Move::Remat { imm, reg, ty } => match width_of_ty(ty) {
            None => Err(
                Stop::Fail(CompileError::Internal("rematerialization of a non-GPR value")),
            ),
            Some(width) => match gpr_of(reg) {
                Err(stop) => Err(stop),
                Ok(g) => Ok(Op::Mov { width, dst: Rm::Reg(g), src: Rmi::Imm(imm) }),
            },
        },
    }
}

/// The first `n` moves as instructions.
pub open spec fn apply_spec(b: Bound, moves: Seq<Move>, n: nat) -> Step<()>
    decreases n,
{
    if n == 0 {
        Ok((b, ()))
    } else {
        match apply_spec(b, moves, (n - 1) as nat) {
            Err(halt) => Err(halt),
            Ok((b, _)) => match move_op(moves[n - 1]) {
                Err(stop) => b.halt(stop),
                Ok(op) => Ok((b.emit(op), ())),
            },
        }
    }
}

/// The reply to a request for moves: the moves, as instructions.
pub open spec fn run_moves_spec(c: Ctx, b: Bound, request: Request) -> Step<()> {
    if b.next >= c.replies.len() {
        b.halt(Stop::Ask(request))
    } else {
        match c.replies[b.next as int] {
            Reply::Moves(moves) => apply_spec(b.used(request), moves@, moves@.len()),
            _ => b.halt(wrong_reply()),
        }
    }
}

/// A scratch register, freed by the moves of the reply.
pub open spec fn scratch_spec(c: Ctx, b: Bound, exclude: Exclude) -> Step<Gpr> {
    if b.next >= c.replies.len() {
        b.halt(Stop::Ask(Request::TakeScratch(exclude)))
    } else {
        match c.replies[b.next as int] {
            Reply::Scratch { reg, moves } => match apply_spec(
                b.used(Request::TakeScratch(exclude)),
                moves@,
                moves@.len(),
            ) {
                Err(halt) => Err(halt),
                Ok((b, _)) => gpr_spec(c, b, reg),
            },
            _ => b.halt(wrong_reply()),
        }
    }
}

/// A block begins. The reply brings no moves.
pub open spec fn reset_spec(c: Ctx, b: Bound) -> Step<()> {
    if b.next >= c.replies.len() {
        b.halt(Stop::Ask(Request::Reset))
    } else {
        match c.replies[b.next as int] {
            Reply::Done => Ok((b.used(Request::Reset), ())),
            _ => b.halt(wrong_reply()),
        }
    }
}

/// Where a value is read from.
pub open spec fn read_spec(c: Ctx, b: Bound, id: LocalId) -> Step<ReadSrc> {
    if b.next >= c.replies.len() {
        b.halt(Stop::Ask(Request::Read(id)))
    } else {
        match c.replies[b.next as int] {
            Reply::Source(source) => Ok((b.used(Request::Read(id)), source)),
            _ => b.halt(wrong_reply()),
        }
    }
}

/// How a call reaches its target.
pub open spec fn lookup_spec(c: Ctx, b: Bound, request: Request) -> Step<Lookup> {
    if b.next >= c.replies.len() {
        b.halt(Stop::Ask(request))
    } else {
        match c.replies[b.next as int] {
            Reply::Target(lookup) => Ok((b.used(request), lookup)),
            _ => b.halt(wrong_reply()),
        }
    }
}

/// A source as a physical operand.
pub open spec fn rmi_of_spec(c: Ctx, b: Bound, src: Src) -> Step<Rmi> {
    match src {
        Src::Reg(g) => {
            Ok((b, Rmi::Reg(g)))
        },
        Src::Imm(i) => {
            Ok((b, Rmi::Imm(i)))
        },
        Src::Val(v) => {
            match read_spec(c, b, v.0) {
                Err(halt) => Err(halt),
                Ok((b, source)) => {
                    match source {
                        ReadSrc::Reg(p) => {
                            match gpr_spec(c, b, p) {
                                Err(halt) => Err(halt),
                                Ok((b, g)) => {
                                    Ok((b, Rmi::Reg(g)))
                                },
                            }
                        },
                        ReadSrc::Slot(offset) => {
                            Ok((b, Rmi::Mem(slot_mem(offset))))
                        },
                        ReadSrc::Imm(i) => {
                            Ok((b, Rmi::Imm(i)))
                        },
                    }
                },
            }
        },
    }
}

/// Like [`rmi_of_spec`], but an immediate that a 64-bit instruction cannot hold
/// goes to a scratch register.
pub open spec fn wide_imm_spec(
    c: Ctx,
    b: Bound,
    width: Width,
    src: Src,
    exclude: Exclude,
) -> Step<Rmi> {
    match rmi_of_spec(c, b, src) {
        Err(halt) => Err(halt),
        Ok((b, rmi)) => {
            match wide_imm_of(width, rmi) {
                Some(i) => {
                    match scratch_spec(c, b, exclude) {
                        Err(halt) => Err(halt),
                        Ok((b, g)) => {
                            let b = b.emit(
                                Op::Mov { width: Width::W64, dst: Rm::Reg(g), src: Rmi::Imm(i) },
                            );
                            Ok((b, Rmi::Reg(g)))
                        },
                    }
                },
                None => {
                    Ok((b, rmi))
                },
            }
        },
    }
}

/// A source as a register or memory operand; an immediate goes to a scratch
/// register.
pub open spec fn rm_of_spec(
    c: Ctx,
    b: Bound,
    src: Src,
    width: Width,
    exclude: Exclude,
) -> Step<Rm> {
    match rmi_of_spec(c, b, src) {
        Err(halt) => Err(halt),
        Ok((b, rmi)) => {
            match rmi {
                Rmi::Reg(g) => {
                    Ok((b, Rm::Reg(g)))
                },
                Rmi::Mem(m) => {
                    Ok((b, Rm::Mem(m)))
                },
                Rmi::Imm(i) => {
                    match scratch_spec(c, b, exclude) {
                        Err(halt) => Err(halt),
                        Ok((b, g)) => {
                            let b = b.emit(Op::Mov { width, dst: Rm::Reg(g), src: Rmi::Imm(i) });
                            Ok((b, Rm::Reg(g)))
                        },
                    }
                },
            }
        },
    }
}

/// The value of a temporary is in `g`. A GC pointer goes to its slot at once.
pub open spec fn define_temp_reg_spec(c: Ctx, b: Bound, t: LocalId, g: Gpr) -> Step<()> {
    match ty_of_spec(c, b, t) {
        Err(halt) => Err(halt),
        Ok((b, ty)) => {
            if is_gc(ty) {
                match slot_of_spec(c, b, t) {
                    Err(halt) => Err(halt),
                    Ok((b, slot)) => {
                        let b = b.emit(
                            Op::Mov {
                                width: Width::W64,
                                dst: Rm::Mem(slot_mem(slot)),
                                src: Rmi::Reg(g),
                            },
                        );
                        run_moves_spec(c, b, Request::Define(t, Loc::Mem(slot)))
                    },
                }
            } else {
                run_moves_spec(c, b, Request::Define(t, Loc::Reg(g.phys())))
            }
        },
    }
}

/// The float with a bit pattern, through a scratch register.
pub open spec fn materialize_bits_spec(
    c: Ctx,
    b: Bound,
    dst: Xmm,
    width: FWidth,
    bits: u64,
) -> Step<()> {
    match scratch_spec(c, b, Exclude::Nothing) {
        Err(halt) => Err(halt),
        Ok((b, g)) => {
            let b = b.emit(
                Op::Mov { width: int_width(width), dst: Rm::Reg(g), src: Rmi::Imm(bits_imm(bits)) },
            );
            let b = b.emit(Op::MovGprToXmm { width, dst, src: g });
            Ok((b, ()))
        },
    }
}

/// A float source as a physical operand. A float value is always in its slot.
pub open spec fn rmx_of_spec(
    c: Ctx,
    b: Bound,
    src: XmmSrc,
    width: FWidth,
    scratch: Xmm,
) -> Step<RmX> {
    match src {
        XmmSrc::Reg(x) => {
            Ok((b, RmX::Reg(x)))
        },
        XmmSrc::Val(v) => {
            match read_spec(c, b, v.0) {
                Err(halt) => Err(halt),
                Ok((b, source)) => {
                    match source {
                        ReadSrc::Slot(offset) => {
                            Ok((b, RmX::Mem(slot_mem(offset))))
                        },
                        _ => {
                            b.halt(
                                Stop::Fail(CompileError::Internal("float value not slot-resident")),
                            )
                        },
                    }
                },
            }
        },
        XmmSrc::Bits(bits) => {
            match materialize_bits_spec(c, b, scratch, width, bits) {
                Err(halt) => Err(halt),
                Ok((b, _)) => {
                    Ok((b, RmX::Reg(scratch)))
                },
            }
        },
    }
}

/// A float result goes to its register or slot. Values that still read the slot
/// of a local move away first.
pub open spec fn define_xmm_spec(
    c: Ctx,
    b: Bound,
    dst: XmmPlace,
    width: FWidth,
    src: Xmm,
) -> Step<()> {
    match dst {
        XmmPlace::Reg(x) => {
            let b = if x != src {
                b.emit(Op::MovFLoad { width, dst: x, src: RmX::Reg(src) })
            } else {
                b
            };
            Ok((b, ()))
        },
        XmmPlace::Val(v) => {
            match slot_of_spec(c, b, v.0) {
                Err(halt) => Err(halt),
                Ok((b, slot)) => {
                    match is_fixed_spec(c, b, v.0) {
                        Err(halt) => Err(halt),
                        Ok((b, fixed)) => {
                            if fixed {
                                match run_moves_spec(c, b, Request::BeforeLocalWrite(v.0)) {
                                    Err(halt) => Err(halt),
                                    Ok((b, _)) => {
                                        let b = b.emit(
                                            Op::MovFStore { width, dst: slot_mem(slot), src },
                                        );
                                        Ok((b, ()))
                                    },
                                }
                            } else {
                                let b = b.emit(Op::MovFStore { width, dst: slot_mem(slot), src });
                                run_moves_spec(c, b, Request::Define(v.0, Loc::Mem(slot)))
                            }
                        },
                    }
                },
            }
        },
    }
}

/// A float constant. To a slot it goes without a float register.
#[verifier::opaque]
pub open spec fn emit_const_f_spec(
    c: Ctx,
    b: Bound,
    width: FWidth,
    dst: XmmPlace,
    bits: u64,
) -> Step<()> {
    match dst {
        XmmPlace::Reg(x) => {
            materialize_bits_spec(c, b, x, width, bits)
        },
        XmmPlace::Val(v) => {
            match slot_of_spec(c, b, v.0) {
                Err(halt) => Err(halt),
                Ok((b, slot)) => {
                    match is_fixed_spec(c, b, v.0) {
                        Err(halt) => Err(halt),
                        Ok((b, fixed)) => {
                            match if fixed {
                                run_moves_spec(c, b, Request::BeforeLocalWrite(v.0))
                            } else {
                                Ok((b, ()))
                            } {
                                Err(halt) => Err(halt),
                                Ok((b, _)) => {
                                    match width {
                                        FWidth::S => {
                                            let b = b.emit(
                                                Op::Mov {
                                                    width: Width::W32,
                                                    dst: Rm::Mem(slot_mem(slot)),
                                                    src: Rmi::Imm(bits_imm(bits)),
                                                },
                                            );
                                            match if !fixed {
                                                run_moves_spec(
                                                    c,
                                                    b,
                                                    Request::Define(v.0, Loc::Mem(slot)),
                                                )
                                            } else {
                                                Ok((b, ()))
                                            } {
                                                Err(halt) => Err(halt),
                                                Ok((b, _)) => {
                                                    Ok((b, ()))
                                                },
                                            }
                                        },
                                        FWidth::D => {
                                            match scratch_spec(c, b, Exclude::Nothing) {
                                                Err(halt) => Err(halt),
                                                Ok((b, g)) => {
                                                    let b = b.emit(
                                                        Op::Mov {
                                                            width: Width::W64,
                                                            dst: Rm::Reg(g),
                                                            src: Rmi::Imm(bits_imm(bits)),
                                                        },
                                                    );
                                                    let b = b.emit(
                                                        Op::Mov {
                                                            width: Width::W64,
                                                            dst: Rm::Mem(slot_mem(slot)),
                                                            src: Rmi::Reg(g),
                                                        },
                                                    );
                                                    match if !fixed {
                                                        run_moves_spec(
                                                            c,
                                                            b,
                                                            Request::Define(v.0, Loc::Mem(slot)),
                                                        )
                                                    } else {
                                                        Ok((b, ()))
                                                    } {
                                                        Err(halt) => Err(halt),
                                                        Ok((b, _)) => {
                                                            Ok((b, ()))
                                                        },
                                                    }
                                                },
                                            }
                                        },
                                    }
                                },
                            }
                        },
                    }
                },
            }
        },
    }
}

/// A float move.
#[verifier::opaque]
pub open spec fn emit_mov_f_spec(
    c: Ctx,
    b: Bound,
    width: FWidth,
    dst: XmmPlace,
    src: XmmSrc,
) -> Step<()> {
    match rmx_of_spec(c, b, src, width, SCRATCH_XMM_A) {
        Err(halt) => Err(halt),
        Ok((b, from)) => {
            match dst {
                XmmPlace::Reg(x) => {
                    let b = b.emit(Op::MovFLoad { width, dst: x, src: from });
                    Ok((b, ()))
                },
                XmmPlace::Val(v) => {
                    match from {
                        RmX::Reg(x) => {
                            define_xmm_spec(c, b, XmmPlace::Val(v), width, x)
                        },
                        RmX::Mem(m) => {
                            match slot_of_spec(c, b, v.0) {
                                Err(halt) => Err(halt),
                                Ok((b, slot)) => {
                                    if m == slot_mem(slot) {
                                        Ok((b, ()))
                                    } else {
                                        let b = b.emit(
                                            Op::MovFLoad {
                                                width,
                                                dst: SCRATCH_XMM_A,
                                                src: RmX::Mem(m),
                                            },
                                        );
                                        define_xmm_spec(
                                            c,
                                            b,
                                            XmmPlace::Val(v),
                                            width,
                                            SCRATCH_XMM_A,
                                        )
                                    }
                                },
                            }
                        },
                    }
                },
            }
        },
    }
}

/// Float arithmetic, in the first scratch register.
#[verifier::opaque]
pub open spec fn emit_arith_f_spec(
    c: Ctx,
    b: Bound,
    op: ArithFOp,
    width: FWidth,
    dst: XmmPlace,
    lhs: XmmSrc,
    rhs: XmmSrc,
) -> Step<()> {
    match rmx_of_spec(c, b, lhs, width, SCRATCH_XMM_A) {
        Err(halt) => Err(halt),
        Ok((b, l)) => {
            match rmx_of_spec(c, b, rhs, width, SCRATCH_XMM_B) {
                Err(halt) => Err(halt),
                Ok((b, r)) => {
                    let b = if l != RmX::Reg(SCRATCH_XMM_A) {
                        b.emit(Op::MovFLoad { width, dst: SCRATCH_XMM_A, src: l })
                    } else {
                        b
                    };
                    let b = b.emit(Op::ArithF { op, width, dst: SCRATCH_XMM_A, src: r });
                    define_xmm_spec(c, b, dst, width, SCRATCH_XMM_A)
                },
            }
        },
    }
}

/// A float with its sign bit flipped.
#[verifier::opaque]
pub open spec fn emit_neg_f_spec(
    c: Ctx,
    b: Bound,
    width: FWidth,
    dst: XmmPlace,
    src: XmmSrc,
) -> Step<()> {
    match materialize_bits_spec(c, b, SCRATCH_XMM_B, width, sign_mask(width)) {
        Err(halt) => Err(halt),
        Ok((b, _)) => {
            match rmx_of_spec(c, b, src, width, SCRATCH_XMM_A) {
                Err(halt) => Err(halt),
                Ok((b, from)) => {
                    let b = if from != RmX::Reg(SCRATCH_XMM_A) {
                        b.emit(Op::MovFLoad { width, dst: SCRATCH_XMM_A, src: from })
                    } else {
                        b
                    };
                    let b = b.emit(
                        Op::XorF { width, dst: SCRATCH_XMM_A, src: RmX::Reg(SCRATCH_XMM_B) },
                    );
                    define_xmm_spec(c, b, dst, width, SCRATCH_XMM_A)
                },
            }
        },
    }
}

/// A float comparison; its left side is in a register.
#[verifier::opaque]
pub open spec fn emit_cmp_f_spec(
    c: Ctx,
    b: Bound,
    width: FWidth,
    lhs: XmmSrc,
    rhs: XmmSrc,
) -> Step<()> {
    match rmx_of_spec(c, b, lhs, width, SCRATCH_XMM_A) {
        Err(halt) => Err(halt),
        Ok((b, l)) => {
            match rmx_of_spec(c, b, rhs, width, SCRATCH_XMM_B) {
                Err(halt) => Err(halt),
                Ok((b, r)) => {
                    match l {
                        RmX::Reg(x) => {
                            let b = b.emit(Op::Ucomis { width, lhs: x, rhs: r });
                            Ok((b, ()))
                        },
                        RmX::Mem(m) => {
                            let b = b.emit(
                                Op::MovFLoad { width, dst: SCRATCH_XMM_A, src: RmX::Mem(m) },
                            );
                            let b = b.emit(Op::Ucomis { width, lhs: SCRATCH_XMM_A, rhs: r });
                            Ok((b, ()))
                        },
                    }
                },
            }
        },
    }
}

/// An integer result in `g` goes to its value or register.
pub open spec fn place_int_spec(c: Ctx, b: Bound, dst: Place, width: Width, g: Gpr) -> Step<()> {
    match dst {
        Place::Val(t) => {
            define_temp_reg_spec(c, b, t.0, g)
        },
        Place::Reg(to) => {
            match run_moves_spec(c, b, Request::Clobber(to.phys())) {
                Err(halt) => Err(halt),
                Ok((b, _)) => {
                    let b = if to != g {
                        b.emit(Op::Mov { width, dst: Rm::Reg(to), src: Rmi::Reg(g) })
                    } else {
                        b
                    };
                    Ok((b, ()))
                },
            }
        },
    }
}

/// The outcome of a float comparison as 0 or 1, in a scratch register. Moves leave
/// the flags alone.
pub open spec fn setcc_f_into_spec(c: Ctx, b: Bound, op: BinaryOp) -> Step<Gpr> {
    match float_recipe(op) {
        None => {
            b.halt(Stop::Fail(CompileError::Internal("non-comparison operator in a float setcc")))
        },
        Some(recipe) => {
            match scratch_spec(c, b, Exclude::Nothing) {
                Err(halt) => Err(halt),
                Ok((b, ga)) => {
                    let b = b.emit(
                        Op::Mov { width: Width::W32, dst: Rm::Reg(ga), src: Rmi::Imm(0) },
                    );
                    let b = b.emit(Op::Setcc { cc: recipe.first, dst: ga });
                    match recipe.second {
                        Second::Nothing => {
                            Ok((b, ga))
                        },
                        Second::And(cc) => {
                            match scratch_spec(c, b, Exclude::One(ga.phys())) {
                                Err(halt) => Err(halt),
                                Ok((b, gb)) => {
                                    let b = b.emit(
                                        Op::Mov {
                                            width: Width::W32,
                                            dst: Rm::Reg(gb),
                                            src: Rmi::Imm(0),
                                        },
                                    );
                                    let b = b.emit(Op::Setcc { cc, dst: gb });
                                    let b = b.emit(
                                        Op::Alu {
                                            op: AluOp::And,
                                            width: Width::W32,
                                            dst: Rm::Reg(ga),
                                            src: Rmi::Reg(gb),
                                        },
                                    );
                                    Ok((b, ga))
                                },
                            }
                        },
                        Second::Or(cc) => {
                            match scratch_spec(c, b, Exclude::One(ga.phys())) {
                                Err(halt) => Err(halt),
                                Ok((b, gb)) => {
                                    let b = b.emit(
                                        Op::Mov {
                                            width: Width::W32,
                                            dst: Rm::Reg(gb),
                                            src: Rmi::Imm(0),
                                        },
                                    );
                                    let b = b.emit(Op::Setcc { cc, dst: gb });
                                    let b = b.emit(
                                        Op::Alu {
                                            op: AluOp::Or,
                                            width: Width::W32,
                                            dst: Rm::Reg(ga),
                                            src: Rmi::Reg(gb),
                                        },
                                    );
                                    Ok((b, ga))
                                },
                            }
                        },
                    }
                },
            }
        },
    }
}

/// The outcome of a float comparison as a value or in a register.
#[verifier::opaque]
pub open spec fn emit_setcc_f_spec(c: Ctx, b: Bound, op: BinaryOp, dst: Place) -> Step<()> {
    match setcc_f_into_spec(c, b, op) {
        Err(halt) => Err(halt),
        Ok((b, g)) => {
            place_int_spec(c, b, dst, Width::W32, g)
        },
    }
}

/// A branch on the outcome of a float comparison. Where an unordered pair takes
/// the branch, parity jumps to it; where it does not, parity jumps over it.
#[verifier::opaque]
pub open spec fn emit_jcc_f_spec(c: Ctx, b: Bound, op: BinaryOp, target: Label) -> Step<()> {
    match op {
        BinaryOp::Ne | BinaryOp::UGt | BinaryOp::UGe => {
            let b = b.emit(Op::Jcc { cc: CondCode::Parity, target });
            let b = b.emit(Op::Jcc { cc: float_jcc_tail(op), target });
            Ok((b, ()))
        },
        BinaryOp::Eq | BinaryOp::Lt | BinaryOp::Le => {
            match synthetic_label_spec(c, b) {
                Err(halt) => Err(halt),
                Ok((b, skip)) => {
                    let b = b.emit(Op::Jcc { cc: CondCode::Parity, target: skip });
                    let b = b.emit(Op::Jcc { cc: float_jcc_tail(op), target });
                    let b = b.emit(Op::Bind { label: skip });
                    Ok((b, ()))
                },
            }
        },
        BinaryOp::Gt | BinaryOp::Ge | BinaryOp::ULt | BinaryOp::ULe => {
            let b = b.emit(Op::Jcc { cc: float_jcc_tail(op), target });
            Ok((b, ()))
        },
        _ => {
            Ok((b, ()))
        },
    }
}

/// From an integer to a float.
#[verifier::opaque]
pub open spec fn emit_cvt_int_to_f_spec(
    c: Ctx,
    b: Bound,
    width: FWidth,
    src_w64: bool,
    dst: XmmPlace,
    src: Src,
) -> Step<()> {
    match rm_of_spec(c, b, src, width_if(src_w64), Exclude::Nothing) {
        Err(halt) => Err(halt),
        Ok((b, rm)) => {
            let b = b.emit(Op::Cvtsi2s { width, dst: SCRATCH_XMM_A, src: rm, src_w64 });
            define_xmm_spec(c, b, dst, width, SCRATCH_XMM_A)
        },
    }
}

/// From a float to an integer.
#[verifier::opaque]
pub open spec fn emit_cvt_f_to_int_spec(
    c: Ctx,
    b: Bound,
    src_width: FWidth,
    dst_w64: bool,
    dst: Place,
    src: XmmSrc,
) -> Step<()> {
    match rmx_of_spec(c, b, src, src_width, SCRATCH_XMM_A) {
        Err(halt) => Err(halt),
        Ok((b, from)) => {
            match scratch_spec(c, b, Exclude::Nothing) {
                Err(halt) => Err(halt),
                Ok((b, g)) => {
                    let b = b.emit(Op::Cvtts2si { width: src_width, dst: g, src: from, dst_w64 });
                    place_int_spec(c, b, dst, Width::W64, g)
                },
            }
        },
    }
}

/// From a float to a float of the other width.
#[verifier::opaque]
pub open spec fn emit_cvt_f_to_f_spec(
    c: Ctx,
    b: Bound,
    to: FWidth,
    dst: XmmPlace,
    src: XmmSrc,
) -> Step<()> {
    match rmx_of_spec(c, b, src, other_fwidth(to), SCRATCH_XMM_A) {
        Err(halt) => Err(halt),
        Ok((b, from)) => {
            let b = b.emit(Op::Cvts2s { to, dst: SCRATCH_XMM_A, src: from });
            define_xmm_spec(c, b, dst, to, SCRATCH_XMM_A)
        },
    }
}

/// A local is written. Values that still read its slot move away first.
#[verifier::opaque]
pub open spec fn emit_store_to_local_spec(
    c: Ctx,
    b: Bound,
    id: LocalId,
    width: Width,
    src: Src,
) -> Step<()> {
    match run_moves_spec(c, b, Request::BeforeLocalWrite(id)) {
        Err(halt) => Err(halt),
        Ok((b, _)) => {
            match slot_of_spec(c, b, id) {
                Err(halt) => Err(halt),
                Ok((b, slot)) => {
                    match wide_imm_spec(c, b, width, src, Exclude::Nothing) {
                        Err(halt) => Err(halt),
                        Ok((b, rmi)) => {
                            match rmi {
                                Rmi::Reg(g) => {
                                    let b = b.emit(
                                        Op::Mov {
                                            width,
                                            dst: Rm::Mem(slot_mem(slot)),
                                            src: Rmi::Reg(g),
                                        },
                                    );
                                    Ok((b, ()))
                                },
                                Rmi::Imm(i) => {
                                    let b = b.emit(
                                        Op::Mov {
                                            width,
                                            dst: Rm::Mem(slot_mem(slot)),
                                            src: Rmi::Imm(i),
                                        },
                                    );
                                    Ok((b, ()))
                                },
                                Rmi::Mem(m) => {
                                    if m == slot_mem(slot) {
                                        Ok((b, ()))
                                    } else {
                                        match scratch_spec(c, b, Exclude::Nothing) {
                                            Err(halt) => Err(halt),
                                            Ok((b, g)) => {
                                                let b = b.emit(
                                                    Op::Mov {
                                                        width,
                                                        dst: Rm::Reg(g),
                                                        src: Rmi::Mem(m),
                                                    },
                                                );
                                                let b = b.emit(
                                                    Op::Mov {
                                                        width,
                                                        dst: Rm::Mem(slot_mem(slot)),
                                                        src: Rmi::Reg(g),
                                                    },
                                                );
                                                Ok((b, ()))
                                            },
                                        }
                                    }
                                },
                            }
                        },
                    }
                },
            }
        },
    }
}

/// A temporary that holds a GC pointer goes to its slot at once.
pub open spec fn define_gc_temp_spec(
    c: Ctx,
    b: Bound,
    id: LocalId,
    width: Width,
    src: Src,
) -> Step<()> {
    match slot_of_spec(c, b, id) {
        Err(halt) => Err(halt),
        Ok((b, slot)) => {
            match wide_imm_spec(c, b, width, src, Exclude::Nothing) {
                Err(halt) => Err(halt),
                Ok((b, rmi)) => {
                    match rmi {
                        Rmi::Reg(g) => {
                            let b = b.emit(
                                Op::Mov { width, dst: Rm::Mem(slot_mem(slot)), src: Rmi::Reg(g) },
                            );
                            run_moves_spec(c, b, Request::Define(id, Loc::Mem(slot)))
                        },
                        Rmi::Imm(i) => {
                            let b = b.emit(
                                Op::Mov { width, dst: Rm::Mem(slot_mem(slot)), src: Rmi::Imm(i) },
                            );
                            run_moves_spec(c, b, Request::Define(id, Loc::Mem(slot)))
                        },
                        Rmi::Mem(m) => {
                            if m == slot_mem(slot) {
                                run_moves_spec(c, b, Request::Define(id, Loc::Mem(slot)))
                            } else {
                                match scratch_spec(c, b, Exclude::Nothing) {
                                    Err(halt) => Err(halt),
                                    Ok((b, g)) => {
                                        let b = b.emit(
                                            Op::Mov { width, dst: Rm::Reg(g), src: Rmi::Mem(m) },
                                        );
                                        let b = b.emit(
                                            Op::Mov {
                                                width,
                                                dst: Rm::Mem(slot_mem(slot)),
                                                src: Rmi::Reg(g),
                                            },
                                        );
                                        run_moves_spec(c, b, Request::Define(id, Loc::Mem(slot)))
                                    },
                                }
                            }
                        },
                    }
                },
            }
        },
    }
}

/// A temporary is defined. Only where its value lies is noted: a constant, the
/// slot of a local, a register. A register of another value is copied.
#[verifier::opaque]
pub open spec fn emit_define_temp_spec(
    c: Ctx,
    b: Bound,
    id: LocalId,
    width: Width,
    src: Src,
) -> Step<()> {
    match ty_of_spec(c, b, id) {
        Err(halt) => Err(halt),
        Ok((b, ty)) => {
            if is_gc(ty) {
                define_gc_temp_spec(c, b, id, width, src)
            } else {
                match src {
                    Src::Imm(i) => {
                        run_moves_spec(c, b, Request::Define(id, Loc::Const(i)))
                    },
                    Src::Reg(g) => {
                        define_temp_reg_spec(c, b, id, g)
                    },
                    Src::Val(v) => {
                        match is_fixed_spec(c, b, v.0) {
                            Err(halt) => Err(halt),
                            Ok((b, fixed)) => {
                                if fixed {
                                    run_moves_spec(c, b, Request::Define(id, Loc::Local(v.0)))
                                } else {
                                    match read_spec(c, b, v.0) {
                                        Err(halt) => Err(halt),
                                        Ok((b, source)) => {
                                            match source {
                                                ReadSrc::Slot(offset) => {
                                                    run_moves_spec(
                                                        c,
                                                        b,
                                                        Request::Define(id, Loc::Mem(offset)),
                                                    )
                                                },
                                                ReadSrc::Imm(i) => {
                                                    run_moves_spec(
                                                        c,
                                                        b,
                                                        Request::Define(id, Loc::Const(i)),
                                                    )
                                                },
                                                ReadSrc::Reg(p) => {
                                                    match scratch_spec(c, b, Exclude::One(p)) {
                                                        Err(halt) => Err(halt),
                                                        Ok((b, d)) => {
                                                            match gpr_spec(c, b, p) {
                                                                Err(halt) => Err(halt),
                                                                Ok((b, g)) => {
                                                                    let b = b.emit(
                                                                        Op::Mov {
                                                                            width,
                                                                            dst: Rm::Reg(d),
                                                                            src: Rmi::Reg(g),
                                                                        },
                                                                    );
                                                                    define_temp_reg_spec(
                                                                        c,
                                                                        b,
                                                                        id,
                                                                        d,
                                                                    )
                                                                },
                                                            }
                                                        },
                                                    }
                                                },
                                            }
                                        },
                                    }
                                }
                            },
                        }
                    },
                }
            }
        },
    }
}

/// A move. What a fixed register holds is spilled first.
#[verifier::opaque]
pub open spec fn emit_mov_spec(c: Ctx, b: Bound, width: Width, dst: Place, src: Src) -> Step<()> {
    match dst {
        Place::Reg(g) => {
            match run_moves_spec(c, b, Request::Clobber(g.phys())) {
                Err(halt) => Err(halt),
                Ok((b, _)) => {
                    match rmi_of_spec(c, b, src) {
                        Err(halt) => Err(halt),
                        Ok((b, rmi)) => {
                            let b = if rmi != Rmi::Reg(g) {
                                b.emit(Op::Mov { width, dst: Rm::Reg(g), src: rmi })
                            } else {
                                b
                            };
                            Ok((b, ()))
                        },
                    }
                },
            }
        },
        Place::Val(v) => {
            match is_fixed_spec(c, b, v.0) {
                Err(halt) => Err(halt),
                Ok((b, fixed)) => {
                    if fixed {
                        emit_store_to_local_spec(c, b, v.0, width, src)
                    } else {
                        emit_define_temp_spec(c, b, v.0, width, src)
                    }
                },
            }
        },
    }
}

/// The address of a frame slot.
#[verifier::opaque]
pub open spec fn emit_lea_spec(c: Ctx, b: Bound, dst: Place, addr: Amode) -> Step<()> {
    match slot_of_spec(c, b, frame_slot(addr)) {
        Err(halt) => Err(halt),
        Ok((b, offset)) => {
            match dst {
                Place::Val(t) => {
                    match scratch_spec(c, b, Exclude::Nothing) {
                        Err(halt) => Err(halt),
                        Ok((b, g)) => {
                            let b = b.emit(Op::Lea { dst: g, addr: slot_mem(offset) });
                            match is_fixed_spec(c, b, t.0) {
                                Err(halt) => Err(halt),
                                Ok((b, fixed)) => {
                                    if fixed {
                                        emit_store_to_local_spec(c, b, t.0, Width::W64, Src::Reg(g))
                                    } else {
                                        define_temp_reg_spec(c, b, t.0, g)
                                    }
                                },
                            }
                        },
                    }
                },
                Place::Reg(g) => {
                    match run_moves_spec(c, b, Request::Clobber(g.phys())) {
                        Err(halt) => Err(halt),
                        Ok((b, _)) => {
                            let b = b.emit(Op::Lea { dst: g, addr: slot_mem(offset) });
                            Ok((b, ()))
                        },
                    }
                },
            }
        },
    }
}

/// A shift in a scratch register. A count that is not constant goes to `cl`.
pub open spec fn shift_into_spec(
    c: Ctx,
    b: Bound,
    op: ShiftOp,
    width: Width,
    lhs: Src,
    rhs: Src,
) -> Step<Gpr> {
    match scratch_spec(c, b, Exclude::One(Gpr::Rcx.phys())) {
        Err(halt) => Err(halt),
        Ok((b, d)) => {
            match rmi_of_spec(c, b, lhs) {
                Err(halt) => Err(halt),
                Ok((b, l)) => {
                    let b = b.emit(Op::Mov { width, dst: Rm::Reg(d), src: l });
                    match rhs {
                        Src::Imm(count) => {
                            let b = b.emit(Op::ShiftImm { op, width, dst: Rm::Reg(d), count });
                            Ok((b, d))
                        },
                        _ => {
                            match run_moves_spec(c, b, Request::Clobber(Gpr::Rcx.phys())) {
                                Err(halt) => Err(halt),
                                Ok((b, _)) => {
                                    match rmi_of_spec(c, b, rhs) {
                                        Err(halt) => Err(halt),
                                        Ok((b, count)) => {
                                            let b = b.emit(
                                                Op::Mov {
                                                    width: Width::W32,
                                                    dst: Rm::Reg(Gpr::Rcx),
                                                    src: count,
                                                },
                                            );
                                            let b = b.emit(
                                                Op::ShiftCl { op, width, dst: Rm::Reg(d) },
                                            );
                                            Ok((b, d))
                                        },
                                    }
                                },
                            }
                        },
                    }
                },
            }
        },
    }
}

/// A shift.
#[verifier::opaque]
pub open spec fn emit_shift_spec(
    c: Ctx,
    b: Bound,
    op: ShiftOp,
    width: Width,
    dst: Place,
    lhs: Src,
    rhs: Src,
) -> Step<()> {
    match dst {
        Place::Reg(_) => {
            b.halt(Stop::Fail(CompileError::Internal("shift destination is always a value")))
        },
        Place::Val(t) => {
            match shift_into_spec(c, b, op, width, lhs, rhs) {
                Err(halt) => Err(halt),
                Ok((b, d)) => {
                    define_temp_reg_spec(c, b, t.0, d)
                },
            }
        },
    }
}

/// A one-operand operation in a scratch register.
pub open spec fn unary_into_spec(
    c: Ctx,
    b: Bound,
    op: UnaryOp,
    width: Width,
    src: Src,
) -> Step<Gpr> {
    match scratch_spec(c, b, Exclude::Nothing) {
        Err(halt) => Err(halt),
        Ok((b, d)) => {
            match rmi_of_spec(c, b, src) {
                Err(halt) => Err(halt),
                Ok((b, rmi)) => {
                    let b = b.emit(Op::Mov { width, dst: Rm::Reg(d), src: rmi });
                    match op {
                        UnaryOp::Neg => {
                            let b = b.emit(Op::Neg { width, dst: Rm::Reg(d) });
                            Ok((b, d))
                        },
                        UnaryOp::Not => {
                            let b = b.emit(Op::Not { width, dst: Rm::Reg(d) });
                            Ok((b, d))
                        },
                    }
                },
            }
        },
    }
}

/// A one-operand operation.
#[verifier::opaque]
pub open spec fn emit_unary_spec(
    c: Ctx,
    b: Bound,
    op: UnaryOp,
    width: Width,
    dst: Place,
    src: Src,
) -> Step<()> {
    match dst {
        Place::Reg(_) => {
            b.halt(Stop::Fail(CompileError::Internal("unary destination is always a value")))
        },
        Place::Val(t) => {
            match unary_into_spec(c, b, op, width, src) {
                Err(halt) => Err(halt),
                Ok((b, d)) => {
                    define_temp_reg_spec(c, b, t.0, d)
                },
            }
        },
    }
}

/// The outcome of a comparison as 0 or 1. Moves leave the flags alone.
#[verifier::opaque]
pub open spec fn emit_setcc_spec(c: Ctx, b: Bound, cc: CondCode, dst: Place) -> Step<()> {
    match dst {
        Place::Val(t) => {
            match scratch_spec(c, b, Exclude::Nothing) {
                Err(halt) => Err(halt),
                Ok((b, g)) => {
                    let b = b.emit(
                        Op::Mov { width: Width::W32, dst: Rm::Reg(g), src: Rmi::Imm(0) },
                    );
                    let b = b.emit(Op::Setcc { cc, dst: g });
                    define_temp_reg_spec(c, b, t.0, g)
                },
            }
        },
        Place::Reg(g) => {
            match run_moves_spec(c, b, Request::Clobber(g.phys())) {
                Err(halt) => Err(halt),
                Ok((b, _)) => {
                    let b = b.emit(
                        Op::Mov { width: Width::W32, dst: Rm::Reg(g), src: Rmi::Imm(0) },
                    );
                    let b = b.emit(Op::Setcc { cc, dst: g });
                    Ok((b, ()))
                },
            }
        },
    }
}

/// From 32 to 64 bits: a 32-bit move clears the upper half.
pub open spec fn ext_into_spec(c: Ctx, b: Bound, g: Gpr, src: Src, signed: bool) -> Step<()> {
    if signed {
        match rm_of_spec(c, b, src, Width::W32, Exclude::One(g.phys())) {
            Err(halt) => Err(halt),
            Ok((b, rm)) => {
                let b = b.emit(Op::Movsxd { dst: g, src: rm });
                Ok((b, ()))
            },
        }
    } else {
        match rmi_of_spec(c, b, src) {
            Err(halt) => Err(halt),
            Ok((b, rmi)) => {
                let b = b.emit(Op::Mov { width: Width::W32, dst: Rm::Reg(g), src: rmi });
                Ok((b, ()))
            },
        }
    }
}

/// From 32 to 64 bits.
#[verifier::opaque]
pub open spec fn emit_movext_spec(
    c: Ctx,
    b: Bound,
    dst: Place,
    src: Src,
    signed: bool,
) -> Step<()> {
    match dst {
        Place::Val(t) => {
            match scratch_spec(c, b, Exclude::Nothing) {
                Err(halt) => Err(halt),
                Ok((b, g)) => {
                    match ext_into_spec(c, b, g, src, signed) {
                        Err(halt) => Err(halt),
                        Ok((b, _)) => {
                            define_temp_reg_spec(c, b, t.0, g)
                        },
                    }
                },
            }
        },
        Place::Reg(g) => {
            match run_moves_spec(c, b, Request::Clobber(g.phys())) {
                Err(halt) => Err(halt),
                Ok((b, _)) => {
                    ext_into_spec(c, b, g, src, signed)
                },
            }
        },
    }
}

/// Integer arithmetic in a scratch register. A product by a constant that fits
/// takes one instruction.
pub open spec fn arith_into_spec(
    c: Ctx,
    b: Bound,
    op: ArithOp,
    width: Width,
    lhs: Src,
    rhs: Src,
) -> Step<Gpr> {
    match scratch_spec(c, b, Exclude::Nothing) {
        Err(halt) => Err(halt),
        Ok((b, d)) => {
            if op == ArithOp::Imul && is_small_imm(rhs) {
                match rm_of_spec(c, b, lhs, width, Exclude::One(d.phys())) {
                    Err(halt) => Err(halt),
                    Ok((b, l)) => {
                        let b = b.emit(Op::ImulImm { width, dst: d, lhs: l, imm: imm_of(rhs) });
                        Ok((b, d))
                    },
                }
            } else {
                match rmi_of_spec(c, b, lhs) {
                    Err(halt) => Err(halt),
                    Ok((b, l)) => {
                        let b = b.emit(Op::Mov { width, dst: Rm::Reg(d), src: l });
                        match alu_of(op) {
                            Some(alu) => {
                                match wide_imm_spec(c, b, width, rhs, Exclude::One(d.phys())) {
                                    Err(halt) => Err(halt),
                                    Ok((b, r)) => {
                                        let b = b.emit(
                                            Op::Alu { op: alu, width, dst: Rm::Reg(d), src: r },
                                        );
                                        Ok((b, d))
                                    },
                                }
                            },
                            None => {
                                match rm_of_spec(c, b, rhs, width, Exclude::One(d.phys())) {
                                    Err(halt) => Err(halt),
                                    Ok((b, r)) => {
                                        let b = b.emit(Op::Imul { width, dst: d, src: r });
                                        Ok((b, d))
                                    },
                                }
                            },
                        }
                    },
                }
            }
        },
    }
}

/// Integer arithmetic.
#[verifier::opaque]
pub open spec fn emit_arith_spec(
    c: Ctx,
    b: Bound,
    op: ArithOp,
    width: Width,
    dst: Place,
    lhs: Src,
    rhs: Src,
) -> Step<()> {
    match dst {
        Place::Reg(_) => {
            b.halt(Stop::Fail(CompileError::Internal("arithmetic destination is always a value")))
        },
        Place::Val(t) => {
            match arith_into_spec(c, b, op, width, lhs, rhs) {
                Err(halt) => Err(halt),
                Ok((b, d)) => {
                    define_temp_reg_spec(c, b, t.0, d)
                },
            }
        },
    }
}

/// A comparison. An immediate left side, or memory on both sides, takes a
/// scratch register. The right side is resolved first, so that its scratch
/// register cannot take the place of the left side.
#[verifier::opaque]
pub open spec fn emit_cmp_spec(c: Ctx, b: Bound, width: Width, lhs: Src, rhs: Src) -> Step<()> {
    match wide_imm_spec(c, b, width, rhs, Exclude::Nothing) {
        Err(halt) => Err(halt),
        Ok((b, r)) => {
            match rmi_of_spec(c, b, lhs) {
                Err(halt) => Err(halt),
                Ok((b, l)) => {
                    match l {
                        Rmi::Reg(g) => {
                            let b = b.emit(
                                Op::Alu { op: AluOp::Cmp, width, dst: Rm::Reg(g), src: r },
                            );
                            Ok((b, ()))
                        },
                        Rmi::Mem(m) => {
                            match r {
                                Rmi::Mem(_) => {
                                    match scratch_spec(c, b, Exclude::Nothing) {
                                        Err(halt) => Err(halt),
                                        Ok((b, g)) => {
                                            let b = b.emit(
                                                Op::Mov { width, dst: Rm::Reg(g), src: l },
                                            );
                                            let b = b.emit(
                                                Op::Alu {
                                                    op: AluOp::Cmp,
                                                    width,
                                                    dst: Rm::Reg(g),
                                                    src: r,
                                                },
                                            );
                                            Ok((b, ()))
                                        },
                                    }
                                },
                                _ => {
                                    let b = b.emit(
                                        Op::Alu { op: AluOp::Cmp, width, dst: Rm::Mem(m), src: r },
                                    );
                                    Ok((b, ()))
                                },
                            }
                        },
                        Rmi::Imm(_) => {
                            match scratch_spec(c, b, exclude_reg(r)) {
                                Err(halt) => Err(halt),
                                Ok((b, g)) => {
                                    let b = b.emit(Op::Mov { width, dst: Rm::Reg(g), src: l });
                                    let b = b.emit(
                                        Op::Alu { op: AluOp::Cmp, width, dst: Rm::Reg(g), src: r },
                                    );
                                    Ok((b, ()))
                                },
                            }
                        },
                    }
                },
            }
        },
    }
}

/// A division by `rdx:rax`: both are spilled, and the divisor keeps clear of
/// them.
#[verifier::opaque]
pub open spec fn emit_divide_spec(
    c: Ctx,
    b: Bound,
    width: Width,
    divisor: Src,
    signed: bool,
) -> Step<()> {
    match run_moves_spec(c, b, Request::Clobber(Gpr::Rax.phys())) {
        Err(halt) => Err(halt),
        Ok((b, _)) => {
            match run_moves_spec(c, b, Request::Clobber(Gpr::Rdx.phys())) {
                Err(halt) => Err(halt),
                Ok((b, _)) => {
                    match rm_of_spec(
                        c,
                        b,
                        divisor,
                        width,
                        Exclude::Two(Gpr::Rax.phys(), Gpr::Rdx.phys()),
                    ) {
                        Err(halt) => Err(halt),
                        Ok((b, rm)) => {
                            if signed {
                                let b = b.emit(Op::Idiv { width, divisor: rm });
                                Ok((b, ()))
                            } else {
                                let b = b.emit(Op::Div { width, divisor: rm });
                                Ok((b, ()))
                            }
                        },
                    }
                },
            }
        },
    }
}

/// A call whose target is known: at an address, or in a slot. All registers are
/// spilled first.
#[verifier::opaque]
pub open spec fn emit_call_lookup_spec(
    c: Ctx,
    b: Bound,
    method: Option<MethodHandle>,
    addr: Option<u64>,
    slot: Option<u64>,
) -> Step<()> {
    match run_moves_spec(c, b, Request::SpillRegisters) {
        Err(halt) => Err(halt),
        Ok((b, _)) => {
            match addr {
                Some(target) => {
                    let b = b.emit(Op::Call { form: CallForm::Direct, method, target });
                    Ok((b, ()))
                },
                None => {
                    match slot {
                        Some(target) => {
                            let b = b.emit(Op::Call { form: CallForm::Indirect, method, target });
                            Ok((b, ()))
                        },
                        None => {
                            b.halt(
                                Stop::Fail(
                                    CompileError::Unsupported(
                                        "call target with more than one indirection (IAT_PPVALUE/IAT_RELPVALUE)",
                                    ),
                                ),
                            )
                        },
                    }
                },
            }
        },
    }
}

/// A call of a method.
#[verifier::opaque]
pub open spec fn emit_call_spec(c: Ctx, b: Bound, method: MethodHandle) -> Step<()> {
    match lookup_spec(c, b, Request::EntryPoint(method)) {
        Err(halt) => Err(halt),
        Ok((b, target)) => {
            emit_call_lookup_spec(c, b, Some(method), target.addr, target.slot)
        },
    }
}

/// A call of a helper.
#[verifier::opaque]
pub open spec fn emit_helper_call_spec(c: Ctx, b: Bound, id: CorInfoHelpFunc) -> Step<()> {
    match lookup_spec(c, b, Request::HelperEntry(id)) {
        Err(halt) => Err(halt),
        Ok((b, target)) => {
            emit_call_lookup_spec(c, b, None, target.addr, target.slot)
        },
    }
}

/// An instruction on floats.
#[verifier::opaque]
pub open spec fn emit_float_inst_spec(c: Ctx, b: Bound, inst: Inst) -> Step<()> {
    match inst {
        Inst::ConstF { width, dst, bits } => {
            emit_const_f_spec(c, b, width, dst, bits)
        },
        Inst::MovF { width, dst, src } => {
            emit_mov_f_spec(c, b, width, dst, src)
        },
        Inst::ArithF { op, width, dst, lhs, rhs } => {
            emit_arith_f_spec(c, b, op, width, dst, lhs, rhs)
        },
        Inst::NegF { width, dst, src } => {
            emit_neg_f_spec(c, b, width, dst, src)
        },
        Inst::CmpF { width, lhs, rhs } => {
            emit_cmp_f_spec(c, b, width, lhs, rhs)
        },
        Inst::SetccF { op, dst } => {
            emit_setcc_f_spec(c, b, op, dst)
        },
        Inst::JccF { op, target } => {
            emit_jcc_f_spec(c, b, op, target)
        },
        Inst::CvtIntToF { width, src_w64, dst, src } => {
            emit_cvt_int_to_f_spec(c, b, width, src_w64, dst, src)
        },
        Inst::CvtFToInt { src_width, dst_w64, dst, src } => {
            emit_cvt_f_to_int_spec(c, b, src_width, dst_w64, dst, src)
        },
        Inst::CvtFToF { to, dst, src } => {
            emit_cvt_f_to_f_spec(c, b, to, dst, src)
        },
        _ => {
            b.halt(
                Stop::Fail(
                    CompileError::Unsupported("instruction outside the tier-0 emission subset"),
                ),
            )
        },
    }
}

/// An instruction whose operands are fixed.
#[verifier::opaque]
pub open spec fn emit_plain_inst_spec(c: Ctx, b: Bound, inst: Inst) -> Step<()> {
    match inst {
        Inst::Cdq { width } => {
            match run_moves_spec(c, b, Request::Clobber(Gpr::Rdx.phys())) {
                Err(halt) => Err(halt),
                Ok((b, _)) => {
                    let b = b.emit(Op::Cdq { width });
                    Ok((b, ()))
                },
            }
        },
        Inst::Jcc { cc, target } => {
            let b = b.emit(Op::Jcc { cc, target });
            Ok((b, ()))
        },
        Inst::Jmp { target } => {
            let b = b.emit(Op::Jmp { target });
            Ok((b, ()))
        },
        Inst::Push { reg } => {
            let b = b.emit(Op::Push { reg });
            Ok((b, ()))
        },
        Inst::AllocFrame => {
            match frame_imm_spec(c, b) {
                Err(halt) => Err(halt),
                Ok((b, size)) => {
                    let b = b.emit(
                        Op::Alu {
                            op: AluOp::Sub,
                            width: Width::W64,
                            dst: Rm::Reg(STACK_POINTER),
                            src: Rmi::Imm(size),
                        },
                    );
                    Ok((b, ()))
                },
            }
        },
        Inst::Leave => {
            let b = b.emit(Op::Leave);
            Ok((b, ()))
        },
        Inst::Ret => {
            let b = b.emit(Op::Ret);
            Ok((b, ()))
        },
        _ => {
            b.halt(
                Stop::Fail(
                    CompileError::Unsupported("instruction outside the tier-0 emission subset"),
                ),
            )
        },
    }
}

/// One instruction, bound to registers and slots.
pub open spec fn emit_inst_spec(c: Ctx, b: Bound, inst: Inst) -> Step<()> {
    match inst {
        Inst::Mov { width, dst, src } => {
            emit_mov_spec(c, b, width, dst, src)
        },
        Inst::Lea { dst, addr } => {
            emit_lea_spec(c, b, dst, addr)
        },
        Inst::Arith { op, width, dst, lhs, rhs } => {
            emit_arith_spec(c, b, op, width, dst, lhs, rhs)
        },
        Inst::Idiv { width, divisor } => {
            emit_divide_spec(c, b, width, divisor, true)
        },
        Inst::Div { width, divisor } => {
            emit_divide_spec(c, b, width, divisor, false)
        },
        Inst::Shift { op, width, dst, lhs, rhs } => {
            emit_shift_spec(c, b, op, width, dst, lhs, rhs)
        },
        Inst::Unary { op, width, dst, src } => {
            emit_unary_spec(c, b, op, width, dst, src)
        },
        Inst::Setcc { cc, dst } => {
            emit_setcc_spec(c, b, cc, dst)
        },
        Inst::MovExt { dst, src, signed } => {
            emit_movext_spec(c, b, dst, src, signed)
        },
        Inst::Cmp { width, lhs, rhs } => {
            emit_cmp_spec(c, b, width, lhs, rhs)
        },
        Inst::CallDirect { method } => {
            emit_call_spec(c, b, method)
        },
        Inst::CallHelper { id } => {
            emit_helper_call_spec(c, b, id)
        },
        Inst::ConstF { .. }
        | Inst::MovF { .. }
        | Inst::ArithF { .. }
        | Inst::NegF { .. }
        | Inst::CmpF { .. }
        | Inst::SetccF { .. }
        | Inst::JccF { .. }
        | Inst::CvtIntToF { .. }
        | Inst::CvtFToInt { .. }
        | Inst::CvtFToF { .. } => {
            emit_float_inst_spec(c, b, inst)
        },
        Inst::Cdq { .. }
        | Inst::Jcc { .. }
        | Inst::Jmp { .. }
        | Inst::Push { .. }
        | Inst::AllocFrame
        | Inst::Leave
        | Inst::Ret => {
            emit_plain_inst_spec(c, b, inst)
        },
        _ => {
            b.halt(
                Stop::Fail(
                    CompileError::Unsupported("instruction outside the tier-0 emission subset"),
                ),
            )
        },
    }
}

/// The binding of one descriptor.
pub struct Binder<'a> {
    facts: &'a Facts,
    replies: &'a Vec<Reply>,
    next: usize,
    ops: Vec<Op>,
    synthetic: u32,
    asked: Ghost<Seq<Asked>>,
}

impl<'a> View for Binder<'a> {
    type V = Bound;

    closed spec fn view(&self) -> Bound {
        Bound {
            next: self.next as nat,
            ops: self.ops@,
            synthetic: self.synthetic,
            asked: self.asked@,
        }
    }
}

/// A step of a binding keeps what the binding works on.
pub open spec fn step_is(before: Binder, after: Binder) -> bool {
    after.valid() && after.ctx() == before.ctx()
}

impl<'a> Binder<'a> {
    /// What the binding works on.
    pub closed spec fn ctx(&self) -> Ctx {
        self.facts.with(self.replies@)
    }

    /// Every instruction so far has an encoding.
    pub open spec fn valid(&self) -> bool {
        &&& fits_i32(self.ctx().frame_size as int)
        &&& forall|i: int| 0 <= i < self@.ops.len() ==> op_valid(#[trigger] self@.ops[i])
    }

    /// Start binding, with the replies from `next` on.
    pub fn new(
        facts: &'a Facts,
        replies: &'a Vec<Reply>,
        next: usize,
        synthetic: u32,
    ) -> (b: Binder<
        'a,
    >)
        requires
            fits_i32(facts.frame_size as int),
        ensures
            b.valid(),
            b.ctx() == facts.with(replies@),
            b@ == (Bound {
                next: next as nat,
                ops: Seq::empty(),
                synthetic,
                asked: Seq::empty(),
            }),
    {
        Binder { facts, replies, next, ops: Vec::new(), synthetic, asked: Ghost(Seq::empty()) }
    }

    /// The instructions, the replies used, and the next label that is no block.
    pub fn finish(self) -> (r: (Vec<Op>, usize, u32))
        ensures
            r.0@ == self@.ops,
            r.1 == self@.next,
            r.2 == self@.synthetic,
    {
        (self.ops, self.next, self.synthetic)
    }

    fn emit(&mut self, op: Op)
        requires
            old(self).valid(),
            op_valid(op),
        ensures
            step_is(*old(self), *final(self)),
            final(self)@ == old(self)@.emit(op),
    {
        self.ops.push(op);
        assert(self@ =~= old(self)@.emit(op));
    }

    fn gpr(&mut self, reg: PhysReg) -> (r: Result<Gpr, Stop>)
        requires
            old(self).valid(),
        ensures
            step_is(*old(self), *final(self)),
            answers(r, final(self)@, gpr_spec(old(self).ctx(), old(self)@, reg)),
    {
        match Gpr::from_phys(reg) {
            Some(g) => Ok(g),
            None => Err(Stop::Fail(CompileError::Internal("PhysReg outside the GPR range"))),
        }
    }

    fn ty_of(&mut self, id: LocalId) -> (r: Result<Type, Stop>)
        requires
            old(self).valid(),
        ensures
            step_is(*old(self), *final(self)),
            answers(r, final(self)@, ty_of_spec(old(self).ctx(), old(self)@, id)),
    {
        let i: usize = id.0 as usize;
        if i < self.facts.types.len() {
            Ok(self.facts.types[i])
        } else {
            Err(Stop::Fail(CompileError::Internal("local out of range")))
        }
    }

    fn slot_of(&mut self, id: LocalId) -> (r: Result<u32, Stop>)
        requires
            old(self).valid(),
        ensures
            step_is(*old(self), *final(self)),
            answers(r, final(self)@, slot_of_spec(old(self).ctx(), old(self)@, id)),
    {
        let i: usize = id.0 as usize;
        if i < self.facts.slots.len() {
            Ok(self.facts.slots[i])
        } else {
            Err(Stop::Fail(CompileError::Internal("local out of range")))
        }
    }

    fn is_fixed(&mut self, id: LocalId) -> (r: Result<bool, Stop>)
        requires
            old(self).valid(),
        ensures
            step_is(*old(self), *final(self)),
            answers(r, final(self)@, is_fixed_spec(old(self).ctx(), old(self)@, id)),
    {
        Ok((id.0 as u64) < self.facts.num_frame_fixed)
    }

    fn frame_imm(&mut self) -> (r: Result<i64, Stop>)
        requires
            old(self).valid(),
        ensures
            step_is(*old(self), *final(self)),
            answers(r, final(self)@, frame_imm_spec(old(self).ctx(), old(self)@)),
    {
        Ok(self.facts.frame_size as i64)
    }

    /// A label that is no block: the next smaller one.
    pub fn synthetic_label(&mut self) -> (r: Result<Label, Stop>)
        requires
            old(self).valid(),
        ensures
            step_is(*old(self), *final(self)),
            answers(r, final(self)@, synthetic_label_spec(old(self).ctx(), old(self)@)),
    {
        if self.synthetic == 0 {
            Err(Stop::Fail(CompileError::Internal("out of synthetic labels")))
        } else {
            let label: Label = Label(BlockId(self.synthetic));
            self.synthetic = self.synthetic - 1;
            Ok(label)
        }
    }

    /// One move as an instruction.
    fn op_of_move(m: Move) -> (r: Result<Op, Stop>)
        ensures
            r == move_op(m),
            r is Ok ==> op_valid(r->Ok_0),
    {
        let (ty, reg, message): (Type, PhysReg, &'static str) = match m {
            Move::Spill { reg, ty, .. } => (ty, reg, "spill of a non-GPR value"),
            Move::Reload { ty, reg, .. } => (ty, reg, "reload of a non-GPR value"),
            Move::Remat { reg, ty, .. } => (ty, reg, "rematerialization of a non-GPR value"),
        };
        let width: Width = match width_of_ty(ty) {
            Some(width) => width,
            None => return Err(Stop::Fail(CompileError::Internal(message))),
        };
        let g: Gpr = match Gpr::from_phys(reg) {
            Some(g) => g,
            None => {
                return Err(Stop::Fail(CompileError::Internal("PhysReg outside the GPR range")));
            },
        };
        match m {
            Move::Spill { slot, .. } => Ok(
                Op::Mov { width, dst: Rm::Mem(slot_mem(slot)), src: Rmi::Reg(g) },
            ),
            Move::Reload { slot, .. } => Ok(
                Op::Mov { width, dst: Rm::Reg(g), src: Rmi::Mem(slot_mem(slot)) },
            ),
            Move::Remat { imm, .. } => Ok(Op::Mov { width, dst: Rm::Reg(g), src: Rmi::Imm(imm) }),
        }
    }

    /// Emit the moves that the value machine decided on.
    fn apply(&mut self, moves: &Vec<Move>) -> (r: Result<(), Stop>)
        requires
            old(self).valid(),
        ensures
            step_is(*old(self), *final(self)),
            answers(r, final(self)@, apply_spec(old(self)@, moves@, moves@.len())),
    {
        let ghost before = self@;
        let mut n: usize = 0;
        while n < moves.len()
            invariant
                n <= moves.len(),
                self.valid(),
                before == old(self)@,
                self.ctx() == old(self).ctx(),
                apply_spec(before, moves@, n as nat) == Ok::<(Bound, ()), Halt>((self@, ())),
            decreases moves.len() - n,
        {
            match Self::op_of_move(moves[n]) {
                Ok(op) => self.emit(op),
                Err(stop) => {
                    proof {
                        lemma_apply_fails(before, moves@, (n + 1) as nat, moves@.len());
                    }
                    return Err(stop);
                },
            }
            n = n + 1;
        }
        Ok(())
    }

    fn run_moves(&mut self, request: Request) -> (r: Result<(), Stop>)
        requires
            old(self).valid(),
        ensures
            step_is(*old(self), *final(self)),
            answers(r, final(self)@, run_moves_spec(old(self).ctx(), old(self)@, request)),
    {
        let replies: &Vec<Reply> = self.replies;
        if self.next >= replies.len() {
            return Err(Stop::Ask(request));
        }
        match &replies[self.next] {
            Reply::Moves(moves) => {
                self.next = self.next + 1;
                self.asked = Ghost(
                    self.asked@.push(Asked { request: request, emitted: self.ops@.len() }),
                );
                assert(self@ =~= old(self)@.used(request));
                self.apply(moves)
            },
            _ => Err(Stop::Fail(CompileError::Internal("reply does not answer the request"))),
        }
    }

    fn scratch(&mut self, exclude: Exclude) -> (r: Result<Gpr, Stop>)
        requires
            old(self).valid(),
        ensures
            step_is(*old(self), *final(self)),
            answers(r, final(self)@, scratch_spec(old(self).ctx(), old(self)@, exclude)),
    {
        let replies: &Vec<Reply> = self.replies;
        if self.next >= replies.len() {
            return Err(Stop::Ask(Request::TakeScratch(exclude)));
        }
        match &replies[self.next] {
            Reply::Scratch { reg, moves } => {
                self.next = self.next + 1;
                self.asked = Ghost(
                    self.asked@.push(
                        Asked { request: Request::TakeScratch(exclude), emitted: self.ops@.len() },
                    ),
                );
                assert(self@ =~= old(self)@.used(Request::TakeScratch(exclude)));
                self.apply(moves)?;
                self.gpr(*reg)
            },
            _ => Err(Stop::Fail(CompileError::Internal("reply does not answer the request"))),
        }
    }

    fn read(&mut self, id: LocalId) -> (r: Result<ReadSrc, Stop>)
        requires
            old(self).valid(),
        ensures
            step_is(*old(self), *final(self)),
            answers(r, final(self)@, read_spec(old(self).ctx(), old(self)@, id)),
    {
        let replies: &Vec<Reply> = self.replies;
        if self.next >= replies.len() {
            return Err(Stop::Ask(Request::Read(id)));
        }
        match &replies[self.next] {
            Reply::Source(source) => {
                self.next = self.next + 1;
                self.asked = Ghost(
                    self.asked@.push(
                        Asked { request: Request::Read(id), emitted: self.ops@.len() },
                    ),
                );
                assert(self@ =~= old(self)@.used(Request::Read(id)));
                Ok(*source)
            },
            _ => Err(Stop::Fail(CompileError::Internal("reply does not answer the request"))),
        }
    }

    fn lookup(&mut self, request: Request) -> (r: Result<Lookup, Stop>)
        requires
            old(self).valid(),
        ensures
            step_is(*old(self), *final(self)),
            answers(r, final(self)@, lookup_spec(old(self).ctx(), old(self)@, request)),
    {
        let replies: &Vec<Reply> = self.replies;
        if self.next >= replies.len() {
            return Err(Stop::Ask(request));
        }
        match &replies[self.next] {
            Reply::Target(lookup) => {
                self.next = self.next + 1;
                self.asked = Ghost(
                    self.asked@.push(Asked { request: request, emitted: self.ops@.len() }),
                );
                assert(self@ =~= old(self)@.used(request));
                Ok(*lookup)
            },
            _ => Err(Stop::Fail(CompileError::Internal("reply does not answer the request"))),
        }
    }

    /// Bring every value to its slot, before an edge of the flow graph.
    pub fn join(&mut self) -> (r: Result<(), Stop>)
        requires
            old(self).valid(),
        ensures
            step_is(*old(self), *final(self)),
            answers(
                r,
                final(self)@,
                run_moves_spec(old(self).ctx(), old(self)@, Request::SpillAll),
            ),
    {
        self.run_moves(Request::SpillAll)
    }

    /// Start a block.
    pub fn reset(&mut self) -> (r: Result<(), Stop>)
        requires
            old(self).valid(),
        ensures
            step_is(*old(self), *final(self)),
            answers(r, final(self)@, reset_spec(old(self).ctx(), old(self)@)),
    {
        let replies: &Vec<Reply> = self.replies;
        if self.next >= replies.len() {
            return Err(Stop::Ask(Request::Reset));
        }
        match &replies[self.next] {
            Reply::Done => {
                self.next = self.next + 1;
                self.asked = Ghost(
                    self.asked@.push(Asked { request: Request::Reset, emitted: self.ops@.len() }),
                );
                assert(self@ =~= old(self)@.used(Request::Reset));
                Ok(())
            },
            _ => Err(Stop::Fail(CompileError::Internal("reply does not answer the request"))),
        }
    }

    /// A source as a physical operand.
    fn rmi_of(&mut self, src: Src) -> (r: Result<Rmi, Stop>)
        requires
            old(self).valid(),
        ensures
            step_is(*old(self), *final(self)),
            answers(r, final(self)@, rmi_of_spec(old(self).ctx(), old(self)@, src)),
    {
        match src {
            Src::Reg(g) => {
                Ok(Rmi::Reg(g))
            },
            Src::Imm(i) => {
                Ok(Rmi::Imm(i))
            },
            Src::Val(v) => {
                let source = self.read(v.0)?;
                match source {
                    ReadSrc::Reg(p) => {
                        let g = self.gpr(p)?;
                        Ok(Rmi::Reg(g))
                    },
                    ReadSrc::Slot(offset) => {
                        Ok(Rmi::Mem(slot_mem(offset)))
                    },
                    ReadSrc::Imm(i) => {
                        Ok(Rmi::Imm(i))
                    },
                }
            },
        }
    }

    /// Like [`rmi_of_spec`], but an immediate that a 64-bit instruction cannot hold
    /// goes to a scratch register.
    fn wide_imm(&mut self, width: Width, src: Src, exclude: Exclude) -> (r: Result<Rmi, Stop>)
        requires
            old(self).valid(),
        ensures
            step_is(*old(self), *final(self)),
            answers(
                r,
                final(self)@,
                wide_imm_spec(old(self).ctx(), old(self)@, width, src, exclude),
            ),
    {
        let rmi = self.rmi_of(src)?;
        match wide_imm_of(width, rmi) {
            Some(i) => {
                let g = self.scratch(exclude)?;
                self.emit(Op::Mov { width: Width::W64, dst: Rm::Reg(g), src: Rmi::Imm(i) });
                Ok(Rmi::Reg(g))
            },
            None => {
                Ok(rmi)
            },
        }
    }

    /// A source as a register or memory operand; an immediate goes to a scratch
    /// register.
    fn rm_of(&mut self, src: Src, width: Width, exclude: Exclude) -> (r: Result<Rm, Stop>)
        requires
            old(self).valid(),
        ensures
            step_is(*old(self), *final(self)),
            answers(r, final(self)@, rm_of_spec(old(self).ctx(), old(self)@, src, width, exclude)),
    {
        let rmi = self.rmi_of(src)?;
        match rmi {
            Rmi::Reg(g) => {
                Ok(Rm::Reg(g))
            },
            Rmi::Mem(m) => {
                Ok(Rm::Mem(m))
            },
            Rmi::Imm(i) => {
                let g = self.scratch(exclude)?;
                self.emit(Op::Mov { width, dst: Rm::Reg(g), src: Rmi::Imm(i) });
                Ok(Rm::Reg(g))
            },
        }
    }

    /// The value of a temporary is in `g`. A GC pointer goes to its slot at once.
    fn define_temp_reg(&mut self, t: LocalId, g: Gpr) -> (r: Result<(), Stop>)
        requires
            old(self).valid(),
        ensures
            step_is(*old(self), *final(self)),
            answers(r, final(self)@, define_temp_reg_spec(old(self).ctx(), old(self)@, t, g)),
    {
        let ty = self.ty_of(t)?;
        if is_gc(ty) {
            let slot = self.slot_of(t)?;
            self.emit(
                Op::Mov { width: Width::W64, dst: Rm::Mem(slot_mem(slot)), src: Rmi::Reg(g) },
            );
            self.run_moves(Request::Define(t, Loc::Mem(slot)))
        } else {
            self.run_moves(Request::Define(t, Loc::Reg(g.phys())))
        }
    }

    /// The float with a bit pattern, through a scratch register.
    fn materialize_bits(&mut self, dst: Xmm, width: FWidth, bits: u64) -> (r: Result<(), Stop>)
        requires
            old(self).valid(),
        ensures
            step_is(*old(self), *final(self)),
            answers(
                r,
                final(self)@,
                materialize_bits_spec(old(self).ctx(), old(self)@, dst, width, bits),
            ),
    {
        let g = self.scratch(Exclude::Nothing)?;
        self.emit(
            Op::Mov { width: int_width(width), dst: Rm::Reg(g), src: Rmi::Imm(bits_imm(bits)) },
        );
        self.emit(Op::MovGprToXmm { width, dst, src: g });
        Ok(())
    }

    /// A float source as a physical operand. A float value is always in its slot.
    fn rmx_of(&mut self, src: XmmSrc, width: FWidth, scratch: Xmm) -> (r: Result<RmX, Stop>)
        requires
            old(self).valid(),
        ensures
            step_is(*old(self), *final(self)),
            answers(r, final(self)@, rmx_of_spec(old(self).ctx(), old(self)@, src, width, scratch)),
    {
        match src {
            XmmSrc::Reg(x) => {
                Ok(RmX::Reg(x))
            },
            XmmSrc::Val(v) => {
                let source = self.read(v.0)?;
                match source {
                    ReadSrc::Slot(offset) => {
                        Ok(RmX::Mem(slot_mem(offset)))
                    },
                    _ => {
                        Err(Stop::Fail(CompileError::Internal("float value not slot-resident")))
                    },
                }
            },
            XmmSrc::Bits(bits) => {
                self.materialize_bits(scratch, width, bits)?;
                Ok(RmX::Reg(scratch))
            },
        }
    }

    /// A float result goes to its register or slot. Values that still read the slot
    /// of a local move away first.
    fn define_xmm(&mut self, dst: XmmPlace, width: FWidth, src: Xmm) -> (r: Result<(), Stop>)
        requires
            old(self).valid(),
        ensures
            step_is(*old(self), *final(self)),
            answers(r, final(self)@, define_xmm_spec(old(self).ctx(), old(self)@, dst, width, src)),
    {
        match dst {
            XmmPlace::Reg(x) => {
                if x != src {
                    self.emit(Op::MovFLoad { width, dst: x, src: RmX::Reg(src) });
                }
                Ok(())
            },
            XmmPlace::Val(v) => {
                let slot = self.slot_of(v.0)?;
                let fixed = self.is_fixed(v.0)?;
                if fixed {
                    self.run_moves(Request::BeforeLocalWrite(v.0))?;
                    self.emit(Op::MovFStore { width, dst: slot_mem(slot), src });
                    Ok(())
                } else {
                    self.emit(Op::MovFStore { width, dst: slot_mem(slot), src });
                    self.run_moves(Request::Define(v.0, Loc::Mem(slot)))
                }
            },
        }
    }

    /// A float constant. To a slot it goes without a float register.
    fn emit_const_f(&mut self, width: FWidth, dst: XmmPlace, bits: u64) -> (r: Result<(), Stop>)
        requires
            old(self).valid(),
        ensures
            step_is(*old(self), *final(self)),
            answers(
                r,
                final(self)@,
                emit_const_f_spec(old(self).ctx(), old(self)@, width, dst, bits),
            ),
    {
        proof {
            reveal(emit_const_f_spec);
        }
        match dst {
            XmmPlace::Reg(x) => {
                self.materialize_bits(x, width, bits)
            },
            XmmPlace::Val(v) => {
                let slot = self.slot_of(v.0)?;
                let fixed = self.is_fixed(v.0)?;
                if fixed {
                    self.run_moves(Request::BeforeLocalWrite(v.0))?;
                }
                match width {
                    FWidth::S => {
                        self.emit(
                            Op::Mov {
                                width: Width::W32,
                                dst: Rm::Mem(slot_mem(slot)),
                                src: Rmi::Imm(bits_imm(bits)),
                            },
                        );
                        if !fixed {
                            self.run_moves(Request::Define(v.0, Loc::Mem(slot)))?;
                        }
                        Ok(())
                    },
                    FWidth::D => {
                        let g = self.scratch(Exclude::Nothing)?;
                        self.emit(
                            Op::Mov {
                                width: Width::W64,
                                dst: Rm::Reg(g),
                                src: Rmi::Imm(bits_imm(bits)),
                            },
                        );
                        self.emit(
                            Op::Mov {
                                width: Width::W64,
                                dst: Rm::Mem(slot_mem(slot)),
                                src: Rmi::Reg(g),
                            },
                        );
                        if !fixed {
                            self.run_moves(Request::Define(v.0, Loc::Mem(slot)))?;
                        }
                        Ok(())
                    },
                }
            },
        }
    }

    /// A float move.
    fn emit_mov_f(&mut self, width: FWidth, dst: XmmPlace, src: XmmSrc) -> (r: Result<(), Stop>)
        requires
            old(self).valid(),
        ensures
            step_is(*old(self), *final(self)),
            answers(r, final(self)@, emit_mov_f_spec(old(self).ctx(), old(self)@, width, dst, src)),
    {
        proof {
            reveal(emit_mov_f_spec);
        }
        let from = self.rmx_of(src, width, SCRATCH_XMM_A)?;
        match dst {
            XmmPlace::Reg(x) => {
                self.emit(Op::MovFLoad { width, dst: x, src: from });
                Ok(())
            },
            XmmPlace::Val(v) => {
                match from {
                    RmX::Reg(x) => {
                        self.define_xmm(XmmPlace::Val(v), width, x)
                    },
                    RmX::Mem(m) => {
                        let slot = self.slot_of(v.0)?;
                        if m == slot_mem(slot) {
                            Ok(())
                        } else {
                            self.emit(Op::MovFLoad { width, dst: SCRATCH_XMM_A, src: RmX::Mem(m) });
                            self.define_xmm(XmmPlace::Val(v), width, SCRATCH_XMM_A)
                        }
                    },
                }
            },
        }
    }

    /// Float arithmetic, in the first scratch register.
    fn emit_arith_f(
        &mut self,
        op: ArithFOp,
        width: FWidth,
        dst: XmmPlace,
        lhs: XmmSrc,
        rhs: XmmSrc,
    ) -> (r: Result<(), Stop>)
        requires
            old(self).valid(),
        ensures
            step_is(*old(self), *final(self)),
            answers(
                r,
                final(self)@,
                emit_arith_f_spec(old(self).ctx(), old(self)@, op, width, dst, lhs, rhs),
            ),
    {
        proof {
            reveal(emit_arith_f_spec);
        }
        let l = self.rmx_of(lhs, width, SCRATCH_XMM_A)?;
        let r = self.rmx_of(rhs, width, SCRATCH_XMM_B)?;
        if l != RmX::Reg(SCRATCH_XMM_A) {
            self.emit(Op::MovFLoad { width, dst: SCRATCH_XMM_A, src: l });
        }
        self.emit(Op::ArithF { op, width, dst: SCRATCH_XMM_A, src: r });
        self.define_xmm(dst, width, SCRATCH_XMM_A)
    }

    /// A float with its sign bit flipped.
    fn emit_neg_f(&mut self, width: FWidth, dst: XmmPlace, src: XmmSrc) -> (r: Result<(), Stop>)
        requires
            old(self).valid(),
        ensures
            step_is(*old(self), *final(self)),
            answers(r, final(self)@, emit_neg_f_spec(old(self).ctx(), old(self)@, width, dst, src)),
    {
        proof {
            reveal(emit_neg_f_spec);
        }
        self.materialize_bits(SCRATCH_XMM_B, width, sign_mask(width))?;
        let from = self.rmx_of(src, width, SCRATCH_XMM_A)?;
        if from != RmX::Reg(SCRATCH_XMM_A) {
            self.emit(Op::MovFLoad { width, dst: SCRATCH_XMM_A, src: from });
        }
        self.emit(Op::XorF { width, dst: SCRATCH_XMM_A, src: RmX::Reg(SCRATCH_XMM_B) });
        self.define_xmm(dst, width, SCRATCH_XMM_A)
    }

    /// A float comparison; its left side is in a register.
    fn emit_cmp_f(&mut self, width: FWidth, lhs: XmmSrc, rhs: XmmSrc) -> (r: Result<(), Stop>)
        requires
            old(self).valid(),
        ensures
            step_is(*old(self), *final(self)),
            answers(r, final(self)@, emit_cmp_f_spec(old(self).ctx(), old(self)@, width, lhs, rhs)),
    {
        proof {
            reveal(emit_cmp_f_spec);
        }
        let l = self.rmx_of(lhs, width, SCRATCH_XMM_A)?;
        let r = self.rmx_of(rhs, width, SCRATCH_XMM_B)?;
        match l {
            RmX::Reg(x) => {
                self.emit(Op::Ucomis { width, lhs: x, rhs: r });
                Ok(())
            },
            RmX::Mem(m) => {
                self.emit(Op::MovFLoad { width, dst: SCRATCH_XMM_A, src: RmX::Mem(m) });
                self.emit(Op::Ucomis { width, lhs: SCRATCH_XMM_A, rhs: r });
                Ok(())
            },
        }
    }

    /// An integer result in `g` goes to its value or register.
    fn place_int(&mut self, dst: Place, width: Width, g: Gpr) -> (r: Result<(), Stop>)
        requires
            old(self).valid(),
        ensures
            step_is(*old(self), *final(self)),
            answers(r, final(self)@, place_int_spec(old(self).ctx(), old(self)@, dst, width, g)),
    {
        match dst {
            Place::Val(t) => {
                self.define_temp_reg(t.0, g)
            },
            Place::Reg(to) => {
                self.run_moves(Request::Clobber(to.phys()))?;
                if to != g {
                    self.emit(Op::Mov { width, dst: Rm::Reg(to), src: Rmi::Reg(g) });
                }
                Ok(())
            },
        }
    }

    /// The outcome of a float comparison as 0 or 1, in a scratch register. Moves leave
    /// the flags alone.
    fn setcc_f_into(&mut self, op: BinaryOp) -> (r: Result<Gpr, Stop>)
        requires
            old(self).valid(),
        ensures
            step_is(*old(self), *final(self)),
            answers(r, final(self)@, setcc_f_into_spec(old(self).ctx(), old(self)@, op)),
            float_recipe(op) is None ==> r is Err && r->Err_0 is Fail && final(self)@ == old(self)@,
    {
        match float_recipe(op) {
            None => {
                Err(Stop::Fail(CompileError::Internal("non-comparison operator in a float setcc")))
            },
            Some(recipe) => {
                let ga = self.scratch(Exclude::Nothing)?;
                self.emit(Op::Mov { width: Width::W32, dst: Rm::Reg(ga), src: Rmi::Imm(0) });
                self.emit(Op::Setcc { cc: recipe.first, dst: ga });
                match recipe.second {
                    Second::Nothing => {
                        Ok(ga)
                    },
                    Second::And(cc) => {
                        let gb = self.scratch(Exclude::One(ga.phys()))?;
                        self.emit(
                            Op::Mov { width: Width::W32, dst: Rm::Reg(gb), src: Rmi::Imm(0) },
                        );
                        self.emit(Op::Setcc { cc, dst: gb });
                        self.emit(
                            Op::Alu {
                                op: AluOp::And,
                                width: Width::W32,
                                dst: Rm::Reg(ga),
                                src: Rmi::Reg(gb),
                            },
                        );
                        Ok(ga)
                    },
                    Second::Or(cc) => {
                        let gb = self.scratch(Exclude::One(ga.phys()))?;
                        self.emit(
                            Op::Mov { width: Width::W32, dst: Rm::Reg(gb), src: Rmi::Imm(0) },
                        );
                        self.emit(Op::Setcc { cc, dst: gb });
                        self.emit(
                            Op::Alu {
                                op: AluOp::Or,
                                width: Width::W32,
                                dst: Rm::Reg(ga),
                                src: Rmi::Reg(gb),
                            },
                        );
                        Ok(ga)
                    },
                }
            },
        }
    }

    /// The outcome of a float comparison as a value or in a register.
    pub fn emit_setcc_f(&mut self, op: BinaryOp, dst: Place) -> (r: Result<(), Stop>)
        requires
            old(self).valid(),
        ensures
            step_is(*old(self), *final(self)),
            answers(r, final(self)@, emit_setcc_f_spec(old(self).ctx(), old(self)@, op, dst)),
            float_recipe(op) is None ==> r is Err && r->Err_0 is Fail && final(self)@ == old(self)@,
    {
        proof {
            reveal(emit_setcc_f_spec);
        }
        let g = self.setcc_f_into(op)?;
        self.place_int(dst, Width::W32, g)
    }

    /// A branch on the outcome of a float comparison. Where an unordered pair takes
    /// the branch, parity jumps to it; where it does not, parity jumps over it.
    fn emit_jcc_f(&mut self, op: BinaryOp, target: Label) -> (r: Result<(), Stop>)
        requires
            old(self).valid(),
        ensures
            step_is(*old(self), *final(self)),
            answers(r, final(self)@, emit_jcc_f_spec(old(self).ctx(), old(self)@, op, target)),
    {
        proof {
            reveal(emit_jcc_f_spec);
        }
        match op {
            BinaryOp::Ne | BinaryOp::UGt | BinaryOp::UGe => {
                self.emit(Op::Jcc { cc: CondCode::Parity, target });
                self.emit(Op::Jcc { cc: float_jcc_tail(op), target });
                Ok(())
            },
            BinaryOp::Eq | BinaryOp::Lt | BinaryOp::Le => {
                let skip = self.synthetic_label()?;
                self.emit(Op::Jcc { cc: CondCode::Parity, target: skip });
                self.emit(Op::Jcc { cc: float_jcc_tail(op), target });
                self.emit(Op::Bind { label: skip });
                Ok(())
            },
            BinaryOp::Gt | BinaryOp::Ge | BinaryOp::ULt | BinaryOp::ULe => {
                self.emit(Op::Jcc { cc: float_jcc_tail(op), target });
                Ok(())
            },
            _ => {
                Ok(())
            },
        }
    }

    /// From an integer to a float.
    fn emit_cvt_int_to_f(
        &mut self,
        width: FWidth,
        src_w64: bool,
        dst: XmmPlace,
        src: Src,
    ) -> (r: Result<(), Stop>)
        requires
            old(self).valid(),
        ensures
            step_is(*old(self), *final(self)),
            answers(
                r,
                final(self)@,
                emit_cvt_int_to_f_spec(old(self).ctx(), old(self)@, width, src_w64, dst, src),
            ),
    {
        proof {
            reveal(emit_cvt_int_to_f_spec);
        }
        let rm = self.rm_of(src, width_if(src_w64), Exclude::Nothing)?;
        self.emit(Op::Cvtsi2s { width, dst: SCRATCH_XMM_A, src: rm, src_w64 });
        self.define_xmm(dst, width, SCRATCH_XMM_A)
    }

    /// From a float to an integer.
    fn emit_cvt_f_to_int(
        &mut self,
        src_width: FWidth,
        dst_w64: bool,
        dst: Place,
        src: XmmSrc,
    ) -> (r: Result<(), Stop>)
        requires
            old(self).valid(),
        ensures
            step_is(*old(self), *final(self)),
            answers(
                r,
                final(self)@,
                emit_cvt_f_to_int_spec(old(self).ctx(), old(self)@, src_width, dst_w64, dst, src),
            ),
    {
        proof {
            reveal(emit_cvt_f_to_int_spec);
        }
        let from = self.rmx_of(src, src_width, SCRATCH_XMM_A)?;
        let g = self.scratch(Exclude::Nothing)?;
        self.emit(Op::Cvtts2si { width: src_width, dst: g, src: from, dst_w64 });
        self.place_int(dst, Width::W64, g)
    }

    /// From a float to a float of the other width.
    fn emit_cvt_f_to_f(&mut self, to: FWidth, dst: XmmPlace, src: XmmSrc) -> (r: Result<(), Stop>)
        requires
            old(self).valid(),
        ensures
            step_is(*old(self), *final(self)),
            answers(
                r,
                final(self)@,
                emit_cvt_f_to_f_spec(old(self).ctx(), old(self)@, to, dst, src),
            ),
    {
        proof {
            reveal(emit_cvt_f_to_f_spec);
        }
        let from = self.rmx_of(src, other_fwidth(to), SCRATCH_XMM_A)?;
        self.emit(Op::Cvts2s { to, dst: SCRATCH_XMM_A, src: from });
        self.define_xmm(dst, to, SCRATCH_XMM_A)
    }

    /// A local is written. Values that still read its slot move away first.
    fn emit_store_to_local(&mut self, id: LocalId, width: Width, src: Src) -> (r: Result<(), Stop>)
        requires
            old(self).valid(),
        ensures
            step_is(*old(self), *final(self)),
            answers(
                r,
                final(self)@,
                emit_store_to_local_spec(old(self).ctx(), old(self)@, id, width, src),
            ),
    {
        proof {
            reveal(emit_store_to_local_spec);
        }
        self.run_moves(Request::BeforeLocalWrite(id))?;
        let slot = self.slot_of(id)?;
        let rmi = self.wide_imm(width, src, Exclude::Nothing)?;
        match rmi {
            Rmi::Reg(g) => {
                self.emit(Op::Mov { width, dst: Rm::Mem(slot_mem(slot)), src: Rmi::Reg(g) });
                Ok(())
            },
            Rmi::Imm(i) => {
                self.emit(Op::Mov { width, dst: Rm::Mem(slot_mem(slot)), src: Rmi::Imm(i) });
                Ok(())
            },
            Rmi::Mem(m) => {
                if m == slot_mem(slot) {
                    Ok(())
                } else {
                    let g = self.scratch(Exclude::Nothing)?;
                    self.emit(Op::Mov { width, dst: Rm::Reg(g), src: Rmi::Mem(m) });
                    self.emit(Op::Mov { width, dst: Rm::Mem(slot_mem(slot)), src: Rmi::Reg(g) });
                    Ok(())
                }
            },
        }
    }

    /// A temporary that holds a GC pointer goes to its slot at once.
    fn define_gc_temp(&mut self, id: LocalId, width: Width, src: Src) -> (r: Result<(), Stop>)
        requires
            old(self).valid(),
        ensures
            step_is(*old(self), *final(self)),
            answers(
                r,
                final(self)@,
                define_gc_temp_spec(old(self).ctx(), old(self)@, id, width, src),
            ),
    {
        let slot = self.slot_of(id)?;
        let rmi = self.wide_imm(width, src, Exclude::Nothing)?;
        match rmi {
            Rmi::Reg(g) => {
                self.emit(Op::Mov { width, dst: Rm::Mem(slot_mem(slot)), src: Rmi::Reg(g) });
                self.run_moves(Request::Define(id, Loc::Mem(slot)))
            },
            Rmi::Imm(i) => {
                self.emit(Op::Mov { width, dst: Rm::Mem(slot_mem(slot)), src: Rmi::Imm(i) });
                self.run_moves(Request::Define(id, Loc::Mem(slot)))
            },
            Rmi::Mem(m) => {
                if m == slot_mem(slot) {
                    self.run_moves(Request::Define(id, Loc::Mem(slot)))
                } else {
                    let g = self.scratch(Exclude::Nothing)?;
                    self.emit(Op::Mov { width, dst: Rm::Reg(g), src: Rmi::Mem(m) });
                    self.emit(Op::Mov { width, dst: Rm::Mem(slot_mem(slot)), src: Rmi::Reg(g) });
                    self.run_moves(Request::Define(id, Loc::Mem(slot)))
                }
            },
        }
    }

    /// A temporary is defined. Only where its value lies is noted: a constant, the
    /// slot of a local, a register. A register of another value is copied.
    fn emit_define_temp(&mut self, id: LocalId, width: Width, src: Src) -> (r: Result<(), Stop>)
        requires
            old(self).valid(),
        ensures
            step_is(*old(self), *final(self)),
            answers(
                r,
                final(self)@,
                emit_define_temp_spec(old(self).ctx(), old(self)@, id, width, src),
            ),
    {
        proof {
            reveal(emit_define_temp_spec);
        }
        let ty = self.ty_of(id)?;
        if is_gc(ty) {
            self.define_gc_temp(id, width, src)
        } else {
            match src {
                Src::Imm(i) => {
                    self.run_moves(Request::Define(id, Loc::Const(i)))
                },
                Src::Reg(g) => {
                    self.define_temp_reg(id, g)
                },
                Src::Val(v) => {
                    let fixed = self.is_fixed(v.0)?;
                    if fixed {
                        self.run_moves(Request::Define(id, Loc::Local(v.0)))
                    } else {
                        let source = self.read(v.0)?;
                        match source {
                            ReadSrc::Slot(offset) => {
                                self.run_moves(Request::Define(id, Loc::Mem(offset)))
                            },
                            ReadSrc::Imm(i) => {
                                self.run_moves(Request::Define(id, Loc::Const(i)))
                            },
                            ReadSrc::Reg(p) => {
                                let d = self.scratch(Exclude::One(p))?;
                                let g = self.gpr(p)?;
                                self.emit(Op::Mov { width, dst: Rm::Reg(d), src: Rmi::Reg(g) });
                                self.define_temp_reg(id, d)
                            },
                        }
                    }
                },
            }
        }
    }

    /// A move. What a fixed register holds is spilled first.
    fn emit_mov(&mut self, width: Width, dst: Place, src: Src) -> (r: Result<(), Stop>)
        requires
            old(self).valid(),
        ensures
            step_is(*old(self), *final(self)),
            answers(r, final(self)@, emit_mov_spec(old(self).ctx(), old(self)@, width, dst, src)),
    {
        proof {
            reveal(emit_mov_spec);
        }
        match dst {
            Place::Reg(g) => {
                self.run_moves(Request::Clobber(g.phys()))?;
                let rmi = self.rmi_of(src)?;
                if rmi != Rmi::Reg(g) {
                    self.emit(Op::Mov { width, dst: Rm::Reg(g), src: rmi });
                }
                Ok(())
            },
            Place::Val(v) => {
                let fixed = self.is_fixed(v.0)?;
                if fixed {
                    self.emit_store_to_local(v.0, width, src)
                } else {
                    self.emit_define_temp(v.0, width, src)
                }
            },
        }
    }

    /// The address of a frame slot.
    fn emit_lea(&mut self, dst: Place, addr: Amode) -> (r: Result<(), Stop>)
        requires
            old(self).valid(),
        ensures
            step_is(*old(self), *final(self)),
            answers(r, final(self)@, emit_lea_spec(old(self).ctx(), old(self)@, dst, addr)),
    {
        proof {
            reveal(emit_lea_spec);
        }
        let offset = self.slot_of(frame_slot(addr))?;
        match dst {
            Place::Val(t) => {
                let g = self.scratch(Exclude::Nothing)?;
                self.emit(Op::Lea { dst: g, addr: slot_mem(offset) });
                let fixed = self.is_fixed(t.0)?;
                if fixed {
                    self.emit_store_to_local(t.0, Width::W64, Src::Reg(g))
                } else {
                    self.define_temp_reg(t.0, g)
                }
            },
            Place::Reg(g) => {
                self.run_moves(Request::Clobber(g.phys()))?;
                self.emit(Op::Lea { dst: g, addr: slot_mem(offset) });
                Ok(())
            },
        }
    }

    /// A shift in a scratch register. A count that is not constant goes to `cl`.
    fn shift_into(
        &mut self,
        op: ShiftOp,
        width: Width,
        lhs: Src,
        rhs: Src,
    ) -> (r: Result<Gpr, Stop>)
        requires
            old(self).valid(),
        ensures
            step_is(*old(self), *final(self)),
            answers(
                r,
                final(self)@,
                shift_into_spec(old(self).ctx(), old(self)@, op, width, lhs, rhs),
            ),
    {
        let d = self.scratch(Exclude::One(Gpr::Rcx.phys()))?;
        let l = self.rmi_of(lhs)?;
        self.emit(Op::Mov { width, dst: Rm::Reg(d), src: l });
        match rhs {
            Src::Imm(count) => {
                self.emit(Op::ShiftImm { op, width, dst: Rm::Reg(d), count });
                Ok(d)
            },
            _ => {
                self.run_moves(Request::Clobber(Gpr::Rcx.phys()))?;
                let count = self.rmi_of(rhs)?;
                self.emit(Op::Mov { width: Width::W32, dst: Rm::Reg(Gpr::Rcx), src: count });
                self.emit(Op::ShiftCl { op, width, dst: Rm::Reg(d) });
                Ok(d)
            },
        }
    }

    /// A shift.
    fn emit_shift(
        &mut self,
        op: ShiftOp,
        width: Width,
        dst: Place,
        lhs: Src,
        rhs: Src,
    ) -> (r: Result<(), Stop>)
        requires
            old(self).valid(),
        ensures
            step_is(*old(self), *final(self)),
            answers(
                r,
                final(self)@,
                emit_shift_spec(old(self).ctx(), old(self)@, op, width, dst, lhs, rhs),
            ),
            dst is Reg ==> r is Err && r->Err_0 is Fail && final(self)@ == old(self)@,
    {
        proof {
            reveal(emit_shift_spec);
        }
        match dst {
            Place::Reg(_) => {
                Err(Stop::Fail(CompileError::Internal("shift destination is always a value")))
            },
            Place::Val(t) => {
                let d = self.shift_into(op, width, lhs, rhs)?;
                self.define_temp_reg(t.0, d)
            },
        }
    }

    /// A one-operand operation in a scratch register.
    fn unary_into(&mut self, op: UnaryOp, width: Width, src: Src) -> (r: Result<Gpr, Stop>)
        requires
            old(self).valid(),
        ensures
            step_is(*old(self), *final(self)),
            answers(r, final(self)@, unary_into_spec(old(self).ctx(), old(self)@, op, width, src)),
    {
        let d = self.scratch(Exclude::Nothing)?;
        let rmi = self.rmi_of(src)?;
        self.emit(Op::Mov { width, dst: Rm::Reg(d), src: rmi });
        match op {
            UnaryOp::Neg => {
                self.emit(Op::Neg { width, dst: Rm::Reg(d) });
                Ok(d)
            },
            UnaryOp::Not => {
                self.emit(Op::Not { width, dst: Rm::Reg(d) });
                Ok(d)
            },
        }
    }

    /// A one-operand operation.
    fn emit_unary(
        &mut self,
        op: UnaryOp,
        width: Width,
        dst: Place,
        src: Src,
    ) -> (r: Result<(), Stop>)
        requires
            old(self).valid(),
        ensures
            step_is(*old(self), *final(self)),
            answers(
                r,
                final(self)@,
                emit_unary_spec(old(self).ctx(), old(self)@, op, width, dst, src),
            ),
            dst is Reg ==> r is Err && r->Err_0 is Fail && final(self)@ == old(self)@,
    {
        proof {
            reveal(emit_unary_spec);
        }
        match dst {
            Place::Reg(_) => {
                Err(Stop::Fail(CompileError::Internal("unary destination is always a value")))
            },
            Place::Val(t) => {
                let d = self.unary_into(op, width, src)?;
                self.define_temp_reg(t.0, d)
            },
        }
    }

    /// The outcome of a comparison as 0 or 1. Moves leave the flags alone.
    fn emit_setcc(&mut self, cc: CondCode, dst: Place) -> (r: Result<(), Stop>)
        requires
            old(self).valid(),
        ensures
            step_is(*old(self), *final(self)),
            answers(r, final(self)@, emit_setcc_spec(old(self).ctx(), old(self)@, cc, dst)),
    {
        proof {
            reveal(emit_setcc_spec);
        }
        match dst {
            Place::Val(t) => {
                let g = self.scratch(Exclude::Nothing)?;
                self.emit(Op::Mov { width: Width::W32, dst: Rm::Reg(g), src: Rmi::Imm(0) });
                self.emit(Op::Setcc { cc, dst: g });
                self.define_temp_reg(t.0, g)
            },
            Place::Reg(g) => {
                self.run_moves(Request::Clobber(g.phys()))?;
                self.emit(Op::Mov { width: Width::W32, dst: Rm::Reg(g), src: Rmi::Imm(0) });
                self.emit(Op::Setcc { cc, dst: g });
                Ok(())
            },
        }
    }

    /// From 32 to 64 bits: a 32-bit move clears the upper half.
    fn ext_into(&mut self, g: Gpr, src: Src, signed: bool) -> (r: Result<(), Stop>)
        requires
            old(self).valid(),
        ensures
            step_is(*old(self), *final(self)),
            answers(r, final(self)@, ext_into_spec(old(self).ctx(), old(self)@, g, src, signed)),
    {
        if signed {
            let rm = self.rm_of(src, Width::W32, Exclude::One(g.phys()))?;
            self.emit(Op::Movsxd { dst: g, src: rm });
            Ok(())
        } else {
            let rmi = self.rmi_of(src)?;
            self.emit(Op::Mov { width: Width::W32, dst: Rm::Reg(g), src: rmi });
            Ok(())
        }
    }

    /// From 32 to 64 bits.
    fn emit_movext(&mut self, dst: Place, src: Src, signed: bool) -> (r: Result<(), Stop>)
        requires
            old(self).valid(),
        ensures
            step_is(*old(self), *final(self)),
            answers(
                r,
                final(self)@,
                emit_movext_spec(old(self).ctx(), old(self)@, dst, src, signed),
            ),
    {
        proof {
            reveal(emit_movext_spec);
        }
        match dst {
            Place::Val(t) => {
                let g = self.scratch(Exclude::Nothing)?;
                self.ext_into(g, src, signed)?;
                self.define_temp_reg(t.0, g)
            },
            Place::Reg(g) => {
                self.run_moves(Request::Clobber(g.phys()))?;
                self.ext_into(g, src, signed)
            },
        }
    }

    /// Integer arithmetic in a scratch register. A product by a constant that fits
    /// takes one instruction.
    fn arith_into(
        &mut self,
        op: ArithOp,
        width: Width,
        lhs: Src,
        rhs: Src,
    ) -> (r: Result<Gpr, Stop>)
        requires
            old(self).valid(),
        ensures
            step_is(*old(self), *final(self)),
            answers(
                r,
                final(self)@,
                arith_into_spec(old(self).ctx(), old(self)@, op, width, lhs, rhs),
            ),
    {
        let d = self.scratch(Exclude::Nothing)?;
        if op == ArithOp::Imul && is_small_imm(rhs) {
            let l = self.rm_of(lhs, width, Exclude::One(d.phys()))?;
            self.emit(Op::ImulImm { width, dst: d, lhs: l, imm: imm_of(rhs) });
            Ok(d)
        } else {
            let l = self.rmi_of(lhs)?;
            self.emit(Op::Mov { width, dst: Rm::Reg(d), src: l });
            match alu_of(op) {
                Some(alu) => {
                    let r = self.wide_imm(width, rhs, Exclude::One(d.phys()))?;
                    self.emit(Op::Alu { op: alu, width, dst: Rm::Reg(d), src: r });
                    Ok(d)
                },
                None => {
                    let r = self.rm_of(rhs, width, Exclude::One(d.phys()))?;
                    self.emit(Op::Imul { width, dst: d, src: r });
                    Ok(d)
                },
            }
        }
    }

    /// Integer arithmetic.
    pub fn emit_arith(
        &mut self,
        op: ArithOp,
        width: Width,
        dst: Place,
        lhs: Src,
        rhs: Src,
    ) -> (r: Result<(), Stop>)
        requires
            old(self).valid(),
        ensures
            step_is(*old(self), *final(self)),
            answers(
                r,
                final(self)@,
                emit_arith_spec(old(self).ctx(), old(self)@, op, width, dst, lhs, rhs),
            ),
            dst is Reg ==> r is Err && r->Err_0 is Fail && final(self)@ == old(self)@,
    {
        proof {
            reveal(emit_arith_spec);
        }
        match dst {
            Place::Reg(_) => {
                Err(Stop::Fail(CompileError::Internal("arithmetic destination is always a value")))
            },
            Place::Val(t) => {
                let d = self.arith_into(op, width, lhs, rhs)?;
                self.define_temp_reg(t.0, d)
            },
        }
    }

    /// A comparison. An immediate left side, or memory on both sides, takes a
    /// scratch register. The right side is resolved first, so that its scratch
    /// register cannot take the place of the left side.
    fn emit_cmp(&mut self, width: Width, lhs: Src, rhs: Src) -> (r: Result<(), Stop>)
        requires
            old(self).valid(),
        ensures
            step_is(*old(self), *final(self)),
            answers(r, final(self)@, emit_cmp_spec(old(self).ctx(), old(self)@, width, lhs, rhs)),
    {
        proof {
            reveal(emit_cmp_spec);
        }
        let r = self.wide_imm(width, rhs, Exclude::Nothing)?;
        let l = self.rmi_of(lhs)?;
        match l {
            Rmi::Reg(g) => {
                self.emit(Op::Alu { op: AluOp::Cmp, width, dst: Rm::Reg(g), src: r });
                Ok(())
            },
            Rmi::Mem(m) => {
                match r {
                    Rmi::Mem(_) => {
                        let g = self.scratch(Exclude::Nothing)?;
                        self.emit(Op::Mov { width, dst: Rm::Reg(g), src: l });
                        self.emit(Op::Alu { op: AluOp::Cmp, width, dst: Rm::Reg(g), src: r });
                        Ok(())
                    },
                    _ => {
                        self.emit(Op::Alu { op: AluOp::Cmp, width, dst: Rm::Mem(m), src: r });
                        Ok(())
                    },
                }
            },
            Rmi::Imm(_) => {
                let g = self.scratch(exclude_reg(r))?;
                self.emit(Op::Mov { width, dst: Rm::Reg(g), src: l });
                self.emit(Op::Alu { op: AluOp::Cmp, width, dst: Rm::Reg(g), src: r });
                Ok(())
            },
        }
    }

    /// A division by `rdx:rax`: both are spilled, and the divisor keeps clear of
    /// them.
    fn emit_divide(&mut self, width: Width, divisor: Src, signed: bool) -> (r: Result<(), Stop>)
        requires
            old(self).valid(),
        ensures
            step_is(*old(self), *final(self)),
            answers(
                r,
                final(self)@,
                emit_divide_spec(old(self).ctx(), old(self)@, width, divisor, signed),
            ),
    {
        proof {
            reveal(emit_divide_spec);
        }
        self.run_moves(Request::Clobber(Gpr::Rax.phys()))?;
        self.run_moves(Request::Clobber(Gpr::Rdx.phys()))?;
        let rm = self.rm_of(divisor, width, Exclude::Two(Gpr::Rax.phys(), Gpr::Rdx.phys()))?;
        if signed {
            self.emit(Op::Idiv { width, divisor: rm });
            Ok(())
        } else {
            self.emit(Op::Div { width, divisor: rm });
            Ok(())
        }
    }

    /// A call whose target is known: at an address, or in a slot. All registers are
    /// spilled first.
    pub fn emit_call_lookup(
        &mut self,
        method: Option<MethodHandle>,
        addr: Option<u64>,
        slot: Option<u64>,
    ) -> (r: Result<(), Stop>)
        requires
            old(self).valid(),
        ensures
            step_is(*old(self), *final(self)),
            answers(
                r,
                final(self)@,
                emit_call_lookup_spec(old(self).ctx(), old(self)@, method, addr, slot),
            ),
            addr is None && slot is None ==> match run_moves_spec(
                old(self).ctx(),
                old(self)@,
                Request::SpillRegisters,
            ) {
                Ok((b, _)) => r is Err && r->Err_0 is Fail && final(self)@ == b,
                Err(halt) => final(self)@ == halt.at,
            },
    {
        proof {
            reveal(emit_call_lookup_spec);
        }
        self.run_moves(Request::SpillRegisters)?;
        match addr {
            Some(target) => {
                self.emit(Op::Call { form: CallForm::Direct, method, target });
                Ok(())
            },
            None => {
                match slot {
                    Some(target) => {
                        self.emit(Op::Call { form: CallForm::Indirect, method, target });
                        Ok(())
                    },
                    None => {
                        Err(
                            Stop::Fail(
                                CompileError::Unsupported(
                                    "call target with more than one indirection (IAT_PPVALUE/IAT_RELPVALUE)",
                                ),
                            ),
                        )
                    },
                }
            },
        }
    }

    /// A call of a method.
    fn emit_call(&mut self, method: MethodHandle) -> (r: Result<(), Stop>)
        requires
            old(self).valid(),
        ensures
            step_is(*old(self), *final(self)),
            answers(r, final(self)@, emit_call_spec(old(self).ctx(), old(self)@, method)),
    {
        proof {
            reveal(emit_call_spec);
        }
        let target = self.lookup(Request::EntryPoint(method))?;
        self.emit_call_lookup(Some(method), target.addr, target.slot)
    }

    /// A call of a helper.
    fn emit_helper_call(&mut self, id: CorInfoHelpFunc) -> (r: Result<(), Stop>)
        requires
            old(self).valid(),
        ensures
            step_is(*old(self), *final(self)),
            answers(r, final(self)@, emit_helper_call_spec(old(self).ctx(), old(self)@, id)),
    {
        proof {
            reveal(emit_helper_call_spec);
        }
        let target = self.lookup(Request::HelperEntry(id))?;
        self.emit_call_lookup(None, target.addr, target.slot)
    }

    /// An instruction on floats.
    fn emit_float_inst(&mut self, inst: Inst) -> (r: Result<(), Stop>)
        requires
            old(self).valid(),
        ensures
            step_is(*old(self), *final(self)),
            answers(r, final(self)@, emit_float_inst_spec(old(self).ctx(), old(self)@, inst)),
            refused(inst) ==> r is Err && r->Err_0 is Fail && final(self)@ == old(self)@,
    {
        proof {
            reveal(emit_float_inst_spec);
        }
        match inst {
            Inst::ConstF { width, dst, bits } => {
                self.emit_const_f(width, dst, bits)
            },
            Inst::MovF { width, dst, src } => {
                self.emit_mov_f(width, dst, src)
            },
            Inst::ArithF { op, width, dst, lhs, rhs } => {
                self.emit_arith_f(op, width, dst, lhs, rhs)
            },
            Inst::NegF { width, dst, src } => {
                self.emit_neg_f(width, dst, src)
            },
            Inst::CmpF { width, lhs, rhs } => {
                self.emit_cmp_f(width, lhs, rhs)
            },
            Inst::SetccF { op, dst } => {
                self.emit_setcc_f(op, dst)
            },
            Inst::JccF { op, target } => {
                self.emit_jcc_f(op, target)
            },
            Inst::CvtIntToF { width, src_w64, dst, src } => {
                self.emit_cvt_int_to_f(width, src_w64, dst, src)
            },
            Inst::CvtFToInt { src_width, dst_w64, dst, src } => {
                self.emit_cvt_f_to_int(src_width, dst_w64, dst, src)
            },
            Inst::CvtFToF { to, dst, src } => {
                self.emit_cvt_f_to_f(to, dst, src)
            },
            _ => {
                Err(
                    Stop::Fail(
                        CompileError::Unsupported("instruction outside the tier-0 emission subset"),
                    ),
                )
            },
        }
    }

    /// An instruction whose operands are fixed.
    fn emit_plain_inst(&mut self, inst: Inst) -> (r: Result<(), Stop>)
        requires
            old(self).valid(),
        ensures
            step_is(*old(self), *final(self)),
            answers(r, final(self)@, emit_plain_inst_spec(old(self).ctx(), old(self)@, inst)),
            refused(inst) ==> r is Err && r->Err_0 is Fail && final(self)@ == old(self)@,
    {
        proof {
            reveal(emit_plain_inst_spec);
        }
        match inst {
            Inst::Cdq { width } => {
                self.run_moves(Request::Clobber(Gpr::Rdx.phys()))?;
                self.emit(Op::Cdq { width });
                Ok(())
            },
            Inst::Jcc { cc, target } => {
                self.emit(Op::Jcc { cc, target });
                Ok(())
            },
            Inst::Jmp { target } => {
                self.emit(Op::Jmp { target });
                Ok(())
            },
            Inst::Push { reg } => {
                self.emit(Op::Push { reg });
                Ok(())
            },
            Inst::AllocFrame => {
                let size = self.frame_imm()?;
                self.emit(
                    Op::Alu {
                        op: AluOp::Sub,
                        width: Width::W64,
                        dst: Rm::Reg(STACK_POINTER),
                        src: Rmi::Imm(size),
                    },
                );
                Ok(())
            },
            Inst::Leave => {
                self.emit(Op::Leave);
                Ok(())
            },
            Inst::Ret => {
                self.emit(Op::Ret);
                Ok(())
            },
            _ => {
                Err(
                    Stop::Fail(
                        CompileError::Unsupported("instruction outside the tier-0 emission subset"),
                    ),
                )
            },
        }
    }

    /// One instruction, bound to registers and slots.
    pub fn emit_inst(&mut self, inst: Inst) -> (r: Result<(), Stop>)
        requires
            old(self).valid(),
        ensures
            step_is(*old(self), *final(self)),
            answers(r, final(self)@, emit_inst_spec(old(self).ctx(), old(self)@, inst)),
            refused(inst) ==> r is Err && r->Err_0 is Fail && final(self)@ == old(self)@,
    {
        match inst {
            Inst::Mov { width, dst, src } => {
                self.emit_mov(width, dst, src)
            },
            Inst::Lea { dst, addr } => {
                self.emit_lea(dst, addr)
            },
            Inst::Arith { op, width, dst, lhs, rhs } => {
                self.emit_arith(op, width, dst, lhs, rhs)
            },
            Inst::Idiv { width, divisor } => {
                self.emit_divide(width, divisor, true)
            },
            Inst::Div { width, divisor } => {
                self.emit_divide(width, divisor, false)
            },
            Inst::Shift { op, width, dst, lhs, rhs } => {
                self.emit_shift(op, width, dst, lhs, rhs)
            },
            Inst::Unary { op, width, dst, src } => {
                self.emit_unary(op, width, dst, src)
            },
            Inst::Setcc { cc, dst } => {
                self.emit_setcc(cc, dst)
            },
            Inst::MovExt { dst, src, signed } => {
                self.emit_movext(dst, src, signed)
            },
            Inst::Cmp { width, lhs, rhs } => {
                self.emit_cmp(width, lhs, rhs)
            },
            Inst::CallDirect { method } => {
                self.emit_call(method)
            },
            Inst::CallHelper { id } => {
                self.emit_helper_call(id)
            },
            Inst::ConstF { .. }
            | Inst::MovF { .. }
            | Inst::ArithF { .. }
            | Inst::NegF { .. }
            | Inst::CmpF { .. }
            | Inst::SetccF { .. }
            | Inst::JccF { .. }
            | Inst::CvtIntToF { .. }
            | Inst::CvtFToInt { .. }
            | Inst::CvtFToF { .. } => {
                self.emit_float_inst(inst)
            },
            Inst::Cdq { .. }
            | Inst::Jcc { .. }
            | Inst::Jmp { .. }
            | Inst::Push { .. }
            | Inst::AllocFrame
            | Inst::Leave
            | Inst::Ret => {
                self.emit_plain_inst(inst)
            },
            _ => {
                Err(
                    Stop::Fail(
                        CompileError::Unsupported("instruction outside the tier-0 emission subset"),
                    ),
                )
            },
        }
    }
}

/// A move that cannot be made stops the binding.
proof fn lemma_apply_fails(b: Bound, moves: Seq<Move>, n: nat, m: nat)
    requires
        n <= m,
        apply_spec(b, moves, n) is Err,
    ensures
        apply_spec(b, moves, m) == apply_spec(b, moves, n),
    decreases m,
{
    if n < m {
        lemma_apply_fails(b, moves, n, (m - 1) as nat);
    }
}

} // verus!
