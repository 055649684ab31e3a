//! Machine-instruction descriptors: what lowering produces and the emitter
//! binds to registers and frame slots.
//!
//! Values are [`Val`]s. A physical register stands in a descriptor only where
//! the architecture or the calling convention pins it. The operand types keep
//! impossible shapes out: a [`Place`] is never an immediate, and an address is
//! neither a [`Place`] nor a [`Src`].

use crate::ir::{BinaryOp, CorInfoHelpFunc, Label, LocalId, MethodHandle, Type, UnaryOp, Val};
use crate::regs::{Gpr, Xmm, GPR_CALLEE_SAVED};
use vstd::prelude::*;

verus! {

/// The 32- or the 64-bit form of an instruction.
#[derive(Clone, Copy, PartialEq, Eq, Structural, Debug)]
pub enum Width {
    W32,
    W64,
}

/// A destination: a value or a fixed register.
#[derive(Clone, Copy, PartialEq, Eq, Structural, Debug)]
pub enum Place {
    Val(Val),
    Reg(Gpr),
}

/// A source: a value, a fixed register or an immediate.
#[derive(Clone, Copy, PartialEq, Eq, Structural, Debug)]
pub enum Src {
    Val(Val),
    Reg(Gpr),
    Imm(i64),
}

/// An address.
#[derive(Clone, Copy, PartialEq, Eq, Structural, Debug)]
pub enum Amode {
    /// The frame slot of a local.
    FrameSlot(LocalId),
}

/// The width of a scalar float instruction.
#[derive(Clone, Copy, PartialEq, Eq, Structural, Debug)]
pub enum FWidth {
    /// 32-bit.
    S,
    /// 64-bit.
    D,
}

impl FWidth {
    pub open spec fn of_spec(ty: Type) -> Option<FWidth> {
        match ty {
            Type::Float => Some(FWidth::S),
            Type::Double => Some(FWidth::D),
            _ => None,
        }
    }

    /// The width of a float type, or `None` for another type.
    #[verifier::when_used_as_spec(of_spec)]
    pub fn of(ty: Type) -> (w: Option<FWidth>)
        ensures
            w == FWidth::of_spec(ty),
    {
        match ty {
            Type::Float => Some(FWidth::S),
            Type::Double => Some(FWidth::D),
            _ => None,
        }
    }
}

/// A float destination.
#[derive(Clone, Copy, PartialEq, Eq, Structural, Debug)]
pub enum XmmPlace {
    Val(Val),
    Reg(Xmm),
}

/// A float source. A constant is given by its bit pattern.
#[derive(Clone, Copy, PartialEq, Eq, Structural, Debug)]
pub enum XmmSrc {
    Val(Val),
    Reg(Xmm),
    Bits(u64),
}

/// The scalar float arithmetic instructions.
#[derive(Clone, Copy, PartialEq, Eq, Structural, Debug)]
pub enum ArithFOp {
    Add,
    Sub,
    Mul,
    Div,
    Min,
    Max,
}

impl ArithFOp {
    pub open spec fn of_spec(op: BinaryOp) -> Option<ArithFOp> {
        match op {
            BinaryOp::Add => Some(ArithFOp::Add),
            BinaryOp::Sub => Some(ArithFOp::Sub),
            BinaryOp::Mul => Some(ArithFOp::Mul),
            BinaryOp::Div => Some(ArithFOp::Div),
            BinaryOp::MinF => Some(ArithFOp::Min),
            BinaryOp::MaxF => Some(ArithFOp::Max),
            _ => None,
        }
    }

    /// The instruction of an operator, or `None` where there is no scalar form.
    #[verifier::when_used_as_spec(of_spec)]
    pub fn of(op: BinaryOp) -> (r: Option<ArithFOp>)
        ensures
            r == ArithFOp::of_spec(op),
    {
        match op {
            BinaryOp::Add => Some(ArithFOp::Add),
            BinaryOp::Sub => Some(ArithFOp::Sub),
            BinaryOp::Mul => Some(ArithFOp::Mul),
            BinaryOp::Div => Some(ArithFOp::Div),
            BinaryOp::MinF => Some(ArithFOp::Min),
            BinaryOp::MaxF => Some(ArithFOp::Max),
            _ => None,
        }
    }
}

/// The integer arithmetic instructions.
#[derive(Clone, Copy, PartialEq, Eq, Structural, Debug)]
pub enum ArithOp {
    Add,
    Sub,
    Imul,
    And,
    Or,
    Xor,
}

impl ArithOp {
    pub open spec fn of_spec(op: BinaryOp) -> Option<ArithOp> {
        match op {
            BinaryOp::Add => Some(ArithOp::Add),
            BinaryOp::Sub => Some(ArithOp::Sub),
            BinaryOp::Mul => Some(ArithOp::Imul),
            BinaryOp::And => Some(ArithOp::And),
            BinaryOp::Or => Some(ArithOp::Or),
            BinaryOp::Xor => Some(ArithOp::Xor),
            _ => None,
        }
    }

    /// The instruction of an operator, or `None` where it takes more than one.
    #[verifier::when_used_as_spec(of_spec)]
    pub fn of(op: BinaryOp) -> (r: Option<ArithOp>)
        ensures
            r == ArithOp::of_spec(op),
    {
        match op {
            BinaryOp::Add => Some(ArithOp::Add),
            BinaryOp::Sub => Some(ArithOp::Sub),
            BinaryOp::Mul => Some(ArithOp::Imul),
            BinaryOp::And => Some(ArithOp::And),
            BinaryOp::Or => Some(ArithOp::Or),
            BinaryOp::Xor => Some(ArithOp::Xor),
            _ => None,
        }
    }
}

/// The shift instructions.
#[derive(Clone, Copy, PartialEq, Eq, Structural, Debug)]
pub enum ShiftOp {
    Shl,
    /// Filling with zeros.
    Shr,
    /// Keeping the sign.
    Sar,
}

impl ShiftOp {
    pub open spec fn of_spec(op: BinaryOp) -> Option<ShiftOp> {
        match op {
            BinaryOp::Shl => Some(ShiftOp::Shl),
            BinaryOp::Shr => Some(ShiftOp::Sar),
            BinaryOp::UShr => Some(ShiftOp::Shr),
            _ => None,
        }
    }

    /// The instruction of a shift operator, or `None` for another operator.
    #[verifier::when_used_as_spec(of_spec)]
    pub fn of(op: BinaryOp) -> (r: Option<ShiftOp>)
        ensures
            r == ShiftOp::of_spec(op),
    {
        match op {
            BinaryOp::Shl => Some(ShiftOp::Shl),
            BinaryOp::Shr => Some(ShiftOp::Sar),
            BinaryOp::UShr => Some(ShiftOp::Shr),
            _ => None,
        }
    }
}

/// A condition code. The unsigned ones read the carry flag.
#[derive(Clone, Copy, PartialEq, Eq, Structural, Debug)]
pub enum CondCode {
    Eq,
    Ne,
    Lt,
    Le,
    Gt,
    Ge,
    ULt,
    ULe,
    UGt,
    UGe,
    /// A float comparison was unordered.
    Parity,
    /// A float comparison was ordered.
    NotParity,
}

impl CondCode {
    pub open spec fn of_spec(op: BinaryOp) -> Option<CondCode> {
        match op {
            BinaryOp::Eq => Some(CondCode::Eq),
            BinaryOp::Ne => Some(CondCode::Ne),
            BinaryOp::Lt => Some(CondCode::Lt),
            BinaryOp::Le => Some(CondCode::Le),
            BinaryOp::Gt => Some(CondCode::Gt),
            BinaryOp::Ge => Some(CondCode::Ge),
            BinaryOp::ULt => Some(CondCode::ULt),
            BinaryOp::ULe => Some(CondCode::ULe),
            BinaryOp::UGt => Some(CondCode::UGt),
            BinaryOp::UGe => Some(CondCode::UGe),
            _ => None,
        }
    }

    /// The condition of a comparison, or `None` for another operator.
    #[verifier::when_used_as_spec(of_spec)]
    pub fn of(op: BinaryOp) -> (r: Option<CondCode>)
        ensures
            r == CondCode::of_spec(op),
    {
        match op {
            BinaryOp::Eq => Some(CondCode::Eq),
            BinaryOp::Ne => Some(CondCode::Ne),
            BinaryOp::Lt => Some(CondCode::Lt),
            BinaryOp::Le => Some(CondCode::Le),
            BinaryOp::Gt => Some(CondCode::Gt),
            BinaryOp::Ge => Some(CondCode::Ge),
            BinaryOp::ULt => Some(CondCode::ULt),
            BinaryOp::ULe => Some(CondCode::ULe),
            BinaryOp::UGt => Some(CondCode::UGt),
            BinaryOp::UGe => Some(CondCode::UGe),
            _ => None,
        }
    }
}

/// The address of a block of memory: what a pointer value holds, or a frame
/// slot.
#[derive(Clone, Copy, PartialEq, Eq, Structural, Debug)]
pub enum BlockAddr {
    Val(Val),
    FrameSlot(LocalId),
}

/// The register of one eightbyte of a struct.
#[derive(Clone, Copy, PartialEq, Eq, Structural, Debug)]
pub enum EbReg {
    Gpr(Gpr),
    Xmm(Xmm),
}

/// One machine instruction.
#[derive(Clone, Copy, PartialEq, Eq, Structural, Debug)]
#[allow(inconsistent_fields)]
pub enum Inst {
    Mov { width: Width, dst: Place, src: Src },
    /// `dst` receives the float with the bit pattern `bits`.
    ConstF { width: FWidth, dst: XmmPlace, bits: u64 },
    MovF { width: FWidth, dst: XmmPlace, src: XmmSrc },
    ArithF { op: ArithFOp, width: FWidth, dst: XmmPlace, lhs: XmmSrc, rhs: XmmSrc },
    /// Flips the sign bit.
    NegF { width: FWidth, dst: XmmPlace, src: XmmSrc },
    /// Compares; the flags go to the instruction that follows.
    CmpF { width: FWidth, lhs: XmmSrc, rhs: XmmSrc },
    /// The outcome of a float comparison as 0 or 1.
    SetccF { op: BinaryOp, dst: Place },
    /// Branches on the outcome of a float comparison.
    JccF { op: BinaryOp, target: Label },
    CvtIntToF { width: FWidth, src_w64: bool, dst: XmmPlace, src: Src },
    /// From an unsigned 64-bit integer.
    CvtU64ToF { width: FWidth, dst: XmmPlace, src: Src },
    /// Truncates toward zero.
    CvtFToInt { src_width: FWidth, dst_w64: bool, dst: Place, src: XmmSrc },
    CvtFToF { to: FWidth, dst: XmmPlace, src: XmmSrc },
    /// Throws unless the float is finite.
    CkFinite { width: FWidth, dst: XmmPlace, src: XmmSrc },
    Lea { dst: Place, addr: Amode },
    /// `dst := lhs op rhs`.
    Arith { op: ArithOp, width: Width, dst: Place, lhs: Src, rhs: Src },
    /// Like [`Inst::Arith`], and throws on overflow.
    ArithOvf { op: BinaryOp, unsigned: bool, width: Width, dst: Place, lhs: Src, rhs: Src },
    /// A conversion that throws where the value does not fit.
    ConvOvf {
        width_src: Width,
        width_dst: u8,
        signed_dst: bool,
        unsigned_src: bool,
        dst: Place,
        src: Src,
    },
    /// Extends the sign of `rax` into `rdx`.
    Cdq { width: Width },
    /// `rdx:rax` by the divisor, signed: quotient in `rax`, remainder in `rdx`.
    Idiv { width: Width, divisor: Src },
    /// Like [`Inst::Idiv`], unsigned.
    Div { width: Width, divisor: Src },
    Shift { op: ShiftOp, width: Width, dst: Place, lhs: Src, rhs: Src },
    Unary { op: UnaryOp, width: Width, dst: Place, src: Src },
    /// The outcome of a comparison as 0 or 1.
    Setcc { cc: CondCode, dst: Place },
    /// From 32 to 64 bits.
    MovExt { dst: Place, src: Src, signed: bool },
    /// Compares; the flags go to the instruction that follows.
    Cmp { width: Width, lhs: Src, rhs: Src },
    LoadMem { width: Width, dst: Place, addr: Src, disp: i32 },
    StoreMem { width: Width, addr: Src, disp: i32, src: Src },
    /// Loads a cell of one or two bytes.
    LoadMemNarrow { size: u8, signed: bool, dst: Place, addr: Src, disp: i32 },
    /// Stores the low one or two bytes.
    StoreMemNarrow { size: u8, addr: Src, disp: i32, src: Src },
    LoadMemF { width: FWidth, dst: XmmPlace, addr: Src, disp: i32 },
    StoreMemF { width: FWidth, addr: Src, disp: i32, src: XmmSrc },
    /// Faults on a null reference.
    NullCheck { addr: Src },
    /// Throws unless the index is within the array.
    BoundsCheck { index: Src, index_wide: bool, array: Src },
    Jcc { cc: CondCode, target: Label },
    Jmp { target: Label },
    CallDirect { method: MethodHandle },
    CallHelper { id: CorInfoHelpFunc },
    /// Calls through a pointer.
    CallReg { target: Src },
    Push { reg: Gpr },
    /// Takes the frame from the stack pointer.
    AllocFrame,
    /// An eightbyte of a struct, from memory to its register.
    LoadEightbyte { addr: BlockAddr, disp: u32, size: u8, dst: EbReg },
    /// An eightbyte of a struct, from its register to a frame slot.
    StoreEightbyte { local: LocalId, offset: u32, size: u8, src: EbReg },
    /// An outgoing stack argument, at `rsp + offset`.
    StoreStackArg { width: Width, offset: u32, src: Src },
    StoreStackArgF { width: FWidth, offset: u32, src: XmmSrc },
    /// An outgoing struct, copied to `rsp + offset`.
    CopyStackArg { addr: BlockAddr, offset: u32, size: u32 },
    BlockCopy { dst: BlockAddr, dst_disp: u32, src: BlockAddr, size: u32 },
    BlockZero { dst: BlockAddr, dst_disp: u32, size: u32 },
    BlockCopyDyn { dst: BlockAddr, src: BlockAddr, size: Src },
    BlockFillDyn { dst: BlockAddr, fill: Src, size: Src },
    /// Takes memory from the stack.
    LocAlloc { dst: Place, size: Src },
    /// Undoes the frame.
    Leave,
    Ret,
    Nop,
    /// Calls a funclet of the method.
    CallLabel { target: Label },
    /// The address of a block.
    LeaLabel { dst: Gpr, target: Label },
    /// Gives the funclet's stack back and returns.
    FuncletEpilog,
}

/// The registers that an instruction reads or writes besides its operands.
/// The stack and frame pointer are left out: nothing is ever allocated to them.
#[derive(PartialEq, Eq, Debug)]
pub struct FixedRegs {
    pub uses: Vec<Gpr>,
    pub defs: Vec<Gpr>,
}

/// The registers that a call destroys.
pub const CALL_DEFS: [Gpr; 9] = [
    Gpr::Rax,
    Gpr::Rcx,
    Gpr::Rdx,
    Gpr::Rsi,
    Gpr::Rdi,
    Gpr::R8,
    Gpr::R9,
    Gpr::R10,
    Gpr::R11,
];

impl Inst {
    /// The registers read besides the operands.
    pub open spec fn fixed_uses(self) -> Seq<Gpr> {
        match self {
            Inst::Cdq { .. } => seq![Gpr::Rax],
            Inst::Idiv { .. } | Inst::Div { .. } => seq![Gpr::Rax, Gpr::Rdx],
            _ => Seq::empty(),
        }
    }

    /// The instruction calls out, or may.
    pub open spec fn calls(self) -> bool {
        match self {
            Inst::CallDirect { .. }
            | Inst::CallHelper { .. }
            | Inst::CallReg { .. }
            | Inst::CallLabel { .. } => true,
            // These call a helper that throws.
            Inst::BoundsCheck { .. }
            | Inst::ArithOvf { .. }
            | Inst::ConvOvf { .. }
            | Inst::CkFinite { .. } => true,
            // These call a helper that fills or copies memory.
            Inst::BlockCopyDyn { .. } | Inst::BlockFillDyn { .. } | Inst::LocAlloc { .. } => true,
            _ => false,
        }
    }

    /// The registers written besides the operands.
    pub open spec fn fixed_defs(self) -> Seq<Gpr> {
        match self {
            Inst::Cdq { .. } => seq![Gpr::Rdx],
            Inst::Idiv { .. } | Inst::Div { .. } => seq![Gpr::Rax, Gpr::Rdx],
            Inst::Shift { rhs, .. } => if rhs is Imm {
                Seq::empty()
            } else {
                seq![Gpr::Rcx]
            },
            _ => if self.calls() {
                CALL_DEFS@
            } else {
                Seq::empty()
            },
        }
    }

    /// The registers that the instruction uses and defines besides its
    /// operands.
    pub fn fixed_regs(&self) -> (r: FixedRegs)
        ensures
            r.uses@ == self.fixed_uses(),
            r.defs@ == self.fixed_defs(),
    {
        match *self {
            Inst::Cdq { .. } => FixedRegs { uses: vec![Gpr::Rax], defs: vec![Gpr::Rdx] },
            Inst::Idiv { .. } | Inst::Div { .. } => FixedRegs {
                uses: vec![Gpr::Rax, Gpr::Rdx],
                defs: vec![Gpr::Rax, Gpr::Rdx],
            },
            Inst::Shift { rhs, .. } => FixedRegs {
                uses: Vec::new(),
                defs: if matches!(rhs, Src::Imm(_)) {
                    Vec::new()
                } else {
                    vec![Gpr::Rcx]
                },
            },
            Inst::CallDirect { .. }
            | Inst::CallHelper { .. }
            | Inst::CallReg { .. }
            | Inst::CallLabel { .. }
            | Inst::BoundsCheck { .. }
            | Inst::ArithOvf { .. }
            | Inst::ConvOvf { .. }
            | Inst::CkFinite { .. }
            | Inst::BlockCopyDyn { .. }
            | Inst::BlockFillDyn { .. }
            | Inst::LocAlloc { .. } => {
                let defs: Vec<Gpr> = vec![
                    Gpr::Rax,
                    Gpr::Rcx,
                    Gpr::Rdx,
                    Gpr::Rsi,
                    Gpr::Rdi,
                    Gpr::R8,
                    Gpr::R9,
                    Gpr::R10,
                    Gpr::R11,
                ];
                assert(defs@ =~= CALL_DEFS@);
                FixedRegs { uses: Vec::new(), defs }
            },
            _ => FixedRegs { uses: Vec::new(), defs: Vec::new() },
        }
    }
}

/// No instruction destroys a callee-saved register behind its operands' back.
pub proof fn law_callee_saved_survive(inst: Inst, i: int, j: int)
    requires
        0 <= i < 5,
        0 <= j < inst.fixed_defs().len(),
    ensures
        inst.fixed_defs()[j].phys() != GPR_CALLEE_SAVED[i],
{
}

/// A right shift keeps the sign exactly when the operator does.
pub proof fn law_shift_signedness(op: BinaryOp)
    ensures
        ShiftOp::of(op) == Some(ShiftOp::Sar) <==> op is Shr,
        ShiftOp::of(op) == Some(ShiftOp::Shr) <==> op is UShr,
        ShiftOp::of(op) == Some(ShiftOp::Shl) <==> op is Shl,
{
}

} // verus!
