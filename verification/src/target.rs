//! The vocabulary in which a target describes its registers and its calls.

use vstd::prelude::*;

verus! {

/// A physical register, numbered across all classes of the target.
pub type PhysReg = u8;

/// The index of a register class.
pub type RegClassId = u8;

#[derive(Clone, Copy, PartialEq, Eq, Structural, Debug)]
pub enum RegClassKind {
    Int,
    Float,
}

/// One class of registers.
#[derive(Debug)]
pub struct RegisterClass {
    pub name: &'static str,
    pub kind: RegClassKind,
    /// The allocatable registers, in order of preference.
    pub registers: Vec<PhysReg>,
    pub callee_saved: Vec<PhysReg>,
}

/// One eightbyte of a struct, and its register.
#[derive(Clone, Copy, PartialEq, Eq, Structural, Debug)]
pub struct EightbyteReg {
    pub reg: PhysReg,
    pub size: u8,
    pub offset: u8,
}

/// The registers of a struct.
#[derive(Clone, Copy, PartialEq, Eq, Structural, Debug)]
pub enum StructRegs {
    Zero,
    One(EightbyteReg),
    Two(EightbyteReg, EightbyteReg),
}

/// Where a call passes one argument or its result.
#[derive(Clone, Copy, PartialEq, Eq, Structural, Debug)]
pub enum ArgLocation {
    Reg(PhysReg),
    /// At `rsp + offset` when the call is made.
    Stack { offset: u32 },
    /// A struct, one register for each of its eightbytes.
    StructRegs(StructRegs),
}

/// How a call passes its arguments and its result.
#[derive(PartialEq, Eq, Debug)]
pub struct CallAbi {
    /// The receiver first, where there is one.
    pub args: Vec<ArgLocation>,
    pub ret: Option<ArgLocation>,
    pub stack_arg_bytes: u32,
}

} // verus!
