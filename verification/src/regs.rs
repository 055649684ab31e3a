//! The x86-64 registers, and the duties that the System V AMD64 calling
//! convention gives them.

use crate::target::{PhysReg, RegClassId, RegClassKind, RegisterClass};
use vstd::prelude::*;

verus! {

/// The general-purpose registers, in the order of their hardware numbers.
#[derive(Clone, Copy, PartialEq, Eq, Structural, Debug)]
pub enum Gpr {
    Rax,
    Rcx,
    Rdx,
    Rbx,
    Rsp,
    Rbp,
    Rsi,
    Rdi,
    R8,
    R9,
    R10,
    R11,
    R12,
    R13,
    R14,
    R15,
}

/// The SSE registers, in the order of their hardware numbers.
#[derive(Clone, Copy, PartialEq, Eq, Structural, Debug)]
pub enum Xmm {
    Xmm0,
    Xmm1,
    Xmm2,
    Xmm3,
    Xmm4,
    Xmm5,
    Xmm6,
    Xmm7,
    Xmm8,
    Xmm9,
    Xmm10,
    Xmm11,
    Xmm12,
    Xmm13,
    Xmm14,
    Xmm15,
}

impl Gpr {
    /// The hardware number.
    pub open spec fn number(self) -> u8 {
        match self {
            Gpr::Rax => 0,
            Gpr::Rcx => 1,
            Gpr::Rdx => 2,
            Gpr::Rbx => 3,
            Gpr::Rsp => 4,
            Gpr::Rbp => 5,
            Gpr::Rsi => 6,
            Gpr::Rdi => 7,
            Gpr::R8 => 8,
            Gpr::R9 => 9,
            Gpr::R10 => 10,
            Gpr::R11 => 11,
            Gpr::R12 => 12,
            Gpr::R13 => 13,
            Gpr::R14 => 14,
            Gpr::R15 => 15,
        }
    }

    /// The hardware number.
    pub fn enc(self) -> (n: u8)
        ensures
            n == self.number(),
            n < 16,
    {
        match self {
            Gpr::Rax => 0,
            Gpr::Rcx => 1,
            Gpr::Rdx => 2,
            Gpr::Rbx => 3,
            Gpr::Rsp => 4,
            Gpr::Rbp => 5,
            Gpr::Rsi => 6,
            Gpr::Rdi => 7,
            Gpr::R8 => 8,
            Gpr::R9 => 9,
            Gpr::R10 => 10,
            Gpr::R11 => 11,
            Gpr::R12 => 12,
            Gpr::R13 => 13,
            Gpr::R14 => 14,
            Gpr::R15 => 15,
        }
    }

    /// The number across both classes: 0 to 15.
    pub open spec fn phys_spec(self) -> PhysReg {
        self.number()
    }

    /// The number across both classes: 0 to 15.
    #[verifier::when_used_as_spec(phys_spec)]
    pub fn phys(self) -> (p: PhysReg)
        ensures
            p == self.phys_spec(),
    {
        self.enc()
    }

    /// The register with a number, if it is of this class.
    pub open spec fn from_phys_spec(reg: PhysReg) -> Option<Gpr> {
        match reg {
            0u8 => Some(Gpr::Rax),
            1u8 => Some(Gpr::Rcx),
            2u8 => Some(Gpr::Rdx),
            3u8 => Some(Gpr::Rbx),
            4u8 => Some(Gpr::Rsp),
            5u8 => Some(Gpr::Rbp),
            6u8 => Some(Gpr::Rsi),
            7u8 => Some(Gpr::Rdi),
            8u8 => Some(Gpr::R8),
            9u8 => Some(Gpr::R9),
            10u8 => Some(Gpr::R10),
            11u8 => Some(Gpr::R11),
            12u8 => Some(Gpr::R12),
            13u8 => Some(Gpr::R13),
            14u8 => Some(Gpr::R14),
            15u8 => Some(Gpr::R15),
            _ => None,
        }
    }

    /// The register with a number, if it is of this class.
    #[verifier::when_used_as_spec(from_phys_spec)]
    pub fn from_phys(reg: PhysReg) -> (r: Option<Gpr>)
        ensures
            r == Gpr::from_phys_spec(reg),
    {
        match reg {
            0u8 => Some(Gpr::Rax),
            1u8 => Some(Gpr::Rcx),
            2u8 => Some(Gpr::Rdx),
            3u8 => Some(Gpr::Rbx),
            4u8 => Some(Gpr::Rsp),
            5u8 => Some(Gpr::Rbp),
            6u8 => Some(Gpr::Rsi),
            7u8 => Some(Gpr::Rdi),
            8u8 => Some(Gpr::R8),
            9u8 => Some(Gpr::R9),
            10u8 => Some(Gpr::R10),
            11u8 => Some(Gpr::R11),
            12u8 => Some(Gpr::R12),
            13u8 => Some(Gpr::R13),
            14u8 => Some(Gpr::R14),
            15u8 => Some(Gpr::R15),
            _ => None,
        }
    }
}

impl Xmm {
    /// The hardware number.
    pub open spec fn number(self) -> u8 {
        match self {
            Xmm::Xmm0 => 0,
            Xmm::Xmm1 => 1,
            Xmm::Xmm2 => 2,
            Xmm::Xmm3 => 3,
            Xmm::Xmm4 => 4,
            Xmm::Xmm5 => 5,
            Xmm::Xmm6 => 6,
            Xmm::Xmm7 => 7,
            Xmm::Xmm8 => 8,
            Xmm::Xmm9 => 9,
            Xmm::Xmm10 => 10,
            Xmm::Xmm11 => 11,
            Xmm::Xmm12 => 12,
            Xmm::Xmm13 => 13,
            Xmm::Xmm14 => 14,
            Xmm::Xmm15 => 15,
        }
    }

    /// The hardware number.
    pub fn enc(self) -> (n: u8)
        ensures
            n == self.number(),
            n < 16,
    {
        match self {
            Xmm::Xmm0 => 0,
            Xmm::Xmm1 => 1,
            Xmm::Xmm2 => 2,
            Xmm::Xmm3 => 3,
            Xmm::Xmm4 => 4,
            Xmm::Xmm5 => 5,
            Xmm::Xmm6 => 6,
            Xmm::Xmm7 => 7,
            Xmm::Xmm8 => 8,
            Xmm::Xmm9 => 9,
            Xmm::Xmm10 => 10,
            Xmm::Xmm11 => 11,
            Xmm::Xmm12 => 12,
            Xmm::Xmm13 => 13,
            Xmm::Xmm14 => 14,
            Xmm::Xmm15 => 15,
        }
    }

    /// The number across both classes: 16 to 31.
    pub open spec fn phys_spec(self) -> PhysReg {
        (16 + self.number()) as u8
    }

    /// The number across both classes: 16 to 31.
    #[verifier::when_used_as_spec(phys_spec)]
    pub fn phys(self) -> (p: PhysReg)
        ensures
            p == self.phys_spec(),
    {
        16 + self.enc()
    }

    /// The register with a number, if it is of this class.
    pub open spec fn from_phys_spec(reg: PhysReg) -> Option<Xmm> {
        match reg {
            16u8 => Some(Xmm::Xmm0),
            17u8 => Some(Xmm::Xmm1),
            18u8 => Some(Xmm::Xmm2),
            19u8 => Some(Xmm::Xmm3),
            20u8 => Some(Xmm::Xmm4),
            21u8 => Some(Xmm::Xmm5),
            22u8 => Some(Xmm::Xmm6),
            23u8 => Some(Xmm::Xmm7),
            24u8 => Some(Xmm::Xmm8),
            25u8 => Some(Xmm::Xmm9),
            26u8 => Some(Xmm::Xmm10),
            27u8 => Some(Xmm::Xmm11),
            28u8 => Some(Xmm::Xmm12),
            29u8 => Some(Xmm::Xmm13),
            30u8 => Some(Xmm::Xmm14),
            31u8 => Some(Xmm::Xmm15),
            _ => None,
        }
    }

    /// The register with a number, if it is of this class.
    #[verifier::when_used_as_spec(from_phys_spec)]
    pub fn from_phys(reg: PhysReg) -> (r: Option<Xmm>)
        ensures
            r == Xmm::from_phys_spec(reg),
    {
        match reg {
            16u8 => Some(Xmm::Xmm0),
            17u8 => Some(Xmm::Xmm1),
            18u8 => Some(Xmm::Xmm2),
            19u8 => Some(Xmm::Xmm3),
            20u8 => Some(Xmm::Xmm4),
            21u8 => Some(Xmm::Xmm5),
            22u8 => Some(Xmm::Xmm6),
            23u8 => Some(Xmm::Xmm7),
            24u8 => Some(Xmm::Xmm8),
            25u8 => Some(Xmm::Xmm9),
            26u8 => Some(Xmm::Xmm10),
            27u8 => Some(Xmm::Xmm11),
            28u8 => Some(Xmm::Xmm12),
            29u8 => Some(Xmm::Xmm13),
            30u8 => Some(Xmm::Xmm14),
            31u8 => Some(Xmm::Xmm15),
            _ => None,
        }
    }
}

/// The class of the general-purpose registers in [`register_classes`].
pub const GPR_CLASS_ID: RegClassId = 0;

/// The class of the SSE registers in [`register_classes`].
pub const XMM_CLASS_ID: RegClassId = 1;

/// Integer argument registers, in assignment order.
pub const INT_ARG_REGS: [Gpr; 6] = [Gpr::Rdi, Gpr::Rsi, Gpr::Rdx, Gpr::Rcx, Gpr::R8, Gpr::R9];

/// Float argument registers, in assignment order.
pub const FLOAT_ARG_REGS: [Xmm; 8] = [
    Xmm::Xmm0,
    Xmm::Xmm1,
    Xmm::Xmm2,
    Xmm::Xmm3,
    Xmm::Xmm4,
    Xmm::Xmm5,
    Xmm::Xmm6,
    Xmm::Xmm7,
];

/// Integer return registers.
pub const INT_RETURN_REGS: [Gpr; 2] = [Gpr::Rax, Gpr::Rdx];

/// Float return registers.
pub const FLOAT_RETURN_REGS: [Xmm; 2] = [Xmm::Xmm0, Xmm::Xmm1];

/// The register of a single float result.
pub const FLOAT_RETURN_REG: Xmm = Xmm::Xmm0;

pub const STACK_POINTER: Gpr = Gpr::Rsp;

/// The frame pointer. Frame slots are addressed from it, so it is reserved.
pub const FRAME_POINTER: Gpr = Gpr::Rbp;

/// What `rsp` must be a multiple of at every call.
pub const CALL_SITE_STACK_ALIGNMENT: u32 = 16;

/// The allocatable general-purpose registers, caller-saved ones first: `rax`,
/// `rcx`, `rdx`, `rsi`, `rdi`, `r8` to `r11`, then `rbx` and `r12` to `r15`.
pub const GPR_ALLOCATABLE: [PhysReg; 14] = [0, 1, 2, 6, 7, 8, 9, 10, 11, 3, 12, 13, 14, 15];

/// The callee-saved registers among [`GPR_ALLOCATABLE`]: `rbx` and `r12` to
/// `r15`.
pub const GPR_CALLEE_SAVED: [PhysReg; 5] = [3, 12, 13, 14, 15];

/// The SSE registers, all of them caller-saved.
pub const XMM_ALLOCATABLE: [PhysReg; 16] = [
    16,
    17,
    18,
    19,
    20,
    21,
    22,
    23,
    24,
    25,
    26,
    27,
    28,
    29,
    30,
    31,
];

/// The register classes of the target, by their [`RegClassId`].
pub fn register_classes() -> (classes: Vec<RegisterClass>)
    ensures
        classes.len() == 2,
        classes[GPR_CLASS_ID as int].name == "x64-gpr",
        classes[GPR_CLASS_ID as int].kind == RegClassKind::Int,
        classes[GPR_CLASS_ID as int].registers@ == GPR_ALLOCATABLE@,
        classes[GPR_CLASS_ID as int].callee_saved@ == GPR_CALLEE_SAVED@,
        classes[XMM_CLASS_ID as int].name == "x64-xmm",
        classes[XMM_CLASS_ID as int].kind == RegClassKind::Float,
        classes[XMM_CLASS_ID as int].registers@ == XMM_ALLOCATABLE@,
        classes[XMM_CLASS_ID as int].callee_saved@ == Seq::<PhysReg>::empty(),
{
    let gpr: RegisterClass = RegisterClass {
        name: "x64-gpr",
        kind: RegClassKind::Int,
        registers: vec![0u8, 1, 2, 6, 7, 8, 9, 10, 11, 3, 12, 13, 14, 15],
        callee_saved: vec![3u8, 12, 13, 14, 15],
    };
    assert(gpr.registers@ =~= GPR_ALLOCATABLE@);
    assert(gpr.callee_saved@ =~= GPR_CALLEE_SAVED@);
    let xmm: RegisterClass = RegisterClass {
        name: "x64-xmm",
        kind: RegClassKind::Float,
        registers: vec![
            16u8,
            17,
            18,
            19,
            20,
            21,
            22,
            23,
            24,
            25,
            26,
            27,
            28,
            29,
            30,
            31,
        ],
        callee_saved: Vec::new(),
    };
    assert(xmm.registers@ =~= XMM_ALLOCATABLE@);
    let mut classes: Vec<RegisterClass> = Vec::new();
    classes.push(gpr);
    classes.push(xmm);
    classes
}

/// A register is the one with its number.
pub proof fn law_from_phys_inverts_phys(g: Gpr, x: Xmm)
    ensures
        Gpr::from_phys(g.phys()) == Some(g),
        Xmm::from_phys(x.phys()) == Some(x),
        Gpr::from_phys(x.phys()) is None,
        Xmm::from_phys(g.phys()) is None,
{
}

/// No two registers of the target share a number.
pub proof fn law_phys_numbers_are_unique(a: Gpr, b: Gpr, x: Xmm, y: Xmm)
    ensures
        a.phys() == b.phys() ==> a == b,
        x.phys() == y.phys() ==> x == y,
        a.phys() != x.phys(),
{
}

/// The allocatable registers are listed once each.
pub proof fn law_allocatable_registers_are_distinct(i: int, j: int)
    ensures
        0 <= i < j < 14 ==> GPR_ALLOCATABLE[i] != GPR_ALLOCATABLE[j],
        0 <= i < j < 16 ==> XMM_ALLOCATABLE[i] != XMM_ALLOCATABLE[j],
        0 <= i < 14 && 0 <= j < 16 ==> GPR_ALLOCATABLE[i] != XMM_ALLOCATABLE[j],
{
}

/// Every callee-saved register is allocatable.
pub proof fn law_callee_saved_is_allocatable(i: int)
    requires
        0 <= i < 5,
    ensures
        GPR_ALLOCATABLE@.contains(GPR_CALLEE_SAVED[i]),
{
    assert(GPR_ALLOCATABLE[9] == 3);
    assert(GPR_ALLOCATABLE[10] == 12);
    assert(GPR_ALLOCATABLE[11] == 13);
    assert(GPR_ALLOCATABLE[12] == 14);
    assert(GPR_ALLOCATABLE[13] == 15);
}

/// The stack pointer and the frame pointer are never allocated.
pub proof fn law_reserved_registers_are_not_allocatable()
    ensures
        !GPR_ALLOCATABLE@.contains(STACK_POINTER.phys()),
        !GPR_ALLOCATABLE@.contains(FRAME_POINTER.phys()),
{
}

} // verus!
