//! The byte encoder: an assembler of physical operands with labels.
//!
//! One call emits one instruction. The assembler is modelled by [`Code`]: the
//! bytes, the bound labels, the branch fields that are still to be filled, and
//! the call relocations. Branches always take a 32-bit displacement.

use crate::bytes::{law_read_le32, le32, le64, push_le32, push_le64, read32, set_le32};
use crate::inst::{ArithFOp, CondCode, FWidth, ShiftOp, Width};
use crate::ir::{Label, MethodHandle};
use crate::regs::{Gpr, Xmm};
use std::collections::HashMap;
use vstd::prelude::*;
use vstd::std_specs::convert::FromSpecImpl;

verus! {

broadcast use vstd::std_specs::hash::group_hash_axioms;

/// The scale of an index, in the order of the hardware encoding.
#[derive(Clone, Copy, PartialEq, Eq, Structural, Debug)]
pub enum Scale {
    X1,
    X2,
    X4,
    X8,
}

impl Scale {
    pub open spec fn number(self) -> u8 {
        match self {
            Scale::X1 => 0,
            Scale::X2 => 1,
            Scale::X4 => 2,
            Scale::X8 => 3,
        }
    }

    fn enc(self) -> (n: u8)
        ensures
            n == self.number(),
            n < 4,
    {
        match self {
            Scale::X1 => 0,
            Scale::X2 => 1,
            Scale::X4 => 2,
            Scale::X8 => 3,
        }
    }
}

/// A scaled index register.
#[derive(Clone, Copy, PartialEq, Eq, Structural, Debug)]
pub struct Index {
    pub reg: Gpr,
    pub scale: Scale,
}

/// A memory operand, `[base + index*scale + disp]`.
#[derive(Clone, Copy, PartialEq, Eq, Structural, Debug)]
pub struct Mem {
    pub base: Option<Gpr>,
    pub index: Option<Index>,
    pub disp: i32,
}

impl Mem {
    /// `[base]`.
    pub fn base(base: Gpr) -> (m: Mem)
        ensures
            m == (Mem { base: Some(base), index: None, disp: 0 }),
    {
        Mem::base_disp(base, 0)
    }

    /// `[base + disp]`.
    pub fn base_disp(base: Gpr, disp: i32) -> (m: Mem)
        ensures
            m == (Mem { base: Some(base), index: None, disp }),
    {
        Mem { base: Some(base), index: None, disp }
    }

    /// `[base + index*scale + disp]`.
    pub fn base_index_disp(base: Gpr, index: Gpr, scale: Scale, disp: i32) -> (m: Mem)
        ensures
            m == (Mem { base: Some(base), index: Some(Index { reg: index, scale }), disp }),
    {
        Mem { base: Some(base), index: Some(Index { reg: index, scale }), disp }
    }

    /// `[index*scale + disp]`.
    pub fn index_disp(index: Gpr, scale: Scale, disp: i32) -> (m: Mem)
        ensures
            m == (Mem { base: None, index: Some(Index { reg: index, scale }), disp }),
    {
        Mem { base: None, index: Some(Index { reg: index, scale }), disp }
    }

    /// `[disp]`.
    pub fn abs(disp: i32) -> (m: Mem)
        ensures
            m == (Mem { base: None, index: None, disp }),
    {
        Mem { base: None, index: None, disp }
    }
}

/// A register or memory operand.
#[derive(Clone, Copy, PartialEq, Eq, Structural, Debug)]
pub enum Rm {
    Reg(Gpr),
    Mem(Mem),
}

/// A register, memory or immediate operand.
#[derive(Clone, Copy, PartialEq, Eq, Structural, Debug)]
pub enum Rmi {
    Reg(Gpr),
    Mem(Mem),
    /// A 32-bit instruction takes the low half.
    Imm(i64),
}

/// A float register or memory operand.
#[derive(Clone, Copy, PartialEq, Eq, Structural, Debug)]
pub enum RmX {
    Reg(Xmm),
    Mem(Mem),
}

impl From<Gpr> for Rm {
    fn from(reg: Gpr) -> (r: Rm) {
        Rm::Reg(reg)
    }
}

impl FromSpecImpl<Gpr> for Rm {
    open spec fn obeys_from_spec() -> bool {
        true
    }

    open spec fn from_spec(reg: Gpr) -> Rm {
        Rm::Reg(reg)
    }
}

impl From<Mem> for Rm {
    fn from(mem: Mem) -> (r: Rm) {
        Rm::Mem(mem)
    }
}

impl FromSpecImpl<Mem> for Rm {
    open spec fn obeys_from_spec() -> bool {
        true
    }

    open spec fn from_spec(mem: Mem) -> Rm {
        Rm::Mem(mem)
    }
}

impl From<Gpr> for Rmi {
    fn from(reg: Gpr) -> (r: Rmi) {
        Rmi::Reg(reg)
    }
}

impl FromSpecImpl<Gpr> for Rmi {
    open spec fn obeys_from_spec() -> bool {
        true
    }

    open spec fn from_spec(reg: Gpr) -> Rmi {
        Rmi::Reg(reg)
    }
}

impl From<Mem> for Rmi {
    fn from(mem: Mem) -> (r: Rmi) {
        Rmi::Mem(mem)
    }
}

impl FromSpecImpl<Mem> for Rmi {
    open spec fn obeys_from_spec() -> bool {
        true
    }

    open spec fn from_spec(mem: Mem) -> Rmi {
        Rmi::Mem(mem)
    }
}

impl From<i64> for Rmi {
    fn from(imm: i64) -> (r: Rmi) {
        Rmi::Imm(imm)
    }
}

impl FromSpecImpl<i64> for Rmi {
    open spec fn obeys_from_spec() -> bool {
        true
    }

    open spec fn from_spec(imm: i64) -> Rmi {
        Rmi::Imm(imm)
    }
}

impl From<Xmm> for RmX {
    fn from(reg: Xmm) -> (r: RmX) {
        RmX::Reg(reg)
    }
}

impl FromSpecImpl<Xmm> for RmX {
    open spec fn obeys_from_spec() -> bool {
        true
    }

    open spec fn from_spec(reg: Xmm) -> RmX {
        RmX::Reg(reg)
    }
}

impl From<Mem> for RmX {
    fn from(mem: Mem) -> (r: RmX) {
        RmX::Mem(mem)
    }
}

impl FromSpecImpl<Mem> for RmX {
    open spec fn obeys_from_spec() -> bool {
        true
    }

    open spec fn from_spec(mem: Mem) -> RmX {
        RmX::Mem(mem)
    }
}

/// Why an assembly failed.
#[derive(Clone, Copy, PartialEq, Eq, Structural, Debug)]
pub enum EncodeError {
    /// A branch goes to a label that was never bound.
    UnboundLabel(Label),
    /// A displacement does not fit 32 bits.
    Rel32OutOfRange { at: u32, displacement: i64 },
}

/// The displacement of a call, at `offset` in the code, is to be filled in when
/// the address of the method is known.
#[derive(Clone, Copy, PartialEq, Eq, Structural, Debug)]
pub struct CallReloc {
    pub method: MethodHandle,
    pub offset: u32,
}

/// The displacement at `at` is to be filled in when `target` is bound.
#[derive(Clone, Copy, PartialEq, Eq, Structural, Debug)]
pub struct Fixup {
    pub at: u32,
    pub target: Label,
}

/// The assembled code.
#[derive(Debug)]
pub struct FinalizedCode {
    pub bytes: Vec<u8>,
    pub call_relocs: Vec<CallReloc>,
}

/// The number fits a signed 32-bit field.
pub open spec fn fits_i32(v: int) -> bool {
    -0x8000_0000 <= v <= 0x7FFF_FFFF
}

/// The number fits a signed 8-bit field.
pub open spec fn fits_i8(v: int) -> bool {
    -0x80 <= v <= 0x7F
}

/// `bytes` with the four at `at` replaced.
pub open spec fn patch4(bytes: Seq<u8>, at: int, field: Seq<u8>) -> Seq<u8> {
    bytes.take(at) + field + bytes.skip(at + 4)
}

/// An address as a signed number: the upper half of the address space lies below
/// zero.
pub open spec fn signed_address(address: usize) -> int {
    (address as u64) as i64 as int
}

impl CallReloc {
    /// What the displacement must be: the distance from the end of the call.
    pub open spec fn displacement(self, code_base: usize, target: usize) -> int {
        signed_address(target) - signed_address((code_base + self.offset + 4) as usize)
    }

    /// Fill in the displacement, once the code is at its final address.
    pub fn patch(&self, code: &mut Vec<u8>, code_base: usize, target: usize) -> (r: Result<
        (),
        EncodeError,
    >)
        requires
            code_base + self.offset + 4 <= usize::MAX,
            i64::MIN <= self.displacement(code_base, target) <= i64::MAX,
            fits_i32(self.displacement(code_base, target)) ==> self.offset + 4 <= old(code).len(),
        ensures
            match r {
                Ok(_) => fits_i32(self.displacement(code_base, target)) && final(code)@ == patch4(
                    old(code)@,
                    self.offset as int,
                    le32(self.displacement(code_base, target) as u32),
                ),
                Err(e) => !fits_i32(self.displacement(code_base, target)) && final(code)@ == old(
                    code,
                )@ && e == (EncodeError::Rel32OutOfRange {
                    at: self.offset,
                    displacement: self.displacement(code_base, target) as i64,
                }),
            },
    {
        let end: usize = code_base + self.offset as usize + 4;
        let from: i64 = #[verifier::truncate]
        (end as u64 as i64);
        let to: i64 = #[verifier::truncate]
        (target as u64 as i64);
        let rel: i64 = to - from;
        if rel < -0x8000_0000 || rel > 0x7FFF_FFFF {
            return Err(EncodeError::Rel32OutOfRange { at: self.offset, displacement: rel });
        }
        set_le32(
            code,
            self.offset as usize,
            #[verifier::truncate]
            (rel as u32),
        );
        Ok(())
    }
}

/// The displacement of one operand encoding.
#[derive(Clone, Copy, PartialEq, Eq, Structural, Debug)]
pub enum Disp {
    Absent,
    D8(i8),
    D32(i32),
}

/// An encoded operand pair: the REX bits W, R, X and B it needs (in that
/// order, B the lowest), and the bytes behind the opcode.
#[derive(Clone, Copy, PartialEq, Eq, Structural, Debug)]
pub struct ModRmEnc {
    pub rex: u8,
    pub modrm: u8,
    pub sib: Option<u8>,
    pub disp: Disp,
}

/// The REX bits of the operand size and the `reg` field.
pub open spec fn rex_wr(wide: bool, reg: u8) -> int {
    (if wide {
        8int
    } else {
        0int
    }) + 4 * (reg as int / 8)
}

/// A register operand.
#[verifier::opaque]
pub open spec fn reg_enc(wide: bool, reg: u8, rm: u8) -> ModRmEnc {
    ModRmEnc {
        rex: (rex_wr(wide, reg) + rm as int / 8) as u8,
        modrm: (0xC0 + 8 * (reg as int % 8) + rm as int % 8) as u8,
        sib: None,
        disp: Disp::Absent,
    }
}

/// The index field of a memory operand; 4 stands for none.
pub open spec fn index_number(mem: Mem) -> int {
    match mem.index {
        Some(index) => index.reg.number() as int,
        None => 4,
    }
}

pub open spec fn scale_number(mem: Mem) -> int {
    match mem.index {
        Some(index) => index.scale.number() as int,
        None => 0,
    }
}

/// A memory operand. Without a base it takes a SIB byte and a 32-bit
/// displacement. Base registers numbered 4 below the REX bit need a SIB byte,
/// and those numbered 5 a displacement.
#[verifier::opaque]
pub open spec fn mem_enc(wide: bool, reg: u8, mem: Mem) -> ModRmEnc {
    let x = 2 * (index_number(mem) / 8);
    let sib_high = 64 * scale_number(mem) + 8 * (index_number(mem) % 8);
    let reg_field = 8 * (reg as int % 8);
    match mem.base {
        None => ModRmEnc {
            rex: (rex_wr(wide, reg) + x) as u8,
            modrm: (reg_field + 4) as u8,
            sib: Some((sib_high + 5) as u8),
            disp: Disp::D32(mem.disp),
        },
        Some(base) => {
            let b = base.number() as int;
            let sib = mem.index is Some || b % 8 == 4;
            let (mode, disp) = if mem.disp == 0 && b % 8 != 5 {
                (0int, Disp::Absent)
            } else if fits_i8(mem.disp as int) {
                (1int, Disp::D8(mem.disp as i8))
            } else {
                (2int, Disp::D32(mem.disp))
            };
            ModRmEnc {
                rex: (rex_wr(wide, reg) + x + b / 8) as u8,
                modrm: (64 * mode + reg_field + if sib {
                    4
                } else {
                    b % 8
                }) as u8,
                sib: if sib {
                    Some((sib_high + b % 8) as u8)
                } else {
                    None
                },
                disp,
            }
        },
    }
}

pub open spec fn modrm_enc(wide: bool, reg: u8, rm: Rm) -> ModRmEnc {
    match rm {
        Rm::Reg(r) => reg_enc(wide, reg, r.number()),
        Rm::Mem(mem) => mem_enc(wide, reg, mem),
    }
}

pub open spec fn modrm_enc_x(wide: bool, reg: u8, rm: RmX) -> ModRmEnc {
    match rm {
        RmX::Reg(x) => reg_enc(wide, reg, x.number()),
        RmX::Mem(mem) => mem_enc(wide, reg, mem),
    }
}

pub open spec fn disp_bytes(disp: Disp) -> Seq<u8> {
    match disp {
        Disp::Absent => Seq::empty(),
        Disp::D8(d) => seq![d as u8],
        Disp::D32(d) => le32(d as u32),
    }
}

/// The bytes behind the opcode.
pub open spec fn tail_bytes(enc: ModRmEnc) -> Seq<u8> {
    seq![enc.modrm] + (match enc.sib {
        Some(sib) => seq![sib],
        None => Seq::empty(),
    }) + disp_bytes(enc.disp)
}

/// The REX prefix, where one is needed.
pub open spec fn rex_bytes(rex: u8) -> Seq<u8> {
    if rex == 0 {
        Seq::empty()
    } else {
        seq![(0x40 + rex) as u8]
    }
}

/// An instruction with an operand pair: REX, opcode, operands.
pub open spec fn insn_bytes(enc: ModRmEnc, opcode: Seq<u8>) -> Seq<u8> {
    rex_bytes(enc.rex) + opcode + tail_bytes(enc)
}

/// A scalar float instruction: legacy prefix (0 for none), REX, opcode,
/// operands.
pub open spec fn sse_bytes(prefix: u8, enc: ModRmEnc, opcode: u8) -> Seq<u8> {
    (if prefix == 0 {
        Seq::<u8>::empty()
    } else {
        seq![prefix]
    }) + rex_bytes(enc.rex) + seq![0x0Fu8, opcode] + tail_bytes(enc)
}

pub open spec fn is_wide(width: Width) -> bool {
    width is W64
}

/// Encode a register operand.
fn encode_reg(wide: bool, reg: u8, rm: u8) -> (enc: ModRmEnc)
    requires
        reg < 16,
        rm < 16,
    ensures
        enc == reg_enc(wide, reg, rm),
        enc.rex < 16,
{
    proof {
        reveal(reg_enc);
    }
    let w: u8 = if wide {
        8
    } else {
        0
    };
    ModRmEnc {
        rex: w + 4 * (reg / 8) + rm / 8,
        modrm: 0xC0 + 8 * (reg % 8) + rm % 8,
        sib: None,
        disp: Disp::Absent,
    }
}

/// Encode a memory operand.
fn encode_mem(wide: bool, reg: u8, mem: Mem) -> (enc: ModRmEnc)
    requires
        reg < 16,
    ensures
        enc == mem_enc(wide, reg, mem),
        enc.rex < 16,
{
    proof {
        reveal(mem_enc);
    }
    let w: u8 = if wide {
        8
    } else {
        0
    };
    let reg_field: u8 = 8 * (reg % 8);
    let (index, scale): (u8, u8) = match mem.index {
        Some(index) => (index.reg.enc(), index.scale.enc()),
        None => (4, 0),
    };
    let rex: u8 = w + 4 * (reg / 8) + 2 * (index / 8);
    let sib_high: u8 = 64 * scale + 8 * (index % 8);
    match mem.base {
        None => ModRmEnc {
            rex,
            modrm: reg_field + 4,
            sib: Some(sib_high + 5),
            disp: Disp::D32(mem.disp),
        },
        Some(base) => {
            let b: u8 = base.enc();
            let needs_sib: bool = mem.index.is_some() || b % 8 == 4;
            let (mode, disp): (u8, Disp) = if mem.disp == 0 && b % 8 != 5 {
                (0, Disp::Absent)
            } else if -0x80 <= mem.disp && mem.disp <= 0x7F {
                (1, Disp::D8(mem.disp as i8))
            } else {
                (2, Disp::D32(mem.disp))
            };
            let rm_field: u8 = if needs_sib {
                4
            } else {
                b % 8
            };
            ModRmEnc {
                rex: rex + b / 8,
                modrm: 64 * mode + reg_field + rm_field,
                sib: if needs_sib {
                    Some(sib_high + b % 8)
                } else {
                    None
                },
                disp,
            }
        },
    }
}

/// Encode a register or memory operand.
pub fn encode_modrm(wide: bool, reg: u8, rm: Rm) -> (enc: ModRmEnc)
    requires
        reg < 16,
    ensures
        enc == modrm_enc(wide, reg, rm),
        enc.rex < 16,
{
    match rm {
        Rm::Reg(r) => encode_reg(wide, reg, r.enc()),
        Rm::Mem(mem) => encode_mem(wide, reg, mem),
    }
}

/// Encode a float register or memory operand.
pub fn encode_modrm_x(wide: bool, reg: u8, rm: RmX) -> (enc: ModRmEnc)
    requires
        reg < 16,
    ensures
        enc == modrm_enc_x(wide, reg, rm),
        enc.rex < 16,
{
    match rm {
        RmX::Reg(x) => encode_reg(wide, reg, x.enc()),
        RmX::Mem(mem) => encode_mem(wide, reg, mem),
    }
}

/// A float operand is encoded like an integer one: a register like the
/// general-purpose register of the same number, and memory without a difference. A
/// register operand takes no byte behind its ModRM byte.
pub proof fn law_float_operands_encode_alike(wide: bool, reg: u8, x: Xmm, g: Gpr, mem: Mem)
    requires
        reg < 16,
        x.number() == g.number(),
    ensures
        modrm_enc_x(wide, reg, RmX::Reg(x)) == modrm_enc(wide, reg, Rm::Reg(g)),
        modrm_enc_x(wide, reg, RmX::Mem(mem)) == modrm_enc(wide, reg, Rm::Mem(mem)),
        ({
            let enc = modrm_enc_x(wide, reg, RmX::Reg(x));
            let w: u8 = if wide {
                8
            } else {
                0
            };
            &&& enc.rex == w | ((reg >> 3) << 2) | (x.number() >> 3)
            &&& enc.modrm == 0xC0 | ((reg & 7) << 3) | (x.number() & 7)
            &&& enc.sib is None
            &&& enc.disp is Absent
        }),
{
    reveal(reg_enc);
    let n = x.number();
    let w: u8 = if wide {
        8
    } else {
        0
    };
    assert(w | ((reg >> 3) << 2) | (n >> 3) == w + 4 * (reg / 8) + n / 8) by (bit_vector)
        requires
            reg < 16,
            n < 16,
            w == 0 || w == 8,
    ;
    assert(0xC0 | ((reg & 7) << 3) | (n & 7) == 0xC0 + 8 * (reg % 8) + n % 8) by (bit_vector)
        requires
            reg < 16,
            n < 16,
    ;
}

/// The integer instructions that share one encoding scheme.
#[derive(Clone, Copy, PartialEq, Eq, Structural, Debug)]
pub enum AluOp {
    Add,
    Or,
    And,
    Sub,
    Xor,
    Cmp,
    Test,
}

/// The opcodes of an [`AluOp`].
#[derive(Clone, Copy, PartialEq, Eq, Structural, Debug)]
pub struct AluRow {
    /// The destination is the register or memory operand.
    pub rm_r: u8,
    /// The destination is the register, the source is memory.
    pub r_rm: u8,
    /// With an immediate.
    pub imm_op: u8,
    /// The `reg` field of the immediate form.
    pub imm_ext: u8,
}

impl AluOp {
    pub open spec fn row_spec(self) -> AluRow {
        match self {
            AluOp::Add => AluRow { rm_r: 0x01, r_rm: 0x03, imm_op: 0x81, imm_ext: 0 },
            AluOp::Or => AluRow { rm_r: 0x09, r_rm: 0x0B, imm_op: 0x81, imm_ext: 1 },
            AluOp::And => AluRow { rm_r: 0x21, r_rm: 0x23, imm_op: 0x81, imm_ext: 4 },
            AluOp::Sub => AluRow { rm_r: 0x29, r_rm: 0x2B, imm_op: 0x81, imm_ext: 5 },
            AluOp::Xor => AluRow { rm_r: 0x31, r_rm: 0x33, imm_op: 0x81, imm_ext: 6 },
            AluOp::Cmp => AluRow { rm_r: 0x39, r_rm: 0x3B, imm_op: 0x81, imm_ext: 7 },
            AluOp::Test => AluRow { rm_r: 0x85, r_rm: 0x85, imm_op: 0xF7, imm_ext: 0 },
        }
    }

    fn row(self) -> (r: AluRow)
        ensures
            r == self.row_spec(),
    {
        match self {
            AluOp::Add => AluRow { rm_r: 0x01, r_rm: 0x03, imm_op: 0x81, imm_ext: 0 },
            AluOp::Or => AluRow { rm_r: 0x09, r_rm: 0x0B, imm_op: 0x81, imm_ext: 1 },
            AluOp::And => AluRow { rm_r: 0x21, r_rm: 0x23, imm_op: 0x81, imm_ext: 4 },
            AluOp::Sub => AluRow { rm_r: 0x29, r_rm: 0x2B, imm_op: 0x81, imm_ext: 5 },
            AluOp::Xor => AluRow { rm_r: 0x31, r_rm: 0x33, imm_op: 0x81, imm_ext: 6 },
            AluOp::Cmp => AluRow { rm_r: 0x39, r_rm: 0x3B, imm_op: 0x81, imm_ext: 7 },
            AluOp::Test => AluRow { rm_r: 0x85, r_rm: 0x85, imm_op: 0xF7, imm_ext: 0 },
        }
    }
}

/// The `reg` field of a shift.
pub open spec fn shift_number(op: ShiftOp) -> u8 {
    match op {
        ShiftOp::Shl => 4,
        ShiftOp::Shr => 5,
        ShiftOp::Sar => 7,
    }
}

fn shift_ext(op: ShiftOp) -> (n: u8)
    ensures
        n == shift_number(op),
        n < 16,
{
    match op {
        ShiftOp::Shl => 4,
        ShiftOp::Shr => 5,
        ShiftOp::Sar => 7,
    }
}

/// The hardware number of a condition.
pub open spec fn cond_number(cc: CondCode) -> u8 {
    match cc {
        CondCode::Eq => 0x4,
        CondCode::Ne => 0x5,
        CondCode::Lt => 0xC,
        CondCode::Le => 0xE,
        CondCode::Gt => 0xF,
        CondCode::Ge => 0xD,
        CondCode::ULt => 0x2,
        CondCode::ULe => 0x6,
        CondCode::UGt => 0x7,
        CondCode::UGe => 0x3,
        CondCode::Parity => 0xA,
        CondCode::NotParity => 0xB,
    }
}

fn cc_tttn(cc: CondCode) -> (n: u8)
    ensures
        n == cond_number(cc),
        n < 16,
{
    match cc {
        CondCode::Eq => 0x4,
        CondCode::Ne => 0x5,
        CondCode::Lt => 0xC,
        CondCode::Le => 0xE,
        CondCode::Gt => 0xF,
        CondCode::Ge => 0xD,
        CondCode::ULt => 0x2,
        CondCode::ULe => 0x6,
        CondCode::UGt => 0x7,
        CondCode::UGe => 0x3,
        CondCode::Parity => 0xA,
        CondCode::NotParity => 0xB,
    }
}

/// The prefix that tells the float width.
pub open spec fn sse_width_prefix(width: FWidth) -> u8 {
    match width {
        FWidth::S => 0xF3,
        FWidth::D => 0xF2,
    }
}

fn sse_prefix(width: FWidth) -> (p: u8)
    ensures
        p == sse_width_prefix(width),
{
    match width {
        FWidth::S => 0xF3,
        FWidth::D => 0xF2,
    }
}

/// The prefix that tells the float width of a packed instruction.
pub open spec fn packed_width_prefix(width: FWidth) -> u8 {
    match width {
        FWidth::S => 0,
        FWidth::D => 0x66,
    }
}

fn packed_prefix(width: FWidth) -> (p: u8)
    ensures
        p == packed_width_prefix(width),
{
    match width {
        FWidth::S => 0,
        FWidth::D => 0x66,
    }
}

/// `mov reg, imm`: a 64-bit immediate only where 32 bits do not do.
pub open spec fn mov_imm_code(width: Width, dst: Gpr, v: i64) -> Seq<u8> {
    let d = dst.number() as int;
    if is_wide(width) && !fits_i32(v as int) {
        seq![(0x48 + d / 8) as u8, (0xB8 + d % 8) as u8] + le64(v as u64)
    } else if is_wide(width) {
        insn_bytes(modrm_enc(true, 0, Rm::Reg(dst)), seq![0xC7u8]) + le32((v as i32) as u32)
    } else {
        rex_bytes((d / 8) as u8) + seq![(0xB8 + d % 8) as u8] + le32(v as u32)
    }
}

/// `mov dst, src`; memory to memory has no form.
pub open spec fn mov_code(width: Width, dst: Rm, src: Rmi) -> Seq<u8> {
    let wide = is_wide(width);
    match (dst, src) {
        (_, Rmi::Reg(s)) => insn_bytes(modrm_enc(wide, s.number(), dst), seq![0x89u8]),
        (Rm::Reg(d), Rmi::Mem(m)) => insn_bytes(
            modrm_enc(wide, d.number(), Rm::Mem(m)),
            seq![0x8Bu8],
        ),
        (Rm::Reg(d), Rmi::Imm(v)) => mov_imm_code(width, d, v),
        (Rm::Mem(m), Rmi::Imm(v)) => insn_bytes(modrm_enc(wide, 0, dst), seq![0xC7u8]) + le32(
            (v as i32) as u32,
        ),
        (Rm::Mem(_), Rmi::Mem(_)) => Seq::empty(),
    }
}

/// An integer instruction; an immediate takes one byte where that does.
pub open spec fn alu_code(op: AluOp, width: Width, dst: Rm, src: Rmi) -> Seq<u8> {
    let wide = is_wide(width);
    let row = op.row_spec();
    match (dst, src) {
        (_, Rmi::Reg(s)) => insn_bytes(modrm_enc(wide, s.number(), dst), seq![row.rm_r]),
        (Rm::Reg(d), Rmi::Mem(m)) => insn_bytes(
            modrm_enc(wide, d.number(), Rm::Mem(m)),
            seq![row.r_rm],
        ),
        (_, Rmi::Imm(v)) => {
            let imm = v as i32;
            if row.imm_op == 0x81 && fits_i8(imm as int) {
                insn_bytes(modrm_enc(wide, row.imm_ext, dst), seq![0x83u8]) + seq![imm as u8]
            } else {
                insn_bytes(modrm_enc(wide, row.imm_ext, dst), seq![row.imm_op]) + le32(imm as u32)
            }
        },
        (Rm::Mem(_), Rmi::Mem(_)) => Seq::empty(),
    }
}

/// The operands are not both memory.
pub open spec fn not_mem_mem(dst: Rm, src: Rmi) -> bool {
    !(dst is Mem && src is Mem)
}

pub open spec fn lea_code(dst: Gpr, addr: Mem) -> Seq<u8> {
    insn_bytes(modrm_enc(true, dst.number(), Rm::Mem(addr)), seq![0x8Du8])
}

pub open spec fn neg_code(width: Width, dst: Rm) -> Seq<u8> {
    insn_bytes(modrm_enc(is_wide(width), 3, dst), seq![0xF7u8])
}

pub open spec fn not_code(width: Width, dst: Rm) -> Seq<u8> {
    insn_bytes(modrm_enc(is_wide(width), 2, dst), seq![0xF7u8])
}

pub open spec fn div_code(width: Width, divisor: Rm) -> Seq<u8> {
    insn_bytes(modrm_enc(is_wide(width), 6, divisor), seq![0xF7u8])
}

pub open spec fn idiv_code(width: Width, divisor: Rm) -> Seq<u8> {
    insn_bytes(modrm_enc(is_wide(width), 7, divisor), seq![0xF7u8])
}

pub open spec fn shift_cl_code(op: ShiftOp, width: Width, dst: Rm) -> Seq<u8> {
    insn_bytes(modrm_enc(is_wide(width), shift_number(op), dst), seq![0xD3u8])
}

/// A shift by one has a form of its own.
pub open spec fn shift_imm_code(op: ShiftOp, width: Width, dst: Rm, count: i64) -> Seq<u8> {
    let enc = modrm_enc(is_wide(width), shift_number(op), dst);
    if count == 1 {
        insn_bytes(enc, seq![0xD1u8])
    } else {
        insn_bytes(enc, seq![0xC1u8]) + seq![count as u8]
    }
}

/// Registers from number 4 on need a REX prefix to name their low byte.
pub open spec fn setcc_code(cc: CondCode, dst: Gpr) -> Seq<u8> {
    let d = dst.number() as int;
    (if d >= 4 {
        seq![(0x40 + d / 8) as u8]
    } else {
        Seq::<u8>::empty()
    }) + seq![0x0Fu8, (0x90 + cond_number(cc)) as u8, (0xC0 + d % 8) as u8]
}

pub open spec fn movsxd_code(dst: Gpr, src: Rm) -> Seq<u8> {
    insn_bytes(modrm_enc(true, dst.number(), src), seq![0x63u8])
}

pub open spec fn imul_code(width: Width, dst: Gpr, src: Rm) -> Seq<u8> {
    insn_bytes(modrm_enc(is_wide(width), dst.number(), src), seq![0x0Fu8, 0xAFu8])
}

pub open spec fn imul_imm_code(width: Width, dst: Gpr, lhs: Rm, imm: i64) -> Seq<u8> {
    let enc = modrm_enc(is_wide(width), dst.number(), lhs);
    let imm32 = imm as i32;
    if fits_i8(imm32 as int) {
        insn_bytes(enc, seq![0x6Bu8]) + seq![imm32 as u8]
    } else {
        insn_bytes(enc, seq![0x69u8]) + le32(imm32 as u32)
    }
}

pub open spec fn cdq_code(width: Width) -> Seq<u8> {
    if is_wide(width) {
        seq![0x48u8, 0x99u8]
    } else {
        seq![0x99u8]
    }
}

pub open spec fn mov_f_load_code(width: FWidth, dst: Xmm, src: RmX) -> Seq<u8> {
    sse_bytes(sse_width_prefix(width), modrm_enc_x(false, dst.number(), src), 0x10)
}

pub open spec fn mov_f_store_code(width: FWidth, dst: Mem, src: Xmm) -> Seq<u8> {
    sse_bytes(sse_width_prefix(width), modrm_enc_x(false, src.number(), RmX::Mem(dst)), 0x11)
}

pub open spec fn arith_f_opcode(op: ArithFOp) -> u8 {
    match op {
        ArithFOp::Add => 0x58,
        ArithFOp::Sub => 0x5C,
        ArithFOp::Mul => 0x59,
        ArithFOp::Div => 0x5E,
        ArithFOp::Min => 0x5D,
        ArithFOp::Max => 0x5F,
    }
}

pub open spec fn arith_f_code(op: ArithFOp, width: FWidth, dst: Xmm, src: RmX) -> Seq<u8> {
    sse_bytes(
        sse_width_prefix(width),
        modrm_enc_x(false, dst.number(), src),
        arith_f_opcode(op),
    )
}

pub open spec fn ucomis_code(width: FWidth, lhs: Xmm, rhs: RmX) -> Seq<u8> {
    sse_bytes(packed_width_prefix(width), modrm_enc_x(false, lhs.number(), rhs), 0x2E)
}

pub open spec fn xor_f_code(width: FWidth, dst: Xmm, src: RmX) -> Seq<u8> {
    sse_bytes(packed_width_prefix(width), modrm_enc_x(false, dst.number(), src), 0x57)
}

pub open spec fn cvtsi2s_code(width: FWidth, dst: Xmm, src: Rm, src_w64: bool) -> Seq<u8> {
    sse_bytes(sse_width_prefix(width), modrm_enc(src_w64, dst.number(), src), 0x2A)
}

pub open spec fn cvtts2si_code(width: FWidth, dst: Gpr, src: RmX, dst_w64: bool) -> Seq<u8> {
    sse_bytes(sse_width_prefix(width), modrm_enc_x(dst_w64, dst.number(), src), 0x2C)
}

pub open spec fn other_width(width: FWidth) -> FWidth {
    match width {
        FWidth::S => FWidth::D,
        FWidth::D => FWidth::S,
    }
}

/// The prefix tells the width that is read.
pub open spec fn cvts2s_code(to: FWidth, dst: Xmm, src: RmX) -> Seq<u8> {
    sse_bytes(sse_width_prefix(other_width(to)), modrm_enc_x(false, dst.number(), src), 0x5A)
}

pub open spec fn mov_gpr_to_xmm_code(width: FWidth, dst: Xmm, src: Gpr) -> Seq<u8> {
    sse_bytes(0x66, modrm_enc(width is D, dst.number(), Rm::Reg(src)), 0x6E)
}

pub open spec fn plus_reg_code(opcode: u8, reg: Gpr) -> Seq<u8> {
    rex_bytes((reg.number() / 8) as u8) + seq![(opcode + reg.number() % 8) as u8]
}

pub open spec fn movzx_load_code(size: u8, dst: Gpr, src: Mem) -> Seq<u8> {
    insn_bytes(
        modrm_enc(false, dst.number(), Rm::Mem(src)),
        seq![0x0Fu8, if size == 1 { 0xB6u8 } else { 0xB7u8 }],
    )
}

pub open spec fn movsx_load_code(size: u8, dst: Gpr, src: Mem) -> Seq<u8> {
    insn_bytes(
        modrm_enc(false, dst.number(), Rm::Mem(src)),
        seq![0x0Fu8, if size == 1 { 0xBEu8 } else { 0xBFu8 }],
    )
}

/// The one-byte form always takes a REX prefix, so that every register has a
/// low byte.
pub open spec fn mov_store_narrow_code(size: u8, dst: Mem, src: Gpr) -> Seq<u8> {
    let enc = modrm_enc(false, src.number(), Rm::Mem(dst));
    if size == 1 {
        seq![(0x40 + enc.rex) as u8, 0x88u8] + tail_bytes(enc)
    } else {
        seq![0x66u8] + insn_bytes(enc, seq![0x89u8])
    }
}

/// What has been assembled.
#[verifier::ext_equal]
pub struct Code {
    pub bytes: Seq<u8>,
    /// The offsets of the bound labels, by block number.
    pub labels: Map<u32, u32>,
    pub fixups: Seq<Fixup>,
    pub relocs: Seq<CallReloc>,
}

impl Code {
    pub open spec fn empty() -> Code {
        Code {
            bytes: Seq::empty(),
            labels: Map::empty(),
            fixups: Seq::empty(),
            relocs: Seq::empty(),
        }
    }

    /// With more bytes.
    pub open spec fn emit(self, more: Seq<u8>) -> Code {
        Code { bytes: self.bytes + more, ..self }
    }

    /// The write position.
    pub open spec fn here(self) -> u32 {
        self.bytes.len() as u32
    }

    /// With a displacement to `target` that is still to be filled in.
    pub open spec fn branch_field(self, target: Label) -> Code {
        Code {
            bytes: self.bytes + le32(0),
            fixups: self.fixups.push(Fixup { at: self.here(), target }),
            ..self
        }
    }

    /// With a displacement to `method` that is still to be filled in.
    pub open spec fn call_field(self, method: MethodHandle) -> Code {
        Code {
            bytes: self.bytes + le32(0),
            relocs: self.relocs.push(CallReloc { method, offset: self.here() }),
            ..self
        }
    }

    /// With `label` bound at the write position.
    pub open spec fn bound(self, label: Label) -> Code {
        Code { labels: self.labels.insert(label.0.0, self.here()), ..self }
    }

    /// What must stand in the field of a fixup: the distance from its end.
    pub open spec fn displacement(self, fixup: Fixup) -> int {
        self.labels[fixup.target.0.0] - (fixup.at + 4)
    }

    /// What is wrong with a fixup.
    pub open spec fn fixup_error(self, fixup: Fixup) -> Option<EncodeError> {
        if !self.labels.contains_key(fixup.target.0.0) {
            Some(EncodeError::UnboundLabel(fixup.target))
        } else if !fits_i32(self.displacement(fixup)) {
            Some(
                EncodeError::Rel32OutOfRange {
                    at: fixup.at,
                    displacement: self.displacement(fixup) as i64,
                },
            )
        } else {
            None
        }
    }

    /// What is wrong with the first `n` fixups.
    pub open spec fn error_among(self, n: nat) -> Option<EncodeError>
        decreases n,
    {
        if n == 0 {
            None
        } else {
            match self.error_among((n - 1) as nat) {
                Some(e) => Some(e),
                None => self.fixup_error(self.fixups[n - 1]),
            }
        }
    }

    /// The bytes with the first `n` fixups filled in.
    pub open spec fn patched(self, n: nat) -> Seq<u8>
        decreases n,
    {
        if n == 0 {
            self.bytes
        } else {
            let fixup = self.fixups[n - 1];
            patch4(
                self.patched((n - 1) as nat),
                fixup.at as int,
                le32(self.displacement(fixup) as u32),
            )
        }
    }

    /// Every fixup has its field.
    pub open spec fn fields_exist(self) -> bool {
        forall|i: int|
            0 <= i < self.fixups.len() ==> (#[trigger] self.fixups[i]).at + 4 <= self.bytes.len()
    }
}

/// The assembler.
pub struct Asm {
    buf: Vec<u8>,
    labels: HashMap<u32, u32>,
    fixups: Vec<Fixup>,
    call_relocs: Vec<CallReloc>,
}

impl View for Asm {
    type V = Code;

    closed spec fn view(&self) -> Code {
        Code {
            bytes: self.buf@,
            labels: self.labels@,
            fixups: self.fixups@,
            relocs: self.call_relocs@,
        }
    }
}

impl Asm {
    pub fn new() -> (assembler: Asm)
        ensures
            assembler@ == Code::empty(),
    {
        let assembler: Asm = Asm {
            buf: Vec::new(),
            labels: HashMap::new(),
            fixups: Vec::new(),
            call_relocs: Vec::new(),
        };
        assert(assembler@ =~= Code::empty());
        assembler
    }

    /// The write position.
    pub fn offset(&self) -> (at: u32)
        ensures
            at == self@.here(),
    {
        #[verifier::truncate]
        (self.buf.len() as u32)
    }

    /// Bind a label at the write position. A label is bound once.
    pub fn bind(&mut self, label: Label)
        requires
            !old(self)@.labels.contains_key(label.0.0),
        ensures
            final(self)@ == old(self)@.bound(label),
    {
        let at: u32 = self.offset();
        self.labels.insert(label.0.0, at);
    }

    /// The label is bound.
    pub fn is_bound(&self, label: Label) -> (b: bool)
        ensures
            b == self@.labels.contains_key(label.0.0),
    {
        self.labels.contains_key(&label.0.0)
    }

    fn emit_u8(&mut self, v: u8)
        ensures
            final(self)@ == old(self)@.emit(seq![v]),
    {
        self.buf.push(v);
        assert(self@ =~= old(self)@.emit(seq![v]));
    }

    fn emit_u32(&mut self, v: u32)
        ensures
            final(self)@ == old(self)@.emit(le32(v)),
    {
        push_le32(&mut self.buf, v);
        assert(self@ =~= old(self)@.emit(le32(v)));
    }

    fn emit_u64(&mut self, v: u64)
        ensures
            final(self)@ == old(self)@.emit(le64(v)),
    {
        push_le64(&mut self.buf, v);
        assert(self@ =~= old(self)@.emit(le64(v)));
    }

    /// The REX prefix, where one is needed.
    fn emit_rex(&mut self, rex: u8)
        requires
            rex < 16,
        ensures
            final(self)@ == old(self)@.emit(rex_bytes(rex)),
    {
        if rex != 0 {
            self.emit_u8(0x40 + rex);
        }
        assert(self@ =~= old(self)@.emit(rex_bytes(rex)));
    }

    /// The bytes behind the opcode.
    fn emit_modrm_tail(&mut self, enc: ModRmEnc)
        ensures
            final(self)@ == old(self)@.emit(tail_bytes(enc)),
    {
        self.emit_u8(enc.modrm);
        if let Some(sib) = enc.sib {
            self.emit_u8(sib);
        }
        match enc.disp {
            Disp::Absent => {},
            Disp::D8(d) => self.emit_u8(
                #[verifier::truncate]
                (d as u8),
            ),
            Disp::D32(d) => self.emit_u32(
                #[verifier::truncate]
                (d as u32),
            ),
        }
        assert(self@ =~= old(self)@.emit(tail_bytes(enc)));
    }

    /// An instruction with a one-byte opcode.
    fn emit_modrm_insn(&mut self, wide: bool, reg: u8, rm: Rm, opcode: u8)
        requires
            reg < 16,
        ensures
            final(self)@ == old(self)@.emit(insn_bytes(modrm_enc(wide, reg, rm), seq![opcode])),
    {
        let enc: ModRmEnc = encode_modrm(wide, reg, rm);
        self.emit_rex(enc.rex);
        self.emit_u8(opcode);
        self.emit_modrm_tail(enc);
        assert(self@ =~= old(self)@.emit(insn_bytes(enc, seq![opcode])));
    }

    /// An instruction with a two-byte opcode.
    fn emit_modrm_insn_0f(&mut self, wide: bool, reg: u8, rm: Rm, opcode: u8)
        requires
            reg < 16,
        ensures
            final(self)@ == old(self)@.emit(
                insn_bytes(modrm_enc(wide, reg, rm), seq![0x0Fu8, opcode]),
            ),
    {
        let enc: ModRmEnc = encode_modrm(wide, reg, rm);
        self.emit_rex(enc.rex);
        self.emit_u8(0x0F);
        self.emit_u8(opcode);
        self.emit_modrm_tail(enc);
        assert(self@ =~= old(self)@.emit(insn_bytes(enc, seq![0x0Fu8, opcode])));
    }

    /// A scalar float instruction.
    fn emit_sse_enc(&mut self, prefix: u8, enc: ModRmEnc, opcode: u8)
        requires
            enc.rex < 16,
        ensures
            final(self)@ == old(self)@.emit(sse_bytes(prefix, enc, opcode)),
    {
        if prefix != 0 {
            self.emit_u8(prefix);
        }
        self.emit_rex(enc.rex);
        self.emit_u8(0x0F);
        self.emit_u8(opcode);
        self.emit_modrm_tail(enc);
        assert(self@ =~= old(self)@.emit(sse_bytes(prefix, enc, opcode)));
    }

    fn emit_sse(&mut self, prefix: u8, wide: bool, reg: u8, rm: RmX, opcode: u8)
        requires
            reg < 16,
        ensures
            final(self)@ == old(self)@.emit(sse_bytes(prefix, modrm_enc_x(wide, reg, rm), opcode)),
    {
        let enc: ModRmEnc = encode_modrm_x(wide, reg, rm);
        self.emit_sse_enc(prefix, enc, opcode);
    }

    fn emit_rel32_fixup(&mut self, target: Label)
        ensures
            final(self)@ == old(self)@.branch_field(target),
    {
        let at: u32 = self.offset();
        self.fixups.push(Fixup { at, target });
        self.emit_u32(0);
        assert(self@ =~= old(self)@.branch_field(target));
    }

    fn emit_op_plus_reg(&mut self, opcode: u8, reg: Gpr)
        requires
            opcode <= 0xF8,
        ensures
            final(self)@ == old(self)@.emit(plus_reg_code(opcode, reg)),
    {
        let r: u8 = reg.enc();
        self.emit_rex(r / 8);
        self.emit_u8(opcode + r % 8);
        assert(self@ =~= old(self)@.emit(plus_reg_code(opcode, reg)));
    }

    fn mov_reg_imm(&mut self, width: Width, dst: Gpr, v: i64)
        ensures
            final(self)@ == old(self)@.emit(mov_imm_code(width, dst, v)),
    {
        let d: u8 = dst.enc();
        let wide: bool = matches!(width, Width::W64);
        if wide && (v < -0x8000_0000 || v > 0x7FFF_FFFF) {
            self.emit_u8(0x48 + d / 8);
            self.emit_u8(0xB8 + d % 8);
            self.emit_u64(
                #[verifier::truncate]
                (v as u64),
            );
        } else if wide {
            self.emit_modrm_insn(true, 0, Rm::Reg(dst), 0xC7);
            self.emit_u32(
                #[verifier::truncate]
                ((v as i32) as u32),
            );
        } else {
            self.emit_rex(d / 8);
            self.emit_u8(0xB8 + d % 8);
            self.emit_u32(
                #[verifier::truncate]
                (v as u32),
            );
        }
        assert(self@ =~= old(self)@.emit(mov_imm_code(width, dst, v)));
    }

    /// `mov dst, src`.
    pub fn mov(&mut self, width: Width, dst: Rm, src: Rmi)
        requires
            not_mem_mem(dst, src),
        ensures
            final(self)@ == old(self)@.emit(mov_code(width, dst, src)),
    {
        let wide: bool = matches!(width, Width::W64);
        match (dst, src) {
            (_, Rmi::Reg(s)) => self.emit_modrm_insn(wide, s.enc(), dst, 0x89),
            (Rm::Reg(d), Rmi::Mem(m)) => self.emit_modrm_insn(wide, d.enc(), Rm::Mem(m), 0x8B),
            (Rm::Reg(d), Rmi::Imm(v)) => self.mov_reg_imm(width, d, v),
            (Rm::Mem(m), Rmi::Imm(v)) => {
                self.emit_modrm_insn(wide, 0, dst, 0xC7);
                self.emit_u32(
                    #[verifier::truncate]
                    ((v as i32) as u32),
                );
            },
            (Rm::Mem(_), Rmi::Mem(_)) => {},
        }
        assert(self@ =~= old(self)@.emit(mov_code(width, dst, src)));
    }

    /// `op dst, src`.
    pub fn alu(&mut self, op: AluOp, width: Width, dst: Rm, src: Rmi)
        requires
            not_mem_mem(dst, src),
        ensures
            final(self)@ == old(self)@.emit(alu_code(op, width, dst, src)),
    {
        let wide: bool = matches!(width, Width::W64);
        let row: AluRow = op.row();
        match (dst, src) {
            (_, Rmi::Reg(s)) => self.emit_modrm_insn(wide, s.enc(), dst, row.rm_r),
            (Rm::Reg(d), Rmi::Mem(m)) => self.emit_modrm_insn(wide, d.enc(), Rm::Mem(m), row.r_rm),
            (_, Rmi::Imm(v)) => {
                let imm: i32 = #[verifier::truncate]
                (v as i32);
                if row.imm_op == 0x81 && -0x80 <= imm && imm <= 0x7F {
                    self.emit_modrm_insn(wide, row.imm_ext, dst, 0x83);
                    self.emit_u8(
                        #[verifier::truncate]
                        (imm as u8),
                    );
                } else {
                    self.emit_modrm_insn(wide, row.imm_ext, dst, row.imm_op);
                    self.emit_u32(
                        #[verifier::truncate]
                        (imm as u32),
                    );
                }
            },
            (Rm::Mem(_), Rmi::Mem(_)) => {},
        }
        assert(self@ =~= old(self)@.emit(alu_code(op, width, dst, src)));
    }

    /// `add dst, src`.
    pub fn add(&mut self, width: Width, dst: Rm, src: Rmi)
        requires
            not_mem_mem(dst, src),
        ensures
            final(self)@ == old(self)@.emit(alu_code(AluOp::Add, width, dst, src)),
    {
        self.alu(AluOp::Add, width, dst, src);
    }

    /// `sub dst, src`.
    pub fn sub(&mut self, width: Width, dst: Rm, src: Rmi)
        requires
            not_mem_mem(dst, src),
        ensures
            final(self)@ == old(self)@.emit(alu_code(AluOp::Sub, width, dst, src)),
    {
        self.alu(AluOp::Sub, width, dst, src);
    }

    /// `and dst, src`.
    pub fn and(&mut self, width: Width, dst: Rm, src: Rmi)
        requires
            not_mem_mem(dst, src),
        ensures
            final(self)@ == old(self)@.emit(alu_code(AluOp::And, width, dst, src)),
    {
        self.alu(AluOp::And, width, dst, src);
    }

    /// `or dst, src`.
    pub fn or(&mut self, width: Width, dst: Rm, src: Rmi)
        requires
            not_mem_mem(dst, src),
        ensures
            final(self)@ == old(self)@.emit(alu_code(AluOp::Or, width, dst, src)),
    {
        self.alu(AluOp::Or, width, dst, src);
    }

    /// `xor dst, src`.
    pub fn xor(&mut self, width: Width, dst: Rm, src: Rmi)
        requires
            not_mem_mem(dst, src),
        ensures
            final(self)@ == old(self)@.emit(alu_code(AluOp::Xor, width, dst, src)),
    {
        self.alu(AluOp::Xor, width, dst, src);
    }

    /// `cmp lhs, rhs`: sets the flags.
    pub fn cmp(&mut self, width: Width, lhs: Rm, rhs: Rmi)
        requires
            not_mem_mem(lhs, rhs),
        ensures
            final(self)@ == old(self)@.emit(alu_code(AluOp::Cmp, width, lhs, rhs)),
    {
        self.alu(AluOp::Cmp, width, lhs, rhs);
    }

    /// `test lhs, rhs`: sets the flags.
    pub fn test(&mut self, width: Width, lhs: Rm, rhs: Rmi)
        requires
            not_mem_mem(lhs, rhs),
        ensures
            final(self)@ == old(self)@.emit(alu_code(AluOp::Test, width, lhs, rhs)),
    {
        self.alu(AluOp::Test, width, lhs, rhs);
    }

    /// `lea dst, [addr]`.
    pub fn lea(&mut self, dst: Gpr, addr: Mem)
        ensures
            final(self)@ == old(self)@.emit(lea_code(dst, addr)),
    {
        self.emit_modrm_insn(true, dst.enc(), Rm::Mem(addr), 0x8D);
    }

    /// `neg dst`.
    pub fn neg(&mut self, width: Width, dst: Rm)
        ensures
            final(self)@ == old(self)@.emit(neg_code(width, dst)),
    {
        let wide: bool = matches!(width, Width::W64);
        self.emit_modrm_insn(wide, 3, dst, 0xF7);
    }

    /// `not dst`.
    pub fn not(&mut self, width: Width, dst: Rm)
        ensures
            final(self)@ == old(self)@.emit(not_code(width, dst)),
    {
        let wide: bool = matches!(width, Width::W64);
        self.emit_modrm_insn(wide, 2, dst, 0xF7);
    }

    /// `div divisor`: unsigned, `rdx:rax` by the divisor.
    pub fn div(&mut self, width: Width, divisor: Rm)
        ensures
            final(self)@ == old(self)@.emit(div_code(width, divisor)),
    {
        let wide: bool = matches!(width, Width::W64);
        self.emit_modrm_insn(wide, 6, divisor, 0xF7);
    }

    /// `idiv divisor`: signed, `rdx:rax` by the divisor.
    pub fn idiv(&mut self, width: Width, divisor: Rm)
        ensures
            final(self)@ == old(self)@.emit(idiv_code(width, divisor)),
    {
        let wide: bool = matches!(width, Width::W64);
        self.emit_modrm_insn(wide, 7, divisor, 0xF7);
    }

    /// A shift by the count in `cl`.
    pub fn shift_cl(&mut self, op: ShiftOp, width: Width, dst: Rm)
        ensures
            final(self)@ == old(self)@.emit(shift_cl_code(op, width, dst)),
    {
        let wide: bool = matches!(width, Width::W64);
        self.emit_modrm_insn(wide, shift_ext(op), dst, 0xD3);
    }

    /// A shift by a constant count; the hardware takes it modulo the width.
    pub fn shift_imm(&mut self, op: ShiftOp, width: Width, dst: Rm, count: i64)
        ensures
            final(self)@ == old(self)@.emit(shift_imm_code(op, width, dst, count)),
    {
        let wide: bool = matches!(width, Width::W64);
        if count == 1 {
            self.emit_modrm_insn(wide, shift_ext(op), dst, 0xD1);
        } else {
            self.emit_modrm_insn(wide, shift_ext(op), dst, 0xC1);
            self.emit_u8(
                #[verifier::truncate]
                (count as u8),
            );
        }
        assert(self@ =~= old(self)@.emit(shift_imm_code(op, width, dst, count)));
    }

    /// `setcc dst`: the low byte becomes 0 or 1.
    pub fn setcc(&mut self, cc: CondCode, dst: Gpr)
        ensures
            final(self)@ == old(self)@.emit(setcc_code(cc, dst)),
    {
        let d: u8 = dst.enc();
        if d >= 4 {
            self.emit_u8(0x40 + d / 8);
        }
        self.emit_u8(0x0F);
        self.emit_u8(0x90 + cc_tttn(cc));
        self.emit_u8(0xC0 + d % 8);
        assert(self@ =~= old(self)@.emit(setcc_code(cc, dst)));
    }

    /// `movsxd dst, src`: from 32 to 64 bits, keeping the sign.
    pub fn movsxd(&mut self, dst: Gpr, src: Rm)
        ensures
            final(self)@ == old(self)@.emit(movsxd_code(dst, src)),
    {
        self.emit_modrm_insn(true, dst.enc(), src, 0x63);
    }

    /// `movss`/`movsd dst, src`.
    pub fn mov_f_load(&mut self, width: FWidth, dst: Xmm, src: RmX)
        ensures
            final(self)@ == old(self)@.emit(mov_f_load_code(width, dst, src)),
    {
        self.emit_sse(sse_prefix(width), false, dst.enc(), src, 0x10);
    }

    /// `movss`/`movsd [dst], src`.
    pub fn mov_f_store(&mut self, width: FWidth, dst: Mem, src: Xmm)
        ensures
            final(self)@ == old(self)@.emit(mov_f_store_code(width, dst, src)),
    {
        self.emit_sse(sse_prefix(width), false, src.enc(), RmX::Mem(dst), 0x11);
    }

    /// Scalar float arithmetic, `dst := dst op src`.
    pub fn arith_f(&mut self, op: ArithFOp, width: FWidth, dst: Xmm, src: RmX)
        ensures
            final(self)@ == old(self)@.emit(arith_f_code(op, width, dst, src)),
    {
        let opcode: u8 = match op {
            ArithFOp::Add => 0x58,
            ArithFOp::Sub => 0x5C,
            ArithFOp::Mul => 0x59,
            ArithFOp::Div => 0x5E,
            ArithFOp::Min => 0x5D,
            ArithFOp::Max => 0x5F,
        };
        self.emit_sse(sse_prefix(width), false, dst.enc(), src, opcode);
    }

    /// `ucomiss`/`ucomisd lhs, rhs`: sets the flags.
    pub fn ucomis(&mut self, width: FWidth, lhs: Xmm, rhs: RmX)
        ensures
            final(self)@ == old(self)@.emit(ucomis_code(width, lhs, rhs)),
    {
        self.emit_sse(packed_prefix(width), false, lhs.enc(), rhs, 0x2E);
    }

    /// `xorps`/`xorpd dst, src`.
    pub fn xor_f(&mut self, width: FWidth, dst: Xmm, src: RmX)
        ensures
            final(self)@ == old(self)@.emit(xor_f_code(width, dst, src)),
    {
        self.emit_sse(packed_prefix(width), false, dst.enc(), src, 0x57);
    }

    /// `cvtsi2ss`/`cvtsi2sd dst, src`: from a signed integer.
    pub fn cvtsi2s(&mut self, width: FWidth, dst: Xmm, src: Rm, src_w64: bool)
        ensures
            final(self)@ == old(self)@.emit(cvtsi2s_code(width, dst, src, src_w64)),
    {
        let enc: ModRmEnc = encode_modrm(src_w64, dst.enc(), src);
        self.emit_sse_enc(sse_prefix(width), enc, 0x2A);
    }

    /// `cvttss2si`/`cvttsd2si dst, src`: to a signed integer, truncating.
    pub fn cvtts2si(&mut self, width: FWidth, dst: Gpr, src: RmX, dst_w64: bool)
        ensures
            final(self)@ == old(self)@.emit(cvtts2si_code(width, dst, src, dst_w64)),
    {
        self.emit_sse(sse_prefix(width), dst_w64, dst.enc(), src, 0x2C);
    }

    /// `cvtss2sd`/`cvtsd2ss dst, src`: to the width `to`.
    pub fn cvts2s(&mut self, to: FWidth, dst: Xmm, src: RmX)
        ensures
            final(self)@ == old(self)@.emit(cvts2s_code(to, dst, src)),
    {
        let prefix: u8 = match to {
            FWidth::D => 0xF3,
            FWidth::S => 0xF2,
        };
        self.emit_sse(prefix, false, dst.enc(), src, 0x5A);
    }

    /// `movd`/`movq dst, src`: the bits of a general-purpose register.
    pub fn mov_gpr_to_xmm(&mut self, width: FWidth, dst: Xmm, src: Gpr)
        ensures
            final(self)@ == old(self)@.emit(mov_gpr_to_xmm_code(width, dst, src)),
    {
        let w64: bool = matches!(width, FWidth::D);
        let enc: ModRmEnc = encode_modrm(w64, dst.enc(), Rm::Reg(src));
        self.emit_sse_enc(0x66, enc, 0x6E);
    }

    /// `imul dst, src`.
    pub fn imul(&mut self, width: Width, dst: Gpr, src: Rm)
        ensures
            final(self)@ == old(self)@.emit(imul_code(width, dst, src)),
    {
        let wide: bool = matches!(width, Width::W64);
        self.emit_modrm_insn_0f(wide, dst.enc(), src, 0xAF);
    }

    /// `imul dst, lhs, imm`.
    pub fn imul_imm(&mut self, width: Width, dst: Gpr, lhs: Rm, imm: i64)
        ensures
            final(self)@ == old(self)@.emit(imul_imm_code(width, dst, lhs, imm)),
    {
        let wide: bool = matches!(width, Width::W64);
        let imm32: i32 = #[verifier::truncate]
        (imm as i32);
        if -0x80 <= imm32 && imm32 <= 0x7F {
            self.emit_modrm_insn(wide, dst.enc(), lhs, 0x6B);
            self.emit_u8(
                #[verifier::truncate]
                (imm32 as u8),
            );
        } else {
            self.emit_modrm_insn(wide, dst.enc(), lhs, 0x69);
            self.emit_u32(
                #[verifier::truncate]
                (imm32 as u32),
            );
        }
        assert(self@ =~= old(self)@.emit(imul_imm_code(width, dst, lhs, imm)));
    }

    /// `cdq`/`cqo`: extends the sign of `rax` into `rdx`.
    pub fn cdq(&mut self, width: Width)
        ensures
            final(self)@ == old(self)@.emit(cdq_code(width)),
    {
        if matches!(width, Width::W64) {
            self.emit_u8(0x48);
        }
        self.emit_u8(0x99);
        assert(self@ =~= old(self)@.emit(cdq_code(width)));
    }

    /// `jcc target`.
    pub fn jcc(&mut self, cc: CondCode, target: Label)
        ensures
            final(self)@ == old(self)@.emit(seq![0x0Fu8, (0x80 + cond_number(cc)) as u8]).branch_field(target),
    {
        self.emit_u8(0x0F);
        self.emit_u8(0x80 + cc_tttn(cc));
        assert(self@ =~= old(self)@.emit(seq![0x0Fu8, (0x80 + cond_number(cc)) as u8]));
        self.emit_rel32_fixup(target);
    }

    /// `jmp target`.
    pub fn jmp(&mut self, target: Label)
        ensures
            final(self)@ == old(self)@.emit(seq![0xE9u8]).branch_field(target),
    {
        self.emit_u8(0xE9);
        self.emit_rel32_fixup(target);
    }

    /// `call` to a method whose address is filled in later.
    pub fn call(&mut self, method: MethodHandle)
        ensures
            final(self)@ == old(self)@.emit(seq![0xE8u8]).call_field(method),
    {
        self.emit_u8(0xE8);
        let ghost opened = self@;
        let offset: u32 = self.offset();
        self.call_relocs.push(CallReloc { method, offset });
        self.emit_u32(0);
        assert(self@ =~= opened.call_field(method));
    }

    /// `call` to a block of the method.
    pub fn call_label(&mut self, target: Label)
        ensures
            final(self)@ == old(self)@.emit(seq![0xE8u8]).branch_field(target),
    {
        self.emit_u8(0xE8);
        self.emit_rel32_fixup(target);
    }

    /// `lea dst, [rip + target]`: the address of a block.
    pub fn lea_rip(&mut self, dst: Gpr, target: Label)
        ensures
            final(self)@ == old(self)@.emit(
                seq![
                    (0x48 + 4 * (dst.number() / 8)) as u8,
                    0x8Du8,
                    (0x05 + 8 * (dst.number() % 8)) as u8,
                ],
            ).branch_field(target),
    {
        let d: u8 = dst.enc();
        self.emit_u8(0x48 + 4 * (d / 8));
        self.emit_u8(0x8D);
        self.emit_u8(0x05 + 8 * (d % 8));
        assert(self@ =~= old(self)@.emit(
            seq![
                (0x48 + 4 * (dst.number() / 8)) as u8,
                0x8Du8,
                (0x05 + 8 * (dst.number() % 8)) as u8,
            ],
        ));
        self.emit_rel32_fixup(target);
    }

    /// `call` with a displacement of 0 and no relocation.
    pub fn call_unlinked(&mut self)
        ensures
            final(self)@ == old(self)@.emit(seq![0xE8u8] + le32(0)),
    {
        self.emit_u8(0xE8);
        self.emit_u32(0);
        assert(self@ =~= old(self)@.emit(seq![0xE8u8] + le32(0)));
    }

    /// `call [rip + 0]`, through a slot, with no relocation.
    pub fn call_indirect(&mut self)
        ensures
            final(self)@ == old(self)@.emit(seq![0xFFu8, 0x15u8] + le32(0)),
    {
        self.emit_u8(0xFF);
        self.emit_u8(0x15);
        self.emit_u32(0);
        assert(self@ =~= old(self)@.emit(seq![0xFFu8, 0x15u8] + le32(0)));
    }

    /// `push reg`.
    pub fn push(&mut self, reg: Gpr)
        ensures
            final(self)@ == old(self)@.emit(plus_reg_code(0x50, reg)),
    {
        self.emit_op_plus_reg(0x50, reg);
    }

    /// `pop reg`.
    pub fn pop(&mut self, reg: Gpr)
        ensures
            final(self)@ == old(self)@.emit(plus_reg_code(0x58, reg)),
    {
        self.emit_op_plus_reg(0x58, reg);
    }

    /// `leave`: undoes `push rbp; mov rbp, rsp`.
    pub fn leave(&mut self)
        ensures
            final(self)@ == old(self)@.emit(seq![0xC9u8]),
    {
        self.emit_u8(0xC9);
    }

    /// `ret`.
    pub fn ret(&mut self)
        ensures
            final(self)@ == old(self)@.emit(seq![0xC3u8]),
    {
        self.emit_u8(0xC3);
    }

    /// `nop`.
    pub fn nop(&mut self)
        ensures
            final(self)@ == old(self)@.emit(seq![0x90u8]),
    {
        self.emit_u8(0x90);
    }

    /// Load a cell of one or two bytes, filling with zeros.
    pub fn movzx_load(&mut self, size: u8, dst: Gpr, src: Mem)
        requires
            size == 1 || size == 2,
        ensures
            final(self)@ == old(self)@.emit(movzx_load_code(size, dst, src)),
    {
        let opcode: u8 = if size == 1 {
            0xB6
        } else {
            0xB7
        };
        self.emit_modrm_insn_0f(false, dst.enc(), Rm::Mem(src), opcode);
    }

    /// Load a cell of one or two bytes, keeping the sign.
    pub fn movsx_load(&mut self, size: u8, dst: Gpr, src: Mem)
        requires
            size == 1 || size == 2,
        ensures
            final(self)@ == old(self)@.emit(movsx_load_code(size, dst, src)),
    {
        let opcode: u8 = if size == 1 {
            0xBE
        } else {
            0xBF
        };
        self.emit_modrm_insn_0f(false, dst.enc(), Rm::Mem(src), opcode);
    }

    /// Store the low one or two bytes.
    pub fn mov_store_narrow(&mut self, size: u8, dst: Mem, src: Gpr)
        requires
            size == 1 || size == 2,
        ensures
            final(self)@ == old(self)@.emit(mov_store_narrow_code(size, dst, src)),
    {
        if size == 1 {
            let enc: ModRmEnc = encode_modrm(false, src.enc(), Rm::Mem(dst));
            self.emit_u8(0x40 + enc.rex);
            self.emit_u8(0x88);
            self.emit_modrm_tail(enc);
        } else {
            self.emit_u8(0x66);
            self.emit_modrm_insn(false, src.enc(), Rm::Mem(dst), 0x89);
        }
        assert(self@ =~= old(self)@.emit(mov_store_narrow_code(size, dst, src)));
    }

    /// Fill in the branches. Fails on the first that cannot be filled in.
    pub fn finalize(self) -> (r: Result<FinalizedCode, EncodeError>)
        requires
            self@.fields_exist(),
        ensures
            match r {
                Ok(code) => {
                    &&& self@.error_among(self@.fixups.len()) is None
                    &&& code.bytes@ == self@.patched(self@.fixups.len())
                    &&& code.call_relocs@ == self@.relocs
                },
                Err(e) => self@.error_among(self@.fixups.len()) == Some(e),
            },
    {
        let ghost code = self@;
        let mut bytes: Vec<u8> = self.buf;
        let mut failed: Option<EncodeError> = None;
        let mut n: usize = 0;
        while n < self.fixups.len() && failed.is_none()
            invariant
                n <= self.fixups.len(),
                code.fixups == self.fixups@,
                code.labels == self.labels@,
                code.fields_exist(),
                code.error_among(n as nat) == failed,
                failed is None ==> bytes@ == code.patched(n as nat),
                bytes.len() == code.bytes.len(),
            decreases self.fixups.len() - n,
        {
            let fixup: Fixup = self.fixups[n];
            match self.labels.get(&fixup.target.0.0) {
                None => {
                    failed = Some(EncodeError::UnboundLabel(fixup.target));
                },
                Some(target) => {
                    let rel: i64 = *target as i64 - (fixup.at as i64 + 4);
                    if rel < -0x8000_0000 || rel > 0x7FFF_FFFF {
                        failed =
                        Some(EncodeError::Rel32OutOfRange { at: fixup.at, displacement: rel });
                    } else {
                        assert(code.fixups[n as int].at + 4 <= code.bytes.len());
                        set_le32(
                            &mut bytes,
                            fixup.at as usize,
                            #[verifier::truncate]
                            (rel as u32),
                        );
                    }
                },
            }
            n = n + 1;
        }
        match failed {
            Some(e) => {
                proof {
                    lemma_error_stays(code, n as nat, code.fixups.len());
                }
                Err(e)
            },
            None => Ok(FinalizedCode { bytes, call_relocs: self.call_relocs }),
        }
    }
}

/// The first error stays the error.
proof fn lemma_error_stays(code: Code, n: nat, m: nat)
    requires
        n <= m,
        code.error_among(n) is Some,
    ensures
        code.error_among(m) == code.error_among(n),
    decreases m,
{
    if n < m {
        lemma_error_stays(code, n, (m - 1) as nat);
    }
}

/// Nothing that the assembler does takes the field of a fixup away.
pub proof fn law_fields_are_kept(code: Code, more: Seq<u8>, target: Label, method: MethodHandle)
    requires
        code.fields_exist(),
    ensures
        code.emit(more).fields_exist(),
        code.branch_field(target).fields_exist(),
        code.call_field(method).fields_exist(),
        code.bound(target).fields_exist(),
{
    let len: u64 = code.bytes.len() as u64;
    assert forall|i: int| 0 <= i < code.branch_field(target).fixups.len() implies (
    #[trigger] code.branch_field(target).fixups[i]).at + 4 <= code.branch_field(
        target,
    ).bytes.len() by {
        if i < code.fixups.len() {
            assert(code.branch_field(target).fixups[i] == code.fixups[i]);
        } else {
            lemma_truncated(code.bytes.len());
        }
    }
    assert forall|i: int| 0 <= i < code.fixups.len() implies (#[trigger] code.fixups[i]).at + 4
        <= code.bytes.len() + 0 by {}
}

/// Truncation does not make a number larger.
proof fn lemma_truncated(n: nat)
    ensures
        (n as u32) <= n,
{
    if n > u32::MAX {
        assert((n as u32) <= u32::MAX);
    }
}

/// What the processor makes of an operand.
pub enum DecodedRm {
    Reg(int),
    Mem { base: Option<int>, index: Option<(int, int)>, disp: int },
    /// Relative to the end of the instruction.
    RipRelative { disp: int },
}

pub open spec fn signed8(v: int) -> int {
    if v >= 0x80 {
        v - 0x100
    } else {
        v
    }
}

pub open spec fn signed32(v: int) -> int {
    if v >= 0x8000_0000 {
        v - 0x1_0000_0000
    } else {
        v
    }
}

/// The displacement at `at`, and where it ends.
pub open spec fn decode_disp(mode: int, bytes: Seq<u8>, at: int) -> (int, int) {
    if mode == 0 {
        (0, at)
    } else if mode == 1 {
        (signed8(bytes[at] as int), at + 1)
    } else {
        (signed32(read32(bytes, at)), at + 4)
    }
}

/// What the processor reads behind an opcode: the `reg` field, the operand, and
/// how many bytes they take.
#[verifier::opaque]
pub open spec fn decode_operands(rex: u8, bytes: Seq<u8>) -> (int, DecodedRm, int) {
    let (r, x, b) = (rex as int / 4 % 2, rex as int / 2 % 2, rex as int % 2);
    let modrm = bytes[0] as int;
    let mode = modrm / 64;
    let reg = modrm / 8 % 8 + 8 * r;
    let rm = modrm % 8;
    if mode == 3 {
        (reg, DecodedRm::Reg(rm + 8 * b), 1)
    } else if rm == 4 {
        let sib = bytes[1] as int;
        let number = sib / 8 % 8 + 8 * x;
        let index = if number == 4 {
            None
        } else {
            Some((number, sib / 64))
        };
        if sib % 8 == 5 && mode == 0 {
            let (disp, end) = decode_disp(2, bytes, 2);
            (reg, DecodedRm::Mem { base: None, index, disp }, end)
        } else {
            let (disp, end) = decode_disp(mode, bytes, 2);
            (reg, DecodedRm::Mem { base: Some(sib % 8 + 8 * b), index, disp }, end)
        }
    } else if rm == 5 && mode == 0 {
        let (disp, end) = decode_disp(2, bytes, 1);
        (reg, DecodedRm::RipRelative { disp }, end)
    } else {
        let (disp, end) = decode_disp(mode, bytes, 1);
        (reg, DecodedRm::Mem { base: Some(rm + 8 * b), index: None, disp }, end)
    }
}

/// The operand as the processor sees it.
pub open spec fn decoded_mem(mem: Mem) -> DecodedRm {
    DecodedRm::Mem {
        base: match mem.base {
            Some(base) => Some(base.number() as int),
            None => None,
        },
        index: match mem.index {
            Some(index) => Some((index.reg.number() as int, index.scale.number() as int)),
            None => None,
        },
        disp: mem.disp as int,
    }
}

proof fn lemma_disp_read_back(bytes: Seq<u8>, disp: Disp, at: int)
    requires
        0 <= at,
        at + disp_bytes(disp).len() <= bytes.len(),
        bytes.subrange(at, at + disp_bytes(disp).len()) == disp_bytes(disp),
    ensures
        match disp {
            Disp::Absent => true,
            Disp::D8(d) => signed8(bytes[at] as int) == d,
            Disp::D32(d) => signed32(read32(bytes, at)) == d,
        },
{
    match disp {
        Disp::Absent => {},
        Disp::D8(d) => {
            assert(bytes[at] == bytes.subrange(at, at + 1)[0]);
            assert((d < 0 ==> d as u8 == d + 0x100) && (d >= 0 ==> d as u8 == d)) by (bit_vector);
        },
        Disp::D32(d) => {
            law_read_le32(bytes, at, d as u32);
            assert((d < 0 ==> d as u32 == d + 0x1_0000_0000) && (d >= 0 ==> d as u32 == d))
                by (bit_vector);
        },
    }
}

/// How the displacement of an operand with a base is written.
pub open spec fn mem_mode(mem: Mem, b: int) -> int {
    if mem.disp == 0 && b % 8 != 5 {
        0
    } else if fits_i8(mem.disp as int) {
        1
    } else {
        2
    }
}

proof fn lemma_decode_without_base(wide: bool, reg: u8, mem: Mem, bytes: Seq<u8>)
    requires
        reg < 16,
        mem.base is None,
        mem.index is Some ==> mem.index->0.reg != Gpr::Rsp,
        bytes.len() >= 6,
        bytes[0] == mem_enc(wide, reg, mem).modrm,
        bytes[1] == mem_enc(wide, reg, mem).sib->0,
        signed32(read32(bytes, 2)) == mem.disp,
    ensures
        decode_operands(mem_enc(wide, reg, mem).rex, bytes) == (
            reg as int,
            decoded_mem(mem),
            6int,
        ),
{
    reveal(mem_enc);
    reveal(decode_operands);
    let w: int = if wide {
        1
    } else {
        0
    };
    let index = index_number(mem);
    lemma_rex_fields(w, reg as int / 8, index / 8, 0);
    lemma_byte_fields(0, reg as int % 8, 4);
    lemma_byte_fields(scale_number(mem), index % 8, 5);
}

proof fn lemma_decode_with_sib(wide: bool, reg: u8, mem: Mem, bytes: Seq<u8>)
    requires
        reg < 16,
        mem.base is Some,
        mem.index is Some || mem.base->0.number() % 8 == 4,
        mem.index is Some ==> mem.index->0.reg != Gpr::Rsp,
        bytes.len() >= 2,
        bytes[0] == mem_enc(wide, reg, mem).modrm,
        bytes[1] == mem_enc(wide, reg, mem).sib->0,
        decode_disp(mem_mode(mem, mem.base->0.number() as int), bytes, 2).0 == mem.disp,
    ensures
        decode_operands(mem_enc(wide, reg, mem).rex, bytes) == (
            reg as int,
            decoded_mem(mem),
            decode_disp(mem_mode(mem, mem.base->0.number() as int), bytes, 2).1,
        ),
{
    reveal(mem_enc);
    reveal(decode_operands);
    let w: int = if wide {
        1
    } else {
        0
    };
    let index = index_number(mem);
    let b = mem.base->0.number() as int;
    lemma_rex_fields(w, reg as int / 8, index / 8, b / 8);
    lemma_byte_fields(mem_mode(mem, b), reg as int % 8, 4);
    lemma_byte_fields(scale_number(mem), index % 8, b % 8);
}

proof fn lemma_decode_without_sib(wide: bool, reg: u8, mem: Mem, bytes: Seq<u8>)
    requires
        reg < 16,
        mem.base is Some,
        mem.index is None,
        mem.base->0.number() % 8 != 4,
        bytes.len() >= 1,
        bytes[0] == mem_enc(wide, reg, mem).modrm,
        decode_disp(mem_mode(mem, mem.base->0.number() as int), bytes, 1).0 == mem.disp,
    ensures
        decode_operands(mem_enc(wide, reg, mem).rex, bytes) == (
            reg as int,
            decoded_mem(mem),
            decode_disp(mem_mode(mem, mem.base->0.number() as int), bytes, 1).1,
        ),
{
    reveal(mem_enc);
    reveal(decode_operands);
    let w: int = if wide {
        1
    } else {
        0
    };
    let b = mem.base->0.number() as int;
    lemma_rex_fields(w, reg as int / 8, 0, b / 8);
    lemma_byte_fields(mem_mode(mem, b), reg as int % 8, b % 8);
}

/// The processor reads a memory operand as it was given. `rsp` is no index: its
/// number stands for the absence of one.
pub proof fn law_mem_operand_decodes(wide: bool, reg: u8, mem: Mem, rest: Seq<u8>)
    requires
        reg < 16,
        mem.index is Some ==> mem.index->0.reg != Gpr::Rsp,
    ensures
        ({
            let enc = mem_enc(wide, reg, mem);
            decode_operands(enc.rex, tail_bytes(enc) + rest) == (
                reg as int,
                decoded_mem(mem),
                tail_bytes(enc).len() as int,
            )
        }),
{
    reveal(mem_enc);
    let enc = mem_enc(wide, reg, mem);
    let bytes = tail_bytes(enc) + rest;
    let at: int = if enc.sib is Some {
        2
    } else {
        1
    };
    let d = disp_bytes(enc.disp);
    assert(bytes.subrange(at, at + d.len()) =~= d);
    assert(tail_bytes(enc).len() == at + d.len());
    lemma_disp_read_back(bytes, enc.disp, at);
    assert(bytes[0] == enc.modrm);
    if mem.base is None {
        assert(bytes[1] == enc.sib->0);
        lemma_decode_without_base(wide, reg, mem, bytes);
    } else if mem.index is Some || mem.base->0.number() % 8 == 4 {
        assert(bytes[1] == enc.sib->0);
        lemma_decode_with_sib(wide, reg, mem, bytes);
    } else {
        lemma_decode_without_sib(wide, reg, mem, bytes);
    }
}

/// The three fields of a ModRM or SIB byte.
proof fn lemma_byte_fields(high: int, mid: int, low: int)
    requires
        0 <= high < 4,
        0 <= mid < 8,
        0 <= low < 8,
    ensures
        ({
            let v = 64 * high + 8 * mid + low;
            0 <= v < 256 && v / 64 == high && v / 8 % 8 == mid && v % 8 == low
        }),
{
}

/// The four bits of a REX prefix.
proof fn lemma_rex_fields(w: int, r: int, x: int, b: int)
    requires
        0 <= w <= 1,
        0 <= r <= 1,
        0 <= x <= 1,
        0 <= b <= 1,
    ensures
        ({
            let v = 8 * w + 4 * r + 2 * x + b;
            0 <= v < 16 && v / 4 % 2 == r && v / 2 % 2 == x && v % 2 == b
        }),
{
}

/// The REX bits fit their half byte, and the highest one is the operand size.
pub proof fn law_rex_carries_the_width(wide: bool, reg: u8, rm: Rm)
    requires
        reg < 16,
    ensures
        modrm_enc(wide, reg, rm).rex < 16,
        (modrm_enc(wide, reg, rm).rex as int / 8 == 1) == wide,
{
    reveal(reg_enc);
    reveal(mem_enc);
    let r = reg as int / 8;
    match rm {
        Rm::Reg(g) => {
            let b = g.number() as int / 8;
            assert(0 <= b <= 1);
        },
        Rm::Mem(m) => {
            let x = index_number(m) / 8;
            assert(0 <= x <= 1);
            if let Some(base) = m.base {
                let b = base.number() as int / 8;
                assert(0 <= b <= 1);
            }
        },
    }
}

/// The processor reads a register operand as it was given.
pub proof fn law_reg_operand_decodes(wide: bool, reg: u8, rm: u8, rest: Seq<u8>)
    requires
        reg < 16,
        rm < 16,
    ensures
        ({
            let enc = reg_enc(wide, reg, rm);
            decode_operands(enc.rex, tail_bytes(enc) + rest) == (
                reg as int,
                DecodedRm::Reg(rm as int),
                1int,
            )
        }),
{
    reveal(reg_enc);
    reveal(decode_operands);
    let enc = reg_enc(wide, reg, rm);
    assert((tail_bytes(enc) + rest)[0] == enc.modrm);
}

/// The fields of the fixups follow each other.
pub open spec fn fields_ordered(code: Code) -> bool {
    forall|i: int, j: int|
        0 <= i < j < code.fixups.len() ==> (#[trigger] code.fixups[i]).at + 4 <= (
        #[trigger] code.fixups[j]).at
}

/// While the code is within the reach of its offsets, every field lies behind
/// the ones before it.
pub proof fn law_fields_stay_ordered(code: Code, more: Seq<u8>, target: Label, method: MethodHandle)
    requires
        code.fields_exist(),
        fields_ordered(code),
        code.bytes.len() <= u32::MAX,
    ensures
        fields_ordered(code.emit(more)),
        fields_ordered(code.branch_field(target)),
        fields_ordered(code.call_field(method)),
        fields_ordered(code.bound(target)),
{
    let branched = code.branch_field(target);
    assert forall|i: int, j: int| 0 <= i < j < branched.fixups.len() implies (
    #[trigger] branched.fixups[i]).at + 4 <= (#[trigger] branched.fixups[j]).at by {
        assert(branched.fixups[i] == code.fixups[i]);
        if j < code.fixups.len() {
            assert(branched.fixups[j] == code.fixups[j]);
        }
    }
}

/// The displacement in a field.
pub open spec fn field_value(bytes: Seq<u8>, at: int) -> int {
    signed32(read32(bytes, at))
}

/// A byte belongs to the field of one of the first `n` fixups.
pub open spec fn in_field(code: Code, n: nat, k: int) -> bool {
    exists|i: int|
        0 <= i < n && (#[trigger] code.fixups[i]).at <= k < code.fixups[i].at + 4
}

/// After assembly, each branch goes to its label, and no other byte has
/// changed.
pub proof fn law_branches_resolve(code: Code, n: nat)
    requires
        code.fields_exist(),
        fields_ordered(code),
        n <= code.fixups.len(),
        code.error_among(n) is None,
    ensures
        code.patched(n).len() == code.bytes.len(),
        forall|i: int|
            0 <= i < n ==> field_value(
                code.patched(n),
                (#[trigger] code.fixups[i]).at as int,
            ) == code.displacement(code.fixups[i]),
        forall|k: int|
            0 <= k < code.bytes.len() && !in_field(code, n, k) ==> #[trigger] code.patched(n)[k]
                == code.bytes[k],
    decreases n,
{
    if n > 0 {
        let m = (n - 1) as nat;
        law_branches_resolve(code, m);
        let fixup = code.fixups[n - 1];
        let before = code.patched(m);
        let after = code.patched(n);
        let at = fixup.at as int;
        let rel = code.displacement(fixup);
        assert(code.fixup_error(fixup) is None);
        lemma_patch4(before, at, rel as u32);
        lemma_wrapped(rel);
        assert forall|i: int| 0 <= i < n implies field_value(
            after,
            (#[trigger] code.fixups[i]).at as int,
        ) == code.displacement(code.fixups[i]) by {
            if i < n - 1 {
                assert(code.fixups[i].at + 4 <= code.fixups[n - 1].at);
                lemma_read32_same(before, after, code.fixups[i].at as int);
            }
        }
        assert forall|k: int| 0 <= k < code.bytes.len() && !in_field(code, n, k) implies
            #[trigger] after[k] == code.bytes[k] by {
            if at <= k < at + 4 {
                assert(code.fixups[n - 1].at <= k < code.fixups[n - 1].at + 4);
            }
            if in_field(code, m, k) {
                let i = choose|i: int|
                    0 <= i < m && (#[trigger] code.fixups[i]).at <= k < code.fixups[i].at + 4;
                assert(0 <= i < n && code.fixups[i].at <= k < code.fixups[i].at + 4);
            }
            assert(before[k] == code.bytes[k]);
        }
    }
}

/// Replacing four bytes changes no other.
proof fn lemma_patch4(bytes: Seq<u8>, at: int, x: u32)
    requires
        0 <= at,
        at + 4 <= bytes.len(),
    ensures
        patch4(bytes, at, le32(x)).len() == bytes.len(),
        read32(patch4(bytes, at, le32(x)), at) == x,
        forall|k: int|
            0 <= k < bytes.len() && !(at <= k < at + 4) ==> #[trigger] patch4(bytes, at, le32(x))[k]
                == bytes[k],
{
    let after = patch4(bytes, at, le32(x));
    assert(after.subrange(at, at + 4) =~= le32(x));
    law_read_le32(after, at, x);
}

proof fn lemma_read32_same(a: Seq<u8>, b: Seq<u8>, at: int)
    requires
        a[at] == b[at],
        a[at + 1] == b[at + 1],
        a[at + 2] == b[at + 2],
        a[at + 3] == b[at + 3],
    ensures
        read32(a, at) == read32(b, at),
{
}

proof fn lemma_wrapped(rel: int)
    requires
        fits_i32(rel),
    ensures
        signed32((rel as u32) as int) == rel,
{
    let r: i32 = rel as i32;
    assert((r < 0 ==> r as u32 == r + 0x1_0000_0000) && (r >= 0 ==> r as u32 == r)) by (bit_vector);
    assert(rel as u32 == r as u32);
}

/// A signed address differs from the address by the size of the address space, or
/// not at all.
proof fn lemma_signed_address(address: usize)
    ensures
        signed_address(address) == address || signed_address(address) == address
            - 0x1_0000_0000_0000_0000,
{
    let x: u64 = address as u64;
    assert((x < 0x8000_0000_0000_0000 ==> x as i64 == x) && (x >= 0x8000_0000_0000_0000 ==> x as i64
        == x - 0x1_0000_0000_0000_0000)) by (bit_vector);
}

/// Filling in a call writes the distance from the end of the call to its target,
/// around the address space where that is nearer, and nothing else.
pub proof fn law_patch_resolves(reloc: CallReloc, code: Seq<u8>, code_base: usize, target: usize)
    requires
        reloc.offset + 4 <= code.len(),
        code_base + reloc.offset + 4 <= usize::MAX,
        fits_i32(reloc.displacement(code_base, target)),
    ensures
        ({
            let after = patch4(
                code,
                reloc.offset as int,
                le32(reloc.displacement(code_base, target) as u32),
            );
            let reached = code_base + reloc.offset + 4 + field_value(after, reloc.offset as int);
            &&& after.len() == code.len()
            &&& reached == target || reached == target + 0x1_0000_0000_0000_0000 || reached
                == target - 0x1_0000_0000_0000_0000
            &&& forall|k: int|
                0 <= k < code.len() && !(reloc.offset <= k < reloc.offset + 4)
                    ==> #[trigger] after[k] == code[k]
        }),
{
    let rel = reloc.displacement(code_base, target);
    lemma_patch4(code, reloc.offset as int, rel as u32);
    lemma_wrapped(rel);
    lemma_signed_address(target);
    lemma_signed_address((code_base + reloc.offset + 4) as usize);
}

} // verus!
