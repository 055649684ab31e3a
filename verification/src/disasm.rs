//! Code as the processor reads it.
//!
//! An instruction is optional prefixes, an opcode of one or two bytes, operands and
//! an immediate. The law at the end says that the processor reads every instruction
//! that the emission makes as it was meant.

use crate::bind::{mem_encodes, op_valid, rm_encodes, rmi_encodes, rmx_encodes, CallForm, Op};
use crate::bytes::{law_read_le32, le32, le64, read32};
use crate::codegen::op_code;
use crate::encode::{
    arith_f_opcode, cond_number, decode_operands, decoded_mem, fits_i32, fits_i8, insn_bytes,
    law_mem_operand_decodes, law_reg_operand_decodes, law_rex_carries_the_width, modrm_enc,
    modrm_enc_x, other_width, packed_width_prefix, reg_enc, rex_bytes, shift_number, signed32,
    signed8, sse_bytes, sse_width_prefix, tail_bytes, AluOp, DecodedRm, Mem, ModRmEnc, Rm, RmX, Rmi,
};
use crate::inst::{ArithFOp, CondCode, FWidth, ShiftOp, Width};
use crate::regs::{Gpr, Xmm};
use vstd::prelude::*;

verus! {

/// What an instruction does with its operands: `reg` is the register field, `rm`
/// the register or memory operand.
pub enum Kind {
    /// `rm := reg`.
    MovStore,
    /// `reg := rm`.
    MovLoad,
    /// `rm := imm`.
    MovImm,
    /// `reg := &rm`.
    Lea,
    /// `rm := rm op reg`.
    AluStore(AluOp),
    /// `reg := reg op rm`.
    AluLoad(AluOp),
    /// `rm := rm op imm`.
    AluImm(AluOp),
    Neg,
    Not,
    Div,
    Idiv,
    ShiftCl(ShiftOp),
    ShiftImm(ShiftOp),
    Setcc(CondCode),
    Movsxd,
    /// `reg := reg * rm`.
    Imul,
    /// `reg := rm * imm`.
    ImulImm,
    Cdq,
    FLoad(FWidth),
    FStore(FWidth),
    ArithF(ArithFOp, FWidth),
    Ucomis(FWidth),
    XorF(FWidth),
    /// To a float of this width.
    Cvtsi2s(FWidth),
    /// From a float of this width.
    Cvtts2si(FWidth),
    /// From a float of this width.
    Cvts2s(FWidth),
    MovGprToXmm,
    Call,
    CallIndirect,
    Push,
    Leave,
    Ret,
    Jcc(CondCode),
    Jmp,
}

/// An instruction as the processor reads it.
pub struct Insn {
    pub kind: Kind,
    /// 64 bits, or 32.
    pub wide: bool,
    pub reg: int,
    pub rm: DecodedRm,
    pub imm: int,
    /// The number of bytes.
    pub len: int,
}

/// What stands before the operands.
pub struct Fields {
    /// 0 where there is none.
    pub prefix: u8,
    /// The low half of the REX prefix, 0 where there is none.
    pub rex: u8,
    /// The opcode stands behind `0F`.
    pub two_byte: bool,
    pub opcode: u8,
    /// Where the operands start.
    pub end: int,
}

pub open spec fn is_prefix(b: u8) -> bool {
    b == 0x66 || b == 0xF2 || b == 0xF3
}

pub open spec fn is_rex(b: u8) -> bool {
    0x40 <= b < 0x50
}

/// The prefixes and the opcode.
pub open spec fn read_fields(bytes: Seq<u8>) -> Fields {
    let (prefix, i) = if is_prefix(bytes[0]) {
        (bytes[0], 1int)
    } else {
        (0u8, 0int)
    };
    let (rex, i) = if is_rex(bytes[i]) {
        ((bytes[i] - 0x40) as u8, i + 1)
    } else {
        (0u8, i)
    };
    if bytes[i] == 0x0F {
        Fields { prefix, rex, two_byte: true, opcode: bytes[i + 1], end: i + 2 }
    } else {
        Fields { prefix, rex, two_byte: false, opcode: bytes[i], end: i + 1 }
    }
}

/// The integer operation with a number in an immediate form.
pub open spec fn alu_by_number(n: int) -> Option<AluOp> {
    if n == 0 {
        Some(AluOp::Add)
    } else if n == 1 {
        Some(AluOp::Or)
    } else if n == 4 {
        Some(AluOp::And)
    } else if n == 5 {
        Some(AluOp::Sub)
    } else if n == 6 {
        Some(AluOp::Xor)
    } else if n == 7 {
        Some(AluOp::Cmp)
    } else {
        None
    }
}

pub open spec fn shift_by_number(n: int) -> Option<ShiftOp> {
    if n == 4 {
        Some(ShiftOp::Shl)
    } else if n == 5 {
        Some(ShiftOp::Shr)
    } else if n == 7 {
        Some(ShiftOp::Sar)
    } else {
        None
    }
}

pub open spec fn cond_by_number(n: int) -> Option<CondCode> {
    if n == 2 {
        Some(CondCode::ULt)
    } else if n == 3 {
        Some(CondCode::UGe)
    } else if n == 4 {
        Some(CondCode::Eq)
    } else if n == 5 {
        Some(CondCode::Ne)
    } else if n == 6 {
        Some(CondCode::ULe)
    } else if n == 7 {
        Some(CondCode::UGt)
    } else if n == 10 {
        Some(CondCode::Parity)
    } else if n == 11 {
        Some(CondCode::NotParity)
    } else if n == 12 {
        Some(CondCode::Lt)
    } else if n == 13 {
        Some(CondCode::Ge)
    } else if n == 14 {
        Some(CondCode::Le)
    } else if n == 15 {
        Some(CondCode::Gt)
    } else {
        None
    }
}

/// The immediate of an instruction.
pub enum Imm {
    Absent,
    /// One byte, with its sign.
    Byte,
    /// One byte, without a sign.
    Count,
    /// Four bytes, with their sign.
    Long,
    /// This number, without a byte.
    Fixed(int),
}

/// The immediate at `at`, and where it ends.
pub open spec fn read_imm(imm: Imm, bytes: Seq<u8>, at: int) -> (int, int) {
    match imm {
        Imm::Absent => (0, at),
        Imm::Byte => (signed8(bytes[at] as int), at + 1),
        Imm::Count => (bytes[at] as int, at + 1),
        Imm::Long => (signed32(read32(bytes, at)), at + 4),
        Imm::Fixed(n) => (n, at),
    }
}

/// The instructions with operands, by their one-byte opcode and the register field
/// of their operands.
pub open spec fn one_byte_kind(opcode: u8, ext: int) -> Option<(Kind, Imm)> {
    if opcode == 0x89 {
        Some((Kind::MovStore, Imm::Absent))
    } else if opcode == 0x8B {
        Some((Kind::MovLoad, Imm::Absent))
    } else if opcode == 0xC7 {
        Some((Kind::MovImm, Imm::Long))
    } else if opcode == 0x8D {
        Some((Kind::Lea, Imm::Absent))
    } else if opcode == 0x63 {
        Some((Kind::Movsxd, Imm::Absent))
    } else if opcode == 0x6B {
        Some((Kind::ImulImm, Imm::Byte))
    } else if opcode == 0x69 {
        Some((Kind::ImulImm, Imm::Long))
    } else if opcode == 0x01 {
        Some((Kind::AluStore(AluOp::Add), Imm::Absent))
    } else if opcode == 0x03 {
        Some((Kind::AluLoad(AluOp::Add), Imm::Absent))
    } else if opcode == 0x09 {
        Some((Kind::AluStore(AluOp::Or), Imm::Absent))
    } else if opcode == 0x0B {
        Some((Kind::AluLoad(AluOp::Or), Imm::Absent))
    } else if opcode == 0x21 {
        Some((Kind::AluStore(AluOp::And), Imm::Absent))
    } else if opcode == 0x23 {
        Some((Kind::AluLoad(AluOp::And), Imm::Absent))
    } else if opcode == 0x29 {
        Some((Kind::AluStore(AluOp::Sub), Imm::Absent))
    } else if opcode == 0x2B {
        Some((Kind::AluLoad(AluOp::Sub), Imm::Absent))
    } else if opcode == 0x31 {
        Some((Kind::AluStore(AluOp::Xor), Imm::Absent))
    } else if opcode == 0x33 {
        Some((Kind::AluLoad(AluOp::Xor), Imm::Absent))
    } else if opcode == 0x39 {
        Some((Kind::AluStore(AluOp::Cmp), Imm::Absent))
    } else if opcode == 0x3B {
        Some((Kind::AluLoad(AluOp::Cmp), Imm::Absent))
    } else if opcode == 0x85 {
        Some((Kind::AluStore(AluOp::Test), Imm::Absent))
    } else {
        group_kind(opcode, ext)
    }
}

/// The instructions that the register field tells apart.
pub open spec fn group_kind(opcode: u8, ext: int) -> Option<(Kind, Imm)> {
    if opcode == 0x81 || opcode == 0x83 {
        match alu_by_number(ext) {
            Some(op) => Some(
                (
                    Kind::AluImm(op),
                    if opcode == 0x83 {
                        Imm::Byte
                    } else {
                        Imm::Long
                    },
                ),
            ),
            None => None,
        }
    } else if opcode == 0xF7 {
        if ext == 0 {
            Some((Kind::AluImm(AluOp::Test), Imm::Long))
        } else if ext == 2 {
            Some((Kind::Not, Imm::Absent))
        } else if ext == 3 {
            Some((Kind::Neg, Imm::Absent))
        } else if ext == 6 {
            Some((Kind::Div, Imm::Absent))
        } else if ext == 7 {
            Some((Kind::Idiv, Imm::Absent))
        } else {
            None
        }
    } else if opcode == 0xD3 || opcode == 0xC1 || opcode == 0xD1 {
        match shift_by_number(ext) {
            Some(op) => Some(
                if opcode == 0xD3 {
                    (Kind::ShiftCl(op), Imm::Absent)
                } else if opcode == 0xC1 {
                    (Kind::ShiftImm(op), Imm::Count)
                } else {
                    (Kind::ShiftImm(op), Imm::Fixed(1))
                },
            ),
            None => None,
        }
    } else if opcode == 0xFF && ext == 2 {
        Some((Kind::CallIndirect, Imm::Absent))
    } else {
        None
    }
}

/// The width that a prefix gives to a scalar float instruction.
pub open spec fn scalar_width(prefix: u8) -> Option<FWidth> {
    if prefix == 0xF3 {
        Some(FWidth::S)
    } else if prefix == 0xF2 {
        Some(FWidth::D)
    } else {
        None
    }
}

/// The width that a prefix gives to a packed float instruction.
pub open spec fn packed_width(prefix: u8) -> Option<FWidth> {
    if prefix == 0 {
        Some(FWidth::S)
    } else if prefix == 0x66 {
        Some(FWidth::D)
    } else {
        None
    }
}

pub open spec fn arith_f_by_opcode(opcode: u8) -> Option<ArithFOp> {
    if opcode == 0x58 {
        Some(ArithFOp::Add)
    } else if opcode == 0x59 {
        Some(ArithFOp::Mul)
    } else if opcode == 0x5C {
        Some(ArithFOp::Sub)
    } else if opcode == 0x5D {
        Some(ArithFOp::Min)
    } else if opcode == 0x5E {
        Some(ArithFOp::Div)
    } else if opcode == 0x5F {
        Some(ArithFOp::Max)
    } else {
        None
    }
}

/// The instructions with operands, by their two-byte opcode and their prefix.
pub open spec fn two_byte_kind(prefix: u8, opcode: u8) -> Option<Kind> {
    if 0x90 <= opcode < 0xA0 {
        match cond_by_number(opcode - 0x90) {
            Some(cc) => Some(Kind::Setcc(cc)),
            None => None,
        }
    } else if opcode == 0xAF {
        Some(Kind::Imul)
    } else if opcode == 0x6E && prefix == 0x66 {
        Some(Kind::MovGprToXmm)
    } else if opcode == 0x2E || opcode == 0x57 {
        match packed_width(prefix) {
            Some(w) => Some(
                if opcode == 0x2E {
                    Kind::Ucomis(w)
                } else {
                    Kind::XorF(w)
                },
            ),
            None => None,
        }
    } else {
        match (scalar_width(prefix), arith_f_by_opcode(opcode)) {
            (Some(w), Some(op)) => Some(Kind::ArithF(op, w)),
            (Some(w), None) => if opcode == 0x10 {
                Some(Kind::FLoad(w))
            } else if opcode == 0x11 {
                Some(Kind::FStore(w))
            } else if opcode == 0x2A {
                Some(Kind::Cvtsi2s(w))
            } else if opcode == 0x2C {
                Some(Kind::Cvtts2si(w))
            } else if opcode == 0x5A {
                Some(Kind::Cvts2s(w))
            } else {
                None
            },
            (None, _) => None,
        }
    }
}

/// An instruction without operands.
pub open spec fn plain(kind: Kind, wide: bool, imm: int, len: int) -> Insn {
    Insn { kind, wide, reg: 0, rm: DecodedRm::Reg(0), imm, len }
}

/// An instruction on a register in the opcode.
pub open spec fn on_register(kind: Kind, wide: bool, number: int, imm: int, len: int) -> Insn {
    Insn { kind, wide, reg: 0, rm: DecodedRm::Reg(number), imm, len }
}

/// The eight bytes at `at` as a signed number.
pub open spec fn read_signed64(bytes: Seq<u8>, at: int) -> int {
    read32(bytes, at) + 0x1_0000_0000 * signed32(read32(bytes, at + 4))
}

/// The instruction at the start of the bytes, if the processor knows it.
pub open spec fn disassemble(bytes: Seq<u8>) -> Option<Insn> {
    let f = read_fields(bytes);
    let wide = f.rex as int / 8 == 1;
    let b = f.rex as int % 2;
    if f.two_byte {
        if 0x80 <= f.opcode < 0x90 {
            match cond_by_number(f.opcode - 0x80) {
                Some(cc) => Some(
                    plain(Kind::Jcc(cc), wide, signed32(read32(bytes, f.end)), f.end + 4),
                ),
                None => None,
            }
        } else {
            let (reg, rm, used) = decode_operands(f.rex, bytes.skip(f.end));
            match two_byte_kind(f.prefix, f.opcode) {
                Some(kind) => Some(Insn { kind, wide, reg, rm, imm: 0, len: f.end + used }),
                None => None,
            }
        }
    } else if 0xB8 <= f.opcode < 0xC0 {
        let number = f.opcode - 0xB8 + 8 * b;
        if wide {
            Some(
                on_register(
                    Kind::MovImm,
                    wide,
                    number,
                    read_signed64(bytes, f.end),
                    f.end + 8,
                ),
            )
        } else {
            Some(
                on_register(
                    Kind::MovImm,
                    wide,
                    number,
                    signed32(read32(bytes, f.end)),
                    f.end + 4,
                ),
            )
        }
    } else if 0x50 <= f.opcode < 0x58 {
        Some(on_register(Kind::Push, wide, f.opcode - 0x50 + 8 * b, 0, f.end))
    } else if f.opcode == 0x99 {
        Some(plain(Kind::Cdq, wide, 0, f.end))
    } else if f.opcode == 0xC9 {
        Some(plain(Kind::Leave, wide, 0, f.end))
    } else if f.opcode == 0xC3 {
        Some(plain(Kind::Ret, wide, 0, f.end))
    } else if f.opcode == 0xE8 {
        Some(plain(Kind::Call, wide, signed32(read32(bytes, f.end)), f.end + 4))
    } else if f.opcode == 0xE9 {
        Some(plain(Kind::Jmp, wide, signed32(read32(bytes, f.end)), f.end + 4))
    } else {
        let (reg, rm, used) = decode_operands(f.rex, bytes.skip(f.end));
        match one_byte_kind(f.opcode, reg % 8) {
            Some((kind, imm)) => {
                let (value, len) = read_imm(imm, bytes, f.end + used);
                Some(Insn { kind, wide, reg, rm, imm: value, len })
            },
            None => None,
        }
    }
}

/// An operand as the processor sees it.
pub open spec fn decoded_rm(rm: Rm) -> DecodedRm {
    match rm {
        Rm::Reg(g) => DecodedRm::Reg(g.number() as int),
        Rm::Mem(m) => decoded_mem(m),
    }
}

/// A float operand as the processor sees it.
pub open spec fn decoded_rmx(rm: RmX) -> DecodedRm {
    match rm {
        RmX::Reg(x) => DecodedRm::Reg(x.number() as int),
        RmX::Mem(m) => decoded_mem(m),
    }
}

/// The value of an immediate: all of it, or the low half with its sign.
pub open spec fn imm_value(width: Width, v: i64) -> int {
    if width is W64 {
        v as int
    } else {
        signed32((v as u32) as int)
    }
}

/// What an instruction means: what the processor is to read.
pub open spec fn meaning(op: Op) -> Insn {
    let len = op_code(op).len() as int;
    match op {
        Op::Mov { width, dst, src } => move_meaning(width, dst, src, len),
        Op::Alu { op, width, dst, src } => alu_meaning(op, width, dst, src, len),
        Op::Lea { dst, addr } => with_operands(
            Kind::Lea,
            true,
            dst.number(),
            decoded_mem(addr),
            len,
        ),
        Op::Neg { width, dst } => with_operands(Kind::Neg, width is W64, 3, decoded_rm(dst), len),
        Op::Not { width, dst } => with_operands(Kind::Not, width is W64, 2, decoded_rm(dst), len),
        Op::Div { width, divisor } => with_operands(
            Kind::Div,
            width is W64,
            6,
            decoded_rm(divisor),
            len,
        ),
        Op::Idiv { width, divisor } => with_operands(
            Kind::Idiv,
            width is W64,
            7,
            decoded_rm(divisor),
            len,
        ),
        Op::ShiftCl { op, width, dst } => with_operands(
            Kind::ShiftCl(op),
            width is W64,
            shift_number(op),
            decoded_rm(dst),
            len,
        ),
        Op::ShiftImm { op, width, dst, count } => Insn {
            imm: (count as u8) as int,
            ..with_operands(
                Kind::ShiftImm(op),
                width is W64,
                shift_number(op),
                decoded_rm(dst),
                len,
            )
        },
        Op::Setcc { cc, dst } => with_operands(
            Kind::Setcc(cc),
            false,
            0,
            DecodedRm::Reg(dst.number() as int),
            len,
        ),
        Op::Movsxd { dst, src } => with_operands(
            Kind::Movsxd,
            true,
            dst.number(),
            decoded_rm(src),
            len,
        ),
        Op::Imul { width, dst, src } => with_operands(
            Kind::Imul,
            width is W64,
            dst.number(),
            decoded_rm(src),
            len,
        ),
        Op::ImulImm { width, dst, lhs, imm } => Insn {
            imm: imm as int,
            ..with_operands(
                Kind::ImulImm,
                width is W64,
                dst.number(),
                decoded_rm(lhs),
                len,
            )
        },
        Op::Cdq { width } => plain(Kind::Cdq, width is W64, 0, len),
        Op::Call { form: CallForm::Direct, .. } => plain(Kind::Call, false, 0, len),
        Op::Call { form: CallForm::Indirect, .. } => with_operands(
            Kind::CallIndirect,
            false,
            2,
            DecodedRm::RipRelative { disp: 0 },
            len,
        ),
        Op::Push { reg } => on_register(Kind::Push, false, reg.number() as int, 0, len),
        Op::Leave => plain(Kind::Leave, false, 0, len),
        Op::Ret => plain(Kind::Ret, false, 0, len),
        _ => float_meaning(op, len),
    }
}

pub open spec fn with_operands(kind: Kind, wide: bool, reg: u8, rm: DecodedRm, len: int) -> Insn {
    Insn { kind, wide, reg: reg as int, rm, imm: 0, len }
}

pub open spec fn move_meaning(width: Width, dst: Rm, src: Rmi, len: int) -> Insn {
    let wide = width is W64;
    match (dst, src) {
        (_, Rmi::Reg(s)) => with_operands(
            Kind::MovStore,
            wide,
            s.number(),
            decoded_rm(dst),
            len,
        ),
        (Rm::Reg(d), Rmi::Mem(m)) => with_operands(
            Kind::MovLoad,
            wide,
            d.number(),
            decoded_mem(m),
            len,
        ),
        (_, Rmi::Imm(v)) => Insn {
            imm: imm_value(width, v),
            ..with_operands(Kind::MovImm, wide, 0, decoded_rm(dst), len)
        },
        (Rm::Mem(_), Rmi::Mem(_)) => arbitrary(),
    }
}

/// A test does not care which side is the register.
pub open spec fn alu_meaning(op: AluOp, width: Width, dst: Rm, src: Rmi, len: int) -> Insn {
    let wide = width is W64;
    match (dst, src) {
        (_, Rmi::Reg(s)) => with_operands(
            Kind::AluStore(op),
            wide,
            s.number(),
            decoded_rm(dst),
            len,
        ),
        (Rm::Reg(d), Rmi::Mem(m)) => with_operands(
            if op is Test {
                Kind::AluStore(op)
            } else {
                Kind::AluLoad(op)
            },
            wide,
            d.number(),
            decoded_mem(m),
            len,
        ),
        (_, Rmi::Imm(v)) => Insn {
            imm: imm_value(width, v),
            ..with_operands(Kind::AluImm(op), wide, op.row_spec().imm_ext, decoded_rm(dst), len)
        },
        (Rm::Mem(_), Rmi::Mem(_)) => arbitrary(),
    }
}

pub open spec fn float_meaning(op: Op, len: int) -> Insn {
    match op {
        Op::MovFLoad { width, dst, src } => with_operands(
            Kind::FLoad(width),
            false,
            dst.number(),
            decoded_rmx(src),
            len,
        ),
        Op::MovFStore { width, dst, src } => with_operands(
            Kind::FStore(width),
            false,
            src.number(),
            decoded_mem(dst),
            len,
        ),
        Op::ArithF { op, width, dst, src } => with_operands(
            Kind::ArithF(op, width),
            false,
            dst.number(),
            decoded_rmx(src),
            len,
        ),
        Op::Ucomis { width, lhs, rhs } => with_operands(
            Kind::Ucomis(width),
            false,
            lhs.number(),
            decoded_rmx(rhs),
            len,
        ),
        Op::XorF { width, dst, src } => with_operands(
            Kind::XorF(width),
            false,
            dst.number(),
            decoded_rmx(src),
            len,
        ),
        Op::Cvtsi2s { width, dst, src, src_w64 } => with_operands(
            Kind::Cvtsi2s(width),
            src_w64,
            dst.number(),
            decoded_rm(src),
            len,
        ),
        Op::Cvtts2si { width, dst, src, dst_w64 } => with_operands(
            Kind::Cvtts2si(width),
            dst_w64,
            dst.number(),
            decoded_rmx(src),
            len,
        ),
        Op::Cvts2s { to, dst, src } => with_operands(
            Kind::Cvts2s(other_width(to)),
            false,
            dst.number(),
            decoded_rmx(src),
            len,
        ),
        Op::MovGprToXmm { width, dst, src } => with_operands(
            Kind::MovGprToXmm,
            width is D,
            dst.number(),
            DecodedRm::Reg(src.number() as int),
            len,
        ),
        _ => arbitrary(),
    }
}

/// The prefixes and the opcode of an instruction.
spec fn head(prefix: u8, rex: u8, two_byte: bool, opcode: u8) -> Seq<u8> {
    (if prefix == 0 {
        Seq::<u8>::empty()
    } else {
        seq![prefix]
    }) + rex_bytes(rex) + (if two_byte {
        seq![0x0Fu8, opcode]
    } else {
        seq![opcode]
    })
}

proof fn lemma_head(prefix: u8, rex: u8, two_byte: bool, opcode: u8, rest: Seq<u8>)
    requires
        prefix == 0 || is_prefix(prefix),
        rex < 16,
        !two_byte ==> !is_prefix(opcode) && !is_rex(opcode) && opcode != 0x0F,
    ensures
        read_fields(head(prefix, rex, two_byte, opcode) + rest) == (Fields {
            prefix,
            rex,
            two_byte,
            opcode,
            end: head(prefix, rex, two_byte, opcode).len() as int,
        }),
{
    let all = head(prefix, rex, two_byte, opcode) + rest;
    let i: int = if prefix == 0 {
        0
    } else {
        1
    };
    let j: int = if rex == 0 {
        i
    } else {
        i + 1
    };
    if prefix != 0 {
        assert(all[0] == prefix);
    }
    if rex != 0 {
        assert(all[i] == (0x40 + rex) as u8);
    }
    if two_byte {
        assert(all[j] == 0x0F);
        assert(all[j + 1] == opcode);
    } else {
        assert(all[j] == opcode);
    }
}

/// The operands of an instruction read back.
spec fn operands_read(enc: ModRmEnc, wide: bool, reg: u8, rm: DecodedRm, rest: Seq<u8>) -> bool {
    &&& enc.rex < 16
    &&& (enc.rex as int / 8 == 1) == wide
    &&& decode_operands(enc.rex, tail_bytes(enc) + rest) == (
        reg as int,
        rm,
        tail_bytes(enc).len() as int,
    )
}

proof fn lemma_operands(wide: bool, reg: u8, rm: Rm, rest: Seq<u8>)
    requires
        reg < 16,
        rm_encodes(rm),
    ensures
        operands_read(modrm_enc(wide, reg, rm), wide, reg, decoded_rm(rm), rest),
{
    law_rex_carries_the_width(wide, reg, rm);
    match rm {
        Rm::Reg(g) => {
            lemma_reg_rex(wide, reg, g.number());
            law_reg_operand_decodes(wide, reg, g.number(), rest);
        },
        Rm::Mem(m) => {
            law_mem_operand_decodes(wide, reg, m, rest);
        },
    }
}

proof fn lemma_operands_x(wide: bool, reg: u8, rm: RmX, rest: Seq<u8>)
    requires
        reg < 16,
        rmx_encodes(rm),
    ensures
        operands_read(modrm_enc_x(wide, reg, rm), wide, reg, decoded_rmx(rm), rest),
{
    match rm {
        RmX::Reg(x) => {
            lemma_reg_rex(wide, reg, x.number());
            law_reg_operand_decodes(wide, reg, x.number(), rest);
        },
        RmX::Mem(m) => {
            law_rex_carries_the_width(wide, reg, Rm::Mem(m));
            law_mem_operand_decodes(wide, reg, m, rest);
        },
    }
}

proof fn lemma_reg_rex(wide: bool, reg: u8, number: u8)
    requires
        reg < 16,
        number < 16,
    ensures
        reg_enc(wide, reg, number).rex < 16,
        (reg_enc(wide, reg, number).rex as int / 8 == 1) == wide,
        tail_bytes(reg_enc(wide, reg, number)).len() == 1,
{
    reveal(reg_enc);
}

/// An instruction with operands and a one-byte opcode reads back.
proof fn lemma_one_byte(
    enc: ModRmEnc,
    wide: bool,
    reg: u8,
    rm: DecodedRm,
    opcode: u8,
    kind: Kind,
    rest: Seq<u8>,
)
    requires
        operands_read(enc, wide, reg, rm, rest),
        one_byte_kind(opcode, reg as int % 8) == Some((kind, Imm::Absent)),
    ensures
        disassemble(insn_bytes(enc, seq![opcode]) + rest) == Some(
            with_operands(kind, wide, reg, rm, insn_bytes(enc, seq![opcode]).len() as int),
        ),
{
    let first = head(0, enc.rex, false, opcode);
    let tail = tail_bytes(enc) + rest;
    let all = insn_bytes(enc, seq![opcode]) + rest;
    assert(all =~= first + tail);
    lemma_head(0, enc.rex, false, opcode, tail);
    assert(all.skip(first.len() as int) =~= tail);
}

/// An instruction with operands, a one-byte opcode and an immediate reads back.
proof fn lemma_one_byte_imm(
    enc: ModRmEnc,
    wide: bool,
    reg: u8,
    rm: DecodedRm,
    opcode: u8,
    kind: Kind,
    imm: Imm,
    value: int,
    field: Seq<u8>,
    rest: Seq<u8>,
)
    requires
        operands_read(enc, wide, reg, rm, field + rest),
        one_byte_kind(opcode, reg as int % 8) == Some((kind, imm)),
        imm is Byte || imm is Count ==> field.len() == 1,
        imm is Long ==> field.len() == 4,
        imm is Absent || imm is Fixed ==> field.len() == 0,
        read_imm(imm, field, 0).0 == value,
    ensures
        disassemble(insn_bytes(enc, seq![opcode]) + field + rest) == Some(
            (Insn {
                imm: value,
                ..with_operands(
                    kind,
                    wide,
                    reg,
                    rm,
                    (insn_bytes(enc, seq![opcode]) + field).len() as int,
                )
            }),
        ),
{
    let first = head(0, enc.rex, false, opcode);
    let tail = tail_bytes(enc) + (field + rest);
    let all = insn_bytes(enc, seq![opcode]) + field + rest;
    assert(all =~= first + tail);
    lemma_head(0, enc.rex, false, opcode, tail);
    assert(all.skip(first.len() as int) =~= tail);
    let at = (first.len() + tail_bytes(enc).len()) as int;
    if field.len() > 0 {
        assert(all[at] == field[0]);
    }
    if field.len() == 4 {
        assert(all[at + 1] == field[1] && all[at + 2] == field[2] && all[at + 3] == field[3]);
    }
}

/// An instruction with operands and a two-byte opcode reads back.
proof fn lemma_two_byte(
    prefix: u8,
    enc: ModRmEnc,
    wide: bool,
    reg: u8,
    rm: DecodedRm,
    opcode: u8,
    kind: Kind,
    rest: Seq<u8>,
)
    requires
        operands_read(enc, wide, reg, rm, rest),
        prefix == 0 || is_prefix(prefix),
        two_byte_kind(prefix, opcode) == Some(kind),
        !(0x80 <= opcode < 0x90),
    ensures
        disassemble(sse_bytes(prefix, enc, opcode) + rest) == Some(
            with_operands(kind, wide, reg, rm, sse_bytes(prefix, enc, opcode).len() as int),
        ),
{
    let first = head(prefix, enc.rex, true, opcode);
    let tail = tail_bytes(enc) + rest;
    let all = sse_bytes(prefix, enc, opcode) + rest;
    assert(all =~= first + tail);
    lemma_head(prefix, enc.rex, true, opcode, tail);
    assert(all.skip(first.len() as int) =~= tail);
}

/// Four bytes with a sign read back.
proof fn lemma_long(v: i64)
    ensures
        read_imm(Imm::Long, le32((v as i32) as u32), 0).0 == signed32((v as u32) as int),
        fits_i32(v as int) ==> signed32((v as u32) as int) == v,
{
    let field = le32((v as i32) as u32);
    assert(field.subrange(0, 4) =~= field);
    law_read_le32(field, 0, (v as i32) as u32);
    assert((v as i32) as u32 == v as u32) by (bit_vector);
    assert((-0x8000_0000 <= v <= 0x7FFF_FFFF) ==> (v < 0 ==> v as u32 == v + 0x1_0000_0000) && (v
        >= 0 ==> v as u32 == v)) by (bit_vector);
}

/// One byte with a sign reads back.
proof fn lemma_byte(v: i64)
    requires
        fits_i8((v as i32) as int),
    ensures
        read_imm(Imm::Byte, seq![(v as i32) as u8], 0).0 == signed32((v as u32) as int),
        fits_i32(v as int) ==> signed32((v as u32) as int) == v,
{
    let i = v as i32;
    assert((i < 0 ==> i as u32 == i + 0x1_0000_0000) && (i >= 0 ==> i as u32 == i)) by (bit_vector);
    assert((-0x80 <= i <= 0x7F) ==> (i < 0 ==> i as u8 == i + 0x100) && (i >= 0 ==> i as u8 == i))
        by (bit_vector);
    lemma_long(v);
    assert((v as i32) as u32 == v as u32) by (bit_vector);
}

/// The processor reads an instruction as it was meant.
#[verifier::opaque]
spec fn reads_as_meant(op: Op, rest: Seq<u8>) -> bool {
    disassemble(op_code(op) + rest) == Some(meaning(op))
}

proof fn lemma_mov_operands(width: Width, dst: Rm, src: Rmi, rest: Seq<u8>)
    requires
        !(dst is Mem && src is Mem),
        !(src is Imm),
        rm_encodes(dst),
        rmi_encodes(src),
    ensures
        reads_as_meant(Op::Mov { width, dst, src }, rest),
{
    reveal(reads_as_meant);
    let wide = width is W64;
    match (dst, src) {
        (_, Rmi::Reg(s)) => {
            lemma_operands(wide, s.number(), dst, rest);
            lemma_one_byte(
                modrm_enc(wide, s.number(), dst),
                wide,
                s.number(),
                decoded_rm(dst),
                0x89,
                Kind::MovStore,
                rest,
            );
        },
        (Rm::Reg(d), Rmi::Mem(m)) => {
            lemma_operands(wide, d.number(), Rm::Mem(m), rest);
            lemma_one_byte(
                modrm_enc(wide, d.number(), Rm::Mem(m)),
                wide,
                d.number(),
                decoded_mem(m),
                0x8B,
                Kind::MovLoad,
                rest,
            );
        },
        _ => {},
    }
}

/// A 64-bit move of an immediate that does not fit 32 bits reads back.
proof fn lemma_mov_long(dst: Gpr, v: i64, rest: Seq<u8>)
    requires
        !fits_i32(v as int),
    ensures
        ({
            let op = Op::Mov { width: Width::W64, dst: Rm::Reg(dst), src: Rmi::Imm(v) };
            reads_as_meant(op, rest)
        }),
{
    reveal(reads_as_meant);
    let d = dst.number() as int;
    let opcode = (0xB8 + d % 8) as u8;
    let rex = (8 + d / 8) as u8;
    let first = head(0, rex, false, opcode);
    let field = le64(v as u64);
    let op = Op::Mov { width: Width::W64, dst: Rm::Reg(dst), src: Rmi::Imm(v) };
    let all = op_code(op) + rest;
    assert(all =~= first + (field + rest));
    lemma_head(0, rex, false, opcode, field + rest);
    let low = ((v as u64) % 0x1_0000_0000) as u32;
    let high = ((v as u64) / 0x1_0000_0000) as u32;
    assert(all.subrange(2, 6) =~= le32(low));
    assert(all.subrange(6, 10) =~= le32(high));
    law_read_le32(all, 2, low);
    law_read_le32(all, 6, high);
    lemma_halves(v);
}

proof fn lemma_halves(v: i64)
    ensures
        ({
            let low = ((v as u64) % 0x1_0000_0000) as u32;
            let high = ((v as u64) / 0x1_0000_0000) as u32;
            low + 0x1_0000_0000 * signed32(high as int) == v
        }),
{
    let u = v as u64;
    assert((v < 0 ==> v as u64 == v + 0x1_0000_0000_0000_0000) && (v >= 0 ==> v as u64 == v))
        by (bit_vector);
    let low = u % 0x1_0000_0000;
    let high = u / 0x1_0000_0000;
    assert(u == low + 0x1_0000_0000 * high);
}

proof fn lemma_mov_imm(width: Width, dst: Rm, v: i64, rest: Seq<u8>)
    requires
        op_valid(Op::Mov { width, dst, src: Rmi::Imm(v) }),
        rm_encodes(dst),
    ensures
        reads_as_meant(Op::Mov { width, dst, src: Rmi::Imm(v) }, rest),
{
    reveal(reads_as_meant);
    let wide = width is W64;
    let field = le32((v as i32) as u32);
    lemma_long(v);
    if dst is Reg && wide && !fits_i32(v as int) {
        lemma_mov_long(dst->Reg_0, v, rest);
    } else if dst is Reg && !wide {
        lemma_mov_short(dst->Reg_0, v, rest);
    } else {
        lemma_operands(wide, 0, dst, field + rest);
        lemma_one_byte_imm(
            modrm_enc(wide, 0, dst),
            wide,
            0,
            decoded_rm(dst),
            0xC7,
            Kind::MovImm,
            Imm::Long,
            signed32((v as u32) as int),
            field,
            rest,
        );
    }
}

/// A 32-bit move of an immediate to a register reads back.
proof fn lemma_mov_short(dst: Gpr, v: i64, rest: Seq<u8>)
    ensures
        ({
            let op = Op::Mov { width: Width::W32, dst: Rm::Reg(dst), src: Rmi::Imm(v) };
            reads_as_meant(op, rest)
        }),
{
    reveal(reads_as_meant);
    let d = dst.number() as int;
    let opcode = (0xB8 + d % 8) as u8;
    let rex = (d / 8) as u8;
    let first = head(0, rex, false, opcode);
    let field = le32(v as u32);
    let op = Op::Mov { width: Width::W32, dst: Rm::Reg(dst), src: Rmi::Imm(v) };
    let all = op_code(op) + rest;
    assert(all =~= first + (field + rest));
    lemma_head(0, rex, false, opcode, field + rest);
    let at = first.len() as int;
    assert(all.subrange(at, at + 4) =~= field);
    law_read_le32(all, at, v as u32);
}

proof fn lemma_alu_operands(op: AluOp, width: Width, dst: Rm, src: Rmi, rest: Seq<u8>)
    requires
        !(dst is Mem && src is Mem),
        !(src is Imm),
        rm_encodes(dst),
        rmi_encodes(src),
    ensures
        reads_as_meant(Op::Alu { op, width, dst, src }, rest),
{
    reveal(reads_as_meant);
    let wide = width is W64;
    match (dst, src) {
        (_, Rmi::Reg(s)) => {
            lemma_operands(wide, s.number(), dst, rest);
            lemma_one_byte(
                modrm_enc(wide, s.number(), dst),
                wide,
                s.number(),
                decoded_rm(dst),
                op.row_spec().rm_r,
                Kind::AluStore(op),
                rest,
            );
        },
        (Rm::Reg(d), Rmi::Mem(m)) => {
            lemma_operands(wide, d.number(), Rm::Mem(m), rest);
            lemma_one_byte(
                modrm_enc(wide, d.number(), Rm::Mem(m)),
                wide,
                d.number(),
                decoded_mem(m),
                op.row_spec().r_rm,
                if op is Test {
                    Kind::AluStore(op)
                } else {
                    Kind::AluLoad(op)
                },
                rest,
            );
        },
        _ => {},
    }
}

proof fn lemma_alu_imm(op: AluOp, width: Width, dst: Rm, v: i64, rest: Seq<u8>)
    requires
        op_valid(Op::Alu { op, width, dst, src: Rmi::Imm(v) }),
        rm_encodes(dst),
    ensures
        reads_as_meant(Op::Alu { op, width, dst, src: Rmi::Imm(v) }, rest),
{
    reveal(reads_as_meant);
    let wide = width is W64;
    let row = op.row_spec();
    let imm = v as i32;
    let enc = modrm_enc(wide, row.imm_ext, dst);
    lemma_long(v);
    if row.imm_op == 0x81 && fits_i8(imm as int) {
        let field = seq![imm as u8];
        lemma_byte(v);
        lemma_operands(wide, row.imm_ext, dst, field + rest);
        lemma_one_byte_imm(
            enc,
            wide,
            row.imm_ext,
            decoded_rm(dst),
            0x83,
            Kind::AluImm(op),
            Imm::Byte,
            signed32((v as u32) as int),
            field,
            rest,
        );
    } else {
        let field = le32(imm as u32);
        lemma_operands(wide, row.imm_ext, dst, field + rest);
        lemma_one_byte_imm(
            enc,
            wide,
            row.imm_ext,
            decoded_rm(dst),
            row.imm_op,
            Kind::AluImm(op),
            Imm::Long,
            signed32((v as u32) as int),
            field,
            rest,
        );
    }
}

proof fn lemma_lea(dst: Gpr, addr: Mem, rest: Seq<u8>)
    requires
        mem_encodes(addr),
    ensures
        reads_as_meant(Op::Lea { dst, addr }, rest),
{
    reveal(reads_as_meant);
    let wide = true;
    lemma_operands(wide, dst.number(), Rm::Mem(addr), rest);
    lemma_one_byte(
        modrm_enc(wide, dst.number(), Rm::Mem(addr)),
        wide,
        dst.number(),
        decoded_mem(addr),
        0x8D,
        Kind::Lea,
        rest,
    );
}

proof fn lemma_neg(width: Width, dst: Rm, rest: Seq<u8>)
    requires
        rm_encodes(dst),
    ensures
        reads_as_meant(Op::Neg { width, dst }, rest),
{
    reveal(reads_as_meant);
    let wide = width is W64;
    lemma_operands(wide, 3, dst, rest);
    lemma_one_byte(
        modrm_enc(wide, 3, dst),
        wide,
        3,
        decoded_rm(dst),
        0xF7,
        Kind::Neg,
        rest,
    );
}

proof fn lemma_not(width: Width, dst: Rm, rest: Seq<u8>)
    requires
        rm_encodes(dst),
    ensures
        reads_as_meant(Op::Not { width, dst }, rest),
{
    reveal(reads_as_meant);
    let wide = width is W64;
    lemma_operands(wide, 2, dst, rest);
    lemma_one_byte(
        modrm_enc(wide, 2, dst),
        wide,
        2,
        decoded_rm(dst),
        0xF7,
        Kind::Not,
        rest,
    );
}

proof fn lemma_div(width: Width, divisor: Rm, rest: Seq<u8>)
    requires
        rm_encodes(divisor),
    ensures
        reads_as_meant(Op::Div { width, divisor }, rest),
{
    reveal(reads_as_meant);
    let wide = width is W64;
    lemma_operands(wide, 6, divisor, rest);
    lemma_one_byte(
        modrm_enc(wide, 6, divisor),
        wide,
        6,
        decoded_rm(divisor),
        0xF7,
        Kind::Div,
        rest,
    );
}

proof fn lemma_idiv(width: Width, divisor: Rm, rest: Seq<u8>)
    requires
        rm_encodes(divisor),
    ensures
        reads_as_meant(Op::Idiv { width, divisor }, rest),
{
    reveal(reads_as_meant);
    let wide = width is W64;
    lemma_operands(wide, 7, divisor, rest);
    lemma_one_byte(
        modrm_enc(wide, 7, divisor),
        wide,
        7,
        decoded_rm(divisor),
        0xF7,
        Kind::Idiv,
        rest,
    );
}

proof fn lemma_shift_cl(op: ShiftOp, width: Width, dst: Rm, rest: Seq<u8>)
    requires
        rm_encodes(dst),
    ensures
        reads_as_meant(Op::ShiftCl { op, width, dst }, rest),
{
    reveal(reads_as_meant);
    let wide = width is W64;
    lemma_operands(wide, shift_number(op), dst, rest);
    lemma_one_byte(
        modrm_enc(wide, shift_number(op), dst),
        wide,
        shift_number(op),
        decoded_rm(dst),
        0xD3,
        Kind::ShiftCl(op),
        rest,
    );
}

proof fn lemma_movsxd(dst: Gpr, src: Rm, rest: Seq<u8>)
    requires
        rm_encodes(src),
    ensures
        reads_as_meant(Op::Movsxd { dst, src }, rest),
{
    reveal(reads_as_meant);
    let wide = true;
    lemma_operands(wide, dst.number(), src, rest);
    lemma_one_byte(
        modrm_enc(wide, dst.number(), src),
        wide,
        dst.number(),
        decoded_rm(src),
        0x63,
        Kind::Movsxd,
        rest,
    );
}

proof fn lemma_shift_imm(op: ShiftOp, width: Width, dst: Rm, count: i64, rest: Seq<u8>)
    requires
        rm_encodes(dst),
    ensures
        reads_as_meant(Op::ShiftImm { op, width, dst, count }, rest),
{
    reveal(reads_as_meant);
    let wide = width is W64;
    let enc = modrm_enc(wide, shift_number(op), dst);
    let code = op_code(Op::ShiftImm { op, width, dst, count });
    if count == 1 {
        let field = Seq::<u8>::empty();
        assert(code =~= insn_bytes(enc, seq![0xD1u8]) + field);
        lemma_operands(wide, shift_number(op), dst, field + rest);
        lemma_one_byte_imm(
            enc,
            wide,
            shift_number(op),
            decoded_rm(dst),
            0xD1,
            Kind::ShiftImm(op),
            Imm::Fixed(1),
            1,
            field,
            rest,
        );
    } else {
        let field = seq![count as u8];
        lemma_operands(wide, shift_number(op), dst, field + rest);
        lemma_one_byte_imm(
            enc,
            wide,
            shift_number(op),
            decoded_rm(dst),
            0xC1,
            Kind::ShiftImm(op),
            Imm::Count,
            (count as u8) as int,
            field,
            rest,
        );
    }
}

proof fn lemma_imul_imm(width: Width, dst: Gpr, lhs: Rm, imm: i64, rest: Seq<u8>)
    requires
        fits_i32(imm as int),
        rm_encodes(lhs),
    ensures
        reads_as_meant(Op::ImulImm { width, dst, lhs, imm }, rest),
{
    reveal(reads_as_meant);
    let wide = width is W64;
    let enc = modrm_enc(wide, dst.number(), lhs);
    lemma_long(imm);
    if fits_i8((imm as i32) as int) {
        let field = seq![(imm as i32) as u8];
        lemma_byte(imm);
        lemma_operands(wide, dst.number(), lhs, field + rest);
        lemma_one_byte_imm(
            enc,
            wide,
            dst.number(),
            decoded_rm(lhs),
            0x6B,
            Kind::ImulImm,
            Imm::Byte,
            imm as int,
            field,
            rest,
        );
    } else {
        let field = le32((imm as i32) as u32);
        lemma_operands(wide, dst.number(), lhs, field + rest);
        lemma_one_byte_imm(
            enc,
            wide,
            dst.number(),
            decoded_rm(lhs),
            0x69,
            Kind::ImulImm,
            Imm::Long,
            imm as int,
            field,
            rest,
        );
    }
}

proof fn lemma_imul(width: Width, dst: Gpr, src: Rm, rest: Seq<u8>)
    requires
        rm_encodes(src),
    ensures
        reads_as_meant(Op::Imul { width, dst, src }, rest),
{
    reveal(reads_as_meant);
    let wide = width is W64;
    let enc = modrm_enc(wide, dst.number(), src);
    lemma_operands(wide, dst.number(), src, rest);
    lemma_two_byte(
        0,
        enc,
        wide,
        dst.number(),
        decoded_rm(src),
        0xAF,
        Kind::Imul,
        rest,
    );
    assert(sse_bytes(0, enc, 0xAF) =~= insn_bytes(enc, seq![0x0Fu8, 0xAFu8]));
}

proof fn lemma_setcc(cc: CondCode, dst: Gpr, rest: Seq<u8>)
    ensures
        reads_as_meant(Op::Setcc { cc, dst }, rest),
{
    reveal(reads_as_meant);
    reveal(decode_operands);
    let d = dst.number() as int;
    let all = op_code(Op::Setcc { cc, dst }) + rest;
    let rex = (d / 8) as u8;
    let at: int = if d >= 4 {
        1
    } else {
        0
    };
    if d >= 4 {
        assert(all[0] == (0x40 + d / 8) as u8);
    }
    assert(all[at] == 0x0F);
    assert(all[at + 1] == (0x90 + cond_number(cc)) as u8);
    assert(all[at + 2] == (0xC0 + d % 8) as u8);
    assert(all.skip(at + 2)[0] == all[at + 2]);
    assert(cond_by_number(cond_number(cc) as int) == Some(cc));
}

/// An instruction without operands reads back.
proof fn lemma_plain(op: Op, rest: Seq<u8>)
    requires
        op is Cdq || op is Leave || op is Ret || op is Push || op is Call,
    ensures
        reads_as_meant(op, rest),
{
    reveal(reads_as_meant);
    let all = op_code(op) + rest;
    match op {
        Op::Push { reg } => {
            let n = reg.number() as int;
            let opcode = (0x50 + n % 8) as u8;
            lemma_head(0, (n / 8) as u8, false, opcode, rest);
            assert(all =~= head(0, (n / 8) as u8, false, opcode) + rest);
        },
        Op::Cdq { width } => {
            let rex: u8 = if width is W64 {
                8
            } else {
                0
            };
            lemma_head(0, rex, false, 0x99, rest);
            assert(all =~= head(0, rex, false, 0x99) + rest);
        },
        Op::Leave => {
            lemma_head(0, 0, false, 0xC9, rest);
            assert(all =~= head(0, 0, false, 0xC9) + rest);
        },
        Op::Ret => {
            lemma_head(0, 0, false, 0xC3, rest);
            assert(all =~= head(0, 0, false, 0xC3) + rest);
        },
        Op::Call { form: CallForm::Direct, .. } => {
            lemma_head(0, 0, false, 0xE8, le32(0) + rest);
            assert(all =~= head(0, 0, false, 0xE8) + (le32(0) + rest));
            assert(all.subrange(1, 5) =~= le32(0));
            law_read_le32(all, 1, 0);
        },
        Op::Call { form: CallForm::Indirect, .. } => {
            reveal(decode_operands);
            let tail = seq![0x15u8] + le32(0) + rest;
            lemma_head(0, 0, false, 0xFF, tail);
            assert(all =~= head(0, 0, false, 0xFF) + tail);
            assert(all.skip(1) =~= tail);
            assert(tail.subrange(1, 5) =~= le32(0));
            law_read_le32(tail, 1, 0);
        },
        _ => {},
    }
}

proof fn lemma_mov_f_load(width: FWidth, dst: Xmm, src: RmX, rest: Seq<u8>)
    requires
        rmx_encodes(src),
    ensures
        reads_as_meant(Op::MovFLoad { width, dst, src }, rest),
{
    reveal(reads_as_meant);
    lemma_operands_x(false, dst.number(), src, rest);
    lemma_two_byte(
        sse_width_prefix(width),
        modrm_enc_x(false, dst.number(), src),
        false,
        dst.number(),
        decoded_rmx(src),
        0x10,
        Kind::FLoad(width),
        rest,
    );
}

proof fn lemma_mov_f_store(width: FWidth, dst: Mem, src: Xmm, rest: Seq<u8>)
    requires
        mem_encodes(dst),
    ensures
        reads_as_meant(Op::MovFStore { width, dst, src }, rest),
{
    reveal(reads_as_meant);
    lemma_operands_x(false, src.number(), RmX::Mem(dst), rest);
    lemma_two_byte(
        sse_width_prefix(width),
        modrm_enc_x(false, src.number(), RmX::Mem(dst)),
        false,
        src.number(),
        decoded_mem(dst),
        0x11,
        Kind::FStore(width),
        rest,
    );
}

proof fn lemma_arith_f(op: ArithFOp, width: FWidth, dst: Xmm, src: RmX, rest: Seq<u8>)
    requires
        rmx_encodes(src),
    ensures
        reads_as_meant(Op::ArithF { op, width, dst, src }, rest),
{
    reveal(reads_as_meant);
    lemma_operands_x(false, dst.number(), src, rest);
    lemma_two_byte(
        sse_width_prefix(width),
        modrm_enc_x(false, dst.number(), src),
        false,
        dst.number(),
        decoded_rmx(src),
        arith_f_opcode(op),
        Kind::ArithF(op, width),
        rest,
    );
}

proof fn lemma_ucomis(width: FWidth, lhs: Xmm, rhs: RmX, rest: Seq<u8>)
    requires
        rmx_encodes(rhs),
    ensures
        reads_as_meant(Op::Ucomis { width, lhs, rhs }, rest),
{
    reveal(reads_as_meant);
    lemma_operands_x(false, lhs.number(), rhs, rest);
    lemma_two_byte(
        packed_width_prefix(width),
        modrm_enc_x(false, lhs.number(), rhs),
        false,
        lhs.number(),
        decoded_rmx(rhs),
        0x2E,
        Kind::Ucomis(width),
        rest,
    );
}

proof fn lemma_xor_f(width: FWidth, dst: Xmm, src: RmX, rest: Seq<u8>)
    requires
        rmx_encodes(src),
    ensures
        reads_as_meant(Op::XorF { width, dst, src }, rest),
{
    reveal(reads_as_meant);
    lemma_operands_x(false, dst.number(), src, rest);
    lemma_two_byte(
        packed_width_prefix(width),
        modrm_enc_x(false, dst.number(), src),
        false,
        dst.number(),
        decoded_rmx(src),
        0x57,
        Kind::XorF(width),
        rest,
    );
}

proof fn lemma_cvtsi2s(width: FWidth, dst: Xmm, src: Rm, src_w64: bool, rest: Seq<u8>)
    requires
        rm_encodes(src),
    ensures
        reads_as_meant(Op::Cvtsi2s { width, dst, src, src_w64 }, rest),
{
    reveal(reads_as_meant);
    lemma_operands(src_w64, dst.number(), src, rest);
    lemma_two_byte(
        sse_width_prefix(width),
        modrm_enc(src_w64, dst.number(), src),
        src_w64,
        dst.number(),
        decoded_rm(src),
        0x2A,
        Kind::Cvtsi2s(width),
        rest,
    );
}

proof fn lemma_cvtts2si(width: FWidth, dst: Gpr, src: RmX, dst_w64: bool, rest: Seq<u8>)
    requires
        rmx_encodes(src),
    ensures
        reads_as_meant(Op::Cvtts2si { width, dst, src, dst_w64 }, rest),
{
    reveal(reads_as_meant);
    lemma_operands_x(dst_w64, dst.number(), src, rest);
    lemma_two_byte(
        sse_width_prefix(width),
        modrm_enc_x(dst_w64, dst.number(), src),
        dst_w64,
        dst.number(),
        decoded_rmx(src),
        0x2C,
        Kind::Cvtts2si(width),
        rest,
    );
}

proof fn lemma_cvts2s(to: FWidth, dst: Xmm, src: RmX, rest: Seq<u8>)
    requires
        rmx_encodes(src),
    ensures
        reads_as_meant(Op::Cvts2s { to, dst, src }, rest),
{
    reveal(reads_as_meant);
    lemma_operands_x(false, dst.number(), src, rest);
    lemma_two_byte(
        sse_width_prefix(other_width(to)),
        modrm_enc_x(false, dst.number(), src),
        false,
        dst.number(),
        decoded_rmx(src),
        0x5A,
        Kind::Cvts2s(other_width(to)),
        rest,
    );
}

proof fn lemma_mov_gpr_to_xmm(width: FWidth, dst: Xmm, src: Gpr, rest: Seq<u8>)
    ensures
        reads_as_meant(Op::MovGprToXmm { width, dst, src }, rest),
{
    reveal(reads_as_meant);
    lemma_operands(width is D, dst.number(), Rm::Reg(src), rest);
    lemma_two_byte(
        0x66,
        modrm_enc(width is D, dst.number(), Rm::Reg(src)),
        width is D,
        dst.number(),
        DecodedRm::Reg(src.number() as int),
        0x6E,
        Kind::MovGprToXmm,
        rest,
    );
}

proof fn lemma_reads(op: Op, rest: Seq<u8>)
    requires
        reads_as_meant(op, rest),
    ensures
        disassemble(op_code(op) + rest) == Some(meaning(op)),
{
    reveal(reads_as_meant);
}

/// The instruction works on floats.
spec fn is_float(op: Op) -> bool {
    match op {
        Op::MovFLoad { .. }
        | Op::MovFStore { .. }
        | Op::ArithF { .. }
        | Op::Ucomis { .. }
        | Op::XorF { .. }
        | Op::Cvtsi2s { .. }
        | Op::Cvtts2si { .. }
        | Op::Cvts2s { .. }
        | Op::MovGprToXmm { .. } => true,
        _ => false,
    }
}

proof fn lemma_float_reads(op: Op, rest: Seq<u8>)
    requires
        is_float(op),
        op_valid(op),
    ensures
        reads_as_meant(op, rest),
{
    match op {
        Op::MovFLoad { width, dst, src } => lemma_mov_f_load(width, dst, src, rest),
        Op::MovFStore { width, dst, src } => lemma_mov_f_store(width, dst, src, rest),
        Op::ArithF { op, width, dst, src } => lemma_arith_f(op, width, dst, src, rest),
        Op::Ucomis { width, lhs, rhs } => lemma_ucomis(width, lhs, rhs, rest),
        Op::XorF { width, dst, src } => lemma_xor_f(width, dst, src, rest),
        Op::Cvtsi2s { width, dst, src, src_w64 } => lemma_cvtsi2s(width, dst, src, src_w64, rest),
        Op::Cvtts2si { width, dst, src, dst_w64 } => lemma_cvtts2si(width, dst, src, dst_w64, rest),
        Op::Cvts2s { to, dst, src } => lemma_cvts2s(to, dst, src, rest),
        Op::MovGprToXmm { width, dst, src } => lemma_mov_gpr_to_xmm(width, dst, src, rest),
        _ => {},
    }
}

proof fn lemma_int_reads(op: Op, rest: Seq<u8>)
    requires
        !is_float(op),
        op_valid(op),
        !(op is Jcc || op is Jmp || op is Bind),
    ensures
        reads_as_meant(op, rest),
{
    match op {
        Op::Mov { width, dst, src } => {
            if let Rmi::Imm(v) = src {
                lemma_mov_imm(width, dst, v, rest);
            } else {
                lemma_mov_operands(width, dst, src, rest);
            }
        },
        Op::Alu { op, width, dst, src } => {
            if let Rmi::Imm(v) = src {
                lemma_alu_imm(op, width, dst, v, rest);
            } else {
                lemma_alu_operands(op, width, dst, src, rest);
            }
        },
        Op::Lea { dst, addr } => lemma_lea(dst, addr, rest),
        Op::Neg { width, dst } => lemma_neg(width, dst, rest),
        Op::Not { width, dst } => lemma_not(width, dst, rest),
        Op::Div { width, divisor } => lemma_div(width, divisor, rest),
        Op::Idiv { width, divisor } => lemma_idiv(width, divisor, rest),
        Op::ShiftCl { op, width, dst } => lemma_shift_cl(op, width, dst, rest),
        Op::ShiftImm { op, width, dst, count } => lemma_shift_imm(op, width, dst, count, rest),
        Op::Setcc { cc, dst } => lemma_setcc(cc, dst, rest),
        Op::Movsxd { dst, src } => lemma_movsxd(dst, src, rest),
        Op::Imul { width, dst, src } => lemma_imul(width, dst, src, rest),
        Op::ImulImm { width, dst, lhs, imm } => lemma_imul_imm(width, dst, lhs, imm, rest),
        _ => lemma_plain(op, rest),
    }
}

/// The processor reads every instruction as it was meant, whatever stands behind
/// it. Jumps are filled in later; labels are no instructions.
pub proof fn law_code_reads_as_meant(op: Op, rest: Seq<u8>)
    requires
        op_valid(op),
        !(op is Jcc || op is Jmp || op is Bind),
    ensures
        disassemble(op_code(op) + rest) == Some(meaning(op)),
{
    if is_float(op) {
        lemma_float_reads(op, rest);
    } else {
        lemma_int_reads(op, rest);
    }
    lemma_reads(op, rest);
}

/// The processor reads a jump, with whatever distance was filled in.
pub proof fn law_jumps_read_as_meant(cc: CondCode, distance: u32, rest: Seq<u8>)
    ensures
        disassemble(
            seq![0x0Fu8, (0x80 + cond_number(cc)) as u8] + le32(distance) + rest,
        ) == Some(plain(Kind::Jcc(cc), false, signed32(distance as int), 6)),
        disassemble(seq![0xE9u8] + le32(distance) + rest) == Some(
            plain(Kind::Jmp, false, signed32(distance as int), 5),
        ),
{
    let field = le32(distance) + rest;
    let opcode = (0x80 + cond_number(cc)) as u8;
    let branch = seq![0x0Fu8, opcode] + le32(distance) + rest;
    lemma_head(0, 0, true, opcode, field);
    assert(branch =~= head(0, 0, true, opcode) + field);
    assert(branch.subrange(2, 6) =~= le32(distance));
    law_read_le32(branch, 2, distance);
    assert(cond_by_number(cond_number(cc) as int) == Some(cc));
    let jump = seq![0xE9u8] + le32(distance) + rest;
    lemma_head(0, 0, false, 0xE9, field);
    assert(jump =~= head(0, 0, false, 0xE9) + field);
    assert(jump.subrange(1, 5) =~= le32(distance));
    law_read_le32(jump, 1, distance);
}

} // verus!
