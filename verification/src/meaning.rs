//! What descriptors do and what statements ask for.
//!
//! A world holds the values of the locals, the registers and the memory. The model
//! follows descriptors one after the other. What a statement asks for is written
//! down apart from the rules that lower it, from the statement and the types of the
//! locals alone; the laws of [`crate::faithful`] bring the two together. Locals whose
//! address is taken and structs are reached through the memory at their slots.
//!
//! Floats are numbers of 32 or 64 bits. What a float operation makes of them is a
//! part of the world, so that the laws hold whatever it is.

use crate::flags::{float_flags, float_truth, holds, int_flags, Flags, Relation};
use crate::inst::{
    Amode, ArithFOp, ArithOp, BlockAddr, EbReg, FWidth, Inst, Place, Src, Width, XmmPlace, XmmSrc,
};
use crate::ir::{BinaryOp, Const, Label, LocalId, Operand, Type, UnaryOp};
use crate::lower::Cx;
use crate::machine::{bit, bits_of, modulus, quotient, remainder, shift_value, signed};
use crate::regs::{Gpr, Xmm};
use vstd::prelude::*;

verus! {

/// What float operations make of their operands.
pub struct Math {
    pub add: spec_fn(FWidth, int, int) -> int,
    pub sub: spec_fn(FWidth, int, int) -> int,
    pub mul: spec_fn(FWidth, int, int) -> int,
    pub div: spec_fn(FWidth, int, int) -> int,
    pub min: spec_fn(FWidth, int, int) -> int,
    pub max: spec_fn(FWidth, int, int) -> int,
    pub compare: spec_fn(FWidth, int, int) -> Relation,
    /// The float of an integer.
    pub of_int: spec_fn(FWidth, int) -> int,
    /// The integer of a width that a float is cut to.
    pub to_int: spec_fn(FWidth, int, Width) -> int,
    /// From the first width to the second.
    pub convert: spec_fn(FWidth, FWidth, int) -> int,
    pub finite: spec_fn(FWidth, int) -> bool,
}

/// Values, registers and memory.
pub struct World {
    pub vals: Map<LocalId, int>,
    pub gpr: Map<Gpr, int>,
    pub xmm: Map<Xmm, int>,
    pub bytes: spec_fn(int) -> int,
    /// The addresses of the slots.
    pub slots: Map<LocalId, int>,
    /// The address of the outgoing arguments.
    pub outgoing: int,
    pub flags: Flags,
    pub math: Math,
    /// The length of the array at an address.
    pub length: spec_fn(int) -> int,
    /// The address of so many bytes taken from the stack.
    pub taken: spec_fn(int) -> int,
    /// The addresses of the blocks.
    pub places: spec_fn(Label) -> int,
}

/// Where following descriptors leads.
pub enum End {
    /// Past the last one.
    On(World),
    To(World, Label),
    Throws(World),
    Returns(World),
    /// To a call, which is still to be made.
    Calls(World, Inst),
}

/// The floats of a width.
pub open spec fn float_modulus(width: FWidth) -> int {
    match width {
        FWidth::S => 0x1_0000_0000,
        FWidth::D => 0x1_0000_0000_0000_0000,
    }
}

/// The number that `n` bytes hold, the lowest first.
pub open spec fn load(bytes: spec_fn(int) -> int, at: int, n: nat) -> int
    decreases n,
{
    if n == 0 {
        0
    } else {
        bytes(at) % 256 + 256 * load(bytes, at + 1, (n - 1) as nat)
    }
}

/// The `i`th byte of a number.
pub open spec fn byte_of(v: int, i: nat) -> int
    decreases i,
{
    if i == 0 {
        v % 256
    } else {
        byte_of(v / 256, (i - 1) as nat)
    }
}

/// The memory with the low `n` bytes of a number at an address.
pub open spec fn stored(bytes: spec_fn(int) -> int, at: int, n: nat, v: int) -> spec_fn(int) -> int {
    |x: int|
        if at <= x < at + n {
            byte_of(v, (x - at) as nat)
        } else {
            bytes(x)
        }
}

/// The memory with `n` bytes copied.
pub open spec fn copied(
    bytes: spec_fn(int) -> int,
    to: int,
    from: int,
    n: int,
) -> spec_fn(int) -> int {
    |x: int|
        if to <= x < to + n {
            bytes(from + (x - to))
        } else {
            bytes(x)
        }
}

/// The memory with one byte over and over.
pub open spec fn filled(
    bytes: spec_fn(int) -> int,
    at: int,
    n: int,
    v: int,
) -> spec_fn(int) -> int {
    |x: int|
        if at <= x < at + n {
            v
        } else {
            bytes(x)
        }
}

pub open spec fn src_value(w: World, src: Src, width: Width) -> int {
    match src {
        Src::Val(v) => w.vals[v.0] % modulus(width),
        Src::Reg(g) => w.gpr[g] % modulus(width),
        Src::Imm(k) => k as int % modulus(width),
    }
}

pub open spec fn float_value(w: World, src: XmmSrc, width: FWidth) -> int {
    match src {
        XmmSrc::Val(v) => w.vals[v.0] % float_modulus(width),
        XmmSrc::Reg(x) => w.xmm[x] % float_modulus(width),
        XmmSrc::Bits(bits) => bits as int % float_modulus(width),
    }
}

pub open spec fn put(w: World, dst: Place, v: int) -> World {
    match dst {
        Place::Val(t) => World { vals: w.vals.insert(t.0, v), ..w },
        Place::Reg(g) => World { gpr: w.gpr.insert(g, v), ..w },
    }
}

pub open spec fn put_float(w: World, dst: XmmPlace, v: int) -> World {
    match dst {
        XmmPlace::Val(t) => World { vals: w.vals.insert(t.0, v), ..w },
        XmmPlace::Reg(x) => World { xmm: w.xmm.insert(x, v), ..w },
    }
}

pub open spec fn block_address(w: World, addr: BlockAddr) -> int {
    match addr {
        BlockAddr::Val(v) => w.vals[v.0] % modulus(Width::W64),
        BlockAddr::FrameSlot(l) => w.slots[l],
    }
}

pub open spec fn arith_result(op: ArithOp, width: Width, x: int, y: int) -> int {
    match op {
        ArithOp::Add => (x + y) % modulus(width),
        ArithOp::Sub => (x - y) % modulus(width),
        ArithOp::Imul => (x * y) % modulus(width),
        ArithOp::And => ((x as u64) & (y as u64)) as int,
        ArithOp::Or => ((x as u64) | (y as u64)) as int,
        ArithOp::Xor => ((x as u64) ^ (y as u64)) as int,
    }
}

pub open spec fn arith_float_result(
    math: Math,
    op: ArithFOp,
    width: FWidth,
    x: int,
    y: int,
) -> int {
    match op {
        ArithFOp::Add => (math.add)(width, x, y),
        ArithFOp::Sub => (math.sub)(width, x, y),
        ArithFOp::Mul => (math.mul)(width, x, y),
        ArithFOp::Div => (math.div)(width, x, y),
        ArithFOp::Min => (math.min)(width, x, y),
        ArithFOp::Max => (math.max)(width, x, y),
    }
}

/// The other float width.
pub open spec fn other_width(width: FWidth) -> FWidth {
    match width {
        FWidth::S => FWidth::D,
        FWidth::D => FWidth::S,
    }
}

/// A float with the other sign.
pub open spec fn negated(width: FWidth, x: int) -> int {
    if 2 * x >= float_modulus(width) {
        x - float_modulus(width) / 2
    } else {
        x + float_modulus(width) / 2
    }
}

/// The number as it counts in a checked operation.
pub open spec fn counted(unsigned: bool, width: Width, x: int) -> int {
    if unsigned {
        x
    } else {
        signed(width, x)
    }
}

/// The numbers that a checked result may be, from the first to below the second.
pub open spec fn fits(unsigned: bool, bits: int, x: int) -> bool {
    let top = if bits == 8 {
        0x100int
    } else if bits == 16 {
        0x1_0000
    } else if bits == 32 {
        0x1_0000_0000
    } else {
        0x1_0000_0000_0000_0000
    };
    if unsigned {
        0 <= x < top
    } else {
        -top <= 2 * x < top
    }
}

pub open spec fn width_bytes(width: Width) -> nat {
    match width {
        Width::W32 => 4,
        Width::W64 => 8,
    }
}

pub open spec fn float_bytes(width: FWidth) -> nat {
    match width {
        FWidth::S => 4,
        FWidth::D => 8,
    }
}

/// A number of `size` bytes as a 32-bit one.
pub open spec fn widened(size: u8, keep_sign: bool, x: int) -> int {
    let top = if size == 1 {
        0x100int
    } else {
        0x1_0000
    };
    if keep_sign && 2 * x >= top {
        x - top + modulus(Width::W32)
    } else {
        x
    }
}

/// An address with a displacement.
pub open spec fn displaced(w: World, addr: Src, disp: int) -> int {
    (src_value(w, addr, Width::W64) + disp) % modulus(Width::W64)
}

/// A division of `rdx:rax`. One by zero traps, and so does one whose quotient does not
/// fit: then nothing is said.
pub open spec fn divide_world(w: World, width: Width, x: int, y: int, least: int) -> World {
    if y == 0 || !(least <= quotient(x, y) < least + modulus(width)) {
        arbitrary()
    } else {
        World {
            gpr: w.gpr.insert(Gpr::Rax, quotient(x, y) % modulus(width)).insert(
                Gpr::Rdx,
                remainder(x, y) % modulus(width),
            ),
            ..w
        }
    }
}

pub open spec fn rdx_rax(w: World, width: Width, keep_sign: bool) -> int {
    let high = w.gpr[Gpr::Rdx] % modulus(width);
    (if keep_sign {
        signed(width, high)
    } else {
        high
    }) * modulus(width) + w.gpr[Gpr::Rax] % modulus(width)
}

/// A register of a struct's eightbyte.
pub open spec fn put_eightbyte(w: World, dst: EbReg, v: int) -> World {
    match dst {
        EbReg::Gpr(g) => World { gpr: w.gpr.insert(g, v), ..w },
        EbReg::Xmm(x) => World { xmm: w.xmm.insert(x, v), ..w },
    }
}

pub open spec fn eightbyte_value(w: World, src: EbReg) -> int {
    match src {
        EbReg::Gpr(g) => w.gpr[g],
        EbReg::Xmm(x) => w.xmm[x],
    }
}

/// Follow one descriptor.
#[verifier::opaque]
pub open spec fn step(w: World, inst: Inst) -> End {
    match inst {
        Inst::Mov { width, dst, src } => End::On(put(w, dst, src_value(w, src, width))),
        Inst::ConstF { width, dst, bits } => End::On(
            put_float(w, dst, bits as int % float_modulus(width)),
        ),
        Inst::MovF { width, dst, src } => End::On(put_float(w, dst, float_value(w, src, width))),
        Inst::ArithF { op, width, dst, lhs, rhs } => End::On(
            put_float(
                w,
                dst,
                arith_float_result(
                    w.math,
                    op,
                    width,
                    float_value(w, lhs, width),
                    float_value(w, rhs, width),
                ),
            ),
        ),
        Inst::NegF { width, dst, src } => End::On(
            put_float(w, dst, negated(width, float_value(w, src, width))),
        ),
        Inst::CmpF { width, lhs, rhs } => End::On(
            World {
                flags: float_flags(
                    (w.math.compare)(
                        width,
                        float_value(w, lhs, width),
                        float_value(w, rhs, width),
                    ),
                ),
                ..w
            },
        ),
        Inst::SetccF { op, dst } => End::On(put(w, dst, bit(float_outcome(op, w.flags)))),
        Inst::JccF { op, target } => if float_outcome(op, w.flags) {
            End::To(w, target)
        } else {
            End::On(w)
        },
        Inst::CvtIntToF { width, src_w64, dst, src } => {
            let from = if src_w64 {
                Width::W64
            } else {
                Width::W32
            };
            End::On(
                put_float(w, dst, (w.math.of_int)(width, signed(from, src_value(w, src, from)))),
            )
        },
        Inst::CvtU64ToF { width, dst, src } => End::On(
            put_float(w, dst, (w.math.of_int)(width, src_value(w, src, Width::W64))),
        ),
        Inst::CvtFToInt { src_width, dst_w64, dst, src } => {
            let to = if dst_w64 {
                Width::W64
            } else {
                Width::W32
            };
            End::On(put(w, dst, (w.math.to_int)(src_width, float_value(w, src, src_width), to)))
        },
        Inst::CvtFToF { to, dst, src } => {
            let from = other_width(to);
            End::On(put_float(w, dst, (w.math.convert)(from, to, float_value(w, src, from))))
        },
        Inst::CkFinite { width, dst, src } => {
            let x = float_value(w, src, width);
            if (w.math.finite)(width, x) {
                End::On(put_float(w, dst, x))
            } else {
                End::Throws(w)
            }
        },
        Inst::Lea { dst, addr } => match addr {
            Amode::FrameSlot(l) => End::On(put(w, dst, w.slots[l])),
        },
        Inst::Arith { op, width, dst, lhs, rhs } => End::On(
            put(
                w,
                dst,
                arith_result(op, width, src_value(w, lhs, width), src_value(w, rhs, width)),
            ),
        ),
        Inst::ArithOvf { op, unsigned, width, dst, lhs, rhs } => {
            let x = counted(unsigned, width, src_value(w, lhs, width));
            let y = counted(unsigned, width, src_value(w, rhs, width));
            let exact = match op {
                BinaryOp::Add => x + y,
                BinaryOp::Sub => x - y,
                _ => x * y,
            };
            if fits(unsigned, bits_of(width), exact) {
                End::On(put(w, dst, exact % modulus(width)))
            } else {
                End::Throws(w)
            }
        },
        Inst::ConvOvf { width_src, width_dst, signed_dst, unsigned_src, dst, src } => {
            let x = counted(unsigned_src, width_src, src_value(w, src, width_src));
            if fits(!signed_dst, width_dst as int, x) {
                End::On(put(w, dst, x % modulus(Width::W64)))
            } else {
                End::Throws(w)
            }
        },
        Inst::Cdq { width } => End::On(
            World {
                gpr: w.gpr.insert(
                    Gpr::Rdx,
                    if signed(width, w.gpr[Gpr::Rax] % modulus(width)) < 0 {
                        modulus(width) - 1
                    } else {
                        0
                    },
                ),
                ..w
            },
        ),
        Inst::Idiv { width, divisor } => End::On(
            divide_world(
                w,
                width,
                rdx_rax(w, width, true),
                signed(width, src_value(w, divisor, width)),
                -modulus(width) / 2,
            ),
        ),
        Inst::Div { width, divisor } => End::On(
            divide_world(w, width, rdx_rax(w, width, false), src_value(w, divisor, width), 0),
        ),
        Inst::Shift { op, width, dst, lhs, rhs } => End::On(
            put(
                w,
                dst,
                shift_value(
                    op,
                    width,
                    src_value(w, lhs, width),
                    (src_value(w, rhs, Width::W32) % bits_of(width)) as nat,
                ),
            ),
        ),
        Inst::Unary { op, width, dst, src } => End::On(
            put(
                w,
                dst,
                match op {
                    UnaryOp::Neg => (-src_value(w, src, width)) % modulus(width),
                    UnaryOp::Not => modulus(width) - 1 - src_value(w, src, width),
                },
            ),
        ),
        Inst::Setcc { cc, dst } => End::On(put(w, dst, bit(holds(cc, w.flags)))),
        Inst::MovExt { dst, src, signed: keep } => {
            let x = src_value(w, src, Width::W32);
            End::On(
                put(
                    w,
                    dst,
                    if keep {
                        signed(Width::W32, x) % modulus(Width::W64)
                    } else {
                        x
                    },
                ),
            )
        },
        Inst::Cmp { width, lhs, rhs } => End::On(
            World {
                flags: int_flags(width, src_value(w, lhs, width), src_value(w, rhs, width)),
                ..w
            },
        ),
        Inst::LoadMem { width, dst, addr, disp } => End::On(
            put(w, dst, load(w.bytes, displaced(w, addr, disp as int), width_bytes(width))),
        ),
        Inst::StoreMem { width, addr, disp, src } => End::On(
            World {
                bytes: stored(
                    w.bytes,
                    displaced(w, addr, disp as int),
                    width_bytes(width),
                    src_value(w, src, width),
                ),
                ..w
            },
        ),
        Inst::LoadMemNarrow { size, signed: keep, dst, addr, disp } => End::On(
            put(
                w,
                dst,
                widened(size, keep, load(w.bytes, displaced(w, addr, disp as int), size as nat)),
            ),
        ),
        Inst::StoreMemNarrow { size, addr, disp, src } => End::On(
            World {
                bytes: stored(
                    w.bytes,
                    displaced(w, addr, disp as int),
                    size as nat,
                    src_value(w, src, Width::W32),
                ),
                ..w
            },
        ),
        Inst::LoadMemF { width, dst, addr, disp } => End::On(
            put_float(w, dst, load(w.bytes, displaced(w, addr, disp as int), float_bytes(width))),
        ),
        Inst::StoreMemF { width, addr, disp, src } => End::On(
            World {
                bytes: stored(
                    w.bytes,
                    displaced(w, addr, disp as int),
                    float_bytes(width),
                    float_value(w, src, width),
                ),
                ..w
            },
        ),
        Inst::NullCheck { addr } => if src_value(w, addr, Width::W64) == 0 {
            End::Throws(w)
        } else {
            End::On(w)
        },
        Inst::BoundsCheck { index, index_wide, array } => {
            let i = src_value(
                w,
                index,
                if index_wide {
                    Width::W64
                } else {
                    Width::W32
                },
            );
            if i < (w.length)(src_value(w, array, Width::W64)) {
                End::On(w)
            } else {
                End::Throws(w)
            }
        },
        Inst::Jcc { cc, target } => if holds(cc, w.flags) {
            End::To(w, target)
        } else {
            End::On(w)
        },
        Inst::Jmp { target } => End::To(w, target),
        Inst::CallDirect { .. }
        | Inst::CallHelper { .. }
        | Inst::CallReg { .. }
        | Inst::CallLabel { .. } => End::Calls(w, inst),
        Inst::LoadEightbyte { addr, disp, size, dst } => End::On(
            put_eightbyte(w, dst, load(w.bytes, block_address(w, addr) + disp, size as nat)),
        ),
        Inst::StoreEightbyte { local, offset, size, src } => End::On(
            World {
                bytes: stored(
                    w.bytes,
                    w.slots[local] + offset,
                    size as nat,
                    eightbyte_value(w, src),
                ),
                ..w
            },
        ),
        Inst::StoreStackArg { width, offset, src } => End::On(
            World {
                bytes: stored(
                    w.bytes,
                    w.outgoing + offset,
                    width_bytes(width),
                    src_value(w, src, width),
                ),
                ..w
            },
        ),
        Inst::StoreStackArgF { width, offset, src } => End::On(
            World {
                bytes: stored(
                    w.bytes,
                    w.outgoing + offset,
                    float_bytes(width),
                    float_value(w, src, width),
                ),
                ..w
            },
        ),
        Inst::CopyStackArg { addr, offset, size } => End::On(
            World {
                bytes: copied(
                    w.bytes,
                    w.outgoing + offset,
                    block_address(w, addr),
                    size as int,
                ),
                ..w
            },
        ),
        Inst::BlockCopy { dst, dst_disp, src, size } => End::On(
            World {
                bytes: copied(
                    w.bytes,
                    block_address(w, dst) + dst_disp,
                    block_address(w, src),
                    size as int,
                ),
                ..w
            },
        ),
        Inst::BlockZero { dst, dst_disp, size } => End::On(
            World {
                bytes: filled(w.bytes, block_address(w, dst) + dst_disp, size as int, 0),
                ..w
            },
        ),
        Inst::BlockCopyDyn { dst, src, size } => End::On(
            World {
                bytes: copied(
                    w.bytes,
                    block_address(w, dst),
                    block_address(w, src),
                    src_value(w, size, Width::W64),
                ),
                ..w
            },
        ),
        Inst::BlockFillDyn { dst, fill, size } => End::On(
            World {
                bytes: filled(
                    w.bytes,
                    block_address(w, dst),
                    src_value(w, size, Width::W64),
                    src_value(w, fill, Width::W32) % 256,
                ),
                ..w
            },
        ),
        Inst::LocAlloc { dst, size } => End::On(
            put(w, dst, (w.taken)(src_value(w, size, Width::W64))),
        ),
        Inst::Leave | Inst::Nop => End::On(w),
        Inst::Ret | Inst::FuncletEpilog => End::Returns(w),
        Inst::LeaLabel { dst, target } => End::On(put(w, Place::Reg(dst), (w.places)(target))),
        Inst::Push { .. } | Inst::AllocFrame => End::On(arbitrary()),
    }
}

/// The outcome that the flags of a float comparison stand for.
pub open spec fn float_outcome(op: BinaryOp, flags: Flags) -> bool {
    exists|relation: Relation| #[trigger] float_flags(relation) == flags && float_truth(op, relation)
}

/// Follow descriptors from `at` on, until one leads elsewhere.
pub open spec fn follow(w: World, insts: Seq<Inst>, at: int) -> End
    decreases insts.len() - at,
{
    if at >= insts.len() {
        End::On(w)
    } else {
        match step(w, insts[at]) {
            End::On(next) => follow(next, insts, at + 1),
            end => end,
        }
    }
}

/// The width of the integers and pointers of a type.
pub open spec fn whole(ty: Type) -> Option<Width> {
    match ty {
        Type::Int32 => Some(Width::W32),
        Type::Int64 | Type::NativeInt | Type::Ref | Type::ByRef => Some(Width::W64),
        _ => None,
    }
}

/// The width of the floats of a type.
pub open spec fn fractional(ty: Type) -> Option<FWidth> {
    match ty {
        Type::Float => Some(FWidth::S),
        Type::Double => Some(FWidth::D),
        _ => None,
    }
}

/// The local has a type, and which.
pub open spec fn typed(cx: &Cx, id: LocalId, ty: Type) -> bool {
    id.0 < cx.locals@.len() && cx.locals@[id.0 as int].ty == ty
}

/// The number that a constant stands for; of a float, the bits.
pub open spec fn number(k: Const) -> int {
    match k {
        Const::Int32(v) => v as int,
        Const::Int64(v) => v as int,
        Const::NativeInt(v) => v as int,
        Const::NullRef => 0,
        Const::FrozenRef(v) => v as int,
        Const::Float(v) => v as int,
        Const::Double(v) => v as int,
    }
}

pub open spec fn type_of_const(k: Const) -> Type {
    match k {
        Const::Int32(_) => Type::Int32,
        Const::Int64(_) => Type::Int64,
        Const::NativeInt(_) => Type::NativeInt,
        Const::NullRef | Const::FrozenRef(_) => Type::Ref,
        Const::Float(_) => Type::Float,
        Const::Double(_) => Type::Double,
    }
}

/// The type of an operand.
pub open spec fn type_of_operand(cx: &Cx, op: Operand) -> Type {
    match op {
        Operand::Temp(id) | Operand::Local(id) => cx.locals@[id.0 as int].ty,
        Operand::Const(k) => type_of_const(k),
        Operand::AddrOf(_) => Type::ByRef,
    }
}

/// The number that an operand stands for.
pub open spec fn operand_number(w: World, op: Operand) -> int {
    match op {
        Operand::Temp(id) | Operand::Local(id) => w.vals[id],
        Operand::Const(k) => number(k),
        Operand::AddrOf(l) => w.slots[l],
    }
}

/// The operand, as a number of a width.
pub open spec fn read(w: World, op: Operand, width: Width) -> int {
    operand_number(w, op) % modulus(width)
}

/// The operand, as the bits of a float of a width.
pub open spec fn read_float(w: World, op: Operand, width: FWidth) -> int {
    operand_number(w, op) % float_modulus(width)
}

/// The operand, as an address.
pub open spec fn pointer(w: World, op: Operand) -> int {
    match op {
        Operand::AddrOf(l) => w.slots[l],
        _ => operand_number(w, op) % modulus(Width::W64),
    }
}

/// The local got a value, and nothing else that outlives a statement changed: no other
/// local and no memory.
pub open spec fn sets(w: World, end: End, dst: LocalId, v: int) -> bool {
    match end {
        End::On(after) => {
            &&& after.vals == w.vals.insert(dst, v)
            &&& after.bytes == w.bytes
            &&& after.slots == w.slots
            &&& after.outgoing == w.outgoing
        },
        _ => false,
    }
}

/// The memory is as given, and no local changed.
pub open spec fn leaves(w: World, end: End, bytes: spec_fn(int) -> int) -> bool {
    match end {
        End::On(after) => {
            &&& after.vals == w.vals
            &&& after.bytes == bytes
            &&& after.slots == w.slots
            &&& after.outgoing == w.outgoing
        },
        _ => false,
    }
}

/// Nothing that outlives a statement changed.
pub open spec fn undisturbed(w: World, after: World) -> bool {
    &&& after.vals == w.vals
    &&& after.bytes == w.bytes
    &&& after.slots == w.slots
    &&& after.outgoing == w.outgoing
}

} // verus!
