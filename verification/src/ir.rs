//! The linear form of a method that the backend compiles: blocks of
//! statements whose operands are locals, temporaries and constants.

use std::collections::HashMap;
use vstd::prelude::*;

verus! {

broadcast use vstd::std_specs::hash::group_hash_axioms;

/// A method of the execution engine.
#[derive(Clone, Copy, PartialEq, Eq, Structural, Debug)]
pub struct MethodHandle(pub u64);

/// A class of the execution engine.
#[derive(Clone, Copy, PartialEq, Eq, Structural, Debug)]
pub struct ClassHandle(pub u64);

/// A runtime helper of the execution engine.
#[derive(Clone, Copy, PartialEq, Eq, Structural, Debug)]
pub enum CorInfoHelpFunc {
    Throw,
    Rethrow,
    /// `float` remainder.
    Fltrem,
    /// `double` remainder.
    Dblrem,
    TypehandleToRuntimetypehandle,
    /// Any other helper, by its number.
    Other(u32),
}

/// The type of a value.
#[derive(Clone, Copy, PartialEq, Eq, Structural, Debug)]
pub enum Type {
    Int32,
    Int64,
    NativeInt,
    /// A GC reference.
    Ref,
    /// An interior GC pointer.
    ByRef,
    Float,
    Double,
    Struct(ClassHandle),
    Void,
}

#[derive(Clone, Copy, PartialEq, Eq, Structural, Debug)]
pub enum BinaryOp {
    Add,
    Sub,
    Mul,
    Div,
    Rem,
    UDiv,
    URem,
    And,
    Or,
    Xor,
    Shl,
    /// Shift right, keeping the sign.
    Shr,
    /// Shift right, filling with zeros.
    UShr,
    MinF,
    MaxF,
    Eq,
    Ne,
    Lt,
    Le,
    Gt,
    Ge,
    ULt,
    ULe,
    UGt,
    UGe,
}

#[derive(Clone, Copy, PartialEq, Eq, Structural, Debug)]
pub enum UnaryOp {
    Neg,
    Not,
}

/// A local, an argument or a temporary, by its index in [`Method::locals`].
#[derive(Clone, Copy, PartialEq, Eq, Structural, Debug)]
pub struct LocalId(pub u32);

#[derive(Clone, Copy, PartialEq, Eq, Structural, Debug)]
pub struct BlockId(pub u32);

/// A branch target: the start of a block.
#[derive(Clone, Copy, PartialEq, Eq, Structural, Debug)]
pub struct Label(pub BlockId);

/// A value that has no register or slot yet.
#[derive(Clone, Copy, PartialEq, Eq, Structural, Debug)]
pub struct Val(pub LocalId);

/// A constant. A float is given by its bit pattern.
#[derive(Clone, Copy, PartialEq, Eq, Structural, Debug)]
pub enum Const {
    Int32(i32),
    Int64(i64),
    NativeInt(i64),
    NullRef,
    /// The address of an object that does not move.
    FrozenRef(u64),
    Float(u32),
    Double(u64),
}

/// The cell that a load or a store touches: that of the value's own type, or a
/// narrower one.
#[derive(Clone, Copy, PartialEq, Eq, Structural, Debug)]
pub enum MemAccess {
    Natural,
    I8,
    U8,
    I16,
    U16,
}

impl MemAccess {
    /// The size of a narrow cell.
    pub open spec fn narrow_size(self) -> Option<u8> {
        match self {
            MemAccess::Natural => None,
            MemAccess::I8 | MemAccess::U8 => Some(1),
            MemAccess::I16 | MemAccess::U16 => Some(2),
        }
    }

    /// A load from the cell keeps the sign.
    pub open spec fn signed(self) -> bool {
        self is I8 || self is I16
    }

    #[verifier::when_used_as_spec(narrow_size)]
    pub fn narrow_bytes(self) -> (n: Option<u8>)
        ensures
            n == self.narrow_size(),
    {
        match self {
            MemAccess::Natural => None,
            MemAccess::I8 | MemAccess::U8 => Some(1),
            MemAccess::I16 | MemAccess::U16 => Some(2),
        }
    }

    #[verifier::when_used_as_spec(signed)]
    pub fn sign_extends(self) -> (b: bool)
        ensures
            b == self.signed(),
    {
        matches!(self, MemAccess::I8 | MemAccess::I16)
    }
}

/// What a statement reads.
#[derive(Clone, Copy, PartialEq, Eq, Structural, Debug)]
pub enum Operand {
    Temp(LocalId),
    Local(LocalId),
    Const(Const),
    /// The address of a local.
    AddrOf(LocalId),
}

#[derive(Clone, Copy, PartialEq, Eq, Structural, Debug)]
pub enum BranchCond {
    Cmp { op: BinaryOp, lhs: Operand, rhs: Operand },
    /// The operand is not zero.
    True(Operand),
    /// The operand is zero.
    False(Operand),
}

/// The signature of a call.
#[derive(PartialEq, Eq, Debug)]
pub struct CallSig {
    pub ret: Type,
    /// The arguments behind the receiver.
    pub args: Vec<Type>,
    pub has_this: bool,
}

/// Two signatures say the same.
pub open spec fn same_sig(a: CallSig, b: CallSig) -> bool {
    a.ret == b.ret && a.args@ == b.args@ && a.has_this == b.has_this
}

impl CallSig {
    /// A signature that says the same.
    pub fn copy(&self) -> (sig: CallSig)
        ensures
            same_sig(sig, *self),
    {
        let mut args: Vec<Type> = Vec::new();
        let mut n: usize = 0;
        while n < self.args.len()
            invariant
                n <= self.args.len(),
                args@ == self.args@.take(n as int),
            decreases self.args.len() - n,
        {
            args.push(self.args[n]);
            n = n + 1;
            assert(args@ =~= self.args@.take(n as int));
        }
        assert(args@ =~= self.args@);
        CallSig { ret: self.ret, args, has_this: self.has_this }
    }
}

#[derive(Clone, Copy, PartialEq, Eq, Structural, Debug)]
pub enum CallTarget {
    Direct(MethodHandle),
    Virtual { method: MethodHandle },
    Helper(CorInfoHelpFunc),
    /// Through a pointer.
    Indirect(Operand),
}

/// One statement.
#[derive(Debug)]
#[allow(inconsistent_fields)]
pub enum StmtKind {
    Copy { dst: LocalId, src: Operand },
    Load { dst: LocalId, addr: Operand, offset: u32, ty: Type, access: MemAccess },
    Store { addr: Operand, offset: u32, src: Operand, access: MemAccess },
    NullCheck { arg: Operand },
    BoundsCheck { array: Operand, index: Operand },
    ArrLen { dst: LocalId, array: Operand },
    Binary { dst: LocalId, op: BinaryOp, lhs: Operand, rhs: Operand },
    BinaryOvf { dst: LocalId, op: BinaryOp, unsigned: bool, lhs: Operand, rhs: Operand },
    Unary { dst: LocalId, op: UnaryOp, src: Operand },
    Conv { dst: LocalId, to: Type, overflow: bool, unsigned: bool, src: Operand },
    ConvOvf { dst: LocalId, dst_bits: u8, signed_dst: bool, unsigned_src: bool, src: Operand },
    CkFinite { dst: LocalId, src: Operand },
    Branch { cond: BranchCond, target: BlockId },
    Jump { target: BlockId },
    Switch { value: Operand, targets: Vec<BlockId>, default: BlockId },
    Call { dst: Option<LocalId>, target: CallTarget, sig: CallSig, args: Vec<Operand> },
    Throw { exception: Operand },
    Rethrow,
    Leave { target: BlockId },
    CallFinally { funclet: BlockId, continuation: BlockId },
    CatchArg { dst: LocalId },
    EndFinally,
    BlockCopy { dst_addr: Operand, dst_offset: u32, src_addr: Operand, class: ClassHandle },
    BlockZero { dst_addr: Operand, class: ClassHandle },
    BlockCopyDyn { dst_addr: Operand, src_addr: Operand, size: Operand },
    BlockFillDyn { dst_addr: Operand, fill: Operand, size: Operand },
    LocAlloc { dst: LocalId, size: Operand },
    ReturnStruct { addr: Operand, class: ClassHandle },
    Return { value: Option<Operand> },
}

#[derive(Debug)]
pub struct Stmt {
    pub kind: StmtKind,
}

#[derive(Debug)]
pub struct Block {
    pub id: BlockId,
    pub stmts: Vec<Stmt>,
}

/// Where a local comes from.
#[derive(Clone, Copy, PartialEq, Eq, Structural, Debug)]
pub enum LocalKind {
    IlArg(u32),
    IlLocal(u32),
    Temp,
}

#[derive(Clone, Copy, PartialEq, Eq, Structural, Debug)]
pub struct Local {
    pub ty: Type,
    pub kind: LocalKind,
    pub pinned: bool,
}

/// How the calling convention classes an eightbyte of a struct.
#[derive(Clone, Copy, PartialEq, Eq, Structural, Debug)]
pub enum SysVClass {
    Integer,
    IntegerRef,
    IntegerByRef,
    Sse,
}

impl SysVClass {
    pub fn is_sse(self) -> (b: bool)
        ensures
            b == (self is Sse),
    {
        matches!(self, SysVClass::Sse)
    }
}

/// Eight bytes of a struct, or the rest of it.
#[derive(Clone, Copy, PartialEq, Eq, Structural, Debug)]
pub struct Eightbyte {
    pub class: SysVClass,
    pub size: u8,
    pub offset: u8,
}

/// The eightbytes of a struct that is small enough for registers.
#[derive(Clone, Copy, PartialEq, Eq, Structural, Debug)]
pub enum Eightbytes {
    Zero,
    One(Eightbyte),
    Two(Eightbyte, Eightbyte),
}

/// How the calling convention passes a struct.
#[derive(Clone, Copy, PartialEq, Eq, Structural, Debug)]
pub struct SysVPass {
    pub passed_in_registers: bool,
    pub eightbytes: Eightbytes,
}

#[derive(Clone, Copy, PartialEq, Eq, Structural, Debug)]
pub struct StructLayout {
    pub size: u32,
    pub align: u32,
    pub sysv: SysVPass,
}

/// The layouts of the structs that a method uses.
pub struct StructLayouts {
    by_class: HashMap<u64, StructLayout>,
}

impl View for StructLayouts {
    type V = Map<u64, StructLayout>;

    closed spec fn view(&self) -> Map<u64, StructLayout> {
        self.by_class@
    }
}

impl StructLayouts {
    pub fn new() -> (layouts: StructLayouts)
        ensures
            layouts@ == Map::<u64, StructLayout>::empty(),
    {
        StructLayouts { by_class: HashMap::new() }
    }

    pub fn insert(&mut self, class: ClassHandle, layout: StructLayout)
        ensures
            final(self)@ == old(self)@.insert(class.0, layout),
    {
        self.by_class.insert(class.0, layout);
    }

    /// The layout of a class, if it is known.
    pub open spec fn layout_of(self, class: ClassHandle) -> Option<StructLayout> {
        if self@.contains_key(class.0) {
            Some(self@[class.0])
        } else {
            None
        }
    }

    pub fn get(&self, class: ClassHandle) -> (layout: Option<StructLayout>)
        ensures
            layout == self.layout_of(class),
    {
        match self.by_class.get(&class.0) {
            Some(layout) => Some(*layout),
            None => None,
        }
    }
}

/// A method. Its locals are the arguments, then the IL locals, then the
/// temporaries.
pub struct Method {
    pub blocks: Vec<Block>,
    pub locals: Vec<Local>,
    pub num_args: u32,
    pub num_il_locals: u32,
    pub struct_layouts: StructLayouts,
}

} // verus!
