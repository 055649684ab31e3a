use rokajit_x64::abi::classify_call;
use rokajit_x64::artifact::{ChunkRef, CodegenOutput, RelocType};
use rokajit_x64::bind::{
    Exclude, Loc, Lookup, Move, ReadSrc, Reply, Request, Stop, FIRST_SYNTHETIC_LABEL,
};
use rokajit_x64::codegen::{emit_tier0, Emitter, SCRATCH_GPRS};
use rokajit_x64::error::CompileError;
use rokajit_x64::frame::FrameLayout;
use rokajit_x64::ir::{
    BinaryOp, Block, BlockId, BranchCond, CallSig, CallTarget, ClassHandle, Const, CorInfoHelpFunc,
    Local, LocalId, LocalKind, Method, MethodHandle, Operand, Stmt, StmtKind, StructLayouts, Type,
    UnaryOp,
};
use rokajit_x64::metadata::{CorJitFuncKind, GcInfoInput, GcRootSlot, UnwindInput};
use rokajit_x64::regs::{Gpr, Xmm};
use rokajit_x64::target::{ArgLocation, PhysReg};
use rokajit_x64::X64Target;
use std::collections::HashMap;

fn local(ty: Type, kind: LocalKind) -> Local {
    Local {
        ty,
        kind,
        pinned: false,
    }
}

fn int_arg(i: u32) -> Local {
    local(Type::Int32, LocalKind::IlArg(i))
}

fn int_temp() -> Local {
    local(Type::Int32, LocalKind::Temp)
}

fn stmt(kind: StmtKind) -> Stmt {
    Stmt {
        kind,
    }
}

fn block(id: u32, stmts: Vec<Stmt>) -> Block {
    Block {
        id: BlockId(id),
        stmts,
    }
}

fn method(
    locals: Vec<Local>,
    num_args: u32,
    num_il_locals: u32,
    blocks: Vec<Block>,
) -> Method {
    Method {
        blocks,
        locals,
        num_args,
        num_il_locals,
        struct_layouts: StructLayouts::new(),
    }
}

fn handle(raw: u64) -> MethodHandle {
    MethodHandle(raw)
}

fn int_sig() -> CallSig {
    CallSig {
        ret: Type::Int32,
        args: vec![Type::Int32],
        has_this: false,
    }
}

/// The execution engine's answers.
#[derive(Default)]
struct MockEe {
    entry_points: HashMap<u64, u64>,
    entry_point_slots: HashMap<u64, u64>,
}

/// Where the values of a method are: arguments and IL locals in their slots,
/// temporaries in a scratch register, a slot, another local, or nowhere.
struct Values<'a> {
    method: &'a Method,
    ee: &'a MockEe,
    slots: Vec<u32>,
    places: Vec<Loc>,
    cursor: usize,
}

impl<'a> Values<'a> {
    fn new(method: &'a Method, ee: &'a MockEe, slots: Vec<u32>) -> Values<'a> {
        let places = slots.iter().map(|s| Loc::Mem(*s)).collect();
        Values {
            method,
            ee,
            slots,
            places,
            cursor: 0,
        }
    }

    fn ty(&self, id: usize) -> Type {
        self.method.locals[id].ty
    }

    fn holder(&self, reg: PhysReg) -> Option<usize> {
        self.places.iter().position(|p| *p == Loc::Reg(reg))
    }

    fn spill(&mut self, id: usize, reg: PhysReg) -> Move {
        let slot = self.slots[id];
        self.places[id] = Loc::Mem(slot);
        Move::Spill {
            reg,
            slot,
            ty: self.ty(id),
        }
    }

    fn clobber(&mut self, reg: PhysReg) -> Vec<Move> {
        match self.holder(reg) {
            Some(id) => vec![self.spill(id, reg)],
            None => Vec::new(),
        }
    }

    fn take_scratch(&mut self, exclude: &[PhysReg]) -> (PhysReg, Vec<Move>) {
        let order: Vec<usize> = (0..SCRATCH_GPRS.len())
            .map(|i| (self.cursor + i) % SCRATCH_GPRS.len())
            .filter(|i| !exclude.contains(&SCRATCH_GPRS[*i].phys()))
            .collect();
        let free = order
            .iter()
            .find(|i| self.holder(SCRATCH_GPRS[**i].phys()).is_none());
        let at = *free.unwrap_or(&order[0]);
        self.cursor = (at + 1) % SCRATCH_GPRS.len();
        let reg = SCRATCH_GPRS[at].phys();
        (reg, self.clobber(reg))
    }

    fn spill_registers(&mut self) -> Vec<Move> {
        let mut moves = Vec::new();
        for g in SCRATCH_GPRS {
            moves.extend(self.clobber(g.phys()));
        }
        moves
    }

    /// Give a value that is a constant or lies in another local a slot's worth
    /// of its own.
    fn settle(&mut self, id: usize) -> Vec<Move> {
        let ty = self.ty(id);
        let place = self.places[id];
        match place {
            Loc::Const(imm) => {
                let (reg, mut moves) = self.take_scratch(&[]);
                moves.push(Move::Remat { imm, reg, ty });
                moves.push(self.spill(id, reg));
                moves
            }
            Loc::Local(l) => {
                let (reg, mut moves) = self.take_scratch(&[]);
                moves.push(Move::Reload {
                    slot: self.slots[l.0 as usize],
                    ty,
                    reg,
                });
                moves.push(self.spill(id, reg));
                moves
            }
            Loc::Reg(_) | Loc::Mem(_) => Vec::new(),
        }
    }

    fn answer(&mut self, request: Request) -> Reply {
        match request {
            Request::Clobber(reg) => Reply::Moves(self.clobber(reg)),
            Request::TakeScratch(exclude) => {
                let exclude = match exclude {
                    Exclude::Nothing => vec![],
                    Exclude::One(a) => vec![a],
                    Exclude::Two(a, b) => vec![a, b],
                };
                let (reg, moves) = self.take_scratch(&exclude);
                Reply::Scratch { reg, moves }
            }
            Request::Read(id) => Reply::Source(match self.places[id.0 as usize] {
                Loc::Reg(reg) => ReadSrc::Reg(reg),
                Loc::Mem(slot) => ReadSrc::Slot(slot),
                Loc::Local(l) => ReadSrc::Slot(self.slots[l.0 as usize]),
                Loc::Const(imm) => ReadSrc::Imm(imm),
            }),
            Request::Define(id, place) => {
                self.places[id.0 as usize] = place;
                Reply::Moves(Vec::new())
            }
            Request::BeforeLocalWrite(local) => {
                let mut moves = Vec::new();
                for id in 0..self.places.len() {
                    if self.places[id] == Loc::Local(local) {
                        moves.extend(self.settle(id));
                    }
                }
                Reply::Moves(moves)
            }
            Request::SpillRegisters => Reply::Moves(self.spill_registers()),
            Request::SpillAll => {
                let mut moves = self.spill_registers();
                for id in 0..self.places.len() {
                    moves.extend(self.settle(id));
                }
                Reply::Moves(moves)
            }
            Request::Reset => {
                self.places = self.slots.iter().map(|s| Loc::Mem(*s)).collect();
                Reply::Done
            }
            Request::EntryPoint(m) => Reply::Target(Lookup {
                addr: self.ee.entry_points.get(&m.0).copied(),
                slot: self.ee.entry_point_slots.get(&m.0).copied(),
            }),
            Request::HelperEntry(_) => Reply::Target(Lookup {
                addr: Some(0x7000),
                slot: None,
            }),
        }
    }
}

fn gc_roots(m: &Method, slots: &[u32]) -> Vec<GcRootSlot> {
    let mut roots = Vec::new();
    for (i, l) in m.locals.iter().enumerate() {
        if matches!(l.ty, Type::Ref | Type::ByRef) {
            roots.push(GcRootSlot {
                offset: slots[i],
                is_byref: l.ty == Type::ByRef,
                pinned: l.pinned,
            });
        }
    }
    roots
}

fn try_emit(m: &Method, ee: &MockEe) -> Result<CodegenOutput, Stop> {
    let layout = FrameLayout::compute(m).map_err(Stop::Fail)?;
    let roots = gc_roots(m, &layout.slots);
    let mut values = Values::new(m, ee, layout.slots);
    let mut emitter = Emitter::new(m).map_err(Stop::Fail)?;
    while let Err(stop) = emitter.advance() {
        match stop {
            Stop::Ask(request) => emitter.reply(values.answer(request)),
            Stop::Fail(_) => return Err(stop),
        }
    }
    emitter.finish(roots)
}

fn emit(m: &Method, ee: &MockEe) -> CodegenOutput {
    try_emit(m, ee).expect("emits")
}

#[test]
fn classify_assigns_int_arg_registers_in_order() {
    let sig = CallSig {
        ret: Type::Int32,
        args: vec![Type::Int32, Type::Ref, Type::Int64],
        has_this: false,
    };
    let abi = classify_call(&sig, &StructLayouts::new()).expect("classifies");
    assert_eq!(
        abi.args,
        vec![
            ArgLocation::Reg(Gpr::Rdi.phys()),
            ArgLocation::Reg(Gpr::Rsi.phys()),
            ArgLocation::Reg(Gpr::Rdx.phys()),
        ]
    );
    assert_eq!(abi.ret, Some(ArgLocation::Reg(Gpr::Rax.phys())));
    assert_eq!(abi.stack_arg_bytes, 0);
}

#[test]
fn classify_places_this_first_and_floats_in_xmm() {
    let sig = CallSig {
        ret: Type::Float,
        args: vec![Type::Int32, Type::Double],
        has_this: true,
    };
    let abi = classify_call(&sig, &StructLayouts::new()).expect("classifies");
    assert_eq!(
        abi.args,
        vec![
            ArgLocation::Reg(Gpr::Rdi.phys()),
            ArgLocation::Reg(Gpr::Rsi.phys()),
            ArgLocation::Reg(Xmm::Xmm0.phys()),
        ]
    );
    assert_eq!(abi.ret, Some(ArgLocation::Reg(Xmm::Xmm0.phys())));
}

#[test]
fn classify_overflows_to_the_stack_and_void_has_no_return() {
    let sig = CallSig {
        ret: Type::Void,
        args: vec![Type::Int32; 8],
        has_this: false,
    };
    let abi = classify_call(&sig, &StructLayouts::new()).expect("classifies");
    assert_eq!(abi.args[5], ArgLocation::Reg(Gpr::R9.phys()));
    assert_eq!(abi.args[6], ArgLocation::Stack { offset: 0 });
    assert_eq!(abi.args[7], ArgLocation::Stack { offset: 8 });
    assert_eq!(abi.stack_arg_bytes, 16, "16-aligned outgoing area");
    assert_eq!(abi.ret, None);
}

#[test]
fn frame_slots_are_naturally_aligned_and_the_frame_is_16_aligned() {
    let m = method(
        vec![
            local(Type::Int32, LocalKind::IlArg(0)),
            local(Type::Int64, LocalKind::IlLocal(0)),
            int_temp(),
        ],
        1,
        1,
        vec![],
    );
    let layout = FrameLayout::compute(&m).expect("layout");
    assert_eq!(layout.slots, vec![4, 16, 20]);
    assert_eq!(layout.frame_size, 32);
}

#[test]
fn struct_locals_are_rejected_at_frame_layout() {
    let class = ClassHandle(1);
    let m = method(
        vec![local(Type::Struct(class), LocalKind::IlLocal(0))],
        0,
        1,
        vec![],
    );
    assert!(matches!(
        FrameLayout::compute(&m),
        Err(CompileError::Unsupported(_))
    ));
}

#[test]
fn identity_method_bytes() {
    let m = method(
        vec![int_arg(0)],
        1,
        0,
        vec![block(
            0,
            vec![stmt(StmtKind::Return {
                value: Some(Operand::Local(LocalId(0))),
            })],
        )],
    );
    let out = emit(&m, &MockEe::default());
    let expected: &[u8] = &[
        0x55,
        0x48, 0x89, 0xE5,
        0x48, 0x83, 0xEC, 0x10,
        0x89, 0x7D, 0xFC,
        0x8B, 0x45, 0xFC,
        0xC9,
        0xC3,
    ];
    assert_eq!(out.code.hot.bytes, expected);
    assert_eq!(out.code.hot.alignment, 16);
    assert!(out.code.cold.is_none());
    assert_eq!(out.frame.frame_size, 16);
    assert!(out.frame.gc_roots.is_empty());
    assert!(out.relocations.is_empty() && out.call_sites.is_empty());
}

#[test]
fn call_method_bytes_and_alignment() {
    let f = handle(0xF00);
    let mut ee = MockEe::default();
    ee.entry_points.insert(0xF00, 0x5000);
    let m = method(
        vec![int_arg(0), int_temp(), int_temp()],
        1,
        0,
        vec![block(
            0,
            vec![
                stmt(StmtKind::Binary {
                    dst: LocalId(1),
                    op: BinaryOp::Sub,
                    lhs: Operand::Local(LocalId(0)),
                    rhs: Operand::Const(Const::Int32(1)),
                }),
                stmt(StmtKind::Call {
                    dst: Some(LocalId(2)),
                    target: CallTarget::Direct(f),
                    sig: int_sig(),
                    args: vec![Operand::Temp(LocalId(1))],
                }),
                stmt(StmtKind::Return {
                    value: Some(Operand::Temp(LocalId(2))),
                }),
            ],
        )],
    );
    let out = emit(&m, &ee);
    let expected: &[u8] = &[
        0x55,
        0x48, 0x89, 0xE5,
        0x48, 0x83, 0xEC, 0x10,
        0x89, 0x7D, 0xFC,
        0x8B, 0x45, 0xFC,
        0x83, 0xE8, 0x01,
        0x89, 0xC7,
        0x89, 0x45, 0xF8,
        0xE8, 0, 0, 0, 0,
        0x89, 0x45, 0xF4,
        0x8B, 0x45, 0xF4,
        0xC9,
        0xC3,
    ];
    assert_eq!(out.code.hot.bytes, expected);

    assert_eq!(out.frame.frame_size % 16, 0);
    assert_eq!((8 + 8 + out.frame.frame_size) % 16, 0);

    assert_eq!(out.call_sites.len(), 1);
    assert_eq!(out.call_sites[0].chunk, ChunkRef::HotCode);
    assert_eq!(out.call_sites[0].offset, 22, "the E8 opcode offset");
    assert_eq!(out.call_sites[0].method, Some(f));
    assert_eq!(out.call_sites[0].sig, Some(int_sig()));
    assert_eq!(out.relocations.len(), 1);
    assert_eq!(out.relocations[0].chunk, ChunkRef::HotCode);
    assert_eq!(out.relocations[0].offset, 23, "the rel32 field");
    assert_eq!(out.relocations[0].target, 0x5000);
    assert_eq!(out.relocations[0].reloc_type, RelocType::Relative32);
}

#[test]
fn indirect_call_method_bytes() {
    let f = handle(0xF00);
    let mut ee = MockEe::default();
    ee.entry_point_slots.insert(0xF00, 0x9000);
    let m = method(
        vec![int_arg(0), int_temp(), int_temp()],
        1,
        0,
        vec![block(
            0,
            vec![
                stmt(StmtKind::Binary {
                    dst: LocalId(1),
                    op: BinaryOp::Sub,
                    lhs: Operand::Local(LocalId(0)),
                    rhs: Operand::Const(Const::Int32(1)),
                }),
                stmt(StmtKind::Call {
                    dst: Some(LocalId(2)),
                    target: CallTarget::Direct(f),
                    sig: int_sig(),
                    args: vec![Operand::Temp(LocalId(1))],
                }),
                stmt(StmtKind::Return {
                    value: Some(Operand::Temp(LocalId(2))),
                }),
            ],
        )],
    );
    let out = emit(&m, &ee);
    let expected: &[u8] = &[
        0x55,
        0x48, 0x89, 0xE5,
        0x48, 0x83, 0xEC, 0x10,
        0x89, 0x7D, 0xFC,
        0x8B, 0x45, 0xFC,
        0x83, 0xE8, 0x01,
        0x89, 0xC7,
        0x89, 0x45, 0xF8,
        0xFF, 0x15, 0, 0, 0, 0,
        0x89, 0x45, 0xF4,
        0x8B, 0x45, 0xF4,
        0xC9,
        0xC3,
    ];
    assert_eq!(out.code.hot.bytes, expected);

    assert_eq!(out.call_sites.len(), 1);
    assert_eq!(out.call_sites[0].offset, 22, "the FF opcode offset");
    assert_eq!(out.call_sites[0].size, 6);
    assert_eq!(out.relocations.len(), 1);
    assert_eq!(out.relocations[0].offset, 24, "the disp32 field");
    assert_eq!(out.relocations[0].target, 0x9000, "the slot, not the entry");
    assert_eq!(out.relocations[0].reloc_type, RelocType::Relative32);
}

#[test]
fn branch_join_has_deterministic_spill_state() {
    let m = method(
        vec![int_arg(0), int_arg(1), int_temp()],
        2,
        0,
        vec![
            block(
                0,
                vec![
                    stmt(StmtKind::Binary {
                        dst: LocalId(2),
                        op: BinaryOp::Add,
                        lhs: Operand::Local(LocalId(0)),
                        rhs: Operand::Const(Const::Int32(1)),
                    }),
                    stmt(StmtKind::Branch {
                        cond: BranchCond::Cmp {
                            op: BinaryOp::Lt,
                            lhs: Operand::Local(LocalId(0)),
                            rhs: Operand::Local(LocalId(1)),
                        },
                        target: BlockId(2),
                    }),
                ],
            ),
            block(
                1,
                vec![stmt(StmtKind::Return {
                    value: Some(Operand::Temp(LocalId(2))),
                })],
            ),
            block(
                2,
                vec![stmt(StmtKind::Return {
                    value: Some(Operand::Temp(LocalId(2))),
                })],
            ),
        ],
    );
    let out = emit(&m, &MockEe::default());
    let expected: &[u8] = &[
        0x55,
        0x48, 0x89, 0xE5,
        0x48, 0x83, 0xEC, 0x10,
        0x89, 0x7D, 0xFC,
        0x89, 0x75, 0xF8,
        0x8B, 0x45, 0xFC,
        0x83, 0xC0, 0x01,
        0x89, 0x45, 0xF4,
        0x8B, 0x4D, 0xFC,
        0x3B, 0x4D, 0xF8,
        0x0F, 0x8C, 0x05, 0, 0, 0,
        0x8B, 0x45, 0xF4,
        0xC9, 0xC3,
        0x8B, 0x45, 0xF4,
        0xC9, 0xC3,
    ];
    assert_eq!(out.code.hot.bytes, expected);
    assert_eq!(out.code.hot.bytes.len(), 45);
    assert_eq!(out.code.hot.bytes[35..40], out.code.hot.bytes[40..45]);
}

#[test]
fn compare_value_method_bytes() {
    let m = method(
        vec![int_arg(0), int_arg(1), int_temp()],
        2,
        0,
        vec![block(
            0,
            vec![
                stmt(StmtKind::Binary {
                    dst: LocalId(2),
                    op: BinaryOp::Lt,
                    lhs: Operand::Local(LocalId(0)),
                    rhs: Operand::Local(LocalId(1)),
                }),
                stmt(StmtKind::Return {
                    value: Some(Operand::Temp(LocalId(2))),
                }),
            ],
        )],
    );
    let out = emit(&m, &MockEe::default());
    let expected: &[u8] = &[
        0x55,
        0x48, 0x89, 0xE5,
        0x48, 0x83, 0xEC, 0x10,
        0x89, 0x7D, 0xFC,
        0x89, 0x75, 0xF8,
        0x8B, 0x45, 0xFC,
        0x3B, 0x45, 0xF8,
        0xB9, 0, 0, 0, 0,
        0x0F, 0x9C, 0xC1,
        0x89, 0xC8,
        0xC9, 0xC3,
    ];
    assert_eq!(out.code.hot.bytes, expected);
}

#[test]
fn udiv_method_bytes() {
    let m = method(
        vec![int_arg(0), int_temp()],
        1,
        0,
        vec![block(
            0,
            vec![
                stmt(StmtKind::Binary {
                    dst: LocalId(1),
                    op: BinaryOp::UDiv,
                    lhs: Operand::Local(LocalId(0)),
                    rhs: Operand::Const(Const::Int32(3)),
                }),
                stmt(StmtKind::Return {
                    value: Some(Operand::Temp(LocalId(1))),
                }),
            ],
        )],
    );
    let out = emit(&m, &MockEe::default());
    let expected: &[u8] = &[
        0x55,
        0x48, 0x89, 0xE5,
        0x48, 0x83, 0xEC, 0x10,
        0x89, 0x7D, 0xFC,
        0x8B, 0x45, 0xFC,
        0xBA, 0, 0, 0, 0,
        0xB9, 0x03, 0, 0, 0,
        0xF7, 0xF1,
        0x89, 0x45, 0xF8,
        0x8B, 0x45, 0xF8,
        0xC9, 0xC3,
    ];
    assert_eq!(out.code.hot.bytes, expected);
}

#[test]
fn shift_by_cl_method_bytes() {
    let m = method(
        vec![int_arg(0), int_arg(1), int_temp()],
        2,
        0,
        vec![block(
            0,
            vec![
                stmt(StmtKind::Binary {
                    dst: LocalId(2),
                    op: BinaryOp::Shl,
                    lhs: Operand::Local(LocalId(0)),
                    rhs: Operand::Local(LocalId(1)),
                }),
                stmt(StmtKind::Return {
                    value: Some(Operand::Temp(LocalId(2))),
                }),
            ],
        )],
    );
    let out = emit(&m, &MockEe::default());
    let expected: &[u8] = &[
        0x55,
        0x48, 0x89, 0xE5,
        0x48, 0x83, 0xEC, 0x10,
        0x89, 0x7D, 0xFC,
        0x89, 0x75, 0xF8,
        0x8B, 0x45, 0xFC,
        0x8B, 0x4D, 0xF8,
        0xD3, 0xE0,
        0x89, 0x45, 0xF4,
        0x8B, 0x45, 0xF4,
        0xC9, 0xC3,
    ];
    assert_eq!(out.code.hot.bytes, expected);
}

#[test]
fn conv_u8_method_bytes() {
    let m = method(
        vec![int_arg(0), local(Type::Int64, LocalKind::Temp)],
        1,
        0,
        vec![block(
            0,
            vec![
                stmt(StmtKind::Conv {
                    dst: LocalId(1),
                    to: Type::Int64,
                    overflow: false,
                    unsigned: true,
                    src: Operand::Local(LocalId(0)),
                }),
                stmt(StmtKind::Return {
                    value: Some(Operand::Temp(LocalId(1))),
                }),
            ],
        )],
    );
    let out = emit(&m, &MockEe::default());
    let expected: &[u8] = &[
        0x55,
        0x48, 0x89, 0xE5,
        0x48, 0x83, 0xEC, 0x10,
        0x89, 0x7D, 0xFC,
        0x8B, 0x45, 0xFC,
        0x48, 0x89, 0x45, 0xF0,
        0x48, 0x8B, 0x45, 0xF0,
        0xC9, 0xC3,
    ];
    assert_eq!(out.code.hot.bytes, expected);
}

#[test]
fn conv_i8_method_bytes() {
    let m = method(
        vec![int_arg(0), local(Type::Int64, LocalKind::Temp)],
        1,
        0,
        vec![block(
            0,
            vec![
                stmt(StmtKind::Conv {
                    dst: LocalId(1),
                    to: Type::Int64,
                    overflow: false,
                    unsigned: false,
                    src: Operand::Local(LocalId(0)),
                }),
                stmt(StmtKind::Return {
                    value: Some(Operand::Temp(LocalId(1))),
                }),
            ],
        )],
    );
    let out = emit(&m, &MockEe::default());
    let expected: &[u8] = &[
        0x55,
        0x48, 0x89, 0xE5,
        0x48, 0x83, 0xEC, 0x10,
        0x89, 0x7D, 0xFC,
        0x48, 0x63, 0x45, 0xFC,
        0x48, 0x89, 0x45, 0xF0,
        0x48, 0x8B, 0x45, 0xF0,
        0xC9, 0xC3,
    ];
    assert_eq!(out.code.hot.bytes, expected);
}

#[test]
fn rem_method_bytes() {
    let m = method(
        vec![int_arg(0), int_temp()],
        1,
        0,
        vec![block(
            0,
            vec![
                stmt(StmtKind::Binary {
                    dst: LocalId(1),
                    op: BinaryOp::Rem,
                    lhs: Operand::Local(LocalId(0)),
                    rhs: Operand::Const(Const::Int32(3)),
                }),
                stmt(StmtKind::Return {
                    value: Some(Operand::Temp(LocalId(1))),
                }),
            ],
        )],
    );
    let out = emit(&m, &MockEe::default());
    let expected: &[u8] = &[
        0x55,
        0x48, 0x89, 0xE5,
        0x48, 0x83, 0xEC, 0x10,
        0x89, 0x7D, 0xFC,
        0x8B, 0x45, 0xFC,
        0x99,
        0xB9, 0x03, 0, 0, 0,
        0xF7, 0xF9,
        0x89, 0xD0,
        0xC9, 0xC3,
    ];
    assert_eq!(out.code.hot.bytes, expected);
}

#[test]
fn gc_references_are_frame_resident() {
    let m = method(
        vec![
            local(Type::Int32, LocalKind::IlLocal(0)),
            local(Type::Ref, LocalKind::IlLocal(1)),
            local(Type::ByRef, LocalKind::Temp),
        ],
        0,
        2,
        vec![block(
            0,
            vec![
                stmt(StmtKind::Copy {
                    dst: LocalId(2),
                    src: Operand::AddrOf(LocalId(0)),
                }),
                stmt(StmtKind::Return { value: None }),
            ],
        )],
    );
    let out = emit(&m, &MockEe::default());
    let expected: &[u8] = &[
        0x55,
        0x48, 0x89, 0xE5,
        0x48, 0x83, 0xEC, 0x20,
        0xC7, 0x45, 0xFC, 0, 0, 0, 0,
        0x48, 0xC7, 0x45, 0xF0, 0, 0, 0, 0,
        0x48, 0xC7, 0x45, 0xE8, 0, 0, 0, 0,
        0x48, 0x8D, 0x45, 0xFC,
        0x48, 0x89, 0x45, 0xE8,
        0xC9, 0xC3,
    ];
    assert_eq!(out.code.hot.bytes, expected);
    assert_eq!(
        out.frame.gc_roots,
        vec![
            GcRootSlot {
                offset: 16,
                is_byref: false,
                pinned: false,
            },
            GcRootSlot {
                offset: 24,
                is_byref: true,
                pinned: false,
            },
        ]
    );
}

#[test]
fn incoming_stack_args_are_unsupported() {
    let m = method(
        (0..7).map(int_arg).collect(),
        7,
        0,
        vec![block(
            0,
            vec![stmt(StmtKind::Return {
                value: Some(Operand::Local(LocalId(0))),
            })],
        )],
    );
    assert!(matches!(
        try_emit(&m, &MockEe::default()),
        Err(Stop::Fail(CompileError::Unsupported(_)))
    ));
}

#[test]
fn fib_compiles_end_to_end() {
    let fib_handle = handle(1);
    let mut ee = MockEe::default();
    ee.entry_points.insert(1, 0x1000);
    let recurse = |sub: u32, by: i32, result: u32| {
        [
            stmt(StmtKind::Binary {
                dst: LocalId(sub),
                op: BinaryOp::Sub,
                lhs: Operand::Local(LocalId(0)),
                rhs: Operand::Const(Const::Int32(by)),
            }),
            stmt(StmtKind::Call {
                dst: Some(LocalId(result)),
                target: CallTarget::Direct(fib_handle),
                sig: int_sig(),
                args: vec![Operand::Temp(LocalId(sub))],
            }),
        ]
    };
    let mut sum: Vec<Stmt> = Vec::new();
    sum.extend(recurse(1, 1, 2));
    sum.extend(recurse(3, 2, 4));
    sum.push(stmt(StmtKind::Binary {
        dst: LocalId(5),
        op: BinaryOp::Add,
        lhs: Operand::Temp(LocalId(2)),
        rhs: Operand::Temp(LocalId(4)),
    }));
    sum.push(stmt(StmtKind::Return {
        value: Some(Operand::Temp(LocalId(5))),
    }));
    let lir = method(
        vec![
            int_arg(0),
            int_temp(),
            int_temp(),
            int_temp(),
            int_temp(),
            int_temp(),
        ],
        1,
        0,
        vec![
            block(
                0,
                vec![stmt(StmtKind::Branch {
                    cond: BranchCond::Cmp {
                        op: BinaryOp::Lt,
                        lhs: Operand::Local(LocalId(0)),
                        rhs: Operand::Const(Const::Int32(2)),
                    },
                    target: BlockId(2),
                })],
            ),
            block(1, sum),
            block(
                2,
                vec![stmt(StmtKind::Return {
                    value: Some(Operand::Local(LocalId(0))),
                })],
            ),
        ],
    );
    let out = emit(&lir, &ee);
    let expected: &[u8] = &[
        0x55,
        0x48, 0x89, 0xE5,
        0x48, 0x83, 0xEC, 0x20,
        0x89, 0x7D, 0xFC,
        0x83, 0x7D, 0xFC, 0x02,
        0x0F, 0x8C, 0x2F, 0, 0, 0,
        0x8B, 0x45, 0xFC,
        0x83, 0xE8, 0x01,
        0x89, 0xC7,
        0x89, 0x45, 0xF8,
        0xE8, 0, 0, 0, 0,
        0x8B, 0x4D, 0xFC,
        0x83, 0xE9, 0x02,
        0x89, 0xCF,
        0x89, 0x45, 0xF4,
        0x89, 0x4D, 0xF0,
        0xE8, 0, 0, 0, 0,
        0x8B, 0x55, 0xF4,
        0x01, 0xC2,
        0x89, 0x45, 0xEC,
        0x89, 0xD0,
        0xC9, 0xC3,
        0x8B, 0x45, 0xFC,
        0xC9, 0xC3,
    ];
    assert_eq!(out.code.hot.bytes, expected);

    assert_eq!(out.frame.frame_size, 32);
    assert!(out.frame.gc_roots.is_empty(), "fib has no GC refs");
    let site_offsets: Vec<u32> = out.call_sites.iter().map(|c| c.offset).collect();
    assert_eq!(site_offsets, vec![32, 51]);
    let reloc_offsets: Vec<u32> = out.relocations.iter().map(|r| r.offset).collect();
    assert_eq!(reloc_offsets, vec![33, 52]);
    assert!(out.relocations.iter().all(|r| r.target == 0x1000));
    assert!(out
        .call_sites
        .iter()
        .all(|c| c.method == Some(fib_handle) && c.sig.is_some()));

    let code_len = out.code.hot.bytes.len() as u32;
    let gc_info = X64Target
        .encode_gc_info(&GcInfoInput {
            code_len,
            frame_size: out.frame.frame_size,
            gc_roots: out.frame.gc_roots,
            safepoints: out.call_sites.iter().map(|c| c.offset + c.size).collect(),
            reg_roots: Vec::new(),
            reg_live: Vec::new(),
            reg_home_end: Vec::new(),
            interruptible_ranges: Vec::new(),
            has_funclets: false,
            outgoing_area_size: 0,
            generics_context: None,
        })
        .expect("gc info");
    assert_eq!(gc_info, [0x26, 0x51, 0x09, 0x07]);
    let unwind = X64Target
        .encode_unwind_info(&UnwindInput {
            frame_size: out.frame.frame_size,
            code_len,
            funclets: Vec::new(),
        })
        .expect("unwind info");
    assert_eq!(unwind.len(), 1);
    assert_eq!(unwind[0].func_kind, CorJitFuncKind::Root);
    assert_eq!((unwind[0].start_offset, unwind[0].end_offset), (0, 73));
    assert_eq!(
        unwind[0].bytes,
        [0x01, 0x08, 0x03, 0x05, 0x08, 0x32, 0x04, 0x03, 0x01, 0x50]
    );
}

fn dbl_arg(i: u32) -> Local {
    local(Type::Double, LocalKind::IlArg(i))
}

fn dbl_temp() -> Local {
    local(Type::Double, LocalKind::Temp)
}

#[test]
fn float_arith_method_bytes() {
    let m = method(
        vec![dbl_arg(0), dbl_arg(1), dbl_temp(), dbl_temp()],
        2,
        0,
        vec![block(
            0,
            vec![
                stmt(StmtKind::Binary {
                    dst: LocalId(2),
                    op: BinaryOp::Mul,
                    lhs: Operand::Local(LocalId(1)),
                    rhs: Operand::Const(Const::Double((2.0f64).to_bits())),
                }),
                stmt(StmtKind::Binary {
                    dst: LocalId(3),
                    op: BinaryOp::Add,
                    lhs: Operand::Local(LocalId(0)),
                    rhs: Operand::Temp(LocalId(2)),
                }),
                stmt(StmtKind::Return {
                    value: Some(Operand::Temp(LocalId(3))),
                }),
            ],
        )],
    );
    let out = emit(&m, &MockEe::default());
    let expected: &[u8] = &[
        0x55,
        0x48, 0x89, 0xE5,
        0x48, 0x83, 0xEC, 0x20,
        0xF2, 0x0F, 0x11, 0x45, 0xF8,
        0xF2, 0x0F, 0x11, 0x4D, 0xF0,
        0x48, 0xB8, 0x00, 0x00, 0x00, 0x00, 0x00, 0x00, 0x00, 0x40,
        0x66, 0x4C, 0x0F, 0x6E, 0xF0,
        0xF2, 0x44, 0x0F, 0x10, 0x7D, 0xF0,
        0xF2, 0x45, 0x0F, 0x59, 0xFE,
        0xF2, 0x44, 0x0F, 0x11, 0x7D, 0xE8,
        0xF2, 0x44, 0x0F, 0x10, 0x7D, 0xF8,
        0xF2, 0x44, 0x0F, 0x58, 0x7D, 0xE8,
        0xF2, 0x44, 0x0F, 0x11, 0x7D, 0xE0,
        0xF2, 0x0F, 0x10, 0x45, 0xE0,
        0xC9, 0xC3,
    ];
    assert_eq!(out.code.hot.bytes, expected);
}

#[test]
fn float_compare_value_method_bytes() {
    let m = method(
        vec![dbl_arg(0), dbl_arg(1), int_temp()],
        2,
        0,
        vec![block(
            0,
            vec![
                stmt(StmtKind::Binary {
                    dst: LocalId(2),
                    op: BinaryOp::Lt,
                    lhs: Operand::Local(LocalId(0)),
                    rhs: Operand::Local(LocalId(1)),
                }),
                stmt(StmtKind::Return {
                    value: Some(Operand::Temp(LocalId(2))),
                }),
            ],
        )],
    );
    let out = emit(&m, &MockEe::default());
    let expected: &[u8] = &[
        0x55,
        0x48, 0x89, 0xE5,
        0x48, 0x83, 0xEC, 0x20,
        0xF2, 0x0F, 0x11, 0x45, 0xF8,
        0xF2, 0x0F, 0x11, 0x4D, 0xF0,
        0xF2, 0x44, 0x0F, 0x10, 0x7D, 0xF8,
        0x66, 0x44, 0x0F, 0x2E, 0x7D, 0xF0,
        0xB8, 0, 0, 0, 0,
        0x0F, 0x92, 0xC0,
        0xB9, 0, 0, 0, 0,
        0x0F, 0x9B, 0xC1,
        0x21, 0xC8,
        0x89, 0x45, 0xEC,
        0x8B, 0x45, 0xEC,
        0xC9, 0xC3,
    ];
    assert_eq!(out.code.hot.bytes, expected);
}

#[test]
fn float_branch_method_bytes() {
    let m = method(
        vec![dbl_arg(0), dbl_arg(1)],
        2,
        0,
        vec![
            block(
                0,
                vec![stmt(StmtKind::Branch {
                    cond: BranchCond::Cmp {
                        op: BinaryOp::Eq,
                        lhs: Operand::Local(LocalId(0)),
                        rhs: Operand::Local(LocalId(1)),
                    },
                    target: BlockId(2),
                })],
            ),
            block(
                1,
                vec![stmt(StmtKind::Return {
                    value: Some(Operand::Const(Const::Int32(0))),
                })],
            ),
            block(
                2,
                vec![stmt(StmtKind::Return {
                    value: Some(Operand::Const(Const::Int32(1))),
                })],
            ),
        ],
    );
    let out = emit(&m, &MockEe::default());
    let expected: &[u8] = &[
        0x55,
        0x48, 0x89, 0xE5,
        0x48, 0x83, 0xEC, 0x10,
        0xF2, 0x0F, 0x11, 0x45, 0xF8,
        0xF2, 0x0F, 0x11, 0x4D, 0xF0,
        0xF2, 0x44, 0x0F, 0x10, 0x7D, 0xF8,
        0x66, 0x44, 0x0F, 0x2E, 0x7D, 0xF0,
        0x0F, 0x8A, 0x06, 0, 0, 0,
        0x0F, 0x84, 0x07, 0, 0, 0,
        0xB8, 0, 0, 0, 0,
        0xC9, 0xC3,
        0xB8, 0x01, 0, 0, 0,
        0xC9, 0xC3,
    ];
    assert_eq!(out.code.hot.bytes, expected);
}

#[test]
fn float_to_int_conv_method_bytes() {
    let m = method(
        vec![dbl_arg(0), local(Type::Int64, LocalKind::Temp)],
        1,
        0,
        vec![block(
            0,
            vec![
                stmt(StmtKind::Conv {
                    dst: LocalId(1),
                    to: Type::Int64,
                    overflow: false,
                    unsigned: false,
                    src: Operand::Local(LocalId(0)),
                }),
                stmt(StmtKind::Return {
                    value: Some(Operand::Temp(LocalId(1))),
                }),
            ],
        )],
    );
    let out = emit(&m, &MockEe::default());
    let expected: &[u8] = &[
        0x55,
        0x48, 0x89, 0xE5,
        0x48, 0x83, 0xEC, 0x10,
        0xF2, 0x0F, 0x11, 0x45, 0xF8,
        0xF2, 0x48, 0x0F, 0x2C, 0x45, 0xF8,
        0x48, 0x89, 0x45, 0xF0,
        0x48, 0x8B, 0x45, 0xF0,
        0xC9, 0xC3,
    ];
    assert_eq!(out.code.hot.bytes, expected);
}

#[test]
fn float_neg_method_bytes() {
    let m = method(
        vec![dbl_arg(0), dbl_temp()],
        1,
        0,
        vec![block(
            0,
            vec![
                stmt(StmtKind::Unary {
                    dst: LocalId(1),
                    op: UnaryOp::Neg,
                    src: Operand::Local(LocalId(0)),
                }),
                stmt(StmtKind::Return {
                    value: Some(Operand::Temp(LocalId(1))),
                }),
            ],
        )],
    );
    let out = emit(&m, &MockEe::default());
    let expected: &[u8] = &[
        0x55,
        0x48, 0x89, 0xE5,
        0x48, 0x83, 0xEC, 0x10,
        0xF2, 0x0F, 0x11, 0x45, 0xF8,
        0x48, 0xB8, 0x00, 0x00, 0x00, 0x00, 0x00, 0x00, 0x00, 0x80,
        0x66, 0x4C, 0x0F, 0x6E, 0xF0,
        0xF2, 0x44, 0x0F, 0x10, 0x7D, 0xF8,
        0x66, 0x45, 0x0F, 0x57, 0xFE,
        0xF2, 0x44, 0x0F, 0x11, 0x7D, 0xF0,
        0xF2, 0x0F, 0x10, 0x45, 0xF0,
        0xC9, 0xC3,
    ];
    assert_eq!(out.code.hot.bytes, expected);
}

#[test]
fn mixed_signature_call_method_bytes() {
    let h = handle(0xF00);
    let mut ee = MockEe::default();
    ee.entry_points.insert(0xF00, 0x5000);
    let sig = CallSig {
        ret: Type::Int32,
        args: vec![Type::Int32, Type::Double],
        has_this: false,
    };
    let m = method(
        vec![int_arg(0), dbl_arg(1), int_temp()],
        2,
        0,
        vec![block(
            0,
            vec![
                stmt(StmtKind::Call {
                    dst: Some(LocalId(2)),
                    target: CallTarget::Direct(h),
                    sig: sig.copy(),
                    args: vec![Operand::Local(LocalId(0)), Operand::Local(LocalId(1))],
                }),
                stmt(StmtKind::Return {
                    value: Some(Operand::Temp(LocalId(2))),
                }),
            ],
        )],
    );
    let out = emit(&m, &ee);
    let expected: &[u8] = &[
        0x55,
        0x48, 0x89, 0xE5,
        0x48, 0x83, 0xEC, 0x20,
        0x89, 0x7D, 0xFC,
        0xF2, 0x0F, 0x11, 0x45, 0xF0,
        0x8B, 0x7D, 0xFC,
        0xF2, 0x0F, 0x10, 0x45, 0xF0,
        0xE8, 0, 0, 0, 0,
        0x89, 0x45, 0xEC,
        0x8B, 0x45, 0xEC,
        0xC9, 0xC3,
    ];
    assert_eq!(out.code.hot.bytes, expected);
    assert_eq!(out.call_sites.len(), 1);
    assert_eq!(out.call_sites[0].offset, 24);
    assert_eq!(out.relocations[0].target, 0x5000);
}

#[test]
fn float_rem_helper_call_method_bytes() {
    let sig = CallSig {
        ret: Type::Double,
        args: vec![Type::Double, Type::Double],
        has_this: false,
    };
    let m = method(
        vec![dbl_arg(0), dbl_arg(1), dbl_temp()],
        2,
        0,
        vec![block(
            0,
            vec![
                stmt(StmtKind::Call {
                    dst: Some(LocalId(2)),
                    target: CallTarget::Helper(
                        CorInfoHelpFunc::Dblrem,
                    ),
                    sig: sig.copy(),
                    args: vec![Operand::Local(LocalId(0)), Operand::Local(LocalId(1))],
                }),
                stmt(StmtKind::Return {
                    value: Some(Operand::Temp(LocalId(2))),
                }),
            ],
        )],
    );
    let out = emit(&m, &MockEe::default());
    let expected: &[u8] = &[
        0x55,
        0x48, 0x89, 0xE5,
        0x48, 0x83, 0xEC, 0x20,
        0xF2, 0x0F, 0x11, 0x45, 0xF8,
        0xF2, 0x0F, 0x11, 0x4D, 0xF0,
        0xF2, 0x0F, 0x10, 0x45, 0xF8,
        0xF2, 0x0F, 0x10, 0x4D, 0xF0,
        0xE8, 0, 0, 0, 0,
        0xF2, 0x0F, 0x11, 0x45, 0xE8,
        0xF2, 0x0F, 0x10, 0x45, 0xE8,
        0xC9, 0xC3,
    ];
    assert_eq!(out.code.hot.bytes, expected);
    assert_eq!(out.call_sites.len(), 1);
    assert_eq!(out.call_sites[0].offset, 28);
    assert_eq!(out.call_sites[0].method, None);
    assert_eq!(out.call_sites[0].sig, None);
    assert_eq!(out.relocations.len(), 1);
}

#[test]
fn float_locals_zero_init_and_arg_spill() {
    let m = method(
        vec![
            local(Type::Float, LocalKind::IlArg(0)),
            local(Type::Double, LocalKind::IlLocal(0)),
        ],
        1,
        1,
        vec![block(
            0,
            vec![stmt(StmtKind::Return {
                value: Some(Operand::Local(LocalId(1))),
            })],
        )],
    );
    let out = emit(&m, &MockEe::default());
    let expected: &[u8] = &[
        0x55,
        0x48, 0x89, 0xE5,
        0x48, 0x83, 0xEC, 0x10,
        0xF3, 0x0F, 0x11, 0x45, 0xFC,
        0x48, 0xC7, 0x45, 0xF0, 0, 0, 0, 0,
        0xF2, 0x0F, 0x10, 0x45, 0xF0,
        0xC9, 0xC3,
    ];
    assert_eq!(out.code.hot.bytes, expected);
}

#[test]
fn wide_imm_arith_materializes_the_constant() {
    const BIG: i64 = 499_999_500_000;
    let m = method(
        vec![
            local(Type::Int64, LocalKind::IlArg(0)),
            local(Type::Int64, LocalKind::Temp),
        ],
        1,
        0,
        vec![block(
            0,
            vec![
                stmt(StmtKind::Binary {
                    dst: LocalId(1),
                    op: BinaryOp::Add,
                    lhs: Operand::Local(LocalId(0)),
                    rhs: Operand::Const(Const::Int64(BIG)),
                }),
                stmt(StmtKind::Return {
                    value: Some(Operand::Temp(LocalId(1))),
                }),
            ],
        )],
    );
    let out = emit(&m, &MockEe::default());
    let expected: &[u8] = &[
        0x55,
        0x48, 0x89, 0xE5,
        0x48, 0x83, 0xEC, 0x10,
        0x48, 0x89, 0x7D, 0xF8,
        0x48, 0x8B, 0x45, 0xF8,
        0x48, 0xB9, 0xE0, 0xE6, 0x4A, 0x6A, 0x74, 0, 0, 0,
        0x48, 0x01, 0xC8,
        0x48, 0x89, 0x45, 0xF0,
        0x48, 0x8B, 0x45, 0xF0,
        0xC9, 0xC3,
    ];
    assert_eq!(out.code.hot.bytes, expected);
}

#[test]
fn wide_imm_cmp_materializes_the_constant() {
    const BIG: i64 = 499_999_500_000;
    let m = method(
        vec![local(Type::Int64, LocalKind::IlArg(0))],
        1,
        0,
        vec![
            block(
                0,
                vec![stmt(StmtKind::Branch {
                    cond: BranchCond::Cmp {
                        op: BinaryOp::Eq,
                        lhs: Operand::Local(LocalId(0)),
                        rhs: Operand::Const(Const::Int64(BIG)),
                    },
                    target: BlockId(2),
                })],
            ),
            block(
                1,
                vec![stmt(StmtKind::Return {
                    value: Some(Operand::Const(Const::Int32(0))),
                })],
            ),
            block(
                2,
                vec![stmt(StmtKind::Return {
                    value: Some(Operand::Const(Const::Int32(1))),
                })],
            ),
        ],
    );
    let out = emit(&m, &MockEe::default());
    let expected: &[u8] = &[
        0x55,
        0x48, 0x89, 0xE5,
        0x48, 0x83, 0xEC, 0x10,
        0x48, 0x89, 0x7D, 0xF8,
        0x48, 0xB8, 0xE0, 0xE6, 0x4A, 0x6A, 0x74, 0, 0, 0,
        0x48, 0x39, 0x45, 0xF8,
        0x0F, 0x84, 0x07, 0, 0, 0,
        0xB8, 0, 0, 0, 0,
        0xC9, 0xC3,
        0xB8, 0x01, 0, 0, 0,
        0xC9, 0xC3,
    ];
    assert_eq!(out.code.hot.bytes, expected);
}

#[test]
fn wide_imm_store_to_local_materializes_the_constant() {
    const BIG: i64 = 499_999_500_000;
    let m = method(
        vec![local(Type::Int64, LocalKind::IlLocal(0))],
        0,
        1,
        vec![block(
            0,
            vec![
                stmt(StmtKind::Copy {
                    dst: LocalId(0),
                    src: Operand::Const(Const::Int64(BIG)),
                }),
                stmt(StmtKind::Return {
                    value: Some(Operand::Local(LocalId(0))),
                }),
            ],
        )],
    );
    let out = emit(&m, &MockEe::default());
    let expected: &[u8] = &[
        0x55,
        0x48, 0x89, 0xE5,
        0x48, 0x83, 0xEC, 0x10,
        0x48, 0xC7, 0x45, 0xF8, 0, 0, 0, 0,
        0x48, 0xB8, 0xE0, 0xE6, 0x4A, 0x6A, 0x74, 0, 0, 0,
        0x48, 0x89, 0x45, 0xF8,
        0x48, 0x8B, 0x45, 0xF8,
        0xC9, 0xC3,
    ];
    assert_eq!(out.code.hot.bytes, expected);
}

/// The request that an emission without replies stops at, and the ones that
/// follow, answered by `answer`.
fn drive(m: &Method, answer: &mut dyn FnMut(Request) -> Reply) -> Result<CodegenOutput, Stop> {
    let mut emitter = Emitter::new(m).map_err(Stop::Fail)?;
    while let Err(stop) = emitter.advance() {
        match stop {
            Stop::Ask(request) => emitter.reply(answer(request)),
            Stop::Fail(_) => return Err(stop),
        }
    }
    emitter.finish(Vec::new())
}

fn internal(message: &'static str) -> Option<Stop> {
    Some(Stop::Fail(CompileError::Internal(message)))
}

fn unsupported(message: &'static str) -> Option<Stop> {
    Some(Stop::Fail(CompileError::Unsupported(message)))
}

fn return_arg() -> Method {
    method(
        vec![int_arg(0)],
        1,
        0,
        vec![block(
            0,
            vec![stmt(StmtKind::Return {
                value: Some(Operand::Local(LocalId(0))),
            })],
        )],
    )
}

fn call_method(target: CallTarget) -> Method {
    method(
        vec![int_temp()],
        0,
        0,
        vec![block(
            0,
            vec![
                stmt(StmtKind::Call {
                    dst: None,
                    target,
                    sig: CallSig {
                        ret: Type::Void,
                        args: vec![],
                        has_this: false,
                    },
                    args: vec![],
                }),
                stmt(StmtKind::Return { value: None }),
            ],
        )],
    )
}

#[test]
fn a_wide_constant_in_a_temporary_is_materialized() {
    const BIG: i64 = 499_999_500_000;
    let long = || local(Type::Int64, LocalKind::Temp);
    let m = method(
        vec![local(Type::Int64, LocalKind::IlArg(0)), long(), long()],
        1,
        0,
        vec![block(
            0,
            vec![
                stmt(StmtKind::Copy {
                    dst: LocalId(1),
                    src: Operand::Const(Const::Int64(BIG)),
                }),
                stmt(StmtKind::Binary {
                    dst: LocalId(2),
                    op: BinaryOp::Add,
                    lhs: Operand::Local(LocalId(0)),
                    rhs: Operand::Temp(LocalId(1)),
                }),
                stmt(StmtKind::Return {
                    value: Some(Operand::Temp(LocalId(2))),
                }),
            ],
        )],
    );
    let expected: &[u8] = &[
        0x55,
        0x48, 0x89, 0xE5,
        0x48, 0x83, 0xEC, 0x20,
        0x48, 0x89, 0x7D, 0xF8,
        0x48, 0x8B, 0x45, 0xF8,
        0x48, 0xB9, 0xE0, 0xE6, 0x4A, 0x6A, 0x74, 0, 0, 0,
        0x48, 0x01, 0xC8,
        0x48, 0x89, 0x45, 0xE8,
        0x48, 0x8B, 0x45, 0xE8,
        0xC9, 0xC3,
    ];
    assert_eq!(emit(&m, &MockEe::default()).code.hot.bytes, expected);
}

#[test]
fn a_frozen_reference_reaches_its_slot_whole() {
    let m = method(
        vec![local(Type::Ref, LocalKind::Temp)],
        0,
        0,
        vec![block(
            0,
            vec![
                stmt(StmtKind::Copy {
                    dst: LocalId(0),
                    src: Operand::Const(Const::FrozenRef(0x1_2345_6789)),
                }),
                stmt(StmtKind::Return { value: None }),
            ],
        )],
    );
    let expected: &[u8] = &[
        0x55,
        0x48, 0x89, 0xE5,
        0x48, 0x83, 0xEC, 0x10,
        0x48, 0xC7, 0x45, 0xF8, 0, 0, 0, 0,
        0x48, 0xB8, 0x89, 0x67, 0x45, 0x23, 0x01, 0, 0, 0,
        0x48, 0x89, 0x45, 0xF8,
        0xC9, 0xC3,
    ];
    assert_eq!(emit(&m, &MockEe::default()).code.hot.bytes, expected);
}

#[test]
fn recorded_replies_give_the_same_code() {
    let m = return_arg();
    let replies = || vec![Reply::Moves(vec![]), Reply::Done, Reply::Moves(vec![]), slot(4)];
    let out = emit_tier0(&m, Vec::new(), replies()).expect("emits");
    assert_eq!(
        out.code.hot.bytes,
        emit(&m, &MockEe::default()).code.hot.bytes
    );
    let mut more = replies();
    more.push(Reply::Done);
    let again = emit_tier0(&m, Vec::new(), more).expect("emits");
    assert_eq!(again.code.hot.bytes, out.code.hot.bytes);
}

fn slot(offset: u32) -> Reply {
    Reply::Source(ReadSrc::Slot(offset))
}

#[test]
fn missing_replies_are_asked_for() {
    let m = return_arg();
    let ask = |replies: Vec<Reply>| emit_tier0(&m, Vec::new(), replies).err();
    assert_eq!(ask(vec![]), Some(Stop::Ask(Request::Clobber(Gpr::Rbp.phys()))));
    assert_eq!(
        ask(vec![Reply::Moves(vec![])]),
        Some(Stop::Ask(Request::Reset))
    );
    assert_eq!(
        ask(vec![Reply::Moves(vec![]), Reply::Done]),
        Some(Stop::Ask(Request::Clobber(Gpr::Rax.phys())))
    );
    assert_eq!(
        ask(vec![
            Reply::Moves(vec![]),
            Reply::Done,
            Reply::Moves(vec![])
        ]),
        Some(Stop::Ask(Request::Read(LocalId(0))))
    );
}

#[test]
fn a_reply_of_the_wrong_kind_fails() {
    let m = return_arg();
    assert_eq!(
        emit_tier0(&m, Vec::new(), vec![Reply::Done]).err(),
        internal("reply does not answer the request")
    );
}

#[test]
fn moves_of_the_wrong_kind_fail() {
    let m = return_arg();
    let with = |moves: Vec<Move>| emit_tier0(&m, Vec::new(), vec![Reply::Moves(moves)]).err();
    let (reg, ty) = (0, Type::Double);
    assert_eq!(
        with(vec![Move::Spill { reg, slot: 8, ty }]),
        internal("spill of a non-GPR value")
    );
    assert_eq!(
        with(vec![Move::Reload { slot: 8, ty, reg }]),
        internal("reload of a non-GPR value")
    );
    assert_eq!(
        with(vec![Move::Remat { imm: 1, reg, ty }]),
        internal("rematerialization of a non-GPR value")
    );
    assert_eq!(
        with(vec![Move::Spill {
            reg: 16,
            slot: 8,
            ty: Type::Int32
        }]),
        internal("PhysReg outside the GPR range")
    );
}

#[test]
fn moves_are_emitted_in_order() {
    let m = method(
        vec![],
        0,
        0,
        vec![block(0, vec![stmt(StmtKind::Return { value: None })])],
    );
    let moves = vec![
        Move::Reload {
            slot: 8,
            ty: Type::Int64,
            reg: Gpr::Rcx.phys(),
        },
        Move::Remat {
            imm: 7,
            reg: Gpr::R8.phys(),
            ty: Type::Int32,
        },
        Move::Spill {
            reg: Gpr::R8.phys(),
            slot: 12,
            ty: Type::Int32,
        },
    ];
    let out = emit_tier0(&m, Vec::new(), vec![Reply::Moves(moves), Reply::Done]).unwrap();
    let expected: &[u8] = &[
        0x55,
        0x48, 0x8B, 0x4D, 0xF8,
        0x41, 0xB8, 7, 0, 0, 0,
        0x44, 0x89, 0x45, 0xF4,
        0x48, 0x89, 0xE5,
        0x48, 0x83, 0xEC, 0x00,
        0xC9, 0xC3,
    ];
    assert_eq!(out.code.hot.bytes, expected);
}

#[test]
fn methods_that_cannot_be_emitted() {
    let ee = MockEe::default();
    let mut m = return_arg();
    m.num_args = 2;
    assert_eq!(
        try_emit(&m, &ee).err(),
        internal("more arguments than locals")
    );
    let m = method(vec![local(Type::Void, LocalKind::Temp)], 0, 0, vec![]);
    assert_eq!(try_emit(&m, &ee).err(), internal("void-typed local"));
    let m = method(
        vec![],
        0,
        0,
        vec![block(3, vec![]), block(3, vec![])],
    );
    assert_eq!(try_emit(&m, &ee).err(), internal("label bound twice"));
    let m = method(
        vec![],
        0,
        0,
        vec![block(
            0,
            vec![stmt(StmtKind::Jump { target: BlockId(9) })],
        )],
    );
    assert_eq!(
        try_emit(&m, &ee).err(),
        internal("unbound branch label at finalize")
    );
    let m = method(
        vec![local(Type::Ref, LocalKind::IlArg(0))],
        1,
        0,
        vec![block(
            0,
            vec![stmt(StmtKind::ArrLen {
                dst: LocalId(0),
                array: Operand::Local(LocalId(0)),
            })],
        )],
    );
    assert_eq!(
        try_emit(&m, &ee).err(),
        unsupported("no x64 lowering rule matched an LIR statement")
    );
    let m = method(
        vec![local(Type::Ref, LocalKind::IlArg(0))],
        1,
        0,
        vec![block(
            0,
            vec![stmt(StmtKind::NullCheck {
                arg: Operand::Local(LocalId(0)),
            })],
        )],
    );
    assert_eq!(
        try_emit(&m, &ee).err(),
        unsupported("instruction outside the tier-0 emission subset")
    );
    let m = method(
        vec![],
        0,
        0,
        vec![block(
            0,
            vec![stmt(StmtKind::Copy {
                dst: LocalId(4),
                src: Operand::Const(Const::Int32(1)),
            })],
        )],
    );
    assert_eq!(
        drive(&m, &mut |r| match r {
            Request::Reset => Reply::Done,
            _ => Reply::Moves(vec![]),
        })
        .err(),
        internal("local out of range")
    );
}

#[test]
fn calls_go_to_an_address_or_through_a_slot() {
    let m = call_method(CallTarget::Direct(handle(0xF00)));
    let mut ee = MockEe::default();
    assert_eq!(
        try_emit(&m, &ee).err(),
        unsupported("call target with more than one indirection (IAT_PPVALUE/IAT_RELPVALUE)")
    );
    ee.entry_points.insert(0xF00, 0x5000);
    ee.entry_point_slots.insert(0xF00, 0x9000);
    let out = emit(&m, &ee);
    assert_eq!(out.relocations[0].target, 0x5000);
    assert_eq!(out.relocations[0].addl_delta, 0);
    assert_eq!(out.call_sites[0].size, 5);
    let at = out.call_sites[0].offset as usize;
    assert_eq!(out.code.hot.bytes[at..at + 5], [0xE8, 0, 0, 0, 0]);
    assert_eq!(
        out.call_sites[0].sig.as_ref().map(|s| s.ret),
        Some(Type::Void)
    );
}

#[test]
fn argument_kinds_that_do_not_fit_their_slots() {
    let m = method(
        vec![local(Type::Struct(ClassHandle(1)), LocalKind::IlArg(0))],
        1,
        0,
        vec![],
    );
    assert_eq!(
        try_emit(&m, &MockEe::default()).err(),
        unsupported("struct local in tier-0 frame layout")
    );
}

#[test]
fn slots_are_disjoint_and_inside_the_frame() {
    let types = [
        Type::Float,
        Type::Double,
        Type::Int32,
        Type::Int32,
        Type::Ref,
        Type::Int32,
    ];
    let m = method(
        types.iter().map(|t| local(*t, LocalKind::Temp)).collect(),
        0,
        0,
        vec![],
    );
    let layout = FrameLayout::compute(&m).unwrap();
    assert_eq!(layout.slots, [4, 16, 20, 24, 32, 36]);
    assert_eq!(layout.frame_size, 48);
    let empty = FrameLayout::compute(&method(vec![], 0, 0, vec![])).unwrap();
    assert_eq!(empty.frame_size, 0);
}

#[test]
fn floats_are_always_in_their_slots() {
    let m = method(
        vec![dbl_arg(0), dbl_temp()],
        1,
        0,
        vec![block(
            0,
            vec![
                stmt(StmtKind::Copy {
                    dst: LocalId(1),
                    src: Operand::Local(LocalId(0)),
                }),
                stmt(StmtKind::Return { value: None }),
            ],
        )],
    );
    let mut defined = Vec::new();
    let ee = MockEe::default();
    let mut values = Values::new(&m, &ee, vec![8, 16]);
    drive(&m, &mut |r| {
        if let Request::Define(id, loc) = r {
            defined.push((id, loc));
        }
        values.answer(r)
    })
    .unwrap();
    assert_eq!(defined, [(LocalId(1), Loc::Mem(16))]);
}

#[test]
fn unordered_operands_take_the_unordered_branches() {
    let branch = |op: BinaryOp| {
        let m = method(
            vec![dbl_arg(0), dbl_arg(1)],
            2,
            0,
            vec![
                block(
                    0,
                    vec![stmt(StmtKind::Branch {
                        cond: BranchCond::Cmp {
                            op,
                            lhs: Operand::Local(LocalId(0)),
                            rhs: Operand::Local(LocalId(1)),
                        },
                        target: BlockId(1),
                    })],
                ),
                block(1, vec![stmt(StmtKind::Return { value: None })]),
            ],
        );
        let bytes = emit(&m, &MockEe::default()).code.hot.bytes;
        bytes[30..bytes.len() - 2].to_vec()
    };
    assert_eq!(
        branch(BinaryOp::Ne),
        [0x0F, 0x8A, 6, 0, 0, 0, 0x0F, 0x85, 0, 0, 0, 0]
    );
    assert_eq!(
        branch(BinaryOp::UGt),
        [0x0F, 0x8A, 6, 0, 0, 0, 0x0F, 0x87, 0, 0, 0, 0]
    );
    assert_eq!(
        branch(BinaryOp::Lt),
        [0x0F, 0x8A, 6, 0, 0, 0, 0x0F, 0x82, 0, 0, 0, 0]
    );
    assert_eq!(branch(BinaryOp::Gt), [0x0F, 0x87, 0, 0, 0, 0]);
    assert_eq!(branch(BinaryOp::ULe), [0x0F, 0x86, 0, 0, 0, 0]);
}

/// `t = a + 1`, then the edge; the blocks behind it return `t`.
fn adds_then(edge: StmtKind, blocks: u32) -> Method {
    let mut all = vec![block(
        0,
        vec![
            stmt(StmtKind::Binary {
                dst: LocalId(1),
                op: BinaryOp::Add,
                lhs: Operand::Local(LocalId(0)),
                rhs: Operand::Const(Const::Int32(1)),
            }),
            stmt(edge),
        ],
    )];
    for id in 1..=blocks {
        all.push(block(
            id,
            vec![stmt(StmtKind::Return {
                value: Some(Operand::Temp(LocalId(1))),
            })],
        ));
    }
    method(vec![int_arg(0), int_temp()], 1, 0, all)
}

#[test]
fn values_reach_their_slots_before_a_switch() {
    let m = adds_then(
        StmtKind::Switch {
            value: Operand::Local(LocalId(0)),
            targets: vec![BlockId(2)],
            default: BlockId(1),
        },
        2,
    );
    let expected: &[u8] = &[
        0x55,
        0x48, 0x89, 0xE5,
        0x48, 0x83, 0xEC, 0x10,
        0x89, 0x7D, 0xFC,
        0x8B, 0x45, 0xFC,
        0x83, 0xC0, 0x01,
        0x89, 0x45, 0xF8,
        0x83, 0x7D, 0xFC, 0x00,
        0x0F, 0x84, 0x0A, 0, 0, 0,
        0xE9, 0, 0, 0, 0,
        0x8B, 0x45, 0xF8,
        0xC9, 0xC3,
        0x8B, 0x45, 0xF8,
        0xC9, 0xC3,
    ];
    assert_eq!(emit(&m, &MockEe::default()).code.hot.bytes, expected);
}

#[test]
fn values_reach_their_slots_before_a_leave() {
    let m = adds_then(StmtKind::Leave { target: BlockId(1) }, 1);
    let expected: &[u8] = &[
        0x55,
        0x48, 0x89, 0xE5,
        0x48, 0x83, 0xEC, 0x10,
        0x89, 0x7D, 0xFC,
        0x8B, 0x45, 0xFC,
        0x83, 0xC0, 0x01,
        0x89, 0x45, 0xF8,
        0xE9, 0, 0, 0, 0,
        0x8B, 0x45, 0xF8,
        0xC9, 0xC3,
    ];
    assert_eq!(emit(&m, &MockEe::default()).code.hot.bytes, expected);
}

#[test]
fn values_reach_their_slots_before_a_jump() {
    let jump = adds_then(StmtKind::Jump { target: BlockId(1) }, 1);
    let leave = adds_then(StmtKind::Leave { target: BlockId(1) }, 1);
    assert_eq!(
        emit(&jump, &MockEe::default()).code.hot.bytes,
        emit(&leave, &MockEe::default()).code.hot.bytes
    );
}

#[test]
fn a_finally_call_spills_and_cannot_be_emitted() {
    let m = adds_then(
        StmtKind::CallFinally {
            funclet: BlockId(1),
            continuation: BlockId(2),
        },
        2,
    );
    let ee = MockEe::default();
    let mut values = Values::new(&m, &ee, vec![4, 8]);
    let mut asked = Vec::new();
    let end = drive(&m, &mut |r| {
        asked.push(r);
        values.answer(r)
    });
    assert_eq!(asked.last(), Some(&Request::SpillAll));
    assert_eq!(
        end.err(),
        unsupported("instruction outside the tier-0 emission subset")
    );
}

#[test]
fn each_float_branch_has_its_own_label() {
    let branch = || {
        stmt(StmtKind::Branch {
            cond: BranchCond::Cmp {
                op: BinaryOp::Eq,
                lhs: Operand::Local(LocalId(0)),
                rhs: Operand::Local(LocalId(1)),
            },
            target: BlockId(2),
        })
    };
    let m = method(
        vec![dbl_arg(0), dbl_arg(1)],
        2,
        0,
        vec![
            block(0, vec![branch()]),
            block(1, vec![branch()]),
            block(2, vec![stmt(StmtKind::Return { value: None })]),
        ],
    );
    let expected: &[u8] = &[
        0xF2, 0x44, 0x0F, 0x10, 0x7D, 0xF8,
        0x66, 0x44, 0x0F, 0x2E, 0x7D, 0xF0,
        0x0F, 0x8A, 0x06, 0, 0, 0,
        0x0F, 0x84, 0x18, 0, 0, 0,
        0xF2, 0x44, 0x0F, 0x10, 0x7D, 0xF8,
        0x66, 0x44, 0x0F, 0x2E, 0x7D, 0xF0,
        0x0F, 0x8A, 0x06, 0, 0, 0,
        0x0F, 0x84, 0, 0, 0, 0,
        0xC9, 0xC3,
    ];
    assert_eq!(
        emit(&m, &MockEe::default()).code.hot.bytes[18..],
        *expected
    );
}

#[test]
fn a_block_may_not_take_the_label_of_a_float_branch() {
    let compare = |target: u32| {
        let m = method(
            vec![dbl_arg(0), dbl_arg(1)],
            2,
            0,
            vec![
                block(
                    0,
                    vec![stmt(StmtKind::Branch {
                        cond: BranchCond::Cmp {
                            op: BinaryOp::Eq,
                            lhs: Operand::Local(LocalId(0)),
                            rhs: Operand::Local(LocalId(1)),
                        },
                        target: BlockId(target),
                    })],
                ),
                block(target, vec![stmt(StmtKind::Return { value: None })]),
            ],
        );
        try_emit(&m, &MockEe::default()).is_ok()
    };
    assert!(compare(FIRST_SYNTHETIC_LABEL - 1));
    assert!(!compare(FIRST_SYNTHETIC_LABEL));
}

#[test]
fn a_pointer_is_stored_before_its_place_is_noted() {
    let m = method(
        vec![
            local(Type::Ref, LocalKind::IlArg(0)),
            local(Type::Ref, LocalKind::Temp),
        ],
        1,
        0,
        vec![block(
            0,
            vec![
                stmt(StmtKind::Copy {
                    dst: LocalId(1),
                    src: Operand::Local(LocalId(0)),
                }),
                stmt(StmtKind::Return {
                    value: Some(Operand::Temp(LocalId(1))),
                }),
            ],
        )],
    );
    let expected: &[u8] = &[
        0x48, 0x8B, 0x45, 0xF8,
        0x48, 0x89, 0x45, 0xF0,
        0x48, 0x8B, 0x45, 0xF0,
        0xC9, 0xC3,
    ];
    let bytes = emit(&m, &MockEe::default()).code.hot.bytes;
    assert_eq!(bytes[bytes.len() - expected.len()..], *expected);
}

#[test]
fn calls_are_recorded_in_the_order_of_the_code() {
    let call = |dst: u32| {
        stmt(StmtKind::Call {
            dst: Some(LocalId(dst)),
            target: CallTarget::Direct(handle(1)),
            sig: int_sig(),
            args: vec![Operand::Local(LocalId(0))],
        })
    };
    let m = method(
        vec![int_arg(0), int_temp(), int_temp()],
        1,
        0,
        vec![block(
            0,
            vec![
                call(1),
                call(2),
                stmt(StmtKind::Return {
                    value: Some(Operand::Temp(LocalId(2))),
                }),
            ],
        )],
    );
    let mut ee = MockEe::default();
    ee.entry_points.insert(1, 0x1000);
    let out = emit(&m, &ee);
    assert_eq!(out.call_sites.len(), 2);
    assert!(out.call_sites[0].offset + 5 <= out.call_sites[1].offset);
}

#[test]
fn a_copy_keeps_its_value_when_the_local_is_written() {
    let m = method(
        vec![int_arg(0), int_temp()],
        1,
        0,
        vec![block(
            0,
            vec![
                stmt(StmtKind::Copy {
                    dst: LocalId(1),
                    src: Operand::Local(LocalId(0)),
                }),
                stmt(StmtKind::Copy {
                    dst: LocalId(0),
                    src: Operand::Const(Const::Int32(5)),
                }),
                stmt(StmtKind::Return {
                    value: Some(Operand::Temp(LocalId(1))),
                }),
            ],
        )],
    );
    let expected: &[u8] = &[
        0x8B, 0x45, 0xFC,
        0x89, 0x45, 0xF8,
        0xC7, 0x45, 0xFC, 0x05, 0, 0, 0,
        0x8B, 0x45, 0xF8,
        0xC9, 0xC3,
    ];
    assert_eq!(
        emit(&m, &MockEe::default()).code.hot.bytes[11..],
        *expected
    );
}

#[test]
fn a_value_leaves_the_register_that_a_division_takes() {
    let m = method(
        vec![int_arg(0), int_arg(1), int_temp(), int_temp()],
        2,
        0,
        vec![block(
            0,
            vec![
                stmt(StmtKind::Binary {
                    dst: LocalId(2),
                    op: BinaryOp::Add,
                    lhs: Operand::Local(LocalId(0)),
                    rhs: Operand::Const(Const::Int32(1)),
                }),
                stmt(StmtKind::Binary {
                    dst: LocalId(3),
                    op: BinaryOp::Div,
                    lhs: Operand::Local(LocalId(0)),
                    rhs: Operand::Local(LocalId(1)),
                }),
                stmt(StmtKind::Return {
                    value: Some(Operand::Temp(LocalId(2))),
                }),
            ],
        )],
    );
    let expected: &[u8] = &[
        0x8B, 0x45, 0xFC,
        0x83, 0xC0, 0x01,
        0x89, 0x45, 0xF4,
        0x8B, 0x45, 0xFC,
        0x99,
        0xF7, 0x7D, 0xF8,
        0x89, 0x45, 0xF0,
        0x8B, 0x45, 0xF4,
        0xC9, 0xC3,
    ];
    assert_eq!(
        emit(&m, &MockEe::default()).code.hot.bytes[14..],
        *expected
    );
}
