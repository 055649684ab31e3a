use rokajit_x64::abi::{classify_call, place_arg, struct_return, ArgState};
use rokajit_x64::error::CompileError;
use rokajit_x64::ir::{
    CallSig, ClassHandle, Eightbyte, Eightbytes, StructLayout, StructLayouts, SysVClass, SysVPass,
    Type,
};
use rokajit_x64::regs::{Gpr, Xmm};
use rokajit_x64::target::{ArgLocation, EightbyteReg, PhysReg, StructRegs};

fn sig(ret: Type, args: Vec<Type>, has_this: bool) -> CallSig {
    CallSig {
        ret,
        args,
        has_this,
    }
}

fn eightbyte(class: SysVClass, offset: u8) -> Eightbyte {
    Eightbyte {
        class,
        size: 8,
        offset,
    }
}

fn layout(size: u32, passed_in_registers: bool, eightbytes: Eightbytes) -> StructLayout {
    StructLayout {
        size,
        align: 8,
        sysv: SysVPass {
            passed_in_registers,
            eightbytes,
        },
    }
}

/// Class 1 is two integer words, class 2 an integer and a float, class 3 is 24
/// bytes in memory.
fn layouts() -> StructLayouts {
    let mut layouts = StructLayouts::new();
    layouts.insert(
        ClassHandle(1),
        layout(
            16,
            true,
            Eightbytes::Two(
                eightbyte(SysVClass::Integer, 0),
                eightbyte(SysVClass::IntegerRef, 8),
            ),
        ),
    );
    layouts.insert(
        ClassHandle(2),
        layout(
            16,
            true,
            Eightbytes::Two(
                eightbyte(SysVClass::Integer, 0),
                eightbyte(SysVClass::Sse, 8),
            ),
        ),
    );
    layouts.insert(ClassHandle(3), layout(24, false, Eightbytes::Zero));
    layouts
}

fn registers(loc: &ArgLocation) -> Vec<PhysReg> {
    match loc {
        ArgLocation::Reg(r) => vec![*r],
        ArgLocation::StructRegs(StructRegs::One(a)) => vec![a.reg],
        ArgLocation::StructRegs(StructRegs::Two(a, b)) => vec![a.reg, b.reg],
        _ => vec![],
    }
}

fn half(reg: PhysReg, offset: u8) -> EightbyteReg {
    EightbyteReg {
        reg,
        size: 8,
        offset,
    }
}

#[test]
fn no_two_arguments_share_a_register() {
    let mut args = vec![Type::Int32; 4];
    args.extend([Type::Double; 9]);
    args.push(Type::Struct(ClassHandle(2)));
    args.push(Type::Struct(ClassHandle(1)));
    let abi = classify_call(&sig(Type::Void, args, true), &layouts()).unwrap();
    let mut seen: Vec<PhysReg> = Vec::new();
    for loc in &abi.args {
        for reg in registers(loc) {
            assert!(!seen.contains(&reg));
            seen.push(reg);
        }
    }
}

#[test]
fn a_struct_takes_all_its_registers_or_none() {
    let mut args = vec![Type::Int64; 5];
    args.push(Type::Struct(ClassHandle(1)));
    args.push(Type::Int32);
    let abi = classify_call(&sig(Type::Void, args, false), &layouts()).unwrap();
    assert_eq!(abi.args[5], ArgLocation::Stack { offset: 0 });
    assert_eq!(abi.args[6], ArgLocation::Reg(Gpr::R9.phys()));
    assert_eq!(abi.stack_arg_bytes, 16);
}

#[test]
fn a_mixed_struct_takes_one_register_of_each_kind() {
    let args = vec![Type::Struct(ClassHandle(2)), Type::Double, Type::Int32];
    let abi = classify_call(&sig(Type::Void, args, false), &layouts()).unwrap();
    assert_eq!(
        abi.args[0],
        ArgLocation::StructRegs(StructRegs::Two(
            half(Gpr::Rdi.phys(), 0),
            half(Xmm::Xmm0.phys(), 8)
        ))
    );
    assert_eq!(abi.args[1], ArgLocation::Reg(Xmm::Xmm1.phys()));
    assert_eq!(abi.args[2], ArgLocation::Reg(Gpr::Rsi.phys()));
}

#[test]
fn stack_arguments_are_aligned_and_disjoint() {
    let mut args = vec![Type::Struct(ClassHandle(3))];
    args.extend([Type::Int32; 7]);
    args.push(Type::Struct(ClassHandle(3)));
    let abi = classify_call(&sig(Type::Void, args, false), &layouts()).unwrap();
    assert_eq!(abi.args[0], ArgLocation::Stack { offset: 0 });
    assert_eq!(abi.args[7], ArgLocation::Stack { offset: 24 });
    assert_eq!(abi.args[8], ArgLocation::Stack { offset: 32 });
    assert_eq!(abi.stack_arg_bytes, 64);
}

#[test]
fn struct_results_take_the_return_registers() {
    assert_eq!(
        struct_return(Eightbytes::Two(
            eightbyte(SysVClass::Integer, 0),
            eightbyte(SysVClass::Integer, 8)
        )),
        StructRegs::Two(half(Gpr::Rax.phys(), 0), half(Gpr::Rdx.phys(), 8))
    );
    assert_eq!(
        struct_return(Eightbytes::Two(
            eightbyte(SysVClass::Sse, 0),
            eightbyte(SysVClass::Integer, 8)
        )),
        StructRegs::Two(half(Xmm::Xmm0.phys(), 0), half(Gpr::Rax.phys(), 8))
    );
    assert_eq!(
        struct_return(Eightbytes::Two(
            eightbyte(SysVClass::Sse, 0),
            eightbyte(SysVClass::Sse, 8)
        )),
        StructRegs::Two(half(Xmm::Xmm0.phys(), 0), half(Xmm::Xmm1.phys(), 8))
    );
    assert_eq!(struct_return(Eightbytes::Zero), StructRegs::Zero);
}

#[test]
fn calls_that_cannot_be_classified() {
    let unknown = Type::Struct(ClassHandle(9));
    assert_eq!(
        classify_call(&sig(Type::Void, vec![unknown], false), &layouts()).err(),
        Some(CompileError::Unsupported(
            "struct arguments: outside the tier-0 subset"
        ))
    );
    for ret in [unknown, Type::Struct(ClassHandle(3))] {
        assert_eq!(
            classify_call(&sig(ret, vec![], false), &layouts()).err(),
            Some(CompileError::Unsupported(
                "struct return values: outside the tier-0 subset"
            ))
        );
    }
    assert_eq!(
        classify_call(&sig(Type::Void, vec![Type::Void], false), &layouts()).err(),
        Some(CompileError::Internal("void-typed argument"))
    );
}

#[test]
fn an_outgoing_area_beyond_a_stack_offset_is_unsupported() {
    let mut layouts = StructLayouts::new();
    layouts.insert(ClassHandle(1), layout(0xFFFF_FFF0, false, Eightbytes::Zero));
    let big = Type::Struct(ClassHandle(1));
    let abi = classify_call(&sig(Type::Void, vec![big], false), &layouts).unwrap();
    assert_eq!(abi.stack_arg_bytes, 0xFFFF_FFF0);
    assert!(matches!(
        classify_call(&sig(Type::Void, vec![big, big], false), &layouts),
        Err(CompileError::Unsupported(_))
    ));
}

#[test]
fn one_argument_at_a_time() {
    let start = ArgState {
        ints: 5,
        floats: 8,
        stack: 16,
    };
    let (loc, after) = place_arg(Type::Ref, None, start).unwrap();
    assert_eq!(loc, ArgLocation::Reg(Gpr::R9.phys()));
    assert_eq!(after.ints, 6);
    let (loc, after) = place_arg(Type::Float, None, after).unwrap();
    assert_eq!(loc, ArgLocation::Stack { offset: 16 });
    assert_eq!(
        after,
        ArgState {
            ints: 6,
            floats: 8,
            stack: 24
        }
    );
}
