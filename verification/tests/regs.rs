use rokajit_x64::regs::{register_classes, Gpr, FRAME_POINTER, GPR_ALLOCATABLE, STACK_POINTER};
use std::collections::HashSet;

#[test]
fn callee_saved_is_a_subset_of_allocatable() {
    for class in &register_classes() {
        for reg in &class.callee_saved {
            assert!(
                class.registers.contains(reg),
                "{}: {:?} callee-saved but not allocatable",
                class.name,
                reg
            );
        }
    }
}

#[test]
fn phys_reg_indices_are_unique_across_classes() {
    let mut seen = HashSet::new();
    for class in &register_classes() {
        for reg in &class.registers {
            assert!(seen.insert(*reg), "duplicate PhysReg {:?}", reg);
        }
    }
}

#[test]
fn fixed_duty_registers_are_not_allocatable() {
    assert!(!GPR_ALLOCATABLE.contains(&STACK_POINTER.phys()));
    assert!(!GPR_ALLOCATABLE.contains(&FRAME_POINTER.phys()));
}

#[test]
fn gpr_discriminants_match_the_hardware_encoding() {
    assert_eq!(Gpr::Rax.enc(), 0);
    assert_eq!(Gpr::Rsp.enc(), 4);
    assert_eq!(Gpr::R15.enc(), 15);
}
