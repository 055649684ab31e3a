use rokajit_x64::ir::{StructLayouts, Type};
use rokajit_x64::regs;
use rokajit_x64::target::RegClassKind;
use rokajit_x64::X64Target;

#[test]
fn reports_x64_machine_facts() {
    let target = X64Target;
    assert_eq!(target.pointer_size(), 8);
    assert_eq!(target.call_site_stack_alignment(), 16);
}

#[test]
fn register_classes_match_their_ids() {
    let classes = X64Target.register_classes();
    assert_eq!(
        classes[regs::GPR_CLASS_ID as usize].kind,
        RegClassKind::Int
    );
    assert_eq!(
        classes[regs::XMM_CLASS_ID as usize].kind,
        RegClassKind::Float
    );
}

#[test]
fn class_of_maps_the_ir_type_vocabulary() {
    let target = X64Target;
    let layouts = StructLayouts::new();
    for ty in [
        Type::Int32,
        Type::Int64,
        Type::NativeInt,
        Type::Ref,
        Type::ByRef,
    ] {
        assert_eq!(target.class_of(ty, &layouts), Some(regs::GPR_CLASS_ID));
    }
    for ty in [Type::Float, Type::Double] {
        assert_eq!(target.class_of(ty, &layouts), Some(regs::XMM_CLASS_ID));
    }
    assert_eq!(target.class_of(Type::Void, &layouts), None);
}
