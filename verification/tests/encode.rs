use rokajit_x64::encode::{
    encode_modrm, encode_modrm_x, Asm, Disp, EncodeError, Mem, ModRmEnc, Rm, RmX, Rmi, Scale,
};
use rokajit_x64::inst::FWidth::{D, S};
use rokajit_x64::inst::Width::{W32, W64};
use rokajit_x64::inst::{ArithFOp, CondCode, ShiftOp};
use rokajit_x64::ir::{BlockId, Label, MethodHandle};
use rokajit_x64::regs::Gpr::{
    Rax, Rbp, Rbx, Rcx, Rdi, Rdx, Rsi, Rsp, R10, R11, R12, R13, R15, R8, R9,
};
use rokajit_x64::regs::Xmm::{
    Xmm0, Xmm1, Xmm10, Xmm12, Xmm14, Xmm15, Xmm2, Xmm3, Xmm4, Xmm5, Xmm6, Xmm7, Xmm8, Xmm9,
};

fn label(block: u32) -> Label {
    Label(BlockId(block))
}

fn finish(f: impl FnOnce(&mut Asm)) -> Vec<u8> {
    let mut a = Asm::new();
    f(&mut a);
    a.finalize().expect("all labels bound").bytes
}

#[test]
fn movzx_load_forms() {
    assert_eq!(
        finish(|a| a.movzx_load(1, Rax, Mem::base_disp(Rbp, -4))),
        [0x0F, 0xB6, 0x45, 0xFC]
    );
    assert_eq!(
        finish(|a| a.movzx_load(2, Rax, Mem::base_disp(Rbp, -4))),
        [0x0F, 0xB7, 0x45, 0xFC]
    );
    assert_eq!(
        finish(|a| a.movzx_load(1, R9, Mem::base_disp(Rsp, 8))),
        [0x44, 0x0F, 0xB6, 0x4C, 0x24, 0x08]
    );
}

#[test]
fn mov_store_narrow_forms() {
    assert_eq!(
        finish(|a| a.mov_store_narrow(1, Mem::base_disp(Rbp, -4), Rax)),
        [0x40, 0x88, 0x45, 0xFC]
    );
    assert_eq!(
        finish(|a| a.mov_store_narrow(1, Mem::base_disp(Rbp, -4), Rsi)),
        [0x40, 0x88, 0x75, 0xFC]
    );
    assert_eq!(
        finish(|a| a.mov_store_narrow(1, Mem::base_disp(Rbp, -4), R8)),
        [0x44, 0x88, 0x45, 0xFC]
    );
    assert_eq!(
        finish(|a| a.mov_store_narrow(2, Mem::base_disp(Rsp, 8), Rax)),
        [0x66, 0x89, 0x44, 0x24, 0x08]
    );
}

#[test]
fn mov_rr() {
    assert_eq!(
        finish(|a| a.mov(W32, Rm::Reg(Rcx), Rmi::Reg(Rax))),
        [0x89, 0xC1]
    );
    assert_eq!(
        finish(|a| a.mov(W64, Rm::Reg(Rcx), Rmi::Reg(Rax))),
        [0x48, 0x89, 0xC1]
    );
    assert_eq!(
        finish(|a| a.mov(W64, Rm::Reg(R8), Rmi::Reg(Rax))),
        [0x49, 0x89, 0xC0]
    );
    assert_eq!(
        finish(|a| a.mov(W64, Rm::Reg(Rax), Rmi::Reg(R8))),
        [0x4C, 0x89, 0xC0]
    );
    assert_eq!(
        finish(|a| a.mov(W64, Rm::Reg(R8), Rmi::Reg(R15))),
        [0x4D, 0x89, 0xF8]
    );
    assert_eq!(
        finish(|a| a.mov(W32, Rm::Reg(R15), Rmi::Reg(R8))),
        [0x45, 0x89, 0xC7]
    );
}

#[test]
fn mov_ri() {
    assert_eq!(
        finish(|a| a.mov(W32, Rm::Reg(Rax), Rmi::Imm(5))),
        [0xB8, 5, 0, 0, 0]
    );
    assert_eq!(
        finish(|a| a.mov(W32, Rm::Reg(R10), Rmi::Imm(-1))),
        [0x41, 0xBA, 0xFF, 0xFF, 0xFF, 0xFF]
    );
    assert_eq!(
        finish(|a| a.mov(W64, Rm::Reg(Rax), Rmi::Imm(5))),
        [0x48, 0xC7, 0xC0, 5, 0, 0, 0]
    );
    assert_eq!(
        finish(|a| a.mov(W64, Rm::Reg(Rax), Rmi::Imm(-1))),
        [0x48, 0xC7, 0xC0, 0xFF, 0xFF, 0xFF, 0xFF]
    );
}

#[test]
fn mov_ri_imm64_movabs() {
    let bytes = finish(|a| a.mov(W64, Rm::Reg(Rax), Rmi::Imm(0x1234_5678_9ABC_DEF0)));
    assert_eq!(
        bytes,
        [0x48, 0xB8, 0xF0, 0xDE, 0xBC, 0x9A, 0x78, 0x56, 0x34, 0x12]
    );
    let bytes = finish(|a| a.mov(W64, Rm::Reg(R11), Rmi::Imm(0x1234_5678_9ABC_DEF0)));
    assert_eq!(
        bytes,
        [0x49, 0xBB, 0xF0, 0xDE, 0xBC, 0x9A, 0x78, 0x56, 0x34, 0x12]
    );
    let bytes = finish(|a| a.mov(W64, Rm::Reg(Rax), Rmi::Imm(i32::MAX as i64)));
    assert_eq!(bytes, [0x48, 0xC7, 0xC0, 0xFF, 0xFF, 0xFF, 0x7F]);
    let bytes = finish(|a| a.mov(W64, Rm::Reg(Rax), Rmi::Imm(i32::MAX as i64 + 1)));
    assert_eq!(bytes, [0x48, 0xB8, 0x00, 0x00, 0x00, 0x80, 0, 0, 0, 0]);
}

#[test]
fn mov_ri_w32_truncates_the_i64_payload() {
    let bytes = finish(|a| a.mov(W32, Rm::Reg(Rax), Rmi::Imm(0x1_0000_0005)));
    assert_eq!(bytes, [0xB8, 5, 0, 0, 0]);
}

#[test]
fn mov_mem_forms() {
    let slot8 = Mem::base_disp(Rbp, -8);
    assert_eq!(
        finish(|a| a.mov(W64, Rm::Reg(Rax), Rmi::Mem(slot8))),
        [0x48, 0x8B, 0x45, 0xF8]
    );
    assert_eq!(
        finish(|a| a.mov(W64, Rm::Mem(slot8), Rmi::Reg(Rax))),
        [0x48, 0x89, 0x45, 0xF8]
    );
    assert_eq!(
        finish(|a| a.mov(W32, Rm::Mem(slot8), Rmi::Reg(Rax))),
        [0x89, 0x45, 0xF8]
    );
    assert_eq!(
        finish(|a| a.mov(W64, Rm::Mem(slot8), Rmi::Reg(R9))),
        [0x4C, 0x89, 0x4D, 0xF8]
    );
    assert_eq!(
        finish(|a| a.mov(W64, Rm::Reg(R9), Rmi::Mem(slot8))),
        [0x4C, 0x8B, 0x4D, 0xF8]
    );
    assert_eq!(
        finish(|a| a.mov(W64, Rm::Mem(slot8), Rmi::Imm(5))),
        [0x48, 0xC7, 0x45, 0xF8, 5, 0, 0, 0]
    );
}

#[test]
fn mov_mem_displacement_widths() {
    assert_eq!(
        finish(|a| a.mov(W64, Rm::Reg(Rax), Rmi::Mem(Mem::base(Rbp)))),
        [0x48, 0x8B, 0x45, 0x00]
    );
    assert_eq!(
        finish(|a| a.mov(W64, Rm::Reg(Rax), Rmi::Mem(Mem::base(R13)))),
        [0x49, 0x8B, 0x45, 0x00]
    );
    assert_eq!(
        finish(|a| a.mov(W64, Rm::Reg(Rax), Rmi::Mem(Mem::base(Rbx)))),
        [0x48, 0x8B, 0x03]
    );
    assert_eq!(
        finish(|a| a.mov(W64, Rm::Reg(Rax), Rmi::Mem(Mem::base_disp(Rbp, -200)))),
        [0x48, 0x8B, 0x85, 0x38, 0xFF, 0xFF, 0xFF]
    );
    assert_eq!(
        finish(|a| a.mov(W64, Rm::Reg(Rax), Rmi::Mem(Mem::base_disp(Rbp, -128)))),
        [0x48, 0x8B, 0x45, 0x80]
    );
    assert_eq!(
        finish(|a| a.mov(W32, Rm::Reg(Rax), Rmi::Mem(Mem::base_disp(Rbx, 0x1234)))),
        [0x8B, 0x83, 0x34, 0x12, 0x00, 0x00]
    );
}

#[test]
fn mov_mem_sib_forms() {
    assert_eq!(
        finish(|a| a.mov(W64, Rm::Reg(Rax), Rmi::Mem(Mem::base_disp(Rsp, 8)))),
        [0x48, 0x8B, 0x44, 0x24, 0x08]
    );
    assert_eq!(
        finish(|a| a.mov(W64, Rm::Reg(Rax), Rmi::Mem(Mem::base_disp(R12, 8)))),
        [0x49, 0x8B, 0x44, 0x24, 0x08]
    );
    assert_eq!(
        finish(|a| a.mov(W64, Rm::Mem(Mem::base(Rsp)), Rmi::Reg(Rax))),
        [0x48, 0x89, 0x04, 0x24]
    );
    assert_eq!(
        finish(|a| {
            a.mov(
                W64,
                Rm::Reg(Rax),
                Rmi::Mem(Mem::base_index_disp(Rbp, Rcx, Scale::X2, -8)),
            );
        }),
        [0x48, 0x8B, 0x44, 0x4D, 0xF8]
    );
}

#[test]
fn mov_mem_sib_no_base() {
    assert_eq!(
        finish(|a| a.mov(
            W64,
            Rm::Reg(Rax),
            Rmi::Mem(Mem::index_disp(Rcx, Scale::X4, 0x20))
        )),
        [0x48, 0x8B, 0x04, 0x8D, 0x20, 0x00, 0x00, 0x00]
    );
    assert_eq!(
        finish(|a| a.mov(
            W64,
            Rm::Reg(Rax),
            Rmi::Mem(Mem::index_disp(R9, Scale::X8, 0x20))
        )),
        [0x4A, 0x8B, 0x04, 0xCD, 0x20, 0x00, 0x00, 0x00]
    );
    assert_eq!(
        finish(|a| a.mov(W64, Rm::Reg(Rax), Rmi::Mem(Mem::abs(0x1234)))),
        [0x48, 0x8B, 0x04, 0x25, 0x34, 0x12, 0x00, 0x00]
    );
}

#[test]
fn lea_frame_slot_address() {
    assert_eq!(
        finish(|a| a.lea(R11, Mem::base_disp(Rbp, -0x20))),
        [0x4C, 0x8D, 0x5D, 0xE0]
    );
    assert_eq!(finish(|a| a.lea(Rax, Mem::base(Rbx))), [0x48, 0x8D, 0x03]);
}

#[test]
fn add_forms() {
    assert_eq!(
        finish(|a| a.add(W32, Rm::Reg(Rax), Rmi::Reg(Rcx))),
        [0x01, 0xC8]
    );
    assert_eq!(
        finish(|a| a.add(W64, Rm::Reg(Rax), Rmi::Reg(Rcx))),
        [0x48, 0x01, 0xC8]
    );
    assert_eq!(
        finish(|a| a.add(W32, Rm::Reg(R9), Rmi::Reg(R10))),
        [0x45, 0x01, 0xD1]
    );
    assert_eq!(
        finish(|a| a.add(W64, Rm::Reg(Rax), Rmi::Imm(5))),
        [0x48, 0x83, 0xC0, 0x05]
    );
    assert_eq!(
        finish(|a| a.add(W64, Rm::Reg(Rcx), Rmi::Imm(0x1234))),
        [0x48, 0x81, 0xC1, 0x34, 0x12, 0x00, 0x00]
    );
    assert_eq!(
        finish(|a| a.add(W64, Rm::Reg(Rax), Rmi::Imm(-1))),
        [0x48, 0x83, 0xC0, 0xFF]
    );
    assert_eq!(
        finish(|a| a.add(W32, Rm::Reg(R9), Rmi::Imm(5))),
        [0x41, 0x83, 0xC1, 0x05]
    );
    assert_eq!(
        finish(|a| a.add(W64, Rm::Mem(Mem::base_disp(Rbp, -8)), Rmi::Imm(1))),
        [0x48, 0x83, 0x45, 0xF8, 0x01]
    );
    assert_eq!(
        finish(|a| a.add(W64, Rm::Reg(Rax), Rmi::Mem(Mem::base_disp(Rbp, -8)))),
        [0x48, 0x03, 0x45, 0xF8]
    );
    assert_eq!(
        finish(|a| a.add(W32, Rm::Reg(Rax), Rmi::Imm(0x1_0000_0005))),
        [0x83, 0xC0, 0x05]
    );
}

#[test]
fn sub_forms() {
    assert_eq!(
        finish(|a| a.sub(W64, Rm::Reg(Rdx), Rmi::Reg(Rax))),
        [0x48, 0x29, 0xC2]
    );
    assert_eq!(
        finish(|a| a.sub(W64, Rm::Reg(Rsp), Rmi::Imm(0x28))),
        [0x48, 0x83, 0xEC, 0x28]
    );
    assert_eq!(
        finish(|a| a.sub(W64, Rm::Reg(Rsp), Rmi::Imm(0x100))),
        [0x48, 0x81, 0xEC, 0x00, 0x01, 0x00, 0x00]
    );
    assert_eq!(
        finish(|a| a.sub(W32, Rm::Reg(Rcx), Rmi::Imm(0x80))),
        [0x81, 0xE9, 0x80, 0x00, 0x00, 0x00]
    );
    assert_eq!(
        finish(|a| a.sub(W64, Rm::Reg(Rax), Rmi::Mem(Mem::base_disp(Rbp, -8)))),
        [0x48, 0x2B, 0x45, 0xF8]
    );
}

#[test]
fn imul_forms() {
    assert_eq!(
        finish(|a| a.imul(W64, Rax, Rm::Reg(Rcx))),
        [0x48, 0x0F, 0xAF, 0xC1]
    );
    assert_eq!(
        finish(|a| a.imul(W32, Rax, Rm::Reg(Rdx))),
        [0x0F, 0xAF, 0xC2]
    );
    assert_eq!(
        finish(|a| a.imul(W64, R10, Rm::Reg(R9))),
        [0x4D, 0x0F, 0xAF, 0xD1]
    );
    assert_eq!(
        finish(|a| a.imul(W64, Rax, Rm::Mem(Mem::base_disp(Rbp, -8)))),
        [0x48, 0x0F, 0xAF, 0x45, 0xF8]
    );
    assert_eq!(
        finish(|a| a.imul_imm(W64, Rax, Rm::Reg(Rcx), 5)),
        [0x48, 0x6B, 0xC1, 0x05]
    );
    assert_eq!(
        finish(|a| a.imul_imm(W64, Rax, Rm::Reg(Rcx), 0x1234)),
        [0x48, 0x69, 0xC1, 0x34, 0x12, 0x00, 0x00]
    );
    assert_eq!(
        finish(|a| a.imul_imm(W64, R8, Rm::Reg(R9), -3)),
        [0x4D, 0x6B, 0xC1, 0xFD]
    );
}

#[test]
fn cmp_forms() {
    assert_eq!(
        finish(|a| a.cmp(W32, Rm::Reg(Rax), Rmi::Reg(Rcx))),
        [0x39, 0xC8]
    );
    assert_eq!(
        finish(|a| a.cmp(W64, Rm::Reg(R15), Rmi::Reg(R8))),
        [0x4D, 0x39, 0xC7]
    );
    assert_eq!(
        finish(|a| a.cmp(W64, Rm::Reg(Rax), Rmi::Imm(0))),
        [0x48, 0x83, 0xF8, 0x00]
    );
    assert_eq!(
        finish(|a| a.cmp(W64, Rm::Reg(Rdi), Rmi::Imm(0x1234))),
        [0x48, 0x81, 0xFF, 0x34, 0x12, 0x00, 0x00]
    );
    assert_eq!(
        finish(|a| a.cmp(W32, Rm::Mem(Mem::base_disp(Rbp, -4)), Rmi::Imm(0))),
        [0x83, 0x7D, 0xFC, 0x00]
    );
    assert_eq!(
        finish(|a| a.cmp(W64, Rm::Reg(Rax), Rmi::Mem(Mem::base_disp(Rbp, -8)))),
        [0x48, 0x3B, 0x45, 0xF8]
    );
}

#[test]
fn test_forms() {
    assert_eq!(
        finish(|a| a.test(W32, Rm::Reg(Rax), Rmi::Reg(Rax))),
        [0x85, 0xC0]
    );
    assert_eq!(
        finish(|a| a.test(W64, Rm::Reg(Rax), Rmi::Reg(Rax))),
        [0x48, 0x85, 0xC0]
    );
    assert_eq!(
        finish(|a| a.test(W64, Rm::Reg(Rcx), Rmi::Imm(1))),
        [0x48, 0xF7, 0xC1, 0x01, 0x00, 0x00, 0x00]
    );
    assert_eq!(
        finish(|a| a.test(W64, Rm::Mem(Mem::base_disp(Rbp, -8)), Rmi::Imm(1))),
        [0x48, 0xF7, 0x45, 0xF8, 0x01, 0x00, 0x00, 0x00]
    );
    assert_eq!(
        finish(|a| a.test(W64, Rm::Mem(Mem::base_disp(Rbp, -8)), Rmi::Reg(Rax))),
        [0x48, 0x85, 0x45, 0xF8]
    );
}

#[test]
fn idiv_and_cdq_forms() {
    assert_eq!(finish(|a| a.cdq(W32)), [0x99]);
    assert_eq!(finish(|a| a.cdq(W64)), [0x48, 0x99]);
    assert_eq!(finish(|a| a.idiv(W32, Rm::Reg(Rcx))), [0xF7, 0xF9]);
    assert_eq!(finish(|a| a.idiv(W64, Rm::Reg(Rcx))), [0x48, 0xF7, 0xF9]);
    assert_eq!(finish(|a| a.idiv(W32, Rm::Reg(R8))), [0x41, 0xF7, 0xF8]);
    assert_eq!(
        finish(|a| a.idiv(W32, Rm::Mem(Mem::base_disp(Rbp, -4)))),
        [0xF7, 0x7D, 0xFC]
    );
}

#[test]
fn push_pop_forms() {
    assert_eq!(finish(|a| a.push(Rbp)), [0x55]);
    assert_eq!(finish(|a| a.push(R12)), [0x41, 0x54]);
    assert_eq!(finish(|a| a.push(R15)), [0x41, 0x57]);
    assert_eq!(finish(|a| a.pop(Rbp)), [0x5D]);
    assert_eq!(finish(|a| a.pop(R12)), [0x41, 0x5C]);
}

#[test]
fn leave_ret_nop() {
    assert_eq!(finish(|a| a.leave()), [0xC9]);
    assert_eq!(finish(|a| a.ret()), [0xC3]);
    assert_eq!(finish(|a| a.nop()), [0x90]);
}

#[test]
fn jmp_forward_fixup() {
    let bytes = finish(|a| {
        a.jmp(label(1));
        a.nop();
        a.bind(label(1));
        a.ret();
    });
    assert_eq!(bytes, [0xE9, 0x01, 0x00, 0x00, 0x00, 0x90, 0xC3]);
}

#[test]
fn jmp_backward_negative_rel32() {
    let bytes = finish(|a| {
        a.bind(label(0));
        a.nop();
        a.jmp(label(0));
    });
    assert_eq!(bytes, [0x90, 0xE9, 0xFA, 0xFF, 0xFF, 0xFF]);
}

#[test]
fn jcc_opcode_table_and_negative_rel32() {
    let cases: [(CondCode, u8); 10] = [
        (CondCode::Eq, 0x84),
        (CondCode::Ne, 0x85),
        (CondCode::Lt, 0x8C),
        (CondCode::Le, 0x8E),
        (CondCode::Gt, 0x8F),
        (CondCode::Ge, 0x8D),
        (CondCode::ULt, 0x82),
        (CondCode::ULe, 0x86),
        (CondCode::UGt, 0x87),
        (CondCode::UGe, 0x83),
    ];
    for (cc, opcode) in cases {
        let bytes = finish(|a| {
            a.bind(label(0));
            a.jcc(cc, label(0));
        });
        assert_eq!(bytes, [0x0F, opcode, 0xFA, 0xFF, 0xFF, 0xFF], "{cc:?}");
    }
}

#[test]
fn loop_skeleton_backward_branch() {
    let bytes = finish(|a| {
        a.bind(label(0));
        a.sub(W32, Rm::Reg(Rax), Rmi::Imm(1));
        a.test(W32, Rm::Reg(Rax), Rmi::Reg(Rax));
        a.jcc(CondCode::Ne, label(0));
        a.ret();
    });
    assert_eq!(
        bytes,
        [
            0x83, 0xE8, 0x01,
            0x85, 0xC0,
            0x0F, 0x85, 0xF5, 0xFF, 0xFF, 0xFF,
            0xC3,
        ]
    );
}

#[test]
fn call_label_fixup() {
    let bytes = finish(|a| {
        a.call_label(label(1));
        a.nop();
        a.bind(label(1));
        a.ret();
    });
    assert_eq!(bytes, [0xE8, 0x01, 0x00, 0x00, 0x00, 0x90, 0xC3]);
}

#[test]
fn lea_rip_fixup() {
    let bytes = finish(|a| {
        a.lea_rip(Rax, label(1));
        a.nop();
        a.bind(label(1));
        a.ret();
    });
    assert_eq!(
        bytes,
        [0x48, 0x8D, 0x05, 0x01, 0x00, 0x00, 0x00, 0x90, 0xC3]
    );
    let bytes = finish(|a| {
        a.lea_rip(R9, label(1));
        a.bind(label(1));
    });
    assert_eq!(bytes, [0x4C, 0x8D, 0x0D, 0x00, 0x00, 0x00, 0x00]);
    let bytes = finish(|a| {
        a.bind(label(0));
        a.nop();
        a.lea_rip(Rax, label(0));
    });
    assert_eq!(bytes, [0x90, 0x48, 0x8D, 0x05, 0xF8, 0xFF, 0xFF, 0xFF]);
}

#[test]
fn unbound_label_is_an_error_not_a_panic() {
    let mut a = Asm::new();
    a.jmp(label(7));
    assert_eq!(
        a.finalize().map(|_| ()).unwrap_err(),
        EncodeError::UnboundLabel(label(7))
    );
}

fn fake_method() -> MethodHandle {
    MethodHandle(0x1000)
}

#[test]
fn call_direct_emits_placeholder_and_reloc() {
    let mut a = Asm::new();
    let method = fake_method();
    a.call(method);
    a.ret();
    let code = a.finalize().unwrap();
    assert_eq!(code.bytes, [0xE8, 0, 0, 0, 0, 0xC3]);
    assert_eq!(code.call_relocs.len(), 1);
    assert_eq!(code.call_relocs[0].method, method);
    assert_eq!(code.call_relocs[0].offset, 1);
}

#[test]
fn call_reloc_patches_rel32_against_runtime_addresses() {
    let mut a = Asm::new();
    a.call(fake_method());
    a.ret();
    let mut code = a.finalize().unwrap();
    code.call_relocs[0]
        .patch(&mut code.bytes, 0x1000, 0x1010)
        .unwrap();
    assert_eq!(code.bytes, [0xE8, 0x0B, 0x00, 0x00, 0x00, 0xC3]);
    code.call_relocs[0]
        .patch(&mut code.bytes, 0x2000, 0x1000)
        .unwrap();
    assert_eq!(code.bytes, [0xE8, 0xFB, 0xEF, 0xFF, 0xFF, 0xC3]);
}

#[test]
fn and_or_xor_forms() {
    assert_eq!(
        finish(|a| a.and(W32, Rm::Reg(Rax), Rmi::Reg(Rcx))),
        [0x21, 0xC8]
    );
    assert_eq!(
        finish(|a| a.or(W64, Rm::Reg(Rax), Rmi::Reg(Rcx))),
        [0x48, 0x09, 0xC8]
    );
    assert_eq!(
        finish(|a| a.xor(W32, Rm::Reg(Rax), Rmi::Reg(Rcx))),
        [0x31, 0xC8]
    );
    assert_eq!(
        finish(|a| a.xor(W32, Rm::Reg(Rax), Rmi::Imm(5))),
        [0x83, 0xF0, 0x05]
    );
    assert_eq!(
        finish(|a| a.and(W64, Rm::Reg(Rcx), Rmi::Imm(0x1234))),
        [0x48, 0x81, 0xE1, 0x34, 0x12, 0x00, 0x00]
    );
    assert_eq!(
        finish(|a| a.or(W32, Rm::Reg(R9), Rmi::Imm(-1))),
        [0x41, 0x83, 0xC9, 0xFF]
    );
    assert_eq!(
        finish(|a| a.and(W32, Rm::Reg(Rax), Rmi::Mem(Mem::base_disp(Rbp, -8)))),
        [0x23, 0x45, 0xF8]
    );
    assert_eq!(
        finish(|a| a.xor(W64, Rm::Mem(Mem::base_disp(Rbp, -8)), Rmi::Reg(Rax))),
        [0x48, 0x31, 0x45, 0xF8]
    );
}

#[test]
fn neg_not_div_forms() {
    assert_eq!(finish(|a| a.neg(W32, Rm::Reg(Rax))), [0xF7, 0xD8]);
    assert_eq!(finish(|a| a.neg(W64, Rm::Reg(R8))), [0x49, 0xF7, 0xD8]);
    assert_eq!(finish(|a| a.not(W64, Rm::Reg(Rax))), [0x48, 0xF7, 0xD0]);
    assert_eq!(finish(|a| a.not(W32, Rm::Reg(R15))), [0x41, 0xF7, 0xD7]);
    assert_eq!(finish(|a| a.div(W32, Rm::Reg(Rcx))), [0xF7, 0xF1]);
    assert_eq!(finish(|a| a.div(W64, Rm::Reg(R8))), [0x49, 0xF7, 0xF0]);
    assert_eq!(
        finish(|a| a.div(W32, Rm::Mem(Mem::base_disp(Rbp, -4)))),
        [0xF7, 0x75, 0xFC]
    );
}

#[test]
fn shift_forms() {
    assert_eq!(
        finish(|a| a.shift_cl(ShiftOp::Shl, W32, Rm::Reg(Rax))),
        [0xD3, 0xE0]
    );
    assert_eq!(
        finish(|a| a.shift_cl(ShiftOp::Sar, W64, Rm::Reg(Rax))),
        [0x48, 0xD3, 0xF8]
    );
    assert_eq!(
        finish(|a| a.shift_cl(ShiftOp::Shr, W32, Rm::Reg(R10))),
        [0x41, 0xD3, 0xEA]
    );
    assert_eq!(
        finish(|a| a.shift_cl(ShiftOp::Sar, W32, Rm::Reg(Rcx))),
        [0xD3, 0xF9]
    );
    assert_eq!(
        finish(|a| a.shift_imm(ShiftOp::Shr, W32, Rm::Reg(Rax), 7)),
        [0xC1, 0xE8, 0x07]
    );
    assert_eq!(
        finish(|a| a.shift_imm(ShiftOp::Shl, W32, Rm::Reg(Rax), 24)),
        [0xC1, 0xE0, 0x18]
    );
    assert_eq!(
        finish(|a| a.shift_imm(ShiftOp::Sar, W32, Rm::Reg(Rax), 24)),
        [0xC1, 0xF8, 0x18]
    );
    assert_eq!(
        finish(|a| a.shift_imm(ShiftOp::Shl, W32, Rm::Reg(Rax), 1)),
        [0xD1, 0xE0]
    );
    assert_eq!(
        finish(|a| a.shift_imm(ShiftOp::Shr, W64, Rm::Reg(R9), 63)),
        [0x49, 0xC1, 0xE9, 0x3F]
    );
}

#[test]
fn setcc_forms() {
    assert_eq!(finish(|a| a.setcc(CondCode::UGe, Rax)), [0x0F, 0x93, 0xC0]);
    assert_eq!(finish(|a| a.setcc(CondCode::Eq, Rcx)), [0x0F, 0x94, 0xC1]);
    assert_eq!(finish(|a| a.setcc(CondCode::Le, Rbx)), [0x0F, 0x9E, 0xC3]);
    assert_eq!(
        finish(|a| a.setcc(CondCode::ULt, Rsi)),
        [0x40, 0x0F, 0x92, 0xC6]
    );
    assert_eq!(
        finish(|a| a.setcc(CondCode::Gt, R8)),
        [0x41, 0x0F, 0x9F, 0xC0]
    );
}

#[test]
fn movsxd_forms() {
    assert_eq!(finish(|a| a.movsxd(Rax, Rm::Reg(Rcx))), [0x48, 0x63, 0xC1]);
    assert_eq!(finish(|a| a.movsxd(R9, Rm::Reg(R8))), [0x4D, 0x63, 0xC8]);
    assert_eq!(
        finish(|a| a.movsxd(R11, Rm::Mem(Mem::base_disp(Rbp, -8)))),
        [0x4C, 0x63, 0x5D, 0xF8]
    );
}

#[test]
fn movs_forms() {
    assert_eq!(
        finish(|a| a.mov_f_load(D, Xmm0, RmX::Reg(Xmm1))),
        [0xF2, 0x0F, 0x10, 0xC1]
    );
    assert_eq!(
        finish(|a| a.mov_f_load(S, Xmm3, RmX::Mem(Mem::base_disp(Rbp, -8)))),
        [0xF3, 0x0F, 0x10, 0x5D, 0xF8]
    );
    assert_eq!(
        finish(|a| a.mov_f_store(D, Mem::base_disp(Rbp, -16), Xmm5)),
        [0xF2, 0x0F, 0x11, 0x6D, 0xF0]
    );
    assert_eq!(
        finish(|a| a.mov_f_load(D, Xmm15, RmX::Reg(Xmm14))),
        [0xF2, 0x45, 0x0F, 0x10, 0xFE]
    );
}

#[test]
fn arith_f_forms() {
    assert_eq!(
        finish(|a| a.arith_f(ArithFOp::Add, D, Xmm0, RmX::Reg(Xmm1))),
        [0xF2, 0x0F, 0x58, 0xC1]
    );
    assert_eq!(
        finish(|a| a.arith_f(ArithFOp::Add, S, Xmm2, RmX::Mem(Mem::base_disp(Rbp, -4)))),
        [0xF3, 0x0F, 0x58, 0x55, 0xFC]
    );
    assert_eq!(
        finish(|a| a.arith_f(ArithFOp::Sub, D, Xmm3, RmX::Reg(Xmm2))),
        [0xF2, 0x0F, 0x5C, 0xDA]
    );
    assert_eq!(
        finish(|a| a.arith_f(ArithFOp::Mul, D, Xmm4, RmX::Mem(Mem::base_disp(Rbp, -24)))),
        [0xF2, 0x0F, 0x59, 0x65, 0xE8]
    );
    assert_eq!(
        finish(|a| a.arith_f(ArithFOp::Div, D, Xmm7, RmX::Reg(Xmm6))),
        [0xF2, 0x0F, 0x5E, 0xFE]
    );
    assert_eq!(
        finish(|a| a.arith_f(ArithFOp::Min, D, Xmm0, RmX::Reg(Xmm1))),
        [0xF2, 0x0F, 0x5D, 0xC1]
    );
    assert_eq!(
        finish(|a| a.arith_f(ArithFOp::Max, D, Xmm3, RmX::Reg(Xmm2))),
        [0xF2, 0x0F, 0x5F, 0xDA]
    );
    assert_eq!(
        finish(|a| a.arith_f(ArithFOp::Min, S, Xmm4, RmX::Reg(Xmm5))),
        [0xF3, 0x0F, 0x5D, 0xE5]
    );
    assert_eq!(
        finish(|a| a.arith_f(ArithFOp::Max, S, Xmm6, RmX::Mem(Mem::base_disp(Rbp, -8)))),
        [0xF3, 0x0F, 0x5F, 0x75, 0xF8]
    );
}

#[test]
fn ucomis_and_xor_forms() {
    assert_eq!(
        finish(|a| a.ucomis(S, Xmm0, RmX::Reg(Xmm1))),
        [0x0F, 0x2E, 0xC1]
    );
    assert_eq!(
        finish(|a| a.ucomis(D, Xmm0, RmX::Reg(Xmm1))),
        [0x66, 0x0F, 0x2E, 0xC1]
    );
    assert_eq!(
        finish(|a| a.ucomis(D, Xmm2, RmX::Mem(Mem::base_disp(Rbp, -8)))),
        [0x66, 0x0F, 0x2E, 0x55, 0xF8]
    );
    assert_eq!(
        finish(|a| a.xor_f(S, Xmm0, RmX::Reg(Xmm1))),
        [0x0F, 0x57, 0xC1]
    );
    assert_eq!(
        finish(|a| a.xor_f(D, Xmm8, RmX::Reg(Xmm9))),
        [0x66, 0x45, 0x0F, 0x57, 0xC1]
    );
}

#[test]
fn cvt_forms() {
    assert_eq!(
        finish(|a| a.cvtsi2s(D, Xmm0, Rm::Reg(Rax), false)),
        [0xF2, 0x0F, 0x2A, 0xC0]
    );
    assert_eq!(
        finish(|a| a.cvtsi2s(S, Xmm1, Rm::Reg(Rax), true)),
        [0xF3, 0x48, 0x0F, 0x2A, 0xC8]
    );
    assert_eq!(
        finish(|a| a.cvtsi2s(D, Xmm2, Rm::Mem(Mem::base_disp(Rbp, -8)), false)),
        [0xF2, 0x0F, 0x2A, 0x55, 0xF8]
    );
    assert_eq!(
        finish(|a| a.cvtts2si(D, Rax, RmX::Reg(Xmm0), false)),
        [0xF2, 0x0F, 0x2C, 0xC0]
    );
    assert_eq!(
        finish(|a| a.cvtts2si(D, Rax, RmX::Reg(Xmm0), true)),
        [0xF2, 0x48, 0x0F, 0x2C, 0xC0]
    );
    assert_eq!(
        finish(|a| a.cvtts2si(S, Rcx, RmX::Reg(Xmm2), false)),
        [0xF3, 0x0F, 0x2C, 0xCA]
    );
    assert_eq!(
        finish(|a| a.cvts2s(D, Xmm0, RmX::Reg(Xmm1))),
        [0xF3, 0x0F, 0x5A, 0xC1]
    );
    assert_eq!(
        finish(|a| a.cvts2s(S, Xmm0, RmX::Mem(Mem::base_disp(Rbp, -8)))),
        [0xF2, 0x0F, 0x5A, 0x45, 0xF8]
    );
}

#[test]
fn mov_gpr_to_xmm_forms() {
    assert_eq!(
        finish(|a| a.mov_gpr_to_xmm(D, Xmm0, Rax)),
        [0x66, 0x48, 0x0F, 0x6E, 0xC0]
    );
    assert_eq!(
        finish(|a| a.mov_gpr_to_xmm(S, Xmm1, Rax)),
        [0x66, 0x0F, 0x6E, 0xC8]
    );
    assert_eq!(
        finish(|a| a.mov_gpr_to_xmm(D, Xmm10, R9)),
        [0x66, 0x4D, 0x0F, 0x6E, 0xD1]
    );
}

#[test]
fn parity_condition_codes() {
    let bytes = finish(|a| {
        a.bind(label(0));
        a.jcc(CondCode::Parity, label(0));
    });
    assert_eq!(bytes, [0x0F, 0x8A, 0xFA, 0xFF, 0xFF, 0xFF]);
    let bytes = finish(|a| {
        a.bind(label(0));
        a.jcc(CondCode::NotParity, label(0));
    });
    assert_eq!(bytes, [0x0F, 0x8B, 0xFA, 0xFF, 0xFF, 0xFF]);
}

#[test]
fn fib_frame_prolog_epilog() {
    let bytes = finish(|a| {
        a.push(Rbp);
        a.mov(W64, Rm::Reg(Rbp), Rmi::Reg(Rsp));
        a.sub(W64, Rm::Reg(Rsp), Rmi::Imm(0x20));
        a.mov(W64, Rm::Mem(Mem::base_disp(Rbp, -8)), Rmi::Reg(Rdi));
        a.lea(Rax, Mem::base_disp(Rbp, -0x20));
        a.leave();
        a.ret();
    });
    assert_eq!(
        bytes,
        [
            0x55,
            0x48, 0x89, 0xE5,
            0x48, 0x83, 0xEC, 0x20,
            0x48, 0x89, 0x7D, 0xF8,
            0x48, 0x8D, 0x45, 0xE0,
            0xC9,
            0xC3,
        ]
    );
}

#[test]
fn float_operands_encode_like_integer_ones() {
    let enc = encode_modrm_x(false, 9, RmX::Reg(Xmm12));
    assert_eq!(
        enc,
        ModRmEnc {
            rex: 5,
            modrm: 0xCC,
            sib: None,
            disp: Disp::Absent,
        }
    );
    assert_eq!(enc, encode_modrm(false, 9, Rm::Reg(R12)));
    assert_eq!(
        encode_modrm_x(true, 2, RmX::Reg(Xmm7)),
        ModRmEnc {
            rex: 8,
            modrm: 0xD7,
            sib: None,
            disp: Disp::Absent,
        }
    );
    let mem = Mem::base_disp(Rbp, -8);
    assert_eq!(
        encode_modrm_x(false, 15, RmX::Mem(mem)),
        encode_modrm(false, 15, Rm::Mem(mem))
    );
}
