use oscamp::syscall_abi::{aarch64_abi, riscv64_abi, x86_64_abi};

#[test]
fn test_x86_64_instruction() {
    let abi = x86_64_abi();
    assert_eq!(abi.arch, "x86_64");
    assert_eq!(abi.instruction, "syscall");
}

#[test]
fn test_x86_64_registers() {
    let abi = x86_64_abi();
    assert_eq!(abi.id_reg, "rax");
    assert_eq!(abi.ret_reg, "rax");
    assert_eq!(
        abi.arg_regs,
        &["rdi", "rsi", "rdx", "r10", "r8", "r9"],
        "x86_64 argument register order is incorrect"
    );
}

#[test]
fn test_x86_64_clobbered() {
    let abi = x86_64_abi();
    assert!(
        abi.clobbered.contains(&"rcx") && abi.clobbered.contains(&"r11"),
        "x86_64 syscall clobbers rcx and r11"
    );
}

#[test]
fn test_x86_64_syscall_numbers() {
    let abi = x86_64_abi();
    assert_eq!(abi.sys_write, 1);
    assert_eq!(abi.sys_read, 0);
    assert_eq!(abi.sys_close, 3);
    assert_eq!(abi.sys_exit, 60);
}

#[test]
fn test_aarch64_instruction() {
    let abi = aarch64_abi();
    assert_eq!(abi.arch, "aarch64");
    assert_eq!(abi.instruction, "svc #0");
}

#[test]
fn test_aarch64_registers() {
    let abi = aarch64_abi();
    assert_eq!(abi.id_reg, "x8");
    assert_eq!(abi.ret_reg, "x0");
    assert_eq!(
        abi.arg_regs,
        &["x0", "x1", "x2", "x3", "x4", "x5"],
        "aarch64 argument register order is incorrect"
    );
}

#[test]
fn test_aarch64_clobbered() {
    let abi = aarch64_abi();
    assert!(
        abi.clobbered.is_empty(),
        "aarch64 svc does not clobber additional registers"
    );
}

#[test]
fn test_aarch64_syscall_numbers() {
    let abi = aarch64_abi();
    assert_eq!(abi.sys_write, 64);
    assert_eq!(abi.sys_read, 63);
    assert_eq!(abi.sys_close, 57);
    assert_eq!(abi.sys_exit, 93);
}

#[test]
fn test_riscv64_instruction() {
    let abi = riscv64_abi();
    assert_eq!(abi.arch, "riscv64");
    assert_eq!(abi.instruction, "ecall");
}

#[test]
fn test_riscv64_registers() {
    let abi = riscv64_abi();
    assert_eq!(abi.id_reg, "a7");
    assert_eq!(abi.ret_reg, "a0");
    assert_eq!(
        abi.arg_regs,
        &["a0", "a1", "a2", "a3", "a4", "a5"],
        "riscv64 argument register order is incorrect"
    );
}

#[test]
fn test_riscv64_clobbered() {
    let abi = riscv64_abi();
    assert!(
        abi.clobbered.is_empty(),
        "riscv64 ecall does not clobber additional registers"
    );
}

#[test]
fn test_riscv64_syscall_numbers() {
    let abi = riscv64_abi();
    assert_eq!(abi.sys_write, 64);
    assert_eq!(abi.sys_read, 63);
    assert_eq!(abi.sys_close, 57);
    assert_eq!(abi.sys_exit, 93);
}

#[test]
fn test_aarch64_riscv64_share_numbers() {
    let aarch64 = aarch64_abi();
    let riscv64 = riscv64_abi();
    assert_eq!(
        aarch64.sys_write, riscv64.sys_write,
        "aarch64 and riscv64 share asm-generic syscall numbers"
    );
    assert_eq!(aarch64.sys_read, riscv64.sys_read);
    assert_eq!(aarch64.sys_close, riscv64.sys_close);
    assert_eq!(aarch64.sys_exit, riscv64.sys_exit);
}

#[test]
fn six_argument_registers_each() {
    for abi in [x86_64_abi(), aarch64_abi(), riscv64_abi()] {
        assert_eq!(abi.arg_regs.len(), 6);
    }
    // aarch64 and riscv64 return in the first argument register.
    assert_eq!(aarch64_abi().ret_reg, aarch64_abi().arg_regs[0]);
    assert_eq!(riscv64_abi().ret_reg, riscv64_abi().arg_regs[0]);
}
