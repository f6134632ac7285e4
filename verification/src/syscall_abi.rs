//! Linux system call conventions of x86_64, aarch64 and riscv64.
//!
//! | Arch    | Instruction | Number | Return | Arguments                   |
//! |---------|-------------|--------|--------|-----------------------------|
//! | x86_64  | `syscall`   | rax    | rax    | rdi, rsi, rdx, r10, r8, r9  |
//! | aarch64 | `svc #0`    | x8     | x0     | x0 .. x5                    |
//! | riscv64 | `ecall`     | a7     | a0     | a0 .. a5                    |
//!
//! aarch64 and riscv64 share the asm-generic system call numbers.
use vstd::prelude::*;

verus! {

/// Description of the Linux system call ABI of one architecture.
pub struct SyscallABI {
    /// Architecture name.
    pub arch: &'static str,
    /// Instruction that enters the kernel.
    pub instruction: &'static str,
    /// Register holding the system call number.
    pub id_reg: &'static str,
    /// Register holding the return value.
    pub ret_reg: &'static str,
    /// Argument registers, in order.
    pub arg_regs: &'static [&'static str],
    /// Registers the instruction clobbers besides the return register.
    pub clobbered: &'static [&'static str],
    /// `write` system call number.
    pub sys_write: usize,
    /// `read` system call number.
    pub sys_read: usize,
    /// `close` system call number.
    pub sys_close: usize,
    /// `exit` system call number.
    pub sys_exit: usize,
}

/// The names in `regs`, as strings.
pub open spec fn names(regs: &[&str]) -> Seq<Seq<char>> {
    regs@.map_values(|r: &str| r@)
}

/// The x86_64 Linux ABI.
pub fn x86_64_abi() -> (abi: SyscallABI)
    ensures
        abi.arch@ == "x86_64"@,
        abi.instruction@ == "syscall"@,
        abi.id_reg@ == "rax"@,
        abi.ret_reg@ == "rax"@,
        names(abi.arg_regs) == seq!["rdi"@, "rsi"@, "rdx"@, "r10"@, "r8"@, "r9"@],
        names(abi.clobbered) == seq!["rcx"@, "r11"@],
        abi.sys_write == 1,
        abi.sys_read == 0,
        abi.sys_close == 3,
        abi.sys_exit == 60,
{
    let abi = SyscallABI {
        arch: "x86_64",
        instruction: "syscall",
        id_reg: "rax",
        ret_reg: "rax",
        arg_regs: &["rdi", "rsi", "rdx", "r10", "r8", "r9"],
        clobbered: &["rcx", "r11"],
        sys_write: 1,
        sys_read: 0,
        sys_close: 3,
        sys_exit: 60,
    };
    assert(names(abi.arg_regs) =~= seq!["rdi"@, "rsi"@, "rdx"@, "r10"@, "r8"@, "r9"@]);
    assert(names(abi.clobbered) =~= seq!["rcx"@, "r11"@]);
    abi
}

/// The aarch64 Linux ABI.
pub fn aarch64_abi() -> (abi: SyscallABI)
    ensures
        abi.arch@ == "aarch64"@,
        abi.instruction@ == "svc #0"@,
        abi.id_reg@ == "x8"@,
        abi.ret_reg@ == "x0"@,
        names(abi.arg_regs) == seq!["x0"@, "x1"@, "x2"@, "x3"@, "x4"@, "x5"@],
        names(abi.clobbered) == Seq::<Seq<char>>::empty(),
        abi.sys_write == 64,
        abi.sys_read == 63,
        abi.sys_close == 57,
        abi.sys_exit == 93,
{
    let abi = SyscallABI {
        arch: "aarch64",
        instruction: "svc #0",
        id_reg: "x8",
        ret_reg: "x0",
        arg_regs: &["x0", "x1", "x2", "x3", "x4", "x5"],
        clobbered: &[],
        sys_write: 64,
        sys_read: 63,
        sys_close: 57,
        sys_exit: 93,
    };
    assert(names(abi.arg_regs) =~= seq!["x0"@, "x1"@, "x2"@, "x3"@, "x4"@, "x5"@]);
    assert(names(abi.clobbered) =~= Seq::<Seq<char>>::empty());
    abi
}

/// The riscv64 Linux ABI.
pub fn riscv64_abi() -> (abi: SyscallABI)
    ensures
        abi.arch@ == "riscv64"@,
        abi.instruction@ == "ecall"@,
        abi.id_reg@ == "a7"@,
        abi.ret_reg@ == "a0"@,
        names(abi.arg_regs) == seq!["a0"@, "a1"@, "a2"@, "a3"@, "a4"@, "a5"@],
        names(abi.clobbered) == Seq::<Seq<char>>::empty(),
        abi.sys_write == 64,
        abi.sys_read == 63,
        abi.sys_close == 57,
        abi.sys_exit == 93,
{
    let abi = SyscallABI {
        arch: "riscv64",
        instruction: "ecall",
        id_reg: "a7",
        ret_reg: "a0",
        arg_regs: &["a0", "a1", "a2", "a3", "a4", "a5"],
        clobbered: &[],
        sys_write: 64,
        sys_read: 63,
        sys_close: 57,
        sys_exit: 93,
    };
    assert(names(abi.arg_regs) =~= seq!["a0"@, "a1"@, "a2"@, "a3"@, "a4"@, "a5"@]);
    assert(names(abi.clobbered) =~= Seq::<Seq<char>>::empty());
    abi
}

} // verus!
