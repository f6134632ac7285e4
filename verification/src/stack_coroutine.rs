//! Saved register state of a stackful coroutine (riscv64 layout) and its
//! stack.
//!
//! A context holds the callee-saved registers: `sp`, `ra` and `s0`..`s11`.
//! Switching to a fresh context restores `sp` and returns to `ra`, so a
//! context prepared with `init` starts running at its entry point on its own
//! stack.  The switch itself is assembly and lives with the program.
use vstd::prelude::*;

verus! {

/// Size of a coroutine stack: 64 KiB.
pub const STACK_SIZE: usize = 1024 * 64;

/// Saved registers of one task: `sp`, `ra` and `s0`..`s11`.  The switch code
/// finds each field by its offset in this struct.
#[derive(Debug, Default, Clone, Copy)]
pub struct TaskContext {
    pub sp: u64,
    pub ra: u64,
    pub s0: u64,
    pub s1: u64,
    pub s2: u64,
    pub s3: u64,
    pub s4: u64,
    pub s5: u64,
    pub s6: u64,
    pub s7: u64,
    pub s8: u64,
    pub s9: u64,
    pub s10: u64,
    pub s11: u64,
}

/// `top` is the top of a stack buffer of `size` bytes at `addr`: the end of
/// the buffer rounded down to 16 bytes, inside the buffer.
pub open spec fn stack_top_of(addr: usize, size: usize, top: int) -> bool {
    &&& addr + size <= usize::MAX
    &&& top == align16_down((addr + size) as usize)
    &&& addr < top <= addr + size
}

/// `addr` rounded down to a multiple of 16 (the RISC-V stack alignment).
pub open spec fn align16_down(addr: usize) -> usize {
    addr & !15usize
}

/// The callee-saved registers `s0`..`s11` of `c` are all zero.
pub open spec fn saved_regs_zero(c: TaskContext) -> bool {
    c.s0 == 0 && c.s1 == 0 && c.s2 == 0 && c.s3 == 0 && c.s4 == 0 && c.s5 == 0 && c.s6 == 0
        && c.s7 == 0 && c.s8 == 0 && c.s9 == 0 && c.s10 == 0 && c.s11 == 0
}

impl TaskContext {
    /// A context with every register zero.
    pub fn empty() -> (c: Self)
        ensures
            c.sp == 0,
            c.ra == 0,
            saved_regs_zero(c),
    {
        Self {
            sp: 0,
            ra: 0,
            s0: 0,
            s1: 0,
            s2: 0,
            s3: 0,
            s4: 0,
            s5: 0,
            s6: 0,
            s7: 0,
            s8: 0,
            s9: 0,
            s10: 0,
            s11: 0,
        }
    }

    /// Prepare the context to start at `entry` on the stack ending at
    /// `stack_top`: `ra = entry`, `sp = stack_top` rounded down to 16 bytes;
    /// the saved registers are left as they are.
    pub fn init(&mut self, stack_top: usize, entry: usize)
        ensures
            final(self).ra == entry as u64,
            final(self).sp == align16_down(stack_top) as u64,
            final(self).s0 == old(self).s0,
            final(self).s1 == old(self).s1,
            final(self).s2 == old(self).s2,
            final(self).s3 == old(self).s3,
            final(self).s4 == old(self).s4,
            final(self).s5 == old(self).s5,
            final(self).s6 == old(self).s6,
            final(self).s7 == old(self).s7,
            final(self).s8 == old(self).s8,
            final(self).s9 == old(self).s9,
            final(self).s10 == old(self).s10,
            final(self).s11 == old(self).s11,
    {
        self.ra = entry as u64;
        self.sp = (stack_top & !15) as u64;
    }
}

/// The start address of the heap buffer of `buf` (`Vec::as_ptr` as an
/// address).  An allocation never wraps around the end of the address
/// space, so the buffer's end address fits in a `usize`; which address the
/// allocator picks is not stated.
#[verifier::external_body]
pub(crate) fn buffer_address(buf: &Vec<u8>) -> (addr: usize)
    ensures
        addr + buf@.len() <= usize::MAX,
{
    buf.as_ptr() as usize
}

/// The top of a stack buffer of `size` bytes at address `addr`: the end of
/// the buffer rounded down to 16 bytes.
pub fn stack_top_for(addr: usize, size: usize) -> (top: usize)
    requires
        addr + size <= usize::MAX,
    ensures
        top == align16_down((addr + size) as usize),
        top % 16 == 0,
        size >= 16 ==> stack_top_of(addr, size, top as int),
{
    let end = addr + size;
    proof {
        lemma_align16_down(end);
    }
    end & !15
}

/// A zeroed stack of `STACK_SIZE` bytes and its top: the end address of the
/// buffer rounded down to 16 bytes (the stack grows down from there).  The
/// buffer must stay alive while a context runs on it.  Which address the
/// allocator gives the buffer is not stated; the top is `stack_top_for`
/// applied to it.
pub fn alloc_stack() -> (r: (Vec<u8>, usize))
    ensures
        r.0@ == Seq::new(STACK_SIZE as nat, |_i: int| 0u8),
        r.1 % 16 == 0,
        exists|addr: usize| #[trigger]
            stack_top_of(addr, STACK_SIZE, r.1 as int),
{
    let buffer = vec![0u8; STACK_SIZE];
    assert(buffer@ =~= Seq::new(STACK_SIZE as nat, |_i: int| 0u8));
    let addr = buffer_address(&buffer);
    let top = stack_top_for(addr, STACK_SIZE);
    let r = (buffer, top);
    assert(stack_top_of(addr, STACK_SIZE, r.1 as int));
    r
}

/// Rounding down to 16 bytes gives a multiple of 16 at most 15 below.
pub proof fn lemma_align16_down(addr: usize)
    ensures
        align16_down(addr) % 16 == 0,
        align16_down(addr) <= addr,
        addr - align16_down(addr) < 16,
{
    assert((addr & !15usize) % 16 == 0 && addr & !15usize <= addr && addr - (addr & !15usize) < 16)
        by (bit_vector);
}

/// The top of a stack buffer is its high end: inside the buffer, less than
/// 16 bytes below its end, and far above its start for any real stack.
pub proof fn law_stack_top_is_high_end(base: usize, size: usize)
    requires
        size >= 16,
        base + size <= usize::MAX,
    ensures
        base < align16_down((base + size) as usize) <= base + size,
        base + size - align16_down((base + size) as usize) < 16,
        align16_down((base + size) as usize) % 16 == 0,
        align16_down((base + size) as usize) >= base + size - 15,
{
    lemma_align16_down((base + size) as usize);
}

} // verus!
