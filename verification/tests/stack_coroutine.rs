use oscamp::stack_coroutine::{alloc_stack, stack_top_for, TaskContext, STACK_SIZE};

fn task_entry() {}

#[test]
fn test_alloc_stack() {
    let (buf, top) = alloc_stack();
    assert_eq!(top, buf.as_ptr() as usize + STACK_SIZE);
    assert!(top % 16 == 0);
}

#[test]
fn test_context_init() {
    let (buf, top) = alloc_stack();
    let _ = buf;
    let mut ctx = TaskContext::empty();
    let entry = task_entry as fn() as usize;
    ctx.init(top, entry);
    assert_eq!(ctx.ra, entry as u64);
    assert!(ctx.sp != 0);
}

// ---- further cases ----

#[test]
fn init_rounds_stack_down_and_keeps_saved_registers() {
    let mut ctx = TaskContext::empty();
    ctx.s3 = 7;
    ctx.init(0x1000_001F, 0x4000);
    assert_eq!(ctx.sp, 0x1000_0010);
    assert_eq!(ctx.ra, 0x4000);
    assert_eq!(ctx.s3, 7);
    assert_eq!(ctx.s0, 0);
}

#[test]
fn stack_is_zeroed_and_sized() {
    let (buf, top) = alloc_stack();
    assert_eq!(buf.len(), STACK_SIZE);
    assert!(buf.iter().all(|&b| b == 0));
    assert!(top <= buf.as_ptr() as usize + STACK_SIZE);
    assert!(top + 16 > buf.as_ptr() as usize + STACK_SIZE);
}

#[test]
fn empty_context_is_zero() {
    let ctx = TaskContext::empty();
    assert_eq!((ctx.sp, ctx.ra, ctx.s0, ctx.s11), (0, 0, 0, 0));
}

#[test]
fn stack_top_is_buffer_end_rounded_down() {
    assert_eq!(stack_top_for(0x1000, 0x1000), 0x2000);
    assert_eq!(stack_top_for(0x1003, 0x1000), 0x2000);
    assert_eq!(stack_top_for(0x100f, 0x1000), 0x2000);
    assert_eq!(stack_top_for(0x1010, 0x1000), 0x2010);
    // The top of the stack alloc_stack returns is computed from its buffer.
    let (buf, top) = alloc_stack();
    assert_eq!(top, stack_top_for(buf.as_ptr() as usize, STACK_SIZE));
}
