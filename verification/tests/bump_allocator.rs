use oscamp::bump_allocator::{bump_start, BumpAllocator};
use std::alloc::Layout;

const HEAP_SIZE: usize = 4096;

fn make_allocator() -> (BumpAllocator, Vec<u8>) {
    let mut heap = vec![0u8; HEAP_SIZE];
    let start = heap.as_mut_ptr() as usize;
    let alloc = BumpAllocator::new(start, start + HEAP_SIZE);
    (alloc, heap)
}

#[test]
fn test_alloc_basic() {
    let (alloc, _heap) = make_allocator();
    let layout = Layout::from_size_align(16, 8).unwrap();
    let ptr = alloc.allocate(layout.size(), layout.align());
    assert!(ptr.is_some(), "allocation should succeed");
}

#[test]
fn test_alloc_alignment() {
    let (alloc, _heap) = make_allocator();
    for align in [1, 2, 4, 8, 16, 64] {
        let layout = Layout::from_size_align(1, align).unwrap();
        let ptr = alloc.allocate(layout.size(), layout.align());
        assert!(ptr.is_some());
        assert_eq!(
            ptr.unwrap() % align,
            0,
            "returned address must satisfy align={align}"
        );
    }
}

#[test]
fn test_alloc_no_overlap() {
    let (alloc, _heap) = make_allocator();
    let layout = Layout::from_size_align(64, 8).unwrap();
    let p1 = alloc.allocate(layout.size(), layout.align()).unwrap();
    let p2 = alloc.allocate(layout.size(), layout.align()).unwrap();
    assert!(
        p1 + 64 <= p2 || p2 + 64 <= p1,
        "two allocations must not overlap"
    );
}

#[test]
fn test_alloc_oom() {
    let (alloc, _heap) = make_allocator();
    let layout = Layout::from_size_align(HEAP_SIZE + 1, 1).unwrap();
    let ptr = alloc.allocate(layout.size(), layout.align());
    assert!(ptr.is_none(), "should return null when exceeding heap");
}

#[test]
fn test_alloc_fill_heap() {
    let (alloc, _heap) = make_allocator();
    let layout = Layout::from_size_align(256, 1).unwrap();
    for i in 0..16 {
        let ptr = alloc.allocate(layout.size(), layout.align());
        assert!(ptr.is_some(), "allocation #{i} should succeed");
    }
    let ptr = alloc.allocate(layout.size(), layout.align());
    assert!(ptr.is_none(), "should return null when heap is full");
}

#[test]
fn test_reset() {
    let (alloc, _heap) = make_allocator();
    let layout = Layout::from_size_align(HEAP_SIZE, 1).unwrap();
    let p1 = alloc.allocate(layout.size(), layout.align());
    assert!(p1.is_some());
    alloc.reset();
    let p2 = alloc.allocate(layout.size(), layout.align());
    assert!(p2.is_some(), "should be able to allocate after reset");
    assert_eq!(
        p1, p2,
        "address after reset should match the first allocation"
    );
}

// ---- further cases ----

#[test]
fn allocations_follow_each_other() {
    // Heap at a fixed, aligned address: exact addresses are known.
    let alloc = BumpAllocator::new(0x1000, 0x2000);
    assert_eq!(alloc.allocate(3, 1), Some(0x1000));
    assert_eq!(alloc.allocate(8, 8), Some(0x1008));
    assert_eq!(alloc.allocate(1, 0x100), Some(0x1100));
    assert_eq!(alloc.allocate(0xF00, 1), None);
    assert_eq!(alloc.allocate(0xEFF, 1), Some(0x1101));
    assert_eq!(alloc.allocate(1, 1), None);
}

#[test]
fn exact_fit_at_heap_end() {
    let alloc = BumpAllocator::new(0x10, 0x20);
    assert_eq!(alloc.allocate(0x10, 16), Some(0x10));
    assert_eq!(alloc.allocate(0, 1), Some(0x20));
    assert_eq!(alloc.allocate(1, 1), None);
}

#[test]
fn no_room_near_end_of_address_space() {
    // Rounding up would pass the end of the address space.
    let alloc = BumpAllocator::new(usize::MAX - 2, usize::MAX);
    assert_eq!(alloc.allocate(1, 8), None);
    assert_eq!(alloc.allocate(1, 1), Some(usize::MAX - 2));
}

#[test]
fn dealloc_is_a_no_op() {
    let alloc = BumpAllocator::new(0x100, 0x200);
    let p = alloc.allocate(0x10, 1).unwrap();
    alloc.deallocate(p, 0x10);
    assert_eq!(alloc.allocate(0x10, 1), Some(0x110));
}

#[test]
fn bump_start_rounds_up_and_checks_room() {
    assert_eq!(bump_start(0x1001, 16, 16, 0x2000), Some(0x1010));
    assert_eq!(bump_start(0x1000, 16, 16, 0x2000), Some(0x1000));
    // Exactly up to the end still fits; one byte more does not.
    assert_eq!(bump_start(0x1ff0, 16, 16, 0x2000), Some(0x1ff0));
    assert_eq!(bump_start(0x1ff1, 16, 16, 0x2000), None);
    // Rounding up past the end of the address space leaves no room.
    assert_eq!(bump_start(usize::MAX, 0, 16, usize::MAX), None);
}
