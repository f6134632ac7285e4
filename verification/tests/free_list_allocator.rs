use oscamp::free_list_allocator::FreeListAllocator;
use std::alloc::Layout;

const HEAP_SIZE: usize = 4096;

fn make_allocator() -> (FreeListAllocator, Vec<u8>) {
    let mut heap = vec![0u8; HEAP_SIZE];
    let start = heap.as_mut_ptr() as usize;
    let alloc = FreeListAllocator::new(start, start + HEAP_SIZE);
    (alloc, heap)
}

#[test]
fn lib_test_alloc_basic() {
    let (mut alloc, _heap) = make_allocator();
    let layout = Layout::from_size_align(32, 8).unwrap();
    let ptr = alloc.allocate(layout.size(), layout.align());
    assert!(ptr.is_some());
}

#[test]
fn lib_test_alloc_alignment() {
    let (mut alloc, _heap) = make_allocator();
    for align in [1, 2, 4, 8, 16] {
        let layout = Layout::from_size_align(8, align).unwrap();
        let ptr = alloc.allocate(layout.size(), layout.align());
        assert!(ptr.is_some());
        assert_eq!(ptr.unwrap() % align, 0, "align={align}");
    }
}

#[test]
fn test_dealloc_and_reuse() {
    let (mut alloc, _heap) = make_allocator();
    let layout = Layout::from_size_align(64, 8).unwrap();

    let p1 = alloc.allocate(layout.size(), layout.align());
    assert!(p1.is_some());

    // After freeing, the next allocation should reuse the same block
    alloc.deallocate(p1.unwrap(), layout.size());
    let p2 = alloc.allocate(layout.size(), layout.align());
    assert!(p2.is_some());
    assert_eq!(p1, p2, "should reuse the freed block");
}

#[test]
fn test_multiple_alloc_dealloc() {
    let (mut alloc, _heap) = make_allocator();
    let layout = Layout::from_size_align(128, 8).unwrap();

    let p1 = alloc.allocate(layout.size(), layout.align());
    let p2 = alloc.allocate(layout.size(), layout.align());
    let p3 = alloc.allocate(layout.size(), layout.align());
    assert!(p1.is_some() && p2.is_some() && p3.is_some());

    alloc.deallocate(p2.unwrap(), layout.size());
    alloc.deallocate(p1.unwrap(), layout.size());

    let q1 = alloc.allocate(layout.size(), layout.align());
    let q2 = alloc.allocate(layout.size(), layout.align());
    assert!(q1.is_some() && q2.is_some());
}

#[test]
fn test_oom() {
    let (mut alloc, _heap) = make_allocator();
    let layout = Layout::from_size_align(HEAP_SIZE + 1, 1).unwrap();
    let ptr = alloc.allocate(layout.size(), layout.align());
    assert!(ptr.is_none(), "should return null when exceeding heap");
}

// ---- further cases ----

#[test]
fn freed_blocks_are_reused_last_in_first_out() {
    let mut alloc = FreeListAllocator::new(0x1000, 0x2000);
    let a = alloc.allocate(32, 8).unwrap();
    let b = alloc.allocate(32, 8).unwrap();
    assert_eq!((a, b), (0x1000, 0x1020));
    alloc.deallocate(a, 32);
    alloc.deallocate(b, 32);
    // Head of the list is the block freed last.
    assert_eq!(alloc.allocate(32, 8), Some(b));
    assert_eq!(alloc.allocate(32, 8), Some(a));
    // The list is empty again: fresh memory follows.
    assert_eq!(alloc.allocate(32, 8), Some(0x1040));
}

#[test]
fn first_fit_skips_small_and_misaligned_blocks() {
    let mut alloc = FreeListAllocator::new(0x1000, 0x2000);
    let big = alloc.allocate(0x100, 0x100).unwrap(); // 0x1000
    let small = alloc.allocate(16, 8).unwrap(); // 0x1100
    let odd = alloc.allocate(0x100, 8).unwrap(); // 0x1110
    assert_eq!((big, small, odd), (0x1000, 0x1100, 0x1110));
    alloc.deallocate(big, 0x100);
    alloc.deallocate(odd, 0x100);
    alloc.deallocate(small, 16);
    // List: small(16) -> odd(0x100 @ 0x1110) -> big(0x100 @ 0x1000).
    // A 0x80-byte request aligned to 0x100 skips small (too small) and odd
    // (misaligned) and takes big.
    assert_eq!(alloc.allocate(0x80, 0x100), Some(0x1000));
    // A small request takes the head.
    assert_eq!(alloc.allocate(1, 1), Some(0x1100));
}

#[test]
fn tiny_requests_get_a_whole_header() {
    let mut alloc = FreeListAllocator::new(0x1000, 0x2000);
    let a = alloc.allocate(1, 1).unwrap();
    let b = alloc.allocate(1, 1).unwrap();
    let header = 2 * std::mem::size_of::<usize>();
    assert_eq!(b - a, header);
    assert_eq!(a % std::mem::align_of::<usize>(), 0);
}

#[test]
fn bump_region_exhausted() {
    let mut alloc = FreeListAllocator::new(0x1000, 0x1040);
    assert_eq!(alloc.allocate(0x40, 8), Some(0x1000));
    assert_eq!(alloc.allocate(16, 8), None);
    alloc.deallocate(0x1000, 0x40);
    assert_eq!(alloc.allocate(16, 8), Some(0x1000));
}

#[test]
fn live_blocks_stay_disjoint_and_in_heap() {
    let (mut alloc, heap) = make_allocator();
    let start = heap.as_ptr() as usize;
    let end = start + HEAP_SIZE;
    let mut live: Vec<(usize, usize)> = Vec::new();
    for (size, align) in [(40usize, 8usize), (8, 16), (100, 32), (16, 8), (64, 64)] {
        let p = alloc.allocate(size, align).unwrap();
        live.push((p, size.max(16)));
    }
    // Free two of them and allocate again: the freed blocks are reused.
    let (a, _) = live.remove(1);
    alloc.deallocate(a, 8);
    let (b, _) = live.remove(2);
    alloc.deallocate(b, 16);
    for (size, align) in [(16usize, 8usize), (8, 8), (24, 8)] {
        let p = alloc.allocate(size, align).unwrap();
        live.push((p, size.max(16)));
    }
    for (i, &(p, n)) in live.iter().enumerate() {
        assert!(start <= p && p + n <= end);
        for &(q, m) in live.iter().skip(i + 1) {
            assert!(p + n <= q || q + m <= p, "blocks overlap");
        }
    }
}
