//! Bump allocator: a heap `[heap_start, heap_end)` and an atomic "next free
//! address".  Each allocation rounds `next` up to the requested alignment and
//! advances it by the requested size; individual frees are no-ops and
//! `reset` gives the whole heap back at once.
//!
//! The allocator hands out addresses; it never touches the heap memory.
use std::sync::atomic::{AtomicUsize, Ordering};
use vstd::arithmetic::power2::pow2;
use vstd::prelude::*;

verus! {

/// `align` is a power of two, `2^k` with `k` below the width of `usize` (as
/// `Layout` guarantees for alignments).
pub open spec fn is_power_of_two(align: usize) -> bool {
    exists|k: nat| k < usize::BITS && #[trigger] pow2(k) == align
}

/// The smallest multiple of `align` that is at least `addr`.
pub open spec fn round_up(addr: int, align: int) -> int {
    ((addr + align - 1) / align) * align
}

/// Where an allocation of `size` bytes aligned to `align` lands when the next
/// free address is `next`: `Some((start, end))` when `[start, end)` fits
/// below `heap_end`, `None` when it does not.
pub open spec fn bump_region(next: usize, size: usize, align: usize, heap_end: usize) -> Option<
    (usize, usize),
> {
    let start = round_up(next as int, align as int);
    if start + size <= heap_end {
        Some((start as usize, (start + size) as usize))
    } else {
        None
    }
}

pub(crate) proof fn lemma_mask_rounds_down(x: usize, align: usize)
    requires
        is_power_of_two(align),
    ensures
        x & !((align - 1) as usize) == x - x % align,
        align > 0,
{
    let k = choose|k: nat| k < usize::BITS && #[trigger] pow2(k) == align;
    vstd::bits::lemma_usize_low_bits_mask_is_mod(x, k);
    vstd::arithmetic::power2::lemma_pow2_pos(k);
    let m = (align - 1) as usize;
    assert(vstd::bits::low_bits_mask(k) as usize == m);
    assert(x & !m == x - (x & m)) by (bit_vector);
}

/// Rounding up past the end of the address space: when `addr + align - 1`
/// overflows, the rounded address does not fit in a `usize` either.
pub(crate) proof fn lemma_round_up_overflow(addr: usize, align: usize)
    requires
        is_power_of_two(align),
        addr + align - 1 > usize::MAX,
    ensures
        round_up(addr as int, align as int) > usize::MAX,
{
    let k = choose|k: nat| k < usize::BITS && #[trigger] pow2(k) == align;
    let bits: nat = usize::BITS as nat;
    vstd::arithmetic::power2::lemma2_to64();
    vstd::arithmetic::power2::lemma_pow2_adds((bits - k) as nat, k);
    assert(pow2(bits) == usize::MAX + 1);
    let c = pow2((bits - k) as nat) as int;
    let a = align as int;
    let x = addr as int + a - 1;
    let q = x / a;
    vstd::arithmetic::div_mod::lemma_fundamental_div_mod(x, a);
    assert(0 <= x % a < a);
    if q * a <= usize::MAX {
        assert(c * a == usize::MAX + 1);
        assert(false) by (nonlinear_arith)
            requires
                c * a == usize::MAX + 1,
                q * a <= usize::MAX,
                q * a > x - a,
                x > usize::MAX,
                a > 0,
        ;
    }
}

/// Round `addr` up to a multiple of `align`: `(addr + align - 1) & !(align - 1)`.
pub(crate) fn align_up(addr: usize, align: usize) -> (r: usize)
    requires
        is_power_of_two(align),
        addr + align - 1 <= usize::MAX,
    ensures
        r == round_up(addr as int, align as int),
        r % align == 0,
        addr <= r < addr + align,
{
    proof {
        lemma_mask_rounds_down(addr, align);
    }
    let x = addr + (align - 1);
    proof {
        lemma_mask_rounds_down(x, align);
        vstd::arithmetic::div_mod::lemma_fundamental_div_mod(x as int, align as int);
        assert(x - x % align == (x / align) * align);
        vstd::arithmetic::div_mod::lemma_mod_multiples_basic(x as int / align as int, align as int);
    }
    x & !(align - 1)
}

/// The new value of the next free address after allocating from `next`,
/// `None` when the allocation does not fit.
fn bump_end(next: usize, size: usize, align: usize, heap_end: usize) -> (r: Option<usize>)
    requires
        is_power_of_two(align),
    ensures
        r == match bump_region(next, size, align, heap_end) {
            Some((_, end)) => Some(end),
            None => None::<usize>,
        },
{
    match bump_start(next, size, align, heap_end) {
        Some(start) => Some(start + size),
        None => None,
    }
}

/// The start of the allocation made from the next free address `next`,
/// `None` when it does not fit below `heap_end`.
pub fn bump_start(next: usize, size: usize, align: usize, heap_end: usize) -> (r: Option<usize>)
    requires
        is_power_of_two(align),
    ensures
        r == match bump_region(next, size, align, heap_end) {
            Some((start, _)) => Some(start),
            None => None::<usize>,
        },
        r matches Some(start) ==> start + size <= heap_end,
{
    proof {
        lemma_mask_rounds_down(0, align);
    }
    if next > usize::MAX - (align - 1) {
        // Rounding up would pass the end of the address space: no room.
        proof {
            lemma_round_up_overflow(next, align);
        }
        return None;
    }
    let start = align_up(next, align);
    if size > heap_end || start > heap_end - size {
        None
    } else {
        Some(start)
    }
}

/// `AtomicUsize::fetch_update` with the bump step as the update function:
/// std retries the update until its compare-exchange succeeds, and returns
/// `Ok(previous)` when the step produced a new value (which was stored) and
/// `Err(previous)` when the step returned `None` (nothing stored).
#[verifier::external_body]
fn claim_region(next: &AtomicUsize, size: usize, align: usize, heap_end: usize) -> (r: Result<
    usize,
    usize,
>)
    requires
        is_power_of_two(align),
    ensures
        r matches Ok(prev) ==> bump_region(prev, size, align, heap_end) is Some,
        r matches Err(prev) ==> bump_region(prev, size, align, heap_end) is None,
{
    next.fetch_update(Ordering::SeqCst, Ordering::SeqCst, |old| bump_end(old, size, align, heap_end))
}

/// A bump allocator over `[heap_start, heap_end)`.
pub struct BumpAllocator {
    heap_start: usize,
    heap_end: usize,
    next: AtomicUsize,
}

impl BumpAllocator {
    /// The first address of the heap.
    pub closed spec fn start(&self) -> usize {
        self.heap_start
    }

    /// One past the last address of the heap.
    pub closed spec fn end(&self) -> usize {
        self.heap_end
    }

    /// An allocator whose next free address is `heap_start`.
    pub fn new(heap_start: usize, heap_end: usize) -> (a: Self)
        ensures
            a.start() == heap_start,
            a.end() == heap_end,
    {
        Self { heap_start, heap_end, next: AtomicUsize::new(heap_start) }
    }

    /// Give the whole heap back: the next free address becomes `heap_start`.
    pub fn reset(&self) {
        self.next.store(self.heap_start, Ordering::SeqCst);
    }

    /// Allocate `size` bytes aligned to `align` (a power of two); `None`
    /// when the rest of the heap cannot hold them.  The next free address is
    /// shared with other threads, so which one this call bumps from is not
    /// known: the result is the region `bump_start` gives for it, or `None`
    /// when that address leaves no room.
    pub fn allocate(&self, size: usize, align: usize) -> (r: Option<usize>)
        requires
            is_power_of_two(align),
        ensures
            r matches Some(p) ==> {
                &&& p % align == 0
                &&& p + size <= self.end()
                &&& exists|prev: usize| #[trigger]
                    bump_region(prev, size, align, self.end()) == Some((p, (p + size) as usize))
            },
            r is None ==> exists|prev: usize| #[trigger]
                bump_region(prev, size, align, self.end()) is None,
    {
        match claim_region(&self.next, size, align, self.heap_end) {
            Ok(prev) => {
                let start = bump_start(prev, size, align, self.heap_end);
                match start {
                    Some(p) => {
                        proof {
                            lemma_mask_rounds_down(0, align);
                            lemma_round_up(prev as int, align as int);
                            assert(p == round_up(prev as int, align as int));
                            assert(p % align == 0);
                            assert(p + size <= self.heap_end);
                            assert(bump_region(prev, size, align, self.heap_end) == Some(
                                (p, (p + size) as usize),
                            ));
                        }
                        Some(p)
                    },
                    None => None,
                }
            },
            Err(prev) => {
                assert(bump_region(prev, size, align, self.heap_end) is None);
                None
            },
        }
    }

    /// Freeing a single allocation does nothing in a bump allocator.
    pub fn deallocate(&self, _addr: usize, _size: usize) {
    }
}

/// Two allocations made one after the other from the same heap do not
/// overlap, each is aligned, each starts at or after the next free address it
/// was made from, and each ends within the heap.
pub proof fn law_bump_allocations_disjoint(
    next: usize,
    size1: usize,
    align1: usize,
    size2: usize,
    align2: usize,
    heap_end: usize,
)
    requires
        is_power_of_two(align1),
        is_power_of_two(align2),
        bump_region(next, size1, align1, heap_end) is Some,
    ensures
        ({
            let (s1, e1) = bump_region(next, size1, align1, heap_end).unwrap();
            &&& next <= s1
            &&& s1 % align1 == 0
            &&& e1 == s1 + size1 <= heap_end
            &&& bump_region(e1, size2, align2, heap_end) matches Some((s2, e2)) ==> {
                &&& e1 <= s2
                &&& s2 % align2 == 0
                &&& e2 <= heap_end
            }
        }),
{
    let (s1, e1) = bump_region(next, size1, align1, heap_end).unwrap();
    lemma_mask_rounds_down(0, align1);
    lemma_mask_rounds_down(0, align2);
    lemma_round_up(next as int, align1 as int);
    lemma_round_up(e1 as int, align2 as int);
}

pub(crate) proof fn lemma_round_up(addr: int, align: int)
    requires
        0 <= addr,
        0 < align,
    ensures
        addr <= round_up(addr, align) < addr + align,
        round_up(addr, align) % align == 0,
{
    let x = addr + align - 1;
    vstd::arithmetic::div_mod::lemma_fundamental_div_mod(x, align);
    vstd::arithmetic::div_mod::lemma_mod_multiples_basic(x / align, align);
    assert(0 <= x % align < align);
    vstd::arithmetic::mul::lemma_mul_is_commutative(x / align, align);
    assert(round_up(addr, align) == x - x % align);
}

} // verus!
