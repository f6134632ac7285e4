//! Free-list allocator: a bump allocator that also recycles freed blocks.
//!
//! Freed blocks go to the front of a singly linked free list (LIFO).  An
//! allocation first takes the first block of the list that is aligned and
//! large enough (first fit, whole block, no splitting); when none fits it
//! carves fresh memory from the bump region `[bump_next, heap_end)`.
//!
//! Every block is at least as large as, and aligned at least like, the
//! free-block header (a size word and a link), so that it can be put back on
//! the list.  The list is held here as a sequence, head first; the allocator
//! hands out addresses and never touches the heap memory.
use crate::bump_allocator::{align_up, is_power_of_two, lemma_round_up_overflow, round_up};
use vstd::arithmetic::power2::pow2;
use vstd::prelude::*;

verus! {

/// A free block of `size` bytes at `addr`.
#[derive(Clone, Copy, Debug, PartialEq, Eq, Structural)]
pub struct FreeBlock {
    pub addr: usize,
    pub size: usize,
}

/// Size of the free-block header: a size word and a link, two machine words.
pub open spec fn header_size() -> usize {
    (2 * (usize::BITS / 8)) as usize
}

/// Alignment of the free-block header: one machine word.
pub open spec fn header_align() -> usize {
    (usize::BITS / 8) as usize
}

/// The size actually reserved for a request of `size` bytes.
pub open spec fn block_size(size: usize) -> usize {
    if size >= header_size() {
        size
    } else {
        header_size()
    }
}

/// The alignment actually used for a request aligned to `align`.
pub open spec fn block_align(align: usize) -> usize {
    if align >= header_align() {
        align
    } else {
        header_align()
    }
}

/// Block `b` can serve a request: it is aligned and large enough.
pub open spec fn fits(b: FreeBlock, size: usize, align: usize) -> bool {
    b.addr % align == 0 && b.size >= size
}

/// Index of the first block of `blocks` that fits, `blocks.len()` if none.
pub open spec fn first_fit(blocks: Seq<FreeBlock>, size: usize, align: usize) -> int
    decreases blocks.len(),
{
    if blocks.len() == 0 {
        0
    } else if fits(blocks[0], size, align) {
        0
    } else {
        1 + first_fit(blocks.drop_first(), size, align)
    }
}

/// Carving `[start, end)` from the bump region whose next free address is
/// `next`: `None` when the region is used up or the block does not fit
/// (the end is computed with saturation, as the allocator does).
pub open spec fn bump_step(next: usize, size: usize, align: usize, heap_end: usize) -> Option<
    (usize, usize),
> {
    let start = round_up(next as int, align as int);
    let end = if start + size > usize::MAX {
        usize::MAX as int
    } else {
        start + size
    };
    if next >= heap_end || start > usize::MAX || end > heap_end {
        None
    } else {
        Some((start as usize, end as usize))
    }
}

/// Outcome of allocating `size` bytes aligned to `align`: the address
/// handed out, the free list and the bump pointer afterwards.
pub open spec fn alloc_outcome(
    blocks: Seq<FreeBlock>,
    next: usize,
    heap_end: usize,
    size: usize,
    align: usize,
) -> (Option<usize>, Seq<FreeBlock>, usize) {
    let sz = block_size(size);
    let al = block_align(align);
    let i = first_fit(blocks, sz, al);
    if i < blocks.len() {
        (Some(blocks[i].addr), blocks.remove(i), next)
    } else {
        match bump_step(next, sz, al, heap_end) {
            Some((start, end)) => (Some(start), blocks, end),
            None => (None, blocks, next),
        }
    }
}

/// The free list after freeing `size` bytes at `addr`: a new head block.
pub open spec fn dealloc_outcome(blocks: Seq<FreeBlock>, addr: usize, size: usize) -> Seq<
    FreeBlock,
> {
    seq![FreeBlock { addr, size: block_size(size) }] + blocks
}

proof fn lemma_first_fit(blocks: Seq<FreeBlock>, size: usize, align: usize, i: int)
    requires
        0 <= i <= blocks.len(),
        forall|j: int| 0 <= j < i ==> !fits(#[trigger] blocks[j], size, align),
        i < blocks.len() ==> fits(blocks[i], size, align),
    ensures
        first_fit(blocks, size, align) == i,
    decreases blocks.len(),
{
    if blocks.len() > 0 && i > 0 {
        let rest = blocks.drop_first();
        assert forall|j: int| 0 <= j < i - 1 implies !fits(#[trigger] rest[j], size, align) by {
            assert(rest[j] == blocks[j + 1]);
        }
        lemma_first_fit(rest, size, align, i - 1);
    }
}

proof fn lemma_first_fit_bounds(blocks: Seq<FreeBlock>, size: usize, align: usize)
    ensures
        0 <= first_fit(blocks, size, align) <= blocks.len(),
        first_fit(blocks, size, align) < blocks.len() ==> fits(
            blocks[first_fit(blocks, size, align)],
            size,
            align,
        ),
    decreases blocks.len(),
{
    if blocks.len() > 0 && !fits(blocks[0], size, align) {
        lemma_first_fit_bounds(blocks.drop_first(), size, align);
    }
}

proof fn lemma_word_is_power_of_two()
    ensures
        is_power_of_two(header_align()),
        header_size() == 2 * header_align(),
        header_align() == 4 || header_align() == 8,
{
    vstd::arithmetic::power2::lemma2_to64();
    if usize::BITS == 32 {
        assert(pow2(2) == header_align());
    } else {
        assert(pow2(3) == header_align());
    }
}

proof fn lemma_block_align_multiple(align: usize)
    requires
        is_power_of_two(align),
    ensures
        block_align(align) % align == 0,
        is_power_of_two(block_align(align)),
        block_align(align) > 0,
        align > 0,
{
    lemma_word_is_power_of_two();
    crate::bump_allocator::lemma_mask_rounds_down(0, align);
    if align < header_align() {
        let k = choose|k: nat| k < usize::BITS && #[trigger] pow2(k) == align;
        vstd::arithmetic::power2::lemma2_to64();
        if k >= 3 {
            vstd::arithmetic::power2::lemma_pow2_strictly_increases(2, k);
            if k > 3 {
                vstd::arithmetic::power2::lemma_pow2_strictly_increases(3, k);
            }
        }
        assert(k < 3);
        assert(align == 1 || align == 2 || align == 4);
    }
}

proof fn lemma_mod_of_multiple(p: int, big: int, small: int)
    requires
        small > 0,
        big > 0,
        big % small == 0,
        p % big == 0,
        p >= 0,
    ensures
        p % small == 0,
{
    vstd::arithmetic::div_mod::lemma_fundamental_div_mod(big, small);
    vstd::arithmetic::div_mod::lemma_fundamental_div_mod(p, big);
    let c = big / small;
    let m = p / big;
    assert(p == (m * c) * small) by (nonlinear_arith)
        requires
            p == big * m + 0,
            big == small * c + 0,
    ;
    vstd::arithmetic::div_mod::lemma_mod_multiples_basic(m * c, small);
}

/// Every address handed out is aligned as requested.
pub proof fn law_allocation_aligned(
    blocks: Seq<FreeBlock>,
    next: usize,
    heap_end: usize,
    size: usize,
    align: usize,
)
    requires
        is_power_of_two(align),
    ensures
        alloc_outcome(blocks, next, heap_end, size, align).0 matches Some(p) ==> p % align == 0,
{
    let sz = block_size(size);
    let al = block_align(align);
    lemma_block_align_multiple(align);
    lemma_first_fit_bounds(blocks, sz, al);
    let i = first_fit(blocks, sz, al);
    if i < blocks.len() {
        lemma_mod_of_multiple(blocks[i].addr as int, al as int, align as int);
    } else if let Some((start, end)) = bump_step(next, sz, al, heap_end) {
        crate::bump_allocator::lemma_round_up(next as int, al as int);
        lemma_mod_of_multiple(start as int, al as int, align as int);
    }
}

/// A block freed and then requested again with the same size and a
/// compatible alignment is handed out again, and the allocator is back to
/// where it was before the free.
pub proof fn law_freed_block_is_reused(
    blocks: Seq<FreeBlock>,
    next: usize,
    heap_end: usize,
    addr: usize,
    size: usize,
    align: usize,
)
    requires
        addr % block_align(align) == 0,
    ensures
        alloc_outcome(dealloc_outcome(blocks, addr, size), next, heap_end, size, align) == (
            Some(addr),
            blocks,
            next,
        ),
{
    let freed = dealloc_outcome(blocks, addr, size);
    lemma_first_fit(freed, block_size(size), block_align(align), 0);
    assert(freed.remove(0) =~= blocks);
}

/// Memory carved from the bump region starts at or after the bump pointer,
/// ends within the heap, and the bump pointer only moves forward, to the end
/// of that block (for a heap that ends below the top of the address space,
/// where the end of a block is never cut off by saturation).
pub proof fn law_bump_region_advances(
    blocks: Seq<FreeBlock>,
    next: usize,
    heap_end: usize,
    size: usize,
    align: usize,
)
    requires
        is_power_of_two(align),
        heap_end < usize::MAX,
    ensures
        ({
            let (r, after, next2) = alloc_outcome(blocks, next, heap_end, size, align);
            &&& next <= next2
            &&& next2 != next ==> (r matches Some(p) && next <= p && p + block_size(size) == next2
                && next2 <= heap_end && after == blocks)
        }),
{
    let sz = block_size(size);
    let al = block_align(align);
    lemma_block_align_multiple(align);
    lemma_word_is_power_of_two();
    crate::bump_allocator::lemma_round_up(next as int, al as int);
}

/// Blocks `a` and `b` share no byte.
pub open spec fn disjoint(a: FreeBlock, b: FreeBlock) -> bool {
    a.addr + a.size <= b.addr || b.addr + b.size <= a.addr
}

/// Block `a` lies inside block `b`.
pub open spec fn inside(a: FreeBlock, b: FreeBlock) -> bool {
    b.addr <= a.addr && a.addr + a.size <= b.addr + b.size
}

/// No two blocks of `s` share a byte.
pub open spec fn pairwise_disjoint(s: Seq<FreeBlock>) -> bool {
    forall|i: int, j: int|
        0 <= i < s.len() && 0 <= j < s.len() && i != j ==> disjoint(#[trigger] s[i], #[trigger] s[j])
}

/// Every block of `s` lies in `[lo, hi)`.
pub open spec fn all_within(s: Seq<FreeBlock>, lo: int, hi: int) -> bool {
    forall|i: int| 0 <= i < s.len() ==> lo <= (#[trigger] s[i]).addr && s[i].addr + s[i].size <= hi
}

/// The heap is laid out soundly: the free blocks `blocks` and the blocks
/// handed out and not yet freed, `live`, lie in the part of the heap the bump
/// pointer `next` has passed, and no two of them overlap.
pub open spec fn heap_layout(
    blocks: Seq<FreeBlock>,
    live: Seq<FreeBlock>,
    heap_start: usize,
    next: usize,
    heap_end: usize,
) -> bool {
    &&& heap_start <= next <= heap_end
    &&& all_within(blocks + live, heap_start as int, next as int)
    &&& pairwise_disjoint(blocks + live)
}

/// `t` is `s` with blocks taken apart or shrunk: each block of `t` lies
/// inside its own block of `s`, by the injective index map `f`.
proof fn lemma_reindex(s: Seq<FreeBlock>, t: Seq<FreeBlock>, f: spec_fn(int) -> int, lo: int, hi: int)
    requires
        pairwise_disjoint(s),
        all_within(s, lo, hi),
        forall|j: int| 0 <= j < t.len() ==> 0 <= #[trigger] f(j) < s.len() && inside(t[j], s[f(j)]),
        forall|j1: int, j2: int|
            0 <= j1 < t.len() && 0 <= j2 < t.len() && j1 != j2 ==> #[trigger] f(j1) != #[trigger] f(j2),
    ensures
        pairwise_disjoint(t),
        all_within(t, lo, hi),
{
    assert forall|j1: int, j2: int|
        0 <= j1 < t.len() && 0 <= j2 < t.len() && j1 != j2 implies disjoint(
        #[trigger] t[j1],
        #[trigger] t[j2],
    ) by {
        let a = f(j1);
        let b = f(j2);
        assert(inside(t[j1], s[a]) && inside(t[j2], s[b]));
        assert(disjoint(s[a], s[b]));
    }
    assert forall|j: int| 0 <= j < t.len() implies lo <= (#[trigger] t[j]).addr && t[j].addr
        + t[j].size <= hi by {
        assert(inside(t[j], s[f(j)]));
    }
}

/// A fresh allocator (empty free list, nothing handed out, bump pointer at
/// the heap start) is laid out soundly.
pub proof fn law_fresh_heap_layout(heap_start: usize, heap_end: usize)
    requires
        heap_start <= heap_end,
    ensures
        heap_layout(Seq::empty(), Seq::empty(), heap_start, heap_start, heap_end),
{
    assert(Seq::<FreeBlock>::empty() + Seq::<FreeBlock>::empty() =~= Seq::<FreeBlock>::empty());
}

/// In a sound layout, blocks handed out lie in `[heap_start, heap_end)` and
/// no two of them overlap.
pub proof fn law_live_blocks_disjoint(
    blocks: Seq<FreeBlock>,
    live: Seq<FreeBlock>,
    heap_start: usize,
    next: usize,
    heap_end: usize,
)
    requires
        heap_layout(blocks, live, heap_start, next, heap_end),
    ensures
        all_within(live, heap_start as int, heap_end as int),
        pairwise_disjoint(live),
{
    let all = blocks + live;
    let n = blocks.len() as int;
    assert forall|i: int| 0 <= i < live.len() implies heap_start <= (#[trigger] live[i]).addr
        && live[i].addr + live[i].size <= heap_end by {
        assert(all[n + i] == live[i]);
    }
    assert forall|i: int, j: int|
        0 <= i < live.len() && 0 <= j < live.len() && i != j implies disjoint(
        #[trigger] live[i],
        #[trigger] live[j],
    ) by {
        assert(all[n + i] == live[i] && all[n + j] == live[j]);
    }
}

/// An allocation keeps the layout sound: the block it hands out (at least
/// as large as the request needs) joins the blocks handed out, and it
/// overlaps neither them nor the free list.  (For a heap that ends below
/// the top of the address space.)
pub proof fn law_allocation_keeps_layout(
    blocks: Seq<FreeBlock>,
    live: Seq<FreeBlock>,
    heap_start: usize,
    next: usize,
    heap_end: usize,
    size: usize,
    align: usize,
)
    requires
        is_power_of_two(align),
        heap_end < usize::MAX,
        heap_layout(blocks, live, heap_start, next, heap_end),
    ensures
        ({
            let (r, blocks2, next2) = alloc_outcome(blocks, next, heap_end, size, align);
            r matches Some(p) ==> exists|nb: FreeBlock|
                nb.addr == p && nb.size >= block_size(size) && #[trigger] heap_layout(
                    blocks2,
                    live.push(nb),
                    heap_start,
                    next2,
                    heap_end,
                )
        }),
{
    let sz = block_size(size);
    let al = block_align(align);
    lemma_block_align_multiple(align);
    lemma_word_is_power_of_two();
    lemma_first_fit_bounds(blocks, sz, al);
    let i = first_fit(blocks, sz, al);
    let all = blocks + live;
    let n = blocks.len() as int;
    let m = live.len() as int;
    if i < blocks.len() {
        let nb = blocks[i];
        let blocks2 = blocks.remove(i);
        let all2 = blocks2 + live.push(nb);
        let f = |j: int| if j < i {
            j
        } else if j < n - 1 + m {
            j + 1
        } else {
            i
        };
        assert forall|j: int| 0 <= j < all2.len() implies 0 <= #[trigger] f(j) < all.len()
            && inside(all2[j], all[f(j)]) by {
            if j < i {
                assert(all2[j] == blocks[j]);
            } else if j < n - 1 {
                assert(all2[j] == blocks[j + 1]);
            } else if j < n - 1 + m {
                assert(all2[j] == live[j - (n - 1)]);
                assert(all[j + 1] == live[j + 1 - n]);
            } else {
                assert(all2[j] == nb);
            }
        }
        lemma_reindex(all, all2, f, heap_start as int, next as int);
        assert(heap_layout(blocks2, live.push(nb), heap_start, next, heap_end));
        let out = alloc_outcome(blocks, next, heap_end, size, align);
        assert(out == (Some(nb.addr), blocks2, next));
        assert(heap_layout(out.1, live.push(nb), heap_start, out.2, heap_end));
    } else if let Some((start, end)) = bump_step(next, sz, al, heap_end) {
        crate::bump_allocator::lemma_round_up(next as int, al as int);
        let nb = FreeBlock { addr: start, size: sz };
        let all2 = blocks + live.push(nb);
        assert(all2 =~= all.push(nb));
        assert forall|j: int| 0 <= j < all2.len() implies heap_start <= (#[trigger] all2[j]).addr
            && all2[j].addr + all2[j].size <= end by {
            if j < all.len() {
                assert(all2[j] == all[j]);
            }
        }
        assert forall|j1: int, j2: int|
            0 <= j1 < all2.len() && 0 <= j2 < all2.len() && j1 != j2 implies disjoint(
            #[trigger] all2[j1],
            #[trigger] all2[j2],
        ) by {
            if j1 < all.len() && j2 < all.len() {
                assert(all2[j1] == all[j1] && all2[j2] == all[j2]);
            } else if j1 < all.len() {
                assert(all2[j1] == all[j1]);
            } else {
                assert(all2[j2] == all[j2]);
            }
        }
        assert(heap_layout(blocks, live.push(nb), heap_start, end, heap_end));
        let out = alloc_outcome(blocks, next, heap_end, size, align);
        assert(out == (Some(start), blocks, end));
        assert(heap_layout(out.1, live.push(nb), heap_start, out.2, heap_end));
    }
}

/// Freeing a block that was handed out (with a size no larger than the
/// block) keeps the layout sound: the block leaves the blocks handed out and
/// its head goes back on the free list.
pub proof fn law_deallocation_keeps_layout(
    blocks: Seq<FreeBlock>,
    live: Seq<FreeBlock>,
    heap_start: usize,
    next: usize,
    heap_end: usize,
    k: int,
    size: usize,
)
    requires
        heap_layout(blocks, live, heap_start, next, heap_end),
        0 <= k < live.len(),
        block_size(size) <= live[k].size,
    ensures
        heap_layout(dealloc_outcome(blocks, live[k].addr, size), live.remove(k), heap_start, next, heap_end),
{
    let all = blocks + live;
    let n = blocks.len() as int;
    let blocks2 = dealloc_outcome(blocks, live[k].addr, size);
    let live2 = live.remove(k);
    let all2 = blocks2 + live2;
    let f = |j: int| if j == 0 {
        n + k
    } else if j < n + 1 + k {
        j - 1
    } else {
        j
    };
    assert forall|j: int| 0 <= j < all2.len() implies 0 <= #[trigger] f(j) < all.len() && inside(
        all2[j],
        all[f(j)],
    ) by {
        if j == 0 {
            assert(all[n + k] == live[k]);
        } else if j < n + 1 {
            assert(all2[j] == blocks[j - 1]);
        } else if j < n + 1 + k {
            assert(all2[j] == live[j - 1 - n]);
            assert(all[j - 1] == live[j - 1 - n]);
        } else {
            assert(all2[j] == live[j - n]);
            assert(all[j] == live[j - n]);
        }
    }
    lemma_reindex(all, all2, f, heap_start as int, next as int);
}

/// The free-list allocator over `[heap_start, heap_end)`.
pub struct FreeListAllocator {
    heap_start: usize,
    heap_end: usize,
    bump_next: usize,
    free_list: Vec<FreeBlock>,
}

impl FreeListAllocator {
    /// First address of the heap.
    pub closed spec fn start(&self) -> usize {
        self.heap_start
    }

    /// One past the last address of the heap.
    pub closed spec fn end(&self) -> usize {
        self.heap_end
    }

    /// Next free address of the bump region.
    pub closed spec fn bump(&self) -> usize {
        self.bump_next
    }

    /// The free list, head first.
    pub closed spec fn free_blocks(&self) -> Seq<FreeBlock> {
        self.free_list@
    }

    /// An allocator with an empty free list and the whole heap as bump region.
    pub fn new(heap_start: usize, heap_end: usize) -> (a: Self)
        ensures
            a.start() == heap_start,
            a.end() == heap_end,
            a.bump() == heap_start,
            a.free_blocks() == Seq::<FreeBlock>::empty(),
    {
        Self { heap_start, heap_end, bump_next: heap_start, free_list: Vec::new() }
    }

    /// Allocate `size` bytes aligned to `align` (a power of two): first fit
    /// from the free list, else from the bump region; `None` when neither can
    /// serve the request.
    pub fn allocate(&mut self, size: usize, align: usize) -> (r: Option<usize>)
        requires
            is_power_of_two(align),
        ensures
            (r, final(self).free_blocks(), final(self).bump()) == alloc_outcome(
                old(self).free_blocks(),
                old(self).bump(),
                old(self).end(),
                size,
                align,
            ),
            final(self).start() == old(self).start(),
            final(self).end() == old(self).end(),
    {
        let hdr_size: usize = 2 * (usize::BITS as usize / 8);
        let hdr_align: usize = usize::BITS as usize / 8;
        let sz = if size >= hdr_size {
            size
        } else {
            hdr_size
        };
        let al = if align >= hdr_align {
            align
        } else {
            hdr_align
        };
        proof {
            lemma_word_is_power_of_two();
        }
        // First fit over the free list.
        let mut i: usize = 0;
        while i < self.free_list.len()
            invariant
                i <= self.free_list@.len(),
                self.free_list@ == old(self).free_list@,
                self.bump_next == old(self).bump_next,
                self.heap_start == old(self).heap_start,
                self.heap_end == old(self).heap_end,
                al > 0,
                sz == block_size(size),
                al == block_align(align),
                forall|j: int| 0 <= j < i ==> !fits(#[trigger] self.free_list@[j], sz, al),
            decreases self.free_list@.len() - i,
        {
            let block = self.free_list[i];
            if block.addr % al == 0 && block.size >= sz {
                proof {
                    lemma_first_fit(self.free_list@, sz, al, i as int);
                }
                let removed = self.free_list.remove(i);
                assert(removed == block);
                assert(self.free_list@ == old(self).free_list@.remove(i as int));
                return Some(removed.addr);
            }
            i += 1;
        }
        proof {
            lemma_first_fit(self.free_list@, sz, al, i as int);
        }
        // Nothing fits: carve from the bump region.
        let next = self.bump_next;
        if next >= self.heap_end {
            return None;
        }
        if next > usize::MAX - (al - 1) {
            proof {
                lemma_round_up_overflow(next, al);
            }
            return None;
        }
        let aligned = align_up(next, al);
        let end = aligned.saturating_add(sz);
        if end > self.heap_end || end < aligned {
            return None;
        }
        self.bump_next = end;
        Some(aligned)
    }

    /// Put the block of `size` bytes at `addr` back at the head of the free list.
    pub fn deallocate(&mut self, addr: usize, size: usize)
        ensures
            final(self).free_blocks() == dealloc_outcome(old(self).free_blocks(), addr, size),
            final(self).bump() == old(self).bump(),
            final(self).start() == old(self).start(),
            final(self).end() == old(self).end(),
    {
        let hdr_size: usize = 2 * (usize::BITS as usize / 8);
        let size = if size >= hdr_size {
            size
        } else {
            hdr_size
        };
        self.free_list.insert(0, FreeBlock { addr, size });
        assert(self.free_list@ =~= dealloc_outcome(old(self).free_blocks(), addr, size));
    }
}

} // verus!
