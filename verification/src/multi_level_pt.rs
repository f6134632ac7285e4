//! SV39 three-level page table, simulated with a map from physical page
//! numbers to page-table pages.
//!
//! A 39-bit virtual address splits into `VPN[2] | VPN[1] | VPN[0] | offset`
//! (9, 9, 9 and 12 bits).  Mapping a page walks down from the root page,
//! allocating intermediate pages on demand; translating walks the same path
//! and stops at the first leaf entry (an entry with any of R/W/X set).
use std::collections::HashMap;
use vstd::prelude::*;

verus! {

/// Page size: 4 KiB.
pub const PAGE_SIZE: usize = 4096;

/// Entries per page-table page (2^9).
pub const PT_ENTRIES: usize = 512;

/// Valid.
pub const PTE_V: u64 = 1;

/// Readable.
pub const PTE_R: u64 = 2;

/// Writable.
pub const PTE_W: u64 = 4;

/// Executable.
pub const PTE_X: u64 = 8;

/// Offset of the PPN field inside an entry.
const PPN_SHIFT: u64 = 10;

/// Physical page number of the root page of a fresh table.
pub const ROOT_PPN: u64 = 0x80000;

// ---------------------------------------------------------------------------
// Mathematical model
// ---------------------------------------------------------------------------

/// The 9-bit index that `va` selects at `level` (2 = root, 0 = last level).
pub open spec fn vpn_of(va: u64, level: nat) -> u64 {
    (va >> ((12 + 9 * level) as u64)) & 0x1ff
}

/// The V bit is set.
pub open spec fn is_valid_pte(pte: u64) -> bool {
    pte & PTE_V != 0
}

/// One of R/W/X is set: the entry maps a page instead of pointing to a table.
pub open spec fn is_leaf_pte(pte: u64) -> bool {
    pte & 0xe != 0
}

/// The physical page number an entry refers to.
pub open spec fn pte_target(pte: u64) -> u64 {
    pte >> 10
}

/// The entry that links a table page to the next-level page `ppn`.
pub open spec fn pointer_pte(ppn: u64) -> u64 {
    (ppn << 10) | PTE_V
}

/// The leaf entry written for physical address `pa` with `flags`.
pub open spec fn leaf_pte(pa: u64, flags: u64) -> u64 {
    ((pa >> 12) << 10) | flags | PTE_V
}

/// Mask of the in-page offset of a leaf found at `level`
/// (4 KiB at level 0, 2 MiB at level 1, 1 GiB at level 2).
pub open spec fn page_offset_mask(level: nat) -> u64 {
    ((1u64 << ((12 + 9 * level) as u64)) - 1) as u64
}

/// The physical address a leaf entry `pte` found at `level` gives for `va`.
pub open spec fn leaf_address(pte: u64, va: u64, level: nat) -> u64 {
    ((pte >> 10) << 12) | (va & page_offset_mask(level))
}

/// A page-table page with every entry zero.
pub open spec fn zero_node() -> Seq<u64> {
    Seq::new(512, |i: int| 0u64)
}

/// The entry `idx` of page `ppn`.
pub open spec fn entry_of(nodes: Map<u64, Seq<u64>>, ppn: u64, idx: u64) -> u64 {
    nodes[ppn][idx as int]
}

/// The pages after entry `idx` of page `ppn` is set to `val`.
pub open spec fn set_entry(nodes: Map<u64, Seq<u64>>, ppn: u64, idx: u64, val: u64) -> Map<
    u64,
    Seq<u64>,
> {
    nodes.insert(ppn, nodes[ppn].update(idx as int, val))
}

/// Hardware-style walk of the pages from page `ppn` at `level` down to level 0.
pub open spec fn walk(nodes: Map<u64, Seq<u64>>, ppn: u64, va: u64, level: nat) -> TranslateResult
    decreases level,
{
    if !nodes.contains_key(ppn) {
        TranslateResult::PageFault
    } else {
        let pte = entry_of(nodes, ppn, vpn_of(va, level));
        if !is_valid_pte(pte) {
            TranslateResult::PageFault
        } else if is_leaf_pte(pte) {
            TranslateResult::Mapped(leaf_address(pte, va, level))
        } else if level == 0 {
            TranslateResult::PageFault
        } else {
            walk(nodes, pte_target(pte), va, (level - 1) as nat)
        }
    }
}

/// What the table holds: the root is present and every page number in use
/// lies below the next page number to hand out.
pub open spec fn tables_wf(nodes: Map<u64, Seq<u64>>, root: u64, next: u64) -> bool {
    &&& nodes.contains_key(root)
    &&& forall|k: u64| #[trigger] nodes.contains_key(k) ==> k < next
    &&& forall|k: u64| #[trigger] nodes.contains_key(k) ==> nodes[k].len() == 512
}

/// Descending from page `ppn` through entry `idx` while building a mapping:
/// a valid entry is followed, an invalid one gets a fresh zeroed page
/// `next` linked in.  Returns the pages, the next free page number and the
/// page reached.
pub open spec fn descend(nodes: Map<u64, Seq<u64>>, next: u64, ppn: u64, idx: u64) -> (
    Map<u64, Seq<u64>>,
    u64,
    u64,
) {
    let pte = entry_of(nodes, ppn, idx);
    if is_valid_pte(pte) {
        (nodes, next, pte_target(pte))
    } else {
        (set_entry(nodes.insert(next, zero_node()), ppn, idx, pointer_pte(next)), (next + 1) as u64, next)
    }
}

/// Descending through entry `idx` of `ppn` reaches a page that exists.
pub open spec fn descend_ok(nodes: Map<u64, Seq<u64>>, ppn: u64, idx: u64) -> bool {
    let pte = entry_of(nodes, ppn, idx);
    is_valid_pte(pte) ==> nodes.contains_key(pte_target(pte))
}

/// Pages and next free page number after mapping the 4 KiB page of `va` to `pa`.
pub open spec fn map_page_result(
    nodes: Map<u64, Seq<u64>>,
    root: u64,
    next: u64,
    va: u64,
    pa: u64,
    flags: u64,
) -> (Map<u64, Seq<u64>>, u64) {
    let d2 = descend(nodes, next, root, vpn_of(va, 2));
    let d1 = descend(d2.0, d2.1, d2.2, vpn_of(va, 1));
    (set_entry(d1.0, d1.2, vpn_of(va, 0), leaf_pte(pa, flags)), d1.1)
}

/// Mapping the page of `va` walks through existing pages only.
pub open spec fn map_page_ok(nodes: Map<u64, Seq<u64>>, root: u64, next: u64, va: u64) -> bool {
    let d2 = descend(nodes, next, root, vpn_of(va, 2));
    descend_ok(nodes, root, vpn_of(va, 2)) && descend_ok(d2.0, d2.2, vpn_of(va, 1))
}

/// Pages and next free page number after mapping the 2 MiB superpage of `va` to `pa`.
pub open spec fn map_superpage_result(
    nodes: Map<u64, Seq<u64>>,
    root: u64,
    next: u64,
    va: u64,
    pa: u64,
    flags: u64,
) -> (Map<u64, Seq<u64>>, u64) {
    let d2 = descend(nodes, next, root, vpn_of(va, 2));
    (set_entry(d2.0, d2.2, vpn_of(va, 1), leaf_pte(pa, flags)), d2.1)
}

/// Along the path of `va`, the existing entries of levels 2 and 1 are
/// pointers to distinct existing pages (none of them a leaf).
pub open spec fn path_is_tree(nodes: Map<u64, Seq<u64>>, root: u64, va: u64) -> bool {
    let e2 = entry_of(nodes, root, vpn_of(va, 2));
    let p1 = pte_target(e2);
    let e1 = entry_of(nodes, p1, vpn_of(va, 1));
    let p0 = pte_target(e1);
    is_valid_pte(e2) ==> {
        &&& !is_leaf_pte(e2)
        &&& nodes.contains_key(p1)
        &&& p1 != root
        &&& is_valid_pte(e1) ==> {
            &&& !is_leaf_pte(e1)
            &&& nodes.contains_key(p0)
            &&& p0 != root
            &&& p0 != p1
        }
    }
}

/// The root entry on the path of `va` is empty or points to another existing
/// page without being a leaf.
pub open spec fn root_entry_is_pointer(nodes: Map<u64, Seq<u64>>, root: u64, va: u64) -> bool {
    let e2 = entry_of(nodes, root, vpn_of(va, 2));
    is_valid_pte(e2) ==> {
        &&& !is_leaf_pte(e2)
        &&& nodes.contains_key(pte_target(e2))
        &&& pte_target(e2) != root
    }
}

// ---------------------------------------------------------------------------
// Laws
// ---------------------------------------------------------------------------

proof fn lemma_pointer_pte_bits(c: u64)
    requires
        c < 0x40_0000_0000_0000,
    ensures
        is_valid_pte(pointer_pte(c)),
        !is_leaf_pte(pointer_pte(c)),
        pte_target(pointer_pte(c)) == c,
{
    assert((c << 10u64) | 1u64 != 0u64 && ((c << 10u64) | 1u64) & 1u64 != 0u64) by (bit_vector);
    assert(((c << 10u64) | 1u64) & 0xeu64 == 0u64) by (bit_vector);
    assert(((c << 10u64) | 1u64) >> 10u64 == c) by (bit_vector)
        requires
            c < 0x40_0000_0000_0000u64,
    ;
}

proof fn lemma_leaf_pte_bits(pa: u64, flags: u64)
    requires
        flags < 1024,
    ensures
        is_valid_pte(leaf_pte(pa, flags)),
        is_leaf_pte(leaf_pte(pa, flags)) == is_leaf_pte(flags),
        pte_target(leaf_pte(pa, flags)) == pa >> 12,
{
    assert((((pa >> 12u64) << 10u64) | flags | 1u64) & 1u64 != 0u64) by (bit_vector);
    assert(((((pa >> 12u64) << 10u64) | flags | 1u64) & 0xeu64 != 0u64) == (flags & 0xeu64
        != 0u64)) by (bit_vector)
        requires
            flags < 1024u64,
    ;
    assert((((pa >> 12u64) << 10u64) | flags | 1u64) >> 10u64 == pa >> 12u64) by (bit_vector)
        requires
            flags < 1024u64,
    ;
}

proof fn lemma_vpn_bound(va: u64, level: nat)
    requires
        level <= 2,
    ensures
        vpn_of(va, level) < 512,
{
    let s = (12 + 9 * level) as u64;
    assert((va >> s) & 0x1ffu64 < 512u64) by (bit_vector);
}

proof fn lemma_zero_node_entries(idx: u64)
    requires
        idx < 512,
    ensures
        zero_node()[idx as int] == 0,
        !is_valid_pte(0),
        zero_node().len() == 512,
{
    assert(0u64 & 1u64 == 0u64) by (bit_vector);
}

/// A fresh table translates no address: every translation is a page fault.
pub proof fn law_fresh_table_translates_nothing(va: u64)
    ensures
        walk(Map::<u64, Seq<u64>>::empty().insert(ROOT_PPN, zero_node()), ROOT_PPN, va, 2)
            == TranslateResult::PageFault,
{
    lemma_vpn_bound(va, 2);
    lemma_zero_node_entries(vpn_of(va, 2));
}

/// After mapping the page of `va` to `pa` with leaf flags (R, W or X set,
/// and no bit above the flag field), translating any address `addr` of the
/// page of `va` gives the page of `pa` plus the page offset of `addr`.  This
/// holds on every well-formed table whose existing entries on the path of
/// `va` are pointers to distinct pages; then mapping also never walks into a
/// missing page.
pub proof fn law_translate_after_map_page(
    pt: Sv39PageTable,
    va: u64,
    pa: u64,
    flags: u64,
    addr: u64,
)
    requires
        pt.wf(),
        path_is_tree(pt.node_view(), pt.root(), va),
        flags < 1024,
        is_leaf_pte(flags),
        pt.next_free() < 0x40_0000_0000_0000 - 2,
        addr >> 12 == va >> 12,
    ensures
        map_page_ok(pt.node_view(), pt.root(), pt.next_free(), va),
        walk(
            map_page_result(pt.node_view(), pt.root(), pt.next_free(), va, pa, flags).0,
            pt.root(),
            addr,
            2,
        ) == TranslateResult::Mapped(((pa >> 12) << 12) | (addr & 0xfff)),
{
    assert((addr >> 30u64) & 0x1ffu64 == (va >> 30u64) & 0x1ffu64 && (addr >> 21u64) & 0x1ffu64
        == (va >> 21u64) & 0x1ffu64 && (addr >> 12u64) & 0x1ffu64 == (va >> 12u64) & 0x1ffu64)
        by (bit_vector)
        requires
            addr >> 12u64 == va >> 12u64,
    ;
    assert(vpn_of(addr, 2) == (addr >> 30u64) & 0x1ffu64);
    assert(vpn_of(va, 2) == (va >> 30u64) & 0x1ffu64);
    assert(vpn_of(addr, 1) == (addr >> 21u64) & 0x1ffu64);
    assert(vpn_of(va, 1) == (va >> 21u64) & 0x1ffu64);
    assert(vpn_of(addr, 0) == (addr >> 12u64) & 0x1ffu64);
    assert(vpn_of(va, 0) == (va >> 12u64) & 0x1ffu64);
    let nodes = pt.node_view();
    let root = pt.root();
    let next = pt.next_free();
    let v2 = vpn_of(va, 2);
    let v1 = vpn_of(va, 1);
    let v0 = vpn_of(va, 0);
    lemma_vpn_bound(va, 2);
    lemma_vpn_bound(va, 1);
    lemma_vpn_bound(va, 0);
    lemma_zero_node_entries(v1);
    lemma_zero_node_entries(v0);
    lemma_leaf_pte_bits(pa, flags);
    lemma_pointer_pte_bits(next);
    lemma_pointer_pte_bits((next + 1) as u64);
    let leaf = leaf_pte(pa, flags);
    let d2 = descend(nodes, next, root, v2);
    let d1 = descend(d2.0, d2.1, d2.2, v1);
    let fin = set_entry(d1.0, d1.2, v0, leaf);
    let p1 = d2.2;
    let p0 = d1.2;
    assert(!nodes.contains_key(next));
    assert(!nodes.contains_key((next + 1) as u64));
    let e2 = entry_of(nodes, root, v2);
    if is_valid_pte(e2) {
        let e1 = entry_of(nodes, p1, v1);
        if is_valid_pte(e1) {
            assert(entry_of(fin, root, v2) == e2);
            assert(entry_of(fin, p1, v1) == e1);
        } else {
            assert(p0 == next);
            assert(entry_of(fin, root, v2) == e2);
            assert(entry_of(fin, p1, v1) == pointer_pte(next));
        }
    } else {
        assert(p1 == next);
        assert(d2.0[next] == zero_node());
        assert(entry_of(d2.0, p1, v1) == 0);
        assert(p0 == next + 1);
        assert(entry_of(fin, root, v2) == pointer_pte(next));
        assert(entry_of(fin, p1, v1) == pointer_pte((next + 1) as u64));
    }
    assert(fin[p0].len() == 512);
    assert(entry_of(fin, p0, v0) == leaf);
    assert(walk(fin, p0, addr, 0) == TranslateResult::Mapped(leaf_address(leaf, addr, 0)));
    assert(walk(fin, p1, addr, 1) == walk(fin, p0, addr, 0));
    assert(walk(fin, root, addr, 2) == walk(fin, p1, addr, 1));
    assert(((1u64 << 12u64) - 1u64) as u64 == 0xfffu64) by (bit_vector);
    assert(page_offset_mask(0) == 0xfff);
}

/// After mapping the 2 MiB superpage of `va` to the 2 MiB-aligned `pa` with
/// leaf flags, every address `addr` of that superpage translates to `pa` plus
/// its offset inside the superpage, provided the root entry on the path was
/// empty or a pointer to another existing page.
pub proof fn law_translate_after_map_superpage(
    pt: Sv39PageTable,
    va: u64,
    pa: u64,
    flags: u64,
    addr: u64,
)
    requires
        pt.wf(),
        root_entry_is_pointer(pt.node_view(), pt.root(), va),
        pa % 0x200000 == 0,
        flags < 1024,
        is_leaf_pte(flags),
        addr >> 21 == va >> 21,
        pt.next_free() < 0x40_0000_0000_0000 - 1,
    ensures
        descend_ok(pt.node_view(), pt.root(), vpn_of(va, 2)),
        walk(
            map_superpage_result(pt.node_view(), pt.root(), pt.next_free(), va, pa, flags).0,
            pt.root(),
            addr,
            2,
        ) == TranslateResult::Mapped(pa | (addr & 0x1fffff)),
{
    let nodes = pt.node_view();
    let root = pt.root();
    let next = pt.next_free();
    assert((addr >> 30u64) & 0x1ffu64 == (va >> 30u64) & 0x1ffu64) by (bit_vector)
        requires
            addr >> 21u64 == va >> 21u64,
    ;
    assert((addr >> 21u64) & 0x1ffu64 == (va >> 21u64) & 0x1ffu64) by (bit_vector)
        requires
            addr >> 21u64 == va >> 21u64,
    ;
    assert(vpn_of(addr, 2) == (addr >> 30u64) & 0x1ffu64);
    assert(vpn_of(va, 2) == (va >> 30u64) & 0x1ffu64);
    assert(vpn_of(addr, 1) == (addr >> 21u64) & 0x1ffu64);
    assert(vpn_of(va, 1) == (va >> 21u64) & 0x1ffu64);
    let v2 = vpn_of(va, 2);
    let v1 = vpn_of(va, 1);
    lemma_vpn_bound(va, 2);
    lemma_vpn_bound(va, 1);
    lemma_zero_node_entries(v1);
    lemma_leaf_pte_bits(pa, flags);
    lemma_pointer_pte_bits(next);
    let leaf = leaf_pte(pa, flags);
    let d2 = descend(nodes, next, root, v2);
    let fin = set_entry(d2.0, d2.2, v1, leaf);
    let p1 = d2.2;
    assert(!nodes.contains_key(next));
    let e2 = entry_of(nodes, root, v2);
    if is_valid_pte(e2) {
        assert(entry_of(fin, root, v2) == e2);
    } else {
        assert(p1 == next);
        assert(entry_of(fin, root, v2) == pointer_pte(next));
    }
    assert(fin[p1].len() == 512);
    assert(entry_of(fin, p1, v1) == leaf);
    assert(walk(fin, p1, addr, 1) == TranslateResult::Mapped(leaf_address(leaf, addr, 1)));
    assert(walk(fin, root, addr, 2) == walk(fin, p1, addr, 1));
    assert(((1u64 << 21u64) - 1u64) as u64 == 0x1fffffu64) by (bit_vector);
    assert(page_offset_mask(1) == 0x1fffff);
    assert(((pa >> 12u64) << 12u64) == pa) by (bit_vector)
        requires
            pa % 0x200000u64 == 0u64,
    ;
}

// ---------------------------------------------------------------------------
// Tree shape and what a mapping leaves alone
// ---------------------------------------------------------------------------

/// The entry is valid and points to a next-level page (it is not a leaf).
pub open spec fn is_pointer(pte: u64) -> bool {
    is_valid_pte(pte) && !is_leaf_pte(pte)
}

/// Every page of `nodes` has 512 entries.
pub open spec fn pages_full(nodes: Map<u64, Seq<u64>>) -> bool {
    forall|k: u64| #[trigger] nodes.contains_key(k) ==> nodes[k].len() == 512
}

/// The pages form a tree below `root`: every pointer entry leads to an
/// existing page other than the root, and no page is pointed to by two
/// entries.
pub open spec fn tree_shaped(nodes: Map<u64, Seq<u64>>, root: u64) -> bool {
    &&& forall|p: u64, i: u64|
        #![trigger entry_of(nodes, p, i)]
        nodes.contains_key(p) && i < 512 && is_pointer(entry_of(nodes, p, i)) ==> nodes.contains_key(
            pte_target(entry_of(nodes, p, i)),
        ) && pte_target(entry_of(nodes, p, i)) != root
    &&& forall|p: u64, i: u64, q: u64, j: u64|
        #![trigger entry_of(nodes, p, i), entry_of(nodes, q, j)]
        nodes.contains_key(p) && nodes.contains_key(q) && i < 512 && j < 512 && is_pointer(
            entry_of(nodes, p, i),
        ) && is_pointer(entry_of(nodes, q, j)) && pte_target(entry_of(nodes, p, i)) == pte_target(
            entry_of(nodes, q, j),
        ) ==> p == q && i == j
}

/// The walk for `va` from page `ppn` at `level` reads entry `idx` of page `p`.
pub open spec fn touches(
    nodes: Map<u64, Seq<u64>>,
    ppn: u64,
    va: u64,
    level: nat,
    p: u64,
    idx: u64,
) -> bool
    decreases level,
{
    &&& nodes.contains_key(ppn)
    &&& {
        ||| ppn == p && vpn_of(va, level) == idx
        ||| level > 0 && is_pointer(entry_of(nodes, ppn, vpn_of(va, level))) && touches(
            nodes,
            pte_target(entry_of(nodes, ppn, vpn_of(va, level))),
            va,
            (level - 1) as nat,
            p,
            idx,
        )
    }
}

/// Linking a fresh zeroed page `n` under the empty entry `i` of page `p`
/// keeps the tree shape.
proof fn lemma_link_keeps_tree(nodes: Map<u64, Seq<u64>>, root: u64, n: u64, p: u64, i: u64)
    requires
        tree_shaped(nodes, root),
        pages_full(nodes),
        !nodes.contains_key(n),
        n != root,
        n < 0x40_0000_0000_0000,
        nodes.contains_key(p),
        i < 512,
        !is_valid_pte(entry_of(nodes, p, i)),
    ensures
        tree_shaped(set_entry(nodes.insert(n, zero_node()), p, i, pointer_pte(n)), root),
        pages_full(set_entry(nodes.insert(n, zero_node()), p, i, pointer_pte(n))),
{
    let m = set_entry(nodes.insert(n, zero_node()), p, i, pointer_pte(n));
    lemma_pointer_pte_bits(n);
    assert(0u64 & 1u64 == 0u64) by (bit_vector);
    assert forall|q: u64, j: u64|
        m.contains_key(q) && j < 512 implies entry_of(m, q, j) == if q == p && j == i {
        pointer_pte(n)
    } else if q == n {
        0u64
    } else {
        entry_of(nodes, q, j)
    } by {
        if q == n {
            assert(zero_node()[j as int] == 0u64);
        }
    }
    assert forall|q: u64, j: u64|
        #![trigger entry_of(m, q, j)]
        m.contains_key(q) && j < 512 && is_pointer(entry_of(m, q, j)) implies m.contains_key(
        pte_target(entry_of(m, q, j)),
    ) && pte_target(entry_of(m, q, j)) != root by {
        if !(q == p && j == i) {
            assert(entry_of(m, q, j) == entry_of(nodes, q, j));
        }
    }
    assert forall|q: u64, j: u64, q2: u64, j2: u64|
        #![trigger entry_of(m, q, j), entry_of(m, q2, j2)]
        m.contains_key(q) && m.contains_key(q2) && j < 512 && j2 < 512 && is_pointer(
            entry_of(m, q, j),
        ) && is_pointer(entry_of(m, q2, j2)) && pte_target(entry_of(m, q, j)) == pte_target(
            entry_of(m, q2, j2),
        ) implies q == q2 && j == j2 by {
        let a = q == p && j == i;
        let b = q2 == p && j2 == i;
        if !a {
            assert(entry_of(m, q, j) == entry_of(nodes, q, j));
        }
        if !b {
            assert(entry_of(m, q2, j2) == entry_of(nodes, q2, j2));
        }
        if a && !b {
            assert(nodes.contains_key(pte_target(entry_of(nodes, q2, j2))));
        }
        if !a && b {
            assert(nodes.contains_key(pte_target(entry_of(nodes, q, j))));
        }
    }
}

/// Writing an entry that is not a pointer keeps the tree shape.
proof fn lemma_write_leaf_keeps_tree(nodes: Map<u64, Seq<u64>>, root: u64, p: u64, i: u64, val: u64)
    requires
        tree_shaped(nodes, root),
        pages_full(nodes),
        nodes.contains_key(p),
        i < 512,
        !is_pointer(val),
    ensures
        tree_shaped(set_entry(nodes, p, i, val), root),
        pages_full(set_entry(nodes, p, i, val)),
{
    let m = set_entry(nodes, p, i, val);
    assert forall|q: u64, j: u64|
        #![trigger entry_of(m, q, j)]
        m.contains_key(q) && j < 512 && is_pointer(entry_of(m, q, j)) implies m.contains_key(
        pte_target(entry_of(m, q, j)),
    ) && pte_target(entry_of(m, q, j)) != root by {
        assert(entry_of(m, q, j) == entry_of(nodes, q, j));
    }
    assert forall|q: u64, j: u64, q2: u64, j2: u64|
        #![trigger entry_of(m, q, j), entry_of(m, q2, j2)]
        m.contains_key(q) && m.contains_key(q2) && j < 512 && j2 < 512 && is_pointer(
            entry_of(m, q, j),
        ) && is_pointer(entry_of(m, q2, j2)) && pte_target(entry_of(m, q, j)) == pte_target(
            entry_of(m, q2, j2),
        ) implies q == q2 && j == j2 by {
        assert(entry_of(m, q, j) == entry_of(nodes, q, j));
        assert(entry_of(m, q2, j2) == entry_of(nodes, q2, j2));
    }
}

/// Linking a fresh zeroed page under an empty entry changes no walk: the
/// walks that now enter the fresh page find only empty entries there.
proof fn lemma_link_keeps_walk(
    nodes: Map<u64, Seq<u64>>,
    n: u64,
    p: u64,
    i: u64,
    q: u64,
    va: u64,
    level: nat,
)
    requires
        pages_full(nodes),
        !nodes.contains_key(n),
        n < 0x40_0000_0000_0000,
        nodes.contains_key(p),
        i < 512,
        !is_valid_pte(entry_of(nodes, p, i)),
        level <= 2,
    ensures
        walk(set_entry(nodes.insert(n, zero_node()), p, i, pointer_pte(n)), q, va, level) == walk(
            nodes,
            q,
            va,
            level,
        ),
    decreases level,
{
    let m = set_entry(nodes.insert(n, zero_node()), p, i, pointer_pte(n));
    lemma_pointer_pte_bits(n);
    lemma_vpn_bound(va, level);
    let idx = vpn_of(va, level);
    assert(0u64 & 1u64 == 0u64) by (bit_vector);
    if q == n {
        assert(zero_node()[idx as int] == 0u64);
        assert(entry_of(m, q, idx) == 0u64);
    } else if nodes.contains_key(q) {
        if q == p && idx == i {
            if level > 0 {
                lemma_vpn_bound(va, (level - 1) as nat);
                assert(zero_node()[vpn_of(va, (level - 1) as nat) as int] == 0u64);
                assert(entry_of(m, n, vpn_of(va, (level - 1) as nat)) == 0u64);
                assert(walk(m, n, va, (level - 1) as nat) == TranslateResult::PageFault);
            }
        } else {
            assert(entry_of(m, q, idx) == entry_of(nodes, q, idx));
            if level > 0 {
                lemma_link_keeps_walk(
                    nodes,
                    n,
                    p,
                    i,
                    pte_target(entry_of(nodes, q, idx)),
                    va,
                    (level - 1) as nat,
                );
            }
        }
    }
}

/// Writing an entry that a walk does not read leaves that walk alone.
proof fn lemma_write_untouched_keeps_walk(
    nodes: Map<u64, Seq<u64>>,
    p: u64,
    i: u64,
    val: u64,
    q: u64,
    va: u64,
    level: nat,
)
    requires
        pages_full(nodes),
        nodes.contains_key(p),
        i < 512,
        level <= 2,
        !touches(nodes, q, va, level, p, i),
    ensures
        walk(set_entry(nodes, p, i, val), q, va, level) == walk(nodes, q, va, level),
    decreases level,
{
    let m = set_entry(nodes, p, i, val);
    lemma_vpn_bound(va, level);
    let idx = vpn_of(va, level);
    if nodes.contains_key(q) {
        assert(entry_of(m, q, idx) == entry_of(nodes, q, idx));
        if level > 0 && is_pointer(entry_of(nodes, q, idx)) {
            lemma_write_untouched_keeps_walk(
                nodes,
                p,
                i,
                val,
                pte_target(entry_of(nodes, q, idx)),
                va,
                (level - 1) as nat,
            );
        }
    }
}

/// A fresh table (one empty root page) is a tree.
pub proof fn law_fresh_table_is_tree()
    ensures
        tree_shaped(Map::<u64, Seq<u64>>::empty().insert(ROOT_PPN, zero_node()), ROOT_PPN),
{
    let nodes = Map::<u64, Seq<u64>>::empty().insert(ROOT_PPN, zero_node());
    assert(0u64 & 1u64 == 0u64) by (bit_vector);
    assert forall|p: u64, i: u64| nodes.contains_key(p) && i < 512 implies !is_pointer(
        #[trigger] entry_of(nodes, p, i),
    ) by {
        assert(zero_node()[i as int] == 0u64);
    }
}

/// What one step down while building a mapping does to a tree: it stays a
/// tree, no walk changes, the entry followed is a pointer to the page
/// reached, and no other entry changes.
proof fn lemma_descend_facts(nodes: Map<u64, Seq<u64>>, root: u64, next: u64, ppn: u64, idx: u64)
    requires
        tree_shaped(nodes, root),
        pages_full(nodes),
        forall|k: u64| #[trigger] nodes.contains_key(k) ==> k < next,
        nodes.contains_key(root),
        nodes.contains_key(ppn),
        idx < 512,
        next < 0x40_0000_0000_0000,
        !is_valid_pte(entry_of(nodes, ppn, idx)) || is_pointer(entry_of(nodes, ppn, idx)),
    ensures
        ({
            let d = descend(nodes, next, ppn, idx);
            &&& tree_shaped(d.0, root)
            &&& pages_full(d.0)
            &&& forall|k: u64| #[trigger] d.0.contains_key(k) ==> k < d.1
            &&& d.1 <= next + 1
            &&& forall|k: u64| #[trigger] nodes.contains_key(k) ==> d.0.contains_key(k)
            &&& d.0.contains_key(d.2)
            &&& d.2 != root
            &&& is_pointer(entry_of(d.0, ppn, idx))
            &&& pte_target(entry_of(d.0, ppn, idx)) == d.2
            &&& (!is_valid_pte(entry_of(nodes, ppn, idx)) ==> d.2 == next && d.0[next]
                == zero_node())
            &&& forall|q: u64, j: u64|
                #![trigger entry_of(d.0, q, j)]
                nodes.contains_key(q) && j < 512 && !(q == ppn && j == idx) ==> entry_of(d.0, q, j)
                    == entry_of(nodes, q, j)
            &&& forall|q: u64, v: u64, l: nat|
                l <= 2 ==> #[trigger] walk(d.0, q, v, l) == walk(nodes, q, v, l)
        }),
{
    let e = entry_of(nodes, ppn, idx);
    if !is_valid_pte(e) {
        lemma_link_keeps_tree(nodes, root, next, ppn, idx);
        lemma_pointer_pte_bits(next);
        let m = set_entry(nodes.insert(next, zero_node()), ppn, idx, pointer_pte(next));
        assert forall|q: u64, v: u64, l: nat| l <= 2 implies #[trigger] walk(m, q, v, l) == walk(
            nodes,
            q,
            v,
            l,
        ) by {
            lemma_link_keeps_walk(nodes, next, ppn, idx, q, v, l);
        }
        assert forall|q: u64, j: u64|
            #![trigger entry_of(m, q, j)]
            nodes.contains_key(q) && j < 512 && !(q == ppn && j == idx) implies entry_of(m, q, j) == entry_of(
            nodes,
            q,
            j,
        ) by {
            assert(q < next);
            if q == ppn {
                assert(m[q] == nodes[q].update(idx as int, pointer_pte(next)));
            } else {
                assert(m[q] == nodes[q]);
            }
        }
    }
}

/// The path that mapping the page of `va` builds: the root entry points to
/// the level-1 page, whose entry points to the level-0 page that gets the
/// leaf.  The pages are still a tree and no walk has changed yet.
proof fn lemma_map_page_path(nodes: Map<u64, Seq<u64>>, root: u64, next: u64, va: u64)
    requires
        tables_wf(nodes, root, next),
        tree_shaped(nodes, root),
        path_is_tree(nodes, root, va),
        next < 0x40_0000_0000_0000 - 2,
    ensures
        ({
            let d2 = descend(nodes, next, root, vpn_of(va, 2));
            let d1 = descend(d2.0, d2.1, d2.2, vpn_of(va, 1));
            &&& tree_shaped(d1.0, root)
            &&& pages_full(d1.0)
            &&& d1.0.contains_key(root)
            &&& d1.0.contains_key(d2.2)
            &&& d1.0.contains_key(d1.2)
            &&& is_pointer(entry_of(d1.0, root, vpn_of(va, 2)))
            &&& pte_target(entry_of(d1.0, root, vpn_of(va, 2))) == d2.2
            &&& is_pointer(entry_of(d1.0, d2.2, vpn_of(va, 1)))
            &&& pte_target(entry_of(d1.0, d2.2, vpn_of(va, 1))) == d1.2
            &&& forall|q: u64, v: u64, l: nat|
                l <= 2 ==> #[trigger] walk(d1.0, q, v, l) == walk(nodes, q, v, l)
        }),
{
    let v2 = vpn_of(va, 2);
    let v1 = vpn_of(va, 1);
    lemma_vpn_bound(va, 2);
    lemma_vpn_bound(va, 1);
    lemma_zero_node_entries(v1);
    let d2 = descend(nodes, next, root, v2);
    lemma_descend_facts(nodes, root, next, root, v2);
    let p1 = d2.2;
    assert(d2.0.contains_key(p1));
    if is_valid_pte(entry_of(nodes, root, v2)) {
        assert(d2.0 == nodes);
    } else {
        assert(entry_of(d2.0, p1, v1) == 0u64);
    }
    lemma_descend_facts(d2.0, root, d2.1, p1, v1);
    let d1 = descend(d2.0, d2.1, p1, v1);
    assert(entry_of(d1.0, root, v2) == entry_of(d2.0, root, v2));
    assert forall|q: u64, v: u64, l: nat| l <= 2 implies #[trigger] walk(d1.0, q, v, l) == walk(
        nodes,
        q,
        v,
        l,
    ) by {
        assert(walk(d1.0, q, v, l) == walk(d2.0, q, v, l));
        assert(walk(d2.0, q, v, l) == walk(nodes, q, v, l));
    }
}

/// Mapping a page with leaf flags keeps a tree a tree, provided the path of
/// `va` holds no leaf (no superpage covers `va`).
pub proof fn law_map_page_keeps_tree(pt: Sv39PageTable, va: u64, pa: u64, flags: u64)
    requires
        pt.wf(),
        tree_shaped(pt.node_view(), pt.root()),
        path_is_tree(pt.node_view(), pt.root(), va),
        flags < 1024,
        is_leaf_pte(flags),
        pt.next_free() < 0x40_0000_0000_0000 - 2,
    ensures
        tree_shaped(
            map_page_result(pt.node_view(), pt.root(), pt.next_free(), va, pa, flags).0,
            pt.root(),
        ),
{
    let nodes = pt.node_view();
    let root = pt.root();
    let next = pt.next_free();
    lemma_map_page_path(nodes, root, next, va);
    lemma_leaf_pte_bits(pa, flags);
    lemma_vpn_bound(va, 0);
    let d2 = descend(nodes, next, root, vpn_of(va, 2));
    let d1 = descend(d2.0, d2.1, d2.2, vpn_of(va, 1));
    lemma_write_leaf_keeps_tree(d1.0, root, d1.2, vpn_of(va, 0), leaf_pte(pa, flags));
}

/// Mapping the page of `va` leaves the translation of every address of
/// another page alone (on a tree whose path for `va` holds no leaf, with
/// leaf flags).
pub proof fn law_map_page_keeps_other_pages(pt: Sv39PageTable, va: u64, pa: u64, flags: u64, v: u64)
    requires
        pt.wf(),
        tree_shaped(pt.node_view(), pt.root()),
        path_is_tree(pt.node_view(), pt.root(), va),
        flags < 1024,
        is_leaf_pte(flags),
        pt.next_free() < 0x40_0000_0000_0000 - 2,
        !(vpn_of(v, 2) == vpn_of(va, 2) && vpn_of(v, 1) == vpn_of(va, 1) && vpn_of(v, 0) == vpn_of(
            va,
            0,
        )),
    ensures
        walk(
            map_page_result(pt.node_view(), pt.root(), pt.next_free(), va, pa, flags).0,
            pt.root(),
            v,
            2,
        ) == walk(pt.node_view(), pt.root(), v, 2),
{
    let nodes = pt.node_view();
    let root = pt.root();
    let next = pt.next_free();
    lemma_map_page_path(nodes, root, next, va);
    lemma_vpn_bound(va, 0);
    lemma_vpn_bound(va, 1);
    lemma_vpn_bound(va, 2);
    lemma_vpn_bound(v, 2);
    lemma_vpn_bound(v, 1);
    let d2 = descend(nodes, next, root, vpn_of(va, 2));
    let d1 = descend(d2.0, d2.1, d2.2, vpn_of(va, 1));
    let m = d1.0;
    let p1 = d2.2;
    let p0 = d1.2;
    let v0 = vpn_of(va, 0);
    let e_root = entry_of(m, root, vpn_of(va, 2));
    let e_p1 = entry_of(m, p1, vpn_of(va, 1));
    assert(p0 != root);
    assert(p1 != root);
    reveal_with_fuel(touches, 3);
    if touches(m, root, v, 2, p0, v0) {
        let w2 = vpn_of(v, 2);
        let r1 = pte_target(entry_of(m, root, w2));
        assert(is_pointer(entry_of(m, root, w2)));
        assert(touches(m, r1, v, 1, p0, v0));
        let w1 = vpn_of(v, 1);
        if r1 == p0 && w1 == v0 {
            // p0 would hang below the root and below p1.
            assert(entry_of(m, root, w2) == entry_of(m, root, w2) && e_p1 == e_p1);
            assert(false);
        } else {
            let r0 = pte_target(entry_of(m, r1, w1));
            assert(is_pointer(entry_of(m, r1, w1)));
            assert(touches(m, r0, v, 0, p0, v0));
            assert(r0 == p0);
            assert(entry_of(m, r1, w1) == entry_of(m, r1, w1) && e_p1 == e_p1);
            assert(r1 == p1 && w1 == vpn_of(va, 1));
            assert(entry_of(m, root, w2) == entry_of(m, root, w2) && e_root == e_root);
            assert(w2 == vpn_of(va, 2));
            assert(false);
        }
    }
    lemma_write_untouched_keeps_walk(m, p0, v0, leaf_pte(pa, flags), root, v, 2);
}

/// Mapping a superpage with leaf flags keeps a tree a tree.
pub proof fn law_map_superpage_keeps_tree(pt: Sv39PageTable, va: u64, pa: u64, flags: u64)
    requires
        pt.wf(),
        tree_shaped(pt.node_view(), pt.root()),
        root_entry_is_pointer(pt.node_view(), pt.root(), va),
        flags < 1024,
        is_leaf_pte(flags),
        pt.next_free() < 0x40_0000_0000_0000 - 1,
    ensures
        tree_shaped(
            map_superpage_result(pt.node_view(), pt.root(), pt.next_free(), va, pa, flags).0,
            pt.root(),
        ),
{
    let nodes = pt.node_view();
    let root = pt.root();
    let next = pt.next_free();
    lemma_vpn_bound(va, 2);
    lemma_vpn_bound(va, 1);
    lemma_leaf_pte_bits(pa, flags);
    lemma_descend_facts(nodes, root, next, root, vpn_of(va, 2));
    let d2 = descend(nodes, next, root, vpn_of(va, 2));
    lemma_write_leaf_keeps_tree(d2.0, root, d2.2, vpn_of(va, 1), leaf_pte(pa, flags));
}

/// Mapping the superpage of `va` leaves the translation of every address
/// outside that 2 MiB region alone (on a tree whose root entry for `va` is
/// empty or a pointer, with leaf flags).
pub proof fn law_map_superpage_keeps_other_regions(
    pt: Sv39PageTable,
    va: u64,
    pa: u64,
    flags: u64,
    v: u64,
)
    requires
        pt.wf(),
        tree_shaped(pt.node_view(), pt.root()),
        root_entry_is_pointer(pt.node_view(), pt.root(), va),
        flags < 1024,
        is_leaf_pte(flags),
        pt.next_free() < 0x40_0000_0000_0000 - 1,
        !(vpn_of(v, 2) == vpn_of(va, 2) && vpn_of(v, 1) == vpn_of(va, 1)),
    ensures
        walk(
            map_superpage_result(pt.node_view(), pt.root(), pt.next_free(), va, pa, flags).0,
            pt.root(),
            v,
            2,
        ) == walk(pt.node_view(), pt.root(), v, 2),
{
    let nodes = pt.node_view();
    let root = pt.root();
    let next = pt.next_free();
    lemma_vpn_bound(va, 2);
    lemma_vpn_bound(va, 1);
    lemma_vpn_bound(v, 2);
    lemma_vpn_bound(v, 1);
    lemma_descend_facts(nodes, root, next, root, vpn_of(va, 2));
    let d2 = descend(nodes, next, root, vpn_of(va, 2));
    let m = d2.0;
    let p1 = d2.2;
    let v1 = vpn_of(va, 1);
    let e_root = entry_of(m, root, vpn_of(va, 2));
    reveal_with_fuel(touches, 3);
    if touches(m, root, v, 2, p1, v1) {
        let w2 = vpn_of(v, 2);
        let r1 = pte_target(entry_of(m, root, w2));
        assert(is_pointer(entry_of(m, root, w2)));
        assert(touches(m, r1, v, 1, p1, v1));
        let w1 = vpn_of(v, 1);
        if r1 == p1 && w1 == v1 {
            assert(entry_of(m, root, w2) == entry_of(m, root, w2) && e_root == e_root);
            assert(w2 == vpn_of(va, 2));
            assert(false);
        } else {
            let r0 = pte_target(entry_of(m, r1, w1));
            assert(is_pointer(entry_of(m, r1, w1)));
            assert(touches(m, r0, v, 0, p1, v1));
            assert(r0 == p1);
            assert(entry_of(m, r1, w1) == entry_of(m, r1, w1) && e_root == e_root);
            assert(r1 == root);
            assert(false);
        }
    }
    lemma_write_untouched_keeps_walk(m, p1, v1, leaf_pte(pa, flags), root, v, 2);
}

// ---------------------------------------------------------------------------
// Executable table
// ---------------------------------------------------------------------------

/// One page-table page: 512 entries.
#[derive(Clone)]
pub struct PageTableNode {
    pub entries: [u64; PT_ENTRIES],
}

impl PageTableNode {
    /// A page with every entry zero.
    pub fn new() -> (n: Self)
        ensures
            n.entries@ == zero_node(),
    {
        let n = Self { entries: [0u64; PT_ENTRIES] };
        assert(n.entries@ =~= zero_node());
        n
    }
}

impl Default for PageTableNode {
    fn default() -> (n: Self)
        ensures
            n.entries@ == zero_node(),
    {
        Self::new()
    }
}

/// Result of a translation.
#[derive(Debug, PartialEq, Eq, Structural)]
pub enum TranslateResult {
    /// Translation succeeded with this physical address.
    Mapped(u64),
    PageFault,
}

/// Simulated SV39 table: page number -> page-table page.
pub struct Sv39PageTable {
    nodes: HashMap<u64, PageTableNode>,
    /// Physical page number of the root page.
    pub root_ppn: u64,
    next_ppn: u64,
}

impl Sv39PageTable {
    /// The pages of the table, each as its sequence of entries.
    pub closed spec fn node_view(&self) -> Map<u64, Seq<u64>> {
        Map::new(|k: u64| self.nodes@.contains_key(k), |k: u64| self.nodes@[k].entries@)
    }

    /// The page number of the root page.
    pub closed spec fn root(&self) -> u64 {
        self.root_ppn
    }

    /// The page number the next allocated page will get.
    pub closed spec fn next_free(&self) -> u64 {
        self.next_ppn
    }

    /// The table is well formed (see `tables_wf`).
    pub closed spec fn wf(&self) -> bool {
        tables_wf(self.node_view(), self.root_ppn, self.next_ppn)
    }

    /// A table holding only an empty root page.
    pub fn new() -> (pt: Self)
        ensures
            pt.wf(),
            pt.root() == ROOT_PPN,
            pt.next_free() == ROOT_PPN + 1,
            pt.node_view() == Map::<u64, Seq<u64>>::empty().insert(ROOT_PPN, zero_node()),
    {
        let mut nodes: HashMap<u64, PageTableNode> = HashMap::new();
        nodes.insert(ROOT_PPN, PageTableNode::new());
        let pt = Self { nodes, root_ppn: ROOT_PPN, next_ppn: ROOT_PPN + 1 };
        assert(pt.node_view() =~= Map::<u64, Seq<u64>>::empty().insert(ROOT_PPN, zero_node()));
        pt
    }

    /// Allocate a zeroed page-table page and return its page number.
    fn alloc_node(&mut self) -> (ppn: u64)
        requires
            old(self).wf(),
            old(self).next_free() < u64::MAX,
        ensures
            ppn == old(self).next_free(),
            !old(self).node_view().contains_key(ppn),
            final(self).next_free() == ppn + 1,
            final(self).root() == old(self).root(),
            final(self).node_view() == old(self).node_view().insert(ppn, zero_node()),
            final(self).wf(),
    {
        let ppn = self.next_ppn;
        self.next_ppn += 1;
        self.nodes.insert(ppn, PageTableNode::new());
        assert(self.node_view() =~= old(self).node_view().insert(ppn, zero_node()));
        ppn
    }

    /// Overwrite entry `idx` of page `ppn`.
    fn write_entry(&mut self, ppn: u64, idx: usize, val: u64)
        requires
            old(self).wf(),
            old(self).node_view().contains_key(ppn),
            idx < PT_ENTRIES,
        ensures
            final(self).node_view() == set_entry(old(self).node_view(), ppn, idx as u64, val),
            final(self).next_free() == old(self).next_free(),
            final(self).root() == old(self).root(),
            final(self).wf(),
    {
        let mut node = self.nodes.remove(&ppn).expect("Node must exist");
        node.entries[idx] = val;
        self.nodes.insert(ppn, node);
        assert(self.node_view() =~= set_entry(old(self).node_view(), ppn, idx as u64, val));
    }

    /// Follow entry `idx` of page `ppn`, linking a fresh page when it is not valid.
    fn descend_for_map(&mut self, ppn: u64, idx: usize) -> (child: u64)
        requires
            old(self).wf(),
            old(self).node_view().contains_key(ppn),
            idx < PT_ENTRIES,
            descend_ok(old(self).node_view(), ppn, idx as u64),
            old(self).next_free() < u64::MAX,
        ensures
            (final(self).node_view(), final(self).next_free(), child) == descend(
                old(self).node_view(),
                old(self).next_free(),
                ppn,
                idx as u64,
            ),
            final(self).root() == old(self).root(),
            final(self).wf(),
            final(self).node_view().contains_key(child),
    {
        let pte = self.nodes.get(&ppn).expect("Node must exist").entries[idx];
        if pte & PTE_V == 0 {
            let next_ppn = self.alloc_node();
            self.write_entry(ppn, idx, (next_ppn << PPN_SHIFT) | PTE_V);
            next_ppn
        } else {
            pte >> PPN_SHIFT
        }
    }

    /// The 9-bit index of `va` at `level`: bits `[12 + 9*level + 8 : 12 + 9*level]`.
    pub fn extract_vpn(va: u64, level: usize) -> (r: usize)
        requires
            level <= 5,
        ensures
            r as u64 == vpn_of(va, level as nat),
            r < PT_ENTRIES,
    {
        let shift: u64 = (12 + level * 9) as u64;
        let v: u64 = (va >> shift) & 0x1FF;
        assert(v < 512) by (bit_vector)
            requires
                v == (va >> shift) & 0x1FF,
        ;
        v as usize
    }

    /// Map the 4 KiB page of `va` to the page of `pa`, creating the
    /// intermediate pages that are missing.
    pub fn map_page(&mut self, va: u64, pa: u64, flags: u64)
        requires
            old(self).wf(),
            map_page_ok(old(self).node_view(), old(self).root(), old(self).next_free(), va),
            old(self).next_free() < u64::MAX - 1,
        ensures
            final(self).wf(),
            final(self).root() == old(self).root(),
            (final(self).node_view(), final(self).next_free()) == map_page_result(
                old(self).node_view(),
                old(self).root(),
                old(self).next_free(),
                va,
                pa,
                flags,
            ),
    {
        let root = self.root_ppn;
        let vpn2 = Self::extract_vpn(va, 2);
        let ppn1 = self.descend_for_map(root, vpn2);
        let vpn1 = Self::extract_vpn(va, 1);
        let ppn0 = self.descend_for_map(ppn1, vpn1);
        let vpn0 = Self::extract_vpn(va, 0);
        self.write_entry(ppn0, vpn0, ((pa >> 12) << PPN_SHIFT) | flags | PTE_V);
    }

    /// Walk the three levels from the root and translate `va`.
    pub fn translate(&self, va: u64) -> (r: TranslateResult)
        requires
            self.wf(),
        ensures
            r == walk(self.node_view(), self.root(), va, 2),
    {
        let mut curr_ppn = self.root_ppn;
        let mut level: usize = 2;
        loop
            invariant
                level <= 2,
                self.wf(),
                walk(self.node_view(), self.root(), va, 2) == walk(
                    self.node_view(),
                    curr_ppn,
                    va,
                    level as nat,
                ),
            decreases level,
        {
            let vpn = Self::extract_vpn(va, level);
            let node = match self.nodes.get(&curr_ppn) {
                Some(n) => n,
                None => return TranslateResult::PageFault,
            };
            let pte = node.entries[vpn];
            assert(pte == entry_of(self.node_view(), curr_ppn, vpn as u64));
            assert(PTE_R | PTE_W | PTE_X == 0xe) by (bit_vector);
            if pte & PTE_V == 0 {
                return TranslateResult::PageFault;
            }
            if pte & (PTE_R | PTE_W | PTE_X) != 0 {
                let ppn = pte >> PPN_SHIFT;
                let shift: u64 = (12 + level * 9) as u64;
                assert(1u64 << shift >= 1) by (bit_vector)
                    requires
                        shift < 64,
                ;
                let offset_mask: u64 = (1u64 << shift) - 1;
                let pa = (ppn << 12) | (va & offset_mask);
                assert(offset_mask == page_offset_mask(level as nat));
                return TranslateResult::Mapped(pa);
            }
            if level == 0 {
                return TranslateResult::PageFault;
            }
            curr_ppn = pte >> PPN_SHIFT;
            level -= 1;
        }
    }

    /// Map the 2 MiB superpage of `va` to `pa` with a leaf entry at level 1.
    pub fn map_superpage(&mut self, va: u64, pa: u64, flags: u64)
        requires
            old(self).wf(),
            va % 0x200000 == 0,
            pa % 0x200000 == 0,
            descend_ok(old(self).node_view(), old(self).root(), vpn_of(va, 2)),
            old(self).next_free() < u64::MAX,
        ensures
            final(self).wf(),
            final(self).root() == old(self).root(),
            (final(self).node_view(), final(self).next_free()) == map_superpage_result(
                old(self).node_view(),
                old(self).root(),
                old(self).next_free(),
                va,
                pa,
                flags,
            ),
    {
        let root = self.root_ppn;
        let vpn2 = Self::extract_vpn(va, 2);
        let curr_ppn = self.descend_for_map(root, vpn2);
        let vpn1 = Self::extract_vpn(va, 1);
        self.write_entry(curr_ppn, vpn1, ((pa >> 12) << PPN_SHIFT) | flags | PTE_V);
    }
}

} // verus!
