//! Single-level page table and virtual-to-physical address translation.
//!
//! A 32-bit virtual address is a 20-bit virtual page number (VPN) followed by
//! a 12-bit page offset; the table maps VPNs to physical page numbers (PPN),
//! and the physical address is `ppn * PAGE_SIZE + offset`.
use vstd::prelude::*;

verus! {

/// Page size: 4 KiB.
pub const PAGE_SIZE: usize = 4096;

/// Number of offset bits in an address.
pub const PAGE_OFFSET_BITS: u32 = 12;

/// Entry is valid.
pub const PTE_VALID: u8 = 1 << 0;

/// Page is readable.
pub const PTE_READ: u8 = 1 << 1;

/// Page is writable.
pub const PTE_WRITE: u8 = 1 << 2;

/// A page table entry.
#[derive(Clone, Copy, Debug)]
pub struct PageTableEntry {
    pub ppn: u32,
    pub flags: u8,
}

/// Result of a translation.
#[derive(Debug, PartialEq, Eq, Structural)]
pub enum TranslateResult {
    /// Translation succeeded with this physical address.
    Mapped(u32),
    /// The virtual page is not mapped (or its entry is not valid).
    PageFault,
    /// A write to a page without write permission.
    PermissionDenied,
}

/// The virtual page number of `va`: its top 20 bits.
pub open spec fn vpn_of(va: u32) -> u32 {
    va >> 12
}

/// The page offset of `va`: its low 12 bits.
pub open spec fn offset_of(va: u32) -> u32 {
    va & 0xfff
}

/// Physical address of `offset` in page `ppn`: `(ppn << 12) | offset`.
pub open spec fn pa_of(ppn: u32, offset: u32) -> u32 {
    (ppn << 12) | offset
}

/// What the MMU answers for `va` given the entries of the table.
pub open spec fn translation(entries: Seq<Option<PageTableEntry>>, va: u32, is_write: bool) -> TranslateResult {
    match entries[vpn_of(va) as int] {
        None => TranslateResult::PageFault,
        Some(e) => {
            if e.flags & PTE_VALID == 0 {
                TranslateResult::PageFault
            } else if is_write && e.flags & PTE_WRITE == 0 {
                TranslateResult::PermissionDenied
            } else {
                TranslateResult::Mapped(pa_of(e.ppn, offset_of(va)))
            }
        },
    }
}

/// Single-level page table for a fixed number of virtual pages.
pub struct SingleLevelPageTable {
    entries: Vec<Option<PageTableEntry>>,
}

impl View for SingleLevelPageTable {
    type V = Seq<Option<PageTableEntry>>;

    /// Entry `i` is the mapping of virtual page `i` (`None`: unmapped).
    closed spec fn view(&self) -> Seq<Option<PageTableEntry>> {
        self.entries@
    }
}

impl SingleLevelPageTable {
    /// An empty table for `max_pages` virtual pages.
    pub fn new(max_pages: usize) -> (pt: Self)
        ensures
            pt@ == Seq::new(max_pages as nat, |i: int| None::<PageTableEntry>),
    {
        let mut entries: Vec<Option<PageTableEntry>> = Vec::new();
        let mut i: usize = 0;
        while i < max_pages
            invariant
                i <= max_pages,
                entries@ == Seq::new(i as nat, |j: int| None::<PageTableEntry>),
            decreases max_pages - i,
        {
            entries.push(None);
            i += 1;
            assert(entries@ =~= Seq::new(i as nat, |j: int| None::<PageTableEntry>));
        }
        Self { entries }
    }

    /// Map virtual page `vpn` to physical page `ppn` with `flags`.
    pub fn map(&mut self, vpn: usize, ppn: u32, flags: u8)
        requires
            vpn < old(self)@.len(),
        ensures
            final(self)@ == old(self)@.update(vpn as int, Some(PageTableEntry { ppn, flags })),
    {
        self.entries.set(vpn, Some(PageTableEntry { ppn, flags }));
    }

    /// Remove the mapping of virtual page `vpn`.
    pub fn unmap(&mut self, vpn: usize)
        requires
            vpn < old(self)@.len(),
        ensures
            final(self)@ == old(self)@.update(vpn as int, None),
    {
        self.entries.set(vpn, None);
    }

    /// The entry of virtual page `vpn`, if it is mapped.
    pub fn lookup(&self, vpn: usize) -> (r: Option<&PageTableEntry>)
        requires
            vpn < self@.len(),
        ensures
            r is None <==> self@[vpn as int] is None,
            r matches Some(e) ==> self@[vpn as int] == Some(*e),
    {
        self.entries[vpn].as_ref()
    }

    /// Translate `va`, checking validity and, for writes, write permission.
    pub fn translate(&self, va: u32, is_write: bool) -> (r: TranslateResult)
        requires
            vpn_of(va) < self@.len(),
        ensures
            r == translation(self@, va, is_write),
    {
        let vpn = va_to_vpn(va);
        let offset = va_to_offset(va);
        let pte = self.lookup(vpn);
        match pte {
            Some(entry) => {
                if entry.flags & PTE_VALID == 0 {
                    TranslateResult::PageFault
                } else if is_write && entry.flags & PTE_WRITE == 0 {
                    TranslateResult::PermissionDenied
                } else {
                    TranslateResult::Mapped(make_pa(entry.ppn, offset))
                }
            },
            None => TranslateResult::PageFault,
        }
    }
}

/// The virtual page number of `va` (`va >> 12`).
pub fn va_to_vpn(va: u32) -> (vpn: usize)
    ensures
        vpn == vpn_of(va),
        vpn == va / 4096,
{
    assert(va >> 12u32 == va / 4096) by (bit_vector);
    (va >> PAGE_OFFSET_BITS) as usize
}

/// The page offset of `va` (its low 12 bits).
pub fn va_to_offset(va: u32) -> (offset: u32)
    ensures
        offset == offset_of(va),
        offset == va % 4096,
{
    assert(va & 0xfffu32 == va % 4096) by (bit_vector);
    assert((1u32 << 12u32) - 1u32 == 0xfffu32) by (bit_vector);
    va & ((1 << PAGE_OFFSET_BITS) - 1)
}

/// The physical address `(ppn << 12) | offset`; for an in-page offset this
/// is `ppn * 4096 + offset` modulo 2^32.
pub fn make_pa(ppn: u32, offset: u32) -> (pa: u32)
    ensures
        pa == pa_of(ppn, offset),
        offset < 4096 ==> pa == (ppn * 4096) % 0x1_0000_0000 + offset,
{
    let wide: u64 = ppn as u64 * 4096;
    let low: u64 = wide % 0x1_0000_0000;
    assert((ppn << 12u32) as u64 == low) by (bit_vector)
        requires
            wide == ppn as u64 * 4096u64,
            low == wide % 0x1_0000_0000u64,
    ;
    assert(offset < 4096u32 ==> (ppn << 12u32) | offset == (ppn << 12u32) + offset)
        by (bit_vector);
    ppn << PAGE_OFFSET_BITS | offset
}

/// An address is its page number and its offset put back together.
pub proof fn law_address_decomposes(va: u32)
    ensures
        pa_of(vpn_of(va), offset_of(va)) == va,
        va == vpn_of(va) * 4096 + offset_of(va),
{
    assert((va >> 12u32) << 12u32 | (va & 0xfffu32) == va) by (bit_vector);
    assert(va == (va >> 12u32) as u64 * 4096u64 + (va & 0xfffu32) as u64) by (bit_vector);
}

/// After mapping page `vpn` to `ppn` with a valid entry, an address in that
/// page translates to `ppn` plus its offset, except that a write to a page
/// without write permission is refused.
pub proof fn law_translate_after_map(
    entries: Seq<Option<PageTableEntry>>,
    vpn: u32,
    ppn: u32,
    flags: u8,
    va: u32,
    is_write: bool,
)
    requires
        vpn < entries.len(),
        vpn_of(va) == vpn,
        flags & PTE_VALID != 0,
    ensures
        translation(entries.update(vpn as int, Some(PageTableEntry { ppn, flags })), va, is_write)
            == if is_write && flags & PTE_WRITE == 0 {
            TranslateResult::PermissionDenied
        } else {
            TranslateResult::Mapped(pa_of(ppn, offset_of(va)))
        },
{
}

/// After unmapping a page, every address in it faults.
pub proof fn law_translate_after_unmap(
    entries: Seq<Option<PageTableEntry>>,
    vpn: u32,
    va: u32,
    is_write: bool,
)
    requires
        vpn < entries.len(),
        vpn_of(va) == vpn,
    ensures
        translation(entries.update(vpn as int, None), va, is_write) == TranslateResult::PageFault,
{
}

/// Mapping or unmapping one page does not change how addresses of other
/// pages translate.
pub proof fn law_update_keeps_other_pages(
    entries: Seq<Option<PageTableEntry>>,
    vpn: u32,
    entry: Option<PageTableEntry>,
    va: u32,
    is_write: bool,
)
    requires
        vpn < entries.len(),
        vpn_of(va) < entries.len(),
        vpn_of(va) != vpn,
    ensures
        translation(entries.update(vpn as int, entry), va, is_write) == translation(
            entries,
            va,
            is_write,
        ),
{
}

/// Reads are never refused for lack of permission: a read either faults or
/// succeeds, and a write that succeeds would also succeed as a read.
pub proof fn law_reads_never_denied(entries: Seq<Option<PageTableEntry>>, va: u32)
    requires
        vpn_of(va) < entries.len(),
    ensures
        translation(entries, va, false) != TranslateResult::PermissionDenied,
        translation(entries, va, true) matches TranslateResult::Mapped(pa) ==> translation(
            entries,
            va,
            false,
        ) == TranslateResult::Mapped(pa),
{
}

/// An entry whose valid bit is clear faults for every access, reads and
/// writes alike: validity is checked before permissions.
pub proof fn law_invalid_entry_faults(
    entries: Seq<Option<PageTableEntry>>,
    va: u32,
    is_write: bool,
)
    requires
        vpn_of(va) < entries.len(),
        entries[vpn_of(va) as int] matches Some(e) && e.flags & PTE_VALID == 0,
    ensures
        translation(entries, va, is_write) == TranslateResult::PageFault,
{
}

/// A refusal happens only for a write to a page whose entry is present and
/// valid but not writable; a fault only where the entry is missing or not
/// valid; and a success gives the entry's page plus the offset.
pub proof fn law_translation_outcomes(
    entries: Seq<Option<PageTableEntry>>,
    va: u32,
    is_write: bool,
)
    requires
        vpn_of(va) < entries.len(),
    ensures
        translation(entries, va, is_write) == TranslateResult::PermissionDenied ==> {
            &&& is_write
            &&& entries[vpn_of(va) as int] matches Some(e) && e.flags & PTE_VALID != 0 && e.flags
                & PTE_WRITE == 0
        },
        translation(entries, va, is_write) == TranslateResult::PageFault ==> (
        entries[vpn_of(va) as int] matches Some(e) ==> e.flags & PTE_VALID == 0),
        translation(entries, va, is_write) matches TranslateResult::Mapped(pa) ==> (
        entries[vpn_of(va) as int] matches Some(e) && e.flags & PTE_VALID != 0 && pa == pa_of(
            e.ppn,
            offset_of(va),
        )),
{
}

} // verus!
