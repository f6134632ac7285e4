//! RISC-V SV39 page table entry layout.
//!
//! ```text
//! 63    54 53        10 9  8 7 6 5 4 3 2 1 0
//! | Rsvd  |  PPN[2:0]  | RSW|D|A|G|U|X|W|R|V|
//! ```
//! The PPN occupies bits `[53:10]`, the flags bits `[7:0]`.
use vstd::prelude::*;

verus! {

/// Valid.
pub const PTE_V: u64 = 0x1;

/// Readable.
pub const PTE_R: u64 = 0x2;

/// Writable.
pub const PTE_W: u64 = 0x4;

/// Executable.
pub const PTE_X: u64 = 0x8;

/// User accessible.
pub const PTE_U: u64 = 0x10;

/// Global mapping.
pub const PTE_G: u64 = 0x20;

/// Accessed.
pub const PTE_A: u64 = 0x40;

/// Dirty.
pub const PTE_D: u64 = 0x80;

/// Offset of the PPN field.
const PPN_SHIFT: u64 = 10;

/// Mask of the 44-bit PPN field once shifted down.
const PPN_MASK: u64 = 0xfff_ffff_ffff;

/// `pte & bit` is not zero: for a single-bit `bit`, that flag is set; for a
/// mask, at least one of its bits is set.
pub open spec fn has_bit(pte: u64, bit: u64) -> bool {
    pte & bit != 0
}

/// Whether `pte` allows the requested accesses: it is valid and each
/// requested permission has its bit set.
pub open spec fn permits(pte: u64, read: bool, write: bool, execute: bool) -> bool {
    &&& has_bit(pte, 1)
    &&& read ==> has_bit(pte, 2)
    &&& write ==> has_bit(pte, 4)
    &&& execute ==> has_bit(pte, 8)
}

/// Build an entry from a physical page number and flags: `(ppn << 10) | flags`.
pub fn make_pte(ppn: u64, flags: u64) -> (pte: u64)
    ensures
        pte == (ppn << 10) | flags,
{
    (ppn << PPN_SHIFT) | flags
}

/// The 44-bit PPN field of `pte` (bits `[53:10]`).
pub fn extract_ppn(pte: u64) -> (ppn: u64)
    ensures
        ppn == (pte >> 10) & 0xfff_ffff_ffff,
        ppn < 0x1000_0000_0000,
{
    let r = (pte >> PPN_SHIFT) & PPN_MASK;
    assert(r < 0x1000_0000_0000) by (bit_vector)
        requires
            r == (pte >> 10u64) & 0xfff_ffff_ffffu64,
    ;
    r
}

/// The flag byte of `pte` (bits `[7:0]`).
pub fn extract_flags(pte: u64) -> (flags: u64)
    ensures
        flags == pte & 0xff,
        flags < 256,
{
    let r = pte & 0xff;
    assert(r < 256) by (bit_vector)
        requires
            r == pte & 0xffu64,
    ;
    r
}

/// The V bit of `pte` is set.
pub fn is_valid(pte: u64) -> (b: bool)
    ensures
        b == has_bit(pte, PTE_V),
{
    pte & PTE_V != 0
}

/// `pte` is a leaf: one of R, W, X is set (otherwise it points to the next
/// level table).
pub fn is_leaf(pte: u64) -> (b: bool)
    ensures
        b == has_bit(pte, 0xe),
        b == (has_bit(pte, PTE_R) || has_bit(pte, PTE_W) || has_bit(pte, PTE_X)),
{
    assert((pte & 0xeu64 != 0u64) == (pte & 2u64 != 0u64 || pte & 4u64 != 0u64 || pte & 8u64
        != 0u64)) by (bit_vector);
    assert(PTE_R | PTE_W | PTE_X == 0xe) by (bit_vector);
    (pte & (PTE_R | PTE_W | PTE_X)) != 0
}

/// Whether `pte` is valid and grants each of the requested permissions.
pub fn check_permission(pte: u64, read: bool, write: bool, execute: bool) -> (b: bool)
    ensures
        b == permits(pte, read, write, execute),
{
    if !is_valid(pte) {
        return false;
    }
    let r_ok = !read || (pte & PTE_R != 0);
    let w_ok = !write || (pte & PTE_W != 0);
    let x_ok = !execute || (pte & PTE_X != 0);
    r_ok && w_ok && x_ok
}

/// Building an entry and reading its fields back gives the PPN and the flags
/// that went in, as long as both fit their fields.
pub proof fn law_make_pte_round_trip(ppn: u64, flags: u64)
    requires
        ppn < 0x1000_0000_0000,
        flags < 256,
    ensures
        ((ppn << 10) | flags) >> 10 & 0xfff_ffff_ffff == ppn,
        ((ppn << 10) | flags) & 0xff == flags,
{
    assert(((ppn << 10u64) | flags) >> 10u64 & 0xfff_ffff_ffffu64 == ppn) by (bit_vector)
        requires
            ppn < 0x1000_0000_0000u64,
            flags < 256u64,
    ;
    assert(((ppn << 10u64) | flags) & 0xffu64 == flags) by (bit_vector)
        requires
            flags < 256u64,
    ;
}

/// The valid and leaf bits of a built entry are those of its flags.
pub proof fn law_make_pte_keeps_kind(ppn: u64, flags: u64)
    requires
        flags < 1024,
    ensures
        has_bit((ppn << 10) | flags, PTE_V) == has_bit(flags, PTE_V),
        has_bit((ppn << 10) | flags, 0xe) == has_bit(flags, 0xe),
{
    assert((((ppn << 10u64) | flags) & 1u64 != 0u64) == (flags & 1u64 != 0u64)) by (bit_vector)
        requires
            flags < 1024u64,
    ;
    assert((((ppn << 10u64) | flags) & 0xeu64 != 0u64) == (flags & 0xeu64 != 0u64))
        by (bit_vector)
        requires
            flags < 1024u64,
    ;
}

/// Asking for no permission succeeds exactly on valid entries, and any
/// granted request implies validity.
pub proof fn law_permission_needs_valid(pte: u64, read: bool, write: bool, execute: bool)
    ensures
        permits(pte, false, false, false) == has_bit(pte, PTE_V),
        permits(pte, read, write, execute) ==> has_bit(pte, PTE_V),
{
}

/// Requesting fewer permissions never turns a grant into a refusal.
pub proof fn law_permission_monotone(
    pte: u64,
    read: bool,
    write: bool,
    execute: bool,
    read2: bool,
    write2: bool,
    execute2: bool,
)
    requires
        permits(pte, read, write, execute),
        read2 ==> read,
        write2 ==> write,
        execute2 ==> execute,
    ensures
        permits(pte, read2, write2, execute2),
{
}

} // verus!
