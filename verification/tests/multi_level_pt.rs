use oscamp::multi_level_pt::{Sv39PageTable, TranslateResult, PTE_R, PTE_V, PTE_W, PTE_X};

#[test]
fn test_extract_vpn() {
    let va: u64 = 0x7FFFFFF000;
    assert_eq!(Sv39PageTable::extract_vpn(va, 2), 0x1FF);
    assert_eq!(Sv39PageTable::extract_vpn(va, 1), 0x1FF);
    assert_eq!(Sv39PageTable::extract_vpn(va, 0), 0x1FF);
}

#[test]
fn test_extract_vpn_simple() {
    let va: u64 = 0x1000;
    assert_eq!(Sv39PageTable::extract_vpn(va, 2), 0);
    assert_eq!(Sv39PageTable::extract_vpn(va, 1), 0);
    assert_eq!(Sv39PageTable::extract_vpn(va, 0), 1);
}

#[test]
fn test_extract_vpn_level2() {
    let va: u64 = 0x40000000;
    assert_eq!(Sv39PageTable::extract_vpn(va, 2), 1);
    assert_eq!(Sv39PageTable::extract_vpn(va, 1), 0);
    assert_eq!(Sv39PageTable::extract_vpn(va, 0), 0);
}

#[test]
fn test_map_and_translate_single() {
    let mut pt = Sv39PageTable::new();
    pt.map_page(0x1000, 0x80001000, PTE_V | PTE_R);

    let result = pt.translate(0x1000);
    assert_eq!(result, TranslateResult::Mapped(0x80001000));
}

#[test]
fn test_translate_with_offset() {
    let mut pt = Sv39PageTable::new();
    pt.map_page(0x2000, 0x90000000, PTE_V | PTE_R | PTE_W);

    let result = pt.translate(0x2ABC);
    assert_eq!(result, TranslateResult::Mapped(0x90000ABC));
}

#[test]
fn lib_test_translate_page_fault() {
    let pt = Sv39PageTable::new();
    assert_eq!(pt.translate(0x1000), TranslateResult::PageFault);
}

#[test]
fn lib_test_multiple_mappings() {
    let mut pt = Sv39PageTable::new();
    pt.map_page(0x0000_1000, 0x8000_1000, PTE_V | PTE_R);
    pt.map_page(0x0000_2000, 0x8000_5000, PTE_V | PTE_R | PTE_W);
    pt.map_page(0x0040_0000, 0x9000_0000, PTE_V | PTE_R);

    assert_eq!(pt.translate(0x1234), TranslateResult::Mapped(0x80001234));
    assert_eq!(pt.translate(0x2000), TranslateResult::Mapped(0x80005000));
    assert_eq!(pt.translate(0x400100), TranslateResult::Mapped(0x90000100));
}

#[test]
fn test_map_overwrite() {
    let mut pt = Sv39PageTable::new();
    pt.map_page(0x1000, 0x80001000, PTE_V | PTE_R);
    assert_eq!(pt.translate(0x1000), TranslateResult::Mapped(0x80001000));

    pt.map_page(0x1000, 0x90002000, PTE_V | PTE_R);
    assert_eq!(pt.translate(0x1000), TranslateResult::Mapped(0x90002000));
}

#[test]
fn test_superpage_mapping() {
    let mut pt = Sv39PageTable::new();
    pt.map_superpage(0x200000, 0x80200000, PTE_V | PTE_R | PTE_W);

    assert_eq!(pt.translate(0x200000), TranslateResult::Mapped(0x80200000));
    assert_eq!(pt.translate(0x200ABC), TranslateResult::Mapped(0x80200ABC));
    assert_eq!(pt.translate(0x2FF000), TranslateResult::Mapped(0x802FF000));
}

#[test]
fn test_superpage_and_normal_coexist() {
    let mut pt = Sv39PageTable::new();
    pt.map_superpage(0x0, 0x80000000, PTE_V | PTE_R);
    pt.map_page(0x40000000, 0x90001000, PTE_V | PTE_R);

    assert_eq!(pt.translate(0x100), TranslateResult::Mapped(0x80000100));
    assert_eq!(pt.translate(0x40000000), TranslateResult::Mapped(0x90001000));
}

// ---- further cases ----

#[test]
fn root_of_fresh_table() {
    let pt = Sv39PageTable::new();
    assert_eq!(pt.root_ppn, 0x80000);
    for va in [0u64, 0x1000, 0x7F_FFFF_F000, 0x4000_0000] {
        assert_eq!(pt.translate(va), TranslateResult::PageFault);
    }
}

#[test]
fn non_leaf_flags_do_not_translate() {
    // A level-0 entry with only V set is not a leaf: the walk faults.
    let mut pt = Sv39PageTable::new();
    pt.map_page(0x5000, 0x8000_0000, PTE_V);
    assert_eq!(pt.translate(0x5000), TranslateResult::PageFault);
}

#[test]
fn neighbouring_page_unmapped() {
    let mut pt = Sv39PageTable::new();
    pt.map_page(0x3000, 0x8000_3000, PTE_V | PTE_X);
    assert_eq!(pt.translate(0x3FFF), TranslateResult::Mapped(0x8000_3FFF));
    assert_eq!(pt.translate(0x4000), TranslateResult::PageFault);
    assert_eq!(pt.translate(0x2FFF), TranslateResult::PageFault);
}

#[test]
fn unaligned_pa_is_truncated_to_page() {
    // Only the page number of pa is stored.
    let mut pt = Sv39PageTable::new();
    pt.map_page(0x7000, 0x8000_1234, PTE_V | PTE_R);
    assert_eq!(pt.translate(0x7010), TranslateResult::Mapped(0x8000_1010));
}

#[test]
fn superpage_covers_whole_two_megabytes() {
    let mut pt = Sv39PageTable::new();
    pt.map_superpage(0x4000_0000, 0x1_0000_0000, PTE_V | PTE_W);
    assert_eq!(pt.translate(0x4000_0000), TranslateResult::Mapped(0x1_0000_0000));
    assert_eq!(pt.translate(0x401F_FFFF), TranslateResult::Mapped(0x1_001F_FFFF));
    assert_eq!(pt.translate(0x4020_0000), TranslateResult::PageFault);
}

#[test]
fn extract_vpn_high_levels() {
    // Levels above 2 read higher address bits.
    assert_eq!(Sv39PageTable::extract_vpn(0x1FFu64 << 48, 4), 0x1FF);
    assert_eq!(Sv39PageTable::extract_vpn(1u64 << 39, 3), 1);
}

#[test]
fn mapping_leaves_other_translations_alone() {
    let mut pt = Sv39PageTable::new();
    pt.map_page(0x4000_0000, 0x8000_0000, PTE_V | PTE_R);
    pt.map_page(0x4000_2000, 0x9000_0000, PTE_V | PTE_R | PTE_W);
    // A second mapping in the same level-0 page keeps the first one.
    assert_eq!(pt.translate(0x4000_0123), TranslateResult::Mapped(0x8000_0123));
    assert_eq!(pt.translate(0x4000_2fff), TranslateResult::Mapped(0x9000_0fff));
    // The page in between stays unmapped.
    assert_eq!(pt.translate(0x4000_1000), TranslateResult::PageFault);
    // A superpage elsewhere keeps both pages.
    pt.map_superpage(0x8020_0000, 0xA000_0000, PTE_V | PTE_R);
    assert_eq!(pt.translate(0x4000_0000), TranslateResult::Mapped(0x8000_0000));
    assert_eq!(pt.translate(0x8021_0000), TranslateResult::Mapped(0xA001_0000));
    assert_eq!(pt.translate(0x8040_0000), TranslateResult::PageFault);
}
