use oscamp::mem_primitives::{my_memcpy, my_memmove, my_memset, my_strcmp, my_strlen};

#[test]
fn test_memcpy_basic() {
    let src = [1u8, 2, 3, 4, 5];
    let mut dst = [0u8; 5];
    my_memcpy(&mut dst, &src, 5);
    assert_eq!(dst, src);
}

#[test]
fn test_memcpy_zero_len() {
    let src = [0xFFu8; 4];
    let mut dst = [0u8; 4];
    my_memcpy(&mut dst, &src, 0);
    assert_eq!(dst, [0u8; 4]);
}

#[test]
fn test_memset_basic() {
    let mut buf = [0u8; 8];
    my_memset(&mut buf, 0xAB, 8);
    assert!(buf.iter().all(|&b| b == 0xAB));
}

#[test]
fn test_memset_partial() {
    let mut buf = [0u8; 8];
    my_memset(&mut buf, 0xFF, 4);
    assert_eq!(&buf[..4], &[0xFF; 4]);
    assert_eq!(&buf[4..], &[0x00; 4]);
}

#[test]
fn test_memmove_no_overlap() {
    // Source in the first half, destination in the second half.
    let mut buf = [1u8, 2, 3, 4, 0, 0, 0, 0];
    my_memmove(&mut buf, 4, 0, 4);
    assert_eq!(&buf[4..], &[1, 2, 3, 4]);
}

#[test]
fn test_memmove_overlap_forward() {
    let mut buf = [1u8, 2, 3, 4, 5];
    my_memmove(&mut buf, 1, 0, 4);
    assert_eq!(buf, [1, 1, 2, 3, 4]);
}

#[test]
fn memmove_overlap_destination_first() {
    let mut buf = [1u8, 2, 3, 4, 5];
    my_memmove(&mut buf, 0, 1, 4);
    assert_eq!(buf, [2, 3, 4, 5, 5]);
}

#[test]
fn memmove_onto_itself_changes_nothing() {
    let mut buf = [9u8, 8, 7];
    my_memmove(&mut buf, 0, 0, 3);
    assert_eq!(buf, [9, 8, 7]);
}

#[test]
fn memcpy_leaves_tail_alone() {
    let src = [5u8, 6];
    let mut dst = [0u8, 0, 7, 7];
    my_memcpy(&mut dst, &src, 2);
    assert_eq!(dst, [5, 6, 7, 7]);
}

#[test]
fn test_strlen_basic() {
    let s = b"hello\0";
    assert_eq!(my_strlen(s), 5);
}

#[test]
fn test_strlen_empty() {
    let s = b"\0";
    assert_eq!(my_strlen(s), 0);
}

#[test]
fn strlen_stops_at_first_nul() {
    let s = b"ab\0cd\0";
    assert_eq!(my_strlen(s), 2);
}

#[test]
fn test_strcmp_equal() {
    let a = b"hello\0";
    let b = b"hello\0";
    assert_eq!(my_strcmp(a, b), 0);
}

#[test]
fn test_strcmp_less() {
    let a = b"abc\0";
    let b = b"abd\0";
    assert!(my_strcmp(a, b) < 0);
}

#[test]
fn test_strcmp_greater() {
    let a = b"abd\0";
    let b = b"abc\0";
    assert!(my_strcmp(a, b) > 0);
}

#[test]
fn strcmp_exact_difference_and_prefix() {
    assert_eq!(my_strcmp(b"abc\0", b"abd\0"), -1);
    // A proper prefix is smaller: the shorter string ends (0) where the
    // longer one has 'c' (99).
    assert_eq!(my_strcmp(b"ab\0", b"abc\0"), -99);
    // Bytes after the terminator do not count.
    assert_eq!(my_strcmp(b"ab\0x", b"ab\0y"), 0);
}
