use neosh::layout::{is_block, is_valid_layout};
use std::alloc::Layout;

#[test]
fn alignment_must_be_a_power_of_two() {
    assert!(!is_valid_layout(8, 0));
    assert!(is_valid_layout(8, 1));
    assert!(is_valid_layout(8, 2));
    assert!(!is_valid_layout(8, 3));
    assert!(!is_valid_layout(8, 24));
    assert!(is_valid_layout(8, 4096));
    assert!(!is_valid_layout(8, usize::MAX));
}

#[test]
fn rounded_size_must_fit_in_isize() {
    let max = isize::MAX as usize;
    assert!(is_valid_layout(0, 1));
    assert!(is_valid_layout(max, 1));
    assert!(!is_valid_layout(max + 1, 1));
    assert!(is_valid_layout(max - 15, 16));
    assert!(!is_valid_layout(max - 14, 16));
    assert!(is_valid_layout(0, max + 1));
    assert!(!is_valid_layout(1, max + 1));
    assert!(!is_valid_layout(usize::MAX, 1));
}

#[test]
fn layouts_are_those_of_the_standard_library() {
    let max = isize::MAX as usize;
    let sizes = [0, 1, 7, 64, 1 << 20, max - 4096, max - 4095, max - 1, max, max + 1, usize::MAX];
    let mut aligns = vec![0, 3, 5, 6, 100, max, usize::MAX];
    for shift in 0..usize::BITS {
        aligns.push(1usize << shift);
    }
    for size in sizes {
        for &align in aligns.iter() {
            assert_eq!(is_valid_layout(size, align), Layout::from_size_align(size, align).is_ok());
        }
    }
}

#[test]
fn blocks_are_aligned_and_inside_the_address_space() {
    assert!(is_block(0x1000, 64, 16));
    assert!(is_block(1, 1, 1));
    assert!(is_block(usize::MAX - 64, 64, 1));
    assert!(is_block(usize::MAX, 0, 1));
    assert!(!is_block(0, 64, 16));
    assert!(!is_block(0x1008, 64, 16));
    assert!(!is_block(usize::MAX - 63, 64, 1));
    assert!(!is_block(0x1000, usize::MAX, 16));
    assert!(!is_block(0x1000, 64, 0));
}
