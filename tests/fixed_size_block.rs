use core::mem::MaybeUninit;

use jonathan_os::allocator::fixed_size_block::{block_size, FixedSizeBlockAllocator};
use jonathan_os::allocator::HEAP_SIZE;

fn heap_of(size: usize) -> FixedSizeBlockAllocator {
    let mem: &'static mut [MaybeUninit<u8>] =
        Box::leak(vec![MaybeUninit::<u8>::uninit(); size].into_boxed_slice());
    let mut a = FixedSizeBlockAllocator::new();
    a.init(mem);
    a
}

#[test]
fn list_index_picks_smallest_class() {
    assert_eq!(FixedSizeBlockAllocator::list_index(1, 1), Some(0));
    assert_eq!(FixedSizeBlockAllocator::list_index(8, 8), Some(0));
    assert_eq!(FixedSizeBlockAllocator::list_index(9, 1), Some(1));
    assert_eq!(FixedSizeBlockAllocator::list_index(8, 16), Some(1));
    assert_eq!(FixedSizeBlockAllocator::list_index(100, 128), Some(4));
    assert_eq!(FixedSizeBlockAllocator::list_index(1000, 8), Some(7));
    assert_eq!(FixedSizeBlockAllocator::list_index(2048, 1), Some(8));
    assert_eq!(FixedSizeBlockAllocator::list_index(1, 2048), Some(8));
}

#[test]
fn list_index_none_past_largest_class() {
    assert_eq!(FixedSizeBlockAllocator::list_index(2049, 1), None);
    assert_eq!(FixedSizeBlockAllocator::list_index(1, 4096), None);
    assert_eq!(FixedSizeBlockAllocator::list_index(usize::MAX / 2, 8), None);
}

#[test]
fn list_index_is_repeatable_and_large_enough() {
    let mut align = 1;
    while align <= 2048 {
        for size in 1..=2048usize {
            let first = FixedSizeBlockAllocator::list_index(size, align);
            assert_eq!(first, FixedSizeBlockAllocator::list_index(size, align));
            let class = block_size(first.unwrap());
            assert!(class >= size.max(align));
            assert_eq!(class % align, 0);
        }
        align *= 2;
    }
}

#[test]
fn block_sizes_double() {
    let expected = [8usize, 16, 32, 64, 128, 256, 512, 1024, 2048];
    for (i, e) in expected.iter().enumerate() {
        assert_eq!(block_size(i), *e);
    }
}

#[test]
fn empty_allocator_fails() {
    let mut a = FixedSizeBlockAllocator::new();
    assert_eq!(a.allocate(8, 8), None);
    assert_eq!(a.allocate(4096, 8), None);
}

#[test]
fn freed_block_is_reused_first() {
    let mut a = heap_of(HEAP_SIZE);
    let p = a.allocate(8, 8).unwrap();
    assert!(a.deallocate(p, 8, 8));
    assert_eq!(a.allocate(8, 8), Some(p));
}

#[test]
fn free_lists_are_last_in_first_out() {
    let mut a = heap_of(HEAP_SIZE);
    let p = a.allocate(16, 16).unwrap();
    let q = a.allocate(10, 2).unwrap();
    assert_ne!(p, q);
    assert!(a.deallocate(p, 16, 16));
    assert!(a.deallocate(q, 10, 2));
    assert_eq!(a.allocate(16, 1), Some(q));
    assert_eq!(a.allocate(12, 4), Some(p));
}

#[test]
fn classes_do_not_share_blocks() {
    let mut a = heap_of(HEAP_SIZE);
    let small = a.allocate(8, 8).unwrap();
    assert!(a.deallocate(small, 8, 8));
    let bigger = a.allocate(32, 8).unwrap();
    assert_ne!(bigger, small);
    assert_eq!(a.allocate(8, 8), Some(small));
}

#[test]
fn class_blocks_aligned_to_class_size() {
    let mut a = heap_of(HEAP_SIZE);
    for i in 0..9 {
        let n = block_size(i);
        let p = a.allocate(n / 2 + 1, 1).unwrap();
        assert_eq!(p % n, 0);
    }
}

#[test]
fn large_request_goes_to_fallback() {
    let mut a = heap_of(HEAP_SIZE);
    let p = a.allocate(4096, 4096).unwrap();
    assert_eq!(p % 4096, 0);
    assert!(!a.deallocate(p, 4096, 4096));
}

#[test]
fn fallback_exhaustion_is_none() {
    let mut a = heap_of(256);
    assert_eq!(a.allocate(4096, 8), None);
    assert_eq!(a.allocate(2048, 2048), None);
    assert!(a.allocate(8, 8).is_some());
}

#[test]
fn allocations_are_aligned_and_disjoint() {
    let mut a = heap_of(HEAP_SIZE);
    let requests = [
        (8usize, 8usize),
        (3, 1),
        (24, 8),
        (64, 64),
        (100, 4),
        (3000, 8),
        (2048, 2048),
        (5000, 4096),
        (1, 1),
    ];
    let mut got: Vec<(usize, usize)> = Vec::new();
    for (size, align) in requests {
        let p = a.allocate(size, align).unwrap();
        assert_eq!(p % align, 0);
        for &(q, n) in &got {
            assert!(p + size <= q || q + n <= p);
        }
        got.push((p, size));
    }
}

#[test]
fn simple_allocation() {
    let mut a = heap_of(HEAP_SIZE);
    let first = a.allocate(8, 8).unwrap();
    let second = a.allocate(8, 8).unwrap();
    assert!(first + 8 <= second || second + 8 <= first);
}

#[test]
fn large_vec() {
    let mut a = heap_of(HEAP_SIZE);
    let mut capacity = 4usize;
    let mut block = a.allocate(capacity * 8, 8).unwrap();
    while capacity < 1000 {
        let bigger = a.allocate(capacity * 16, 8).unwrap();
        a.deallocate(block, capacity * 8, 8);
        block = bigger;
        capacity *= 2;
    }
    assert!(capacity * 8 <= HEAP_SIZE);
}

#[test]
fn many_boxes() {
    let mut a = heap_of(HEAP_SIZE);
    for _ in 0..HEAP_SIZE {
        let p = a.allocate(8, 8).unwrap();
        assert!(a.deallocate(p, 8, 8));
    }
}

#[test]
fn many_boxes_long_lived() {
    let mut a = heap_of(HEAP_SIZE);
    let long_lived = a.allocate(8, 8).unwrap();
    for _ in 0..HEAP_SIZE {
        let p = a.allocate(8, 8).unwrap();
        assert_ne!(p, long_lived);
        assert!(a.deallocate(p, 8, 8));
    }
    assert!(a.deallocate(long_lived, 8, 8));
    assert_eq!(a.allocate(8, 8), Some(long_lived));
}
