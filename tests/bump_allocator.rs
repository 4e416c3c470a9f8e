use jonathan_os::allocator::bump::BumpAllocator;
use jonathan_os::allocator::HEAP_SIZE;

fn bump_over(start: usize, size: usize) -> BumpAllocator {
    let mut b = BumpAllocator::new();
    b.init(start, size);
    b
}

#[test]
fn bump_new_region_is_empty() {
    let mut b = BumpAllocator::new();
    assert_eq!(b.allocate(8, 8), None);
    assert_eq!(b.allocate(0, 1), Some(0));
}

#[test]
fn bump_allocations_follow_each_other() {
    let mut b = bump_over(0x1000, 1024);
    assert_eq!(b.allocate(8, 8), Some(0x1000));
    assert_eq!(b.allocate(8, 8), Some(0x1008));
    assert_eq!(b.allocate(16, 8), Some(0x1010));
}

#[test]
fn bump_aligns_the_cursor_up() {
    let mut b = bump_over(0x1001, 100);
    assert_eq!(b.allocate(1, 1), Some(0x1001));
    assert_eq!(b.allocate(4, 16), Some(0x1010));
    assert_eq!(b.allocate(1, 4), Some(0x1014));
}

#[test]
fn bump_reclaims_after_all_freed() {
    let start = 0x4000;
    let mut b = bump_over(start, 8 * 8);
    for j in 0..8 {
        assert_eq!(b.allocate(8, 8), Some(start + 8 * j));
    }
    assert_eq!(b.allocate(8, 8), None);
    for _ in 0..8 {
        b.deallocate(0, 8, 8);
    }
    assert_eq!(b.allocate(8, 8), Some(start));
}

#[test]
fn bump_partial_free_reclaims_nothing() {
    let mut b = bump_over(0x4000, 16);
    let a = b.allocate(8, 8).unwrap();
    let _c = b.allocate(8, 8).unwrap();
    b.deallocate(a, 8, 8);
    assert_eq!(b.allocate(8, 8), None);
}

#[test]
fn bump_failure_leaves_state_unchanged() {
    let mut b = bump_over(0x100, 32);
    assert_eq!(b.allocate(64, 8), None);
    assert_eq!(b.allocate(32, 8), Some(0x100));
}

#[test]
fn bump_extra_free_does_not_underflow() {
    let mut b = bump_over(0x100, 32);
    b.deallocate(0x100, 8, 8);
    assert_eq!(b.allocate(8, 8), Some(0x100));
    b.deallocate(0x100, 8, 8);
    b.deallocate(0x100, 8, 8);
    assert_eq!(b.allocate(32, 8), Some(0x100));
}

#[test]
fn bump_end_saturates_at_address_space_top() {
    let mut b = bump_over(usize::MAX - 10, 100);
    assert_eq!(b.allocate(20, 1), None);
    assert_eq!(b.allocate(10, 1), Some(usize::MAX - 10));
}

#[test]
fn bump_alignment_overflow_fails() {
    let mut b = bump_over(usize::MAX - 2, 2);
    assert_eq!(b.allocate(1, 16), None);
    assert_eq!(b.allocate(1, 1), Some(usize::MAX - 2));
}

#[test]
fn bump_addresses_are_aligned_and_disjoint() {
    let mut b = bump_over(0x1003, 4096);
    let requests = [(3usize, 1usize), (8, 8), (5, 4), (64, 64), (1, 2), (100, 32)];
    let mut got: Vec<(usize, usize)> = Vec::new();
    for (size, align) in requests {
        let p = b.allocate(size, align).unwrap();
        assert_eq!(p % align, 0);
        for &(q, n) in &got {
            assert!(p + size <= q || q + n <= p);
        }
        got.push((p, size));
    }
}

#[test]
fn bump_churn_keeps_pace() {
    let mut b = bump_over(0x10_0000, HEAP_SIZE);
    for _ in 0..HEAP_SIZE {
        let p = b.allocate(8, 8);
        assert!(p.is_some());
        b.deallocate(p.unwrap(), 8, 8);
    }
}

#[test]
fn bump_survivor_blocks_reclaim() {
    let mut b = bump_over(0x4000, 64);
    let _survivor = b.allocate(8, 8).unwrap();
    let mut failed = false;
    for _ in 0..16 {
        match b.allocate(8, 8) {
            Some(p) => b.deallocate(p, 8, 8),
            None => failed = true,
        }
    }
    assert!(failed);
}
