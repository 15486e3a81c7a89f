use bump_allocator::bump::{AllocError, EarlyAllocator};

#[test]
fn byte_alloc_aligns_and_advances() {
    let mut a = EarlyAllocator::<4096>::new();
    a.init(5, 1000);
    let addr = a.alloc_bytes(10, 8).unwrap();
    assert_eq!(addr, 8);
    assert_eq!(addr % 8, 0);
    assert!(addr >= a.start);
    assert!(addr < a.p_pos);
    assert_eq!(a.b_pos, 18);
    assert!(a.b_pos <= a.p_pos);
    assert_eq!(a.used_bytes(), 10);
    assert_eq!(a.byte_alloc_count, 1);
}

#[test]
fn byte_alloc_over_request_fails_unchanged() {
    let mut a = EarlyAllocator::<4096>::new();
    a.init(0, 100);
    assert_eq!(a.alloc_bytes(200, 1), Err(AllocError::NoMemory));
    assert_eq!(a.start, 0);
    assert_eq!(a.end, 100);
    assert_eq!(a.b_pos, 0);
    assert_eq!(a.p_pos, 100);
    assert_eq!(a.byte_alloc_count, 0);
    assert_eq!(a.byte_alloc_total, 0);
    assert_eq!(a.page_alloc_count, 0);
    assert_eq!(a.page_alloc_total, 0);
}

#[test]
fn balanced_deallocs_reclaim_byte_zone() {
    let mut a = EarlyAllocator::<4096>::new();
    a.init(0, 1024);
    let avail0 = a.available_bytes();
    let first = a.alloc_bytes(10, 1).unwrap();
    let second = a.alloc_bytes(20, 4).unwrap();
    let third = a.alloc_bytes(5, 2).unwrap();
    assert!(a.used_bytes() == 35);
    a.dealloc(second, 20);
    assert!(a.used_bytes() == 15);
    assert_ne!(a.b_pos, 0);
    a.dealloc(first, 10);
    a.dealloc(third, 5);
    assert_eq!(a.used_bytes(), 0);
    assert_eq!(a.b_pos, 0);
    assert_eq!(a.available_bytes(), avail0);
}

#[test]
fn page_alloc_aligns_backward() {
    let mut a = EarlyAllocator::<4096>::new();
    a.init(0, 8192);
    let p_before = a.p_pos;
    let addr = a.alloc_pages(1, 13).unwrap();
    assert_eq!(addr, 0);
    assert_eq!(addr % 8192, 0);
    assert_eq!(addr % 4096, 0);
    assert!(addr >= a.b_pos);
    assert!(addr < a.end);
    assert!(a.p_pos <= p_before);
    assert_eq!(a.used_pages(), 1);
    assert_eq!(a.page_alloc_count, 1);
}

#[test]
fn page_over_request_fails_unchanged() {
    let mut a = EarlyAllocator::<4096>::new();
    a.init(0, 8192);
    assert_eq!(a.alloc_pages(3, 12), Err(AllocError::NoMemory));
    assert_eq!(a.p_pos, 8192);
    assert_eq!(a.page_alloc_count, 0);
    assert_eq!(a.page_alloc_total, 0);
    assert_eq!(a.alloc_pages(usize::MAX / 4096 + 1, 0), Err(AllocError::NoMemory));
    assert_eq!(a.p_pos, 8192);
}

#[test]
fn regions_stay_disjoint() {
    let mut a = EarlyAllocator::<4096>::new();
    assert!(a.b_pos <= a.p_pos);
    a.init(0, 8192);
    assert!(a.b_pos <= a.p_pos);
    a.alloc_bytes(100, 1).unwrap();
    assert!(a.b_pos <= a.p_pos);
    a.alloc_pages(1, 12).unwrap();
    assert!(a.b_pos <= a.p_pos);
    a.dealloc(0, 100);
    assert!(a.b_pos <= a.p_pos);
}

#[test]
fn totals_agree_on_page_multiple() {
    let mut a = EarlyAllocator::<4096>::new();
    a.init(0, 3 * 4096);
    assert_eq!(a.total_bytes(), a.total_pages() * 4096);
    assert_eq!(a.total_bytes(), 12288);
    assert_eq!(a.total_pages(), 3);
}

#[test]
fn scenario_one_page_region() {
    let mut a = EarlyAllocator::<4096>::new();
    a.init(0, 4096);
    assert_eq!(a.alloc_bytes(16, 8), Ok(0));
    assert_eq!(a.b_pos, 16);
    assert_eq!(a.alloc_pages(1, 12), Err(AllocError::NoMemory));
    assert_eq!(a.b_pos, 16);
    assert_eq!(a.p_pos, 4096);
    assert_eq!(a.byte_alloc_count, 1);
    assert_eq!(a.page_alloc_total, 0);
}

#[test]
fn scenario_two_page_region() {
    let mut a = EarlyAllocator::<4096>::new();
    a.init(0, 8192);
    assert_eq!(a.alloc_pages(1, 12), Ok(4096));
    assert_eq!(a.p_pos, 4096);
    assert_eq!(a.alloc_bytes(100, 16), Ok(0));
    assert_eq!(a.b_pos, 100);
    assert_eq!(a.used_pages(), 1);
    assert_eq!(a.available_bytes(), 4096 - 100);
}

#[test]
fn scenario_two_page_region_second_page_collides() {
    let mut a = EarlyAllocator::<4096>::new();
    a.init(0, 8192);
    assert_eq!(a.alloc_pages(1, 12), Ok(4096));
    assert_eq!(a.alloc_bytes(100, 16), Ok(0));
    assert_eq!(a.alloc_pages(1, 12), Err(AllocError::NoMemory));
    assert_eq!(a.p_pos, 4096);
    assert_eq!(a.b_pos, 100);
    assert_eq!(a.page_alloc_count, 1);
}

#[test]
fn init_twice_resets_to_fresh_bounds() {
    let mut a = EarlyAllocator::<4096>::new();
    a.init(0, 4096);
    a.alloc_bytes(64, 8).unwrap();
    a.alloc_pages(1, 12).ok();
    a.init(1000, 2000);
    assert_eq!(a.start, 1000);
    assert_eq!(a.end, 3000);
    assert_eq!(a.b_pos, 1000);
    assert_eq!(a.p_pos, 3000);
    assert_eq!(a.byte_alloc_count, 0);
    assert_eq!(a.byte_alloc_total, 0);
    assert_eq!(a.page_alloc_count, 0);
    assert_eq!(a.page_alloc_total, 0);
    assert_eq!(a.used_bytes(), 0);
    assert_eq!(a.available_bytes(), 2000);
}

#[test]
fn unsupported_operations_fail() {
    let mut a = EarlyAllocator::<4096>::new();
    a.init(0, 4096);
    assert_eq!(a.add_memory(8192, 4096), Err(AllocError::Unsupported));
    assert_eq!(a.dealloc_pages(0, 1), Err(AllocError::Unsupported));
    assert_eq!(a.start, 0);
    assert_eq!(a.end, 4096);
}

#[test]
fn fresh_allocator_is_all_zero() {
    let a = EarlyAllocator::<4096>::new();
    assert_eq!(a.start, 0);
    assert_eq!(a.end, 0);
    assert_eq!(a.b_pos, 0);
    assert_eq!(a.p_pos, 0);
    assert_eq!(a.byte_alloc_count, 0);
    assert_eq!(a.byte_alloc_total, 0);
    assert_eq!(a.page_alloc_count, 0);
    assert_eq!(a.page_alloc_total, 0);
}

#[test]
fn zero_size_alloc_still_counts() {
    let mut a = EarlyAllocator::<4096>::new();
    a.init(0, 4096);
    assert_eq!(a.alloc_bytes(0, 1), Ok(0));
    assert_eq!(a.byte_alloc_count, 1);
    assert_eq!(a.b_pos, 0);
    assert_eq!(a.used_bytes(), 0);
    a.dealloc(0, 0);
    assert_eq!(a.byte_alloc_count, 0);
    assert_eq!(a.b_pos, 0);
}

#[test]
fn exact_fit_succeeds_then_next_fails() {
    let mut a = EarlyAllocator::<4096>::new();
    a.init(0, 4096);
    assert_eq!(a.alloc_bytes(4096, 1), Ok(0));
    assert_eq!(a.available_bytes(), 0);
    assert_eq!(a.alloc_bytes(1, 1), Err(AllocError::NoMemory));
    assert_eq!(a.alloc_pages(1, 12), Err(AllocError::NoMemory));
}

#[test]
fn queries_track_pages() {
    let mut a = EarlyAllocator::<4096>::new();
    a.init(0, 4 * 4096);
    assert_eq!(a.total_pages(), 4);
    assert_eq!(a.used_pages(), 0);
    assert_eq!(a.available_pages(), 4);
    a.alloc_pages(2, 12).unwrap();
    assert_eq!(a.used_pages(), 2);
    assert_eq!(a.available_pages(), 2);
    assert_eq!(a.total_pages(), 4);
}
