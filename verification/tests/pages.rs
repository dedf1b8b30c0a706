use bump_allocator::{AllocError, EarlyAllocator};

type Alloc = EarlyAllocator<0x1000>;

fn fresh(start: usize, size: usize) -> Alloc {
    let mut a = Alloc::new();
    a.init(start, size);
    a
}

#[test]
fn page_counts_round_down() {
    let a = fresh(0x1000, 0x2800);
    assert_eq!(a.total_pages(), 2);
    assert_eq!(a.available_pages(), 2);
    assert_eq!(a.used_pages(), 0);
    let b = fresh(0x1000, 0xfff);
    assert_eq!(b.total_pages(), 0);
    assert_eq!(b.available_pages(), 0);
    let c = Alloc::new();
    assert_eq!(c.total_pages(), 0);
    assert_eq!(c.used_pages(), 0);
    assert_eq!(c.available_pages(), 0);
}

#[test]
fn page_counts_follow_page_size() {
    let mut a = EarlyAllocator::<0x200>::new();
    a.init(0x1000, 0x1000);
    assert_eq!(a.total_pages(), 8);
    assert_eq!(a.alloc_pages(3, 0x200), Ok(0x1a00));
    assert_eq!(a.used_pages(), 3);
    assert_eq!(a.available_pages(), 5);
    assert_eq!(a.alloc_bytes(0x201, 1), Ok(0x1000));
    assert_eq!(a.available_pages(), 3);
    assert_eq!(a.available_bytes(), 0xa00 - 0x201);
    assert_eq!(a.total_pages(), 8);
}

#[test]
fn alloc_pages_bumps_downwards() {
    let mut a = fresh(0x1000, 0x8000);
    assert_eq!(a.alloc_pages(1, 0x1000), Ok(0x8000));
    assert_eq!(a.used_pages(), 1);
    assert_eq!(a.alloc_pages(2, 0x1000), Ok(0x6000));
    assert_eq!(a.used_pages(), 3);
    assert_eq!(a.available_pages(), 5);
    assert_eq!(a.available_bytes(), 0x5000);
    assert_eq!(a.used_bytes(), 0);
    assert_eq!(a.pages_outstanding(), 2);
}

#[test]
fn alloc_pages_aligns_downwards() {
    let mut a = fresh(0x1000, 0x5000);
    assert_eq!(a.alloc_pages(1, 0x2000), Ok(0x4000));
    // The page skipped for alignment counts as used.
    assert_eq!(a.used_pages(), 2);
    assert_eq!(a.alloc_pages(1, 0x1000), Ok(0x3000));
    assert_eq!(a.alloc_pages(1, 0x4000), Err(AllocError::NoMemory));
    assert_eq!(a.used_pages(), 3);
    assert_eq!(a.pages_outstanding(), 2);
}

#[test]
fn alloc_pages_from_unaligned_end() {
    let mut a = fresh(0x1000, 0x2345);
    assert_eq!(a.alloc_pages(1, 0x1000), Ok(0x2000));
    assert_eq!(a.used_pages(), 1);
    assert_eq!(a.available_bytes(), 0x1000);
    let mut b = fresh(0x1000, 0x2345);
    assert_eq!(b.alloc_pages(1, 1), Ok(0x2345));
    assert_eq!(b.alloc_pages(1, 4), Ok(0x1344));
}

#[test]
fn alloc_pages_of_count_zero_still_counts() {
    let mut a = fresh(0x1000, 0x2000);
    assert_eq!(a.alloc_pages(0, 0x1000), Ok(0x3000));
    assert_eq!(a.used_pages(), 0);
    assert_eq!(a.pages_outstanding(), 1);
    assert_eq!(a.alloc_pages(0, 0x2000), Ok(0x2000));
    assert_eq!(a.used_pages(), 1);
    assert_eq!(a.pages_outstanding(), 2);
}

#[test]
fn alloc_pages_can_take_the_whole_range() {
    let mut a = fresh(0x1000, 0x3000);
    assert_eq!(a.alloc_pages(3, 0x1000), Ok(0x1000));
    assert_eq!(a.available_bytes(), 0);
    assert_eq!(a.available_pages(), 0);
    assert_eq!(a.used_pages(), 3);
    assert_eq!(a.alloc_bytes(1, 1), Err(AllocError::NoMemory));
    assert_eq!(a.alloc_pages(1, 0x1000), Err(AllocError::NoMemory));
}

#[test]
fn alloc_pages_overflow_is_invalid_param() {
    let mut a = fresh(0x1000, 0x4000);
    assert_eq!(a.alloc_bytes(8, 8), Ok(0x1000));
    assert_eq!(a.alloc_pages(1, 0x1000), Ok(0x4000));
    assert_eq!(a.alloc_pages(usize::MAX, 0x1000), Err(AllocError::InvalidParam));
    assert_eq!(a.alloc_pages(usize::MAX / 0x1000 + 1, 1), Err(AllocError::InvalidParam));
    assert_eq!(a.used_bytes(), 8);
    assert_eq!(a.used_pages(), 1);
    assert_eq!(a.available_bytes(), 0x3000 - 8);
    assert_eq!(a.bytes_outstanding(), 1);
    assert_eq!(a.pages_outstanding(), 1);
    // The largest count whose extent still fits in a word is merely too big.
    assert_eq!(a.alloc_pages(usize::MAX / 0x1000, 1), Err(AllocError::NoMemory));
    assert_eq!(a.alloc_pages(1, 0x1000), Ok(0x3000));
}

#[test]
fn alloc_pages_below_address_zero_is_no_memory() {
    let mut a = fresh(0x1000, 0x2000);
    assert_eq!(a.alloc_pages(4, 0x1000), Err(AllocError::NoMemory));
    assert_eq!(a.used_pages(), 0);
    assert_eq!(a.pages_outstanding(), 0);
    assert_eq!(a.available_bytes(), 0x2000);
}

#[test]
fn alloc_pages_into_byte_zone_is_no_memory() {
    let mut a = fresh(0x1000, 0x2000);
    // Fits above address zero, but not above the start of the range.
    assert_eq!(a.alloc_pages(3, 0x1000), Err(AllocError::NoMemory));
    assert_eq!(a.alloc_bytes(1, 1), Ok(0x1000));
    assert_eq!(a.alloc_pages(2, 0x1000), Err(AllocError::NoMemory));
    assert_eq!(a.used_pages(), 0);
    assert_eq!(a.pages_outstanding(), 0);
    assert_eq!(a.used_bytes(), 1);
    assert_eq!(a.alloc_pages(1, 0x1000), Ok(0x2000));
}

#[test]
fn dealloc_pages_reclaims_only_at_zero() {
    let mut a = fresh(0x1000, 0x4000);
    assert_eq!(a.alloc_pages(1, 0x1000), Ok(0x4000));
    assert_eq!(a.alloc_pages(2, 0x1000), Ok(0x2000));
    assert_eq!(a.used_pages(), 3);
    a.dealloc_pages(0x2000, 2);
    assert_eq!(a.used_pages(), 3);
    assert_eq!(a.pages_outstanding(), 1);
    assert_eq!(a.alloc_pages(1, 0x1000), Ok(0x1000));
    a.dealloc_pages(0x4000, 1);
    assert_eq!(a.used_pages(), 4);
    a.dealloc_pages(0x1000, 1);
    assert_eq!(a.used_pages(), 0);
    assert_eq!(a.pages_outstanding(), 0);
    assert_eq!(a.available_pages(), 4);
    assert_eq!(a.alloc_pages(1, 0x1000), Ok(0x4000));
}

#[test]
fn dealloc_pages_without_allocation_is_ignored() {
    let mut a = fresh(0x1000, 0x4000);
    a.dealloc_pages(0x4000, 1);
    a.dealloc_pages(0, 0);
    assert_eq!(a.pages_outstanding(), 0);
    assert_eq!(a.used_pages(), 0);
    assert_eq!(a.alloc_pages(1, 0x1000), Ok(0x4000));
    assert_eq!(a.pages_outstanding(), 1);
}

#[test]
fn dealloc_pages_ignores_its_arguments_and_bytes() {
    let mut a = fresh(0x1000, 0x4000);
    assert_eq!(a.alloc_bytes(0x20, 1), Ok(0x1000));
    assert_eq!(a.alloc_pages(2, 0x1000), Ok(0x3000));
    a.dealloc_pages(0x7777, 99);
    assert_eq!(a.used_pages(), 0);
    assert_eq!(a.pages_outstanding(), 0);
    assert_eq!(a.used_bytes(), 0x20);
    assert_eq!(a.bytes_outstanding(), 1);
    assert_eq!(a.available_bytes(), 0x4000 - 0x20);
}

#[test]
fn page_size_zero_allocates_empty_spans() {
    let mut a = EarlyAllocator::<0>::new();
    a.init(0x1000, 0x1000);
    assert_eq!(a.alloc_pages(5, 0x100), Ok(0x2000));
    assert_eq!(a.alloc_pages(usize::MAX, 1), Ok(0x2000));
    assert_eq!(a.available_bytes(), 0x1000);
    assert_eq!(a.pages_outstanding(), 2);
}
