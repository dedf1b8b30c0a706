use bump_allocator::align::is_power_of_two;
use bump_allocator::EarlyAllocator;

type Alloc = EarlyAllocator<0x1000>;

#[test]
fn align_up_keeps_aligned_addresses() {
    assert_eq!(Alloc::align_up(0, 1), 0);
    assert_eq!(Alloc::align_up(0, 8), 0);
    assert_eq!(Alloc::align_up(0x1000, 0x1000), 0x1000);
    assert_eq!(Alloc::align_up(48, 16), 48);
}

#[test]
fn align_up_moves_to_next_multiple() {
    assert_eq!(Alloc::align_up(1, 8), 8);
    assert_eq!(Alloc::align_up(13, 8), 16);
    assert_eq!(Alloc::align_up(0x1001, 0x1000), 0x2000);
    assert_eq!(Alloc::align_up(0x1fff, 0x1000), 0x2000);
    assert_eq!(Alloc::align_up(17, 1), 17);
}

#[test]
fn align_up_at_top_of_address_space() {
    assert_eq!(Alloc::align_up(usize::MAX - 7, 8), usize::MAX - 7);
    assert_eq!(Alloc::align_up(usize::MAX, 1), usize::MAX);
    assert_eq!(Alloc::align_up(usize::MAX - 14, 8), usize::MAX - 7);
}

#[test]
fn align_down_keeps_aligned_addresses() {
    assert_eq!(Alloc::align_down(0, 1), 0);
    assert_eq!(Alloc::align_down(0, 0x1000), 0);
    assert_eq!(Alloc::align_down(0x3000, 0x1000), 0x3000);
    assert_eq!(Alloc::align_down(64, 64), 64);
}

#[test]
fn align_down_moves_to_previous_multiple() {
    assert_eq!(Alloc::align_down(13, 8), 8);
    assert_eq!(Alloc::align_down(7, 8), 0);
    assert_eq!(Alloc::align_down(0x1fff, 0x1000), 0x1000);
    assert_eq!(Alloc::align_down(usize::MAX, 0x1000), usize::MAX - 0xfff);
    assert_eq!(Alloc::align_down(usize::MAX, 1), usize::MAX);
}

#[test]
fn align_with_largest_power_of_two() {
    let top = 1usize << (usize::BITS - 1);
    assert_eq!(Alloc::align_down(usize::MAX, top), top);
    assert_eq!(Alloc::align_down(top - 1, top), 0);
    assert_eq!(Alloc::align_up(1, top), top);
    assert_eq!(Alloc::align_up(top, top), top);
}

#[test]
fn rounding_brackets_the_address() {
    let aligns = [1usize, 2, 4, 8, 64, 0x1000, 0x20_0000];
    let addrs = [0usize, 1, 7, 8, 9, 4095, 4096, 4097, 0xdead_beef, 0x1234_5678];
    for align in aligns {
        for addr in addrs {
            let down = Alloc::align_down(addr, align);
            let up = Alloc::align_up(addr, align);
            assert_eq!(down % align, 0);
            assert_eq!(up % align, 0);
            assert!(down <= addr && addr - down < align);
            assert!(addr <= up && up - addr < align);
            assert_eq!(down == addr, up == addr);
        }
    }
}

#[test]
fn powers_of_two_are_recognised() {
    for shift in 0..usize::BITS {
        assert!(is_power_of_two(1usize << shift));
    }
    for n in [0usize, 3, 5, 6, 7, 9, 12, 0x1001, 0xffff, usize::MAX, usize::MAX - 1] {
        assert!(!is_power_of_two(n));
    }
    let top = 1usize << (usize::BITS - 1);
    assert!(!is_power_of_two(top + 1));
    assert!(!is_power_of_two(top - 1));
    assert!(!is_power_of_two(top | 1 << 3));
}
