use x11_client::{IdAllocator, X11Error};

#[test]
fn ids_satisfy_mask_invariant_and_are_distinct() {
    let base: u32 = 0x0040_0000;
    let mask: u32 = 0x3ff;
    let mut a = IdAllocator::new(base, mask);
    let mut seen: Vec<u32> = Vec::new();
    for _ in 0..64 {
        let id = a.allocate().unwrap();
        assert_eq!(id & !mask, base);
        assert!(!seen.contains(&id));
        seen.push(id);
    }
}

#[test]
fn counter_bits_spread_into_mask_positions() {
    // mask 0b1010: counter bit 0 goes to mask bit 1, counter bit 1 to
    // mask bit 3.
    let mut a = IdAllocator::new(0, 0b1010);
    assert_eq!(a.allocate().unwrap(), 0b0000);
    assert_eq!(a.allocate().unwrap(), 0b0010);
    assert_eq!(a.allocate().unwrap(), 0b1000);
    assert_eq!(a.allocate().unwrap(), 0b1010);
    assert_eq!(a.allocate(), Err(X11Error::IdSpaceExhausted));
}

#[test]
fn first_id_is_the_base() {
    let mut a = IdAllocator::new(0x1230_0000, 0xff);
    assert_eq!(a.allocate().unwrap(), 0x1230_0000);
}

#[test]
fn exhaustion_comes_exactly_when_the_mask_runs_out() {
    let mut a = IdAllocator::new(0x8000_0000, 0x3);
    for _ in 0..4 {
        assert!(a.allocate().is_ok());
    }
    assert_eq!(a.allocate(), Err(X11Error::IdSpaceExhausted));
    assert_eq!(a.allocate(), Err(X11Error::IdSpaceExhausted));
}

#[test]
fn full_mask_counts_straight_through() {
    let mut a = IdAllocator::new(0, 0xffff_ffff);
    for want in 0..5u32 {
        assert_eq!(a.allocate().unwrap(), want);
    }
}

#[test]
fn empty_mask_allows_only_the_base() {
    let mut a = IdAllocator::new(0x0040_0000, 0);
    assert_eq!(a.allocate().unwrap(), 0x0040_0000);
    assert_eq!(a.allocate(), Err(X11Error::IdSpaceExhausted));
}
