//! Port allocation.

use llm_orch::config::PortRange;
use llm_orch::port_alloc::PortAllocator;

#[test]
fn allocate_and_free_range() {
    let range = PortRange::Range {
        start: 12000,
        end: 12002,
    };
    let mut alloc = PortAllocator::new(range);

    let p1 = alloc.allocate_range_sync(|_| true).unwrap();
    let p2 = alloc.allocate_range_sync(|_| true).unwrap();
    let p3 = alloc.allocate_range_sync(|_| true).unwrap();
    assert_eq!(alloc.used_count(), 3);
    assert_ne!(p1, p2);
    assert_ne!(p2, p3);

    // The range is full.
    assert!(alloc.allocate_range_sync(|_| true).is_none());

    // Free one and reallocate.
    alloc.free(p2);
    let p4 = alloc.allocate_range_sync(|_| true).unwrap();
    assert_eq!(p4, p2); // the same port again
}

#[test]
fn ephemeral_allocates() {
    let mut alloc = PortAllocator::new(PortRange::EphemeralWord("ephemeral".into()));
    assert!(alloc.is_ephemeral());
    // The operating system picks the port; the range has none to offer.
    assert!(alloc.allocate_range_sync(|_| true).is_none());
    // Such a port is not tracked, so giving it back changes nothing.
    alloc.free(40000);
    assert_eq!(alloc.used_count(), 0);
}

#[test]
fn ports_in_use_elsewhere_are_passed_over() {
    let mut alloc = PortAllocator::new(PortRange::Range { start: 100, end: 103 });
    assert_eq!(alloc.allocate_range_sync(|p| p % 2 == 1), Some(101));
    assert_eq!(alloc.allocate_range_sync(|p| p % 2 == 1), Some(103));
    assert_eq!(alloc.allocate_range_sync(|p| p % 2 == 1), None);
    assert_eq!(alloc.used_count(), 2);
}

#[test]
fn the_last_port_number_can_be_used() {
    let mut alloc = PortAllocator::new(PortRange::Range { start: 65534, end: 65535 });
    assert_eq!(alloc.allocate_range_sync(|_| true), Some(65534));
    assert_eq!(alloc.allocate_range_sync(|_| true), Some(65535));
    alloc.free(65534);
    assert_eq!(alloc.allocate_range_sync(|_| true), Some(65534));
}

#[test]
fn a_new_range_takes_effect() {
    let mut alloc = PortAllocator::new(PortRange::Range { start: 100, end: 110 });
    assert_eq!(alloc.allocate_range_sync(|_| true), Some(100));
    alloc.set_range(PortRange::Range { start: 200, end: 201 });
    assert_eq!(alloc.allocate_range_sync(|_| true), Some(200));
    assert!(!alloc.is_ephemeral());
}

#[test]
fn ports_that_are_in_use_are_not_handed_out() {
    let mut alloc = PortAllocator::new(PortRange::Range {
        start: 13000,
        end: 13003,
    });
    // 13000 is bound by another process.
    let first = alloc.allocate_range_sync(|p| p != 13000).unwrap();
    let second = alloc.allocate_range_sync(|p| p != 13000).unwrap();
    let third = alloc.allocate_range_sync(|p| p != 13000).unwrap();
    assert_eq!((first, second, third), (13001, 13002, 13003));
    assert!(alloc.allocate_range_sync(|p| p != 13000).is_none());
}
