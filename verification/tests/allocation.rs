//! End-to-end scenarios for the fallback coordinator against the
//! simulated backend.

use hugepages::coordinator::{allocate_region, release_region};
use hugepages::errors::{
    PageFault, RegionError, ERR_ADDRESS_IN_USE, ERR_COMMIT_FAULT, ERR_LOCK_LIMIT,
    ERR_NO_NODE_CAPACITY,
};
use hugepages::page::PageState;
use hugepages::sim::SimOs;

const GIB: u64 = 1_073_741_824;

#[test]
fn full_region_on_preferred_node() {
    let mut os = SimOs::new(10);
    let base: u64 = 0x10_0000;
    let r = allocate_region(&mut os, 4 * 4096, 4096, base, 0, 1);
    let region = r.expect("both nodes have room");
    assert_eq!(region.base_address, base);
    assert_eq!(region.page_size, 4096);
    assert_eq!(region.requested_page_count, 4);
    assert_eq!(region.pages.len(), 4);
    for i in 0..4u64 {
        let p = &region.pages[i as usize];
        assert_eq!(p.virtual_address, base + i * 4096);
        assert_eq!(p.size, 4096);
        assert_eq!(p.state, PageState::Ready);
        assert_eq!(p.numa_node, Some(0));
    }
    assert_eq!(os.mapped_count(), 4);
}

#[test]
fn rejects_unaligned_total_before_any_call() {
    let mut os = SimOs::new(10);
    let r = allocate_region(&mut os, 4100, 1024, 0x10_0000, 0, 1);
    assert_eq!(
        r.err().expect("not a multiple"),
        RegionError::Config { total_size: 4100, page_size: 1024 }
    );
    assert_eq!(os.mapped_count(), 0);
}

#[test]
fn rejects_zero_page_size() {
    let mut os = SimOs::new(10);
    let r = allocate_region(&mut os, 4096, 0, 0x10_0000, 0, 1);
    assert_eq!(
        r.err().expect("zero page size"),
        RegionError::Config { total_size: 4096, page_size: 0 }
    );
    assert_eq!(os.mapped_count(), 0);
}

#[test]
fn empty_request_yields_empty_region() {
    let mut os = SimOs::new(10);
    let r = allocate_region(&mut os, 0, 4096, 0x10_0000, 0, 1);
    let region = r.expect("zero pages need nothing");
    assert_eq!(region.pages.len(), 0);
    assert_eq!(os.mapped_count(), 0);
}

#[test]
fn falls_back_when_preferred_exhausted() {
    let mut os = SimOs::new(0);
    os.set_node_capacity(0, 2);
    os.set_node_capacity(1, 10);
    let base: u64 = 0x20_0000;
    let region = allocate_region(&mut os, 4 * 4096, 4096, base, 0, 1).expect("node 1 covers");
    assert_eq!(region.pages.len(), 4);
    assert_eq!(region.pages[0].numa_node, Some(0));
    assert_eq!(region.pages[1].numa_node, Some(0));
    assert_eq!(region.pages[2].numa_node, Some(1));
    assert_eq!(region.pages[3].numa_node, Some(1));
    for p in &region.pages {
        assert_eq!(p.state, PageState::Ready);
    }
}

#[test]
fn giant_page_fallback_split() {
    let mut os = SimOs::new(0);
    os.set_node_capacity(0, 2);
    os.set_node_capacity(1, u64::MAX);
    let base: u64 = 0x20_0000_0000_0000;
    let region =
        allocate_region(&mut os, 4 * GIB, GIB, base, 0, 1).expect("node 1 is unlimited");
    assert_eq!(region.pages.len(), 4);
    for i in 0..4u64 {
        let p = &region.pages[i as usize];
        assert_eq!(p.virtual_address, base + i * GIB);
        assert_eq!(p.state, PageState::Ready);
    }
    assert_eq!(region.pages[0].numa_node, Some(0));
    assert_eq!(region.pages[1].numa_node, Some(0));
    assert_eq!(region.pages[2].numa_node, Some(1));
    assert_eq!(region.pages[3].numa_node, Some(1));
}

#[test]
fn all_or_nothing_when_both_exhausted() {
    let mut os = SimOs::new(0);
    os.set_node_capacity(0, 2);
    os.set_node_capacity(1, 1);
    let base: u64 = 0x30_0000;
    let r = allocate_region(&mut os, 4 * 4096, 4096, base, 0, 1);
    assert_eq!(
        r.err().expect("one page short"),
        RegionError::Allocation {
            pages_acquired: 3,
            last_error: PageFault::BindFailed {
                page_index: 3,
                node: 1,
                os_error: ERR_NO_NODE_CAPACITY,
            },
        }
    );
    assert_eq!(os.mapped_count(), 0);
    for i in 0..4u64 {
        assert!(!os.is_mapped(base + i * 4096));
    }
}

#[test]
fn same_node_twice_gets_no_second_chance() {
    let mut os = SimOs::new(0);
    os.set_node_capacity(0, 3);
    let r = allocate_region(&mut os, 4 * 4096, 4096, 0x40_0000, 0, 0);
    assert_eq!(
        r.err().expect("node 0 alone cannot cover"),
        RegionError::Allocation {
            pages_acquired: 3,
            last_error: PageFault::BindFailed {
                page_index: 3,
                node: 0,
                os_error: ERR_NO_NODE_CAPACITY,
            },
        }
    );
    assert_eq!(os.mapped_count(), 0);
}

#[test]
fn reallocation_after_release_succeeds_identically() {
    let mut os = SimOs::new(0);
    os.set_node_capacity(0, 2);
    os.set_node_capacity(1, 10);
    let base: u64 = 0x50_0000;
    let first = allocate_region(&mut os, 4 * 4096, 4096, base, 0, 1).expect("fits");
    let first_pages: Vec<(u64, Option<u64>)> =
        first.pages.iter().map(|p| (p.virtual_address, p.numa_node)).collect();
    assert_eq!(os.mapped_count(), 4);

    release_region(&mut os, first);
    assert_eq!(os.mapped_count(), 0);
    for i in 0..4u64 {
        assert!(!os.is_mapped(base + i * 4096));
    }

    let second = allocate_region(&mut os, 4 * 4096, 4096, base, 0, 1).expect("no residue");
    let second_pages: Vec<(u64, Option<u64>)> =
        second.pages.iter().map(|p| (p.virtual_address, p.numa_node)).collect();
    assert_eq!(first_pages, second_pages);
    assert_eq!(os.mapped_count(), 4);
}

#[test]
fn colliding_reservation_fails_allocation_and_survives_it() {
    let mut os = SimOs::new(10);
    let base: u64 = 0x60_0000;
    os.map(base + 2 * 4096, 4096).expect("free address");
    let r = allocate_region(&mut os, 4 * 4096, 4096, base, 0, 1);
    assert_eq!(
        r.err().expect("address 2 is taken on both passes"),
        RegionError::Allocation {
            pages_acquired: 2,
            last_error: PageFault::MapFailed {
                page_index: 2,
                node: 1,
                os_error: ERR_ADDRESS_IN_USE,
            },
        }
    );
    // The foreign reservation is untouched; the region's own pages are gone.
    assert_eq!(os.mapped_count(), 1);
    assert!(os.is_mapped(base + 2 * 4096));
    assert!(!os.is_mapped(base));
    assert!(!os.is_mapped(base + 4096));
    assert!(!os.is_mapped(base + 3 * 4096));
}

#[test]
fn lock_limit_fails_allocation() {
    let mut os = SimOs::new(10);
    os.set_lock_limit(2);
    let r = allocate_region(&mut os, 4 * 4096, 4096, 0x70_0000, 0, 1);
    assert_eq!(
        r.err().expect("only two pages may be pinned"),
        RegionError::Allocation {
            pages_acquired: 2,
            last_error: PageFault::LockFailed {
                page_index: 2,
                node: 1,
                os_error: ERR_LOCK_LIMIT,
            },
        }
    );
    assert_eq!(os.mapped_count(), 0);
}

#[test]
fn commit_fault_is_fatal_and_rolled_back() {
    let mut os = SimOs::new(10);
    os.set_commit_fault(true);
    let r = allocate_region(&mut os, 4 * 4096, 4096, 0x80_0000, 0, 1);
    assert_eq!(
        r.err().expect("first touch faults"),
        RegionError::Fatal { page_index: 0, node: 0, os_error: ERR_COMMIT_FAULT }
    );
    assert_eq!(os.mapped_count(), 0);
}
