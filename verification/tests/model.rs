//! Unit tests of the data model: address planning, the page state
//! machine, NUMA node masks, region accessors, and the simulated
//! backend's own operations.

use hugepages::coordinator::allocate_region;
use hugepages::errors::{
    ERR_ADDRESS_IN_USE, ERR_BAD_PIPELINE_ORDER, ERR_COMMIT_FAULT, ERR_LOCK_LIMIT,
    ERR_NOT_MAPPED, ERR_NO_NODE_CAPACITY,
};
use hugepages::page::{next_call, needs_unmap, NumaNode, OsCall, Page, PageState};
use hugepages::planner::address_for;
use hugepages::sim::SimOs;

#[test]
fn addresses_are_base_plus_index_times_page_size() {
    assert_eq!(address_for(0x100, 0x40, 0), 0x100);
    assert_eq!(address_for(0x100, 0x40, 3), 0x1C0);
    assert_eq!(
        address_for(0x20_0000_0000_0000, 1_073_741_824, 2),
        0x20_0000_0000_0000 + 2 * 1_073_741_824
    );
}

#[test]
fn numa_node_mask_has_exactly_the_id_bit() {
    let n0 = NumaNode::new(0).expect("id in range");
    assert_eq!(n0.id, 0);
    assert_eq!(n0.node_mask, 1);
    let n5 = NumaNode::new(5).expect("id in range");
    assert_eq!(n5.node_mask, 32);
    let n63 = NumaNode::new(63).expect("id in range");
    assert_eq!(n63.node_mask, 1u64 << 63);
    assert!(NumaNode::new(64).is_none());
}

#[test]
fn page_advances_through_the_pipeline() {
    let node = NumaNode::new(3).expect("id in range");
    let p = Page::planned(0x9000, 4096);
    assert_eq!(p.state, PageState::Unmapped);
    assert_eq!(p.virtual_address, 0x9000);
    assert_eq!(p.numa_node, None);
    let p = p.mark_mapped();
    assert_eq!(p.state, PageState::Mapped);
    let p = p.mark_bound(node);
    assert_eq!(p.state, PageState::Bound);
    assert_eq!(p.numa_node, Some(3));
    let p = p.mark_locked();
    assert_eq!(p.state, PageState::Locked);
    let p = p.mark_ready();
    assert_eq!(p.state, PageState::Ready);
    assert_eq!(p.virtual_address, 0x9000);
    assert_eq!(p.size, 4096);
}

#[test]
fn any_state_may_fail() {
    let p = Page::planned(0x9000, 4096).mark_mapped().mark_failed();
    assert_eq!(p.state, PageState::Failed);
    assert_eq!(p.virtual_address, 0x9000);
}

#[test]
fn pipeline_decision_table() {
    assert_eq!(next_call(PageState::Unmapped), Some(OsCall::MapRange));
    assert_eq!(next_call(PageState::Mapped), Some(OsCall::BindNode));
    assert_eq!(next_call(PageState::Bound), Some(OsCall::LockRange));
    assert_eq!(next_call(PageState::Locked), Some(OsCall::TouchWord));
    assert_eq!(next_call(PageState::Ready), None);
    assert_eq!(next_call(PageState::Failed), None);

    assert!(!needs_unmap(PageState::Unmapped));
    assert!(needs_unmap(PageState::Mapped));
    assert!(needs_unmap(PageState::Bound));
    assert!(needs_unmap(PageState::Locked));
}

#[test]
fn backend_refuses_colliding_and_unknown_addresses() {
    let mut os = SimOs::new(4);
    assert_eq!(os.map(0x4000, 4096), Ok(()));
    assert!(os.is_mapped(0x4000));
    assert_eq!(os.map(0x4000, 4096), Err(ERR_ADDRESS_IN_USE));
    assert_eq!(os.unmap(0x4000), Ok(()));
    assert!(!os.is_mapped(0x4000));
    assert_eq!(os.unmap(0x4000), Err(ERR_NOT_MAPPED));
    assert_eq!(os.bind(0x4000, 0), Err(ERR_NOT_MAPPED));
    assert_eq!(os.lock(0x4000), Err(ERR_NOT_MAPPED));
    assert_eq!(os.touch(0x4000), Err(ERR_NOT_MAPPED));
}

#[test]
fn backend_enforces_pipeline_order() {
    let mut os = SimOs::new(4);
    os.map(0x4000, 4096).expect("free address");
    // Locking and touching before binding violate the pipeline order.
    assert_eq!(os.lock(0x4000), Err(ERR_BAD_PIPELINE_ORDER));
    assert_eq!(os.touch(0x4000), Err(ERR_BAD_PIPELINE_ORDER));
    assert_eq!(os.bind(0x4000, 2), Ok(()));
    assert_eq!(os.bind(0x4000, 2), Err(ERR_BAD_PIPELINE_ORDER));
    assert_eq!(os.touch(0x4000), Err(ERR_BAD_PIPELINE_ORDER));
    assert_eq!(os.lock(0x4000), Ok(()));
    assert_eq!(os.lock(0x4000), Err(ERR_BAD_PIPELINE_ORDER));
    assert_eq!(os.touch(0x4000), Ok(()));
}

#[test]
fn backend_capacity_is_returned_on_unmap() {
    let mut os = SimOs::new(0);
    os.set_node_capacity(7, 1);
    os.map(0x4000, 4096).expect("free address");
    os.map(0x8000, 4096).expect("free address");
    assert_eq!(os.bind(0x4000, 7), Ok(()));
    assert_eq!(os.bind(0x8000, 7), Err(ERR_NO_NODE_CAPACITY));
    assert_eq!(os.unmap(0x4000), Ok(()));
    assert_eq!(os.bind(0x8000, 7), Ok(()));
}

#[test]
fn backend_lock_limit_counts_pinned_reservations() {
    let mut os = SimOs::new(8);
    os.set_lock_limit(1);
    os.map(0x4000, 4096).expect("free address");
    os.map(0x8000, 4096).expect("free address");
    os.bind(0x4000, 0).expect("capacity left");
    os.bind(0x8000, 0).expect("capacity left");
    assert_eq!(os.lock(0x4000), Ok(()));
    assert_eq!(os.lock(0x8000), Err(ERR_LOCK_LIMIT));
    assert_eq!(os.unmap(0x4000), Ok(()));
    assert_eq!(os.lock(0x8000), Ok(()));
}

#[test]
fn backend_commit_fault_hits_touch_only() {
    let mut os = SimOs::new(8);
    os.set_commit_fault(true);
    os.map(0x4000, 4096).expect("free address");
    os.bind(0x4000, 0).expect("capacity left");
    os.lock(0x4000).expect("limit is unbounded");
    assert_eq!(os.touch(0x4000), Err(ERR_COMMIT_FAULT));
    os.set_commit_fault(false);
    assert_eq!(os.touch(0x4000), Ok(()));
}

#[test]
fn region_accessors_report_pages() {
    let mut os = SimOs::new(0);
    os.set_node_capacity(0, 1);
    os.set_node_capacity(1, 1);
    let base: u64 = 0xA0_0000;
    let region = allocate_region(&mut os, 2 * 4096, 4096, base, 0, 1).expect("fits");
    assert_eq!(region.page_count(), 2);
    assert_eq!(region.address_of_page(0), base);
    assert_eq!(region.address_of_page(1), base + 4096);
    assert_eq!(region.node_of_page(0), Some(0));
    assert_eq!(region.node_of_page(1), Some(1));
}
