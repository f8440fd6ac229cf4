//! The fallback coordinator: drives every page of a region through the
//! acquisition pipeline, preferring one NUMA node and falling back to a
//! second once the preferred node is exhausted, with all-or-nothing
//! rollback when the full count cannot be satisfied.

use vstd::prelude::*;

use crate::errors::{
    PageFault, RegionError, StepFault, ERR_COMMIT_FAULT, ERR_NO_NODE_CAPACITY,
};
use crate::page::{NumaNode, Page, PageState};
use crate::planner::{address_for, lemma_planned_bounds, lemma_planned_strictly_increasing, planned_address};
use crate::region::Region;
use crate::sim::{
    count_bound, count_locked, has_addr, lemma_addr_index_is, lemma_count_bound_push,
    lemma_count_locked_push, SimMapping, SimOs,
};
use vstd::arithmetic::div_mod::lemma_fundamental_div_mod;

verus! {

/// A request is valid when the total is a positive-page-size multiple
/// of the page size; anything else is rejected before any system call.
pub open spec fn valid_config(total_size: u64, page_size: u64) -> bool {
    page_size > 0 && total_size as int % page_size as int == 0
}

/// How many pages a valid request asks for.
pub open spec fn page_count_of(total_size: u64, page_size: u64) -> int {
    total_size as int / page_size as int
}

/// How many further pages `node` can still back: its capacity minus the
/// reservations already bound to it.
pub open spec fn free_pages(os: SimOs, node: u64) -> int {
    let a = os.node_capacity@[node as int] - count_bound(os.mappings@, node);
    if a < 0 {
        0
    } else {
        a
    }
}

/// A request that only node capacity can make fail: every planned
/// address is free, the pin limit leaves room for the whole region, and
/// the commit anomaly is not armed.
pub open spec fn undisturbed(os: SimOs, total_size: u64, page_size: u64, base: u64) -> bool {
    &&& forall|j: int|
        0 <= j < page_count_of(total_size, page_size) ==> !has_addr(
            os.mappings@,
            planned_address(base, page_size, j) as u64,
        )
    &&& count_locked(os.mappings@) + page_count_of(total_size, page_size) <= os.lock_limit
    &&& !os.commit_fault
}

/// The `i`-th page of a region based at `base`, ready and bound to
/// `node`.
pub open spec fn ready_page(base: u64, page_size: u64, i: int, node: u64) -> Page {
    Page {
        virtual_address: planned_address(base, page_size, i) as u64,
        size: page_size,
        numa_node: Some(node),
        state: PageState::Ready,
    }
}

/// The backend reservation that backs one ready page.
pub open spec fn reservation_of(p: Page) -> SimMapping {
    SimMapping { address: p.virtual_address, size: p.size, node: p.numa_node, locked: true }
}

/// The backend reservations that back a run of ready pages, in
/// acquisition order.
pub open spec fn reservations_of(pages: Seq<Page>) -> Seq<SimMapping> {
    pages.map_values(|p: Page| reservation_of(p))
}

/// Pages `0 .. k` are bound to `preferred` and pages `k ..` to
/// `fallback`: the split a partially-exhausted preferred node leaves.
pub open spec fn node_split(pages: Seq<Page>, k: int, preferred: u64, fallback: u64) -> bool {
    &&& forall|i: int| 0 <= i < k ==> (#[trigger] pages[i]).numa_node == Some(preferred)
    &&& forall|i: int| k <= i < pages.len() ==> (#[trigger] pages[i]).numa_node == Some(fallback)
}

/// The lesser of the page count and what the preferred node can back:
/// where the node split of a successful allocation falls.
pub open spec fn preferred_share(pc: int, fp: int) -> int {
    if fp < pc {
        fp
    } else {
        pc
    }
}

/// Drives one page through the full pipeline against `node`:
/// map, bind, lock, touch.  On success the backend holds one more
/// pinned, bound reservation and the page comes back `Ready`.  On any
/// failure the page's own reservation is released before returning, so
/// the backend is exactly as it was; the fault says which step refused
/// and why, and the success condition is exact: the pipeline goes
/// through if and only if the address is free, the node can back one
/// more page, the pin limit leaves room, and the commit anomaly is not
/// armed.
fn acquire_page(os: &mut SimOs, address: u64, size: u64, node: NumaNode) -> (r: Result<
    Page,
    StepFault,
>)
    requires
        old(os).wf(),
        node.wf(),
    ensures
        final(os).wf(),
        final(os).node_capacity@ == old(os).node_capacity@,
        final(os).lock_limit == old(os).lock_limit,
        final(os).commit_fault == old(os).commit_fault,
        r is Ok <==> !has_addr(old(os).mappings@, address) && count_bound(
            old(os).mappings@,
            node.id,
        ) < old(os).node_capacity@[node.id as int] && count_locked(old(os).mappings@) < old(
            os,
        ).lock_limit && !old(os).commit_fault,
        r matches Ok(p) ==> p == (Page {
            virtual_address: address,
            size,
            numa_node: Some(node.id),
            state: PageState::Ready,
        }) && final(os).mappings@ == old(os).mappings@.push(
            SimMapping { address, size, node: Some(node.id), locked: true },
        ),
        r is Err ==> final(os).mappings@ == old(os).mappings@,
        r matches Err(f) ==> f == if has_addr(old(os).mappings@, address) {
            StepFault::MapFailed { os_error: crate::errors::ERR_ADDRESS_IN_USE }
        } else if count_bound(old(os).mappings@, node.id) >= old(os).node_capacity@[node.id as int] {
            StepFault::BindFailed { os_error: ERR_NO_NODE_CAPACITY }
        } else if count_locked(old(os).mappings@) >= old(os).lock_limit {
            StepFault::LockFailed { os_error: crate::errors::ERR_LOCK_LIMIT }
        } else {
            StepFault::Fatal { os_error: ERR_COMMIT_FAULT }
        },
{
    let ghost s0 = old(os).mappings@;
    let page = Page::planned(address, size);
    match os.map(address, size) {
        Err(e) => {
            return Err(StepFault::MapFailed { os_error: e });
        },
        Ok(()) => {},
    }
    let page = page.mark_mapped();
    let ghost m0 = SimMapping { address, size, node: None, locked: false };
    proof {
        assert(os.mappings@ == s0.push(m0));
        lemma_addr_index_is(os.mappings@, address, s0.len() as int);
        lemma_count_bound_push(s0, m0, node.id);
        lemma_count_locked_push(s0, m0);
    }
    match os.bind(address, node.id) {
        Err(e) => {
            let _ = os.unmap(address);
            proof {
                assert(os.mappings@ =~= s0);
            }
            return Err(StepFault::BindFailed { os_error: e });
        },
        Ok(()) => {},
    }
    let page = page.mark_bound(node);
    let ghost m1 = SimMapping { address, size, node: Some(node.id), locked: false };
    proof {
        assert(os.mappings@ =~= s0.push(m1));
        lemma_addr_index_is(os.mappings@, address, s0.len() as int);
        lemma_count_bound_push(s0, m1, node.id);
        lemma_count_locked_push(s0, m1);
    }
    match os.lock(address) {
        Err(e) => {
            let _ = os.unmap(address);
            proof {
                assert(os.mappings@ =~= s0);
            }
            return Err(StepFault::LockFailed { os_error: e });
        },
        Ok(()) => {},
    }
    let page = page.mark_locked();
    let ghost m2 = SimMapping { address, size, node: Some(node.id), locked: true };
    proof {
        assert(os.mappings@ =~= s0.push(m2));
        lemma_addr_index_is(os.mappings@, address, s0.len() as int);
    }
    match os.touch(address) {
        Err(e) => {
            let _ = os.unmap(address);
            proof {
                assert(os.mappings@ =~= s0);
            }
            return Err(StepFault::Fatal { os_error: e });
        },
        Ok(()) => {},
    }
    Ok(page.mark_ready())
}

/// Acquires a full region of `total_size / page_size` huge pages at the
/// deterministic addresses planned from `base_virtual_address`,
/// preferring `preferred_node_id` and falling back to
/// `fallback_node_id` for any pages the preferred node cannot back.
///
/// The region is all-or-nothing: on success the caller gets exactly the
/// requested count of `Ready` pages, each at its planned address; on
/// any failure every transiently acquired page is released, the backend
/// is left exactly as it was, and the error says how far the attempt
/// got.  A request whose total is not a positive multiple of the page
/// size is rejected before any backend call.  On an undisturbed backend
/// the outcome is determined by node capacity alone: the allocation
/// succeeds if and only if the two nodes together can back the full
/// count (the preferred node alone, when the two are the same node),
/// pages split between the nodes exactly where the preferred node runs
/// out, and otherwise the error reports exactly how many pages the two
/// nodes could back.
#[verifier::loop_isolation(false)]
#[verifier::rlimit(100)]
pub fn allocate_region(
    os: &mut SimOs,
    total_size: u64,
    page_size: u64,
    base_virtual_address: u64,
    preferred_node_id: u64,
    fallback_node_id: u64,
) -> (r: Result<Region, RegionError>)
    requires
        old(os).wf(),
        preferred_node_id < 64,
        fallback_node_id < 64,
        base_virtual_address + total_size <= u64::MAX,
    ensures
        final(os).wf(),
        final(os).node_capacity@ == old(os).node_capacity@,
        final(os).lock_limit == old(os).lock_limit,
        final(os).commit_fault == old(os).commit_fault,
        (r matches Err(e) && e is Config) <==> !valid_config(total_size, page_size),
        !valid_config(total_size, page_size) ==> *final(os) == *old(os) && r == Err::<
            Region,
            RegionError,
        >(RegionError::Config { total_size, page_size }),
        r matches Ok(region) ==> {
            &&& region.wf()
            &&& region.base_address == base_virtual_address
            &&& region.page_size == page_size
            &&& region.requested_page_count == page_count_of(total_size, page_size)
            &&& final(os).mappings@ == old(os).mappings@ + reservations_of(region.pages@)
            &&& exists|k: int|
                0 <= k <= region.pages@.len() && #[trigger] node_split(
                    region.pages@,
                    k,
                    preferred_node_id,
                    fallback_node_id,
                )
        },
        r is Err ==> final(os).mappings@ == old(os).mappings@,
        r matches Err(RegionError::Fatal { os_error, .. }) ==> old(os).commit_fault && os_error
            == ERR_COMMIT_FAULT,
        valid_config(total_size, page_size) && undisturbed(
            *old(os),
            total_size,
            page_size,
            base_virtual_address,
        ) && preferred_node_id != fallback_node_id ==> {
            let pc = page_count_of(total_size, page_size);
            let fp = free_pages(*old(os), preferred_node_id);
            let ff = free_pages(*old(os), fallback_node_id);
            &&& (r is Ok <==> fp + ff >= pc)
            &&& (r matches Ok(region) ==> node_split(
                region.pages@,
                preferred_share(pc, fp),
                preferred_node_id,
                fallback_node_id,
            ))
            &&& (r matches Err(e) ==> e == (RegionError::Allocation {
                pages_acquired: (preferred_share(pc, fp) + ff) as u64,
                last_error: PageFault::BindFailed {
                    page_index: (preferred_share(pc, fp) + ff) as u64,
                    node: fallback_node_id,
                    os_error: ERR_NO_NODE_CAPACITY,
                },
            }))
        },
        valid_config(total_size, page_size) && undisturbed(
            *old(os),
            total_size,
            page_size,
            base_virtual_address,
        ) && preferred_node_id == fallback_node_id ==> {
            let pc = page_count_of(total_size, page_size);
            let fp = free_pages(*old(os), preferred_node_id);
            &&& (r is Ok <==> fp >= pc)
            &&& (r matches Err(e) ==> e == (RegionError::Allocation {
                pages_acquired: fp as u64,
                last_error: PageFault::BindFailed {
                    page_index: fp as u64,
                    node: fallback_node_id,
                    os_error: ERR_NO_NODE_CAPACITY,
                },
            }))
        },
{
    if page_size == 0 || total_size % page_size != 0 {
        return Err(RegionError::Config { total_size, page_size });
    }
    let page_count: u64 = total_size / page_size;
    let ghost pre = *old(os);
    let ghost pc = page_count as int;
    let ghost fp0 = free_pages(pre, preferred_node_id);
    let ghost ff0 = free_pages(pre, fallback_node_id);
    let ghost undis = undisturbed(pre, total_size, page_size, base_virtual_address);
    proof {
        lemma_fundamental_div_mod(total_size as int, page_size as int);
        assert(total_size as int % page_size as int == 0);
        assert(total_size == page_size * pc);
        assert(pc * page_size == total_size);
    }

    let preferred = NumaNode { id: preferred_node_id, node_mask: 1u64 << preferred_node_id };
    let fallback = NumaNode { id: fallback_node_id, node_mask: 1u64 << fallback_node_id };

    let mut pages: Vec<Page> = Vec::new();
    let mut index: u64 = 0;
    let mut halted: bool = false;

    // Preferred pass: fill from index 0 until the preferred node (or
    // anything else) refuses a page.
    while index < page_count && !halted
        invariant
            index <= page_count,
            pages@.len() == index as int,
            os.wf(),
            os.node_capacity@ == pre.node_capacity@,
            os.lock_limit == pre.lock_limit,
            os.commit_fault == pre.commit_fault,
            forall|i: int|
                0 <= i < index as int ==> pages@[i] == ready_page(
                    base_virtual_address,
                    page_size,
                    i,
                    preferred_node_id,
                ),
            os.mappings@ == pre.mappings@ + reservations_of(pages@),
            count_bound(os.mappings@, preferred_node_id) == count_bound(
                pre.mappings@,
                preferred_node_id,
            ) + index,
            preferred_node_id != fallback_node_id ==> count_bound(os.mappings@, fallback_node_id)
                == count_bound(pre.mappings@, fallback_node_id),
            count_locked(os.mappings@) == count_locked(pre.mappings@) + index,
            undis ==> (forall|j: int|
                index as int <= j < pc ==> !has_addr(
                    os.mappings@,
                    planned_address(base_virtual_address, page_size, j) as u64,
                )),
            undis ==> index as int <= fp0,
            halted ==> (undis ==> index as int == fp0 && fp0 < pc),
        decreases page_count - index, (if halted { 0int } else { 1int }),
    {
        proof {
            lemma_planned_bounds(base_virtual_address, page_size, index as int, pc);
        }
        let addr = address_for(base_virtual_address, page_size, index);
        let ghost cur = os.mappings@;
        match acquire_page(os, addr, page_size, preferred) {
            Ok(p) => {
                let ghost resv = SimMapping {
                    address: addr,
                    size: page_size,
                    node: Some(preferred_node_id),
                    locked: true,
                };
                pages.push(p);
                proof {
                    assert(reservations_of(pages@) =~= reservations_of(pages@.drop_last()).push(
                        resv,
                    ));
                    assert(os.mappings@ =~= pre.mappings@ + reservations_of(pages@));
                    lemma_count_bound_push(cur, resv, preferred_node_id);
                    if preferred_node_id != fallback_node_id {
                        lemma_count_bound_push(cur, resv, fallback_node_id);
                    }
                    lemma_count_locked_push(cur, resv);
                    if undis {
                        assert forall|j: int|
                            index as int + 1 <= j < pc implies !has_addr(
                            os.mappings@,
                            planned_address(base_virtual_address, page_size, j) as u64,
                        ) by {
                            let a = planned_address(base_virtual_address, page_size, j) as u64;
                            lemma_planned_bounds(base_virtual_address, page_size, j, pc);
                            lemma_planned_strictly_increasing(
                                base_virtual_address,
                                page_size,
                                index as int,
                                j,
                            );
                            if has_addr(os.mappings@, a) {
                                let i = choose|i: int|
                                    0 <= i < os.mappings@.len() && os.mappings@[i].address == a;
                                if i < cur.len() {
                                    assert(has_addr(cur, a));
                                } else {
                                    assert(os.mappings@[i] == resv);
                                }
                            }
                        }
                    }
                }
                index = index + 1;
            },
            Err(f) => {
                match f {
                    StepFault::Fatal { os_error } => {
                        proof {
                            assert(os.mappings@.skip(pre.mappings@.len() as int)
                                =~= reservations_of(pages@));
                        }
                        release_all(os, &mut pages);
                        proof {
                            assert(os.mappings@ =~= pre.mappings@);
                        }
                        return Err(
                            RegionError::Fatal {
                                page_index: index,
                                node: preferred_node_id,
                                os_error,
                            },
                        );
                    },
                    _ => {
                        halted = true;
                    },
                }
            },
        }
    }

    let ghost k = index as int;

    // Fallback pass: resume at the first unacquired index against the
    // fallback node, through to the full count.
    while index < page_count
        invariant
            k <= index as int <= pc,
            pages@.len() == index as int,
            os.wf(),
            os.node_capacity@ == pre.node_capacity@,
            os.lock_limit == pre.lock_limit,
            os.commit_fault == pre.commit_fault,
            forall|i: int|
                0 <= i < k ==> pages@[i] == ready_page(
                    base_virtual_address,
                    page_size,
                    i,
                    preferred_node_id,
                ),
            forall|i: int|
                k <= i < index as int ==> pages@[i] == ready_page(
                    base_virtual_address,
                    page_size,
                    i,
                    fallback_node_id,
                ),
            os.mappings@ == pre.mappings@ + reservations_of(pages@),
            preferred_node_id != fallback_node_id ==> count_bound(os.mappings@, fallback_node_id)
                == count_bound(pre.mappings@, fallback_node_id) + (index as int - k),
            preferred_node_id == fallback_node_id ==> count_bound(os.mappings@, fallback_node_id)
                == count_bound(pre.mappings@, fallback_node_id) + index,
            count_locked(os.mappings@) == count_locked(pre.mappings@) + index,
            undis ==> (forall|j: int|
                index as int <= j < pc ==> !has_addr(
                    os.mappings@,
                    planned_address(base_virtual_address, page_size, j) as u64,
                )),
            undis ==> k <= fp0,
            undis && k < pc ==> k == fp0 && fp0 < pc,
            undis && preferred_node_id != fallback_node_id ==> index as int - k <= ff0,
            undis && preferred_node_id == fallback_node_id ==> index as int <= fp0,
        decreases page_count - index,
    {
        proof {
            lemma_planned_bounds(base_virtual_address, page_size, index as int, pc);
        }
        let addr = address_for(base_virtual_address, page_size, index);
        let ghost cur = os.mappings@;
        match acquire_page(os, addr, page_size, fallback) {
            Ok(p) => {
                let ghost resv = SimMapping {
                    address: addr,
                    size: page_size,
                    node: Some(fallback_node_id),
                    locked: true,
                };
                pages.push(p);
                proof {
                    assert(reservations_of(pages@) =~= reservations_of(pages@.drop_last()).push(
                        resv,
                    ));
                    assert(os.mappings@ =~= pre.mappings@ + reservations_of(pages@));
                    lemma_count_bound_push(cur, resv, fallback_node_id);
                    lemma_count_locked_push(cur, resv);
                    if undis {
                        assert forall|j: int|
                            index as int + 1 <= j < pc implies !has_addr(
                            os.mappings@,
                            planned_address(base_virtual_address, page_size, j) as u64,
                        ) by {
                            let a = planned_address(base_virtual_address, page_size, j) as u64;
                            lemma_planned_bounds(base_virtual_address, page_size, j, pc);
                            lemma_planned_strictly_increasing(
                                base_virtual_address,
                                page_size,
                                index as int,
                                j,
                            );
                            if has_addr(os.mappings@, a) {
                                let i = choose|i: int|
                                    0 <= i < os.mappings@.len() && os.mappings@[i].address == a;
                                if i < cur.len() {
                                    assert(has_addr(cur, a));
                                } else {
                                    assert(os.mappings@[i] == resv);
                                }
                            }
                        }
                    }
                }
                index = index + 1;
            },
            Err(f) => {
                let terminal = match f {
                    StepFault::MapFailed { os_error } => PageFault::MapFailed {
                        page_index: index,
                        node: fallback_node_id,
                        os_error,
                    },
                    StepFault::BindFailed { os_error } => PageFault::BindFailed {
                        page_index: index,
                        node: fallback_node_id,
                        os_error,
                    },
                    StepFault::LockFailed { os_error } => PageFault::LockFailed {
                        page_index: index,
                        node: fallback_node_id,
                        os_error,
                    },
                    StepFault::Fatal { os_error } => {
                        proof {
                            assert(os.mappings@.skip(pre.mappings@.len() as int)
                                =~= reservations_of(pages@));
                        }
                        release_all(os, &mut pages);
                        proof {
                            assert(os.mappings@ =~= pre.mappings@);
                        }
                        return Err(
                            RegionError::Fatal {
                                page_index: index,
                                node: fallback_node_id,
                                os_error,
                            },
                        );
                    },
                };
                proof {
                    assert(os.mappings@.skip(pre.mappings@.len() as int) =~= reservations_of(
                        pages@,
                    ));
                }
                let acquired = index;
                release_all(os, &mut pages);
                proof {
                    assert(os.mappings@ =~= pre.mappings@);
                }
                return Err(
                    RegionError::Allocation { pages_acquired: acquired, last_error: terminal },
                );
            },
        }
    }

    proof {
        assert forall|i: int| 0 <= i < pages@.len() implies {
            &&& (#[trigger] pages@[i]).virtual_address as int == planned_address(
                base_virtual_address,
                page_size,
                i,
            )
            &&& pages@[i].size == page_size
            &&& pages@[i].state is Ready
            &&& pages@[i].numa_node is Some
        } by {
            lemma_planned_bounds(base_virtual_address, page_size, i, pc);
        }
        assert(node_split(pages@, k, preferred_node_id, fallback_node_id));
    }
    let region = Region {
        base_address: base_virtual_address,
        page_size,
        requested_page_count: page_count,
        pages,
    };
    proof {
        assert(region.wf());
        assert(os.mappings@ == pre.mappings@ + reservations_of(region.pages@));
        assert(node_split(region.pages@, k, preferred_node_id, fallback_node_id));
        if undis {
            assert(pc <= fp0 + (if preferred_node_id != fallback_node_id {
                ff0
            } else {
                0int
            }));
            assert(node_split(
                region.pages@,
                preferred_share(pc, fp0),
                preferred_node_id,
                fallback_node_id,
            ));
        }
    }
    Ok(region)
}

/// Releases every page of a partially- or fully-acquired run, in
/// reverse order of acquisition, leaving the backend exactly as it was
/// before the run was acquired.
fn release_all(os: &mut SimOs, pages: &mut Vec<Page>)
    requires
        old(os).wf(),
        old(os).mappings@.len() >= old(pages)@.len(),
        old(os).mappings@.skip(old(os).mappings@.len() - old(pages)@.len() as int)
            == reservations_of(old(pages)@),
    ensures
        final(os).wf(),
        final(os).node_capacity@ == old(os).node_capacity@,
        final(os).lock_limit == old(os).lock_limit,
        final(os).commit_fault == old(os).commit_fault,
        final(os).mappings@ == old(os).mappings@.take(
            old(os).mappings@.len() - old(pages)@.len() as int,
        ),
        final(pages)@.len() == 0,
{
    let ghost m0 = old(os).mappings@;
    let ghost p0 = old(pages)@;
    let ghost keep = m0.len() - p0.len() as int;
    while pages.len() > 0
        invariant
            os.wf(),
            os.node_capacity@ == old(os).node_capacity@,
            os.lock_limit == old(os).lock_limit,
            os.commit_fault == old(os).commit_fault,
            pages@.len() <= p0.len(),
            pages@ == p0.take(pages@.len() as int),
            os.mappings@ == m0.take(keep + pages@.len()),
            m0.len() >= p0.len(),
            keep == m0.len() - p0.len() as int,
            m0.skip(keep) == reservations_of(p0),
        decreases pages@.len(),
    {
        let ghost cur = os.mappings@;
        let ghost n = pages@.len() as int;
        let p = match pages.pop() {
            Some(p) => p,
            None => {
                proof {
                    assert(false);
                }
                Page::planned(0, 0)
            },
        };
        proof {
            assert(p == p0[n - 1]);
            assert(cur.len() == keep + n);
            assert(cur[keep + n - 1] == m0[keep + n - 1]);
            assert(m0[keep + n - 1] == m0.skip(keep)[n - 1]);
            assert(reservations_of(p0)[n - 1] == reservation_of(p0[n - 1]));
            assert(cur[keep + n - 1] == reservation_of(p));
            assert(cur[keep + n - 1].address == p.virtual_address);
            lemma_addr_index_is(cur, p.virtual_address, keep + n - 1);
        }
        let _ = os.unmap(p.virtual_address);
        proof {
            assert(os.mappings@ =~= m0.take(keep + n - 1));
            assert(pages@ =~= p0.take(n - 1));
        }
    }
    proof {
        assert(os.mappings@ == m0.take(keep));
    }
}

/// Releases a region in reverse order of page acquisition.  The
/// backend's reservation list must end with exactly the region's
/// reservations (as it does after a successful allocation); afterwards
/// it holds exactly what it held before those were acquired, so nothing
/// of the region lingers.
pub fn release_region(os: &mut SimOs, region: Region)
    requires
        old(os).wf(),
        old(os).mappings@.len() >= region.pages@.len(),
        old(os).mappings@.skip(old(os).mappings@.len() - region.pages@.len() as int)
            == reservations_of(region.pages@),
    ensures
        final(os).wf(),
        final(os).node_capacity@ == old(os).node_capacity@,
        final(os).lock_limit == old(os).lock_limit,
        final(os).commit_fault == old(os).commit_fault,
        final(os).mappings@ == old(os).mappings@.take(
            old(os).mappings@.len() - region.pages@.len() as int,
        ),
{
    let mut pages = region.pages;
    release_all(os, &mut pages);
}

/// The pages of a well-formed region sit at strictly increasing
/// addresses spaced by exactly `page_size`, starting at the region
/// base: the address of every page can be recomputed from its index
/// alone.
pub proof fn lemma_region_addresses(region: Region)
    requires
        region.wf(),
        region.base_address + region.requested_page_count * region.page_size <= u64::MAX,
    ensures
        region.pages@.len() > 0 ==> region.pages@[0].virtual_address == region.base_address,
        forall|i: int|
            0 <= i < region.pages@.len() - 1 ==> (#[trigger] region.pages@[i
                + 1]).virtual_address == region.pages@[i].virtual_address + region.page_size,
{
    let ps = region.page_size;
    let base = region.base_address;
    let pc = region.requested_page_count as int;
    assert forall|i: int|
        0 <= i < region.pages@.len() - 1 implies (#[trigger] region.pages@[i
        + 1]).virtual_address == region.pages@[i].virtual_address + ps by {
        lemma_planned_bounds(base, ps, i, pc);
        lemma_planned_bounds(base, ps, i + 1, pc);
        assert((i + 1) * ps == i * ps + ps) by (nonlinear_arith);
    }
}

/// After a successful allocation (which appends the region's
/// reservations to whatever the backend already held), the backend's
/// reservation list ends with exactly the region's reservations — the
/// shape `release_region` asks for.
pub proof fn lemma_region_backing_is_last(os0: SimOs, os1: SimOs, region: Region)
    requires
        os1.mappings@ == os0.mappings@ + reservations_of(region.pages@),
    ensures
        os1.mappings@.len() >= region.pages@.len(),
        os1.mappings@.skip(os1.mappings@.len() - region.pages@.len() as int) == reservations_of(
            region.pages@,
        ),
{
    assert(os1.mappings@.skip(os0.mappings@.len() as int) =~= reservations_of(region.pages@));
}

/// Releasing a fully-allocated region restores the backend exactly:
/// re-invoking `allocate_region` with the same base address afterwards
/// runs against an observably identical backend — the same
/// reservations, capacities, pin limit and commit flag, hence the same
/// free pages per node and the same undisturbed-outcome guarantees — so
/// it must succeed (or fail) identically.  `os0` is the backend before
/// allocation, `os1` after a successful allocation of `region`, and
/// `os2` after `release_region(os1, region)`.
pub proof fn lemma_release_restores_backend(os0: SimOs, os1: SimOs, os2: SimOs, region: Region)
    requires
        os1.mappings@ == os0.mappings@ + reservations_of(region.pages@),
        os1.node_capacity@ == os0.node_capacity@,
        os1.lock_limit == os0.lock_limit,
        os1.commit_fault == os0.commit_fault,
        os2.mappings@ == os1.mappings@.take(os1.mappings@.len() - region.pages@.len() as int),
        os2.node_capacity@ == os1.node_capacity@,
        os2.lock_limit == os1.lock_limit,
        os2.commit_fault == os1.commit_fault,
    ensures
        os2.mappings@ == os0.mappings@,
        os2.node_capacity@ == os0.node_capacity@,
        os2.lock_limit == os0.lock_limit,
        os2.commit_fault == os0.commit_fault,
        forall|n: u64| #[trigger] free_pages(os2, n) == free_pages(os0, n),
        forall|ts: u64, ps: u64, b: u64| #[trigger]
            undisturbed(os2, ts, ps, b) == undisturbed(os0, ts, ps, b),
{
    assert(os1.mappings@.take(os1.mappings@.len() - region.pages@.len() as int)
        =~= os0.mappings@);
}

} // verus!
