//! A simulated operating-system backend for the allocation protocol.
//!
//! The coordinator's orchestration logic is written against this small
//! capability interface (map / bind / lock / touch / unmap) so it can be
//! exercised and verified without real huge-page hardware.  The backend
//! models exactly what the protocol observes: which addresses hold a
//! reservation, which node each reservation is bound to, whether it is
//! pinned, how many huge pages each node can back, and the
//! locked-memory limit.  Node capacities are static totals; how much of
//! a node is in use is derived from the current reservations, so
//! releasing a reservation gives its page back to its node.

use vstd::prelude::*;

use crate::errors::{
    ERR_ADDRESS_IN_USE, ERR_BAD_PIPELINE_ORDER, ERR_COMMIT_FAULT, ERR_LOCK_LIMIT,
    ERR_NO_NODE_CAPACITY, ERR_NOT_MAPPED,
};

verus! {

/// One virtual-address reservation the backend currently holds: where it
/// is, how large it is, the node its backing is restricted to once
/// bound, and whether it is pinned.
#[derive(Clone, Copy, PartialEq, Eq, Debug)]
pub struct SimMapping {
    pub address: u64,
    pub size: u64,
    pub node: Option<u64>,
    pub locked: bool,
}

/// How many of the reservations in `s` are bound to node `n`.
pub open spec fn count_bound(s: Seq<SimMapping>, n: u64) -> int
    decreases s.len(),
{
    if s.len() == 0 {
        0
    } else {
        count_bound(s.drop_last(), n) + if s.last().node == Some(n) {
            1int
        } else {
            0int
        }
    }
}

/// How many of the reservations in `s` are pinned.
pub open spec fn count_locked(s: Seq<SimMapping>) -> int
    decreases s.len(),
{
    if s.len() == 0 {
        0
    } else {
        count_locked(s.drop_last()) + if s.last().locked {
            1int
        } else {
            0int
        }
    }
}

/// Whether some reservation in `s` sits at `a`.
pub open spec fn has_addr(s: Seq<SimMapping>, a: u64) -> bool {
    exists|i: int| 0 <= i < s.len() && s[i].address == a
}

/// The index of the reservation at `a` (unique when addresses are
/// distinct).
pub open spec fn addr_index(s: Seq<SimMapping>, a: u64) -> int {
    choose|i: int| 0 <= i < s.len() && s[i].address == a
}

/// No two reservations share an address.
pub open spec fn distinct_addresses(s: Seq<SimMapping>) -> bool {
    forall|i: int, j: int|
        0 <= i < s.len() && 0 <= j < s.len() && s[i].address == s[j].address ==> i == j
}

pub proof fn lemma_addr_index_is(s: Seq<SimMapping>, a: u64, i: int)
    requires
        distinct_addresses(s),
        0 <= i < s.len(),
        s[i].address == a,
    ensures
        has_addr(s, a),
        addr_index(s, a) == i,
{
    assert(has_addr(s, a));
    let j = addr_index(s, a);
    assert(0 <= j < s.len() && s[j].address == a);
}

pub proof fn lemma_count_bound_push(s: Seq<SimMapping>, m: SimMapping, n: u64)
    ensures
        count_bound(s.push(m), n) == count_bound(s, n) + if m.node == Some(n) {
            1int
        } else {
            0int
        },
{
    assert(s.push(m).drop_last() =~= s);
    assert(s.push(m).last() == m);
}

pub proof fn lemma_count_locked_push(s: Seq<SimMapping>, m: SimMapping)
    ensures
        count_locked(s.push(m)) == count_locked(s) + if m.locked {
            1int
        } else {
            0int
        },
{
    assert(s.push(m).drop_last() =~= s);
    assert(s.push(m).last() == m);
}

proof fn lemma_count_bound_take_step(s: Seq<SimMapping>, n: u64, i: int)
    requires
        0 <= i < s.len(),
    ensures
        count_bound(s.take(i + 1), n) == count_bound(s.take(i), n) + if s[i].node == Some(n) {
            1int
        } else {
            0int
        },
{
    assert(s.take(i + 1).drop_last() =~= s.take(i));
    assert(s.take(i + 1).last() == s[i]);
}

proof fn lemma_count_locked_take_step(s: Seq<SimMapping>, i: int)
    requires
        0 <= i < s.len(),
    ensures
        count_locked(s.take(i + 1)) == count_locked(s.take(i)) + if s[i].locked {
            1int
        } else {
            0int
        },
{
    assert(s.take(i + 1).drop_last() =~= s.take(i));
    assert(s.take(i + 1).last() == s[i]);
}

/// The simulated backend.  `node_capacity[n]` is the total number of
/// huge pages node `n` can ever back at once; `lock_limit` is the
/// largest number of reservations that may be pinned at the same time;
/// `commit_fault` injects the commit-phase anomaly in which a touch
/// faults although binding and locking were reported successful.
pub struct SimOs {
    pub mappings: Vec<SimMapping>,
    pub node_capacity: Vec<u64>,
    pub lock_limit: u64,
    pub commit_fault: bool,
}

impl SimOs {
    /// Well-formed backend: one capacity entry per possible node, and no
    /// two reservations at the same address.
    pub open spec fn wf(self) -> bool {
        &&& self.node_capacity@.len() == 64
        &&& distinct_addresses(self.mappings@)
    }

    /// A fresh backend: nothing mapped, every node able to back
    /// `pages_per_node` pages, an effectively unbounded pin limit, and
    /// no commit anomaly.
    pub fn new(pages_per_node: u64) -> (r: SimOs)
        ensures
            r.wf(),
            r.mappings@.len() == 0,
            r.node_capacity@.len() == 64,
            forall|n: int| 0 <= n < 64 ==> r.node_capacity@[n] == pages_per_node,
            r.lock_limit == u64::MAX,
            !r.commit_fault,
    {
        let mut capacity: Vec<u64> = Vec::new();
        let mut i: usize = 0;
        while i < 64
            invariant
                i <= 64,
                capacity@.len() == i,
                forall|n: int| 0 <= n < i ==> capacity@[n] == pages_per_node,
            decreases 64 - i,
        {
            capacity.push(pages_per_node);
            i = i + 1;
        }
        SimOs { mappings: Vec::new(), node_capacity: capacity, lock_limit: u64::MAX, commit_fault: false }
    }

    /// Sets how many huge pages node `node` can back at once.
    pub fn set_node_capacity(&mut self, node: u64, pages: u64)
        requires
            old(self).wf(),
            node < 64,
        ensures
            final(self).wf(),
            final(self).node_capacity@ == old(self).node_capacity@.update(node as int, pages),
            final(self).mappings@ == old(self).mappings@,
            final(self).lock_limit == old(self).lock_limit,
            final(self).commit_fault == old(self).commit_fault,
    {
        self.node_capacity[node as usize] = pages;
    }

    /// Sets the largest number of reservations that may be pinned at
    /// the same time.
    pub fn set_lock_limit(&mut self, limit: u64)
        requires
            old(self).wf(),
        ensures
            final(self).wf(),
            final(self).lock_limit == limit,
            final(self).mappings@ == old(self).mappings@,
            final(self).node_capacity@ == old(self).node_capacity@,
            final(self).commit_fault == old(self).commit_fault,
    {
        self.lock_limit = limit;
    }

    /// Arms or disarms the commit-phase anomaly.
    pub fn set_commit_fault(&mut self, fault: bool)
        requires
            old(self).wf(),
        ensures
            final(self).wf(),
            final(self).commit_fault == fault,
            final(self).mappings@ == old(self).mappings@,
            final(self).node_capacity@ == old(self).node_capacity@,
            final(self).lock_limit == old(self).lock_limit,
    {
        self.commit_fault = fault;
    }

    /// Whether an address currently holds a reservation.
    pub fn is_mapped(&self, address: u64) -> (r: bool)
        ensures
            r == has_addr(self.mappings@, address),
    {
        self.find_address(address).is_some()
    }

    /// How many reservations the backend currently holds.
    pub fn mapped_count(&self) -> (r: usize)
        ensures
            r == self.mappings@.len(),
    {
        self.mappings.len()
    }

    fn find_address(&self, address: u64) -> (r: Option<usize>)
        ensures
            r is Some <==> has_addr(self.mappings@, address),
            r matches Some(i) ==> i < self.mappings@.len() && self.mappings@[i as int].address
                == address,
    {
        let n = self.mappings.len();
        let mut i: usize = 0;
        while i < n
            invariant
                i <= n,
                n == self.mappings@.len(),
                forall|j: int| 0 <= j < i ==> self.mappings@[j].address != address,
            decreases n - i,
        {
            if self.mappings[i].address == address {
                return Some(i);
            }
            i = i + 1;
        }
        None
    }

    fn bound_page_count(&self, node: u64) -> (r: u64)
        ensures
            r == count_bound(self.mappings@, node),
    {
        let n = self.mappings.len();
        let mut acc: u64 = 0;
        let mut i: usize = 0;
        while i < n
            invariant
                i <= n,
                n == self.mappings@.len(),
                acc <= i,
                acc == count_bound(self.mappings@.take(i as int), node),
            decreases n - i,
        {
            proof {
                lemma_count_bound_take_step(self.mappings@, node, i as int);
            }
            let m = self.mappings[i];
            if m.node == Some(node) {
                acc = acc + 1;
            }
            i = i + 1;
        }
        proof {
            assert(self.mappings@.take(n as int) =~= self.mappings@);
        }
        acc
    }

    /// Reserves a huge-page-backed, private, anonymous range at exactly
    /// `address`.  The address is a stated invariant of the protocol,
    /// not a best-effort hint: a colliding reservation fails the call
    /// and changes nothing.  No physical backing exists yet.
    pub fn map(&mut self, address: u64, size: u64) -> (r: Result<(), u64>)
        requires
            old(self).wf(),
        ensures
            final(self).wf(),
            final(self).node_capacity@ == old(self).node_capacity@,
            final(self).lock_limit == old(self).lock_limit,
            final(self).commit_fault == old(self).commit_fault,
            r is Ok <==> !has_addr(old(self).mappings@, address),
            r is Ok ==> final(self).mappings@ == old(self).mappings@.push(
                SimMapping { address, size, node: None, locked: false },
            ),
            r is Err ==> final(self).mappings@ == old(self).mappings@ && r == Err::<(), u64>(
                ERR_ADDRESS_IN_USE,
            ),
    {
        if self.find_address(address).is_some() {
            return Err(ERR_ADDRESS_IN_USE);
        }
        let ghost s = self.mappings@;
        self.mappings.push(SimMapping { address, size, node: None, locked: false });
        proof {
            let t = self.mappings@;
            assert forall|i: int, j: int|
                0 <= i < t.len() && 0 <= j < t.len() && t[i].address == t[j].address implies i
                == j by {
                if i < s.len() && j == s.len() {
                    assert(s[i].address == address);
                    assert(has_addr(s, address));
                } else if j < s.len() && i == s.len() {
                    assert(s[j].address == address);
                    assert(has_addr(s, address));
                }
            }
        }
        Ok(())
    }

    /// Restricts future physical faults of the reservation at `address`
    /// to node `node`, strictly: when the node cannot back one more
    /// page the call fails rather than falling back elsewhere, and the
    /// reservation stays merely mapped.
    pub fn bind(&mut self, address: u64, node: u64) -> (r: Result<(), u64>)
        requires
            old(self).wf(),
            node < 64,
        ensures
            final(self).wf(),
            final(self).node_capacity@ == old(self).node_capacity@,
            final(self).lock_limit == old(self).lock_limit,
            final(self).commit_fault == old(self).commit_fault,
            r is Ok <==> has_addr(old(self).mappings@, address) && old(self).mappings@[addr_index(
                old(self).mappings@,
                address,
            )].node is None && count_bound(old(self).mappings@, node) < old(
                self,
            ).node_capacity@[node as int],
            r is Ok ==> final(self).mappings@ == old(self).mappings@.update(
                addr_index(old(self).mappings@, address),
                (SimMapping {
                    node: Some(node),
                    ..old(self).mappings@[addr_index(old(self).mappings@, address)]
                }),
            ),
            r is Err ==> final(self).mappings@ == old(self).mappings@,
            r is Err ==> r == Err::<(), u64>(
                if !has_addr(old(self).mappings@, address) {
                    ERR_NOT_MAPPED
                } else if !(old(self).mappings@[addr_index(old(self).mappings@, address)].node
                    is None) {
                    ERR_BAD_PIPELINE_ORDER
                } else {
                    ERR_NO_NODE_CAPACITY
                },
            ),
    {
        let idx = match self.find_address(address) {
            None => {
                return Err(ERR_NOT_MAPPED);
            },
            Some(i) => i,
        };
        proof {
            lemma_addr_index_is(self.mappings@, address, idx as int);
        }
        let m = self.mappings[idx];
        if m.node.is_some() {
            return Err(ERR_BAD_PIPELINE_ORDER);
        }
        if self.bound_page_count(node) >= self.node_capacity[node as usize] {
            return Err(ERR_NO_NODE_CAPACITY);
        }
        let ghost s = self.mappings@;
        self.mappings[idx] = SimMapping { node: Some(node), ..m };
        proof {
            let t = self.mappings@;
            assert forall|i: int, j: int|
                0 <= i < t.len() && 0 <= j < t.len() && t[i].address == t[j].address implies i
                == j by {
                assert(t[i].address == s[i].address);
                assert(t[j].address == s[j].address);
            }
        }
        Ok(())
    }

    /// Pins the bound reservation at `address` so its physical backing
    /// cannot be swapped out; fails once the locked-memory limit is
    /// reached, leaving the reservation bound but unpinned.
    pub fn lock(&mut self, address: u64) -> (r: Result<(), u64>)
        requires
            old(self).wf(),
        ensures
            final(self).wf(),
            final(self).node_capacity@ == old(self).node_capacity@,
            final(self).lock_limit == old(self).lock_limit,
            final(self).commit_fault == old(self).commit_fault,
            r is Ok <==> has_addr(old(self).mappings@, address) && old(self).mappings@[addr_index(
                old(self).mappings@,
                address,
            )].node is Some && !old(self).mappings@[addr_index(old(self).mappings@, address)].locked
                && count_locked(old(self).mappings@) < old(self).lock_limit,
            r is Ok ==> final(self).mappings@ == old(self).mappings@.update(
                addr_index(old(self).mappings@, address),
                (SimMapping {
                    locked: true,
                    ..old(self).mappings@[addr_index(old(self).mappings@, address)]
                }),
            ),
            r is Err ==> final(self).mappings@ == old(self).mappings@,
            r is Err ==> r == Err::<(), u64>(
                if !has_addr(old(self).mappings@, address) {
                    ERR_NOT_MAPPED
                } else if !(old(self).mappings@[addr_index(old(self).mappings@, address)].node
                    is Some) || old(self).mappings@[addr_index(old(self).mappings@, address)].locked {
                    ERR_BAD_PIPELINE_ORDER
                } else {
                    ERR_LOCK_LIMIT
                },
            ),
    {
        let idx = match self.find_address(address) {
            None => {
                return Err(ERR_NOT_MAPPED);
            },
            Some(i) => i,
        };
        proof {
            lemma_addr_index_is(self.mappings@, address, idx as int);
        }
        let m = self.mappings[idx];
        if m.node.is_none() || m.locked {
            return Err(ERR_BAD_PIPELINE_ORDER);
        }
        if self.locked_page_count() >= self.lock_limit {
            return Err(ERR_LOCK_LIMIT);
        }
        let ghost s = self.mappings@;
        self.mappings[idx] = SimMapping { locked: true, ..m };
        proof {
            let t = self.mappings@;
            assert forall|i: int, j: int|
                0 <= i < t.len() && 0 <= j < t.len() && t[i].address == t[j].address implies i
                == j by {
                assert(t[i].address == s[i].address);
                assert(t[j].address == s[j].address);
            }
        }
        Ok(())
    }

    /// Touches the pinned reservation at `address` (the single write
    /// that materializes physical backing under the policy already
    /// applied).  It faults only when the commit anomaly is armed, or
    /// when the pipeline order was violated.
    pub fn touch(&self, address: u64) -> (r: Result<(), u64>)
        requires
            self.wf(),
        ensures
            r is Ok <==> has_addr(self.mappings@, address) && self.mappings@[addr_index(
                self.mappings@,
                address,
            )].locked && !self.commit_fault,
            r is Err ==> r == Err::<(), u64>(
                if !has_addr(self.mappings@, address) {
                    ERR_NOT_MAPPED
                } else if !self.mappings@[addr_index(self.mappings@, address)].locked {
                    ERR_BAD_PIPELINE_ORDER
                } else {
                    ERR_COMMIT_FAULT
                },
            ),
    {
        let idx = match self.find_address(address) {
            None => {
                return Err(ERR_NOT_MAPPED);
            },
            Some(i) => i,
        };
        proof {
            lemma_addr_index_is(self.mappings@, address, idx as int);
        }
        let m = self.mappings[idx];
        if !m.locked {
            return Err(ERR_BAD_PIPELINE_ORDER);
        }
        if self.commit_fault {
            return Err(ERR_COMMIT_FAULT);
        }
        Ok(())
    }

    /// Releases the reservation at `address`, giving any bound huge
    /// page back to its node and dropping any pin.
    pub fn unmap(&mut self, address: u64) -> (r: Result<(), u64>)
        requires
            old(self).wf(),
        ensures
            final(self).wf(),
            final(self).node_capacity@ == old(self).node_capacity@,
            final(self).lock_limit == old(self).lock_limit,
            final(self).commit_fault == old(self).commit_fault,
            r is Ok <==> has_addr(old(self).mappings@, address),
            r is Ok ==> final(self).mappings@ == old(self).mappings@.remove(
                addr_index(old(self).mappings@, address),
            ),
            r is Err ==> final(self).mappings@ == old(self).mappings@ && r == Err::<(), u64>(
                ERR_NOT_MAPPED,
            ),
    {
        let idx = match self.find_address(address) {
            None => {
                return Err(ERR_NOT_MAPPED);
            },
            Some(i) => i,
        };
        proof {
            lemma_addr_index_is(self.mappings@, address, idx as int);
        }
        let ghost s = self.mappings@;
        self.mappings.remove(idx);
        proof {
            let t = self.mappings@;
            assert forall|i: int, j: int|
                0 <= i < t.len() && 0 <= j < t.len() && t[i].address == t[j].address implies i
                == j by {
                let oi: int = if i < idx { i } else { i + 1 };
                let oj: int = if j < idx { j } else { j + 1 };
                assert(t[i] == s[oi]);
                assert(t[j] == s[oj]);
            }
        }
        Ok(())
    }

    fn locked_page_count(&self) -> (r: u64)
        ensures
            r == count_locked(self.mappings@),
    {
        let n = self.mappings.len();
        let mut acc: u64 = 0;
        let mut i: usize = 0;
        while i < n
            invariant
                i <= n,
                n == self.mappings@.len(),
                acc <= i,
                acc == count_locked(self.mappings@.take(i as int)),
            decreases n - i,
        {
            proof {
                lemma_count_locked_take_step(self.mappings@, i as int);
            }
            if self.mappings[i].locked {
                acc = acc + 1;
            }
            i = i + 1;
        }
        proof {
            assert(self.mappings@.take(n as int) =~= self.mappings@);
        }
        acc
    }
}

} // verus!
