//! A region: the record of a fully-acquired run of huge pages at
//! deterministic addresses.

use vstd::prelude::*;

use crate::page::{Page, PageState};
use crate::planner::planned_address;

verus! {

/// A fully-populated region.  Its pages sit at consecutive planned
/// addresses starting at `base_address`; ordering is significant, since
/// pages are acquired in index order and released in reverse.
pub struct Region {
    pub base_address: u64,
    pub page_size: u64,
    pub requested_page_count: u64,
    pub pages: Vec<Page>,
}

impl Region {
    /// A well-formed region is all-or-nothing: exactly the requested
    /// number of pages, every one `Ready`, bound to some node, of the
    /// region's page size, at exactly its planned address.
    pub open spec fn wf(self) -> bool {
        &&& self.page_size > 0
        &&& self.pages@.len() == self.requested_page_count
        &&& forall|i: int|
            0 <= i < self.pages@.len() ==> {
                &&& (#[trigger] self.pages@[i]).virtual_address as int == planned_address(
                    self.base_address,
                    self.page_size,
                    i,
                )
                &&& self.pages@[i].size == self.page_size
                &&& self.pages@[i].state is Ready
                &&& self.pages@[i].numa_node is Some
            }
    }

    /// How many pages the region holds.
    pub fn page_count(&self) -> (r: usize)
        ensures
            r == self.pages@.len(),
    {
        self.pages.len()
    }

    /// The node the `index`-th page is bound to.
    pub fn node_of_page(&self, index: usize) -> (r: Option<u64>)
        requires
            index < self.pages@.len(),
        ensures
            r == self.pages@[index as int].numa_node,
    {
        self.pages[index].numa_node
    }

    /// The virtual address of the `index`-th page.
    pub fn address_of_page(&self, index: usize) -> (r: u64)
        requires
            index < self.pages@.len(),
        ensures
            r == self.pages@[index as int].virtual_address,
    {
        self.pages[index].virtual_address
    }
}

} // verus!
