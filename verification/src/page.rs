//! The per-page data model: NUMA node identifiers, the page state
//! machine, and the transitions of a single huge page through the
//! map / bind / lock / commit pipeline.

use vstd::prelude::*;

verus! {

/// Nodes are identified by an id in `0 .. 64`; the mask has exactly the
/// bit at position `id` set.
#[derive(Clone, Copy, Debug)]
pub struct NumaNode {
    pub id: u64,
    pub node_mask: u64,
}

impl NumaNode {
    /// A well-formed node: the mask is derived purely from the id.
    pub open spec fn wf(self) -> bool {
        &&& self.id < 64
        &&& self.node_mask == (1u64 << self.id)
    }

    /// Builds the node for `id`, or `None` when `id` is out of range.
    pub fn new(id: u64) -> (r: Option<NumaNode>)
        ensures
            r is Some <==> id < 64,
            r is Some ==> r->Some_0.wf() && r->Some_0.id == id,
    {
        if id < 64 {
            Some(NumaNode { id, node_mask: 1u64 << id })
        } else {
            None
        }
    }
}

/// The state machine of one page.  A page advances
/// `Unmapped -> Mapped -> Bound -> Locked -> Ready`; any state may fall
/// to `Failed`, from which the only valid action is release.
#[derive(Clone, Copy, PartialEq, Eq, Structural, Debug)]
pub enum PageState {
    Unmapped,
    Mapped,
    Bound,
    Locked,
    Ready,
    Failed,
}

/// One huge page: its planned virtual address, its size, the node its
/// physical backing is restricted to (once bound), and its pipeline
/// state.
pub struct Page {
    pub virtual_address: u64,
    pub size: u64,
    pub numa_node: Option<u64>,
    pub state: PageState,
}

impl Page {
    /// Creates the logical record of a page before any system call runs:
    /// its address is known even while it is still unmapped.
    pub fn planned(virtual_address: u64, size: u64) -> (r: Page)
        ensures
            r == (Page {
                virtual_address,
                size,
                numa_node: None::<u64>,
                state: PageState::Unmapped,
            }),
    {
        Page { virtual_address, size, numa_node: None, state: PageState::Unmapped }
    }

    /// A virtual-address range has been reserved for the page.
    pub fn mark_mapped(self) -> (r: Page)
        requires
            self.state is Unmapped,
        ensures
            r == (Page { state: PageState::Mapped, ..self }),
    {
        Page { state: PageState::Mapped, ..self }
    }

    /// The page's future physical backing has been restricted to `node`.
    pub fn mark_bound(self, node: NumaNode) -> (r: Page)
        requires
            self.state is Mapped,
            node.wf(),
        ensures
            r == (Page {
                numa_node: Some(node.id),
                state: PageState::Bound,
                ..self
            }),
    {
        Page { numa_node: Some(node.id), state: PageState::Bound, ..self }
    }

    /// The page's physical backing has been pinned against swapping.
    pub fn mark_locked(self) -> (r: Page)
        requires
            self.state is Bound,
        ensures
            r == (Page { state: PageState::Locked, ..self }),
    {
        Page { state: PageState::Locked, ..self }
    }

    /// The page has been touched, so physical backing is materialized
    /// under the policy already applied.
    pub fn mark_ready(self) -> (r: Page)
        requires
            self.state is Locked,
        ensures
            r == (Page { state: PageState::Ready, ..self }),
    {
        Page { state: PageState::Ready, ..self }
    }

    /// Any state may fall to `Failed`; the only action left is release.
    pub fn mark_failed(self) -> (r: Page)
        ensures
            r == (Page { state: PageState::Failed, ..self }),
    {
        Page { state: PageState::Failed, ..self }
    }
}

/// The system call a page in a given state needs next to advance toward
/// `Ready`, or `None` when the pipeline is finished for that page.
/// Drivers of a real operating system take their decisions from this
/// table rather than re-encoding the pipeline order.
#[derive(Clone, Copy, PartialEq, Eq, Structural, Debug)]
pub enum OsCall {
    MapRange,
    BindNode,
    LockRange,
    TouchWord,
}

/// The decision table of the pipeline: which call advances a page next.
pub fn next_call(state: PageState) -> (r: Option<OsCall>)
    ensures
        r == (match state {
            PageState::Unmapped => Some(OsCall::MapRange),
            PageState::Mapped => Some(OsCall::BindNode),
            PageState::Bound => Some(OsCall::LockRange),
            PageState::Locked => Some(OsCall::TouchWord),
            PageState::Ready => None::<OsCall>,
            PageState::Failed => None::<OsCall>,
        }),
{
    match state {
        PageState::Unmapped => Some(OsCall::MapRange),
        PageState::Mapped => Some(OsCall::BindNode),
        PageState::Bound => Some(OsCall::LockRange),
        PageState::Locked => Some(OsCall::TouchWord),
        PageState::Ready => None,
        PageState::Failed => None,
    }
}

/// Whether a page that failed in `state` still holds a virtual-address
/// reservation that cleanup must release.  A page fails in the state it
/// could not leave, so everything from `Mapped` on must be unmapped.
pub fn needs_unmap(state: PageState) -> (r: bool)
    ensures
        r == !(state is Unmapped),
{
    !matches!(state, PageState::Unmapped)
}

} // verus!
