//! Address planning: the virtual address of every page of a region is a
//! pure function of the region base, the page size and the page index, so
//! it can be recomputed at any time without consulting any page array.

use vstd::prelude::*;

verus! {

/// The planned virtual address of page `index` of a region starting at
/// `base` with pages of `page_size` bytes.
pub open spec fn planned_address(base: u64, page_size: u64, index: int) -> int {
    base + index * page_size
}

/// Planned addresses are strictly increasing in the page index, so no
/// two pages of one region can share an address.
pub proof fn lemma_planned_strictly_increasing(base: u64, page_size: u64, i: int, j: int)
    requires
        page_size >= 1,
        0 <= i < j,
    ensures
        planned_address(base, page_size, i) < planned_address(base, page_size, j),
{
    assert(i * page_size < j * page_size) by (nonlinear_arith)
        requires
            page_size >= 1,
            0 <= i < j,
    ;
}

/// Every planned address of the first `pc` pages lies between the base
/// and the end of the region.
pub proof fn lemma_planned_bounds(base: u64, page_size: u64, i: int, pc: int)
    requires
        0 <= i <= pc,
    ensures
        base <= planned_address(base, page_size, i),
        planned_address(base, page_size, i) <= base + pc * page_size,
{
    assert(0 <= i * page_size <= pc * page_size) by (nonlinear_arith)
        requires
            0 <= i <= pc,
            page_size >= 0,
    ;
}

/// Computes the deterministic virtual address of the `index`-th page.
///
/// Addresses for increasing `index` are strictly increasing by exactly
/// `page_size` (when `page_size > 0`), which `planned_address` makes
/// visible to every caller.
pub fn address_for(base: u64, page_size: u64, index: u64) -> (r: u64)
    requires
        base + index * page_size <= u64::MAX,
    ensures
        r == planned_address(base, page_size, index as int),
{
    proof {
        assert(index * page_size <= base + index * page_size) by (nonlinear_arith)
            requires
                index >= 0,
                page_size >= 0,
                base >= 0,
        ;
    }
    base + index * page_size
}

} // verus!
