//! Orderings of the accesses to cells of shared memory.
//!
//! A cell is a plain value here. Whoever holds it exclusively makes one access at a time, so that the
//! accesses of all tasks to all cells have one total order. The orderings say what is asked of a
//! machine on which they have none.

use vstd::prelude::*;

verus! {

/// How an access is ordered.
#[derive(Copy, Clone, Debug, PartialEq, Eq, Structural)]
pub enum MemoryOrder {
    Relaxed,
    Release,
    Acquire,
    AcqRel,
    SeqCst,
}

impl MemoryOrder {
    /// Orders that a load accepts, a failed compare-exchange included.
    pub open spec fn loads(self) -> bool {
        !(self is Release) && !(self is AcqRel)
    }

    /// Orders that a store accepts.
    pub open spec fn stores(self) -> bool {
        !(self is Acquire) && !(self is AcqRel)
    }
}

/// Whether an access with this order observes what was published before.
pub open spec fn acquires(order: MemoryOrder) -> bool {
    order == MemoryOrder::Acquire || order == MemoryOrder::AcqRel || order == MemoryOrder::SeqCst
}

/// Whether an access with this order publishes what comes before it.
pub open spec fn releases(order: MemoryOrder) -> bool {
    order == MemoryOrder::Release || order == MemoryOrder::AcqRel || order == MemoryOrder::SeqCst
}

/// A load publishes nothing and a store observes nothing, unless it is ordered with all others.
pub proof fn law_orders_of_accesses(order: MemoryOrder)
    ensures
        order.loads() <==> !releases(order) || order == MemoryOrder::SeqCst,
        order.stores() <==> !acquires(order) || order == MemoryOrder::SeqCst,
{
}

} // verus!
