//! The tasks of giving slots back and of taking a free one.

use crate::atomic::MemoryOrder;
use crate::watch::table::{Cells, Slot, Table, ROW};
use vstd::prelude::*;

verus! {

/// Progress of a [Freeing].
#[derive(Copy, Clone, Debug, PartialEq, Eq, Structural)]
pub enum FreeStep {
    /// To load the free slot on top.
    Load,
    /// To link the last slot to this one.
    Link(Option<usize>),
    /// To put the first slot on top in place of this one.
    Exchange(Option<usize>),
    /// Done.
    Done,
}

/// A chain of slots on its way to the free ones.
#[derive(Copy, Clone, Debug, PartialEq, Eq, Structural)]
pub struct Freeing {
    pub head: usize,
    pub tail: usize,
    pub step: FreeStep,
}

impl Freeing {
    pub fn new(head: usize, tail: usize) -> (freeing: Self)
        ensures
            freeing == (Freeing { head, tail, step: FreeStep::Load }),
    {
        Freeing { head, tail, step: FreeStep::Load }
    }

    /// What the task counts on.
    pub open spec fn ready<T>(self, c: Cells<T>) -> bool {
        &&& c.has(self.head)
        &&& c.has(self.tail)
        &&& self.step matches FreeStep::Link(Some(top)) ==> c.has(top)
    }

    pub open spec fn at(self, step: FreeStep) -> Self {
        Freeing { step, ..self }
    }

    /// What the next step makes of the task and of the cells.
    pub open spec fn next<T>(self, c: Cells<T>) -> (Self, Cells<T>) {
        match self.step {
            FreeStep::Load => (self.at(FreeStep::Link(c.head)), c),
            FreeStep::Link(top) => (
                self.at(FreeStep::Exchange(top)),
                c.with_slot(self.tail, Slot { frees: top, ..c.slot(self.tail) }),
            ),
            FreeStep::Exchange(top) => if c.head == top {
                (self.at(FreeStep::Done), Cells { head: Some(self.head), ..c })
            } else {
                (self.at(FreeStep::Link(c.head)), c)
            },
            FreeStep::Done => (self, c),
        }
    }

    /// Makes the next step.
    pub fn advance<T>(&mut self, table: &mut Table<T>)
        requires
            old(table).wf(),
            old(self).ready(old(table)@),
        ensures
            final(table).wf(),
            *final(self) == old(self).next(old(table)@).0,
            final(table)@ =~= old(self).next(old(table)@).1,
    {
        match self.step {
            FreeStep::Load => {
                self.step = FreeStep::Link(table.load_head(MemoryOrder::Relaxed));
            },
            FreeStep::Link(top) => {
                table.store_next(self.tail, top);
                self.step = FreeStep::Exchange(top);
            },
            FreeStep::Exchange(top) => {
                // Release store to publish the link.
                match table.exchange_head(
                    top,
                    Some(self.head),
                    MemoryOrder::Release,
                    MemoryOrder::Relaxed,
                ) {
                    Ok(_) => self.step = FreeStep::Done,
                    Err(updated) => self.step = FreeStep::Link(updated),
                }
            },
            FreeStep::Done => {},
        }
    }
}

/// Progress of an [Allocating].
#[derive(Copy, Clone, Debug, PartialEq, Eq, Structural)]
pub enum AllocStep {
    /// To load the free slot on top.
    Load,
    /// To load what this slot is linked to.
    Next(usize),
    /// To take this slot, which is linked to that one.
    Exchange(usize, Option<usize>),
    /// To clear the link of this slot.
    Clear(usize),
    /// To make a row, for no slot is free.
    Grow,
    /// To give all slots of the row back but this one.
    Free(usize, Freeing),
    /// This slot was taken.
    Done(usize),
}

/// A free slot on its way to whoever needs one.
#[derive(Copy, Clone, Debug, PartialEq, Eq, Structural)]
pub struct Allocating {
    pub step: AllocStep,
}

impl Allocating {
    pub fn new() -> (allocating: Self)
        ensures
            allocating == (Allocating { step: AllocStep::Load }),
    {
        Allocating { step: AllocStep::Load }
    }

    /// What the task counts on.
    pub open spec fn ready<T>(self, c: Cells<T>) -> bool {
        match self.step {
            AllocStep::Next(slot) | AllocStep::Clear(slot) => c.has(slot),
            AllocStep::Exchange(slot, next) => {
                &&& c.has(slot)
                &&& next matches Some(next) ==> c.has(next)
            },
            AllocStep::Grow => c.slots.len() + ROW <= usize::MAX / 2,
            AllocStep::Free(slot, freeing) => c.has(slot) && freeing.ready(c),
            _ => true,
        }
    }

    /// The step after the free slot on top was loaded.
    pub open spec fn seen(top: Option<usize>) -> Self {
        match top {
            Some(slot) => Allocating { step: AllocStep::Next(slot) },
            None => Allocating { step: AllocStep::Grow },
        }
    }

    /// What the next step makes of the task and of the cells.
    pub open spec fn next<T>(self, c: Cells<T>) -> (Self, Cells<T>) {
        match self.step {
            AllocStep::Load => (Allocating::seen(c.head), c),
            AllocStep::Next(slot) => (
                Allocating { step: AllocStep::Exchange(slot, c.slot(slot).frees) },
                c,
            ),
            AllocStep::Exchange(slot, next) => if c.head == Some(slot) {
                (Allocating { step: AllocStep::Clear(slot) }, Cells { head: next, ..c })
            } else {
                (Allocating::seen(c.head), c)
            },
            AllocStep::Clear(slot) => (
                Allocating { step: AllocStep::Done(slot) },
                c.with_slot(slot, Slot { frees: None, ..c.slot(slot) }),
            ),
            AllocStep::Grow => {
                let base = c.slots.len();
                (
                    Allocating {
                        step: AllocStep::Free(
                            base as usize,
                            Freeing {
                                head: (base + 1) as usize,
                                tail: (base + ROW - 1) as usize,
                                step: FreeStep::Load,
                            },
                        ),
                    },
                    c.grown(),
                )
            },
            AllocStep::Free(slot, freeing) => {
                let (freeing, c) = freeing.next(c);
                let step = if freeing.step is Done {
                    AllocStep::Done(slot)
                } else {
                    AllocStep::Free(slot, freeing)
                };
                (Allocating { step }, c)
            },
            AllocStep::Done(_) => (self, c),
        }
    }

    /// Makes the next step.
    pub fn advance<T>(&mut self, table: &mut Table<T>)
        requires
            old(table).wf(),
            old(self).ready(old(table)@),
        ensures
            final(table).wf(),
            *final(self) == old(self).next(old(table)@).0,
            final(table)@ =~= old(self).next(old(table)@).1,
    {
        match self.step {
            AllocStep::Load => {
                // Acquire load to see the link of the slot.
                match table.load_head(MemoryOrder::Acquire) {
                    Some(slot) => self.step = AllocStep::Next(slot),
                    None => self.step = AllocStep::Grow,
                }
            },
            AllocStep::Next(slot) => {
                self.step = AllocStep::Exchange(slot, table.load_next(slot));
            },
            AllocStep::Exchange(slot, next) => {
                match table.exchange_head(
                    Some(slot),
                    next,
                    MemoryOrder::Relaxed,
                    MemoryOrder::Acquire,
                ) {
                    Ok(_) => self.step = AllocStep::Clear(slot),
                    Err(Some(updated)) => self.step = AllocStep::Next(updated),
                    Err(None) => self.step = AllocStep::Grow,
                }
            },
            AllocStep::Clear(slot) => {
                table.store_next(slot, None);
                self.step = AllocStep::Done(slot);
            },
            AllocStep::Grow => {
                let base = table.grow();
                self.step = AllocStep::Free(base, Freeing::new(base + 1, base + ROW - 1));
            },
            AllocStep::Free(slot, mut freeing) => {
                freeing.advance(table);
                if let FreeStep::Done = freeing.step {
                    self.step = AllocStep::Done(slot);
                } else {
                    self.step = AllocStep::Free(slot, freeing);
                }
            },
            AllocStep::Done(_) => {},
        }
    }
}

impl<T> Cells<T> {
    /// The cells with the chain from `head` to `tail` on top of the free slots.
    pub open spec fn freed(self, head: usize, tail: usize) -> Cells<T> {
        Cells {
            head: Some(head),
            ..self.with_slot(tail, Slot { frees: self.head, ..self.slot(tail) })
        }
    }

    /// The slot that is taken next.
    pub open spec fn vacancy(self) -> usize {
        match self.head {
            Some(slot) => slot,
            None => self.slots.len() as usize,
        }
    }

    /// The cells without the slot that is taken next among the free ones.
    pub open spec fn allocated(self) -> Cells<T> {
        match self.head {
            Some(slot) => Cells {
                head: self.slot(slot).frees,
                ..self.with_slot(slot, Slot { frees: None, ..self.slot(slot) })
            },
            None => {
                let base = self.slots.len();
                self.grown().freed((base + 1) as usize, (base + ROW - 1) as usize)
            },
        }
    }
}

impl<T> Table<T> {
    /// Puts a chain of slots on top of the free ones.
    pub fn free_slots(&mut self, head: usize, tail: usize)
        requires
            old(self).wf(),
            old(self)@.has(head),
            old(self)@.has(tail),
        ensures
            final(self).wf(),
            final(self)@ =~= old(self)@.freed(head, tail),
    {
        let mut freeing = Freeing::new(head, tail);
        freeing.advance(self);
        freeing.advance(self);
        freeing.advance(self);
    }

    /// Puts a slot on top of the free ones.
    pub fn free_slot(&mut self, slot: usize)
        requires
            old(self).wf(),
            old(self)@.has(slot),
        ensures
            final(self).wf(),
            final(self)@ =~= old(self)@.freed(slot, slot),
    {
        self.free_slots(slot, slot);
    }

    /// Puts the slots from `first` to `last` on top of the free ones.
    pub fn add_slots(&mut self, first: usize, last: usize)
        requires
            old(self).wf(),
            first <= last,
            old(self)@.has(last),
        ensures
            final(self).wf(),
            final(self)@ =~= old(self)@.linked(first, last).freed(first, last),
    {
        self.link_slots(first, last);
        self.free_slots(first, last);
    }

    /// Takes a free slot. Makes a row if there is none.
    pub fn alloc_slot(&mut self) -> (slot: usize)
        requires
            old(self).wf(),
            old(self)@.head is None ==> old(self)@.slots.len() + ROW <= usize::MAX / 2,
        ensures
            final(self).wf(),
            slot == old(self)@.vacancy(),
            final(self)@.has(slot),
            final(self)@ =~= old(self)@.allocated(),
    {
        let mut allocating = Allocating::new();
        allocating.advance(self);
        allocating.advance(self);
        allocating.advance(self);
        allocating.advance(self);
        if let AllocStep::Done(slot) = allocating.step {
            return slot;
        }
        allocating.advance(self);
        match allocating.step {
            AllocStep::Done(slot) => slot,
            _ => vstd::pervasive::unreached(),
        }
    }
}

} // verus!
