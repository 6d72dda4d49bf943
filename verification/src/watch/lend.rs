//! The tasks of borrowing the latest value and of giving it back.

use crate::atomic::MemoryOrder;
use crate::watch::frees::{FreeStep, Freeing};
use crate::watch::table::{Cells, Slot, Table, Version};
use vstd::prelude::*;

verus! {

/// Reference to a borrowed value.
///
/// The value is not reclaimed before the reference is given back, so that is to be done as soon as
/// possible.
#[derive(Debug, PartialEq, Eq, Structural)]
pub struct Ref {
    pub slot: usize,
    /// Whether the channel was closed.
    pub closed: bool,
    /// Whether the value was new to whoever has borrowed it.
    pub changed: bool,
}

impl Ref {
    /// The version of the value.
    pub fn version<T>(&self, table: &Table<T>) -> (version: Version)
        requires
            table.wf(),
            table@.has(self.slot),
        ensures
            version == table@.slot(self.slot).version,
    {
        table.version(self.slot)
    }

    /// Whether whoever has borrowed this value had not seen it before.
    pub fn has_changed(&self) -> (changed: bool)
        ensures
            changed == self.changed,
    {
        self.changed
    }

    /// The value.
    pub fn as_ref<'a, T>(&self, table: &'a Table<T>) -> (value: &'a T)
        requires
            table.wf(),
            table@.has(self.slot),
            table@.slot(self.slot).value is Some,
        ensures
            *value == table@.slot(self.slot).value->Some_0,
    {
        table.value(self.slot)
    }
}

/// Progress of a [Retaining].
#[derive(Copy, Clone, Debug, PartialEq, Eq, Structural)]
pub enum RetainStep {
    /// To load the count.
    Load,
    /// To add one to this count, unless it is zero.
    Exchange(usize),
    /// To look at the version.
    Verify,
    /// Whether the slot was retained.
    Done(bool),
}

/// A retain of a slot, which holds a value of a version or of a later one.
#[derive(Copy, Clone, Debug, PartialEq, Eq, Structural)]
pub struct Retaining {
    pub slot: usize,
    pub version: Version,
    pub step: RetainStep,
}

impl Retaining {
    pub fn new(slot: usize, version: Version) -> (retaining: Self)
        ensures
            retaining == (Retaining { slot, version, step: RetainStep::Load }),
    {
        Retaining { slot, version, step: RetainStep::Load }
    }

    /// What the task counts on.
    pub open spec fn ready<T>(self, c: Cells<T>) -> bool {
        &&& c.has(self.slot)
        &&& match self.step {
            RetainStep::Exchange(refs) => refs < usize::MAX,
            RetainStep::Verify => self.version.0 <= c.slot(self.slot).version.0,
            _ => true,
        }
    }

    pub open spec fn at(self, step: RetainStep) -> Self {
        Retaining { step, ..self }
    }

    /// What the next step makes of the task and of the cells.
    pub open spec fn next<T>(self, c: Cells<T>) -> (Self, Cells<T>) {
        let cells = c.slot(self.slot);
        match self.step {
            RetainStep::Load => (self.at(RetainStep::Exchange(cells.refs)), c),
            RetainStep::Exchange(refs) => if refs == 0 {
                (self.at(RetainStep::Done(false)), c)
            } else if cells.refs == refs {
                (
                    self.at(RetainStep::Verify),
                    c.with_slot(self.slot, Slot { refs: (refs + 1) as usize, ..cells }),
                )
            } else {
                (self.at(RetainStep::Exchange(cells.refs)), c)
            },
            RetainStep::Verify => (self.at(RetainStep::Done(true)), c),
            RetainStep::Done(_) => (self, c),
        }
    }

    /// Makes the next step.
    pub fn advance<T>(&mut self, table: &mut Table<T>)
        requires
            old(table).wf(),
            old(self).ready(old(table)@),
        ensures
            final(table).wf(),
            *final(self) == old(self).next(old(table)@).0,
            final(table)@ =~= old(self).next(old(table)@).1,
    {
        match self.step {
            RetainStep::Load => {
                self.step = RetainStep::Exchange(table.load_refs(self.slot));
            },
            RetainStep::Exchange(refs) => {
                if refs == 0 {
                    self.step = RetainStep::Done(false);
                } else {
                    match table.exchange_refs(self.slot, refs, refs + 1) {
                        Ok(_) => self.step = RetainStep::Verify,
                        Err(updated) => self.step = RetainStep::Exchange(updated),
                    }
                }
            },
            RetainStep::Verify => {
                let version = table.version(self.slot);
                // Versions are monotonic.
                assert(self.version.0 <= version.0);
                self.step = RetainStep::Done(true);
            },
            RetainStep::Done(_) => {},
        }
    }
}

/// Progress of a [Borrowing].
#[derive(Copy, Clone, Debug, PartialEq, Eq, Structural)]
pub enum BorrowStep {
    /// To load the slot of the latest value.
    Load,
    /// To retain it. The flag tells whether the channel is closed.
    Retain(bool, Retaining),
    /// To see whether the value in this slot is a new one.
    Compare(usize, bool),
    /// Borrowed: the slot, whether the channel is closed and whether the value is a new one.
    Done(usize, bool, bool),
}

/// A borrow of the latest value by somebody who has seen the value of a version.
#[derive(Copy, Clone, Debug, PartialEq, Eq, Structural)]
pub struct Borrowing {
    pub seen: Version,
    pub step: BorrowStep,
}

impl Borrowing {
    pub fn new(seen: Version) -> (borrowing: Self)
        ensures
            borrowing == (Borrowing { seen, step: BorrowStep::Load }),
    {
        Borrowing { seen, step: BorrowStep::Load }
    }

    /// What the task counts on.
    pub open spec fn ready<T>(self, c: Cells<T>) -> bool {
        match self.step {
            BorrowStep::Retain(_, retaining) => retaining.ready(c),
            BorrowStep::Compare(slot, _) => c.has(slot),
            _ => true,
        }
    }

    pub open spec fn at(self, step: BorrowStep) -> Self {
        Borrowing { step, ..self }
    }

    /// What the next step makes of the task and of the cells.
    pub open spec fn next<T>(self, c: Cells<T>) -> (Self, Cells<T>) {
        match self.step {
            BorrowStep::Load => (
                self.at(
                    BorrowStep::Retain(
                        c.closed,
                        Retaining { slot: c.latest, version: self.seen, step: RetainStep::Load },
                    ),
                ),
                c,
            ),
            BorrowStep::Retain(closed, retaining) => {
                let (retaining, c) = retaining.next(c);
                let step = match retaining.step {
                    RetainStep::Done(true) => BorrowStep::Compare(retaining.slot, closed),
                    RetainStep::Done(false) => BorrowStep::Load,
                    _ => BorrowStep::Retain(closed, retaining),
                };
                (self.at(step), c)
            },
            BorrowStep::Compare(slot, closed) => (
                self.at(BorrowStep::Done(slot, closed, self.seen != c.slot(slot).version)),
                c,
            ),
            BorrowStep::Done(_, _, _) => (self, c),
        }
    }

    /// Makes the next step.
    pub fn advance<T>(&mut self, table: &mut Table<T>)
        requires
            old(table).wf(),
            old(self).ready(old(table)@),
        ensures
            final(table).wf(),
            *final(self) == old(self).next(old(table)@).0,
            final(table)@ =~= old(self).next(old(table)@).1,
    {
        match self.step {
            BorrowStep::Load => {
                // Acquire load to observe version and value.
                let (slot, closed) = table.load_latest(MemoryOrder::Acquire);
                self.step = BorrowStep::Retain(closed, Retaining::new(slot, self.seen));
            },
            BorrowStep::Retain(closed, mut retaining) => {
                retaining.advance(table);
                match retaining.step {
                    RetainStep::Done(true) => {
                        self.step = BorrowStep::Compare(retaining.slot, closed);
                    },
                    RetainStep::Done(false) => self.step = BorrowStep::Load,
                    _ => self.step = BorrowStep::Retain(closed, retaining),
                }
            },
            BorrowStep::Compare(slot, closed) => {
                let changed = self.seen != table.version(slot);
                self.step = BorrowStep::Done(slot, closed, changed);
            },
            BorrowStep::Done(_, _, _) => {},
        }
    }
}

/// Progress of a [Releasing].
#[derive(Copy, Clone, Debug, PartialEq, Eq, Structural)]
pub enum ReleaseStep {
    /// To take one off the count.
    Sub,
    /// To drop the value, for nobody holds it any longer.
    Drop,
    /// To give the slot back.
    Free(Freeing),
    /// Done.
    Done,
}

/// A release of a slot.
#[derive(Copy, Clone, Debug, PartialEq, Eq, Structural)]
pub struct Releasing {
    pub slot: usize,
    pub step: ReleaseStep,
}

impl Releasing {
    pub fn new(slot: usize) -> (releasing: Self)
        ensures
            releasing == (Releasing { slot, step: ReleaseStep::Sub }),
    {
        Releasing { slot, step: ReleaseStep::Sub }
    }

    /// What the task counts on.
    pub open spec fn ready<T>(self, c: Cells<T>) -> bool {
        &&& c.has(self.slot)
        &&& match self.step {
            ReleaseStep::Sub => c.slot(self.slot).refs > 0,
            ReleaseStep::Free(freeing) => freeing.ready(c),
            _ => true,
        }
    }

    pub open spec fn at(self, step: ReleaseStep) -> Self {
        Releasing { step, ..self }
    }

    /// What the next step makes of the task and of the cells.
    pub open spec fn next<T>(self, c: Cells<T>) -> (Self, Cells<T>) {
        let cells = c.slot(self.slot);
        match self.step {
            ReleaseStep::Sub => (
                self.at(
                    if cells.refs == 1 {
                        ReleaseStep::Drop
                    } else {
                        ReleaseStep::Done
                    },
                ),
                c.with_slot(self.slot, Slot { refs: (cells.refs - 1) as usize, ..cells }),
            ),
            ReleaseStep::Drop => (
                self.at(
                    ReleaseStep::Free(
                        Freeing { head: self.slot, tail: self.slot, step: FreeStep::Load },
                    ),
                ),
                c.with_slot(self.slot, Slot { value: None, ..cells }),
            ),
            ReleaseStep::Free(freeing) => {
                let (freeing, c) = freeing.next(c);
                let step = if freeing.step is Done {
                    ReleaseStep::Done
                } else {
                    ReleaseStep::Free(freeing)
                };
                (self.at(step), c)
            },
            ReleaseStep::Done => (self, c),
        }
    }

    /// Makes the next step.
    pub fn advance<T>(&mut self, table: &mut Table<T>)
        requires
            old(table).wf(),
            old(self).ready(old(table)@),
        ensures
            final(table).wf(),
            *final(self) == old(self).next(old(table)@).0,
            final(table)@ =~= old(self).next(old(table)@).1,
    {
        match self.step {
            ReleaseStep::Sub => {
                if table.sub_refs(self.slot) != 1 {
                    self.step = ReleaseStep::Done;
                } else {
                    self.step = ReleaseStep::Drop;
                }
            },
            ReleaseStep::Drop => {
                table.write_value(self.slot, None);
                self.step = ReleaseStep::Free(Freeing::new(self.slot, self.slot));
            },
            ReleaseStep::Free(mut freeing) => {
                freeing.advance(table);
                if let FreeStep::Done = freeing.step {
                    self.step = ReleaseStep::Done;
                } else {
                    self.step = ReleaseStep::Free(freeing);
                }
            },
            ReleaseStep::Done => {},
        }
    }
}

impl<T> Cells<T> {
    /// The cells with `slot` held once more.
    pub open spec fn retained(self, slot: usize) -> Cells<T> {
        let cells = self.slot(slot);
        self.with_slot(slot, Slot { refs: (cells.refs + 1) as usize, ..cells })
    }

    /// The cells with `slot` held once less. If nobody holds it any longer, the value is gone and the
    /// slot is free.
    pub open spec fn released(self, slot: usize) -> Cells<T> {
        let cells = self.slot(slot);
        let less = Slot { refs: (cells.refs - 1) as usize, ..cells };
        if cells.refs == 1 {
            self.with_slot(slot, Slot { value: None, ..less }).freed(slot, slot)
        } else {
            self.with_slot(slot, less)
        }
    }
}

impl<T> Table<T> {
    /// Retains the value in `slot`, which is of this version or of a later one. Returns whether
    /// somebody holds it.
    pub fn retain(&mut self, slot: usize, version: Version) -> (retained: bool)
        requires
            old(self).wf(),
            old(self)@.has(slot),
            old(self)@.slot(slot).refs < usize::MAX,
            old(self)@.slot(slot).refs > 0 ==> version.0 <= old(self)@.slot(slot).version.0,
        ensures
            final(self).wf(),
            retained == (old(self)@.slot(slot).refs > 0),
            final(self)@ =~= if retained {
                old(self)@.retained(slot)
            } else {
                old(self)@
            },
    {
        let mut retaining = Retaining::new(slot, version);
        retaining.advance(self);
        retaining.advance(self);
        if let RetainStep::Done(retained) = retaining.step {
            return retained;
        }
        retaining.advance(self);
        true
    }

    /// Borrows the latest value, for somebody who has seen the value of this version.
    pub fn latest(&mut self, seen: Version) -> (latest: Ref)
        requires
            old(self).wf(),
            0 < old(self)@.slot(old(self)@.latest).refs < usize::MAX,
            seen.0 <= old(self)@.slot(old(self)@.latest).version.0,
        ensures
            final(self).wf(),
            final(self)@ =~= old(self)@.retained(old(self)@.latest),
            latest == (Ref {
                slot: old(self)@.latest,
                closed: old(self)@.closed,
                changed: seen != old(self)@.slot(old(self)@.latest).version,
            }),
    {
        let mut borrowing = Borrowing::new(seen);
        borrowing.advance(self);
        borrowing.advance(self);
        borrowing.advance(self);
        borrowing.advance(self);
        borrowing.advance(self);
        match borrowing.step {
            BorrowStep::Done(slot, closed, changed) => Ref { slot, closed, changed },
            _ => vstd::pervasive::unreached(),
        }
    }

    /// Releases a slot. The value is dropped and the slot is given back once nobody holds it.
    pub fn release(&mut self, slot: usize)
        requires
            old(self).wf(),
            old(self)@.has(slot),
            old(self)@.slot(slot).refs > 0,
        ensures
            final(self).wf(),
            final(self)@ =~= old(self)@.released(slot),
    {
        let mut releasing = Releasing::new(slot);
        releasing.advance(self);
        if let ReleaseStep::Done = releasing.step {
            return ;
        }
        releasing.advance(self);
        releasing.advance(self);
        releasing.advance(self);
        releasing.advance(self);
    }
}

} // verus!
