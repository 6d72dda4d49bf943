//! The task of publishing a value.

use crate::watch::frees::{AllocStep, Allocating};
use crate::watch::lend::{
    BorrowStep, Borrowing, ReleaseStep, Releasing, RetainStep, Retaining,
};
use crate::watch::table::{Cells, Slot, Table, Version, ROW};
use vstd::prelude::*;

verus! {

/// Progress of a [Publishing].
#[derive(Copy, Clone, Debug, PartialEq, Eq, Structural)]
pub enum PublishStep {
    /// To take a free slot.
    Alloc(Allocating),
    /// To write the value to this slot.
    Write(usize),
    /// To hold this slot.
    Hold(usize),
    /// To borrow the latest value, which the value in this slot is to follow.
    Latest(usize, Borrowing),
    /// To read the version of the latest value, which is in the second slot.
    Read(usize, usize),
    /// To write the version of the value in the first slot.
    Stamp(usize, usize, Version),
    /// To make the first slot the latest one in place of the second one.
    Exchange(usize, usize, Version),
    /// To retain the slot that is the latest one instead.
    Retain(usize, usize, Version, Retaining),
    /// To borrow the latest value again.
    Reload(usize, usize, Borrowing),
    /// To give the value in the last slot back, for the one in the second slot is later.
    Follow(usize, usize, Releasing),
    /// To release this slot, which is the latest one no longer.
    Replace(usize, Releasing),
    /// To notify all who wait for changes.
    Notify(usize),
    /// To give the value back that was the latest one.
    Drop(Releasing),
    /// Done.
    Done,
}

/// A value on its way to be published.
pub struct Publishing<T> {
    /// The value, until it is in a slot.
    pub value: Option<T>,
    pub step: PublishStep,
}

impl<T> Publishing<T> {
    pub fn new(value: T) -> (publishing: Self)
        ensures
            publishing == (Publishing {
                value: Some(value),
                step: PublishStep::Alloc(Allocating { step: AllocStep::Load }),
            }),
    {
        Publishing { value: Some(value), step: PublishStep::Alloc(Allocating::new()) }
    }

    /// What the task counts on.
    pub open spec fn ready(self, c: Cells<T>) -> bool {
        match self.step {
            PublishStep::Alloc(allocating) => allocating.ready(c),
            PublishStep::Write(slot) => c.has(slot) && self.value is Some,
            PublishStep::Hold(slot) => c.has(slot),
            PublishStep::Latest(slot, borrowing) => c.has(slot) && borrowing.ready(c),
            PublishStep::Read(slot, latest) => {
                c.has(slot) && c.has(latest) && c.slot(latest).version.0 < u64::MAX
            },
            PublishStep::Stamp(slot, latest, _) | PublishStep::Exchange(slot, latest, _) => {
                c.has(slot) && c.has(latest)
            },
            PublishStep::Retain(slot, latest, _, retaining) => {
                c.has(slot) && c.has(latest) && retaining.ready(c)
            },
            PublishStep::Reload(slot, latest, borrowing) => {
                c.has(slot) && c.has(latest) && borrowing.ready(c)
            },
            PublishStep::Follow(slot, latest, releasing) => {
                c.has(slot) && c.has(latest) && releasing.ready(c)
            },
            PublishStep::Replace(latest, releasing) => c.has(latest) && releasing.ready(c),
            PublishStep::Notify(latest) => c.has(latest),
            PublishStep::Drop(releasing) => releasing.ready(c),
            PublishStep::Done => true,
        }
    }

    pub open spec fn at(self, step: PublishStep) -> Self {
        Publishing { step, ..self }
    }

    /// What the next step makes of the task and of the cells.
    pub open spec fn next(self, c: Cells<T>) -> (Self, Cells<T>) {
        match self.step {
            PublishStep::Alloc(allocating) => {
                let (allocating, c) = allocating.next(c);
                let step = match allocating.step {
                    AllocStep::Done(slot) => PublishStep::Write(slot),
                    _ => PublishStep::Alloc(allocating),
                };
                (self.at(step), c)
            },
            PublishStep::Write(slot) => (
                Publishing { value: None, step: PublishStep::Hold(slot) },
                c.with_slot(slot, Slot { value: self.value, ..c.slot(slot) }),
            ),
            PublishStep::Hold(slot) => (
                self.at(
                    PublishStep::Latest(
                        slot,
                        Borrowing { seen: Version(0), step: BorrowStep::Load },
                    ),
                ),
                c.with_slot(slot, Slot { refs: 1, ..c.slot(slot) }),
            ),
            PublishStep::Latest(slot, borrowing) => {
                let (borrowing, c) = borrowing.next(c);
                let step = match borrowing.step {
                    BorrowStep::Done(latest, _, _) => PublishStep::Read(slot, latest),
                    _ => PublishStep::Latest(slot, borrowing),
                };
                (self.at(step), c)
            },
            PublishStep::Read(slot, latest) => {
                let version = Version((c.slot(latest).version.0 + 1) as u64);
                (self.at(PublishStep::Stamp(slot, latest, version)), c)
            },
            PublishStep::Stamp(slot, latest, version) => (
                self.at(PublishStep::Exchange(slot, latest, version)),
                c.with_slot(slot, Slot { version, ..c.slot(slot) }),
            ),
            PublishStep::Exchange(slot, latest, version) => if c.latest == latest && !c.closed {
                (
                    self.at(
                        PublishStep::Replace(
                            latest,
                            Releasing { slot: latest, step: ReleaseStep::Sub },
                        ),
                    ),
                    Cells { latest: slot, ..c },
                )
            } else {
                (
                    self.at(
                        PublishStep::Retain(
                            slot,
                            latest,
                            version,
                            Retaining { slot: c.latest, version, step: RetainStep::Load },
                        ),
                    ),
                    c,
                )
            },
            PublishStep::Retain(slot, latest, version, retaining) => {
                let (retaining, c) = retaining.next(c);
                let step = match retaining.step {
                    RetainStep::Done(true) => PublishStep::Follow(
                        slot,
                        retaining.slot,
                        Releasing { slot: latest, step: ReleaseStep::Sub },
                    ),
                    RetainStep::Done(false) => PublishStep::Reload(
                        slot,
                        latest,
                        Borrowing { seen: version, step: BorrowStep::Load },
                    ),
                    _ => PublishStep::Retain(slot, latest, version, retaining),
                };
                (self.at(step), c)
            },
            PublishStep::Reload(slot, latest, borrowing) => {
                let (borrowing, c) = borrowing.next(c);
                let step = match borrowing.step {
                    BorrowStep::Done(later, _, _) => PublishStep::Follow(
                        slot,
                        later,
                        Releasing { slot: latest, step: ReleaseStep::Sub },
                    ),
                    _ => PublishStep::Reload(slot, latest, borrowing),
                };
                (self.at(step), c)
            },
            PublishStep::Follow(slot, latest, releasing) => {
                let (releasing, c) = releasing.next(c);
                let step = if releasing.step is Done {
                    PublishStep::Read(slot, latest)
                } else {
                    PublishStep::Follow(slot, latest, releasing)
                };
                (self.at(step), c)
            },
            PublishStep::Replace(latest, releasing) => {
                let (releasing, c) = releasing.next(c);
                let step = if releasing.step is Done {
                    PublishStep::Notify(latest)
                } else {
                    PublishStep::Replace(latest, releasing)
                };
                (self.at(step), c)
            },
            PublishStep::Notify(latest) => (
                self.at(PublishStep::Drop(Releasing { slot: latest, step: ReleaseStep::Sub })),
                c,
            ),
            PublishStep::Drop(releasing) => {
                let (releasing, c) = releasing.next(c);
                let step = if releasing.step is Done {
                    PublishStep::Done
                } else {
                    PublishStep::Drop(releasing)
                };
                (self.at(step), c)
            },
            PublishStep::Done => (self, c),
        }
    }

    /// Makes the next step.
    pub fn advance(&mut self, table: &mut Table<T>)
        requires
            old(table).wf(),
            old(self).ready(old(table)@),
        ensures
            final(table).wf(),
            *final(self) == old(self).next(old(table)@).0,
            final(table)@ =~= old(self).next(old(table)@).1,
    {
        match self.step {
            PublishStep::Alloc(mut allocating) => {
                allocating.advance(table);
                match allocating.step {
                    AllocStep::Done(slot) => self.step = PublishStep::Write(slot),
                    _ => self.step = PublishStep::Alloc(allocating),
                }
            },
            PublishStep::Write(slot) => {
                table.write_value(slot, self.value.take());
                self.step = PublishStep::Hold(slot);
            },
            PublishStep::Hold(slot) => {
                table.store_refs(slot, 1);
                self.step = PublishStep::Latest(slot, Borrowing::new(Version(0)));
            },
            PublishStep::Latest(slot, mut borrowing) => {
                borrowing.advance(table);
                match borrowing.step {
                    BorrowStep::Done(latest, _, _) => self.step = PublishStep::Read(slot, latest),
                    _ => self.step = PublishStep::Latest(slot, borrowing),
                }
            },
            PublishStep::Read(slot, latest) => {
                let version = table.version(latest).next();
                self.step = PublishStep::Stamp(slot, latest, version);
            },
            PublishStep::Stamp(slot, latest, version) => {
                table.set_version(slot, version);
                self.step = PublishStep::Exchange(slot, latest, version);
            },
            PublishStep::Exchange(slot, latest, version) => {
                match table.exchange_latest(latest, slot) {
                    Ok(old) => self.step = PublishStep::Replace(latest, Releasing::new(old)),
                    Err(updated) => {
                        self.step = PublishStep::Retain(
                            slot,
                            latest,
                            version,
                            Retaining::new(updated, version),
                        );
                    },
                }
            },
            PublishStep::Retain(slot, latest, version, mut retaining) => {
                retaining.advance(table);
                match retaining.step {
                    RetainStep::Done(true) => {
                        self.step = PublishStep::Follow(
                            slot,
                            retaining.slot,
                            Releasing::new(latest),
                        );
                    },
                    RetainStep::Done(false) => {
                        self.step = PublishStep::Reload(slot, latest, Borrowing::new(version));
                    },
                    _ => self.step = PublishStep::Retain(slot, latest, version, retaining),
                }
            },
            PublishStep::Reload(slot, latest, mut borrowing) => {
                borrowing.advance(table);
                match borrowing.step {
                    BorrowStep::Done(later, _, _) => {
                        self.step = PublishStep::Follow(slot, later, Releasing::new(latest));
                    },
                    _ => self.step = PublishStep::Reload(slot, latest, borrowing),
                }
            },
            PublishStep::Follow(slot, latest, mut releasing) => {
                releasing.advance(table);
                if let ReleaseStep::Done = releasing.step {
                    self.step = PublishStep::Read(slot, latest);
                } else {
                    self.step = PublishStep::Follow(slot, latest, releasing);
                }
            },
            PublishStep::Replace(latest, mut releasing) => {
                releasing.advance(table);
                if let ReleaseStep::Done = releasing.step {
                    self.step = PublishStep::Notify(latest);
                } else {
                    self.step = PublishStep::Replace(latest, releasing);
                }
            },
            PublishStep::Notify(latest) => {
                self.step = PublishStep::Drop(Releasing::new(latest));
            },
            PublishStep::Drop(mut releasing) => {
                releasing.advance(table);
                if let ReleaseStep::Done = releasing.step {
                    self.step = PublishStep::Done;
                } else {
                    self.step = PublishStep::Drop(releasing);
                }
            },
            PublishStep::Done => {},
        }
    }
}

impl<T> Publishing<T> {
    /// Takes a free slot, with the table for itself.
    pub fn take_slot(&mut self, table: &mut Table<T>)
        requires
            old(table).wf(),
            old(self).step == PublishStep::Alloc(Allocating { step: AllocStep::Load }),
            old(table)@.head is None ==> old(table)@.slots.len() + ROW <= usize::MAX / 2,
        ensures
            final(table).wf(),
            *final(self) == old(self).at(PublishStep::Write(old(table)@.vacancy())),
            final(table)@.has(old(table)@.vacancy()),
            final(table)@ =~= old(table)@.allocated(),
    {
        self.advance(table);
        self.advance(table);
        self.advance(table);
        self.advance(table);
        if let PublishStep::Alloc(_) = self.step {
            self.advance(table);
        }
    }

    /// Stores the value and borrows the latest one, with the table for itself.
    pub fn store(&mut self, table: &mut Table<T>)
        requires
            old(table).wf(),
            old(self).step matches PublishStep::Write(slot) && {
                &&& old(table)@.has(slot)
                &&& old(self).value is Some
                &&& slot != old(table)@.latest
                &&& 0 < old(table)@.slot(old(table)@.latest).refs < usize::MAX
            },
        ensures
            final(table).wf(),
            ({
                let slot = old(self).step->Write_0;
                let c = old(table)@;
                &&& *final(self) == (Publishing::<T> {
                    value: None,
                    step: PublishStep::Read(slot, c.latest),
                })
                &&& final(table)@ =~= c.with_slot(
                    slot,
                    Slot { refs: 1, value: old(self).value, ..c.slot(slot) },
                ).retained(c.latest)
            }),
    {
        // Write the value, and hold it.
        self.advance(table);
        self.advance(table);
        // Load, retain and compare the latest value.
        self.advance(table);
        self.advance(table);
        self.advance(table);
        self.advance(table);
        self.advance(table);
    }

    /// Takes the place of the latest value, with the table for itself.
    pub fn replace(&mut self, table: &mut Table<T>)
        requires
            old(table).wf(),
            old(self).step matches PublishStep::Read(slot, latest) && {
                &&& old(table)@.has(slot)
                &&& slot != latest
                &&& latest == old(table)@.latest
                &&& !old(table)@.closed
                &&& old(table)@.slot(latest).version.0 < u64::MAX
                &&& old(table)@.slot(latest).refs > 1
            },
        ensures
            final(table).wf(),
            ({
                let slot = old(self).step->Read_0;
                let c = old(table)@;
                let version = Version((c.slot(c.latest).version.0 + 1) as u64);
                &&& *final(self) == old(self).at(PublishStep::Notify(c.latest))
                &&& final(table)@ =~= (Cells {
                    latest: slot,
                    ..c.with_slot(slot, Slot { version, ..c.slot(slot) }).released(c.latest)
                })
            }),
    {
        // Read the version, stamp the next one, exchange and release.
        self.advance(table);
        self.advance(table);
        self.advance(table);
        self.advance(table);
    }

    /// Gives the value back that was the latest one, with the table for itself.
    pub fn finish(&mut self, table: &mut Table<T>)
        requires
            old(table).wf(),
            old(self).step matches PublishStep::Notify(latest) && {
                old(table)@.has(latest) && old(table)@.slot(latest).refs > 0
            },
        ensures
            final(table).wf(),
            *final(self) == old(self).at(PublishStep::Done),
            final(table)@ =~= old(table)@.released(old(self).step->Notify_0),
    {
        self.advance(table);
        self.advance(table);
        if let PublishStep::Drop(_) = self.step {
            // Drop the value and give the slot back.
            self.advance(table);
            self.advance(table);
            self.advance(table);
            self.advance(table);
        }
    }
}

} // verus!
