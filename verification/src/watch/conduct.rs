//! What a step of a task may do to the cells that it shares with others, whatever they do in between.

use crate::watch::frees::{AllocStep, Allocating, FreeStep, Freeing};
use crate::watch::lend::{
    BorrowStep, Borrowing, ReleaseStep, Releasing, RetainStep, Retaining,
};
use crate::watch::publish::{PublishStep, Publishing};
use crate::watch::table::{Cells, ROW};
use vstd::prelude::*;

verus! {

/// Whether no slot but `slot` is affected, nor which value is the latest one.
pub open spec fn touches<T>(c: Cells<T>, after: Cells<T>, slot: usize) -> bool {
    &&& after.latest == c.latest
    &&& after.closed == c.closed
    &&& after.slots.len() == c.slots.len()
    &&& forall|other: usize|
        c.has(other) && other != slot ==> #[trigger] after.slot(other) == c.slot(other)
}

/// A slot is retained if and only if it was counted once more while somebody held it, and it is given up
/// only where nobody did.
pub proof fn law_retain_counts<T>(task: Retaining, c: Cells<T>)
    requires
        task.ready(c),
    ensures
        ({
            let (then, after) = task.next(c);
            let slot = task.slot;
            &&& then.slot == slot
            &&& touches(c, after, slot)
            &&& after.head == c.head
            &&& after.slot(slot).value == c.slot(slot).value
            &&& after.slot(slot).version == c.slot(slot).version
            &&& then.step is Verify && !(task.step is Verify) ==> {
                &&& c.slot(slot).refs > 0
                &&& after.slot(slot).refs == c.slot(slot).refs + 1
            }
            &&& !(then.step is Verify) ==> after == c
            &&& then.step == RetainStep::Done(true) ==> {
                task.step is Verify || task.step == RetainStep::Done(true)
            }
            &&& then.step == RetainStep::Done(false) ==> {
                task.step == RetainStep::Exchange(0) || task.step == RetainStep::Done(false)
            }
        }),
{
}

/// A borrow is of the value that was the latest one when it was looked for. It is told that the value has
/// changed if and only if it has another version than the one that was seen.
pub proof fn law_borrow_tells<T>(task: Borrowing, c: Cells<T>)
    requires
        task.ready(c),
        !(task.step is Done),
    ensures
        ({
            let (then, after) = task.next(c);
            &&& then.seen == task.seen
            &&& task.step is Load ==> {
                &&& then.step matches BorrowStep::Retain(closed, retaining)
                &&& closed == c.closed
                &&& retaining.slot == c.latest
                &&& retaining.step is Load
                &&& after == c
            }
            &&& then.step matches BorrowStep::Done(slot, closed, changed) ==> {
                &&& task.step == BorrowStep::Compare(slot, closed)
                &&& changed <==> task.seen.0 != c.slot(slot).version.0
                &&& after == c
            }
            &&& then.step matches BorrowStep::Compare(slot, closed) ==> {
                &&& task.step matches BorrowStep::Retain(was, retaining)
                &&& was == closed
                &&& retaining.slot == slot
                &&& retaining.step is Verify || retaining.step == RetainStep::Done(true)
            }
            &&& then.step is Load ==> {
                &&& task.step matches BorrowStep::Retain(_, retaining)
                &&& retaining.step == RetainStep::Exchange(0) || retaining.step
                    == RetainStep::Done(false)
            }
        }),
{
}

/// A release takes one off the count. The value is dropped and its slot is free if and only if nobody holds
/// it any longer.
pub proof fn law_release_counts<T>(task: Releasing, c: Cells<T>)
    requires
        task.ready(c),
    ensures
        ({
            let (then, after) = task.next(c);
            let slot = task.slot;
            &&& then.slot == slot
            &&& task.step is Sub ==> {
                &&& touches(c, after, slot)
                &&& after.slot(slot).refs + 1 == c.slot(slot).refs
                &&& after.slot(slot).value == c.slot(slot).value
                &&& after.slot(slot).version == c.slot(slot).version
                &&& then.step is Drop <==> after.slot(slot).refs == 0
                &&& then.step is Done <==> after.slot(slot).refs > 0
            }
            &&& task.step is Drop ==> {
                &&& touches(c, after, slot)
                &&& after.slot(slot).value is None
                &&& after.slot(slot).refs == c.slot(slot).refs
                &&& then.step matches ReleaseStep::Free(freeing)
                &&& freeing.head == slot && freeing.tail == slot && freeing.step is Load
            }
            &&& task.step matches ReleaseStep::Free(freeing) ==> {
                !(freeing.step is Done) && then.step is Done ==> after.head == Some(freeing.head)
            }
        }),
{
}

/// A chain of slots is free once its first slot is on top, and its last one leads to what was on top before.
pub proof fn law_free_slots_are_linked<T>(task: Freeing, c: Cells<T>)
    requires
        task.ready(c),
        !(task.step is Done),
    ensures
        ({
            let (then, after) = task.next(c);
            &&& then.head == task.head
            &&& then.tail == task.tail
            &&& touches(c, after, task.tail)
            &&& after.slot(task.tail).value == c.slot(task.tail).value
            &&& after.slot(task.tail).refs == c.slot(task.tail).refs
            &&& then.step is Done ==> {
                &&& after.head == Some(task.head)
                &&& task.step == FreeStep::Exchange(c.head)
                &&& after.slots == c.slots
            }
            &&& !(then.step is Done) ==> after.head == c.head
            &&& then.step matches FreeStep::Exchange(top) ==> after.slot(task.tail).frees == top
            &&& then.step matches FreeStep::Link(top) ==> top == c.head
        }),
{
}

/// A slot is taken if and only if it was the free one on top, or is the first one of a row that was made
/// because none was free.
pub proof fn law_taken_slot_was_free<T>(task: Allocating, c: Cells<T>)
    requires
        task.ready(c),
    ensures
        ({
            let (then, after) = task.next(c);
            &&& after.latest == c.latest
            &&& after.closed == c.closed
            &&& then.step matches AllocStep::Clear(slot) ==> {
                &&& task.step matches AllocStep::Exchange(top, next)
                &&& top == slot
                &&& c.head == Some(slot)
                &&& after.head == next
            }
            &&& then.step matches AllocStep::Exchange(slot, next) ==> {
                &&& task.step == AllocStep::Next(slot)
                &&& next == c.slot(slot).frees
                &&& after == c
            }
            &&& then.step is Grow ==> c.head is None && after == c
            &&& then.step matches AllocStep::Next(slot) ==> c.head == Some(slot) && after == c
            &&& task.step is Grow ==> {
                &&& after.slots.len() == c.slots.len() + ROW
                &&& after.head == c.head
                &&& forall|slot: usize|
                    c.has(slot) ==> #[trigger] after.slot(slot) == c.slot(slot)
                &&& then.step matches AllocStep::Free(slot, freeing)
                &&& slot == c.slots.len()
                &&& freeing.head == c.slots.len() + 1
                &&& freeing.tail == c.slots.len() + ROW - 1
            }
            &&& !(task.step is Grow) ==> after.slots.len() == c.slots.len()
        }),
{
}

/// A value that is published is stored in the slot that was taken for it, has the version after that of the
/// value which it replaces, and replaces no other one. Nothing is replaced in a channel that is closed.
pub proof fn law_publish_replaces<T>(task: Publishing<T>, c: Cells<T>)
    requires
        task.ready(c),
    ensures
        ({
            let (then, after) = task.next(c);
            &&& task.step matches PublishStep::Write(slot) ==> {
                &&& touches(c, after, slot)
                &&& after.slot(slot).value == task.value
            }
            &&& task.step matches PublishStep::Hold(slot) ==> {
                &&& touches(c, after, slot)
                &&& after.slot(slot).refs == 1
                &&& after.slot(slot).value == c.slot(slot).value
            }
            &&& task.step matches PublishStep::Read(slot, latest) ==> {
                &&& after == c
                &&& then.step matches PublishStep::Stamp(same, follows, version)
                &&& same == slot && follows == latest
                &&& version.0 == c.slot(latest).version.0 + 1
            }
            &&& task.step matches PublishStep::Stamp(slot, latest, version) ==> {
                &&& touches(c, after, slot)
                &&& after.slot(slot).version == version
                &&& after.slot(slot).value == c.slot(slot).value
                &&& after.slot(slot).refs == c.slot(slot).refs
                &&& then.step == PublishStep::Exchange(slot, latest, version)
            }
            &&& after.latest != c.latest ==> {
                &&& task.step matches PublishStep::Exchange(slot, latest, _)
                &&& c.latest == latest
                &&& after.latest == slot
                &&& !c.closed
                &&& after.slots == c.slots
                &&& then.step is Replace
            }
            &&& then.step is Replace && !(task.step is Replace) ==> {
                &&& task.step matches PublishStep::Exchange(slot, latest, _)
                &&& c.latest == latest && !c.closed
                &&& after.latest == slot
            }
            &&& after.closed == c.closed
            &&& then.step is Notify ==> task.step is Replace
            &&& task.step is Notify ==> then.step is Drop && after == c
            &&& then.step is Done ==> task.step is Drop || task.step is Done
        }),
{
}

/// A value on its way keeps its slot. Where another value has become the latest one in the meantime, that
/// one is borrowed in place of the one before, which is given back, and is the one to follow.
pub proof fn law_publish_follows_later_value<T>(task: Publishing<T>, c: Cells<T>)
    requires
        task.ready(c),
    ensures
        ({
            let (then, after) = task.next(c);
            &&& task.step matches PublishStep::Exchange(slot, latest, version) ==> {
                c.latest != latest || c.closed ==> {
                    &&& after == c
                    &&& then.step matches PublishStep::Retain(same, before, stamp, retaining)
                    &&& same == slot && before == latest && stamp == version
                    &&& retaining.slot == c.latest
                    &&& retaining.version == version
                    &&& retaining.step is Load
                }
            }
            &&& task.step matches PublishStep::Retain(slot, latest, version, retaining) ==> {
                match then.step {
                    PublishStep::Retain(same, before, stamp, _) => same == slot && before == latest
                        && stamp == version,
                    PublishStep::Follow(same, later, releasing) => {
                        &&& same == slot
                        &&& later == retaining.slot
                        &&& releasing.slot == latest
                        &&& releasing.step is Sub
                        &&& retaining.step is Verify || retaining.step == RetainStep::Done(true)
                    },
                    PublishStep::Reload(same, before, borrowing) => {
                        &&& same == slot
                        &&& before == latest
                        &&& borrowing.step is Load
                        &&& borrowing.seen == version
                    },
                    _ => false,
                }
            }
            &&& task.step matches PublishStep::Reload(slot, latest, borrowing) ==> {
                match then.step {
                    PublishStep::Reload(same, before, _) => same == slot && before == latest,
                    PublishStep::Follow(same, later, releasing) => {
                        &&& same == slot
                        &&& releasing.slot == latest
                        &&& releasing.step is Sub
                        &&& borrowing.step matches BorrowStep::Compare(borrowed, _) ==> borrowed
                            == later
                    },
                    _ => false,
                }
            }
            &&& task.step matches PublishStep::Follow(slot, latest, _) ==> {
                match then.step {
                    PublishStep::Follow(same, later, _) => same == slot && later == latest,
                    PublishStep::Read(same, later) => same == slot && later == latest,
                    _ => false,
                }
            }
            &&& task.step matches PublishStep::Latest(slot, borrowing) ==> {
                match then.step {
                    PublishStep::Latest(same, _) => same == slot,
                    PublishStep::Read(same, later) => {
                        &&& same == slot
                        &&& borrowing.step matches BorrowStep::Compare(borrowed, _) ==> borrowed
                            == later
                    },
                    _ => false,
                }
            }
            &&& task.step matches PublishStep::Hold(slot) ==> {
                then.step matches PublishStep::Latest(same, borrowing) && same == slot
                    && borrowing.step is Load
            }
            &&& task.step matches PublishStep::Write(slot) ==> then.step == PublishStep::Hold(slot)
            &&& task.step matches PublishStep::Alloc(allocating) ==> {
                then.step matches PublishStep::Write(slot) ==> {
                    ||| allocating.step == AllocStep::Clear(slot)
                    ||| allocating.step == AllocStep::Done(slot)
                    ||| (allocating.step matches AllocStep::Free(first, _) && first == slot)
                }
            }
            &&& task.step matches PublishStep::Replace(latest, _) ==> {
                match then.step {
                    PublishStep::Replace(same, _) => same == latest,
                    PublishStep::Notify(same) => same == latest,
                    _ => false,
                }
            }
            &&& task.step matches PublishStep::Notify(latest) ==> {
                then.step matches PublishStep::Drop(releasing) && releasing.slot == latest
                    && releasing.step is Sub
            }
            &&& task.step is Drop ==> then.step is Drop || then.step is Done
        }),
{
}

} // verus!
