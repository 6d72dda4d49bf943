//! The slots of a channel with all tasks that are on their way, whose steps may come in any order.
//!
//! Values are published one at a time; any number of values are borrowed and given back meanwhile.

use crate::watch::frees::{AllocStep, Allocating, FreeStep, Freeing};
use crate::watch::lend::{
    BorrowStep, Borrowing, ReleaseStep, Releasing, RetainStep, Retaining,
};
use crate::watch::publish::{PublishStep, Publishing};
use crate::watch::table::{Cells, Table, Version, ROW};
use vstd::prelude::*;

verus! {

/// One or none.
pub open spec fn once(holds: bool) -> nat {
    if holds {
        1
    } else {
        0
    }
}

impl Retaining {
    /// How often the task holds `slot`.
    pub open spec fn holds(self, slot: usize) -> nat {
        once(self.slot == slot && (self.step is Verify || self.step == RetainStep::Done(true)))
    }

    /// What is always so of a retain.
    pub open spec fn ok<T>(self, c: Cells<T>) -> bool {
        &&& c.has(self.slot)
        &&& self.version.0 <= c.slot(self.slot).version.0
        &&& !(self.step is Done)
        &&& self.step matches RetainStep::Exchange(refs) ==> refs < usize::MAX
    }
}

impl Borrowing {
    /// How often the task holds `slot`.
    pub open spec fn holds(self, slot: usize) -> nat {
        match self.step {
            BorrowStep::Load => 0,
            BorrowStep::Retain(_, retaining) => retaining.holds(slot),
            BorrowStep::Compare(held, _) | BorrowStep::Done(held, _, _) => once(held == slot),
        }
    }

    /// What is always so of a borrow.
    pub open spec fn ok<T>(self, c: Cells<T>) -> bool {
        &&& self.seen.0 <= c.slot(c.latest).version.0
        &&& match self.step {
            BorrowStep::Load => true,
            BorrowStep::Retain(_, retaining) => {
                retaining.ok(c) && retaining.version == self.seen
            },
            BorrowStep::Compare(held, _) | BorrowStep::Done(held, _, _) => {
                c.has(held) && self.seen.0 <= c.slot(held).version.0
            },
        }
    }

    /// The slot that is about to be borrowed, or was.
    pub open spec fn target(self) -> Option<usize> {
        match self.step {
            BorrowStep::Load => None,
            BorrowStep::Retain(_, retaining) => Some(retaining.slot),
            BorrowStep::Compare(held, _) | BorrowStep::Done(held, _, _) => Some(held),
        }
    }
}

impl Freeing {
    /// What is always so of a chain on its way to the free slots.
    pub open spec fn ok<T>(self, c: Cells<T>) -> bool {
        &&& c.has(self.head)
        &&& c.has(self.tail)
        &&& match self.step {
            FreeStep::Load => true,
            FreeStep::Link(top) => top matches Some(top) ==> c.has(top),
            FreeStep::Exchange(top) => c.slot(self.tail).frees == top,
            FreeStep::Done => false,
        }
    }
}

impl Releasing {
    /// How often the task holds `slot`.
    pub open spec fn holds(self, slot: usize) -> nat {
        once(self.slot == slot && self.step is Sub)
    }

    /// Whether the task has `slot` to itself.
    pub open spec fn owns(self, slot: usize) -> bool {
        self.slot == slot && (self.step is Drop || self.step is Free)
    }

    /// What is always so of a release.
    pub open spec fn ok<T>(self, c: Cells<T>) -> bool {
        &&& c.has(self.slot)
        &&& self.step matches ReleaseStep::Free(freeing) ==> {
            freeing.head == self.slot && freeing.tail == self.slot && freeing.ok(c)
        }
    }
}

impl Allocating {
    /// Whether the task has `slot` to itself.
    pub open spec fn owns(self, slot: usize) -> bool {
        match self.step {
            AllocStep::Clear(taken) | AllocStep::Done(taken) => taken == slot,
            AllocStep::Free(taken, freeing) => taken == slot || freeing.head <= slot
                <= freeing.tail,
            _ => false,
        }
    }

    /// Whether the slots of a row are linked up to the one at `tail`.
    pub open spec fn strung<T>(c: Cells<T>, head: usize, tail: usize) -> bool {
        forall|slot: usize|
            head <= slot < tail ==> (#[trigger] c.slot(slot)).frees == Some((slot + 1) as usize)
    }

    /// What is always so of an allocation, given the free slots.
    pub open spec fn ok<T>(self, c: Cells<T>, frees: Seq<usize>) -> bool {
        match self.step {
            AllocStep::Load | AllocStep::Grow => true,
            AllocStep::Next(slot) => frees.contains(slot),
            AllocStep::Exchange(slot, next) => frees.contains(slot) && c.slot(slot).frees == next,
            AllocStep::Clear(slot) => c.has(slot),
            AllocStep::Free(slot, freeing) => {
                &&& freeing.head == slot + 1
                &&& freeing.tail == slot + ROW - 1
                &&& freeing.ok(c)
                &&& Allocating::strung(c, freeing.head, freeing.tail)
            },
            AllocStep::Done(_) => false,
        }
    }
}

impl<T> Publishing<T> {
    /// How often the task holds `slot`.
    pub open spec fn holds(self, slot: usize) -> nat {
        match self.step {
            PublishStep::Latest(new, borrowing) => once(new == slot) + borrowing.holds(slot),
            PublishStep::Read(new, latest)
            | PublishStep::Stamp(new, latest, _)
            | PublishStep::Exchange(new, latest, _) => once(new == slot) + once(latest == slot),
            PublishStep::Replace(latest, releasing) => once(latest == slot) + releasing.holds(slot),
            PublishStep::Notify(latest) => once(latest == slot),
            PublishStep::Drop(releasing) => releasing.holds(slot),
            _ => 0,
        }
    }

    /// Whether the task has `slot` to itself.
    pub open spec fn owns(self, slot: usize) -> bool {
        match self.step {
            PublishStep::Alloc(allocating) => allocating.owns(slot),
            PublishStep::Write(new) | PublishStep::Hold(new) => new == slot,
            PublishStep::Drop(releasing) => releasing.owns(slot),
            _ => false,
        }
    }

    /// What is always so of a value on its way, given the free slots. Nobody else publishes.
    pub open spec fn ok(self, c: Cells<T>, frees: Seq<usize>) -> bool {
        match self.step {
            PublishStep::Alloc(allocating) => self.value is Some && allocating.ok(c, frees),
            PublishStep::Write(new) => self.value is Some && c.has(new),
            PublishStep::Hold(new) => c.has(new) && c.slot(new).value is Some,
            PublishStep::Latest(new, borrowing) => {
                &&& c.has(new)
                &&& new != c.latest
                &&& borrowing.ok(c)
                &&& !(borrowing.step is Done)
                &&& borrowing.target() matches Some(target) ==> target == c.latest
            },
            PublishStep::Read(new, latest) => {
                c.has(new) && new != c.latest && latest == c.latest
            },
            PublishStep::Stamp(new, latest, version) => {
                &&& c.has(new)
                &&& new != c.latest
                &&& latest == c.latest
                &&& version.0 == c.slot(latest).version.0 + 1
            },
            PublishStep::Exchange(new, latest, version) => {
                &&& c.has(new)
                &&& new != c.latest
                &&& latest == c.latest
                &&& version.0 == c.slot(latest).version.0 + 1
                &&& c.slot(new).version == version
            },
            PublishStep::Retain(_, _, _, _)
            | PublishStep::Reload(_, _, _)
            | PublishStep::Follow(_, _, _) => false,
            PublishStep::Replace(latest, releasing) => {
                &&& releasing.ok(c)
                &&& releasing.slot == latest
                &&& releasing.step is Sub
                &&& latest != c.latest
            },
            PublishStep::Notify(latest) => c.has(latest) && latest != c.latest,
            PublishStep::Drop(releasing) => {
                &&& releasing.ok(c)
                &&& !(releasing.step is Done)
                &&& releasing.slot != c.latest
            },
            PublishStep::Done => true,
        }
    }

    /// Whether the value is on its way.
    pub open spec fn publishing(self) -> bool {
        !(self.step is Done)
    }

    /// By how much the version of `slot` may be ahead of that of the latest value.
    pub open spec fn ahead(self, slot: usize) -> nat {
        match self.step {
            PublishStep::Exchange(new, _, _) => once(new == slot),
            _ => 0,
        }
    }
}

/// A task of a [Machine].
pub enum Task<T> {
    /// No task.
    Free,
    /// A borrow. Once it is done, somebody has a reference to the value.
    Borrow(Borrowing),
    Release(Releasing),
    Publish(Publishing<T>),
}

impl<T> Task<T> {
    /// How often the task holds `slot`.
    pub open spec fn holds(self, slot: usize) -> nat {
        match self {
            Task::Free => 0,
            Task::Borrow(task) => task.holds(slot),
            Task::Release(task) => task.holds(slot),
            Task::Publish(task) => task.holds(slot),
        }
    }

    /// Whether the task has `slot` to itself.
    pub open spec fn owns(self, slot: usize) -> bool {
        match self {
            Task::Release(task) => task.owns(slot),
            Task::Publish(task) => task.owns(slot),
            _ => false,
        }
    }

    /// Whether a value is on its way.
    pub open spec fn publishes(self) -> bool {
        self matches Task::Publish(task) && task.publishing()
    }

    /// By how much the version of `slot` may be ahead of that of the latest value.
    pub open spec fn ahead(self, slot: usize) -> nat {
        match self {
            Task::Publish(task) => task.ahead(slot),
            _ => 0,
        }
    }

    /// What is always so of a task.
    pub open spec fn ok(self, c: Cells<T>, frees: Seq<usize>) -> bool {
        match self {
            Task::Free => true,
            Task::Borrow(task) => task.ok(c),
            Task::Release(task) => task.ok(c),
            Task::Publish(task) => task.ok(c, frees),
        }
    }

    /// Whether the next step can be made.
    pub open spec fn ready(self, c: Cells<T>) -> bool {
        match self {
            Task::Free => true,
            Task::Borrow(task) => task.ready(c),
            Task::Release(task) => task.ready(c),
            Task::Publish(task) => task.ready(c),
        }
    }

    /// What the next step makes of the task and of the cells.
    pub open spec fn next(self, c: Cells<T>) -> (Self, Cells<T>) {
        match self {
            Task::Free => (self, c),
            Task::Borrow(task) => (Task::Borrow(task.next(c).0), task.next(c).1),
            Task::Release(task) => (Task::Release(task.next(c).0), task.next(c).1),
            Task::Publish(task) => (Task::Publish(task.next(c).0), task.next(c).1),
        }
    }

    /// The free slots after the next step.
    pub open spec fn then_frees(self, c: Cells<T>, frees: Seq<usize>) -> Seq<usize> {
        let freeing = match self {
            Task::Release(Releasing { step: ReleaseStep::Free(freeing), .. }) => Some(freeing),
            Task::Publish(Publishing { step: PublishStep::Drop(releasing), .. }) => match releasing.step {
                ReleaseStep::Free(freeing) => Some(freeing),
                _ => None,
            },
            Task::Publish(Publishing { step: PublishStep::Alloc(allocating), .. }) => match allocating.step {
                AllocStep::Free(_, freeing) => Some(freeing),
                _ => None,
            },
            _ => None,
        };
        match freeing {
            Some(freeing) => if freeing.step == FreeStep::Exchange(c.head) {
                Seq::new(
                    (freeing.tail - freeing.head + 1) as nat,
                    |i: int| (freeing.head + i) as usize,
                ) + frees
            } else {
                frees
            },
            None => match self {
                Task::Publish(Publishing { step: PublishStep::Alloc(allocating), .. }) => match allocating.step {
                    AllocStep::Exchange(slot, _) => if c.head == Some(slot) {
                        frees.drop_first()
                    } else {
                        frees
                    },
                    _ => frees,
                },
                _ => frees,
            },
        }
    }
}

/// How often tasks hold `slot`.
pub open spec fn count<T>(tasks: Seq<Task<T>>, slot: usize) -> nat
    decreases tasks.len(),
{
    if tasks.len() == 0 {
        0
    } else {
        count(tasks.drop_last(), slot) + tasks.last().holds(slot)
    }
}

/// Whether the free slots are linked one to the next.
pub open spec fn chained<T>(c: Cells<T>, frees: Seq<usize>, i: int) -> bool {
    &&& c.has(frees[i])
    &&& c.slot(frees[i]).refs == 0
    &&& c.slot(frees[i]).frees == if i + 1 < frees.len() {
        Some(frees[i + 1])
    } else {
        None
    }
}

/// What is always so of the free slots.
pub open spec fn frees_ok<T>(c: Cells<T>, frees: Seq<usize>) -> bool {
    &&& frees.no_duplicates()
    &&& c.head == if frees.len() > 0 {
        Some(frees[0])
    } else {
        None
    }
    &&& forall|i: int| 0 <= i < frees.len() ==> #[trigger] chained(c, frees, i)
}

/// How often the channel itself holds `slot`.
pub open spec fn held<T>(c: Cells<T>, slot: usize) -> nat {
    once(c.latest == slot)
}

/// What is always so of `slot`: whoever holds it is counted, and a value that is held is there.
pub open spec fn slot_ok<T>(c: Cells<T>, tasks: Seq<Task<T>>, slot: usize) -> bool {
    &&& c.slot(slot).refs == held(c, slot) + count(tasks, slot)
    &&& c.slot(slot).refs > 0 ==> c.slot(slot).value is Some
}

/// What is so of a slot that a task has to itself.
pub open spec fn private<T>(c: Cells<T>, frees: Seq<usize>, slot: usize) -> bool {
    &&& c.has(slot)
    &&& c.slot(slot).refs == 0
    &&& !frees.contains(slot)
}

/// What is so of the slots of a task.
pub open spec fn owner_ok<T>(task: Task<T>, c: Cells<T>, frees: Seq<usize>) -> bool {
    forall|slot: usize| #[trigger] task.owns(slot) ==> private(c, frees, slot)
}

/// No two tasks have the same slot to themselves.
pub open spec fn apart<T>(one: Task<T>, other: Task<T>) -> bool {
    forall|slot: usize| !(#[trigger] one.owns(slot) && other.owns(slot))
}

/// Whether some task has `slot` to itself.
pub open spec fn owned<T>(tasks: Seq<Task<T>>, slot: usize) -> bool {
    exists|i: int| 0 <= i < tasks.len() && (#[trigger] tasks[i]).owns(slot)
}

/// By how much the version of `slot` may be ahead of that of the latest value.
pub open spec fn ahead<T>(tasks: Seq<Task<T>>, publisher: Option<int>, slot: usize) -> nat {
    match publisher {
        Some(publisher) => tasks[publisher].ahead(slot),
        None => 0,
    }
}

/// What is so of the cells and of the tasks on them after any steps in any order.
pub open spec fn sound<T>(
    c: Cells<T>,
    tasks: Seq<Task<T>>,
    frees: Seq<usize>,
    publisher: Option<int>,
) -> bool {
    &&& c.slots.len() <= usize::MAX / 2
    &&& c.has(c.latest)
    &&& frees_ok(c, frees)
    // Whoever holds a slot is counted.
    &&& forall|slot: usize| c.has(slot) ==> #[trigger] slot_ok(c, tasks, slot)
    // No slot is lost: one that nobody holds is free or with a task.
    &&& forall|slot: usize|
        c.has(slot) && (#[trigger] c.slot(slot)).refs == 0 ==> frees.contains(slot) || owned(
            tasks,
            slot,
        )
    // Versions do not run ahead.
    &&& forall|slot: usize|
        c.has(slot) ==> (#[trigger] c.slot(slot)).version.0 <= c.slot(c.latest).version.0 + ahead(
            tasks,
            publisher,
            slot,
        )
    &&& forall|i: int| 0 <= i < tasks.len() ==> #[trigger] tasks[i].ok(c, frees)
    &&& forall|i: int| 0 <= i < tasks.len() ==> #[trigger] owner_ok(tasks[i], c, frees)
    &&& forall|i: int, j: int|
        0 <= i < tasks.len() && 0 <= j < tasks.len() && i != j ==> #[trigger] apart(
            tasks[i],
            tasks[j],
        )
    // Values are published one at a time.
    &&& publisher matches Some(i) ==> 0 <= i < tasks.len() && tasks[i] is Publish && !c.closed
    &&& forall|i: int|
        0 <= i < tasks.len() && (#[trigger] tasks[i]).publishes() ==> publisher == Some(i)
}

/// The count of `slot`, which is zero as long as there is no such slot.
pub open spec fn refs_at<T>(c: Cells<T>, slot: usize) -> nat {
    if c.has(slot) {
        c.slot(slot).refs as nat
    } else {
        0
    }
}

/// What a task finds of the cells as far as it is concerned.
pub open spec fn seated<T>(task: Task<T>, c: Cells<T>, frees: Seq<usize>) -> bool {
    &&& c.slots.len() <= usize::MAX / 2
    &&& c.has(c.latest)
    &&& frees_ok(c, frees)
    &&& task.ok(c, frees)
    &&& owner_ok(task, c, frees)
    &&& task.publishes() ==> !c.closed
    &&& forall|slot: usize|
        c.has(slot) ==> (#[trigger] c.slot(slot)).refs >= held(c, slot) + task.holds(slot)
    &&& forall|slot: usize|
        c.has(slot) && (#[trigger] c.slot(slot)).refs > 0 ==> c.slot(slot).value is Some
    &&& task.publishes() ==> forall|slot: usize|
        c.has(slot) ==> (#[trigger] c.slot(slot)).version.0 <= c.slot(c.latest).version.0
            + task.ahead(slot)
}

/// Whether the machine has room for one more of everything.
pub open spec fn roomy<T>(c: Cells<T>) -> bool {
    &&& c.slots.len() + ROW <= usize::MAX / 2
    &&& c.slot(c.latest).version.0 < u64::MAX
    &&& forall|slot: usize| c.has(slot) ==> (#[trigger] c.slot(slot)).refs < usize::MAX
}

/// What others see of `slot` by a step of a task that does not have it to itself: its count, and later
/// versions.
pub open spec fn beheld<T>(c: Cells<T>, c2: Cells<T>, slot: usize) -> bool {
    &&& c2.slot(slot).frees == c.slot(slot).frees
    &&& c2.slot(slot).value == c.slot(slot).value
}

/// What a step makes of `slot`.
pub open spec fn moved<T>(
    task: Task<T>,
    c: Cells<T>,
    frees: Seq<usize>,
    then: Task<T>,
    c2: Cells<T>,
    frees2: Seq<usize>,
    slot: usize,
) -> bool {
    // Who holds it is counted.
    &&& c2.slot(slot).refs + task.holds(slot) + held(c, slot) == refs_at(c, slot) + then.holds(slot)
        + held(c2, slot)
    &&& c2.slot(slot).refs > 0 ==> c2.slot(slot).value is Some
    // It is not lost.
    &&& c2.slot(slot).refs == 0 && !frees2.contains(slot) && !then.owns(slot) ==> {
        &&& c.has(slot)
        &&& c.slot(slot).refs == 0
        &&& !frees.contains(slot)
        &&& !task.owns(slot)
    }
    // It is not taken away from anybody.
    &&& then.owns(slot) && !task.owns(slot) ==> {
        ||| !c.has(slot)
        ||| frees.contains(slot)
        ||| c.slot(slot).refs > 0
    }
    &&& c.has(slot) && c.slot(slot).refs == 0 && !frees.contains(slot) && !task.owns(slot) ==> {
        &&& c2.slot(slot).refs == 0
        &&& !frees2.contains(slot)
    }
    &&& c.has(slot) && !task.owns(slot) ==> beheld(c, c2, slot)
    &&& c.has(slot) ==> c.slot(slot).version.0 <= c2.slot(slot).version.0
    &&& c.has(slot) && !task.publishes() ==> {
        &&& c2.slot(slot).version == c.slot(slot).version
        &&& frees.contains(slot) ==> frees2.contains(slot)
    }
}

/// What a step of a task makes of the cells.
pub open spec fn advanced<T>(
    task: Task<T>,
    c: Cells<T>,
    frees: Seq<usize>,
    then: Task<T>,
    c2: Cells<T>,
    frees2: Seq<usize>,
) -> bool {
    &&& c.slots.len() <= c2.slots.len() <= usize::MAX / 2
    &&& c2.has(c2.latest)
    &&& c2.closed == c.closed
    &&& frees_ok(c2, frees2)
    &&& then.ok(c2, frees2)
    &&& owner_ok(then, c2, frees2)
    &&& c.slot(c.latest).version.0 <= c2.slot(c2.latest).version.0
    &&& !task.publishes() ==> c2.latest == c.latest && c2.slots.len() == c.slots.len()
        && !then.publishes()
    &&& forall|slot: usize|
        c2.has(slot) ==> #[trigger] moved(task, c, frees, then, c2, frees2, slot)
    &&& task.publishes() ==> forall|slot: usize|
        c2.has(slot) ==> (#[trigger] c2.slot(slot)).version.0 <= c2.slot(c2.latest).version.0
            + then.ahead(slot)
}

/// A step of a borrow.
proof fn lemma_borrow<T>(task: Borrowing, c: Cells<T>, frees: Seq<usize>)
    requires
        seated(Task::<T>::Borrow(task), c, frees),
        roomy(c),
    ensures
        task.ready(c),
        advanced(
            Task::<T>::Borrow(task),
            c,
            frees,
            Task::<T>::Borrow(task.next(c).0),
            task.next(c).1,
            frees,
        ),
{
    let (then, c2) = task.next(c);
    assert forall|i: int| 0 <= i < frees.len() implies #[trigger] chained(c2, frees, i) by {
        assert(chained(c, frees, i));
    }
    assert forall|slot: usize| c2.has(slot) implies #[trigger] moved(
        Task::<T>::Borrow(task),
        c,
        frees,
        Task::<T>::Borrow(then),
        c2,
        frees,
        slot,
    ) by {
        assert(c.slot(slot).refs >= held(c, slot));
    }
}

/// A step of a release.
proof fn lemma_release<T>(task: Releasing, c: Cells<T>, frees: Seq<usize>)
    requires
        seated(Task::<T>::Release(task), c, frees),
    ensures
        task.ready(c),
        advanced(
            Task::<T>::Release(task),
            c,
            frees,
            Task::<T>::Release(task.next(c).0),
            task.next(c).1,
            Task::<T>::Release(task).then_frees(c, frees),
        ),
{
    let (then, c2) = task.next(c);
    let old_task = Task::<T>::Release(task);
    let new_task = Task::<T>::Release(then);
    let frees2 = old_task.then_frees(c, frees);
    assert(c.slot(task.slot).refs >= old_task.holds(task.slot));
    assert(task.owns(task.slot) ==> old_task.owns(task.slot));
    if frees.len() > 0 {
        assert(chained(c, frees, 0));
    }
    assert forall|i: int| 0 <= i < frees.len() implies frees[i] != task.slot || task.step is Sub && c.slot(
        task.slot,
    ).refs == 0 || task.step is Done by {
        assert(chained(c, frees, i));
        assert(frees.contains(frees[i]));
    }
    assert forall|i: int| 0 <= i < frees2.len() implies #[trigger] chained(c2, frees2, i) by {
        if frees2.len() == frees.len() {
            assert(frees2 == frees);
            assert(chained(c, frees, i));
        } else if i > 0 {
            assert(chained(c, frees, i - 1));
        }
    }
    assert forall|slot: usize| c2.has(slot) implies #[trigger] moved(
        old_task,
        c,
        frees,
        new_task,
        c2,
        frees2,
        slot,
    ) by {
        assert(c.slot(slot).refs >= held(c, slot) + old_task.holds(slot));
        if frees2 != frees {
            assert(frees2[0] == task.slot);
            if frees.contains(slot) {
                assert(frees2[frees.index_of(slot) + 1] == slot);
            }
            if frees2.contains(slot) && slot != task.slot {
                assert(frees[frees2.index_of(slot) - 1] == slot);
            }
        }
    }
}

/// What was so of a slot and of a free slot before a step, for whoever looks at it after the step.
proof fn lemma_around<T>(task: Task<T>, c: Cells<T>, frees: Seq<usize>, c2: Cells<T>)
    requires
        seated(task, c, frees),
        task.publishes(),
    ensures
        forall|i: int|
            #![trigger chained(c2, frees, i)]
            0 <= i < frees.len() ==> chained(c, frees, i) && frees.contains(frees[i]),
        forall|slot: usize|
            #![trigger c2.slot(slot)]
            c.has(slot) ==> {
                &&& c.slot(slot).refs >= held(c, slot) + task.holds(slot)
                &&& c.slot(slot).version.0 <= c.slot(c.latest).version.0 + task.ahead(slot)
            },
{
}

/// The step of an allocation that takes the free slot on top.
proof fn lemma_alloc_exchange<T>(task: Publishing<T>, c: Cells<T>, frees: Seq<usize>)
    requires
        seated(Task::Publish(task), c, frees),
        task.step is Alloc,
        task.step->Alloc_0.step is Exchange,
    ensures
        task.ready(c),
        advanced(
            Task::Publish(task),
            c,
            frees,
            Task::Publish(task.next(c).0),
            task.next(c).1,
            Task::Publish(task).then_frees(c, frees),
        ),
{
    let (then, c2) = task.next(c);
    let old_task = Task::Publish(task);
    let new_task = Task::Publish(then);
    lemma_around(old_task, c, frees, c2);
    let frees2 = old_task.then_frees(c, frees);
    let taken = task.step->Alloc_0.step->Exchange_0;
    let at = frees.index_of(taken);
    assert(chained(c, frees, at));
    if at + 1 < frees.len() {
        assert(chained(c, frees, at + 1));
    }
    assert(frees.contains(frees[0]));
    assert forall|i: int| 0 <= i < frees2.len() implies #[trigger] chained(c2, frees2, i) by {
        if c.head == Some(taken) {
            assert(chained(c, frees, i + 1));
        } else {
            assert(chained(c, frees, i));
        }
    }
    assert(chained(c, frees, 0));
    assert forall|slot: usize| frees2.contains(slot) implies frees.contains(slot) by {
        if c.head == Some(taken) {
            assert(frees[frees2.index_of(slot) + 1] == slot);
        }
    }
    if c.head == Some(taken) {
        assert(!frees2.contains(taken)) by {
            if frees2.contains(taken) {
                assert(frees[frees2.index_of(taken) + 1] == taken);
            }
        }
    }
    assert forall|slot: usize| c2.has(slot) implies #[trigger] moved(
        old_task,
        c,
        frees,
        new_task,
        c2,
        frees2,
        slot,
    ) by {
        assert(c.slot(slot).refs >= held(c, slot) + old_task.holds(slot));
        if c.head == Some(taken) && frees.contains(slot) && slot != taken {
            assert(frees2[frees.index_of(slot) - 1] == slot);
        }
    }
}

/// The step of an allocation that makes a row.
proof fn lemma_alloc_grow<T>(task: Publishing<T>, c: Cells<T>, frees: Seq<usize>)
    requires
        seated(Task::Publish(task), c, frees),
        task.step is Alloc,
        task.step->Alloc_0.step is Grow,
        roomy(c),
    ensures
        task.ready(c),
        advanced(
            Task::Publish(task),
            c,
            frees,
            Task::Publish(task.next(c).0),
            task.next(c).1,
            Task::Publish(task).then_frees(c, frees),
        ),
{
    let (then, c2) = task.next(c);
    let old_task = Task::Publish(task);
    let new_task = Task::Publish(then);
    lemma_around(old_task, c, frees, c2);
    let frees2 = old_task.then_frees(c, frees);
    assert forall|i: int| 0 <= i < frees.len() implies #[trigger] chained(c2, frees, i) by {
        assert(chained(c, frees, i));
    }
    assert forall|slot: usize| frees.contains(slot) implies c.has(slot) by {
        assert(chained(c, frees, frees.index_of(slot)));
    }
    assert forall|slot: usize| c2.has(slot) implies #[trigger] moved(
        old_task,
        c,
        frees,
        new_task,
        c2,
        frees2,
        slot,
    ) by {
        if c.has(slot) {
            assert(c.slot(slot).refs >= held(c, slot) + old_task.holds(slot));
        }
    }
}

/// A step of an allocation that gives the rest of a row back.
proof fn lemma_alloc_free<T>(task: Publishing<T>, c: Cells<T>, frees: Seq<usize>)
    requires
        seated(Task::Publish(task), c, frees),
        task.step is Alloc,
        task.step->Alloc_0.step is Free,
    ensures
        task.ready(c),
        advanced(
            Task::Publish(task),
            c,
            frees,
            Task::Publish(task.next(c).0),
            task.next(c).1,
            Task::Publish(task).then_frees(c, frees),
        ),
{
    let (then, c2) = task.next(c);
    let old_task = Task::Publish(task);
    let new_task = Task::Publish(then);
    lemma_around(old_task, c, frees, c2);
    let frees2 = old_task.then_frees(c, frees);
    let taken = task.step->Alloc_0.step->Free_0;
    let freeing = task.step->Alloc_0.step->Free_1;
    let row = Seq::new(
        (freeing.tail - freeing.head + 1) as nat,
        |i: int| (freeing.head + i) as usize,
    );
    let n = row.len() as int;
    let done = freeing.step == FreeStep::Exchange(c.head);
    assert(old_task.owns(taken));
    assert(old_task.owns(freeing.head));
    assert(old_task.owns(freeing.tail));
    assert forall|i: int| 0 <= i < frees.len() implies c.has(#[trigger] frees[i]) && !old_task.owns(
        frees[i],
    ) by {
        assert(chained(c, frees, i));
        assert(frees.contains(frees[i]));
    }
    assert forall|i: int| 0 <= i < n implies old_task.owns(#[trigger] row[i]) by {}
    assert forall|i: int| 0 <= i < frees2.len() implies #[trigger] chained(c2, frees2, i) by {
        if !done {
            assert(chained(c, frees, i));
        } else if i >= n {
            assert(chained(c, frees, i - n));
            assert(frees2[i] == frees[i - n]);
        } else {
            assert(frees2[i] == row[i]);
            assert(private(c, frees, row[i]));
            assert(c.slot(row[i]) == c2.slot(row[i]));
            if i + 1 < n {
                assert(frees2[i + 1] == row[i + 1]);
            }
        }
    }
    assert forall|slot: usize| #[trigger] frees2.contains(slot) implies frees.contains(slot) || done
        && freeing.head <= slot <= freeing.tail by {
        let i = frees2.index_of(slot);
        if done && i >= n {
            assert(frees[i - n] == slot);
        }
    }
    assert forall|slot: usize| #[trigger] frees.contains(slot) implies frees2.contains(slot) by {
        if done {
            assert(frees2[frees.index_of(slot) + n] == slot);
        }
    }
    assert forall|slot: usize| done && freeing.head <= slot <= freeing.tail implies #[trigger] frees2.contains(
        slot,
    ) by {
        assert(frees2[slot - freeing.head] == slot);
    }
    assert(frees2.no_duplicates()) by {
        assert forall|i: int, j: int|
            0 <= i < frees2.len() && 0 <= j < frees2.len() && i != j implies frees2[i]
            != frees2[j] by {
            if done {
                if i >= n {
                    assert(frees2[i] == frees[i - n]);
                }
                if j >= n {
                    assert(frees2[j] == frees[j - n]);
                }
            }
        }
    }
    assert forall|slot: usize| freeing.head <= slot < freeing.tail implies (#[trigger] c2.slot(
        slot,
    )).frees == Some((slot + 1) as usize) by {
        assert(c.slot(slot).frees == Some((slot + 1) as usize));
    }
    assert forall|slot: usize| #[trigger] new_task.owns(slot) implies private(c2, frees2, slot) by {
        assert(old_task.owns(slot));
    }
    assert forall|slot: usize| c2.has(slot) implies #[trigger] moved(
        old_task,
        c,
        frees,
        new_task,
        c2,
        frees2,
        slot,
    ) by {
        assert(c.slot(slot).refs >= held(c, slot) + old_task.holds(slot));
        assert(old_task.owns(slot) ==> private(c, frees, slot));
    }
}

/// Any other step of an allocation.
proof fn lemma_alloc<T>(task: Publishing<T>, c: Cells<T>, frees: Seq<usize>)
    requires
        seated(Task::Publish(task), c, frees),
        task.step is Alloc,
        task.step->Alloc_0.step is Load || task.step->Alloc_0.step is Next
            || task.step->Alloc_0.step is Clear,
    ensures
        task.ready(c),
        advanced(
            Task::Publish(task),
            c,
            frees,
            Task::Publish(task.next(c).0),
            task.next(c).1,
            Task::Publish(task).then_frees(c, frees),
        ),
{
    let c2 = task.next(c).1;
    let old_task = Task::Publish(task);
    lemma_around(old_task, c, frees, c2);
    if frees.len() > 0 {
        assert(chained(c, frees, 0));
        assert(frees.contains(frees[0]));
    }
    if let AllocStep::Next(slot) = task.step->Alloc_0.step {
        assert(chained(c, frees, frees.index_of(slot)));
    }
    if let AllocStep::Clear(slot) = task.step->Alloc_0.step {
        assert(old_task.owns(slot));
    }
}

/// A step that stores the value.
proof fn lemma_publish_store<T>(task: Publishing<T>, c: Cells<T>, frees: Seq<usize>)
    requires
        seated(Task::Publish(task), c, frees),
        task.step is Write || task.step is Hold,
    ensures
        task.ready(c),
        advanced(
            Task::Publish(task),
            c,
            frees,
            Task::Publish(task.next(c).0),
            task.next(c).1,
            Task::Publish(task).then_frees(c, frees),
        ),
{
    let c2 = task.next(c).1;
    let old_task = Task::Publish(task);
    lemma_around(old_task, c, frees, c2);
    let new: usize = match task.step {
        PublishStep::Write(new) => new,
        PublishStep::Hold(new) => new,
        _ => 0,
    };
    assert(old_task.owns(new));
    assert(c.slot(c.latest).refs >= held(c, c.latest));
}

/// A step that borrows the latest value.
proof fn lemma_publish_latest<T>(task: Publishing<T>, c: Cells<T>, frees: Seq<usize>)
    requires
        seated(Task::Publish(task), c, frees),
        task.step is Latest,
        roomy(c),
    ensures
        task.ready(c),
        advanced(
            Task::Publish(task),
            c,
            frees,
            Task::Publish(task.next(c).0),
            task.next(c).1,
            Task::Publish(task).then_frees(c, frees),
        ),
{
    let c2 = task.next(c).1;
    let old_task = Task::Publish(task);
    lemma_around(old_task, c, frees, c2);
    let new = task.step->Latest_0;
    assert(c.slot(new).refs >= old_task.holds(new));
    assert(c.slot(c.latest).refs >= held(c, c.latest));
}

/// A step that looks for the version.
proof fn lemma_publish_version<T>(task: Publishing<T>, c: Cells<T>, frees: Seq<usize>)
    requires
        seated(Task::Publish(task), c, frees),
        task.step is Read || task.step is Stamp,
        roomy(c),
    ensures
        task.ready(c),
        advanced(
            Task::Publish(task),
            c,
            frees,
            Task::Publish(task.next(c).0),
            task.next(c).1,
            Task::Publish(task).then_frees(c, frees),
        ),
{
    let c2 = task.next(c).1;
    let old_task = Task::Publish(task);
    lemma_around(old_task, c, frees, c2);
    let new: usize = match task.step {
        PublishStep::Read(new, _) => new,
        PublishStep::Stamp(new, _, _) => new,
        _ => 0,
    };
    assert(c.slot(new).refs >= old_task.holds(new));
    assert(c.slot(new).version.0 <= c.slot(c.latest).version.0 + old_task.ahead(new));
}

/// The step that makes the value the latest one.
proof fn lemma_publish_exchange<T>(task: Publishing<T>, c: Cells<T>, frees: Seq<usize>)
    requires
        seated(Task::Publish(task), c, frees),
        task.step is Exchange,
    ensures
        task.ready(c),
        advanced(
            Task::Publish(task),
            c,
            frees,
            Task::Publish(task.next(c).0),
            task.next(c).1,
            Task::Publish(task).then_frees(c, frees),
        ),
{
    let c2 = task.next(c).1;
    let old_task = Task::Publish(task);
    lemma_around(old_task, c, frees, c2);
    let new = task.step->Exchange_0;
    assert(c.slot(new).refs >= old_task.holds(new));
}

/// A step that lets the value before go.
proof fn lemma_publish_replace<T>(task: Publishing<T>, c: Cells<T>, frees: Seq<usize>)
    requires
        seated(Task::Publish(task), c, frees),
        task.step is Replace || task.step is Notify,
    ensures
        task.ready(c),
        advanced(
            Task::Publish(task),
            c,
            frees,
            Task::Publish(task.next(c).0),
            task.next(c).1,
            Task::Publish(task).then_frees(c, frees),
        ),
{
    let c2 = task.next(c).1;
    let old_task = Task::Publish(task);
    lemma_around(old_task, c, frees, c2);
    let latest: usize = match task.step {
        PublishStep::Replace(latest, _) => latest,
        PublishStep::Notify(latest) => latest,
        _ => 0,
    };
    assert(c.slot(latest).refs >= old_task.holds(latest));
}

/// A step that gives the value before back.
proof fn lemma_publish_drop<T>(task: Publishing<T>, c: Cells<T>, frees: Seq<usize>)
    requires
        seated(Task::Publish(task), c, frees),
        task.step is Drop,
    ensures
        task.ready(c),
        advanced(
            Task::Publish(task),
            c,
            frees,
            Task::Publish(task.next(c).0),
            task.next(c).1,
            Task::Publish(task).then_frees(c, frees),
        ),
{
    let (then, c2) = task.next(c);
    let old_task = Task::Publish(task);
    let new_task = Task::Publish(then);
    lemma_around(old_task, c, frees, c2);
    let frees2 = old_task.then_frees(c, frees);
    let releasing = task.step->Drop_0;
    let mine = releasing.slot;
    if frees.len() > 0 {
        assert(chained(c, frees, 0));
    }
    assert(c.slot(mine).refs >= old_task.holds(mine));
    assert(releasing.owns(mine) ==> old_task.owns(mine));
    assert forall|i: int| 0 <= i < frees.len() implies c.slot(#[trigger] frees[i]).refs == 0
        && !old_task.owns(frees[i]) by {
        assert(chained(c, frees, i));
        assert(frees.contains(frees[i]));
    }
    assert forall|i: int| 0 <= i < frees2.len() implies #[trigger] chained(c2, frees2, i) by {
        if frees2.len() == frees.len() {
            assert(frees2 == frees);
            assert(chained(c, frees, i));
        } else if i > 0 {
            assert(chained(c, frees, i - 1));
        }
    }
    assert forall|slot: usize| c2.has(slot) implies #[trigger] moved(
        old_task,
        c,
        frees,
        new_task,
        c2,
        frees2,
        slot,
    ) by {
        assert(c.slot(slot).refs >= held(c, slot) + old_task.holds(slot));
        if frees2 != frees {
            assert(frees2[0] == mine);
            if frees.contains(slot) {
                assert(frees2[frees.index_of(slot) + 1] == slot);
            }
            if frees2.contains(slot) && slot != mine {
                assert(frees[frees2.index_of(slot) - 1] == slot);
            }
        }
    }
}

/// A task counts on nothing that a step of another task changes.
proof fn lemma_beside<T>(
    other: Task<T>,
    task: Task<T>,
    c: Cells<T>,
    frees: Seq<usize>,
    then: Task<T>,
    c2: Cells<T>,
    frees2: Seq<usize>,
)
    requires
        advanced(task, c, frees, then, c2, frees2),
        frees_ok(c, frees),
        c.has(c.latest),
        other.ok(c, frees),
        owner_ok(task, c, frees),
        owner_ok(other, c, frees),
        apart(task, other),
        other.publishes() ==> !task.publishes(),
    ensures
        other.ok(c2, frees2),
        owner_ok(other, c2, frees2),
        apart(then, other),
        apart(other, then),
{
    assert forall|slot: usize| c.has(slot) implies #[trigger] moved(
        task,
        c,
        frees,
        then,
        c2,
        frees2,
        slot,
    ) by {}
    assert forall|slot: usize| #[trigger] other.owns(slot) implies private(c2, frees2, slot)
        && c2.slot(slot).frees == c.slot(slot).frees && c2.slot(slot).value == c.slot(slot).value
        && !then.owns(slot) by {
        assert(private(c, frees, slot));
        assert(!task.owns(slot));
        assert(moved(task, c, frees, then, c2, frees2, slot));
    }
    assert forall|slot: usize| #[trigger] frees.contains(slot) implies c.has(slot)
        && !task.owns(slot) by {
        assert(chained(c, frees, frees.index_of(slot)));
    }
    assert(moved(task, c, frees, then, c2, frees2, c.latest));
    match other {
        Task::Free => {},
        Task::Borrow(borrowing) => {
            if let Some(target) = borrowing.target() {
                assert(moved(task, c, frees, then, c2, frees2, target));
            }
        },
        Task::Release(releasing) => {
            assert(releasing.owns(releasing.slot) ==> other.owns(releasing.slot));
        },
        Task::Publish(publishing) => {
            if publishing.publishing() {
                lemma_publisher_beside(publishing, task, c, frees, then, c2, frees2);
            }
        },
    }
}

/// Whoever publishes counts on nothing that a step of somebody else changes.
proof fn lemma_publisher_beside<T>(
    other: Publishing<T>,
    task: Task<T>,
    c: Cells<T>,
    frees: Seq<usize>,
    then: Task<T>,
    c2: Cells<T>,
    frees2: Seq<usize>,
)
    requires
        advanced(task, c, frees, then, c2, frees2),
        frees_ok(c, frees),
        c.has(c.latest),
        other.ok(c, frees),
        other.publishing(),
        owner_ok(task, c, frees),
        owner_ok(Task::Publish(other), c, frees),
        apart(task, Task::Publish(other)),
        !task.publishes(),
    ensures
        other.ok(c2, frees2),
{
    let whole = Task::Publish(other);
    assert forall|slot: usize| c.has(slot) implies (#[trigger] c2.slot(slot)).version == c.slot(
        slot,
    ).version by {
        assert(moved(task, c, frees, then, c2, frees2, slot));
    }
    assert forall|slot: usize| #[trigger] whole.owns(slot) implies c2.slot(slot).frees == c.slot(
        slot,
    ).frees && c2.slot(slot).value == c.slot(slot).value by {
        assert(private(c, frees, slot));
        assert(!task.owns(slot));
        assert(moved(task, c, frees, then, c2, frees2, slot));
    }
    assert forall|slot: usize| #[trigger] frees.contains(slot) implies frees2.contains(slot)
        && c2.slot(slot).frees == c.slot(slot).frees by {
        assert(chained(c, frees, frees.index_of(slot)));
        assert(!task.owns(slot));
        assert(moved(task, c, frees, then, c2, frees2, slot));
    }
    match other.step {
        PublishStep::Alloc(allocating) => {
            if let AllocStep::Free(taken, freeing) = allocating.step {
                assert(whole.owns(freeing.tail));
                assert forall|slot: usize| freeing.head <= slot < freeing.tail implies (
                #[trigger] c2.slot(slot)).frees == Some((slot + 1) as usize) by {
                    assert(whole.owns(slot));
                    assert(c.slot(slot).frees == Some((slot + 1) as usize));
                }
            }
        },
        PublishStep::Hold(new) => {
            assert(whole.owns(new));
        },
        PublishStep::Latest(new, borrowing) => {
            if let BorrowStep::Retain(_, retaining) = borrowing.step {
                assert(c2.slot(retaining.slot).version == c.slot(retaining.slot).version);
            }
        },
        PublishStep::Drop(releasing) => {
            assert(releasing.owns(releasing.slot) ==> whole.owns(releasing.slot));
        },
        _ => {},
    }
}

/// One task more or less is one more or less to count.
proof fn lemma_count<T>(tasks: Seq<Task<T>>, i: int, then: Task<T>, slot: usize)
    requires
        0 <= i < tasks.len(),
    ensures
        count(tasks.update(i, then), slot) + tasks[i].holds(slot) == count(tasks, slot)
            + then.holds(slot),
        count(tasks, slot) >= tasks[i].holds(slot),
    decreases tasks.len(),
{
    if i == tasks.len() - 1 {
        assert(tasks.update(i, then).drop_last() =~= tasks.drop_last());
    } else {
        lemma_count(tasks.drop_last(), i, then, slot);
        assert(tasks.update(i, then).drop_last() =~= tasks.drop_last().update(i, then));
    }
}

/// Nobody holds a slot that is not there.
proof fn lemma_uncounted<T>(c: Cells<T>, frees: Seq<usize>, tasks: Seq<Task<T>>, slot: usize)
    requires
        c.has(c.latest),
        !c.has(slot),
        forall|i: int| 0 <= i < tasks.len() ==> #[trigger] tasks[i].ok(c, frees),
    ensures
        count(tasks, slot) == 0,
    decreases tasks.len(),
{
    if tasks.len() > 0 {
        let rest = tasks.drop_last();
        assert forall|i: int| 0 <= i < rest.len() implies #[trigger] rest[i].ok(c, frees) by {
            assert(tasks[i].ok(c, frees));
        }
        lemma_uncounted(c, frees, rest, slot);
        assert(tasks[tasks.len() - 1].ok(c, frees));
    }
}

/// A task of a sound machine finds what it counts on.
proof fn lemma_seated<T>(
    c: Cells<T>,
    tasks: Seq<Task<T>>,
    frees: Seq<usize>,
    publisher: Option<int>,
    i: int,
)
    requires
        sound(c, tasks, frees, publisher),
        0 <= i < tasks.len(),
    ensures
        seated(tasks[i], c, frees),
{
    assert(tasks[i].ok(c, frees));
    assert(owner_ok(tasks[i], c, frees));
    assert forall|slot: usize| c.has(slot) implies (#[trigger] c.slot(slot)).refs >= held(c, slot)
        + tasks[i].holds(slot) by {
        assert(slot_ok(c, tasks, slot));
        lemma_count(tasks, i, tasks[i], slot);
    }
    assert forall|slot: usize| c.has(slot) && (#[trigger] c.slot(slot)).refs > 0 implies c.slot(
        slot,
    ).value is Some by {
        assert(slot_ok(c, tasks, slot));
    }
}

/// Nothing happens by a step of a task that is over.
proof fn lemma_over<T>(task: Task<T>, c: Cells<T>, frees: Seq<usize>)
    requires
        seated(task, c, frees),
        task is Free || (task is Publish && !task.publishes()),
    ensures
        advanced(task, c, frees, task, c, frees),
{
    assert forall|slot: usize| c.has(slot) implies #[trigger] moved(
        task,
        c,
        frees,
        task,
        c,
        frees,
        slot,
    ) by {
        assert(c.slot(slot).refs >= held(c, slot));
    }
}

/// A step of any task.
proof fn lemma_task<T>(task: Task<T>, c: Cells<T>, frees: Seq<usize>)
    requires
        seated(task, c, frees),
        roomy(c),
    ensures
        task.ready(c),
        task.next(c).0 is Publish <==> task is Publish,
        task is Publish && !task.publishes() ==> task.next(c).0 == task,
        advanced(
            task,
            c,
            frees,
            task.next(c).0,
            task.next(c).1,
            task.then_frees(c, frees),
        ),
{
    match task {
        Task::Free => lemma_over(task, c, frees),
        Task::Borrow(borrowing) => lemma_borrow(borrowing, c, frees),
        Task::Release(releasing) => lemma_release::<T>(releasing, c, frees),
        Task::Publish(publishing) => match publishing.step {
            PublishStep::Alloc(allocating) => match allocating.step {
                AllocStep::Exchange(_, _) => lemma_alloc_exchange(publishing, c, frees),
                AllocStep::Grow => lemma_alloc_grow(publishing, c, frees),
                AllocStep::Free(_, _) => lemma_alloc_free(publishing, c, frees),
                _ => lemma_alloc(publishing, c, frees),
            },
            PublishStep::Write(_) | PublishStep::Hold(_) => {
                lemma_publish_store(publishing, c, frees)
            },
            PublishStep::Latest(_, _) => lemma_publish_latest(publishing, c, frees),
            PublishStep::Read(_, _) | PublishStep::Stamp(_, _, _) => {
                lemma_publish_version(publishing, c, frees)
            },
            PublishStep::Exchange(_, _, _) => lemma_publish_exchange(publishing, c, frees),
            PublishStep::Replace(_, _) | PublishStep::Notify(_) => {
                lemma_publish_replace(publishing, c, frees)
            },
            PublishStep::Drop(_) => lemma_publish_drop(publishing, c, frees),
            PublishStep::Done => lemma_over(task, c, frees),
            _ => {},
        },
    }
}

/// Any step of any task of a sound machine can be made, and leaves it sound.
pub proof fn lemma_step<T>(
    c: Cells<T>,
    tasks: Seq<Task<T>>,
    frees: Seq<usize>,
    publisher: Option<int>,
    i: int,
)
    requires
        sound(c, tasks, frees, publisher),
        roomy(c),
        0 <= i < tasks.len(),
    ensures
        tasks[i].ready(c),
        sound(
            tasks[i].next(c).1,
            tasks.update(i, tasks[i].next(c).0),
            tasks[i].then_frees(c, frees),
            publisher,
        ),
{
    lemma_seated(c, tasks, frees, publisher, i);
    lemma_task(tasks[i], c, frees);
    lemma_advanced(
        c,
        tasks,
        frees,
        publisher,
        i,
        tasks[i].next(c).0,
        tasks[i].next(c).1,
        tasks[i].then_frees(c, frees),
    );
}

/// A machine stays sound by a step.
proof fn lemma_advanced<T>(
    c: Cells<T>,
    tasks: Seq<Task<T>>,
    frees: Seq<usize>,
    publisher: Option<int>,
    i: int,
    then: Task<T>,
    c2: Cells<T>,
    frees2: Seq<usize>,
)
    requires
        sound(c, tasks, frees, publisher),
        0 <= i < tasks.len(),
        tasks[i] is Publish <==> then is Publish,
        tasks[i] is Publish && !tasks[i].publishes() ==> then == tasks[i],
        advanced(tasks[i], c, frees, then, c2, frees2),
    ensures
        sound(c2, tasks.update(i, then), frees2, publisher),
{
    let task = tasks[i];
    let tasks2 = tasks.update(i, then);
    assert(owner_ok(task, c, frees));
    assert forall|j: int| 0 <= j < tasks.len() && j != i implies #[trigger] tasks[j].ok(c2, frees2)
        && owner_ok(tasks[j], c2, frees2) && apart(then, tasks[j]) && apart(tasks[j], then) by {
        assert(tasks[j].ok(c, frees));
        assert(owner_ok(tasks[j], c, frees));
        assert(apart(tasks[i], tasks[j]));
        lemma_beside(tasks[j], task, c, frees, then, c2, frees2);
    }
    assert forall|j: int| 0 <= j < tasks2.len() implies #[trigger] tasks2[j].ok(c2, frees2) by {
        if j != i {
            assert(tasks[j].ok(c2, frees2));
        }
    }
    assert forall|j: int| 0 <= j < tasks2.len() implies #[trigger] owner_ok(
        tasks2[j],
        c2,
        frees2,
    ) by {
        if j != i {
            assert(tasks[j].ok(c2, frees2));
        }
    }
    assert forall|j: int, k: int|
        0 <= j < tasks2.len() && 0 <= k < tasks2.len() && j != k implies #[trigger] apart(
        tasks2[j],
        tasks2[k],
    ) by {
        if j == i {
            assert(tasks[k].ok(c2, frees2));
        } else if k == i {
            assert(tasks[j].ok(c2, frees2));
        } else {
            assert(apart(tasks[j], tasks[k]));
        }
    }
    assert forall|slot: usize| c2.has(slot) implies #[trigger] slot_ok(c2, tasks2, slot) by {
        assert(moved(task, c, frees, then, c2, frees2, slot));
        lemma_count(tasks, i, then, slot);
        if c.has(slot) {
            assert(slot_ok(c, tasks, slot));
        } else {
            lemma_uncounted(c, frees, tasks, slot);
        }
    }
    assert forall|slot: usize|
        c2.has(slot) && (#[trigger] c2.slot(slot)).refs == 0 implies frees2.contains(slot) || owned(
        tasks2,
        slot,
    ) by {
        assert(moved(task, c, frees, then, c2, frees2, slot));
        if !frees2.contains(slot) {
            if then.owns(slot) {
                assert(tasks2[i].owns(slot));
            } else {
                assert(c.slot(slot).refs == 0);
                let j = choose|j: int| 0 <= j < tasks.len() && (#[trigger] tasks[j]).owns(slot);
                assert(tasks2[j].owns(slot));
            }
        }
    }
    assert forall|slot: usize| c2.has(slot) implies (#[trigger] c2.slot(slot)).version.0 <= c2.slot(
        c2.latest,
    ).version.0 + ahead(tasks2, publisher, slot) by {
        if publisher != Some(i) || !task.publishes() {
            assert(moved(task, c, frees, then, c2, frees2, slot));
            assert(moved(task, c, frees, then, c2, frees2, c.latest));
            assert(c.slot(slot).version.0 <= c.slot(c.latest).version.0 + ahead(
                tasks,
                publisher,
                slot,
            ));
        }
    }
}

/// A task gives way to one that has the same slots.
proof fn lemma_replaced<T>(
    c: Cells<T>,
    tasks: Seq<Task<T>>,
    frees: Seq<usize>,
    publisher: Option<int>,
    i: int,
    then: Task<T>,
    then_publisher: Option<int>,
)
    requires
        sound(c, tasks, frees, publisher),
        0 <= i < tasks.len(),
        then.ok(c, frees),
        forall|slot: usize| #[trigger] then.holds(slot) == tasks[i].holds(slot),
        forall|slot: usize| #[trigger] then.owns(slot) == tasks[i].owns(slot),
        forall|slot: usize| (#[trigger] then.ahead(slot)) == 0,
        forall|slot: usize| (#[trigger] tasks[i].ahead(slot)) == 0,
        if then is Publish {
            then_publisher == Some(i) && publisher is None && !c.closed
        } else if publisher == Some(i) {
            then_publisher is None
        } else {
            then_publisher == publisher
        },
    ensures
        sound(c, tasks.update(i, then), frees, then_publisher),
{
    let tasks2 = tasks.update(i, then);
    assert forall|slot: usize| c.has(slot) implies #[trigger] slot_ok(c, tasks2, slot) by {
        assert(slot_ok(c, tasks, slot));
        lemma_count(tasks, i, then, slot);
        assert(then.holds(slot) == tasks[i].holds(slot));
    }
    assert forall|slot: usize|
        c.has(slot) && (#[trigger] c.slot(slot)).refs == 0 implies frees.contains(slot) || owned(
        tasks2,
        slot,
    ) by {
        if !frees.contains(slot) {
            let j = choose|j: int| 0 <= j < tasks.len() && (#[trigger] tasks[j]).owns(slot);
            assert(then.owns(slot) == tasks[i].owns(slot));
            assert(tasks2[j].owns(slot));
        }
    }
    assert forall|slot: usize| c.has(slot) implies (#[trigger] c.slot(slot)).version.0 <= c.slot(
        c.latest,
    ).version.0 + ahead(tasks2, then_publisher, slot) by {
        assert(then.ahead(slot) == 0 && tasks[i].ahead(slot) == 0);
    }
    assert forall|j: int| 0 <= j < tasks2.len() implies #[trigger] tasks2[j].ok(c, frees) by {
        if j != i {
            assert(tasks[j].ok(c, frees));
        }
    }
    assert(owner_ok(tasks[i], c, frees));
    assert forall|j: int| 0 <= j < tasks2.len() implies #[trigger] owner_ok(
        tasks2[j],
        c,
        frees,
    ) by {
        assert(owner_ok(tasks[j], c, frees));
        if j == i {
            assert forall|slot: usize| #[trigger] then.owns(slot) implies private(
                c,
                frees,
                slot,
            ) by {
                assert(tasks[i].owns(slot));
            }
        }
    }
    assert forall|j: int, k: int|
        0 <= j < tasks2.len() && 0 <= k < tasks2.len() && j != k implies #[trigger] apart(
        tasks2[j],
        tasks2[k],
    ) by {
        assert(apart(tasks[j], tasks[k]));
        assert forall|slot: usize| !(#[trigger] tasks2[j].owns(slot) && tasks2[k].owns(slot)) by {
            assert(then.owns(slot) == tasks[i].owns(slot));
            assert(!(tasks[j].owns(slot) && tasks[k].owns(slot)));
        }
    }
}

/// A place for one more task changes nothing.
proof fn lemma_pushed<T>(
    c: Cells<T>,
    tasks: Seq<Task<T>>,
    frees: Seq<usize>,
    publisher: Option<int>,
)
    requires
        sound(c, tasks, frees, publisher),
    ensures
        sound(c, tasks.push(Task::Free), frees, publisher),
{
    let tasks2 = tasks.push(Task::Free);
    assert(tasks2.drop_last() =~= tasks);
    assert forall|slot: usize| c.has(slot) implies #[trigger] slot_ok(c, tasks2, slot) by {
        assert(slot_ok(c, tasks, slot));
    }
    assert forall|slot: usize|
        c.has(slot) && (#[trigger] c.slot(slot)).refs == 0 implies frees.contains(slot) || owned(
        tasks2,
        slot,
    ) by {
        if !frees.contains(slot) {
            let j = choose|j: int| 0 <= j < tasks.len() && (#[trigger] tasks[j]).owns(slot);
            assert(tasks2[j].owns(slot));
        }
    }
    assert forall|j: int| 0 <= j < tasks2.len() implies #[trigger] tasks2[j].ok(c, frees) by {
        if j < tasks.len() {
            assert(tasks[j].ok(c, frees));
        }
    }
    assert forall|j: int| 0 <= j < tasks2.len() implies #[trigger] owner_ok(
        tasks2[j],
        c,
        frees,
    ) by {
        if j < tasks.len() {
            assert(owner_ok(tasks[j], c, frees));
        }
    }
    assert forall|j: int, k: int|
        0 <= j < tasks2.len() && 0 <= k < tasks2.len() && j != k implies #[trigger] apart(
        tasks2[j],
        tasks2[k],
    ) by {
        if j < tasks.len() && k < tasks.len() {
            assert(apart(tasks[j], tasks[k]));
        }
    }
}

/// A value that somebody has a reference to is there, and no step of anybody else changes it. It is not
/// older than the value that was seen before.
pub proof fn law_reference_is_valid<T>(
    c: Cells<T>,
    tasks: Seq<Task<T>>,
    frees: Seq<usize>,
    publisher: Option<int>,
    i: int,
    j: int,
)
    requires
        sound(c, tasks, frees, publisher),
        roomy(c),
        0 <= i < tasks.len(),
        0 <= j < tasks.len(),
        i != j,
        tasks[i] matches Task::Borrow(task) && task.step is Done,
    ensures
        ({
            let slot = tasks[i]->Borrow_0.step->Done_0;
            &&& c.has(slot)
            &&& c.slot(slot).refs > 0
            &&& c.slot(slot).value is Some
            &&& tasks[i]->Borrow_0.seen.0 <= c.slot(slot).version.0
            &&& !frees.contains(slot)
            &&& !owned(tasks, slot)
            &&& tasks[j].next(c).1.slot(slot).value == c.slot(slot).value
        }),
{
    let slot = tasks[i]->Borrow_0.step->Done_0;
    lemma_seated(c, tasks, frees, publisher, i);
    assert(c.slot(slot).refs >= tasks[i].holds(slot));
    if frees.contains(slot) {
        assert(chained(c, frees, frees.index_of(slot)));
    }
    assert forall|k: int| 0 <= k < tasks.len() implies !(#[trigger] tasks[k]).owns(slot) by {
        assert(owner_ok(tasks[k], c, frees));
    }
    let (then, c2) = tasks[j].next(c);
    let frees2 = tasks[j].then_frees(c, frees);
    lemma_seated(c, tasks, frees, publisher, j);
    lemma_task(tasks[j], c, frees);
    assert(!tasks[j].owns(slot));
    assert(moved(tasks[j], c, frees, then, c2, frees2, slot));
}

/// Nothing leaks: once no task is left, the channel holds the latest value once, nobody holds any other,
/// and all other slots are free.
pub proof fn law_nothing_leaks<T>(
    c: Cells<T>,
    tasks: Seq<Task<T>>,
    frees: Seq<usize>,
    publisher: Option<int>,
    slot: usize,
)
    requires
        sound(c, tasks, frees, publisher),
        forall|i: int| 0 <= i < tasks.len() ==> #[trigger] tasks[i] is Free,
        c.has(slot),
    ensures
        c.slot(slot).refs == held(c, slot),
        slot != c.latest ==> frees.contains(slot),
        slot == c.latest ==> c.slot(slot).value is Some,
{
    lemma_idle(tasks, slot);
    assert(slot_ok(c, tasks, slot));
    assert(c.slot(slot).refs == held(c, slot));
    if slot != c.latest && !frees.contains(slot) {
        let i = choose|i: int| 0 <= i < tasks.len() && (#[trigger] tasks[i]).owns(slot);
        assert(tasks[i] is Free);
    }
}

/// Nobody holds a slot where no task is left.
proof fn lemma_idle<T>(tasks: Seq<Task<T>>, slot: usize)
    requires
        forall|i: int| 0 <= i < tasks.len() ==> #[trigger] tasks[i] is Free,
    ensures
        count(tasks, slot) == 0,
    decreases tasks.len(),
{
    if tasks.len() > 0 {
        let rest = tasks.drop_last();
        assert forall|i: int| 0 <= i < rest.len() implies #[trigger] rest[i] is Free by {
            assert(tasks[i] is Free);
        }
        lemma_idle(rest, slot);
        assert(tasks[tasks.len() - 1] is Free);
    }
}

/// How far a task has come.
#[derive(Copy, Clone, Debug, PartialEq, Eq, Structural)]
pub enum Progress {
    /// There are steps to make.
    Running,
    /// There are steps to make, and those who wait for changes are to be notified by now.
    Notify,
    /// Somebody has a reference to a value.
    Borrowed,
    /// There are no steps left.
    Done,
}

impl<T> Task<T> {
    /// How far the task has come.
    pub open spec fn progress(self) -> Progress {
        match self {
            Task::Free => Progress::Done,
            Task::Borrow(task) => if task.step is Done {
                Progress::Borrowed
            } else {
                Progress::Running
            },
            Task::Release(task) => if task.step is Done {
                Progress::Done
            } else {
                Progress::Running
            },
            Task::Publish(task) => match task.step {
                PublishStep::Done => Progress::Done,
                PublishStep::Notify(_) => Progress::Notify,
                _ => Progress::Running,
            },
        }
    }
}

/// The slots of a channel and their tasks.
pub struct Machine<T> {
    pub table: Table<T>,
    pub tasks: Vec<Task<T>>,
    /// Who publishes.
    pub publisher: Option<usize>,
    /// The free slots, the one on top first.
    pub frees: Ghost<Seq<usize>>,
}

impl<T> Machine<T> {
    /// The task that publishes.
    pub open spec fn publishing(self) -> Option<int> {
        match self.publisher {
            Some(id) => Some(id as int),
            None => None,
        }
    }

    /// What is so after any steps of any tasks in any order.
    pub open spec fn inv(self) -> bool {
        &&& self.table.wf()
        &&& sound(self.table@, self.tasks@, self.frees@, self.publishing())
    }

    /// A machine without tasks.
    pub fn new(value: T, version: Version) -> (machine: Self)
        ensures
            machine.inv(),
            machine.tasks@.len() == 0,
            machine.publisher is None,
            !machine.table@.closed,
            machine.table@.slot(machine.table@.latest).value == Some(value),
            machine.table@.slot(machine.table@.latest).version == version,
            machine.table@.slots.len() == ROW,
    {
        let mut table = Table::new(value, version);
        table.add_slots(1, ROW - 1);
        let machine = Machine {
            table,
            tasks: Vec::new(),
            publisher: None,
            frees: Ghost(Seq::new((ROW - 1) as nat, |i: int| (i + 1) as usize)),
        };
        proof {
            let c = machine.table@;
            let frees = machine.frees@;
            assert forall|i: int| 0 <= i < frees.len() implies #[trigger] chained(c, frees, i) by {}
            assert forall|slot: usize| c.has(slot) implies #[trigger] slot_ok(
                c,
                machine.tasks@,
                slot,
            ) by {}
            assert forall|slot: usize|
                c.has(slot) && (#[trigger] c.slot(slot)).refs == 0 implies frees.contains(slot)
                || owned(machine.tasks@, slot) by {
                assert(frees[slot - 1] == slot);
            }
        }
        machine
    }

    /// Makes the next step of a task.
    pub fn step(&mut self, id: usize)
        requires
            old(self).inv(),
            roomy(old(self).table@),
            id < old(self).tasks@.len(),
        ensures
            final(self).inv(),
            final(self).table@ == old(self).tasks@[id as int].next(old(self).table@).1,
            final(self).tasks@ == old(self).tasks@.update(
                id as int,
                old(self).tasks@[id as int].next(old(self).table@).0,
            ),
            final(self).publisher == old(self).publisher,
    {
        proof {
            lemma_step(
                self.table@,
                self.tasks@,
                self.frees@,
                self.publishing(),
                id as int,
            );
            self.frees@ = self.tasks@[id as int].then_frees(self.table@, self.frees@);
        }
        match &mut self.tasks[id] {
            Task::Free => {},
            Task::Borrow(task) => task.advance(&mut self.table),
            Task::Release(task) => task.advance(&mut self.table),
            Task::Publish(task) => task.advance(&mut self.table),
        }
        assert(self.tasks@ =~= old(self).tasks@.update(
            id as int,
            old(self).tasks@[id as int].next(old(self).table@).0,
        ));
    }

    /// A place for a task.
    fn place(&mut self) -> (id: usize)
        requires
            old(self).inv(),
        ensures
            final(self).inv(),
            id < final(self).tasks@.len(),
            final(self).tasks@[id as int] is Free,
            final(self).table == old(self).table,
            final(self).frees == old(self).frees,
            final(self).publisher == old(self).publisher,
            final(self).tasks@ == old(self).tasks@ || final(self).tasks@ == old(self).tasks@.push(
                Task::Free,
            ),
    {
        let mut id: usize = 0;
        while id < self.tasks.len()
            invariant
                id <= self.tasks@.len(),
                self.inv(),
                *self == *old(self),
            decreases self.tasks@.len() - id,
        {
            if let Task::Free = &self.tasks[id] {
                return id;
            }
            id = id + 1;
        }
        proof {
            lemma_pushed(self.table@, self.tasks@, self.frees@, self.publishing());
        }
        self.tasks.push(Task::Free);
        id
    }

    /// What is so once a task has begun at `id`.
    pub open spec fn began(self, after: Self, id: usize, task: Task<T>) -> bool {
        &&& after.inv()
        &&& id < after.tasks@.len()
        &&& after.tasks@[id as int] == task
        &&& id < self.tasks@.len() ==> self.tasks@[id as int] is Free
        &&& self.tasks@.len() <= after.tasks@.len()
        &&& after.table@ == self.table@
        &&& forall|i: int|
            0 <= i < self.tasks@.len() && i != id ==> #[trigger] after.tasks@[i] == self.tasks@[i]
    }

    /// Begins to borrow the latest value, for somebody who has seen the value of this version.
    pub fn begin_borrow(&mut self, seen: Version) -> (id: usize)
        requires
            old(self).inv(),
            seen.0 <= old(self).table@.slot(old(self).table@.latest).version.0,
        ensures
            old(self).began(
                *final(self),
                id,
                Task::Borrow(Borrowing { seen, step: BorrowStep::Load }),
            ),
            final(self).publisher == old(self).publisher,
    {
        let id = self.place();
        let task = Borrowing::new(seen);
        proof {
            let publisher = self.publishing();
            lemma_replaced(
                self.table@,
                self.tasks@,
                self.frees@,
                publisher,
                id as int,
                Task::Borrow(task),
                publisher,
            );
        }
        self.tasks[id] = Task::Borrow(task);
        id
    }

    /// Begins to publish a value.
    pub fn begin_publish(&mut self, value: T) -> (id: usize)
        requires
            old(self).inv(),
            old(self).publisher is None,
            !old(self).table@.closed,
        ensures
            old(self).began(
                *final(self),
                id,
                Task::Publish(
                    Publishing {
                        value: Some(value),
                        step: PublishStep::Alloc(Allocating { step: AllocStep::Load }),
                    },
                ),
            ),
            final(self).publisher == Some(id),
    {
        let id = self.place();
        let task = Publishing::new(value);
        proof {
            lemma_replaced(
                self.table@,
                self.tasks@,
                self.frees@,
                None,
                id as int,
                Task::Publish(task),
                Some(id as int),
            );
        }
        self.tasks[id] = Task::Publish(task);
        self.publisher = Some(id);
        id
    }

    /// How far the task at `id` has come.
    pub fn progress(&self, id: usize) -> (progress: Progress)
        requires
            id < self.tasks@.len(),
        ensures
            progress == self.tasks@[id as int].progress(),
    {
        match &self.tasks[id] {
            Task::Free => Progress::Done,
            Task::Borrow(task) => match task.step {
                BorrowStep::Done(_, _, _) => Progress::Borrowed,
                _ => Progress::Running,
            },
            Task::Release(task) => match task.step {
                ReleaseStep::Done => Progress::Done,
                _ => Progress::Running,
            },
            Task::Publish(task) => match task.step {
                PublishStep::Done => Progress::Done,
                PublishStep::Notify(_) => Progress::Notify,
                _ => Progress::Running,
            },
        }
    }

    /// The slot of the reference at `id`.
    pub open spec fn reference(self, id: usize) -> usize {
        self.tasks@[id as int]->Borrow_0.step->Done_0
    }

    /// The value of the reference at `id`, and its version.
    pub fn value(&self, id: usize) -> (value: (&T, Version))
        requires
            self.inv(),
            id < self.tasks@.len(),
            self.tasks@[id as int].progress() == Progress::Borrowed,
        ensures
            Some(*value.0) == self.table@.slot(self.reference(id)).value,
            value.1 == self.table@.slot(self.reference(id)).version,
    {
        let slot: usize = match &self.tasks[id] {
            Task::Borrow(Borrowing { step: BorrowStep::Done(slot, _, _), .. }) => *slot,
            _ => vstd::pervasive::unreached(),
        };
        proof {
            lemma_seated(
                self.table@,
                self.tasks@,
                self.frees@,
                self.publishing(),
                id as int,
            );
            assert(self.table@.slot(slot).refs >= self.tasks@[id as int].holds(slot));
        }
        (self.table.value(slot), self.table.version(slot))
    }

    /// Begins to give the value of the reference at `id` back.
    pub fn begin_release(&mut self, id: usize)
        requires
            old(self).inv(),
            id < old(self).tasks@.len(),
            old(self).tasks@[id as int].progress() == Progress::Borrowed,
        ensures
            final(self).inv(),
            final(self).table@ == old(self).table@,
            final(self).publisher == old(self).publisher,
            final(self).tasks@ == old(self).tasks@.update(
                id as int,
                Task::Release(
                    Releasing { slot: old(self).reference(id), step: ReleaseStep::Sub },
                ),
            ),
    {
        let slot: usize = match &self.tasks[id] {
            Task::Borrow(Borrowing { step: BorrowStep::Done(slot, _, _), .. }) => *slot,
            _ => vstd::pervasive::unreached(),
        };
        let task = Releasing::new(slot);
        proof {
            assert(self.tasks@[id as int].ok(self.table@, self.frees@));
            let publisher = self.publishing();
            lemma_replaced(
                self.table@,
                self.tasks@,
                self.frees@,
                publisher,
                id as int,
                Task::Release(task),
                publisher,
            );
        }
        self.tasks[id] = Task::Release(task);
    }

    /// Takes a task away that is over.
    pub fn finish(&mut self, id: usize)
        requires
            old(self).inv(),
            id < old(self).tasks@.len(),
            old(self).tasks@[id as int].progress() == Progress::Done,
        ensures
            final(self).inv(),
            final(self).table@ == old(self).table@,
            final(self).tasks@ == old(self).tasks@.update(id as int, Task::Free),
            final(self).publisher == if old(self).publisher == Some(id) {
                None
            } else {
                old(self).publisher
            },
    {
        let ghost publisher = self.publishing();
        if let Some(publisher) = self.publisher {
            if publisher == id {
                self.publisher = None;
            }
        }
        proof {
            lemma_replaced(
                self.table@,
                self.tasks@,
                self.frees@,
                publisher,
                id as int,
                Task::Free,
                self.publishing(),
            );
        }
        self.tasks[id] = Task::Free;
    }

    /// Closes the channel, once nobody publishes.
    pub fn close(&mut self)
        requires
            old(self).inv(),
            old(self).publisher is None,
        ensures
            final(self).inv(),
            final(self).tasks == old(self).tasks,
            final(self).publisher is None,
            final(self).table@ == (Cells { closed: true, ..old(self).table@ }),
    {
        self.table.close();
        proof {
            let c = old(self).table@;
            let c2 = self.table@;
            let tasks = self.tasks@;
            let frees = self.frees@;
            assert forall|i: int| 0 <= i < frees.len() implies #[trigger] chained(
                c2,
                frees,
                i,
            ) by {
                assert(chained(c, frees, i));
            }
            assert forall|slot: usize| c2.has(slot) implies #[trigger] slot_ok(c2, tasks, slot) by {
                assert(slot_ok(c, tasks, slot));
            }
            assert forall|slot: usize|
                c2.has(slot) && (#[trigger] c2.slot(slot)).refs == 0 implies frees.contains(slot)
                || owned(tasks, slot) by {
                assert(c.slot(slot).refs == 0);
            }
            assert forall|slot: usize|
                c2.has(slot) implies (#[trigger] c2.slot(slot)).version.0 <= c2.slot(
                c2.latest,
            ).version.0 by {
                assert(c.slot(slot).version.0 <= c.slot(c.latest).version.0);
            }
            assert forall|i: int| 0 <= i < tasks.len() implies #[trigger] tasks[i].ok(
                c2,
                frees,
            ) by {
                assert(tasks[i].ok(c, frees));
            }
            assert forall|i: int| 0 <= i < tasks.len() implies #[trigger] owner_ok(
                tasks[i],
                c2,
                frees,
            ) by {
                assert(owner_ok(tasks[i], c, frees));
                assert forall|slot: usize| #[trigger] tasks[i].owns(slot) implies private(
                    c2,
                    frees,
                    slot,
                ) by {
                    assert(private(c, frees, slot));
                }
            }
        }
    }
}

} // verus!
