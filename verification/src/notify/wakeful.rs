//! No waker is lost, whatever order the steps of tasks come in.

use crate::notify::all::{AllProgress, AllStep};
use crate::notify::machine::{
    all_ok, apart, hand_of, notified_ok, one_ok, one_tells, removing_ok, same, sound, stepped,
    task_ok, then_holder, Task,
};
use crate::notify::memory::{Memory, WaiterCells};
use crate::notify::notified::{Notified, Stage};
use crate::notify::one::{NotifyingOne, OneStep};
use crate::notify::remove::{RemoveStep, Removing};
use crate::notify::state::Round;
use crate::parker::{other_slot, ParkStep, State, Unpark, UnparkStep};
use vstd::prelude::*;

verus! {

/// The unpark of the waiter in the hand of a notification.
pub open spec fn one_unparks<W>(task: NotifyingOne<W>) -> Option<Unpark<W>> {
    match task.step {
        OneStep::Unpark(_, _) => Some(task.unpark),
        OneStep::Store(_, _) => Some(Unpark { step: UnparkStep::Done, ..task.unpark }),
        _ => None,
    }
}

/// The unpark of the waiter in the hand of a notification of all waiters.
pub open spec fn all_unparks<W>(task: AllProgress<W>) -> Option<Unpark<W>> {
    match task.step {
        AllStep::Unpark(_) => Some(task.unpark),
        AllStep::Store(_) => Some(Unpark { step: UnparkStep::Done, ..task.unpark }),
        _ => None,
    }
}

/// The unpark of the waiter in the hand of a removal.
pub open spec fn removal_unparks<W>(task: Removing<W>) -> Option<Unpark<W>> {
    if task.step is Release {
        one_unparks(task.release)
    } else {
        None
    }
}

/// The unpark of the waiter in the hand of a task.
pub open spec fn unparks<W>(task: Task<W>) -> Option<Unpark<W>> {
    match task {
        Task::Free => None,
        Task::One(task) => one_unparks(task),
        Task::All(task) => all_unparks(task@),
        Task::Notified(task) => if task.step is Remove {
            removal_unparks(task.removing)
        } else {
            None
        },
    }
}

/// The unpark of the waiter in the hand of whoever has the lock.
pub open spec fn unpark_of<W>(tasks: Seq<Task<W>>, holder: Option<int>) -> Option<Unpark<W>> {
    match holder {
        Some(holder) => unparks(tasks[holder]),
        None => None,
    }
}

/// Whether `waker` is where an unpark looks for it.
pub open spec fn callable<W>(cells: WaiterCells<W>, waker: Option<W>) -> bool {
    cells.parked matches State::Parking(index) && cells.wakers[index as int] == waker
}

/// Whether whoever waits can be woken: as long as it is listed the waker of its last poll is in place,
/// and then whoever unparks it gets hold of that waker.
pub open spec fn alert<W>(
    task: Notified<W>,
    m: Memory<W>,
    hand: Option<usize>,
    unpark: Option<Unpark<W>>,
) -> bool {
    let key = task.waiter;
    let cells = m.waiter(key);
    &&& task.step is Poll || task.step is Check || task.step is Park || task.step is Pending
        ==> task.last@ is Some
    &&& task.step is Poll || task.step is Check ==> task.park.waker == task.last@
    &&& task.step is Park ==> {
        &&& task.park.step is Load || task.park.step is Write ==> task.park.waker == task.last@
        &&& task.park.step matches ParkStep::Exchange(index) ==> cells.wakers[other_slot(
            index,
        ) as int] == task.last@
        // A park and an unpark never touch the same slot.
        &&& hand == Some(key) ==> (unpark matches Some(unpark) ==> (unpark.step matches UnparkStep::Take(
            taken,
        ) ==> match task.park.step {
            ParkStep::Write(index) | ParkStep::Exchange(index) => index == taken,
            _ => true,
        }))
    }
    &&& !(task.step is Gone) && hand == Some(key) ==> (unpark matches Some(unpark) ==> (
    unpark.step is Done ==> cells.parked is Unparked))
    &&& task.step is Pending ==> {
        &&& m.linked(key) ==> callable(cells, task.last@)
        &&& hand == Some(key) ==> (unpark matches Some(unpark) ==> match unpark.step {
            UnparkStep::Load | UnparkStep::Exchange(_) => callable(cells, task.last@),
            UnparkStep::Take(taken) => cells.wakers[taken as int] == task.last@,
            UnparkStep::Done => unpark.waker == task.last@,
        })
    }
}

/// Whether everybody who waits can be woken.
pub open spec fn wakeful<W>(m: Memory<W>, tasks: Seq<Task<W>>, holder: Option<int>) -> bool {
    forall|i: int|
        0 <= i < tasks.len() ==> (#[trigger] tasks[i] matches Task::Notified(task) ==> alert(
            task,
            m,
            hand_of(tasks, holder),
            unpark_of(tasks, holder),
        ))
}

/// A step of a notification leaves others alert.
proof fn lemma_one_alerts<W>(task: NotifyingOne<W>, m: Memory<W>, other: Notified<W>)
    requires
        m.wf(),
        m.patient(),
        one_ok(task, m),
        task.holds(),
        m.locked,
        one_tells(task, m),
        !(other.step is Gone),
        notified_ok(other, m, task.hand()),
        alert(other, m, task.hand(), one_unparks(task)),
    ensures
        ({
            let (then, after) = task.next(m);
            alert(other, after, then.hand(), one_unparks(then))
        }),
{
    let key = other.waiter;
    assert(m.waiter(key).wf());
    assert(m.linked(key) ==> m.waits(key));
    if let OneStep::Pop(_) = task.step {
        assert(m.queued(m.queue.len() - 1));
    }
}

/// A step of a notification of all waiters leaves others alert.
proof fn lemma_all_alerts<W>(task: AllProgress<W>, m: Memory<W>, other: Notified<W>)
    requires
        m.wf(),
        m.patient(),
        all_ok(task, m),
        task.holds(),
        m.locked,
        !(other.step is Gone),
        notified_ok(other, m, task.hand()),
        alert(other, m, task.hand(), all_unparks(task)),
    ensures
        ({
            let (then, after) = task.next(m);
            alert(other, after, then.hand(), all_unparks(then))
        }),
{
    let key = other.waiter;
    assert(m.waiter(key).wf());
    assert(m.linked(key) ==> m.waits(key));
    match task.step {
        AllStep::Cut(_) => {
            m.lemma_room();
            assert(m.with_room().live(key));
            assert(m.with_room().home(key) == m.home(key));
        },
        AllStep::Pop | AllStep::DrainPop => {
            let guard = task.ring->Some_0.0;
            assert(m.ring_wf(guard));
            if m.rings[guard].len() > 0 {
                assert(m.ringed(guard, m.rings[guard].len() - 1));
            }
        },
        _ => {},
    }
}

/// A step of a removal leaves others alert.
proof fn lemma_removing_alerts<W>(task: Removing<W>, m: Memory<W>, other: Notified<W>)
    requires
        m.wf(),
        m.patient(),
        removing_ok(task, m),
        task.holds(),
        m.locked,
        task.step is Release ==> one_tells(task.release, m),
        !(other.step is Gone),
        other.waiter != task.waiter,
        m.live(task.waiter),
        notified_ok(other, m, task.hand()),
        alert(other, m, task.hand(), removal_unparks(task)),
    ensures
        ({
            let (then, after) = task.next(m);
            alert(other, after, then.hand(), removal_unparks(then))
        }),
{
    if let RemoveStep::Release = task.step {
        lemma_one_alerts(task.release, m, other);
    }
}

/// A step of whoever waits leaves it alert.
proof fn lemma_own_alert<W>(
    task: Notified<W>,
    m: Memory<W>,
    hand: Option<usize>,
    unpark: Option<Unpark<W>>,
)
    requires
        m.wf(),
        m.patient(),
        !(task.step is Gone),
        !task.holds(),
        notified_ok(task, m, hand),
        alert(task, m, hand, unpark),
        hand == Some(task.waiter) ==> (unpark matches Some(unpark) ==> (unpark.step is Done
            || unpark.ready(m.waiter(task.waiter).parked))),
    ensures
        ({
            let (then, after) = task.next(m);
            &&& alert(then, after, hand, unpark)
            &&& then.holds() ==> alert(then, after, None, None)
        }),
{
    let key = task.waiter;
    assert(m.waiter(key).wf());
    assert(m.linked(key) ==> m.waits(key));
}

/// Everybody who waits can be woken after any step.
pub proof fn lemma_wakeful_step<W>(
    m: Memory<W>,
    tasks: Seq<Task<W>>,
    holder: Option<int>,
    i: int,
    then: Task<W>,
    after: Memory<W>,
)
    requires
        sound(m, tasks, holder),
        wakeful(m, tasks, holder),
        0 <= i < tasks.len(),
        m.state.round.succ() != Round(0),
        after.wf(),
        stepped(tasks[i], m, then, after),
    ensures
        wakeful(after, tasks.update(i, then), then_holder(then, i, holder)),
{
    let hand = hand_of(tasks, holder);
    let unpark = unpark_of(tasks, holder);
    let tasks2 = tasks.update(i, then);
    let holder2 = then_holder(then, i, holder);
    let hand2 = hand_of(tasks2, holder2);
    let unpark2 = unpark_of(tasks2, holder2);
    assert(task_ok(tasks[i], m, hand));
    assert forall|j: int| 0 <= j < tasks2.len() && #[trigger] tasks2[j] is Notified implies alert(
        tasks2[j]->Notified_0,
        after,
        hand2,
        unpark2,
    ) by {
        if j != i {
            lemma_other_alert(m, tasks, holder, i, then, after, j);
        } else {
            let task = tasks[i]->Notified_0;
            if !(task.step is Gone) && !task.holds() {
                if let Some(h) = holder {
                    assert(task_ok(tasks[h], m, hand));
                }
                lemma_own_alert(task, m, hand, unpark);
            }
        }
    }
}

/// Somebody who waits can be woken after a step of somebody else.
proof fn lemma_other_alert<W>(
    m: Memory<W>,
    tasks: Seq<Task<W>>,
    holder: Option<int>,
    i: int,
    then: Task<W>,
    after: Memory<W>,
    j: int,
)
    requires
        sound(m, tasks, holder),
        wakeful(m, tasks, holder),
        0 <= i < tasks.len(),
        0 <= j < tasks.len(),
        i != j,
        tasks[j] is Notified,
        m.state.round.succ() != Round(0),
        after.wf(),
        stepped(tasks[i], m, then, after),
    ensures
        alert(
            tasks[j]->Notified_0,
            after,
            hand_of(tasks.update(i, then), then_holder(then, i, holder)),
            unpark_of(tasks.update(i, then), then_holder(then, i, holder)),
        ),
{
    let hand = hand_of(tasks, holder);
    let other = tasks[j]->Notified_0;
    assert(task_ok(tasks[i], m, hand));
    assert(task_ok(tasks[j], m, hand));
    assert(apart(tasks[i], tasks[j]));
    if !(other.step is Gone) {
        if tasks[i].holds() {
            match tasks[i] {
                Task::Free => {},
                Task::One(task) => lemma_one_alerts(task, m, other),
                Task::All(task) => lemma_all_alerts(task@, m, other),
                Task::Notified(task) => {
                    if task.step is Remove {
                        lemma_removing_alerts(task.removing, m, other);
                    }
                },
            }
        } else {
            lemma_apart_step(tasks[i], m, hand, then, after, other.waiter);
        }
    }
}

/// A task without the lock does not touch the waiter of another one.
proof fn lemma_apart_step<W>(
    task: Task<W>,
    m: Memory<W>,
    hand: Option<usize>,
    then: Task<W>,
    after: Memory<W>,
    key: usize,
)
    requires
        m.wf(),
        task_ok(task, m, hand),
        !task.holds(),
        m.live(key),
        task.key() != Some(key),
        task.guard() is Some ==> task.guard() != Some(key),
        !(m.home(key) is Guard),
        stepped(task, m, then, after),
    ensures
        after.waiter(key) == m.waiter(key),
        after.home(key) == m.home(key),
        then.holds() ==> then.hand() is None && unparks(then) is None,
{
    match task {
        Task::All(task) => {
            if let AllStep::Leave = task@.step {
                assert(m.ring_wf(task@.ring->Some_0.0));
            }
        },
        _ => {},
    }
}

/// Whether the ring of `guard` is that of a task.
pub open spec fn attended<W>(tasks: Seq<Task<W>>, guard: usize) -> bool {
    exists|i: int| 0 <= i < tasks.len() && (#[trigger] tasks[i]).guard() == Some(guard)
}

/// Whether each ring is that of a task, which is going to notify the waiters in it.
pub open spec fn tended<W>(m: Memory<W>, tasks: Seq<Task<W>>) -> bool {
    forall|guard: usize| #[trigger] m.rings.dom().contains(guard) ==> attended(tasks, guard)
}

/// Each ring is that of a task after any step.
pub proof fn lemma_tended_step<W>(
    m: Memory<W>,
    tasks: Seq<Task<W>>,
    holder: Option<int>,
    i: int,
    then: Task<W>,
    after: Memory<W>,
)
    requires
        sound(m, tasks, holder),
        tended(m, tasks),
        0 <= i < tasks.len(),
        stepped(tasks[i], m, then, after),
    ensures
        tended(after, tasks.update(i, then)),
{
    let tasks2 = tasks.update(i, then);
    assert(task_ok(tasks[i], m, hand_of(tasks, holder)));
    assert forall|guard: usize| #[trigger] after.rings.dom().contains(guard) implies attended(
        tasks2,
        guard,
    ) by {
        if then.guard() == Some(guard) {
            assert(tasks2[i].guard() == Some(guard));
        } else {
            if let Task::Notified(task) = tasks[i] {
                if !(task.step is Gone) {
                    assert(m.home_wf(task.waiter));
                }
            }
            assert(m.rings.dom().contains(guard));
            let j = choose|j: int| 0 <= j < tasks.len() && (#[trigger] tasks[j]).guard() == Some(
                guard,
            );
            assert(j != i);
            assert(tasks2[j].guard() == Some(guard));
        }
    }
}

/// Whether a task has no step to make, unless it is begun anew.
pub open spec fn rests<W>(task: Task<W>) -> bool {
    match task {
        Task::Free => true,
        Task::One(task) => task.step is Done,
        Task::All(task) => task.step is Done,
        Task::Notified(task) => task.rests() || task.step is Gone,
    }
}

/// Once all tasks rest, nothing is on its way: nobody has the lock, all lists are whole, and everybody
/// who waits is listed or notified.
pub proof fn law_rest_is_quiet<W>(m: Memory<W>, tasks: Seq<Task<W>>, holder: Option<int>)
    requires
        sound(m, tasks, holder),
        tended(m, tasks),
        forall|i: int| 0 <= i < tasks.len() ==> rests(#[trigger] tasks[i]),
    ensures
        m.quiet(),
        forall|i: int|
            0 <= i < tasks.len() ==> (#[trigger] tasks[i] matches Task::Notified(task) ==> (
            !(task.step is Gone) ==> task.wf(m))),
{
    assert(holder is None) by {
        if let Some(h) = holder {
            assert(rests(tasks[h]));
        }
    }
    assert(m.rings =~= Map::<usize, Seq<usize>>::empty()) by {
        assert forall|guard: usize| !(#[trigger] m.rings.dom().contains(guard)) by {
            if m.rings.dom().contains(guard) {
                let j = choose|j: int|
                    0 <= j < tasks.len() && (#[trigger] tasks[j]).guard() == Some(guard);
                assert(rests(tasks[j]));
            }
        }
    }
    assert forall|i: int| 0 <= i < m.queue.len() implies m.waits(#[trigger] m.queue[i]) by {
        assert(m.queued(i));
        assert(m.linked(m.queue[i]));
    }
    assert forall|i: int| 0 <= i < tasks.len() && #[trigger] tasks[i] is Notified && !(
    tasks[i]->Notified_0.step is Gone) implies tasks[i]->Notified_0.wf(m) by {
        let task = tasks[i]->Notified_0;
        assert(rests(tasks[i]));
        assert(task_ok(tasks[i], m, None));
        assert(m.home_wf(task.waiter));
    }
}

/// Nobody is lost: whoever waits is in a list, in the hand of whoever has the lock, or notified.
pub proof fn law_nobody_is_lost<W>(
    m: Memory<W>,
    tasks: Seq<Task<W>>,
    holder: Option<int>,
    i: int,
)
    requires
        sound(m, tasks, holder),
        0 <= i < tasks.len(),
        tasks[i] matches Task::Notified(task) && task.rests() && task.stage
            == Stage::Waiting,
    ensures
        ({
            let key = tasks[i]->Notified_0.waiter;
            ||| m.linked(key)
            ||| hand_of(tasks, holder) == Some(key)
            ||| m.waiter(key).notification is Some
        }),
{
    assert(task_ok(tasks[i], m, hand_of(tasks, holder)));
    assert(m.home_wf(tasks[i]->Notified_0.waiter));
}

/// Whoever was unparked and looks for its notification does not look in vain: it is in the hand of whoever
/// has the lock, who stores the notification before it gives the lock back.
pub proof fn law_notification_is_on_its_way<W>(
    m: Memory<W>,
    tasks: Seq<Task<W>>,
    holder: Option<int>,
    i: int,
)
    requires
        sound(m, tasks, holder),
        0 <= i < tasks.len(),
        tasks[i] matches Task::Notified(task) && task.step is Spin && m.waiter(
            task.waiter,
        ).notification is None,
    ensures
        m.locked,
        holder is Some,
        tasks[holder->Some_0].holds(),
        tasks[holder->Some_0].hand() == Some(tasks[i]->Notified_0.waiter),
{
    let key = tasks[i]->Notified_0.waiter;
    assert(task_ok(tasks[i], m, hand_of(tasks, holder)));
    assert(m.linked(key) ==> m.waits(key));
    assert(m.home_wf(key));
}

/// No waker is lost: whoever has polled in vain is woken by whoever notifies it. A notification that is
/// about to be stored comes with the waker of the last poll.
pub proof fn law_pending_waker_is_taken<W>(
    m: Memory<W>,
    tasks: Seq<Task<W>>,
    holder: Option<int>,
    i: int,
    h: int,
)
    requires
        sound(m, tasks, holder),
        wakeful(m, tasks, holder),
        0 <= i < tasks.len(),
        0 <= h < tasks.len(),
        tasks[i] matches Task::Notified(task) && task.step is Pending,
    ensures
        ({
            let key = tasks[i]->Notified_0.waiter;
            let last = tasks[i]->Notified_0.last@;
            &&& last is Some
            &&& m.linked(key) ==> callable(m.waiter(key), last)
            &&& tasks[h] matches Task::One(task) ==> {
                task.step matches OneStep::Store(notified, _) ==> {
                    notified == key ==> task.unpark.waker == last
                }
            }
            &&& tasks[h] matches Task::All(task) ==> {
                task.step matches AllStep::Store(notified) ==> {
                    notified == key ==> task.unpark.waker == last
                }
            }
            &&& tasks[h] matches Task::Notified(task) ==> {
                task.step is Remove && task.removing.step is Release ==> {
                    task.removing.release.step matches OneStep::Store(notified, _) ==> {
                        notified == key ==> task.removing.release.unpark.waker == last
                    }
                }
            }
        }),
{
    assert(task_ok(tasks[i], m, hand_of(tasks, holder)));
    if tasks[h].holds() {
        assert(holder == Some(h));
    }
}

/// What is so of others stays so where a task begins or ends.
pub proof fn lemma_joined<W>(
    m: Memory<W>,
    tasks: Seq<Task<W>>,
    holder: Option<int>,
    after: Memory<W>,
    i: int,
    then: Task<W>,
    tasks2: Seq<Task<W>>,
)
    requires
        sound(m, tasks, holder),
        wakeful(m, tasks, holder),
        tended(m, tasks),
        0 <= i <= tasks.len(),
        tasks2 == if i < tasks.len() {
            tasks.update(i, then)
        } else {
            tasks.push(then)
        },
        i < tasks.len() ==> then.holds() == tasks[i].holds() && then.hand() == tasks[i].hand()
            && unparks(then) == unparks(tasks[i]) && then.guard() == tasks[i].guard(),
        i == tasks.len() ==> !then.holds(),
        after.rings == m.rings,
        forall|key: usize| key < m.waiters.len() && m.live(key) ==> #[trigger] same(m, after, key),
        then matches Task::Notified(task) ==> alert(
            task,
            after,
            hand_of(tasks, holder),
            unpark_of(tasks, holder),
        ),
    ensures
        wakeful(after, tasks2, holder),
        tended(after, tasks2),
{
    let hand = hand_of(tasks, holder);
    let unpark = unpark_of(tasks, holder);
    assert(hand_of(tasks2, holder) == hand);
    assert(unpark_of(tasks2, holder) == unpark);
    assert forall|j: int| 0 <= j < tasks2.len() && #[trigger] tasks2[j] is Notified implies alert(
        tasks2[j]->Notified_0,
        after,
        hand,
        unpark,
    ) by {
        if j != i {
            let task = tasks[j]->Notified_0;
            assert(tasks[j] == tasks2[j]);
            assert(task_ok(tasks[j], m, hand));
            assert(alert(task, m, hand, unpark));
            if !(task.step is Gone) {
                assert(same(m, after, task.waiter));
            }
        }
    }
    assert forall|guard: usize| #[trigger] after.rings.dom().contains(guard) implies attended(
        tasks2,
        guard,
    ) by {
        assert(m.rings.dom().contains(guard));
        let j = choose|j: int| 0 <= j < tasks.len() && (#[trigger] tasks[j]).guard() == Some(guard);
        assert(tasks2[j].guard() == Some(guard));
    }
}

} // verus!
