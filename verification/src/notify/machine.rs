//! A [Notify] with all tasks that are on their way, whose steps may come in any order.

use crate::notify::all::{AllProgress, AllStep, NotifyingAll};
use crate::notify::list::{without, Home};
use crate::notify::memory::{Memory, Notify, WaiterCells};
use crate::notify::notified::{Notified, NotifiedStep, Stage};
use crate::notify::one::{NotifyingOne, OneStep};
use crate::notify::poll::{PollStep, Polling};
use crate::notify::remove::{RemoveStep, Removing};
use crate::notify::state::{Round, State, Status, ROUND_UNIT};
use crate::parker::{Park, ParkStep, Unpark, UnparkStep};
use crate::notify::wakeful::{
    lemma_joined, lemma_tended_step, lemma_wakeful_step, tended, wakeful,
};
use vstd::prelude::*;

verus! {

/// A task of a [Machine].
pub enum Task<W> {
    /// No task.
    Free,
    One(NotifyingOne<W>),
    All(NotifyingAll<W>),
    Notified(Notified<W>),
}

impl<W> Task<W> {
    /// Whether it has the lock.
    pub open spec fn holds(self) -> bool {
        match self {
            Task::Free => false,
            Task::One(task) => task.holds(),
            Task::All(task) => task@.holds(),
            Task::Notified(task) => task.holds(),
        }
    }

    /// The waiter that it has taken from a list and has not notified yet.
    pub open spec fn hand(self) -> Option<usize> {
        match self {
            Task::Free => None,
            Task::One(task) => task.hand(),
            Task::All(task) => task@.hand(),
            Task::Notified(task) => task.hand(),
        }
    }

    /// Its waiter.
    pub open spec fn key(self) -> Option<usize> {
        match self {
            Task::Notified(task) => if task.step is Gone {
                None
            } else {
                Some(task.waiter)
            },
            _ => None,
        }
    }

    /// The guard of its ring.
    pub open spec fn guard(self) -> Option<usize> {
        match self {
            Task::All(task) => if task@.rings() {
                Some(task@.ring->Some_0.0)
            } else {
                None
            },
            _ => None,
        }
    }
}

impl<W> Memory<W> {
    /// Whether the waiter at `key` is in a list.
    pub open spec fn linked(self, key: usize) -> bool {
        self.home(key) is Listed || self.home(key) is Ringed
    }

    /// A waiter in the hand of whoever has the lock.
    pub open spec fn handled(self, key: usize) -> bool {
        &&& self.live(key)
        &&& self.home(key) is Out
        &&& self.waiter(key).notification is None
    }

    /// Whether the state tells if somebody is listed.
    pub open spec fn telling(self) -> bool {
        self.state.status == Status::Waiting <==> self.queue.len() > 0
    }
}

/// What is always so of a notification of one waiter.
pub open spec fn one_ok<W>(task: NotifyingOne<W>, m: Memory<W>) -> bool {
    &&& !(task.step is Load) ==> task.round is Some
    &&& match task.step {
        OneStep::Load | OneStep::Lock | OneStep::Reload => {
            task.unpark == Unpark::<W> { step: UnparkStep::Load, waker: None }
        },
        OneStep::Attempt(state) | OneStep::Retry(state) => {
            &&& state.wf()
            &&& task.unpark == Unpark::<W> { step: UnparkStep::Load, waker: None }
        },
        OneStep::Pop(state) => {
            &&& state == m.state
            &&& state.status == Status::Waiting
            &&& task.unpark == Unpark::<W> { step: UnparkStep::Load, waker: None }
        },
        OneStep::Unpark(key, state) => {
            &&& state == m.state
            &&& state.status == Status::Waiting
            &&& m.handled(key)
            &&& !(task.unpark.step is Done)
            &&& task.unpark.ready(m.waiter(key).parked)
        },
        OneStep::Store(key, state) => {
            &&& state == m.state
            &&& state.status == Status::Waiting
            &&& m.handled(key)
        },
        OneStep::Settle(state) => state == m.state && state.status == Status::Waiting,
        OneStep::Unlock | OneStep::Done => true,
    }
}

/// What is always so of a notification of all waiters.
pub open spec fn all_ok<W>(task: AllProgress<W>, m: Memory<W>) -> bool {
    &&& task.wakers.len() <= crate::notify::wakers::WAKERS
    &&& if task.rings() {
        &&& task.ring is Some
        &&& task.ring->Some_0.1.wf()
        &&& m.live(task.ring->Some_0.0)
        &&& m.rings.dom().contains(task.ring->Some_0.0)
    } else {
        task.ring is None
    }
    &&& match task.step {
        AllStep::Attempt(state) | AllStep::Retry(state) => state.wf(),
        AllStep::Renew(state) => state == m.state && state.status == Status::Waiting,
        AllStep::Cut(round) => round.wf(),
        AllStep::Unpark(key) => {
            &&& m.handled(key)
            &&& task.wakers.len() < crate::notify::wakers::WAKERS
            &&& !(task.unpark.step is Done)
            &&& task.unpark.ready(m.waiter(key).parked)
        },
        AllStep::Store(key) => {
            &&& m.handled(key)
            &&& task.wakers.len() < crate::notify::wakers::WAKERS
        },
        AllStep::DrainStore(key) => m.handled(key),
        AllStep::Finish | AllStep::LastWake | AllStep::DrainUnlock | AllStep::Leave => {
            m.rings[task.ring->Some_0.0].len() == 0
        },
        _ => true,
    }
}

/// What is always so of a poll.
pub open spec fn polling_ok<W>(task: Polling, m: Memory<W>) -> bool {
    &&& task.round.wf()
    &&& match task.step {
        PollStep::Attempt(state) => state.wf(),
        PollStep::Settle(state) => {
            &&& state.wf()
            &&& state.status == Status::Waiting ==> state == m.state
        },
        PollStep::Push => m.state.status == Status::Waiting && m.state.round == task.round,
        PollStep::Unlock(Some(notification)) => notification.wf(),
        PollStep::Done(_) => false,
        _ => true,
    }
}

/// What is always so of a removal.
pub open spec fn removing_ok<W>(task: Removing<W>, m: Memory<W>) -> bool {
    match task.step {
        RemoveStep::Clear(state) => state == m.state && state.status == Status::Waiting,
        RemoveStep::Release => one_ok(task.release, m) && !(task.release.step is Done),
        RemoveStep::Done => false,
        _ => true,
    }
}

/// Whether somebody was listed and has not been told that it is over.
pub open spec fn enlisted<W>(task: Notified<W>) -> bool {
    match task.step {
        NotifiedStep::Enable | NotifiedStep::Poll => task.polling.step == PollStep::Unlock(None),
        NotifiedStep::Remove => {
            task.removing.step is Load || task.removing.step is Lock || task.removing.step is Unlink
        },
        NotifiedStep::Keep(_)
        | NotifiedStep::Recall
        | NotifiedStep::Leave
        | NotifiedStep::Gone => false,
        _ => task.stage == Stage::Waiting,
    }
}

/// Whether each step finds somebody who waits in the stage that it is for.
pub open spec fn staged<W>(task: Notified<W>) -> bool {
    match task.step {
        NotifiedStep::Enable | NotifiedStep::Poll => task.stage == Stage::Init,
        NotifiedStep::Check | NotifiedStep::Park | NotifiedStep::Spin | NotifiedStep::Pending => {
            task.stage == Stage::Waiting
        },
        NotifiedStep::Keep(_) | NotifiedStep::Ready | NotifiedStep::Recall => {
            task.stage == Stage::Finished
        },
        NotifiedStep::Clear | NotifiedStep::Remove => task.stage != Stage::Init,
        _ => true,
    }
}

/// What is always so of somebody who waits, with this waiter in the hand of whoever has the lock.
pub open spec fn notified_ok<W>(task: Notified<W>, m: Memory<W>, hand: Option<usize>) -> bool {
    let key = task.waiter;
    let cells = m.waiter(key);
    !(task.step is Gone) ==> {
        &&& task.round.wf()
        &&& m.live(key)
        &&& !(m.home(key) is Guard)
        &&& staged(task)
        // Whoever is listed is in a list, in the hand of a task, or notified.
        &&& if enlisted(task) {
            &&& m.home(key) is Out && cells.notification is None ==> hand == Some(key)
            &&& cells.notification is Some ==> m.home(key) is Out && hand != Some(key)
        } else {
            m.home(key) is Out && hand != Some(key)
        }
        // Whoever is not listed yet can be.
        &&& task.stage == Stage::Init && !enlisted(task) ==> m.waits(key)
        &&& match task.step {
            NotifiedStep::Enable | NotifiedStep::Poll => {
                &&& polling_ok(task.polling, m)
                &&& task.polling.waiter == key
                &&& task.step is Poll ==> task.park.step is Load && task.park.waker is Some
            },
            NotifiedStep::Keep(notification) => notification.wf(),
            NotifiedStep::Check => task.park.step is Load && task.park.waker is Some,
            NotifiedStep::Park => {
                &&& task.park.ready(cells.parked)
                &&& !(task.park.step is Ready) && !(task.park.step is Pending)
                &&& task.park.step matches ParkStep::Write(index) ==> (cells.parked is Unparked
                    || cells.parked == crate::parker::State::Parking(index))
            },
            NotifiedStep::Spin => cells.parked is Unparked,
            NotifiedStep::Clear => task.stage == Stage::Waiting ==> cells.notification is Some,
            NotifiedStep::Remove => {
                &&& removing_ok(task.removing, m)
                &&& task.removing.waiter == key
            },
            _ => true,
        }
    }
}

/// What is always so of a task.
pub open spec fn task_ok<W>(task: Task<W>, m: Memory<W>, hand: Option<usize>) -> bool {
    match task {
        Task::Free => true,
        Task::One(task) => one_ok(task, m),
        Task::All(task) => task.wf(m) && all_ok(task@, m),
        Task::Notified(task) => notified_ok(task, m, hand),
    }
}

/// What the state tells while this poll has the lock.
pub open spec fn poll_tells<W>(task: Polling, m: Memory<W>) -> bool {
    task.step is Push || m.telling()
}

/// What the state tells while this notification has the lock.
pub open spec fn one_tells<W>(task: NotifyingOne<W>, m: Memory<W>) -> bool {
    match task.step {
        OneStep::Unpark(_, _) | OneStep::Store(_, _) | OneStep::Settle(_) => {
            m.state.status == Status::Waiting
        },
        _ => m.telling(),
    }
}

/// What the state tells while this removal has the lock.
pub open spec fn tells_of_removal<W>(task: Removing<W>, m: Memory<W>) -> bool {
    match task.step {
        RemoveStep::Inspect | RemoveStep::Clear(_) => m.queue.len() == 0,
        RemoveStep::Release => one_tells(task.release, m),
        _ => m.telling(),
    }
}

/// What the state tells while the lock is with such a task.
pub open spec fn tells<W>(task: Task<W>, m: Memory<W>) -> bool {
    match task {
        Task::Free => m.telling(),
        Task::One(task) => one_tells(task, m),
        Task::All(task) => match task.step {
            AllStep::Cut(_) => m.state.status != Status::Waiting,
            _ => m.telling(),
        },
        Task::Notified(task) => match task.step {
            NotifiedStep::Enable | NotifiedStep::Poll => poll_tells(task.polling, m),
            NotifiedStep::Remove => tells_of_removal(task.removing, m),
            _ => m.telling(),
        },
    }
}

impl<W> Memory<W> {
    /// Whoever is in a list waits.
    pub open spec fn patient(self) -> bool {
        forall|key: usize|
            key < self.waiters.len() && #[trigger] self.linked(key) ==> self.waits(key)
    }
}

/// The waiter in the hand of whoever has the lock.
pub open spec fn hand_of<W>(tasks: Seq<Task<W>>, holder: Option<int>) -> Option<usize> {
    match holder {
        Some(holder) => tasks[holder].hand(),
        None => None,
    }
}

/// No two tasks share a waiter or a ring.
pub open spec fn apart<W>(one: Task<W>, other: Task<W>) -> bool {
    &&& one.key() is Some ==> one.key() != other.key()
    &&& one.guard() is Some ==> one.guard() != other.guard()
}

/// At most one task has the lock.
pub open spec fn exclusive<W>(m: Memory<W>, tasks: Seq<Task<W>>, holder: Option<int>) -> bool {
    match holder {
        Some(holder) => {
            &&& m.locked
            &&& 0 <= holder < tasks.len()
            &&& tasks[holder].holds()
            &&& forall|i: int|
                0 <= i < tasks.len() && i != holder ==> !(#[trigger] tasks[i]).holds()
        },
        None => {
            &&& !m.locked
            &&& forall|i: int| 0 <= i < tasks.len() ==> !(#[trigger] tasks[i]).holds()
        },
    }
}

/// What is so of a memory and of the tasks on it after any steps in any order.
pub open spec fn sound<W>(m: Memory<W>, tasks: Seq<Task<W>>, holder: Option<int>) -> bool {
    &&& m.wf()
    &&& m.state.round != Round(0)
    &&& m.patient()
    &&& exclusive(m, tasks, holder)
    &&& forall|i: int|
        0 <= i < tasks.len() ==> #[trigger] task_ok(tasks[i], m, hand_of(tasks, holder))
    &&& forall|i: int, j: int|
        0 <= i < tasks.len() && 0 <= j < tasks.len() && i != j ==> #[trigger] apart(
            tasks[i],
            tasks[j],
        )
    &&& match holder {
        Some(holder) => tells(tasks[holder], m),
        None => m.telling(),
    }
}

/// Nothing about the place at `key` has changed.
pub open spec fn same<W>(m: Memory<W>, after: Memory<W>, key: usize) -> bool {
    &&& after.live(key) == m.live(key)
    &&& after.home(key) == m.home(key)
    &&& after.waiter(key) == m.waiter(key)
}

/// What others see of a step without the lock: nothing but a state in which nobody waits, and the
/// cells at `mine`.
pub open spec fn aside<W>(m: Memory<W>, after: Memory<W>, mine: Option<usize>) -> bool {
    &&& after.queue == m.queue
    &&& after.waiters.len() == m.waiters.len()
    &&& m.state.status == Status::Waiting ==> after.state == m.state
    &&& m.state.status != Status::Waiting ==> after.state.status != Status::Waiting
    &&& forall|key: usize|
        key < m.waiters.len() && Some(key) != mine ==> #[trigger] same(m, after, key)
    &&& forall|guard: usize| #[trigger]
        m.rings.dom().contains(guard) && Some(guard) != mine ==> {
            &&& after.rings.dom().contains(guard)
            &&& after.rings[guard] == m.rings[guard]
        }
}

/// What becomes of the waiter at `key` by a step of whoever has the lock: it moves from list to list
/// or into the hand, it is unparked in the hand, or it leaves the hand notified.
pub open spec fn moved<W>(
    m: Memory<W>,
    hand: Option<usize>,
    after: Memory<W>,
    then_hand: Option<usize>,
    key: usize,
) -> bool {
    let cells = m.waiter(key);
    let then_cells = after.waiter(key);
    &&& after.live(key)
    &&& {
        ||| {
            &&& after.home(key) == m.home(key)
            &&& then_cells == cells
            &&& (hand == Some(key) <==> then_hand == Some(key))
        }
        ||| {
            &&& m.linked(key)
            &&& then_cells == cells
            &&& if then_hand == Some(key) {
                after.home(key) is Out
            } else {
                after.linked(key)
            }
        }
        ||| {
            &&& hand == Some(key)
            &&& m.home(key) is Out
            &&& after.home(key) is Out
            &&& if then_hand == Some(key) {
                &&& then_cells.notification == cells.notification
                &&& then_cells.parked == cells.parked || then_cells.parked is Unparked
            } else {
                &&& then_cells.notification is Some
                &&& then_cells.parked == cells.parked
            }
        }
    }
}

/// The ring of `guard` is there still, and nobody has joined it.
pub open spec fn ring_kept<W>(m: Memory<W>, after: Memory<W>, guard: usize) -> bool {
    &&& m.live(guard) ==> after.live(guard)
    &&& after.rings.dom().contains(guard)
    &&& m.rings[guard].len() == 0 ==> after.rings[guard].len() == 0
}

/// What others see of a step of whoever has the lock.
pub open spec fn held<W>(
    m: Memory<W>,
    hand: Option<usize>,
    after: Memory<W>,
    then_hand: Option<usize>,
    mine: Option<usize>,
) -> bool {
    &&& forall|key: usize|
        m.live(key) && !(m.home(key) is Guard) && Some(key) != mine ==> #[trigger] moved(
            m,
            hand,
            after,
            then_hand,
            key,
        )
    &&& forall|guard: usize|
        m.rings.dom().contains(guard) && Some(guard) != mine ==> #[trigger] ring_kept(
            m,
            after,
            guard,
        )
}

/// A task that does not have the lock is left alone by those that do not have it either.
proof fn lemma_aside<W>(
    task: Task<W>,
    m: Memory<W>,
    after: Memory<W>,
    hand: Option<usize>,
    mine: Option<usize>,
)
    requires
        m.wf(),
        task_ok(task, m, hand),
        task.holds() ==> task.hand() == hand,
        aside(m, after, mine),
        task.key() is Some ==> task.key() != mine,
        task.guard() is Some ==> task.guard() != mine,
        hand is Some && hand == mine ==> {
            &&& m.handled(hand->Some_0) ==> after.handled(hand->Some_0)
            &&& (m.waiter(hand->Some_0).parked is Parking <==> after.waiter(
                hand->Some_0,
            ).parked is Parking)
        },
    ensures
        task_ok(task, after, hand),
        task.holds() && tells(task, m) ==> tells(task, after),
{
    match task.key() {
        Some(key) => {
            assert(same(m, after, key));
        },
        None => {},
    }
    match task.guard() {
        Some(guard) => {
            assert(same(m, after, guard));
        },
        None => {},
    }
    match task.hand() {
        Some(key) => {
            if mine != Some(key) && key < m.waiters.len() {
                assert(same(m, after, key));
            }
        },
        None => {},
    }
}

/// A task is left alone by whoever has the lock.
proof fn lemma_held<W>(
    task: Task<W>,
    m: Memory<W>,
    hand: Option<usize>,
    after: Memory<W>,
    then_hand: Option<usize>,
    mine: Option<usize>,
)
    requires
        m.wf(),
        m.patient(),
        !task.holds(),
        task_ok(task, m, hand),
        held(m, hand, after, then_hand, mine),
        task.key() is Some ==> task.key() != mine,
        task.guard() is Some ==> task.guard() != mine,
    ensures
        task_ok(task, after, then_hand),
{
    match task.key() {
        Some(key) => {
            assert(moved(m, hand, after, then_hand, key));
            assert(m.linked(key) ==> m.waits(key));
        },
        None => {},
    }
    match task.guard() {
        Some(guard) => {
            assert(ring_kept(m, after, guard));
        },
        None => {},
    }
}

/// A memory in which whoever has the lock has taken the waiter at the back of the queue.
proof fn lemma_popped<W>(m: Memory<W>, after: Memory<W>)
    requires
        m.wf(),
        m.patient(),
        m.queue.len() > 0,
        after == (Memory {
            queue: m.queue.drop_last(),
            homes: m.homes.update(m.queue.last() as int, Home::Out),
            ..m
        }),
    ensures
        m.live(m.queue.last()),
        m.linked(m.queue.last()),
        m.waits(m.queue.last()),
        m.waiter(m.queue.last()).wf(),
        after.handled(m.queue.last()),
        after.patient(),
        held(m, None, after, Some(m.queue.last()), None),
{
    let key = m.queue.last();
    assert(m.queued(m.queue.len() - 1));
    assert(m.linked(key));
    assert(m.waiter(key).wf());
    assert forall|other: usize|
        m.live(other) && !(m.home(other) is Guard) implies #[trigger] moved(
        m,
        None,
        after,
        Some(key),
        other,
    ) by {}
    assert forall|other: usize|
        other < after.waiters.len() && #[trigger] after.linked(other) implies after.waits(other) by {
        assert(m.linked(other));
    }
}

/// A notification of one waiter makes a step.
proof fn lemma_one<W>(task: NotifyingOne<W>, m: Memory<W>)
    requires
        m.wf(),
        m.patient(),
        m.state.round != Round(0),
        one_ok(task, m),
        task.holds() ==> m.locked && one_tells(task, m),
    ensures
        task.ready(m),
        ({
            let (then, after) = task.next(m);
            &&& one_ok(then, after)
            &&& after.patient()
            &&& after.state.round == m.state.round
            &&& if task.holds() {
                &&& held(m, task.hand(), after, then.hand(), None)
                &&& if then.holds() {
                    after.locked && one_tells(then, after)
                } else {
                    !after.locked && after.telling() && then.hand() is None
                }
            } else {
                &&& aside(m, after, None)
                &&& if then.holds() {
                    &&& !m.locked
                    &&& after.locked
                    &&& then.hand() is None
                    &&& m.telling() ==> one_tells(then, after)
                } else {
                    after.locked == m.locked
                }
            }
        }),
{
    let (then, after) = task.next(m);
    match task.step {
        OneStep::Pop(state) => {
            lemma_popped(m, after);
        },
        OneStep::Unpark(key, state) => {
            assert(m.waiter(key).wf());
            assert forall|other: usize|
                m.live(other) && !(m.home(other) is Guard) implies #[trigger] moved(
                m,
                task.hand(),
                after,
                then.hand(),
                other,
            ) by {}
            assert forall|other: usize|
                other < after.waiters.len() && #[trigger] after.linked(
                    other,
                ) implies after.waits(other) by {
                assert(m.linked(other));
            }
        },
        OneStep::Store(key, state) => {
            assert forall|other: usize|
                m.live(other) && !(m.home(other) is Guard) implies #[trigger] moved(
                m,
                task.hand(),
                after,
                then.hand(),
                other,
            ) by {}
            assert forall|other: usize|
                other < after.waiters.len() && #[trigger] after.linked(
                    other,
                ) implies after.waits(other) by {
                assert(m.linked(other));
            }
        },
        _ => {
            assert(forall|other: usize| after.linked(other) ==> m.linked(other));
        },
    }
}

/// A memory in which whoever has the lock has taken the waiter at the back of a ring.
proof fn lemma_ring_popped<W>(m: Memory<W>, guard: usize)
    requires
        m.wf(),
        m.patient(),
        m.rings.dom().contains(guard),
        m.rings[guard].len() > 0,
    ensures
        m.waits(m.rings[guard].last()),
        m.waiter(m.rings[guard].last()).wf(),
        m.popped(guard).handled(m.rings[guard].last()),
        m.popped(guard).patient(),
        held(m, None, m.popped(guard), Some(m.rings[guard].last()), Some(guard)),
        m.live(guard) ==> m.popped(guard).live(guard),
{
    let key = m.rings[guard].last();
    let after = m.popped(guard);
    assert(m.ring_wf(guard));
    assert(m.ringed(guard, m.rings[guard].len() - 1));
    assert(m.linked(key));
    assert(m.waiter(key).wf());
    assert forall|other: usize|
        m.live(other) && !(m.home(other) is Guard) && Some(other) != Some(
            guard,
        ) implies #[trigger] moved(m, None, after, Some(key), other) by {}
    assert forall|other: usize|
        other < after.waiters.len() && #[trigger] after.linked(other) implies after.waits(other) by {
        assert(m.linked(other));
    }
}

/// A memory in which whoever has the lock has cut the queue off.
proof fn lemma_cut<W>(m: Memory<W>)
    requires
        m.wf(),
        m.patient(),
    ensures
        ({
            let guard = m.vacancy();
            let after = m.with_room().cut(guard);
            &&& after.live(guard)
            &&& after.rings.dom().contains(guard)
            &&& after.patient()
            &&& held(m, None, after, None, None)
            &&& forall|key: usize| m.live(key) ==> key != guard
        }),
{
    let guard = m.vacancy();
    let room = m.with_room();
    let after = room.cut(guard);
    m.lemma_room();
    if m.vacant.len() > 0 {
        assert(m.vacated(m.vacant.len() - 1));
    }
    assert(after.home(guard) is Guard);
    assert forall|key: usize| key < room.waiters.len() && key != guard implies #[trigger] after.home(
        key,
    ) == (if m.home(key) is Listed {
        Home::Ringed(guard)
    } else {
        m.home(key)
    }) by {
        assert(room.home(key) == m.home(key));
    }
    assert forall|key: usize| m.live(key) implies #[trigger] after.live(key) by {
        assert(room.live(key));
    }
    assert forall|key: usize| m.live(key) && !(m.home(key) is Guard) implies #[trigger] moved(
        m,
        None,
        after,
        None,
        key,
    ) by {
        assert(room.home(key) == m.home(key));
        assert(after.live(key));
    }
    assert forall|key: usize|
        key < after.waiters.len() && #[trigger] after.linked(key) implies after.waits(key) by {
        assert(key != guard);
        assert(room.home(key) == m.home(key));
        assert(m.linked(key));
        assert(after.live(key));
    }
    assert forall|other: usize| m.rings.dom().contains(other) implies #[trigger] ring_kept(
        m,
        after,
        other,
    ) by {
        assert(m.ring_wf(other));
    }
}

/// A memory in which whoever owns a place has given it back.
proof fn lemma_vacated<W>(m: Memory<W>, after: Memory<W>, key: usize)
    requires
        after.vacant == m.vacant.push(key),
        after.waiters == m.waiters,
        after.homes.len() == m.homes.len(),
        forall|k: int| 0 <= k < m.homes.len() && k != key ==> after.homes[k] == m.homes[k],
        m.homes.len() == m.waiters.len(),
    ensures
        forall|other: usize|
            other < m.waiters.len() && other != key ==> #[trigger] same(m, after, other),
{
    assert forall|other: usize| other < m.waiters.len() && other != key implies #[trigger] same(
        m,
        after,
        other,
    ) by {
        if m.vacant.contains(other) {
            let i = m.vacant.index_of(other);
            assert(after.vacant[i] == other);
        }
        if after.vacant.contains(other) {
            let i = after.vacant.index_of(other);
            assert(m.vacant[i] == other);
        }
    }
}

/// A notification of all waiters makes a step.
proof fn lemma_all<W>(task: AllProgress<W>, m: Memory<W>)
    requires
        m.wf(),
        m.patient(),
        m.state.round != Round(0),
        m.state.round.succ() != Round(0),
        all_ok(task, m),
        task.holds() ==> m.locked,
        task.holds() ==> if task.step is Cut {
            m.state.status != Status::Waiting
        } else {
            m.telling()
        },
    ensures
        task.ready(m),
        ({
            let (then, after) = task.next(m);
            let mine = match task.ring {
                Some((guard, _)) => Some(guard),
                None => None,
            };
            &&& all_ok(then, after)
            &&& after.patient()
            &&& after.state.round != Round(0)
            &&& then.ring is Some ==> then.ring == task.ring || !m.live(then.ring->Some_0.0)
            &&& if task.holds() {
                &&& held(m, task.hand(), after, then.hand(), mine)
                &&& if then.holds() {
                    &&& after.locked
                    &&& if then.step is Cut {
                        after.state.status != Status::Waiting
                    } else {
                        after.telling()
                    }
                } else {
                    !after.locked && after.telling() && then.hand() is None
                }
            } else {
                &&& aside(m, after, mine)
                &&& if then.holds() {
                    &&& !m.locked
                    &&& after.locked
                    &&& then.hand() is None
                    &&& !(then.step is Cut)
                    &&& m.telling() ==> after.telling()
                } else {
                    after.locked == m.locked
                }
            }
        }),
{
    let (then, after) = task.next(m);
    match task.step {
        AllStep::Cut(round) => {
            lemma_cut(m);
        },
        AllStep::Pop | AllStep::DrainPop => {
            let guard = task.ring->Some_0.0;
            if m.rings[guard].len() > 0 {
                lemma_ring_popped(m, guard);
            }
            assert(after.linked(guard) ==> m.linked(guard));
        },
        AllStep::Unpark(key) | AllStep::Store(key) | AllStep::DrainStore(key) => {
            let guard = task.ring->Some_0.0;
            assert(m.waiter(key).wf());
            assert forall|other: usize|
                m.live(other) && !(m.home(other) is Guard) && Some(other) != Some(
                    guard,
                ) implies #[trigger] moved(m, task.hand(), after, then.hand(), other) by {}
            assert forall|other: usize|
                other < after.waiters.len() && #[trigger] after.linked(
                    other,
                ) implies after.waits(other) by {
                assert(m.linked(other));
            }
        },
        AllStep::Leave => {
            let guard = task.ring->Some_0.0;
            lemma_vacated(m, after, guard);
            assert forall|other: usize|
                other < after.waiters.len() && #[trigger] after.linked(
                    other,
                ) implies after.waits(other) by {
                assert(other != guard);
                assert(same(m, after, other));
                assert(m.linked(other));
            }
        },
        _ => {
            assert(forall|other: usize| after.linked(other) ==> m.linked(other));
        },
    }
}

/// A poll makes a step.
proof fn lemma_polling<W>(task: Polling, m: Memory<W>)
    requires
        m.wf(),
        m.patient(),
        m.state.round != Round(0),
        polling_ok(task, m),
        task.holds() ==> m.locked && poll_tells(task, m),
        m.live(task.waiter),
        task.step != PollStep::Unlock(None) ==> m.home(task.waiter) is Out && m.waits(task.waiter),
    ensures
        task.ready(m),
        ({
            let (then, after) = task.next(m);
            let mine = Some(task.waiter);
            &&& then.waiter == task.waiter
            &&& match then.step {
                PollStep::Done(Some(notification)) => notification.wf(),
                PollStep::Done(None) => true,
                _ => polling_ok(then, after),
            }
            &&& after.patient()
            &&& after.state.round == m.state.round
            &&& if task.step is Push {
                &&& after.live(task.waiter)
                &&& after.linked(task.waiter)
                &&& after.waits(task.waiter)
                &&& then.step == PollStep::Unlock(None)
            } else {
                &&& same(m, after, task.waiter)
                &&& then.step != PollStep::Unlock(None)
                &&& then.step == PollStep::Done(None) <==> (task.step == PollStep::Unlock(None)
                    || task.step == PollStep::Done(None))
            }
            &&& if task.holds() {
                &&& held(m, None, after, None, mine)
                &&& if then.holds() {
                    after.locked && poll_tells(then, after)
                } else {
                    !after.locked && after.telling()
                }
            } else {
                &&& aside(m, after, mine)
                &&& if then.holds() {
                    &&& !m.locked
                    &&& after.locked
                    &&& m.telling() ==> poll_tells(then, after)
                } else {
                    after.locked == m.locked
                }
            }
        }),
{
    let (then, after) = task.next(m);
    if task.step is Push {
        assert forall|other: usize|
            other < after.waiters.len() && #[trigger] after.linked(other) implies after.waits(
            other,
        ) by {
            if other != task.waiter {
                assert(m.linked(other));
            }
        }
        assert forall|other: usize|
            m.live(other) && !(m.home(other) is Guard) && Some(other) != Some(
                task.waiter,
            ) implies #[trigger] moved(m, None, after, None, other) by {}
    } else {
        assert(forall|other: usize| after.linked(other) ==> m.linked(other));
    }
}

/// Nobody but the one who left is missing.
proof fn lemma_without(nodes: Seq<usize>, key: usize)
    ensures
        nodes.len() == 0 ==> without(nodes, key).len() == 0,
{
}

/// A removal makes a step.
proof fn lemma_removing<W>(task: Removing<W>, m: Memory<W>)
    requires
        m.wf(),
        m.patient(),
        m.state.round != Round(0),
        removing_ok(task, m),
        task.holds() ==> m.locked && tells_of_removal(task, m),
        m.live(task.waiter),
        !(m.home(task.waiter) is Guard),
        !(task.step is Load || task.step is Lock || task.step is Unlink) ==> m.home(
            task.waiter,
        ) is Out,
        task.hand() != Some(task.waiter),
        task.step is Load && m.waiter(task.waiter).notification is Some ==> m.home(
            task.waiter,
        ) is Out,
    ensures
        task.ready(m),
        ({
            let (then, after) = task.next(m);
            let mine = Some(task.waiter);
            &&& then.waiter == task.waiter
            &&& then.step is Done || removing_ok(then, after)
            &&& after.patient()
            &&& after.state.round == m.state.round
            &&& then.hand() != Some(task.waiter)
            &&& if task.step is Unlink {
                &&& after.live(task.waiter)
                &&& after.home(task.waiter) is Out
            } else {
                same(m, after, task.waiter)
            }
            &&& if task.holds() {
                &&& held(m, task.hand(), after, then.hand(), mine)
                &&& if then.holds() {
                    after.locked && tells_of_removal(then, after)
                } else {
                    !after.locked && after.telling() && then.hand() is None
                }
            } else {
                &&& aside(m, after, mine)
                &&& if then.holds() {
                    &&& !m.locked
                    &&& after.locked
                    &&& then.hand() is None
                    &&& m.telling() ==> tells_of_removal(then, after)
                } else {
                    after.locked == m.locked
                }
            }
        }),
{
    let (then, after) = task.next(m);
    let key = task.waiter;
    match task.step {
        RemoveStep::Release => {
            lemma_one(task.release, m);
            if task.holds() {
                assert(moved(m, task.hand(), after, then.hand(), key));
            } else {
                assert(same(m, after, key));
            }
        },
        RemoveStep::Unlink => {
            assert(m.home_wf(key));
            if m.queue.contains(key) {
                assert(m.queued(m.queue.index_of(key)));
            }
            assert forall|other: usize|
                other < after.waiters.len() && #[trigger] after.linked(other) implies after.waits(
                other,
            ) by {
                assert(m.linked(other));
            }
            assert forall|other: usize|
                m.live(other) && !(m.home(other) is Guard) && Some(other) != Some(
                    key,
                ) implies #[trigger] moved(m, None, after, None, other) by {}
            assert forall|guard: usize|
                m.rings.dom().contains(guard) && Some(guard) != Some(key) implies #[trigger] ring_kept(
                m,
                after,
                guard,
            ) by {
                lemma_without(m.rings[guard], key);
            }
        },
        _ => {
            assert(forall|other: usize| after.linked(other) ==> m.linked(other));
        },
    }
}

/// Only the cells at `key` have changed, and nobody in a list is there.
proof fn lemma_cells<W>(m: Memory<W>, key: usize, cells: WaiterCells<W>)
    requires
        m.wf(),
        m.patient(),
        m.live(key),
        m.linked(key) ==> cells.parked is Parking && cells.notification is None,
    ensures
        aside(m, m.with_waiter(key, cells), Some(key)),
        m.with_waiter(key, cells).patient(),
{
    let after = m.with_waiter(key, cells);
    assert forall|other: usize|
        other < after.waiters.len() && #[trigger] after.linked(other) implies after.waits(other) by {
        assert(m.linked(other));
    }
}

/// Somebody who waits makes a step.
proof fn lemma_notified<W>(task: Notified<W>, m: Memory<W>, hand: Option<usize>)
    requires
        m.wf(),
        m.patient(),
        m.state.round != Round(0),
        notified_ok(task, m, hand),
        task.holds() ==> m.locked && tells(Task::Notified(task), m) && hand == task.hand(),
        !m.locked ==> hand is None,
    ensures
        task.ready(m),
        ({
            let (then, after) = task.next(m);
            let mine = Some(task.waiter);
            let then_hand = if task.holds() || then.holds() {
                then.hand()
            } else {
                hand
            };
            &&& then.waiter == task.waiter
            &&& task.step is Gone ==> then.step is Gone
            &&& notified_ok(then, after, then_hand)
            &&& after.patient()
            &&& after.state.round == m.state.round
            &&& if task.holds() {
                &&& held(m, task.hand(), after, then.hand(), mine)
                &&& if then.holds() {
                    after.locked && tells(Task::Notified(then), after)
                } else {
                    !after.locked && after.telling() && then.hand() is None
                }
            } else {
                &&& aside(m, after, mine)
                &&& hand == mine ==> {
                    &&& m.handled(task.waiter) ==> after.handled(task.waiter)
                    &&& (m.waiter(task.waiter).parked is Parking <==> after.waiter(
                        task.waiter,
                    ).parked is Parking)
                }
                &&& if then.holds() {
                    &&& !m.locked
                    &&& after.locked
                    &&& then.hand() is None
                    &&& m.telling() ==> tells(Task::Notified(then), after)
                } else {
                    after.locked == m.locked
                }
            }
        }),
{
    let (then, after) = task.next(m);
    let key = task.waiter;
    if !(task.step is Gone) {
        assert(m.linked(key) ==> m.waits(key));
        assert(m.waiter(key).wf());
    }
    match task.step {
        NotifiedStep::Enable | NotifiedStep::Poll => {
            lemma_polling(task.polling, m);
        },
        NotifiedStep::Remove => {
            lemma_removing(task.removing, m);
        },
        NotifiedStep::Keep(_)
        | NotifiedStep::Park
        | NotifiedStep::Clear
        | NotifiedStep::Recall => {
            lemma_cells(m, key, after.waiter(key));
            assert(after =~= m.with_waiter(key, after.waiter(key)));
        },
        NotifiedStep::Leave => {
            lemma_vacated(m, after, key);
            assert forall|other: usize|
                other < after.waiters.len() && #[trigger] after.linked(
                    other,
                ) implies after.waits(other) by {
                assert(same(m, after, other));
                assert(m.linked(other));
            }
        },
        _ => {},
    }
}

/// Whether a task is prepared for its next step.
pub open spec fn prepared<W>(task: Task<W>, m: Memory<W>) -> bool {
    match task {
        Task::Free => true,
        Task::One(task) => task.ready(m),
        Task::All(task) => task.wf(m) && task@.ready(m),
        Task::Notified(task) => task.ready(m),
    }
}

/// Whether a task has made its next step.
pub open spec fn stepped<W>(task: Task<W>, m: Memory<W>, then: Task<W>, after: Memory<W>) -> bool {
    match (task, then) {
        (Task::Free, Task::Free) => after == m,
        (Task::One(task), Task::One(then)) => (then, after) == task.next(m),
        (Task::All(task), Task::All(then)) => {
            &&& then.wf(after)
            &&& (then@, after) == task@.next(m)
        },
        (Task::Notified(task), Task::Notified(then)) => (then, after) == task.next(m),
        _ => false,
    }
}

/// Who has the lock once the task at `i` is this one.
pub open spec fn then_holder<W>(then: Task<W>, i: int, holder: Option<int>) -> Option<int> {
    if then.holds() {
        Some(i)
    } else if holder == Some(i) {
        None
    } else {
        holder
    }
}

/// A task of a sound memory is prepared, and its step leaves the memory and all tasks sound.
pub proof fn lemma_step<W>(
    m: Memory<W>,
    tasks: Seq<Task<W>>,
    holder: Option<int>,
    i: int,
    then: Task<W>,
    after: Memory<W>,
)
    requires
        sound(m, tasks, holder),
        0 <= i < tasks.len(),
        m.state.round.succ() != Round(0),
        after.wf(),
        stepped(tasks[i], m, then, after),
    ensures
        sound(after, tasks.update(i, then), then_holder(then, i, holder)),
{
    let hand = hand_of(tasks, holder);
    let task = tasks[i];
    let tasks2 = tasks.update(i, then);
    let holder2 = then_holder(then, i, holder);
    let hand2 = hand_of(tasks2, holder2);
    assert(task_ok(task, m, hand));
    let mine = match task {
        Task::Notified(_) => task.key(),
        Task::All(task) => match task@.ring {
            Some((guard, _)) => Some(guard),
            None => None,
        },
        _ => None,
    };
    if !m.locked {
        assert(holder is None);
    }
    match task {
        Task::Free => {},
        Task::One(task) => {
            lemma_one(task, m);
        },
        Task::All(task) => {
            lemma_all(task@, m);
        },
        Task::Notified(task) => {
            lemma_notified(task, m, hand);
        },
    }
    assert forall|j: int| 0 <= j < tasks2.len() implies #[trigger] task_ok(
        tasks2[j],
        after,
        hand2,
    ) by {
        if j != i {
            assert(task_ok(tasks[j], m, hand));
            assert(apart(tasks[i], tasks[j]));
            assert(apart(tasks[j], tasks[i]));
            lemma_distinct(tasks[i], tasks[j], m, hand);
            if task.holds() {
                lemma_held(tasks[j], m, hand, after, then.hand(), mine);
            } else {
                lemma_aside(tasks[j], m, after, hand, mine);
            }
        }
    }
    assert forall|j: int, k: int|
        0 <= j < tasks2.len() && 0 <= k < tasks2.len() && j != k implies #[trigger] apart(
        tasks2[j],
        tasks2[k],
    ) by {
        assert(apart(tasks[j], tasks[k]));
        assert(task_ok(tasks[j], m, hand));
        assert(task_ok(tasks[k], m, hand));
    }
    if let Some(h) = holder {
        if h != i {
            assert(task_ok(tasks[h], m, hand));
            assert(apart(tasks[i], tasks[h]));
            assert(apart(tasks[h], tasks[i]));
            lemma_distinct(tasks[i], tasks[h], m, hand);
            lemma_aside(tasks[h], m, after, hand, mine);
        }
    }
}

/// The waiter of one task is not the guard of another.
proof fn lemma_distinct<W>(one: Task<W>, other: Task<W>, m: Memory<W>, hand: Option<usize>)
    requires
        m.wf(),
        task_ok(one, m, hand),
        task_ok(other, m, hand),
    ensures
        one.key() is Some ==> one.key() != other.guard(),
        other.key() is Some ==> other.key() != one.guard(),
{
    match one.guard() {
        Some(guard) => {
            assert(m.ring_wf(guard));
        },
        None => {},
    }
    match other.guard() {
        Some(guard) => {
            assert(m.ring_wf(guard));
        },
        None => {},
    }
}

/// A task of a sound memory is prepared for its next step.
pub proof fn lemma_prepared<W>(m: Memory<W>, tasks: Seq<Task<W>>, holder: Option<int>, i: int)
    requires
        sound(m, tasks, holder),
        0 <= i < tasks.len(),
        m.state.round.succ() != Round(0),
    ensures
        prepared(tasks[i], m),
{
    let hand = hand_of(tasks, holder);
    assert(task_ok(tasks[i], m, hand));
    match tasks[i] {
        Task::Free => {},
        Task::One(task) => {
            lemma_one(task, m);
        },
        Task::All(task) => {
            lemma_all(task@, m);
        },
        Task::Notified(task) => {
            lemma_notified(task, m, hand);
        },
    }
}

/// A task that has just begun, or is over, joins the others.
proof fn lemma_join<W>(
    m: Memory<W>,
    tasks: Seq<Task<W>>,
    holder: Option<int>,
    after: Memory<W>,
    i: int,
    then: Task<W>,
)
    requires
        sound(m, tasks, holder),
        0 <= i <= tasks.len(),
        i < tasks.len() ==> !tasks[i].holds(),
        after.wf(),
        after.locked == m.locked,
        after.state == m.state,
        after.queue == m.queue,
        after.rings == m.rings,
        m.waiters.len() <= after.waiters.len(),
        forall|key: usize| key < m.waiters.len() && m.live(key) ==> #[trigger] same(m, after, key),
        forall|key: usize| key < after.waiters.len() && #[trigger] after.linked(key) ==> m.live(key)
            && key < m.waiters.len(),
        !then.holds(),
        task_ok(then, after, hand_of(tasks, holder)),
        forall|j: int|
            0 <= j < tasks.len() && j != i ==> apart(then, #[trigger] tasks[j]) && apart(
                tasks[j],
                then,
            ),
    ensures
        i < tasks.len() ==> sound(after, tasks.update(i, then), holder),
        i == tasks.len() ==> sound(after, tasks.push(then), holder),
{
    let hand = hand_of(tasks, holder);
    let tasks2 = if i < tasks.len() {
        tasks.update(i, then)
    } else {
        tasks.push(then)
    };
    assert forall|j: int| 0 <= j < tasks2.len() implies #[trigger] task_ok(
        tasks2[j],
        after,
        hand,
    ) by {
        if j != i {
            let task = tasks[j];
            assert(task_ok(task, m, hand));
            match task.key() {
                Some(key) => {
                    assert(same(m, after, key));
                },
                None => {},
            }
            match task.guard() {
                Some(guard) => {
                    assert(same(m, after, guard));
                },
                None => {},
            }
            match task.hand() {
                Some(key) => {
                    if task.holds() {
                        assert(same(m, after, key));
                    }
                },
                None => {},
            }
        }
    }
    assert forall|j: int, k: int|
        0 <= j < tasks2.len() && 0 <= k < tasks2.len() && j != k implies #[trigger] apart(
        tasks2[j],
        tasks2[k],
    ) by {
        if j != i && k != i {
            assert(apart(tasks[j], tasks[k]));
        }
    }
    assert forall|key: usize|
        key < after.waiters.len() && #[trigger] after.linked(key) implies after.waits(key) by {
        assert(same(m, after, key));
        assert(m.linked(key));
    }
}

/// A [Notify] and its tasks.
pub struct Machine<W> {
    pub notify: Notify<W>,
    pub tasks: Vec<Task<W>>,
    /// Who has the lock.
    pub holder: Ghost<Option<int>>,
}

impl<W> Machine<W> {
    /// What is so after any steps of any tasks in any order.
    pub open spec fn inv(self) -> bool {
        &&& self.notify.wf()
        &&& sound(self.notify@, self.tasks@, self.holder@)
        &&& wakeful(self.notify@, self.tasks@, self.holder@)
        &&& tended(self.notify@, self.tasks@)
    }

    /// Whether a round is left to start.
    pub open spec fn lasts(self) -> bool {
        self.notify@.state.round.succ() != Round(0)
    }

    /// A machine without tasks.
    pub fn new() -> (machine: Self)
        ensures
            machine.inv(),
            machine.tasks@.len() == 0,
            machine.holder@ is None,
            machine.notify@.state == (State { round: Round(ROUND_UNIT), status: Status::Idle }),
            machine.notify@.queue.len() == 0,
    {
        let notify: Notify<W> = Notify::new();
        proof {
            notify.lemma_wf();
        }
        Machine { notify, tasks: Vec::new(), holder: Ghost(None) }
    }

    /// Makes the next step of a task.
    pub fn step(&mut self, id: usize)
        requires
            old(self).inv(),
            old(self).lasts(),
            id < old(self).tasks@.len(),
        ensures
            final(self).inv(),
            final(self).tasks@.len() == old(self).tasks@.len(),
            forall|i: int|
                0 <= i < old(self).tasks@.len() && i != id ==> final(self).tasks@[i]
                    == old(self).tasks@[i],
            stepped(
                old(self).tasks@[id as int],
                old(self).notify@,
                final(self).tasks@[id as int],
                final(self).notify@,
            ),
            final(self).holder@ == then_holder(
                final(self).tasks@[id as int],
                id as int,
                old(self).holder@,
            ),
    {
        proof {
            lemma_prepared(self.notify@, self.tasks@, self.holder@, id as int);
        }
        match &mut self.tasks[id] {
            Task::Free => {},
            Task::One(task) => task.advance(&mut self.notify),
            Task::All(task) => task.advance(&mut self.notify),
            Task::Notified(task) => task.advance(&mut self.notify),
        }
        proof {
            let then = self.tasks@[id as int];
            self.notify.lemma_wf();
            self.holder@ = then_holder(then, id as int, self.holder@);
            lemma_step(
                old(self).notify@,
                old(self).tasks@,
                old(self).holder@,
                id as int,
                then,
                self.notify@,
            );
            lemma_wakeful_step(
                old(self).notify@,
                old(self).tasks@,
                old(self).holder@,
                id as int,
                then,
                self.notify@,
            );
            lemma_tended_step(
                old(self).notify@,
                old(self).tasks@,
                old(self).holder@,
                id as int,
                then,
                self.notify@,
            );
            assert(self.tasks@ =~= old(self).tasks@.update(id as int, then));
        }
    }

    /// A place for a task.
    fn place(&self) -> (id: usize)
        ensures
            id <= self.tasks@.len(),
            id < self.tasks@.len() ==> self.tasks@[id as int] is Free,
    {
        let mut id: usize = 0;
        while id < self.tasks.len()
            invariant
                id <= self.tasks@.len(),
            decreases self.tasks@.len() - id,
        {
            if let Task::Free = &self.tasks[id] {
                return id;
            }
            id = id + 1;
        }
        id
    }

    fn put(&mut self, id: usize, task: Task<W>)
        requires
            id <= old(self).tasks@.len(),
        ensures
            final(self).tasks@ == if id < old(self).tasks@.len() {
                old(self).tasks@.update(id as int, task)
            } else {
                old(self).tasks@.push(task)
            },
            final(self).notify == old(self).notify,
            final(self).holder == old(self).holder,
    {
        if id < self.tasks.len() {
            self.tasks[id] = task;
        } else {
            self.tasks.push(task);
        }
    }

    /// What is so once a task has begun at `id`.
    pub open spec fn began(self, after: Self, id: usize) -> bool {
        &&& after.inv()
        &&& id < after.tasks@.len()
        &&& id < self.tasks@.len() ==> self.tasks@[id as int] is Free
        &&& self.tasks@.len() <= after.tasks@.len()
        &&& after.holder@ == self.holder@
        &&& forall|i: int|
            0 <= i < self.tasks@.len() && i != id ==> #[trigger] after.tasks@[i] == self.tasks@[i]
    }

    /// Begins to notify one waiter.
    pub fn begin_notify_one(&mut self) -> (id: usize)
        requires
            old(self).inv(),
        ensures
            old(self).began(*final(self), id),
            final(self).tasks@[id as int] == Task::One(NotifyingOne::<W>::begun(None)),
            final(self).notify@ == old(self).notify@,
    {
        let id = self.place();
        let task = Task::One(NotifyingOne::new(None));
        proof {
            lemma_join(
                self.notify@,
                self.tasks@,
                self.holder@,
                self.notify@,
                id as int,
                task,
            );
        }
        self.put(id, task);
        proof {
            lemma_joined(
                old(self).notify@,
                old(self).tasks@,
                old(self).holder@,
                self.notify@,
                id as int,
                task,
                self.tasks@,
            );
        }
        id
    }

    /// Begins to notify all waiters.
    pub fn begin_notify_all(&mut self) -> (id: usize)
        requires
            old(self).inv(),
        ensures
            old(self).began(*final(self), id),
            final(self).tasks@[id as int] matches Task::All(task) && task@ == (AllProgress::<W> {
                step: AllStep::Load,
                ring: None,
                unpark: Unpark { step: UnparkStep::Load, waker: None },
                wakers: Seq::empty(),
                woken: Seq::empty(),
            }),
            final(self).notify@ == old(self).notify@,
    {
        let id = self.place();
        let task = Task::All(NotifyingAll::new());
        proof {
            lemma_join(
                self.notify@,
                self.tasks@,
                self.holder@,
                self.notify@,
                id as int,
                task,
            );
        }
        self.put(id, task);
        proof {
            lemma_joined(
                old(self).notify@,
                old(self).tasks@,
                old(self).holder@,
                self.notify@,
                id as int,
                task,
                self.tasks@,
            );
        }
        id
    }

    /// Somebody who waits, attached to the current round.
    pub fn notified(&mut self) -> (id: usize)
        requires
            old(self).inv(),
        ensures
            old(self).began(*final(self), id),
            final(self).tasks@[id as int] matches Task::Notified(task) && {
                &&& task.waiter == old(self).notify@.vacancy()
                &&& task.stage == Stage::Init
                &&& task.round == old(self).notify@.state.round
                &&& task.step == NotifiedStep::Idle
            },
            final(self).notify@ == old(self).notify@.with_room(),
    {
        let id = self.place();
        let ghost m = self.notify@;
        let notified = self.notify.notified();
        let ghost after = self.notify@;
        let ghost hand = hand_of(self.tasks@, self.holder@);
        let task = Task::Notified(notified);
        proof {
            let key = m.vacancy();
            self.notify.lemma_wf();
            m.lemma_room();
            assert forall|other: usize| other < m.waiters.len() && m.live(other) implies #[trigger] same(
                m,
                after,
                other,
            ) by {
                assert(after.live(other) == m.live(other));
                assert(after.home(other) == m.home(other));
            }
            assert forall|other: usize|
                other < after.waiters.len() && #[trigger] after.linked(other) implies m.live(other)
                && other < m.waiters.len() by {
                assert(other != key);
                assert(after.home(other) == m.home(other));
                assert(m.linked(other));
            }
            if let Some(holder) = self.holder@ {
                assert(task_ok(self.tasks@[holder], m, hand));
            }
            assert(hand is Some ==> m.live(hand->Some_0));
            assert forall|j: int| 0 <= j < self.tasks@.len() && j != id implies apart(
                task,
                #[trigger] self.tasks@[j],
            ) && apart(self.tasks@[j], task) by {
                assert(task_ok(self.tasks@[j], m, hand));
            }
            lemma_join(m, self.tasks@, self.holder@, after, id as int, task);
        }
        let ghost tasks = self.tasks@;
        self.put(id, task);
        proof {
            lemma_joined(m, tasks, self.holder@, after, id as int, task, self.tasks@);
        }
        id
    }

    /// Whether the task at `id` is somebody who waits with no call on its way.
    pub open spec fn rests(self, id: usize) -> bool {
        &&& id < self.tasks@.len()
        &&& self.tasks@[id as int] matches Task::Notified(task) && task.rests()
    }

    /// Somebody who waits.
    pub open spec fn waiting(self, id: usize) -> Notified<W> {
        self.tasks@[id as int]->Notified_0
    }

    /// Somebody who waits begins another call.
    proof fn lemma_begun(self, id: usize, then: Notified<W>)
        requires
            self.inv(),
            self.rests(id),
            then == self.waiting(id).enabling() || then == self.waiting(id).dropping() || then == (
            Notified::<W> { round: Round(0), ..self.waiting(id) }) || exists|waker: W|
                then == self.waiting(id).polling_with(waker),
        ensures
            sound(
                self.notify@,
                self.tasks@.update(id as int, Task::Notified(then)),
                self.holder@,
            ),
            wakeful(
                self.notify@,
                self.tasks@.update(id as int, Task::Notified(then)),
                self.holder@,
            ),
            tended(self.notify@, self.tasks@.update(id as int, Task::Notified(then))),
    {
        let hand = hand_of(self.tasks@, self.holder@);
        assert(task_ok(self.tasks@[id as int], self.notify@, hand));
        assert forall|j: int| 0 <= j < self.tasks@.len() && j != id implies apart(
            Task::Notified(then),
            #[trigger] self.tasks@[j],
        ) && apart(self.tasks@[j], Task::Notified(then)) by {
            assert(apart(self.tasks@[id as int], self.tasks@[j]));
            assert(apart(self.tasks@[j], self.tasks@[id as int]));
        }
        assert(forall|key: usize|
            key < self.notify@.waiters.len() && #[trigger] self.notify@.linked(key)
                ==> self.notify@.live(key));
        lemma_join(
            self.notify@,
            self.tasks@,
            self.holder@,
            self.notify@,
            id as int,
            Task::Notified(then),
        );
        lemma_joined(
            self.notify@,
            self.tasks@,
            self.holder@,
            self.notify@,
            id as int,
            Task::Notified(then),
            self.tasks@.update(id as int, Task::Notified(then)),
        );
    }

    /// What is so once the task at `id` is this one.
    pub open spec fn replaced(self, after: Self, id: usize, then: Task<W>) -> bool {
        &&& after.inv()
        &&& after.tasks@ == self.tasks@.update(id as int, then)
        &&& after.notify@ == self.notify@
        &&& after.holder@ == self.holder@
    }

    /// Begins to enable somebody who waits.
    pub fn begin_enable(&mut self, id: usize)
        requires
            old(self).inv(),
            old(self).rests(id),
        ensures
            old(self).replaced(*final(self), id, Task::Notified(old(self).waiting(id).enabling())),
    {
        proof {
            self.lemma_begun(id, self.waiting(id).enabling());
        }
        if let Task::Notified(task) = &mut self.tasks[id] {
            task.begin_enable();
        }
        assert(self.tasks@ =~= old(self).tasks@.update(
            id as int,
            Task::Notified(old(self).waiting(id).enabling()),
        ));
    }

    /// Begins to poll somebody who waits.
    pub fn begin_poll(&mut self, id: usize, waker: W)
        requires
            old(self).inv(),
            old(self).rests(id),
        ensures
            old(self).replaced(
                *final(self),
                id,
                Task::Notified(old(self).waiting(id).polling_with(waker)),
            ),
    {
        proof {
            self.lemma_begun(id, self.waiting(id).polling_with(waker));
        }
        if let Task::Notified(task) = &mut self.tasks[id] {
            task.begin_poll(waker);
        }
        assert(self.tasks@ =~= old(self).tasks@.update(
            id as int,
            Task::Notified(old(self).waiting(id).polling_with(waker)),
        ));
    }

    /// Begins to drop somebody who waits.
    pub fn begin_drop(&mut self, id: usize)
        requires
            old(self).inv(),
            old(self).rests(id),
        ensures
            old(self).replaced(*final(self), id, Task::Notified(old(self).waiting(id).dropping())),
    {
        proof {
            self.lemma_begun(id, self.waiting(id).dropping());
        }
        if let Task::Notified(task) = &mut self.tasks[id] {
            task.begin_drop();
        }
        assert(self.tasks@ =~= old(self).tasks@.update(
            id as int,
            Task::Notified(old(self).waiting(id).dropping()),
        ));
    }

    /// Detaches somebody who waits from all rounds.
    pub fn detach(&mut self, id: usize)
        requires
            old(self).inv(),
            old(self).rests(id),
        ensures
            old(self).replaced(
                *final(self),
                id,
                Task::Notified(Notified { round: Round(0), ..old(self).waiting(id) }),
            ),
    {
        proof {
            self.lemma_begun(id, Notified { round: Round(0), ..self.waiting(id) });
        }
        if let Task::Notified(task) = &mut self.tasks[id] {
            task.round = Round::zero();
        }
        assert(self.tasks@ =~= old(self).tasks@.update(
            id as int,
            Task::Notified(Notified { round: Round(0), ..old(self).waiting(id) }),
        ));
    }

    /// How far the task at `id` has come.
    pub fn progress(&self, id: usize) -> (progress: Progress)
        requires
            id < self.tasks@.len(),
        ensures
            progress == self.tasks@[id as int].progress(),
    {
        match &self.tasks[id] {
            Task::Free => Progress::Done,
            Task::One(task) => match task.step {
                OneStep::Done => Progress::Done,
                _ => Progress::Running,
            },
            Task::All(task) => match task.step {
                AllStep::Done => Progress::Done,
                AllStep::Relock | AllStep::Leave => Progress::Woken,
                _ => Progress::Running,
            },
            Task::Notified(task) => match task.step {
                NotifiedStep::Gone => Progress::Done,
                NotifiedStep::Idle => Progress::Idle,
                NotifiedStep::Ready => Progress::Ready,
                NotifiedStep::Pending => Progress::Pending,
                _ => Progress::Running,
            },
        }
    }

    /// The wakers that a notification of all waiters has to wake by now, in this order.
    pub fn take_woken(&mut self, id: usize) -> (woken: Vec<W>)
        requires
            old(self).inv(),
            id < old(self).tasks@.len(),
        ensures
            final(self).inv(),
            final(self).notify == old(self).notify,
            final(self).holder == old(self).holder,
            final(self).tasks@.len() == old(self).tasks@.len(),
            forall|i: int|
                0 <= i < old(self).tasks@.len() && i != id ==> final(self).tasks@[i]
                    == old(self).tasks@[i],
            match old(self).tasks@[id as int] {
                Task::All(task) => {
                    &&& woken@ == task.woken@
                    &&& final(self).tasks@[id as int] matches Task::All(then) && then@ == (
                    AllProgress { woken: Seq::<W>::empty(), ..task@ })
                },
                task => {
                    &&& woken@.len() == 0
                    &&& final(self).tasks@[id as int] == task
                },
            },
    {
        let mut woken = Vec::new();
        if let Task::All(task) = &mut self.tasks[id] {
            std::mem::swap(&mut woken, &mut task.woken);
        }
        proof {
            let then = self.tasks@[id as int];
            assert(task_ok(
                old(self).tasks@[id as int],
                self.notify@,
                hand_of(old(self).tasks@, self.holder@),
            ));
            if then is All {
                assert(then->All_0@ =~= AllProgress {
                    woken: Seq::<W>::empty(),
                    ..old(self).tasks@[id as int]->All_0@
                });
            }
            assert(self.tasks@ =~= old(self).tasks@.update(id as int, then));
            lemma_alike(self.notify@, old(self).tasks@, self.holder@, id as int, then);
            lemma_joined(
                self.notify@,
                old(self).tasks@,
                self.holder@,
                self.notify@,
                id as int,
                then,
                self.tasks@,
            );
        }
        woken
    }

    /// Gives up on waking, where a waker of a notification of all waiters has failed.
    pub fn abandon(&mut self, id: usize)
        requires
            old(self).inv(),
            id < old(self).tasks@.len(),
            old(self).tasks@[id as int].progress() == Progress::Woken,
        ensures
            final(self).inv(),
            final(self).notify == old(self).notify,
            final(self).holder == old(self).holder,
            final(self).tasks@.len() == old(self).tasks@.len(),
            forall|i: int|
                0 <= i < old(self).tasks@.len() && i != id ==> final(self).tasks@[i]
                    == old(self).tasks@[i],
            final(self).tasks@[id as int] matches Task::All(then) && then@
                == old(self).tasks@[id as int]->All_0@.abandoned(),
    {
        if let Task::All(task) = &mut self.tasks[id] {
            task.abandon();
        }
        proof {
            let then = self.tasks@[id as int];
            assert(task_ok(
                old(self).tasks@[id as int],
                self.notify@,
                hand_of(old(self).tasks@, self.holder@),
            ));
            assert(self.tasks@ =~= old(self).tasks@.update(id as int, then));
            lemma_alike(self.notify@, old(self).tasks@, self.holder@, id as int, then);
            lemma_joined(
                self.notify@,
                old(self).tasks@,
                self.holder@,
                self.notify@,
                id as int,
                then,
                self.tasks@,
            );
        }
    }

    /// Takes a task away that is over. Returns the waker that it has to wake.
    pub fn finish(&mut self, id: usize) -> (waker: Option<W>)
        requires
            old(self).inv(),
            id < old(self).tasks@.len(),
            old(self).tasks@[id as int].progress() == Progress::Done,
        ensures
            old(self).replaced(*final(self), id, Task::Free),
            waker == match old(self).tasks@[id as int] {
                Task::One(task) => task.unpark.waker,
                Task::Notified(task) => task.removing.release.unpark.waker,
                _ => None,
            },
    {
        let mut task = Task::Free;
        std::mem::swap(&mut task, &mut self.tasks[id]);
        proof {
            assert(self.tasks@ =~= old(self).tasks@.update(id as int, Task::Free));
            lemma_alike(self.notify@, old(self).tasks@, self.holder@, id as int, Task::Free);
            lemma_joined(
                self.notify@,
                old(self).tasks@,
                self.holder@,
                self.notify@,
                id as int,
                Task::Free,
                self.tasks@,
            );
        }
        match task {
            Task::One(task) => task.unpark.waker,
            Task::Notified(task) => task.removing.release.unpark.waker,
            _ => None,
        }
    }
}

/// How far a task has come.
#[derive(Copy, Clone, Debug, PartialEq, Eq, Structural)]
pub enum Progress {
    /// There are steps to make.
    Running,
    /// There are steps to make, once the wakers so far are woken.
    Woken,
    /// Somebody who waits has no call on its way.
    Idle,
    /// Somebody who waits was polled, and is notified.
    Ready,
    /// Somebody who waits was polled, and is not notified.
    Pending,
    /// There are no steps left.
    Done,
}

impl<W> Task<W> {
    /// How far the task has come.
    pub open spec fn progress(self) -> Progress {
        match self {
            Task::Free => Progress::Done,
            Task::One(task) => if task.step is Done {
                Progress::Done
            } else {
                Progress::Running
            },
            Task::All(task) => match task.step {
                AllStep::Done => Progress::Done,
                AllStep::Relock | AllStep::Leave => Progress::Woken,
                _ => Progress::Running,
            },
            Task::Notified(task) => match task.step {
                NotifiedStep::Gone => Progress::Done,
                NotifiedStep::Idle => Progress::Idle,
                NotifiedStep::Ready => Progress::Ready,
                NotifiedStep::Pending => Progress::Pending,
                _ => Progress::Running,
            },
        }
    }
}

/// A task gives way to one that does no more than it did.
proof fn lemma_alike<W>(
    m: Memory<W>,
    tasks: Seq<Task<W>>,
    holder: Option<int>,
    i: int,
    then: Task<W>,
)
    requires
        sound(m, tasks, holder),
        0 <= i < tasks.len(),
        task_ok(then, m, hand_of(tasks, holder)),
        then.holds() == tasks[i].holds(),
        then.hand() == tasks[i].hand(),
        tells(tasks[i], m) ==> tells(then, m),
        then.key() is Some ==> then.key() == tasks[i].key(),
        then.guard() is Some ==> then.guard() == tasks[i].guard(),
    ensures
        sound(m, tasks.update(i, then), holder),
{
    let tasks2 = tasks.update(i, then);
    assert(hand_of(tasks2, holder) == hand_of(tasks, holder));
    assert forall|j: int| 0 <= j < tasks2.len() implies #[trigger] task_ok(
        tasks2[j],
        m,
        hand_of(tasks2, holder),
    ) by {
        if j != i {
            assert(task_ok(tasks[j], m, hand_of(tasks, holder)));
        }
    }
    assert forall|j: int, k: int|
        0 <= j < tasks2.len() && 0 <= k < tasks2.len() && j != k implies #[trigger] apart(
        tasks2[j],
        tasks2[k],
    ) by {
        assert(apart(tasks[j], tasks[k]));
    }
}

} // verus!
