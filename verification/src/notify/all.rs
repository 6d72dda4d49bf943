//! The task of notifying all waiters and of starting a new round.

use crate::atomic::MemoryOrder;
use crate::notify::list::{GuardedList, Home};
use crate::notify::memory::{Memory, Notify, WaiterCells};
use crate::notify::state::{Notification, NotificationKind, Round, State, Status};
use crate::notify::wakers::{WakerList, WAKERS};
use crate::parker::{Unpark, UnparkStep};
use vstd::prelude::*;

verus! {

/// The waiters of a round that is over.
pub struct WaiterList {
    list: GuardedList,
    round: Round,
}

impl WaiterList {
    pub closed spec fn guard(&self) -> usize {
        self.list.guard()
    }

    pub closed spec fn drained(&self) -> bool {
        self.list.drained()
    }

    pub closed spec fn round(&self) -> Round {
        self.round
    }

    pub open spec fn wf<W>(&self, m: Memory<W>) -> bool {
        &&& self.round().wf()
        &&& m.rings.dom().contains(self.guard())
        &&& self.drained() ==> m.rings[self.guard()].len() == 0
    }

    pub fn new(list: GuardedList, round: Round) -> (waiters: Self)
        ensures
            waiters.guard() == list.guard(),
            waiters.drained() == list.drained(),
            waiters.round() == round,
    {
        WaiterList { list, round }
    }

    /// Takes the waiter that came first. This is for the holder of the lock alone.
    pub fn pop_back<W>(&mut self, notify: &mut Notify<W>) -> (popped: Option<usize>)
        requires
            old(notify).wf(),
            old(notify)@.locked,
            old(self).wf(old(notify)@),
        ensures
            final(notify).wf(),
            final(self).wf(final(notify)@),
            final(self).guard() == old(self).guard(),
            final(self).round() == old(self).round(),
            match popped {
                None => {
                    &&& old(notify)@.rings[old(self).guard()].len() == 0
                    &&& final(self).drained()
                    &&& final(notify)@ =~= old(notify)@
                },
                Some(key) => {
                    &&& old(notify)@.rings[old(self).guard()].len() > 0
                    &&& key == old(notify)@.rings[old(self).guard()].last()
                    &&& final(self).drained() == old(self).drained()
                    &&& final(notify)@ =~= old(notify)@.popped(old(self).guard())
                },
            },
    {
        notify.pop_guarded(&mut self.list)
    }

    /// Gives the place of the guard back.
    pub fn dissolve<W>(self, notify: &mut Notify<W>)
        requires
            old(notify).wf(),
            self.wf(old(notify)@),
            old(notify)@.live(self.guard()),
            old(notify)@.rings[self.guard()].len() == 0,
        ensures
            final(notify).wf(),
            final(notify)@ =~= old(notify)@.dissolved(self.guard()),
    {
        proof {
            notify.lemma_wf();
            assert(notify@.ring_wf(self.guard()));
        }
        let guard = notify.dissolve(self.list);
        notify.leave(guard);
    }
}

impl<W> Memory<W> {
    /// The memory once the waiter of the ring of `guard` that came first was taken.
    pub open spec fn popped(self, guard: usize) -> Memory<W> {
        Memory {
            rings: self.rings.insert(guard, self.rings[guard].drop_last()),
            homes: self.homes.update(self.rings[guard].last() as int, Home::Out),
            ..self
        }
    }

    /// The memory without the ring of `guard`.
    pub open spec fn dissolved(self, guard: usize) -> Memory<W> {
        Memory {
            rings: self.rings.remove(guard),
            homes: self.homes.update(guard as int, Home::Out),
            vacant: self.vacant.push(guard),
            ..self
        }
    }

    /// The memory once all listed waiters are in the ring of `guard`.
    pub open spec fn cut(self, guard: usize) -> Memory<W> {
        Memory {
            queue: Seq::empty(),
            rings: self.rings.insert(guard, self.queue),
            homes: Seq::new(
                self.homes.len(),
                |k: int|
                    if k == guard {
                        Home::Guard
                    } else if self.homes[k] is Listed {
                        Home::Ringed(guard)
                    } else {
                        self.homes[k]
                    },
            ),
            ..self
        }
    }
}

/// Progress of a [NotifyingAll].
#[derive(Copy, Clone, Debug, PartialEq, Eq, Structural)]
pub enum AllStep {
    /// To load the state.
    Load,
    /// To start a new round, unless somebody waits in this state.
    Attempt(State),
    /// To take the lock.
    Lock,
    /// To load the state again.
    Reload,
    /// To give the lock back and to go on with this state, in which nobody waits.
    Retry(State),
    /// To start the round after this state.
    Renew(State),
    /// To cut the waiters of this round off.
    Cut(Round),
    /// To take the waiter that came first.
    Pop,
    /// To unpark this waiter.
    Unpark(usize),
    /// To store the notification of this waiter.
    Store(usize),
    /// To give the lock back for a while.
    Pause,
    /// To wake those unparked so far.
    Wake,
    /// To take the lock once more.
    Relock,
    /// To give the lock back for good.
    Finish,
    /// To wake those unparked since.
    LastWake,
    /// To take the lock, for the rest of the waiters are to be notified without being woken.
    Drain,
    /// To take the waiter that came first.
    DrainPop,
    /// To store the notification of this waiter.
    DrainStore(usize),
    /// To give the lock back.
    DrainUnlock,
    /// To do away with the guard.
    Leave,
    /// Done.
    Done,
}

/// A notification of all waiters on its way.
pub struct NotifyingAll<W> {
    pub step: AllStep,
    pub waiters: Option<WaiterList>,
    pub unpark: Unpark<W>,
    pub wakers: WakerList<W>,
    /// The wakers to wake, in this order.
    pub woken: Vec<W>,
}

/// What is known of a [NotifyingAll].
#[verifier::ext_equal]
pub struct AllProgress<W> {
    pub step: AllStep,
    /// The guard of the waiters and their round.
    pub ring: Option<(usize, Round)>,
    pub unpark: Unpark<W>,
    pub wakers: Seq<W>,
    pub woken: Seq<W>,
}

impl<W> View for NotifyingAll<W> {
    type V = AllProgress<W>;

    open spec fn view(&self) -> AllProgress<W> {
        AllProgress {
            step: self.step,
            ring: match self.waiters {
                Some(waiters) => Some((waiters.guard(), waiters.round())),
                None => None,
            },
            unpark: self.unpark,
            wakers: self.wakers@,
            woken: self.woken@,
        }
    }
}

impl<W> AllProgress<W> {
    /// Whether it has the lock.
    pub open spec fn holds(self) -> bool {
        match self.step {
            AllStep::Reload
            | AllStep::Retry(_)
            | AllStep::Renew(_)
            | AllStep::Cut(_)
            | AllStep::Pop
            | AllStep::Unpark(_)
            | AllStep::Store(_)
            | AllStep::Pause
            | AllStep::Finish
            | AllStep::DrainPop
            | AllStep::DrainStore(_)
            | AllStep::DrainUnlock => true,
            _ => false,
        }
    }

    /// The waiter that was taken from the ring and is not notified yet.
    pub open spec fn hand(self) -> Option<usize> {
        match self.step {
            AllStep::Unpark(key) | AllStep::Store(key) | AllStep::DrainStore(key) => Some(key),
            _ => None,
        }
    }

    /// Whether there is a ring yet, and still.
    pub open spec fn rings(self) -> bool {
        match self.step {
            AllStep::Pop
            | AllStep::Unpark(_)
            | AllStep::Store(_)
            | AllStep::Pause
            | AllStep::Wake
            | AllStep::Relock
            | AllStep::Finish
            | AllStep::LastWake
            | AllStep::Drain
            | AllStep::DrainPop
            | AllStep::DrainStore(_)
            | AllStep::DrainUnlock
            | AllStep::Leave => true,
            _ => false,
        }
    }

    /// What the task counts on.
    pub open spec fn ready(self, m: Memory<W>) -> bool {
        &&& self.holds() ==> m.locked
        &&& self.wakers.len() <= WAKERS
        &&& self.rings() ==> {
            &&& self.ring matches Some((guard, round))
            &&& round.wf()
            &&& m.live(guard)
            &&& m.rings.dom().contains(guard)
        }
        &&& match self.step {
            AllStep::Attempt(state) | AllStep::Retry(state) | AllStep::Renew(state) => state.wf(),
            AllStep::Cut(round) => round.wf(),
            AllStep::Unpark(key) => {
                m.live(key) && self.wakers.len() < WAKERS && self.unpark.ready(m.waiter(key).parked)
            },
            AllStep::Store(key) => m.live(key) && self.wakers.len() < WAKERS,
            AllStep::DrainStore(key) => m.live(key),
            AllStep::Finish
            | AllStep::LastWake
            | AllStep::DrainUnlock
            | AllStep::Leave => m.rings[self.ring->Some_0.0].len() == 0,
            _ => true,
        }
    }

    pub open spec fn at(self, step: AllStep) -> Self {
        AllProgress { step, ..self }
    }

    /// The task once waking was given up.
    pub open spec fn abandoned(self) -> Self {
        if self.step == AllStep::Relock {
            self.at(AllStep::Drain)
        } else {
            self
        }
    }

    /// What the next step makes of the task and of the memory.
    pub open spec fn next(self, m: Memory<W>) -> (Self, Memory<W>) {
        match self.step {
            AllStep::Load => (self.at(AllStep::Attempt(m.state)), m),
            AllStep::Attempt(state) => if state.status == Status::Waiting {
                (self.at(AllStep::Lock), m)
            } else if m.state == state {
                (self.at(AllStep::Done), Memory { state: state.renewed(), ..m })
            } else {
                (self.at(AllStep::Attempt(m.state)), m)
            },
            AllStep::Lock => if m.locked {
                (self, m)
            } else {
                (self.at(AllStep::Reload), Memory { locked: true, ..m })
            },
            AllStep::Reload => if m.state.status != Status::Waiting {
                (self.at(AllStep::Retry(m.state)), m)
            } else {
                (self.at(AllStep::Renew(m.state)), m)
            },
            AllStep::Retry(state) => (
                self.at(AllStep::Attempt(state)),
                Memory { locked: false, ..m },
            ),
            AllStep::Renew(state) => (
                self.at(AllStep::Cut(state.round)),
                Memory { state: state.renewed(), ..m },
            ),
            AllStep::Cut(round) => (
                AllProgress { step: AllStep::Pop, ring: Some((m.vacancy(), round)), ..self },
                m.with_room().cut(m.vacancy()),
            ),
            AllStep::Pop => {
                let guard = self.ring->Some_0.0;
                if self.wakers.len() == WAKERS {
                    (self.at(AllStep::Pause), m)
                } else if m.rings[guard].len() == 0 {
                    (self.at(AllStep::Finish), m)
                } else {
                    (
                        AllProgress {
                            step: AllStep::Unpark(m.rings[guard].last()),
                            unpark: Unpark { step: UnparkStep::Load, waker: None },
                            ..self
                        },
                        m.popped(guard),
                    )
                }
            },
            AllStep::Unpark(key) => {
                let cells = m.waiter(key);
                let (unpark, parked, wakers) = self.unpark.next(cells.parked, cells.wakers);
                let step = if unpark.step is Done {
                    AllStep::Store(key)
                } else {
                    self.step
                };
                (
                    AllProgress { step, unpark, ..self },
                    m.with_waiter(key, WaiterCells { parked, wakers, ..cells }),
                )
            },
            AllStep::Store(key) => {
                let notification = Notification {
                    kind: NotificationKind::All,
                    round: self.ring->Some_0.1,
                };
                (
                    AllProgress {
                        step: AllStep::Pop,
                        unpark: Unpark { waker: None, ..self.unpark },
                        wakers: match self.unpark.waker {
                            Some(waker) => self.wakers.push(waker),
                            None => self.wakers,
                        },
                        ..self
                    },
                    m.with_waiter(
                        key,
                        WaiterCells { notification: notification.stored(), ..m.waiter(key) },
                    ),
                )
            },
            AllStep::Pause => (self.at(AllStep::Wake), Memory { locked: false, ..m }),
            AllStep::Wake => (
                AllProgress {
                    step: AllStep::Relock,
                    wakers: Seq::empty(),
                    woken: self.woken + self.wakers.reverse(),
                    ..self
                },
                m,
            ),
            AllStep::Relock => if m.locked {
                (self, m)
            } else {
                (self.at(AllStep::Pop), Memory { locked: true, ..m })
            },
            AllStep::Finish => (self.at(AllStep::LastWake), Memory { locked: false, ..m }),
            AllStep::LastWake => (
                AllProgress {
                    step: AllStep::Leave,
                    wakers: Seq::empty(),
                    woken: self.woken + self.wakers.reverse(),
                    ..self
                },
                m,
            ),
            AllStep::Drain => if m.locked {
                (self, m)
            } else {
                (self.at(AllStep::DrainPop), Memory { locked: true, ..m })
            },
            AllStep::DrainPop => {
                let guard = self.ring->Some_0.0;
                if m.rings[guard].len() == 0 {
                    (self.at(AllStep::DrainUnlock), m)
                } else {
                    (self.at(AllStep::DrainStore(m.rings[guard].last())), m.popped(guard))
                }
            },
            AllStep::DrainStore(key) => {
                let notification = Notification {
                    kind: NotificationKind::All,
                    round: self.ring->Some_0.1,
                };
                (
                    self.at(AllStep::DrainPop),
                    m.with_waiter(
                        key,
                        WaiterCells { notification: notification.stored(), ..m.waiter(key) },
                    ),
                )
            },
            AllStep::DrainUnlock => (self.at(AllStep::Leave), Memory { locked: false, ..m }),
            AllStep::Leave => (
                AllProgress { step: AllStep::Done, ring: None, ..self },
                m.dissolved(self.ring->Some_0.0),
            ),
            AllStep::Done => (self, m),
        }
    }
}

impl<W> NotifyingAll<W> {
    /// What is left of the list of waiters where it was found empty.
    pub open spec fn wf(&self, m: Memory<W>) -> bool {
        &&& self.wakers.wf()
        &&& self.waiters matches Some(waiters) ==> waiters.wf(m)
    }

    pub fn new() -> (notifying: Self)
        ensures
            notifying@ =~= (AllProgress::<W> {
                step: AllStep::Load,
                ring: None,
                unpark: Unpark { step: UnparkStep::Load, waker: None },
                wakers: Seq::empty(),
                woken: Seq::empty(),
            }),
            notifying.wakers.wf(),
            notifying.waiters is None,
    {
        NotifyingAll {
            step: AllStep::Load,
            waiters: None,
            unpark: Unpark::new(),
            wakers: WakerList::new(),
            woken: Vec::new(),
        }
    }

    /// Gives up on waking, where a waker has failed. The rest of the waiters are to be notified
    /// nevertheless.
    pub fn abandon(&mut self)
        requires
            old(self).step == AllStep::Relock || old(self).step == AllStep::Leave,
        ensures
            final(self)@ =~= old(self)@.abandoned(),
            final(self).wakers == old(self).wakers,
            final(self).waiters == old(self).waiters,
    {
        if let AllStep::Relock = self.step {
            self.step = AllStep::Drain;
        }
    }

    /// Makes the next step.
    pub fn advance(&mut self, notify: &mut Notify<W>)
        requires
            old(notify).wf(),
            old(self).wf(old(notify)@),
            old(self)@.ready(old(notify)@),
        ensures
            final(notify).wf(),
            final(self).wf(final(notify)@),
            final(self)@ =~= old(self)@.next(old(notify)@).0,
            final(notify)@ =~= old(self)@.next(old(notify)@).1,
    {
        proof {
            notify.lemma_wf();
        }
        match self.step {
            AllStep::Load => {
                self.step = AllStep::Attempt(notify.load_state(MemoryOrder::SeqCst));
            },
            AllStep::Attempt(state) => {
                if state.status == Status::Waiting {
                    self.step = AllStep::Lock;
                } else {
                    match notify.exchange_state(
                        state,
                        state.next_round().with_status(Status::Idle),
                        MemoryOrder::Release,
                        MemoryOrder::Relaxed,
                    ) {
                        Ok(_) => self.step = AllStep::Done,
                        Err(updated) => self.step = AllStep::Attempt(updated),
                    }
                }
            },
            AllStep::Lock => {
                if notify.try_lock() {
                    self.step = AllStep::Reload;
                }
            },
            AllStep::Reload => {
                let state = notify.load_state(MemoryOrder::Relaxed);
                if state.status != Status::Waiting {
                    self.step = AllStep::Retry(state);
                } else {
                    self.step = AllStep::Renew(state);
                }
            },
            AllStep::Retry(state) => {
                notify.unlock();
                self.step = AllStep::Attempt(state);
            },
            AllStep::Renew(state) => {
                // Release store to publish changes.
                notify.store_state(
                    state.next_round().with_status(Status::Idle),
                    MemoryOrder::Release,
                );
                self.step = AllStep::Cut(state.round);
            },
            AllStep::Cut(round) => {
                proof {
                    notify@.lemma_room();
                }
                let guard = notify.enter();
                let waiters = WaiterList::new(notify.cut(guard), round);
                self.waiters = Some(waiters);
                self.step = AllStep::Pop;
            },
            AllStep::Pop => {
                if self.wakers.is_full() {
                    self.step = AllStep::Pause;
                } else if let Some(mut waiters) = self.waiters.take() {
                    match waiters.pop_back(notify) {
                        Some(key) => {
                            self.unpark = Unpark::new();
                            self.step = AllStep::Unpark(key);
                        },
                        None => self.step = AllStep::Finish,
                    }
                    self.waiters = Some(waiters);
                }
            },
            AllStep::Unpark(key) => {
                notify.advance_unpark(key, &mut self.unpark);
                if let UnparkStep::Done = self.unpark.step {
                    self.step = AllStep::Store(key);
                }
            },
            AllStep::Store(key) => {
                if let Some(waiters) = &self.waiters {
                    notify.store_notification(
                        key,
                        waiters.round.into_notification(NotificationKind::All),
                        MemoryOrder::Release,
                    );
                }
                if let Some(waker) = self.unpark.waker.take() {
                    self.wakers.push(waker);
                }
                self.step = AllStep::Pop;
            },
            AllStep::Pause => {
                notify.unlock();
                self.step = AllStep::Wake;
            },
            AllStep::Wake => {
                self.wakers.wake(&mut self.woken);
                self.step = AllStep::Relock;
            },
            AllStep::Relock => {
                if notify.try_lock() {
                    self.step = AllStep::Pop;
                }
            },
            AllStep::Finish => {
                notify.unlock();
                self.step = AllStep::LastWake;
            },
            AllStep::LastWake => {
                self.wakers.wake(&mut self.woken);
                self.step = AllStep::Leave;
            },
            AllStep::Drain => {
                if notify.try_lock() {
                    self.step = AllStep::DrainPop;
                }
            },
            AllStep::DrainPop => {
                if let Some(mut waiters) = self.waiters.take() {
                    match waiters.pop_back(notify) {
                        Some(key) => self.step = AllStep::DrainStore(key),
                        None => self.step = AllStep::DrainUnlock,
                    }
                    self.waiters = Some(waiters);
                }
            },
            AllStep::DrainStore(key) => {
                if let Some(waiters) = &self.waiters {
                    notify.store_notification(
                        key,
                        waiters.round.into_notification(NotificationKind::All),
                        MemoryOrder::Release,
                    );
                }
                self.step = AllStep::DrainPop;
            },
            AllStep::DrainUnlock => {
                notify.unlock();
                self.step = AllStep::Leave;
            },
            AllStep::Leave => {
                if let Some(waiters) = self.waiters.take() {
                    waiters.dissolve(notify);
                }
                self.step = AllStep::Done;
            },
            AllStep::Done => {},
        }
    }
}

/// The order in which wakers are woken that came in this order: those that came first are woken
/// first as far as batches go, and last within a batch.
pub open spec fn in_batches<W>(wakers: Seq<W>) -> Seq<W>
    decreases wakers.len(),
{
    if wakers.len() <= WAKERS {
        wakers.reverse()
    } else {
        wakers.take(WAKERS as int).reverse() + in_batches(wakers.skip(WAKERS as int))
    }
}

/// A batch that is full is woken before the rest.
proof fn lemma_batch<W>(batch: Seq<W>, rest: Seq<W>)
    requires
        batch.len() == WAKERS,
    ensures
        in_batches(batch + rest) == batch.reverse() + in_batches(rest),
{
    if rest.len() == 0 {
        assert(batch + rest =~= batch);
        assert(rest.reverse() =~= rest);
        assert(batch.reverse() + rest =~= batch.reverse());
    } else {
        assert((batch + rest).take(WAKERS as int) =~= batch);
        assert((batch + rest).skip(WAKERS as int) =~= rest);
    }
}

/// One node more or less of a sequence without duplicates.
proof fn lemma_take(nodes: Seq<usize>, n: int)
    requires
        nodes.no_duplicates(),
        0 < n <= nodes.len(),
    ensures
        !nodes.take(n - 1).contains(nodes[n - 1]),
        nodes.take(n).contains(nodes[n - 1]),
        nodes.take(n).drop_last() =~= nodes.take(n - 1),
        nodes.take(n).last() == nodes[n - 1],
        forall|node: usize| #[trigger]
            nodes.take(n).contains(node) <==> nodes.take(n - 1).contains(node) || node == nodes[n
                - 1],
{
    assert(nodes.take(n)[n - 1] == nodes[n - 1]);
    assert forall|node: usize| #[trigger] nodes.take(n).contains(node) implies nodes.take(
        n - 1,
    ).contains(node) || node == nodes[n - 1] by {
        let i = nodes.take(n).index_of(node);
        if i < n - 1 {
            assert(nodes.take(n - 1)[i] == node);
        }
    }
    assert forall|node: usize| nodes.take(n - 1).contains(node) implies #[trigger] nodes.take(
        n,
    ).contains(node) by {
        let i = nodes.take(n - 1).index_of(node);
        assert(nodes.take(n)[i] == node);
    }
}

impl<W> Memory<W> {
    /// The wakers of waiters in the order in which the waiters came, given the last one first.
    pub open spec fn wakers_of(self, nodes: Seq<usize>) -> Seq<W>
        decreases nodes.len(),
    {
        if nodes.len() == 0 {
            Seq::empty()
        } else {
            let rest = self.wakers_of(nodes.drop_last());
            match self.waker(nodes.last()) {
                Some(waker) => seq![waker] + rest,
                None => rest,
            }
        }
    }

    /// The notification of all waiters of the current round.
    pub open spec fn farewell(self) -> Notification {
        Notification { kind: NotificationKind::All, round: self.state.round }
    }

    /// What is left of a memory with all waiters notified: a new round in which nobody waits.
    pub open spec fn notified_all(self) -> Memory<W> {
        if self.state.status != Status::Waiting {
            Memory { state: self.state.renewed(), ..self }
        } else {
            let m = self.with_room();
            Memory {
                state: m.state.renewed(),
                queue: Seq::empty(),
                homes: Seq::new(
                    m.homes.len(),
                    |k: int|
                        if m.homes[k] is Listed {
                            Home::Out
                        } else {
                            m.homes[k]
                        },
                ),
                waiters: Seq::new(
                    m.waiters.len(),
                    |k: int|
                        if m.homes[k] is Listed {
                            m.notified(k as usize, m.farewell())
                        } else {
                            m.waiters[k]
                        },
                ),
                vacant: m.vacant.push(self.vacancy()),
                ..m
            }
        }
    }

    /// The wakers that a notification of all waiters wakes.
    pub open spec fn woken_all(self) -> Seq<W> {
        if self.state.status != Status::Waiting {
            Seq::empty()
        } else {
            in_batches(self.wakers_of(self.queue))
        }
    }

    /// The memory with the first `n` waiters of the queue in the ring of `guard` and the others
    /// notified.
    spec fn halfway(self, guard: usize, n: int) -> Memory<W> {
        let left = self.queue.take(n);
        Memory {
            state: self.state.renewed(),
            locked: true,
            queue: Seq::empty(),
            rings: self.rings.insert(guard, left),
            homes: Seq::new(
                self.homes.len(),
                |k: int|
                    if k == guard {
                        Home::Guard
                    } else if left.contains(k as usize) {
                        Home::Ringed(guard)
                    } else if self.homes[k] is Listed {
                        Home::Out
                    } else {
                        self.homes[k]
                    },
            ),
            waiters: Seq::new(
                self.waiters.len(),
                |k: int|
                    if self.homes[k] is Listed && !left.contains(k as usize) {
                        self.notified(k as usize, self.farewell())
                    } else {
                        self.waiters[k]
                    },
            ),
            ..self
        }
    }

    /// Waiters that are the same have the same wakers.
    proof fn lemma_wakers_of(self, other: Memory<W>, nodes: Seq<usize>)
        requires
            forall|i: int|
                0 <= i < nodes.len() ==> self.waiter(#[trigger] nodes[i]) == other.waiter(nodes[i]),
        ensures
            self.wakers_of(nodes) == other.wakers_of(nodes),
        decreases nodes.len(),
    {
        if nodes.len() > 0 {
            assert(self.waiter(nodes[nodes.len() - 1]) == other.waiter(nodes[nodes.len() - 1]));
            self.lemma_wakers_of(other, nodes.drop_last());
        }
    }
}

impl<W> Notify<W> {
    /// Notifies all waiters and starts a new round with no permit. Returns the wakers that are to be
    /// woken, in this order.
    pub fn notify_all(&mut self) -> (woken: Vec<W>)
        requires
            old(self).wf(),
            old(self)@.quiet(),
        ensures
            final(self).wf(),
            final(self)@.quiet(),
            final(self)@ =~= old(self)@.notified_all(),
            woken@ == old(self)@.woken_all(),
    {
        proof {
            self.lemma_wf();
            self@.lemma_room();
        }
        let ghost queue = self@.queue;
        let ghost guard = self@.vacancy();
        let ghost m = self@.with_room();
        let mut notifying = NotifyingAll::new();
        notifying.advance(self);
        notifying.advance(self);
        if let AllStep::Done = notifying.step {
            return notifying.woken;
        }
        // Lock, load again, start the new round and cut the waiters off.
        notifying.advance(self);
        notifying.advance(self);
        notifying.advance(self);
        notifying.advance(self);
        let ghost mut n = queue.len() as int;
        proof {
            self.lemma_wf();
            assert(self@.waiters == m.waiters);
            assert(queue.take(n) =~= queue);
            assert forall|k: int| 0 <= k < m.homes.len() implies (m.homes[k] is Listed
                <==> queue.contains(k as usize)) by {
                if k < old(self)@.homes.len() {
                    assert(old(self)@.home_wf(k as usize));
                }
                if queue.contains(k as usize) {
                    let i = queue.index_of(k as usize);
                    assert(old(self)@.queued(i));
                }
            }
            assert(m.cut(guard).rings =~= m.rings.insert(guard, queue));
            assert(self@.homes =~= m.halfway(guard, n).homes);
            assert(self@.waiters =~= m.halfway(guard, n).waiters);
        }
        while !matches!(notifying.step, AllStep::Finish)
            invariant
                self.wf(),
                notifying.wf(self@),
                notifying.step == AllStep::Pop || notifying.step == AllStep::Finish,
                notifying@.ring == Some((guard, m.state.round)),
                m.live(guard),
                m.state.wf(),
                0 <= n <= queue.len(),
                m.queue == queue,
                queue.no_duplicates(),
                guard < m.waiters.len() <= usize::MAX,
                m.homes.len() == m.waiters.len(),
                m.home(guard) is Out,
                forall|k: int|
                    0 <= k < m.homes.len() ==> (#[trigger] m.homes[k] is Listed <==> queue.contains(
                        k as usize,
                    )),
                forall|i: int|
                    0 <= i < queue.len() ==> m.waits(#[trigger] queue[i]) && queue[i]
                        < m.waiters.len() && m.waiter(queue[i]).wf(),
                self@ =~= m.halfway(guard, n),
                notifying.step == AllStep::Finish ==> n == 0 && notifying.wakers@.len() < WAKERS,
                notifying.woken@ + in_batches(notifying.wakers@ + m.wakers_of(queue.take(n)))
                    == in_batches(m.wakers_of(queue)),
            decreases
                    n,
                    notifying.wakers@.len(),
                    if notifying.step == AllStep::Finish {
                        0int
                    } else {
                        1int
                    },
        {
            let ghost wakers = notifying.wakers@;
            let ghost woken = notifying.woken@;
            notifying.advance(self);
            match notifying.step {
                AllStep::Pause => {
                    proof {
                        lemma_batch(wakers, m.wakers_of(queue.take(n)));
                    }
                    notifying.advance(self);
                    notifying.advance(self);
                    notifying.advance(self);
                    assert(notifying.wakers@ + m.wakers_of(queue.take(n)) =~= m.wakers_of(
                        queue.take(n),
                    ));
                    assert(self@ =~= m.halfway(guard, n));
                },
                AllStep::Unpark(key) => {
                    proof {
                        lemma_take(queue, n);
                        assert(key == queue[n - 1]);
                        assert(m.waits(queue[n - 1]));
                        assert(self@.waiter(key) == m.waiter(key));
                    }
                    // Unpark it and store its notification.
                    notifying.advance(self);
                    notifying.advance(self);
                    notifying.advance(self);
                    notifying.advance(self);
                    proof {
                        assert(m.wakers_of(queue.take(n)) == match m.waker(key) {
                            Some(waker) => seq![waker] + m.wakers_of(queue.take(n - 1)),
                            None => m.wakers_of(queue.take(n - 1)),
                        });
                        assert(notifying.wakers@ + m.wakers_of(queue.take(n - 1)) =~= wakers
                            + m.wakers_of(queue.take(n)));
                        n = n - 1;
                        assert(self@.rings =~= m.halfway(guard, n).rings);
                        assert(self@.homes =~= m.halfway(guard, n).homes);
                        assert(self@.waiters =~= m.halfway(guard, n).waiters);
                    }
                },
                _ => {},
            }
        }
        // Unlock, wake the last batch and do away with the guard.
        notifying.advance(self);
        notifying.advance(self);
        notifying.advance(self);
        proof {
            assert(queue.take(0) =~= Seq::empty());
            assert(notifying.wakers@ + m.wakers_of(queue.take(0)) =~= notifying.wakers@);
            m.lemma_wakers_of(old(self)@, queue);
            assert(self@.rings =~= old(self)@.rings);
        }
        notifying.woken
    }
}

impl<W> Memory<W> {
    /// The memory with the waiters in the ring of `guard` notified of the end of `round`, and without
    /// the ring. Nobody is unparked.
    pub open spec fn released(self, guard: usize, round: Round) -> Memory<W> {
        Memory {
            rings: self.rings.remove(guard),
            homes: Seq::new(
                self.homes.len(),
                |k: int|
                    if k == guard || self.homes[k] == Home::Ringed(guard) {
                        Home::Out
                    } else {
                        self.homes[k]
                    },
            ),
            waiters: Seq::new(
                self.waiters.len(),
                |k: int|
                    if self.homes[k] == Home::Ringed(guard) {
                        WaiterCells {
                            notification: Some(Notification { kind: NotificationKind::All, round }),
                            ..self.waiters[k]
                        }
                    } else {
                        self.waiters[k]
                    },
            ),
            vacant: self.vacant.push(guard),
            ..self
        }
    }

    /// The memory with the first `n` waiters of the ring of `guard` in it and the others notified.
    spec fn draining(self, guard: usize, round: Round, n: int) -> Memory<W> {
        let left = self.rings[guard].take(n);
        Memory {
            locked: true,
            rings: self.rings.insert(guard, left),
            homes: Seq::new(
                self.homes.len(),
                |k: int|
                    if self.homes[k] == Home::Ringed(guard) && !left.contains(k as usize) {
                        Home::Out
                    } else {
                        self.homes[k]
                    },
            ),
            waiters: Seq::new(
                self.waiters.len(),
                |k: int|
                    if self.homes[k] == Home::Ringed(guard) && !left.contains(k as usize) {
                        WaiterCells {
                            notification: Some(Notification { kind: NotificationKind::All, round }),
                            ..self.waiters[k]
                        }
                    } else {
                        self.waiters[k]
                    },
            ),
            ..self
        }
    }
}

impl WaiterList {
    /// Notifies those that are left of the end of their round. They are not woken.
    pub fn drop<W>(self, notify: &mut Notify<W>)
        requires
            old(notify).wf(),
            !old(notify)@.locked,
            self.wf(old(notify)@),
            old(notify)@.live(self.guard()),
            forall|i: int|
                0 <= i < old(notify)@.rings[self.guard()].len() ==> old(notify)@.live(
                    #[trigger] old(notify)@.rings[self.guard()][i],
                ),
        ensures
            final(notify).wf(),
            final(notify)@ =~= old(notify)@.released(self.guard(), self.round()),
    {
        let ghost m = notify@;
        let ghost guard = self.guard();
        let ghost round = self.round();
        let ghost nodes = m.rings[guard];
        proof {
            notify.lemma_wf();
            assert(m.ring_wf(guard));
            assert forall|k: int| 0 <= k < m.homes.len() implies (m.homes[k] == Home::Ringed(guard)
                <==> nodes.contains(k as usize)) by {
                assert(m.home_wf(k as usize));
                if nodes.contains(k as usize) {
                    assert(m.ringed(guard, nodes.index_of(k as usize)));
                }
            }
            assert(nodes.take(nodes.len() as int) =~= nodes);
            assert(nodes.take(0) =~= Seq::empty());
        }
        if self.list.is_empty() {
            self.dissolve(notify);
            return ;
        }
        let mut draining: NotifyingAll<W> = NotifyingAll::new();
        draining.waiters = Some(self);
        draining.step = AllStep::Drain;
        draining.advance(notify);
        let ghost mut n = nodes.len() as int;
        proof {
            assert(notify@.homes =~= m.draining(guard, round, n).homes);
            assert(notify@.waiters =~= m.draining(guard, round, n).waiters);
            assert(notify@.rings =~= m.draining(guard, round, n).rings);
        }
        while !matches!(draining.step, AllStep::DrainUnlock)
            invariant
                notify.wf(),
                draining.wf(notify@),
                draining.step == AllStep::DrainPop || draining.step == AllStep::DrainUnlock,
                draining@.ring == Some((guard, round)),
                round.wf(),
                m.live(guard),
                0 <= n <= nodes.len(),
                nodes == m.rings[guard],
                nodes.no_duplicates(),
                m.rings.dom().contains(guard),
                m.home(guard) is Guard,
                m.homes.len() == m.waiters.len(),
                m.waiters.len() <= usize::MAX,
                forall|k: int|
                    0 <= k < m.homes.len() ==> (#[trigger] m.homes[k] == Home::Ringed(guard)
                        <==> nodes.contains(k as usize)),
                forall|i: int|
                    0 <= i < nodes.len() ==> m.live(#[trigger] nodes[i]) && nodes[i]
                        < m.waiters.len(),
                notify@ =~= m.draining(guard, round, n),
                draining.step == AllStep::DrainUnlock ==> n == 0,
            decreases
                    n,
                    if draining.step == AllStep::DrainUnlock {
                        0int
                    } else {
                        1int
                    },
        {
            draining.advance(notify);
            if let AllStep::DrainStore(key) = draining.step {
                proof {
                    lemma_take(nodes, n);
                    assert(key == nodes[n - 1]);
                }
                draining.advance(notify);
                proof {
                    n = n - 1;
                    assert(notify@.rings =~= m.draining(guard, round, n).rings);
                    assert(notify@.homes =~= m.draining(guard, round, n).homes);
                    assert(notify@.waiters =~= m.draining(guard, round, n).waiters);
                }
            }
        }
        draining.advance(notify);
        draining.advance(notify);
        proof {
            assert(notify@.rings =~= m.released(guard, round).rings);
        }
    }
}

} // verus!
