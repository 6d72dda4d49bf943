//! Memory that the tasks of a [Notify] share, and the accesses to it.
//!
//! Each access touches one cell once, or is made by the holder of the lock. The tasks are made of
//! such accesses and of nothing else.

use crate::atomic::MemoryOrder;
use crate::notify::list::{without, GuardedList, Home, Links, List};
use crate::notify::state::{
    AtomicNotification, AtomicState, Notification, Round, State, Status, ROUND_UNIT,
};
use crate::parker::{other_slot, Park, Parking, Unpark, WeakParking};
use crate::task::Poll;
use vstd::prelude::*;

verus! {

/// What a task that waits shares with those that notify it.
pub struct Waiter<W> {
    pub parking: WeakParking<W>,
    /// Release store to release the connection to the waiter.
    /// Acquire load to observe all changes.
    pub notification: AtomicNotification,
}

impl<W> Default for Waiter<W> {
    fn default() -> (waiter: Self)
        ensures
            waiter.wf(),
            waiter@ =~= WaiterCells::<W>::fresh(),
    {
        Waiter { parking: Parking::new(), notification: AtomicNotification::default() }
    }
}

/// What is in the cells of a [Waiter].
#[verifier::ext_equal]
pub struct WaiterCells<W> {
    pub parked: crate::parker::State,
    pub wakers: Seq<Option<W>>,
    pub notification: Option<Notification>,
}

impl<W> WaiterCells<W> {
    pub open spec fn wf(self) -> bool {
        &&& self.wakers.len() == 2
        &&& self.parked matches crate::parker::State::Parking(index) ==> index < 2
        &&& self.notification matches Some(notification) ==> notification.wf()
    }

    /// The cells once the waiter has parked with `waker`.
    pub open spec fn parked_with(self, waker: W) -> Self {
        let slot = other_slot(self.parked->Parking_0);
        WaiterCells {
            parked: crate::parker::State::Parking(slot),
            wakers: self.wakers.update(slot as int, Some(waker)),
            ..self
        }
    }

    /// Nobody parked, and nobody was notified.
    pub open spec fn fresh() -> Self {
        WaiterCells {
            parked: crate::parker::State::Parking(0),
            wakers: seq![None, None],
            notification: None,
        }
    }
}

impl<W> View for Waiter<W> {
    type V = WaiterCells<W>;

    open spec fn view(&self) -> WaiterCells<W> {
        WaiterCells {
            parked: self.parking.state@,
            wakers: self.parking.wakers@,
            notification: self.notification@,
        }
    }
}

impl<W> Waiter<W> {
    pub open spec fn wf(&self) -> bool {
        &&& self.parking.wf()
        &&& self.notification.wf()
        &&& self@.wf()
    }
}

/// What is in the memory of a [Notify].
#[verifier::ext_equal]
pub struct Memory<W> {
    pub state: State,
    /// Whether somebody holds the lock on the lists.
    pub locked: bool,
    /// The listed waiters from the one that came last to the one that came first.
    pub queue: Seq<usize>,
    /// The waiters of each round that is over and not notified in full, by guard, in the order of
    /// the queue that they were taken from.
    pub rings: Map<usize, Seq<usize>>,
    /// Where each waiter is.
    pub homes: Seq<Home>,
    pub waiters: Seq<WaiterCells<W>>,
    /// The places in the table that are not in use.
    pub vacant: Seq<usize>,
}

impl<W> Memory<W> {
    /// Whether `key` is the place of a waiter.
    pub open spec fn live(self, key: usize) -> bool {
        key < self.waiters.len() && !self.vacant.contains(key)
    }

    pub open spec fn home(self, key: usize) -> Home {
        self.homes[key as int]
    }

    pub open spec fn waiter(self, key: usize) -> WaiterCells<W> {
        self.waiters[key as int]
    }

    /// The `i`-th waiter of the queue is at home there.
    pub open spec fn queued(self, i: int) -> bool {
        self.queue[i] < self.waiters.len() && self.home(self.queue[i]) is Listed
    }

    /// The `i`-th waiter of a ring is at home there.
    pub open spec fn ringed(self, guard: usize, i: int) -> bool {
        &&& self.rings[guard][i] < self.waiters.len()
        &&& self.home(self.rings[guard][i]) == Home::Ringed(guard)
    }

    pub open spec fn ring_wf(self, guard: usize) -> bool {
        &&& guard < self.waiters.len()
        &&& self.home(guard) is Guard
        &&& self.rings[guard].no_duplicates()
        &&& forall|i: int| 0 <= i < self.rings[guard].len() ==> #[trigger] self.ringed(guard, i)
    }

    pub open spec fn home_wf(self, key: usize) -> bool {
        match self.home(key) {
            Home::Out => true,
            Home::Listed => self.queue.contains(key),
            Home::Ringed(guard) => {
                self.rings.dom().contains(guard) && self.rings[guard].contains(key)
            },
            Home::Guard => self.rings.dom().contains(key),
        }
    }

    /// The `i`-th vacant place is in no list.
    pub open spec fn vacated(self, i: int) -> bool {
        self.vacant[i] < self.waiters.len() && self.home(self.vacant[i]) is Out
    }

    pub open spec fn wf(self) -> bool {
        &&& self.state.wf()
        &&& self.waiters.len() <= usize::MAX
        &&& self.homes.len() == self.waiters.len()
        &&& self.queue.no_duplicates()
        &&& forall|i: int| 0 <= i < self.queue.len() ==> #[trigger] self.queued(i)
        &&& forall|guard: usize| #[trigger]
            self.rings.dom().contains(guard) ==> self.ring_wf(guard)
        &&& forall|key: usize| key < self.waiters.len() ==> #[trigger] self.home_wf(key)
        &&& forall|key: usize| key < self.waiters.len() ==> #[trigger] self.waiter(key).wf()
        &&& self.vacant.no_duplicates()
        &&& forall|i: int| 0 <= i < self.vacant.len() ==> #[trigger] self.vacated(i)
    }

    /// Whether there is a waiter at `key` that was neither notified nor unparked.
    pub open spec fn waits(self, key: usize) -> bool {
        &&& self.live(key)
        &&& self.waiter(key).parked is Parking
        &&& self.waiter(key).notification is None
    }

    /// Whether no task is on its way: nobody has the lock, and the state tells whether somebody is
    /// listed.
    pub open spec fn quiet(self) -> bool {
        &&& !self.locked
        &&& self.rings == Map::<usize, Seq<usize>>::empty()
        &&& (self.state.status == Status::Waiting <==> self.queue.len() > 0)
        &&& forall|i: int| 0 <= i < self.queue.len() ==> self.waits(#[trigger] self.queue[i])
    }

    /// The next place for a waiter.
    pub open spec fn vacancy(self) -> usize {
        if self.vacant.len() > 0 {
            self.vacant.last()
        } else {
            self.waiters.len() as usize
        }
    }

    /// The memory with a fresh waiter at its vacancy.
    pub open spec fn with_room(self) -> Memory<W> {
        if self.vacant.len() > 0 {
            Memory {
                waiters: self.waiters.update(self.vacancy() as int, WaiterCells::fresh()),
                vacant: self.vacant.drop_last(),
                ..self
            }
        } else {
            Memory {
                waiters: self.waiters.push(WaiterCells::fresh()),
                homes: self.homes.push(Home::Out),
                ..self
            }
        }
    }

    /// The new waiter is on its own, and the others stay as they were.
    pub proof fn lemma_room(self)
        requires
            self.wf(),
        ensures
            !self.live(self.vacancy()),
            self.with_room().live(self.vacancy()),
            self.with_room().home(self.vacancy()) is Out,
            self.with_room().waiter(self.vacancy()) == WaiterCells::<W>::fresh(),
            forall|key: usize|
                key != self.vacancy() ==> #[trigger] self.with_room().live(key) == self.live(key),
            forall|key: usize|
                key != self.vacancy() && key < self.waiters.len() ==> {
                    &&& #[trigger] self.with_room().home(key) == self.home(key)
                    &&& self.with_room().waiter(key) == self.waiter(key)
                },
    {
        if self.vacant.len() > 0 {
            assert(self.vacated(self.vacant.len() - 1));
            assert(self.vacant.contains(self.vacancy()));
            let rest = self.vacant.drop_last();
            assert(!rest.contains(self.vacancy()));
            assert forall|key: usize| key != self.vacancy() implies #[trigger] self.with_room().live(
                key,
            ) == self.live(key) by {
                if self.vacant.contains(key) {
                    let i = self.vacant.index_of(key);
                    assert(rest[i] == key);
                }
            }
        }
    }

    /// The memory with other cells at `key`.
    pub open spec fn with_waiter(self, key: usize, cells: WaiterCells<W>) -> Memory<W> {
        Memory { waiters: self.waiters.update(key as int, cells), ..self }
    }
}

/// Notifies one task or all attached tasks to wake up, with wakers of type `W`.
pub struct Notify<W> {
    list: List,
    links: Links,
    locked: bool,
    state: AtomicState,
    waiters: Vec<Waiter<W>>,
    vacant: Vec<usize>,
}

impl<W> View for Notify<W> {
    type V = Memory<W>;

    closed spec fn view(&self) -> Memory<W> {
        Memory {
            state: self.state@,
            locked: self.locked,
            queue: self.list.order@,
            rings: self.links.rings@,
            homes: self.links.homes@,
            waiters: Seq::new(self.waiters@.len(), |i: int| self.waiters@[i]@),
            vacant: self.vacant@,
        }
    }
}

impl<W> Notify<W> {
    pub closed spec fn wf(&self) -> bool {
        &&& self.links.wf()
        &&& self.list.wf(self.links)
        &&& self.state.wf()
        &&& self.links.cells@.len() == self.waiters@.len()
        &&& forall|i: int| 0 <= i < self.waiters@.len() ==> (#[trigger] self.waiters@[i]).wf()
        &&& self.vacant@.no_duplicates()
        &&& forall|i: int| 0 <= i < self.vacant@.len() ==> #[trigger] self.unused(i)
    }

    /// The `i`-th vacant place is in no list.
    closed spec fn unused(&self, i: int) -> bool {
        &&& self.vacant@[i] < self.links.cells@.len()
        &&& self.links.home(self.vacant@[i]) is Out
    }

    /// What the memory of a well-formed [Notify] is like.
    pub proof fn lemma_wf(&self)
        requires
            self.wf(),
        ensures
            self@.wf(),
    {
        let m = self@;
        assert(self.waiters.len() == m.waiters.len());
        assert forall|i: int| 0 <= i < m.queue.len() implies #[trigger] m.queued(i) by {
            assert(self.list.settled(self.links, i));
        }
        assert forall|guard: usize| #[trigger] m.rings.dom().contains(guard) implies m.ring_wf(
            guard,
        ) by {
            assert(self.links.ring_wf(guard));
            assert forall|i: int| 0 <= i < m.rings[guard].len() implies #[trigger] m.ringed(
                guard,
                i,
            ) by {
                assert(self.links.settled(guard, i));
            }
        }
        assert forall|key: usize| key < m.waiters.len() implies #[trigger] m.home_wf(key) by {
            assert(self.links.home_wf(key));
            assert(m.home(key) == self.links.home(key));
        }
        assert forall|key: usize| key < m.waiters.len() implies #[trigger] m.waiter(key).wf() by {
            assert(self.waiters@[key as int].wf());
        }
        assert forall|i: int| 0 <= i < m.vacant.len() implies #[trigger] m.vacated(i) by {
            assert(self.unused(i));
        }
    }

    /// The vacant places are unused still if none of them was touched.
    proof fn lemma_unused(before: Self, after: Self)
        requires
            before.wf(),
            after.vacant@ == before.vacant@,
            before.links.cells@.len() <= after.links.cells@.len(),
            forall|key: usize|
                key < before.links.cells@.len() && #[trigger] before.links.home(key) is Out
                    && before.vacant@.contains(key) ==> after.links.home(key) is Out,
        ensures
            forall|i: int| 0 <= i < after.vacant@.len() ==> #[trigger] after.unused(i),
    {
        assert forall|i: int| 0 <= i < after.vacant@.len() implies #[trigger] after.unused(i) by {
            assert(before.unused(i));
            assert(before.vacant@.contains(before.vacant@[i]));
        }
    }

    /// A memory with no waiters in the first round.
    pub fn new() -> (notify: Self)
        ensures
            notify.wf(),
            notify@ =~= (Memory {
                state: State { round: Round(ROUND_UNIT), status: Status::Idle },
                locked: false,
                queue: Seq::empty(),
                rings: Map::empty(),
                homes: Seq::empty(),
                waiters: Seq::empty(),
                vacant: Seq::empty(),
            }),
    {
        let links = Links::new();
        Notify {
            list: List::default(),
            links,
            locked: false,
            state: AtomicState::default(),
            waiters: Vec::new(),
            vacant: Vec::new(),
        }
    }

    /// Loads the state.
    pub fn load_state(&self, order: MemoryOrder) -> (state: State)
        requires
            self.wf(),
            order.loads(),
        ensures
            state == self@.state,
            state.wf(),
    {
        self.state.load(order)
    }

    /// Stores the state.
    pub fn store_state(&mut self, state: State, order: MemoryOrder)
        requires
            old(self).wf(),
            state.wf(),
            order.stores(),
        ensures
            final(self).wf(),
            final(self)@ =~= (Memory { state, ..old(self)@ }),
    {
        self.state.store(state, order);
        proof {
            Self::lemma_unused(*old(self), *self);
        }
    }

    /// Puts `new` in place of the state `current`. Any other state stays and is returned.
    pub fn exchange_state(
        &mut self,
        current: State,
        new: State,
        success: MemoryOrder,
        failure: MemoryOrder,
    ) -> (result: Result<State, State>)
        requires
            old(self).wf(),
            current.wf(),
            new.wf(),
            failure.loads(),
        ensures
            final(self).wf(),
            if old(self)@.state == current {
                &&& result == Ok::<State, State>(current)
                &&& final(self)@ =~= (Memory { state: new, ..old(self)@ })
            } else {
                &&& result == Err::<State, State>(old(self)@.state)
                &&& old(self)@.state.wf()
                &&& final(self)@ =~= old(self)@
            },
    {
        let result = self.state.compare_exchange(current, new, success, failure);
        proof {
            Self::lemma_unused(*old(self), *self);
        }
        result
    }

    /// Takes the lock, unless somebody has it.
    pub fn try_lock(&mut self) -> (taken: bool)
        requires
            old(self).wf(),
        ensures
            final(self).wf(),
            taken == !old(self)@.locked,
            final(self)@ =~= (Memory { locked: true, ..old(self)@ }),
    {
        let taken = !self.locked;
        self.locked = true;
        proof {
            Self::lemma_unused(*old(self), *self);
        }
        taken
    }

    /// Gives the lock back.
    pub fn unlock(&mut self)
        requires
            old(self).wf(),
            old(self)@.locked,
        ensures
            final(self).wf(),
            final(self)@ =~= (Memory { locked: false, ..old(self)@ }),
    {
        self.locked = false;
        proof {
            Self::lemma_unused(*old(self), *self);
        }
    }

    /// Whether nobody is listed.
    pub fn is_list_empty(&self) -> (empty: bool)
        requires
            self.wf(),
            self@.locked,
        ensures
            empty == (self@.queue.len() == 0),
    {
        self.list.is_empty()
    }

    /// Lists a waiter.
    pub fn push_front(&mut self, key: usize)
        requires
            old(self).wf(),
            old(self)@.locked,
            old(self)@.live(key),
            old(self)@.home(key) is Out,
        ensures
            final(self).wf(),
            final(self)@ =~= (Memory {
                queue: seq![key] + old(self)@.queue,
                homes: old(self)@.homes.update(key as int, Home::Listed),
                ..old(self)@
            }),
    {
        self.list.push_front(&mut self.links, key);
        proof {
            Self::lemma_unused(*old(self), *self);
        }
    }

    /// Takes the waiter that was listed first.
    pub fn pop_back(&mut self) -> (popped: Option<usize>)
        requires
            old(self).wf(),
            old(self)@.locked,
        ensures
            final(self).wf(),
            match popped {
                None => {
                    &&& old(self)@.queue.len() == 0
                    &&& final(self)@ =~= old(self)@
                },
                Some(key) => {
                    &&& old(self)@.queue.len() > 0
                    &&& key == old(self)@.queue.last()
                    &&& final(self)@ =~= (Memory {
                        queue: old(self)@.queue.drop_last(),
                        homes: old(self)@.homes.update(key as int, Home::Out),
                        ..old(self)@
                    })
                },
            },
    {
        let popped = self.list.pop_back(&mut self.links);
        proof {
            Self::lemma_unused(*old(self), *self);
        }
        popped
    }

    /// Takes a waiter out of wherever it is listed. Tells whether it was.
    pub fn unlink(&mut self, key: usize) -> (linked: bool)
        requires
            old(self).wf(),
            old(self)@.locked,
            old(self)@.live(key),
            !(old(self)@.home(key) is Guard),
        ensures
            final(self).wf(),
            linked == !(old(self)@.home(key) is Out),
            final(self)@ =~= (Memory {
                queue: without(old(self)@.queue, key),
                rings: match old(self)@.home(key) {
                    Home::Ringed(guard) => old(self)@.rings.insert(
                        guard,
                        without(old(self)@.rings[guard], key),
                    ),
                    _ => old(self)@.rings,
                },
                homes: old(self)@.homes.update(key as int, Home::Out),
                ..old(self)@
            }),
    {
        let linked = self.list.unlink(&mut self.links, key);
        proof {
            Self::lemma_unused(*old(self), *self);
        }
        linked
    }

    /// Cuts all listed waiters off, with `guard` to guard them.
    pub fn cut(&mut self, guard: usize) -> (guarded: GuardedList)
        requires
            old(self).wf(),
            old(self)@.locked,
            old(self)@.live(guard),
            old(self)@.home(guard) is Out,
        ensures
            final(self).wf(),
            guarded.guard() == guard,
            !guarded.drained(),
            final(self)@ =~= (Memory {
                queue: Seq::empty(),
                rings: old(self)@.rings.insert(guard, old(self)@.queue),
                homes: Seq::new(
                    old(self)@.homes.len(),
                    |k: int|
                        if k == guard {
                            Home::Guard
                        } else if old(self)@.homes[k] is Listed {
                            Home::Ringed(guard)
                        } else {
                            old(self)@.homes[k]
                        },
                ),
                ..old(self)@
            }),
    {
        let mut list = List::default();
        std::mem::swap(&mut list, &mut self.list);
        let guarded = GuardedList::new(list, &mut self.links, guard);
        proof {
            assert(self.list.wf(self.links));
            Self::lemma_unused(*old(self), *self);
        }
        guarded
    }

    /// Takes the waiter of a guarded list that was listed first.
    pub fn pop_guarded(&mut self, guarded: &mut GuardedList) -> (popped: Option<usize>)
        requires
            old(self).wf(),
            old(self)@.locked,
            old(self)@.rings.dom().contains(old(guarded).guard()),
            old(guarded).drained() ==> old(self)@.rings[old(guarded).guard()].len() == 0,
        ensures
            final(self).wf(),
            final(guarded).guard() == old(guarded).guard(),
            match popped {
                None => {
                    &&& old(self)@.rings[old(guarded).guard()].len() == 0
                    &&& final(guarded).drained()
                    &&& final(self)@ =~= old(self)@
                },
                Some(key) => {
                    &&& old(self)@.rings[old(guarded).guard()].len() > 0
                    &&& key == old(self)@.rings[old(guarded).guard()].last()
                    &&& final(guarded).drained() == old(guarded).drained()
                    &&& final(self)@ =~= (Memory {
                        rings: old(self)@.rings.insert(
                            old(guarded).guard(),
                            old(self)@.rings[old(guarded).guard()].drop_last(),
                        ),
                        homes: old(self)@.homes.update(key as int, Home::Out),
                        ..old(self)@
                    })
                },
            },
    {
        let ghost before = self.links;
        proof {
            guarded.lemma_back(before);
        }
        let popped = guarded.pop_back(&mut self.links);
        if let Some(key) = popped {
            guarded.release(&mut self.links, key, Ghost(before));
        }
        proof {
            assert(self.list.wf(self.links));
            Self::lemma_unused(*old(self), *self);
        }
        popped
    }

    /// Gives the guard of an empty guarded list back.
    pub fn dissolve(&mut self, guarded: GuardedList) -> (guard: usize)
        requires
            old(self).wf(),
            old(self)@.rings.dom().contains(guarded.guard()),
            old(self)@.rings[guarded.guard()].len() == 0,
        ensures
            final(self).wf(),
            guard == guarded.guard(),
            final(self)@ =~= (Memory {
                rings: old(self)@.rings.remove(guard),
                homes: old(self)@.homes.update(guard as int, Home::Out),
                ..old(self)@
            }),
    {
        let guard = guarded.dissolve(&mut self.links);
        proof {
            assert(self.list.wf(self.links));
            Self::lemma_unused(*old(self), *self);
        }
        guard
    }

    /// Makes room for a waiter that waits for nothing yet.
    pub fn enter(&mut self) -> (key: usize)
        requires
            old(self).wf(),
        ensures
            final(self).wf(),
            key == old(self)@.vacancy(),
            final(self)@ =~= old(self)@.with_room(),
    {
        match self.vacant.pop() {
            Some(key) => {
                proof {
                    assert(old(self).unused(old(self).vacant@.len() - 1));
                    assert(!self.vacant@.contains(key));
                }
                self.waiters[key] = Waiter::default();
                proof {
                    assert forall|i: int| 0 <= i < self.vacant@.len() implies #[trigger] self.unused(
                        i,
                    ) by {
                        assert(old(self).unused(i));
                    }
                }
                key
            },
            None => {
                let key: usize = self.links.add();
                self.waiters.push(Waiter::default());
                proof {
                    assert(self.list.wf(self.links));
                    assert(self.vacant@ =~= old(self).vacant@);
                    Self::lemma_unused(*old(self), *self);
                }
                key
            },
        }
    }

    /// Gives the place of a waiter back.
    pub fn leave(&mut self, key: usize)
        requires
            old(self).wf(),
            old(self)@.live(key),
            old(self)@.home(key) is Out,
        ensures
            final(self).wf(),
            final(self)@ =~= (Memory { vacant: old(self)@.vacant.push(key), ..old(self)@ }),
    {
        self.vacant.push(key);
        proof {
            assert forall|i: int| 0 <= i < self.vacant@.len() implies #[trigger] self.unused(i) by {
                if i < old(self).vacant@.len() {
                    assert(old(self).unused(i));
                }
            }
        }
    }

    /// Loads the notification of a waiter.
    pub fn load_notification(&self, key: usize, order: MemoryOrder) -> (notification: Option<
        Notification,
    >)
        requires
            self.wf(),
            self@.live(key),
            order.loads(),
        ensures
            notification == self@.waiter(key).notification,
            notification is Some ==> notification->Some_0.wf(),
    {
        self.waiters[key].notification.load(order)
    }

    /// Stores the notification of a waiter.
    pub fn store_notification(
        &mut self,
        key: usize,
        notification: Notification,
        order: MemoryOrder,
    )
        requires
            old(self).wf(),
            old(self)@.live(key),
            notification.wf(),
            order.stores(),
        ensures
            final(self).wf(),
            final(self)@ =~= old(self)@.with_waiter(
                key,
                WaiterCells { notification: notification.stored(), ..old(self)@.waiter(key) },
            ),
    {
        self.waiters[key].notification.store(notification, order);
        proof {
            Self::lemma_unused(*old(self), *self);
        }
    }

    /// Clears the notification of a waiter.
    pub fn clear_notification(&mut self, key: usize)
        requires
            old(self).wf(),
            old(self)@.live(key),
        ensures
            final(self).wf(),
            final(self)@ =~= old(self)@.with_waiter(
                key,
                WaiterCells { notification: None, ..old(self)@.waiter(key) },
            ),
    {
        self.waiters[key].notification.clear();
        proof {
            Self::lemma_unused(*old(self), *self);
        }
    }

    /// Clears the notification of a waiter and returns it.
    pub fn take_notification(&mut self, key: usize) -> (notification: Option<Notification>)
        requires
            old(self).wf(),
            old(self)@.live(key),
        ensures
            final(self).wf(),
            notification == old(self)@.waiter(key).notification,
            notification is Some ==> notification->Some_0.wf(),
            final(self)@ =~= old(self)@.with_waiter(
                key,
                WaiterCells { notification: None, ..old(self)@.waiter(key) },
            ),
    {
        let notification = self.waiters[key].notification.take();
        proof {
            Self::lemma_unused(*old(self), *self);
        }
        notification
    }

    /// Makes the next step of the unpark of a waiter.
    pub fn advance_unpark(&mut self, key: usize, unpark: &mut Unpark<W>)
        requires
            old(self).wf(),
            old(self)@.live(key),
            old(unpark).ready(old(self)@.waiter(key).parked),
        ensures
            final(self).wf(),
            ({
                let cells = old(self)@.waiter(key);
                let (next, parked, wakers) = old(unpark).next(cells.parked, cells.wakers);
                &&& *final(unpark) == next
                &&& final(self)@ =~= old(self)@.with_waiter(
                    key,
                    WaiterCells { parked, wakers, ..cells },
                )
            }),
    {
        unpark.advance(&mut self.waiters[key].parking);
        proof {
            Self::lemma_unused(*old(self), *self);
        }
    }

    /// Makes the next step of the park of a waiter.
    pub fn advance_park(&mut self, key: usize, park: &mut Park<W>)
        requires
            old(self).wf(),
            old(self)@.live(key),
            old(park).ready(old(self)@.waiter(key).parked),
        ensures
            final(self).wf(),
            ({
                let cells = old(self)@.waiter(key);
                let (next, parked, wakers) = old(park).next(cells.parked, cells.wakers);
                &&& *final(park) == next
                &&& final(self)@ =~= old(self)@.with_waiter(
                    key,
                    WaiterCells { parked, wakers, ..cells },
                )
            }),
    {
        park.advance(&mut self.waiters[key].parking);
        proof {
            Self::lemma_unused(*old(self), *self);
        }
    }

    /// Parks a waiter that was not unparked yet with `waker`.
    pub fn park(&mut self, key: usize, waker: W) -> (poll: Poll<()>)
        requires
            old(self).wf(),
            old(self)@.live(key),
        ensures
            final(self).wf(),
            match old(self)@.waiter(key).parked {
                crate::parker::State::Unparked => {
                    &&& poll == Poll::Ready(())
                    &&& final(self)@ =~= old(self)@
                },
                crate::parker::State::Parking(_) => {
                    &&& poll == Poll::<()>::Pending
                    &&& final(self)@ =~= old(self)@.with_waiter(
                        key,
                        old(self)@.waiter(key).parked_with(waker),
                    )
                },
            },
    {
        let poll = self.waiters[key].parking.park(waker);
        proof {
            Self::lemma_unused(*old(self), *self);
        }
        poll
    }
}

} // verus!
