//! The task of notifying one waiter, or else of leaving a permit.

use crate::atomic::MemoryOrder;
use crate::notify::list::Home;
use crate::notify::memory::{Memory, Notify, WaiterCells};
use crate::notify::state::{Notification, NotificationKind, Round, State, Status};
use crate::parker::{Unpark, UnparkStep};
use vstd::prelude::*;

verus! {

/// Progress of a [NotifyingOne].
#[derive(Copy, Clone, Debug, PartialEq, Eq, Structural)]
pub enum OneStep {
    /// To load the state.
    Load,
    /// To leave a permit, unless somebody waits in this state.
    Attempt(State),
    /// To take the lock.
    Lock,
    /// To load the state again.
    Reload,
    /// To give the lock back and to go on with this state, in which nobody waits.
    Retry(State),
    /// To take the waiter that came first.
    Pop(State),
    /// To unpark this waiter.
    Unpark(usize, State),
    /// To store the notification of this waiter.
    Store(usize, State),
    /// To tell whether that was the last waiter.
    Settle(State),
    /// To give the lock back.
    Unlock,
    /// Done. The waker, if there is one, is to be woken.
    Done,
}

/// A notification of one waiter on its way.
pub struct NotifyingOne<W> {
    /// The only round to notify in. None at first, where that is the round of the first load.
    pub round: Option<Round>,
    pub step: OneStep,
    pub unpark: Unpark<W>,
}

impl<W> NotifyingOne<W> {
    /// A notification in `round` that has made no step yet.
    pub open spec fn begun(round: Option<Round>) -> Self {
        NotifyingOne {
            round,
            step: OneStep::Load,
            unpark: Unpark { step: UnparkStep::Load, waker: None },
        }
    }

    /// Notifies in `round` alone, or in whichever round it is.
    pub fn new(round: Option<Round>) -> (notifying: Self)
        ensures
            notifying == NotifyingOne::<W>::begun(round),
    {
        NotifyingOne { round, step: OneStep::Load, unpark: Unpark::new() }
    }

    /// Whether it has the lock.
    pub open spec fn holds(self) -> bool {
        match self.step {
            OneStep::Load | OneStep::Attempt(_) | OneStep::Lock | OneStep::Done => false,
            _ => true,
        }
    }

    /// The waiter that was taken from the queue and is not notified yet.
    pub open spec fn hand(self) -> Option<usize> {
        match self.step {
            OneStep::Unpark(key, _) | OneStep::Store(key, _) => Some(key),
            _ => None,
        }
    }

    /// What the task counts on.
    pub open spec fn ready(self, m: Memory<W>) -> bool {
        &&& self.holds() ==> m.locked
        &&& match self.step {
            OneStep::Load => true,
            OneStep::Attempt(state) => self.round is Some && state.wf(),
            OneStep::Retry(state) => self.round is Some && state.wf(),
            OneStep::Pop(state) => {
                self.round is Some && state.wf() && m.queue.len() > 0 && self.unpark.step is Load
            },
            OneStep::Unpark(key, state) => {
                self.round is Some && state.wf() && m.live(key) && self.unpark.ready(
                    m.waiter(key).parked,
                )
            },
            OneStep::Store(key, state) => self.round is Some && state.wf() && m.live(key),
            OneStep::Settle(state) => self.round is Some && state.wf(),
            _ => self.round is Some,
        }
    }

    pub open spec fn at(self, step: OneStep) -> Self {
        NotifyingOne { step, ..self }
    }

    /// What the next step makes of the task and of the memory.
    pub open spec fn next(self, m: Memory<W>) -> (Self, Memory<W>) {
        let round = self.round->Some_0;
        match self.step {
            OneStep::Load => {
                let round = match self.round {
                    Some(round) => round,
                    None => m.state.round,
                };
                (NotifyingOne { round: Some(round), step: OneStep::Attempt(m.state), ..self }, m)
            },
            OneStep::Attempt(state) => if state.round != round {
                (self.at(OneStep::Done), m)
            } else if state.status == Status::Waiting {
                (self.at(OneStep::Lock), m)
            } else if m.state == state {
                (
                    self.at(OneStep::Done),
                    Memory { state: State { status: Status::Notified, ..state }, ..m },
                )
            } else {
                (self.at(OneStep::Attempt(m.state)), m)
            },
            OneStep::Lock => if m.locked {
                (self, m)
            } else {
                (self.at(OneStep::Reload), Memory { locked: true, ..m })
            },
            OneStep::Reload => if m.state.round != round {
                (self.at(OneStep::Unlock), m)
            } else if m.state.status != Status::Waiting {
                (self.at(OneStep::Retry(m.state)), m)
            } else {
                (self.at(OneStep::Pop(m.state)), m)
            },
            OneStep::Retry(state) => (
                self.at(OneStep::Attempt(state)),
                Memory { locked: false, ..m },
            ),
            OneStep::Pop(state) => (
                self.at(OneStep::Unpark(m.queue.last(), state)),
                Memory {
                    queue: m.queue.drop_last(),
                    homes: m.homes.update(m.queue.last() as int, Home::Out),
                    ..m
                },
            ),
            OneStep::Unpark(key, state) => {
                let cells = m.waiter(key);
                let (unpark, parked, wakers) = self.unpark.next(cells.parked, cells.wakers);
                let step = if unpark.step is Done {
                    OneStep::Store(key, state)
                } else {
                    self.step
                };
                (
                    NotifyingOne { step, unpark, ..self },
                    m.with_waiter(key, WaiterCells { parked, wakers, ..cells }),
                )
            },
            OneStep::Store(key, state) => {
                let notification = Notification { kind: NotificationKind::One, round: state.round };
                (
                    self.at(OneStep::Settle(state)),
                    m.with_waiter(
                        key,
                        WaiterCells { notification: notification.stored(), ..m.waiter(key) },
                    ),
                )
            },
            OneStep::Settle(state) => (
                self.at(OneStep::Unlock),
                if m.queue.len() == 0 {
                    Memory { state: State { status: Status::Idle, ..state }, ..m }
                } else {
                    m
                },
            ),
            OneStep::Unlock => (self.at(OneStep::Done), Memory { locked: false, ..m }),
            OneStep::Done => (self, m),
        }
    }

    /// Makes the next step.
    pub fn advance(&mut self, notify: &mut Notify<W>)
        requires
            old(notify).wf(),
            old(self).ready(old(notify)@),
        ensures
            final(notify).wf(),
            *final(self) == old(self).next(old(notify)@).0,
            final(notify)@ =~= old(self).next(old(notify)@).1,
    {
        proof {
            notify.lemma_wf();
        }
        match self.step {
            OneStep::Load => {
                let state = notify.load_state(MemoryOrder::SeqCst);
                if self.round.is_none() {
                    self.round = Some(state.round);
                }
                self.step = OneStep::Attempt(state);
            },
            OneStep::Attempt(state) => {
                // There must have been a `notify_all`, which notified all waiters of this round.
                if Some(state.round) != self.round {
                    self.step = OneStep::Done;
                } else if state.status == Status::Waiting {
                    self.step = OneStep::Lock;
                } else {
                    // Release store to transfer happens-before relationship.
                    match notify.exchange_state(
                        state,
                        state.with_status(Status::Notified),
                        MemoryOrder::Release,
                        MemoryOrder::Relaxed,
                    ) {
                        Ok(_) => self.step = OneStep::Done,
                        Err(updated) => self.step = OneStep::Attempt(updated),
                    }
                }
            },
            OneStep::Lock => {
                if notify.try_lock() {
                    self.step = OneStep::Reload;
                }
            },
            OneStep::Reload => {
                let state = notify.load_state(MemoryOrder::Relaxed);
                if Some(state.round) != self.round {
                    self.step = OneStep::Unlock;
                } else if state.status != Status::Waiting {
                    self.step = OneStep::Retry(state);
                } else {
                    self.step = OneStep::Pop(state);
                }
            },
            OneStep::Retry(state) => {
                notify.unlock();
                self.step = OneStep::Attempt(state);
            },
            OneStep::Pop(state) => {
                if let Some(key) = notify.pop_back() {
                    self.step = OneStep::Unpark(key, state);
                }
            },
            OneStep::Unpark(key, state) => {
                notify.advance_unpark(key, &mut self.unpark);
                if let UnparkStep::Done = self.unpark.step {
                    self.step = OneStep::Store(key, state);
                }
            },
            OneStep::Store(key, state) => {
                notify.store_notification(
                    key,
                    state.round.into_notification(NotificationKind::One),
                    MemoryOrder::Release,
                );
                self.step = OneStep::Settle(state);
            },
            OneStep::Settle(state) => {
                if notify.is_list_empty() {
                    notify.store_state(state.with_status(Status::Idle), MemoryOrder::Relaxed);
                }
                self.step = OneStep::Unlock;
            },
            OneStep::Unlock => {
                notify.unlock();
                self.step = OneStep::Done;
            },
            OneStep::Done => {},
        }
    }
}

impl<W> Memory<W> {
    /// The waiter at `key` unparked and notified.
    pub open spec fn notified(self, key: usize, notification: Notification) -> WaiterCells<W> {
        let cells = self.waiter(key);
        WaiterCells {
            parked: crate::parker::State::Unparked,
            wakers: cells.wakers.update(cells.parked->Parking_0 as int, None),
            notification: notification.stored(),
        }
    }

    /// The waker that the waiter at `key` has parked with.
    pub open spec fn waker(self, key: usize) -> Option<W> {
        self.waiter(key).wakers[self.waiter(key).parked->Parking_0 as int]
    }

    /// What a notification of one waiter in `round` makes of a memory.
    pub open spec fn notified_one(self, round: Round) -> Memory<W> {
        if self.state.round != round {
            self
        } else if self.state.status != Status::Waiting {
            Memory { state: State { round, status: Status::Notified }, ..self }
        } else {
            let key = self.queue.last();
            Memory {
                state: State {
                    round,
                    status: if self.queue.len() == 1 {
                        Status::Idle
                    } else {
                        Status::Waiting
                    },
                },
                queue: self.queue.drop_last(),
                homes: self.homes.update(key as int, Home::Out),
                ..self.with_waiter(
                    key,
                    self.notified(key, Notification { kind: NotificationKind::One, round }),
                )
            }
        }
    }

    /// The waker that a notification of one waiter in `round` wakes.
    pub open spec fn woken_one(self, round: Round) -> Option<W> {
        if self.state.round == round && self.state.status == Status::Waiting {
            self.waker(self.queue.last())
        } else {
            None
        }
    }
}

impl<W> Notify<W> {
    /// Notifies the waiter that came first, or leaves a permit if nobody waits. Returns the waker
    /// that is to be woken.
    pub fn notify_one(&mut self) -> (waker: Option<W>)
        requires
            old(self).wf(),
            old(self)@.quiet(),
        ensures
            final(self).wf(),
            final(self)@.quiet(),
            final(self)@ =~= old(self)@.notified_one(old(self)@.state.round),
            waker == old(self)@.woken_one(old(self)@.state.round),
    {
        let state = self.load_state(MemoryOrder::SeqCst);
        self.notify_one_in_round(state.round)
    }

    /// The same in `round` alone: in any other round there is nothing left to do.
    pub fn notify_one_in_round(&mut self, round: Round) -> (waker: Option<W>)
        requires
            old(self).wf(),
            old(self)@.quiet(),
        ensures
            final(self).wf(),
            final(self)@.quiet(),
            final(self)@ =~= old(self)@.notified_one(round),
            waker == old(self)@.woken_one(round),
    {
        proof {
            self.lemma_wf();
        }
        let mut notifying = NotifyingOne::new(Some(round));
        notifying.advance(self);
        notifying.advance(self);
        if let OneStep::Done = notifying.step {
            return None;
        }
        // Lock, load again and take the waiter.
        proof {
            let last = self@.queue.len() - 1;
            assert(self@.queued(last));
            assert(self@.waits(self@.queue[last]));
            assert(self@.waiter(self@.queue[last]).wf());
        }
        notifying.advance(self);
        notifying.advance(self);
        notifying.advance(self);
        // Unpark it.
        notifying.advance(self);
        notifying.advance(self);
        notifying.advance(self);
        // Store its notification, see whether it was the last one, and unlock.
        notifying.advance(self);
        notifying.advance(self);
        notifying.advance(self);
        notifying.unpark.waker
    }

    /// Hands a permit of `round` over.
    pub fn release_notification(&mut self, round: Round) -> (waker: Option<W>)
        requires
            old(self).wf(),
            old(self)@.quiet(),
        ensures
            final(self).wf(),
            final(self)@.quiet(),
            final(self)@ =~= old(self)@.notified_one(round),
            waker == old(self)@.woken_one(round),
    {
        self.notify_one_in_round(round)
    }

    /// The round that it is.
    pub fn round(&self) -> (round: Round)
        requires
            self.wf(),
        ensures
            round == self@.state.round,
            round.wf(),
    {
        self.load_state(MemoryOrder::SeqCst).round
    }
}

} // verus!
