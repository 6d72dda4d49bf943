//! The task of taking a permit, or else of waiting for a notification.

use crate::atomic::MemoryOrder;
use crate::notify::list::Home;
use crate::notify::memory::{Memory, Notify};
use crate::notify::state::{Notification, NotificationKind, Round, State, Status};
use crate::task::Poll;
use vstd::prelude::*;

verus! {

/// Progress of a [Polling].
#[derive(Copy, Clone, Debug, PartialEq, Eq, Structural)]
pub enum PollStep {
    /// To load the state.
    Load,
    /// To take the permit, if this state has one.
    Attempt(State),
    /// To take the lock.
    Lock,
    /// To load the state again.
    Reload,
    /// To take the permit or to announce a waiter, according to this state.
    Settle(State),
    /// To list the waiter.
    Push,
    /// To give the lock back.
    Unlock(Option<Notification>),
    /// Notified, or waiting.
    Done(Option<Notification>),
}

/// A poll of a [Notify] on its way.
#[derive(Copy, Clone, Debug, PartialEq, Eq, Structural)]
pub struct Polling {
    pub waiter: usize,
    /// The round that the waiter is attached to, or zero.
    pub round: Round,
    pub step: PollStep,
}

impl Polling {
    pub fn new(waiter: usize, round: Round) -> (polling: Self)
        ensures
            polling == (Polling { waiter, round, step: PollStep::Load }),
    {
        Polling { waiter, round, step: PollStep::Load }
    }

    /// Whether it has the lock.
    pub open spec fn holds(self) -> bool {
        match self.step {
            PollStep::Reload | PollStep::Settle(_) | PollStep::Push | PollStep::Unlock(_) => true,
            _ => false,
        }
    }

    /// What the task counts on.
    pub open spec fn ready<W>(self, m: Memory<W>) -> bool {
        &&& self.round.wf()
        &&& self.holds() ==> m.locked
        &&& match self.step {
            PollStep::Attempt(state) | PollStep::Settle(state) => state.wf(),
            PollStep::Push => m.live(self.waiter) && m.home(self.waiter) is Out,
            _ => true,
        }
    }

    pub open spec fn at(self, step: PollStep) -> Self {
        Polling { step, ..self }
    }

    /// The notification of somebody attached to a round that is over.
    pub open spec fn passed(self) -> Notification {
        Notification { kind: NotificationKind::All, round: self.round }
    }

    /// The notification by a permit.
    pub open spec fn permitted(self) -> Notification {
        Notification { kind: NotificationKind::One, round: self.round }
    }

    /// What the next step makes of the task and of the memory.
    pub open spec fn next<W>(self, m: Memory<W>) -> (Self, Memory<W>) {
        match self.step {
            PollStep::Load => {
                let round = if self.round == Round(0) {
                    m.state.round
                } else {
                    self.round
                };
                (Polling { round, step: PollStep::Attempt(m.state), ..self }, m)
            },
            PollStep::Attempt(state) => if state.round != self.round {
                (self.at(PollStep::Done(Some(self.passed()))), m)
            } else if state.status != Status::Notified {
                (self.at(PollStep::Lock), m)
            } else if m.state == state {
                (
                    self.at(PollStep::Done(Some(self.permitted()))),
                    Memory { state: State { status: Status::Idle, ..state }, ..m },
                )
            } else {
                (self.at(PollStep::Attempt(m.state)), m)
            },
            PollStep::Lock => if m.locked {
                (self, m)
            } else {
                (self.at(PollStep::Reload), Memory { locked: true, ..m })
            },
            PollStep::Reload => (self.at(PollStep::Settle(m.state)), m),
            PollStep::Settle(state) => if state.round != self.round {
                (self.at(PollStep::Unlock(Some(self.passed()))), m)
            } else if state.status == Status::Waiting {
                (self.at(PollStep::Push), m)
            } else if m.state != state {
                (self.at(PollStep::Settle(m.state)), m)
            } else if state.status == Status::Idle {
                (
                    self.at(PollStep::Push),
                    Memory { state: State { status: Status::Waiting, ..state }, ..m },
                )
            } else {
                (
                    self.at(PollStep::Unlock(Some(self.permitted()))),
                    Memory { state: State { status: Status::Idle, ..state }, ..m },
                )
            },
            PollStep::Push => (
                self.at(PollStep::Unlock(None)),
                Memory {
                    queue: seq![self.waiter] + m.queue,
                    homes: m.homes.update(self.waiter as int, Home::Listed),
                    ..m
                },
            ),
            PollStep::Unlock(result) => (
                self.at(PollStep::Done(result)),
                Memory { locked: false, ..m },
            ),
            PollStep::Done(_) => (self, m),
        }
    }

    /// Makes the next step.
    pub fn advance<W>(&mut self, notify: &mut Notify<W>)
        requires
            old(notify).wf(),
            old(self).ready(old(notify)@),
        ensures
            final(notify).wf(),
            *final(self) == old(self).next(old(notify)@).0,
            final(notify)@ =~= old(self).next(old(notify)@).1,
    {
        match self.step {
            PollStep::Load => {
                let state = notify.load_state(MemoryOrder::SeqCst);
                if self.round == Round::zero() {
                    self.round = state.round;
                }
                self.step = PollStep::Attempt(state);
            },
            PollStep::Attempt(state) => {
                if state.round != self.round {
                    let passed = self.round.into_notification(NotificationKind::All);
                    self.step = PollStep::Done(Some(passed));
                } else if state.status != Status::Notified {
                    self.step = PollStep::Lock;
                } else {
                    // Acquire load to observe changes in case of `notify_all`.
                    match notify.exchange_state(
                        state,
                        state.with_status(Status::Idle),
                        MemoryOrder::Acquire,
                        MemoryOrder::Acquire,
                    ) {
                        Ok(_) => {
                            let permit = state.round.into_notification(NotificationKind::One);
                            self.step = PollStep::Done(Some(permit));
                        },
                        Err(updated) => self.step = PollStep::Attempt(updated),
                    }
                }
            },
            PollStep::Lock => {
                if notify.try_lock() {
                    self.step = PollStep::Reload;
                }
            },
            PollStep::Reload => {
                self.step = PollStep::Settle(notify.load_state(MemoryOrder::SeqCst));
            },
            PollStep::Settle(state) => {
                if state.round != self.round {
                    let passed = self.round.into_notification(NotificationKind::All);
                    self.step = PollStep::Unlock(Some(passed));
                    return ;
                }
                match state.status {
                    Status::Waiting => self.step = PollStep::Push,
                    Status::Idle => match notify.exchange_state(
                        state,
                        state.with_status(Status::Waiting),
                        MemoryOrder::Relaxed,
                        MemoryOrder::Relaxed,
                    ) {
                        Ok(_) => self.step = PollStep::Push,
                        Err(updated) => self.step = PollStep::Settle(updated),
                    },
                    Status::Notified => match notify.exchange_state(
                        state,
                        state.with_status(Status::Idle),
                        MemoryOrder::Acquire,
                        MemoryOrder::Relaxed,
                    ) {
                        Ok(_) => {
                            let permit = state.round.into_notification(NotificationKind::One);
                            self.step = PollStep::Unlock(Some(permit));
                        },
                        Err(updated) => self.step = PollStep::Settle(updated),
                    },
                }
            },
            PollStep::Push => {
                notify.push_front(self.waiter);
                self.step = PollStep::Unlock(None);
            },
            PollStep::Unlock(result) => {
                notify.unlock();
                self.step = PollStep::Done(result);
            },
            PollStep::Done(_) => {},
        }
    }
}

impl<W> Notify<W> {
    /// Takes the permit for somebody attached to `round`, or lists them as `waiter`.
    pub fn poll(&mut self, waiter: usize, round: Round) -> (poll: Poll<Notification>)
        requires
            old(self).wf(),
            old(self)@.quiet(),
            old(self)@.waits(waiter),
            old(self)@.home(waiter) is Out,
            round.wf(),
        ensures
            final(self).wf(),
            final(self)@.quiet(),
            ({
                let m = old(self)@;
                let attached = if round == Round(0) {
                    m.state.round
                } else {
                    round
                };
                if m.state.round != attached {
                    &&& poll == Poll::Ready(
                        Notification { kind: NotificationKind::All, round: attached },
                    )
                    &&& final(self)@ =~= m
                } else if m.state.status == Status::Notified {
                    &&& poll == Poll::Ready(
                        Notification { kind: NotificationKind::One, round: attached },
                    )
                    &&& final(self)@ =~= (Memory {
                        state: State { round: attached, status: Status::Idle },
                        ..m
                    })
                } else {
                    &&& poll == Poll::<Notification>::Pending
                    &&& final(self)@ =~= (Memory {
                        state: State { round: attached, status: Status::Waiting },
                        queue: seq![waiter] + m.queue,
                        homes: m.homes.update(waiter as int, Home::Listed),
                        ..m
                    })
                }
            }),
    {
        proof {
            self.lemma_wf();
        }
        let mut polling = Polling::new(waiter, round);
        polling.advance(self);
        polling.advance(self);
        if let PollStep::Done(Some(notification)) = polling.step {
            return Poll::Ready(notification);
        }
        // Lock, load again, announce the waiter, list it and unlock.
        polling.advance(self);
        polling.advance(self);
        polling.advance(self);
        polling.advance(self);
        polling.advance(self);
        Poll::Pending
    }
}

} // verus!
