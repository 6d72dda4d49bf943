//! Somebody who waits for a notification.

use crate::atomic::MemoryOrder;
use crate::notify::list::Home;
use crate::notify::memory::{Memory, Notify, WaiterCells};
use crate::notify::one::NotifyingOne;
use crate::notify::poll::{PollStep, Polling};
use crate::notify::remove::{RemoveStep, Removing};
use crate::notify::state::{Notification, NotificationKind, Round, State, Status};
use crate::parker::{Park, ParkStep};
use crate::task::Poll;
use vstd::prelude::*;

verus! {

/// How far a [Notified] has come.
#[derive(Copy, Clone, Debug, PartialEq, Eq, Structural)]
pub enum Stage {
    /// It does not wait yet.
    Init,
    /// It is listed, or was notified since.
    Waiting,
    /// It was notified.
    Finished,
}

/// Progress of a call of a [Notified].
#[derive(Copy, Clone, Debug, PartialEq, Eq, Structural)]
pub enum NotifiedStep {
    /// No call.
    Idle,
    /// To enable: to take a permit or to be listed.
    Enable,
    /// To keep the notification that enabling has brought.
    Keep(Notification),
    /// To poll: to take a permit or to be listed.
    Poll,
    /// To load the notification.
    Check,
    /// To park.
    Park,
    /// To load the notification, for it is on its way.
    Spin,
    /// To clear the notification.
    Clear,
    /// Polled, and notified.
    Ready,
    /// Polled, and not notified.
    Pending,
    /// To leave the list, or to hand a permit over.
    Remove,
    /// To take the notification that nobody has asked for.
    Recall,
    /// To give the place in the table back.
    Leave,
    /// Dropped. The waker, if there is one, is to be woken.
    Gone,
}

/// Somebody who waits for a notification of a [Notify].
pub struct Notified<W> {
    pub waiter: usize,
    pub stage: Stage,
    /// The round that it is attached to, or zero.
    pub round: Round,
    pub step: NotifiedStep,
    pub polling: Polling,
    pub park: Park<W>,
    pub removing: Removing<W>,
    /// The waker of the last poll.
    pub last: Ghost<Option<W>>,
}

impl<W> Notified<W> {
    fn new(waiter: usize, round: Round) -> (notified: Self)
        ensures
            notified.waiter == waiter,
            notified.stage == Stage::Init,
            notified.round == round,
            notified.step == NotifiedStep::Idle,
    {
        Notified {
            waiter,
            stage: Stage::Init,
            round,
            step: NotifiedStep::Idle,
            polling: Polling::new(waiter, round),
            park: Park { step: ParkStep::Ready, waker: None },
            removing: Removing::new(waiter),
            last: Ghost(None),
        }
    }

    /// Whether no call is on its way.
    pub open spec fn rests(self) -> bool {
        self.step is Idle || self.step is Ready || self.step is Pending
    }

    /// Whether it has the lock.
    pub open spec fn holds(self) -> bool {
        match self.step {
            NotifiedStep::Enable | NotifiedStep::Poll => self.polling.holds(),
            NotifiedStep::Remove => self.removing.holds(),
            _ => false,
        }
    }

    /// The waiter that was taken from the queue and is not notified yet.
    pub open spec fn hand(self) -> Option<usize> {
        if self.step is Remove {
            self.removing.hand()
        } else {
            None
        }
    }

    /// What the task counts on.
    pub open spec fn ready(self, m: Memory<W>) -> bool {
        &&& !(self.step is Gone) ==> self.round.wf() && m.live(self.waiter)
        &&& match self.step {
            NotifiedStep::Enable | NotifiedStep::Poll => {
                self.polling.ready(m) && self.polling.waiter == self.waiter
            },
            NotifiedStep::Keep(notification) => notification.wf(),
            NotifiedStep::Park => self.park.ready(m.waiter(self.waiter).parked),
            NotifiedStep::Remove => {
                self.removing.ready(m) && self.removing.waiter == self.waiter
            },
            NotifiedStep::Leave => m.home(self.waiter) is Out,
            _ => true,
        }
    }

    pub open spec fn at(self, step: NotifiedStep) -> Self {
        Notified { step, ..self }
    }

    /// What the next step makes of the task and of the memory.
    pub open spec fn next(self, m: Memory<W>) -> (Self, Memory<W>) {
        match self.step {
            NotifiedStep::Enable => {
                let (polling, m) = self.polling.next(m);
                let (stage, step) = match polling.step {
                    PollStep::Done(Some(notification)) => (
                        Stage::Finished,
                        NotifiedStep::Keep(notification),
                    ),
                    PollStep::Done(None) => (Stage::Waiting, NotifiedStep::Idle),
                    _ => (self.stage, self.step),
                };
                (Notified { stage, step, polling, ..self }, m)
            },
            NotifiedStep::Keep(notification) => (
                self.at(NotifiedStep::Idle),
                m.with_waiter(
                    self.waiter,
                    WaiterCells { notification: notification.stored(), ..m.waiter(self.waiter) },
                ),
            ),
            NotifiedStep::Poll => {
                let (polling, m) = self.polling.next(m);
                let (stage, step) = match polling.step {
                    PollStep::Done(Some(_)) => (Stage::Finished, NotifiedStep::Ready),
                    PollStep::Done(None) => (Stage::Waiting, NotifiedStep::Park),
                    _ => (self.stage, self.step),
                };
                (Notified { stage, step, polling, ..self }, m)
            },
            NotifiedStep::Check => match m.waiter(self.waiter).notification {
                None => (self.at(NotifiedStep::Park), m),
                Some(_) => (self.at(NotifiedStep::Clear), m),
            },
            NotifiedStep::Park => {
                let cells = m.waiter(self.waiter);
                let (park, parked, wakers) = self.park.next(cells.parked, cells.wakers);
                let step = match park.step {
                    ParkStep::Ready => NotifiedStep::Spin,
                    ParkStep::Pending => NotifiedStep::Pending,
                    _ => self.step,
                };
                (
                    Notified { step, park, ..self },
                    m.with_waiter(self.waiter, WaiterCells { parked, wakers, ..cells }),
                )
            },
            NotifiedStep::Spin => match m.waiter(self.waiter).notification {
                None => (self, m),
                Some(_) => (self.at(NotifiedStep::Clear), m),
            },
            NotifiedStep::Clear => (
                Notified { stage: Stage::Finished, step: NotifiedStep::Ready, ..self },
                m.with_waiter(
                    self.waiter,
                    WaiterCells { notification: None, ..m.waiter(self.waiter) },
                ),
            ),
            NotifiedStep::Remove => {
                let (removing, m) = self.removing.next(m);
                let step = if removing.step is Done {
                    NotifiedStep::Leave
                } else {
                    self.step
                };
                (Notified { step, removing, ..self }, m)
            },
            NotifiedStep::Recall => {
                let cells = m.waiter(self.waiter);
                let recalled = m.with_waiter(
                    self.waiter,
                    WaiterCells { notification: None, ..cells },
                );
                match cells.notification {
                    Some(notification) if notification.kind == NotificationKind::One => (
                        Notified {
                            step: NotifiedStep::Remove,
                            removing: Removing {
                                step: RemoveStep::Release,
                                release: NotifyingOne::begun(Some(notification.round)),
                                waiter: self.waiter,
                            },
                            ..self
                        },
                        recalled,
                    ),
                    _ => (self.at(NotifiedStep::Leave), recalled),
                }
            },
            NotifiedStep::Leave => (
                self.at(NotifiedStep::Gone),
                Memory { vacant: m.vacant.push(self.waiter), ..m },
            ),
            NotifiedStep::Idle
            | NotifiedStep::Ready
            | NotifiedStep::Pending
            | NotifiedStep::Gone => (self, m),
        }
    }

    /// The task about to enable.
    pub open spec fn enabling(self) -> Self {
        if self.stage == Stage::Init {
            Notified {
                step: NotifiedStep::Enable,
                polling: Polling { waiter: self.waiter, round: self.round, step: PollStep::Load },
                ..self
            }
        } else {
            self
        }
    }

    /// Begins to enable.
    pub fn begin_enable(&mut self)
        requires
            old(self).rests(),
        ensures
            *final(self) == old(self).enabling(),
    {
        if self.stage != Stage::Init {
            return ;
        }
        self.polling = Polling::new(self.waiter, self.round);
        self.step = NotifiedStep::Enable;
    }

    /// The task about to poll.
    pub open spec fn polling_with(self, waker: W) -> Self {
        Notified {
            step: match self.stage {
                Stage::Init => NotifiedStep::Poll,
                Stage::Waiting => NotifiedStep::Check,
                Stage::Finished => NotifiedStep::Clear,
            },
            polling: if self.stage == Stage::Init {
                Polling { waiter: self.waiter, round: self.round, step: PollStep::Load }
            } else {
                self.polling
            },
            park: Park { step: ParkStep::Load, waker: Some(waker) },
            last: Ghost(Some(waker)),
            ..self
        }
    }

    /// Begins to poll with `waker`.
    pub fn begin_poll(&mut self, waker: W)
        requires
            old(self).rests(),
        ensures
            *final(self) == old(self).polling_with(waker),
    {
        self.last = Ghost(Some(waker));
        self.park = Park::new(waker);
        match self.stage {
            Stage::Init => {
                self.polling = Polling::new(self.waiter, self.round);
                self.step = NotifiedStep::Poll;
            },
            Stage::Waiting => self.step = NotifiedStep::Check,
            // It may come from `enable`.
            Stage::Finished => self.step = NotifiedStep::Clear,
        }
    }

    /// The task about to be dropped.
    pub open spec fn dropping(self) -> Self {
        Notified {
            step: match self.stage {
                Stage::Init => NotifiedStep::Leave,
                Stage::Waiting => NotifiedStep::Remove,
                Stage::Finished => NotifiedStep::Recall,
            },
            removing: if self.stage == Stage::Waiting {
                Removing {
                    waiter: self.waiter,
                    step: RemoveStep::Load,
                    release: NotifyingOne::begun(None),
                }
            } else {
                self.removing
            },
            ..self
        }
    }

    /// Begins to drop.
    pub fn begin_drop(&mut self)
        requires
            old(self).rests(),
        ensures
            *final(self) == old(self).dropping(),
    {
        match self.stage {
            Stage::Init => self.step = NotifiedStep::Leave,
            Stage::Waiting => {
                self.removing = Removing::new(self.waiter);
                self.step = NotifiedStep::Remove;
            },
            Stage::Finished => self.step = NotifiedStep::Recall,
        }
    }

    /// Makes the next step.
    pub fn advance(&mut self, notify: &mut Notify<W>)
        requires
            old(notify).wf(),
            old(self).ready(old(notify)@),
        ensures
            final(notify).wf(),
            *final(self) == old(self).next(old(notify)@).0,
            final(notify)@ =~= old(self).next(old(notify)@).1,
    {
        match self.step {
            NotifiedStep::Enable => {
                self.polling.advance(notify);
                match self.polling.step {
                    PollStep::Done(Some(notification)) => {
                        self.stage = Stage::Finished;
                        self.step = NotifiedStep::Keep(notification);
                    },
                    PollStep::Done(None) => {
                        self.stage = Stage::Waiting;
                        self.step = NotifiedStep::Idle;
                    },
                    _ => {},
                }
            },
            NotifiedStep::Keep(notification) => {
                notify.store_notification(self.waiter, notification, MemoryOrder::Relaxed);
                self.step = NotifiedStep::Idle;
            },
            NotifiedStep::Poll => {
                self.polling.advance(notify);
                match self.polling.step {
                    PollStep::Done(Some(_)) => {
                        self.stage = Stage::Finished;
                        self.step = NotifiedStep::Ready;
                    },
                    PollStep::Done(None) => {
                        self.stage = Stage::Waiting;
                        self.step = NotifiedStep::Park;
                    },
                    _ => {},
                }
            },
            NotifiedStep::Check => {
                match notify.load_notification(self.waiter, MemoryOrder::Acquire) {
                    None => self.step = NotifiedStep::Park,
                    Some(_) => self.step = NotifiedStep::Clear,
                }
            },
            NotifiedStep::Park => {
                notify.advance_park(self.waiter, &mut self.park);
                match self.park.step {
                    ParkStep::Ready => self.step = NotifiedStep::Spin,
                    ParkStep::Pending => self.step = NotifiedStep::Pending,
                    _ => {},
                }
            },
            NotifiedStep::Spin => {
                if notify.load_notification(self.waiter, MemoryOrder::Acquire).is_some() {
                    self.step = NotifiedStep::Clear;
                }
            },
            NotifiedStep::Clear => {
                notify.clear_notification(self.waiter);
                self.stage = Stage::Finished;
                self.step = NotifiedStep::Ready;
            },
            NotifiedStep::Remove => {
                self.removing.advance(notify);
                if let RemoveStep::Done = self.removing.step {
                    self.step = NotifiedStep::Leave;
                }
            },
            NotifiedStep::Recall => {
                self.step = NotifiedStep::Leave;
                if let Some(notification) = notify.take_notification(self.waiter) {
                    if notification.kind == NotificationKind::One {
                        self.removing = Removing {
                            waiter: self.waiter,
                            step: RemoveStep::Release,
                            release: NotifyingOne::new(Some(notification.round)),
                        };
                        self.step = NotifiedStep::Remove;
                    }
                }
            },
            NotifiedStep::Leave => {
                notify.leave(self.waiter);
                self.step = NotifiedStep::Gone;
            },
            NotifiedStep::Idle
            | NotifiedStep::Ready
            | NotifiedStep::Pending
            | NotifiedStep::Gone => {},
        }
    }
}

impl<W> Memory<W> {
    /// The memory with the waiter at `key` listed.
    pub open spec fn listed(self, key: usize) -> Memory<W> {
        Memory {
            state: State { status: Status::Waiting, ..self.state },
            queue: seq![key] + self.queue,
            homes: self.homes.update(key as int, Home::Listed),
            ..self
        }
    }

    /// Who is not listed does not matter to whether a memory is quiet.
    proof fn lemma_apart(self, after: Memory<W>, key: usize)
        requires
            self.wf(),
            self.quiet(),
            self.home(key) is Out,
            !after.locked,
            after.rings == self.rings,
            after.queue == self.queue,
            after.vacant == self.vacant,
            after.state.status == Status::Waiting <==> self.state.status == Status::Waiting,
            after.waiters.len() == self.waiters.len(),
            forall|k: int|
                0 <= k < self.waiters.len() && k != key ==> after.waiters[k] == self.waiters[k],
        ensures
            after.quiet(),
    {
        assert forall|i: int| 0 <= i < after.queue.len() implies after.waits(
            #[trigger] after.queue[i],
        ) by {
            assert(self.queued(i));
            assert(self.waits(self.queue[i]));
        }
    }

    /// The memory with this notification at `key`.
    pub open spec fn with_notification(
        self,
        key: usize,
        notification: Option<Notification>,
    ) -> Memory<W> {
        self.with_waiter(key, WaiterCells { notification, ..self.waiter(key) })
    }

    /// The memory without a permit.
    pub open spec fn without_permit(self) -> Memory<W> {
        Memory { state: State { status: Status::Idle, ..self.state }, ..self }
    }

    /// The memory with the waiter at `key` parked with `waker`.
    pub open spec fn with_parked(self, key: usize, waker: W) -> Memory<W> {
        self.with_waiter(key, self.waiter(key).parked_with(waker))
    }

    /// The memory with the place at `key` given back.
    pub open spec fn left(self, key: usize) -> Memory<W> {
        Memory { vacant: self.vacant.push(key), ..self }
    }
}

impl<W> Notified<W> {
    /// What there is between calls to a waiter in its stage.
    pub open spec fn wf(self, m: Memory<W>) -> bool {
        &&& self.rests()
        &&& self.round.wf()
        &&& m.live(self.waiter)
        &&& match self.stage {
            Stage::Init => m.waits(self.waiter) && m.home(self.waiter) is Out,
            Stage::Waiting => {
                ||| m.home(self.waiter) is Listed
                ||| m.home(self.waiter) is Out && m.waiter(self.waiter).notification is Some
            },
            Stage::Finished => m.home(self.waiter) is Out,
        }
    }

    /// Whether its round is over.
    pub open spec fn passed(self, m: Memory<W>) -> bool {
        self.round != Round(0) && self.round != m.state.round
    }

    /// The notification that a first poll or enabling finds at once.
    pub open spec fn found(self, m: Memory<W>) -> Option<Notification> {
        if self.passed(m) {
            Some(Notification { kind: NotificationKind::All, round: self.round })
        } else if m.state.status == Status::Notified {
            Some(Notification { kind: NotificationKind::One, round: m.state.round })
        } else {
            None
        }
    }

    /// The stage once it was enabled or polled for the first time.
    pub open spec fn settled(self, m: Memory<W>) -> Stage {
        if self.found(m) is Some {
            Stage::Finished
        } else {
            Stage::Waiting
        }
    }

    /// What enabling makes of a memory: a permit is taken and kept, or the waiter is listed.
    pub open spec fn enabled(self, m: Memory<W>) -> Memory<W> {
        if self.stage != Stage::Init {
            m
        } else {
            match self.found(m) {
                None => m.listed(self.waiter),
                Some(notification) => {
                    let m = m.with_notification(self.waiter, notification.stored());
                    if notification.kind == NotificationKind::One {
                        m.without_permit()
                    } else {
                        m
                    }
                },
            }
        }
    }

    /// Whether a poll is ready.
    pub open spec fn polls_ready(self, m: Memory<W>) -> bool {
        match self.stage {
            Stage::Init => self.found(m) is Some,
            Stage::Waiting => m.waiter(self.waiter).notification is Some,
            Stage::Finished => true,
        }
    }

    /// What a poll makes of a memory: the permit or the notification is gone, or the waiter is
    /// listed and has parked with `waker`.
    pub open spec fn polled(self, m: Memory<W>, waker: W) -> Memory<W> {
        match self.stage {
            Stage::Init => match self.found(m) {
                None => m.listed(self.waiter).with_parked(self.waiter, waker),
                Some(notification) => if notification.kind == NotificationKind::One {
                    m.without_permit()
                } else {
                    m
                },
            },
            Stage::Waiting => if m.waiter(self.waiter).notification is Some {
                m.with_notification(self.waiter, None)
            } else {
                m.with_parked(self.waiter, waker)
            },
            Stage::Finished => m.with_notification(self.waiter, None),
        }
    }

    /// Enables it to be notified, in case it does not wait yet.
    ///
    /// If there is a permit, this takes it and keeps it for a later poll. If there is none, the waiter
    /// is listed.
    pub fn enable(&mut self, notify: &mut Notify<W>)
        requires
            old(notify).wf(),
            old(notify)@.quiet(),
            old(self).wf(old(notify)@),
        ensures
            final(notify).wf(),
            final(notify)@.quiet(),
            final(self).wf(final(notify)@),
            final(self).waiter == old(self).waiter,
            final(self).round == old(self).round,
            final(self).stage == if old(self).stage == Stage::Init {
                old(self).settled(old(notify)@)
            } else {
                old(self).stage
            },
            final(notify)@ =~= old(self).enabled(old(notify)@),
    {
        if self.stage != Stage::Init {
            return ;
        }
        proof {
            notify.lemma_wf();
        }
        match notify.poll(self.waiter, self.round) {
            Poll::Ready(notification) => {
                self.stage = Stage::Finished;
                notify.store_notification(self.waiter, notification, MemoryOrder::Relaxed);
                proof {
                    old(notify)@.lemma_apart(notify@, self.waiter);
                }
            },
            Poll::Pending => self.stage = Stage::Waiting,
        }
    }

    /// Polls with `waker`. If it is not ready, the waker is woken once it is.
    pub fn poll(&mut self, notify: &mut Notify<W>, waker: W) -> (poll: Poll<()>)
        requires
            old(notify).wf(),
            old(notify)@.quiet(),
            old(self).wf(old(notify)@),
        ensures
            final(notify).wf(),
            final(notify)@.quiet(),
            final(self).wf(final(notify)@),
            final(self).waiter == old(self).waiter,
            final(self).round == old(self).round,
            final(self).last@ == Some(waker),
            final(notify)@ =~= old(self).polled(old(notify)@, waker),
            if old(self).polls_ready(old(notify)@) {
                poll == Poll::Ready(()) && final(self).stage == Stage::Finished
            } else {
                poll == Poll::<()>::Pending && final(self).stage == Stage::Waiting
            },
    {
        proof {
            notify.lemma_wf();
            assert(notify@.home_wf(self.waiter));
        }
        self.last = Ghost(Some(waker));
        match self.stage {
            Stage::Init => match notify.poll(self.waiter, self.round) {
                Poll::Pending => self.stage = Stage::Waiting,
                Poll::Ready(_) => {
                    self.stage = Stage::Finished;
                    return Poll::Ready(());
                },
            },
            Stage::Waiting => {
                if notify.load_notification(self.waiter, MemoryOrder::Acquire).is_some() {
                    notify.clear_notification(self.waiter);
                    self.stage = Stage::Finished;
                    return Poll::Ready(());
                }
            },
            Stage::Finished => {
                // It may come from `enable`.
                notify.clear_notification(self.waiter);
                proof {
                    old(notify)@.lemma_apart(notify@, self.waiter);
                }
                return Poll::Ready(());
            },
        }
        notify.park(self.waiter, waker)
    }

    /// Polls without a waker: does what a poll does if it is ready, and nothing if it is not.
    pub fn try_poll(&mut self, notify: &mut Notify<W>) -> (ready: bool)
        requires
            old(notify).wf(),
            old(notify)@.quiet(),
            old(self).wf(old(notify)@),
            old(self).stage != Stage::Init,
        ensures
            final(notify).wf(),
            final(notify)@.quiet(),
            final(self).wf(final(notify)@),
            final(self).waiter == old(self).waiter,
            final(self).round == old(self).round,
            ready == old(self).polls_ready(old(notify)@),
            if ready {
                &&& final(self).stage == Stage::Finished
                &&& final(notify)@ =~= old(notify)@.with_notification(old(self).waiter, None)
            } else {
                &&& *final(self) == *old(self)
                &&& final(notify)@ =~= old(notify)@
            },
    {
        proof {
            notify.lemma_wf();
            assert(notify@.home_wf(self.waiter));
        }
        if self.stage == Stage::Waiting && notify.load_notification(
            self.waiter,
            MemoryOrder::Acquire,
        ).is_none() {
            return false;
        }
        notify.clear_notification(self.waiter);
        self.stage = Stage::Finished;
        proof {
            if old(notify)@.home(self.waiter) is Listed {
                assert(old(notify)@.waits(
                    old(notify)@.queue[old(notify)@.queue.index_of(self.waiter)],
                ));
            }
            old(notify)@.lemma_apart(notify@, self.waiter);
        }
        true
    }

    /// What dropping makes of a memory: the waiter is not listed any longer, and a permit that it has
    /// not made use of is handed over.
    pub open spec fn dropped(self, m: Memory<W>) -> Memory<W> {
        match self.stage {
            Stage::Init => m,
            Stage::Waiting => m.removed(self.waiter),
            Stage::Finished => {
                let recalled = m.with_notification(self.waiter, None);
                match m.waiter(self.waiter).notification {
                    Some(notification) => if notification.kind == NotificationKind::One {
                        recalled.notified_one(notification.round)
                    } else {
                        recalled
                    },
                    None => recalled,
                }
            },
        }
    }

    /// The waker that dropping wakes.
    pub open spec fn woken_by_drop(self, m: Memory<W>) -> Option<W> {
        if self.stage == Stage::Init {
            None
        } else {
            m.woken_by_removal(self.waiter)
        }
    }

    /// Stops to wait. Returns the waker of whoever is notified in its place, to be woken.
    pub fn drop(self, notify: &mut Notify<W>) -> (waker: Option<W>)
        requires
            old(notify).wf(),
            old(notify)@.quiet(),
            self.wf(old(notify)@),
        ensures
            final(notify).wf(),
            final(notify)@.quiet(),
            final(notify)@ =~= self.dropped(old(notify)@).left(self.waiter),
            waker == self.woken_by_drop(old(notify)@),
    {
        proof {
            notify.lemma_wf();
            assert(notify@.home_wf(self.waiter));
        }
        let waker = match self.stage {
            Stage::Init => None,
            Stage::Waiting => notify.remove(self.waiter),
            Stage::Finished => {
                let recalled = notify.take_notification(self.waiter);
                proof {
                    old(notify)@.lemma_apart(notify@, self.waiter);
                }
                match recalled {
                    Some(Notification { kind: NotificationKind::One, round }) => {
                        notify.release_notification(round)
                    },
                    _ => None,
                }
            },
        };
        let ghost m = notify@;
        proof {
            notify.lemma_wf();
        }
        notify.leave(self.waiter);
        proof {
            assert forall|i: int| 0 <= i < notify@.queue.len() implies notify@.waits(
                #[trigger] notify@.queue[i],
            ) by {
                assert(m.queued(i));
                assert(m.waits(m.queue[i]));
            }
        }
        waker
    }

    /// Detaches it from all rounds, so that it is not notified until it is enabled or polled.
    pub fn detach(self) -> (notified: Self)
        ensures
            notified == (Notified::<W> { round: Round(0), ..self }),
    {
        let mut notified = self;
        notified.round = Round::zero();
        notified
    }
}

impl<W> Notify<W> {
    /// Somebody who waits for a notification, attached to the current round.
    pub fn notified(&mut self) -> (notified: Notified<W>)
        requires
            old(self).wf(),
        ensures
            final(self).wf(),
            final(self)@ =~= old(self)@.with_room(),
            notified.waiter == old(self)@.vacancy(),
            notified.stage == Stage::Init,
            notified.round == old(self)@.state.round,
            notified.step == NotifiedStep::Idle,
            notified.wf(final(self)@),
            old(self)@.quiet() ==> final(self)@.quiet(),
    {
        proof {
            self.lemma_wf();
            self@.lemma_room();
        }
        let round = self.round();
        let waiter = self.enter();
        proof {
            assert forall|i: int|
                0 <= i < self@.queue.len() && old(self)@.quiet() implies self@.waits(
                #[trigger] self@.queue[i],
            ) by {
                let key = old(self)@.queue[i];
                assert(old(self)@.queued(i));
                assert(old(self)@.waits(key));
                assert(old(self)@.with_room().live(key));
                assert(old(self)@.with_room().home(key) == old(self)@.home(key));
            }
        }
        Notified::new(waiter, round)
    }
}

} // verus!
