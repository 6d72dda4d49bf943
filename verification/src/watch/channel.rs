//! Senders and receivers of a channel.

use crate::notify::memory::Memory;
use crate::notify::notified::{Notified, Stage};
use crate::notify::state::{NotificationKind, Round, State, Status, ROUND_UNIT};
use crate::task::Poll;
use crate::watch::lend::Ref;
use crate::watch::shared::{lemma_borrowed_returned, Board, RecvError, SendError, Shared};
use crate::watch::table::{Version, ROW};
use vstd::prelude::*;

verus! {

/// Constructs a channel to publish and subscribe values.
pub fn channel<T, W>(value: T) -> (ends: (Shared<T, W>, Sender, Receiver))
    ensures
        ends.0.wf(),
        ends.0@.value() == value,
        ends.0@.version() == Version(1),
        ends.2.seen == Version(1),
        ends.0@.senders == 1,
        ends.0@.receivers == 1,
        !ends.0@.cells.closed,
        ends.0@.cells.latest == 0,
        ends.0@.cells.slots.len() == ROW,
        ends.0@.frees =~= Seq::new((ROW - 1) as nat, |i: int| (i + 1) as usize),
        ends.0@.loans =~= Seq::new(ROW as nat, |i: int| 0nat),
        ends.0@.changes.queue.len() == 0,
        ends.0@.closed.queue.len() == 0,
        ends.0@.changes.state == (State { round: Round(ROUND_UNIT), status: Status::Idle }),
        ends.0@.closed.state == (State { round: Round(ROUND_UNIT), status: Status::Idle }),
{
    let version = Version(1);
    let shared = Shared::new(version, value);
    (shared, Sender {}, Receiver { seen: version })
}

/// Sends values.
#[derive(Debug)]
pub struct Sender {}

impl Sender {
    /// Sends a value to receivers. Returns the wakers of those who wait for changes, which are to be
    /// woken in this order.
    pub fn send<T, W>(&self, shared: &mut Shared<T, W>, value: T) -> (sent: Result<
        Vec<W>,
        SendError<T>,
    >)
        requires
            old(shared).wf(),
            old(shared)@.senders > 0,
            old(shared)@.receivers > 0 ==> old(shared)@.can_publish(),
        ensures
            final(shared).wf(),
            if old(shared)@.receivers == 0 {
                &&& sent == Err::<Vec<W>, SendError<T>>(SendError(value))
                &&& final(shared)@ =~= old(shared)@
            } else {
                &&& sent matches Ok(woken) && woken@ == old(shared)@.changes.woken_all()
                &&& final(shared)@ =~= old(shared)@.published(value)
            },
    {
        if shared.receivers() == 0 {
            return Err(SendError(value));
        }
        Ok(self.publish(shared, value))
    }

    /// Publishes a value for the receivers there are and for those that may come by
    /// [Sender::subscribe]. Returns the wakers of those who wait for changes, which are to be woken
    /// in this order.
    pub fn publish<T, W>(&self, shared: &mut Shared<T, W>, value: T) -> (woken: Vec<W>)
        requires
            old(shared).wf(),
            old(shared)@.senders > 0,
            old(shared)@.can_publish(),
        ensures
            final(shared).wf(),
            final(shared)@ =~= old(shared)@.published(value),
            woken@ == old(shared)@.changes.woken_all(),
    {
        shared.publish(value)
    }

    /// Subscribes to changes to come.
    pub fn subscribe<T, W>(&self, shared: &mut Shared<T, W>) -> (receiver: Receiver)
        requires
            old(shared).wf(),
            old(shared)@.receivers < usize::MAX,
            old(shared)@.can_lend(),
        ensures
            final(shared).wf(),
            final(shared)@ =~= (Board {
                receivers: (old(shared)@.receivers + 1) as usize,
                ..old(shared)@
            }),
            receiver.seen == old(shared)@.version(),
    {
        proof {
            shared.lemma_wf();
            lemma_borrowed_returned(shared@);
        }
        let latest = shared.latest(Version::default());
        let seen = shared.version(&latest);
        shared.release(latest);
        shared.new_receiver();
        Receiver { seen }
    }

    /// How many receivers there are.
    pub fn receiver_count<T, W>(&self, shared: &Shared<T, W>) -> (count: usize)
        ensures
            count == shared@.receivers,
    {
        shared.receivers()
    }

    /// Whether all receivers are gone.
    pub fn is_closed<T, W>(&self, shared: &Shared<T, W>) -> (closed: bool)
        ensures
            closed == (shared@.receivers == 0),
    {
        self.receiver_count(shared) == 0
    }

    /// Waits for all receivers to be gone.
    pub fn closed<W>(&self) -> (closing: Closing<W>)
        ensures
            closing.notified is None,
    {
        Closing { notified: None }
    }

    /// One more sender.
    pub fn clone<T, W>(&self, shared: &mut Shared<T, W>) -> (sender: Sender)
        requires
            old(shared).wf(),
            0 < old(shared)@.senders < usize::MAX,
        ensures
            final(shared).wf(),
            final(shared)@ =~= (Board {
                senders: (old(shared)@.senders + 1) as usize,
                ..old(shared)@
            }),
    {
        shared.new_sender();
        Sender {}
    }

    /// One sender less. The last one closes the channel. Returns the wakers of those who wait for
    /// changes, which are to be woken in this order.
    pub fn drop<T, W>(self, shared: &mut Shared<T, W>) -> (woken: Vec<W>)
        requires
            old(shared).wf(),
            old(shared)@.senders > 0,
        ensures
            final(shared).wf(),
            final(shared)@ =~= old(shared)@.sender_dropped(),
            woken@ == if old(shared)@.senders == 1 {
                old(shared)@.changes.woken_all()
            } else {
                Seq::empty()
            },
    {
        shared.drop_sender()
    }
}

/// Receives values.
#[derive(Debug)]
pub struct Receiver {
    /// The version of the value that was seen last.
    pub seen: Version,
}

impl Receiver {
    /// A receiver of this channel: it has seen nothing that was not published.
    pub open spec fn wf<T, W>(self, b: Board<T, W>) -> bool {
        self.seen.0 <= b.version().0 && b.receivers > 0
    }

    /// Borrows the latest value but does not mark it as seen.
    pub fn borrow<T, W>(&self, shared: &mut Shared<T, W>) -> (latest: Ref)
        requires
            old(shared).wf(),
            self.wf(old(shared)@),
            old(shared)@.can_lend(),
        ensures
            final(shared).wf(),
            final(shared)@ =~= old(shared)@.borrowed(),
            latest == old(shared)@.lent(self.seen),
    {
        shared.latest(self.seen)
    }

    /// Borrows the latest value and marks it as seen.
    pub fn borrow_and_update<T, W>(&mut self, shared: &mut Shared<T, W>) -> (latest: Ref)
        requires
            old(shared).wf(),
            old(self).wf(old(shared)@),
            old(shared)@.can_lend(),
        ensures
            final(shared).wf(),
            final(shared)@ =~= old(shared)@.borrowed(),
            latest == old(shared)@.lent(old(self).seen),
            final(self).seen == old(shared)@.version(),
    {
        proof {
            shared.lemma_wf();
            lemma_borrowed_returned(shared@);
        }
        let latest = shared.latest(self.seen);
        self.seen = shared.version(&latest);
        latest
    }

    /// Waits for a change since the value that was seen last.
    pub fn changed<W>(&self) -> (changing: Changing<W>)
        ensures
            changing.notified is None,
    {
        Changing { notified: None }
    }

    /// One more receiver, which has seen the same.
    pub fn clone<T, W>(&self, shared: &mut Shared<T, W>) -> (receiver: Receiver)
        requires
            old(shared).wf(),
            self.wf(old(shared)@),
            old(shared)@.receivers < usize::MAX,
        ensures
            final(shared).wf(),
            final(shared)@ =~= (Board {
                receivers: (old(shared)@.receivers + 1) as usize,
                ..old(shared)@
            }),
            receiver.seen == self.seen,
    {
        shared.new_receiver();
        Receiver { seen: self.seen }
    }

    /// One receiver less. Returns the wakers of those who wait for all receivers to be gone, which are
    /// to be woken in this order.
    pub fn drop<T, W>(self, shared: &mut Shared<T, W>) -> (woken: Vec<W>)
        requires
            old(shared).wf(),
            self.wf(old(shared)@),
        ensures
            final(shared).wf(),
            final(shared)@ =~= old(shared)@.receiver_dropped(),
            woken@ == if old(shared)@.receivers == 1 {
                old(shared)@.closed.woken_all()
            } else {
                Seq::empty()
            },
    {
        shared.drop_receiver()
    }
}

/// Whether somebody has waited in vain so far, and is notified of nothing but the end of a round.
pub open spec fn attends<W>(notified: Notified<W>, m: Memory<W>) -> bool {
    &&& notified.wf(m)
    &&& notified.stage == Stage::Waiting
    &&& m.waiter(notified.waiter).notification matches Some(notification) ==> notification.kind
        == NotificationKind::All
}

/// The memory once somebody who was notified has seen it and is gone.
pub open spec fn attended<W>(notified: Option<Notified<W>>, m: Memory<W>) -> Memory<W> {
    match notified {
        Some(notified) => m.with_notification(notified.waiter, None).left(notified.waiter),
        None => m,
    }
}

/// The memory once somebody waits in it with `waker`.
pub open spec fn attending<W>(m: Memory<W>, waker: W) -> Memory<W> {
    let waiter = m.vacancy();
    m.with_room().listed(waiter).with_parked(waiter, waker)
}

/// What one more poll in vain makes of the memory.
pub open spec fn polled_on<W>(notified: Option<Notified<W>>, m: Memory<W>, waker: W) -> Memory<W> {
    match notified {
        Some(notified) if m.waiter(notified.waiter).notification is None => m.with_parked(
            notified.waiter,
            waker,
        ),
        _ => attending(attended(notified, m), waker),
    }
}

/// The place of whoever waits once one more poll was in vain.
pub open spec fn attendant<W>(notified: Option<Notified<W>>, m: Memory<W>) -> usize {
    match notified {
        Some(notified) if m.waiter(notified.waiter).notification is None => notified.waiter,
        _ => attended(notified, m).vacancy(),
    }
}

/// A wait of a receiver for a change.
pub struct Changing<W> {
    pub notified: Option<Notified<W>>,
}

impl<W> Changing<W> {
    /// Whoever is listed has missed nothing.
    pub open spec fn wf<T>(self, b: Board<T, W>, seen: Version) -> bool {
        self.notified matches Some(notified) ==> {
            &&& attends(notified, b.changes)
            &&& b.changes.waiter(notified.waiter).notification is None ==> seen == b.version()
                && !b.cells.closed
        }
    }

    /// Waits for a change, and marks it as seen.
    ///
    /// If several values are published in the meantime, the last one is borrowed. It is an error if
    /// all senders are gone and the last value was seen. If there is no change yet, `waker` is woken
    /// once there is.
    pub fn poll<T>(
        &mut self,
        receiver: &mut Receiver,
        shared: &mut Shared<T, W>,
        waker: W,
    ) -> (poll: Poll<Result<Ref, RecvError>>)
        requires
            old(shared).wf(),
            old(receiver).wf(old(shared)@),
            old(shared)@.can_lend(),
            old(self).wf(old(shared)@, old(receiver).seen),
        ensures
            final(shared).wf(),
            final(self).wf(final(shared)@, final(receiver).seen),
            ({
                let b = old(shared)@;
                let seen = old(receiver).seen;
                match b.news(seen) {
                    Ok(Some(changed)) => {
                        &&& poll == Poll::Ready(Ok::<Ref, RecvError>(changed))
                        &&& final(receiver).seen == b.version()
                        &&& final(self).notified is None
                        &&& final(shared)@ =~= (Board {
                            changes: attended(old(self).notified, b.changes),
                            ..b.borrowed()
                        })
                    },
                    Err(error) => {
                        &&& poll == Poll::Ready(Err::<Ref, RecvError>(error))
                        &&& final(receiver).seen == seen
                        &&& final(self).notified is None
                        &&& final(shared)@ =~= (Board {
                            changes: attended(old(self).notified, b.changes),
                            ..b
                        })
                    },
                    Ok(None) => {
                        &&& poll == Poll::<Result<Ref, RecvError>>::Pending
                        &&& final(receiver).seen == seen
                        &&& final(self).notified matches Some(notified) && notified.waiter
                            == attendant(old(self).notified, b.changes)
                        &&& final(shared)@ =~= (Board {
                            changes: polled_on(old(self).notified, b.changes, waker),
                            ..b
                        })
                    },
                }
            }),
    {
        proof {
            shared.lemma_wf();
        }
        if let Some(mut notified) = self.notified.take() {
            if !shared.try_poll_changes(&mut notified) {
                shared.poll_changes(&mut notified, waker);
                self.notified = Some(notified);
                return Poll::Pending;
            }
            shared.leave_changes(notified);
        }
        proof {
            shared.lemma_wf();
            lemma_borrowed_returned(shared@);
        }
        // This serves both the lucky path and a check once notified.
        match shared.try_changed(receiver.seen) {
            Err(error) => return Poll::Ready(Err(error)),
            Ok(Some(changed)) => {
                receiver.seen = shared.version(&changed);
                return Poll::Ready(Ok(changed));
            },
            Ok(None) => {},
        }
        let mut notified = shared.await_changes();
        match shared.try_changed(receiver.seen) {
            Err(error) => {
                shared.leave_changes(notified);
                return Poll::Ready(Err(error));
            },
            Ok(Some(changed)) => {
                receiver.seen = shared.version(&changed);
                shared.leave_changes(notified);
                return Poll::Ready(Ok(changed));
            },
            Ok(None) => {},
        }
        shared.poll_changes(&mut notified, waker);
        self.notified = Some(notified);
        Poll::Pending
    }

    /// Stops to wait.
    pub fn drop<T>(self, shared: &mut Shared<T, W>)
        requires
            old(shared).wf(),
            self.notified matches Some(notified) ==> attends(notified, old(shared)@.changes),
        ensures
            final(shared).wf(),
            final(shared)@ =~= (Board {
                changes: match self.notified {
                    Some(notified) => notified.dropped(old(shared)@.changes).left(notified.waiter),
                    None => old(shared)@.changes,
                },
                ..old(shared)@
            }),
    {
        if let Some(notified) = self.notified {
            shared.leave_changes(notified);
        }
    }
}

/// A wait of a sender for all receivers to be gone.
pub struct Closing<W> {
    pub notified: Option<Notified<W>>,
}

impl<W> Closing<W> {
    /// Whoever is listed has missed nothing.
    pub open spec fn wf<T>(self, b: Board<T, W>) -> bool {
        self.notified matches Some(notified) ==> {
            &&& attends(notified, b.closed)
            &&& b.closed.waiter(notified.waiter).notification is None ==> b.receivers > 0
        }
    }

    /// Waits for all receivers to be gone. If there are some yet, `waker` is woken once there are
    /// none.
    pub fn poll<T>(&mut self, sender: &Sender, shared: &mut Shared<T, W>, waker: W) -> (poll: Poll<
        (),
    >)
        requires
            old(shared).wf(),
            old(self).wf(old(shared)@),
        ensures
            final(shared).wf(),
            final(self).wf(final(shared)@),
            if old(shared)@.receivers == 0 {
                &&& poll == Poll::Ready(())
                &&& final(self).notified is None
                &&& final(shared)@ =~= (Board {
                    closed: attended(old(self).notified, old(shared)@.closed),
                    ..old(shared)@
                })
            } else {
                &&& poll == Poll::<()>::Pending
                &&& final(self).notified matches Some(notified) && notified.waiter == attendant(
                    old(self).notified,
                    old(shared)@.closed,
                )
                &&& final(shared)@ =~= (Board {
                    closed: polled_on(old(self).notified, old(shared)@.closed, waker),
                    ..old(shared)@
                })
            },
    {
        proof {
            shared.lemma_wf();
        }
        if let Some(mut notified) = self.notified.take() {
            if !shared.try_poll_closed(&mut notified) {
                shared.poll_closed(&mut notified, waker);
                self.notified = Some(notified);
                return Poll::Pending;
            }
            shared.leave_closed(notified);
        }
        // Receivers may come back by `subscribe`.
        if sender.is_closed(shared) {
            return Poll::Ready(());
        }
        let mut notified = shared.await_closed();
        if sender.is_closed(shared) {
            shared.leave_closed(notified);
            return Poll::Ready(());
        }
        shared.poll_closed(&mut notified, waker);
        self.notified = Some(notified);
        Poll::Pending
    }

    /// Stops to wait.
    pub fn drop<T>(self, shared: &mut Shared<T, W>)
        requires
            old(shared).wf(),
            self.notified matches Some(notified) ==> attends(notified, old(shared)@.closed),
        ensures
            final(shared).wf(),
            final(shared)@ =~= (Board {
                closed: match self.notified {
                    Some(notified) => notified.dropped(old(shared)@.closed).left(notified.waiter),
                    None => old(shared)@.closed,
                },
                ..old(shared)@
            }),
    {
        if let Some(notified) = self.notified {
            shared.leave_closed(notified);
        }
    }
}

} // verus!
