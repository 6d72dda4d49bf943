//! The task of taking a waiter back that does not wait any longer.

use crate::atomic::MemoryOrder;
use crate::notify::list::{without, Home};
use crate::notify::memory::{Memory, Notify};
use crate::notify::one::{NotifyingOne, OneStep};
use crate::notify::state::{Notification, NotificationKind, State, Status};
use vstd::prelude::*;

verus! {

/// Progress of a [Removing].
#[derive(Copy, Clone, Debug, PartialEq, Eq, Structural)]
pub enum RemoveStep {
    /// To load the notification.
    Load,
    /// To take the lock.
    Lock,
    /// To take the waiter out of its list.
    Unlink,
    /// To load the state, for nobody is listed any longer.
    Inspect,
    /// To tell that nobody waits.
    Clear(State),
    /// To give the lock back.
    Unlock,
    /// To load the notification again.
    Reload,
    /// To hand a permit over.
    Release,
    /// Done. The waker, if there is one, is to be woken.
    Done,
}

/// A removal of a waiter on its way.
pub struct Removing<W> {
    pub waiter: usize,
    pub step: RemoveStep,
    pub release: NotifyingOne<W>,
}

impl<W> Removing<W> {
    pub fn new(waiter: usize) -> (removing: Self)
        ensures
            removing == (Removing::<W> {
                waiter,
                step: RemoveStep::Load,
                release: NotifyingOne::begun(None),
            }),
    {
        Removing { waiter, step: RemoveStep::Load, release: NotifyingOne::new(None) }
    }

    /// Whether it has the lock.
    pub open spec fn holds(self) -> bool {
        match self.step {
            RemoveStep::Unlink
            | RemoveStep::Inspect
            | RemoveStep::Clear(_)
            | RemoveStep::Unlock => true,
            RemoveStep::Release => self.release.holds(),
            _ => false,
        }
    }

    /// The waiter that was taken from the queue and is not notified yet.
    pub open spec fn hand(self) -> Option<usize> {
        if self.step is Release {
            self.release.hand()
        } else {
            None
        }
    }

    /// What the task counts on.
    pub open spec fn ready(self, m: Memory<W>) -> bool {
        &&& self.holds() ==> m.locked
        &&& m.live(self.waiter)
        &&& match self.step {
            RemoveStep::Unlink => !(m.home(self.waiter) is Guard),
            RemoveStep::Clear(state) => state.wf(),
            RemoveStep::Release => self.release.ready(m),
            _ => true,
        }
    }

    pub open spec fn at(self, step: RemoveStep) -> Self {
        Removing { step, ..self }
    }

    /// How to go on with this notification: a permit is handed over.
    pub open spec fn judged(self, notification: Notification) -> Self {
        match notification.kind {
            NotificationKind::One => Removing {
                step: RemoveStep::Release,
                release: NotifyingOne::begun(Some(notification.round)),
                ..self
            },
            NotificationKind::All => self.at(RemoveStep::Done),
        }
    }

    /// What the next step makes of the task and of the memory.
    pub open spec fn next(self, m: Memory<W>) -> (Self, Memory<W>) {
        match self.step {
            RemoveStep::Load => match m.waiter(self.waiter).notification {
                Some(notification) => (self.judged(notification), m),
                None => (self.at(RemoveStep::Lock), m),
            },
            RemoveStep::Lock => if m.locked {
                (self, m)
            } else {
                (self.at(RemoveStep::Unlink), Memory { locked: true, ..m })
            },
            RemoveStep::Unlink => {
                let linked = !(m.home(self.waiter) is Out);
                let m = m.unlinked(self.waiter);
                if linked && m.queue.len() == 0 {
                    (self.at(RemoveStep::Inspect), m)
                } else {
                    (self.at(RemoveStep::Unlock), m)
                }
            },
            RemoveStep::Inspect => if m.state.status == Status::Waiting {
                (self.at(RemoveStep::Clear(m.state)), m)
            } else {
                (self.at(RemoveStep::Unlock), m)
            },
            RemoveStep::Clear(state) => (
                self.at(RemoveStep::Unlock),
                Memory { state: State { status: Status::Idle, ..state }, ..m },
            ),
            RemoveStep::Unlock => (self.at(RemoveStep::Reload), Memory { locked: false, ..m }),
            RemoveStep::Reload => match m.waiter(self.waiter).notification {
                Some(notification) => (self.judged(notification), m),
                None => (self.at(RemoveStep::Done), m),
            },
            RemoveStep::Release => {
                let (release, m) = self.release.next(m);
                let step = if release.step is Done {
                    RemoveStep::Done
                } else {
                    RemoveStep::Release
                };
                (Removing { step, release, ..self }, m)
            },
            RemoveStep::Done => (self, m),
        }
    }

    fn judge(&mut self, notification: Notification)
        ensures
            *final(self) == old(self).judged(notification),
    {
        match notification.kind {
            NotificationKind::One => {
                self.release = NotifyingOne::new(Some(notification.round));
                self.step = RemoveStep::Release;
            },
            NotificationKind::All => self.step = RemoveStep::Done,
        }
    }

    /// Makes the next step.
    pub fn advance(&mut self, notify: &mut Notify<W>)
        requires
            old(notify).wf(),
            old(self).ready(old(notify)@),
        ensures
            final(notify).wf(),
            *final(self) == old(self).next(old(notify)@).0,
            final(notify)@ =~= old(self).next(old(notify)@).1,
    {
        match self.step {
            RemoveStep::Load => {
                match notify.load_notification(self.waiter, MemoryOrder::Acquire) {
                    Some(notification) => self.judge(notification),
                    None => self.step = RemoveStep::Lock,
                }
            },
            RemoveStep::Lock => {
                if notify.try_lock() {
                    self.step = RemoveStep::Unlink;
                }
            },
            RemoveStep::Unlink => {
                if notify.unlink(self.waiter) && notify.is_list_empty() {
                    self.step = RemoveStep::Inspect;
                } else {
                    self.step = RemoveStep::Unlock;
                }
            },
            RemoveStep::Inspect => {
                let state = notify.load_state(MemoryOrder::Relaxed);
                if state.status == Status::Waiting {
                    self.step = RemoveStep::Clear(state);
                } else {
                    self.step = RemoveStep::Unlock;
                }
            },
            RemoveStep::Clear(state) => {
                notify.store_state(state.with_status(Status::Idle), MemoryOrder::Relaxed);
                self.step = RemoveStep::Unlock;
            },
            RemoveStep::Unlock => {
                notify.unlock();
                self.step = RemoveStep::Reload;
            },
            RemoveStep::Reload => {
                // Relaxed load as nothing is important to somebody who leaves.
                match notify.load_notification(self.waiter, MemoryOrder::Relaxed) {
                    Some(notification) => self.judge(notification),
                    None => self.step = RemoveStep::Done,
                }
            },
            RemoveStep::Release => {
                self.release.advance(notify);
                if let OneStep::Done = self.release.step {
                    self.step = RemoveStep::Done;
                }
            },
            RemoveStep::Done => {},
        }
    }
}

impl<W> Memory<W> {
    /// The memory with the waiter at `key` in no list.
    pub open spec fn unlinked(self, key: usize) -> Memory<W> {
        Memory {
            queue: without(self.queue, key),
            rings: match self.home(key) {
                Home::Ringed(guard) => self.rings.insert(guard, without(self.rings[guard], key)),
                _ => self.rings,
            },
            homes: self.homes.update(key as int, Home::Out),
            ..self
        }
    }

    /// What the removal of the waiter at `key` makes of a memory. A permit that it was notified with
    /// is handed over.
    pub open spec fn removed(self, key: usize) -> Memory<W> {
        match self.waiter(key).notification {
            Some(notification) => match notification.kind {
                NotificationKind::One => self.notified_one(notification.round),
                NotificationKind::All => self,
            },
            None => {
                let m = self.unlinked(key);
                if self.home(key) is Listed && m.queue.len() == 0 {
                    Memory { state: State { status: Status::Idle, ..self.state }, ..m }
                } else {
                    m
                }
            },
        }
    }

    /// The waker that the removal of the waiter at `key` wakes.
    pub open spec fn woken_by_removal(self, key: usize) -> Option<W> {
        match self.waiter(key).notification {
            Some(notification) => match notification.kind {
                NotificationKind::One => self.woken_one(notification.round),
                NotificationKind::All => None,
            },
            None => None,
        }
    }
}

impl<W> Notify<W> {
    /// Takes a waiter back. A permit that it was notified with is handed over, and the waker of
    /// whoever gets it is returned to be woken.
    pub fn remove(&mut self, waiter: usize) -> (waker: Option<W>)
        requires
            old(self).wf(),
            old(self)@.quiet(),
            old(self)@.live(waiter),
        ensures
            final(self).wf(),
            final(self)@.quiet(),
            final(self)@ =~= old(self)@.removed(waiter),
            waker == old(self)@.woken_by_removal(waiter),
    {
        proof {
            self.lemma_wf();
            assert(self@.home_wf(waiter));
            assert(self@.waiter(waiter).wf());
            if self@.queue.contains(waiter) {
                assert(self@.queued(self@.queue.index_of(waiter)));
            }
        }
        let mut removing: Removing<W> = Removing::new(waiter);
        removing.advance(self);
        if let RemoveStep::Release = removing.step {
            if let Some(round) = removing.release.round {
                return self.release_notification(round);
            }
        }
        if let RemoveStep::Done = removing.step {
            return None;
        }
        // Lock, and take the waiter out of its list.
        removing.advance(self);
        removing.advance(self);
        if let RemoveStep::Inspect = removing.step {
            removing.advance(self);
            removing.advance(self);
        }
        // Unlock, and look for a notification that came in the meantime.
        removing.advance(self);
        removing.advance(self);
        None
    }
}

} // verus!
