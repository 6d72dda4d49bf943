//! Progress of tasks.

use vstd::prelude::*;

verus! {

/// Whether a task has its result yet.
#[derive(Debug, PartialEq, Eq, Structural)]
pub enum Poll<T> {
    /// The result is there.
    Ready(T),
    /// The task is to be polled again once it was woken.
    Pending,
}

impl<T> Poll<T> {
    pub fn is_ready(&self) -> (ready: bool)
        ensures
            ready == (self is Ready),
    {
        match self {
            Poll::Ready(_) => true,
            Poll::Pending => false,
        }
    }

    pub fn is_pending(&self) -> (pending: bool)
        ensures
            pending == (self is Pending),
    {
        !self.is_ready()
    }
}

/// Gives way to other tasks once.
#[derive(Debug)]
pub struct YieldNow {
    yielded: bool,
}

impl View for YieldNow {
    type V = bool;

    /// Whether it has given way yet.
    closed spec fn view(&self) -> bool {
        self.yielded
    }
}

impl YieldNow {
    pub fn new() -> (yielding: Self)
        ensures
            !yielding@,
    {
        YieldNow { yielded: false }
    }

    /// The first poll gives way: the task is pending, and the waker that comes back is to be woken
    /// at once. All later polls are ready, and wake nobody.
    pub fn poll<W>(&mut self, waker: W) -> (result: (Poll<()>, Option<W>))
        ensures
            final(self)@,
            old(self)@ ==> result == (Poll::<()>::Ready(()), None::<W>),
            !old(self)@ ==> result == (Poll::<()>::Pending, Some(waker)),
    {
        if self.yielded {
            return (Poll::Ready(()), None);
        }
        self.yielded = true;
        (Poll::Pending, Some(waker))
    }
}

/// Yields execution of the current task.
pub fn yield_now() -> (yielding: YieldNow)
    ensures
        !yielding@,
{
    YieldNow::new()
}

} // verus!
