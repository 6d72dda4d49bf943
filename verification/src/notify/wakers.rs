//! Wakers that were collected to be woken together.

use vstd::prelude::*;

verus! {

/// How many wakers a [WakerList] has room for.
pub const WAKERS: usize = 32;

/// A few wakers.
pub struct WakerList<W> {
    wakers: Vec<W>,
}

impl<W> View for WakerList<W> {
    type V = Seq<W>;

    /// The wakers in the order in which they came.
    closed spec fn view(&self) -> Seq<W> {
        self.wakers@
    }
}

impl<W> WakerList<W> {
    pub open spec fn wf(&self) -> bool {
        self@.len() <= WAKERS
    }

    pub fn new() -> (list: Self)
        ensures
            list.wf(),
            list@ == Seq::<W>::empty(),
    {
        WakerList { wakers: Vec::new() }
    }

    pub fn is_full(&self) -> (full: bool)
        requires
            self.wf(),
        ensures
            full == (self@.len() == WAKERS),
    {
        self.wakers.len() == WAKERS
    }

    pub fn push(&mut self, waker: W)
        requires
            old(self).wf(),
            old(self)@.len() < WAKERS,
        ensures
            final(self).wf(),
            final(self)@ == old(self)@.push(waker),
    {
        self.wakers.push(waker);
    }

    /// Moves the wakers behind those that are in `woken`, in the order in which they are to be woken:
    /// the one that came last is the first.
    pub fn wake(&mut self, woken: &mut Vec<W>)
        ensures
            final(self).wf(),
            final(self)@ == Seq::<W>::empty(),
            final(woken)@ == old(woken)@ + old(self)@.reverse(),
    {
        let ghost all = self@;
        while self.wakers.len() != 0
            invariant
                self.wakers@ == all.take(self.wakers@.len() as int),
                self.wakers@.len() <= all.len(),
                woken@ == old(woken)@ + all.skip(self.wakers@.len() as int).reverse(),
            decreases self.wakers@.len(),
        {
            let ghost rest = self.wakers@.len();
            if let Some(waker) = self.wakers.pop() {
                woken.push(waker);
                assert(all.skip(rest - 1).reverse() =~= all.skip(rest as int).reverse().push(waker));
            }
        }
        assert(all.skip(0) =~= all);
    }
}

} // verus!
