//! Utility to park and unpark a task.
//!
//! Parking and unparking are cut into steps, each of which accesses one cell of shared memory once,
//! so that the steps of one may come between those of the other.

use crate::atomic::{acquires, releases, MemoryOrder};
use crate::task::Poll;
use std::marker::PhantomData;
use vstd::prelude::*;

verus! {

pub const UNPARKED: usize = usize::MAX;

/// State of a [Parking].
#[derive(Copy, Clone, Debug, PartialEq, Eq, Structural)]
pub enum State {
    /// Not unparked yet. The waker to wake is in this slot, if anywhere.
    Parking(usize),
    /// Unparked for good.
    Unparked,
}

impl State {
    /// The states that fit a word.
    pub open spec fn wf(self) -> bool {
        self != State::Parking(UNPARKED)
    }

    /// The word that holds a state.
    pub open spec fn word(self) -> usize {
        match self {
            State::Parking(index) => index,
            State::Unparked => UNPARKED,
        }
    }

    /// The state in a word.
    pub open spec fn of_word(word: usize) -> State {
        if word == UNPARKED {
            State::Unparked
        } else {
            State::Parking(word)
        }
    }

    /// The state in a word.
    pub fn from(u: usize) -> (state: State)
        ensures
            state == State::of_word(u),
            state.wf(),
            state.word() == u,
    {
        if u == UNPARKED {
            State::Unparked
        } else {
            State::Parking(u)
        }
    }

    /// The word that holds this state.
    pub fn into(self) -> (word: usize)
        requires
            self.wf(),
        ensures
            word == self.word(),
            State::of_word(word) == self,
    {
        match self {
            State::Unparked => UNPARKED,
            State::Parking(index) => index,
        }
    }
}

/// A word of shared memory that holds a [State].
#[derive(Debug)]
pub struct AtomicState(pub usize);

impl View for AtomicState {
    type V = State;

    open spec fn view(&self) -> State {
        State::of_word(self.0)
    }
}

impl Default for AtomicState {
    fn default() -> (cell: Self)
        ensures
            cell@ == State::Parking(0),
    {
        AtomicState(State::Parking(0).into())
    }
}

impl AtomicState {
    pub fn load(&self, ordering: MemoryOrder) -> (state: State)
        requires
            ordering.loads(),
        ensures
            state == self@,
            state.wf(),
    {
        State::from(self.0)
    }

    /// Puts `new` in place of `current`. Anything other than `current` stays and is returned.
    pub fn compare_exchange(
        &mut self,
        current: State,
        new: State,
        success: MemoryOrder,
        failure: MemoryOrder,
    ) -> (result: Result<State, State>)
        requires
            current.wf(),
            new.wf(),
            failure.loads(),
        ensures
            old(self)@ == current ==> result == Ok::<State, State>(current) && final(self)@ == new,
            old(self)@ != current ==> result == Err::<State, State>(old(self)@) && final(self)@
                == old(self)@,
    {
        if self.0 == current.into() {
            self.0 = new.into();
            Ok(current)
        } else {
            Err(State::from(self.0))
        }
    }
}

/// Orderings of the accesses that park and unpark make.
pub trait MemoryOrdering {
    /// What [MemoryOrdering::park_ordering] is.
    spec fn parks_with() -> MemoryOrder;

    /// What [MemoryOrdering::unpark_ordering] is.
    spec fn unparks_with() -> MemoryOrder;

    /// The ordering with which a park observes an unpark.
    fn park_ordering() -> (ordering: MemoryOrder)
        ensures
            ordering == Self::parks_with(),
            ordering.loads(),
    ;

    /// The ordering with which an unpark is published.
    fn unpark_ordering() -> (ordering: MemoryOrder)
        ensures
            ordering == Self::unparks_with(),
    ;
}

/// No happens-before relationship between `unpark` and `park`.
pub enum WeakOrdering {
    Weak,
}

impl MemoryOrdering for WeakOrdering {
    open spec fn parks_with() -> MemoryOrder {
        MemoryOrder::Relaxed
    }

    open spec fn unparks_with() -> MemoryOrder {
        MemoryOrder::Acquire
    }

    fn park_ordering() -> (ordering: MemoryOrder) {
        MemoryOrder::Relaxed
    }

    fn unpark_ordering() -> (ordering: MemoryOrder) {
        // Acquire load to observe the waker.
        MemoryOrder::Acquire
    }
}

/// Code before `unpark` happens before code after a `park` that is ready.
pub enum StrongOrdering {
    Strong,
}

impl MemoryOrdering for StrongOrdering {
    open spec fn parks_with() -> MemoryOrder {
        MemoryOrder::Acquire
    }

    open spec fn unparks_with() -> MemoryOrder {
        MemoryOrder::AcqRel
    }

    fn park_ordering() -> (ordering: MemoryOrder) {
        // Acquire load to observe all writes before `unpark`.
        MemoryOrder::Acquire
    }

    fn unpark_ordering() -> (ordering: MemoryOrder) {
        // Acquire load to observe the waker.
        // Release store to publish all writes before `unpark`.
        MemoryOrder::AcqRel
    }
}

/// Parking that orders nothing but the waker.
pub type WeakParking<W> = Parking<W, WeakOrdering>;

/// Parking that orders all that comes before an unpark.
pub type StrongParking<W> = Parking<W, StrongOrdering>;

/// A place for one task to wait at until it is unparked, with wakers of type `W`.
///
/// There are two slots for wakers. The state names the slot that an unpark takes its waker from. A
/// park writes to the other one and has the state name it afterwards, so that no slot is written by
/// a park while an unpark reads it.
pub struct Parking<W, T> {
    pub state: AtomicState,
    pub wakers: [Option<W>; 2],
    pub marker: PhantomData<T>,
}

impl<W, T> Parking<W, T> {
    /// The state names a slot.
    pub open spec fn wf(&self) -> bool {
        self.state@ matches State::Parking(index) ==> index < 2
    }
}

impl<W, T: MemoryOrdering> Parking<W, T> {
    pub fn new() -> (parking: Self)
        ensures
            parking.wf(),
            parking.state@ == State::Parking(0),
            parking.wakers@ =~= seq![None::<W>, None::<W>],
    {
        Parking { state: AtomicState::default(), wakers: [None, None], marker: PhantomData }
    }
}

/// Progress of an unpark.
#[derive(Copy, Clone, Debug, PartialEq, Eq, Structural)]
pub enum UnparkStep {
    /// To load the state.
    Load,
    /// To exchange this state for [State::Unparked].
    Exchange(State),
    /// To take the waker out of this slot.
    Take(usize),
    /// Unparked.
    Done,
}

/// An unpark on its way.
pub struct Unpark<W> {
    pub step: UnparkStep,
    /// The waker that the unpark has taken.
    pub waker: Option<W>,
}

impl<W> Unpark<W> {
    pub fn new() -> (unpark: Self)
        ensures
            unpark == (Unpark::<W> { step: UnparkStep::Load, waker: None }),
    {
        Unpark { step: UnparkStep::Load, waker: None }
    }

    /// What an unpark counts on: nobody else unparks.
    pub open spec fn ready(self, state: State) -> bool {
        match self.step {
            UnparkStep::Load => state is Parking,
            UnparkStep::Exchange(loaded) => {
                &&& state is Parking
                &&& loaded matches State::Parking(index) && index < 2
            },
            UnparkStep::Take(index) => state is Unparked && index < 2,
            UnparkStep::Done => true,
        }
    }

    /// What the next step makes of the unpark and of the cells of the parking.
    pub open spec fn next(self, state: State, wakers: Seq<Option<W>>) -> (
        Self,
        State,
        Seq<Option<W>>,
    ) {
        match self.step {
            UnparkStep::Load => (
                Unpark { step: UnparkStep::Exchange(state), ..self },
                state,
                wakers,
            ),
            UnparkStep::Exchange(loaded) => if state == loaded {
                (
                    Unpark { step: UnparkStep::Take(loaded->Parking_0), ..self },
                    State::Unparked,
                    wakers,
                )
            } else {
                (Unpark { step: UnparkStep::Exchange(state), ..self }, state, wakers)
            },
            UnparkStep::Take(index) => (
                Unpark { step: UnparkStep::Done, waker: wakers[index as int] },
                state,
                wakers.update(index as int, None),
            ),
            UnparkStep::Done => (self, state, wakers),
        }
    }

    /// Makes the next step.
    pub fn advance<T: MemoryOrdering>(&mut self, parking: &mut Parking<W, T>)
        requires
            old(parking).wf(),
            old(self).ready(old(parking).state@),
        ensures
            final(parking).wf(),
            (*final(self), final(parking).state@, final(parking).wakers@) == old(self).next(
                old(parking).state@,
                old(parking).wakers@,
            ),
    {
        match self.step {
            UnparkStep::Load => {
                self.step = UnparkStep::Exchange(parking.state.load(MemoryOrder::Relaxed));
            },
            UnparkStep::Exchange(state) => {
                if let State::Parking(index) = state {
                    match parking.state.compare_exchange(
                        state,
                        State::Unparked,
                        T::unpark_ordering(),
                        MemoryOrder::Relaxed,
                    ) {
                        Ok(_) => self.step = UnparkStep::Take(index),
                        Err(updated) => self.step = UnparkStep::Exchange(updated),
                    }
                }
            },
            UnparkStep::Take(index) => {
                self.waker = parking.wakers[index].take();
                self.step = UnparkStep::Done;
            },
            UnparkStep::Done => {},
        }
    }
}

/// Progress of a park.
#[derive(Copy, Clone, Debug, PartialEq, Eq, Structural)]
pub enum ParkStep {
    /// To load the state.
    Load,
    /// To write the waker to the slot that this one is not.
    Write(usize),
    /// To have the state name the other slot in place of this one.
    Exchange(usize),
    /// Unparked.
    Ready,
    /// Parked.
    Pending,
}

/// A park on its way.
pub struct Park<W> {
    pub step: ParkStep,
    /// The waker that the park has not written yet.
    pub waker: Option<W>,
}

/// The slot that `index` is not.
pub open spec fn other_slot(index: usize) -> usize {
    if index == 0 {
        1
    } else {
        0
    }
}

impl<W> Park<W> {
    pub fn new(waker: W) -> (park: Self)
        ensures
            park == (Park { step: ParkStep::Load, waker: Some(waker) }),
    {
        Park { step: ParkStep::Load, waker: Some(waker) }
    }

    /// What a park counts on: nobody else parks.
    pub open spec fn ready(self, state: State) -> bool {
        match self.step {
            ParkStep::Load => self.waker is Some,
            ParkStep::Write(index) => index < 2 && self.waker is Some,
            ParkStep::Exchange(index) => {
                index < 2 && (state is Unparked || state == State::Parking(index))
            },
            ParkStep::Ready | ParkStep::Pending => true,
        }
    }

    /// What the next step makes of the park and of the cells of the parking.
    pub open spec fn next(self, state: State, wakers: Seq<Option<W>>) -> (
        Self,
        State,
        Seq<Option<W>>,
    ) {
        match self.step {
            ParkStep::Load => (
                Park {
                    step: match state {
                        State::Unparked => ParkStep::Ready,
                        State::Parking(index) => ParkStep::Write(index),
                    },
                    ..self
                },
                state,
                wakers,
            ),
            ParkStep::Write(index) => (
                Park { step: ParkStep::Exchange(index), waker: None },
                state,
                wakers.update(other_slot(index) as int, self.waker),
            ),
            ParkStep::Exchange(index) => if state is Unparked {
                (Park { step: ParkStep::Ready, ..self }, state, wakers)
            } else {
                (
                    Park { step: ParkStep::Pending, ..self },
                    State::Parking(other_slot(index)),
                    wakers,
                )
            },
            ParkStep::Ready | ParkStep::Pending => (self, state, wakers),
        }
    }

    /// Makes the next step.
    pub fn advance<T: MemoryOrdering>(&mut self, parking: &mut Parking<W, T>)
        requires
            old(parking).wf(),
            old(self).ready(old(parking).state@),
        ensures
            final(parking).wf(),
            (*final(self), final(parking).state@, final(parking).wakers@) == old(self).next(
                old(parking).state@,
                old(parking).wakers@,
            ),
    {
        match self.step {
            ParkStep::Load => match parking.state.load(T::park_ordering()) {
                State::Unparked => self.step = ParkStep::Ready,
                State::Parking(index) => self.step = ParkStep::Write(index),
            },
            ParkStep::Write(index) => {
                parking.wakers[next_slot(index)] = self.waker.take();
                self.step = ParkStep::Exchange(index);
            },
            ParkStep::Exchange(index) => {
                // Release store to publish the waker.
                match parking.state.compare_exchange(
                    State::Parking(index),
                    State::Parking(next_slot(index)),
                    MemoryOrder::Release,
                    T::park_ordering(),
                ) {
                    Ok(_) => self.step = ParkStep::Pending,
                    Err(_) => self.step = ParkStep::Ready,
                }
            },
            ParkStep::Ready | ParkStep::Pending => {},
        }
    }
}

fn next_slot(index: usize) -> (next: usize)
    requires
        index < 2,
    ensures
        next == other_slot(index),
        next < 2,
{
    let next: usize = (index + 1) & 0x01;
    proof {
        assert(1usize & 0x01 == 1 && 2usize & 0x01 == 0) by (bit_vector);
    }
    next
}

impl<W, T: MemoryOrdering> Parking<W, T> {
    /// Unparks the task, from now on. Returns the waker of the last park, which is to be woken.
    pub fn unpark(&mut self) -> (waker: Option<W>)
        requires
            old(self).wf(),
            old(self).state@ is Parking,
        ensures
            final(self).wf(),
            final(self).state@ is Unparked,
            waker == old(self).wakers@[old(self).state@->Parking_0 as int],
            final(self).wakers@ == old(self).wakers@.update(
                old(self).state@->Parking_0 as int,
                None,
            ),
    {
        let mut unpark = Unpark::new();
        unpark.advance(self);
        unpark.advance(self);
        unpark.advance(self);
        unpark.waker
    }

    /// Parks the task with `waker`, unless it was unparked before.
    pub fn park(&mut self, waker: W) -> (poll: Poll<()>)
        requires
            old(self).wf(),
        ensures
            final(self).wf(),
            match old(self).state@ {
                State::Unparked => {
                    &&& poll == Poll::Ready(())
                    &&& final(self).state@ == old(self).state@
                    &&& final(self).wakers@ == old(self).wakers@
                },
                State::Parking(index) => {
                    &&& poll == Poll::<()>::Pending
                    &&& final(self).state@ == State::Parking(other_slot(index))
                    &&& final(self).wakers@ == old(self).wakers@.update(
                        other_slot(index) as int,
                        Some(waker),
                    )
                },
            },
    {
        let mut park = Park::new(waker);
        park.advance(self);
        if let ParkStep::Ready = park.step {
            return Poll::Ready(());
        }
        park.advance(self);
        park.advance(self);
        Poll::Pending
    }
}

/// What is so of a park with `waker` and of an unpark that race for the cells of a parking.
pub open spec fn racing<W>(
    state: State,
    wakers: Seq<Option<W>>,
    park: Park<W>,
    unpark: Unpark<W>,
    waker: W,
) -> bool {
    &&& wakers.len() == 2
    &&& state matches State::Parking(index) ==> index < 2
    &&& park.step is Load || park.step is Write ==> park.waker == Some(waker)
    &&& park.step matches ParkStep::Write(index) ==> index < 2
    &&& park.step matches ParkStep::Exchange(index) ==> {
        index < 2 && wakers[other_slot(index) as int] == Some(waker)
    }
    &&& match unpark.step {
        UnparkStep::Load | UnparkStep::Exchange(_) => {
            &&& state is Parking
            &&& unpark.step matches UnparkStep::Exchange(loaded) ==> {
                loaded matches State::Parking(index) && index < 2
            }
            &&& match park.step {
                ParkStep::Load => true,
                ParkStep::Write(index) | ParkStep::Exchange(index) => {
                    state == State::Parking(index)
                },
                ParkStep::Ready => false,
                ParkStep::Pending => wakers[state->Parking_0 as int] == Some(waker),
            }
        },
        UnparkStep::Take(taken) => {
            &&& state is Unparked
            &&& taken < 2
            &&& match park.step {
                ParkStep::Write(index) | ParkStep::Exchange(index) => index == taken,
                ParkStep::Pending => wakers[taken as int] == Some(waker),
                _ => true,
            }
        },
        UnparkStep::Done => {
            &&& state is Unparked
            &&& park.step is Pending ==> unpark.waker == Some(waker)
        },
    }
}

/// A park and an unpark may begin while nobody was unparked.
pub proof fn law_race_begins<W>(state: State, wakers: Seq<Option<W>>, waker: W)
    requires
        wakers.len() == 2,
        state matches State::Parking(index) && index < 2,
    ensures
        racing(
            state,
            wakers,
            Park { step: ParkStep::Load, waker: Some(waker) },
            Unpark { step: UnparkStep::Load, waker: None },
            waker,
        ),
{
}

/// Whatever comes first, a park and an unpark find what they count on, and never touch the same slot.
pub proof fn law_race_goes_on<W>(
    state: State,
    wakers: Seq<Option<W>>,
    park: Park<W>,
    unpark: Unpark<W>,
    waker: W,
)
    requires
        racing(state, wakers, park, unpark, waker),
    ensures
        park.ready(state),
        unpark.ready(state),
        park.step matches ParkStep::Write(index) ==> unpark.step != UnparkStep::Take(
            other_slot(index),
        ),
        ({
            let (park, state, wakers) = park.next(state, wakers);
            racing(state, wakers, park, unpark, waker)
        }),
        ({
            let (unpark, state, wakers) = unpark.next(state, wakers);
            racing(state, wakers, park, unpark, waker)
        }),
{
}

/// A waker is never lost: once both are over, the park has found itself unparked or the unpark has its
/// waker to wake.
pub proof fn law_race_ends<W>(
    state: State,
    wakers: Seq<Option<W>>,
    park: Park<W>,
    unpark: Unpark<W>,
    waker: W,
)
    requires
        racing(state, wakers, park, unpark, waker),
        park.step is Ready || park.step is Pending,
        unpark.step is Done,
    ensures
        park.step is Ready || unpark.waker == Some(waker),
{
}

/// There are two slots, and each is the other one of the other.
pub proof fn law_two_slots(index: usize)
    requires
        index < 2,
    ensures
        other_slot(index) < 2,
        other_slot(index) != index,
        other_slot(other_slot(index)) == index,
{
}

/// A state and its word are the same to each other, and no two states share a word.
pub proof fn law_states_have_words(state: State, other: State)
    requires
        state.wf(),
        other.wf(),
    ensures
        State::of_word(state.word()) == state,
        state.word() == other.word() ==> state == other,
{
}

/// An unpark is for good and takes the waker of the last park. A park says that it was unparked if and only
/// if it was, and leaves its waker otherwise.
pub proof fn law_steps_of_parking<W>(
    state: State,
    wakers: Seq<Option<W>>,
    park: Park<W>,
    unpark: Unpark<W>,
)
    requires
        wakers.len() == 2,
        state matches State::Parking(index) ==> index < 2,
    ensures
        park.ready(state) && !(park.step is Ready) && !(park.step is Pending) ==> {
            let (then, after, slots) = park.next(state, wakers);
            &&& state is Unparked ==> after is Unparked
            &&& then.step is Ready ==> state is Unparked && slots == wakers
            &&& then.step is Pending ==> {
                &&& state is Parking && after is Parking
                &&& after != state
                &&& slots == wakers
            }
            &&& park.step matches ParkStep::Write(index) ==> {
                &&& slots.len() == 2
                &&& slots[index as int] == wakers[index as int]
                &&& slots[1 - index] == park.waker
                &&& after == state
            }
        },
        unpark.ready(state) && !(unpark.step is Done) ==> {
            let (then, after, slots) = unpark.next(state, wakers);
            &&& state is Unparked ==> after is Unparked
            &&& then.step matches UnparkStep::Take(index) ==> {
                &&& state == State::Parking(index)
                &&& after is Unparked
                &&& slots == wakers
            }
            &&& unpark.step matches UnparkStep::Take(index) ==> {
                &&& then.step is Done
                &&& then.waker == wakers[index as int]
                &&& slots[index as int] is None
                &&& slots[1 - index] == wakers[1 - index]
            }
            &&& then.step is Done ==> unpark.step is Take
        },
{
}

/// A strong unpark publishes what comes before it, and a strong park observes that. Any unpark observes the
/// waker.
pub proof fn law_strong_parking_is_ordered()
    ensures
        releases(StrongOrdering::unparks_with()),
        acquires(StrongOrdering::unparks_with()),
        acquires(StrongOrdering::parks_with()),
        StrongOrdering::parks_with().loads(),
        acquires(WeakOrdering::unparks_with()),
        !releases(WeakOrdering::unparks_with()),
        !acquires(WeakOrdering::parks_with()),
        WeakOrdering::parks_with().loads(),
{
}

} // verus!
