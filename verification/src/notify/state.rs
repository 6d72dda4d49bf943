//! Rounds, states and notifications, and the machine words that they are packed into.

use crate::atomic::MemoryOrder;
use vstd::prelude::*;

verus! {

pub const STATUS_MASK: usize = 3;

pub const ROUND_UNIT: usize = 4;

/// A word is the sum of a round and of a code below [ROUND_UNIT].
proof fn lemma_unpack(word: usize)
    ensures
        word & STATUS_MASK == word % 4,
        word & !STATUS_MASK == word - word % 4,
        (word - word % 4) % 4 == 0,
{
    assert(word & 3 == word % 4) by (bit_vector);
    assert(word & !3usize == word - word % 4) by (bit_vector);
}

/// A round and a code share a word without touching each other.
proof fn lemma_pack(round: usize, code: usize)
    requires
        round % 4 == 0,
        code < 4,
    ensures
        round + code <= usize::MAX,
        round | code == round + code,
        (round + code) % 4 == code,
{
    assert(round | code == round + code) by (bit_vector)
        requires
            round % 4 == 0,
            code < 4,
    ;
}

/// Round of a [Notify](crate::notify::Notify), a multiple of [ROUND_UNIT].
#[derive(Copy, Clone, Debug, PartialEq, Eq, Structural)]
pub struct Round(pub usize);

impl Round {
    /// The bits below [ROUND_UNIT] are left to codes.
    pub open spec fn wf(self) -> bool {
        self.0 % 4 == 0
    }

    /// The round in a word.
    pub open spec fn of_word(word: usize) -> Round {
        Round((word - word % 4) as usize)
    }

    /// The round after this one. The round after the greatest one is zero.
    pub open spec fn succ(self) -> Round {
        if self.0 <= usize::MAX - ROUND_UNIT {
            Round((self.0 + ROUND_UNIT) as usize)
        } else {
            Round(0)
        }
    }

    /// The first round.
    pub fn new() -> (round: Round)
        ensures
            round == Round(ROUND_UNIT),
            round.wf(),
    {
        Round(ROUND_UNIT)
    }

    /// The round of those attached to no round.
    pub fn zero() -> (round: Round)
        ensures
            round == Round(0),
            round.wf(),
    {
        Round(0)
    }

    /// A notification in this round.
    pub fn into_notification(self, kind: NotificationKind) -> (notification: Notification)
        ensures
            notification == (Notification { kind, round: self }),
    {
        Notification { kind, round: self }
    }

    /// The round after this one.
    pub fn next(self) -> (round: Round)
        requires
            self.wf(),
        ensures
            round == self.succ(),
            round.wf(),
    {
        let word: usize = self.0.wrapping_add(ROUND_UNIT);
        proof {
            assert(usize::MAX % 4 == 3);
        }
        Round(word)
    }

    /// The word of this round.
    pub fn into(self) -> (word: usize)
        ensures
            word == self.0,
    {
        self.0
    }

    /// The round in a word.
    pub fn from(i: usize) -> (round: Round)
        ensures
            round == Round::of_word(i),
            round.wf(),
    {
        proof {
            lemma_unpack(i);
        }
        Round(i & !STATUS_MASK)
    }
}

/// What goes on in a round.
#[derive(Copy, Clone, Debug, PartialEq, Eq, Structural)]
pub enum Status {
    /// Nobody waits and there is no permit.
    Idle,
    /// Somebody waits.
    Waiting,
    /// There is a permit.
    Notified,
}

impl Status {
    /// The code of a status in a word.
    pub open spec fn code(self) -> usize {
        match self {
            Status::Idle => 0,
            Status::Waiting => 1,
            Status::Notified => 2,
        }
    }

    fn encode(self) -> (code: usize)
        ensures
            code == self.code(),
    {
        match self {
            Status::Idle => 0,
            Status::Waiting => 1,
            Status::Notified => 2,
        }
    }
}

/// Round and status of a [Notify](crate::notify::Notify).
#[derive(Copy, Clone, Debug, PartialEq, Eq, Structural)]
pub struct State {
    pub round: Round,
    pub status: Status,
}

impl State {
    pub open spec fn wf(self) -> bool {
        self.round.wf()
    }

    /// The word that holds a state.
    pub open spec fn word(self) -> usize {
        (self.round.0 + self.status.code()) as usize
    }

    /// The words that hold a state.
    pub open spec fn in_word(word: usize) -> bool {
        word % 4 != 3
    }

    /// The state in a word.
    pub open spec fn of_word(word: usize) -> State {
        State {
            round: Round::of_word(word),
            status: if word % 4 == 0 {
                Status::Idle
            } else if word % 4 == 1 {
                Status::Waiting
            } else {
                Status::Notified
            },
        }
    }

    /// The state that starts the round after this one, with no permit.
    pub open spec fn renewed(self) -> State {
        State { round: self.round.succ(), status: Status::Idle }
    }

    /// The state of a new [Notify](crate::notify::Notify).
    pub fn new() -> (state: State)
        ensures
            state == (State { round: Round(ROUND_UNIT), status: Status::Idle }),
            state.wf(),
    {
        State { round: Round::new(), status: Status::Idle }
    }

    pub fn with_status(self, status: Status) -> (state: State)
        ensures
            state == (State { round: self.round, status }),
    {
        State { round: self.round, status }
    }

    pub fn with_round(self, round: Round) -> (state: State)
        ensures
            state == (State { round, status: self.status }),
    {
        State { round, status: self.status }
    }

    pub fn next_round(self) -> (state: State)
        requires
            self.wf(),
        ensures
            state == (State { round: self.round.succ(), status: self.status }),
            state.wf(),
    {
        self.with_round(self.round.next())
    }

    /// The word that holds this state.
    pub fn into(self) -> (word: usize)
        requires
            self.wf(),
        ensures
            word == self.word(),
            State::in_word(word),
            State::of_word(word) == self,
    {
        let code: usize = self.status.encode();
        proof {
            lemma_pack(self.round.0, code);
        }
        self.round.into() | code
    }

    /// The state in a word.
    pub fn from(i: usize) -> (state: State)
        requires
            State::in_word(i),
        ensures
            state == State::of_word(i),
            state.wf(),
            state.word() == i,
    {
        proof {
            lemma_unpack(i);
        }
        let code: usize = i & STATUS_MASK;
        let status = if code == 0 {
            Status::Idle
        } else if code == 1 {
            Status::Waiting
        } else {
            Status::Notified
        };
        State { round: Round::from(i), status }
    }
}

/// A word of shared memory that holds a [State].
#[derive(Debug)]
pub struct AtomicState(pub usize);

impl View for AtomicState {
    type V = State;

    open spec fn view(&self) -> State {
        State::of_word(self.0)
    }
}

impl Default for AtomicState {
    fn default() -> (cell: Self)
        ensures
            cell.wf(),
            cell@ == (State { round: Round(ROUND_UNIT), status: Status::Idle }),
    {
        AtomicState::new(State::new())
    }
}

impl AtomicState {
    pub open spec fn wf(&self) -> bool {
        State::in_word(self.0)
    }

    pub fn new(state: State) -> (cell: Self)
        requires
            state.wf(),
        ensures
            cell.wf(),
            cell@ == state,
    {
        AtomicState(state.into())
    }

    pub fn store(&mut self, state: State, ordering: MemoryOrder)
        requires
            state.wf(),
            ordering.stores(),
        ensures
            final(self).wf(),
            final(self)@ == state,
    {
        self.0 = state.into();
    }

    pub fn load(&self, ordering: MemoryOrder) -> (state: State)
        requires
            self.wf(),
            ordering.loads(),
        ensures
            state == self@,
            state.wf(),
    {
        State::from(self.0)
    }

    /// Puts `new` in place of `current`. Anything other than `current` stays and is returned.
    pub fn compare_exchange(
        &mut self,
        current: State,
        new: State,
        success: MemoryOrder,
        failure: MemoryOrder,
    ) -> (result: Result<State, State>)
        requires
            old(self).wf(),
            current.wf(),
            new.wf(),
            failure.loads(),
        ensures
            final(self).wf(),
            old(self)@ == current ==> result == Ok::<State, State>(current) && final(self)@ == new,
            old(self)@ != current ==> result == Err::<State, State>(old(self)@) && final(self)@
                == old(self)@,
            result is Err ==> result->Err_0.wf(),
    {
        let word: usize = self.0;
        proof {
            lemma_unpack(word);
        }
        if word == current.into() {
            self.0 = new.into();
            Ok(current)
        } else {
            Err(State::from(word))
        }
    }
}

/// How a notification came about.
#[derive(Copy, Clone, Debug, PartialEq, Eq, Structural)]
pub enum NotificationKind {
    /// For one task alone.
    One,
    /// For all tasks of a round.
    All,
}

impl NotificationKind {
    /// The code of a kind in a word.
    pub open spec fn code(self) -> usize {
        match self {
            NotificationKind::One => 0,
            NotificationKind::All => 1,
        }
    }
}

/// A notification and the round that it was sent in.
#[derive(Copy, Clone, Debug, PartialEq, Eq, Structural)]
pub struct Notification {
    pub kind: NotificationKind,
    pub round: Round,
}

impl Notification {
    pub open spec fn wf(self) -> bool {
        self.round.wf()
    }

    /// The word that holds a notification.
    pub open spec fn word(self) -> usize {
        (self.round.0 + self.kind.code()) as usize
    }

    /// The words that hold a notification.
    pub open spec fn in_word(word: usize) -> bool {
        word % 4 < 2
    }

    /// The notification in a word.
    pub open spec fn of_word(word: usize) -> Notification {
        Notification {
            kind: if word % 4 == 0 {
                NotificationKind::One
            } else {
                NotificationKind::All
            },
            round: Round::of_word(word),
        }
    }

    /// The word that holds this notification.
    pub fn into(self) -> (word: usize)
        requires
            self.wf(),
        ensures
            word == self.word(),
            Notification::in_word(word),
            Notification::of_word(word) == self,
    {
        let code: usize = match self.kind {
            NotificationKind::One => 0,
            NotificationKind::All => 1,
        };
        proof {
            lemma_pack(self.round.0, code);
        }
        self.round.into() | code
    }

    /// The notification in a word.
    pub fn from(u: usize) -> (notification: Notification)
        requires
            Notification::in_word(u),
        ensures
            notification == Notification::of_word(u),
            notification.wf(),
            notification.word() == u,
    {
        proof {
            lemma_unpack(u);
        }
        let code: usize = u & STATUS_MASK;
        let kind = if code == 0 {
            NotificationKind::One
        } else {
            NotificationKind::All
        };
        Notification { kind, round: Round::from(u) }
    }

    /// What a cell holds once a notification was stored in it. The word of a notification for one
    /// task in round zero is that of an empty cell.
    pub open spec fn stored(self) -> Option<Notification> {
        if self.word() == 0 {
            None
        } else {
            Some(self)
        }
    }
}

/// A word of shared memory that may hold a [Notification].
#[derive(Debug)]
pub struct AtomicNotification(pub usize);

impl View for AtomicNotification {
    type V = Option<Notification>;

    open spec fn view(&self) -> Option<Notification> {
        if self.0 == 0 {
            None
        } else {
            Some(Notification::of_word(self.0))
        }
    }
}

impl Default for AtomicNotification {
    fn default() -> (cell: Self)
        ensures
            cell.wf(),
            cell@ is None,
    {
        AtomicNotification(0)
    }
}

impl AtomicNotification {
    pub open spec fn wf(&self) -> bool {
        Notification::in_word(self.0)
    }

    /// Empties the cell.
    pub fn clear(&mut self)
        ensures
            final(self).wf(),
            final(self)@ is None,
    {
        self.0 = 0;
    }

    /// Empties the cell and returns what was in it.
    pub fn take(&mut self) -> (notification: Option<Notification>)
        requires
            old(self).wf(),
        ensures
            final(self).wf(),
            final(self)@ is None,
            notification == old(self)@,
            notification is Some ==> notification->Some_0.wf(),
    {
        let notification = self.load(MemoryOrder::Relaxed);
        self.clear();
        notification
    }

    pub fn load(&self, ordering: MemoryOrder) -> (notification: Option<Notification>)
        requires
            self.wf(),
            ordering.loads(),
        ensures
            notification == self@,
            notification is Some ==> notification->Some_0.wf(),
    {
        match self.0 {
            0 => None,
            u => Some(Notification::from(u)),
        }
    }

    pub fn store(&mut self, notification: Notification, ordering: MemoryOrder)
        requires
            notification.wf(),
            ordering.stores(),
        ensures
            final(self).wf(),
            final(self)@ == notification.stored(),
    {
        self.0 = notification.into();
    }
}

/// Rounds follow each other one by one, each by one unit, until they begin anew, and no two rounds are
/// followed by the same one.
pub proof fn law_rounds_follow_each_other(round: Round, other: Round)
    requires
        round.wf(),
        other.wf(),
    ensures
        round.succ().wf(),
        round.succ() != round,
        round.succ() == other.succ() ==> round == other,
        round.succ().0 == round.0 + ROUND_UNIT || round.succ().0 == 0 && round.0 + ROUND_UNIT
            == usize::MAX + 1,
{
    assert(usize::MAX % 4 == 3);
}

/// A state and its word are the same to each other, and so are a notification and its word.
pub proof fn law_words_hold_states(state: State, notification: Notification)
    requires
        state.wf(),
        notification.wf(),
    ensures
        State::in_word(state.word()),
        State::of_word(state.word()) == state,
        Notification::in_word(notification.word()),
        Notification::of_word(notification.word()) == notification,
{
    lemma_pack(state.round.0, state.status.code());
    lemma_pack(notification.round.0, notification.kind.code());
}

/// A notification that is stored is there, but for one by a permit of round zero, of which there is none
/// before all rounds have come.
pub proof fn law_stored_is_there(notification: Notification)
    requires
        notification.wf(),
    ensures
        notification.round != Round(0) || notification.kind == NotificationKind::All
            ==> notification.stored() == Some(notification),
{
}

/// A new round has no permit.
pub proof fn law_new_round_has_no_permit(state: State)
    requires
        state.wf(),
    ensures
        state.renewed().status == Status::Idle,
        state.renewed().round == state.round.succ(),
        state.renewed().round != state.round,
{
}

} // verus!
