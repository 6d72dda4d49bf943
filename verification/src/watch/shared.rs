//! What senders and receivers of a channel share.

use crate::atomic::MemoryOrder;
use crate::notify::memory::{Memory, Notify};
use crate::notify::notified::{Notified, Stage};
use crate::notify::state::{NotificationKind, Round, State, Status, ROUND_UNIT};
use crate::task::Poll;
use crate::watch::lend::Ref;
use crate::watch::publish::Publishing;
use crate::watch::table::{Cells, Slot, Table, Version, ROW};
use vstd::prelude::*;

verus! {

/// What is known of a [Shared].
#[verifier::ext_equal]
pub struct Board<T, W> {
    pub cells: Cells<T>,
    /// The free slots, the one on top first.
    pub frees: Seq<usize>,
    /// How many have borrowed the value of each slot.
    pub loans: Seq<nat>,
    /// Those who wait for changes.
    pub changes: Memory<W>,
    /// Those who wait for all receivers to be gone.
    pub closed: Memory<W>,
    pub senders: usize,
    pub receivers: usize,
}

impl<T, W> Board<T, W> {
    /// The latest value.
    pub open spec fn value(self) -> T {
        self.cells.slot(self.cells.latest).value->Some_0
    }

    /// The version of the latest value.
    pub open spec fn version(self) -> Version {
        self.cells.slot(self.cells.latest).version
    }

    /// How often the channel itself holds the value of a slot.
    pub open spec fn held(self, slot: usize) -> nat {
        if self.cells.latest == slot {
            1
        } else {
            0
        }
    }

    /// Whether `slot` is counted as it should be.
    pub open spec fn slot_wf(self, slot: usize) -> bool {
        let cells = self.cells.slot(slot);
        &&& cells.refs == self.held(slot) + self.loans[slot as int]
        &&& cells.refs == 0 <==> self.frees.contains(slot)
        &&& cells.value is Some <==> cells.refs > 0
        &&& cells.version.0 <= self.version().0
    }

    /// The `i`-th free slot is linked to the one after it.
    pub open spec fn chained(self, i: int) -> bool {
        &&& self.cells.has(self.frees[i])
        &&& self.cells.slot(self.frees[i]).frees == if i + 1 < self.frees.len() {
            Some(self.frees[i + 1])
        } else {
            None
        }
    }

    pub open spec fn slots_wf(self) -> bool {
        &&& self.cells.slots.len() <= usize::MAX / 2
        &&& self.loans.len() == self.cells.slots.len()
        &&& self.cells.has(self.cells.latest)
        &&& self.frees.no_duplicates()
        &&& self.cells.head == if self.frees.len() > 0 {
            Some(self.frees[0])
        } else {
            None
        }
        &&& forall|i: int| 0 <= i < self.frees.len() ==> #[trigger] self.chained(i)
        &&& forall|slot: usize| self.cells.has(slot) ==> #[trigger] self.slot_wf(slot)
    }

    /// Whether nothing but a notification of all waiters has come to a
    /// [Notify](crate::notify::memory::Notify).
    pub open spec fn plain(m: Memory<W>) -> bool {
        m.quiet() && m.state.status != Status::Notified
    }

    pub open spec fn wf(self) -> bool {
        &&& self.slots_wf()
        &&& self.cells.closed <==> self.senders == 0
        &&& Board::<T, W>::plain(self.changes)
        &&& Board::<T, W>::plain(self.closed)
    }

    /// Whether one more may borrow the latest value.
    pub open spec fn can_lend(self) -> bool {
        self.cells.slot(self.cells.latest).refs < usize::MAX
    }

    /// Whether there is room for one more value, and a version for it.
    pub open spec fn can_publish(self) -> bool {
        &&& self.can_lend()
        &&& self.version().0 < u64::MAX
        &&& self.frees.len() == 0 ==> self.cells.slots.len() + ROW <= usize::MAX / 2
    }

    /// Whether this reference is to a value that was borrowed and not given back.
    pub open spec fn lends(self, r: Ref) -> bool {
        self.cells.has(r.slot) && self.loans[r.slot as int] > 0
    }

    /// What a borrow of the latest value makes of the board.
    pub open spec fn borrowed(self) -> Board<T, W> {
        let slot = self.cells.latest;
        Board {
            cells: self.cells.retained(slot),
            loans: self.loans.update(slot as int, (self.loans[slot as int] + 1) as nat),
            ..self
        }
    }

    /// The reference that a borrow returns to somebody who has seen this version.
    pub open spec fn lent(self, seen: Version) -> Ref {
        Ref {
            slot: self.cells.latest,
            closed: self.cells.closed,
            changed: seen != self.version(),
        }
    }

    /// What giving the value of a slot back makes of the board.
    pub open spec fn returned(self, slot: usize) -> Board<T, W> {
        Board {
            cells: self.cells.released(slot),
            frees: if self.cells.slot(slot).refs == 1 {
                seq![slot] + self.frees
            } else {
                self.frees
            },
            loans: self.loans.update(slot as int, (self.loans[slot as int] - 1) as nat),
            ..self
        }
    }

    /// The slot of the next value.
    pub open spec fn vacancy(self) -> usize {
        self.cells.vacancy()
    }

    /// The board with one more row, if no slot is free.
    pub open spec fn with_vacancy(self) -> Board<T, W> {
        if self.frees.len() > 0 {
            self
        } else {
            let base = self.cells.slots.len();
            Board {
                cells: Cells {
                    head: Some(base as usize),
                    ..self.cells.with_row().linked(base as usize, (base + ROW - 1) as usize)
                },
                frees: Seq::new(ROW as nat, |i: int| (base + i) as usize),
                loans: self.loans + Seq::new(ROW as nat, |i: int| 0nat),
                ..self
            }
        }
    }

    /// What publishing a value makes of the board: it is the latest one in a slot that was free, with
    /// the version after that of the value before, which the channel holds no longer. All who wait
    /// for changes are notified.
    pub open spec fn published(self, value: T) -> Board<T, W> {
        let b = self.with_vacancy();
        let slot = b.frees[0];
        let latest = self.cells.latest;
        let version = Version((self.version().0 + 1) as u64);
        let cells = Cells {
            slots: b.cells.slots.update(
                slot as int,
                Slot { refs: 1, frees: None, value: Some(value), version },
            ),
            head: b.cells.slot(slot).frees,
            latest: slot,
            closed: b.cells.closed,
        };
        Board {
            cells: cells.released(latest),
            frees: if self.loans[latest as int] == 0 {
                seq![latest] + b.frees.drop_first()
            } else {
                b.frees.drop_first()
            },
            changes: self.changes.notified_all(),
            ..b
        }
    }
}

/// What senders and receivers of a channel share.
pub struct Shared<T, W> {
    table: Table<T>,
    changes: Notify<W>,
    closed: Notify<W>,
    senders: usize,
    receivers: usize,
    frees: Ghost<Seq<usize>>,
    loans: Ghost<Seq<nat>>,
}

impl<T, W> View for Shared<T, W> {
    type V = Board<T, W>;

    closed spec fn view(&self) -> Board<T, W> {
        Board {
            cells: self.table@,
            frees: self.frees@,
            loans: self.loans@,
            changes: self.changes@,
            closed: self.closed@,
            senders: self.senders,
            receivers: self.receivers,
        }
    }
}

impl<T, W> Shared<T, W> {
    pub closed spec fn wf(&self) -> bool {
        &&& self@.wf()
        &&& self.table.wf()
        &&& self.changes.wf()
        &&& self.closed.wf()
    }

    /// What the board of a well-formed [Shared] is like.
    pub proof fn lemma_wf(&self)
        requires
            self.wf(),
        ensures
            self@.wf(),
            self@.changes.wf(),
            self@.closed.wf(),
    {
        self.changes.lemma_wf();
        self.closed.lemma_wf();
    }

    /// A channel with one sender and one receiver.
    pub fn new(version: Version, value: T) -> (shared: Self)
        ensures
            shared.wf(),
            shared@.value() == value,
            shared@.version() == version,
            !shared@.cells.closed,
            shared@.senders == 1,
            shared@.receivers == 1,
            shared@.cells.latest == 0,
            shared@.cells.slots.len() == ROW,
            shared@.loans =~= Seq::new(ROW as nat, |i: int| 0nat),
            shared@.frees =~= Seq::new((ROW - 1) as nat, |i: int| (i + 1) as usize),
            shared@.changes.queue.len() == 0,
            shared@.closed.queue.len() == 0,
            shared@.changes.state == (State { round: Round(ROUND_UNIT), status: Status::Idle }),
            shared@.closed.state == (State { round: Round(ROUND_UNIT), status: Status::Idle }),
    {
        let mut table = Table::new(value, version);
        table.add_slots(1, ROW - 1);
        let shared = Shared {
            table,
            changes: Notify::new(),
            closed: Notify::new(),
            senders: 1,
            receivers: 1,
            frees: Ghost(Seq::new((ROW - 1) as nat, |i: int| (i + 1) as usize)),
            loans: Ghost(Seq::new(ROW as nat, |i: int| 0nat)),
        };
        proof {
            let b = shared@;
            assert forall|i: int| 0 <= i < b.frees.len() implies #[trigger] b.chained(i) by {}
            assert forall|slot: usize| b.cells.has(slot) implies #[trigger] b.slot_wf(slot) by {
                if slot > 0 {
                    assert(b.frees[slot - 1] == slot);
                }
            }
        }
        shared
    }

    /// Borrows the latest value, for somebody who has seen the value of this version.
    pub fn latest(&mut self, seen: Version) -> (latest: Ref)
        requires
            old(self).wf(),
            seen.0 <= old(self)@.version().0,
            old(self)@.can_lend(),
        ensures
            final(self).wf(),
            final(self)@ =~= old(self)@.borrowed(),
            latest == old(self)@.lent(seen),
    {
        let ghost b = self@;
        assert(b.slot_wf(b.cells.latest));
        let latest = self.table.latest(seen);
        proof {
            self.loans@ = self.loans@.update(
                latest.slot as int,
                (self.loans@[latest.slot as int] + 1) as nat,
            );
            lemma_borrowed(b);
        }
        latest
    }

    /// Gives a value back. Once nobody holds it, it is dropped.
    pub fn release(&mut self, r: Ref)
        requires
            old(self).wf(),
            old(self)@.lends(r),
        ensures
            final(self).wf(),
            final(self)@ =~= old(self)@.returned(r.slot),
    {
        let ghost b = self@;
        assert(b.slot_wf(r.slot));
        self.table.release(r.slot);
        proof {
            self.frees@ = b.returned(r.slot).frees;
            self.loans@ = b.returned(r.slot).loans;
            lemma_returned(b, r.slot);
        }
    }
}

/// A borrow keeps the counts right.
pub proof fn lemma_borrowed<T, W>(b: Board<T, W>)
    requires
        b.wf(),
        b.cells.slot(b.cells.latest).refs < usize::MAX,
    ensures
        b.borrowed().wf(),
{
    let after = b.borrowed();
    assert(b.slot_wf(b.cells.latest));
    assert forall|i: int| 0 <= i < after.frees.len() implies #[trigger] after.chained(i) by {
        assert(b.chained(i));
    }
    assert forall|slot: usize| after.cells.has(slot) implies #[trigger] after.slot_wf(slot) by {
        assert(b.slot_wf(slot));
    }
}

/// Giving a value back keeps the counts right.
pub proof fn lemma_returned<T, W>(b: Board<T, W>, slot: usize)
    requires
        b.wf(),
        b.cells.has(slot),
        b.loans[slot as int] > 0,
    ensures
        b.returned(slot).wf(),
{
    let after = b.returned(slot);
    assert(b.slot_wf(slot));
    let freed = b.cells.slot(slot).refs == 1;
    assert forall|i: int| 0 <= i < after.frees.len() implies #[trigger] after.chained(i) by {
        if freed {
            if i > 0 {
                assert(b.chained(i - 1));
                assert(b.frees[i - 1] != slot);
            }
        } else {
            assert(b.chained(i));
        }
    }
    assert forall|other: usize| after.cells.has(other) implies #[trigger] after.slot_wf(other) by {
        assert(b.slot_wf(other));
        assert(b.slot_wf(b.cells.latest));
        if freed {
            if other == slot {
                assert(after.frees[0] == slot);
            } else if b.frees.contains(other) {
                let i = b.frees.index_of(other);
                assert(after.frees[i + 1] == other);
            } else if after.frees.contains(other) {
                let i = after.frees.index_of(other);
                assert(b.frees[i - 1] == other);
            }
        }
    }
}

/// A row more keeps the counts right, and leaves a free slot.
pub proof fn lemma_with_vacancy<T, W>(b: Board<T, W>)
    requires
        b.wf(),
        b.frees.len() == 0 ==> b.cells.slots.len() + ROW <= usize::MAX / 2,
    ensures
        b.with_vacancy().wf(),
        b.with_vacancy().frees.len() > 0,
        b.with_vacancy().frees[0] == b.vacancy(),
        b.with_vacancy().version() == b.version(),
        b.cells.allocated() =~= (Cells {
            head: b.with_vacancy().cells.slot(b.vacancy()).frees,
            ..b.with_vacancy().cells.with_slot(
                b.vacancy(),
                Slot { frees: None, ..b.with_vacancy().cells.slot(b.vacancy()) },
            )
        }),
{
    let after = b.with_vacancy();
    let base = b.cells.slots.len();
    if b.frees.len() == 0 {
        assert(after.version() == b.version());
        assert forall|i: int| 0 <= i < after.frees.len() implies #[trigger] after.chained(i) by {}
        assert forall|slot: usize| after.cells.has(slot) implies #[trigger] after.slot_wf(slot) by {
            if slot < base {
                assert(b.slot_wf(slot));
                if after.frees.contains(slot) {
                    let i = after.frees.index_of(slot);
                }
            } else {
                assert(after.frees[slot - base] == slot);
            }
        }
    }
}

/// Publishing keeps the counts right.
pub proof fn lemma_published<T, W>(b: Board<T, W>, value: T)
    requires
        b.wf(),
        b.changes.wf(),
        b.frees.len() == 0 ==> b.cells.slots.len() + ROW <= usize::MAX / 2,
        b.version().0 < u64::MAX,
    ensures
        b.published(value).slots_wf(),
        b.published(value).value() == value,
        b.published(value).version().0 == b.version().0 + 1,
        b.published(value).cells.closed == b.cells.closed,
{
    lemma_with_vacancy(b);
    let v = b.with_vacancy();
    let slot = v.frees[0];
    let latest = b.cells.latest;
    let after = b.published(value);
    assert(v.chained(0));
    assert(v.frees.contains(slot));
    assert(v.slot_wf(slot));
    assert(v.slot_wf(latest));
    let freed = b.loans[latest as int] == 0;
    let rest = v.frees.drop_first();
    assert forall|i: int| 0 <= i < after.frees.len() implies #[trigger] after.chained(i) by {
        let j = if freed {
            i
        } else {
            i + 1
        };
        if j > 0 {
            assert(v.chained(j));
            assert(v.frees[j] != slot);
            assert(v.frees.contains(v.frees[j]));
            assert(v.frees[j] != latest);
        }
        if freed && rest.len() > 0 {
            assert(v.frees[1] == rest[0]);
        }
    }
    assert(after.frees.no_duplicates()) by {
        assert(!rest.contains(latest)) by {
            if rest.contains(latest) {
                let i = rest.index_of(latest);
                assert(v.frees[i + 1] == latest);
            }
        }
    }
    assert forall|other: usize| after.cells.has(other) implies #[trigger] after.slot_wf(other) by {
        assert(v.slot_wf(other));
        assert(rest.contains(other) <==> v.frees.contains(other) && other != slot) by {
            if rest.contains(other) {
                assert(v.frees[rest.index_of(other) + 1] == other);
            }
            if v.frees.contains(other) && other != slot {
                assert(rest[v.frees.index_of(other) - 1] == other);
            }
        }
        if freed {
            if after.frees.contains(other) && other != latest {
                assert(rest[after.frees.index_of(other) - 1] == other);
            }
            if rest.contains(other) {
                assert(after.frees[rest.index_of(other) + 1] == other);
            }
            assert(after.frees[0] == latest);
        }
    }
}

impl<T, W> Shared<T, W> {
    /// Publishes a value. Returns the wakers of those who wait for changes, which are to be woken in
    /// this order.
    pub fn publish(&mut self, value: T) -> (woken: Vec<W>)
        requires
            old(self).wf(),
            old(self)@.senders > 0,
            old(self)@.can_publish(),
        ensures
            final(self).wf(),
            final(self)@ =~= old(self)@.published(value),
            woken@ == old(self)@.changes.woken_all(),
    {
        let ghost b = self@;
        let ghost v = b.with_vacancy();
        let ghost slot = b.vacancy();
        let ghost latest = b.cells.latest;
        proof {
            self.lemma_wf();
            lemma_with_vacancy(b);
            lemma_published(b, value);
            assert(v.chained(0));
            assert(v.frees.contains(slot));
            assert(v.slot_wf(slot));
            assert(v.slot_wf(latest));
        }
        let mut publishing = Publishing::new(value);
        publishing.take_slot(&mut self.table);
        publishing.store(&mut self.table);
        publishing.replace(&mut self.table);
        let woken = self.changes.notify_all();
        publishing.finish(&mut self.table);
        assert(self.table@ =~= b.published(value).cells);
        proof {
            self.frees@ = b.published(value).frees;
            self.loans@ = v.loans;
        }
        woken
    }
}

/// What was borrowed and given back at once leaves no trace.
pub proof fn lemma_borrowed_returned<T, W>(b: Board<T, W>)
    requires
        b.wf(),
        b.cells.slot(b.cells.latest).refs < usize::MAX,
    ensures
        b.borrowed().returned(b.cells.latest) =~= b,
        b.borrowed().wf(),
        b.borrowed().lends(b.lent(b.version())),
{
    assert(b.slot_wf(b.cells.latest));
    lemma_borrowed(b);
    assert(b.borrowed().returned(b.cells.latest).cells.slots =~= b.cells.slots);
    assert(b.borrowed().returned(b.cells.latest).loans =~= b.loans);
}

impl<T, W> Shared<T, W> {
    /// The value of a reference.
    pub fn value(&self, r: &Ref) -> (value: &T)
        requires
            self.wf(),
            self@.lends(*r),
        ensures
            *value == self@.cells.slot(r.slot).value->Some_0,
    {
        proof {
            assert(self@.slot_wf(r.slot));
        }
        r.as_ref(&self.table)
    }

    /// The version of a reference.
    pub fn version(&self, r: &Ref) -> (version: Version)
        requires
            self.wf(),
            self@.lends(*r),
        ensures
            version == self@.cells.slot(r.slot).version,
    {
        r.version(&self.table)
    }

    /// How many receivers there are.
    pub fn receivers(&self) -> (receivers: usize)
        ensures
            receivers == self@.receivers,
    {
        self.receivers
    }

    /// How many senders there are.
    pub fn senders(&self) -> (senders: usize)
        ensures
            senders == self@.senders,
    {
        self.senders
    }

    /// Whether one more may borrow the latest value.
    pub fn can_lend(&self) -> (can_lend: bool)
        requires
            self.wf(),
        ensures
            can_lend == self@.can_lend(),
    {
        let (latest, _) = self.table.load_latest(MemoryOrder::Relaxed);
        self.table.load_refs(latest) < usize::MAX
    }

    /// Whether there is room for one more value, and a version for it.
    pub fn can_publish(&self) -> (can_publish: bool)
        requires
            self.wf(),
        ensures
            can_publish == self@.can_publish(),
    {
        let (latest, _) = self.table.load_latest(MemoryOrder::Relaxed);
        self.can_lend() && self.table.version(latest).0 < u64::MAX && (self.table.load_head(
            MemoryOrder::Relaxed,
        ).is_some() || self.table.len() <= usize::MAX / 2 - ROW)
    }

    /// Counts one more sender.
    pub fn new_sender(&mut self)
        requires
            old(self).wf(),
            0 < old(self)@.senders < usize::MAX,
        ensures
            final(self).wf(),
            final(self)@ =~= (Board {
                senders: (old(self)@.senders + 1) as usize,
                ..old(self)@
            }),
    {
        self.senders = self.senders + 1;
        proof {
            lemma_counted(old(self)@, self@);
        }
    }

    /// Counts one sender less. The last one closes the channel and notifies all who wait for
    /// changes. Returns the wakers to be woken in this order.
    pub fn drop_sender(&mut self) -> (woken: Vec<W>)
        requires
            old(self).wf(),
            old(self)@.senders > 0,
        ensures
            final(self).wf(),
            final(self)@ =~= old(self)@.sender_dropped(),
            woken@ == if old(self)@.senders == 1 {
                old(self)@.changes.woken_all()
            } else {
                Seq::empty()
            },
    {
        let ghost b = self@;
        let senders: usize = self.senders;
        self.senders = senders - 1;
        if senders != 1 {
            proof {
                lemma_counted(b, self@);
            }
            return Vec::new();
        }
        self.table.close();
        let woken = self.changes.notify_all();
        proof {
            lemma_counted(b, self@);
        }
        woken
    }

    /// Counts one more receiver.
    pub fn new_receiver(&mut self)
        requires
            old(self).wf(),
            old(self)@.receivers < usize::MAX,
        ensures
            final(self).wf(),
            final(self)@ =~= (Board {
                receivers: (old(self)@.receivers + 1) as usize,
                ..old(self)@
            }),
    {
        self.receivers = self.receivers + 1;
        proof {
            lemma_counted(old(self)@, self@);
        }
    }

    /// Counts one receiver less. The last one notifies all who wait for that. Returns the wakers to be
    /// woken in this order.
    pub fn drop_receiver(&mut self) -> (woken: Vec<W>)
        requires
            old(self).wf(),
            old(self)@.receivers > 0,
        ensures
            final(self).wf(),
            final(self)@ =~= old(self)@.receiver_dropped(),
            woken@ == if old(self)@.receivers == 1 {
                old(self)@.closed.woken_all()
            } else {
                Seq::empty()
            },
    {
        let ghost b = self@;
        let receivers: usize = self.receivers;
        self.receivers = receivers - 1;
        let mut woken = Vec::new();
        if receivers == 1 {
            woken = self.closed.notify_all();
        }
        proof {
            lemma_counted(b, self@);
        }
        woken
    }

    /// Borrows the latest value if somebody who has seen the value of this version has not seen it.
    /// It is an error if there is none and there will be none.
    pub fn try_changed(&mut self, seen: Version) -> (changed: Result<Option<Ref>, RecvError>)
        requires
            old(self).wf(),
            seen.0 <= old(self)@.version().0,
            old(self)@.can_lend(),
        ensures
            final(self).wf(),
            changed == old(self)@.news(seen),
            final(self)@ =~= if seen != old(self)@.version() {
                old(self)@.borrowed()
            } else {
                old(self)@
            },
    {
        proof {
            lemma_borrowed_returned(self@);
        }
        let latest = self.latest(seen);
        if latest.has_changed() {
            Ok(Some(latest))
        } else if latest.closed {
            self.release(latest);
            Err(RecvError(()))
        } else {
            self.release(latest);
            Ok(None)
        }
    }

    /// Lets the latest value go, once nobody is left.
    pub fn drop(&mut self)
        requires
            old(self).wf(),
            old(self)@.senders == 0,
            old(self)@.receivers == 0,
            forall|slot: int| 0 <= slot < old(self)@.loans.len() ==> old(self)@.loans[slot] == 0,
        ensures
            final(self)@ =~= (Board {
                cells: old(self)@.cells.released(old(self)@.cells.latest),
                ..old(self)@
            }),
            forall|slot: int|
                0 <= slot < final(self)@.cells.slots.len() ==> (
                #[trigger] final(self)@.cells.slots[slot]).value is None,
    {
        let ghost b = self@;
        proof {
            assert(b.slot_wf(b.cells.latest));
            assert forall|slot: int|
                0 <= slot < b.cells.slots.len() && slot != b.cells.latest implies (
            #[trigger] b.cells.slots[slot]).value is None by {
                assert(b.slot_wf(slot as usize));
            }
        }
        let (slot, _) = self.table.load_latest(MemoryOrder::Relaxed);
        self.table.release(slot);
    }

    /// Somebody who waits for changes, attached to the current round.
    pub fn await_changes(&mut self) -> (notified: Notified<W>)
        requires
            old(self).wf(),
        ensures
            final(self).wf(),
            final(self)@ =~= (Board { changes: old(self)@.changes.with_room(), ..old(self)@ }),
            notified.waiter == old(self)@.changes.vacancy(),
            notified.stage == Stage::Init,
            notified.round == old(self)@.changes.state.round,
            notified.wf(final(self)@.changes),
    {
        let notified = self.changes.notified();
        proof {
            lemma_counted(old(self)@, self@);
        }
        notified
    }

    /// Polls somebody who waits for changes.
    pub fn poll_changes(&mut self, notified: &mut Notified<W>, waker: W) -> (poll: Poll<()>)
        requires
            old(self).wf(),
            old(notified).wf(old(self)@.changes),
        ensures
            final(self).wf(),
            final(self)@ =~= (Board {
                changes: old(notified).polled(old(self)@.changes, waker),
                ..old(self)@
            }),
            final(notified).wf(final(self)@.changes),
            final(notified).waiter == old(notified).waiter,
            final(notified).round == old(notified).round,
            if old(notified).polls_ready(old(self)@.changes) {
                poll == Poll::Ready(()) && final(notified).stage == Stage::Finished
            } else {
                poll == Poll::<()>::Pending && final(notified).stage == Stage::Waiting
            },
    {
        let poll = notified.poll(&mut self.changes, waker);
        proof {
            lemma_counted(old(self)@, self@);
        }
        poll
    }

    /// Sees whether somebody who waits for changes is ready.
    pub fn try_poll_changes(&mut self, notified: &mut Notified<W>) -> (ready: bool)
        requires
            old(self).wf(),
            old(notified).wf(old(self)@.changes),
            old(notified).stage != Stage::Init,
        ensures
            final(self).wf(),
            final(notified).wf(final(self)@.changes),
            final(notified).waiter == old(notified).waiter,
            final(notified).round == old(notified).round,
            ready == old(notified).polls_ready(old(self)@.changes),
            if ready {
                &&& final(notified).stage == Stage::Finished
                &&& final(self)@ =~= (Board {
                    changes: old(self)@.changes.with_notification(old(notified).waiter, None),
                    ..old(self)@
                })
            } else {
                &&& *final(notified) == *old(notified)
                &&& final(self)@ =~= old(self)@
            },
    {
        let ready = notified.try_poll(&mut self.changes);
        proof {
            lemma_counted(old(self)@, self@);
        }
        ready
    }

    /// Lets somebody go who has waited for changes.
    pub fn leave_changes(&mut self, notified: Notified<W>)
        requires
            old(self).wf(),
            notified.wf(old(self)@.changes),
            notified.stage != Stage::Init ==> !(old(self)@.changes.waiter(
                notified.waiter,
            ).notification matches Some(notification) && notification.kind
                == NotificationKind::One),
        ensures
            final(self).wf(),
            final(self)@ =~= (Board {
                changes: notified.dropped(old(self)@.changes).left(notified.waiter),
                ..old(self)@
            }),
    {
        proof {
            self.changes.lemma_wf();
            assert(self.changes@.home_wf(notified.waiter));
        }
        let waker = notified.drop(&mut self.changes);
        proof {
            assert(waker is None);
            lemma_counted(old(self)@, self@);
        }
    }

    /// Somebody who waits for all receivers to be gone, attached to the current round.
    pub fn await_closed(&mut self) -> (notified: Notified<W>)
        requires
            old(self).wf(),
        ensures
            final(self).wf(),
            final(self)@ =~= (Board { closed: old(self)@.closed.with_room(), ..old(self)@ }),
            notified.waiter == old(self)@.closed.vacancy(),
            notified.stage == Stage::Init,
            notified.round == old(self)@.closed.state.round,
            notified.wf(final(self)@.closed),
    {
        let notified = self.closed.notified();
        proof {
            lemma_counted(old(self)@, self@);
        }
        notified
    }

    /// Polls somebody who waits for all receivers to be gone.
    pub fn poll_closed(&mut self, notified: &mut Notified<W>, waker: W) -> (poll: Poll<()>)
        requires
            old(self).wf(),
            old(notified).wf(old(self)@.closed),
        ensures
            final(self).wf(),
            final(self)@ =~= (Board {
                closed: old(notified).polled(old(self)@.closed, waker),
                ..old(self)@
            }),
            final(notified).wf(final(self)@.closed),
            final(notified).waiter == old(notified).waiter,
            final(notified).round == old(notified).round,
            if old(notified).polls_ready(old(self)@.closed) {
                poll == Poll::Ready(()) && final(notified).stage == Stage::Finished
            } else {
                poll == Poll::<()>::Pending && final(notified).stage == Stage::Waiting
            },
    {
        let poll = notified.poll(&mut self.closed, waker);
        proof {
            lemma_counted(old(self)@, self@);
        }
        poll
    }

    /// Sees whether somebody who waits for all receivers to be gone is ready.
    pub fn try_poll_closed(&mut self, notified: &mut Notified<W>) -> (ready: bool)
        requires
            old(self).wf(),
            old(notified).wf(old(self)@.closed),
            old(notified).stage != Stage::Init,
        ensures
            final(self).wf(),
            final(notified).wf(final(self)@.closed),
            final(notified).waiter == old(notified).waiter,
            final(notified).round == old(notified).round,
            ready == old(notified).polls_ready(old(self)@.closed),
            if ready {
                &&& final(notified).stage == Stage::Finished
                &&& final(self)@ =~= (Board {
                    closed: old(self)@.closed.with_notification(old(notified).waiter, None),
                    ..old(self)@
                })
            } else {
                &&& *final(notified) == *old(notified)
                &&& final(self)@ =~= old(self)@
            },
    {
        let ready = notified.try_poll(&mut self.closed);
        proof {
            lemma_counted(old(self)@, self@);
        }
        ready
    }

    /// Lets somebody go who has waited for all receivers to be gone.
    pub fn leave_closed(&mut self, notified: Notified<W>)
        requires
            old(self).wf(),
            notified.wf(old(self)@.closed),
            notified.stage != Stage::Init ==> !(old(self)@.closed.waiter(
                notified.waiter,
            ).notification matches Some(notification) && notification.kind
                == NotificationKind::One),
        ensures
            final(self).wf(),
            final(self)@ =~= (Board {
                closed: notified.dropped(old(self)@.closed).left(notified.waiter),
                ..old(self)@
            }),
    {
        proof {
            self.closed.lemma_wf();
            assert(self.closed@.home_wf(notified.waiter));
        }
        let waker = notified.drop(&mut self.closed);
        proof {
            assert(waker is None);
            lemma_counted(old(self)@, self@);
        }
    }
}

impl<T, W> Board<T, W> {
    /// What one sender less makes of the board.
    pub open spec fn sender_dropped(self) -> Board<T, W> {
        if self.senders == 1 {
            Board {
                cells: Cells { closed: true, ..self.cells },
                changes: self.changes.notified_all(),
                senders: 0,
                ..self
            }
        } else {
            Board { senders: (self.senders - 1) as usize, ..self }
        }
    }

    /// What one receiver less makes of the board.
    pub open spec fn receiver_dropped(self) -> Board<T, W> {
        Board {
            receivers: (self.receivers - 1) as usize,
            closed: if self.receivers == 1 {
                self.closed.notified_all()
            } else {
                self.closed
            },
            ..self
        }
    }

    /// What there is for somebody who has seen the value of this version.
    pub open spec fn news(self, seen: Version) -> Result<Option<Ref>, RecvError> {
        if seen != self.version() {
            Ok(Some(self.lent(seen)))
        } else if self.cells.closed {
            Err(RecvError(()))
        } else {
            Ok(None)
        }
    }
}

/// The slots do not depend on who is counted or notified.
proof fn lemma_counted<T, W>(b: Board<T, W>, after: Board<T, W>)
    requires
        b.wf(),
        after.cells.slots == b.cells.slots,
        after.cells.head == b.cells.head,
        after.cells.latest == b.cells.latest,
        after.frees == b.frees,
        after.loans == b.loans,
    ensures
        after.slots_wf(),
{
    assert forall|i: int| 0 <= i < after.frees.len() implies #[trigger] after.chained(i) by {
        assert(b.chained(i));
    }
    assert forall|slot: usize| after.cells.has(slot) implies #[trigger] after.slot_wf(slot) by {
        assert(b.slot_wf(slot));
    }
}

/// Error of a [Sender](crate::watch::channel::Sender) to tell that there are no receivers.
#[derive(Debug, PartialEq, Eq)]
pub struct SendError<T>(pub T);

impl<T> SendError<T> {
    /// The value that was not sent.
    pub fn into_value(self) -> (value: T)
        ensures
            value == self.0,
    {
        self.0
    }
}

/// Error of a [Receiver](crate::watch::channel::Receiver) to tell that all senders are gone.
#[derive(Debug, PartialEq, Eq)]
pub struct RecvError(pub ());

} // verus!
