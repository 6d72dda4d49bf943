//! What holds of a channel as a whole.

use crate::notify::laws::{
    calm, law_notify_all_reaches_attached, law_notifying_keeps_waiters, lemma_woken_all_contains,
};
use crate::notify::memory::Memory;
use crate::notify::notified::Notified;
use crate::notify::state::Status;
use crate::watch::channel::{
    attendant, attended, attending, attends, polled_on, Changing, Closing, Receiver,
};
use crate::watch::lend::Ref;
use crate::watch::shared::{
    lemma_borrowed, lemma_borrowed_returned, lemma_published, lemma_returned, lemma_with_vacancy,
    Board, RecvError,
};
use crate::watch::table::{Version, ROW};
use vstd::prelude::*;

verus! {

/// A channel between calls, with a sender.
pub open spec fn open<T, W>(b: Board<T, W>) -> bool {
    &&& b.wf()
    &&& b.senders > 0
    &&& calm(b.changes)
    &&& calm(b.closed)
}

/// What was published is what is read: the latest value is the one that was published last, and it is
/// new to every receiver.
pub proof fn law_latest_is_published_last<T, W>(b: Board<T, W>, value: T, receiver: Receiver)
    requires
        open(b),
        b.can_publish(),
        receiver.wf(b),
    ensures
        ({
            let after = b.published(value);
            let latest = after.lent(receiver.seen);
            &&& after.cells.slot(latest.slot).value == Some(value)
            &&& latest.changed
            &&& !latest.closed
            &&& receiver.wf(after)
        }),
{
    lemma_published(b, value);
    let after = b.published(value);
    assert(after.slot_wf(after.cells.latest));
}

/// Versions are monotonic: each value that is published has the version after that of the value before.
pub proof fn law_versions_are_monotonic<T, W>(b: Board<T, W>, value: T)
    requires
        open(b),
        b.can_publish(),
    ensures
        b.published(value).version().0 == b.version().0 + 1,
        b.borrowed().version() == b.version(),
        b.sender_dropped().version() == b.version(),
        b.receiver_dropped().version() == b.version(),
{
    lemma_published(b, value);
    assert(b.slot_wf(b.cells.latest));
}

/// Whoever subscribes has seen the value that is the latest one then, and sees all that come after it.
pub proof fn law_subscribe_to_future_changes<T, W>(b: Board<T, W>, value: T, receiver: Receiver)
    requires
        open(b),
        b.can_publish(),
        receiver.seen == b.version(),
    ensures
        !b.lent(receiver.seen).changed,
        b.published(value).lent(receiver.seen).changed,
{
    lemma_published(b, value);
}

/// A value that was seen is not new any longer.
pub proof fn law_seen_is_not_changed<T, W>(b: Board<T, W>)
    ensures
        !b.lent(b.version()).changed,
        b.news(b.version()) == if b.cells.closed {
            Err::<Option<Ref>, RecvError>(RecvError(()))
        } else {
            Ok(None)
        },
{
}

/// The last value is always observed: once all senders are gone, a receiver that has not seen it gets
/// it, and then, and not before, the error.
pub proof fn law_final_value_is_observed<T, W>(b: Board<T, W>, receiver: Receiver)
    requires
        open(b),
        b.senders == 1,
        receiver.wf(b),
        receiver.seen != b.version(),
    ensures
        ({
            let closed = b.sender_dropped();
            &&& closed.news(receiver.seen) == Ok::<Option<Ref>, RecvError>(
                Some(closed.lent(receiver.seen)),
            )
            &&& closed.cells.slot(closed.lent(receiver.seen).slot).value == Some(b.value())
            &&& closed.news(closed.version()) == Err::<Option<Ref>, RecvError>(RecvError(()))
        }),
{
    assert(b.slot_wf(b.cells.latest));
}

/// A value that somebody has borrowed stays, whatever is published meanwhile and whoever else borrows
/// or gives back.
pub proof fn law_borrowed_value_is_kept<T, W>(b: Board<T, W>, r: Ref, value: T, other: Ref)
    requires
        open(b),
        b.can_publish(),
        b.lends(r),
        b.lends(other),
        other.slot == r.slot ==> b.loans[r.slot as int] > 1,
    ensures
        b.cells.slot(r.slot).value is Some,
        kept(b, b.published(value), r),
        kept(b, b.borrowed(), r),
        kept(b, b.returned(other.slot), r),
        kept(b, b.sender_dropped(), r),
        kept(b, b.receiver_dropped(), r),
{
    lemma_published(b, value);
    lemma_with_vacancy(b);
    assert(b.slot_wf(r.slot));
    assert(b.slot_wf(other.slot));
    let v = b.with_vacancy();
    assert(v.slot_wf(r.slot));
    assert(v.frees.contains(v.frees[0]));
}

/// The value of a reference is the one that was borrowed.
pub open spec fn kept<T, W>(b: Board<T, W>, after: Board<T, W>, r: Ref) -> bool {
    &&& after.lends(r)
    &&& after.cells.slot(r.slot).value == b.cells.slot(r.slot).value
    &&& after.cells.slot(r.slot).version == b.cells.slot(r.slot).version
}

/// A value is let go as soon as it is neither the latest one nor borrowed, and its slot is free.
pub proof fn law_value_is_reclaimed<T, W>(b: Board<T, W>, r: Ref)
    requires
        b.wf(),
        b.lends(r),
        b.loans[r.slot as int] == 1,
    ensures
        r.slot != b.cells.latest ==> {
            &&& b.returned(r.slot).cells.slot(r.slot).value is None
            &&& b.returned(r.slot).frees.contains(r.slot)
        },
        r.slot == b.cells.latest ==> {
            &&& b.returned(r.slot).value() == b.value()
            &&& b.returned(r.slot).cells.slot(r.slot).value is Some
        },
{
    lemma_returned(b, r.slot);
    assert(b.slot_wf(r.slot));
    assert(b.returned(r.slot).slot_wf(r.slot));
}

/// A value that nobody has borrowed is let go when the next one is published.
pub proof fn law_replaced_value_is_reclaimed<T, W>(b: Board<T, W>, value: T)
    requires
        open(b),
        b.can_publish(),
        b.loans[b.cells.latest as int] == 0,
    ensures
        b.published(value).cells.slot(b.cells.latest).value is None,
{
    lemma_published(b, value);
    lemma_with_vacancy(b);
    assert(b.slot_wf(b.cells.latest));
    assert(b.published(value).slot_wf(b.cells.latest));
}

/// No more slots are made as long as nobody has borrowed a value.
pub proof fn law_slots_are_reused<T, W>(b: Board<T, W>, value: T)
    requires
        open(b),
        b.cells.slots.len() > 1,
        forall|slot: int| 0 <= slot < b.loans.len() ==> b.loans[slot] == 0,
    ensures
        b.frees.len() > 0,
        b.published(value).cells.slots.len() == b.cells.slots.len(),
{
    let other: usize = if b.cells.latest == 0 {
        1
    } else {
        0
    };
    assert(b.slot_wf(other));
    assert(b.frees.contains(other));
    assert(b.chained(0));
    assert(b.slot_wf(b.cells.latest));
}

/// What was borrowed and given back at once leaves no trace.
pub proof fn law_borrow_leaves_no_trace<T, W>(b: Board<T, W>, seen: Version)
    requires
        b.wf(),
        b.can_lend(),
    ensures
        b.borrowed().lends(b.lent(seen)),
        b.borrowed().returned(b.lent(seen).slot) =~= b,
{
    lemma_borrowed(b);
    lemma_borrowed_returned(b);
}

/// Whoever attends a [Notify](crate::notify::memory::Notify) is notified by a notification of all.
proof fn lemma_attends<W>(notified: Notified<W>, m: Memory<W>)
    requires
        calm(m),
        attends(notified, m),
    ensures
        attends(notified, m.notified_all()),
        m.notified_all().waiter(notified.waiter).notification is Some,
{
    law_notify_all_reaches_attached(m, notified);
    law_notifying_keeps_waiters(m, notified, m.state.round);
    m.lemma_room();
    if m.state.status == Status::Waiting {
        assert(m.with_room().home(notified.waiter) == m.home(notified.waiter));
    }
}

/// No change is missed: whoever waits for one is ready once a value was published or the last sender is
/// gone, and waits on in the meantime.
pub proof fn law_no_change_is_missed<T, W>(
    b: Board<T, W>,
    changing: Changing<W>,
    seen: Version,
    value: T,
)
    requires
        open(b),
        b.can_publish(),
        seen.0 <= b.version().0,
        changing.wf(b, seen),
    ensures
        changing.wf(b.published(value), seen),
        b.published(value).news(seen) == Ok::<Option<Ref>, RecvError>(
            Some(b.published(value).lent(seen)),
        ),
        changing.wf(b.sender_dropped(), seen),
        b.senders == 1 ==> !(b.sender_dropped().news(seen) matches Ok(None)),
        changing.wf(b.borrowed(), seen),
        changing.wf(b.receiver_dropped(), seen),
{
    lemma_published(b, value);
    assert(b.slot_wf(b.cells.latest));
    if let Some(notified) = changing.notified {
        lemma_attends(notified, b.changes);
    }
}

/// Whoever waits for all receivers to be gone is ready once they are.
pub proof fn law_closing_is_not_missed<T, W>(b: Board<T, W>, closing: Closing<W>)
    requires
        b.wf(),
        calm(b.closed),
        b.receivers > 0,
        closing.wf(b),
    ensures
        closing.wf(b.receiver_dropped()),
{
    if let Some(notified) = closing.notified {
        lemma_attends(notified, b.closed);
    }
}

/// The memory is whole once somebody who was notified is gone.
proof fn lemma_attended<W>(m: Memory<W>, notified: Notified<W>)
    requires
        calm(m),
        attends(notified, m),
        m.waiter(notified.waiter).notification is Some,
    ensures
        calm(attended(Some(notified), m)),
{
    let after = attended(Some(notified), m);
    let key = notified.waiter;
    assert(m.home(key) is Out) by {
        assert(m.home_wf(key));
        if m.home(key) is Listed {
            assert(m.waits(m.queue[m.queue.index_of(key)]));
        }
    }
    assert forall|i: int| 0 <= i < after.queue.len() implies #[trigger] after.queued(i) by {
        assert(m.queued(i));
    }
    assert forall|i: int| 0 <= i < after.queue.len() implies after.waits(
        #[trigger] after.queue[i],
    ) by {
        assert(m.queued(i));
        assert(m.waits(m.queue[i]));
        assert(after.queue[i] != key);
        if after.vacant.contains(after.queue[i]) {
            let j = after.vacant.index_of(after.queue[i]);
            assert(m.vacant[j] == m.queue[i]);
        }
    }
    assert forall|other: usize| other < after.waiters.len() implies #[trigger] after.home_wf(
        other,
    ) by {
        assert(m.home_wf(other));
    }
    assert forall|other: usize| other < after.waiters.len() implies #[trigger] after.waiter(
        other,
    ).wf() by {
        assert(m.waiter(other).wf());
    }
    assert forall|i: int| 0 <= i < after.vacant.len() implies #[trigger] after.vacated(i) by {
        if i < m.vacant.len() {
            assert(m.vacated(i));
        }
    }
}

/// Whoever has polled in vain is woken: the waker of the last poll is among those that a notification of
/// all returns, which each value that is published brings about.
pub proof fn law_waiting_is_woken<W>(m: Memory<W>, notified: Option<Notified<W>>, waker: W)
    requires
        calm(m),
        m.state.status != Status::Notified,
        notified matches Some(notified) ==> attends(notified, m),
    ensures
        ({
            let polled = polled_on(notified, m, waker);
            &&& polled.waiter(attendant(notified, m)).notification is None
            &&& polled.waker(attendant(notified, m)) == Some(waker)
            &&& polled.woken_all().contains(waker)
        }),
{
    let polled = polled_on(notified, m, waker);
    let waiter = attendant(notified, m);
    match notified {
        Some(notified) if m.waiter(notified.waiter).notification is None => {
            assert(m.home_wf(waiter));
            assert(m.waits(m.queue[m.queue.index_of(waiter)]));
            assert(m.waiter(waiter).wf());
            lemma_woken_all_contains(polled, polled.queue.index_of(waiter), waker);
        },
        _ => {
            let before = attended(notified, m);
            if let Some(notified) = notified {
                lemma_attended(m, notified);
            }
            before.lemma_room();
            assert(polled.waiter(waiter).wakers[1] == Some(waker));
            assert(polled.queue[0] == waiter);
            lemma_woken_all_contains(polled, 0, waker);
        },
    }
}

/// Those who wait do not disturb each other.
pub proof fn law_waits_are_apart<W>(
    m: Memory<W>,
    notified: Notified<W>,
    other: Notified<W>,
    waker: W,
)
    requires
        calm(m),
        attends(notified, m),
        attends(other, m),
        notified.waiter != other.waiter,
    ensures
        attends(notified, attended(Some(other), m)),
        attends(notified, m.with_parked(other.waiter, waker)),
        attends(notified, attending(m, waker)),
{
    assert(m.home_wf(notified.waiter));
    m.lemma_room();
    let left = attended(Some(other), m);
    assert(left.live(notified.waiter)) by {
        if left.vacant.contains(notified.waiter) {
            let i = left.vacant.index_of(notified.waiter);
            assert(m.vacant[i] == notified.waiter);
        }
    }
    assert(m.with_room().live(notified.waiter));
    assert(m.with_room().home(notified.waiter) == m.home(notified.waiter));
    let after = attending(m, waker);
    if m.vacant.len() > 0 {
        assert(m.vacated(m.vacant.len() - 1));
    }
    assert(m.with_room().live(m.vacancy()));
    assert(notified.waiter != m.vacancy());
    assert(after.live(notified.waiter));
    assert(after.home(notified.waiter) == m.home(notified.waiter));
    assert(after.waiter(notified.waiter) == m.waiter(notified.waiter));
}

/// Whoever borrows the latest value is told that it has changed if and only if they have not seen it,
/// whether or not the channel is closed, and that it is closed if and only if all senders are gone.
pub proof fn law_changed_unless_seen<T, W>(b: Board<T, W>, seen: Version)
    requires
        b.wf(),
    ensures
        b.lent(seen).changed <==> seen.0 != b.version().0,
        b.lent(seen).closed <==> b.senders == 0,
        b.cells.slot(b.lent(seen).slot).value == Some(b.value()),
        b.cells.slot(b.lent(seen).slot).version == b.version(),
{
    assert(b.slot_wf(b.cells.latest));
}

/// There is news for somebody if and only if they have not seen the latest value. Where there is none, it
/// is an error if and only if all senders are gone.
pub proof fn law_news_unless_seen<T, W>(b: Board<T, W>, seen: Version)
    requires
        b.wf(),
    ensures
        b.news(seen) is Err <==> seen.0 == b.version().0 && b.senders == 0,
        b.news(seen) == Ok::<Option<Ref>, RecvError>(None) <==> seen.0 == b.version().0 && b.senders
            > 0,
        seen.0 != b.version().0 ==> {
            &&& b.news(seen) matches Ok(Some(r))
            &&& r.changed
            &&& r.closed == (b.senders == 0)
            &&& b.cells.slot(r.slot).value == Some(b.value())
        },
{
    assert(b.slot_wf(b.cells.latest));
}

/// Whether two boards have the same latest value.
pub open spec fn same_latest<T, W>(b: Board<T, W>, after: Board<T, W>) -> bool {
    &&& after.value() == b.value()
    &&& after.version() == b.version()
}

/// Nothing but a value that is published makes a difference to what somebody has seen: not a sender or a
/// receiver that comes or goes, and not a value that is borrowed or given back.
pub proof fn law_latest_stays<T, W>(b: Board<T, W>, r: Ref, seen: Version)
    requires
        b.wf(),
        b.can_lend(),
        b.lends(r),
    ensures
        same_latest(b, b.sender_dropped()),
        same_latest(b, b.receiver_dropped()),
        same_latest(b, b.borrowed()),
        same_latest(b, b.returned(r.slot)),
        b.sender_dropped().lent(seen).changed == b.lent(seen).changed,
        b.receiver_dropped().lent(seen).changed == b.lent(seen).changed,
        b.borrowed().lent(seen).changed == b.lent(seen).changed,
        b.returned(r.slot).lent(seen).changed == b.lent(seen).changed,
{
    assert(b.slot_wf(b.cells.latest));
    assert(b.slot_wf(r.slot));
}

/// The board once `k` receivers were dropped.
pub open spec fn receivers_dropped<T, W>(b: Board<T, W>, k: nat) -> Board<T, W>
    decreases k,
{
    if k == 0 {
        b
    } else {
        receivers_dropped(b, (k - 1) as nat).receiver_dropped()
    }
}

/// Dropping receivers takes each off the count once, and nothing else. Those who wait for all receivers
/// to be gone are notified by the last one, and not before.
pub proof fn law_receivers_are_counted<T, W>(b: Board<T, W>, k: nat)
    requires
        k <= b.receivers,
    ensures
        receivers_dropped(b, k).receivers + k == b.receivers,
        receivers_dropped(b, k).senders == b.senders,
        receivers_dropped(b, k).cells == b.cells,
        receivers_dropped(b, k).frees == b.frees,
        receivers_dropped(b, k).loans == b.loans,
        receivers_dropped(b, k).changes == b.changes,
        receivers_dropped(b, k).closed == if 0 < k && k == b.receivers {
            b.closed.notified_all()
        } else {
            b.closed
        },
    decreases k,
{
    if k > 0 {
        law_receivers_are_counted(b, (k - 1) as nat);
    }
}

/// A receiver more and a receiver less leave no trace, as long as it is not the last one.
pub proof fn law_receiver_comes_and_goes<T, W>(b: Board<T, W>)
    requires
        0 < b.receivers < usize::MAX,
    ensures
        (Board { receivers: (b.receivers + 1) as usize, ..b }).receiver_dropped() == b,
        b.receiver_dropped().receivers + 1 == b.receivers,
{
}

/// The board once `k` senders were dropped.
pub open spec fn senders_dropped<T, W>(b: Board<T, W>, k: nat) -> Board<T, W>
    decreases k,
{
    if k == 0 {
        b
    } else {
        senders_dropped(b, (k - 1) as nat).sender_dropped()
    }
}

/// Dropping senders takes each off the count once. The last one, and none before, closes the channel and
/// notifies those who wait for changes. All values stay.
pub proof fn law_senders_are_counted<T, W>(b: Board<T, W>, k: nat)
    requires
        k <= b.senders,
        b.cells.closed <==> b.senders == 0,
    ensures
        senders_dropped(b, k).senders + k == b.senders,
        senders_dropped(b, k).receivers == b.receivers,
        senders_dropped(b, k).cells.slots == b.cells.slots,
        senders_dropped(b, k).cells.head == b.cells.head,
        senders_dropped(b, k).cells.latest == b.cells.latest,
        senders_dropped(b, k).cells.closed <==> k == b.senders,
        senders_dropped(b, k).frees == b.frees,
        senders_dropped(b, k).loans == b.loans,
        senders_dropped(b, k).closed == b.closed,
        senders_dropped(b, k).changes == if 0 < k && k == b.senders {
            b.changes.notified_all()
        } else {
            b.changes
        },
    decreases k,
{
    if k > 0 {
        law_senders_are_counted(b, (k - 1) as nat);
    }
}

/// A sender more and a sender less leave no trace, as long as it is not the last one.
pub proof fn law_sender_comes_and_goes<T, W>(b: Board<T, W>)
    requires
        0 < b.senders < usize::MAX,
    ensures
        (Board { senders: (b.senders + 1) as usize, ..b }).sender_dropped() == b,
{
}

/// Whoever has not seen a value gets it, whether or not senders and other receivers are gone by then.
pub proof fn law_unseen_value_stays_new<T, W>(
    b: Board<T, W>,
    value: T,
    seen: Version,
    senders: nat,
    receivers: nat,
)
    requires
        open(b),
        b.can_publish(),
        seen.0 <= b.version().0,
        senders <= b.senders,
        receivers <= b.receivers,
    ensures
        ({
            let after = receivers_dropped(
                senders_dropped(b.published(value), senders),
                receivers,
            );
            &&& after.lent(seen).changed
            &&& after.news(seen) == Ok::<Option<Ref>, RecvError>(Some(after.lent(seen)))
            &&& after.value() == value
            &&& after.lent(seen).closed <==> senders == b.senders
        }),
{
    lemma_published(b, value);
    let published = b.published(value);
    law_senders_are_counted(published, senders);
    law_receivers_are_counted(senders_dropped(published, senders), receivers);
}

/// A borrow counts one loan of the latest value, and giving it back takes it off. No other loan, nobody
/// who is counted and nobody who waits is affected.
pub proof fn law_loans_are_counted<T, W>(b: Board<T, W>, r: Ref)
    requires
        b.wf(),
        b.can_lend(),
        b.lends(r),
    ensures
        ({
            let latest = b.cells.latest;
            let borrowed = b.borrowed();
            let returned = b.returned(r.slot);
            &&& borrowed.wf()
            &&& returned.wf()
            &&& borrowed.loans.len() == b.loans.len()
            &&& returned.loans.len() == b.loans.len()
            &&& borrowed.loans[latest as int] == b.loans[latest as int] + 1
            &&& returned.loans[r.slot as int] + 1 == b.loans[r.slot as int]
            &&& forall|slot: int|
                0 <= slot < b.loans.len() && slot != latest ==> #[trigger] borrowed.loans[slot]
                    == b.loans[slot]
            &&& forall|slot: int|
                0 <= slot < b.loans.len() && slot != r.slot ==> #[trigger] returned.loans[slot]
                    == b.loans[slot]
            &&& borrowed.senders == b.senders && returned.senders == b.senders
            &&& borrowed.receivers == b.receivers && returned.receivers == b.receivers
            &&& borrowed.changes == b.changes && returned.changes == b.changes
            &&& borrowed.closed == b.closed && returned.closed == b.closed
            &&& borrowed.cells.latest == latest && returned.cells.latest == latest
            &&& borrowed.cells.closed == b.cells.closed
            &&& returned.cells.closed == b.cells.closed
            &&& forall|slot: usize|
                b.cells.has(slot) ==> {
                    &&& (#[trigger] borrowed.cells.slot(slot)).value == b.cells.slot(slot).value
                    &&& borrowed.cells.slot(slot).version == b.cells.slot(slot).version
                }
            &&& forall|slot: usize|
                b.cells.has(slot) && slot != r.slot ==> {
                    &&& (#[trigger] returned.cells.slot(slot)).value == b.cells.slot(slot).value
                    &&& returned.cells.slot(slot).version == b.cells.slot(slot).version
                }
        }),
{
    lemma_borrowed(b);
    lemma_returned(b, r.slot);
    assert(b.slot_wf(b.cells.latest));
    assert(b.slot_wf(r.slot));
}

/// A value that is published is the latest one, in a slot that nobody held, and has the next version. Those
/// who wait for changes are notified, and nobody who waits for the end. All loans stay as they are, nobody
/// is counted anew, and there are more slots only where none was free.
pub proof fn law_publishing<T, W>(b: Board<T, W>, value: T)
    requires
        open(b),
        b.can_publish(),
    ensures
        ({
            let after = b.published(value);
            let slot = after.cells.latest;
            &&& after.wf()
            &&& after.value() == value
            &&& after.cells.slot(slot).value == Some(value)
            &&& after.version().0 == b.version().0 + 1
            &&& slot != b.cells.latest
            &&& b.cells.has(slot) ==> b.loans[slot as int] == 0
            &&& after.loans[slot as int] == 0
            &&& forall|other: int|
                0 <= other < b.loans.len() ==> #[trigger] after.loans[other] == b.loans[other]
            &&& after.cells.closed == b.cells.closed
            &&& after.senders == b.senders
            &&& after.receivers == b.receivers
            &&& after.changes == b.changes.notified_all()
            &&& after.closed == b.closed
            &&& after.cells.slots.len() == if b.frees.len() > 0 {
                b.cells.slots.len() as int
            } else {
                b.cells.slots.len() + ROW
            }
        }),
{
    lemma_published(b, value);
    lemma_with_vacancy(b);
    let v = b.with_vacancy();
    let after = b.published(value);
    assert(v.slot_wf(v.frees[0]));
    assert(v.frees.contains(v.frees[0]));
    assert(v.slot_wf(v.cells.latest));
    assert(v.chained(0));
    assert(after.slot_wf(after.cells.latest));
    lemma_renewed_is_plain(b.changes);
}

/// A notification of all leaves nothing but a new round.
proof fn lemma_renewed_is_plain<W>(m: Memory<W>)
    requires
        calm(m),
    ensures
        m.notified_all().quiet(),
        m.notified_all().state.status == Status::Idle,
{
}

/// A value is published as long as there is a version and a place for it, and borrowed as long as loans
/// can be counted.
pub proof fn law_room_to_publish<T, W>(b: Board<T, W>)
    requires
        b.wf(),
    ensures
        b.can_lend() <==> b.loans[b.cells.latest as int] + 1 < usize::MAX,
        b.can_publish() <==> {
            &&& b.loans[b.cells.latest as int] + 1 < usize::MAX
            &&& b.version().0 < u64::MAX
            &&& b.frees.len() > 0 || b.cells.slots.len() + ROW <= usize::MAX / 2
        },
{
    assert(b.slot_wf(b.cells.latest));
}

/// Whoever was notified and attends no longer gives nothing back but their place.
pub proof fn law_attended_is_gone<W>(m: Memory<W>, notified: Notified<W>)
    requires
        calm(m),
        attends(notified, m),
        m.waiter(notified.waiter).notification is Some,
    ensures
        ({
            let after = attended(Some(notified), m);
            &&& !after.live(notified.waiter)
            &&& after.state == m.state
            &&& after.queue == m.queue
            &&& after.homes == m.homes
            &&& forall|other: usize|
                m.live(other) && other != notified.waiter ==> {
                    &&& #[trigger] after.live(other)
                    &&& after.waiter(other) == m.waiter(other)
                }
        }),
        attended(None, m) == m,
{
    let after = attended(Some(notified), m);
    assert(after.vacant[after.vacant.len() - 1] == notified.waiter);
    assert forall|other: usize| m.live(other) && other != notified.waiter implies {
        &&& #[trigger] after.live(other)
        &&& after.waiter(other) == m.waiter(other)
    } by {
        if after.vacant.contains(other) {
            assert(m.vacant[after.vacant.index_of(other)] == other);
        }
    }
}

/// Whoever polls in vain is listed once, behind all others where they were not listed before, and parks
/// with the waker of that poll. Nobody else who waits is affected.
pub proof fn law_vain_poll_attends<W>(m: Memory<W>, notified: Option<Notified<W>>, waker: W)
    requires
        calm(m),
        m.state.status != Status::Notified,
        notified matches Some(notified) ==> attends(notified, m),
    ensures
        ({
            let after = polled_on(notified, m, waker);
            let waiter = attendant(notified, m);
            let listed = notified is Some && m.queue.contains(notified->Some_0.waiter);
            &&& after.state.round == m.state.round
            &&& after.state.status == Status::Waiting
            &&& after.waker(waiter) == Some(waker)
            &&& after.live(waiter)
            &&& after.home(waiter) is Listed
            &&& after.queue == if listed {
                m.queue
            } else {
                seq![waiter] + m.queue
            }
            &&& listed ==> waiter == notified->Some_0.waiter
            &&& forall|other: usize|
                m.live(other) && other != waiter && (notified is Some ==> other
                    != notified->Some_0.waiter) ==> {
                    &&& #[trigger] after.waiter(other) == m.waiter(other)
                    &&& after.home(other) == m.home(other)
                    &&& after.live(other)
                }
        }),
{
    let after = polled_on(notified, m, waker);
    let waiter = attendant(notified, m);
    if let Some(n) = notified {
        assert(m.home_wf(n.waiter));
        if m.queue.contains(n.waiter) {
            assert(m.queued(m.queue.index_of(n.waiter)));
            assert(m.waits(m.queue[m.queue.index_of(n.waiter)]));
            assert(m.waiter(n.waiter).wf());
        }
    }
    let before = attended(notified, m);
    if let Some(n) = notified {
        if m.waiter(n.waiter).notification is Some {
            lemma_attended(m, n);
            law_attended_is_gone(m, n);
        }
    }
    if notified is Some ==> m.waiter(notified->Some_0.waiter).notification is Some {
        before.lemma_room();
        let room = before.with_room();
        if before.vacant.len() > 0 {
            assert(before.vacated(before.vacant.len() - 1));
        }
        assert(room.live(waiter));
        assert(waiter < room.homes.len());
        assert(after.waiter(waiter).wakers[1] == Some(waker));
        assert forall|other: usize|
            m.live(other) && other != waiter && (notified is Some ==> other
                != notified->Some_0.waiter) implies {
            &&& #[trigger] after.waiter(other) == m.waiter(other)
            &&& after.home(other) == m.home(other)
            &&& after.live(other)
        } by {
            assert(before.live(other));
            assert(before.home(other) == m.home(other));
            assert(room.live(other) == before.live(other));
            assert(room.home(other) == before.home(other));
        }
    }
}

} // verus!
