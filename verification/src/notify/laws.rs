//! What holds of a [Notify](crate::notify::memory::Notify) as a whole.

use crate::notify::all::in_batches;
use crate::notify::memory::Memory;
use crate::notify::notified::{Notified, Stage};
use crate::notify::state::{
    Notification, NotificationKind, Round, State, Status, ROUND_UNIT,
};
use crate::notify::wakers::WAKERS;
use vstd::prelude::*;

verus! {

/// A memory between calls.
pub open spec fn calm<W>(m: Memory<W>) -> bool {
    m.wf() && m.quiet() && m.state.round != Round(0)
}

/// A [Notified] that does not wait yet and whose round, if it has one, is not over.
pub open spec fn early<W>(n: Notified<W>, m: Memory<W>) -> bool {
    n.wf(m) && n.stage == Stage::Init && !n.passed(m)
}

/// The [Notified] in another stage.
pub open spec fn staged<W>(n: Notified<W>, stage: Stage) -> Notified<W> {
    Notified { stage, ..n }
}

/// Permits do not accumulate: of two that come while nobody waits, one is left. Whoever polls first
/// takes it, and whoever polls next finds none.
pub proof fn law_permits_do_not_accumulate<W>(
    m: Memory<W>,
    n1: Notified<W>,
    n2: Notified<W>,
    waker: W,
)
    requires
        calm(m),
        m.state.status != Status::Waiting,
        early(n1, m),
        early(n2, m),
    ensures
        ({
            let once = m.notified_one(m.state.round);
            let twice = once.notified_one(once.state.round);
            &&& twice =~= once
            &&& n1.polls_ready(twice)
            &&& !n2.polls_ready(n1.polled(twice, waker))
        }),
{
}

/// A poll makes use of the permit: it does not come back when the [Notified] is dropped.
pub proof fn law_poll_consumes_permit<W>(m: Memory<W>, n: Notified<W>, waker: W)
    requires
        calm(m),
        m.state.status == Status::Notified,
        early(n, m),
    ensures
        n.polls_ready(m),
        staged(n, Stage::Finished).dropped(n.polled(m, waker)).state == (State {
            status: Status::Idle,
            ..m.state
        }),
{
    let after = n.polled(m, waker);
    assert(after.waiter(n.waiter) == m.waiter(n.waiter));
}

/// Enabling keeps the permit for a poll, and one that was never polled hands it over when it is
/// dropped. Then all is as it was.
pub proof fn law_enable_borrows_permit<W>(m: Memory<W>, n: Notified<W>, waker: W)
    requires
        calm(m),
        m.state.status == Status::Notified,
        early(n, m),
    ensures
        n.enabled(m).state.status == Status::Idle,
        staged(n, Stage::Finished).polls_ready(n.enabled(m)),
        staged(n, Stage::Finished).dropped(n.enabled(m)) =~= m,
{
    let enabled = n.enabled(m);
    let permit = Notification { kind: NotificationKind::One, round: m.state.round };
    assert(enabled.waiter(n.waiter).notification == permit.stored());
    assert(permit.word() != 0);
    let recalled = enabled.with_notification(n.waiter, None);
    assert(recalled.waiters =~= m.waiters) by {
        assert(m.waiter(n.waiter).notification is None);
        assert(recalled.waiter(n.waiter) =~= m.waiter(n.waiter));
    }
}

/// The permit of one that was notified and is dropped with no further poll goes to whoever is next, or
/// is kept if nobody waits.
pub proof fn law_permit_resumed_on_drop<W>(m: Memory<W>, n: Notified<W>)
    requires
        calm(m),
        n.wf(m),
        n.stage == Stage::Waiting,
        m.queue.len() > 0,
        m.queue.last() == n.waiter,
    ensures
        ({
            let round = m.state.round;
            let notified = m.notified_one(round);
            let dropped = n.dropped(notified);
            &&& n.polls_ready(notified)
            &&& dropped =~= notified.notified_one(round)
            &&& m.queue.len() == 1 ==> dropped.state.status == Status::Notified
            &&& m.queue.len() > 1 ==> {
                let next = m.queue[m.queue.len() - 2];
                &&& dropped.waiter(next).notification == Some(
                    Notification { kind: NotificationKind::One, round },
                )
                &&& n.woken_by_drop(notified) == m.waker(next)
            }
        }),
{
    let round = m.state.round;
    let notified = m.notified_one(round);
    let permit = Notification { kind: NotificationKind::One, round };
    let last = m.queue.len() - 1;
    assert(m.queued(last));
    assert(notified.waiter(n.waiter).notification == permit.stored());
    assert(permit.word() != 0);
    if m.queue.len() > 1 {
        let next = m.queue[last - 1];
        assert(m.queued(last - 1));
        assert(next != n.waiter);
        assert(notified.queue.last() == next);
        assert(notified.waiter(next) == m.waiter(next));
    }
}

/// The permit of a round that is over does not come back.
pub proof fn law_permit_not_resumed_across_rounds<W>(m: Memory<W>, n: Notified<W>)
    requires
        calm(m),
        n.wf(m),
        n.stage == Stage::Waiting,
        m.queue.len() > 0,
        m.queue.last() == n.waiter,
    ensures
        ({
            let renewed = m.notified_one(m.state.round).notified_all();
            &&& n.dropped(renewed) =~= renewed
            &&& n.woken_by_drop(renewed) is None
            &&& renewed.state.status == Status::Idle
        }),
{
    let round = m.state.round;
    let notified = m.notified_one(round);
    let permit = Notification { kind: NotificationKind::One, round };
    let last = m.queue.len() - 1;
    assert(m.queued(last));
    assert(permit.word() != 0);
    assert(notified.waiter(n.waiter).notification == Some(permit));
    assert(notified.home(n.waiter) is Out);
    if notified.state.status == Status::Waiting {
        lemma_room_after(m, notified, n.waiter);
    }
    let renewed = notified.notified_all();
    assert(renewed.waiter(n.waiter).notification == Some(permit));
    lemma_succ(round);
}

/// A round is followed by another one.
proof fn lemma_succ(round: Round)
    requires
        round.wf(),
    ensures
        round.succ() != round,
{
}

/// Room for one more takes nobody's place.
proof fn lemma_room_after<W>(m: Memory<W>, after: Memory<W>, key: usize)
    requires
        m.wf(),
        m.live(key),
        after.vacant == m.vacant,
        after.waiters.len() == m.waiters.len(),
        after.homes.len() == m.homes.len(),
    ensures
        after.vacancy() != key,
        after.with_room().waiter(key) == after.waiter(key),
        after.with_room().home(key) == after.home(key),
        after.with_room().waiters.len() >= after.waiters.len(),
{
    if m.vacant.len() > 0 {
        assert(m.vacated(m.vacant.len() - 1));
        assert(m.vacant.contains(m.vacant.last()));
    }
}

/// A notification of all waiters starts a new round with no permit and with nobody in wait.
pub proof fn law_notify_all_starts_round<W>(m: Memory<W>)
    requires
        calm(m),
    ensures
        m.notified_all().state == m.state.renewed(),
        m.notified_all().state.round != m.state.round,
        m.notified_all().state.status == Status::Idle,
        m.notified_all().queue.len() == 0,
{
    lemma_succ(m.state.round);
}

/// A notification of all waiters reaches whoever is listed or is attached to the round. Others who do not
/// wait yet are not reached, but for those who are attached to a round that was over before.
pub proof fn law_notify_all_reaches_attached<W>(m: Memory<W>, n: Notified<W>)
    requires
        calm(m),
        n.wf(m),
        n.stage != Stage::Finished,
    ensures
        n.wf(m.notified_all()),
        n.polls_ready(m.notified_all()) <==> n.stage == Stage::Waiting || n.round != Round(0) && (
        n.round == m.state.round || n.round != m.state.round.succ()),
{
    let after = m.notified_all();
    lemma_succ(m.state.round);
    assert(m.home_wf(n.waiter));
    if m.state.status == Status::Waiting {
        lemma_room_after(m, m, n.waiter);
        m.lemma_room();
        assert(after.vacant.len() == m.with_room().vacant.len() + 1);
        assert(after.live(n.waiter)) by {
            if after.vacant.contains(n.waiter) {
                let i = after.vacant.index_of(n.waiter);
                if i < m.with_room().vacant.len() {
                    assert(m.with_room().vacant[i] == n.waiter);
                }
            }
        }
    } else if m.home(n.waiter) is Listed {
        assert(m.queue.contains(n.waiter));
    }
}

/// The memory after `k` notifications of all waiters.
pub open spec fn renewed_times<W>(m: Memory<W>, k: nat) -> Memory<W>
    decreases k,
{
    if k == 0 {
        m
    } else {
        renewed_times(m, (k - 1) as nat).notified_all()
    }
}

/// Notifications of all waiters that follow one another change nothing but the round.
proof fn lemma_renewed_times<W>(m: Memory<W>, k: nat)
    requires
        calm(m),
        0 < k,
        ROUND_UNIT * k <= usize::MAX,
    ensures
        renewed_times(m, k) == (Memory {
            state: renewed_times(m, k).state,
            ..m.notified_all()
        }),
        renewed_times(m, k).state.status == Status::Idle,
        renewed_times(m, k).state.round.wf(),
        renewed_times(m, k).state.round.0 == if m.state.round.0 + ROUND_UNIT * k <= usize::MAX {
            m.state.round.0 + ROUND_UNIT * k
        } else {
            m.state.round.0 + ROUND_UNIT * k - usize::MAX - 1
        },
    decreases k,
{
    assert(usize::MAX % 4 == 3);
    if k > 1 {
        lemma_renewed_times(m, (k - 1) as nat);
    } else {
        assert(renewed_times(m, 0) == m);
        assert(renewed_times(m, 1) == m.notified_all());
    }
}

/// Whoever is listed or attached to the round is ready after any number of notifications of all waiters,
/// as long as they do not run through all rounds there are.
pub proof fn law_attached_stays_ready<W>(m: Memory<W>, n: Notified<W>, k: nat)
    requires
        calm(m),
        n.wf(m),
        n.stage == Stage::Waiting || n.stage == Stage::Init && n.round == m.state.round,
        0 < k,
        ROUND_UNIT * k <= usize::MAX,
    ensures
        n.polls_ready(renewed_times(m, k)),
{
    lemma_renewed_times(m, k);
    law_notify_all_reaches_attached(m, n);
}

/// Whoever is detached and does not wait yet is not notified by a notification of all waiters, not
/// even with a permit that was left before.
pub proof fn law_notify_all_ruins_permit<W>(m: Memory<W>, n: Notified<W>)
    requires
        calm(m),
        n.wf(m),
        n.stage == Stage::Init,
        n.round == Round(0),
    ensures
        !n.polls_ready(m.notified_all()),
        !n.polls_ready(m.notified_one(m.state.round).notified_all()),
{
}

/// The memory after `k` notifications of one waiter.
pub open spec fn notified_times<W>(m: Memory<W>, k: nat) -> Memory<W>
    decreases k,
{
    if k == 0 {
        m
    } else {
        let before = notified_times(m, (k - 1) as nat);
        before.notified_one(before.state.round)
    }
}

/// Waiters are notified in the order in which they came: after `k` notifications these are the `k`
/// that came first, and the others wait on.
pub proof fn law_first_come_first_notified<W>(m: Memory<W>, k: nat)
    requires
        calm(m),
        k <= m.queue.len(),
    ensures
        notified_times(m, k).state.round == m.state.round,
        k < m.queue.len() ==> notified_times(m, k).state.status == Status::Waiting,
        notified_times(m, k).queue =~= m.queue.take(m.queue.len() - k),
        notified_times(m, k).waiters.len() == m.waiters.len(),
        forall|i: int|
            m.queue.len() - k <= i < m.queue.len() ==> notified_times(m, k).waiter(
                #[trigger] m.queue[i],
            ).notification == Some(
                Notification { kind: NotificationKind::One, round: m.state.round },
            ),
        forall|i: int|
            0 <= i < m.queue.len() - k ==> notified_times(m, k).waiter(#[trigger] m.queue[i])
                == m.waiter(m.queue[i]),
    decreases k,
{
    if k > 0 {
        law_first_come_first_notified(m, (k - 1) as nat);
        let before = notified_times(m, (k - 1) as nat);
        let after = notified_times(m, k);
        let at = m.queue.len() - k;
        let key = m.queue[at];
        let permit = Notification { kind: NotificationKind::One, round: m.state.round };
        assert(permit.word() != 0);
        assert(m.queued(at));
        assert(before.queue.last() == key);
        assert forall|i: int| 0 <= i < m.queue.len() && i != at implies after.waiter(
            #[trigger] m.queue[i],
        ) == before.waiter(m.queue[i]) by {
            assert(m.queued(i));
            assert(m.queue[i] != key);
        }
    }
}

/// Whoever is enabled or polled goes behind those that wait already.
pub proof fn law_newcomer_goes_last<W>(m: Memory<W>, n: Notified<W>, waker: W)
    requires
        calm(m),
        early(n, m),
        m.state.status != Status::Notified,
    ensures
        n.enabled(m).queue =~= seq![n.waiter] + m.queue,
        n.polled(m, waker).queue =~= seq![n.waiter] + m.queue,
{
}

/// Nobody is woken spuriously: whoever is listed is not ready.
pub proof fn law_listed_is_not_ready<W>(m: Memory<W>, n: Notified<W>)
    requires
        calm(m),
        n.wf(m),
        n.stage == Stage::Waiting,
        m.home(n.waiter) is Listed,
    ensures
        !n.polls_ready(m),
{
    assert(m.home_wf(n.waiter));
    assert(m.waits(m.queue[m.queue.index_of(n.waiter)]));
}

/// Whoever has polled in vain is woken by the waker of that poll when a notification comes.
pub proof fn law_pending_is_woken<W>(m: Memory<W>, n: Notified<W>, waker: W)
    requires
        calm(m),
        n.wf(m),
        !n.polls_ready(m),
    ensures
        ({
            let polled = n.polled(m, waker);
            &&& polled.waker(n.waiter) == Some(waker)
            &&& polled.state.status == Status::Waiting
            &&& polled.queue.contains(n.waiter)
            &&& polled.queue.last() == n.waiter ==> polled.woken_one(polled.state.round) == Some(
                waker,
            )
            &&& polled.woken_all().contains(waker)
        }),
{
    let polled = n.polled(m, waker);
    assert(m.home_wf(n.waiter));
    assert(m.waiter(n.waiter).wf());
    if n.stage == Stage::Init {
        assert(polled.queue[0] == n.waiter);
    }
    lemma_woken_all_contains(polled, polled.queue.index_of(n.waiter), waker);
}

/// The waker of each listed waiter is among those that a notification of all waiters wakes.
pub proof fn lemma_woken_all_contains<W>(m: Memory<W>, i: int, waker: W)
    requires
        m.state.status == Status::Waiting,
        0 <= i < m.queue.len(),
        m.waker(m.queue[i]) == Some(waker),
    ensures
        m.woken_all().contains(waker),
{
    let wakers = m.wakers_of(m.queue);
    lemma_wakers_of_contains(m, m.queue, i, waker);
    lemma_in_batches(wakers);
    assert(wakers.to_multiset().count(waker) > 0) by {
        wakers.to_multiset_ensures();
    }
    in_batches(wakers).to_multiset_ensures();
}

/// The waker of each waiter is among the wakers of them all.
proof fn lemma_wakers_of_contains<W>(m: Memory<W>, nodes: Seq<usize>, i: int, waker: W)
    requires
        0 <= i < nodes.len(),
        m.waker(nodes[i]) == Some(waker),
    ensures
        m.wakers_of(nodes).contains(waker),
    decreases nodes.len(),
{
    let rest = m.wakers_of(nodes.drop_last());
    if i == nodes.len() - 1 {
        assert(m.wakers_of(nodes)[0] == waker);
    } else {
        lemma_wakers_of_contains(m, nodes.drop_last(), i, waker);
        let j = rest.index_of(waker);
        match m.waker(nodes.last()) {
            Some(_) => {
                assert(m.wakers_of(nodes)[j + 1] == waker);
            },
            None => {},
        }
    }
}

/// Batches lose no waker and add none.
pub proof fn lemma_in_batches<W>(wakers: Seq<W>)
    ensures
        in_batches(wakers).to_multiset() == wakers.to_multiset(),
    decreases wakers.len(),
{
    if wakers.len() <= WAKERS {
        lemma_reverse(wakers);
    } else {
        let first = wakers.take(WAKERS as int);
        let rest = wakers.skip(WAKERS as int);
        lemma_reverse(first);
        lemma_in_batches(rest);
        assert(wakers =~= first + rest);
        vstd::seq_lib::lemma_multiset_commutative(first, rest);
        vstd::seq_lib::lemma_multiset_commutative(first.reverse(), in_batches(rest));
    }
}

/// Turning a sequence round loses nothing and adds nothing.
proof fn lemma_reverse<A>(s: Seq<A>)
    ensures
        s.reverse().to_multiset() == s.to_multiset(),
    decreases s.len(),
{
    if s.len() > 0 {
        let rest = s.drop_last();
        lemma_reverse(rest);
        assert(s =~= rest + seq![s.last()]);
        assert(s.reverse() =~= seq![s.last()] + rest.reverse());
        vstd::seq_lib::lemma_multiset_commutative(rest, seq![s.last()]);
        vstd::seq_lib::lemma_multiset_commutative(seq![s.last()], rest.reverse());
    } else {
        assert(s.reverse() =~= s);
    }
}

/// Whoever waits is not disturbed by a notification of somebody else, nor by the arrival of somebody.
pub proof fn law_notifying_keeps_waiters<W>(m: Memory<W>, n: Notified<W>, round: Round)
    requires
        calm(m),
        n.wf(m),
    ensures
        n.wf(m.notified_one(round)),
        n.wf(m.notified_all()),
        n.wf(m.with_room()),
{
    let permit = Notification { kind: NotificationKind::One, round: m.state.round };
    assert(permit.word() != 0);
    assert(m.home_wf(n.waiter));
    m.lemma_room();
    if m.state.status == Status::Waiting {
        let last = m.queue.len() - 1;
        assert(m.queued(last));
        assert(m.waits(m.queue[last]));
        let after = m.notified_all();
        assert(after.live(n.waiter)) by {
            if after.vacant.contains(n.waiter) {
                let i = after.vacant.index_of(n.waiter);
                if i < m.with_room().vacant.len() {
                    assert(m.with_room().vacant[i] == n.waiter);
                }
            }
        }
        assert(m.with_room().live(n.waiter));
        assert(m.with_room().home(n.waiter) == m.home(n.waiter));
    }
    assert(m.with_room().live(n.waiter));
    assert(m.with_room().home(n.waiter) == m.home(n.waiter));
}

/// Whoever waits is not disturbed by what somebody else does.
pub proof fn law_others_keep_waiters<W>(m: Memory<W>, n: Notified<W>, other: Notified<W>, waker: W)
    requires
        calm(m),
        n.wf(m),
        other.wf(m),
        n.waiter != other.waiter,
    ensures
        n.wf(other.enabled(m)),
        n.wf(other.polled(m, waker)),
        n.wf(other.dropped(m).left(other.waiter)),
{
    assert(m.home_wf(n.waiter));
    assert(m.home_wf(other.waiter));
    assert(other.enabled(m).live(n.waiter));
    assert(other.polled(m, waker).live(n.waiter));
    lemma_dropped_keeps(m, n, other);
    let dropped = other.dropped(m);
    let left = dropped.left(other.waiter);
    assert(left.live(n.waiter)) by {
        if left.vacant.contains(n.waiter) {
            let i = left.vacant.index_of(n.waiter);
            assert(dropped.vacant[i] == n.waiter);
        }
    }
}

proof fn lemma_dropped_keeps<W>(m: Memory<W>, n: Notified<W>, other: Notified<W>)
    requires
        calm(m),
        n.wf(m),
        other.wf(m),
        n.waiter != other.waiter,
    ensures
        n.wf(other.dropped(m)),
        other.dropped(m).vacant == m.vacant,
{
    assert(m.home_wf(n.waiter));
    assert(m.home_wf(other.waiter));
    let permit = Notification { kind: NotificationKind::One, round: m.state.round };
    assert(permit.word() != 0);
    if m.state.status == Status::Waiting {
        assert(m.queued(m.queue.len() - 1));
    }
}

/// Whether nobody but the waiter at `key` is affected.
pub open spec fn apart_from<W>(m: Memory<W>, after: Memory<W>, key: usize) -> bool {
    &&& after.locked == m.locked
    &&& after.rings == m.rings
    &&& after.vacant == m.vacant
    &&& after.waiters.len() == m.waiters.len()
    &&& after.homes.len() == m.homes.len()
    &&& forall|other: usize|
        #![trigger after.waiter(other)]
        #![trigger after.home(other)]
        other < m.waiters.len() && other != key ==> after.waiter(other) == m.waiter(other)
            && after.home(other) == m.home(other)
}

/// The notification by a permit of the current round.
pub open spec fn permit_of<W>(m: Memory<W>) -> Notification {
    Notification { kind: NotificationKind::One, round: m.state.round }
}

/// Whether a [Notified] has a permit of the current round that no poll has made use of.
pub open spec fn unused_permit<W>(n: Notified<W>, m: Memory<W>) -> bool {
    n.stage != Stage::Init && m.waiter(n.waiter).notification == Some(permit_of(m))
}

/// Whether the waiter that came first was notified by a permit in place of all others: it is out of the
/// queue, and whoever is left waits on.
pub open spec fn first_was_notified<W>(m: Memory<W>, after: Memory<W>) -> bool {
    let first = m.queue[m.queue.len() - 1];
    &&& after.waiter(first).notification == Some(permit_of(m))
    &&& after.waiter(first).parked is Unparked
    &&& after.home(first) is Out
    &&& after.queue.len() == m.queue.len() - 1
    &&& forall|i: int| 0 <= i < after.queue.len() ==> after.queue[i] == m.queue[i]
    &&& after.state.round == m.state.round
    &&& after.state.status == Status::Waiting <==> m.queue.len() > 1
    &&& after.state.status == Status::Idle <==> m.queue.len() == 1
}

/// The waiter that came first is listed, waits and has a place of its own.
proof fn lemma_first<W>(m: Memory<W>)
    requires
        calm(m),
        m.queue.len() > 0,
    ensures
        ({
            let first = m.queue[m.queue.len() - 1];
            &&& first < m.waiters.len()
            &&& m.home(first) is Listed
            &&& m.waits(first)
            &&& m.waiter(first).wf()
            &&& m.state.status == Status::Waiting
            &&& permit_of(m).stored() == Some(permit_of(m))
        }),
{
    let last = m.queue.len() - 1;
    assert(m.queued(last));
    assert(m.waits(m.queue[last]));
    assert(m.waiter(m.queue[last]).wf());
    assert(permit_of(m).word() != 0);
}

/// A notification of one is for the waiter that came first, whose waker is woken, and for nobody else. If
/// nobody waits it leaves a permit. In any other round it does nothing.
pub proof fn law_notification_of_one<W>(m: Memory<W>, round: Round)
    requires
        calm(m),
    ensures
        ({
            let after = m.notified_one(round);
            if round != m.state.round {
                &&& after == m
                &&& m.woken_one(round) is None
            } else if m.queue.len() == 0 {
                &&& after.state.status == Status::Notified
                &&& after.state.round == m.state.round
                &&& after.queue == m.queue
                &&& after.homes == m.homes
                &&& after.waiters == m.waiters
                &&& after.vacant == m.vacant
                &&& after.locked == m.locked
                &&& after.rings == m.rings
                &&& m.woken_one(round) is None
            } else {
                let first = m.queue[m.queue.len() - 1];
                &&& first_was_notified(m, after)
                &&& apart_from(m, after, first)
                &&& m.woken_one(round) == m.waker(first)
            }
        }),
{
    if m.queue.len() > 0 {
        lemma_first(m);
    }
}

/// Whoever has a permit and is not listed is not the one that came first.
proof fn lemma_holder_is_apart<W>(m: Memory<W>, n: Notified<W>)
    requires
        calm(m),
        n.wf(m),
        n.stage == Stage::Finished || m.waiter(n.waiter).notification is Some,
        n.stage != Stage::Init,
    ensures
        n.waiter < m.waiters.len(),
        m.home(n.waiter) is Out,
        !m.queue.contains(n.waiter),
{
    assert(m.home_wf(n.waiter));
    if m.home(n.waiter) is Listed {
        assert(m.waits(m.queue[m.queue.index_of(n.waiter)]));
    }
    if m.queue.contains(n.waiter) {
        assert(m.queued(m.queue.index_of(n.waiter)));
    }
}

/// Permits are conserved by a drop: one of the current round that no poll has made use of, whether it
/// came by enabling or by a notification, is afterwards with the waiter that came first, whose waker is
/// woken. If nobody waits it is left for whoever comes next.
pub proof fn law_drop_conserves_permit<W>(m: Memory<W>, n: Notified<W>)
    requires
        calm(m),
        n.wf(m),
        unused_permit(n, m),
    ensures
        ({
            let after = n.dropped(m);
            if m.queue.len() == 0 {
                &&& after.state.status == Status::Notified
                &&& after.state.round == m.state.round
                &&& after.queue == m.queue
                &&& apart_from(m, after, n.waiter)
                &&& n.woken_by_drop(m) is None
            } else {
                let first = m.queue[m.queue.len() - 1];
                &&& first != n.waiter
                &&& first_was_notified(m, after)
                &&& after.vacant == m.vacant
                &&& after.locked == m.locked
                &&& after.rings == m.rings
                &&& forall|other: usize|
                    other < m.waiters.len() && other != first && other != n.waiter ==> {
                        &&& #[trigger] after.waiter(other) == m.waiter(other)
                        &&& after.home(other) == m.home(other)
                    }
                &&& n.woken_by_drop(m) == m.waker(first)
            }
        }),
        n.dropped(m).home(n.waiter) is Out,
{
    lemma_holder_is_apart(m, n);
    if m.queue.len() > 0 {
        lemma_first(m);
        assert(m.queue.contains(m.queue[m.queue.len() - 1]));
    }
}

/// Whoever has nothing to hand over leaves without a trace: nobody is woken or notified, the permit is
/// left alone, and those who wait keep their order.
pub proof fn law_drop_without_permit<W>(m: Memory<W>, n: Notified<W>)
    requires
        calm(m),
        n.wf(m),
        !unused_permit(n, m),
    ensures
        ({
            let after = n.dropped(m);
            &&& n.woken_by_drop(m) is None
            &&& apart_from(m, after, n.waiter)
            &&& after.home(n.waiter) is Out
            &&& after.state.round == m.state.round
            &&& m.queue.contains(n.waiter) ==> {
                &&& after.queue == m.queue.remove(m.queue.index_of(n.waiter))
                &&& after.state.status == Status::Waiting <==> m.queue.len() > 1
                &&& after.state.status == Status::Idle <==> m.queue.len() == 1
            }
            &&& !m.queue.contains(n.waiter) ==> {
                &&& after.queue == m.queue
                &&& after.state == m.state
            }
        }),
{
    assert(m.home_wf(n.waiter));
    if m.queue.contains(n.waiter) {
        assert(m.queued(m.queue.index_of(n.waiter)));
        assert(m.waits(m.queue[m.queue.index_of(n.waiter)]));
    }
}

/// The place of whoever is dropped is given back, and nobody else's.
pub proof fn law_place_is_given_back<W>(m: Memory<W>, key: usize)
    requires
        m.live(key),
    ensures
        !m.left(key).live(key),
        forall|other: usize| other != key ==> #[trigger] m.left(key).live(other) == m.live(other),
        m.left(key).state == m.state,
        m.left(key).queue == m.queue,
        m.left(key).waiters == m.waiters,
        m.left(key).homes == m.homes,
{
    let left = m.left(key);
    assert(left.vacant[left.vacant.len() - 1] == key);
    assert forall|other: usize| other != key implies #[trigger] left.live(other) == m.live(
        other,
    ) by {
        if m.vacant.contains(other) {
            assert(left.vacant[m.vacant.index_of(other)] == other);
        }
        if left.vacant.contains(other) {
            assert(m.vacant[left.vacant.index_of(other)] == other);
        }
    }
}

/// A poll is ready if and only if there is something for it: the end of the round that it is attached
/// to, a permit, or a notification that it was listed for. Whoever was notified stays ready.
pub proof fn law_ready_if_notified<W>(m: Memory<W>, n: Notified<W>)
    requires
        calm(m),
        n.wf(m),
    ensures
        n.stage == Stage::Init ==> (n.polls_ready(m) <==> (n.round != Round(0) && n.round
            != m.state.round) || m.state.status == Status::Notified),
        n.stage == Stage::Waiting ==> (n.polls_ready(m) <==> !m.queue.contains(n.waiter)),
        n.stage == Stage::Finished ==> n.polls_ready(m),
{
    assert(m.home_wf(n.waiter));
    if m.queue.contains(n.waiter) {
        assert(m.queued(m.queue.index_of(n.waiter)));
        assert(m.waits(m.queue[m.queue.index_of(n.waiter)]));
    }
}

/// A poll that is ready leaves nothing to hand over, whatever it was ready for: dropping it afterwards
/// changes nothing and wakes nobody. It takes a permit only where it has found nothing else.
pub proof fn law_ready_poll_leaves_nothing<W>(m: Memory<W>, n: Notified<W>, waker: W)
    requires
        calm(m),
        n.wf(m),
        n.polls_ready(m),
    ensures
        ({
            let after = n.polled(m, waker);
            let done = staged(n, Stage::Finished);
            &&& after.waiter(n.waiter).notification is None
            &&& apart_from(m, after, n.waiter)
            &&& after.home(n.waiter) == m.home(n.waiter)
            &&& after.queue == m.queue
            &&& after.state.round == m.state.round
            &&& after.state.status == if n.stage == Stage::Init && (n.round == Round(0) || n.round
                == m.state.round) {
                Status::Idle
            } else {
                m.state.status
            }
            &&& done.polls_ready(after)
            &&& done.polled(after, waker) =~= after
            &&& done.dropped(after) =~= after
            &&& done.woken_by_drop(after) is None
        }),
{
    let after = n.polled(m, waker);
    let done = staged(n, Stage::Finished);
    assert(done.dropped(after).waiters =~= after.waiters);
    assert(done.polled(after, waker).waiters =~= after.waiters);
}

/// A poll in vain lists its waiter, behind all others where it was not listed before, and puts its waker
/// in place of that of the poll before.
pub proof fn law_vain_poll_waits<W>(m: Memory<W>, n: Notified<W>, waker: W)
    requires
        calm(m),
        n.wf(m),
        !n.polls_ready(m),
    ensures
        ({
            let after = n.polled(m, waker);
            &&& after.waiter(n.waiter).notification is None
            &&& after.waker(n.waiter) == Some(waker)
            &&& after.home(n.waiter) is Listed
            &&& apart_from(m, after, n.waiter)
            &&& after.state.round == m.state.round
            &&& after.state.status == Status::Waiting
            &&& after.queue == if n.stage == Stage::Init {
                seq![n.waiter] + m.queue
            } else {
                m.queue
            }
        }),
{
    assert(m.home_wf(n.waiter));
    assert(m.waiter(n.waiter).wf());
}

/// Enabling takes nothing away from a poll: whoever is polled after it was enabled finds what it would
/// have found at once, and leaves the same behind.
pub proof fn law_enabling_comes_before_polling<W>(m: Memory<W>, n: Notified<W>, waker: W)
    requires
        calm(m),
        n.wf(m),
        n.stage == Stage::Init,
    ensures
        ({
            let enabled = n.enabled(m);
            let then = staged(n, n.settled(m));
            &&& then.stage != Stage::Init
            &&& then.wf(enabled)
            &&& then.polls_ready(enabled) == n.polls_ready(m)
            &&& then.polled(enabled, waker) =~= n.polled(m, waker)
        }),
{
    let enabled = n.enabled(m);
    let then = staged(n, n.settled(m));
    assert(permit_of(m).word() != 0);
    assert(then.polled(enabled, waker).waiters =~= n.polled(m, waker).waiters);
}

/// Whoever was enabled and is dropped without a poll leaves no trace: a permit that it has taken comes
/// back, and nobody is kept waiting.
pub proof fn law_enabling_is_undone_by_drop<W>(m: Memory<W>, n: Notified<W>)
    requires
        calm(m),
        n.wf(m),
        n.stage == Stage::Init,
    ensures
        ({
            let then = staged(n, n.settled(m));
            &&& then.dropped(n.enabled(m)) =~= m
            &&& then.woken_by_drop(n.enabled(m)) is None
        }),
{
    let enabled = n.enabled(m);
    let then = staged(n, n.settled(m));
    assert(permit_of(m).word() != 0);
    assert(m.home_wf(n.waiter));
    if m.queue.contains(n.waiter) {
        assert(m.queued(m.queue.index_of(n.waiter)));
    }
    if n.polls_ready(m) {
        assert(then.dropped(enabled).waiters =~= m.waiters);
    } else {
        assert(enabled.queue[0] == n.waiter);
        assert forall|i: int| 0 < i < enabled.queue.len() implies enabled.queue[i] != n.waiter by {
            assert(m.queue[i - 1] == enabled.queue[i]);
        }
        assert(enabled.queue.index_of(n.waiter) == 0);
        assert(then.dropped(enabled).queue =~= m.queue);
        assert(then.dropped(enabled).homes =~= m.homes);
    }
}

/// Enabling keeps what it finds for a later poll: the end of the round that it is attached to, or the
/// permit, which is gone for all others. If it finds nothing it waits behind all others. Enabling once
/// more changes nothing.
pub proof fn law_enabling_keeps_what_it_finds<W>(m: Memory<W>, n: Notified<W>)
    requires
        calm(m),
        n.wf(m),
        n.stage == Stage::Init,
    ensures
        ({
            let after = n.enabled(m);
            &&& apart_from(m, after, n.waiter)
            &&& after.state.round == m.state.round
            &&& if n.round != Round(0) && n.round != m.state.round {
                &&& n.settled(m) == Stage::Finished
                &&& after.waiter(n.waiter).notification == Some(
                    Notification { kind: NotificationKind::All, round: n.round },
                )
                &&& after.state == m.state
                &&& after.queue == m.queue
            } else if m.state.status == Status::Notified {
                &&& n.settled(m) == Stage::Finished
                &&& after.waiter(n.waiter).notification == Some(permit_of(m))
                &&& after.state.status == Status::Idle
                &&& after.queue == m.queue
            } else {
                &&& n.settled(m) == Stage::Waiting
                &&& after.waiter(n.waiter) == m.waiter(n.waiter)
                &&& after.home(n.waiter) is Listed
                &&& after.state.status == Status::Waiting
                &&& after.queue == seq![n.waiter] + m.queue
            }
            &&& staged(n, n.settled(m)).enabled(after) == after
        }),
{
    assert(permit_of(m).word() != 0);
}

/// One notification releases one task, whichever calls make use of it: after a permit was enabled for,
/// polled and dropped there is none left.
pub proof fn law_permit_is_used_once<W>(m: Memory<W>, n: Notified<W>, other: Notified<W>, waker: W)
    requires
        calm(m),
        m.state.status == Status::Notified,
        early(n, m),
        early(other, m),
        n.waiter != other.waiter,
    ensures
        ({
            let enabled = n.enabled(m);
            let kept = staged(n, Stage::Finished);
            let polled = kept.polled(enabled, waker);
            let dropped = kept.dropped(polled);
            &&& kept.polls_ready(enabled)
            &&& !other.polls_ready(enabled)
            &&& !other.polls_ready(polled)
            &&& !other.polls_ready(dropped)
            &&& !other.polls_ready(n.polled(m, waker))
            &&& kept.woken_by_drop(polled) is None
            &&& other.polls_ready(kept.dropped(enabled))
        }),
{
    law_enabling_comes_before_polling(m, n, waker);
    law_ready_poll_leaves_nothing(m, n, waker);
    law_enabling_is_undone_by_drop(m, n);
}

/// A notification of all reaches whoever is listed, each of whom is notified of the end of the round and
/// is out of the queue, and nobody else. Nobody's place is taken.
pub proof fn law_notification_of_all<W>(m: Memory<W>)
    requires
        calm(m),
    ensures
        ({
            let after = m.notified_all();
            &&& after.state.round == m.state.round.succ()
            &&& after.state.status == Status::Idle
            &&& after.queue.len() == 0
            &&& after.locked == m.locked
            &&& after.rings == m.rings
            &&& forall|i: int|
                0 <= i < m.queue.len() ==> {
                    &&& after.waiter(#[trigger] m.queue[i]).notification == Some(
                        Notification { kind: NotificationKind::All, round: m.state.round },
                    )
                    &&& after.waiter(m.queue[i]).parked is Unparked
                    &&& after.home(m.queue[i]) is Out
                }
            &&& forall|key: usize|
                m.live(key) && !m.queue.contains(key) ==> {
                    &&& #[trigger] after.waiter(key) == m.waiter(key)
                    &&& after.home(key) == m.home(key)
                }
            &&& forall|key: usize| #[trigger] after.live(key) == m.live(key)
        }),
{
    let after = m.notified_all();
    m.lemma_room();
    assert forall|key: usize| #[trigger] after.live(key) == m.live(key) by {
        if m.state.status == Status::Waiting {
            let room = m.with_room();
            assert(after.vacant[after.vacant.len() - 1] == m.vacancy());
            assert(room.live(key) == m.live(key) || key == m.vacancy());
            if room.vacant.contains(key) {
                assert(after.vacant[room.vacant.index_of(key)] == key);
            }
            if after.vacant.contains(key) && key != m.vacancy() {
                assert(room.vacant[after.vacant.index_of(key)] == key);
            }
        }
    }
    assert forall|i: int| 0 <= i < m.queue.len() implies {
        &&& after.waiter(#[trigger] m.queue[i]).notification == Some(
            Notification { kind: NotificationKind::All, round: m.state.round },
        )
        &&& after.waiter(m.queue[i]).parked is Unparked
        &&& after.home(m.queue[i]) is Out
    } by {
        let key = m.queue[i];
        assert(m.queued(i));
        assert(m.waits(key));
        assert(m.with_room().home(key) == m.home(key));
        assert(m.with_room().waiter(key) == m.waiter(key));
    }
    assert forall|key: usize| m.live(key) && !m.queue.contains(key) implies {
        &&& #[trigger] after.waiter(key) == m.waiter(key)
        &&& after.home(key) == m.home(key)
    } by {
        assert(m.home_wf(key));
        assert(m.with_room().home(key) == m.home(key));
        assert(m.with_room().waiter(key) == m.waiter(key));
    }
}

/// How many of `nodes` have parked with `waker`.
pub open spec fn parked_with<W>(m: Memory<W>, nodes: Seq<usize>, waker: W) -> nat {
    nodes.filter(|key: usize| m.waker(key) == Some(waker)).len()
}

proof fn lemma_wakers_count<W>(m: Memory<W>, nodes: Seq<usize>, waker: W)
    ensures
        m.wakers_of(nodes).to_multiset().count(waker) == parked_with(m, nodes, waker),
    decreases nodes.len(),
{
    reveal(Seq::filter);
    m.wakers_of(nodes).to_multiset_ensures();
    if nodes.len() > 0 {
        let rest = m.wakers_of(nodes.drop_last());
        lemma_wakers_count(m, nodes.drop_last(), waker);
        if let Some(last) = m.waker(nodes.last()) {
            vstd::seq_lib::lemma_multiset_commutative(seq![last], rest);
            seq![last].to_multiset_ensures();
            assert(seq![last] =~= Seq::empty().push(last));
            Seq::<W>::empty().to_multiset_ensures();
        }
    }
}

/// A notification of all wakes everybody who waits, by the waker that they have parked with, as often as
/// it was parked with, and nobody else.
pub proof fn law_notification_of_all_wakes<W>(m: Memory<W>, waker: W)
    requires
        calm(m),
    ensures
        m.woken_all().to_multiset().count(waker) == parked_with(m, m.queue, waker),
{
    lemma_wakers_count(m, m.queue, waker);
    lemma_in_batches(m.wakers_of(m.queue));
    if m.queue.len() == 0 {
        assert(m.wakers_of(m.queue) =~= m.woken_all());
    }
}

/// Where everybody who waits has parked, the wakers are collected in the order in which they came.
pub proof fn law_wakers_in_order<W>(m: Memory<W>, nodes: Seq<usize>)
    requires
        forall|i: int| 0 <= i < nodes.len() ==> m.waker(#[trigger] nodes[i]) is Some,
    ensures
        m.wakers_of(nodes).len() == nodes.len(),
        forall|i: int|
            0 <= i < nodes.len() ==> Some(#[trigger] m.wakers_of(nodes)[i]) == m.waker(
                nodes[nodes.len() - 1 - i],
            ),
    decreases nodes.len(),
{
    if nodes.len() > 0 {
        assert(m.waker(nodes[nodes.len() - 1]) is Some);
        law_wakers_in_order(m, nodes.drop_last());
    }
}

/// Wakers are woken batch by batch in the order in which they came, and from the last one to the first
/// within a batch.
pub proof fn law_batches_in_order<W>(wakers: Seq<W>, i: int)
    requires
        0 <= i < wakers.len(),
    ensures
        in_batches(wakers).len() == wakers.len(),
        ({
            let from = i - i % 32;
            let to = if from + 32 < wakers.len() {
                from + 32
            } else {
                wakers.len() as int
            };
            in_batches(wakers)[i] == wakers[from + to - 1 - i]
        }),
    decreases wakers.len(),
{
    if wakers.len() > WAKERS {
        let rest = wakers.skip(WAKERS as int);
        if i >= WAKERS {
            law_batches_in_order(rest, i - WAKERS);
        } else {
            law_batches_in_order(rest, 0);
        }
    }
}

/// Room for somebody who comes is made without a change to anybody else, and whoever comes has neither
/// parked nor been notified.
pub proof fn law_newcomer_is_apart<W>(m: Memory<W>)
    requires
        m.wf(),
    ensures
        ({
            let room = m.with_room();
            let key = m.vacancy();
            &&& room.state == m.state
            &&& room.queue == m.queue
            &&& room.rings == m.rings
            &&& room.locked == m.locked
            &&& !m.live(key)
            &&& room.waits(key)
            &&& room.home(key) is Out
            &&& room.waker(key) is None
            &&& forall|other: usize|
                m.live(other) ==> {
                    &&& #[trigger] room.live(other)
                    &&& room.waiter(other) == m.waiter(other)
                    &&& room.home(other) == m.home(other)
                }
        }),
{
    m.lemma_room();
    let room = m.with_room();
    assert forall|other: usize| m.live(other) implies {
        &&& #[trigger] room.live(other)
        &&& room.waiter(other) == m.waiter(other)
        &&& room.home(other) == m.home(other)
    } by {
        assert(room.home(other) == m.home(other));
    }
}

} // verus!
