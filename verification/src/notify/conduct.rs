//! What a step of a task may do to the memory that it shares with others, whatever they do in between.

use crate::notify::all::{AllProgress, AllStep};
use crate::notify::list::Home;
use crate::notify::memory::Memory;
use crate::notify::notified::{Notified, NotifiedStep, Stage};
use crate::notify::one::{NotifyingOne, OneStep};
use crate::notify::poll::{PollStep, Polling};
use crate::notify::remove::{RemoveStep, Removing};
use crate::notify::state::{Notification, NotificationKind, Round, Status};
use crate::notify::wakers::WAKERS;
use crate::parker::{Park, ParkStep};
use vstd::prelude::*;

verus! {

/// Whether the step of a task leaves the queue, the rings and all waiters alone.
pub open spec fn leaves_waiters<W>(m: Memory<W>, after: Memory<W>) -> bool {
    &&& after.queue == m.queue
    &&& after.rings == m.rings
    &&& after.homes == m.homes
    &&& after.waiters == m.waiters
    &&& after.vacant == m.vacant
}

/// A notification of one does not give up: it is over only once it has left a permit in its round, once it
/// has notified somebody, or once its round is over.
pub proof fn law_one_does_not_give_up<W>(task: NotifyingOne<W>, m: Memory<W>)
    requires
        task.ready(m),
        !(task.step is Done),
        task.round is Some,
    ensures
        ({
            let (then, after) = task.next(m);
            let round = task.round->Some_0;
            &&& then.round == task.round
            &&& then.step is Done ==> {
                ||| task.step is Unlock
                ||| {
                    &&& m.state.status != Status::Waiting
                    &&& m.state.round == round
                    &&& after.state.round == round
                    &&& after.state.status == Status::Notified
                }
                ||| task.step matches OneStep::Attempt(state) && state.round != round
            }
            &&& then.step is Unlock ==> {
                ||| task.step is Settle
                ||| task.step is Reload && m.state.round != round
            }
            &&& then.step is Settle ==> {
                &&& task.step matches OneStep::Store(key, state)
                &&& after.waiter(key).notification == Notification {
                    kind: NotificationKind::One,
                    round: state.round,
                }.stored()
            }
        }),
{
}

/// A notification of one leaves a permit where nobody waits, takes the waiter that came first where
/// somebody does, and changes the state otherwise only to tell that nobody waits any longer.
pub proof fn law_one_keeps_the_state<W>(task: NotifyingOne<W>, m: Memory<W>)
    requires
        task.ready(m),
    ensures
        ({
            let (then, after) = task.next(m);
            &&& after.state != m.state ==> {
                ||| {
                    &&& task.step is Attempt
                    &&& m.state.status != Status::Waiting
                    &&& after.state.status == Status::Notified
                    &&& after.state.round == m.state.round
                }
                ||| {
                    &&& task.step is Settle
                    &&& m.queue.len() == 0
                    &&& after.state.status == Status::Idle
                }
            }
            &&& task.step is Settle && m.queue.len() == 0 ==> after.state.status == Status::Idle
            &&& task.step is Pop ==> {
                let first = m.queue[m.queue.len() - 1];
                &&& then.step matches OneStep::Unpark(key, _) && key == first
                &&& after.queue == m.queue.take(m.queue.len() - 1)
                &&& after.waiters == m.waiters
            }
            &&& !(task.step is Pop) ==> after.queue == m.queue
            &&& !(task.step is Pop) ==> after.homes == m.homes
            &&& !(task.step is Unpark) && !(task.step is Store) ==> after.waiters == m.waiters
            &&& then.step matches OneStep::Unpark(key, _) ==> {
                task.step is Pop || (task.step matches OneStep::Unpark(same, _) && same == key)
            }
            &&& then.step matches OneStep::Store(key, _) ==> {
                task.step matches OneStep::Unpark(same, _) && same == key
            }
        }),
{
}

/// A poll takes a permit if and only if it is notified by it, and is notified of the end of a round only
/// where the round that it is attached to is over.
pub proof fn law_poll_takes_what_it_returns<W>(task: Polling, m: Memory<W>)
    requires
        task.ready(m),
        !(task.step is Load),
    ensures
        ({
            let (then, after) = task.next(m);
            let found = match then.step {
                PollStep::Unlock(found) => found,
                PollStep::Done(found) => found,
                _ => None,
            };
            let known = match task.step {
                PollStep::Unlock(known) => known,
                PollStep::Done(known) => known,
                _ => None,
            };
            &&& then.round == task.round
            &&& then.waiter == task.waiter
            &&& known is Some ==> found == known && after.state == m.state
            &&& known is None && found is Some ==> {
                ||| {
                    &&& found->Some_0.kind == NotificationKind::One
                    &&& found->Some_0.round == m.state.round
                    &&& m.state.round == task.round
                    &&& m.state.status == Status::Notified
                    &&& after.state.round == m.state.round
                    &&& after.state.status == Status::Idle
                }
                ||| {
                    &&& found->Some_0 == Notification {
                        kind: NotificationKind::All,
                        round: task.round,
                    }
                    &&& after.state == m.state
                    &&& match task.step {
                        PollStep::Attempt(state) | PollStep::Settle(state) => state.round
                            != task.round,
                        _ => false,
                    }
                }
            }
            &&& m.state.status == Status::Notified && after.state != m.state ==> {
                found matches Some(found) && found.kind == NotificationKind::One
            }
            &&& after.state != m.state ==> after.state.round == m.state.round
        }),
{
}

/// A poll that finds nothing is listed behind all others, in a state that tells that somebody waits, and
/// it is pending only then.
pub proof fn law_poll_waits_once_listed<W>(task: Polling, m: Memory<W>)
    requires
        task.ready(m),
    ensures
        ({
            let (then, after) = task.next(m);
            &&& then.step == PollStep::Unlock(None) ==> {
                &&& task.step is Push
                &&& after.queue == seq![task.waiter] + m.queue
                &&& after.homes == m.homes.update(task.waiter as int, Home::Listed)
            }
            &&& then.step == PollStep::Done(None) ==> {
                task.step == PollStep::Unlock(None) || task.step == PollStep::Done(None)
            }
            &&& then.step is Push ==> {
                &&& task.step matches PollStep::Settle(state)
                &&& state.round == task.round
                &&& state.status == Status::Waiting || after.state.status == Status::Waiting
                    && m.state.status == Status::Idle
            }
            &&& !(task.step is Push) ==> leaves_waiters(m, after)
            &&& after.waiters == m.waiters
            &&& task.step is Load ==> then.round == if task.round == Round(0) {
                m.state.round
            } else {
                task.round
            }
        }),
{
}

/// A notification of all starts the next round without a permit, once, and is over only then. All waiters
/// of the round before are cut off by it.
pub proof fn law_all_starts_the_next_round<W>(task: AllProgress<W>, m: Memory<W>)
    requires
        task.ready(m),
        !(task.step is Done),
    ensures
        ({
            let (then, after) = task.next(m);
            &&& then.step is Done ==> {
                ||| task.step is Leave
                ||| {
                    &&& task.step is Attempt
                    &&& m.state.status != Status::Waiting
                    &&& after.state.round == m.state.round.succ()
                    &&& after.state.status == Status::Idle
                }
            }
            &&& after.state != m.state ==> task.step is Attempt || task.step is Renew
            &&& then.step matches AllStep::Cut(round) ==> {
                &&& task.step matches AllStep::Renew(state)
                &&& round == state.round
                &&& after.state.round == state.round.succ()
                &&& after.state.status == Status::Idle
            }
            &&& then.step matches AllStep::Renew(state) ==> {
                task.step is Reload && state == m.state && state.status == Status::Waiting
            }
            &&& task.step matches AllStep::Cut(round) ==> {
                &&& then.ring == Some((m.vacancy(), round))
                &&& after.queue.len() == 0
                &&& after.rings[m.vacancy()] == m.queue
            }
        }),
{
}

/// A notification of all takes the waiters that it has cut off in the order in which they came, notifies
/// each of the end of their round, and keeps each waker for its batch. It is over once none is left.
pub proof fn law_all_notifies_each<W>(task: AllProgress<W>, m: Memory<W>)
    requires
        task.ready(m),
        task.rings(),
    ensures
        ({
            let (then, after) = task.next(m);
            let (guard, round) = task.ring->Some_0;
            let nodes = m.rings[guard];
            &&& after.state == m.state
            &&& after.queue == m.queue
            &&& (task.step is Pop && task.wakers.len() < WAKERS || task.step is DrainPop)
                && nodes.len() > 0 ==> {
                &&& then.hand() == Some(nodes[nodes.len() - 1])
                &&& after.rings[guard] == nodes.take(nodes.len() - 1)
            }
            &&& !(task.step is Pop) && !(task.step is DrainPop) && !(task.step is Leave)
                ==> after.rings == m.rings
            &&& then.step is Finish || then.step is DrainUnlock ==> nodes.len() == 0
            &&& task.step matches AllStep::Store(key) ==> {
                &&& after.waiter(key).notification == Some(
                    Notification { kind: NotificationKind::All, round },
                )
                &&& task.unpark.waker matches Some(waker) ==> then.wakers == task.wakers.push(
                    waker,
                )
                &&& task.unpark.waker is None ==> then.wakers == task.wakers
            }
            &&& task.step matches AllStep::DrainStore(key) ==> {
                after.waiter(key).notification == Some(
                    Notification { kind: NotificationKind::All, round },
                )
            }
            &&& task.step is Wake || task.step is LastWake ==> {
                &&& then.wakers.len() == 0
                &&& then.woken.len() == task.woken.len() + task.wakers.len()
                &&& then.woken.take(task.woken.len() as int) =~= task.woken
                &&& forall|i: int|
                    0 <= i < task.wakers.len() ==> #[trigger] then.woken[task.woken.len() + i]
                        == task.wakers[task.wakers.len() - 1 - i]
            }
            &&& !(task.step is Wake) && !(task.step is LastWake) ==> then.woken == task.woken
        }),
{
}

/// A removal hands a permit over wherever it finds one, at first or after it has left the list, and has
/// nothing to hand over otherwise.
pub proof fn law_removal_hands_permit_over<W>(task: Removing<W>, m: Memory<W>)
    requires
        task.ready(m),
    ensures
        ({
            let (then, after) = task.next(m);
            let found = m.waiter(task.waiter).notification;
            &&& task.step is Load || task.step is Reload ==> {
                &&& after == m
                &&& then.step is Release <==> found is Some && found->Some_0.kind
                    == NotificationKind::One
                &&& then.step is Release ==> {
                    &&& then.release.round == Some(found->Some_0.round)
                    &&& then.release.step is Load
                }
                &&& then.step is Done ==> found is Some || task.step is Reload
            }
            &&& then.step is Done ==> {
                ||| task.step is Load
                ||| task.step is Reload
                ||| task.step is Release && then.release.step is Done
                ||| task.step is Done
            }
            &&& task.step is Unlink ==> {
                &&& after.home(task.waiter) is Out || task.waiter >= m.homes.len()
                &&& after.state == m.state
                &&& after.waiters == m.waiters
            }
            &&& task.step is Clear ==> after.state.status == Status::Idle
            &&& after.state != m.state ==> task.step is Clear || task.step is Release
        }),
{
}

/// A call of a [Notified] is ready only once its notification is gone, and hands over what was enabled for
/// and not polled.
pub proof fn law_notified_makes_use_of_notification<W>(task: Notified<W>, m: Memory<W>)
    requires
        task.ready(m),
        !task.rests(),
        !(task.step is Gone),
    ensures
        ({
            let (then, after) = task.next(m);
            let found = m.waiter(task.waiter).notification;
            &&& then.waiter == task.waiter
            &&& then.round == task.round
            &&& then.last == task.last
            &&& then.step is Ready ==> {
                &&& then.stage == Stage::Finished
                &&& task.step is Clear && after.waiter(task.waiter).notification is None
                    || task.step is Poll && (then.polling.step matches PollStep::Done(Some(_)))
            }
            &&& task.step is Check || task.step is Spin ==> {
                &&& after == m
                &&& then.step is Clear <==> found is Some
            }
            &&& then.step is Pending ==> task.step is Park
            &&& task.step matches NotifiedStep::Keep(kept) ==> {
                after.waiter(task.waiter).notification == kept.stored()
            }
            &&& task.step is Recall ==> {
                &&& after.waiter(task.waiter).notification is None
                &&& after.state == m.state
                &&& then.step is Remove <==> found is Some && found->Some_0.kind
                    == NotificationKind::One
                &&& then.step is Remove ==> {
                    &&& then.removing.step is Release
                    &&& then.removing.release.round == Some(found->Some_0.round)
                    &&& then.removing.release.step is Load
                }
            }
            &&& then.step is Gone ==> {
                &&& task.step is Leave
                &&& !after.live(task.waiter)
            }
        }),
{
    let (then, after) = task.next(m);
    if task.step is Leave {
        assert(after.vacant[after.vacant.len() - 1] == task.waiter);
    }
}

/// A call begins with what the stage asks for: whoever does not wait yet has to look for a permit, whoever
/// waits has to look for its notification, and whoever was notified has to do away with it.
pub proof fn law_calls_begin<W>(task: Notified<W>, waker: W)
    requires
        task.rests(),
    ensures
        ({
            let polling = task.polling_with(waker);
            &&& polling.waiter == task.waiter
            &&& polling.stage == task.stage
            &&& polling.round == task.round
            &&& polling.last@ == Some(waker)
            &&& polling.park.waker == Some(waker)
            &&& polling.park.step is Load
            &&& task.stage == Stage::Init ==> {
                &&& polling.step is Poll
                &&& polling.polling.step is Load
                &&& polling.polling.waiter == task.waiter
                &&& polling.polling.round == task.round
            }
            &&& task.stage == Stage::Waiting ==> polling.step is Check
            &&& task.stage == Stage::Finished ==> polling.step is Clear
        }),
        ({
            let enabling = task.enabling();
            &&& enabling.waiter == task.waiter
            &&& enabling.stage == task.stage
            &&& enabling.round == task.round
            &&& enabling.last == task.last
            &&& task.stage == Stage::Init ==> {
                &&& enabling.step is Enable
                &&& enabling.polling.step is Load
                &&& enabling.polling.waiter == task.waiter
                &&& enabling.polling.round == task.round
            }
            &&& task.stage != Stage::Init ==> enabling == task
        }),
        ({
            let dropping = task.dropping();
            &&& dropping.waiter == task.waiter
            &&& dropping.stage == task.stage
            &&& task.stage == Stage::Init ==> dropping.step is Leave
            &&& task.stage == Stage::Waiting ==> {
                &&& dropping.step is Remove
                &&& dropping.removing.step is Load
                &&& dropping.removing.waiter == task.waiter
            }
            &&& task.stage == Stage::Finished ==> dropping.step is Recall
        }),
{
}

/// Where waking is given up between batches, the rest is notified without being woken, and nothing else
/// is different.
pub proof fn law_abandoned_still_notifies<W>(task: AllProgress<W>)
    ensures
        task.step is Relock ==> task.abandoned().step is Drain,
        !(task.step is Relock) ==> task.abandoned().step == task.step,
        task.abandoned().ring == task.ring,
        task.abandoned().wakers == task.wakers,
        task.abandoned().woken == task.woken,
{
}

/// Whoever is left in the ring of a notification of all that was given up is notified of the end of their
/// round, without being unparked. Nobody else is affected, and the guard is gone.
pub proof fn law_rest_is_notified<W>(m: Memory<W>, guard: usize, round: Round)
    requires
        m.wf(),
        m.live(guard),
        m.rings.dom().contains(guard),
    ensures
        ({
            let after = m.released(guard, round);
            &&& after.state == m.state
            &&& after.queue == m.queue
            &&& after.locked == m.locked
            &&& !after.rings.dom().contains(guard)
            &&& !after.live(guard)
            &&& forall|i: int|
                0 <= i < m.rings[guard].len() ==> {
                    let key = #[trigger] m.rings[guard][i];
                    &&& after.waiter(key).notification == Some(
                        Notification { kind: NotificationKind::All, round },
                    )
                    &&& after.waiter(key).parked == m.waiter(key).parked
                    &&& after.waiter(key).wakers == m.waiter(key).wakers
                    &&& after.home(key) is Out
                }
            &&& forall|key: usize|
                m.live(key) && key != guard && !m.rings[guard].contains(key) ==> {
                    &&& #[trigger] after.waiter(key) == m.waiter(key)
                    &&& after.home(key) == m.home(key)
                    &&& after.live(key)
                }
        }),
{
    let after = m.released(guard, round);
    assert(m.ring_wf(guard));
    assert(after.vacant[after.vacant.len() - 1] == guard);
    assert forall|i: int| 0 <= i < m.rings[guard].len() implies {
        let key = #[trigger] m.rings[guard][i];
        &&& after.waiter(key).notification == Some(
            Notification { kind: NotificationKind::All, round },
        )
        &&& after.waiter(key).parked == m.waiter(key).parked
        &&& after.waiter(key).wakers == m.waiter(key).wakers
        &&& after.home(key) is Out
    } by {
        assert(m.ringed(guard, i));
    }
    assert forall|key: usize|
        m.live(key) && key != guard && !m.rings[guard].contains(key) implies {
        &&& #[trigger] after.waiter(key) == m.waiter(key)
        &&& after.home(key) == m.home(key)
        &&& after.live(key)
    } by {
        assert(m.home_wf(key));
        if after.vacant.contains(key) {
            assert(m.vacant[after.vacant.index_of(key)] == key);
        }
    }
}

/// A task of a [Notified] after `k` steps that nobody interrupts.
pub open spec fn alone<W>(task: Notified<W>, m: Memory<W>, k: nat) -> (Notified<W>, Memory<W>)
    decreases k,
{
    if k == 0 {
        (task, m)
    } else {
        let (then, after) = task.next(m);
        alone(then, after, (k - 1) as nat)
    }
}

/// Steps come one after the other.
proof fn lemma_alone<W>(task: Notified<W>, m: Memory<W>, k: nat, l: nat)
    ensures
        alone(task, m, k + l) == alone(alone(task, m, k).0, alone(task, m, k).1, l),
    decreases k,
{
    if k > 0 {
        let (then, after) = task.next(m);
        lemma_alone(then, after, (k - 1) as nat, l);
    }
}

/// A park that nobody interrupts.
proof fn lemma_park_alone<W>(task: Notified<W>, m: Memory<W>, waker: W)
    requires
        task.step is Park,
        task.park == (Park { step: ParkStep::Load, waker: Some(waker) }),
        task.waiter < m.waiters.len(),
        m.waiter(task.waiter).wf(),
        m.waiter(task.waiter).parked is Parking,
    ensures
        ({
            let (then, after) = alone(task, m, 3);
            &&& then.step is Pending
            &&& then.stage == task.stage
            &&& after =~= m.with_parked(task.waiter, waker)
        }),
{
    reveal_with_fuel(alone, 4);
    let (t1, m1) = task.next(m);
    let (t2, m2) = t1.next(m1);
    let (t3, m3) = t2.next(m2);
    assert(m1.waiters =~= m.waiters);
    assert(m3.waiters =~= m.with_parked(task.waiter, waker).waiters);
    assert(alone(task, m, 3) == (t3, m3));
}

/// Looking for a permit, which nobody interrupts.
proof fn lemma_look_alone<W>(task: Notified<W>, m: Memory<W>)
    requires
        m.wf(),
        m.quiet(),
        task.step is Poll,
        task.stage == Stage::Init,
        task.polling == (Polling { waiter: task.waiter, round: task.round, step: PollStep::Load }),
    ensures
        task.found(m) is Some ==> {
            let (then, after) = alone(task, m, 2);
            &&& then.step is Ready
            &&& then.stage == Stage::Finished
            &&& after =~= if task.found(m)->Some_0.kind == NotificationKind::One {
                m.without_permit()
            } else {
                m
            }
        },
        task.found(m) is None ==> {
            let (then, after) = alone(task, m, 7);
            &&& then.step is Park
            &&& then.stage == Stage::Waiting
            &&& then.waiter == task.waiter
            &&& then.park == task.park
            &&& after =~= m.listed(task.waiter)
        },
{
    reveal_with_fuel(alone, 3);
    let (t1, m1) = task.next(m);
    let (t2, m2) = t1.next(m1);
    assert(alone(task, m, 2) == (t2, m2));
    if task.found(m) is None {
        assert(m2 == m);
        let (t3, m3) = t2.next(m2);
        let (t4, m4) = t3.next(m3);
        assert(alone(t2, m2, 2) == (t4, m4));
        let (t5, m5) = t4.next(m4);
        let (t6, m6) = t5.next(m5);
        assert(alone(t4, m4, 2) == (t6, m6));
        let (t7, m7) = t6.next(m6);
        assert(alone(t6, m6, 1) == (t7, m7));
        lemma_alone(t4, m4, 2, 1);
        lemma_alone(t2, m2, 2, 3);
        lemma_alone(task, m, 2, 5);
        assert(m7 =~= m.listed(task.waiter));
    }
}

/// A poll that nobody interrupts is ready if and only if there is something for it, and leaves the memory
/// as a call does that has it for itself.
pub proof fn law_poll_alone<W>(n: Notified<W>, m: Memory<W>, waker: W)
    requires
        m.wf(),
        m.quiet(),
        n.wf(m),
    ensures
        ({
            let begun = n.polling_with(waker);
            let steps: nat = if n.stage == Stage::Finished {
                1
            } else if n.polls_ready(m) {
                2
            } else if n.stage == Stage::Waiting {
                4
            } else {
                10
            };
            let (then, after) = alone(begun, m, steps);
            &&& after =~= n.polled(m, waker)
            &&& n.polls_ready(m) ==> then.step is Ready && then.stage == Stage::Finished
            &&& !n.polls_ready(m) ==> then.step is Pending && then.stage == Stage::Waiting
        }),
{
    assert(m.home_wf(n.waiter));
    assert(m.waiter(n.waiter).wf());
    if m.queue.contains(n.waiter) {
        assert(m.queued(m.queue.index_of(n.waiter)));
        assert(m.waits(m.queue[m.queue.index_of(n.waiter)]));
    }
    let begun = n.polling_with(waker);
    reveal_with_fuel(alone, 3);
    match n.stage {
        Stage::Init => {
            lemma_look_alone(begun, m);
            if !n.polls_ready(m) {
                let (then, after) = alone(begun, m, 7);
                lemma_alone(begun, m, 7, 3);
                lemma_park_alone(then, after, waker);
            }
        },
        Stage::Waiting => {
            if !n.polls_ready(m) {
                let (then, after) = begun.next(m);
                assert(alone(begun, m, 1) == (then, after));
                lemma_alone(begun, m, 1, 3);
                lemma_park_alone(then, after, waker);
            }
        },
        Stage::Finished => {},
    }
}

/// Handing a permit over, which nobody interrupts.
proof fn lemma_release_alone<W>(task: Notified<W>, m: Memory<W>, round: Round)
    requires
        m.wf(),
        m.quiet(),
        task.step is Remove,
        task.removing.step is Release,
        task.removing.release == NotifyingOne::<W>::begun(Some(round)),
    ensures
        ({
            let steps: nat = if m.state.round == round && m.state.status == Status::Waiting {
                11
            } else {
                2
            };
            let (then, after) = alone(task, m, steps);
            &&& then.step is Leave
            &&& then.waiter == task.waiter
            &&& then.removing.release.unpark.waker == m.woken_one(round)
            &&& after =~= m.notified_one(round)
        }),
{
    reveal_with_fuel(alone, 3);
    let (t1, m1) = task.next(m);
    let (t2, m2) = t1.next(m1);
    assert(alone(task, m, 2) == (t2, m2));
    if m.state.round == round && m.state.status == Status::Waiting {
        let last = m.queue.len() - 1;
        let key = m.queue[last];
        assert(m.queued(last));
        assert(m.waits(key));
        assert(m.waiter(key).wf());
        assert(m2 == m);
        let (t3, m3) = t2.next(m2);
        let (t4, m4) = t3.next(m3);
        assert(alone(t2, m2, 2) == (t4, m4));
        let (t5, m5) = t4.next(m4);
        assert(t5.removing.release.step == OneStep::Unpark(key, m.state));
        assert(m5.waiters == m.waiters);
        let (t6, m6) = t5.next(m5);
        assert(alone(t4, m4, 2) == (t6, m6));
        assert(m6.waiters =~= m.waiters);
        let (t7, m7) = t6.next(m6);
        let (t8, m8) = t7.next(m7);
        assert(alone(t6, m6, 2) == (t8, m8));
        assert(t8.removing.release.step == OneStep::Store(key, m.state));
        assert(t8.removing.release.unpark.waker == m.waker(key));
        let (t9, m9) = t8.next(m8);
        let (t10, m10) = t9.next(m9);
        assert(alone(t8, m8, 2) == (t10, m10));
        assert(m9.waiters =~= m.notified_one(round).waiters);
        let (t11, m11) = t10.next(m10);
        assert(alone(t10, m10, 1) == (t11, m11));
        lemma_alone(t8, m8, 2, 1);
        lemma_alone(t6, m6, 2, 3);
        lemma_alone(t4, m4, 2, 5);
        lemma_alone(t2, m2, 2, 7);
        lemma_alone(task, m, 2, 9);
        assert(m11 =~= m.notified_one(round));
    }
}

/// Leaving the list, which nobody interrupts.
proof fn lemma_unlink_alone<W>(task: Notified<W>, m: Memory<W>)
    requires
        m.wf(),
        m.quiet(),
        m.live(task.waiter),
        m.home(task.waiter) is Listed,
        m.waiter(task.waiter).notification is None,
        task.step is Remove,
        task.removing.step is Load,
        task.removing.waiter == task.waiter,
        task.removing.release == NotifyingOne::<W>::begun(None),
    ensures
        ({
            let steps: nat = if m.queue.len() == 1 {
                7
            } else {
                5
            };
            let (then, after) = alone(task, m, steps);
            &&& then.step is Leave
            &&& then.waiter == task.waiter
            &&& then.removing.release.unpark.waker is None
            &&& after =~= m.removed(task.waiter)
        }),
{
    reveal_with_fuel(alone, 3);
    assert(m.home_wf(task.waiter));
    let (t1, m1) = task.next(m);
    let (t2, m2) = t1.next(m1);
    assert(alone(task, m, 2) == (t2, m2));
    let (t3, m3) = t2.next(m2);
    let (t4, m4) = t3.next(m3);
    assert(alone(t2, m2, 2) == (t4, m4));
    let (t5, m5) = t4.next(m4);
    lemma_alone(task, m, 2, 3);
    lemma_alone(t2, m2, 2, 1);
    if m.queue.len() == 1 {
        let (t6, m6) = t5.next(m5);
        assert(alone(t4, m4, 2) == (t6, m6));
        let (t7, m7) = t6.next(m6);
        assert(alone(t6, m6, 1) == (t7, m7));
        lemma_alone(t4, m4, 2, 1);
        lemma_alone(t2, m2, 2, 3);
        lemma_alone(task, m, 2, 5);
        assert(m7 =~= m.removed(task.waiter));
    } else {
        assert(alone(t4, m4, 1) == (t5, m5));
        assert(m5 =~= m.removed(task.waiter));
    }
}

/// How many steps a drop has that nobody interrupts.
pub open spec fn steps_of_drop<W>(n: Notified<W>, m: Memory<W>) -> nat {
    let releasing: nat = match m.waiter(n.waiter).notification {
        Some(notification) => if notification.kind == NotificationKind::All {
            0
        } else if m.state.round == notification.round && m.state.status == Status::Waiting {
            11
        } else {
            2
        },
        None => 0,
    };
    match n.stage {
        Stage::Init => 1,
        Stage::Waiting => if m.waiter(n.waiter).notification is Some {
            releasing + 2
        } else if m.queue.len() == 1 {
            8
        } else {
            6
        },
        Stage::Finished => releasing + 2,
    }
}

/// A drop that nobody interrupts leaves the memory as a call does that has it for itself, and has the same
/// waker to wake.
pub proof fn law_drop_alone<W>(n: Notified<W>, m: Memory<W>)
    requires
        m.wf(),
        m.quiet(),
        n.wf(m),
    ensures
        ({
            let (then, after) = alone(n.dropping(), m, steps_of_drop(n, m));
            &&& then.step is Gone
            &&& after =~= n.dropped(m).left(n.waiter)
            &&& n.stage == Stage::Waiting || (n.stage == Stage::Finished && (m.waiter(
                n.waiter,
            ).notification matches Some(notification) && notification.kind
                == NotificationKind::One)) ==> then.removing.release.unpark.waker
                == n.woken_by_drop(m)
        }),
{
    reveal_with_fuel(alone, 2);
    assert(m.home_wf(n.waiter));
    assert(m.waiter(n.waiter).wf());
    if m.queue.contains(n.waiter) {
        assert(m.queued(m.queue.index_of(n.waiter)));
        assert(m.waits(m.queue[m.queue.index_of(n.waiter)]));
    }
    let begun = n.dropping();
    let found = m.waiter(n.waiter).notification;
    let (then, after) = begun.next(m);
    assert(alone(begun, m, 1) == (then, after));
    if n.stage == Stage::Waiting && found is None {
        let steps: nat = if m.queue.len() == 1 {
            7
        } else {
            5
        };
        lemma_unlink_alone(begun, m);
        let (left, last) = alone(begun, m, steps);
        lemma_alone(begun, m, steps, 1);
        assert(alone(left, last, 1) == left.next(last));
    } else if n.stage != Stage::Init {
        if found is Some && found->Some_0.kind == NotificationKind::One {
            let round = found->Some_0.round;
            let recalled = after;
            assert(recalled.quiet()) by {
                assert forall|i: int| 0 <= i < recalled.queue.len() implies recalled.waits(
                    #[trigger] recalled.queue[i],
                ) by {
                    assert(m.queued(i));
                    assert(m.waits(m.queue[i]));
                }
            }
            assert(recalled.wf()) by {
                assert forall|i: int| 0 <= i < recalled.queue.len() implies #[trigger] recalled.queued(
                    i,
                ) by {
                    assert(m.queued(i));
                }
                assert forall|key: usize| key < recalled.waiters.len() implies
                #[trigger] recalled.home_wf(key) by {
                    assert(m.home_wf(key));
                }
                assert forall|key: usize| key < recalled.waiters.len() implies
                #[trigger] recalled.waiter(key).wf() by {
                    assert(m.waiter(key).wf());
                }
                assert forall|i: int| 0 <= i < recalled.vacant.len() implies
                #[trigger] recalled.vacated(i) by {
                    assert(m.vacated(i));
                }
            }
            lemma_release_alone(then, recalled, round);
            let steps: nat = if m.state.round == round && m.state.status == Status::Waiting {
                11
            } else {
                2
            };
            let (left, last) = alone(then, recalled, steps);
            assert(alone(left, last, 1) == left.next(last));
            lemma_alone(then, recalled, steps, 1);
            lemma_alone(begun, m, 1, steps + 1);
            if m.queue.len() > 0 {
                assert(m.queued(m.queue.len() - 1));
                assert(recalled.waiter(m.queue.last()) == m.waiter(m.queue.last()));
            }
        } else {
            assert(alone(then, after, 1) == then.next(after));
            lemma_alone(begun, m, 1, 1);
        }
    }
}

/// Enabling that nobody interrupts leaves the memory as a call does that has it for itself.
pub proof fn law_enable_alone<W>(n: Notified<W>, m: Memory<W>)
    requires
        m.wf(),
        m.quiet(),
        n.wf(m),
        n.stage == Stage::Init,
    ensures
        ({
            let steps: nat = if n.polls_ready(m) {
                3
            } else {
                7
            };
            let (then, after) = alone(n.enabling(), m, steps);
            &&& then.step is Idle
            &&& then.stage == n.settled(m)
            &&& after =~= n.enabled(m)
        }),
{
    reveal_with_fuel(alone, 3);
    let task = n.enabling();
    let (t1, m1) = task.next(m);
    let (t2, m2) = t1.next(m1);
    assert(alone(task, m, 2) == (t2, m2));
    let (t3, m3) = t2.next(m2);
    assert(alone(t2, m2, 1) == (t3, m3));
    lemma_alone(task, m, 2, 1);
    if n.polls_ready(m) {
        assert(m3 =~= n.enabled(m));
    } else {
        let (t4, m4) = t3.next(m3);
        assert(alone(t2, m2, 2) == (t4, m4));
        let (t5, m5) = t4.next(m4);
        let (t6, m6) = t5.next(m5);
        assert(alone(t4, m4, 2) == (t6, m6));
        let (t7, m7) = t6.next(m6);
        assert(alone(t6, m6, 1) == (t7, m7));
        lemma_alone(t4, m4, 2, 1);
        lemma_alone(t2, m2, 2, 3);
        lemma_alone(task, m, 2, 5);
        assert(m7 =~= n.enabled(m));
    }
}

/// Whoever is over or at rest does nothing by itself.
pub proof fn law_rest_makes_no_step<W>(
    m: Memory<W>,
    one: NotifyingOne<W>,
    all: AllProgress<W>,
    notified: Notified<W>,
)
    ensures
        one.step is Done ==> one.next(m) == (one, m),
        all.step is Done ==> all.next(m) == (all, m),
        notified.rests() || notified.step is Gone ==> notified.next(m) == (notified, m),
{
}

} // verus!
