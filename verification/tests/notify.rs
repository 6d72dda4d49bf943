use asyncs::atomic::MemoryOrder;
use asyncs::notify::list::{GuardedList, Links, List};
use asyncs::notify::state::{
    AtomicNotification, Notification, NotificationKind, Round, State, Status,
};
use asyncs::task::Poll;
use asyncs::{Notified, Notify};

type Waker = &'static str;

fn ready(notified: &mut Notified<Waker>, notify: &mut Notify<Waker>) -> bool {
    notified.poll(notify, "waker").is_ready()
}

#[test]
fn notify_one_simple() {
    let mut notify = Notify::new();

    // given: two notifieds polled in order
    let mut notified1 = notify.notified();
    let mut notified2 = notify.notified();
    assert!(!ready(&mut notified1, &mut notify));
    assert!(!ready(&mut notified2, &mut notify));

    // when: notify_one
    notify.notify_one();

    // then: only the first polled got notified
    assert!(!ready(&mut notified2, &mut notify));
    assert!(ready(&mut notified1, &mut notify));

    // when: another notify_one
    notify.notify_one();
    // then: other got notified
    assert!(ready(&mut notified2, &mut notify));
}

#[test]
fn notify_one_enabled() {
    let mut notify = Notify::new();
    let mut notified1 = notify.notified();
    let mut notified2 = notify.notified();

    // given: enabled notified
    notified1.enable(&mut notify);
    assert!(!ready(&mut notified2, &mut notify));

    // when: notify_one
    notify.notify_one();

    // then: enabled notified behaves same as polled notified
    assert!(ready(&mut notified1, &mut notify));
    notified1.drop(&mut notify);

    assert!(!ready(&mut notified2, &mut notify));
}

#[test]
fn notify_one_permit_does_not_acculumate() {
    let mut notify = Notify::new();

    // given: two notifieds
    let mut notified1 = notify.notified();
    let mut notified2 = notify.notified();

    // when: notify_one twice
    notify.notify_one();
    notify.notify_one();

    // then: only one permit
    assert!(ready(&mut notified1, &mut notify));
    notified1.drop(&mut notify);
    assert!(!ready(&mut notified2, &mut notify));
}

#[test]
fn notify_one_permit_consumed_by_poll() {
    let mut notify = Notify::new();
    let mut notified1 = notify.notified();
    let mut notified2 = notify.notified();

    // given: notify_one permit
    notify.notify_one();

    // when: poll and drop
    assert!(ready(&mut notified1, &mut notify));
    notified1.drop(&mut notify);

    // then: no permit resumed
    assert!(!ready(&mut notified2, &mut notify));
}

#[test]
fn notify_one_permit_doesnot_consumed_by_enable() {
    let mut notify = Notify::new();
    let mut notified1 = notify.notified();
    let mut notified2 = notify.notified();

    // given: notify_one permit
    notify.notify_one();

    // when: enable and drop notified
    notified1.enable(&mut notify);
    notified1.drop(&mut notify);

    // then: notify_one permit resumed
    assert!(ready(&mut notified2, &mut notify));
}

#[test]
fn notify_one_permit_unconsumed_resumed_on_drop() {
    let mut notify = Notify::new();

    // given: enabled/polled notified
    let mut notified1 = notify.notified();
    assert!(!ready(&mut notified1, &mut notify));

    // when: notify_one and drop with no further poll
    notify.notify_one();
    notified1.drop(&mut notify);

    // then: unconsumed notify_one will be resumed
    let mut notified2 = notify.notified();
    assert!(ready(&mut notified2, &mut notify));
}

#[test]
fn notify_one_permit_does_not_resumed_cross_round() {
    let mut notify = Notify::new();

    // given: enabled/polled notified
    let mut notified1 = notify.notified();
    assert!(!ready(&mut notified1, &mut notify));

    // when: notify_one and drop after notify_all with no further poll
    notify.notify_one();
    notify.notify_all();
    notified1.drop(&mut notify);

    // then: unconsumed notify_one will not be resumed cross round
    let mut notified2 = notify.notified();
    assert!(!ready(&mut notified2, &mut notify));
}

#[test]
fn notify_all_simple() {
    let mut notify = Notify::new();

    // given: not enabled notified
    let mut notified1 = notify.notified().detach();
    let mut notified2 = notify.notified().detach();
    let mut notified3 = notify.notified();

    // when: notify_all
    notify.notify_all();

    // then: only attached ones got notified
    assert!(!ready(&mut notified1, &mut notify));
    assert!(!ready(&mut notified2, &mut notify));
    assert!(ready(&mut notified3, &mut notify));

    // given: polled notified
    // when: notify_all
    notify.notify_all();

    // then: notified
    assert!(ready(&mut notified1, &mut notify));
    assert!(ready(&mut notified2, &mut notify));
}

#[test]
fn notify_all_enabled() {
    let mut notify = Notify::new();
    let mut notified = notify.notified();

    // given: enabled notified
    notified.enable(&mut notify);

    // when: notify_all
    notify.notify_all();

    // then: notified
    assert!(ready(&mut notified, &mut notify));
}

#[test]
fn notify_all_ruin_permit() {
    let mut notify = Notify::new();

    // given: a detached Notified
    let mut notified = notify.notified().detach();

    // when: notify_one and then notify_all
    notify.notify_one();
    notify.notify_all();

    // then: permit got cleared
    assert!(!ready(&mut notified, &mut notify));
}

#[test]
fn notify_unlink() {
    let mut notify = Notify::new();

    let mut notified1 = notify.notified();
    let mut notified2 = notify.notified();

    assert!(!ready(&mut notified1, &mut notify));
    assert!(!ready(&mut notified2, &mut notify));

    let mut notified3 = notify.notified();
    notified3.enable(&mut notify);

    notified1.drop(&mut notify);
    notified2.drop(&mut notify);
    notified3.drop(&mut notify);

    assert!(notify.notify_all().is_empty());
}

#[test]
fn waiters_are_woken_first_come_first() {
    let mut notify = Notify::new();
    let names = ["first", "second", "third"];
    let mut waiting = Vec::new();
    for name in names {
        let mut notified = notify.notified();
        assert_eq!(notified.poll(&mut notify, name), Poll::Pending);
        waiting.push(notified);
    }
    for name in names {
        assert_eq!(notify.notify_one(), Some(name));
    }
    assert_eq!(notify.notify_one(), None);
    for notified in waiting.iter_mut() {
        assert_eq!(notified.poll(&mut notify, "late"), Poll::Ready(()));
    }
}

#[test]
fn the_waker_of_the_last_poll_is_woken() {
    let mut notify = Notify::new();
    let mut notified = notify.notified();
    assert!(notified.poll(&mut notify, "old").is_pending());
    assert!(notified.poll(&mut notify, "newer").is_pending());
    assert!(notified.poll(&mut notify, "newest").is_pending());
    assert_eq!(notify.notify_one(), Some("newest"));
}

#[test]
fn an_enabled_waiter_has_no_waker() {
    let mut notify = Notify::new();
    let mut enabled = notify.notified();
    let mut polled = notify.notified();
    enabled.enable(&mut notify);
    assert!(polled.poll(&mut notify, "polled").is_pending());
    assert_eq!(notify.notify_all(), vec!["polled"]);
    assert!(ready(&mut enabled, &mut notify));
    assert!(ready(&mut polled, &mut notify));
}

#[test]
fn batches_are_woken_in_turn() {
    let mut notify = Notify::new();
    let mut waiting = Vec::new();
    for name in 0..70u32 {
        let mut notified = notify.notified();
        assert!(notified.poll(&mut notify, name).is_pending());
        waiting.push(notified);
    }
    let woken = notify.notify_all();
    let mut expected: Vec<u32> = (0..32).rev().collect();
    expected.extend((32..64).rev());
    expected.extend((64..70).rev());
    assert_eq!(woken, expected);
    for notified in waiting.iter_mut() {
        assert!(notified.poll(&mut notify, 100).is_ready());
    }
}

#[test]
fn each_notify_all_starts_a_round() {
    let mut notify: Notify<Waker> = Notify::new();
    assert_eq!(notify.round(), Round(4));
    notify.notify_one();
    assert_eq!(notify.round(), Round(4));
    notify.notify_all();
    assert_eq!(notify.round(), Round(8));
    notify.notify_all();
    assert_eq!(notify.round(), Round(12));
}

#[test]
fn attached_waiters_stay_ready_round_after_round() {
    for rounds in 1..50 {
        let mut notify = Notify::new();
        let mut attached = notify.notified();
        let mut enabled = notify.notified();
        enabled.enable(&mut notify);
        let mut polled = notify.notified();
        assert!(polled.poll(&mut notify, "polled").is_pending());
        assert_eq!(notify.notify_all(), vec!["polled"]);
        for _ in 1..rounds {
            assert!(notify.notify_all().is_empty());
        }
        assert!(ready(&mut attached, &mut notify));
        assert!(ready(&mut enabled, &mut notify));
        assert!(ready(&mut polled, &mut notify));
    }
}

#[test]
fn an_unlinked_node_has_no_neighbours() {
    let mut links = Links::new();
    let mut list = List::default();
    let nodes = [links.add(), links.add(), links.add()];
    for node in nodes {
        list.push_front(&mut links, node);
    }
    assert_eq!((links.cells[1].next, links.cells[1].prev), (Some(0), Some(2)));
    assert!(list.unlink(&mut links, nodes[1]));
    assert_eq!((links.cells[1].next, links.cells[1].prev), (None, None));
    // There is nothing to unlink any more.
    assert!(!list.unlink(&mut links, nodes[1]));
    assert_eq!((list.head, list.tail), (Some(2), Some(0)));
    assert_eq!((links.cells[0].next, links.cells[0].prev), (None, Some(2)));
    assert_eq!((links.cells[2].next, links.cells[2].prev), (Some(0), None));
    assert!(list.unlink(&mut links, nodes[2]));
    assert!(list.unlink(&mut links, nodes[0]));
    assert_eq!((links.cells[2].next, links.cells[2].prev), (None, None));
    assert_eq!((links.cells[0].next, links.cells[0].prev), (None, None));
    assert!(list.is_empty());
    assert_eq!(list.pop_back(&mut links), None);
}

#[test]
fn nodes_are_taken_from_the_back_of_a_ring() {
    let mut links = Links::new();
    let mut list = List::default();
    let nodes = [links.add(), links.add(), links.add()];
    let guard = links.add();
    for node in nodes {
        list.push_front(&mut links, node);
    }
    let mut ring = GuardedList::new(list, &mut links, guard);
    assert_eq!((links.cells[guard].next, links.cells[guard].prev), (Some(2), Some(0)));
    assert_eq!(ring.pop_back(&mut links), Some(0));
    // The taken node leads to the guard, and the one before it to the taken one.
    assert_eq!((links.cells[0].next, links.cells[0].prev), (Some(guard), Some(1)));
    assert_eq!((links.cells[1].next, links.cells[1].prev), (Some(0), Some(2)));
    assert_eq!((links.cells[guard].next, links.cells[guard].prev), (Some(2), Some(1)));
    assert_eq!(ring.pop_back(&mut links), Some(1));
    assert_eq!((links.cells[1].next, links.cells[1].prev), (Some(guard), Some(2)));
    assert_eq!(ring.pop_back(&mut links), Some(2));
    assert!(!ring.is_empty());
    assert_eq!(ring.pop_back(&mut links), None);
    assert!(ring.is_empty());
}

#[test]
fn a_dropped_permit_goes_to_the_next_waiter() {
    let mut notify = Notify::new();
    let mut first = notify.notified();
    let mut second = notify.notified();
    assert!(first.poll(&mut notify, "first").is_pending());
    assert!(second.poll(&mut notify, "second").is_pending());
    assert_eq!(notify.notify_one(), Some("first"));
    assert_eq!(first.drop(&mut notify), Some("second"));
    assert!(ready(&mut second, &mut notify));
    // The permit is gone with the poll.
    let mut third = notify.notified();
    assert!(!ready(&mut third, &mut notify));
}

#[test]
fn leaving_does_not_disturb_those_in_between() {
    let mut notify = Notify::new();
    let mut a = notify.notified();
    let mut b = notify.notified();
    let mut c = notify.notified();
    assert!(a.poll(&mut notify, "a").is_pending());
    assert!(b.poll(&mut notify, "b").is_pending());
    assert!(c.poll(&mut notify, "c").is_pending());
    assert_eq!(b.drop(&mut notify), None);
    assert_eq!(notify.notify_one(), Some("a"));
    assert_eq!(notify.notify_one(), Some("c"));
    assert!(ready(&mut a, &mut notify));
    assert!(ready(&mut c, &mut notify));
}

#[test]
fn places_are_used_again() {
    let mut notify: Notify<Waker> = Notify::new();
    let first = notify.notified();
    let place = first.waiter;
    first.drop(&mut notify);
    let second = notify.notified();
    assert_eq!(second.waiter, place);
}

#[test]
fn a_notified_that_was_polled_to_the_end_stays_ready() {
    let mut notify = Notify::new();
    let mut notified = notify.notified();
    notify.notify_one();
    assert!(ready(&mut notified, &mut notify));
    assert!(ready(&mut notified, &mut notify));
    assert!(notified.try_poll(&mut notify));
}

#[test]
fn try_poll_does_not_park() {
    let mut notify = Notify::new();
    let mut notified = notify.notified();
    assert!(notified.poll(&mut notify, "parked").is_pending());
    assert!(!notified.try_poll(&mut notify));
    assert_eq!(notify.notify_one(), Some("parked"));
    assert!(notified.try_poll(&mut notify));
}

#[test]
fn words_of_states() {
    for status in [Status::Idle, Status::Waiting, Status::Notified] {
        for round in [Round(0), Round(4), Round(usize::MAX - 3)] {
            let state = State { round, status };
            let word = state.into();
            assert_eq!(State::from(word), state);
        }
    }
    assert_eq!(State { round: Round(8), status: Status::Idle }.into(), 8);
    assert_eq!(State { round: Round(8), status: Status::Waiting }.into(), 9);
    assert_eq!(State { round: Round(8), status: Status::Notified }.into(), 10);
    assert_eq!(Round(usize::MAX - 3).next(), Round(0));
}

#[test]
fn words_of_notifications() {
    let one = Notification { kind: NotificationKind::One, round: Round(4) };
    let all = Notification { kind: NotificationKind::All, round: Round(4) };
    assert_eq!(one.into(), 4);
    assert_eq!(all.into(), 5);
    assert_eq!(Notification::from(5), all);
    let mut cell = AtomicNotification::default();
    assert_eq!(cell.load(MemoryOrder::Acquire), None);
    cell.store(all, MemoryOrder::Release);
    assert_eq!(cell.load(MemoryOrder::Acquire), Some(all));
    assert_eq!(cell.take(), Some(all));
    assert_eq!(cell.take(), None);
    cell.store(one, MemoryOrder::Relaxed);
    cell.clear();
    assert_eq!(cell.load(MemoryOrder::Relaxed), None);
}
