use std::sync::Arc;

use asyncs::task::Poll;
use asyncs::watch::table::{Version, ROW};
use asyncs::watch::{self, RecvError, Shared};

type Waker = &'static str;

#[test]
fn channel_sequential() {
    // given: a watch channel
    let (mut shared, sender, receiver): (Shared<i32, Waker>, _, _) = watch::channel(5);

    // when: borrow without a send
    let latest = receiver.borrow(&mut shared);
    // then: have seen initial value
    assert_eq!(*shared.value(&latest), 5);
    assert!(!latest.has_changed());
    shared.release(latest);

    // when: send
    sender.send(&mut shared, 6).unwrap();
    // then: receiver will observe that send
    let latest = receiver.borrow(&mut shared);
    assert_eq!(*shared.value(&latest), 6);
    assert!(latest.has_changed());
    shared.release(latest);

    // when: send after all receivers dropped.
    receiver.drop(&mut shared);
    assert_eq!(sender.send(&mut shared, 7).unwrap_err().into_value(), 7);

    // then: send fails with no side effect.
    let receiver = sender.subscribe(&mut shared);
    let latest = receiver.borrow(&mut shared);
    assert_eq!(*shared.value(&latest), 6);
    assert!(!latest.has_changed());
    shared.release(latest);
    receiver.drop(&mut shared);

    // when: publish after all receivers dropped.
    sender.publish(&mut shared, 7);
    // then: new receiver will observe that
    let receiver = sender.subscribe(&mut shared);
    let latest = receiver.borrow(&mut shared);
    assert_eq!(*shared.value(&latest), 7);
    assert!(!latest.has_changed());
}

#[test]
fn receivers_dropped() {
    let (mut shared, sender, receiver): (Shared<i32, Waker>, _, _) = watch::channel(5);
    let mut closing = sender.closed();
    assert_eq!(closing.poll(&sender, &mut shared, "closed"), Poll::Pending);
    assert_eq!(receiver.drop(&mut shared), vec!["closed"]);
    assert_eq!(closing.poll(&sender, &mut shared, "closed"), Poll::Ready(()));

    let _receiver = sender.subscribe(&mut shared);
    let mut closing = sender.closed();
    assert_eq!(closing.poll(&sender, &mut shared, "closed"), Poll::Pending);
}

#[test]
fn senders_dropped() {
    let (mut shared, sender, mut receiver): (Shared<(), Waker>, _, _) = watch::channel(());
    let clone = sender.clone(&mut shared);
    assert!(clone.drop(&mut shared).is_empty());
    let mut changing = receiver.changed();
    assert_eq!(changing.poll(&mut receiver, &mut shared, "changed"), Poll::Pending);
    changing.drop(&mut shared);

    assert!(sender.drop(&mut shared).is_empty());
    let mut changing = receiver.changed();
    assert_eq!(
        changing.poll(&mut receiver, &mut shared, "changed"),
        Poll::Ready(Err(RecvError(())))
    );
}

#[test]
fn changed() {
    let (mut shared, sender, mut receiver): (Shared<i32, Waker>, _, _) = watch::channel(0);
    let mut values = vec![];
    let mut changing = receiver.changed();
    for value in 1..4 {
        assert_eq!(changing.poll(&mut receiver, &mut shared, "changed"), Poll::Pending);
        assert_eq!(sender.send(&mut shared, value).unwrap(), vec!["changed"]);
        match changing.poll(&mut receiver, &mut shared, "changed") {
            Poll::Ready(Ok(latest)) => {
                values.push(*shared.value(&latest));
                shared.release(latest);
            },
            _ => unreachable!(),
        }
    }
    assert_eq!(changing.poll(&mut receiver, &mut shared, "changed"), Poll::Pending);

    // Final value is guaranteed to be seen before error.
    assert_eq!(sender.send(&mut shared, 4).unwrap(), vec!["changed"]);
    assert!(sender.drop(&mut shared).is_empty());
    while let Poll::Ready(Ok(latest)) = changing.poll(&mut receiver, &mut shared, "changed") {
        values.push(*shared.value(&latest));
        shared.release(latest);
    }
    assert_eq!(
        changing.poll(&mut receiver, &mut shared, "changed"),
        Poll::Ready(Err(RecvError(())))
    );
    assert_eq!(values, vec![1, 2, 3, 4]);
}

#[test]
fn ref_drop_release_value() {
    let value = Arc::new(());

    let (mut shared, sender, receiver): (Shared<Arc<()>, Waker>, _, _) =
        watch::channel(value.clone());
    assert_eq!(Arc::strong_count(&value), 2);

    let borrowed1 = receiver.borrow(&mut shared);
    let borrowed2 = receiver.borrow(&mut shared);
    assert_eq!(Arc::strong_count(&value), 2);
    sender.send(&mut shared, Arc::new(())).unwrap();
    assert_eq!(Arc::strong_count(&value), 2);

    shared.release(borrowed1);
    assert_eq!(Arc::strong_count(&value), 2);
    shared.release(borrowed2);
    assert_eq!(Arc::strong_count(&value), 1);
}

#[test]
fn replaced_values_are_dropped_at_once() {
    let value = Arc::new(1);
    let (mut shared, sender, _receiver): (Shared<Arc<i32>, Waker>, _, _) =
        watch::channel(value.clone());
    sender.send(&mut shared, Arc::new(2)).unwrap();
    assert_eq!(Arc::strong_count(&value), 1);
}

#[test]
fn the_last_value_is_dropped_in_the_end() {
    let value = Arc::new(1);
    let (mut shared, sender, receiver): (Shared<Arc<i32>, Waker>, _, _) =
        watch::channel(value.clone());
    sender.drop(&mut shared);
    receiver.drop(&mut shared);
    assert_eq!(Arc::strong_count(&value), 2);
    shared.drop();
    assert_eq!(Arc::strong_count(&value), 1);
}

#[test]
fn values_stay_as_long_as_they_are_borrowed() {
    let (mut shared, sender, mut receiver): (Shared<usize, Waker>, _, _) = watch::channel(0);
    // More values than a row has slots.
    let mut borrowed = vec![receiver.borrow_and_update(&mut shared)];
    for value in 1..3 * ROW {
        sender.publish(&mut shared, value);
        borrowed.push(receiver.borrow_and_update(&mut shared));
    }
    for (value, latest) in borrowed.iter().enumerate() {
        assert_eq!(*shared.value(latest), value);
        assert_eq!(shared.version(latest), Version(value as u64 + 1));
    }
    for latest in borrowed {
        shared.release(latest);
    }
    sender.publish(&mut shared, 100);
    let latest = receiver.borrow(&mut shared);
    assert_eq!(*shared.value(&latest), 100);
}

#[test]
fn slots_are_used_again() {
    let (mut shared, sender, mut receiver): (Shared<usize, Waker>, _, _) = watch::channel(0);
    for value in 1..10 * ROW {
        sender.publish(&mut shared, value);
        let latest = receiver.borrow_and_update(&mut shared);
        assert!(latest.slot < ROW);
        assert_eq!(*shared.value(&latest), value);
        shared.release(latest);
    }
}

#[test]
fn seen_values_have_not_changed() {
    let (mut shared, sender, mut receiver): (Shared<i32, Waker>, _, _) = watch::channel(0);
    let mut other = receiver.clone(&mut shared);
    assert_eq!(sender.receiver_count(&shared), 2);
    sender.publish(&mut shared, 1);
    let latest = receiver.borrow(&mut shared);
    assert!(latest.has_changed());
    shared.release(latest);
    let latest = receiver.borrow_and_update(&mut shared);
    assert!(latest.has_changed());
    shared.release(latest);
    let latest = receiver.borrow_and_update(&mut shared);
    assert!(!latest.has_changed());
    shared.release(latest);
    // Each receiver sees for itself.
    let latest = other.borrow_and_update(&mut shared);
    assert!(latest.has_changed());
    shared.release(latest);
}

#[test]
fn later_values_overtake() {
    let (mut shared, sender, mut receiver): (Shared<i32, Waker>, _, _) = watch::channel(0);
    let mut changing = receiver.changed();
    assert_eq!(changing.poll(&mut receiver, &mut shared, "first"), Poll::Pending);
    // Polled again in vain, it is woken by the last waker.
    assert_eq!(changing.poll(&mut receiver, &mut shared, "second"), Poll::Pending);
    assert_eq!(sender.publish(&mut shared, 1), vec!["second"]);
    assert!(sender.publish(&mut shared, 2).is_empty());
    match changing.poll(&mut receiver, &mut shared, "third") {
        Poll::Ready(Ok(latest)) => assert_eq!(*shared.value(&latest), 2),
        _ => unreachable!(),
    }
}

#[test]
fn all_waiting_receivers_are_woken() {
    let (mut shared, sender, mut first): (Shared<i32, Waker>, _, _) = watch::channel(0);
    let mut second = first.clone(&mut shared);
    let mut changing1 = first.changed();
    let mut changing2 = second.changed();
    assert!(changing1.poll(&mut first, &mut shared, "first").is_pending());
    assert!(changing2.poll(&mut second, &mut shared, "second").is_pending());
    assert_eq!(sender.publish(&mut shared, 1), vec!["second", "first"]);
    assert!(changing1.poll(&mut first, &mut shared, "first").is_ready());
    assert!(changing2.poll(&mut second, &mut shared, "second").is_ready());
}

#[test]
fn the_last_sender_wakes_those_who_wait() {
    let (mut shared, sender, mut receiver): (Shared<i32, Waker>, _, _) = watch::channel(0);
    let mut changing = receiver.changed();
    assert!(changing.poll(&mut receiver, &mut shared, "changed").is_pending());
    assert_eq!(sender.drop(&mut shared), vec!["changed"]);
    assert_eq!(
        changing.poll(&mut receiver, &mut shared, "changed"),
        Poll::Ready(Err(RecvError(())))
    );
}

#[test]
fn receivers_may_come_back() {
    let (mut shared, sender, receiver): (Shared<i32, Waker>, _, _) = watch::channel(0);
    let mut closing = sender.closed();
    assert!(closing.poll(&sender, &mut shared, "closed").is_pending());
    assert_eq!(receiver.drop(&mut shared), vec!["closed"]);
    assert!(sender.is_closed(&shared));
    // Somebody subscribes before the sender looks.
    let receiver = sender.subscribe(&mut shared);
    assert!(!sender.is_closed(&shared));
    assert!(closing.poll(&sender, &mut shared, "again").is_pending());
    assert_eq!(receiver.drop(&mut shared), vec!["again"]);
    assert!(closing.poll(&sender, &mut shared, "again").is_ready());
}

#[test]
fn tagged_words() {
    let mut latest = asyncs::watch::table::Latest::new(3);
    let order = asyncs::atomic::MemoryOrder::Acquire;
    assert_eq!(latest.load(order), (3, false));
    assert_eq!(latest.0, 6);
    assert_eq!(latest.compare_exchange(2, 5, order, order), Err(3));
    assert_eq!(latest.compare_exchange(3, 5, order, order), Ok(3));
    latest.close();
    assert_eq!(latest.load(order), (5, true));
    assert_eq!(latest.compare_exchange(5, 6, order, order), Err(5));
    latest.close();
    assert_eq!(latest.load(order), (5, true));
}

#[test]
fn versions_follow_each_other() {
    assert_eq!(Version::default(), Version(0));
    assert_eq!(Version(1).next(), Version(2));
}
