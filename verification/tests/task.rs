use asyncs::task::{self, Poll};

#[test]
fn yield_now() {
    let mut yielding = task::yield_now();
    // The first poll gives way, and has its waker woken.
    assert_eq!(yielding.poll("waker"), (Poll::Pending, Some("waker")));
    // Then it is over.
    assert_eq!(yielding.poll("waker"), (Poll::Ready(()), None));
    assert_eq!(yielding.poll("waker"), (Poll::Ready(()), None));
}

#[test]
fn polls() {
    assert!(Poll::Ready(1).is_ready());
    assert!(!Poll::Ready(1).is_pending());
    assert!(Poll::<u32>::Pending.is_pending());
    assert!(!Poll::<u32>::Pending.is_ready());
}
