use asyncs::parker::{Park, ParkStep, Parking, State, StrongParking, Unpark, UnparkStep, WeakParking};

#[test]
fn unpark_first() {
    let mut parking: WeakParking<u32> = WeakParking::new();

    assert!(parking.unpark().is_none());
    assert!(parking.park(1).is_ready());
}

#[test]
fn unpark_waker() {
    let mut parking: WeakParking<u32> = WeakParking::new();

    assert!(parking.park(1).is_pending());
    assert!(parking.unpark().is_some());
}

/// Runs a park and an unpark in the order that `order` tells, bit by bit.
fn race(order: u32) -> (bool, Option<u32>) {
    let mut parking: StrongParking<u32> = Parking::new();
    let mut park = Park::new(7);
    let mut unpark = Unpark::new();
    for i in 0..16 {
        if order & (1 << i) == 0 {
            park.advance(&mut parking);
        } else {
            unpark.advance(&mut parking);
        }
    }
    loop {
        let parked = matches!(park.step, ParkStep::Ready | ParkStep::Pending);
        let unparked = matches!(unpark.step, UnparkStep::Done);
        if parked && unparked {
            return (matches!(park.step, ParkStep::Ready), unpark.waker);
        }
        if !parked {
            park.advance(&mut parking);
        } else {
            unpark.advance(&mut parking);
        }
    }
}

#[test]
fn parking_concurrent() {
    // Whatever order the steps come in, the park is over or its waker is there to be woken.
    for order in 0..1024 {
        let (ready, waker) = race(order);
        assert!(ready || waker == Some(7));
    }
    // The unpark comes first.
    assert_eq!(race(0xffff), (true, None));
    // The park comes first.
    assert_eq!(race(0), (false, Some(7)));
}

#[test]
fn slots_take_turns() {
    let mut parking: WeakParking<u32> = WeakParking::new();
    assert!(parking.park(1).is_pending());
    assert_eq!(State::from(parking.state.0), State::Parking(1));
    assert!(parking.park(2).is_pending());
    assert_eq!(State::from(parking.state.0), State::Parking(0));
    assert!(parking.park(3).is_pending());
    assert_eq!(parking.unpark(), Some(3));
    assert_eq!(State::from(parking.state.0), State::Unparked);
    assert!(parking.park(4).is_ready());
    assert!(parking.park(5).is_ready());
}
