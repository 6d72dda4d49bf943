use asyncs::notify::machine::{Machine, Progress};
use asyncs::watch::machine as watch;
use asyncs::watch::table::{Version, ROW};

type Waker = u32;

/// Makes steps of a task until it rests.
fn run(machine: &mut Machine<Waker>, id: usize) -> Vec<Waker> {
    let mut woken = Vec::new();
    loop {
        match machine.progress(id) {
            Progress::Running => machine.step(id),
            Progress::Woken => {
                woken.extend(machine.take_woken(id));
                machine.step(id);
            },
            Progress::Done => {
                woken.extend(machine.finish(id));
                return woken;
            },
            _ => return woken,
        }
    }
}

fn poll(machine: &mut Machine<Waker>, id: usize, waker: Waker) -> bool {
    machine.begin_poll(id, waker);
    run(machine, id);
    machine.progress(id) == Progress::Ready
}

#[test]
fn tasks_in_turn() {
    let mut machine = Machine::new();
    let first = machine.notified();
    let second = machine.notified();
    assert!(!poll(&mut machine, first, 1));
    assert!(!poll(&mut machine, second, 2));
    let one = machine.begin_notify_one();
    assert_eq!(run(&mut machine, one), vec![1]);
    assert!(poll(&mut machine, first, 1));
    let all = machine.begin_notify_all();
    assert_eq!(run(&mut machine, all), vec![2]);
    assert!(poll(&mut machine, second, 2));
}

#[test]
fn a_permit_for_two() {
    // Two notifications of one and two polls, whose steps come in many orders: each notification
    // reaches somebody, or leaves the permit.
    for seed in 0..500u64 {
        let mut machine = Machine::new();
        let waiting = [machine.notified(), machine.notified()];
        for (i, id) in waiting.iter().enumerate() {
            machine.begin_poll(*id, i as u32);
        }
        let notifying = [machine.begin_notify_one(), machine.begin_notify_one()];
        let tasks = [waiting[0], waiting[1], notifying[0], notifying[1]];
        let mut random = seed.wrapping_mul(6364136223846793005).wrapping_add(1442695040888963407);
        for _ in 0..400 {
            random = random.wrapping_mul(6364136223846793005).wrapping_add(1442695040888963407);
            let id = tasks[(random >> 33) as usize % 4];
            if machine.progress(id) == Progress::Running {
                machine.step(id);
            }
        }
        let mut woken = Vec::new();
        for id in notifying {
            woken.extend(run(&mut machine, id));
        }
        let mut ready = 0;
        for (i, id) in waiting.iter().enumerate() {
            run(&mut machine, *id);
            // Whoever was pending has been woken if it is notified by now.
            let pending = machine.progress(*id) == Progress::Pending;
            let now = poll(&mut machine, *id, i as u32);
            if now {
                ready += 1;
                assert!(!pending || woken.contains(&(i as u32)));
            }
        }
        assert!(ready >= 1);
        // A permit is left at most once.
        let third = machine.notified();
        if poll(&mut machine, third, 3) {
            assert!(ready == 1);
            let fourth = machine.notified();
            assert!(!poll(&mut machine, fourth, 4));
        }
    }
}

#[test]
fn leaving_between_batches() {
    let mut machine = Machine::new();
    let mut waiting = Vec::new();
    for i in 0..40 {
        let id = machine.notified();
        assert!(!poll(&mut machine, id, i));
        waiting.push(id);
    }
    let all = machine.begin_notify_all();
    while machine.progress(all) == Progress::Running {
        machine.step(all);
    }
    // The first batch is there, and the lock is not taken.
    assert_eq!(machine.progress(all), Progress::Woken);
    let woken = machine.take_woken(all);
    assert_eq!(woken, (0..32).rev().collect::<Vec<_>>());
    // Somebody of the second batch leaves, and somebody comes.
    let leaving = waiting.remove(35);
    machine.begin_drop(leaving);
    assert!(run(&mut machine, leaving).is_empty());
    let late = machine.notified();
    assert!(!poll(&mut machine, late, 100));
    let rest = run(&mut machine, all);
    assert_eq!(rest, vec![39, 38, 37, 36, 34, 33, 32]);
    for id in waiting {
        assert!(poll(&mut machine, id, 0));
    }
    assert!(!poll(&mut machine, late, 100));
}

#[test]
fn giving_up_on_waking() {
    let mut machine = Machine::new();
    let mut waiting = Vec::new();
    for i in 0..40 {
        let id = machine.notified();
        assert!(!poll(&mut machine, id, i));
        waiting.push(id);
    }
    let all = machine.begin_notify_all();
    while machine.progress(all) == Progress::Running {
        machine.step(all);
    }
    machine.take_woken(all);
    machine.abandon(all);
    assert!(run(&mut machine, all).is_empty());
    // The rest is notified nevertheless.
    for id in waiting {
        assert!(poll(&mut machine, id, 0));
    }
}

#[test]
fn a_notification_that_is_on_its_way() {
    let mut machine = Machine::new();
    let id = machine.notified();
    assert!(!poll(&mut machine, id, 1));
    let one = machine.begin_notify_one();
    // Up to the point where the waiter is unparked, and not notified yet.
    for _ in 0..7 {
        machine.step(one);
    }
    machine.begin_poll(id, 2);
    for _ in 0..100 {
        machine.step(id);
    }
    assert_eq!(machine.progress(id), Progress::Running);
    assert_eq!(run(&mut machine, one), vec![1]);
    run(&mut machine, id);
    assert_eq!(machine.progress(id), Progress::Ready);
}

#[test]
fn the_waker_of_the_last_poll_under_way() {
    // A waiter polls over and over while somebody notifies it: who is woken is the waker of the last
    // poll that was in vain.
    for polls in 1..20 {
        let mut machine = Machine::new();
        let id = machine.notified();
        for waker in 0..polls {
            assert!(!poll(&mut machine, id, waker));
        }
        let one = machine.begin_notify_one();
        machine.step(one);
        assert!(!poll(&mut machine, id, polls));
        assert_eq!(run(&mut machine, one), vec![polls]);
        assert!(poll(&mut machine, id, polls + 1));
    }
}

#[test]
fn detached_until_enabled() {
    let mut machine = Machine::new();
    let id = machine.notified();
    machine.detach(id);
    let all = machine.begin_notify_all();
    run(&mut machine, all);
    machine.begin_enable(id);
    run(&mut machine, id);
    assert!(!poll(&mut machine, id, 1));
    let all = machine.begin_notify_all();
    assert_eq!(run(&mut machine, all), vec![1]);
    assert!(poll(&mut machine, id, 1));
    machine.begin_drop(id);
    run(&mut machine, id);
}

/// Makes steps of a task until it rests.
fn run_watch(machine: &mut watch::Machine<u64>, id: usize) {
    loop {
        match machine.progress(id) {
            watch::Progress::Running | watch::Progress::Notify => machine.step(id),
            _ => return,
        }
    }
}

#[test]
fn values_under_way() {
    // A publisher and three readers, whose steps come in many orders: whoever has a reference reads
    // one value, which is there.
    for seed in 0..300u64 {
        let mut machine = watch::Machine::new(0, Version(1));
        let mut random = seed.wrapping_mul(6364136223846793005).wrapping_add(1442695040888963407);
        let mut readers = vec![];
        let mut held: Vec<Option<u64>> = vec![None; 3];
        for _ in 0..3 {
            readers.push(machine.begin_borrow(Version(0)));
        }
        let mut publisher = machine.begin_publish(1);
        let mut published = 1;
        for _ in 0..2000 {
            random = random.wrapping_mul(6364136223846793005).wrapping_add(1442695040888963407);
            let who = (random >> 33) as usize % 4;
            if who == 3 {
                if machine.progress(publisher) == watch::Progress::Done {
                    machine.finish(publisher);
                    published += 1;
                    publisher = machine.begin_publish(published);
                } else {
                    machine.step(publisher);
                }
            } else {
                let id = readers[who];
                match machine.progress(id) {
                    watch::Progress::Borrowed => {
                        let (value, _) = machine.value(id);
                        assert!(*value <= published);
                        match held[who] {
                            // It does not change while it is held.
                            Some(seen) => assert_eq!(*value, seen),
                            None => held[who] = Some(*value),
                        }
                        if random >> 60 == 0 {
                            held[who] = None;
                            machine.begin_release(id);
                        }
                    },
                    watch::Progress::Done => {
                        machine.finish(id);
                        readers[who] = machine.begin_borrow(Version(0));
                    },
                    _ => machine.step(id),
                }
            }
        }
        run_watch(&mut machine, publisher);
        machine.finish(publisher);
        for id in readers {
            run_watch(&mut machine, id);
            if machine.progress(id) == watch::Progress::Borrowed {
                machine.begin_release(id);
                run_watch(&mut machine, id);
            }
            machine.finish(id);
        }
        let id = machine.begin_borrow(Version(0));
        run_watch(&mut machine, id);
        assert_eq!(machine.value(id), (&published, Version(published + 1)));
        machine.begin_release(id);
        run_watch(&mut machine, id);
        machine.finish(id);
        machine.close();
        // A row was enough for them.
        assert_eq!(machine.table.len(), ROW);
    }
}
