use wie::{Schedule, Scheduler};

#[test]
fn delayed_task_waits_for_clock() {
    let mut s = Scheduler::new();
    let a = s.spawn();
    let b = s.spawn_after(50);
    assert_eq!(s.pop().unwrap().id, a);
    assert_eq!(s.pop(), None);
    s.advance(49);
    assert_eq!(s.pop(), None);
    s.advance(10);
    assert_eq!(s.now, 49);
    s.advance(60);
    let t = s.pop().unwrap();
    assert_eq!(t.id, b);
    assert!(t.wake <= s.now);
}

#[test]
fn cancelled_task_is_discarded() {
    let mut s = Scheduler::new();
    let a = s.spawn();
    let b = s.spawn();
    s.cancel(a);
    assert_eq!(s.pop().unwrap().id, b);
    assert_eq!(s.pop(), None);
}

#[test]
fn sleeping_task_wakes_in_order() {
    let mut s = Scheduler::new();
    s.sleep(7, 30);
    s.sleep(8, 20);
    s.sleep(9, 40);
    s.advance(30);
    assert_eq!(s.pop().unwrap().id, 7);
    assert_eq!(s.pop().unwrap().id, 8);
    assert_eq!(s.pop(), None);
    assert_eq!(s.delayed.len(), 1);
    s.spawn_after(u64::MAX);
    assert_eq!(s.delayed[1].wake, u64::MAX);
}

#[test]
fn run_loop_decisions() {
    let mut s = Scheduler::new();
    assert_eq!(s.schedule(0), Schedule::Finished);
    let a = s.spawn_after(30);
    let b = s.spawn_after(10);
    assert_eq!(s.earliest_wake(), Some(10));
    assert_eq!(s.schedule(5), Schedule::WaitUntil(10));
    match s.schedule(12) {
        Schedule::Run(t) => assert_eq!((t.id, t.wake), (b, 10)),
        other => panic!("unexpected {:?}", other),
    }
    assert_eq!(s.schedule(12), Schedule::WaitUntil(30));
    match s.schedule(40) {
        Schedule::Run(t) => assert_eq!(t.id, a),
        other => panic!("unexpected {:?}", other),
    }
    assert_eq!(s.schedule(41), Schedule::Finished);
    assert_eq!(s.now, 41);
}

#[test]
fn sleep_for_counts_from_now() {
    let mut s = Scheduler::new();
    s.advance(25);
    s.sleep_for(3, 10);
    assert_eq!(s.delayed[0].wake, 35);
    assert_eq!(s.schedule(34), Schedule::WaitUntil(35));
    match s.schedule(35) {
        Schedule::Run(t) => assert_eq!(t.id, 3),
        other => panic!("unexpected {:?}", other),
    }
}
