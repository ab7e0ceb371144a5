use threadcity::mutex::{
    my_mutex_destroy, my_mutex_init, my_mutex_lock, my_mutex_trylock, my_mutex_unlock, MyMutex,
};
use threadcity::sched::{BlockReason, Dispatch, PolicyKind, SchedPolicy, ThreadState};
use threadcity::scheduler::Scheduler;
use threadcity::threads::{my_thread_create, my_thread_yield};

fn assert_mutex_in_order(m: &MyMutex) {
    assert_eq!(m.is_locked(), m.owner().is_some());
    if m.waiter_count() > 0 {
        assert!(m.is_locked());
    }
}

fn scheduler_with_main() -> Scheduler {
    let mut s = Scheduler::new();
    s.ensure_main_thread();
    s
}

#[test]
fn new_mutex_is_free() {
    let m = MyMutex::new();
    assert!(!m.is_locked());
    assert_eq!(m.owner(), None);
    assert_eq!(m.waiter_count(), 0);
    assert_eq!(m.waiter(0), None);
    assert_mutex_in_order(&m);
}

#[test]
fn init_then_destroy_succeeds() {
    let mut m = MyMutex::new();
    assert_eq!(my_mutex_init(&mut m), 0);
    assert_eq!(my_mutex_destroy(&mut m), 0);
    assert_mutex_in_order(&m);
}

#[test]
fn init_resets_a_held_mutex() {
    let s = scheduler_with_main();
    let mut m = MyMutex::new();
    assert_eq!(my_mutex_trylock(&s, &mut m), 0);
    assert_eq!(my_mutex_init(&mut m), 0);
    assert!(!m.is_locked());
    assert_eq!(m.owner(), None);
    assert_eq!(m.waiter_count(), 0);
}

#[test]
fn destroy_of_a_locked_mutex_is_busy() {
    let s = scheduler_with_main();
    let mut m = MyMutex::new();
    assert_eq!(my_mutex_trylock(&s, &mut m), 0);
    assert_eq!(my_mutex_destroy(&mut m), libc::EBUSY);
    assert_ne!(libc::EBUSY, 0);
    assert!(m.is_locked());
    assert_eq!(m.owner(), Some(0));
}

#[test]
fn trylock_takes_a_free_mutex_and_is_busy_on_a_held_one() {
    let mut s = scheduler_with_main();
    let other = my_thread_create(&mut s, SchedPolicy::RoundRobin);
    let mut m = MyMutex::new();
    assert_eq!(my_mutex_trylock(&s, &mut m), 0);
    assert_eq!(m.owner(), Some(0));
    assert_mutex_in_order(&m);
    // even the owner is refused a second time
    assert_eq!(my_mutex_trylock(&s, &mut m), libc::EBUSY);
    assert_eq!(my_thread_yield(&mut s), Dispatch::Switch { from: 0, to: other });
    assert_eq!(my_mutex_trylock(&s, &mut m), libc::EBUSY);
    assert_eq!(m.owner(), Some(0));
    assert_eq!(m.waiter_count(), 0);
    assert_mutex_in_order(&m);
}

#[test]
fn lock_of_a_free_mutex_stays() {
    let mut s = scheduler_with_main();
    let mut m = MyMutex::new();
    assert_eq!(my_mutex_lock(&mut s, &mut m), Dispatch::Stay);
    assert_eq!(m.owner(), Some(0));
    assert_eq!(s.current_thread_id(), Some(0));
    assert_eq!(s.get_thread(0).unwrap().state, ThreadState::Running);
}

#[test]
fn lock_of_a_held_mutex_queues_and_blocks() {
    let mut s = scheduler_with_main();
    let b = my_thread_create(&mut s, SchedPolicy::RoundRobin);
    let mut m = MyMutex::new();
    assert_eq!(my_mutex_lock(&mut s, &mut m), Dispatch::Stay);
    assert_eq!(my_thread_yield(&mut s), Dispatch::Switch { from: 0, to: b });
    assert_eq!(my_mutex_lock(&mut s, &mut m), Dispatch::Switch { from: b, to: 0 });
    assert_eq!(m.owner(), Some(0));
    assert_eq!(m.waiter_count(), 1);
    assert_eq!(m.waiter(0), Some(b));
    assert_eq!(s.get_thread(b).unwrap().state, ThreadState::Blocked);
    assert_eq!(s.get_thread(b).unwrap().block_reason, Some(BlockReason::Mutex));
    assert!(s.ready_threads(PolicyKind::RoundRobin).is_empty());
    assert_mutex_in_order(&m);
}

#[test]
fn unlock_by_non_owner_is_invalid_and_changes_nothing() {
    let mut s = scheduler_with_main();
    let b = my_thread_create(&mut s, SchedPolicy::RoundRobin);
    let mut m = MyMutex::new();
    // nobody holds it
    assert_eq!(my_mutex_unlock(&mut s, &mut m), libc::EINVAL);
    assert!(!m.is_locked());
    assert_eq!(my_mutex_trylock(&s, &mut m), 0);
    assert_eq!(my_thread_yield(&mut s), Dispatch::Switch { from: 0, to: b });
    // b is not the owner
    assert_eq!(my_mutex_unlock(&mut s, &mut m), libc::EINVAL);
    assert!(m.is_locked());
    assert_eq!(m.owner(), Some(0));
    assert_eq!(m.waiter_count(), 0);
    assert_eq!(s.current_thread_id(), Some(b));
    assert_eq!(s.ready_threads(PolicyKind::RoundRobin), vec![0]);
    assert_mutex_in_order(&m);
}

#[test]
fn unlock_without_waiters_frees_the_mutex() {
    let mut s = scheduler_with_main();
    let mut m = MyMutex::new();
    assert_eq!(my_mutex_lock(&mut s, &mut m), Dispatch::Stay);
    assert_eq!(my_mutex_unlock(&mut s, &mut m), 0);
    assert!(!m.is_locked());
    assert_eq!(m.owner(), None);
    assert_eq!(my_mutex_destroy(&mut m), 0);
    assert_mutex_in_order(&m);
}

#[test]
fn direct_handoff_in_order_of_arrival() {
    // A (main) locks, then B, C and D ask for the lock in that order
    let mut s = scheduler_with_main();
    let a = 0;
    let b = my_thread_create(&mut s, SchedPolicy::RoundRobin);
    let c = my_thread_create(&mut s, SchedPolicy::RoundRobin);
    let d = my_thread_create(&mut s, SchedPolicy::RoundRobin);
    let mut m = MyMutex::new();
    assert_eq!(my_mutex_lock(&mut s, &mut m), Dispatch::Stay);
    assert_eq!(my_thread_yield(&mut s), Dispatch::Switch { from: a, to: b });
    assert_eq!(my_mutex_lock(&mut s, &mut m), Dispatch::Switch { from: b, to: c });
    assert_eq!(my_mutex_lock(&mut s, &mut m), Dispatch::Switch { from: c, to: d });
    assert_eq!(my_mutex_lock(&mut s, &mut m), Dispatch::Switch { from: d, to: a });
    assert_eq!((m.waiter(0), m.waiter(1), m.waiter(2)), (Some(b), Some(c), Some(d)));
    assert_eq!(my_mutex_destroy(&mut m), libc::EBUSY);
    assert_mutex_in_order(&m);

    // A unlocks: B owns the mutex at once, before it has run
    assert_eq!(my_mutex_unlock(&mut s, &mut m), 0);
    assert!(m.is_locked());
    assert_eq!(m.owner(), Some(b));
    assert_eq!(s.current_thread_id(), Some(a));
    assert_eq!(s.get_thread(b).unwrap().state, ThreadState::Ready);
    assert_eq!(s.get_thread(b).unwrap().block_reason, None);
    assert_eq!(s.ready_threads(PolicyKind::RoundRobin), vec![b]);
    assert_eq!((m.waiter(0), m.waiter(1)), (Some(c), Some(d)));
    // a newcomer cannot steal the lock while the wake-up is in flight
    assert_eq!(my_mutex_trylock(&s, &mut m), libc::EBUSY);
    assert_mutex_in_order(&m);

    let mut updates = Vec::new();
    assert_eq!(my_thread_yield(&mut s), Dispatch::Switch { from: a, to: b });
    updates.push(s.current_thread_id().unwrap());
    assert_eq!(my_mutex_unlock(&mut s, &mut m), 0);
    assert_eq!(m.owner(), Some(c));
    assert_eq!(my_thread_yield(&mut s), Dispatch::Switch { from: b, to: a });
    assert_eq!(my_thread_yield(&mut s), Dispatch::Switch { from: a, to: c });
    updates.push(s.current_thread_id().unwrap());
    assert_eq!(my_mutex_unlock(&mut s, &mut m), 0);
    assert_eq!(m.owner(), Some(d));
    assert_eq!(m.waiter_count(), 0);
    assert_eq!(my_thread_yield(&mut s), Dispatch::Switch { from: c, to: b });
    assert_eq!(my_thread_yield(&mut s), Dispatch::Switch { from: b, to: a });
    assert_eq!(my_thread_yield(&mut s), Dispatch::Switch { from: a, to: d });
    updates.push(s.current_thread_id().unwrap());
    assert_eq!(my_mutex_unlock(&mut s, &mut m), 0);
    assert!(!m.is_locked());
    assert_eq!(m.owner(), None);
    assert_eq!(updates, vec![b, c, d]);
    assert_mutex_in_order(&m);
}

#[test]
fn lock_with_nobody_else_runnable_deadlocks() {
    let mut s = scheduler_with_main();
    let mut m = MyMutex::new();
    assert_eq!(my_mutex_lock(&mut s, &mut m), Dispatch::Stay);
    // the owner asks again: it waits for itself
    assert_eq!(my_mutex_lock(&mut s, &mut m), Dispatch::Deadlock);
    assert_eq!(m.waiter(0), Some(0));
    assert_eq!(s.get_thread(0).unwrap().state, ThreadState::Blocked);
}
