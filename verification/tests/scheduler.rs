use threadcity::sched::{
    BlockReason, Dispatch, MyThreadId, PolicyKind, SchedPolicy, Thread, ThreadState,
};
use threadcity::scheduler::Scheduler;
use threadcity::threads::{
    my_thread_chsched, my_thread_create, my_thread_detach, my_thread_end, my_thread_join,
    my_thread_yield, JoinOutcome,
};

fn thread(s: &Scheduler, id: MyThreadId) -> Thread {
    *s.get_thread(id).expect("known thread")
}

fn state(s: &Scheduler, id: MyThreadId) -> ThreadState {
    thread(s, id).state
}

/// Every ready thread is in exactly the ready structure of its policy, once;
/// nothing else is in any of them; the running thread is the current one.
fn assert_ready_structures_in_order(s: &Scheduler) {
    let rr = s.ready_threads(PolicyKind::RoundRobin);
    let lot = s.ready_threads(PolicyKind::Lottery);
    let rt = s.ready_threads(PolicyKind::RealTime);
    for id in 0..s.thread_count() {
        let t = thread(s, id);
        assert_eq!(t.id, id);
        let in_rr = rr.iter().filter(|x| **x == id).count();
        let in_lot = lot.iter().filter(|x| **x == id).count();
        let in_rt = rt.iter().filter(|x| **x == id).count();
        if t.state == ThreadState::Ready {
            let expected = match t.scheduler {
                SchedPolicy::RoundRobin => (1, 0, 0),
                SchedPolicy::Lottery { .. } => (0, 1, 0),
                SchedPolicy::RealTime { .. } => (0, 0, 1),
            };
            assert_eq!((in_rr, in_lot, in_rt), expected);
        } else {
            assert_eq!((in_rr, in_lot, in_rt), (0, 0, 0));
        }
        if t.state == ThreadState::Running {
            assert_eq!(s.current_thread_id(), Some(id));
        }
        if let SchedPolicy::Lottery { .. } = t.scheduler {
            assert!(t.tickets >= 1);
        }
    }
    for id in rr.iter().chain(lot.iter()).chain(rt.iter()) {
        assert!(*id < s.thread_count());
    }
}

#[test]
fn new_scheduler_is_empty() {
    let s = Scheduler::new();
    assert_eq!(s.thread_count(), 0);
    assert_eq!(s.current_thread_id(), None);
    assert!(s.get_thread(0).is_none());
    assert!(s.ready_threads(PolicyKind::RoundRobin).is_empty());
    assert!(s.ready_threads(PolicyKind::Lottery).is_empty());
    assert!(s.ready_threads(PolicyKind::RealTime).is_empty());
}

#[test]
fn first_use_materializes_the_bootstrap_thread() {
    let mut s = Scheduler::new();
    s.ensure_main_thread();
    assert_eq!(s.thread_count(), 1);
    assert_eq!(s.current_thread_id(), Some(0));
    let main = thread(&s, 0);
    assert_eq!(main.state, ThreadState::Running);
    assert_eq!(main.scheduler, SchedPolicy::RoundRobin);
    assert_eq!(main.tickets, 0);
    assert_eq!(main.rt_params, None);
    assert_eq!(main.joined_by, None);
    assert!(!main.detached);
    s.ensure_main_thread();
    assert_eq!(s.thread_count(), 1);
}

#[test]
fn create_assigns_dense_ids_and_queues_by_policy() {
    let mut s = Scheduler::new();
    let a = my_thread_create(&mut s, SchedPolicy::RoundRobin);
    let b = my_thread_create(&mut s, SchedPolicy::Lottery { tickets: 5 });
    let c = my_thread_create(&mut s, SchedPolicy::RealTime { deadline: 9 });
    let d = my_thread_create(&mut s, SchedPolicy::RoundRobin);
    assert_eq!((a, b, c, d), (1, 2, 3, 4));
    assert_eq!(s.current_thread_id(), Some(0));
    assert_eq!(s.ready_threads(PolicyKind::RoundRobin), vec![1, 4]);
    assert_eq!(s.ready_threads(PolicyKind::Lottery), vec![2]);
    assert_eq!(s.ready_threads(PolicyKind::RealTime), vec![3]);
    assert_eq!(state(&s, a), ThreadState::Ready);
    assert_eq!(thread(&s, b).tickets, 5);
    assert_eq!(thread(&s, c).rt_params.map(|p| p.deadline), Some(9));
    assert_eq!(thread(&s, a).tickets, 0);
    assert_eq!(thread(&s, a).rt_params, None);
    assert_ready_structures_in_order(&s);
}

#[test]
fn zero_tickets_become_one() {
    let mut s = Scheduler::new();
    let a = my_thread_create(&mut s, SchedPolicy::Lottery { tickets: 0 });
    assert_eq!(thread(&s, a).tickets, 1);
    assert_eq!(thread(&s, a).scheduler, SchedPolicy::Lottery { tickets: 0 });
    let b = my_thread_create(&mut s, SchedPolicy::RoundRobin);
    assert_eq!(my_thread_chsched(&mut s, b, SchedPolicy::Lottery { tickets: 0 }), 0);
    assert_eq!(thread(&s, b).tickets, 1);
    assert_ready_structures_in_order(&s);
}

#[test]
fn pick_next_prefers_realtime_then_lottery_then_round_robin() {
    let mut s = Scheduler::new();
    let rr = my_thread_create(&mut s, SchedPolicy::RoundRobin);
    let lot = my_thread_create(&mut s, SchedPolicy::Lottery { tickets: 3 });
    let rt = my_thread_create(&mut s, SchedPolicy::RealTime { deadline: 100 });
    assert_eq!(my_thread_yield(&mut s), Dispatch::Switch { from: 0, to: rt });
    assert_eq!(s.current_thread_id(), Some(rt));
    assert_eq!(state(&s, 0), ThreadState::Ready);
    assert_eq!(state(&s, rt), ThreadState::Running);
    assert_ready_structures_in_order(&s);
    // the real-time thread blocks: the lottery thread is next
    assert_eq!(s.block_current(BlockReason::Other), Dispatch::Switch { from: rt, to: lot });
    assert_eq!(thread(&s, rt).block_reason, Some(BlockReason::Other));
    assert_ready_structures_in_order(&s);
    // the lottery thread blocks: round robin in the order of becoming ready
    assert_eq!(s.block_current(BlockReason::Other), Dispatch::Switch { from: lot, to: rr });
    assert_eq!(s.block_current(BlockReason::Other), Dispatch::Switch { from: rr, to: 0 });
    assert_ready_structures_in_order(&s);
}

/// The order in which four real-time threads with deadlines 7, 3, 3, 5 run.
fn realtime_order() -> Vec<MyThreadId> {
    let mut s = Scheduler::new();
    for deadline in [7, 3, 3, 5] {
        my_thread_create(&mut s, SchedPolicy::RealTime { deadline });
    }
    let mut order = Vec::new();
    for _ in 0..4 {
        s.block_current(BlockReason::Other);
        order.push(s.current_thread_id().unwrap());
        assert_ready_structures_in_order(&s);
    }
    order
}

#[test]
fn realtime_picks_the_smallest_deadline() {
    let order = realtime_order();
    // the two threads with deadline 3 first, in whatever order; then 5; then 7
    assert!(order[..2].contains(&2) && order[..2].contains(&3));
    assert_eq!(order[2..], [4, 1]);
    // and the choice among equals is the same every time
    assert_eq!(realtime_order(), order);
}

#[test]
fn lottery_winner_follows_the_generator() {
    // tickets 1, 3, 7: total 11; the first draw of the generator is
    // 2264545012, and 2264545012 % 11 = 4, which falls on the third thread
    // (tickets before it: 1 + 3 = 4 <= 4 < 11)
    let mut s = Scheduler::new();
    let _a = my_thread_create(&mut s, SchedPolicy::Lottery { tickets: 1 });
    let _b = my_thread_create(&mut s, SchedPolicy::Lottery { tickets: 3 });
    let c = my_thread_create(&mut s, SchedPolicy::Lottery { tickets: 7 });
    assert_eq!(2264545012u64 % 11, 4);
    assert_eq!(my_thread_yield(&mut s), Dispatch::Switch { from: 0, to: c });
    // second draw 919545820 % 4 = 0 over tickets 1, 3: the first thread
    assert_eq!(919545820u64 % 4, 0);
    assert_eq!(s.block_current(BlockReason::Other), Dispatch::Switch { from: c, to: 1 });
    // third draw over the one thread left
    assert_eq!(s.block_current(BlockReason::Other), Dispatch::Switch { from: 1, to: 2 });
    assert_ready_structures_in_order(&s);
}

#[test]
fn yield_of_sole_thread_is_a_no_op() {
    let mut s = Scheduler::new();
    s.ensure_main_thread();
    let before = thread(&s, 0);
    assert_eq!(my_thread_yield(&mut s), Dispatch::Stay);
    assert_eq!(my_thread_yield(&mut s), Dispatch::Stay);
    assert_eq!(thread(&s, 0), before);
    assert_eq!(s.current_thread_id(), Some(0));
    assert_eq!(s.thread_count(), 1);
    assert!(s.ready_threads(PolicyKind::RoundRobin).is_empty());
    assert_ready_structures_in_order(&s);
}

#[test]
fn yield_on_a_fresh_scheduler_creates_main_and_stays() {
    let mut s = Scheduler::new();
    assert_eq!(my_thread_yield(&mut s), Dispatch::Stay);
    assert_eq!(s.current_thread_id(), Some(0));
    assert_eq!(state(&s, 0), ThreadState::Running);
}

#[test]
fn round_robin_is_fifo() {
    let mut s = Scheduler::new();
    let a = my_thread_create(&mut s, SchedPolicy::RoundRobin);
    let b = my_thread_create(&mut s, SchedPolicy::RoundRobin);
    let mut order = Vec::new();
    for _ in 0..9 {
        my_thread_yield(&mut s);
        order.push(s.current_thread_id().unwrap());
        assert_ready_structures_in_order(&s);
    }
    assert_eq!(order, vec![a, b, 0, a, b, 0, a, b, 0]);
}

#[test]
fn block_without_runnable_thread_is_a_deadlock() {
    let mut s = Scheduler::new();
    assert_eq!(s.block_current(BlockReason::Other), Dispatch::Deadlock);
    assert_eq!(s.current_thread_id(), Some(0));
    assert_eq!(state(&s, 0), ThreadState::Blocked);
    // a blocked current thread that yields is not queued again
    assert_eq!(my_thread_yield(&mut s), Dispatch::Stay);
    assert_eq!(state(&s, 0), ThreadState::Blocked);
    assert!(s.ready_threads(PolicyKind::RoundRobin).is_empty());
}

#[test]
fn unblock_makes_ready_without_switching() {
    let mut s = Scheduler::new();
    let a = my_thread_create(&mut s, SchedPolicy::RoundRobin);
    assert_eq!(s.block_current(BlockReason::Mutex), Dispatch::Switch { from: 0, to: a });
    assert_eq!(state(&s, 0), ThreadState::Blocked);
    s.unblock(0);
    assert_eq!(s.current_thread_id(), Some(a));
    assert_eq!(state(&s, 0), ThreadState::Ready);
    assert_eq!(thread(&s, 0).block_reason, None);
    assert_eq!(s.ready_threads(PolicyKind::RoundRobin), vec![0]);
    // an unknown thread changes nothing
    s.unblock(77);
    assert_eq!(s.ready_threads(PolicyKind::RoundRobin), vec![0]);
    assert_ready_structures_in_order(&s);
}

#[test]
fn create_then_join_yields_the_returned_value() {
    let mut s = Scheduler::new();
    let t = my_thread_create(&mut s, SchedPolicy::RoundRobin);
    // main joins: it blocks and the new thread runs
    let outcome = my_thread_join(&mut s, t);
    assert_eq!(outcome, JoinOutcome::Wait(Dispatch::Switch { from: 0, to: t }));
    assert_eq!(state(&s, 0), ThreadState::Blocked);
    assert_eq!(thread(&s, 0).block_reason, Some(BlockReason::Join { target: t }));
    assert_eq!(thread(&s, t).joined_by, Some(0));
    assert_ready_structures_in_order(&s);
    // the start routine returns 4242
    assert_eq!(my_thread_end(&mut s, 4242), Dispatch::Switch { from: t, to: 0 });
    assert_eq!(state(&s, t), ThreadState::Finished);
    assert_eq!(s.current_thread_id(), Some(0));
    assert_eq!(s.join_result(t), 4242);
    assert_eq!(s.try_join_immediate(t), Some(4242));
    // a second join gets the value at once
    assert_eq!(my_thread_join(&mut s, t), JoinOutcome::Value(4242));
    assert_ready_structures_in_order(&s);
}

#[test]
fn join_on_self_returns_null_without_switching() {
    let mut s = Scheduler::new();
    let t = my_thread_create(&mut s, SchedPolicy::RoundRobin);
    assert_eq!(my_thread_join(&mut s, 0), JoinOutcome::Value(0));
    assert_eq!(s.current_thread_id(), Some(0));
    assert_eq!(state(&s, 0), ThreadState::Running);
    assert_eq!(thread(&s, 0).joined_by, None);
    assert_eq!(s.ready_threads(PolicyKind::RoundRobin), vec![t]);
}

#[test]
fn try_join_immediate_of_unfinished_or_unknown_is_none() {
    let mut s = Scheduler::new();
    let t = my_thread_create(&mut s, SchedPolicy::RoundRobin);
    assert_eq!(s.try_join_immediate(t), None);
    assert_eq!(s.try_join_immediate(99), None);
}

#[test]
fn end_of_last_thread_exits() {
    let mut s = Scheduler::new();
    assert_eq!(my_thread_end(&mut s, 0), Dispatch::Exit);
    assert_eq!(state(&s, 0), ThreadState::Finished);
}

#[test]
fn detach_marks_known_threads_only() {
    let mut s = Scheduler::new();
    let t = my_thread_create(&mut s, SchedPolicy::Lottery { tickets: 7 });
    assert_eq!(my_thread_detach(&mut s, t), 0);
    assert!(thread(&s, t).detached);
    assert_eq!(my_thread_detach(&mut s, 50), libc::EINVAL);
    assert_ne!(libc::EINVAL, 0);
    assert_ready_structures_in_order(&s);
}

#[test]
fn chsched_unknown_thread_is_invalid() {
    let mut s = Scheduler::new();
    my_thread_create(&mut s, SchedPolicy::RoundRobin);
    assert_eq!(my_thread_chsched(&mut s, 12, SchedPolicy::RoundRobin), libc::EINVAL);
    assert_eq!(s.ready_threads(PolicyKind::RoundRobin), vec![1]);
}

#[test]
fn chsched_moves_a_ready_thread_to_the_new_structure() {
    let mut s = Scheduler::new();
    let a = my_thread_create(&mut s, SchedPolicy::RoundRobin);
    let b = my_thread_create(&mut s, SchedPolicy::RoundRobin);
    assert_eq!(my_thread_chsched(&mut s, a, SchedPolicy::RealTime { deadline: 3 }), 0);
    assert_eq!(s.ready_threads(PolicyKind::RoundRobin), vec![b]);
    assert_eq!(s.ready_threads(PolicyKind::RealTime), vec![a]);
    assert_eq!(thread(&s, a).rt_params.map(|p| p.deadline), Some(3));
    assert_eq!(thread(&s, a).tickets, 0);
    assert_eq!(my_thread_chsched(&mut s, a, SchedPolicy::Lottery { tickets: 9 }), 0);
    assert_eq!(s.ready_threads(PolicyKind::RealTime), Vec::<MyThreadId>::new());
    assert_eq!(s.ready_threads(PolicyKind::Lottery), vec![a]);
    assert_eq!(thread(&s, a).rt_params, None);
    assert_eq!(thread(&s, a).tickets, 9);
    assert_ready_structures_in_order(&s);
}

#[test]
fn chsched_of_the_running_thread_takes_effect_when_it_becomes_ready() {
    let mut s = Scheduler::new();
    let a = my_thread_create(&mut s, SchedPolicy::RoundRobin);
    assert_eq!(my_thread_chsched(&mut s, 0, SchedPolicy::RealTime { deadline: 1 }), 0);
    assert!(s.ready_threads(PolicyKind::RealTime).is_empty());
    // main yields: it queues as a real-time thread and is picked again at once
    assert_eq!(my_thread_yield(&mut s), Dispatch::Stay);
    assert_eq!(s.current_thread_id(), Some(0));
    assert_eq!(s.ready_threads(PolicyKind::RoundRobin), vec![a]);
    assert_ready_structures_in_order(&s);
}

#[test]
fn chsched_twice_is_chsched_once() {
    let policies = [
        SchedPolicy::RoundRobin,
        SchedPolicy::Lottery { tickets: 0 },
        SchedPolicy::Lottery { tickets: 4 },
        SchedPolicy::RealTime { deadline: 2 },
    ];
    for policy in policies {
        let mut once = Scheduler::new();
        let mut twice = Scheduler::new();
        for s in [&mut once, &mut twice] {
            my_thread_create(s, SchedPolicy::RoundRobin);
            my_thread_create(s, SchedPolicy::Lottery { tickets: 2 });
            my_thread_create(s, SchedPolicy::RoundRobin);
        }
        assert_eq!(my_thread_chsched(&mut once, 1, policy), 0);
        assert_eq!(my_thread_chsched(&mut twice, 1, policy), 0);
        assert_eq!(my_thread_chsched(&mut twice, 1, policy), 0);
        for kind in [PolicyKind::RoundRobin, PolicyKind::Lottery, PolicyKind::RealTime] {
            assert_eq!(once.ready_threads(kind), twice.ready_threads(kind));
        }
        for id in 0..once.thread_count() {
            assert_eq!(thread(&once, id), thread(&twice, id));
        }
        assert_ready_structures_in_order(&twice);
    }
}

#[test]
fn policy_change_before_first_run_goes_first() {
    let mut s = Scheduler::new();
    let rr1 = my_thread_create(&mut s, SchedPolicy::RoundRobin);
    let lot = my_thread_create(&mut s, SchedPolicy::Lottery { tickets: 10 });
    let promoted = my_thread_create(&mut s, SchedPolicy::RoundRobin);
    assert_eq!(my_thread_chsched(&mut s, promoted, SchedPolicy::RealTime { deadline: 0 }), 0);
    assert_eq!(my_thread_yield(&mut s), Dispatch::Switch { from: 0, to: promoted });
    // it keeps every turn until it ends
    assert_eq!(my_thread_yield(&mut s), Dispatch::Stay);
    assert_eq!(my_thread_end(&mut s, 0), Dispatch::Switch { from: promoted, to: lot });
    assert_eq!(my_thread_end(&mut s, 0), Dispatch::Switch { from: lot, to: rr1 });
    assert_ready_structures_in_order(&s);
}

#[test]
fn remove_from_ready_lists_and_enqueue_ready() {
    let mut s = Scheduler::new();
    let a = my_thread_create(&mut s, SchedPolicy::RoundRobin);
    let b = my_thread_create(&mut s, SchedPolicy::RoundRobin);
    let c = my_thread_create(&mut s, SchedPolicy::RoundRobin);
    s.remove_from_ready_lists(b);
    assert_eq!(s.ready_threads(PolicyKind::RoundRobin), vec![a, c]);
    s.enqueue_ready(b);
    assert_eq!(s.ready_threads(PolicyKind::RoundRobin), vec![a, c, b]);
    s.remove_from_ready_lists(99);
    assert_eq!(s.ready_threads(PolicyKind::RoundRobin), vec![a, c, b]);
    assert_eq!(s.pick_next(), Some(a));
    assert_eq!(state(&s, a), ThreadState::Running);
}
