use threadcity::mutex::{my_mutex_lock, my_mutex_unlock, MyMutex};
use threadcity::sched::{Dispatch, MyThreadId, PolicyKind, SchedPolicy, ThreadState};
use threadcity::scheduler::Scheduler;
use threadcity::threads::{
    my_thread_create, my_thread_detach, my_thread_end, my_thread_join, my_thread_yield,
    JoinOutcome,
};

/// One instruction of a simulated thread.
#[derive(Clone, Copy, Debug)]
enum Op {
    Lock,
    Unlock,
    /// Adds one to the counter with this index and records the turn.
    Count(usize),
    Yield,
    Join(MyThreadId),
}

/// A simulated thread: its program, run from the first instruction to the
/// last, after which the thread ends with `result`.
struct Program {
    ops: Vec<Op>,
    pc: usize,
    result: usize,
    /// A join that blocked and is read when the thread is resumed.
    waiting_for: Option<MyThreadId>,
    /// A lock that blocked: on resumption the thread must be the owner.
    waiting_for_lock: bool,
}

fn program(ops: Vec<Op>, result: usize) -> Program {
    Program { ops, pc: 0, result, waiting_for: None, waiting_for_lock: false }
}

struct World {
    sched: Scheduler,
    mutex: MyMutex,
    programs: Vec<Program>,
    counters: Vec<u64>,
    /// The thread of every `Count`, in the order in which they ran.
    turns: Vec<MyThreadId>,
    joined: Vec<(MyThreadId, usize)>,
    finished: Vec<MyThreadId>,
}

fn world(main: Vec<Op>, counters: usize) -> World {
    let mut sched = Scheduler::new();
    sched.ensure_main_thread();
    World {
        sched,
        mutex: MyMutex::new(),
        programs: vec![program(main, 0)],
        counters: vec![0; counters],
        turns: Vec::new(),
        joined: Vec::new(),
        finished: Vec::new(),
    }
}

fn spawn(w: &mut World, policy: SchedPolicy, ops: Vec<Op>, result: usize) -> MyThreadId {
    let id = my_thread_create(&mut w.sched, policy);
    assert_eq!(id, w.programs.len());
    w.programs.push(program(ops, result));
    id
}

fn check_invariants(w: &World) {
    let s = &w.sched;
    let mut queued = Vec::new();
    for kind in [PolicyKind::RoundRobin, PolicyKind::Lottery, PolicyKind::RealTime] {
        for id in s.ready_threads(kind) {
            let t = s.get_thread(id).unwrap();
            assert_eq!(t.state, ThreadState::Ready);
            let matches_kind = match (kind, t.scheduler) {
                (PolicyKind::RoundRobin, SchedPolicy::RoundRobin) => true,
                (PolicyKind::Lottery, SchedPolicy::Lottery { .. }) => true,
                (PolicyKind::RealTime, SchedPolicy::RealTime { .. }) => true,
                _ => false,
            };
            assert!(matches_kind);
            assert!(!queued.contains(&id));
            queued.push(id);
        }
    }
    for id in 0..s.thread_count() {
        let t = s.get_thread(id).unwrap();
        assert_eq!(t.state == ThreadState::Ready, queued.contains(&id));
        if t.state == ThreadState::Running {
            assert_eq!(s.current_thread_id(), Some(id));
        }
    }
    assert_eq!(w.mutex.is_locked(), w.mutex.owner().is_some());
    assert!(w.mutex.waiter_count() == 0 || w.mutex.is_locked());
}

/// Runs the world until the main thread has run its whole program.
fn run(w: &mut World) {
    let mut steps = 0u64;
    loop {
        steps += 1;
        assert!(steps < 10_000_000, "the simulation does not come to an end");
        check_invariants(w);
        let cur = w.sched.current_thread_id().unwrap();
        assert_eq!(w.sched.get_thread(cur).unwrap().state, ThreadState::Running);
        if let Some(target) = w.programs[cur].waiting_for.take() {
            assert_eq!(w.sched.get_thread(target).unwrap().state, ThreadState::Finished);
            w.joined.push((target, w.sched.join_result(target)));
        }
        if w.programs[cur].waiting_for_lock {
            w.programs[cur].waiting_for_lock = false;
            assert_eq!(w.mutex.owner(), Some(cur));
            assert!(w.mutex.is_locked());
        }
        if w.programs[cur].pc == w.programs[cur].ops.len() {
            if cur == 0 {
                return;
            }
            w.finished.push(cur);
            match my_thread_end(&mut w.sched, w.programs[cur].result) {
                Dispatch::Switch { from, to } => {
                    assert_eq!(from, cur);
                    assert_eq!(w.sched.current_thread_id(), Some(to));
                }
                other => panic!("a worker ended with {:?}", other),
            }
            continue;
        }
        let op = w.programs[cur].ops[w.programs[cur].pc];
        w.programs[cur].pc += 1;
        match op {
            Op::Lock => match my_mutex_lock(&mut w.sched, &mut w.mutex) {
                Dispatch::Stay => assert_eq!(w.mutex.owner(), Some(cur)),
                Dispatch::Switch { from, .. } => {
                    assert_eq!(from, cur);
                    w.programs[cur].waiting_for_lock = true;
                }
                other => panic!("lock came to {:?}", other),
            },
            Op::Unlock => assert_eq!(my_mutex_unlock(&mut w.sched, &mut w.mutex), 0),
            Op::Count(i) => {
                w.counters[i] += 1;
                w.turns.push(cur);
            }
            Op::Yield => {
                my_thread_yield(&mut w.sched);
            }
            Op::Join(target) => match my_thread_join(&mut w.sched, target) {
                JoinOutcome::Value(v) => w.joined.push((target, v)),
                JoinOutcome::Wait(Dispatch::Switch { from, .. }) => {
                    assert_eq!(from, cur);
                    w.programs[cur].waiting_for = Some(target);
                }
                JoinOutcome::Wait(other) => panic!("join came to {:?}", other),
            },
        }
    }
}

fn repeat(body: &[Op], times: usize) -> Vec<Op> {
    let mut ops = Vec::new();
    for _ in 0..times {
        ops.extend_from_slice(body);
    }
    ops
}

#[test]
fn rr_fairness() {
    let body = [Op::Lock, Op::Count(0), Op::Unlock, Op::Yield];
    let mut w = world(vec![Op::Join(1), Op::Join(2), Op::Join(3), Op::Join(4)], 1);
    for _ in 0..4 {
        spawn(&mut w, SchedPolicy::RoundRobin, repeat(&body, 100), 0);
    }
    run(&mut w);
    assert_eq!(w.counters[0], 400);
    assert_eq!(w.turns.len(), 400);
    // strict first-in first-out: after every turn the counts differ by one at most
    let mut per_thread = [0u32; 5];
    for (i, t) in w.turns.iter().enumerate() {
        per_thread[*t] += 1;
        let max = per_thread[1..].iter().max().unwrap();
        let min = per_thread[1..].iter().min().unwrap();
        assert!(max - min <= 1, "after turn {}: {:?}", i, per_thread);
        assert_eq!(*t, 1 + i % 4);
    }
    assert_eq!(&per_thread[1..], &[100, 100, 100, 100]);
    assert_eq!(w.joined, vec![(1, 0), (2, 0), (3, 0), (4, 0)]);
}

#[test]
fn direct_handoff() {
    // A is the main thread. B, C and D ask for the mutex while A holds it.
    let worker = vec![Op::Lock, Op::Count(0), Op::Unlock];
    let mut w = world(
        vec![Op::Lock, Op::Yield, Op::Unlock, Op::Join(1), Op::Join(2), Op::Join(3)],
        1,
    );
    let b = spawn(&mut w, SchedPolicy::RoundRobin, worker.clone(), 11);
    let c = spawn(&mut w, SchedPolicy::RoundRobin, worker.clone(), 12);
    let d = spawn(&mut w, SchedPolicy::RoundRobin, worker, 13);
    run(&mut w);
    assert_eq!(w.turns, vec![b, c, d]);
    assert_eq!(w.counters[0], 3);
    assert_eq!(w.joined, vec![(b, 11), (c, 12), (d, 13)]);
    assert!(!w.mutex.is_locked());
}

#[test]
fn lottery_weighting() {
    let mut w = world(vec![Op::Join(1), Op::Join(2)], 3);
    let mut ids = Vec::new();
    for (i, tickets) in [1u32, 3, 7].into_iter().enumerate() {
        let body = [Op::Count(i), Op::Yield];
        ids.push(spawn(&mut w, SchedPolicy::Lottery { tickets }, repeat(&body, 4000), 0));
    }
    assert_eq!(my_thread_detach(&mut w.sched, ids[2]), 0);
    run(&mut w);
    // the two joined threads have run to their end
    assert_eq!(w.counters[0], 4000);
    assert_eq!(w.counters[1], 4000);
    assert!(w.sched.get_thread(ids[2]).unwrap().detached);

    // while all three compete, turns go 1 : 3 : 7
    let window = &w.turns[..3300];
    let share = |id: MyThreadId| window.iter().filter(|t| **t == id).count() as f64;
    let (a, b, c) = (share(ids[0]), share(ids[1]), share(ids[2]));
    assert_eq!(a + b + c, 3300.0);
    assert!((a / 3300.0 - 1.0 / 11.0).abs() < 0.03, "share of one ticket: {}", a);
    assert!((b / 3300.0 - 3.0 / 11.0).abs() < 0.03, "share of three tickets: {}", b);
    assert!((c / 3300.0 - 7.0 / 11.0).abs() < 0.03, "share of seven tickets: {}", c);
    assert!(a < b && b < c);

    // the seed is fixed: a second run takes the very same turns
    let mut again = world(vec![Op::Join(1), Op::Join(2)], 3);
    for (i, tickets) in [1u32, 3, 7].into_iter().enumerate() {
        let body = [Op::Count(i), Op::Yield];
        spawn(&mut again, SchedPolicy::Lottery { tickets }, repeat(&body, 4000), 0);
    }
    run(&mut again);
    assert_eq!(again.turns, w.turns);
}

#[test]
fn rt_preemption_by_yield() {
    let body = [Op::Count(0), Op::Yield];
    let mut w = world(vec![Op::Join(1), Op::Join(2), Op::Join(3), Op::Join(4)], 1);
    let rr1 = spawn(&mut w, SchedPolicy::RoundRobin, repeat(&body, 5), 0);
    let rt10 = spawn(&mut w, SchedPolicy::RealTime { deadline: 10 }, repeat(&body, 5), 0);
    let rr2 = spawn(&mut w, SchedPolicy::RoundRobin, repeat(&body, 5), 0);
    let rt1 = spawn(&mut w, SchedPolicy::RealTime { deadline: 1 }, repeat(&body, 5), 0);
    run(&mut w);
    let mut expected = vec![rt1; 5];
    expected.extend(vec![rt10; 5]);
    for _ in 0..5 {
        expected.push(rr1);
        expected.push(rr2);
    }
    assert_eq!(w.turns, expected);
    assert_eq!(w.counters[0], 20);
    assert_eq!(w.finished, vec![rt1, rt10, rr1, rr2]);
}

#[test]
fn policy_change() {
    let body = [Op::Count(0), Op::Yield];
    let mut w = world(vec![Op::Yield, Op::Join(1), Op::Join(2), Op::Join(3)], 1);
    let rr = spawn(&mut w, SchedPolicy::RoundRobin, repeat(&body, 3), 0);
    let lot = spawn(&mut w, SchedPolicy::Lottery { tickets: 5 }, repeat(&body, 3), 0);
    let promoted = spawn(&mut w, SchedPolicy::RoundRobin, repeat(&body, 3), 0);
    assert_eq!(
        threadcity::threads::my_thread_chsched(
            &mut w.sched,
            promoted,
            SchedPolicy::RealTime { deadline: 0 }
        ),
        0
    );
    run(&mut w);
    assert_eq!(w.turns[..3], [promoted, promoted, promoted]);
    assert_eq!(w.turns[3..6], [lot, lot, lot]);
    assert_eq!(w.turns[6..], [rr, rr, rr]);
}

#[test]
fn create_then_join_returns_the_value_of_the_start_routine() {
    let mut w = world(vec![Op::Join(1)], 0);
    let t = spawn(&mut w, SchedPolicy::RoundRobin, vec![], 0xfeed);
    run(&mut w);
    assert_eq!(w.joined, vec![(t, 0xfeed)]);
}

#[test]
fn mixed_policies_keep_every_invariant() {
    let body = [Op::Lock, Op::Count(0), Op::Unlock, Op::Yield];
    let mut w = world(
        vec![Op::Join(1), Op::Join(2), Op::Join(3), Op::Join(4), Op::Join(5), Op::Join(6)],
        1,
    );
    spawn(&mut w, SchedPolicy::RoundRobin, repeat(&body, 50), 1);
    spawn(&mut w, SchedPolicy::Lottery { tickets: 0 }, repeat(&body, 50), 2);
    spawn(&mut w, SchedPolicy::RealTime { deadline: 4 }, repeat(&body, 50), 3);
    spawn(&mut w, SchedPolicy::Lottery { tickets: 9 }, repeat(&body, 50), 4);
    spawn(&mut w, SchedPolicy::RealTime { deadline: 4 }, repeat(&body, 50), 5);
    spawn(&mut w, SchedPolicy::RoundRobin, repeat(&body, 50), 6);
    run(&mut w);
    assert_eq!(w.counters[0], 300);
    assert_eq!(w.joined, vec![(1, 1), (2, 2), (3, 3), (4, 4), (5, 5), (6, 6)]);
    assert!(!w.mutex.is_locked());
}
