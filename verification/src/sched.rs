//! The cooperative scheduler: thread control blocks, the three ready
//! structures and the decisions taken at every suspension point.
//!
//! The scheduler decides; it never switches machine contexts itself. Every
//! operation that may displace the running thread returns a [`Dispatch`]
//! that tells the caller which context to resume.

use crate::rng::{lcg_output, lcg_step};
use vstd::prelude::*;

verus! {

/// A dense thread identifier; `0` is the bootstrap thread.
pub type MyThreadId = usize;

/// The seed of the scheduler's generator.
pub const RNG_SEED: u64 = 0xdead_beef_cafe_babe;

/// The life-cycle state of a thread.
#[derive(Debug, Copy, Clone, PartialEq, Eq, Structural)]
pub enum ThreadState {
    New,
    Ready,
    Running,
    Blocked,
    Finished,
}

/// The scheduling policy of a thread.
#[derive(Debug, Copy, Clone, PartialEq, Eq, Structural)]
pub enum SchedPolicy {
    RoundRobin,
    Lottery { tickets: u32 },
    /// A smaller deadline is more urgent.
    RealTime { deadline: u64 },
}

/// Why a thread is blocked.
#[derive(Debug, Copy, Clone, PartialEq, Eq, Structural)]
pub enum BlockReason {
    Join { target: MyThreadId },
    Mutex,
    Other,
}

/// The parameters of a real-time thread.
#[derive(Debug, Copy, Clone, PartialEq, Eq, Structural)]
pub struct RealTimeParams {
    pub deadline: u64,
}

/// The scheduling part of a thread control block.
#[derive(Debug, Copy, Clone, PartialEq, Eq, Structural)]
pub struct Thread {
    pub id: MyThreadId,
    pub state: ThreadState,
    pub scheduler: SchedPolicy,
    /// Meaningful under `Lottery` only.
    pub tickets: u32,
    /// Present under `RealTime` only.
    pub rt_params: Option<RealTimeParams>,
    /// The opaque word handed to whoever joins the thread.
    pub result: usize,
    pub joined_by: Option<MyThreadId>,
    pub detached: bool,
    pub block_reason: Option<BlockReason>,
}

/// What the caller of a suspension point has to do next.
#[derive(Debug, Copy, Clone, PartialEq, Eq, Structural)]
pub enum Dispatch {
    /// The calling thread keeps the processor.
    Stay,
    /// Save the context of `from` and resume `to`.
    Switch { from: MyThreadId, to: MyThreadId },
    /// The caller blocked and nothing else is runnable.
    Deadlock,
    /// The last thread finished: end the process with success.
    Exit,
}

/// The mathematical state of a scheduler.
pub struct SchedulerView {
    /// The control blocks; the thread with id `i` is at index `i`.
    pub threads: Seq<Thread>,
    pub current: Option<MyThreadId>,
    /// Ready round-robin threads, oldest first.
    pub rr_queue: Seq<MyThreadId>,
    /// Ready lottery threads.
    pub lottery_list: Seq<MyThreadId>,
    /// Ready real-time threads.
    pub realtime_list: Seq<MyThreadId>,
    /// The state of the generator.
    pub rng: u64,
}

/// The three kinds of policy, one for each ready structure.
#[derive(Debug, Copy, Clone, PartialEq, Eq, Structural)]
pub enum PolicyKind {
    RoundRobin,
    Lottery,
    RealTime,
}

/// The kind of a policy.
pub open spec fn policy_kind(policy: SchedPolicy) -> PolicyKind {
    match policy {
        SchedPolicy::RoundRobin => PolicyKind::RoundRobin,
        SchedPolicy::Lottery { .. } => PolicyKind::Lottery,
        SchedPolicy::RealTime { .. } => PolicyKind::RealTime,
    }
}

/// The tickets a thread holds under `policy`: a lottery thread holds at least one.
pub open spec fn policy_tickets(policy: SchedPolicy) -> u32 {
    match policy {
        SchedPolicy::Lottery { tickets } => if tickets == 0 {
            1
        } else {
            tickets
        },
        _ => 0,
    }
}

/// The real-time parameters a thread holds under `policy`.
pub open spec fn policy_rt_params(policy: SchedPolicy) -> Option<RealTimeParams> {
    match policy {
        SchedPolicy::RealTime { deadline } => Some(RealTimeParams { deadline }),
        _ => None,
    }
}

/// The deadline by which a thread in the real-time pool is ranked.
pub open spec fn deadline_of(t: Thread) -> u64 {
    match t.rt_params {
        Some(p) => p.deadline,
        None => 0,
    }
}

/// The bootstrap thread as it is first materialised.
pub open spec fn main_thread() -> Thread {
    Thread {
        id: 0,
        state: ThreadState::Running,
        scheduler: SchedPolicy::RoundRobin,
        tickets: 0,
        rt_params: None,
        result: 0,
        joined_by: None,
        detached: false,
        block_reason: None,
    }
}

/// A freshly created thread with identifier `id` under `policy`.
pub open spec fn fresh_thread(id: MyThreadId, policy: SchedPolicy) -> Thread {
    Thread {
        id,
        state: ThreadState::Ready,
        scheduler: policy,
        tickets: policy_tickets(policy),
        rt_params: policy_rt_params(policy),
        result: 0,
        joined_by: None,
        detached: false,
        block_reason: None,
    }
}

/// `s` without every occurrence of `tid`, the order of the rest kept.
pub open spec fn without(s: Seq<MyThreadId>, tid: MyThreadId) -> Seq<MyThreadId> {
    s.filter(|x: MyThreadId| x != tid)
}

/// `i` is the first position of `pool` whose thread has the smallest deadline.
pub open spec fn is_earliest(threads: Seq<Thread>, pool: Seq<MyThreadId>, i: int) -> bool {
    &&& 0 <= i < pool.len()
    &&& forall|j: int|
        0 <= j < pool.len() ==> deadline_of(threads[pool[i] as int]) <= deadline_of(
            #[trigger] threads[pool[j] as int],
        )
    &&& forall|j: int|
        0 <= j < i ==> deadline_of(threads[pool[i] as int]) < deadline_of(
            #[trigger] threads[pool[j] as int],
        )
}

/// The tickets held together by the first `k` threads of `pool`.
pub open spec fn tickets_before(threads: Seq<Thread>, pool: Seq<MyThreadId>, k: int) -> nat
    decreases k,
{
    if k <= 0 {
        0
    } else {
        tickets_before(threads, pool, k - 1) + threads[pool[k - 1] as int].tickets as nat
    }
}

/// All the tickets in `pool`.
pub open spec fn total_tickets(threads: Seq<Thread>, pool: Seq<MyThreadId>) -> nat {
    tickets_before(threads, pool, pool.len() as int)
}

/// `w` is the position of `pool` on which the draw `r` falls: the tickets
/// before it do not exceed `r`, and with its own they do.
pub open spec fn is_winner(threads: Seq<Thread>, pool: Seq<MyThreadId>, r: nat, w: int) -> bool {
    &&& 0 <= w < pool.len()
    &&& tickets_before(threads, pool, w) <= r < tickets_before(threads, pool, w + 1)
}

impl SchedulerView {
    /// Whether `tid` names a thread of this scheduler.
    pub open spec fn known(self, tid: MyThreadId) -> bool {
        tid < self.threads.len()
    }

    /// The state with the control block of `tid` replaced by `t`.
    pub open spec fn with_thread(self, tid: MyThreadId, t: Thread) -> SchedulerView {
        SchedulerView { threads: self.threads.update(tid as int, t), ..self }
    }

    /// The state with the thread `tid` in state `state`.
    pub open spec fn with_state(self, tid: MyThreadId, state: ThreadState) -> SchedulerView {
        self.with_thread(tid, Thread { state, ..self.threads[tid as int] })
    }

    /// The scheduler before its first use: no thread, no current thread.
    pub open spec fn initial() -> SchedulerView {
        SchedulerView {
            threads: Seq::empty(),
            current: None,
            rr_queue: Seq::empty(),
            lottery_list: Seq::empty(),
            realtime_list: Seq::empty(),
            rng: RNG_SEED,
        }
    }

    /// Materialises the bootstrap thread if no thread exists yet.
    pub open spec fn ensure_main_thread(self) -> SchedulerView {
        if self.threads.len() == 0 {
            SchedulerView { threads: seq![main_thread()], current: Some(0), ..self }
        } else {
            self
        }
    }

    /// Appends `tid` to the ready structure of its policy.
    pub open spec fn enqueue_ready(self, tid: MyThreadId) -> SchedulerView {
        match self.threads[tid as int].scheduler {
            SchedPolicy::RoundRobin => SchedulerView {
                rr_queue: self.rr_queue.push(tid),
                ..self
            },
            SchedPolicy::Lottery { .. } => SchedulerView {
                lottery_list: self.lottery_list.push(tid),
                ..self
            },
            SchedPolicy::RealTime { .. } => SchedulerView {
                realtime_list: self.realtime_list.push(tid),
                ..self
            },
        }
    }

    /// Takes `tid` out of every ready structure.
    pub open spec fn remove_from_ready_lists(self, tid: MyThreadId) -> SchedulerView {
        SchedulerView {
            rr_queue: without(self.rr_queue, tid),
            lottery_list: without(self.lottery_list, tid),
            realtime_list: without(self.realtime_list, tid),
            ..self
        }
    }

    /// Creates a ready thread under `policy`; its identifier is the number
    /// of threads that existed before.
    pub open spec fn create_thread(self, policy: SchedPolicy) -> SchedulerView {
        let s = self.ensure_main_thread();
        let id = s.threads.len() as MyThreadId;
        SchedulerView { threads: s.threads.push(fresh_thread(id, policy)), ..s }.enqueue_ready(id)
    }

    /// The position in the real-time pool of the thread to run next.
    pub open spec fn earliest_index(self) -> int {
        choose|i: int| is_earliest(self.threads, self.realtime_list, i)
    }

    /// The number drawn for a lottery over the current pool.
    pub open spec fn lottery_draw(self) -> nat {
        (lcg_output(lcg_step(self.rng)) as nat) % total_tickets(self.threads, self.lottery_list)
    }

    /// The position in the lottery pool of the thread that wins the draw.
    pub open spec fn winner_index(self) -> int {
        choose|w: int| is_winner(self.threads, self.lottery_list, self.lottery_draw(), w)
    }

    /// Whether the next thread comes from the real-time pool.
    pub open spec fn picks_realtime(self) -> bool {
        self.realtime_list.len() > 0
    }

    /// Whether the next thread comes from the lottery pool.
    pub open spec fn picks_lottery(self) -> bool {
        &&& !self.picks_realtime()
        &&& self.lottery_list.len() > 0
        &&& total_tickets(self.threads, self.lottery_list) > 0
    }

    /// Whether the next thread comes from the round-robin queue.
    pub open spec fn picks_round_robin(self) -> bool {
        &&& !self.picks_realtime()
        &&& !self.picks_lottery()
        &&& self.rr_queue.len() > 0
    }

    /// The thread that runs next: the earliest deadline of the real-time
    /// pool, else the winner of a lottery, else the head of the round-robin
    /// queue, else none.
    pub open spec fn next_thread(self) -> Option<MyThreadId> {
        if self.picks_realtime() {
            Some(self.realtime_list[self.earliest_index()])
        } else if self.picks_lottery() {
            Some(self.lottery_list[self.winner_index()])
        } else if self.picks_round_robin() {
            Some(self.rr_queue[0])
        } else {
            None
        }
    }

    /// The state after the next thread was picked: it has left its ready
    /// structure and is running; a lottery has stepped the generator.
    pub open spec fn pick_next(self) -> SchedulerView {
        if self.picks_realtime() {
            let i = self.earliest_index();
            SchedulerView { realtime_list: self.realtime_list.remove(i), ..self }.with_state(
                self.realtime_list[i],
                ThreadState::Running,
            )
        } else if self.picks_lottery() {
            let w = self.winner_index();
            SchedulerView {
                lottery_list: self.lottery_list.remove(w),
                rng: lcg_step(self.rng),
                ..self
            }.with_state(self.lottery_list[w], ThreadState::Running)
        } else if self.picks_round_robin() {
            SchedulerView { rr_queue: self.rr_queue.drop_first(), ..self }.with_state(
                self.rr_queue[0],
                ThreadState::Running,
            )
        } else {
            self
        }
    }

    /// The state in which the running thread has queued itself as ready,
    /// the first half of a yield.
    pub open spec fn requeue_current(self) -> SchedulerView {
        match self.current {
            Some(c) => if self.threads[c as int].state == ThreadState::Running {
                self.with_state(c, ThreadState::Ready).enqueue_ready(c)
            } else {
                self
            },
            None => self,
        }
    }

    /// The state after a pick made the thread `next` current.
    pub open spec fn dispatch_to(self, next: Option<MyThreadId>) -> SchedulerView {
        match next {
            Some(n) => SchedulerView { current: Some(n), ..self },
            None => self,
        }
    }

    /// The state after the current thread yielded.
    pub open spec fn yield_current(self) -> SchedulerView {
        let s = self.ensure_main_thread().requeue_current();
        s.pick_next().dispatch_to(s.next_thread())
    }

    /// What the caller of a yield does next.
    pub open spec fn yield_dispatch(self) -> Dispatch {
        let s = self.ensure_main_thread().requeue_current();
        match (s.current, s.next_thread()) {
            (Some(c), Some(n)) => if n == c {
                Dispatch::Stay
            } else {
                Dispatch::Switch { from: c, to: n }
            },
            _ => Dispatch::Stay,
        }
    }

    /// The state in which the current thread is blocked for `reason` and in
    /// no ready structure.
    pub open spec fn park_current(self, reason: BlockReason) -> SchedulerView {
        let c = self.current->0;
        self.with_thread(
            c,
            Thread {
                state: ThreadState::Blocked,
                block_reason: Some(reason),
                ..self.threads[c as int]
            },
        ).remove_from_ready_lists(c)
    }

    /// The state after the current thread blocked for `reason`.
    pub open spec fn block_current(self, reason: BlockReason) -> SchedulerView {
        let s = self.ensure_main_thread().park_current(reason);
        s.pick_next().dispatch_to(s.next_thread())
    }

    /// What the caller of a block does next.
    pub open spec fn block_dispatch(self, reason: BlockReason) -> Dispatch {
        let s = self.ensure_main_thread().park_current(reason);
        match s.next_thread() {
            Some(n) => Dispatch::Switch { from: s.current->0, to: n },
            None => Dispatch::Deadlock,
        }
    }

    /// The state after `tid` was made ready again; an unknown `tid` changes nothing.
    pub open spec fn unblock(self, tid: MyThreadId) -> SchedulerView {
        if self.known(tid) {
            self.with_thread(
                tid,
                Thread { state: ThreadState::Ready, block_reason: None, ..self.threads[tid as int] },
            ).enqueue_ready(tid)
        } else {
            self
        }
    }

    /// The state in which the current thread has finished with `retval`,
    /// its joiner, if any, is ready again, and it is in no ready structure.
    pub open spec fn retire_current(self, retval: usize) -> SchedulerView {
        let c = self.current->0;
        let done = self.with_thread(
            c,
            Thread { state: ThreadState::Finished, result: retval, ..self.threads[c as int] },
        );
        let woken = match self.threads[c as int].joined_by {
            Some(j) => done.unblock(j),
            None => done,
        };
        woken.remove_from_ready_lists(c)
    }

    /// The state after the current thread finished with `retval`.
    pub open spec fn finish_current(self, retval: usize) -> SchedulerView {
        let s = self.ensure_main_thread().retire_current(retval);
        s.pick_next().dispatch_to(s.next_thread())
    }

    /// What the caller of a finish does next.
    pub open spec fn finish_dispatch(self, retval: usize) -> Dispatch {
        let s = self.ensure_main_thread().retire_current(retval);
        match s.next_thread() {
            Some(n) => Dispatch::Switch { from: s.current->0, to: n },
            None => Dispatch::Exit,
        }
    }

    /// The state after the policy of the known thread `tid` became `policy`.
    pub open spec fn change_scheduler(self, tid: MyThreadId, policy: SchedPolicy) -> SchedulerView {
        let s = self.remove_from_ready_lists(tid).with_thread(
            tid,
            Thread {
                scheduler: policy,
                tickets: policy_tickets(policy),
                rt_params: policy_rt_params(policy),
                ..self.threads[tid as int]
            },
        );
        if s.threads[tid as int].state == ThreadState::Ready {
            s.enqueue_ready(tid)
        } else {
            s
        }
    }

    /// The state after the current thread started to wait for `target`: it
    /// is recorded as the joiner and blocked.
    pub open spec fn wait_for(self, target: MyThreadId) -> SchedulerView {
        self.with_thread(
            target,
            Thread { joined_by: self.current, ..self.threads[target as int] },
        ).block_current(BlockReason::Join { target })
    }

    /// The state with the thread `tid` marked as detached.
    pub open spec fn detach(self, tid: MyThreadId) -> SchedulerView {
        self.with_thread(tid, Thread { detached: true, ..self.threads[tid as int] })
    }

    /// The result of `target` if it has finished.
    pub open spec fn try_join_immediate(self, target: MyThreadId) -> Option<usize> {
        if self.known(target) && self.threads[target as int].state == ThreadState::Finished {
            Some(self.threads[target as int].result)
        } else {
            None
        }
    }

    /// The ready structure that holds the threads of one kind of policy.
    pub open spec fn ready_structure(self, kind: PolicyKind) -> Seq<MyThreadId> {
        match kind {
            PolicyKind::RoundRobin => self.rr_queue,
            PolicyKind::Lottery => self.lottery_list,
            PolicyKind::RealTime => self.realtime_list,
        }
    }

    /// Whether `tid` is a ready thread whose policy is of the given kind.
    pub open spec fn ready_under(self, tid: MyThreadId, kind: PolicyKind) -> bool {
        &&& self.known(tid)
        &&& self.threads[tid as int].state == ThreadState::Ready
        &&& policy_kind(self.threads[tid as int].scheduler) == kind
    }

    /// The ready structure of `kind` holds ready threads of that kind only, none of them twice.
    pub open spec fn pool_ok(self, kind: PolicyKind) -> bool {
        let pool = self.ready_structure(kind);
        &&& pool.no_duplicates()
        &&& forall|i: int| 0 <= i < pool.len() ==> self.ready_under(#[trigger] pool[i], kind)
    }

    /// The control block at index `i` is consistent with its place and policy.
    pub open spec fn thread_ok(self, i: int) -> bool {
        let t = self.threads[i];
        &&& t.id == i
        &&& t.tickets == policy_tickets(t.scheduler)
        &&& t.rt_params == policy_rt_params(t.scheduler)
        &&& t.joined_by matches Some(j) ==> self.known(j) && j != i
        &&& t.state == ThreadState::Running ==> self.current == Some(i as MyThreadId)
        &&& t.state == ThreadState::Ready ==> self.ready_structure(policy_kind(t.scheduler)).contains(
            i as MyThreadId,
        )
    }

    /// The invariant of the scheduler.
    ///
    /// Every ready thread is in exactly the ready structure of its policy
    /// and occurs there once; no thread in another state is in any of them.
    /// Identifiers are dense, a current thread exists as soon as any thread
    /// does, a running thread is the current one, the ticket and deadline
    /// fields are those of the policy, and nobody joins itself.
    pub open spec fn wf(self) -> bool {
        &&& self.threads.len() == 0 <==> self.current is None
        &&& self.current matches Some(c) ==> self.known(c)
        &&& forall|i: int| 0 <= i < self.threads.len() ==> #[trigger] self.thread_ok(i)
        &&& self.pool_ok(PolicyKind::RoundRobin)
        &&& self.pool_ok(PolicyKind::Lottery)
        &&& self.pool_ok(PolicyKind::RealTime)
    }

    /// Every queued identifier names a thread, and every thread in the
    /// real-time pool has a deadline: what picking the next thread relies on.
    pub open spec fn runnable(self) -> bool {
        &&& forall|i: int| 0 <= i < self.rr_queue.len() ==> self.known(#[trigger] self.rr_queue[i])
        &&& forall|i: int|
            0 <= i < self.lottery_list.len() ==> self.known(#[trigger] self.lottery_list[i])
        &&& forall|i: int|
            0 <= i < self.realtime_list.len() ==> self.known(#[trigger] self.realtime_list[i])
                && self.threads[self.realtime_list[i] as int].rt_params is Some
    }

    /// The joiner of the current thread, if it has one, is not ready: it
    /// still waits to be woken.
    pub open spec fn joiner_not_ready(self) -> bool {
        let s = self.ensure_main_thread();
        s.current matches Some(c) ==> (s.threads[c as int].joined_by matches Some(j)
            ==> s.threads[j as int].state != ThreadState::Ready)
    }

    /// Whether `tid` is a thread blocked in the queue of a mutex.
    pub open spec fn blocked_on_mutex(self, tid: MyThreadId) -> bool {
        &&& self.known(tid)
        &&& self.threads[tid as int].state == ThreadState::Blocked
        &&& self.threads[tid as int].block_reason == Some(BlockReason::Mutex)
    }

    /// Whoever waits for the unfinished thread at index `i` is blocked in
    /// that very join.
    pub open spec fn join_ok(self, i: int) -> bool {
        let t = self.threads[i];
        t.state != ThreadState::Finished ==> (t.joined_by matches Some(j) ==> {
            &&& self.known(j)
            &&& self.threads[j as int].state == ThreadState::Blocked
            &&& self.threads[j as int].block_reason == Some(
                BlockReason::Join { target: i as MyThreadId },
            )
        })
    }

    /// The invariant of a scheduler at work: the structural invariant, the
    /// current thread is the running one, and every recorded joiner of an
    /// unfinished thread is blocked in that join.
    pub open spec fn inv(self) -> bool {
        &&& self.wf()
        &&& self.current matches Some(c) ==> self.threads[c as int].state == ThreadState::Running
        &&& forall|i: int| 0 <= i < self.threads.len() ==> #[trigger] self.join_ok(i)
    }

    /// No thread is running: the state between parking one thread and
    /// dispatching the next.
    pub open spec fn idle(self) -> bool {
        forall|i: int|
            0 <= i < self.threads.len() ==> (#[trigger] self.threads[i]).state
                != ThreadState::Running
    }
}

} // verus!
