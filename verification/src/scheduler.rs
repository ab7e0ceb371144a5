//! The executable scheduler, verified against the model of [`crate::sched`].

use crate::errno::errno_invalid;
use crate::rng::Rng;
use crate::sched::{
    deadline_of, is_earliest, is_winner, tickets_before, total_tickets, without, BlockReason,
    Dispatch, MyThreadId, PolicyKind, RealTimeParams, SchedPolicy, SchedulerView, Thread,
    ThreadState, RNG_SEED,
};
use crate::sched_lemmas::{
    lemma_block_current, lemma_change_scheduler, lemma_create_thread, lemma_earliest_unique,
    lemma_ensure_main_thread, lemma_finish_current, lemma_inv_block_current,
    lemma_inv_change_scheduler, lemma_inv_create_thread, lemma_inv_detach,
    lemma_inv_finish_current, lemma_inv_unblock, lemma_inv_wait_for, lemma_inv_yield_current,
    lemma_park_current, lemma_pick_next, lemma_requeue_current, lemma_retire_runnable,
    lemma_unblock, lemma_wait_for, lemma_wf_runnable, lemma_winner_unique, lemma_without,
    lemma_without_push, lemma_yield_current,
};
use std::collections::VecDeque;
use vstd::prelude::*;

verus! {

/// The scheduler: every control block, the current thread, the three ready
/// structures and the generator.
pub struct Scheduler {
    threads: Vec<Thread>,
    current: Option<MyThreadId>,
    rr_queue: VecDeque<MyThreadId>,
    lottery_list: Vec<MyThreadId>,
    realtime_list: Vec<MyThreadId>,
    rng: Rng,
}

impl View for Scheduler {
    type V = SchedulerView;

    closed spec fn view(&self) -> SchedulerView {
        SchedulerView {
            threads: self.threads@,
            current: self.current,
            rr_queue: self.rr_queue@,
            lottery_list: self.lottery_list@,
            realtime_list: self.realtime_list@,
            rng: self.rng.state(),
        }
    }
}

/// The entries of `list` other than `tid`, in order.
fn vec_without(list: &Vec<MyThreadId>, tid: MyThreadId) -> (out: Vec<MyThreadId>)
    ensures
        out@ == without(list@, tid),
{
    let mut out: Vec<MyThreadId> = Vec::new();
    let mut i: usize = 0;
    proof {
        lemma_without(list@.subrange(0, 0), tid);
        assert(without(list@.subrange(0, 0), tid) =~= Seq::empty());
    }
    while i < list.len()
        invariant
            i <= list.len(),
            out@ == without(list@.subrange(0, i as int), tid),
        decreases list.len() - i,
    {
        let x = list[i];
        proof {
            lemma_without_push(list@.subrange(0, i as int), tid, x);
            assert(list@.subrange(0, i + 1) =~= list@.subrange(0, i as int).push(x));
        }
        if x != tid {
            out.push(x);
        }
        i += 1;
    }
    proof {
        assert(list@.subrange(0, list.len() as int) =~= list@);
    }
    out
}

/// The entries of `queue` other than `tid`, in order.
fn deque_without(queue: &VecDeque<MyThreadId>, tid: MyThreadId) -> (out: VecDeque<MyThreadId>)
    ensures
        out@ == without(queue@, tid),
{
    let mut out: VecDeque<MyThreadId> = VecDeque::new();
    let mut i: usize = 0;
    proof {
        lemma_without(queue@.subrange(0, 0), tid);
        assert(without(queue@.subrange(0, 0), tid) =~= Seq::empty());
    }
    while i < queue.len()
        invariant
            i <= queue.len(),
            out@ == without(queue@.subrange(0, i as int), tid),
        decreases queue.len() - i,
    {
        let x = queue[i];
        proof {
            lemma_without_push(queue@.subrange(0, i as int), tid, x);
            assert(queue@.subrange(0, i + 1) =~= queue@.subrange(0, i as int).push(x));
        }
        if x != tid {
            out.push_back(x);
        }
        i += 1;
    }
    proof {
        assert(queue@.subrange(0, queue.len() as int) =~= queue@);
    }
    out
}

/// The entries of `queue`, in order.
fn deque_entries(queue: &VecDeque<MyThreadId>) -> (out: Vec<MyThreadId>)
    ensures
        out@ == queue@,
{
    let mut out: Vec<MyThreadId> = Vec::new();
    let mut i: usize = 0;
    while i < queue.len()
        invariant
            i <= queue.len(),
            out@ == queue@.subrange(0, i as int),
        decreases queue.len() - i,
    {
        out.push(queue[i]);
        proof {
            assert(queue@.subrange(0, i + 1) =~= queue@.subrange(0, i as int).push(queue@[i as int]));
        }
        i += 1;
    }
    proof {
        assert(queue@.subrange(0, queue.len() as int) =~= queue@);
    }
    out
}

impl Scheduler {
    /// A scheduler without any thread; the bootstrap thread appears on first use.
    pub fn new() -> (s: Self)
        ensures
            s@ == SchedulerView::initial(),
            s@.wf(),
            s@.inv(),
    {
        let s = Scheduler {
            threads: Vec::new(),
            current: None,
            rr_queue: VecDeque::new(),
            lottery_list: Vec::new(),
            realtime_list: Vec::new(),
            rng: Rng::new(RNG_SEED),
        };
        proof {
            assert(s@ =~= SchedulerView::initial());
            assert(s@.pool_ok(PolicyKind::RoundRobin));
            assert(s@.pool_ok(PolicyKind::Lottery));
            assert(s@.pool_ok(PolicyKind::RealTime));
        }
        s
    }

    /// Materialises the bootstrap thread, running and current, if no thread exists yet.
    pub fn ensure_main_thread(&mut self)
        ensures
            final(self)@ == old(self)@.ensure_main_thread(),
            old(self)@.wf() ==> final(self)@.wf() && final(self)@.current is Some,
            old(self)@.inv() ==> final(self)@.inv(),
    {
        if self.threads.len() != 0 {
            return ;
        }
        let main_thread = Thread {
            id: 0,
            state: ThreadState::Running,
            scheduler: SchedPolicy::RoundRobin,
            tickets: 0,
            rt_params: None,
            result: 0,
            joined_by: None,
            detached: false,
            block_reason: None,
        };
        self.threads.push(main_thread);
        self.current = Some(0);
        proof {
            assert(self.threads@ =~= seq![main_thread]);
            if old(self)@.wf() {
                lemma_ensure_main_thread(old(self)@);
            }
            if old(self)@.inv() {
                assert(self@.join_ok(0));
            }
        }
    }

    /// The identifier of the current thread.
    pub fn current_thread_id(&self) -> (r: Option<MyThreadId>)
        ensures
            r == self@.current,
    {
        self.current
    }

    /// The control block of `id`, if there is such a thread.
    pub fn get_thread(&self, id: MyThreadId) -> (r: Option<&Thread>)
        ensures
            self@.known(id) ==> r == Some(&self@.threads[id as int]),
            !self@.known(id) ==> r is None,
    {
        if id < self.threads.len() {
            Some(&self.threads[id])
        } else {
            None
        }
    }

    /// The number of threads created so far, the bootstrap thread included.
    pub fn thread_count(&self) -> (n: usize)
        ensures
            n == self@.threads.len(),
    {
        self.threads.len()
    }

    /// The ready threads of one kind of policy, in the order of their
    /// ready structure.
    pub fn ready_threads(&self, kind: PolicyKind) -> (ids: Vec<MyThreadId>)
        ensures
            ids@ == self@.ready_structure(kind),
    {
        match kind {
            PolicyKind::RoundRobin => deque_entries(&self.rr_queue),
            PolicyKind::Lottery => self.lottery_list.clone(),
            PolicyKind::RealTime => self.realtime_list.clone(),
        }
    }

    /// Appends `tid` to the ready structure of its policy.
    pub fn enqueue_ready(&mut self, tid: MyThreadId)
        requires
            old(self)@.known(tid),
        ensures
            final(self)@ == old(self)@.enqueue_ready(tid),
    {
        match self.threads[tid].scheduler {
            SchedPolicy::RoundRobin => self.rr_queue.push_back(tid),
            SchedPolicy::Lottery { .. } => self.lottery_list.push(tid),
            SchedPolicy::RealTime { .. } => self.realtime_list.push(tid),
        }
    }

    /// Takes `tid` out of every ready structure.
    pub fn remove_from_ready_lists(&mut self, tid: MyThreadId)
        ensures
            final(self)@ == old(self)@.remove_from_ready_lists(tid),
    {
        self.rr_queue = deque_without(&self.rr_queue, tid);
        self.lottery_list = vec_without(&self.lottery_list, tid);
        self.realtime_list = vec_without(&self.realtime_list, tid);
    }

    /// Replaces the control block of the known thread `tid`.
    fn put_thread(&mut self, tid: MyThreadId, t: Thread)
        requires
            old(self)@.known(tid),
        ensures
            final(self)@ == old(self)@.with_thread(tid, t),
    {
        self.threads[tid] = t;
    }

    /// Creates a thread under `policy` and queues it as ready. The new
    /// identifier is the number of threads that existed before, the
    /// bootstrap thread included. Never switches.
    pub fn create_thread(&mut self, policy: SchedPolicy) -> (id: MyThreadId)
        ensures
            final(self)@ == old(self)@.create_thread(policy),
            id == old(self)@.ensure_main_thread().threads.len(),
            old(self)@.wf() ==> final(self)@.wf(),
            old(self)@.inv() ==> final(self)@.inv(),
    {
        self.ensure_main_thread();
        let id = self.threads.len();
        let mut tickets: u32 = 0;
        let mut rt_params: Option<RealTimeParams> = None;
        match policy {
            SchedPolicy::RoundRobin => {},
            SchedPolicy::Lottery { tickets: t } => {
                tickets = if t == 0 {
                    1
                } else {
                    t
                };
            },
            SchedPolicy::RealTime { deadline } => {
                rt_params = Some(RealTimeParams { deadline });
            },
        }
        let t = Thread {
            id,
            state: ThreadState::Ready,
            scheduler: policy,
            tickets,
            rt_params,
            result: 0,
            joined_by: None,
            detached: false,
            block_reason: None,
        };
        self.threads.push(t);
        proof {
            assert(self.threads@.len() == self.threads.len());
        }
        self.enqueue_ready(id);
        proof {
            if old(self)@.wf() {
                lemma_create_thread(old(self)@, policy);
            }
            if old(self)@.inv() {
                lemma_inv_create_thread(old(self)@, policy);
            }
        }
        id
    }

    /// The deadline of the thread at position `i` of the real-time pool.
    fn deadline_at(&self, i: usize) -> (d: u64)
        requires
            self@.runnable(),
            i < self@.realtime_list.len(),
        ensures
            d == deadline_of(self@.threads[self@.realtime_list[i as int] as int]),
    {
        proof {
            assert(self@.known(self@.realtime_list[i as int]));
        }
        let tid = self.realtime_list[i];
        self.threads[tid].rt_params.unwrap().deadline
    }

    /// The tickets of the thread at position `i` of the lottery pool.
    fn tickets_at(&self, i: usize) -> (t: u32)
        requires
            self@.runnable(),
            i < self@.lottery_list.len(),
        ensures
            t == self@.threads[self@.lottery_list[i as int] as int].tickets,
    {
        proof {
            assert(self@.known(self@.lottery_list[i as int]));
        }
        let tid = self.lottery_list[i];
        self.threads[tid].tickets
    }

    /// The first position of the real-time pool with the smallest deadline.
    fn earliest_position(&self) -> (best: usize)
        requires
            self@.runnable(),
            self@.realtime_list.len() > 0,
        ensures
            is_earliest(self@.threads, self@.realtime_list, best as int),
            best as int == self@.earliest_index(),
    {
        let n = self.realtime_list.len();
        let mut best_idx: usize = 0;
        let mut best_deadline: u64 = self.deadline_at(0);
        let mut i: usize = 1;
        while i < n
            invariant
                self@.runnable(),
                n == self@.realtime_list.len(),
                1 <= i <= n,
                best_idx < i,
                best_deadline == deadline_of(
                    self@.threads[self@.realtime_list[best_idx as int] as int],
                ),
                forall|j: int|
                    0 <= j < i ==> best_deadline <= deadline_of(
                        #[trigger] self@.threads[self@.realtime_list[j] as int],
                    ),
                forall|j: int|
                    0 <= j < best_idx ==> best_deadline < deadline_of(
                        #[trigger] self@.threads[self@.realtime_list[j] as int],
                    ),
            decreases n - i,
        {
            let d = self.deadline_at(i);
            if d < best_deadline {
                best_deadline = d;
                best_idx = i;
            }
            i += 1;
        }
        proof {
            assert(is_earliest(self@.threads, self@.realtime_list, best_idx as int));
            lemma_earliest_unique(
                self@.threads,
                self@.realtime_list,
                best_idx as int,
                self@.earliest_index(),
            );
        }
        best_idx
    }

    /// All the tickets in the lottery pool.
    fn count_tickets(&self) -> (total: u128)
        requires
            self@.runnable(),
        ensures
            total == total_tickets(self@.threads, self@.lottery_list),
    {
        let n = self.lottery_list.len();
        let mut total: u128 = 0;
        let mut i: usize = 0;
        while i < n
            invariant
                self@.runnable(),
                n == self@.lottery_list.len(),
                i <= n,
                total == tickets_before(self@.threads, self@.lottery_list, i as int),
                total <= i * 0xffff_ffff,
            decreases n - i,
        {
            let t = self.tickets_at(i);
            total = total + t as u128;
            i += 1;
        }
        total
    }

    /// The position of the lottery pool on which the draw `r` falls.
    fn winner_position(&self, draw: u128) -> (winner: usize)
        requires
            self@.runnable(),
            draw < total_tickets(self@.threads, self@.lottery_list),
        ensures
            is_winner(self@.threads, self@.lottery_list, draw as nat, winner as int),
    {
        let n = self.lottery_list.len();
        let mut r: u128 = draw;
        let mut winner_idx: usize = 0;
        let mut i: usize = 0;
        while i < n
            invariant_except_break
                self@.runnable(),
                n == self@.lottery_list.len(),
                i <= n,
                r + tickets_before(self@.threads, self@.lottery_list, i as int) == draw,
            invariant
                draw < total_tickets(self@.threads, self@.lottery_list),
                n == self@.lottery_list.len(),
            ensures
                is_winner(self@.threads, self@.lottery_list, draw as nat, winner_idx as int),
            decreases n - i,
        {
            let t = self.tickets_at(i) as u128;
            if r < t {
                winner_idx = i;
                break ;
            } else {
                r -= t;
            }
            i += 1;
        }
        winner_idx
    }

    /// Picks the thread that runs next and marks it running.
    ///
    /// The real-time pool goes first: the smallest deadline wins, the
    /// earliest entry among equals. Then the lottery pool: the generator
    /// draws a number below the total of the tickets, and the thread wins on
    /// whose tickets the draw falls. Then the head of the round-robin queue.
    /// The picked thread leaves its ready structure. With no ready thread
    /// the result is `None` and nothing changes.
    pub fn pick_next(&mut self) -> (next: Option<MyThreadId>)
        requires
            old(self)@.runnable(),
        ensures
            final(self)@ == old(self)@.pick_next(),
            next == old(self)@.next_thread(),
            next matches Some(n) ==> old(self)@.known(n),
            old(self)@.wf() && old(self)@.idle() ==> final(self)@.dispatch_to(next).wf(),
    {
        proof {
            if old(self)@.wf() && old(self)@.idle() {
                lemma_pick_next(old(self)@);
            }
        }
        if self.realtime_list.len() > 0 {
            let best_idx = self.earliest_position();
            proof {
                assert(self@.known(self@.realtime_list[best_idx as int]));
            }
            let tid = self.realtime_list.remove(best_idx);
            let mut thr = self.threads[tid];
            thr.state = ThreadState::Running;
            self.put_thread(tid, thr);
            return Some(tid);
        }
        if self.lottery_list.len() > 0 {
            let total = self.count_tickets();
            if total > 0 {
                let ghost before = self@;
                let draw = self.rng.next_u32() as u128 % total;
                proof {
                    assert(self@.threads == before.threads);
                    assert(self@.lottery_list == before.lottery_list);
                    assert(self@.realtime_list == before.realtime_list);
                    assert(self@.rr_queue == before.rr_queue);
                    assert(self@.runnable());
                    assert(draw as nat == before.lottery_draw());
                }
                let winner_idx = self.winner_position(draw);
                proof {
                    lemma_winner_unique(
                        before.threads,
                        before.lottery_list,
                        draw as nat,
                        winner_idx as int,
                        before.winner_index(),
                    );
                    assert(before.known(before.lottery_list[winner_idx as int]));
                }
                let tid = self.lottery_list.remove(winner_idx);
                let mut thr = self.threads[tid];
                thr.state = ThreadState::Running;
                self.put_thread(tid, thr);
                return Some(tid);
            }
        }
        match self.rr_queue.pop_front() {
            Some(tid) => {
                proof {
                    assert(old(self)@.known(old(self)@.rr_queue[0]));
                    assert(self@.rr_queue =~= old(self)@.rr_queue.drop_first());
                }
                let mut thr = self.threads[tid];
                thr.state = ThreadState::Running;
                self.put_thread(tid, thr);
                Some(tid)
            },
            None => None,
        }
    }

    /// The current thread gives up the processor.
    ///
    /// If it is running it becomes ready and queues behind the threads of
    /// its policy; then the next thread is picked. The caller switches
    /// unless the pick fell on the caller itself or no thread is ready.
    pub fn yield_current(&mut self) -> (d: Dispatch)
        requires
            old(self)@.wf(),
        ensures
            final(self)@ == old(self)@.yield_current(),
            d == old(self)@.yield_dispatch(),
            final(self)@.wf(),
            old(self)@.inv() ==> final(self)@.inv(),
    {
        proof {
            lemma_yield_current(old(self)@);
            if old(self)@.inv() {
                lemma_inv_yield_current(old(self)@);
            }
            lemma_ensure_main_thread(old(self)@);
            lemma_requeue_current(old(self)@.ensure_main_thread());
        }
        self.ensure_main_thread();
        let curr_id = match self.current {
            Some(id) => id,
            None => {
                return Dispatch::Stay;
            },
        };
        let mut thr = self.threads[curr_id];
        if thr.state == ThreadState::Running {
            thr.state = ThreadState::Ready;
            self.put_thread(curr_id, thr);
            self.enqueue_ready(curr_id);
        }
        proof {
            lemma_wf_runnable(self@);
        }
        match self.pick_next() {
            Some(next_id) => {
                if next_id == curr_id {
                    return Dispatch::Stay;
                }
                self.current = Some(next_id);
                Dispatch::Switch { from: curr_id, to: next_id }
            },
            None => Dispatch::Stay,
        }
    }

    /// Blocks the current thread for `reason` and picks the next one.
    ///
    /// With no ready thread the caller stays current, blocked, and the
    /// result is [`Dispatch::Deadlock`].
    pub fn block_current(&mut self, reason: BlockReason) -> (d: Dispatch)
        requires
            old(self)@.wf(),
        ensures
            final(self)@ == old(self)@.block_current(reason),
            d == old(self)@.block_dispatch(reason),
            d is Switch || d is Deadlock,
            final(self)@.wf(),
            old(self)@.inv() && d is Switch ==> final(self)@.inv(),
    {
        proof {
            lemma_block_current(old(self)@, reason);
            if old(self)@.inv() && old(self)@.block_dispatch(reason) is Switch {
                lemma_inv_block_current(old(self)@, reason);
            }
            lemma_ensure_main_thread(old(self)@);
            lemma_park_current(old(self)@.ensure_main_thread(), reason);
        }
        self.ensure_main_thread();
        let curr_id = self.current.unwrap();
        let mut thr = self.threads[curr_id];
        thr.state = ThreadState::Blocked;
        thr.block_reason = Some(reason);
        self.put_thread(curr_id, thr);
        self.remove_from_ready_lists(curr_id);
        proof {
            lemma_wf_runnable(self@);
        }
        match self.pick_next() {
            Some(next_id) => {
                self.current = Some(next_id);
                Dispatch::Switch { from: curr_id, to: next_id }
            },
            None => Dispatch::Deadlock,
        }
    }

    /// Makes `tid` ready and queues it behind the threads of its policy.
    /// Never switches; an unknown `tid` changes nothing.
    pub fn unblock(&mut self, tid: MyThreadId)
        ensures
            final(self)@ == old(self)@.unblock(tid),
            old(self)@.wf() && (old(self)@.known(tid) ==> old(self)@.threads[tid as int].state
                != ThreadState::Ready) ==> final(self)@.wf(),
            old(self)@.inv() && old(self)@.known(tid) && old(self)@.threads[tid as int].state
                == ThreadState::Blocked && !(old(self)@.threads[tid as int].block_reason matches Some(
                BlockReason::Join { .. },
            )) ==> final(self)@.inv(),
    {
        proof {
            if old(self)@.inv() && old(self)@.known(tid) && old(self)@.threads[tid as int].state
                == ThreadState::Blocked && !(old(self)@.threads[tid as int].block_reason matches Some(
                BlockReason::Join { .. },
            )) {
                lemma_inv_unblock(old(self)@, tid);
            }
            if old(self)@.wf() && (old(self)@.known(tid) ==> old(self)@.threads[tid as int].state
                != ThreadState::Ready) {
                lemma_unblock(old(self)@, tid);
            }
        }
        if tid < self.threads.len() {
            let mut thr = self.threads[tid];
            thr.state = ThreadState::Ready;
            thr.block_reason = None;
            self.put_thread(tid, thr);
            self.enqueue_ready(tid);
        }
    }

    /// Finishes the current thread with `retval`, wakes its joiner and
    /// picks the next thread.
    ///
    /// The result is a switch to the next thread, or [`Dispatch::Exit`]
    /// when no thread is ready.
    pub fn finish_current(&mut self, retval: usize) -> (d: Dispatch)
        requires
            old(self)@.wf(),
        ensures
            final(self)@ == old(self)@.finish_current(retval),
            d == old(self)@.finish_dispatch(retval),
            d is Switch || d is Exit,
            old(self)@.joiner_not_ready() ==> final(self)@.wf(),
            old(self)@.inv() ==> final(self)@.wf(),
            old(self)@.inv() && d is Switch ==> final(self)@.inv(),
    {
        proof {
            lemma_ensure_main_thread(old(self)@);
        }
        self.ensure_main_thread();
        let curr_id = self.current.unwrap();
        let ghost started = self@;
        proof {
            assert(started.thread_ok(curr_id as int));
        }
        let mut thr = self.threads[curr_id];
        thr.state = ThreadState::Finished;
        thr.result = retval;
        let joined_by = thr.joined_by;
        self.put_thread(curr_id, thr);
        match joined_by {
            Some(jid) => {
                self.unblock(jid);
            },
            None => {},
        }
        self.remove_from_ready_lists(curr_id);
        proof {
            assert(self@ == started.retire_current(retval));
            lemma_retire_runnable(started, retval);
            if old(self)@.joiner_not_ready() {
                lemma_finish_current(old(self)@, retval);
            }
            if old(self)@.inv() {
                lemma_inv_finish_current(old(self)@, retval);
            }
        }
        match self.pick_next() {
            Some(next_id) => {
                self.current = Some(next_id);
                Dispatch::Switch { from: curr_id, to: next_id }
            },
            None => Dispatch::Exit,
        }
    }

    /// The result of `target` if it has finished.
    pub fn try_join_immediate(&self, target: MyThreadId) -> (r: Option<usize>)
        ensures
            r == self@.try_join_immediate(target),
    {
        if target < self.threads.len() {
            let t = &self.threads[target];
            if t.state == ThreadState::Finished {
                Some(t.result)
            } else {
                None
            }
        } else {
            None
        }
    }

    /// Gives the thread `tid` the policy `policy`.
    ///
    /// The thread leaves every ready structure, takes the tickets and the
    /// deadline of the new policy, and, if it is ready, queues behind the
    /// threads of the new policy. The result is `0`; for an unknown `tid`
    /// it is the host's code for an invalid argument and nothing changes.
    pub fn change_scheduler(&mut self, tid: MyThreadId, policy: SchedPolicy) -> (rc: i32)
        ensures
            old(self)@.known(tid) ==> rc == 0 && final(self)@ == old(self)@.change_scheduler(
                tid,
                policy,
            ),
            !old(self)@.known(tid) ==> rc != 0 && final(self)@ == old(self)@,
            old(self)@.wf() ==> final(self)@.wf(),
            old(self)@.inv() ==> final(self)@.inv(),
    {
        if tid >= self.threads.len() {
            return errno_invalid();
        }
        proof {
            if old(self)@.wf() {
                lemma_change_scheduler(old(self)@, tid, policy);
            }
            if old(self)@.inv() {
                lemma_inv_change_scheduler(old(self)@, tid, policy);
            }
        }
        self.remove_from_ready_lists(tid);
        let mut thr = self.threads[tid];
        thr.scheduler = policy;
        thr.tickets = 0;
        thr.rt_params = None;
        match policy {
            SchedPolicy::RoundRobin => {},
            SchedPolicy::Lottery { tickets } => {
                thr.tickets = if tickets == 0 {
                    1
                } else {
                    tickets
                };
            },
            SchedPolicy::RealTime { deadline } => {
                thr.rt_params = Some(RealTimeParams { deadline });
            },
        }
        self.put_thread(tid, thr);
        if self.threads[tid].state == ThreadState::Ready {
            self.enqueue_ready(tid);
        }
        0
    }

    /// Records the current thread as the joiner of `target` and blocks it
    /// until `target` finishes.
    pub fn wait_for(&mut self, target: MyThreadId) -> (d: Dispatch)
        requires
            old(self)@.wf(),
            old(self)@.known(target),
            old(self)@.current is Some,
            old(self)@.current != Some(target),
        ensures
            final(self)@ == old(self)@.wait_for(target),
            d == old(self)@.with_thread(
                target,
                Thread { joined_by: old(self)@.current, ..old(self)@.threads[target as int] },
            ).block_dispatch(BlockReason::Join { target }),
            d is Switch || d is Deadlock,
            final(self)@.wf(),
            old(self)@.inv() && old(self)@.threads[target as int].state != ThreadState::Finished
                && d is Switch ==> final(self)@.inv(),
    {
        proof {
            lemma_wait_for(old(self)@, target);
        }
        let mut thr = self.threads[target];
        thr.joined_by = self.current;
        self.put_thread(target, thr);
        let d = self.block_current(BlockReason::Join { target });
        proof {
            if old(self)@.inv() && old(self)@.threads[target as int].state != ThreadState::Finished
                && d is Switch {
                lemma_inv_wait_for(old(self)@, target);
            }
        }
        d
    }

    /// The opaque word with which the known thread `target` finished; `0`
    /// as long as it has not.
    pub fn join_result(&self, target: MyThreadId) -> (r: usize)
        requires
            self@.known(target),
        ensures
            r == self@.threads[target as int].result,
    {
        self.threads[target].result
    }

    /// Marks `tid` as detached. The result is `0`; for an unknown `tid` it
    /// is the host's code for an invalid argument and nothing changes.
    pub fn detach(&mut self, tid: MyThreadId) -> (rc: i32)
        ensures
            old(self)@.known(tid) ==> rc == 0 && final(self)@ == old(self)@.detach(tid),
            !old(self)@.known(tid) ==> rc != 0 && final(self)@ == old(self)@,
            old(self)@.wf() ==> final(self)@.wf(),
            old(self)@.inv() ==> final(self)@.inv(),
    {
        if tid < self.threads.len() {
            proof {
                lemma_inv_detach(old(self)@, tid);
            }
            let mut thr = self.threads[tid];
            thr.detached = true;
            self.put_thread(tid, thr);
            0
        } else {
            errno_invalid()
        }
    }
}

} // verus!
