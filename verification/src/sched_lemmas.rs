//! Facts about the scheduler's transitions: each one keeps the invariant.

use crate::sched::{
    deadline_of, fresh_thread, is_earliest, is_winner, policy_kind, policy_rt_params,
    policy_tickets, tickets_before, total_tickets, without, BlockReason, MyThreadId, PolicyKind,
    SchedPolicy, SchedulerView, Thread, ThreadState,
};
use vstd::prelude::*;

verus! {

/// What is left after `tid` was taken out of `s`: everything else, in
/// order, and nothing twice that was not there twice before.
pub proof fn lemma_without(s: Seq<MyThreadId>, tid: MyThreadId)
    ensures
        !without(s, tid).contains(tid),
        forall|x: MyThreadId| #[trigger] without(s, tid).contains(x) ==> s.contains(x),
        forall|x: MyThreadId| x != tid && s.contains(x) ==> #[trigger] without(s, tid).contains(x),
        s.no_duplicates() ==> without(s, tid).no_duplicates(),
        !s.contains(tid) ==> without(s, tid) == s,
        without(s, tid).len() <= s.len(),
    decreases s.len(),
{
    reveal(Seq::filter);
    let pred = |x: MyThreadId| x != tid;
    let out = without(s, tid);
    if s.len() == 0 {
        assert(out =~= s);
    } else {
        let init = s.drop_last();
        let last = s.last();
        lemma_without(init, tid);
        let sub = without(init, tid);
        assert(out == if pred(last) {
            sub.push(last)
        } else {
            sub
        });
        assert forall|x: MyThreadId| #[trigger] out.contains(x) implies s.contains(x) by {
            let i = choose|i: int| 0 <= i < out.len() && out[i] == x;
            if i < sub.len() {
                assert(sub.contains(x));
                let k = choose|k: int| 0 <= k < init.len() && init[k] == x;
                assert(s[k] == x);
            } else {
                assert(s[s.len() - 1] == x);
            }
        }
        assert forall|x: MyThreadId| x != tid && s.contains(x) implies #[trigger] out.contains(
            x,
        ) by {
            let k = choose|k: int| 0 <= k < s.len() && s[k] == x;
            if k < init.len() {
                assert(init[k] == x);
                assert(init.contains(x));
                assert(sub.contains(x));
                let i = choose|i: int| 0 <= i < sub.len() && sub[i] == x;
                assert(out[i] == x);
            } else {
                assert(out[out.len() - 1] == x);
            }
        }
        if out.contains(tid) {
            let i = choose|i: int| 0 <= i < out.len() && out[i] == tid;
            if i < sub.len() {
                assert(sub.contains(tid));
            }
        }
        if s.no_duplicates() {
            assert(init.no_duplicates());
            if pred(last) {
                assert forall|i: int, j: int|
                    0 <= i < out.len() && 0 <= j < out.len() && i != j implies out[i] != out[j] by {
                    if i == sub.len() || j == sub.len() {
                        let other = if i == sub.len() {
                            j
                        } else {
                            i
                        };
                        if sub[other] == last {
                            assert(sub.contains(last));
                            assert(init.contains(last));
                            let k = choose|k: int| 0 <= k < init.len() && init[k] == last;
                            assert(s[k] == s[s.len() - 1]);
                        }
                    }
                }
            }
        }
        if !s.contains(tid) {
            assert(!init.contains(tid)) by {
                if init.contains(tid) {
                    let k = choose|k: int| 0 <= k < init.len() && init[k] == tid;
                    assert(s[k] == tid);
                }
            }
            assert(s[s.len() - 1] == last);
            assert(pred(last));
            assert(out =~= s);
        }
    }
}

/// Taking `tid` out commutes with appending another thread.
pub proof fn lemma_without_push(s: Seq<MyThreadId>, tid: MyThreadId, x: MyThreadId)
    ensures
        without(s.push(x), tid) == if x == tid {
            without(s, tid)
        } else {
            without(s, tid).push(x)
        },
{
    reveal(Seq::filter);
    assert(s.push(x).drop_last() =~= s);
}

/// A nonempty real-time pool has a first thread of smallest deadline.
pub proof fn lemma_earliest_exists(threads: Seq<Thread>, pool: Seq<MyThreadId>)
    requires
        pool.len() > 0,
    ensures
        exists|i: int| is_earliest(threads, pool, i),
    decreases pool.len(),
{
    if pool.len() == 1 {
        assert(is_earliest(threads, pool, 0));
    } else {
        let init = pool.drop_last();
        lemma_earliest_exists(threads, init);
        let i = choose|i: int| is_earliest(threads, init, i);
        let n = pool.len() - 1;
        assert forall|j: int| 0 <= j < n implies init[j] == pool[j] by {}
        if deadline_of(threads[pool[n] as int]) < deadline_of(threads[pool[i] as int]) {
            assert forall|j: int| 0 <= j < n implies deadline_of(threads[pool[n] as int])
                < deadline_of(#[trigger] threads[pool[j] as int]) by {
                assert(deadline_of(threads[init[i] as int]) <= deadline_of(
                    threads[init[j] as int],
                ));
            }
            assert(is_earliest(threads, pool, n));
        } else {
            assert forall|j: int| 0 <= j < pool.len() implies deadline_of(threads[pool[i] as int])
                <= deadline_of(#[trigger] threads[pool[j] as int]) by {
                if j < n {
                    assert(deadline_of(threads[init[i] as int]) <= deadline_of(
                        threads[init[j] as int],
                    ));
                }
            }
            assert forall|j: int| 0 <= j < i implies deadline_of(threads[pool[i] as int])
                < deadline_of(#[trigger] threads[pool[j] as int]) by {
                assert(deadline_of(threads[init[i] as int]) < deadline_of(
                    threads[init[j] as int],
                ));
            }
            assert(is_earliest(threads, pool, i));
        }
    }
}

/// Only one position of a pool is the first of smallest deadline.
pub proof fn lemma_earliest_unique(threads: Seq<Thread>, pool: Seq<MyThreadId>, i: int, j: int)
    requires
        is_earliest(threads, pool, i),
        is_earliest(threads, pool, j),
    ensures
        i == j,
{
    if i < j {
        assert(deadline_of(threads[pool[j] as int]) < deadline_of(threads[pool[i] as int]));
        assert(deadline_of(threads[pool[i] as int]) <= deadline_of(threads[pool[j] as int]));
    } else if j < i {
        assert(deadline_of(threads[pool[i] as int]) < deadline_of(threads[pool[j] as int]));
        assert(deadline_of(threads[pool[j] as int]) <= deadline_of(threads[pool[i] as int]));
    }
}

/// The tickets before a position grow with the position.
pub proof fn lemma_tickets_monotonic(threads: Seq<Thread>, pool: Seq<MyThreadId>, a: int, b: int)
    requires
        a <= b,
    ensures
        tickets_before(threads, pool, a) <= tickets_before(threads, pool, b),
    decreases b - a,
{
    if a < b {
        lemma_tickets_monotonic(threads, pool, a, b - 1);
    }
}

/// A draw below the total falls on some position of the pool.
pub proof fn lemma_winner_exists(threads: Seq<Thread>, pool: Seq<MyThreadId>, r: nat, k: int)
    requires
        0 <= k <= pool.len(),
        r < tickets_before(threads, pool, k),
    ensures
        exists|w: int| is_winner(threads, pool, r, w),
    decreases k,
{
    if tickets_before(threads, pool, k - 1) <= r {
        assert(is_winner(threads, pool, r, k - 1));
    } else {
        lemma_winner_exists(threads, pool, r, k - 1);
    }
}

/// A draw falls on one position only.
pub proof fn lemma_winner_unique(
    threads: Seq<Thread>,
    pool: Seq<MyThreadId>,
    r: nat,
    a: int,
    b: int,
)
    requires
        is_winner(threads, pool, r, a),
        is_winner(threads, pool, r, b),
    ensures
        a == b,
{
    if a < b {
        lemma_tickets_monotonic(threads, pool, a + 1, b);
    } else if b < a {
        lemma_tickets_monotonic(threads, pool, b + 1, a);
    }
}

/// `t` can take the place of the control block of `tid` in `s`: it keeps
/// the identifier, its ticket and deadline fields are those of its policy,
/// and its joiner, if any, is another known thread.
pub open spec fn fits(s: SchedulerView, tid: MyThreadId, t: Thread) -> bool {
    &&& s.known(tid)
    &&& t.id == tid
    &&& t.tickets == policy_tickets(t.scheduler)
    &&& t.rt_params == policy_rt_params(t.scheduler)
    &&& t.joined_by matches Some(j) ==> s.known(j) && j != tid
}

/// After `tid` left the ready structures and got a new control block, each
/// structure still holds ready threads of its kind only: all it held
/// before but `tid`.
pub proof fn lemma_pool_replace(s: SchedulerView, tid: MyThreadId, t: Thread, kind: PolicyKind)
    requires
        s.wf(),
        fits(s, tid, t),
    ensures
        s.remove_from_ready_lists(tid).with_thread(tid, t).pool_ok(kind),
        s.remove_from_ready_lists(tid).with_thread(tid, t).ready_structure(kind) == without(
            s.ready_structure(kind),
            tid,
        ),
        !without(s.ready_structure(kind), tid).contains(tid),
        forall|x: MyThreadId|
            x != tid && s.ready_structure(kind).contains(x) ==> #[trigger] without(
                s.ready_structure(kind),
                tid,
            ).contains(x),
        !s.ready_structure(kind).contains(tid) ==> without(s.ready_structure(kind), tid)
            == s.ready_structure(kind),
{
    let s1 = s.remove_from_ready_lists(tid).with_thread(tid, t);
    let before = s.ready_structure(kind);
    let after = s1.ready_structure(kind);
    lemma_without(before, tid);
    assert(s.pool_ok(kind));
    assert(after == without(before, tid));
    assert forall|i: int| 0 <= i < after.len() implies s1.ready_under(#[trigger] after[i], kind) by {
        let x = after[i];
        assert(after.contains(x));
        assert(before.contains(x));
        let k = choose|k: int| 0 <= k < before.len() && before[k] == x;
        assert(s.ready_under(before[k], kind));
    }
}

/// Giving a thread a control block that is not ready, and taking it out of
/// the ready structures, keeps the invariant.
pub proof fn lemma_replace_unqueued(s: SchedulerView, tid: MyThreadId, t: Thread)
    requires
        s.wf(),
        fits(s, tid, t),
        t.state != ThreadState::Ready,
        t.state == ThreadState::Running ==> s.current == Some(tid),
    ensures
        s.remove_from_ready_lists(tid).with_thread(tid, t).wf(),
{
    let s1 = s.remove_from_ready_lists(tid).with_thread(tid, t);
    lemma_pool_replace(s, tid, t, PolicyKind::RoundRobin);
    lemma_pool_replace(s, tid, t, PolicyKind::Lottery);
    lemma_pool_replace(s, tid, t, PolicyKind::RealTime);
    assert forall|i: int| 0 <= i < s1.threads.len() implies #[trigger] s1.thread_ok(i) by {
        assert(s.thread_ok(i));
        if i != tid {
            let k = policy_kind(s.threads[i].scheduler);
            lemma_pool_replace(s, tid, t, k);
        }
    }
}

/// Giving a thread a ready control block, and moving it to the end of the
/// ready structure of its policy, keeps the invariant.
pub proof fn lemma_replace_enqueue(s: SchedulerView, tid: MyThreadId, t: Thread)
    requires
        s.wf(),
        fits(s, tid, t),
        t.state == ThreadState::Ready,
    ensures
        s.remove_from_ready_lists(tid).with_thread(tid, t).enqueue_ready(tid).wf(),
{
    let s1 = s.remove_from_ready_lists(tid).with_thread(tid, t);
    let s2 = s1.enqueue_ready(tid);
    let own = policy_kind(t.scheduler);
    lemma_pool_replace(s, tid, t, PolicyKind::RoundRobin);
    lemma_pool_replace(s, tid, t, PolicyKind::Lottery);
    lemma_pool_replace(s, tid, t, PolicyKind::RealTime);
    assert(s2.ready_structure(own) == s1.ready_structure(own).push(tid));
    assert forall|kind: PolicyKind| #[trigger] s2.pool_ok(kind) by {
        lemma_pool_replace(s, tid, t, kind);
        let before = s1.ready_structure(kind);
        let after = s2.ready_structure(kind);
        if kind == own {
            assert forall|i: int| 0 <= i < after.len() implies s2.ready_under(
                #[trigger] after[i],
                kind,
            ) by {
                if i < before.len() {
                    assert(s1.ready_under(before[i], kind));
                }
            }
            assert forall|i: int, j: int|
                0 <= i < after.len() && 0 <= j < after.len() && i != j implies after[i]
                != after[j] by {
                if i == before.len() {
                    assert(before.contains(before[j]));
                } else if j == before.len() {
                    assert(before.contains(before[i]));
                }
            }
        } else {
            assert(after == before);
            assert forall|i: int| 0 <= i < after.len() implies s2.ready_under(
                #[trigger] after[i],
                kind,
            ) by {
                assert(s1.ready_under(before[i], kind));
            }
        }
    }
    assert forall|i: int| 0 <= i < s2.threads.len() implies #[trigger] s2.thread_ok(i) by {
        assert(s.thread_ok(i));
        if i != tid {
            let k = policy_kind(s.threads[i].scheduler);
            lemma_pool_replace(s, tid, t, k);
            if s.threads[i].state == ThreadState::Ready {
                let pool = s1.ready_structure(k);
                assert(pool.contains(i as MyThreadId));
                let at = choose|at: int| 0 <= at < pool.len() && pool[at] == i as MyThreadId;
                if k == own {
                    assert(s2.ready_structure(k)[at] == i as MyThreadId);
                }
            }
        } else {
            let pool = s2.ready_structure(own);
            assert(pool[pool.len() - 1] == tid);
        }
    }
}

/// Materialising the bootstrap thread keeps the invariant.
pub proof fn lemma_ensure_main_thread(s: SchedulerView)
    requires
        s.wf(),
    ensures
        s.ensure_main_thread().wf(),
        s.ensure_main_thread().threads.len() > 0,
        s.ensure_main_thread().current is Some,
{
    let s1 = s.ensure_main_thread();
    if s.threads.len() == 0 {
        assert forall|kind: PolicyKind| s.ready_structure(kind).len() == 0 by {
            assert(s.pool_ok(kind));
            if s.ready_structure(kind).len() > 0 {
                assert(s.ready_under(s.ready_structure(kind)[0], kind));
            }
        }
        assert(s1.pool_ok(PolicyKind::RoundRobin));
        assert(s1.pool_ok(PolicyKind::Lottery));
        assert(s1.pool_ok(PolicyKind::RealTime));
        assert(s1.thread_ok(0));
    }
}

/// Creating a thread keeps the invariant.
pub proof fn lemma_create_thread(s: SchedulerView, policy: SchedPolicy)
    requires
        s.wf(),
        s.threads.len() < usize::MAX,
    ensures
        s.create_thread(policy).wf(),
{
    lemma_ensure_main_thread(s);
    let s0 = s.ensure_main_thread();
    let id = s0.threads.len() as MyThreadId;
    let t = fresh_thread(id, policy);
    let s1 = SchedulerView { threads: s0.threads.push(t), ..s0 };
    let s2 = s1.enqueue_ready(id);
    let own = policy_kind(policy);
    assert forall|kind: PolicyKind| #[trigger] s2.pool_ok(kind) by {
        assert(s0.pool_ok(kind));
        let before = s0.ready_structure(kind);
        let after = s2.ready_structure(kind);
        assert forall|i: int| 0 <= i < before.len() implies s2.ready_under(
            #[trigger] before[i],
            kind,
        ) && before[i] != id by {
            assert(s0.ready_under(before[i], kind));
        }
        if kind == own {
            assert(after == before.push(id));
        } else {
            assert(after == before);
        }
    }
    assert forall|i: int| 0 <= i < s2.threads.len() implies #[trigger] s2.thread_ok(i) by {
        if i < s0.threads.len() {
            assert(s0.thread_ok(i));
            let k = policy_kind(s0.threads[i].scheduler);
            if s0.threads[i].state == ThreadState::Ready {
                let pool = s0.ready_structure(k);
                let at = choose|at: int| 0 <= at < pool.len() && pool[at] == i as MyThreadId;
                assert(s2.ready_structure(k)[at] == i as MyThreadId);
            }
        } else {
            let pool = s2.ready_structure(own);
            assert(pool[pool.len() - 1] == id);
        }
    }
}

/// In a sequence without duplicates, taking out the value at a position
/// is taking out that position.
pub proof fn lemma_without_is_remove(s: Seq<MyThreadId>, i: int)
    requires
        s.no_duplicates(),
        0 <= i < s.len(),
    ensures
        without(s, s[i]) == s.remove(i),
    decreases s.len(),
{
    reveal(Seq::filter);
    let init = s.drop_last();
    let last = s.last();
    if i == s.len() - 1 {
        assert(!init.contains(last)) by {
            if init.contains(last) {
                let k = choose|k: int| 0 <= k < init.len() && init[k] == last;
                assert(s[k] == s[s.len() - 1]);
            }
        }
        lemma_without(init, last);
        assert(s.remove(i) =~= init);
    } else {
        assert(init[i] == s[i]);
        lemma_without_is_remove(init, i);
        assert(s[s.len() - 1] != s[i]);
        assert(s.remove(i) =~= init.remove(i).push(last));
    }
}

/// A pool of lottery threads that is not empty holds at least one ticket.
pub proof fn lemma_lottery_has_tickets(s: SchedulerView)
    requires
        s.wf(),
        s.lottery_list.len() > 0,
    ensures
        total_tickets(s.threads, s.lottery_list) > 0,
{
    let first = s.lottery_list[0];
    assert(s.pool_ok(PolicyKind::Lottery));
    assert(s.ready_under(s.ready_structure(PolicyKind::Lottery)[0], PolicyKind::Lottery));
    assert(s.thread_ok(first as int));
    assert(tickets_before(s.threads, s.lottery_list, 1) == tickets_before(
        s.threads,
        s.lottery_list,
        0,
    ) + s.threads[first as int].tickets as nat);
    lemma_tickets_monotonic(s.threads, s.lottery_list, 1, s.lottery_list.len() as int);
}

/// The position from which the next thread is taken, in the ready
/// structure of the kind that fires.
pub open spec fn picked_index(s: SchedulerView) -> int {
    if s.picks_realtime() {
        s.earliest_index()
    } else if s.picks_lottery() {
        s.winner_index()
    } else {
        0
    }
}

/// The kind of ready structure from which the next thread is taken.
pub open spec fn picked_kind(s: SchedulerView) -> PolicyKind {
    if s.picks_realtime() {
        PolicyKind::RealTime
    } else if s.picks_lottery() {
        PolicyKind::Lottery
    } else {
        PolicyKind::RoundRobin
    }
}

/// While every thread is parked, picking and dispatching the next thread
/// keeps the invariant. A thread is picked exactly when some ready
/// structure is not empty; it was ready, and is then the running and
/// current thread. Without a ready thread nothing changes.
pub proof fn lemma_pick_next(s: SchedulerView)
    requires
        s.wf(),
        s.idle(),
    ensures
        s.pick_next().dispatch_to(s.next_thread()).wf(),
        s.next_thread() is None <==> s.rr_queue.len() == 0 && s.lottery_list.len() == 0
            && s.realtime_list.len() == 0,
        s.next_thread() is None ==> s.pick_next() == s,
        s.next_thread() matches Some(n) ==> {
            &&& s.ready_under(n, picked_kind(s))
            &&& 0 <= picked_index(s) < s.ready_structure(picked_kind(s)).len()
            &&& s.ready_structure(picked_kind(s))[picked_index(s)] == n
            &&& s.pick_next().threads == s.threads.update(
                n as int,
                Thread { state: ThreadState::Running, ..s.threads[n as int] },
            )
            &&& s.pick_next().dispatch_to(s.next_thread()).current == Some(n)
        },
{
    if s.realtime_list.len() > 0 {
        lemma_earliest_exists(s.threads, s.realtime_list);
    }
    if s.lottery_list.len() > 0 {
        lemma_lottery_has_tickets(s);
        let total = total_tickets(s.threads, s.lottery_list);
        let r = s.lottery_draw();
        assert(r < total) by {
            vstd::arithmetic::div_mod::lemma_mod_bound(
                lcg_output_of(s) as int,
                total as int,
            );
        }
        lemma_winner_exists(s.threads, s.lottery_list, r, s.lottery_list.len() as int);
    }
    match s.next_thread() {
        None => {},
        Some(n) => {
            let kind = picked_kind(s);
            let i = picked_index(s);
            let pool = s.ready_structure(kind);
            assert(0 <= i < pool.len());
            assert(pool[i] == n);
            assert(s.pool_ok(kind));
            assert(s.ready_under(pool[i], kind));
            let base = SchedulerView { current: Some(n), rng: s.pick_next().rng, ..s };
            assert(base.wf()) by {
                assert forall|j: int| 0 <= j < base.threads.len() implies #[trigger] base.thread_ok(
                    j,
                ) by {
                    assert(s.thread_ok(j));
                    assert(s.threads[j].state != ThreadState::Running);
                }
                assert(s.pool_ok(PolicyKind::RoundRobin));
                assert(s.pool_ok(PolicyKind::Lottery));
                assert(s.pool_ok(PolicyKind::RealTime));
                assert forall|k: PolicyKind| #[trigger] base.pool_ok(k) by {
                    assert(s.pool_ok(k));
                    let p = s.ready_structure(k);
                    assert forall|j: int| 0 <= j < p.len() implies base.ready_under(
                        #[trigger] p[j],
                        k,
                    ) by {
                        assert(s.ready_under(p[j], k));
                    }
                }
            }
            let t = Thread { state: ThreadState::Running, ..s.threads[n as int] };
            assert(s.thread_ok(n as int));
            assert(fits(base, n, t));
            lemma_replace_unqueued(base, n, t);
            lemma_without_is_remove(pool, i);
            assert forall|k: PolicyKind| k != kind implies without(
                #[trigger] s.ready_structure(k),
                n,
            ) == s.ready_structure(k) by {
                let p = s.ready_structure(k);
                assert(s.pool_ok(k));
                if p.contains(n) {
                    let at = choose|at: int| 0 <= at < p.len() && p[at] == n;
                    assert(s.ready_under(p[at], k));
                }
                lemma_without(p, n);
            }
            assert(s.ready_structure(PolicyKind::RoundRobin) == s.rr_queue);
            assert(s.ready_structure(PolicyKind::Lottery) == s.lottery_list);
            assert(s.ready_structure(PolicyKind::RealTime) == s.realtime_list);
            if kind == PolicyKind::RoundRobin {
                assert(s.rr_queue.drop_first() =~= s.rr_queue.remove(0));
            }
            assert(s.pick_next().dispatch_to(s.next_thread()) == base.remove_from_ready_lists(
                n,
            ).with_thread(n, t));
        },
    }
}

/// The number the generator hands to the lottery.
pub open spec fn lcg_output_of(s: SchedulerView) -> nat {
    crate::rng::lcg_output(crate::rng::lcg_step(s.rng)) as nat
}

/// A thread that is not ready is in no ready structure.
pub proof fn lemma_not_queued(s: SchedulerView, tid: MyThreadId)
    requires
        s.wf(),
        !s.known(tid) || s.threads[tid as int].state != ThreadState::Ready,
    ensures
        s.remove_from_ready_lists(tid) == s,
        !s.rr_queue.contains(tid),
        !s.lottery_list.contains(tid),
        !s.realtime_list.contains(tid),
{
    assert forall|kind: PolicyKind| !(#[trigger] s.ready_structure(kind)).contains(tid) by {
        let p = s.ready_structure(kind);
        assert(s.pool_ok(kind));
        if p.contains(tid) {
            let at = choose|at: int| 0 <= at < p.len() && p[at] == tid;
            assert(s.ready_under(p[at], kind));
        }
    }
    assert(!s.ready_structure(PolicyKind::RoundRobin).contains(tid));
    assert(!s.ready_structure(PolicyKind::Lottery).contains(tid));
    assert(!s.ready_structure(PolicyKind::RealTime).contains(tid));
    lemma_without(s.rr_queue, tid);
    lemma_without(s.lottery_list, tid);
    lemma_without(s.realtime_list, tid);
}

/// Under the invariant, with the current thread not running, no thread runs.
pub proof fn lemma_idle(s: SchedulerView)
    requires
        s.wf(),
        s.current matches Some(c) ==> s.threads[c as int].state != ThreadState::Running,
    ensures
        s.idle(),
{
    assert forall|i: int| 0 <= i < s.threads.len() implies (#[trigger] s.threads[i]).state
        != ThreadState::Running by {
        assert(s.thread_ok(i));
    }
}

/// Queueing the running thread as ready keeps the invariant and leaves no thread running.
pub proof fn lemma_requeue_current(s: SchedulerView)
    requires
        s.wf(),
    ensures
        s.requeue_current().wf(),
        s.requeue_current().idle(),
        s.requeue_current().current == s.current,
{
    match s.current {
        Some(c) => {
            assert(s.thread_ok(c as int));
            if s.threads[c as int].state == ThreadState::Running {
                let t = Thread { state: ThreadState::Ready, ..s.threads[c as int] };
                lemma_not_queued(s, c);
                lemma_replace_enqueue(s, c, t);
            }
        },
        None => {},
    }
    lemma_idle(s.requeue_current());
}

/// Blocking the current thread keeps the invariant and leaves no thread running.
pub proof fn lemma_park_current(s: SchedulerView, reason: BlockReason)
    requires
        s.wf(),
        s.current is Some,
    ensures
        s.park_current(reason).wf(),
        s.park_current(reason).idle(),
        s.park_current(reason).current == s.current,
{
    let c = s.current->0;
    assert(s.thread_ok(c as int));
    let t = Thread {
        state: ThreadState::Blocked,
        block_reason: Some(reason),
        ..s.threads[c as int]
    };
    lemma_replace_unqueued(s, c, t);
    assert(s.park_current(reason) == s.remove_from_ready_lists(c).with_thread(c, t));
    lemma_idle(s.park_current(reason));
}

/// Making a thread ready that was not ready keeps the invariant.
pub proof fn lemma_unblock(s: SchedulerView, tid: MyThreadId)
    requires
        s.wf(),
        s.known(tid) ==> s.threads[tid as int].state != ThreadState::Ready,
    ensures
        s.unblock(tid).wf(),
{
    if s.known(tid) {
        assert(s.thread_ok(tid as int));
        let t = Thread { state: ThreadState::Ready, block_reason: None, ..s.threads[tid as int] };
        lemma_not_queued(s, tid);
        lemma_replace_enqueue(s, tid, t);
    }
}

/// Finishing the current thread and waking its joiner keeps the invariant,
/// provided that the joiner, if there is one, is not ready already; no
/// thread is running afterwards.
pub proof fn lemma_retire_current(s: SchedulerView, retval: usize)
    requires
        s.wf(),
        s.current is Some,
        s.threads[s.current->0 as int].joined_by matches Some(j) ==> s.threads[j as int].state
            != ThreadState::Ready,
    ensures
        s.retire_current(retval).wf(),
        s.retire_current(retval).idle(),
        s.retire_current(retval).current == s.current,
{
    let c = s.current->0;
    assert(s.thread_ok(c as int));
    let t = Thread { state: ThreadState::Finished, result: retval, ..s.threads[c as int] };
    lemma_replace_unqueued(s, c, t);
    let s1 = s.remove_from_ready_lists(c).with_thread(c, t);
    match s.threads[c as int].joined_by {
        Some(j) => {
            assert(s1.thread_ok(j as int));
            let tj = Thread {
                state: ThreadState::Ready,
                block_reason: None,
                ..s1.threads[j as int]
            };
            lemma_not_queued(s1, j);
            lemma_replace_enqueue(s1, j, tj);
            let s2 = s1.with_thread(j, tj).enqueue_ready(j);
            assert(s2.wf());
            lemma_without_push(s.rr_queue, c, j);
            lemma_without_push(s.lottery_list, c, j);
            lemma_without_push(s.realtime_list, c, j);
            assert(s.retire_current(retval) == s2);
        },
        None => {
            assert(s.retire_current(retval) == s1);
        },
    }
    lemma_idle(s.retire_current(retval));
}

/// Changing the policy of a thread keeps the invariant.
pub proof fn lemma_change_scheduler(s: SchedulerView, tid: MyThreadId, policy: SchedPolicy)
    requires
        s.wf(),
        s.known(tid),
    ensures
        s.change_scheduler(tid, policy).wf(),
{
    assert(s.thread_ok(tid as int));
    let t = Thread {
        scheduler: policy,
        tickets: policy_tickets(policy),
        rt_params: policy_rt_params(policy),
        ..s.threads[tid as int]
    };
    if t.state == ThreadState::Ready {
        lemma_replace_enqueue(s, tid, t);
    } else {
        lemma_replace_unqueued(s, tid, t);
    }
}

/// A yield keeps the invariant.
pub proof fn lemma_yield_current(s: SchedulerView)
    requires
        s.wf(),
    ensures
        s.yield_current().wf(),
{
    lemma_ensure_main_thread(s);
    lemma_requeue_current(s.ensure_main_thread());
    lemma_pick_next(s.ensure_main_thread().requeue_current());
}

/// Blocking keeps the invariant, whether or not another thread can run.
pub proof fn lemma_block_current(s: SchedulerView, reason: BlockReason)
    requires
        s.wf(),
    ensures
        s.block_current(reason).wf(),
{
    lemma_ensure_main_thread(s);
    lemma_park_current(s.ensure_main_thread(), reason);
    lemma_pick_next(s.ensure_main_thread().park_current(reason));
}

/// Finishing keeps the invariant, provided that the joiner of the current
/// thread, if it has one, is not ready already.
pub proof fn lemma_finish_current(s: SchedulerView, retval: usize)
    requires
        s.wf(),
        s.joiner_not_ready(),
    ensures
        s.finish_current(retval).wf(),
{
    lemma_ensure_main_thread(s);
    lemma_retire_current(s.ensure_main_thread(), retval);
    lemma_pick_next(s.ensure_main_thread().retire_current(retval));
}

/// Under the invariant the next thread can be picked.
pub proof fn lemma_wf_runnable(s: SchedulerView)
    requires
        s.wf(),
    ensures
        s.runnable(),
{
    assert(s.pool_ok(PolicyKind::RoundRobin));
    assert(s.pool_ok(PolicyKind::Lottery));
    assert(s.pool_ok(PolicyKind::RealTime));
    assert forall|i: int| 0 <= i < s.rr_queue.len() implies s.known(#[trigger] s.rr_queue[i]) by {
        assert(s.ready_under(s.ready_structure(PolicyKind::RoundRobin)[i], PolicyKind::RoundRobin));
    }
    assert forall|i: int| 0 <= i < s.lottery_list.len() implies s.known(
        #[trigger] s.lottery_list[i],
    ) by {
        assert(s.ready_under(s.ready_structure(PolicyKind::Lottery)[i], PolicyKind::Lottery));
    }
    assert forall|i: int| 0 <= i < s.realtime_list.len() implies s.known(
        #[trigger] s.realtime_list[i],
    ) && s.threads[s.realtime_list[i] as int].rt_params is Some by {
        assert(s.ready_under(s.ready_structure(PolicyKind::RealTime)[i], PolicyKind::RealTime));
        assert(s.thread_ok(s.realtime_list[i] as int));
    }
}

/// After the current thread finished, whatever the state of its joiner,
/// the next thread can be picked.
pub proof fn lemma_retire_runnable(s: SchedulerView, retval: usize)
    requires
        s.wf(),
        s.current is Some,
    ensures
        s.retire_current(retval).runnable(),
{
    let c = s.current->0;
    let r = s.retire_current(retval);
    lemma_wf_runnable(s);
    assert(s.thread_ok(c as int));
    let joiner = s.threads[c as int].joined_by;
    assert forall|kind: PolicyKind, i: int|
        0 <= i < r.ready_structure(kind).len() implies s.ready_structure(kind).contains(
        #[trigger] r.ready_structure(kind)[i],
    ) || joiner == Some(r.ready_structure(kind)[i]) by {
        let before = s.ready_structure(kind);
        let after = r.ready_structure(kind);
        let x = after[i];
        assert(after.contains(x));
        match joiner {
            Some(j) => {
                let t = Thread {
                    state: ThreadState::Finished,
                    result: retval,
                    ..s.threads[c as int]
                };
                let done = s.with_thread(c, t);
                let mid = done.unblock(j).ready_structure(kind);
                assert(after == without(mid, c));
                lemma_without(mid, c);
                assert(mid.contains(x));
                let at = choose|at: int| 0 <= at < mid.len() && mid[at] == x;
                if at < before.len() {
                    assert(before[at] == x);
                }
            },
            None => {
                lemma_without(before, c);
            },
        }
    }
    assert forall|i: int| 0 <= i < r.rr_queue.len() implies r.known(#[trigger] r.rr_queue[i]) by {
        let x = r.ready_structure(PolicyKind::RoundRobin)[i];
        if s.rr_queue.contains(x) {
            let at = choose|at: int| 0 <= at < s.rr_queue.len() && s.rr_queue[at] == x;
            assert(s.known(s.rr_queue[at]));
        }
    }
    assert forall|i: int| 0 <= i < r.lottery_list.len() implies r.known(
        #[trigger] r.lottery_list[i],
    ) by {
        let x = r.ready_structure(PolicyKind::Lottery)[i];
        if s.lottery_list.contains(x) {
            let at = choose|at: int| 0 <= at < s.lottery_list.len() && s.lottery_list[at] == x;
            assert(s.known(s.lottery_list[at]));
        }
    }
    assert forall|i: int| 0 <= i < r.realtime_list.len() implies r.known(
        #[trigger] r.realtime_list[i],
    ) && r.threads[r.realtime_list[i] as int].rt_params is Some by {
        let x = r.ready_structure(PolicyKind::RealTime)[i];
        if s.realtime_list.contains(x) {
            let at = choose|at: int| 0 <= at < s.realtime_list.len() && s.realtime_list[at] == x;
            assert(s.known(s.realtime_list[at]));
            assert(s.threads[x as int].rt_params is Some);
        } else {
            assert(joiner == Some(x));
            assert(s.thread_ok(x as int));
            let t = Thread { state: ThreadState::Finished, result: retval, ..s.threads[c as int] };
            let done = s.with_thread(c, t);
            assert(done.threads[x as int].scheduler is RealTime) by {
                let mid = done.unblock(x).realtime_list;
                lemma_without(mid, c);
                assert(r.realtime_list == without(mid, c));
                assert(r.realtime_list.contains(x));
                assert(mid.contains(x));
                if !(done.threads[x as int].scheduler is RealTime) {
                    assert(mid == s.realtime_list);
                }
            }
        }
        assert(r.threads[x as int].rt_params == s.threads[x as int].rt_params);
    }
}

/// Creating a thread keeps the invariant of a scheduler at work.
pub proof fn lemma_inv_create_thread(s: SchedulerView, policy: SchedPolicy)
    requires
        s.inv(),
        s.threads.len() < usize::MAX,
    ensures
        s.create_thread(policy).inv(),
{
    lemma_create_thread(s, policy);
    let s0 = s.ensure_main_thread();
    assert forall|i: int| 0 <= i < s0.threads.len() implies #[trigger] s0.join_ok(i) by {
        if s.threads.len() > 0 {
            assert(s.join_ok(i));
        }
    }
    let after = s.create_thread(policy);
    assert(after.threads == s0.threads.push(fresh_thread(s0.threads.len() as MyThreadId, policy)));
    assert forall|i: int| 0 <= i < after.threads.len() implies #[trigger] after.join_ok(i) by {
        if i < s0.threads.len() {
            assert(s0.join_ok(i));
        }
    }
}

/// A yield keeps the invariant of a scheduler at work.
pub proof fn lemma_inv_yield_current(s: SchedulerView)
    requires
        s.inv(),
    ensures
        s.yield_current().inv(),
{
    lemma_yield_current(s);
    lemma_ensure_main_thread(s);
    let s0 = s.ensure_main_thread();
    assert forall|i: int| 0 <= i < s0.threads.len() implies #[trigger] s0.join_ok(i) by {
        if s.threads.len() > 0 {
            assert(s.join_ok(i));
        }
    }
    lemma_requeue_current(s0);
    let s1 = s0.requeue_current();
    lemma_pick_next(s1);
    let c = s0.current->0;
    assert(s1.threads[c as int].state == ThreadState::Ready);
    assert(s1.thread_ok(c as int));
    assert(s1.next_thread() is Some) by {
        if s1.next_thread() is None {
            assert(s1.ready_structure(policy_kind(s1.threads[c as int].scheduler)).contains(c));
        }
    }
    let n = s1.next_thread()->0;
    let after = s.yield_current();
    assert(s1.threads == s0.threads.update(
        c as int,
        Thread { state: ThreadState::Ready, ..s0.threads[c as int] },
    ));
    assert forall|i: int| 0 <= i < after.threads.len() implies #[trigger] after.join_ok(i) by {
        assert(s0.join_ok(i));
        let ti = after.threads[i];
        if ti.state != ThreadState::Finished {
            if let Some(j) = ti.joined_by {
                assert(s0.threads[i].joined_by == Some(j));
                assert(s0.threads[i].state != ThreadState::Finished);
                assert(s0.threads[j as int].state == ThreadState::Blocked);
            }
        }
    }
}

/// Blocking keeps the invariant of a scheduler at work when another thread can run.
pub proof fn lemma_inv_block_current(s: SchedulerView, reason: BlockReason)
    requires
        s.inv(),
        s.block_dispatch(reason) is Switch,
    ensures
        s.block_current(reason).inv(),
{
    lemma_block_current(s, reason);
    lemma_ensure_main_thread(s);
    let s0 = s.ensure_main_thread();
    assert forall|i: int| 0 <= i < s0.threads.len() implies #[trigger] s0.join_ok(i) by {
        if s.threads.len() > 0 {
            assert(s.join_ok(i));
        }
    }
    lemma_park_current(s0, reason);
    let s1 = s0.park_current(reason);
    lemma_pick_next(s1);
    let c = s0.current->0;
    assert forall|i: int| 0 <= i < s0.threads.len() implies s0.threads[i].joined_by != Some(c)
        || s0.threads[i].state == ThreadState::Finished by {
        assert(s0.join_ok(i));
    }
    let after = s.block_current(reason);
    assert forall|i: int| 0 <= i < after.threads.len() implies #[trigger] after.join_ok(i) by {
        assert(s0.join_ok(i));
        let t = after.threads[i];
        if t.state != ThreadState::Finished {
            if let Some(j) = t.joined_by {
                assert(s0.threads[i].joined_by == Some(j));
                assert(s0.threads[j as int].state == ThreadState::Blocked);
            }
        }
    }
}

/// Recording the current thread as the joiner of another thread keeps the
/// structural invariant, and so does the block that follows.
pub proof fn lemma_wait_for(s: SchedulerView, target: MyThreadId)
    requires
        s.wf(),
        s.known(target),
        s.current is Some,
        s.current != Some(target),
    ensures
        s.with_thread(target, Thread { joined_by: s.current, ..s.threads[target as int] }).wf(),
        s.wait_for(target).wf(),
{
    let t = Thread { joined_by: s.current, ..s.threads[target as int] };
    let s0 = s.with_thread(target, t);
    assert(s.thread_ok(target as int));
    assert forall|kind: PolicyKind| #[trigger] s0.pool_ok(kind) by {
        assert(s.pool_ok(kind));
        let p = s.ready_structure(kind);
        assert forall|i: int| 0 <= i < p.len() implies s0.ready_under(#[trigger] p[i], kind) by {
            assert(s.ready_under(p[i], kind));
        }
    }
    assert forall|i: int| 0 <= i < s0.threads.len() implies #[trigger] s0.thread_ok(i) by {
        assert(s.thread_ok(i));
    }
    lemma_block_current(s0, BlockReason::Join { target });
}

/// Waiting for an unfinished thread other than oneself keeps the
/// invariant of a scheduler at work when another thread can run.
pub proof fn lemma_inv_wait_for(s: SchedulerView, target: MyThreadId)
    requires
        s.inv(),
        s.known(target),
        s.current is Some,
        s.current != Some(target),
        s.threads[target as int].state != ThreadState::Finished,
        s.with_thread(
            target,
            Thread { joined_by: s.current, ..s.threads[target as int] },
        ).block_dispatch(BlockReason::Join { target }) is Switch,
    ensures
        s.wait_for(target).inv(),
{
    let c = s.current->0;
    let t = Thread { joined_by: s.current, ..s.threads[target as int] };
    let s0 = s.with_thread(target, t);
    let reason = BlockReason::Join { target };
    lemma_wait_for(s, target);
    lemma_ensure_main_thread(s0);
    lemma_park_current(s0, reason);
    let s1 = s0.park_current(reason);
    lemma_pick_next(s1);
    let after = s.wait_for(target);
    assert forall|i: int| 0 <= i < after.threads.len() implies #[trigger] after.join_ok(i) by {
        assert(s.join_ok(i));
        let ti = after.threads[i];
        if ti.state != ThreadState::Finished {
            if let Some(j) = ti.joined_by {
                if i != target {
                    assert(s.threads[i].joined_by == Some(j));
                    assert(s.threads[j as int].state == ThreadState::Blocked);
                }
            }
        }
    }
}

/// Finishing keeps the structural invariant of a scheduler at work, and
/// its whole invariant when another thread can run.
pub proof fn lemma_inv_finish_current(s: SchedulerView, retval: usize)
    requires
        s.inv(),
    ensures
        s.joiner_not_ready(),
        s.finish_current(retval).wf(),
        s.finish_dispatch(retval) is Switch ==> s.finish_current(retval).inv(),
{
    lemma_ensure_main_thread(s);
    let s0 = s.ensure_main_thread();
    assert forall|i: int| 0 <= i < s0.threads.len() implies #[trigger] s0.join_ok(i) by {
        if s.threads.len() > 0 {
            assert(s.join_ok(i));
        }
    }
    let c = s0.current->0;
    assert(s0.join_ok(c as int));
    assert(s.joiner_not_ready());
    lemma_finish_current(s, retval);
    if s.finish_dispatch(retval) is Switch {
        lemma_retire_current(s0, retval);
        let s1 = s0.retire_current(retval);
        lemma_pick_next(s1);
        let n = s1.next_thread()->0;
        let after = s.finish_current(retval);
        let done = Thread { state: ThreadState::Finished, result: retval, ..s0.threads[c as int] };
        assert(s0.thread_ok(c as int));
        let woken = match s0.threads[c as int].joined_by {
            Some(jc) => s0.threads.update(c as int, done).update(
                jc as int,
                Thread {
                    state: ThreadState::Ready,
                    block_reason: None,
                    ..s0.threads[jc as int]
                },
            ),
            None => s0.threads.update(c as int, done),
        };
        assert(s1.threads == woken);
        assert(after.threads == woken.update(
            n as int,
            Thread { state: ThreadState::Running, ..woken[n as int] },
        ));
        assert forall|i: int| 0 <= i < after.threads.len() implies #[trigger] after.join_ok(i) by {
            assert(s0.join_ok(i));
            let ti = after.threads[i];
            if ti.state != ThreadState::Finished {
                if let Some(j) = ti.joined_by {
                    assert(i != c);
                    assert(s0.thread_ok(i));
                    assert(s0.join_ok(c as int));
                    assert(s0.threads[c as int].state == ThreadState::Running);
                    assert(s0.threads[i].joined_by == Some(j));
                    assert(s0.threads[i].state != ThreadState::Finished);
                    assert(s0.threads[j as int].state == ThreadState::Blocked);
                    assert(s0.threads[c as int].joined_by != Some(j));
                    assert(woken[j as int] == s0.threads[j as int]);
                }
            }
        }
    }
}

/// Changing a policy keeps the invariant of a scheduler at work.
pub proof fn lemma_inv_change_scheduler(s: SchedulerView, tid: MyThreadId, policy: SchedPolicy)
    requires
        s.inv(),
        s.known(tid),
    ensures
        s.change_scheduler(tid, policy).inv(),
{
    lemma_change_scheduler(s, tid, policy);
    let after = s.change_scheduler(tid, policy);
    assert forall|i: int| 0 <= i < after.threads.len() implies #[trigger] after.join_ok(i) by {
        assert(s.join_ok(i));
    }
}

/// Detaching a thread keeps the invariant of a scheduler at work.
pub proof fn lemma_inv_detach(s: SchedulerView, tid: MyThreadId)
    requires
        s.known(tid),
    ensures
        s.wf() ==> s.detach(tid).wf(),
        s.inv() ==> s.detach(tid).inv(),
{
    let t = Thread { detached: true, ..s.threads[tid as int] };
    let after = s.detach(tid);
    if s.wf() {
        assert(s.thread_ok(tid as int));
        assert forall|kind: PolicyKind| #[trigger] after.pool_ok(kind) by {
            assert(s.pool_ok(kind));
            let p = s.ready_structure(kind);
            assert forall|i: int| 0 <= i < p.len() implies after.ready_under(#[trigger] p[i], kind) by {
                assert(s.ready_under(p[i], kind));
            }
        }
        assert forall|i: int| 0 <= i < after.threads.len() implies #[trigger] after.thread_ok(i) by {
            assert(s.thread_ok(i));
        }
    }
    if s.inv() {
        assert forall|i: int| 0 <= i < after.threads.len() implies #[trigger] after.join_ok(i) by {
            assert(s.join_ok(i));
        }
    }
}

/// Waking a thread that is blocked for another reason than a join keeps
/// the invariant of a scheduler at work.
pub proof fn lemma_inv_unblock(s: SchedulerView, tid: MyThreadId)
    requires
        s.inv(),
        s.known(tid),
        s.threads[tid as int].state == ThreadState::Blocked,
        !(s.threads[tid as int].block_reason matches Some(BlockReason::Join { .. })),
    ensures
        s.unblock(tid).inv(),
{
    lemma_unblock(s, tid);
    let after = s.unblock(tid);
    assert forall|i: int| 0 <= i < after.threads.len() implies #[trigger] after.join_ok(i) by {
        assert(s.join_ok(i));
    }
}

/// A yield leaves every blocked thread as it is.
pub proof fn lemma_yield_keeps_blocked(s: SchedulerView, t: MyThreadId)
    requires
        s.wf(),
        s.known(t),
        s.threads[t as int].state == ThreadState::Blocked,
    ensures
        s.yield_current().known(t),
        s.yield_current().threads[t as int] == s.threads[t as int],
{
    lemma_ensure_main_thread(s);
    let s0 = s.ensure_main_thread();
    assert(s0 == s);
    lemma_requeue_current(s0);
    let s1 = s0.requeue_current();
    lemma_pick_next(s1);
    let c = s0.current->0;
    if s0.threads[c as int].state == ThreadState::Running {
        assert(s1.threads == s0.threads.update(
            c as int,
            Thread { state: ThreadState::Ready, ..s0.threads[c as int] },
        ));
    }
}

/// Blocking the current thread leaves every blocked thread other than the
/// current one as it is.
pub proof fn lemma_block_keeps_blocked(s: SchedulerView, reason: BlockReason, t: MyThreadId)
    requires
        s.wf(),
        s.current is Some,
        s.known(t),
        s.threads[t as int].state == ThreadState::Blocked,
        s.current != Some(t),
    ensures
        s.block_current(reason).known(t),
        s.block_current(reason).threads[t as int] == s.threads[t as int],
{
    lemma_ensure_main_thread(s);
    let s0 = s.ensure_main_thread();
    assert(s0 == s);
    lemma_park_current(s0, reason);
    let s1 = s0.park_current(reason);
    lemma_pick_next(s1);
    let c = s0.current->0;
    assert(s1.threads == s0.threads.update(
        c as int,
        Thread {
            state: ThreadState::Blocked,
            block_reason: Some(reason),
            ..s0.threads[c as int]
        },
    ));
}

/// The thread that blocks is blocked for the given reason afterwards.
pub proof fn lemma_block_blocks(s: SchedulerView, reason: BlockReason)
    requires
        s.wf(),
        s.current is Some,
    ensures
        s.block_current(reason).known(s.current->0),
        s.block_current(reason).threads[s.current->0 as int].state == ThreadState::Blocked,
        s.block_current(reason).threads[s.current->0 as int].block_reason == Some(reason),
{
    lemma_ensure_main_thread(s);
    assert(s.ensure_main_thread() == s);
    lemma_park_current(s, reason);
    let s1 = s.park_current(reason);
    lemma_pick_next(s1);
    let c = s.current->0;
    assert(s1.threads == s.threads.update(
        c as int,
        Thread { state: ThreadState::Blocked, block_reason: Some(reason), ..s.threads[c as int] },
    ));
}

/// Finishing the current thread leaves every thread as it is that is
/// blocked for another reason than a join.
pub proof fn lemma_finish_keeps_blocked(s: SchedulerView, retval: usize, t: MyThreadId)
    requires
        s.inv(),
        s.current is Some,
        s.blocked_on_mutex(t),
    ensures
        s.finish_current(retval).known(t),
        s.finish_current(retval).threads[t as int] == s.threads[t as int],
{
    lemma_ensure_main_thread(s);
    assert(s.ensure_main_thread() == s);
    let c = s.current->0;
    assert(s.join_ok(c as int));
    assert(s.thread_ok(c as int));
    lemma_retire_current(s, retval);
    let s1 = s.retire_current(retval);
    lemma_pick_next(s1);
    let done = Thread { state: ThreadState::Finished, result: retval, ..s.threads[c as int] };
    let woken = match s.threads[c as int].joined_by {
        Some(jc) => s.threads.update(c as int, done).update(
            jc as int,
            Thread { state: ThreadState::Ready, block_reason: None, ..s.threads[jc as int] },
        ),
        None => s.threads.update(c as int, done),
    };
    assert(s1.threads == woken);
}

/// Waiting for a thread leaves every thread blocked in the queue of a
/// mutex so, and neither changes who is ready nor which thread runs but
/// by the block.
pub proof fn lemma_wait_keeps_blocked(s: SchedulerView, target: MyThreadId, t: MyThreadId)
    requires
        s.wf(),
        s.known(target),
        s.current is Some,
        s.current != Some(target),
        s.current != Some(t),
        s.blocked_on_mutex(t),
    ensures
        s.wait_for(target).blocked_on_mutex(t),
{
    lemma_wait_for(s, target);
    let s0 = s.with_thread(target, Thread { joined_by: s.current, ..s.threads[target as int] });
    lemma_block_keeps_blocked(s0, BlockReason::Join { target }, t);
}

} // verus!
