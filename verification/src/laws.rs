//! Laws that relate several operations of the library.

use crate::mutex::MutexView;
use crate::rng::lcg_step;
use crate::sched::{
    is_earliest, is_winner, policy_kind, tickets_before, total_tickets, without, Dispatch,
    MyThreadId, PolicyKind, SchedPolicy, SchedulerView, Thread, ThreadState,
};
use crate::sched_lemmas::{
    lemma_earliest_exists, lemma_earliest_unique, lemma_ensure_main_thread,
    lemma_inv_yield_current, lemma_lottery_has_tickets, lemma_pick_next, lemma_requeue_current,
    lemma_retire_current, lemma_winner_exists, lemma_winner_unique, lemma_without,
    lemma_without_push,
};
use vstd::prelude::*;

verus! {

/// A mutex that was just initialised can be destroyed: initialising leaves
/// the free mutex, and destroying succeeds on it.
pub proof fn law_init_then_destroy()
    ensures
        MutexView::free().wf(),
        MutexView::free().destroyable(),
{
}

/// Whoever joins a thread after it has finished with the value `v` gets `v`.
pub proof fn law_finished_result_is_kept(s: SchedulerView, t: MyThreadId, v: usize)
    requires
        s.inv(),
        s.current == Some(t),
    ensures
        s.finish_current(v).try_join_immediate(t) == Some(v),
{
    lemma_ensure_main_thread(s);
    let s0 = s.ensure_main_thread();
    assert(s0 == s);
    assert(s.join_ok(t as int));
    assert(s.thread_ok(t as int));
    lemma_retire_current(s, v);
    let s1 = s.retire_current(v);
    lemma_pick_next(s1);
    assert(s1.threads[t as int].state == ThreadState::Finished);
    assert(s1.threads[t as int].result == v);
}

/// One thread runs at a time: in a scheduler at work the running thread
/// is the current one and no other.
pub proof fn law_one_thread_runs(s: SchedulerView, i: int)
    requires
        s.inv(),
        0 <= i < s.threads.len(),
    ensures
        s.threads[i].state == ThreadState::Running <==> s.current == Some(i as MyThreadId),
{
    assert(s.thread_ok(i));
}

/// A thread that runs again after it joined another finds that thread
/// finished: whoever is recorded as the joiner and runs, has its result.
pub proof fn law_joiner_runs_after_the_end(s: SchedulerView, joiner: MyThreadId, target: MyThreadId)
    requires
        s.inv(),
        s.current == Some(joiner),
        s.known(target),
        s.threads[target as int].joined_by == Some(joiner),
    ensures
        s.threads[target as int].state == ThreadState::Finished,
        s.try_join_immediate(target) == Some(s.threads[target as int].result),
{
    assert(s.join_ok(target as int));
}

/// Changing the policy of a thread twice to the same policy is changing it once.
pub proof fn law_chsched_idempotent(s: SchedulerView, tid: MyThreadId, policy: SchedPolicy)
    requires
        s.known(tid),
    ensures
        s.change_scheduler(tid, policy).change_scheduler(tid, policy) == s.change_scheduler(
            tid,
            policy,
        ),
{
    let once = s.change_scheduler(tid, policy);
    let twice = once.change_scheduler(tid, policy);
    lemma_without(s.rr_queue, tid);
    lemma_without(s.lottery_list, tid);
    lemma_without(s.realtime_list, tid);
    lemma_without(without(s.rr_queue, tid), tid);
    lemma_without(without(s.lottery_list, tid), tid);
    lemma_without(without(s.realtime_list, tid), tid);
    lemma_without_push(without(s.rr_queue, tid), tid, tid);
    lemma_without_push(without(s.lottery_list, tid), tid, tid);
    lemma_without_push(without(s.realtime_list, tid), tid, tid);
    assert(twice.threads =~= once.threads);
    assert(twice.rr_queue =~= once.rr_queue);
    assert(twice.lottery_list =~= once.lottery_list);
    assert(twice.realtime_list =~= once.realtime_list);
}

/// The state that a yield of the only runnable thread leaves: nothing has
/// changed but the generator, which a thread under the lottery policy
/// steps by drawing its own number.
pub open spec fn after_lonely_yield(s: SchedulerView) -> SchedulerView {
    SchedulerView {
        rng: if s.threads[s.current->0 as int].scheduler is Lottery {
            lcg_step(s.rng)
        } else {
            s.rng
        },
        ..s
    }
}

/// A yield of the only runnable thread switches nowhere and changes
/// neither the threads nor the ready structures, and so does a second one.
pub proof fn law_lonely_yield(s: SchedulerView)
    requires
        s.inv(),
        s.current is Some,
        s.rr_queue.len() == 0,
        s.lottery_list.len() == 0,
        s.realtime_list.len() == 0,
    ensures
        s.yield_dispatch() == Dispatch::Stay,
        s.yield_current() == after_lonely_yield(s),
        s.yield_current().yield_dispatch() == Dispatch::Stay,
        s.yield_current().yield_current() == after_lonely_yield(after_lonely_yield(s)),
{
    lemma_lonely_yield_once(s);
    lemma_inv_yield_current(s);
    lemma_lonely_yield_once(s.yield_current());
}

proof fn lemma_lonely_yield_once(s: SchedulerView)
    requires
        s.inv(),
        s.current is Some,
        s.rr_queue.len() == 0,
        s.lottery_list.len() == 0,
        s.realtime_list.len() == 0,
    ensures
        s.yield_dispatch() == Dispatch::Stay,
        s.yield_current() == after_lonely_yield(s),
{
    let c = s.current->0;
    assert(s.ensure_main_thread() == s);
    assert(s.thread_ok(c as int));
    lemma_requeue_current(s);
    let s1 = s.requeue_current();
    let kind = policy_kind(s.threads[c as int].scheduler);
    let pool = s1.ready_structure(kind);
    assert(pool =~= seq![c]);
    lemma_pick_next(s1);
    if kind == PolicyKind::RealTime {
        lemma_earliest_exists(s1.threads, s1.realtime_list);
        assert(is_earliest(s1.threads, s1.realtime_list, 0));
        lemma_earliest_unique(s1.threads, s1.realtime_list, 0, s1.earliest_index());
    } else if kind == PolicyKind::Lottery {
        lemma_lottery_has_tickets(s1);
        let total = total_tickets(s1.threads, s1.lottery_list);
        let r = s1.lottery_draw();
        vstd::arithmetic::div_mod::lemma_mod_bound(
            crate::sched_lemmas::lcg_output_of(s1) as int,
            total as int,
        );
        lemma_winner_exists(s1.threads, s1.lottery_list, r, 1);
        assert(tickets_before(s1.threads, s1.lottery_list, 0) == 0);
        assert(is_winner(s1.threads, s1.lottery_list, r, 0));
        lemma_winner_unique(s1.threads, s1.lottery_list, r, 0, s1.winner_index());
    }
    assert(s1.next_thread() == Some(c));
    let after = s.yield_current();
    let expected = after_lonely_yield(s);
    assert(after.threads =~= expected.threads);
    assert(after.rr_queue =~= expected.rr_queue);
    assert(after.lottery_list =~= expected.lottery_list);
    assert(after.realtime_list =~= expected.realtime_list);
}

/// A lottery is never held over nothing: every thread under the lottery
/// policy holds at least one ticket, a pool that is not empty holds at
/// least one, and a pool without tickets does not fire.
pub proof fn law_lottery_tickets(s: SchedulerView)
    requires
        s.wf(),
    ensures
        forall|i: int|
            0 <= i < s.threads.len() && (#[trigger] s.threads[i]).scheduler is Lottery
                ==> s.threads[i].tickets >= 1,
        s.lottery_list.len() > 0 ==> total_tickets(s.threads, s.lottery_list) > 0,
        total_tickets(s.threads, s.lottery_list) == 0 ==> !s.picks_lottery(),
{
    assert forall|i: int|
        0 <= i < s.threads.len() && (#[trigger] s.threads[i]).scheduler
            is Lottery implies s.threads[i].tickets >= 1 by {
        assert(s.thread_ok(i));
    }
    if s.lottery_list.len() > 0 {
        lemma_lottery_has_tickets(s);
    }
}

/// A thread wins the lottery on as many draws as it holds tickets: the
/// draws from the tickets before it up to, and without, those and its own.
pub proof fn law_lottery_share(threads: Seq<Thread>, pool: Seq<MyThreadId>, r: nat, w: int)
    requires
        0 <= w < pool.len(),
    ensures
        is_winner(threads, pool, r, w) <==> tickets_before(threads, pool, w) <= r
            < tickets_before(threads, pool, w) + threads[pool[w] as int].tickets,
{
}

/// Among the real-time threads the one with the smallest deadline runs
/// next, and among several with that deadline the one that became ready
/// first; lottery and round-robin threads wait as long as one is ready.
pub proof fn law_realtime_first(s: SchedulerView)
    requires
        s.realtime_list.len() > 0,
    ensures
        is_earliest(s.threads, s.realtime_list, s.earliest_index()),
        s.next_thread() == Some(s.realtime_list[s.earliest_index()]),
{
    lemma_earliest_exists(s.threads, s.realtime_list);
}

/// Round-robin threads run in the order in which they became ready, and
/// only when no real-time and no lottery thread is ready.
pub proof fn law_round_robin_is_fifo(s: SchedulerView)
    requires
        s.wf(),
        s.rr_queue.len() > 0,
    ensures
        s.next_thread() == Some(s.rr_queue[0]) <==> s.realtime_list.len() == 0
            && s.lottery_list.len() == 0,
{
    if s.lottery_list.len() > 0 {
        lemma_lottery_has_tickets(s);
        if s.realtime_list.len() == 0 {
            let total = total_tickets(s.threads, s.lottery_list);
            vstd::arithmetic::div_mod::lemma_mod_bound(
                crate::sched_lemmas::lcg_output_of(s) as int,
                total as int,
            );
            lemma_winner_exists(
                s.threads,
                s.lottery_list,
                s.lottery_draw(),
                s.lottery_list.len() as int,
            );
            let w = s.winner_index();
            assert(s.pool_ok(PolicyKind::Lottery));
            assert(s.pool_ok(PolicyKind::RoundRobin));
            assert(s.ready_under(s.ready_structure(PolicyKind::Lottery)[w], PolicyKind::Lottery));
            assert(s.ready_under(
                s.ready_structure(PolicyKind::RoundRobin)[0],
                PolicyKind::RoundRobin,
            ));
        }
    }
    if s.realtime_list.len() > 0 {
        lemma_earliest_exists(s.threads, s.realtime_list);
        let e = s.earliest_index();
        assert(s.pool_ok(PolicyKind::RealTime));
        assert(s.pool_ok(PolicyKind::RoundRobin));
        assert(s.ready_under(s.ready_structure(PolicyKind::RealTime)[e], PolicyKind::RealTime));
        assert(s.ready_under(
            s.ready_structure(PolicyKind::RoundRobin)[0],
            PolicyKind::RoundRobin,
        ));
    }
}

} // verus!
