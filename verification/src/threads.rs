//! The thread operations, a thin layer over the scheduler.
//!
//! Each operation is called on behalf of the current thread. The three
//! suspension points, yield, join and end, return what the caller has to
//! do next; no other operation ever displaces the running thread.

use crate::sched::{BlockReason, Dispatch, MyThreadId, SchedPolicy, Thread, ThreadState};
use crate::sched_lemmas::{
    lemma_finish_keeps_blocked, lemma_wait_keeps_blocked, lemma_yield_keeps_blocked,
};
use crate::scheduler::Scheduler;
use vstd::prelude::*;

verus! {

/// What a join came to.
#[derive(Debug, Copy, Clone, PartialEq, Eq, Structural)]
pub enum JoinOutcome {
    /// The value is known at once and the caller goes on.
    Value(usize),
    /// The caller is blocked; once it is resumed the target has finished
    /// and its result can be read from the scheduler.
    Wait(Dispatch),
}

/// Creates a thread under `policy`, ready to run, and returns its
/// identifier. Lottery tickets of `0` count as `1`. Never switches.
pub fn my_thread_create(sched: &mut Scheduler, policy: SchedPolicy) -> (id: MyThreadId)
    ensures
        final(sched)@ == old(sched)@.create_thread(policy),
        id == old(sched)@.ensure_main_thread().threads.len(),
        final(sched)@.known(id),
        old(sched)@.wf() ==> final(sched)@.wf(),
        old(sched)@.inv() ==> final(sched)@.inv(),
        forall|t: MyThreadId|
            old(sched)@.blocked_on_mutex(t) ==> #[trigger] final(sched)@.blocked_on_mutex(t),
{
    sched.create_thread(policy)
}

/// Finishes the current thread with `retval`, which a joiner will get.
/// The caller switches to the next thread or, when none is left, ends the
/// process with success.
pub fn my_thread_end(sched: &mut Scheduler, retval: usize) -> (d: Dispatch)
    requires
        old(sched)@.wf(),
    ensures
        final(sched)@ == old(sched)@.finish_current(retval),
        d == old(sched)@.finish_dispatch(retval),
        d is Switch || d is Exit,
        old(sched)@.joiner_not_ready() ==> final(sched)@.wf(),
        old(sched)@.inv() ==> final(sched)@.wf(),
        old(sched)@.inv() && d is Switch ==> final(sched)@.inv(),
        old(sched)@.inv() ==> forall|t: MyThreadId|
            old(sched)@.blocked_on_mutex(t) ==> #[trigger] final(sched)@.blocked_on_mutex(t),
{
    proof {
        if old(sched)@.inv() {
            assert forall|t: MyThreadId| old(sched)@.blocked_on_mutex(t) implies #[trigger] old(
                sched,
            )@.finish_current(retval).blocked_on_mutex(t) by {
                lemma_finish_keeps_blocked(old(sched)@, retval, t);
            }
        }
    }
    sched.finish_current(retval)
}

/// The current thread gives up the processor.
pub fn my_thread_yield(sched: &mut Scheduler) -> (d: Dispatch)
    requires
        old(sched)@.wf(),
    ensures
        final(sched)@ == old(sched)@.yield_current(),
        d == old(sched)@.yield_dispatch(),
        final(sched)@.wf(),
        old(sched)@.inv() ==> final(sched)@.inv(),
        forall|t: MyThreadId|
            old(sched)@.blocked_on_mutex(t) ==> #[trigger] final(sched)@.blocked_on_mutex(t),
{
    proof {
        assert forall|t: MyThreadId| old(sched)@.blocked_on_mutex(t) implies #[trigger] old(
            sched,
        )@.yield_current().blocked_on_mutex(t) by {
            lemma_yield_keeps_blocked(old(sched)@, t);
        }
    }
    sched.yield_current()
}

/// Waits for `target` to finish.
///
/// A join on the caller itself yields the null word `0` at once, and so
/// does a join on a finished thread yield its result; neither changes
/// anything nor switches. Otherwise the caller is recorded as the joiner
/// of `target` and blocked.
pub fn my_thread_join(sched: &mut Scheduler, target: MyThreadId) -> (r: JoinOutcome)
    requires
        old(sched)@.wf(),
        old(sched)@.current is Some,
        old(sched)@.known(target),
    ensures
        old(sched)@.current == Some(target) ==> r == JoinOutcome::Value(0) && final(sched)@
            == old(sched)@,
        old(sched)@.current != Some(target) && old(sched)@.threads[target as int].state
            == ThreadState::Finished ==> r == JoinOutcome::Value(
            old(sched)@.threads[target as int].result,
        ) && final(sched)@ == old(sched)@,
        old(sched)@.current != Some(target) && old(sched)@.threads[target as int].state
            != ThreadState::Finished ==> {
            &&& r == JoinOutcome::Wait(
                old(sched)@.with_thread(
                    target,
                    Thread { joined_by: old(sched)@.current, ..old(sched)@.threads[target as int] },
                ).block_dispatch(BlockReason::Join { target }),
            )
            &&& final(sched)@ == old(sched)@.wait_for(target)
        },
        final(sched)@.wf(),
        old(sched)@.inv() && !(r matches JoinOutcome::Wait(Dispatch::Deadlock))
            ==> final(sched)@.inv(),
        old(sched)@.inv() ==> forall|t: MyThreadId|
            old(sched)@.blocked_on_mutex(t) ==> #[trigger] final(sched)@.blocked_on_mutex(t),
{
    proof {
        if old(sched)@.inv() && old(sched)@.current != Some(target) {
            assert forall|t: MyThreadId| old(sched)@.blocked_on_mutex(t) implies #[trigger] old(
                sched,
            )@.wait_for(target).blocked_on_mutex(t) by {
                lemma_wait_keeps_blocked(old(sched)@, target, t);
            }
        }
    }
    let curr = sched.current_thread_id().unwrap();
    if curr == target {
        return JoinOutcome::Value(0);
    }
    match sched.try_join_immediate(target) {
        Some(res) => {
            return JoinOutcome::Value(res);
        },
        None => {},
    }
    JoinOutcome::Wait(sched.wait_for(target))
}

/// Marks `tid` as detached: nobody is expected to join it. Fails with the
/// host's code for an invalid argument on an unknown `tid`.
pub fn my_thread_detach(sched: &mut Scheduler, tid: MyThreadId) -> (rc: i32)
    ensures
        old(sched)@.known(tid) ==> rc == 0 && final(sched)@ == old(sched)@.detach(tid),
        !old(sched)@.known(tid) ==> rc != 0 && final(sched)@ == old(sched)@,
        old(sched)@.wf() ==> final(sched)@.wf(),
        old(sched)@.inv() ==> final(sched)@.inv(),
        forall|t: MyThreadId|
            old(sched)@.blocked_on_mutex(t) ==> #[trigger] final(sched)@.blocked_on_mutex(t),
{
    sched.detach(tid)
}

/// Gives `tid` the policy `policy`; a ready thread moves to the end of the
/// ready structure of the new policy, any other takes it up when it next
/// becomes ready. Fails with the host's code for an invalid argument on an
/// unknown `tid`.
pub fn my_thread_chsched(sched: &mut Scheduler, tid: MyThreadId, policy: SchedPolicy) -> (rc: i32)
    ensures
        old(sched)@.known(tid) ==> rc == 0 && final(sched)@ == old(sched)@.change_scheduler(
            tid,
            policy,
        ),
        !old(sched)@.known(tid) ==> rc != 0 && final(sched)@ == old(sched)@,
        old(sched)@.wf() ==> final(sched)@.wf(),
        old(sched)@.inv() ==> final(sched)@.inv(),
        forall|t: MyThreadId|
            old(sched)@.blocked_on_mutex(t) ==> #[trigger] final(sched)@.blocked_on_mutex(t),
{
    sched.change_scheduler(tid, policy)
}

} // verus!
