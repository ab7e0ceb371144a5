//! A binary lock with a first-come queue of waiters and direct handoff:
//! on release the lock passes to the head waiter without ever being free.

use crate::errno::{errno_busy, errno_invalid};
use crate::sched::{BlockReason, Dispatch, MyThreadId, SchedulerView, ThreadState};
use crate::sched_lemmas::{lemma_block_blocks, lemma_block_keeps_blocked};
use crate::scheduler::Scheduler;
use std::collections::VecDeque;
use vstd::prelude::*;

verus! {

/// The mathematical state of a mutex.
pub struct MutexView {
    pub locked: bool,
    pub owner: Option<MyThreadId>,
    /// The blocked threads, the one that waits longest first.
    pub waiters: Seq<MyThreadId>,
}

impl MutexView {
    /// A mutex is locked exactly when it has an owner, and only a locked
    /// mutex has waiters.
    pub open spec fn wf(self) -> bool {
        &&& self.locked <==> self.owner is Some
        &&& self.waiters.len() > 0 ==> self.locked
    }

    /// Whether the mutex can be destroyed: nobody holds it, nobody waits for it.
    pub open spec fn destroyable(self) -> bool {
        !self.locked && self.waiters.len() == 0
    }

    /// Every waiter is a thread of `s` blocked in the queue of a mutex, and
    /// none waits twice.
    pub open spec fn waiters_parked(self, s: SchedulerView) -> bool {
        &&& self.waiters.no_duplicates()
        &&& forall|i: int|
            0 <= i < self.waiters.len() ==> s.blocked_on_mutex(#[trigger] self.waiters[i])
    }

    /// The free mutex: unlocked, no owner, no waiter.
    pub open spec fn free() -> MutexView {
        MutexView { locked: false, owner: None, waiters: Seq::empty() }
    }

    /// The mutex held by `tid`, the waiters kept.
    pub open spec fn held_by(self, tid: MyThreadId) -> MutexView {
        MutexView { locked: true, owner: Some(tid), waiters: self.waiters }
    }

    /// The mutex after its owner released it: the head waiter owns it, or
    /// it is free when nobody waits.
    pub open spec fn released(self) -> MutexView {
        if self.waiters.len() > 0 {
            MutexView { locked: true, owner: Some(self.waiters[0]), waiters: self.waiters.drop_first() }
        } else {
            MutexView { locked: false, owner: None, waiters: self.waiters }
        }
    }
}

/// A mutex for the threads of one scheduler.
#[derive(Debug)]
pub struct MyMutex {
    locked: bool,
    owner: Option<MyThreadId>,
    waiters: VecDeque<MyThreadId>,
}

impl View for MyMutex {
    type V = MutexView;

    closed spec fn view(&self) -> MutexView {
        MutexView { locked: self.locked, owner: self.owner, waiters: self.waiters@ }
    }
}

impl MyMutex {
    /// A free mutex.
    pub fn new() -> (m: Self)
        ensures
            m@ == MutexView::free(),
            m@.wf(),
    {
        MyMutex { locked: false, owner: None, waiters: VecDeque::new() }
    }

    /// Whether the mutex is held.
    pub fn is_locked(&self) -> (b: bool)
        ensures
            b == self@.locked,
    {
        self.locked
    }

    /// The thread that holds the mutex.
    pub fn owner(&self) -> (o: Option<MyThreadId>)
        ensures
            o == self@.owner,
    {
        self.owner
    }

    /// The thread at position `i` of the queue of waiters, if there is one.
    pub fn waiter(&self, i: usize) -> (w: Option<MyThreadId>)
        ensures
            i < self@.waiters.len() ==> w == Some(self@.waiters[i as int]),
            i >= self@.waiters.len() ==> w is None,
    {
        if i < self.waiters.len() {
            Some(self.waiters[i])
        } else {
            None
        }
    }

    /// The number of threads that wait for the mutex.
    pub fn waiter_count(&self) -> (n: usize)
        ensures
            n == self@.waiters.len(),
    {
        self.waiters.len()
    }
}

/// Resets `m` to the free mutex. Always succeeds.
pub fn my_mutex_init(m: &mut MyMutex) -> (rc: i32)
    ensures
        rc == 0,
        final(m)@ == MutexView::free(),
        final(m)@.wf(),
{
    *m = MyMutex::new();
    0
}

/// Succeeds on a mutex that is neither held nor waited for; otherwise
/// fails with the host's code for a busy resource. The mutex is untouched
/// either way.
pub fn my_mutex_destroy(m: &mut MyMutex) -> (rc: i32)
    ensures
        final(m)@ == old(m)@,
        rc == 0 <==> old(m)@.destroyable(),
{
    if m.locked || m.waiters.len() != 0 {
        errno_busy()
    } else {
        0
    }
}

/// Takes the mutex for the current thread if it is free; fails with the
/// host's code for a busy resource, and changes nothing, if it is held.
/// Never switches.
pub fn my_mutex_trylock(sched: &Scheduler, m: &mut MyMutex) -> (rc: i32)
    requires
        sched@.current is Some,
    ensures
        rc == 0 <==> !old(m)@.locked,
        !old(m)@.locked ==> final(m)@ == old(m)@.held_by(sched@.current->0),
        old(m)@.locked ==> final(m)@ == old(m)@,
        old(m)@.wf() ==> final(m)@.wf(),
{
    let curr = sched.current_thread_id().unwrap();
    if !m.locked {
        m.locked = true;
        m.owner = Some(curr);
        0
    } else {
        errno_busy()
    }
}

/// Takes the mutex for the current thread, or queues the thread behind the
/// other waiters and blocks it.
///
/// On a free mutex the caller owns it at once and stays. Otherwise the
/// caller is appended to the waiters and blocked with
/// [`BlockReason::Mutex`]; it is resumed as the owner, so it does not try
/// again.
pub fn my_mutex_lock(sched: &mut Scheduler, m: &mut MyMutex) -> (d: Dispatch)
    requires
        old(sched)@.wf(),
        old(sched)@.current is Some,
    ensures
        !old(m)@.locked ==> {
            &&& d == Dispatch::Stay
            &&& final(m)@ == old(m)@.held_by(old(sched)@.current->0)
            &&& final(sched)@ == old(sched)@
        },
        old(m)@.locked ==> {
            &&& d == old(sched)@.block_dispatch(BlockReason::Mutex)
            &&& final(m)@ == MutexView {
                waiters: old(m)@.waiters.push(old(sched)@.current->0),
                ..old(m)@
            }
            &&& final(sched)@ == old(sched)@.block_current(BlockReason::Mutex)
        },
        final(sched)@.wf(),
        old(sched)@.inv() && !(d is Deadlock) ==> final(sched)@.inv(),
        old(m)@.wf() ==> final(m)@.wf(),
        old(sched)@.inv() ==> forall|t: MyThreadId|
            old(sched)@.blocked_on_mutex(t) ==> #[trigger] final(sched)@.blocked_on_mutex(t),
        old(sched)@.inv() && old(m)@.waiters_parked(old(sched)@) ==> final(m)@.waiters_parked(
            final(sched)@,
        ),
{
    let curr = sched.current_thread_id().unwrap();
    if !m.locked {
        m.locked = true;
        m.owner = Some(curr);
        return Dispatch::Stay;
    }
    proof {
        if old(sched)@.inv() {
            let after = old(sched)@.block_current(BlockReason::Mutex);
            assert forall|t: MyThreadId|
                old(sched)@.blocked_on_mutex(t) implies #[trigger] after.blocked_on_mutex(t) by {
                lemma_block_keeps_blocked(old(sched)@, BlockReason::Mutex, t);
            }
            lemma_block_blocks(old(sched)@, BlockReason::Mutex);
            if old(m)@.waiters_parked(old(sched)@) {
                let before = old(m)@.waiters;
                let grown = before.push(curr);
                assert forall|i: int| 0 <= i < grown.len() implies after.blocked_on_mutex(
                    #[trigger] grown[i],
                ) by {
                    if i < before.len() {
                        assert(old(sched)@.blocked_on_mutex(before[i]));
                    }
                }
                assert forall|i: int, j: int|
                    0 <= i < grown.len() && 0 <= j < grown.len() && i != j implies grown[i]
                    != grown[j] by {
                    if i < before.len() {
                        assert(old(sched)@.blocked_on_mutex(before[i]));
                    }
                    if j < before.len() {
                        assert(old(sched)@.blocked_on_mutex(before[j]));
                    }
                }
            }
        }
    }
    m.waiters.push_back(curr);
    sched.block_current(BlockReason::Mutex)
}

/// Releases the mutex held by the current thread.
///
/// A caller that is not the owner gets the host's code for an invalid
/// argument, and nothing changes. Otherwise the head waiter becomes the
/// owner, the mutex staying locked, and is made ready; with no waiter the
/// mutex becomes free. Never switches.
pub fn my_mutex_unlock(sched: &mut Scheduler, m: &mut MyMutex) -> (rc: i32)
    requires
        old(sched)@.current is Some,
    ensures
        rc == 0 <==> old(m)@.owner == old(sched)@.current,
        rc != 0 ==> final(m)@ == old(m)@ && final(sched)@ == old(sched)@,
        rc == 0 ==> final(m)@ == old(m)@.released(),
        rc == 0 && old(m)@.waiters.len() > 0 ==> final(sched)@ == old(sched)@.unblock(
            old(m)@.waiters[0],
        ),
        rc == 0 && old(m)@.waiters.len() == 0 ==> final(sched)@ == old(sched)@,
        final(sched)@.current == old(sched)@.current,
        old(m)@.wf() ==> final(m)@.wf(),
        old(sched)@.wf() && (old(m)@.waiters.len() > 0 && old(sched)@.known(old(m)@.waiters[0])
            ==> old(sched)@.threads[old(m)@.waiters[0] as int].state != ThreadState::Ready)
            ==> final(sched)@.wf(),
        old(sched)@.inv() && (old(m)@.waiters.len() > 0 ==> old(sched)@.blocked_on_mutex(
            old(m)@.waiters[0],
        )) ==> final(sched)@.inv(),
        forall|t: MyThreadId|
            old(sched)@.blocked_on_mutex(t) && !(old(m)@.waiters.len() > 0 && old(m)@.waiters[0]
                == t) ==> #[trigger] final(sched)@.blocked_on_mutex(t),
        old(m)@.waiters_parked(old(sched)@) ==> final(m)@.waiters_parked(final(sched)@),
{
    proof {
        if old(m)@.waiters_parked(old(sched)@) && old(m)@.waiters.len() > 0 {
            let before = old(m)@.waiters;
            let rest = before.drop_first();
            let after = old(sched)@.unblock(before[0]);
            assert forall|i: int| 0 <= i < rest.len() implies after.blocked_on_mutex(
                #[trigger] rest[i],
            ) by {
                assert(rest[i] == before[i + 1]);
                assert(old(sched)@.blocked_on_mutex(before[i + 1]));
            }
            assert forall|i: int, j: int|
                0 <= i < rest.len() && 0 <= j < rest.len() && i != j implies rest[i] != rest[j] by {
                assert(rest[i] == before[i + 1]);
                assert(rest[j] == before[j + 1]);
            }
        }
    }
    let curr = sched.current_thread_id().unwrap();
    let is_owner = match m.owner {
        Some(o) => o == curr,
        None => false,
    };
    if !is_owner {
        return errno_invalid();
    }
    match m.waiters.pop_front() {
        Some(next_tid) => {
            proof {
                assert(m.waiters@ =~= old(m)@.waiters.drop_first());
            }
            m.locked = true;
            m.owner = Some(next_tid);
            sched.unblock(next_tid);
        },
        None => {
            m.locked = false;
            m.owner = None;
        },
    }
    0
}

} // verus!
