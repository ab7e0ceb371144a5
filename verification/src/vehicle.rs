//! Vehicles and the protocol by which a vehicle moves through the grid:
//! it takes the lock of the next cell before it gives up the lock of the
//! cell it stands on, so that it is always seen on exactly one cell.

use crate::bfs::{bfs_path, in_grid, near, reaches};
use crate::city::{
    direction_between, direction_from_to, Block, BlockView, City, Coord, Direction, VehicleId,
    VehicleKind,
};
use crate::matrix::{lemma_offset_in_range, lemma_update_at};
use crate::mutex::{my_mutex_lock, my_mutex_trylock, my_mutex_unlock, MutexView};
use crate::sched::{BlockReason, Dispatch, SchedulerView, ThreadState};
use crate::sched_lemmas::lemma_block_keeps_blocked;
use crate::scheduler::Scheduler;
use crate::threads::my_thread_yield;
use vstd::prelude::*;

verus! {

/// A vehicle with the route it is going to drive.
#[derive(Debug)]
pub struct Vehicle {
    pub id: VehicleId,
    pub kind: VehicleKind,
    /// The cell where the vehicle starts, then every cell it steps on.
    pub route: Vec<Coord>,
}

impl Vehicle {
    /// A vehicle with a shortest route planned from `start` towards `dest`;
    /// the route is empty when none exists.
    pub fn new(id: VehicleId, kind: VehicleKind, start: Coord, dest: Coord, city: &City) -> (v:
        Self)
        requires
            city.wf(),
            near(start, dest) || in_grid(*city, start),
        ensures
            v.id == id,
            v.kind == kind,
            near(start, dest) ==> v.route@ == seq![start],
            !near(start, dest) && v.route@.len() > 0 ==> reaches(*city, kind, start, dest, v.route@)
                && forall|other: Seq<Coord>| #[trigger]
                reaches(*city, kind, start, dest, other) ==> v.route@.len() <= other.len(),
            !near(start, dest) && v.route@.len() == 0 ==> forall|path: Seq<Coord>|
                !reaches(*city, kind, start, dest, path),
    {
        let route = match bfs_path(city, start, dest, kind) {
            Some(path) => path,
            None => Vec::new(),
        };
        Vehicle { id, kind, route }
    }
}

/// The cell of `city` at `p`.
pub open spec fn cell(city: City, p: Coord) -> Block {
    city.at(p.0 as int, p.1 as int)
}

/// `after` is a grid of the same shape as `before` that differs from it
/// at most in the cells `a` and `b`.
pub open spec fn same_except(before: City, after: City, a: Coord, b: Coord) -> bool {
    &&& after.wf()
    &&& after.spec_rows() == before.spec_rows()
    &&& after.spec_cols() == before.spec_cols()
    &&& forall|p: Coord|
        in_grid(before, p) && p != a && p != b ==> #[trigger] cell(after, p) == cell(before, p)
}

/// Sets the occupant of the cell at `p`.
fn occupy(city: &mut City, p: Coord, occupant: Option<VehicleId>)
    requires
        old(city).wf(),
        in_grid(*old(city), p),
    ensures
        same_except(*old(city), *final(city), p, p),
        cell(*final(city), p)@ == (BlockView { occupant, ..cell(*old(city), p)@ }),
{
    proof {
        lemma_offset_in_range(
            city.spec_rows() as int,
            city.spec_cols() as int,
            p.0 as int,
            p.1 as int,
        );
    }
    let ghost before = *city;
    let block = city.get_mut(p.0, p.1);
    block.set_occupant(occupant);
    proof {
        lemma_update_at(before, *city, p.0 as int, p.1 as int, cell(*city, p));
    }
}

/// Tries to take the lock of the cell at `p` for the current thread.
fn try_lock_cell(sched: &Scheduler, city: &mut City, p: Coord) -> (rc: i32)
    requires
        old(city).wf(),
        in_grid(*old(city), p),
        sched@.current is Some,
    ensures
        same_except(*old(city), *final(city), p, p),
        rc == 0 <==> !cell(*old(city), p)@.lock.locked,
        rc == 0 ==> cell(*final(city), p)@ == (BlockView {
            lock: cell(*old(city), p)@.lock.held_by(sched@.current->0),
            ..cell(*old(city), p)@
        }),
        rc != 0 ==> cell(*final(city), p)@ == cell(*old(city), p)@,
{
    proof {
        lemma_offset_in_range(
            city.spec_rows() as int,
            city.spec_cols() as int,
            p.0 as int,
            p.1 as int,
        );
    }
    let ghost before = *city;
    let block = city.get_mut(p.0, p.1);
    let rc = my_mutex_trylock(sched, &mut block.lock);
    proof {
        lemma_update_at(before, *city, p.0 as int, p.1 as int, cell(*city, p));
    }
    rc
}

/// Releases the lock of the cell at `p` if the current thread holds it.
fn unlock_cell(sched: &mut Scheduler, city: &mut City, p: Coord) -> (rc: i32)
    requires
        old(city).wf(),
        in_grid(*old(city), p),
        old(sched)@.current is Some,
    ensures
        same_except(*old(city), *final(city), p, p),
        rc == 0 <==> cell(*old(city), p)@.lock.owner == old(sched)@.current,
        cell(*final(city), p)@ == (BlockView {
            lock: unlocked(cell(*old(city), p)@.lock, old(sched)@.current->0),
            ..cell(*old(city), p)@
        }),
        final(sched)@ == woken(old(sched)@, cell(*old(city), p)@.lock, old(sched)@.current->0),
        final(sched)@.current == old(sched)@.current,
        old(sched)@.inv() && release_safe(old(sched)@, cell(*old(city), p)@.lock)
            ==> final(sched)@.inv(),
{
    proof {
        lemma_offset_in_range(
            city.spec_rows() as int,
            city.spec_cols() as int,
            p.0 as int,
            p.1 as int,
        );
    }
    let ghost before = *city;
    let block = city.get_mut(p.0, p.1);
    let rc = my_mutex_unlock(sched, &mut block.lock);
    proof {
        lemma_update_at(before, *city, p.0 as int, p.1 as int, cell(*city, p));
    }
    rc
}

/// Takes the lock of the cell at `p` for the current thread, or queues
/// the thread for it.
fn lock_cell(sched: &mut Scheduler, city: &mut City, p: Coord) -> (d: Dispatch)
    requires
        old(city).wf(),
        in_grid(*old(city), p),
        old(sched)@.wf(),
        old(sched)@.current is Some,
    ensures
        same_except(*old(city), *final(city), p, p),
        cell(*final(city), p)@ == (BlockView {
            lock: requested(cell(*old(city), p)@.lock, old(sched)@.current->0),
            ..cell(*old(city), p)@
        }),
        !cell(*old(city), p)@.lock.locked ==> d == Dispatch::Stay && final(sched)@ == old(sched)@,
        cell(*old(city), p)@.lock.locked ==> d == old(sched)@.block_dispatch(BlockReason::Mutex)
            && final(sched)@ == old(sched)@.block_current(BlockReason::Mutex),
        final(sched)@.wf(),
        old(sched)@.inv() && !(d is Deadlock) ==> final(sched)@.inv(),
{
    proof {
        lemma_offset_in_range(
            city.spec_rows() as int,
            city.spec_cols() as int,
            p.0 as int,
            p.1 as int,
        );
    }
    let ghost before = *city;
    let block = city.get_mut(p.0, p.1);
    let d = my_mutex_lock(sched, &mut block.lock);
    proof {
        lemma_update_at(before, *city, p.0 as int, p.1 as int, cell(*city, p));
    }
    d
}

/// The mutex after the thread `me` asked to release it: released if `me`
/// owns it, untouched otherwise.
pub open spec fn unlocked(m: MutexView, me: usize) -> MutexView {
    if m.owner == Some(me) {
        m.released()
    } else {
        m
    }
}

/// The scheduler after the thread `me` asked to release the mutex `m`: the
/// head waiter is made ready if `me` owned the mutex.
pub open spec fn woken(s: SchedulerView, m: MutexView, me: usize) -> SchedulerView {
    if m.owner == Some(me) && m.waiters.len() > 0 {
        s.unblock(m.waiters[0])
    } else {
        s
    }
}

/// The mutex after the thread `me` asked for it: held by `me` if it was
/// free, else with `me` behind the other waiters.
pub open spec fn requested(m: MutexView, me: usize) -> MutexView {
    if m.locked {
        MutexView { waiters: m.waiters.push(me), ..m }
    } else {
        m.held_by(me)
    }
}

/// The head waiter of `m`, if there is one, is blocked in the queue of a mutex.
pub open spec fn release_safe(s: SchedulerView, m: MutexView) -> bool {
    m.waiters.len() > 0 ==> s.blocked_on_mutex(m.waiters[0])
}

/// Where a vehicle is in its life.
#[derive(Debug, Copy, Clone, PartialEq, Eq, Structural)]
pub enum Phase {
    /// Nothing has happened yet.
    Fresh,
    /// The vehicle waits for the lock of its first cell.
    Entering,
    /// The vehicle stands on a cell and follows its route.
    Moving,
    /// The route was abandoned; the vehicle still stands on its cell.
    Leaving,
    /// The vehicle has left the grid.
    Done,
}

/// A vehicle on its way: the worker state of one vehicle thread.
#[derive(Debug)]
pub struct VehicleRun {
    pub id: VehicleId,
    pub kind: VehicleKind,
    /// The cell the vehicle stands on, once it has entered the grid.
    pub pos: Coord,
    /// The cells still to step on.
    pub route: Vec<Coord>,
    pub phase: Phase,
}

/// What a step of a vehicle came to. Every [`Dispatch`] in it is what the
/// vehicle thread has to do before its next step.
#[derive(Debug, Copy, Clone, PartialEq, Eq)]
pub enum StepOutcome {
    /// The vehicle has no route and ends at once.
    EmptyRoute,
    /// The vehicle asked for the lock of its first cell: it owns the cell
    /// and stands on it if it may stay, else it waits for the cell.
    Locking(Dispatch),
    /// The vehicle, resumed as the owner of its first cell, stands on it.
    Entered,
    /// The next cell of the route is no cardinal neighbour: the route is abandoned.
    NotAdjacent { from: Coord, to: Coord },
    /// The cell does not allow the direction of the next step: the route is abandoned.
    Forbidden { from: Coord, to: Coord, dir: Direction },
    /// The next cell is locked by someone else: the vehicle yields and tries again.
    Contended { to: Coord, dir: Direction, dispatch: Dispatch },
    /// The next cell was free but occupied: the vehicle gives its lock
    /// back, yields and tries again.
    Occupied { to: Coord, dispatch: Dispatch },
    /// The vehicle moved by one cell and yields.
    Moved { from: Coord, to: Coord, dir: Direction, dispatch: Dispatch },
    /// The vehicle left its last cell and ends.
    Finished { at: Coord },
    /// The vehicle had ended before.
    Idle,
}

impl VehicleRun {
    /// The worker state of `vehicle` before its first step.
    pub fn new(vehicle: Vehicle) -> (run: Self)
        ensures
            run.id == vehicle.id,
            run.kind == vehicle.kind,
            run.route@ == vehicle.route@,
            run.phase == Phase::Fresh,
    {
        VehicleRun {
            id: vehicle.id,
            kind: vehicle.kind,
            pos: (0, 0),
            route: vehicle.route,
            phase: Phase::Fresh,
        }
    }

    /// The route lies in the grid, and so does the position of a vehicle
    /// that has entered it.
    pub open spec fn ok(&self, city: City) -> bool {
        &&& forall|i: int| 0 <= i < self.route@.len() ==> in_grid(city, #[trigger] self.route@[i])
        &&& (self.phase == Phase::Entering || self.phase == Phase::Moving || self.phase
            == Phase::Leaving) ==> in_grid(city, self.pos)
    }

    /// The same vehicle with the given position, rest of route and phase.
    pub open spec fn is_update_of(
        &self,
        before: VehicleRun,
        pos: Coord,
        route: Seq<Coord>,
        phase: Phase,
    ) -> bool {
        &&& self.id == before.id
        &&& self.kind == before.kind
        &&& self.pos == pos
        &&& self.route@ == route
        &&& self.phase == phase
    }
}

/// The waiters of every cell are threads blocked in the queue of a mutex.
pub open spec fn parking_ok(city: City, s: SchedulerView) -> bool {
    forall|p: Coord, i: int|
        in_grid(city, p) && 0 <= i < cell(city, p)@.lock.waiters.len() ==> s.blocked_on_mutex(
            #[trigger] cell(city, p)@.lock.waiters[i],
        )
}

/// What the first step of a vehicle does: without a route the vehicle
/// ends. Otherwise it takes the head of the route as its position and asks
/// for the lock of that cell; on a free cell it becomes owner and occupant
/// and goes on, on a held cell it queues and blocks.
pub open spec fn start_post(
    r0: VehicleRun,
    s0: SchedulerView,
    c0: City,
    r1: VehicleRun,
    s1: SchedulerView,
    c1: City,
    out: StepOutcome,
) -> bool {
    if r0.route@.len() == 0 {
        &&& out == StepOutcome::EmptyRoute
        &&& r1.is_update_of(r0, r0.pos, r0.route@, Phase::Done)
        &&& s1 == s0
        &&& c1 == c0
    } else {
        let p = r0.route@[0];
        let me = s0.current->0;
        let m = cell(c0, p)@.lock;
        &&& same_except(c0, c1, p, p)
        &&& if m.locked {
            &&& out == StepOutcome::Locking(s0.block_dispatch(BlockReason::Mutex))
            &&& r1.is_update_of(r0, p, r0.route@.drop_first(), Phase::Entering)
            &&& s1 == s0.block_current(BlockReason::Mutex)
            &&& cell(c1, p)@ == (BlockView { lock: requested(m, me), ..cell(c0, p)@ })
        } else {
            &&& out == StepOutcome::Locking(Dispatch::Stay)
            &&& r1.is_update_of(r0, p, r0.route@.drop_first(), Phase::Moving)
            &&& s1 == s0
            &&& cell(c1, p)@ == (BlockView {
                lock: m.held_by(me),
                occupant: Some(r0.id),
                ..cell(c0, p)@
            })
        }
    }
}

/// What the step of a vehicle does that was resumed as the owner of its
/// first cell: it becomes the occupant.
pub open spec fn enter_post(
    r0: VehicleRun,
    s0: SchedulerView,
    c0: City,
    r1: VehicleRun,
    s1: SchedulerView,
    c1: City,
    out: StepOutcome,
) -> bool {
    &&& out == StepOutcome::Entered
    &&& r1.is_update_of(r0, r0.pos, r0.route@, Phase::Moving)
    &&& s1 == s0
    &&& same_except(c0, c1, r0.pos, r0.pos)
    &&& cell(c1, r0.pos)@ == (BlockView { occupant: Some(r0.id), ..cell(c0, r0.pos)@ })
}

/// What the last step of a vehicle does: the cell loses its occupant and
/// the lock is released, which hands it to the head waiter if there is one.
pub open spec fn leave_post(
    r0: VehicleRun,
    s0: SchedulerView,
    c0: City,
    r1: VehicleRun,
    s1: SchedulerView,
    c1: City,
    out: StepOutcome,
) -> bool {
    let me = s0.current->0;
    let m = cell(c0, r0.pos)@.lock;
    &&& out == StepOutcome::Finished { at: r0.pos }
    &&& r1.is_update_of(r0, r0.pos, r0.route@, Phase::Done)
    &&& s1 == woken(s0, m, me)
    &&& same_except(c0, c1, r0.pos, r0.pos)
    &&& cell(c1, r0.pos)@ == (BlockView { occupant: None, lock: unlocked(m, me), ..cell(c0, r0.pos)@ })
}

/// What a step along the route does.
///
/// A next cell that is no cardinal neighbour, or lies in a direction that
/// the cell does not allow, ends the route and changes nothing else. A
/// next cell that is locked makes the vehicle yield. A next cell that is
/// free but occupied is locked, released again, and the vehicle yields.
/// Otherwise the vehicle takes the lock of the next cell, becomes its
/// occupant, gives up the cell it stood on, releases that lock, and yields.
pub open spec fn advance_post(
    r0: VehicleRun,
    s0: SchedulerView,
    c0: City,
    r1: VehicleRun,
    s1: SchedulerView,
    c1: City,
    out: StepOutcome,
) -> bool {
    let from = r0.pos;
    let to = r0.route@[0];
    let me = s0.current->0;
    let here = cell(c0, from)@;
    let there = cell(c0, to)@;
    match direction_between(from, to) {
        None => {
            &&& out == StepOutcome::NotAdjacent { from, to }
            &&& r1.is_update_of(r0, from, r0.route@, Phase::Leaving)
            &&& s1 == s0
            &&& c1 == c0
        },
        Some(dir) => if !here.dirs.allows(dir) {
            &&& out == StepOutcome::Forbidden { from, to, dir }
            &&& r1.is_update_of(r0, from, r0.route@, Phase::Leaving)
            &&& s1 == s0
            &&& c1 == c0
        } else if there.lock.locked {
            &&& out == StepOutcome::Contended { to, dir, dispatch: s0.yield_dispatch() }
            &&& r1.is_update_of(r0, from, r0.route@, Phase::Moving)
            &&& s1 == s0.yield_current()
            &&& same_except(c0, c1, to, to)
            &&& cell(c1, to)@ == there
        } else if there.occupant is Some {
            let held = there.lock.held_by(me);
            &&& out == StepOutcome::Occupied { to, dispatch: woken(s0, held, me).yield_dispatch() }
            &&& r1.is_update_of(r0, from, r0.route@, Phase::Moving)
            &&& s1 == woken(s0, held, me).yield_current()
            &&& same_except(c0, c1, to, to)
            &&& cell(c1, to)@ == (BlockView { lock: held.released(), ..there })
        } else {
            &&& out == StepOutcome::Moved {
                from,
                to,
                dir,
                dispatch: woken(s0, here.lock, me).yield_dispatch(),
            }
            &&& r1.is_update_of(r0, to, r0.route@.drop_first(), Phase::Moving)
            &&& s1 == woken(s0, here.lock, me).yield_current()
            &&& same_except(c0, c1, from, to)
            &&& cell(c1, to)@ == (BlockView {
                lock: there.lock.held_by(me),
                occupant: Some(r0.id),
                ..there
            })
            &&& cell(c1, from)@ == (BlockView {
                occupant: None,
                lock: unlocked(here.lock, me),
                ..here
            })
        },
    }
}

/// What one step of a vehicle does, by the phase it is in.
pub open spec fn step_post(
    r0: VehicleRun,
    s0: SchedulerView,
    c0: City,
    r1: VehicleRun,
    s1: SchedulerView,
    c1: City,
    out: StepOutcome,
) -> bool {
    match r0.phase {
        Phase::Fresh => start_post(r0, s0, c0, r1, s1, c1, out),
        Phase::Entering => enter_post(r0, s0, c0, r1, s1, c1, out),
        Phase::Moving => if r0.route@.len() == 0 {
            leave_post(r0, s0, c0, r1, s1, c1, out)
        } else {
            advance_post(r0, s0, c0, r1, s1, c1, out)
        },
        Phase::Leaving => leave_post(r0, s0, c0, r1, s1, c1, out),
        Phase::Done => {
            &&& out == StepOutcome::Idle
            &&& r1.is_update_of(r0, r0.pos, r0.route@, Phase::Done)
            &&& s1 == s0
            &&& c1 == c0
        },
    }
}

/// The first step of a vehicle.
fn start_route(sched: &mut Scheduler, city: &mut City, run: &mut VehicleRun) -> (out: StepOutcome)
    requires
        old(sched)@.inv(),
        old(sched)@.current is Some,
        old(city).wf(),
        old(run).ok(*old(city)),
        old(run).phase == Phase::Fresh,
    ensures
        start_post(*old(run), old(sched)@, *old(city), *final(run), final(sched)@, *final(city), out),
        final(sched)@.wf(),
        !(out matches StepOutcome::Locking(Dispatch::Deadlock)) ==> final(sched)@.inv(),
        final(run).ok(*final(city)),
{
    if run.route.len() == 0 {
        run.phase = Phase::Done;
        return StepOutcome::EmptyRoute;
    }
    let pos = run.route.remove(0);
    proof {
        assert(pos == old(run).route@[0]);
        assert(in_grid(*city, old(run).route@[0]));
        assert(run.route@ =~= old(run).route@.drop_first());
        assert forall|i: int| 0 <= i < run.route@.len() implies in_grid(
            *city,
            #[trigger] run.route@[i],
        ) by {
            assert(run.route@[i] == old(run).route@[i + 1]);
        }
    }
    run.pos = pos;
    let d = lock_cell(sched, city, pos);
    match d {
        Dispatch::Stay => {
            let ghost locked = *city;
            occupy(city, pos, Some(run.id));
            run.phase = Phase::Moving;
            proof {
                assert(same_except(*old(city), *city, pos, pos)) by {
                    assert forall|p: Coord| in_grid(*old(city), p) && p != pos implies #[trigger] cell(
                        *city,
                        p,
                    ) == cell(*old(city), p) by {
                        assert(cell(locked, p) == cell(*old(city), p));
                    }
                }
            }
        },
        _ => {
            run.phase = Phase::Entering;
        },
    }
    StepOutcome::Locking(d)
}

/// The step of a vehicle that was resumed as the owner of its first cell.
fn enter_cell(sched: &Scheduler, city: &mut City, run: &mut VehicleRun) -> (out: StepOutcome)
    requires
        old(city).wf(),
        old(run).ok(*old(city)),
        old(run).phase == Phase::Entering,
    ensures
        enter_post(*old(run), sched@, *old(city), *final(run), sched@, *final(city), out),
        final(run).ok(*final(city)),
{
    occupy(city, run.pos, Some(run.id));
    run.phase = Phase::Moving;
    StepOutcome::Entered
}

/// The last step of a vehicle.
fn leave_cell(sched: &mut Scheduler, city: &mut City, run: &mut VehicleRun) -> (out: StepOutcome)
    requires
        old(sched)@.current is Some,
        old(city).wf(),
        old(run).ok(*old(city)),
        old(run).phase == Phase::Moving || old(run).phase == Phase::Leaving,
    ensures
        leave_post(*old(run), old(sched)@, *old(city), *final(run), final(sched)@, *final(city), out),
        final(run).ok(*final(city)),
        old(sched)@.inv() && release_safe(old(sched)@, cell(*old(city), old(run).pos)@.lock)
            ==> final(sched)@.inv(),
{
    let pos = run.pos;
    occupy(city, pos, None);
    let ghost cleared = *city;
    let _ = unlock_cell(sched, city, pos);
    run.phase = Phase::Done;
    proof {
        assert forall|p: Coord| in_grid(*old(city), p) && p != pos implies #[trigger] cell(*city, p)
            == cell(*old(city), p) by {
            assert(cell(cleared, p) == cell(*old(city), p));
        }
    }
    StepOutcome::Finished { at: pos }
}

/// A step along the route.
fn advance(sched: &mut Scheduler, city: &mut City, run: &mut VehicleRun) -> (out: StepOutcome)
    requires
        old(sched)@.inv(),
        old(sched)@.current is Some,
        old(city).wf(),
        old(run).ok(*old(city)),
        old(run).phase == Phase::Moving,
        old(run).route@.len() > 0,
        parking_ok(*old(city), old(sched)@),
    ensures
        advance_post(
            *old(run),
            old(sched)@,
            *old(city),
            *final(run),
            final(sched)@,
            *final(city),
            out,
        ),
        final(sched)@.inv(),
        final(run).ok(*final(city)),
{
    let pos = run.pos;
    let next_pos = run.route[0];
    let ghost me = sched@.current->0;
    proof {
        assert(in_grid(*city, run.route@[0]));
        lemma_offset_in_range(
            city.spec_rows() as int,
            city.spec_cols() as int,
            pos.0 as int,
            pos.1 as int,
        );
        lemma_offset_in_range(
            city.spec_rows() as int,
            city.spec_cols() as int,
            next_pos.0 as int,
            next_pos.1 as int,
        );
    }
    let dir = match direction_from_to(pos, next_pos) {
        Some(d) => d,
        None => {
            run.phase = Phase::Leaving;
            return StepOutcome::NotAdjacent { from: pos, to: next_pos };
        },
    };
    if !city.get(pos.0, pos.1).allows_direction(dir) {
        run.phase = Phase::Leaving;
        return StepOutcome::Forbidden { from: pos, to: next_pos, dir };
    }
    let rc = try_lock_cell(sched, city, next_pos);
    if rc != 0 {
        let dispatch = my_thread_yield(sched);
        return StepOutcome::Contended { to: next_pos, dir, dispatch };
    }
    let ghost locked = *city;
    if city.get(next_pos.0, next_pos.1).get_occupant().is_some() {
        proof {
            let held = cell(*old(city), next_pos)@.lock.held_by(me);
            if held.waiters.len() > 0 {
                assert(sched@.blocked_on_mutex(cell(*old(city), next_pos)@.lock.waiters[0]));
            }
        }
        let _ = unlock_cell(sched, city, next_pos);
        proof {
            assert forall|p: Coord|
                in_grid(*old(city), p) && p != next_pos implies #[trigger] cell(*city, p) == cell(
                *old(city),
                p,
            ) by {
                assert(cell(locked, p) == cell(*old(city), p));
            }
        }
        let dispatch = my_thread_yield(sched);
        return StepOutcome::Occupied { to: next_pos, dispatch };
    }
    occupy(city, next_pos, Some(run.id));
    let ghost entered = *city;
    occupy(city, pos, None);
    let ghost cleared = *city;
    proof {
        assert(cell(locked, pos) == cell(*old(city), pos));
        assert(cell(entered, pos) == cell(locked, pos));
        let here = cell(*old(city), pos)@.lock;
        if here.waiters.len() > 0 {
            assert(sched@.blocked_on_mutex(here.waiters[0]));
        }
    }
    let _ = unlock_cell(sched, city, pos);
    run.pos = next_pos;
    let _ = run.route.remove(0);
    proof {
        assert(run.route@ =~= old(run).route@.drop_first());
        assert forall|i: int| 0 <= i < run.route@.len() implies in_grid(
            *city,
            #[trigger] run.route@[i],
        ) by {
            assert(run.route@[i] == old(run).route@[i + 1]);
        }
        assert(cell(cleared, next_pos) == cell(entered, next_pos));
        assert(cell(*city, next_pos) == cell(cleared, next_pos));
        assert forall|p: Coord|
            in_grid(*old(city), p) && p != pos && p != next_pos implies #[trigger] cell(*city, p)
            == cell(*old(city), p) by {
            assert(cell(locked, p) == cell(*old(city), p));
            assert(cell(entered, p) == cell(locked, p));
            assert(cell(cleared, p) == cell(entered, p));
        }
    }
    let dispatch = my_thread_yield(sched);
    StepOutcome::Moved { from: pos, to: next_pos, dir, dispatch }
}

/// Every lock of the grid is in order, and every occupied cell is locked.
pub open spec fn locks_ok(city: City) -> bool {
    forall|p: Coord|
        in_grid(city, p) ==> (#[trigger] cell(city, p))@.lock.wf() && (cell(city, p)@.occupant
            is Some ==> cell(city, p)@.lock.locked)
}

/// The vehicle `run`, driven by the thread `me`, is where it says: once it
/// has entered the grid it is the occupant of its cell and `me` holds the
/// lock of that cell; a vehicle resumed to enter holds the lock of its
/// cell already, and nobody stands there.
pub open spec fn in_place(city: City, me: usize, run: VehicleRun) -> bool {
    match run.phase {
        Phase::Entering => {
            &&& cell(city, run.pos)@.lock.owner == Some(me)
            &&& cell(city, run.pos)@.occupant is None
        },
        Phase::Moving | Phase::Leaving => {
            &&& cell(city, run.pos)@.lock.owner == Some(me)
            &&& cell(city, run.pos)@.occupant == Some(run.id)
        },
        _ => true,
    }
}

/// The vehicle `run` occupies its own cell and no other; before it has
/// entered the grid and after it has left, it occupies none.
pub open spec fn sole(city: City, run: VehicleRun) -> bool {
    forall|p: Coord|
        in_grid(city, p) && (#[trigger] cell(city, p))@.occupant == Some(run.id) ==> (run.phase
            == Phase::Moving || run.phase == Phase::Leaving) && p == run.pos
}

/// No vehicle other than `id` has appeared on a cell or left one between
/// `before` and `after`.
pub open spec fn others_stay(before: City, after: City, id: VehicleId) -> bool {
    forall|p: Coord|
        in_grid(before, p) ==> {
            ||| (#[trigger] cell(after, p))@.occupant == cell(before, p)@.occupant
            ||| cell(before, p)@.occupant is None && cell(after, p)@.occupant == Some(id)
            ||| cell(before, p)@.occupant == Some(id) && cell(after, p)@.occupant is None
        }
}

/// A step keeps the grid in order.
///
/// In a grid whose occupied cells are all locked, a step of a vehicle that
/// is where it says leaves every occupied cell locked, the vehicle the
/// occupant of at most one cell, namely the cell it stands on, whose lock
/// its thread holds, and every other vehicle where it was.
pub proof fn lemma_step_keeps_grid(
    r0: VehicleRun,
    s0: SchedulerView,
    c0: City,
    r1: VehicleRun,
    s1: SchedulerView,
    c1: City,
    out: StepOutcome,
)
    requires
        step_post(r0, s0, c0, r1, s1, c1, out),
        c0.wf(),
        r0.ok(c0),
        s0.current is Some,
        locks_ok(c0),
        in_place(c0, s0.current->0, r0),
        sole(c0, r0),
    ensures
        locks_ok(c1),
        r1.phase != Phase::Entering ==> in_place(c1, s0.current->0, r1),
        sole(c1, r1),
        others_stay(c0, c1, r0.id),
        !(out is Occupied),
{
    let me = s0.current->0;
    if r0.route@.len() > 0 {
        assert(in_grid(c0, r0.route@[0]));
    }
    assert forall|p: Coord| in_grid(c1, p) implies (#[trigger] cell(c1, p))@.lock.wf() && (cell(
        c1,
        p,
    )@.occupant is Some ==> cell(c1, p)@.lock.locked) by {
        assert(cell(c0, p)@.lock.wf());
        if r0.route@.len() > 0 {
            assert(cell(c0, r0.route@[0])@.lock.wf());
        }
        assert(in_grid(c0, r0.pos) ==> cell(c0, r0.pos)@.lock.wf());
    }
    assert forall|p: Coord|
        in_grid(c1, p) && (#[trigger] cell(c1, p))@.occupant == Some(r1.id) implies (r1.phase
        == Phase::Moving || r1.phase == Phase::Leaving) && p == r1.pos by {
        assert(cell(c0, p)@.occupant == Some(r0.id) ==> (r0.phase == Phase::Moving || r0.phase
            == Phase::Leaving) && p == r0.pos);
    }
    assert forall|p: Coord| in_grid(c0, p) implies {
        ||| (#[trigger] cell(c1, p))@.occupant == cell(c0, p)@.occupant
        ||| cell(c0, p)@.occupant is None && cell(c1, p)@.occupant == Some(r0.id)
        ||| cell(c0, p)@.occupant == Some(r0.id) && cell(c1, p)@.occupant is None
    } by {
        assert(cell(c0, p)@.lock.wf());
    }
}

/// No thread waits for two cells, nor twice for one.
pub open spec fn waiters_apart(city: City) -> bool {
    forall|p: Coord, i: int, q: Coord, j: int|
        in_grid(city, p) && in_grid(city, q) && 0 <= i < cell(city, p)@.lock.waiters.len() && 0
            <= j < cell(city, q)@.lock.waiters.len() && (p != q || i != j) ==> #[trigger] cell(
            city,
            p,
        )@.lock.waiters[i] != #[trigger] cell(city, q)@.lock.waiters[j]
}

/// The waiters of `after` are those of `before`, but that the cell `at`
/// may have lost its head waiter or gained `joined` at the end.
pub open spec fn waiters_moved(before: City, after: City, at: Coord, joined: Option<usize>) -> bool {
    &&& after.spec_rows() == before.spec_rows()
    &&& after.spec_cols() == before.spec_cols()
    &&& forall|p: Coord|
        in_grid(before, p) && p != at ==> (#[trigger] cell(after, p))@.lock.waiters == cell(
            before,
            p,
        )@.lock.waiters
    &&& in_grid(before, at) ==> {
        let old_waiters = cell(before, at)@.lock.waiters;
        let new_waiters = cell(after, at)@.lock.waiters;
        match joined {
            Some(me) => new_waiters == old_waiters.push(me),
            None => new_waiters == old_waiters || (old_waiters.len() > 0 && new_waiters
                == old_waiters.drop_first()),
        }
    }
}

/// The queues of waiters stay in order when one cell loses its head
/// waiter or gains a waiter that was not blocked before, and every
/// thread that still waits is blocked as before.
pub proof fn lemma_parking_frame(
    c0: City,
    s0: SchedulerView,
    c1: City,
    s1: SchedulerView,
    at: Coord,
    joined: Option<usize>,
)
    requires
        parking_ok(c0, s0),
        waiters_apart(c0),
        waiters_moved(c0, c1, at, joined),
        joined matches Some(me) ==> !s0.blocked_on_mutex(me) && s1.blocked_on_mutex(me),
        forall|t: usize|
            #[trigger] s0.blocked_on_mutex(t) ==> s1.blocked_on_mutex(t) || (in_grid(c0, at)
                && cell(c0, at)@.lock.waiters.len() > 0 && cell(c0, at)@.lock.waiters[0] == t
                && cell(c1, at)@.lock.waiters == cell(c0, at)@.lock.waiters.drop_first()),
    ensures
        parking_ok(c1, s1),
        waiters_apart(c1),
{
    let old_at = cell(c0, at)@.lock.waiters;
    let new_at = cell(c1, at)@.lock.waiters;
    let dropped = in_grid(c0, at) && joined is None && old_at.len() > 0 && new_at
        == old_at.drop_first() && new_at != old_at;
    // where a waiter of the new grid stood in the old one
    let origin = |p: Coord, i: int| -> int {
        if p == at && dropped {
            i + 1
        } else {
            i
        }
    };
    assert forall|p: Coord, i: int|
        in_grid(c1, p) && 0 <= i < cell(c1, p)@.lock.waiters.len() implies s1.blocked_on_mutex(
        #[trigger] cell(c1, p)@.lock.waiters[i],
    ) by {
        let w = cell(c1, p)@.lock.waiters[i];
        if p == at && joined is Some && i == old_at.len() {
        } else {
            let k = origin(p, i);
            assert(cell(c0, p)@.lock.waiters[k] == w);
            assert(s0.blocked_on_mutex(cell(c0, p)@.lock.waiters[k]));
            if !s1.blocked_on_mutex(w) {
                assert(old_at[0] == w);
                assert(cell(c0, at)@.lock.waiters[0] != cell(c0, p)@.lock.waiters[k]);
            }
        }
    }
    assert forall|p: Coord, i: int, q: Coord, j: int|
        in_grid(c1, p) && in_grid(c1, q) && 0 <= i < cell(c1, p)@.lock.waiters.len() && 0 <= j
            < cell(c1, q)@.lock.waiters.len() && (p != q || i != j) implies #[trigger] cell(
        c1,
        p,
    )@.lock.waiters[i] != #[trigger] cell(c1, q)@.lock.waiters[j] by {
        let fresh_p = p == at && joined is Some && i == old_at.len();
        let fresh_q = q == at && joined is Some && j == old_at.len();
        if fresh_p && fresh_q {
        } else if fresh_p {
            let k = origin(q, j);
            assert(s0.blocked_on_mutex(cell(c0, q)@.lock.waiters[k]));
        } else if fresh_q {
            let k = origin(p, i);
            assert(s0.blocked_on_mutex(cell(c0, p)@.lock.waiters[k]));
        } else {
            let k = origin(p, i);
            let l = origin(q, j);
            assert(cell(c0, p)@.lock.waiters[k] != cell(c0, q)@.lock.waiters[l]);
        }
    }
}

/// A step keeps the queues of waiters in order.
///
/// If every waiter of every cell is a thread blocked in the queue of a
/// mutex, and no thread waits twice, then the same holds after a step of
/// a vehicle on behalf of the running thread.
pub proof fn lemma_step_keeps_parking(
    r0: VehicleRun,
    s0: SchedulerView,
    c0: City,
    r1: VehicleRun,
    s1: SchedulerView,
    c1: City,
    out: StepOutcome,
)
    requires
        step_post(r0, s0, c0, r1, s1, c1, out),
        s0.inv(),
        s0.current is Some,
        c0.wf(),
        r0.ok(c0),
        parking_ok(c0, s0),
        waiters_apart(c0),
    ensures
        parking_ok(c1, s1),
        waiters_apart(c1),
{
    let me = s0.current->0;
    assert(s0.threads[me as int].state == ThreadState::Running);
    if r0.route@.len() > 0 {
        assert(in_grid(c0, r0.route@[0]));
    }
    match out {
        StepOutcome::Locking(_) => {
            let p = r0.route@[0];
            let m = cell(c0, p)@.lock;
            if m.locked {
                assert forall|t: usize| #[trigger] s0.blocked_on_mutex(t) implies s1.blocked_on_mutex(
                    t,
                ) by {
                    lemma_block_keeps_blocked(s0, BlockReason::Mutex, t);
                }
                crate::sched_lemmas::lemma_block_blocks(s0, BlockReason::Mutex);
                lemma_parking_frame(c0, s0, c1, s1, p, Some(me));
            } else {
                lemma_parking_frame(c0, s0, c1, s1, p, None);
            }
        },
        StepOutcome::Entered => {
            lemma_parking_frame(c0, s0, c1, s1, r0.pos, None);
        },
        StepOutcome::Finished { .. } => {
            lemma_released(s0, cell(c0, r0.pos)@.lock, me, s1);
            lemma_parking_frame(c0, s0, c1, s1, r0.pos, None);
        },
        StepOutcome::Contended { to, .. } => {
            assert forall|t: usize| #[trigger] s0.blocked_on_mutex(t) implies s1.blocked_on_mutex(
                t,
            ) by {
                crate::sched_lemmas::lemma_yield_keeps_blocked(s0, t);
            }
            lemma_parking_frame(c0, s0, c1, s1, to, None);
        },
        StepOutcome::Occupied { to, .. } => {
            let held = cell(c0, to)@.lock.held_by(me);
            let mid = woken(s0, held, me);
            if held.waiters.len() > 0 {
                assert(s0.blocked_on_mutex(cell(c0, to)@.lock.waiters[0]));
            }
            lemma_released(s0, held, me, mid);
            assert(mid.inv()) by {
                if held.waiters.len() > 0 {
                    crate::sched_lemmas::lemma_inv_unblock(s0, held.waiters[0]);
                }
            }
            assert forall|t: usize| #[trigger] mid.blocked_on_mutex(t) implies s1.blocked_on_mutex(
                t,
            ) by {
                crate::sched_lemmas::lemma_yield_keeps_blocked(mid, t);
            }
            assert forall|t: usize| #[trigger] s0.blocked_on_mutex(t) implies s1.blocked_on_mutex(
                t,
            ) || (cell(c0, to)@.lock.waiters.len() > 0 && cell(c0, to)@.lock.waiters[0] == t && cell(
                c1,
                to,
            )@.lock.waiters == cell(c0, to)@.lock.waiters.drop_first()) by {
                if mid.blocked_on_mutex(t) {
                    assert(s1.blocked_on_mutex(t));
                }
            }
            lemma_parking_frame(c0, s0, c1, s1, to, None);
        },
        StepOutcome::Moved { from, to, .. } => {
            let here = cell(c0, from)@.lock;
            let mid = woken(s0, here, me);
            if here.waiters.len() > 0 {
                assert(s0.blocked_on_mutex(cell(c0, from)@.lock.waiters[0]));
            }
            lemma_released(s0, here, me, mid);
            assert(mid.inv()) by {
                if here.owner == Some(me) && here.waiters.len() > 0 {
                    crate::sched_lemmas::lemma_inv_unblock(s0, here.waiters[0]);
                }
            }
            assert forall|t: usize| #[trigger] mid.blocked_on_mutex(t) implies s1.blocked_on_mutex(
                t,
            ) by {
                crate::sched_lemmas::lemma_yield_keeps_blocked(mid, t);
            }
            assert forall|t: usize| #[trigger] s0.blocked_on_mutex(t) implies s1.blocked_on_mutex(
                t,
            ) || (here.waiters.len() > 0 && here.waiters[0] == t && cell(c1, from)@.lock.waiters
                == here.waiters.drop_first()) by {
                if mid.blocked_on_mutex(t) {
                    assert(s1.blocked_on_mutex(t));
                }
            }
            assert(cell(c1, to)@.lock.waiters == cell(c0, to)@.lock.waiters);
            lemma_parking_frame(c0, s0, c1, s1, from, None);
        },
        _ => {
            lemma_parking_frame(c0, s0, c1, s1, r0.pos, None);
        },
    }
}

/// Releasing a mutex leaves every blocked thread blocked but the head
/// waiter, which the release wakes if the caller owns the mutex.
proof fn lemma_released(s0: SchedulerView, m: MutexView, me: usize, s1: SchedulerView)
    requires
        s1 == woken(s0, m, me),
    ensures
        forall|t: usize|
            #[trigger] s0.blocked_on_mutex(t) ==> s1.blocked_on_mutex(t) || (m.owner == Some(me)
                && m.waiters.len() > 0 && m.waiters[0] == t),
{
}

/// One step of the vehicle on behalf of its thread, the current one.
///
/// The thread calls this again and again, doing between two calls what
/// the outcome tells it to, until the outcome is
/// [`StepOutcome::EmptyRoute`] or [`StepOutcome::Finished`]. What each step
/// does is stated by [`step_post`].
pub fn vehicle_step(sched: &mut Scheduler, city: &mut City, run: &mut VehicleRun) -> (out:
    StepOutcome)
    requires
        old(sched)@.inv(),
        old(sched)@.current is Some,
        old(city).wf(),
        old(run).ok(*old(city)),
        parking_ok(*old(city), old(sched)@),
    ensures
        step_post(*old(run), old(sched)@, *old(city), *final(run), final(sched)@, *final(city), out),
        final(sched)@.wf(),
        !(out matches StepOutcome::Locking(Dispatch::Deadlock)) ==> final(sched)@.inv(),
        final(city).wf(),
        final(run).ok(*final(city)),
        locks_ok(*old(city)) && in_place(*old(city), old(sched)@.current->0, *old(run)) && sole(
            *old(city),
            *old(run),
        ) ==> {
            &&& locks_ok(*final(city))
            &&& sole(*final(city), *final(run))
            &&& others_stay(*old(city), *final(city), old(run).id)
            &&& final(run).phase != Phase::Entering ==> in_place(
                *final(city),
                old(sched)@.current->0,
                *final(run),
            )
        },
        waiters_apart(*old(city)) ==> parking_ok(*final(city), final(sched)@) && waiters_apart(
            *final(city),
        ),
{
    let out = vehicle_step_inner(sched, city, run);
    proof {
        if waiters_apart(*old(city)) {
            lemma_step_keeps_parking(
                *old(run),
                old(sched)@,
                *old(city),
                *run,
                sched@,
                *city,
                out,
            );
        }
        if locks_ok(*old(city)) && in_place(*old(city), old(sched)@.current->0, *old(run)) && sole(
            *old(city),
            *old(run),
        ) {
            lemma_step_keeps_grid(
                *old(run),
                old(sched)@,
                *old(city),
                *run,
                sched@,
                *city,
                out,
            );
        }
    }
    out
}

/// The step itself, by the phase of the vehicle.
fn vehicle_step_inner(sched: &mut Scheduler, city: &mut City, run: &mut VehicleRun) -> (out:
    StepOutcome)
    requires
        old(sched)@.inv(),
        old(sched)@.current is Some,
        old(city).wf(),
        old(run).ok(*old(city)),
        parking_ok(*old(city), old(sched)@),
    ensures
        step_post(*old(run), old(sched)@, *old(city), *final(run), final(sched)@, *final(city), out),
        final(sched)@.wf(),
        !(out matches StepOutcome::Locking(Dispatch::Deadlock)) ==> final(sched)@.inv(),
        final(city).wf(),
        final(run).ok(*final(city)),
{
    match run.phase {
        Phase::Fresh => start_route(sched, city, run),
        Phase::Entering => enter_cell(sched, city, run),
        Phase::Moving => {
            if run.route.len() == 0 {
                proof {
                    let here = cell(*city, run.pos)@.lock;
                    if here.waiters.len() > 0 {
                        assert(sched@.blocked_on_mutex(here.waiters[0]));
                    }
                }
                leave_cell(sched, city, run)
            } else {
                advance(sched, city, run)
            }
        },
        Phase::Leaving => {
            proof {
                let here = cell(*city, run.pos)@.lock;
                if here.waiters.len() > 0 {
                    assert(sched@.blocked_on_mutex(here.waiters[0]));
                }
            }
            leave_cell(sched, city, run)
        },
        Phase::Done => StepOutcome::Idle,
    }
}

} // verus!
