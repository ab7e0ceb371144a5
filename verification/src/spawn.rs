//! Putting vehicles on the road: a start and a destination are drawn at
//! random, a route is planned, and a thread is created for the vehicle.

use crate::bfs::{in_grid, near, reaches};
use crate::city::{BlockKind, City, Coord, VehicleId, VehicleKind};
use crate::grid::{find_cells, lemma_matching_cell_in_grid, matching_cells, CellQuery};
use crate::sched::{MyThreadId, SchedPolicy};
use crate::scheduler::Scheduler;
use crate::threads::my_thread_create;
use crate::vehicle::Vehicle;
use rand::rngs::ThreadRng;
use rand::Rng;
use vstd::prelude::*;

verus! {

/// The thread-local generator of `rand`.
#[verifier::external_type_specification]
#[verifier::external_body]
pub struct ExThreadRng(rand::rngs::ThreadRng);

/// `rand::thread_rng`: a handle to the generator of the calling thread.
/// Nothing is claimed of it.
#[verifier::external_body]
fn thread_generator() -> ThreadRng {
    rand::thread_rng()
}

/// `Rng::gen_range` on `0..n`: some number below `n`. The range must not
/// be empty, or the call panics.
#[verifier::external_body]
fn draw_below(rng: &mut ThreadRng, n: usize) -> (i: usize)
    requires
        n > 0,
    ensures
        i < n,
{
    rng.gen_range(0..n)
}

/// Whether `route` is what planning from `start` towards `dest` may give:
/// `start` alone when it is at the destination or next to it, else a
/// shortest route that reaches the destination, or nothing when no route
/// does.
pub open spec fn is_plan(
    city: City,
    kind: VehicleKind,
    start: Coord,
    dest: Coord,
    route: Seq<Coord>,
) -> bool {
    if near(start, dest) {
        route == seq![start]
    } else if route.len() == 0 {
        forall|path: Seq<Coord>| !reaches(city, kind, start, dest, path)
    } else {
        &&& reaches(city, kind, start, dest, route)
        &&& forall|other: Seq<Coord>| #[trigger]
            reaches(city, kind, start, dest, other) ==> route.len() <= other.len()
    }
}

/// The policy under which the vehicles of a kind run: trucks in real
/// time by their deadline, ambulances by lottery with 50 tickets, cars
/// and boats in turn.
pub open spec fn policy_of(kind: VehicleKind, deadline: u64) -> SchedPolicy {
    match kind {
        VehicleKind::TruckWater | VehicleKind::TruckRadioactive => SchedPolicy::RealTime {
            deadline,
        },
        VehicleKind::Ambulance => SchedPolicy::Lottery { tickets: 50 },
        _ => SchedPolicy::RoundRobin,
    }
}

/// The cells to which the vehicles of a kind go: cars to shops,
/// ambulances to hospitals, trucks to nuclear plants, boats to docks.
pub open spec fn destination_of(kind: VehicleKind) -> CellQuery {
    match kind {
        VehicleKind::Car => CellQuery::Kind(BlockKind::Shop),
        VehicleKind::Ambulance => CellQuery::Kind(BlockKind::Hospital),
        VehicleKind::TruckWater | VehicleKind::TruckRadioactive => CellQuery::Kind(
            BlockKind::NuclearPlant,
        ),
        VehicleKind::Boat => CellQuery::Kind(BlockKind::Dock),
    }
}

/// Plans the vehicle `id` from `start` to `dest` and creates a thread for
/// it under `policy`. The result is the identifier of the thread and the
/// vehicle, which the thread is to drive.
pub fn spawn_vehicle(
    sched: &mut Scheduler,
    city: &City,
    id: VehicleId,
    kind: VehicleKind,
    start: Coord,
    dest: Coord,
    policy: SchedPolicy,
) -> (r: (MyThreadId, Vehicle))
    requires
        city.wf(),
        near(start, dest) || in_grid(*city, start),
    ensures
        r.1.id == id,
        r.1.kind == kind,
        is_plan(*city, kind, start, dest, r.1.route@),
        final(sched)@ == old(sched)@.create_thread(policy),
        r.0 == old(sched)@.ensure_main_thread().threads.len(),
        old(sched)@.wf() ==> final(sched)@.wf(),
        old(sched)@.inv() ==> final(sched)@.inv(),
{
    let vehicle = Vehicle::new(id, kind, start, dest, city);
    let tid = my_thread_create(sched, policy);
    (tid, vehicle)
}

/// Draws a spawn cell and a destination for a vehicle of kind `kind`,
/// plans its route and creates its thread.
fn call_vehicle(
    sched: &mut Scheduler,
    city: &City,
    id: VehicleId,
    kind: VehicleKind,
    deadline: u64,
) -> (r: (MyThreadId, Vehicle))
    requires
        city.wf(),
        matching_cells(*city, CellQuery::Spawn, city@.len() as int).len() > 0,
        matching_cells(*city, destination_of(kind), city@.len() as int).len() > 0,
    ensures
        called(*city, old(sched)@, final(sched)@, id, kind, deadline, r.0, r.1),
        old(sched)@.wf() ==> final(sched)@.wf(),
        old(sched)@.inv() ==> final(sched)@.inv(),
{
    let spawns = find_cells(city, CellQuery::Spawn);
    let query = match kind {
        VehicleKind::Car => CellQuery::Kind(BlockKind::Shop),
        VehicleKind::Ambulance => CellQuery::Kind(BlockKind::Hospital),
        VehicleKind::TruckWater | VehicleKind::TruckRadioactive => CellQuery::Kind(
            BlockKind::NuclearPlant,
        ),
        VehicleKind::Boat => CellQuery::Kind(BlockKind::Dock),
    };
    let dests = find_cells(city, query);
    let mut rng = thread_generator();
    let spawn_place = draw_below(&mut rng, spawns.len());
    let dest_place = draw_below(&mut rng, dests.len());
    let policy = match kind {
        VehicleKind::TruckWater | VehicleKind::TruckRadioactive => SchedPolicy::RealTime {
            deadline,
        },
        VehicleKind::Ambulance => SchedPolicy::Lottery { tickets: 50 },
        _ => SchedPolicy::RoundRobin,
    };
    proof {
        lemma_matching_cell_in_grid(*city, CellQuery::Spawn, spawn_place as int);
    }
    spawn_vehicle(sched, city, id, kind, spawns[spawn_place], dests[dest_place], policy)
}

/// What calling a vehicle of kind `kind` comes to: a thread under the
/// policy of that kind was created, and the vehicle has a plan from some
/// spawn cell to some destination of its kind.
pub open spec fn called(
    city: City,
    before: crate::sched::SchedulerView,
    after: crate::sched::SchedulerView,
    id: VehicleId,
    kind: VehicleKind,
    deadline: u64,
    tid: MyThreadId,
    vehicle: Vehicle,
) -> bool {
    let spawns = matching_cells(city, CellQuery::Spawn, city@.len() as int);
    let dests = matching_cells(city, destination_of(kind), city@.len() as int);
    &&& vehicle.id == id
    &&& vehicle.kind == kind
    &&& exists|i: int, j: int|
        0 <= i < spawns.len() && 0 <= j < dests.len() && is_plan(
            city,
            kind,
            #[trigger] spawns[i],
            #[trigger] dests[j],
            vehicle.route@,
        )
    &&& after == before.create_thread(policy_of(kind, deadline))
    &&& tid == before.ensure_main_thread().threads.len()
}

/// Calls a car: from a spawn cell to a shop, scheduled in turn.
pub fn call_car(sched: &mut Scheduler, city: &City, id: VehicleId) -> (r: (MyThreadId, Vehicle))
    requires
        city.wf(),
        matching_cells(*city, CellQuery::Spawn, city@.len() as int).len() > 0,
        matching_cells(*city, CellQuery::Kind(BlockKind::Shop), city@.len() as int).len() > 0,
    ensures
        called(*city, old(sched)@, final(sched)@, id, VehicleKind::Car, 0, r.0, r.1),
        old(sched)@.wf() ==> final(sched)@.wf(),
        old(sched)@.inv() ==> final(sched)@.inv(),
{
    call_vehicle(sched, city, id, VehicleKind::Car, 0)
}

/// Calls an ambulance: from a spawn cell to a hospital, scheduled by
/// lottery with 50 tickets.
pub fn call_ambulance(sched: &mut Scheduler, city: &City, id: VehicleId) -> (r: (
    MyThreadId,
    Vehicle,
))
    requires
        city.wf(),
        matching_cells(*city, CellQuery::Spawn, city@.len() as int).len() > 0,
        matching_cells(*city, CellQuery::Kind(BlockKind::Hospital), city@.len() as int).len() > 0,
    ensures
        called(*city, old(sched)@, final(sched)@, id, VehicleKind::Ambulance, 0, r.0, r.1),
        old(sched)@.wf() ==> final(sched)@.wf(),
        old(sched)@.inv() ==> final(sched)@.inv(),
{
    call_vehicle(sched, city, id, VehicleKind::Ambulance, 0)
}

/// Calls a water truck: from a spawn cell to a nuclear plant, scheduled
/// in real time by `deadline`.
pub fn call_truck_water(sched: &mut Scheduler, city: &City, id: VehicleId, deadline: u64) -> (r: (
    MyThreadId,
    Vehicle,
))
    requires
        city.wf(),
        matching_cells(*city, CellQuery::Spawn, city@.len() as int).len() > 0,
        matching_cells(*city, CellQuery::Kind(BlockKind::NuclearPlant), city@.len() as int).len()
            > 0,
    ensures
        called(
            *city,
            old(sched)@,
            final(sched)@,
            id,
            VehicleKind::TruckWater,
            deadline,
            r.0,
            r.1,
        ),
        old(sched)@.wf() ==> final(sched)@.wf(),
        old(sched)@.inv() ==> final(sched)@.inv(),
{
    call_vehicle(sched, city, id, VehicleKind::TruckWater, deadline)
}

/// Calls a truck of radioactive material: from a spawn cell to a nuclear
/// plant, scheduled in real time by `deadline`.
pub fn call_truck_radioactive(
    sched: &mut Scheduler,
    city: &City,
    id: VehicleId,
    deadline: u64,
) -> (r: (MyThreadId, Vehicle))
    requires
        city.wf(),
        matching_cells(*city, CellQuery::Spawn, city@.len() as int).len() > 0,
        matching_cells(*city, CellQuery::Kind(BlockKind::NuclearPlant), city@.len() as int).len()
            > 0,
    ensures
        called(
            *city,
            old(sched)@,
            final(sched)@,
            id,
            VehicleKind::TruckRadioactive,
            deadline,
            r.0,
            r.1,
        ),
        old(sched)@.wf() ==> final(sched)@.wf(),
        old(sched)@.inv() ==> final(sched)@.inv(),
{
    call_vehicle(sched, city, id, VehicleKind::TruckRadioactive, deadline)
}

} // verus!
