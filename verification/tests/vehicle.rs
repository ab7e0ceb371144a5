use threadcity::city::{Block, City, Coord, Direction, Directions, VehicleKind};
use threadcity::matrix::Matrix;
use threadcity::sched::{BlockReason, Dispatch, MyThreadId, SchedPolicy, ThreadState};
use threadcity::scheduler::Scheduler;
use threadcity::threads::{my_thread_create, my_thread_end, my_thread_join, JoinOutcome};
use threadcity::vehicle::{vehicle_step, Phase, StepOutcome, Vehicle, VehicleRun};

fn all_ways() -> Directions {
    Directions { north: true, south: true, east: true, west: true }
}

fn field(rows: usize, cols: usize, dirs: Directions) -> City {
    let mut city: City = Matrix::new(rows, cols);
    for r in 0..rows {
        for c in 0..cols {
            let mut block = Block::new();
            block.set_directions(dirs);
            city.set(r, c, block);
        }
    }
    city
}

fn vehicle(id: usize, route: Vec<Coord>) -> VehicleRun {
    VehicleRun::new(Vehicle { id, kind: VehicleKind::Car, route })
}

fn scheduler_with_main() -> Scheduler {
    let mut s = Scheduler::new();
    s.ensure_main_thread();
    s
}

/// At most one cell per occupant, and every occupied cell is locked.
fn assert_grid_in_order(city: &City) {
    let mut seen = Vec::new();
    for block in city.as_slice() {
        let lock = block.get_lock();
        assert_eq!(lock.is_locked(), lock.owner().is_some());
        assert!(lock.waiter_count() == 0 || lock.is_locked());
        if let Some(id) = block.get_occupant() {
            assert!(lock.is_locked(), "vehicle {} stands on an unlocked cell", id);
            assert!(!seen.contains(&id), "vehicle {} stands on two cells", id);
            seen.push(id);
        }
    }
}

#[test]
fn new_run_starts_fresh() {
    let run = vehicle(3, vec![(0, 0), (0, 1)]);
    assert_eq!(run.id, 3);
    assert_eq!(run.kind, VehicleKind::Car);
    assert_eq!(run.route, vec![(0, 0), (0, 1)]);
    assert_eq!(run.phase, Phase::Fresh);
}

#[test]
fn vehicle_without_route_ends_at_once() {
    let mut sched = scheduler_with_main();
    let mut city = field(2, 2, all_ways());
    let mut run = vehicle(1, vec![]);
    assert_eq!(vehicle_step(&mut sched, &mut city, &mut run), StepOutcome::EmptyRoute);
    assert_eq!(run.phase, Phase::Done);
    assert_eq!(vehicle_step(&mut sched, &mut city, &mut run), StepOutcome::Idle);
    assert_grid_in_order(&city);
}

#[test]
fn a_lone_vehicle_drives_its_route() {
    let mut sched = scheduler_with_main();
    let mut city = field(2, 3, all_ways());
    let mut run = vehicle(9, vec![(0, 0), (0, 1), (1, 1)]);

    assert_eq!(
        vehicle_step(&mut sched, &mut city, &mut run),
        StepOutcome::Locking(Dispatch::Stay)
    );
    assert_eq!((run.pos, run.phase), ((0, 0), Phase::Moving));
    assert_eq!(run.route, vec![(0, 1), (1, 1)]);
    assert_eq!(city.get(0, 0).get_occupant(), Some(9));
    assert_eq!(city.get(0, 0).get_lock().owner(), Some(0));
    assert_grid_in_order(&city);

    assert_eq!(
        vehicle_step(&mut sched, &mut city, &mut run),
        StepOutcome::Moved {
            from: (0, 0),
            to: (0, 1),
            dir: Direction::East,
            dispatch: Dispatch::Stay
        }
    );
    assert_eq!(run.pos, (0, 1));
    assert_eq!(city.get(0, 0).get_occupant(), None);
    assert!(!city.get(0, 0).get_lock().is_locked());
    assert_eq!(city.get(0, 1).get_occupant(), Some(9));
    assert_eq!(city.get(0, 1).get_lock().owner(), Some(0));
    assert_grid_in_order(&city);

    assert_eq!(
        vehicle_step(&mut sched, &mut city, &mut run),
        StepOutcome::Moved {
            from: (0, 1),
            to: (1, 1),
            dir: Direction::South,
            dispatch: Dispatch::Stay
        }
    );
    assert_eq!(vehicle_step(&mut sched, &mut city, &mut run), StepOutcome::Finished { at: (1, 1) });
    assert_eq!(run.phase, Phase::Done);
    for block in city.as_slice() {
        assert_eq!(block.get_occupant(), None);
        assert!(!block.get_lock().is_locked());
    }
    assert_eq!(vehicle_step(&mut sched, &mut city, &mut run), StepOutcome::Idle);
}

#[test]
fn a_jump_ends_the_route() {
    let mut sched = scheduler_with_main();
    let mut city = field(3, 3, all_ways());
    let mut run = vehicle(1, vec![(0, 0), (2, 2)]);
    vehicle_step(&mut sched, &mut city, &mut run);
    assert_eq!(
        vehicle_step(&mut sched, &mut city, &mut run),
        StepOutcome::NotAdjacent { from: (0, 0), to: (2, 2) }
    );
    assert_eq!(run.phase, Phase::Leaving);
    // the vehicle still stands on its cell and holds it
    assert_eq!(city.get(0, 0).get_occupant(), Some(1));
    assert!(city.get(0, 0).get_lock().is_locked());
    assert_grid_in_order(&city);
    assert_eq!(vehicle_step(&mut sched, &mut city, &mut run), StepOutcome::Finished { at: (0, 0) });
    assert_eq!(city.get(0, 0).get_occupant(), None);
    assert!(!city.get(0, 0).get_lock().is_locked());
    assert!(!city.get(2, 2).get_lock().is_locked());
}

#[test]
fn a_step_against_the_exits_ends_the_route() {
    let mut sched = scheduler_with_main();
    let mut city = field(1, 3, Directions::east());
    let mut run = vehicle(1, vec![(0, 1), (0, 0)]);
    vehicle_step(&mut sched, &mut city, &mut run);
    assert_eq!(
        vehicle_step(&mut sched, &mut city, &mut run),
        StepOutcome::Forbidden { from: (0, 1), to: (0, 0), dir: Direction::West }
    );
    assert!(!city.get(0, 0).get_lock().is_locked());
    assert_eq!(vehicle_step(&mut sched, &mut city, &mut run), StepOutcome::Finished { at: (0, 1) });
    assert_grid_in_order(&city);
}

#[test]
fn a_locked_cell_makes_the_vehicle_yield() {
    let mut sched = scheduler_with_main();
    let other = my_thread_create(&mut sched, SchedPolicy::RoundRobin);
    let mut city = field(1, 3, all_ways());
    let mut run = vehicle(1, vec![(0, 0), (0, 1)]);
    vehicle_step(&mut sched, &mut city, &mut run);
    // the other thread takes the next cell
    assert_eq!(sched.yield_current(), Dispatch::Switch { from: 0, to: other });
    assert_eq!(city.get_mut(0, 1).lock_block(&mut sched), Dispatch::Stay);
    assert_eq!(sched.yield_current(), Dispatch::Switch { from: other, to: 0 });

    assert_eq!(
        vehicle_step(&mut sched, &mut city, &mut run),
        StepOutcome::Contended {
            to: (0, 1),
            dir: Direction::East,
            dispatch: Dispatch::Switch { from: 0, to: other }
        }
    );
    assert_eq!((run.pos, run.phase), ((0, 0), Phase::Moving));
    assert_eq!(run.route, vec![(0, 1)]);
    assert_eq!(city.get(0, 1).get_lock().owner(), Some(other));
    assert_eq!(city.get(0, 1).get_lock().waiter_count(), 0);
    assert_eq!(city.get(0, 0).get_occupant(), Some(1));
    assert_grid_in_order(&city);
}

#[test]
fn an_occupied_free_cell_is_given_back() {
    let mut sched = scheduler_with_main();
    let mut city = field(1, 3, all_ways());
    let mut run = vehicle(1, vec![(0, 0), (0, 1)]);
    vehicle_step(&mut sched, &mut city, &mut run);
    // somebody stands on the next cell without holding its lock
    city.get_mut(0, 1).set_occupant(Some(77));
    assert_eq!(
        vehicle_step(&mut sched, &mut city, &mut run),
        StepOutcome::Occupied { to: (0, 1), dispatch: Dispatch::Stay }
    );
    assert_eq!(city.get(0, 1).get_occupant(), Some(77));
    assert!(!city.get(0, 1).get_lock().is_locked());
    assert_eq!(city.get(0, 0).get_occupant(), Some(1));
    assert_eq!(run.pos, (0, 0));
    assert_eq!(run.route, vec![(0, 1)]);
}

#[test]
fn a_vehicle_waits_for_its_first_cell() {
    let mut sched = scheduler_with_main();
    let other = my_thread_create(&mut sched, SchedPolicy::RoundRobin);
    let mut city = field(1, 2, all_ways());
    // main stands on the cell where the other vehicle wants to start
    let mut first = vehicle(1, vec![(0, 0)]);
    vehicle_step(&mut sched, &mut city, &mut first);
    assert_eq!(sched.yield_current(), Dispatch::Switch { from: 0, to: other });
    let mut second = vehicle(2, vec![(0, 0), (0, 1)]);
    assert_eq!(
        vehicle_step(&mut sched, &mut city, &mut second),
        StepOutcome::Locking(Dispatch::Switch { from: other, to: 0 })
    );
    assert_eq!(second.phase, Phase::Entering);
    assert_eq!(second.pos, (0, 0));
    assert_eq!(city.get(0, 0).get_occupant(), Some(1));
    assert_eq!(city.get(0, 0).get_lock().waiter(0), Some(other));
    assert_eq!(sched.get_thread(other).unwrap().state, ThreadState::Blocked);
    assert_eq!(sched.get_thread(other).unwrap().block_reason, Some(BlockReason::Mutex));
    assert_grid_in_order(&city);

    // the first vehicle leaves: the cell passes to the waiting thread
    assert_eq!(vehicle_step(&mut sched, &mut city, &mut first), StepOutcome::Finished { at: (0, 0) });
    assert_eq!(city.get(0, 0).get_occupant(), None);
    assert_eq!(city.get(0, 0).get_lock().owner(), Some(other));
    assert_eq!(sched.get_thread(other).unwrap().state, ThreadState::Ready);
    assert_grid_in_order(&city);

    assert_eq!(sched.yield_current(), Dispatch::Switch { from: 0, to: other });
    assert_eq!(vehicle_step(&mut sched, &mut city, &mut second), StepOutcome::Entered);
    assert_eq!(second.phase, Phase::Moving);
    assert_eq!(city.get(0, 0).get_occupant(), Some(2));
    assert_grid_in_order(&city);
}

/// Drives every vehicle on a thread of its own until the main thread has
/// joined them all; returns what every step came to.
fn drive(
    sched: &mut Scheduler,
    city: &mut City,
    runs: &mut Vec<(MyThreadId, VehicleRun)>,
) -> Vec<(usize, StepOutcome)> {
    let mut log = Vec::new();
    let mut next_join = 0;
    let mut steps = 0;
    loop {
        steps += 1;
        assert!(steps < 100_000, "the vehicles do not arrive");
        assert_grid_in_order(city);
        let cur = sched.current_thread_id().unwrap();
        if cur == 0 {
            if next_join == runs.len() {
                return log;
            }
            let target = runs[next_join].0;
            next_join += 1;
            match my_thread_join(sched, target) {
                JoinOutcome::Value(_) | JoinOutcome::Wait(Dispatch::Switch { .. }) => {}
                other => panic!("join came to {:?}", other),
            }
            continue;
        }
        let (_, run) = runs.iter_mut().find(|(tid, _)| *tid == cur).unwrap();
        let before = run.pos;
        let outcome = vehicle_step(sched, city, run);
        log.push((run.id, outcome));
        match outcome {
            StepOutcome::Moved { from, to, .. } => {
                assert_eq!(from, before);
                assert_eq!(run.pos, to);
                assert_eq!(city.get(to.0, to.1).get_occupant(), Some(run.id));
                assert_eq!(city.get(to.0, to.1).get_lock().owner(), Some(cur));
                assert_eq!(city.get(from.0, from.1).get_occupant(), None);
            }
            StepOutcome::Contended { to, .. } => {
                assert_eq!(run.pos, before);
                assert!(city.get(to.0, to.1).get_lock().is_locked());
                assert_ne!(city.get(to.0, to.1).get_lock().owner(), Some(cur));
                assert_eq!(city.get(before.0, before.1).get_occupant(), Some(run.id));
            }
            StepOutcome::Finished { .. } | StepOutcome::EmptyRoute => {
                match my_thread_end(sched, 0) {
                    Dispatch::Switch { .. } => {}
                    other => panic!("a vehicle thread ended with {:?}", other),
                }
            }
            StepOutcome::Occupied { .. } => panic!("an unlocked cell was occupied"),
            _ => {}
        }
    }
}

#[test]
fn grid_move_under_contention() {
    // the routes cross at X = (1, 1)
    let mut sched = scheduler_with_main();
    let mut city = field(3, 3, all_ways());
    let mut runs = Vec::new();
    let routes = [vec![(1, 0), (1, 1), (1, 2)], vec![(0, 1), (1, 1), (2, 1)]];
    for (i, route) in routes.into_iter().enumerate() {
        let tid = my_thread_create(&mut sched, SchedPolicy::RoundRobin);
        runs.push((tid, vehicle(100 + i, route)));
    }
    let log = drive(&mut sched, &mut city, &mut runs);

    // the first vehicle reaches X first; the second finds it locked and yields
    let first_on_x = log
        .iter()
        .position(|(_, o)| matches!(o, StepOutcome::Moved { to: (1, 1), .. }))
        .unwrap();
    assert_eq!(log[first_on_x].0, 100);
    let contended: Vec<usize> = log
        .iter()
        .filter(|(_, o)| matches!(o, StepOutcome::Contended { to: (1, 1), .. }))
        .map(|(id, _)| *id)
        .collect();
    assert_eq!(contended, vec![101]);
    let second_on_x = log
        .iter()
        .position(|(id, o)| *id == 101 && matches!(o, StepOutcome::Moved { to: (1, 1), .. }))
        .unwrap();
    assert!(second_on_x > first_on_x);
    // both arrive
    let finished: Vec<(usize, Coord)> = log
        .iter()
        .filter_map(|(id, o)| match o {
            StepOutcome::Finished { at } => Some((*id, *at)),
            _ => None,
        })
        .collect();
    assert_eq!(finished, vec![(100, (1, 2)), (101, (2, 1))]);
    for block in city.as_slice() {
        assert_eq!(block.get_occupant(), None);
        assert!(!block.get_lock().is_locked());
    }
    for (tid, run) in &runs {
        assert_eq!(run.phase, Phase::Done);
        assert_eq!(sched.get_thread(*tid).unwrap().state, ThreadState::Finished);
    }
}

#[test]
fn many_vehicles_on_a_ring_all_arrive() {
    // a ring road around a 4 x 4 grid, driven clockwise
    let mut sched = scheduler_with_main();
    let mut city = field(4, 4, all_ways());
    let ring: Vec<Coord> = vec![
        (0, 0), (0, 1), (0, 2), (0, 3), (1, 3), (2, 3), (3, 3), (3, 2), (3, 1), (3, 0), (2, 0),
        (1, 0),
    ];
    let policies = [
        SchedPolicy::RoundRobin,
        SchedPolicy::Lottery { tickets: 50 },
        SchedPolicy::RealTime { deadline: 15 },
        SchedPolicy::RoundRobin,
        SchedPolicy::RealTime { deadline: 10 },
        SchedPolicy::Lottery { tickets: 0 },
    ];
    let mut runs = Vec::new();
    for (i, policy) in policies.into_iter().enumerate() {
        let mut route = Vec::new();
        for k in 0..9 {
            route.push(ring[(2 * i + k) % ring.len()]);
        }
        let tid = my_thread_create(&mut sched, policy);
        runs.push((tid, vehicle(i + 1, route)));
    }
    let log = drive(&mut sched, &mut city, &mut runs);
    let finished = log.iter().filter(|(_, o)| matches!(o, StepOutcome::Finished { .. })).count();
    assert_eq!(finished, 6);
    // real time first, by deadline; then the lottery threads; then round robin
    let order: Vec<usize> = log
        .iter()
        .filter(|(_, o)| matches!(o, StepOutcome::Finished { .. }))
        .map(|(id, _)| *id)
        .collect();
    assert_eq!(order[..2], [5, 3]);
    assert!(order[2..4].contains(&2) && order[2..4].contains(&6));
    assert!(order[4..].contains(&1) && order[4..].contains(&4));
    for block in city.as_slice() {
        assert_eq!(block.get_occupant(), None);
        assert!(!block.get_lock().is_locked());
    }
}
