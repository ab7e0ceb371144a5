//! The grid city: cells with a kind, allowed exits, an occupant and a lock
//! of their own.

use crate::matrix::Matrix;
use crate::mutex::{my_mutex_lock, my_mutex_unlock, MutexView, MyMutex};
use crate::sched::Dispatch;
use crate::scheduler::Scheduler;
use vstd::prelude::*;

verus! {

/// A cell of the grid as `(row, column)`.
pub type Coord = (usize, usize);

/// The identifier of a vehicle inside the simulation.
pub type VehicleId = usize;

/// The largest number of vehicles that move at the same time.
pub const MAX_VEHICLES: usize = 10;

/// The number of vehicles of a whole simulation.
pub const TOTAL_VEHICLES: usize = 25;

/// The kinds of vehicle.
#[derive(Copy, Clone, Hash, Debug, PartialEq, Eq, Structural)]
pub enum VehicleKind {
    Car,
    Ambulance,
    TruckWater,
    TruckRadioactive,
    Boat,
}

impl VehicleKind {
    /// The name of the kind: the identifier of its variant.
    pub open spec fn name_spec(self) -> Seq<char> {
        match self {
            VehicleKind::Car => "Car"@,
            VehicleKind::Ambulance => "Ambulance"@,
            VehicleKind::TruckWater => "TruckWater"@,
            VehicleKind::TruckRadioactive => "TruckRadioactive"@,
            VehicleKind::Boat => "Boat"@,
        }
    }

    /// The name of the kind, for messages.
    pub fn name(&self) -> (s: &'static str)
        ensures
            s@ == self.name_spec(),
    {
        match self {
            VehicleKind::Car => "Car",
            VehicleKind::Ambulance => "Ambulance",
            VehicleKind::TruckWater => "TruckWater",
            VehicleKind::TruckRadioactive => "TruckRadioactive",
            VehicleKind::Boat => "Boat",
        }
    }
}

/// What stands on a cell.
#[derive(Copy, Clone, Hash, Debug, PartialEq, Eq, Structural)]
pub enum BlockKind {
    /// Roads and bridges.
    Path,
    Building,
    River,
    Shop,
    NuclearPlant,
    Hospital,
    Dock,
}

/// The special role of a cell.
#[derive(Copy, Clone, Hash, Debug, PartialEq, Eq, Structural)]
pub enum BlockTask {
    Spawn,
    TrafficLight,
    Yield,
    Drawbridge,
}

/// The exits that a cell allows.
#[derive(Copy, Clone, Hash, Debug, PartialEq, Eq, Structural)]
pub struct Directions {
    pub north: bool,
    pub south: bool,
    pub east: bool,
    pub west: bool,
}

impl Directions {
    pub fn north() -> (d: Self)
        ensures
            d == (Directions { north: true, south: false, east: false, west: false }),
    {
        Directions { north: true, south: false, east: false, west: false }
    }

    pub fn south() -> (d: Self)
        ensures
            d == (Directions { north: false, south: true, east: false, west: false }),
    {
        Directions { north: false, south: true, east: false, west: false }
    }

    pub fn east() -> (d: Self)
        ensures
            d == (Directions { north: false, south: false, east: true, west: false }),
    {
        Directions { north: false, south: false, east: true, west: false }
    }

    pub fn west() -> (d: Self)
        ensures
            d == (Directions { north: false, south: false, east: false, west: true }),
    {
        Directions { north: false, south: false, east: false, west: true }
    }

    pub fn north_east() -> (d: Self)
        ensures
            d == (Directions { north: true, south: false, east: true, west: false }),
    {
        Directions { north: true, south: false, east: true, west: false }
    }

    pub fn north_west() -> (d: Self)
        ensures
            d == (Directions { north: true, south: false, east: false, west: true }),
    {
        Directions { north: true, south: false, east: false, west: true }
    }

    pub fn south_east() -> (d: Self)
        ensures
            d == (Directions { north: false, south: true, east: true, west: false }),
    {
        Directions { north: false, south: true, east: true, west: false }
    }

    pub fn south_west() -> (d: Self)
        ensures
            d == (Directions { north: false, south: true, east: false, west: true }),
    {
        Directions { north: false, south: true, east: false, west: true }
    }

    pub fn north_south_west() -> (d: Self)
        ensures
            d == (Directions { north: true, south: true, east: false, west: true }),
    {
        Directions { north: true, south: true, east: false, west: true }
    }

    pub fn none() -> (d: Self)
        ensures
            d == (Directions { north: false, south: false, east: false, west: false }),
    {
        Directions { north: false, south: false, east: false, west: false }
    }

    /// Whether the exit towards `direction` is allowed.
    pub open spec fn allows(self, direction: Direction) -> bool {
        match direction {
            Direction::North => self.north,
            Direction::South => self.south,
            Direction::East => self.east,
            Direction::West => self.west,
        }
    }
}

/// A cardinal direction. North is towards row `0`, west towards column `0`.
#[derive(Copy, Clone, Debug, PartialEq, Eq, Structural)]
pub enum Direction {
    North,
    South,
    East,
    West,
}

impl Direction {
    /// The name of the direction: the identifier of its variant.
    pub open spec fn name_spec(self) -> Seq<char> {
        match self {
            Direction::North => "North"@,
            Direction::South => "South"@,
            Direction::East => "East"@,
            Direction::West => "West"@,
        }
    }

    /// The name of the direction, for messages.
    pub fn name(&self) -> (s: &'static str)
        ensures
            s@ == self.name_spec(),
    {
        match self {
            Direction::North => "North",
            Direction::South => "South",
            Direction::East => "East",
            Direction::West => "West",
        }
    }
}

/// A cell of the grid.
#[derive(Debug)]
pub struct Block {
    pub kind: BlockKind,
    pub task: Option<BlockTask>,
    /// The exits allowed from this cell.
    pub dirs: Directions,
    pub occupant: Option<VehicleId>,
    pub lock: MyMutex,
}

/// The mathematical state of a cell.
pub struct BlockView {
    pub kind: BlockKind,
    pub task: Option<BlockTask>,
    pub dirs: Directions,
    pub occupant: Option<VehicleId>,
    pub lock: MutexView,
}

impl View for Block {
    type V = BlockView;

    open spec fn view(&self) -> BlockView {
        BlockView {
            kind: self.kind,
            task: self.task,
            dirs: self.dirs,
            occupant: self.occupant,
            lock: self.lock@,
        }
    }
}

impl Block {
    /// Whether the cell is a plain path without task, exit or occupant,
    /// its lock free.
    pub open spec fn is_blank(&self) -> bool {
        &&& self.kind == BlockKind::Path
        &&& self.task is None
        &&& self.dirs == (Directions { north: false, south: false, east: false, west: false })
        &&& self.occupant is None
        &&& self.lock@ == MutexView::free()
    }

    /// A plain path without task, exit or occupant.
    pub fn new() -> (b: Self)
        ensures
            b.is_blank(),
    {
        Block {
            kind: BlockKind::Path,
            task: None,
            dirs: Directions { north: false, south: false, east: false, west: false },
            occupant: None,
            lock: MyMutex::new(),
        }
    }

    pub fn get_kind(&self) -> (k: BlockKind)
        ensures
            k == self.kind,
    {
        self.kind
    }

    pub fn get_task(&self) -> (t: Option<BlockTask>)
        ensures
            t == self.task,
    {
        self.task
    }

    pub fn get_occupant(&self) -> (o: Option<VehicleId>)
        ensures
            o == self.occupant,
    {
        self.occupant
    }

    pub fn get_lock(&self) -> (l: &MyMutex)
        ensures
            *l == self.lock,
    {
        &self.lock
    }

    pub fn set_kind(&mut self, kind: BlockKind)
        ensures
            *final(self) == (Block { kind, ..*old(self) }),
    {
        self.kind = kind;
    }

    pub fn set_task(&mut self, task: Option<BlockTask>)
        ensures
            *final(self) == (Block { task, ..*old(self) }),
    {
        self.task = task;
    }

    pub fn set_occupant(&mut self, occupant: Option<VehicleId>)
        ensures
            *final(self) == (Block { occupant, ..*old(self) }),
    {
        self.occupant = occupant;
    }

    pub fn set_lock(&mut self, lock: MyMutex)
        ensures
            *final(self) == (Block { lock, ..*old(self) }),
    {
        self.lock = lock;
    }

    /// Takes the lock of the cell for the current thread, or queues the
    /// thread for it: what [`my_mutex_lock`] does on the cell's own lock.
    pub fn lock_block(&mut self, sched: &mut Scheduler) -> (d: Dispatch)
        requires
            old(sched)@.wf(),
            old(sched)@.current is Some,
        ensures
            final(self).kind == old(self).kind,
            final(self).task == old(self).task,
            final(self).dirs == old(self).dirs,
            final(self).occupant == old(self).occupant,
            !old(self).lock@.locked ==> {
                &&& d == Dispatch::Stay
                &&& final(self).lock@ == old(self).lock@.held_by(old(sched)@.current->0)
                &&& final(sched)@ == old(sched)@
            },
            old(self).lock@.locked ==> {
                &&& d == old(sched)@.block_dispatch(crate::sched::BlockReason::Mutex)
                &&& final(self).lock@ == MutexView {
                    waiters: old(self).lock@.waiters.push(old(sched)@.current->0),
                    ..old(self).lock@
                }
                &&& final(sched)@ == old(sched)@.block_current(crate::sched::BlockReason::Mutex)
            },
            final(sched)@.wf(),
            old(self).lock@.wf() ==> final(self).lock@.wf(),
    {
        my_mutex_lock(sched, &mut self.lock)
    }

    /// Releases the lock of the cell: what [`my_mutex_unlock`] does on the
    /// cell's own lock. The result is `0` exactly when the current thread
    /// was the owner.
    pub fn unlock_block(&mut self, sched: &mut Scheduler) -> (rc: i32)
        requires
            old(sched)@.current is Some,
        ensures
            final(self).kind == old(self).kind,
            final(self).task == old(self).task,
            final(self).dirs == old(self).dirs,
            final(self).occupant == old(self).occupant,
            rc == 0 <==> old(self).lock@.owner == old(sched)@.current,
            rc != 0 ==> final(self).lock@ == old(self).lock@ && final(sched)@ == old(sched)@,
            rc == 0 ==> final(self).lock@ == old(self).lock@.released(),
            rc == 0 && old(self).lock@.waiters.len() > 0 ==> final(sched)@ == old(sched)@.unblock(
                old(self).lock@.waiters[0],
            ),
            rc == 0 && old(self).lock@.waiters.len() == 0 ==> final(sched)@ == old(sched)@,
            old(self).lock@.wf() ==> final(self).lock@.wf(),
    {
        my_mutex_unlock(sched, &mut self.lock)
    }

    pub fn get_directions(&self) -> (d: Directions)
        ensures
            d == self.dirs,
    {
        self.dirs
    }

    pub fn get_north(&self) -> (b: bool)
        ensures
            b == self.dirs.north,
    {
        self.dirs.north
    }

    pub fn get_south(&self) -> (b: bool)
        ensures
            b == self.dirs.south,
    {
        self.dirs.south
    }

    pub fn get_east(&self) -> (b: bool)
        ensures
            b == self.dirs.east,
    {
        self.dirs.east
    }

    pub fn get_west(&self) -> (b: bool)
        ensures
            b == self.dirs.west,
    {
        self.dirs.west
    }

    pub fn set_directions(&mut self, directions: Directions)
        ensures
            *final(self) == (Block { dirs: directions, ..*old(self) }),
    {
        self.dirs = directions;
    }

    pub fn set_north(&mut self, value: bool)
        ensures
            *final(self) == (Block { dirs: Directions { north: value, ..old(self).dirs }, ..*old(self) }),
    {
        self.dirs.north = value;
    }

    pub fn set_south(&mut self, value: bool)
        ensures
            *final(self) == (Block { dirs: Directions { south: value, ..old(self).dirs }, ..*old(self) }),
    {
        self.dirs.south = value;
    }

    pub fn set_east(&mut self, value: bool)
        ensures
            *final(self) == (Block { dirs: Directions { east: value, ..old(self).dirs }, ..*old(self) }),
    {
        self.dirs.east = value;
    }

    pub fn set_west(&mut self, value: bool)
        ensures
            *final(self) == (Block { dirs: Directions { west: value, ..old(self).dirs }, ..*old(self) }),
    {
        self.dirs.west = value;
    }

    /// Whether a vehicle may leave the cell towards `direction`.
    pub fn allows_direction(&self, direction: Direction) -> (b: bool)
        ensures
            b == self.dirs.allows(direction),
    {
        match direction {
            Direction::North => self.get_north(),
            Direction::South => self.get_south(),
            Direction::East => self.get_east(),
            Direction::West => self.get_west(),
        }
    }
}

impl Default for Block {
    fn default() -> (b: Self)
        ensures
            b.is_blank(),
    {
        Block::new()
    }
}

impl Clone for Block {
    /// A cell of the same kind, task and exits; the copy has no occupant
    /// and a free lock of its own.
    fn clone(&self) -> (b: Self)
        ensures
            b.kind == self.kind,
            b.task == self.task,
            b.dirs == self.dirs,
            b.occupant is None,
            b.lock@ == MutexView::free(),
    {
        Block {
            kind: self.kind,
            task: self.task,
            dirs: self.dirs,
            occupant: None,
            lock: MyMutex::new(),
        }
    }
}

/// The direction of the step from `a` to `b`, if `b` is the cell next to
/// `a` in one of the four cardinal directions.
pub open spec fn direction_between(a: Coord, b: Coord) -> Option<Direction> {
    let dy = b.0 as int - a.0 as int;
    let dx = b.1 as int - a.1 as int;
    if dy == -1 && dx == 0 {
        Some(Direction::North)
    } else if dy == 1 && dx == 0 {
        Some(Direction::South)
    } else if dy == 0 && dx == 1 {
        Some(Direction::East)
    } else if dy == 0 && dx == -1 {
        Some(Direction::West)
    } else {
        None
    }
}

/// The direction of the step from `a` to `b`; `None` for a diagonal, a
/// jump or no move at all.
pub fn direction_from_to(a: Coord, b: Coord) -> (d: Option<Direction>)
    ensures
        d == direction_between(a, b),
{
    if b.1 == a.1 {
        if a.0 > 0 && b.0 == a.0 - 1 {
            Some(Direction::North)
        } else if b.0 > 0 && b.0 - 1 == a.0 {
            Some(Direction::South)
        } else {
            None
        }
    } else if b.0 == a.0 {
        if b.1 > 0 && b.1 - 1 == a.1 {
            Some(Direction::East)
        } else if a.1 > 0 && b.1 == a.1 - 1 {
            Some(Direction::West)
        } else {
            None
        }
    } else {
        None
    }
}

/// The grid of the city.
pub type City = Matrix<Block>;

} // verus!
