use threadcity::bfs::bfs_path;
use threadcity::city::{direction_from_to, Block, BlockKind, City, Coord, Directions, VehicleKind};
use threadcity::grid::{build_city, is_valid_position_for_vehicle};
use threadcity::matrix::Matrix;

const PLAN: [&str; 20] = [
    "↘→→→→→↗→→↘→→→→→↗",
    "↓bbsbb↑bb↓bbbbb↑",
    "↓bbbbb↑bb↓bbbbb↑",
    "↙←←←←←↖←←↙←←←←←↖",
    "↓bbbbb↑bb↓bsbbb↑",
    "↓bbbbb↑bb↓bbbbb↑",
    "↘→→→→→↗→→↘→→→→→↗",
    "↓bsbbb↑bb↓bbhbb↑",
    "↓bbbbb↑bb↓bbhbb↑",
    "↙←←←←←◁←←↙←←←←←↖",
    "↓bbdbb↑bb↓bbbbb↑",
    "↓rrrrr↑rr↓rrrrr↑",
    "↓rrrrr↑rr↓rrdrr↑",
    "↘→→→→→↗→→↘→→→→→↗",
    "↓bbbsb↑bb↓bnnbb↑",
    "↓bbbbb↑bb↓bnnbb↑",
    "↙←←←←←↖←←↙←←←←←↖",
    "↓bbbbb↑bb↓bbsbb↑",
    "↓bbbbb↑bb↓bbbbb↑",
    "↘→→→→→↗→→↘→→→→→↗",
];

fn city() -> City {
    let plan: Vec<Vec<char>> = PLAN.iter().map(|row| row.chars().collect()).collect();
    build_city(&plan)
}

fn distance(a: Coord, b: Coord) -> usize {
    a.0.abs_diff(b.0) + a.1.abs_diff(b.1)
}

/// The route is a walk of allowed steps from `start` that ends next to the
/// goal and comes near it only there.
fn assert_route(city: &City, route: &[Coord], start: Coord, goal: Coord, kind: VehicleKind) {
    assert!(route.len() >= 2);
    assert_eq!(route[0], start);
    assert!(distance(*route.last().unwrap(), goal) <= 1);
    for pair in route.windows(2) {
        let dir = direction_from_to(pair[0], pair[1]).expect("a unit step");
        assert!(city.get(pair[0].0, pair[0].1).allows_direction(dir));
        assert!(is_valid_position_for_vehicle(city, pair[1], kind));
    }
    for cell in &route[..route.len() - 1] {
        assert!(distance(*cell, goal) > 1);
    }
}

#[test]
fn start_next_to_the_goal_is_the_whole_route() {
    let city = city();
    assert_eq!(bfs_path(&city, (0, 3), (1, 3), VehicleKind::Car), Some(vec![(0, 3)]));
    assert_eq!(bfs_path(&city, (1, 3), (1, 3), VehicleKind::Car), Some(vec![(1, 3)]));
    // not even the grid is looked at
    assert_eq!(bfs_path(&city, (50, 50), (50, 51), VehicleKind::Boat), Some(vec![(50, 50)]));
}

#[test]
fn shortest_way_along_the_road() {
    let city = city();
    let route = bfs_path(&city, (0, 0), (1, 3), VehicleKind::Car).expect("a route");
    assert_eq!(route, vec![(0, 0), (0, 1), (0, 2), (0, 3)]);
    assert_route(&city, &route, (0, 0), (1, 3), VehicleKind::Car);
}

#[test]
fn one_way_streets_are_respected() {
    let city = city();
    // row 3 runs west, so from (3, 15) the shop at (4, 11) is reached along it
    let route = bfs_path(&city, (3, 15), (4, 11), VehicleKind::Car).expect("a route");
    assert_eq!(route, vec![(3, 15), (3, 14), (3, 13), (3, 12), (3, 11)]);
    // from (0, 0) one has to go around: east on row 0, south on column 9,
    // east on row 6, north on column 15, west on row 3
    let around = bfs_path(&city, (0, 0), (4, 11), VehicleKind::Car).expect("a route");
    assert_route(&city, &around, (0, 0), (4, 11), VehicleKind::Car);
    assert_eq!(*around.last().unwrap(), (3, 11));
    assert_eq!(around.len(), 29);
    assert!(around.contains(&(6, 15)));
    // nothing leads back up to the first row west of column 6
    assert_eq!(bfs_path(&city, (3, 0), (1, 3), VehicleKind::Car), None);
}

/// The number of cells of a shortest route from `start` to a cell next to
/// `goal`, found by relaxing every step of the grid until nothing changes.
fn shortest(city: &City, start: Coord, goal: Coord, kind: VehicleKind) -> Option<usize> {
    let (rows, cols) = city.dimensions();
    let mut dist = vec![vec![usize::MAX; cols]; rows];
    dist[start.0][start.1] = 1;
    let mut changed = true;
    while changed {
        changed = false;
        for r in 0..rows {
            for c in 0..cols {
                if dist[r][c] == usize::MAX {
                    continue;
                }
                let mut around = Vec::new();
                if r > 0 {
                    around.push((r - 1, c));
                }
                if c > 0 {
                    around.push((r, c - 1));
                }
                around.push((r + 1, c));
                around.push((r, c + 1));
                for next in around {
                    let dir = direction_from_to((r, c), next).unwrap();
                    if is_valid_position_for_vehicle(city, next, kind)
                        && city.get(r, c).allows_direction(dir)
                        && dist[next.0][next.1] > dist[r][c] + 1
                    {
                        dist[next.0][next.1] = dist[r][c] + 1;
                        changed = true;
                    }
                }
            }
        }
    }
    let mut best = None;
    for r in 0..rows {
        for c in 0..cols {
            if dist[r][c] != usize::MAX && distance((r, c), goal) <= 1 {
                best = Some(best.map_or(dist[r][c], |b: usize| b.min(dist[r][c])));
            }
        }
    }
    best
}

#[test]
fn routes_from_every_spawn_to_every_destination_are_shortest() {
    let city = city();
    let spawns = threadcity::grid::find_spawn_positions(&city);
    let mut goals = threadcity::grid::find_shops(&city);
    goals.extend(threadcity::grid::find_hospitals(&city));
    goals.extend(threadcity::grid::find_nuclear_plants(&city));
    goals.extend(threadcity::grid::find_docks(&city));
    let mut found = 0;
    let mut none = 0;
    for start in &spawns {
        for goal in &goals {
            if distance(*start, *goal) <= 1 {
                continue;
            }
            let expected = shortest(&city, *start, *goal, VehicleKind::Car);
            match bfs_path(&city, *start, *goal, VehicleKind::Car) {
                Some(route) => {
                    assert_route(&city, &route, *start, *goal, VehicleKind::Car);
                    assert_eq!(Some(route.len()), expected, "from {:?} to {:?}", start, goal);
                    found += 1;
                }
                None => {
                    assert_eq!(expected, None, "from {:?} to {:?}", start, goal);
                    none += 1;
                }
            }
        }
    }
    assert!(found > 0);
    assert!(none > 0);
}

#[test]
fn no_route_for_a_boat_on_the_road() {
    let city = city();
    assert_eq!(bfs_path(&city, (0, 0), (12, 12), VehicleKind::Boat), None);
}

#[test]
fn no_route_into_the_river() {
    let city = city();
    // every cell next to (11, 3) is river or dock, none is for cars
    assert_eq!(bfs_path(&city, (0, 0), (11, 3), VehicleKind::Car), None);
}

/// A grid of paths, every cell with the same exits.
fn open_field(rows: usize, cols: usize, dirs: Directions) -> City {
    let mut city: City = Matrix::new(rows, cols);
    for r in 0..rows {
        for c in 0..cols {
            let mut block = Block::new();
            block.set_directions(dirs);
            city.set(r, c, block);
        }
    }
    city
}

#[test]
fn search_is_breadth_first() {
    let all = Directions { north: true, south: true, east: true, west: true };
    let city = open_field(5, 5, all);
    let route = bfs_path(&city, (0, 0), (4, 4), VehicleKind::Car).expect("a route");
    assert_route(&city, &route, (0, 0), (4, 4), VehicleKind::Car);
    // seven steps lead next to the far corner, so the route has eight cells
    assert_eq!(route.len(), 8);
    // south is tried before east, so the route runs down the first column
    assert_eq!(route[1], (1, 0));
    assert_eq!(route, vec![(0, 0), (1, 0), (2, 0), (3, 0), (4, 0), (4, 1), (4, 2), (4, 3)]);
}

#[test]
fn walls_block_the_way() {
    let all = Directions { north: true, south: true, east: true, west: true };
    let mut city = open_field(3, 5, all);
    for r in 0..3 {
        city.get_mut(r, 2).set_kind(BlockKind::Building);
    }
    assert_eq!(bfs_path(&city, (1, 0), (1, 4), VehicleKind::Car), None);
    // a gap in the wall opens the only way
    city.get_mut(2, 2).set_kind(BlockKind::Path);
    let route = bfs_path(&city, (1, 0), (1, 4), VehicleKind::Car).expect("a route");
    assert_route(&city, &route, (1, 0), (1, 4), VehicleKind::Car);
    assert!(route.contains(&(2, 2)));
    assert_eq!(route, vec![(1, 0), (2, 0), (2, 1), (2, 2), (2, 3), (1, 3)]);
}

#[test]
fn exits_of_the_cell_one_leaves_decide() {
    // every cell lets out to the east only
    let city = open_field(2, 4, Directions::east());
    assert_eq!(
        bfs_path(&city, (0, 0), (0, 3), VehicleKind::Car),
        Some(vec![(0, 0), (0, 1), (0, 2)])
    );
    assert_eq!(bfs_path(&city, (0, 3), (0, 0), VehicleKind::Car), None);
    assert_eq!(bfs_path(&city, (0, 0), (1, 3), VehicleKind::Car), Some(vec![(0, 0), (0, 1), (0, 2), (0, 3)]));
}

#[test]
fn boats_travel_the_river() {
    let city = city();
    let route = bfs_path(&city, (11, 1), (12, 5), VehicleKind::Boat);
    // river cells allow no exit, so a boat cannot leave its cell
    assert_eq!(route, None);
    let mut wet = open_field(1, 5, Directions::east());
    for c in 0..5 {
        wet.get_mut(0, c).set_kind(BlockKind::River);
    }
    wet.get_mut(0, 4).set_kind(BlockKind::Dock);
    assert_eq!(
        bfs_path(&wet, (0, 0), (0, 4), VehicleKind::Boat),
        Some(vec![(0, 0), (0, 1), (0, 2), (0, 3)])
    );
    assert_eq!(bfs_path(&wet, (0, 0), (0, 4), VehicleKind::Car), None);
}
