//! Building the city from its plan, and the questions asked of the grid.

use crate::city::{Block, BlockKind, BlockTask, City, Coord, Directions, VehicleKind};
use crate::matrix::lemma_offset_in_range;
use crate::mutex::MutexView;
use vstd::prelude::*;

verus! {

/// The number of rows of the city.
pub const GRID_HEIGHT: usize = 20;

/// The number of columns of the city.
pub const GRID_WIDTH: usize = 16;

/// The kind of cell that a glyph of the plan stands for; an unknown glyph
/// is a path.
pub open spec fn glyph_kind(glyph: char) -> BlockKind {
    if glyph == 'b' {
        BlockKind::Building
    } else if glyph == 'r' {
        BlockKind::River
    } else if glyph == 's' {
        BlockKind::Shop
    } else if glyph == 'n' {
        BlockKind::NuclearPlant
    } else if glyph == 'h' {
        BlockKind::Hospital
    } else if glyph == 'd' {
        BlockKind::Dock
    } else {
        BlockKind::Path
    }
}

/// The exits that a glyph of the plan allows; an unknown glyph allows none.
pub open spec fn glyph_directions(glyph: char) -> Directions {
    Directions {
        north: glyph == '↑' || glyph == '↗' || glyph == '↖' || glyph == '◁',
        south: glyph == '↓' || glyph == '↘' || glyph == '↙' || glyph == '◁',
        east: glyph == '→' || glyph == '↗' || glyph == '↘',
        west: glyph == '←' || glyph == '↖' || glyph == '↙' || glyph == '◁',
    }
}

/// Whether `(row, col)` is one of the eighteen border cells from which
/// vehicles may start.
pub open spec fn is_spawn_candidate(row: int, col: int) -> bool {
    ||| (row == 0 || row == 19) && (col == 0 || col == 6 || col == 9 || col == 15)
    ||| (col == 0 || col == 15) && (row == 3 || row == 6 || row == 9 || row == 13 || row == 16)
}

/// Whether `block` is the cell that the plan puts at `(row, col)` for
/// `glyph`: kind and exits of the glyph, the spawn task on a path among the
/// spawn candidates, no occupant, a free lock.
pub open spec fn is_planned_block(block: Block, glyph: char, row: int, col: int) -> bool {
    &&& block.kind == glyph_kind(glyph)
    &&& block.dirs == glyph_directions(glyph)
    &&& block.task == if is_spawn_candidate(row, col) && glyph_kind(glyph) == BlockKind::Path {
        Some(BlockTask::Spawn)
    } else {
        None
    }
    &&& block.occupant is None
    &&& block.lock@ == MutexView::free()
}

fn kind_of_glyph(glyph: char) -> (kind: BlockKind)
    ensures
        kind == glyph_kind(glyph),
{
    match glyph {
        'b' => BlockKind::Building,
        'r' => BlockKind::River,
        's' => BlockKind::Shop,
        'n' => BlockKind::NuclearPlant,
        'h' => BlockKind::Hospital,
        'd' => BlockKind::Dock,
        _ => BlockKind::Path,
    }
}

fn directions_of_glyph(glyph: char) -> (dirs: Directions)
    ensures
        dirs == glyph_directions(glyph),
{
    match glyph {
        '↑' => Directions::north(),
        '↓' => Directions::south(),
        '→' => Directions::east(),
        '←' => Directions::west(),
        '↗' => Directions::north_east(),
        '↖' => Directions::north_west(),
        '↘' => Directions::south_east(),
        '↙' => Directions::south_west(),
        '◁' => Directions::north_south_west(),
        _ => Directions::none(),
    }
}

fn spawn_candidate(row: usize, col: usize) -> (b: bool)
    ensures
        b == is_spawn_candidate(row as int, col as int),
{
    ((row == 0 || row == 19) && (col == 0 || col == 6 || col == 9 || col == 15)) || ((col == 0
        || col == 15) && (row == 3 || row == 6 || row == 9 || row == 13 || row == 16))
}

/// Builds the city from its plan of `GRID_HEIGHT` rows of `GRID_WIDTH`
/// glyphs: every cell is the one that the plan puts there.
pub fn build_city(design: &Vec<Vec<char>>) -> (city: City)
    requires
        design@.len() == GRID_HEIGHT,
        forall|r: int| 0 <= r < GRID_HEIGHT ==> (#[trigger] design@[r])@.len() == GRID_WIDTH,
    ensures
        city.wf(),
        city.spec_rows() == GRID_HEIGHT,
        city.spec_cols() == GRID_WIDTH,
        forall|r: int, c: int|
            0 <= r < GRID_HEIGHT && 0 <= c < GRID_WIDTH ==> is_planned_block(
                #[trigger] city.at(r, c),
                design@[r]@[c],
                r,
                c,
            ),
{
    let height = GRID_HEIGHT;
    let width = GRID_WIDTH;
    let mut city = City::new(height, width);
    let mut row: usize = 0;
    while row < height
        invariant
            height == GRID_HEIGHT,
            width == GRID_WIDTH,
            row <= height,
            design@.len() == GRID_HEIGHT,
            forall|r: int| 0 <= r < GRID_HEIGHT ==> (#[trigger] design@[r])@.len() == GRID_WIDTH,
            city.wf(),
            city.spec_rows() == GRID_HEIGHT,
            city.spec_cols() == GRID_WIDTH,
            forall|r: int, c: int|
                0 <= r < row && 0 <= c < GRID_WIDTH ==> is_planned_block(
                    #[trigger] city.at(r, c),
                    design@[r]@[c],
                    r,
                    c,
                ),
        decreases height - row,
    {
        let mut col: usize = 0;
        while col < width
            invariant
                height == GRID_HEIGHT,
                width == GRID_WIDTH,
                row < height,
                col <= width,
                design@.len() == GRID_HEIGHT,
                forall|r: int|
                    0 <= r < GRID_HEIGHT ==> (#[trigger] design@[r])@.len() == GRID_WIDTH,
                city.wf(),
                city.spec_rows() == GRID_HEIGHT,
                city.spec_cols() == GRID_WIDTH,
                forall|r: int, c: int|
                    0 <= r < GRID_HEIGHT && 0 <= c < GRID_WIDTH && (r < row || (r == row && c
                        < col)) ==> is_planned_block(#[trigger] city.at(r, c), design@[r]@[c], r, c),
            decreases width - col,
        {
            let glyph = design[row][col];
            let mut block = Block::new();
            block.kind = kind_of_glyph(glyph);
            block.dirs = directions_of_glyph(glyph);
            if spawn_candidate(row, col) && block.kind == BlockKind::Path {
                block.task = Some(BlockTask::Spawn);
            }
            let ghost before = city;
            city.set(row, col, block);
            proof {
                assert forall|r: int, c: int|
                    0 <= r < GRID_HEIGHT && 0 <= c < GRID_WIDTH && (r < row || (r == row && c < col
                        + 1)) implies is_planned_block(
                    #[trigger] city.at(r, c),
                    design@[r]@[c],
                    r,
                    c,
                ) by {
                    if !(r == row && c == col) {
                        assert(city.at(r, c) == before.at(r, c));
                    }
                }
            }
            col += 1;
        }
        row += 1;
    }
    city
}

/// Whether a vehicle of kind `vehicle` may stand on a cell of kind `block`:
/// boats on rivers and docks, every other vehicle on paths, shops,
/// hospitals and nuclear plants.
pub open spec fn terrain_allows(vehicle: VehicleKind, block: BlockKind) -> bool {
    match vehicle {
        VehicleKind::Boat => block == BlockKind::River || block == BlockKind::Dock,
        _ => block == BlockKind::Path || block == BlockKind::Shop || block == BlockKind::Hospital
            || block == BlockKind::NuclearPlant,
    }
}

/// Whether `pos` lies in the grid on a cell that allows a vehicle of kind `vehicle`.
pub open spec fn valid_position(city: City, pos: Coord, vehicle: VehicleKind) -> bool {
    &&& pos.0 < city.spec_rows()
    &&& pos.1 < city.spec_cols()
    &&& terrain_allows(vehicle, city.at(pos.0 as int, pos.1 as int).kind)
}

/// Whether a vehicle of kind `vehicle_kind` may stand at `pos`.
pub fn is_valid_position_for_vehicle(city: &City, pos: Coord, vehicle_kind: VehicleKind) -> (b:
    bool)
    requires
        city.wf(),
    ensures
        b == valid_position(*city, pos, vehicle_kind),
{
    let (row, col) = pos;
    if row >= city.rows() || col >= city.cols() {
        return false;
    }
    proof {
        lemma_offset_in_range(
            city.spec_rows() as int,
            city.spec_cols() as int,
            row as int,
            col as int,
        );
    }
    let block = city.get(row, col);
    match vehicle_kind {
        VehicleKind::Car
        | VehicleKind::Ambulance
        | VehicleKind::TruckWater
        | VehicleKind::TruckRadioactive => {
            matches!(
                block.kind,
                BlockKind::Path | BlockKind::Shop | BlockKind::Hospital | BlockKind::NuclearPlant
            )
        },
        VehicleKind::Boat => {
            matches!(block.kind, BlockKind::River | BlockKind::Dock)
        },
    }
}

/// What a search of the grid looks for.
#[derive(Copy, Clone, Debug, PartialEq, Eq, Structural)]
pub enum CellQuery {
    /// Path cells with the spawn task.
    Spawn,
    /// Cells of one kind.
    Kind(BlockKind),
}

/// Whether `block` is what `query` looks for.
pub open spec fn cell_matches(block: Block, query: CellQuery) -> bool {
    match query {
        CellQuery::Spawn => block.kind == BlockKind::Path && block.task == Some(BlockTask::Spawn),
        CellQuery::Kind(kind) => block.kind == kind,
    }
}

/// The coordinates, in row-major order, of those among the first `k`
/// cells of `city` that `query` looks for.
pub open spec fn matching_cells(city: City, query: CellQuery, k: int) -> Seq<Coord>
    decreases k,
{
    if k <= 0 {
        Seq::empty()
    } else {
        let before = matching_cells(city, query, k - 1);
        if cell_matches(city@[k - 1], query) {
            before.push(
                (((k - 1) / city.spec_cols() as int) as usize, ((k - 1) % city.spec_cols() as int) as usize),
            )
        } else {
            before
        }
    }
}

/// The number of those among the first `k` cells of `city` that are of kind `kind`.
pub open spec fn count_kind(city: City, kind: BlockKind, k: int) -> nat
    decreases k,
{
    if k <= 0 {
        0
    } else {
        count_kind(city, kind, k - 1) + if city@[k - 1].kind == kind {
            1nat
        } else {
            0nat
        }
    }
}

/// A cell is among the matching cells exactly when it lies in the grid and
/// is what the query looks for.
pub proof fn lemma_matching_cells_contains(city: City, query: CellQuery, k: int, pos: Coord)
    requires
        city.wf(),
        0 <= k <= city@.len(),
    ensures
        matching_cells(city, query, k).contains(pos) <==> pos.1 < city.spec_cols()
            && city.offset(pos.0 as int, pos.1 as int) < k && cell_matches(
            city.at(pos.0 as int, pos.1 as int),
            query,
        ),
    decreases k,
{
    let cols = city.spec_cols() as int;
    city.lemma_len_fits();
    if k > 0 {
        lemma_matching_cells_contains(city, query, k - 1, pos);
        let before = matching_cells(city, query, k - 1);
        let now = matching_cells(city, query, k);
        assert(cols > 0) by {
            if cols == 0 {
                assert(city.spec_rows() * 0 == 0);
            }
        }
        let last = (((k - 1) / cols) as usize, ((k - 1) % cols) as usize);
        vstd::arithmetic::div_mod::lemma_fundamental_div_mod(k - 1, cols);
        vstd::arithmetic::div_mod::lemma_mod_bound(k - 1, cols);
        vstd::arithmetic::div_mod::lemma_div_pos_is_pos(k - 1, cols);
        assert((k - 1) / cols <= k - 1) by {
            vstd::arithmetic::div_mod::lemma_div_is_ordered_by_denominator(k - 1, 1, cols);
            vstd::arithmetic::div_mod::lemma_div_basics(k - 1);
        }
        assert(cols * ((k - 1) / cols) == ((k - 1) / cols) * cols) by (nonlinear_arith);
        assert(city.offset(last.0 as int, last.1 as int) == k - 1);
        if pos.1 < cols && city.offset(pos.0 as int, pos.1 as int) == k - 1 {
            crate::matrix::lemma_offset_injective(
                cols,
                pos.0 as int,
                pos.1 as int,
                last.0 as int,
                last.1 as int,
            );
        }
        if cell_matches(city@[k - 1], query) {
            assert(now == before.push(last));
            assert(now[now.len() - 1] == last);
            if before.contains(pos) {
                let i = choose|i: int| 0 <= i < before.len() && before[i] == pos;
                assert(now[i] == pos);
            }
            if now.contains(pos) {
                let i = choose|i: int| 0 <= i < now.len() && now[i] == pos;
                if i < before.len() {
                    assert(before[i] == pos);
                }
            }
        }
    }
}

/// Every cell found by a search lies in the grid and is what the query looks for.
pub proof fn lemma_matching_cell_in_grid(city: City, query: CellQuery, i: int)
    requires
        city.wf(),
        0 <= i < matching_cells(city, query, city@.len() as int).len(),
    ensures
        matching_cells(city, query, city@.len() as int)[i].0 < city.spec_rows(),
        matching_cells(city, query, city@.len() as int)[i].1 < city.spec_cols(),
        cell_matches(
            city.at(
                matching_cells(city, query, city@.len() as int)[i].0 as int,
                matching_cells(city, query, city@.len() as int)[i].1 as int,
            ),
            query,
        ),
{
    let found = matching_cells(city, query, city@.len() as int);
    let pos = found[i];
    assert(found.contains(pos));
    lemma_matching_cells_contains(city, query, city@.len() as int, pos);
    let rows = city.spec_rows() as int;
    let cols = city.spec_cols() as int;
    assert(pos.0 < rows) by (nonlinear_arith)
        requires
            pos.0 * cols + pos.1 < rows * cols,
            0 <= pos.1 < cols,
            0 <= pos.0,
            0 <= rows,
    ;
}

/// How many cells of each kind a city has.
#[derive(Copy, Clone, Debug, PartialEq, Eq, Structural)]
pub struct KindCounts {
    pub path: usize,
    pub building: usize,
    pub river: usize,
    pub shop: usize,
    pub nuclear_plant: usize,
    pub hospital: usize,
    pub dock: usize,
}

impl KindCounts {
    /// The number counted for `kind`.
    pub open spec fn of(self, kind: BlockKind) -> usize {
        match kind {
            BlockKind::Path => self.path,
            BlockKind::Building => self.building,
            BlockKind::River => self.river,
            BlockKind::Shop => self.shop,
            BlockKind::NuclearPlant => self.nuclear_plant,
            BlockKind::Hospital => self.hospital,
            BlockKind::Dock => self.dock,
        }
    }

    /// The number counted for `kind`.
    pub fn get(&self, kind: BlockKind) -> (n: usize)
        ensures
            n == self.of(kind),
    {
        match kind {
            BlockKind::Path => self.path,
            BlockKind::Building => self.building,
            BlockKind::River => self.river,
            BlockKind::Shop => self.shop,
            BlockKind::NuclearPlant => self.nuclear_plant,
            BlockKind::Hospital => self.hospital,
            BlockKind::Dock => self.dock,
        }
    }
}

/// Row `row + 1` of a grid with `cols` columns starts where row `row`
/// ends, and every row of the grid ends inside it.
proof fn lemma_next_row(row: int, rows: int, cols: int)
    requires
        0 <= row < rows,
        0 <= cols,
    ensures
        row * cols + cols == (row + 1) * cols,
        0 <= row * cols,
        row * cols + cols <= rows * cols,
{
    assert(row * cols + cols == (row + 1) * cols) by (nonlinear_arith);
    assert(0 <= row * cols) by (nonlinear_arith)
        requires
            0 <= row,
            0 <= cols,
    ;
    assert((row + 1) * cols <= rows * cols) by (nonlinear_arith)
        requires
            row + 1 <= rows,
            0 <= cols,
    ;
}

/// Counts the cells of every kind.
pub fn count_blocks_by_kind(city: &City) -> (counts: KindCounts)
    requires
        city.wf(),
    ensures
        forall|kind: BlockKind| counts.of(kind) == count_kind(*city, kind, city@.len() as int),
{
    let rows = city.rows();
    let cols = city.cols();
    let mut counts = KindCounts {
        path: 0,
        building: 0,
        river: 0,
        shop: 0,
        nuclear_plant: 0,
        hospital: 0,
        dock: 0,
    };
    let mut row: usize = 0;
    proof {
        assert(0 * cols == 0);
    }
    while row < rows
        invariant
            city.wf(),
            rows == city.spec_rows(),
            cols == city.spec_cols(),
            row <= rows,
            0 <= row * cols <= city@.len(),
            forall|kind: BlockKind| counts.of(kind) == count_kind(*city, kind, row * cols),
            forall|kind: BlockKind| counts.of(kind) <= row * cols,
        decreases rows - row,
    {
        let mut col: usize = 0;
        proof {
            lemma_next_row(row as int, rows as int, cols as int);
        }
        while col < cols
            invariant
                city.wf(),
                rows == city.spec_rows(),
                cols == city.spec_cols(),
                row < rows,
                col <= cols,
                0 <= row * cols + col <= city@.len(),
                row * cols + cols <= city@.len(),
                forall|kind: BlockKind|
                    counts.of(kind) == count_kind(*city, kind, row * cols + col),
                forall|kind: BlockKind| counts.of(kind) <= row * cols + col,
            decreases cols - col,
        {
            proof {
                lemma_offset_in_range(rows as int, cols as int, row as int, col as int);
                city.lemma_len_fits();
                assert(counts.of(BlockKind::Path) <= row * cols + col);
                assert(counts.of(BlockKind::Building) <= row * cols + col);
                assert(counts.of(BlockKind::River) <= row * cols + col);
                assert(counts.of(BlockKind::Shop) <= row * cols + col);
                assert(counts.of(BlockKind::NuclearPlant) <= row * cols + col);
                assert(counts.of(BlockKind::Hospital) <= row * cols + col);
                assert(counts.of(BlockKind::Dock) <= row * cols + col);
            }
            let ghost before = counts;
            let kind = city.get(row, col).kind;
            match kind {
                BlockKind::Path => {
                    counts.path += 1;
                },
                BlockKind::Building => {
                    counts.building += 1;
                },
                BlockKind::River => {
                    counts.river += 1;
                },
                BlockKind::Shop => {
                    counts.shop += 1;
                },
                BlockKind::NuclearPlant => {
                    counts.nuclear_plant += 1;
                },
                BlockKind::Hospital => {
                    counts.hospital += 1;
                },
                BlockKind::Dock => {
                    counts.dock += 1;
                },
            }
            proof {
                let k = row * cols + col;
                assert forall|kd: BlockKind| counts.of(kd) == count_kind(*city, kd, k + 1) by {
                    assert(before.of(kd) == count_kind(*city, kd, k));
                }
                assert forall|kd: BlockKind| counts.of(kd) <= k + 1 by {
                    assert(before.of(kd) <= k);
                }
            }
            col += 1;
        }
        row += 1;
    }
    counts
}

/// The coordinates of the cells that `query` looks for, in row-major order.
pub fn find_cells(city: &City, query: CellQuery) -> (cells: Vec<Coord>)
    requires
        city.wf(),
    ensures
        cells@ == matching_cells(*city, query, city@.len() as int),
{
    let rows = city.rows();
    let cols = city.cols();
    let mut cells: Vec<Coord> = Vec::new();
    let mut row: usize = 0;
    proof {
        assert(0 * cols == 0);
    }
    while row < rows
        invariant
            city.wf(),
            rows == city.spec_rows(),
            cols == city.spec_cols(),
            row <= rows,
            0 <= row * cols <= city@.len(),
            cells@ == matching_cells(*city, query, row * cols),
        decreases rows - row,
    {
        let mut col: usize = 0;
        proof {
            lemma_next_row(row as int, rows as int, cols as int);
        }
        while col < cols
            invariant
                city.wf(),
                rows == city.spec_rows(),
                cols == city.spec_cols(),
                row < rows,
                col <= cols,
                0 <= row * cols + col <= city@.len(),
                row * cols + cols <= city@.len(),
                cells@ == matching_cells(*city, query, row * cols + col),
            decreases cols - col,
        {
            proof {
                lemma_offset_in_range(rows as int, cols as int, row as int, col as int);
                let k = row * cols + col;
                vstd::arithmetic::div_mod::lemma_fundamental_div_mod_converse(
                    k,
                    cols as int,
                    row as int,
                    col as int,
                );
            }
            let block = city.get(row, col);
            let hit = match query {
                CellQuery::Spawn => block.kind == BlockKind::Path && block.task == Some(
                    BlockTask::Spawn,
                ),
                CellQuery::Kind(kind) => block.kind == kind,
            };
            if hit {
                cells.push((row, col));
            }
            col += 1;
        }
        row += 1;
    }
    cells
}

/// The path cells with the spawn task, in row-major order.
pub fn find_spawn_positions(city: &City) -> (cells: Vec<Coord>)
    requires
        city.wf(),
    ensures
        cells@ == matching_cells(*city, CellQuery::Spawn, city@.len() as int),
{
    find_cells(city, CellQuery::Spawn)
}

/// The shops, in row-major order.
pub fn find_shops(city: &City) -> (cells: Vec<Coord>)
    requires
        city.wf(),
    ensures
        cells@ == matching_cells(*city, CellQuery::Kind(BlockKind::Shop), city@.len() as int),
{
    find_cells(city, CellQuery::Kind(BlockKind::Shop))
}

/// The hospital cells, in row-major order.
pub fn find_hospitals(city: &City) -> (cells: Vec<Coord>)
    requires
        city.wf(),
    ensures
        cells@ == matching_cells(*city, CellQuery::Kind(BlockKind::Hospital), city@.len() as int),
{
    find_cells(city, CellQuery::Kind(BlockKind::Hospital))
}

/// The cells of nuclear plants, in row-major order.
pub fn find_nuclear_plants(city: &City) -> (cells: Vec<Coord>)
    requires
        city.wf(),
    ensures
        cells@ == matching_cells(
            *city,
            CellQuery::Kind(BlockKind::NuclearPlant),
            city@.len() as int,
        ),
{
    find_cells(city, CellQuery::Kind(BlockKind::NuclearPlant))
}

/// The docks, in row-major order.
pub fn find_docks(city: &City) -> (cells: Vec<Coord>)
    requires
        city.wf(),
    ensures
        cells@ == matching_cells(*city, CellQuery::Kind(BlockKind::Dock), city@.len() as int),
{
    find_cells(city, CellQuery::Kind(BlockKind::Dock))
}

} // verus!
