//! The map as text: one glyph per cell.

use crate::city::{Block, BlockKind, BlockTask, BlockView, City, Coord, Directions};
use crate::matrix::lemma_offset_in_range;
use vstd::prelude::*;

verus! {

/// The glyph that marks the cells of a route.
pub const ROUTE_GLYPH: char = '*';

/// The glyph for a kind of cell.
pub open spec fn kind_glyph(kind: BlockKind) -> char {
    match kind {
        BlockKind::Path => '•',
        BlockKind::Building => '■',
        BlockKind::River => '~',
        BlockKind::Shop => '⌂',
        BlockKind::NuclearPlant => '☢',
        BlockKind::Hospital => '✙',
        BlockKind::Dock => '█',
    }
}

/// The arrow for the exits of a cell, if they are one of the nine
/// combinations that roads are made of.
pub open spec fn arrow_glyph(dirs: Directions) -> Option<char> {
    let Directions { north, south, east, west } = dirs;
    if north && !south && !east && !west {
        Some('↑')
    } else if !north && south && !east && !west {
        Some('↓')
    } else if !north && !south && east && !west {
        Some('→')
    } else if !north && !south && !east && west {
        Some('←')
    } else if north && !south && east && !west {
        Some('↗')
    } else if north && !south && !east && west {
        Some('↖')
    } else if !north && south && east && !west {
        Some('↘')
    } else if !north && south && !east && west {
        Some('↙')
    } else if north && south && !east && west {
        Some('◁')
    } else {
        None
    }
}

/// The glyph of a cell: the spawn mark on a spawn cell, else the arrow of
/// its exits, else the glyph of its kind.
pub open spec fn glyph_of(block: BlockView) -> char {
    if block.task == Some(BlockTask::Spawn) {
        '◉'
    } else {
        match arrow_glyph(block.dirs) {
            Some(arrow) => arrow,
            None => kind_glyph(block.kind),
        }
    }
}

/// The glyph of a cell.
pub fn block_glyph(block: &Block) -> (glyph: char)
    ensures
        glyph == glyph_of(block@),
{
    if block.task == Some(BlockTask::Spawn) {
        '◉'
    } else if block.dirs == Directions::north() {
        '↑'
    } else if block.dirs == Directions::south() {
        '↓'
    } else if block.dirs == Directions::east() {
        '→'
    } else if block.dirs == Directions::west() {
        '←'
    } else if block.dirs == Directions::north_east() {
        '↗'
    } else if block.dirs == Directions::north_west() {
        '↖'
    } else if block.dirs == Directions::south_east() {
        '↘'
    } else if block.dirs == Directions::south_west() {
        '↙'
    } else if block.dirs == Directions::north_south_west() {
        '◁'
    } else {
        match block.kind {
            BlockKind::Path => '•',
            BlockKind::Building => '■',
            BlockKind::River => '~',
            BlockKind::Shop => '⌂',
            BlockKind::NuclearPlant => '☢',
            BlockKind::Hospital => '✙',
            BlockKind::Dock => '█',
        }
    }
}

/// Whether `cell` is one of the cells of `path`.
fn on_path(path: &Vec<Coord>, cell: Coord) -> (found: bool)
    ensures
        found == path@.contains(cell),
{
    let mut i: usize = 0;
    while i < path.len()
        invariant
            i <= path.len(),
            forall|j: int| 0 <= j < i ==> path@[j] != cell,
        decreases path.len() - i,
    {
        let p = path[i];
        if p.0 == cell.0 && p.1 == cell.1 {
            return true;
        }
        i += 1;
    }
    false
}

/// The glyph shown at `(row, col)` when `path` is drawn on the map: the
/// route mark on the cells of the path, else the glyph of the cell.
pub open spec fn shown_glyph(city: City, path: Seq<Coord>, row: int, col: int) -> char {
    if path.contains((row as usize, col as usize)) {
        ROUTE_GLYPH
    } else {
        glyph_of(city.at(row, col)@)
    }
}

/// The map with the cells of `path` marked: one row of glyphs for every
/// row of the city. With an empty path it is the plain map.
pub fn render_path(city: &City, path: &Vec<Coord>) -> (lines: Vec<Vec<char>>)
    requires
        city.wf(),
    ensures
        lines@.len() == city.spec_rows(),
        forall|r: int| 0 <= r < city.spec_rows() ==> (#[trigger] lines@[r])@.len() == city.spec_cols(),
        forall|r: int, c: int|
            0 <= r < city.spec_rows() && 0 <= c < city.spec_cols() ==> #[trigger] lines@[r]@[c]
                == shown_glyph(*city, path@, r, c),
{
    let rows = city.rows();
    let cols = city.cols();
    let mut lines: Vec<Vec<char>> = Vec::new();
    let mut row: usize = 0;
    while row < rows
        invariant
            city.wf(),
            rows == city.spec_rows(),
            cols == city.spec_cols(),
            row <= rows,
            lines@.len() == row,
            forall|r: int| 0 <= r < row ==> (#[trigger] lines@[r])@.len() == cols,
            forall|r: int, c: int|
                0 <= r < row && 0 <= c < cols ==> #[trigger] lines@[r]@[c] == shown_glyph(
                    *city,
                    path@,
                    r,
                    c,
                ),
        decreases rows - row,
    {
        let mut line: Vec<char> = Vec::new();
        let mut col: usize = 0;
        while col < cols
            invariant
                city.wf(),
                rows == city.spec_rows(),
                cols == city.spec_cols(),
                row < rows,
                col <= cols,
                line@.len() == col,
                forall|c: int|
                    0 <= c < col ==> #[trigger] line@[c] == shown_glyph(*city, path@, row as int, c),
            decreases cols - col,
        {
            proof {
                lemma_offset_in_range(rows as int, cols as int, row as int, col as int);
            }
            let glyph = if on_path(path, (row, col)) {
                ROUTE_GLYPH
            } else {
                block_glyph(city.get(row, col))
            };
            line.push(glyph);
            col += 1;
        }
        lines.push(line);
        row += 1;
    }
    lines
}

/// The map: one row of glyphs for every row of the city.
pub fn render_city(city: &City) -> (lines: Vec<Vec<char>>)
    requires
        city.wf(),
    ensures
        lines@.len() == city.spec_rows(),
        forall|r: int| 0 <= r < city.spec_rows() ==> (#[trigger] lines@[r])@.len() == city.spec_cols(),
        forall|r: int, c: int|
            0 <= r < city.spec_rows() && 0 <= c < city.spec_cols() ==> #[trigger] lines@[r]@[c]
                == glyph_of(city.at(r, c)@),
{
    let nothing: Vec<Coord> = Vec::new();
    let lines = render_path(city, &nothing);
    proof {
        assert forall|r: int, c: int|
            0 <= r < city.spec_rows() && 0 <= c < city.spec_cols() implies #[trigger] lines@[r]@[c]
            == glyph_of(city.at(r, c)@) by {
            assert(lines@[r]@[c] == shown_glyph(*city, nothing@, r, c));
        }
    }
    lines
}

} // verus!
