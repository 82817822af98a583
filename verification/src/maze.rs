//! The tile grid: cell classification, map parsing, collision queries,
//! goal and trigger detection, and line of sight.
//!
//! Coordinates are integers in world units; a cell is `block_size` units
//! on each side, cell `(0, 0)` is the top-left corner and positions grow
//! right and down.

use vstd::prelude::*;

verus! {

use crate::geometry::{dist_sq, floor_sqrt, scaled_toward, Vec2};

/// The semantic kind of one grid cell, resolved once from its map symbol.
/// Walls, the start marker and the goal are solid; triggers and empty
/// cells are walkable and invisible to the ray marcher.
#[derive(Clone, Copy, PartialEq, Eq, Structural, Debug)]
pub enum Cell {
    /// A walkable cell with nothing in it.
    Empty,
    /// A solid wall, keeping its map symbol as texture tag.
    Wall(char),
    /// A walk-through trigger zone, keeping its map symbol.
    Trigger(char),
    /// The player start marker.
    Start,
    /// The goal cell.
    Goal,
}

impl Cell {
    /// Solid cells stop rays and block movement.
    pub open spec fn is_solid_spec(self) -> bool {
        match self {
            Cell::Empty => false,
            Cell::Trigger(_) => false,
            _ => true,
        }
    }

    /// Whether this cell stops rays and blocks movement.
    pub fn is_solid(self) -> (r: bool)
        ensures
            r == self.is_solid_spec(),
    {
        match self {
            Cell::Empty => false,
            Cell::Trigger(_) => false,
            _ => true,
        }
    }

    /// The map symbol the cell was read from, used as texture tag.
    pub open spec fn tag_spec(self) -> char {
        match self {
            Cell::Empty => ' ',
            Cell::Wall(c) => c,
            Cell::Trigger(c) => c,
            Cell::Start => 'p',
            Cell::Goal => 'g',
        }
    }

    /// Returns the map symbol of the cell.
    pub fn tag(self) -> (r: char)
        ensures
            r == self.tag_spec(),
    {
        match self {
            Cell::Empty => ' ',
            Cell::Wall(c) => c,
            Cell::Trigger(c) => c,
            Cell::Start => 'p',
            Cell::Goal => 'g',
        }
    }
}

/// The cell kind denoted by one map symbol.
pub open spec fn classify_spec(c: char) -> Cell {
    if c == ' ' {
        Cell::Empty
    } else if c == 't' || c == 's' || c == 'c' {
        Cell::Trigger(c)
    } else if c == 'p' {
        Cell::Start
    } else if c == 'g' {
        Cell::Goal
    } else {
        Cell::Wall(c)
    }
}

/// Resolves one map symbol to its cell kind.
pub fn classify(c: char) -> (r: Cell)
    ensures
        r == classify_spec(c),
{
    if c == ' ' {
        Cell::Empty
    } else if c == 't' || c == 's' || c == 'c' {
        Cell::Trigger(c)
    } else if c == 'p' {
        Cell::Start
    } else if c == 'g' {
        Cell::Goal
    } else {
        Cell::Wall(c)
    }
}

/// Why a map failed to load.
#[derive(Clone, Copy, PartialEq, Eq, Structural, Debug)]
pub enum MazeError {
    /// The map has no rows, or its first row has no cells.
    Empty,
    /// Some row differs in length from the first row.
    NotRectangular,
    /// A dimension exceeds `MAX_DIM` cells.
    TooLarge,
}

/// Upper bound on rows and columns of a maze.
pub const MAX_DIM: usize = 4096;

/// A rectangular grid of classified cells.
pub struct Maze {
    /// Rows of cells; `cells[j][i]` is column `i` of row `j`.
    pub cells: Vec<Vec<Cell>>,
}

impl Maze {
    /// Well-formedness: at least one row and column, every row the same
    /// length, and both dimensions within `MAX_DIM`.
    pub open spec fn wf(self) -> bool {
        &&& 1 <= self.cells.len() <= MAX_DIM
        &&& 1 <= self.cells[0].len() <= MAX_DIM
        &&& forall|j: int| 0 <= j < self.cells.len() ==> (#[trigger] self.cells[j]).len()
            == self.cells[0].len()
    }

    /// Number of rows.
    pub open spec fn rows(self) -> int {
        self.cells.len() as int
    }

    /// Number of columns.
    pub open spec fn cols(self) -> int {
        self.cells[0].len() as int
    }

    /// The cell in column `i` of row `j`.
    pub open spec fn cell(self, i: int, j: int) -> Cell {
        self.cells[j][i]
    }

    /// Whether `(i, j)` is a valid column/row pair.
    pub open spec fn cell_in_bounds(self, i: int, j: int) -> bool {
        0 <= i < self.cols() && 0 <= j < self.rows()
    }

    /// Returns the number of rows.
    pub fn height(&self) -> (h: usize)
        requires
            self.wf(),
        ensures
            h == self.rows(),
    {
        self.cells.len()
    }

    /// Returns the number of columns.
    pub fn width(&self) -> (w: usize)
        requires
            self.wf(),
        ensures
            w == self.cols(),
    {
        self.cells[0].len()
    }

    /// Reads the cell in column `i` of row `j`.
    pub fn at(&self, i: usize, j: usize) -> (c: Cell)
        requires
            self.wf(),
            self.cell_in_bounds(i as int, j as int),
        ensures
            c == self.cell(i as int, j as int),
    {
        self.cells[j][i]
    }

    /// Classifies a grid of map symbols into a maze. The grid must be
    /// non-empty, rectangular and within `MAX_DIM` on both axes; the
    /// matching error reports the first violated condition.
    pub fn from_chars(rows: &Vec<Vec<char>>) -> (r: Result<Maze, MazeError>)
        ensures
            match r {
                Ok(m) => {
                    &&& m.wf()
                    &&& m.rows() == rows@.len()
                    &&& m.cols() == rows@[0].len()
                    &&& forall|i: int, j: int| m.cell_in_bounds(i, j) ==> #[trigger] m.cell(i, j)
                        == classify_spec(rows@[j][i])
                },
                Err(MazeError::Empty) => rows@.len() == 0 || rows@[0].len() == 0,
                Err(MazeError::TooLarge) => {
                    &&& rows@.len() > 0 && rows@[0].len() > 0
                    &&& rows@.len() > MAX_DIM || rows@[0].len() > MAX_DIM
                },
                Err(MazeError::NotRectangular) => {
                    &&& 1 <= rows@.len() <= MAX_DIM && 1 <= rows@[0].len() <= MAX_DIM
                    &&& exists|j: int| 0 <= j < rows@.len() && (#[trigger] rows@[j]).len()
                        != rows@[0].len()
                },
            },
    {
        if rows.len() == 0 {
            return Err(MazeError::Empty);
        }
        let w: usize = rows[0].len();
        if w == 0 {
            return Err(MazeError::Empty);
        }
        if rows.len() > MAX_DIM || w > MAX_DIM {
            return Err(MazeError::TooLarge);
        }
        let mut cells: Vec<Vec<Cell>> = Vec::new();
        let mut j: usize = 0;
        while j < rows.len()
            invariant
                0 <= j <= rows@.len(),
                rows@.len() <= MAX_DIM,
                1 <= w <= MAX_DIM,
                w == rows@[0].len(),
                cells.len() == j,
                forall|j2: int| 0 <= j2 < j ==> (#[trigger] cells[j2]).len() == w,
                forall|j2: int, i: int|
                    0 <= j2 < j && 0 <= i < w ==> #[trigger] cells[j2][i] == classify_spec(
                        rows@[j2][i],
                    ),
            decreases rows@.len() - j,
        {
            if rows[j].len() != w {
                return Err(MazeError::NotRectangular);
            }
            let mut row: Vec<Cell> = Vec::new();
            let mut i: usize = 0;
            while i < w
                invariant
                    0 <= i <= w,
                    j < rows@.len(),
                    w == rows@[j as int].len(),
                    row.len() == i,
                    forall|i2: int| 0 <= i2 < i ==> #[trigger] row[i2] == classify_spec(
                        rows@[j as int][i2],
                    ),
                decreases w - i,
            {
                row.push(classify(rows[j][i]));
                i = i + 1;
            }
            cells.push(row);
            j = j + 1;
        }
        Ok(Maze { cells })
    }
}

/// Whether the world point `(x, y)` collides: out-of-bounds points are
/// conservatively colliding, in-bounds points collide when their cell is
/// solid.
pub open spec fn collides_spec(m: Maze, x: int, y: int, block: int) -> bool {
    if x < 0 || y < 0 {
        true
    } else {
        let i = x / block;
        let j = y / block;
        if i >= m.cols() || j >= m.rows() {
            true
        } else {
            m.cell(i, j).is_solid_spec()
        }
    }
}

/// Bounds under which the collision queries are free of overflow.
pub open spec fn coord_ok(v: int) -> bool {
    -0x4000_0000 <= v <= 0x4000_0000
}

/// Bounds on the cell side length.
pub open spec fn block_ok(block: int) -> bool {
    1 <= block <= 100_000
}

/// Whether the world point `(x, y)` is blocked for movement.
pub fn check_collision(maze: &Maze, new_x: i64, new_y: i64, block_size: usize) -> (r: bool)
    requires
        maze.wf(),
        block_ok(block_size as int),
    ensures
        r == collides_spec(*maze, new_x as int, new_y as int, block_size as int),
{
    if new_x < 0 || new_y < 0 {
        return true;
    }
    let i: u64 = (new_x as u64) / (block_size as u64);
    let j: u64 = (new_y as u64) / (block_size as u64);
    if i >= maze.width() as u64 || j >= maze.height() as u64 {
        return true;
    }
    maze.at(i as usize, j as usize).is_solid()
}

/// The four clearance corners of a pose at `(x, y)` with the given margin.
pub open spec fn margin_collides_spec(m: Maze, x: int, y: int, block: int, margin: int) -> bool {
    ||| collides_spec(m, x - margin, y - margin, block)
    ||| collides_spec(m, x + margin, y - margin, block)
    ||| collides_spec(m, x - margin, y + margin, block)
    ||| collides_spec(m, x + margin, y + margin, block)
}

/// Whether a pose at `(x, y)` with a square clearance margin touches a
/// solid cell or the outside at any of its four corners.
pub fn check_collision_with_margin(maze: &Maze, x: i64, y: i64, block_size: usize, margin: i64) -> (
    r: bool)
    requires
        maze.wf(),
        block_ok(block_size as int),
        -0x1000_0000_0000 <= x <= 0x1000_0000_0000,
        -0x1000_0000_0000 <= y <= 0x1000_0000_0000,
        0 <= margin <= 0x100_0000,
    ensures
        r == margin_collides_spec(*maze, x as int, y as int, block_size as int, margin as int),
{
    if check_collision(maze, x - margin, y - margin, block_size) {
        return true;
    }
    if check_collision(maze, x + margin, y - margin, block_size) {
        return true;
    }
    if check_collision(maze, x - margin, y + margin, block_size) {
        return true;
    }
    check_collision(maze, x + margin, y + margin, block_size)
}

/// Center of the cell in column `i`, in world units.
pub open spec fn cell_center(idx: int, block: int) -> int {
    idx * block + block / 2
}

/// The goal proximity radius: seven tenths of a cell side.
pub open spec fn near_radius(block: int) -> int {
    (block * 7) / 10
}

/// Whether the point `(px, py)` is within the proximity radius of the
/// center of cell `(i, j)`.
pub open spec fn near_cell_spec(px: int, py: int, i: int, j: int, block: int) -> bool {
    dist_sq(px - cell_center(i, block), py - cell_center(j, block)) <= near_radius(block)
        * near_radius(block)
}

/// Whether the player at `(px, py)` is close enough to some goal cell to
/// win: within seven tenths of a cell side of its center.
pub open spec fn goal_reached_spec(m: Maze, px: int, py: int, block: int) -> bool {
    exists|i: int, j: int|
        m.cell_in_bounds(i, j) && #[trigger] m.cell(i, j) == Cell::Goal && near_cell_spec(
            px,
            py,
            i,
            j,
            block,
        )
}

/// Squared distance from `(px, py)` to the center of cell `(i, j)`,
/// computed without overflow.
fn dist_sq_to_center(px: i64, py: i64, i: usize, j: usize, block_size: usize) -> (d: u64)
    requires
        coord_ok(px as int),
        coord_ok(py as int),
        block_ok(block_size as int),
        i <= MAX_DIM,
        j <= MAX_DIM,
    ensures
        d == dist_sq(
            px - cell_center(i as int, block_size as int),
            py - cell_center(j as int, block_size as int),
        ),
{
    let bu: u64 = block_size as u64;
    assert((i as int) * (bu as int) <= MAX_DIM * 100_000 && (j as int) * (bu as int) <= MAX_DIM
        * 100_000) by (nonlinear_arith)
        requires
            i <= MAX_DIM,
            j <= MAX_DIM,
            0 <= bu <= 100_000,
    ;
    let cx: i64 = ((i as u64) * bu + bu / 2) as i64;
    let cy: i64 = ((j as u64) * bu + bu / 2) as i64;
    let dx: i64 = px - cx;
    let dy: i64 = py - cy;
    let ax: u64 = if dx >= 0 { dx as u64 } else { (-dx) as u64 };
    let ay: u64 = if dy >= 0 { dy as u64 } else { (-dy) as u64 };
    assert(ax * ax == (dx as int) * (dx as int) && ax * ax <= 0x8000_0000 * 0x8000_0000)
        by (nonlinear_arith)
        requires
            ax == if dx >= 0 { dx as int } else { -(dx as int) },
            -0x8000_0000 <= dx <= 0x8000_0000,
    ;
    assert(ay * ay == (dy as int) * (dy as int) && ay * ay <= 0x8000_0000 * 0x8000_0000)
        by (nonlinear_arith)
        requires
            ay == if dy >= 0 { dy as int } else { -(dy as int) },
            -0x8000_0000 <= dy <= 0x8000_0000,
    ;
    ax * ax + ay * ay
}

/// Whether the player at `(px, py)` has reached a goal cell.
pub fn check_goal_collision(maze: &Maze, player_x: i64, player_y: i64, block_size: usize) -> (r:
    bool)
    requires
        maze.wf(),
        block_ok(block_size as int),
        coord_ok(player_x as int),
        coord_ok(player_y as int),
    ensures
        r == goal_reached_spec(*maze, player_x as int, player_y as int, block_size as int),
{
    let radius: u64 = (block_size as u64) * 7 / 10;
    assert(radius * radius <= 70_000 * 70_000) by (nonlinear_arith)
        requires
            radius <= 70_000,
    ;
    let rsq: u64 = radius * radius;
    let h = maze.height();
    let w = maze.width();
    let mut j: usize = 0;
    while j < h
        invariant
            maze.wf(),
            h == maze.rows(),
            w == maze.cols(),
            block_ok(block_size as int),
            coord_ok(player_x as int),
            coord_ok(player_y as int),
            radius == near_radius(block_size as int),
            rsq == radius * radius,
            0 <= j <= h,
            forall|i2: int, j2: int|
                maze.cell_in_bounds(i2, j2) && j2 < j ==> !(#[trigger] maze.cell(i2, j2)
                    == Cell::Goal && near_cell_spec(
                    player_x as int,
                    player_y as int,
                    i2,
                    j2,
                    block_size as int,
                )),
        decreases h - j,
    {
        let mut i: usize = 0;
        while i < w
            invariant
                maze.wf(),
                h == maze.rows(),
                w == maze.cols(),
                block_ok(block_size as int),
                coord_ok(player_x as int),
                coord_ok(player_y as int),
                radius == near_radius(block_size as int),
                rsq == radius * radius,
                0 <= j < h,
                0 <= i <= w,
                forall|i2: int, j2: int|
                    maze.cell_in_bounds(i2, j2) && (j2 < j || j2 == j && i2 < i) ==> !(
                    #[trigger] maze.cell(i2, j2) == Cell::Goal && near_cell_spec(
                        player_x as int,
                        player_y as int,
                        i2,
                        j2,
                        block_size as int,
                    )),
            decreases w - i,
        {
            let is_goal = match maze.at(i, j) {
                Cell::Goal => true,
                _ => false,
            };
            if is_goal {
                let d = dist_sq_to_center(player_x, player_y, i, j, block_size);
                if d <= rsq {
                    return true;
                }
            }
            i = i + 1;
        }
        j = j + 1;
    }
    false
}

/// Whether the point `(px, py)` activates the trigger cell `(i, j)`.
pub open spec fn trigger_active_spec(m: Maze, px: int, py: int, i: int, j: int, block: int) -> bool {
    m.cell_in_bounds(i, j) && (m.cell(i, j) matches Cell::Trigger(_)) && near_cell_spec(
        px,
        py,
        i,
        j,
        block,
    )
}

/// Whether one collected entry describes the trigger cell `(i, j)`.
pub open spec fn trigger_entry_matches(m: Maze, e: (i64, i64, char), i: int, j: int, block: int) -> bool {
    e.0 == cell_center(i, block) && e.1 == cell_center(j, block) && e.2 == m.cell(i, j).tag_spec()
}

/// Whether `e` describes some trigger cell that the player activates.
pub open spec fn entry_is_activated(m: Maze, px: int, py: int, e: (i64, i64, char), block: int) -> bool {
    exists|i: int, j: int|
        trigger_active_spec(m, px, py, i, j, block) && #[trigger] trigger_entry_matches(
            m,
            e,
            i,
            j,
            block,
        )
}

/// Collects every trigger cell whose center the player is near, as
/// `(center x, center y, symbol)` triples in row-major order.
pub fn find_activated_triggers(maze: &Maze, player_x: i64, player_y: i64, block_size: usize) -> (r:
    Vec<(i64, i64, char)>)
    requires
        maze.wf(),
        block_ok(block_size as int),
        coord_ok(player_x as int),
        coord_ok(player_y as int),
    ensures
        forall|k: int|
            0 <= k < r@.len() ==> entry_is_activated(
                *maze,
                player_x as int,
                player_y as int,
                #[trigger] r@[k],
                block_size as int,
            ),
        forall|i: int, j: int|
            #[trigger] trigger_active_spec(
                *maze,
                player_x as int,
                player_y as int,
                i,
                j,
                block_size as int,
            ) ==> exists|k: int|
                0 <= k < r@.len() && trigger_entry_matches(
                    *maze,
                    #[trigger] r@[k],
                    i,
                    j,
                    block_size as int,
                ),
{
    let ghost px: int = player_x as int;
    let ghost py: int = player_y as int;
    let ghost bs: int = block_size as int;
    let radius: u64 = (block_size as u64) * 7 / 10;
    assert(radius * radius <= 70_000 * 70_000) by (nonlinear_arith)
        requires
            radius <= 70_000,
    ;
    let rsq: u64 = radius * radius;
    let h = maze.height();
    let w = maze.width();
    let mut r: Vec<(i64, i64, char)> = Vec::new();
    let mut j: usize = 0;
    while j < h
        invariant
            maze.wf(),
            h == maze.rows(),
            w == maze.cols(),
            block_ok(bs),
            coord_ok(px),
            coord_ok(py),
            px == player_x as int,
            py == player_y as int,
            bs == block_size as int,
            radius == near_radius(bs),
            rsq == radius * radius,
            0 <= j <= h,
            forall|k: int|
                0 <= k < r@.len() ==> entry_is_activated(*maze, px, py, #[trigger] r@[k], bs),
            forall|i2: int, j2: int|
                #[trigger] trigger_active_spec(*maze, px, py, i2, j2, bs) && j2 < j
                    ==> exists|k: int|
                    0 <= k < r@.len() && trigger_entry_matches(*maze, #[trigger] r@[k], i2, j2, bs),
        decreases h - j,
    {
        let mut i: usize = 0;
        while i < w
            invariant
                maze.wf(),
                h == maze.rows(),
                w == maze.cols(),
                block_ok(bs),
                coord_ok(px),
                coord_ok(py),
                px == player_x as int,
                py == player_y as int,
                bs == block_size as int,
                radius == near_radius(bs),
                rsq == radius * radius,
                0 <= j < h,
                0 <= i <= w,
                forall|k: int|
                    0 <= k < r@.len() ==> entry_is_activated(*maze, px, py, #[trigger] r@[k], bs),
                forall|i2: int, j2: int|
                    #[trigger] trigger_active_spec(*maze, px, py, i2, j2, bs) && (j2 < j || j2 == j
                        && i2 < i) ==> exists|k: int|
                        0 <= k < r@.len() && trigger_entry_matches(
                            *maze,
                            #[trigger] r@[k],
                            i2,
                            j2,
                            bs,
                        ),
            decreases w - i,
        {
            let cell = maze.at(i, j);
            let is_trigger = match cell {
                Cell::Trigger(_) => true,
                _ => false,
            };
            if is_trigger {
                let d = dist_sq_to_center(player_x, player_y, i, j, block_size);
                if d <= rsq {
                    let bu: u64 = block_size as u64;
                    assert((i as int) * (bu as int) <= MAX_DIM * 100_000 && (j as int) * (bu
                        as int) <= MAX_DIM * 100_000) by (nonlinear_arith)
                        requires
                            i < MAX_DIM,
                            j < MAX_DIM,
                            0 <= bu <= 100_000,
                    ;
                    let cx: i64 = ((i as u64) * bu + bu / 2) as i64;
                    let cy: i64 = ((j as u64) * bu + bu / 2) as i64;
                    let entry: (i64, i64, char) = (cx, cy, cell.tag());
                    let ghost r0 = r@;
                    r.push(entry);
                    proof {
                        assert(trigger_active_spec(*maze, px, py, i as int, j as int, bs));
                        assert(trigger_entry_matches(*maze, entry, i as int, j as int, bs));
                        assert(entry_is_activated(*maze, px, py, entry, bs));
                        assert forall|k: int| 0 <= k < r@.len() implies entry_is_activated(
                            *maze,
                            px,
                            py,
                            #[trigger] r@[k],
                            bs,
                        ) by {
                            if k < r@.len() - 1 {
                                assert(r@[k] == r0[k]);
                                assert(entry_is_activated(*maze, px, py, r0[k], bs));
                            } else {
                                assert(r@[k] == entry);
                            }
                        }
                        assert forall|i2: int, j2: int|
                            trigger_active_spec(*maze, px, py, i2, j2, bs) && (j2 < j || j2 == j
                                && i2 < i) implies exists|k: int|
                            0 <= k < r@.len() && trigger_entry_matches(
                                *maze,
                                #[trigger] r@[k],
                                i2,
                                j2,
                                bs,
                            ) by {
                            let k0 = choose|k: int|
                                0 <= k < r0.len() && trigger_entry_matches(
                                    *maze,
                                    #[trigger] r0[k],
                                    i2,
                                    j2,
                                    bs,
                                );
                            assert(r@[k0] == r0[k0]);
                        }
                    }
                }
            }
            proof {
                if trigger_active_spec(*maze, px, py, i as int, j as int, bs) {
                    if !is_trigger {
                        assert(false);
                    } else {
                        let d0 = dist_sq(
                            px - cell_center(i as int, bs),
                            py - cell_center(j as int, bs),
                        );
                        if d0 > near_radius(bs) * near_radius(bs) {
                            assert(!near_cell_spec(px, py, i as int, j as int, bs));
                            assert(false);
                        } else {
                            assert(0 <= r@.len() - 1 < r@.len() && trigger_entry_matches(
                                *maze,
                                r@[r@.len() - 1],
                                i as int,
                                j as int,
                                bs,
                            ));
                        }
                    }
                }
            }
            i = i + 1;
        }
        j = j + 1;
    }
    r
}
/// One sampled coordinate on the segment from `c` toward `c + dc`:
/// the point a fraction `s / dist` of the way along, clamped at the end.
pub open spec fn los_sample(c: int, dc: int, s: int, dist: int) -> int {
    c + scaled_toward(dc, if s > dist {
        dist
    } else {
        s
    }, dist)
}

/// Line-of-sight sampling step in world units.
pub const LOS_STEP: u64 = 5;

/// Whether `(to_x, to_y)` is visible from `(from_x, from_y)`: no sampled
/// point along the segment collides. Points closer than 10 units always
/// see each other; `dist` is the rounded-down Euclidean distance.
pub open spec fn sees_spec(m: Maze, fx: int, fy: int, tx: int, ty: int, block: int) -> bool {
    let dist = floor_sqrt(dist_sq(tx - fx, ty - fy));
    if dist < 10 {
        true
    } else {
        forall|k: int|
            0 <= k < dist / (LOS_STEP as int) + 1 ==> !collides_spec(
                m,
                #[trigger] los_sample(fx, tx - fx, k * (LOS_STEP as int), dist),
                los_sample(fy, ty - fy, k * (LOS_STEP as int), dist),
                block,
            )
    }
}

/// Whether there is a clear line of sight between the two points:
/// samples the segment every `LOS_STEP` units and fails on the first
/// colliding sample.
pub fn has_line_of_sight(
    maze: &Maze,
    from_x: i64,
    from_y: i64,
    to_x: i64,
    to_y: i64,
    block_size: usize,
) -> (r: bool)
    requires
        maze.wf(),
        block_ok(block_size as int),
        coord_ok(from_x as int),
        coord_ok(from_y as int),
        coord_ok(to_x as int),
        coord_ok(to_y as int),
    ensures
        r == sees_spec(
            *maze,
            from_x as int,
            from_y as int,
            to_x as int,
            to_y as int,
            block_size as int,
        ),
{
    let dx: i64 = to_x - from_x;
    let dy: i64 = to_y - from_y;
    let dist: u64 = crate::geometry::distance(
        Vec2 { x: from_x, y: from_y },
        Vec2 { x: to_x, y: to_y },
    );
    if dist < 10 {
        return true;
    }
    let num_steps: u64 = dist / LOS_STEP + 1;
    let mut k: u64 = 0;
    while k < num_steps
        invariant
            maze.wf(),
            block_ok(block_size as int),
            coord_ok(from_x as int),
            coord_ok(from_y as int),
            coord_ok(to_x as int),
            coord_ok(to_y as int),
            dx == to_x - from_x,
            dy == to_y - from_y,
            10 <= dist <= 0x1_0000_0000,
            dist == floor_sqrt(dist_sq(dx as int, dy as int)),
            num_steps == dist / LOS_STEP + 1,
            0 <= k <= num_steps,
            forall|k2: int|
                0 <= k2 < k ==> !collides_spec(
                    *maze,
                    #[trigger] los_sample(
                        from_x as int,
                        dx as int,
                        k2 * (LOS_STEP as int),
                        dist as int,
                    ),
                    los_sample(from_y as int, dy as int, k2 * (LOS_STEP as int), dist as int),
                    block_size as int,
                ),
        decreases num_steps - k,
    {
        let s_raw: u64 = k * LOS_STEP;
        let s: u64 = if s_raw > dist {
            dist
        } else {
            s_raw
        };
        let ax: u64 = if dx >= 0 { dx as u64 } else { (-dx) as u64 };
        let ay: u64 = if dy >= 0 { dy as u64 } else { (-dy) as u64 };
        assert(ax * s <= 0x8000_0000 * 0x1_0000_0000 && ay * s <= 0x8000_0000 * 0x1_0000_0000)
            by (nonlinear_arith)
            requires
                ax <= 0x8000_0000,
                ay <= 0x8000_0000,
                s <= 0x1_0000_0000,
        ;
        let off_x: u64 = ax * s / dist;
        let off_y: u64 = ay * s / dist;
        assert(off_x <= ax && off_y <= ay) by (nonlinear_arith)
            requires
                off_x == (ax as int) * (s as int) / (dist as int),
                off_y == (ay as int) * (s as int) / (dist as int),
                s <= dist,
                dist > 0,
        ;
        let cx: i64 = if dx >= 0 { from_x + off_x as i64 } else { from_x - off_x as i64 };
        let cy: i64 = if dy >= 0 { from_y + off_y as i64 } else { from_y - off_y as i64 };
        assert(cx == los_sample(from_x as int, dx as int, (k as int) * (LOS_STEP as int), dist as int)
            && cy == los_sample(from_y as int, dy as int, (k as int) * (LOS_STEP as int), dist as int));
        if check_collision(maze, cx, cy, block_size) {
            proof {
                assert(!sees_spec(
                    *maze,
                    from_x as int,
                    from_y as int,
                    to_x as int,
                    to_y as int,
                    block_size as int,
                ));
            }
            return false;
        }
        k = k + 1;
    }
    true
}

} // verus!

verus! {

/// Whether `(i, j)` holds the first start marker in row-major order.
pub open spec fn first_start_at(m: Maze, i: int, j: int) -> bool {
    &&& m.cell_in_bounds(i, j)
    &&& m.cell(i, j) == Cell::Start
    &&& forall|i2: int, j2: int|
        m.cell_in_bounds(i2, j2) && (j2 < j || j2 == j && i2 < i) ==> #[trigger] m.cell(i2, j2)
            != Cell::Start
}

/// The cell the player spawns in, given the start marker at `(i, j)`:
/// the first empty neighbor in the order above, below, left, right, or
/// the marker's own cell when no neighbor is empty.
pub open spec fn start_spawn_cell(m: Maze, i: int, j: int) -> (int, int) {
    if j - 1 >= 0 && m.cell(i, j - 1) == Cell::Empty {
        (i, j - 1)
    } else if j + 1 < m.rows() && m.cell(i, j + 1) == Cell::Empty {
        (i, j + 1)
    } else if i - 1 >= 0 && m.cell(i - 1, j) == Cell::Empty {
        (i - 1, j)
    } else if i + 1 < m.cols() && m.cell(i + 1, j) == Cell::Empty {
        (i + 1, j)
    } else {
        (i, j)
    }
}

/// Finds the spawn position for the player: the center of the spawn cell
/// next to the first start marker, in world units with the standard cell
/// side `BLOCK_SIZE`; `None` when the map has no start marker.
pub fn find_player_start(maze: &Maze) -> (r: Option<(i64, i64)>)
    requires
        maze.wf(),
    ensures
        match r {
            None => forall|i: int, j: int|
                maze.cell_in_bounds(i, j) ==> #[trigger] maze.cell(i, j) != Cell::Start,
            Some(p) => exists|i: int, j: int|
                #[trigger] first_start_at(*maze, i, j) && p.0 == cell_center(
                    start_spawn_cell(*maze, i, j).0,
                    crate::BLOCK_SIZE as int,
                ) && p.1 == cell_center(start_spawn_cell(*maze, i, j).1, crate::BLOCK_SIZE as int),
        },
{
    let h = maze.height();
    let w = maze.width();
    let mut j: usize = 0;
    while j < h
        invariant
            maze.wf(),
            h == maze.rows(),
            w == maze.cols(),
            0 <= j <= h,
            forall|i2: int, j2: int|
                maze.cell_in_bounds(i2, j2) && j2 < j ==> #[trigger] maze.cell(i2, j2)
                    != Cell::Start,
        decreases h - j,
    {
        let mut i: usize = 0;
        while i < w
            invariant
                maze.wf(),
                h == maze.rows(),
                w == maze.cols(),
                0 <= j < h,
                0 <= i <= w,
                forall|i2: int, j2: int|
                    maze.cell_in_bounds(i2, j2) && (j2 < j || j2 == j && i2 < i)
                        ==> #[trigger] maze.cell(i2, j2) != Cell::Start,
            decreases w - i,
        {
            let is_start = match maze.at(i, j) {
                Cell::Start => true,
                _ => false,
            };
            if is_start {
                proof {
                    assert(first_start_at(*maze, i as int, j as int));
                }
                let up_empty = j > 0 && match maze.at(i, j - 1) {
                    Cell::Empty => true,
                    _ => false,
                };
                let down_empty = j + 1 < h && match maze.at(i, j + 1) {
                    Cell::Empty => true,
                    _ => false,
                };
                let left_empty = i > 0 && match maze.at(i - 1, j) {
                    Cell::Empty => true,
                    _ => false,
                };
                let right_empty = i + 1 < w && match maze.at(i + 1, j) {
                    Cell::Empty => true,
                    _ => false,
                };
                let (ci, cj): (usize, usize) = if up_empty {
                    (i, j - 1)
                } else if down_empty {
                    (i, j + 1)
                } else if left_empty {
                    (i - 1, j)
                } else if right_empty {
                    (i + 1, j)
                } else {
                    (i, j)
                };
                let b: u64 = crate::BLOCK_SIZE as u64;
                let cx: i64 = ((ci as u64) * b + b / 2) as i64;
                let cy: i64 = ((cj as u64) * b + b / 2) as i64;
                return Some((cx, cy));
            }
            i = i + 1;
        }
        j = j + 1;
    }
    None
}

} // verus!
