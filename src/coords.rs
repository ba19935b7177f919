use vstd::prelude::*;

verus! {

/// A position on the grid: column `x`, row `y`.
#[derive(Clone, Copy, Debug, PartialEq, Eq, Structural)]
pub struct GridCoordinates {
    pub x: usize,
    pub y: usize,
}

/// One of the four moves on the grid. `Up` increases `y`, `Right` increases `x`.
#[derive(Clone, Copy, Debug, PartialEq, Eq, Structural)]
pub enum Direction {
    Up,
    Down,
    Left,
    Right,
}

impl Direction {
    pub open spec fn inverse_spec(self) -> Direction {
        match self {
            Direction::Up => Direction::Down,
            Direction::Down => Direction::Up,
            Direction::Left => Direction::Right,
            Direction::Right => Direction::Left,
        }
    }

    /// Horizontal part of the unit displacement.
    pub open spec fn dx(self) -> int {
        match self {
            Direction::Left => -1,
            Direction::Right => 1,
            _ => 0,
        }
    }

    /// Vertical part of the unit displacement.
    pub open spec fn dy(self) -> int {
        match self {
            Direction::Up => 1,
            Direction::Down => -1,
            _ => 0,
        }
    }

    /// The opposite direction: `Up` and `Down`, `Left` and `Right` are pairs.
    pub fn inverse(self) -> (r: Direction)
        ensures
            r == self.inverse_spec(),
    {
        match self {
            Direction::Up => Direction::Down,
            Direction::Down => Direction::Up,
            Direction::Left => Direction::Right,
            Direction::Right => Direction::Left,
        }
    }
}

/// Whether `(x, y)` lies in `[0, cols) × [0, rows)`.
pub open spec fn in_extent(x: int, y: int, cols: int, rows: int) -> bool {
    0 <= x < cols && 0 <= y < rows
}

/// The point reached from `c` by one step in direction `d`, in unbounded integers.
pub open spec fn moved(c: GridCoordinates, d: Direction) -> (int, int) {
    (c.x + d.dx(), c.y + d.dy())
}

/// Whether one step from `c` in direction `d` stays inside a `cols` × `rows` grid.
pub open spec fn step_in_extent(c: GridCoordinates, d: Direction, cols: int, rows: int) -> bool {
    in_extent(moved(c, d).0, moved(c, d).1, cols, rows)
}

/// The coordinates one step from `c` in direction `d`, or `None` when that
/// step would leave `[0, cols) × [0, rows)`. Never overflows or underflows.
pub fn step_coords(c: GridCoordinates, d: Direction, cols: usize, rows: usize) -> (r: Option<
    GridCoordinates,
>)
    ensures
        match r {
            Some(n) => step_in_extent(c, d, cols as int, rows as int) && n.x == moved(c, d).0
                && n.y == moved(c, d).1,
            None => !step_in_extent(c, d, cols as int, rows as int),
        },
{
    match d {
        Direction::Up => {
            if c.x < cols && c.y < rows && c.y + 1 < rows {
                Some(GridCoordinates { x: c.x, y: c.y + 1 })
            } else {
                None
            }
        },
        Direction::Down => {
            if c.x < cols && c.y > 0 && c.y - 1 < rows {
                Some(GridCoordinates { x: c.x, y: c.y - 1 })
            } else {
                None
            }
        },
        Direction::Left => {
            if c.y < rows && c.x > 0 && c.x - 1 < cols {
                Some(GridCoordinates { x: c.x - 1, y: c.y })
            } else {
                None
            }
        },
        Direction::Right => {
            if c.y < rows && c.x < cols && c.x + 1 < cols {
                Some(GridCoordinates { x: c.x + 1, y: c.y })
            } else {
                None
            }
        },
    }
}

/// The absolute difference of two naturals.
pub open spec fn abs_diff(a: int, b: int) -> int {
    if a >= b {
        a - b
    } else {
        b - a
    }
}

/// The Manhattan distance between two coordinates.
pub open spec fn manhattan(a: GridCoordinates, b: GridCoordinates) -> int {
    abs_diff(a.x as int, b.x as int) + abs_diff(a.y as int, b.y as int)
}

fn usize_abs_diff(a: usize, b: usize) -> (r: usize)
    ensures
        r == abs_diff(a as int, b as int),
{
    if a >= b {
        a - b
    } else {
        b - a
    }
}

/// The number of single steps between two coordinates when walls are ignored.
pub fn distance_between_coords(coords_a: GridCoordinates, coords_b: GridCoordinates) -> (r: usize)
    requires
        manhattan(coords_a, coords_b) <= usize::MAX,
    ensures
        r == manhattan(coords_a, coords_b),
{
    let mut distance: usize = 0;
    distance += usize_abs_diff(coords_a.x, coords_b.x);
    distance += usize_abs_diff(coords_a.y, coords_b.y);
    distance
}

} // verus!
