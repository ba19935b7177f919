use vstd::prelude::*;

use crate::coords::{in_extent, moved, step_coords, step_in_extent, Direction, GridCoordinates};

verus! {

/// One unit of the grid. A wall flag is `true` while the wall stands.
#[derive(Clone, Copy, Debug, PartialEq, Eq, Structural)]
pub struct Cell {
    pub t_wall: bool,
    pub r_wall: bool,
    pub l_wall: bool,
    pub b_wall: bool,
    /// The cell has been touched by generation.
    pub in_maze: bool,
    /// The cell's walls have been generated and will never change again.
    pub finalized: bool,
    pub grid_coordinates: GridCoordinates,
}

impl Cell {
    /// The wall flag on the side of the cell that faces `d`.
    pub open spec fn wall_spec(self, d: Direction) -> bool {
        match d {
            Direction::Up => self.t_wall,
            Direction::Down => self.b_wall,
            Direction::Left => self.l_wall,
            Direction::Right => self.r_wall,
        }
    }

    /// The same cell with the wall facing `d` removed, marked as touched.
    pub open spec fn without_wall(self, d: Direction) -> Cell {
        match d {
            Direction::Up => Cell { t_wall: false, in_maze: true, ..self },
            Direction::Down => Cell { b_wall: false, in_maze: true, ..self },
            Direction::Left => Cell { l_wall: false, in_maze: true, ..self },
            Direction::Right => Cell { r_wall: false, in_maze: true, ..self },
        }
    }

    /// At least one of the four walls is open.
    pub open spec fn has_open_wall(self) -> bool {
        !self.t_wall || !self.b_wall || !self.l_wall || !self.r_wall
    }

    /// Whether a wall stands on the side of the cell that faces `d`.
    pub fn wall(&self, d: Direction) -> (r: bool)
        ensures
            r == self.wall_spec(d),
    {
        match d {
            Direction::Up => self.t_wall,
            Direction::Down => self.b_wall,
            Direction::Left => self.l_wall,
            Direction::Right => self.r_wall,
        }
    }

    fn opened_toward(self, d: Direction) -> (r: Cell)
        ensures
            r == self.without_wall(d),
    {
        match d {
            Direction::Up => Cell { t_wall: false, in_maze: true, ..self },
            Direction::Down => Cell { b_wall: false, in_maze: true, ..self },
            Direction::Left => Cell { l_wall: false, in_maze: true, ..self },
            Direction::Right => Cell { r_wall: false, in_maze: true, ..self },
        }
    }
}

/// The grid's cells as a mathematical value, indexed `[x][y]`.
pub open spec fn set_cell(g: Seq<Seq<Cell>>, x: int, y: int, v: Cell) -> Seq<Seq<Cell>> {
    g.update(x, g[x].update(y, v))
}

/// The cell that `Grid::new` places at `(x, y)`.
pub open spec fn baseline_cell(x: int, y: int, walls_closed: bool) -> Cell {
    Cell {
        t_wall: walls_closed,
        r_wall: walls_closed,
        l_wall: walls_closed,
        b_wall: walls_closed,
        in_maze: false,
        finalized: false,
        grid_coordinates: GridCoordinates { x: x as usize, y: y as usize },
    }
}

/// A fresh `cols` × `rows` grid: every wall as `walls_closed` says, nothing
/// touched or finalized.
pub open spec fn baseline(cols: int, rows: int, walls_closed: bool) -> Seq<Seq<Cell>> {
    Seq::new(cols as nat, |x: int| Seq::new(rows as nat, |y: int| baseline_cell(x, y, walls_closed)))
}

/// The shared-edge law: the two sides of every inner edge agree.
pub open spec fn mirrored(g: Seq<Seq<Cell>>, rows: int) -> bool {
    &&& forall|x: int, y: int|
        0 <= x < g.len() && 0 <= y && y + 1 < rows ==> (#[trigger] g[x][y]).t_wall == g[x][y
            + 1].b_wall
    &&& forall|x: int, y: int|
        0 <= x && x + 1 < g.len() && 0 <= y < rows ==> (#[trigger] g[x][y]).r_wall == g[x
            + 1][y].l_wall
}

/// What every grid value satisfies: `g.len()` columns of `rows` cells, each
/// cell knowing its own coordinates, finalized cells touched, walls mirrored.
pub open spec fn cells_wf(g: Seq<Seq<Cell>>, rows: int) -> bool {
    &&& forall|x: int| 0 <= x < g.len() ==> (#[trigger] g[x]).len() == rows
    &&& forall|x: int, y: int|
        in_extent(x, y, g.len() as int, rows) ==> {
            &&& (#[trigger] g[x][y]).grid_coordinates.x == x
            &&& g[x][y].grid_coordinates.y == y
            &&& g[x][y].finalized ==> g[x][y].in_maze
        }
    &&& mirrored(g, rows)
}

/// Whether `open_wall(c, d)` changes anything: both cells exist and neither
/// has been finalized.
pub open spec fn may_open(g: Seq<Seq<Cell>>, rows: int, c: GridCoordinates, d: Direction) -> bool {
    &&& in_extent(c.x as int, c.y as int, g.len() as int, rows)
    &&& step_in_extent(c, d, g.len() as int, rows)
    &&& !g[c.x as int][c.y as int].finalized
    &&& !g[moved(c, d).0][moved(c, d).1].finalized
}

/// The grid after opening the edge on side `d` of `c`.
pub open spec fn opened(g: Seq<Seq<Cell>>, rows: int, c: GridCoordinates, d: Direction) -> Seq<
    Seq<Cell>,
> {
    if may_open(g, rows, c, d) {
        let (nx, ny) = moved(c, d);
        set_cell(
            set_cell(g, c.x as int, c.y as int, g[c.x as int][c.y as int].without_wall(d)),
            nx,
            ny,
            g[nx][ny].without_wall(d.inverse_spec()),
        )
    } else {
        g
    }
}

/// The grid after opening, in order, the edges on each side of `c` in `dirs`.
pub open spec fn opened_all(
    g: Seq<Seq<Cell>>,
    rows: int,
    c: GridCoordinates,
    dirs: Seq<Direction>,
) -> Seq<Seq<Cell>>
    decreases dirs.len(),
{
    if dirs.len() == 0 {
        g
    } else {
        opened(opened_all(g, rows, c, dirs.drop_last()), rows, c, dirs.last())
    }
}

/// The grid after finalizing `c`: a no-op outside the grid or on a finalized cell.
pub open spec fn finalized_at(g: Seq<Seq<Cell>>, rows: int, c: GridCoordinates) -> Seq<Seq<Cell>> {
    if in_extent(c.x as int, c.y as int, g.len() as int, rows) && !g[c.x as int][c.y
        as int].finalized {
        set_cell(
            g,
            c.x as int,
            c.y as int,
            Cell { in_maze: true, finalized: true, ..g[c.x as int][c.y as int] },
        )
    } else {
        g
    }
}

/// The cell one step from `c` in direction `d`.
pub open spec fn cell_toward(g: Seq<Seq<Cell>>, c: GridCoordinates, d: Direction) -> Cell {
    g[moved(c, d).0][moved(c, d).1]
}

/// `seq![d]` when one step from `c` toward `d` stays on the grid, else empty.
pub open spec fn dir_if_inside(c: GridCoordinates, d: Direction, cols: int, rows: int) -> Seq<
    Direction,
> {
    if step_in_extent(c, d, cols, rows) {
        seq![d]
    } else {
        seq![]
    }
}

/// The directions of the neighbors of `c`, in the order Up, Down, Left, Right.
pub open spec fn neighbor_dirs(c: GridCoordinates, cols: int, rows: int) -> Seq<Direction> {
    dir_if_inside(c, Direction::Up, cols, rows) + dir_if_inside(c, Direction::Down, cols, rows)
        + dir_if_inside(c, Direction::Left, cols, rows) + dir_if_inside(
        c,
        Direction::Right,
        cols,
        rows,
    )
}

/// The neighbor on side `d` of `c`, as a one-element sequence, or empty when
/// that side leads off the grid.
pub open spec fn neighbor_if_inside(
    g: Seq<Seq<Cell>>,
    rows: int,
    c: GridCoordinates,
    d: Direction,
) -> Seq<Neighbor> {
    if step_in_extent(c, d, g.len() as int, rows) {
        seq![Neighbor { cell: cell_toward(g, c, d), dir: d }]
    } else {
        seq![]
    }
}

/// The neighbors of `c` in the order Up, Down, Left, Right.
pub open spec fn neighbor_seq(g: Seq<Seq<Cell>>, rows: int, c: GridCoordinates) -> Seq<Neighbor> {
    neighbor_if_inside(g, rows, c, Direction::Up) + neighbor_if_inside(g, rows, c, Direction::Down)
        + neighbor_if_inside(g, rows, c, Direction::Left) + neighbor_if_inside(
        g,
        rows,
        c,
        Direction::Right,
    )
}

/// Whether the cell at `(x, y)` touches `c` on its side `e`.
pub open spec fn faces(x: int, y: int, e: Direction, c: GridCoordinates) -> bool {
    x + e.dx() == c.x && y + e.dy() == c.y
}

/// Why a coordinate was refused.
#[derive(Clone, Copy, Debug, PartialEq, Eq, Structural)]
pub enum GridError {
    OutOfBounds,
}

proof fn lemma_set_cell_index(g: Seq<Seq<Cell>>, x: int, y: int, v: Cell, i: int, j: int)
    requires
        0 <= x < g.len(),
        0 <= y < g[x].len(),
        0 <= i < g.len(),
        0 <= j < g[i].len(),
    ensures
        set_cell(g, x, y, v)[i][j] == (if i == x && j == y {
            v
        } else {
            g[i][j]
        }),
        set_cell(g, x, y, v).len() == g.len(),
        set_cell(g, x, y, v)[i].len() == g[i].len(),
{
}

/// Opening an edge keeps the grid's invariant.
pub proof fn lemma_opened_wf(g: Seq<Seq<Cell>>, rows: int, c: GridCoordinates, d: Direction)
    requires
        cells_wf(g, rows),
    ensures
        cells_wf(opened(g, rows, c, d), rows),
        opened(g, rows, c, d).len() == g.len(),
{
    if may_open(g, rows, c, d) {
        let (nx, ny) = moved(c, d);
        let g1 = set_cell(g, c.x as int, c.y as int, g[c.x as int][c.y as int].without_wall(d));
        let g2 = opened(g, rows, c, d);
        assert forall|i: int, j: int| in_extent(i, j, g.len() as int, rows) implies g2[i][j] == (
        if i == nx && j == ny {
            g[nx][ny].without_wall(d.inverse_spec())
        } else if i == c.x && j == c.y {
            g[c.x as int][c.y as int].without_wall(d)
        } else {
            g[i][j]
        }) by {
            lemma_set_cell_index(
                g,
                c.x as int,
                c.y as int,
                g[c.x as int][c.y as int].without_wall(d),
                i,
                j,
            );
            lemma_set_cell_index(g1, nx, ny, g[nx][ny].without_wall(d.inverse_spec()), i, j);
        }
        assert forall|i: int| 0 <= i < g2.len() implies (#[trigger] g2[i]).len() == rows by {
            if i == c.x || i == nx {
            }
        }
    }
}

/// Finalizing a cell keeps the grid's invariant.
pub proof fn lemma_finalized_wf(g: Seq<Seq<Cell>>, rows: int, c: GridCoordinates)
    requires
        cells_wf(g, rows),
    ensures
        cells_wf(finalized_at(g, rows, c), rows),
        finalized_at(g, rows, c).len() == g.len(),
{
    let g2 = finalized_at(g, rows, c);
    if in_extent(c.x as int, c.y as int, g.len() as int, rows) && !g[c.x as int][c.y
        as int].finalized {
        let v = Cell { in_maze: true, finalized: true, ..g[c.x as int][c.y as int] };
        assert forall|i: int, j: int| in_extent(i, j, g.len() as int, rows) implies g2[i][j] == (
        if i == c.x && j == c.y {
            v
        } else {
            g[i][j]
        }) by {
            lemma_set_cell_index(g, c.x as int, c.y as int, v, i, j);
        }
        assert forall|i: int| 0 <= i < g2.len() implies (#[trigger] g2[i]).len() == rows by {
            if i == c.x {
            }
        }
    }
}

/// Opening a sequence of edges keeps the grid's invariant.
pub proof fn lemma_opened_all_wf(
    g: Seq<Seq<Cell>>,
    rows: int,
    c: GridCoordinates,
    dirs: Seq<Direction>,
)
    requires
        cells_wf(g, rows),
    ensures
        cells_wf(opened_all(g, rows, c, dirs), rows),
        opened_all(g, rows, c, dirs).len() == g.len(),
    decreases dirs.len(),
{
    if dirs.len() > 0 {
        lemma_opened_all_wf(g, rows, c, dirs.drop_last());
        lemma_opened_wf(opened_all(g, rows, c, dirs.drop_last()), rows, c, dirs.last());
    }
}

/// Every wall is one fact shared by the two cells on its sides: the wall on
/// side `d` of a cell is open exactly when the wall of its neighbor that way,
/// on the opposite side, is open.
pub proof fn lemma_mirrored_walls(grid: &Grid, c: GridCoordinates, d: Direction)
    requires
        grid.wf(),
        in_extent(c.x as int, c.y as int, grid@.len() as int, grid.rows_spec()),
        step_in_extent(c, d, grid@.len() as int, grid.rows_spec()),
    ensures
        grid.at(c.x as int, c.y as int).wall_spec(d) == cell_toward(grid@, c, d).wall_spec(
            d.inverse_spec(),
        ),
{
    let g = grid@;
    match d {
        Direction::Up => {
            assert(g[c.x as int][c.y as int].t_wall == g[c.x as int][c.y + 1].b_wall);
        },
        Direction::Down => {
            assert(g[c.x as int][c.y - 1].t_wall == g[c.x as int][c.y as int].b_wall);
        },
        Direction::Left => {
            assert(g[c.x - 1][c.y as int].r_wall == g[c.x as int][c.y as int].l_wall);
        },
        Direction::Right => {
            assert(g[c.x as int][c.y as int].r_wall == g[c.x + 1][c.y as int].l_wall);
        },
    }
}

/// A finalized cell never changes again: opening an edge anywhere leaves it
/// as it was, and opening or finalizing on the cell itself changes nothing.
pub proof fn lemma_finalized_cell_fixed(
    g: Seq<Seq<Cell>>,
    rows: int,
    c: GridCoordinates,
    p: GridCoordinates,
    d: Direction,
)
    requires
        cells_wf(g, rows),
        in_extent(c.x as int, c.y as int, g.len() as int, rows),
        g[c.x as int][c.y as int].finalized,
        in_extent(p.x as int, p.y as int, g.len() as int, rows),
    ensures
        opened(g, rows, c, d) == g,
        finalized_at(g, rows, c) == g,
        opened(g, rows, p, d)[c.x as int][c.y as int] == g[c.x as int][c.y as int],
{
    lemma_opened_effects(g, rows, p, d);
}

/// What opening the edge on side `d` of `c` changes: no finalized flag, no
/// wall closes, the wall on side `d` of `c` opens when `may_open`, and another
/// cell changes at most in the wall that faces `c` and its touched flag.
pub proof fn lemma_opened_effects(g: Seq<Seq<Cell>>, rows: int, c: GridCoordinates, d: Direction)
    requires
        cells_wf(g, rows),
    ensures
        may_open(g, rows, c, d) ==> !opened(g, rows, c, d)[c.x as int][c.y as int].wall_spec(d),
        forall|x: int, y: int|
            in_extent(x, y, g.len() as int, rows) ==> {
                &&& (#[trigger] opened(g, rows, c, d)[x][y]).finalized == g[x][y].finalized
                &&& g[x][y].finalized ==> opened(g, rows, c, d)[x][y] == g[x][y]
                &&& forall|e: Direction|
                    #![trigger opened(g, rows, c, d)[x][y].wall_spec(e)]
                    {
                        &&& !g[x][y].wall_spec(e) ==> !opened(g, rows, c, d)[x][y].wall_spec(e)
                        &&& (x != c.x || y != c.y) && !faces(x, y, e, c) ==> opened(
                            g,
                            rows,
                            c,
                            d,
                        )[x][y].wall_spec(e) == g[x][y].wall_spec(e)
                    }
            },
{
    if may_open(g, rows, c, d) {
        let (nx, ny) = moved(c, d);
        let g1 = set_cell(g, c.x as int, c.y as int, g[c.x as int][c.y as int].without_wall(d));
        let v = g[nx][ny].without_wall(d.inverse_spec());
        assert forall|x: int, y: int| in_extent(x, y, g.len() as int, rows) implies opened(
            g,
            rows,
            c,
            d,
        )[x][y] == (if x == nx && y == ny {
            v
        } else if x == c.x && y == c.y {
            g[c.x as int][c.y as int].without_wall(d)
        } else {
            g[x][y]
        }) by {
            lemma_set_cell_index(
                g,
                c.x as int,
                c.y as int,
                g[c.x as int][c.y as int].without_wall(d),
                x,
                y,
            );
            lemma_set_cell_index(g1, nx, ny, v, x, y);
        }
        assert(opened(g, rows, c, d)[c.x as int][c.y as int] == g[c.x as int][c.y
            as int].without_wall(d));
    }
}

/// Opening a sequence of edges of `c` changes no finalized flag and closes no
/// wall; another cell changes at most in the wall that faces `c`; and when
/// the first edge may be opened, the wall on that side of `c` ends open.
pub proof fn lemma_opened_all_effects(
    g: Seq<Seq<Cell>>,
    rows: int,
    c: GridCoordinates,
    dirs: Seq<Direction>,
)
    requires
        cells_wf(g, rows),
    ensures
        dirs.len() > 0 && may_open(g, rows, c, dirs[0]) ==> !opened_all(g, rows, c, dirs)[c.x
            as int][c.y as int].wall_spec(dirs[0]),
        forall|x: int, y: int|
            in_extent(x, y, g.len() as int, rows) ==> {
                &&& (#[trigger] opened_all(g, rows, c, dirs)[x][y]).finalized == g[x][y].finalized
                &&& g[x][y].finalized ==> opened_all(g, rows, c, dirs)[x][y] == g[x][y]
                &&& forall|e: Direction|
                    #![trigger opened_all(g, rows, c, dirs)[x][y].wall_spec(e)]
                    {
                        &&& !g[x][y].wall_spec(e) ==> !opened_all(g, rows, c, dirs)[x][y].wall_spec(
                            e,
                        )
                        &&& (x != c.x || y != c.y) && !faces(x, y, e, c) ==> opened_all(
                            g,
                            rows,
                            c,
                            dirs,
                        )[x][y].wall_spec(e) == g[x][y].wall_spec(e)
                    }
            },
    decreases dirs.len(),
{
    if dirs.len() > 0 {
        let prev = opened_all(g, rows, c, dirs.drop_last());
        lemma_opened_all_effects(g, rows, c, dirs.drop_last());
        lemma_opened_all_wf(g, rows, c, dirs.drop_last());
        lemma_opened_effects(prev, rows, c, dirs.last());
        let cur = opened_all(g, rows, c, dirs);
        assert(cur == opened(prev, rows, c, dirs.last()));
        if dirs.len() == 1 {
            assert(dirs.drop_last() =~= Seq::<Direction>::empty());
            assert(prev == g);
            assert(dirs.last() == dirs[0]);
        } else {
            assert(dirs.drop_last()[0] == dirs[0]);
            if may_open(g, rows, c, dirs[0]) {
                assert(!prev[c.x as int][c.y as int].wall_spec(dirs[0]));
                assert(!cur[c.x as int][c.y as int].wall_spec(dirs[0]));
            }
        }
        assert forall|x: int, y: int| in_extent(x, y, g.len() as int, rows) implies {
            &&& (#[trigger] cur[x][y]).finalized == g[x][y].finalized
            &&& g[x][y].finalized ==> cur[x][y] == g[x][y]
            &&& forall|e: Direction|
                #![trigger cur[x][y].wall_spec(e)]
                {
                    &&& !g[x][y].wall_spec(e) ==> !cur[x][y].wall_spec(e)
                    &&& (x != c.x || y != c.y) && !faces(x, y, e, c) ==> cur[x][y].wall_spec(e)
                        == g[x][y].wall_spec(e)
                }
        } by {
            assert(prev[x][y].finalized == g[x][y].finalized);
            assert forall|e: Direction| #![trigger cur[x][y].wall_spec(e)] true implies {
                &&& !g[x][y].wall_spec(e) ==> !cur[x][y].wall_spec(e)
                &&& (x != c.x || y != c.y) && !faces(x, y, e, c) ==> cur[x][y].wall_spec(e)
                    == g[x][y].wall_spec(e)
            } by {
                assert(!g[x][y].wall_spec(e) ==> !prev[x][y].wall_spec(e));
                assert((x != c.x || y != c.y) && !faces(x, y, e, c) ==> prev[x][y].wall_spec(e)
                    == g[x][y].wall_spec(e));
            }
        }
    }
}

/// Every entry of `neighbor_seq` lies on the grid and holds the cell that way;
/// a grid of more than one cell gives every cell at least one neighbor.
pub proof fn lemma_neighbor_seq(g: Seq<Seq<Cell>>, rows: int, c: GridCoordinates)
    requires
        in_extent(c.x as int, c.y as int, g.len() as int, rows),
    ensures
        forall|i: int|
            0 <= i < neighbor_seq(g, rows, c).len() ==> {
                &&& step_in_extent(c, (#[trigger] neighbor_seq(g, rows, c)[i]).dir, g.len() as int, rows)
                &&& neighbor_seq(g, rows, c)[i].cell == cell_toward(
                    g,
                    c,
                    neighbor_seq(g, rows, c)[i].dir,
                )
            },
        g.len() > 1 || rows > 1 ==> neighbor_seq(g, rows, c).len() > 0,
        neighbor_seq(g, rows, c).len() <= 4,
{
    let u = neighbor_if_inside(g, rows, c, Direction::Up);
    let dn = neighbor_if_inside(g, rows, c, Direction::Down);
    let l = neighbor_if_inside(g, rows, c, Direction::Left);
    let r = neighbor_if_inside(g, rows, c, Direction::Right);
    let ns = neighbor_seq(g, rows, c);
    assert forall|i: int| 0 <= i < ns.len() implies {
        &&& step_in_extent(c, (#[trigger] ns[i]).dir, g.len() as int, rows)
        &&& ns[i].cell == cell_toward(g, c, ns[i].dir)
    } by {
        if i < u.len() {
            assert(ns[i] == u[i]);
        } else if i < u.len() + dn.len() {
            assert(ns[i] == dn[i - u.len()]);
        } else if i < u.len() + dn.len() + l.len() {
            assert(ns[i] == l[i - u.len() - dn.len()]);
        } else {
            assert(ns[i] == r[i - u.len() - dn.len() - l.len()]);
        }
    }
}

/// What finalizing `c` changes: only the flags of `c`, which end set.
pub proof fn lemma_finalized_effects(g: Seq<Seq<Cell>>, rows: int, c: GridCoordinates)
    requires
        cells_wf(g, rows),
        in_extent(c.x as int, c.y as int, g.len() as int, rows),
    ensures
        finalized_at(g, rows, c)[c.x as int][c.y as int].finalized,
        forall|x: int, y: int|
            in_extent(x, y, g.len() as int, rows) ==> {
                &&& (#[trigger] finalized_at(g, rows, c)[x][y]).t_wall == g[x][y].t_wall
                &&& finalized_at(g, rows, c)[x][y].b_wall == g[x][y].b_wall
                &&& finalized_at(g, rows, c)[x][y].l_wall == g[x][y].l_wall
                &&& finalized_at(g, rows, c)[x][y].r_wall == g[x][y].r_wall
                &&& (x != c.x || y != c.y) ==> finalized_at(g, rows, c)[x][y] == g[x][y]
            },
{
    if !g[c.x as int][c.y as int].finalized {
        let v = Cell { in_maze: true, finalized: true, ..g[c.x as int][c.y as int] };
        assert forall|x: int, y: int| in_extent(x, y, g.len() as int, rows) implies finalized_at(
            g,
            rows,
            c,
        )[x][y] == (if x == c.x && y == c.y {
            v
        } else {
            g[x][y]
        }) by {
            lemma_set_cell_index(g, c.x as int, c.y as int, v, x, y);
        }
    }
}

/// A direction paired with a copy of the cell that lies that way.
#[derive(Clone, Copy, Debug)]
pub struct Neighbor {
    pub cell: Cell,
    pub dir: Direction,
}

/// A fixed-size rectangle of cells whose walls are shared between neighbors.
pub struct Grid {
    cols: usize,
    rows: usize,
    cells: Vec<Vec<Cell>>,
}

impl View for Grid {
    type V = Seq<Seq<Cell>>;

    closed spec fn view(&self) -> Seq<Seq<Cell>> {
        self.cells@.map_values(|col: Vec<Cell>| col@)
    }
}

impl Grid {
    /// The number of rows (the column count is `self@.len()`).
    pub closed spec fn rows_spec(&self) -> int {
        self.rows as int
    }

    /// The grid's invariant.
    pub closed spec fn wf(&self) -> bool {
        &&& self.cells@.len() == self.cols
        &&& cells_wf(self@, self.rows as int)
    }

    /// The cell at `(x, y)` of the grid's value.
    pub open spec fn at(&self, x: int, y: int) -> Cell {
        self@[x][y]
    }

    /// The invariant, stated over the grid's value.
    pub proof fn lemma_wf(&self)
        requires
            self.wf(),
        ensures
            cells_wf(self@, self.rows_spec()),
    {
    }

    /// Number of columns.
    pub fn cols(&self) -> (r: usize)
        requires
            self.wf(),
        ensures
            r == self@.len(),
    {
        self.cols
    }

    /// Number of rows.
    pub fn rows(&self) -> (r: usize)
        requires
            self.wf(),
        ensures
            r == self.rows_spec(),
    {
        self.rows
    }

    /// A `cols` × `rows` grid; every wall stands when `walls_closed`, none
    /// otherwise, and no cell is touched or finalized.
    pub fn new(cols: usize, rows: usize, walls_closed: bool) -> (g: Grid)
        ensures
            g.wf(),
            g@.len() == cols,
            g.rows_spec() == rows,
            g@ == baseline(cols as int, rows as int, walls_closed),
            forall|x: int, y: int|
                in_extent(x, y, cols as int, rows as int) ==> {
                    &&& (#[trigger] g@[x][y]).t_wall == walls_closed
                    &&& g@[x][y].b_wall == walls_closed
                    &&& g@[x][y].l_wall == walls_closed
                    &&& g@[x][y].r_wall == walls_closed
                    &&& !g@[x][y].in_maze
                    &&& !g@[x][y].finalized
                },
    {
        let mut cells: Vec<Vec<Cell>> = Vec::new();
        let mut x: usize = 0;
        while x < cols
            invariant
                x <= cols,
                cells@.len() == x,
                forall|i: int, j: int|
                    0 <= i < x && 0 <= j < rows ==> (#[trigger] cells@[i]@[j]) == (Cell {
                        t_wall: walls_closed,
                        r_wall: walls_closed,
                        l_wall: walls_closed,
                        b_wall: walls_closed,
                        in_maze: false,
                        finalized: false,
                        grid_coordinates: GridCoordinates { x: i as usize, y: j as usize },
                    }),
                forall|i: int| 0 <= i < x ==> (#[trigger] cells@[i]@).len() == rows,
            decreases cols - x,
        {
            let mut column: Vec<Cell> = Vec::new();
            let mut y: usize = 0;
            while y < rows
                invariant
                    x < cols,
                    y <= rows,
                    column@.len() == y,
                    forall|j: int|
                        0 <= j < y ==> (#[trigger] column@[j]) == (Cell {
                            t_wall: walls_closed,
                            r_wall: walls_closed,
                            l_wall: walls_closed,
                            b_wall: walls_closed,
                            in_maze: false,
                            finalized: false,
                            grid_coordinates: GridCoordinates { x: x, y: j as usize },
                        }),
                decreases rows - y,
            {
                column.push(
                    Cell {
                        t_wall: walls_closed,
                        r_wall: walls_closed,
                        l_wall: walls_closed,
                        b_wall: walls_closed,
                        in_maze: false,
                        finalized: false,
                        grid_coordinates: GridCoordinates { x, y },
                    },
                );
                y += 1;
            }
            cells.push(column);
            x += 1;
        }
        let g = Grid { cols, rows, cells };
        assert(forall|i: int| 0 <= i < cols ==> #[trigger] g@[i] == g.cells@[i]@);
        assert(g@ =~~= baseline(cols as int, rows as int, walls_closed));
        g
    }

    /// Whether `c` is a finalized cell of the grid, at its own coordinates.
    pub open spec fn holds_finalized(&self, c: Cell) -> bool {
        &&& c.finalized
        &&& in_extent(
            c.grid_coordinates.x as int,
            c.grid_coordinates.y as int,
            self@.len() as int,
            self.rows_spec(),
        )
        &&& c == self.at(c.grid_coordinates.x as int, c.grid_coordinates.y as int)
    }

    /// The finalized cells, column by column: what a renderer may draw.
    pub fn finalized_cells(&self) -> (r: Vec<Cell>)
        requires
            self.wf(),
        ensures
            forall|i: int| 0 <= i < r@.len() ==> self.holds_finalized(#[trigger] r@[i]),
            forall|x: int, y: int|
                in_extent(x, y, self@.len() as int, self.rows_spec()) && (#[trigger] self.at(
                    x,
                    y,
                )).finalized ==> r@.contains(self.at(x, y)),
    {
        let mut out: Vec<Cell> = Vec::new();
        let mut x: usize = 0;
        while x < self.cols
            invariant
                self.wf(),
                x <= self.cols,
                forall|i: int| 0 <= i < out@.len() ==> self.holds_finalized(#[trigger] out@[i]),
                forall|i: int, j: int|
                    0 <= i < x && 0 <= j < self.rows && (#[trigger] self.at(i, j)).finalized
                        ==> out@.contains(self.at(i, j)),
            decreases self.cols - x,
        {
            let mut y: usize = 0;
            while y < self.rows
                invariant
                    self.wf(),
                    x < self.cols,
                    y <= self.rows,
                    forall|i: int| 0 <= i < out@.len() ==> self.holds_finalized(#[trigger] out@[i]),
                    forall|i: int, j: int|
                        ((0 <= i < x && 0 <= j < self.rows) || (i == x && 0 <= j < y)) && (
                        #[trigger] self.at(i, j)).finalized ==> out@.contains(self.at(i, j)),
                decreases self.rows - y,
            {
                proof {
                    self.lemma_view();
                    assert(self@[x as int].len() == self.rows);
                }
                let c = self.cells[x][y];
                let ghost before = out@;
                if c.finalized {
                    out.push(c);
                }
                proof {
                    assert(c == self.at(x as int, y as int));
                    assert forall|i: int| 0 <= i < out@.len() implies self.holds_finalized(
                        #[trigger] out@[i],
                    ) by {
                        if i < before.len() {
                            assert(out@[i] == before[i]);
                        }
                    }
                    assert forall|i: int, j: int|
                        ((0 <= i < x && 0 <= j < self.rows) || (i == x && 0 <= j < y + 1)) && (
                        #[trigger] self.at(i, j)).finalized implies out@.contains(
                        self.at(i, j),
                    ) by {
                        if i == x && j == y {
                            assert(out@[out@.len() - 1] == c);
                        } else {
                            assert(before.contains(self.at(i, j)));
                            let k = choose|k: int| 0 <= k < before.len() && before[k] == self.at(i, j);
                            assert(out@[k] == before[k]);
                        }
                    }
                }
                y += 1;
            }
            x += 1;
        }
        out
    }

    /// Whether `c` lies on the grid.
    pub fn contains(&self, c: GridCoordinates) -> (r: bool)
        requires
            self.wf(),
        ensures
            r == in_extent(c.x as int, c.y as int, self@.len() as int, self.rows_spec()),
    {
        c.x < self.cols && c.y < self.rows
    }

    /// The cell at `c`, or `OutOfBounds` when `c` is off the grid.
    pub fn get(&self, c: GridCoordinates) -> (r: Result<Cell, GridError>)
        requires
            self.wf(),
        ensures
            in_extent(c.x as int, c.y as int, self@.len() as int, self.rows_spec()) ==> r == Ok::<
                Cell,
                GridError,
            >(self.at(c.x as int, c.y as int)),
            !in_extent(c.x as int, c.y as int, self@.len() as int, self.rows_spec()) ==> r == Err::<
                Cell,
                GridError,
            >(GridError::OutOfBounds),
    {
        proof {
            self.lemma_view();
        }
        if c.x < self.cols && c.y < self.rows {
            assert(self@[c.x as int].len() == self.rows);
            Ok(self.cells[c.x][c.y])
        } else {
            Err(GridError::OutOfBounds)
        }
    }

    /// Opens the wall on side `d` of `c` together with the mirrored wall of the
    /// neighbor beyond it, and marks both cells as touched. Nothing changes
    /// when either cell is off the grid or already finalized.
    pub fn open_wall(&mut self, c: GridCoordinates, d: Direction)
        requires
            old(self).wf(),
        ensures
            final(self).wf(),
            final(self).rows_spec() == old(self).rows_spec(),
            final(self)@ == opened(old(self)@, old(self).rows_spec(), c, d),
    {
        proof {
            lemma_opened_wf(self@, self.rows as int, c, d);
        }
        if c.x < self.cols && c.y < self.rows {
            if let Some(n) = step_coords(c, d, self.cols, self.rows) {
                let a = self.cells[c.x][c.y];
                let b = self.cells[n.x][n.y];
                if !a.finalized && !b.finalized {
                    self.set_cell(c.x, c.y, a.opened_toward(d));
                    self.set_cell(n.x, n.y, b.opened_toward(d.inverse()));
                }
            }
        }
    }

    /// Marks `c` as touched and finalized; a no-op on a finalized cell or off
    /// the grid.
    pub fn finalize(&mut self, c: GridCoordinates)
        requires
            old(self).wf(),
        ensures
            final(self).wf(),
            final(self).rows_spec() == old(self).rows_spec(),
            final(self)@ == finalized_at(old(self)@, old(self).rows_spec(), c),
    {
        proof {
            lemma_finalized_wf(self@, self.rows as int, c);
        }
        if c.x < self.cols && c.y < self.rows {
            let a = self.cells[c.x][c.y];
            if !a.finalized {
                self.set_cell(c.x, c.y, Cell { in_maze: true, finalized: true, ..a });
            }
        }
    }

    /// Opens the edges on each side of `cell_coords` listed in `directions`,
    /// in order, then finalizes the cell.
    pub fn connect_neighbors(&mut self, cell_coords: GridCoordinates, directions: Vec<Direction>)
        requires
            old(self).wf(),
        ensures
            final(self).wf(),
            final(self).rows_spec() == old(self).rows_spec(),
            final(self)@ == finalized_at(
                opened_all(old(self)@, old(self).rows_spec(), cell_coords, directions@),
                old(self).rows_spec(),
                cell_coords,
            ),
    {
        let mut i: usize = 0;
        while i < directions.len()
            invariant
                self.wf(),
                self.rows == old(self).rows,
                i <= directions@.len(),
                self@ == opened_all(
                    old(self)@,
                    old(self).rows_spec(),
                    cell_coords,
                    directions@.subrange(0, i as int),
                ),
            decreases directions@.len() - i,
        {
            self.open_wall(cell_coords, directions[i]);
            assert(directions@.subrange(0, i + 1).drop_last() =~= directions@.subrange(
                0,
                i as int,
            ));
            i += 1;
        }
        assert(directions@.subrange(0, i as int) =~= directions@);
        self.finalize(cell_coords);
    }

    /// Whether a wall stands on side `direction` of the cell at `cell_coords`.
    pub fn check_for_wall(&self, cell_coords: GridCoordinates, direction: Direction) -> (r: bool)
        requires
            self.wf(),
            in_extent(
                cell_coords.x as int,
                cell_coords.y as int,
                self@.len() as int,
                self.rows_spec(),
            ),
        ensures
            r == self.at(cell_coords.x as int, cell_coords.y as int).wall_spec(direction),
    {
        proof {
            self.lemma_view();
            assert(self@[cell_coords.x as int].len() == self.rows);
        }
        self.cells[cell_coords.x][cell_coords.y].wall(direction)
    }

    fn push_neighbor(&self, c: GridCoordinates, d: Direction, out: &mut Vec<Neighbor>)
        requires
            self.wf(),
            in_extent(c.x as int, c.y as int, self@.len() as int, self.rows_spec()),
        ensures
            final(out)@ == old(out)@ + neighbor_if_inside(self@, self.rows_spec(), c, d),
    {
        if let Some(n) = step_coords(c, d, self.cols, self.rows) {
            proof {
                self.lemma_view();
                assert(self@[n.x as int].len() == self.rows);
            }
            out.push(Neighbor { cell: self.cells[n.x][n.y], dir: d });
        }
    }

    proof fn lemma_view(&self)
        ensures
            self@.len() == self.cells@.len(),
            forall|i: int| 0 <= i < self.cells@.len() ==> #[trigger] self@[i] == self.cells@[i]@,
    {
    }

    fn set_cell(&mut self, x: usize, y: usize, v: Cell)
        requires
            old(self).cells@.len() == old(self).cols,
            x < old(self).cols,
            y < old(self)@[x as int].len(),
        ensures
            final(self)@ == set_cell(old(self)@, x as int, y as int, v),
            final(self).cols == old(self).cols,
            final(self).rows == old(self).rows,
            final(self).cells@.len() == old(self).cols,
    {
        self.cells[x][y] = v;
        assert(self@ =~~= set_cell(old(self)@, x as int, y as int, v));
    }
}

/// The in-grid neighbors of `cell`, in the order Up, Down, Left, Right, each
/// with a copy of the neighboring cell.
pub fn get_neighbors(grid: &Grid, cell: &Cell) -> (r: Vec<Neighbor>)
    requires
        grid.wf(),
        in_extent(
            cell.grid_coordinates.x as int,
            cell.grid_coordinates.y as int,
            grid@.len() as int,
            grid.rows_spec(),
        ),
    ensures
        r@ == neighbor_seq(grid@, grid.rows_spec(), cell.grid_coordinates),
        r@.map_values(|n: Neighbor| n.dir) == neighbor_dirs(
            cell.grid_coordinates,
            grid@.len() as int,
            grid.rows_spec(),
        ),
        forall|i: int|
            0 <= i < r@.len() ==> (#[trigger] r@[i]).cell == cell_toward(
                grid@,
                cell.grid_coordinates,
                r@[i].dir,
            ),
{
    let c = cell.grid_coordinates;
    let mut neighbors: Vec<Neighbor> = Vec::new();
    grid.push_neighbor(c, Direction::Up, &mut neighbors);
    grid.push_neighbor(c, Direction::Down, &mut neighbors);
    grid.push_neighbor(c, Direction::Left, &mut neighbors);
    grid.push_neighbor(c, Direction::Right, &mut neighbors);
    assert(neighbors@.map_values(|n: Neighbor| n.dir) =~= neighbor_dirs(
        c,
        grid@.len() as int,
        grid.rows_spec(),
    ));
    assert(neighbors@ =~= neighbor_seq(grid@, grid.rows_spec(), c));
    neighbors
}

} // verus!
