use vstd::prelude::*;

use rand::rngs::StdRng;

use crate::coords::{
    distance_between_coords, in_extent, manhattan, moved, step_coords, step_in_extent, Direction,
    GridCoordinates,
};
use crate::grid::{
    baseline, cell_toward, cells_wf, faces, finalized_at, get_neighbors, lemma_finalized_effects,
    lemma_finalized_wf, lemma_mirrored_walls, lemma_neighbor_seq, lemma_opened_all_effects,
    lemma_opened_all_wf, may_open, neighbor_seq, opened_all, Cell, Grid,
};
use crate::selector::{
    flip_coins, gen_below, lemma_selection_from_candidates, lemma_unfinalized_dirs,
    select_directions, selection, unfinalized_dirs, unfinalized_directions,
};

verus! {

/// The directions of the neighbors of `c` that are not finalized, in the
/// order Up, Down, Left, Right.
pub open spec fn candidate_dirs(g: Seq<Seq<Cell>>, rows: int, c: GridCoordinates) -> Seq<Direction> {
    unfinalized_dirs(neighbor_seq(g, rows, c))
}

/// The grid after generating the walls of `c` with the coin flips `coins`:
/// the selected edges are opened in order, then `c` is finalized.
pub open spec fn generated(
    g: Seq<Seq<Cell>>,
    rows: int,
    c: GridCoordinates,
    coins: Seq<bool>,
) -> Seq<Seq<Cell>> {
    finalized_at(opened_all(g, rows, c, selection(candidate_dirs(g, rows, c), coins)), rows, c)
}

/// Every finalized cell has at least one open wall.
pub open spec fn every_finalized_open(g: Seq<Seq<Cell>>, rows: int) -> bool {
    forall|x: int, y: int|
        in_extent(x, y, g.len() as int, rows) && (#[trigger] g[x][y]).finalized
            ==> g[x][y].has_open_wall()
}

/// Whether the player at `p` may step toward `d`: no wall on that side and
/// the step stays on the grid.
pub open spec fn move_allowed(g: Seq<Seq<Cell>>, rows: int, p: GridCoordinates, d: Direction) -> bool {
    !g[p.x as int][p.y as int].wall_spec(d) && step_in_extent(p, d, g.len() as int, rows)
}

/// Generating a cell on entry finalizes it and gives it an open wall when it
/// had one or has a neighbor that is not finalized; every other cell keeps its
/// finalized flag, a finalized cell does not change at all, no wall closes,
/// and another cell changes at most in the wall that faces the new cell.
pub proof fn lemma_generation_on_entry(
    g: Seq<Seq<Cell>>,
    rows: int,
    c: GridCoordinates,
    coins: Seq<bool>,
)
    requires
        cells_wf(g, rows),
        in_extent(c.x as int, c.y as int, g.len() as int, rows),
        !g[c.x as int][c.y as int].finalized,
    ensures
        cells_wf(generated(g, rows, c, coins), rows),
        generated(g, rows, c, coins).len() == g.len(),
        generated(g, rows, c, coins)[c.x as int][c.y as int].finalized,
        g[c.x as int][c.y as int].has_open_wall() || candidate_dirs(g, rows, c).len() > 0
            ==> generated(g, rows, c, coins)[c.x as int][c.y as int].has_open_wall(),
        forall|x: int, y: int|
            in_extent(x, y, g.len() as int, rows) ==> {
                &&& (x != c.x || y != c.y) ==> (#[trigger] generated(g, rows, c, coins)[x][y]).finalized
                    == g[x][y].finalized
                &&& g[x][y].finalized ==> generated(g, rows, c, coins)[x][y] == g[x][y]
                &&& forall|e: Direction|
                    #![trigger generated(g, rows, c, coins)[x][y].wall_spec(e)]
                    {
                        &&& !g[x][y].wall_spec(e) ==> !generated(g, rows, c, coins)[x][y].wall_spec(
                            e,
                        )
                        &&& (x != c.x || y != c.y) && !faces(x, y, e, c) ==> generated(
                            g,
                            rows,
                            c,
                            coins,
                        )[x][y].wall_spec(e) == g[x][y].wall_spec(e)
                    }
            },
{
    let cands = candidate_dirs(g, rows, c);
    let sel = selection(cands, coins);
    let h = opened_all(g, rows, c, sel);
    let r = generated(g, rows, c, coins);
    lemma_opened_all_wf(g, rows, c, sel);
    lemma_opened_all_effects(g, rows, c, sel);
    lemma_finalized_wf(h, rows, c);
    lemma_finalized_effects(h, rows, c);
    if cands.len() > 0 {
        let ns = neighbor_seq(g, rows, c);
        lemma_selection_from_candidates(cands, coins);
        lemma_unfinalized_dirs(ns);
        lemma_neighbor_seq(g, rows, c);
        assert(cands.contains(sel[0]));
        let i = choose|i: int| 0 <= i < ns.len() && (#[trigger] ns[i]).dir == sel[0] && !ns[i].cell.finalized;
        assert(may_open(g, rows, c, sel[0]));
        assert(!h[c.x as int][c.y as int].wall_spec(sel[0]));
    }
    assert forall|x: int, y: int| in_extent(x, y, g.len() as int, rows) implies {
        &&& forall|e: Direction|
            #![trigger r[x][y].wall_spec(e)]
            {
                &&& !g[x][y].wall_spec(e) ==> !r[x][y].wall_spec(e)
                &&& (x != c.x || y != c.y) && !faces(x, y, e, c) ==> r[x][y].wall_spec(e)
                    == g[x][y].wall_spec(e)
            }
    } by {
        assert forall|e: Direction| #![trigger r[x][y].wall_spec(e)] true implies {
            &&& !g[x][y].wall_spec(e) ==> !r[x][y].wall_spec(e)
            &&& (x != c.x || y != c.y) && !faces(x, y, e, c) ==> r[x][y].wall_spec(e)
                == g[x][y].wall_spec(e)
        } by {
            assert(h[x][y].wall_spec(e) == r[x][y].wall_spec(e));
            assert(!g[x][y].wall_spec(e) ==> !h[x][y].wall_spec(e));
        }
    }
    if g[c.x as int][c.y as int].has_open_wall() {
        assert(!g[c.x as int][c.y as int].t_wall ==> !r[c.x as int][c.y as int].wall_spec(Direction::Up));
        assert(!g[c.x as int][c.y as int].b_wall ==> !r[c.x as int][c.y as int].wall_spec(Direction::Down));
        assert(!g[c.x as int][c.y as int].l_wall ==> !r[c.x as int][c.y as int].wall_spec(Direction::Left));
        assert(!g[c.x as int][c.y as int].r_wall ==> !r[c.x as int][c.y as int].wall_spec(Direction::Right));
    }
}

/// A step that would leave the grid is never allowed, whatever the walls say.
pub proof fn lemma_edge_blocks(g: Seq<Seq<Cell>>, rows: int, p: GridCoordinates, d: Direction)
    requires
        !step_in_extent(p, d, g.len() as int, rows),
    ensures
        !move_allowed(g, rows, p, d),
{
}

/// What a single move attempt gives.
#[derive(Clone, Copy, Debug, PartialEq, Eq, Structural)]
pub enum MoveResult {
    Moved(GridCoordinates),
    Blocked,
}

/// Moves the player from `player_coords` toward `direction` when no wall
/// stands on that side and the step stays on the grid; otherwise reports
/// `Blocked` and leaves the coordinates as they were.
pub fn try_move(grid: &Grid, player_coords: &mut GridCoordinates, direction: Direction) -> (r:
    MoveResult)
    requires
        grid.wf(),
        in_extent(
            old(player_coords).x as int,
            old(player_coords).y as int,
            grid@.len() as int,
            grid.rows_spec(),
        ),
    ensures
        move_allowed(grid@, grid.rows_spec(), *old(player_coords), direction) ==> {
            &&& r == MoveResult::Moved(*final(player_coords))
            &&& final(player_coords).x == moved(*old(player_coords), direction).0
            &&& final(player_coords).y == moved(*old(player_coords), direction).1
        },
        !move_allowed(grid@, grid.rows_spec(), *old(player_coords), direction) ==> {
            &&& r == MoveResult::Blocked
            &&& *final(player_coords) == *old(player_coords)
        },
{
    if grid.check_for_wall(*player_coords, direction) {
        return MoveResult::Blocked;
    }
    match step_coords(*player_coords, direction, grid.cols(), grid.rows()) {
        Some(n) => {
            *player_coords = n;
            MoveResult::Moved(n)
        },
        None => MoveResult::Blocked,
    }
}

/// Generates the walls of `c` from `coins` unless it is already finalized.
fn generate_cell(grid: &mut Grid, c: GridCoordinates, coins: &Vec<bool>)
    requires
        old(grid).wf(),
        in_extent(c.x as int, c.y as int, old(grid)@.len() as int, old(grid).rows_spec()),
        coins@.len() >= 4,
    ensures
        final(grid).wf(),
        final(grid).rows_spec() == old(grid).rows_spec(),
        final(grid)@ == (if old(grid)@[c.x as int][c.y as int].finalized {
            old(grid)@
        } else {
            generated(old(grid)@, old(grid).rows_spec(), c, coins@)
        }),
{
    proof {
        grid.lemma_wf();
        lemma_neighbor_seq(grid@, grid.rows_spec(), c);
        lemma_unfinalized_dirs(neighbor_seq(grid@, grid.rows_spec(), c));
    }
    if let Ok(cell) = grid.get(c) {
        if !cell.finalized {
            let neighbors = get_neighbors(grid, &cell);
            let candidates = unfinalized_directions(&neighbors);
            let directions = select_directions(&candidates, coins);
            grid.connect_neighbors(c, directions);
        }
    }
}

/// What one move of a session gives.
#[derive(Clone, Copy, Debug, PartialEq, Eq, Structural)]
pub enum StepOutcome {
    /// The player moved to these coordinates.
    Moved(GridCoordinates),
    /// A wall or the grid's edge stopped the move; nothing changed.
    Blocked,
    /// The player reached the exit; the session is over.
    Won,
    /// The session was already over; nothing changed.
    Over,
}

/// One exploration: the grid, the player, the exit, and an inert pursuer.
pub struct Session {
    grid: Grid,
    player: GridCoordinates,
    exit: GridCoordinates,
    pursuer: GridCoordinates,
    won: bool,
}

impl Session {
    pub closed spec fn grid_spec(&self) -> Grid {
        self.grid
    }

    pub closed spec fn player_spec(&self) -> GridCoordinates {
        self.player
    }

    pub closed spec fn exit_spec(&self) -> GridCoordinates {
        self.exit
    }

    pub closed spec fn pursuer_spec(&self) -> GridCoordinates {
        self.pursuer
    }

    pub closed spec fn won_spec(&self) -> bool {
        self.won
    }

    /// The session's invariant: the player, the exit and the pursuer are on a
    /// non-empty grid; the player stands on a finalized cell until the exit is
    /// reached; and, on a grid of more than one cell, every finalized cell has
    /// an open wall.
    pub open spec fn wf(&self) -> bool {
        let g = self.grid_spec();
        let cols = g@.len() as int;
        let rows = g.rows_spec();
        &&& g.wf()
        &&& cols > 0 && rows > 0
        &&& in_extent(self.player_spec().x as int, self.player_spec().y as int, cols, rows)
        &&& in_extent(self.exit_spec().x as int, self.exit_spec().y as int, cols, rows)
        &&& in_extent(self.pursuer_spec().x as int, self.pursuer_spec().y as int, cols, rows)
        &&& self.won_spec() ==> self.player_spec() == self.exit_spec()
        &&& !self.won_spec() ==> g@[self.player_spec().x as int][self.player_spec().y as int].finalized
        &&& (cols > 1 || rows > 1) ==> every_finalized_open(g@, rows)
    }

    /// In a session on more than one cell, every finalized cell has at least
    /// one open wall, so no explored cell is sealed off.
    pub proof fn lemma_finalized_cells_open(&self)
        requires
            self.wf(),
            self.grid_spec()@.len() > 1 || self.grid_spec().rows_spec() > 1,
        ensures
            forall|x: int, y: int|
                in_extent(x, y, self.grid_spec()@.len() as int, self.grid_spec().rows_spec())
                    && (#[trigger] self.grid_spec()@[x][y]).finalized
                    ==> self.grid_spec()@[x][y].has_open_wall(),
    {
    }

    /// A session on a fresh `cols` × `rows` grid with the given positions;
    /// the player's cell is generated at once from `coins`. `None` when the
    /// grid is empty, a position is off it, or fewer than four coins are given.
    pub fn with_layout(
        cols: usize,
        rows: usize,
        walls_closed: bool,
        player: GridCoordinates,
        exit: GridCoordinates,
        pursuer: GridCoordinates,
        coins: &Vec<bool>,
    ) -> (r: Option<Session>)
        ensures
            r is Some <==> {
                &&& cols > 0 && rows > 0
                &&& in_extent(player.x as int, player.y as int, cols as int, rows as int)
                &&& in_extent(exit.x as int, exit.y as int, cols as int, rows as int)
                &&& in_extent(pursuer.x as int, pursuer.y as int, cols as int, rows as int)
                &&& coins@.len() >= 4
            },
            r matches Some(s) ==> {
                &&& s.wf()
                &&& s.grid_spec().rows_spec() == rows
                &&& s.grid_spec()@ == generated(
                    baseline(cols as int, rows as int, walls_closed),
                    rows as int,
                    player,
                    coins@,
                )
                &&& s.player_spec() == player
                &&& s.exit_spec() == exit
                &&& s.pursuer_spec() == pursuer
                &&& !s.won_spec()
            },
    {
        if cols == 0 || rows == 0 || player.x >= cols || player.y >= rows || exit.x >= cols
            || exit.y >= rows || pursuer.x >= cols || pursuer.y >= rows || coins.len() < 4 {
            return None;
        }
        let mut grid = Grid::new(cols, rows, walls_closed);
        let ghost g0 = grid@;
        proof {
            grid.lemma_wf();
            let ns = neighbor_seq(g0, rows as int, player);
            lemma_neighbor_seq(g0, rows as int, player);
            lemma_unfinalized_dirs(ns);
            assert forall|i: int| 0 <= i < ns.len() implies !(#[trigger] ns[i]).cell.finalized by {
                let d = ns[i].dir;
                assert(ns[i].cell == g0[moved(player, d).0][moved(player, d).1]);
            }
            lemma_generation_on_entry(g0, rows as int, player, coins@);
        }
        generate_cell(&mut grid, player, coins);
        proof {
            let g = grid@;
            if cols > 1 || rows > 1 {
                assert(candidate_dirs(g0, rows as int, player).len() > 0);
                assert forall|x: int, y: int|
                    in_extent(x, y, cols as int, rows as int) && (#[trigger] g[x][y]).finalized implies g[x][y].has_open_wall() by {
                    if x != player.x || y != player.y {
                        assert(g[x][y].finalized == g0[x][y].finalized);
                    }
                }
            }
        }
        Some(Session { grid, player, exit, pursuer, won: false })
    }

    /// A session on a fresh `cols` × `rows` grid whose player, exit and
    /// pursuer positions and whose first cell's walls are drawn from `rng`.
    /// `None` when the grid is empty.
    pub fn new(cols: usize, rows: usize, walls_closed: bool, rng: &mut StdRng) -> (r: Option<
        Session,
    >)
        ensures
            r is Some <==> cols > 0 && rows > 0,
            r matches Some(s) ==> {
                &&& s.wf()
                &&& s.grid_spec().rows_spec() == rows
                &&& s.grid_spec()@.len() == cols
                &&& !s.won_spec()
                &&& exists|coins: Seq<bool>|
                    s.grid_spec()@ == #[trigger] generated(
                        baseline(cols as int, rows as int, walls_closed),
                        rows as int,
                        s.player_spec(),
                        coins,
                    )
            },
    {
        if cols == 0 || rows == 0 {
            return None;
        }
        let player = GridCoordinates { x: gen_below(rng, cols), y: gen_below(rng, rows) };
        let pursuer = GridCoordinates { x: gen_below(rng, cols), y: gen_below(rng, rows) };
        let exit = GridCoordinates { x: gen_below(rng, cols), y: gen_below(rng, rows) };
        let coins = flip_coins(rng, 4);
        let r = Session::with_layout(cols, rows, walls_closed, player, exit, pursuer, &coins);
        proof {
            if r is Some {
                let s = r->Some_0;
                assert(s.grid_spec()@ == generated(
                    baseline(cols as int, rows as int, walls_closed),
                    rows as int,
                    s.player_spec(),
                    coins@,
                ));
                lemma_generation_on_entry(
                    baseline(cols as int, rows as int, walls_closed),
                    rows as int,
                    player,
                    coins@,
                );
            }
        }
        r
    }

    /// One move of the session with the coin flips for a newly entered cell
    /// given as `coins`. After the exit is reached every move gives `Over`
    /// and changes nothing; a blocked move changes nothing; a move onto the
    /// exit ends the session without generating; any other move generates the
    /// entered cell if it is not finalized yet.
    pub fn step_with_coins(&mut self, direction: Direction, coins: &Vec<bool>) -> (r: StepOutcome)
        requires
            old(self).wf(),
            coins@.len() >= 4,
        ensures
            final(self).wf(),
            old(self).won_spec() ==> r == StepOutcome::Over && *final(self) == *old(self),
            !old(self).won_spec() && !move_allowed(
                old(self).grid_spec()@,
                old(self).grid_spec().rows_spec(),
                old(self).player_spec(),
                direction,
            ) ==> r == StepOutcome::Blocked && *final(self) == *old(self),
            !old(self).won_spec() && move_allowed(
                old(self).grid_spec()@,
                old(self).grid_spec().rows_spec(),
                old(self).player_spec(),
                direction,
            ) ==> {
                let n = final(self).player_spec();
                let g = old(self).grid_spec()@;
                let rows = old(self).grid_spec().rows_spec();
                &&& n.x == moved(old(self).player_spec(), direction).0
                &&& n.y == moved(old(self).player_spec(), direction).1
                &&& final(self).exit_spec() == old(self).exit_spec()
                &&& final(self).pursuer_spec() == old(self).pursuer_spec()
                &&& final(self).grid_spec().rows_spec() == rows
                &&& n == old(self).exit_spec() ==> {
                    &&& r == StepOutcome::Won
                    &&& final(self).won_spec()
                    &&& final(self).grid_spec() == old(self).grid_spec()
                }
                &&& n != old(self).exit_spec() ==> {
                    &&& r == StepOutcome::Moved(n)
                    &&& !final(self).won_spec()
                    &&& final(self).grid_spec()@ == (if g[n.x as int][n.y as int].finalized {
                        g
                    } else {
                        generated(g, rows, n, coins@)
                    })
                }
            },
    {
        if self.won {
            return StepOutcome::Over;
        }
        let ghost g = self.grid@;
        let ghost rows = self.grid.rows_spec();
        let ghost p = self.player;
        proof {
            self.grid.lemma_wf();
            if move_allowed(g, rows, p, direction) {
                lemma_mirrored_walls(&self.grid, p, direction);
            }
        }
        let mut target = self.player;
        match try_move(&self.grid, &mut target, direction) {
            MoveResult::Blocked => StepOutcome::Blocked,
            MoveResult::Moved(n) => {
                self.player = n;
                if n == self.exit {
                    self.won = true;
                    return StepOutcome::Won;
                }
                proof {
                    assert(cell_toward(g, p, direction) == g[n.x as int][n.y as int]);
                    assert(g[n.x as int][n.y as int].has_open_wall());
                    if !g[n.x as int][n.y as int].finalized {
                        lemma_generation_on_entry(g, rows, n, coins@);
                    }
                }
                generate_cell(&mut self.grid, n, coins);
                proof {
                    let g2 = self.grid@;
                    assert forall|x: int, y: int|
                        in_extent(x, y, g.len() as int, rows) && (#[trigger] g2[x][y]).finalized implies g2[x][y].has_open_wall() by {
                        if !g[n.x as int][n.y as int].finalized && (x != n.x || y != n.y) {
                            assert(g2[x][y].finalized == g[x][y].finalized);
                        }
                    }
                }
                StepOutcome::Moved(n)
            },
        }
    }

    /// One move of the session, with the coin flips for a newly entered cell
    /// drawn from `rng`; otherwise as `step_with_coins`.
    pub fn step(&mut self, direction: Direction, rng: &mut StdRng) -> (r: StepOutcome)
        requires
            old(self).wf(),
        ensures
            final(self).wf(),
            old(self).won_spec() ==> r == StepOutcome::Over && *final(self) == *old(self),
            !old(self).won_spec() && !move_allowed(
                old(self).grid_spec()@,
                old(self).grid_spec().rows_spec(),
                old(self).player_spec(),
                direction,
            ) ==> r == StepOutcome::Blocked && *final(self) == *old(self),
            !old(self).won_spec() && move_allowed(
                old(self).grid_spec()@,
                old(self).grid_spec().rows_spec(),
                old(self).player_spec(),
                direction,
            ) ==> {
                let n = final(self).player_spec();
                let g = old(self).grid_spec()@;
                let rows = old(self).grid_spec().rows_spec();
                &&& n.x == moved(old(self).player_spec(), direction).0
                &&& n.y == moved(old(self).player_spec(), direction).1
                &&& final(self).exit_spec() == old(self).exit_spec()
                &&& final(self).pursuer_spec() == old(self).pursuer_spec()
                &&& final(self).grid_spec().rows_spec() == rows
                &&& n == old(self).exit_spec() ==> {
                    &&& r == StepOutcome::Won
                    &&& final(self).won_spec()
                    &&& final(self).grid_spec() == old(self).grid_spec()
                }
                &&& n != old(self).exit_spec() ==> {
                    &&& r == StepOutcome::Moved(n)
                    &&& !final(self).won_spec()
                    &&& g[n.x as int][n.y as int].finalized ==> final(self).grid_spec()@ == g
                    &&& !g[n.x as int][n.y as int].finalized ==> exists|coins: Seq<bool>|
                        final(self).grid_spec()@ == #[trigger] generated(g, rows, n, coins)
                }
            },
    {
        let coins = flip_coins(rng, 4);
        self.step_with_coins(direction, &coins)
    }

    /// The grid, for reading.
    pub fn grid(&self) -> (r: &Grid)
        ensures
            *r == self.grid_spec(),
    {
        &self.grid
    }

    /// The player's coordinates.
    pub fn player(&self) -> (r: GridCoordinates)
        ensures
            r == self.player_spec(),
    {
        self.player
    }

    /// The exit's coordinates.
    pub fn exit(&self) -> (r: GridCoordinates)
        ensures
            r == self.exit_spec(),
    {
        self.exit
    }

    /// The pursuer's coordinates; nothing ever moves it.
    pub fn pursuer(&self) -> (r: GridCoordinates)
        ensures
            r == self.pursuer_spec(),
    {
        self.pursuer
    }

    /// Whether the player has reached the exit.
    pub fn is_won(&self) -> (r: bool)
        ensures
            r == self.won_spec(),
    {
        self.won
    }

    /// The exit as a renderer may show it: only when it is at most two steps
    /// from the player, walls ignored.
    pub fn visible_exit(&self) -> (r: Option<GridCoordinates>)
        ensures
            r == (if manhattan(self.player_spec(), self.exit_spec()) <= 2 {
                Some(self.exit_spec())
            } else {
                None
            }),
    {
        let near_x = if self.player.x >= self.exit.x {
            self.player.x - self.exit.x <= 2
        } else {
            self.exit.x - self.player.x <= 2
        };
        let near_y = if self.player.y >= self.exit.y {
            self.player.y - self.exit.y <= 2
        } else {
            self.exit.y - self.player.y <= 2
        };
        if near_x && near_y && distance_between_coords(self.player, self.exit) <= 2 {
            Some(self.exit)
        } else {
            None
        }
    }
}

} // verus!
