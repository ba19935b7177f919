use lazy_maze::coords::{distance_between_coords, step_coords, Direction, GridCoordinates};
use lazy_maze::grid::{get_neighbors, Cell, Grid, GridError};
use lazy_maze::selector::{
    directions_to_connect_to, flip_coins, select_directions, unfinalized_directions,
};
use lazy_maze::session::{try_move, MoveResult, Session, StepOutcome};
use rand::rngs::StdRng;
use rand::SeedableRng;

const ALL: [Direction; 4] = [Direction::Up, Direction::Down, Direction::Left, Direction::Right];

fn at(x: usize, y: usize) -> GridCoordinates {
    GridCoordinates { x, y }
}

fn cell(grid: &Grid, x: usize, y: usize) -> Cell {
    grid.get(at(x, y)).unwrap()
}

fn snapshot(grid: &Grid) -> Vec<Cell> {
    let mut cells = Vec::new();
    for x in 0..grid.cols() {
        for y in 0..grid.rows() {
            cells.push(cell(grid, x, y));
        }
    }
    cells
}

fn assert_mirrored(grid: &Grid) {
    for x in 0..grid.cols() {
        for y in 0..grid.rows() {
            let c = cell(grid, x, y);
            for d in ALL {
                if let Some(n) = step_coords(at(x, y), d, grid.cols(), grid.rows()) {
                    let other = cell(grid, n.x, n.y);
                    assert_eq!(c.wall(d), other.wall(d.inverse()));
                }
            }
        }
    }
}

fn has_open_wall(c: &Cell) -> bool {
    !c.t_wall || !c.b_wall || !c.l_wall || !c.r_wall
}

#[test]
fn inverse_pairs_directions() {
    assert_eq!(Direction::Up.inverse(), Direction::Down);
    assert_eq!(Direction::Down.inverse(), Direction::Up);
    assert_eq!(Direction::Left.inverse(), Direction::Right);
    assert_eq!(Direction::Right.inverse(), Direction::Left);
}

#[test]
fn step_coords_stays_inside() {
    assert_eq!(step_coords(at(1, 1), Direction::Up, 3, 3), Some(at(1, 2)));
    assert_eq!(step_coords(at(1, 1), Direction::Down, 3, 3), Some(at(1, 0)));
    assert_eq!(step_coords(at(1, 1), Direction::Left, 3, 3), Some(at(0, 1)));
    assert_eq!(step_coords(at(1, 1), Direction::Right, 3, 3), Some(at(2, 1)));
    assert_eq!(step_coords(at(0, 0), Direction::Down, 3, 3), None);
    assert_eq!(step_coords(at(0, 0), Direction::Left, 3, 3), None);
    assert_eq!(step_coords(at(2, 2), Direction::Up, 3, 3), None);
    assert_eq!(step_coords(at(2, 2), Direction::Right, 3, 3), None);
    assert_eq!(step_coords(at(usize::MAX, 0), Direction::Right, usize::MAX, 1), None);
}

#[test]
fn distance_is_manhattan() {
    assert_eq!(distance_between_coords(at(1, 5), at(4, 3)), 5);
    assert_eq!(distance_between_coords(at(2, 2), at(2, 2)), 0);
}

#[test]
fn new_grid_has_baseline_walls() {
    let grid = Grid::new(4, 3, true);
    assert_eq!(grid.cols(), 4);
    assert_eq!(grid.rows(), 3);
    for x in 0..4 {
        for y in 0..3 {
            let c = cell(&grid, x, y);
            assert!(c.t_wall && c.b_wall && c.l_wall && c.r_wall);
            assert!(!c.in_maze && !c.finalized);
            assert_eq!(c.grid_coordinates, at(x, y));
        }
    }
    let open = Grid::new(2, 2, false);
    let c = cell(&open, 1, 1);
    assert!(!c.t_wall && !c.b_wall && !c.l_wall && !c.r_wall);
}

#[test]
fn get_outside_is_out_of_bounds() {
    let grid = Grid::new(2, 3, true);
    assert_eq!(grid.get(at(2, 0)), Err(GridError::OutOfBounds));
    assert_eq!(grid.get(at(0, 3)), Err(GridError::OutOfBounds));
    assert!(grid.get(at(1, 2)).is_ok());
    assert!(!grid.contains(at(2, 0)));
    assert!(grid.contains(at(1, 2)));
}

#[test]
fn open_wall_opens_both_sides() {
    let mut grid = Grid::new(3, 3, true);
    grid.open_wall(at(1, 1), Direction::Up);
    assert!(!cell(&grid, 1, 1).t_wall);
    assert!(!cell(&grid, 1, 2).b_wall);
    assert!(cell(&grid, 1, 1).in_maze && cell(&grid, 1, 2).in_maze);
    grid.open_wall(at(1, 1), Direction::Left);
    assert!(!cell(&grid, 1, 1).l_wall);
    assert!(!cell(&grid, 0, 1).r_wall);
    assert!(cell(&grid, 1, 1).b_wall && cell(&grid, 1, 1).r_wall);
    assert!(cell(&grid, 2, 1).l_wall);
    assert_mirrored(&grid);
}

#[test]
fn open_wall_at_edge_is_a_no_op() {
    let mut grid = Grid::new(3, 3, true);
    let before = snapshot(&grid);
    grid.open_wall(at(0, 0), Direction::Left);
    grid.open_wall(at(0, 0), Direction::Down);
    grid.open_wall(at(2, 2), Direction::Up);
    grid.open_wall(at(5, 5), Direction::Up);
    assert_eq!(snapshot(&grid), before);
}

#[test]
fn finalized_cell_never_changes() {
    let mut grid = Grid::new(3, 3, true);
    grid.open_wall(at(1, 1), Direction::Right);
    grid.finalize(at(1, 1));
    let fixed = cell(&grid, 1, 1);
    assert!(fixed.finalized && fixed.in_maze);
    for d in ALL {
        grid.open_wall(at(1, 1), d);
    }
    grid.open_wall(at(1, 0), Direction::Up);
    grid.open_wall(at(0, 1), Direction::Right);
    grid.finalize(at(1, 1));
    assert_eq!(cell(&grid, 1, 1), fixed);
    assert!(cell(&grid, 1, 0).t_wall);
    assert!(cell(&grid, 0, 1).r_wall);
    assert_mirrored(&grid);
}

#[test]
fn check_for_wall_reads_each_side() {
    let mut grid = Grid::new(3, 3, true);
    grid.open_wall(at(1, 1), Direction::Down);
    assert!(!grid.check_for_wall(at(1, 1), Direction::Down));
    assert!(grid.check_for_wall(at(1, 1), Direction::Up));
    assert!(grid.check_for_wall(at(1, 1), Direction::Left));
    assert!(grid.check_for_wall(at(1, 1), Direction::Right));
    assert!(!grid.check_for_wall(at(1, 0), Direction::Up));
}

#[test]
fn connect_neighbors_opens_then_finalizes() {
    let mut grid = Grid::new(3, 3, true);
    grid.connect_neighbors(at(0, 0), vec![Direction::Up, Direction::Right, Direction::Left]);
    let c = cell(&grid, 0, 0);
    assert!(!c.t_wall && !c.r_wall && c.l_wall && c.b_wall);
    assert!(c.finalized && c.in_maze);
    assert!(!cell(&grid, 0, 1).b_wall && !cell(&grid, 0, 1).finalized);
    assert!(!cell(&grid, 1, 0).l_wall && cell(&grid, 1, 0).in_maze);
    assert_mirrored(&grid);
}

#[test]
fn neighbors_come_in_fixed_order() {
    let grid = Grid::new(3, 3, true);
    let middle = get_neighbors(&grid, &cell(&grid, 1, 1));
    let dirs: Vec<Direction> = middle.iter().map(|n| n.dir).collect();
    assert_eq!(dirs, ALL.to_vec());
    assert_eq!(middle[0].cell.grid_coordinates, at(1, 2));
    assert_eq!(middle[3].cell.grid_coordinates, at(2, 1));
    let corner = get_neighbors(&grid, &cell(&grid, 0, 0));
    let dirs: Vec<Direction> = corner.iter().map(|n| n.dir).collect();
    assert_eq!(dirs, vec![Direction::Up, Direction::Right]);
    let single = Grid::new(1, 1, true);
    assert!(get_neighbors(&single, &cell(&single, 0, 0)).is_empty());
}

#[test]
fn unfinalized_neighbors_are_the_candidates() {
    let mut grid = Grid::new(3, 3, true);
    grid.finalize(at(1, 2));
    grid.finalize(at(0, 1));
    let ns = get_neighbors(&grid, &cell(&grid, 1, 1));
    assert_eq!(unfinalized_directions(&ns), vec![Direction::Down, Direction::Right]);
}

#[test]
fn all_heads_selects_every_candidate() {
    let cands = vec![Direction::Up, Direction::Down, Direction::Left];
    assert_eq!(select_directions(&cands, &vec![true, true, true]), cands);
}

#[test]
fn tails_requeue_the_candidate() {
    let cands = vec![Direction::Up, Direction::Down, Direction::Left];
    assert_eq!(select_directions(&cands, &vec![false, true, false]), vec![Direction::Down]);
    assert_eq!(select_directions(&cands, &vec![false, false, true]), vec![Direction::Left]);
    assert_eq!(
        select_directions(&cands, &vec![true, false, true, true]),
        vec![Direction::Up, Direction::Left]
    );
}

#[test]
fn all_tails_falls_back_to_first_candidate() {
    let cands = vec![Direction::Down, Direction::Left, Direction::Right];
    assert_eq!(select_directions(&cands, &vec![false, false, false, true]), vec![Direction::Down]);
}

#[test]
fn no_candidates_selects_nothing() {
    assert!(select_directions(&Vec::new(), &vec![true, true]).is_empty());
}

#[test]
fn seeded_selection_is_reproducible() {
    let grid = Grid::new(5, 5, true);
    let ns = get_neighbors(&grid, &cell(&grid, 2, 2));
    for seed in 0..20u64 {
        let mut a = StdRng::seed_from_u64(seed);
        let mut b = StdRng::seed_from_u64(seed);
        let first = directions_to_connect_to(ns.clone(), &mut a);
        let second = directions_to_connect_to(ns.clone(), &mut b);
        assert_eq!(first, second);
        assert!(!first.is_empty());
        let mut c = StdRng::seed_from_u64(seed);
        let coins = flip_coins(&mut c, 4);
        assert_eq!(select_directions(&ALL.to_vec(), &coins), first);
    }
}

#[test]
fn coins_are_not_all_alike() {
    let mut rng = StdRng::seed_from_u64(3);
    let coins = flip_coins(&mut rng, 64);
    assert_eq!(coins.len(), 64);
    assert!(coins.iter().any(|c| *c));
    assert!(coins.iter().any(|c| !*c));
}

#[test]
fn try_move_checks_walls_and_edges() {
    let mut grid = Grid::new(3, 3, true);
    let mut p = at(1, 1);
    assert_eq!(try_move(&grid, &mut p, Direction::Up), MoveResult::Blocked);
    assert_eq!(p, at(1, 1));
    grid.open_wall(at(1, 1), Direction::Up);
    assert_eq!(try_move(&grid, &mut p, Direction::Up), MoveResult::Moved(at(1, 2)));
    assert_eq!(p, at(1, 2));
    let open = Grid::new(3, 3, false);
    let mut q = at(0, 0);
    assert_eq!(try_move(&open, &mut q, Direction::Left), MoveResult::Blocked);
    assert_eq!(try_move(&open, &mut q, Direction::Down), MoveResult::Blocked);
    assert_eq!(q, at(0, 0));
}

#[test]
fn edge_moves_leave_session_unchanged() {
    let mut s = Session::with_layout(3, 3, false, at(0, 0), at(2, 2), at(1, 1), &vec![true; 4])
        .unwrap();
    let before = snapshot(s.grid());
    let mut rng = StdRng::seed_from_u64(1);
    assert_eq!(s.step(Direction::Left, &mut rng), StepOutcome::Blocked);
    assert_eq!(s.step(Direction::Down, &mut rng), StepOutcome::Blocked);
    assert_eq!(s.player(), at(0, 0));
    assert_eq!(snapshot(s.grid()), before);
}

#[test]
fn reaching_exit_wins_once() {
    let mut s = Session::with_layout(
        3,
        3,
        true,
        at(2, 1),
        at(2, 2),
        at(0, 0),
        &vec![true, false, false, false],
    )
    .unwrap();
    assert!(!s.grid().check_for_wall(at(2, 1), Direction::Up));
    assert!(!s.grid().check_for_wall(at(2, 2), Direction::Down));
    let coins = vec![true; 4];
    assert_eq!(s.step_with_coins(Direction::Up, &coins), StepOutcome::Won);
    assert!(s.is_won());
    assert_eq!(s.player(), at(2, 2));
    assert!(!cell(s.grid(), 2, 2).finalized);
    let after_win = snapshot(s.grid());
    for d in ALL {
        assert_eq!(s.step_with_coins(d, &coins), StepOutcome::Over);
    }
    assert_eq!(s.player(), at(2, 2));
    assert_eq!(snapshot(s.grid()), after_win);
}

#[test]
fn entering_a_cell_generates_it() {
    let mut s = Session::with_layout(
        4,
        4,
        true,
        at(0, 0),
        at(3, 3),
        at(3, 0),
        &vec![true, false, false, false],
    )
    .unwrap();
    assert!(cell(s.grid(), 0, 0).finalized);
    assert!(!cell(s.grid(), 0, 0).t_wall);
    assert!(cell(s.grid(), 0, 0).r_wall);
    let far_before = cell(s.grid(), 2, 2);
    assert_eq!(s.step_with_coins(Direction::Up, &vec![false, true, false, false]), StepOutcome::Moved(at(0, 1)));
    let entered = cell(s.grid(), 0, 1);
    assert!(entered.finalized && has_open_wall(&entered));
    assert!(!entered.b_wall);
    // candidates of (0, 1): Up, Right; the second coin picks Right
    assert!(!entered.r_wall && entered.t_wall);
    assert!(!cell(s.grid(), 1, 1).l_wall && !cell(s.grid(), 1, 1).finalized);
    assert_eq!(cell(s.grid(), 2, 2), far_before);
    assert!(!cell(s.grid(), 2, 2).finalized);
    assert_mirrored(s.grid());
    let before = snapshot(s.grid());
    assert_eq!(s.step_with_coins(Direction::Down, &vec![true; 4]), StepOutcome::Moved(at(0, 0)));
    assert_eq!(snapshot(s.grid()), before);
}

#[test]
fn layout_rejects_bad_input() {
    let coins = vec![true; 4];
    assert!(Session::with_layout(0, 3, true, at(0, 0), at(0, 0), at(0, 0), &coins).is_none());
    assert!(Session::with_layout(3, 3, true, at(3, 0), at(0, 0), at(0, 0), &coins).is_none());
    assert!(Session::with_layout(3, 3, true, at(0, 0), at(0, 3), at(0, 0), &coins).is_none());
    assert!(Session::with_layout(3, 3, true, at(0, 0), at(0, 0), at(0, 9), &coins).is_none());
    assert!(Session::with_layout(3, 3, true, at(0, 0), at(1, 1), at(0, 0), &vec![true; 3]).is_none());
    let mut rng = StdRng::seed_from_u64(0);
    assert!(Session::new(0, 5, true, &mut rng).is_none());
}

#[test]
fn random_walks_keep_the_maze_sound() {
    for seed in 0..30u64 {
        let mut rng = StdRng::seed_from_u64(seed);
        let mut s = Session::new(6, 5, true, &mut rng).unwrap();
        let p = s.player();
        assert!(p.x < 6 && p.y < 5);
        assert!(s.exit().x < 6 && s.exit().y < 5);
        assert!(s.pursuer().x < 6 && s.pursuer().y < 5);
        let pursuer = s.pursuer();
        let mut walk = StdRng::seed_from_u64(seed + 1000);
        for _ in 0..300 {
            let coins = flip_coins(&mut walk, 2);
            let d = match (coins[0], coins[1]) {
                (true, true) => Direction::Up,
                (true, false) => Direction::Down,
                (false, true) => Direction::Left,
                (false, false) => Direction::Right,
            };
            let outcome = s.step(d, &mut rng);
            if outcome == StepOutcome::Won {
                assert_eq!(s.player(), s.exit());
            }
            let grid = s.grid();
            assert_mirrored(grid);
            for x in 0..6 {
                for y in 0..5 {
                    let c = cell(grid, x, y);
                    if c.finalized {
                        assert!(has_open_wall(&c));
                        assert!(c.in_maze);
                    }
                }
            }
            if !s.is_won() {
                assert!(cell(grid, s.player().x, s.player().y).finalized);
            }
        }
        assert_eq!(s.pursuer(), pursuer);
    }
}

#[test]
fn exit_shows_only_when_near() {
    let coins = vec![true; 4];
    let near = Session::with_layout(5, 5, true, at(1, 1), at(2, 2), at(0, 0), &coins).unwrap();
    assert_eq!(near.visible_exit(), Some(at(2, 2)));
    let edge = Session::with_layout(5, 5, true, at(0, 0), at(0, 2), at(0, 0), &coins).unwrap();
    assert_eq!(edge.visible_exit(), Some(at(0, 2)));
    let far = Session::with_layout(5, 5, true, at(0, 0), at(2, 1), at(0, 0), &coins).unwrap();
    assert_eq!(far.visible_exit(), None);
}

#[test]
fn snapshot_lists_finalized_cells() {
    let mut grid = Grid::new(3, 2, true);
    assert!(grid.finalized_cells().is_empty());
    grid.connect_neighbors(at(2, 1), vec![Direction::Left]);
    grid.finalize(at(0, 0));
    let cells = grid.finalized_cells();
    assert_eq!(cells.len(), 2);
    assert_eq!(cells[0], cell(&grid, 0, 0));
    assert_eq!(cells[1], cell(&grid, 2, 1));
    assert!(!cells[1].l_wall);
}
