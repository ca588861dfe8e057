use game_of_life::engine::State;
use game_of_life::grid::{Grid, GridError, GridType, GridVec2};

fn pos(row: isize, column: isize) -> GridVec2<isize> {
    GridVec2::new(row, column)
}

fn live_cells(g: &Grid) -> Vec<(isize, isize)> {
    let mut out = Vec::new();
    for r in 1..=g.rows {
        for c in 1..=g.columns {
            if g.state_at(&pos(r, c)) == State::Alive {
                out.push((r, c));
            }
        }
    }
    out
}

fn grid_with(rows: isize, columns: isize, kind: GridType, live: &[(isize, isize)]) -> Grid {
    let mut g = Grid::new(rows, columns, kind);
    for &(r, c) in live {
        g.make_cell(&pos(r, c));
    }
    g
}

#[test]
fn new_grid_is_all_dead() {
    let g = Grid::new(3, 4, GridType::Closed);
    assert_eq!(g.cells.len(), 12);
    assert!(g.cells.iter().all(|s| *s == State::Dead));
    assert_eq!(g.rows, 3);
    assert_eq!(g.columns, 4);
}

#[test]
fn try_new_rejects_bad_dimensions() {
    assert!(matches!(Grid::try_new(0, 4, GridType::Open), Err(GridError::InvalidDimensions)));
    assert!(matches!(Grid::try_new(4, -1, GridType::Open), Err(GridError::InvalidDimensions)));
    assert!(matches!(
        Grid::try_new(isize::MAX, 2, GridType::Closed),
        Err(GridError::InvalidDimensions)
    ));
    let g = Grid::try_new(2, 3, GridType::Open).unwrap();
    assert_eq!(g.cells.len(), 6);
}

#[test]
fn from_offset_adds_componentwise() {
    let p = pos(3, 4).from_offset((-1, 2));
    assert_eq!((p.row, p.column), (2, 6));
}

#[test]
fn closed_index_is_row_major() {
    let g = Grid::new(3, 4, GridType::Closed);
    assert_eq!(g.get_index_closed(&pos(1, 1)), Some(0));
    assert_eq!(g.get_index_closed(&pos(2, 3)), Some(6));
    assert_eq!(g.get_index_closed(&pos(3, 4)), Some(11));
    assert_eq!(g.get_index_closed(&pos(0, 1)), None);
    assert_eq!(g.get_index_closed(&pos(4, 1)), None);
    assert_eq!(g.get_index_closed(&pos(1, 5)), None);
}

#[test]
fn open_index_wraps() {
    let g = Grid::new(10, 10, GridType::Open);
    assert_eq!(g.get_index_open(&pos(0, 0)), 99);
    assert_eq!(g.get_index_open(&pos(-1, 11)), 80);
    assert_eq!(g.get_index_open(&pos(-10, 1)), 90);
    assert_eq!(g.get_index_open(&pos(11, 12)), 1);
    assert_eq!(g.get_index_open(&pos(20, 30)), 99);
    assert_eq!(g.get_index_open(&pos(5, 5)), 44);
}

#[test]
fn closed_set_then_get_in_bounds() {
    let mut g = Grid::new(4, 5, GridType::Closed);
    for r in 1..=4 {
        for c in 1..=5 {
            g.set_state(&pos(r, c), State::Alive);
            assert_eq!(g.state_at(&pos(r, c)), State::Alive);
            g.set_state(&pos(r, c), State::Dead);
            assert_eq!(g.state_at(&pos(r, c)), State::Dead);
        }
    }
}

#[test]
fn closed_set_outside_is_noop() {
    let mut g = grid_with(4, 5, GridType::Closed, &[(1, 1), (4, 5)]);
    let before = g.cells.clone();
    for &(r, c) in &[(0, 1), (5, 1), (1, 0), (1, 6), (-3, -3), (isize::MAX, 2)] {
        g.set_state(&pos(r, c), State::Alive);
        assert_eq!(g.cells, before);
        assert_eq!(g.state_at(&pos(r, c)), State::Dead);
    }
}

#[test]
fn open_state_repeats_with_period() {
    let g = grid_with(3, 4, GridType::Open, &[(2, 3)]);
    for k in -3isize..=3 {
        assert_eq!(g.state_at(&pos(2 + 3 * k, 3)), State::Alive);
        assert_eq!(g.state_at(&pos(2, 3 + 4 * k)), State::Alive);
        assert_eq!(g.state_at(&pos(1 + 3 * k, 3)), State::Dead);
    }
    assert_eq!(g.state_at(&pos(6, 3)), State::Dead);
    assert_eq!(g.state_at(&pos(8, 3)), State::Alive);
}

#[test]
fn open_set_wraps() {
    let mut g = Grid::new(3, 3, GridType::Open);
    g.make_cell(&pos(4, 0));
    assert_eq!(live_cells(&g), vec![(1, 3)]);
    g.kill_cell(&pos(-2, 6));
    assert_eq!(live_cells(&g), vec![]);
}

#[test]
fn empty_grid_has_no_neighbours() {
    for kind in [GridType::Closed, GridType::Open] {
        let g = Grid::new(4, 3, kind);
        for r in -1..=6 {
            for c in -1..=5 {
                assert_eq!(g.get_nearby(&pos(r, c)), 0);
            }
        }
    }
}

#[test]
fn neighbours_depend_on_policy() {
    let live = [(1, 1), (1, 3), (3, 1), (3, 3)];
    let closed = grid_with(3, 3, GridType::Closed, &live);
    let open = grid_with(3, 3, GridType::Open, &live);
    assert_eq!(closed.get_nearby(&pos(2, 2)), 4);
    assert_eq!(closed.get_nearby(&pos(1, 1)), 0);
    assert_eq!(open.get_nearby(&pos(1, 1)), 3);
    assert_eq!(open.get_nearby(&pos(2, 2)), 4);
}

#[test]
fn isolated_cell_dies() {
    let g = grid_with(5, 5, GridType::Closed, &[(3, 3)]);
    assert_eq!(live_cells(&g.step()), vec![]);
    let g = grid_with(5, 5, GridType::Closed, &[(3, 3), (3, 4)]);
    assert_eq!(live_cells(&g.step()), vec![]);
}

#[test]
fn live_cell_with_two_or_three_survives() {
    let g = grid_with(5, 5, GridType::Closed, &[(2, 2), (3, 3), (4, 4)]);
    let next = g.step();
    assert_eq!(next.state_at(&pos(3, 3)), State::Alive);
    let g = grid_with(5, 5, GridType::Closed, &[(2, 2), (2, 4), (4, 2), (3, 3)]);
    assert_eq!(g.get_nearby(&pos(3, 3)), 3);
    assert_eq!(g.step().state_at(&pos(3, 3)), State::Alive);
}

#[test]
fn dead_cell_with_three_is_born() {
    let g = grid_with(5, 5, GridType::Closed, &[(2, 2), (2, 4), (4, 3)]);
    assert_eq!(g.get_nearby(&pos(3, 3)), 3);
    assert_eq!(g.step().state_at(&pos(3, 3)), State::Alive);
}

#[test]
fn crowded_cell_dies() {
    let g = grid_with(5, 5, GridType::Closed, &[(2, 2), (2, 3), (2, 4), (3, 2), (3, 3)]);
    assert_eq!(g.get_nearby(&pos(3, 3)), 4);
    assert_eq!(g.step().state_at(&pos(3, 3)), State::Dead);
}

#[test]
fn blinker_has_period_two() {
    let start = grid_with(7, 7, GridType::Closed, &[(4, 3), (4, 4), (4, 5)]);
    let once = start.step();
    assert_eq!(live_cells(&once), vec![(3, 4), (4, 4), (5, 4)]);
    assert_ne!(once.cells, start.cells);
    let twice = once.step();
    assert_eq!(twice.cells, start.cells);
}

#[test]
fn blinker_example_five_by_five() {
    let start = grid_with(5, 5, GridType::Closed, &[(3, 2), (3, 3), (3, 4)]);
    let once = start.step();
    assert_eq!(live_cells(&once), vec![(2, 3), (3, 3), (4, 3)]);
    let twice = once.step();
    assert_eq!(live_cells(&twice), vec![(3, 2), (3, 3), (3, 4)]);
}

#[test]
fn step_leaves_input_unchanged() {
    let g = grid_with(5, 5, GridType::Open, &[(1, 1), (1, 2), (2, 1), (5, 5)]);
    let before = g.cells.clone();
    let _ = g.step();
    assert_eq!(g.cells, before);
}

#[test]
fn open_grid_wraps_in_step() {
    let g = grid_with(5, 5, GridType::Open, &[(1, 1), (1, 2), (1, 5)]);
    let next = g.step();
    assert_eq!(live_cells(&next), vec![(1, 1), (2, 1), (5, 1)]);
    let closed = grid_with(5, 5, GridType::Closed, &[(1, 1), (1, 2), (1, 5)]);
    assert_eq!(live_cells(&closed.step()), vec![]);
}

#[test]
fn state_symbols() {
    assert_eq!(State::Alive.symbol(), '\u{2588}');
    assert_eq!(State::Dead.symbol(), ' ');
}
