use game_of_life::engine::{ConwayEngine, State};
use game_of_life::grid::{GridType, GridVec2};
use game_of_life::shape::Shape;

fn live(e: &ConwayEngine) -> Vec<(isize, isize)> {
    let g = e.grid();
    let mut out = Vec::new();
    for r in 1..=g.rows {
        for c in 1..=g.columns {
            if g.state_at(&GridVec2::new(r, c)) == State::Alive {
                out.push((r, c));
            }
        }
    }
    out
}

#[test]
fn engine_starts_at_generation_zero() {
    let e = ConwayEngine::new(4, 6, GridType::Open);
    assert_eq!(e.generation(), 0);
    assert_eq!(e.grid().rows, 4);
    assert_eq!(e.grid().columns, 6);
    assert_eq!(live(&e), vec![]);
}

#[test]
fn next_generation_counts_and_steps() {
    let mut e = ConwayEngine::new(5, 5, GridType::Closed);
    e.set_range((3, 3), (2, 4));
    assert_eq!(live(&e), vec![(3, 2), (3, 3), (3, 4)]);
    e.next_generation();
    assert_eq!(e.generation(), 1);
    assert_eq!(live(&e), vec![(2, 3), (3, 3), (4, 3)]);
    e.next_generation();
    assert_eq!(e.generation(), 2);
    assert_eq!(live(&e), vec![(3, 2), (3, 3), (3, 4)]);
}

#[test]
fn set_cell_toggles_in_bounds_only() {
    let mut e = ConwayEngine::new(3, 3, GridType::Open);
    e.set_cell(&GridVec2::new(2, 2));
    assert_eq!(live(&e), vec![(2, 2)]);
    e.set_cell(&GridVec2::new(2, 2));
    assert_eq!(live(&e), vec![]);
    e.set_cell(&GridVec2::new(5, 2));
    e.set_cell(&GridVec2::new(0, 0));
    assert_eq!(live(&e), vec![]);
}

#[test]
fn set_range_accepts_either_order_and_clips() {
    let mut e = ConwayEngine::new(4, 4, GridType::Closed);
    e.set_range((2, 1), (4, 3));
    assert_eq!(live(&e), vec![(1, 3), (1, 4), (2, 3), (2, 4)]);
    e.set_range((3, 9), (0, 1));
    assert_eq!(live(&e), vec![(1, 3), (1, 4), (2, 3), (2, 4), (3, 1), (4, 1)]);
    e.set_range((1, 2), (3, 4));
    assert_eq!(live(&e), vec![(3, 1), (4, 1)]);
}

#[test]
fn offset_set_stamps_glider() {
    let mut e = ConwayEngine::new(6, 6, GridType::Closed);
    e.offset_set((2, 2), (2, 2), &Shape::Glider.offsets());
    assert_eq!(live(&e), vec![(2, 2), (2, 3), (3, 2), (3, 4), (4, 2)]);
}

#[test]
fn offset_set_overlapping_stamps_cancel() {
    let mut e = ConwayEngine::new(6, 6, GridType::Closed);
    e.offset_set((1, 2), (1, 1), &[(0, 0)]);
    assert_eq!(live(&e), vec![(1, 1), (2, 1)]);
    e.offset_set((1, 1), (2, 2), &[(0, 0), (1, -1)]);
    assert_eq!(live(&e), vec![(1, 1), (1, 2)]);
}

#[test]
fn offset_set_circle_off_the_edge() {
    let mut e = ConwayEngine::new(3, 3, GridType::Closed);
    e.offset_set((2, 2), (1, 1), &Shape::Circle.offsets());
    assert_eq!(live(&e), vec![(2, 1), (3, 2)]);
}

#[test]
fn randomize_flips_drawn_cells() {
    let mut e = ConwayEngine::new(2, 3, GridType::Closed);
    e.set_cell(&GridVec2::new(1, 1));
    e.randomize(&vec![true, false, true, false, false, true]);
    assert_eq!(live(&e), vec![(1, 3), (2, 3)]);
}

#[test]
fn clear_and_resize_keep_generation() {
    let mut e = ConwayEngine::new(3, 3, GridType::Closed);
    e.set_range((1, 3), (1, 3));
    e.next_generation();
    e.clear();
    assert_eq!(live(&e), vec![]);
    assert_eq!(e.generation(), 1);
    e.resize(2, 5, GridType::Open);
    assert_eq!(e.grid().rows, 2);
    assert_eq!(e.grid().columns, 5);
    assert_eq!(e.grid().grid_type, GridType::Open);
    assert_eq!(e.generation(), 1);
}

#[test]
fn shape_offsets_are_the_patterns() {
    assert_eq!(Shape::Square.offsets().len(), 8);
    assert_eq!(Shape::Circle.offsets(), vec![(0, 0), (1, -1), (1, 1), (2, 0)]);
    assert_eq!(Shape::Glider.offsets(), vec![(0, 0), (0, 1), (1, 0), (1, 2), (2, 0)]);
}
