//! Laws that hold of every grid, stated over the grid model.

use vstd::prelude::*;
use vstd::arithmetic::div_mod::lemma_mod_multiples_vanish;

use crate::engine::State;
use crate::grid::{
    alive_count, lemma_index_in_range, lemma_position_of_index, lemma_wrap_identity, lemma_index_inverse, moore, rule, wrap, GridModel, GridType,
};

verus! {

/// A position resolves to a cell that exists.
pub proof fn lemma_resolve_in_range(g: GridModel, r: int, c: int)
    requires
        g.wf(),
    ensures
        g.resolve(r, c) is Some ==> 0 <= g.resolve(r, c).unwrap() < g.cells.len(),
        g.in_bounds(r, c) ==> g.resolve(r, c) == Some(g.index(r, c)),
{
    if g.in_bounds(r, c) {
        lemma_index_in_range(g.rows, g.columns, r, c);
        lemma_wrap_identity(r, g.rows);
        lemma_wrap_identity(c, g.columns);
    }
    lemma_index_in_range(g.rows, g.columns, wrap(r, g.rows), wrap(c, g.columns));
}

/// On a closed grid, reading an in-bounds position after writing `s` there gives `s`.
pub proof fn lemma_closed_set_then_get(g: GridModel, r: int, c: int, s: State)
    requires
        g.wf(),
        g.grid_type == GridType::Closed,
        g.in_bounds(r, c),
    ensures
        g.set_state(r, c, s).state_at(r, c) == s,
{
    lemma_resolve_in_range(g, r, c);
}

/// On a closed grid, writing outside the bounds changes nothing, and reading there gives `Dead`.
pub proof fn lemma_closed_outside(g: GridModel, r: int, c: int, s: State)
    requires
        g.wf(),
        g.grid_type == GridType::Closed,
        !g.in_bounds(r, c),
    ensures
        g.set_state(r, c, s) == g,
        g.state_at(r, c) == State::Dead,
{
}

/// On an open grid, moving a position by whole periods along either axis reads the same cell.
pub proof fn lemma_open_period(g: GridModel, r: int, c: int, k: int)
    requires
        g.wf(),
        g.grid_type == GridType::Open,
    ensures
        g.state_at(r + k * g.rows, c) == g.state_at(r, c),
        g.state_at(r, c + k * g.columns) == g.state_at(r, c),
{
    lemma_mod_multiples_vanish(k, r - 1, g.rows);
    lemma_mod_multiples_vanish(k, c - 1, g.columns);
    assert(r + k * g.rows - 1 == g.rows * k + (r - 1)) by (nonlinear_arith);
    assert(c + k * g.columns - 1 == g.columns * k + (c - 1)) by (nonlinear_arith);
}

/// On a grid whose cells are all dead, every position has no live neighbour.
pub proof fn lemma_dead_grid_no_neighbors(g: GridModel, r: int, c: int)
    requires
        g.wf(),
        forall|i: int| 0 <= i < g.cells.len() ==> g.cells[i] == State::Dead,
    ensures
        g.neighbors(r, c) == 0,
{
    lemma_dead_grid_live_among(g, r, c, moore());
}

proof fn lemma_dead_grid_live_among(g: GridModel, r: int, c: int, offs: Seq<(isize, isize)>)
    requires
        g.wf(),
        forall|i: int| 0 <= i < g.cells.len() ==> g.cells[i] == State::Dead,
    ensures
        g.live_among(r, c, offs) == 0,
    decreases offs.len(),
{
    if offs.len() > 0 {
        let o = offs.last();
        lemma_dead_grid_live_among(g, r, c, offs.drop_last());
        lemma_resolve_in_range(g, r + o.0, c + o.1);
    }
}

/// The state of an in-bounds cell one generation later follows the B3/S23 rule.
pub proof fn lemma_step_cell(g: GridModel, r: int, c: int)
    requires
        g.wf(),
        g.in_bounds(r, c),
    ensures
        g.step().wf(),
        g.step().state_at(r, c) == rule(g.state_at(r, c), g.neighbors(r, c)),
{
    lemma_resolve_in_range(g, r, c);
    lemma_resolve_in_range(g.step(), r, c);
    lemma_index_inverse(g.columns, r, c);
}

/// A live cell with fewer than two live neighbours dies, one with two or three survives, one
/// with more than three dies, and a dead cell with exactly three live neighbours comes alive.
pub proof fn lemma_life_rule(g: GridModel, r: int, c: int)
    requires
        g.wf(),
        g.in_bounds(r, c),
    ensures
        g.state_at(r, c) == State::Alive && g.neighbors(r, c) < 2 ==> g.step().state_at(r, c)
            == State::Dead,
        g.state_at(r, c) == State::Alive && (g.neighbors(r, c) == 2 || g.neighbors(r, c) == 3)
            ==> g.step().state_at(r, c) == State::Alive,
        g.state_at(r, c) == State::Alive && g.neighbors(r, c) > 3 ==> g.step().state_at(r, c)
            == State::Dead,
        g.state_at(r, c) == State::Dead && g.neighbors(r, c) == 3 ==> g.step().state_at(r, c)
            == State::Alive,
{
    lemma_step_cell(g, r, c);
}

/// The neighbour count written out over the eight displacements.
pub proof fn lemma_neighbors_unfold(g: GridModel, r: int, c: int)
    ensures
        g.neighbors(r, c) == alive_count(g.state_at(r - 1, c - 1)) + alive_count(
            g.state_at(r - 1, c),
        ) + alive_count(g.state_at(r - 1, c + 1)) + alive_count(g.state_at(r, c - 1))
            + alive_count(g.state_at(r, c + 1)) + alive_count(g.state_at(r + 1, c - 1))
            + alive_count(g.state_at(r + 1, c)) + alive_count(g.state_at(r + 1, c + 1)),
{
    reveal_with_fuel(GridModel::live_among, 9);
    let m = moore();
    assert(m.drop_last() =~= m.take(7));
    assert(m.take(7).drop_last() =~= m.take(6));
    assert(m.take(6).drop_last() =~= m.take(5));
    assert(m.take(5).drop_last() =~= m.take(4));
    assert(m.take(4).drop_last() =~= m.take(3));
    assert(m.take(3).drop_last() =~= m.take(2));
    assert(m.take(2).drop_last() =~= m.take(1));
    assert(m.take(1).drop_last() =~= Seq::<(isize, isize)>::empty());
}

/// Whether `(x, y)` is one of the three cells of a blinker centred at `(r, c)`.
pub open spec fn blinker_cell(r: int, c: int, vertical: bool, x: int, y: int) -> bool {
    if vertical {
        y == c && r - 1 <= x <= r + 1
    } else {
        x == r && c - 1 <= y <= c + 1
    }
}

/// `g` is a closed grid whose live cells are exactly a blinker centred at `(r, c)`, which keeps
/// a margin of one cell from every edge in both of its phases.
pub open spec fn is_blinker(g: GridModel, r: int, c: int, vertical: bool) -> bool {
    &&& g.wf()
    &&& g.grid_type == GridType::Closed
    &&& 2 <= r < g.rows
    &&& 2 <= c < g.columns
    &&& forall|x: int, y: int|
        g.in_bounds(x, y) ==> #[trigger] g.state_at(x, y) == (if blinker_cell(r, c, vertical, x, y) {
            State::Alive
        } else {
            State::Dead
        })
}

proof fn lemma_blinker_everywhere(g: GridModel, r: int, c: int, vertical: bool)
    requires
        is_blinker(g, r, c, vertical),
    ensures
        forall|x: int, y: int|
            #[trigger] g.state_at(x, y) == (if blinker_cell(r, c, vertical, x, y) {
                State::Alive
            } else {
                State::Dead
            }),
{
}

proof fn lemma_blinker_flips(g: GridModel, r: int, c: int, vertical: bool)
    requires
        is_blinker(g, r, c, vertical),
    ensures
        is_blinker(g.step(), r, c, !vertical),
{
    lemma_blinker_everywhere(g, r, c, vertical);
    let h = g.step();
    assert forall|x: int, y: int| h.in_bounds(x, y) implies #[trigger] h.state_at(x, y) == (if blinker_cell(
        r,
        c,
        !vertical,
        x,
        y,
    ) {
        State::Alive
    } else {
        State::Dead
    }) by {
        lemma_step_cell(g, x, y);
        lemma_neighbors_unfold(g, x, y);
    }
    lemma_step_cell(g, 1, 1);
}

proof fn lemma_blinker_unique(g: GridModel, h: GridModel, r: int, c: int, vertical: bool)
    requires
        is_blinker(g, r, c, vertical),
        is_blinker(h, r, c, vertical),
        g.rows == h.rows,
        g.columns == h.columns,
    ensures
        g == h,
{
    assert forall|i: int| 0 <= i < g.cells.len() implies g.cells[i] == h.cells[i] by {
        lemma_position_of_index(g.rows, g.columns, i);
        let x = i / g.columns + 1;
        let y = i % g.columns + 1;
        lemma_resolve_in_range(g, x, y);
        lemma_resolve_in_range(h, x, y);
        assert(g.state_at(x, y) == h.state_at(x, y));
    }
    assert(g.cells =~= h.cells);
}

/// A blinker in a closed grid with room around it turns into the other phase after one step
/// and returns to where it started after two: it oscillates with period 2.
pub proof fn lemma_blinker_period_two(g: GridModel, r: int, c: int, vertical: bool)
    requires
        is_blinker(g, r, c, vertical),
    ensures
        is_blinker(g.step(), r, c, !vertical),
        g.step() != g,
        g.step().step() == g,
{
    lemma_blinker_flips(g, r, c, vertical);
    lemma_blinker_flips(g.step(), r, c, !vertical);
    lemma_blinker_unique(g.step().step(), g, r, c, vertical);
    lemma_blinker_everywhere(g, r, c, vertical);
    lemma_blinker_everywhere(g.step(), r, c, !vertical);
    if vertical {
        assert(g.state_at(r - 1, c) != g.step().state_at(r - 1, c));
    } else {
        assert(g.state_at(r, c - 1) != g.step().state_at(r, c - 1));
    }
}

} // verus!
