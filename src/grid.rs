use vstd::prelude::*;
use vstd::arithmetic::div_mod::{lemma_fundamental_div_mod, lemma_fundamental_div_mod_converse};

use crate::engine::State;

verus! {

/// How positions outside the grid's rectangle are resolved.
#[derive(Debug, PartialEq, Eq, Clone, Copy, Structural)]
pub enum GridType {
    /// Outside positions are permanently dead.
    Closed,
    /// Outside positions wrap around: the grid is a torus.
    Open,
}

/// A `(row, column)` pair; positions on a grid are 1-based.
#[derive(Debug)]
pub struct GridVec2<T> {
    pub row: T,
    pub column: T,
}

/// A displacement `(rows, columns)` between two positions.
pub type Offset = (isize, isize);

impl<T> GridVec2<T> {
    pub fn new(row: T, column: T) -> (r: GridVec2<T>)
        ensures
            r.row == row,
            r.column == column,
    {
        GridVec2 { row, column }
    }
}

impl GridVec2<isize> {
    /// The position displaced by `offset`.
    pub fn from_offset(&self, offset: Offset) -> (r: GridVec2<isize>)
        requires
            isize::MIN <= self.row + offset.0 <= isize::MAX,
            isize::MIN <= self.column + offset.1 <= isize::MAX,
        ensures
            r.row == self.row + offset.0,
            r.column == self.column + offset.1,
    {
        GridVec2 { row: self.row + offset.0, column: self.column + offset.1 }
    }
}

/// The coordinate in `[1, n]` that `v` lands on when the axis wraps with period `n`.
pub open spec fn wrap(v: int, n: int) -> int {
    (v - 1) % n + 1
}

/// A coordinate already in `[1, n]` wraps onto itself.
pub proof fn lemma_wrap_identity(v: int, n: int)
    requires
        1 <= v <= n,
    ensures
        wrap(v, n) == v,
{
    lemma_fundamental_div_mod_converse(v - 1, n, 0, v - 1);
}

/// Wraps one coordinate onto `[1, n]`.
fn wrap_coord(v: isize, n: isize) -> (r: isize)
    requires
        n >= 1,
    ensures
        r == wrap(v as int, n as int),
        1 <= r <= n,
{
    if v <= 0 {
        let m: usize = if v == 0 { 0 } else { ((-1 - v) as usize) + 1 };
        let k: usize = m % (n as usize);
        proof {
            let q = m as int / n as int;
            lemma_fundamental_div_mod(m as int, n as int);
            assert(m as int == -(v as int));
            assert(v as int - 1 == (-q - 1) * (n as int) + (n as int - 1 - k as int)) by (nonlinear_arith)
                requires
                    m as int == (n as int) * q + k as int,
                    m as int == -(v as int),
            ;
            lemma_fundamental_div_mod_converse(v as int - 1, n as int, -q - 1, n as int - 1 - k as int);
        }
        (n - 1 - k as isize) + 1
    } else if v > n {
        let k: usize = ((v - 1) as usize) % (n as usize);
        k as isize + 1
    } else {
        proof {
            lemma_fundamental_div_mod_converse(v as int - 1, n as int, 0, v as int - 1);
        }
        v
    }
}


/// The eight displacements of the Moore neighbourhood.
pub open spec fn moore() -> Seq<Offset> {
    seq![
        (-1isize, -1isize),
        (-1isize, 0isize),
        (-1isize, 1isize),
        (0isize, -1isize),
        (0isize, 1isize),
        (1isize, -1isize),
        (1isize, 0isize),
        (1isize, 1isize),
    ]
}

/// 1 for a live cell, 0 for a dead one.
pub open spec fn alive_count(s: State) -> int {
    if s == State::Alive {
        1
    } else {
        0
    }
}

/// The B3/S23 rule: the next state of a cell in state `cur` with `n` live neighbours.
pub open spec fn rule(cur: State, n: int) -> State {
    if n == 3 {
        State::Alive
    } else if n == 2 {
        cur
    } else {
        State::Dead
    }
}

/// The other state.
pub open spec fn flip(s: State) -> State {
    match s {
        State::Alive => State::Dead,
        State::Dead => State::Alive,
    }
}

/// The positions `(x, y)` with `r1 <= x <= r2` and `c1 <= y <= c2`.
pub open spec fn rect(r1: int, r2: int, c1: int, c2: int) -> spec_fn(int, int) -> bool {
    |x: int, y: int| r1 <= x <= r2 && c1 <= y <= c2
}

/// The mathematical value of a grid: its dimensions, policy and row-major cells.
pub struct GridModel {
    pub rows: int,
    pub columns: int,
    pub grid_type: GridType,
    pub cells: Seq<State>,
}

impl GridModel {
    pub open spec fn wf(self) -> bool {
        &&& self.rows >= 1
        &&& self.columns >= 1
        &&& self.cells.len() == self.rows * self.columns
    }

    pub open spec fn in_bounds(self, r: int, c: int) -> bool {
        1 <= r <= self.rows && 1 <= c <= self.columns
    }

    /// Row-major index of the in-bounds position `(r, c)`.
    pub open spec fn index(self, r: int, c: int) -> int {
        (r - 1) * self.columns + (c - 1)
    }

    /// The cell that the position `(r, c)` stands for under the grid's policy, if any.
    pub open spec fn resolve(self, r: int, c: int) -> Option<int> {
        match self.grid_type {
            GridType::Closed => if self.in_bounds(r, c) {
                Some(self.index(r, c))
            } else {
                None
            },
            GridType::Open => Some(self.index(wrap(r, self.rows), wrap(c, self.columns))),
        }
    }

    /// The state seen at any position: dead where the position stands for no cell.
    pub open spec fn state_at(self, r: int, c: int) -> State {
        match self.resolve(r, c) {
            Some(i) => self.cells[i],
            None => State::Dead,
        }
    }

    /// The grid after writing `s` at the position `(r, c)`.
    pub open spec fn set_state(self, r: int, c: int, s: State) -> GridModel {
        match self.resolve(r, c) {
            Some(i) => GridModel { cells: self.cells.update(i, s), ..self },
            None => self,
        }
    }

    /// The grid with the state of every in-bounds position `(x, y)` for which `f(x, y)` holds
    /// flipped between alive and dead.
    pub open spec fn flip_where(self, f: spec_fn(int, int) -> bool) -> GridModel {
        GridModel {
            cells: Seq::new(
                self.cells.len(),
                |i: int|
                    if f(i / self.columns + 1, i % self.columns + 1) {
                        flip(self.cells[i])
                    } else {
                        self.cells[i]
                    },
            ),
            ..self
        }
    }

    /// Live cells seen at `(r, c)` displaced by each of `offs`.
    pub open spec fn live_among(self, r: int, c: int, offs: Seq<Offset>) -> int
        decreases offs.len(),
    {
        if offs.len() == 0 {
            0
        } else {
            let o = offs.last();
            self.live_among(r, c, offs.drop_last()) + alive_count(self.state_at(r + o.0, c + o.1))
        }
    }

    /// Live neighbours of `(r, c)`.
    pub open spec fn neighbors(self, r: int, c: int) -> int {
        self.live_among(r, c, moore())
    }

    /// The grid one generation later.
    pub open spec fn step(self) -> GridModel {
        GridModel {
            cells: Seq::new(
                self.cells.len(),
                |i: int|
                    rule(
                        self.state_at(i / self.columns + 1, i % self.columns + 1),
                        self.neighbors(i / self.columns + 1, i % self.columns + 1),
                    ),
            ),
            ..self
        }
    }
}

/// The row-major index of an in-bounds position lies inside the cell buffer.
pub proof fn lemma_index_in_range(rows: int, columns: int, r: int, c: int)
    requires
        1 <= r <= rows,
        1 <= c <= columns,
    ensures
        0 <= (r - 1) * columns + (c - 1) < rows * columns,
{
    assert(0 <= (r - 1) * columns + (c - 1) < rows * columns) by (nonlinear_arith)
        requires
            1 <= r <= rows,
            1 <= c <= columns,
    ;
}

/// Each dimension is at most the number of cells.
pub proof fn lemma_dims_bounded(rows: int, columns: int)
    requires
        rows >= 1,
        columns >= 1,
    ensures
        rows <= rows * columns,
        columns <= rows * columns,
{
    assert(rows <= rows * columns && columns <= rows * columns) by (nonlinear_arith)
        requires
            rows >= 1,
            columns >= 1,
    ;
}

/// Every index of the cell buffer is the index of an in-bounds position.
pub proof fn lemma_position_of_index(rows: int, columns: int, i: int)
    requires
        rows >= 1,
        columns >= 1,
        0 <= i < rows * columns,
    ensures
        1 <= i / columns + 1 <= rows,
        1 <= i % columns + 1 <= columns,
        (i / columns) * columns + i % columns == i,
{
    lemma_fundamental_div_mod(i, columns);
    let q = i / columns;
    assert(q * columns == columns * q) by (nonlinear_arith);
    assert(q < rows) by (nonlinear_arith)
        requires
            i == columns * q + i % columns,
            0 <= i % columns,
            i < rows * columns,
            columns >= 1,
    ;
    assert(q >= 0) by (nonlinear_arith)
        requires
            i == columns * q + i % columns,
            i % columns < columns,
            i >= 0,
            columns >= 1,
    ;
}

/// An in-bounds position is recovered from its row-major index.
pub proof fn lemma_index_inverse(columns: int, r: int, c: int)
    requires
        columns >= 1,
        1 <= c <= columns,
    ensures
        ((r - 1) * columns + (c - 1)) / columns == r - 1,
        ((r - 1) * columns + (c - 1)) % columns == c - 1,
{
    lemma_fundamental_div_mod_converse((r - 1) * columns + (c - 1), columns, r - 1, c - 1);
}

/// A rectangle of cells stored row-major, with the policy that resolves positions outside it.
#[derive(Debug, Clone)]
pub struct Grid {
    pub cells: Vec<State>,
    pub columns: isize,
    pub rows: isize,
    pub grid_type: GridType,
}

impl View for Grid {
    type V = GridModel;

    open spec fn view(&self) -> GridModel {
        GridModel {
            rows: self.rows as int,
            columns: self.columns as int,
            grid_type: self.grid_type,
            cells: self.cells@,
        }
    }
}

/// Why a grid could not be made.
#[derive(Debug, PartialEq, Eq, Clone, Copy, Structural)]
pub enum GridError {
    /// Fewer than one row or column, or more cells than an index can count.
    InvalidDimensions,
}

impl Grid {
    /// The grid is well formed, and every index of it fits in an `isize`.
    pub open spec fn wf(&self) -> bool {
        self@.wf() && self.rows * self.columns < isize::MAX
    }

    /// A grid of `rows` by `columns` dead cells.
    pub fn new(rows: isize, columns: isize, grid_type: GridType) -> (r: Grid)
        requires
            rows >= 1,
            columns >= 1,
            rows * columns < isize::MAX,
        ensures
            r.wf(),
            r@.rows == rows,
            r@.columns == columns,
            r@.grid_type == grid_type,
            forall|i: int| 0 <= i < r@.cells.len() ==> r@.cells[i] == State::Dead,
    {
        assert(rows * columns >= 1) by (nonlinear_arith)
            requires
                rows >= 1,
                columns >= 1,
        ;
        Grid { cells: vec![State::Dead; (rows * columns) as usize], columns, rows, grid_type }
    }

    /// A grid of dead cells, or `InvalidDimensions` where the dimensions admit none.
    pub fn try_new(rows: isize, columns: isize, grid_type: GridType) -> (r: Result<Grid, GridError>)
        ensures
            match r {
                Ok(g) => {
                    &&& g.wf()
                    &&& g@.rows == rows
                    &&& g@.columns == columns
                    &&& g@.grid_type == grid_type
                    &&& forall|i: int| 0 <= i < g@.cells.len() ==> g@.cells[i] == State::Dead
                },
                Err(e) => e == GridError::InvalidDimensions,
            },
            r is Ok <==> (rows >= 1 && columns >= 1 && rows * columns < isize::MAX),
    {
        if rows < 1 || columns < 1 {
            return Err(GridError::InvalidDimensions);
        }
        match rows.checked_mul(columns) {
            Some(n) if n < isize::MAX => Ok(Grid::new(rows, columns, grid_type)),
            _ => Err(GridError::InvalidDimensions),
        }
    }

    /// The index of `pos`, or `None` where it lies outside the grid.
    pub fn get_index_closed(&self, pos: &GridVec2<isize>) -> (r: Option<usize>)
        requires
            self.wf(),
        ensures
            match r {
                Some(i) => self@.in_bounds(pos.row as int, pos.column as int)
                    && i == self@.index(pos.row as int, pos.column as int),
                None => !self@.in_bounds(pos.row as int, pos.column as int),
            },
            r is Some ==> r.unwrap() < self.cells@.len(),
    {
        if (pos.row > self.rows || pos.row <= 0) || (pos.column > self.columns || pos.column <= 0) {
            return None;
        }
        proof {
            lemma_index_in_range(self.rows as int, self.columns as int, pos.row as int, pos.column as int);
        }
        Some(((pos.row - 1) * self.columns + (pos.column - 1)) as usize)
    }

    /// The index of the cell that `pos` lands on when both axes wrap around.
    pub fn get_index_open(&self, pos: &GridVec2<isize>) -> (r: usize)
        requires
            self.wf(),
        ensures
            r == self@.index(wrap(pos.row as int, self.rows as int), wrap(pos.column as int, self.columns as int)),
            r < self.cells@.len(),
    {
        let row = wrap_coord(pos.row, self.rows);
        let col = wrap_coord(pos.column, self.columns);
        proof {
            lemma_index_in_range(self.rows as int, self.columns as int, row as int, col as int);
        }
        ((row - 1) * self.columns + (col - 1)) as usize
    }

    /// The state at `pos`, dead where it lies outside the grid.
    pub fn get_state_closed(&self, pos: &GridVec2<isize>) -> (r: State)
        requires
            self.wf(),
        ensures
            r == (if self@.in_bounds(pos.row as int, pos.column as int) {
                self@.cells[self@.index(pos.row as int, pos.column as int)]
            } else {
                State::Dead
            }),
    {
        match self.get_index_closed(pos) {
            Some(index) => self.cells[index],
            None => State::Dead,
        }
    }

    /// The state of the cell that `pos` lands on when both axes wrap around.
    pub fn get_state_open(&self, pos: &GridVec2<isize>) -> (r: State)
        requires
            self.wf(),
        ensures
            r == self@.cells[self@.index(
                wrap(pos.row as int, self.rows as int),
                wrap(pos.column as int, self.columns as int),
            )],
    {
        self.cells[self.get_index_open(pos)]
    }

    /// The state seen at `pos` under the grid's policy.
    pub fn state_at(&self, pos: &GridVec2<isize>) -> (r: State)
        requires
            self.wf(),
        ensures
            r == self@.state_at(pos.row as int, pos.column as int),
    {
        match self.grid_type {
            GridType::Open => self.get_state_open(pos),
            GridType::Closed => self.get_state_closed(pos),
        }
    }

    /// Writes `state` at `pos` under the grid's policy: outside a closed grid nothing changes.
    pub fn set_state(&mut self, pos: &GridVec2<isize>, state: State)
        requires
            old(self).wf(),
        ensures
            final(self).wf(),
            final(self)@ == old(self)@.set_state(pos.row as int, pos.column as int, state),
    {
        match self.grid_type {
            GridType::Closed => {
                if let Some(index) = self.get_index_closed(pos) {
                    self.cells.set(index, state);
                }
            },
            GridType::Open => {
                let index = self.get_index_open(pos);
                self.cells.set(index, state);
            },
        }
    }

    /// Makes the cell at `pos` dead.
    pub fn kill_cell(&mut self, pos: &GridVec2<isize>)
        requires
            old(self).wf(),
        ensures
            final(self).wf(),
            final(self)@ == old(self)@.set_state(pos.row as int, pos.column as int, State::Dead),
    {
        self.set_state(pos, State::Dead);
    }

    /// Makes the cell at `pos` alive.
    pub fn make_cell(&mut self, pos: &GridVec2<isize>)
        requires
            old(self).wf(),
        ensures
            final(self).wf(),
            final(self)@ == old(self)@.set_state(pos.row as int, pos.column as int, State::Alive),
    {
        self.set_state(pos, State::Alive);
    }

    /// The number of live cells among the eight neighbours of `pos`.
    pub fn get_nearby(&self, pos: &GridVec2<isize>) -> (r: isize)
        requires
            self.wf(),
            isize::MIN < pos.row < isize::MAX,
            isize::MIN < pos.column < isize::MAX,
        ensures
            r == self@.neighbors(pos.row as int, pos.column as int),
            0 <= r <= 8,
    {
        let mut count: isize = 0;
        let offsets: [Offset; 8] = [(-1, -1), (-1, 0), (-1, 1), (0, -1), (0, 1), (1, -1), (1, 0), (1, 1)];
        assert(offsets@ == moore());
        let mut k: usize = 0;
        while k < 8
            invariant
                self.wf(),
                isize::MIN < pos.row < isize::MAX,
                isize::MIN < pos.column < isize::MAX,
                offsets@ == moore(),
                0 <= k <= 8,
                count == self@.live_among(pos.row as int, pos.column as int, moore().take(k as int)),
                0 <= count <= k,
            decreases 8 - k,
        {
            let off = offsets[k];
            proof {
                assert(moore().take(k + 1).drop_last() == moore().take(k as int));
            }
            if let State::Alive = self.state_at(&pos.from_offset(off)) {
                count += 1;
            }
            k += 1;
        }
        assert(moore().take(8) == moore());
        count
    }

    /// The grid one generation later under the B3/S23 rule; `self` is only read.
    pub fn step(&self) -> (r: Grid)
        requires
            self.wf(),
        ensures
            r.wf(),
            r@ == self@.step(),
    {
        let ghost next = self@.step();
        let mut cells: Vec<State> = Vec::new();
        proof {
            lemma_dims_bounded(self.rows as int, self.columns as int);
        }
        let mut r: isize = 0;
        while r < self.rows
            invariant
                self.wf(),
                next == self@.step(),
                self.rows < isize::MAX,
                self.columns < isize::MAX,
                0 <= r <= self.rows,
                cells@.len() == r * self.columns,
                forall|i: int| 0 <= i < cells@.len() ==> cells@[i] == next.cells[i],
            decreases self.rows - r,
        {
            let mut c: isize = 0;
            while c < self.columns
                invariant
                    self.wf(),
                    next == self@.step(),
                    self.rows < isize::MAX,
                    self.columns < isize::MAX,
                    0 <= r < self.rows,
                    0 <= c <= self.columns,
                    cells@.len() == r * self.columns + c,
                    forall|i: int| 0 <= i < cells@.len() ==> cells@[i] == next.cells[i],
                decreases self.columns - c,
            {
                let pos = GridVec2::new(r + 1, c + 1);
                let current = self.state_at(&pos);
                let state = match self.get_nearby(&pos) {
                    3 => State::Alive,
                    2 => current,
                    _ => State::Dead,
                };
                proof {
                    lemma_index_in_range(self.rows as int, self.columns as int, r + 1, c + 1);
                    lemma_index_inverse(self.columns as int, r + 1, c + 1);
                }
                cells.push(state);
                c += 1;
            }
            proof {
                assert((r + 1) * self.columns == r * self.columns + self.columns) by (nonlinear_arith);
            }
            r += 1;
        }
        assert(cells@ =~= next.cells);
        Grid { cells, columns: self.columns, rows: self.rows, grid_type: self.grid_type }
    }
}

} // verus!
