use vstd::prelude::*;

pub use crate::command::GridCommand;

use crate::grid::{
    flip, lemma_index_in_range, lemma_index_inverse, lemma_position_of_index, rect, Grid,
    GridModel, GridType, GridVec2, Offset,
};

verus! {

/// The state of one cell.
#[derive(Debug, PartialEq, Eq, Copy, Clone, Structural)]
pub enum State {
    Dead,
    Alive,
}

impl State {
    /// The character that shows the cell on a terminal: a full block when alive.
    pub fn symbol(&self) -> (r: char)
        ensures
            r == (if *self == State::Alive {
                '\u{2588}'
            } else {
                ' '
            }),
    {
        match self {
            State::Alive => '\u{2588}',
            State::Dead => ' ',
        }
    }
}

/// An inclusive span `(first, last)` of rows or columns, in either order.
pub type Range = (isize, isize);

/// The value of an engine: how many generations have passed, and the grid.
pub struct EngineModel {
    pub generation: int,
    pub grid: GridModel,
}

/// A grid together with its generation counter.
#[derive(Debug)]
pub struct ConwayEngine {
    generation: isize,
    grid: Grid,
}

/// The first line that a span reaches: its smaller end.
pub open spec fn span_low(s: Range) -> int {
    if s.0 <= s.1 {
        s.0 as int
    } else {
        s.1 as int
    }
}

/// The last line that a span reaches: its larger end, cut at `limit`.
pub open spec fn span_high(s: Range, limit: int) -> int {
    let hi = if s.0 <= s.1 {
        s.1 as int
    } else {
        s.0 as int
    };
    if limit <= hi {
        limit
    } else {
        hi
    }
}

impl GridModel {
    /// The grid with the in-bounds cell at `(r, c)` flipped; nothing changes elsewhere.
    pub open spec fn toggle_at(self, r: int, c: int) -> GridModel {
        if self.in_bounds(r, c) {
            self.set_state(r, c, flip(self.state_at(r, c)))
        } else {
            self
        }
    }

    /// The rectangle that a pair of spans selects, displaced by `o`.
    pub open spec fn span_rect(self, rr: Range, cr: Range, o: Offset) -> spec_fn(int, int) -> bool {
        rect(
            span_low(rr) + o.0,
            span_high(rr, self.rows) + o.0,
            span_low(cr) + o.1,
            span_high(cr, self.columns) + o.1,
        )
    }

    /// The grid after flipping the spans' rectangle once for each of `offs`, in order.
    pub open spec fn stamp(self, rr: Range, cr: Range, offs: Seq<Offset>) -> GridModel
        decreases offs.len(),
    {
        if offs.len() == 0 {
            self
        } else {
            let prev = self.stamp(rr, cr, offs.drop_last());
            prev.flip_where(self.span_rect(rr, cr, offs.last()))
        }
    }
}

/// Flipping one in-bounds position more extends the flipped region by that position, and a
/// position outside the grid changes nothing.
proof fn lemma_toggle_extends(
    m: GridModel,
    f: spec_fn(int, int) -> bool,
    g: spec_fn(int, int) -> bool,
    r: int,
    c: int,
)
    requires
        m.wf(),
        forall|x: int, y: int|
            m.in_bounds(x, y) ==> #[trigger] g(x, y) == (f(x, y) != (x == r && y == c)),
    ensures
        m.flip_where(f).toggle_at(r, c) == m.flip_where(g),
{
    let a = m.flip_where(f);
    let b = m.flip_where(g);
    if m.in_bounds(r, c) {
        lemma_index_in_range(m.rows, m.columns, r, c);
        lemma_index_inverse(m.columns, r, c);
        crate::grid::lemma_wrap_identity(r, m.rows);
        crate::grid::lemma_wrap_identity(c, m.columns);
        assert forall|i: int| 0 <= i < b.cells.len() implies a.toggle_at(r, c).cells[i]
            == b.cells[i] by {
            lemma_position_of_index(m.rows, m.columns, i);
        }
        assert(a.toggle_at(r, c).cells =~= b.cells);
    } else {
        assert forall|i: int| 0 <= i < b.cells.len() implies a.cells[i] == b.cells[i] by {
            lemma_position_of_index(m.rows, m.columns, i);
        }
        assert(a.cells =~= b.cells);
    }
}

/// Flipping no position leaves the grid as it is.
proof fn lemma_flip_nothing(m: GridModel, f: spec_fn(int, int) -> bool)
    requires
        m.wf(),
        forall|x: int, y: int| m.in_bounds(x, y) ==> !#[trigger] f(x, y),
    ensures
        m.flip_where(f) == m,
{
    assert forall|i: int| 0 <= i < m.cells.len() implies m.flip_where(f).cells[i] == m.cells[i] by {
        lemma_position_of_index(m.rows, m.columns, i);
    }
    assert(m.flip_where(f).cells =~= m.cells);
}

/// Two predicates that agree on every in-bounds position flip the same cells.
proof fn lemma_flip_same(m: GridModel, f: spec_fn(int, int) -> bool, g: spec_fn(int, int) -> bool)
    requires
        m.wf(),
        forall|x: int, y: int| m.in_bounds(x, y) ==> #[trigger] f(x, y) == g(x, y),
    ensures
        m.flip_where(f) == m.flip_where(g),
{
    assert forall|i: int| 0 <= i < m.cells.len() implies m.flip_where(f).cells[i]
        == m.flip_where(g).cells[i] by {
        lemma_position_of_index(m.rows, m.columns, i);
    }
    assert(m.flip_where(f).cells =~= m.flip_where(g).cells);
}

/// The cells that a row-by-row walk over `lo_r..` by `lo_c..=hi_c` has visited when it stands
/// at `(x, y)`.
spec fn visited(lo_r: int, x: int, lo_c: int, hi_c: int, y: int) -> spec_fn(int, int) -> bool {
    |p: int, q: int| (lo_r <= p < x && lo_c <= q <= hi_c) || (p == x && lo_c <= q < y)
}

/// The cells among the first `i` in row-major order whose draw is true.
spec fn drawn_before(m: GridModel, draws: Seq<bool>, i: int) -> spec_fn(int, int) -> bool {
    |x: int, y: int| m.index(x, y) < i && draws[m.index(x, y)]
}

/// Taking the draw of cell `i` into account flips that cell if, and only if, the draw is true.
proof fn lemma_draw_step(m: GridModel, draws: Seq<bool>, i: int)
    requires
        m.wf(),
        draws.len() == m.cells.len(),
        0 <= i < m.cells.len(),
    ensures
        draws[i] ==> m.flip_where(drawn_before(m, draws, i)).toggle_at(
            i / m.columns + 1,
            i % m.columns + 1,
        ) == m.flip_where(drawn_before(m, draws, i + 1)),
        !draws[i] ==> m.flip_where(drawn_before(m, draws, i)) == m.flip_where(
            drawn_before(m, draws, i + 1),
        ),
{
    let x = i / m.columns + 1;
    let y = i % m.columns + 1;
    lemma_position_of_index(m.rows, m.columns, i);
    assert(m.index(x, y) == i);
    assert forall|p: int, q: int| m.in_bounds(p, q) && m.index(p, q) == i implies p == x && q == y by {
        lemma_index_inverse(m.columns, p, q);
    }
    if draws[i] {
        lemma_toggle_extends(m, drawn_before(m, draws, i), drawn_before(m, draws, i + 1), x, y);
    } else {
        lemma_flip_same(m, drawn_before(m, draws, i), drawn_before(m, draws, i + 1));
    }
}

impl View for ConwayEngine {
    type V = EngineModel;

    closed spec fn view(&self) -> EngineModel {
        EngineModel { generation: self.generation as int, grid: self.grid@ }
    }
}

impl ConwayEngine {
    /// The engine's grid is well formed and its counter is not negative.
    pub closed spec fn wf(&self) -> bool {
        self.grid.wf() && self.generation >= 0
    }

    /// An engine at generation 0 with a grid of `rows` by `columns` dead cells.
    pub fn new(rows: isize, columns: isize, grid_type: GridType) -> (r: ConwayEngine)
        requires
            rows >= 1,
            columns >= 1,
            rows * columns < isize::MAX,
        ensures
            r.wf(),
            r@.generation == 0,
            r@.grid.rows == rows,
            r@.grid.columns == columns,
            r@.grid.grid_type == grid_type,
            forall|i: int| 0 <= i < r@.grid.cells.len() ==> r@.grid.cells[i] == State::Dead,
    {
        ConwayEngine { generation: 0, grid: Grid::new(rows, columns, grid_type) }
    }

    /// How many generations have passed.
    pub fn generation(&self) -> (r: isize)
        ensures
            r == self@.generation,
    {
        self.generation
    }

    /// The current grid.
    pub fn grid(&self) -> (r: &Grid)
        ensures
            r@ == self@.grid,
            self.wf() ==> r.wf(),
    {
        &self.grid
    }

    /// Replaces the grid by the next generation and counts it.
    pub fn next_generation(&mut self)
        requires
            old(self).wf(),
            old(self)@.generation < isize::MAX,
        ensures
            final(self).wf(),
            final(self)@.generation == old(self)@.generation + 1,
            final(self)@.grid == old(self)@.grid.step(),
    {
        let next_grid = self.grid.step();
        self.generation = self.generation + 1;
        self.grid = next_grid;
    }

    /// Flips the cell at `pos` between alive and dead, if it lies inside the grid.
    pub fn set_cell(&mut self, pos: &GridVec2<isize>)
        requires
            old(self).wf(),
        ensures
            final(self).wf(),
            final(self)@.generation == old(self)@.generation,
            final(self)@.grid == old(self)@.grid.toggle_at(pos.row as int, pos.column as int),
    {
        if self.grid.get_index_closed(pos).is_some() {
            if let State::Alive = self.grid.state_at(pos) {
                self.grid.kill_cell(pos);
            } else {
                self.grid.make_cell(pos);
            }
        }
    }

    /// Flips every in-bounds cell of the rectangle `r1..=r2` by `c1..=c2`.
    fn flip_rect(&mut self, r1: i128, r2: i128, c1: i128, c2: i128)
        requires
            old(self).wf(),
        ensures
            final(self).wf(),
            final(self)@.generation == old(self)@.generation,
            final(self)@.grid == old(self)@.grid.flip_where(
                rect(r1 as int, r2 as int, c1 as int, c2 as int),
            ),
    {
        let ghost start = self.grid@;
        let lo_r: i128 = if r1 < 1 { 1 } else { r1 };
        let hi_r: i128 = if r2 > self.grid.rows as i128 { self.grid.rows as i128 } else { r2 };
        let lo_c: i128 = if c1 < 1 { 1 } else { c1 };
        let hi_c: i128 = if c2 > self.grid.columns as i128 { self.grid.columns as i128 } else { c2 };
        proof {
            lemma_flip_nothing(start, visited(lo_r as int, lo_r as int, lo_c as int, hi_c as int, lo_c as int));
        }
        let mut x: i128 = lo_r;
        while x <= hi_r
            invariant
                self.wf(),
                self@.generation == old(self)@.generation,
                start.wf(),
                lo_r >= 1,
                hi_r <= start.rows,
                lo_c >= 1,
                hi_c <= start.columns,
                lo_r <= x,
                x <= hi_r + 1 || x == lo_r,
                self.grid@ == start.flip_where(visited(lo_r as int, x as int, lo_c as int, hi_c as int, lo_c as int)),
            decreases hi_r + 1 - x,
        {
            let mut y: i128 = lo_c;
            while y <= hi_c
                invariant
                    self.wf(),
                    self@.generation == old(self)@.generation,
                    start.wf(),
                    lo_r >= 1,
                    lo_c >= 1,
                    hi_c <= start.columns,
                    lo_r <= x <= hi_r <= start.rows,
                    lo_c <= y,
                    y <= hi_c + 1 || y == lo_c,
                    self.grid@ == start.flip_where(visited(lo_r as int, x as int, lo_c as int, hi_c as int, y as int)),
                decreases hi_c + 1 - y,
            {
                let pos = GridVec2::new(x as isize, y as isize);
                proof {
                    lemma_toggle_extends(
                        start,
                        visited(lo_r as int, x as int, lo_c as int, hi_c as int, y as int),
                        visited(lo_r as int, x as int, lo_c as int, hi_c as int, y + 1),
                        x as int,
                        y as int,
                    );
                }
                self.set_cell(&pos);
                y = y + 1;
            }
            proof {
                lemma_flip_same(
                    start,
                    visited(lo_r as int, x as int, lo_c as int, hi_c as int, y as int),
                    visited(lo_r as int, x + 1, lo_c as int, hi_c as int, lo_c as int),
                );
            }
            x = x + 1;
        }
        proof {
            lemma_flip_same(
                start,
                visited(lo_r as int, x as int, lo_c as int, hi_c as int, lo_c as int),
                rect(r1 as int, r2 as int, c1 as int, c2 as int),
            );
        }
    }

    /// Flips every in-bounds cell whose row lies in the span `rr` and whose column lies in `cr`.
    pub fn set_range(&mut self, rr: Range, cr: Range)
        requires
            old(self).wf(),
        ensures
            final(self).wf(),
            final(self)@.generation == old(self)@.generation,
            final(self)@.grid == old(self)@.grid.flip_where(old(self)@.grid.span_rect(rr, cr, (0, 0))),
    {
        let lo_r: i128 = if rr.0 <= rr.1 { rr.0 as i128 } else { rr.1 as i128 };
        let hi_r: i128 = if rr.0 <= rr.1 { rr.1 as i128 } else { rr.0 as i128 };
        let hi_r: i128 = if self.grid.rows as i128 <= hi_r { self.grid.rows as i128 } else { hi_r };
        let lo_c: i128 = if cr.0 <= cr.1 { cr.0 as i128 } else { cr.1 as i128 };
        let hi_c: i128 = if cr.0 <= cr.1 { cr.1 as i128 } else { cr.0 as i128 };
        let hi_c: i128 = if self.grid.columns as i128 <= hi_c { self.grid.columns as i128 } else { hi_c };
        self.flip_rect(lo_r, hi_r, lo_c, hi_c);
    }

    /// For each offset in turn, flips every in-bounds cell of the rectangle that the spans
    /// select, displaced by that offset; this stamps a shape once per cell of the spans.
    pub fn offset_set(&mut self, rr: Range, cr: Range, off: &[Offset])
        requires
            old(self).wf(),
        ensures
            final(self).wf(),
            final(self)@.generation == old(self)@.generation,
            final(self)@.grid == old(self)@.grid.stamp(rr, cr, off@),
    {
        let ghost start = self.grid@;
        let lo_r: i128 = if rr.0 <= rr.1 { rr.0 as i128 } else { rr.1 as i128 };
        let hi_r: i128 = if rr.0 <= rr.1 { rr.1 as i128 } else { rr.0 as i128 };
        let hi_r: i128 = if self.grid.rows as i128 <= hi_r { self.grid.rows as i128 } else { hi_r };
        let lo_c: i128 = if cr.0 <= cr.1 { cr.0 as i128 } else { cr.1 as i128 };
        let hi_c: i128 = if cr.0 <= cr.1 { cr.1 as i128 } else { cr.0 as i128 };
        let hi_c: i128 = if self.grid.columns as i128 <= hi_c { self.grid.columns as i128 } else { hi_c };
        let mut k: usize = 0;
        assert(off@.take(0) =~= Seq::<Offset>::empty());
        while k < off.len()
            invariant
                self.wf(),
                self@.generation == old(self)@.generation,
                start == old(self)@.grid,
                self.grid@.rows == start.rows,
                self.grid@.columns == start.columns,
                lo_r == span_low(rr),
                hi_r == span_high(rr, start.rows),
                lo_c == span_low(cr),
                hi_c == span_high(cr, start.columns),
                0 <= k <= off@.len(),
                self.grid@ == start.stamp(rr, cr, off@.take(k as int)),
            decreases off@.len() - k,
        {
            let o = off[k];
            self.flip_rect(
                lo_r + o.0 as i128,
                hi_r + o.0 as i128,
                lo_c + o.1 as i128,
                hi_c + o.1 as i128,
            );
            proof {
                assert(off@.take(k + 1).drop_last() =~= off@.take(k as int));
                assert(off@.take(k + 1).last() == o);
            }
            k += 1;
        }
        assert(off@.take(off@.len() as int) =~= off@);
    }

    /// Flips each cell whose draw is true; `draws` holds one draw per cell, in row-major order.
    pub fn randomize(&mut self, draws: &Vec<bool>)
        requires
            old(self).wf(),
            draws@.len() == old(self)@.grid.cells.len(),
        ensures
            final(self).wf(),
            final(self)@.generation == old(self)@.generation,
            final(self)@.grid == old(self)@.grid.flip_where(
                |x: int, y: int| draws@[old(self)@.grid.index(x, y)],
            ),
    {
        let ghost start = self.grid@;
        let n = draws.len();
        proof {
            lemma_flip_nothing(start, drawn_before(start, draws@, 0));
        }
        let mut i: usize = 0;
        while i < n
            invariant
                self.wf(),
                self@.generation == old(self)@.generation,
                start == old(self)@.grid,
                start.wf(),
                n == draws@.len(),
                n == start.cells.len(),
                n < isize::MAX,
                0 <= i <= n,
                self.grid@ == start.flip_where(drawn_before(start, draws@, i as int)),
            decreases n - i,
        {
            let columns = self.grid.columns as usize;
            proof {
                lemma_position_of_index(start.rows, start.columns, i as int);
                lemma_draw_step(start, draws@, i as int);
            }
            if draws[i] {
                self.set_cell(&GridVec2::new((i / columns) as isize + 1, (i % columns) as isize + 1));
            }
            i += 1;
        }
        proof {
            assert forall|p: int, q: int| start.in_bounds(p, q) implies start.index(p, q) < n by {
                lemma_index_in_range(start.rows, start.columns, p, q);
            }
            lemma_flip_same(
                start,
                drawn_before(start, draws@, i as int),
                |x: int, y: int| draws@[start.index(x, y)],
            );
        }
    }

    /// Makes every cell dead; the counter keeps its value.
    pub fn clear(&mut self)
        requires
            old(self).wf(),
        ensures
            final(self).wf(),
            final(self)@.generation == old(self)@.generation,
            final(self)@.grid.rows == old(self)@.grid.rows,
            final(self)@.grid.columns == old(self)@.grid.columns,
            final(self)@.grid.grid_type == old(self)@.grid.grid_type,
            forall|i: int|
                0 <= i < final(self)@.grid.cells.len() ==> final(self)@.grid.cells[i] == State::Dead,
    {
        self.grid = Grid::new(self.grid.rows, self.grid.columns, self.grid.grid_type);
    }

    /// Replaces the grid by one of `rows` by `columns` dead cells; the counter keeps its value.
    pub fn resize(&mut self, rows: isize, columns: isize, grid_type: GridType)
        requires
            old(self).wf(),
            rows >= 1,
            columns >= 1,
            rows * columns < isize::MAX,
        ensures
            final(self).wf(),
            final(self)@.generation == old(self)@.generation,
            final(self)@.grid.rows == rows,
            final(self)@.grid.columns == columns,
            final(self)@.grid.grid_type == grid_type,
            forall|i: int|
                0 <= i < final(self)@.grid.cells.len() ==> final(self)@.grid.cells[i] == State::Dead,
    {
        self.grid = Grid::new(rows, columns, grid_type);
    }
}

} // verus!
