//! Occupancy grids: which cells of a heightmap hold part of a shape.
//!
//! A heightmap cell belongs to a shape when it holds a height other than zero (a NaN height
//! marks an unknown cell). Edge detection only ever asks that question of a cell, so the
//! grid stores the answer for every cell, indexed by column `x` and row `y`.
use vstd::prelude::*;

verus! {

/// A cell of a grid as a pair of mathematical integers (column, row).
pub type Cell = (int, int);

/// A rectangular grid of cells that are either filled (part of a shape) or empty
pub struct CellGrid {
    width: usize,
    height: usize,
    cells: Vec<Vec<bool>>,
}

/// Number of `false` entries of a column
pub open spec fn count_false(col: Seq<bool>) -> nat
    decreases col.len(),
{
    if col.len() == 0 {
        0
    } else {
        count_false(col.drop_last()) + if col.last() {
            0nat
        } else {
            1nat
        }
    }
}

/// Number of `false` entries of all columns
pub open spec fn count_false_cols(cols: Seq<Seq<bool>>) -> nat
    decreases cols.len(),
{
    if cols.len() == 0 {
        0
    } else {
        count_false_cols(cols.drop_last()) + count_false(cols.last())
    }
}

proof fn lemma_count_false_update(col: Seq<bool>, y: int)
    requires
        0 <= y < col.len(),
        !col[y],
    ensures
        count_false(col.update(y, true)) + 1 == count_false(col),
    decreases col.len(),
{
    let c2 = col.update(y, true);
    if y == col.len() - 1 {
        assert(c2.drop_last() =~= col.drop_last());
    } else {
        assert(c2.drop_last() =~= col.drop_last().update(y, true));
        lemma_count_false_update(col.drop_last(), y);
    }
}

proof fn lemma_count_false_cols_update(cols: Seq<Seq<bool>>, x: int, y: int)
    requires
        0 <= x < cols.len(),
        0 <= y < cols[x].len(),
        !cols[x][y],
    ensures
        count_false_cols(cols.update(x, cols[x].update(y, true))) + 1 == count_false_cols(cols),
    decreases cols.len(),
{
    let c2 = cols.update(x, cols[x].update(y, true));
    if x == cols.len() - 1 {
        assert(c2.drop_last() =~= cols.drop_last());
        lemma_count_false_update(cols[x], y);
    } else {
        assert(c2.drop_last() =~= cols.drop_last().update(x, cols[x].update(y, true)));
        lemma_count_false_cols_update(cols.drop_last(), x, y);
    }
}

/// Two cells share a side
pub open spec fn adjacent4(a: Cell, b: Cell) -> bool {
    ||| a.0 == b.0 && (a.1 == b.1 + 1 || b.1 == a.1 + 1)
    ||| a.1 == b.1 && (a.0 == b.0 + 1 || b.0 == a.0 + 1)
}

impl CellGrid {
    /// The grid holds `width` columns of `height` cells each
    pub closed spec fn wf(self) -> bool {
        &&& self.cells@.len() == self.width
        &&& forall|x: int| 0 <= x < self.cells@.len() ==> #[trigger] self.cells@[x]@.len() == self.height
    }

    pub closed spec fn spec_width(self) -> int {
        self.width as int
    }

    pub closed spec fn spec_height(self) -> int {
        self.height as int
    }

    /// Whether the cell at column x, row y lies in the grid and is filled
    pub closed spec fn filled(self, x: int, y: int) -> bool {
        &&& 0 <= x < self.width
        &&& 0 <= y < self.height
        &&& self.cells@[x]@[y]
    }

    /// Whether a cell lies in the grid and is filled
    pub open spec fn filled_cell(self, c: Cell) -> bool {
        self.filled(c.0, c.1)
    }

    /// Whether a cell lies in the grid
    pub open spec fn in_bounds(self, c: Cell) -> bool {
        0 <= c.0 < self.spec_width() && 0 <= c.1 < self.spec_height()
    }

    /// Only cells inside the grid are filled
    pub broadcast proof fn lemma_filled_in_bounds(self, c: Cell)
        ensures
            #[trigger] self.filled_cell(c) ==> self.in_bounds(c),
    {
    }

    /// Number of empty cells of the grid
    pub closed spec fn empty_count(self) -> nat {
        count_false_cols(self.cells@.map_values(|c: Vec<bool>| c@))
    }

    /// A grid of the given size with every cell empty
    pub fn new(width: usize, height: usize) -> (r: Self)
        ensures
            r.wf(),
            r.spec_width() == width,
            r.spec_height() == height,
            forall|x: int, y: int| !#[trigger] r.filled(x, y),
    {
        let mut cells: Vec<Vec<bool>> = Vec::new();
        let mut i: usize = 0;
        while i < width
            invariant
                i <= width,
                cells@.len() == i,
                forall|x: int| 0 <= x < i ==> #[trigger] cells@[x]@.len() == height,
                forall|x: int, y: int|
                    0 <= x < i && 0 <= y < height ==> !#[trigger] cells@[x]@[y],
            decreases width - i,
        {
            let mut col: Vec<bool> = Vec::new();
            let mut j: usize = 0;
            while j < height
                invariant
                    j <= height,
                    col@.len() == j,
                    forall|y: int| 0 <= y < j ==> !#[trigger] col@[y],
                decreases height - j,
            {
                col.push(false);
                j = j + 1;
            }
            cells.push(col);
            i = i + 1;
        }
        CellGrid { width, height, cells }
    }

    pub fn width(&self) -> (r: usize)
        ensures
            r == self.spec_width(),
    {
        self.width
    }

    pub fn height(&self) -> (r: usize)
        ensures
            r == self.spec_height(),
    {
        self.height
    }

    /// Whether the cell at column x, row y is filled; cells outside the grid are empty
    pub fn is_filled(&self, x: usize, y: usize) -> (r: bool)
        requires
            self.wf(),
        ensures
            r == self.filled(x as int, y as int),
    {
        if x < self.width && y < self.height {
            self.cells[x][y]
        } else {
            false
        }
    }

    /// Mark the cell at column x, row y as filled or empty
    pub fn set_filled(&mut self, x: usize, y: usize, value: bool)
        requires
            old(self).wf(),
            0 <= x < old(self).spec_width(),
            0 <= y < old(self).spec_height(),
        ensures
            final(self).wf(),
            final(self).spec_width() == old(self).spec_width(),
            final(self).spec_height() == old(self).spec_height(),
            final(self).filled(x as int, y as int) == value,
            forall|a: int, b: int|
                (a != x || b != y) ==> #[trigger] final(self).filled(a, b) == old(self).filled(a, b),
            value && !old(self).filled(x as int, y as int) ==> final(self).empty_count() + 1
                == old(self).empty_count(),
    {
        let ghost cols = self.cells@.map_values(|c: Vec<bool>| c@);
        self.cells[x].set(y, value);
        proof {
            let cols2 = self.cells@.map_values(|c: Vec<bool>| c@);
            if value && !old(self).filled(x as int, y as int) {
                assert(cols2 =~= cols.update(x as int, cols[x as int].update(y as int, true)));
                lemma_count_false_cols_update(cols, x as int, y as int);
            }
        }
    }

    /// Whether the neighbour of (x, y) at offset (dx - 1, dy - 1) is empty; cells outside the
    /// grid are empty
    pub fn neighbour_empty(&self, x: usize, y: usize, dx: usize, dy: usize) -> (r: bool)
        requires
            self.wf(),
            x < self.spec_width(),
            y < self.spec_height(),
            dx <= 2,
            dy <= 2,
        ensures
            r == !self.filled(x + dx - 1, y + dy - 1),
    {
        if (dx == 0 && x == 0) || (dy == 0 && y == 0) {
            true
        } else {
            let nx = if dx == 0 {
                x - 1
            } else if dx == 1 {
                x
            } else {
                x + 1
            };
            let ny = if dy == 0 {
                y - 1
            } else if dy == 1 {
                y
            } else {
                y + 1
            };
            !self.is_filled(nx, ny)
        }
    }

    /// Some cell among the eight around (x, y) is empty
    pub open spec fn has_empty_neighbour8(self, x: int, y: int) -> bool {
        ||| !self.filled(x - 1, y - 1)
        ||| !self.filled(x - 1, y)
        ||| !self.filled(x - 1, y + 1)
        ||| !self.filled(x, y - 1)
        ||| !self.filled(x, y + 1)
        ||| !self.filled(x + 1, y - 1)
        ||| !self.filled(x + 1, y)
        ||| !self.filled(x + 1, y + 1)
    }

    /// A filled cell with an empty cell among its eight neighbours
    pub open spec fn boundary_cell(self, x: int, y: int) -> bool {
        self.filled(x, y) && self.has_empty_neighbour8(x, y)
    }

    /// The boundary cells that a scan of the inner cells meets before column x, row y.
    /// The scan goes through the columns 1 .. width - 1 and, in each, the rows 1 .. height - 1.
    pub open spec fn scan_boundary(self, x: int, y: int) -> Seq<Cell>
        decreases x, y,
    {
        if y <= 1 {
            if x <= 1 {
                Seq::empty()
            } else {
                self.scan_boundary(x - 1, self.spec_height() - 1)
            }
        } else {
            let prev = self.scan_boundary(x, y - 1);
            if self.boundary_cell(x, y - 1) {
                prev.push((x, y - 1))
            } else {
                prev
            }
        }
    }

    /// The boundary cells met by a full scan of the inner cells, in scan order
    pub open spec fn boundary_cells(self) -> Seq<Cell> {
        self.scan_boundary(self.spec_width() - 1, 1)
    }

    /// A sequence of filled cells, each sharing a side with the next
    pub open spec fn is_filled_path(self, p: Seq<Cell>) -> bool {
        &&& p.len() > 0
        &&& forall|i: int| 0 <= i < p.len() ==> #[trigger] self.filled_cell(p[i])
        &&& forall|i: int| 0 <= i < p.len() - 1 ==> #[trigger] adjacent4(p[i], p[i + 1])
    }

    /// Cells `a` and `b` are joined by a path of filled cells that share sides
    pub open spec fn connected(self, a: Cell, b: Cell) -> bool {
        exists|p: Seq<Cell>| #[trigger] self.is_filled_path(p) && p[0] == a && p.last() == b
    }

    /// A filled cell is connected to itself
    pub proof fn lemma_connected_refl(self, a: Cell)
        requires
            self.filled_cell(a),
        ensures
            self.connected(a, a),
    {
        let p = seq![a];
        assert(self.is_filled_path(p));
    }

    /// Connected cells are filled
    pub proof fn lemma_connected_filled(self, a: Cell, b: Cell)
        requires
            self.connected(a, b),
        ensures
            self.filled_cell(a),
            self.filled_cell(b),
    {
        let p = choose|p: Seq<Cell>| #[trigger] self.is_filled_path(p) && p[0] == a && p.last() == b;
        assert(self.filled_cell(p[0]));
        assert(self.filled_cell(p[p.len() - 1]));
    }

    /// Connectedness is symmetric
    pub proof fn lemma_connected_symm(self, a: Cell, b: Cell)
        requires
            self.connected(a, b),
        ensures
            self.connected(b, a),
    {
        let p = choose|p: Seq<Cell>| #[trigger] self.is_filled_path(p) && p[0] == a && p.last() == b;
        let q = p.reverse();
        assert forall|i: int| 0 <= i < q.len() implies #[trigger] self.filled_cell(q[i]) by {
            assert(q[i] == p[p.len() - 1 - i]);
        }
        assert forall|i: int| 0 <= i < q.len() - 1 implies #[trigger] adjacent4(q[i], q[i + 1]) by {
            assert(q[i] == p[p.len() - 1 - i]);
            assert(q[i + 1] == p[p.len() - 2 - i]);
            assert(adjacent4(p[p.len() - 2 - i], p[p.len() - 2 - i + 1]));
        }
        assert(self.is_filled_path(q));
        assert(q[0] == b);
        assert(q.last() == a);
    }

    /// Extending a connection by a filled neighbour
    pub proof fn lemma_connected_step(self, a: Cell, b: Cell, c: Cell)
        requires
            self.connected(a, b),
            self.filled_cell(c),
            adjacent4(b, c),
        ensures
            self.connected(a, c),
    {
        let p = choose|p: Seq<Cell>| #[trigger] self.is_filled_path(p) && p[0] == a && p.last() == b;
        let q = p.push(c);
        assert forall|i: int| 0 <= i < q.len() implies #[trigger] self.filled_cell(q[i]) by {
            if i < p.len() {
                assert(q[i] == p[i]);
            }
        }
        assert forall|i: int| 0 <= i < q.len() - 1 implies #[trigger] adjacent4(q[i], q[i + 1]) by {
            if i < p.len() - 1 {
                assert(q[i] == p[i]);
                assert(q[i + 1] == p[i + 1]);
            } else {
                assert(q[i] == b);
            }
        }
        assert(self.is_filled_path(q));
        assert(q[0] == a);
    }

    /// Connectedness is transitive
    pub proof fn lemma_connected_trans(self, a: Cell, b: Cell, c: Cell)
        requires
            self.connected(a, b),
            self.connected(b, c),
        ensures
            self.connected(a, c),
    {
        let q = choose|q: Seq<Cell>| #[trigger] self.is_filled_path(q) && q[0] == b && q.last() == c;
        assert forall|k: int| 1 <= k <= q.len() implies self.connected(a, #[trigger] q[k - 1]) by {
            self.lemma_connected_prefix(a, q, k);
        }
        assert(self.connected(a, q[q.len() - 1]));
    }

    proof fn lemma_connected_prefix(self, a: Cell, q: Seq<Cell>, k: int)
        requires
            self.is_filled_path(q),
            self.connected(a, q[0]),
            1 <= k <= q.len(),
        ensures
            self.connected(a, q[k - 1]),
        decreases k,
    {
        if k > 1 {
            self.lemma_connected_prefix(a, q, k - 1);
            assert(adjacent4(q[k - 2], q[k - 2 + 1]));
            assert(self.filled_cell(q[k - 1]));
            self.lemma_connected_step(a, q[k - 2], q[k - 1]);
        }
    }

    /// A set of cells that holds `a` and every filled neighbour of its members holds every
    /// cell connected to `a`.
    pub proof fn lemma_closed_set_holds_component(self, s: Set<Cell>, a: Cell, b: Cell)
        requires
            s.contains(a),
            forall|c: Cell, d: Cell|
                #![trigger s.contains(c), adjacent4(c, d)]
                s.contains(c) && adjacent4(c, d) && self.filled_cell(d) ==> s.contains(d),
            self.connected(a, b),
        ensures
            s.contains(b),
    {
        let p = choose|p: Seq<Cell>| #[trigger] self.is_filled_path(p) && p[0] == a && p.last() == b;
        assert forall|k: int| 1 <= k <= p.len() implies s.contains(#[trigger] p[k - 1]) by {
            self.lemma_closed_prefix(s, p, k);
        }
        assert(s.contains(p[p.len() - 1]));
    }

    proof fn lemma_closed_prefix(self, s: Set<Cell>, p: Seq<Cell>, k: int)
        requires
            self.is_filled_path(p),
            s.contains(p[0]),
            forall|c: Cell, d: Cell|
                #![trigger s.contains(c), adjacent4(c, d)]
                s.contains(c) && adjacent4(c, d) && self.filled_cell(d) ==> s.contains(d),
            1 <= k <= p.len(),
        ensures
            s.contains(p[k - 1]),
        decreases k,
    {
        if k > 1 {
            self.lemma_closed_prefix(s, p, k - 1);
            assert(adjacent4(p[k - 2], p[k - 2 + 1]));
            assert(self.filled_cell(p[k - 1]));
        }
    }
}

} // verus!
