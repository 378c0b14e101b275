//! One position of the field, and counts over rows and grids of them.

use vstd::prelude::*;

verus! {

/// The state of one cell: whether it is exposed or flagged, whether a gopher
/// hides in it, and how many of its neighbours hold one.
#[derive(Debug, Clone, Copy, PartialEq, Eq, Structural)]
pub struct Cell {
    pub is_exposed: bool,
    pub is_flagged: bool,
    pub has_gopher: bool,
    pub surrounding_gophers: u8,
}

impl Cell {
    /// A cell that is neither exposed nor flagged and holds no gopher.
    pub open spec fn blank() -> Cell {
        Cell { is_exposed: false, is_flagged: false, has_gopher: false, surrounding_gophers: 0 }
    }

    /// A safe cell that is still to be exposed.
    pub open spec fn is_hidden_safe(self) -> bool {
        !self.has_gopher && !self.is_exposed
    }
}

impl Default for Cell {
    fn default() -> (r: Cell)
        ensures
            r == Cell::blank(),
    {
        Cell { is_exposed: false, is_flagged: false, has_gopher: false, surrounding_gophers: 0 }
    }
}

pub open spec fn hidden_safe() -> spec_fn(Cell) -> bool {
    |c: Cell| c.is_hidden_safe()
}

pub open spec fn holds_gopher() -> spec_fn(Cell) -> bool {
    |c: Cell| c.has_gopher
}

pub open spec fn one_if(b: bool) -> nat {
    if b {
        1
    } else {
        0
    }
}

/// Number of cells of a row that satisfy `f`.
pub open spec fn row_count(row: Seq<Cell>, f: spec_fn(Cell) -> bool) -> nat
    decreases row.len(),
{
    if row.len() == 0 {
        0
    } else {
        row_count(row.drop_last(), f) + one_if(f(row.last()))
    }
}

/// Number of cells of a grid, held row by row, that satisfy `f`.
pub open spec fn grid_count(rows: Seq<Vec<Cell>>, f: spec_fn(Cell) -> bool) -> nat
    decreases rows.len(),
{
    if rows.len() == 0 {
        0
    } else {
        grid_count(rows.drop_last(), f) + row_count(rows.last()@, f)
    }
}

pub proof fn lemma_row_count_update(row: Seq<Cell>, i: int, c: Cell, f: spec_fn(Cell) -> bool)
    requires
        0 <= i < row.len(),
    ensures
        row_count(row.update(i, c), f) + one_if(f(row[i])) == row_count(row, f) + one_if(f(c)),
    decreases row.len(),
{
    let r2 = row.update(i, c);
    if i == row.len() - 1 {
        assert(r2.drop_last() =~= row.drop_last());
    } else {
        assert(r2.drop_last() =~= row.drop_last().update(i, c));
        lemma_row_count_update(row.drop_last(), i, c, f);
    }
}

pub proof fn lemma_grid_count_update(rows: Seq<Vec<Cell>>, y: int, r: Vec<Cell>, f: spec_fn(Cell) -> bool)
    requires
        0 <= y < rows.len(),
    ensures
        grid_count(rows.update(y, r), f) + row_count(rows[y]@, f) == grid_count(rows, f) + row_count(r@, f),
    decreases rows.len(),
{
    let g2 = rows.update(y, r);
    if y == rows.len() - 1 {
        assert(g2.drop_last() =~= rows.drop_last());
    } else {
        assert(g2.drop_last() =~= rows.drop_last().update(y, r));
        lemma_grid_count_update(rows.drop_last(), y, r, f);
    }
}

} // verus!
