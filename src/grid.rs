//! A fixed-size grid of counters, stored row by row.
use vstd::prelude::*;

verus! {

/// An access outside the grid.
#[derive(Clone, Copy, Debug, PartialEq, Eq)]
pub enum GridError {
    OutOfBounds,
}

pub struct Grid {
    num_rows: usize,
    num_cols: usize,
    elems: Vec<usize>,
}

impl Grid {
    pub closed spec fn rows(&self) -> nat {
        self.num_rows as nat
    }

    pub closed spec fn cols(&self) -> nat {
        self.num_cols as nat
    }

    /// The value in row `r`, column `c`.
    pub closed spec fn cell(&self, r: int, c: int) -> usize {
        self.elems@[r * self.num_cols + c]
    }

    pub closed spec fn wf(&self) -> bool {
        &&& self.elems@.len() == self.num_rows * self.num_cols
        &&& self.num_rows * self.num_cols <= usize::MAX
    }

    /// A grid of `num_rows` by `num_cols` zeros.
    pub fn new(num_rows: usize, num_cols: usize) -> (r: Grid)
        requires
            num_rows * num_cols <= usize::MAX,
        ensures
            r.wf(),
            r.rows() == num_rows,
            r.cols() == num_cols,
            forall|i: int, j: int| 0 <= i < num_rows && 0 <= j < num_cols ==> r.cell(i, j) == 0,
    {
        let n = num_rows * num_cols;
        let elems = vec![0usize; n];
        let g = Grid { num_rows, num_cols, elems };
        assert forall|i: int, j: int| 0 <= i < num_rows && 0 <= j < num_cols implies g.cell(i, j) == 0 by {
            lemma_index_in_bounds(i, j, num_rows as int, num_cols as int);
        }
        g
    }

    /// The number of rows and of columns.
    pub fn size(&self) -> (r: (usize, usize))
        ensures
            r.0 == self.rows(),
            r.1 == self.cols(),
    {
        (self.num_rows, self.num_cols)
    }

    /// The value at `row`, `col`, or `None` outside the grid.
    pub fn get(&self, row: usize, col: usize) -> (r: Option<usize>)
        requires
            self.wf(),
        ensures
            row < self.rows() && col < self.cols() ==> r == Some(self.cell(row as int, col as int)),
            !(row < self.rows() && col < self.cols()) ==> r is None,
    {
        if row < self.num_rows && col < self.num_cols {
            proof {
                lemma_index_in_bounds(row as int, col as int, self.num_rows as int, self.num_cols as int);
            }
            Some(self.elems[row * self.num_cols + col])
        } else {
            None
        }
    }

    /// Stores `val` at `row`, `col`; outside the grid nothing changes and
    /// an error is returned.
    pub fn set(&mut self, row: usize, col: usize, val: usize) -> (r: Result<(), GridError>)
        requires
            old(self).wf(),
        ensures
            final(self).wf(),
            final(self).rows() == old(self).rows(),
            final(self).cols() == old(self).cols(),
            row < old(self).rows() && col < old(self).cols() ==> r is Ok,
            !(row < old(self).rows() && col < old(self).cols()) ==> r == Err::<(), GridError>(GridError::OutOfBounds)
                && *final(self) == *old(self),
            forall|i: int, j: int|
                0 <= i < old(self).rows() && 0 <= j < old(self).cols() ==> #[trigger] final(self).cell(i, j) == if i
                    == row && j == col && r is Ok {
                    val
                } else {
                    old(self).cell(i, j)
                },
    {
        if row < self.num_rows && col < self.num_cols {
            proof {
                lemma_index_in_bounds(row as int, col as int, self.num_rows as int, self.num_cols as int);
            }
            self.elems.set(row * self.num_cols + col, val);
            proof {
                assert forall|i: int, j: int|
                    0 <= i < old(self).rows() && 0 <= j < old(self).cols() implies #[trigger] self.cell(i, j) == if i
                        == row && j == col {
                        val
                    } else {
                        old(self).cell(i, j)
                    } by {
                    lemma_index_in_bounds(i, j, self.num_rows as int, self.num_cols as int);
                    if i != row || j != col {
                        lemma_index_distinct(i, j, row as int, col as int, self.num_cols as int);
                    }
                }
            }
            Ok(())
        } else {
            Err(GridError::OutOfBounds)
        }
    }
}

proof fn lemma_index_in_bounds(i: int, j: int, rows: int, cols: int)
    requires
        0 <= i < rows,
        0 <= j < cols,
    ensures
        0 <= i * cols + j < rows * cols,
{
    assert(0 <= i * cols + j < rows * cols) by (nonlinear_arith)
        requires
            0 <= i < rows,
            0 <= j < cols,
    ;
}

proof fn lemma_index_distinct(i: int, j: int, r: int, c: int, cols: int)
    requires
        0 <= j < cols,
        0 <= c < cols,
        0 <= i,
        0 <= r,
        i != r || j != c,
    ensures
        i * cols + j != r * cols + c,
{
    if i == r {
    } else if i < r {
        assert(i * cols + j < r * cols + c) by (nonlinear_arith)
            requires
                i < r,
                0 <= j < cols,
                0 <= c,
        ;
    } else {
        assert(r * cols + c < i * cols + j) by (nonlinear_arith)
            requires
                r < i,
                0 <= c < cols,
                0 <= j,
        ;
    }
}

} // verus!
