//! A table of attribute values: rows of examples, one column per attribute.
use vstd::prelude::*;

verus! {

/// Attribute values stored row by row: the value of attribute `c` in row `r`
/// is `cells[r * n_cols + c]`.
#[derive(Debug, Clone, PartialEq, Eq)]
pub struct Table<A> {
    pub cells: Vec<A>,
    pub n_rows: usize,
    pub n_cols: usize,
}

impl<A> Table<A> {
    /// The cells fill exactly `n_rows` rows of `n_cols` values.
    pub open spec fn wf(&self) -> bool {
        self.cells@.len() == self.n_rows * self.n_cols
    }

    /// The values of attribute `c`, one per row.
    pub open spec fn column_view(&self, c: int) -> Seq<A> {
        Seq::new(self.n_rows as nat, |r: int| self.cells@[r * self.n_cols + c])
    }

    /// A table of `n_rows` rows and `n_cols` columns from its cells in row-major
    /// order; nothing where the number of cells does not fit that shape.
    pub fn from_row_major(n_rows: usize, n_cols: usize, cells: Vec<A>) -> (r: Option<Table<A>>)
        ensures
            r is Some <==> cells@.len() == n_rows * n_cols,
            r matches Some(t) ==> t.wf() && t.n_rows == n_rows && t.n_cols == n_cols && t.cells@ == cells@,
    {
        let len = cells.len();
        match n_rows.checked_mul(n_cols) {
            Some(n) => {
                if n == len {
                    Some(Table { cells, n_rows, n_cols })
                } else {
                    None
                }
            },
            None => {
                proof {
                    assert(n_rows * n_cols > usize::MAX);
                }
                None
            },
        }
    }

    /// The values of attribute `c`, one per row.
    pub fn column(&self, c: usize) -> (r: Vec<A>)
        where
            A: Copy,
        requires
            self.wf(),
            c < self.n_cols,
        ensures
            r@ == self.column_view(c as int),
    {
        let len = self.cells.len();
        let mut out: Vec<A> = Vec::new();
        let mut row: usize = 0;
        while row < self.n_rows
            invariant
                self.wf(),
                c < self.n_cols,
                row <= self.n_rows,
                len == self.cells@.len(),
                out@.len() == row,
                forall|k: int| 0 <= k < row ==> #[trigger] out@[k] == self.column_view(c as int)[k],
            decreases self.n_rows - row,
        {
            proof {
                lemma_cell_in_bounds(row as int, c as int, self.n_rows as int, self.n_cols as int);
            }
            out.push(self.cells[row * self.n_cols + c]);
            row = row + 1;
        }
        assert(out@ =~= self.column_view(c as int));
        out
    }
}

proof fn lemma_cell_in_bounds(r: int, c: int, n_rows: int, n_cols: int)
    requires
        0 <= r < n_rows,
        0 <= c < n_cols,
    ensures
        0 <= r * n_cols + c < n_rows * n_cols,
        r * n_cols <= r * n_cols + c,
{
    assert(0 <= r * n_cols + c < n_rows * n_cols) by (nonlinear_arith)
        requires
            0 <= r < n_rows,
            0 <= c < n_cols,
    ;
}

} // verus!
