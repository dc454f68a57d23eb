use vstd::prelude::*;

verus! {

/// A 2D matrix: `n_rows * n_cols` items stored row major in one vector.
#[derive(Clone)]
pub struct Matrix<T> {
    /// The number of rows
    n_rows: usize,
    /// The number of columns
    n_cols: usize,
    /// The actual data in the matrix
    data: Vec<T>,
}

impl<T> Matrix<T> {
    /// The number of rows, for contracts.
    pub closed spec fn spec_rows(&self) -> nat {
        self.n_rows as nat
    }

    /// The number of columns, for contracts.
    pub closed spec fn spec_cols(&self) -> nat {
        self.n_cols as nat
    }

    /// The row-major contents, for contracts.
    pub closed spec fn contents(&self) -> Seq<T> {
        self.data@
    }

    /// Shape invariant: the backing vector holds exactly one item per cell.
    pub open spec fn wf(&self) -> bool {
        &&& self.contents().len() == self.spec_rows() * self.spec_cols()
        &&& self.spec_rows() * self.spec_cols() <= usize::MAX
    }

    /// The item at row `i`, column `j`, for contracts.
    pub open spec fn spec_at(&self, i: int, j: int) -> T {
        self.contents()[i * self.spec_cols() as int + j]
    }
}

impl<T: Copy> Matrix<T> {
    /// Creates a new (rows x cols) matrix, every cell holding `default`.
    pub fn new(rows: usize, cols: usize, default: T) -> (m: Matrix<T>)
        requires
            rows * cols <= usize::MAX,
        ensures
            m.wf(),
            m.spec_rows() == rows,
            m.spec_cols() == cols,
            forall|k: int| 0 <= k < m.contents().len() ==> m.contents()[k] == default,
    {
        let n = rows * cols;
        let mut data: Vec<T> = Vec::new();
        let mut k: usize = 0;
        while k < n
            invariant
                k <= n,
                data@.len() == k,
                forall|x: int| 0 <= x < k ==> data@[x] == default,
            decreases n - k,
        {
            data.push(default);
            k += 1;
        }
        Matrix { n_rows: rows, n_cols: cols, data }
    }
}

impl<T: Copy> Matrix<T> {
    /// The cell a rectangular matrix built from the given ragged rows holds
    /// at (i, j): the row's own value where the row reaches that column, the
    /// fill value elsewhere.
    pub open spec fn ragged_cell(data: Seq<Vec<T>>, fill: T, i: int, j: int) -> T {
        if j < data[i]@.len() {
            data[i]@[j]
        } else {
            fill
        }
    }

    /// Builds a matrix from one vector per row: as many columns as the first
    /// row has, missing cells of shorter rows filled with `fill`.
    pub fn from_rows(data: &Vec<Vec<T>>, fill: T) -> (m: Matrix<T>)
        requires
            forall|i: int| 0 <= i < data@.len() ==> (#[trigger] data@[i])@.len() <= first_row_len(
                data@,
            ),
            data@.len() * first_row_len(data@) <= usize::MAX,
        ensures
            m.wf(),
            m.spec_rows() == data@.len(),
            m.spec_cols() == first_row_len(data@),
            forall|i: int, j: int|
                0 <= i < m.spec_rows() && 0 <= j < m.spec_cols() ==> m.spec_at(i, j)
                    == Self::ragged_cell(data@, fill, i, j),
    {
        let rows = data.len();
        let cols = if rows == 0 {
            0
        } else {
            data[0].len()
        };
        let mut cells: Vec<T> = Vec::new();
        let mut i: usize = 0;
        while i < rows
            invariant
                0 <= i <= rows,
                rows == data@.len(),
                cols == first_row_len(data@),
                rows * cols <= usize::MAX,
                forall|r: int| 0 <= r < rows ==> (#[trigger] data@[r])@.len() <= cols,
                cells@.len() == i * cols,
                forall|r: int, c: int|
                    0 <= r < i && 0 <= c < cols ==> cells@[r * cols + c] == Self::ragged_cell(
                        data@,
                        fill,
                        r,
                        c,
                    ),
            decreases rows - i,
        {
            proof {
                assert(0 <= (i as int) && 0 <= (cols as int) && (i as int) < rows ==> (i as int)
                    * cols + cols == (i as int + 1) * cols && (i as int + 1) * cols <= rows * cols)
                    by (nonlinear_arith);
            }
            let row = &data[i];
            let row_n = row.len();
            let mut j: usize = 0;
            while j < cols
                invariant
                    0 <= j <= cols,
                    0 <= i < rows,
                    rows == data@.len(),
                    cols == first_row_len(data@),
                    row_n == data@[i as int]@.len(),
                    row_n <= cols,
                    row == data@[i as int],
                    cells@.len() == i * cols + j,
                    i * cols + cols <= usize::MAX,
                    forall|r: int, c: int|
                        0 <= r < i && 0 <= c < cols ==> cells@[r * cols + c] == Self::ragged_cell(
                            data@,
                            fill,
                            r,
                            c,
                        ),
                    forall|c: int|
                        0 <= c < j ==> cells@[i * cols + c] == Self::ragged_cell(
                            data@,
                            fill,
                            i as int,
                            c,
                        ),
                decreases cols - j,
            {
                let ghost pre = cells@;
                if j < row_n {
                    cells.push(row[j]);
                } else {
                    cells.push(fill);
                }
                proof {
                    assert(cells@.drop_last() =~= pre);
                    assert forall|r: int, c: int|
                        0 <= r < i && 0 <= c < cols implies cells@[r * cols + c]
                        == Self::ragged_cell(data@, fill, r, c) by {
                        assert(0 <= r && 0 <= c && r < i && c < cols ==> 0 <= r * cols + c && r
                            * cols + c < i * cols) by (nonlinear_arith);
                        assert(pre[r * cols + c] == Self::ragged_cell(data@, fill, r, c));
                        assert(cells@[r * cols + c] == pre[r * cols + c]);
                    }
                }
                j += 1;
            }
            i += 1;
        }
        Matrix { n_rows: rows, n_cols: cols, data: cells }
    }
}

/// How many columns a matrix built from these rows has: the first row's
/// length, or zero when there are no rows.
pub open spec fn first_row_len<T>(data: Seq<Vec<T>>) -> nat {
    if data.len() == 0 {
        0
    } else {
        data[0]@.len()
    }
}

impl<T> Matrix<T> {
    /// Returns the number of columns
    pub fn columns(&self) -> (c: usize)
        ensures
            c == self.spec_cols(),
    {
        self.n_cols
    }

    /// Returns the number of rows
    pub fn rows(&self) -> (r: usize)
        ensures
            r == self.spec_rows(),
    {
        self.n_rows
    }

    /// Returns the offset corresponding to position (i, j) in the data vector
    fn pos(&self, i: usize, j: usize) -> (p: usize)
        requires
            self.wf(),
            i < self.spec_rows(),
            j < self.spec_cols(),
        ensures
            p == i * self.spec_cols() as int + j,
            p < self.contents().len(),
    {
        proof {
            let r = self.spec_rows() as int;
            let c = self.spec_cols() as int;
            assert(0 <= (i as int) && 0 <= (j as int) && 0 <= c && (i as int) < r && (j as int) < c
                ==> (i as int) * c + (j as int) < r * c) by (nonlinear_arith);
        }
        i * self.n_cols + j
    }

    /// Returns a reference to the item at position (i, j)
    pub fn at(&self, i: usize, j: usize) -> (r: &T)
        requires
            self.wf(),
            i < self.spec_rows(),
            j < self.spec_cols(),
        ensures
            *r == self.spec_at(i as int, j as int),
    {
        let p = self.pos(i, j);
        &self.data[p]
    }

    /// Returns a mutable reference to the item at position (i, j)
    pub fn at_mut(&mut self, i: usize, j: usize) -> (r: &mut T)
        requires
            old(self).wf(),
            i < old(self).spec_rows(),
            j < old(self).spec_cols(),
        ensures
            *r == old(self).spec_at(i as int, j as int),
            final(self).spec_rows() == old(self).spec_rows(),
            final(self).spec_cols() == old(self).spec_cols(),
            final(self).contents() == old(self).contents().update(
                i * old(self).spec_cols() as int + j,
                *final(r),
            ),
            final(self).wf(),
    {
        let p = self.pos(i, j);
        &mut self.data[p]
    }

    /// Returns the slice of the matrix corresponding to the ith row
    pub fn row(&self, i: usize) -> (r: &[T])
        requires
            self.wf(),
            i < self.spec_rows(),
        ensures
            r@ == self.contents().subrange(
                i * self.spec_cols() as int,
                (i + 1) * self.spec_cols() as int,
            ),
            r@.len() == self.spec_cols(),
    {
        proof {
            let rr = self.spec_rows() as int;
            let c = self.spec_cols() as int;
            assert(0 <= (i as int) && 0 <= c && (i as int) < rr
                ==> (i as int) * c <= (i as int + 1) * c && (i as int + 1) * c <= rr * c
                    && (i as int + 1) * c == (i as int) * c + c) by (nonlinear_arith);
        }
        let start = i * self.n_cols;
        let end = (i + 1) * self.n_cols;
        &self.data.as_slice()[start..end]
    }

    /// Returns a mutable slice of the matrix corresponding to the ith row
    pub fn row_mut(&mut self, i: usize) -> (r: &mut [T])
        requires
            old(self).wf(),
            i < old(self).spec_rows(),
        ensures
            r@ == old(self).contents().subrange(
                i * old(self).spec_cols() as int,
                (i + 1) * old(self).spec_cols() as int,
            ),
            final(self).spec_rows() == old(self).spec_rows(),
            final(self).spec_cols() == old(self).spec_cols(),
            final(self).contents() == old(self).contents().subrange(
                0,
                i * old(self).spec_cols() as int,
            ) + final(r)@ + old(self).contents().skip((i + 1) * old(self).spec_cols() as int),
    {
        proof {
            let rr = self.spec_rows() as int;
            let c = self.spec_cols() as int;
            assert(0 <= (i as int) && 0 <= c && (i as int) < rr
                ==> (i as int) * c <= (i as int + 1) * c && (i as int + 1) * c <= rr * c
                    && (i as int + 1) * c == (i as int) * c + c) by (nonlinear_arith);
        }
        let start = i * self.n_cols;
        let slice = self.data.as_mut_slice();
        let (_, rest) = slice.split_at_mut(start);
        let (row, _) = rest.split_at_mut(self.n_cols);
        proof {
            assert(row@ =~= old(self).contents().subrange(
                i * old(self).spec_cols() as int,
                (i + 1) * old(self).spec_cols() as int,
            ));
        }
        row
    }
}

} // verus!
