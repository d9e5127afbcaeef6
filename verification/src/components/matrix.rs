//! A dense two-dimensional container with a validated, uniform row width.
//!
//! Naming note, kept deliberately: `row_size` is the length of every row
//! (the number of columns) and `column_size` is the number of rows (the
//! length of every column).  Every operation here preserves that every row
//! has exactly `row_size` elements and that there are `column_size` rows;
//! shape failures are reported at the point of construction or mutation,
//! never deferred to later indexing.

use vstd::prelude::*;

verus! {

use crate::Error;
use crate::components::ratio::Ratio;

#[derive(Clone, Debug, PartialEq, Eq)]
pub struct Matrix<T> {
    pub rows: Vec<Vec<T>>,
    pub row_size: usize,
    pub column_size: usize,
}

impl<T> Matrix<T> {
    /// Shape invariant: `column_size` rows, each of width `row_size`.
    pub open spec fn wf(self) -> bool {
        &&& self.rows@.len() == self.column_size
        &&& forall|i: int|
            0 <= i < self.rows@.len() ==> (#[trigger] self.rows@[i])@.len() == self.row_size
    }

    /// The entry in row `i`, column `j`.
    pub open spec fn entry(self, i: int, j: int) -> T {
        self.rows@[i]@[j]
    }

    /// An empty matrix whose rows will have width `row_size`; space for
    /// `column_size` rows is reserved, but none is added yet.
    pub fn with_capacity(row_size: usize, column_size: usize) -> (r: Self)
        ensures
            r.wf(),
            r.row_size == row_size,
            r.column_size == 0,
            r.rows@.len() == 0,
    {
        Self { rows: Vec::with_capacity(column_size), row_size, column_size: 0 }
    }

    /// Append a row, growing `column_size` by one; a row of the wrong
    /// width is rejected and the matrix is left unchanged.
    pub fn push_row(&mut self, row: Vec<T>) -> (r: Result<(), Error>)
        requires
            old(self).wf(),
        ensures
            match r {
                Ok(()) => {
                    &&& row@.len() == old(self).row_size
                    &&& final(self).wf()
                    &&& final(self).row_size == old(self).row_size
                    &&& final(self).column_size == old(self).column_size + 1
                    &&& final(self).rows@ == old(self).rows@.push(row)
                },
                Err(e) => {
                    &&& e == Error::ShapeError
                    &&& row@.len() != old(self).row_size
                    &&& *final(self) == *old(self)
                },
            },
    {
        if row.len() != self.row_size {
            return Err(Error::ShapeError);
        }
        self.rows.push(row);
        self.column_size = self.rows.len();
        Ok(())
    }
}

impl<T: Copy> Matrix<T> {
    /// The values of column `index` across all rows, as a fresh vector of
    /// copies (a finite, restartable, read-only view of the column).
    pub fn column_iter(&self, index: usize) -> (r: Result<Vec<T>, Error>)
        requires
            self.wf(),
        ensures
            match r {
                Ok(col) => {
                    &&& index < self.row_size
                    &&& col@.len() == self.column_size
                    &&& forall|i: int| 0 <= i < col@.len() ==> col@[i] == self.entry(i, index as int)
                },
                Err(e) => e == Error::ShapeError && index >= self.row_size,
            },
    {
        if index >= self.row_size {
            return Err(Error::ShapeError);
        }
        let mut col: Vec<T> = Vec::new();
        let mut i: usize = 0;
        while i < self.column_size
            invariant
                self.wf(),
                index < self.row_size,
                i <= self.column_size,
                col@.len() == i,
                forall|k: int| 0 <= k < i ==> col@[k] == self.entry(k, index as int),
            decreases self.column_size - i,
    {
            col.push(self.rows[i][index]);
            i += 1;
        }
        Ok(col)
    }

    /// Concatenate two matrices side by side: row `i` of the result is row
    /// `i` of `self` followed by row `i` of `another`.  Fails exactly when
    /// the two have a different number of rows.
    pub fn try_concat(self, another: Self) -> (r: Result<Self, Error>)
        requires
            self.wf(),
            another.wf(),
            self.row_size + another.row_size <= usize::MAX,
        ensures
            match r {
                Ok(m) => {
                    &&& self.column_size == another.column_size
                    &&& m.wf()
                    &&& m.row_size == self.row_size + another.row_size
                    &&& m.column_size == self.column_size
                    &&& forall|i: int|
                        0 <= i < m.rows@.len()
                            ==> (#[trigger] m.rows@[i])@ == self.rows@[i]@ + another.rows@[i]@
                },
                Err(e) => e == Error::ShapeError && self.column_size != another.column_size,
            },
    {
        if self.column_size != another.column_size {
            return Err(Error::ShapeError);
        }
        let mut rows: Vec<Vec<T>> = Vec::new();
        let mut i: usize = 0;
        while i < self.column_size
            invariant
                self.wf(),
                another.wf(),
                self.column_size == another.column_size,
                i <= self.column_size,
                rows@.len() == i,
                forall|k: int|
                    0 <= k < i ==> (#[trigger] rows@[k])@ == self.rows@[k]@ + another.rows@[k]@,
            decreases self.column_size - i,
        {
            let mut row: Vec<T> = Vec::new();
            let mut j: usize = 0;
            while j < self.row_size
                invariant
                    self.wf(),
                    i < self.column_size,
                    j <= self.row_size,
                    row@.len() == j,
                    forall|k: int| 0 <= k < j ==> row@[k] == self.rows@[i as int]@[k],
                decreases self.row_size - j,
            {
                row.push(self.rows[i][j]);
                j += 1;
            }
            let mut j: usize = 0;
            while j < another.row_size
                invariant
                    self.wf(),
                    another.wf(),
                    self.column_size == another.column_size,
                    i < self.column_size,
                    j <= another.row_size,
                    row@.len() == self.row_size + j,
                    forall|k: int| 0 <= k < self.row_size ==> row@[k] == self.rows@[i as int]@[k],
                    forall|k: int|
                        0 <= k < j ==> row@[self.row_size + k] == another.rows@[i as int]@[k],
                decreases another.row_size - j,
            {
                row.push(another.rows[i][j]);
                j += 1;
            }
            proof {
                assert(row@ =~= self.rows@[i as int]@ + another.rows@[i as int]@);
            }
            rows.push(row);
            i += 1;
        }
        Ok(Self {
            rows,
            row_size: self.row_size + another.row_size,
            column_size: self.column_size,
        })
    }
}

impl<T> Matrix<T> {
    /// Build a matrix from nested rows.  Fails exactly when the input is
    /// empty or the rows have unequal lengths; otherwise the rows are kept
    /// as given, `row_size` is the first row's length and `column_size`
    /// the row count.
    pub fn try_from(rows: Vec<Vec<T>>) -> (r: Result<Self, Error>)
        ensures
            match r {
                Ok(m) => {
                    &&& rows@.len() > 0
                    &&& m.wf()
                    &&& m.rows@ == rows@
                    &&& m.row_size == rows@[0]@.len()
                    &&& m.column_size == rows@.len()
                },
                Err(e) => {
                    &&& e == Error::ShapeError
                    &&& (rows@.len() == 0
                        || exists|i: int|
                            0 < i < rows@.len() && (#[trigger] rows@[i])@.len() != rows@[0]@.len())
                },
            },
    {
        if rows.len() == 0 {
            return Err(Error::ShapeError);
        }
        let row_size = rows[0].len();
        let mut i: usize = 1;
        while i < rows.len()
            invariant
                1 <= i <= rows@.len(),
                row_size == rows@[0]@.len(),
                forall|k: int| 0 < k < i ==> (#[trigger] rows@[k])@.len() == row_size,
            decreases rows@.len() - i,
        {
            if rows[i].len() != row_size {
                return Err(Error::ShapeError);
            }
            i += 1;
        }
        let column_size = rows.len();
        Ok(Self { rows, row_size, column_size })
    }
}

impl Matrix<Ratio> {
    /// All entries are well-formed rationals.
    pub open spec fn entries_wf(self) -> bool {
        forall|i: int, j: int|
            0 <= i < self.column_size && 0 <= j < self.row_size
                ==> (#[trigger] self.entry(i, j)).wf()
    }

    /// A `column_size` by `row_size` matrix of zeros.
    pub fn zeroed(row_size: usize, column_size: usize) -> (r: Self)
        ensures
            r.wf(),
            r.entries_wf(),
            r.row_size == row_size,
            r.column_size == column_size,
            forall|i: int, j: int|
                0 <= i < column_size && 0 <= j < row_size
                    ==> r.entry(i, j) == (Ratio { num: 0, den: 1 }),
    {
        let mut rows: Vec<Vec<Ratio>> = Vec::new();
        let mut i: usize = 0;
        while i < column_size
            invariant
                i <= column_size,
                rows@.len() == i,
                forall|k: int| 0 <= k < i ==> (#[trigger] rows@[k])@.len() == row_size,
                forall|k: int, j: int|
                    0 <= k < i && 0 <= j < row_size
                        ==> rows@[k]@[j] == (Ratio { num: 0, den: 1 }),
            decreases column_size - i,
        {
            let mut row: Vec<Ratio> = Vec::new();
            let mut j: usize = 0;
            while j < row_size
                invariant
                    j <= row_size,
                    row@.len() == j,
                    forall|k: int| 0 <= k < j ==> row@[k] == (Ratio { num: 0, den: 1 }),
                decreases row_size - j,
            {
                row.push(Ratio::zero());
                j += 1;
            }
            rows.push(row);
            i += 1;
        }
        Self { rows, row_size, column_size }
    }

    /// The `size` by `size` identity matrix: ones on the diagonal, zeros
    /// elsewhere.
    pub fn identity(size: usize) -> (r: Self)
        ensures
            r.wf(),
            r.entries_wf(),
            r.row_size == size,
            r.column_size == size,
            forall|i: int, j: int|
                0 <= i < size && 0 <= j < size
                    ==> r.entry(i, j) == (if i == j {
                        Ratio { num: 1, den: 1 }
                    } else {
                        Ratio { num: 0, den: 1 }
                    }),
    {
        let mut m = Matrix::<Ratio>::zeroed(size, size);
        let mut i: usize = 0;
        while i < size
            invariant
                m.wf(),
                m.row_size == size,
                m.column_size == size,
                i <= size,
                forall|k: int, j: int|
                    0 <= k < size && 0 <= j < size
                        ==> #[trigger] m.entry(k, j) == (if k == j && k < i {
                            Ratio { num: 1, den: 1 }
                        } else {
                            Ratio { num: 0, den: 1 }
                        }),
            decreases size - i,
        {
            let ghost before = m;
            m.rows[i][i] = Ratio::from_int(1);
            proof {
                assert forall|k: int, j: int| 0 <= k < size && 0 <= j < size
                    implies #[trigger] m.entry(k, j) == (if k == j && k < i + 1 {
                        Ratio { num: 1, den: 1 }
                    } else {
                        Ratio { num: 0, den: 1 }
                    }) by {
                    if !(k == i && j == i) {
                        assert(m.entry(k, j) == before.entry(k, j));
                    }
                }
            }
            i += 1;
        }
        m
    }
}

} // verus!
