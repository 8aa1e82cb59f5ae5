use std::collections::HashMap;
use vstd::prelude::*;
use crate::scalar::Scalar;
use crate::scalar::{one, zero};
use crate::utils::error::Error;
use crate::utils::grid::{lemma_offset, row_major, tabulate};

verus! {

/// The key under which a sparse matrix keeps the cell in row `row` and column
/// `col`: the row in the upper half and the column in the lower half, so that
/// no two cells share a key.
pub open spec fn cell_key(row: usize, col: usize) -> u128 {
    (row * 0x1_0000_0000_0000_0000 + col) as u128
}

/// The key of a cell.
pub fn key_of(row: usize, col: usize) -> (key: u128)
    ensures
        key == cell_key(row, col),
{
    let upper: u128 = row as u128;
    let lower: u128 = col as u128;
    upper * 0x1_0000_0000_0000_0000u128 + lower
}

/// The map that holds the first `n` entries, each under the key of its cell;
/// of two entries for one cell the later one stays.
pub open spec fn keyed<T>(entries: Seq<(usize, usize, T)>, n: nat) -> Map<u128, T>
    decreases n,
{
    if n == 0 {
        Map::empty()
    } else {
        keyed(entries, (n - 1) as nat).insert(
            cell_key(entries[n - 1].0, entries[n - 1].1),
            entries[n - 1].2,
        )
    }
}

/// A matrix that is either dense, with all its cells in one buffer row after
/// row, or sparse, with a map from the keys of its cells to their values, in
/// which a cell without a value reads as zero and a zero is never kept by
/// `set`.
#[derive(Debug, Clone, PartialEq)]
#[allow(inconsistent_fields)]
pub enum Matrix<T> {
    Dense { rows: usize, cols: usize, data: Vec<T> },
    Sparse { rows: usize, cols: usize, data: HashMap<u128, T> },
}

impl<T: Scalar> Matrix<T> {
    /// The number of rows.
    pub open spec fn rows_spec(self) -> nat {
        match self {
            Matrix::Dense { rows, .. } => rows as nat,
            Matrix::Sparse { rows, .. } => rows as nat,
        }
    }

    /// The number of columns.
    pub open spec fn cols_spec(self) -> nat {
        match self {
            Matrix::Dense { cols, .. } => cols as nat,
            Matrix::Sparse { cols, .. } => cols as nat,
        }
    }

    /// A dense matrix holds one cell for each position of its shape. Of a
    /// sparse one nothing is asked.
    pub open spec fn wf(self) -> bool {
        match self {
            Matrix::Dense { rows, cols, data } => data.len() == rows * cols,
            Matrix::Sparse { .. } => true,
        }
    }

    /// Row `row` and column `col` lie within the shape.
    pub open spec fn has(self, row: usize, col: usize) -> bool {
        row < self.rows_spec() && col < self.cols_spec()
    }

    /// The cell in row `row` and column `col`: for a dense matrix the cell at
    /// offset `row * cols + col`, for a sparse one the value kept under the
    /// cell's key, or zero if none is kept.
    pub open spec fn at(self, row: usize, col: usize) -> T {
        match self {
            Matrix::Dense { cols, data, .. } => data@[row * cols + col],
            Matrix::Sparse { data, .. } => if data@.contains_key(cell_key(row, col)) {
                data@[cell_key(row, col)]
            } else {
                zero::<T>()
            },
        }
    }

    /// A dense matrix of the given shape over `data`, which is taken row
    /// after row. Refused when `data` does not hold exactly `rows * cols`
    /// cells.
    pub fn new_dense(rows: usize, cols: usize, data: Vec<T>) -> (r: Result<Matrix<T>, Error>)
        ensures
            match r {
                Ok(m) => data.len() == rows * cols && m == (Matrix::Dense { rows, cols, data })
                    && m.wf(),
                Err(e) => data.len() != rows * cols && e == Error::DimensionMismatch,
            },
    {
        match rows.checked_mul(cols) {
            Some(n) => {
                if n == data.len() {
                    Ok(Matrix::Dense { rows, cols, data })
                } else {
                    Err(Error::DimensionMismatch)
                }
            },
            None => Err(Error::DimensionMismatch),
        }
    }

    /// A sparse matrix of the given shape that keeps each entry under the key
    /// of its cell; of two entries for one cell the later one stays.
    pub fn new_sparse(rows: usize, cols: usize, entries: Vec<(usize, usize, T)>) -> (m: Matrix<T>)
        ensures
            m matches Matrix::Sparse { rows: r, cols: c, data } && r == rows && c == cols && data@
                == keyed(entries@, entries@.len()),
    {
        let mut data: HashMap<u128, T> = HashMap::new();
        let mut k: usize = 0;
        while k < entries.len()
            invariant
                k <= entries.len(),
                data@ == keyed(entries@, k as nat),
            decreases entries.len() - k,
        {
            let entry: (usize, usize, T) = entries[k];
            data.insert(key_of(entry.0, entry.1), entry.2);
            k += 1;
        }
        Matrix::Sparse { rows, cols, data }
    }

    /// The dense matrix of the given shape with zero in every cell.
    pub fn zeros(rows: usize, cols: usize) -> (m: Matrix<T>)
        ensures
            m matches Matrix::Dense { rows: r, cols: c, data } && r == rows && c == cols && data@
                == row_major(rows as nat, cols as nat, |i: int, j: int| zero::<T>()),
            m.wf(),
    {
        let ghost cell = |i: int, j: int| zero::<T>();
        let f = |i: usize, j: usize| -> (e: T)
            ensures
                e == zero::<T>(),
            { T::from_int(0) };
        let data = tabulate(rows, cols, f, Ghost(cell));
        Matrix::Dense { rows, cols, data }
    }

    /// The dense `n` by `n` matrix with one on the diagonal and zero
    /// elsewhere.
    pub fn identity(n: usize) -> (m: Matrix<T>)
        ensures
            m matches Matrix::Dense { rows: r, cols: c, data } && r == n && c == n && data@
                == row_major(
                n as nat,
                n as nat,
                |i: int, j: int|
                    if i == j {
                        one::<T>()
                    } else {
                        zero::<T>()
                    },
            ),
            m.wf(),
    {
        let ghost cell = |i: int, j: int|
            if i == j {
                one::<T>()
            } else {
                zero::<T>()
            };
        let f = |i: usize, j: usize| -> (e: T)
            ensures
                e == cell(i as int, j as int),
            {
                if i == j {
                    T::from_int(1)
                } else {
                    T::from_int(0)
                }
            };
        let data = tabulate(n, n, f, Ghost(cell));
        Matrix::Dense { rows: n, cols: n, data }
    }

    /// The cell in row `row` and column `col`.
    pub fn get(&self, row: usize, col: usize) -> (value: T)
        requires
            self.wf(),
            self.has(row, col),
        ensures
            value == self.at(row, col),
    {
        match self {
            Matrix::Dense { rows, cols, data } => {
                proof {
                    lemma_offset(*rows as int, *cols as int, row as int, col as int);
                }
                data[row * *cols + col]
            },
            Matrix::Sparse { rows, cols, data } => {
                match data.get(&key_of(row, col)) {
                    Some(value) => *value,
                    None => T::from_int(0),
                }
            },
        }
    }

    /// Puts `value` in row `row` and column `col`. A dense matrix overwrites
    /// the cell. A sparse one keeps the value under the cell's key, in place
    /// of what it kept there, unless the value equals zero: then it keeps
    /// nothing for the cell.
    pub fn set(&mut self, row: usize, col: usize, value: T)
        requires
            old(self).wf(),
            old(self).has(row, col),
        ensures
            final(self).wf(),
            match *old(self) {
                Matrix::Dense { rows, cols, data } => *final(self) == (Matrix::Dense {
                    rows,
                    cols,
                    data: final(self)->Dense_data,
                }) && final(self)->Dense_data@ == data@.update(row * cols + col, value),
                Matrix::Sparse { rows, cols, data } => *final(self) == (Matrix::Sparse {
                    rows,
                    cols,
                    data: final(self)->Sparse_data,
                }) && final(self)->Sparse_data@ == (if value.equals_spec(zero::<T>()) {
                    data@.remove(cell_key(row, col))
                } else {
                    data@.insert(cell_key(row, col), value)
                }),
            },
    {
        match self {
            Matrix::Dense { rows, cols, data } => {
                proof {
                    lemma_offset(*rows as int, *cols as int, row as int, col as int);
                }
                data[row * *cols + col] = value;
            },
            Matrix::Sparse { rows, cols, data } => {
                if !value.equals(T::from_int(0)) {
                    data.insert(key_of(row, col), value);
                } else {
                    data.remove(&key_of(row, col));
                }
            },
        }
    }
}

} // verus!
