use vstd::prelude::*;
use crate::scalar::Scalar;
use crate::scalar::{one, zero};
use crate::utils::error::Error;
use crate::utils::grid::{lemma_offset, row_major, tabulate};
use crate::vector::vector::Vector;

verus! {

/// What a dense matrix is: its shape and its cells, row after row.
pub struct MatrixView<T> {
    pub rows: nat,
    pub cols: nat,
    pub data: Seq<T>,
}

impl<T> MatrixView<T> {
    /// The buffer holds one cell for each position of the shape.
    pub open spec fn wf(self) -> bool {
        self.data.len() == self.rows * self.cols
    }

    /// Row `i` and column `j` lie within the shape.
    pub open spec fn has(self, i: int, j: int) -> bool {
        0 <= i < self.rows && 0 <= j < self.cols
    }

    /// The cell in row `i` and column `j`.
    pub open spec fn at(self, i: int, j: int) -> T {
        self.data[i * self.cols + j]
    }

    /// The same matrix with `value` in row `i` and column `j`.
    pub open spec fn put(self, i: int, j: int, value: T) -> MatrixView<T> {
        MatrixView { data: self.data.update(i * self.cols + j, value), ..self }
    }

    /// The matrix of the given shape whose cell `(i, j)` is `cell(i, j)`.
    pub open spec fn from_fn(rows: nat, cols: nat, cell: spec_fn(int, int) -> T) -> MatrixView<T> {
        MatrixView { rows, cols, data: row_major(rows, cols, cell) }
    }

    /// The matrix without row `r` and column `c`.
    pub open spec fn minor(self, r: int, c: int) -> MatrixView<T> {
        MatrixView::from_fn(
            (self.rows - 1) as nat,
            (self.cols - 1) as nat,
            |i: int, j: int| self.at(if i < r { i } else { i + 1 }, if j < c { j } else { j + 1 }),
        )
    }

    /// A matrix built by `from_fn` is well formed and holds in each cell what
    /// the cell function says.
    pub proof fn lemma_from_fn(rows: nat, cols: nat, cell: spec_fn(int, int) -> T)
        ensures
            MatrixView::from_fn(rows, cols, cell).wf(),
            MatrixView::from_fn(rows, cols, cell).rows == rows,
            MatrixView::from_fn(rows, cols, cell).cols == cols,
            forall|i: int, j: int|
                0 <= i < rows && 0 <= j < cols ==> #[trigger] MatrixView::from_fn(
                    rows,
                    cols,
                    cell,
                ).at(i, j) == cell(i, j),
    {
        assert forall|i: int, j: int| 0 <= i < rows && 0 <= j < cols implies #[trigger]
            MatrixView::from_fn(rows, cols, cell).at(i, j) == cell(i, j) by {
            lemma_offset(rows as int, cols as int, i, j);
        }
    }

    /// The minor has one row and one column less, and holds the cells that
    /// are left in their order.
    pub proof fn lemma_minor(self, r: int, c: int)
        requires
            self.wf(),
            self.has(r, c),
        ensures
            self.minor(r, c).wf(),
            self.minor(r, c).rows == self.rows - 1,
            self.minor(r, c).cols == self.cols - 1,
            forall|i: int, j: int|
                0 <= i < self.rows - 1 && 0 <= j < self.cols - 1 ==> #[trigger] self.minor(r, c).at(
                    i,
                    j,
                ) == self.at(
                    if i < r {
                        i
                    } else {
                        i + 1
                    },
                    if j < c {
                        j
                    } else {
                        j + 1
                    },
                ),
    {
        assert forall|i: int, j: int|
            0 <= i < self.rows - 1 && 0 <= j < self.cols - 1 implies #[trigger] self.minor(r, c).at(
            i,
            j,
        ) == self.at(
            if i < r {
                i
            } else {
                i + 1
            },
            if j < c {
                j
            } else {
                j + 1
            },
        ) by {
            lemma_offset(self.rows - 1, self.cols - 1, i, j);
        }
    }

    /// Putting a value in a cell changes that cell and no other.
    pub proof fn lemma_put(self, i: int, j: int, value: T)
        requires
            self.wf(),
            self.has(i, j),
        ensures
            self.put(i, j, value).wf(),
            self.put(i, j, value).rows == self.rows,
            self.put(i, j, value).cols == self.cols,
            forall|r: int, c: int|
                self.has(r, c) ==> #[trigger] self.put(i, j, value).at(r, c) == (if r == i && c
                    == j {
                    value
                } else {
                    self.at(r, c)
                }),
    {
        lemma_offset(self.rows as int, self.cols as int, i, j);
        assert forall|r: int, c: int| self.has(r, c) implies #[trigger] self.put(i, j, value).at(
            r,
            c,
        ) == (if r == i && c == j {
            value
        } else {
            self.at(r, c)
        }) by {
            lemma_offset(self.rows as int, self.cols as int, r, c);
        }
    }

    /// Two well-formed matrices of one shape that agree in every cell are the
    /// same matrix.
    pub proof fn lemma_ext(self, other: MatrixView<T>)
        requires
            self.wf(),
            other.wf(),
            self.rows == other.rows,
            self.cols == other.cols,
            forall|i: int, j: int| self.has(i, j) ==> self.at(i, j) == other.at(i, j),
        ensures
            self == other,
    {
        assert forall|k: int| 0 <= k < self.data.len() implies self.data[k] == other.data[k] by {
            crate::utils::grid::lemma_cell_of_offset(self.rows as int, self.cols as int, k);
            let i = k / self.cols as int;
            let j = k % self.cols as int;
            assert(self.has(i, j));
            assert(self.at(i, j) == other.at(i, j));
        }
        assert(self.data =~= other.data);
    }
}

impl<T: Scalar> MatrixView<T> {
    /// The matrix of the given shape with zero in every cell.
    pub open spec fn zeros(rows: nat, cols: nat) -> MatrixView<T> {
        MatrixView::from_fn(rows, cols, |i: int, j: int| zero::<T>())
    }

    /// The `n` by `n` matrix with one on the diagonal and zero elsewhere.
    pub open spec fn identity(n: nat) -> MatrixView<T> {
        MatrixView::from_fn(
            n,
            n,
            |i: int, j: int|
                if i == j {
                    one::<T>()
                } else {
                    zero::<T>()
                },
        )
    }
}

/// A dense matrix: `rows * cols` cells in one buffer, row after row, so that
/// the cell in row `i` and column `j` stands at offset `i * cols + j`.
#[derive(Debug, PartialEq)]
pub struct Matrix<T> {
    rows: usize,
    cols: usize,
    data: Vec<T>,
}

impl<T> View for Matrix<T> {
    type V = MatrixView<T>;

    closed spec fn view(&self) -> MatrixView<T> {
        MatrixView { rows: self.rows as nat, cols: self.cols as nat, data: self.data@ }
    }
}

impl<T> Matrix<T> {
    /// The buffer holds one cell for each position of the shape.
    #[verifier::type_invariant]
    spec fn well_formed(self) -> bool {
        self.data.len() == self.rows * self.cols
    }

    /// A matrix of the given shape over `data`, which is taken row after row.
    /// Refused when `data` does not hold exactly `rows * cols` cells.
    pub fn new(rows: usize, cols: usize, data: Vec<T>) -> (r: Result<Matrix<T>, Error>)
        ensures
            match r {
                Ok(m) => data.len() == rows * cols && m@ == (MatrixView {
                    rows: rows as nat,
                    cols: cols as nat,
                    data: data@,
                }) && m@.wf(),
                Err(e) => data.len() != rows * cols && e == Error::DimensionMismatch,
            },
    {
        match rows.checked_mul(cols) {
            Some(n) => {
                if n == data.len() {
                    Ok(Matrix { rows, cols, data })
                } else {
                    Err(Error::DimensionMismatch)
                }
            },
            None => Err(Error::DimensionMismatch),
        }
    }

    /// A matrix over a buffer that is known to fit the shape.
    pub(crate) fn from_grid(rows: usize, cols: usize, data: Vec<T>) -> (m: Matrix<T>)
        requires
            data.len() == rows * cols,
        ensures
            m@ == (MatrixView { rows: rows as nat, cols: cols as nat, data: data@ }),
            m@.wf(),
    {
        Matrix { rows, cols, data }
    }

    /// The number of rows.
    pub fn rows(&self) -> (n: usize)
        ensures
            n == self@.rows,
            self@.wf(),
            self@.rows * self@.cols <= usize::MAX,
    {
        proof {
            use_type_invariant(self);
        }
        self.rows
    }

    /// The number of columns.
    pub fn cols(&self) -> (n: usize)
        ensures
            n == self@.cols,
            self@.wf(),
            self@.rows * self@.cols <= usize::MAX,
    {
        proof {
            use_type_invariant(self);
        }
        self.cols
    }

    /// The cells, row after row.
    pub fn data(&self) -> (d: &Vec<T>)
        ensures
            d@ == self@.data,
            self@.wf(),
    {
        proof {
            use_type_invariant(self);
        }
        &self.data
    }

    /// Puts `value` in row `row` and column `col`.
    pub fn set(&mut self, row: usize, col: usize, value: T)
        requires
            old(self)@.has(row as int, col as int),
        ensures
            final(self)@ == old(self)@.put(row as int, col as int, value),
            final(self)@.wf(),
    {
        proof {
            use_type_invariant(&*self);
            lemma_offset(self.rows as int, self.cols as int, row as int, col as int);
        }
        let offset: usize = row * self.cols + col;
        self.data[offset] = value;
    }
}

impl<T: Copy> Matrix<T> {
    /// The cell in row `row` and column `col`.
    pub fn get(&self, row: usize, col: usize) -> (value: T)
        requires
            self@.has(row as int, col as int),
        ensures
            value == self@.at(row as int, col as int),
    {
        proof {
            use_type_invariant(self);
            lemma_offset(self.rows as int, self.cols as int, row as int, col as int);
        }
        self.data[row * self.cols + col]
    }

    /// The matrix without row `r` and column `c`.
    pub fn minor(&self, r: usize, c: usize) -> (m: Matrix<T>)
        requires
            self@.has(r as int, c as int),
        ensures
            m@ == self@.minor(r as int, c as int),
            m@.wf(),
    {
        let rows: usize = self.rows() - 1;
        let cols: usize = self.cols() - 1;
        let ghost cell = |i: int, j: int|
            self@.at(if i < r { i } else { i + 1 }, if j < c { j } else { j + 1 });
        let f = |i: usize, j: usize| -> (e: T)
            requires
                i < rows,
                j < cols,
            ensures
                e == cell(i as int, j as int),
            {
                let si: usize = if i < r {
                    i
                } else {
                    i + 1
                };
                let sj: usize = if j < c {
                    j
                } else {
                    j + 1
                };
                self.get(si, sj)
            };
        let data = tabulate(rows, cols, f, Ghost(cell));
        Matrix::from_grid(rows, cols, data)
    }
}

impl<T: Copy> Clone for Matrix<T> {
    /// A matrix of the same shape with the same cells.
    fn clone(&self) -> (m: Matrix<T>)
        ensures
            m@ == self@,
            m@.wf(),
    {
        proof {
            use_type_invariant(self);
        }
        let mut data: Vec<T> = Vec::new();
        let mut k: usize = 0;
        while k < self.data.len()
            invariant
                k <= self.data.len(),
                data@ == self.data@.take(k as int),
            decreases self.data.len() - k,
        {
            data.push(self.data[k]);
            assert(data@ =~= self.data@.take(k + 1));
            k += 1;
        }
        assert(data@ =~= self.data@);
        Matrix { rows: self.rows, cols: self.cols, data }
    }
}

impl<T: Scalar> Matrix<T> {
    /// The matrix of the given shape with zero in every cell.
    pub fn zeros(rows: usize, cols: usize) -> (m: Matrix<T>)
        ensures
            m@ == MatrixView::<T>::zeros(rows as nat, cols as nat),
            m@.wf(),
    {
        let ghost cell = |i: int, j: int| zero::<T>();
        let f = |i: usize, j: usize| -> (e: T)
            ensures
                e == zero::<T>(),
            { T::from_int(0) };
        let data = tabulate(rows, cols, f, Ghost(cell));
        Matrix::from_grid(rows, cols, data)
    }

    /// The `n` by `n` matrix with one on the diagonal and zero elsewhere.
    pub fn identity(n: usize) -> (m: Matrix<T>)
        ensures
            m@ == MatrixView::<T>::identity(n as nat),
            m@.wf(),
    {
        let ghost cell = |i: int, j: int|
            if i == j {
                one::<T>()
            } else {
                zero::<T>()
            };
        let f = |i: usize, j: usize| -> (e: T)
            ensures
                e == cell(i as int, j as int),
            {
                if i == j {
                    T::from_int(1)
                } else {
                    T::from_int(0)
                }
            };
        let data = tabulate(n, n, f, Ghost(cell));
        Matrix::from_grid(n, n, data)
    }
}

/// A vector as a matrix of one column.
impl<T> From<Vector<T>> for Matrix<T> {
    fn from(vector: Vector<T>) -> (m: Matrix<T>)
        ensures
            m@ == (MatrixView { rows: vector@.len(), cols: 1, data: vector@ }),
            m@.wf(),
    {
        let rows: usize = vector.data.len();
        Matrix { rows, cols: 1, data: vector.data }
    }
}

impl<T> vstd::std_specs::convert::FromSpecImpl<Vector<T>> for Matrix<T> {
    open spec fn obeys_from_spec() -> bool {
        true
    }

    closed spec fn from_spec(vector: Vector<T>) -> Matrix<T> {
        Matrix { rows: vector.data.len(), cols: 1, data: vector.data }
    }
}

} // verus!
