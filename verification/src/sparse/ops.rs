use vstd::prelude::*;
use crate::scalar::Scalar;
use crate::scalar::zero;
use crate::sparse::matrix::{SparseMatrix, SparseView};
use crate::utils::error::Error;
use crate::utils::grid::{row_major, tabulate};

verus! {

/// The two matrices have the same number of rows and of columns.
pub open spec fn same_shape<T>(a: SparseView<T>, b: SparseView<T>) -> bool {
    a.rows == b.rows && a.cols == b.cols
}

/// The matrix of the given shape with one entry for every cell, row after
/// row, whose value is `cell(i, j)`.
pub open spec fn full<T>(rows: nat, cols: nat, cell: spec_fn(int, int) -> T) -> SparseView<T> {
    SparseView {
        rows,
        cols,
        entries: row_major(rows, cols, |i: int, j: int| (i as usize, j as usize, cell(i, j))),
    }
}

/// The cell-by-cell sum, with an entry for every cell.
pub open spec fn add_spec<T: Scalar>(a: SparseView<T>, b: SparseView<T>) -> SparseView<T> {
    full(a.rows, a.cols, |i: int, j: int| a.at(i, j).plus_spec(b.at(i, j)))
}

/// The cell-by-cell difference, with an entry for every cell.
pub open spec fn sub_spec<T: Scalar>(a: SparseView<T>, b: SparseView<T>) -> SparseView<T> {
    full(a.rows, a.cols, |i: int, j: int| a.at(i, j).minus_spec(b.at(i, j)))
}

/// The cell-by-cell quotient, with an entry for every cell.
pub open spec fn div_spec<T: Scalar>(a: SparseView<T>, b: SparseView<T>) -> SparseView<T> {
    full(a.rows, a.cols, |i: int, j: int| a.at(i, j).over_spec(b.at(i, j)))
}

/// The sum of the first `n` products of row `i` of `a` with column `j` of
/// `b`, added up from zero in ascending order.
pub open spec fn dot_prefix<T: Scalar>(
    a: SparseView<T>,
    b: SparseView<T>,
    i: int,
    j: int,
    n: nat,
) -> T
    decreases n,
{
    if n == 0 {
        zero::<T>()
    } else {
        dot_prefix(a, b, i, j, (n - 1) as nat).plus_spec(
            a.at(i, n - 1).times_spec(b.at(n - 1, j)),
        )
    }
}

/// The matrix product, with an entry for every cell.
pub open spec fn mul_spec<T: Scalar>(a: SparseView<T>, b: SparseView<T>) -> SparseView<T> {
    full(a.rows, b.cols, |i: int, j: int| dot_prefix(a, b, i, j, a.cols))
}

/// The matrix with rows and columns exchanged: for every cell `(i, j)` of the
/// matrix, row after row, an entry for cell `(j, i)`.
pub open spec fn transpose_spec<T: Scalar>(a: SparseView<T>) -> SparseView<T> {
    SparseView {
        rows: a.cols,
        cols: a.rows,
        entries: row_major(a.rows, a.cols, |i: int, j: int| (j as usize, i as usize, a.at(i, j))),
    }
}

/// Every cell multiplied by `scalar`, with an entry for every cell.
pub open spec fn scalar_mul_spec<T: Scalar>(a: SparseView<T>, scalar: T) -> SparseView<T> {
    full(a.rows, a.cols, |i: int, j: int| a.at(i, j).times_spec(scalar))
}

/// Every cell raised to `exponent`, with an entry for every cell.
pub open spec fn power_spec<T: Scalar>(a: SparseView<T>, exponent: T) -> SparseView<T> {
    full(a.rows, a.cols, |i: int, j: int| a.at(i, j).powf_spec(exponent))
}

/// Adds two matrices of the same shape cell by cell.
pub fn add<T: Scalar>(a: &SparseMatrix<T>, b: &SparseMatrix<T>) -> (r: Result<
    SparseMatrix<T>,
    Error,
>)
    ensures
        match r {
            Ok(m) => same_shape(a@, b@) && m@ == add_spec(a@, b@),
            Err(e) => !same_shape(a@, b@) && e == Error::DimensionMismatch,
        },
{
    if a.rows != b.rows || a.cols != b.cols {
        return Err(Error::DimensionMismatch);
    }
    let ghost entry = |i: int, j: int| (i as usize, j as usize, a@.at(i, j).plus_spec(b@.at(i, j)));
    let f = |i: usize, j: usize| -> (e: (usize, usize, T))
        ensures
            e == entry(i as int, j as int),
        { (i, j, a.get(i, j).plus(b.get(i, j))) };
    let data = tabulate(a.rows, a.cols, f, Ghost(entry));
    assert(data@ =~= add_spec(a@, b@).entries);
    Ok(SparseMatrix::new(a.rows, a.cols, data))
}

/// Subtracts `b` from `a`, two matrices of the same shape, cell by cell.
pub fn sub<T: Scalar>(a: &SparseMatrix<T>, b: &SparseMatrix<T>) -> (r: Result<
    SparseMatrix<T>,
    Error,
>)
    ensures
        match r {
            Ok(m) => same_shape(a@, b@) && m@ == sub_spec(a@, b@),
            Err(e) => !same_shape(a@, b@) && e == Error::DimensionMismatch,
        },
{
    if a.rows != b.rows || a.cols != b.cols {
        return Err(Error::DimensionMismatch);
    }
    let ghost entry = |i: int, j: int|
        (i as usize, j as usize, a@.at(i, j).minus_spec(b@.at(i, j)));
    let f = |i: usize, j: usize| -> (e: (usize, usize, T))
        ensures
            e == entry(i as int, j as int),
        { (i, j, a.get(i, j).minus(b.get(i, j))) };
    let data = tabulate(a.rows, a.cols, f, Ghost(entry));
    assert(data@ =~= sub_spec(a@, b@).entries);
    Ok(SparseMatrix::new(a.rows, a.cols, data))
}

/// Divides `a` by `b`, two matrices of the same shape, cell by cell. A zero
/// divisor is handed to the scalar's own division like any other.
pub fn div<T: Scalar>(a: &SparseMatrix<T>, b: &SparseMatrix<T>) -> (r: Result<
    SparseMatrix<T>,
    Error,
>)
    ensures
        match r {
            Ok(m) => same_shape(a@, b@) && m@ == div_spec(a@, b@),
            Err(e) => !same_shape(a@, b@) && e == Error::DimensionMismatch,
        },
{
    if a.rows != b.rows || a.cols != b.cols {
        return Err(Error::DimensionMismatch);
    }
    let ghost entry = |i: int, j: int| (i as usize, j as usize, a@.at(i, j).over_spec(b@.at(i, j)));
    let f = |i: usize, j: usize| -> (e: (usize, usize, T))
        ensures
            e == entry(i as int, j as int),
        { (i, j, a.get(i, j).over(b.get(i, j))) };
    let data = tabulate(a.rows, a.cols, f, Ghost(entry));
    assert(data@ =~= div_spec(a@, b@).entries);
    Ok(SparseMatrix::new(a.rows, a.cols, data))
}

/// Row `i` of `a` times column `j` of `b`: the products are added to a sum
/// that starts at zero, in ascending order.
fn dot<T: Scalar>(a: &SparseMatrix<T>, b: &SparseMatrix<T>, i: usize, j: usize) -> (sum: T)
    ensures
        sum == dot_prefix(a@, b@, i as int, j as int, a@.cols),
{
    let n: usize = a.cols;
    let mut sum: T = T::from_int(0);
    let mut k: usize = 0;
    while k < n
        invariant
            k <= n,
            n == a@.cols,
            sum == dot_prefix(a@, b@, i as int, j as int, k as nat),
        decreases n - k,
    {
        sum = sum.plus(a.get(i, k).times(b.get(k, j)));
        k += 1;
    }
    sum
}

/// The matrix product of `a` and `b`, for which `a` must have as many
/// columns as `b` has rows.
pub fn mul<T: Scalar>(a: &SparseMatrix<T>, b: &SparseMatrix<T>) -> (r: Result<
    SparseMatrix<T>,
    Error,
>)
    ensures
        match r {
            Ok(m) => a@.cols == b@.rows && m@ == mul_spec(a@, b@),
            Err(e) => a@.cols != b@.rows && e == Error::DimensionMismatch,
        },
{
    if a.cols != b.rows {
        return Err(Error::DimensionMismatch);
    }
    let ghost entry = |i: int, j: int| (i as usize, j as usize, dot_prefix(a@, b@, i, j, a@.cols));
    let f = |i: usize, j: usize| -> (e: (usize, usize, T))
        ensures
            e == entry(i as int, j as int),
        { (i, j, dot(a, b, i, j)) };
    let data = tabulate(a.rows, b.cols, f, Ghost(entry));
    assert(data@ =~= mul_spec(a@, b@).entries);
    Ok(SparseMatrix::new(a.rows, b.cols, data))
}

/// The matrix with rows and columns exchanged.
pub fn transpose<T: Scalar>(matrix: &SparseMatrix<T>) -> (m: SparseMatrix<T>)
    ensures
        m@ == transpose_spec(matrix@),
{
    let ghost entry = |i: int, j: int| (j as usize, i as usize, matrix@.at(i, j));
    let f = |i: usize, j: usize| -> (e: (usize, usize, T))
        ensures
            e == entry(i as int, j as int),
        { (j, i, matrix.get(i, j)) };
    let data = tabulate(matrix.rows, matrix.cols, f, Ghost(entry));
    SparseMatrix::new(matrix.cols, matrix.rows, data)
}

/// Multiplies every cell by `scalar`.
pub fn scalar_mul<T: Scalar>(matrix: &SparseMatrix<T>, scalar: T) -> (m: SparseMatrix<T>)
    ensures
        m@ == scalar_mul_spec(matrix@, scalar),
{
    let ghost entry = |i: int, j: int|
        (i as usize, j as usize, matrix@.at(i, j).times_spec(scalar));
    let f = |i: usize, j: usize| -> (e: (usize, usize, T))
        ensures
            e == entry(i as int, j as int),
        { (i, j, matrix.get(i, j).times(scalar)) };
    let data = tabulate(matrix.rows, matrix.cols, f, Ghost(entry));
    assert(data@ =~= scalar_mul_spec(matrix@, scalar).entries);
    SparseMatrix::new(matrix.rows, matrix.cols, data)
}

/// Raises every cell to `exponent`, each on its own.
pub fn power<T: Scalar>(matrix: &SparseMatrix<T>, exponent: T) -> (m: SparseMatrix<T>)
    ensures
        m@ == power_spec(matrix@, exponent),
{
    let ghost entry = |i: int, j: int|
        (i as usize, j as usize, matrix@.at(i, j).powf_spec(exponent));
    let f = |i: usize, j: usize| -> (e: (usize, usize, T))
        ensures
            e == entry(i as int, j as int),
        { (i, j, matrix.get(i, j).powf(exponent)) };
    let data = tabulate(matrix.rows, matrix.cols, f, Ghost(entry));
    assert(data@ =~= power_spec(matrix@, exponent).entries);
    SparseMatrix::new(matrix.rows, matrix.cols, data)
}

} // verus!
