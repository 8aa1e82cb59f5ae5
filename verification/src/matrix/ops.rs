use vstd::prelude::*;
pub use crate::dense::ops::{add, div, mul, sub, transpose};
use crate::dense::matrix::{Matrix, MatrixView};
use crate::scalar::Scalar;
use crate::dense::ops::lemma_identity;
use crate::scalar::{
    finite,
    lemma_one_is_neutral,
    lemma_zero_and_one,
    lemma_zero_is_neutral,
    neutral_units,
    one,
    zero,
};
use crate::utils::error::Error;
use crate::utils::grid::{lemma_offset, tabulate};

verus! {

/// Every cell multiplied by `scalar`.
pub open spec fn scalar_mul_spec<T: Scalar>(a: MatrixView<T>, scalar: T) -> MatrixView<T> {
    MatrixView::from_fn(a.rows, a.cols, |i: int, j: int| a.at(i, j).times_spec(scalar))
}

/// Every cell raised to `exponent`.
pub open spec fn power_spec<T: Scalar>(a: MatrixView<T>, exponent: T) -> MatrixView<T> {
    MatrixView::from_fn(a.rows, a.cols, |i: int, j: int| a.at(i, j).powf_spec(exponent))
}

/// The sign of the cofactor of column `col` in the first row: one for an
/// even column, minus one for an odd one.
pub open spec fn cofactor_sign<T: Scalar>(col: int) -> T {
    if col % 2 == 0 {
        T::from_int_spec(1)
    } else {
        T::from_int_spec(-1i32)
    }
}

/// The determinant of a square matrix: the cell itself for one row, the
/// difference of the two diagonal products for two rows, and the cofactor
/// expansion along the first row for more. With no row it is zero.
pub open spec fn determinant_spec<T: Scalar>(m: MatrixView<T>) -> T
    decreases m.rows, m.rows + 1,
{
    if m.rows == 1 {
        m.at(0, 0)
    } else if m.rows == 2 {
        m.at(0, 0).times_spec(m.at(1, 1)).minus_spec(m.at(0, 1).times_spec(m.at(1, 0)))
    } else {
        cofactor_prefix(m, m.rows)
    }
}

/// The cofactor expansion along the first row over the first `n` columns,
/// added up from zero in ascending order: each term is the sign times the
/// cell times the determinant of the cell's minor.
pub open spec fn cofactor_prefix<T: Scalar>(m: MatrixView<T>, n: nat) -> T
    decreases m.rows, n,
{
    if n == 0 || m.rows == 0 || n > m.rows {
        zero::<T>()
    } else {
        cofactor_prefix(m, (n - 1) as nat).plus_spec(
            cofactor_sign::<T>(n - 1).times_spec(m.at(0, n - 1)).times_spec(
                determinant_spec(m.minor(0, n - 1)),
            ),
        )
    }
}

/// The two eigenvalues of a two by two matrix, the one with the root added
/// first: half of the trace plus or minus the root of the discriminant,
/// which is the trace squared less four times the determinant.
pub open spec fn eigenvalues_spec<T: Scalar>(m: MatrixView<T>) -> Seq<T> {
    let trace = m.at(0, 0).plus_spec(m.at(1, 1));
    let root = discriminant(m).sqrt_spec();
    let two = T::from_int_spec(2);
    seq![trace.plus_spec(root).over_spec(two), trace.minus_spec(root).over_spec(two)]
}

/// The discriminant of the characteristic polynomial of a two by two matrix.
pub open spec fn discriminant<T: Scalar>(m: MatrixView<T>) -> T {
    let trace = m.at(0, 0).plus_spec(m.at(1, 1));
    trace.times_spec(trace).minus_spec(T::from_int_spec(4).times_spec(determinant_spec(m)))
}

/// `x` is zero or more: zero is less than `x`, or equal to it.
pub open spec fn non_negative<T: Scalar>(x: T) -> bool {
    zero::<T>().less_spec(x) || x.equals_spec(zero::<T>())
}

/// The matrix with the identity of the same size set to its right.
pub open spec fn augmented<T: Scalar>(m: MatrixView<T>) -> MatrixView<T> {
    MatrixView::from_fn(
        m.rows,
        2 * m.rows,
        |i: int, j: int|
            if j < m.rows {
                m.at(i, j)
            } else if j == i + m.rows {
                one::<T>()
            } else {
                zero::<T>()
            },
    )
}

/// The row chosen as pivot for column `col` among the rows from `col` up to,
/// but not including, `upto`: the one whose cell in that column has the
/// largest magnitude, and of several such the first.
pub open spec fn pivot_row<T: Scalar>(m: MatrixView<T>, col: int, upto: int) -> int
    decreases upto - col,
{
    if upto <= col + 1 {
        col
    } else {
        let best = pivot_row(m, col, upto - 1);
        if m.at(best, col).abs_spec().less_spec(m.at(upto - 1, col).abs_spec()) {
            upto - 1
        } else {
            best
        }
    }
}

/// The matrix with rows `a` and `b` exchanged.
pub open spec fn swapped_rows<T>(m: MatrixView<T>, a: int, b: int) -> MatrixView<T> {
    MatrixView::from_fn(
        m.rows,
        m.cols,
        |r: int, c: int|
            m.at(
                if r == a {
                    b
                } else if r == b {
                    a
                } else {
                    r
                },
                c,
            ),
    )
}

/// The matrix with row `p` divided by its cell on the diagonal.
pub open spec fn scaled_row<T: Scalar>(m: MatrixView<T>, p: int) -> MatrixView<T> {
    MatrixView::from_fn(
        m.rows,
        m.cols,
        |r: int, c: int|
            if r == p {
                m.at(r, c).over_spec(m.at(p, p))
            } else {
                m.at(r, c)
            },
    )
}

/// The matrix with column `p` cleared in every row but `p`: each such row
/// less its cell in column `p` times row `p`.
pub open spec fn cleared_column<T: Scalar>(m: MatrixView<T>, p: int) -> MatrixView<T> {
    MatrixView::from_fn(
        m.rows,
        m.cols,
        |r: int, c: int|
            if r != p {
                m.at(r, c).minus_spec(m.at(r, p).times_spec(m.at(p, c)))
            } else {
                m.at(r, c)
            },
    )
}

/// One step of Gauss-Jordan elimination on column `p`: the pivot row is
/// exchanged into place; if the pivot is then zero there is no result;
/// otherwise the pivot row is scaled and the column cleared.
pub open spec fn gauss_jordan_step<T: Scalar>(m: MatrixView<T>, p: int) -> Option<MatrixView<T>> {
    let s = swapped_rows(m, p, pivot_row(m, p, m.rows as int));
    if s.at(p, p).equals_spec(zero::<T>()) {
        None
    } else {
        Some(cleared_column(scaled_row(s, p), p))
    }
}

/// Gauss-Jordan elimination on the first `n` columns, one after the other;
/// `None` once a pivot is zero.
pub open spec fn gauss_jordan<T: Scalar>(m: MatrixView<T>, n: nat) -> Option<MatrixView<T>>
    decreases n,
{
    if n == 0 {
        Some(m)
    } else {
        match gauss_jordan(m, (n - 1) as nat) {
            None => None,
            Some(reduced) => gauss_jordan_step(reduced, n - 1),
        }
    }
}

/// `x` rounded to six decimal places.
pub open spec fn rounded<T: Scalar>(x: T) -> T {
    x.times_spec(T::from_int_spec(1_000_000)).round_spec().over_spec(T::from_int_spec(1_000_000))
}

/// The inverse that Gauss-Jordan elimination with partial pivoting finds for
/// a square matrix: the right half of the reduced augmented matrix, each cell
/// rounded to six decimal places; `None` where a pivot is zero.
pub open spec fn inv_spec<T: Scalar>(m: MatrixView<T>) -> Option<MatrixView<T>> {
    match gauss_jordan(augmented(m), m.rows) {
        None => None,
        Some(reduced) => Some(
            MatrixView::from_fn(
                m.rows,
                m.rows,
                |i: int, j: int| rounded(reduced.at(i, j + m.rows)),
            ),
        ),
    }
}

/// Multiplies every cell by `scalar`.
pub fn scalar_mul<T: Scalar>(matrix: &Matrix<T>, scalar: T) -> (m: Matrix<T>)
    ensures
        m@ == scalar_mul_spec(matrix@, scalar),
        m@.wf(),
{
    let ghost cell = |i: int, j: int| matrix@.at(i, j).times_spec(scalar);
    let f = |i: usize, j: usize| -> (e: T)
        requires
            i < matrix@.rows,
            j < matrix@.cols,
        ensures
            e == cell(i as int, j as int),
        { matrix.get(i, j).times(scalar) };
    let data = tabulate(matrix.rows(), matrix.cols(), f, Ghost(cell));
    Matrix::from_grid(matrix.rows(), matrix.cols(), data)
}

/// Raises every cell to `exponent`, each on its own.
pub fn power<T: Scalar>(matrix: &Matrix<T>, exponent: T) -> (m: Matrix<T>)
    ensures
        m@ == power_spec(matrix@, exponent),
        m@.wf(),
{
    let ghost cell = |i: int, j: int| matrix@.at(i, j).powf_spec(exponent);
    let f = |i: usize, j: usize| -> (e: T)
        requires
            i < matrix@.rows,
            j < matrix@.cols,
        ensures
            e == cell(i as int, j as int),
        { matrix.get(i, j).powf(exponent) };
    let data = tabulate(matrix.rows(), matrix.cols(), f, Ghost(cell));
    Matrix::from_grid(matrix.rows(), matrix.cols(), data)
}

/// The determinant of a square matrix, by cofactor expansion along the first
/// row. The work grows with the factorial of the size, so this is for small
/// matrices.
pub fn determinant<T: Scalar>(matrix: &Matrix<T>) -> (r: Result<T, Error>)
    ensures
        match r {
            Ok(d) => matrix@.rows == matrix@.cols && d == determinant_spec(matrix@),
            Err(e) => matrix@.rows != matrix@.cols && e == Error::NotSquare,
        },
{
    if matrix.rows() != matrix.cols() {
        return Err(Error::NotSquare);
    }
    Ok(square_determinant(matrix))
}

/// The determinant of a matrix that is known to be square.
fn square_determinant<T: Scalar>(matrix: &Matrix<T>) -> (d: T)
    requires
        matrix@.rows == matrix@.cols,
    ensures
        d == determinant_spec(matrix@),
    decreases matrix@.rows,
{
    let n: usize = matrix.rows();
    if n == 1 {
        return matrix.get(0, 0);
    }
    if n == 2 {
        return matrix.get(0, 0).times(matrix.get(1, 1)).minus(
            matrix.get(0, 1).times(matrix.get(1, 0)),
        );
    }
    let mut det: T = T::from_int(0);
    let mut col: usize = 0;
    while col < n
        invariant
            col <= n,
            n == matrix@.rows,
            matrix@.rows == matrix@.cols,
            det == cofactor_prefix(matrix@, col as nat),
        decreases n - col,
    {
        let submatrix = matrix.minor(0, col);
        let sign: T = if col % 2 == 0 {
            T::from_int(1)
        } else {
            T::from_int(-1)
        };
        det = det.plus(sign.times(matrix.get(0, col)).times(square_determinant(&submatrix)));
        col += 1;
    }
    det
}

/// The eigenvalues of a two by two matrix, when they are real.
///
/// A matrix that is not square is refused as `NotSquare`, a square one of
/// another size as `Unsupported`, and one whose discriminant is not zero or
/// more as `ComplexEigenvalues`.
pub fn eigenvalues<T: Scalar>(matrix: &Matrix<T>) -> (r: Result<Vec<T>, Error>)
    ensures
        match r {
            Ok(values) => matrix@.rows == 2 && matrix@.cols == 2 && non_negative(
                discriminant(matrix@),
            ) && values@ == eigenvalues_spec(matrix@),
            Err(e) => e == (if matrix@.rows != matrix@.cols {
                Error::NotSquare
            } else if matrix@.rows != 2 {
                Error::Unsupported
            } else {
                Error::ComplexEigenvalues
            }) && !(matrix@.rows == 2 && matrix@.cols == 2 && non_negative(
                discriminant(matrix@),
            )),
        },
{
    if matrix.rows() != matrix.cols() {
        return Err(Error::NotSquare);
    }
    if matrix.rows() != 2 {
        return Err(Error::Unsupported);
    }
    let trace: T = matrix.get(0, 0).plus(matrix.get(1, 1));
    let det: T = square_determinant(matrix);
    let disc: T = trace.times(trace).minus(T::from_int(4).times(det));
    let nought: T = T::from_int(0);
    if nought.less(disc) || disc.equals(nought) {
        let root: T = disc.sqrt();
        let two: T = T::from_int(2);
        let mut values: Vec<T> = Vec::new();
        values.push(trace.plus(root).over(two));
        values.push(trace.minus(root).over(two));
        assert(values@ =~= eigenvalues_spec(matrix@));
        Ok(values)
    } else {
        Err(Error::ComplexEigenvalues)
    }
}

/// Exchanging two rows keeps the shape and moves the cells of the one row to
/// the other.
pub proof fn lemma_swapped_rows<T>(m: MatrixView<T>, a: int, b: int)
    ensures
        swapped_rows(m, a, b).wf(),
        swapped_rows(m, a, b).rows == m.rows,
        swapped_rows(m, a, b).cols == m.cols,
        forall|r: int, c: int|
            m.has(r, c) ==> #[trigger] swapped_rows(m, a, b).at(r, c) == m.at(
                if r == a {
                    b
                } else if r == b {
                    a
                } else {
                    r
                },
                c,
            ),
{
    assert forall|r: int, c: int| m.has(r, c) implies #[trigger] swapped_rows(m, a, b).at(r, c)
        == m.at(
        if r == a {
            b
        } else if r == b {
            a
        } else {
            r
        },
        c,
    ) by {
        lemma_offset(m.rows as int, m.cols as int, r, c);
    }
}

/// Scaling a row keeps the shape and divides the cells of that row alone.
pub proof fn lemma_scaled_row<T: Scalar>(m: MatrixView<T>, p: int)
    ensures
        scaled_row(m, p).wf(),
        scaled_row(m, p).rows == m.rows,
        scaled_row(m, p).cols == m.cols,
        forall|r: int, c: int|
            m.has(r, c) ==> #[trigger] scaled_row(m, p).at(r, c) == (if r == p {
                m.at(r, c).over_spec(m.at(p, p))
            } else {
                m.at(r, c)
            }),
{
    assert forall|r: int, c: int| m.has(r, c) implies #[trigger] scaled_row(m, p).at(r, c) == (if r
        == p {
        m.at(r, c).over_spec(m.at(p, p))
    } else {
        m.at(r, c)
    }) by {
        lemma_offset(m.rows as int, m.cols as int, r, c);
    }
}

/// Clearing a column keeps the shape and leaves the pivot row as it was.
pub proof fn lemma_cleared_column<T: Scalar>(m: MatrixView<T>, p: int)
    ensures
        cleared_column(m, p).wf(),
        cleared_column(m, p).rows == m.rows,
        cleared_column(m, p).cols == m.cols,
        forall|r: int, c: int|
            m.has(r, c) ==> #[trigger] cleared_column(m, p).at(r, c) == (if r != p {
                m.at(r, c).minus_spec(m.at(r, p).times_spec(m.at(p, c)))
            } else {
                m.at(r, c)
            }),
{
    assert forall|r: int, c: int| m.has(r, c) implies #[trigger] cleared_column(m, p).at(r, c) == (
    if r != p {
        m.at(r, c).minus_spec(m.at(r, p).times_spec(m.at(p, c)))
    } else {
        m.at(r, c)
    }) by {
        lemma_offset(m.rows as int, m.cols as int, r, c);
    }
}

/// The pivot row for column `col`: among the rows from `col` on, the first
/// whose cell in that column has the largest magnitude.
fn find_pivot<T: Scalar>(m: &Matrix<T>, col: usize) -> (p: usize)
    requires
        col < m@.rows,
        col < m@.cols,
    ensures
        p == pivot_row(m@, col as int, m@.rows as int),
        col <= p < m@.rows,
{
    let n: usize = m.rows();
    let mut p: usize = col;
    let mut j: usize = col + 1;
    while j < n
        invariant
            col < j <= n,
            n == m@.rows,
            col < m@.cols,
            col <= p < j,
            p == pivot_row(m@, col as int, j as int),
        decreases n - j,
    {
        if m.get(p, col).abs().less(m.get(j, col).abs()) {
            p = j;
        }
        j += 1;
    }
    p
}

/// Exchanges rows `a` and `b`.
fn swap_rows<T: Copy>(m: &mut Matrix<T>, a: usize, b: usize)
    requires
        a < old(m)@.rows,
        b < old(m)@.rows,
        old(m)@.wf(),
    ensures
        final(m)@ == swapped_rows(old(m)@, a as int, b as int),
        final(m)@.wf(),
{
    let ghost m0 = m@;
    let cols: usize = m.cols();
    if a != b {
        let mut j: usize = 0;
        while j < cols
            invariant
                j <= cols,
                a != b,
                m@.wf(),
                m0.wf(),
                m@.rows == m0.rows,
                m@.cols == m0.cols,
                cols == m0.cols,
                a < m0.rows,
                b < m0.rows,
                forall|r: int, c: int|
                    m0.has(r, c) ==> #[trigger] m@.at(r, c) == (if c < j {
                        swapped_rows(m0, a as int, b as int).at(r, c)
                    } else {
                        m0.at(r, c)
                    }),
            decreases cols - j,
        {
            let upper: T = m.get(a, j);
            let lower: T = m.get(b, j);
            proof {
                lemma_swapped_rows(m0, a as int, b as int);
                m@.lemma_put(a as int, j as int, lower);
                m@.put(a as int, j as int, lower).lemma_put(b as int, j as int, upper);
            }
            m.set(a, j, lower);
            m.set(b, j, upper);
            j += 1;
        }
    }
    proof {
        lemma_swapped_rows(m0, a as int, b as int);
        m@.lemma_ext(swapped_rows(m0, a as int, b as int));
    }
}

/// Divides row `p` by its cell on the diagonal.
fn scale_row<T: Scalar>(m: &mut Matrix<T>, p: usize)
    requires
        p < old(m)@.rows,
        p < old(m)@.cols,
        old(m)@.wf(),
    ensures
        final(m)@ == scaled_row(old(m)@, p as int),
        final(m)@.wf(),
{
    let ghost m0 = m@;
    let cols: usize = m.cols();
    let pivot: T = m.get(p, p);
    let mut j: usize = 0;
    while j < cols
        invariant
            j <= cols,
            m@.wf(),
            m0.wf(),
            m@.rows == m0.rows,
            m@.cols == m0.cols,
            cols == m0.cols,
            p < m0.rows,
            p < m0.cols,
            pivot == m0.at(p as int, p as int),
            forall|r: int, c: int|
                m0.has(r, c) ==> #[trigger] m@.at(r, c) == (if r == p && c < j {
                    m0.at(r, c).over_spec(pivot)
                } else {
                    m0.at(r, c)
                }),
        decreases cols - j,
    {
        let value: T = m.get(p, j).over(pivot);
        proof {
            m@.lemma_put(p as int, j as int, value);
        }
        m.set(p, j, value);
        j += 1;
    }
    proof {
        lemma_scaled_row(m0, p as int);
        m@.lemma_ext(scaled_row(m0, p as int));
    }
}

/// Clears column `p` in every row but `p`, by taking from each such row its
/// cell in column `p` times row `p`.
fn clear_column<T: Scalar>(m: &mut Matrix<T>, p: usize)
    requires
        p < old(m)@.rows,
        p < old(m)@.cols,
        old(m)@.wf(),
    ensures
        final(m)@ == cleared_column(old(m)@, p as int),
        final(m)@.wf(),
{
    let ghost m0 = m@;
    let rows: usize = m.rows();
    let cols: usize = m.cols();
    let mut k: usize = 0;
    while k < rows
        invariant
            k <= rows,
            m@.wf(),
            m0.wf(),
            m@.rows == m0.rows,
            m@.cols == m0.cols,
            rows == m0.rows,
            cols == m0.cols,
            p < m0.rows,
            p < m0.cols,
            forall|r: int, c: int|
                m0.has(r, c) ==> #[trigger] m@.at(r, c) == (if r < k && r != p {
                    m0.at(r, c).minus_spec(m0.at(r, p as int).times_spec(m0.at(p as int, c)))
                } else {
                    m0.at(r, c)
                }),
        decreases rows - k,
    {
        if k != p {
            let factor: T = m.get(k, p);
            let mut j: usize = 0;
            while j < cols
                invariant
                    j <= cols,
                    k < rows,
                    k != p,
                    m@.wf(),
                    m0.wf(),
                    m@.rows == m0.rows,
                    m@.cols == m0.cols,
                    rows == m0.rows,
                    cols == m0.cols,
                    p < m0.rows,
                    p < m0.cols,
                    factor == m0.at(k as int, p as int),
                    forall|r: int, c: int|
                        m0.has(r, c) ==> #[trigger] m@.at(r, c) == (if (r < k || (r == k && c < j))
                            && r != p {
                            m0.at(r, c).minus_spec(
                                m0.at(r, p as int).times_spec(m0.at(p as int, c)),
                            )
                        } else {
                            m0.at(r, c)
                        }),
                decreases cols - j,
            {
                let value: T = m.get(k, j).minus(factor.times(m.get(p, j)));
                proof {
                    m@.lemma_put(k as int, j as int, value);
                }
                m.set(k, j, value);
                j += 1;
            }
        }
        k += 1;
    }
    proof {
        lemma_cleared_column(m0, p as int);
        m@.lemma_ext(cleared_column(m0, p as int));
    }
}

/// Once a pivot is zero, no later step brings a result back.
pub proof fn lemma_gauss_jordan_stays_none<T: Scalar>(m: MatrixView<T>, from: nat, to: nat)
    requires
        from <= to,
        gauss_jordan(m, from) is None,
    ensures
        gauss_jordan(m, to) is None,
    decreases to - from,
{
    if from < to {
        lemma_gauss_jordan_stays_none(m, from, (to - 1) as nat);
    }
}

/// The inverse of a square matrix by Gauss-Jordan elimination with partial
/// pivoting, each cell rounded to six decimal places.
///
/// A matrix that is not square is refused as `NotSquare`. A square matrix
/// that meets a zero pivot has no inverse to hand out, which is how a
/// singular matrix shows: for it the result is `Ok(None)`.
pub fn inv<T: Scalar>(matrix: &Matrix<T>) -> (r: Result<Option<Matrix<T>>, Error>)
    ensures
        match r {
            Err(e) => matrix@.rows != matrix@.cols && e == Error::NotSquare,
            Ok(Some(m)) => matrix@.rows == matrix@.cols && inv_spec(matrix@) == Some(m@)
                && m@.wf(),
            Ok(None) => matrix@.rows == matrix@.cols && inv_spec(matrix@) is None,
        },
{
    if matrix.rows() != matrix.cols() {
        return Err(Error::NotSquare);
    }
    let n: usize = matrix.rows();
    assert(2 * n <= usize::MAX) by (nonlinear_arith)
        requires
            n * n <= usize::MAX,
    ;
    let width: usize = 2 * n;
    let ghost cell = |i: int, j: int|
        if j < n {
            matrix@.at(i, j)
        } else if j == i + n {
            one::<T>()
        } else {
            zero::<T>()
        };
    let f = |i: usize, j: usize| -> (e: T)
        requires
            i < n,
            j < width,
        ensures
            e == cell(i as int, j as int),
        {
            if j < n {
                matrix.get(i, j)
            } else if j == i + n {
                T::from_int(1)
            } else {
                T::from_int(0)
            }
        };
    let data = tabulate(n, width, f, Ghost(cell));
    let mut work: Matrix<T> = Matrix::from_grid(n, width, data);
    let mut i: usize = 0;
    while i < n
        invariant
            i <= n,
            n == matrix@.rows,
            matrix@.rows == matrix@.cols,
            width == 2 * n,
            work@.wf(),
            work@.rows == n,
            work@.cols == width,
            gauss_jordan(augmented(matrix@), i as nat) == Some(work@),
        decreases n - i,
    {
        let p: usize = find_pivot(&work, i);
        swap_rows(&mut work, i, p);
        if work.get(i, i).equals(T::from_int(0)) {
            proof {
                lemma_gauss_jordan_stays_none(augmented(matrix@), (i + 1) as nat, n as nat);
            }
            return Ok(None);
        }
        scale_row(&mut work, i);
        clear_column(&mut work, i);
        i += 1;
    }
    let ghost reduced = work@;
    let ghost out = |i: int, j: int| rounded(reduced.at(i, j + n));
    let g = |i: usize, j: usize| -> (e: T)
        requires
            i < n,
            j < n,
        ensures
            e == out(i as int, j as int),
        {
            let scale: T = T::from_int(1_000_000);
            work.get(i, j + n).times(scale).round().over(scale)
        };
    let cells = tabulate(n, n, g, Ghost(out));
    Ok(Some(Matrix::from_grid(n, n, cells)))
}

/// The identity without its first row and first column is the identity of
/// the next smaller size.
proof fn lemma_identity_minor<T: Scalar>(n: nat)
    requires
        n >= 1,
    ensures
        MatrixView::<T>::identity(n).minor(0, 0) == MatrixView::<T>::identity((n - 1) as nat),
{
    let id = MatrixView::<T>::identity(n);
    let smaller = MatrixView::<T>::identity((n - 1) as nat);
    lemma_identity::<T>(n);
    lemma_identity::<T>((n - 1) as nat);
    id.lemma_minor(0, 0);
    assert forall|i: int, j: int| id.minor(0, 0).has(i, j) implies id.minor(0, 0).at(i, j)
        == smaller.at(i, j) by {
        assert(id.minor(0, 0).at(i, j) == id.at(i + 1, j + 1));
    }
    id.minor(0, 0).lemma_ext(smaller);
}

/// The determinants that the expansion of an identity of up to `n` rows
/// meets beside those of smaller identities are finite: those of the minors
/// without the first row and a later column.
pub open spec fn identity_minors_finite<T: Scalar>(n: nat) -> bool {
    forall|m: nat, c: int|
        3 <= m <= n && 1 <= c < m ==> finite(
            #[trigger] determinant_spec(MatrixView::<T>::identity(m).minor(0, c)),
        )
}

/// The cofactor expansion of an identity of three or more rows equals one
/// from its first term on, as every later term is a zero.
proof fn lemma_identity_cofactors<T: Scalar>(n: nat, k: nat)
    requires
        n >= 3,
        1 <= k <= n,
        determinant_spec(MatrixView::<T>::identity((n - 1) as nat)).equals_spec(one::<T>()),
        neutral_units::<T>(),
        finite(one::<T>()),
        finite(T::from_int_spec(-1i32)),
        identity_minors_finite::<T>(n),
    ensures
        cofactor_prefix(MatrixView::<T>::identity(n), k).equals_spec(one::<T>()),
    decreases k,
{
    let id = MatrixView::<T>::identity(n);
    lemma_identity::<T>(n);
    lemma_zero_and_one::<T>();
    let c = k - 1;
    let minor_determinant = determinant_spec(id.minor(0, c));
    let signed_cell = cofactor_sign::<T>(c).times_spec(id.at(0, c));
    let term = signed_cell.times_spec(minor_determinant);
    if k == 1 {
        lemma_identity_minor::<T>(n);
        assert(cofactor_prefix(id, 0) == zero::<T>());
        assert(id.at(0, 0) == one::<T>());
        lemma_one_is_neutral(one::<T>(), one::<T>(), one::<T>());
        lemma_one_is_neutral(signed_cell, minor_determinant, one::<T>());
        lemma_zero_is_neutral(term, zero::<T>(), one::<T>());
    } else {
        lemma_identity_cofactors::<T>(n, (k - 1) as nat);
        assert(id.at(0, c) == zero::<T>());
        assert(signed_cell.equals_spec(zero::<T>()));
        assert(finite(minor_determinant));
        assert(term.equals_spec(zero::<T>()));
        lemma_zero_is_neutral(cofactor_prefix(id, (k - 1) as nat), term, one::<T>());
    }
}

/// The determinant of an identity with at least one row equals one, for a
/// scalar whose zeros and ones are neutral and for which zero, one, minus
/// one and the determinants met on the way are finite. An identity without
/// rows has the determinant zero.
pub proof fn lemma_determinant_identity<T: Scalar>(n: nat)
    requires
        n >= 1,
        neutral_units::<T>(),
        finite(zero::<T>()),
        finite(one::<T>()),
        finite(T::from_int_spec(-1i32)),
        identity_minors_finite::<T>(n),
    ensures
        determinant_spec(MatrixView::<T>::identity(n)).equals_spec(one::<T>()),
    decreases n,
{
    let id = MatrixView::<T>::identity(n);
    lemma_identity::<T>(n);
    lemma_zero_and_one::<T>();
    if n == 2 {
        lemma_one_is_neutral(one::<T>(), one::<T>(), one::<T>());
        let product = id.at(0, 1).times_spec(id.at(1, 0));
        assert(product.equals_spec(zero::<T>()));
        lemma_zero_is_neutral(id.at(0, 0).times_spec(id.at(1, 1)), product, one::<T>());
    } else if n >= 3 {
        lemma_determinant_identity::<T>((n - 1) as nat);
        lemma_identity_cofactors::<T>(n, n);
    }
}

} // verus!
