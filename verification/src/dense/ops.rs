use vstd::prelude::*;
use crate::dense::matrix::{Matrix, MatrixView};
use crate::scalar::Scalar;
use crate::scalar::{
    finite,
    lemma_one_is_neutral,
    lemma_zero_and_one,
    lemma_zero_is_neutral,
    neutral_units,
    one,
    unit_laws,
    zero,
};
use crate::utils::error::Error;
use crate::utils::grid::{lemma_offset, tabulate};

verus! {

/// The two matrices have the same number of rows and of columns.
pub open spec fn same_shape<T>(a: MatrixView<T>, b: MatrixView<T>) -> bool {
    a.rows == b.rows && a.cols == b.cols
}

/// The cell-by-cell sum.
pub open spec fn add_spec<T: Scalar>(a: MatrixView<T>, b: MatrixView<T>) -> MatrixView<T> {
    MatrixView::from_fn(a.rows, a.cols, |i: int, j: int| a.at(i, j).plus_spec(b.at(i, j)))
}

/// The cell-by-cell difference.
pub open spec fn sub_spec<T: Scalar>(a: MatrixView<T>, b: MatrixView<T>) -> MatrixView<T> {
    MatrixView::from_fn(a.rows, a.cols, |i: int, j: int| a.at(i, j).minus_spec(b.at(i, j)))
}

/// The cell-by-cell quotient.
pub open spec fn div_spec<T: Scalar>(a: MatrixView<T>, b: MatrixView<T>) -> MatrixView<T> {
    MatrixView::from_fn(a.rows, a.cols, |i: int, j: int| a.at(i, j).over_spec(b.at(i, j)))
}

/// The sum of the first `n` products of row `i` of `a` with column `j` of
/// `b`, added up from zero in ascending order.
pub open spec fn dot_prefix<T: Scalar>(
    a: MatrixView<T>,
    b: MatrixView<T>,
    i: int,
    j: int,
    n: nat,
) -> T
    decreases n,
{
    if n == 0 {
        zero::<T>()
    } else {
        dot_prefix(a, b, i, j, (n - 1) as nat).plus_spec(
            a.at(i, n - 1).times_spec(b.at(n - 1, j)),
        )
    }
}

/// The matrix product: cell `(i, j)` is row `i` of `a` times column `j` of `b`.
pub open spec fn mul_spec<T: Scalar>(a: MatrixView<T>, b: MatrixView<T>) -> MatrixView<T> {
    MatrixView::from_fn(a.rows, b.cols, |i: int, j: int| dot_prefix(a, b, i, j, a.cols))
}

/// The matrix with rows and columns exchanged.
pub open spec fn transpose_spec<T>(a: MatrixView<T>) -> MatrixView<T> {
    MatrixView::from_fn(a.cols, a.rows, |i: int, j: int| a.at(j, i))
}

/// Adds two matrices of the same shape cell by cell.
pub fn add<T: Scalar>(a: &Matrix<T>, b: &Matrix<T>) -> (r: Result<Matrix<T>, Error>)
    ensures
        match r {
            Ok(m) => same_shape(a@, b@) && m@ == add_spec(a@, b@) && m@.wf(),
            Err(e) => !same_shape(a@, b@) && e == Error::DimensionMismatch,
        },
{
    if a.rows() != b.rows() || a.cols() != b.cols() {
        return Err(Error::DimensionMismatch);
    }
    let ghost cell = |i: int, j: int| a@.at(i, j).plus_spec(b@.at(i, j));
    let f = |i: usize, j: usize| -> (e: T)
        requires
            i < a@.rows,
            j < a@.cols,
        ensures
            e == cell(i as int, j as int),
        { a.get(i, j).plus(b.get(i, j)) };
    let data = tabulate(a.rows(), a.cols(), f, Ghost(cell));
    Ok(Matrix::from_grid(a.rows(), a.cols(), data))
}

/// Subtracts `b` from `a`, two matrices of the same shape, cell by cell.
pub fn sub<T: Scalar>(a: &Matrix<T>, b: &Matrix<T>) -> (r: Result<Matrix<T>, Error>)
    ensures
        match r {
            Ok(m) => same_shape(a@, b@) && m@ == sub_spec(a@, b@) && m@.wf(),
            Err(e) => !same_shape(a@, b@) && e == Error::DimensionMismatch,
        },
{
    if a.rows() != b.rows() || a.cols() != b.cols() {
        return Err(Error::DimensionMismatch);
    }
    let ghost cell = |i: int, j: int| a@.at(i, j).minus_spec(b@.at(i, j));
    let f = |i: usize, j: usize| -> (e: T)
        requires
            i < a@.rows,
            j < a@.cols,
        ensures
            e == cell(i as int, j as int),
        { a.get(i, j).minus(b.get(i, j)) };
    let data = tabulate(a.rows(), a.cols(), f, Ghost(cell));
    Ok(Matrix::from_grid(a.rows(), a.cols(), data))
}

/// Divides `a` by `b`, two matrices of the same shape, cell by cell. A zero
/// divisor is handed to the scalar's own division like any other.
pub fn div<T: Scalar>(a: &Matrix<T>, b: &Matrix<T>) -> (r: Result<Matrix<T>, Error>)
    ensures
        match r {
            Ok(m) => same_shape(a@, b@) && m@ == div_spec(a@, b@) && m@.wf(),
            Err(e) => !same_shape(a@, b@) && e == Error::DimensionMismatch,
        },
{
    if a.rows() != b.rows() || a.cols() != b.cols() {
        return Err(Error::DimensionMismatch);
    }
    let ghost cell = |i: int, j: int| a@.at(i, j).over_spec(b@.at(i, j));
    let f = |i: usize, j: usize| -> (e: T)
        requires
            i < a@.rows,
            j < a@.cols,
        ensures
            e == cell(i as int, j as int),
        { a.get(i, j).over(b.get(i, j)) };
    let data = tabulate(a.rows(), a.cols(), f, Ghost(cell));
    Ok(Matrix::from_grid(a.rows(), a.cols(), data))
}

/// Row `i` of `a` times column `j` of `b`: the products are added to a sum
/// that starts at zero, in ascending order.
fn dot<T: Scalar>(a: &Matrix<T>, b: &Matrix<T>, i: usize, j: usize) -> (sum: T)
    requires
        a@.cols == b@.rows,
        i < a@.rows,
        j < b@.cols,
    ensures
        sum == dot_prefix(a@, b@, i as int, j as int, a@.cols),
{
    let n: usize = a.cols();
    let mut sum: T = T::from_int(0);
    let mut k: usize = 0;
    while k < n
        invariant
            k <= n,
            n == a@.cols,
            a@.cols == b@.rows,
            i < a@.rows,
            j < b@.cols,
            sum == dot_prefix(a@, b@, i as int, j as int, k as nat),
        decreases n - k,
    {
        sum = sum.plus(a.get(i, k).times(b.get(k, j)));
        k += 1;
    }
    sum
}

/// The matrix product of `a` and `b`, for which `a` must have as many
/// columns as `b` has rows.
pub fn mul<T: Scalar>(a: &Matrix<T>, b: &Matrix<T>) -> (r: Result<Matrix<T>, Error>)
    ensures
        match r {
            Ok(m) => a@.cols == b@.rows && m@ == mul_spec(a@, b@) && m@.wf(),
            Err(e) => a@.cols != b@.rows && e == Error::DimensionMismatch,
        },
{
    if a.cols() != b.rows() {
        return Err(Error::DimensionMismatch);
    }
    let ghost cell = |i: int, j: int| dot_prefix(a@, b@, i, j, a@.cols);
    let f = |i: usize, j: usize| -> (e: T)
        requires
            i < a@.rows,
            j < b@.cols,
        ensures
            e == cell(i as int, j as int),
        { dot(a, b, i, j) };
    let data = tabulate(a.rows(), b.cols(), f, Ghost(cell));
    Ok(Matrix::from_grid(a.rows(), b.cols(), data))
}

/// The matrix with rows and columns exchanged.
pub fn transpose<T: Copy>(matrix: &Matrix<T>) -> (m: Matrix<T>)
    ensures
        m@ == transpose_spec(matrix@),
        m@.wf(),
{
    let ghost cell = |i: int, j: int| matrix@.at(j, i);
    let f = |i: usize, j: usize| -> (e: T)
        requires
            i < matrix@.cols,
            j < matrix@.rows,
        ensures
            e == cell(i as int, j as int),
        { matrix.get(j, i) };
    let data = tabulate(matrix.cols(), matrix.rows(), f, Ghost(cell));
    Matrix::from_grid(matrix.cols(), matrix.rows(), data)
}

/// The sum has the shape of `a` and holds in each cell the sum of the cells.
pub proof fn lemma_add_spec<T: Scalar>(a: MatrixView<T>, b: MatrixView<T>)
    ensures
        add_spec(a, b).wf(),
        same_shape(add_spec(a, b), a),
        forall|i: int, j: int|
            a.has(i, j) ==> #[trigger] add_spec(a, b).at(i, j) == a.at(i, j).plus_spec(b.at(i, j)),
{
    assert forall|i: int, j: int| a.has(i, j) implies #[trigger] add_spec(a, b).at(i, j) == a.at(
        i,
        j,
    ).plus_spec(b.at(i, j)) by {
        lemma_offset(a.rows as int, a.cols as int, i, j);
    }
}

/// The difference has the shape of `a` and holds in each cell the difference
/// of the cells.
pub proof fn lemma_sub_spec<T: Scalar>(a: MatrixView<T>, b: MatrixView<T>)
    ensures
        sub_spec(a, b).wf(),
        same_shape(sub_spec(a, b), a),
        forall|i: int, j: int|
            a.has(i, j) ==> #[trigger] sub_spec(a, b).at(i, j) == a.at(i, j).minus_spec(b.at(i, j)),
{
    assert forall|i: int, j: int| a.has(i, j) implies #[trigger] sub_spec(a, b).at(i, j) == a.at(
        i,
        j,
    ).minus_spec(b.at(i, j)) by {
        lemma_offset(a.rows as int, a.cols as int, i, j);
    }
}

/// The quotient has the shape of `a` and holds in each cell the quotient of
/// the cells.
pub proof fn lemma_div_spec<T: Scalar>(a: MatrixView<T>, b: MatrixView<T>)
    ensures
        div_spec(a, b).wf(),
        same_shape(div_spec(a, b), a),
        forall|i: int, j: int|
            a.has(i, j) ==> #[trigger] div_spec(a, b).at(i, j) == a.at(i, j).over_spec(b.at(i, j)),
{
    assert forall|i: int, j: int| a.has(i, j) implies #[trigger] div_spec(a, b).at(i, j) == a.at(
        i,
        j,
    ).over_spec(b.at(i, j)) by {
        lemma_offset(a.rows as int, a.cols as int, i, j);
    }
}

/// The product has the rows of `a` and the columns of `b`, and holds in each
/// cell the row of `a` times the column of `b`.
pub proof fn lemma_mul_spec<T: Scalar>(a: MatrixView<T>, b: MatrixView<T>)
    ensures
        mul_spec(a, b).wf(),
        mul_spec(a, b).rows == a.rows,
        mul_spec(a, b).cols == b.cols,
        forall|i: int, j: int|
            0 <= i < a.rows && 0 <= j < b.cols ==> #[trigger] mul_spec(a, b).at(i, j)
                == dot_prefix(a, b, i, j, a.cols),
{
    assert forall|i: int, j: int| 0 <= i < a.rows && 0 <= j < b.cols implies #[trigger] mul_spec(
        a,
        b,
    ).at(i, j) == dot_prefix(a, b, i, j, a.cols) by {
        lemma_offset(a.rows as int, b.cols as int, i, j);
    }
}

/// The transpose has the shape turned round and holds in cell `(i, j)` the
/// cell `(j, i)`.
pub proof fn lemma_transpose_spec<T>(a: MatrixView<T>)
    ensures
        transpose_spec(a).wf(),
        transpose_spec(a).rows == a.cols,
        transpose_spec(a).cols == a.rows,
        forall|i: int, j: int|
            a.has(j, i) ==> #[trigger] transpose_spec(a).at(i, j) == a.at(j, i),
{
    assert forall|i: int, j: int| a.has(j, i) implies #[trigger] transpose_spec(a).at(i, j) == a.at(
        j,
        i,
    ) by {
        lemma_offset(a.cols as int, a.rows as int, i, j);
    }
}

/// The identity holds one on the diagonal and zero elsewhere.
pub proof fn lemma_identity<T: Scalar>(n: nat)
    ensures
        MatrixView::<T>::identity(n).wf(),
        MatrixView::<T>::identity(n).rows == n,
        MatrixView::<T>::identity(n).cols == n,
        forall|i: int, j: int|
            0 <= i < n && 0 <= j < n ==> #[trigger] MatrixView::<T>::identity(n).at(i, j) == (if i
                == j {
                one::<T>()
            } else {
                zero::<T>()
            }),
{
    assert forall|i: int, j: int| 0 <= i < n && 0 <= j < n implies #[trigger] MatrixView::<
        T,
    >::identity(n).at(i, j) == (if i == j {
        one::<T>()
    } else {
        zero::<T>()
    }) by {
        lemma_offset(n as int, n as int, i, j);
    }
}

/// Subtracting `b` from the sum of `a` and `b` gives `a` back, wherever the
/// scalar's subtraction undoes its addition on the cells concerned. With a
/// scalar that rounds, that is not so of every pair of cells.
pub proof fn lemma_sub_undoes_add<T: Scalar>(a: MatrixView<T>, b: MatrixView<T>)
    requires
        a.wf(),
        same_shape(a, b),
        forall|i: int, j: int|
            a.has(i, j) ==> a.at(i, j).plus_spec(b.at(i, j)).minus_spec(b.at(i, j)) == a.at(i, j),
    ensures
        same_shape(add_spec(a, b), b),
        sub_spec(add_spec(a, b), b) == a,
{
    let sum = add_spec(a, b);
    lemma_add_spec(a, b);
    lemma_sub_spec(sum, b);
    sub_spec(sum, b).lemma_ext(a);
}

/// Transposing twice gives the matrix back.
pub proof fn lemma_transpose_twice<T>(a: MatrixView<T>)
    requires
        a.wf(),
    ensures
        transpose_spec(transpose_spec(a)) == a,
{
    let t = transpose_spec(a);
    lemma_transpose_spec(a);
    lemma_transpose_spec(t);
    assert forall|i: int, j: int| a.has(i, j) implies transpose_spec(t).at(i, j) == a.at(i, j) by {
        assert(t.has(j, i));
        assert(t.at(j, i) == a.at(i, j));
    }
    transpose_spec(t).lemma_ext(a);
}

/// Row `i` of the identity times a column of `a`, taken over the first `n`
/// products: zero until the diagonal is reached, the cell of `a` after it.
proof fn lemma_identity_row<T: Scalar>(a: MatrixView<T>, i: int, j: int, n: nat)
    requires
        a.wf(),
        a.has(i, j),
        n <= a.rows,
        unit_laws(zero::<T>()),
        forall|r: int, c: int| a.has(r, c) ==> unit_laws(#[trigger] a.at(r, c)),
    ensures
        dot_prefix(MatrixView::<T>::identity(a.rows), a, i, j, n) == (if n <= i {
            zero::<T>()
        } else {
            a.at(i, j)
        }),
    decreases n,
{
    if n > 0 {
        lemma_identity_row(a, i, j, (n - 1) as nat);
        lemma_identity::<T>(a.rows);
        assert(a.has(n - 1, j));
        assert(unit_laws(a.at(n - 1, j)));
        assert(unit_laws(a.at(i, j)));
    }
}

/// A row of `a` times column `j` of the identity, taken over the first `n`
/// products: zero until the diagonal is reached, the cell of `a` after it.
proof fn lemma_identity_column<T: Scalar>(a: MatrixView<T>, i: int, j: int, n: nat)
    requires
        a.wf(),
        a.has(i, j),
        n <= a.cols,
        unit_laws(zero::<T>()),
        forall|r: int, c: int| a.has(r, c) ==> unit_laws(#[trigger] a.at(r, c)),
    ensures
        dot_prefix(a, MatrixView::<T>::identity(a.cols), i, j, n) == (if n <= j {
            zero::<T>()
        } else {
            a.at(i, j)
        }),
    decreases n,
{
    if n > 0 {
        lemma_identity_column(a, i, j, (n - 1) as nat);
        lemma_identity::<T>(a.cols);
        assert(a.has(i, n - 1));
        assert(unit_laws(a.at(i, n - 1)));
        assert(unit_laws(a.at(i, j)));
    }
}

/// The identity times `a` is `a` itself, cell for cell the same value, where
/// zero and one behave towards the cells of `a` as they do in a ring.
pub proof fn lemma_mul_identity_left_exact<T: Scalar>(a: MatrixView<T>)
    requires
        a.wf(),
        unit_laws(zero::<T>()),
        forall|r: int, c: int| a.has(r, c) ==> unit_laws(#[trigger] a.at(r, c)),
    ensures
        mul_spec(MatrixView::<T>::identity(a.rows), a) == a,
{
    let id = MatrixView::<T>::identity(a.rows);
    lemma_identity::<T>(a.rows);
    lemma_mul_spec(id, a);
    assert forall|i: int, j: int| a.has(i, j) implies mul_spec(id, a).at(i, j) == a.at(i, j) by {
        lemma_identity_row(a, i, j, a.rows);
    }
    mul_spec(id, a).lemma_ext(a);
}

/// `a` times the identity is `a` itself, cell for cell the same value, where
/// zero and one behave towards the cells of `a` as they do in a ring.
pub proof fn lemma_mul_identity_right_exact<T: Scalar>(a: MatrixView<T>)
    requires
        a.wf(),
        unit_laws(zero::<T>()),
        forall|r: int, c: int| a.has(r, c) ==> unit_laws(#[trigger] a.at(r, c)),
    ensures
        mul_spec(a, MatrixView::<T>::identity(a.cols)) == a,
{
    let id = MatrixView::<T>::identity(a.cols);
    lemma_identity::<T>(a.cols);
    lemma_mul_spec(a, id);
    assert forall|i: int, j: int| a.has(i, j) implies mul_spec(a, id).at(i, j) == a.at(i, j) by {
        lemma_identity_column(a, i, j, a.cols);
    }
    mul_spec(a, id).lemma_ext(a);
}

/// The two matrices are well formed, have the same shape, and are
/// numerically equal cell by cell.
pub open spec fn same_cells<T: Scalar>(a: MatrixView<T>, b: MatrixView<T>) -> bool {
    &&& a.wf()
    &&& b.wf()
    &&& same_shape(a, b)
    &&& forall|i: int, j: int| a.has(i, j) ==> #[trigger] a.at(i, j).equals_spec(b.at(i, j))
}

/// Every cell of the matrix is finite.
pub open spec fn all_finite<T: Scalar>(a: MatrixView<T>) -> bool {
    forall|r: int, c: int| a.has(r, c) ==> finite(#[trigger] a.at(r, c))
}

/// Row `i` of the identity times a column of a matrix of finite cells, taken
/// over the first `n` products: a zero until the diagonal is reached, equal
/// to the cell of `a` after it.
proof fn lemma_identity_row_numeric<T: Scalar>(a: MatrixView<T>, i: int, j: int, n: nat)
    requires
        a.wf(),
        a.has(i, j),
        n <= a.rows,
        neutral_units::<T>(),
        all_finite(a),
    ensures
        dot_prefix(MatrixView::<T>::identity(a.rows), a, i, j, n).equals_spec(
            if n <= i {
                zero::<T>()
            } else {
                a.at(i, j)
            },
        ),
    decreases n,
{
    lemma_zero_and_one::<T>();
    if n > 0 {
        let k = n - 1;
        let id = MatrixView::<T>::identity(a.rows);
        lemma_identity_row_numeric(a, i, j, k as nat);
        lemma_identity::<T>(a.rows);
        assert(a.has(k, j));
        assert(finite(a.at(k, j)));
        assert(finite(a.at(i, j)));
        let before = dot_prefix(id, a, i, j, k as nat);
        let term = id.at(i, k).times_spec(a.at(k, j));
        if k == i {
            lemma_one_is_neutral(one::<T>(), a.at(i, j), a.at(i, j));
            lemma_zero_is_neutral(term, before, a.at(i, j));
        } else {
            assert(term.equals_spec(zero::<T>()));
            if k < i {
                lemma_zero_is_neutral(before, term, zero::<T>());
            } else {
                lemma_zero_is_neutral(before, term, a.at(i, j));
            }
        }
    }
}

/// A row of a matrix of finite cells times column `j` of the identity, taken
/// over the first `n` products: a zero until the diagonal is reached, equal
/// to the cell of `a` after it.
proof fn lemma_identity_column_numeric<T: Scalar>(a: MatrixView<T>, i: int, j: int, n: nat)
    requires
        a.wf(),
        a.has(i, j),
        n <= a.cols,
        neutral_units::<T>(),
        all_finite(a),
    ensures
        dot_prefix(a, MatrixView::<T>::identity(a.cols), i, j, n).equals_spec(
            if n <= j {
                zero::<T>()
            } else {
                a.at(i, j)
            },
        ),
    decreases n,
{
    lemma_zero_and_one::<T>();
    if n > 0 {
        let k = n - 1;
        let id = MatrixView::<T>::identity(a.cols);
        lemma_identity_column_numeric(a, i, j, k as nat);
        lemma_identity::<T>(a.cols);
        assert(a.has(i, k));
        assert(finite(a.at(i, k)));
        assert(finite(a.at(i, j)));
        let before = dot_prefix(a, id, i, j, k as nat);
        let term = a.at(i, k).times_spec(id.at(k, j));
        if k == j {
            lemma_one_is_neutral(one::<T>(), a.at(i, j), a.at(i, j));
            lemma_zero_is_neutral(term, before, a.at(i, j));
        } else {
            assert(term.equals_spec(zero::<T>()));
            if k < j {
                lemma_zero_is_neutral(before, term, zero::<T>());
            } else {
                lemma_zero_is_neutral(before, term, a.at(i, j));
            }
        }
    }
}

/// The identity times a matrix of finite cells has the shape of the matrix
/// and equals it numerically cell by cell, for a scalar whose zeros and ones
/// are neutral.
pub proof fn lemma_mul_identity_left<T: Scalar>(a: MatrixView<T>)
    requires
        a.wf(),
        neutral_units::<T>(),
        all_finite(a),
    ensures
        same_cells(mul_spec(MatrixView::<T>::identity(a.rows), a), a),
{
    let id = MatrixView::<T>::identity(a.rows);
    lemma_identity::<T>(a.rows);
    lemma_mul_spec(id, a);
    assert forall|i: int, j: int| mul_spec(id, a).has(i, j) implies #[trigger] mul_spec(id, a).at(
        i,
        j,
    ).equals_spec(a.at(i, j)) by {
        lemma_identity_row_numeric(a, i, j, a.rows);
    }
}

/// A matrix of finite cells times the identity has the shape of the matrix
/// and equals it numerically cell by cell, for a scalar whose zeros and ones
/// are neutral.
pub proof fn lemma_mul_identity_right<T: Scalar>(a: MatrixView<T>)
    requires
        a.wf(),
        neutral_units::<T>(),
        all_finite(a),
    ensures
        same_cells(mul_spec(a, MatrixView::<T>::identity(a.cols)), a),
{
    let id = MatrixView::<T>::identity(a.cols);
    lemma_identity::<T>(a.cols);
    lemma_mul_spec(a, id);
    assert forall|i: int, j: int| mul_spec(a, id).has(i, j) implies #[trigger] mul_spec(a, id).at(
        i,
        j,
    ).equals_spec(a.at(i, j)) by {
        lemma_identity_column_numeric(a, i, j, a.cols);
    }
}

} // verus!
