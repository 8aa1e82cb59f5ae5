use vstd::prelude::*;
use crate::dense::matrix::{Matrix, MatrixView};
use crate::matrix::lu_product::{lemma_lower_unit_triangular, unit_lower_triangular};
use crate::scalar::Scalar;
use crate::scalar::zero;
use crate::utils::error::Error;

verus! {

/// The factor by which row `p` is taken off row `r` when column `p` is
/// cleared below the diagonal.
pub open spec fn lu_factor<T: Scalar>(u: MatrixView<T>, p: int, r: int) -> T {
    u.at(r, p).over_spec(u.at(p, p))
}

/// What elimination on pivot `p` leaves in cell `(r, c)` of the upper factor:
/// below the pivot row, from the pivot column on, the cell less the row's
/// factor times the pivot row's cell; elsewhere the cell as it was.
pub open spec fn lu_upper_cell<T: Scalar>(u: MatrixView<T>, p: int, r: int, c: int) -> T {
    if r > p && c >= p {
        u.at(r, c).minus_spec(lu_factor(u, p, r).times_spec(u.at(p, c)))
    } else {
        u.at(r, c)
    }
}

/// What elimination on pivot `p` leaves in cell `(r, c)` of the lower factor:
/// in column `p` below the diagonal the row's factor, elsewhere the cell as
/// it was.
pub open spec fn lu_lower_cell<T: Scalar>(
    l: MatrixView<T>,
    u: MatrixView<T>,
    p: int,
    r: int,
    c: int,
) -> T {
    if r > p && c == p {
        lu_factor(u, p, r)
    } else {
        l.at(r, c)
    }
}

/// The upper factor after elimination on pivot `p`.
pub open spec fn lu_upper_step<T: Scalar>(u: MatrixView<T>, p: int) -> MatrixView<T> {
    MatrixView::from_fn(u.rows, u.cols, |r: int, c: int| lu_upper_cell(u, p, r, c))
}

/// The lower factor after elimination on pivot `p`.
pub open spec fn lu_lower_step<T: Scalar>(l: MatrixView<T>, u: MatrixView<T>, p: int) -> MatrixView<
    T,
> {
    MatrixView::from_fn(l.rows, l.cols, |r: int, c: int| lu_lower_cell(l, u, p, r, c))
}

/// The lower and upper factors after elimination on the first `n` pivots
/// without exchanging rows, starting from the identity and the matrix itself;
/// `None` once a pivot is zero.
pub open spec fn lu_steps<T: Scalar>(a: MatrixView<T>, n: nat) -> Option<
    (MatrixView<T>, MatrixView<T>),
>
    decreases n,
{
    if n == 0 {
        Some((MatrixView::<T>::identity(a.rows), a))
    } else {
        match lu_steps(a, (n - 1) as nat) {
            None => None,
            Some((l, u)) => if u.at(n - 1, n - 1).equals_spec(zero::<T>()) {
                None
            } else {
                Some((lu_lower_step(l, u, n - 1), lu_upper_step(u, n - 1)))
            },
        }
    }
}

/// Factors a square matrix into a lower triangular matrix with ones on the
/// diagonal and an upper triangular one, by elimination without exchanging
/// rows. A matrix that meets a zero pivot on the way is refused as singular,
/// though an exchange of rows might have helped it.
pub fn lu<T: Scalar>(matrix: &Matrix<T>) -> (r: Result<(Matrix<T>, Matrix<T>), Error>)
    ensures
        match r {
            Ok((lower, upper)) => {
                &&& matrix@.rows == matrix@.cols
                &&& lu_steps(matrix@, matrix@.rows) == Some((lower@, upper@))
                &&& lower@.wf() && lower@.rows == matrix@.rows && lower@.cols == matrix@.rows
                &&& upper@.wf() && upper@.rows == matrix@.rows && upper@.cols == matrix@.rows
                &&& unit_lower_triangular(lower@)
            },
            Err(e) => if matrix@.rows != matrix@.cols {
                e == Error::NotSquare
            } else {
                e == Error::SingularMatrix && lu_steps(matrix@, matrix@.rows) is None
            },
        },
{
    let n: usize = matrix.rows();
    if n != matrix.cols() {
        return Err(Error::NotSquare);
    }
    let mut lower: Matrix<T> = Matrix::identity(n);
    let mut upper: Matrix<T> = matrix.clone();
    proof {
        MatrixView::lemma_from_fn(
            n as nat,
            n as nat,
            |i: int, j: int|
                if i == j {
                    crate::scalar::one::<T>()
                } else {
                    zero::<T>()
                },
        );
    }
    let mut i: usize = 0;
    while i < n
        invariant
            i <= n,
            n == matrix@.rows,
            n == matrix@.cols,
            lower@.wf(),
            upper@.wf(),
            lower@.rows == n && lower@.cols == n,
            upper@.rows == n && upper@.cols == n,
            lu_steps(matrix@, i as nat) == Some((lower@, upper@)),
        decreases n - i,
    {
        if upper.get(i, i).equals(T::from_int(0)) {
            proof {
                lemma_lu_steps_stay_none(matrix@, (i + 1) as nat, n as nat);
            }
            return Err(Error::SingularMatrix);
        }
        let ghost l0 = lower@;
        let ghost u0 = upper@;
        let mut j: usize = i + 1;
        while j < n
            invariant
                i < j <= n,
                lower@.wf(),
                upper@.wf(),
                l0.wf(),
                u0.wf(),
                lower@.rows == n && lower@.cols == n,
                upper@.rows == n && upper@.cols == n,
                l0.rows == n && l0.cols == n,
                u0.rows == n && u0.cols == n,
                forall|r: int, c: int|
                    0 <= r < n && 0 <= c < n ==> #[trigger] lower@.at(r, c) == (if r < j {
                        lu_lower_cell(l0, u0, i as int, r, c)
                    } else {
                        l0.at(r, c)
                    }),
                forall|r: int, c: int|
                    0 <= r < n && 0 <= c < n ==> #[trigger] upper@.at(r, c) == (if r < j {
                        lu_upper_cell(u0, i as int, r, c)
                    } else {
                        u0.at(r, c)
                    }),
            decreases n - j,
        {
            let factor: T = upper.get(j, i).over(upper.get(i, i));
            proof {
                lower@.lemma_put(j as int, i as int, factor);
            }
            lower.set(j, i, factor);
            let mut k: usize = i;
            while k < n
                invariant
                    i <= k <= n,
                    i < j < n,
                    upper@.wf(),
                    u0.wf(),
                    upper@.rows == n && upper@.cols == n,
                    u0.rows == n && u0.cols == n,
                    factor == lu_factor(u0, i as int, j as int),
                    forall|r: int, c: int|
                        0 <= r < n && 0 <= c < n ==> #[trigger] upper@.at(r, c) == (if r < j || (r
                            == j && c < k) {
                            lu_upper_cell(u0, i as int, r, c)
                        } else {
                            u0.at(r, c)
                        }),
                decreases n - k,
            {
                let value: T = upper.get(j, k).minus(factor.times(upper.get(i, k)));
                proof {
                    upper@.lemma_put(j as int, k as int, value);
                }
                upper.set(j, k, value);
                k += 1;
            }
            j += 1;
        }
        proof {
            MatrixView::lemma_from_fn(
                n as nat,
                n as nat,
                |r: int, c: int| lu_upper_cell(u0, i as int, r, c),
            );
            MatrixView::lemma_from_fn(
                n as nat,
                n as nat,
                |r: int, c: int| lu_lower_cell(l0, u0, i as int, r, c),
            );
            upper@.lemma_ext(lu_upper_step(u0, i as int));
            lower@.lemma_ext(lu_lower_step(l0, u0, i as int));
        }
        i += 1;
    }
    proof {
        lemma_lower_unit_triangular(matrix@, n as nat);
    }
    Ok((lower, upper))
}

/// Once a pivot is zero, no later step brings the factors back.
proof fn lemma_lu_steps_stay_none<T: Scalar>(a: MatrixView<T>, from: nat, to: nat)
    requires
        from <= to,
        lu_steps(a, from) is None,
    ensures
        lu_steps(a, to) is None,
    decreases to - from,
{
    if from < to {
        lemma_lu_steps_stay_none(a, from, (to - 1) as nat);
    }
}

/// The singular value decomposition, which is not provided.
pub fn svd<T: Scalar>(matrix: &Matrix<T>) -> (r: Result<(Matrix<T>, Vec<T>, Matrix<T>), Error>)
    ensures
        r is Err,
        r->Err_0 == Error::Unsupported,
{
    Err(Error::Unsupported)
}

/// The QR decomposition, which is not provided.
pub fn qr<T: Scalar>(matrix: &Matrix<T>) -> (r: Result<(Matrix<T>, Matrix<T>), Error>)
    ensures
        r is Err,
        r->Err_0 == Error::Unsupported,
{
    Err(Error::Unsupported)
}

/// The eigendecomposition, which is not provided.
pub fn eigen<T: Scalar>(matrix: &Matrix<T>) -> (r: Result<(Matrix<T>, Matrix<T>), Error>)
    ensures
        r is Err,
        r->Err_0 == Error::Unsupported,
{
    Err(Error::Unsupported)
}

} // verus!
