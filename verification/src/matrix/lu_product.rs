use vstd::prelude::*;
use crate::dense::matrix::MatrixView;
use crate::dense::ops::{
    dot_prefix,
    lemma_identity,
    lemma_mul_identity_left_exact,
    lemma_mul_spec,
    mul_spec,
};
use crate::matrix::decompositions::{
    lu_factor,
    lu_lower_cell,
    lu_lower_step,
    lu_steps,
    lu_upper_cell,
    lu_upper_step,
};
use crate::scalar::Scalar;
use crate::scalar::{
    exact_arithmetic,
    lemma_division,
    lemma_minus_self_and_zero,
    lemma_units,
    one,
    unit_laws,
    zero,
};
use crate::utils::grid::lemma_offset;

verus! {

/// The lower factor after elimination on the first `k` pivots.
pub open spec fn lower_after<T: Scalar>(a: MatrixView<T>, k: nat) -> MatrixView<T> {
    let pair = lu_steps(a, k).unwrap();
    pair.0
}

/// The upper factor after elimination on the first `k` pivots.
pub open spec fn upper_after<T: Scalar>(a: MatrixView<T>, k: nat) -> MatrixView<T> {
    let pair = lu_steps(a, k).unwrap();
    pair.1
}

/// From column `p` on, the lower factor still holds the columns of the
/// identity.
pub open spec fn lower_pending<T: Scalar>(l: MatrixView<T>, p: int) -> bool {
    forall|r: int, c: int|
        l.has(r, c) && c >= p ==> #[trigger] l.at(r, c) == (if r == c {
            one::<T>()
        } else {
            zero::<T>()
        })
}

/// Before column `p`, the upper factor holds zero below the diagonal.
pub open spec fn upper_cleared<T: Scalar>(u: MatrixView<T>, p: int) -> bool {
    forall|r: int, c: int| u.has(r, c) && c < p && r > c ==> #[trigger] u.at(r, c) == zero::<T>()
}

/// The matrix holds one on its diagonal and zero above it.
pub open spec fn unit_lower_triangular<T: Scalar>(l: MatrixView<T>) -> bool {
    forall|r: int, c: int|
        l.has(r, c) && r <= c ==> #[trigger] l.at(r, c) == (if r == c {
            one::<T>()
        } else {
            zero::<T>()
        })
}

/// Both factors are square of size `n`.
pub open spec fn square_pair<T: Scalar>(l: MatrixView<T>, u: MatrixView<T>, n: nat) -> bool {
    &&& l.wf()
    &&& u.wf()
    &&& l.rows == n
    &&& l.cols == n
    &&& u.rows == n
    &&& u.cols == n
}

/// What was added to a sum and is then taken from the next term leaves the
/// sum of the two as it would have been.
proof fn lemma_cancel<T: Scalar>(s: T, t: T, x: T)
    requires
        exact_arithmetic::<T>(),
    ensures
        s.plus_spec(t).plus_spec(x.minus_spec(t)) == s.plus_spec(x),
{
    reveal(exact_arithmetic);
    assert(s.plus_spec(t).plus_spec(x.minus_spec(t)) == s.plus_spec(t.plus_spec(x.minus_spec(t))));
    assert(t.plus_spec(x.minus_spec(t)) == x.minus_spec(t).plus_spec(t));
    assert(x.minus_spec(t).plus_spec(t) == x);
}

/// A step of elimination keeps the shapes and changes the cells as the cell
/// functions say.
pub proof fn lemma_lu_step_cells<T: Scalar>(l: MatrixView<T>, u: MatrixView<T>, p: int)
    ensures
        lu_lower_step(l, u, p).wf(),
        lu_upper_step(u, p).wf(),
        lu_lower_step(l, u, p).rows == l.rows,
        lu_lower_step(l, u, p).cols == l.cols,
        lu_upper_step(u, p).rows == u.rows,
        lu_upper_step(u, p).cols == u.cols,
        forall|r: int, c: int|
            l.has(r, c) ==> #[trigger] lu_lower_step(l, u, p).at(r, c) == lu_lower_cell(
                l,
                u,
                p,
                r,
                c,
            ),
        forall|r: int, c: int|
            u.has(r, c) ==> #[trigger] lu_upper_step(u, p).at(r, c) == lu_upper_cell(u, p, r, c),
{
    assert forall|r: int, c: int| l.has(r, c) implies #[trigger] lu_lower_step(l, u, p).at(r, c)
        == lu_lower_cell(l, u, p, r, c) by {
        lemma_offset(l.rows as int, l.cols as int, r, c);
    }
    assert forall|r: int, c: int| u.has(r, c) implies #[trigger] lu_upper_step(u, p).at(r, c)
        == lu_upper_cell(u, p, r, c) by {
        lemma_offset(u.rows as int, u.cols as int, r, c);
    }
}

/// In a row down to the pivot row, a step of elimination changes no product
/// of the row with a column: the cells of the upper factor that change meet
/// zeros of the lower factor.
proof fn lemma_row_above<T: Scalar>(
    l: MatrixView<T>,
    u: MatrixView<T>,
    n: nat,
    p: int,
    r: int,
    c: int,
    m: nat,
)
    requires
        exact_arithmetic::<T>(),
        square_pair(l, u, n),
        lower_pending(l, p),
        0 <= p < n,
        0 <= r <= p,
        0 <= c < n,
        m <= n,
    ensures
        dot_prefix(lu_lower_step(l, u, p), lu_upper_step(u, p), r, c, m) == dot_prefix(
            l,
            u,
            r,
            c,
            m,
        ),
    decreases m,
{
    if m > 0 {
        let k = m - 1;
        lemma_row_above(l, u, n, p, r, c, k as nat);
        lemma_lu_step_cells(l, u, p);
        assert(l.has(r, k) && u.has(k, c));
        let l2 = lu_lower_step(l, u, p);
        let u2 = lu_upper_step(u, p);
        assert(l2.at(r, k) == l.at(r, k));
        if k > p {
            assert(l.at(r, k) == zero::<T>());
            lemma_units(u.at(k, c));
            lemma_units(u2.at(k, c));
        } else {
            assert(u2.at(k, c) == u.at(k, c));
        }
    }
}

/// In a row below the pivot row, a step of elimination moves part of a
/// product from one term to another and leaves the whole as it was: what the
/// new factor adds at the pivot column is taken off at the diagonal.
proof fn lemma_row_below<T: Scalar>(
    l: MatrixView<T>,
    u: MatrixView<T>,
    n: nat,
    p: int,
    r: int,
    c: int,
    m: nat,
)
    requires
        exact_arithmetic::<T>(),
        square_pair(l, u, n),
        lower_pending(l, p),
        upper_cleared(u, p),
        0 <= p < r < n,
        0 <= c < n,
        m <= n,
    ensures
        m <= p || m > r ==> dot_prefix(lu_lower_step(l, u, p), lu_upper_step(u, p), r, c, m)
            == dot_prefix(l, u, r, c, m),
        p < m <= r ==> dot_prefix(l, u, r, c, m) == dot_prefix(l, u, r, c, p as nat) && dot_prefix(
            lu_lower_step(l, u, p),
            lu_upper_step(u, p),
            r,
            c,
            m,
        ) == dot_prefix(l, u, r, c, p as nat).plus_spec(lu_factor(u, p, r).times_spec(u.at(p, c))),
    decreases m,
{
    if m > 0 {
        let k = m - 1;
        lemma_row_below(l, u, n, p, r, c, k as nat);
        lemma_lu_step_cells(l, u, p);
        assert(l.has(r, k) && u.has(k, c) && u.has(p, c) && u.has(r, c));
        let l2 = lu_lower_step(l, u, p);
        let u2 = lu_upper_step(u, p);
        let base = dot_prefix(l, u, r, c, p as nat);
        let g = lu_factor(u, p, r).times_spec(u.at(p, c));
        let x = u.at(r, c);
        lemma_units(u.at(k, c));
        lemma_units(u2.at(k, c));
        lemma_units(base);
        lemma_units(x);
        lemma_units(lu_factor(u, p, r));
        lemma_units(dot_prefix(l, u, r, c, k as nat));
        lemma_units(dot_prefix(l2, u2, r, c, k as nat));
        if k < p {
            assert(l2.at(r, k) == l.at(r, k));
            assert(u2.at(k, c) == u.at(k, c));
        } else if k == p {
            assert(l.at(r, k) == zero::<T>());
            assert(l2.at(r, k) == lu_factor(u, p, r));
            assert(u2.at(k, c) == u.at(k, c));
        } else if k < r {
            assert(l.at(r, k) == zero::<T>());
            assert(l2.at(r, k) == zero::<T>());
        } else if k == r {
            assert(l.at(r, k) == one::<T>());
            assert(l2.at(r, k) == one::<T>());
            if c >= p {
                assert(u2.at(r, c) == x.minus_spec(g));
                lemma_cancel(base, g, x);
            } else {
                assert(u.at(p, c) == zero::<T>());
                assert(u2.at(r, c) == x);
            }
        } else {
            assert(l.at(r, k) == zero::<T>());
            assert(l2.at(r, k) == zero::<T>());
        }
    }
}

/// A step of elimination on a pivot that is not zero keeps the product of
/// the factors, leaves the identity's columns after the pivot column in the
/// lower factor, and clears the pivot column of the upper factor below the
/// diagonal.
pub proof fn lemma_step_keeps_product<T: Scalar>(
    l: MatrixView<T>,
    u: MatrixView<T>,
    n: nat,
    p: int,
)
    requires
        exact_arithmetic::<T>(),
        square_pair(l, u, n),
        lower_pending(l, p),
        upper_cleared(u, p),
        0 <= p < n,
        !u.at(p, p).equals_spec(zero::<T>()),
    ensures
        square_pair(lu_lower_step(l, u, p), lu_upper_step(u, p), n),
        lower_pending(lu_lower_step(l, u, p), p + 1),
        upper_cleared(lu_upper_step(u, p), p + 1),
        mul_spec(lu_lower_step(l, u, p), lu_upper_step(u, p)) == mul_spec(l, u),
{
    let l2 = lu_lower_step(l, u, p);
    let u2 = lu_upper_step(u, p);
    lemma_lu_step_cells(l, u, p);
    assert forall|r: int, c: int| u2.has(r, c) && c < p + 1 && r > c implies #[trigger] u2.at(r, c)
        == zero::<T>() by {
        assert(u.has(r, c) && u.has(p, p) && u.has(r, p));
        if c == p {
            lemma_division(u.at(r, p), u.at(p, p));
            lemma_minus_self_and_zero(u.at(r, p));
        }
    }
    lemma_mul_spec(l, u);
    lemma_mul_spec(l2, u2);
    assert forall|r: int, c: int| mul_spec(l, u).has(r, c) implies mul_spec(l2, u2).at(r, c)
        == mul_spec(l, u).at(r, c) by {
        if r <= p {
            lemma_row_above(l, u, n, p, r, c, n);
        } else {
            lemma_row_below(l, u, n, p, r, c, n);
        }
    }
    mul_spec(l2, u2).lemma_ext(mul_spec(l, u));
}

/// As long as elimination meets no zero pivot, the factors it has reached
/// multiply back to the matrix.
proof fn lemma_steps_keep_product<T: Scalar>(a: MatrixView<T>, k: nat)
    requires
        exact_arithmetic::<T>(),
        a.wf(),
        a.rows == a.cols,
        k <= a.rows,
        lu_steps(a, k) is Some,
    ensures
        square_pair(lower_after(a, k), upper_after(a, k), a.rows),
        lower_pending(lower_after(a, k), k as int),
        upper_cleared(upper_after(a, k), k as int),
        mul_spec(lower_after(a, k), upper_after(a, k)) == a,
    decreases k,
{
    if k == 0 {
        lemma_identity::<T>(a.rows);
        assert forall|r: int, c: int| a.has(r, c) implies unit_laws(#[trigger] a.at(r, c)) by {
            lemma_units(a.at(r, c));
        }
        lemma_units(zero::<T>());
        lemma_mul_identity_left_exact(a);
    } else {
        assert(lu_steps(a, (k - 1) as nat) is Some);
        lemma_steps_keep_product(a, (k - 1) as nat);
        lemma_step_keeps_product(
            lower_after(a, (k - 1) as nat),
            upper_after(a, (k - 1) as nat),
            a.rows,
            k - 1,
        );
    }
}

/// Whatever the scalar, the lower factor that elimination has reached holds
/// one on its diagonal and zero above it.
pub proof fn lemma_lower_unit_triangular<T: Scalar>(a: MatrixView<T>, k: nat)
    requires
        a.wf(),
        a.rows == a.cols,
        lu_steps(a, k) is Some,
    ensures
        unit_lower_triangular(lower_after(a, k)),
        square_pair(lower_after(a, k), upper_after(a, k), a.rows),
    decreases k,
{
    if k == 0 {
        lemma_identity::<T>(a.rows);
    } else {
        assert(lu_steps(a, (k - 1) as nat) is Some);
        lemma_lower_unit_triangular(a, (k - 1) as nat);
        lemma_lu_step_cells(lower_after(a, (k - 1) as nat), upper_after(a, (k - 1) as nat), k - 1);
    }
}

/// Where a square matrix has an LU factorization, that is where elimination
/// without exchange of rows meets no zero pivot, the lower factor times the
/// upper factor is the matrix, and the upper factor holds zero below its
/// diagonal, for a scalar that computes exactly.
pub proof fn lemma_lu_multiplies_back<T: Scalar>(a: MatrixView<T>)
    requires
        exact_arithmetic::<T>(),
        a.wf(),
        a.rows == a.cols,
        lu_steps(a, a.rows) is Some,
    ensures
        mul_spec(lower_after(a, a.rows), upper_after(a, a.rows)) == a,
        upper_cleared(upper_after(a, a.rows), a.rows as int),
{
    lemma_steps_keep_product(a, a.rows);
}

} // verus!
