use vstd::prelude::*;
use crate::dense::matrix::MatrixView;
use crate::dense::ops::{dot_prefix, lemma_identity, lemma_mul_spec, mul_spec};
use crate::matrix::ops::{
    augmented,
    cleared_column,
    gauss_jordan,
    gauss_jordan_step,
    inv_spec,
    lemma_cleared_column,
    lemma_gauss_jordan_stays_none,
    lemma_scaled_row,
    lemma_swapped_rows,
    pivot_row,
    rounded,
    scaled_row,
    swapped_rows,
};
use crate::scalar::Scalar;
use crate::scalar::{
    exact_arithmetic,
    lemma_division,
    lemma_minus_self_and_zero,
    lemma_minus_then_plus,
    lemma_spread,
    lemma_units,
    one,
    zero,
};
use crate::utils::grid::lemma_offset;

verus! {

/// The right half of a matrix that is twice as wide as it is high.
pub open spec fn right_half<T>(w: MatrixView<T>) -> MatrixView<T> {
    MatrixView::from_fn(w.rows, w.rows, |i: int, j: int| w.at(i, j + w.rows))
}

/// The augmented matrix of `a` after elimination on the first `k` columns.
pub open spec fn reduced_after<T: Scalar>(a: MatrixView<T>, k: nat) -> MatrixView<T> {
    gauss_jordan(augmented(a), k).unwrap()
}

/// The first `m` cells of row `r` of `w`, each times the item of `x` at its
/// column, added up from zero in ascending order.
pub open spec fn row_sum<T: Scalar>(w: MatrixView<T>, r: int, x: Seq<T>, m: nat) -> T
    decreases m,
{
    if m == 0 {
        zero::<T>()
    } else {
        row_sum(w, r, x, (m - 1) as nat).plus_spec(w.at(r, m - 1).times_spec(x[m - 1]))
    }
}

/// `x` solves the linear system whose coefficients are the left half of `w`
/// and whose right-hand side is column `j` of the right half of `w`.
pub open spec fn solves<T: Scalar>(w: MatrixView<T>, x: Seq<T>, j: int) -> bool {
    forall|r: int| 0 <= r < w.rows ==> #[trigger] row_sum(w, r, x, w.rows) == w.at(r, w.rows + j)
}

/// `w` has `n` rows and twice as many columns.
pub open spec fn twice_as_wide<T>(w: MatrixView<T>, n: nat) -> bool {
    w.wf() && w.rows == n && w.cols == 2 * n
}

/// The first `p` columns of `w` are those of the identity.
pub open spec fn left_done<T: Scalar>(w: MatrixView<T>, p: int) -> bool {
    forall|r: int, c: int|
        0 <= r < w.rows && 0 <= c < p ==> #[trigger] w.at(r, c) == (if r == c {
            one::<T>()
        } else {
            zero::<T>()
        })
}

/// Two sums of two terms each may exchange their inner terms.
proof fn lemma_shuffle<T: Scalar>(a: T, b: T, c: T, d: T)
    requires
        exact_arithmetic::<T>(),
    ensures
        a.plus_spec(b).plus_spec(c.plus_spec(d)) == a.plus_spec(c).plus_spec(b.plus_spec(d)),
{
    reveal(exact_arithmetic);
    assert(a.plus_spec(b).plus_spec(c.plus_spec(d)) == a.plus_spec(b.plus_spec(c.plus_spec(d))));
    assert(b.plus_spec(c.plus_spec(d)) == b.plus_spec(c).plus_spec(d));
    assert(b.plus_spec(c) == c.plus_spec(b));
    assert(c.plus_spec(b).plus_spec(d) == c.plus_spec(b.plus_spec(d)));
    assert(a.plus_spec(c.plus_spec(b.plus_spec(d))) == a.plus_spec(c).plus_spec(b.plus_spec(d)));
}

/// The step that takes `f` times a cell `b` from a cell `a`, seen from the
/// products with `x`: the product of what is left and the product of what
/// was taken add up to the product of `a`.
proof fn lemma_taken_and_left<T: Scalar>(a: T, b: T, f: T, x: T)
    requires
        exact_arithmetic::<T>(),
    ensures
        a.minus_spec(f.times_spec(b)).times_spec(x).plus_spec(f.times_spec(b.times_spec(x)))
            == a.times_spec(x),
{
    reveal(exact_arithmetic);
    let fb = f.times_spec(b);
    assert(f.times_spec(b.times_spec(x)) == fb.times_spec(x));
    assert(a.minus_spec(fb).plus_spec(fb).times_spec(x) == a.minus_spec(fb).times_spec(
        x,
    ).plus_spec(fb.times_spec(x)));
    assert(a.minus_spec(fb).plus_spec(fb) == a);
}

/// A product with a quotient by `d`, multiplied by `d`, is the product with
/// the dividend.
proof fn lemma_scaled_product<T: Scalar>(a: T, d: T, x: T)
    requires
        exact_arithmetic::<T>(),
        !d.equals_spec(zero::<T>()),
    ensures
        a.over_spec(d).times_spec(x).times_spec(d) == a.times_spec(x),
{
    reveal(exact_arithmetic);
    let q = a.over_spec(d);
    assert(q.times_spec(x).times_spec(d) == q.times_spec(x.times_spec(d)));
    assert(x.times_spec(d) == d.times_spec(x));
    assert(q.times_spec(d.times_spec(x)) == q.times_spec(d).times_spec(x));
    assert(q.times_spec(d) == a);
}

/// The pivot row for a column lies among the rows that were searched.
pub proof fn lemma_pivot_row_range<T: Scalar>(m: MatrixView<T>, col: int, upto: int)
    requires
        col < upto,
    ensures
        col <= pivot_row(m, col, upto) < upto,
    decreases upto - col,
{
    if upto > col + 1 {
        lemma_pivot_row_range(m, col, upto - 1);
    }
}

/// The augmented matrix holds the matrix in its left half and the identity
/// in its right half.
pub proof fn lemma_augmented<T: Scalar>(a: MatrixView<T>)
    requires
        a.wf(),
        a.rows == a.cols,
    ensures
        twice_as_wide(augmented(a), a.rows),
        forall|i: int, j: int|
            0 <= i < a.rows && 0 <= j < 2 * a.rows ==> #[trigger] augmented(a).at(i, j) == (if j
                < a.rows {
                a.at(i, j)
            } else if j == i + a.rows {
                one::<T>()
            } else {
                zero::<T>()
            }),
{
    assert forall|i: int, j: int| 0 <= i < a.rows && 0 <= j < 2 * a.rows implies #[trigger]
        augmented(a).at(i, j) == (if j < a.rows {
        a.at(i, j)
    } else if j == i + a.rows {
        one::<T>()
    } else {
        zero::<T>()
    }) by {
        lemma_offset(a.rows as int, 2 * a.rows as int, i, j);
    }
}

/// The right half holds the cells of the right half.
pub proof fn lemma_right_half<T>(w: MatrixView<T>)
    ensures
        right_half(w).wf(),
        right_half(w).rows == w.rows,
        right_half(w).cols == w.rows,
        forall|i: int, j: int|
            0 <= i < w.rows && 0 <= j < w.rows ==> #[trigger] right_half(w).at(i, j) == w.at(
                i,
                j + w.rows,
            ),
{
    assert forall|i: int, j: int| 0 <= i < w.rows && 0 <= j < w.rows implies #[trigger] right_half(
        w,
    ).at(i, j) == w.at(i, j + w.rows) by {
        lemma_offset(w.rows as int, w.rows as int, i, j);
    }
}

/// Rows that hold the same cells in their first `m` columns have the same
/// sum over them.
proof fn lemma_same_row<T: Scalar>(
    w: MatrixView<T>,
    r: int,
    v: MatrixView<T>,
    s: int,
    x: Seq<T>,
    m: nat,
)
    requires
        forall|k: int| 0 <= k < m ==> w.at(r, k) == v.at(s, k),
    ensures
        row_sum(w, r, x, m) == row_sum(v, s, x, m),
    decreases m,
{
    if m > 0 {
        lemma_same_row(w, r, v, s, x, (m - 1) as nat);
    }
}

/// A row that was divided by `d` has, times `d`, the sum it had before.
proof fn lemma_scaled_sum<T: Scalar>(w: MatrixView<T>, n: nat, p: int, x: Seq<T>, m: nat)
    requires
        exact_arithmetic::<T>(),
        twice_as_wide(w, n),
        0 <= p < n,
        m <= n,
        !w.at(p, p).equals_spec(zero::<T>()),
    ensures
        row_sum(w, p, x, m) == row_sum(scaled_row(w, p), p, x, m).times_spec(w.at(p, p)),
    decreases m,
{
    let d = w.at(p, p);
    let w2 = scaled_row(w, p);
    if m == 0 {
        lemma_units(d);
    } else {
        let k = m - 1;
        lemma_scaled_sum(w, n, p, x, k as nat);
        lemma_scaled_row(w, p);
        assert(w.has(p, k));
        assert(w2.at(p, k) == w.at(p, k).over_spec(d));
        lemma_scaled_product(w.at(p, k), d, x[k]);
        lemma_spread(row_sum(w2, p, x, k as nat), w2.at(p, k).times_spec(x[k]), d);
    }
}

/// A row from which `f` times row `p` was taken has, with `f` times the sum
/// of row `p` added, the sum it had before.
proof fn lemma_cleared_sum<T: Scalar>(
    w: MatrixView<T>,
    n: nat,
    p: int,
    r: int,
    x: Seq<T>,
    m: nat,
)
    requires
        exact_arithmetic::<T>(),
        twice_as_wide(w, n),
        0 <= p < n,
        0 <= r < n,
        r != p,
        m <= n,
    ensures
        row_sum(w, r, x, m) == row_sum(cleared_column(w, p), r, x, m).plus_spec(
            w.at(r, p).times_spec(row_sum(w, p, x, m)),
        ),
    decreases m,
{
    let f = w.at(r, p);
    let w3 = cleared_column(w, p);
    if m == 0 {
        lemma_units(f);
        lemma_units(zero::<T>());
    } else {
        let k = m - 1;
        lemma_cleared_sum(w, n, p, r, x, k as nat);
        lemma_cleared_column(w, p);
        assert(w.has(r, k) && w.has(p, k));
        let a = w.at(r, k);
        let b = w.at(p, k);
        assert(w3.at(r, k) == a.minus_spec(f.times_spec(b)));
        let left = row_sum(w3, r, x, k as nat);
        let pivot_sum = row_sum(w, p, x, k as nat);
        lemma_spread(pivot_sum, b.times_spec(x[k]), f);
        lemma_shuffle(
            left,
            w3.at(r, k).times_spec(x[k]),
            f.times_spec(pivot_sum),
            f.times_spec(b.times_spec(x[k])),
        );
        lemma_taken_and_left(a, b, f, x[k]);
    }
}

/// A solution of the system after rows were exchanged solves the system
/// before.
proof fn lemma_back_over_swap<T: Scalar>(
    w: MatrixView<T>,
    n: nat,
    p: int,
    q: int,
    x: Seq<T>,
    j: int,
)
    requires
        twice_as_wide(w, n),
        0 <= p < n,
        0 <= q < n,
        0 <= j < n,
        solves(swapped_rows(w, p, q), x, j),
    ensures
        solves(w, x, j),
{
    let w1 = swapped_rows(w, p, q);
    lemma_swapped_rows(w, p, q);
    assert forall|r: int| 0 <= r < w.rows implies #[trigger] row_sum(w, r, x, w.rows) == w.at(
        r,
        w.rows + j,
    ) by {
        let s = if r == p {
            q
        } else if r == q {
            p
        } else {
            r
        };
        assert forall|k: int| 0 <= k < n implies w.at(r, k) == w1.at(s, k) by {
            assert(w.has(s, k));
        }
        lemma_same_row(w, r, w1, s, x, n);
        assert(w.has(s, n + j));
        assert(row_sum(w1, s, x, w1.rows) == w1.at(s, w1.rows + j));
    }
}

/// A solution of the system after the pivot row was scaled solves the system
/// before.
proof fn lemma_back_over_scale<T: Scalar>(w: MatrixView<T>, n: nat, p: int, x: Seq<T>, j: int)
    requires
        exact_arithmetic::<T>(),
        twice_as_wide(w, n),
        0 <= p < n,
        0 <= j < n,
        !w.at(p, p).equals_spec(zero::<T>()),
        solves(scaled_row(w, p), x, j),
    ensures
        solves(w, x, j),
{
    let w2 = scaled_row(w, p);
    lemma_scaled_row(w, p);
    assert forall|r: int| 0 <= r < w.rows implies #[trigger] row_sum(w, r, x, w.rows) == w.at(
        r,
        w.rows + j,
    ) by {
        assert(w.has(r, n + j));
        assert(row_sum(w2, r, x, w2.rows) == w2.at(r, w2.rows + j));
        if r == p {
            lemma_scaled_sum(w, n, p, x, n);
            lemma_division(w.at(p, n + j), w.at(p, p));
        } else {
            assert forall|k: int| 0 <= k < n implies w.at(r, k) == w2.at(r, k) by {
                assert(w.has(r, k));
            }
            lemma_same_row(w, r, w2, r, x, n);
        }
    }
}

/// A solution of the system after the pivot column was cleared solves the
/// system before.
proof fn lemma_back_over_clear<T: Scalar>(w: MatrixView<T>, n: nat, p: int, x: Seq<T>, j: int)
    requires
        exact_arithmetic::<T>(),
        twice_as_wide(w, n),
        0 <= p < n,
        0 <= j < n,
        solves(cleared_column(w, p), x, j),
    ensures
        solves(w, x, j),
{
    let w3 = cleared_column(w, p);
    lemma_cleared_column(w, p);
    assert forall|k: int| 0 <= k < n implies w.at(p, k) == w3.at(p, k) by {
        assert(w.has(p, k));
    }
    lemma_same_row(w, p, w3, p, x, n);
    assert(w.has(p, n + j));
    assert(row_sum(w3, p, x, w3.rows) == w3.at(p, w3.rows + j));
    assert(row_sum(w, p, x, n) == w.at(p, n + j));
    assert forall|r: int| 0 <= r < w.rows implies #[trigger] row_sum(w, r, x, w.rows) == w.at(
        r,
        w.rows + j,
    ) by {
        if r != p {
            assert(w.has(r, n + j));
            assert(w.has(r, p));
            assert(row_sum(w3, r, x, w3.rows) == w3.at(r, w3.rows + j));
            lemma_cleared_sum(w, n, p, r, x, n);
            let f = w.at(r, p);
            let y = w.at(p, n + j);
            assert(w3.at(r, n + j) == w.at(r, n + j).minus_spec(f.times_spec(y)));
            lemma_minus_then_plus(w.at(r, n + j), f.times_spec(y));
        }
    }
}

/// A step of elimination on column `p` keeps the shape and makes of column
/// `p` a column of the identity, as are the columns before it.
proof fn lemma_step_forward<T: Scalar>(w: MatrixView<T>, n: nat, p: int)
    requires
        exact_arithmetic::<T>(),
        twice_as_wide(w, n),
        0 <= p < n,
        left_done(w, p),
        gauss_jordan_step(w, p) is Some,
    ensures
        twice_as_wide(gauss_jordan_step(w, p).unwrap(), n),
        left_done(gauss_jordan_step(w, p).unwrap(), p + 1),
{
    let q = pivot_row(w, p, n as int);
    lemma_pivot_row_range(w, p, n as int);
    let w1 = swapped_rows(w, p, q);
    let w2 = scaled_row(w1, p);
    let w3 = cleared_column(w2, p);
    lemma_swapped_rows(w, p, q);
    lemma_scaled_row(w1, p);
    lemma_cleared_column(w2, p);
    let d = w1.at(p, p);
    assert(w1.has(p, p));
    assert forall|r: int, c: int| 0 <= r < w1.rows && 0 <= c < p implies #[trigger] w1.at(r, c) == (
    if r == c {
        one::<T>()
    } else {
        zero::<T>()
    }) by {
        assert(w.has(r, c) && w.has(p, c) && w.has(q, c));
    }
    assert forall|r: int, c: int| 0 <= r < w2.rows && 0 <= c < p + 1 implies #[trigger] w2.at(r, c)
        == (if c == p {
        if r == p {
            one::<T>()
        } else {
            w1.at(r, p)
        }
    } else if r == c {
        one::<T>()
    } else {
        zero::<T>()
    }) by {
        assert(w1.has(r, c));
        if r == p {
            lemma_division(d, d);
            if c != p {
                assert(w1.at(r, c) == zero::<T>());
            }
        }
    }
    assert forall|r: int, c: int| 0 <= r < w3.rows && 0 <= c < p + 1 implies #[trigger] w3.at(r, c)
        == (if r == c {
        one::<T>()
    } else {
        zero::<T>()
    }) by {
        assert(w2.has(r, c) && w2.has(r, p) && w2.has(p, c));
        if r != p {
            let f = w2.at(r, p);
            lemma_units(f);
            if c == p {
                assert(w3.at(r, c) == f.minus_spec(f.times_spec(one::<T>())));
                lemma_minus_self_and_zero(f);
            } else {
                assert(w2.at(p, c) == zero::<T>());
                let cell = w2.at(r, c);
                assert(w3.at(r, c) == cell.minus_spec(f.times_spec(zero::<T>())));
                lemma_minus_self_and_zero(cell);
            }
        }
    }
}

/// Elimination that reaches its end has met no zero pivot on the way, and
/// after `k` steps the first `k` columns are those of the identity.
proof fn lemma_forward<T: Scalar>(a: MatrixView<T>, k: nat)
    requires
        exact_arithmetic::<T>(),
        a.wf(),
        a.rows == a.cols,
        k <= a.rows,
        gauss_jordan(augmented(a), a.rows) is Some,
    ensures
        gauss_jordan(augmented(a), k) is Some,
        twice_as_wide(reduced_after(a, k), a.rows),
        left_done(reduced_after(a, k), k as int),
    decreases k,
{
    if gauss_jordan(augmented(a), k) is None {
        lemma_gauss_jordan_stays_none(augmented(a), k, a.rows);
    }
    if k == 0 {
        lemma_augmented(a);
    } else {
        lemma_forward(a, (k - 1) as nat);
        lemma_step_forward(reduced_after(a, (k - 1) as nat), a.rows, k - 1);
    }
}

/// Where the left half is the identity, the column of the right half solves
/// the system itself.
proof fn lemma_identity_solved<T: Scalar>(w: MatrixView<T>, n: nat, x: Seq<T>, r: int, m: nat)
    requires
        exact_arithmetic::<T>(),
        twice_as_wide(w, n),
        left_done(w, n as int),
        0 <= r < n,
        m <= n,
        x.len() == n,
    ensures
        row_sum(w, r, x, m) == (if m <= r {
            zero::<T>()
        } else {
            x[r]
        }),
    decreases m,
{
    if m > 0 {
        lemma_identity_solved(w, n, x, r, (m - 1) as nat);
        lemma_units(x[m - 1]);
        lemma_units(x[r]);
        lemma_units(zero::<T>());
    }
}

/// Column `j` of the right half of the fully reduced matrix.
pub open spec fn solution<T: Scalar>(a: MatrixView<T>, j: int) -> Seq<T> {
    Seq::new(a.rows, |k: int| reduced_after(a, a.rows).at(k, a.rows + j))
}

/// Column `j` of the right half of the fully reduced matrix solves the
/// system at every stage of the elimination, back to its start.
proof fn lemma_solved_at<T: Scalar>(a: MatrixView<T>, k: nat, j: int)
    requires
        exact_arithmetic::<T>(),
        a.wf(),
        a.rows == a.cols,
        k <= a.rows,
        0 <= j < a.rows,
        gauss_jordan(augmented(a), a.rows) is Some,
    ensures
        solves(reduced_after(a, k), solution(a, j), j),
    decreases a.rows - k,
{
    let n = a.rows;
    let x = solution(a, j);
    lemma_forward(a, k);
    let w = reduced_after(a, k);
    if k == n {
        assert forall|r: int| 0 <= r < w.rows implies #[trigger] row_sum(w, r, x, w.rows) == w.at(
            r,
            w.rows + j,
        ) by {
            lemma_identity_solved(w, n, x, r, n);
        }
    } else {
        lemma_solved_at(a, k + 1, j);
        lemma_forward(a, k + 1);
        let q = pivot_row(w, k as int, n as int);
        lemma_pivot_row_range(w, k as int, n as int);
        let w1 = swapped_rows(w, k as int, q);
        let w2 = scaled_row(w1, k as int);
        lemma_swapped_rows(w, k as int, q);
        lemma_scaled_row(w1, k as int);
        assert(reduced_after(a, k + 1) == cleared_column(w2, k as int));
        lemma_back_over_clear(w2, n, k as int, x, j);
        lemma_back_over_scale(w1, n, k as int, x, j);
        lemma_back_over_swap(w, n, k as int, q, x, j);
    }
}

/// A row of `a` times a column of the right half of the reduced matrix is
/// the sum over the row of the augmented matrix.
proof fn lemma_product_is_row_sum<T: Scalar>(a: MatrixView<T>, r: int, j: int, m: nat)
    requires
        a.wf(),
        a.rows == a.cols,
        0 <= r < a.rows,
        0 <= j < a.rows,
        m <= a.rows,
        twice_as_wide(reduced_after(a, a.rows), a.rows),
    ensures
        dot_prefix(a, right_half(reduced_after(a, a.rows)), r, j, m) == row_sum(
            augmented(a),
            r,
            solution(a, j),
            m,
        ),
    decreases m,
{
    if m > 0 {
        lemma_product_is_row_sum(a, r, j, (m - 1) as nat);
        lemma_augmented(a);
        lemma_right_half(reduced_after(a, a.rows));
        let k = m - 1;
        assert(right_half(reduced_after(a, a.rows)).at(k, j) == reduced_after(a, a.rows).at(
            k,
            j + a.rows,
        ));
        assert(augmented(a).at(r, k) == a.at(r, k));
    }
}

/// Where elimination with exchange of rows reaches its end on a square
/// matrix, the right half of the reduced augmented matrix is an inverse: the
/// matrix times it is the identity, for a scalar that computes exactly. The
/// inverse that is handed out holds the cells of that right half, each
/// rounded to six decimal places.
pub proof fn lemma_inverse_multiplies_to_identity<T: Scalar>(a: MatrixView<T>)
    requires
        exact_arithmetic::<T>(),
        a.wf(),
        a.rows == a.cols,
        gauss_jordan(augmented(a), a.rows) is Some,
    ensures
        mul_spec(a, right_half(reduced_after(a, a.rows))) == MatrixView::<T>::identity(a.rows),
        inv_spec(a) is Some,
        inv_spec(a).unwrap().wf(),
        inv_spec(a).unwrap().rows == a.rows,
        inv_spec(a).unwrap().cols == a.rows,
        forall|i: int, j: int|
            0 <= i < a.rows && 0 <= j < a.rows ==> #[trigger] inv_spec(a).unwrap().at(i, j)
                == rounded(right_half(reduced_after(a, a.rows)).at(i, j)),
{
    let n = a.rows;
    let w = reduced_after(a, n);
    let x = right_half(w);
    lemma_forward(a, n);
    lemma_right_half(w);
    lemma_mul_spec(a, x);
    lemma_identity::<T>(n);
    lemma_augmented(a);
    assert forall|r: int, j: int| mul_spec(a, x).has(r, j) implies mul_spec(a, x).at(r, j)
        == MatrixView::<T>::identity(n).at(r, j) by {
        lemma_product_is_row_sum(a, r, j, n);
        lemma_solved_at(a, 0, j);
        assert(row_sum(augmented(a), r, solution(a, j), augmented(a).rows) == augmented(a).at(
            r,
            augmented(a).rows + j,
        ));
    }
    mul_spec(a, x).lemma_ext(MatrixView::<T>::identity(n));
    assert forall|i: int, j: int| 0 <= i < n && 0 <= j < n implies #[trigger] inv_spec(
        a,
    ).unwrap().at(i, j) == rounded(x.at(i, j)) by {
        lemma_offset(n as int, n as int, i, j);
    }
}

} // verus!
