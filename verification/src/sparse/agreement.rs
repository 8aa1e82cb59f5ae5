use vstd::prelude::*;
use crate::dense::matrix::MatrixView;
use crate::scalar::Scalar;
use crate::sparse::matrix::SparseView;
use crate::sparse::ops::full;
use crate::utils::grid::{lemma_cell_of_offset, lemma_offset};

verus! {

/// The sparse matrix `s` encodes the dense matrix `d`: they have the same
/// shape, and every cell of `d` reads the same in `s`.
pub open spec fn encodes<T: Scalar>(s: SparseView<T>, d: MatrixView<T>) -> bool {
    &&& d.wf()
    &&& s.rows == d.rows
    &&& s.cols == d.cols
    &&& forall|i: int, j: int| d.has(i, j) ==> #[trigger] s.at(i, j) == d.at(i, j)
}

/// A sparse matrix with an entry for every cell reads in each cell what the
/// cell function says.
pub proof fn lemma_full_cell<T: Scalar>(
    rows: nat,
    cols: nat,
    cell: spec_fn(int, int) -> T,
    i: int,
    j: int,
)
    requires
        rows <= usize::MAX,
        cols <= usize::MAX,
        0 <= i < rows,
        0 <= j < cols,
    ensures
        full(rows, cols, cell).at(i, j) == cell(i, j),
{
    let s = full(rows, cols, cell);
    let k = i * cols + j;
    lemma_offset(rows as int, cols as int, i, j);
    assert forall|e: int| 0 <= e < k implies !s.hits(e, i, j) by {
        lemma_cell_of_offset(rows as int, cols as int, e);
    }
    s.lemma_first_entry(i, j, k);
}

/// The transpose of a sparse matrix reads in cell `(i, j)` what the matrix
/// reads in cell `(j, i)`.
pub proof fn lemma_transpose_cell<T: Scalar>(a: SparseView<T>, i: int, j: int)
    requires
        a.rows <= usize::MAX,
        a.cols <= usize::MAX,
        0 <= i < a.cols,
        0 <= j < a.rows,
    ensures
        crate::sparse::ops::transpose_spec(a).at(i, j) == a.at(j, i),
{
    let t = crate::sparse::ops::transpose_spec(a);
    let k = j * a.cols + i;
    lemma_offset(a.rows as int, a.cols as int, j, i);
    assert forall|e: int| 0 <= e < k implies !t.hits(e, i, j) by {
        lemma_cell_of_offset(a.rows as int, a.cols as int, e);
    }
    t.lemma_first_entry(i, j, k);
}

/// The sparse sum encodes the dense sum of what the operands encode.
pub proof fn lemma_add_agrees<T: Scalar>(
    sa: SparseView<T>,
    sb: SparseView<T>,
    da: MatrixView<T>,
    db: MatrixView<T>,
)
    requires
        encodes(sa, da),
        encodes(sb, db),
        crate::dense::ops::same_shape(da, db),
        da.rows <= usize::MAX,
        da.cols <= usize::MAX,
    ensures
        encodes(crate::sparse::ops::add_spec(sa, sb), crate::dense::ops::add_spec(da, db)),
{
    let s = crate::sparse::ops::add_spec(sa, sb);
    let d = crate::dense::ops::add_spec(da, db);
    crate::dense::ops::lemma_add_spec(da, db);
    assert forall|i: int, j: int| d.has(i, j) implies #[trigger] s.at(i, j) == d.at(i, j) by {
        lemma_full_cell(
            sa.rows,
            sa.cols,
            |i: int, j: int| sa.at(i, j).plus_spec(sb.at(i, j)),
            i,
            j,
        );
        assert(sa.at(i, j) == da.at(i, j));
        assert(sb.at(i, j) == db.at(i, j));
    }
}

/// The sparse difference encodes the dense difference of what the operands
/// encode.
pub proof fn lemma_sub_agrees<T: Scalar>(
    sa: SparseView<T>,
    sb: SparseView<T>,
    da: MatrixView<T>,
    db: MatrixView<T>,
)
    requires
        encodes(sa, da),
        encodes(sb, db),
        crate::dense::ops::same_shape(da, db),
        da.rows <= usize::MAX,
        da.cols <= usize::MAX,
    ensures
        encodes(crate::sparse::ops::sub_spec(sa, sb), crate::dense::ops::sub_spec(da, db)),
{
    let s = crate::sparse::ops::sub_spec(sa, sb);
    let d = crate::dense::ops::sub_spec(da, db);
    crate::dense::ops::lemma_sub_spec(da, db);
    assert forall|i: int, j: int| d.has(i, j) implies #[trigger] s.at(i, j) == d.at(i, j) by {
        lemma_full_cell(
            sa.rows,
            sa.cols,
            |i: int, j: int| sa.at(i, j).minus_spec(sb.at(i, j)),
            i,
            j,
        );
        assert(sa.at(i, j) == da.at(i, j));
        assert(sb.at(i, j) == db.at(i, j));
    }
}

/// The sparse quotient encodes the dense quotient of what the operands
/// encode.
pub proof fn lemma_div_agrees<T: Scalar>(
    sa: SparseView<T>,
    sb: SparseView<T>,
    da: MatrixView<T>,
    db: MatrixView<T>,
)
    requires
        encodes(sa, da),
        encodes(sb, db),
        crate::dense::ops::same_shape(da, db),
        da.rows <= usize::MAX,
        da.cols <= usize::MAX,
    ensures
        encodes(crate::sparse::ops::div_spec(sa, sb), crate::dense::ops::div_spec(da, db)),
{
    let s = crate::sparse::ops::div_spec(sa, sb);
    let d = crate::dense::ops::div_spec(da, db);
    crate::dense::ops::lemma_div_spec(da, db);
    assert forall|i: int, j: int| d.has(i, j) implies #[trigger] s.at(i, j) == d.at(i, j) by {
        lemma_full_cell(
            sa.rows,
            sa.cols,
            |i: int, j: int| sa.at(i, j).over_spec(sb.at(i, j)),
            i,
            j,
        );
        assert(sa.at(i, j) == da.at(i, j));
        assert(sb.at(i, j) == db.at(i, j));
    }
}

/// A sparse row times a sparse column is the dense row times the dense
/// column of what the operands encode.
pub proof fn lemma_dot_agrees<T: Scalar>(
    sa: SparseView<T>,
    sb: SparseView<T>,
    da: MatrixView<T>,
    db: MatrixView<T>,
    i: int,
    j: int,
    n: nat,
)
    requires
        encodes(sa, da),
        encodes(sb, db),
        da.cols == db.rows,
        0 <= i < da.rows,
        0 <= j < db.cols,
        n <= da.cols,
    ensures
        crate::sparse::ops::dot_prefix(sa, sb, i, j, n) == crate::dense::ops::dot_prefix(
            da,
            db,
            i,
            j,
            n,
        ),
    decreases n,
{
    if n > 0 {
        lemma_dot_agrees(sa, sb, da, db, i, j, (n - 1) as nat);
        assert(da.has(i, n - 1));
        assert(db.has(n - 1, j));
        assert(sa.at(i, n - 1) == da.at(i, n - 1));
        assert(sb.at(n - 1, j) == db.at(n - 1, j));
    }
}

/// The sparse product encodes the dense product of what the operands encode.
pub proof fn lemma_mul_agrees<T: Scalar>(
    sa: SparseView<T>,
    sb: SparseView<T>,
    da: MatrixView<T>,
    db: MatrixView<T>,
)
    requires
        encodes(sa, da),
        encodes(sb, db),
        da.cols == db.rows,
        da.rows <= usize::MAX,
        db.cols <= usize::MAX,
    ensures
        encodes(crate::sparse::ops::mul_spec(sa, sb), crate::dense::ops::mul_spec(da, db)),
{
    let s = crate::sparse::ops::mul_spec(sa, sb);
    let d = crate::dense::ops::mul_spec(da, db);
    crate::dense::ops::lemma_mul_spec(da, db);
    assert forall|i: int, j: int| d.has(i, j) implies #[trigger] s.at(i, j) == d.at(i, j) by {
        lemma_full_cell(
            sa.rows,
            sb.cols,
            |i: int, j: int| crate::sparse::ops::dot_prefix(sa, sb, i, j, sa.cols),
            i,
            j,
        );
        lemma_dot_agrees(sa, sb, da, db, i, j, da.cols);
    }
}

/// The sparse transpose encodes the dense transpose of what the matrix
/// encodes.
pub proof fn lemma_transpose_agrees<T: Scalar>(s: SparseView<T>, d: MatrixView<T>)
    requires
        encodes(s, d),
        d.rows <= usize::MAX,
        d.cols <= usize::MAX,
    ensures
        encodes(crate::sparse::ops::transpose_spec(s), crate::dense::ops::transpose_spec(d)),
{
    let st = crate::sparse::ops::transpose_spec(s);
    let dt = crate::dense::ops::transpose_spec(d);
    crate::dense::ops::lemma_transpose_spec(d);
    assert forall|i: int, j: int| dt.has(i, j) implies #[trigger] st.at(i, j) == dt.at(i, j) by {
        lemma_transpose_cell(s, i, j);
        assert(d.has(j, i));
        assert(s.at(j, i) == d.at(j, i));
    }
}

/// The sparse multiple encodes the dense multiple of what the matrix
/// encodes.
pub proof fn lemma_scalar_mul_agrees<T: Scalar>(s: SparseView<T>, d: MatrixView<T>, scalar: T)
    requires
        encodes(s, d),
        d.rows <= usize::MAX,
        d.cols <= usize::MAX,
    ensures
        encodes(
            crate::sparse::ops::scalar_mul_spec(s, scalar),
            crate::matrix::ops::scalar_mul_spec(d, scalar),
        ),
{
    let sm = crate::sparse::ops::scalar_mul_spec(s, scalar);
    let dm = crate::matrix::ops::scalar_mul_spec(d, scalar);
    assert forall|i: int, j: int| dm.has(i, j) implies #[trigger] sm.at(i, j) == dm.at(i, j) by {
        lemma_full_cell(s.rows, s.cols, |i: int, j: int| s.at(i, j).times_spec(scalar), i, j);
        lemma_offset(d.rows as int, d.cols as int, i, j);
        assert(s.at(i, j) == d.at(i, j));
    }
}

} // verus!
