use vstd::prelude::*;
use vstd::arithmetic::div_mod::lemma_fundamental_div_mod;
use vstd::arithmetic::div_mod::lemma_fundamental_div_mod_converse;
use vstd::arithmetic::div_mod::lemma_mod_bound;
use vstd::arithmetic::mul::lemma_mul_is_commutative;

verus! {

/// The cells of a `rows` by `cols` grid laid out row after row: the cell in
/// row `i` and column `j` is `cell(i, j)` and stands at offset `i * cols + j`.
pub open spec fn row_major<E>(rows: nat, cols: nat, cell: spec_fn(int, int) -> E) -> Seq<E> {
    Seq::new(rows * cols, |k: int| cell(k / cols as int, k % cols as int))
}

/// An offset `i * cols + j` with `j < cols` lies in row `i` and column `j`,
/// and within the first `rows * cols` offsets when `i < rows`.
pub proof fn lemma_offset(rows: int, cols: int, i: int, j: int)
    requires
        0 <= i < rows,
        0 <= j < cols,
    ensures
        0 <= i * cols + j < rows * cols,
        (i * cols + j) / cols == i,
        (i * cols + j) % cols == j,
{
    lemma_fundamental_div_mod_converse(i * cols + j, cols, i, j);
    assert(i * cols >= 0) by (nonlinear_arith)
        requires
            i >= 0,
            cols > 0,
    ;
    assert(i * cols + j < rows * cols) by (nonlinear_arith)
        requires
            0 <= i < rows,
            0 <= j < cols,
    ;
}

/// Every offset below `rows * cols` is the offset of exactly one cell, the
/// one in row `k / cols` and column `k % cols`.
pub proof fn lemma_cell_of_offset(rows: int, cols: int, k: int)
    requires
        0 <= k < rows * cols,
        0 <= rows,
        0 <= cols,
    ensures
        0 < cols,
        0 <= k / cols < rows,
        0 <= k % cols < cols,
        k == (k / cols) * cols + k % cols,
{
    assert(cols > 0) by (nonlinear_arith)
        requires
            0 <= k < rows * cols,
            0 <= cols,
    ;
    lemma_fundamental_div_mod(k, cols);
    lemma_mod_bound(k, cols);
    lemma_mul_is_commutative(cols, k / cols);
    let q = k / cols;
    let r = k % cols;
    assert(0 <= q < rows) by (nonlinear_arith)
        requires
            k == q * cols + r,
            0 <= r < cols,
            0 <= k < rows * cols,
    ;
}

/// Builds a row-major grid by calling `f` once for each cell, row after row,
/// and within a row from the first column to the last.
pub(crate) fn tabulate<E, F: Fn(usize, usize) -> E>(
    rows: usize,
    cols: usize,
    f: F,
    Ghost(cell): Ghost<spec_fn(int, int) -> E>,
) -> (grid: Vec<E>)
    requires
        forall|i: usize, j: usize| i < rows && j < cols ==> call_requires(f, (i, j)),
        forall|i: usize, j: usize, e: E|
            i < rows && j < cols && call_ensures(f, (i, j), e) ==> e == cell(i as int, j as int),
    ensures
        grid@ == row_major(rows as nat, cols as nat, cell),
{
    let mut grid: Vec<E> = Vec::new();
    let mut i: usize = 0;
    while i < rows
        invariant
            i <= rows,
            grid@.len() == i * cols,
            forall|k: int|
                0 <= k < grid@.len() ==> #[trigger] grid@[k] == cell(
                    k / cols as int,
                    k % cols as int,
                ),
            forall|i: usize, j: usize| i < rows && j < cols ==> call_requires(f, (i, j)),
            forall|i: usize, j: usize, e: E|
                i < rows && j < cols && call_ensures(f, (i, j), e) ==> e == cell(
                    i as int,
                    j as int,
                ),
        decreases rows - i,
    {
        let mut j: usize = 0;
        while j < cols
            invariant
                i < rows,
                j <= cols,
                grid@.len() == i * cols + j,
                forall|k: int|
                    0 <= k < grid@.len() ==> #[trigger] grid@[k] == cell(
                        k / cols as int,
                        k % cols as int,
                    ),
                forall|i: usize, j: usize| i < rows && j < cols ==> call_requires(f, (i, j)),
                forall|i: usize, j: usize, e: E|
                    i < rows && j < cols && call_ensures(f, (i, j), e) ==> e == cell(
                        i as int,
                        j as int,
                    ),
            decreases cols - j,
        {
            let e = f(i, j);
            proof {
                lemma_offset(rows as int, cols as int, i as int, j as int);
            }
            grid.push(e);
            j += 1;
        }
        assert(i * cols + cols == (i + 1) * cols) by (nonlinear_arith);
        i += 1;
    }
    assert(grid@ =~= row_major(rows as nat, cols as nat, cell));
    grid
}

/// Builds a sequence of `n` items by calling `f` once for each index, in
/// ascending order.
pub(crate) fn sequence<E, F: Fn(usize) -> E>(
    n: usize,
    f: F,
    Ghost(item): Ghost<spec_fn(int) -> E>,
) -> (items: Vec<E>)
    requires
        forall|i: usize| i < n ==> call_requires(f, (i,)),
        forall|i: usize, e: E| i < n && call_ensures(f, (i,), e) ==> e == item(i as int),
    ensures
        items@ == Seq::new(n as nat, item),
{
    let mut items: Vec<E> = Vec::new();
    let mut i: usize = 0;
    while i < n
        invariant
            i <= n,
            items@.len() == i,
            forall|k: int| 0 <= k < i ==> #[trigger] items@[k] == item(k),
            forall|i: usize| i < n ==> call_requires(f, (i,)),
            forall|i: usize, e: E| i < n && call_ensures(f, (i,), e) ==> e == item(i as int),
        decreases n - i,
    {
        let e = f(i);
        items.push(e);
        i += 1;
    }
    assert(items@ =~= Seq::new(n as nat, item));
    items
}

} // verus!
