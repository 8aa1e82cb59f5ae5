use vstd::prelude::*;
use crate::scalar::Scalar;
use crate::scalar::{one, zero};
use crate::utils::grid::sequence;

verus! {

/// What a sparse matrix is: its shape and its entries in the order in which
/// they were recorded, each a row, a column and a value.
pub struct SparseView<T> {
    pub rows: nat,
    pub cols: nat,
    pub entries: Seq<(usize, usize, T)>,
}

impl<T: Scalar> SparseView<T> {
    /// Entry `k` is recorded for row `row` and column `col`.
    pub open spec fn hits(self, k: int, row: int, col: int) -> bool {
        self.entries[k].0 == row && self.entries[k].1 == col
    }

    /// The value of the first entry from index `k` on that is recorded for
    /// the cell, or zero if there is none.
    pub open spec fn first_from(self, row: int, col: int, k: int) -> T
        decreases self.entries.len() - k,
    {
        if k < 0 || k >= self.entries.len() {
            zero::<T>()
        } else if self.hits(k, row, col) {
            self.entries[k].2
        } else {
            self.first_from(row, col, k + 1)
        }
    }

    /// The value read for a cell: that of the first entry recorded for it, or
    /// zero if there is none. Later entries for the same cell are not seen.
    pub open spec fn at(self, row: int, col: int) -> T {
        self.first_from(row, col, 0)
    }

    /// The same matrix with one more entry at the end.
    pub open spec fn with(self, row: usize, col: usize, value: T) -> SparseView<T> {
        SparseView { entries: self.entries.push((row, col, value)), ..self }
    }

    /// The `n` by `n` matrix with one entry for each cell of the diagonal, of
    /// value one, from the first row to the last.
    pub open spec fn identity(n: nat) -> SparseView<T> {
        SparseView {
            rows: n,
            cols: n,
            entries: Seq::new(n, |i: int| (i as usize, i as usize, one::<T>())),
        }
    }

    /// The value read for a cell is that of an entry recorded for it which no
    /// earlier entry for that cell precedes.
    pub proof fn lemma_first_entry(self, row: int, col: int, k: int)
        requires
            0 <= k < self.entries.len(),
            self.hits(k, row, col),
            forall|e: int| 0 <= e < k ==> !self.hits(e, row, col),
        ensures
            self.at(row, col) == self.entries[k].2,
    {
        self.lemma_skip(row, col, 0, k);
    }

    /// Entries that are not recorded for the cell do not matter to the search.
    pub proof fn lemma_skip(self, row: int, col: int, from: int, to: int)
        requires
            0 <= from <= to <= self.entries.len(),
            forall|e: int| from <= e < to ==> !self.hits(e, row, col),
        ensures
            self.first_from(row, col, from) == self.first_from(row, col, to),
        decreases to - from,
    {
        if from < to {
            self.lemma_skip(row, col, from + 1, to);
        }
    }
}

/// A sparse matrix: a shape and a list of entries, each a row, a column and
/// a value. Nothing keeps two entries from naming the same cell, or an entry
/// from lying outside the shape: a cell reads as its first entry, and writing
/// adds an entry at the end.
#[derive(Debug, Clone, PartialEq)]
pub struct SparseMatrix<T> {
    pub rows: usize,
    pub cols: usize,
    pub data: Vec<(usize, usize, T)>,
}

impl<T> View for SparseMatrix<T> {
    type V = SparseView<T>;

    open spec fn view(&self) -> SparseView<T> {
        SparseView { rows: self.rows as nat, cols: self.cols as nat, entries: self.data@ }
    }
}

impl<T: Scalar> SparseMatrix<T> {
    /// The matrix of the given shape over the given entries.
    pub fn new(rows: usize, cols: usize, data: Vec<(usize, usize, T)>) -> (m: SparseMatrix<T>)
        ensures
            m@ == (SparseView { rows: rows as nat, cols: cols as nat, entries: data@ }),
    {
        SparseMatrix { rows, cols, data }
    }

    /// The matrix of the given shape without entries, so that every cell
    /// reads as zero.
    pub fn zeros(rows: usize, cols: usize) -> (m: SparseMatrix<T>)
        ensures
            m@ == (SparseView::<T> { rows: rows as nat, cols: cols as nat, entries: Seq::empty() }),
    {
        SparseMatrix { rows, cols, data: Vec::new() }
    }

    /// The `n` by `n` identity: one entry of value one for each cell of the
    /// diagonal.
    pub fn identity(n: usize) -> (m: SparseMatrix<T>)
        ensures
            m@ == SparseView::<T>::identity(n as nat),
    {
        let ghost item = |i: int| (i as usize, i as usize, one::<T>());
        let f = |i: usize| -> (e: (usize, usize, T))
            ensures
                e == item(i as int),
            { (i, i, T::from_int(1)) };
        let data = sequence(n, f, Ghost(item));
        SparseMatrix { rows: n, cols: n, data }
    }

    /// The value of the first entry recorded for the cell, or zero if there
    /// is none.
    pub fn get(&self, row: usize, col: usize) -> (value: T)
        ensures
            value == self@.at(row as int, col as int),
    {
        let mut k: usize = 0;
        while k < self.data.len()
            invariant
                k <= self.data.len(),
                self@.at(row as int, col as int) == self@.first_from(
                    row as int,
                    col as int,
                    k as int,
                ),
            decreases self.data.len() - k,
        {
            let entry: (usize, usize, T) = self.data[k];
            if entry.0 == row && entry.1 == col {
                return entry.2;
            }
            k += 1;
        }
        T::from_int(0)
    }

    /// Records `value` for the cell by adding an entry at the end. An entry
    /// that the cell already has stays, and stays the one that is read.
    pub fn set(&mut self, row: usize, col: usize, value: T)
        ensures
            final(self)@ == old(self)@.with(row, col, value),
    {
        self.data.push((row, col, value));
    }
}

} // verus!
