use vstd::prelude::*;
use vstd::string::StringExecFns;
use crate::utils::error::Error;
use crate::utils::grid::lemma_offset;

verus! {

/// The `n` cells from index `from` on written in a line, each followed by a
/// space.
pub open spec fn line_spec(cells: Seq<String>, from: int, n: nat) -> Seq<char>
    decreases n,
{
    if n == 0 {
        Seq::empty()
    } else {
        line_spec(cells, from, (n - 1) as nat) + cells[from + n - 1]@ + seq![' ']
    }
}

/// The first `rows` rows of a grid of `cols` columns whose cells are given
/// row after row: each row is written in a line and ended by a line feed.
pub open spec fn grid_spec(cells: Seq<String>, cols: nat, rows: nat) -> Seq<char>
    decreases rows,
{
    if rows == 0 {
        Seq::empty()
    } else {
        grid_spec(cells, cols, (rows - 1) as nat) + line_spec(cells, (rows - 1) * cols, cols)
            + seq!['\n']
    }
}

/// Adds to `text` the `n` cells from index `from` on, each followed by a
/// space.
fn append_line(text: &mut String, cells: &Vec<String>, from: usize, n: usize)
    requires
        from + n <= cells.len(),
    ensures
        final(text)@ == old(text)@ + line_spec(cells@, from as int, n as nat),
{
    let ghost start = text@;
    let mut k: usize = 0;
    while k < n
        invariant
            k <= n,
            from + n <= cells.len(),
            text@ == start + line_spec(cells@, from as int, k as nat),
        decreases n - k,
    {
        let ghost before = text@;
        text.append(cells[from + k].as_str());
        text.append(" ");
        proof {
            reveal_strlit(" ");
            assert(text@ =~= before + (cells@[from + k]@ + seq![' ']));
            assert(text@ =~= start + line_spec(cells@, from as int, (k + 1) as nat));
        }
        k += 1;
    }
    assert(text@ =~= start + line_spec(cells@, from as int, n as nat));
}

/// The cells written in one line, each followed by a space.
pub fn line(cells: &Vec<String>) -> (text: String)
    ensures
        text@ == line_spec(cells@, 0, cells@.len()),
{
    let mut text: String = String::new();
    append_line(&mut text, cells, 0, cells.len());
    assert(text@ =~= line_spec(cells@, 0, cells@.len()));
    text
}

/// A grid of `rows` rows and `cols` columns, whose cells are given row after
/// row, written out: each row in a line of its own, each cell followed by a
/// space. Refused when there are not exactly `rows * cols` cells.
pub fn grid(rows: usize, cols: usize, cells: &Vec<String>) -> (r: Result<String, Error>)
    ensures
        match r {
            Ok(text) => cells.len() == rows * cols && text@ == grid_spec(
                cells@,
                cols as nat,
                rows as nat,
            ),
            Err(e) => cells.len() != rows * cols && e == Error::DimensionMismatch,
        },
{
    match rows.checked_mul(cols) {
        Some(n) => {
            if n != cells.len() {
                return Err(Error::DimensionMismatch);
            }
        },
        None => {
            return Err(Error::DimensionMismatch);
        },
    }
    let mut text: String = String::new();
    let mut i: usize = 0;
    while i < rows
        invariant
            i <= rows,
            cells.len() == rows * cols,
            text@ == grid_spec(cells@, cols as nat, i as nat),
        decreases rows - i,
    {
        let ghost before = text@;
        proof {
            if cols > 0 {
                lemma_offset(rows as int, cols as int, i as int, 0);
                lemma_offset(rows as int, cols as int, i as int, cols - 1);
            } else {
                assert(i * cols == 0) by (nonlinear_arith)
                    requires
                        cols == 0,
                ;
            }
        }
        append_line(&mut text, cells, i * cols, cols);
        text.append("\n");
        proof {
            reveal_strlit("\n");
            assert(text@ =~= before + line_spec(cells@, i * cols, cols as nat) + seq!['\n']);
        }
        i += 1;
    }
    Ok(text)
}

} // verus!
