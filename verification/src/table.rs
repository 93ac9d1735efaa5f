//! A table of words that grows by rows, kept in an array of `ndarray`.
//!
//! What is known of the array is what the functions of this module state of
//! it; nothing here is proved. The rest of the library sees a table as the
//! sequence of its rows.

use vstd::prelude::*;

verus! {

/// A table of 64-bit words: rows of equal length, one below the other.
#[verifier::external_body]
pub struct Table {
    data: ndarray::Array2<u64>,
}

/// The rows of a table, oldest first.
pub uninterp spec fn table_rows(t: Table) -> Seq<Seq<u64>>;

/// The number of columns that a table was made with.
pub uninterp spec fn table_width(t: Table) -> nat;

/// `ndarray::Array2::zeros` with the shape `(0, width)` makes an array of no
/// rows and `width` columns. It panics where the shape is beyond
/// `isize::MAX`, which the condition leaves out.
#[verifier::external_body]
pub(crate) fn table_new(width: usize) -> (r: Table)
    requires
        width <= isize::MAX,
    ensures
        table_rows(r).len() == 0,
        table_width(r) == width,
{
    Table { data: ndarray::Array2::zeros((0, width)) }
}

/// `ndarray::Array2::nrows` gives the number of rows of the array.
#[verifier::external_body]
pub(crate) fn table_len(t: &Table) -> (r: usize)
    ensures
        r == table_rows(*t).len(),
{
    t.data.nrows()
}

/// `ndarray::Array2::push_row` clones the elements of the given row and adds
/// them as a new last row; the rows before stay. It fails where the row has
/// not the length of the rows of the array, and where the array would hold
/// more than `isize::MAX` elements; the conditions leave both out, and with
/// them the point at which the bytes of the array, or of the room that it
/// takes ahead, which is at most twice as much, pass `isize::MAX`.
#[verifier::external_body]
pub(crate) fn table_push(t: &mut Table, row: &Vec<u64>)
    requires
        row.len() == table_width(*old(t)),
        table_rows(*old(t)).len() < isize::MAX,
        (table_rows(*old(t)).len() + 1) * table_width(*old(t)) * 16 <= isize::MAX,
    ensures
        table_rows(*final(t)) == table_rows(*old(t)).push(row@),
        table_width(*final(t)) == table_width(*old(t)),
{
    t.data.push_row(ndarray::ArrayView1::from(row.as_slice())).unwrap();
}

/// Indexing an `ndarray::Array2` with `[[i, j]]` gives the element of row
/// `i` in column `j`. It panics where the row or the column is not there,
/// which the conditions leave out.
#[verifier::external_body]
pub(crate) fn table_get(t: &Table, i: usize, j: usize) -> (r: u64)
    requires
        i < table_rows(*t).len(),
        j < table_width(*t),
    ensures
        r == table_rows(*t)[i as int][j as int],
{
    t.data[[i, j]]
}

} // verus!
