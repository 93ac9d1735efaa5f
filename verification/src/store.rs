//! Stored samples: a headed table that grows by one row per step, up to a
//! fixed ceiling, and the text form of such a table.
//!
//! The rows are kept in an array of `ndarray`; this module decides what goes
//! into it and what comes out of it.

use vstd::prelude::*;
use vstd::string::*;
use crate::table::{table_get, table_len, table_new, table_push, table_rows, table_width, Table};

verus! {

/// The ceiling of a table of samples: a table holds fewer rows than this.
pub const MAX_ARRAY_LEN: usize = 500000;

/// Why a table of samples refused.
#[derive(Debug, Clone, Copy, PartialEq, Eq, Structural)]
pub enum StoreError {
    /// The table is full: one more row would reach the ceiling.
    Full,
    /// The row has not as many values as the table has columns.
    Width { expected: usize, found: usize },
    /// The rows asked for are not rows of the table.
    Range { first: usize, end: usize, rows: usize },
    /// The column asked for is no column of the table.
    Column { column: usize, columns: usize },
}

/// The rows of a table as a sequence of sequences.
pub open spec fn rows_view<T>(data: Seq<Vec<T>>) -> Seq<Seq<T>> {
    Seq::new(data.len(), |i: int| data[i]@)
}

/// The table cut to the rows from `first` up to `end`, and to the given
/// columns in the given order.
pub open spec fn cut<T>(rows: Seq<Seq<T>>, first: int, end: int, columns: Seq<usize>) -> Seq<
    Seq<T>,
> {
    Seq::new(
        (end - first) as nat,
        |i: int| Seq::new(columns.len(), |j: int| rows[first + i][columns[j] as int]),
    )
}

/// The first of `columns` that is no column of a table with `width` columns.
pub open spec fn first_bad_column(columns: Seq<usize>, width: int) -> Option<int>
    decreases columns.len(),
{
    if columns.len() == 0 {
        None
    } else {
        match first_bad_column(columns.drop_last(), width) {
            Some(c) => Some(c),
            None => if columns.last() >= width {
                Some(columns.last() as int)
            } else {
                None
            },
        }
    }
}

proof fn lemma_first_bad_column(columns: Seq<usize>, width: int)
    ensures
        first_bad_column(columns, width) is None <==> forall|j: int|
            0 <= j < columns.len() ==> columns[j] < width,
    decreases columns.len(),
{
    if columns.len() > 0 {
        lemma_first_bad_column(columns.drop_last(), width);
        if first_bad_column(columns.drop_last(), width) is None && columns.last() < width {
            assert forall|j: int| 0 <= j < columns.len() implies columns[j] < width by {
                if j < columns.len() - 1 {
                    assert(columns.drop_last()[j] == columns[j]);
                }
            }
        } else if first_bad_column(columns.drop_last(), width) is Some {
            let j = choose|j: int| 0 <= j < columns.len() - 1 && !(columns.drop_last()[j] < width);
            assert(columns[j] == columns.drop_last()[j]);
        }
    }
}

proof fn lemma_bad_column_stays(columns: Seq<usize>, width: int, k: int)
    requires
        0 <= k <= columns.len(),
        first_bad_column(columns.take(k), width) is Some,
    ensures
        first_bad_column(columns, width) == first_bad_column(columns.take(k), width),
    decreases columns.len() - k,
{
    if k == columns.len() {
        assert(columns.take(k) =~= columns);
    } else {
        assert(columns.take(k + 1).drop_last() =~= columns.take(k));
        lemma_bad_column_stays(columns, width, k + 1);
    }
}

/// Whether a table of the given width stays, up to its ceiling, within what
/// the machine can address.
pub open spec fn fits(width: int) -> bool {
    width * MAX_ARRAY_LEN * 16 <= isize::MAX
}

proof fn lemma_fits(width: int, rows: int)
    requires
        0 <= width,
        0 <= rows < MAX_ARRAY_LEN,
        fits(width),
    ensures
        width <= isize::MAX,
        (rows + 1) * width * 16 <= isize::MAX,
{
    assert((rows + 1) * width * 16 <= width * MAX_ARRAY_LEN * 16) by (nonlinear_arith)
        requires
            0 <= width,
            0 <= rows + 1 <= MAX_ARRAY_LEN,
    ;
    assert(width <= width * MAX_ARRAY_LEN * 16) by (nonlinear_arith)
        requires
            0 <= width,
            MAX_ARRAY_LEN >= 1,
    ;
}

/// Tells whether a table of the given width stays within what the machine
/// can address.
pub fn width_fits(num_variables: usize) -> (r: bool)
    ensures
        r == fits(num_variables as int),
{
    let most: usize = (isize::MAX as usize) / (MAX_ARRAY_LEN * 16);
    proof {
        let c: int = MAX_ARRAY_LEN * 16;
        let top: int = isize::MAX as int;
        assert(c == 8_000_000);
        assert(top == most * c + top % c && 0 <= top % c < c) by {
            vstd::arithmetic::div_mod::lemma_fundamental_div_mod(top, c);
        }
        if num_variables <= most {
            assert(num_variables * c <= most * c) by (nonlinear_arith)
                requires
                    0 <= num_variables <= most,
                    c >= 0,
            ;
        } else {
            assert(num_variables * c >= (most + 1) * c) by (nonlinear_arith)
                requires
                    num_variables >= most + 1,
                    c >= 0,
            ;
        }
        assert(num_variables * MAX_ARRAY_LEN * 16 == num_variables * c) by (nonlinear_arith)
            requires
                c == MAX_ARRAY_LEN * 16,
        ;
    }
    num_variables <= most
}

/// A headed table of samples: one row per step, one column per variable.
///
/// A sample is a number that was measured. The table keeps the 64 bits of
/// the number as a word; it never computes with a sample, it keeps it and
/// hands it back.
pub struct StoreData {
    header: String,
    num_variables: usize,
    data: Table,
}

impl StoreData {
    /// The header line, which names the columns.
    pub closed spec fn header_view(&self) -> Seq<char> {
        self.header@
    }

    /// How many columns the table has.
    pub closed spec fn width(&self) -> int {
        self.num_variables as int
    }

    /// The rows of the table, oldest first.
    pub closed spec fn rows(&self) -> Seq<Seq<u64>> {
        table_rows(self.data)
    }

    /// The table was made with as many columns as it has.
    pub closed spec fn made_to_width(&self) -> bool {
        table_width(self.data) == self.num_variables
    }

    /// Every row has one value per column, and the table is below its
    /// ceiling and within what the machine can address.
    pub open spec fn wf(&self) -> bool {
        &&& self.made_to_width()
        &&& fits(self.width())
        &&& self.rows().len() < MAX_ARRAY_LEN
        &&& forall|i: int| 0 <= i < self.rows().len() ==> (#[trigger] self.rows()[i]).len()
            == self.width()
    }

    /// Makes an empty table with the given header and number of columns.
    pub fn new(header: &str, num_variables: usize) -> (r: StoreData)
        requires
            fits(num_variables as int),
        ensures
            r.wf(),
            r.header_view() == header@,
            r.width() == num_variables,
            r.rows().len() == 0,
    {
        proof {
            lemma_fits(num_variables as int, 0);
        }
        StoreData { header: header.to_owned(), num_variables, data: table_new(num_variables) }
    }

    /// The header line.
    pub fn header(&self) -> (r: &str)
        ensures
            r@ == self.header_view(),
    {
        self.header.as_str()
    }

    /// The number of columns.
    pub fn num_variables(&self) -> (r: usize)
        ensures
            r == self.width(),
    {
        self.num_variables
    }

    /// The number of rows stored so far.
    pub fn last_index(&self) -> (r: usize)
        ensures
            r == self.rows().len(),
    {
        table_len(&self.data)
    }

    /// Tells whether the table takes the given row: whether it is not full and
    /// the row has one value per column.
    pub fn accepts(&self, data: &Vec<u64>) -> (r: Result<(), StoreError>)
        ensures
            r == self.admission(data@.len()),
    {
        if table_len(&self.data) >= MAX_ARRAY_LEN - 1 {
            return Err(StoreError::Full);
        }
        if data.len() != self.num_variables {
            return Err(StoreError::Width { expected: self.num_variables, found: data.len() });
        }
        Ok(())
    }

    /// Whether a row of `len` values is taken, and if not, why not.
    pub open spec fn admission(&self, len: nat) -> Result<(), StoreError> {
        if self.rows().len() >= MAX_ARRAY_LEN - 1 {
            Err(StoreError::Full)
        } else if len != self.width() {
            Err(StoreError::Width { expected: self.width() as usize, found: len as usize })
        } else {
            Ok(())
        }
    }

    /// Appends one row. A full table refuses, and so does a row of the wrong
    /// width; the table is then unchanged. Nothing is ever dropped in silence.
    pub fn add_data(&mut self, data: Vec<u64>) -> (r: Result<(), StoreError>)
        requires
            old(self).wf(),
        ensures
            final(self).wf(),
            final(self).header_view() == old(self).header_view(),
            final(self).width() == old(self).width(),
            r == old(self).admission(data@.len()),
            match r {
                Ok(_) => final(self).rows() == old(self).rows().push(data@),
                Err(_) => final(self).rows() == old(self).rows(),
            },
    {
        match self.accepts(&data) {
            Err(e) => Err(e),
            Ok(_) => {
                proof {
                    lemma_fits(self.width(), self.rows().len() as int);
                }
                table_push(&mut self.data, &data);
                Ok(())
            },
        }
    }

    /// Copies out the rows from `rows_range.0` up to `rows_range.1`, cut to the
    /// given columns in the given order. The range must lie within the stored
    /// rows and every column within the table; the range is tested first, and
    /// of several wrong columns the first is reported.
    pub fn get_data(&self, rows_range: (usize, usize), columns: &Vec<usize>) -> (r: Result<
        Vec<Vec<u64>>,
        StoreError,
    >)
        requires
            self.wf(),
        ensures
            match r {
                Ok(table) => {
                    &&& rows_range.0 <= rows_range.1 <= self.rows().len()
                    &&& first_bad_column(columns@, self.width()) is None
                    &&& rows_view(table@) == cut(
                        self.rows(),
                        rows_range.0 as int,
                        rows_range.1 as int,
                        columns@,
                    )
                },
                Err(e) => if !(rows_range.0 <= rows_range.1 <= self.rows().len()) {
                    e == (StoreError::Range {
                        first: rows_range.0,
                        end: rows_range.1,
                        rows: self.rows().len() as usize,
                    })
                } else {
                    first_bad_column(columns@, self.width()) matches Some(c) && e == (
                    StoreError::Column { column: c as usize, columns: self.width() as usize })
                },
            },
    {
        let first = rows_range.0;
        let end = rows_range.1;
        let stored = table_len(&self.data);
        if first > end || end > stored {
            return Err(StoreError::Range { first, end, rows: stored });
        }
        let m: usize = columns.len();
        let mut j: usize = 0;
        while j < m
            invariant
                m == columns.len(),
                j <= m,
                first <= end <= self.rows().len(),
                first == rows_range.0,
                end == rows_range.1,
                first_bad_column(columns@.take(j as int), self.width()) is None,
            decreases m - j,
        {
            proof {
                assert(columns@.take(j + 1).drop_last() =~= columns@.take(j as int));
                assert(columns@.take(j + 1).last() == columns[j as int]);
            }
            if columns[j] >= self.num_variables {
                proof {
                    lemma_bad_column_stays(columns@, self.width(), j + 1);
                }
                return Err(
                    StoreError::Column { column: columns[j], columns: self.num_variables },
                );
            }
            j = j + 1;
        }
        proof {
            assert(columns@.take(m as int) =~= columns@);
            lemma_first_bad_column(columns@, self.width());
        }
        let mut table: Vec<Vec<u64>> = Vec::new();
        let mut i: usize = first;
        while i < end
            invariant
                self.wf(),
                first <= i <= end <= self.rows().len(),
                m == columns.len(),
                forall|j: int| 0 <= j < columns.len() ==> columns[j] < self.width(),
                table.len() == i - first,
                forall|a: int|
                    0 <= a < table.len() ==> (#[trigger] table[a])@ == Seq::new(
                        columns@.len(),
                        |j: int| self.rows()[first + a][columns[j] as int],
                    ),
            decreases end - i,
        {
            let mut row: Vec<u64> = Vec::new();
            let mut j: usize = 0;
            while j < m
                invariant
                    self.wf(),
                    m == columns.len(),
                    j <= m,
                    0 <= i < self.rows().len(),
                    forall|j: int| 0 <= j < columns.len() ==> columns[j] < self.width(),
                    row.len() == j,
                    forall|b: int|
                        0 <= b < j ==> row[b] == self.rows()[i as int][columns[b] as int],
                decreases m - j,
            {
                row.push(table_get(&self.data, i, columns[j]));
                j = j + 1;
            }
            assert(row@ =~= Seq::new(
                columns@.len(),
                |j: int| self.rows()[i as int][columns[j] as int],
            ));
            table.push(row);
            i = i + 1;
        }
        assert(rows_view(table@) =~= cut(self.rows(), first as int, end as int, columns@));
        Ok(table)
    }

    /// Empties the table. Header and columns stay.
    pub fn reset_data(&mut self)
        requires
            old(self).wf(),
        ensures
            final(self).wf(),
            final(self).rows().len() == 0,
            final(self).header_view() == old(self).header_view(),
            final(self).width() == old(self).width(),
    {
        proof {
            lemma_fits(self.width(), 0);
        }
        self.data = table_new(self.num_variables);
    }
}

/// One row of a table as text: the cells parted by tabs, and a line feed at
/// the end. A row without cells is empty text.
pub open spec fn row_text(cells: Seq<Seq<char>>) -> Seq<char>
    decreases cells.len(),
{
    if cells.len() == 0 {
        Seq::empty()
    } else if cells.len() == 1 {
        cells[0].push('\n')
    } else {
        cells[0].push('\t') + row_text(cells.drop_first())
    }
}

/// The rows of a table as text, one after the other.
pub open spec fn rows_text(rows: Seq<Seq<Seq<char>>>) -> Seq<char>
    decreases rows.len(),
{
    if rows.len() == 0 {
        Seq::empty()
    } else {
        rows_text(rows.drop_last()) + row_text(rows.last())
    }
}

/// A table as text: the header line, then the rows.
pub open spec fn table_text(header: Seq<char>, rows: Seq<Seq<Seq<char>>>) -> Seq<char> {
    header.push('\n') + rows_text(rows)
}

/// The cells of a table of texts.
pub open spec fn cells_view(rows: Seq<Vec<String>>) -> Seq<Seq<Seq<char>>> {
    Seq::new(rows.len(), |i: int| rows[i].deep_view())
}

proof fn lemma_row_text_tail(cells: Seq<Seq<char>>, k: int)
    requires
        0 <= k < cells.len(),
    ensures
        row_text(cells.skip(k)) == if k == cells.len() - 1 {
            cells[k].push('\n')
        } else {
            cells[k].push('\t') + row_text(cells.skip(k + 1))
        },
{
    let tail = cells.skip(k);
    assert(tail[0] == cells[k]);
    if k < cells.len() - 1 {
        assert(tail.drop_first() =~= cells.skip(k + 1));
    }
}

/// Writes a table as text: the header line, then one line per row, with a tab
/// between the cells of a row.
pub fn render_table(header: &str, rows: &Vec<Vec<String>>) -> (r: String)
    ensures
        r@ == table_text(header@, cells_view(rows@)),
{
    let mut out = header.to_owned();
    out.push('\n');
    let n: usize = rows.len();
    let mut i: usize = 0;
    assert(cells_view(rows@).take(0) =~= Seq::empty());
    while i < n
        invariant
            n == rows.len(),
            i <= n,
            out@ == header@.push('\n') + rows_text(cells_view(rows@).take(i as int)),
        decreases n - i,
    {
        let row = &rows[i];
        let ghost cells = row.deep_view();
        let ghost start = out@;
        let m: usize = row.len();
        let mut j: usize = 0;
        assert(cells.skip(0) =~= cells);
        while j < m
            invariant
                m == row.len(),
                j <= m,
                cells == row.deep_view(),
                start + row_text(cells) == out@ + row_text(cells.skip(j as int)),
            decreases m - j,
        {
            proof {
                lemma_row_text_tail(cells, j as int);
            }
            let ghost was = out@;
            out.append(row[j].as_str());
            if j + 1 < m {
                out.push('\t');
                assert(out@ + row_text(cells.skip(j + 1)) =~= was + (cells[j as int].push('\t')
                    + row_text(cells.skip(j + 1))));
            } else {
                out.push('\n');
                assert(cells.skip(j + 1) =~= Seq::empty());
                assert(out@ + row_text(cells.skip(j + 1)) =~= was + cells[j as int].push('\n'));
            }
            j = j + 1;
        }
        proof {
            assert(cells.skip(m as int) =~= Seq::empty());
            assert(out@ =~= start + row_text(cells));
            let done = cells_view(rows@).take(i + 1);
            assert(done.drop_last() =~= cells_view(rows@).take(i as int));
            assert(done.last() == cells);
            assert(out@ =~= header@.push('\n') + rows_text(done));
        }
        i = i + 1;
    }
    assert(cells_view(rows@).take(n as int) =~= cells_view(rows@));
    out
}

} // verus!
