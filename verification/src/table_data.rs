//! Edits of a table's cells, rows and columns.
//!
//! Rows are also addressed by their visual index: the header is row 0 and the
//! body rows follow it.

use crate::blocks;
use crate::blocks::{InlineFragment, InlineTextTree, TableColumnAlignment, TableData, TableView};
use vstd::prelude::*;

verus! {

/// The title of an empty cell.
pub open spec fn empty_cell() -> blocks::Title {
    blocks::plain_title(Seq::empty())
}

/// A row of empty cells.
pub open spec fn empty_row(columns: nat) -> Seq<blocks::Title> {
    Seq::new(columns, |j: int| empty_cell())
}

/// Whether every row has as many cells as the header, and every column an
/// alignment and, if widths are set, a width.
pub open spec fn rectangular(table: TableView) -> bool {
    &&& table.alignments.len() == table.header.len()
    &&& forall|i: int|
        0 <= i < table.rows.len() ==> (#[trigger] table.rows[i]).len() == table.header.len()
    &&& table.widths matches Some(widths) ==> widths.len() == table.header.len()
}

/// The table with a further column of empty cells. Its columns share the width
/// evenly again.
pub open spec fn with_column(table: TableView, alignment: TableColumnAlignment) -> TableView {
    TableView {
        header: table.header.push(empty_cell()),
        alignments: table.alignments.push(alignment),
        rows: Seq::new(table.rows.len(), |i: int| table.rows[i].push(empty_cell())),
        widths: None,
    }
}

/// The table with a further row of empty cells.
pub open spec fn with_row(table: TableView) -> TableView {
    TableView { rows: table.rows.push(empty_row(table.header.len())), ..table }
}

/// The table with the alignment of one column changed.
pub open spec fn with_alignment(
    table: TableView,
    column: int,
    alignment: TableColumnAlignment,
) -> TableView {
    if 0 <= column < table.alignments.len() {
        TableView { alignments: table.alignments.update(column, alignment), ..table }
    } else {
        table
    }
}

/// The row at a visual index.
pub open spec fn visual_row(table: TableView, row: int) -> Seq<blocks::Title> {
    if row == 0 {
        table.header
    } else {
        table.rows[row - 1]
    }
}

/// The table with the row at a visual index replaced.
pub open spec fn with_visual_row(
    table: TableView,
    row: int,
    cells: Seq<blocks::Title>,
) -> TableView {
    if row == 0 {
        TableView { header: cells, ..table }
    } else {
        TableView { rows: table.rows.update(row - 1, cells), ..table }
    }
}

/// The table with two rows, given by their visual indices, exchanged.
pub open spec fn with_rows_swapped(table: TableView, a: int, b: int) -> TableView {
    if 0 <= a <= table.rows.len() && 0 <= b <= table.rows.len() {
        with_visual_row(with_visual_row(table, a, visual_row(table, b)), b, visual_row(table, a))
    } else {
        table
    }
}

/// A sequence with two elements exchanged.
pub open spec fn swapped<T>(s: Seq<T>, a: int, b: int) -> Seq<T> {
    if 0 <= a < s.len() && 0 <= b < s.len() {
        s.update(a, s[b]).update(b, s[a])
    } else {
        s
    }
}

/// The table with two columns exchanged.
pub open spec fn with_columns_swapped(table: TableView, a: int, b: int) -> TableView {
    TableView {
        header: swapped(table.header, a, b),
        alignments: swapped(table.alignments, a, b),
        rows: Seq::new(table.rows.len(), |i: int| swapped(table.rows[i], a, b)),
        widths: match table.widths {
            Some(widths) => Some(swapped(widths, a, b)),
            None => None,
        },
    }
}

/// A sequence without one element.
pub open spec fn without<T>(s: Seq<T>, at: int) -> Seq<T> {
    if 0 <= at < s.len() {
        s.remove(at)
    } else {
        s
    }
}

/// The table without one body row.
pub open spec fn without_row(table: TableView, row: int) -> TableView {
    TableView { rows: without(table.rows, row), ..table }
}

/// The table with the first body row as its header.
pub open spec fn without_header(table: TableView) -> TableView {
    if table.rows.len() > 0 {
        TableView { header: table.rows[0], rows: table.rows.remove(0), ..table }
    } else {
        table
    }
}

/// The table without one column. Its columns share the width evenly again.
pub open spec fn without_column(table: TableView, column: int) -> TableView {
    TableView {
        header: without(table.header, column),
        alignments: without(table.alignments, column),
        rows: Seq::new(table.rows.len(), |i: int| without(table.rows[i], column)),
        widths: None,
    }
}

/// A table of empty cells.
pub open spec fn empty_table(body_rows: nat, columns: nat) -> TableView {
    TableView {
        header: empty_row(columns),
        alignments: Seq::new(columns, |j: int| TableColumnAlignment::Default),
        rows: Seq::new(body_rows, |i: int| empty_row(columns)),
        widths: None,
    }
}

// ---------------------------------------------------------------------------
// Laws
// ---------------------------------------------------------------------------

/// Exchanging two rows twice restores the table.
pub proof fn swapping_rows_twice_restores_the_table(table: TableView, a: int, b: int)
    ensures
        with_rows_swapped(with_rows_swapped(table, a, b), a, b) == table,
{
    let once = with_rows_swapped(table, a, b);
    if 0 <= a <= table.rows.len() && 0 <= b <= table.rows.len() {
        let twice = with_rows_swapped(once, a, b);
        assert(twice.rows =~= table.rows);
        assert(twice.header =~= table.header);
    }
}

/// Exchanging two columns twice restores the table.
pub proof fn swapping_columns_twice_restores_the_table(table: TableView, a: int, b: int)
    ensures
        with_columns_swapped(with_columns_swapped(table, a, b), a, b) == table,
{
    let once = with_columns_swapped(table, a, b);
    let twice = with_columns_swapped(once, a, b);
    assert(twice.header =~= table.header);
    assert(twice.alignments =~= table.alignments);
    assert forall|i: int| 0 <= i < table.rows.len() implies twice.rows[i] == table.rows[i] by {
        assert(twice.rows[i] =~= table.rows[i]);
    }
    assert(twice.rows =~= table.rows);
    if let Some(widths) = table.widths {
        assert(swapped(swapped(widths, a, b), a, b) =~= widths);
    }
}

/// Removing a row that was just added restores the table.
pub proof fn removing_an_added_row_restores_the_table(table: TableView)
    ensures
        without_row(with_row(table), table.rows.len() as int) == table,
{
    assert(without_row(with_row(table), table.rows.len() as int).rows =~= table.rows);
}

/// Removing a column that was just added restores a table without set widths.
pub proof fn removing_an_added_column_restores_the_table(
    table: TableView,
    alignment: TableColumnAlignment,
)
    requires
        rectangular(table),
        table.widths is None,
    ensures
        without_column(with_column(table, alignment), table.header.len() as int) == table,
{
    let back = without_column(with_column(table, alignment), table.header.len() as int);
    assert(back.header =~= table.header);
    assert(back.alignments =~= table.alignments);
    assert forall|i: int| 0 <= i < table.rows.len() implies back.rows[i] == table.rows[i] by {
        assert(back.rows[i] =~= table.rows[i]);
    }
    assert(back.rows =~= table.rows);
}

/// Every edit of a rectangular table leaves it rectangular.
pub proof fn edits_keep_a_table_rectangular(
    table: TableView,
    a: int,
    b: int,
    alignment: TableColumnAlignment,
)
    requires
        rectangular(table),
    ensures
        rectangular(with_column(table, alignment)),
        rectangular(with_row(table)),
        rectangular(with_alignment(table, a, alignment)),
        rectangular(with_rows_swapped(table, a, b)),
        rectangular(with_columns_swapped(table, a, b)),
        rectangular(without_row(table, a)),
        rectangular(without_header(table)),
        rectangular(without_column(table, a)),
{
    let swapped_rows = with_rows_swapped(table, a, b);
    if 0 <= a <= table.rows.len() && 0 <= b <= table.rows.len() {
        assert(visual_row(table, a).len() == table.header.len());
        assert(visual_row(table, b).len() == table.header.len());
    }
    assert forall|i: int| 0 <= i < swapped_rows.rows.len() implies (#[trigger] swapped_rows.rows[i]).len()
        == swapped_rows.header.len() by {}
    let fewer = without_row(table, a);
    assert forall|i: int| 0 <= i < fewer.rows.len() implies (#[trigger] fewer.rows[i]).len()
        == fewer.header.len() by {
        if 0 <= a < table.rows.len() && i >= a {
            assert(fewer.rows[i] == table.rows[i + 1]);
        } else {
            assert(fewer.rows[i] == table.rows[i]);
        }
    }
    let promoted = without_header(table);
    assert forall|i: int| 0 <= i < promoted.rows.len() implies (#[trigger] promoted.rows[i]).len()
        == promoted.header.len() by {
        if table.rows.len() > 0 {
            assert(promoted.rows[i] == table.rows[i + 1]);
        }
    }
}

// ---------------------------------------------------------------------------
// Running code
// ---------------------------------------------------------------------------

fn new_cell() -> (r: InlineTextTree)
    ensures
        r@ == empty_cell(),
{
    InlineTextTree::plain(String::new())
}

fn new_row(columns: usize) -> (r: Vec<InlineTextTree>)
    ensures
        blocks::titles(r@) == empty_row(columns as nat),
{
    let mut out: Vec<InlineTextTree> = Vec::new();
    let mut j: usize = 0;
    while j < columns
        invariant
            j <= columns,
            out@.len() == j,
            forall|k: int| 0 <= k < j ==> (#[trigger] out@[k])@ == empty_cell(),
        decreases columns - j,
    {
        out.push(new_cell());
        j = j + 1;
    }
    assert(blocks::titles(out@) =~= empty_row(columns as nat));
    out
}

/// Exchanges two elements, if both are there.
fn swap_elements<T>(v: &mut Vec<T>, a: usize, b: usize)
    ensures
        final(v)@ == swapped(old(v)@, a as int, b as int),
{
    let n: usize = v.len();
    if a >= n || b >= n || a == b {
        assert(v@ =~= swapped(v@, a as int, b as int));
        return;
    }
    let ghost before = v@;
    let low: usize = if a < b {
        a
    } else {
        b
    };
    let high: usize = if a < b {
        b
    } else {
        a
    };
    let second = v.remove(high);
    let first = v.remove(low);
    v.insert(low, second);
    v.insert(high, first);
    assert(v@ =~= swapped(before, a as int, b as int));
}

impl InlineTextTree {
    /// The same title again.
    pub fn duplicate(&self) -> (r: Self)
        ensures
            r@ == self@,
    {
        let mut fragments: Vec<InlineFragment<String>> = Vec::new();
        let mut i: usize = 0;
        while i < self.fragments.len()
            invariant
                i <= self.fragments@.len(),
                fragments@.len() == i,
                forall|k: int|
                    0 <= k < i ==> (#[trigger] fragments@[k])@ == self.fragments@[k]@,
            decreases self.fragments@.len() - i,
        {
            fragments.push(
                InlineFragment {
                    markdown: self.fragments[i].markdown,
                    text: self.fragments[i].text.clone(),
                },
            );
            i = i + 1;
        }
        let r = InlineTextTree { fragments };
        assert(r@ =~= self@);
        r
    }
}

/// The same titles again.
pub fn duplicate_titles(cells: &Vec<InlineTextTree>) -> (r: Vec<InlineTextTree>)
    ensures
        blocks::titles(r@) == blocks::titles(cells@),
{
    let mut out: Vec<InlineTextTree> = Vec::new();
    let mut i: usize = 0;
    while i < cells.len()
        invariant
            i <= cells@.len(),
            out@.len() == i,
            forall|k: int| 0 <= k < i ==> (#[trigger] out@[k])@ == cells@[k]@,
        decreases cells@.len() - i,
    {
        out.push(cells[i].duplicate());
        i = i + 1;
    }
    assert(blocks::titles(out@) =~= blocks::titles(cells@));
    out
}

pub(crate) fn duplicate_values<T: Copy>(values: &Vec<T>) -> (r: Vec<T>)
    ensures
        r@ == values@,
{
    let mut out: Vec<T> = Vec::new();
    let mut i: usize = 0;
    while i < values.len()
        invariant
            i <= values@.len(),
            out@ == values@.take(i as int),
        decreases values@.len() - i,
    {
        out.push(values[i]);
        i = i + 1;
    }
    assert(values@.take(i as int) =~= values@);
    out
}

impl TableData {
    /// A table of empty cells.
    pub fn new_empty(body_rows: usize, columns: usize) -> (r: Self)
        ensures
            r@ == empty_table(body_rows as nat, columns as nat),
    {
        let mut rows: Vec<Vec<InlineTextTree>> = Vec::new();
        let mut i: usize = 0;
        while i < body_rows
            invariant
                i <= body_rows,
                rows@.len() == i,
                forall|k: int|
                    0 <= k < i ==> blocks::titles((#[trigger] rows@[k])@) == empty_row(
                        columns as nat,
                    ),
            decreases body_rows - i,
        {
            rows.push(new_row(columns));
            i = i + 1;
        }
        let mut alignments: Vec<TableColumnAlignment> = Vec::new();
        let mut j: usize = 0;
        while j < columns
            invariant
                j <= columns,
                alignments@.len() == j,
                forall|k: int|
                    0 <= k < j ==> #[trigger] alignments@[k] == TableColumnAlignment::Default,
            decreases columns - j,
        {
            alignments.push(TableColumnAlignment::Default);
            j = j + 1;
        }
        let r = TableData { header: new_row(columns), alignments, rows, widths: None };
        proof {
            let want = empty_table(body_rows as nat, columns as nat);
            assert(r@.rows =~= want.rows);
            assert(r@.alignments =~= want.alignments);
        }
        r
    }

    /// The same table again.
    pub fn duplicate(&self) -> (r: Self)
        ensures
            r@ == self@,
    {
        let mut rows: Vec<Vec<InlineTextTree>> = Vec::new();
        let mut i: usize = 0;
        while i < self.rows.len()
            invariant
                i <= self.rows@.len(),
                rows@.len() == i,
                forall|k: int|
                    0 <= k < i ==> blocks::titles((#[trigger] rows@[k])@) == blocks::titles(
                        self.rows@[k]@,
                    ),
            decreases self.rows@.len() - i,
        {
            rows.push(duplicate_titles(&self.rows[i]));
            i = i + 1;
        }
        let widths = match &self.widths {
            Some(w) => Some(duplicate_values(w)),
            None => None,
        };
        let r = TableData {
            header: duplicate_titles(&self.header),
            alignments: duplicate_values(&self.alignments),
            rows,
            widths,
        };
        assert(r@.rows =~= self@.rows);
        r
    }

    /// How many columns the table has.
    pub fn column_count(&self) -> (r: usize)
        ensures
            r == self@.header.len(),
    {
        self.header.len()
    }

    /// Adds a column of empty cells.
    pub fn append_column(&mut self, alignment: TableColumnAlignment)
        ensures
            final(self)@ == with_column(old(self)@, alignment),
    {
        let ghost before = self@;
        self.header.push(new_cell());
        self.alignments.push(alignment);
        self.widths = None;
        assert(self@.header =~= before.header.push(empty_cell()));
        let mut i: usize = 0;
        let ghost rows0 = self.rows@;
        while i < self.rows.len()
            invariant
                i <= self.rows@.len(),
                self.rows@.len() == rows0.len(),
                self@.header == before.header.push(empty_cell()),
                self.alignments@ == before.alignments.push(alignment),
                self.widths is None,
                forall|k: int|
                    0 <= k < i ==> blocks::titles((#[trigger] self.rows@[k])@) == blocks::titles(
                        rows0[k]@,
                    ).push(empty_cell()),
                forall|k: int| i <= k < rows0.len() ==> #[trigger] self.rows@[k] == rows0[k],
            decreases self.rows@.len() - i,
        {
            let ghost row0 = self.rows@[i as int]@;
            let cell = new_cell();
            self.rows[i].push(cell);
            assert(blocks::titles(self.rows@[i as int]@) =~= blocks::titles(row0).push(
                empty_cell(),
            ));
            i = i + 1;
        }
        proof {
            let want = with_column(before, alignment);
            assert(self@.header =~= want.header);
            assert(self@.rows =~= want.rows);
        }
    }

    /// Adds a row of empty cells.
    pub fn append_row(&mut self)
        ensures
            final(self)@ == with_row(old(self)@),
    {
        let ghost before = self@;
        let row = new_row(self.header.len());
        self.rows.push(row);
        assert(self@.rows =~= with_row(before).rows);
    }

    /// Sets the alignment of a column, if it is there.
    pub fn set_column_alignment(&mut self, column: usize, alignment: TableColumnAlignment)
        ensures
            final(self)@ == with_alignment(old(self)@, column as int, alignment),
    {
        if column < self.alignments.len() {
            self.alignments.set(column, alignment);
        }
    }

    /// Sets the widths of the columns.
    pub fn set_column_widths(&mut self, widths: Vec<u32>)
        ensures
            final(self)@ == (TableView { widths: Some(widths@), ..old(self)@ }),
    {
        self.widths = Some(widths);
    }

    /// Exchanges two rows given by their visual indices.
    pub fn swap_visual_rows(&mut self, a: usize, b: usize)
        ensures
            final(self)@ == with_rows_swapped(old(self)@, a as int, b as int),
    {
        let ghost before = self@;
        let ghost rows0 = self.rows@;
        let n: usize = self.rows.len();
        if a > n || b > n || a == b {
            assert(self@.rows =~= with_rows_swapped(before, a as int, b as int).rows);
            return;
        }
        if a > 0 && b > 0 {
            swap_elements(&mut self.rows, a - 1, b - 1);
            assert(self@.rows =~= with_rows_swapped(before, a as int, b as int).rows);
            return;
        }
        let body: usize = if a == 0 {
            b - 1
        } else {
            a - 1
        };
        let row = self.rows.remove(body);
        let mut header = row;
        std::mem::swap(&mut header, &mut self.header);
        self.rows.insert(body, header);
        proof {
            let want = with_rows_swapped(before, a as int, b as int);
            assert(self@.rows =~= want.rows);
            assert(self@.header =~= want.header);
        }
    }

    /// Exchanges two columns.
    pub fn swap_columns(&mut self, a: usize, b: usize)
        ensures
            final(self)@ == with_columns_swapped(old(self)@, a as int, b as int),
    {
        let ghost before = self@;
        let ghost rows0 = self.rows@;
        swap_elements(&mut self.header, a, b);
        swap_elements(&mut self.alignments, a, b);
        if let Some(widths) = &mut self.widths {
            swap_elements(widths, a, b);
        }
        assert(self@.header =~= swapped(before.header, a as int, b as int));
        let ghost header1 = self@.header;
        let ghost alignments1 = self@.alignments;
        let ghost widths1 = self@.widths;
        let mut i: usize = 0;
        while i < self.rows.len()
            invariant
                i <= self.rows@.len(),
                self.rows@.len() == rows0.len(),
                self@.header == header1,
                self@.alignments == alignments1,
                self@.widths == widths1,
                forall|k: int|
                    0 <= k < i ==> blocks::titles((#[trigger] self.rows@[k])@) == swapped(
                        blocks::titles(rows0[k]@),
                        a as int,
                        b as int,
                    ),
                forall|k: int| i <= k < rows0.len() ==> #[trigger] self.rows@[k] == rows0[k],
            decreases self.rows@.len() - i,
        {
            let ghost row0 = self.rows@[i as int]@;
            swap_elements(&mut self.rows[i], a, b);
            assert(blocks::titles(self.rows@[i as int]@) =~= swapped(
                blocks::titles(row0),
                a as int,
                b as int,
            ));
            i = i + 1;
        }
        assert(self@.rows =~= with_columns_swapped(before, a as int, b as int).rows);
    }

    /// Removes a body row, if it is there.
    pub fn remove_body_row(&mut self, row: usize)
        ensures
            final(self)@ == without_row(old(self)@, row as int),
    {
        let ghost before = self@;
        if row < self.rows.len() {
            let _removed = self.rows.remove(row);
        }
        assert(self@.rows =~= without_row(before, row as int).rows);
    }

    /// Removes the header and makes the first body row the header.
    pub fn remove_header_row(&mut self)
        ensures
            final(self)@ == without_header(old(self)@),
    {
        let ghost before = self@;
        if self.rows.len() > 0 {
            self.header = self.rows.remove(0);
        }
        assert(self@.rows =~= without_header(before).rows);
    }

    /// Removes a column, if it is there.
    pub fn remove_column(&mut self, column: usize)
        ensures
            final(self)@ == without_column(old(self)@, column as int),
    {
        let ghost before = self@;
        let ghost rows0 = self.rows@;
        if column < self.header.len() {
            let _removed = self.header.remove(column);
        }
        if column < self.alignments.len() {
            let _removed = self.alignments.remove(column);
        }
        self.widths = None;
        assert(self@.header =~= without(before.header, column as int));
        let ghost header1 = self@.header;
        let ghost alignments1 = self@.alignments;
        let mut i: usize = 0;
        while i < self.rows.len()
            invariant
                i <= self.rows@.len(),
                self.rows@.len() == rows0.len(),
                self@.header == header1,
                self@.alignments == alignments1,
                self.widths is None,
                forall|k: int|
                    0 <= k < i ==> blocks::titles((#[trigger] self.rows@[k])@) == without(
                        blocks::titles(rows0[k]@),
                        column as int,
                    ),
                forall|k: int| i <= k < rows0.len() ==> #[trigger] self.rows@[k] == rows0[k],
            decreases self.rows@.len() - i,
        {
            let ghost row0 = self.rows@[i as int]@;
            if column < self.rows[i].len() {
                let _removed = self.rows[i].remove(column);
            }
            assert(blocks::titles(self.rows@[i as int]@) =~= without(
                blocks::titles(row0),
                column as int,
            ));
            i = i + 1;
        }
        assert(self@.rows =~= without_column(before, column as int).rows);
    }
}

} // verus!
