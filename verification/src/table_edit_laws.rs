//! What each edit of a table makes of its cells, one by one.
//!
//! The laws speak of a table in the document. `i` is the place of its block, and `table`
//! is the table with what was typed into its cells.

use crate::blocks::{TableColumnAlignment, TableView, Title};
use crate::context_menu;
use crate::document;
use crate::editor::{
    EditorView, NodeView, Nodes, RuntimeView, TableAxisKind, TableAxisSelection,
    TableCellPosition,
};
use crate::history::DocumentFacts;
use crate::menus;
use crate::menus::{AxisAction, TableChange};
use crate::table_edit;
use crate::table_laws;
use crate::tables;
use vstd::prelude::*;

verus! {

// ---------------------------------------------------------------------------
// What is read of a table
// ---------------------------------------------------------------------------

/// Whether a block is a table whose cells hold, one by one, what the table holds.
pub open spec fn shows(node: NodeView, table: TableView) -> bool {
    &&& node.kind is Table
    &&& node.table == Some(table)
    &&& node.runtime matches Some(cells) && {
        &&& cells.header.len() == table.header.len()
        &&& forall|c: int|
            0 <= c < table.header.len() ==> (#[trigger] cells.header[c]).title == table.header[c]
        &&& cells.rows.len() == table.rows.len()
        &&& forall|r: int|
            0 <= r < table.rows.len() ==> (#[trigger] cells.rows[r]).len() == table.rows[r].len()
        &&& forall|r: int, c: int|
            0 <= r < table.rows.len() && 0 <= c < table.rows[r].len() ==> (
            #[trigger] cells.rows[r][c]).title == table.rows[r][c]
    }
}

/// Whether two documents hold the same blocks but for the one at `i`.
pub open spec fn others_stay(a: Nodes, b: Nodes, i: int) -> bool {
    &&& a.len() == b.len()
    &&& forall|k: int|
        0 <= k < a.len() && k != i ==> (#[trigger] b[k]).id == a[k].id && b[k].depth == a[k].depth
            && b[k].kind == a[k].kind && b[k].title == a[k].title && b[k].table == a[k].table
            && b[k].display_text == a[k].display_text
}

/// Whether a state is what an edit of the table at `i` leaves: the table is `table`, its
/// cells show it, the other blocks are as they were, and the document counts as changed.
/// The edit can be undone, unless history is being restored.
pub open spec fn table_written(
    s: EditorView,
    after: EditorView,
    i: int,
    table: TableView,
) -> bool {
    &&& shows(after.document[i], table)
    &&& after.document[i].id == s.document[i].id
    &&& after.document[i].depth == s.document[i].depth
    &&& others_stay(s.document, after.document, i)
    &&& after.window.document_dirty
    &&& !s.history.restore_in_progress ==> after.history.pending_capture is Some
    &&& after.history.undo == s.history.undo
    &&& after.history.redo == s.history.redo
}

/// Whether a cell holds no text.
pub open spec fn empty_text(cell: Title) -> bool {
    forall|f: int| 0 <= f < cell.len() ==> (#[trigger] cell[f]).text.len() == 0
}

/// The cells that are in step with a table show it.
pub proof fn lemma_shown(nodes: Nodes, id: u64, i: int, table: TableView)
    requires
        table_laws::in_step(nodes, id, i, table),
    ensures
        shows(nodes[i], table),
{
    let cells = nodes[i].runtime->0;
    let back = tables::table_from_runtime(cells, Some(table));
    assert forall|c: int| 0 <= c < table.header.len() implies (#[trigger] cells.header[c]).title
        == table.header[c] by {
        assert(back.header[c] == cells.header[c].title);
    }
    assert forall|r: int| 0 <= r < table.rows.len() implies (#[trigger] cells.rows[r]).len()
        == table.rows[r].len() by {
        assert(back.rows[r] == tables::cell_titles(cells.rows[r]));
    }
    assert forall|r: int, c: int|
        0 <= r < table.rows.len() && 0 <= c < table.rows[r].len() implies (
    #[trigger] cells.rows[r][c]).title == table.rows[r][c] by {
        assert(back.rows[r] == tables::cell_titles(cells.rows[r]));
        assert(back.rows[r][c] == cells.rows[r][c].title);
    }
}

proof fn lemma_changed(
    s: EditorView,
    id: u64,
    i: int,
    table: TableView,
    facts: DocumentFacts,
    now: u64,
)
    requires
        document::index_of(s.document, id) == Some(i),
        s.document[i].kind is Table,
    ensures
        ({
            let after = table_edit::table_changed(s, id, table, facts, now);
            &&& table_laws::in_step(after.document, id, i, table)
            &&& others_stay(s.document, after.document, i)
            &&& after.document[i].id == s.document[i].id
            &&& after.document[i].depth == s.document[i].depth
            &&& after.history == table_edit::edit_begun(s, id, facts, now).history
        }),
{
    document::lemma_index_from(s.document, id, 0);
    let begun = table_edit::edit_begun(s, id, facts, now);
    document::lemma_index_same(s.document, begun.document, id, 0);
    let replaced = tables::table_replaced(begun, id, table);
    document::lemma_index_same(begun.document, replaced.document, id, 0);
    table_laws::lemma_rebuilt_in_step(replaced, id, i, table);
    tables::lemma_rebuilt_nodes(replaced.document, replaced.next_id as int);
}

proof fn lemma_edited(
    s: EditorView,
    id: u64,
    i: int,
    table: TableView,
    axis: Option<TableAxisSelection>,
    position: TableCellPosition,
    facts: DocumentFacts,
    now: u64,
)
    requires
        document::index_of(s.document, id) == Some(i),
        s.document[i].kind is Table,
    ensures
        ({
            let after = table_edit::axis_edited(s, id, Some(table), axis, position, facts, now);
            &&& table_written(s, after, i, table)
            &&& document::index_of(after.document, id) == Some(i)
            &&& axis is None ==> after.axis.selection is None
            &&& axis matches Some(a) ==> (table_laws::axis_in(table, id, a)
                ==> after.axis.selection == axis)
        }),
{
    lemma_changed(s, id, i, table, facts, now);
    let changed = table_edit::table_changed(s, id, table, facts, now);
    let selected = tables::with_selection(changed, axis);
    let after = table_edit::axis_edited(s, id, Some(table), axis, position, facts, now);
    if changed.axis.selection != axis {
        let chosen = EditorView {
            axis: crate::editor::AxisView { selection: axis, ..changed.axis },
            ..changed
        };
        let kept = tables::axis_normalized(chosen);
        table_laws::lemma_synced_in_step(
            changed.document,
            id,
            i,
            table,
            kept.axis.preview,
            kept.axis.selection,
        );
        if let Some(a) = axis {
            assert(table_laws::axis_in(table, id, a) ==> tables::axis_valid(changed.document, a));
        }
    }
    assert(table_laws::in_step(selected.document, id, i, table));
    assert(after.document == selected.document);
    lemma_shown(after.document, id, i, table);
}

/// An edit starts from what was typed into the cells: the texts of the cells, in their
/// rows and columns, with the alignments and widths that were set.
pub proof fn edits_start_from_what_was_typed(
    s: EditorView,
    id: u64,
    i: int,
    record: TableView,
    cells: RuntimeView,
    facts: DocumentFacts,
)
    requires
        document::index_of(s.document, id) == Some(i),
        s.document[i].table == Some(record),
        s.document[i].runtime == Some(cells),
    ensures
        table_edit::typed_table(s, facts, id) matches Some(table) && {
            &&& table.header.len() == cells.header.len()
            &&& forall|c: int|
                0 <= c < cells.header.len() ==> #[trigger] table.header[c] == cells.header[c].title
            &&& table.rows.len() == cells.rows.len()
            &&& forall|r: int|
                0 <= r < cells.rows.len() ==> (#[trigger] table.rows[r]).len()
                    == cells.rows[r].len()
            &&& forall|r: int, c: int|
                0 <= r < cells.rows.len() && 0 <= c < cells.rows[r].len()
                    ==> #[trigger] table.rows[r][c] == cells.rows[r][c].title
            &&& table.alignments == record.alignments
            &&& table.widths == record.widths
        },
{
    document::lemma_index_from(s.document, id, 0);
    let synced = tables::synced_record(s, id);
    document::lemma_index_same(s.document, synced.document, id, 0);
}

// ---------------------------------------------------------------------------
// Rows
// ---------------------------------------------------------------------------

/// Deleting a body row takes out that row and no other: the rows before it stay, those
/// behind it move up by one, and the header and the columns' settings stay. The row that
/// takes its place is selected, or the last one, or none where none is left.
pub proof fn deleting_a_row_takes_out_that_row(
    s: EditorView,
    id: u64,
    i: int,
    table: TableView,
    row: usize,
    facts: DocumentFacts,
    now: u64,
)
    requires
        document::index_of(s.document, id) == Some(i),
        s.document[i].kind is Table,
        table_edit::typed_table(s, facts, id) == Some(table),
        row < table.rows.len() <= usize::MAX,
    ensures
        ({
            let after = table_edit::row_deleted(s, id, row as int, facts, now);
            let left = after.document[i].table->0;
            &&& table_written(s, after, i, left)
            &&& left.rows.len() == table.rows.len() - 1
            &&& forall|k: int| 0 <= k < row ==> #[trigger] left.rows[k] == table.rows[k]
            &&& forall|k: int|
                row <= k < left.rows.len() ==> #[trigger] left.rows[k] == table.rows[k + 1]
            &&& left.header == table.header
            &&& left.alignments == table.alignments
            &&& left.widths == table.widths
            &&& table.rows.len() == 1 ==> after.axis.selection is None
            &&& row + 1 < table.rows.len() ==> after.axis.selection == Some(
                TableAxisSelection {
                    table_block_id: id,
                    kind: TableAxisKind::Row,
                    index: (row + 1) as usize,
                },
            )
            &&& row + 1 == table.rows.len() && row > 0 ==> after.axis.selection == Some(
                TableAxisSelection { table_block_id: id, kind: TableAxisKind::Row, index: row },
            )
        }),
{
    let left = crate::table_data::without_row(table, row as int);
    let next = table_edit::row_after_deletion(table, row as int);
    lemma_edited(
        s,
        id,
        i,
        left,
        if next == 0 {
            None
        } else {
            Some(table_edit::row_axis(id, next))
        },
        table_edit::row_head(next),
        facts,
        now,
    );
    document::lemma_index_from(s.document, id, 0);
}

/// Deleting the header makes the first body row the header; the other rows move up by
/// one, and nothing is selected.
pub proof fn deleting_the_header_promotes_the_first_row(
    s: EditorView,
    id: u64,
    i: int,
    table: TableView,
    facts: DocumentFacts,
    now: u64,
)
    requires
        document::index_of(s.document, id) == Some(i),
        s.document[i].kind is Table,
        table_edit::typed_table(s, facts, id) == Some(table),
        table.rows.len() > 0,
    ensures
        ({
            let after = table_edit::header_deleted(s, id, facts, now);
            let left = after.document[i].table->0;
            &&& table_written(s, after, i, left)
            &&& left.header == table.rows[0]
            &&& left.rows.len() == table.rows.len() - 1
            &&& forall|k: int|
                0 <= k < left.rows.len() ==> #[trigger] left.rows[k] == table.rows[k + 1]
            &&& left.alignments == table.alignments
            &&& left.widths == table.widths
            &&& after.axis.selection is None
        }),
{
    let left = crate::table_data::without_header(table);
    lemma_edited(s, id, i, left, None, table_edit::row_head(0), facts, now);
    document::lemma_index_from(s.document, id, 0);
}

/// The texts of a row, the header being row 0.
pub open spec fn row_texts(table: TableView, row: int) -> Seq<Title> {
    if row == 0 {
        table.header
    } else {
        table.rows[row - 1]
    }
}

/// Moving a row exchanges it with the one it is moved to, the header being row 0. All
/// other rows and the columns' settings stay, and the row stays selected.
pub proof fn moving_a_row_exchanges_two_rows(
    s: EditorView,
    id: u64,
    i: int,
    table: TableView,
    row: usize,
    delta: int,
    facts: DocumentFacts,
    now: u64,
)
    requires
        document::index_of(s.document, id) == Some(i),
        s.document[i].kind is Table,
        table_edit::typed_table(s, facts, id) == Some(table),
        row <= table.rows.len(),
        0 <= row + delta <= table.rows.len(),
        row + delta <= usize::MAX,
    ensures
        ({
            let after = table_edit::row_moved(s, id, row as int, delta, facts, now);
            let moved = after.document[i].table->0;
            &&& table_written(s, after, i, moved)
            &&& moved.rows.len() == table.rows.len()
            &&& row_texts(moved, row + delta) == row_texts(table, row as int)
            &&& row_texts(moved, row as int) == row_texts(table, row + delta)
            &&& forall|k: int|
                0 <= k <= table.rows.len() && k != row && k != row + delta ==> #[trigger] row_texts(
                    moved,
                    k,
                ) == row_texts(table, k)
            &&& moved.alignments == table.alignments
            &&& moved.widths == table.widths
            &&& after.axis.selection == Some(
                TableAxisSelection {
                    table_block_id: id,
                    kind: TableAxisKind::Row,
                    index: (row + delta) as usize,
                },
            )
        }),
{
    let moved = crate::table_data::with_rows_swapped(table, row as int, row + delta);
    lemma_edited(
        s,
        id,
        i,
        moved,
        Some(table_edit::row_axis(id, row + delta)),
        table_edit::row_head(row + delta),
        facts,
        now,
    );
    document::lemma_index_from(s.document, id, 0);
}

/// A row that is added stands behind all others, has an empty cell in each column, and
/// leaves the rest of the table as it was. Its first cell gets the focus.
pub proof fn an_added_row_is_empty_and_last(
    s: EditorView,
    id: u64,
    i: int,
    table: TableView,
    facts: DocumentFacts,
    now: u64,
)
    requires
        document::index_of(s.document, id) == Some(i),
        s.document[i].kind is Table,
        table_edit::typed_table(s, facts, id) == Some(table),
    ensures
        ({
            let after = table_edit::row_appended(s, id, facts, now);
            let grown = after.document[i].table->0;
            let n = table.rows.len() as int;
            &&& table_written(s, after, i, grown)
            &&& grown.rows.len() == n + 1
            &&& forall|k: int| 0 <= k < n ==> #[trigger] grown.rows[k] == table.rows[k]
            &&& grown.rows[n].len() == table.header.len()
            &&& forall|c: int|
                0 <= c < table.header.len() ==> empty_text(#[trigger] grown.rows[n][c])
            &&& grown.header == table.header
            &&& grown.alignments == table.alignments
            &&& grown.widths == table.widths
            &&& table.header.len() > 0 ==> after.focus.pending_focus == Some(
                after.document[i].runtime->0.rows[n][0].id,
            )
        }),
{
    let grown = crate::table_data::with_row(table);
    lemma_changed(s, id, i, grown, facts, now);
    let after = table_edit::row_appended(s, id, facts, now);
    document::lemma_index_from(s.document, id, 0);
    assert(table_laws::in_step(after.document, id, i, grown));
    lemma_shown(after.document, id, i, grown);
}

// ---------------------------------------------------------------------------
// Columns
// ---------------------------------------------------------------------------

/// Deleting a column takes that cell out of the header and of every row, and the
/// column's alignment with it: cells before it stay, cells behind it move by one. The
/// widths are no longer set.
pub proof fn deleting_a_column_takes_out_that_column(
    s: EditorView,
    id: u64,
    i: int,
    table: TableView,
    column: usize,
    facts: DocumentFacts,
    now: u64,
)
    requires
        document::index_of(s.document, id) == Some(i),
        s.document[i].kind is Table,
        table_edit::typed_table(s, facts, id) == Some(table),
        crate::table_data::rectangular(table),
        column < table.header.len() <= usize::MAX,
        table.header.len() > 1,
    ensures
        ({
            let after = table_edit::column_deleted(s, id, column as int, facts, now);
            let left = after.document[i].table->0;
            let n = table.header.len() - 1;
            &&& table_written(s, after, i, left)
            &&& left.header.len() == n
            &&& left.alignments.len() == n
            &&& left.rows.len() == table.rows.len()
            &&& forall|c: int|
                0 <= c < n ==> #[trigger] left.header[c] == table.header[if c < column {
                    c
                } else {
                    c + 1
                }]
            &&& forall|c: int|
                0 <= c < n ==> #[trigger] left.alignments[c] == table.alignments[if c < column {
                    c
                } else {
                    c + 1
                }]
            &&& forall|r: int| 0 <= r < table.rows.len() ==> (#[trigger] left.rows[r]).len() == n
            &&& forall|r: int, c: int|
                0 <= r < table.rows.len() && 0 <= c < n ==> #[trigger] left.rows[r][c]
                    == table.rows[r][if c < column {
                    c
                } else {
                    c + 1
                }]
            &&& left.widths is None
            &&& after.axis.selection == Some(
                TableAxisSelection {
                    table_block_id: id,
                    kind: TableAxisKind::Column,
                    index: if column < n {
                        column
                    } else {
                        (column - 1) as usize
                    },
                },
            )
        }),
{
    let left = crate::table_data::without_column(table, column as int);
    let next = table_edit::column_after_deletion(table, column as int);
    lemma_edited(
        s,
        id,
        i,
        left,
        Some(table_edit::column_axis(id, next)),
        table_edit::column_head(next),
        facts,
        now,
    );
    document::lemma_index_from(s.document, id, 0);
}

/// Moving a column exchanges it with the one it is moved to, in the header, in every row
/// and in the columns' settings. All other cells stay, and the column stays selected.
pub proof fn moving_a_column_exchanges_two_columns(
    s: EditorView,
    id: u64,
    i: int,
    table: TableView,
    column: usize,
    delta: int,
    facts: DocumentFacts,
    now: u64,
)
    requires
        document::index_of(s.document, id) == Some(i),
        s.document[i].kind is Table,
        table_edit::typed_table(s, facts, id) == Some(table),
        crate::table_data::rectangular(table),
        column < table.header.len(),
        0 <= column + delta < table.header.len(),
        column + delta <= usize::MAX,
    ensures
        ({
            let after = table_edit::column_moved(s, id, column as int, delta, facts, now);
            let moved = after.document[i].table->0;
            let from = |c: int|
                if c == column {
                    column + delta
                } else if c == column + delta {
                    column as int
                } else {
                    c
                };
            &&& table_written(s, after, i, moved)
            &&& moved.header.len() == table.header.len()
            &&& moved.alignments.len() == table.header.len()
            &&& moved.rows.len() == table.rows.len()
            &&& forall|c: int|
                0 <= c < table.header.len() ==> #[trigger] moved.header[c] == table.header[from(c)]
            &&& forall|c: int|
                0 <= c < table.header.len() ==> #[trigger] moved.alignments[c]
                    == table.alignments[from(c)]
            &&& forall|r: int|
                0 <= r < table.rows.len() ==> (#[trigger] moved.rows[r]).len()
                    == table.header.len()
            &&& forall|r: int, c: int|
                0 <= r < table.rows.len() && 0 <= c < table.header.len()
                    ==> #[trigger] moved.rows[r][c] == table.rows[r][from(c)]
            &&& table.widths is None ==> moved.widths is None
            &&& table.widths matches Some(widths) ==> moved.widths matches Some(w) && w.len()
                == widths.len() && forall|c: int|
                0 <= c < widths.len() ==> #[trigger] w[c] == widths[from(c)]
            &&& after.axis.selection == Some(
                TableAxisSelection {
                    table_block_id: id,
                    kind: TableAxisKind::Column,
                    index: (column + delta) as usize,
                },
            )
        }),
{
    let moved = crate::table_data::with_columns_swapped(table, column as int, column + delta);
    lemma_edited(
        s,
        id,
        i,
        moved,
        Some(table_edit::column_axis(id, column + delta)),
        table_edit::column_head(column + delta),
        facts,
        now,
    );
    document::lemma_index_from(s.document, id, 0);
}

/// A column that is added stands behind all others, has an empty cell in the header and
/// in each row, and is aligned like the last column before it. The other cells stay; the
/// widths are no longer set. Its header cell gets the focus.
pub proof fn an_added_column_is_empty_and_last(
    s: EditorView,
    id: u64,
    i: int,
    table: TableView,
    facts: DocumentFacts,
    now: u64,
)
    requires
        document::index_of(s.document, id) == Some(i),
        s.document[i].kind is Table,
        table_edit::typed_table(s, facts, id) == Some(table),
        crate::table_data::rectangular(table),
    ensures
        ({
            let after = table_edit::column_appended(s, id, facts, now);
            let grown = after.document[i].table->0;
            let n = table.header.len() as int;
            &&& table_written(s, after, i, grown)
            &&& grown.header.len() == n + 1
            &&& grown.alignments.len() == n + 1
            &&& grown.rows.len() == table.rows.len()
            &&& forall|c: int| 0 <= c < n ==> #[trigger] grown.header[c] == table.header[c]
            &&& empty_text(grown.header[n])
            &&& forall|c: int| 0 <= c < n ==> #[trigger] grown.alignments[c] == table.alignments[c]
            &&& grown.alignments[n] == (if n > 0 {
                table.alignments[n - 1]
            } else {
                TableColumnAlignment::Default
            })
            &&& forall|r: int|
                0 <= r < table.rows.len() ==> (#[trigger] grown.rows[r]).len() == n + 1
                    && empty_text(grown.rows[r][n])
            &&& forall|r: int, c: int|
                0 <= r < table.rows.len() && 0 <= c < n ==> #[trigger] grown.rows[r][c]
                    == table.rows[r][c]
            &&& grown.widths is None
            &&& after.focus.pending_focus == Some(after.document[i].runtime->0.header[n].id)
        }),
{
    let grown = crate::table_data::with_column(table, table_edit::last_alignment(table));
    lemma_changed(s, id, i, grown, facts, now);
    let after = table_edit::column_appended(s, id, facts, now);
    document::lemma_index_from(s.document, id, 0);
    assert(table_laws::in_step(after.document, id, i, grown));
    lemma_shown(after.document, id, i, grown);
}

/// Aligning a column sets its alignment and changes nothing else of the table.
pub proof fn aligning_a_column_sets_its_alignment(
    s: EditorView,
    id: u64,
    i: int,
    table: TableView,
    column: usize,
    alignment: TableColumnAlignment,
    facts: DocumentFacts,
    now: u64,
)
    requires
        document::index_of(s.document, id) == Some(i),
        s.document[i].kind is Table,
        table_edit::typed_table(s, facts, id) == Some(table),
        column < table.alignments.len(),
    ensures
        ({
            let after = table_edit::column_aligned(
                s,
                id,
                column as int,
                alignment,
                facts,
                now,
            );
            let aligned = after.document[i].table->0;
            &&& table_written(s, after, i, aligned)
            &&& aligned.alignments.len() == table.alignments.len()
            &&& aligned.alignments[column as int] == alignment
            &&& forall|c: int|
                0 <= c < table.alignments.len() && c != column ==> #[trigger] aligned.alignments[c]
                    == table.alignments[c]
            &&& aligned.header == table.header
            &&& aligned.rows == table.rows
            &&& aligned.widths == table.widths
        }),
{
    let aligned = crate::table_data::with_alignment(table, column as int, alignment);
    lemma_edited(
        s,
        id,
        i,
        aligned,
        Some(table_edit::column_axis(id, column as int)),
        table_edit::column_head(column as int),
        facts,
        now,
    );
    document::lemma_index_from(s.document, id, 0);
}

/// Setting widths sets them and changes nothing else of the table.
pub proof fn setting_widths_sets_only_them(
    s: EditorView,
    id: u64,
    i: int,
    table: TableView,
    widths: Seq<u32>,
    column: usize,
    facts: DocumentFacts,
    now: u64,
)
    requires
        document::index_of(s.document, id) == Some(i),
        s.document[i].kind is Table,
        table_edit::typed_table(s, facts, id) == Some(table),
    ensures
        ({
            let after = table_edit::widths_set(s, id, widths, column, facts, now);
            let sized = after.document[i].table->0;
            &&& table_written(s, after, i, sized)
            &&& sized.widths == Some(widths)
            &&& sized.header == table.header
            &&& sized.rows == table.rows
            &&& sized.alignments == table.alignments
        }),
{
    let sized = TableView { widths: Some(widths), ..table };
    lemma_edited(
        s,
        id,
        i,
        sized,
        Some(table_edit::column_axis(id, column as int)),
        table_edit::column_head(column as int),
        facts,
        now,
    );
    document::lemma_index_from(s.document, id, 0);
}

/// What an edit cannot do leaves the table as it was typed: a row or column that is not
/// there is not deleted, the only column is not, and nothing moves out of the table.
pub proof fn edits_that_cannot_be_done_keep_the_table(
    s: EditorView,
    id: u64,
    i: int,
    table: TableView,
    index: usize,
    delta: int,
    facts: DocumentFacts,
    now: u64,
)
    requires
        document::index_of(s.document, id) == Some(i),
        table_edit::typed_table(s, facts, id) == Some(table),
    ensures
        ({
            let typed = EditorView {
                document: s.document.update(
                    i,
                    NodeView { table: Some(table), ..s.document[i] },
                ),
                ..s
            };
            &&& index >= table.rows.len() ==> table_edit::row_deleted(
                s,
                id,
                index as int,
                facts,
                now,
            ) == typed
            &&& table.rows.len() == 0 ==> table_edit::header_deleted(s, id, facts, now) == typed
            &&& index >= table.header.len() || table.header.len() <= 1
                ==> table_edit::column_deleted(s, id, index as int, facts, now) == typed
            &&& index + delta < 0 || index + delta > table.rows.len() ==> table_edit::row_moved(
                s,
                id,
                index as int,
                delta,
                facts,
                now,
            ) == typed
            &&& index + delta < 0 || index + delta >= table.header.len()
                ==> table_edit::column_moved(s, id, index as int, delta, facts, now) == typed
        }),
{
    document::lemma_index_from(s.document, id, 0);
    let synced = tables::synced_record(s, id);
    document::lemma_index_same(s.document, synced.document, id, 0);
    assert(synced.document =~= s.document.update(
        i,
        NodeView { table: Some(table), ..s.document[i] },
    ));
}

// ---------------------------------------------------------------------------
// The menu of a row or column
// ---------------------------------------------------------------------------

/// An item of the menu of a row or column changes that row or column: it moves by one, is
/// aligned or is deleted. Row 0 is the header, so the row at `index` is the body row
/// before that number. The only column and the only row take the table with them.
pub proof fn menu_items_change_the_row_or_column_of_the_menu(
    s: EditorView,
    axis: TableAxisSelection,
    i: int,
    table: TableView,
)
    requires
        menus::menu_axis(s) == Some(axis),
        document::index_of(s.document, axis.table_block_id) == Some(i),
        s.document[i].kind is Table,
        s.document[i].table == Some(table),
    ensures
        ({
            let id = axis.table_block_id;
            let at = axis.index;
            axis.kind == TableAxisKind::Column ==> {
                &&& menus::chosen_change(s, AxisAction::AlignColumnLeft) == Some(
                    (id, TableChange::Aligned { column: at, alignment: TableColumnAlignment::Default }),
                )
                &&& menus::chosen_change(s, AxisAction::AlignColumnCenter) == Some(
                    (id, TableChange::Aligned { column: at, alignment: TableColumnAlignment::Center }),
                )
                &&& menus::chosen_change(s, AxisAction::AlignColumnRight) == Some(
                    (id, TableChange::Aligned { column: at, alignment: TableColumnAlignment::Right }),
                )
                &&& at > 0 ==> menus::chosen_change(s, AxisAction::MoveColumnLeft) == Some(
                    (id, TableChange::ColumnMoved { column: at, delta: -1i32 }),
                )
                &&& at + 1 < table.header.len() ==> menus::chosen_change(
                    s,
                    AxisAction::MoveColumnRight,
                ) == Some((id, TableChange::ColumnMoved { column: at, delta: 1i32 }))
                &&& table.header.len() != 1 ==> menus::chosen_change(s, AxisAction::DeleteColumn)
                    == Some((id, TableChange::ColumnDeleted { column: at }))
                &&& table.header.len() == 1 ==> menus::chosen_change(s, AxisAction::DeleteColumn)
                    == Some((id, TableChange::Removed))
            }
        }),
        ({
            let id = axis.table_block_id;
            let at = axis.index;
            axis.kind == TableAxisKind::Row ==> {
                &&& at > 0 ==> menus::chosen_change(s, AxisAction::MoveRowUp) == Some(
                    (id, TableChange::RowMoved { row: at, delta: -1i32 }),
                )
                &&& at < table.rows.len() ==> menus::chosen_change(s, AxisAction::MoveRowDown)
                    == Some((id, TableChange::RowMoved { row: at, delta: 1i32 }))
                &&& at > 0 ==> menus::chosen_change(s, AxisAction::DeleteRow) == Some(
                    (id, TableChange::RowDeleted { row: (at - 1) as usize }),
                )
                &&& at == 0 && table.rows.len() > 0 ==> menus::chosen_change(
                    s,
                    AxisAction::DeleteRow,
                ) == Some((id, TableChange::HeaderDeleted))
                &&& at == 0 && table.rows.len() == 0 ==> menus::chosen_change(
                    s,
                    AxisAction::DeleteRow,
                ) == Some((id, TableChange::Removed))
            }
        }),
{
}

/// A change that is chosen from the menu is the edit of that name, with the menu closed.
pub proof fn a_chosen_change_is_its_edit(
    s: EditorView,
    action: AxisAction,
    id: u64,
    change: TableChange,
    facts: DocumentFacts,
    now: u64,
)
    requires
        menus::chosen_change(s, action) == Some((id, change)),
    ensures
        ({
            let closed = context_menu::menu_closed(s);
            menus::axis_action_done(s, action, facts, now) == match change {
                TableChange::Aligned { column, alignment } => table_edit::column_aligned(
                    closed,
                    id,
                    column as int,
                    alignment,
                    facts,
                    now,
                ),
                TableChange::ColumnMoved { column, delta } => table_edit::column_moved(
                    closed,
                    id,
                    column as int,
                    delta as int,
                    facts,
                    now,
                ),
                TableChange::RowMoved { row, delta } => table_edit::row_moved(
                    closed,
                    id,
                    row as int,
                    delta as int,
                    facts,
                    now,
                ),
                TableChange::ColumnDeleted { column } => table_edit::column_deleted(
                    closed,
                    id,
                    column as int,
                    facts,
                    now,
                ),
                TableChange::RowDeleted { row } => table_edit::row_deleted(
                    closed,
                    id,
                    row as int,
                    facts,
                    now,
                ),
                TableChange::HeaderDeleted => table_edit::header_deleted(closed, id, facts, now),
                TableChange::Removed => table_edit::table_removed(closed, id, facts, now),
            }
        }),
{
}

/// Removing a table leaves an empty paragraph in its place, which gets the focus. No
/// other block changes.
pub proof fn a_removed_table_leaves_an_empty_paragraph(
    s: EditorView,
    id: u64,
    i: int,
    facts: DocumentFacts,
    now: u64,
)
    requires
        document::index_of(s.document, id) == Some(i),
        i + 1 < s.document.len() ==> s.document[i + 1].depth <= s.document[i].depth,
    ensures
        ({
            let after = table_edit::table_removed(s, id, facts, now);
            &&& others_stay(s.document, after.document, i)
            &&& after.document[i].kind is Paragraph
            &&& empty_text(after.document[i].title)
            &&& after.document[i].display_text.len() == 0
            &&& after.document[i].depth == s.document[i].depth
            &&& after.document[i].id == s.next_id
            &&& after.focus.pending_focus == Some(s.next_id)
            &&& after.window.document_dirty
        }),
{
    document::lemma_index_from(s.document, id, 0);
    let end = document::subtree_end(s.document, i);
    assert(end == i + 1);
    let node = document::empty_paragraph_node(s.next_id);
    let added = document::deepened(seq![node], s.document[i].depth);
    let grown = document::inserted(s.document, end, added);
    assert(grown[i] == s.document[i]);
    assert(grown[i + 1] == added[0]);
    assert(document::subtree_end(grown, i) == i + 1);
    let left = table_edit::without_table(s, i);
    assert(left =~= s.document.update(i, added[0]));
    tables::lemma_rebuilt_nodes(left, (s.next_id + 1) as u64 as int);
    assert(crate::blocks::title_text(node.title).len() == 0) by {
        reveal_with_fuel(crate::blocks::title_text, 2);
    }
}

} // verus!
