//! What several edits of a table come to: moves that are taken back, and a drag of a
//! column boundary from its start to its end.

use crate::blocks::TableView;
use crate::cell_laws;
use crate::document;
use crate::editor::{
    AxisView, EditorView, NodeView, Nodes, RuntimeView, TableAxisKind, TableAxisMarker,
    TableAxisSelection, TableCellPosition, TableColumnResizeDrag,
};
use crate::history;
use crate::history::DocumentFacts;
use crate::table_data;
use crate::table_edit;
use crate::tables;
use vstd::prelude::*;

verus! {

// ---------------------------------------------------------------------------
// A table and its cells
// ---------------------------------------------------------------------------

/// Whether the block with this id stands at `i` and shows a table whose cells hold
/// what the table holds.
pub open spec fn in_step(nodes: Nodes, id: u64, i: int, table: TableView) -> bool {
    &&& document::index_of(nodes, id) == Some(i)
    &&& 0 <= i < nodes.len()
    &&& nodes[i].kind is Table
    &&& nodes[i].table == Some(table)
    &&& nodes[i].runtime matches Some(runtime) && tables::table_from_runtime(runtime, Some(table))
        == table && runtime.header.len() == table.header.len() && runtime.rows.len()
        == table.rows.len()
}

/// Whether a row or column is one of this table.
pub open spec fn axis_in(table: TableView, id: u64, axis: TableAxisSelection) -> bool {
    axis.table_block_id == id && match axis.kind {
        TableAxisKind::Column => axis.index < table.header.len(),
        TableAxisKind::Row => axis.index <= table.rows.len(),
    }
}

proof fn lemma_highlight_keeps_texts(
    runtime: RuntimeView,
    preview: Option<TableAxisMarker>,
    selected: Option<TableAxisMarker>,
    table: TableView,
)
    ensures
        tables::table_from_runtime(tables::highlighted(runtime, preview, selected), Some(table))
            == tables::table_from_runtime(runtime, Some(table)),
{
    let plain = tables::table_from_runtime(runtime, Some(table));
    let shown = tables::table_from_runtime(
        tables::highlighted(runtime, preview, selected),
        Some(table),
    );
    assert(shown.header =~= plain.header);
    assert forall|r: int| 0 <= r < plain.rows.len() implies shown.rows[r] == plain.rows[r] by {
        assert(shown.rows[r] =~= plain.rows[r]);
    }
    assert(shown.rows =~= plain.rows);
}

/// Showing selections keeps a table and its cells in step.
pub proof fn lemma_synced_in_step(
    nodes: Nodes,
    id: u64,
    i: int,
    table: TableView,
    preview: Option<TableAxisSelection>,
    selection: Option<TableAxisSelection>,
)
    requires
        in_step(nodes, id, i, table),
    ensures
        in_step(tables::synced_nodes(nodes, preview, selection), id, i, table),
{
    let after = tables::synced_nodes(nodes, preview, selection);
    document::lemma_index_same(nodes, after, id, 0);
    lemma_highlight_keeps_texts(
        nodes[i].runtime->0,
        tables::marker_in(preview, nodes[i].id),
        tables::marker_in(selection, nodes[i].id),
        table,
    );
}

/// Making the cells anew brings a table and its cells in step.
pub proof fn lemma_rebuilt_in_step(s: EditorView, id: u64, i: int, table: TableView)
    requires
        document::index_of(s.document, id) == Some(i),
        0 <= i < s.document.len(),
        s.document[i].kind is Table,
        s.document[i].table == Some(table),
    ensures
        in_step(tables::tables_rebuilt(s).document, id, i, table),
        tables::tables_rebuilt(s).document.len() == s.document.len(),
        tables::tables_rebuilt(s).document[i].resize_preview == s.document[i].resize_preview,
        tables::tables_rebuilt(s).history == s.history,
        tables::tables_rebuilt(s).axis.resize_drag == s.axis.resize_drag,
{
    let nodes = tables::rebuilt_nodes(s.document, s.next_id as int);
    let start = s.next_id + tables::document_cells(s.document.take(i));
    cell_laws::lemma_rebuilt_runtimes(s.document, s.next_id as int);
    cell_laws::lemma_new_cells(table, start);
    tables::cells_keep_the_table(table, start);
    assert(nodes[i].runtime == Some(tables::runtime_for(table, start)));
    document::lemma_index_same(s.document, nodes, id, 0);
    assert(in_step(nodes, id, i, table));
    let after = tables::tables_rebuilt(s);
    lemma_synced_in_step(nodes, id, i, table, after.axis.preview, after.axis.selection);
}

/// What is typed into a table's cells is what the table holds, where both are in step.
pub proof fn lemma_typed(
    s: EditorView,
    facts: DocumentFacts,
    id: u64,
    i: int,
    table: TableView,
)
    requires
        in_step(s.document, id, i, table),
    ensures
        table_edit::typed_table(s, facts, id) == Some(table),
        tables::table_of(s, id) == Some(table),
{
    let synced = tables::synced_record(s, id);
    document::lemma_index_same(s.document, synced.document, id, 0);
}

/// An edit of a table is read back: the table and its cells hold what was written, the
/// row or column that was edited is selected, if the table has it, and at most an undo
/// capture was begun.
pub proof fn an_edit_is_read_back(
    s: EditorView,
    id: u64,
    i: int,
    table: TableView,
    axis: TableAxisSelection,
    position: TableCellPosition,
    facts: DocumentFacts,
    now: u64,
)
    requires
        document::index_of(s.document, id) == Some(i),
        s.document[i].kind is Table,
    ensures
        ({
            let after = table_edit::axis_edited(
                s,
                id,
                Some(table),
                Some(axis),
                position,
                facts,
                now,
            );
            &&& in_step(after.document, id, i, table)
            &&& table_edit::typed_table(after, facts, id) == Some(table)
            &&& after.document.len() == s.document.len()
            &&& after.document[i].resize_preview == s.document[i].resize_preview
            &&& axis_in(table, id, axis) ==> after.axis.selection == Some(axis)
            &&& after.axis.resize_drag == s.axis.resize_drag
            &&& after.history == table_edit::edit_begun(s, id, facts, now).history
        }),
{
    document::lemma_index_from(s.document, id, 0);
    let begun = table_edit::edit_begun(s, id, facts, now);
    document::lemma_index_same(s.document, begun.document, id, 0);
    let replaced = tables::table_replaced(begun, id, table);
    document::lemma_index_same(begun.document, replaced.document, id, 0);
    lemma_rebuilt_in_step(replaced, id, i, table);
    let rebuilt = tables::tables_rebuilt(replaced);
    let chosen = EditorView {
        axis: AxisView { selection: Some(axis), ..rebuilt.axis },
        ..rebuilt
    };
    assert(axis_in(table, id, axis) ==> tables::axis_valid(rebuilt.document, axis));
    let kept = tables::axis_normalized(chosen);
    lemma_synced_in_step(
        rebuilt.document,
        id,
        i,
        table,
        kept.axis.preview,
        kept.axis.selection,
    );
    let after = table_edit::axis_edited(s, id, Some(table), Some(axis), position, facts, now);
    assert(in_step(after.document, id, i, table));
    lemma_typed(after, facts, id, i, table);
}

// ---------------------------------------------------------------------------
// Moves that are taken back
// ---------------------------------------------------------------------------

/// Moving a row and moving it back, with the undo capture closed in between or not,
/// gives the table again: its texts are where they were, the row is selected, and the
/// table never had another size.
pub proof fn a_row_that_is_moved_back_is_where_it_was(
    s: EditorView,
    id: u64,
    i: int,
    table: TableView,
    row: usize,
    delta: int,
    facts: DocumentFacts,
    now: u64,
    between: EditorView,
    facts_again: DocumentFacts,
    later: u64,
)
    requires
        document::index_of(s.document, id) == Some(i),
        s.document[i].kind is Table,
        table_edit::typed_table(s, facts, id) == Some(table),
        row <= table.rows.len(),
        0 <= row + delta <= table.rows.len(),
        row + delta <= usize::MAX,
        between.document == table_edit::row_moved(s, id, row as int, delta, facts, now).document,
    ensures
        ({
            let once = table_edit::row_moved(s, id, row as int, delta, facts, now);
            let moved = table_data::with_rows_swapped(table, row as int, row + delta);
            let twice = table_edit::row_moved(between, id, row + delta, -delta, facts_again, later);
            &&& table_edit::typed_table(once, facts, id) == Some(moved)
            &&& once.axis.selection == Some(table_edit::row_axis(id, row + delta))
            &&& moved.rows.len() == table.rows.len()
            &&& table_data::rectangular(table) ==> moved.header.len() == table.header.len()
            &&& table_edit::typed_table(twice, facts_again, id) == Some(table)
            &&& tables::table_of(twice, id) == Some(table)
            &&& twice.axis.selection == Some(table_edit::row_axis(id, row as int))
        }),
{
    let moved = table_data::with_rows_swapped(table, row as int, row + delta);
    let once = table_edit::row_moved(s, id, row as int, delta, facts, now);
    an_edit_is_read_back(
        s,
        id,
        i,
        moved,
        table_edit::row_axis(id, row + delta),
        table_edit::row_head(row + delta),
        facts,
        now,
    );
    lemma_typed(between, facts_again, id, i, moved);
    table_edit::moving_a_row_back_restores_the_table(table, row as int, delta);
    an_edit_is_read_back(
        between,
        id,
        i,
        table,
        table_edit::row_axis(id, row as int),
        table_edit::row_head(row as int),
        facts_again,
        later,
    );
    let twice = table_edit::row_moved(between, id, row + delta, -delta, facts_again, later);
    lemma_typed(twice, facts_again, id, i, table);
}

/// Moving a column and moving it back, with the undo capture closed in between or not,
/// gives the table again, and the column is selected.
pub proof fn a_column_that_is_moved_back_is_where_it_was(
    s: EditorView,
    id: u64,
    i: int,
    table: TableView,
    column: usize,
    delta: int,
    facts: DocumentFacts,
    now: u64,
    between: EditorView,
    facts_again: DocumentFacts,
    later: u64,
)
    requires
        document::index_of(s.document, id) == Some(i),
        s.document[i].kind is Table,
        table_edit::typed_table(s, facts, id) == Some(table),
        table_data::rectangular(table),
        column < table.header.len(),
        0 <= column + delta < table.header.len(),
        column + delta <= usize::MAX,
        between.document == table_edit::column_moved(s, id, column as int, delta, facts, now).document,
    ensures
        ({
            let once = table_edit::column_moved(s, id, column as int, delta, facts, now);
            let moved = table_data::with_columns_swapped(table, column as int, column + delta);
            let twice = table_edit::column_moved(between, id, column + delta, -delta, facts_again, later);
            &&& table_edit::typed_table(once, facts, id) == Some(moved)
            &&& once.axis.selection == Some(table_edit::column_axis(id, column + delta))
            &&& moved.rows.len() == table.rows.len()
            &&& moved.header.len() == table.header.len()
            &&& table_edit::typed_table(twice, facts_again, id) == Some(table)
            &&& tables::table_of(twice, id) == Some(table)
            &&& twice.axis.selection == Some(table_edit::column_axis(id, column as int))
        }),
{
    let moved = table_data::with_columns_swapped(table, column as int, column + delta);
    an_edit_is_read_back(
        s,
        id,
        i,
        moved,
        table_edit::column_axis(id, column + delta),
        table_edit::column_head(column + delta),
        facts,
        now,
    );
    lemma_typed(between, facts_again, id, i, moved);
    table_edit::moving_a_column_back_restores_the_table(table, column as int, delta);
    an_edit_is_read_back(
        between,
        id,
        i,
        table,
        table_edit::column_axis(id, column as int),
        table_edit::column_head(column as int),
        facts_again,
        later,
    );
    let twice = table_edit::column_moved(between, id, column + delta, -delta, facts_again, later);
    lemma_typed(twice, facts_again, id, i, table);
}

// ---------------------------------------------------------------------------
// Dragging a column boundary
// ---------------------------------------------------------------------------

/// The state after the dragged boundary gave these widths, one after the other.
pub open spec fn dragged(s: EditorView, moves: Seq<Seq<u32>>) -> EditorView
    decreases moves.len(),
{
    if moves.len() == 0 {
        s
    } else {
        table_edit::resize_updated(dragged(s, moves.drop_last()), moves.last())
    }
}

/// The widths that a drag comes to: the last that the boundary gave, or those at its
/// start.
pub open spec fn widths_reached(start: Seq<u32>, moves: Seq<Seq<u32>>) -> Seq<u32> {
    if moves.len() == 0 {
        start
    } else {
        moves.last()
    }
}

proof fn lemma_dragged(
    s: EditorView,
    drag: TableColumnResizeDrag<Seq<u32>>,
    moves: Seq<Seq<u32>>,
)
    requires
        s.axis.resize_drag == Some(drag),
    ensures
        ({
            let after = dragged(s, moves);
            &&& after.axis.resize_drag == Some(
                TableColumnResizeDrag {
                    current_fractions: widths_reached(drag.current_fractions, moves),
                    ..drag
                },
            )
            &&& after.axis.selection == s.axis.selection
            &&& after.history == s.history
            &&& after.next_id == s.next_id
            &&& after.document.len() == s.document.len()
            &&& forall|k: int|
                0 <= k < s.document.len() ==> #[trigger] after.document[k] == (NodeView {
                    resize_preview: after.document[k].resize_preview,
                    ..s.document[k]
                })
        }),
    decreases moves.len(),
{
    if moves.len() > 0 {
        lemma_dragged(s, drag, moves.drop_last());
        let before = dragged(s, moves.drop_last());
        document::lemma_index_from(before.document, drag.table_block_id, 0);
    }
}

/// A drag of a column boundary is one step: whatever widths it goes through, the undo
/// history is as it was until the boundary is let go, and then it gets at most one
/// entry longer. Letting go once more changes nothing.
pub proof fn a_drag_of_a_column_is_one_step(
    s: EditorView,
    drag: TableColumnResizeDrag<Seq<u32>>,
    moves: Seq<Seq<u32>>,
    facts: DocumentFacts,
    now: u64,
    after: DocumentFacts,
)
    requires
        s.history.pending_capture is None,
    ensures
        ({
            let held = dragged(table_edit::resize_started(s, drag), moves);
            let ended = table_edit::resize_ended(held, facts, now);
            let closed = history::finalized(ended, after);
            &&& held.history == s.history
            &&& ended.history.undo == s.history.undo
            &&& closed.history.undo.len() <= s.history.undo.len() + 1
            &&& ended.axis.resize_drag is None
            &&& closed.axis.resize_drag is None
            &&& table_edit::resize_ended(ended, facts, now) == ended
            &&& table_edit::resize_ended(closed, facts, now) == closed
        }),
{
    let held = dragged(table_edit::resize_started(s, drag), moves);
    let ended = table_edit::resize_ended(held, facts, now);
    lemma_dragged(table_edit::resize_started(s, drag), drag, moves);
    lemma_let_go(held, facts, now);
    lemma_closed(ended, after);
}

proof fn lemma_axis_edit_keeps_the_drag(
    s: EditorView,
    id: u64,
    table: Option<TableView>,
    axis: Option<TableAxisSelection>,
    position: TableCellPosition,
    facts: DocumentFacts,
    now: u64,
)
    ensures
        ({
            let after = table_edit::axis_edited(s, id, table, axis, position, facts, now);
            after.history.undo == s.history.undo && after.axis.resize_drag == s.axis.resize_drag
        }),
{
}

proof fn lemma_let_go(s: EditorView, facts: DocumentFacts, now: u64)
    ensures
        ({
            let ended = table_edit::resize_ended(s, facts, now);
            ended.history.undo == s.history.undo && ended.axis.resize_drag is None
        }),
{
    if let Some(drag) = s.axis.resize_drag {
        let id = drag.table_block_id;
        let dropped = table_edit::drag_dropped(s, id);
        lemma_axis_edit_keeps_the_drag(
            dropped,
            id,
            table_edit::with_widths(
                table_edit::typed_table(dropped, facts, id),
                drag.current_fractions,
            ),
            Some(table_edit::column_axis(id, drag.left_column as int)),
            table_edit::column_head(drag.left_column as int),
            facts,
            now,
        );
    }
}

proof fn lemma_closed(s: EditorView, after: DocumentFacts)
    ensures
        history::finalized(s, after).history.undo.len() <= s.history.undo.len() + 1,
        history::finalized(s, after).axis == s.axis,
{
}

/// A drag of a column boundary writes the widths that it came to, those at its start
/// if the boundary was not moved. The rest of the table stays, and the widths are no
/// longer a preview.
pub proof fn a_drag_writes_the_last_widths(
    s: EditorView,
    i: int,
    drag: TableColumnResizeDrag<Seq<u32>>,
    table: TableView,
    moves: Seq<Seq<u32>>,
    facts: DocumentFacts,
    now: u64,
)
    requires
        document::index_of(s.document, drag.table_block_id) == Some(i),
        s.document[i].kind is Table,
        table_edit::typed_table(s, facts, drag.table_block_id) == Some(table),
        drag.current_fractions == drag.start_fractions,
    ensures
        ({
            let held = dragged(table_edit::resize_started(s, drag), moves);
            let ended = table_edit::resize_ended(held, facts, now);
            &&& ended.document[i].resize_preview is None
            &&& tables::table_of(ended, drag.table_block_id) == Some(
                TableView {
                    widths: Some(widths_reached(drag.start_fractions, moves)),
                    ..table
                },
            )
        }),
{
    let id = drag.table_block_id;
    let started = table_edit::resize_started(s, drag);
    let held = dragged(started, moves);
    lemma_dragged(started, drag, moves);
    document::lemma_index_from(s.document, id, 0);
    document::lemma_index_same(s.document, held.document, id, 0);
    let dropped = table_edit::drag_dropped(held, id);
    document::lemma_index_same(held.document, dropped.document, id, 0);
    assert(dropped.document[i] == (NodeView { resize_preview: None, ..s.document[i] }));
    let typed = tables::synced_record(s, id);
    let typed_then = tables::synced_record(dropped, id);
    document::lemma_index_same(s.document, typed.document, id, 0);
    document::lemma_index_same(dropped.document, typed_then.document, id, 0);
    assert(table_edit::typed_table(dropped, facts, id) == Some(table));
    let widths = widths_reached(drag.start_fractions, moves);
    let wide = TableView { widths: Some(widths), ..table };
    an_edit_is_read_back(
        dropped,
        id,
        i,
        wide,
        table_edit::column_axis(id, drag.left_column as int),
        table_edit::column_head(drag.left_column as int),
        facts,
        now,
    );
    let ended = table_edit::resize_ended(held, facts, now);
    lemma_typed(ended, facts, id, i, wide);
}

} // verus!
