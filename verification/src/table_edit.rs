//! Edits of tables in the document.
//!
//! Every edit takes in what was typed into the cells, changes the table, makes
//! the cells anew, selects and focuses what was edited and marks the document as
//! changed. Where no undo capture was pending, the edit begins one; its result
//! then says that the capture is to be closed.

use crate::blocks::{BlockKind, InlineTextTree, TableColumnAlignment, TableData, TableView};
use crate::cell_laws;
use crate::context_menu;
use crate::document;
use crate::document::{cut_nodes, find_index, find_subtree_end, fresh_block, insert_nodes};
use crate::editor;
use crate::editor::{
    AxisView, DocBlock, Editor, EditorView, NodeView, RuntimeView, ScreenPoint, TableAxisKind,
    TableAxisSelection, TableCellPosition, TableColumnResizeDrag, TableRuntime, UndoCaptureKind,
};
use crate::focus;
use crate::history;
use crate::history::{find_gone, DocumentFacts};
use crate::table_data;
use crate::tables;
use crate::tables::read_table;
use crate::targets;
use crate::targets::cell_id_at;
use vstd::prelude::*;

verus! {

// ---------------------------------------------------------------------------
// The steps of an edit
// ---------------------------------------------------------------------------

/// The table of a block, with what was typed into its cells. The block may be one that
/// is no longer in the document.
pub open spec fn typed_table(s: EditorView, facts: DocumentFacts, id: u64) -> Option<TableView> {
    match document::index_of(s.document, id) {
        Some(i) => tables::table_of(tables::synced_record(s, id), id),
        None => match history::gone_block(facts, id) {
            Some(gone) => tables::record_synced(gone.block@).table,
            None => None,
        },
    }
}

/// The cells of a block, which may be one that is no longer in the document.
pub open spec fn cells_of(s: EditorView, facts: DocumentFacts, id: u64) -> Option<RuntimeView> {
    match document::index_of(s.document, id) {
        Some(i) => s.document[i].runtime,
        None => match history::gone_block(facts, id) {
            Some(gone) => gone.block@.runtime,
            None => None,
        },
    }
}

/// The cell at a place of a table that was edited.
pub open spec fn edited_cell(
    s: EditorView,
    facts: DocumentFacts,
    id: u64,
    position: TableCellPosition,
) -> Option<u64> {
    match cells_of(s, facts, id) {
        Some(runtime) => match targets::cell_at(runtime, position) {
            Some(cell) => Some(cell.id),
            None => None,
        },
        None => None,
    }
}

/// The state with what was typed into a table's cells taken in and an undo
/// capture begun.
pub open spec fn edit_begun(s: EditorView, id: u64, facts: DocumentFacts, now: u64) -> EditorView {
    let typed = tables::synced_record(s, id);
    history::capturing(
        typed,
        history::current_entry(typed, UndoCaptureKind::NonCoalescible, facts, now),
    )
}

/// The state with a table changed and its cells made anew.
pub open spec fn table_changed(
    s: EditorView,
    id: u64,
    table: TableView,
    facts: DocumentFacts,
    now: u64,
) -> EditorView {
    tables::tables_rebuilt(tables::table_replaced(edit_begun(s, id, facts, now), id, table))
}

/// Whether the ids last for the cells of a changed table.
pub open spec fn room_for_table(s: EditorView, id: u64, table: Option<TableView>) -> bool {
    table matches Some(t) ==> tables::room_for_cells(
        tables::table_replaced(tables::synced_record(s, id), id, t),
    )
}

/// The state with the document marked as changed and the active block to be
/// scrolled to.
pub open spec fn edit_shown(s: EditorView) -> EditorView {
    focus::scroll_requested(focus::dirtied(s))
}

/// The cell at a place of a table in the document.
pub open spec fn cell_of(s: EditorView, id: u64, position: TableCellPosition) -> Option<u64> {
    match document::index_of(s.document, id) {
        Some(i) => match s.document[i].runtime {
            Some(runtime) => match targets::cell_at(runtime, position) {
                Some(cell) => Some(cell.id),
                None => None,
            },
            None => None,
        },
        None => None,
    }
}

/// The state with a block or cell focused, if there is one.
pub open spec fn focused_if(s: EditorView, id: Option<u64>) -> EditorView {
    match id {
        Some(id) => focus::focused(s, id),
        None => s,
    }
}

/// The last cell of a table's header.
pub open spec fn header_end(s: EditorView, facts: DocumentFacts, id: u64) -> Option<u64> {
    match cells_of(s, facts, id) {
        Some(runtime) => if runtime.header.len() > 0 {
            Some(runtime.header.last().id)
        } else {
            None
        },
        None => None,
    }
}

/// The first cell of a table's last body row.
pub open spec fn last_row_start(s: EditorView, facts: DocumentFacts, id: u64) -> Option<u64> {
    match cells_of(s, facts, id) {
        Some(runtime) => if runtime.rows.len() > 0 && runtime.rows.last().len() > 0 {
            Some(runtime.rows.last()[0].id)
        } else {
            None
        },
        None => None,
    }
}

/// The state after an edit of a row or column of a table: the row or column is
/// selected and the cell at `position` focused.
pub open spec fn axis_edited(
    s: EditorView,
    id: u64,
    table: Option<TableView>,
    axis: Option<TableAxisSelection>,
    position: TableCellPosition,
    facts: DocumentFacts,
    now: u64,
) -> EditorView {
    match table {
        None => tables::synced_record(s, id),
        Some(table) => {
            let selected = tables::with_selection(
                table_changed(s, id, table, facts, now),
                axis,
            );
            edit_shown(focused_if(selected, edited_cell(selected, facts, id, position)))
        },
    }
}

/// Whether an edit that changes the table has begun an undo capture.
pub open spec fn capture_due(s: EditorView, table: Option<TableView>) -> bool {
    table is Some && s.history.pending_capture is None
}

// ---------------------------------------------------------------------------
// What the edits make of a table
// ---------------------------------------------------------------------------

/// The alignment of a table's last column.
pub open spec fn last_alignment(table: TableView) -> TableColumnAlignment {
    if table.alignments.len() > 0 {
        table.alignments.last()
    } else {
        TableColumnAlignment::Default
    }
}

/// The table with a further column.
pub open spec fn with_column_added(table: Option<TableView>) -> Option<TableView> {
    match table {
        Some(t) => Some(table_data::with_column(t, last_alignment(t))),
        None => None,
    }
}

/// The table with a further row.
pub open spec fn with_row_added(table: Option<TableView>) -> Option<TableView> {
    match table {
        Some(t) => Some(table_data::with_row(t)),
        None => None,
    }
}

/// The table with the alignment of one column changed.
pub open spec fn with_column_aligned(
    table: Option<TableView>,
    column: int,
    alignment: TableColumnAlignment,
) -> Option<TableView> {
    match table {
        Some(t) => Some(table_data::with_alignment(t, column, alignment)),
        None => None,
    }
}

/// The table with other column widths.
pub open spec fn with_widths(table: Option<TableView>, widths: Seq<u32>) -> Option<TableView> {
    match table {
        Some(t) => Some(TableView { widths: Some(widths), ..t }),
        None => None,
    }
}

/// The table with a row moved, if that leaves it inside the table.
pub open spec fn with_row_moved(table: Option<TableView>, row: int, delta: int) -> Option<
    TableView,
> {
    match table {
        Some(t) => if 0 <= row + delta <= t.rows.len() {
            Some(table_data::with_rows_swapped(t, row, row + delta))
        } else {
            None
        },
        None => None,
    }
}

/// The table with a column moved, if that leaves it inside the table.
pub open spec fn with_column_moved(table: Option<TableView>, column: int, delta: int) -> Option<
    TableView,
> {
    match table {
        Some(t) => if 0 <= column + delta < t.header.len() {
            Some(table_data::with_columns_swapped(t, column, column + delta))
        } else {
            None
        },
        None => None,
    }
}

/// The table without a body row, if that is there.
pub open spec fn with_row_deleted(table: Option<TableView>, row: int) -> Option<TableView> {
    match table {
        Some(t) => if row < t.rows.len() {
            Some(table_data::without_row(t, row))
        } else {
            None
        },
        None => None,
    }
}

/// The visual index of the row that takes the place of a deleted body row.
pub open spec fn row_after_deletion(table: TableView, row: int) -> int {
    if table.rows.len() <= 1 {
        0
    } else if row <= table.rows.len() - 2 {
        row + 1
    } else {
        table.rows.len() - 1
    }
}

/// The table without its header, if a body row can take its place.
pub open spec fn with_header_deleted(table: Option<TableView>) -> Option<TableView> {
    match table {
        Some(t) => if t.rows.len() > 0 {
            Some(table_data::without_header(t))
        } else {
            None
        },
        None => None,
    }
}

/// The table without a column, if that is there and not the only one.
pub open spec fn with_column_deleted(table: Option<TableView>, column: int) -> Option<TableView> {
    match table {
        Some(t) => if t.header.len() > 1 && column < t.header.len() {
            Some(table_data::without_column(t, column))
        } else {
            None
        },
        None => None,
    }
}

/// The column that takes the place of a deleted one.
pub open spec fn column_after_deletion(table: TableView, column: int) -> int {
    if column <= table.header.len() - 2 {
        column
    } else {
        table.header.len() - 2
    }
}

/// A column of a table as a selection.
pub open spec fn column_axis(id: u64, column: int) -> TableAxisSelection {
    TableAxisSelection { table_block_id: id, kind: TableAxisKind::Column, index: column as usize }
}

/// A row of a table as a selection.
pub open spec fn row_axis(id: u64, row: int) -> TableAxisSelection {
    TableAxisSelection { table_block_id: id, kind: TableAxisKind::Row, index: row as usize }
}

/// The first cell of a column.
pub open spec fn column_head(column: int) -> TableCellPosition {
    TableCellPosition { row: 0, column: column as usize }
}

/// The first cell of a row.
pub open spec fn row_head(row: int) -> TableCellPosition {
    TableCellPosition { row: row as usize, column: 0 }
}

/// The state after a column was added to a table. Its header cell is focused.
pub open spec fn column_appended(
    s: EditorView,
    id: u64,
    facts: DocumentFacts,
    now: u64,
) -> EditorView {
    match with_column_added(typed_table(s, facts, id)) {
        None => tables::synced_record(s, id),
        Some(table) => {
            let changed = table_changed(s, id, table, facts, now);
            edit_shown(focused_if(changed, header_end(changed, facts, id)))
        },
    }
}

/// The state after a row was added to a table. Its first cell is focused.
pub open spec fn row_appended(s: EditorView, id: u64, facts: DocumentFacts, now: u64) -> EditorView {
    match with_row_added(typed_table(s, facts, id)) {
        None => tables::synced_record(s, id),
        Some(table) => {
            let changed = table_changed(s, id, table, facts, now);
            edit_shown(focused_if(changed, last_row_start(changed, facts, id)))
        },
    }
}

/// The state after the alignment of a column was set. The column is selected and its
/// header cell focused.
pub open spec fn column_aligned(
    s: EditorView,
    id: u64,
    column: int,
    alignment: TableColumnAlignment,
    facts: DocumentFacts,
    now: u64,
) -> EditorView {
    axis_edited(
        s,
        id,
        with_column_aligned(typed_table(s, facts, id), column, alignment),
        Some(column_axis(id, column)),
        column_head(column),
        facts,
        now,
    )
}

/// The state after a row of a table was moved.
pub open spec fn row_moved(
    s: EditorView,
    id: u64,
    row: int,
    delta: int,
    facts: DocumentFacts,
    now: u64,
) -> EditorView {
    axis_edited(
        s,
        id,
        with_row_moved(typed_table(s, facts, id), row, delta),
        Some(row_axis(id, row + delta)),
        row_head(row + delta),
        facts,
        now,
    )
}

/// The state after a column of a table was moved.
pub open spec fn column_moved(
    s: EditorView,
    id: u64,
    column: int,
    delta: int,
    facts: DocumentFacts,
    now: u64,
) -> EditorView {
    axis_edited(
        s,
        id,
        with_column_moved(typed_table(s, facts, id), column, delta),
        Some(column_axis(id, column + delta)),
        column_head(column + delta),
        facts,
        now,
    )
}

/// The state after a body row was deleted. With no body row left nothing is selected
/// and the header is focused.
pub open spec fn row_deleted(
    s: EditorView,
    id: u64,
    row: int,
    facts: DocumentFacts,
    now: u64,
) -> EditorView {
    let table = typed_table(s, facts, id);
    let next = row_after_deletion(table->0, row);
    axis_edited(
        s,
        id,
        with_row_deleted(table, row),
        if next == 0 {
            None
        } else {
            Some(row_axis(id, next))
        },
        row_head(next),
        facts,
        now,
    )
}

/// The state after the header was deleted.
pub open spec fn header_deleted(s: EditorView, id: u64, facts: DocumentFacts, now: u64) -> EditorView {
    axis_edited(
        s,
        id,
        with_header_deleted(typed_table(s, facts, id)),
        None,
        row_head(0),
        facts,
        now,
    )
}

/// The state after a column was deleted.
pub open spec fn column_deleted(
    s: EditorView,
    id: u64,
    column: int,
    facts: DocumentFacts,
    now: u64,
) -> EditorView {
    let table = typed_table(s, facts, id);
    let next = column_after_deletion(table->0, column);
    axis_edited(
        s,
        id,
        with_column_deleted(table, column),
        Some(column_axis(id, next)),
        column_head(next),
        facts,
        now,
    )
}

/// The state after the menu of a row or column was asked for.
pub open spec fn axis_menu_requested(
    s: EditorView,
    axis: TableAxisSelection,
    position: ScreenPoint,
) -> EditorView {
    let chosen = tables::axis_chosen(s, axis);
    match chosen.axis.selection {
        Some(selection) => context_menu::axis_menu_opened(chosen, position, selection),
        None => chosen,
    }
}

/// The state with a column boundary being dragged.
pub open spec fn resize_started(
    s: EditorView,
    drag: TableColumnResizeDrag<Seq<u32>>,
) -> EditorView {
    EditorView { axis: AxisView { resize_drag: Some(drag), ..s.axis }, ..s }
}

/// The state after a table was removed and an empty paragraph put in its place.
pub open spec fn table_removed(s: EditorView, id: u64, facts: DocumentFacts, now: u64) -> EditorView {
    match document::index_of(s.document, id) {
        None => s,
        Some(i) => {
            let begun = history::capturing(
                s,
                history::current_entry(s, UndoCaptureKind::NonCoalescible, facts, now),
            );
            let replaced = EditorView {
                document: without_table(s, i),
                next_id: (s.next_id + 1) as u64,
                ..begun
            };
            edit_shown(
                focus::focused(
                    tables::with_selection(tables::tables_rebuilt(replaced), None),
                    s.next_id,
                ),
            )
        },
    }
}

/// The document with an empty paragraph in the place of the table at `i`.
pub open spec fn without_table(s: EditorView, i: int) -> editor::Nodes {
    document::removed(
        document::inserted_after(
            s.document,
            i,
            seq![document::empty_paragraph_node(s.next_id)],
        ),
        i,
    )
}

/// The state after the dragged column boundary was let go.
pub open spec fn resize_ended(s: EditorView, facts: DocumentFacts, now: u64) -> EditorView {
    match s.axis.resize_drag {
        None => s,
        Some(drag) => widths_set(
            drag_dropped(s, drag.table_block_id),
            drag.table_block_id,
            drag.current_fractions,
            drag.left_column,
            facts,
            now,
        ),
    }
}

/// The state without a dragged column boundary.
pub open spec fn drag_dropped(s: EditorView, id: u64) -> EditorView {
    EditorView {
        document: match document::index_of(s.document, id) {
            Some(i) => s.document.update(
                i,
                NodeView { resize_preview: None, ..s.document[i] },
            ),
            None => s.document,
        },
        axis: AxisView { resize_drag: None, ..s.axis },
        ..s
    }
}

/// The state after the widths of a table's columns were set.
pub open spec fn widths_set(
    s: EditorView,
    id: u64,
    widths: Seq<u32>,
    column: usize,
    facts: DocumentFacts,
    now: u64,
) -> EditorView {
    axis_edited(
        s,
        id,
        with_widths(typed_table(s, facts, id), widths),
        Some(column_axis(id, column as int)),
        column_head(column as int),
        facts,
        now,
    )
}

impl Editor {
    // -----------------------------------------------------------------------
    // The steps of an edit
    // -----------------------------------------------------------------------

    /// Focuses the cell at a place of a table. The result says whether it is
    /// there.
    pub fn focus_table_cell_position(
        &mut self,
        table_block_id: u64,
        position: TableCellPosition,
    ) -> (r: bool)
        ensures
            final(self)@ == focused_if(
                old(self)@,
                cell_of(old(self)@, table_block_id, position),
            ),
            r == (cell_of(old(self)@, table_block_id, position) is Some),
    {
        let cell: Option<u64> = match find_index(&self.document, table_block_id) {
            Some(i) => match &self.document[i].runtime {
                Some(runtime) => cell_id_at(runtime, position),
                None => None,
            },
            None => None,
        };
        match cell {
            Some(id) => {
                self.focus_block(id);
                true
            },
            None => false,
        }
    }

    /// The table of a block.
    pub fn table_of_block(&self, table_block_id: u64) -> (r: Option<TableData>)
        ensures
            crate::blocks::opt_table(r) == tables::table_of(self@, table_block_id),
    {
        match find_index(&self.document, table_block_id) {
            Some(i) => match &self.document[i].table {
                Some(table) => Some(table.duplicate()),
                None => None,
            },
            None => None,
        }
    }

    /// Takes in what was typed into a table's cells and gives the table.
    fn take_in_table(&mut self, table_block_id: u64, facts: &DocumentFacts) -> (r: Option<
        TableData,
    >)
        ensures
            final(self)@ == tables::synced_record(old(self)@, table_block_id),
            crate::blocks::opt_table(r) == typed_table(old(self)@, *facts, table_block_id),
    {
        let held = find_index(&self.document, table_block_id);
        self.sync_table_record_from_runtime(table_block_id);
        if held.is_some() {
            return self.table_of_block(table_block_id);
        }
        match find_gone(facts, table_block_id) {
            Some(k) => {
                let block = &facts.gone[k].block;
                match &block.runtime {
                    Some(runtime) => Some(read_table(runtime, &block.table)),
                    None => match &block.table {
                        Some(table) => Some(table.duplicate()),
                        None => None,
                    },
                }
            },
            None => None,
        }
    }

    /// Whether a block has a table, or cells that make up one.
    pub(crate) fn has_table(&self, table_block_id: u64, facts: &DocumentFacts) -> (r: bool)
        ensures
            r == (typed_table(self@, *facts, table_block_id) is Some),
    {
        match find_index(&self.document, table_block_id) {
            Some(i) => {
                proof {
                    let typed = tables::synced_record(self@, table_block_id);
                    document::lemma_index_from(self@.document, table_block_id, 0);
                    document::lemma_index_same(self@.document, typed.document, table_block_id, 0);
                }
                self.document[i].table.is_some() || self.document[i].runtime.is_some()
            },
            None => match find_gone(facts, table_block_id) {
                Some(k) => facts.gone[k].block.table.is_some()
                    || facts.gone[k].block.runtime.is_some(),
                None => false,
            },
        }
    }

    fn replace_table(&mut self, table_block_id: u64, table: TableData)
        ensures
            final(self)@ == tables::table_replaced(old(self)@, table_block_id, table@),
    {
        match find_index(&self.document, table_block_id) {
            Some(i) => {
                let ghost before = self@.document;
                self.document[i].table = Some(table);
                assert(self@.document =~= before.update(
                    i as int,
                    NodeView { table: Some(table@), ..before[i as int] },
                ));
            },
            None => {},
        }
    }

    /// Begins an undo capture, changes the table and makes the cells anew.
    fn change_table(
        &mut self,
        table_block_id: u64,
        table: TableData,
        facts: &DocumentFacts,
        now: u64,
    ) -> (started: bool)
        requires
            history::facts_ok(*facts),
            tables::room_for_cells(tables::table_replaced(old(self)@, table_block_id, table@)),
        ensures
            final(self)@ == tables::tables_rebuilt(
                tables::table_replaced(
                    history::capturing(
                        old(self)@,
                        history::current_entry(
                            old(self)@,
                            UndoCaptureKind::NonCoalescible,
                            *facts,
                            now,
                        ),
                    ),
                    table_block_id,
                    table@,
                ),
            ),
            started == (old(self)@.history.pending_capture is None),
    {
        let started = self.history.pending_capture.is_none();
        self.prepare_undo_capture(UndoCaptureKind::NonCoalescible, facts, now);
        self.replace_table(table_block_id, table);
        self.rebuild_table_runtimes();
        started
    }

    pub(crate) fn show_edit(&mut self)
        ensures
            final(self)@ == edit_shown(old(self)@),
    {
        self.mark_dirty();
        self.request_active_block_scroll_into_view();
    }

    fn finish_axis_edit(
        &mut self,
        table_block_id: u64,
        axis: Option<TableAxisSelection>,
        position: TableCellPosition,
        facts: &DocumentFacts,
    )
        ensures
            final(self)@ == ({
                let selected = tables::with_selection(old(self)@, axis);
                edit_shown(
                    focused_if(selected, edited_cell(selected, *facts, table_block_id, position)),
                )
            }),
    {
        self.set_table_axis_selection(axis);
        let cell: Option<u64> = match self.find_cells(table_block_id, facts) {
            Some(runtime) => cell_id_at(runtime, position),
            None => None,
        };
        if let Some(cell) = cell {
            self.focus_block(cell);
        }
        self.show_edit();
    }

    fn find_cells<'a>(&'a self, table_block_id: u64, facts: &'a DocumentFacts) -> (r: Option<
        &'a TableRuntime,
    >)
        ensures
            match r {
                Some(runtime) => cells_of(self@, *facts, table_block_id) == Some(runtime@),
                None => cells_of(self@, *facts, table_block_id) is None,
            },
    {
        match find_index(&self.document, table_block_id) {
            Some(i) => match &self.document[i].runtime {
                Some(runtime) => Some(runtime),
                None => None,
            },
            None => match find_gone(facts, table_block_id) {
                Some(k) => match &facts.gone[k].block.runtime {
                    Some(runtime) => Some(runtime),
                    None => None,
                },
                None => None,
            },
        }
    }

    // -----------------------------------------------------------------------
    // Edits
    // -----------------------------------------------------------------------

    /// Adds a column to a table and focuses its header cell.
    pub fn append_table_column(
        &mut self,
        table_block_id: u64,
        facts: &DocumentFacts,
        now: u64,
    ) -> (started: bool)
        requires
            history::facts_ok(*facts),
            room_for_table(
                old(self)@,
                table_block_id,
                with_column_added(typed_table(old(self)@, *facts, table_block_id)),
            ),
        ensures
            final(self)@ == column_appended(old(self)@, table_block_id, *facts, now),
            started == capture_due(old(self)@, typed_table(old(self)@, *facts, table_block_id)),
    {
        let mut table = match self.take_in_table(table_block_id, facts) {
            Some(table) => table,
            None => {
                return false;
            },
        };
        let columns: usize = table.alignments.len();
        let alignment = if columns > 0 {
            table.alignments[columns - 1]
        } else {
            TableColumnAlignment::Default
        };
        table.append_column(alignment);
        let started = self.change_table(table_block_id, table, facts, now);
        let cell: Option<u64> = match self.find_cells(table_block_id, facts) {
            Some(runtime) => {
                let n: usize = runtime.header.len();
                if n > 0 {
                    Some(runtime.header[n - 1].id)
                } else {
                    None
                }
            },
            None => None,
        };
        if let Some(cell) = cell {
            self.focus_block(cell);
        }
        self.show_edit();
        started
    }

    /// Adds a row to a table and focuses its first cell.
    pub fn append_table_row(
        &mut self,
        table_block_id: u64,
        facts: &DocumentFacts,
        now: u64,
    ) -> (started: bool)
        requires
            history::facts_ok(*facts),
            room_for_table(
                old(self)@,
                table_block_id,
                with_row_added(typed_table(old(self)@, *facts, table_block_id)),
            ),
        ensures
            final(self)@ == row_appended(old(self)@, table_block_id, *facts, now),
            started == capture_due(old(self)@, typed_table(old(self)@, *facts, table_block_id)),
    {
        let mut table = match self.take_in_table(table_block_id, facts) {
            Some(table) => table,
            None => {
                return false;
            },
        };
        table.append_row();
        let started = self.change_table(table_block_id, table, facts, now);
        let cell: Option<u64> = match self.find_cells(table_block_id, facts) {
            Some(runtime) => {
                let n: usize = runtime.rows.len();
                if n > 0 && runtime.rows[n - 1].len() > 0 {
                    Some(runtime.rows[n - 1][0].id)
                } else {
                    None
                }
            },
            None => None,
        };
        if let Some(cell) = cell {
            self.focus_block(cell);
        }
        self.show_edit();
        started
    }

    /// Selects a row or column and opens its menu.
    pub fn open_table_axis_menu(
        &mut self,
        table_block_id: u64,
        kind: TableAxisKind,
        index: usize,
        position: ScreenPoint,
    )
        ensures
            final(self)@ == axis_menu_requested(
                old(self)@,
                TableAxisSelection { table_block_id, kind, index },
                position,
            ),
    {
        self.select_table_axis(table_block_id, kind, index);
        if let Some(selection) = self.axis.selection {
            self.open_table_axis_context_menu(position, selection);
        }
    }

    /// Sets the alignment of a column.
    pub fn set_table_column_alignment(
        &mut self,
        table_block_id: u64,
        column: usize,
        alignment: TableColumnAlignment,
        facts: &DocumentFacts,
        now: u64,
    ) -> (started: bool)
        requires
            history::facts_ok(*facts),
            room_for_table(
                old(self)@,
                table_block_id,
                with_column_aligned(
                    typed_table(old(self)@, *facts, table_block_id),
                    column as int,
                    alignment,
                ),
            ),
        ensures
            final(self)@ == column_aligned(
                old(self)@,
                table_block_id,
                column as int,
                alignment,
                *facts,
                now,
            ),
            started == capture_due(old(self)@, typed_table(old(self)@, *facts, table_block_id)),
    {
        let mut table = match self.take_in_table(table_block_id, facts) {
            Some(table) => table,
            None => {
                return false;
            },
        };
        table.set_column_alignment(column, alignment);
        let started = self.change_table(table_block_id, table, facts, now);
        self.finish_axis_edit(
            table_block_id,
            Some(TableAxisSelection { table_block_id, kind: TableAxisKind::Column, index: column }),
            TableCellPosition { row: 0, column },
            facts,
        );
        started
    }

    /// Sets the widths of all columns of a table.
    pub fn set_table_column_widths(
        &mut self,
        table_block_id: u64,
        widths: Vec<u32>,
        focus_column: usize,
        facts: &DocumentFacts,
        now: u64,
    ) -> (started: bool)
        requires
            history::facts_ok(*facts),
            room_for_table(
                old(self)@,
                table_block_id,
                with_widths(typed_table(old(self)@, *facts, table_block_id), widths@),
            ),
        ensures
            final(self)@ == widths_set(
                old(self)@,
                table_block_id,
                widths@,
                focus_column,
                *facts,
                now,
            ),
            started == capture_due(old(self)@, typed_table(old(self)@, *facts, table_block_id)),
    {
        let mut table = match self.take_in_table(table_block_id, facts) {
            Some(table) => table,
            None => {
                return false;
            },
        };
        table.set_column_widths(widths);
        let started = self.change_table(table_block_id, table, facts, now);
        self.finish_axis_edit(
            table_block_id,
            Some(
                TableAxisSelection {
                    table_block_id,
                    kind: TableAxisKind::Column,
                    index: focus_column,
                },
            ),
            TableCellPosition { row: 0, column: focus_column },
            facts,
        );
        started
    }

    /// Starts dragging a column boundary.
    pub fn start_table_column_resize(
        &mut self,
        table_block_id: u64,
        left_column: usize,
        start_pointer_x: u32,
        table_width: u32,
        start_fractions: Vec<u32>,
    )
        ensures
            final(self)@ == resize_started(
                old(self)@,
                TableColumnResizeDrag {
                    table_block_id,
                    left_column,
                    start_pointer_x,
                    table_width,
                    start_fractions: start_fractions@,
                    current_fractions: start_fractions@,
                },
            ),
    {
        let current_fractions = copy_widths(&start_fractions);
        self.axis.resize_drag = Some(
            TableColumnResizeDrag {
                table_block_id,
                left_column,
                start_pointer_x,
                table_width,
                start_fractions,
                current_fractions,
            },
        );
    }

    /// Takes the widths that the dragged boundary gives. They are shown, but not
    /// yet written to the table.
    pub fn update_table_column_resize(&mut self, fractions: Vec<u32>)
        ensures
            final(self)@ == resize_updated(old(self)@, fractions@),
    {
        let id: u64 = match &mut self.axis.resize_drag {
            Some(drag) => {
                drag.current_fractions = copy_widths(&fractions);
                drag.table_block_id
            },
            None => {
                return;
            },
        };
        match find_index(&self.document, id) {
            Some(i) => {
                let ghost before = self@.document;
                self.document[i].resize_preview = Some(fractions);
                assert(self@.document =~= before.update(
                    i as int,
                    NodeView { resize_preview: Some(fractions@), ..before[i as int] },
                ));
            },
            None => {},
        }
    }

    /// Lets the dragged boundary go and writes the widths to the table.
    pub fn end_table_column_resize(&mut self, facts: &DocumentFacts, now: u64) -> (started: bool)
        requires
            history::facts_ok(*facts),
            room_to_resize(old(self)@, *facts),
        ensures
            final(self)@ == resize_ended(old(self)@, *facts, now),
            started == (old(self)@.axis.resize_drag matches Some(drag) && capture_due(
                old(self)@,
                typed_table(
                    drag_dropped(old(self)@, drag.table_block_id),
                    *facts,
                    drag.table_block_id,
                ),
            )),
    {
        let drag = match self.axis.resize_drag.take() {
            Some(drag) => drag,
            None => {
                return false;
            },
        };
        match find_index(&self.document, drag.table_block_id) {
            Some(i) => {
                let ghost before = self@.document;
                self.document[i].resize_preview = None;
                assert(self@.document =~= before.update(
                    i as int,
                    NodeView { resize_preview: None, ..before[i as int] },
                ));
            },
            None => {},
        }
        self.set_table_column_widths(
            drag.table_block_id,
            drag.current_fractions,
            drag.left_column,
            facts,
            now,
        )
    }

    /// Moves a row, given by its visual index, by some rows.
    pub fn move_table_row(
        &mut self,
        table_block_id: u64,
        visual_row: usize,
        delta: i32,
        facts: &DocumentFacts,
        now: u64,
    ) -> (started: bool)
        requires
            history::facts_ok(*facts),
            room_for_table(
                old(self)@,
                table_block_id,
                with_row_moved(
                    typed_table(old(self)@, *facts, table_block_id),
                    visual_row as int,
                    delta as int,
                ),
            ),
        ensures
            final(self)@ == row_moved(
                old(self)@,
                table_block_id,
                visual_row as int,
                delta as int,
                *facts,
                now,
            ),
            started == capture_due(
                old(self)@,
                with_row_moved(
                    typed_table(old(self)@, *facts, table_block_id),
                    visual_row as int,
                    delta as int,
                ),
            ),
    {
        let mut table = match self.take_in_table(table_block_id, facts) {
            Some(table) => table,
            None => {
                return false;
            },
        };
        let next: i128 = visual_row as i128 + delta as i128;
        if next < 0 || next > table.rows.len() as i128 {
            return false;
        }
        let next_row: usize = next as usize;
        table.swap_visual_rows(visual_row, next_row);
        let started = self.change_table(table_block_id, table, facts, now);
        self.finish_axis_edit(
            table_block_id,
            Some(TableAxisSelection { table_block_id, kind: TableAxisKind::Row, index: next_row }),
            TableCellPosition { row: next_row, column: 0 },
            facts,
        );
        started
    }

    /// Moves a column by some columns.
    pub fn move_table_column(
        &mut self,
        table_block_id: u64,
        column: usize,
        delta: i32,
        facts: &DocumentFacts,
        now: u64,
    ) -> (started: bool)
        requires
            history::facts_ok(*facts),
            room_for_table(
                old(self)@,
                table_block_id,
                with_column_moved(
                    typed_table(old(self)@, *facts, table_block_id),
                    column as int,
                    delta as int,
                ),
            ),
        ensures
            final(self)@ == column_moved(
                old(self)@,
                table_block_id,
                column as int,
                delta as int,
                *facts,
                now,
            ),
            started == capture_due(
                old(self)@,
                with_column_moved(
                    typed_table(old(self)@, *facts, table_block_id),
                    column as int,
                    delta as int,
                ),
            ),
    {
        let mut table = match self.take_in_table(table_block_id, facts) {
            Some(table) => table,
            None => {
                return false;
            },
        };
        let next: i128 = column as i128 + delta as i128;
        if next < 0 || next >= table.column_count() as i128 {
            return false;
        }
        let next_column: usize = next as usize;
        table.swap_columns(column, next_column);
        let started = self.change_table(table_block_id, table, facts, now);
        self.finish_axis_edit(
            table_block_id,
            Some(
                TableAxisSelection {
                    table_block_id,
                    kind: TableAxisKind::Column,
                    index: next_column,
                },
            ),
            TableCellPosition { row: 0, column: next_column },
            facts,
        );
        started
    }

    /// Deletes a body row. With no body row left nothing is selected and the
    /// header is focused.
    pub fn delete_table_row(
        &mut self,
        table_block_id: u64,
        row_index: usize,
        facts: &DocumentFacts,
        now: u64,
    ) -> (started: bool)
        requires
            history::facts_ok(*facts),
            room_for_table(
                old(self)@,
                table_block_id,
                with_row_deleted(typed_table(old(self)@, *facts, table_block_id), row_index as int),
            ),
        ensures
            final(self)@ == row_deleted(
                old(self)@,
                table_block_id,
                row_index as int,
                *facts,
                now,
            ),
            started == capture_due(
                old(self)@,
                with_row_deleted(typed_table(old(self)@, *facts, table_block_id), row_index as int),
            ),
    {
        let mut table = match self.take_in_table(table_block_id, facts) {
            Some(table) => table,
            None => {
                return false;
            },
        };
        if row_index >= table.rows.len() {
            return false;
        }
        let ghost before = table@;
        table.remove_body_row(row_index);
        let remaining: usize = table.rows.len();
        assert(table@.rows.len() == before.rows.len() - 1);
        let started = self.change_table(table_block_id, table, facts, now);
        let next: usize = if remaining == 0 {
            0
        } else if row_index < remaining {
            row_index + 1
        } else {
            remaining
        };
        assert(next == row_after_deletion(before, row_index as int));
        let axis = if remaining == 0 {
            None
        } else {
            Some(TableAxisSelection { table_block_id, kind: TableAxisKind::Row, index: next })
        };
        self.finish_axis_edit(table_block_id, axis, TableCellPosition { row: next, column: 0 }, facts);
        started
    }

    /// Deletes the header; the first body row becomes the header.
    pub fn delete_table_header_row(
        &mut self,
        table_block_id: u64,
        facts: &DocumentFacts,
        now: u64,
    ) -> (started: bool)
        requires
            history::facts_ok(*facts),
            room_for_table(
                old(self)@,
                table_block_id,
                with_header_deleted(typed_table(old(self)@, *facts, table_block_id)),
            ),
        ensures
            final(self)@ == header_deleted(old(self)@, table_block_id, *facts, now),
            started == capture_due(
                old(self)@,
                with_header_deleted(typed_table(old(self)@, *facts, table_block_id)),
            ),
    {
        let mut table = match self.take_in_table(table_block_id, facts) {
            Some(table) => table,
            None => {
                return false;
            },
        };
        if table.rows.len() == 0 {
            return false;
        }
        table.remove_header_row();
        let started = self.change_table(table_block_id, table, facts, now);
        self.finish_axis_edit(table_block_id, None, TableCellPosition { row: 0, column: 0 }, facts);
        started
    }

    /// Deletes a column, unless it is the only one.
    pub fn delete_table_column(
        &mut self,
        table_block_id: u64,
        column: usize,
        facts: &DocumentFacts,
        now: u64,
    ) -> (started: bool)
        requires
            history::facts_ok(*facts),
            room_for_table(
                old(self)@,
                table_block_id,
                with_column_deleted(typed_table(old(self)@, *facts, table_block_id), column as int),
            ),
        ensures
            final(self)@ == column_deleted(
                old(self)@,
                table_block_id,
                column as int,
                *facts,
                now,
            ),
            started == capture_due(
                old(self)@,
                with_column_deleted(typed_table(old(self)@, *facts, table_block_id), column as int),
            ),
    {
        let mut table = match self.take_in_table(table_block_id, facts) {
            Some(table) => table,
            None => {
                return false;
            },
        };
        if table.column_count() <= 1 || column >= table.column_count() {
            return false;
        }
        table.remove_column(column);
        let last: usize = table.column_count() - 1;
        let next: usize = if column <= last {
            column
        } else {
            last
        };
        let started = self.change_table(table_block_id, table, facts, now);
        self.finish_axis_edit(
            table_block_id,
            Some(TableAxisSelection { table_block_id, kind: TableAxisKind::Column, index: next }),
            TableCellPosition { row: 0, column: next },
            facts,
        );
        started
    }

    /// Removes a table and puts an empty paragraph in its place.
    pub fn remove_table_block(
        &mut self,
        table_block_id: u64,
        facts: &DocumentFacts,
        now: u64,
    ) -> (started: bool)
        requires
            history::facts_ok(*facts),
            document::index_of(old(self)@.document, table_block_id) matches Some(i)
                ==> old(self)@.next_id + 1 + tables::document_cells(without_table(old(self)@, i))
                <= u64::MAX,
        ensures
            final(self)@ == table_removed(old(self)@, table_block_id, *facts, now),
            started == (document::index_of(old(self)@.document, table_block_id) is Some
                && old(self)@.history.pending_capture is None),
    {
        let i: usize = match find_index(&self.document, table_block_id) {
            Some(i) => i,
            None => {
                return false;
            },
        };
        let ghost s0 = self@;
        let started = self.history.pending_capture.is_none();
        self.prepare_undo_capture(UndoCaptureKind::NonCoalescible, facts, now);
        let paragraph_id: u64 = self.next_id;
        let depth: usize = self.document[i].depth;
        let paragraph = fresh_block(
            paragraph_id,
            depth,
            BlockKind::Paragraph,
            InlineTextTree::plain(String::new()),
            None,
        );
        let mut added: Vec<DocBlock> = Vec::new();
        added.push(paragraph);
        proof {
            let plain = document::empty_paragraph_node(paragraph_id);
            assert(Seq::<char>::empty() =~= ""@.subrange(0, 0));
            assert(editor::node_views(added@) =~= document::deepened(seq![plain], depth as nat));
        }
        let end: usize = find_subtree_end(&self.document, i);
        insert_nodes(&mut self.document, end, added);
        let cut_end: usize = find_subtree_end(&self.document, i);
        let _table = cut_nodes(&mut self.document, i, cut_end);
        self.next_id = paragraph_id + 1;
        self.rebuild_table_runtimes();
        self.clear_table_axis_selection();
        self.focus_block(paragraph_id);
        self.show_edit();
        started
    }
}

/// Whether the ids last for letting the dragged boundary go.
pub open spec fn room_to_resize(s: EditorView, facts: DocumentFacts) -> bool {
    s.axis.resize_drag matches Some(drag) ==> room_for_table(
        drag_dropped(s, drag.table_block_id),
        drag.table_block_id,
        with_widths(
            typed_table(
                drag_dropped(s, drag.table_block_id),
                facts,
                drag.table_block_id,
            ),
            drag.current_fractions,
        ),
    )
}

/// The state with the widths that the dragged boundary gives shown.
pub open spec fn resize_updated(s: EditorView, fractions: Seq<u32>) -> EditorView {
    match s.axis.resize_drag {
        None => s,
        Some(drag) => EditorView {
            document: match document::index_of(s.document, drag.table_block_id) {
                Some(i) => s.document.update(
                    i,
                    NodeView { resize_preview: Some(fractions), ..s.document[i] },
                ),
                None => s.document,
            },
            axis: AxisView {
                resize_drag: Some(
                    TableColumnResizeDrag { current_fractions: fractions, ..drag },
                ),
                ..s.axis
            },
            ..s
        },
    }
}

fn copy_widths(widths: &Vec<u32>) -> (r: Vec<u32>)
    ensures
        r@ == widths@,
{
    let mut out: Vec<u32> = Vec::new();
    let mut i: usize = 0;
    while i < widths.len()
        invariant
            i <= widths@.len(),
            out@ == widths@.take(i as int),
        decreases widths@.len() - i,
    {
        out.push(widths[i]);
        assert(widths@.take(i + 1) =~= widths@.take(i as int).push(widths@[i as int]));
        i = i + 1;
    }
    assert(widths@.take(i as int) =~= widths@);
    out
}

// ---------------------------------------------------------------------------
// Laws
// ---------------------------------------------------------------------------

/// Making the cells anew changes no block's id or depth.
pub proof fn rebuilding_keeps_the_outline(s: EditorView)
    ensures
        document::same_outline(s.document, tables::tables_rebuilt(s).document),
{
    tables::lemma_rebuilt_nodes(s.document, s.next_id as int);
}

/// An edit of a table leaves the document well formed.
pub proof fn table_edits_keep_documents_well_formed(
    s: EditorView,
    id: u64,
    table: Option<TableView>,
    axis: Option<TableAxisSelection>,
    position: TableCellPosition,
    facts: DocumentFacts,
    now: u64,
)
    requires
        document::well_formed(s.document, s.next_id),
        room_for_table(s, id, table),
    ensures
        document::same_outline(
            s.document,
            axis_edited(s, id, table, axis, position, facts, now).document,
        ),
        document::well_formed(
            axis_edited(s, id, table, axis, position, facts, now).document,
            axis_edited(s, id, table, axis, position, facts, now).next_id,
        ),
{
    let after = axis_edited(s, id, table, axis, position, facts, now);
    document::lemma_index_from(s.document, id, 0);
    match table {
        Some(t) => {
            let replaced = tables::table_replaced(edit_begun(s, id, facts, now), id, t);
            let typed = tables::synced_record(s, id);
            document::lemma_index_from(typed.document, id, 0);
            let plain = tables::table_replaced(typed, id, t);
            assert(replaced.document == plain.document);
            assert(replaced.next_id == s.next_id);
            document::lemma_same_shape(s.document, replaced.document, s.next_id);
            cell_laws::rebuilding_keeps_documents_well_formed(replaced);
            let rebuilt = tables::tables_rebuilt(replaced);
            assert(document::same_shape(rebuilt.document, after.document));
            document::lemma_same_shape(rebuilt.document, after.document, rebuilt.next_id);
        },
        None => {
            document::lemma_same_shape(s.document, after.document, s.next_id);
        },
    }
}

/// Moving a row of a table and moving it back restores the table.
pub proof fn moving_a_row_back_restores_the_table(table: TableView, row: int, delta: int)
    requires
        0 <= row <= table.rows.len(),
        0 <= row + delta <= table.rows.len(),
    ensures
        with_row_moved(with_row_moved(Some(table), row, delta), row + delta, -delta) == Some(
            table,
        ),
{
    table_data::swapping_rows_twice_restores_the_table(table, row, row + delta);
    let moved = table_data::with_rows_swapped(table, row, row + delta);
    assert(moved.rows.len() == table.rows.len());
    lemma_swap_order(moved, row + delta, row);
}

proof fn lemma_swap_order(table: TableView, a: int, b: int)
    ensures
        table_data::with_rows_swapped(table, a, b) == table_data::with_rows_swapped(table, b, a),
{
    let x = table_data::with_rows_swapped(table, a, b);
    let y = table_data::with_rows_swapped(table, b, a);
    assert(x.rows =~= y.rows);
}

/// Moving a column of a table and moving it back restores the table.
pub proof fn moving_a_column_back_restores_the_table(table: TableView, column: int, delta: int)
    requires
        table_data::rectangular(table),
        0 <= column < table.header.len(),
        0 <= column + delta < table.header.len(),
    ensures
        with_column_moved(
            with_column_moved(Some(table), column, delta),
            column + delta,
            -delta,
        ) == Some(table),
{
    let once = table_data::with_columns_swapped(table, column, column + delta);
    let twice = table_data::with_columns_swapped(once, column + delta, column);
    assert(twice.header =~= table.header);
    assert(twice.alignments =~= table.alignments);
    assert forall|i: int| 0 <= i < table.rows.len() implies twice.rows[i] == table.rows[i] by {
        assert(twice.rows[i] =~= table.rows[i]);
    }
    assert(twice.rows =~= table.rows);
    if let Some(widths) = table.widths {
        assert(twice.widths->0 =~= widths);
    }
}

/// A table that is removed leaves its document well formed.
pub proof fn removing_a_table_keeps_documents_well_formed(
    s: EditorView,
    id: u64,
    facts: DocumentFacts,
    now: u64,
)
    requires
        document::well_formed(s.document, s.next_id),
        document::index_of(s.document, id) matches Some(i) ==> s.next_id + 1
            + tables::document_cells(without_table(s, i)) <= u64::MAX,
    ensures
        document::well_formed(
            table_removed(s, id, facts, now).document,
            table_removed(s, id, facts, now).next_id,
        ),
{
    document::lemma_index_from(s.document, id, 0);
    if let Some(i) = document::index_of(s.document, id) {
        let depth = s.document[i].depth;
        let end = document::subtree_end(s.document, i);
        let added = document::deepened(
            seq![document::empty_paragraph_node(s.next_id)],
            depth,
        );
        document::lemma_run_end(s.document, depth, i + 1);
        assert(document::fits(s.document, end, depth)) by {
            assert(s.document[end - 1].depth >= depth);
        }
        document::inserting_keeps_a_document_well_formed(
            s.document,
            s.next_id,
            end,
            added,
            depth,
            (s.next_id + 1) as u64,
        );
        let grown = document::inserted(s.document, end, added);
        document::removing_keeps_a_document_well_formed(grown, (s.next_id + 1) as u64, i);
        let after = table_removed(s, id, facts, now);
        let begun = history::capturing(
            s,
            history::current_entry(s, UndoCaptureKind::NonCoalescible, facts, now),
        );
        let replaced = EditorView {
            document: without_table(s, i),
            next_id: (s.next_id + 1) as u64,
            ..begun
        };
        cell_laws::rebuilding_keeps_documents_well_formed(replaced);
        let rebuilt = tables::tables_rebuilt(replaced);
        assert(document::same_shape(rebuilt.document, after.document));
        document::lemma_same_shape(rebuilt.document, after.document, rebuilt.next_id);
    }
}

} // verus!
