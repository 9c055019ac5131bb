//! Moving between the cells of a table and out of it.

use crate::blocks::BlockKind;
use crate::document;
use crate::document::find_index;
use crate::editor::{
    BlockSelection, Editor, EditorView, NodeView, RuntimeView, TableCellPosition, TableRuntime,
};
use crate::focus;
use crate::history;
use crate::history::DocumentFacts;
use crate::quotes;
use crate::structure;
use crate::table_edit;
use crate::tables;
use crate::targets;
use crate::targets::cell_id_at;
use vstd::prelude::*;

verus! {

/// The cell that the caret goes into when it enters a table: from above the first
/// one of the header, from below the first one of the last row.
pub open spec fn entry_cell(runtime: RuntimeView, from_top: bool) -> Option<u64> {
    if !from_top && runtime.rows.len() > 0 && runtime.rows.last().len() > 0 {
        Some(runtime.rows.last()[0].id)
    } else if runtime.header.len() > 0 {
        Some(runtime.header[0].id)
    } else {
        None
    }
}

/// The cell that the caret goes into when it enters the block at `i`, if that is a
/// table.
pub open spec fn entry_of(node: NodeView, from_top: bool) -> Option<u64> {
    if node.kind is Table {
        match node.runtime {
            Some(runtime) => entry_cell(runtime, from_top),
            None => None,
        }
    } else {
        None
    }
}

/// The state with the caret in the block at `i`, at an offset into its text, or in
/// a cell of it if it is a table.
pub open spec fn entered(s: EditorView, i: int, from_top: bool, offset: usize) -> EditorView {
    match entry_of(s.document[i], from_top) {
        Some(cell) => focus::focused(s, cell),
        None => focus::focused(
            EditorView {
                document: s.document.update(
                    i,
                    structure::with_caret(
                        s.document[i],
                        BlockSelection::Visible { start: offset, end: offset },
                    ),
                ),
                ..s
            },
            s.document[i].id,
        ),
    }
}

/// The state after the caret left the block at `i` upwards or downwards. At the
/// ends of the document it stays.
pub open spec fn left_block(s: EditorView, i: int, upwards: bool, offset: usize) -> EditorView {
    let target = if upwards {
        i - 1
    } else {
        i + 1
    };
    if 0 <= target < s.document.len() {
        entered(s, target, !upwards, offset)
    } else {
        s
    }
}

/// The state after the caret left the table at `i`: upwards where `delta` is negative,
/// else downwards. A table that it comes to is entered from its top only where `delta`
/// is positive.
pub open spec fn left_table(s: EditorView, i: int, delta: int, offset: usize) -> EditorView {
    let target = if delta < 0 {
        i - 1
    } else {
        i + 1
    };
    if 0 <= target < s.document.len() {
        entered(s, target, delta > 0, offset)
    } else {
        s
    }
}

/// The cell some cells before or behind another one, row by row.
pub open spec fn horizontal_neighbor(
    runtime: RuntimeView,
    position: TableCellPosition,
    delta: int,
) -> Option<TableCellPosition> {
    let columns = runtime.header.len() as int;
    let next = position.row * columns + position.column + delta;
    if columns == 0 || next < 0 || next >= (1 + runtime.rows.len()) * columns {
        None
    } else {
        Some(
            TableCellPosition {
                row: (next / columns) as usize,
                column: (next % columns) as usize,
            },
        )
    }
}

/// The state after a step to a neighbouring cell.
pub open spec fn moved_horizontally(
    s: EditorView,
    i: int,
    position: TableCellPosition,
    delta: int,
) -> EditorView {
    match s.document[i].runtime {
        None => s,
        Some(runtime) => match horizontal_neighbor(runtime, position, delta) {
            None => s,
            Some(next) => match targets::cell_at(runtime, next) {
                Some(cell) => focus::focused(s, cell.id),
                None => s,
            },
        },
    }
}

/// The cell some rows above or below another one.
pub open spec fn vertical_neighbor(
    runtime: RuntimeView,
    position: TableCellPosition,
    delta: int,
) -> Option<TableCellPosition> {
    let next = position.row + delta;
    if 0 <= next <= runtime.rows.len() {
        Some(
            TableCellPosition {
                row: next as usize,
                column: if runtime.header.len() == 0 {
                    0
                } else if position.column < runtime.header.len() {
                    position.column
                } else {
                    (runtime.header.len() - 1) as usize
                },
            },
        )
    } else {
        None
    }
}

/// The state after a step to a cell in another row. Beyond the first or last row
/// the caret leaves the table.
pub open spec fn moved_vertically(
    s: EditorView,
    i: int,
    position: TableCellPosition,
    delta: int,
    offset: usize,
) -> EditorView {
    match s.document[i].runtime {
        None => s,
        Some(runtime) => match vertical_neighbor(runtime, position, delta) {
            None => left_table(s, i, delta, offset),
            Some(next) => match targets::cell_at(runtime, next) {
                Some(cell) => focus::focused(s, cell.id),
                None => s,
            },
        },
    }
}

/// The state after a paragraph below a table was asked for from one of its cells.
pub open spec fn left_by_newline(s: EditorView, i: int, facts: DocumentFacts, now: u64) -> EditorView {
    let id = s.document[i].id;
    let plain = tables::with_selection(tables::with_preview(s, None), None);
    let synced = tables::synced_record(plain, id);
    let added = quotes::paragraph_after(quotes::begun(synced, facts, now), i);
    table_edit::edit_shown(focus::focused(added, s.next_id))
}

/// The state after a block or cell was clicked.
pub open spec fn focus_requested(s: EditorView, id: u64) -> EditorView {
    focus::focused(
        tables::with_selection(tables::with_preview(focus::menu_bar_closed(s), None), None),
        id,
    )
}

// ---------------------------------------------------------------------------
// Laws
// ---------------------------------------------------------------------------

/// A step to the right and one to the left come back to the same cell.
pub proof fn stepping_back_returns_to_the_cell(
    runtime: RuntimeView,
    position: TableCellPosition,
    delta: int,
)
    requires
        position.column < runtime.header.len() <= usize::MAX,
        position.row <= runtime.rows.len() <= usize::MAX,
        horizontal_neighbor(runtime, position, delta) is Some,
    ensures
        horizontal_neighbor(
            runtime,
            horizontal_neighbor(runtime, position, delta)->0,
            -delta,
        ) == Some(position),
{
    let columns = runtime.header.len() as int;
    let rows = runtime.rows.len() as int;
    let linear = position.row * columns + position.column;
    let next = linear + delta;
    lemma_split(next, columns, rows);
    let row = next / columns;
    let column = next % columns;
    assert(row * columns + column == next) by (nonlinear_arith)
        requires
            columns > 0,
            row == next / columns,
            column == next % columns,
    ;
    lemma_join(position.row as int, position.column as int, columns);
    assert(linear < (1 + rows) * columns) by (nonlinear_arith)
        requires
            linear == position.row * columns + position.column,
            position.column < columns,
            position.row <= rows,
    ;
    assert(linear >= 0) by (nonlinear_arith)
        requires
            linear == position.row * columns + position.column,
            columns > 0,
    ;
}

proof fn lemma_split(next: int, columns: int, rows: int)
    requires
        0 < columns <= usize::MAX,
        0 <= rows <= usize::MAX,
        0 <= next < (1 + rows) * columns,
    ensures
        0 <= next / columns <= rows,
        0 <= next % columns < columns,
{
    assert(0 <= next / columns <= rows) by (nonlinear_arith)
        requires
            0 < columns,
            0 <= next < (1 + rows) * columns,
    ;
    assert(0 <= next % columns < columns) by (nonlinear_arith)
        requires
            0 < columns,
    ;
}

proof fn lemma_join(row: int, column: int, columns: int)
    requires
        0 <= column < columns,
        0 <= row,
    ensures
        (row * columns + column) / columns == row,
        (row * columns + column) % columns == column,
{
    vstd::arithmetic::div_mod::lemma_fundamental_div_mod_converse(
        row * columns + column,
        columns,
        row,
        column,
    );
}

// ---------------------------------------------------------------------------
// Running code
// ---------------------------------------------------------------------------

fn find_entry_cell(runtime: &TableRuntime, from_top: bool) -> (r: Option<u64>)
    ensures
        r == entry_cell(runtime@, from_top),
{
    let n: usize = runtime.rows.len();
    if !from_top && n > 0 && runtime.rows[n - 1].len() > 0 {
        Some(runtime.rows[n - 1][0].id)
    } else if runtime.header.len() > 0 {
        Some(runtime.header[0].id)
    } else {
        None
    }
}

fn find_horizontal_neighbor(runtime: &TableRuntime, position: TableCellPosition, delta: i32) -> (r:
    Option<TableCellPosition>)
    ensures
        r == horizontal_neighbor(runtime@, position, delta as int),
{
    let columns: u128 = runtime.header.len() as u128;
    if columns == 0 {
        return None;
    }
    let row: u128 = position.row as u128;
    let rows: u128 = runtime.rows.len() as u128 + 1;
    proof {
        assert(row * columns <= usize::MAX * usize::MAX) by (nonlinear_arith)
            requires
                row <= usize::MAX,
                columns <= usize::MAX,
        ;
        assert(rows * columns <= (usize::MAX + 1) * usize::MAX) by (nonlinear_arith)
            requires
                rows <= usize::MAX + 1,
                columns <= usize::MAX,
        ;
        assert(usize::MAX <= u64::MAX);
        assert((usize::MAX + 1) * usize::MAX <= (u64::MAX + 1) * u64::MAX) by (nonlinear_arith)
            requires
                usize::MAX <= u64::MAX,
        ;
        assert(usize::MAX * usize::MAX <= u64::MAX * u64::MAX) by (nonlinear_arith)
            requires
                usize::MAX <= u64::MAX,
        ;
    }
    let linear: u128 = row * columns + position.column as u128;
    let next: u128 = if delta < 0 {
        let back: u128 = (-(delta as i64)) as u128;
        if linear < back {
            return None;
        }
        linear - back
    } else {
        linear + delta as u128
    };
    if next >= rows * columns {
        return None;
    }
    proof {
        lemma_split(next as int, columns as int, rows - 1);
    }
    Some(
        TableCellPosition { row: (next / columns) as usize, column: (next % columns) as usize },
    )
}

fn find_vertical_neighbor(runtime: &TableRuntime, position: TableCellPosition, delta: i32) -> (r:
    Option<TableCellPosition>)
    ensures
        r == vertical_neighbor(runtime@, position, delta as int),
{
    let next: i128 = position.row as i128 + delta as i128;
    if next < 0 || next > runtime.rows.len() as i128 {
        return None;
    }
    let columns: usize = runtime.header.len();
    let column: usize = if columns == 0 {
        0
    } else if position.column < columns {
        position.column
    } else {
        columns - 1
    };
    Some(TableCellPosition { row: next as usize, column })
}

impl Editor {
    /// Focuses the cell of the table at `i` that the caret enters it by. The result
    /// says whether there is one.
    pub fn focus_table_entry_cell(&mut self, i: usize, from_top: bool) -> (r: bool)
        requires
            i < old(self)@.document.len(),
        ensures
            final(self)@ == table_edit::focused_if(
                old(self)@,
                match old(self)@.document[i as int].runtime {
                    Some(runtime) => entry_cell(runtime, from_top),
                    None => None,
                },
            ),
            r == (old(self)@.document[i as int].runtime matches Some(runtime) && entry_cell(
                runtime,
                from_top,
            ) is Some),
    {
        let cell: Option<u64> = match &self.document[i].runtime {
            Some(runtime) => find_entry_cell(runtime, from_top),
            None => None,
        };
        match cell {
            Some(id) => {
                self.focus_block(id);
                true
            },
            None => false,
        }
    }

    /// Takes the caret into the block at `i`, or into a cell of it if it is a
    /// table.
    pub fn enter_block(&mut self, i: usize, from_top: bool, offset: usize)
        requires
            i < old(self)@.document.len(),
        ensures
            final(self)@ == entered(old(self)@, i as int, from_top, offset),
    {
        if matches!(self.document[i].kind, BlockKind::Table) {
            if self.focus_table_entry_cell(i, from_top) {
                return;
            }
        }
        let ghost before = self@.document;
        let id: u64 = self.document[i].id;
        self.document[i].selection = BlockSelection::Visible { start: offset, end: offset };
        self.document[i].selection_reversed = false;
        self.document[i].marked = false;
        assert(self@.document =~= before.update(
            i as int,
            structure::with_caret(
                before[i as int],
                BlockSelection::Visible { start: offset, end: offset },
            ),
        ));
        self.focus_block(id);
    }

    /// Takes the caret out of the block at `i`, upwards or downwards.
    pub fn leave_block(&mut self, i: usize, upwards: bool, offset: usize)
        requires
            i < old(self)@.document.len(),
        ensures
            final(self)@ == left_block(old(self)@, i as int, upwards, offset),
    {
        let n: usize = self.document.len();
        if upwards {
            if i > 0 {
                self.enter_block(i - 1, false, offset);
            }
        } else if i + 1 < n {
            self.enter_block(i + 1, true, offset);
        }
    }

    fn leave_table(&mut self, i: usize, delta: i32, offset: usize)
        requires
            i < old(self)@.document.len(),
        ensures
            final(self)@ == left_table(old(self)@, i as int, delta as int, offset),
    {
        let n: usize = self.document.len();
        if delta < 0 {
            if i > 0 {
                self.enter_block(i - 1, false, offset);
            }
        } else if i + 1 < n {
            self.enter_block(i + 1, delta > 0, offset);
        }
    }

    /// Takes the caret out of a table to the block above or below. Where
    /// `to_block_start` is not set, it lands at `entry_offset`.
    pub fn focus_block_adjacent_to_table(
        &mut self,
        table_block_id: u64,
        delta: i32,
        to_block_start: bool,
        entry_offset: usize,
    )
        ensures
            final(self)@ == (match document::index_of(old(self)@.document, table_block_id) {
                Some(i) => left_table(
                    old(self)@,
                    i,
                    delta as int,
                    if to_block_start {
                        0
                    } else {
                        entry_offset
                    },
                ),
                None => old(self)@,
            }),
    {
        if let Some(i) = find_index(&self.document, table_block_id) {
            let offset: usize = if to_block_start {
                0
            } else {
                entry_offset
            };
            self.leave_table(i, delta, offset);
        }
    }

    /// Steps to a cell some cells before or behind another one of the table at `i`.
    pub fn focus_table_cell_horizontal_neighbor(
        &mut self,
        i: usize,
        position: TableCellPosition,
        delta: i32,
    )
        requires
            i < old(self)@.document.len(),
        ensures
            final(self)@ == moved_horizontally(old(self)@, i as int, position, delta as int),
    {
        let cell: Option<u64> = match &self.document[i].runtime {
            Some(runtime) => match find_horizontal_neighbor(runtime, position, delta) {
                Some(next) => cell_id_at(runtime, next),
                None => None,
            },
            None => None,
        };
        if let Some(id) = cell {
            self.focus_block(id);
        }
    }

    /// Steps to a cell some rows above or below another one of the table at `i`, or
    /// out of the table.
    pub fn focus_table_cell_vertical_neighbor(
        &mut self,
        i: usize,
        position: TableCellPosition,
        delta: i32,
        entry_offset: usize,
    )
        requires
            i < old(self)@.document.len(),
        ensures
            final(self)@ == moved_vertically(
                old(self)@,
                i as int,
                position,
                delta as int,
                entry_offset,
            ),
    {
        let next = match &self.document[i].runtime {
            Some(runtime) => find_vertical_neighbor(runtime, position, delta),
            None => {
                return;
            },
        };
        match next {
            None => {
                self.leave_table(i, delta, entry_offset);
            },
            Some(next) => {
                let cell: Option<u64> = match &self.document[i].runtime {
                    Some(runtime) => cell_id_at(runtime, next),
                    None => None,
                };
                if let Some(id) = cell {
                    self.focus_block(id);
                }
            },
        }
    }

    /// Puts a paragraph in below the table at `i`, asked for from one of its cells.
    pub fn leave_table_by_newline(&mut self, i: usize, facts: &DocumentFacts, now: u64)
        requires
            i < old(self)@.document.len(),
            history::facts_ok(*facts),
            old(self)@.next_id < u64::MAX,
        ensures
            final(self)@ == left_by_newline(old(self)@, i as int, *facts, now),
    {
        let id: u64 = self.document[i].id;
        self.clear_table_axis_preview();
        self.clear_table_axis_selection();
        proof {
            document::lemma_index_from(self@.document, id, 0);
        }
        self.sync_table_record_from_runtime(id);
        self.begin_capture(facts, now);
        let paragraph: u64 = self.insert_paragraph_after(i);
        self.focus_block(paragraph);
        self.mark_dirty();
        self.request_active_block_scroll_into_view();
    }

    /// Focuses a block or cell that was clicked.
    pub fn request_focus(&mut self, entity_id: u64)
        ensures
            final(self)@ == focus_requested(old(self)@, entity_id),
    {
        self.close_menu_bar();
        self.clear_table_axis_preview();
        self.clear_table_axis_selection();
        self.focus_block(entity_id);
    }
}

} // verus!
