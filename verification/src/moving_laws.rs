//! Where the caret goes: from block to block, from cell to cell, and out of a table.

use crate::cells;
use crate::document;
use crate::editor::{BlockSelection, EditorView, RuntimeView, TableCellPosition};
use crate::event_laws;
use crate::events;
use crate::events::{BlockEvent, FootnoteReference};
use crate::history::DocumentFacts;
use vstd::prelude::*;

verus! {

// ---------------------------------------------------------------------------
// Cells
// ---------------------------------------------------------------------------

/// The cell of a table in a row and column, the header being row 0.
pub open spec fn cell_id(cells: RuntimeView, row: int, column: int) -> u64 {
    if row == 0 {
        cells.header[column].id
    } else {
        cells.rows[row - 1][column].id
    }
}

/// Whether every row of a table has as many cells as its header, and all can be counted.
pub open spec fn even_rows(cells: RuntimeView) -> bool {
    &&& 0 < cells.header.len() <= usize::MAX
    &&& cells.rows.len() < usize::MAX
    &&& forall|r: int|
        0 <= r < cells.rows.len() ==> (#[trigger] cells.rows[r]).len() == cells.header.len()
}

proof fn lemma_place(row: int, column: int, columns: int)
    requires
        0 <= row,
        0 <= column < columns,
    ensures
        (row * columns + column) / columns == row,
        (row * columns + column) % columns == column,
        row * columns + column >= 0,
{
    vstd::arithmetic::div_mod::lemma_fundamental_div_mod_converse(
        row * columns + column,
        columns,
        row,
        column,
    );
    assert(row * columns >= 0) by (nonlinear_arith)
        requires
            row >= 0,
            columns > 0,
    ;
}

proof fn lemma_inside(row: int, column: int, rows: int, columns: int)
    requires
        0 <= row,
        0 <= column < columns,
        0 <= rows,
    ensures
        row <= rows <==> row * columns + column < (1 + rows) * columns,
{
    if row <= rows {
        assert(row * columns + column < (1 + rows) * columns) by (nonlinear_arith)
            requires
                row <= rows,
                0 <= column < columns,
        ;
    } else {
        assert(row * columns + column >= (1 + rows) * columns) by (nonlinear_arith)
            requires
                row >= 1 + rows,
                0 <= column < columns,
        ;
    }
}

/// A step forward goes to the cell on the right, and from the end of a row to the start
/// of the next one; a step back goes the same way back. In the last cell a step forward
/// changes nothing, and in the first one a step back does not.
pub proof fn steps_go_from_cell_to_cell(
    s: EditorView,
    i: int,
    grid: RuntimeView,
    row: usize,
    column: usize,
)
    requires
        0 <= i < s.document.len(),
        s.document[i].runtime == Some(grid),
        even_rows(grid),
        row <= grid.rows.len(),
        column < grid.header.len(),
    ensures
        ({
            let position = TableCellPosition { row, column };
            let forward = cells::moved_horizontally(s, i, position, 1);
            let back = cells::moved_horizontally(s, i, position, -1);
            &&& column + 1 < grid.header.len() ==> forward.focus.pending_focus == Some(
                cell_id(grid, row as int, column + 1),
            )
            &&& column + 1 == grid.header.len() && row < grid.rows.len()
                ==> forward.focus.pending_focus == Some(cell_id(grid, row + 1, 0))
            &&& column + 1 == grid.header.len() && row == grid.rows.len() ==> forward == s
            &&& column > 0 ==> back.focus.pending_focus == Some(
                cell_id(grid, row as int, column - 1),
            )
            &&& column == 0 && row > 0 ==> back.focus.pending_focus == Some(
                cell_id(grid, row - 1, grid.header.len() - 1),
            )
            &&& column == 0 && row == 0 ==> back == s
            &&& forward.document == s.document
            &&& back.document == s.document
        }),
{
    let columns = grid.header.len() as int;
    let rows = grid.rows.len() as int;
    let here = row * columns + column;
    if column + 1 < columns {
        lemma_place(row as int, column + 1, columns);
        lemma_inside(row as int, column + 1, rows, columns);
    } else {
        lemma_place(row + 1, 0, columns);
        lemma_inside(row + 1, 0, rows, columns);
        assert(here + 1 == (row + 1) * columns) by (nonlinear_arith)
            requires
                here == row * columns + column,
                column + 1 == columns,
        ;
    }
    lemma_place(row as int, column as int, columns);
    if column > 0 {
        lemma_place(row as int, column - 1, columns);
        lemma_inside(row as int, column - 1, rows, columns);
    } else if row > 0 {
        lemma_place(row - 1, columns - 1, columns);
        lemma_inside(row - 1, columns - 1, rows, columns);
        assert(here - 1 == (row - 1) * columns + (columns - 1)) by (nonlinear_arith)
            requires
                here == row * columns,
        ;
    }
    if 0 < row <= rows {
        assert(grid.rows[row - 1].len() == columns);
    }
    if row < rows {
        assert(grid.rows[row as int].len() == columns);
    }
    if row > 1 {
        assert(grid.rows[row - 2].len() == columns);
    }
}

/// A step down goes to the cell below in the same column, and a step up to the one
/// above. From the last row a step down leaves the table for the block behind it, and
/// from the header a step up for the block before it; there the caret goes to the offset
/// that the view gives.
pub proof fn steps_go_up_and_down_a_column(
    s: EditorView,
    i: int,
    grid: RuntimeView,
    row: usize,
    column: usize,
    offset: usize,
)
    requires
        0 <= i < s.document.len(),
        s.document[i].runtime == Some(grid),
        even_rows(grid),
        row <= grid.rows.len(),
        column < grid.header.len(),
    ensures
        ({
            let position = TableCellPosition { row, column };
            let down = cells::moved_vertically(s, i, position, 1, offset);
            let up = cells::moved_vertically(s, i, position, -1, offset);
            &&& row < grid.rows.len() ==> down.focus.pending_focus == Some(
                cell_id(grid, row + 1, column as int),
            ) && down.document == s.document
            &&& row > 0 ==> up.focus.pending_focus == Some(cell_id(grid, row - 1, column as int))
                && up.document == s.document
            &&& row == grid.rows.len() && i + 1 < s.document.len() ==> arrived(
                s,
                down,
                i + 1,
                true,
                offset,
            )
            &&& row == grid.rows.len() && i + 1 == s.document.len() ==> down == s
            &&& row == 0 && i > 0 ==> arrived(s, up, i - 1, false, offset)
            &&& row == 0 && i == 0 ==> up == s
        }),
{
    if row < grid.rows.len() {
        assert(grid.rows[row as int].len() == grid.header.len());
    }
    if row > 1 {
        assert(grid.rows[row - 2].len() == grid.header.len());
    }
}

// ---------------------------------------------------------------------------
// Blocks
// ---------------------------------------------------------------------------

/// Whether the caret went into the block at `to`. In a table it goes into the first cell
/// of the header where it comes from above, and into the first cell of the last row
/// where it comes from below; in any other block to the offset `offset`. No text
/// changes.
pub open spec fn arrived(
    s: EditorView,
    after: EditorView,
    to: int,
    from_above: bool,
    offset: usize,
) -> bool {
    &&& after.document.len() == s.document.len()
    &&& forall|k: int|
        0 <= k < s.document.len() && k != to ==> #[trigger] after.document[k] == s.document[k]
    &&& after.document[to].title == s.document[to].title
    &&& after.document[to].kind == s.document[to].kind
    &&& after.document[to].id == s.document[to].id
    &&& !(s.document[to].kind is Table) ==> after.focus.pending_focus == Some(s.document[to].id)
        && after.document[to].selection == (BlockSelection::Visible { start: offset, end: offset })
    &&& s.document[to].kind is Table ==> (s.document[to].runtime matches Some(grid) ==> {
        &&& from_above && grid.header.len() > 0 ==> after.focus.pending_focus == Some(
            grid.header[0].id,
        )
        &&& !from_above && grid.rows.len() > 0 && grid.rows[grid.rows.len() - 1].len() > 0
            ==> after.focus.pending_focus == Some(grid.rows[grid.rows.len() - 1][0].id)
        &&& !from_above && grid.rows.len() == 0 && grid.header.len() > 0
            ==> after.focus.pending_focus == Some(grid.header[0].id)
    })
}

/// Leaving a block upwards goes into the block before it, and downwards into the one
/// behind it, at the offset that the view gives; skipping a block goes to its start. From
/// the first block no step leads up, and from the last one, unless its text has several
/// lines, none down.
pub proof fn the_caret_goes_from_block_to_block(
    s: EditorView,
    i: int,
    offset: usize,
    semantic: Seq<Seq<char>>,
    facts: DocumentFacts,
    now: u64,
)
    requires
        document::well_formed(s.document, s.next_id),
        0 <= i < s.document.len(),
    ensures
        ({
            let id = s.document[i].id;
            let up = events::event_applied(
                s,
                id,
                BlockEvent::RequestFocusPrev { entry_offset: offset },
                semantic,
                facts,
                now,
            ).0;
            let skipped_up = events::event_applied(
                s,
                id,
                BlockEvent::RequestBlockUp,
                semantic,
                facts,
                now,
            ).0;
            &&& i > 0 ==> arrived(s, up, i - 1, false, offset)
            &&& i == 0 ==> up == s
            &&& i > 0 ==> arrived(s, skipped_up, i - 1, false, 0)
            &&& i == 0 ==> skipped_up == s
        }),
        ({
            let id = s.document[i].id;
            let down = events::event_applied(
                s,
                id,
                BlockEvent::RequestFocusNext { entry_offset: offset },
                semantic,
                facts,
                now,
            ).0;
            let skipped_down = events::event_applied(
                s,
                id,
                BlockEvent::RequestBlockDown,
                semantic,
                facts,
                now,
            ).0;
            &&& i + 1 < s.document.len() ==> arrived(s, down, i + 1, true, offset)
            &&& i + 1 < s.document.len() ==> arrived(s, skipped_down, i + 1, true, 0)
            &&& i + 1 == s.document.len() ==> skipped_down == s
            &&& i + 1 == s.document.len() && (s.document[i].kind is Paragraph
                || s.document[i].kind is Heading || s.document[i].kind is BulletedListItem
                || s.document[i].kind is NumberedListItem || s.document[i].kind is TaskListItem
                || s.document[i].kind is Quote) ==> down == s
        }),
{
    lemma_up(s, i, offset, semantic, facts, now);
    lemma_skip_up(s, i, semantic, facts, now);
    lemma_down(s, i, offset, semantic, facts, now);
    lemma_skip_down(s, i, semantic, facts, now);
    lemma_left(s, i, true, offset);
    lemma_left(s, i, true, 0);
    lemma_left(s, i, false, offset);
    lemma_left(s, i, false, 0);
}

proof fn lemma_left(s: EditorView, i: int, upwards: bool, offset: usize)
    requires
        0 <= i < s.document.len(),
    ensures
        ({
            let to = if upwards {
                i - 1
            } else {
                i + 1
            };
            let after = cells::left_block(s, i, upwards, offset);
            if 0 <= to < s.document.len() {
                arrived(s, after, to, !upwards, offset)
            } else {
                after == s
            }
        }),
{
}

proof fn lemma_up(
    s: EditorView,
    i: int,
    offset: usize,
    semantic: Seq<Seq<char>>,
    facts: DocumentFacts,
    now: u64,
)
    requires
        document::well_formed(s.document, s.next_id),
        0 <= i < s.document.len(),
    ensures
        events::event_applied(
            s,
            s.document[i].id,
            BlockEvent::RequestFocusPrev { entry_offset: offset },
            semantic,
            facts,
            now,
        ).0 == cells::left_block(s, i, true, offset),
{
    event_laws::events_of_blocks_are_theirs(
        s,
        i,
        BlockEvent::RequestFocusPrev { entry_offset: offset },
        semantic,
        facts,
        now,
    );
    reveal(events::block_event);
}

proof fn lemma_skip_up(
    s: EditorView,
    i: int,
    semantic: Seq<Seq<char>>,
    facts: DocumentFacts,
    now: u64,
)
    requires
        document::well_formed(s.document, s.next_id),
        0 <= i < s.document.len(),
    ensures
        events::event_applied(
            s,
            s.document[i].id,
            BlockEvent::RequestBlockUp,
            semantic,
            facts,
            now,
        ).0 == cells::left_block(s, i, true, 0),
{
    event_laws::events_of_blocks_are_theirs(
        s,
        i,
        BlockEvent::RequestBlockUp,
        semantic,
        facts,
        now,
    );
    reveal(events::block_event);
}

proof fn lemma_down(
    s: EditorView,
    i: int,
    offset: usize,
    semantic: Seq<Seq<char>>,
    facts: DocumentFacts,
    now: u64,
)
    requires
        document::well_formed(s.document, s.next_id),
        0 <= i < s.document.len(),
    ensures
        events::event_applied(
            s,
            s.document[i].id,
            BlockEvent::RequestFocusNext { entry_offset: offset },
            semantic,
            facts,
            now,
        ).0 == events::next_requested(s, i, offset),
{
    event_laws::events_of_blocks_are_theirs(
        s,
        i,
        BlockEvent::RequestFocusNext { entry_offset: offset },
        semantic,
        facts,
        now,
    );
    reveal(events::block_event);
}

proof fn lemma_skip_down(
    s: EditorView,
    i: int,
    semantic: Seq<Seq<char>>,
    facts: DocumentFacts,
    now: u64,
)
    requires
        document::well_formed(s.document, s.next_id),
        0 <= i < s.document.len(),
    ensures
        events::event_applied(
            s,
            s.document[i].id,
            BlockEvent::RequestBlockDown,
            semantic,
            facts,
            now,
        ).0 == cells::left_block(s, i, false, 0),
{
    event_laws::events_of_blocks_are_theirs(
        s,
        i,
        BlockEvent::RequestBlockDown,
        semantic,
        facts,
        now,
    );
    reveal(events::block_event);
}

/// A click into a block gives it the focus, and a jump to a footnote gives the focus to
/// its definition, at the start, or to its first reference, if they are there.
pub proof fn clicks_and_jumps_give_the_focus(
    s: EditorView,
    id: u64,
    definition: u64,
    reference: FootnoteReference,
)
    requires
        document::index_of(s.document, definition) is Some,
        document::index_of(s.document, reference.entity_id) is Some,
    ensures
        cells::focus_requested(s, id).focus.pending_focus == Some(id),
        events::definition_shown(s, Some(definition)).focus.pending_focus == Some(definition),
        events::reference_shown(s, Some(reference)).focus.pending_focus == Some(
            reference.entity_id,
        ),
        ({
            let at = document::index_of(s.document, definition)->0;
            let shown = events::definition_shown(s, Some(definition)).document;
            shown[at].selection == (BlockSelection::Visible { start: 0, end: 0 })
        }),
        ({
            let at = document::index_of(s.document, reference.entity_id)->0;
            let shown = events::reference_shown(s, Some(reference)).document;
            shown[at].selection == (BlockSelection::Visible {
                start: reference.start,
                end: reference.end,
            })
        }),
        events::definition_shown(s, None) == s,
        events::reference_shown(s, None) == s,
{
    document::lemma_index_from(s.document, definition, 0);
    document::lemma_index_from(s.document, reference.entity_id, 0);
}

} // verus!
