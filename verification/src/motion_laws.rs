//! Which events leave the document as it is.

use crate::cells;
use crate::document;
use crate::editor::{EditorView, TableAxisSelection, TableCellPosition};
use crate::event_laws;
use crate::events;
use crate::events::BlockEvent;
use crate::focus;
use crate::history::DocumentFacts;
use crate::table_edit;
use crate::tables;
use crate::targets;
use vstd::prelude::*;

verus! {

/// Whether an event only moves the caret, points at something or asks for something
/// to be shown.
pub open spec fn looks_around(event: BlockEvent) -> bool {
    event is PrepareUndo || event is RequestOpenLink || event is RequestJumpToFootnoteDefinition
        || event is RequestJumpToFootnoteBackref || event is RequestTableAxisPreview
        || event is RequestSelectTableAxis || event is RequestOpenTableAxisMenu
        || event is RequestStartTableColumnResize || event is RequestUpdateTableColumnResize
        || event is RequestTableCellMoveHorizontal || event is RequestTableCellMoveVertical
        || event is RequestFocusPrev || event is RequestBlockUp || event is RequestBlockDown
        || event is RequestFocus
}

proof fn lemma_axis_shown(s: EditorView, axis: Option<TableAxisSelection>)
    ensures
        event_laws::same_content(s.document, tables::with_preview(s, axis).document),
        event_laws::same_content(s.document, tables::with_selection(s, axis).document),
{
}

proof fn lemma_axis_chosen(s: EditorView, axis: TableAxisSelection)
    ensures
        event_laws::same_content(s.document, tables::axis_chosen(s, axis).document),
{
    let shown = tables::with_preview(s, Some(axis));
    lemma_axis_shown(s, Some(axis));
    lemma_axis_shown(shown, Some(axis));
}

proof fn lemma_clicked(s: EditorView, id: u64)
    ensures
        event_laws::same_content(s.document, cells::focus_requested(s, id).document),
{
    let closed = focus::menu_bar_closed(s);
    let plain = tables::with_preview(closed, None);
    lemma_axis_shown(closed, None);
    lemma_axis_shown(plain, None);
}

proof fn lemma_left(s: EditorView, i: int, upwards: bool, offset: usize)
    ensures
        event_laws::same_content(s.document, cells::left_block(s, i, upwards, offset).document),
{
}

proof fn lemma_left_table(s: EditorView, i: int, delta: int, offset: usize)
    ensures
        event_laws::same_content(s.document, cells::left_table(s, i, delta, offset).document),
{
}

proof fn lemma_jumped(
    s: EditorView,
    definition: Option<u64>,
    reference: Option<events::FootnoteReference>,
)
    ensures
        event_laws::same_content(s.document, events::definition_shown(s, definition).document),
        event_laws::same_content(s.document, events::reference_shown(s, reference).document),
{
}

proof fn lemma_widths_shown(s: EditorView, fractions: Seq<u32>)
    ensures
        event_laws::same_content(
            s.document,
            table_edit::resize_updated(s, fractions).document,
        ),
{
    if let Some(drag) = s.axis.resize_drag {
        document::lemma_index_from(s.document, drag.table_block_id, 0);
    }
}

proof fn lemma_looking_table_request(
    s: EditorView,
    id: u64,
    is_table: bool,
    event: BlockEvent,
    facts: DocumentFacts,
    now: u64,
)
    requires
        looks_around(event),
    ensures
        event_laws::same_content(s.document, events::table_request(s, id, is_table, event, facts, now).0.document),
        !events::table_request(s, id, is_table, event, facts, now).1.finalize,
{
    reveal(events::table_request);
    match event {
        BlockEvent::RequestTableAxisPreview { kind, index, hovered } => {
            let axis = TableAxisSelection { table_block_id: id, kind, index };
            lemma_axis_shown(s, Some(axis));
            lemma_axis_shown(s, None);
        },
        BlockEvent::RequestSelectTableAxis { kind, index } => {
            lemma_axis_chosen(s, TableAxisSelection { table_block_id: id, kind, index });
        },
        BlockEvent::RequestOpenTableAxisMenu { kind, index, position } => {
            lemma_axis_chosen(s, TableAxisSelection { table_block_id: id, kind, index });
        },
        BlockEvent::RequestUpdateTableColumnResize { fractions } => {
            lemma_widths_shown(s, fractions@);
        },
        _ => {},
    }
}

proof fn lemma_looking_block_event(
    s: EditorView,
    i: int,
    event: BlockEvent,
    semantic: Seq<Seq<char>>,
    facts: DocumentFacts,
    now: u64,
)
    requires
        looks_around(event),
    ensures
        event_laws::same_content(s.document, events::block_event(s, i, event, semantic, facts, now).0.document),
        !events::block_event(s, i, event, semantic, facts, now).1.finalize,
{
    reveal(events::block_event);
    match event {
        BlockEvent::RequestOpenLink { prompt_target, open_target } => {},
        BlockEvent::RequestJumpToFootnoteDefinition { definition } => {
            lemma_jumped(s, definition, None);
        },
        BlockEvent::RequestJumpToFootnoteBackref { reference } => {
            lemma_jumped(s, None, reference);
        },
        BlockEvent::RequestFocusPrev { entry_offset } => {
            lemma_left(s, i, true, entry_offset);
        },
        BlockEvent::RequestBlockUp => {
            lemma_left(s, i, true, 0);
        },
        BlockEvent::RequestBlockDown => {
            lemma_left(s, i, false, 0);
        },
        BlockEvent::RequestFocus => {
            lemma_clicked(s, s.document[i].id);
        },
        _ => {
            lemma_looking_table_request(
                s,
                s.document[i].id,
                s.document[i].kind is Table,
                event,
                facts,
                now,
            );
        },
    }
}

proof fn lemma_looking_cell_event(
    s: EditorView,
    cell: u64,
    i: int,
    position: TableCellPosition,
    event: BlockEvent,
    facts: DocumentFacts,
    now: u64,
)
    requires
        looks_around(event),
    ensures
        event_laws::same_content(
            s.document,
            events::cell_event(s, cell, i, position, event, facts, now).0.document,
        ),
        !events::cell_event(s, cell, i, position, event, facts, now).1.finalize,
{
    reveal(events::cell_event);
    match event {
        BlockEvent::RequestOpenLink { prompt_target, open_target } => {},
        BlockEvent::RequestJumpToFootnoteDefinition { definition } => {
            lemma_jumped(s, definition, None);
        },
        BlockEvent::RequestJumpToFootnoteBackref { reference } => {
            lemma_jumped(s, None, reference);
        },
        BlockEvent::RequestTableCellMoveHorizontal { delta } => {},
        BlockEvent::RequestTableCellMoveVertical { delta, entry_offset } => {
            lemma_left_table(s, i, delta as int, entry_offset);
        },
        BlockEvent::RequestFocusPrev { entry_offset } => {
            lemma_left_table(s, i, -1, entry_offset);
        },
        BlockEvent::RequestBlockUp => {
            lemma_left(s, i, true, 0);
        },
        BlockEvent::RequestBlockDown => {
            lemma_left(s, i, false, 0);
        },
        BlockEvent::RequestFocus => {
            lemma_clicked(s, cell);
        },
        _ => {},
    }
}

proof fn lemma_looking_stray_event(
    s: EditorView,
    id: u64,
    event: BlockEvent,
    facts: DocumentFacts,
    now: u64,
)
    requires
        looks_around(event),
    ensures
        event_laws::same_content(s.document, events::stray_event(s, id, event, facts, now).0.document),
        !events::stray_event(s, id, event, facts, now).1.finalize,
{
    reveal(events::stray_event);
    if events::glances(event) {
        lemma_glance(s, id, event);
    } else {
        lemma_looking_table_request(s, id, events::gone_table(facts, id), event, facts, now);
    }
}

proof fn lemma_glance(s: EditorView, id: u64, event: BlockEvent)
    requires
        looks_around(event),
    ensures
        event_laws::same_content(s.document, events::stray_glance(s, id, event).document),
{
    reveal(events::stray_glance);
    match event {
        BlockEvent::RequestJumpToFootnoteDefinition { definition } => {
            lemma_jumped(s, definition, None);
        },
        BlockEvent::RequestJumpToFootnoteBackref { reference } => {
            lemma_jumped(s, None, reference);
        },
        BlockEvent::RequestBlockDown => {
            lemma_left(s, 0, false, 0);
        },
        BlockEvent::RequestFocus => {
            lemma_clicked(s, id);
        },
        _ => {},
    }
}

/// Moving about leaves the document as it is, and no edit to undo.
pub proof fn looking_around_changes_nothing(
    s: EditorView,
    id: u64,
    event: BlockEvent,
    semantic: Seq<Seq<char>>,
    facts: DocumentFacts,
    now: u64,
)
    requires
        looks_around(event),
    ensures
        event_laws::same_content(
            s.document,
            events::event_applied(s, id, event, semantic, facts, now).0.document,
        ),
        !events::event_applied(s, id, event, semantic, facts, now).1.finalize,
{
    let ready = events::selection_ended(s, event);
    match event {
        BlockEvent::PrepareUndo { capture } => {},
        _ => {
            match targets::binding_of(s.document, id) {
                Some(binding) => {
                    lemma_looking_cell_event(ready, id, binding.0, binding.1, event, facts, now);
                },
                None => {
                    match document::index_of(s.document, id) {
                        Some(i) => {
                            lemma_looking_block_event(ready, i, event, semantic, facts, now);
                        },
                        None => {
                            lemma_looking_stray_event(ready, id, event, facts, now);
                        },
                    }
                },
            }
        },
    }
}

} // verus!
