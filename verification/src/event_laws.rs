//! What events leave in the undo history.

use crate::blocks;
use crate::blocks::BlockKind;
use crate::cell_laws;
use crate::cells;
use crate::document;
use crate::editor::{
    EditorView, HistoryView, NodeView, Nodes, TableAxisSelection, TableCellPosition,
    UndoCaptureKind, ViewMode,
};
use crate::events;
use crate::events::{BlockEvent, EventOutcome};
use crate::focus;
use crate::history;
use crate::history::DocumentFacts;
use crate::paste;
use crate::restore;
use crate::tables;
use crate::targets;
use vstd::prelude::*;

verus! {

/// Whether a capture of the document that `facts` describes is open, and the history
/// is as it was before.
pub open spec fn captured(before: EditorView, after: EditorView, facts: DocumentFacts) -> bool {
    &&& after.history.pending_capture matches Some(entry) && entry.source_text == facts.source@
        && entry.kind == UndoCaptureKind::NonCoalescible
    &&& after.history == (HistoryView {
        pending_capture: after.history.pending_capture,
        ..before.history
    })
}

/// Whether an edit can begin a capture of its own.
pub open spec fn at_rest(s: EditorView) -> bool {
    s.history.pending_capture is None && !s.history.restore_in_progress
}

/// Whether an event makes an edit by itself. The text of a block changes before the
/// editor hears of it, and the capture was begun then.
pub open spec fn edits_by_itself(event: BlockEvent) -> bool {
    event !is Changed && (event matches BlockEvent::RequestNewline {
        trailing,
        source_already_mutated,
    } ==> !source_already_mutated)
}

proof fn lemma_table_request(
    s: EditorView,
    id: u64,
    is_table: bool,
    event: BlockEvent,
    facts: DocumentFacts,
    now: u64,
)
    requires
        at_rest(s),
        events::table_request(s, id, is_table, event, facts, now).1.finalize,
    ensures
        captured(s, events::table_request(s, id, is_table, event, facts, now).0, facts),
{
    reveal(events::table_request);
}

proof fn lemma_line_entered(
    s: EditorView,
    i: int,
    trailing: blocks::Title,
    facts: DocumentFacts,
    now: u64,
)
    requires
        at_rest(s),
    ensures
        captured(s, events::line_entered(s, i, trailing, false, facts, now).0, facts),
{
    reveal(events::line_entered);
}

proof fn lemma_delete_requested(
    s: EditorView,
    i: int,
    title: Seq<char>,
    facts: DocumentFacts,
    now: u64,
)
    requires
        at_rest(s),
        events::delete_requested(s, i, title, facts, now).1.finalize,
    ensures
        captured(s, events::delete_requested(s, i, title, facts, now).0, facts),
{
    reveal(events::delete_requested);
}

proof fn lemma_pasted(
    s: EditorView,
    i: int,
    paste: paste::MultilinePaste,
    semantic: Seq<Seq<char>>,
    facts: DocumentFacts,
    now: u64,
)
    requires
        at_rest(s),
        paste::pasted(s, i, paste, semantic, facts, now).1.pasted,
    ensures
        captured(s, paste::pasted(s, i, paste, semantic, facts, now).0, facts),
{
    reveal(paste::tail_pasted);
}

proof fn lemma_block_event(
    s: EditorView,
    i: int,
    event: BlockEvent,
    semantic: Seq<Seq<char>>,
    facts: DocumentFacts,
    now: u64,
)
    requires
        at_rest(s),
        edits_by_itself(event),
        events::block_event(s, i, event, semantic, facts, now).1.finalize,
    ensures
        captured(s, events::block_event(s, i, event, semantic, facts, now).0, facts),
{
    reveal(events::block_event);
    match event {
        BlockEvent::RequestNewline { trailing, source_already_mutated } => {
            lemma_line_entered(s, i, trailing@, facts, now);
        },
        BlockEvent::RequestPasteMultiline { paste } => {
            lemma_pasted(s, i, paste, semantic, facts, now);
        },
        BlockEvent::RequestDelete { parent_title_markdown } => {
            lemma_delete_requested(s, i, parent_title_markdown@, facts, now);
        },
        BlockEvent::RequestEnterCalloutBody => {},
        BlockEvent::RequestQuoteBreak => {},
        BlockEvent::RequestCalloutBreak => {},
        BlockEvent::RequestMergeIntoPrev { content } => {},
        BlockEvent::RequestIndent => {},
        BlockEvent::RequestOutdent => {},
        BlockEvent::RequestDowngradeNestedListItemToChildParagraph => {},
        BlockEvent::ToggleTaskChecked => {},
        BlockEvent::RequestOpenLink { prompt_target, open_target } => {},
        BlockEvent::RequestJumpToFootnoteDefinition { definition } => {},
        BlockEvent::RequestJumpToFootnoteBackref { reference } => {},
        BlockEvent::RequestFocusPrev { entry_offset } => {},
        BlockEvent::RequestFocusNext { entry_offset } => {},
        BlockEvent::RequestBlockUp => {},
        BlockEvent::RequestBlockDown => {},
        BlockEvent::RequestFocus => {},
        _ => {
            lemma_table_request(
                s,
                s.document[i].id,
                s.document[i].kind is Table,
                event,
                facts,
                now,
            );
        },
    }
}

proof fn lemma_cell_event(
    s: EditorView,
    cell: u64,
    i: int,
    position: TableCellPosition,
    event: BlockEvent,
    facts: DocumentFacts,
    now: u64,
)
    requires
        at_rest(s),
        edits_by_itself(event),
        events::cell_event(s, cell, i, position, event, facts, now).1.finalize,
    ensures
        captured(s, events::cell_event(s, cell, i, position, event, facts, now).0, facts),
{
    reveal(events::cell_event);
}

proof fn lemma_stray_event(
    s: EditorView,
    id: u64,
    event: BlockEvent,
    facts: DocumentFacts,
    now: u64,
)
    requires
        at_rest(s),
        edits_by_itself(event),
        events::stray_event(s, id, event, facts, now).1.finalize,
    ensures
        captured(s, events::stray_event(s, id, event, facts, now).0, facts),
{
    reveal(events::stray_event);
    if !events::glances(event) && events::table_request(
        s,
        id,
        events::gone_table(facts, id),
        event,
        facts,
        now,
    ).1.finalize {
        lemma_table_request(s, id, events::gone_table(facts, id), event, facts, now);
    }
}

/// An event that makes an edit keeps the document before it in an undo capture.
pub proof fn edits_are_captured(
    s: EditorView,
    id: u64,
    event: BlockEvent,
    semantic: Seq<Seq<char>>,
    facts: DocumentFacts,
    now: u64,
)
    requires
        at_rest(s),
        edits_by_itself(event),
        events::event_applied(s, id, event, semantic, facts, now).1.finalize,
    ensures
        captured(s, events::event_applied(s, id, event, semantic, facts, now).0, facts),
{
    let ready = events::selection_ended(s, event);
    match event {
        BlockEvent::PrepareUndo { capture } => {},
        BlockEvent::RequestPasteImage { image } => {},
        _ => {
            match targets::binding_of(s.document, id) {
                Some(binding) => {
                    lemma_cell_event(ready, id, binding.0, binding.1, event, facts, now);
                },
                None => {
                    match document::index_of(s.document, id) {
                        Some(i) => {
                            lemma_block_event(ready, i, event, semantic, facts, now);
                        },
                        None => {
                            lemma_stray_event(ready, id, event, facts, now);
                        },
                    }
                },
            }
        },
    }
}

/// Reading quotes anew and the rest of what an event leaves to do keep the history.
pub proof fn what_is_left_keeps_the_history(
    s: EditorView,
    before: DocumentFacts,
    semantic: Seq<Seq<char>>,
    after_load: DocumentFacts,
    outcome: EventOutcome,
)
    ensures
        restore::quotes_normalized(s, before, semantic, after_load).history == s.history,
        events::settled(s, outcome).history == s.history,
{
}

proof fn lemma_open_table_request(
    s: EditorView,
    id: u64,
    is_table: bool,
    event: BlockEvent,
    facts: DocumentFacts,
    now: u64,
)
    requires
        s.history.pending_capture is Some,
    ensures
        events::table_request(s, id, is_table, event, facts, now).0.history == s.history,
{
    reveal(events::table_request);
}

proof fn lemma_open_steps(s: EditorView, i: int, title: Seq<char>, facts: DocumentFacts, now: u64)
    requires
        s.history.pending_capture is Some,
    ensures
        events::text_changed(s, i, title).0.history == s.history,
        events::delete_requested(s, i, title, facts, now).0.history == s.history,
{
    reveal(events::text_changed);
    reveal(events::delete_requested);
}

proof fn lemma_open_line_entered(
    s: EditorView,
    i: int,
    trailing: blocks::Title,
    source_already_mutated: bool,
    facts: DocumentFacts,
    now: u64,
)
    requires
        s.history.pending_capture is Some,
    ensures
        events::line_entered(s, i, trailing, source_already_mutated, facts, now).0.history
            == s.history,
{
    reveal(events::line_entered);
}

proof fn lemma_open_pasted(
    s: EditorView,
    i: int,
    paste: paste::MultilinePaste,
    semantic: Seq<Seq<char>>,
    facts: DocumentFacts,
    now: u64,
)
    requires
        s.history.pending_capture is Some,
    ensures
        paste::pasted(s, i, paste, semantic, facts, now).0.history == s.history,
{
    reveal(paste::tail_pasted);
}

proof fn lemma_open_block_event(
    s: EditorView,
    i: int,
    event: BlockEvent,
    semantic: Seq<Seq<char>>,
    facts: DocumentFacts,
    now: u64,
)
    requires
        s.history.pending_capture is Some,
    ensures
        events::block_event(s, i, event, semantic, facts, now).0.history == s.history,
{
    reveal(events::block_event);
    match event {
        BlockEvent::Changed { title_markdown } => {
            lemma_open_steps(s, i, title_markdown@, facts, now);
        },
        BlockEvent::RequestNewline { trailing, source_already_mutated } => {
            lemma_open_line_entered(s, i, trailing@, source_already_mutated, facts, now);
        },
        BlockEvent::RequestPasteMultiline { paste } => {
            lemma_open_pasted(s, i, paste, semantic, facts, now);
        },
        BlockEvent::RequestDelete { parent_title_markdown } => {
            lemma_open_steps(s, i, parent_title_markdown@, facts, now);
        },
        BlockEvent::RequestEnterCalloutBody => {},
        BlockEvent::RequestQuoteBreak => {},
        BlockEvent::RequestCalloutBreak => {},
        BlockEvent::RequestMergeIntoPrev { content } => {},
        BlockEvent::RequestIndent => {},
        BlockEvent::RequestOutdent => {},
        BlockEvent::RequestDowngradeNestedListItemToChildParagraph => {},
        BlockEvent::ToggleTaskChecked => {},
        BlockEvent::RequestOpenLink { prompt_target, open_target } => {},
        BlockEvent::RequestJumpToFootnoteDefinition { definition } => {},
        BlockEvent::RequestJumpToFootnoteBackref { reference } => {},
        BlockEvent::RequestFocusPrev { entry_offset } => {},
        BlockEvent::RequestFocusNext { entry_offset } => {},
        BlockEvent::RequestBlockUp => {},
        BlockEvent::RequestBlockDown => {},
        BlockEvent::RequestFocus => {},
        _ => {
            lemma_open_table_request(
                s,
                s.document[i].id,
                s.document[i].kind is Table,
                event,
                facts,
                now,
            );
        },
    }
}

proof fn lemma_open_cell_event(
    s: EditorView,
    cell: u64,
    i: int,
    position: TableCellPosition,
    event: BlockEvent,
    facts: DocumentFacts,
    now: u64,
)
    requires
        s.history.pending_capture is Some,
    ensures
        events::cell_event(s, cell, i, position, event, facts, now).0.history == s.history,
{
    reveal(events::cell_event);
}

proof fn lemma_open_stray_event(
    s: EditorView,
    id: u64,
    event: BlockEvent,
    facts: DocumentFacts,
    now: u64,
)
    requires
        s.history.pending_capture is Some,
    ensures
        events::stray_event(s, id, event, facts, now).0.history == s.history,
{
    reveal(events::stray_event);
    reveal(events::stray_glance);
    lemma_open_table_request(s, id, events::gone_table(facts, id), event, facts, now);
}

/// A capture that is open stays as it is, whatever a block or cell asks for.
pub proof fn an_open_capture_stays(
    s: EditorView,
    id: u64,
    event: BlockEvent,
    semantic: Seq<Seq<char>>,
    facts: DocumentFacts,
    now: u64,
)
    requires
        s.history.pending_capture is Some,
    ensures
        events::event_applied(s, id, event, semantic, facts, now).0.history == s.history,
{
    let ready = events::selection_ended(s, event);
    match event {
        BlockEvent::PrepareUndo { capture } => {},
        BlockEvent::RequestPasteImage { image } => {},
        _ => {
            match targets::binding_of(s.document, id) {
                Some(binding) => {
                    lemma_open_cell_event(ready, id, binding.0, binding.1, event, facts, now);
                },
                None => {
                    match document::index_of(s.document, id) {
                        Some(i) => {
                            lemma_open_block_event(ready, i, event, semantic, facts, now);
                        },
                        None => {
                            lemma_open_stray_event(ready, id, event, facts, now);
                        },
                    }
                },
            }
        },
    }
}

/// Whether two documents hold the same blocks, but for selections and highlights.
pub open spec fn same_content(a: Nodes, b: Nodes) -> bool {
    &&& a.len() == b.len()
    &&& forall|i: int|
        0 <= i < a.len() ==> (#[trigger] b[i]).id == a[i].id && b[i].depth == a[i].depth
            && b[i].kind == a[i].kind && b[i].title == a[i].title && b[i].table == a[i].table
}

/// Clicking the box of a task turns it over and leaves the rest of the document as it
/// is; clicking it once more, with the undo capture closed in between or not, gives the
/// document again. On a block of another kind a click leaves the document as it is.
pub proof fn clicking_a_task_twice_restores_the_document(
    s: EditorView,
    id: u64,
    i: int,
    semantic: Seq<Seq<char>>,
    facts: DocumentFacts,
    now: u64,
    between: EditorView,
    facts_again: DocumentFacts,
    later: u64,
)
    requires
        document::well_formed(s.document, s.next_id),
        document::index_of(s.document, id) == Some(i),
        between.document == events::event_applied(
            s,
            id,
            BlockEvent::ToggleTaskChecked,
            semantic,
            facts,
            now,
        ).0.document,
    ensures
        ({
            let toggle = BlockEvent::ToggleTaskChecked;
            let once = events::event_applied(s, id, toggle, semantic, facts, now).0;
            let twice = events::event_applied(between, id, toggle, semantic, facts_again, later).0;
            &&& s.document[i].kind matches BlockKind::TaskListItem { checked } ==> once.document
                == s.document.update(
                i,
                NodeView {
                    kind: BlockKind::TaskListItem { checked: !checked },
                    ..s.document[i]
                },
            )
            &&& s.document[i].kind !is TaskListItem ==> once.document == s.document
            &&& twice.document == s.document
        }),
{
    let toggle = BlockEvent::ToggleTaskChecked;
    let once = events::event_applied(s, id, toggle, semantic, facts, now).0;
    document::lemma_index_from(s.document, id, 0);
    cell_laws::blocks_are_not_taken_for_cells(s.document, s.next_id, i);
    lemma_toggled(s, id, i, semantic, facts, now);
    assert(document::same_shape(s.document, once.document));
    document::lemma_same_shape(s.document, once.document, s.next_id);
    cell_laws::blocks_are_not_taken_for_cells(once.document, s.next_id, i);
    lemma_toggled(between, id, i, semantic, facts_again, later);
    let twice = events::event_applied(between, id, toggle, semantic, facts_again, later).0;
    events::toggling_twice_restores_the_task(s.document[i]);
    assert(twice.document =~= s.document);
    if s.document[i].kind !is TaskListItem {
        assert(once.document =~= s.document);
    }
}

proof fn lemma_toggled(
    s: EditorView,
    id: u64,
    i: int,
    semantic: Seq<Seq<char>>,
    facts: DocumentFacts,
    now: u64,
)
    requires
        document::index_of(s.document, id) == Some(i),
        targets::binding_of(s.document, id) is None,
    ensures
        events::event_applied(
            s,
            id,
            BlockEvent::ToggleTaskChecked,
            semantic,
            facts,
            now,
        ).0.document == s.document.update(i, events::toggled(s.document[i])),
{
    reveal(events::block_event);
}

/// An event of a block in the document is handled as one of that block, never as one of
/// a cell.
pub proof fn events_of_blocks_are_theirs(
    s: EditorView,
    k: int,
    event: BlockEvent,
    semantic: Seq<Seq<char>>,
    facts: DocumentFacts,
    now: u64,
)
    requires
        document::well_formed(s.document, s.next_id),
        0 <= k < s.document.len(),
        event !is PrepareUndo,
        event !is RequestPasteImage,
    ensures
        events::event_applied(s, s.document[k].id, event, semantic, facts, now)
            == events::block_event(
            events::selection_ended(s, event),
            k,
            event,
            semantic,
            facts,
            now,
        ),
{
    cell_laws::blocks_are_not_taken_for_cells(s.document, s.next_id, k);
}

/// One undo takes back what an event did: once the event is done, the newest state in
/// the history is the document before it. `shown` is the state when what the event
/// left to do is done, and `after` describes it.
pub proof fn one_undo_takes_back_an_event(
    s: EditorView,
    id: u64,
    event: BlockEvent,
    semantic: Seq<Seq<char>>,
    facts: DocumentFacts,
    now: u64,
    shown: EditorView,
    after: DocumentFacts,
)
    requires
        at_rest(s),
        s.history.limit > 0,
        edits_by_itself(event),
        events::event_applied(s, id, event, semantic, facts, now).1.finalize,
        shown.history == events::event_applied(s, id, event, semantic, facts, now).0.history,
        after.source@ != facts.source@,
    ensures
        ({
            let closed = history::finalized(shown, after).history;
            &&& closed.undo.len() > 0
            &&& closed.undo.last().source_text == facts.source@
            &&& closed.redo.len() == 0
            &&& closed.pending_capture is None
        }),
{
    edits_are_captured(s, id, event, semantic, facts, now);
    history::an_edit_can_be_undone(shown, after);
}

} // verus!
