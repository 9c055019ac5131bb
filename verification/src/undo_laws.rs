//! What undo and redo read.

use crate::blocks;
use crate::editor::{
    EditorView, HistoryEntry, HistoryView, TableAxisSelection, UndoCaptureKind,
    UndoSelectionSnapshot, ViewMode,
};
use crate::event_laws;
use crate::history;
use crate::history::DocumentFacts;
use crate::restore;
use crate::tables;
use vstd::prelude::*;

verus! {

/// Undo reads the document from the Markdown of the newest state in the history.
pub proof fn undo_reads_the_newest_state(
    s: EditorView,
    before: DocumentFacts,
    semantic: Seq<Seq<char>>,
    after_load: DocumentFacts,
    settled: DocumentFacts,
    now: u64,
)
    requires
        s.history.undo.len() > 0,
    ensures
        event_laws::same_content(
            restore::loaded(s, s.history.undo.last().source_text, semantic).document,
            restore::undone(s, before, semantic, after_load, settled, now).document,
        ),
{
    let entry = s.history.undo.last();
    let popped = EditorView {
        history: HistoryView { undo: s.history.undo.drop_last(), ..s.history },
        ..s
    };
    let after = restore::undone(s, before, semantic, after_load, settled, now);
    lemma_read(
        restore::restoring(popped),
        entry.source_text,
        semantic,
        entry.selection,
        after_load,
        after.axis.preview,
        after.axis.selection,
    );
    lemma_same_reading(restore::restoring(popped), s, entry.source_text, semantic);
}

/// Redo right after undo reads the document before the undo. In the source view its
/// text is that document's Markdown as it was. Both histories are as long as they were,
/// and where nothing can be redone, redo changes nothing.
pub proof fn redo_reads_the_document_before_the_undo(
    s: EditorView,
    before: DocumentFacts,
    semantic: Seq<Seq<char>>,
    after_load: DocumentFacts,
    settled: DocumentFacts,
    now: u64,
    between: DocumentFacts,
    semantic_again: Seq<Seq<char>>,
    after_load_again: DocumentFacts,
    settled_again: DocumentFacts,
    later: u64,
)
    requires
        s.history.undo.len() > 0,
    ensures
        ({
            let middle = restore::undone(s, before, semantic, after_load, settled, now);
            let after = restore::redone(
                middle,
                between,
                semantic_again,
                after_load_again,
                settled_again,
                later,
            );
            &&& event_laws::same_content(
                restore::loaded(middle, before.source@, semantic_again).document,
                after.document,
            )
            &&& s.view_mode == ViewMode::Source ==> after.document.len() == 1
                && after.document[0].title == blocks::plain_title(before.source@)
                && after.document[0].display_text == before.source@
            &&& after.history.undo.len() == s.history.undo.len()
            &&& after.history.redo.len() == s.history.redo.len()
        }),
        s.history.redo.len() == 0 ==> restore::redone(
            s,
            before,
            semantic,
            after_load,
            settled,
            now,
        ) == s,
{
    let middle = restore::undone(s, before, semantic, after_load, settled, now);
    restore::undo_moves_one_entry(s, before, semantic, after_load, settled, now);
    restore::redo_moves_one_entry(
        middle,
        between,
        semantic_again,
        after_load_again,
        settled_again,
        later,
    );
    let entry = middle.history.redo.last();
    assert(entry.source_text == before.source@);
    let popped = EditorView {
        history: HistoryView { redo: middle.history.redo.drop_last(), ..middle.history },
        ..middle
    };
    let after = restore::redone(
        middle,
        between,
        semantic_again,
        after_load_again,
        settled_again,
        later,
    );
    lemma_read(
        restore::restoring(popped),
        entry.source_text,
        semantic_again,
        entry.selection,
        after_load_again,
        after.axis.preview,
        after.axis.selection,
    );
    lemma_same_reading(restore::restoring(popped), middle, before.source@, semantic_again);
}

/// One undo takes back one step. An edit that is no typing, that follows one or that came
/// after the coalescing window is undone alone: the document before it is read, and every
/// earlier step can still be undone. In the source view the text is that document's
/// Markdown.
pub proof fn one_undo_takes_back_the_last_step(
    s: EditorView,
    entry: HistoryEntry<Seq<char>>,
    closing: DocumentFacts,
    before: DocumentFacts,
    semantic: Seq<Seq<char>>,
    after_load: DocumentFacts,
    settled: DocumentFacts,
    now: u64,
)
    requires
        !s.history.restore_in_progress,
        s.history.undo.len() < s.history.limit,
        s.history.pending_capture == Some(entry),
        entry.source_text != closing.source@,
        s.history.undo.len() == 0 || entry.kind == UndoCaptureKind::NonCoalescible
            || s.history.undo[s.history.undo.len() - 1].kind == UndoCaptureKind::NonCoalescible
            || entry.timestamp > s.history.undo[s.history.undo.len() - 1].timestamp
            + s.history.coalesce_window,
    ensures
        ({
            let closed = history::finalized(s, closing);
            let after = restore::undone(closed, before, semantic, after_load, settled, now);
            &&& after.history.undo == s.history.undo
            &&& after.history.redo.len() == 1
            &&& after.history.redo[0].source_text == before.source@
            &&& event_laws::same_content(
                restore::loaded(closed, entry.source_text, semantic).document,
                after.document,
            )
            &&& s.view_mode == ViewMode::Source ==> after.document.len() == 1
                && after.document[0].display_text == entry.source_text
        }),
{
    let closed = history::finalized(s, closing);
    history::an_edit_apart_is_a_step_of_its_own(s, entry, closing);
    assert(closed.history.undo =~= s.history.undo.push(entry));
    assert(closed.history.undo.drop_last() =~= s.history.undo);
    restore::undo_moves_one_entry(closed, before, semantic, after_load, settled, now);
    undo_reads_the_newest_state(closed, before, semantic, after_load, settled, now);
    let popped = EditorView {
        history: HistoryView { undo: closed.history.undo.drop_last(), ..closed.history },
        ..closed
    };
    let after = restore::undone(closed, before, semantic, after_load, settled, now);
    lemma_read(
        restore::restoring(popped),
        entry.source_text,
        semantic,
        entry.selection,
        after_load,
        after.axis.preview,
        after.axis.selection,
    );
}

proof fn lemma_same_reading(
    a: EditorView,
    b: EditorView,
    source: Seq<char>,
    semantic: Seq<Seq<char>>,
)
    requires
        a.view_mode == b.view_mode,
        a.next_id == b.next_id,
        a.axis == b.axis,
    ensures
        restore::loaded(a, source, semantic).document == restore::loaded(
            b,
            source,
            semantic,
        ).document,
{
}

proof fn lemma_read(
    s: EditorView,
    source: Seq<char>,
    semantic: Seq<Seq<char>>,
    snapshot: UndoSelectionSnapshot,
    facts: DocumentFacts,
    preview: Option<TableAxisSelection>,
    selection: Option<TableAxisSelection>,
)
    ensures
        ({
            let read = restore::loaded(s, source, semantic);
            let shown = restore::selection_applied(read, snapshot, facts);
            let after = tables::synced_nodes(shown.document, preview, selection);
            &&& event_laws::same_content(read.document, after)
            &&& s.view_mode == ViewMode::Source ==> after.len() == 1 && after[0].title
                == blocks::plain_title(source) && after[0].display_text == source
        }),
{
    let read = restore::loaded(s, source, semantic);
    let shown = restore::selection_applied(read, snapshot, facts);
    assert(event_laws::same_content(read.document, shown.document));
    if s.view_mode == ViewMode::Source {
        assert(blocks::title_text(blocks::plain_title(source)) =~= source) by {
            reveal_with_fuel(blocks::title_text, 2);
        }
    }
}

} // verus!
