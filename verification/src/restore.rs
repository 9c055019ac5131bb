//! Going back to a state of the history, and reading the document anew.
//!
//! A document that is loaded gets new ids in visible order, and the cells of its
//! tables after them. What the view says of it then is given as the facts of the
//! loaded document.

use crate::blocks;
use crate::blocks::{Block, BlockKind, BlockView, InlineTextTree};
use crate::cell_laws;
use crate::context_menu;
use crate::document;
use crate::document::{flatten_blocks, fresh_block};
use crate::editor;
use crate::editor::{
    BlockSelection, DocBlock, EditTarget, Editor, EditorView, FocusState, HistoryEntry, HistoryView, NodeView,
    Nodes, TableAxisSelection, UndoCaptureKind, UndoSelectionSnapshot, ViewMode,
};
use crate::focus;
use crate::history;
use crate::history::{DocumentFacts, SourceTargetMapping};
use crate::import_model;
use crate::tables;
use crate::targets;
use crate::targets::select_in;
use crate::text;
use vstd::prelude::*;
use vstd::utf8::*;

verus! {

// ---------------------------------------------------------------------------
// Loading
// ---------------------------------------------------------------------------

/// The block of an empty paragraph.
pub open spec fn empty_paragraph() -> BlockView {
    blocks::leaf(BlockKind::Paragraph, blocks::plain_title(Seq::empty()))
}

/// The blocks of a Markdown source; an empty paragraph where there are none.
pub open spec fn root_blocks(source: Seq<char>, semantic: Seq<Seq<char>>) -> Seq<BlockView> {
    let items = import_model::blocks_of(text::lines_of(source), true, semantic);
    if items.len() == 0 {
        seq![empty_paragraph()]
    } else {
        items
    }
}

/// The one block that holds a source as it is.
pub open spec fn source_node(id: u64, source: Seq<char>) -> NodeView {
    NodeView {
        raw_text_editing: true,
        ..document::fresh_node(id, 0, BlockKind::Paragraph, blocks::plain_title(source), None)
    }
}

/// The blocks of a document in the current view mode, with ids from `next_id` on.
pub open spec fn loaded_nodes(s: EditorView, source: Seq<char>, semantic: Seq<Seq<char>>) -> Nodes {
    match s.view_mode {
        ViewMode::Rendered => document::nodes_of(
            root_blocks(source, semantic),
            0,
            s.next_id as int,
        ),
        ViewMode::Source => seq![source_node(s.next_id, source)],
    }
}

/// How many ids the blocks of a document take in the current view mode.
pub open spec fn loaded_size(s: EditorView, source: Seq<char>, semantic: Seq<Seq<char>>) -> nat {
    match s.view_mode {
        ViewMode::Rendered => document::blocks_size(root_blocks(source, semantic)),
        ViewMode::Source => 1,
    }
}

/// Whether the ids last for a document and the cells of its tables.
pub open spec fn room_to_load(s: EditorView, source: Seq<char>, semantic: Seq<Seq<char>>) -> bool {
    s.next_id + loaded_size(s, source, semantic) + tables::document_cells(
        loaded_nodes(s, source, semantic),
    ) <= u64::MAX
}

/// The state with the document read from its source.
pub open spec fn loaded(s: EditorView, source: Seq<char>, semantic: Seq<Seq<char>>) -> EditorView {
    let replaced = EditorView {
        document: loaded_nodes(s, source, semantic),
        next_id: (s.next_id + loaded_size(s, source, semantic)) as u64,
        ..s
    };
    match s.view_mode {
        ViewMode::Rendered => tables::tables_rebuilt(replaced),
        ViewMode::Source => replaced,
    }
}

// ---------------------------------------------------------------------------
// Restoring a selection
// ---------------------------------------------------------------------------

/// The state with a block or cell to be focused and active.
pub open spec fn activated(s: EditorView, id: Option<u64>) -> EditorView {
    EditorView {
        focus: FocusState { pending_focus: id, active_entity_id: id, ..s.focus },
        ..s
    }
}

/// The offset into a block's content for an offset into its source range. Offsets
/// behind the range count as its end.
pub open spec fn content_offset(m: SourceTargetMapping, local: int) -> int {
    m.source_to_content@[history::at_most(local, m.source_to_content@.len() - 1)] as int
}

/// Whether an offset into a block's source range is the place of an offset into
/// its content.
pub open spec fn exact_offset(m: SourceTargetMapping, local: int) -> bool {
    m.content_to_source@[history::at_most(
        content_offset(m, local),
        m.content_to_source@.len() - 1,
    )] == local
}

/// Whether both ends of a selection lie in a block and are places in its content.
pub open spec fn exact_mapping(m: SourceTargetMapping, snapshot: UndoSelectionSnapshot) -> bool {
    &&& history::range_holds(m.source_start as int, m.source_end as int, snapshot.start as int)
    &&& history::range_holds(m.source_start as int, m.source_end as int, snapshot.end as int)
    &&& exact_offset(m, snapshot.start - m.source_start)
    &&& exact_offset(m, snapshot.end - m.source_start)
}

/// The first block at or after `from` that holds a selection exactly.
pub open spec fn exact_from(
    mappings: Seq<SourceTargetMapping>,
    snapshot: UndoSelectionSnapshot,
    from: int,
) -> Option<int>
    decreases mappings.len() - from,
{
    if from < 0 || from >= mappings.len() {
        None
    } else if exact_mapping(mappings[from], snapshot) {
        Some(from)
    } else {
        exact_from(mappings, snapshot, from + 1)
    }
}

/// How far an offset lies from a block's source range.
pub open spec fn distance(m: SourceTargetMapping, offset: int) -> int {
    history::range_distance(m.source_start as int, m.source_end as int, offset)
}

/// The first of the blocks nearest to an offset.
pub open spec fn nearest(mappings: Seq<SourceTargetMapping>, offset: int) -> Option<int>
    decreases mappings.len(),
{
    if mappings.len() == 0 {
        None
    } else {
        match nearest(mappings.drop_last(), offset) {
            None => Some(0),
            Some(best) => if distance(mappings.last(), offset) < distance(mappings[best], offset) {
                Some(mappings.len() - 1)
            } else {
                Some(best)
            },
        }
    }
}

/// An offset into a block's source range, moved into the range.
pub open spec fn local_offset(m: SourceTargetMapping, offset: int) -> int {
    if offset <= m.source_start {
        0
    } else if offset >= m.source_end {
        m.source_end - m.source_start
    } else {
        offset - m.source_start
    }
}

/// The state with a selection set in a block or cell, which becomes active.
pub open spec fn selection_placed(
    s: EditorView,
    id: u64,
    selection: BlockSelection,
    reversed: bool,
) -> EditorView {
    activated(
        EditorView {
            document: targets::selected_in(s.document, id, selection, reversed),
            ..s
        },
        Some(id),
    )
}

/// The state with a selection of the Markdown source restored.
///
/// In source mode it is cut off at the end of the text. In rendered mode it goes
/// into the first block that holds it exactly; where there is none, the caret
/// goes to the nearest block.
pub open spec fn selection_applied(
    s: EditorView,
    snapshot: UndoSelectionSnapshot,
    facts: DocumentFacts,
) -> EditorView {
    match s.view_mode {
        ViewMode::Source => if s.document.len() == 0 {
            s
        } else {
            let len = encode_utf8(s.document[0].display_text).len() as int;
            selection_placed(
                s,
                s.document[0].id,
                BlockSelection::Visible {
                    start: history::at_most(snapshot.start as int, len) as usize,
                    end: history::at_most(snapshot.end as int, len) as usize,
                },
                snapshot.reversed,
            )
        },
        ViewMode::Rendered => if facts.cross_block_restored {
            s
        } else {
            let mappings = facts.mappings@;
            match exact_from(mappings, snapshot, 0) {
                Some(i) => selection_placed(
                    s,
                    mappings[i].entity_id,
                    BlockSelection::Markdown {
                        start: content_offset(
                            mappings[i],
                            snapshot.start - mappings[i].source_start,
                        ) as usize,
                        end: content_offset(
                            mappings[i],
                            snapshot.end - mappings[i].source_start,
                        ) as usize,
                    },
                    snapshot.reversed,
                ),
                None => match nearest(mappings, snapshot.end as int) {
                    Some(i) => {
                        let offset = content_offset(
                            mappings[i],
                            local_offset(mappings[i], snapshot.end as int),
                        ) as usize;
                        selection_placed(
                            s,
                            mappings[i].entity_id,
                            BlockSelection::Markdown { start: offset, end: offset },
                            false,
                        )
                    },
                    None => activated(s, facts.first_focusable),
                },
            }
        },
    }
}

// ---------------------------------------------------------------------------
// Undo and redo
// ---------------------------------------------------------------------------

/// The state with the active block to be scrolled to once it is laid out anew.
pub open spec fn relaid(s: EditorView) -> EditorView {
    EditorView {
        focus: FocusState {
            scroll_active_into_view: true,
            scroll_recheck_after_layout: true,
            scroll_viewport_known: false,
            ..s.focus
        },
        ..s
    }
}

/// The state with the document and selection of a history entry, taken as stable.
pub open spec fn entry_restored(
    s: EditorView,
    entry: HistoryEntry<Seq<char>>,
    semantic: Seq<Seq<char>>,
    after_load: DocumentFacts,
    settled: DocumentFacts,
) -> EditorView {
    history::stabilized(
        relaid(
            selection_applied(
                loaded(s, entry.source_text, semantic),
                entry.selection,
                after_load,
            ),
        ),
        settled,
    )
}

/// The state with the document read anew from its Markdown and the selection
/// kept. Only a rendered document is.
pub open spec fn quotes_normalized(
    s: EditorView,
    before: DocumentFacts,
    semantic: Seq<Seq<char>>,
    after_load: DocumentFacts,
) -> EditorView {
    if s.view_mode != ViewMode::Rendered {
        s
    } else {
        relaid(
            selection_applied(
                loaded(s, before.source@, semantic),
                history::selection_snapshot(s, before),
                after_load,
            ),
        )
    }
}

/// The state while a history entry is restored: nothing is captured and no
/// selection spans blocks.
pub open spec fn restoring(s: EditorView) -> EditorView {
    focus::cross_block_cleared(
        EditorView {
            history: HistoryView {
                pending_capture: None,
                restore_in_progress: true,
                ..s.history
            },
            ..s
        },
    )
}

/// The state once a history entry is restored.
pub open spec fn restore_done(s: EditorView) -> EditorView {
    context_menu::dismissed(tables::visuals_synced(focus::dirtied(s)))
}

/// The state after undo: the newest undo entry is restored, and the document
/// before it can be redone.
pub open spec fn undone(
    s: EditorView,
    before: DocumentFacts,
    semantic: Seq<Seq<char>>,
    after_load: DocumentFacts,
    settled: DocumentFacts,
    now: u64,
) -> EditorView {
    if s.history.undo.len() == 0 {
        s
    } else {
        let entry = s.history.undo.last();
        let popped = EditorView {
            history: HistoryView { undo: s.history.undo.drop_last(), ..s.history },
            ..s
        };
        let current = history::current_entry(
            popped,
            UndoCaptureKind::NonCoalescible,
            before,
            now,
        );
        let restored = entry_restored(restoring(popped), entry, semantic, after_load, settled);
        restore_done(
            EditorView {
                history: HistoryView {
                    restore_in_progress: false,
                    redo: restored.history.redo.push(current),
                    ..restored.history
                },
                ..restored
            },
        )
    }
}

/// The state after redo: the newest redo entry is restored, and the document
/// before it can be undone.
pub open spec fn redone(
    s: EditorView,
    before: DocumentFacts,
    semantic: Seq<Seq<char>>,
    after_load: DocumentFacts,
    settled: DocumentFacts,
    now: u64,
) -> EditorView {
    if s.history.redo.len() == 0 {
        s
    } else {
        let entry = s.history.redo.last();
        let popped = EditorView {
            history: HistoryView { redo: s.history.redo.drop_last(), ..s.history },
            ..s
        };
        let current = history::current_entry(
            popped,
            UndoCaptureKind::NonCoalescible,
            before,
            now,
        );
        let restored = entry_restored(restoring(popped), entry, semantic, after_load, settled);
        restore_done(
            EditorView {
                history: HistoryView {
                    restore_in_progress: false,
                    undo: restored.history.undo.push(current),
                    ..restored.history
                },
                ..restored
            },
        )
    }
}

// ---------------------------------------------------------------------------
// Laws
// ---------------------------------------------------------------------------

/// Undo takes the newest entry off the undo history and puts the document before
/// it on the redo history. Nothing stays pending, and the document counts as
/// changed.
pub proof fn undo_moves_one_entry(
    s: EditorView,
    before: DocumentFacts,
    semantic: Seq<Seq<char>>,
    after_load: DocumentFacts,
    settled: DocumentFacts,
    now: u64,
)
    requires
        s.history.undo.len() > 0,
    ensures
        ({
            let after = undone(s, before, semantic, after_load, settled, now);
            &&& after.history.undo == s.history.undo.drop_last()
            &&& after.history.redo.drop_last() == s.history.redo
            &&& after.history.redo.len() == s.history.redo.len() + 1
            &&& after.history.redo.last().source_text == before.source@
            &&& after.history.pending_capture is None
            &&& !after.history.restore_in_progress
            &&& after.window.document_dirty
        }),
{
    let after = undone(s, before, semantic, after_load, settled, now);
    assert(after.history.redo.drop_last() =~= s.history.redo);
}

/// Redo takes the newest entry off the redo history and puts the document before
/// it on the undo history.
pub proof fn redo_moves_one_entry(
    s: EditorView,
    before: DocumentFacts,
    semantic: Seq<Seq<char>>,
    after_load: DocumentFacts,
    settled: DocumentFacts,
    now: u64,
)
    requires
        s.history.redo.len() > 0,
    ensures
        ({
            let after = redone(s, before, semantic, after_load, settled, now);
            &&& after.history.redo == s.history.redo.drop_last()
            &&& after.history.undo.drop_last() == s.history.undo
            &&& after.history.undo.len() == s.history.undo.len() + 1
            &&& after.history.undo.last().source_text == before.source@
            &&& after.history.pending_capture is None
            &&& !after.history.restore_in_progress
            &&& after.window.document_dirty
        }),
{
    let after = redone(s, before, semantic, after_load, settled, now);
    assert(after.history.undo.drop_last() =~= s.history.undo);
}

/// Redo right after undo reads the document that undo left, and leaves both
/// histories as they were but for the entry on top of the undo history, which
/// holds the Markdown of the document that redo left.
pub proof fn redo_takes_back_an_undo(
    s: EditorView,
    before: DocumentFacts,
    semantic: Seq<Seq<char>>,
    after_load: DocumentFacts,
    settled: DocumentFacts,
    now: u64,
    between: DocumentFacts,
    semantic_again: Seq<Seq<char>>,
    after_load_again: DocumentFacts,
    settled_again: DocumentFacts,
    later: u64,
)
    requires
        s.history.undo.len() > 0,
    ensures
        ({
            let middle = undone(s, before, semantic, after_load, settled, now);
            let after = redone(
                middle,
                between,
                semantic_again,
                after_load_again,
                settled_again,
                later,
            );
            &&& middle.history.redo.last().source_text == before.source@
            &&& after.history.redo == s.history.redo
            &&& after.history.undo.drop_last() == s.history.undo.drop_last()
            &&& after.history.undo.len() == s.history.undo.len()
            &&& after.history.undo.last().source_text == between.source@
            &&& after.history.last_stable_source == settled_again.source@
        }),
{
    let middle = undone(s, before, semantic, after_load, settled, now);
    undo_moves_one_entry(s, before, semantic, after_load, settled, now);
    redo_moves_one_entry(
        middle,
        between,
        semantic_again,
        after_load_again,
        settled_again,
        later,
    );
}

/// The selection in a block as the view says it, where the block holds it as offsets
/// into its text.
pub open spec fn held_selection(node: NodeView) -> Option<EditTarget> {
    match node.selection {
        BlockSelection::Visible { start, end } => Some(
            EditTarget {
                entity_id: node.id,
                start,
                end,
                reversed: node.selection_reversed,
            },
        ),
        _ => None,
    }
}

/// In the source view a selection that was restored is captured again as it was, cut
/// off at the end of the text. `facts` says of the first block what it holds.
pub proof fn restored_source_selections_are_captured_again(
    s: EditorView,
    snapshot: UndoSelectionSnapshot,
    before: DocumentFacts,
    facts: DocumentFacts,
)
    requires
        s.view_mode == ViewMode::Source,
        s.document.len() > 0,
        facts.cross_block is None,
        facts.first_root == held_selection(selection_applied(s, snapshot, before).document[0]),
    ensures
        ({
            let len = encode_utf8(s.document[0].display_text).len() as int;
            let captured = history::selection_snapshot(
                selection_applied(s, snapshot, before),
                facts,
            );
            &&& captured.start == history::at_most(snapshot.start as int, len)
            &&& captured.end == history::at_most(snapshot.end as int, len)
            &&& captured.reversed == snapshot.reversed
            &&& snapshot.start <= len && snapshot.end <= len ==> captured == snapshot
        }),
{
}

proof fn lemma_loaded_nodes(s: EditorView, source: Seq<char>, semantic: Seq<Seq<char>>)
    requires
        room_to_load(s, source, semantic),
    ensures
        document::well_formed(
            loaded_nodes(s, source, semantic),
            (s.next_id + loaded_size(s, source, semantic)) as u64,
        ),
        loaded_nodes(s, source, semantic).len() > 0,
{
    match s.view_mode {
        ViewMode::Rendered => {
            let items = root_blocks(source, semantic);
            document::imported_documents_are_well_formed(items, s.next_id);
            document::lemma_nodes_len(items, 0, s.next_id as int);
            assert(document::blocks_size(items) > 0) by {
                assert(document::block_size(items.last()) > 0);
            }
        },
        ViewMode::Source => {
            document::lemma_no_cells(loaded_nodes(s, source, semantic), s.next_id + 1);
        },
    }
}

/// A document that is loaded is well formed and has at least one block.
pub proof fn loaded_documents_are_well_formed(
    s: EditorView,
    source: Seq<char>,
    semantic: Seq<Seq<char>>,
)
    requires
        room_to_load(s, source, semantic),
    ensures
        document::well_formed(
            loaded(s, source, semantic).document,
            loaded(s, source, semantic).next_id,
        ),
        loaded(s, source, semantic).document.len() > 0,
{
    lemma_loaded_nodes(s, source, semantic);
    let replaced = EditorView {
        document: loaded_nodes(s, source, semantic),
        next_id: (s.next_id + loaded_size(s, source, semantic)) as u64,
        ..s
    };
    cell_laws::rebuilding_keeps_documents_well_formed(replaced);
}

/// Undo leaves a well-formed document.
pub proof fn undo_leaves_a_well_formed_document(
    s: EditorView,
    before: DocumentFacts,
    semantic: Seq<Seq<char>>,
    after_load: DocumentFacts,
    settled: DocumentFacts,
    now: u64,
)
    requires
        s.history.undo.len() > 0,
        room_to_load(s, s.history.undo.last().source_text, semantic),
    ensures
        ({
            let after = undone(s, before, semantic, after_load, settled, now);
            document::well_formed(after.document, after.next_id) && after.document.len() > 0
        }),
{
    let popped = EditorView {
        history: HistoryView { undo: s.history.undo.drop_last(), ..s.history },
        ..s
    };
    let entry = s.history.undo.last();
    let start = restoring(popped);
    assert(room_to_load(start, entry.source_text, semantic));
    lemma_selection_applied(start, entry.source_text, semantic, entry.selection, after_load);
    let shown = selection_applied(
        loaded(start, entry.source_text, semantic),
        entry.selection,
        after_load,
    );
    let after = undone(s, before, semantic, after_load, settled, now);
    lemma_synced_nodes(shown.document, after.axis.preview, after.axis.selection, after.next_id);
}

/// Redo leaves a well-formed document.
pub proof fn redo_leaves_a_well_formed_document(
    s: EditorView,
    before: DocumentFacts,
    semantic: Seq<Seq<char>>,
    after_load: DocumentFacts,
    settled: DocumentFacts,
    now: u64,
)
    requires
        s.history.redo.len() > 0,
        room_to_load(s, s.history.redo.last().source_text, semantic),
    ensures
        ({
            let after = redone(s, before, semantic, after_load, settled, now);
            document::well_formed(after.document, after.next_id) && after.document.len() > 0
        }),
{
    let popped = EditorView {
        history: HistoryView { redo: s.history.redo.drop_last(), ..s.history },
        ..s
    };
    let entry = s.history.redo.last();
    let start = restoring(popped);
    assert(room_to_load(start, entry.source_text, semantic));
    lemma_selection_applied(start, entry.source_text, semantic, entry.selection, after_load);
    let shown = selection_applied(
        loaded(start, entry.source_text, semantic),
        entry.selection,
        after_load,
    );
    let after = redone(s, before, semantic, after_load, settled, now);
    lemma_synced_nodes(shown.document, after.axis.preview, after.axis.selection, after.next_id);
}

/// Reading quotes anew leaves a well-formed document.
pub proof fn normalizing_keeps_documents_well_formed(
    s: EditorView,
    before: DocumentFacts,
    semantic: Seq<Seq<char>>,
    after_load: DocumentFacts,
)
    requires
        document::well_formed(s.document, s.next_id),
        room_to_load(s, before.source@, semantic),
    ensures
        ({
            let after = quotes_normalized(s, before, semantic, after_load);
            document::well_formed(after.document, after.next_id)
        }),
{
    lemma_selection_applied(
        s,
        before.source@,
        semantic,
        history::selection_snapshot(s, before),
        after_load,
    );
}

proof fn lemma_selection_applied(
    s: EditorView,
    source: Seq<char>,
    semantic: Seq<Seq<char>>,
    snapshot: UndoSelectionSnapshot,
    facts: DocumentFacts,
)
    requires
        room_to_load(s, source, semantic),
    ensures
        ({
            let after = selection_applied(loaded(s, source, semantic), snapshot, facts);
            &&& document::well_formed(after.document, after.next_id)
            &&& after.document.len() > 0
            &&& after.next_id == loaded(s, source, semantic).next_id
        }),
{
    loaded_documents_are_well_formed(s, source, semantic);
    let read = loaded(s, source, semantic);
    let after = selection_applied(read, snapshot, facts);
    assert(document::same_shape(read.document, after.document));
    document::lemma_same_shape(read.document, after.document, read.next_id);
}

proof fn lemma_synced_nodes(
    nodes: Nodes,
    preview: Option<TableAxisSelection>,
    selection: Option<TableAxisSelection>,
    next_id: u64,
)
    requires
        document::well_formed(nodes, next_id),
    ensures
        document::well_formed(tables::synced_nodes(nodes, preview, selection), next_id),
{
    document::lemma_same_shape(nodes, tables::synced_nodes(nodes, preview, selection), next_id);
}

/// The mapping that is found is there, and none is nearer.
pub proof fn lemma_nearest(mappings: Seq<SourceTargetMapping>, offset: int)
    ensures
        mappings.len() == 0 <==> nearest(mappings, offset) is None,
        nearest(mappings, offset) matches Some(best) ==> 0 <= best < mappings.len() && forall|
            i: int,
        |
            0 <= i < mappings.len() ==> distance(mappings[best], offset) <= distance(
                #[trigger] mappings[i],
                offset,
            ),
    decreases mappings.len(),
{
    if mappings.len() > 0 {
        let rest = mappings.drop_last();
        lemma_nearest(rest, offset);
        if let Some(best) = nearest(rest, offset) {
            assert forall|i: int| 0 <= i < mappings.len() implies distance(
                mappings[nearest(mappings, offset)->0],
                offset,
            ) <= distance(#[trigger] mappings[i], offset) by {
                if i < rest.len() {
                    assert(rest[i] == mappings[i]);
                }
            }
        }
    }
}

/// A caret that no block holds exactly goes to a block that lies no farther from
/// it than any other.
pub proof fn the_caret_goes_to_a_nearest_block(
    mappings: Seq<SourceTargetMapping>,
    offset: int,
    i: int,
)
    requires
        0 <= i < mappings.len(),
    ensures
        nearest(mappings, offset) matches Some(best) && distance(mappings[best], offset)
            <= distance(mappings[i], offset),
{
    lemma_nearest(mappings, offset);
}

/// The mapping that is found holds both ends of the selection.
pub proof fn lemma_exact_from(
    mappings: Seq<SourceTargetMapping>,
    snapshot: UndoSelectionSnapshot,
    from: int,
)
    requires
        0 <= from,
    ensures
        exact_from(mappings, snapshot, from) matches Some(i) ==> from <= i < mappings.len()
            && exact_mapping(mappings[i], snapshot),
    decreases mappings.len() - from,
{
    if from < mappings.len() && !exact_mapping(mappings[from], snapshot) {
        lemma_exact_from(mappings, snapshot, from + 1);
    }
}

/// A selection that a block holds exactly is the same again when it is taken from
/// the block as restored.
pub proof fn exact_selections_are_restored(
    mappings: Seq<SourceTargetMapping>,
    snapshot: UndoSelectionSnapshot,
)
    requires
        exact_from(mappings, snapshot, 0) is Some,
    ensures
        ({
            let m = mappings[exact_from(mappings, snapshot, 0)->0];
            &&& history::source_offset(
                m,
                content_offset(m, snapshot.start - m.source_start),
            ) == snapshot.start
            &&& history::source_offset(
                m,
                content_offset(m, snapshot.end - m.source_start),
            ) == snapshot.end
        }),
{
    lemma_exact_from(mappings, snapshot, 0);
}

// ---------------------------------------------------------------------------
// Running code
// ---------------------------------------------------------------------------

fn empty_paragraph_block() -> (r: Block)
    ensures
        r@ == empty_paragraph(),
{
    let block = Block::leaf(BlockKind::Paragraph, InlineTextTree::plain(String::new()));
    assert(block@.title =~= blocks::plain_title(Seq::empty()));
    block
}

fn read_content_offset(m: &SourceTargetMapping, local: usize) -> (r: usize)
    requires
        history::mapping_ok(*m),
    ensures
        r == content_offset(*m, local as int),
{
    let last: usize = m.source_to_content.len() - 1;
    if local <= last {
        m.source_to_content[local]
    } else {
        m.source_to_content[last]
    }
}

fn is_exact_offset(m: &SourceTargetMapping, local: usize) -> (r: bool)
    requires
        history::mapping_ok(*m),
    ensures
        r == exact_offset(*m, local as int),
{
    let content: usize = read_content_offset(m, local);
    let last: usize = m.content_to_source.len() - 1;
    if content <= last {
        m.content_to_source[content] == local
    } else {
        m.content_to_source[last] == local
    }
}

fn is_exact_mapping(m: &SourceTargetMapping, snapshot: &UndoSelectionSnapshot) -> (r: bool)
    requires
        history::mapping_ok(*m),
    ensures
        r == exact_mapping(*m, *snapshot),
{
    Editor::source_range_contains(m.source_start, m.source_end, snapshot.start)
        && Editor::source_range_contains(m.source_start, m.source_end, snapshot.end)
        && is_exact_offset(m, snapshot.start - m.source_start) && is_exact_offset(
        m,
        snapshot.end - m.source_start,
    )
}

fn find_exact(mappings: &Vec<SourceTargetMapping>, snapshot: &UndoSelectionSnapshot) -> (r: Option<
    usize,
>)
    requires
        forall|i: int|
            0 <= i < mappings@.len() ==> history::mapping_ok(#[trigger] mappings@[i]),
    ensures
        r matches Some(i) ==> exact_from(mappings@, *snapshot, 0) == Some(i as int) && i
            < mappings@.len(),
        r is None ==> exact_from(mappings@, *snapshot, 0) is None,
{
    let mut i: usize = 0;
    while i < mappings.len()
        invariant
            forall|k: int|
                0 <= k < mappings@.len() ==> history::mapping_ok(#[trigger] mappings@[k]),
            i <= mappings@.len(),
            exact_from(mappings@, *snapshot, 0) == exact_from(mappings@, *snapshot, i as int),
        decreases mappings@.len() - i,
    {
        if is_exact_mapping(&mappings[i], snapshot) {
            return Some(i);
        }
        i = i + 1;
    }
    None
}

fn find_nearest(mappings: &Vec<SourceTargetMapping>, offset: usize) -> (r: Option<usize>)
    ensures
        r matches Some(i) ==> nearest(mappings@, offset as int) == Some(i as int) && i
            < mappings@.len(),
        r is None ==> nearest(mappings@, offset as int) is None,
{
    if mappings.len() == 0 {
        return None;
    }
    let mut best: usize = 0;
    let mut i: usize = 1;
    proof {
        lemma_nearest(mappings@.take(1).drop_last(), offset as int);
    }
    while i < mappings.len()
        invariant
            1 <= i <= mappings@.len(),
            best < i,
            nearest(mappings@.take(i as int), offset as int) == Some(best as int),
        decreases mappings@.len() - i,
    {
        assert(mappings@.take(i + 1).drop_last() =~= mappings@.take(i as int));
        let d: usize = Editor::source_offset_distance(
            mappings[i].source_start,
            mappings[i].source_end,
            offset,
        );
        let least: usize = Editor::source_offset_distance(
            mappings[best].source_start,
            mappings[best].source_end,
            offset,
        );
        if d < least {
            best = i;
        }
        i = i + 1;
    }
    assert(mappings@.take(i as int) =~= mappings@);
    Some(best)
}

fn min_of(a: usize, b: usize) -> (r: usize)
    ensures
        r == history::at_most(a as int, b as int),
{
    if a <= b {
        a
    } else {
        b
    }
}

impl Editor {
    /// Reads the document from its source. In source mode one block holds the
    /// source as it is.
    pub fn load_source(&mut self, source: &str, semantic: &[String])
        requires
            room_to_load(old(self)@, source@, text::texts(semantic@)),
        ensures
            final(self)@ == loaded(old(self)@, source@, text::texts(semantic@)),
    {
        match self.view_mode {
            ViewMode::Rendered => {
                let mut roots = Self::build_root_blocks_from_markdown(source, semantic);
                if roots.len() == 0 {
                    roots.push(empty_paragraph_block());
                    assert(blocks::block_views(roots@) =~= seq![empty_paragraph()]);
                }
                let (nodes, next) = flatten_blocks(&roots, self.next_id);
                self.document = nodes;
                self.next_id = next;
                self.rebuild_table_runtimes();
            },
            ViewMode::Source => {
                let id: u64 = self.next_id;
                let mut block = fresh_block(
                    id,
                    0,
                    BlockKind::Paragraph,
                    InlineTextTree::plain(String::from_str(source)),
                    None,
                );
                block.raw_text_editing = true;
                let mut nodes: Vec<DocBlock> = Vec::new();
                nodes.push(block);
                assert(editor::node_views(nodes@) =~= seq![source_node(id, source@)]);
                self.document = nodes;
                self.next_id = id + 1;
            },
        }
    }

    fn place_selection(&mut self, id: u64, selection: BlockSelection, reversed: bool)
        ensures
            final(self)@ == selection_placed(old(self)@, id, selection, reversed),
    {
        select_in(&mut self.document, id, selection, reversed);
        self.focus.pending_focus = Some(id);
        self.focus.active_entity_id = Some(id);
    }

    /// Restores a selection of the Markdown source.
    pub fn apply_selection_snapshot_in_current_mode(
        &mut self,
        snapshot: &UndoSelectionSnapshot,
        facts: &DocumentFacts,
    )
        requires
            history::facts_ok(*facts),
        ensures
            final(self)@ == selection_applied(old(self)@, *snapshot, *facts),
    {
        match self.view_mode {
            ViewMode::Source => {
                if self.document.len() == 0 {
                    return;
                }
                let len: usize = self.document[0].display_text.as_str().as_bytes().len();
                let id: u64 = self.document[0].id;
                self.place_selection(
                    id,
                    BlockSelection::Visible {
                        start: min_of(snapshot.start, len),
                        end: min_of(snapshot.end, len),
                    },
                    snapshot.reversed,
                );
            },
            ViewMode::Rendered => {
                if facts.cross_block_restored {
                    return;
                }
                proof {
                    lemma_exact_from(facts.mappings@, *snapshot, 0);
                    lemma_nearest(facts.mappings@, snapshot.end as int);
                }
                if let Some(i) = find_exact(&facts.mappings, snapshot) {
                    let m = &facts.mappings[i];
                    let start: usize = read_content_offset(m, snapshot.start - m.source_start);
                    let end: usize = read_content_offset(m, snapshot.end - m.source_start);
                    self.place_selection(
                        m.entity_id,
                        BlockSelection::Markdown { start, end },
                        snapshot.reversed,
                    );
                    return;
                }
                let caret: usize = snapshot.end;
                match find_nearest(&facts.mappings, caret) {
                    Some(i) => {
                        let m = &facts.mappings[i];
                        assert(history::mapping_ok(facts.mappings@[i as int]));
                        let local: usize = if caret <= m.source_start {
                            0
                        } else if caret >= m.source_end {
                            m.source_end - m.source_start
                        } else {
                            caret - m.source_start
                        };
                        let offset: usize = read_content_offset(m, local);
                        self.place_selection(
                            m.entity_id,
                            BlockSelection::Markdown { start: offset, end: offset },
                            false,
                        );
                    },
                    None => {
                        self.focus.pending_focus = facts.first_focusable;
                        self.focus.active_entity_id = facts.first_focusable;
                    },
                }
            },
        }
    }

    fn relay(&mut self)
        ensures
            final(self)@ == relaid(old(self)@),
    {
        self.focus.scroll_active_into_view = true;
        self.focus.scroll_recheck_after_layout = true;
        self.focus.scroll_viewport_known = false;
    }

    /// Restores the document and selection of a history entry. `after_load`
    /// describes the document as loaded, `settled` the document with the
    /// selection restored.
    pub fn restore_history_entry(
        &mut self,
        entry: &HistoryEntry<String>,
        semantic: &[String],
        after_load: &DocumentFacts,
        settled: &DocumentFacts,
    )
        requires
            history::facts_ok(*after_load),
            history::facts_ok(*settled),
            room_to_load(old(self)@, entry@.source_text, text::texts(semantic@)),
        ensures
            final(self)@ == entry_restored(
                old(self)@,
                entry@,
                text::texts(semantic@),
                *after_load,
                *settled,
            ),
    {
        self.load_source(entry.source_text.as_str(), semantic);
        self.apply_selection_snapshot_in_current_mode(&entry.selection, after_load);
        self.relay();
        self.refresh_stable_document_snapshot(settled);
    }

    /// Reads a rendered document anew from its Markdown, so that its quotes get
    /// the structure that the Markdown says. `before` describes the document as
    /// it is, `after_load` the document as loaded.
    pub fn normalize_rendered_quote_structure(
        &mut self,
        before: &DocumentFacts,
        semantic: &[String],
        after_load: &DocumentFacts,
    )
        requires
            history::facts_ok(*before),
            history::facts_ok(*after_load),
            old(self)@.view_mode == ViewMode::Rendered ==> room_to_load(
                old(self)@,
                before.source@,
                text::texts(semantic@),
            ),
        ensures
            final(self)@ == quotes_normalized(
                old(self)@,
                *before,
                text::texts(semantic@),
                *after_load,
            ),
    {
        if self.view_mode != ViewMode::Rendered {
            return;
        }
        let snapshot = self.capture_source_selection_snapshot(before);
        self.load_source(before.source.as_str(), semantic);
        self.apply_selection_snapshot_in_current_mode(&snapshot, after_load);
        self.relay();
    }

    fn begin_restore(&mut self)
        ensures
            final(self)@ == restoring(old(self)@),
    {
        self.history.pending_capture = None;
        self.history.restore_in_progress = true;
        self.clear_cross_block_selection();
    }

    fn finish_restore(&mut self)
        ensures
            final(self)@ == restore_done(old(self)@),
    {
        self.mark_dirty();
        self.sync_table_axis_visuals();
        self.dismiss_contextual_overlays();
    }

    /// Goes back to the newest state in the undo history. `before` describes the
    /// document as it is.
    pub fn undo_document(
        &mut self,
        before: &DocumentFacts,
        semantic: &[String],
        after_load: &DocumentFacts,
        settled: &DocumentFacts,
        now: u64,
    )
        requires
            history::facts_ok(*before),
            history::facts_ok(*after_load),
            history::facts_ok(*settled),
            old(self)@.history.undo.len() > 0 ==> room_to_load(
                old(self)@,
                old(self)@.history.undo.last().source_text,
                text::texts(semantic@),
            ),
        ensures
            final(self)@ == undone(
                old(self)@,
                *before,
                text::texts(semantic@),
                *after_load,
                *settled,
                now,
            ),
    {
        let ghost undo0 = self.history.undo@;
        let entry = match self.history.undo.pop() {
            Some(entry) => entry,
            None => {
                assert(self@.history.undo =~= editor::history_views(undo0));
                return;
            },
        };
        assert(self@.history.undo =~= editor::history_views(undo0).drop_last());
        let current = self.capture_history_entry(UndoCaptureKind::NonCoalescible, before, now);
        self.begin_restore();
        self.restore_history_entry(&entry, semantic, after_load, settled);
        self.history.restore_in_progress = false;
        let ghost redo0 = self.history.redo@;
        self.history.redo.push(current);
        assert(self@.history.redo =~= editor::history_views(redo0).push(current@));
        self.finish_restore();
    }

    /// Goes forward to the newest state in the redo history. `before` describes
    /// the document as it is.
    pub fn redo_document(
        &mut self,
        before: &DocumentFacts,
        semantic: &[String],
        after_load: &DocumentFacts,
        settled: &DocumentFacts,
        now: u64,
    )
        requires
            history::facts_ok(*before),
            history::facts_ok(*after_load),
            history::facts_ok(*settled),
            old(self)@.history.redo.len() > 0 ==> room_to_load(
                old(self)@,
                old(self)@.history.redo.last().source_text,
                text::texts(semantic@),
            ),
        ensures
            final(self)@ == redone(
                old(self)@,
                *before,
                text::texts(semantic@),
                *after_load,
                *settled,
                now,
            ),
    {
        let ghost redo0 = self.history.redo@;
        let entry = match self.history.redo.pop() {
            Some(entry) => entry,
            None => {
                assert(self@.history.redo =~= editor::history_views(redo0));
                return;
            },
        };
        assert(self@.history.redo =~= editor::history_views(redo0).drop_last());
        let current = self.capture_history_entry(UndoCaptureKind::NonCoalescible, before, now);
        self.begin_restore();
        self.restore_history_entry(&entry, semantic, after_load, settled);
        self.history.restore_in_progress = false;
        let ghost undo0 = self.history.undo@;
        self.history.undo.push(current);
        assert(self@.history.undo =~= editor::history_views(undo0).push(current@));
        self.finish_restore();
    }
}

} // verus!
