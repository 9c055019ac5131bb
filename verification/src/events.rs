//! What the events of a block do to the document.
//!
//! An event changes the document at once and says what is left to do: reading
//! quotes anew, looking up images, focusing a block, adding a trailing paragraph,
//! and closing the undo capture, in this order. Reading quotes anew makes new
//! blocks, whose images are looked up too.

use crate::blocks;
use crate::blocks::{BlockKind, InlineTextTree, TableView};
use crate::cell_laws;
use crate::cells;
use crate::document;
use crate::document::{find_index, find_parent};
use crate::editor;
use crate::editor::{
    BlockSelection, DocBlock, Editor, EditorView, NodeView, Nodes, OpenLink, ScreenPoint,
    SelectionState, TableAxisKind, TableAxisSelection, TableCellPosition, TableColumnResizeDrag,
    UndoCaptureKind,
};
use crate::focus;
use crate::history;
use crate::history::{find_gone, DocumentFacts};
use crate::images;
use crate::images::ImagePaste;
use crate::kinds;
use crate::newline;
use crate::paste;
use crate::paste::MultilinePaste;
use crate::quotes;
use crate::structure;
use crate::structure::{delete_node, downgrade_node, indent_node, merge_node, outdent_node};
use crate::table_data::duplicate_values;
use crate::table_edit;
use crate::tables;
use crate::targets;
use crate::targets::{find_binding, is_focusable};
use crate::text;
use vstd::prelude::*;

verus! {

/// The place of a reference to a footnote.
#[derive(Clone, Copy, Debug, PartialEq, Eq, Structural)]
pub struct FootnoteReference {
    pub entity_id: u64,
    pub start: usize,
    pub end: usize,
}

/// An event of a block or cell.
#[derive(Debug, PartialEq, Eq)]
pub enum BlockEvent {
    /// An edit of the text is about to happen.
    PrepareUndo { capture: UndoCaptureKind },
    /// The text has changed; `title_markdown` is its Markdown.
    Changed { title_markdown: String },
    /// Enter was pressed; `trailing` is the text behind the caret.
    RequestNewline { trailing: InlineTextTree, source_already_mutated: bool },
    RequestEnterCalloutBody,
    RequestQuoteBreak,
    RequestCalloutBreak,
    /// The block is to go into the one before it with this text.
    RequestMergeIntoPrev { content: InlineTextTree },
    RequestPasteMultiline { paste: MultilinePaste },
    RequestPasteImage { image: ImagePaste },
    RequestIndent,
    RequestOutdent,
    RequestDowngradeNestedListItemToChildParagraph,
    ToggleTaskChecked,
    RequestOpenLink { prompt_target: String, open_target: String },
    /// The block that defines the footnote, if there is one.
    RequestJumpToFootnoteDefinition { definition: Option<u64> },
    /// The first reference to the footnote, if there is one.
    RequestJumpToFootnoteBackref { reference: Option<FootnoteReference> },
    RequestAppendTableColumn,
    RequestAppendTableRow,
    RequestTableAxisPreview { kind: TableAxisKind, index: usize, hovered: bool },
    RequestSelectTableAxis { kind: TableAxisKind, index: usize },
    RequestOpenTableAxisMenu { kind: TableAxisKind, index: usize, position: ScreenPoint },
    RequestStartTableColumnResize {
        left_column: usize,
        pointer_x: u32,
        table_width: u32,
        start_fractions: Vec<u32>,
    },
    /// The widths that the dragged boundary gives.
    RequestUpdateTableColumnResize { fractions: Vec<u32> },
    RequestEndTableColumnResize,
    RequestTableCellMoveHorizontal { delta: i32 },
    /// `entry_offset` is where the caret lands in a block outside the table.
    RequestTableCellMoveVertical { delta: i32, entry_offset: usize },
    /// `entry_offset` is where the caret lands in the block above.
    RequestFocusPrev { entry_offset: usize },
    /// `entry_offset` is where the caret lands in the block below.
    RequestFocusNext { entry_offset: usize },
    RequestBlockUp,
    RequestBlockDown,
    /// The block is to go; `parent_title_markdown` is the Markdown of the title of
    /// the block that it lies under.
    RequestDelete { parent_title_markdown: String },
    RequestFocus,
}

/// What is left to do after an event.
#[derive(Clone, Copy, Debug, PartialEq, Eq, Structural)]
pub struct EventOutcome {
    /// Quotes need to be read anew.
    pub normalize_quotes: bool,
    /// This block is to be focused then.
    pub focus_after: Option<u64>,
    /// The last block of the document may need a paragraph below it.
    pub trailing_paragraph: bool,
    /// The undo capture is to be closed.
    pub finalize: bool,
    /// The images of the document need to be looked up anew.
    pub rebuild_images: bool,
    /// The selection that spans blocks is to be replaced by the Markdown of the image
    /// that was pasted. Nothing else is left to do then.
    pub replace_selection: bool,
}

/// Nothing is left to do.
pub open spec fn quiet() -> EventOutcome {
    EventOutcome {
        normalize_quotes: false,
        focus_after: None,
        trailing_paragraph: false,
        finalize: false,
        rebuild_images: false,
        replace_selection: false,
    }
}

/// The undo capture is to be closed after an edit.
pub open spec fn edited(normalize_quotes: bool, rebuild_images: bool) -> EventOutcome {
    EventOutcome {
        normalize_quotes,
        focus_after: None,
        trailing_paragraph: false,
        finalize: true,
        rebuild_images,
        replace_selection: false,
    }
}

/// Whether an event ends a selection that spans blocks.
pub open spec fn clears_cross_block(event: BlockEvent) -> bool {
    event is Changed || event is RequestNewline || event is RequestEnterCalloutBody
        || event is RequestQuoteBreak || event is RequestCalloutBreak
        || event is RequestMergeIntoPrev || event is RequestPasteMultiline
        || event is RequestPasteImage || event is RequestIndent || event is RequestOutdent
        || event is RequestDowngradeNestedListItemToChildParagraph || event is ToggleTaskChecked
        || event is RequestAppendTableColumn || event is RequestAppendTableRow
        || event is RequestDelete
}

/// The state without a selection that spans blocks, if the event ends it.
pub open spec fn selection_ended(s: EditorView, event: BlockEvent) -> EditorView {
    if clears_cross_block(event) {
        EditorView {
            selection: SelectionState { cross_block: None, select_all_cycle: None },
            ..s
        }
    } else {
        s
    }
}

// ---------------------------------------------------------------------------
// What the events of a block do
// ---------------------------------------------------------------------------

/// The state with an empty paragraph before the block at `i`, if the block asked to
/// count its list from one, and the block's place then.
pub open spec fn numbering_restarted(s: EditorView, i: int) -> (EditorView, int) {
    if s.document[i].restarts_numbering {
        let plain = EditorView {
            document: s.document.update(
                i,
                NodeView { restarts_numbering: false, ..s.document[i] },
            ),
            ..s
        };
        (quotes::paragraph_inserted(plain, i, s.document[i].depth), i + 1)
    } else {
        (s, i)
    }
}

/// The state with a block's request to read quotes anew taken, and whether quotes
/// need to be.
pub open spec fn reparse_taken(s: EditorView, i: int) -> (EditorView, bool) {
    (
        EditorView {
            document: s.document.update(
                i,
                NodeView { quote_reparse_requested: false, ..s.document[i] },
            ),
            ..s
        },
        (s.document[i].quote_reparse_requested && !s.document[i].marked)
            || quotes::requires_reparse(s.document, i),
    )
}

/// The state after the text of the block at `i` changed.
#[verifier::opaque]
pub open spec fn text_changed(s: EditorView, i: int, title_markdown: Seq<char>) -> (
    EditorView,
    EventOutcome,
) {
    let numbered = numbering_restarted(s, i);
    let made = quotes::callout_made(numbered.0, numbered.1, title_markdown);
    let taken = reparse_taken(made.0, numbered.1);
    (
        table_edit::edit_shown(taken.0),
        EventOutcome {
            normalize_quotes: taken.1,
            focus_after: made.1,
            trailing_paragraph: false,
            finalize: true,
            rebuild_images: !taken.1,
            replace_selection: false,
        },
    )
}

/// The state after enter was pressed in the block at `i`.
#[verifier::opaque]
pub open spec fn line_entered(
    s: EditorView,
    i: int,
    trailing: blocks::Title,
    source_already_mutated: bool,
    facts: DocumentFacts,
    now: u64,
) -> (EditorView, EventOutcome) {
    let id = s.document[i].id;
    let underlined = newline::underline_entered(s, id, facts, now);
    if underlined.1 {
        (underlined.0, edited(false, true))
    } else {
        let row = newline::row_entered(s, i, facts, now);
        if row.1 {
            (row.0, edited(false, true))
        } else {
            let ready = if source_already_mutated {
                row.0
            } else {
                quotes::begun(row.0, facts, now)
            };
            (
                newline::line_split(ready, i, trailing),
                edited(kinds::quote_container(s.document[i].kind), true),
            )
        }
    }
}

/// The state after the block at `i` was merged into the one before it.
pub open spec fn merge_requested(
    s: EditorView,
    i: int,
    content: blocks::Title,
    facts: DocumentFacts,
    now: u64,
) -> (EditorView, EventOutcome) {
    if i == 0 {
        (s, quiet())
    } else {
        let related = quotes::quote_related(s, i) || quotes::quote_related(s, i - 1);
        let ready = quotes::begun(s, facts, now);
        (
            focus::dirtied(
                focus::focused(
                    EditorView { document: structure::merged(s.document, i, content), ..ready },
                    s.document[i - 1].id,
                ),
            ),
            edited(related, !related),
        )
    }
}

/// Whether the block at `i` can be nested under the one before it.
pub open spec fn can_indent(nodes: Nodes, i: int) -> bool {
    &&& i > 0
    &&& kinds::nests_under(nodes[i].kind, nodes[i - 1].kind)
    &&& document::parent_of(nodes, i) != Some(i - 1)
}

/// The state after the block at `i` was indented.
pub open spec fn indent_requested(s: EditorView, i: int, facts: DocumentFacts, now: u64) -> (
    EditorView,
    EventOutcome,
) {
    if can_indent(s.document, i) {
        let ready = quotes::begun(s, facts, now);
        (
            focus::dirtied(
                focus::focused(
                    EditorView { document: structure::indented(s.document, i), ..ready },
                    s.document[i].id,
                ),
            ),
            edited(false, false),
        )
    } else {
        (s, quiet())
    }
}

/// A block made a paragraph.
pub open spec fn as_paragraph(node: NodeView) -> NodeView {
    NodeView { kind: BlockKind::Paragraph, ..node }
}

/// The state after the block at `i` was outdented. At the root it becomes a
/// paragraph.
pub open spec fn outdent_requested(s: EditorView, i: int, facts: DocumentFacts, now: u64) -> (
    EditorView,
    EventOutcome,
) {
    let ready = quotes::begun(s, facts, now);
    let nodes = match document::parent_of(s.document, i) {
        Some(p) => structure::outdented(s.document, i, p),
        None => s.document.update(i, as_paragraph(s.document[i])),
    };
    (
        focus::dirtied(
            focus::focused(EditorView { document: nodes, ..ready }, s.document[i].id),
        ),
        edited(false, false),
    )
}

/// Whether the block at `i` is a list item under another one.
pub open spec fn nested_item(nodes: Nodes, i: int) -> bool {
    blocks::kind_is_list_item(nodes[i].kind) && match document::parent_of(nodes, i) {
        Some(p) => blocks::kind_is_list_item(nodes[p].kind),
        None => false,
    }
}

/// The state after the nested list item at `i` was made a paragraph.
pub open spec fn downgrade_requested(s: EditorView, i: int, facts: DocumentFacts, now: u64) -> (
    EditorView,
    EventOutcome,
) {
    if nested_item(s.document, i) {
        let ready = quotes::begun(s, facts, now);
        (
            focus::dirtied(
                focus::focused(
                    EditorView { document: structure::downgraded(s.document, i), ..ready },
                    s.document[i].id,
                ),
            ),
            edited(false, true),
        )
    } else {
        (s, quiet())
    }
}

/// A task with its box ticked or cleared.
pub open spec fn toggled(node: NodeView) -> NodeView {
    match node.kind {
        BlockKind::TaskListItem { checked } => NodeView {
            kind: BlockKind::TaskListItem { checked: !checked },
            ..node
        },
        _ => node,
    }
}

/// The state after the box of the task at `i` was clicked.
pub open spec fn toggle_requested(s: EditorView, i: int, facts: DocumentFacts, now: u64) -> (
    EditorView,
    EventOutcome,
) {
    let ready = quotes::begun(s, facts, now);
    (
        table_edit::edit_shown(
            EditorView { document: s.document.update(i, toggled(s.document[i])), ..ready },
        ),
        edited(false, false),
    )
}

/// The state with a link that waits for the user to confirm it.
pub open spec fn link_requested(
    s: EditorView,
    prompt_target: Seq<char>,
    open_target: Seq<char>,
) -> EditorView {
    EditorView { open_link: Some(OpenLink { prompt_target, open_target }), ..s }
}

/// The state after a jump to the definition of a footnote.
pub open spec fn definition_shown(s: EditorView, definition: Option<u64>) -> EditorView {
    match definition {
        Some(id) => if targets::focusable(s.document, id) {
            targets::range_focused(s, id, 0, 0)
        } else {
            s
        },
        None => s,
    }
}

/// The state after a jump to the first reference to a footnote.
pub open spec fn reference_shown(s: EditorView, reference: Option<FootnoteReference>) -> EditorView {
    match reference {
        Some(r) => if targets::focusable(s.document, r.entity_id) {
            targets::range_focused(s, r.entity_id, r.start, r.end)
        } else {
            s
        },
        None => s,
    }
}

/// The state after the caret left the last block downwards: where the block's text
/// has several lines, it goes into a paragraph below.
pub open spec fn document_left(s: EditorView, i: int) -> EditorView {
    if kinds::multiline_text(s.document[i].kind) {
        let grown = newline::trailing_ensured(s, i);
        if i + 1 < grown.document.len() {
            focus::focused(
                EditorView {
                    document: grown.document.update(
                        i + 1,
                        structure::with_caret(
                            grown.document[i + 1],
                            BlockSelection::Visible { start: 0, end: 0 },
                        ),
                    ),
                    ..grown
                },
                grown.document[i + 1].id,
            )
        } else {
            grown
        }
    } else {
        s
    }
}

/// The state after the caret left the block at `i` downwards.
pub open spec fn next_requested(s: EditorView, i: int, entry_offset: usize) -> EditorView {
    if i + 1 >= s.document.len() {
        document_left(s, i)
    } else {
        cells::left_block(s, i, false, entry_offset)
    }
}

/// The state after the only block of the document was asked to go: it stays as an
/// empty place for the caret.
pub open spec fn only_block_kept(s: EditorView, i: int) -> EditorView {
    let node = s.document[i];
    let kept = if node.kind is Paragraph {
        structure::with_caret(node, BlockSelection::Visible { start: 0, end: 0 })
    } else {
        as_paragraph(node)
    };
    focus::focused(EditorView { document: s.document.update(i, kept), ..s }, node.id)
}

/// The state after the block at `i` was deleted.
#[verifier::opaque]
pub open spec fn delete_requested(
    s: EditorView,
    i: int,
    parent_title_markdown: Seq<char>,
    facts: DocumentFacts,
    now: u64,
) -> (EditorView, EventOutcome) {
    match quotes::callout_to_downgrade(s, s.document[i].id) {
        Some(p) => (
            quotes::callout_downgraded(s, p, parent_title_markdown, facts, now),
            edited(false, true),
        ),
        None => if s.document.len() == 1 {
            (only_block_kept(s, i), quiet())
        } else {
            let ready = quotes::begun(s, facts, now);
            let neighbor = if i > 0 {
                s.document[i - 1].id
            } else {
                s.document[i + 1].id
            };
            (
                focus::dirtied(
                    focus::focused(
                        EditorView { document: structure::deleted(s.document, i), ..ready },
                        neighbor,
                    ),
                ),
                edited(quotes::quote_related(s, i), false),
            )
        },
    }
}

/// The outcome of a paste.
pub open spec fn paste_outcome(outcome: paste::PasteOutcome) -> EventOutcome {
    if outcome.pasted {
        EventOutcome {
            normalize_quotes: outcome.normalize_quotes,
            focus_after: None,
            trailing_paragraph: outcome.trailing_paragraph,
            finalize: true,
            rebuild_images: true,
            replace_selection: false,
        }
    } else {
        quiet()
    }
}

/// The state after an event of a table's rows and columns. `is_table` says whether the
/// block that it comes from is a table. Other events change nothing.
#[verifier::opaque]
pub open spec fn table_request(
    s: EditorView,
    id: u64,
    is_table: bool,
    event: BlockEvent,
    facts: DocumentFacts,
    now: u64,
) -> (EditorView, EventOutcome) {
    match event {
        BlockEvent::RequestAppendTableColumn => if is_table {
            (
                table_edit::column_appended(quotes::begun(s, facts, now), id, facts, now),
                edited(false, true),
            )
        } else {
            (s, quiet())
        },
        BlockEvent::RequestAppendTableRow => if is_table {
            (
                table_edit::row_appended(quotes::begun(s, facts, now), id, facts, now),
                edited(false, true),
            )
        } else {
            (s, quiet())
        },
        BlockEvent::RequestTableAxisPreview { kind, index, hovered } => if is_table {
            (
                tables::previewed(
                    s,
                    TableAxisSelection { table_block_id: id, kind, index },
                    hovered,
                ),
                quiet(),
            )
        } else {
            (s, quiet())
        },
        BlockEvent::RequestSelectTableAxis { kind, index } => if is_table {
            (
                tables::axis_chosen(s, TableAxisSelection { table_block_id: id, kind, index }),
                quiet(),
            )
        } else {
            (s, quiet())
        },
        BlockEvent::RequestOpenTableAxisMenu { kind, index, position } => if is_table {
            (
                table_edit::axis_menu_requested(
                    s,
                    TableAxisSelection { table_block_id: id, kind, index },
                    position,
                ),
                quiet(),
            )
        } else {
            (s, quiet())
        },
        BlockEvent::RequestStartTableColumnResize {
            left_column,
            pointer_x,
            table_width,
            start_fractions,
        } => if is_table {
            (
                table_edit::resize_started(
                    s,
                    TableColumnResizeDrag {
                        table_block_id: id,
                        left_column,
                        start_pointer_x: pointer_x,
                        table_width,
                        start_fractions: start_fractions@,
                        current_fractions: start_fractions@,
                    },
                ),
                quiet(),
            )
        } else {
            (s, quiet())
        },
        BlockEvent::RequestUpdateTableColumnResize { fractions } => (
            table_edit::resize_updated(s, fractions@),
            quiet(),
        ),
        BlockEvent::RequestEndTableColumnResize => (
            table_edit::resize_ended(s, facts, now),
            EventOutcome {
                finalize: resize_captures(s, facts),
                rebuild_images: resize_writes(s, facts),
                ..quiet()
            },
        ),
        _ => (s, quiet()),
    }
}

/// The state after an event of the block at `i`, which is no cell.
#[verifier::opaque]
pub open spec fn block_event(
    s: EditorView,
    i: int,
    event: BlockEvent,
    semantic: Seq<Seq<char>>,
    facts: DocumentFacts,
    now: u64,
) -> (EditorView, EventOutcome) {
    let id = s.document[i].id;
    match event {
        BlockEvent::Changed { title_markdown } => text_changed(s, i, title_markdown@),
        BlockEvent::RequestNewline { trailing, source_already_mutated } => line_entered(
            s,
            i,
            trailing@,
            source_already_mutated,
            facts,
            now,
        ),
        BlockEvent::RequestEnterCalloutBody => {
            let after = quotes::body_entered(s, id, facts, now);
            (
                after.0,
                EventOutcome {
                    finalize: after.1,
                    rebuild_images: s.document[i].kind is Callout,
                    ..quiet()
                },
            )
        },
        BlockEvent::RequestQuoteBreak => (
            quotes::quote_broken(s, id, facts, now),
            if quotes::quote_to_break(s, id) is Some {
                edited(true, false)
            } else {
                quiet()
            },
        ),
        BlockEvent::RequestCalloutBreak => (
            quotes::callout_broken(s, id, facts, now),
            if quotes::quotes_to_leave(s, id) is Some {
                edited(false, true)
            } else {
                quiet()
            },
        ),
        BlockEvent::RequestMergeIntoPrev { content } => merge_requested(
            s,
            i,
            content@,
            facts,
            now,
        ),
        BlockEvent::RequestPasteMultiline { paste } => {
            let after = paste::pasted(s, i, paste, semantic, facts, now);
            (after.0, paste_outcome(after.1))
        },
        BlockEvent::RequestIndent => indent_requested(s, i, facts, now),
        BlockEvent::RequestOutdent => outdent_requested(s, i, facts, now),
        BlockEvent::RequestDowngradeNestedListItemToChildParagraph => downgrade_requested(
            s,
            i,
            facts,
            now,
        ),
        BlockEvent::ToggleTaskChecked => toggle_requested(s, i, facts, now),
        BlockEvent::RequestOpenLink { prompt_target, open_target } => (
            link_requested(s, prompt_target@, open_target@),
            quiet(),
        ),
        BlockEvent::RequestJumpToFootnoteDefinition { definition } => (
            definition_shown(s, definition),
            quiet(),
        ),
        BlockEvent::RequestJumpToFootnoteBackref { reference } => (
            reference_shown(s, reference),
            quiet(),
        ),
        BlockEvent::RequestFocusPrev { entry_offset } => (
            cells::left_block(s, i, true, entry_offset),
            quiet(),
        ),
        BlockEvent::RequestFocusNext { entry_offset } => (
            next_requested(s, i, entry_offset),
            quiet(),
        ),
        BlockEvent::RequestBlockUp => (cells::left_block(s, i, true, 0), quiet()),
        BlockEvent::RequestBlockDown => (cells::left_block(s, i, false, 0), quiet()),
        BlockEvent::RequestDelete { parent_title_markdown } => delete_requested(
            s,
            i,
            parent_title_markdown@,
            facts,
            now,
        ),
        BlockEvent::RequestFocus => (cells::focus_requested(s, id), quiet()),
        _ => table_request(s, id, s.document[i].kind is Table, event, facts, now),
    }
}

/// Whether letting a dragged column boundary go writes widths to a table.
pub open spec fn resize_writes(s: EditorView, facts: DocumentFacts) -> bool {
    s.axis.resize_drag matches Some(drag) && table_edit::typed_table(
        s,
        facts,
        drag.table_block_id,
    ) is Some
}

/// Whether letting a dragged column boundary go begins an undo capture.
pub open spec fn resize_captures(s: EditorView, facts: DocumentFacts) -> bool {
    s.axis.resize_drag matches Some(drag) && table_edit::capture_due(
        s,
        table_edit::typed_table(
            table_edit::drag_dropped(s, drag.table_block_id),
            facts,
            drag.table_block_id,
        ),
    )
}

/// The state after an event of a cell of the table at `i`.
#[verifier::opaque]
pub open spec fn cell_event(
    s: EditorView,
    cell: u64,
    i: int,
    position: TableCellPosition,
    event: BlockEvent,
    facts: DocumentFacts,
    now: u64,
) -> (EditorView, EventOutcome) {
    let id = s.document[i].id;
    match event {
        BlockEvent::Changed { title_markdown } => (
            table_edit::edit_shown(tables::synced_record(s, id)),
            edited(false, true),
        ),
        BlockEvent::RequestOpenLink { prompt_target, open_target } => (
            link_requested(s, prompt_target@, open_target@),
            quiet(),
        ),
        BlockEvent::RequestJumpToFootnoteDefinition { definition } => (
            definition_shown(s, definition),
            quiet(),
        ),
        BlockEvent::RequestJumpToFootnoteBackref { reference } => (
            reference_shown(s, reference),
            quiet(),
        ),
        BlockEvent::RequestTableCellMoveHorizontal { delta } => (
            cells::moved_horizontally(s, i, position, delta as int),
            quiet(),
        ),
        BlockEvent::RequestTableCellMoveVertical { delta, entry_offset } => (
            cells::moved_vertically(s, i, position, delta as int, entry_offset),
            quiet(),
        ),
        BlockEvent::RequestNewline { trailing, source_already_mutated } => (
            cells::left_by_newline(s, i, facts, now),
            edited(false, true),
        ),
        BlockEvent::RequestFocus => (cells::focus_requested(s, cell), quiet()),
        BlockEvent::RequestFocusPrev { entry_offset } => (
            cells::moved_vertically(s, i, position, -1, entry_offset),
            quiet(),
        ),
        BlockEvent::RequestFocusNext { entry_offset } => (
            cells::moved_vertically(s, i, position, 1, entry_offset),
            quiet(),
        ),
        BlockEvent::RequestBlockUp => (cells::left_block(s, i, true, 0), quiet()),
        BlockEvent::RequestBlockDown => (cells::left_block(s, i, false, 0), quiet()),
        _ => (s, quiet()),
    }
}

/// Whether a block that is no longer in the document is a table.
pub open spec fn gone_table(facts: DocumentFacts, id: u64) -> bool {
    history::gone_block(facts, id) matches Some(gone) && gone.block@.kind is Table
}

/// The first block under a block that is no longer in the document.
pub open spec fn gone_child(facts: DocumentFacts, id: u64) -> Option<u64> {
    match history::gone_block(facts, id) {
        Some(gone) => gone.first_child,
        None => None,
    }
}

/// The state after the text of a block that is no longer in the document changed. A
/// callout header typed into it gets a body there, which the document does not hold
/// either.
pub open spec fn stray_change(
    s: EditorView,
    id: u64,
    title_markdown: Seq<char>,
    facts: DocumentFacts,
) -> (EditorView, EventOutcome) {
    let header = quotes::gone_callout_typed(s, facts, id, title_markdown);
    let reparse = quotes::gone_requires_reparse(facts, id, header);
    (
        table_edit::edit_shown(
            match header {
                Some(typed) => EditorView { next_id: (s.next_id + 1) as u64, ..s },
                None => s,
            },
        ),
        EventOutcome {
            normalize_quotes: reparse,
            focus_after: match header {
                Some(typed) => Some(s.next_id),
                None => None,
            },
            rebuild_images: !reparse,
            finalize: true,
            ..quiet()
        },
    )
}

/// The state after the caret was to go into the body of a callout that is no longer in
/// the document. A body that it lacks is made, but not in the document.
pub open spec fn stray_body(s: EditorView, id: u64, facts: DocumentFacts, now: u64) -> (
    EditorView,
    EventOutcome,
) {
    let child = gone_child(facts, id);
    let ready = if child is None {
        quotes::begun(s, facts, now)
    } else {
        s
    };
    if history::gone_block(facts, id) matches Some(gone) && gone.block@.kind is Callout {
        match child {
            Some(body) => (
                focus::focused(ready, body),
                EventOutcome { rebuild_images: true, ..quiet() },
            ),
            None => (
                focus::dirtied(
                    focus::focused(
                        EditorView { next_id: (s.next_id + 1) as u64, ..ready },
                        s.next_id,
                    ),
                ),
                edited(false, true),
            ),
        }
    } else {
        (ready, quiet())
    }
}

/// The state after an event of a block that is no longer in the document. What it asks
/// of its own place comes to nothing, and the caret leaves it as it would leave the
/// first block.
#[verifier::opaque]
pub open spec fn stray_event(
    s: EditorView,
    id: u64,
    event: BlockEvent,
    facts: DocumentFacts,
    now: u64,
) -> (EditorView, EventOutcome) {
    match event {
        BlockEvent::Changed { title_markdown } => stray_change(s, id, title_markdown@, facts),
        BlockEvent::RequestEnterCalloutBody => stray_body(s, id, facts, now),
        BlockEvent::RequestPasteMultiline { paste } => if paste.lines@.len() == 0 {
            (s, quiet())
        } else if paste::tail_lines(paste).len() == 0 {
            (
                focus::dirtied(focus::focused(quotes::begun(s, facts, now), id)),
                edited(quotes::gone_quote_related(s, facts, id), true),
            )
        } else {
            (quotes::begun(s, facts, now), quiet())
        },
        BlockEvent::ToggleTaskChecked => (
            table_edit::edit_shown(quotes::begun(s, facts, now)),
            edited(false, false),
        ),
        BlockEvent::RequestDelete { parent_title_markdown } => if s.document.len() == 1
            && gone_child(facts, id) is None {
            (focus::focused(s, id), quiet())
        } else {
            (quotes::begun(s, facts, now), quiet())
        },
        _ => if glances(event) {
            (stray_glance(s, id, event), quiet())
        } else {
            table_request(s, id, gone_table(facts, id), event, facts, now)
        },
    }
}

/// Whether an event only asks to show something or to move the caret downwards.
pub open spec fn glances(event: BlockEvent) -> bool {
    event is RequestOpenLink || event is RequestJumpToFootnoteDefinition
        || event is RequestJumpToFootnoteBackref || event is RequestFocusNext
        || event is RequestBlockDown || event is RequestFocus
}

/// The state after an event of a block that is no longer in the document and that only
/// asks to show something or to move the caret downwards.
#[verifier::opaque]
pub open spec fn stray_glance(s: EditorView, id: u64, event: BlockEvent) -> EditorView {
    match event {
        BlockEvent::RequestOpenLink { prompt_target, open_target } => link_requested(
            s,
            prompt_target@,
            open_target@,
        ),
        BlockEvent::RequestJumpToFootnoteDefinition { definition } => definition_shown(
            s,
            definition,
        ),
        BlockEvent::RequestJumpToFootnoteBackref { reference } => reference_shown(s, reference),
        BlockEvent::RequestFocusNext { entry_offset } => cells::left_block(
            s,
            0,
            false,
            entry_offset,
        ),
        BlockEvent::RequestBlockDown => cells::left_block(s, 0, false, 0),
        BlockEvent::RequestFocus => cells::focus_requested(s, id),
        _ => s,
    }
}

/// The state after an event of a block or cell, and what is left to do.
pub open spec fn event_applied(
    s: EditorView,
    id: u64,
    event: BlockEvent,
    semantic: Seq<Seq<char>>,
    facts: DocumentFacts,
    now: u64,
) -> (EditorView, EventOutcome) {
    match event {
        BlockEvent::PrepareUndo { capture } => (
            history::capturing(s, history::stable_entry(s, capture, now)),
            quiet(),
        ),
        BlockEvent::RequestPasteImage { image } => (
            images::image_pasted(s, id, image, facts, now),
            if images::replaces_selection(facts) {
                EventOutcome { replace_selection: true, ..quiet() }
            } else {
                edited(false, true)
            },
        ),
        _ => {
            let ready = selection_ended(s, event);
            match targets::binding_of(s.document, id) {
                Some(binding) => cell_event(
                    ready,
                    id,
                    binding.0,
                    binding.1,
                    event,
                    facts,
                    now,
                ),
                None => match document::index_of(s.document, id) {
                    Some(i) => block_event(ready, i, event, semantic, facts, now),
                    None => stray_event(ready, id, event, facts, now),
                },
            }
        },
    }
}

/// Whether the ids last for what an event of the block at `i` makes.
#[verifier::opaque]
pub open spec fn room_at(
    s: EditorView,
    i: int,
    event: BlockEvent,
    semantic: Seq<Seq<char>>,
    facts: DocumentFacts,
) -> bool {
    let id = s.document[i].id;
    match event {
        BlockEvent::RequestNewline { trailing, source_already_mutated } => newline::room_for_row(
            s,
            i,
        ),
        BlockEvent::RequestPasteMultiline { paste } => paste::room_to_paste(
            s,
            i,
            paste,
            semantic,
        ),
        _ => room_for_request(s, id, event, facts),
    }
}

/// Whether the ids last for what an event of a table's rows and columns makes.
pub open spec fn room_for_request(
    s: EditorView,
    id: u64,
    event: BlockEvent,
    facts: DocumentFacts,
) -> bool {
    match event {
        BlockEvent::RequestAppendTableColumn => table_edit::room_for_table(
            s,
            id,
            table_edit::with_column_added(table_edit::typed_table(s, facts, id)),
        ),
        BlockEvent::RequestAppendTableRow => table_edit::room_for_table(
            s,
            id,
            table_edit::with_row_added(table_edit::typed_table(s, facts, id)),
        ),
        BlockEvent::RequestEndTableColumnResize => table_edit::room_to_resize(s, facts),
        _ => true,
    }
}

/// Whether the ids last for what an event makes.
pub open spec fn room_for_event(
    s: EditorView,
    id: u64,
    event: BlockEvent,
    semantic: Seq<Seq<char>>,
    facts: DocumentFacts,
) -> bool {
    &&& s.next_id + 2 <= u64::MAX
    &&& targets::binding_of(s.document, id) is None ==> match document::index_of(s.document, id) {
        Some(i) => room_at(s, i, event, semantic, facts),
        None => room_for_request(s, id, event, facts),
    }
}

// ---------------------------------------------------------------------------
// What is left to do
// ---------------------------------------------------------------------------

/// The last block at the root at or before `at`.
pub open spec fn last_root(nodes: Nodes, at: int) -> Option<int>
    decreases at + 1,
{
    if at < 0 || at >= nodes.len() {
        None
    } else if nodes[at].depth == 0 {
        Some(at)
    } else {
        last_root(nodes, at - 1)
    }
}

/// The state after what an event left to do, but for reading quotes anew and
/// closing the undo capture.
pub open spec fn settled(s: EditorView, outcome: EventOutcome) -> EditorView {
    let focused = table_edit::focused_if(s, outcome.focus_after);
    if outcome.trailing_paragraph {
        match last_root(focused.document, focused.document.len() - 1) {
            Some(i) => newline::trailing_ensured(focused, i),
            None => focused,
        }
    } else {
        focused
    }
}

proof fn lemma_numbering(s: EditorView, i: int)
    requires
        document::well_formed(s.document, s.next_id),
        0 <= i < s.document.len(),
        s.next_id < u64::MAX,
    ensures
        ({
            let after = numbering_restarted(s, i);
            document::well_formed(after.0.document, after.0.next_id) && i <= after.1
                < after.0.document.len() && after.0.next_id <= s.next_id + 1
        }),
{
    if s.document[i].restarts_numbering {
        let plain = EditorView {
            document: s.document.update(
                i,
                NodeView { restarts_numbering: false, ..s.document[i] },
            ),
            ..s
        };
        document::lemma_same_shape(s.document, plain.document, s.next_id);
        assert(document::fits(plain.document, i, s.document[i].depth)) by {
            if i > 0 {
                assert(document::depth_step(plain.document, i));
            }
        }
        quotes::a_new_block_keeps_documents_well_formed(
            plain,
            i,
            s.document[i].depth,
            BlockKind::Paragraph,
            blocks::plain_title(Seq::empty()),
        );
    }
}

proof fn lemma_callout_made(s: EditorView, i: int, title_markdown: Seq<char>)
    requires
        document::well_formed(s.document, s.next_id),
        0 <= i < s.document.len(),
        s.next_id < u64::MAX,
    ensures
        ({
            let after = quotes::callout_made(s, i, title_markdown).0;
            document::well_formed(after.document, after.next_id) && i < after.document.len()
        }),
{
    if let Some(header) = quotes::callout_typed(s, i, title_markdown) {
        let named = EditorView {
            document: s.document.update(
                i,
                NodeView {
                    kind: BlockKind::Callout(header.0),
                    ..structure::retitled(s.document[i], blocks::markdown_title(header.1))
                },
            ),
            ..s
        };
        document::lemma_same_shape(s.document, named.document, s.next_id);
        quotes::callout_bodies_keep_documents_well_formed(named, i);
    }
}

proof fn lemma_row_refused(s: EditorView, i: int, facts: DocumentFacts, now: u64)
    requires
        document::well_formed(s.document, s.next_id),
        0 <= i < s.document.len(),
        !newline::row_entered(s, i, facts, now).1,
    ensures
        ({
            let after = newline::row_entered(s, i, facts, now).0;
            document::same_shape(s.document, after.document) && after.next_id == s.next_id
        }),
{
    if let Some(newline::TypedRow::Body { at }) = newline::typed_row(s.document, i) {
        document::lemma_index_from(s.document, s.document[at].id, 0);
    }
}

proof fn lemma_room_at(
    s: EditorView,
    i: int,
    event: BlockEvent,
    semantic: Seq<Seq<char>>,
    facts: DocumentFacts,
)
    requires
        room_at(s, i, event, semantic, facts),
    ensures
        room_at(selection_ended(s, event), i, event, semantic, facts),
{
    reveal(room_at);
}

proof fn lemma_not_under_previous(nodes: Nodes, i: int)
    requires
        document::forest(nodes),
        0 < i < nodes.len(),
        document::parent_of(nodes, i) != Some(i - 1),
    ensures
        nodes[i - 1].depth >= nodes[i].depth,
{
    assert(document::depth_step(nodes, i));
}

/// The document and the ids of a state are those of a well-formed document.
pub open spec fn sound(s: EditorView) -> bool {
    document::well_formed(s.document, s.next_id)
}

proof fn lemma_text_changed(s: EditorView, i: int, title_markdown: Seq<char>)
    requires
        sound(s),
        0 <= i < s.document.len(),
        s.next_id + 2 <= u64::MAX,
    ensures
        sound(text_changed(s, i, title_markdown).0),
{
    reveal(text_changed);
    lemma_numbering(s, i);
    let numbered = numbering_restarted(s, i);
    lemma_callout_made(numbered.0, numbered.1, title_markdown);
    let made = quotes::callout_made(numbered.0, numbered.1, title_markdown).0;
    let taken = reparse_taken(made, numbered.1).0;
    document::lemma_same_shape(made.document, taken.document, made.next_id);
}

proof fn lemma_line_entered(
    s: EditorView,
    i: int,
    trailing: blocks::Title,
    source_already_mutated: bool,
    facts: DocumentFacts,
    now: u64,
)
    requires
        sound(s),
        0 <= i < s.document.len(),
        document::index_of(s.document, s.document[i].id) == Some(i),
        s.next_id < u64::MAX,
        newline::room_for_row(s, i),
    ensures
        sound(line_entered(s, i, trailing, source_already_mutated, facts, now).0),
{
    reveal(line_entered);
    let id = s.document[i].id;
    if newline::underline_entered(s, id, facts, now).1 {
        newline::underlines_keep_documents_well_formed(quotes::begun(s, facts, now), i);
    } else {
        newline::typed_rows_keep_documents_well_formed(s, i, facts, now);
        let row = newline::row_entered(s, i, facts, now);
        if !row.1 {
            lemma_row_refused(s, i, facts, now);
            let ready = if source_already_mutated {
                row.0
            } else {
                quotes::begun(row.0, facts, now)
            };
            newline::splitting_a_line_keeps_documents_well_formed(ready, i, trailing);
        }
    }
}

proof fn lemma_delete_requested(
    s: EditorView,
    i: int,
    parent_title_markdown: Seq<char>,
    facts: DocumentFacts,
    now: u64,
)
    requires
        sound(s),
        0 <= i < s.document.len(),
        document::index_of(s.document, s.document[i].id) == Some(i),
    ensures
        sound(delete_requested(s, i, parent_title_markdown, facts, now).0),
{
    reveal(delete_requested);
    let after = delete_requested(s, i, parent_title_markdown, facts, now).0;
    match quotes::callout_to_downgrade(s, s.document[i].id) {
        Some(p) => {
            document::removing_keeps_a_document_well_formed(s.document, s.next_id, p + 1);
            document::lemma_same_shape(
                document::removed(s.document, p + 1),
                after.document,
                s.next_id,
            );
        },
        None => {
            if s.document.len() == 1 {
                document::lemma_same_shape(s.document, after.document, s.next_id);
            } else {
                structure::deleting_keeps_documents_well_formed(s.document, s.next_id, i);
            }
        },
    }
}

proof fn lemma_document_left(s: EditorView, i: int)
    requires
        sound(s),
        0 <= i < s.document.len(),
        s.next_id < u64::MAX,
    ensures
        sound(document_left(s, i)),
{
    newline::trailing_paragraphs_keep_documents_well_formed(s, i);
    if kinds::multiline_text(s.document[i].kind) {
        let grown = newline::trailing_ensured(s, i);
        document::lemma_same_shape(
            grown.document,
            document_left(s, i).document,
            grown.next_id,
        );
    }
}

proof fn lemma_synced(s: EditorView, id: u64)
    requires
        sound(s),
    ensures
        document::same_shape(s.document, tables::synced_record(s, id).document),
        sound(tables::synced_record(s, id)),
{
    document::lemma_index_from(s.document, id, 0);
    document::lemma_same_shape(
        s.document,
        tables::synced_record(s, id).document,
        s.next_id,
    );
}

proof fn lemma_table_changed(
    s: EditorView,
    id: u64,
    table: TableView,
    facts: DocumentFacts,
    now: u64,
)
    requires
        sound(s),
        table_edit::room_for_table(s, id, Some(table)),
    ensures
        sound(table_edit::table_changed(s, id, table, facts, now)),
{
    lemma_synced(s, id);
    let typed = tables::synced_record(s, id);
    let replaced = tables::table_replaced(
        table_edit::edit_begun(s, id, facts, now),
        id,
        table,
    );
    document::lemma_index_from(typed.document, id, 0);
    assert(replaced.document == tables::table_replaced(typed, id, table).document);
    document::lemma_same_shape(s.document, replaced.document, s.next_id);
    cell_laws::rebuilding_keeps_documents_well_formed(replaced);
}

proof fn lemma_appended(s: EditorView, id: u64, facts: DocumentFacts, now: u64)
    requires
        sound(s),
    ensures
        table_edit::room_for_table(
            s,
            id,
            table_edit::with_column_added(table_edit::typed_table(s, facts, id)),
        ) ==> sound(table_edit::column_appended(s, id, facts, now)),
        table_edit::room_for_table(
            s,
            id,
            table_edit::with_row_added(table_edit::typed_table(s, facts, id)),
        ) ==> sound(table_edit::row_appended(s, id, facts, now)),
{
    lemma_synced(s, id);
    if let Some(table) = table_edit::with_column_added(table_edit::typed_table(s, facts, id)) {
        if table_edit::room_for_table(s, id, Some(table)) {
            lemma_table_changed(s, id, table, facts, now);
        }
    }
    if let Some(table) = table_edit::with_row_added(table_edit::typed_table(s, facts, id)) {
        if table_edit::room_for_table(s, id, Some(table)) {
            lemma_table_changed(s, id, table, facts, now);
        }
    }
}

proof fn lemma_axis_shown(s: EditorView, axis: TableAxisSelection, hovered: bool, position: ScreenPoint)
    requires
        sound(s),
    ensures
        sound(tables::previewed(s, axis, hovered)),
        sound(tables::axis_chosen(s, axis)),
        sound(table_edit::axis_menu_requested(s, axis, position)),
{
    let previewed = tables::previewed(s, axis, hovered);
    let chosen = tables::axis_chosen(s, axis);
    assert(document::same_shape(s.document, previewed.document));
    document::lemma_same_shape(s.document, previewed.document, s.next_id);
    assert(document::same_shape(s.document, chosen.document));
    document::lemma_same_shape(s.document, chosen.document, s.next_id);
}

proof fn lemma_resized(s: EditorView, facts: DocumentFacts, now: u64)
    requires
        sound(s),
        table_edit::room_to_resize(s, facts),
    ensures
        sound(table_edit::resize_ended(s, facts, now)),
{
    if let Some(drag) = s.axis.resize_drag {
        let dropped = table_edit::drag_dropped(s, drag.table_block_id);
        document::lemma_index_from(s.document, drag.table_block_id, 0);
        document::lemma_same_shape(s.document, dropped.document, s.next_id);
        table_edit::table_edits_keep_documents_well_formed(
            dropped,
            drag.table_block_id,
            table_edit::with_widths(
                table_edit::typed_table(dropped, facts, drag.table_block_id),
                drag.current_fractions,
            ),
            Some(table_edit::column_axis(drag.table_block_id, drag.left_column as int)),
            table_edit::column_head(drag.left_column as int),
            facts,
            now,
        );
    }
}

proof fn lemma_resize_updated(s: EditorView, fractions: Seq<u32>)
    requires
        sound(s),
    ensures
        sound(table_edit::resize_updated(s, fractions)),
{
    if let Some(drag) = s.axis.resize_drag {
        document::lemma_index_from(s.document, drag.table_block_id, 0);
        document::lemma_same_shape(
            s.document,
            table_edit::resize_updated(s, fractions).document,
            s.next_id,
        );
    }
}

proof fn lemma_room_begun(s: EditorView, id: u64, event: BlockEvent, facts: DocumentFacts, now: u64)
    requires
        room_for_request(s, id, event, facts),
        event is RequestAppendTableColumn || event is RequestAppendTableRow,
    ensures
        room_for_request(quotes::begun(s, facts, now), id, event, facts),
{
}

proof fn lemma_table_request(
    s: EditorView,
    id: u64,
    is_table: bool,
    event: BlockEvent,
    facts: DocumentFacts,
    now: u64,
)
    requires
        sound(s),
        room_for_request(s, id, event, facts),
    ensures
        sound(table_request(s, id, is_table, event, facts, now).0),
{
    reveal(table_request);
    let begun = quotes::begun(s, facts, now);
    match event {
        BlockEvent::RequestAppendTableColumn | BlockEvent::RequestAppendTableRow => {
            lemma_room_begun(s, id, event, facts, now);
            lemma_appended(begun, id, facts, now);
        },
        BlockEvent::RequestTableAxisPreview { kind, index, hovered } => {
            lemma_axis_shown(
                s,
                TableAxisSelection { table_block_id: id, kind, index },
                hovered,
                ScreenPoint { x: 0, y: 0 },
            );
        },
        BlockEvent::RequestSelectTableAxis { kind, index } => {
            lemma_axis_shown(
                s,
                TableAxisSelection { table_block_id: id, kind, index },
                false,
                ScreenPoint { x: 0, y: 0 },
            );
        },
        BlockEvent::RequestOpenTableAxisMenu { kind, index, position } => {
            lemma_axis_shown(
                s,
                TableAxisSelection { table_block_id: id, kind, index },
                false,
                position,
            );
        },
        BlockEvent::RequestUpdateTableColumnResize { fractions } => {
            lemma_resize_updated(s, fractions@);
        },
        BlockEvent::RequestEndTableColumnResize => {
            lemma_resized(s, facts, now);
        },
        _ => {},
    }
}

proof fn lemma_moved(s: EditorView, i: int, upwards: bool, offset: usize)
    requires
        sound(s),
        0 <= i < s.document.len(),
    ensures
        sound(cells::left_block(s, i, upwards, offset)),
{
    document::lemma_same_shape(
        s.document,
        cells::left_block(s, i, upwards, offset).document,
        s.next_id,
    );
}

proof fn lemma_clicked(s: EditorView, id: u64)
    requires
        sound(s),
    ensures
        sound(cells::focus_requested(s, id)),
{
    let after = cells::focus_requested(s, id);
    assert(document::same_shape(s.document, after.document));
    document::lemma_same_shape(s.document, after.document, s.next_id);
}

proof fn lemma_jumped(s: EditorView, definition: Option<u64>, reference: Option<FootnoteReference>)
    requires
        sound(s),
    ensures
        sound(definition_shown(s, definition)),
        sound(reference_shown(s, reference)),
{
    if let Some(id) = definition {
        let caret = BlockSelection::Visible { start: 0, end: 0 };
        targets::selecting_keeps_the_shape(s.document, id, caret, false);
        document::lemma_same_shape(
            s.document,
            targets::selected_in(s.document, id, caret, false),
            s.next_id,
        );
    }
    if let Some(r) = reference {
        let range = BlockSelection::Visible { start: r.start, end: r.end };
        targets::selecting_keeps_the_shape(s.document, r.entity_id, range, false);
        document::lemma_same_shape(
            s.document,
            targets::selected_in(s.document, r.entity_id, range, false),
            s.next_id,
        );
    }
}

proof fn lemma_quote_events(s: EditorView, i: int, facts: DocumentFacts, now: u64)
    requires
        sound(s),
        0 <= i < s.document.len(),
        s.next_id + 2 <= u64::MAX,
    ensures
        sound(quotes::body_entered(s, s.document[i].id, facts, now).0),
        sound(quotes::quote_broken(s, s.document[i].id, facts, now)),
        sound(quotes::callout_broken(s, s.document[i].id, facts, now)),
{
    let id = s.document[i].id;
    let begun = quotes::begun(s, facts, now);
    document::lemma_index_from(s.document, id, 0);
    if let Some(k) = document::index_of(s.document, id) {
        quotes::callout_bodies_keep_documents_well_formed(s, k);
        quotes::callout_bodies_keep_documents_well_formed(begun, k);
        quotes::lemma_nearest_quote(s.document, k);
        if let Some(q) = quotes::nearest_quote(s.document, k) {
            quotes::leaving_quotes_keeps_documents_well_formed(begun, q, BlockKind::Quote);
            quotes::lemma_outermost_quote(s.document, q);
            quotes::leaving_quotes_keeps_documents_well_formed(
                begun,
                quotes::outermost_quote(s.document, q),
                BlockKind::Paragraph,
            );
        }
    }
}

proof fn lemma_structure_events(
    s: EditorView,
    i: int,
    content: blocks::Title,
    facts: DocumentFacts,
    now: u64,
)
    requires
        sound(s),
        0 <= i < s.document.len(),
    ensures
        sound(merge_requested(s, i, content, facts, now).0),
        sound(indent_requested(s, i, facts, now).0),
        sound(outdent_requested(s, i, facts, now).0),
        sound(downgrade_requested(s, i, facts, now).0),
        sound(toggle_requested(s, i, facts, now).0),
{
    if i > 0 {
        structure::merging_keeps_documents_well_formed(s.document, s.next_id, i, content);
        structure::indenting_keeps_documents_well_formed(s.document, s.next_id, i);
    }
    match document::parent_of(s.document, i) {
        Some(p) => {
            structure::outdenting_keeps_documents_well_formed(s.document, s.next_id, i, p);
        },
        None => {
            document::updating_keeps_a_document_well_formed(
                s.document,
                s.next_id,
                i,
                as_paragraph(s.document[i]),
            );
        },
    }
    structure::downgrading_keeps_documents_well_formed(s.document, s.next_id, i);
    document::updating_keeps_a_document_well_formed(
        s.document,
        s.next_id,
        i,
        toggled(s.document[i]),
    );
}

proof fn lemma_block_event(
    s: EditorView,
    i: int,
    event: BlockEvent,
    semantic: Seq<Seq<char>>,
    facts: DocumentFacts,
    now: u64,
)
    requires
        sound(s),
        0 <= i < s.document.len(),
        document::index_of(s.document, s.document[i].id) == Some(i),
        s.next_id + 2 <= u64::MAX,
        room_at(s, i, event, semantic, facts),
    ensures
        sound(block_event(s, i, event, semantic, facts, now).0),
{
    reveal(block_event);
    match event {
        BlockEvent::Changed { title_markdown } => {
            lemma_text_changed(s, i, title_markdown@);
        },
        BlockEvent::RequestNewline { trailing, source_already_mutated } => {
            reveal(room_at);
            lemma_line_entered(s, i, trailing@, source_already_mutated, facts, now);
        },
        BlockEvent::RequestEnterCalloutBody | BlockEvent::RequestQuoteBreak
        | BlockEvent::RequestCalloutBreak => {
            lemma_quote_events(s, i, facts, now);
        },
        BlockEvent::RequestMergeIntoPrev { content } => {
            lemma_structure_events(s, i, content@, facts, now);
        },
        BlockEvent::RequestPasteMultiline { paste } => {
            reveal(room_at);
            paste::pasting_keeps_documents_well_formed(s, i, paste, semantic, facts, now);
        },
        BlockEvent::RequestIndent | BlockEvent::RequestOutdent
        | BlockEvent::RequestDowngradeNestedListItemToChildParagraph
        | BlockEvent::ToggleTaskChecked => {
            lemma_structure_events(s, i, Seq::empty(), facts, now);
        },
        BlockEvent::RequestOpenLink { prompt_target, open_target } => {},
        BlockEvent::RequestJumpToFootnoteDefinition { definition } => {
            lemma_jumped(s, definition, None);
        },
        BlockEvent::RequestJumpToFootnoteBackref { reference } => {
            lemma_jumped(s, None, reference);
        },
        BlockEvent::RequestFocusPrev { entry_offset } => {
            lemma_moved(s, i, true, entry_offset);
        },
        BlockEvent::RequestFocusNext { entry_offset } => {
            lemma_document_left(s, i);
            lemma_moved(s, i, false, entry_offset);
        },
        BlockEvent::RequestBlockUp => {
            lemma_moved(s, i, true, 0);
        },
        BlockEvent::RequestBlockDown => {
            lemma_moved(s, i, false, 0);
        },
        BlockEvent::RequestDelete { parent_title_markdown } => {
            lemma_delete_requested(s, i, parent_title_markdown@, facts, now);
        },
        BlockEvent::RequestFocus => {
            lemma_clicked(s, s.document[i].id);
        },
        _ => {
            reveal(room_at);
            lemma_table_request(
                s,
                s.document[i].id,
                s.document[i].kind is Table,
                event,
                facts,
                now,
            );
        },
    }
}

proof fn lemma_moved_in_table(
    s: EditorView,
    i: int,
    position: TableCellPosition,
    delta: int,
    offset: usize,
)
    requires
        sound(s),
        0 <= i < s.document.len(),
    ensures
        sound(cells::moved_horizontally(s, i, position, delta)),
        sound(cells::moved_vertically(s, i, position, delta, offset)),
{
    let across = cells::moved_horizontally(s, i, position, delta);
    let along = cells::moved_vertically(s, i, position, delta, offset);
    document::lemma_same_shape(s.document, across.document, s.next_id);
    document::lemma_same_shape(s.document, along.document, s.next_id);
}

proof fn lemma_left_by_newline(s: EditorView, i: int, facts: DocumentFacts, now: u64)
    requires
        sound(s),
        0 <= i < s.document.len(),
        s.next_id < u64::MAX,
    ensures
        sound(cells::left_by_newline(s, i, facts, now)),
{
    let plain = tables::with_selection(tables::with_preview(s, None), None);
    assert(document::same_shape(s.document, plain.document));
    document::lemma_same_shape(s.document, plain.document, s.next_id);
    lemma_synced(plain, s.document[i].id);
    let synced = quotes::begun(tables::synced_record(plain, s.document[i].id), facts, now);
    quotes::lemma_after_fits(synced.document, i);
    quotes::a_new_block_keeps_documents_well_formed(
        synced,
        document::subtree_end(synced.document, i),
        synced.document[i].depth,
        BlockKind::Paragraph,
        blocks::plain_title(Seq::empty()),
    );
}

proof fn lemma_cell_event(
    s: EditorView,
    cell: u64,
    i: int,
    position: TableCellPosition,
    event: BlockEvent,
    facts: DocumentFacts,
    now: u64,
)
    requires
        sound(s),
        0 <= i < s.document.len(),
        s.next_id < u64::MAX,
    ensures
        sound(cell_event(s, cell, i, position, event, facts, now).0),
{
    reveal(cell_event);
    match event {
        BlockEvent::Changed { title_markdown } => {
            lemma_synced(s, s.document[i].id);
        },
        BlockEvent::RequestJumpToFootnoteDefinition { definition } => {
            lemma_jumped(s, definition, None);
        },
        BlockEvent::RequestJumpToFootnoteBackref { reference } => {
            lemma_jumped(s, None, reference);
        },
        BlockEvent::RequestTableCellMoveHorizontal { delta } => {
            lemma_moved_in_table(s, i, position, delta as int, 0);
        },
        BlockEvent::RequestTableCellMoveVertical { delta, entry_offset } => {
            lemma_moved_in_table(s, i, position, delta as int, entry_offset);
        },
        BlockEvent::RequestNewline { trailing, source_already_mutated } => {
            lemma_left_by_newline(s, i, facts, now);
        },
        BlockEvent::RequestFocus => {
            lemma_clicked(s, cell);
        },
        BlockEvent::RequestFocusPrev { entry_offset } => {
            lemma_moved_in_table(s, i, position, -1, entry_offset);
        },
        BlockEvent::RequestFocusNext { entry_offset } => {
            lemma_moved_in_table(s, i, position, 1, entry_offset);
        },
        BlockEvent::RequestBlockUp => {
            lemma_moved(s, i, true, 0);
        },
        BlockEvent::RequestBlockDown => {
            lemma_moved(s, i, false, 0);
        },
        _ => {},
    }
}

proof fn lemma_glance(s: EditorView, id: u64, event: BlockEvent)
    requires
        sound(s),
    ensures
        sound(stray_glance(s, id, event)),
{
    reveal(stray_glance);
    match event {
        BlockEvent::RequestJumpToFootnoteDefinition { definition } => {
            lemma_jumped(s, definition, None);
        },
        BlockEvent::RequestJumpToFootnoteBackref { reference } => {
            lemma_jumped(s, None, reference);
        },
        BlockEvent::RequestFocusNext { entry_offset } => {
            if s.document.len() > 0 {
                lemma_moved(s, 0, false, entry_offset);
            }
        },
        BlockEvent::RequestBlockDown => {
            if s.document.len() > 0 {
                lemma_moved(s, 0, false, 0);
            }
        },
        BlockEvent::RequestFocus => {
            lemma_clicked(s, id);
        },
        _ => {},
    }
}

proof fn lemma_stray_event(
    s: EditorView,
    id: u64,
    event: BlockEvent,
    facts: DocumentFacts,
    now: u64,
)
    requires
        sound(s),
        s.next_id < u64::MAX,
        room_for_request(s, id, event, facts),
    ensures
        sound(stray_event(s, id, event, facts, now).0),
{
    reveal(stray_event);
    document::lemma_later_ids(s.document, s.next_id, (s.next_id + 1) as u64);
    if glances(event) {
        lemma_glance(s, id, event);
    } else {
        lemma_table_request(s, id, gone_table(facts, id), event, facts, now);
    }
}

/// Whatever a block or cell asks for, the document stays a forest of blocks, and each
/// block and each cell keeps an id of its own.
pub proof fn block_events_keep_documents_well_formed(
    s: EditorView,
    id: u64,
    event: BlockEvent,
    semantic: Seq<Seq<char>>,
    facts: DocumentFacts,
    now: u64,
)
    requires
        sound(s),
        room_for_event(s, id, event, semantic, facts),
    ensures
        sound(event_applied(s, id, event, semantic, facts, now).0),
{
    let ready = selection_ended(s, event);
    document::lemma_index_from(s.document, id, 0);
    match event {
        BlockEvent::PrepareUndo { capture } => {},
        BlockEvent::RequestPasteImage { image } => {
            images::pasting_an_image_keeps_documents_well_formed(s, id, image, facts, now);
        },
        _ => {
            targets::lemma_binding_from(s.document, id, 0);
            match targets::binding_of(s.document, id) {
                Some(binding) => {
                    lemma_cell_event(ready, id, binding.0, binding.1, event, facts, now);
                },
                None => {
                    match document::index_of(s.document, id) {
                        Some(i) => {
                            lemma_room_at(s, i, event, semantic, facts);
                            lemma_block_event(ready, i, event, semantic, facts, now);
                        },
                        None => {
                            lemma_stray_event(ready, id, event, facts, now);
                        },
                    }
                },
            }
        },
    }
}

proof fn lemma_last_root(nodes: Nodes, at: int)
    requires
        document::forest(nodes),
        at < nodes.len(),
    ensures
        at >= 0 ==> last_root(nodes, at) is Some,
        last_root(nodes, at) matches Some(i) ==> 0 <= i <= at && nodes[i].depth == 0,
    decreases at + 1,
{
    if at >= 0 && nodes[at].depth != 0 {
        lemma_last_root(nodes, at - 1);
    }
}

/// What an event leaves to do keeps a document well formed.
pub proof fn settling_keeps_documents_well_formed(s: EditorView, outcome: EventOutcome)
    requires
        sound(s),
        s.next_id < u64::MAX,
    ensures
        sound(settled(s, outcome)),
{
    lemma_last_root(s.document, s.document.len() - 1);
    let focused = table_edit::focused_if(s, outcome.focus_after);
    if let Some(i) = last_root(s.document, s.document.len() - 1) {
        newline::trailing_paragraphs_keep_documents_well_formed(focused, i);
    }
}

/// After a paste at the end of a document, the caret can get past the last block at
/// the root.
pub proof fn a_settled_paste_leaves_a_way_out(s: EditorView, outcome: EventOutcome)
    requires
        sound(s),
        outcome.trailing_paragraph,
        s.document.len() > 0,
    ensures
        ({
            let after = settled(s, outcome);
            let last = last_root(s.document, s.document.len() - 1)->0;
            newline::strands(s.document[last]) ==> newline::followed(after.document, last)
        }),
{
    lemma_last_root(s.document, s.document.len() - 1);
    let focused = table_edit::focused_if(s, outcome.focus_after);
    let last = last_root(s.document, s.document.len() - 1)->0;
    if newline::strands(s.document[last]) {
        newline::the_caret_is_never_stranded(focused, last);
    }
}

/// Ticking a task twice leaves it as it was.
pub proof fn toggling_twice_restores_the_task(node: NodeView)
    ensures
        toggled(toggled(node)) == node,
{
}

// ---------------------------------------------------------------------------
// Running code
// ---------------------------------------------------------------------------

fn nothing_left() -> (r: EventOutcome)
    ensures
        r == quiet(),
{
    EventOutcome {
        normalize_quotes: false,
        focus_after: None,
        trailing_paragraph: false,
        finalize: false,
        rebuild_images: false,
        replace_selection: false,
    }
}

fn edit_made(normalize_quotes: bool, rebuild_images: bool) -> (r: EventOutcome)
    ensures
        r == edited(normalize_quotes, rebuild_images),
{
    EventOutcome {
        normalize_quotes,
        focus_after: None,
        trailing_paragraph: false,
        finalize: true,
        rebuild_images,
        replace_selection: false,
    }
}

fn node_to_paragraph(nodes: &mut Vec<DocBlock>, i: usize)
    requires
        i < old(nodes)@.len(),
    ensures
        editor::node_views(final(nodes)@) == editor::node_views(old(nodes)@).update(
            i as int,
            as_paragraph(editor::node_views(old(nodes)@)[i as int]),
        ),
{
    let ghost before = editor::node_views(nodes@);
    nodes[i].kind = BlockKind::Paragraph;
    assert(editor::node_views(nodes@) =~= before.update(
        i as int,
        as_paragraph(before[i as int]),
    ));
}

fn place_caret(nodes: &mut Vec<DocBlock>, i: usize)
    requires
        i < old(nodes)@.len(),
    ensures
        editor::node_views(final(nodes)@) == editor::node_views(old(nodes)@).update(
            i as int,
            structure::with_caret(
                editor::node_views(old(nodes)@)[i as int],
                BlockSelection::Visible { start: 0, end: 0 },
            ),
        ),
{
    let ghost before = editor::node_views(nodes@);
    nodes[i].selection = BlockSelection::Visible { start: 0, end: 0 };
    nodes[i].selection_reversed = false;
    nodes[i].marked = false;
    assert(editor::node_views(nodes@) =~= before.update(
        i as int,
        structure::with_caret(
            before[i as int],
            BlockSelection::Visible { start: 0, end: 0 },
        ),
    ));
}

fn toggle_node(nodes: &mut Vec<DocBlock>, i: usize)
    requires
        i < old(nodes)@.len(),
    ensures
        editor::node_views(final(nodes)@) == editor::node_views(old(nodes)@).update(
            i as int,
            toggled(editor::node_views(old(nodes)@)[i as int]),
        ),
{
    let ghost before = editor::node_views(nodes@);
    let task: Option<bool> = match &nodes[i].kind {
        BlockKind::TaskListItem { checked } => Some(*checked),
        _ => None,
    };
    if let Some(checked) = task {
        nodes[i].kind = BlockKind::TaskListItem { checked: !checked };
    }
    assert(editor::node_views(nodes@) =~= before.update(i as int, toggled(before[i as int])));
}

impl Editor {
    /// Whether an event ends a selection that spans blocks.
    pub fn block_event_clears_cross_block_selection(event: &BlockEvent) -> (r: bool)
        ensures
            r == clears_cross_block(*event),
    {
        match event {
            BlockEvent::Changed { .. } => true,
            BlockEvent::RequestNewline { .. } => true,
            BlockEvent::RequestEnterCalloutBody => true,
            BlockEvent::RequestQuoteBreak => true,
            BlockEvent::RequestCalloutBreak => true,
            BlockEvent::RequestMergeIntoPrev { .. } => true,
            BlockEvent::RequestPasteMultiline { .. } => true,
            BlockEvent::RequestPasteImage { .. } => true,
            BlockEvent::RequestIndent => true,
            BlockEvent::RequestOutdent => true,
            BlockEvent::RequestDowngradeNestedListItemToChildParagraph => true,
            BlockEvent::ToggleTaskChecked => true,
            BlockEvent::RequestAppendTableColumn => true,
            BlockEvent::RequestAppendTableRow => true,
            BlockEvent::RequestDelete { .. } => true,
            _ => false,
        }
    }

    fn end_selection(&mut self, event: &BlockEvent)
        ensures
            final(self)@ == selection_ended(old(self)@, *event),
    {
        if Self::block_event_clears_cross_block_selection(event) {
            self.selection.select_all_cycle = None;
            self.clear_cross_block_selection();
        }
    }

    /// Puts an empty paragraph before the block at `i`, if it asked to count its
    /// list from one, and gives the block's place then.
    pub fn insert_list_group_separator_before(&mut self, i: usize) -> (r: usize)
        requires
            i < old(self)@.document.len(),
            old(self)@.next_id < u64::MAX,
        ensures
            final(self)@ == numbering_restarted(old(self)@, i as int).0,
            r == numbering_restarted(old(self)@, i as int).1,
            r < final(self)@.document.len(),
    {
        if !self.document[i].restarts_numbering {
            return i;
        }
        let ghost before = self@.document;
        self.document[i].restarts_numbering = false;
        let n: usize = self.document.len();
        assert(self@.document =~= before.update(
            i as int,
            NodeView { restarts_numbering: false, ..before[i as int] },
        ));
        let depth: usize = self.document[i].depth;
        let _separator: u64 = self.insert_paragraph(i, depth);
        i + 1
    }

    fn take_reparse_request(&mut self, i: usize) -> (r: bool)
        requires
            i < old(self)@.document.len(),
        ensures
            final(self)@ == reparse_taken(old(self)@, i as int).0,
            r == reparse_taken(old(self)@, i as int).1,
    {
        let ghost before = self@.document;
        let requested = self.document[i].quote_reparse_requested && !self.document[i].marked;
        let needed = requested || self.rendered_quote_text_requires_reparse(i);
        self.document[i].quote_reparse_requested = false;
        assert(self@.document =~= before.update(
            i as int,
            NodeView { quote_reparse_requested: false, ..before[i as int] },
        ));
        needed
    }

    /// Takes in that the text of the block at `i` changed.
    pub fn block_text_changed(&mut self, i: usize, title_markdown: &str) -> (r: EventOutcome)
        requires
            i < old(self)@.document.len(),
            document::well_formed(old(self)@.document, old(self)@.next_id),
            old(self)@.next_id + 2 <= u64::MAX,
        ensures
            final(self)@ == text_changed(old(self)@, i as int, title_markdown@).0,
            r == text_changed(old(self)@, i as int, title_markdown@).1,
    {
        proof {
            reveal(text_changed);
            lemma_numbering(self@, i as int);
        }
        let j: usize = self.insert_list_group_separator_before(i);
        proof {
            lemma_callout_made(self@, j as int, title_markdown@);
        }
        let focus_after = self.materialize_empty_callout_shortcut(j, title_markdown);
        let normalize_quotes = self.take_reparse_request(j);
        self.show_edit();
        EventOutcome {
            normalize_quotes,
            focus_after,
            trailing_paragraph: false,
            finalize: true,
            rebuild_images: !normalize_quotes,
            replace_selection: false,
        }
    }

    /// Splits the block at `i` behind the caret, or makes what was typed in it a
    /// heading, a separator or part of a table.
    pub fn enter_line(
        &mut self,
        i: usize,
        trailing: &InlineTextTree,
        source_already_mutated: bool,
        facts: &DocumentFacts,
        now: u64,
    ) -> (r: EventOutcome)
        requires
            i < old(self)@.document.len(),
            document::index_of(old(self)@.document, old(self)@.document[i as int].id) == Some(
                i as int,
            ),
            document::well_formed(old(self)@.document, old(self)@.next_id),
            history::facts_ok(*facts),
            old(self)@.next_id < u64::MAX,
            newline::room_for_row(old(self)@, i as int),
        ensures
            final(self)@ == line_entered(
                old(self)@,
                i as int,
                trailing@,
                source_already_mutated,
                *facts,
                now,
            ).0,
            r == line_entered(
                old(self)@,
                i as int,
                trailing@,
                source_already_mutated,
                *facts,
                now,
            ).1,
    {
        reveal(line_entered);
        let id: u64 = self.document[i].id;
        let in_quote = self.document[i].kind.is_quote_container();
        if self.try_form_setext_heading_on_newline(id, facts, now) {
            return edit_made(false, true);
        }
        if self.try_form_or_extend_table_on_newline(id, facts, now) {
            return edit_made(false, true);
        }
        proof {
            lemma_row_refused(old(self)@, i as int, *facts, now);
        }
        if !source_already_mutated {
            self.begin_capture(facts, now);
        }
        self.split_line(i, trailing.duplicate());
        edit_made(in_quote, true)
    }

    /// Merges the block at `i` into the one before it.
    pub fn merge_into_previous(
        &mut self,
        i: usize,
        content: &InlineTextTree,
        facts: &DocumentFacts,
        now: u64,
    ) -> (r: EventOutcome)
        requires
            i < old(self)@.document.len(),
            document::forest(old(self)@.document),
            history::facts_ok(*facts),
        ensures
            final(self)@ == merge_requested(old(self)@, i as int, content@, *facts, now).0,
            r == merge_requested(old(self)@, i as int, content@, *facts, now).1,
    {
        if i == 0 {
            return nothing_left();
        }
        let related = self.block_is_quote_structure_related(i)
            || self.block_is_quote_structure_related(i - 1);
        self.begin_capture(facts, now);
        let previous: u64 = self.document[i - 1].id;
        merge_node(&mut self.document, i, content);
        self.focus_block(previous);
        self.mark_dirty();
        edit_made(related, !related)
    }

    /// Nests the block at `i` under the one before it, if their kinds allow it.
    pub fn indent_block(&mut self, i: usize, facts: &DocumentFacts, now: u64) -> (r: EventOutcome)
        requires
            i < old(self)@.document.len(),
            document::forest(old(self)@.document),
            history::facts_ok(*facts),
        ensures
            final(self)@ == indent_requested(old(self)@, i as int, *facts, now).0,
            r == indent_requested(old(self)@, i as int, *facts, now).1,
    {
        if i == 0 || !self.document[i].kind.can_nest_under(&self.document[i - 1].kind) {
            return nothing_left();
        }
        if let Some(p) = find_parent(&self.document, i) {
            if p == i - 1 {
                return nothing_left();
            }
        }
        proof {
            lemma_not_under_previous(self@.document, i as int);
        }
        self.begin_capture(facts, now);
        let id: u64 = self.document[i].id;
        indent_node(&mut self.document, i);
        self.focus_block(id);
        self.mark_dirty();
        edit_made(false, false)
    }

    /// Moves the block at `i` behind the one that it lies under. At the root it
    /// becomes a paragraph.
    pub fn outdent_block(&mut self, i: usize, facts: &DocumentFacts, now: u64) -> (r: EventOutcome)
        requires
            i < old(self)@.document.len(),
            document::forest(old(self)@.document),
            history::facts_ok(*facts),
        ensures
            final(self)@ == outdent_requested(old(self)@, i as int, *facts, now).0,
            r == outdent_requested(old(self)@, i as int, *facts, now).1,
    {
        self.begin_capture(facts, now);
        let id: u64 = self.document[i].id;
        match find_parent(&self.document, i) {
            Some(p) => outdent_node(&mut self.document, i, p),
            None => node_to_paragraph(&mut self.document, i),
        }
        self.focus_block(id);
        self.mark_dirty();
        edit_made(false, false)
    }

    /// Makes a nested list item a paragraph.
    pub fn downgrade_list_item(&mut self, i: usize, facts: &DocumentFacts, now: u64) -> (r:
        EventOutcome)
        requires
            i < old(self)@.document.len(),
            history::facts_ok(*facts),
        ensures
            final(self)@ == downgrade_requested(old(self)@, i as int, *facts, now).0,
            r == downgrade_requested(old(self)@, i as int, *facts, now).1,
    {
        let nested = match find_parent(&self.document, i) {
            Some(p) => self.document[i].kind.is_list_item() && self.document[p].kind.is_list_item(),
            None => false,
        };
        if !nested {
            return nothing_left();
        }
        self.begin_capture(facts, now);
        let id: u64 = self.document[i].id;
        downgrade_node(&mut self.document, i);
        self.focus_block(id);
        self.mark_dirty();
        edit_made(false, true)
    }

    /// Ticks or clears the box of a task.
    pub fn toggle_task(&mut self, i: usize, facts: &DocumentFacts, now: u64) -> (r: EventOutcome)
        requires
            i < old(self)@.document.len(),
            history::facts_ok(*facts),
        ensures
            final(self)@ == toggle_requested(old(self)@, i as int, *facts, now).0,
            r == toggle_requested(old(self)@, i as int, *facts, now).1,
    {
        self.begin_capture(facts, now);
        toggle_node(&mut self.document, i);
        self.show_edit();
        edit_made(false, false)
    }

    /// Has the user asked whether a link is to be opened.
    pub fn request_open_link_prompt(&mut self, prompt_target: String, open_target: String)
        ensures
            final(self)@ == link_requested(old(self)@, prompt_target@, open_target@),
    {
        self.open_link = Some(OpenLink { prompt_target, open_target });
    }

    /// Goes to the definition of a footnote. The result says whether it is there.
    pub fn jump_to_footnote_definition(&mut self, definition: Option<u64>) -> (r: bool)
        ensures
            final(self)@ == definition_shown(old(self)@, definition),
            r == (definition matches Some(id) && targets::focusable(old(self)@.document, id)),
    {
        match definition {
            Some(id) => {
                if !is_focusable(&self.document, id) {
                    return false;
                }
                self.focus_block_range(id, 0, 0);
                true
            },
            None => false,
        }
    }

    /// Goes to the first reference to a footnote. The result says whether it is
    /// there.
    pub fn jump_to_footnote_backref(&mut self, reference: Option<FootnoteReference>) -> (r: bool)
        ensures
            final(self)@ == reference_shown(old(self)@, reference),
            r == (reference matches Some(to) && targets::focusable(
                old(self)@.document,
                to.entity_id,
            )),
    {
        match reference {
            Some(to) => {
                if !is_focusable(&self.document, to.entity_id) {
                    return false;
                }
                self.focus_block_range(to.entity_id, to.start, to.end);
                true
            },
            None => false,
        }
    }

    /// Takes the caret out of the block at `i` downwards.
    pub fn focus_next_block(&mut self, i: usize, entry_offset: usize)
        requires
            i < old(self)@.document.len(),
            old(self)@.next_id < u64::MAX,
        ensures
            final(self)@ == next_requested(old(self)@, i as int, entry_offset),
    {
        let n: usize = self.document.len();
        if i + 1 < n {
            self.leave_block(i, false, entry_offset);
            return;
        }
        if !self.document[i].kind.is_multiline_text_block() {
            return;
        }
        self.ensure_trailing_paragraph_after_structural(i);
        let grown: usize = self.document.len();
        if i < grown && i + 1 < grown {
            let id: u64 = self.document[i + 1].id;
            place_caret(&mut self.document, i + 1);
            self.focus_block(id);
        }
    }

    fn keep_only_block(&mut self, i: usize)
        requires
            i < old(self)@.document.len(),
        ensures
            final(self)@ == only_block_kept(old(self)@, i as int),
    {
        let id: u64 = self.document[i].id;
        if matches!(self.document[i].kind, BlockKind::Paragraph) {
            place_caret(&mut self.document, i);
        } else {
            node_to_paragraph(&mut self.document, i);
        }
        self.focus_block(id);
    }

    /// Deletes the block at `i`; those under it take its place. The only block of
    /// a document stays. `parent_title_markdown` is the Markdown of the title of
    /// the block that it lies under.
    pub fn delete_block(
        &mut self,
        i: usize,
        parent_title_markdown: &str,
        facts: &DocumentFacts,
        now: u64,
    ) -> (r: EventOutcome)
        requires
            i < old(self)@.document.len(),
            history::facts_ok(*facts),
        ensures
            final(self)@ == delete_requested(
                old(self)@,
                i as int,
                parent_title_markdown@,
                *facts,
                now,
            ).0,
            r == delete_requested(
                old(self)@,
                i as int,
                parent_title_markdown@,
                *facts,
                now,
            ).1,
    {
        reveal(delete_requested);
        let id: u64 = self.document[i].id;
        if self.downgrade_empty_callout_body_to_quote(id, parent_title_markdown, facts, now) {
            return edit_made(false, true);
        }
        let n: usize = self.document.len();
        if n == 1 {
            self.keep_only_block(i);
            return nothing_left();
        }
        let related = self.block_is_quote_structure_related(i);
        self.begin_capture(facts, now);
        let neighbor: u64 = if i > 0 {
            self.document[i - 1].id
        } else {
            self.document[i + 1].id
        };
        delete_node(&mut self.document, i);
        self.focus_block(neighbor);
        self.mark_dirty();
        edit_made(related, false)
    }

    /// Takes in an event of a table's rows and columns.
    fn on_table_request(
        &mut self,
        id: u64,
        is_table: bool,
        event: &BlockEvent,
        facts: &DocumentFacts,
        now: u64,
    ) -> (r: EventOutcome)
        requires
            history::facts_ok(*facts),
            room_for_request(old(self)@, id, *event, *facts),
        ensures
            final(self)@ == table_request(old(self)@, id, is_table, *event, *facts, now).0,
            r == table_request(old(self)@, id, is_table, *event, *facts, now).1,
    {
        reveal(table_request);
        match event {
            BlockEvent::RequestAppendTableColumn => {
                if !is_table {
                    return nothing_left();
                }
                self.begin_capture(facts, now);
                let _started = self.append_table_column(id, facts, now);
                edit_made(false, true)
            },
            BlockEvent::RequestAppendTableRow => {
                if !is_table {
                    return nothing_left();
                }
                self.begin_capture(facts, now);
                let _started = self.append_table_row(id, facts, now);
                edit_made(false, true)
            },
            BlockEvent::RequestTableAxisPreview { kind, index, hovered } => {
                if is_table {
                    self.preview_table_axis(id, *kind, *index, *hovered);
                }
                nothing_left()
            },
            BlockEvent::RequestSelectTableAxis { kind, index } => {
                if is_table {
                    self.select_table_axis(id, *kind, *index);
                }
                nothing_left()
            },
            BlockEvent::RequestOpenTableAxisMenu { kind, index, position } => {
                if is_table {
                    self.open_table_axis_menu(id, *kind, *index, *position);
                }
                nothing_left()
            },
            BlockEvent::RequestStartTableColumnResize {
                left_column,
                pointer_x,
                table_width,
                start_fractions,
            } => {
                if is_table {
                    self.start_table_column_resize(
                        id,
                        *left_column,
                        *pointer_x,
                        *table_width,
                        duplicate_values(start_fractions),
                    );
                }
                nothing_left()
            },
            BlockEvent::RequestUpdateTableColumnResize { fractions } => {
                self.update_table_column_resize(duplicate_values(fractions));
                nothing_left()
            },
            BlockEvent::RequestEndTableColumnResize => {
                let writes = match &self.axis.resize_drag {
                    Some(drag) => self.has_table(drag.table_block_id, facts),
                    None => false,
                };
                let started = self.end_table_column_resize(facts, now);
                EventOutcome {
                    normalize_quotes: false,
                    focus_after: None,
                    trailing_paragraph: false,
                    finalize: started,
                    rebuild_images: writes,
                    replace_selection: false,
                }
            },
            _ => nothing_left(),
        }
    }

    fn on_block_event_at(
        &mut self,
        i: usize,
        event: &BlockEvent,
        semantic: &[String],
        facts: &DocumentFacts,
        now: u64,
    ) -> (r: EventOutcome)
        requires
            i < old(self)@.document.len(),
            document::index_of(old(self)@.document, old(self)@.document[i as int].id) == Some(
                i as int,
            ),
            document::well_formed(old(self)@.document, old(self)@.next_id),
            history::facts_ok(*facts),
            old(self)@.next_id + 2 <= u64::MAX,
            room_at(old(self)@, i as int, *event, text::texts(semantic@), *facts),
        ensures
            final(self)@ == block_event(
                old(self)@,
                i as int,
                *event,
                text::texts(semantic@),
                *facts,
                now,
            ).0,
            r == block_event(
                old(self)@,
                i as int,
                *event,
                text::texts(semantic@),
                *facts,
                now,
            ).1,
    {
        reveal(block_event);
        reveal(room_at);
        let id: u64 = self.document[i].id;
        match event {
            BlockEvent::Changed { title_markdown } => self.block_text_changed(
                i,
                title_markdown.as_str(),
            ),
            BlockEvent::RequestNewline { trailing, source_already_mutated } => self.enter_line(
                i,
                trailing,
                *source_already_mutated,
                facts,
                now,
            ),
            BlockEvent::RequestEnterCalloutBody => {
                let is_callout = matches!(self.document[i].kind, BlockKind::Callout(_));
                let started = self.request_enter_callout_body(id, facts, now);
                EventOutcome {
                    normalize_quotes: false,
                    focus_after: None,
                    trailing_paragraph: false,
                    finalize: started,
                    rebuild_images: is_callout,
                    replace_selection: false,
                }
            },
            BlockEvent::RequestQuoteBreak => {
                if self.request_quote_break(id, facts, now) {
                    edit_made(true, false)
                } else {
                    nothing_left()
                }
            },
            BlockEvent::RequestCalloutBreak => {
                if self.request_callout_break(id, facts, now) {
                    edit_made(false, true)
                } else {
                    nothing_left()
                }
            },
            BlockEvent::RequestMergeIntoPrev { content } => self.merge_into_previous(
                i,
                content,
                facts,
                now,
            ),
            BlockEvent::RequestPasteMultiline { paste } => {
                let outcome = self.paste_multiline(i, paste, semantic, facts, now);
                if outcome.pasted {
                    EventOutcome {
                        normalize_quotes: outcome.normalize_quotes,
                        focus_after: None,
                        trailing_paragraph: outcome.trailing_paragraph,
                        finalize: true,
                        rebuild_images: true,
                        replace_selection: false,
                    }
                } else {
                    nothing_left()
                }
            },
            BlockEvent::RequestIndent => self.indent_block(i, facts, now),
            BlockEvent::RequestOutdent => self.outdent_block(i, facts, now),
            BlockEvent::RequestDowngradeNestedListItemToChildParagraph => self.downgrade_list_item(
                i,
                facts,
                now,
            ),
            BlockEvent::ToggleTaskChecked => self.toggle_task(i, facts, now),
            BlockEvent::RequestOpenLink { prompt_target, open_target } => {
                self.request_open_link_prompt(prompt_target.clone(), open_target.clone());
                nothing_left()
            },
            BlockEvent::RequestJumpToFootnoteDefinition { definition } => {
                let _found = self.jump_to_footnote_definition(*definition);
                nothing_left()
            },
            BlockEvent::RequestJumpToFootnoteBackref { reference } => {
                let _found = self.jump_to_footnote_backref(*reference);
                nothing_left()
            },
            BlockEvent::RequestFocusPrev { entry_offset } => {
                self.leave_block(i, true, *entry_offset);
                nothing_left()
            },
            BlockEvent::RequestFocusNext { entry_offset } => {
                self.focus_next_block(i, *entry_offset);
                nothing_left()
            },
            BlockEvent::RequestBlockUp => {
                self.leave_block(i, true, 0);
                nothing_left()
            },
            BlockEvent::RequestBlockDown => {
                self.leave_block(i, false, 0);
                nothing_left()
            },
            BlockEvent::RequestDelete { parent_title_markdown } => self.delete_block(
                i,
                parent_title_markdown.as_str(),
                facts,
                now,
            ),
            BlockEvent::RequestFocus => {
                self.request_focus(id);
                nothing_left()
            },
            _ => {
                let is_table = matches!(self.document[i].kind, BlockKind::Table);
                self.on_table_request(id, is_table, event, facts, now)
            },
        }
    }

    /// Takes in an event of a cell of the table at `i`.
    pub fn on_table_cell_event(
        &mut self,
        cell: u64,
        i: usize,
        position: TableCellPosition,
        event: &BlockEvent,
        facts: &DocumentFacts,
        now: u64,
    ) -> (r: EventOutcome)
        requires
            i < old(self)@.document.len(),
            history::facts_ok(*facts),
            old(self)@.next_id < u64::MAX,
        ensures
            final(self)@ == cell_event(
                old(self)@,
                cell,
                i as int,
                position,
                *event,
                *facts,
                now,
            ).0,
            r == cell_event(old(self)@, cell, i as int, position, *event, *facts, now).1,
    {
        reveal(cell_event);
        let id: u64 = self.document[i].id;
        match event {
            BlockEvent::Changed { .. } => {
                self.sync_table_record_from_runtime(id);
                self.show_edit();
                edit_made(false, true)
            },
            BlockEvent::RequestOpenLink { prompt_target, open_target } => {
                self.request_open_link_prompt(prompt_target.clone(), open_target.clone());
                nothing_left()
            },
            BlockEvent::RequestJumpToFootnoteDefinition { definition } => {
                let _found = self.jump_to_footnote_definition(*definition);
                nothing_left()
            },
            BlockEvent::RequestJumpToFootnoteBackref { reference } => {
                let _found = self.jump_to_footnote_backref(*reference);
                nothing_left()
            },
            BlockEvent::RequestTableCellMoveHorizontal { delta } => {
                self.focus_table_cell_horizontal_neighbor(i, position, *delta);
                nothing_left()
            },
            BlockEvent::RequestTableCellMoveVertical { delta, entry_offset } => {
                self.focus_table_cell_vertical_neighbor(i, position, *delta, *entry_offset);
                nothing_left()
            },
            BlockEvent::RequestNewline { .. } => {
                self.leave_table_by_newline(i, facts, now);
                edit_made(false, true)
            },
            BlockEvent::RequestFocus => {
                self.request_focus(cell);
                nothing_left()
            },
            BlockEvent::RequestFocusPrev { entry_offset } => {
                self.focus_table_cell_vertical_neighbor(i, position, -1, *entry_offset);
                nothing_left()
            },
            BlockEvent::RequestFocusNext { entry_offset } => {
                self.focus_table_cell_vertical_neighbor(i, position, 1, *entry_offset);
                nothing_left()
            },
            BlockEvent::RequestBlockUp => {
                self.leave_block(i, true, 0);
                nothing_left()
            },
            BlockEvent::RequestBlockDown => {
                self.leave_block(i, false, 0);
                nothing_left()
            },
            _ => nothing_left(),
        }
    }

    fn stray_text_changed(&mut self, id: u64, title_markdown: &str, facts: &DocumentFacts) -> (r:
        EventOutcome)
        requires
            old(self)@.next_id < u64::MAX,
        ensures
            final(self)@ == stray_change(old(self)@, id, title_markdown@, *facts).0,
            r == stray_change(old(self)@, id, title_markdown@, *facts).1,
    {
        let (typed, normalize_quotes) = self.read_gone_text(id, title_markdown, facts);
        let focus_after = if typed {
            let body: u64 = self.next_id;
            self.next_id = body + 1;
            Some(body)
        } else {
            None
        };
        self.show_edit();
        EventOutcome {
            normalize_quotes,
            focus_after,
            trailing_paragraph: false,
            finalize: true,
            rebuild_images: !normalize_quotes,
            replace_selection: false,
        }
    }

    fn enter_stray_body(&mut self, id: u64, facts: &DocumentFacts, now: u64) -> (r: EventOutcome)
        requires
            history::facts_ok(*facts),
            old(self)@.next_id < u64::MAX,
        ensures
            final(self)@ == stray_body(old(self)@, id, *facts, now).0,
            r == stray_body(old(self)@, id, *facts, now).1,
    {
        let at: Option<usize> = find_gone(facts, id);
        let child: Option<u64> = match at {
            Some(k) => facts.gone[k].first_child,
            None => None,
        };
        let is_callout = match at {
            Some(k) => matches!(facts.gone[k].block.kind, BlockKind::Callout(_)),
            None => false,
        };
        if child.is_none() {
            self.begin_capture(facts, now);
        }
        if !is_callout {
            return nothing_left();
        }
        match child {
            Some(body) => {
                self.focus_block(body);
                EventOutcome {
                    normalize_quotes: false,
                    focus_after: None,
                    trailing_paragraph: false,
                    finalize: false,
                    rebuild_images: true,
                    replace_selection: false,
                }
            },
            None => {
                let body: u64 = self.next_id;
                self.next_id = body + 1;
                self.focus_block(body);
                self.mark_dirty();
                edit_made(false, true)
            },
        }
    }

    fn glance_around(&mut self, id: u64, event: &BlockEvent)
        ensures
            final(self)@ == stray_glance(old(self)@, id, *event),
    {
        reveal(stray_glance);
        match event {
            BlockEvent::RequestOpenLink { prompt_target, open_target } => {
                self.request_open_link_prompt(prompt_target.clone(), open_target.clone());
            },
            BlockEvent::RequestJumpToFootnoteDefinition { definition } => {
                let _found = self.jump_to_footnote_definition(*definition);
            },
            BlockEvent::RequestJumpToFootnoteBackref { reference } => {
                let _found = self.jump_to_footnote_backref(*reference);
            },
            BlockEvent::RequestFocusNext { entry_offset } => {
                if self.document.len() > 0 {
                    self.leave_block(0, false, *entry_offset);
                }
            },
            BlockEvent::RequestBlockDown => {
                if self.document.len() > 0 {
                    self.leave_block(0, false, 0);
                }
            },
            BlockEvent::RequestFocus => {
                self.request_focus(id);
            },
            _ => {},
        }
    }

    /// Takes in an event of a block that is no longer in the document.
    fn on_stray_event(
        &mut self,
        id: u64,
        event: &BlockEvent,
        facts: &DocumentFacts,
        now: u64,
    ) -> (r: EventOutcome)
        requires
            history::facts_ok(*facts),
            old(self)@.next_id < u64::MAX,
            room_for_request(old(self)@, id, *event, *facts),
        ensures
            final(self)@ == stray_event(old(self)@, id, *event, *facts, now).0,
            r == stray_event(old(self)@, id, *event, *facts, now).1,
    {
        reveal(stray_event);
        match event {
            BlockEvent::Changed { title_markdown } => self.stray_text_changed(
                id,
                title_markdown.as_str(),
                facts,
            ),
            BlockEvent::RequestEnterCalloutBody => self.enter_stray_body(id, facts, now),
            BlockEvent::RequestPasteMultiline { paste } => {
                if paste.lines.len() == 0 {
                    return nothing_left();
                }
                let related = self.gone_block_is_quote_structure_related(id, facts);
                self.begin_capture(facts, now);
                if paste.split_physical_lines && paste.lines.len() == 1 {
                    self.focus_block(id);
                    self.mark_dirty();
                    edit_made(related, true)
                } else {
                    nothing_left()
                }
            },
            BlockEvent::ToggleTaskChecked => {
                self.begin_capture(facts, now);
                self.show_edit();
                edit_made(false, false)
            },
            BlockEvent::RequestDelete { .. } => {
                let childless = match find_gone(facts, id) {
                    Some(k) => facts.gone[k].first_child.is_none(),
                    None => true,
                };
                if self.document.len() == 1 && childless {
                    self.focus_block(id);
                } else {
                    self.begin_capture(facts, now);
                }
                nothing_left()
            },
            BlockEvent::RequestOpenLink { .. }
            | BlockEvent::RequestJumpToFootnoteDefinition { .. }
            | BlockEvent::RequestJumpToFootnoteBackref { .. }
            | BlockEvent::RequestFocusNext { .. }
            | BlockEvent::RequestBlockDown
            | BlockEvent::RequestFocus => {
                self.glance_around(id, event);
                nothing_left()
            },
            _ => {
                let is_table = match find_gone(facts, id) {
                    Some(k) => matches!(facts.gone[k].block.kind, BlockKind::Table),
                    None => false,
                };
                self.on_table_request(id, is_table, event, facts, now)
            },
        }
    }

    /// Takes in an event of a block or cell and says what is left to do.
    /// `semantic` holds the HTML texts of a paste that are more than raw text;
    /// `facts` describes the document before the event.
    pub fn on_block_event(
        &mut self,
        entity_id: u64,
        event: &BlockEvent,
        semantic: &[String],
        facts: &DocumentFacts,
        now: u64,
    ) -> (r: EventOutcome)
        requires
            document::well_formed(old(self)@.document, old(self)@.next_id),
            history::facts_ok(*facts),
            room_for_event(old(self)@, entity_id, *event, text::texts(semantic@), *facts),
        ensures
            final(self)@ == event_applied(
                old(self)@,
                entity_id,
                *event,
                text::texts(semantic@),
                *facts,
                now,
            ).0,
            r == event_applied(
                old(self)@,
                entity_id,
                *event,
                text::texts(semantic@),
                *facts,
                now,
            ).1,
    {
        if let BlockEvent::PrepareUndo { capture } = event {
            self.prepare_undo_capture_from_stable_snapshot(*capture, now);
            return nothing_left();
        }
        if let BlockEvent::RequestPasteImage { image } = event {
            if self.handle_paste_image_request(entity_id, image, facts, now) {
                return edit_made(false, true);
            }
            return EventOutcome {
                normalize_quotes: false,
                focus_after: None,
                trailing_paragraph: false,
                finalize: false,
                rebuild_images: false,
                replace_selection: true,
            };
        }
        self.end_selection(event);
        proof {
            if let Some(i) = document::index_of(old(self)@.document, entity_id) {
                if targets::binding_of(old(self)@.document, entity_id) is None {
                    document::lemma_index_from(old(self)@.document, entity_id, 0);
                    lemma_room_at(old(self)@, i, *event, text::texts(semantic@), *facts);
                }
            }
        }
        let binding: Option<(usize, TableCellPosition)> = find_binding(&self.document, entity_id);
        if let Some((i, position)) = binding {
            return self.on_table_cell_event(entity_id, i, position, event, facts, now);
        }
        match find_index(&self.document, entity_id) {
            Some(i) => self.on_block_event_at(i, event, semantic, facts, now),
            None => self.on_stray_event(entity_id, event, facts, now),
        }
    }

    /// Does what an event left to do, but for reading quotes anew before it and
    /// closing the undo capture behind it.
    pub fn settle_block_event(&mut self, outcome: &EventOutcome)
        requires
            old(self)@.next_id < u64::MAX,
        ensures
            final(self)@ == settled(old(self)@, *outcome),
    {
        if let Some(id) = outcome.focus_after {
            self.focus_block(id);
        }
        if !outcome.trailing_paragraph {
            return;
        }
        let n: usize = self.document.len();
        let mut at: usize = n;
        let ghost nodes = self@.document;
        while at > 0
            invariant
                at <= n,
                n == self.document@.len(),
                nodes == self@.document,
                last_root(nodes, n - 1) == last_root(nodes, at - 1),
                self@ == table_edit::focused_if(old(self)@, outcome.focus_after),
                self@.next_id < u64::MAX,
                outcome.trailing_paragraph,
            decreases at,
        {
            at = at - 1;
            assert(nodes[at as int].depth == self.document@[at as int].depth);
            if self.document[at].depth == 0 {
                self.ensure_trailing_paragraph_after_structural(at);
                return;
            }
        }
    }
}

} // verus!
