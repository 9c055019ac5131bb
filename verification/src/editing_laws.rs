//! What the keys that part, join, nest and delete blocks do to the texts of a document.
//!
//! Each law speaks of an event of the block at `i`, and `end` is where that block and
//! those under it end. No text is lost, and the other blocks stay.

use crate::blocks::{BlockKind, InlineTextTree, Title};
use crate::document;
use crate::editor::{EditorView, NodeView, Nodes};
use crate::event_laws;
use crate::events;
use crate::events::BlockEvent;
use crate::grammar;
use crate::history::DocumentFacts;
use crate::kinds;
use crate::newline;
use crate::paste_laws;
use crate::paste_laws::ends_at;
use crate::reading_laws;
use crate::structure;
use crate::table_syntax;
use crate::text;
use vstd::prelude::*;

verus! {

/// Whether a block is another one again, but for its depth.
pub open spec fn same_words(a: NodeView, b: NodeView) -> bool {
    a.id == b.id && a.kind == b.kind && a.title == b.title && a.display_text == b.display_text
}

/// Whether a text starts with a letter, does not end in white space and holds neither a
/// pipe nor a backslash, so that it is no table row and underlines nothing.
pub open spec fn running_text(s: Seq<char>) -> bool {
    &&& reading_laws::plain_text(s)
    &&& forall|k: int| 0 <= k < s.len() ==> s[k] != '|' && s[k] != '\\'
}

// ---------------------------------------------------------------------------
// Events of a block
// ---------------------------------------------------------------------------

proof fn lemma_newline_event(
    s: EditorView,
    i: int,
    trailing: InlineTextTree,
    mutated: bool,
    semantic: Seq<Seq<char>>,
    facts: DocumentFacts,
    now: u64,
)
    requires
        document::well_formed(s.document, s.next_id),
        0 <= i < s.document.len(),
    ensures
        ({
            let event = BlockEvent::RequestNewline { trailing, source_already_mutated: mutated };
            let ready = events::selection_ended(s, event);
            events::event_applied(s, s.document[i].id, event, semantic, facts, now)
                == events::line_entered(ready, i, trailing@, mutated, facts, now)
        }),
{
    let event = BlockEvent::RequestNewline { trailing, source_already_mutated: mutated };
    event_laws::events_of_blocks_are_theirs(s, i, event, semantic, facts, now);
    reveal(events::block_event);
}

proof fn lemma_merge_event(
    s: EditorView,
    i: int,
    content: InlineTextTree,
    semantic: Seq<Seq<char>>,
    facts: DocumentFacts,
    now: u64,
)
    requires
        document::well_formed(s.document, s.next_id),
        0 <= i < s.document.len(),
    ensures
        ({
            let event = BlockEvent::RequestMergeIntoPrev { content };
            let ready = events::selection_ended(s, event);
            events::event_applied(s, s.document[i].id, event, semantic, facts, now)
                == events::merge_requested(ready, i, content@, facts, now)
        }),
{
    let event = BlockEvent::RequestMergeIntoPrev { content };
    event_laws::events_of_blocks_are_theirs(s, i, event, semantic, facts, now);
    reveal(events::block_event);
}

proof fn lemma_indent_event(
    s: EditorView,
    i: int,
    semantic: Seq<Seq<char>>,
    facts: DocumentFacts,
    now: u64,
)
    requires
        document::well_formed(s.document, s.next_id),
        0 <= i < s.document.len(),
    ensures
        ({
            let event = BlockEvent::RequestIndent;
            let ready = events::selection_ended(s, event);
            events::event_applied(s, s.document[i].id, event, semantic, facts, now)
                == events::indent_requested(ready, i, facts, now)
        }),
{
    let event = BlockEvent::RequestIndent;
    event_laws::events_of_blocks_are_theirs(s, i, event, semantic, facts, now);
    reveal(events::block_event);
}

proof fn lemma_outdent_event(
    s: EditorView,
    i: int,
    semantic: Seq<Seq<char>>,
    facts: DocumentFacts,
    now: u64,
)
    requires
        document::well_formed(s.document, s.next_id),
        0 <= i < s.document.len(),
    ensures
        ({
            let event = BlockEvent::RequestOutdent;
            let ready = events::selection_ended(s, event);
            events::event_applied(s, s.document[i].id, event, semantic, facts, now)
                == events::outdent_requested(ready, i, facts, now)
        }),
{
    let event = BlockEvent::RequestOutdent;
    event_laws::events_of_blocks_are_theirs(s, i, event, semantic, facts, now);
    reveal(events::block_event);
}

proof fn lemma_delete_event(
    s: EditorView,
    i: int,
    parent_title_markdown: String,
    semantic: Seq<Seq<char>>,
    facts: DocumentFacts,
    now: u64,
)
    requires
        document::well_formed(s.document, s.next_id),
        0 <= i < s.document.len(),
    ensures
        ({
            let event = BlockEvent::RequestDelete { parent_title_markdown };
            let ready = events::selection_ended(s, event);
            events::event_applied(s, s.document[i].id, event, semantic, facts, now)
                == events::delete_requested(ready, i, parent_title_markdown@, facts, now)
        }),
{
    let event = BlockEvent::RequestDelete { parent_title_markdown };
    event_laws::events_of_blocks_are_theirs(s, i, event, semantic, facts, now);
    reveal(events::block_event);
}

proof fn lemma_downgrade_event(
    s: EditorView,
    i: int,
    semantic: Seq<Seq<char>>,
    facts: DocumentFacts,
    now: u64,
)
    requires
        document::well_formed(s.document, s.next_id),
        0 <= i < s.document.len(),
    ensures
        ({
            let event = BlockEvent::RequestDowngradeNestedListItemToChildParagraph;
            let ready = events::selection_ended(s, event);
            events::event_applied(s, s.document[i].id, event, semantic, facts, now)
                == events::downgrade_requested(ready, i, facts, now)
        }),
{
    let event = BlockEvent::RequestDowngradeNestedListItemToChildParagraph;
    event_laws::events_of_blocks_are_theirs(s, i, event, semantic, facts, now);
    reveal(events::block_event);
}

// ---------------------------------------------------------------------------
// Enter
// ---------------------------------------------------------------------------

proof fn lemma_one_cell_from(s: Seq<char>, at: int)
    requires
        0 <= at <= s.len(),
        forall|k: int| 0 <= k < s.len() ==> s[k] != '|' && s[k] != '\\',
    ensures
        table_syntax::cell_end(s, at) == s.len(),
    decreases s.len() - at,
{
    if at < s.len() {
        lemma_one_cell_from(s, at + 1);
    }
}

proof fn lemma_no_row(s: Seq<char>)
    requires
        running_text(s),
    ensures
        !table_syntax::row_candidate(s),
{
    reading_laws::lemma_plain(s);
    reveal(table_syntax::row_cells);
    assert(table_syntax::row_body(s) == s);
    lemma_one_cell_from(s, 0);
    assert(table_syntax::row_cells(s).len() == 1);
}

proof fn lemma_enter_splits(
    s: EditorView,
    i: int,
    trailing: Title,
    mutated: bool,
    facts: DocumentFacts,
    now: u64,
)
    requires
        document::well_formed(s.document, s.next_id),
        0 <= i < s.document.len(),
        s.document[i].kind is Paragraph ==> s.document[i].display_text.len() == 0
            || running_text(s.document[i].display_text),
    ensures
        ({
            let after = events::line_entered(s, i, trailing, mutated, facts, now).0;
            let split = newline::line_split(s, i, trailing);
            &&& after.document == split.document
            &&& after.next_id == split.next_id
            &&& after.focus == split.focus
            &&& after.window == split.window
            &&& events::line_entered(s, i, trailing, mutated, facts, now).1.finalize
        }),
{
    reveal(events::line_entered);
    let line = s.document[i].display_text;
    crate::cell_laws::blocks_are_not_taken_for_cells(s.document, s.next_id, i);
    if s.document[i].kind is Paragraph {
        if line.len() == 0 {
            reveal(grammar::setext_underline);
            reveal(table_syntax::table_candidate);
            reveal(table_syntax::row_cells);
            assert(line =~= Seq::empty());
            assert(text::trimmed_end(line).len() == 0);
            assert(line.skip(0) =~= line);
            assert(grammar::setext_underline(line) is None);
            let body = table_syntax::row_body(line);
            assert(body.len() == 0);
            assert(table_syntax::row_cells(line).len() == 1);
        } else {
            reading_laws::lemma_plain(line);
            lemma_no_row(line);
        }
    }
}

proof fn lemma_split(s: EditorView, i: int, end: int, trailing: Title)
    requires
        ends_at(s.document, i, end),
    ensures
        ({
            let done = newline::line_split(s, i, trailing);
            let after = done.document;
            &&& after.len() == s.document.len() + 1
            &&& after[end].title == trailing
            &&& after[end].depth == s.document[i].depth
            &&& after[end].id == s.next_id
            &&& after[end].kind == kinds::newline_sibling(s.document[i].kind)
            &&& forall|k: int| 0 <= k < end ==> #[trigger] after[k] == s.document[k]
            &&& forall|k: int|
                end <= k < s.document.len() ==> #[trigger] after[k + 1] == s.document[k]
            &&& done.focus.pending_focus == Some(s.next_id)
            &&& done.window.document_dirty
        }),
{
    paste_laws::lemma_ends_at(s.document, i, end);
}

/// Enter opens a block right behind the block and those under it, at its level, with the
/// text that stood behind the caret: a list item below a list item, a task that is not
/// done below a task, a quote below a quote, and a paragraph below anything else. It gets
/// the focus, and no other block changes.
pub proof fn enter_opens_a_block_with_the_text_behind_the_caret(
    s: EditorView,
    i: int,
    end: int,
    trailing: InlineTextTree,
    mutated: bool,
    semantic: Seq<Seq<char>>,
    facts: DocumentFacts,
    now: u64,
)
    requires
        document::well_formed(s.document, s.next_id),
        ends_at(s.document, i, end),
        s.document[i].kind is Paragraph ==> s.document[i].display_text.len() == 0
            || running_text(s.document[i].display_text),
    ensures
        ({
            let event = BlockEvent::RequestNewline { trailing, source_already_mutated: mutated };
            let done = events::event_applied(s, s.document[i].id, event, semantic, facts, now);
            let after = done.0.document;
            &&& after.len() == s.document.len() + 1
            &&& after[end].title == trailing@
            &&& after[end].depth == s.document[i].depth
            &&& after[end].id == s.next_id
            &&& after[end].kind == (match s.document[i].kind {
                BlockKind::BulletedListItem => BlockKind::<Seq<char>>::BulletedListItem,
                BlockKind::NumberedListItem => BlockKind::NumberedListItem,
                BlockKind::TaskListItem { checked } => BlockKind::TaskListItem { checked: false },
                BlockKind::Quote => BlockKind::Quote,
                _ => BlockKind::Paragraph,
            })
            &&& forall|k: int| 0 <= k < end ==> #[trigger] after[k] == s.document[k]
            &&& forall|k: int|
                end <= k < s.document.len() ==> #[trigger] after[k + 1] == s.document[k]
            &&& done.0.focus.pending_focus == Some(s.next_id)
            &&& done.0.window.document_dirty
            &&& done.1.finalize
        }),
{
    lemma_newline_event(s, i, trailing, mutated, semantic, facts, now);
    let event = BlockEvent::RequestNewline { trailing, source_already_mutated: mutated };
    let ready = events::selection_ended(s, event);
    lemma_enter_splits(ready, i, trailing@, mutated, facts, now);
    lemma_split(ready, i, end, trailing@);
}

// ---------------------------------------------------------------------------
// Joining
// ---------------------------------------------------------------------------

proof fn lemma_merged(nodes: Nodes, i: int, end: int, content: Title)
    requires
        0 < i,
        ends_at(nodes, i, end),
        end == i + 1 || nodes[i].depth <= nodes[i - 1].depth,
    ensures
        ({
            let after = structure::merged(nodes, i, content);
            &&& after.len() == nodes.len() - 1
            &&& after[i - 1].title == nodes[i - 1].title + content
            &&& after[i - 1].kind == nodes[i - 1].kind
            &&& after[i - 1].id == nodes[i - 1].id
            &&& after[i - 1].depth == nodes[i - 1].depth
            &&& forall|k: int| 0 <= k < i - 1 ==> #[trigger] after[k] == nodes[k]
            &&& forall|k: int| i <= k < after.len() ==> same_words(nodes[k + 1], #[trigger] after[k])
        }),
{
    let after = structure::merged(nodes, i, content);
    paste_laws::lemma_ends_at(nodes, i, end);
    let rest = document::removed(nodes, i);
    let kids = structure::rehung(structure::under(nodes, i), nodes[i].depth, nodes[i - 1].depth);
    document::lemma_run_end(rest, rest[i - 1].depth, i);
    let at = document::subtree_end(rest, i - 1);
    let changed = rest.update(i - 1, structure::extended(nodes[i - 1], content));
    assert(after == document::inserted(changed, at, kids));
    assert(rest[i - 1] == nodes[i - 1]);
    if end > i + 1 {
        if i < rest.len() {
            assert(rest[i] == nodes[end]);
        }
        assert(at == i);
    } else {
        assert(kids.len() == 0);
        assert(after =~= changed);
    }
    assert forall|k: int| i <= k < after.len() implies same_words(
        nodes[k + 1],
        #[trigger] after[k],
    ) by {
        if end == i + 1 {
            assert(after[k] == rest[k]);
            assert(rest[k] == nodes[k + 1]);
        } else if k < end - 1 {
            assert(after[k] == kids[k - i]);
            assert(structure::under(nodes, i)[k - i] == nodes[k + 1]);
        } else {
            assert(after[k] == changed[k - kids.len()]);
            assert(changed[k - kids.len()] == rest[k - kids.len()]);
        }
    }
}

/// Merging a block into the one before it puts its text behind that block's text and
/// takes the block out. All other blocks stay in their order with their texts, and the
/// block before gets the focus.
pub proof fn merging_joins_two_texts(
    s: EditorView,
    i: int,
    end: int,
    content: InlineTextTree,
    semantic: Seq<Seq<char>>,
    facts: DocumentFacts,
    now: u64,
)
    requires
        document::well_formed(s.document, s.next_id),
        0 < i,
        ends_at(s.document, i, end),
        end == i + 1 || s.document[i].depth <= s.document[i - 1].depth,
    ensures
        ({
            let event = BlockEvent::RequestMergeIntoPrev { content };
            let done = events::event_applied(s, s.document[i].id, event, semantic, facts, now);
            let after = done.0.document;
            &&& after.len() == s.document.len() - 1
            &&& after[i - 1].title == s.document[i - 1].title + content@
            &&& after[i - 1].kind == s.document[i - 1].kind
            &&& after[i - 1].id == s.document[i - 1].id
            &&& after[i - 1].depth == s.document[i - 1].depth
            &&& forall|k: int| 0 <= k < i - 1 ==> #[trigger] after[k] == s.document[k]
            &&& forall|k: int| i <= k < after.len() ==> same_words(s.document[k + 1], #[trigger] after[k])
            &&& done.0.focus.pending_focus == Some(s.document[i - 1].id)
            &&& done.0.window.document_dirty
            &&& done.1.finalize
        }),
{
    lemma_merge_event(s, i, content, semantic, facts, now);
    lemma_merged(s.document, i, end, content@);
}

// ---------------------------------------------------------------------------
// Nesting
// ---------------------------------------------------------------------------

/// Indenting nests a paragraph or list item, with those under it, under the list item
/// before it: it gets one level below that block, what lies under it moves along, and
/// nothing else changes.
pub proof fn indenting_nests_under_the_item_before(
    s: EditorView,
    i: int,
    end: int,
    semantic: Seq<Seq<char>>,
    facts: DocumentFacts,
    now: u64,
)
    requires
        document::well_formed(s.document, s.next_id),
        0 < i,
        ends_at(s.document, i, end),
        s.document[i].kind is BulletedListItem || s.document[i].kind is NumberedListItem
            || s.document[i].kind is TaskListItem || s.document[i].kind is Paragraph,
        s.document[i - 1].kind is BulletedListItem || s.document[i - 1].kind is NumberedListItem
            || s.document[i - 1].kind is TaskListItem,
        s.document[i].depth <= s.document[i - 1].depth,
    ensures
        ({
            let done = events::event_applied(
                s,
                s.document[i].id,
                BlockEvent::RequestIndent,
                semantic,
                facts,
                now,
            );
            let after = done.0.document;
            let levels = s.document[i - 1].depth + 1 - s.document[i].depth;
            &&& after.len() == s.document.len()
            &&& after[i].depth == s.document[i - 1].depth + 1
            &&& forall|k: int|
                i <= k < end ==> same_words(s.document[k], #[trigger] after[k]) && after[k].depth
                    == s.document[k].depth + levels
            &&& forall|k: int|
                0 <= k < s.document.len() && !(i <= k < end) ==> #[trigger] after[k]
                    == s.document[k]
            &&& done.0.focus.pending_focus == Some(s.document[i].id)
            &&& done.0.window.document_dirty
            &&& done.1.finalize
        }),
{
    lemma_indent_event(s, i, semantic, facts, now);
    let nodes = s.document;
    document::lemma_above(nodes, nodes[i].depth, i);
    paste_laws::lemma_ends_at(nodes, i, end);
    let levels = (nodes[i - 1].depth + 1 - nodes[i].depth) as nat;
    let run = structure::subtree(nodes, i);
    let moved = document::deepened(run, levels);
    let rest = document::removed(nodes, i);
    let after = structure::indented(nodes, i);
    assert forall|k: int| 0 <= k < nodes.len() implies #[trigger] after[k] == (if i <= k < end {
        NodeView { depth: (nodes[k].depth + levels) as nat, ..nodes[k] }
    } else {
        nodes[k]
    }) by {
        if k < i {
            assert(rest[k] == nodes[k]);
        } else if k < end {
            assert(after[k] == moved[k - i]);
            assert(run[k - i] == nodes[k]);
        } else {
            assert(after[k] == rest[k - (end - i)]);
        }
    }
}

/// What cannot be nested stays where it is: the first block, a block that lies under the
/// one before it already, one behind anything but a list item, and one that is neither a
/// list item nor a paragraph.
pub proof fn what_cannot_be_nested_stays(
    s: EditorView,
    i: int,
    semantic: Seq<Seq<char>>,
    facts: DocumentFacts,
    now: u64,
)
    requires
        document::well_formed(s.document, s.next_id),
        0 <= i < s.document.len(),
        i == 0 || s.document[i - 1].depth < s.document[i].depth || !(
        s.document[i - 1].kind is BulletedListItem || s.document[i - 1].kind is NumberedListItem
            || s.document[i - 1].kind is TaskListItem) || !(s.document[i].kind is BulletedListItem
            || s.document[i].kind is NumberedListItem || s.document[i].kind is TaskListItem
            || s.document[i].kind is Paragraph),
    ensures
        ({
            let done = events::event_applied(
                s,
                s.document[i].id,
                BlockEvent::RequestIndent,
                semantic,
                facts,
                now,
            );
            done.0.document == s.document && done.0.history == s.history && !done.1.finalize
        }),
{
    lemma_indent_event(s, i, semantic, facts, now);
}

/// Whether the block at `i` lies right under the one at `p`.
pub open spec fn lies_under(nodes: Nodes, i: int, p: int) -> bool {
    &&& 0 <= p < i < nodes.len()
    &&& nodes[p].depth < nodes[i].depth
    &&& forall|k: int| p < k < i ==> (#[trigger] nodes[k]).depth >= nodes[i].depth
}

proof fn lemma_parent(nodes: Nodes, i: int, p: int, at: int)
    requires
        lies_under(nodes, i, p),
        p < at <= i,
    ensures
        document::above(nodes, nodes[i].depth, at) == Some(p),
    decreases at - p,
{
    if at - 1 > p {
        assert(nodes[at - 1].depth >= nodes[i].depth);
        lemma_parent(nodes, i, p, at - 1);
    }
}

proof fn lemma_outdented(nodes: Nodes, i: int, end: int, p: int, parent_end: int)
    requires
        lies_under(nodes, i, p),
        ends_at(nodes, i, end),
        ends_at(nodes, p, parent_end),
    ensures
        ({
            let after = structure::outdented(nodes, i, p);
            let size = end - i;
            let place = parent_end - size;
            &&& i <= place
            &&& after.len() == nodes.len()
            &&& forall|k: int| 0 <= k < i ==> #[trigger] after[k] == nodes[k]
            &&& forall|k: int| i <= k < place ==> #[trigger] after[k] == nodes[k + size]
            &&& forall|k: int|
                place <= k < parent_end ==> same_words(nodes[k - place + i], #[trigger] after[k])
                    && after[k].depth == nodes[k - place + i].depth - 1
            &&& forall|k: int| parent_end <= k < nodes.len() ==> #[trigger] after[k] == nodes[k]
        }),
{
    paste_laws::lemma_ends_at(nodes, i, end);
    let size = end - i;
    let place = parent_end - size;
    if parent_end < end {
        if parent_end > i {
            assert(nodes[parent_end].depth > nodes[i].depth);
        } else {
            assert(nodes[i].depth > nodes[p].depth);
        }
    }
    let rest = document::removed(nodes, i);
    assert(ends_at(rest, p, place)) by {
        assert forall|k: int| p < k < place implies (#[trigger] rest[k]).depth > rest[p].depth by {
            if k < i {
                assert(rest[k] == nodes[k]);
            } else {
                assert(rest[k] == nodes[k + size]);
            }
        }
        if place < rest.len() {
            assert(rest[place] == nodes[parent_end]);
        }
    }
    paste_laws::lemma_ends_at(rest, p, place);
    let run = structure::subtree(nodes, i);
    let moved = document::raised(run, 1);
    let after = structure::outdented(nodes, i, p);
    assert(after == document::inserted(rest, place, moved));
    assert forall|k: int| 0 <= k < i implies #[trigger] after[k] == nodes[k] by {
        assert(rest[k] == nodes[k]);
    }
    assert forall|k: int| i <= k < place implies #[trigger] after[k] == nodes[k + size] by {
        assert(after[k] == rest[k]);
    }
    assert forall|k: int| place <= k < parent_end implies same_words(
        nodes[k - place + i],
        #[trigger] after[k],
    ) && after[k].depth == nodes[k - place + i].depth - 1 by {
        assert(after[k] == moved[k - place]);
        assert(run[k - place] == nodes[k - place + i]);
    }
    assert forall|k: int| parent_end <= k < nodes.len() implies #[trigger] after[k] == nodes[k] by {
        assert(after[k] == rest[k - size]);
    }
}

/// Outdenting moves a block, with those under it, behind the block it lay under and one
/// level up. What followed it under that block stays there, and no text changes.
pub proof fn outdenting_moves_behind_the_block_above(
    s: EditorView,
    i: int,
    end: int,
    p: int,
    parent_end: int,
    semantic: Seq<Seq<char>>,
    facts: DocumentFacts,
    now: u64,
)
    requires
        document::well_formed(s.document, s.next_id),
        lies_under(s.document, i, p),
        ends_at(s.document, i, end),
        ends_at(s.document, p, parent_end),
    ensures
        ({
            let done = events::event_applied(
                s,
                s.document[i].id,
                BlockEvent::RequestOutdent,
                semantic,
                facts,
                now,
            );
            let after = done.0.document;
            let size = end - i;
            let place = parent_end - size;
            &&& i <= place
            &&& after.len() == s.document.len()
            &&& forall|k: int| 0 <= k < i ==> #[trigger] after[k] == s.document[k]
            &&& forall|k: int| i <= k < place ==> #[trigger] after[k] == s.document[k + size]
            &&& forall|k: int|
                place <= k < parent_end ==> same_words(s.document[k - place + i], #[trigger] after[k])
                    && after[k].depth == s.document[k - place + i].depth - 1
            &&& forall|k: int|
                parent_end <= k < s.document.len() ==> #[trigger] after[k] == s.document[k]
            &&& done.0.focus.pending_focus == Some(s.document[i].id)
            &&& done.0.window.document_dirty
            &&& done.1.finalize
        }),
{
    lemma_outdent_event(s, i, semantic, facts, now);
    lemma_parent(s.document, i, p, i);
    lemma_outdented(s.document, i, end, p, parent_end);
}

/// Outdenting a block at the root makes it a paragraph with the same text.
pub proof fn outdenting_at_the_root_gives_a_paragraph(
    s: EditorView,
    i: int,
    semantic: Seq<Seq<char>>,
    facts: DocumentFacts,
    now: u64,
)
    requires
        document::well_formed(s.document, s.next_id),
        0 <= i < s.document.len(),
        s.document[i].depth == 0,
    ensures
        ({
            let done = events::event_applied(
                s,
                s.document[i].id,
                BlockEvent::RequestOutdent,
                semantic,
                facts,
                now,
            );
            let after = done.0.document;
            &&& after.len() == s.document.len()
            &&& after[i].kind is Paragraph
            &&& after[i].title == s.document[i].title
            &&& after[i].display_text == s.document[i].display_text
            &&& after[i].id == s.document[i].id
            &&& after[i].depth == 0
            &&& forall|k: int|
                0 <= k < s.document.len() && k != i ==> #[trigger] after[k] == s.document[k]
        }),
{
    lemma_outdent_event(s, i, semantic, facts, now);
    document::lemma_above(s.document, s.document[i].depth, i);
}

// ---------------------------------------------------------------------------
// Deleting
// ---------------------------------------------------------------------------

/// Deleting a block at the root takes out that block alone: those under it take its
/// place one level up, and all other blocks stay. The block before it gets the focus, or
/// the one behind it where it was the first.
pub proof fn deleting_takes_out_one_block(
    s: EditorView,
    i: int,
    end: int,
    parent_title_markdown: String,
    semantic: Seq<Seq<char>>,
    facts: DocumentFacts,
    now: u64,
)
    requires
        document::well_formed(s.document, s.next_id),
        ends_at(s.document, i, end),
        s.document.len() > 1,
        s.document[i].depth == 0,
    ensures
        ({
            let done = events::event_applied(
                s,
                s.document[i].id,
                BlockEvent::RequestDelete { parent_title_markdown },
                semantic,
                facts,
                now,
            );
            let after = done.0.document;
            &&& after.len() == s.document.len() - 1
            &&& forall|k: int| 0 <= k < i ==> #[trigger] after[k] == s.document[k]
            &&& forall|k: int|
                i <= k < end - 1 ==> same_words(s.document[k + 1], #[trigger] after[k])
                    && after[k].depth == s.document[k + 1].depth - 1
            &&& forall|k: int|
                end - 1 <= k < after.len() ==> #[trigger] after[k] == s.document[k + 1]
            &&& done.0.focus.pending_focus == Some(
                if i > 0 {
                    s.document[i - 1].id
                } else {
                    s.document[1].id
                },
            )
            &&& done.0.window.document_dirty
            &&& done.1.finalize
        }),
{
    lemma_delete_event(s, i, parent_title_markdown, semantic, facts, now);
    reveal(events::delete_requested);
    let nodes = s.document;
    crate::cell_laws::blocks_are_not_taken_for_cells(nodes, s.next_id, i);
    document::lemma_above(nodes, nodes[i].depth, i);
    paste_laws::lemma_ends_at(nodes, i, end);
    let kids = structure::under(nodes, i);
    let moved = document::raised(kids, 1);
    let rest = document::removed(nodes, i);
    let after = structure::deleted(nodes, i);
    assert(after == document::inserted(rest, i, moved));
    assert forall|k: int| 0 <= k < i implies #[trigger] after[k] == nodes[k] by {
        assert(rest[k] == nodes[k]);
    }
    assert forall|k: int| i <= k < end - 1 implies same_words(nodes[k + 1], #[trigger] after[k])
        && after[k].depth == nodes[k + 1].depth - 1 by {
        assert(after[k] == moved[k - i]);
        assert(kids[k - i] == nodes[k + 1]);
    }
    assert forall|k: int| end - 1 <= k < after.len() implies #[trigger] after[k] == nodes[k
        + 1] by {
        assert(after[k] == rest[k - moved.len()]);
    }
}

/// The only block of a document cannot be deleted: it stays, as a paragraph.
pub proof fn the_only_block_stays(
    s: EditorView,
    parent_title_markdown: String,
    semantic: Seq<Seq<char>>,
    facts: DocumentFacts,
    now: u64,
)
    requires
        document::well_formed(s.document, s.next_id),
        s.document.len() == 1,
    ensures
        ({
            let done = events::event_applied(
                s,
                s.document[0].id,
                BlockEvent::RequestDelete { parent_title_markdown },
                semantic,
                facts,
                now,
            );
            let after = done.0.document;
            &&& after.len() == 1
            &&& after[0].kind is Paragraph
            &&& after[0].id == s.document[0].id
            &&& after[0].title == s.document[0].title
            &&& done.0.history == s.history
            &&& done.0.focus.pending_focus == Some(s.document[0].id)
        }),
{
    lemma_delete_event(s, 0, parent_title_markdown, semantic, facts, now);
    reveal(events::delete_requested);
    crate::cell_laws::blocks_are_not_taken_for_cells(s.document, s.next_id, 0);
    document::lemma_above(s.document, s.document[0].depth, 0);
}

/// A list item under another one that is made a paragraph keeps its place and its text;
/// those under it follow it at its level.
pub proof fn a_nested_item_becomes_a_paragraph(
    s: EditorView,
    i: int,
    end: int,
    p: int,
    semantic: Seq<Seq<char>>,
    facts: DocumentFacts,
    now: u64,
)
    requires
        document::well_formed(s.document, s.next_id),
        ends_at(s.document, i, end),
        lies_under(s.document, i, p),
        s.document[i].kind is BulletedListItem || s.document[i].kind is NumberedListItem
            || s.document[i].kind is TaskListItem,
        s.document[p].kind is BulletedListItem || s.document[p].kind is NumberedListItem
            || s.document[p].kind is TaskListItem,
    ensures
        ({
            let done = events::event_applied(
                s,
                s.document[i].id,
                BlockEvent::RequestDowngradeNestedListItemToChildParagraph,
                semantic,
                facts,
                now,
            );
            let after = done.0.document;
            &&& after.len() == s.document.len()
            &&& after[i] == (NodeView { kind: BlockKind::Paragraph, ..s.document[i] })
            &&& forall|k: int|
                i < k < end ==> same_words(s.document[k], #[trigger] after[k]) && after[k].depth
                    == s.document[k].depth - 1
            &&& forall|k: int|
                0 <= k < s.document.len() && !(i <= k < end) ==> #[trigger] after[k]
                    == s.document[k]
            &&& done.0.window.document_dirty
            &&& done.1.finalize
        }),
{
    lemma_downgrade_event(s, i, semantic, facts, now);
    let nodes = s.document;
    lemma_parent(nodes, i, p, i);
    paste_laws::lemma_ends_at(nodes, i, end);
    let kids = structure::under(nodes, i);
    let head = NodeView { kind: BlockKind::Paragraph, ..nodes[i] };
    let run = seq![head] + document::raised(kids, 1);
    let rest = document::removed(nodes, i);
    let after = structure::downgraded(nodes, i);
    assert(after == document::inserted(rest, i, run));
    assert(after[i] == run[0]);
    assert forall|k: int| i < k < end implies same_words(nodes[k], #[trigger] after[k])
        && after[k].depth == nodes[k].depth - 1 by {
        assert(after[k] == run[k - i]);
        assert(kids[k - i - 1] == nodes[k]);
    }
    assert forall|k: int| 0 <= k < nodes.len() && !(i <= k < end) implies #[trigger] after[k]
        == nodes[k] by {
        if k < i {
            assert(rest[k] == nodes[k]);
        } else {
            assert(after[k] == rest[k - run.len()]);
        }
    }
}

} // verus!
