//! What pasting keeps: all text around the caret, and every pasted line.

use crate::blocks;
use crate::blocks::{BlockView, InlineFragment, Title};
use crate::document;
use crate::editor::{EditorView, NodeView, Nodes};
use crate::history::DocumentFacts;
use crate::import_model;
use crate::kinds;
use crate::paste;
use crate::paste::MultilinePaste;
use crate::quotes;
use crate::restore;
use crate::tables;
use crate::text;
use vstd::prelude::*;

verus! {

/// Whether the block at `i` and those under it are the ones before `at`.
pub open spec fn ends_at(nodes: Nodes, i: int, at: int) -> bool {
    &&& 0 <= i < at <= nodes.len()
    &&& forall|k: int| i < k < at ==> (#[trigger] nodes[k]).depth > nodes[i].depth
    &&& at < nodes.len() ==> nodes[at].depth <= nodes[i].depth
}

/// Whether a text starts with a letter or is empty, so that it has no marks at its start.
pub open spec fn no_marks(s: Seq<char>) -> bool {
    s.len() == 0 || ('a' <= s[0] <= 'z') || ('A' <= s[0] <= 'Z')
}

/// A title that is a line of Markdown.
pub open spec fn line_title(line: Seq<char>) -> Title {
    seq![InlineFragment { markdown: true, text: line }]
}

/// Whether a block has the same text, kind and depth as another one.
pub open spec fn same_text_block(a: NodeView, b: NodeView) -> bool {
    a.id == b.id && a.depth == b.depth && a.kind == b.kind && a.title == b.title
        && a.display_text == b.display_text
}

/// A block and those under it end where they end.
pub proof fn lemma_ends_at(nodes: Nodes, i: int, at: int)
    requires
        ends_at(nodes, i, at),
    ensures
        document::subtree_end(nodes, i) == at,
{
    document::lemma_run_end(nodes, nodes[i].depth, i + 1);
    let end = document::subtree_end(nodes, i);
    if end < at {
        assert(nodes[end].depth > nodes[i].depth);
    }
    if at < end {
        assert(nodes[at].depth > nodes[i].depth);
    }
}

/// Making the cells anew changes no text.
pub proof fn lemma_rebuilt_texts(s: EditorView)
    ensures
        ({
            let after = tables::tables_rebuilt(s).document;
            &&& after.len() == s.document.len()
            &&& forall|k: int|
                0 <= k < s.document.len() ==> same_text_block(
                    s.document[k],
                    #[trigger] after[k],
                )
        }),
{
    tables::lemma_rebuilt_nodes(s.document, s.next_id as int);
}

proof fn lemma_leaf_nodes(items: Seq<BlockView>, id: int)
    requires
        forall|k: int| 0 <= k < items.len() ==> (#[trigger] items[k]).children.len() == 0,
    ensures
        document::blocks_size(items) == items.len(),
        document::nodes_of(items, 0, id).len() == items.len(),
        forall|k: int|
            0 <= k < items.len() ==> (#[trigger] document::nodes_of(items, 0, id)[k]).kind
                == items[k].kind && document::nodes_of(items, 0, id)[k].title == items[k].title
                && document::nodes_of(items, 0, id)[k].depth == 0,
    decreases items.len(),
{
    if items.len() > 0 {
        let before = items.drop_last();
        let last = items.last();
        lemma_leaf_nodes(before, id);
        assert(last.children.len() == 0);
        assert(document::blocks_size(last.children) == 0);
        assert(document::block_size(last) == 1);
        let at = id + document::blocks_size(before);
        assert(document::nodes_of(last.children, 1, at + 1).len() == 0);
        let head = document::fresh_node(at as u64, 0, last.kind, last.title, last.table);
        assert(document::block_nodes(last, 0, at) =~= seq![head]);
        let all = document::nodes_of(items, 0, id);
        assert forall|k: int| 0 <= k < items.len() implies (#[trigger] all[k]).kind == items[k].kind
            && all[k].title == items[k].title && all[k].depth == 0 by {
            if k < before.len() {
                assert(all[k] == document::nodes_of(before, 0, id)[k]);
                assert(before[k] == items[k]);
            }
        }
    }
}

proof fn lemma_no_shortcut(s: Seq<char>)
    requires
        no_marks(s),
    ensures
        kinds::markdown_shortcut(s) is None,
{
    reveal(kinds::markdown_shortcut);
}

/// The block pasted into, with the text that it keeps.
proof fn lemma_kept(node: NodeView, title: Title, shown: paste::ShownText)
    requires
        node.kind is Paragraph ==> no_marks(shown.visible_text@),
    ensures
        paste::ending(node, title, shown).title == title,
        paste::ending(node, title, shown).display_text == blocks::title_text(title),
        paste::ending(node, title, shown).kind == node.kind,
        paste::ending(node, title, shown).id == node.id,
        paste::ending(node, title, shown).depth == node.depth,
{
    if node.kind is Paragraph {
        lemma_no_shortcut(shown.visible_text@);
    }
}

/// One plain line goes into the text where the caret is: what stood before the caret
/// comes first, the line next, and what stood behind the caret last. No other block
/// changes, and the block keeps the focus.
pub proof fn a_pasted_line_goes_in_at_the_caret(
    s: EditorView,
    i: int,
    paste: MultilinePaste,
    semantic: Seq<Seq<char>>,
    facts: DocumentFacts,
    now: u64,
)
    requires
        0 <= i < s.document.len(),
        paste.split_physical_lines,
        paste.lines@.len() == 1,
        s.document[i].kind is Paragraph ==> no_marks(paste.shown.visible_text@),
    ensures
        ({
            let done = paste::pasted(s, i, paste, semantic, facts, now);
            let after = done.0.document;
            &&& done.1.pasted
            &&& after.len() == s.document.len()
            &&& after[i].title == paste.leading@ + line_title(paste.lines@[0]@) + paste.trailing@
            &&& after[i].kind == s.document[i].kind
            &&& forall|k: int|
                0 <= k < s.document.len() && k != i ==> #[trigger] after[k] == s.document[k]
            &&& done.0.focus.pending_focus == Some(s.document[i].id)
            &&& done.0.window.document_dirty
        }),
{
    let title = paste.leading@ + line_title(paste.lines@[0]@) + paste.trailing@;
    lemma_kept(s.document[i], title, paste.shown);
}

proof fn lemma_line_paragraphs(lines: Seq<Seq<char>>)
    ensures
        forall|k: int|
            0 <= k < paste::line_paragraphs(lines).len() ==> (
            #[trigger] paste::line_paragraphs(lines)[k]).children.len() == 0
                && paste::line_paragraphs(lines)[k].kind is Paragraph
                && paste::line_paragraphs(lines)[k].title.len() == 1,
        (forall|k: int| 0 <= k < lines.len() ==> !text::blank(#[trigger] lines[k])) ==> {
            &&& paste::line_paragraphs(lines).len() == lines.len()
            &&& forall|k: int|
                0 <= k < lines.len() ==> (#[trigger] paste::line_paragraphs(lines)[k]).title
                    == line_title(lines[k])
        },
    decreases lines.len(),
{
    if lines.len() > 0 {
        let before = lines.drop_last();
        lemma_line_paragraphs(before);
        if forall|k: int| 0 <= k < lines.len() ==> !text::blank(#[trigger] lines[k]) {
            assert forall|k: int| 0 <= k < before.len() implies !text::blank(
                #[trigger] before[k],
            ) by {
                assert(before[k] == lines[k]);
            }
            assert(!text::blank(lines[lines.len() - 1]));
            assert forall|k: int| 0 <= k < lines.len() implies (
            #[trigger] paste::line_paragraphs(lines)[k]).title == line_title(lines[k]) by {
                if k < before.len() {
                    assert(paste::line_paragraphs(lines)[k] == paste::line_paragraphs(before)[k]);
                    assert(before[k] == lines[k]);
                }
            }
        }
    }
}

/// The document with blocks without children put in behind the block at `i`, the text
/// behind the caret at the end of the last of them.
proof fn lemma_leaves_pasted(
    s: EditorView,
    i: int,
    at: int,
    paste: MultilinePaste,
    semantic: Seq<Seq<char>>,
    related: bool,
)
    requires
        ends_at(s.document, i, at),
        ({
            let items = paste::pasted_blocks(paste, semantic);
            &&& items.len() > 0
            &&& forall|k: int| 0 <= k < items.len() ==> (#[trigger] items[k]).children.len() == 0
            &&& !(items.last().kind is Table)
        }),
        paste.split_physical_lines || !paste.leading_blank,
    ensures
        ({
            let items = paste::pasted_blocks(paste, semantic);
            let n = items.len() as int;
            let done = paste::tail_pasted(s, i, paste, semantic, related);
            let after = done.0.document;
            &&& done.1.pasted
            &&& after.len() == s.document.len() + n
            &&& forall|k: int| 0 <= k < at ==> same_text_block(s.document[k], #[trigger] after[k])
            &&& forall|k: int|
                0 <= k < n ==> (#[trigger] after[at + k]).kind == items[k].kind
                    && after[at + k].depth == s.document[i].depth
            &&& forall|k: int|
                0 <= k < n - 1 ==> (#[trigger] after[at + k]).title == items[k].title
            &&& after[at + n - 1].title == items[n - 1].title + paste.trailing@
            &&& forall|k: int|
                at <= k < s.document.len() ==> same_text_block(
                    s.document[k],
                    #[trigger] after[k + n],
                )
            &&& done.0.focus.pending_focus == Some(after[at + n - 1].id)
            &&& done.0.window.document_dirty
        }),
{
    reveal(paste::tail_pasted);
    let items = paste::pasted_blocks(paste, semantic);
    let n = items.len() as int;
    lemma_ends_at(s.document, i, at);
    lemma_leaf_nodes(items, s.next_id as int);
    let before = items.drop_last();
    assert forall|k: int| 0 <= k < before.len() implies (#[trigger] before[k]).children.len()
        == 0 by {
        assert(before[k] == items[k]);
    }
    lemma_leaf_nodes(before, s.next_id as int);
    let plain = EditorView {
        document: paste::pasted_nodes(s, i, items),
        next_id: (s.next_id + document::blocks_size(items)) as u64,
        ..s
    };
    let new = document::nodes_of(items, 0, s.next_id as int);
    let deeper = document::deepened(new, s.document[i].depth);
    assert(plain.document == document::inserted(s.document, at, deeper));
    lemma_rebuilt_texts(plain);
    let added = paste::blocks_pasted(s, i, items);
    let done = paste::tail_pasted(s, i, paste, semantic, related);
    let after = done.0.document;
    assert(added.document[at + n - 1].kind == items[n - 1].kind) by {
        assert(plain.document[at + n - 1] == deeper[n - 1]);
        assert(new[n - 1].kind == items[n - 1].kind);
    }
    assert(after.len() == s.document.len() + n);
    assert forall|k: int| 0 <= k < at implies same_text_block(
        s.document[k],
        #[trigger] after[k],
    ) by {
        assert(plain.document[k] == s.document[k]);
        assert(after[k] == added.document[k]);
    }
    assert forall|k: int| 0 <= k < n implies (#[trigger] after[at + k]).kind == items[k].kind
        && after[at + k].depth == s.document[i].depth by {
        assert(plain.document[at + k] == deeper[k]);
        assert(new[k].kind == items[k].kind);
        assert(same_text_block(plain.document[at + k], added.document[at + k]));
    }
    assert forall|k: int| 0 <= k < n - 1 implies (#[trigger] after[at + k]).title
        == items[k].title by {
        assert(plain.document[at + k] == deeper[k]);
        assert(new[k].title == items[k].title);
        assert(same_text_block(plain.document[at + k], added.document[at + k]));
    }
    assert(after[at + n - 1].title == items[n - 1].title + paste.trailing@) by {
        assert(plain.document[at + n - 1] == deeper[n - 1]);
        assert(new[n - 1].title == items[n - 1].title);
    }
    assert forall|k: int| at <= k < s.document.len() implies same_text_block(
        s.document[k],
        #[trigger] after[k + n],
    ) by {
        assert(plain.document[k + n] == s.document[k]);
        assert(after[k + n] == added.document[k + n]);
    }
}

/// The document with the text that the block at `i` keeps.
proof fn lemma_titled(s: EditorView, i: int, at: int, paste: MultilinePaste)
    requires
        ends_at(s.document, i, at),
        s.document[i].kind is Paragraph ==> no_marks(paste.shown.visible_text@),
    ensures
        ({
            let titled = s.document.update(
                i,
                paste::ending(s.document[i], paste::kept_title(paste), paste.shown),
            );
            &&& ends_at(titled, i, at)
            &&& titled[i].title == paste::kept_title(paste)
            &&& titled[i].kind == s.document[i].kind
            &&& titled[i].depth == s.document[i].depth
            &&& titled[i].id == s.document[i].id
        }),
{
    lemma_kept(s.document[i], paste::kept_title(paste), paste.shown);
}

/// Plain lines become paragraphs of their own: the block pasted into keeps what stood
/// before the caret, with the first line behind it; each further line is a paragraph
/// behind that block; and what stood behind the caret ends the last of them. Blocks
/// before and behind stay, and the last paragraph gets the focus.
pub proof fn pasted_lines_become_paragraphs(
    s: EditorView,
    i: int,
    at: int,
    paste: MultilinePaste,
    semantic: Seq<Seq<char>>,
    facts: DocumentFacts,
    now: u64,
)
    requires
        ends_at(s.document, i, at),
        paste.split_physical_lines,
        paste.lines@.len() >= 2,
        forall|k: int| 1 <= k < paste.lines@.len() ==> !text::blank((#[trigger] paste.lines@[k])@),
        s.document[i].kind is Paragraph ==> no_marks(paste.shown.visible_text@),
    ensures
        ({
            let done = paste::pasted(s, i, paste, semantic, facts, now);
            let after = done.0.document;
            let n = paste.lines@.len() - 1;
            &&& done.1.pasted
            &&& after.len() == s.document.len() + n
            &&& after[i].title == paste.leading@ + line_title(paste.lines@[0]@)
            &&& after[i].kind == s.document[i].kind
            &&& forall|k: int|
                0 <= k < n ==> (#[trigger] after[at + k]).kind is Paragraph && after[at + k].depth
                    == s.document[i].depth
            &&& forall|k: int|
                0 <= k < n - 1 ==> (#[trigger] after[at + k]).title == line_title(
                    paste.lines@[k + 1]@,
                )
            &&& after[at + n - 1].title == line_title(paste.lines@[n]@) + paste.trailing@
            &&& forall|k: int|
                0 <= k < at && k != i ==> same_text_block(s.document[k], #[trigger] after[k])
            &&& forall|k: int|
                at <= k < s.document.len() ==> same_text_block(
                    s.document[k],
                    #[trigger] after[k + n],
                )
            &&& done.0.focus.pending_focus == Some(after[at + n - 1].id)
        }),
{
    let tail = paste::tail_lines(paste);
    let n = paste.lines@.len() - 1;
    assert(tail.len() == n);
    assert forall|k: int| 0 <= k < tail.len() implies !text::blank(#[trigger] tail[k]) by {
        assert(tail[k] == paste.lines@[k + 1]@);
    }
    lemma_line_paragraphs(tail);
    let items = paste::pasted_blocks(paste, semantic);
    assert(items == paste::line_paragraphs(tail));
    lemma_titled(s, i, at, paste);
    let titled = EditorView {
        document: s.document.update(
            i,
            paste::ending(s.document[i], paste::kept_title(paste), paste.shown),
        ),
        ..quotes::begun(s, facts, now)
    };
    lemma_leaves_pasted(titled, i, at, paste, semantic, quotes::quote_related(s, i));
    let done = paste::pasted(s, i, paste, semantic, facts, now);
    let after = done.0.document;
    assert forall|k: int| 0 <= k < n - 1 implies (#[trigger] after[at + k]).title == line_title(
        paste.lines@[k + 1]@,
    ) by {
        assert(tail[k] == paste.lines@[k + 1]@);
    }
    assert(tail[n - 1] == paste.lines@[n]@);
    assert(same_text_block(titled.document[i], after[i]));
    assert forall|k: int| 0 <= k < at && k != i implies same_text_block(
        s.document[k],
        #[trigger] after[k],
    ) by {
        assert(titled.document[k] == s.document[k]);
    }
    assert forall|k: int| at <= k < s.document.len() implies same_text_block(
        s.document[k],
        #[trigger] after[k + n],
    ) by {
        assert(titled.document[k] == s.document[k]);
    }
}

/// Pasted Markdown is read as a document of its own and put in behind the block pasted
/// into, which keeps what stood before the caret. What stood behind the caret, where it
/// shows any text, becomes a paragraph behind all that was pasted, and gets the focus.
pub proof fn pasted_markdown_stands_between_the_texts_around_the_caret(
    s: EditorView,
    i: int,
    at: int,
    paste: MultilinePaste,
    semantic: Seq<Seq<char>>,
    facts: DocumentFacts,
    now: u64,
)
    requires
        ends_at(s.document, i, at),
        !paste.split_physical_lines,
        !paste.leading_blank,
        !paste.trailing_blank,
        paste.lines@.len() > 0,
        s.document[i].kind is Paragraph ==> no_marks(paste.shown.visible_text@),
    ensures
        ({
            let done = paste::pasted(s, i, paste, semantic, facts, now);
            let after = done.0.document;
            let read = document::nodes_of(
                import_model::blocks_of(text::texts(paste.lines@), true, semantic),
                0,
                s.next_id as int,
            );
            let n = read.len() as int;
            &&& done.1.pasted
            &&& after.len() == s.document.len() + n + 1
            &&& after[i].title == paste.leading@
            &&& after[i].kind == s.document[i].kind
            &&& forall|k: int|
                0 <= k < n ==> (#[trigger] after[at + k]).kind == read[k].kind && after[at
                    + k].title == read[k].title && after[at + k].depth == read[k].depth
                    + s.document[i].depth
            &&& after[at + n].kind is Paragraph
            &&& after[at + n].depth == s.document[i].depth
            &&& after[at + n].title == seq![
                InlineFragment { markdown: false, text: Seq::empty() },
            ] + paste.trailing@
            &&& forall|k: int|
                0 <= k < at && k != i ==> same_text_block(s.document[k], #[trigger] after[k])
            &&& forall|k: int|
                at <= k < s.document.len() ==> same_text_block(
                    s.document[k],
                    #[trigger] after[k + n + 1],
                )
            &&& done.0.focus.pending_focus == Some(after[at + n].id)
        }),
{
    reveal(paste::tail_pasted);
    lemma_titled(s, i, at, paste);
    let titled = EditorView {
        document: s.document.update(
            i,
            paste::ending(s.document[i], paste::kept_title(paste), paste.shown),
        ),
        ..quotes::begun(s, facts, now)
    };
    lemma_ends_at(titled.document, i, at);
    let read_blocks = import_model::blocks_of(text::texts(paste.lines@), true, semantic);
    let items = paste::pasted_blocks(paste, semantic);
    let empty = restore::empty_paragraph();
    assert(items == read_blocks.push(empty));
    assert(items.drop_last() =~= read_blocks);
    let id = titled.next_id as int;
    let read = document::nodes_of(read_blocks, 0, id);
    let n = read.len() as int;
    document::lemma_nodes_len(read_blocks, 0, id);
    assert(empty.children.len() == 0);
    assert(document::nodes_of(empty.children, 1, id + n + 1).len() == 0);
    let head = document::fresh_node((id + n) as u64, 0, empty.kind, empty.title, empty.table);
    assert(document::block_nodes(empty, 0, id + n) =~= seq![head]);
    let new = document::nodes_of(items, 0, id);
    assert(new =~= read.push(head));
    document::lemma_nodes_len(items, 0, id);
    let deeper = document::deepened(new, titled.document[i].depth);
    let plain = EditorView {
        document: paste::pasted_nodes(titled, i, items),
        next_id: (titled.next_id + document::blocks_size(items)) as u64,
        ..titled
    };
    assert(plain.document == document::inserted(titled.document, at, deeper));
    lemma_rebuilt_texts(plain);
    let added = paste::blocks_pasted(titled, i, items);
    let after = paste::pasted(s, i, paste, semantic, facts, now).0.document;
    assert(plain.document[at + n] == deeper[n]);
    assert(same_text_block(plain.document[at + n], added.document[at + n]));
    assert(after =~= added.document.update(at + n, after[at + n]));
    assert forall|k: int| 0 <= k < n implies (#[trigger] after[at + k]).kind == read[k].kind
        && after[at + k].title == read[k].title && after[at + k].depth == read[k].depth
        + s.document[i].depth by {
        assert(plain.document[at + k] == deeper[k]);
        assert(same_text_block(plain.document[at + k], added.document[at + k]));
    }
    assert(same_text_block(plain.document[i], added.document[i]));
    assert(plain.document[i] == titled.document[i]);
    assert forall|k: int| 0 <= k < at && k != i implies same_text_block(
        s.document[k],
        #[trigger] after[k],
    ) by {
        assert(plain.document[k] == s.document[k]);
        assert(same_text_block(plain.document[k], added.document[k]));
    }
    assert forall|k: int| at <= k < s.document.len() implies same_text_block(
        s.document[k],
        #[trigger] after[k + n + 1],
    ) by {
        assert(plain.document[k + n + 1] == s.document[k]);
        assert(same_text_block(plain.document[k + n + 1], added.document[k + n + 1]));
    }
}

/// Where nothing is pasted nothing changes.
pub proof fn pasting_no_lines_changes_nothing(
    s: EditorView,
    i: int,
    paste: MultilinePaste,
    semantic: Seq<Seq<char>>,
    facts: DocumentFacts,
    now: u64,
)
    requires
        paste.lines@.len() == 0,
    ensures
        paste::pasted(s, i, paste, semantic, facts, now).0 == s,
        !paste::pasted(s, i, paste, semantic, facts, now).1.pasted,
{
}

} // verus!
