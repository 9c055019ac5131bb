//! Quotes and callouts: what a block lies in, leaving them, and the bodies of
//! callouts.

use crate::blocks;
use crate::blocks::{BlockKind, CalloutVariant, InlineTextTree, Title};
use crate::document;
use crate::document::{cut_nodes, find_index, find_parent, find_subtree_end, fresh_block, insert_nodes};
use crate::editor;
use crate::editor::{
    BlockSelection, DocBlock, Editor, EditorView, NodeView, Nodes, UndoCaptureKind, ViewMode,
};
use crate::focus;
use crate::grammar;
use crate::history;
use crate::history::{find_gone, DocumentFacts};
use crate::kinds;
use crate::structure;
use crate::structure::retitle_node;
use crate::text;
use crate::text::{chars_of, leading_run, split_lines, trim_end};
use vstd::prelude::*;

verus! {

// ---------------------------------------------------------------------------
// Ancestors
// ---------------------------------------------------------------------------

/// The nearest quote or callout that the block at `i` is or lies in.
pub open spec fn nearest_quote(nodes: Nodes, i: int) -> Option<int>
    decreases i,
{
    if i < 0 || i >= nodes.len() {
        None
    } else if kinds::quote_container(nodes[i].kind) {
        Some(i)
    } else {
        match document::parent_of(nodes, i) {
            Some(p) => if 0 <= p < i {
                nearest_quote(nodes, p)
            } else {
                None
            },
            None => None,
        }
    }
}

/// The outermost of the quotes and callouts that lie in one another around the one
/// at `i`.
pub open spec fn outermost_quote(nodes: Nodes, i: int) -> int
    decreases i,
{
    match document::parent_of(nodes, i) {
        Some(p) => if 0 <= p < i && kinds::quote_container(nodes[p].kind) {
            outermost_quote(nodes, p)
        } else {
            i
        },
        None => i,
    }
}

/// The outermost of the quotes and callouts around the block at `i`.
pub open spec fn topmost_quote(nodes: Nodes, i: int) -> Option<int> {
    match nearest_quote(nodes, i) {
        Some(q) => Some(outermost_quote(nodes, q)),
        None => None,
    }
}

/// Whether the block at `i` is or lies in a quote or callout.
pub open spec fn in_quote(nodes: Nodes, i: int) -> bool {
    nearest_quote(nodes, i) is Some
}

/// The nearest quote is a quote at or above the block.
pub proof fn lemma_nearest_quote(nodes: Nodes, i: int)
    requires
        0 <= i < nodes.len(),
    ensures
        nearest_quote(nodes, i) matches Some(q) ==> 0 <= q <= i && kinds::quote_container(
            nodes[q].kind,
        ),
    decreases i,
{
    document::lemma_above(nodes, nodes[i].depth, i);
    if !kinds::quote_container(nodes[i].kind) {
        if let Some(p) = document::parent_of(nodes, i) {
            lemma_nearest_quote(nodes, p);
        }
    }
}

/// The outermost quote is a quote at or above the block.
pub proof fn lemma_outermost_quote(nodes: Nodes, i: int)
    requires
        0 <= i < nodes.len(),
        kinds::quote_container(nodes[i].kind),
    ensures
        0 <= outermost_quote(nodes, i) <= i,
        kinds::quote_container(nodes[outermost_quote(nodes, i)].kind),
    decreases i,
{
    document::lemma_above(nodes, nodes[i].depth, i);
    if let Some(p) = document::parent_of(nodes, i) {
        if kinds::quote_container(nodes[p].kind) {
            lemma_outermost_quote(nodes, p);
        }
    }
}

/// The outermost quote around a block does not lie directly in another one.
pub proof fn the_outermost_quote_lies_in_no_quote(nodes: Nodes, i: int)
    requires
        0 <= i < nodes.len(),
        kinds::quote_container(nodes[i].kind),
    ensures
        document::parent_of(nodes, outermost_quote(nodes, i)) matches Some(p) ==> !(0 <= p
            < outermost_quote(nodes, i) && kinds::quote_container(nodes[p].kind)),
    decreases i,
{
    document::lemma_above(nodes, nodes[i].depth, i);
    if let Some(p) = document::parent_of(nodes, i) {
        if kinds::quote_container(nodes[p].kind) {
            the_outermost_quote_lies_in_no_quote(nodes, p);
        }
    }
}

/// Whether a block of a rendered document belongs to the structure of quotes.
pub open spec fn quote_related(s: EditorView, i: int) -> bool {
    s.view_mode == ViewMode::Rendered && in_quote(s.document, i)
}

// ---------------------------------------------------------------------------
// Text that needs to be read anew
// ---------------------------------------------------------------------------

/// Whether a line typed into a quote starts a block of its own.
#[verifier::opaque]
pub open spec fn starts_block(line: Seq<char>) -> bool {
    let body = text::trimmed_end(line);
    &&& body.len() > 0
    &&& {
        ||| text::run_len(body, ' ') >= 4
        ||| kinds::markdown_shortcut(body.push(' ')) is Some
        ||| grammar::fence_opening(body) is Some
        ||| grammar::separator_line(body)
        ||| grammar::atx_heading(body) is Some
    }
}

/// Whether a line of the text after the first one starts a block of its own.
pub open spec fn later_line_starts_block(s: Seq<char>) -> bool {
    exists|k: int| 1 <= k < text::lines_of(s).len() && #[trigger] starts_block(text::lines_of(s)[k])
}

/// Whether the text of a block in a quote says more than the block can hold.
pub open spec fn requires_reparse(nodes: Nodes, i: int) -> bool {
    in_quote(nodes, i) && later_line_starts_block(nodes[i].display_text)
}

// ---------------------------------------------------------------------------
// New blocks
// ---------------------------------------------------------------------------

/// The state with a new block before the place `at`.
pub open spec fn fresh_inserted(
    s: EditorView,
    at: int,
    depth: nat,
    kind: BlockKind<Seq<char>>,
    title: Title,
) -> EditorView {
    EditorView {
        document: document::inserted(
            s.document,
            at,
            seq![document::fresh_node(s.next_id, depth, kind, title, None)],
        ),
        next_id: (s.next_id + 1) as u64,
        ..s
    }
}

/// The state with an empty paragraph before the place `at`.
pub open spec fn paragraph_inserted(s: EditorView, at: int, depth: nat) -> EditorView {
    fresh_inserted(s, at, depth, BlockKind::Paragraph, blocks::plain_title(Seq::empty()))
}

/// The state with an empty paragraph behind the block at `i` and those under it,
/// at its level.
pub open spec fn paragraph_after(s: EditorView, i: int) -> EditorView {
    paragraph_inserted(s, document::subtree_end(s.document, i), s.document[i].depth)
}

/// Whether there are blocks under the one at `i`.
pub open spec fn has_children(nodes: Nodes, i: int) -> bool {
    i + 1 < nodes.len() && nodes[i + 1].depth > nodes[i].depth
}

/// A new block at a fitting level keeps a document well formed.
pub proof fn a_new_block_keeps_documents_well_formed(
    s: EditorView,
    at: int,
    depth: nat,
    kind: BlockKind<Seq<char>>,
    title: Title,
)
    requires
        document::well_formed(s.document, s.next_id),
        document::fits(s.document, at, depth),
        s.next_id < u64::MAX,
    ensures
        document::well_formed(
            fresh_inserted(s, at, depth, kind, title).document,
            fresh_inserted(s, at, depth, kind, title).next_id,
        ),
{
    document::inserting_keeps_a_document_well_formed(
        s.document,
        s.next_id,
        at,
        seq![document::fresh_node(s.next_id, depth, kind, title, None)],
        depth,
        (s.next_id + 1) as u64,
    );
}

/// Right behind a block and those under it, its level fits.
pub proof fn lemma_after_fits(nodes: Nodes, i: int)
    requires
        0 <= i < nodes.len(),
    ensures
        document::fits(nodes, document::subtree_end(nodes, i), nodes[i].depth),
{
    document::lemma_run_end(nodes, nodes[i].depth, i + 1);
    let end = document::subtree_end(nodes, i);
    assert(nodes[end - 1].depth >= nodes[i].depth);
}

// ---------------------------------------------------------------------------
// Events
// ---------------------------------------------------------------------------

/// The state with an undo capture of the document begun.
pub open spec fn begun(s: EditorView, facts: DocumentFacts, now: u64) -> EditorView {
    history::capturing(
        s,
        history::current_entry(s, UndoCaptureKind::NonCoalescible, facts, now),
    )
}

/// The state with a block put in behind the quote at `q`, and an empty paragraph
/// before it where the quote lies in another block. The block is focused.
pub open spec fn broken_off(s: EditorView, q: int, kind: BlockKind<Seq<char>>) -> EditorView {
    let end = document::subtree_end(s.document, q);
    let depth = s.document[q].depth;
    let added = fresh_inserted(s, end, depth, kind, blocks::plain_title(Seq::empty()));
    let spaced = if document::parent_of(s.document, q) is None {
        added
    } else {
        paragraph_inserted(added, end, depth)
    };
    focus::dirtied(focus::focused(spaced, s.next_id))
}

/// The state after a new quote was asked for behind the one that a block lies in.
pub open spec fn quote_broken(s: EditorView, id: u64, facts: DocumentFacts, now: u64) -> EditorView {
    match quote_to_break(s, id) {
        Some(q) => broken_off(begun(s, facts, now), q, BlockKind::Quote),
        None => s,
    }
}

/// The quote that a new quote goes behind.
pub open spec fn quote_to_break(s: EditorView, id: u64) -> Option<int> {
    match document::index_of(s.document, id) {
        Some(i) => nearest_quote(s.document, i),
        None => None,
    }
}

/// The state after a paragraph was asked for behind all quotes that a block lies
/// in.
pub open spec fn callout_broken(
    s: EditorView,
    id: u64,
    facts: DocumentFacts,
    now: u64,
) -> EditorView {
    match quotes_to_leave(s, id) {
        Some(q) => broken_off(begun(s, facts, now), q, BlockKind::Paragraph),
        None => s,
    }
}

/// The quote that a paragraph outside all quotes goes behind.
pub open spec fn quotes_to_leave(s: EditorView, id: u64) -> Option<int> {
    match document::index_of(s.document, id) {
        Some(i) => topmost_quote(s.document, i),
        None => None,
    }
}

/// The state with a body in the callout at `i`, and the first block of the body.
pub open spec fn body_ensured(s: EditorView, i: int) -> (EditorView, Option<u64>) {
    if s.document[i].kind !is Callout {
        (s, None)
    } else if has_children(s.document, i) {
        (s, Some(s.document[i + 1].id))
    } else {
        (paragraph_inserted(s, i + 1, s.document[i].depth + 1), Some(s.next_id))
    }
}

/// The state after the caret went into the body of a callout, and whether the body
/// is new.
pub open spec fn body_entered(s: EditorView, id: u64, facts: DocumentFacts, now: u64) -> (
    EditorView,
    bool,
) {
    match document::index_of(s.document, id) {
        None => (s, false),
        Some(i) => {
            let needs_body = !has_children(s.document, i);
            let ready = if needs_body {
                begun(s, facts, now)
            } else {
                s
            };
            let ensured = body_ensured(ready, i);
            match ensured.1 {
                Some(body) => {
                    let shown = focus::focused(ensured.0, body);
                    if needs_body {
                        (focus::dirtied(shown), true)
                    } else {
                        (shown, false)
                    }
                },
                None => (ensured.0, false),
            }
        },
    }
}

/// The callout that a quote with nothing under it opens with its text.
pub open spec fn callout_typed(s: EditorView, i: int, title_markdown: Seq<char>) -> Option<
    (CalloutVariant, Seq<char>),
> {
    if s.view_mode == ViewMode::Rendered && s.document[i].kind is Quote && !has_children(
        s.document,
        i,
    ) {
        grammar::callout_header(title_markdown)
    } else {
        None
    }
}

/// The state with a typed callout header made a callout with a body, and the first
/// block of the body.
pub open spec fn callout_made(s: EditorView, i: int, title_markdown: Seq<char>) -> (
    EditorView,
    Option<u64>,
) {
    match callout_typed(s, i, title_markdown) {
        None => (s, None),
        Some(header) => body_ensured(
            EditorView {
                document: s.document.update(
                    i,
                    NodeView {
                        kind: BlockKind::Callout(header.0),
                        ..structure::retitled(s.document[i], blocks::markdown_title(header.1))
                    },
                ),
                ..s
            },
            i,
        ),
    }
}

/// Whether a block that is no longer in the document lay in a quote.
pub open spec fn gone_in_quote(facts: DocumentFacts, id: u64) -> bool {
    history::gone_block(facts, id) matches Some(gone) && (gone.in_quote || kinds::quote_container(
        gone.block@.kind,
    ))
}

/// Whether a block that is no longer in the document belonged to a quote in the rendered
/// view.
pub open spec fn gone_quote_related(s: EditorView, facts: DocumentFacts, id: u64) -> bool {
    s.view_mode == ViewMode::Rendered && (gone_in_quote(facts, id) || (history::gone_block(
        facts,
        id,
    ) matches Some(gone) && gone.in_quote_group))
}

/// The callout header that was typed into a quote that is no longer in the document.
pub open spec fn gone_callout_typed(
    s: EditorView,
    facts: DocumentFacts,
    id: u64,
    title_markdown: Seq<char>,
) -> Option<(CalloutVariant, Seq<char>)> {
    match history::gone_block(facts, id) {
        Some(gone) => if s.view_mode == ViewMode::Rendered && gone.block@.kind is Quote
            && gone.first_child is None {
            grammar::callout_header(title_markdown)
        } else {
            None
        },
        None => None,
    }
}

/// Whether a block that is no longer in the document asks for quotes to be read anew:
/// by itself, or by its text. A callout header typed into it leaves it the header's
/// title.
pub open spec fn gone_requires_reparse(
    facts: DocumentFacts,
    id: u64,
    header: Option<(CalloutVariant, Seq<char>)>,
) -> bool {
    history::gone_block(facts, id) matches Some(gone) && {
        ||| gone.block.quote_reparse_requested && !gone.block.marked
        ||| gone_in_quote(facts, id) && later_line_starts_block(
            match header {
                Some(typed) => typed.1,
                None => gone.block@.display_text,
            },
        )
    }
}

/// Whether the block at `i` is the empty body of the callout at `parent`.
pub open spec fn empty_body(nodes: Nodes, i: int, parent: int) -> bool {
    &&& nodes[parent].kind is Callout
    &&& i == parent + 1
    &&& document::subtree_end(nodes, parent) == i + 1
    &&& nodes[i].kind is Paragraph
    &&& nodes[i].display_text.len() == 0
}

/// The callout whose empty body the block at `i` is.
pub open spec fn callout_to_downgrade(s: EditorView, id: u64) -> Option<int> {
    match document::index_of(s.document, id) {
        None => None,
        Some(i) => match document::parent_of(s.document, i) {
            Some(p) => if empty_body(s.document, i, p) {
                Some(p)
            } else {
                None
            },
            None => None,
        },
    }
}

/// A block made a quote with a header as its text and the caret before it.
pub open spec fn as_quote(node: NodeView, header: Seq<char>) -> NodeView {
    structure::with_caret(
        NodeView {
            kind: BlockKind::Quote,
            ..structure::retitled(node, blocks::markdown_title(header))
        },
        BlockSelection::Visible { start: 0, end: 0 },
    )
}

/// The state with the callout at `p` made a quote again and its empty body removed.
/// `title_markdown` is the Markdown of the callout's title.
pub open spec fn callout_downgraded(
    s: EditorView,
    p: int,
    title_markdown: Seq<char>,
    facts: DocumentFacts,
    now: u64,
) -> EditorView {
    let ready = begun(s, facts, now);
    let callout = s.document[p];
    let header = kinds::callout_header_markdown(callout.kind->Callout_0, title_markdown);
    focus::dirtied(
        focus::focused(
            EditorView {
                document: document::removed(s.document, p + 1).update(
                    p,
                    as_quote(callout, header),
                ),
                ..ready
            },
            callout.id,
        ),
    )
}

/// Leaving quotes keeps a document well formed.
pub proof fn leaving_quotes_keeps_documents_well_formed(
    s: EditorView,
    q: int,
    kind: BlockKind<Seq<char>>,
)
    requires
        document::well_formed(s.document, s.next_id),
        0 <= q < s.document.len(),
        s.next_id + 2 <= u64::MAX,
    ensures
        document::well_formed(broken_off(s, q, kind).document, broken_off(s, q, kind).next_id),
{
    let end = document::subtree_end(s.document, q);
    let depth = s.document[q].depth;
    let title = blocks::plain_title(Seq::empty());
    lemma_after_fits(s.document, q);
    a_new_block_keeps_documents_well_formed(s, end, depth, kind, title);
    let added = fresh_inserted(s, end, depth, kind, title);
    document::lemma_run_end(s.document, depth, q + 1);
    assert(added.document[end].depth == depth);
    assert(added.document[end - 1] == s.document[end - 1]);
    assert(document::fits(added.document, end, depth));
    a_new_block_keeps_documents_well_formed(
        added,
        end,
        depth,
        BlockKind::Paragraph,
        title,
    );
}

/// A body in a callout keeps a document well formed.
pub proof fn callout_bodies_keep_documents_well_formed(s: EditorView, i: int)
    requires
        document::well_formed(s.document, s.next_id),
        0 <= i < s.document.len(),
        s.next_id < u64::MAX,
    ensures
        document::well_formed(body_ensured(s, i).0.document, body_ensured(s, i).0.next_id),
{
    if s.document[i].kind is Callout && !has_children(s.document, i) {
        a_new_block_keeps_documents_well_formed(
            s,
            i + 1,
            s.document[i].depth + 1,
            BlockKind::Paragraph,
            blocks::plain_title(Seq::empty()),
        );
    }
}

// ---------------------------------------------------------------------------
// Running code
// ---------------------------------------------------------------------------

/// The nearest quote or callout that the block at `i` is or lies in.
pub fn find_nearest_quote(nodes: &Vec<DocBlock>, i: usize) -> (r: Option<usize>)
    requires
        i < nodes@.len(),
    ensures
        r matches Some(q) ==> nearest_quote(editor::node_views(nodes@), i as int) == Some(q as int)
            && q <= i,
        r is None ==> nearest_quote(editor::node_views(nodes@), i as int) is None,
{
    let ghost views = editor::node_views(nodes@);
    let mut k: usize = i;
    loop
        invariant
            views == editor::node_views(nodes@),
            k <= i < nodes@.len(),
            nearest_quote(views, i as int) == nearest_quote(views, k as int),
        decreases k,
    {
        assert(views[k as int].kind == nodes@[k as int].kind@);
        if nodes[k].kind.is_quote_container() {
            return Some(k);
        }
        match find_parent(nodes, k) {
            Some(p) => {
                k = p;
            },
            None => {
                return None;
            },
        }
    }
}

/// The outermost of the quotes and callouts around the block at `i`.
pub fn find_topmost_quote(nodes: &Vec<DocBlock>, i: usize) -> (r: Option<usize>)
    requires
        i < nodes@.len(),
    ensures
        r matches Some(q) ==> topmost_quote(editor::node_views(nodes@), i as int) == Some(q as int)
            && q <= i,
        r is None ==> topmost_quote(editor::node_views(nodes@), i as int) is None,
{
    let ghost views = editor::node_views(nodes@);
    let start: usize = match find_nearest_quote(nodes, i) {
        Some(q) => q,
        None => {
            return None;
        },
    };
    let mut k: usize = start;
    loop
        invariant
            views == editor::node_views(nodes@),
            k <= start <= i < nodes@.len(),
            nearest_quote(views, i as int) == Some(start as int),
            outermost_quote(views, start as int) == outermost_quote(views, k as int),
        decreases k,
    {
        match find_parent(nodes, k) {
            Some(p) => {
                assert(views[p as int].kind == nodes@[p as int].kind@);
                if !nodes[p].kind.is_quote_container() {
                    return Some(k);
                }
                k = p;
            },
            None => {
                return Some(k);
            },
        }
    }
}

fn make_quote(nodes: &mut Vec<DocBlock>, p: usize, header: String)
    requires
        p < old(nodes)@.len(),
    ensures
        editor::node_views(final(nodes)@) == editor::node_views(old(nodes)@).update(
            p as int,
            as_quote(editor::node_views(old(nodes)@)[p as int], header@),
        ),
        final(nodes)@.len() == old(nodes)@.len(),
{
    let ghost before = editor::node_views(nodes@);
    retitle_node(
        nodes,
        p,
        InlineTextTree::from_markdown(header),
        BlockSelection::Visible { start: 0, end: 0 },
    );
    let ghost raw = nodes@;
    nodes[p].kind = BlockKind::Quote;
    assert forall|k: int| 0 <= k < before.len() implies editor::node_views(nodes@)[k]
        == before.update(p as int, as_quote(before[p as int], header@))[k] by {
        assert(editor::node_views(raw)[k] == raw[k]@);
    }
    assert(editor::node_views(nodes@) =~= before.update(
        p as int,
        as_quote(before[p as int], header@),
    ));
}

fn line_starts_block(line: &str) -> (r: bool)
    ensures
        r == starts_block(line@),
{
    reveal(starts_block);
    let body = trim_end(line);
    if body.is_empty() {
        return false;
    }
    let cs = chars_of(body);
    if leading_run(cs.as_slice(), ' ') >= 4 {
        return true;
    }
    let mut spaced = String::from_str(body);
    spaced.push(' ');
    BlockKind::detect_markdown_shortcut(spaced.as_str()).is_some()
        || BlockKind::parse_code_fence_opening(body).is_some() || BlockKind::parse_separator_line(
        body,
    ) || BlockKind::parse_atx_heading_line(body).is_some()
}

fn any_later_line_starts_block(s: &str) -> (r: bool)
    ensures
        r == later_line_starts_block(s@),
{
    let lines = split_lines(s);
    let ghost all = text::lines_of(s@);
    let mut k: usize = 1;
    while k < lines.len()
        invariant
            text::texts(lines@) == all,
            all == text::lines_of(s@),
            1 <= k,
            forall|j: int| 1 <= j < k && j < all.len() ==> !#[trigger] starts_block(all[j]),
        decreases lines@.len() - k,
    {
        assert(text::texts(lines@)[k as int] == lines@[k as int]@);
        if line_starts_block(lines[k].as_str()) {
            assert(starts_block(all[k as int]));
            return true;
        }
        k = k + 1;
    }
    assert(text::texts(lines@).len() == lines@.len());
    false
}

impl Editor {
    /// The nearest quote or callout that a block is or lies in.
    pub fn nearest_quote_ancestor(&self, entity_id: u64) -> (r: Option<u64>)
        ensures
            r == (match quote_to_break(self@, entity_id) {
                Some(q) => Some(self@.document[q].id),
                None => None,
            }),
    {
        match find_index(&self.document, entity_id) {
            Some(i) => match find_nearest_quote(&self.document, i) {
                Some(q) => Some(self.document[q].id),
                None => None,
            },
            None => None,
        }
    }

    /// The outermost of the quotes and callouts around a block.
    pub fn topmost_quote_ancestor(&self, entity_id: u64) -> (r: Option<u64>)
        ensures
            r == (match quotes_to_leave(self@, entity_id) {
                Some(q) => Some(self@.document[q].id),
                None => None,
            }),
    {
        match find_index(&self.document, entity_id) {
            Some(i) => match find_topmost_quote(&self.document, i) {
                Some(q) => Some(self.document[q].id),
                None => None,
            },
            None => None,
        }
    }

    /// Whether a block of a rendered document belongs to the structure of quotes.
    pub fn block_is_quote_structure_related(&self, i: usize) -> (r: bool)
        requires
            i < self@.document.len(),
        ensures
            r == quote_related(self@, i as int),
    {
        self.view_mode == ViewMode::Rendered && find_nearest_quote(&self.document, i).is_some()
    }

    /// Whether the text of a block in a quote says more than the block can hold.
    pub fn rendered_quote_text_requires_reparse(&self, i: usize) -> (r: bool)
        requires
            i < self@.document.len(),
        ensures
            r == requires_reparse(self@.document, i as int),
    {
        find_nearest_quote(&self.document, i).is_some() && any_later_line_starts_block(
            self.document[i].display_text.as_str(),
        )
    }

    /// Whether a block that is no longer in the document belonged to a quote.
    pub(crate) fn gone_block_is_quote_structure_related(&self, id: u64, facts: &DocumentFacts) -> (r:
        bool)
        ensures
            r == gone_quote_related(self@, *facts, id),
    {
        match find_gone(facts, id) {
            Some(k) => self.view_mode == ViewMode::Rendered && (facts.gone[k].in_quote
                || facts.gone[k].block.kind.is_quote_container() || facts.gone[k].in_quote_group),
            None => false,
        }
    }

    /// Whether a callout header was typed into a block that is no longer in the document,
    /// and whether the block asks for quotes to be read anew.
    pub(crate) fn read_gone_text(&self, id: u64, title_markdown: &str, facts: &DocumentFacts) -> (r: (
        bool,
        bool,
    ))
        ensures
            r.0 == (gone_callout_typed(self@, *facts, id, title_markdown@) is Some),
            r.1 == gone_requires_reparse(
                *facts,
                id,
                gone_callout_typed(self@, *facts, id, title_markdown@),
            ),
    {
        match find_gone(facts, id) {
            None => (false, false),
            Some(k) => {
                let gone = &facts.gone[k];
                let header = if self.view_mode == ViewMode::Rendered && matches!(
                    gone.block.kind,
                    BlockKind::Quote
                ) && gone.first_child.is_none() {
                    CalloutVariant::parse_header_line(title_markdown)
                } else {
                    None
                };
                let asked = gone.block.quote_reparse_requested && !gone.block.marked;
                let quoted = gone.in_quote || gone.block.kind.is_quote_container();
                match header {
                    Some((_variant, title)) => (
                        true,
                        asked || (quoted && any_later_line_starts_block(title.as_str())),
                    ),
                    None => (
                        false,
                        asked || (quoted && any_later_line_starts_block(
                            gone.block.display_text.as_str(),
                        )),
                    ),
                }
            },
        }
    }

    /// Puts a new block in before the place `at`, and gives its id.
    pub fn insert_fresh(
        &mut self,
        at: usize,
        depth: usize,
        kind: BlockKind<String>,
        title: InlineTextTree,
    ) -> (r: u64)
        requires
            at <= old(self)@.document.len(),
            old(self)@.next_id < u64::MAX,
        ensures
            final(self)@ == fresh_inserted(old(self)@, at as int, depth as nat, kind@, title@),
            r == old(self)@.next_id,
    {
        let id: u64 = self.next_id;
        let block = fresh_block(id, depth, kind, title, None);
        let mut added: Vec<DocBlock> = Vec::new();
        added.push(block);
        assert(editor::node_views(added@) =~= seq![block@]);
        insert_nodes(&mut self.document, at, added);
        self.next_id = id + 1;
        id
    }

    /// Puts an empty paragraph in before the place `at`, and gives its id.
    pub fn insert_paragraph(&mut self, at: usize, depth: usize) -> (r: u64)
        requires
            at <= old(self)@.document.len(),
            old(self)@.next_id < u64::MAX,
        ensures
            final(self)@ == paragraph_inserted(old(self)@, at as int, depth as nat),
            r == old(self)@.next_id,
    {
        let title = InlineTextTree::plain(String::new());
        assert(title@ =~= blocks::plain_title(Seq::empty()));
        self.insert_fresh(at, depth, BlockKind::Paragraph, title)
    }

    /// Begins an undo capture of the document.
    pub fn begin_capture(&mut self, facts: &DocumentFacts, now: u64)
        requires
            history::facts_ok(*facts),
        ensures
            final(self)@ == begun(old(self)@, *facts, now),
    {
        self.prepare_undo_capture(UndoCaptureKind::NonCoalescible, facts, now);
    }

    fn break_off(&mut self, q: usize, kind: BlockKind<String>)
        requires
            q < old(self)@.document.len(),
            old(self)@.next_id + 2 <= u64::MAX,
        ensures
            final(self)@ == broken_off(old(self)@, q as int, kind@),
    {
        let nested = find_parent(&self.document, q).is_some();
        let end: usize = find_subtree_end(&self.document, q);
        let depth: usize = self.document[q].depth;
        let title = InlineTextTree::plain(String::new());
        assert(title@ =~= blocks::plain_title(Seq::empty()));
        let id: u64 = self.insert_fresh(end, depth, kind, title);
        if nested {
            let _spacer: u64 = self.insert_paragraph(end, depth);
        }
        self.focus_block(id);
        self.mark_dirty();
    }

    /// Puts a new quote in behind the one that a block lies in. The result says
    /// whether there was one.
    pub fn request_quote_break(&mut self, entity_id: u64, facts: &DocumentFacts, now: u64) -> (r:
        bool)
        requires
            history::facts_ok(*facts),
            old(self)@.next_id + 2 <= u64::MAX,
        ensures
            final(self)@ == quote_broken(old(self)@, entity_id, *facts, now),
            r == (quote_to_break(old(self)@, entity_id) is Some),
    {
        let q: usize = match find_index(&self.document, entity_id) {
            Some(i) => match find_nearest_quote(&self.document, i) {
                Some(q) => q,
                None => {
                    return false;
                },
            },
            None => {
                return false;
            },
        };
        self.begin_capture(facts, now);
        self.break_off(q, BlockKind::Quote);
        true
    }

    /// Puts a paragraph in behind all quotes that a block lies in. The result says
    /// whether there was one.
    pub fn request_callout_break(&mut self, entity_id: u64, facts: &DocumentFacts, now: u64) -> (r:
        bool)
        requires
            history::facts_ok(*facts),
            old(self)@.next_id + 2 <= u64::MAX,
        ensures
            final(self)@ == callout_broken(old(self)@, entity_id, *facts, now),
            r == (quotes_to_leave(old(self)@, entity_id) is Some),
    {
        let q: usize = match find_index(&self.document, entity_id) {
            Some(i) => match find_topmost_quote(&self.document, i) {
                Some(q) => q,
                None => {
                    return false;
                },
            },
            None => {
                return false;
            },
        };
        self.begin_capture(facts, now);
        self.break_off(q, BlockKind::Paragraph);
        true
    }

    /// Whether there are blocks under the one at `i`.
    pub fn block_has_children(&self, i: usize) -> (r: bool)
        requires
            i < self@.document.len(),
        ensures
            r == has_children(self@.document, i as int),
    {
        let n: usize = self.document.len();
        i + 1 < n && self.document[i + 1].depth > self.document[i].depth
    }

    /// Gives the callout at `i` a body, if it has none, and gives the first block
    /// of the body.
    pub fn ensure_callout_body_entry(&mut self, i: usize) -> (r: Option<u64>)
        requires
            i < old(self)@.document.len(),
            document::forest(old(self)@.document),
            old(self)@.next_id < u64::MAX,
        ensures
            final(self)@ == body_ensured(old(self)@, i as int).0,
            r == body_ensured(old(self)@, i as int).1,
    {
        if !matches!(self.document[i].kind, BlockKind::Callout(_)) {
            return None;
        }
        let n: usize = self.document.len();
        if self.block_has_children(i) {
            return Some(self.document[i + 1].id);
        }
        proof {
            document::lemma_depth_bound(self@.document, i as int);
        }
        let depth: usize = self.document[i].depth;
        Some(self.insert_paragraph(i + 1, depth + 1))
    }

    /// Takes the caret into the body of a callout. The result says whether the
    /// body is new.
    pub fn request_enter_callout_body(
        &mut self,
        entity_id: u64,
        facts: &DocumentFacts,
        now: u64,
    ) -> (r: bool)
        requires
            history::facts_ok(*facts),
            document::forest(old(self)@.document),
            old(self)@.next_id < u64::MAX,
        ensures
            final(self)@ == body_entered(old(self)@, entity_id, *facts, now).0,
            r == body_entered(old(self)@, entity_id, *facts, now).1,
    {
        let i: usize = match find_index(&self.document, entity_id) {
            Some(i) => i,
            None => {
                return false;
            },
        };
        let needs_body = !self.block_has_children(i);
        if needs_body {
            self.begin_capture(facts, now);
        }
        match self.ensure_callout_body_entry(i) {
            Some(body) => {
                self.focus_block(body);
                if needs_body {
                    self.mark_dirty();
                }
                needs_body
            },
            None => false,
        }
    }

    /// Makes a typed callout header a callout with a body, and gives the first
    /// block of the body. `title_markdown` is the Markdown of the block's title.
    pub fn materialize_empty_callout_shortcut(&mut self, i: usize, title_markdown: &str) -> (r:
        Option<u64>)
        requires
            i < old(self)@.document.len(),
            document::forest(old(self)@.document),
            old(self)@.next_id < u64::MAX,
        ensures
            final(self)@ == callout_made(old(self)@, i as int, title_markdown@).0,
            r == callout_made(old(self)@, i as int, title_markdown@).1,
    {
        if self.view_mode != ViewMode::Rendered || !matches!(self.document[i].kind, BlockKind::Quote)
            || self.block_has_children(i) {
            return None;
        }
        match CalloutVariant::parse_header_line(title_markdown) {
            None => None,
            Some((variant, title)) => {
                let ghost before = self@.document;
                let tree = InlineTextTree::from_markdown(title);
                let display_text = tree.text();
                self.document[i].title = tree;
                self.document[i].display_text = display_text;
                self.document[i].kind = BlockKind::Callout(variant);
                proof {
                    let changed = NodeView {
                        kind: BlockKind::Callout(variant),
                        ..structure::retitled(
                            before[i as int],
                            blocks::markdown_title(title@),
                        )
                    };
                    assert(self@.document =~= before.update(i as int, changed));
                    assert forall|k: int| 0 < k < self@.document.len() implies
                        #[trigger] document::depth_step(self@.document, k) by {
                        assert(document::depth_step(before, k));
                    }
                }
                self.ensure_callout_body_entry(i)
            },
        }
    }

    /// Makes a callout whose empty body is deleted a quote again. The result says
    /// whether the block was such a body. `title_markdown` is the Markdown of the
    /// title of the block that it lies under.
    pub fn downgrade_empty_callout_body_to_quote(
        &mut self,
        entity_id: u64,
        title_markdown: &str,
        facts: &DocumentFacts,
        now: u64,
    ) -> (r: bool)
        requires
            history::facts_ok(*facts),
        ensures
            final(self)@ == (match callout_to_downgrade(old(self)@, entity_id) {
                Some(p) => callout_downgraded(old(self)@, p, title_markdown@, *facts, now),
                None => old(self)@,
            }),
            r == (callout_to_downgrade(old(self)@, entity_id) is Some),
    {
        let i: usize = match find_index(&self.document, entity_id) {
            Some(i) => i,
            None => {
                return false;
            },
        };
        let p: usize = match find_parent(&self.document, i) {
            Some(p) => p,
            None => {
                return false;
            },
        };
        let variant = match &self.document[p].kind {
            BlockKind::Callout(variant) => *variant,
            _ => {
                return false;
            },
        };
        let n: usize = self.document.len();
        if p != i - 1 || find_subtree_end(&self.document, p) != i + 1 || !matches!(
            self.document[i].kind,
            BlockKind::Paragraph
        ) || !self.document[i].display_text.as_str().is_empty() {
            return false;
        }
        self.begin_capture(facts, now);
        let ghost before = self@.document;
        let end: usize = find_subtree_end(&self.document, i);
        let _body = cut_nodes(&mut self.document, i, end);
        let ghost rest = self@.document;
        assert(rest[p as int] == before[p as int]);
        let header = variant.header_markdown(title_markdown);
        make_quote(&mut self.document, p, header);
        let parent_id: u64 = self.document[p].id;
        assert(self@.document[p as int] == as_quote(before[p as int], header@));
        self.focus_block(parent_id);
        self.mark_dirty();
        true
    }
}

} // verus!
