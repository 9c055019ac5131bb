//! What the enter key does to a block: headings and tables that are typed line by
//! line, and new blocks below.

use crate::blocks;
use crate::blocks::{BlockKind, InlineTextTree, TableData, TableView, Title};
use crate::cell_laws;
use crate::document;
use crate::document::{
    cut_nodes, find_index, find_parent, find_previous_sibling, find_subtree_end, fresh_block,
    insert_nodes,
};
use crate::editor;
use crate::editor::{BlockSelection, DocBlock, Editor, EditorView, NodeView, Nodes, ViewMode};
use crate::focus;
use crate::grammar;
use crate::history;
use crate::history::DocumentFacts;
use crate::kinds;
use crate::quotes;
use crate::structure;
use crate::table_syntax;
use crate::table_syntax::{is_table_row_candidate, parse_root_table_region, parse_table_body_row};
use crate::tables;
use crate::text;
use vstd::prelude::*;

verus! {

// ---------------------------------------------------------------------------
// Headings and separators
// ---------------------------------------------------------------------------

/// Whether a line below the block at `i` can underline it as a heading.
pub open spec fn heading_target(nodes: Nodes, i: int) -> bool {
    &&& nodes[i].kind is Paragraph
    &&& !quotes::has_children(nodes, i)
    &&& !text::blank(nodes[i].display_text)
    &&& !text::occurs(nodes[i].display_text, "\n"@)
}

/// The block that the one at `i` underlines. Only blocks at the root do.
pub open spec fn underlined(nodes: Nodes, i: int) -> Option<int> {
    if document::parent_of(nodes, i) is Some {
        None
    } else {
        match document::previous_sibling_of(nodes, i) {
            Some(p) => if heading_target(nodes, p) {
                Some(p)
            } else {
                None
            },
            None => None,
        }
    }
}

/// What a line of `=` or `-` becomes.
pub enum Underline {
    /// The underline of the block at `at`, which becomes a heading.
    Heading { at: int, level: u8 },
    /// A separator.
    Separator,
}

/// What the block at `i` becomes when enter is pressed in it, if it is an
/// underline.
pub open spec fn underline_of(nodes: Nodes, i: int) -> Option<Underline> {
    let line = nodes[i].display_text;
    match grammar::setext_underline(line) {
        None => None,
        Some(level) => if nodes[i].kind !is Paragraph {
            None
        } else {
            match underlined(nodes, i) {
                Some(at) => Some(Underline::Heading { at, level }),
                None => if grammar::separator_line(line) {
                    Some(Underline::Separator)
                } else {
                    None
                },
            }
        },
    }
}

/// A block made a heading, with the caret behind its text.
pub open spec fn as_heading(node: NodeView, level: u8) -> NodeView {
    structure::with_caret(
        NodeView { kind: BlockKind::Heading { level }, ..node },
        BlockSelection::AfterFragments(node.title.len() as usize),
    )
}

/// A block made a separator.
pub open spec fn as_separator(node: NodeView) -> NodeView {
    structure::with_caret(
        NodeView {
            kind: BlockKind::Separator,
            ..structure::retitled(node, blocks::plain_title(Seq::empty()))
        },
        BlockSelection::Visible { start: 0, end: 0 },
    )
}

/// The state with an underline taken: the block above becomes a heading and the
/// underline goes, or the underline becomes a separator. The caret goes into a
/// paragraph below.
pub open spec fn underline_taken(s: EditorView, i: int, underline: Underline) -> EditorView {
    let shaped = match underline {
        Underline::Heading { at, level } => {
            let rest = EditorView {
                document: document::removed(s.document, i).update(
                    at,
                    as_heading(s.document[at], level),
                ),
                ..s
            };
            quotes::paragraph_after(rest, at)
        },
        Underline::Separator => {
            let marked = EditorView {
                document: s.document.update(i, as_separator(s.document[i])),
                ..s
            };
            quotes::paragraph_after(marked, i)
        },
    };
    focus::dirtied(focus::focused(shaped, s.next_id))
}

// ---------------------------------------------------------------------------
// Tables
// ---------------------------------------------------------------------------

/// What a table row typed into a paragraph becomes.
pub enum TypedRow {
    /// The delimiter row of a table whose header is the block at `at`.
    Delimiter { at: int, table: TableView },
    /// A row of the table at `at`.
    Body { at: int },
}

/// The block before the one at `i`, if the one at `i` is a paragraph at the root
/// with a table row in it.
pub open spec fn row_above(nodes: Nodes, i: int) -> Option<int> {
    if nodes[i].kind is Paragraph && table_syntax::row_candidate(nodes[i].display_text)
        && document::parent_of(nodes, i) is None {
        document::previous_sibling_of(nodes, i)
    } else {
        None
    }
}

/// What the block at `i` becomes when enter is pressed in it, if it is a table row.
pub open spec fn typed_row(nodes: Nodes, i: int) -> Option<TypedRow> {
    match row_above(nodes, i) {
        None => None,
        Some(at) => if nodes[at].kind is Table {
            Some(TypedRow::Body { at })
        } else if nodes[at].kind is Paragraph && table_syntax::row_candidate(
            nodes[at].display_text,
        ) {
            match table_syntax::parsed_table(
                seq![nodes[at].display_text, nodes[i].display_text],
            ) {
                Some(table) => Some(TypedRow::Delimiter { at, table }),
                None => None,
            }
        } else {
            None
        },
    }
}

/// The new blocks of a table and a paragraph below it.
pub open spec fn table_and_paragraph(next_id: u64, table: TableView) -> Nodes {
    seq![
        document::fresh_node(
            next_id,
            0,
            BlockKind::Table,
            blocks::plain_title(Seq::empty()),
            Some(table),
        ),
        document::fresh_node(
            (next_id + 1) as u64,
            0,
            BlockKind::Paragraph,
            blocks::plain_title(Seq::empty()),
            None,
        ),
    ]
}

/// The document with the header at `at` and the delimiter row at `i` replaced by a
/// table and a paragraph below it.
pub open spec fn table_formed_nodes(s: EditorView, at: int, i: int, table: TableView) -> Nodes {
    document::inserted(
        document::cut(s.document, at, document::subtree_end(s.document, i)),
        at,
        table_and_paragraph(s.next_id, table),
    )
}

/// The state with a header and a delimiter row made a table.
pub open spec fn table_formed(s: EditorView, at: int, i: int, table: TableView) -> EditorView {
    focus::dirtied(
        focus::focused(
            tables::tables_rebuilt(
                EditorView {
                    document: table_formed_nodes(s, at, i, table),
                    next_id: (s.next_id + 2) as u64,
                    ..s
                },
            ),
            (s.next_id + 1) as u64,
        ),
    )
}

/// The table with a typed row.
pub open spec fn with_typed_row(table: TableView, line: Seq<char>) -> TableView {
    TableView {
        rows: table.rows.push(
            table_syntax::fitted_row(table_syntax::row_cells(line), table.header.len()),
        ),
        ..table
    }
}

/// The state before the cells are made anew: the row at `i` is in the table at
/// `at`, and an empty paragraph is below the table.
pub open spec fn row_absorbed(s: EditorView, at: int, i: int, table: TableView) -> EditorView {
    quotes::paragraph_after(
        EditorView {
            document: document::removed(
                s.document.update(at, NodeView { table: Some(table), ..s.document[at] }),
                i,
            ),
            ..s
        },
        at,
    )
}

/// The state with a typed row taken into the table above it.
pub open spec fn table_extended(s: EditorView, at: int, i: int, table: TableView) -> EditorView {
    focus::dirtied(
        focus::focused(
            tables::tables_rebuilt(row_absorbed(s, at, i, table)),
            s.next_id,
        ),
    )
}

/// The state after enter in a table row, and whether the row was taken.
pub open spec fn row_entered(s: EditorView, i: int, facts: DocumentFacts, now: u64) -> (
    EditorView,
    bool,
) {
    match typed_row(s.document, i) {
        None => (s, false),
        Some(TypedRow::Delimiter { at, table }) => (
            table_formed(quotes::begun(s, facts, now), at, i, table),
            true,
        ),
        Some(TypedRow::Body { at }) => {
            let synced = tables::synced_record(s, s.document[at].id);
            match synced.document[at].table {
                None => (synced, false),
                Some(table) => (
                    table_extended(
                        quotes::begun(synced, facts, now),
                        at,
                        i,
                        with_typed_row(table, s.document[i].display_text),
                    ),
                    true,
                ),
            }
        },
    }
}

/// Whether the ids last for what enter in a table row makes.
pub open spec fn room_for_row(s: EditorView, i: int) -> bool {
    match typed_row(s.document, i) {
        None => true,
        Some(TypedRow::Delimiter { at, table }) => s.next_id + 2 + tables::document_cells(
            table_formed_nodes(s, at, i, table),
        ) <= u64::MAX,
        Some(TypedRow::Body { at }) => {
            let synced = tables::synced_record(s, s.document[at].id);
            synced.document[at].table matches Some(table) ==> s.next_id + 1
                + tables::document_cells(
                row_absorbed(
                    synced,
                    at,
                    i,
                    with_typed_row(table, s.document[i].display_text),
                ).document,
            ) <= u64::MAX
        },
    }
}

// ---------------------------------------------------------------------------
// Blocks below
// ---------------------------------------------------------------------------

/// Whether a block is shown as one piece that the caret cannot move past.
pub open spec fn strands(node: NodeView) -> bool {
    kinds::atomic_structural(node.kind) || kinds::quote_container(node.kind)
        || node.kind is FootnoteDefinition || node.standalone_image
}

/// Whether another block follows the one at `i` in the same container.
pub open spec fn followed(nodes: Nodes, i: int) -> bool {
    let end = document::subtree_end(nodes, i);
    end < nodes.len() && nodes[end].depth == nodes[i].depth
}

/// The state with an empty paragraph behind the block at `i`, if the caret could
/// not get past it.
pub open spec fn trailing_ensured(s: EditorView, i: int) -> EditorView {
    if strands(s.document[i]) && !followed(s.document, i) {
        quotes::paragraph_after(s, i)
    } else {
        s
    }
}

/// The state with a block of the fitting kind below the one at `i`, holding the
/// text behind the caret.
pub open spec fn line_split(s: EditorView, i: int, trailing: Title) -> EditorView {
    let at = document::subtree_end(s.document, i);
    let added = quotes::fresh_inserted(
        s,
        at,
        s.document[i].depth,
        kinds::newline_sibling(s.document[i].kind),
        trailing,
    );
    let shown = if s.view_mode == ViewMode::Source {
        EditorView {
            document: added.document.update(
                at,
                NodeView { raw_text_editing: true, ..added.document[at] },
            ),
            ..added
        }
    } else {
        added
    };
    focus::dirtied(focus::focused(shown, s.next_id))
}

// ---------------------------------------------------------------------------
// Laws
// ---------------------------------------------------------------------------

proof fn lemma_sibling(nodes: Nodes, i: int, p: int)
    requires
        document::forest(nodes),
        0 <= i < nodes.len(),
        document::previous_sibling_of(nodes, i) == Some(p),
    ensures
        0 <= p < i,
        nodes[p].depth == nodes[i].depth,
        document::subtree_end(nodes, p) == i,
{
    document::lemma_above(nodes, nodes[i].depth + 1, i);
    structure_run(nodes, nodes[p].depth, p + 1, i);
}

proof fn structure_run(nodes: Nodes, depth: nat, at: int, end: int)
    requires
        0 <= at <= end <= nodes.len(),
        forall|k: int| at <= k < end ==> (#[trigger] nodes[k]).depth > depth,
        end < nodes.len() ==> nodes[end].depth <= depth,
    ensures
        document::run_end(nodes, depth, at) == end,
    decreases end - at,
{
    if at < end {
        assert(nodes[at].depth > depth);
        structure_run(nodes, depth, at + 1, end);
    }
}

/// A new block below another one keeps a document well formed.
pub proof fn splitting_a_line_keeps_documents_well_formed(s: EditorView, i: int, trailing: Title)
    requires
        document::well_formed(s.document, s.next_id),
        0 <= i < s.document.len(),
        s.next_id < u64::MAX,
    ensures
        document::well_formed(
            line_split(s, i, trailing).document,
            line_split(s, i, trailing).next_id,
        ),
{
    let at = document::subtree_end(s.document, i);
    let kind = kinds::newline_sibling(s.document[i].kind);
    quotes::lemma_after_fits(s.document, i);
    quotes::a_new_block_keeps_documents_well_formed(
        s,
        at,
        s.document[i].depth,
        kind,
        trailing,
    );
    let added = quotes::fresh_inserted(s, at, s.document[i].depth, kind, trailing);
    document::lemma_same_shape(
        added.document,
        line_split(s, i, trailing).document,
        added.next_id,
    );
}

/// A trailing paragraph keeps a document well formed.
pub proof fn trailing_paragraphs_keep_documents_well_formed(s: EditorView, i: int)
    requires
        document::well_formed(s.document, s.next_id),
        0 <= i < s.document.len(),
        s.next_id < u64::MAX,
    ensures
        document::well_formed(trailing_ensured(s, i).document, trailing_ensured(s, i).next_id),
{
    quotes::lemma_after_fits(s.document, i);
    quotes::a_new_block_keeps_documents_well_formed(
        s,
        document::subtree_end(s.document, i),
        s.document[i].depth,
        BlockKind::Paragraph,
        blocks::plain_title(Seq::empty()),
    );
}

/// Where a block strands the caret, a block follows it afterwards.
pub proof fn the_caret_is_never_stranded(s: EditorView, i: int)
    requires
        document::forest(s.document),
        0 <= i < s.document.len(),
        strands(s.document[i]),
    ensures
        followed(trailing_ensured(s, i).document, i),
{
    if !followed(s.document, i) {
        let end = document::subtree_end(s.document, i);
        document::lemma_run_end(s.document, s.document[i].depth, i + 1);
        let after = trailing_ensured(s, i).document;
        assert(forall|k: int| 0 <= k < end ==> after[k] == s.document[k]);
        assert(after[end].depth == s.document[i].depth);
        structure_run(after, s.document[i].depth, i + 1, end);
    }
}

/// Ensuring a trailing paragraph twice adds no second one.
pub proof fn one_trailing_paragraph_is_enough(s: EditorView, i: int)
    requires
        document::forest(s.document),
        0 <= i < s.document.len(),
        strands(s.document[i]),
    ensures
        trailing_ensured(trailing_ensured(s, i), i) == trailing_ensured(s, i),
{
    the_caret_is_never_stranded(s, i);
}

/// Taking an underline keeps a document well formed.
pub proof fn underlines_keep_documents_well_formed(s: EditorView, i: int)
    requires
        document::well_formed(s.document, s.next_id),
        0 <= i < s.document.len(),
        s.next_id < u64::MAX,
        underline_of(s.document, i) is Some,
    ensures
        ({
            let after = underline_taken(s, i, underline_of(s.document, i)->0);
            document::well_formed(after.document, after.next_id)
        }),
{
    let underline = underline_of(s.document, i)->0;
    match underline {
        Underline::Heading { at, level } => {
            lemma_sibling(s.document, i, at);
            document::removing_keeps_a_document_well_formed(s.document, s.next_id, i);
            let rest = document::removed(s.document, i);
            assert(rest[at] == s.document[at]);
            let headed = rest.update(at, as_heading(s.document[at], level));
            document::lemma_same_shape(rest, headed, s.next_id);
            let t = EditorView { document: headed, ..s };
            quotes::lemma_after_fits(headed, at);
            quotes::a_new_block_keeps_documents_well_formed(
                t,
                document::subtree_end(headed, at),
                headed[at].depth,
                BlockKind::Paragraph,
                blocks::plain_title(Seq::empty()),
            );
        },
        Underline::Separator => {
            let marked = s.document.update(i, as_separator(s.document[i]));
            document::lemma_same_shape(s.document, marked, s.next_id);
            let t = EditorView { document: marked, ..s };
            quotes::lemma_after_fits(marked, i);
            quotes::a_new_block_keeps_documents_well_formed(
                t,
                document::subtree_end(marked, i),
                marked[i].depth,
                BlockKind::Paragraph,
                blocks::plain_title(Seq::empty()),
            );
        },
    }
}

proof fn lemma_cut_well_formed(nodes: Nodes, next_id: u64, p: int, i: int)
    requires
        document::well_formed(nodes, next_id),
        0 <= i < nodes.len(),
        document::previous_sibling_of(nodes, i) == Some(p),
    ensures
        document::well_formed(document::cut(nodes, p, document::subtree_end(nodes, i)), next_id),
        p <= document::subtree_end(nodes, i) <= nodes.len(),
{
    lemma_sibling(nodes, i, p);
    let end = document::subtree_end(nodes, i);
    document::removing_keeps_a_document_well_formed(nodes, next_id, i);
    let rest = document::removed(nodes, i);
    document::lemma_run_end(nodes, nodes[i].depth, i + 1);
    assert(forall|k: int| 0 <= k < i ==> rest[k] == nodes[k]);
    assert(i < rest.len() ==> rest[i] == nodes[end]);
    document::lemma_above(nodes, nodes[i].depth + 1, i);
    structure_run(rest, nodes[p].depth, p + 1, i);
    assert(document::subtree_end(rest, p) == i);
    document::removing_keeps_a_document_well_formed(rest, next_id, p);
    assert(document::removed(rest, p) =~= document::cut(nodes, p, end));
}

/// Taking a typed table row keeps a document well formed.
pub proof fn typed_rows_keep_documents_well_formed(
    s: EditorView,
    i: int,
    facts: DocumentFacts,
    now: u64,
)
    requires
        document::well_formed(s.document, s.next_id),
        0 <= i < s.document.len(),
        room_for_row(s, i),
    ensures
        ({
            let after = row_entered(s, i, facts, now).0;
            document::well_formed(after.document, after.next_id)
        }),
{
    match typed_row(s.document, i) {
        None => {},
        Some(TypedRow::Delimiter { at, table }) => {
            lemma_sibling(s.document, i, at);
            lemma_root_depth(s.document, i);
            lemma_cut_well_formed(s.document, s.next_id, at, i);
            let end = document::subtree_end(s.document, i);
            let rest = document::cut(s.document, at, end);
            let added = table_and_paragraph(s.next_id, table);
            document::lemma_run_end(s.document, s.document[i].depth, i + 1);
            assert(document::fits(rest, at, 0)) by {
                if at < rest.len() {
                    assert(rest[at] == s.document[end]);
                }
            }
            let limit = (s.next_id + 2) as u64;
            document::inserting_keeps_a_document_well_formed(
                rest,
                s.next_id,
                at,
                added,
                0,
                limit,
            );
            let begun = quotes::begun(s, facts, now);
            let shaped = EditorView {
                document: table_formed_nodes(s, at, i, table),
                next_id: limit,
                ..begun
            };
            cell_laws::rebuilding_keeps_documents_well_formed(shaped);
        },
        Some(TypedRow::Body { at }) => {
            lemma_sibling(s.document, i, at);
            document::lemma_index_from(s.document, s.document[at].id, 0);
            let synced = tables::synced_record(s, s.document[at].id);
            document::lemma_same_shape(s.document, synced.document, s.next_id);
            if let Some(table) = synced.document[at].table {
                let grown = with_typed_row(table, s.document[i].display_text);
                let begun = quotes::begun(synced, facts, now);
                document::lemma_run_end_same(
                    s.document,
                    synced.document,
                    s.document[at].depth,
                    at + 1,
                );
                lemma_absorbed(begun, at, i, grown);
            }
        },
    }
}

proof fn lemma_absorbed(s: EditorView, at: int, i: int, table: TableView)
    requires
        document::well_formed(s.document, s.next_id),
        0 <= at < i < s.document.len(),
        document::subtree_end(s.document, at) == i,
        s.next_id + 1 + tables::document_cells(row_absorbed(s, at, i, table).document)
            <= u64::MAX,
    ensures
        document::well_formed(
            table_extended(s, at, i, table).document,
            table_extended(s, at, i, table).next_id,
        ),
{
    let changed = s.document.update(at, NodeView { table: Some(table), ..s.document[at] });
    document::lemma_same_shape(s.document, changed, s.next_id);
    document::removing_keeps_a_document_well_formed(changed, s.next_id, i);
    let rest = document::removed(changed, i);
    let t = EditorView { document: rest, ..s };
    quotes::lemma_after_fits(rest, at);
    quotes::a_new_block_keeps_documents_well_formed(
        t,
        document::subtree_end(rest, at),
        rest[at].depth,
        BlockKind::Paragraph,
        blocks::plain_title(Seq::empty()),
    );
    let shaped = row_absorbed(s, at, i, table);
    cell_laws::rebuilding_keeps_documents_well_formed(shaped);
}

proof fn lemma_root_depth(nodes: Nodes, i: int)
    requires
        document::forest(nodes),
        0 <= i < nodes.len(),
        document::parent_of(nodes, i) is None,
    ensures
        nodes[i].depth == 0,
{
    document::lemma_above(nodes, nodes[i].depth, i);
    if i > 0 {
        assert(nodes[0].depth >= nodes[i].depth);
    }
}

// ---------------------------------------------------------------------------
// Running code
// ---------------------------------------------------------------------------

fn is_heading_target(nodes: &Vec<DocBlock>, i: usize) -> (r: bool)
    requires
        i < nodes@.len(),
    ensures
        r == heading_target(editor::node_views(nodes@), i as int),
{
    let n: usize = nodes.len();
    if !matches!(nodes[i].kind, BlockKind::Paragraph) || (i + 1 < n && nodes[i + 1].depth
        > nodes[i].depth) {
        return false;
    }
    let line = nodes[i].display_text.as_str();
    !text::is_blank(line) && !text::contains(line, "\n")
}

fn push_row(table: &mut TableData, row: Vec<InlineTextTree>)
    ensures
        final(table)@ == (TableView {
            rows: old(table)@.rows.push(blocks::titles(row@)),
            ..old(table)@
        }),
{
    let ghost before = table@;
    table.rows.push(row);
    assert(table@.rows =~= before.rows.push(blocks::titles(row@)));
}

fn table_nodes(table: TableData, next_id: u64) -> (r: Vec<DocBlock>)
    requires
        next_id + 1 <= u64::MAX,
    ensures
        editor::node_views(r@) == table_and_paragraph(next_id, table@),
        r@.len() == 2,
{
    let empty = InlineTextTree::plain(String::new());
    let blank = InlineTextTree::plain(String::new());
    assert(empty@ =~= blocks::plain_title(Seq::empty()));
    assert(blank@ =~= blocks::plain_title(Seq::empty()));
    let mut out: Vec<DocBlock> = Vec::new();
    out.push(fresh_block(next_id, 0, BlockKind::Table, empty, Some(table)));
    out.push(fresh_block(next_id + 1, 0, BlockKind::Paragraph, blank, None));
    assert(editor::node_views(out@) =~= table_and_paragraph(next_id, table@));
    out
}

impl Editor {
    /// Whether a line below the block at `i` can underline it as a heading.
    pub fn is_setext_heading_target(&self, i: usize) -> (r: bool)
        requires
            i < self@.document.len(),
        ensures
            r == heading_target(self@.document, i as int),
    {
        is_heading_target(&self.document, i)
    }

    fn make_heading(&mut self, at: usize, level: u8)
        requires
            at < old(self)@.document.len(),
        ensures
            final(self)@ == (EditorView {
                document: old(self)@.document.update(
                    at as int,
                    as_heading(old(self)@.document[at as int], level),
                ),
                ..old(self)@
            }),
    {
        let ghost before = self@.document;
        let pieces: usize = self.document[at].title.fragments.len();
        self.document[at].kind = BlockKind::Heading { level };
        self.document[at].selection = BlockSelection::AfterFragments(pieces);
        self.document[at].selection_reversed = false;
        self.document[at].marked = false;
        assert(self@.document =~= before.update(
            at as int,
            as_heading(before[at as int], level),
        ));
    }

    fn make_separator(&mut self, i: usize)
        requires
            i < old(self)@.document.len(),
        ensures
            final(self)@ == (EditorView {
                document: old(self)@.document.update(
                    i as int,
                    as_separator(old(self)@.document[i as int]),
                ),
                ..old(self)@
            }),
    {
        let ghost before = self@.document;
        let empty = InlineTextTree::plain(String::new());
        assert(empty@ =~= blocks::plain_title(Seq::empty()));
        let display_text = empty.text();
        self.document[i].title = empty;
        self.document[i].display_text = display_text;
        self.document[i].kind = BlockKind::Separator;
        self.document[i].selection = BlockSelection::Visible { start: 0, end: 0 };
        self.document[i].selection_reversed = false;
        self.document[i].marked = false;
        assert(self@.document =~= before.update(i as int, as_separator(before[i as int])));
    }

    /// Puts an empty paragraph in behind the block at `i` and those under it, and
    /// gives its id.
    pub fn insert_paragraph_after(&mut self, i: usize) -> (r: u64)
        requires
            i < old(self)@.document.len(),
            old(self)@.next_id < u64::MAX,
        ensures
            final(self)@ == quotes::paragraph_after(old(self)@, i as int),
            r == old(self)@.next_id,
    {
        let end: usize = find_subtree_end(&self.document, i);
        let depth: usize = self.document[i].depth;
        self.insert_paragraph(end, depth)
    }

    /// Takes an underline in which enter was pressed. The result says whether the
    /// block was one.
    pub fn try_form_setext_heading_on_newline(
        &mut self,
        entity_id: u64,
        facts: &DocumentFacts,
        now: u64,
    ) -> (r: bool)
        requires
            history::facts_ok(*facts),
            document::forest(old(self)@.document),
            old(self)@.next_id < u64::MAX,
        ensures
            final(self)@ == underline_entered(old(self)@, entity_id, *facts, now).0,
            r == underline_entered(old(self)@, entity_id, *facts, now).1,
    {
        let i: usize = match find_index(&self.document, entity_id) {
            Some(i) => i,
            None => {
                return false;
            },
        };
        let level: u8 = match BlockKind::parse_setext_underline(
            self.document[i].display_text.as_str(),
        ) {
            Some(level) => level,
            None => {
                return false;
            },
        };
        if !matches!(self.document[i].kind, BlockKind::Paragraph) {
            return false;
        }
        let target: Option<usize> = if find_parent(&self.document, i).is_some() {
            None
        } else {
            match find_previous_sibling(&self.document, i) {
                Some(p) => {
                    if is_heading_target(&self.document, p) {
                        Some(p)
                    } else {
                        None
                    }
                },
                None => None,
            }
        };
        if target.is_none() && !BlockKind::parse_separator_line(
            self.document[i].display_text.as_str(),
        ) {
            return false;
        }
        let ghost s0 = self@;
        self.begin_capture(facts, now);
        let id: u64 = match target {
            Some(at) => {
                proof {
                    lemma_sibling(s0.document, i as int, at as int);
                }
                let end: usize = find_subtree_end(&self.document, i);
                let _underline = cut_nodes(&mut self.document, i, end);
                assert(self@.document[at as int] == s0.document[at as int]);
                self.make_heading(at, level);
                self.insert_paragraph_after(at)
            },
            None => {
                self.make_separator(i);
                self.insert_paragraph_after(i)
            },
        };
        self.focus_block(id);
        self.mark_dirty();
        true
    }

    /// Takes a table row in which enter was pressed. The result says whether it
    /// formed a table or became a row of one.
    pub fn try_form_or_extend_table_on_newline(
        &mut self,
        entity_id: u64,
        facts: &DocumentFacts,
        now: u64,
    ) -> (r: bool)
        requires
            history::facts_ok(*facts),
            document::well_formed(old(self)@.document, old(self)@.next_id),
            document::index_of(old(self)@.document, entity_id) matches Some(i) ==> room_for_row(
                old(self)@,
                i,
            ),
        ensures
            document::index_of(old(self)@.document, entity_id) matches Some(i) ==> final(self)@
                == row_entered(old(self)@, i, *facts, now).0 && r == row_entered(
                old(self)@,
                i,
                *facts,
                now,
            ).1,
            document::index_of(old(self)@.document, entity_id) is None ==> final(self)@
                == old(self)@ && !r,
    {
        let i: usize = match find_index(&self.document, entity_id) {
            Some(i) => i,
            None => {
                return false;
            },
        };
        if !matches!(self.document[i].kind, BlockKind::Paragraph) || !is_table_row_candidate(
            self.document[i].display_text.as_str(),
        ) || find_parent(&self.document, i).is_some() {
            return false;
        }
        let at: usize = match find_previous_sibling(&self.document, i) {
            Some(p) => p,
            None => {
                return false;
            },
        };
        proof {
            lemma_sibling(self@.document, i as int, at as int);
        }
        if matches!(self.document[at].kind, BlockKind::Table) {
            return self.extend_table_with_typed_row(at, i, facts, now);
        }
        if !matches!(self.document[at].kind, BlockKind::Paragraph) || !is_table_row_candidate(
            self.document[at].display_text.as_str(),
        ) {
            return false;
        }
        let mut lines: Vec<String> = Vec::new();
        lines.push(self.document[at].display_text.clone());
        lines.push(self.document[i].display_text.clone());
        proof {
            assert(text::texts(lines@).subrange(0, 2) =~= seq![
                self@.document[at as int].display_text,
                self@.document[i as int].display_text,
            ]);
        }
        let table = match parse_root_table_region(lines.as_slice(), 0, 2) {
            Some(table) => table,
            None => {
                return false;
            },
        };
        self.begin_capture(facts, now);
        let id: u64 = self.next_id;
        let added = table_nodes(table, id);
        let end: usize = find_subtree_end(&self.document, i);
        let _rows = cut_nodes(&mut self.document, at, end);
        insert_nodes(&mut self.document, at, added);
        self.next_id = id + 2;
        self.rebuild_table_runtimes();
        self.focus_block(id + 1);
        self.mark_dirty();
        true
    }

    /// Takes the row at `i` into the table at `at`. The result says whether the
    /// table could take it.
    pub fn extend_table_with_typed_row(
        &mut self,
        at: usize,
        i: usize,
        facts: &DocumentFacts,
        now: u64,
    ) -> (r: bool)
        requires
            history::facts_ok(*facts),
            document::well_formed(old(self)@.document, old(self)@.next_id),
            at < i < old(self)@.document.len(),
            typed_row(old(self)@.document, i as int) == Some(TypedRow::Body { at: at as int }),
            room_for_row(old(self)@, i as int),
        ensures
            final(self)@ == row_entered(old(self)@, i as int, *facts, now).0,
            r == row_entered(old(self)@, i as int, *facts, now).1,
    {
        let ghost s0 = self@;
        let table_id: u64 = self.document[at].id;
        proof {
            lemma_index_is(s0.document, at as int, 0);
        }
        self.sync_table_record_from_runtime(table_id);
        let ghost synced = self@;
        let mut table = match &self.document[at].table {
            Some(table) => table.duplicate(),
            None => {
                return false;
            },
        };
        assert(synced.document[i as int] == s0.document[i as int]);
        let row = match parse_table_body_row(
            self.document[i].display_text.as_str(),
            table.column_count(),
        ) {
            Some(row) => row,
            None => {
                return false;
            },
        };
        push_row(&mut table, row);
        self.take_row(at, i, table, facts, now);
        true
    }

    /// Gives the table at `at` the row at `i`, which `table` already has.
    fn take_row(&mut self, at: usize, i: usize, table: TableData, facts: &DocumentFacts, now: u64)
        requires
            history::facts_ok(*facts),
            at < i < old(self)@.document.len(),
            old(self)@.next_id + 1 + tables::document_cells(
                row_absorbed(old(self)@, at as int, i as int, table@).document,
            ) <= u64::MAX,
        ensures
            final(self)@ == table_extended(
                quotes::begun(old(self)@, *facts, now),
                at as int,
                i as int,
                table@,
            ),
    {
        let ghost before = self@;
        self.begin_capture(facts, now);
        assert(self@.document == before.document && self@.next_id == before.next_id);
        assert(row_absorbed(self@, at as int, i as int, table@).document == row_absorbed(
            before,
            at as int,
            i as int,
            table@,
        ).document);
        self.absorb_row(at, i, table);
        let id: u64 = self.next_id - 1;
        self.rebuild_table_runtimes();
        self.focus_block(id);
        self.mark_dirty();
    }

    fn absorb_row(&mut self, at: usize, i: usize, table: TableData)
        requires
            at < i < old(self)@.document.len(),
            old(self)@.next_id < u64::MAX,
        ensures
            final(self)@ == row_absorbed(old(self)@, at as int, i as int, table@),
    {
        let ghost before = self@.document;
        self.document[at].table = Some(table);
        assert(self@.document =~= before.update(
            at as int,
            NodeView { table: Some(table@), ..before[at as int] },
        ));
        let end: usize = find_subtree_end(&self.document, i);
        let _row = cut_nodes(&mut self.document, i, end);
        let _paragraph: u64 = self.insert_paragraph_after(at);
    }

    /// Puts an empty paragraph in behind the block at `i`, if the caret could not
    /// get past it.
    pub fn ensure_trailing_paragraph_after_structural(&mut self, i: usize)
        requires
            i < old(self)@.document.len(),
            old(self)@.next_id < u64::MAX,
        ensures
            final(self)@ == trailing_ensured(old(self)@, i as int),
    {
        let block = &self.document[i];
        let stranding = block.kind.is_atomic_structural() || block.kind.is_quote_container()
            || block.kind.is_footnote_definition() || block.standalone_image;
        if !stranding {
            return;
        }
        let end: usize = find_subtree_end(&self.document, i);
        if end < self.document.len() && self.document[end].depth == self.document[i].depth {
            return;
        }
        let _trailing: u64 = self.insert_paragraph_after(i);
    }

    /// Puts a block of the fitting kind in below the one at `i`, with the text
    /// behind the caret.
    pub fn split_line(&mut self, i: usize, trailing: InlineTextTree)
        requires
            i < old(self)@.document.len(),
            old(self)@.next_id < u64::MAX,
        ensures
            final(self)@ == line_split(old(self)@, i as int, trailing@),
    {
        let ghost s0 = self@;
        let end: usize = find_subtree_end(&self.document, i);
        let depth: usize = self.document[i].depth;
        let kind = self.document[i].kind.newline_sibling_kind();
        let id: u64 = self.insert_fresh(end, depth, kind, trailing);
        if self.view_mode == ViewMode::Source {
            let ghost added = self@.document;
            assert(added.len() == s0.document.len() + 1);
            self.document[end].raw_text_editing = true;
            assert(self@.document =~= added.update(
                end as int,
                NodeView { raw_text_editing: true, ..added[end as int] },
            ));
        }
        self.focus_block(id);
        self.mark_dirty();
    }
}

/// The state after enter in an underline, and whether it was taken.
pub open spec fn underline_entered(
    s: EditorView,
    id: u64,
    facts: DocumentFacts,
    now: u64,
) -> (EditorView, bool) {
    match document::index_of(s.document, id) {
        None => (s, false),
        Some(i) => match underline_of(s.document, i) {
            None => (s, false),
            Some(underline) => (
                underline_taken(quotes::begun(s, facts, now), i, underline),
                true,
            ),
        },
    }
}

/// A block is found by its id.
pub proof fn lemma_index_is(nodes: Nodes, i: int, from: int)
    requires
        document::distinct_ids(nodes),
        0 <= from <= i < nodes.len(),
    ensures
        document::index_from(nodes, nodes[i].id, from) == Some(i),
    decreases i - from,
{
    if from < i {
        assert(nodes[from].id != nodes[i].id);
        lemma_index_is(nodes, i, from + 1);
    }
}

} // verus!
