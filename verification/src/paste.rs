//! Pasting several lines of text.

use crate::blocks;
use crate::blocks::{Block, BlockKind, BlockView, InlineTextTree, Title};
use crate::cell_laws;
use crate::document;
use crate::document::{cut_nodes, deepen_nodes, find_subtree_end, flatten_blocks, insert_nodes};
use crate::editor;
use crate::editor::{
    BlockSelection, CellView, DocBlock, Editor, EditorView, NodeView, Nodes, RuntimeView,
    TableCell, TableRuntime,
};
use crate::focus;
use crate::history;
use crate::history::DocumentFacts;
use crate::import_model;
use crate::kinds;
use crate::quotes;
use crate::restore;
use crate::structure;
use crate::table_edit;
use crate::tables;
use crate::text;
use crate::text::is_blank;
use vstd::prelude::*;

verus! {

// ---------------------------------------------------------------------------
// Titles
// ---------------------------------------------------------------------------

/// How the new text of a block shows: without its markup, and with the caret in it.
/// `rest` is the text without the marks at its start, if it has such.
#[derive(Debug, PartialEq, Eq)]
pub struct ShownText {
    pub visible_text: String,
    pub cursor: usize,
    pub rest: InlineTextTree,
}

/// What the marks at the start of a paragraph's text make of it: its new kind, how
/// many characters the marks are, and where a caret at `cursor` goes.
pub open spec fn shortcut_taken(
    kind: BlockKind<Seq<char>>,
    visible_text: Seq<char>,
    cursor: int,
) -> Option<(BlockKind<Seq<char>>, nat, int)> {
    if kind is Paragraph {
        match kinds::markdown_shortcut(visible_text) {
            Some(hit) => Some(
                (
                    hit.0,
                    hit.1,
                    if cursor < hit.1 {
                        0
                    } else {
                        cursor - hit.1
                    },
                ),
            ),
            None => None,
        }
    } else {
        None
    }
}

/// A block with another kind, title and caret. Marks at the start of a paragraph's
/// text change its kind.
pub open spec fn reshaped(
    node: NodeView,
    kind: BlockKind<Seq<char>>,
    title: Title,
    selection: BlockSelection,
    shown: Option<ShownText>,
) -> NodeView {
    let hit = match shown {
        Some(text) => shortcut_taken(kind, text.visible_text@, text.cursor as int),
        None => None,
    };
    match hit {
        Some(taken) => structure::with_caret(
            NodeView { kind: taken.0, ..structure::retitled(node, shown->0.rest@) },
            BlockSelection::CleanOffset(taken.2 as usize),
        ),
        None => structure::with_caret(
            NodeView { kind, ..structure::retitled(node, title) },
            selection,
        ),
    }
}

/// A block with the caret behind another title.
pub open spec fn ending(node: NodeView, title: Title, shown: ShownText) -> NodeView {
    reshaped(
        node,
        node.kind,
        title,
        BlockSelection::AfterFragments(title.len() as usize),
        Some(shown),
    )
}

/// Gives the block at `i` another kind, title and caret.
pub fn reshape_node(
    nodes: &mut Vec<DocBlock>,
    i: usize,
    kind: BlockKind<String>,
    title: InlineTextTree,
    selection: BlockSelection,
    shown: Option<&ShownText>,
)
    requires
        i < old(nodes)@.len(),
    ensures
        editor::node_views(final(nodes)@) == editor::node_views(old(nodes)@).update(
            i as int,
            reshaped(
                editor::node_views(old(nodes)@)[i as int],
                kind@,
                title@,
                selection,
                deref_shown(shown),
            ),
        ),
        final(nodes)@.len() == old(nodes)@.len(),
{
    let ghost before = editor::node_views(nodes@);
    let ghost raw = nodes@;
    let ghost want = reshaped(before[i as int], kind@, title@, selection, deref_shown(shown));
    let hit = match shown {
        Some(text) => {
            match Editor::apply_paragraph_shortcuts(&kind, text.visible_text.as_str(), text.cursor) {
                Some((taken, _marks, caret)) => Some((taken, text.rest.duplicate(), caret)),
                None => None,
            }
        },
        None => None,
    };
    let (kind, title, selection) = match hit {
        Some((kind, title, caret)) => (kind, title, BlockSelection::CleanOffset(caret)),
        None => (kind, title, selection),
    };
    let display_text = title.text();
    nodes[i].kind = kind;
    nodes[i].title = title;
    nodes[i].display_text = display_text;
    nodes[i].selection = selection;
    nodes[i].selection_reversed = false;
    nodes[i].marked = false;
    assert forall|k: int| 0 <= k < before.len() implies editor::node_views(nodes@)[k]
        == before.update(i as int, want)[k] by {
        assert(before[k] == raw[k]@);
    }
    assert(editor::node_views(nodes@) =~= before.update(i as int, want));
}

/// The text that an optional reference leads to.
pub open spec fn deref_shown(shown: Option<&ShownText>) -> Option<ShownText> {
    match shown {
        Some(text) => Some(*text),
        None => None,
    }
}

// ---------------------------------------------------------------------------
// Cells
// ---------------------------------------------------------------------------

/// A cell with more text behind its own and the caret at the end, if it is the one
/// with this id.
pub open spec fn cell_extended(cell: CellView, id: u64, content: Title) -> CellView {
    if cell.id == id {
        let title = cell.title + content;
        CellView {
            title,
            display_text: blocks::title_text(title),
            selection: BlockSelection::AfterFragments(title.len() as usize),
            selection_reversed: false,
            marked: false,
            ..cell
        }
    } else {
        cell
    }
}

/// A row with more text in the cell with this id.
pub open spec fn row_extended(cells: Seq<CellView>, id: u64, content: Title) -> Seq<CellView> {
    Seq::new(cells.len(), |k: int| cell_extended(cells[k], id, content))
}

/// A table with more text in the cell with this id.
pub open spec fn runtime_extended(runtime: RuntimeView, id: u64, content: Title) -> RuntimeView {
    RuntimeView {
        header: row_extended(runtime.header, id, content),
        rows: Seq::new(runtime.rows.len(), |k: int| row_extended(runtime.rows[k], id, content)),
    }
}

fn extend_row(cells: &mut Vec<TableCell>, id: u64, content: &InlineTextTree)
    ensures
        editor::cell_views(final(cells)@) == row_extended(
            editor::cell_views(old(cells)@),
            id,
            content@,
        ),
{
    let ghost before = editor::cell_views(cells@);
    let mut k: usize = 0;
    while k < cells.len()
        invariant
            k <= cells@.len(),
            cells@.len() == before.len(),
            forall|j: int|
                0 <= j < k ==> (#[trigger] cells@[j])@ == cell_extended(before[j], id, content@),
            forall|j: int| k <= j < before.len() ==> (#[trigger] cells@[j])@ == before[j],
        decreases cells@.len() - k,
    {
        assert(cells@[k as int]@ == before[k as int]);
        if cells[k].id == id {
            let mut title = cells[k].title.duplicate();
            title.append_tree(content.duplicate());
            let display_text = title.text();
            let pieces: usize = title.fragments.len();
            cells[k].title = title;
            cells[k].display_text = display_text;
            cells[k].selection = BlockSelection::AfterFragments(pieces);
            cells[k].selection_reversed = false;
            cells[k].marked = false;
        }
        k = k + 1;
    }
    assert(editor::cell_views(cells@) =~= row_extended(before, id, content@));
}

fn extend_runtime(runtime: &mut TableRuntime, id: u64, content: &InlineTextTree)
    ensures
        final(runtime)@ == runtime_extended(old(runtime)@, id, content@),
{
    let ghost before = runtime@;
    extend_row(&mut runtime.header, id, content);
    let ghost header1 = runtime@.header;
    let mut k: usize = 0;
    while k < runtime.rows.len()
        invariant
            k <= runtime.rows@.len(),
            runtime.rows@.len() == before.rows.len(),
            runtime@.header == header1,
            forall|j: int|
                0 <= j < k ==> editor::cell_views((#[trigger] runtime.rows@[j])@) == row_extended(
                    before.rows[j],
                    id,
                    content@,
                ),
            forall|j: int|
                k <= j < before.rows.len() ==> editor::cell_views((#[trigger] runtime.rows@[j])@)
                    == before.rows[j],
        decreases runtime.rows@.len() - k,
    {
        assert(editor::cell_views(runtime.rows@[k as int]@) == before.rows[k as int]);
        extend_row(&mut runtime.rows[k], id, content);
        k = k + 1;
    }
    assert(runtime@.rows =~= runtime_extended(before, id, content@).rows);
}

// ---------------------------------------------------------------------------
// What is pasted
// ---------------------------------------------------------------------------

/// The paragraphs of plain lines; blank lines only part them.
pub open spec fn line_paragraphs(lines: Seq<Seq<char>>) -> Seq<BlockView>
    decreases lines.len(),
{
    if lines.len() == 0 {
        Seq::empty()
    } else if text::blank(lines.last()) {
        line_paragraphs(lines.drop_last())
    } else {
        line_paragraphs(lines.drop_last()).push(
            blocks::leaf(BlockKind::Paragraph, blocks::markdown_title(lines.last())),
        )
    }
}

/// The blocks of pasted plain lines: a paragraph for each line that is not blank,
/// and an empty one where all of them are.
pub open spec fn plain_blocks(lines: Seq<Seq<char>>) -> Seq<BlockView> {
    let items = line_paragraphs(lines);
    if items.len() == 0 && lines.len() > 0 {
        seq![restore::empty_paragraph()]
    } else {
        items
    }
}

/// A paste of several lines into a block. `leading` and `trailing` are the text
/// before and behind the caret; the flags next to them say whether they show no
/// text.
#[derive(Debug, PartialEq, Eq)]
pub struct MultilinePaste {
    pub leading: InlineTextTree,
    pub leading_blank: bool,
    pub lines: Vec<String>,
    pub trailing: InlineTextTree,
    pub trailing_blank: bool,
    /// Whether the lines are plain text, each of them a paragraph.
    pub split_physical_lines: bool,
    /// The text that the block keeps, as it shows.
    pub shown: ShownText,
}

/// The text that the block keeps: what stood before the caret and, of plain
/// lines, the first one.
pub open spec fn kept_title(paste: MultilinePaste) -> Title {
    if paste.split_physical_lines {
        paste.leading@ + blocks::markdown_title(paste.lines@[0]@)
    } else {
        paste.leading@
    }
}

/// The lines that become blocks of their own.
pub open spec fn tail_lines(paste: MultilinePaste) -> Seq<Seq<char>> {
    if paste.split_physical_lines {
        text::texts(paste.lines@).skip(1)
    } else {
        text::texts(paste.lines@)
    }
}

/// The blocks that come behind the block pasted into.
pub open spec fn pasted_blocks(paste: MultilinePaste, semantic: Seq<Seq<char>>) -> Seq<BlockView> {
    let items = if paste.split_physical_lines {
        plain_blocks(tail_lines(paste))
    } else {
        import_model::blocks_of(tail_lines(paste), true, semantic)
    };
    if !paste.split_physical_lines && !paste.trailing_blank {
        items.push(restore::empty_paragraph())
    } else {
        items
    }
}

/// The state with the pasted blocks in and the cells of their tables made.
pub open spec fn blocks_pasted(s: EditorView, i: int, items: Seq<BlockView>) -> EditorView {
    tables::tables_rebuilt(
        EditorView {
            document: pasted_nodes(s, i, items),
            next_id: (s.next_id + document::blocks_size(items)) as u64,
            ..s
        },
    )
}

/// The document with the pasted blocks behind the one at `i`.
pub open spec fn pasted_nodes(s: EditorView, i: int, items: Seq<BlockView>) -> Nodes {
    document::inserted_after(
        s.document,
        i,
        document::nodes_of(items, 0, s.next_id as int),
    )
}

/// The cell of a table that the caret goes into behind a pasted table.
pub open spec fn last_cell(runtime: RuntimeView) -> Option<u64> {
    if runtime.rows.len() > 0 && runtime.rows.last().len() > 0 {
        Some(runtime.rows.last().last().id)
    } else if runtime.header.len() > 0 {
        Some(runtime.header.last().id)
    } else {
        None
    }
}

/// Where the last of the pasted blocks that lie at the level of the block at `i`
/// comes to stand.
pub open spec fn last_pasted(s: EditorView, i: int, items: Seq<BlockView>) -> int {
    document::subtree_end(s.document, i) + document::blocks_size(items.drop_last())
}

/// The state with the text behind the caret put at the end of what was pasted, and
/// the caret at the end of that. There is none where a pasted table has no cells.
pub open spec fn tail_joined(
    s: EditorView,
    last: int,
    end: int,
    trailing: Title,
) -> Option<EditorView> {
    let node = s.document[last];
    if node.kind is Table {
        match node.runtime {
            None => None,
            Some(runtime) => match last_cell(runtime) {
                None => None,
                Some(cell) => {
                    let extended = NodeView {
                        runtime: Some(runtime_extended(runtime, cell, trailing)),
                        ..node
                    };
                    Some(
                        focus::focused(
                            EditorView {
                                document: s.document.update(
                                    last,
                                    tables::record_synced(extended),
                                ),
                                ..s
                            },
                            cell,
                        ),
                    )
                },
            },
        }
    } else {
        let target = s.document[end - 1];
        let title = target.title + trailing;
        Some(
            focus::focused(
                EditorView {
                    document: s.document.update(
                        end - 1,
                        structure::with_caret(
                            structure::retitled(target, title),
                            BlockSelection::AfterFragments(title.len() as usize),
                        ),
                    ),
                    ..s
                },
                target.id,
            ),
        )
    }
}

/// The state without the block that was pasted into, if it kept no text.
pub open spec fn emptied_dropped(s: EditorView, i: int, paste: MultilinePaste) -> EditorView {
    if !paste.split_physical_lines && paste.leading_blank {
        EditorView { document: document::removed(s.document, i), ..s }
    } else {
        s
    }
}

/// What is left to do after a paste.
#[derive(Clone, Copy, Debug, PartialEq, Eq, Structural)]
pub struct PasteOutcome {
    /// Whether anything was pasted.
    pub pasted: bool,
    /// Whether quotes need to be read anew.
    pub normalize_quotes: bool,
    /// Whether the last block of the document may need a paragraph below it.
    pub trailing_paragraph: bool,
}

/// The outcome of a paste that did nothing.
pub open spec fn nothing_pasted() -> PasteOutcome {
    PasteOutcome { pasted: false, normalize_quotes: false, trailing_paragraph: false }
}

/// The state after a paste into the block at `i`, and what is left to do.
pub open spec fn pasted(
    s: EditorView,
    i: int,
    paste: MultilinePaste,
    semantic: Seq<Seq<char>>,
    facts: DocumentFacts,
    now: u64,
) -> (EditorView, PasteOutcome) {
    if paste.lines@.len() == 0 {
        (s, nothing_pasted())
    } else {
        let related = quotes::quote_related(s, i);
        let ready = quotes::begun(s, facts, now);
        if tail_lines(paste).len() == 0 {
            let titled = EditorView {
                document: s.document.update(
                    i,
                    ending(s.document[i], kept_title(paste) + paste.trailing@, paste.shown),
                ),
                ..ready
            };
            (
                focus::dirtied(focus::focused(titled, s.document[i].id)),
                PasteOutcome {
                    pasted: true,
                    normalize_quotes: related,
                    trailing_paragraph: false,
                },
            )
        } else {
            let titled = EditorView {
                document: s.document.update(
                    i,
                    ending(s.document[i], kept_title(paste), paste.shown),
                ),
                ..ready
            };
            tail_pasted(titled, i, paste, semantic, related)
        }
    }
}

/// The state after the lines that become blocks of their own were pasted behind the
/// block at `i`, and what is left to do.
#[verifier::opaque]
pub open spec fn tail_pasted(
    s: EditorView,
    i: int,
    paste: MultilinePaste,
    semantic: Seq<Seq<char>>,
    related: bool,
) -> (EditorView, PasteOutcome) {
    let items = pasted_blocks(paste, semantic);
    let added = blocks_pasted(s, i, items);
    let end = document::subtree_end(s.document, i) + document::blocks_size(items);
    let joined = if items.len() == 0 {
        Some(added)
    } else {
        tail_joined(added, last_pasted(s, i, items), end, paste.trailing@)
    };
    match joined {
        None => (added, nothing_pasted()),
        Some(shown) => (
            focus::dirtied(emptied_dropped(shown, i, paste)),
            PasteOutcome {
                pasted: true,
                normalize_quotes: related,
                trailing_paragraph: items.len() > 0 && s.document[i].depth == 0 && end
                    == added.document.len(),
            },
        ),
    }
}

/// Whether the ids last for a paste.
pub open spec fn room_to_paste(
    s: EditorView,
    i: int,
    paste: MultilinePaste,
    semantic: Seq<Seq<char>>,
) -> bool {
    paste.lines@.len() > 0 && tail_lines(paste).len() > 0 ==> {
        let items = pasted_blocks(paste, semantic);
        let titled = EditorView {
            document: s.document.update(
                i,
                ending(s.document[i], kept_title(paste), paste.shown),
            ),
            ..s
        };
        &&& s.next_id + document::blocks_size(items) + tables::document_cells(
            pasted_nodes(titled, i, items),
        ) <= u64::MAX
        &&& s.document.len() + document::blocks_size(items) <= usize::MAX
    }
}

// ---------------------------------------------------------------------------
// Laws
// ---------------------------------------------------------------------------

proof fn lemma_pasted_nodes(s: EditorView, i: int, items: Seq<BlockView>)
    requires
        document::well_formed(s.document, s.next_id),
        0 <= i < s.document.len(),
        s.next_id + document::blocks_size(items) <= u64::MAX,
    ensures
        document::well_formed(
            pasted_nodes(s, i, items),
            (s.next_id + document::blocks_size(items)) as u64,
        ),
        pasted_nodes(s, i, items).len() == s.document.len() + document::blocks_size(items),
        i < document::subtree_end(s.document, i) <= s.document.len(),
{
    let added = document::nodes_of(items, 0, s.next_id as int);
    let depth = s.document[i].depth;
    let deeper = document::deepened(added, depth);
    let limit = (s.next_id + document::blocks_size(items)) as u64;
    document::lemma_nodes_shape(items, 0, s.next_id as int);
    document::lemma_run_end(s.document, depth, i + 1);
    quotes::lemma_after_fits(s.document, i);
    assert(document::graft(deeper, depth, s.next_id, limit)) by {
        assert forall|k: int| 0 < k < deeper.len() implies #[trigger] document::depth_step(
            deeper,
            k,
        ) by {
            assert(document::depth_step(added, k));
        }
        assert forall|k: int| 0 <= k < deeper.len() implies (#[trigger] deeper[k]).depth >= depth
            && s.next_id <= deeper[k].id < limit by {
            assert(added[k].id == s.next_id + k);
        }
        assert forall|a: int, b: int| 0 <= a < b < deeper.len() implies (#[trigger] deeper[a]).id
            != (#[trigger] deeper[b]).id by {
            assert(added[a].id == s.next_id + a);
            assert(added[b].id == s.next_id + b);
        }
    }
    document::inserting_keeps_a_document_well_formed(
        s.document,
        s.next_id,
        document::subtree_end(s.document, i),
        deeper,
        depth,
        limit,
    );
}

/// A paste keeps a document well formed.
pub proof fn pasting_keeps_documents_well_formed(
    s: EditorView,
    i: int,
    paste: MultilinePaste,
    semantic: Seq<Seq<char>>,
    facts: DocumentFacts,
    now: u64,
)
    requires
        document::well_formed(s.document, s.next_id),
        0 <= i < s.document.len(),
        room_to_paste(s, i, paste, semantic),
    ensures
        ({
            let after = pasted(s, i, paste, semantic, facts, now).0;
            document::well_formed(after.document, after.next_id)
        }),
{
    if paste.lines@.len() > 0 {
        if tail_lines(paste).len() == 0 {
            let titled = s.document.update(
                i,
                ending(s.document[i], kept_title(paste) + paste.trailing@, paste.shown),
            );
            document::lemma_same_shape(s.document, titled, s.next_id);
        } else {
            let ready = quotes::begun(s, facts, now);
            let titled = EditorView {
                document: s.document.update(
                    i,
                    ending(s.document[i], kept_title(paste), paste.shown),
                ),
                ..ready
            };
            document::lemma_same_shape(s.document, titled.document, s.next_id);
            lemma_tail_pasted(titled, i, paste, semantic, quotes::quote_related(s, i));
        }
    }
}

proof fn lemma_last_smaller(items: Seq<BlockView>)
    requires
        items.len() > 0,
    ensures
        document::blocks_size(items.drop_last()) < document::blocks_size(items),
{
    assert(document::block_size(items.last()) > 0);
}

proof fn lemma_tail_pasted(
    s: EditorView,
    i: int,
    paste: MultilinePaste,
    semantic: Seq<Seq<char>>,
    related: bool,
)
    requires
        document::well_formed(s.document, s.next_id),
        0 <= i < s.document.len(),
        s.next_id + document::blocks_size(pasted_blocks(paste, semantic))
            + tables::document_cells(pasted_nodes(s, i, pasted_blocks(paste, semantic)))
            <= u64::MAX,
    ensures
        ({
            let after = tail_pasted(s, i, paste, semantic, related).0;
            document::well_formed(after.document, after.next_id)
        }),
{
    reveal(tail_pasted);
    let items = pasted_blocks(paste, semantic);
    lemma_pasted_nodes(s, i, items);
    let plain = EditorView {
        document: pasted_nodes(s, i, items),
        next_id: (s.next_id + document::blocks_size(items)) as u64,
        ..s
    };
    cell_laws::rebuilding_keeps_documents_well_formed(plain);
    let added = blocks_pasted(s, i, items);
    let end = document::subtree_end(s.document, i) + document::blocks_size(items);
    if items.len() > 0 {
        lemma_last_smaller(items);
        let last = last_pasted(s, i, items);
        assert(0 <= last < end <= added.document.len());
        if let Some(shown) = tail_joined(added, last, end, paste.trailing@) {
            assert(document::same_shape(added.document, shown.document));
            document::lemma_same_shape(added.document, shown.document, added.next_id);
            document::removing_keeps_a_document_well_formed(shown.document, added.next_id, i);
        }
    } else {
        document::removing_keeps_a_document_well_formed(added.document, added.next_id, i);
    }
}

// ---------------------------------------------------------------------------
// Running code
// ---------------------------------------------------------------------------

/// The blocks of pasted plain lines from `from` on.
pub fn build_plain_paste_blocks_from_lines(lines: &[String], from: usize) -> (r: Vec<Block>)
    requires
        from <= lines@.len(),
    ensures
        blocks::block_views(r@) == plain_blocks(text::texts(lines@).skip(from as int)),
{
    let ghost all = text::texts(lines@).skip(from as int);
    let mut out: Vec<Block> = Vec::new();
    let mut i: usize = from;
    let n: usize = lines.len();
    proof {
        assert(all.take(0) =~= Seq::empty());
        assert(blocks::block_views(out@) =~= Seq::empty());
    }
    while i < n
        invariant
            n == lines@.len(),
            from <= i <= n,
            all == text::texts(lines@).skip(from as int),
            blocks::block_views(out@) == line_paragraphs(all.take(i - from)),
        decreases n - i,
    {
        proof {
            assert(all.take(i - from + 1).drop_last() =~= all.take(i - from));
            assert(all.take(i - from + 1).last() == lines@[i as int]@);
        }
        if !is_blank(lines[i].as_str()) {
            let ghost before = out@;
            let block = Block::leaf(
                BlockKind::Paragraph,
                InlineTextTree::from_markdown(lines[i].clone()),
            );
            out.push(block);
            assert(blocks::block_views(out@) =~= blocks::block_views(before).push(block@));
        }
        i = i + 1;
    }
    assert(all.take(n - from) =~= all);
    assert(blocks::block_views(out@).len() == out@.len());
    if out.len() == 0 && n > from {
        let block = Block::leaf(BlockKind::Paragraph, InlineTextTree::plain(String::new()));
        assert(block@.title =~= blocks::plain_title(Seq::empty()));
        out.push(block);
        assert(blocks::block_views(out@) =~= seq![restore::empty_paragraph()]);
    }
    out
}

fn find_last_cell(runtime: &TableRuntime) -> (r: Option<u64>)
    ensures
        r == last_cell(runtime@),
{
    let n: usize = runtime.rows.len();
    if n > 0 && runtime.rows[n - 1].len() > 0 {
        let m: usize = runtime.rows[n - 1].len();
        Some(runtime.rows[n - 1][m - 1].id)
    } else if runtime.header.len() > 0 {
        let m: usize = runtime.header.len();
        Some(runtime.header[m - 1].id)
    } else {
        None
    }
}

fn measure_block(block: &Block) -> (r: usize)
    requires
        document::block_size(block@) <= usize::MAX,
    ensures
        r == document::block_size(block@),
    decreases *block,
{
    proof {
        assert(block@.children == blocks::block_views(block.children@));
        assert(block@.children.take(block.children@.len() as int) =~= block@.children);
    }
    measure_blocks(&block.children, block.children.len()) + 1
}

/// How many blocks the first ones of these and those under them are.
fn measure_blocks(items: &Vec<Block>, count: usize) -> (r: usize)
    requires
        count <= items@.len(),
        document::blocks_size(blocks::block_views(items@)) <= usize::MAX,
    ensures
        r == document::blocks_size(blocks::block_views(items@).take(count as int)),
    decreases *items,
{
    let ghost views = blocks::block_views(items@);
    let mut sum: usize = 0;
    let mut k: usize = 0;
    assert(views.take(0) =~= Seq::empty());
    while k < count
        invariant
            views == blocks::block_views(items@),
            document::blocks_size(views) <= usize::MAX,
            k <= count <= items@.len(),
            sum == document::blocks_size(views.take(k as int)),
        decreases count - k,
    {
        proof {
            assert(views.take(k + 1).drop_last() =~= views.take(k as int));
            assert(views.take(k + 1).last() == items@[k as int]@);
            document::lemma_blocks_size_monotonic(views, k + 1);
        }
        sum = sum + measure_block(&items[k]);
        k = k + 1;
    }
    sum
}

impl Editor {
    /// What the marks at the start of a paragraph's text make of it: its new kind,
    /// how many characters the marks are, and where the caret goes.
    pub fn apply_paragraph_shortcuts(kind: &BlockKind<String>, visible_text: &str, cursor: usize) -> (r:
        Option<(BlockKind<String>, usize, usize)>)
        ensures
            r matches Some(hit) ==> shortcut_taken(kind@, visible_text@, cursor as int) == Some(
                (hit.0@, hit.1 as nat, hit.2 as int),
            ),
            r is None ==> shortcut_taken(kind@, visible_text@, cursor as int) is None,
    {
        if !matches!(kind, BlockKind::Paragraph) {
            return None;
        }
        match BlockKind::detect_markdown_shortcut(visible_text) {
            Some((detected, prefix)) => {
                let caret: usize = if cursor < prefix {
                    0
                } else {
                    cursor - prefix
                };
                Some((detected, prefix, caret))
            },
            None => None,
        }
    }

    /// Puts blocks in behind the one at `i`, at its level, and makes the cells of
    /// all tables.
    pub fn insert_blocks_after(&mut self, i: usize, items: &Vec<Block>)
        requires
            i < old(self)@.document.len(),
            document::forest(old(self)@.document),
            old(self)@.next_id + document::blocks_size(blocks::block_views(items@))
                + tables::document_cells(
                pasted_nodes(old(self)@, i as int, blocks::block_views(items@)),
            ) <= u64::MAX,
            old(self)@.document.len() + document::blocks_size(blocks::block_views(items@))
                <= usize::MAX,
        ensures
            final(self)@ == blocks_pasted(old(self)@, i as int, blocks::block_views(items@)),
    {
        let ghost views = blocks::block_views(items@);
        let ghost s0 = self@;
        let (nodes, next) = flatten_blocks(items, self.next_id);
        let depth: usize = self.document[i].depth;
        proof {
            document::imported_documents_are_well_formed(views, s0.next_id);
            document::lemma_nodes_len(views, 0, s0.next_id as int);
            document::lemma_depth_bound(s0.document, i as int);
            assert forall|k: int| 0 <= k < nodes@.len() implies (#[trigger] nodes@[k]).depth
                + depth <= usize::MAX by {
                document::lemma_depth_bound(editor::node_views(nodes@), k);
                assert(editor::node_views(nodes@)[k] == nodes@[k]@);
            }
        }
        let deeper = deepen_nodes(nodes, depth);
        let end: usize = find_subtree_end(&self.document, i);
        insert_nodes(&mut self.document, end, deeper);
        self.next_id = next;
        self.rebuild_table_runtimes();
    }

    fn join_tail(&mut self, last: usize, end: usize, trailing: &InlineTextTree) -> (r: bool)
        requires
            last < end <= old(self)@.document.len(),
        ensures
            match tail_joined(old(self)@, last as int, end as int, trailing@) {
                Some(after) => final(self)@ == after && r,
                None => final(self)@ == old(self)@ && !r,
            },
    {
        let ghost before = self@.document;
        if matches!(self.document[last].kind, BlockKind::Table) {
            let cell: u64 = match &self.document[last].runtime {
                Some(runtime) => match find_last_cell(runtime) {
                    Some(cell) => cell,
                    None => {
                        return false;
                    },
                },
                None => {
                    return false;
                },
            };
            extend_table_cell(&mut self.document, last, cell, trailing);
            self.focus_block(cell);
            return true;
        }
        let id: u64 = self.document[end - 1].id;
        let mut title = self.document[end - 1].title.duplicate();
        title.append_tree(trailing.duplicate());
        let pieces: usize = title.fragments.len();
        crate::structure::retitle_node(
            &mut self.document,
            end - 1,
            title,
            BlockSelection::AfterFragments(pieces),
        );
        self.focus_block(id);
        true
    }

    /// Gives the block at `i` another text, with the caret behind it. Marks at the
    /// start of a paragraph's text change its kind.
    pub fn set_block_title(&mut self, i: usize, title: InlineTextTree, shown: &ShownText)
        requires
            i < old(self)@.document.len(),
        ensures
            final(self)@ == (EditorView {
                document: old(self)@.document.update(
                    i as int,
                    ending(old(self)@.document[i as int], title@, *shown),
                ),
                ..old(self)@
            }),
    {
        let kind = self.document[i].kind.duplicate();
        let pieces: usize = title.fragments.len();
        reshape_node(
            &mut self.document,
            i,
            kind,
            title,
            BlockSelection::AfterFragments(pieces),
            Some(shown),
        );
    }

    /// Pastes several lines into the block at `i`.
    pub fn paste_multiline(
        &mut self,
        i: usize,
        paste: &MultilinePaste,
        semantic: &[String],
        facts: &DocumentFacts,
        now: u64,
    ) -> (r: PasteOutcome)
        requires
            i < old(self)@.document.len(),
            history::facts_ok(*facts),
            document::well_formed(old(self)@.document, old(self)@.next_id),
            room_to_paste(old(self)@, i as int, *paste, text::texts(semantic@)),
        ensures
            final(self)@ == pasted(
                old(self)@,
                i as int,
                *paste,
                text::texts(semantic@),
                *facts,
                now,
            ).0,
            r == pasted(old(self)@, i as int, *paste, text::texts(semantic@), *facts, now).1,
    {
        if paste.lines.len() == 0 {
            return PasteOutcome {
                pasted: false,
                normalize_quotes: false,
                trailing_paragraph: false,
            };
        }
        let ghost s0 = self@;
        let related = self.block_is_quote_structure_related(i);
        self.begin_capture(facts, now);
        let mut title = paste.leading.duplicate();
        if paste.split_physical_lines {
            title.append_tree(InlineTextTree::from_markdown(paste.lines[0].clone()));
        }
        assert(title@ == kept_title(*paste));
        if paste.split_physical_lines && paste.lines.len() == 1 {
            assert(tail_lines(*paste).len() == 0);
            title.append_tree(paste.trailing.duplicate());
            let id: u64 = self.document[i].id;
            assert(id == s0.document[i as int].id);
            self.set_block_title(i, title, &paste.shown);
            self.focus_block(id);
            self.mark_dirty();
            return PasteOutcome {
                pasted: true,
                normalize_quotes: related,
                trailing_paragraph: false,
            };
        }
        assert(tail_lines(*paste).len() > 0);
        self.set_block_title(i, title, &paste.shown);
        proof {
            document::lemma_same_shape(s0.document, self@.document, s0.next_id);
        }
        self.paste_tail(i, paste, semantic, related)
    }

    fn paste_tail(
        &mut self,
        i: usize,
        paste: &MultilinePaste,
        semantic: &[String],
        related: bool,
    ) -> (r: PasteOutcome)
        requires
            i < old(self)@.document.len(),
            paste.lines@.len() > 0,
            document::well_formed(old(self)@.document, old(self)@.next_id),
            ({
                let items = pasted_blocks(*paste, text::texts(semantic@));
                &&& old(self)@.next_id + document::blocks_size(items) + tables::document_cells(
                    pasted_nodes(old(self)@, i as int, items),
                ) <= u64::MAX
                &&& old(self)@.document.len() + document::blocks_size(items) <= usize::MAX
            }),
        ensures
            final(self)@ == tail_pasted(
                old(self)@,
                i as int,
                *paste,
                text::texts(semantic@),
                related,
            ).0,
            r == tail_pasted(old(self)@, i as int, *paste, text::texts(semantic@), related).1,
    {
        reveal(tail_pasted);
        let items = pasted_items(paste, semantic);
        let ghost views = blocks::block_views(items@);
        proof {
            let s0 = self@;
            lemma_pasted_nodes(s0, i as int, views);
            let plain = EditorView {
                document: pasted_nodes(s0, i as int, views),
                next_id: (s0.next_id + document::blocks_size(views)) as u64,
                ..s0
            };
            table_edit::rebuilding_keeps_the_outline(plain);
            assert(blocks_pasted(s0, i as int, views).document.len() == plain.document.len());
        }
        let at: usize = find_subtree_end(&self.document, i);
        let root = self.document[i].depth == 0;
        self.insert_blocks_after(i, &items);
        let n: usize = self.document.len();
        let mut ends_document = false;
        if items.len() > 0 {
            let count: usize = items.len();
            proof {
                assert(views.take(count - 1) =~= views.drop_last());
                assert(views.take(count as int) =~= views);
                document::lemma_blocks_size_monotonic(views, count - 1);
                assert(document::block_size(views.last()) > 0);
            }
            let before: usize = measure_blocks(&items, count - 1);
            let all: usize = measure_blocks(&items, count);
            let last: usize = at + before;
            let end: usize = at + all;
            ends_document = root && end == n;
            if !self.join_tail(last, end, &paste.trailing) {
                return PasteOutcome {
                    pasted: false,
                    normalize_quotes: false,
                    trailing_paragraph: false,
                };
            }
        }
        if !paste.split_physical_lines && paste.leading_blank {
            let stop: usize = find_subtree_end(&self.document, i);
            let _emptied = cut_nodes(&mut self.document, i, stop);
        }
        self.mark_dirty();
        PasteOutcome {
            pasted: true,
            normalize_quotes: related,
            trailing_paragraph: ends_document,
        }
    }
}

fn pasted_items(paste: &MultilinePaste, semantic: &[String]) -> (r: Vec<Block>)
    requires
        paste.lines@.len() > 0,
    ensures
        blocks::block_views(r@) == pasted_blocks(*paste, text::texts(semantic@)),
{
    let mut items = if paste.split_physical_lines {
        build_plain_paste_blocks_from_lines(paste.lines.as_slice(), 1)
    } else {
        Editor::build_blocks_from_lines(paste.lines.as_slice(), semantic)
    };
    if !paste.split_physical_lines && !paste.trailing_blank {
        let ghost before = items@;
        let block = Block::leaf(BlockKind::Paragraph, InlineTextTree::plain(String::new()));
        assert(block@.title =~= blocks::plain_title(Seq::empty()));
        items.push(block);
        assert(blocks::block_views(items@) =~= blocks::block_views(before).push(
            restore::empty_paragraph(),
        ));
    }
    items
}

fn extend_table_cell(nodes: &mut Vec<DocBlock>, i: usize, cell: u64, content: &InlineTextTree)
    requires
        i < old(nodes)@.len(),
        old(nodes)@[i as int].runtime is Some,
    ensures
        editor::node_views(final(nodes)@) == editor::node_views(old(nodes)@).update(
            i as int,
            tables::record_synced(
                NodeView {
                    runtime: Some(
                        runtime_extended(old(nodes)@[i as int].runtime->0@, cell, content@),
                    ),
                    ..editor::node_views(old(nodes)@)[i as int]
                },
            ),
        ),
{
    let ghost before = editor::node_views(nodes@);
    let ghost raw = nodes@;
    let mut runtime: Option<TableRuntime> = None;
    std::mem::swap(&mut runtime, &mut nodes[i].runtime);
    if let Some(cells) = runtime {
        let mut cells = cells;
        extend_runtime(&mut cells, cell, content);
        let table = crate::tables::read_table(&cells, &nodes[i].table);
        nodes[i].table = Some(table);
        nodes[i].runtime = Some(cells);
    }
    proof {
        let want = tables::record_synced(
            NodeView {
                runtime: Some(runtime_extended(raw[i as int].runtime->0@, cell, content@)),
                ..before[i as int]
            },
        );
        assert forall|k: int| 0 <= k < before.len() implies editor::node_views(nodes@)[k]
            == before.update(i as int, want)[k] by {
            assert(before[k] == raw[k]@);
        }
        assert(editor::node_views(nodes@) =~= before.update(i as int, want));
    }
}

} // verus!
