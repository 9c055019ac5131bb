//! The document as blocks in visible order.
//!
//! A block is followed by the blocks under it, one level deeper. So the blocks
//! under a block are a run of deeper ones right behind it, and inserting,
//! removing and moving blocks splices such runs.

use crate::blocks;
use crate::blocks::{Block, BlockKind, BlockView, InlineTextTree, TableData, Title};
use crate::editor;
use crate::editor::{BlockSelection, CellView, DocBlock, NodeView, Nodes, RuntimeView};
use vstd::prelude::*;

verus! {

// ---------------------------------------------------------------------------
// Shape
// ---------------------------------------------------------------------------

/// Whether the block at `i` is at most one level below the one before it.
pub open spec fn depth_step(nodes: Nodes, i: int) -> bool {
    nodes[i].depth <= nodes[i - 1].depth + 1
}

/// Whether the depths are those of a forest in visible order.
pub open spec fn forest(nodes: Nodes) -> bool {
    &&& nodes.len() > 0 ==> nodes[0].depth == 0
    &&& forall|i: int| 0 < i < nodes.len() ==> #[trigger] depth_step(nodes, i)
}

/// Whether no two blocks have the same id.
pub open spec fn distinct_ids(nodes: Nodes) -> bool {
    forall|i: int, j: int|
        0 <= i < j < nodes.len() ==> (#[trigger] nodes[i]).id != (#[trigger] nodes[j]).id
}

/// Whether every id is smaller than `limit`.
pub open spec fn ids_below(nodes: Nodes, limit: int) -> bool {
    forall|i: int| 0 <= i < nodes.len() ==> (#[trigger] nodes[i]).id < limit
}

/// Whether a table has a cell in this row and column. Row 0 is the header.
pub open spec fn has_cell(runtime: RuntimeView, row: int, column: int) -> bool {
    ||| row == 0 && 0 <= column < runtime.header.len()
    ||| 1 <= row <= runtime.rows.len() && 0 <= column < runtime.rows[row - 1].len()
}

/// The cell of a table in a row and column.
pub open spec fn cell_in(runtime: RuntimeView, row: int, column: int) -> CellView {
    if row == 0 {
        runtime.header[column]
    } else {
        runtime.rows[row - 1][column]
    }
}

/// Whether the block at `i` has a cell in this row and column.
pub open spec fn cell_there(nodes: Nodes, i: int, row: int, column: int) -> bool {
    0 <= i < nodes.len() && nodes[i].runtime is Some && has_cell(
        nodes[i].runtime->0,
        row,
        column,
    )
}

/// The cell of the block at `i` in a row and column.
pub open spec fn cell_of(nodes: Nodes, i: int, row: int, column: int) -> CellView {
    cell_in(nodes[i].runtime->0, row, column)
}

/// Whether a cell knows its row and column, as far as a machine can count them.
pub open spec fn knows_its_place(cell: CellView, row: int, column: int) -> bool {
    row <= usize::MAX && column <= usize::MAX ==> cell.position.row == row
        && cell.position.column == column
}

/// Whether every cell knows its place and has an id of its own that is smaller than
/// `limit`, and that no block has.
#[verifier::opaque]
pub open spec fn cells_apart(nodes: Nodes, limit: int) -> bool {
    &&& forall|i: int, row: int, column: int| #[trigger]
        cell_there(nodes, i, row, column) ==> knows_its_place(
            cell_of(nodes, i, row, column),
            row,
            column,
        ) && cell_of(nodes, i, row, column).id < limit
    &&& forall|i: int, row: int, column: int, k: int|
        #![trigger cell_there(nodes, i, row, column), nodes[k]]
        cell_there(nodes, i, row, column) && 0 <= k < nodes.len() ==> nodes[k].id != cell_of(
            nodes,
            i,
            row,
            column,
        ).id
    &&& forall|i: int, row: int, column: int, j: int, other_row: int, other_column: int|
        #![trigger cell_there(nodes, i, row, column), cell_there(nodes, j, other_row, other_column)]
        cell_there(nodes, i, row, column) && cell_there(nodes, j, other_row, other_column)
            && cell_of(nodes, i, row, column).id == cell_of(nodes, j, other_row, other_column).id
            ==> i == j && row == other_row && column == other_column
}

/// The shape of a document that the editor keeps: its blocks form a forest, and each
/// block and each cell has an id of its own.
pub open spec fn well_formed(nodes: Nodes, next_id: u64) -> bool {
    &&& forest(nodes)
    &&& distinct_ids(nodes)
    &&& ids_below(nodes, next_id as int)
    &&& cells_apart(nodes, next_id as int)
}

/// Whether two cells have the same id and place.
pub open spec fn same_place(a: CellView, b: CellView) -> bool {
    a.id == b.id && a.position == b.position
}

/// Whether two rows have cells with the same ids and places.
pub open spec fn same_row(a: Seq<CellView>, b: Seq<CellView>) -> bool {
    a.len() == b.len() && forall|c: int| 0 <= c < a.len() ==> same_place(a[c], #[trigger] b[c])
}

/// Whether two tables have cells with the same ids and places.
pub open spec fn same_places(a: RuntimeView, b: RuntimeView) -> bool {
    &&& same_row(a.header, b.header)
    &&& a.rows.len() == b.rows.len()
    &&& forall|r: int| 0 <= r < a.rows.len() ==> same_row(a.rows[r], #[trigger] b.rows[r])
}

/// Whether a block keeps the ids and places of its cells, or loses the cells.
pub open spec fn cells_kept(a: Option<RuntimeView>, b: Option<RuntimeView>) -> bool {
    b is None || a == b || (a is Some && same_places(a->0, b->0))
}

/// Whether the block at `k` of a document has the id and cells of the one at `from`
/// of an earlier one, or is new.
pub open spec fn stems_from(a: Nodes, b: Nodes, k: int, from: int, lowest: int, limit: int) -> bool {
    if 0 <= from < a.len() {
        b[k].id == a[from].id && cells_kept(a[from].runtime, b[k].runtime)
    } else {
        b[k].runtime is None && lowest <= b[k].id < limit
    }
}

/// A document whose blocks come from another one, or are new, keeps its cells apart.
pub proof fn lemma_cells_stem(a: Nodes, b: Nodes, from: Seq<int>, lowest: int, limit: int)
    requires
        cells_apart(a, lowest),
        lowest <= limit,
        distinct_ids(b),
        from.len() == b.len(),
        forall|k: int| 0 <= k < b.len() ==> #[trigger] stems_from(a, b, k, from[k], lowest, limit),
    ensures
        cells_apart(b, limit),
{
    reveal(cells_apart);
    assert forall|k: int, row: int, column: int| #[trigger]
        cell_there(b, k, row, column) implies cell_there(a, from[k], row, column) && cell_of(
        b,
        k,
        row,
        column,
    ).id == cell_of(a, from[k], row, column).id && cell_of(b, k, row, column).position == cell_of(
        a,
        from[k],
        row,
        column,
    ).position by {
        assert(stems_from(a, b, k, from[k], lowest, limit));
    }
    assert forall|i: int, row: int, column: int, k: int|
        #![trigger cell_there(b, i, row, column), b[k]]
        cell_there(b, i, row, column) && 0 <= k < b.len() implies b[k].id != cell_of(
        b,
        i,
        row,
        column,
    ).id by {
        assert(stems_from(a, b, k, from[k], lowest, limit));
        assert(cell_there(a, from[i], row, column));
        if 0 <= from[k] < a.len() {
            assert(a[from[k]].id != cell_of(a, from[i], row, column).id);
        }
    }
    assert forall|i: int, row: int, column: int, j: int, other_row: int, other_column: int|
        #![trigger cell_there(b, i, row, column), cell_there(b, j, other_row, other_column)]
        cell_there(b, i, row, column) && cell_there(b, j, other_row, other_column) && cell_of(
            b,
            i,
            row,
            column,
        ).id == cell_of(b, j, other_row, other_column).id implies i == j && row == other_row
        && column == other_column by {
        assert(cell_there(a, from[i], row, column));
        assert(cell_there(a, from[j], other_row, other_column));
        assert(from[i] == from[j]);
        assert(stems_from(a, b, i, from[i], lowest, limit));
        assert(stems_from(a, b, j, from[j], lowest, limit));
        assert(b[i].id == b[j].id);
    }
}

/// Where no block has cells, the cells are apart.
pub proof fn lemma_no_cells(nodes: Nodes, limit: int)
    requires
        forall|k: int| 0 <= k < nodes.len() ==> (#[trigger] nodes[k]).runtime is None,
    ensures
        cells_apart(nodes, limit),
{
    reveal(cells_apart);
}

/// A block lies no deeper than it lies far from the start.
pub proof fn lemma_depth_bound(nodes: Nodes, i: int)
    requires
        forest(nodes),
        0 <= i < nodes.len(),
    ensures
        nodes[i].depth <= i,
    decreases i,
{
    if i > 0 {
        lemma_depth_bound(nodes, i - 1);
        assert(depth_step(nodes, i));
    }
}

/// The first place of the block with this id.
pub open spec fn index_from(nodes: Nodes, id: u64, from: int) -> Option<int>
    decreases nodes.len() - from,
{
    if from < 0 || from >= nodes.len() {
        None
    } else if nodes[from].id == id {
        Some(from)
    } else {
        index_from(nodes, id, from + 1)
    }
}

/// The place of the block with this id.
pub open spec fn index_of(nodes: Nodes, id: u64) -> Option<int> {
    index_from(nodes, id, 0)
}

/// The place that is found holds a block with the id; where none is, no block has it.
pub proof fn lemma_index_from(nodes: Nodes, id: u64, from: int)
    requires
        0 <= from,
    ensures
        index_from(nodes, id, from) matches Some(i) ==> from <= i < nodes.len() && nodes[i].id == id,
        index_from(nodes, id, from) is None ==> forall|i: int|
            from <= i < nodes.len() ==> (#[trigger] nodes[i]).id != id,
    decreases nodes.len() - from,
{
    if from < nodes.len() && nodes[from].id != id {
        lemma_index_from(nodes, id, from + 1);
    }
}

/// Where the blocks under one of depth `depth` end, looking from `at` on.
pub open spec fn run_end(nodes: Nodes, depth: nat, at: int) -> int
    decreases nodes.len() - at,
{
    if 0 <= at < nodes.len() && nodes[at].depth > depth {
        run_end(nodes, depth, at + 1)
    } else {
        at
    }
}

/// Where the block at `i` and the blocks under it end.
pub open spec fn subtree_end(nodes: Nodes, i: int) -> int {
    run_end(nodes, nodes[i].depth, i + 1)
}

/// A run of deeper blocks ends at a block that is not deeper, or with the document.
pub proof fn lemma_run_end(nodes: Nodes, depth: nat, at: int)
    requires
        0 <= at <= nodes.len(),
    ensures
        at <= run_end(nodes, depth, at) <= nodes.len(),
        forall|k: int| at <= k < run_end(nodes, depth, at) ==> (#[trigger] nodes[k]).depth > depth,
        run_end(nodes, depth, at) < nodes.len() ==> nodes[run_end(nodes, depth, at)].depth <= depth,
    decreases nodes.len() - at,
{
    if at < nodes.len() && nodes[at].depth > depth {
        lemma_run_end(nodes, depth, at + 1);
    }
}

/// The nearest block before `at` that lies above depth `depth`.
pub open spec fn above(nodes: Nodes, depth: nat, at: int) -> Option<int>
    decreases at,
{
    if at <= 0 || at > nodes.len() {
        None
    } else if nodes[at - 1].depth < depth {
        Some(at - 1)
    } else {
        above(nodes, depth, at - 1)
    }
}

/// The place of the block that the one at `i` lies under.
pub open spec fn parent_of(nodes: Nodes, i: int) -> Option<int> {
    above(nodes, nodes[i].depth, i)
}

/// The block that is found lies above, and all between lie deeper.
pub proof fn lemma_above(nodes: Nodes, depth: nat, at: int)
    requires
        0 <= at <= nodes.len(),
    ensures
        above(nodes, depth, at) matches Some(p) ==> 0 <= p < at && nodes[p].depth < depth
            && forall|k: int| p < k < at ==> (#[trigger] nodes[k]).depth >= depth,
        above(nodes, depth, at) is None ==> forall|k: int|
            0 <= k < at ==> (#[trigger] nodes[k]).depth >= depth,
    decreases at,
{
    if at > 0 && nodes[at - 1].depth >= depth {
        lemma_above(nodes, depth, at - 1);
    }
}

/// The nearest block before the one at `i` that lies under the same block.
pub open spec fn previous_sibling_of(nodes: Nodes, i: int) -> Option<int> {
    match above(nodes, nodes[i].depth + 1, i) {
        Some(p) => if nodes[p].depth == nodes[i].depth {
            Some(p)
        } else {
            None
        },
        None => None,
    }
}

// ---------------------------------------------------------------------------
// Splices
// ---------------------------------------------------------------------------

/// The blocks with their depths raised.
pub open spec fn deepened(nodes: Nodes, levels: nat) -> Nodes {
    Seq::new(nodes.len(), |i: int| NodeView { depth: nodes[i].depth + levels, ..nodes[i] })
}

/// The blocks with their depths lowered.
pub open spec fn raised(nodes: Nodes, levels: nat) -> Nodes {
    Seq::new(nodes.len(), |i: int| NodeView { depth: (nodes[i].depth - levels) as nat, ..nodes[i] })
}

/// The document with blocks inserted before the place `at`.
pub open spec fn inserted(nodes: Nodes, at: int, added: Nodes) -> Nodes {
    nodes.subrange(0, at) + added + nodes.subrange(at, nodes.len() as int)
}

/// The document without the blocks from `from` to `to`.
pub open spec fn cut(nodes: Nodes, from: int, to: int) -> Nodes {
    nodes.subrange(0, from) + nodes.subrange(to, nodes.len() as int)
}

/// The document with blocks inserted after the one at `i` and those under it,
/// at its level.
pub open spec fn inserted_after(nodes: Nodes, i: int, added: Nodes) -> Nodes {
    inserted(nodes, subtree_end(nodes, i), deepened(added, nodes[i].depth))
}

/// The document without the block at `i` and those under it.
pub open spec fn removed(nodes: Nodes, i: int) -> Nodes {
    cut(nodes, i, subtree_end(nodes, i))
}

// ---------------------------------------------------------------------------
// New blocks
// ---------------------------------------------------------------------------

/// A block as it is when it enters the document.
pub open spec fn fresh_node(
    id: u64,
    depth: nat,
    kind: BlockKind<Seq<char>>,
    title: Title,
    table: Option<blocks::TableView>,
) -> NodeView {
    NodeView {
        id,
        depth,
        kind,
        title,
        table,
        runtime: None,
        display_text: blocks::title_text(title),
        selection: BlockSelection::Visible { start: 0, end: 0 },
        selection_reversed: false,
        marked: false,
        restarts_numbering: false,
        quote_reparse_requested: false,
        raw_text_editing: false,
        standalone_image: false,
        axis_preview: None,
        axis_selected: None,
        resize_preview: None,
    }
}

/// A new paragraph without text at the root.
pub open spec fn empty_paragraph_node(id: u64) -> NodeView {
    fresh_node(id, 0, BlockKind::Paragraph, blocks::plain_title(Seq::empty()), None)
}

/// How many blocks a block and those under it are.
pub open spec fn block_size(block: BlockView) -> nat
    decreases block,
{
    1 + blocks_size(block.children)
}

/// How many blocks these and those under them are.
pub open spec fn blocks_size(items: Seq<BlockView>) -> nat
    decreases items,
{
    if items.len() == 0 {
        0
    } else {
        blocks_size(items.drop_last()) + block_size(items.last())
    }
}

/// A block and those under it in visible order, with ids from `id` on.
pub open spec fn block_nodes(block: BlockView, depth: nat, id: int) -> Nodes
    decreases block,
{
    seq![fresh_node(id as u64, depth, block.kind, block.title, block.table)] + nodes_of(
        block.children,
        depth + 1,
        id + 1,
    )
}

/// Blocks and those under them in visible order, with ids from `id` on.
pub open spec fn nodes_of(items: Seq<BlockView>, depth: nat, id: int) -> Nodes
    decreases items,
{
    if items.len() == 0 {
        Seq::empty()
    } else {
        nodes_of(items.drop_last(), depth, id) + block_nodes(
            items.last(),
            depth,
            id + blocks_size(items.drop_last()),
        )
    }
}

/// A block lays out as many nodes as it holds blocks.
pub proof fn lemma_block_nodes_len(block: BlockView, depth: nat, id: int)
    ensures
        block_nodes(block, depth, id).len() == block_size(block),
    decreases block,
{
    lemma_nodes_len(block.children, depth + 1, id + 1);
}

/// Blocks lay out as many nodes as they hold blocks.
pub proof fn lemma_nodes_len(items: Seq<BlockView>, depth: nat, id: int)
    ensures
        nodes_of(items, depth, id).len() == blocks_size(items),
    decreases items,
{
    if items.len() > 0 {
        lemma_nodes_len(items.drop_last(), depth, id);
        lemma_block_nodes_len(items.last(), depth, id + blocks_size(items.drop_last()));
    }
}

/// The shape of blocks in visible order whose topmost ones lie at `depth`.
pub open spec fn subforest(nodes: Nodes, depth: nat, id: int) -> bool {
    &&& nodes.len() > 0 ==> nodes[0].depth == depth
    &&& forall|k: int|
        0 <= k < nodes.len() ==> (#[trigger] nodes[k]).id == id + k && nodes[k].depth >= depth
            && nodes[k].runtime is None
    &&& forall|k: int| 0 < k < nodes.len() ==> #[trigger] depth_step(nodes, k)
}

proof fn lemma_subforest_concat(a: Nodes, b: Nodes, depth: nat, id: int)
    requires
        subforest(a, depth, id),
        subforest(b, depth, id + a.len()),
    ensures
        subforest(a + b, depth, id),
{
    let whole = a + b;
    assert forall|k: int| 0 <= k < whole.len() implies (#[trigger] whole[k]).id == id + k
        && whole[k].depth >= depth && whole[k].runtime is None by {
        if k < a.len() {
            assert(whole[k] == a[k]);
        } else {
            assert(whole[k] == b[k - a.len()]);
        }
    }
    assert forall|k: int| 0 < k < whole.len() implies #[trigger] depth_step(whole, k) by {
        if k < a.len() {
            assert(depth_step(a, k));
        } else if k > a.len() {
            assert(depth_step(b, k - a.len()));
        } else {
            assert(whole[k - 1] == a[k - 1]);
            assert(whole[k] == b[0]);
        }
    }
}

/// Imported blocks form a forest with consecutive ids.
pub proof fn lemma_block_nodes_shape(block: BlockView, depth: nat, id: int)
    requires
        0 <= id,
        id + block_size(block) <= u64::MAX,
    ensures
        block_nodes(block, depth, id).len() == block_size(block),
        subforest(block_nodes(block, depth, id), depth, id),
    decreases block,
{
    lemma_block_nodes_len(block, depth, id);
    lemma_nodes_shape(block.children, depth + 1, id + 1);
    let head = fresh_node(id as u64, depth, block.kind, block.title, block.table);
    let rest = nodes_of(block.children, depth + 1, id + 1);
    let whole = block_nodes(block, depth, id);
    assert(whole =~= seq![head] + rest);
    assert forall|k: int| 0 <= k < whole.len() implies (#[trigger] whole[k]).id == id + k
        && whole[k].depth >= depth && whole[k].runtime is None by {
        if k > 0 {
            assert(whole[k] == rest[k - 1]);
        }
    }
    assert forall|k: int| 0 < k < whole.len() implies #[trigger] depth_step(whole, k) by {
        assert(whole[k] == rest[k - 1]);
        if k > 1 {
            assert(whole[k - 1] == rest[k - 2]);
            assert(depth_step(rest, k - 1));
        }
    }
}

/// Imported blocks form a forest with consecutive ids.
pub proof fn lemma_nodes_shape(items: Seq<BlockView>, depth: nat, id: int)
    requires
        0 <= id,
        id + blocks_size(items) <= u64::MAX,
    ensures
        nodes_of(items, depth, id).len() == blocks_size(items),
        subforest(nodes_of(items, depth, id), depth, id),
    decreases items,
{
    if items.len() > 0 {
        let before = items.drop_last();
        lemma_nodes_shape(before, depth, id);
        lemma_block_nodes_shape(items.last(), depth, id + blocks_size(before));
        lemma_subforest_concat(
            nodes_of(before, depth, id),
            block_nodes(items.last(), depth, id + blocks_size(before)),
            depth,
            id,
        );
    }
}

/// A document that is read from Markdown is well formed.
pub proof fn imported_documents_are_well_formed(items: Seq<BlockView>, id: u64)
    requires
        id + blocks_size(items) <= u64::MAX,
    ensures
        well_formed(nodes_of(items, 0, id as int), (id + blocks_size(items)) as u64),
{
    lemma_nodes_shape(items, 0, id as int);
    lemma_no_cells(nodes_of(items, 0, id as int), id + blocks_size(items));
}

/// A block as it is when it enters the document.
pub fn fresh_block(
    id: u64,
    depth: usize,
    kind: BlockKind<String>,
    title: InlineTextTree,
    table: Option<TableData>,
) -> (r: DocBlock)
    ensures
        r@ == fresh_node(id, depth as nat, kind@, title@, blocks::opt_table(table)),
{
    let display_text = title.text();
    DocBlock {
        id,
        depth,
        kind,
        title,
        table,
        runtime: None,
        display_text,
        selection: BlockSelection::Visible { start: 0, end: 0 },
        selection_reversed: false,
        marked: false,
        restarts_numbering: false,
        quote_reparse_requested: false,
        raw_text_editing: false,
        standalone_image: false,
        axis_preview: None,
        axis_selected: None,
        resize_preview: None,
    }
}

fn push_block(block: &Block, depth: usize, id: u64, out: &mut Vec<DocBlock>) -> (next: u64)
    requires
        depth <= old(out)@.len(),
        id + block_size(block@) <= u64::MAX,
    ensures
        editor::node_views(final(out)@) == editor::node_views(old(out)@) + block_nodes(
            block@,
            depth as nat,
            id as int,
        ),
        next == id + block_size(block@),
    decreases *block,
{
    let table = match &block.table {
        Some(t) => Some(t.duplicate()),
        None => None,
    };
    let node = fresh_block(id, depth, block.kind.duplicate(), block.title.duplicate(), table);
    let ghost before = out@;
    out.push(node);
    proof {
        assert(editor::node_views(before.push(node)) =~= editor::node_views(before).push(node@));
        assert(block@.children == blocks::block_views(block.children@));
    }
    let _pushed: usize = out.len();
    let next: u64 = push_blocks(&block.children, depth + 1, id + 1, out);
    proof {
        let a = editor::node_views(before);
        let rest = nodes_of(block@.children, (depth + 1) as nat, id + 1);
        assert(a.push(node@) + rest =~= a + (seq![node@] + rest));
    }
    next
}

fn push_blocks(items: &Vec<Block>, depth: usize, id: u64, out: &mut Vec<DocBlock>) -> (next: u64)
    requires
        depth <= old(out)@.len(),
        id + blocks_size(blocks::block_views(items@)) <= u64::MAX,
    ensures
        editor::node_views(final(out)@) == editor::node_views(old(out)@) + nodes_of(
            blocks::block_views(items@),
            depth as nat,
            id as int,
        ),
        next == id + blocks_size(blocks::block_views(items@)),
    decreases *items,
{
    let ghost views = blocks::block_views(items@);
    let ghost before = editor::node_views(out@);
    let mut next: u64 = id;
    let mut index: usize = 0;
    proof {
        assert(views.take(0) =~= Seq::empty());
        assert(before + nodes_of(views.take(0), depth as nat, id as int) =~= before);
    }
    while index < items.len()
        invariant
            views == blocks::block_views(items@),
            index <= items@.len(),
            depth <= out@.len(),
            id + blocks_size(views) <= u64::MAX,
            next == id + blocks_size(views.take(index as int)),
            editor::node_views(out@) == before + nodes_of(
                views.take(index as int),
                depth as nat,
                id as int,
            ),
        decreases items@.len() - index,
    {
        proof {
            assert(views.take(index + 1).drop_last() =~= views.take(index as int));
            assert(views.take(index + 1).last() == items@[index as int]@);
            lemma_blocks_size_monotonic(views, index + 1);
        }
        let ghost so_far = nodes_of(views.take(index as int), depth as nat, id as int);
        let ghost added = block_nodes(items@[index as int]@, depth as nat, next as int);
        next = push_block(&items[index], depth, next, out);
        proof {
            assert((before + so_far) + added =~= before + (so_far + added));
        }
        index = index + 1;
    }
    assert(views.take(index as int) =~= views);
    next
}

/// The first blocks hold no more blocks than all of them.
pub proof fn lemma_blocks_size_monotonic(items: Seq<BlockView>, n: int)
    requires
        0 <= n <= items.len(),
    ensures
        blocks_size(items.take(n)) <= blocks_size(items),
    decreases items.len(),
{
    if n < items.len() {
        lemma_blocks_size_monotonic(items.drop_last(), n);
        assert(items.drop_last().take(n) =~= items.take(n));
    } else {
        assert(items.take(n) =~= items);
    }
}

/// The blocks and those under them in visible order, with ids from `id` on, and
/// the next id.
pub fn flatten_blocks(items: &Vec<Block>, id: u64) -> (r: (Vec<DocBlock>, u64))
    requires
        id + blocks_size(blocks::block_views(items@)) <= u64::MAX,
    ensures
        editor::node_views(r.0@) == nodes_of(blocks::block_views(items@), 0, id as int),
        r.1 == id + blocks_size(blocks::block_views(items@)),
{
    let mut out: Vec<DocBlock> = Vec::new();
    let next: u64 = push_blocks(items, 0, id, &mut out);
    assert(editor::node_views(Seq::<DocBlock>::empty()) =~= Seq::empty());
    assert(Seq::<NodeView>::empty() + nodes_of(blocks::block_views(items@), 0, id as int)
        =~= nodes_of(blocks::block_views(items@), 0, id as int));
    (out, next)
}

// ---------------------------------------------------------------------------
// Splices keep the shape
// ---------------------------------------------------------------------------

/// The shape of blocks that can be put in at a level: their ids are new and
/// below `limit`, and they have no cells yet.
pub open spec fn graft(added: Nodes, depth: nat, lowest: u64, limit: u64) -> bool {
    &&& added.len() > 0 ==> added[0].depth == depth
    &&& forall|k: int|
        0 <= k < added.len() ==> (#[trigger] added[k]).depth >= depth && lowest <= added[k].id
            < limit && added[k].runtime is None
    &&& forall|k: int| 0 < k < added.len() ==> #[trigger] depth_step(added, k)
    &&& distinct_ids(added)
}

/// Whether blocks at `depth` can stand before the place `at`.
pub open spec fn fits(nodes: Nodes, at: int, depth: nat) -> bool {
    &&& 0 <= at <= nodes.len()
    &&& at == 0 ==> depth == 0
    &&& at > 0 ==> depth <= nodes[at - 1].depth + 1
    &&& at < nodes.len() ==> nodes[at].depth <= depth + 1
}

/// Putting new blocks in at a fitting level keeps a document well formed.
pub proof fn inserting_keeps_a_document_well_formed(
    nodes: Nodes,
    next_id: u64,
    at: int,
    added: Nodes,
    depth: nat,
    limit: u64,
)
    requires
        well_formed(nodes, next_id),
        fits(nodes, at, depth),
        graft(added, depth, next_id, limit),
        next_id <= limit,
    ensures
        well_formed(inserted(nodes, at, added), limit),
{
    let whole = inserted(nodes, at, added);
    let n = added.len() as int;
    assert forall|i: int| 0 <= i < whole.len() implies #[trigger] whole[i] == (if i < at {
        nodes[i]
    } else if i < at + n {
        added[i - at]
    } else {
        nodes[i - n]
    }) by {}
    assert forall|i: int| 0 < i < whole.len() implies #[trigger] depth_step(whole, i) by {
        assert(whole[i] == whole[i] && whole[i - 1] == whole[i - 1]);
        if i < at {
            assert(depth_step(nodes, i));
        } else if i == at && n > 0 {
            assert(whole[i] == added[0]);
        } else if i < at + n {
            assert(depth_step(added, i - at));
        } else if i == at + n {
            if n > 0 {
                assert(added[n - 1].depth >= depth);
            } else {
                assert(depth_step(nodes, i));
            }
        } else {
            assert(depth_step(nodes, i - n));
        }
    }
    assert forall|i: int, j: int| 0 <= i < j < whole.len() implies (#[trigger] whole[i]).id != (
    #[trigger] whole[j]).id by {
        if i < at && at <= j < at + n {
            assert(nodes[i].id < next_id);
        } else if at <= i < at + n && j >= at + n {
            assert(nodes[j - n].id < next_id);
        }
    }
    if whole.len() > 0 {
        assert(whole[0].depth == 0) by {
            if at > 0 {
                assert(whole[0] == nodes[0]);
            } else if n > 0 {
                assert(whole[0] == added[0]);
            } else {
                assert(whole[0] == nodes[0]);
            }
        }
    }
    assert(ids_below(whole, limit as int)) by {
        assert forall|i: int| 0 <= i < whole.len() implies (#[trigger] whole[i]).id < limit by {}
    }
    let from = Seq::new(
        whole.len(),
        |k: int|
            if k < at {
                k
            } else if k < at + n {
                -1
            } else {
                k - n
            },
    );
    assert forall|k: int| 0 <= k < whole.len() implies #[trigger] stems_from(
        nodes,
        whole,
        k,
        from[k],
        next_id as int,
        limit as int,
    ) by {
        assert(whole[k] == whole[k]);
    }
    lemma_cells_stem(nodes, whole, from, next_id as int, limit as int);
}

/// Taking a block and those under it out keeps a document well formed.
pub proof fn removing_keeps_a_document_well_formed(nodes: Nodes, next_id: u64, i: int)
    requires
        well_formed(nodes, next_id),
        0 <= i < nodes.len(),
    ensures
        well_formed(removed(nodes, i), next_id),
        i < subtree_end(nodes, i) <= nodes.len(),
{
    let to = subtree_end(nodes, i);
    lemma_run_end(nodes, nodes[i].depth, i + 1);
    let rest = removed(nodes, i);
    let n = to - i;
    assert forall|k: int| 0 <= k < rest.len() implies #[trigger] rest[k] == (if k < i {
        nodes[k]
    } else {
        nodes[k + n]
    }) by {}
    assert forall|k: int| 0 < k < rest.len() implies #[trigger] depth_step(rest, k) by {
        assert(rest[k] == rest[k] && rest[k - 1] == rest[k - 1]);
        if k < i {
            assert(depth_step(nodes, k));
        } else if k == i {
            assert(depth_step(nodes, i));
        } else {
            assert(depth_step(nodes, k + n));
        }
    }
    if rest.len() > 0 {
        if i == 0 {
            assert(rest[0] == nodes[to]);
        } else {
            assert(rest[0] == nodes[0]);
        }
    }
    assert(distinct_ids(rest)) by {
        assert forall|a: int, b: int| 0 <= a < b < rest.len() implies (#[trigger] rest[a]).id != (
        #[trigger] rest[b]).id by {}
    }
    assert(ids_below(rest, next_id as int)) by {
        assert forall|a: int| 0 <= a < rest.len() implies (#[trigger] rest[a]).id < next_id by {}
    }
    let from = Seq::new(
        rest.len(),
        |k: int|
            if k < i {
                k
            } else {
                k + n
            },
    );
    assert forall|k: int| 0 <= k < rest.len() implies #[trigger] stems_from(
        nodes,
        rest,
        k,
        from[k],
        next_id as int,
        next_id as int,
    ) by {
        assert(rest[k] == rest[k]);
    }
    lemma_cells_stem(nodes, rest, from, next_id as int, next_id as int);
}

/// Changing what a block holds, but not its id, its depth or its cells' ids, keeps a
/// document well formed.
pub proof fn updating_keeps_a_document_well_formed(
    nodes: Nodes,
    next_id: u64,
    i: int,
    node: NodeView,
)
    requires
        well_formed(nodes, next_id),
        0 <= i < nodes.len(),
        node.id == nodes[i].id,
        node.depth == nodes[i].depth,
        cells_kept(nodes[i].runtime, node.runtime),
    ensures
        well_formed(nodes.update(i, node), next_id),
{
    let whole = nodes.update(i, node);
    lemma_same_shape(nodes, whole, next_id);
}

/// Whether two documents have blocks with the same ids and depths.
pub open spec fn same_outline(a: Nodes, b: Nodes) -> bool {
    &&& a.len() == b.len()
    &&& forall|i: int|
        0 <= i < a.len() ==> (#[trigger] b[i]).id == a[i].id && b[i].depth == a[i].depth
}

/// Whether two documents have the same ids and depths, and the later one the cells of
/// the earlier one, as far as it has cells.
pub open spec fn same_shape(a: Nodes, b: Nodes) -> bool {
    &&& a.len() == b.len()
    &&& forall|i: int|
        0 <= i < a.len() ==> (#[trigger] b[i]).id == a[i].id && b[i].depth == a[i].depth
            && cells_kept(a[i].runtime, b[i].runtime)
}

/// Documents of one outline are forests with distinct ids together.
pub proof fn lemma_same_outline(a: Nodes, b: Nodes, next_id: u64)
    requires
        forest(a),
        distinct_ids(a),
        ids_below(a, next_id as int),
        same_outline(a, b),
    ensures
        forest(b),
        distinct_ids(b),
        ids_below(b, next_id as int),
{
    assert forall|i: int| 0 < i < b.len() implies #[trigger] depth_step(b, i) by {
        assert(depth_step(a, i));
        assert(b[i].depth == a[i].depth);
        assert(b[i - 1].depth == a[i - 1].depth);
    }
    if b.len() > 0 {
        assert(b[0].depth == a[0].depth);
    }
}

/// A document of the shape of a well-formed one is well formed.
pub proof fn lemma_same_shape(a: Nodes, b: Nodes, next_id: u64)
    requires
        well_formed(a, next_id),
        same_shape(a, b),
    ensures
        well_formed(b, next_id),
{
    lemma_same_outline(a, b, next_id);
    let from = Seq::new(b.len(), |k: int| k);
    assert forall|k: int| 0 <= k < b.len() implies #[trigger] stems_from(
        a,
        b,
        k,
        from[k],
        next_id as int,
        next_id as int,
    ) by {
        assert(b[k].id == a[k].id);
    }
    lemma_cells_stem(a, b, from, next_id as int, next_id as int);
}

/// A document stays well formed when ids are used up outside it.
pub proof fn lemma_later_ids(nodes: Nodes, next_id: u64, later: u64)
    requires
        well_formed(nodes, next_id),
        next_id <= later,
    ensures
        well_formed(nodes, later),
{
    reveal(cells_apart);
}

/// Blocks are found at the same place in documents of one outline.
pub proof fn lemma_index_same(a: Nodes, b: Nodes, id: u64, from: int)
    requires
        same_outline(a, b),
    ensures
        index_from(a, id, from) == index_from(b, id, from),
    decreases a.len() - from,
{
    if 0 <= from < a.len() {
        assert(b[from].id == a[from].id);
        lemma_index_same(a, b, id, from + 1);
    }
}

/// Runs end at the same place in documents of one outline.
pub proof fn lemma_run_end_same(a: Nodes, b: Nodes, depth: nat, at: int)
    requires
        same_outline(a, b),
    ensures
        run_end(a, depth, at) == run_end(b, depth, at),
    decreases a.len() - at,
{
    if 0 <= at < a.len() {
        assert(b[at].depth == a[at].depth);
        lemma_run_end_same(a, b, depth, at + 1);
    }
}

// ---------------------------------------------------------------------------
// Running code
// ---------------------------------------------------------------------------

/// The place of the block with this id.
pub fn find_index(nodes: &Vec<DocBlock>, id: u64) -> (r: Option<usize>)
    ensures
        r matches Some(i) ==> index_of(editor::node_views(nodes@), id) == Some(i as int) && i
            < nodes@.len() && nodes@[i as int].id == id,
        r is None ==> index_of(editor::node_views(nodes@), id) is None,
{
    let ghost views = editor::node_views(nodes@);
    let mut i: usize = 0;
    while i < nodes.len()
        invariant
            views == editor::node_views(nodes@),
            i <= nodes@.len(),
            index_from(views, id, 0) == index_from(views, id, i as int),
        decreases nodes@.len() - i,
    {
        if nodes[i].id == id {
            return Some(i);
        }
        i = i + 1;
    }
    None
}

/// Where the block at `i` and those under it end.
pub fn find_subtree_end(nodes: &Vec<DocBlock>, i: usize) -> (r: usize)
    requires
        i < nodes@.len(),
    ensures
        r == subtree_end(editor::node_views(nodes@), i as int),
        i < r <= nodes@.len(),
{
    let ghost views = editor::node_views(nodes@);
    let depth: usize = nodes[i].depth;
    let n: usize = nodes.len();
    let mut at: usize = i + 1;
    while at < n && nodes[at].depth > depth
        invariant
            views == editor::node_views(nodes@),
            n == nodes@.len(),
            i < at <= n,
            run_end(views, depth as nat, i + 1) == run_end(views, depth as nat, at as int),
        decreases n - at,
    {
        at = at + 1;
    }
    at
}

/// The nearest block before `at` that lies above depth `depth`.
pub fn find_above(nodes: &Vec<DocBlock>, depth: usize, at: usize) -> (r: Option<usize>)
    requires
        at <= nodes@.len(),
    ensures
        r matches Some(p) ==> above(editor::node_views(nodes@), depth as nat, at as int) == Some(
            p as int,
        ) && p < at,
        r is None ==> above(editor::node_views(nodes@), depth as nat, at as int) is None,
{
    let ghost views = editor::node_views(nodes@);
    let mut k: usize = at;
    while k > 0
        invariant
            views == editor::node_views(nodes@),
            k <= at <= nodes@.len(),
            above(views, depth as nat, at as int) == above(views, depth as nat, k as int),
        decreases k,
    {
        if nodes[k - 1].depth < depth {
            return Some(k - 1);
        }
        k = k - 1;
    }
    None
}

/// The place of the block that the one at `i` lies under.
pub fn find_parent(nodes: &Vec<DocBlock>, i: usize) -> (r: Option<usize>)
    requires
        i < nodes@.len(),
    ensures
        r matches Some(p) ==> parent_of(editor::node_views(nodes@), i as int) == Some(p as int) && p
            < i,
        r is None ==> parent_of(editor::node_views(nodes@), i as int) is None,
{
    find_above(nodes, nodes[i].depth, i)
}

/// The nearest block before the one at `i` that lies under the same block.
pub fn find_previous_sibling(nodes: &Vec<DocBlock>, i: usize) -> (r: Option<usize>)
    requires
        i < nodes@.len(),
    ensures
        r matches Some(p) ==> previous_sibling_of(editor::node_views(nodes@), i as int) == Some(
            p as int,
        ) && p < i,
        r is None ==> previous_sibling_of(editor::node_views(nodes@), i as int) is None,
{
    let ghost views = editor::node_views(nodes@);
    let mut k: usize = i;
    while k > 0
        invariant
            views == editor::node_views(nodes@),
            k <= i < nodes@.len(),
            above(views, views[i as int].depth + 1, i as int) == above(
                views,
                views[i as int].depth + 1,
                k as int,
            ),
        decreases k,
    {
        if nodes[k - 1].depth <= nodes[i].depth {
            if nodes[k - 1].depth == nodes[i].depth {
                return Some(k - 1);
            }
            return None;
        }
        k = k - 1;
    }
    None
}

/// Puts blocks in before the place `at`.
pub fn insert_nodes(nodes: &mut Vec<DocBlock>, at: usize, added: Vec<DocBlock>)
    requires
        at <= old(nodes)@.len(),
    ensures
        editor::node_views(final(nodes)@) == inserted(
            editor::node_views(old(nodes)@),
            at as int,
            editor::node_views(added@),
        ),
        final(nodes)@.len() == old(nodes)@.len() + added@.len(),
{
    let ghost before = nodes@;
    let ghost new = added@;
    let mut added = added;
    let mut tail = nodes.split_off(at);
    nodes.append(&mut added);
    nodes.append(&mut tail);
    proof {
        assert(nodes@ =~= before.subrange(0, at as int) + new + before.subrange(
            at as int,
            before.len() as int,
        ));
        assert(editor::node_views(nodes@) =~= inserted(
            editor::node_views(before),
            at as int,
            editor::node_views(new),
        ));
    }
}

/// Takes the blocks from `from` to `to` out.
pub fn cut_nodes(nodes: &mut Vec<DocBlock>, from: usize, to: usize) -> (r: Vec<DocBlock>)
    requires
        from <= to <= old(nodes)@.len(),
    ensures
        editor::node_views(final(nodes)@) == cut(
            editor::node_views(old(nodes)@),
            from as int,
            to as int,
        ),
        editor::node_views(r@) == editor::node_views(old(nodes)@).subrange(from as int, to as int),
        r@.len() == to - from,
        final(nodes)@.len() == old(nodes)@.len() - (to - from),
{
    let ghost before = nodes@;
    let mut tail = nodes.split_off(to);
    let middle = nodes.split_off(from);
    nodes.append(&mut tail);
    proof {
        assert(nodes@ =~= before.subrange(0, from as int) + before.subrange(
            to as int,
            before.len() as int,
        ));
        assert(editor::node_views(nodes@) =~= cut(
            editor::node_views(before),
            from as int,
            to as int,
        ));
        assert(middle@ =~= before.subrange(from as int, to as int));
        assert(editor::node_views(middle@) =~= editor::node_views(before).subrange(
            from as int,
            to as int,
        ));
    }
    middle
}

/// Raises the depths of the blocks.
pub fn deepen_nodes(nodes: Vec<DocBlock>, levels: usize) -> (r: Vec<DocBlock>)
    requires
        forall|i: int| 0 <= i < nodes@.len() ==> (#[trigger] nodes@[i]).depth + levels <= usize::MAX,
    ensures
        editor::node_views(r@) == deepened(editor::node_views(nodes@), levels as nat),
{
    let ghost before = nodes@;
    let mut nodes = nodes;
    let mut i: usize = 0;
    while i < nodes.len()
        invariant
            i <= nodes@.len(),
            nodes@.len() == before.len(),
            forall|k: int|
                0 <= k < before.len() ==> (#[trigger] before[k]).depth + levels <= usize::MAX,
            forall|k: int|
                0 <= k < i ==> (#[trigger] nodes@[k])@ == (NodeView {
                    depth: before[k]@.depth + levels as nat,
                    ..before[k]@
                }),
            forall|k: int| i <= k < before.len() ==> #[trigger] nodes@[k] == before[k],
        decreases nodes@.len() - i,
    {
        assert(before[i as int].depth + levels <= usize::MAX);
        nodes[i].depth = nodes[i].depth + levels;
        i = i + 1;
    }
    assert(editor::node_views(nodes@) =~= deepened(editor::node_views(before), levels as nat));
    nodes
}

/// Lowers the depths of the blocks.
pub fn raise_nodes(nodes: Vec<DocBlock>, levels: usize) -> (r: Vec<DocBlock>)
    requires
        forall|i: int| 0 <= i < nodes@.len() ==> (#[trigger] nodes@[i]).depth >= levels,
    ensures
        editor::node_views(r@) == raised(editor::node_views(nodes@), levels as nat),
{
    let ghost before = nodes@;
    let mut nodes = nodes;
    let mut i: usize = 0;
    while i < nodes.len()
        invariant
            i <= nodes@.len(),
            nodes@.len() == before.len(),
            forall|k: int| 0 <= k < before.len() ==> (#[trigger] before[k]).depth >= levels,
            forall|k: int|
                0 <= k < i ==> (#[trigger] nodes@[k])@ == (NodeView {
                    depth: (before[k]@.depth - levels as nat) as nat,
                    ..before[k]@
                }),
            forall|k: int| i <= k < before.len() ==> #[trigger] nodes@[k] == before[k],
        decreases nodes@.len() - i,
    {
        assert(before[i as int].depth >= levels);
        nodes[i].depth = nodes[i].depth - levels;
        i = i + 1;
    }
    assert(editor::node_views(nodes@) =~= raised(editor::node_views(before), levels as nat));
    nodes
}

} // verus!
