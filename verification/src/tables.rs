//! Editable table cells, the selection of rows and columns, and table edits.

use crate::blocks;
use crate::blocks::{
    Block, BlockKind, InlineTextTree, TableColumnAlignment, TableData, TableView, Title,
};
use crate::document;
use crate::document::find_index;
use crate::editor;
use crate::editor::{
    AxisView, BlockSelection, CellView, DocBlock, Editor, EditorView, NodeView, Nodes, RuntimeView,
    TableAxisHighlight, TableAxisKind, TableAxisMarker, TableAxisSelection, TableCell,
    TableCellPosition, TableRuntime,
};
use crate::import_model;
use crate::importer::table_block;
use vstd::prelude::*;

verus! {

// ---------------------------------------------------------------------------
// Editable cells
// ---------------------------------------------------------------------------

/// The alignment of a column.
pub open spec fn alignment_at(
    alignments: Seq<TableColumnAlignment>,
    column: int,
) -> TableColumnAlignment {
    if 0 <= column < alignments.len() {
        alignments[column]
    } else {
        TableColumnAlignment::Default
    }
}

/// The editable cells of a row, with ids from `id` on.
pub open spec fn row_runtime(
    titles: Seq<Title>,
    row: int,
    alignments: Seq<TableColumnAlignment>,
    id: int,
) -> Seq<CellView> {
    Seq::new(
        titles.len(),
        |column: int|
            CellView {
                id: (id + column) as u64,
                title: titles[column],
                display_text: blocks::title_text(titles[column]),
                selection: BlockSelection::Visible { start: 0, end: 0 },
                selection_reversed: false,
                marked: false,
                position: TableCellPosition { row: row as usize, column: column as usize },
                alignment: alignment_at(alignments, column),
                highlight: TableAxisHighlight::Plain,
            },
    )
}

/// How many cells the rows have.
pub open spec fn cells_in(rows: Seq<Seq<Title>>) -> nat
    decreases rows.len(),
{
    if rows.len() == 0 {
        0
    } else {
        cells_in(rows.drop_last()) + rows.last().len()
    }
}

/// How many cells a table has.
pub open spec fn cell_count(table: TableView) -> nat {
    table.header.len() + cells_in(table.rows)
}

/// The editable cells of the body rows, with ids from `id` on.
pub open spec fn body_runtime(
    rows: Seq<Seq<Title>>,
    alignments: Seq<TableColumnAlignment>,
    id: int,
) -> Seq<Seq<CellView>>
    decreases rows.len(),
{
    if rows.len() == 0 {
        Seq::empty()
    } else {
        body_runtime(rows.drop_last(), alignments, id).push(
            row_runtime(
                rows.last(),
                rows.len() as int,
                alignments,
                id + cells_in(rows.drop_last()),
            ),
        )
    }
}

/// The editable cells of a table, with ids from `id` on.
pub open spec fn runtime_for(table: TableView, id: int) -> RuntimeView {
    RuntimeView {
        header: row_runtime(table.header, 0, table.alignments, id),
        rows: body_runtime(table.rows, table.alignments, id + table.header.len()),
    }
}

/// Whether a block is shown as a table with editable cells.
pub open spec fn shows_table(node: NodeView) -> bool {
    node.kind is Table && node.table is Some
}

/// How many editable cells the tables of a document have.
pub open spec fn document_cells(nodes: Nodes) -> nat
    decreases nodes.len(),
{
    if nodes.len() == 0 {
        0
    } else {
        document_cells(nodes.drop_last()) + (if shows_table(nodes.last()) {
            cell_count(nodes.last().table->0)
        } else {
            0
        })
    }
}

/// The blocks with the cells of their tables made anew, with ids from `id` on.
pub open spec fn rebuilt_nodes(nodes: Nodes, id: int) -> Nodes
    decreases nodes.len(),
{
    if nodes.len() == 0 {
        Seq::empty()
    } else {
        let node = nodes.last();
        rebuilt_nodes(nodes.drop_last(), id).push(
            NodeView {
                runtime: if shows_table(node) {
                    Some(runtime_for(node.table->0, id + document_cells(nodes.drop_last())))
                } else {
                    None
                },
                ..node
            },
        )
    }
}

/// Making cells anew changes nothing but the cells.
pub proof fn lemma_rebuilt_nodes(nodes: Nodes, id: int)
    ensures
        rebuilt_nodes(nodes, id).len() == nodes.len(),
        forall|i: int|
            0 <= i < nodes.len() ==> #[trigger] rebuilt_nodes(nodes, id)[i] == (NodeView {
                runtime: rebuilt_nodes(nodes, id)[i].runtime,
                ..nodes[i]
            }),
        forall|i: int|
            0 <= i < nodes.len() ==> (shows_table(nodes[i]) <==> (#[trigger] rebuilt_nodes(
                nodes,
                id,
            )[i]).runtime is Some),
    decreases nodes.len(),
{
    if nodes.len() > 0 {
        lemma_rebuilt_nodes(nodes.drop_last(), id);
        let before = rebuilt_nodes(nodes.drop_last(), id);
        assert forall|i: int| 0 <= i < nodes.len() implies #[trigger] rebuilt_nodes(nodes, id)[i]
            == (NodeView { runtime: rebuilt_nodes(nodes, id)[i].runtime, ..nodes[i] }) && (
        shows_table(nodes[i]) <==> rebuilt_nodes(nodes, id)[i].runtime is Some) by {
            if i < nodes.len() - 1 {
                assert(rebuilt_nodes(nodes, id)[i] == before[i]);
                assert(nodes.drop_last()[i] == nodes[i]);
            }
        }
    }
}

/// The state with the cells of all tables made anew and nothing pointed at.
pub open spec fn tables_rebuilt(s: EditorView) -> EditorView {
    visuals_synced(
        EditorView {
            document: rebuilt_nodes(s.document, s.next_id as int),
            next_id: (s.next_id + document_cells(s.document)) as u64,
            axis: AxisView { preview: None, ..s.axis },
            ..s
        },
    )
}

/// Whether the ids last for making the cells of all tables anew.
pub open spec fn room_for_cells(s: EditorView) -> bool {
    s.next_id + document_cells(s.document) <= u64::MAX
}

// ---------------------------------------------------------------------------
// Rows and columns
// ---------------------------------------------------------------------------

/// Whether the selected row or column is there.
pub open spec fn axis_valid(nodes: Nodes, selection: TableAxisSelection) -> bool {
    match document::index_of(nodes, selection.table_block_id) {
        None => false,
        Some(i) => nodes[i].kind is Table && match nodes[i].runtime {
            None => false,
            Some(runtime) => match selection.kind {
                TableAxisKind::Column => selection.index < runtime.header.len(),
                TableAxisKind::Row => selection.index <= runtime.rows.len(),
            },
        },
    }
}

/// The selection, if it is there.
pub open spec fn kept_axis(nodes: Nodes, selection: Option<TableAxisSelection>) -> Option<
    TableAxisSelection,
> {
    match selection {
        Some(axis) => if axis_valid(nodes, axis) {
            selection
        } else {
            None
        },
        None => None,
    }
}

/// The state without rows or columns pointed at or selected that are not there.
pub open spec fn axis_normalized(s: EditorView) -> EditorView {
    EditorView {
        axis: AxisView {
            preview: kept_axis(s.document, s.axis.preview),
            selection: kept_axis(s.document, s.axis.selection),
            ..s.axis
        },
        ..s
    }
}

/// The row or column of a selection, if it is one of this table.
pub open spec fn marker_in(selection: Option<TableAxisSelection>, id: u64) -> Option<
    TableAxisMarker,
> {
    match selection {
        Some(axis) => if axis.table_block_id == id {
            Some(TableAxisMarker { kind: axis.kind, index: axis.index })
        } else {
            None
        },
        None => None,
    }
}

/// Whether a row or column goes through a cell.
pub open spec fn marks(marker: Option<TableAxisMarker>, position: (int, int)) -> bool {
    match marker {
        Some(axis) => match axis.kind {
            TableAxisKind::Column => axis.index == position.1,
            TableAxisKind::Row => axis.index == position.0,
        },
        None => false,
    }
}

/// How a cell is highlighted.
pub open spec fn highlight_at(
    preview: Option<TableAxisMarker>,
    selected: Option<TableAxisMarker>,
    row: int,
    column: int,
) -> TableAxisHighlight {
    if marks(selected, (row, column)) {
        TableAxisHighlight::Selected
    } else if marks(preview, (row, column)) {
        TableAxisHighlight::Preview
    } else {
        TableAxisHighlight::Plain
    }
}

/// The cells of a row, highlighted.
pub open spec fn highlighted_row(
    cells: Seq<CellView>,
    row: int,
    preview: Option<TableAxisMarker>,
    selected: Option<TableAxisMarker>,
) -> Seq<CellView> {
    Seq::new(
        cells.len(),
        |column: int|
            CellView { highlight: highlight_at(preview, selected, row, column), ..cells[column] },
    )
}

/// The cells of a table, highlighted.
pub open spec fn highlighted(
    runtime: RuntimeView,
    preview: Option<TableAxisMarker>,
    selected: Option<TableAxisMarker>,
) -> RuntimeView {
    RuntimeView {
        header: highlighted_row(runtime.header, 0, preview, selected),
        rows: Seq::new(
            runtime.rows.len(),
            |i: int| highlighted_row(runtime.rows[i], i + 1, preview, selected),
        ),
    }
}

/// A block as the selected and pointed-at rows and columns show it.
pub open spec fn synced_node(
    node: NodeView,
    preview: Option<TableAxisSelection>,
    selection: Option<TableAxisSelection>,
) -> NodeView {
    if node.kind is Table {
        let p = marker_in(preview, node.id);
        let m = marker_in(selection, node.id);
        NodeView {
            axis_preview: p,
            axis_selected: m,
            runtime: match node.runtime {
                Some(runtime) => Some(highlighted(runtime, p, m)),
                None => None,
            },
            ..node
        }
    } else {
        node
    }
}

/// The blocks as the selected and pointed-at rows and columns show them.
pub open spec fn synced_nodes(
    nodes: Nodes,
    preview: Option<TableAxisSelection>,
    selection: Option<TableAxisSelection>,
) -> Nodes {
    Seq::new(nodes.len(), |i: int| synced_node(nodes[i], preview, selection))
}

/// The state with tables shown as the valid selections say.
pub open spec fn visuals_synced(s: EditorView) -> EditorView {
    let kept = axis_normalized(s);
    EditorView {
        document: synced_nodes(kept.document, kept.axis.preview, kept.axis.selection),
        ..kept
    }
}

/// The state with another row or column pointed at.
pub open spec fn with_preview(s: EditorView, preview: Option<TableAxisSelection>) -> EditorView {
    if s.axis.preview == preview {
        s
    } else {
        visuals_synced(EditorView { axis: AxisView { preview, ..s.axis }, ..s })
    }
}

/// The state with another row or column selected.
pub open spec fn with_selection(
    s: EditorView,
    selection: Option<TableAxisSelection>,
) -> EditorView {
    if s.axis.selection == selection {
        s
    } else {
        visuals_synced(EditorView { axis: AxisView { selection, ..s.axis }, ..s })
    }
}

// ---------------------------------------------------------------------------
// Laws
// ---------------------------------------------------------------------------

/// After normalizing, a selected row or column is there, and so is the one
/// pointed at.
pub proof fn normalized_axes_are_there(s: EditorView)
    ensures
        axis_normalized(s).axis.selection matches Some(axis) ==> axis_valid(s.document, axis),
        axis_normalized(s).axis.preview matches Some(axis) ==> axis_valid(s.document, axis),
{
}

proof fn lemma_synced_index(
    nodes: Nodes,
    preview: Option<TableAxisSelection>,
    selection: Option<TableAxisSelection>,
    id: u64,
    from: int,
)
    ensures
        document::index_from(synced_nodes(nodes, preview, selection), id, from)
            == document::index_from(nodes, id, from),
    decreases nodes.len() - from,
{
    if 0 <= from < nodes.len() {
        lemma_synced_index(nodes, preview, selection, id, from + 1);
    }
}

/// Showing the selections does not change which of them are valid.
pub proof fn showing_selections_keeps_them_valid(
    nodes: Nodes,
    preview: Option<TableAxisSelection>,
    selection: Option<TableAxisSelection>,
    axis: TableAxisSelection,
)
    ensures
        axis_valid(synced_nodes(nodes, preview, selection), axis) == axis_valid(nodes, axis),
{
    lemma_synced_index(nodes, preview, selection, axis.table_block_id, 0);
    document::lemma_index_from(nodes, axis.table_block_id, 0);
}

/// After any change of the selection, what is selected is there.
pub proof fn selections_are_always_there(s: EditorView, selection: Option<TableAxisSelection>)
    requires
        s.axis.selection matches Some(axis) ==> axis_valid(s.document, axis),
    ensures
        with_selection(s, selection).axis.selection matches Some(axis) ==> axis_valid(
            with_selection(s, selection).document,
            axis,
        ),
{
    let changed = EditorView { axis: AxisView { selection, ..s.axis }, ..s };
    let kept = axis_normalized(changed);
    if let Some(axis) = kept.axis.selection {
        showing_selections_keeps_them_valid(
            s.document,
            kept.axis.preview,
            kept.axis.selection,
            axis,
        );
    }
}

/// A cell is highlighted as selected exactly when the selected row or column
/// goes through it.
pub proof fn selected_cells_are_those_of_the_selection(
    preview: Option<TableAxisMarker>,
    selected: Option<TableAxisMarker>,
    row: int,
    column: int,
)
    ensures
        highlight_at(preview, selected, row, column) == TableAxisHighlight::Selected <==> marks(
            selected,
            (row, column),
        ),
{
}

// ---------------------------------------------------------------------------
// Records
// ---------------------------------------------------------------------------

/// The titles of a row of cells.
pub open spec fn cell_titles(cells: Seq<CellView>) -> Seq<Title> {
    Seq::new(cells.len(), |i: int| cells[i].title)
}

/// The table that editable cells make up, with the settings of `record`.
pub open spec fn table_from_runtime(runtime: RuntimeView, record: Option<TableView>) -> TableView {
    TableView {
        header: cell_titles(runtime.header),
        alignments: match record {
            Some(table) => table.alignments,
            None => Seq::empty(),
        },
        rows: Seq::new(runtime.rows.len(), |i: int| cell_titles(runtime.rows[i])),
        widths: match record {
            Some(table) => table.widths,
            None => None,
        },
    }
}

/// A block with its table taken from its editable cells.
pub open spec fn record_synced(node: NodeView) -> NodeView {
    match node.runtime {
        Some(runtime) => NodeView {
            table: Some(table_from_runtime(runtime, node.table)),
            ..node
        },
        None => node,
    }
}

/// The state with a table taken from its editable cells.
pub open spec fn synced_record(s: EditorView, id: u64) -> EditorView {
    match document::index_of(s.document, id) {
        Some(i) => EditorView {
            document: s.document.update(i, record_synced(s.document[i])),
            ..s
        },
        None => s,
    }
}

/// The table of a block.
pub open spec fn table_of(s: EditorView, id: u64) -> Option<TableView> {
    match document::index_of(s.document, id) {
        Some(i) => s.document[i].table,
        None => None,
    }
}

/// The state with the table of a block replaced.
pub open spec fn table_replaced(s: EditorView, id: u64, table: TableView) -> EditorView {
    match document::index_of(s.document, id) {
        Some(i) => EditorView {
            document: s.document.update(
                i,
                NodeView { table: Some(table), ..s.document[i] },
            ),
            ..s
        },
        None => s,
    }
}

/// Making the cells of a table and reading them back gives the table.
pub proof fn cells_keep_the_table(table: TableView, id: int)
    ensures
        table_from_runtime(runtime_for(table, id), Some(table)) == table,
{
    let back = table_from_runtime(runtime_for(table, id), Some(table));
    assert(back.header =~= table.header);
    lemma_body_titles(table.rows, table.alignments, id + table.header.len());
    assert(back.rows =~= table.rows);
}

proof fn lemma_body_titles(
    rows: Seq<Seq<Title>>,
    alignments: Seq<TableColumnAlignment>,
    id: int,
)
    ensures
        body_runtime(rows, alignments, id).len() == rows.len(),
        forall|i: int|
            0 <= i < rows.len() ==> cell_titles(#[trigger] body_runtime(rows, alignments, id)[i])
                == rows[i],
    decreases rows.len(),
{
    if rows.len() > 0 {
        lemma_body_titles(rows.drop_last(), alignments, id);
        assert forall|i: int| 0 <= i < rows.len() implies cell_titles(
            #[trigger] body_runtime(rows, alignments, id)[i],
        ) == rows[i] by {
            if i < rows.len() - 1 {
                assert(rows.drop_last()[i] == rows[i]);
                assert(body_runtime(rows, alignments, id)[i] == body_runtime(
                    rows.drop_last(),
                    alignments,
                    id,
                )[i]);
            } else {
                assert(cell_titles(body_runtime(rows, alignments, id)[i]) =~= rows[i]);
            }
        }
    }
}

// ---------------------------------------------------------------------------
// Running code
// ---------------------------------------------------------------------------

fn build_row(
    titles: &Vec<InlineTextTree>,
    row: usize,
    alignments: &Vec<TableColumnAlignment>,
    id: u64,
) -> (r: Vec<TableCell>)
    requires
        id + titles@.len() <= u64::MAX,
    ensures
        editor::cell_views(r@) == row_runtime(
            blocks::titles(titles@),
            row as int,
            alignments@,
            id as int,
        ),
{
    let mut out: Vec<TableCell> = Vec::new();
    let mut next: u64 = id;
    let mut column: usize = 0;
    while column < titles.len()
        invariant
            column <= titles@.len(),
            id + titles@.len() <= u64::MAX,
            next == id + column,
            out@.len() == column,
            forall|k: int|
                0 <= k < column ==> (#[trigger] out@[k])@ == row_runtime(
                    blocks::titles(titles@),
                    row as int,
                    alignments@,
                    id as int,
                )[k],
        decreases titles@.len() - column,
    {
        let alignment = if column < alignments.len() {
            alignments[column]
        } else {
            TableColumnAlignment::Default
        };
        out.push(
            TableCell {
                id: next,
                title: titles[column].duplicate(),
                display_text: titles[column].text(),
                selection: BlockSelection::Visible { start: 0, end: 0 },
                selection_reversed: false,
                marked: false,
                position: TableCellPosition { row, column },
                alignment,
                highlight: TableAxisHighlight::Plain,
            },
        );
        next = next + 1;
        column = column + 1;
    }
    assert(editor::cell_views(out@) =~= row_runtime(
        blocks::titles(titles@),
        row as int,
        alignments@,
        id as int,
    ));
    out
}

proof fn lemma_cells_in_monotonic(rows: Seq<Seq<Title>>, n: int)
    requires
        0 <= n <= rows.len(),
    ensures
        cells_in(rows.take(n)) <= cells_in(rows),
    decreases rows.len(),
{
    if n < rows.len() {
        lemma_cells_in_monotonic(rows.drop_last(), n);
        assert(rows.drop_last().take(n) =~= rows.take(n));
    } else {
        assert(rows.take(n) =~= rows);
    }
}

/// The editable cells of a table, with ids from `id` on, and the next id.
fn build_runtime(table: &TableData, id: u64) -> (r: (TableRuntime, u64))
    requires
        id + cell_count(table@) <= u64::MAX,
    ensures
        r.0@ == runtime_for(table@, id as int),
        r.1 == id + cell_count(table@),
{
    let header = build_row(&table.header, 0, &table.alignments, id);
    let ghost all = blocks::title_rows(table.rows@);
    let width: usize = table.header.len();
    let ghost first = id + width;
    let mut next: u64 = id + width as u64;
    let mut rows: Vec<Vec<TableCell>> = Vec::new();
    let mut i: usize = 0;
    assert(all.take(0) =~= Seq::empty());
    assert(editor::cell_rows(rows@) =~= Seq::empty());
    while i < table.rows.len()
        invariant
            all == blocks::title_rows(table.rows@),
            i <= table.rows@.len(),
            first + cells_in(all) <= u64::MAX,
            first == id + table@.header.len(),
            next == first + cells_in(all.take(i as int)),
            editor::cell_rows(rows@) == body_runtime(
                all.take(i as int),
                table.alignments@,
                first as int,
            ),
        decreases table.rows@.len() - i,
    {
        proof {
            assert(all.take(i + 1).drop_last() =~= all.take(i as int));
            assert(all.take(i + 1).last() == blocks::titles(table.rows@[i as int]@));
            lemma_cells_in_monotonic(all, i + 1);
        }
        let ghost before = rows@;
        let row = build_row(&table.rows[i], i + 1, &table.alignments, next);
        rows.push(row);
        proof {
            assert(editor::cell_rows(rows@) =~= editor::cell_rows(before).push(
                editor::cell_views(row@),
            ));
        }
        next = next + table.rows[i].len() as u64;
        i = i + 1;
    }
    assert(all.take(i as int) =~= all);
    (TableRuntime { header, rows }, next)
}

proof fn lemma_document_cells_monotonic(nodes: Nodes, n: int)
    requires
        0 <= n <= nodes.len(),
    ensures
        document_cells(nodes.take(n)) <= document_cells(nodes),
    decreases nodes.len(),
{
    if n < nodes.len() {
        lemma_document_cells_monotonic(nodes.drop_last(), n);
        assert(nodes.drop_last().take(n) =~= nodes.take(n));
    } else {
        assert(nodes.take(n) =~= nodes);
    }
}

/// Makes the cells of all tables anew, with ids from `id` on, and gives the next
/// id.
fn rebuild_runtimes(nodes: &mut Vec<DocBlock>, id: u64) -> (next: u64)
    requires
        id + document_cells(editor::node_views(old(nodes)@)) <= u64::MAX,
    ensures
        editor::node_views(final(nodes)@) == rebuilt_nodes(
            editor::node_views(old(nodes)@),
            id as int,
        ),
        next == id + document_cells(editor::node_views(old(nodes)@)),
{
    let ghost before = editor::node_views(nodes@);
    let mut next: u64 = id;
    let mut i: usize = 0;
    assert(before.take(0) =~= Seq::empty());
    assert(editor::node_views(nodes@).take(0) =~= Seq::empty());
    while i < nodes.len()
        invariant
            i <= nodes@.len(),
            nodes@.len() == before.len(),
            id + document_cells(before) <= u64::MAX,
            next == id + document_cells(before.take(i as int)),
            editor::node_views(nodes@).take(i as int) == rebuilt_nodes(
                before.take(i as int),
                id as int,
            ),
            forall|k: int| i <= k < before.len() ==> (#[trigger] nodes@[k])@ == before[k],
        decreases nodes@.len() - i,
    {
        proof {
            assert(before.take(i + 1).drop_last() =~= before.take(i as int));
            assert(before.take(i + 1).last() == before[i as int]);
            lemma_document_cells_monotonic(before, i + 1);
            assert(nodes@[i as int]@ == before[i as int]);
        }
        let ghost done = editor::node_views(nodes@).take(i as int);
        let is_table = matches!(nodes[i].kind, BlockKind::Table);
        let runtime = if is_table {
            match &nodes[i].table {
                Some(table) => {
                    let (runtime, after) = build_runtime(table, next);
                    next = after;
                    Some(runtime)
                },
                None => None,
            }
        } else {
            None
        };
        nodes[i].runtime = runtime;
        proof {
            let now = editor::node_views(nodes@);
            assert(now.take(i + 1) =~= done.push(now[i as int]));
            assert(now[i as int] == (NodeView {
                runtime: editor::opt_runtime(runtime),
                ..before[i as int]
            }));
        }
        i = i + 1;
    }
    assert(before.take(i as int) =~= before);
    assert(editor::node_views(nodes@).take(i as int) =~= editor::node_views(nodes@));
    next
}

fn marker_of(selection: Option<TableAxisSelection>, id: u64) -> (r: Option<TableAxisMarker>)
    ensures
        r == marker_in(selection, id),
{
    match selection {
        Some(axis) => {
            if axis.table_block_id == id {
                Some(Editor::table_axis_marker(axis))
            } else {
                None
            }
        },
        None => None,
    }
}

fn is_marked(marker: Option<TableAxisMarker>, row: usize, column: usize) -> (r: bool)
    ensures
        r == marks(marker, (row as int, column as int)),
{
    match marker {
        Some(axis) => match axis.kind {
            TableAxisKind::Column => axis.index == column,
            TableAxisKind::Row => axis.index == row,
        },
        None => false,
    }
}

fn highlight_row(
    cells: &mut Vec<TableCell>,
    row: usize,
    preview: Option<TableAxisMarker>,
    selected: Option<TableAxisMarker>,
)
    ensures
        editor::cell_views(final(cells)@) == highlighted_row(
            editor::cell_views(old(cells)@),
            row as int,
            preview,
            selected,
        ),
{
    let ghost before = editor::cell_views(cells@);
    let mut column: usize = 0;
    while column < cells.len()
        invariant
            column <= cells@.len(),
            cells@.len() == before.len(),
            forall|k: int|
                0 <= k < column ==> (#[trigger] cells@[k])@ == highlighted_row(
                    before,
                    row as int,
                    preview,
                    selected,
                )[k],
            forall|k: int| column <= k < before.len() ==> (#[trigger] cells@[k])@ == before[k],
        decreases cells@.len() - column,
    {
        assert(cells@[column as int]@ == before[column as int]);
        let highlight = if is_marked(selected, row, column) {
            TableAxisHighlight::Selected
        } else if is_marked(preview, row, column) {
            TableAxisHighlight::Preview
        } else {
            TableAxisHighlight::Plain
        };
        cells[column].highlight = highlight;
        column = column + 1;
    }
    assert(editor::cell_views(cells@) =~= highlighted_row(before, row as int, preview, selected));
}

fn highlight_cells(
    runtime: &mut TableRuntime,
    preview: Option<TableAxisMarker>,
    selected: Option<TableAxisMarker>,
)
    ensures
        final(runtime)@ == highlighted(old(runtime)@, preview, selected),
{
    let ghost before = runtime@;
    highlight_row(&mut runtime.header, 0, preview, selected);
    let ghost header1 = runtime@.header;
    let mut i: usize = 0;
    while i < runtime.rows.len()
        invariant
            i <= runtime.rows@.len(),
            runtime.rows@.len() == before.rows.len(),
            runtime@.header == header1,
            forall|k: int|
                0 <= k < i ==> editor::cell_views((#[trigger] runtime.rows@[k])@)
                    == highlighted_row(before.rows[k], k + 1, preview, selected),
            forall|k: int|
                i <= k < before.rows.len() ==> editor::cell_views((#[trigger] runtime.rows@[k])@)
                    == before.rows[k],
        decreases runtime.rows@.len() - i,
    {
        assert(editor::cell_views(runtime.rows@[i as int]@) == before.rows[i as int]);
        highlight_row(&mut runtime.rows[i], i + 1, preview, selected);
        i = i + 1;
    }
    assert(runtime@.rows =~= highlighted(before, preview, selected).rows);
}

/// Shows the selected and pointed-at rows and columns in the tables.
fn show_axes(
    nodes: &mut Vec<DocBlock>,
    preview: Option<TableAxisSelection>,
    selection: Option<TableAxisSelection>,
)
    ensures
        editor::node_views(final(nodes)@) == synced_nodes(
            editor::node_views(old(nodes)@),
            preview,
            selection,
        ),
{
    let ghost before = editor::node_views(nodes@);
    let mut i: usize = 0;
    while i < nodes.len()
        invariant
            i <= nodes@.len(),
            nodes@.len() == before.len(),
            forall|k: int|
                0 <= k < i ==> (#[trigger] nodes@[k])@ == synced_node(
                    before[k],
                    preview,
                    selection,
                ),
            forall|k: int| i <= k < before.len() ==> (#[trigger] nodes@[k])@ == before[k],
        decreases nodes@.len() - i,
    {
        assert(nodes@[i as int]@ == before[i as int]);
        let is_table = matches!(nodes[i].kind, BlockKind::Table);
        if is_table {
            let id: u64 = nodes[i].id;
            let p = marker_of(preview, id);
            let m = marker_of(selection, id);
            nodes[i].axis_preview = p;
            nodes[i].axis_selected = m;
            let mut runtime: Option<TableRuntime> = None;
            std::mem::swap(&mut runtime, &mut nodes[i].runtime);
            let shown = match runtime {
                Some(cells) => {
                    let mut cells = cells;
                    highlight_cells(&mut cells, p, m);
                    Some(cells)
                },
                None => None,
            };
            nodes[i].runtime = shown;
        }
        i = i + 1;
    }
    assert(editor::node_views(nodes@) =~= synced_nodes(before, preview, selection));
}

fn row_titles(cells: &Vec<TableCell>) -> (r: Vec<InlineTextTree>)
    ensures
        blocks::titles(r@) == cell_titles(editor::cell_views(cells@)),
{
    let mut out: Vec<InlineTextTree> = Vec::new();
    let mut i: usize = 0;
    while i < cells.len()
        invariant
            i <= cells@.len(),
            out@.len() == i,
            forall|k: int| 0 <= k < i ==> (#[trigger] out@[k])@ == cells@[k]@.title,
        decreases cells@.len() - i,
    {
        out.push(cells[i].title.duplicate());
        i = i + 1;
    }
    assert(blocks::titles(out@) =~= cell_titles(editor::cell_views(cells@)));
    out
}

/// The table that editable cells make up, with the settings of `record`.
pub fn read_table(runtime: &TableRuntime, record: &Option<TableData>) -> (r: TableData)
    ensures
        r@ == table_from_runtime(runtime@, blocks::opt_table(*record)),
{
    let mut rows: Vec<Vec<InlineTextTree>> = Vec::new();
    let mut i: usize = 0;
    while i < runtime.rows.len()
        invariant
            i <= runtime.rows@.len(),
            rows@.len() == i,
            forall|k: int|
                0 <= k < i ==> blocks::titles((#[trigger] rows@[k])@) == cell_titles(
                    editor::cell_views(runtime.rows@[k]@),
                ),
        decreases runtime.rows@.len() - i,
    {
        rows.push(row_titles(&runtime.rows[i]));
        i = i + 1;
    }
    let header = row_titles(&runtime.header);
    let table = match record {
        Some(table) => {
            let TableData { header: _h, alignments, rows: _r, widths } = table.duplicate();
            TableData { header, alignments, rows, widths }
        },
        None => TableData { header, alignments: Vec::new(), rows, widths: None },
    };
    assert(table@.rows =~= table_from_runtime(runtime@, blocks::opt_table(*record)).rows);
    table
}

impl Editor {
    /// A block that holds a table.
    pub fn new_table_block(table: TableData) -> (r: Block)
        ensures
            r@ == import_model::table_leaf(table@),
    {
        table_block(table)
    }

    /// Makes the editable cells of the table of a block.
    pub fn install_table_runtime_for_block(&mut self, table_block_id: u64, table: &TableData)
        requires
            old(self)@.next_id + cell_count(table@) <= u64::MAX,
        ensures
            final(self)@ == (match document::index_of(old(self)@.document, table_block_id) {
                Some(i) => EditorView {
                    document: old(self)@.document.update(
                        i,
                        NodeView {
                            runtime: Some(runtime_for(table@, old(self)@.next_id as int)),
                            ..old(self)@.document[i]
                        },
                    ),
                    next_id: (old(self)@.next_id + cell_count(table@)) as u64,
                    ..old(self)@
                },
                None => old(self)@,
            }),
    {
        match find_index(&self.document, table_block_id) {
            Some(i) => {
                let ghost before = self@.document;
                let (runtime, next) = build_runtime(table, self.next_id);
                self.document[i].runtime = Some(runtime);
                self.next_id = next;
                proof {
                    assert(self@.document =~= before.update(
                        i as int,
                        NodeView { runtime: Some(runtime@), ..before[i as int] },
                    ));
                }
            },
            None => {},
        }
    }

    /// Makes the editable cells of all tables anew.
    pub fn rebuild_table_runtimes(&mut self)
        requires
            room_for_cells(old(self)@),
        ensures
            final(self)@ == tables_rebuilt(old(self)@),
    {
        self.axis.preview = None;
        let next: u64 = rebuild_runtimes(&mut self.document, self.next_id);
        self.next_id = next;
        self.sync_table_axis_visuals();
    }

    /// Takes the table of a block from its editable cells.
    pub fn sync_table_record_from_runtime(&mut self, table_block_id: u64)
        ensures
            final(self)@ == synced_record(old(self)@, table_block_id),
    {
        match find_index(&self.document, table_block_id) {
            Some(i) => {
                let ghost before = self@.document;
                let table = match &self.document[i].runtime {
                    Some(runtime) => Some(read_table(runtime, &self.document[i].table)),
                    None => None,
                };
                if let Some(table) = table {
                    self.document[i].table = Some(table);
                }
                assert(self@.document =~= before.update(
                    i as int,
                    record_synced(before[i as int]),
                ));
            },
            None => {},
        }
    }

    /// A row or column inside its table.
    pub fn table_axis_marker(selection: TableAxisSelection) -> (r: TableAxisMarker)
        ensures
            r == (TableAxisMarker { kind: selection.kind, index: selection.index }),
    {
        TableAxisMarker { kind: selection.kind, index: selection.index }
    }

    /// Stops pointing at a row or column.
    pub fn clear_table_axis_preview(&mut self)
        ensures
            final(self)@ == with_preview(old(self)@, None),
    {
        if self.axis.preview.is_some() {
            self.axis.preview = None;
            self.sync_table_axis_visuals();
        }
    }

    /// Deselects the row or column.
    pub fn clear_table_axis_selection(&mut self)
        ensures
            final(self)@ == with_selection(old(self)@, None),
    {
        if self.axis.selection.is_some() {
            self.axis.selection = None;
            self.sync_table_axis_visuals();
        }
    }

    /// Points at another row or column.
    pub fn set_table_axis_preview(&mut self, preview: Option<TableAxisSelection>)
        ensures
            final(self)@ == with_preview(old(self)@, preview),
    {
        if !same_axis(self.axis.preview, preview) {
            self.axis.preview = preview;
            self.sync_table_axis_visuals();
        }
    }

    /// Selects another row or column.
    pub fn set_table_axis_selection(&mut self, selection: Option<TableAxisSelection>)
        ensures
            final(self)@ == with_selection(old(self)@, selection),
    {
        if !same_axis(self.axis.selection, selection) {
            self.axis.selection = selection;
            self.sync_table_axis_visuals();
        }
    }

    /// Whether the selected row or column is there.
    pub fn table_axis_selection_valid(&self, selection: TableAxisSelection) -> (r: bool)
        ensures
            r == axis_valid(self@.document, selection),
    {
        match find_index(&self.document, selection.table_block_id) {
            None => false,
            Some(i) => matches!(self.document[i].kind, BlockKind::Table)
                && match &self.document[i].runtime {
                None => false,
                Some(runtime) => match selection.kind {
                    TableAxisKind::Column => selection.index < runtime.header.len(),
                    TableAxisKind::Row => selection.index <= runtime.rows.len(),
                },
            },
        }
    }

    /// Drops a selection and a preview that are not there.
    pub fn normalize_table_axis_state(&mut self)
        ensures
            final(self)@ == axis_normalized(old(self)@),
    {
        if let Some(selection) = self.axis.selection {
            if !self.table_axis_selection_valid(selection) {
                self.axis.selection = None;
            }
        }
        if let Some(preview) = self.axis.preview {
            if !self.table_axis_selection_valid(preview) {
                self.axis.preview = None;
            }
        }
    }

    /// Shows the valid selection and preview in the tables.
    pub fn sync_table_axis_visuals(&mut self)
        ensures
            final(self)@ == visuals_synced(old(self)@),
    {
        self.normalize_table_axis_state();
        show_axes(&mut self.document, self.axis.preview, self.axis.selection);
    }

    /// Points at a row or column, or stops pointing at it. Leaving a row or
    /// column that is no longer pointed at changes nothing.
    pub fn preview_table_axis(
        &mut self,
        table_block_id: u64,
        kind: TableAxisKind,
        index: usize,
        hovered: bool,
    )
        ensures
            final(self)@ == previewed(
                old(self)@,
                TableAxisSelection { table_block_id, kind, index },
                hovered,
            ),
    {
        let marker = TableAxisSelection { table_block_id, kind, index };
        if hovered {
            self.set_table_axis_preview(Some(marker));
        } else if same_axis(self.axis.preview, Some(marker)) {
            self.set_table_axis_preview(None);
        }
    }

    /// Selects a row or column and points at it.
    pub fn select_table_axis(&mut self, table_block_id: u64, kind: TableAxisKind, index: usize)
        ensures
            final(self)@ == axis_chosen(
                old(self)@,
                TableAxisSelection { table_block_id, kind, index },
            ),
    {
        let selection = TableAxisSelection { table_block_id, kind, index };
        self.set_table_axis_preview(Some(selection));
        self.set_table_axis_selection(Some(selection));
    }
}

/// The state after the pointer enters or leaves a row or column.
pub open spec fn previewed(s: EditorView, axis: TableAxisSelection, hovered: bool) -> EditorView {
    if hovered {
        with_preview(s, Some(axis))
    } else if s.axis.preview == Some(axis) {
        with_preview(s, None)
    } else {
        s
    }
}

/// The state with a row or column selected and pointed at.
pub open spec fn axis_chosen(s: EditorView, axis: TableAxisSelection) -> EditorView {
    with_selection(with_preview(s, Some(axis)), Some(axis))
}

fn same_axis(a: Option<TableAxisSelection>, b: Option<TableAxisSelection>) -> (r: bool)
    ensures
        r == (a == b),
{
    match a {
        Some(x) => match b {
            Some(y) => x == y,
            None => false,
        },
        None => b.is_none(),
    }
}

} // verus!
