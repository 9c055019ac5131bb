//! The blocks and cells that can be edited, and the selection in them.

use crate::document;
use crate::document::find_index;
use crate::editor;
use crate::editor::{
    BlockSelection, CellView, DocBlock, Editor, EditorView, NodeView, Nodes, RuntimeView,
    TableCell, TableCellPosition, TableRuntime,
};
use crate::focus;
use vstd::prelude::*;

verus! {

/// The first cell of a row at or after `from` with this id.
pub open spec fn cell_from(cells: Seq<CellView>, id: u64, from: int) -> Option<int>
    decreases cells.len() - from,
{
    if from < 0 || from >= cells.len() {
        None
    } else if cells[from].id == id {
        Some(from)
    } else {
        cell_from(cells, id, from + 1)
    }
}

/// The place of the first cell with this id in the body rows at or after `from`.
pub open spec fn body_cell_from(rows: Seq<Seq<CellView>>, id: u64, from: int) -> Option<
    TableCellPosition,
>
    decreases rows.len() - from,
{
    if from < 0 || from >= rows.len() {
        None
    } else {
        match cell_from(rows[from], id, 0) {
            Some(column) => Some(rows[from][column].position),
            None => body_cell_from(rows, id, from + 1),
        }
    }
}

/// The place of the cell with this id in a table.
pub open spec fn cell_position(runtime: RuntimeView, id: u64) -> Option<TableCellPosition> {
    match cell_from(runtime.header, id, 0) {
        Some(column) => Some(runtime.header[column].position),
        None => body_cell_from(runtime.rows, id, 0),
    }
}

/// The table that a cell belongs to, looking from the block at `from` on, and the
/// cell's place in it.
pub open spec fn binding_from(nodes: Nodes, id: u64, from: int) -> Option<
    (int, TableCellPosition),
>
    decreases nodes.len() - from,
{
    if from < 0 || from >= nodes.len() {
        None
    } else {
        match nodes[from].runtime {
            Some(runtime) => match cell_position(runtime, id) {
                Some(position) => Some((from, position)),
                None => binding_from(nodes, id, from + 1),
            },
            None => binding_from(nodes, id, from + 1),
        }
    }
}

/// The table that a cell belongs to and the cell's place in it.
pub open spec fn binding_of(nodes: Nodes, id: u64) -> Option<(int, TableCellPosition)> {
    binding_from(nodes, id, 0)
}

/// The cell that is found lies in a block of the document that has cells.
pub proof fn lemma_binding_from(nodes: Nodes, id: u64, from: int)
    requires
        0 <= from,
    ensures
        binding_from(nodes, id, from) matches Some(b) ==> from <= b.0 < nodes.len()
            && nodes[b.0].runtime is Some,
    decreases nodes.len() - from,
{
    if from < nodes.len() {
        lemma_binding_from(nodes, id, from + 1);
    }
}

/// Whether there is a block or cell with this id.
pub open spec fn focusable(nodes: Nodes, id: u64) -> bool {
    document::index_of(nodes, id) is Some || binding_of(nodes, id) is Some
}

/// The cell at a place in a table.
pub open spec fn cell_at(runtime: RuntimeView, position: TableCellPosition) -> Option<CellView> {
    if position.row == 0 {
        if position.column < runtime.header.len() {
            Some(runtime.header[position.column as int])
        } else {
            None
        }
    } else if position.row <= runtime.rows.len() && position.column < runtime.rows[position.row
        - 1].len() {
        Some(runtime.rows[position.row - 1][position.column as int])
    } else {
        None
    }
}

/// A cell with its selection set, if it is the one with this id.
pub open spec fn cell_selected(
    cell: CellView,
    id: u64,
    selection: BlockSelection,
    reversed: bool,
) -> CellView {
    if cell.id == id {
        CellView { selection, selection_reversed: reversed, marked: false, ..cell }
    } else {
        cell
    }
}

/// A row with the selection set in the cell with this id.
pub open spec fn row_selected(
    cells: Seq<CellView>,
    id: u64,
    selection: BlockSelection,
    reversed: bool,
) -> Seq<CellView> {
    Seq::new(cells.len(), |i: int| cell_selected(cells[i], id, selection, reversed))
}

/// A table with the selection set in the cell with this id.
pub open spec fn runtime_selected(
    runtime: RuntimeView,
    id: u64,
    selection: BlockSelection,
    reversed: bool,
) -> RuntimeView {
    RuntimeView {
        header: row_selected(runtime.header, id, selection, reversed),
        rows: Seq::new(
            runtime.rows.len(),
            |i: int| row_selected(runtime.rows[i], id, selection, reversed),
        ),
    }
}

/// A block with the selection set, if it or one of its cells has this id.
pub open spec fn node_selected(
    node: NodeView,
    id: u64,
    selection: BlockSelection,
    reversed: bool,
) -> NodeView {
    if node.id == id {
        NodeView { selection, selection_reversed: reversed, marked: false, ..node }
    } else {
        match node.runtime {
            Some(runtime) => NodeView {
                runtime: Some(runtime_selected(runtime, id, selection, reversed)),
                ..node
            },
            None => node,
        }
    }
}

/// The document with the selection set in the block or cell with this id.
pub open spec fn selected_in(
    nodes: Nodes,
    id: u64,
    selection: BlockSelection,
    reversed: bool,
) -> Nodes {
    Seq::new(nodes.len(), |i: int| node_selected(nodes[i], id, selection, reversed))
}

/// The state with a range of a block or cell selected and focused.
pub open spec fn range_focused(s: EditorView, id: u64, start: usize, end: usize) -> EditorView {
    focus::focused(
        EditorView {
            document: selected_in(s.document, id, BlockSelection::Visible { start, end }, false),
            ..s
        },
        id,
    )
}

/// Setting a selection leaves the ids and depths as they are.
pub proof fn selecting_keeps_the_shape(
    nodes: Nodes,
    id: u64,
    selection: BlockSelection,
    reversed: bool,
)
    ensures
        document::same_shape(nodes, selected_in(nodes, id, selection, reversed)),
{
}

// ---------------------------------------------------------------------------
// Running code
// ---------------------------------------------------------------------------

fn find_cell(cells: &Vec<TableCell>, id: u64) -> (r: Option<usize>)
    ensures
        r matches Some(i) ==> cell_from(editor::cell_views(cells@), id, 0) == Some(i as int) && i
            < cells@.len(),
        r is None ==> cell_from(editor::cell_views(cells@), id, 0) is None,
{
    let ghost views = editor::cell_views(cells@);
    let mut i: usize = 0;
    while i < cells.len()
        invariant
            views == editor::cell_views(cells@),
            i <= cells@.len(),
            cell_from(views, id, 0) == cell_from(views, id, i as int),
        decreases cells@.len() - i,
    {
        if cells[i].id == id {
            return Some(i);
        }
        i = i + 1;
    }
    None
}

fn find_cell_position(runtime: &TableRuntime, id: u64) -> (r: Option<TableCellPosition>)
    ensures
        r == cell_position(runtime@, id),
{
    if let Some(column) = find_cell(&runtime.header, id) {
        return Some(runtime.header[column].position);
    }
    let ghost rows = editor::cell_rows(runtime.rows@);
    let mut i: usize = 0;
    while i < runtime.rows.len()
        invariant
            rows == editor::cell_rows(runtime.rows@),
            i <= runtime.rows@.len(),
            body_cell_from(rows, id, 0) == body_cell_from(rows, id, i as int),
            cell_from(runtime@.header, id, 0) is None,
        decreases runtime.rows@.len() - i,
    {
        if let Some(column) = find_cell(&runtime.rows[i], id) {
            return Some(runtime.rows[i][column].position);
        }
        i = i + 1;
    }
    None
}

/// The table that a cell belongs to and the cell's place in it.
pub fn find_binding(nodes: &Vec<DocBlock>, id: u64) -> (r: Option<(usize, TableCellPosition)>)
    ensures
        r matches Some(b) ==> binding_of(editor::node_views(nodes@), id) == Some((b.0 as int, b.1))
            && b.0 < nodes@.len() && nodes@[b.0 as int].runtime is Some,
        r is None ==> binding_of(editor::node_views(nodes@), id) is None,
{
    let ghost views = editor::node_views(nodes@);
    let mut i: usize = 0;
    while i < nodes.len()
        invariant
            views == editor::node_views(nodes@),
            i <= nodes@.len(),
            binding_from(views, id, 0) == binding_from(views, id, i as int),
        decreases nodes@.len() - i,
    {
        if let Some(runtime) = &nodes[i].runtime {
            if let Some(position) = find_cell_position(runtime, id) {
                return Some((i, position));
            }
        }
        i = i + 1;
    }
    None
}

/// Whether there is a block or cell with this id.
pub fn is_focusable(nodes: &Vec<DocBlock>, id: u64) -> (r: bool)
    ensures
        r == focusable(editor::node_views(nodes@), id),
{
    find_index(nodes, id).is_some() || find_binding(nodes, id).is_some()
}

/// The id of the cell at a place in a table.
pub fn cell_id_at(runtime: &TableRuntime, position: TableCellPosition) -> (r: Option<u64>)
    ensures
        r == (match cell_at(runtime@, position) {
            Some(cell) => Some(cell.id),
            None => None,
        }),
{
    if position.row == 0 {
        if position.column < runtime.header.len() {
            Some(runtime.header[position.column].id)
        } else {
            None
        }
    } else if position.row <= runtime.rows.len() && position.column < runtime.rows[position.row
        - 1].len() {
        Some(runtime.rows[position.row - 1][position.column].id)
    } else {
        None
    }
}

fn select_in_row(cells: &mut Vec<TableCell>, id: u64, selection: BlockSelection, reversed: bool)
    ensures
        editor::cell_views(final(cells)@) == row_selected(
            editor::cell_views(old(cells)@),
            id,
            selection,
            reversed,
        ),
{
    let ghost before = editor::cell_views(cells@);
    let mut i: usize = 0;
    while i < cells.len()
        invariant
            i <= cells@.len(),
            cells@.len() == before.len(),
            forall|k: int|
                0 <= k < i ==> (#[trigger] cells@[k])@ == cell_selected(
                    before[k],
                    id,
                    selection,
                    reversed,
                ),
            forall|k: int| i <= k < before.len() ==> (#[trigger] cells@[k])@ == before[k],
        decreases cells@.len() - i,
    {
        assert(cells@[i as int]@ == before[i as int]);
        if cells[i].id == id {
            cells[i].selection = selection;
            cells[i].selection_reversed = reversed;
            cells[i].marked = false;
        }
        i = i + 1;
    }
    assert(editor::cell_views(cells@) =~= row_selected(before, id, selection, reversed));
}

fn select_in_runtime(
    runtime: &mut TableRuntime,
    id: u64,
    selection: BlockSelection,
    reversed: bool,
)
    ensures
        final(runtime)@ == runtime_selected(old(runtime)@, id, selection, reversed),
{
    let ghost before = runtime@;
    select_in_row(&mut runtime.header, id, selection, reversed);
    let ghost header1 = runtime@.header;
    let mut i: usize = 0;
    while i < runtime.rows.len()
        invariant
            i <= runtime.rows@.len(),
            runtime.rows@.len() == before.rows.len(),
            runtime@.header == header1,
            forall|k: int|
                0 <= k < i ==> editor::cell_views((#[trigger] runtime.rows@[k])@) == row_selected(
                    before.rows[k],
                    id,
                    selection,
                    reversed,
                ),
            forall|k: int|
                i <= k < before.rows.len() ==> editor::cell_views((#[trigger] runtime.rows@[k])@)
                    == before.rows[k],
        decreases runtime.rows@.len() - i,
    {
        assert(editor::cell_views(runtime.rows@[i as int]@) == before.rows[i as int]);
        select_in_row(&mut runtime.rows[i], id, selection, reversed);
        i = i + 1;
    }
    assert(runtime@.rows =~= runtime_selected(before, id, selection, reversed).rows);
}

/// Sets the selection in the block or cell with this id.
pub fn select_in(nodes: &mut Vec<DocBlock>, id: u64, selection: BlockSelection, reversed: bool)
    ensures
        editor::node_views(final(nodes)@) == selected_in(
            editor::node_views(old(nodes)@),
            id,
            selection,
            reversed,
        ),
{
    let ghost before = editor::node_views(nodes@);
    let mut i: usize = 0;
    while i < nodes.len()
        invariant
            i <= nodes@.len(),
            nodes@.len() == before.len(),
            forall|k: int|
                0 <= k < i ==> (#[trigger] nodes@[k])@ == node_selected(
                    before[k],
                    id,
                    selection,
                    reversed,
                ),
            forall|k: int| i <= k < before.len() ==> (#[trigger] nodes@[k])@ == before[k],
        decreases nodes@.len() - i,
    {
        assert(nodes@[i as int]@ == before[i as int]);
        if nodes[i].id == id {
            nodes[i].selection = selection;
            nodes[i].selection_reversed = reversed;
            nodes[i].marked = false;
        } else {
            let mut runtime: Option<TableRuntime> = None;
            std::mem::swap(&mut runtime, &mut nodes[i].runtime);
            let changed = match runtime {
                Some(cells) => {
                    let mut cells = cells;
                    select_in_runtime(&mut cells, id, selection, reversed);
                    Some(cells)
                },
                None => None,
            };
            nodes[i].runtime = changed;
        }
        i = i + 1;
    }
    assert(editor::node_views(nodes@) =~= selected_in(before, id, selection, reversed));
}

impl Editor {
    /// Selects a range of a block or cell and focuses it.
    pub fn focus_block_range(&mut self, entity_id: u64, start: usize, end: usize)
        ensures
            final(self)@ == range_focused(old(self)@, entity_id, start, end),
    {
        select_in(
            &mut self.document,
            entity_id,
            BlockSelection::Visible { start, end },
            false,
        );
        self.focus_block(entity_id);
    }
}

} // verus!
