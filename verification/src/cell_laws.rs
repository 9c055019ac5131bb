//! The ids of cells: each cell has one of its own, and it leads back to the cell.

use crate::document;
use crate::editor::{CellView, EditorView, NodeView, Nodes, RuntimeView, TableCellPosition};
use crate::blocks::{TableColumnAlignment, TableView, Title};
use crate::tables;
use crate::targets;
use vstd::prelude::*;

verus! {

// ---------------------------------------------------------------------------
// The ids of new cells
// ---------------------------------------------------------------------------

/// How many cells of a table come before the one in a row and column.
pub open spec fn cells_before(table: TableView, row: int, column: int) -> int {
    if row == 0 {
        column
    } else {
        table.header.len() + tables::cells_in(table.rows.take(row - 1)) + column
    }
}

proof fn lemma_rows_before(rows: Seq<Seq<Title>>, n: int, m: int)
    requires
        0 <= n < m <= rows.len(),
    ensures
        tables::cells_in(rows.take(n)) + rows[n].len() <= tables::cells_in(rows.take(m)),
    decreases m,
{
    assert(rows.take(m).drop_last() =~= rows.take(m - 1));
    if n < m - 1 {
        lemma_rows_before(rows, n, m - 1);
    }
}

proof fn lemma_body_rows(
    rows: Seq<Seq<Title>>,
    alignments: Seq<TableColumnAlignment>,
    id: int,
)
    ensures
        tables::body_runtime(rows, alignments, id).len() == rows.len(),
        forall|k: int|
            0 <= k < rows.len() ==> #[trigger] tables::body_runtime(rows, alignments, id)[k]
                == tables::row_runtime(
                rows[k],
                k + 1,
                alignments,
                id + tables::cells_in(rows.take(k)),
            ),
    decreases rows.len(),
{
    if rows.len() > 0 {
        let before = rows.drop_last();
        lemma_body_rows(before, alignments, id);
        assert forall|k: int| 0 <= k < rows.len() implies #[trigger] tables::body_runtime(
            rows,
            alignments,
            id,
        )[k] == tables::row_runtime(
            rows[k],
            k + 1,
            alignments,
            id + tables::cells_in(rows.take(k)),
        ) by {
            if k < before.len() {
                assert(before.take(k) =~= rows.take(k));
                assert(before[k] == rows[k]);
            } else {
                assert(rows.take(k) =~= before);
            }
        }
    }
}

/// A new table has a cell for each of its texts, with ids in reading order.
pub proof fn lemma_new_cells(table: TableView, id: int)
    ensures
        ({
            let runtime = tables::runtime_for(table, id);
            &&& runtime.header.len() == table.header.len()
            &&& runtime.rows.len() == table.rows.len()
            &&& forall|r: int|
                0 <= r < table.rows.len() ==> (#[trigger] runtime.rows[r]).len()
                    == table.rows[r].len()
            &&& forall|row: int, column: int| #[trigger]
                document::has_cell(runtime, row, column) ==> {
                    let cell = document::cell_in(runtime, row, column);
                    &&& cell.id == (id + cells_before(table, row, column)) as u64
                    &&& cell.position == (TableCellPosition {
                        row: row as usize,
                        column: column as usize,
                    })
                    &&& 0 <= cells_before(table, row, column) < tables::cell_count(table)
                }
        }),
{
    let runtime = tables::runtime_for(table, id);
    lemma_body_rows(table.rows, table.alignments, id + table.header.len());
    assert forall|row: int, column: int| #[trigger]
        document::has_cell(runtime, row, column) implies ({
        let cell = document::cell_in(runtime, row, column);
        &&& cell.id == (id + cells_before(table, row, column)) as u64
        &&& cell.position == (TableCellPosition { row: row as usize, column: column as usize })
        &&& 0 <= cells_before(table, row, column) < tables::cell_count(table)
    }) by {
        if row > 0 {
            assert(runtime.rows[row - 1] == tables::row_runtime(
                table.rows[row - 1],
                row,
                table.alignments,
                id + table.header.len() + tables::cells_in(table.rows.take(row - 1)),
            ));
            lemma_rows_before(table.rows, row - 1, table.rows.len() as int);
            assert(table.rows.take(table.rows.len() as int) =~= table.rows);
        }
    }
}

proof fn lemma_cells_before_differ(
    table: TableView,
    id: int,
    row: int,
    column: int,
    other_row: int,
    other_column: int,
)
    requires
        document::has_cell(tables::runtime_for(table, id), row, column),
        document::has_cell(tables::runtime_for(table, id), other_row, other_column),
        cells_before(table, row, column) == cells_before(table, other_row, other_column),
    ensures
        row == other_row,
        column == other_column,
{
    lemma_new_cells(table, id);
    if 0 < row < other_row {
        lemma_rows_before(table.rows, row - 1, other_row - 1);
    }
    if 0 < other_row < row {
        lemma_rows_before(table.rows, other_row - 1, row - 1);
    }
}

proof fn lemma_blocks_before(nodes: Nodes, n: int, m: int)
    requires
        0 <= n < m <= nodes.len(),
    ensures
        tables::document_cells(nodes.take(n)) + (if tables::shows_table(nodes[n]) {
            tables::cell_count(nodes[n].table->0)
        } else {
            0
        }) <= tables::document_cells(nodes.take(m)),
    decreases m,
{
    assert(nodes.take(m).drop_last() =~= nodes.take(m - 1));
    if n < m - 1 {
        lemma_blocks_before(nodes, n, m - 1);
    }
}

/// Making the cells of all tables anew gives each table its cells, and other blocks
/// none.
pub proof fn lemma_rebuilt_runtimes(nodes: Nodes, id: int)
    ensures
        tables::rebuilt_nodes(nodes, id).len() == nodes.len(),
        forall|i: int|
            0 <= i < nodes.len() ==> #[trigger] tables::rebuilt_nodes(nodes, id)[i] == (NodeView {
                runtime: if tables::shows_table(nodes[i]) {
                    Some(
                        tables::runtime_for(
                            nodes[i].table->0,
                            id + tables::document_cells(nodes.take(i)),
                        ),
                    )
                } else {
                    None
                },
                ..nodes[i]
            }),
    decreases nodes.len(),
{
    if nodes.len() > 0 {
        let before = nodes.drop_last();
        lemma_rebuilt_runtimes(before, id);
        assert forall|i: int| 0 <= i < nodes.len() implies #[trigger] tables::rebuilt_nodes(
            nodes,
            id,
        )[i] == (NodeView {
            runtime: if tables::shows_table(nodes[i]) {
                Some(
                    tables::runtime_for(
                        nodes[i].table->0,
                        id + tables::document_cells(nodes.take(i)),
                    ),
                )
            } else {
                None
            },
            ..nodes[i]
        }) by {
            if i < before.len() {
                assert(tables::rebuilt_nodes(nodes, id)[i] == tables::rebuilt_nodes(before, id)[i]);
                assert(before.take(i) =~= nodes.take(i));
                assert(before[i] == nodes[i]);
            } else {
                assert(nodes.take(i) =~= before);
            }
        }
    }
}

proof fn lemma_new_cell(nodes: Nodes, id: int, i: int, row: int, column: int)
    requires
        0 <= id,
        id + tables::document_cells(nodes) <= u64::MAX,
        document::cell_there(tables::rebuilt_nodes(nodes, id), i, row, column),
    ensures
        tables::shows_table(nodes[i]),
        document::has_cell(
            tables::runtime_for(
                nodes[i].table->0,
                id + tables::document_cells(nodes.take(i)),
            ),
            row,
            column,
        ),
        ({
            let cell = document::cell_of(tables::rebuilt_nodes(nodes, id), i, row, column);
            &&& cell.id == id + tables::document_cells(nodes.take(i)) + cells_before(
                nodes[i].table->0,
                row,
                column,
            )
            &&& document::knows_its_place(cell, row, column)
            &&& id <= cell.id < id + tables::document_cells(nodes)
            &&& 0 <= cells_before(nodes[i].table->0, row, column) < tables::cell_count(
                nodes[i].table->0,
            )
        }),
{
    lemma_rebuilt_runtimes(nodes, id);
    let start = id + tables::document_cells(nodes.take(i));
    let table = nodes[i].table->0;
    lemma_new_cells(table, start);
    let runtime = tables::runtime_for(table, start);
    assert(tables::rebuilt_nodes(nodes, id)[i].runtime == Some(runtime));
    assert(document::has_cell(runtime, row, column));
    lemma_blocks_before(nodes, i, nodes.len() as int);
    assert(nodes.take(nodes.len() as int) =~= nodes);
}

/// New cells are apart from each other and from the blocks.
pub proof fn lemma_new_cells_apart(nodes: Nodes, id: int)
    requires
        0 <= id,
        document::ids_below(nodes, id),
        id + tables::document_cells(nodes) <= u64::MAX,
    ensures
        document::cells_apart(
            tables::rebuilt_nodes(nodes, id),
            id + tables::document_cells(nodes),
        ),
{
    reveal(document::cells_apart);
    let after = tables::rebuilt_nodes(nodes, id);
    lemma_rebuilt_runtimes(nodes, id);
    assert forall|i: int, row: int, column: int| #[trigger]
        document::cell_there(after, i, row, column) implies document::knows_its_place(
        document::cell_of(after, i, row, column),
        row,
        column,
    ) && id <= document::cell_of(after, i, row, column).id < id + tables::document_cells(
        nodes,
    ) by {
        lemma_new_cell(nodes, id, i, row, column);
    }
    assert forall|i: int, row: int, column: int, k: int|
        #![trigger document::cell_there(after, i, row, column), after[k]]
        document::cell_there(after, i, row, column) && 0 <= k < after.len() implies after[k].id
        != document::cell_of(after, i, row, column).id by {
        assert(after[k].id == nodes[k].id);
    }
    assert forall|i: int, row: int, column: int, j: int, other_row: int, other_column: int|
        #![trigger document::cell_there(after, i, row, column), document::cell_there(after, j, other_row, other_column)]
        document::cell_there(after, i, row, column) && document::cell_there(
            after,
            j,
            other_row,
            other_column,
        ) && document::cell_of(after, i, row, column).id == document::cell_of(
            after,
            j,
            other_row,
            other_column,
        ).id implies i == j && row == other_row && column == other_column by {
        lemma_new_cell(nodes, id, i, row, column);
        lemma_new_cell(nodes, id, j, other_row, other_column);
        if i < j {
            lemma_blocks_before(nodes, i, j);
        }
        if j < i {
            lemma_blocks_before(nodes, j, i);
        }
        lemma_cells_before_differ(
            nodes[i].table->0,
            id + tables::document_cells(nodes.take(i)),
            row,
            column,
            other_row,
            other_column,
        );
    }
}

/// Making the cells anew keeps a document well formed, and each block its id and depth.
pub proof fn rebuilding_keeps_documents_well_formed(s: EditorView)
    requires
        document::well_formed(s.document, s.next_id),
        tables::room_for_cells(s),
    ensures
        document::well_formed(
            tables::tables_rebuilt(s).document,
            tables::tables_rebuilt(s).next_id,
        ),
        document::same_outline(s.document, tables::tables_rebuilt(s).document),
        tables::tables_rebuilt(s).next_id >= s.next_id,
{
    let nodes = tables::rebuilt_nodes(s.document, s.next_id as int);
    let after = tables::tables_rebuilt(s);
    lemma_rebuilt_runtimes(s.document, s.next_id as int);
    lemma_new_cells_apart(s.document, s.next_id as int);
    document::lemma_same_outline(s.document, nodes, s.next_id);
    assert(document::well_formed(nodes, after.next_id));
    assert(document::same_shape(nodes, after.document));
    document::lemma_same_shape(nodes, after.document, after.next_id);
}

/// Making the cells of one table keeps a document well formed.
pub proof fn installing_cells_keeps_documents_well_formed(
    s: EditorView,
    i: int,
    table: TableView,
)
    requires
        document::well_formed(s.document, s.next_id),
        0 <= i < s.document.len(),
        s.next_id + tables::cell_count(table) <= u64::MAX,
    ensures
        document::well_formed(
            s.document.update(
                i,
                NodeView {
                    runtime: Some(tables::runtime_for(table, s.next_id as int)),
                    ..s.document[i]
                },
            ),
            (s.next_id + tables::cell_count(table)) as u64,
        ),
{
    let id = s.next_id as int;
    let runtime = tables::runtime_for(table, id);
    let nodes = s.document;
    let after = nodes.update(i, NodeView { runtime: Some(runtime), ..nodes[i] });
    let limit = id + tables::cell_count(table);
    document::lemma_same_outline(nodes, after, s.next_id);
    lemma_new_cells(table, id);
    assert(document::cells_apart(after, limit)) by {
        reveal(document::cells_apart);
        assert forall|k: int, row: int, column: int| #[trigger]
            document::cell_there(after, k, row, column) implies document::knows_its_place(
            document::cell_of(after, k, row, column),
            row,
            column,
        ) && document::cell_of(after, k, row, column).id < limit && (k == i
            ==> document::cell_of(after, k, row, column).id >= id) && (k != i
            ==> document::cell_there(nodes, k, row, column) && document::cell_of(
            after,
            k,
            row,
            column,
        ).id < id) by {
            if k == i {
                assert(document::has_cell(runtime, row, column));
            } else {
                assert(document::cell_there(nodes, k, row, column));
            }
        }
        assert forall|a: int, row: int, column: int, k: int|
            #![trigger document::cell_there(after, a, row, column), after[k]]
            document::cell_there(after, a, row, column) && 0 <= k < after.len() implies after[k].id
            != document::cell_of(after, a, row, column).id by {
            assert(after[k].id == nodes[k].id);
            if a != i {
                assert(document::cell_there(nodes, a, row, column));
            }
        }
        assert forall|a: int, row: int, column: int, b: int, other_row: int, other_column: int|
            #![trigger document::cell_there(after, a, row, column), document::cell_there(after, b, other_row, other_column)]
            document::cell_there(after, a, row, column) && document::cell_there(
                after,
                b,
                other_row,
                other_column,
            ) && document::cell_of(after, a, row, column).id == document::cell_of(
                after,
                b,
                other_row,
                other_column,
            ).id implies a == b && row == other_row && column == other_column by {
            if a == i && b == i {
                assert(document::has_cell(runtime, row, column));
                assert(document::has_cell(runtime, other_row, other_column));
                lemma_cells_before_differ(table, id, row, column, other_row, other_column);
            } else if a != i && b != i {
                assert(document::cell_there(nodes, a, row, column));
                assert(document::cell_there(nodes, b, other_row, other_column));
            }
        }
    }
}

// ---------------------------------------------------------------------------
// Finding cells
// ---------------------------------------------------------------------------

proof fn lemma_cell_from(cells: Seq<CellView>, id: u64, from: int)
    requires
        0 <= from,
    ensures
        targets::cell_from(cells, id, from) matches Some(c) ==> from <= c < cells.len()
            && cells[c].id == id,
        targets::cell_from(cells, id, from) is None ==> forall|c: int|
            from <= c < cells.len() ==> (#[trigger] cells[c]).id != id,
    decreases cells.len() - from,
{
    if from < cells.len() && cells[from].id != id {
        lemma_cell_from(cells, id, from + 1);
    }
}

/// Where a search in body rows ends: the row and column of the cell that is found.
spec fn body_place(rows: Seq<Seq<CellView>>, id: u64, from: int) -> Option<(int, int)>
    decreases rows.len() - from,
{
    if from < 0 || from >= rows.len() {
        None
    } else {
        match targets::cell_from(rows[from], id, 0) {
            Some(column) => Some((from, column)),
            None => body_place(rows, id, from + 1),
        }
    }
}

proof fn lemma_body_place(rows: Seq<Seq<CellView>>, id: u64, from: int)
    requires
        0 <= from,
    ensures
        match body_place(rows, id, from) {
            Some(place) => from <= place.0 < rows.len() && 0 <= place.1 < rows[place.0].len()
                && rows[place.0][place.1].id == id && targets::body_cell_from(rows, id, from)
                == Some(rows[place.0][place.1].position),
            None => targets::body_cell_from(rows, id, from) is None && forall|r: int, c: int|
                from <= r < rows.len() && 0 <= c < rows[r].len() ==> (#[trigger] rows[r][c]).id
                    != id,
        },
    decreases rows.len() - from,
{
    if from < rows.len() {
        lemma_cell_from(rows[from], id, 0);
        if targets::cell_from(rows[from], id, 0) is None {
            lemma_body_place(rows, id, from + 1);
        }
    }
}

/// The row and column of the cell that a search in a table finds.
spec fn place_found(runtime: RuntimeView, id: u64) -> Option<(int, int)> {
    match targets::cell_from(runtime.header, id, 0) {
        Some(column) => Some((0, column)),
        None => match body_place(runtime.rows, id, 0) {
            Some(place) => Some((place.0 + 1, place.1)),
            None => None,
        },
    }
}

proof fn lemma_place_found(runtime: RuntimeView, id: u64)
    ensures
        match place_found(runtime, id) {
            Some(place) => document::has_cell(runtime, place.0, place.1) && document::cell_in(
                runtime,
                place.0,
                place.1,
            ).id == id && targets::cell_position(runtime, id) == Some(
                document::cell_in(runtime, place.0, place.1).position,
            ),
            None => targets::cell_position(runtime, id) is None && forall|row: int, column: int|
                #[trigger] document::has_cell(runtime, row, column) ==> document::cell_in(
                    runtime,
                    row,
                    column,
                ).id != id,
        },
{
    lemma_cell_from(runtime.header, id, 0);
    lemma_body_place(runtime.rows, id, 0);
}

/// A cell that is found has the id, and where none is found, no cell has it.
pub proof fn lemma_binding_found(nodes: Nodes, id: u64, from: int)
    requires
        0 <= from,
    ensures
        targets::binding_from(nodes, id, from) matches Some(b) ==> from <= b.0 < nodes.len()
            && exists|row: int, column: int|
            #![trigger document::cell_there(nodes, b.0, row, column)]
            document::cell_there(nodes, b.0, row, column) && document::cell_of(
                nodes,
                b.0,
                row,
                column,
            ).id == id && document::cell_of(nodes, b.0, row, column).position == b.1,
        targets::binding_from(nodes, id, from) is None ==> forall|i: int, row: int, column: int|
            from <= i && #[trigger] document::cell_there(nodes, i, row, column)
                ==> document::cell_of(nodes, i, row, column).id != id,
    decreases nodes.len() - from,
{
    if from < nodes.len() {
        lemma_binding_found(nodes, id, from + 1);
        if let Some(runtime) = nodes[from].runtime {
            lemma_place_found(runtime, id);
            if let Some(place) = place_found(runtime, id) {
                assert(document::cell_there(nodes, from, place.0, place.1));
            }
        }
    }
}

/// A cell's id leads back to its table and its place there.
pub proof fn cells_lead_back_to_their_places(
    nodes: Nodes,
    next_id: u64,
    i: int,
    position: TableCellPosition,
)
    requires
        document::well_formed(nodes, next_id),
        document::cell_there(nodes, i, position.row as int, position.column as int),
    ensures
        targets::binding_of(
            nodes,
            document::cell_of(nodes, i, position.row as int, position.column as int).id,
        ) == Some((i, position)),
{
    reveal(document::cells_apart);
    let id = document::cell_of(nodes, i, position.row as int, position.column as int).id;
    lemma_binding_found(nodes, id, 0);
}

/// Only the ids of cells lead to cells: a block is never taken for one.
pub proof fn blocks_are_not_taken_for_cells(nodes: Nodes, next_id: u64, k: int)
    requires
        document::well_formed(nodes, next_id),
        0 <= k < nodes.len(),
    ensures
        targets::binding_of(nodes, nodes[k].id) is None,
        document::index_of(nodes, nodes[k].id) == Some(k),
{
    reveal(document::cells_apart);
    lemma_binding_found(nodes, nodes[k].id, 0);
    document::lemma_index_from(nodes, nodes[k].id, 0);
}

/// Once the cells of all tables are made anew, the blocks that show a table have a cell
/// for each of its texts, other blocks have none, each cell's id leads back to its own
/// table and place, no other id leads to a cell, and nothing is pointed at.
pub proof fn new_cells_lead_back_to_their_places(s: EditorView)
    requires
        document::well_formed(s.document, s.next_id),
        tables::room_for_cells(s),
    ensures
        ({
            let after = tables::tables_rebuilt(s);
            &&& after.axis.preview is None
            &&& after.document.len() == s.document.len()
            &&& forall|i: int|
                0 <= i < s.document.len() ==> ((#[trigger] after.document[i]).runtime is Some
                    <==> tables::shows_table(s.document[i]))
            &&& forall|i: int, row: int, column: int| #[trigger]
                document::cell_there(after.document, i, row, column) <==> 0 <= i
                    < s.document.len() && tables::shows_table(s.document[i]) && has_text(
                    s.document[i].table->0,
                    row,
                    column,
                )
            &&& forall|i: int, position: TableCellPosition| #[trigger]
                document::cell_there(
                    after.document,
                    i,
                    position.row as int,
                    position.column as int,
                ) ==> targets::binding_of(
                    after.document,
                    document::cell_of(
                        after.document,
                        i,
                        position.row as int,
                        position.column as int,
                    ).id,
                ) == Some((i, position))
            &&& forall|id: u64|
                (#[trigger] targets::binding_of(after.document, id)) is Some ==> exists|
                    i: int,
                    row: int,
                    column: int,
                |
                    #![trigger document::cell_there(after.document, i, row, column)]
                    document::cell_there(after.document, i, row, column) && document::cell_of(
                        after.document,
                        i,
                        row,
                        column,
                    ).id == id
        }),
{
    let after = tables::tables_rebuilt(s);
    let nodes = tables::rebuilt_nodes(s.document, s.next_id as int);
    rebuilding_keeps_documents_well_formed(s);
    lemma_rebuilt_runtimes(s.document, s.next_id as int);
    assert forall|i: int, row: int, column: int| #[trigger]
        document::cell_there(after.document, i, row, column) <==> 0 <= i < s.document.len()
            && tables::shows_table(s.document[i]) && has_text(
            s.document[i].table->0,
            row,
            column,
        ) by {
        if 0 <= i < s.document.len() && tables::shows_table(s.document[i]) {
            lemma_new_cells(
                s.document[i].table->0,
                s.next_id + tables::document_cells(s.document.take(i)),
            );
            assert(nodes[i].runtime is Some);
        }
    }
    assert forall|i: int, position: TableCellPosition| #[trigger]
        document::cell_there(
            after.document,
            i,
            position.row as int,
            position.column as int,
        ) implies targets::binding_of(
        after.document,
        document::cell_of(
            after.document,
            i,
            position.row as int,
            position.column as int,
        ).id,
    ) == Some((i, position)) by {
        cells_lead_back_to_their_places(after.document, after.next_id, i, position);
    }
    assert forall|id: u64|
        (#[trigger] targets::binding_of(after.document, id)) is Some implies exists|
        i: int,
        row: int,
        column: int,
    |
        #![trigger document::cell_there(after.document, i, row, column)]
        document::cell_there(after.document, i, row, column) && document::cell_of(
            after.document,
            i,
            row,
            column,
        ).id == id by {
        lemma_binding_found(after.document, id, 0);
    }
}

/// Whether a table has a text in this row and column. Row 0 is the header.
pub open spec fn has_text(table: TableView, row: int, column: int) -> bool {
    ||| row == 0 && 0 <= column < table.header.len()
    ||| 1 <= row <= table.rows.len() && 0 <= column < table.rows[row - 1].len()
}

} // verus!
