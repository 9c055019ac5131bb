//! What the items of the context menus do, and the dialog for inserting a table.

use crate::blocks;
use crate::blocks::{BlockKind, InlineTextTree, TableColumnAlignment, TableData, TableView};
use crate::cell_laws;
use crate::context_menu;
use crate::document;
use crate::document::{find_index, find_parent, find_subtree_end, fresh_block, insert_nodes};
use crate::editor;
use crate::editor::{
    ContextMenuState, DocBlock, Editor, EditorView, Nodes, OverlaysView, ScreenPoint,
    TableAxisKind, TableAxisSelection, TableCellPosition, TableInsertDialogState,
    TableInsertTarget, ViewMode,
};
use crate::history;
use crate::history::DocumentFacts;
use crate::kinds;
use crate::newline;
use crate::quotes;
use crate::table_data;
use crate::table_edit;
use crate::tables;
use crate::targets;
use crate::targets::find_binding;
use vstd::prelude::*;

verus! {

/// Milliseconds that a submenu stays open after the pointer left it.
pub const SUBMENU_CLOSE_DELAY: u64 = 120;

// ---------------------------------------------------------------------------
// The menu of a block
// ---------------------------------------------------------------------------

/// The block at the root that the one at `i` lies under, or that block itself.
pub open spec fn root_of(nodes: Nodes, i: int) -> int
    decreases i,
{
    match document::parent_of(nodes, i) {
        Some(p) => if 0 <= p < i {
            root_of(nodes, p)
        } else {
            i
        },
        None => i,
    }
}

/// The id of the block at the root that a block lies under.
pub open spec fn root_id(nodes: Nodes, id: u64) -> u64 {
    match document::index_of(nodes, id) {
        Some(i) => nodes[root_of(nodes, i)].id,
        None => id,
    }
}

/// Whether a table can be inserted from a block's menu.
pub open spec fn offers_insert(s: EditorView, id: u64) -> bool {
    targets::binding_of(s.document, id) is None && match document::index_of(s.document, id) {
        Some(i) => kinds::allows_table_insert(s.document[i].kind),
        None => true,
    }
}

/// The state after the menu of a block was asked for.
pub open spec fn block_menu_requested(s: EditorView, id: u64, position: ScreenPoint) -> EditorView {
    if s.view_mode == ViewMode::Rendered && offers_insert(s, id) {
        context_menu::insert_menu_opened(
            s,
            position,
            TableInsertTarget::After(root_id(s.document, id)),
        )
    } else {
        s
    }
}

/// The state after the pointer went onto or off the item with the submenu, or the
/// submenu itself.
pub open spec fn hover_changed(s: EditorView, hovered: bool, submenu: bool) -> EditorView {
    match s.overlays.context_menu {
        Some(
            ContextMenuState::Insert {
                position,
                target,
                insert_hovered,
                submenu_hovered,
                submenu_open,
            },
        ) => {
            let on_item = if submenu {
                insert_hovered
            } else {
                hovered
            };
            let on_submenu = if submenu {
                hovered
            } else {
                submenu_hovered
            };
            EditorView {
                overlays: OverlaysView {
                    context_menu: Some(
                        ContextMenuState::Insert {
                            position,
                            target,
                            insert_hovered: on_item,
                            submenu_hovered: on_submenu,
                            submenu_open: submenu_open || hovered,
                        },
                    ),
                    submenu_close_pending: if hovered {
                        false
                    } else {
                        s.overlays.submenu_close_pending || !on_item && !on_submenu
                    },
                    ..s.overlays
                },
                ..s
            }
        },
        _ => s,
    }
}

/// Whether the submenu is to close after a while, once the pointer moved.
pub open spec fn close_scheduled(s: EditorView, hovered: bool, submenu: bool) -> bool {
    s.overlays.context_menu matches Some(
        ContextMenuState::Insert { insert_hovered, submenu_hovered, .. },
    ) && !hovered && if submenu {
        !insert_hovered
    } else {
        !submenu_hovered
    }
}

/// The state after the while had passed that a submenu stays open.
pub open spec fn close_elapsed(s: EditorView) -> EditorView {
    EditorView {
        overlays: OverlaysView {
            context_menu: match s.overlays.context_menu {
                Some(
                    ContextMenuState::Insert {
                        position,
                        target,
                        insert_hovered,
                        submenu_hovered,
                        submenu_open,
                    },
                ) => Some(
                    ContextMenuState::Insert {
                        position,
                        target,
                        insert_hovered,
                        submenu_hovered,
                        submenu_open: submenu_open && (insert_hovered || submenu_hovered),
                    },
                ),
                menu => menu,
            },
            submenu_close_pending: false,
            ..s.overlays
        },
        ..s
    }
}

/// Whether the submenu for inserting is open.
pub open spec fn submenu_shown(s: EditorView) -> bool {
    s.overlays.context_menu matches Some(ContextMenuState::Insert { submenu_open, .. })
        && submenu_open
}

/// A submenu stays open while the pointer crosses from its item to it: the pointer
/// may be on neither for a moment.
pub proof fn the_submenu_survives_the_gap(s: EditorView)
    requires
        s.overlays.context_menu matches Some(ContextMenuState::Insert { .. }),
    ensures
        ({
            let on_item = hover_changed(s, true, false);
            let between = hover_changed(on_item, false, false);
            let on_submenu = hover_changed(between, true, true);
            &&& submenu_shown(on_item)
            &&& submenu_shown(between)
            &&& submenu_shown(on_submenu)
            &&& submenu_shown(close_elapsed(on_submenu))
            &&& !on_submenu.overlays.submenu_close_pending
        }),
{
}

/// A submenu that the pointer has left closes.
pub proof fn a_left_submenu_closes(s: EditorView)
    requires
        s.overlays.context_menu matches Some(ContextMenuState::Insert { .. }),
    ensures
        ({
            let left = hover_changed(hover_changed(s, false, false), false, true);
            left.overlays.submenu_close_pending && !submenu_shown(close_elapsed(left))
        }),
{
}

// ---------------------------------------------------------------------------
// The dialog for inserting a table
// ---------------------------------------------------------------------------

/// The state with the dialog for inserting a table open in place of the menu.
pub open spec fn dialog_opened(s: EditorView) -> EditorView {
    EditorView {
        overlays: match s.overlays.context_menu {
            Some(ContextMenuState::Insert { target, .. }) => OverlaysView {
                context_menu: None,
                submenu_close_pending: false,
                table_insert_dialog: Some(
                    TableInsertDialogState { target, body_rows: 2, columns: 2 },
                ),
                ..s.overlays
            },
            _ => OverlaysView { context_menu: None, ..s.overlays },
        },
        ..s
    }
}

/// A count one lower, but at least one.
pub open spec fn lowered(count: usize) -> usize {
    if count <= 1 {
        1
    } else {
        (count - 1) as usize
    }
}

/// The state with the dialog changed, if it is open.
pub open spec fn dialog_set(s: EditorView, dialog: Option<TableInsertDialogState>) -> EditorView {
    EditorView { overlays: OverlaysView { table_insert_dialog: dialog, ..s.overlays }, ..s }
}

/// The place and level of a new table.
pub open spec fn insert_place(nodes: Nodes, target: TableInsertTarget) -> (int, nat) {
    match target {
        TableInsertTarget::After(id) => match document::index_of(nodes, id) {
            Some(i) => (document::subtree_end(nodes, i), nodes[i].depth),
            None => (nodes.len() as int, 0),
        },
        TableInsertTarget::Append => (nodes.len() as int, 0),
    }
}

/// The state with an empty table put in, before its cells are made: a paragraph
/// follows it where nothing else does.
pub open spec fn table_placed(s: EditorView, dialog: TableInsertDialogState) -> EditorView {
    let place = insert_place(s.document, dialog.target);
    let added = EditorView {
        document: document::inserted(
            s.document,
            place.0,
            seq![
                document::fresh_node(
                    s.next_id,
                    place.1,
                    BlockKind::Table,
                    blocks::plain_title(Seq::empty()),
                    Some(table_data::empty_table(dialog.body_rows as nat, dialog.columns as nat)),
                ),
            ],
        ),
        next_id: (s.next_id + 1) as u64,
        ..s
    };
    newline::trailing_ensured(added, place.0)
}

/// The state after the dialog for inserting a table was confirmed. The first cell
/// of the table is focused.
pub open spec fn dialog_confirmed(s: EditorView) -> EditorView {
    match s.overlays.table_insert_dialog {
        None => s,
        Some(dialog) => {
            let closed = dialog_set(s, None);
            let rebuilt = tables::tables_rebuilt(table_placed(closed, dialog));
            table_edit::edit_shown(
                table_edit::focused_if(
                    rebuilt,
                    table_edit::cell_of(
                        rebuilt,
                        s.next_id,
                        TableCellPosition { row: 0, column: 0 },
                    ),
                ),
            )
        },
    }
}

/// Whether the ids last for a new table.
pub open spec fn room_for_dialog(s: EditorView) -> bool {
    s.overlays.table_insert_dialog matches Some(dialog) ==> {
        &&& s.next_id + 2 <= u64::MAX
        &&& tables::room_for_cells(table_placed(dialog_set(s, None), dialog))
    }
}

proof fn lemma_insert_place(nodes: Nodes, target: TableInsertTarget)
    requires
        document::forest(nodes),
    ensures
        ({
            let place = insert_place(nodes, target);
            document::fits(nodes, place.0, place.1) && 0 <= place.0 <= nodes.len()
        }),
{
    if let TableInsertTarget::After(id) = target {
        document::lemma_index_from(nodes, id, 0);
        if let Some(i) = document::index_of(nodes, id) {
            quotes::lemma_after_fits(nodes, i);
            document::lemma_run_end(nodes, nodes[i].depth, i + 1);
        }
    }
}

proof fn lemma_table_placed(s: EditorView, dialog: TableInsertDialogState)
    requires
        document::well_formed(s.document, s.next_id),
        s.next_id + 2 <= u64::MAX,
    ensures
        ({
            let placed = table_placed(s, dialog);
            document::well_formed(placed.document, placed.next_id)
        }),
{
    let place = insert_place(s.document, dialog.target);
    lemma_insert_place(s.document, dialog.target);
    let node = document::fresh_node(
        s.next_id,
        place.1,
        BlockKind::Table,
        blocks::plain_title(Seq::empty()),
        Some(table_data::empty_table(dialog.body_rows as nat, dialog.columns as nat)),
    );
    document::inserting_keeps_a_document_well_formed(
        s.document,
        s.next_id,
        place.0,
        seq![node],
        place.1,
        (s.next_id + 1) as u64,
    );
    let added = EditorView {
        document: document::inserted(s.document, place.0, seq![node]),
        next_id: (s.next_id + 1) as u64,
        ..s
    };
    newline::trailing_paragraphs_keep_documents_well_formed(added, place.0);
}

/// Inserting a table keeps a document well formed.
pub proof fn inserting_a_table_keeps_documents_well_formed(s: EditorView)
    requires
        document::well_formed(s.document, s.next_id),
        room_for_dialog(s),
    ensures
        document::well_formed(dialog_confirmed(s).document, dialog_confirmed(s).next_id),
{
    if let Some(dialog) = s.overlays.table_insert_dialog {
        let placed = table_placed(dialog_set(s, None), dialog);
        lemma_table_placed(dialog_set(s, None), dialog);
        cell_laws::rebuilding_keeps_documents_well_formed(placed);
        let rebuilt = tables::tables_rebuilt(placed);
        document::lemma_same_shape(
            rebuilt.document,
            dialog_confirmed(s).document,
            rebuilt.next_id,
        );
    }
}

/// A new table is followed by a block that the caret can go to.
pub proof fn the_caret_can_leave_a_new_table(s: EditorView, dialog: TableInsertDialogState)
    requires
        document::well_formed(s.document, s.next_id),
        s.next_id + 2 <= u64::MAX,
    ensures
        newline::followed(
            table_placed(s, dialog).document,
            insert_place(s.document, dialog.target).0,
        ),
{
    let place = insert_place(s.document, dialog.target);
    lemma_insert_place(s.document, dialog.target);
    let node = document::fresh_node(
        s.next_id,
        place.1,
        BlockKind::Table,
        blocks::plain_title(Seq::empty()),
        Some(table_data::empty_table(dialog.body_rows as nat, dialog.columns as nat)),
    );
    document::inserting_keeps_a_document_well_formed(
        s.document,
        s.next_id,
        place.0,
        seq![node],
        place.1,
        (s.next_id + 1) as u64,
    );
    let added = EditorView {
        document: document::inserted(s.document, place.0, seq![node]),
        next_id: (s.next_id + 1) as u64,
        ..s
    };
    newline::the_caret_is_never_stranded(added, place.0);
}

// ---------------------------------------------------------------------------
// The menu of a row or column
// ---------------------------------------------------------------------------

/// An item of the menu of a row or column.
#[derive(Clone, Copy, Debug, PartialEq, Eq, Structural)]
pub enum AxisAction {
    AlignColumnLeft,
    AlignColumnCenter,
    AlignColumnRight,
    MoveColumnLeft,
    MoveColumnRight,
    DeleteColumn,
    ToggleHeaders,
    MoveRowUp,
    MoveRowDown,
    DeleteRow,
}

/// A line of the menu of a row or column.
#[derive(Clone, Copy, Debug, PartialEq, Eq, Structural)]
pub enum AxisMenuItem {
    Action { action: AxisAction, enabled: bool, danger: bool },
    Separator,
}

/// An item of the menu of an entry in the workspace's file tree.
#[derive(Clone, Copy, Debug, PartialEq, Eq, Structural)]
pub enum EntryAction {
    CopyPath,
    CopyContents,
    OpenInNewWindow,
}

/// What an item changes in a table. Row 0 of a moved row is the header; a deleted
/// row is counted from the first row of the body.
#[derive(Clone, Copy, Debug, PartialEq, Eq, Structural)]
pub enum TableChange {
    Aligned { column: usize, alignment: TableColumnAlignment },
    ColumnMoved { column: usize, delta: i32 },
    RowMoved { row: usize, delta: i32 },
    ColumnDeleted { column: usize },
    RowDeleted { row: usize },
    HeaderDeleted,
    /// The table goes.
    Removed,
}

/// The row or column whose menu is open.
pub open spec fn menu_axis(s: EditorView) -> Option<TableAxisSelection> {
    match s.overlays.context_menu {
        Some(ContextMenuState::TableAxis { position, selection }) => Some(selection),
        _ => None,
    }
}

/// The place of a table block.
pub open spec fn table_index(s: EditorView, id: u64) -> Option<int> {
    match document::index_of(s.document, id) {
        Some(i) => if s.document[i].kind is Table {
            Some(i)
        } else {
            None
        },
        None => None,
    }
}

/// What an item changes, if it can be chosen. Left is the alignment of a column
/// without a mark. The header and the rows below it can be deleted one by one;
/// with the last row, or the last column, goes the table.
pub open spec fn change_of(
    action: AxisAction,
    axis: TableAxisSelection,
    table: Option<TableView>,
) -> Option<TableChange> {
    let index = axis.index;
    if axis.kind == TableAxisKind::Column {
        match action {
            AxisAction::AlignColumnLeft => Some(
                TableChange::Aligned { column: index, alignment: TableColumnAlignment::Default },
            ),
            AxisAction::AlignColumnCenter => Some(
                TableChange::Aligned { column: index, alignment: TableColumnAlignment::Center },
            ),
            AxisAction::AlignColumnRight => Some(
                TableChange::Aligned { column: index, alignment: TableColumnAlignment::Right },
            ),
            AxisAction::MoveColumnLeft => if index > 0 {
                Some(TableChange::ColumnMoved { column: index, delta: -1i32 })
            } else {
                None
            },
            AxisAction::MoveColumnRight => if table matches Some(t) && index + 1 < t.header.len() {
                Some(TableChange::ColumnMoved { column: index, delta: 1 })
            } else {
                None
            },
            AxisAction::DeleteColumn => if table matches Some(t) && t.header.len() == 1 {
                Some(TableChange::Removed)
            } else {
                Some(TableChange::ColumnDeleted { column: index })
            },
            _ => None,
        }
    } else {
        match action {
            AxisAction::MoveRowUp => if index > 0 {
                Some(TableChange::RowMoved { row: index, delta: -1i32 })
            } else {
                None
            },
            AxisAction::MoveRowDown => if table matches Some(t) && index < t.rows.len() {
                Some(TableChange::RowMoved { row: index, delta: 1 })
            } else {
                None
            },
            AxisAction::DeleteRow => if index > 0 {
                Some(TableChange::RowDeleted { row: (index - 1) as usize })
            } else if table matches Some(t) && t.rows.len() == 0 {
                Some(TableChange::Removed)
            } else {
                Some(TableChange::HeaderDeleted)
            },
            _ => None,
        }
    }
}

/// The table that a change gives, but for its removal.
pub open spec fn changed_table(table: Option<TableView>, change: TableChange) -> Option<TableView> {
    match change {
        TableChange::Aligned { column, alignment } => table_edit::with_column_aligned(
            table,
            column as int,
            alignment,
        ),
        TableChange::ColumnMoved { column, delta } => table_edit::with_column_moved(
            table,
            column as int,
            delta as int,
        ),
        TableChange::RowMoved { row, delta } => table_edit::with_row_moved(
            table,
            row as int,
            delta as int,
        ),
        TableChange::ColumnDeleted { column } => table_edit::with_column_deleted(
            table,
            column as int,
        ),
        TableChange::RowDeleted { row } => table_edit::with_row_deleted(table, row as int),
        TableChange::HeaderDeleted => table_edit::with_header_deleted(table),
        TableChange::Removed => None,
    }
}

/// The row or column that is selected after a change.
pub open spec fn axis_after(id: u64, table: Option<TableView>, change: TableChange) -> Option<
    TableAxisSelection,
> {
    match change {
        TableChange::Aligned { column, alignment } => Some(
            table_edit::column_axis(id, column as int),
        ),
        TableChange::ColumnMoved { column, delta } => Some(
            table_edit::column_axis(id, column + delta),
        ),
        TableChange::RowMoved { row, delta } => Some(table_edit::row_axis(id, row + delta)),
        TableChange::ColumnDeleted { column } => Some(
            table_edit::column_axis(
                id,
                table_edit::column_after_deletion(table->0, column as int),
            ),
        ),
        TableChange::RowDeleted { row } => {
            let next = table_edit::row_after_deletion(table->0, row as int);
            if next == 0 {
                None
            } else {
                Some(table_edit::row_axis(id, next))
            }
        },
        _ => None,
    }
}

/// The cell that is focused after a change.
pub open spec fn head_after(table: Option<TableView>, change: TableChange) -> TableCellPosition {
    match change {
        TableChange::Aligned { column, alignment } => table_edit::column_head(column as int),
        TableChange::ColumnMoved { column, delta } => table_edit::column_head(column + delta),
        TableChange::RowMoved { row, delta } => table_edit::row_head(row + delta),
        TableChange::ColumnDeleted { column } => table_edit::column_head(
            table_edit::column_after_deletion(table->0, column as int),
        ),
        TableChange::RowDeleted { row } => table_edit::row_head(
            table_edit::row_after_deletion(table->0, row as int),
        ),
        _ => table_edit::row_head(0),
    }
}

/// The state after a change of a table.
pub open spec fn change_made(
    s: EditorView,
    id: u64,
    change: TableChange,
    facts: DocumentFacts,
    now: u64,
) -> EditorView {
    if change is Removed {
        table_edit::table_removed(s, id, facts, now)
    } else {
        let table = table_edit::typed_table(s, facts, id);
        table_edit::axis_edited(
            s,
            id,
            changed_table(table, change),
            axis_after(id, table, change),
            head_after(table, change),
            facts,
            now,
        )
    }
}

/// Whether a change of a table begins an undo capture.
pub open spec fn change_captures(
    s: EditorView,
    id: u64,
    change: TableChange,
    facts: DocumentFacts,
) -> bool {
    s.history.pending_capture is None && if change is Removed {
        document::index_of(s.document, id) is Some
    } else {
        changed_table(table_edit::typed_table(s, facts, id), change) is Some
    }
}

/// Whether the ids last for a change of a table.
pub open spec fn room_for_change(
    s: EditorView,
    id: u64,
    change: TableChange,
    facts: DocumentFacts,
) -> bool {
    if change is Removed {
        document::index_of(s.document, id) matches Some(i) ==> s.next_id + 1
            + tables::document_cells(table_edit::without_table(s, i)) <= u64::MAX
    } else {
        table_edit::room_for_table(
            s,
            id,
            changed_table(table_edit::typed_table(s, facts, id), change),
        )
    }
}

/// What the chosen item of the open menu changes, and in which table.
pub open spec fn chosen_change(s: EditorView, action: AxisAction) -> Option<(u64, TableChange)> {
    match menu_axis(s) {
        None => None,
        Some(axis) => match table_index(s, axis.table_block_id) {
            None => None,
            Some(i) => match change_of(action, axis, s.document[i].table) {
                Some(change) => Some((axis.table_block_id, change)),
                None => None,
            },
        },
    }
}

/// The state after an item of the menu of a row or column was chosen. An item that
/// cannot be chosen leaves the menu open.
pub open spec fn axis_action_done(
    s: EditorView,
    action: AxisAction,
    facts: DocumentFacts,
    now: u64,
) -> EditorView {
    match chosen_change(s, action) {
        Some(chosen) => change_made(
            context_menu::menu_closed(s),
            chosen.0,
            chosen.1,
            facts,
            now,
        ),
        None => s,
    }
}

/// The lines of the menu of a row or column.
pub open spec fn axis_menu_items(axis: TableAxisSelection, table: TableView) -> Seq<AxisMenuItem> {
    let index = axis.index;
    if axis.kind == TableAxisKind::Column {
        seq![
            item(AxisAction::AlignColumnLeft, true, false),
            item(AxisAction::AlignColumnCenter, true, false),
            item(AxisAction::AlignColumnRight, true, false),
            AxisMenuItem::Separator,
            item(AxisAction::MoveColumnLeft, index > 0, false),
            item(AxisAction::MoveColumnRight, index + 1 < table.header.len(), false),
            AxisMenuItem::Separator,
            item(AxisAction::DeleteColumn, true, true),
        ]
    } else {
        let rows = seq![
            item(AxisAction::MoveRowUp, index > 0, false),
            item(AxisAction::MoveRowDown, index < table.rows.len(), false),
            AxisMenuItem::Separator,
            item(AxisAction::DeleteRow, true, true),
        ];
        if index == 0 {
            seq![item(AxisAction::ToggleHeaders, true, false), AxisMenuItem::Separator] + rows
        } else {
            rows
        }
    }
}

/// A line of the menu for an item.
pub open spec fn item(action: AxisAction, enabled: bool, danger: bool) -> AxisMenuItem {
    AxisMenuItem::Action { action, enabled, danger }
}

/// The items of the menu of an entry in the file tree. A directory has no contents
/// to copy.
pub open spec fn entry_menu_items(is_directory: bool) -> Seq<EntryAction> {
    if is_directory {
        seq![EntryAction::CopyPath, EntryAction::OpenInNewWindow]
    } else {
        seq![EntryAction::CopyPath, EntryAction::CopyContents, EntryAction::OpenInNewWindow]
    }
}

/// The path of the entry whose menu is open.
pub open spec fn entry_path(s: EditorView) -> Option<Seq<char>> {
    match s.overlays.context_menu {
        Some(ContextMenuState::WorkspaceEntry { position, path, is_directory }) => Some(path),
        _ => None,
    }
}

/// An item is shown enabled exactly where choosing it does something.
pub proof fn enabled_items_do_something(axis: TableAxisSelection, table: TableView, k: int)
    requires
        0 <= k < axis_menu_items(axis, table).len(),
        axis_menu_items(axis, table)[k] is Action,
        axis_menu_items(axis, table)[k]->action != AxisAction::ToggleHeaders,
    ensures
        axis_menu_items(axis, table)[k]->enabled == (change_of(
            axis_menu_items(axis, table)[k]->action,
            axis,
            Some(table),
        ) is Some),
{
}

/// A change from the menu keeps a document well formed.
pub proof fn axis_actions_keep_documents_well_formed(
    s: EditorView,
    action: AxisAction,
    facts: DocumentFacts,
    now: u64,
)
    requires
        document::well_formed(s.document, s.next_id),
        chosen_change(s, action) matches Some(chosen) ==> room_for_change(
            context_menu::menu_closed(s),
            chosen.0,
            chosen.1,
            facts,
        ),
    ensures
        ({
            let after = axis_action_done(s, action, facts, now);
            document::well_formed(after.document, after.next_id)
        }),
{
    if let Some(chosen) = chosen_change(s, action) {
        let closed = context_menu::menu_closed(s);
        let id = chosen.0;
        let change = chosen.1;
        if change is Removed {
            table_edit::removing_a_table_keeps_documents_well_formed(closed, id, facts, now);
        } else {
            let table = table_edit::typed_table(closed, facts, id);
            table_edit::table_edits_keep_documents_well_formed(
                closed,
                id,
                changed_table(table, change),
                axis_after(id, table, change),
                head_after(table, change),
                facts,
                now,
            );
        }
    }
}

// ---------------------------------------------------------------------------
// Running code
// ---------------------------------------------------------------------------

fn find_root(nodes: &Vec<DocBlock>, i: usize) -> (r: usize)
    requires
        i < nodes@.len(),
    ensures
        r == root_of(editor::node_views(nodes@), i as int),
        r <= i,
{
    let ghost views = editor::node_views(nodes@);
    let mut k: usize = i;
    loop
        invariant
            views == editor::node_views(nodes@),
            k <= i < nodes@.len(),
            root_of(views, i as int) == root_of(views, k as int),
        decreases k,
    {
        match find_parent(nodes, k) {
            Some(p) => {
                k = p;
            },
            None => {
                return k;
            },
        }
    }
}

fn shown(action: AxisAction, enabled: bool, danger: bool) -> (r: AxisMenuItem)
    ensures
        r == item(action, enabled, danger),
{
    AxisMenuItem::Action { action, enabled, danger }
}

fn choose_change(action: AxisAction, axis: TableAxisSelection, table: &Option<TableData>) -> (r:
    Option<TableChange>)
    ensures
        r == change_of(action, axis, blocks::opt_table(*table)),
{
    let index: usize = axis.index;
    let size: Option<(usize, usize)> = match table {
        Some(t) => Some((t.rows.len(), t.header.len())),
        None => None,
    };
    if axis.kind == TableAxisKind::Column {
        match action {
            AxisAction::AlignColumnLeft => Some(
                TableChange::Aligned { column: index, alignment: TableColumnAlignment::Default },
            ),
            AxisAction::AlignColumnCenter => Some(
                TableChange::Aligned { column: index, alignment: TableColumnAlignment::Center },
            ),
            AxisAction::AlignColumnRight => Some(
                TableChange::Aligned { column: index, alignment: TableColumnAlignment::Right },
            ),
            AxisAction::MoveColumnLeft => {
                if index > 0 {
                    Some(TableChange::ColumnMoved { column: index, delta: -1 })
                } else {
                    None
                }
            },
            AxisAction::MoveColumnRight => match size {
                Some((_, columns)) => {
                    if columns > 0 && index < columns - 1 {
                        Some(TableChange::ColumnMoved { column: index, delta: 1 })
                    } else {
                        None
                    }
                },
                None => None,
            },
            AxisAction::DeleteColumn => match size {
                Some((_, 1)) => Some(TableChange::Removed),
                _ => Some(TableChange::ColumnDeleted { column: index }),
            },
            _ => None,
        }
    } else {
        match action {
            AxisAction::MoveRowUp => {
                if index > 0 {
                    Some(TableChange::RowMoved { row: index, delta: -1 })
                } else {
                    None
                }
            },
            AxisAction::MoveRowDown => match size {
                Some((rows, _)) => {
                    if index < rows {
                        Some(TableChange::RowMoved { row: index, delta: 1 })
                    } else {
                        None
                    }
                },
                None => None,
            },
            AxisAction::DeleteRow => {
                if index > 0 {
                    Some(TableChange::RowDeleted { row: index - 1 })
                } else {
                    match size {
                        Some((0, _)) => Some(TableChange::Removed),
                        _ => Some(TableChange::HeaderDeleted),
                    }
                }
            },
            _ => None,
        }
    }
}

impl Editor {
    /// The block at the root that a block lies under, or that block itself.
    pub fn root_ancestor_entity_id(&self, entity_id: u64) -> (r: u64)
        ensures
            r == root_id(self@.document, entity_id),
    {
        match find_index(&self.document, entity_id) {
            Some(i) => {
                let root: usize = find_root(&self.document, i);
                self.document[root].id
            },
            None => entity_id,
        }
    }

    /// Opens the menu at the end of the document. The result says whether nobody
    /// else is to handle the click.
    pub fn on_editor_context_menu_mouse_down(&mut self, position: ScreenPoint) -> (r: bool)
        ensures
            final(self)@ == context_menu::insert_menu_opened(
                old(self)@,
                position,
                TableInsertTarget::Append,
            ),
            r == (old(self)@.view_mode == ViewMode::Rendered),
    {
        if self.view_mode != ViewMode::Rendered {
            return false;
        }
        self.open_insert_context_menu(position, TableInsertTarget::Append);
        true
    }

    /// Opens the menu of a block, where a table can be inserted. The result says
    /// whether nobody else is to handle the click.
    pub fn on_block_context_menu_mouse_down(&mut self, entity_id: u64, position: ScreenPoint) -> (r:
        bool)
        ensures
            final(self)@ == block_menu_requested(old(self)@, entity_id, position),
            r == (old(self)@.view_mode == ViewMode::Rendered),
    {
        if self.view_mode != ViewMode::Rendered {
            return false;
        }
        if find_binding(&self.document, entity_id).is_some() {
            return true;
        }
        let allows = match find_index(&self.document, entity_id) {
            Some(i) => self.document[i].kind.allows_context_table_insert(),
            None => true,
        };
        if !allows {
            return true;
        }
        let target = TableInsertTarget::After(self.root_ancestor_entity_id(entity_id));
        self.open_insert_context_menu(position, target);
        true
    }

    /// Takes in that the pointer went onto or off the item with the submenu, or the
    /// submenu itself. The result says whether the submenu is to close after
    /// `SUBMENU_CLOSE_DELAY`.
    pub fn set_context_menu_hover_state(&mut self, hovered: bool, submenu: bool) -> (r: bool)
        ensures
            final(self)@ == hover_changed(old(self)@, hovered, submenu),
            r == close_scheduled(old(self)@, hovered, submenu),
    {
        let menu = self.overlays.context_menu.take();
        match menu {
            Some(
                ContextMenuState::Insert {
                    position,
                    target,
                    insert_hovered,
                    submenu_hovered,
                    submenu_open,
                },
            ) => {
                let on_item = if submenu {
                    insert_hovered
                } else {
                    hovered
                };
                let on_submenu = if submenu {
                    hovered
                } else {
                    submenu_hovered
                };
                self.overlays.context_menu = Some(
                    ContextMenuState::Insert {
                        position,
                        target,
                        insert_hovered: on_item,
                        submenu_hovered: on_submenu,
                        submenu_open: submenu_open || hovered,
                    },
                );
                if hovered {
                    self.overlays.submenu_close_pending = false;
                    false
                } else if !on_item && !on_submenu {
                    self.overlays.submenu_close_pending = true;
                    true
                } else {
                    false
                }
            },
            other => {
                self.overlays.context_menu = other;
                false
            },
        }
    }

    /// Closes the submenu after the while that it stays open, unless the pointer
    /// came back.
    pub fn close_context_submenu(&mut self)
        ensures
            final(self)@ == close_elapsed(old(self)@),
    {
        self.overlays.submenu_close_pending = false;
        let menu = self.overlays.context_menu.take();
        self.overlays.context_menu = match menu {
            Some(
                ContextMenuState::Insert {
                    position,
                    target,
                    insert_hovered,
                    submenu_hovered,
                    submenu_open,
                },
            ) => Some(
                ContextMenuState::Insert {
                    position,
                    target,
                    insert_hovered,
                    submenu_hovered,
                    submenu_open: submenu_open && (insert_hovered || submenu_hovered),
                },
            ),
            other => other,
        };
    }

    /// Opens the dialog for inserting a table in place of the menu.
    pub fn on_open_table_insert_dialog(&mut self)
        ensures
            final(self)@ == dialog_opened(old(self)@),
    {
        let menu = self.overlays.context_menu.take();
        if let Some(ContextMenuState::Insert { target, .. }) = menu {
            self.overlays.submenu_close_pending = false;
            self.overlays.table_insert_dialog = Some(
                TableInsertDialogState { target, body_rows: 2, columns: 2 },
            );
        }
    }

    /// Takes a row from the table to be inserted, but for the last one.
    pub fn on_table_rows_decrement(&mut self)
        ensures
            final(self)@ == (match old(self)@.overlays.table_insert_dialog {
                Some(dialog) => dialog_set(
                    old(self)@,
                    Some(
                        TableInsertDialogState { body_rows: lowered(dialog.body_rows), ..dialog },
                    ),
                ),
                None => old(self)@,
            }),
    {
        if let Some(dialog) = self.overlays.table_insert_dialog {
            let body_rows: usize = if dialog.body_rows <= 1 {
                1
            } else {
                dialog.body_rows - 1
            };
            self.overlays.table_insert_dialog = Some(
                TableInsertDialogState { target: dialog.target, body_rows, columns: dialog.columns },
            );
        }
    }

    /// Adds a row to the table to be inserted.
    pub fn on_table_rows_increment(&mut self)
        requires
            old(self)@.overlays.table_insert_dialog matches Some(dialog) ==> dialog.body_rows
                < usize::MAX,
        ensures
            final(self)@ == (match old(self)@.overlays.table_insert_dialog {
                Some(dialog) => dialog_set(
                    old(self)@,
                    Some(
                        TableInsertDialogState {
                            body_rows: (dialog.body_rows + 1) as usize,
                            ..dialog
                        },
                    ),
                ),
                None => old(self)@,
            }),
    {
        if let Some(dialog) = self.overlays.table_insert_dialog {
            self.overlays.table_insert_dialog = Some(
                TableInsertDialogState {
                    target: dialog.target,
                    body_rows: dialog.body_rows + 1,
                    columns: dialog.columns,
                },
            );
        }
    }

    /// Takes a column from the table to be inserted, but for the last one.
    pub fn on_table_columns_decrement(&mut self)
        ensures
            final(self)@ == (match old(self)@.overlays.table_insert_dialog {
                Some(dialog) => dialog_set(
                    old(self)@,
                    Some(TableInsertDialogState { columns: lowered(dialog.columns), ..dialog }),
                ),
                None => old(self)@,
            }),
    {
        if let Some(dialog) = self.overlays.table_insert_dialog {
            let columns: usize = if dialog.columns <= 1 {
                1
            } else {
                dialog.columns - 1
            };
            self.overlays.table_insert_dialog = Some(
                TableInsertDialogState {
                    target: dialog.target,
                    body_rows: dialog.body_rows,
                    columns,
                },
            );
        }
    }

    /// Adds a column to the table to be inserted.
    pub fn on_table_columns_increment(&mut self)
        requires
            old(self)@.overlays.table_insert_dialog matches Some(dialog) ==> dialog.columns
                < usize::MAX,
        ensures
            final(self)@ == (match old(self)@.overlays.table_insert_dialog {
                Some(dialog) => dialog_set(
                    old(self)@,
                    Some(
                        TableInsertDialogState {
                            columns: (dialog.columns + 1) as usize,
                            ..dialog
                        },
                    ),
                ),
                None => old(self)@,
            }),
    {
        if let Some(dialog) = self.overlays.table_insert_dialog {
            self.overlays.table_insert_dialog = Some(
                TableInsertDialogState {
                    target: dialog.target,
                    body_rows: dialog.body_rows,
                    columns: dialog.columns + 1,
                },
            );
        }
    }

    fn place_table(&mut self, dialog: TableInsertDialogState)
        requires
            document::forest(old(self)@.document),
            old(self)@.next_id + 2 <= u64::MAX,
        ensures
            final(self)@ == table_placed(old(self)@, dialog),
    {
        proof {
            lemma_insert_place(self@.document, dialog.target);
        }
        let n: usize = self.document.len();
        let place: (usize, usize) = match dialog.target {
            TableInsertTarget::After(id) => match find_index(&self.document, id) {
                Some(i) => (find_subtree_end(&self.document, i), self.document[i].depth),
                None => (n, 0),
            },
            TableInsertTarget::Append => (n, 0),
        };
        let table = TableData::new_empty(dialog.body_rows, dialog.columns);
        let title = InlineTextTree::plain(String::new());
        assert(title@ =~= blocks::plain_title(Seq::empty()));
        let id: u64 = self.next_id;
        let block = fresh_block(id, place.1, BlockKind::Table, title, Some(table));
        let mut added: Vec<DocBlock> = Vec::new();
        added.push(block);
        assert(editor::node_views(added@) =~= seq![block@]);
        insert_nodes(&mut self.document, place.0, added);
        self.next_id = id + 1;
        self.ensure_trailing_paragraph_after_structural(place.0);
    }

    /// Inserts the table of the dialog and focuses its first cell.
    pub fn on_confirm_table_insert_dialog(&mut self)
        requires
            document::well_formed(old(self)@.document, old(self)@.next_id),
            room_for_dialog(old(self)@),
        ensures
            final(self)@ == dialog_confirmed(old(self)@),
    {
        let dialog: TableInsertDialogState = match self.overlays.table_insert_dialog {
            Some(dialog) => dialog,
            None => {
                return;
            },
        };
        let id: u64 = self.next_id;
        self.close_table_insert_dialog();
        self.place_table(dialog);
        self.rebuild_table_runtimes();
        let _found = self.focus_table_cell_position(id, TableCellPosition { row: 0, column: 0 });
        self.mark_dirty();
        self.request_active_block_scroll_into_view();
    }

    /// The row or column whose menu is open.
    pub fn active_axis_menu_selection(&self) -> (r: Option<TableAxisSelection>)
        ensures
            r == menu_axis(self@),
    {
        match &self.overlays.context_menu {
            Some(ContextMenuState::TableAxis { selection, .. }) => Some(*selection),
            _ => None,
        }
    }

    /// What an item of the open menu changes, and in which table, if the item can
    /// be chosen.
    pub fn chosen_axis_change(&self, action: AxisAction) -> (r: Option<(u64, TableChange)>)
        ensures
            r == chosen_change(self@, action),
    {
        match self.active_axis_menu_selection() {
            None => None,
            Some(axis) => match find_index(&self.document, axis.table_block_id) {
                None => None,
                Some(i) => {
                    if !matches!(self.document[i].kind, BlockKind::Table) {
                        return None;
                    }
                    match choose_change(action, axis, &self.document[i].table) {
                        Some(change) => Some((axis.table_block_id, change)),
                        None => None,
                    }
                },
            },
        }
    }

    /// Changes a table. The result says whether an undo capture was begun.
    pub fn apply_table_change(&mut self, id: u64, change: TableChange, facts: &DocumentFacts, now: u64) -> (r:
        bool)
        requires
            history::facts_ok(*facts),
            room_for_change(old(self)@, id, change, *facts),
        ensures
            final(self)@ == change_made(old(self)@, id, change, *facts, now),
            r == change_captures(old(self)@, id, change, *facts),
    {
        match change {
            TableChange::Aligned { column, alignment } => self.set_table_column_alignment(
                id,
                column,
                alignment,
                facts,
                now,
            ),
            TableChange::ColumnMoved { column, delta } => self.move_table_column(
                id,
                column,
                delta,
                facts,
                now,
            ),
            TableChange::RowMoved { row, delta } => self.move_table_row(
                id,
                row,
                delta,
                facts,
                now,
            ),
            TableChange::ColumnDeleted { column } => self.delete_table_column(
                id,
                column,
                facts,
                now,
            ),
            TableChange::RowDeleted { row } => self.delete_table_row(id, row, facts, now),
            TableChange::HeaderDeleted => self.delete_table_header_row(id, facts, now),
            TableChange::Removed => self.remove_table_block(id, facts, now),
        }
    }

    /// Does what an item of the menu of a row or column says. The result says
    /// whether an undo capture was begun.
    pub fn on_axis_menu_action(&mut self, action: AxisAction, facts: &DocumentFacts, now: u64) -> (r:
        bool)
        requires
            history::facts_ok(*facts),
            chosen_change(old(self)@, action) matches Some(chosen) ==> room_for_change(
                context_menu::menu_closed(old(self)@),
                chosen.0,
                chosen.1,
                *facts,
            ),
        ensures
            final(self)@ == axis_action_done(old(self)@, action, *facts, now),
            r == (chosen_change(old(self)@, action) matches Some(chosen) && change_captures(
                context_menu::menu_closed(old(self)@),
                chosen.0,
                chosen.1,
                *facts,
            )),
    {
        match self.chosen_axis_change(action) {
            Some((id, change)) => {
                self.close_context_menu();
                self.apply_table_change(id, change, facts, now)
            },
            None => false,
        }
    }

    /// Closes the menu and gives the other way of showing table headers.
    pub fn on_toggle_table_headers(&mut self, headers_shown: bool) -> (r: bool)
        ensures
            final(self)@ == context_menu::menu_closed(old(self)@),
            r == !headers_shown,
    {
        self.close_context_menu();
        !headers_shown
    }

    /// The lines of the open menu of a row or column. There is none without a table.
    pub fn axis_menu_lines(&self) -> (r: Option<Vec<AxisMenuItem>>)
        ensures
            editor::opt_values(r) == (match menu_axis(self@) {
                Some(axis) => match table_index(self@, axis.table_block_id) {
                    Some(i) => match self@.document[i].table {
                        Some(table) => Some(axis_menu_items(axis, table)),
                        None => None,
                    },
                    None => None,
                },
                None => None,
            }),
    {
        let axis: TableAxisSelection = match self.active_axis_menu_selection() {
            Some(axis) => axis,
            None => {
                return None;
            },
        };
        let i: usize = match find_index(&self.document, axis.table_block_id) {
            Some(i) => i,
            None => {
                return None;
            },
        };
        if !matches!(self.document[i].kind, BlockKind::Table) {
            return None;
        }
        let (rows, columns): (usize, usize) = match &self.document[i].table {
            Some(table) => (table.rows.len(), table.header.len()),
            None => {
                return None;
            },
        };
        let index: usize = axis.index;
        let mut lines: Vec<AxisMenuItem> = Vec::new();
        if axis.kind == TableAxisKind::Column {
            lines.push(shown(AxisAction::AlignColumnLeft, true, false));
            lines.push(shown(AxisAction::AlignColumnCenter, true, false));
            lines.push(shown(AxisAction::AlignColumnRight, true, false));
            lines.push(AxisMenuItem::Separator);
            lines.push(shown(AxisAction::MoveColumnLeft, index > 0, false));
            lines.push(
                shown(
                    AxisAction::MoveColumnRight,
                    columns > 0 && index < columns - 1,
                    false,
                ),
            );
            lines.push(AxisMenuItem::Separator);
            lines.push(shown(AxisAction::DeleteColumn, true, true));
        } else {
            if index == 0 {
                lines.push(shown(AxisAction::ToggleHeaders, true, false));
                lines.push(AxisMenuItem::Separator);
            }
            lines.push(shown(AxisAction::MoveRowUp, index > 0, false));
            lines.push(shown(AxisAction::MoveRowDown, index < rows, false));
            lines.push(AxisMenuItem::Separator);
            lines.push(shown(AxisAction::DeleteRow, true, true));
        }
        proof {
            let table = self@.document[i as int].table->0;
            assert(lines@ =~= axis_menu_items(axis, table));
        }
        Some(lines)
    }

    /// The items of the menu of an entry in the file tree.
    pub fn workspace_entry_menu_items(is_directory: bool) -> (r: Vec<EntryAction>)
        ensures
            r@ == entry_menu_items(is_directory),
    {
        let mut items: Vec<EntryAction> = Vec::new();
        items.push(EntryAction::CopyPath);
        if !is_directory {
            items.push(EntryAction::CopyContents);
        }
        items.push(EntryAction::OpenInNewWindow);
        assert(items@ =~= entry_menu_items(is_directory));
        items
    }

    /// The path of the entry whose menu is open.
    pub fn active_workspace_entry_menu_path(&self) -> (r: Option<String>)
        ensures
            blocks::opt_text(r) == entry_path(self@),
    {
        match &self.overlays.context_menu {
            Some(ContextMenuState::WorkspaceEntry { path, .. }) => Some(path.clone()),
            _ => None,
        }
    }

    /// Closes the menu of an entry in the file tree and gives the entry's path, for
    /// what the chosen item does with it. Without such a menu nothing happens.
    pub fn take_workspace_entry_path(&mut self) -> (r: Option<String>)
        ensures
            blocks::opt_text(r) == entry_path(old(self)@),
            final(self)@ == (if entry_path(old(self)@) is Some {
                context_menu::dismissed(old(self)@)
            } else {
                old(self)@
            }),
    {
        let path = self.active_workspace_entry_menu_path();
        if path.is_some() {
            self.dismiss_contextual_overlays();
        }
        path
    }
}

} // verus!
