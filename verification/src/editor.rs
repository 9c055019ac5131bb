//! The editor's state and its model.
//!
//! A document is kept in visible order: each block is followed by the blocks
//! under it, one level deeper. Offsets and sizes that only the view can measure
//! are carried as plain values.

use crate::blocks;
use crate::blocks::{BlockKind, InlineTextTree, TableColumnAlignment, TableData, TableView, Title};
use vstd::prelude::*;

verus! {

/// How the document is shown.
#[derive(Clone, Copy, Debug, PartialEq, Eq, Structural)]
pub enum ViewMode {
    Rendered,
    Source,
}

/// Where a block that is scrolled to comes to lie.
#[derive(Clone, Copy, Debug, PartialEq, Eq, Structural)]
pub enum ScrollAlign {
    Nearest,
    Center,
}

/// Whether an edit may merge with the one before it in the undo history.
#[derive(Clone, Copy, Debug, PartialEq, Eq, Structural)]
pub enum UndoCaptureKind {
    CoalescibleText,
    NonCoalescible,
}

/// A selection in the document's Markdown source.
#[derive(Clone, Copy, Debug, PartialEq, Eq, Structural)]
pub struct UndoSelectionSnapshot {
    pub start: usize,
    pub end: usize,
    pub reversed: bool,
}

/// A state of the document that undo or redo can go back to. Times are in
/// milliseconds of a clock that never runs backwards.
#[derive(Debug, PartialEq, Eq)]
pub struct HistoryEntry<T> {
    pub source_text: T,
    pub selection: UndoSelectionSnapshot,
    pub timestamp: u64,
    pub kind: UndoCaptureKind,
}

/// One end of a selection that spans blocks.
#[derive(Clone, Copy, Debug, PartialEq, Eq, Structural)]
pub struct CrossBlockEndpoint {
    pub entity_id: u64,
    pub offset: usize,
}

/// A selection that spans blocks.
#[derive(Clone, Copy, Debug, PartialEq, Eq, Structural)]
pub struct CrossBlockSelection {
    pub anchor: CrossBlockEndpoint,
    pub focus: CrossBlockEndpoint,
}

/// The selection inside the block that is being edited.
#[derive(Clone, Copy, Debug, PartialEq, Eq, Structural)]
pub struct EditTarget {
    pub entity_id: u64,
    pub start: usize,
    pub end: usize,
    pub reversed: bool,
}

/// What a cached selection snapshot depends on.
#[derive(Clone, Copy, Debug, PartialEq, Eq, Structural)]
pub struct SelectionSnapshotKey {
    pub content_fingerprint: u64,
    pub target: Option<EditTarget>,
    pub view_mode: ViewMode,
    pub cross_block_selection: Option<CrossBlockSelection>,
}

/// Rows or columns of a table.
#[derive(Clone, Copy, Debug, PartialEq, Eq, Structural)]
pub enum TableAxisKind {
    Row,
    Column,
}

/// A row or column of a table in the document. Row 0 is the header.
#[derive(Clone, Copy, Debug, PartialEq, Eq, Structural)]
pub struct TableAxisSelection {
    pub table_block_id: u64,
    pub kind: TableAxisKind,
    pub index: usize,
}

/// A row or column inside a table.
#[derive(Clone, Copy, Debug, PartialEq, Eq, Structural)]
pub struct TableAxisMarker {
    pub kind: TableAxisKind,
    pub index: usize,
}

/// How a cell is highlighted.
#[derive(Clone, Copy, Debug, PartialEq, Eq, Structural)]
pub enum TableAxisHighlight {
    Plain,
    Preview,
    Selected,
}

/// The place of a cell in a table. Row 0 is the header.
#[derive(Clone, Copy, Debug, PartialEq, Eq, Structural)]
pub struct TableCellPosition {
    pub row: usize,
    pub column: usize,
}

/// An editable cell of a table. `display_text` is its text as it was last
/// rendered.
#[derive(Debug, PartialEq, Eq)]
pub struct TableCell {
    pub id: u64,
    pub title: InlineTextTree,
    pub display_text: String,
    pub selection: BlockSelection,
    pub selection_reversed: bool,
    pub marked: bool,
    pub position: TableCellPosition,
    pub alignment: TableColumnAlignment,
    pub highlight: TableAxisHighlight,
}

/// The model of a cell.
#[verifier::ext_equal]
pub struct CellView {
    pub id: u64,
    pub title: Title,
    pub display_text: Seq<char>,
    pub selection: BlockSelection,
    pub selection_reversed: bool,
    pub marked: bool,
    pub position: TableCellPosition,
    pub alignment: TableColumnAlignment,
    pub highlight: TableAxisHighlight,
}

/// The editable cells of a table.
#[derive(Debug, PartialEq, Eq)]
pub struct TableRuntime {
    pub header: Vec<TableCell>,
    pub rows: Vec<Vec<TableCell>>,
}

/// The model of the editable cells of a table.
#[verifier::ext_equal]
pub struct RuntimeView {
    pub header: Seq<CellView>,
    pub rows: Seq<Seq<CellView>>,
}

/// Where the selection in a block is.
#[derive(Clone, Copy, Debug, PartialEq, Eq, Structural)]
pub enum BlockSelection {
    /// Between two offsets into the block's current text.
    Visible { start: usize, end: usize },
    /// Between two offsets into the block's Markdown.
    Markdown { start: usize, end: usize },
    /// A caret behind this many pieces of the block's title.
    AfterFragments(usize),
    /// A caret at this offset into the block's text without markup.
    CleanOffset(usize),
}

/// A block of the open document. `display_text` is its text as it was last
/// rendered; a block whose title was set since shows its title's source.
#[derive(Debug, PartialEq, Eq)]
pub struct DocBlock {
    pub id: u64,
    pub depth: usize,
    pub kind: BlockKind<String>,
    pub title: InlineTextTree,
    pub table: Option<TableData>,
    pub runtime: Option<TableRuntime>,
    pub display_text: String,
    pub selection: BlockSelection,
    pub selection_reversed: bool,
    pub marked: bool,
    pub restarts_numbering: bool,
    pub quote_reparse_requested: bool,
    pub raw_text_editing: bool,
    pub standalone_image: bool,
    pub axis_preview: Option<TableAxisMarker>,
    pub axis_selected: Option<TableAxisMarker>,
    pub resize_preview: Option<Vec<u32>>,
}

/// The model of a block of the open document.
#[verifier::ext_equal]
pub struct NodeView {
    pub id: u64,
    pub depth: nat,
    pub kind: BlockKind<Seq<char>>,
    pub title: Title,
    pub table: Option<TableView>,
    pub runtime: Option<RuntimeView>,
    pub display_text: Seq<char>,
    pub selection: BlockSelection,
    pub selection_reversed: bool,
    pub marked: bool,
    pub restarts_numbering: bool,
    pub quote_reparse_requested: bool,
    pub raw_text_editing: bool,
    pub standalone_image: bool,
    pub axis_preview: Option<TableAxisMarker>,
    pub axis_selected: Option<TableAxisMarker>,
    pub resize_preview: Option<Seq<u32>>,
}

/// The model of a document: its blocks in visible order.
pub type Nodes = Seq<NodeView>;

/// A column boundary that is being dragged. Pointer positions and widths are bit
/// patterns of the view's numbers.
#[derive(Debug, PartialEq, Eq)]
pub struct TableColumnResizeDrag<F> {
    pub table_block_id: u64,
    pub left_column: usize,
    pub start_pointer_x: u32,
    pub table_width: u32,
    pub start_fractions: F,
    pub current_fractions: F,
}

/// A place on the screen, as bit patterns of the view's numbers.
#[derive(Clone, Copy, Debug, PartialEq, Eq, Structural)]
pub struct ScreenPoint {
    pub x: u32,
    pub y: u32,
}

/// Where a new table goes.
#[derive(Clone, Copy, Debug, PartialEq, Eq, Structural)]
pub enum TableInsertTarget {
    /// Directly after this block.
    After(u64),
    /// At the end of the document.
    Append,
}

/// The context menu that is open.
#[derive(Debug, PartialEq, Eq)]
pub enum ContextMenuState<T> {
    /// The menu of a block, with a submenu for inserting.
    Insert {
        position: ScreenPoint,
        target: TableInsertTarget,
        insert_hovered: bool,
        submenu_hovered: bool,
        submenu_open: bool,
    },
    /// The menu of a row or column of a table.
    TableAxis { position: ScreenPoint, selection: TableAxisSelection },
    /// The menu of an entry in the workspace's file tree.
    WorkspaceEntry { position: ScreenPoint, path: T, is_directory: bool },
}

/// The dialog for inserting a table.
#[derive(Clone, Copy, Debug, PartialEq, Eq, Structural)]
pub struct TableInsertDialogState {
    pub target: TableInsertTarget,
    pub body_rows: usize,
    pub columns: usize,
}

/// An occurrence of the search query: byte offsets into the text of a block or
/// cell.
#[derive(Clone, Copy, Debug, PartialEq, Eq, Structural)]
pub struct SearchMatch {
    pub entity_id: u64,
    pub start: usize,
    pub end: usize,
}

/// The open search bar.
#[derive(Debug, PartialEq, Eq)]
pub struct SearchBarState {
    pub query: String,
    pub matches: Vec<SearchMatch>,
    pub active_index: Option<usize>,
    pub previous_focus: Option<u64>,
}

/// The model of the search bar.
#[verifier::ext_equal]
pub struct SearchView {
    pub query: Seq<char>,
    pub matches: Seq<SearchMatch>,
    pub active_index: Option<usize>,
    pub previous_focus: Option<u64>,
}

/// A link that waits for the user to confirm it.
#[derive(Debug, PartialEq, Eq)]
pub struct OpenLink<T> {
    pub prompt_target: T,
    pub open_target: T,
}

/// The undo history and what its captures start from.
#[derive(Debug, PartialEq, Eq)]
pub struct History {
    pub undo: Vec<HistoryEntry<String>>,
    pub redo: Vec<HistoryEntry<String>>,
    pub pending_capture: Option<HistoryEntry<String>>,
    pub restore_in_progress: bool,
    pub limit: usize,
    pub coalesce_window: u64,
    pub last_selection: UndoSelectionSnapshot,
    pub last_selection_key: Option<SelectionSnapshotKey>,
    pub last_stable_source: String,
}

/// The model of the undo history.
pub struct HistoryView {
    pub undo: Seq<HistoryEntry<Seq<char>>>,
    pub redo: Seq<HistoryEntry<Seq<char>>>,
    pub pending_capture: Option<HistoryEntry<Seq<char>>>,
    pub restore_in_progress: bool,
    pub limit: usize,
    pub coalesce_window: u64,
    pub last_selection: UndoSelectionSnapshot,
    pub last_selection_key: Option<SelectionSnapshotKey>,
    pub last_stable_source: Seq<char>,
}

/// The row or column that is pointed at, the one that is selected and the column
/// boundary that is dragged.
#[derive(Debug, PartialEq, Eq)]
pub struct TableAxisState {
    pub preview: Option<TableAxisSelection>,
    pub selection: Option<TableAxisSelection>,
    pub resize_drag: Option<TableColumnResizeDrag<Vec<u32>>>,
}

/// The model of the table axis state.
pub struct AxisView {
    pub preview: Option<TableAxisSelection>,
    pub selection: Option<TableAxisSelection>,
    pub resize_drag: Option<TableColumnResizeDrag<Seq<u32>>>,
}

/// What is to be focused and scrolled to.
#[derive(Clone, Copy, Debug, PartialEq, Eq, Structural)]
pub struct FocusState {
    pub pending_focus: Option<u64>,
    pub active_entity_id: Option<u64>,
    pub scroll_active_into_view: bool,
    pub scroll_recheck_after_layout: bool,
    pub scroll_align: ScrollAlign,
    pub scroll_viewport_known: bool,
}

/// Selections that reach beyond one block.
#[derive(Clone, Copy, Debug, PartialEq, Eq, Structural)]
pub struct SelectionState {
    pub cross_block: Option<CrossBlockSelection>,
    pub select_all_cycle: Option<u64>,
}

/// What the window and its dialogs wait for.
#[derive(Clone, Copy, Debug, PartialEq, Eq, Structural)]
pub struct WindowState {
    pub document_dirty: bool,
    pub pending_window_edited: bool,
    pub pending_window_title_refresh: bool,
    pub pending_save: bool,
    pub pending_save_as: bool,
    pub pending_close_after_save: bool,
    pub close_dialog_restore_focus: Option<u64>,
    pub show_unsaved_changes_dialog: bool,
    pub menu_bar_open: bool,
    pub info_dialog_open: bool,
}

/// A dropped file that waits to replace the document.
#[derive(Debug, PartialEq, Eq)]
pub struct DropReplaceState<T> {
    pub path: Option<T>,
    pub after_save: bool,
    pub show_dialog: bool,
    pub restore_focus: Option<u64>,
}

/// The menus, dialogs and bars that lie over the document.
#[derive(Debug, PartialEq, Eq)]
pub struct Overlays {
    pub context_menu: Option<ContextMenuState<String>>,
    pub submenu_close_pending: bool,
    pub table_insert_dialog: Option<TableInsertDialogState>,
    pub search_bar: Option<SearchBarState>,
}

/// The model of what lies over the document.
pub struct OverlaysView {
    pub context_menu: Option<ContextMenuState<Seq<char>>>,
    pub submenu_close_pending: bool,
    pub table_insert_dialog: Option<TableInsertDialogState>,
    pub search_bar: Option<SearchView>,
}

/// The state that the editing rules read and change.
#[derive(Debug, PartialEq, Eq)]
pub struct Editor {
    pub document: Vec<DocBlock>,
    pub next_id: u64,
    pub view_mode: ViewMode,
    pub file_path: Option<String>,
    pub history: History,
    pub axis: TableAxisState,
    pub focus: FocusState,
    pub selection: SelectionState,
    pub window: WindowState,
    pub open_link: Option<OpenLink<String>>,
    pub drop_replace: DropReplaceState<String>,
    pub overlays: Overlays,
}

/// The model of the editor's state.
pub struct EditorView {
    pub document: Nodes,
    pub next_id: u64,
    pub view_mode: ViewMode,
    pub file_path: Option<Seq<char>>,
    pub history: HistoryView,
    pub axis: AxisView,
    pub focus: FocusState,
    pub selection: SelectionState,
    pub window: WindowState,
    pub open_link: Option<OpenLink<Seq<char>>>,
    pub drop_replace: DropReplaceState<Seq<char>>,
    pub overlays: OverlaysView,
}

impl View for HistoryEntry<String> {
    type V = HistoryEntry<Seq<char>>;

    open spec fn view(&self) -> HistoryEntry<Seq<char>> {
        HistoryEntry {
            source_text: self.source_text@,
            selection: self.selection,
            timestamp: self.timestamp,
            kind: self.kind,
        }
    }
}

impl View for TableCell {
    type V = CellView;

    open spec fn view(&self) -> CellView {
        CellView {
            id: self.id,
            title: self.title@,
            display_text: self.display_text@,
            selection: self.selection,
            selection_reversed: self.selection_reversed,
            marked: self.marked,
            position: self.position,
            alignment: self.alignment,
            highlight: self.highlight,
        }
    }
}

/// The models of a row of cells.
pub open spec fn cell_views(cells: Seq<TableCell>) -> Seq<CellView> {
    Seq::new(cells.len(), |i: int| cells[i]@)
}

/// The models of rows of cells.
pub open spec fn cell_rows(rows: Seq<Vec<TableCell>>) -> Seq<Seq<CellView>> {
    Seq::new(rows.len(), |i: int| cell_views(rows[i]@))
}

impl View for TableRuntime {
    type V = RuntimeView;

    open spec fn view(&self) -> RuntimeView {
        RuntimeView { header: cell_views(self.header@), rows: cell_rows(self.rows@) }
    }
}

/// The model of an optional runtime.
pub open spec fn opt_runtime(runtime: Option<TableRuntime>) -> Option<RuntimeView> {
    match runtime {
        Some(r) => Some(r@),
        None => None,
    }
}

/// The values of an optional vector.
pub open spec fn opt_values<T>(values: Option<Vec<T>>) -> Option<Seq<T>> {
    match values {
        Some(v) => Some(v@),
        None => None,
    }
}

impl View for DocBlock {
    type V = NodeView;

    open spec fn view(&self) -> NodeView {
        NodeView {
            id: self.id,
            depth: self.depth as nat,
            kind: self.kind@,
            title: self.title@,
            table: blocks::opt_table(self.table),
            runtime: opt_runtime(self.runtime),
            display_text: self.display_text@,
            selection: self.selection,
            selection_reversed: self.selection_reversed,
            marked: self.marked,
            restarts_numbering: self.restarts_numbering,
            quote_reparse_requested: self.quote_reparse_requested,
            raw_text_editing: self.raw_text_editing,
            standalone_image: self.standalone_image,
            axis_preview: self.axis_preview,
            axis_selected: self.axis_selected,
            resize_preview: opt_values(self.resize_preview),
        }
    }
}

/// The models of a sequence of blocks of the document.
pub open spec fn node_views(blocks: Seq<DocBlock>) -> Nodes {
    Seq::new(blocks.len(), |i: int| blocks[i]@)
}

/// The models of a sequence of history entries.
pub open spec fn history_views(entries: Seq<HistoryEntry<String>>) -> Seq<
    HistoryEntry<Seq<char>>,
> {
    Seq::new(entries.len(), |i: int| entries[i]@)
}

impl View for TableColumnResizeDrag<Vec<u32>> {
    type V = TableColumnResizeDrag<Seq<u32>>;

    open spec fn view(&self) -> TableColumnResizeDrag<Seq<u32>> {
        TableColumnResizeDrag {
            table_block_id: self.table_block_id,
            left_column: self.left_column,
            start_pointer_x: self.start_pointer_x,
            table_width: self.table_width,
            start_fractions: self.start_fractions@,
            current_fractions: self.current_fractions@,
        }
    }
}

impl View for ContextMenuState<String> {
    type V = ContextMenuState<Seq<char>>;

    open spec fn view(&self) -> ContextMenuState<Seq<char>> {
        match *self {
            ContextMenuState::Insert {
                position,
                target,
                insert_hovered,
                submenu_hovered,
                submenu_open,
            } => ContextMenuState::Insert {
                position,
                target,
                insert_hovered,
                submenu_hovered,
                submenu_open,
            },
            ContextMenuState::TableAxis { position, selection } => ContextMenuState::TableAxis {
                position,
                selection,
            },
            ContextMenuState::WorkspaceEntry {
                position,
                path,
                is_directory,
            } => ContextMenuState::WorkspaceEntry { position, path: path@, is_directory },
        }
    }
}

impl View for SearchBarState {
    type V = SearchView;

    open spec fn view(&self) -> SearchView {
        SearchView {
            query: self.query@,
            matches: self.matches@,
            active_index: self.active_index,
            previous_focus: self.previous_focus,
        }
    }
}

impl View for OpenLink<String> {
    type V = OpenLink<Seq<char>>;

    open spec fn view(&self) -> OpenLink<Seq<char>> {
        OpenLink { prompt_target: self.prompt_target@, open_target: self.open_target@ }
    }
}

/// The model of an optional history entry.
pub open spec fn opt_entry(entry: Option<HistoryEntry<String>>) -> Option<
    HistoryEntry<Seq<char>>,
> {
    match entry {
        Some(e) => Some(e@),
        None => None,
    }
}

impl View for History {
    type V = HistoryView;

    open spec fn view(&self) -> HistoryView {
        HistoryView {
            undo: history_views(self.undo@),
            redo: history_views(self.redo@),
            pending_capture: opt_entry(self.pending_capture),
            restore_in_progress: self.restore_in_progress,
            limit: self.limit,
            coalesce_window: self.coalesce_window,
            last_selection: self.last_selection,
            last_selection_key: self.last_selection_key,
            last_stable_source: self.last_stable_source@,
        }
    }
}

impl View for TableAxisState {
    type V = AxisView;

    open spec fn view(&self) -> AxisView {
        AxisView {
            preview: self.preview,
            selection: self.selection,
            resize_drag: match self.resize_drag {
                Some(drag) => Some(drag@),
                None => None,
            },
        }
    }
}

impl View for DropReplaceState<String> {
    type V = DropReplaceState<Seq<char>>;

    open spec fn view(&self) -> DropReplaceState<Seq<char>> {
        DropReplaceState {
            path: blocks::opt_text(self.path),
            after_save: self.after_save,
            show_dialog: self.show_dialog,
            restore_focus: self.restore_focus,
        }
    }
}

/// The model of an optional context menu.
pub open spec fn opt_menu(menu: Option<ContextMenuState<String>>) -> Option<
    ContextMenuState<Seq<char>>,
> {
    match menu {
        Some(m) => Some(m@),
        None => None,
    }
}

/// The model of an optional search bar.
pub open spec fn opt_search(bar: Option<SearchBarState>) -> Option<SearchView> {
    match bar {
        Some(b) => Some(b@),
        None => None,
    }
}

/// The model of an optional link.
pub open spec fn opt_link(link: Option<OpenLink<String>>) -> Option<OpenLink<Seq<char>>> {
    match link {
        Some(l) => Some(l@),
        None => None,
    }
}

impl View for Overlays {
    type V = OverlaysView;

    open spec fn view(&self) -> OverlaysView {
        OverlaysView {
            context_menu: opt_menu(self.context_menu),
            submenu_close_pending: self.submenu_close_pending,
            table_insert_dialog: self.table_insert_dialog,
            search_bar: opt_search(self.search_bar),
        }
    }
}

impl View for Editor {
    type V = EditorView;

    open spec fn view(&self) -> EditorView {
        EditorView {
            document: node_views(self.document@),
            next_id: self.next_id,
            view_mode: self.view_mode,
            file_path: blocks::opt_text(self.file_path),
            history: self.history@,
            axis: self.axis@,
            focus: self.focus,
            selection: self.selection,
            window: self.window,
            open_link: opt_link(self.open_link),
            drop_replace: self.drop_replace@,
            overlays: self.overlays@,
        }
    }
}

/// The snapshot of no selection.
pub open spec fn no_selection() -> UndoSelectionSnapshot {
    UndoSelectionSnapshot { start: 0, end: 0, reversed: false }
}

/// The model of an empty history.
pub open spec fn empty_history(limit: usize, coalesce_window: u64) -> HistoryView {
    HistoryView {
        undo: Seq::empty(),
        redo: Seq::empty(),
        pending_capture: None,
        restore_in_progress: false,
        limit,
        coalesce_window,
        last_selection: no_selection(),
        last_selection_key: None,
        last_stable_source: Seq::empty(),
    }
}

/// The window state of an unchanged document.
pub open spec fn calm_window() -> WindowState {
    WindowState {
        document_dirty: false,
        pending_window_edited: false,
        pending_window_title_refresh: false,
        pending_save: false,
        pending_save_as: false,
        pending_close_after_save: false,
        close_dialog_restore_focus: None,
        show_unsaved_changes_dialog: false,
        menu_bar_open: false,
        info_dialog_open: false,
    }
}

/// The model of an editor without a document.
pub open spec fn blank_editor(history_limit: usize, history_coalesce_window: u64) -> EditorView {
    EditorView {
        document: Seq::empty(),
        next_id: 1,
        view_mode: ViewMode::Rendered,
        file_path: None,
        history: empty_history(history_limit, history_coalesce_window),
        axis: AxisView { preview: None, selection: None, resize_drag: None },
        focus: FocusState {
            pending_focus: None,
            active_entity_id: None,
            scroll_active_into_view: false,
            scroll_recheck_after_layout: false,
            scroll_align: ScrollAlign::Nearest,
            scroll_viewport_known: false,
        },
        selection: SelectionState { cross_block: None, select_all_cycle: None },
        window: calm_window(),
        open_link: None,
        drop_replace: DropReplaceState {
            path: None,
            after_save: false,
            show_dialog: false,
            restore_focus: None,
        },
        overlays: OverlaysView {
            context_menu: None,
            submenu_close_pending: false,
            table_insert_dialog: None,
            search_bar: None,
        },
    }
}

impl Editor {
    /// An editor without a document. `history_limit` bounds the undo history;
    /// typing within `history_coalesce_window` milliseconds makes up one step.
    pub fn new(history_limit: usize, history_coalesce_window: u64) -> (r: Self)
        ensures
            r@ == blank_editor(history_limit, history_coalesce_window),
    {
        let history = History {
            undo: Vec::new(),
            redo: Vec::new(),
            pending_capture: None,
            restore_in_progress: false,
            limit: history_limit,
            coalesce_window: history_coalesce_window,
            last_selection: UndoSelectionSnapshot { start: 0, end: 0, reversed: false },
            last_selection_key: None,
            last_stable_source: String::new(),
        };
        let r = Editor {
            document: Vec::new(),
            next_id: 1,
            view_mode: ViewMode::Rendered,
            file_path: None,
            history,
            axis: TableAxisState { preview: None, selection: None, resize_drag: None },
            focus: FocusState {
                pending_focus: None,
                active_entity_id: None,
                scroll_active_into_view: false,
                scroll_recheck_after_layout: false,
                scroll_align: ScrollAlign::Nearest,
                scroll_viewport_known: false,
            },
            selection: SelectionState { cross_block: None, select_all_cycle: None },
            window: WindowState {
                document_dirty: false,
                pending_window_edited: false,
                pending_window_title_refresh: false,
                pending_save: false,
                pending_save_as: false,
                pending_close_after_save: false,
                close_dialog_restore_focus: None,
                show_unsaved_changes_dialog: false,
                menu_bar_open: false,
                info_dialog_open: false,
            },
            open_link: None,
            drop_replace: DropReplaceState {
                path: None,
                after_save: false,
                show_dialog: false,
                restore_focus: None,
            },
            overlays: Overlays {
                context_menu: None,
                submenu_close_pending: false,
                table_insert_dialog: None,
                search_bar: None,
            },
        };
        proof {
            assert(r@.document =~= Seq::empty());
            assert(r@.history.undo =~= Seq::empty());
            assert(r@.history.redo =~= Seq::empty());
        }
        r
    }
}

} // verus!
