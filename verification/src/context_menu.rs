//! Context menus, the dialog for inserting a table, and what their items do.

use crate::editor::{
    ContextMenuState, Editor, EditorView, OverlaysView, ScreenPoint, TableAxisSelection,
    TableInsertTarget, ViewMode,
};
use crate::focus;
use crate::search;
use vstd::prelude::*;

verus! {

// ---------------------------------------------------------------------------
// Opening and closing
// ---------------------------------------------------------------------------

/// The state with a context menu open. The menu bar is closed for it.
pub open spec fn menu_opened(s: EditorView, menu: ContextMenuState<Seq<char>>) -> EditorView {
    let closed = focus::menu_bar_closed(s);
    EditorView {
        overlays: OverlaysView {
            context_menu: Some(menu),
            submenu_close_pending: false,
            ..closed.overlays
        },
        ..closed
    }
}

/// The state with the menu of a block open. There is none in source mode.
pub open spec fn insert_menu_opened(
    s: EditorView,
    position: ScreenPoint,
    target: TableInsertTarget,
) -> EditorView {
    if s.view_mode == ViewMode::Rendered {
        menu_opened(
            s,
            ContextMenuState::Insert {
                position,
                target,
                insert_hovered: false,
                submenu_hovered: false,
                submenu_open: false,
            },
        )
    } else {
        s
    }
}

/// The state with the menu of a row or column open. There is none in source mode.
pub open spec fn axis_menu_opened(
    s: EditorView,
    position: ScreenPoint,
    selection: TableAxisSelection,
) -> EditorView {
    if s.view_mode == ViewMode::Rendered {
        menu_opened(s, ContextMenuState::TableAxis { position, selection })
    } else {
        s
    }
}

/// The state without a context menu.
pub open spec fn menu_closed(s: EditorView) -> EditorView {
    EditorView {
        overlays: OverlaysView {
            context_menu: None,
            submenu_close_pending: false,
            ..s.overlays
        },
        ..s
    }
}

/// The state without menus, dialogs for inserting a table and a search bar.
pub open spec fn dismissed(s: EditorView) -> EditorView {
    search::bar_closed(
        EditorView {
            overlays: OverlaysView {
                context_menu: None,
                submenu_close_pending: false,
                table_insert_dialog: None,
                ..s.overlays
            },
            ..s
        },
    )
}

/// Dismissing leaves nothing over the document.
pub proof fn dismissing_leaves_nothing_over_the_document(s: EditorView)
    ensures
        dismissed(s).overlays == (OverlaysView {
            context_menu: None,
            submenu_close_pending: false,
            table_insert_dialog: None,
            search_bar: None,
        }),
        dismissed(s).document == s.document,
        dismissed(s).history == s.history,
{
}

impl Editor {
    fn open_menu(&mut self, menu: ContextMenuState<String>)
        ensures
            final(self)@ == menu_opened(old(self)@, menu@),
    {
        self.close_menu_bar();
        self.overlays.submenu_close_pending = false;
        self.overlays.context_menu = Some(menu);
    }

    /// Opens the menu of a block.
    pub fn open_insert_context_menu(&mut self, position: ScreenPoint, target: TableInsertTarget)
        ensures
            final(self)@ == insert_menu_opened(old(self)@, position, target),
    {
        if self.view_mode != ViewMode::Rendered {
            return;
        }
        self.open_menu(
            ContextMenuState::Insert {
                position,
                target,
                insert_hovered: false,
                submenu_hovered: false,
                submenu_open: false,
            },
        );
    }

    /// Opens the menu of a row or column.
    pub fn open_table_axis_context_menu(
        &mut self,
        position: ScreenPoint,
        selection: TableAxisSelection,
    )
        ensures
            final(self)@ == axis_menu_opened(old(self)@, position, selection),
    {
        if self.view_mode != ViewMode::Rendered {
            return;
        }
        self.open_menu(ContextMenuState::TableAxis { position, selection });
    }

    /// Opens the menu of an entry in the workspace's file tree.
    pub fn open_workspace_entry_context_menu(
        &mut self,
        position: ScreenPoint,
        path: String,
        is_directory: bool,
    )
        ensures
            final(self)@ == menu_opened(
                old(self)@,
                ContextMenuState::WorkspaceEntry { position, path: path@, is_directory },
            ),
    {
        self.open_menu(ContextMenuState::WorkspaceEntry { position, path, is_directory });
    }

    /// Closes the context menu.
    pub fn close_context_menu(&mut self)
        ensures
            final(self)@ == menu_closed(old(self)@),
    {
        self.overlays.context_menu = None;
        self.overlays.submenu_close_pending = false;
    }

    /// Closes the dialog for inserting a table.
    pub fn close_table_insert_dialog(&mut self)
        ensures
            final(self)@ == (EditorView {
                overlays: OverlaysView { table_insert_dialog: None, ..old(self)@.overlays },
                ..old(self)@
            }),
    {
        self.overlays.table_insert_dialog = None;
    }

    /// Closes the menus, the dialog for inserting a table and the search bar.
    pub fn dismiss_contextual_overlays(&mut self)
        ensures
            final(self)@ == dismissed(old(self)@),
    {
        self.overlays.context_menu = None;
        self.overlays.table_insert_dialog = None;
        self.overlays.submenu_close_pending = false;
        self.close_search_bar();
    }
}

} // verus!
