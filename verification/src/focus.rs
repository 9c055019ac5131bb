//! Focus, scrolling and the dirty mark.

use crate::editor::{
    Editor, EditorView, FocusState, ScrollAlign, SelectionState, WindowState,
};
use vstd::prelude::*;

verus! {

/// The state with a block or cell focused and scrolled to.
pub open spec fn focused(s: EditorView, id: u64) -> EditorView {
    EditorView {
        focus: FocusState {
            pending_focus: Some(id),
            active_entity_id: Some(id),
            scroll_active_into_view: true,
            scroll_align: ScrollAlign::Nearest,
            ..s.focus
        },
        ..s
    }
}

/// The state with the document marked as changed.
pub open spec fn dirtied(s: EditorView) -> EditorView {
    EditorView {
        window: WindowState {
            document_dirty: true,
            pending_window_edited: true,
            pending_window_title_refresh: true,
            ..s.window
        },
        ..s
    }
}

/// The state with the active block to be scrolled to.
pub open spec fn scroll_requested(s: EditorView) -> EditorView {
    EditorView {
        focus: FocusState {
            scroll_active_into_view: true,
            scroll_recheck_after_layout: true,
            ..s.focus
        },
        ..s
    }
}

/// The state without a selection that spans blocks.
pub open spec fn cross_block_cleared(s: EditorView) -> EditorView {
    EditorView { selection: SelectionState { cross_block: None, ..s.selection }, ..s }
}

/// The state with the menu bar closed.
pub open spec fn menu_bar_closed(s: EditorView) -> EditorView {
    EditorView { window: WindowState { menu_bar_open: false, ..s.window }, ..s }
}

impl Editor {
    /// Focuses a block or cell and scrolls to it.
    pub fn focus_block(&mut self, entity_id: u64)
        ensures
            final(self)@ == focused(old(self)@, entity_id),
    {
        self.focus.pending_focus = Some(entity_id);
        self.focus.active_entity_id = Some(entity_id);
        self.focus.scroll_active_into_view = true;
        self.focus.scroll_align = ScrollAlign::Nearest;
    }

    /// Marks the document as changed.
    pub fn mark_dirty(&mut self)
        ensures
            final(self)@ == dirtied(old(self)@),
    {
        self.window.document_dirty = true;
        self.window.pending_window_edited = true;
        self.window.pending_window_title_refresh = true;
    }

    /// Has the active block scrolled to.
    pub fn request_active_block_scroll_into_view(&mut self)
        ensures
            final(self)@ == scroll_requested(old(self)@),
    {
        self.focus.scroll_active_into_view = true;
        self.focus.scroll_recheck_after_layout = true;
    }

    /// Drops a selection that spans blocks.
    pub fn clear_cross_block_selection(&mut self)
        ensures
            final(self)@ == cross_block_cleared(old(self)@),
    {
        self.selection.cross_block = None;
    }

    /// Closes the menu bar.
    pub fn close_menu_bar(&mut self)
        ensures
            final(self)@ == menu_bar_closed(old(self)@),
    {
        self.window.menu_bar_open = false;
    }

    /// Closes the information dialog.
    pub fn hide_info_dialog(&mut self)
        ensures
            final(self)@ == (EditorView {
                window: WindowState { info_dialog_open: false, ..old(self)@.window },
                ..old(self)@
            }),
    {
        self.window.info_dialog_open = false;
    }
}

} // verus!
