//! What the editor left for the next frame: focus, scrolling, saving, links and
//! the window's title.

use crate::editor;
use crate::editor::{Editor, EditorView, FocusState, OpenLink, WindowState};
use crate::focus;
use crate::tables;
use crate::targets;
use crate::targets::is_focusable;
use crate::text;
use vstd::prelude::*;

verus! {

/// Where the program's source is.
pub const ABOUT_GITHUB_URL: &'static str = "https://github.com/manyougz/velotype";

/// What is left of scrolling to the active block.
#[derive(Clone, Copy, Debug, PartialEq, Eq, Structural)]
pub enum ScrollPass {
    /// There is nothing to scroll to.
    Idle,
    /// Another pass is needed on the next frame.
    Again,
    /// The active block is in view.
    Settled,
}

/// The dialog that lies over everything else.
#[derive(Clone, Copy, Debug, PartialEq, Eq, Structural)]
pub enum TopDialog {
    Info,
    DropReplace,
    UnsavedChanges,
}

/// Whether the active block is to be scrolled to in this frame. While the scrollbar
/// is dragged it is not.
pub open spec fn scroll_due(s: EditorView, dragging: bool) -> bool {
    !dragging && s.focus.scroll_active_into_view
}

/// What is left of scrolling. `settled` says that the caret is in view and nothing
/// was moved for it.
pub open spec fn scroll_pass(s: EditorView, dragging: bool, settled: bool) -> ScrollPass {
    if !scroll_due(s, dragging) {
        ScrollPass::Idle
    } else if s.focus.scroll_recheck_after_layout || !settled {
        ScrollPass::Again
    } else {
        ScrollPass::Settled
    }
}

/// The state after a pass of scrolling to the active block.
pub open spec fn scroll_passed(s: EditorView, dragging: bool, settled: bool) -> EditorView {
    EditorView {
        focus: match scroll_pass(s, dragging, settled) {
            ScrollPass::Idle => s.focus,
            ScrollPass::Again => FocusState { scroll_recheck_after_layout: false, ..s.focus },
            ScrollPass::Settled => FocusState { scroll_active_into_view: false, ..s.focus },
        },
        ..s
    }
}

/// The state after the size of the viewport was looked at. When it changes, the
/// active block is scrolled to.
pub open spec fn viewport_seen(s: EditorView, changed: bool) -> EditorView {
    if !s.focus.scroll_viewport_known {
        EditorView { focus: FocusState { scroll_viewport_known: true, ..s.focus }, ..s }
    } else if changed {
        focus::scroll_requested(s)
    } else {
        s
    }
}

/// The state without a pending scroll to the active block.
pub open spec fn scroll_cancelled(s: EditorView) -> EditorView {
    EditorView {
        focus: FocusState {
            scroll_active_into_view: false,
            scroll_recheck_after_layout: false,
            ..s.focus
        },
        ..s
    }
}

/// The dialog that lies over everything else.
pub open spec fn top_dialog(s: EditorView) -> Option<TopDialog> {
    if s.window.info_dialog_open {
        Some(TopDialog::Info)
    } else if s.drop_replace.show_dialog {
        Some(TopDialog::DropReplace)
    } else if s.window.show_unsaved_changes_dialog {
        Some(TopDialog::UnsavedChanges)
    } else {
        None
    }
}

/// The lines of the dialog about the program.
pub open spec fn about_lines(
    version: Seq<char>,
    message: Seq<char>,
    github_label: Seq<char>,
    star_message: Seq<char>,
) -> Seq<Seq<char>> {
    seq![
        "Velotype "@ + version,
        message,
        github_label + ": "@ + ABOUT_GITHUB_URL@,
        star_message,
    ]
}

/// Scrolling to the active block comes to an end: once the caret is in view, two
/// passes are enough.
pub proof fn two_settled_passes_end_scrolling(s: EditorView)
    ensures
        ({
            let once = scroll_passed(s, false, true);
            let twice = scroll_passed(once, false, true);
            !twice.focus.scroll_active_into_view
        }),
{
}

/// A scroll that the user asked for is not undone by a pending one.
pub proof fn a_direct_scroll_sticks(s: EditorView, dragging: bool, settled: bool)
    ensures
        scroll_pass(scroll_cancelled(s), dragging, settled) == ScrollPass::Idle,
        scroll_passed(scroll_cancelled(s), dragging, settled) == scroll_cancelled(s),
{
}

impl Editor {
    /// Takes the block or cell that is to be focused, if it is still there.
    pub fn apply_pending_focus(&mut self) -> (r: Option<u64>)
        ensures
            final(self)@ == (EditorView {
                focus: FocusState { pending_focus: None, ..old(self)@.focus },
                ..old(self)@
            }),
            r == (match old(self)@.focus.pending_focus {
                Some(id) => if targets::focusable(old(self)@.document, id) {
                    Some(id)
                } else {
                    None
                },
                None => None,
            }),
    {
        let pending: Option<u64> = self.focus.pending_focus;
        self.focus.pending_focus = None;
        match pending {
            Some(id) => {
                if is_focusable(&self.document, id) {
                    Some(id)
                } else {
                    None
                }
            },
            None => None,
        }
    }

    /// Whether the active block is to be scrolled to in this frame.
    pub fn scroll_into_view_due(&self, dragging: bool) -> (r: bool)
        ensures
            r == scroll_due(self@, dragging),
    {
        !dragging && self.focus.scroll_active_into_view
    }

    /// Takes in a pass of scrolling to the active block, and says what is left of
    /// it.
    pub fn apply_pending_scroll_into_view(&mut self, dragging: bool, settled: bool) -> (r: ScrollPass)
        ensures
            final(self)@ == scroll_passed(old(self)@, dragging, settled),
            r == scroll_pass(old(self)@, dragging, settled),
    {
        if !self.scroll_into_view_due(dragging) {
            return ScrollPass::Idle;
        }
        if self.focus.scroll_recheck_after_layout {
            self.focus.scroll_recheck_after_layout = false;
            return ScrollPass::Again;
        }
        if !settled {
            return ScrollPass::Again;
        }
        self.focus.scroll_active_into_view = false;
        ScrollPass::Settled
    }

    /// Forgets a pending scroll to the active block, for one that the user asked
    /// for.
    pub fn cancel_pending_scroll(&mut self)
        ensures
            final(self)@ == scroll_cancelled(old(self)@),
    {
        self.focus.scroll_active_into_view = false;
        self.focus.scroll_recheck_after_layout = false;
    }

    /// Takes in the size of the viewport. `changed` says that it is another one than
    /// the last that was seen.
    pub fn sync_scroll_viewport(&mut self, changed: bool)
        ensures
            final(self)@ == viewport_seen(old(self)@, changed),
    {
        if !self.focus.scroll_viewport_known {
            self.focus.scroll_viewport_known = true;
        } else if changed {
            self.request_active_block_scroll_into_view();
        }
    }

    /// Takes the request to save the document.
    pub fn sync_pending_save(&mut self) -> (r: bool)
        ensures
            final(self)@ == (EditorView {
                window: WindowState { pending_save: false, ..old(self)@.window },
                ..old(self)@
            }),
            r == old(self)@.window.pending_save,
    {
        let due = self.window.pending_save;
        self.window.pending_save = false;
        due
    }

    /// Takes the request to save the document under another name.
    pub fn sync_pending_save_as(&mut self) -> (r: bool)
        ensures
            final(self)@ == (EditorView {
                window: WindowState { pending_save_as: false, ..old(self)@.window },
                ..old(self)@
            }),
            r == old(self)@.window.pending_save_as,
    {
        let due = self.window.pending_save_as;
        self.window.pending_save_as = false;
        due
    }

    /// Takes the link that the user is to be asked about.
    pub fn sync_pending_open_link(&mut self) -> (r: Option<OpenLink<String>>)
        ensures
            final(self)@ == (EditorView { open_link: None, ..old(self)@ }),
            editor::opt_link(r) == old(self)@.open_link,
    {
        self.open_link.take()
    }

    /// Takes the request to mark the window as edited.
    pub fn sync_window_edited_state(&mut self) -> (r: bool)
        ensures
            final(self)@ == (EditorView {
                window: WindowState { pending_window_edited: false, ..old(self)@.window },
                ..old(self)@
            }),
            r == old(self)@.window.pending_window_edited,
    {
        let due = self.window.pending_window_edited;
        self.window.pending_window_edited = false;
        due
    }

    /// Takes the request to write the window's title anew.
    pub fn sync_window_title(&mut self) -> (r: bool)
        ensures
            final(self)@ == (EditorView {
                window: WindowState { pending_window_title_refresh: false, ..old(self)@.window },
                ..old(self)@
            }),
            r == old(self)@.window.pending_window_title_refresh,
    {
        let due = self.window.pending_window_title_refresh;
        self.window.pending_window_title_refresh = false;
        due
    }

    /// Takes in a click beside the blocks: the menu bar closes, and no row or column
    /// is marked.
    pub fn on_editor_mouse_down(&mut self)
        ensures
            final(self)@ == tables::with_selection(
                tables::with_preview(focus::menu_bar_closed(old(self)@), None),
                None,
            ),
    {
        self.close_menu_bar();
        self.clear_table_axis_preview();
        self.clear_table_axis_selection();
    }

    /// The dialog that lies over everything else.
    pub fn shown_dialog(&self) -> (r: Option<TopDialog>)
        ensures
            r == top_dialog(self@),
    {
        if self.window.info_dialog_open {
            Some(TopDialog::Info)
        } else if self.drop_replace.show_dialog {
            Some(TopDialog::DropReplace)
        } else if self.window.show_unsaved_changes_dialog {
            Some(TopDialog::UnsavedChanges)
        } else {
            None
        }
    }

    /// The lines of the dialog about the program.
    pub fn about_dialog_body_lines(
        version: &str,
        message: &str,
        github_label: &str,
        star_message: &str,
    ) -> (r: Vec<String>)
        ensures
            text::texts(r@) == about_lines(version@, message@, github_label@, star_message@),
    {
        let mut name = String::from_str("Velotype ");
        name.append(version);
        let mut address = String::from_str(github_label);
        address.append(": ");
        address.append(ABOUT_GITHUB_URL);
        let mut lines: Vec<String> = Vec::new();
        lines.push(name);
        lines.push(String::from_str(message));
        lines.push(address);
        lines.push(String::from_str(star_message));
        assert(text::texts(lines@) =~= about_lines(
            version@,
            message@,
            github_label@,
            star_message@,
        ));
        lines
    }
}

} // verus!
