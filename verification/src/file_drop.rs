//! Dropping a Markdown file onto the editor, which replaces the document.

use crate::blocks;
use crate::context_menu;
use crate::document;
use crate::editor;
use crate::editor::{
    AxisView, DropReplaceState, Editor, EditorView, FocusState, HistoryView, UndoSelectionSnapshot,
    ViewMode, WindowState,
};
use crate::focus;
use crate::history;
use crate::history::DocumentFacts;
use crate::restore;
use crate::tables;
use crate::text;
use vstd::prelude::*;

verus! {

/// A path that was dropped, with what the file system says of it.
#[derive(Debug, PartialEq, Eq)]
pub struct DroppedPath {
    pub path: String,
    pub is_file: bool,
    pub extension: Option<String>,
}

/// What becomes of a dropped file.
#[derive(Clone, Copy, Debug, PartialEq, Eq, Structural)]
pub enum DropRequest {
    /// The document is replaced at once.
    ReplaceNow,
    /// The user is asked first. The dialog is new if it was not open before.
    AskFirst { dialog_is_new: bool },
}

/// How the document is saved before a dropped file replaces it.
#[derive(Debug, PartialEq, Eq)]
pub enum DropSave {
    /// No file waits.
    NothingWaits,
    /// To the file that it was read from.
    SaveTo(String),
    /// To a file that the user chooses.
    AskForPath,
}

/// Whether an extension is that of a Markdown file.
pub open spec fn markdown_extension(extension: Option<Seq<char>>) -> bool {
    extension matches Some(e) && (text::same_ignoring_ascii_case(e, "md"@)
        || text::same_ignoring_ascii_case(e, "markdown"@))
}

/// Whether a dropped path is a Markdown file.
pub open spec fn markdown_file(dropped: DroppedPath) -> bool {
    dropped.is_file && markdown_extension(blocks::opt_text(dropped.extension))
}

/// The text with every line break written as one line feed.
pub open spec fn unix_lines(s: Seq<char>) -> Seq<char>
    decreases s.len(),
{
    if s.len() == 0 {
        s
    } else if s.len() > 1 && s[0] == '\r' && s[1] == '\n' {
        seq!['\n'] + unix_lines(s.skip(2))
    } else if s[0] == '\r' {
        seq!['\n'] + unix_lines(s.skip(1))
    } else {
        seq![s[0]] + unix_lines(s.skip(1))
    }
}

/// No file waits to replace the document.
pub open spec fn no_drop() -> DropReplaceState<Seq<char>> {
    DropReplaceState { path: None, after_save: false, show_dialog: false, restore_focus: None }
}

/// The state with no file waiting to replace the document.
pub open spec fn drop_cleared(s: EditorView) -> EditorView {
    EditorView { drop_replace: no_drop(), ..s }
}

/// The state without menus, dialogs and bars.
pub open spec fn unobstructed(s: EditorView) -> EditorView {
    let closed = focus::menu_bar_closed(s);
    context_menu::dismissed(
        EditorView {
            window: WindowState { info_dialog_open: false, ..closed.window },
            ..closed
        },
    )
}

/// The state after a file was dropped, before it is read. Unsaved changes are not
/// replaced at once: the file waits for the user's answer. `focused` is the block
/// that has the focus.
pub open spec fn drop_requested(s: EditorView, path: Seq<char>, focused: Option<u64>) -> EditorView {
    let plain = unobstructed(s);
    if s.window.document_dirty {
        EditorView {
            drop_replace: DropReplaceState {
                path: Some(path),
                after_save: false,
                show_dialog: true,
                restore_focus: if s.drop_replace.show_dialog {
                    s.drop_replace.restore_focus
                } else {
                    focused
                },
            },
            ..plain
        }
    } else {
        plain
    }
}

/// The state with the focus where it was before the dialog.
pub open spec fn focus_restored(s: EditorView, id: Option<u64>) -> EditorView {
    match id {
        Some(id) => EditorView {
            focus: FocusState {
                pending_focus: Some(id),
                scroll_active_into_view: true,
                ..s.focus
            },
            ..s
        },
        None => s,
    }
}

/// The state after the dropped file was given up.
pub open spec fn drop_cancelled(s: EditorView) -> EditorView {
    focus_restored(drop_cleared(s), s.drop_replace.restore_focus)
}

/// The state while the document is saved before a dropped file replaces it.
pub open spec fn drop_saving(s: EditorView) -> EditorView {
    if s.drop_replace.path is None {
        drop_cleared(s)
    } else {
        focus::menu_bar_closed(
            EditorView {
                drop_replace: DropReplaceState {
                    show_dialog: false,
                    after_save: true,
                    ..s.drop_replace
                },
                ..s
            },
        )
    }
}

/// The history of a document that was just read.
pub open spec fn fresh_history(h: HistoryView, source: Seq<char>) -> HistoryView {
    HistoryView {
        undo: Seq::empty(),
        redo: Seq::empty(),
        pending_capture: None,
        restore_in_progress: false,
        last_selection: editor::no_selection(),
        last_selection_key: None,
        last_stable_source: source,
        ..h
    }
}

/// The window state of a document that was just read.
pub open spec fn fresh_window(w: WindowState) -> WindowState {
    WindowState {
        document_dirty: false,
        pending_window_edited: false,
        pending_window_title_refresh: true,
        pending_save: false,
        pending_save_as: false,
        pending_close_after_save: false,
        close_dialog_restore_focus: None,
        show_unsaved_changes_dialog: false,
        ..w
    }
}

/// The state with the document of a file in rendered mode, before the rest is
/// reset.
pub open spec fn document_read(
    s: EditorView,
    source: Seq<char>,
    path: Option<Seq<char>>,
    semantic: Seq<Seq<char>>,
) -> EditorView {
    restore::loaded(
        EditorView { file_path: path, view_mode: ViewMode::Rendered, ..s },
        source,
        semantic,
    )
}

/// The state with everything but the document reset for a document that was just
/// read.
pub open spec fn state_reset(s: EditorView, source: Seq<char>, facts: DocumentFacts) -> EditorView {
    let calm = drop_cleared(
        EditorView { window: fresh_window(s.window), open_link: None, ..s },
    );
    let plain = focus::menu_bar_closed(context_menu::dismissed(calm));
    let unmarked = tables::visuals_synced(
        EditorView { axis: AxisView { preview: None, selection: None, ..plain.axis }, ..plain },
    );
    let shown = restore::activated(
        restore::relaid(focus::cross_block_cleared(unmarked)),
        facts.first_focusable,
    );
    history::stabilized(
        EditorView { history: fresh_history(shown.history, source), ..shown },
        facts,
    )
}

/// The state after the document was replaced by that of a file. `facts` describes
/// the new document.
pub open spec fn document_replaced(
    s: EditorView,
    markdown: Seq<char>,
    path: Option<Seq<char>>,
    semantic: Seq<Seq<char>>,
    facts: DocumentFacts,
) -> EditorView {
    let source = unix_lines(markdown);
    state_reset(document_read(s, source, path, semantic), source, facts)
}

/// Whether the ids last for the document of a file.
pub open spec fn room_to_replace(
    s: EditorView,
    markdown: Seq<char>,
    semantic: Seq<Seq<char>>,
) -> bool {
    restore::room_to_load(
        EditorView { view_mode: ViewMode::Rendered, ..s },
        unix_lines(markdown),
        semantic,
    )
}

// ---------------------------------------------------------------------------
// Laws
// ---------------------------------------------------------------------------

/// No carriage return is left in a text.
pub proof fn no_carriage_return_is_left(s: Seq<char>)
    ensures
        forall|i: int| 0 <= i < unix_lines(s).len() ==> #[trigger] unix_lines(s)[i] != '\r',
    decreases s.len(),
{
    if s.len() > 0 {
        let step: int = if s.len() > 1 && s[0] == '\r' && s[1] == '\n' {
            2
        } else {
            1
        };
        no_carriage_return_is_left(s.skip(step));
        let rest = unix_lines(s.skip(step));
        assert forall|i: int| 0 <= i < unix_lines(s).len() implies #[trigger] unix_lines(s)[i]
            != '\r' by {
            if i > 0 {
                assert(unix_lines(s)[i] == rest[i - 1]);
            }
        }
    }
}

/// A text without carriage returns stays as it is.
pub proof fn line_feeds_stay(s: Seq<char>)
    requires
        forall|i: int| 0 <= i < s.len() ==> #[trigger] s[i] != '\r',
    ensures
        unix_lines(s) == s,
    decreases s.len(),
{
    if s.len() > 0 {
        let rest = s.skip(1);
        assert forall|i: int| 0 <= i < rest.len() implies #[trigger] rest[i] != '\r' by {
            assert(rest[i] == s[i + 1]);
        }
        line_feeds_stay(rest);
        assert(unix_lines(s) =~= s);
    }
}

/// Unsaved changes are kept when a file is dropped: the document stays, and the
/// user is asked about this file.
pub proof fn unsaved_changes_are_kept(s: EditorView, path: Seq<char>, focused: Option<u64>)
    requires
        s.window.document_dirty,
    ensures
        drop_requested(s, path, focused).document == s.document,
        drop_requested(s, path, focused).history == s.history,
        drop_requested(s, path, focused).drop_replace.path == Some(path),
        drop_requested(s, path, focused).drop_replace.show_dialog,
{
}

/// A dropped file that was given up leaves no trace but the focus.
pub proof fn a_cancelled_drop_leaves_the_document(s: EditorView)
    ensures
        drop_cancelled(s).document == s.document,
        drop_cancelled(s).window == s.window,
        drop_cancelled(s).drop_replace == no_drop(),
{
}

/// A document that was just read has no history, no unsaved changes and nothing
/// over it, and it is well formed.
pub proof fn a_replaced_document_starts_afresh(
    s: EditorView,
    markdown: Seq<char>,
    path: Option<Seq<char>>,
    semantic: Seq<Seq<char>>,
    facts: DocumentFacts,
)
    requires
        room_to_replace(s, markdown, semantic),
    ensures
        ({
            let after = document_replaced(s, markdown, path, semantic, facts);
            &&& after.history.undo.len() == 0
            &&& after.history.redo.len() == 0
            &&& after.history.pending_capture is None
            &&& !after.window.document_dirty
            &&& after.file_path == path
            &&& after.view_mode == ViewMode::Rendered
            &&& after.selection.cross_block is None
            &&& after.drop_replace == no_drop()
            &&& after.overlays.context_menu is None
            &&& after.overlays.search_bar is None
            &&& document::well_formed(after.document, after.next_id)
        }),
{
    let source = unix_lines(markdown);
    let ready = EditorView { file_path: path, view_mode: ViewMode::Rendered, ..s };
    restore::loaded_documents_are_well_formed(ready, source, semantic);
    let read = document_read(s, source, path, semantic);
    let after = document_replaced(s, markdown, path, semantic, facts);
    assert(document::same_shape(read.document, after.document));
    document::lemma_same_shape(read.document, after.document, read.next_id);
}

// ---------------------------------------------------------------------------
// Running code
// ---------------------------------------------------------------------------

/// The text with every line break written as one line feed.
pub fn normalize_lines(markdown: &str) -> (r: String)
    ensures
        r@ == unix_lines(markdown@),
{
    let cs = text::chars_of(markdown);
    let n: usize = cs.len();
    let mut out = String::new();
    let mut i: usize = 0;
    assert(cs@.skip(0) =~= cs@);
    while i < n
        invariant
            i <= n,
            n == cs@.len(),
            cs@ == markdown@,
            out@ + unix_lines(cs@.skip(i as int)) == unix_lines(cs@),
        decreases n - i,
    {
        let ghost rest = cs@.skip(i as int);
        let ghost before = out@;
        assert(rest[0] == cs@[i as int]);
        if cs[i] == '\r' {
            out.push('\n');
            if n - i > 1 && cs[i + 1] == '\n' {
                assert(rest[1] == cs@[i + 1]);
                assert(rest.skip(2) =~= cs@.skip(i + 2));
                i = i + 2;
            } else {
                assert(n - i > 1 ==> rest[1] == cs@[i + 1]);
                assert(rest.skip(1) =~= cs@.skip(i + 1));
                i = i + 1;
            }
        } else {
            out.push(cs[i]);
            assert(rest.skip(1) =~= cs@.skip(i + 1));
            i = i + 1;
        }
        assert(out@ + unix_lines(cs@.skip(i as int)) =~= before + unix_lines(rest));
    }
    assert(cs@.skip(i as int).len() == 0);
    assert(out@ + unix_lines(cs@.skip(i as int)) =~= out@);
    out
}

impl Editor {
    /// Whether a dropped path is a Markdown file.
    pub fn is_markdown_file_path(dropped: &DroppedPath) -> (r: bool)
        ensures
            r == markdown_file(*dropped),
    {
        match &dropped.extension {
            Some(extension) => dropped.is_file && (text::eq_ignore_ascii_case(
                extension.as_str(),
                "md",
            ) || text::eq_ignore_ascii_case(extension.as_str(), "markdown")),
            None => false,
        }
    }

    /// The place of the first Markdown file among dropped paths.
    pub fn first_dropped_markdown_path(paths: &[DroppedPath]) -> (r: Option<usize>)
        ensures
            r matches Some(i) ==> i < paths@.len() && markdown_file(paths@[i as int]) && forall|
                k: int,
            |
                0 <= k < i ==> !markdown_file(#[trigger] paths@[k]),
            r is None ==> forall|k: int|
                0 <= k < paths@.len() ==> !markdown_file(#[trigger] paths@[k]),
    {
        let mut i: usize = 0;
        while i < paths.len()
            invariant
                i <= paths@.len(),
                forall|k: int| 0 <= k < i ==> !markdown_file(#[trigger] paths@[k]),
            decreases paths@.len() - i,
        {
            if Self::is_markdown_file_path(&paths[i]) {
                return Some(i);
            }
            i = i + 1;
        }
        None
    }

    /// Takes in that a Markdown file was dropped. `focused` is the block that has
    /// the focus.
    pub fn request_dropped_markdown_replace(&mut self, path: String, focused: Option<u64>) -> (r:
        DropRequest)
        ensures
            final(self)@ == drop_requested(old(self)@, path@, focused),
            r == (if old(self)@.window.document_dirty {
                DropRequest::AskFirst { dialog_is_new: !old(self)@.drop_replace.show_dialog }
            } else {
                DropRequest::ReplaceNow
            }),
    {
        self.close_menu_bar();
        self.hide_info_dialog();
        self.dismiss_contextual_overlays();
        if !self.window.document_dirty {
            return DropRequest::ReplaceNow;
        }
        let dialog_is_new = !self.drop_replace.show_dialog;
        self.drop_replace.path = Some(path);
        self.drop_replace.after_save = false;
        if dialog_is_new {
            self.drop_replace.restore_focus = focused;
            self.drop_replace.show_dialog = true;
        }
        DropRequest::AskFirst { dialog_is_new }
    }

    fn reset_after_read(&mut self, source: String, facts: &DocumentFacts)
        requires
            history::facts_ok(*facts),
        ensures
            final(self)@ == state_reset(old(self)@, source@, *facts),
    {
        self.window.document_dirty = false;
        self.window.pending_window_edited = false;
        self.window.pending_window_title_refresh = true;
        self.window.pending_save = false;
        self.window.pending_save_as = false;
        self.open_link = None;
        self.window.pending_close_after_save = false;
        self.window.close_dialog_restore_focus = None;
        self.window.show_unsaved_changes_dialog = false;
        self.clear_pending_drop_replace_state();
        self.dismiss_contextual_overlays();
        self.close_menu_bar();
        self.axis.preview = None;
        self.axis.selection = None;
        self.sync_table_axis_visuals();
        self.clear_cross_block_selection();
        self.focus.scroll_active_into_view = true;
        self.focus.scroll_recheck_after_layout = true;
        self.focus.scroll_viewport_known = false;
        self.focus.pending_focus = facts.first_focusable;
        self.focus.active_entity_id = facts.first_focusable;
        self.history.undo = Vec::new();
        self.history.redo = Vec::new();
        self.history.pending_capture = None;
        self.history.last_selection = UndoSelectionSnapshot { start: 0, end: 0, reversed: false };
        self.history.last_selection_key = None;
        self.history.last_stable_source = source;
        self.history.restore_in_progress = false;
        assert(self@.history.undo =~= Seq::empty());
        assert(self@.history.redo =~= Seq::empty());
        self.refresh_stable_document_snapshot(facts);
    }

    /// Replaces the document by that of a file. `facts` describes the new document.
    pub fn replace_document_from_markdown(
        &mut self,
        markdown: &str,
        file_path: Option<String>,
        semantic: &[String],
        facts: &DocumentFacts,
    )
        requires
            history::facts_ok(*facts),
            room_to_replace(old(self)@, markdown@, text::texts(semantic@)),
        ensures
            final(self)@ == document_replaced(
                old(self)@,
                markdown@,
                blocks::opt_text(file_path),
                text::texts(semantic@),
                *facts,
            ),
    {
        let source = normalize_lines(markdown);
        self.file_path = file_path;
        self.view_mode = ViewMode::Rendered;
        self.load_source(source.as_str(), semantic);
        self.reset_after_read(source, facts);
    }

    /// Gives up the dropped file and brings back the focus.
    pub fn cancel_drop_replace_dialog(&mut self)
        ensures
            final(self)@ == drop_cancelled(old(self)@),
    {
        let restore_focus: Option<u64> = self.drop_replace.restore_focus;
        self.clear_pending_drop_replace_state();
        if let Some(id) = restore_focus {
            self.focus.pending_focus = Some(id);
            self.focus.scroll_active_into_view = true;
        }
    }

    /// Takes the file that waits, to replace the document by it: its changes are
    /// discarded, or saved.
    pub fn take_pending_drop(&mut self) -> (r: Option<String>)
        ensures
            final(self)@ == drop_cleared(old(self)@),
            blocks::opt_text(r) == old(self)@.drop_replace.path,
    {
        let path = self.drop_replace.path.take();
        self.clear_pending_drop_replace_state();
        path
    }

    /// Begins to save the document before the file that waits replaces it, and says
    /// where to.
    pub fn save_and_replace_pending_drop(&mut self) -> (r: DropSave)
        ensures
            final(self)@ == drop_saving(old(self)@),
            r is NothingWaits <==> old(self)@.drop_replace.path is None,
            r is AskForPath <==> old(self)@.drop_replace.path is Some && old(self)@.file_path is None,
            r matches DropSave::SaveTo(path) ==> old(self)@.file_path == Some(path@),
    {
        if self.drop_replace.path.is_none() {
            self.clear_pending_drop_replace_state();
            return DropSave::NothingWaits;
        }
        self.drop_replace.show_dialog = false;
        self.drop_replace.after_save = true;
        self.close_menu_bar();
        match &self.file_path {
            Some(path) => DropSave::SaveTo(path.clone()),
            None => DropSave::AskForPath,
        }
    }

    /// Gives up the dropped file after the document could not be saved.
    pub fn abort_pending_drop_replace_after_save(&mut self)
        ensures
            final(self)@ == drop_cancelled(old(self)@),
    {
        self.cancel_drop_replace_dialog();
    }

    /// Has no file wait to replace the document.
    pub fn clear_pending_drop_replace_state(&mut self)
        ensures
            final(self)@ == drop_cleared(old(self)@),
    {
        self.drop_replace.path = None;
        self.drop_replace.restore_focus = None;
        self.drop_replace.show_dialog = false;
        self.drop_replace.after_save = false;
    }
}

} // verus!
