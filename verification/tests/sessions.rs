//! Undo and redo, search, dropped files, images and the window.

use velotype::blocks::{BlockKind, CalloutVariant};
use velotype::editor::{
    BlockSelection, EditTarget, Editor, HistoryEntry, ScrollAlign, UndoCaptureKind,
    UndoSelectionSnapshot, ViewMode,
};
use velotype::file_drop::{DropRequest, DropSave, DroppedPath};
use velotype::history::{DocumentFacts, SourceTargetMapping};
use velotype::images::{ImageFormat, ImagePasteBehavior};
use velotype::keys::{KeyFocus, Keystroke, TabAction};
use velotype::search::SearchKey;
use velotype::window::{ScrollPass, TopDialog, ABOUT_GITHUB_URL};

fn import(markdown: &str) -> Editor {
    let mut editor = Editor::new(3, 500);
    editor.load_source(markdown, &[]);
    editor.refresh_stable_document_snapshot(&facts(markdown));
    editor
}

fn facts(source: &str) -> DocumentFacts {
    DocumentFacts {
        source: source.to_string(),
        content_fingerprint: 0,
        cross_block: None,
        cross_block_restored: false,
        first_root: None,
        target: None,
        content_start: 0,
        content_end: 0,
        mappings: vec![],
        first_focusable: None,
        gone: vec![],
    }
}

/// One block whose text lies in the source as it is.
fn mapping(entity_id: u64, start: usize, text: &str) -> SourceTargetMapping {
    SourceTargetMapping {
        entity_id,
        source_start: start,
        source_end: start + text.len(),
        content_to_source: (0..=text.len()).collect(),
        source_to_content: (0..=text.len()).collect(),
    }
}

fn edit(editor: &mut Editor, kind: UndoCaptureKind, before: &str, after: &str, now: u64) {
    editor.prepare_undo_capture(kind, &facts(before), now);
    editor.load_source(after, &[]);
    editor.finalize_pending_undo_capture(&facts(after));
}

fn sources(entries: &[HistoryEntry<String>]) -> Vec<&str> {
    entries.iter().map(|entry| entry.source_text.as_str()).collect()
}

// History

#[test]
fn redo_takes_back_an_undo() {
    let mut editor = import("one");
    edit(&mut editor, UndoCaptureKind::NonCoalescible, "one", "two", 0);
    assert_eq!(sources(&editor.history.undo), ["one"]);

    editor.undo_document(&facts("two"), &[], &facts("one"), &facts("one"), 1);
    assert_eq!(editor.document[0].title.text(), "one");
    assert_eq!(sources(&editor.history.undo), [""; 0]);
    assert_eq!(sources(&editor.history.redo), ["two"]);

    editor.redo_document(&facts("one"), &[], &facts("two"), &facts("two"), 2);
    assert_eq!(editor.document[0].title.text(), "two");
    assert_eq!(sources(&editor.history.undo), ["one"]);
    assert_eq!(sources(&editor.history.redo), [""; 0]);
}

#[test]
fn redo_gives_the_source_back() {
    let mut editor = Editor::new(3, 500);
    editor.view_mode = ViewMode::Source;
    editor.load_source("# one\n- two", &[]);
    edit(&mut editor, UndoCaptureKind::NonCoalescible, "# one\n- two", "# one", 0);
    editor.undo_document(&facts("# one"), &[], &facts(""), &facts(""), 1);
    assert_eq!(editor.document.len(), 1);
    assert_eq!(editor.document[0].title.text(), "# one\n- two");
    editor.redo_document(&facts("# one\n- two"), &[], &facts(""), &facts(""), 2);
    assert_eq!(editor.document.len(), 1);
    assert_eq!(editor.document[0].title.text(), "# one");
    assert_eq!((editor.history.undo.len(), editor.history.redo.len()), (1, 0));
}

#[test]
fn an_idle_frame_keeps_the_selection_snapshot() {
    let mut editor = import("one");
    let block = editor.document[0].id;
    let caret = |offset: usize| {
        Some(EditTarget {
            entity_id: block,
            start: offset,
            end: offset,
            reversed: false,
        })
    };
    let seen = |offset: usize, fingerprint: u64| DocumentFacts {
        content_fingerprint: fingerprint,
        target: caret(offset),
        content_start: offset,
        content_end: offset,
        mappings: vec![mapping(block, 0, "one")],
        ..facts("one")
    };
    let at = |offset: usize| UndoSelectionSnapshot {
        start: offset,
        end: offset,
        reversed: false,
    };

    assert!(editor.selection_is_stale(7, &caret(1)));
    editor.refresh_selection_snapshot_if_stale(&seen(1, 7));
    assert_eq!(editor.history.last_selection, at(1));

    assert!(!editor.selection_is_stale(7, &caret(1)));
    let moved_mapping = DocumentFacts {
        mappings: vec![mapping(block, 5, "one")],
        ..seen(1, 7)
    };
    editor.refresh_selection_snapshot_if_stale(&moved_mapping);
    assert_eq!(editor.history.last_selection, at(1));

    assert!(editor.selection_is_stale(7, &caret(2)));
    assert!(editor.selection_is_stale(8, &caret(1)));
    editor.refresh_selection_snapshot_if_stale(&seen(2, 7));
    assert_eq!(editor.history.last_selection, at(2));

    editor.view_mode = ViewMode::Source;
    assert!(editor.selection_is_stale(7, &caret(2)));
    editor.view_mode = ViewMode::Rendered;
    editor.refresh_stable_document_snapshot(&seen(2, 7));
    assert!(editor.selection_is_stale(7, &caret(2)));
}

#[test]
fn undo_without_history_changes_nothing() {
    let mut editor = import("one");
    let unchanged = import("one");
    editor.undo_document(&facts("one"), &[], &facts(""), &facts(""), 0);
    editor.redo_document(&facts("one"), &[], &facts(""), &facts(""), 0);
    assert_eq!(editor, unchanged);
}

#[test]
fn a_fresh_edit_ends_what_can_be_redone() {
    let mut editor = import("one");
    edit(&mut editor, UndoCaptureKind::NonCoalescible, "one", "two", 0);
    editor.undo_document(&facts("two"), &[], &facts("one"), &facts("one"), 1);
    edit(&mut editor, UndoCaptureKind::NonCoalescible, "one", "three", 2);
    assert_eq!(sources(&editor.history.redo), [""; 0]);
    assert_eq!(sources(&editor.history.undo), ["one"]);
}

#[test]
fn an_edit_without_effect_is_not_remembered() {
    let mut editor = import("one");
    edit(&mut editor, UndoCaptureKind::NonCoalescible, "one", "one", 0);
    assert_eq!(sources(&editor.history.undo), [""; 0]);
    assert_eq!(editor.history.pending_capture, None);
}

#[test]
fn typing_in_one_go_is_one_step() {
    let text = UndoCaptureKind::CoalescibleText;
    let mut editor = import("a");
    edit(&mut editor, text, "a", "ab", 0);
    edit(&mut editor, text, "ab", "abc", 500);
    assert_eq!(sources(&editor.history.undo), ["a"]);
    edit(&mut editor, text, "abc", "abcd", 2000);
    assert_eq!(sources(&editor.history.undo), ["a", "abc"]);
    edit(&mut editor, UndoCaptureKind::NonCoalescible, "abcd", "x", 2001);
    assert_eq!(sources(&editor.history.undo), ["a", "abc", "abcd"]);
}

#[test]
fn the_oldest_steps_are_forgotten() {
    let mut editor = import("0");
    for (before, after) in [("0", "1"), ("1", "2"), ("2", "3"), ("3", "4"), ("4", "5")] {
        edit(&mut editor, UndoCaptureKind::NonCoalescible, before, after, 0);
    }
    assert_eq!(sources(&editor.history.undo), ["2", "3", "4"]);
}

#[test]
fn the_selection_is_kept_as_offsets_into_the_source() {
    let editor = import("one\n\ntwo");
    let second = editor.document[1].id;
    let mut known = facts("one\n\ntwo");
    known.target = Some(EditTarget {
        entity_id: second,
        start: 1,
        end: 3,
        reversed: true,
    });
    known.content_start = 1;
    known.content_end = 3;
    known.mappings = vec![mapping(second, 5, "two")];
    assert_eq!(
        editor.capture_source_selection_snapshot(&known),
        UndoSelectionSnapshot {
            start: 6,
            end: 8,
            reversed: true
        }
    );
    assert_eq!(
        editor.capture_source_selection_snapshot(&facts("one\n\ntwo")),
        Editor::empty_selection_snapshot()
    );
}

#[test]
fn a_selection_goes_back_to_the_block_that_holds_it() {
    let mut editor = import("one\n\ntwo");
    let first = editor.document[0].id;
    let second = editor.document[1].id;
    let mut known = facts("one\n\ntwo");
    known.mappings = vec![mapping(first, 0, "one"), mapping(second, 5, "two")];
    let snapshot = UndoSelectionSnapshot {
        start: 6,
        end: 8,
        reversed: true,
    };
    editor.apply_selection_snapshot_in_current_mode(&snapshot, &known);
    assert_eq!(editor.focus.pending_focus, Some(second));
    assert_eq!(
        editor.document[1].selection,
        BlockSelection::Markdown { start: 1, end: 3 }
    );
    assert!(editor.document[1].selection_reversed);

    let between = UndoSelectionSnapshot {
        start: 4,
        end: 4,
        reversed: false,
    };
    editor.apply_selection_snapshot_in_current_mode(&between, &known);
    assert_eq!(editor.focus.pending_focus, Some(first));
    assert_eq!(
        editor.document[0].selection,
        BlockSelection::Markdown { start: 3, end: 3 }
    );
}

#[test]
fn a_selection_restored_in_the_source_is_captured_again() {
    let mut editor = Editor::new(3, 500);
    editor.view_mode = ViewMode::Source;
    editor.load_source("# one", &[]);
    for (start, end, reversed) in [(1, 3, true), (0, 5, false), (2, 9, false)] {
        let snapshot = UndoSelectionSnapshot {
            start,
            end,
            reversed,
        };
        editor.apply_selection_snapshot_in_current_mode(&snapshot, &facts("# one"));
        let first = &editor.document[0];
        let BlockSelection::Visible { start, end } = first.selection else {
            panic!("the selection is held as offsets");
        };
        let known = DocumentFacts {
            first_root: Some(EditTarget {
                entity_id: first.id,
                start,
                end,
                reversed: first.selection_reversed,
            }),
            ..facts("# one")
        };
        let captured = editor.capture_source_selection_snapshot(&known);
        assert_eq!(captured.start, snapshot.start);
        assert_eq!(captured.end, snapshot.end.min(5));
        assert_eq!(captured.reversed, snapshot.reversed);
    }
}

#[test]
fn distances_are_counted_from_the_nearer_end() {
    assert!(Editor::source_range_contains(3, 5, 3));
    assert!(Editor::source_range_contains(3, 5, 5));
    assert!(!Editor::source_range_contains(3, 5, 6));
    assert_eq!(Editor::source_offset_distance(3, 5, 4), 0);
    assert_eq!(Editor::source_offset_distance(3, 5, 1), 2);
    assert_eq!(Editor::source_offset_distance(3, 5, 9), 4);
}

#[test]
fn source_mode_shows_the_source_as_it_is() {
    let mut editor = import("# Title");
    editor.view_mode = ViewMode::Source;
    editor.load_source("# Title\n\ntext", &[]);
    assert_eq!(editor.document.len(), 1);
    assert_eq!(editor.document[0].title.text(), "# Title\n\ntext");
    assert!(editor.document[0].raw_text_editing);
}

// Search

fn search_key(key: &str, typed: Option<&str>) -> SearchKey<String> {
    SearchKey {
        key: key.to_string(),
        shortcut: false,
        shift: false,
        typed: typed.map(str::to_string),
        clipboard: None,
    }
}

fn active(editor: &Editor) -> Option<usize> {
    editor.overlays.search_bar.as_ref().and_then(|bar| bar.active_index)
}

fn type_query(editor: &mut Editor, query: &str) {
    for c in query.chars() {
        let typed = c.to_string();
        assert!(editor.on_search_query_key_down(&search_key(&typed, Some(&typed))));
    }
}

#[test]
fn typing_a_query_finds_its_matches() {
    let mut editor = import("Alpha beta\n\n| alphabet |\n| --- |\n| x |");
    let paragraph = editor.document[0].id;
    let header = editor.document[1].runtime.as_ref().expect("cells").header[0].id;
    editor.open_search_bar(Some(paragraph));
    type_query(&mut editor, "alpha");
    let bar = editor.overlays.search_bar.as_ref().expect("search bar");
    assert_eq!(bar.query, "alpha");
    let found: Vec<(u64, usize, usize)> = bar
        .matches
        .iter()
        .map(|hit| (hit.entity_id, hit.start, hit.end))
        .collect();
    assert_eq!(found, [(paragraph, 0, 5), (header, 0, 5)]);
    assert_eq!(active(&editor), None);
}

#[test]
fn stepping_goes_round() {
    let mut editor = import("a\n\na\n\na");
    editor.open_search_bar(None);
    type_query(&mut editor, "a");
    assert_eq!(active(&editor), None);
    assert_eq!(editor.search_count_label("none").as_deref(), Some("0/3"));
    editor.step_search_match(true);
    assert_eq!(active(&editor), Some(0));
    assert_eq!(editor.search_count_label("none").as_deref(), Some("1/3"));
    editor.step_search_match(false);
    assert_eq!(active(&editor), Some(2));
    assert_eq!(editor.focus.active_entity_id, Some(editor.document[2].id));
    assert_eq!(editor.focus.scroll_align, ScrollAlign::Nearest);
    editor.step_search_match(true);
    assert_eq!(active(&editor), Some(0));
    assert!(editor.on_search_query_key_down(&search_key("enter", None)));
    assert_eq!(active(&editor), Some(1));
}

#[test]
fn a_query_without_matches_has_no_active_one() {
    let mut editor = import("text");
    assert_eq!(editor.search_count_label("none"), None);
    editor.open_search_bar(None);
    assert_eq!(editor.search_count_label("none").as_deref(), Some(""));
    type_query(&mut editor, "z");
    assert_eq!(editor.search_count_label("none").as_deref(), Some("none"));
    assert_eq!(active(&editor), None);
    editor.step_search_match(true);
    assert_eq!(active(&editor), None);
    assert!(editor.on_search_query_key_down(&search_key("backspace", None)));
    assert_eq!(editor.overlays.search_bar.as_ref().expect("bar").query, "");
}

#[test]
fn closing_the_search_bar_gives_the_focus_back() {
    let mut editor = import("text");
    let paragraph = editor.document[0].id;
    editor.open_search_bar(Some(paragraph));
    assert!(!editor.on_search_query_key_down(&search_key("escape", None)));
    editor.close_search_bar();
    assert_eq!(editor.overlays.search_bar, None);
    assert_eq!(editor.focus.pending_focus, Some(paragraph));
}

// Dropped files

fn dropped(path: &str, is_file: bool, extension: Option<&str>) -> DroppedPath {
    DroppedPath {
        path: path.to_string(),
        is_file,
        extension: extension.map(str::to_string),
    }
}

#[test]
fn the_first_markdown_file_is_taken() {
    let paths = [
        dropped("folder.md", false, Some("md")),
        dropped("image.png", true, Some("png")),
        dropped("notes.MD", true, Some("MD")),
        dropped("more.markdown", true, Some("markdown")),
    ];
    assert_eq!(Editor::first_dropped_markdown_path(&paths), Some(2));
    assert!(Editor::is_markdown_file_path(&paths[3]));
    assert_eq!(Editor::first_dropped_markdown_path(&paths[..2]), None);
}

#[test]
fn a_clean_document_is_replaced_at_once() {
    let mut editor = import("old");
    let request = editor.request_dropped_markdown_replace("new.md".to_string(), None);
    assert_eq!(request, DropRequest::ReplaceNow);
    editor.replace_document_from_markdown(
        "a\r\nb\rc",
        Some("new.md".to_string()),
        &[],
        &facts("a\nb\nc"),
    );
    assert_eq!(editor.document[0].title.text(), "a\nb\nc");
    assert_eq!(editor.file_path.as_deref(), Some("new.md"));
    assert!(!editor.window.document_dirty);
    assert_eq!(sources(&editor.history.undo), [""; 0]);
}

#[test]
fn unsaved_changes_are_asked_about() {
    let mut editor = import("old");
    let paragraph = editor.document[0].id;
    editor.window.document_dirty = true;
    let request = editor.request_dropped_markdown_replace("new.md".to_string(), Some(paragraph));
    assert_eq!(request, DropRequest::AskFirst { dialog_is_new: true });
    assert_eq!(editor.shown_dialog(), Some(TopDialog::DropReplace));
    let request = editor.request_dropped_markdown_replace("other.md".to_string(), Some(paragraph));
    assert_eq!(
        request,
        DropRequest::AskFirst {
            dialog_is_new: false
        }
    );

    editor.cancel_drop_replace_dialog();
    assert_eq!(editor.shown_dialog(), None);
    assert_eq!(editor.drop_replace.path, None);
    assert_eq!(editor.focus.pending_focus, Some(paragraph));
    assert_eq!(editor.document[0].title.text(), "old");
}

#[test]
fn a_document_is_saved_before_it_is_replaced() {
    let mut editor = import("old");
    assert_eq!(editor.save_and_replace_pending_drop(), DropSave::NothingWaits);
    editor.window.document_dirty = true;
    editor.request_dropped_markdown_replace("new.md".to_string(), None);
    assert_eq!(editor.save_and_replace_pending_drop(), DropSave::AskForPath);
    editor.file_path = Some("old.md".to_string());
    assert_eq!(
        editor.save_and_replace_pending_drop(),
        DropSave::SaveTo("old.md".to_string())
    );
    assert!(editor.drop_replace.after_save);
    assert_eq!(editor.take_pending_drop().as_deref(), Some("new.md"));
    editor.clear_pending_drop_replace_state();
    assert!(!editor.drop_replace.after_save);
}

// Images

#[test]
fn clipboard_images_are_named_after_their_format() {
    assert_eq!(Editor::clipboard_image_extension(ImageFormat::Jpeg), "jpg");
    assert_eq!(Editor::clipboard_image_name(ImageFormat::Png), "pasted-image.png");
}

#[test]
fn a_taken_file_name_gets_a_number() {
    let name = |index| Editor::candidate_file_name("a.png", Some("a"), Some("png"), index);
    assert_eq!(name(0), "a.png");
    assert_eq!(name(1), "a1.png");
    assert_eq!(name(12), "a12.png");
    assert_eq!(Editor::candidate_file_name("raw", Some("raw"), None, 2), "raw2");
}

#[test]
fn pasted_images_are_shown_by_their_path() {
    assert_eq!(Editor::markdown_path_string("a\\b\\c.png"), "a/b/c.png");
    assert_eq!(
        Editor::relative_markdown_path("assets/a.png"),
        "./assets/a.png"
    );
    assert_eq!(
        Editor::pasted_image_markdown(Some("shot"), "./assets/shot.png"),
        "![shot](./assets/shot.png)"
    );
    assert_eq!(Editor::markdown_image_target("a (b).png"), "a \\(b\\).png");
    assert_eq!(Editor::markdown_image_alt(None), "image");
    assert_eq!(Editor::markdown_image_alt(Some("a[b]")), "a[b\\]");
}

#[test]
fn images_stay_in_place_only_where_they_are_files() {
    let keep = ImagePasteBehavior::Keep;
    assert!(Editor::keeps_pasted_image_in_place(keep, true));
    assert!(!Editor::keeps_pasted_image_in_place(keep, false));
    let copy = ImagePasteBehavior::CopyToDocumentFolder;
    assert!(!Editor::keeps_pasted_image_in_place(copy, true));
}

// Keys and kinds

fn tab(shift: bool) -> Keystroke {
    Keystroke {
        key: "tab".to_string(),
        control: false,
        platform: false,
        alt: false,
        function: false,
        shift,
    }
}

#[test]
fn tab_indents_list_items() {
    let editor = import("- a\n- b");
    let second = editor.document[1].id;
    let focus = Some(KeyFocus {
        entity_id: second,
        in_language_field: false,
    });
    assert_eq!(
        editor.on_editor_key_down_capture(&tab(false), focus),
        TabAction::Indent(second)
    );
    assert_eq!(
        editor.on_editor_key_down_capture(&tab(true), focus),
        TabAction::Outdent(second)
    );
    let mut enter = tab(false);
    enter.key = "enter".to_string();
    assert_eq!(
        editor.on_editor_key_down_capture(&enter, focus),
        TabAction::PassOn
    );
    let mut held = tab(false);
    held.control = true;
    assert_eq!(
        editor.on_editor_key_down_capture(&held, focus),
        TabAction::PassOn
    );
}

#[test]
fn marks_at_the_start_of_a_paragraph_change_its_kind() {
    let cases = [
        ("# ", BlockKind::Heading { level: 1 }, 2),
        ("### ", BlockKind::Heading { level: 3 }, 4),
        ("- ", BlockKind::BulletedListItem, 2),
        ("1. ", BlockKind::NumberedListItem, 3),
        ("> ", BlockKind::Quote, 2),
    ];
    for (typed, kind, marks) in cases {
        assert_eq!(BlockKind::detect_markdown_shortcut(typed), Some((kind, marks)));
    }
    assert_eq!(BlockKind::detect_markdown_shortcut("text"), None);
    assert_eq!(
        Editor::apply_paragraph_shortcuts(&BlockKind::Quote, "# ", 2),
        None
    );
}

#[test]
fn a_callout_reads_back_what_its_header_says() {
    let header = CalloutVariant::Warning.header_markdown("Careful");
    assert_eq!(header, "[!WARNING] Careful");
    assert_eq!(
        CalloutVariant::parse_header_line(&header),
        Some((CalloutVariant::Warning, "Careful".to_string()))
    );
}

// The window

#[test]
fn the_pending_focus_is_given_once() {
    let mut editor = import("text");
    let paragraph = editor.document[0].id;
    editor.focus_block(paragraph);
    assert_eq!(editor.apply_pending_focus(), Some(paragraph));
    assert_eq!(editor.apply_pending_focus(), None);
}

#[test]
fn scrolling_ends_after_two_settled_passes() {
    let mut editor = import("text");
    let paragraph = editor.document[0].id;
    assert_eq!(editor.apply_pending_scroll_into_view(false, true), ScrollPass::Idle);
    editor.focus_block(paragraph);
    editor.request_active_block_scroll_into_view();
    assert_eq!(editor.apply_pending_scroll_into_view(true, true), ScrollPass::Idle);
    assert!(editor.scroll_into_view_due(false));
    assert_eq!(editor.apply_pending_scroll_into_view(false, true), ScrollPass::Again);
    assert_eq!(editor.apply_pending_scroll_into_view(false, true), ScrollPass::Settled);
    assert_eq!(editor.apply_pending_scroll_into_view(false, true), ScrollPass::Idle);
}

#[test]
fn what_the_window_waits_for_is_done_once() {
    let mut editor = import("text");
    editor.window.pending_save = true;
    assert!(editor.sync_pending_save());
    assert!(!editor.sync_pending_save());
    editor.window.pending_save_as = true;
    assert!(editor.sync_pending_save_as());
    assert!(!editor.sync_pending_save_as());
    editor.mark_dirty();
    assert!(editor.sync_window_edited_state());
    assert!(!editor.sync_window_edited_state());
}

#[test]
fn the_about_dialog_names_version_and_source() {
    let lines = Editor::about_dialog_body_lines("0.4.0", "A Markdown editor", "GitHub", "Star it");
    assert!(lines.iter().any(|line| line.contains("0.4.0")));
    assert!(lines.iter().any(|line| line.contains(ABOUT_GITHUB_URL)));
    assert!(lines.iter().any(|line| line == "Star it"));
}

#[test]
fn visible_blocks_are_told_apart_by_their_ids() {
    let mut editor = import("one\n\ntwo");
    let before = editor.visible_block_ids();
    assert!(!editor.structure_changed(&before));
    editor.insert_paragraph_after(0);
    assert!(editor.structure_changed(&before));
}
