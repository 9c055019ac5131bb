//! What the events of blocks and cells do.

use velotype::blocks::{BlockKind, CalloutVariant, InlineTextTree};
use velotype::document::fresh_block;
use velotype::editor::{
    BlockSelection, CrossBlockEndpoint, CrossBlockSelection, DocBlock, Editor, OpenLink,
    UndoCaptureKind, UndoSelectionSnapshot, ViewMode,
};
use velotype::events::{BlockEvent, EventOutcome, FootnoteReference};
use velotype::history::{DocumentFacts, GoneBlock};
use velotype::images::ImagePaste;
use velotype::markup::parse_standalone_image;
use velotype::paste::{MultilinePaste, ShownText};

fn import(markdown: &str) -> Editor {
    let mut editor = Editor::new(100, 500);
    editor.load_source(markdown, &[]);
    editor.history.last_stable_source = markdown.to_string();
    editor
}

fn facts(source: &str) -> DocumentFacts {
    DocumentFacts {
        source: source.to_string(),
        content_fingerprint: 0,
        cross_block: None,
        cross_block_restored: false,
        first_root: None,
        target: None,
        content_start: 0,
        content_end: 0,
        mappings: vec![],
        first_focusable: None,
        gone: vec![],
    }
}

/// Marks the paragraphs that show nothing but an image.
fn look_up_images(editor: &mut Editor) {
    for block in &mut editor.document {
        block.standalone_image = block.kind == BlockKind::Paragraph
            && parse_standalone_image(&block.title.text()).is_some();
    }
}

/// Sends an event to a document that reads `before` and does what is left to do.
/// `after` is how the document reads then.
fn send(
    editor: &mut Editor,
    id: u64,
    event: BlockEvent,
    before: &str,
    after: &str,
) -> EventOutcome {
    let outcome = editor.on_block_event(id, &event, &[], &facts(before), 0);
    if outcome.normalize_quotes {
        editor.normalize_rendered_quote_structure(&facts(after), &[], &facts(after));
    }
    look_up_images(editor);
    editor.settle_block_event(&outcome);
    if outcome.finalize {
        editor.finalize_pending_undo_capture(&facts(after));
    }
    outcome
}

fn id(editor: &Editor, i: usize) -> u64 {
    editor.document[i].id
}

fn kind(editor: &Editor, i: usize) -> &BlockKind<String> {
    &editor.document[i].kind
}

fn text(editor: &Editor, i: usize) -> String {
    editor.document[i].title.text()
}

fn depth(editor: &Editor, i: usize) -> usize {
    editor.document[i].depth
}

fn parent(editor: &Editor, i: usize) -> Option<usize> {
    (0..i).rev().find(|&k| depth(editor, k) < depth(editor, i))
}

fn quote_depth(editor: &Editor, i: usize) -> usize {
    let here = usize::from(matches!(
        kind(editor, i),
        BlockKind::Quote | BlockKind::Callout(_)
    ));
    here + parent(editor, i).map_or(0, |p| quote_depth(editor, p))
}

fn roots(editor: &Editor) -> Vec<usize> {
    (0..editor.document.len())
        .filter(|&i| depth(editor, i) == 0)
        .collect()
}

fn plain(text: &str) -> InlineTextTree {
    InlineTextTree::plain(text.to_string())
}

fn newline(trailing: &str) -> BlockEvent {
    BlockEvent::RequestNewline {
        trailing: plain(trailing),
        source_already_mutated: false,
    }
}

fn delete() -> BlockEvent {
    BlockEvent::RequestDelete {
        parent_title_markdown: String::new(),
    }
}

/// Types text into the block at `i`, as far as its text goes.
fn type_text(editor: &mut Editor, i: usize, typed: &str) {
    editor.document[i].title = plain(typed);
    editor.document[i].display_text = typed.to_string();
}

/// How text without markup shows, with the caret behind it.
fn shown(text: &str) -> ShownText {
    let marks = Editor::apply_paragraph_shortcuts(&BlockKind::Paragraph, text, text.len())
        .map_or(0, |(_, marks, _)| marks);
    ShownText {
        visible_text: text.to_string(),
        cursor: text.len(),
        rest: plain(&text[marks..]),
    }
}

fn paste(leading: &str, lines: &[&str], trailing: &str, split: bool) -> BlockEvent {
    let mut kept = leading.to_string();
    if split {
        kept.push_str(lines[0]);
        if lines.len() == 1 {
            kept.push_str(trailing);
        }
    }
    BlockEvent::RequestPasteMultiline {
        paste: MultilinePaste {
            leading: plain(leading),
            leading_blank: leading.trim().is_empty(),
            lines: lines.iter().map(|line| line.to_string()).collect(),
            trailing: plain(trailing),
            trailing_blank: trailing.trim().is_empty(),
            split_physical_lines: split,
            shown: shown(&kept),
        },
    }
}

fn table_cells(editor: &Editor, i: usize, row: usize) -> Vec<String> {
    let table = editor.document[i].table.as_ref().expect("table");
    let cells = if row == 0 {
        &table.header
    } else {
        &table.rows[row - 1]
    };
    cells.iter().map(|cell| cell.text()).collect()
}

fn cell(editor: &Editor, i: usize, row: usize, column: usize) -> u64 {
    let runtime = editor.document[i].runtime.as_ref().expect("cells");
    if row == 0 {
        runtime.header[column].id
    } else {
        runtime.rows[row - 1][column].id
    }
}

// Quotes and callouts

#[test]
fn request_quote_break_creates_new_root_leaf_quote_group() {
    let mut editor = import("> first");
    let quote = id(&editor, 0);
    let event = BlockEvent::RequestQuoteBreak;
    let outcome = editor.on_block_event(quote, &event, &[], &facts("> first"), 0);
    assert!(outcome.normalize_quotes);
    assert_eq!(editor.focus.pending_focus, Some(id(&editor, 1)));

    let read = facts("> first\n\n> ");
    editor.normalize_rendered_quote_structure(&read, &[], &read);
    assert_eq!(editor.document.len(), 2);
    assert_eq!(*kind(&editor, 0), BlockKind::Quote);
    assert_eq!(text(&editor, 0), "first");
    assert_eq!(*kind(&editor, 1), BlockKind::Quote);
    assert_eq!(text(&editor, 1), "");
    assert_eq!(quote_depth(&editor, 1), 1);
}

#[test]
fn request_quote_break_creates_nested_leaf_quote_group() {
    let mut editor = import("> outer\n>> inner");
    let inner = id(&editor, 1);
    let event = BlockEvent::RequestQuoteBreak;
    let outcome = editor.on_block_event(inner, &event, &[], &facts("> outer\n> > inner"), 0);
    assert!(outcome.normalize_quotes);
    assert_eq!(editor.focus.pending_focus, Some(id(&editor, 3)));

    let read = facts("> outer\n> > inner\n> \n> > ");
    editor.normalize_rendered_quote_structure(&read, &[], &read);
    assert_eq!(editor.document.len(), 4);
    assert_eq!(*kind(&editor, 0), BlockKind::Quote);
    assert_eq!(text(&editor, 0), "outer");
    assert_eq!(*kind(&editor, 1), BlockKind::Quote);
    assert_eq!(text(&editor, 1), "inner");
    assert_eq!(quote_depth(&editor, 1), 2);
    assert_eq!(*kind(&editor, 2), BlockKind::Paragraph);
    assert_eq!(text(&editor, 2), "");
    assert_eq!(quote_depth(&editor, 2), 1);
    assert_eq!(*kind(&editor, 3), BlockKind::Quote);
    assert_eq!(text(&editor, 3), "");
    assert_eq!(quote_depth(&editor, 3), 2);
}

#[test]
fn quote_break_outside_quotes_does_nothing() {
    let mut editor = import("first");
    let paragraph = id(&editor, 0);
    let outcome = send(&mut editor, paragraph, BlockEvent::RequestQuoteBreak, "first", "first");
    assert!(!outcome.finalize);
    assert_eq!(editor.document.len(), 1);
    assert_eq!(editor.history.undo, []);
}

#[test]
fn typing_quote_shortcut_immediately_refreshes_rendered_quote_metadata() {
    let mut editor = import("");
    let (shortcut, marks, caret) =
        Editor::apply_paragraph_shortcuts(&BlockKind::Paragraph, "> ", 2).expect("shortcut");
    assert_eq!((&shortcut, marks, caret), (&BlockKind::Quote, 2, 0));
    let paragraph = id(&editor, 0);
    editor.document[0].kind = shortcut;
    let changed = BlockEvent::Changed {
        title_markdown: String::new(),
    };
    send(&mut editor, paragraph, changed, "> ", "> ");
    assert_eq!(editor.document.len(), 1);
    assert_eq!(*kind(&editor, 0), BlockKind::Quote);
    assert_eq!(text(&editor, 0), "");
    assert_eq!(quote_depth(&editor, 0), 1);
}

#[test]
fn typing_callout_shortcut_materializes_body_and_focuses_it() {
    let mut editor = import("");
    let paragraph = id(&editor, 0);
    let (shortcut, marks, caret) =
        Editor::apply_paragraph_shortcuts(&BlockKind::Paragraph, "> [!NOTE]", 9).expect("shortcut");
    assert_eq!((&shortcut, marks, caret), (&BlockKind::Quote, 2, 7));
    editor.document[0].kind = shortcut;
    type_text(&mut editor, 0, "[!NOTE]");
    let changed = BlockEvent::Changed {
        title_markdown: "[!NOTE]".to_string(),
    };
    send(&mut editor, paragraph, changed, "> [!NOTE]", "> [!NOTE]\n> ");
    assert_eq!(editor.document.len(), 2);
    assert_eq!(*kind(&editor, 0), BlockKind::Callout(CalloutVariant::Note));
    assert_eq!(*kind(&editor, 1), BlockKind::Paragraph);
    assert_eq!(text(&editor, 1), "");
    assert_eq!(quote_depth(&editor, 1), 1);
    assert_eq!(editor.focus.pending_focus, Some(id(&editor, 1)));
}

#[test]
fn empty_callout_body_backspace_downgrades_parent_to_quote() {
    let mut editor = import("> [!NOTE]\n> ");
    let body = id(&editor, 1);
    send(&mut editor, body, delete(), "> [!NOTE]\n> ", "> \\[!NOTE]");
    assert_eq!(editor.document.len(), 1);
    assert_eq!(*kind(&editor, 0), BlockKind::Quote);
    assert_eq!(text(&editor, 0), "[!NOTE]");
}

#[test]
fn callout_exit_break_creates_plain_text_block() {
    let mut editor = import("> [!TIP]\n> body");
    let body = id(&editor, 1);
    send(
        &mut editor,
        body,
        BlockEvent::RequestCalloutBreak,
        "> [!TIP]\n> body",
        "> [!TIP]\n> body\n\n",
    );
    assert_eq!(editor.document.len(), 3);
    assert_eq!(*kind(&editor, 0), BlockKind::Callout(CalloutVariant::Tip));
    assert_eq!(*kind(&editor, 2), BlockKind::Paragraph);
    assert_eq!(text(&editor, 2), "");
    assert_eq!(quote_depth(&editor, 2), 0);
    assert_eq!(editor.focus.pending_focus, Some(id(&editor, 2)));
}

#[test]
fn entering_a_callout_focuses_its_body() {
    let mut editor = import("> [!TIP]\n> body");
    let callout = id(&editor, 0);
    let body = id(&editor, 1);
    send(
        &mut editor,
        callout,
        BlockEvent::RequestEnterCalloutBody,
        "> [!TIP]\n> body",
        "> [!TIP]\n> body",
    );
    assert_eq!(editor.document.len(), 2);
    assert_eq!(editor.focus.pending_focus, Some(body));
}

#[test]
fn imported_leaf_quote_backspace_twice_downgrades_to_text_block() {
    let mut editor = import("> ");
    let quote = id(&editor, 0);
    send(&mut editor, quote, delete(), "> ", "");
    assert_eq!(editor.document.len(), 1);
    assert_eq!(*kind(&editor, 0), BlockKind::Paragraph);
    assert_eq!(text(&editor, 0), "");
    assert_eq!(quote_depth(&editor, 0), 0);
    assert_eq!(id(&editor, 0), quote);
}

#[test]
fn root_quote_break_then_backspace_keeps_text_block_slot_after_group() {
    let mut editor = import("> side\n>\n> 1234");
    let quote = id(&editor, 0);
    send(
        &mut editor,
        quote,
        BlockEvent::RequestQuoteBreak,
        "> side\n> \n> 1234",
        "> side\n> \n> 1234\n\n> ",
    );
    assert_eq!(editor.document.len(), 2);
    assert_eq!(*kind(&editor, 1), BlockKind::Quote);
    assert_eq!(text(&editor, 1), "");
    let leaf = id(&editor, 1);
    send(
        &mut editor,
        leaf,
        BlockEvent::RequestOutdent,
        "> side\n> \n> 1234\n\n> ",
        "> side\n> \n> 1234\n\n",
    );
    assert_eq!(editor.document.len(), 2);
    assert_eq!(*kind(&editor, 0), BlockKind::Quote);
    assert_eq!(text(&editor, 0), "side\n\n1234");
    assert_eq!(*kind(&editor, 1), BlockKind::Paragraph);
    assert_eq!(text(&editor, 1), "");
    assert_eq!(id(&editor, 1), leaf);
    assert_eq!(quote_depth(&editor, 1), 0);
}

#[test]
fn root_quote_enter_stays_in_same_group() {
    let mut editor = import("> first");
    let quote = id(&editor, 0);
    let outcome = send(&mut editor, quote, newline(""), "> first", "> first\n> ");
    assert!(outcome.normalize_quotes);
    assert_eq!(editor.document.len(), 2);
    assert_eq!(*kind(&editor, 0), BlockKind::Quote);
    assert_eq!(text(&editor, 0), "first");
    assert_eq!(*kind(&editor, 1), BlockKind::Paragraph);
    assert_eq!(text(&editor, 1), "");
    assert_eq!(quote_depth(&editor, 1), 1);
}

#[test]
fn quote_newline_inside_title_stays_in_one_source_authoritative_group() {
    let mut editor = import("> firstsecond");
    let quote = id(&editor, 0);
    type_text(&mut editor, 0, "first\nsecond");
    let changed = BlockEvent::Changed {
        title_markdown: "first\nsecond".to_string(),
    };
    send(&mut editor, quote, changed, "> first\n> second", "> first\n> second");
    assert_eq!(editor.document.len(), 1);
    assert_eq!(*kind(&editor, 0), BlockKind::Quote);
    assert_eq!(text(&editor, 0), "first\nsecond");
}

#[test]
fn multiline_edit_inside_quote_reparses_into_child_blocks() {
    let mut editor = import("> first");
    let quote = id(&editor, 0);
    type_text(&mut editor, 0, "first\n- item");
    let changed = BlockEvent::Changed {
        title_markdown: "first\n- item".to_string(),
    };
    let outcome = send(&mut editor, quote, changed, "> first\n> - item", "> first\n> - item");
    assert!(outcome.normalize_quotes);
    assert_eq!(editor.document.len(), 2);
    assert_eq!(*kind(&editor, 0), BlockKind::Quote);
    assert_eq!(text(&editor, 0), "first");
    assert_eq!(*kind(&editor, 1), BlockKind::BulletedListItem);
    assert_eq!(text(&editor, 1), "item");
}

// Lists

#[test]
fn typing_numbered_list_shortcut_after_separator_preserves_group_boundary() {
    let mut editor = import("1. aa\n2. bb\n3. cc");
    let separator = editor.next_id;
    editor.next_id += 1;
    editor
        .document
        .push(fresh_block(separator, 0, BlockKind::NumberedListItem, plain(""), None));
    editor.document[3].restarts_numbering = true;
    let changed = BlockEvent::Changed {
        title_markdown: String::new(),
    };
    send(&mut editor, separator, changed, "", "1. aa\n2. bb\n3. cc\n\n1. ");
    assert_eq!(editor.document.len(), 5);
    for i in [0, 1, 2] {
        assert_eq!(*kind(&editor, i), BlockKind::NumberedListItem);
    }
    assert_eq!(*kind(&editor, 3), BlockKind::Paragraph);
    assert_eq!(text(&editor, 3), "");
    assert_eq!(id(&editor, 4), separator);
    assert_eq!(*kind(&editor, 4), BlockKind::NumberedListItem);
    assert_eq!(text(&editor, 4), "");
}

#[test]
fn request_indent_nests_non_empty_list_item() {
    let mut editor = import("- a\n- b");
    let second = id(&editor, 1);
    send(&mut editor, second, BlockEvent::RequestIndent, "- a\n- b", "- a\n  - b");
    assert_eq!(editor.document.len(), 2);
    assert_eq!(*kind(&editor, 0), BlockKind::BulletedListItem);
    assert_eq!(*kind(&editor, 1), BlockKind::BulletedListItem);
    assert_eq!(depth(&editor, 1), 1);
    assert_eq!(editor.history.undo.len(), 1);

    send(&mut editor, second, BlockEvent::RequestOutdent, "- a\n  - b", "- a\n- b");
    assert_eq!(depth(&editor, 1), 0);
    assert_eq!(id(&editor, 1), second);
}

#[test]
fn the_first_block_is_not_indented() {
    let mut editor = import("- a\n- b");
    let first = id(&editor, 0);
    send(&mut editor, first, BlockEvent::RequestIndent, "- a\n- b", "- a\n- b");
    assert_eq!(depth(&editor, 0), 0);
    assert_eq!(editor.history.undo, []);
}

#[test]
fn request_outdent_lifts_list_child_paragraph_after_parent() {
    let mut editor = import("- item\n\n  child text");
    let child = id(&editor, 1);
    send(
        &mut editor,
        child,
        BlockEvent::RequestOutdent,
        "- item\n\n  child text",
        "- item\n\nchild text",
    );
    assert_eq!(editor.document.len(), 2);
    assert_eq!(*kind(&editor, 0), BlockKind::BulletedListItem);
    assert_eq!(text(&editor, 0), "item");
    assert_eq!(*kind(&editor, 1), BlockKind::Paragraph);
    assert_eq!(text(&editor, 1), "child text");
    assert_eq!(depth(&editor, 1), 0);
    assert_eq!(id(&editor, 1), child);
}

#[test]
fn empty_list_child_paragraph_enter_continues_same_level() {
    let mut editor = import("- item\n\n  child");
    let child = id(&editor, 1);
    type_text(&mut editor, 1, "");
    send(&mut editor, child, newline(""), "- item\n  ", "- item\n  \n  ");
    assert_eq!(editor.document.len(), 3);
    assert_eq!(*kind(&editor, 0), BlockKind::BulletedListItem);
    assert_eq!(*kind(&editor, 1), BlockKind::Paragraph);
    assert_eq!(text(&editor, 1), "");
    assert_eq!(id(&editor, 1), child);
    assert_eq!(depth(&editor, 1), 1);
    assert_eq!(*kind(&editor, 2), BlockKind::Paragraph);
    assert_eq!(text(&editor, 2), "");
    assert_eq!(depth(&editor, 2), 1);
}

#[test]
fn nested_list_item_backspace_downgrades_to_direct_list_child() {
    let mut editor = import("- a\n  - b");
    let nested = id(&editor, 1);
    send(
        &mut editor,
        nested,
        BlockEvent::RequestDowngradeNestedListItemToChildParagraph,
        "- a\n  - b",
        "- a\n\n  b",
    );
    assert_eq!(editor.document.len(), 2);
    assert_eq!(*kind(&editor, 0), BlockKind::BulletedListItem);
    assert_eq!(*kind(&editor, 1), BlockKind::Paragraph);
    assert_eq!(text(&editor, 1), "b");
    assert_eq!(depth(&editor, 1), 1);
}

#[test]
fn empty_nested_list_item_backspace_twice_exits_to_outer_paragraph() {
    let mut editor = import("- a\n  - ");
    let nested = id(&editor, 1);
    send(
        &mut editor,
        nested,
        BlockEvent::RequestDowngradeNestedListItemToChildParagraph,
        "- a\n  - ",
        "- a\n  ",
    );
    assert_eq!(editor.document.len(), 2);
    assert_eq!(*kind(&editor, 1), BlockKind::Paragraph);
    assert_eq!(text(&editor, 1), "");
    assert_eq!(depth(&editor, 1), 1);

    send(&mut editor, nested, BlockEvent::RequestOutdent, "- a\n  ", "- a\n\n");
    assert_eq!(editor.document.len(), 2);
    assert_eq!(*kind(&editor, 0), BlockKind::BulletedListItem);
    assert_eq!(*kind(&editor, 1), BlockKind::Paragraph);
    assert_eq!(text(&editor, 1), "");
    assert_eq!(depth(&editor, 1), 0);
}

#[test]
fn nested_list_item_downgrade_hoists_children_after_paragraph() {
    let mut editor = import("- a\n  - b\n    - c\n  - d");
    let nested = id(&editor, 1);
    send(
        &mut editor,
        nested,
        BlockEvent::RequestDowngradeNestedListItemToChildParagraph,
        "- a\n  - b\n    - c\n  - d",
        "- a\n\n  b\n  - c\n  - d",
    );
    assert_eq!(editor.document.len(), 4);
    assert_eq!(*kind(&editor, 0), BlockKind::BulletedListItem);
    assert_eq!(*kind(&editor, 1), BlockKind::Paragraph);
    assert_eq!(text(&editor, 1), "b");
    assert_eq!(depth(&editor, 1), 1);
    assert_eq!(*kind(&editor, 2), BlockKind::BulletedListItem);
    assert_eq!(text(&editor, 2), "c");
    assert_eq!(depth(&editor, 2), 1);
    assert_eq!(*kind(&editor, 3), BlockKind::BulletedListItem);
    assert_eq!(text(&editor, 3), "d");
    assert_eq!(depth(&editor, 3), 1);
}

#[test]
fn nested_numbered_and_task_items_backspace_downgrade_to_list_child() {
    for markdown in ["1. a\n  1. b", "- [ ] a\n  - [ ] b"] {
        let mut editor = import(markdown);
        let nested = id(&editor, 1);
        send(
            &mut editor,
            nested,
            BlockEvent::RequestDowngradeNestedListItemToChildParagraph,
            markdown,
            "",
        );
        assert_eq!(*kind(&editor, 1), BlockKind::Paragraph);
        assert_eq!(text(&editor, 1), "b");
        assert_eq!(depth(&editor, 1), 1);
    }
}

#[test]
fn ticking_a_task_twice_clears_it() {
    let mut editor = import("- [ ] todo");
    let task = id(&editor, 0);
    send(&mut editor, task, BlockEvent::ToggleTaskChecked, "- [ ] todo", "- [x] todo");
    assert_eq!(*kind(&editor, 0), BlockKind::TaskListItem { checked: true });
    send(&mut editor, task, BlockEvent::ToggleTaskChecked, "- [x] todo", "- [ ] todo");
    assert_eq!(*kind(&editor, 0), BlockKind::TaskListItem { checked: false });
}

// Enter

#[test]
fn enter_splits_a_paragraph_at_the_caret() {
    let mut editor = import("beforeafter");
    let paragraph = id(&editor, 0);
    type_text(&mut editor, 0, "before");
    send(&mut editor, paragraph, newline("after"), "beforeafter", "before\n\nafter");
    assert_eq!(editor.document.len(), 2);
    assert_eq!(text(&editor, 0), "before");
    assert_eq!(*kind(&editor, 1), BlockKind::Paragraph);
    assert_eq!(text(&editor, 1), "after");
    assert_eq!(editor.focus.pending_focus, Some(id(&editor, 1)));
    assert_eq!(
        editor.document[1].selection,
        BlockSelection::Visible { start: 0, end: 0 }
    );
    assert!(editor.window.document_dirty);
}

#[test]
fn enter_inside_script_paragraph_creates_new_block() {
    let mut editor = import("H~2~O");
    let paragraph = id(&editor, 0);
    send(&mut editor, paragraph, newline(""), "H~2~O", "H~2~O\n\n");
    assert_eq!(editor.document.len(), 2);
    assert_eq!(text(&editor, 0), "H~2~O");
    assert_eq!(*kind(&editor, 1), BlockKind::Paragraph);
    assert_eq!(text(&editor, 1), "");
}

#[test]
fn enter_inside_inline_math_paragraph_creates_new_block() {
    let mut editor = import("$n^2$");
    let paragraph = id(&editor, 0);
    send(&mut editor, paragraph, newline(""), "$n^2$", "$n^2$\n\n");
    assert_eq!(editor.document.len(), 2);
    assert_eq!(*kind(&editor, 0), BlockKind::Paragraph);
    assert_eq!(text(&editor, 0), "$n^2$");
    assert!(!editor.document[0].raw_text_editing);
    assert_eq!(*kind(&editor, 1), BlockKind::Paragraph);
    assert_eq!(text(&editor, 1), "");
}

#[test]
fn math_block_exit_shortcut_creates_plain_text_block() {
    let mut editor = import("$$n^2$$");
    let math = id(&editor, 0);
    send(&mut editor, math, newline(""), "$$n^2$$", "$$n^2$$\n\n");
    assert_eq!(editor.document.len(), 2);
    assert_eq!(*kind(&editor, 0), BlockKind::MathBlock);
    assert_eq!(text(&editor, 0), "$$n^2$$");
    assert_eq!(*kind(&editor, 1), BlockKind::Paragraph);
    assert_eq!(text(&editor, 1), "");
}

#[test]
fn raw_like_block_exit_shortcut_creates_plain_text_block() {
    let cases = [
        (BlockKind::HtmlBlock, "<div>\ncontent\n</div>"),
        (BlockKind::MermaidBlock, "```mermaid\nflowchart LR\nA-->B\n```"),
        (BlockKind::RawMarkdown, "::: custom\ncontent\n:::"),
        (BlockKind::Comment, "<!--\ncomment\n-->"),
    ];
    for (raw, markdown) in cases {
        let mut editor = import("");
        let block = id(&editor, 0);
        type_text(&mut editor, 0, markdown);
        editor.document[0].kind = raw.duplicate();
        send(&mut editor, block, newline(""), markdown, "");
        assert_eq!(editor.document.len(), 2);
        assert_eq!(*kind(&editor, 0), raw);
        assert_eq!(text(&editor, 0), markdown);
        assert_eq!(*kind(&editor, 1), BlockKind::Paragraph);
        assert_eq!(text(&editor, 1), "");
    }
}

#[test]
fn setext_equals_underline_enter_promotes_previous_paragraph_to_h1() {
    let mut editor = import("Title\n\n=====");
    let underline = id(&editor, 1);
    send(&mut editor, underline, newline(""), "Title\n\n=====", "# Title\n\n");
    assert_eq!(editor.document.len(), 2);
    assert_eq!(*kind(&editor, 0), BlockKind::Heading { level: 1 });
    assert_eq!(text(&editor, 0), "Title");
    assert_eq!(*kind(&editor, 1), BlockKind::Paragraph);
    assert_eq!(text(&editor, 1), "");

    editor.undo_document(
        &facts("# Title\n\n"),
        &[],
        &facts("Title\n\n====="),
        &facts("Title\n\n====="),
        0,
    );
    assert_eq!(editor.document.len(), 2);
    assert_eq!(*kind(&editor, 0), BlockKind::Paragraph);
    assert_eq!(text(&editor, 0), "Title");
    assert_eq!(text(&editor, 1), "=====");
}

#[test]
fn setext_dash_underline_enter_promotes_previous_paragraph_to_h2() {
    let mut editor = import("Title\n\nx");
    let underline = id(&editor, 1);
    type_text(&mut editor, 1, "-----");
    send(&mut editor, underline, newline(""), "Title\n\n-----", "## Title\n\n");
    assert_eq!(*kind(&editor, 0), BlockKind::Heading { level: 2 });
    assert_eq!(text(&editor, 0), "Title");
}

#[test]
fn dash_underline_without_heading_target_stays_a_separator() {
    let mut editor = import("");
    let separator = id(&editor, 0);
    type_text(&mut editor, 0, "-----");
    send(&mut editor, separator, newline(""), "-----", "---\n\n");
    assert_eq!(*kind(&editor, 0), BlockKind::Separator);
}

#[test]
fn equals_underline_without_heading_target_stays_a_paragraph() {
    let mut editor = import("");
    let paragraph = id(&editor, 0);
    type_text(&mut editor, 0, "=====");
    send(&mut editor, paragraph, newline(""), "=====", "=====\n\n");
    assert_eq!(*kind(&editor, 0), BlockKind::Paragraph);
    assert_eq!(text(&editor, 0), "=====");
    assert_eq!(editor.document.len(), 2);
}

fn table_of(header: &str, delimiter: &str) -> Editor {
    let source = format!("{header}\n\n{delimiter}");
    let mut editor = import(&source);
    let row = id(&editor, 1);
    send(&mut editor, row, newline(""), &source, "");
    editor
}

#[test]
fn delimiter_row_enter_forms_native_table() {
    let mut editor = table_of("| Name | Score |", "| --- | --- |");
    assert_eq!(roots(&editor), [0, 1]);
    assert_eq!(*kind(&editor, 0), BlockKind::Table);
    assert_eq!(table_cells(&editor, 0, 0), ["Name", "Score"]);
    assert_eq!(editor.document[0].table.as_ref().unwrap().rows.len(), 0);
    assert_eq!(*kind(&editor, 1), BlockKind::Paragraph);

    let source = "| Name | Score |\n\n| --- | --- |";
    editor.undo_document(
        &facts("| Name | Score |\n| --- | --- |\n\n"),
        &[],
        &facts(source),
        &facts(source),
        0,
    );
    assert_eq!(editor.document.len(), 2);
    assert_eq!(text(&editor, 0), "| Name | Score |");
    assert_eq!(text(&editor, 1), "| --- | --- |");
}

#[test]
fn pipe_row_below_table_is_absorbed_as_a_row() {
    let mut editor = table_of("| Name | Score |", "| --- | --- |");
    let row = id(&editor, 1);
    type_text(&mut editor, 1, "| Alice | 10 |");
    send(&mut editor, row, newline(""), "", "");
    assert_eq!(*kind(&editor, 0), BlockKind::Table);
    assert_eq!(editor.document[0].table.as_ref().unwrap().rows.len(), 1);
    assert_eq!(table_cells(&editor, 0, 1), ["Alice", "10"]);
    assert_eq!(*kind(&editor, 1), BlockKind::Paragraph);
    assert_eq!(text(&editor, 1), "");
}

#[test]
fn pipeless_delimiter_row_enter_forms_native_table() {
    let editor = table_of("Name | Score", "---- | ----");
    assert_eq!(roots(&editor), [0, 1]);
    assert_eq!(*kind(&editor, 0), BlockKind::Table);
    assert_eq!(table_cells(&editor, 0, 0), ["Name", "Score"]);
    assert_eq!(editor.document[0].table.as_ref().unwrap().rows.len(), 0);
    assert_eq!(*kind(&editor, 1), BlockKind::Paragraph);
}

#[test]
fn pipeless_row_below_table_is_absorbed_as_a_row() {
    let mut editor = table_of("Name | Score", "---- | ----");
    let row = id(&editor, 1);
    type_text(&mut editor, 1, "Alice | 10");
    send(&mut editor, row, newline(""), "", "");
    assert_eq!(*kind(&editor, 0), BlockKind::Table);
    assert_eq!(editor.document[0].table.as_ref().unwrap().rows.len(), 1);
    assert_eq!(table_cells(&editor, 0, 1), ["Alice", "10"]);
    assert_eq!(*kind(&editor, 1), BlockKind::Paragraph);
}

#[test]
fn ragged_pipeless_row_below_table_is_padded_to_width() {
    let mut editor = table_of("A | B | C", "--- | --- | ---");
    let row = id(&editor, 1);
    type_text(&mut editor, 1, "one | two");
    send(&mut editor, row, newline(""), "", "");
    assert_eq!(editor.document[0].table.as_ref().unwrap().rows.len(), 1);
    assert_eq!(table_cells(&editor, 0, 1), ["one", "two", ""]);
}

#[test]
fn lone_pipe_row_without_table_context_stays_a_paragraph() {
    let mut editor = import("");
    let row = id(&editor, 0);
    type_text(&mut editor, 0, "| a | b |");
    send(&mut editor, row, newline(""), "| a | b |", "| a | b |\n\n");
    assert_eq!(*kind(&editor, 0), BlockKind::Paragraph);
    assert_eq!(text(&editor, 0), "| a | b |");
}

// Cells

const TABLE: &str = "| A | B |\n| --- | --- |\n| 1 | 2 |";

#[test]
fn table_cell_enter_still_moves_to_next_row() {
    let markdown = format!("{TABLE}\n| 3 | 4 |");
    let mut editor = import(&markdown);
    let from = cell(&editor, 0, 1, 0);
    let below = cell(&editor, 0, 2, 0);
    let event = BlockEvent::RequestTableCellMoveVertical {
        delta: 1,
        entry_offset: 0,
    };
    send(&mut editor, from, event, &markdown, &markdown);
    assert_eq!(editor.document.len(), 1);
    assert_eq!(editor.focus.pending_focus, Some(below));
}

#[test]
fn table_cell_exit_shortcut_inserts_sibling_after_table() {
    let markdown = "> [!NOTE]\n> | A | B |\n> | --- | --- |\n> | 1 | 2 |";
    let mut editor = import(markdown);
    assert_eq!(*kind(&editor, 1), BlockKind::Table);
    let from = cell(&editor, 1, 1, 0);
    send(&mut editor, from, newline(""), markdown, "");
    assert_eq!(editor.document.len(), 3);
    assert_eq!(*kind(&editor, 1), BlockKind::Table);
    assert_eq!(*kind(&editor, 2), BlockKind::Paragraph);
    assert_eq!(parent(&editor, 2), Some(0));
    assert_eq!(text(&editor, 2), "");
    assert_eq!(editor.focus.pending_focus, Some(id(&editor, 2)));
}

#[test]
fn arrow_down_from_last_row_exits_table_to_following_block() {
    let mut editor = import(&format!("{TABLE}\n\nafter"));
    let from = cell(&editor, 0, 1, 0);
    let event = BlockEvent::RequestTableCellMoveVertical {
        delta: 1,
        entry_offset: 0,
    };
    send(&mut editor, from, event, "", "");
    assert_eq!(text(&editor, 1), "after");
    assert_eq!(editor.focus.pending_focus, Some(id(&editor, 1)));
}

#[test]
fn arrow_up_from_header_exits_table_to_preceding_block() {
    let mut editor = import(&format!("before\n\n{TABLE}"));
    let from = cell(&editor, 1, 0, 0);
    let event = BlockEvent::RequestTableCellMoveVertical {
        delta: -1,
        entry_offset: 3,
    };
    send(&mut editor, from, event, "", "");
    assert_eq!(text(&editor, 0), "before");
    assert_eq!(editor.focus.pending_focus, Some(id(&editor, 0)));
    assert_eq!(
        editor.document[0].selection,
        BlockSelection::Visible { start: 3, end: 3 }
    );
}

#[test]
fn arrow_down_into_table_focuses_header_cell() {
    let mut editor = import(&format!("before\n\n{TABLE}"));
    let paragraph = id(&editor, 0);
    let event = BlockEvent::RequestFocusNext { entry_offset: 0 };
    send(&mut editor, paragraph, event, "", "");
    assert_eq!(editor.focus.pending_focus, Some(cell(&editor, 1, 0, 0)));
}

#[test]
fn arrow_up_into_table_focuses_last_row_cell() {
    let mut editor = import(&format!("{TABLE}\n\nafter"));
    let paragraph = id(&editor, 1);
    let event = BlockEvent::RequestFocusPrev { entry_offset: 0 };
    send(&mut editor, paragraph, event, "", "");
    assert_eq!(editor.focus.pending_focus, Some(cell(&editor, 0, 1, 0)));
}

#[test]
fn block_up_from_table_cell_exits_to_preceding_block() {
    let mut editor = import(&format!("before\n\n{TABLE}"));
    let from = cell(&editor, 1, 1, 0);
    send(&mut editor, from, BlockEvent::RequestBlockUp, "", "");
    assert_eq!(text(&editor, 0), "before");
    assert_eq!(editor.focus.pending_focus, Some(id(&editor, 0)));
}

#[test]
fn block_down_into_table_focuses_header_cell() {
    let mut editor = import(&format!("before\n\n{TABLE}"));
    let paragraph = id(&editor, 0);
    send(&mut editor, paragraph, BlockEvent::RequestBlockDown, "", "");
    assert_eq!(editor.focus.pending_focus, Some(cell(&editor, 1, 0, 0)));
}

#[test]
fn tabbing_moves_through_the_cells_and_back() {
    let mut editor = import(TABLE);
    let first = cell(&editor, 0, 0, 0);
    let second = cell(&editor, 0, 0, 1);
    let third = cell(&editor, 0, 1, 0);
    for (from, delta, to) in [
        (first, 1, second),
        (second, 1, third),
        (third, -1, second),
        (second, -1, first),
    ] {
        let event = BlockEvent::RequestTableCellMoveHorizontal { delta };
        send(&mut editor, from, event, TABLE, TABLE);
        assert_eq!(editor.focus.pending_focus, Some(to));
    }
}

// Leaving blocks

#[test]
fn down_out_of_code_block_focuses_following_block() {
    let mut editor = import("```rust\nab\n```\n\nafter");
    let code = id(&editor, 0);
    assert!(kind(&editor, 0).is_code_block());
    let event = BlockEvent::RequestFocusNext { entry_offset: 0 };
    send(&mut editor, code, event, "", "");
    assert_eq!(text(&editor, 1), "after");
    assert_eq!(editor.document.len(), 2);
    assert_eq!(editor.focus.pending_focus, Some(id(&editor, 1)));
}

#[test]
fn down_out_of_trailing_code_block_creates_and_focuses_paragraph() {
    let mut editor = import("```rust\nab\n```");
    assert_eq!(editor.document.len(), 1);
    let code = id(&editor, 0);
    let event = BlockEvent::RequestFocusNext { entry_offset: 0 };
    send(&mut editor, code, event, "", "");
    assert_eq!(roots(&editor), [0, 1]);
    assert_eq!(*kind(&editor, 1), BlockKind::Paragraph);
    assert_eq!(text(&editor, 1), "");
    assert_eq!(editor.focus.pending_focus, Some(id(&editor, 1)));
}

#[test]
fn down_out_of_trailing_math_block_creates_and_focuses_paragraph() {
    let mut editor = import("$$\nx^2\n$$");
    assert_eq!(*kind(&editor, 0), BlockKind::MathBlock);
    let math = id(&editor, 0);
    let event = BlockEvent::RequestFocusNext { entry_offset: 0 };
    send(&mut editor, math, event, "", "");
    assert_eq!(roots(&editor), [0, 1]);
    assert_eq!(*kind(&editor, 1), BlockKind::Paragraph);
    assert_eq!(editor.focus.pending_focus, Some(id(&editor, 1)));
}

#[test]
fn down_at_end_of_trailing_paragraph_creates_nothing() {
    let mut editor = import("hello");
    let paragraph = id(&editor, 0);
    let event = BlockEvent::RequestFocusNext { entry_offset: 0 };
    send(&mut editor, paragraph, event, "", "");
    assert_eq!(editor.document.len(), 1);
}

// Merging and deleting

#[test]
fn merging_joins_the_texts_at_the_caret() {
    let mut editor = import("one\n\ntwo");
    let first = id(&editor, 0);
    let second = id(&editor, 1);
    let event = BlockEvent::RequestMergeIntoPrev {
        content: plain("two"),
    };
    send(&mut editor, second, event, "one\n\ntwo", "onetwo");
    assert_eq!(editor.document.len(), 1);
    assert_eq!(text(&editor, 0), "onetwo");
    assert_eq!(editor.focus.pending_focus, Some(first));
    assert_eq!(
        editor.document[0].selection,
        BlockSelection::Visible { start: 3, end: 3 }
    );
}

#[test]
fn the_first_block_is_not_merged() {
    let mut editor = import("one\n\ntwo");
    let first = id(&editor, 0);
    let event = BlockEvent::RequestMergeIntoPrev {
        content: plain("one"),
    };
    let outcome = send(&mut editor, first, event, "one\n\ntwo", "one\n\ntwo");
    assert!(!outcome.finalize);
    assert_eq!(editor.document.len(), 2);
}

#[test]
fn deleting_a_block_keeps_the_blocks_under_it() {
    let mut editor = import("- a\n  - b");
    let first = id(&editor, 0);
    send(&mut editor, first, delete(), "- a\n  - b", "- b");
    assert_eq!(editor.document.len(), 1);
    assert_eq!(text(&editor, 0), "b");
    assert_eq!(depth(&editor, 0), 0);
}

#[test]
fn the_only_block_stays_when_it_is_deleted() {
    let mut editor = import("only");
    let only = id(&editor, 0);
    let outcome = send(&mut editor, only, delete(), "only", "only");
    assert!(!outcome.finalize);
    assert_eq!(editor.document.len(), 1);
    assert_eq!(id(&editor, 0), only);
    assert_eq!(editor.focus.pending_focus, Some(only));
}

// Pasting

#[test]
fn plain_multiline_paste_with_scripts_splits_physical_lines() {
    let mut editor = import("");
    let block = id(&editor, 0);
    let event = paste("", &["H~2~O", "CO<sub>2</sub>", "x<sup>n</sup>"], "", true);
    send(&mut editor, block, event, "", "");
    assert_eq!(editor.document.len(), 3);
    assert_eq!(text(&editor, 0), "H~2~O");
    assert_eq!(text(&editor, 1), "CO<sub>2</sub>");
    assert_eq!(text(&editor, 2), "x<sup>n</sup>");
}

#[test]
fn plain_multiline_paste_with_blank_script_lines_skips_separator_blanks() {
    let mut editor = import("");
    let block = id(&editor, 0);
    let lines = ["H~2~O", "", "CO<sub>2</sub>", "", "x<sup>n</sup>", ""];
    send(&mut editor, block, paste("", &lines, "", true), "", "");
    assert_eq!(editor.document.len(), 3);
    assert_eq!(text(&editor, 0), "H~2~O");
    assert_eq!(text(&editor, 1), "CO<sub>2</sub>");
    assert_eq!(text(&editor, 2), "x<sup>n</sup>");
}

#[test]
fn plain_paste_preserves_tibetan_spaces() {
    let tibetan = "༄༅།།དཔལ་ལྡན་རྩ་བའི་བླ་མ་རིན་པོ་ཆེ།། བདག་གི་སྤྱི་བོར་པདྨའི་གདན་བཞུགས་ནས།། ";
    let mut editor = import("");
    let block = id(&editor, 0);
    send(&mut editor, block, paste("", &[tibetan], "", true), "", tibetan);
    assert_eq!(editor.document.len(), 1);
    assert_eq!(text(&editor, 0), tibetan);
    assert!(text(&editor, 0).contains("།། བདག"));
    assert!(text(&editor, 0).ends_with(' '));
}

#[test]
fn structural_paste_of_table_renders_native_table() {
    let mut editor = import("");
    let block = id(&editor, 0);
    let lines = ["| A | B |", "| --- | --- |", "| 1 | 2 |"];
    send(&mut editor, block, paste("", &lines, "", false), "", "");
    assert_eq!(editor.document.len(), 2);
    assert_eq!(*kind(&editor, 0), BlockKind::Table);
    assert_eq!(table_cells(&editor, 0, 0), ["A", "B"]);
    assert_eq!(editor.document[0].table.as_ref().unwrap().rows.len(), 1);
    assert_eq!(table_cells(&editor, 0, 1), ["1", "2"]);
    assert_eq!(*kind(&editor, 1), BlockKind::Paragraph);
    assert_eq!(text(&editor, 1), "");
}

#[test]
fn structural_paste_of_code_block_renders_native_code_block() {
    let mut editor = import("");
    let block = id(&editor, 0);
    let lines = ["```rust", "fn main() {}", "```"];
    send(&mut editor, block, paste("", &lines, "", false), "", "");
    assert_eq!(editor.document.len(), 2);
    assert_eq!(
        *kind(&editor, 0),
        BlockKind::CodeBlock {
            language: Some("rust".into())
        }
    );
    assert_eq!(text(&editor, 0), "fn main() {}");
    assert_eq!(*kind(&editor, 1), BlockKind::Paragraph);
}

#[test]
fn structural_paste_of_table_preserves_surrounding_text() {
    let mut editor = import("beforeafter");
    let block = id(&editor, 0);
    let lines = ["| A | B |", "| --- | --- |", "| 1 | 2 |"];
    send(&mut editor, block, paste("before", &lines, "after", false), "beforeafter", "");
    assert_eq!(editor.document.len(), 3);
    assert_eq!(text(&editor, 0), "before");
    assert_eq!(*kind(&editor, 1), BlockKind::Table);
    assert_eq!(table_cells(&editor, 1, 0), ["A", "B"]);
    assert_eq!(table_cells(&editor, 1, 1), ["1", "2"]);
    assert_eq!(*kind(&editor, 2), BlockKind::Paragraph);
    assert_eq!(text(&editor, 2), "after");
}

#[test]
fn structural_paste_of_code_block_preserves_surrounding_text() {
    let mut editor = import("beforeafter");
    let block = id(&editor, 0);
    let lines = ["```rust", "fn main() {}", "```"];
    send(&mut editor, block, paste("before", &lines, "after", false), "beforeafter", "");
    assert_eq!(editor.document.len(), 3);
    assert_eq!(text(&editor, 0), "before");
    assert_eq!(
        *kind(&editor, 1),
        BlockKind::CodeBlock {
            language: Some("rust".into())
        }
    );
    assert_eq!(text(&editor, 1), "fn main() {}");
    assert_eq!(*kind(&editor, 2), BlockKind::Paragraph);
    assert_eq!(text(&editor, 2), "after");
}

#[test]
fn structural_paste_at_document_end_adds_one_trailing_paragraph() {
    let mut editor = import("intro");
    let block = id(&editor, 0);
    send(&mut editor, block, paste("intro", &["***"], "", false), "intro", "");
    assert_eq!(editor.document.len(), 3);
    assert_eq!(text(&editor, 0), "intro");
    assert_eq!(*kind(&editor, 1), BlockKind::Separator);
    assert_eq!(*kind(&editor, 2), BlockKind::Paragraph);
    assert_eq!(text(&editor, 2), "");
}

#[test]
fn structural_paste_of_quote_at_document_end_adds_trailing_paragraph() {
    let mut editor = import("intro");
    let block = id(&editor, 0);
    let event = paste("intro", &["> quoted"], "", false);
    send(&mut editor, block, event, "intro", "intro\n\n> quoted");
    let at = roots(&editor);
    assert_eq!(at.len(), 3);
    assert_eq!(text(&editor, at[0]), "intro");
    assert_eq!(*kind(&editor, at[1]), BlockKind::Quote);
    assert_eq!(*kind(&editor, at[2]), BlockKind::Paragraph);
    assert_eq!(text(&editor, at[2]), "");
}

#[test]
fn structural_paste_of_callout_at_document_end_adds_trailing_paragraph() {
    let mut editor = import("intro");
    let block = id(&editor, 0);
    let event = paste("intro", &["> [!NOTE]", "> body"], "", false);
    send(&mut editor, block, event, "intro", "intro\n\n> [!NOTE]\n> body");
    let at = roots(&editor);
    assert_eq!(at.len(), 3);
    assert_eq!(*kind(&editor, at[1]), BlockKind::Callout(CalloutVariant::Note));
    assert_eq!(*kind(&editor, at[2]), BlockKind::Paragraph);
    assert_eq!(text(&editor, at[2]), "");
}

#[test]
fn structural_paste_of_footnote_definition_at_document_end_adds_trailing_paragraph() {
    let mut editor = import("intro");
    let block = id(&editor, 0);
    let event = paste("intro", &["[^note]: definition body"], "", false);
    send(&mut editor, block, event, "intro", "");
    let at = roots(&editor);
    assert_eq!(at.len(), 3);
    assert_eq!(*kind(&editor, at[1]), BlockKind::FootnoteDefinition);
    assert_eq!(*kind(&editor, at[2]), BlockKind::Paragraph);
    assert_eq!(text(&editor, at[2]), "");
}

#[test]
fn structural_paste_of_standalone_image_at_document_end_adds_trailing_paragraph() {
    let mut editor = import("intro");
    let block = id(&editor, 0);
    let event = paste("intro", &["![alt](pic.png)"], "", false);
    send(&mut editor, block, event, "intro", "");
    let at = roots(&editor);
    assert_eq!(at.len(), 3);
    assert!(editor.document[at[1]].standalone_image);
    assert_eq!(*kind(&editor, at[2]), BlockKind::Paragraph);
    assert_eq!(text(&editor, at[2]), "");
}

fn image(leading: &str, trailing: &str) -> ImagePaste {
    ImagePaste {
        leading: plain(leading),
        leading_blank: leading.is_empty(),
        markdown: "![image](./assets/image.png)".to_string(),
        trailing: plain(trailing),
        trailing_blank: trailing.is_empty(),
        shown: shown(leading),
    }
}

#[test]
fn image_block_insert_preserves_surrounding_paragraph_text() {
    let mut editor = import("beforeafter");
    editor.insert_image_block_after_paragraph(0, &image("before", "after"));
    look_up_images(&mut editor);
    assert_eq!(editor.document.len(), 3);
    assert_eq!(text(&editor, 0), "before");
    assert_eq!(text(&editor, 1), "![image](./assets/image.png)");
    assert!(editor.document[1].standalone_image);
    assert_eq!(text(&editor, 2), "after");
}

#[test]
fn image_paste_text_in_code_block_stays_inside_block() {
    let mut editor = import("```\nbeforeafter\n```");
    editor.replace_current_block_selection_with_image_text(0, &image("before", "after"));
    assert_eq!(editor.document.len(), 1);
    assert_eq!(*kind(&editor, 0), BlockKind::CodeBlock { language: None });
    assert_eq!(text(&editor, 0), "before![image](./assets/image.png)after");
}

#[test]
fn a_pasted_image_takes_an_empty_paragraph() {
    let mut editor = import("");
    let block = id(&editor, 0);
    let event = BlockEvent::RequestPasteImage {
        image: image("", ""),
    };
    send(&mut editor, block, event, "", "![image](./assets/image.png)");
    assert_eq!(text(&editor, 0), "![image](./assets/image.png)");
    assert_eq!(id(&editor, 0), block);
    assert_eq!(editor.history.undo.len(), 1);
}

// Links and footnotes

#[test]
fn footnote_reference_jump_and_backref_follow_in_place_definition() {
    let mut editor = import("alpha[^note]\n\n[^note]: Footnote body");
    let paragraph = id(&editor, 0);
    let at = (0..editor.document.len())
        .find(|&i| *kind(&editor, i) == BlockKind::FootnoteDefinition)
        .expect("footnote definition block");
    let definition = id(&editor, at);

    let event = BlockEvent::RequestJumpToFootnoteDefinition {
        definition: Some(definition),
    };
    send(&mut editor, paragraph, event, "", "");
    assert_eq!(editor.focus.pending_focus, Some(definition));
    assert_eq!(
        editor.document[at].selection,
        BlockSelection::Visible { start: 0, end: 0 }
    );

    let event = BlockEvent::RequestJumpToFootnoteBackref {
        reference: Some(FootnoteReference {
            entity_id: paragraph,
            start: 5,
            end: 6,
        }),
    };
    send(&mut editor, definition, event, "", "");
    assert_eq!(editor.focus.pending_focus, Some(paragraph));
    assert_eq!(
        editor.document[0].selection,
        BlockSelection::Visible { start: 5, end: 6 }
    );
}

#[test]
fn a_footnote_without_a_definition_is_not_jumped_to() {
    let mut editor = import("alpha[^note]");
    let paragraph = id(&editor, 0);
    let event = BlockEvent::RequestJumpToFootnoteDefinition { definition: None };
    send(&mut editor, paragraph, event, "", "");
    assert_eq!(editor.focus.pending_focus, None);
}

#[test]
fn a_link_waits_until_it_is_asked_about() {
    let mut editor = import("link");
    let paragraph = id(&editor, 0);
    let event = BlockEvent::RequestOpenLink {
        prompt_target: "shown".to_string(),
        open_target: "https://example.com".to_string(),
    };
    send(&mut editor, paragraph, event, "", "");
    let link = OpenLink {
        prompt_target: "shown".to_string(),
        open_target: "https://example.com".to_string(),
    };
    assert_eq!(editor.sync_pending_open_link(), Some(link));
    assert_eq!(editor.sync_pending_open_link(), None);
}

// Other events

#[test]
fn indenting_an_unknown_block_changes_nothing() {
    let mut editor = import("one\n\ntwo");
    let unchanged = import("one\n\ntwo");
    let unknown = editor.next_id + 5;
    let outcome = send(&mut editor, unknown, BlockEvent::RequestIndent, "", "");
    assert!(!outcome.finalize);
    assert_eq!(editor, unchanged);
}

#[test]
fn an_edit_is_captured_from_the_last_stable_text() {
    let mut editor = import("one");
    let paragraph = id(&editor, 0);
    let event = BlockEvent::PrepareUndo {
        capture: UndoCaptureKind::CoalescibleText,
    };
    send(&mut editor, paragraph, event, "", "");
    let entry = editor.history.pending_capture.as_ref().expect("capture");
    assert_eq!(entry.source_text, "one");
    assert_eq!(entry.kind, UndoCaptureKind::CoalescibleText);
}

#[test]
fn edits_end_a_selection_that_spans_blocks() {
    assert!(Editor::block_event_clears_cross_block_selection(&delete()));
    assert!(Editor::block_event_clears_cross_block_selection(
        &BlockEvent::RequestIndent
    ));
    assert!(!Editor::block_event_clears_cross_block_selection(
        &BlockEvent::RequestFocus
    ));
    assert!(!Editor::block_event_clears_cross_block_selection(
        &BlockEvent::RequestOpenLink {
            prompt_target: String::new(),
            open_target: String::new(),
        }
    ));
}

#[test]
fn asking_for_the_focus_gives_it() {
    let mut editor = import("one\n\ntwo");
    let second = id(&editor, 1);
    send(&mut editor, second, BlockEvent::RequestFocus, "", "");
    assert_eq!(editor.focus.active_entity_id, Some(second));
}

#[test]
fn moving_about_changes_nothing() {
    let mut editor = import(&format!("before\n\n{TABLE}\n\nafter"));
    let blocks: Vec<(u64, String)> = (0..editor.document.len())
        .map(|i| (id(&editor, i), text(&editor, i)))
        .collect();
    let cell = cell(&editor, 1, 1, 1);
    let after = id(&editor, 2);
    for (from, event) in [
        (cell, BlockEvent::RequestTableCellMoveHorizontal { delta: 1 }),
        (cell, BlockEvent::RequestBlockDown),
        (after, BlockEvent::RequestFocusPrev { entry_offset: 0 }),
        (after, BlockEvent::RequestBlockUp),
        (after, BlockEvent::RequestFocus),
    ] {
        let outcome = send(&mut editor, from, event, "", "");
        assert!(!outcome.finalize);
    }
    let still: Vec<(u64, String)> = (0..editor.document.len())
        .map(|i| (id(&editor, i), text(&editor, i)))
        .collect();
    assert_eq!(still, blocks);
    assert!(!editor.window.document_dirty);
}

#[test]
fn an_indent_is_undone_in_one_step() {
    let mut editor = import("- a\n- b");
    let second = id(&editor, 1);
    send(&mut editor, second, BlockEvent::RequestIndent, "- a\n- b", "- a\n  - b");
    assert_eq!(editor.history.undo.last().map(|e| e.source_text.as_str()), Some("- a\n- b"));
    let before = facts("- a\n- b");
    editor.undo_document(&facts("- a\n  - b"), &[], &before, &before, 1);
    assert_eq!(editor.document.len(), 2);
    assert_eq!(depth(&editor, 1), 0);
    assert_eq!(text(&editor, 1), "b");
}

// Marks at the start of pasted text

#[test]
fn marks_at_the_start_of_pasted_text_change_the_kind() {
    let mut editor = import("");
    let block = id(&editor, 0);
    let event = paste("", &["## Title", "body"], "", true);
    send(&mut editor, block, event, "", "## Title\n\nbody");
    assert_eq!(*kind(&editor, 0), BlockKind::Heading { level: 2 });
    assert_eq!(text(&editor, 0), "Title");
    assert_eq!(editor.document[0].selection, BlockSelection::CleanOffset(5));
    assert_eq!(text(&editor, 1), "body");
}

#[test]
fn marks_before_a_pasted_image_change_the_kind() {
    let mut editor = import("- item");
    editor.document[0].kind = BlockKind::Paragraph;
    let block = id(&editor, 0);
    assert!(editor.image_gets_a_paragraph(block));
    let event = BlockEvent::RequestPasteImage {
        image: image("- item", ""),
    };
    send(&mut editor, block, event, "- item", "- item\n\n![image](./assets/image.png)");
    assert_eq!(*kind(&editor, 0), BlockKind::BulletedListItem);
    assert_eq!(text(&editor, 0), "item");
    assert_eq!(text(&editor, 1), "![image](./assets/image.png)");
}

#[test]
fn marks_in_other_blocks_stay_text() {
    let mut editor = import("> quote");
    let block = id(&editor, 0);
    assert!(!editor.image_gets_a_paragraph(block));
    let event = paste("# ", &["title"], "", true);
    send(&mut editor, block, event, "> quote", "> # title");
    assert_eq!(*kind(&editor, 0), BlockKind::Quote);
}

// Selections that span blocks

#[test]
fn an_image_takes_the_place_of_a_selection_that_spans_blocks() {
    let mut editor = import("one\n\ntwo");
    let block = id(&editor, 0);
    let end = |entity_id, offset| CrossBlockEndpoint { entity_id, offset };
    editor.selection.cross_block = Some(CrossBlockSelection {
        anchor: end(block, 1),
        focus: end(id(&editor, 1), 2),
    });
    let selected = DocumentFacts {
        cross_block: Some(UndoSelectionSnapshot {
            start: 1,
            end: 7,
            reversed: false,
        }),
        ..facts("one\n\ntwo")
    };
    let event = BlockEvent::RequestPasteImage {
        image: image("o", "ne"),
    };
    let outcome = editor.on_block_event(block, &event, &[], &selected, 0);
    assert!(outcome.replace_selection);
    assert!(!outcome.finalize);
    assert!(editor.selection.cross_block.is_some());
    assert_eq!(editor.document.len(), 2);
    assert_eq!(text(&editor, 0), "one");
    assert!(!editor.window.document_dirty);
}

// Blocks that are gone

const GONE: u64 = 1_000_000;

#[test]
fn a_block_that_is_gone_can_still_open_a_link() {
    let mut editor = import("one");
    let event = BlockEvent::RequestOpenLink {
        prompt_target: "page".to_string(),
        open_target: "https://example.com".to_string(),
    };
    send(&mut editor, GONE, event, "one", "one");
    assert_eq!(
        editor.open_link,
        Some(OpenLink {
            prompt_target: "page".to_string(),
            open_target: "https://example.com".to_string(),
        })
    );
}

#[test]
fn a_block_that_is_gone_can_still_jump_and_be_focused() {
    let mut editor = import("one\n\ntwo");
    let definition = id(&editor, 1);
    let event = BlockEvent::RequestJumpToFootnoteDefinition {
        definition: Some(definition),
    };
    send(&mut editor, GONE, event, "", "");
    assert_eq!(editor.focus.pending_focus, Some(definition));
    send(&mut editor, GONE, BlockEvent::RequestFocus, "", "");
    assert_eq!(editor.focus.pending_focus, Some(GONE));
    assert_eq!(editor.apply_pending_focus(), None);
}

#[test]
fn the_caret_leaves_a_block_that_is_gone_like_the_first() {
    let mut editor = import("one\n\ntwo");
    let second = id(&editor, 1);
    send(&mut editor, GONE, BlockEvent::RequestBlockUp, "", "");
    assert_eq!(editor.focus.pending_focus, None);
    send(&mut editor, GONE, BlockEvent::RequestBlockDown, "", "");
    assert_eq!(editor.focus.pending_focus, Some(second));
}

#[test]
fn changes_of_a_block_that_is_gone_mark_the_document() {
    let mut editor = import("one");
    let event = BlockEvent::Changed {
        title_markdown: "x".to_string(),
    };
    let outcome = send(&mut editor, GONE, event, "one", "one");
    assert!(outcome.finalize);
    assert!(editor.window.document_dirty);
    assert_eq!(text(&editor, 0), "one");
}

#[test]
fn a_block_that_is_gone_cannot_be_deleted_or_moved() {
    let mut editor = import("one\n\ntwo");
    for event in [delete(), BlockEvent::RequestIndent, BlockEvent::RequestOutdent, newline("")] {
        let outcome = send(&mut editor, GONE, event, "one\n\ntwo", "one\n\ntwo");
        assert!(!outcome.finalize);
        assert_eq!(editor.document.len(), 2);
    }
}

/// What is known of a document and of a block that it has lost.
fn without(block: DocBlock, first_child: Option<u64>) -> DocumentFacts {
    DocumentFacts {
        gone: vec![GoneBlock {
            block,
            in_quote: false,
            in_quote_group: false,
            first_child,
        }],
        ..facts("text")
    }
}

#[test]
fn a_quote_that_is_gone_can_ask_for_quotes_to_be_read_anew() {
    for (typed, reparse) in [("one\ntwo", false), ("one\n- two", true)] {
        let mut editor = import("> quote\n\ntext");
        let mut block = editor.document.remove(0);
        block.display_text = typed.to_string();
        let quote = block.id;
        let event = BlockEvent::Changed {
            title_markdown: typed.to_string(),
        };
        let outcome = editor.on_block_event(quote, &event, &[], &without(block, None), 0);
        assert_eq!(outcome.normalize_quotes, reparse);
        assert_eq!(outcome.rebuild_images, !reparse);
        assert!(outcome.finalize);
    }
}

#[test]
fn a_callout_header_typed_into_a_quote_that_is_gone_gets_a_body_there() {
    let mut editor = import("> quote\n\ntext");
    let block = editor.document.remove(0);
    let quote = block.id;
    let body = editor.next_id;
    let event = BlockEvent::Changed {
        title_markdown: "[!NOTE]".to_string(),
    };
    let outcome = editor.on_block_event(quote, &event, &[], &without(block, None), 0);
    assert_eq!(outcome.focus_after, Some(body));
    assert_eq!(editor.next_id, body + 1);
    assert_eq!(editor.document.len(), 1);
}

#[test]
fn the_body_of_a_callout_that_is_gone_is_entered_there() {
    for child in [None, Some(GONE)] {
        let mut editor = import("> [!TIP]\n\ntext");
        let block = editor.document.remove(0);
        assert_eq!(block.kind, BlockKind::Callout(CalloutVariant::Tip));
        let callout = block.id;
        let next = editor.next_id;
        let length = editor.document.len();
        let event = BlockEvent::RequestEnterCalloutBody;
        let outcome = editor.on_block_event(callout, &event, &[], &without(block, child), 0);
        assert_eq!(outcome.finalize, child.is_none());
        assert_eq!(editor.focus.pending_focus, Some(child.unwrap_or(next)));
        assert_eq!(editor.document.len(), length);
    }
}

#[test]
fn an_image_pasted_into_a_block_that_is_gone_changes_no_block() {
    for (view, focused) in [(ViewMode::Rendered, None), (ViewMode::Source, Some(GONE))] {
        let mut editor = import("text");
        editor.view_mode = view;
        let event = BlockEvent::RequestPasteImage {
            image: image("", ""),
        };
        let outcome = editor.on_block_event(GONE, &event, &[], &facts("text"), 0);
        assert!(outcome.finalize);
        assert!(editor.window.document_dirty);
        assert_eq!(text(&editor, 0), "text");
        assert_eq!(editor.focus.pending_focus, focused);
    }
}
