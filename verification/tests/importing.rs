//! Importing Markdown into blocks.

use velotype::blocks::{BlockKind, CalloutVariant};
use velotype::editor::Editor;

fn import_knowing(markdown: &str, semantic: &[&str]) -> Editor {
    let semantic: Vec<String> = semantic.iter().map(|text| text.to_string()).collect();
    let mut editor = Editor::new(100, 500);
    editor.load_source(markdown, &semantic);
    editor
}

fn import(markdown: &str) -> Editor {
    import_knowing(markdown, &[])
}

fn kind(editor: &Editor, i: usize) -> &BlockKind<String> {
    &editor.document[i].kind
}

fn text(editor: &Editor, i: usize) -> String {
    editor.document[i].title.text()
}

fn depth(editor: &Editor, i: usize) -> usize {
    editor.document[i].depth
}

fn parent(editor: &Editor, i: usize) -> Option<usize> {
    (0..i).rev().find(|&k| depth(editor, k) < depth(editor, i))
}

fn quote_depth(editor: &Editor, i: usize) -> usize {
    let here = usize::from(matches!(
        kind(editor, i),
        BlockKind::Quote | BlockKind::Callout(_)
    ));
    here + parent(editor, i).map_or(0, |p| quote_depth(editor, p))
}

fn has_children(editor: &Editor, i: usize) -> bool {
    i + 1 < editor.document.len() && depth(editor, i + 1) > depth(editor, i)
}

#[test]
fn imports_setext_headings_and_grouped_paragraphs() {
    let editor = import("Heading\n-------\n\nfirst line\nsecond line");
    assert_eq!(editor.document.len(), 2);
    assert_eq!(*kind(&editor, 0), BlockKind::Heading { level: 2 });
    assert_eq!(text(&editor, 0), "Heading");
    assert_eq!(*kind(&editor, 1), BlockKind::Paragraph);
    assert_eq!(text(&editor, 1), "first line\nsecond line");
}

#[test]
fn imports_indented_code_blocks() {
    let editor = import("    let x = 1;\n    println!(\"hi\");");
    assert_eq!(editor.document.len(), 1);
    assert!(kind(&editor, 0).is_code_block());
    assert_eq!(text(&editor, 0), "let x = 1;\nprintln!(\"hi\");");
}

#[test]
fn imports_consecutive_code_blocks_without_merging() {
    let editor =
        import("```bash\ngit clone url\n```\n\n```\ncargo build\n```\n\n```\nmake\n```");
    let code: Vec<String> = (0..editor.document.len())
        .filter(|&i| kind(&editor, i).is_code_block())
        .map(|i| text(&editor, i))
        .collect();
    assert_eq!(code, vec!["git clone url", "cargo build", "make"]);
}

#[test]
fn paragraphs_keep_their_spaces() {
    let tibetan = "༄༅།།དཔལ་ལྡན་རྩ་བའི་བླ་མ་རིན་པོ་ཆེ།། བདག་གི་སྤྱི་བོར་པདྨའི་གདན་བཞུགས་ནས།། ";
    for markdown in ["alpha  \nbeta", tibetan, "中文 文本 "] {
        let editor = import(markdown);
        assert_eq!(editor.document.len(), 1);
        assert_eq!(text(&editor, 0), markdown);
    }
}

#[test]
fn preserves_hard_break_spaces_in_simple_quote() {
    let editor = import("> alpha  \n> beta");
    assert_eq!(editor.document.len(), 1);
    assert_eq!(*kind(&editor, 0), BlockKind::Quote);
    assert_eq!(text(&editor, 0), "alpha  \nbeta");
}

#[test]
fn preserves_hard_break_spaces_in_list_item_continuation() {
    let editor = import("- alpha  \n  beta");
    assert_eq!(editor.document.len(), 1);
    assert_eq!(*kind(&editor, 0), BlockKind::BulletedListItem);
    assert_eq!(text(&editor, 0), "alpha  \nbeta");
}

#[test]
fn imports_nested_list_children_as_native_blocks() {
    let editor = import("- parent\n  - nested bullet\n  - [x] nested task");
    assert_eq!(editor.document.len(), 3);
    assert_eq!(*kind(&editor, 0), BlockKind::BulletedListItem);
    assert_eq!(text(&editor, 0), "parent");
    assert_eq!(*kind(&editor, 1), BlockKind::BulletedListItem);
    assert_eq!(text(&editor, 1), "nested bullet");
    assert_eq!(*kind(&editor, 2), BlockKind::TaskListItem { checked: true });
    assert_eq!(text(&editor, 2), "nested task");
    assert_eq!((depth(&editor, 1), depth(&editor, 2)), (1, 1));
}

#[test]
fn imports_indented_code_block_as_native_list_child() {
    let editor = import("- item with code block\n\n      let x = 1;\n      let y = 2;");
    assert_eq!(editor.document.len(), 2);
    assert_eq!(*kind(&editor, 0), BlockKind::BulletedListItem);
    assert_eq!(*kind(&editor, 1), BlockKind::CodeBlock { language: None });
    assert_eq!(text(&editor, 1), "let x = 1;\nlet y = 2;");
}

#[test]
fn imports_fenced_code_block_as_native_list_child() {
    let editor = import("- item with fenced code\n  ```rust\n  fn main() {}\n  ```");
    assert_eq!(editor.document.len(), 2);
    assert_eq!(*kind(&editor, 0), BlockKind::BulletedListItem);
    assert_eq!(
        *kind(&editor, 1),
        BlockKind::CodeBlock {
            language: Some("rust".to_string())
        }
    );
    assert_eq!(text(&editor, 1), "fn main() {}");
}

#[test]
fn imports_simple_quote_as_native_list_child() {
    let editor =
        import("1. item with nested quote\n\n   > quoted text\n   >\n   > quoted paragraph two");
    assert_eq!(editor.document.len(), 2);
    assert_eq!(*kind(&editor, 0), BlockKind::NumberedListItem);
    assert_eq!(text(&editor, 0), "item with nested quote");
    assert_eq!(*kind(&editor, 1), BlockKind::Quote);
    assert_eq!(text(&editor, 1), "quoted text\n\nquoted paragraph two");
}

#[test]
fn a_blank_line_between_numbered_lists_is_kept() {
    let editor = import("1. aa\n2. bb\n3. cc\n\n1. dd");
    assert_eq!(editor.document.len(), 5);
    assert_eq!(*kind(&editor, 0), BlockKind::NumberedListItem);
    assert_eq!(*kind(&editor, 3), BlockKind::Paragraph);
    assert_eq!(text(&editor, 3), "");
    assert_eq!(*kind(&editor, 4), BlockKind::NumberedListItem);
    assert_eq!(text(&editor, 4), "dd");
}

#[test]
fn imports_parenthesized_ordered_lists() {
    let editor = import("1) one\n2) two");
    assert_eq!(editor.document.len(), 2);
    assert_eq!(*kind(&editor, 0), BlockKind::NumberedListItem);
    assert_eq!(*kind(&editor, 1), BlockKind::NumberedListItem);
    assert_eq!(text(&editor, 0), "one");
    assert_eq!(text(&editor, 1), "two");
}

#[test]
fn imports_nested_parenthesized_ordered_list_children() {
    let editor = import("1) parent\n   1) child");
    assert_eq!(editor.document.len(), 2);
    assert_eq!(*kind(&editor, 0), BlockKind::NumberedListItem);
    assert_eq!(*kind(&editor, 1), BlockKind::NumberedListItem);
    assert_eq!(text(&editor, 0), "parent");
    assert_eq!(text(&editor, 1), "child");
    assert_eq!(depth(&editor, 1), 1);
}

#[test]
fn imports_nested_quotes_as_native_blocks() {
    let editor = import("> level1\n>> level2\n>>> level3");
    assert_eq!(editor.document.len(), 3);
    for (i, name) in ["level1", "level2", "level3"].iter().enumerate() {
        assert_eq!(*kind(&editor, i), BlockKind::Quote);
        assert_eq!(text(&editor, i), *name);
        assert_eq!(quote_depth(&editor, i), i + 1);
    }
}

#[test]
fn literal_blank_line_splits_quote_groups() {
    let editor = import("> first\n\n> second");
    assert_eq!(editor.document.len(), 2);
    for (i, name) in ["first", "second"].iter().enumerate() {
        assert_eq!(*kind(&editor, i), BlockKind::Quote);
        assert_eq!(text(&editor, i), *name);
        assert_eq!(quote_depth(&editor, i), 1);
    }
}

#[test]
fn quoted_blank_line_stays_inside_same_quote_group() {
    let editor = import("> first\n>\n> second");
    assert_eq!(editor.document.len(), 1);
    assert_eq!(*kind(&editor, 0), BlockKind::Quote);
    assert_eq!(text(&editor, 0), "first\n\nsecond");
}

#[test]
fn imports_quote_with_list_children() {
    let editor = import("> Quote with list:\n> - item 1\n> - [ ] task item");
    assert_eq!(editor.document.len(), 3);
    assert_eq!(*kind(&editor, 0), BlockKind::Quote);
    assert_eq!(text(&editor, 0), "Quote with list:");
    assert_eq!(*kind(&editor, 1), BlockKind::BulletedListItem);
    assert_eq!(text(&editor, 1), "item 1");
    assert_eq!(quote_depth(&editor, 1), 1);
    assert_eq!(*kind(&editor, 2), BlockKind::TaskListItem { checked: false });
    assert_eq!(quote_depth(&editor, 2), 1);
}

#[test]
fn imports_quote_with_code_block_child() {
    let editor = import(
        "> Quote with code block:\n>\n>     fn main() {\n>         println!(\"hi\");\n>     }",
    );
    assert_eq!(editor.document.len(), 3);
    assert_eq!(*kind(&editor, 0), BlockKind::Quote);
    assert_eq!(text(&editor, 0), "Quote with code block:");
    assert_eq!(*kind(&editor, 1), BlockKind::Paragraph);
    assert_eq!(text(&editor, 1), "");
    assert_eq!(quote_depth(&editor, 1), 1);
    assert_eq!(*kind(&editor, 2), BlockKind::CodeBlock { language: None });
    assert_eq!(quote_depth(&editor, 2), 1);
    assert_eq!(text(&editor, 2), "fn main() {\n    println!(\"hi\");\n}");
}

#[test]
fn imports_quote_with_standalone_image_child() {
    let editor = import("> ![alt](./img.png)");
    assert_eq!(editor.document.len(), 2);
    assert_eq!(*kind(&editor, 0), BlockKind::Quote);
    assert_eq!(text(&editor, 0), "");
    assert_eq!(*kind(&editor, 1), BlockKind::Paragraph);
    assert_eq!(quote_depth(&editor, 1), 1);
}

#[test]
fn imports_bulleted_list_item_with_standalone_image_title() {
    let editor = import("- ![alt](./img.png)");
    assert_eq!(editor.document.len(), 1);
    assert_eq!(*kind(&editor, 0), BlockKind::BulletedListItem);
    assert!(!has_children(&editor, 0));
}

#[test]
fn imports_list_item_with_standalone_image_child() {
    let editor = import("- item\n  ![alt](./img.png)");
    assert_eq!(editor.document.len(), 2);
    assert_eq!(*kind(&editor, 0), BlockKind::BulletedListItem);
    assert_eq!(text(&editor, 0), "item");
    assert_eq!(*kind(&editor, 1), BlockKind::Paragraph);
    assert_eq!(depth(&editor, 1), 1);
}

#[test]
fn imports_list_image_title_with_native_child_paragraph() {
    let editor = import("- ![alt](./img.png)\n  child text");
    assert_eq!(editor.document.len(), 2);
    assert_eq!(*kind(&editor, 0), BlockKind::BulletedListItem);
    assert_eq!(*kind(&editor, 1), BlockKind::Paragraph);
    assert_eq!(text(&editor, 1), "child text");
    assert_eq!(depth(&editor, 1), 1);
}

#[test]
fn imports_quote_with_numbered_list_image_item() {
    let editor = import("> 1. ![alt](./img.png)");
    assert_eq!(editor.document.len(), 2);
    assert_eq!(*kind(&editor, 0), BlockKind::Quote);
    assert_eq!(*kind(&editor, 1), BlockKind::NumberedListItem);
    assert_eq!(quote_depth(&editor, 1), 1);
}

#[test]
fn imports_callout_with_task_list_image_item_and_child() {
    let editor = import(
        "> [!NOTE]\n> - [ ] ![cover][img]\n>   ![detail](./detail.png)\n>\n> [img]: ./cover.png",
    );
    assert_eq!(*kind(&editor, 0), BlockKind::Callout(CalloutVariant::Note));
    assert_eq!(*kind(&editor, 1), BlockKind::TaskListItem { checked: false });
    assert_eq!(quote_depth(&editor, 1), 1);
    assert_eq!(*kind(&editor, 2), BlockKind::Paragraph);
    assert_eq!(parent(&editor, 2), Some(1));
    assert_eq!(quote_depth(&editor, 2), 1);
}

#[test]
fn imports_callout_with_standalone_image_child() {
    let editor = import("> [!NOTE]\n> ![alt](./img.png)");
    assert_eq!(*kind(&editor, 0), BlockKind::Callout(CalloutVariant::Note));
    assert_eq!(*kind(&editor, 1), BlockKind::Paragraph);
    assert_eq!(quote_depth(&editor, 1), 1);
}

#[test]
fn imports_quote_list_item_with_native_child_paragraph() {
    let editor = import("> - item\n>\n>     child text");
    assert_eq!(editor.document.len(), 3);
    assert_eq!(*kind(&editor, 0), BlockKind::Quote);
    assert_eq!(*kind(&editor, 1), BlockKind::BulletedListItem);
    assert_eq!(quote_depth(&editor, 1), 1);
    assert_eq!(*kind(&editor, 2), BlockKind::Paragraph);
    assert_eq!(text(&editor, 2), "child text");
    assert_eq!(parent(&editor, 2), Some(1));
    assert_eq!(quote_depth(&editor, 2), 1);
}

#[test]
fn imports_callout_list_item_with_native_child_paragraph() {
    let editor = import("> [!NOTE]\n> - item\n>\n>     child text");
    assert_eq!(*kind(&editor, 0), BlockKind::Callout(CalloutVariant::Note));
    assert_eq!(*kind(&editor, 1), BlockKind::BulletedListItem);
    assert_eq!(quote_depth(&editor, 1), 1);
    assert_eq!(*kind(&editor, 2), BlockKind::Paragraph);
    assert_eq!(text(&editor, 2), "child text");
    assert_eq!(parent(&editor, 2), Some(1));
    assert_eq!(quote_depth(&editor, 2), 1);
}

#[test]
fn quote_does_not_promote_multiline_image_paragraph_to_child() {
    let editor = import("> ![alt](./img.png)\n> tail");
    assert_eq!(editor.document.len(), 1);
    assert_eq!(*kind(&editor, 0), BlockKind::Quote);
}

#[test]
fn imports_callout_from_quote_header() {
    let editor = import("> [!NOTE]");
    assert_eq!(editor.document.len(), 1);
    assert_eq!(*kind(&editor, 0), BlockKind::Callout(CalloutVariant::Note));
    assert_eq!(text(&editor, 0), "");
    assert!(!has_children(&editor, 0));
    assert_eq!(quote_depth(&editor, 0), 1);
}

#[test]
fn imports_important_callout_case_insensitively() {
    let editor = import("> [!important] Optional title");
    assert_eq!(editor.document.len(), 1);
    assert_eq!(
        *kind(&editor, 0),
        BlockKind::Callout(CalloutVariant::Important)
    );
    assert_eq!(text(&editor, 0), "Optional title");
}

#[test]
fn imports_callout_title_and_nested_quote_child() {
    let editor = import("> [!WARNING] Custom title\n> body\n> > nested");
    assert_eq!(editor.document.len(), 3);
    assert_eq!(
        *kind(&editor, 0),
        BlockKind::Callout(CalloutVariant::Warning)
    );
    assert_eq!(text(&editor, 0), "Custom title");
    assert_eq!(*kind(&editor, 1), BlockKind::Paragraph);
    assert_eq!(text(&editor, 1), "body");
    assert_eq!(*kind(&editor, 2), BlockKind::Quote);
    assert_eq!(text(&editor, 2), "nested");
    assert_eq!(quote_depth(&editor, 2), 2);
}

#[test]
fn imports_callout_with_multiline_nested_quote_child() {
    let editor = import(
        &[
            "> [!WARNING] Custom title",
            "> body",
            "> > inner one",
            "> >",
            "> > inner two",
            "> after",
        ]
        .join("\n"),
    );
    assert_eq!(editor.document.len(), 4);
    assert_eq!(
        *kind(&editor, 0),
        BlockKind::Callout(CalloutVariant::Warning)
    );
    assert_eq!(*kind(&editor, 1), BlockKind::Paragraph);
    assert_eq!(text(&editor, 1), "body");
    assert_eq!(*kind(&editor, 2), BlockKind::Quote);
    assert_eq!(text(&editor, 2), "inner one\n\ninner two");
    assert_eq!(quote_depth(&editor, 2), 2);
    assert_eq!(*kind(&editor, 3), BlockKind::Paragraph);
    assert_eq!(text(&editor, 3), "after");
    assert_eq!(quote_depth(&editor, 3), 1);
}

#[test]
fn unknown_callout_marker_stays_plain_quote() {
    let editor = import("> [!UNKNOWN]");
    assert_eq!(editor.document.len(), 1);
    assert_eq!(*kind(&editor, 0), BlockKind::Quote);
    assert_eq!(text(&editor, 0), "[!UNKNOWN]");
}

#[test]
fn preserves_separator_between_quote_title_and_nested_child() {
    let editor = import("> outer\n>\n>> inner");
    assert_eq!(editor.document.len(), 3);
    assert_eq!(*kind(&editor, 0), BlockKind::Quote);
    assert_eq!(text(&editor, 0), "outer");
    assert_eq!(*kind(&editor, 1), BlockKind::Paragraph);
    assert_eq!(text(&editor, 1), "");
    assert_eq!(quote_depth(&editor, 1), 1);
    assert_eq!(*kind(&editor, 2), BlockKind::Quote);
    assert_eq!(text(&editor, 2), "inner");
    assert_eq!(quote_depth(&editor, 2), 2);
}

#[test]
fn imports_quote_with_native_table_child() {
    let editor = import("> Quote with table:\n> | A | B |\n> | --- | --- |\n> | 1 | 2 |");
    assert_eq!(editor.document.len(), 2);
    assert_eq!(*kind(&editor, 0), BlockKind::Quote);
    assert_eq!(text(&editor, 0), "Quote with table:");
    assert_eq!(*kind(&editor, 1), BlockKind::Table);
    assert_eq!(quote_depth(&editor, 1), 1);
    let table = editor.document[1].table.as_ref().expect("native nested table");
    assert_eq!(table.header.len(), 2);
    assert_eq!(table.rows.len(), 1);
    assert_eq!(table.rows[0].len(), 2);
}

#[test]
fn invalid_table_inside_quote_preserves_outer_quote_and_raw_child() {
    let editor = import("> Quote with broken table:\n> | A |\n> | --- | --- |\n> | 1 |");
    assert_eq!(editor.document.len(), 2);
    assert_eq!(*kind(&editor, 0), BlockKind::Quote);
    assert_eq!(text(&editor, 0), "Quote with broken table:");
    assert_eq!(*kind(&editor, 1), BlockKind::RawMarkdown);
    assert_eq!(text(&editor, 1), "| A |\n| --- | --- |\n| 1 |");
    assert_eq!(quote_depth(&editor, 1), 1);
}

#[test]
fn a_callout_holds_lists_tables_code_and_footnotes() {
    let editor = import("> [!IMPORTANT]\n> Final mixed block that combines:\n>\n> - **bold**\n> - *italic*\n> - `inline code`\n> - [link](https://example.com)\n> - ![image](https://example.com/image.png)\n> - ~~strike~~\n>\n> And a table:\n>\n> | k | v |\n> | --- | --- |\n> | a | 1 |\n> | b | 2 |\n>\n> And a fenced code block:\n>\n> ```ts\n> export const answer = 42;\n> ```\n>\n> And a footnote reference.[^final]\n>\n> [^final]: Final footnote text with nested list:\n>   - one\n>   - two");
    let all = 0..editor.document.len();
    assert_eq!(
        *kind(&editor, 0),
        BlockKind::Callout(CalloutVariant::Important)
    );
    assert!(all.clone().any(|i| {
        *kind(&editor, i) == BlockKind::BulletedListItem && quote_depth(&editor, i) == 1
    }));
    assert!(all.clone().any(|i| {
        *kind(&editor, i)
            == BlockKind::CodeBlock {
                language: Some("ts".to_string()),
            }
            && text(&editor, i).contains("export const answer = 42;")
    }));
    assert!(all.clone().any(|i| {
        *kind(&editor, i) == BlockKind::Table
            && quote_depth(&editor, i) == 1
            && editor.document[i].table.as_ref().is_some_and(|table| {
                table.header.len() == 2
                    && table.rows.len() == 2
                    && table.header[0].text() == "k"
                    && table.rows[1][1].text() == "2"
            })
    }));
    assert!(all.clone().any(|i| {
        *kind(&editor, i) == BlockKind::Paragraph
            && text(&editor, i).contains("And a table:")
            && quote_depth(&editor, i) == 1
    }));
    let footnote = all
        .clone()
        .find(|&i| *kind(&editor, i) == BlockKind::FootnoteDefinition)
        .expect("footnote");
    assert_eq!(text(&editor, footnote), "final");
    assert_eq!(quote_depth(&editor, footnote), 1);
    assert!(all.clone().any(|i| {
        *kind(&editor, i) == BlockKind::Paragraph
            && text(&editor, i) == "Final footnote text with nested list:"
            && parent(&editor, i) == Some(footnote)
    }));
    assert!(
        all.filter(|&i| {
            i > footnote
                && *kind(&editor, i) == BlockKind::BulletedListItem
                && quote_depth(&editor, i) == 1
        })
        .count()
            >= 2
    );
}

#[test]
fn unsupported_nested_block_preserves_native_list_item_with_raw_child() {
    let editor = import_knowing(
        "- native before\n- raw item\n  <div>\n  inner\n  </div>\n- native after",
        &["<div>\ninner\n</div>"],
    );
    assert_eq!(editor.document.len(), 4);
    assert_eq!(*kind(&editor, 0), BlockKind::BulletedListItem);
    assert_eq!(text(&editor, 0), "native before");
    assert_eq!(*kind(&editor, 1), BlockKind::BulletedListItem);
    assert_eq!(text(&editor, 1), "raw item");
    assert_eq!(*kind(&editor, 2), BlockKind::HtmlBlock);
    assert!(text(&editor, 2).contains("<div>"));
    assert_eq!(*kind(&editor, 3), BlockKind::BulletedListItem);
    assert_eq!(text(&editor, 3), "native after");
}

#[test]
fn imports_task_lists() {
    let editor = import("- [ ] todo\n* [x] done\n+ [X] shipped");
    assert_eq!(editor.document.len(), 3);
    assert_eq!(*kind(&editor, 0), BlockKind::TaskListItem { checked: false });
    assert_eq!(text(&editor, 0), "todo");
    assert_eq!(*kind(&editor, 1), BlockKind::TaskListItem { checked: true });
    assert_eq!(*kind(&editor, 2), BlockKind::TaskListItem { checked: true });
}

#[test]
fn parses_root_level_pipe_table_as_native_table() {
    let editor = import("| A | B |\n| --- | --- |\n| 1 | 2 |");
    assert_eq!(editor.document.len(), 1);
    assert_eq!(*kind(&editor, 0), BlockKind::Table);
    let table = editor.document[0].table.as_ref().expect("native table data");
    assert_eq!(table.header.len(), 2);
    assert_eq!(table.rows.len(), 1);
    assert_eq!(table.rows[0].len(), 2);
}

#[test]
fn broken_root_level_table_degrades_to_plain_text_lines() {
    let editor = import("| A | B |\n| nope | --- |\n| 1 | 2 |");
    assert_eq!(editor.document.len(), 3);
    for (i, line) in ["| A | B |", "| nope | --- |", "| 1 | 2 |"].iter().enumerate() {
        assert_eq!(*kind(&editor, i), BlockKind::Paragraph);
        assert_eq!(text(&editor, i), *line);
    }
}

#[test]
fn imports_display_math_block_as_native_math_block() {
    let markdown = "$$\n\\int_0^1 x^2 dx\n$$";
    let editor = import(markdown);
    assert_eq!(editor.document.len(), 1);
    assert_eq!(*kind(&editor, 0), BlockKind::MathBlock);
    assert_eq!(text(&editor, 0), markdown);
}

#[test]
fn imports_single_line_display_math_between_paragraphs() {
    let editor = import("before\n$$x^2$$\nafter");
    assert_eq!(editor.document.len(), 3);
    assert_eq!(*kind(&editor, 0), BlockKind::Paragraph);
    assert_eq!(*kind(&editor, 1), BlockKind::MathBlock);
    assert_eq!(text(&editor, 1), "$$x^2$$");
    assert_eq!(*kind(&editor, 2), BlockKind::Paragraph);
}

#[test]
fn unclosed_display_math_stays_raw() {
    let editor = import("$$\n\\int_0^1 x^2 dx");
    assert_eq!(editor.document.len(), 1);
    assert_eq!(*kind(&editor, 0), BlockKind::RawMarkdown);
}

#[test]
fn imports_mermaid_fence_as_native_mermaid_block() {
    let editor = import("before\n```mermaid\nflowchart LR\nA --> B\n```\nafter");
    assert_eq!(editor.document.len(), 3);
    assert_eq!(*kind(&editor, 0), BlockKind::Paragraph);
    assert_eq!(*kind(&editor, 1), BlockKind::MermaidBlock);
    assert_eq!(text(&editor, 1), "```mermaid\nflowchart LR\nA --> B\n```");
    assert_eq!(*kind(&editor, 2), BlockKind::Paragraph);
}

#[test]
fn imports_tilde_mmd_fence_as_native_mermaid_block() {
    let editor = import("~~~MMD\nflowchart LR\nA --> B\n~~~");
    assert_eq!(editor.document.len(), 1);
    assert_eq!(*kind(&editor, 0), BlockKind::MermaidBlock);
}

#[test]
fn regular_fenced_code_is_not_mermaid() {
    let editor = import("```rust\nfn main() {}\n```");
    assert_eq!(editor.document.len(), 1);
    assert!(matches!(kind(&editor, 0), BlockKind::CodeBlock { .. }));
}

#[test]
fn imports_details_html_block_with_blank_lines_as_native_html_block() {
    let markdown = "<details>\n<summary>Title</summary>\n\nHidden content with `code`.\n\n</details>";
    let editor = import_knowing(markdown, &[markdown]);
    assert_eq!(editor.document.len(), 1);
    assert_eq!(*kind(&editor, 0), BlockKind::HtmlBlock);
    assert_eq!(text(&editor, 0), markdown);
}

#[test]
fn imports_safe_inline_html_line_as_native_html_block() {
    let markdown = "<span style='color:blue;'>Anaconda</span>: https://example.com";
    let editor = import_knowing(markdown, &[markdown]);
    assert_eq!(editor.document.len(), 1);
    assert_eq!(*kind(&editor, 0), BlockKind::HtmlBlock);
    assert_eq!(text(&editor, 0), markdown);
}

#[test]
fn imports_standalone_html_image_as_native_html_block() {
    let markdown = "<img src=\"./assets/pic.png\" alt=\"alt text\" style=\"zoom:80%;\" />";
    let editor = import_knowing(markdown, &[markdown]);
    assert_eq!(editor.document.len(), 1);
    assert_eq!(*kind(&editor, 0), BlockKind::HtmlBlock);
    assert_eq!(text(&editor, 0), markdown);
}

#[test]
fn inline_images_leave_blocks_what_they_are() {
    let editor = import(
        &[
            "# <img alt=\"Smithy\" src=\"https://example.com/anvil.svg\" width=\"32\"> [Smithy Plugin](https://example.com/p)",
            "",
            "Body with an <img src=\"./icon.png\" width=\"16\"> inline icon.",
            "",
            "- item with <img src=\"./icon.png\" width=\"16\"> an icon",
        ]
        .join("\n"),
    );
    assert_eq!(editor.document.len(), 3);
    assert_eq!(*kind(&editor, 0), BlockKind::Heading { level: 1 });
    assert_eq!(*kind(&editor, 1), BlockKind::Paragraph);
    assert_eq!(*kind(&editor, 2), BlockKind::BulletedListItem);
}

#[test]
fn a_row_of_images_is_one_paragraph() {
    let markdown = "![JetBrains Plugins](https://img.shields.io/jetbrains/plugin/v/18717-smithy?style=for-the-badge) ![Downloads](https://img.shields.io/jetbrains/plugin/d/18717-smithy?style=for-the-badge) ![License](https://img.shields.io/github/license/iancaffey/smithy-intellij-plugin?style=for-the-badge)";
    let editor = import(markdown);
    assert_eq!(editor.document.len(), 1);
    assert_eq!(*kind(&editor, 0), BlockKind::Paragraph);
    assert_eq!(text(&editor, 0), markdown);
}

#[test]
fn list_items_with_inline_spans_stay_list_items() {
    let editor = import(
        &[
            "- Anaconda的安装需要留意<span style='color:blue;'>磁盘预留空间、系统环境变量</span>等问题",
            "- Pycharm的安装需要留意<span style='color:blue;'>专业版破解、python解释器关联</span>等问题",
            "- GPU版本的 Pytorch v1.5.0安装需要留意本机<span style='color:blue;'>英伟达驱动`CUDA+cuDNN`</span>",
        ]
        .join("\n"),
    );
    assert_eq!(editor.document.len(), 3);
    for i in 0..3 {
        assert_eq!(*kind(&editor, i), BlockKind::BulletedListItem);
    }
}

#[test]
fn risky_html_tag_stays_raw_markdown() {
    let markdown = "<script>alert(1)</script>";
    let editor = import(markdown);
    assert_eq!(editor.document.len(), 1);
    assert_eq!(*kind(&editor, 0), BlockKind::RawMarkdown);
    assert_eq!(text(&editor, 0), markdown);
}

#[test]
fn safe_html_with_risky_child_uses_html_block_and_preserves_source() {
    let markdown = "<div>safe<script>alert(1)</script>tail</div>";
    let editor = import_knowing(markdown, &[markdown]);
    assert_eq!(editor.document.len(), 1);
    assert_eq!(*kind(&editor, 0), BlockKind::HtmlBlock);
    assert_eq!(text(&editor, 0), markdown);
}

#[test]
fn imports_closed_html_comment_as_native_comment_block() {
    let markdown = "<!--\n xxx \n-->";
    let editor = import(markdown);
    assert_eq!(editor.document.len(), 1);
    assert_eq!(*kind(&editor, 0), BlockKind::Comment);
    assert_eq!(text(&editor, 0), markdown);
}

#[test]
fn html_comment_closes_at_first_marker_and_resumes_block_parsing() {
    let editor = import("before\n<!--\na\n--> trailing\n# after");
    assert_eq!(editor.document.len(), 3);
    assert_eq!(*kind(&editor, 0), BlockKind::Paragraph);
    assert_eq!(*kind(&editor, 1), BlockKind::Comment);
    assert_eq!(text(&editor, 1), "<!--\na\n--> trailing");
    assert_eq!(*kind(&editor, 2), BlockKind::Heading { level: 1 });
    assert_eq!(text(&editor, 2), "after");
}

#[test]
fn unclosed_html_comment_stays_raw_and_does_not_absorb_following_paragraph() {
    let editor = import("<!--\na\n\nparagraph");
    assert_eq!(editor.document.len(), 2);
    assert_eq!(*kind(&editor, 0), BlockKind::RawMarkdown);
    assert_eq!(text(&editor, 0), "<!--\na");
    assert_eq!(*kind(&editor, 1), BlockKind::Paragraph);
    assert_eq!(text(&editor, 1), "paragraph");
}

#[test]
fn imports_comment_blocks_inside_list_quote_and_callout() {
    let list = import("- item\n  <!--\n  list\n  -->");
    assert_eq!(list.document.len(), 2);
    assert_eq!(*kind(&list, 0), BlockKind::BulletedListItem);
    assert_eq!(*kind(&list, 1), BlockKind::Comment);
    assert_eq!(text(&list, 1), "<!--\nlist\n-->");
    assert_eq!(depth(&list, 1), 1);

    let quote = import("> quote\n>\n> <!--\n> quoted\n> -->");
    assert_eq!(quote.document.len(), 3);
    assert_eq!(*kind(&quote, 0), BlockKind::Quote);
    assert_eq!(*kind(&quote, 2), BlockKind::Comment);
    assert_eq!(text(&quote, 2), "<!--\nquoted\n-->");
    assert_eq!(quote_depth(&quote, 2), 1);

    let callout = import("> [!NOTE] Title\n>\n> <!--\n> callout\n> -->");
    assert_eq!(callout.document.len(), 3);
    assert_eq!(*kind(&callout, 0), BlockKind::Callout(CalloutVariant::Note));
    assert_eq!(*kind(&callout, 2), BlockKind::Comment);
    assert_eq!(text(&callout, 2), "<!--\ncallout\n-->");
    assert_eq!(parent(&callout, 2), Some(0));
}

#[test]
fn a_footnote_definition_holds_its_blocks() {
    let editor = import(
        "[^note]: Footnote text with **bold**\n    - item 1\n    - item 2\n\n    Second paragraph.",
    );
    assert_eq!(editor.document.len(), 5);
    assert_eq!(*kind(&editor, 0), BlockKind::FootnoteDefinition);
    assert_eq!(text(&editor, 0), "note");
    assert_eq!(*kind(&editor, 1), BlockKind::Paragraph);
    assert_eq!(text(&editor, 1), "Footnote text with **bold**");
    assert_eq!(*kind(&editor, 2), BlockKind::BulletedListItem);
    assert_eq!(text(&editor, 2), "item 1");
    assert_eq!(*kind(&editor, 3), BlockKind::BulletedListItem);
    assert_eq!(text(&editor, 3), "item 2");
    assert_eq!(*kind(&editor, 4), BlockKind::Paragraph);
    assert_eq!(text(&editor, 4), "Second paragraph.");
}

#[test]
fn nested_quote_footnote_definition_upgrades_to_native_block() {
    let editor = import("> outer\n>\n> [^note]: nested footnote");
    assert_eq!(editor.document.len(), 4);
    assert_eq!(*kind(&editor, 0), BlockKind::Quote);
    assert_eq!(text(&editor, 0), "outer");
    assert_eq!(*kind(&editor, 1), BlockKind::Paragraph);
    assert_eq!(text(&editor, 1), "");
    assert_eq!(quote_depth(&editor, 1), 1);
    assert_eq!(*kind(&editor, 2), BlockKind::FootnoteDefinition);
    assert_eq!(text(&editor, 2), "note");
    assert_eq!(quote_depth(&editor, 2), 1);
    assert_eq!(*kind(&editor, 3), BlockKind::Paragraph);
    assert_eq!(text(&editor, 3), "nested footnote");
    assert_eq!(quote_depth(&editor, 3), 1);
    assert_eq!(parent(&editor, 3), Some(2));
}

#[test]
fn list_followed_by_blank_line_and_root_paragraph_stays_separate() {
    let editor = import("- item\n\ntext");
    assert_eq!(editor.document.len(), 2);
    assert_eq!(*kind(&editor, 0), BlockKind::BulletedListItem);
    assert_eq!(text(&editor, 0), "item");
    assert_eq!(*kind(&editor, 1), BlockKind::Paragraph);
    assert_eq!(text(&editor, 1), "text");
    assert_eq!(depth(&editor, 1), 0);
}

#[test]
fn list_empty_root_and_following_paragraph_stay_outside_list() {
    let editor = import("- item\n\n\ntext");
    assert_eq!(editor.document.len(), 3);
    assert_eq!(*kind(&editor, 0), BlockKind::BulletedListItem);
    assert_eq!(*kind(&editor, 1), BlockKind::Paragraph);
    assert_eq!(text(&editor, 1), "");
    assert_eq!(depth(&editor, 1), 0);
    assert_eq!(*kind(&editor, 2), BlockKind::Paragraph);
    assert_eq!(text(&editor, 2), "text");
    assert_eq!(depth(&editor, 2), 0);
}

#[test]
fn blank_line_then_indented_text_upgrades_to_native_list_child_paragraph() {
    let editor = import("- item\n\n    child text");
    assert_eq!(editor.document.len(), 2);
    assert_eq!(*kind(&editor, 0), BlockKind::BulletedListItem);
    assert_eq!(text(&editor, 0), "item");
    assert_eq!(*kind(&editor, 1), BlockKind::Paragraph);
    assert_eq!(text(&editor, 1), "child text");
    assert_eq!(depth(&editor, 1), 1);
}

#[test]
fn preserves_reference_definitions_and_stops_quote_at_first_non_quoted_line() {
    let reference = import("[id]: http://example.com/\n    \"Title\"");
    assert_eq!(reference.document.len(), 1);
    assert_eq!(*kind(&reference, 0), BlockKind::RawMarkdown);
    assert_eq!(
        text(&reference, 0),
        "[id]: http://example.com/\n    \"Title\""
    );

    let quote = import("> quoted\ncontinued");
    assert_eq!(quote.document.len(), 2);
    assert_eq!(*kind(&quote, 0), BlockKind::Quote);
    assert_eq!(text(&quote, 0), "quoted");
    assert_eq!(*kind(&quote, 1), BlockKind::Paragraph);
    assert_eq!(text(&quote, 1), "continued");
}

#[test]
fn simple_quote_does_not_consume_following_root_blocks() {
    let editor = import("> quoted line\n> second line\n\n---\n\n## Next");
    assert_eq!(editor.document.len(), 3);
    assert_eq!(*kind(&editor, 0), BlockKind::Quote);
    assert_eq!(text(&editor, 0), "quoted line\nsecond line");
    assert_eq!(*kind(&editor, 1), BlockKind::Separator);
    assert_eq!(*kind(&editor, 2), BlockKind::Heading { level: 2 });
    assert_eq!(text(&editor, 2), "Next");
}

#[test]
fn non_quoted_line_after_quote_becomes_plain_paragraph_before_heading() {
    let editor = import("> quoted\ncontinued\n\n## Next");
    assert_eq!(editor.document.len(), 3);
    assert_eq!(*kind(&editor, 0), BlockKind::Quote);
    assert_eq!(text(&editor, 0), "quoted");
    assert_eq!(*kind(&editor, 1), BlockKind::Paragraph);
    assert_eq!(text(&editor, 1), "continued");
    assert_eq!(*kind(&editor, 2), BlockKind::Heading { level: 2 });
    assert_eq!(text(&editor, 2), "Next");
}

#[test]
fn blank_lines_make_empty_blocks() {
    let texts = |markdown: &str| -> Vec<String> {
        let editor = import(markdown);
        (0..editor.document.len()).map(|i| text(&editor, i)).collect()
    };
    assert_eq!(texts("alpha\n\n\nbeta\n\n"), vec!["alpha", "", "beta", ""]);
    assert_eq!(texts("\n\nalpha"), vec!["", "", "alpha"]);
    assert_eq!(texts("alpha\n\n\n"), vec!["alpha", "", ""]);
    assert_eq!(texts("alpha\n"), vec!["alpha"]);
    assert_eq!(texts(""), vec![""]);
    assert_eq!(texts("\n\n"), vec!["", "", ""]);
}

#[test]
fn a_blank_line_inside_inline_code_does_not_end_a_paragraph() {
    let editor = import("`line 1\n\nline 2`");
    assert_eq!(editor.document.len(), 1);
    assert_eq!(*kind(&editor, 0), BlockKind::Paragraph);
    assert_eq!(text(&editor, 0), "`line 1\n\nline 2`");
}

#[test]
fn unclosed_inline_code_does_not_absorb_blank_line_paragraph() {
    let editor = import("`line 1\n\nline 2");
    assert_eq!(editor.document.len(), 2);
    assert_eq!(*kind(&editor, 0), BlockKind::Paragraph);
    assert_eq!(text(&editor, 0), "`line 1");
    assert_eq!(*kind(&editor, 1), BlockKind::Paragraph);
    assert_eq!(text(&editor, 1), "line 2");
}

#[test]
fn ids_are_distinct_and_below_the_next_one() {
    let editor = import("- a\n  - b\n\n| A | B |\n| - | - |\n| 1 | 2 |\n\nend");
    let mut ids: Vec<u64> = editor.document.iter().map(|block| block.id).collect();
    for block in &editor.document {
        if let Some(runtime) = &block.runtime {
            ids.extend(runtime.header.iter().map(|cell| cell.id));
            ids.extend(runtime.rows.iter().flatten().map(|cell| cell.id));
        }
    }
    assert!(ids.iter().all(|&id| id < editor.next_id));
    ids.sort();
    let n = ids.len();
    ids.dedup();
    assert_eq!(ids.len(), n);
}
