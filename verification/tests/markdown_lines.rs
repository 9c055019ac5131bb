//! Line-level Markdown: fences, indentation, list markers, quotes and regions.

use velotype::blocks::BlockKind;
use velotype::grammar::{
    is_closing_fence, parse_list_marker, parse_opening_fence, strip_indented_code_prefix,
    strip_one_quote_level,
};
use velotype::markup::is_reference_definition_start;
use velotype::regions::{collect_block_html_region, find_matching_closing_fence};

#[test]
fn closing_fence_must_match_exact_opening_run_length() {
    let opener = parse_opening_fence("````rust").expect("opening fence");

    assert!(is_closing_fence("````", &opener));
    assert!(is_closing_fence("  ````   ", &opener));
    assert!(!is_closing_fence("```", &opener));
    assert!(!is_closing_fence("`````", &opener));
}

#[test]
fn fence_detection_rejects_indent_beyond_three_spaces() {
    assert!(parse_opening_fence("    ```rust").is_none());

    let opener = parse_opening_fence("```rust").expect("opening fence");
    assert!(!is_closing_fence("    ```", &opener));
}

#[test]
fn unmatched_opening_fence_does_not_form_code_block() {
    let lines = vec![
        "```rust".to_string(),
        "fn main() {}".to_string(),
        "plain tail".to_string(),
    ];
    let opener = parse_opening_fence(&lines[0]).expect("opening fence");
    assert_eq!(find_matching_closing_fence(&lines, 0, &opener), None);
}

#[test]
fn matching_closing_fence_can_skip_inner_non_closing_backtick_runs() {
    let lines = vec![
        "```rust".to_string(),
        "````".to_string(),
        "body".to_string(),
        "```".to_string(),
    ];
    let opener = parse_opening_fence(&lines[0]).expect("opening fence");
    assert_eq!(find_matching_closing_fence(&lines, 0, &opener), Some(3));
}

#[test]
fn fence_closes_at_first_match_even_before_a_later_opener() {
    // The first closing fence ends the block; later fences belong to
    // whatever follows, not to this block.
    let lines = vec![
        "```rust".to_string(),
        "```".to_string(),
        "body".to_string(),
        "```".to_string(),
        "```ts".to_string(),
    ];
    let opener = parse_opening_fence(&lines[0]).expect("opening fence");
    assert_eq!(find_matching_closing_fence(&lines, 0, &opener), Some(1));
}

#[test]
fn empty_language_fence_closes_at_first_match() {
    // Adjacent empty-language blocks must stay separate rather than the
    // first absorbing the second's fences as body content.
    let lines = vec![
        "```".to_string(),
        "first".to_string(),
        "```".to_string(),
        "```".to_string(),
        "second".to_string(),
        "```".to_string(),
    ];
    let opener = parse_opening_fence(&lines[0]).expect("opening fence");
    assert_eq!(find_matching_closing_fence(&lines, 0, &opener), Some(2));
}

#[test]
fn info_tagged_fence_does_not_absorb_following_empty_blocks() {
    // An info-string opener must still close at its own fence instead of
    // swallowing later empty-language blocks.
    let lines = vec![
        "```bash".to_string(),
        "git clone url".to_string(),
        "```".to_string(),
        "```".to_string(),
        "cargo build".to_string(),
        "```".to_string(),
    ];
    let opener = parse_opening_fence(&lines[0]).expect("opening fence");
    assert_eq!(find_matching_closing_fence(&lines, 0, &opener), Some(2));
}

#[test]
fn next_opening_without_prior_closing_leaves_fence_unmatched() {
    let lines = vec![
        "```rust".to_string(),
        "body".to_string(),
        "```ts".to_string(),
        "```".to_string(),
    ];
    let opener = parse_opening_fence(&lines[0]).expect("opening fence");
    assert_eq!(find_matching_closing_fence(&lines, 0, &opener), None);
}

#[test]
fn parses_indented_code_blocks() {
    assert_eq!(strip_indented_code_prefix("    code"), Some("code"));
    assert_eq!(strip_indented_code_prefix("\tcode"), Some("code"));
    assert_eq!(strip_indented_code_prefix("  code"), None);
}

#[test]
fn parses_original_unordered_list_markers() {
    assert_eq!(
        parse_list_marker("- item").unwrap().kind,
        BlockKind::BulletedListItem
    );
    assert_eq!(
        parse_list_marker("* item").unwrap().kind,
        BlockKind::BulletedListItem
    );
    assert_eq!(
        parse_list_marker("+ item").unwrap().kind,
        BlockKind::BulletedListItem
    );
    assert_eq!(
        parse_list_marker("- [ ] item").unwrap().kind,
        BlockKind::TaskListItem { checked: false }
    );
    assert_eq!(
        parse_list_marker("* [x] item").unwrap().kind,
        BlockKind::TaskListItem { checked: true }
    );
    assert_eq!(
        parse_list_marker("+ [X] item").unwrap().kind,
        BlockKind::TaskListItem { checked: true }
    );
}

#[test]
fn parses_commonmark_ordered_list_markers() {
    let dot = parse_list_marker("1. item").expect("dot marker");
    assert_eq!(dot.kind, BlockKind::NumberedListItem);
    assert_eq!(dot.text, "item");
    assert_eq!(dot.content_indent_columns, 3);

    let paren = parse_list_marker("12) item").expect("paren marker");
    assert_eq!(paren.kind, BlockKind::NumberedListItem);
    assert_eq!(paren.text, "item");
    assert_eq!(paren.content_indent_columns, 4);

    let tab = parse_list_marker("1)\titem").expect("tab separator");
    assert_eq!(tab.kind, BlockKind::NumberedListItem);
    assert_eq!(tab.text, "item");
    assert_eq!(tab.content_indent_columns, 4);

    assert!(parse_list_marker("1)item").is_none());
    assert!(parse_list_marker("1234567890) item").is_none());
}

#[test]
fn strips_one_quote_level_per_line() {
    assert_eq!(strip_one_quote_level("> quote"), Some("quote".to_string()));
    assert_eq!(
        strip_one_quote_level("   > quote"),
        Some("quote".to_string())
    );
    assert_eq!(
        strip_one_quote_level(">> nested"),
        Some("> nested".to_string())
    );
}

#[test]
fn recognizes_reference_definition_lines() {
    assert!(is_reference_definition_start("[id]: http://example.com"));
    assert!(is_reference_definition_start(
        "   [id]: <http://example.com/>"
    ));
    assert!(!is_reference_definition_start("[id] http://example.com"));
}

#[test]
fn block_html_region_runs_until_blank_line() {
    let lines = vec![
        "<table>".to_string(),
        "<tr><td>x</td></tr>".to_string(),
        "</table>".to_string(),
        "".to_string(),
        "tail".to_string(),
    ];
    assert_eq!(collect_block_html_region(&lines, 0), 3);
}
