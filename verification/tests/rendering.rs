//! Rows, gaps, the menu bar and fonts.

use uuid::Uuid;
use velotype::blocks::CalloutVariant;
use velotype::menu_bar::{
    editor_text_font, import_menu_split_index, in_window_menu_bar_height_for_target_os,
    is_wide_menu_char, menu_item_enabled, menu_label_chars, open_menu_panel,
    owned_menu_item_labels, supports_in_window_menu_for_target_os,
    tibetan_font_fallbacks_for_target_os, visible_import_items, LabelChar, Menu, MenuAction,
    MenuItem, MenuPanel,
};
use velotype::rows::{
    callout_parts, callout_row_top_gap, find_row, footnote_row_top_gap, group_rows, info_before,
    measured_rows, mount_rows, rendered_row_top_gap, CalloutGaps, ColumnChild, MountedRun,
    RenderedRowSpacingInfo, RowShape, RowSpan, SpacersShown,
};

fn anchor() -> u128 {
    Uuid::new_v4().as_u128()
}

fn in_quote(group: Option<u128>) -> RenderedRowSpacingInfo {
    RenderedRowSpacingInfo {
        quote_group_anchor: group,
        ..RenderedRowSpacingInfo::default()
    }
}

fn gaps() -> CalloutGaps<f32> {
    CalloutGaps {
        callout_header_margin_bottom: 6.0,
        callout_body_gap: 2.5,
    }
}

fn action(name: &str, action: MenuAction) -> MenuItem {
    MenuItem::Action {
        name: name.to_string(),
        action,
    }
}

fn row(start: usize, end: usize, shape: RowShape) -> RowSpan {
    RowSpan { start, end, shape }
}

#[test]
fn contiguous_quote_rows_collapse_inter_row_gap() {
    let group = anchor();
    let gap = rendered_row_top_gap(Some(in_quote(Some(group))), in_quote(Some(group)), 4.0, 0.0);
    assert_eq!(gap, 0.0);
}

#[test]
fn editor_text_font_keeps_system_ui_as_primary_family() {
    for target_os in ["windows", "macos", "linux"] {
        assert_eq!(editor_text_font(target_os).family, ".SystemUIFont");
        assert_eq!(
            editor_text_font(target_os).fallbacks,
            tibetan_font_fallbacks_for_target_os(target_os)
        );
    }
}

#[test]
fn tibetan_font_fallbacks_prioritize_platform_defaults() {
    assert_eq!(
        tibetan_font_fallbacks_for_target_os("windows")
            .first()
            .map(String::as_str),
        Some("Microsoft Himalaya")
    );
    assert_eq!(
        tibetan_font_fallbacks_for_target_os("macos")
            .first()
            .map(String::as_str),
        Some("Kailasa")
    );
    assert_eq!(
        tibetan_font_fallbacks_for_target_os("linux")
            .first()
            .map(String::as_str),
        Some("Noto Serif Tibetan")
    );
    assert_eq!(
        tibetan_font_fallbacks_for_target_os("unknown")
            .first()
            .map(String::as_str),
        Some("Noto Serif Tibetan")
    );
}

#[test]
fn nested_quote_separator_row_keeps_outer_group_gap_collapsed() {
    let group = anchor();
    let gap = rendered_row_top_gap(Some(in_quote(Some(group))), in_quote(Some(group)), 4.0, 0.0);
    assert_eq!(gap, 0.0);
}

#[test]
fn distinct_quote_groups_keep_default_gap() {
    let gap = rendered_row_top_gap(
        Some(in_quote(Some(anchor()))),
        in_quote(Some(anchor())),
        4.0,
        0.0,
    );
    assert_eq!(gap, 4.0);
}

#[test]
fn non_quote_rows_keep_default_gap() {
    let gap = rendered_row_top_gap(Some(in_quote(None)), in_quote(Some(anchor())), 4.0, 0.0);
    assert_eq!(gap, 4.0);
}

#[test]
fn the_first_row_has_no_gap() {
    assert_eq!(rendered_row_top_gap(None, in_quote(None), 4.0, 0.0), 0.0);
    assert_eq!(
        callout_row_top_gap(None, RenderedRowSpacingInfo::default(), gaps(), 0.0),
        0.0
    );
    assert_eq!(footnote_row_top_gap(None, 1.0, 4.0, 0.0), 0.0);
}

#[test]
fn callout_inner_spacing_uses_header_and_body_tokens() {
    let header_gap = callout_row_top_gap(
        Some(RenderedRowSpacingInfo {
            is_callout_header: true,
            ..RenderedRowSpacingInfo::default()
        }),
        RenderedRowSpacingInfo::default(),
        gaps(),
        0.0,
    );
    let body_gap = callout_row_top_gap(
        Some(RenderedRowSpacingInfo {
            is_callout_header: false,
            ..RenderedRowSpacingInfo::default()
        }),
        RenderedRowSpacingInfo::default(),
        gaps(),
        0.0,
    );
    assert_eq!(header_gap, gaps().callout_header_margin_bottom);
    assert_eq!(body_gap, gaps().callout_body_gap);
}

#[test]
fn nested_quote_rows_inside_callout_collapse_body_gap() {
    let group = anchor();
    let gap = callout_row_top_gap(
        Some(RenderedRowSpacingInfo {
            is_callout_header: false,
            visible_quote_group_anchor: Some(group),
            ..RenderedRowSpacingInfo::default()
        }),
        RenderedRowSpacingInfo {
            visible_quote_group_anchor: Some(group),
            ..RenderedRowSpacingInfo::default()
        },
        gaps(),
        0.0,
    );
    assert_eq!(gap, 0.0);
}

#[test]
fn footnote_rows_lie_below_their_header() {
    let header = RenderedRowSpacingInfo {
        is_footnote_header: true,
        ..RenderedRowSpacingInfo::default()
    };
    assert_eq!(footnote_row_top_gap(Some(header), 1.0, 4.0, 0.0), 1.0);
    assert_eq!(
        footnote_row_top_gap(Some(RenderedRowSpacingInfo::default()), 1.0, 4.0, 0.0),
        4.0
    );
}

#[test]
fn in_window_menu_is_enabled_for_every_target_except_macos() {
    for target_os in [
        "windows",
        "linux",
        "freebsd",
        "openbsd",
        "netbsd",
        "dragonfly",
        "solaris",
        "illumos",
        "android",
        "unknown",
    ] {
        assert!(
            supports_in_window_menu_for_target_os(target_os),
            "{target_os} should use the in-window fallback menu"
        );
    }
    assert!(!supports_in_window_menu_for_target_os("macos"));
}

#[test]
fn in_window_menu_height_depends_on_platform_and_menu_presence() {
    let menu_bar_height: f32 = 32.0;
    assert_eq!(
        in_window_menu_bar_height_for_target_os("linux", true, menu_bar_height, 0.0),
        menu_bar_height
    );
    assert_eq!(
        in_window_menu_bar_height_for_target_os("windows", true, menu_bar_height, 0.0),
        menu_bar_height
    );
    assert_eq!(
        in_window_menu_bar_height_for_target_os("linux", false, menu_bar_height, 0.0),
        0.0
    );
    assert_eq!(
        in_window_menu_bar_height_for_target_os("macos", true, menu_bar_height, 0.0),
        0.0
    );
}

#[test]
fn import_menu_split_detects_theme_and_language_import_tails() {
    let theme_items = vec![
        action("Velotype", MenuAction::NoRecentFiles),
        MenuItem::Separator,
        action("Add Theme Config", MenuAction::AddThemeConfig),
    ];
    let language_items = vec![
        action("English", MenuAction::NoRecentFiles),
        MenuItem::Separator,
        action("Add Language Config", MenuAction::AddLanguageConfig),
    ];
    let regular_items = vec![
        action("Open", MenuAction::NoRecentFiles),
        MenuItem::Separator,
        action("Save", MenuAction::NoRecentFiles),
    ];
    let malformed_import_items = vec![
        action("Velotype", MenuAction::NoRecentFiles),
        action("Add Theme Config", MenuAction::AddThemeConfig),
    ];

    assert_eq!(import_menu_split_index(&theme_items), Some(1));
    assert_eq!(import_menu_split_index(&language_items), Some(1));
    assert_eq!(import_menu_split_index(&regular_items), None);
    assert_eq!(import_menu_split_index(&malformed_import_items), None);
}

#[test]
fn a_long_menu_shows_twelve_items_at_once() {
    assert_eq!(visible_import_items(20), 12);
    assert_eq!(visible_import_items(12), 12);
    assert_eq!(visible_import_items(3), 3);
}

#[test]
fn labels_leave_separators_out() {
    let items = vec![
        MenuItem::Separator,
        MenuItem::Submenu {
            name: "Recent".to_string(),
            items: vec![action("notes.md", MenuAction::Other)],
        },
        MenuItem::SystemMenu {
            name: "Services".to_string(),
        },
        action("Save", MenuAction::Other),
    ];
    assert_eq!(owned_menu_item_labels(&items), ["Recent", "Services", "Save"]);
}

#[test]
fn only_actions_that_do_something_can_be_chosen() {
    assert!(menu_item_enabled(&action("Save", MenuAction::Other)));
    assert!(!menu_item_enabled(&action(
        "No recent files",
        MenuAction::NoRecentFiles
    )));
    assert!(!menu_item_enabled(&MenuItem::Separator));
}

#[test]
fn the_open_menu_shows_its_submenu_only_where_there_is_one() {
    let menus = vec![Menu {
        name: "File".to_string(),
        items: vec![
            action("Open", MenuAction::Other),
            MenuItem::Submenu {
                name: "Recent".to_string(),
                items: vec![],
            },
        ],
    }];
    assert_eq!(open_menu_panel(&menus, None, None), None);
    assert_eq!(open_menu_panel(&menus, Some(1), None), None);
    assert_eq!(
        open_menu_panel(&menus, Some(0), Some(1)),
        Some(MenuPanel {
            menu: 0,
            split: None,
            submenu: Some(1)
        })
    );
    assert_eq!(
        open_menu_panel(&menus, Some(0), Some(0)),
        Some(MenuPanel {
            menu: 0,
            split: None,
            submenu: None
        })
    );
}

#[test]
fn labels_are_measured_by_the_kind_of_their_characters() {
    assert_eq!(
        menu_label_chars("a 文."),
        [
            LabelChar::Ascii,
            LabelChar::Space,
            LabelChar::Wide,
            LabelChar::Punctuation
        ]
    );
    assert!(is_wide_menu_char('文'));
    assert!(!is_wide_menu_char('é'));
}

fn callout(group: u128, header: bool) -> RenderedRowSpacingInfo {
    RenderedRowSpacingInfo {
        callout_anchor: Some(group),
        callout_variant: Some(CalloutVariant::Note),
        is_callout_header: header,
        ..RenderedRowSpacingInfo::default()
    }
}

fn footnote(group: u128, header: bool, callout: Option<u128>) -> RenderedRowSpacingInfo {
    RenderedRowSpacingInfo {
        callout_anchor: callout,
        callout_variant: callout.map(|_| CalloutVariant::Note),
        footnote_anchor: Some(group),
        is_footnote_header: header,
        ..RenderedRowSpacingInfo::default()
    }
}

#[test]
fn callouts_and_footnotes_make_up_one_row_each() {
    let plain = RenderedRowSpacingInfo::default();
    let infos = [
        plain,
        callout(1, true),
        callout(1, false),
        footnote(2, true, None),
        footnote(2, false, None),
        plain,
    ];
    assert_eq!(
        group_rows(&infos),
        [
            row(0, 1, RowShape::Plain),
            row(1, 3, RowShape::Callout),
            row(3, 5, RowShape::Footnote),
            row(5, 6, RowShape::Plain),
        ]
    );
    assert_eq!(group_rows(&[]), []);
}

#[test]
fn a_callout_holds_the_footnotes_in_it() {
    let infos = [
        callout(1, true),
        footnote(2, true, Some(1)),
        footnote(2, false, Some(1)),
        callout(1, false),
    ];
    assert_eq!(group_rows(&infos), [row(0, 4, RowShape::Callout)]);
    assert_eq!(
        callout_parts(&infos, row(0, 4, RowShape::Callout)),
        [
            row(0, 1, RowShape::Plain),
            row(1, 3, RowShape::Footnote),
            row(3, 4, RowShape::Plain),
        ]
    );
}

#[test]
fn a_block_is_found_in_its_row() {
    let rows = [
        row(0, 1, RowShape::Plain),
        row(1, 3, RowShape::Callout),
        row(3, 4, RowShape::Plain),
    ];
    assert_eq!(find_row(&rows, 0), 0);
    assert_eq!(find_row(&rows, 1), 1);
    assert_eq!(find_row(&rows, 2), 1);
    assert_eq!(find_row(&rows, 3), 2);
}

#[test]
fn the_focused_row_is_mounted_outside_the_run() {
    let shown = SpacersShown {
        lead: true,
        top: true,
        bottom: true,
    };
    let (children, base) = mount_rows(4, 6, Some(1), shown);
    assert_eq!(
        children,
        [
            ColumnChild::LeadSpacer,
            ColumnChild::Row(1),
            ColumnChild::TopSpacer,
            ColumnChild::Row(4),
            ColumnChild::Row(5),
            ColumnChild::BottomSpacer,
        ]
    );
    assert_eq!(base, 3);
}

#[test]
fn rows_behind_the_run_follow_it() {
    let shown = SpacersShown {
        lead: true,
        top: false,
        bottom: false,
    };
    let (children, base) = mount_rows(0, 2, Some(7), shown);
    assert_eq!(
        children,
        [
            ColumnChild::Row(0),
            ColumnChild::Row(1),
            ColumnChild::LeadSpacer,
            ColumnChild::Row(7),
        ]
    );
    assert_eq!(base, 0);
}

#[test]
fn the_last_row_of_a_run_is_not_measured() {
    let run = MountedRun {
        row_start: 4,
        row_end: 7,
        child_base: 3,
        child_count: 6,
    };
    assert_eq!(measured_rows(run, 10), [(4, 3), (5, 4)]);
    assert_eq!(measured_rows(run, 5), []);
}

#[test]
fn a_gap_depends_on_the_block_before_in_the_group() {
    let infos = [callout(1, true), callout(1, false), callout(1, false)];
    assert_eq!(info_before(&infos, 0, 0), None);
    assert_eq!(info_before(&infos, 0, 2), Some(infos[1]));
    assert_eq!(info_before(&infos, 1, 1), None);
}
