//! Tables: their cells, rows and columns, and the menus over them.

use velotype::blocks::{BlockKind, InlineTextTree, TableColumnAlignment, TableData};
use velotype::editor::{
    ContextMenuState, Editor, ScreenPoint, TableAxisHighlight, TableAxisKind, TableAxisMarker,
    TableAxisSelection, TableCellPosition, TableInsertTarget,
};
use velotype::events::BlockEvent;
use velotype::history::{DocumentFacts, GoneBlock};
use velotype::menus::{AxisAction, AxisMenuItem, EntryAction};
use velotype::targets::find_binding;

const TABLE: &str = "| A | B |\n| --- | :-: |\n| 1 | 2 |\n| 3 | 4 |";

fn import(markdown: &str) -> Editor {
    let mut editor = Editor::new(100, 500);
    editor.load_source(markdown, &[]);
    editor
}

fn facts(source: &str) -> DocumentFacts {
    DocumentFacts {
        source: source.to_string(),
        content_fingerprint: 0,
        cross_block: None,
        cross_block_restored: false,
        first_root: None,
        target: None,
        content_start: 0,
        content_end: 0,
        mappings: vec![],
        first_focusable: None,
        gone: vec![],
    }
}

fn grid(editor: &Editor, i: usize) -> Vec<Vec<String>> {
    let table = editor.document[i].table.as_ref().expect("table");
    let texts = |row: &Vec<InlineTextTree>| row.iter().map(|cell| cell.text()).collect();
    let mut rows = vec![texts(&table.header)];
    rows.extend(table.rows.iter().map(texts));
    rows
}

fn alignments(editor: &Editor, i: usize) -> Vec<TableColumnAlignment> {
    editor.document[i].table.as_ref().expect("table").alignments.clone()
}

fn cell(editor: &Editor, i: usize, row: usize, column: usize) -> u64 {
    let runtime = editor.document[i].runtime.as_ref().expect("cells");
    if row == 0 {
        runtime.header[column].id
    } else {
        runtime.rows[row - 1][column].id
    }
}

fn axis(table_block_id: u64, kind: TableAxisKind, index: usize) -> TableAxisSelection {
    TableAxisSelection {
        table_block_id,
        kind,
        index,
    }
}

/// Closes the undo capture of an edit.
fn done(editor: &mut Editor) {
    editor.finalize_pending_undo_capture(&facts("edited"));
}

fn point() -> ScreenPoint {
    ScreenPoint { x: 24, y: 24 }
}

#[test]
fn every_cell_of_a_table_can_be_edited() {
    let editor = import(TABLE);
    let runtime = editor.document[0].runtime.as_ref().expect("cells");
    assert_eq!(runtime.header.len(), 2);
    assert_eq!(runtime.rows.len(), 2);
    assert_eq!(runtime.rows[1][1].title.text(), "4");
    assert_eq!(
        runtime.rows[1][1].position,
        TableCellPosition { row: 2, column: 1 }
    );
    assert_eq!(runtime.rows[0][1].alignment, TableColumnAlignment::Center);
}

#[test]
fn the_ids_of_cells_lead_back_to_them() {
    let mut editor = import(&format!("{TABLE}\n\ntext\n\n{TABLE}"));
    editor.rebuild_table_runtimes();
    let mut ids: Vec<u64> = editor.document.iter().map(|block| block.id).collect();
    for &id in &ids {
        assert_eq!(find_binding(&editor.document, id), None);
    }
    for i in [0, editor.document.len() - 1] {
        for row in 0..3 {
            for column in 0..2 {
                let id = cell(&editor, i, row, column);
                assert!(!ids.contains(&id));
                assert!(id < editor.next_id);
                assert_eq!(
                    find_binding(&editor.document, id),
                    Some((i, TableCellPosition { row, column }))
                );
                ids.push(id);
            }
        }
    }
    assert_eq!(find_binding(&editor.document, editor.next_id), None);
}

#[test]
fn a_row_that_is_moved_back_is_where_it_was() {
    let mut editor = import(TABLE);
    let table = editor.document[0].id;
    let before = grid(&editor, 0);
    for (row, delta) in [(0, 2), (1, 1), (2, -1)] {
        editor.move_table_row(table, row, delta, &facts(TABLE), 0);
        done(&mut editor);
        assert_ne!(grid(&editor, 0), before);
        let there = (row as i32 + delta) as usize;
        assert_eq!(editor.axis.selection, Some(axis(table, TableAxisKind::Row, there)));
        editor.move_table_row(table, there, -delta, &facts("edited"), 0);
        done(&mut editor);
        assert_eq!(grid(&editor, 0), before);
        assert_eq!(editor.axis.selection, Some(axis(table, TableAxisKind::Row, row)));
    }
}

#[test]
fn a_drag_is_one_step_whatever_it_goes_through() {
    let mut editor = import(TABLE);
    let table = editor.document[0].id;
    editor.start_table_column_resize(table, 0, 10, 100, vec![5, 5]);
    for widths in [vec![6, 4], vec![7, 3], vec![2, 8]] {
        editor.update_table_column_resize(widths);
        assert_eq!(editor.history.pending_capture, None);
    }
    assert!(editor.end_table_column_resize(&facts(TABLE), 0));
    done(&mut editor);
    assert_eq!(editor.history.undo.len(), 1);
    assert_eq!(
        editor.document[0].table.as_ref().expect("table").widths,
        Some(vec![2, 8])
    );
    assert_eq!(editor.document[0].resize_preview, None);
    assert!(!editor.end_table_column_resize(&facts("edited"), 0));
    assert_eq!(editor.history.undo.len(), 1);
}

#[test]
fn a_drag_can_end_in_a_block_that_is_gone() {
    let mut editor = import(TABLE);
    let table = editor.document[0].id;
    editor.start_table_column_resize(table, 0, 10, 100, vec![5, 5]);
    let update = BlockEvent::RequestUpdateTableColumnResize { fractions: vec![4, 6] };
    editor.on_block_event(1_000_000, &update, &[], &facts(TABLE), 0);
    let end = BlockEvent::RequestEndTableColumnResize;
    let outcome = editor.on_block_event(1_000_000, &end, &[], &facts(TABLE), 0);
    assert!(outcome.finalize);
    assert_eq!(
        editor.document[0].table.as_ref().expect("table").widths,
        Some(vec![4, 6])
    );
}

#[test]
fn only_a_step_downwards_enters_a_table_from_its_top() {
    let mut editor = import(&format!("{TABLE}\n\n{TABLE}"));
    assert_eq!(editor.document.len(), 2);
    let (first, second) = (editor.document[0].id, editor.document[1].id);
    let below = [(1, cell(&editor, 1, 0, 0)), (0, cell(&editor, 1, 2, 0))];
    for (delta, entered) in below {
        editor.focus_block_adjacent_to_table(first, delta, true, 0);
        assert_eq!(editor.focus.pending_focus, Some(entered));
    }
    let above = cell(&editor, 0, 2, 0);
    editor.focus_block_adjacent_to_table(second, -1, true, 0);
    assert_eq!(editor.focus.pending_focus, Some(above));
}

/// Takes the table at the start out of a document, as the view still has it.
fn lose_table(editor: &mut Editor) -> (u64, DocumentFacts) {
    let block = editor.document.remove(0);
    let id = block.id;
    let gone = GoneBlock {
        block,
        in_quote: false,
        in_quote_group: false,
        first_child: None,
    };
    (
        id,
        DocumentFacts {
            gone: vec![gone],
            ..facts("text")
        },
    )
}

#[test]
fn a_table_that_is_gone_still_grows_in_the_view() {
    let mut editor = import(&format!("{TABLE}\n\n{TABLE}"));
    let header_end = cell(&editor, 0, 0, 1);
    let row_start = cell(&editor, 0, 2, 0);
    let (table, known) = lose_table(&mut editor);
    let kept = grid(&editor, 0);
    let cell_before = cell(&editor, 0, 0, 0);
    for (event, focused) in [
        (BlockEvent::RequestAppendTableColumn, header_end),
        (BlockEvent::RequestAppendTableRow, row_start),
    ] {
        editor.window.document_dirty = false;
        let outcome = editor.on_block_event(table, &event, &[], &known, 0);
        assert!(outcome.finalize);
        assert!(editor.window.document_dirty);
        assert_eq!(editor.focus.pending_focus, Some(focused));
        assert_eq!(grid(&editor, 0), kept);
        assert_ne!(cell(&editor, 0, 0, 0), cell_before);
        done(&mut editor);
    }
}

#[test]
fn choosing_a_row_of_a_table_that_is_gone_drops_the_selection() {
    let mut editor = import(&format!("{TABLE}\n\n{TABLE}"));
    let other = editor.document[1].id;
    editor.select_table_axis(other, TableAxisKind::Row, 1);
    let (table, known) = lose_table(&mut editor);
    let select = BlockEvent::RequestSelectTableAxis {
        kind: TableAxisKind::Row,
        index: 1,
    };
    editor.on_block_event(table, &select, &[], &facts("text"), 0);
    assert_eq!(editor.axis.selection, Some(axis(other, TableAxisKind::Row, 1)));
    editor.on_block_event(table, &select, &[], &known, 0);
    assert_eq!(editor.axis.selection, None);
}

#[test]
fn a_drag_of_a_table_that_is_gone_marks_the_document() {
    let mut editor = import(&format!("{TABLE}\n\ntext"));
    let head = cell(&editor, 0, 0, 1);
    let (table, known) = lose_table(&mut editor);
    let start = BlockEvent::RequestStartTableColumnResize {
        left_column: 1,
        pointer_x: 10,
        table_width: 100,
        start_fractions: vec![5, 5],
    };
    editor.on_block_event(table, &start, &[], &known, 0);
    assert!(editor.axis.resize_drag.is_some());
    assert!(!editor.window.document_dirty);
    let end = BlockEvent::RequestEndTableColumnResize;
    let outcome = editor.on_block_event(table, &end, &[], &known, 0);
    assert!(outcome.finalize && outcome.rebuild_images);
    assert!(editor.window.document_dirty);
    assert_eq!(editor.focus.pending_focus, Some(head));
    assert_eq!(editor.axis.resize_drag, None);
    assert_eq!(editor.axis.selection, None);
}

#[test]
fn typed_cells_go_into_the_record() {
    let mut editor = import(TABLE);
    let table = editor.document[0].id;
    let runtime = editor.document[0].runtime.as_mut().expect("cells");
    runtime.rows[0][0].title = InlineTextTree::plain("typed".to_string());
    editor.sync_table_record_from_runtime(table);
    assert_eq!(grid(&editor, 0), [["A", "B"], ["typed", "2"], ["3", "4"]]);
    assert_eq!(
        alignments(&editor, 0),
        [TableColumnAlignment::Default, TableColumnAlignment::Center]
    );
}

#[test]
fn a_column_is_added_at_the_end_and_taken_away() {
    let mut editor = import(TABLE);
    let table = editor.document[0].id;
    assert!(editor.append_table_column(table, &facts(TABLE), 0));
    done(&mut editor);
    assert_eq!(
        grid(&editor, 0),
        [["A", "B", ""], ["1", "2", ""], ["3", "4", ""]]
    );
    assert_eq!(editor.focus.pending_focus, Some(cell(&editor, 0, 0, 2)));
    assert!(editor.delete_table_column(table, 2, &facts(TABLE), 0));
    assert_eq!(grid(&editor, 0), [["A", "B"], ["1", "2"], ["3", "4"]]);
}

#[test]
fn a_row_is_added_at_the_end_and_taken_away() {
    let mut editor = import(TABLE);
    let table = editor.document[0].id;
    assert!(editor.append_table_row(table, &facts(TABLE), 0));
    done(&mut editor);
    assert_eq!(grid(&editor, 0), [["A", "B"], ["1", "2"], ["3", "4"], ["", ""]]);
    assert!(editor.delete_table_row(table, 2, &facts(TABLE), 0));
    assert_eq!(grid(&editor, 0), [["A", "B"], ["1", "2"], ["3", "4"]]);
    assert!(editor.window.document_dirty);
}

#[test]
fn only_tables_are_edited_as_tables() {
    let mut editor = import("text");
    let paragraph = editor.document[0].id;
    assert!(!editor.append_table_row(paragraph, &facts("text"), 0));
    assert!(!editor.append_table_column(paragraph, &facts("text"), 0));
    assert!(!editor.move_table_row(paragraph, 0, 1, &facts("text"), 0));
    assert!(!editor.remove_table_block(paragraph + 9, &facts("text"), 0));
    assert_eq!(editor.document.len(), 1);
}

#[test]
fn moving_a_row_into_the_header_and_back() {
    let mut editor = import(TABLE);
    let table = editor.document[0].id;
    assert!(editor.move_table_row(table, 1, -1, &facts(TABLE), 0));
    done(&mut editor);
    assert_eq!(grid(&editor, 0), [["1", "2"], ["A", "B"], ["3", "4"]]);
    assert!(editor.move_table_row(table, 0, 1, &facts(TABLE), 0));
    done(&mut editor);
    assert_eq!(grid(&editor, 0), [["A", "B"], ["1", "2"], ["3", "4"]]);
    assert!(!editor.move_table_row(table, 0, -1, &facts(TABLE), 0));
    assert!(!editor.move_table_row(table, 2, 1, &facts(TABLE), 0));
}

#[test]
fn moving_a_column_takes_its_alignment_along() {
    let mut editor = import(TABLE);
    let table = editor.document[0].id;
    assert!(editor.move_table_column(table, 0, 1, &facts(TABLE), 0));
    done(&mut editor);
    assert_eq!(grid(&editor, 0), [["B", "A"], ["2", "1"], ["4", "3"]]);
    assert_eq!(
        alignments(&editor, 0),
        [TableColumnAlignment::Center, TableColumnAlignment::Default]
    );
    assert!(editor.move_table_column(table, 1, -1, &facts(TABLE), 0));
    done(&mut editor);
    assert_eq!(grid(&editor, 0), [["A", "B"], ["1", "2"], ["3", "4"]]);
    assert!(!editor.move_table_column(table, 1, 1, &facts(TABLE), 0));
}

#[test]
fn a_column_is_aligned() {
    let mut editor = import(TABLE);
    let table = editor.document[0].id;
    let right = TableColumnAlignment::Right;
    assert!(editor.set_table_column_alignment(table, 0, right, &facts(TABLE), 0));
    assert_eq!(
        alignments(&editor, 0),
        [TableColumnAlignment::Right, TableColumnAlignment::Center]
    );
}

#[test]
fn the_first_row_follows_a_deleted_header() {
    let mut editor = import(TABLE);
    let table = editor.document[0].id;
    assert!(editor.delete_table_header_row(table, &facts(TABLE), 0));
    assert_eq!(grid(&editor, 0), [["1", "2"], ["3", "4"]]);
}

#[test]
fn a_removed_table_leaves_a_place_for_the_caret() {
    let mut editor = import(TABLE);
    let table = editor.document[0].id;
    assert!(editor.remove_table_block(table, &facts(TABLE), 0));
    assert_eq!(editor.document.len(), 1);
    assert_eq!(editor.document[0].kind, BlockKind::Paragraph);
    assert_eq!(editor.focus.pending_focus, Some(editor.document[0].id));
}

#[test]
fn dragging_a_column_boundary_sets_the_widths() {
    let mut editor = import(TABLE);
    let table = editor.document[0].id;
    let half = 0.5f32.to_bits();
    let (narrow, wide) = (0.25f32.to_bits(), 0.75f32.to_bits());
    editor.start_table_column_resize(table, 0, 100f32.to_bits(), 400f32.to_bits(), vec![half, half]);
    editor.update_table_column_resize(vec![narrow, wide]);
    assert_eq!(editor.document[0].resize_preview, Some(vec![narrow, wide]));
    assert!(editor.end_table_column_resize(&facts(TABLE), 0));
    let table = editor.document[0].table.as_ref().expect("table");
    assert_eq!(table.widths, Some(vec![narrow, wide]));
    assert_eq!(editor.document[0].resize_preview, None);
    assert_eq!(editor.axis.resize_drag, None);
}

#[test]
fn letting_go_without_a_drag_changes_nothing() {
    let mut editor = import(TABLE);
    assert!(!editor.end_table_column_resize(&facts(TABLE), 0));
    assert_eq!(editor.document[0].table.as_ref().expect("table").widths, None);
}

#[test]
fn a_selected_column_is_highlighted() {
    let mut editor = import(TABLE);
    let table = editor.document[0].id;
    editor.select_table_axis(table, TableAxisKind::Column, 1);
    assert_eq!(
        editor.axis.selection,
        Some(axis(table, TableAxisKind::Column, 1))
    );
    assert_eq!(
        editor.document[0].axis_selected,
        Some(TableAxisMarker {
            kind: TableAxisKind::Column,
            index: 1
        })
    );
    let runtime = editor.document[0].runtime.as_ref().expect("cells");
    assert_eq!(runtime.header[0].highlight, TableAxisHighlight::Plain);
    assert_eq!(runtime.header[1].highlight, TableAxisHighlight::Selected);
    assert_eq!(runtime.rows[1][1].highlight, TableAxisHighlight::Selected);

    editor.clear_table_axis_selection();
    let runtime = editor.document[0].runtime.as_ref().expect("cells");
    assert_eq!(runtime.header[1].highlight, TableAxisHighlight::Preview);
    editor.clear_table_axis_preview();
    let runtime = editor.document[0].runtime.as_ref().expect("cells");
    assert_eq!(runtime.header[1].highlight, TableAxisHighlight::Plain);
}

#[test]
fn a_row_that_is_not_there_is_not_selected() {
    let mut editor = import(TABLE);
    let table = editor.document[0].id;
    assert!(editor.table_axis_selection_valid(axis(table, TableAxisKind::Row, 2)));
    assert!(!editor.table_axis_selection_valid(axis(table, TableAxisKind::Row, 3)));
    editor.axis.selection = Some(axis(table, TableAxisKind::Row, 3));
    editor.normalize_table_axis_state();
    assert_eq!(editor.axis.selection, None);
}

#[test]
fn pointing_at_a_row_previews_it() {
    let mut editor = import(TABLE);
    let table = editor.document[0].id;
    editor.preview_table_axis(table, TableAxisKind::Row, 1, true);
    let runtime = editor.document[0].runtime.as_ref().expect("cells");
    assert_eq!(runtime.rows[0][0].highlight, TableAxisHighlight::Preview);
    editor.preview_table_axis(table, TableAxisKind::Row, 1, false);
    assert_eq!(editor.axis.preview, None);
}

#[test]
fn an_event_of_a_table_adds_a_row() {
    let mut editor = import(TABLE);
    let table = editor.document[0].id;
    let event = BlockEvent::RequestAppendTableRow;
    let outcome = editor.on_block_event(table, &event, &[], &facts(TABLE), 0);
    assert!(outcome.finalize);
    assert_eq!(grid(&editor, 0).len(), 4);
}

#[test]
fn a_new_table_is_empty() {
    let table = TableData::new_empty(2, 3);
    assert_eq!(table.column_count(), 3);
    assert_eq!(table.rows.len(), 2);
    assert!(table.rows.iter().all(|row| row.len() == 3));
    assert!(table.rows[1][2].text().is_empty());
}

// The menus of tables

fn axis_menu(editor: &mut Editor, kind: TableAxisKind, index: usize) {
    let table = editor.document[0].id;
    editor.open_table_axis_menu(table, kind, index, point());
}

#[test]
fn the_menu_of_a_column_offers_what_can_be_done() {
    let mut editor = import(TABLE);
    assert_eq!(editor.axis_menu_lines(), None);
    axis_menu(&mut editor, TableAxisKind::Column, 0);
    let lines = editor.axis_menu_lines().expect("menu");
    let enabled = |wanted: AxisAction| {
        lines
            .iter()
            .find_map(|line| match line {
                AxisMenuItem::Action {
                    action, enabled, ..
                } if *action == wanted => Some(*enabled),
                _ => None,
            })
            .expect("item")
    };
    assert!(!enabled(AxisAction::MoveColumnLeft));
    assert!(enabled(AxisAction::MoveColumnRight));
    assert!(enabled(AxisAction::DeleteColumn));
    assert!(enabled(AxisAction::AlignColumnCenter));
}

#[test]
fn choosing_an_item_closes_the_menu_and_edits_the_table() {
    let mut editor = import(TABLE);
    axis_menu(&mut editor, TableAxisKind::Column, 1);
    assert!(editor.on_axis_menu_action(AxisAction::MoveColumnLeft, &facts(TABLE), 0));
    assert_eq!(grid(&editor, 0), [["B", "A"], ["2", "1"], ["4", "3"]]);
    assert_eq!(editor.overlays.context_menu, None);
    done(&mut editor);

    axis_menu(&mut editor, TableAxisKind::Row, 2);
    assert!(editor.on_axis_menu_action(AxisAction::DeleteRow, &facts(TABLE), 0));
    done(&mut editor);
    assert_eq!(grid(&editor, 0), [["B", "A"], ["2", "1"]]);

    axis_menu(&mut editor, TableAxisKind::Row, 0);
    assert!(editor.on_axis_menu_action(AxisAction::DeleteRow, &facts(TABLE), 0));
    assert_eq!(grid(&editor, 0), [["2", "1"]]);
}

#[test]
fn deleting_the_last_column_removes_the_table() {
    let mut editor = import("| A |\n| --- |\n| 1 |");
    assert_eq!(editor.document[0].kind, BlockKind::Table);
    axis_menu(&mut editor, TableAxisKind::Column, 0);
    assert!(editor.on_axis_menu_action(AxisAction::DeleteColumn, &facts(""), 0));
    assert_eq!(editor.document[0].kind, BlockKind::Paragraph);
}

#[test]
fn an_item_that_cannot_be_chosen_does_nothing() {
    let mut editor = import(TABLE);
    axis_menu(&mut editor, TableAxisKind::Column, 0);
    assert!(!editor.on_axis_menu_action(AxisAction::MoveColumnLeft, &facts(TABLE), 0));
    assert_eq!(grid(&editor, 0), [["A", "B"], ["1", "2"], ["3", "4"]]);
}

#[test]
fn a_table_is_inserted_below_the_block_of_the_menu() {
    let mut editor = import("one\n\ntwo");
    let first = editor.document[0].id;
    assert!(editor.on_block_context_menu_mouse_down(first, point()));
    editor.on_open_table_insert_dialog();
    let dialog = editor.overlays.table_insert_dialog.expect("dialog");
    assert_eq!(dialog.target, TableInsertTarget::After(first));
    editor.on_table_rows_increment();
    editor.on_table_columns_decrement();
    let chosen = editor.overlays.table_insert_dialog.expect("dialog");
    assert_eq!(chosen.body_rows, dialog.body_rows + 1);
    assert_eq!(chosen.columns, dialog.columns - 1);
    editor.on_confirm_table_insert_dialog();
    assert_eq!(editor.overlays.table_insert_dialog, None);
    assert_eq!(editor.document[1].kind, BlockKind::Table);
    let table = editor.document[1].table.as_ref().expect("table");
    assert_eq!(table.column_count(), chosen.columns);
    assert_eq!(table.rows.len(), chosen.body_rows);
    assert_eq!(editor.focus.pending_focus, Some(cell(&editor, 1, 0, 0)));
}

#[test]
fn a_table_at_the_end_can_be_left_downwards() {
    let mut editor = import("one");
    assert!(editor.on_editor_context_menu_mouse_down(point()));
    editor.on_open_table_insert_dialog();
    editor.on_confirm_table_insert_dialog();
    assert_eq!(editor.document.len(), 3);
    assert_eq!(editor.document[1].kind, BlockKind::Table);
    assert_eq!(editor.document[2].kind, BlockKind::Paragraph);
}

#[test]
fn a_table_keeps_a_row_and_a_column() {
    let mut editor = import("one");
    editor.on_editor_context_menu_mouse_down(point());
    editor.on_open_table_insert_dialog();
    for _ in 0..10 {
        editor.on_table_rows_decrement();
        editor.on_table_columns_decrement();
    }
    let dialog = editor.overlays.table_insert_dialog.expect("dialog");
    assert_eq!((dialog.body_rows, dialog.columns), (1, 1));
}

// The other menus

#[test]
fn context_submenu_stays_open_while_crossing_hover_gap() {
    fn open(editor: &Editor) -> bool {
        match editor.overlays.context_menu {
            Some(ContextMenuState::Insert { submenu_open, .. }) => submenu_open,
            _ => panic!("expected insert context menu"),
        }
    }

    let mut editor = import("alpha");
    editor.open_insert_context_menu(point(), TableInsertTarget::Append);
    assert!(!editor.set_context_menu_hover_state(true, false));
    assert!(open(&editor));

    assert!(editor.set_context_menu_hover_state(false, false));
    assert!(open(&editor));
    assert!(editor.overlays.submenu_close_pending);

    assert!(!editor.set_context_menu_hover_state(true, true));
    assert!(open(&editor));
    assert!(!editor.overlays.submenu_close_pending);

    assert!(editor.set_context_menu_hover_state(false, true));
    editor.close_context_submenu();
    assert!(!open(&editor));
}

#[test]
fn right_click_on_a_file_row_opens_the_workspace_entry_menu() {
    let mut editor = import("alpha");
    let path = "/tmp/velotype-context-menu-test/notes.md";
    editor.open_workspace_entry_context_menu(point(), path.to_string(), false);
    match &editor.overlays.context_menu {
        Some(ContextMenuState::WorkspaceEntry {
            path: opened,
            is_directory,
            ..
        }) => {
            assert_eq!(opened, path);
            assert!(!is_directory);
        }
        _ => panic!("expected a workspace entry context menu"),
    }
}

#[test]
fn right_click_on_a_directory_row_marks_the_menu_as_a_directory() {
    let mut editor = import("alpha");
    let path = "/tmp/velotype-context-menu-test/nested";
    editor.open_workspace_entry_context_menu(point(), path.to_string(), true);
    match &editor.overlays.context_menu {
        Some(ContextMenuState::WorkspaceEntry { is_directory, .. }) => assert!(is_directory),
        _ => panic!("expected a workspace entry context menu"),
    }
}

#[test]
fn dismiss_contextual_overlays_clears_the_workspace_entry_menu() {
    let mut editor = import("alpha");
    let path = "/tmp/velotype-context-menu-test/notes.md";
    editor.open_workspace_entry_context_menu(point(), path.to_string(), false);
    assert!(editor.overlays.context_menu.is_some());
    editor.dismiss_contextual_overlays();
    assert!(editor.overlays.context_menu.is_none());
}

#[test]
fn copy_path_places_the_absolute_path_on_the_clipboard() {
    let mut editor = import("alpha");
    let path = "/tmp/velotype-context-menu-test/notes.md";
    editor.open_workspace_entry_context_menu(point(), path.to_string(), false);
    assert_eq!(editor.active_workspace_entry_menu_path().as_deref(), Some(path));
    assert_eq!(editor.take_workspace_entry_path().as_deref(), Some(path));
    assert_eq!(editor.overlays.context_menu, None);
    assert_eq!(editor.take_workspace_entry_path(), None);
}

#[test]
fn a_folder_has_no_contents_to_copy() {
    assert_eq!(
        Editor::workspace_entry_menu_items(false),
        [
            EntryAction::CopyPath,
            EntryAction::CopyContents,
            EntryAction::OpenInNewWindow
        ]
    );
    assert_eq!(
        Editor::workspace_entry_menu_items(true),
        [EntryAction::CopyPath, EntryAction::OpenInNewWindow]
    );
}

#[test]
fn the_menu_of_a_nested_block_inserts_below_its_root() {
    let mut editor = import("- a\n  - b");
    let root = editor.document[0].id;
    let nested = editor.document[1].id;
    assert_eq!(editor.root_ancestor_entity_id(nested), root);
    assert_eq!(editor.root_ancestor_entity_id(root), root);
    assert!(editor.on_block_context_menu_mouse_down(nested, point()));
    match editor.overlays.context_menu {
        Some(ContextMenuState::Insert { target, .. }) => {
            assert_eq!(target, TableInsertTarget::After(root));
        }
        _ => panic!("expected insert context menu"),
    }
}

#[test]
fn headers_are_toggled_from_the_menu_of_a_row() {
    let mut editor = import(TABLE);
    axis_menu(&mut editor, TableAxisKind::Row, 0);
    let table = editor.document[0].id;
    assert_eq!(
        editor.active_axis_menu_selection(),
        Some(axis(table, TableAxisKind::Row, 0))
    );
    assert!(!editor.on_toggle_table_headers(true));
    assert_eq!(editor.active_axis_menu_selection(), None);
    assert!(editor.on_toggle_table_headers(false));
}
