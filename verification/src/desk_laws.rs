//! What the tab key, the menus, the dialogs and the gaps between rows come down to, kind
//! by kind and item by item.

use crate::blocks;
use crate::blocks::BlockKind;
use crate::cell_laws;
use crate::document;
use crate::editor::EditorView;
use crate::keys;
use crate::keys::{KeyFocus, Keystroke, TabAction};
use crate::kinds;
use crate::menu_bar;
use crate::menu_bar::{LabelChar, Menu, MenuAction, MenuItem};
use crate::newline;
use crate::rows;
use crate::rows::{CalloutGaps, RenderedRowSpacingInfo};
use crate::window;
use crate::window::TopDialog;
use vstd::prelude::*;

verus! {

// ---------------------------------------------------------------------------
// Kinds
// ---------------------------------------------------------------------------

/// Enter opens an item of the same list, an unchecked task, or another quote; below any
/// other block it opens a paragraph.
pub proof fn enter_goes_on_with_lists_and_quotes<T>(kind: BlockKind<T>)
    ensures
        kind is BulletedListItem ==> kinds::newline_sibling(kind) is BulletedListItem,
        kind is NumberedListItem ==> kinds::newline_sibling(kind) is NumberedListItem,
        kind is TaskListItem ==> kinds::newline_sibling(kind) == (BlockKind::<T>::TaskListItem {
            checked: false,
        }),
        kind is Quote ==> kinds::newline_sibling(kind) is Quote,
        kind is Paragraph || kind is Heading || kind is Callout || kind is CodeBlock
            || kind is Separator || kind is Table || kind is RawMarkdown || kind is Comment
            || kind is HtmlBlock || kind is MathBlock || kind is MermaidBlock
            || kind is FootnoteDefinition ==> kinds::newline_sibling(kind) is Paragraph,
{
}

/// Items of lists, and paragraphs, can be nested, and only under items of lists.
pub proof fn only_lists_hold_nested_blocks<T>(kind: BlockKind<T>, parent: BlockKind<T>)
    ensures
        kinds::nests_under(kind, parent) <==> (kind is Paragraph || kind is BulletedListItem
            || kind is NumberedListItem || kind is TaskListItem) && (parent is BulletedListItem
            || parent is NumberedListItem || parent is TaskListItem),
{
}

/// Code, formulas, diagrams, HTML, raw Markdown and comments hold their lines as they
/// stand. The caret cannot get past them, nor past tables and separators, and no table
/// can be put in from them. Only quotes and callouts hold quoted blocks.
pub proof fn kinds_fall_into_groups<T>(kind: BlockKind<T>)
    ensures
        ({
            let literal = kind is CodeBlock || kind is MathBlock || kind is MermaidBlock
                || kind is HtmlBlock || kind is RawMarkdown || kind is Comment;
            &&& kinds::multiline_text(kind) <==> literal
            &&& kinds::atomic_structural(kind) <==> literal || kind is Table || kind is Separator
            &&& kinds::allows_table_insert(kind) <==> !literal
            &&& kinds::quote_container(kind) <==> kind is Quote || kind is Callout
            &&& blocks::kind_is_list_item(kind) <==> kind is BulletedListItem
                || kind is NumberedListItem || kind is TaskListItem
        }),
{
}

// ---------------------------------------------------------------------------
// The tab key
// ---------------------------------------------------------------------------

/// In paragraphs, items of lists and code the tab key indents, and with shift it takes
/// the indentation back. In other blocks it is passed on.
pub proof fn tab_indents_and_shift_tab_outdents(
    s: EditorView,
    i: int,
    stroke: Keystroke,
)
    requires
        document::well_formed(s.document, s.next_id),
        0 <= i < s.document.len(),
        stroke.key@ == seq!['t', 'a', 'b'],
        !stroke.control,
        !stroke.platform,
        !stroke.alt,
        !stroke.function,
    ensures
        ({
            let id = s.document[i].id;
            let kind = s.document[i].kind;
            let taken = kind is Paragraph || kind is CodeBlock || kind is BulletedListItem
                || kind is NumberedListItem || kind is TaskListItem;
            let action = keys::tab_action(
                s,
                stroke,
                Some(KeyFocus { entity_id: id, in_language_field: false }),
            );
            &&& taken && !stroke.shift ==> action == TabAction::Indent(id)
            &&& taken && stroke.shift ==> action == TabAction::Outdent(id)
            &&& !taken ==> action == TabAction::PassOn
            &&& keys::tab_action(
                s,
                stroke,
                Some(KeyFocus { entity_id: id, in_language_field: true }),
            ) == TabAction::Swallow
        }),
{
    reveal_strlit("tab");
    assert("tab"@ =~= seq!['t', 'a', 'b']);
    newline::lemma_index_is(s.document, i, 0);
    cell_laws::blocks_are_not_taken_for_cells(s.document, s.next_id, i);
}

/// Other keys, keys with control, alt, function or the platform's key held down, and keys
/// outside any block are passed on.
pub proof fn other_keys_are_passed_on(
    s: EditorView,
    stroke: Keystroke,
    focus: Option<KeyFocus>,
)
    requires
        stroke.control || stroke.platform || stroke.alt || stroke.function || focus is None
            || stroke.key@ != seq!['t', 'a', 'b'],
    ensures
        keys::tab_action(s, stroke, focus) == TabAction::PassOn,
{
    reveal_strlit("tab");
    assert("tab"@ =~= seq!['t', 'a', 'b']);
}

// ---------------------------------------------------------------------------
// The menu bar
// ---------------------------------------------------------------------------

/// The labels of two groups of items are those of the one and then those of the other. An
/// item has its name for a label, and a separator has none.
pub proof fn labels_name_the_items_in_order(a: Seq<MenuItem>, b: Seq<MenuItem>, item: MenuItem)
    ensures
        menu_bar::item_labels(a + b) == menu_bar::item_labels(a) + menu_bar::item_labels(b),
        item is Separator ==> menu_bar::item_labels(seq![item]).len() == 0,
        item matches MenuItem::Action { name, action } ==> menu_bar::item_labels(seq![item])
            == seq![name@],
        item matches MenuItem::Submenu { name, items } ==> menu_bar::item_labels(seq![item])
            == seq![name@],
        item matches MenuItem::SystemMenu { name } ==> menu_bar::item_labels(seq![item])
            == seq![name@],
    decreases b.len(),
{
    let one = seq![item];
    assert(one.drop_last() =~= Seq::empty());
    assert(menu_bar::item_labels(Seq::empty()) =~= Seq::<Seq<char>>::empty());
    assert(one.last() == item);
    if b.len() == 0 {
        assert(a + b =~= a);
        assert(menu_bar::item_labels(b) =~= Seq::<Seq<char>>::empty());
        assert(menu_bar::item_labels(a) + menu_bar::item_labels(b) =~= menu_bar::item_labels(a));
    } else {
        labels_name_the_items_in_order(a, b.drop_last(), item);
        assert((a + b).drop_last() =~= a + b.drop_last());
        assert((a + b).last() == b.last());
        assert(menu_bar::item_labels(a + b) =~= menu_bar::item_labels(a) + menu_bar::item_labels(
            b,
        ));
    }
}

/// Only the item that says that there are no recent files cannot be chosen.
pub proof fn items_that_do_something_can_be_chosen(name: String, action: MenuAction)
    ensures
        menu_bar::choosable(MenuItem::Action { name, action }) <==> action
            != MenuAction::NoRecentFiles,
        !menu_bar::choosable(MenuItem::Separator),
{
}

/// An open menu is shown, with the submenu of the item that opens one, and none is shown
/// where none is open.
pub proof fn the_open_menu_is_shown(menus: Seq<Menu>, at: usize, k: usize)
    ensures
        menu_bar::menu_panel(menus, None, Some(k)) is None,
        at >= menus.len() ==> menu_bar::menu_panel(menus, Some(at), Some(k)) is None,
        at < menus.len() ==> {
            let items = menus[at as int].items@;
            &&& menu_bar::menu_panel(menus, Some(at), None) matches Some(panel) && panel.menu
                == at && panel.submenu is None
            &&& menu_bar::menu_panel(menus, Some(at), Some(k)) matches Some(panel) && {
                &&& panel.menu == at
                &&& panel.submenu == (if k < items.len() && items[k as int] is Submenu {
                    Some(k)
                } else {
                    None
                })
            }
        },
{
}

/// Letters and digits are narrow; the characters of Chinese, the syllables of Japanese
/// and Korean, and the wide forms of Latin letters take the room of two; other characters
/// below them do not.
pub proof fn characters_have_their_width(c: char)
    ensures
        ('a' <= c <= 'z') || ('A' <= c <= 'Z') || ('0' <= c <= '9') ==> menu_bar::label_char(c)
            == LabelChar::Ascii,
        c == ' ' || c == '\t' ==> menu_bar::label_char(c) == LabelChar::Space,
        c == '.' || c == ',' || c == '-' || c == '&' || c == '(' || c == ')' || c == '_' || c
            == '~' ==> menu_bar::label_char(c) == LabelChar::Punctuation,
        '\u{4e00}' <= c <= '\u{9fff}' ==> menu_bar::label_char(c) == LabelChar::Wide,
        '\u{3040}' <= c <= '\u{30ff}' ==> menu_bar::label_char(c) == LabelChar::Wide,
        '\u{ac00}' <= c <= '\u{d7a3}' ==> menu_bar::label_char(c) == LabelChar::Wide,
        '\u{ff01}' <= c <= '\u{ff60}' ==> menu_bar::label_char(c) == LabelChar::Wide,
        '\u{80}' <= c <= '\u{10ff}' ==> menu_bar::label_char(c) == LabelChar::Other,
{
}

/// Only on macOS the menus are not shown in the window.
pub proof fn menus_are_in_the_window_but_for_macos(target_os: Seq<char>)
    ensures
        menu_bar::menu_in_window(target_os) <==> target_os != seq!['m', 'a', 'c', 'o', 's'],
{
    reveal_strlit("macos");
    assert("macos"@ =~= seq!['m', 'a', 'c', 'o', 's']);
}

// ---------------------------------------------------------------------------
// Dialogs
// ---------------------------------------------------------------------------

/// Of the dialogs that are open, the one with information is on top, then the one about a
/// dropped file, and then the one about unsaved changes.
pub proof fn dialogs_lie_over_one_another(s: EditorView)
    ensures
        s.window.info_dialog_open ==> window::top_dialog(s) == Some(TopDialog::Info),
        !s.window.info_dialog_open && s.drop_replace.show_dialog ==> window::top_dialog(s)
            == Some(TopDialog::DropReplace),
        !s.window.info_dialog_open && !s.drop_replace.show_dialog
            && s.window.show_unsaved_changes_dialog ==> window::top_dialog(s) == Some(
            TopDialog::UnsavedChanges,
        ),
        window::top_dialog(s) is None ==> !s.window.info_dialog_open
            && !s.drop_replace.show_dialog && !s.window.show_unsaved_changes_dialog,
{
}

// ---------------------------------------------------------------------------
// Gaps
// ---------------------------------------------------------------------------

/// The first row has no gap above it, nor has one that goes on with the quote of the row
/// before. A row below the header of a callout or a footnote has the gap of the header,
/// and all others have the usual one.
pub proof fn gaps_part_what_does_not_belong_together<T>(
    before: RenderedRowSpacingInfo,
    row: RenderedRowSpacingInfo,
    gaps: CalloutGaps<T>,
    below_header: T,
    usual: T,
    none: T,
)
    ensures
        rows::row_gap(None, row, usual, none) == none,
        rows::callout_gap(None, row, gaps, none) == none,
        rows::footnote_gap(None, below_header, usual, none) == none,
        before.quote_group_anchor is None || before.quote_group_anchor != row.quote_group_anchor
            ==> rows::row_gap(Some(before), row, usual, none) == usual,
        before.quote_group_anchor is Some && before.quote_group_anchor == row.quote_group_anchor
            ==> rows::row_gap(Some(before), row, usual, none) == none,
        before.visible_quote_group_anchor is Some && before.visible_quote_group_anchor
            == row.visible_quote_group_anchor ==> rows::callout_gap(Some(before), row, gaps, none)
            == none,
        before.visible_quote_group_anchor is None && before.is_callout_header
            ==> rows::callout_gap(Some(before), row, gaps, none)
            == gaps.callout_header_margin_bottom,
        before.visible_quote_group_anchor is None && !before.is_callout_header
            ==> rows::callout_gap(Some(before), row, gaps, none) == gaps.callout_body_gap,
        before.is_footnote_header ==> rows::footnote_gap(Some(before), below_header, usual, none)
            == below_header,
        !before.is_footnote_header ==> rows::footnote_gap(Some(before), below_header, usual, none)
            == usual,
{
}

} // verus!
