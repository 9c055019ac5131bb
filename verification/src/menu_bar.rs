//! The menu bar inside the window, and the fonts of the editor's text.

use crate::text;
use vstd::prelude::*;

verus! {

/// How many items of a long menu are shown before it scrolls.
pub const SCROLLABLE_IMPORT_MENU_VISIBLE_ITEMS: usize = 12;

/// What an item of a menu does, as far as its menu depends on it.
#[derive(Clone, Copy, Debug, PartialEq, Eq, Structural)]
pub enum MenuAction {
    AddThemeConfig,
    AddLanguageConfig,
    /// Stands where there are no recent files, and does nothing.
    NoRecentFiles,
    Other,
}

/// An item of a menu.
#[derive(Debug, PartialEq, Eq)]
pub enum MenuItem {
    Action { name: String, action: MenuAction },
    Submenu { name: String, items: Vec<MenuItem> },
    SystemMenu { name: String },
    Separator,
}

/// A menu of the menu bar.
#[derive(Debug, PartialEq, Eq)]
pub struct Menu {
    pub name: String,
    pub items: Vec<MenuItem>,
}

/// What is shown of the open menu.
#[derive(Clone, Copy, Debug, PartialEq, Eq, Structural)]
pub struct MenuPanel {
    /// The open menu.
    pub menu: usize,
    /// The items before this one scroll, and the others stay below them.
    pub split: Option<usize>,
    /// The item whose submenu is open.
    pub submenu: Option<usize>,
}

/// How wide a character of a label is taken to be.
#[derive(Clone, Copy, Debug, PartialEq, Eq, Structural)]
pub enum LabelChar {
    Space,
    Punctuation,
    Ascii,
    Wide,
    Other,
}

/// A font family and the families that stand in for the characters it lacks.
#[derive(Debug, PartialEq, Eq)]
pub struct TextFont {
    pub family: String,
    pub fallbacks: Vec<String>,
}

// ---------------------------------------------------------------------------
// Menus
// ---------------------------------------------------------------------------

/// The label of an item.
pub open spec fn item_label(item: MenuItem) -> Option<Seq<char>> {
    match item {
        MenuItem::Action { name, action } => Some(name@),
        MenuItem::Submenu { name, items } => Some(name@),
        MenuItem::SystemMenu { name } => Some(name@),
        MenuItem::Separator => None,
    }
}

/// The labels of the items of a menu.
pub open spec fn item_labels(items: Seq<MenuItem>) -> Seq<Seq<char>>
    decreases items.len(),
{
    if items.len() == 0 {
        Seq::empty()
    } else {
        match item_label(items.last()) {
            Some(label) => item_labels(items.drop_last()).push(label),
            None => item_labels(items.drop_last()),
        }
    }
}

/// Whether an item adds a configuration file.
pub open spec fn adds_config(item: MenuItem) -> bool {
    item matches MenuItem::Action { name, action } && (action == MenuAction::AddThemeConfig
        || action == MenuAction::AddLanguageConfig)
}

/// Where a menu ends in a separator and an item that adds a configuration file.
pub open spec fn split_index(items: Seq<MenuItem>) -> Option<int> {
    if items.len() >= 2 && items[items.len() - 2] is Separator && adds_config(items.last()) {
        Some(items.len() - 2)
    } else {
        None
    }
}

/// Whether an item can be chosen.
pub open spec fn choosable(item: MenuItem) -> bool {
    item matches MenuItem::Action { name, action } && action != MenuAction::NoRecentFiles
}

/// What is shown of the open menu.
pub open spec fn menu_panel(menus: Seq<Menu>, open: Option<usize>, submenu: Option<usize>) -> Option<
    MenuPanel,
> {
    match open {
        None => None,
        Some(at) => if at < menus.len() {
            let items = menus[at as int].items@;
            Some(
                MenuPanel {
                    menu: at,
                    split: match split_index(items) {
                        Some(k) => Some(k as usize),
                        None => None,
                    },
                    submenu: if submenu matches Some(k) && k < items.len()
                        && items[k as int] is Submenu {
                        submenu
                    } else {
                        None
                    },
                },
            )
        } else {
            None
        },
    }
}

/// Splitting a menu for scrolling leaves the separator and the last item below.
pub proof fn a_split_leaves_two_items(items: Seq<MenuItem>)
    ensures
        split_index(items) matches Some(k) ==> 0 <= k && items.skip(k).len() == 2
            && items[k] is Separator && adds_config(items[k + 1]),
{
}

// ---------------------------------------------------------------------------
// Labels
// ---------------------------------------------------------------------------

/// Whether a character takes the room of two.
pub open spec fn wide(c: char) -> bool {
    let u = c as u32;
    ||| 0x1100 <= u <= 0x11ff
    ||| 0x2e80 <= u <= 0xa4cf
    ||| 0xac00 <= u <= 0xd7a3
    ||| 0xf900 <= u <= 0xfaff
    ||| 0xfe10 <= u <= 0xfe6f
    ||| 0xff00 <= u <= 0xff60
    ||| 0xffe0 <= u <= 0xffe6
}

/// Whether a character is ASCII white space.
pub open spec fn ascii_space(c: char) -> bool {
    c == ' ' || c == '\t' || c == '\n' || c == '\r' || c as u32 == 0x0c
}

/// Whether a character is ASCII punctuation.
pub open spec fn ascii_mark(c: char) -> bool {
    ('!' <= c <= '/') || (':' <= c <= '@') || ('[' <= c <= '`') || ('{' <= c <= '~')
}

/// How wide a character of a label is taken to be.
pub open spec fn label_char(c: char) -> LabelChar {
    if ascii_space(c) {
        LabelChar::Space
    } else if ascii_mark(c) {
        LabelChar::Punctuation
    } else if c as u32 <= 0x7f {
        LabelChar::Ascii
    } else if wide(c) {
        LabelChar::Wide
    } else {
        LabelChar::Other
    }
}

// ---------------------------------------------------------------------------
// The platform
// ---------------------------------------------------------------------------

/// Whether the menus are shown inside the window. Only macOS has a place of its own
/// for them.
pub open spec fn menu_in_window(target_os: Seq<char>) -> bool {
    target_os != "macos"@
}

/// The font families with Tibetan characters, those that a platform brings first.
pub open spec fn tibetan_families(target_os: Seq<char>) -> Seq<Seq<char>> {
    if target_os == "windows"@ {
        seq![
            "Microsoft Himalaya"@,
            "Noto Serif Tibetan"@,
            "Noto Sans Tibetan"@,
            "BabelStone Tibetan"@,
        ]
    } else if target_os == "macos"@ {
        seq!["Kailasa"@, "Noto Serif Tibetan"@, "Noto Sans Tibetan"@]
    } else {
        seq![
            "Noto Serif Tibetan"@,
            "Noto Sans Tibetan"@,
            "Microsoft Himalaya"@,
            "Kailasa"@,
            "BabelStone Tibetan"@,
        ]
    }
}

// ---------------------------------------------------------------------------
// Running code
// ---------------------------------------------------------------------------

/// The labels of the items of a menu.
pub fn owned_menu_item_labels(items: &[MenuItem]) -> (r: Vec<String>)
    ensures
        text::texts(r@) == item_labels(items@),
{
    let mut labels: Vec<String> = Vec::new();
    let mut i: usize = 0;
    assert(text::texts(labels@) =~= item_labels(items@.take(0)));
    while i < items.len()
        invariant
            i <= items@.len(),
            text::texts(labels@) == item_labels(items@.take(i as int)),
        decreases items@.len() - i,
    {
        let ghost before = text::texts(labels@);
        assert(items@.take(i + 1).drop_last() =~= items@.take(i as int));
        assert(items@.take(i + 1).last() == items@[i as int]);
        let label: Option<String> = match &items[i] {
            MenuItem::Action { name, .. } => Some(name.clone()),
            MenuItem::Submenu { name, .. } => Some(name.clone()),
            MenuItem::SystemMenu { name } => Some(name.clone()),
            MenuItem::Separator => None,
        };
        if let Some(name) = label {
            labels.push(name);
            assert(text::texts(labels@) =~= before.push(name@));
        }
        i = i + 1;
    }
    assert(items@.take(i as int) =~= items@);
    labels
}

/// Where a menu ends in a separator and an item that adds a configuration file.
pub fn import_menu_split_index(items: &[MenuItem]) -> (r: Option<usize>)
    ensures
        r matches Some(k) ==> split_index(items@) == Some(k as int),
        r is None ==> split_index(items@) is None,
{
    let n: usize = items.len();
    if n < 2 || !matches!(items[n - 2], MenuItem::Separator) {
        return None;
    }
    match &items[n - 1] {
        MenuItem::Action { action, .. } => {
            if *action == MenuAction::AddThemeConfig || *action == MenuAction::AddLanguageConfig {
                Some(n - 2)
            } else {
                None
            }
        },
        _ => None,
    }
}

/// Whether an item can be chosen.
pub fn menu_item_enabled(item: &MenuItem) -> (r: bool)
    ensures
        r == choosable(*item),
{
    match item {
        MenuItem::Action { action, .. } => *action != MenuAction::NoRecentFiles,
        _ => false,
    }
}

/// What is shown of the open menu.
pub fn open_menu_panel(menus: &[Menu], open: Option<usize>, submenu: Option<usize>) -> (r: Option<
    MenuPanel,
>)
    ensures
        r == menu_panel(menus@, open, submenu),
{
    let at: usize = match open {
        Some(at) => at,
        None => {
            return None;
        },
    };
    if at >= menus.len() {
        return None;
    }
    let items = menus[at].items.as_slice();
    let shown: Option<usize> = match submenu {
        Some(k) => {
            if k < items.len() && matches!(items[k], MenuItem::Submenu { .. }) {
                Some(k)
            } else {
                None
            }
        },
        None => None,
    };
    Some(MenuPanel { menu: at, split: import_menu_split_index(items), submenu: shown })
}

/// How many of the items that scroll are shown at once.
pub fn visible_import_items(scrolling: usize) -> (r: usize)
    ensures
        r == (if scrolling < SCROLLABLE_IMPORT_MENU_VISIBLE_ITEMS {
            scrolling
        } else {
            SCROLLABLE_IMPORT_MENU_VISIBLE_ITEMS
        }),
{
    if scrolling < SCROLLABLE_IMPORT_MENU_VISIBLE_ITEMS {
        scrolling
    } else {
        SCROLLABLE_IMPORT_MENU_VISIBLE_ITEMS
    }
}

/// Whether a character takes the room of two.
pub fn is_wide_menu_char(ch: char) -> (r: bool)
    ensures
        r == wide(ch),
{
    let u: u32 = ch as u32;
    (0x1100 <= u && u <= 0x11ff) || (0x2e80 <= u && u <= 0xa4cf) || (0xac00 <= u && u <= 0xd7a3)
        || (0xf900 <= u && u <= 0xfaff) || (0xfe10 <= u && u <= 0xfe6f) || (0xff00 <= u && u
        <= 0xff60) || (0xffe0 <= u && u <= 0xffe6)
}

fn classify(ch: char) -> (r: LabelChar)
    ensures
        r == label_char(ch),
{
    if ch == ' ' || ch == '\t' || ch == '\n' || ch == '\r' || ch as u32 == 0x0c {
        LabelChar::Space
    } else if ('!' <= ch && ch <= '/') || (':' <= ch && ch <= '@') || ('[' <= ch && ch <= '`') || (
    '{' <= ch && ch <= '~') {
        LabelChar::Punctuation
    } else if ch as u32 <= 0x7f {
        LabelChar::Ascii
    } else if is_wide_menu_char(ch) {
        LabelChar::Wide
    } else {
        LabelChar::Other
    }
}

/// How wide the characters of a label are taken to be.
pub fn menu_label_chars(label: &str) -> (r: Vec<LabelChar>)
    ensures
        r@ == Seq::new(label@.len(), |i: int| label_char(label@[i])),
{
    let cs = text::chars_of(label);
    let mut out: Vec<LabelChar> = Vec::new();
    let mut i: usize = 0;
    while i < cs.len()
        invariant
            i <= cs@.len(),
            cs@ == label@,
            out@.len() == i,
            forall|k: int| 0 <= k < i ==> #[trigger] out@[k] == label_char(cs@[k]),
        decreases cs@.len() - i,
    {
        out.push(classify(cs[i]));
        i = i + 1;
    }
    assert(out@ =~= Seq::new(label@.len(), |i: int| label_char(label@[i])));
    out
}

/// Whether the menus are shown inside the window.
pub fn supports_in_window_menu_for_target_os(target_os: &str) -> (r: bool)
    ensures
        r == menu_in_window(target_os@),
{
    !text::same_text(target_os, "macos")
}

/// The height of the menu bar inside the window: none where it is not shown.
pub fn in_window_menu_bar_height_for_target_os<T>(
    target_os: &str,
    has_menus: bool,
    menu_bar_height: T,
    no_height: T,
) -> (r: T)
    ensures
        r == (if has_menus && menu_in_window(target_os@) {
            menu_bar_height
        } else {
            no_height
        }),
{
    if has_menus && supports_in_window_menu_for_target_os(target_os) {
        menu_bar_height
    } else {
        no_height
    }
}

fn owned(a: &[&str]) -> (r: Vec<String>)
    ensures
        text::texts(r@) == Seq::new(a@.len(), |i: int| a@[i]@),
{
    let mut out: Vec<String> = Vec::new();
    let mut i: usize = 0;
    while i < a.len()
        invariant
            i <= a@.len(),
            out@.len() == i,
            forall|k: int| 0 <= k < i ==> (#[trigger] out@[k])@ == a@[k]@,
        decreases a@.len() - i,
    {
        out.push(String::from_str(a[i]));
        i = i + 1;
    }
    assert(text::texts(out@) =~= Seq::new(a@.len(), |i: int| a@[i]@));
    out
}

/// The font families with Tibetan characters, those that a platform brings first.
pub fn tibetan_font_fallbacks_for_target_os(target_os: &str) -> (r: Vec<String>)
    ensures
        text::texts(r@) == tibetan_families(target_os@),
{
    let r = if text::same_text(target_os, "windows") {
        owned(
            &[
                "Microsoft Himalaya",
                "Noto Serif Tibetan",
                "Noto Sans Tibetan",
                "BabelStone Tibetan",
            ],
        )
    } else if text::same_text(target_os, "macos") {
        owned(&["Kailasa", "Noto Serif Tibetan", "Noto Sans Tibetan"])
    } else {
        owned(
            &[
                "Noto Serif Tibetan",
                "Noto Sans Tibetan",
                "Microsoft Himalaya",
                "Kailasa",
                "BabelStone Tibetan",
            ],
        )
    };
    assert(text::texts(r@) =~= tibetan_families(target_os@));
    r
}

/// The font of the editor's text: the platform's own, with those for Tibetan
/// characters behind it.
pub fn editor_text_font(target_os: &str) -> (r: TextFont)
    ensures
        r.family@ == ".SystemUIFont"@,
        text::texts(r.fallbacks@) == tibetan_families(target_os@),
{
    TextFont {
        family: String::from_str(".SystemUIFont"),
        fallbacks: tibetan_font_fallbacks_for_target_os(target_os),
    }
}

} // verus!
