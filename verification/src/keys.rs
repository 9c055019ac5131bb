//! What the tab key does.

use crate::blocks::BlockKind;
use crate::document;
use crate::document::find_index;
use crate::editor::{Editor, EditorView};
use crate::kinds;
use crate::targets;
use crate::targets::find_binding;
use crate::text;
use vstd::prelude::*;

verus! {

/// A key that was pressed, with what was held down.
#[derive(Debug, PartialEq, Eq)]
pub struct Keystroke {
    pub key: String,
    pub control: bool,
    pub platform: bool,
    pub alt: bool,
    pub function: bool,
    pub shift: bool,
}

/// What has the keyboard's focus in a block or cell.
#[derive(Clone, Copy, Debug, PartialEq, Eq, Structural)]
pub struct KeyFocus {
    pub entity_id: u64,
    /// The focus is in the field for the language of a code block.
    pub in_language_field: bool,
}

/// What becomes of a keystroke.
#[derive(Clone, Copy, Debug, PartialEq, Eq, Structural)]
pub enum TabAction {
    /// Others may handle it.
    PassOn,
    /// Nothing happens, and nobody else handles it.
    Swallow,
    Indent(u64),
    Outdent(u64),
}

/// Whether a keystroke is the tab key, with at most shift held down.
pub open spec fn plain_tab(stroke: Keystroke) -> bool {
    stroke.key@ == "tab"@ && !stroke.control && !stroke.platform && !stroke.alt
        && !stroke.function
}

/// Whether the tab key indents in a block or cell.
pub open spec fn takes_tab(s: EditorView, id: u64) -> bool {
    targets::binding_of(s.document, id) is Some || match document::index_of(s.document, id) {
        Some(i) => kinds::handles_tab(s.document[i].kind),
        None => false,
    }
}

/// What becomes of a keystroke.
pub open spec fn tab_action(s: EditorView, stroke: Keystroke, focus: Option<KeyFocus>) -> TabAction {
    match focus {
        None => TabAction::PassOn,
        Some(f) => if !plain_tab(stroke) {
            TabAction::PassOn
        } else if f.in_language_field {
            TabAction::Swallow
        } else if !takes_tab(s, f.entity_id) {
            TabAction::PassOn
        } else if stroke.shift {
            TabAction::Outdent(f.entity_id)
        } else {
            TabAction::Indent(f.entity_id)
        },
    }
}

impl Editor {
    /// Decides on a keystroke before the focused block sees it.
    pub fn on_editor_key_down_capture(&self, stroke: &Keystroke, focus: Option<KeyFocus>) -> (r:
        TabAction)
        ensures
            r == tab_action(self@, *stroke, focus),
    {
        if !text::same_text(stroke.key.as_str(), "tab") {
            return TabAction::PassOn;
        }
        if stroke.control || stroke.platform || stroke.alt || stroke.function {
            return TabAction::PassOn;
        }
        let focused: KeyFocus = match focus {
            Some(f) => f,
            None => {
                return TabAction::PassOn;
            },
        };
        if focused.in_language_field {
            return TabAction::Swallow;
        }
        let takes = find_binding(&self.document, focused.entity_id).is_some() || match find_index(
            &self.document,
            focused.entity_id,
        ) {
            Some(i) => self.document[i].kind.is_list_item() || matches!(
                self.document[i].kind,
                BlockKind::Paragraph | BlockKind::CodeBlock { .. }
            ),
            None => false,
        };
        if !takes {
            TabAction::PassOn
        } else if stroke.shift {
            TabAction::Outdent(focused.entity_id)
        } else {
            TabAction::Indent(focused.entity_id)
        }
    }
}

} // verus!
