//! Undo captures and selection snapshots.
//!
//! A capture holds the document's Markdown and the selection in it before an
//! edit. It enters the undo history once the edit has changed the Markdown.

use crate::editor;
use crate::editor::{
    DocBlock, EditTarget, Editor, EditorView, HistoryEntry, HistoryView, SelectionSnapshotKey,
    UndoCaptureKind, UndoSelectionSnapshot, ViewMode,
};
use crate::text;
use vstd::prelude::*;

verus! {

/// How the text of a block or cell lies in the document's Markdown. Offsets in
/// the two tables count from the start of the block's source range.
#[derive(Debug, PartialEq, Eq)]
pub struct SourceTargetMapping {
    pub entity_id: u64,
    pub source_start: usize,
    pub source_end: usize,
    pub content_to_source: Vec<usize>,
    pub source_to_content: Vec<usize>,
}

/// Whether a mapping's tables cover its source range.
pub open spec fn mapping_ok(m: SourceTargetMapping) -> bool {
    &&& m.source_start <= m.source_end
    &&& m.content_to_source@.len() > 0
    &&& m.source_to_content@.len() == m.source_end - m.source_start + 1
    &&& forall|i: int|
        0 <= i < m.content_to_source@.len() ==> #[trigger] m.content_to_source@[i] <= m.source_end
            - m.source_start
}

/// A block that the document no longer holds, as the view still has it. Events can
/// come from it, and a drag can be one of its columns.
#[derive(Debug, PartialEq, Eq)]
pub struct GoneBlock {
    pub block: DocBlock,
    /// Whether it lay in a quote when it was last laid out.
    pub in_quote: bool,
    /// Whether it was drawn with a group of quoted blocks then.
    pub in_quote_group: bool,
    /// The first block under it.
    pub first_child: Option<u64>,
}

/// What the serializer and the view say of a document.
#[derive(Debug, PartialEq, Eq)]
pub struct DocumentFacts {
    /// The document's Markdown.
    pub source: String,
    /// A number that changes with the document's content.
    pub content_fingerprint: u64,
    /// The selection that spans blocks, in the Markdown, if there is one.
    pub cross_block: Option<UndoSelectionSnapshot>,
    /// Whether a selection that spans blocks could be restored by the view.
    pub cross_block_restored: bool,
    /// The selection in the first block of the document.
    pub first_root: Option<EditTarget>,
    /// The selection in the block or cell that is being edited.
    pub target: Option<EditTarget>,
    /// The selection in that block as offsets into its Markdown.
    pub content_start: usize,
    pub content_end: usize,
    /// How the texts of the blocks and cells lie in the Markdown.
    pub mappings: Vec<SourceTargetMapping>,
    /// The first block or cell that can take the focus.
    pub first_focusable: Option<u64>,
    /// The blocks that are no longer in the document but still heard of. One that is
    /// not among them counts as an empty paragraph.
    pub gone: Vec<GoneBlock>,
}

/// The first of the gone blocks at or after `from` with this id.
pub open spec fn gone_from(gone: Seq<GoneBlock>, id: u64, from: int) -> Option<int>
    decreases gone.len() - from,
{
    if from < 0 || from >= gone.len() {
        None
    } else if gone[from].block.id == id {
        Some(from)
    } else {
        gone_from(gone, id, from + 1)
    }
}

/// The gone block with this id.
pub open spec fn gone_block(facts: DocumentFacts, id: u64) -> Option<GoneBlock> {
    match gone_from(facts.gone@, id, 0) {
        Some(k) => Some(facts.gone@[k]),
        None => None,
    }
}

/// Whether every mapping's tables cover its source range.
pub open spec fn facts_ok(facts: DocumentFacts) -> bool {
    forall|i: int| 0 <= i < facts.mappings@.len() ==> mapping_ok(#[trigger] facts.mappings@[i])
}

/// The smaller of two numbers.
pub open spec fn at_most(a: int, b: int) -> int {
    if a <= b {
        a
    } else {
        b
    }
}

/// The first mapping of a block at or after `from`.
pub open spec fn mapping_of(mappings: Seq<SourceTargetMapping>, id: u64, from: int) -> Option<int>
    decreases mappings.len() - from,
{
    if from < 0 || from >= mappings.len() {
        None
    } else if mappings[from].entity_id == id {
        Some(from)
    } else {
        mapping_of(mappings, id, from + 1)
    }
}

/// The place in the Markdown of an offset into a block's content.
pub open spec fn source_offset(m: SourceTargetMapping, offset: int) -> int {
    m.source_start + m.content_to_source@[at_most(offset, m.content_to_source@.len() - 1)]
}

/// The selection in the Markdown. Where the block being edited is not known or
/// has no mapping, it is the last one that was.
pub open spec fn selection_snapshot(s: EditorView, facts: DocumentFacts) -> UndoSelectionSnapshot {
    if facts.cross_block is Some {
        facts.cross_block->0
    } else if s.view_mode == ViewMode::Source {
        match facts.first_root {
            Some(root) => UndoSelectionSnapshot {
                start: root.start,
                end: root.end,
                reversed: root.reversed,
            },
            None => editor::no_selection(),
        }
    } else {
        match facts.target {
            None => s.history.last_selection,
            Some(target) => match mapping_of(facts.mappings@, target.entity_id, 0) {
                None => s.history.last_selection,
                Some(i) => UndoSelectionSnapshot {
                    start: source_offset(facts.mappings@[i], facts.content_start as int) as usize,
                    end: source_offset(facts.mappings@[i], facts.content_end as int) as usize,
                    reversed: target.reversed,
                },
            },
        }
    }
}

/// What a cached selection snapshot depends on, given the document's fingerprint
/// and the selection in the block that is being edited.
pub open spec fn key_with(
    s: EditorView,
    content_fingerprint: u64,
    target: Option<EditTarget>,
) -> SelectionSnapshotKey {
    SelectionSnapshotKey {
        content_fingerprint,
        target,
        view_mode: s.view_mode,
        cross_block_selection: s.selection.cross_block,
    }
}

/// What a cached selection snapshot depends on.
pub open spec fn snapshot_key(s: EditorView, facts: DocumentFacts) -> SelectionSnapshotKey {
    key_with(s, facts.content_fingerprint, facts.target)
}

/// The state with a new selection snapshot, if what the cached one depends on has
/// changed.
pub open spec fn refreshed(s: EditorView, facts: DocumentFacts) -> EditorView {
    if s.history.last_selection_key == Some(snapshot_key(s, facts)) {
        s
    } else {
        EditorView {
            history: HistoryView {
                last_selection: selection_snapshot(s, facts),
                last_selection_key: Some(snapshot_key(s, facts)),
                ..s.history
            },
            ..s
        }
    }
}

/// The history entry of the document as it is.
pub open spec fn current_entry(
    s: EditorView,
    kind: UndoCaptureKind,
    facts: DocumentFacts,
    now: u64,
) -> HistoryEntry<Seq<char>> {
    HistoryEntry {
        source_text: facts.source@,
        selection: selection_snapshot(s, facts),
        timestamp: now,
        kind,
    }
}

/// The history entry of the document as it was when it was last stable.
pub open spec fn stable_entry(s: EditorView, kind: UndoCaptureKind, now: u64) -> HistoryEntry<
    Seq<char>,
> {
    HistoryEntry {
        source_text: s.history.last_stable_source,
        selection: s.history.last_selection,
        timestamp: now,
        kind,
    }
}

/// The state with an undo capture begun, unless one is already, or history is
/// being restored.
pub open spec fn capturing(s: EditorView, entry: HistoryEntry<Seq<char>>) -> EditorView {
    if s.history.restore_in_progress || s.history.pending_capture is Some {
        s
    } else {
        EditorView { history: HistoryView { pending_capture: Some(entry), ..s.history }, ..s }
    }
}

/// The state with the document as it is taken as stable.
pub open spec fn stabilized(s: EditorView, facts: DocumentFacts) -> EditorView {
    EditorView {
        history: HistoryView {
            last_selection: selection_snapshot(s, facts),
            last_selection_key: None,
            last_stable_source: facts.source@,
            ..s.history
        },
        ..s
    }
}

/// Whether an edit belongs to the same stretch of typing as the last entry.
pub open spec fn merges(s: EditorView, entry: HistoryEntry<Seq<char>>) -> bool {
    &&& entry.kind == UndoCaptureKind::CoalescibleText
    &&& s.history.undo.len() > 0
    &&& s.history.undo.last().kind == UndoCaptureKind::CoalescibleText
    &&& entry.timestamp <= s.history.undo.last().timestamp || entry.timestamp
        - s.history.undo.last().timestamp <= s.history.coalesce_window
}

/// The newest entries, as many as the limit allows.
pub open spec fn newest(
    entries: Seq<HistoryEntry<Seq<char>>>,
    limit: int,
) -> Seq<HistoryEntry<Seq<char>>> {
    if entries.len() > limit {
        entries.skip(entries.len() - limit)
    } else {
        entries
    }
}

/// The state with the pending undo capture closed. It enters the history if the
/// Markdown has changed since it was begun; redo is no longer possible then.
pub open spec fn finalized(s: EditorView, facts: DocumentFacts) -> EditorView {
    let closed = EditorView {
        history: HistoryView { pending_capture: None, ..s.history },
        ..s
    };
    if s.history.restore_in_progress {
        closed
    } else {
        match s.history.pending_capture {
            None => stabilized(s, facts),
            Some(entry) => if entry.source_text == facts.source@ {
                stabilized(closed, facts)
            } else {
                stabilized(
                    EditorView {
                        history: HistoryView {
                            redo: Seq::empty(),
                            undo: if merges(s, entry) {
                                s.history.undo
                            } else {
                                newest(s.history.undo.push(entry), s.history.limit as int)
                            },
                            ..closed.history
                        },
                        ..closed
                    },
                    facts,
                )
            },
        }
    }
}

// ---------------------------------------------------------------------------
// Laws
// ---------------------------------------------------------------------------

/// A frame in which nothing has changed keeps the selection snapshot: the document
/// need not be written as Markdown for it.
pub proof fn an_idle_frame_keeps_the_snapshot(s: EditorView, facts: DocumentFacts)
    requires
        s.history.last_selection_key == Some(
            key_with(s, facts.content_fingerprint, facts.target),
        ),
    ensures
        refreshed(s, facts) == s,
{
}

/// Once a snapshot is taken, the frames that follow keep it for as long as the
/// document and the selection in it stay.
pub proof fn a_fresh_snapshot_lasts(s: EditorView, facts: DocumentFacts, later: DocumentFacts)
    requires
        facts.content_fingerprint == later.content_fingerprint,
        facts.target == later.target,
    ensures
        refreshed(refreshed(s, facts), later) == refreshed(s, facts),
{
}

/// The undo history never grows beyond its limit.
pub proof fn history_stays_within_its_limit(s: EditorView, facts: DocumentFacts)
    requires
        s.history.undo.len() <= s.history.limit,
    ensures
        finalized(s, facts).history.undo.len() <= s.history.limit,
{
}

/// An edit that leaves the Markdown as it was adds nothing to the history and
/// keeps redo possible.
pub proof fn an_edit_without_effect_leaves_no_trace(s: EditorView, facts: DocumentFacts)
    requires
        s.history.pending_capture matches Some(entry) ==> entry.source_text == facts.source@,
    ensures
        finalized(s, facts).history.undo == s.history.undo,
        finalized(s, facts).history.redo == s.history.redo,
{
}

/// An edit that changes the Markdown makes redo impossible.
pub proof fn a_fresh_edit_clears_redo(s: EditorView, facts: DocumentFacts)
    requires
        !s.history.restore_in_progress,
        s.history.pending_capture matches Some(entry) && entry.source_text != facts.source@,
    ensures
        finalized(s, facts).history.redo.len() == 0,
{
}

/// Typing on within the coalescing window adds no further step to the history.
pub proof fn typing_within_the_window_is_one_step(s: EditorView, facts: DocumentFacts)
    requires
        s.history.pending_capture matches Some(entry) && entry.kind
            == UndoCaptureKind::CoalescibleText && s.history.undo.len() > 0
            && s.history.undo.last().kind == UndoCaptureKind::CoalescibleText && entry.timestamp
            - s.history.undo.last().timestamp <= s.history.coalesce_window,
    ensures
        finalized(s, facts).history.undo == s.history.undo,
{
}

/// An edit that starts a step puts the document before it on top of the history.
pub proof fn an_edit_can_be_undone(s: EditorView, facts: DocumentFacts)
    requires
        !s.history.restore_in_progress,
        s.history.limit > 0,
        s.history.pending_capture matches Some(entry) && entry.source_text != facts.source@ && !merges(
            s,
            entry,
        ),
    ensures
        finalized(s, facts).history.undo.len() > 0,
        Some(finalized(s, facts).history.undo.last()) == s.history.pending_capture,
{
}

/// An edit becomes a step of its own, on top of the history and behind all earlier
/// steps, where there is no step yet, where it or the newest step is no typing, or where
/// it came later than the coalescing window allows. Only a full history loses its oldest
/// steps.
pub proof fn an_edit_apart_is_a_step_of_its_own(
    s: EditorView,
    entry: HistoryEntry<Seq<char>>,
    facts: DocumentFacts,
)
    requires
        !s.history.restore_in_progress,
        s.history.limit > 0,
        s.history.pending_capture == Some(entry),
        entry.source_text != facts.source@,
        s.history.undo.len() == 0 || entry.kind == UndoCaptureKind::NonCoalescible
            || s.history.undo[s.history.undo.len() - 1].kind == UndoCaptureKind::NonCoalescible
            || entry.timestamp > s.history.undo[s.history.undo.len() - 1].timestamp
            + s.history.coalesce_window,
    ensures
        ({
            let before = s.history.undo;
            let after = finalized(s, facts).history;
            let kept = after.undo.len() - 1;
            &&& after.undo.len() > 0
            &&& after.undo[after.undo.len() - 1] == entry
            &&& before.len() < s.history.limit ==> kept == before.len()
            &&& before.len() >= s.history.limit ==> kept == s.history.limit - 1
            &&& forall|k: int|
                0 <= k < kept ==> #[trigger] after.undo[k] == before[before.len() - kept + k]
            &&& after.redo.len() == 0
            &&& after.pending_capture is None
            &&& after.last_stable_source == facts.source@
        }),
{
}

/// Typing that follows typing within the coalescing window is part of the step before
/// it: the history keeps the document before that step, and nothing can be redone.
pub proof fn typing_on_joins_the_step_before(
    s: EditorView,
    entry: HistoryEntry<Seq<char>>,
    facts: DocumentFacts,
)
    requires
        !s.history.restore_in_progress,
        s.history.pending_capture == Some(entry),
        entry.source_text != facts.source@,
        s.history.undo.len() > 0,
        entry.kind == UndoCaptureKind::CoalescibleText,
        s.history.undo[s.history.undo.len() - 1].kind == UndoCaptureKind::CoalescibleText,
        entry.timestamp <= s.history.undo[s.history.undo.len() - 1].timestamp
            + s.history.coalesce_window,
    ensures
        finalized(s, facts).history.undo == s.history.undo,
        finalized(s, facts).history.redo.len() == 0,
        finalized(s, facts).history.pending_capture is None,
        finalized(s, facts).history.last_stable_source == facts.source@,
{
}

/// A capture that is begun holds the document's Markdown and the time and kind of the
/// edit, and it stays as it is until it is closed. Beginning one changes nothing else.
pub proof fn the_first_capture_counts(
    s: EditorView,
    kind: UndoCaptureKind,
    facts: DocumentFacts,
    now: u64,
    later_kind: UndoCaptureKind,
    later_facts: DocumentFacts,
    later: u64,
)
    requires
        !s.history.restore_in_progress,
        s.history.pending_capture is None,
    ensures
        ({
            let once = capturing(s, current_entry(s, kind, facts, now));
            let again = capturing(once, current_entry(once, later_kind, later_facts, later));
            &&& once.history.pending_capture matches Some(entry) && entry.source_text
                == facts.source@ && entry.kind == kind && entry.timestamp == now
            &&& once.history.undo == s.history.undo
            &&& once.history.redo == s.history.redo
            &&& once.document == s.document
            &&& again == once
        }),
        ({
            let once = capturing(s, stable_entry(s, kind, now));
            let again = capturing(once, stable_entry(once, later_kind, later));
            &&& once.history.pending_capture matches Some(entry) && entry.source_text
                == s.history.last_stable_source && entry.selection == s.history.last_selection
                && entry.kind == kind && entry.timestamp == now
            &&& once.history.undo == s.history.undo
            &&& once.history.redo == s.history.redo
            &&& once.document == s.document
            &&& again == once
        }),
{
}

/// While history is restored nothing is captured, and closing a capture adds no step.
pub proof fn restoring_leaves_no_step(
    s: EditorView,
    entry: HistoryEntry<Seq<char>>,
    facts: DocumentFacts,
)
    requires
        s.history.restore_in_progress,
    ensures
        capturing(s, entry) == s,
        finalized(s, facts).history.undo == s.history.undo,
        finalized(s, facts).history.redo == s.history.redo,
        finalized(s, facts).history.pending_capture is None,
{
}

// ---------------------------------------------------------------------------
// Running code
// ---------------------------------------------------------------------------

fn min_usize(a: usize, b: usize) -> (r: usize)
    ensures
        r == at_most(a as int, b as int),
{
    if a <= b {
        a
    } else {
        b
    }
}

fn find_mapping(mappings: &Vec<SourceTargetMapping>, id: u64) -> (r: Option<usize>)
    ensures
        r matches Some(i) ==> mapping_of(mappings@, id, 0) == Some(i as int) && i < mappings@.len(),
        r is None ==> mapping_of(mappings@, id, 0) is None,
{
    let mut i: usize = 0;
    while i < mappings.len()
        invariant
            i <= mappings@.len(),
            mapping_of(mappings@, id, 0) == mapping_of(mappings@, id, i as int),
        decreases mappings@.len() - i,
    {
        if mappings[i].entity_id == id {
            return Some(i);
        }
        i = i + 1;
    }
    None
}

/// The place among the gone blocks of the one with this id.
pub fn find_gone(facts: &DocumentFacts, id: u64) -> (r: Option<usize>)
    ensures
        r matches Some(k) ==> k < facts.gone@.len() && gone_block(*facts, id) == Some(
            facts.gone@[k as int],
        ),
        r is None ==> gone_block(*facts, id) is None,
{
    let mut k: usize = 0;
    while k < facts.gone.len()
        invariant
            k <= facts.gone@.len(),
            gone_from(facts.gone@, id, 0) == gone_from(facts.gone@, id, k as int),
        decreases facts.gone@.len() - k,
    {
        if facts.gone[k].block.id == id {
            return Some(k);
        }
        k = k + 1;
    }
    None
}

fn locate_offset(m: &SourceTargetMapping, offset: usize) -> (r: usize)
    requires
        mapping_ok(*m),
    ensures
        r == source_offset(*m, offset as int),
{
    let last: usize = m.content_to_source.len() - 1;
    let local: usize = m.content_to_source[min_usize(offset, last)];
    m.source_start + local
}

impl HistoryEntry<String> {
    /// The same entry again.
    pub fn duplicate(&self) -> (r: Self)
        ensures
            r@ == self@,
    {
        HistoryEntry {
            source_text: self.source_text.clone(),
            selection: self.selection,
            timestamp: self.timestamp,
            kind: self.kind,
        }
    }
}

impl Editor {
    /// The snapshot of no selection.
    pub fn empty_selection_snapshot() -> (r: UndoSelectionSnapshot)
        ensures
            r == editor::no_selection(),
    {
        UndoSelectionSnapshot { start: 0, end: 0, reversed: false }
    }

    /// Takes a new selection snapshot if what it depends on has changed.
    pub fn refresh_selection_snapshot_if_stale(&mut self, facts: &DocumentFacts)
        requires
            facts_ok(*facts),
        ensures
            final(self)@ == refreshed(old(self)@, *facts),
    {
        if !self.selection_is_stale(facts.content_fingerprint, &facts.target) {
            return;
        }
        let key = self.selection_snapshot_key(facts);
        self.history.last_selection = self.capture_source_selection_snapshot(facts);
        self.history.last_selection_key = Some(key);
    }

    /// Whether the cached selection snapshot is to be taken anew. What it takes to
    /// tell is known without writing the document as Markdown.
    pub fn selection_is_stale(&self, content_fingerprint: u64, target: &Option<EditTarget>) -> (r:
        bool)
        ensures
            r == (self@.history.last_selection_key != Some(
                key_with(self@, content_fingerprint, *target),
            )),
    {
        let key = SelectionSnapshotKey {
            content_fingerprint,
            target: *target,
            view_mode: self.view_mode,
            cross_block_selection: self.selection.cross_block,
        };
        match self.history.last_selection_key {
            Some(last) => last != key,
            None => true,
        }
    }

    /// What a cached selection snapshot depends on.
    pub fn selection_snapshot_key(&self, facts: &DocumentFacts) -> (r: SelectionSnapshotKey)
        ensures
            r == snapshot_key(self@, *facts),
    {
        SelectionSnapshotKey {
            content_fingerprint: facts.content_fingerprint,
            target: facts.target,
            view_mode: self.view_mode,
            cross_block_selection: self.selection.cross_block,
        }
    }

    /// The selection in the document's Markdown.
    pub fn capture_source_selection_snapshot(&self, facts: &DocumentFacts) -> (r:
        UndoSelectionSnapshot)
        requires
            facts_ok(*facts),
        ensures
            r == selection_snapshot(self@, *facts),
    {
        if let Some(snapshot) = facts.cross_block {
            return snapshot;
        }
        if self.view_mode == ViewMode::Source {
            return match facts.first_root {
                Some(root) => UndoSelectionSnapshot {
                    start: root.start,
                    end: root.end,
                    reversed: root.reversed,
                },
                None => Self::empty_selection_snapshot(),
            };
        }
        let target = match facts.target {
            Some(target) => target,
            None => {
                return self.history.last_selection;
            },
        };
        match find_mapping(&facts.mappings, target.entity_id) {
            None => self.history.last_selection,
            Some(i) => {
                let mapping = &facts.mappings[i];
                UndoSelectionSnapshot {
                    start: locate_offset(mapping, facts.content_start),
                    end: locate_offset(mapping, facts.content_end),
                    reversed: target.reversed,
                }
            },
        }
    }

    /// The history entry of the document as it is.
    pub fn capture_history_entry(
        &self,
        kind: UndoCaptureKind,
        facts: &DocumentFacts,
        now: u64,
    ) -> (r: HistoryEntry<String>)
        requires
            facts_ok(*facts),
        ensures
            r@ == current_entry(self@, kind, *facts, now),
    {
        HistoryEntry {
            source_text: facts.source.clone(),
            selection: self.capture_source_selection_snapshot(facts),
            timestamp: now,
            kind,
        }
    }

    /// The history entry of the document as it was when it was last stable.
    pub fn capture_stable_history_entry(&self, kind: UndoCaptureKind, now: u64) -> (r: HistoryEntry<
        String,
    >)
        ensures
            r@ == stable_entry(self@, kind, now),
    {
        HistoryEntry {
            source_text: self.history.last_stable_source.clone(),
            selection: self.history.last_selection,
            timestamp: now,
            kind,
        }
    }

    /// Begins an undo capture of the document as it is.
    pub fn prepare_undo_capture(&mut self, kind: UndoCaptureKind, facts: &DocumentFacts, now: u64)
        requires
            facts_ok(*facts),
        ensures
            final(self)@ == capturing(old(self)@, current_entry(old(self)@, kind, *facts, now)),
    {
        if self.history.restore_in_progress || self.history.pending_capture.is_some() {
            return;
        }
        self.history.pending_capture = Some(self.capture_history_entry(kind, facts, now));
    }

    /// Begins an undo capture of the document as it was when it was last stable.
    pub fn prepare_undo_capture_from_stable_snapshot(&mut self, kind: UndoCaptureKind, now: u64)
        ensures
            final(self)@ == capturing(old(self)@, stable_entry(old(self)@, kind, now)),
    {
        if self.history.restore_in_progress || self.history.pending_capture.is_some() {
            return;
        }
        self.history.pending_capture = Some(self.capture_stable_history_entry(kind, now));
    }

    /// Takes the document as it is as stable.
    pub fn refresh_stable_document_snapshot(&mut self, facts: &DocumentFacts)
        requires
            facts_ok(*facts),
        ensures
            final(self)@ == stabilized(old(self)@, *facts),
    {
        self.history.last_selection = self.capture_source_selection_snapshot(facts);
        self.history.last_selection_key = None;
        self.history.last_stable_source = facts.source.clone();
    }

    /// Closes the pending undo capture. `facts` are those of the document after
    /// the edit.
    pub fn finalize_pending_undo_capture(&mut self, facts: &DocumentFacts)
        requires
            facts_ok(*facts),
        ensures
            final(self)@ == finalized(old(self)@, *facts),
    {
        if self.history.restore_in_progress {
            self.history.pending_capture = None;
            return;
        }
        let pending = match self.history.pending_capture.take() {
            Some(entry) => entry,
            None => {
                self.refresh_stable_document_snapshot(facts);
                return;
            },
        };
        if text::same_text(facts.source.as_str(), pending.source_text.as_str()) {
            self.refresh_stable_document_snapshot(facts);
            return;
        }
        self.history.redo.clear();
        let should_merge = pending.kind == UndoCaptureKind::CoalescibleText
            && self.history.undo.len() > 0 && {
            let last = &self.history.undo[self.history.undo.len() - 1];
            last.kind == UndoCaptureKind::CoalescibleText && (pending.timestamp <= last.timestamp
                || pending.timestamp - last.timestamp <= self.history.coalesce_window)
        };
        let ghost undo0 = self.history.undo@;
        let ghost entry0 = pending@;
        assert(self@.history.redo =~= Seq::empty());
        if !should_merge {
            self.history.undo.push(pending);
            proof {
                assert(editor::history_views(undo0.push(pending)) =~= editor::history_views(
                    undo0,
                ).push(entry0));
            }
            if self.history.undo.len() > self.history.limit {
                let overflow: usize = self.history.undo.len() - self.history.limit;
                let kept = self.history.undo.split_off(overflow);
                self.history.undo = kept;
            }
            assert(self@.history.undo =~= newest(
                editor::history_views(undo0).push(entry0),
                self.history.limit as int,
            ));
        }
        self.refresh_stable_document_snapshot(facts);
    }

    /// Whether an offset lies in a source range, its ends being part of it.
    pub fn source_range_contains(start: usize, end: usize, offset: usize) -> (r: bool)
        ensures
            r == range_holds(start as int, end as int, offset as int),
    {
        if start == end {
            offset == start
        } else {
            offset >= start && offset <= end
        }
    }

    /// How far an offset lies from a source range.
    pub fn source_offset_distance(start: usize, end: usize, offset: usize) -> (r: usize)
        ensures
            r == range_distance(start as int, end as int, offset as int),
    {
        if Self::source_range_contains(start, end, offset) {
            0
        } else if offset < start {
            start - offset
        } else if offset >= end {
            offset - end
        } else {
            0
        }
    }
}

/// Whether an offset lies in a source range, its ends being part of it.
pub open spec fn range_holds(start: int, end: int, offset: int) -> bool {
    start <= offset <= end
}

/// How far an offset lies from a source range.
pub open spec fn range_distance(start: int, end: int, offset: int) -> int {
    if range_holds(start, end, offset) {
        0
    } else if offset < start {
        start - offset
    } else if offset >= end {
        offset - end
    } else {
        0
    }
}

/// An offset lies at distance zero from a range exactly when the range holds it.
pub proof fn only_held_offsets_are_at_distance_zero(start: int, end: int, offset: int)
    requires
        start <= end,
    ensures
        range_distance(start, end, offset) >= 0,
        range_distance(start, end, offset) == 0 <==> range_holds(start, end, offset),
{
}

/// Distances count from the nearer end of a range, and within the range there is none.
pub proof fn distances_count_from_the_nearer_end(start: int, end: int, steps: nat)
    requires
        start <= end,
        steps > 0,
    ensures
        range_distance(start, end, start - steps) == steps,
        range_distance(start, end, end + steps) == steps,
        !range_holds(start, end, start - steps),
        !range_holds(start, end, end + steps),
        range_holds(start, end, start),
        range_holds(start, end, end),
        forall|offset: int|
            start <= offset <= end ==> #[trigger] range_holds(start, end, offset) && range_distance(
                start,
                end,
                offset,
            ) == 0,
{
}

} // verus!
