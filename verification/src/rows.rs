//! How the visible blocks are laid out in rows.
//!
//! The blocks of a callout make up one row, and so do those of a footnote. Gaps are
//! of any type: the view measures in numbers of its own.

use crate::blocks::CalloutVariant;
use crate::document;
use crate::document::find_index;
use crate::editor::{Editor, Nodes};
use crate::targets;
use crate::targets::find_binding;
use vstd::prelude::*;

verus! {

/// What the spacing around a block depends on. An anchor names the group that a
/// block belongs to.
#[derive(Clone, Copy, Debug, Default, PartialEq, Eq, Structural)]
pub struct RenderedRowSpacingInfo {
    pub quote_group_anchor: Option<u128>,
    pub visible_quote_group_anchor: Option<u128>,
    pub callout_anchor: Option<u128>,
    pub callout_variant: Option<CalloutVariant>,
    pub is_callout_header: bool,
    pub footnote_anchor: Option<u128>,
    pub is_footnote_header: bool,
}

/// The gaps between the rows inside a callout.
#[derive(Debug, PartialEq, Eq)]
pub struct CalloutGaps<T> {
    pub callout_header_margin_bottom: T,
    pub callout_body_gap: T,
}

/// What a row shows.
#[derive(Clone, Copy, Debug, PartialEq, Eq, Structural)]
pub enum RowShape {
    /// A single block.
    Plain,
    /// The blocks of a footnote.
    Footnote,
    /// The blocks of a callout.
    Callout,
}

/// A row: the blocks from `start` up to `end`.
#[derive(Clone, Copy, Debug, PartialEq, Eq, Structural)]
pub struct RowSpan {
    pub start: usize,
    pub end: usize,
    pub shape: RowShape,
}

/// Whether two anchors name the same group.
pub open spec fn same_group(a: Option<u128>, b: Option<u128>) -> bool {
    a is Some && a == b
}

/// The block before the one at `index` in a group that begins at `start`.
pub open spec fn block_before(
    infos: Seq<RenderedRowSpacingInfo>,
    start: int,
    index: int,
) -> Option<RenderedRowSpacingInfo> {
    if index > start {
        Some(infos[index - 1])
    } else {
        None
    }
}

/// The gap above a row. Rows of one group of quotes stick together.
pub open spec fn row_gap<T>(
    previous: Option<RenderedRowSpacingInfo>,
    current: RenderedRowSpacingInfo,
    default_gap: T,
    no_gap: T,
) -> T {
    match previous {
        None => no_gap,
        Some(p) => if same_group(p.quote_group_anchor, current.quote_group_anchor) {
            no_gap
        } else {
            default_gap
        },
    }
}

/// The gap above a row inside a callout.
pub open spec fn callout_gap<T>(
    previous: Option<RenderedRowSpacingInfo>,
    current: RenderedRowSpacingInfo,
    gaps: CalloutGaps<T>,
    no_gap: T,
) -> T {
    match previous {
        None => no_gap,
        Some(p) => if same_group(
            p.visible_quote_group_anchor,
            current.visible_quote_group_anchor,
        ) {
            no_gap
        } else if p.is_callout_header {
            gaps.callout_header_margin_bottom
        } else {
            gaps.callout_body_gap
        },
    }
}

/// The gap above a row inside a footnote.
pub open spec fn footnote_gap<T>(
    previous: Option<RenderedRowSpacingInfo>,
    below_header: T,
    default_gap: T,
    no_gap: T,
) -> T {
    match previous {
        None => no_gap,
        Some(p) => if p.is_footnote_header {
            below_header
        } else {
            default_gap
        },
    }
}

// ---------------------------------------------------------------------------
// Grouping
// ---------------------------------------------------------------------------

/// Whether a block belongs to a callout, and to a footnote if one is given.
pub open spec fn belongs(
    info: RenderedRowSpacingInfo,
    callout: Option<u128>,
    footnote: Option<u128>,
) -> bool {
    (callout is Some ==> info.callout_anchor == callout) && (footnote is Some
        ==> info.footnote_anchor == footnote)
}

/// Where the blocks from `at` on cease to belong to a callout or footnote.
pub open spec fn group_end(
    infos: Seq<RenderedRowSpacingInfo>,
    callout: Option<u128>,
    footnote: Option<u128>,
    at: int,
) -> int
    decreases infos.len() - at,
{
    if 0 <= at < infos.len() && belongs(infos[at], callout, footnote) {
        group_end(infos, callout, footnote, at + 1)
    } else {
        at
    }
}

/// The row that begins with the block at `i`.
pub open spec fn row_at(infos: Seq<RenderedRowSpacingInfo>, i: int) -> RowSpan {
    let info = infos[i];
    if info.callout_anchor is Some && info.callout_variant is Some {
        RowSpan {
            start: i as usize,
            end: group_end(infos, info.callout_anchor, None, i + 1) as usize,
            shape: RowShape::Callout,
        }
    } else if info.footnote_anchor is Some {
        RowSpan {
            start: i as usize,
            end: group_end(infos, None, info.footnote_anchor, i + 1) as usize,
            shape: RowShape::Footnote,
        }
    } else {
        RowSpan { start: i as usize, end: (i + 1) as usize, shape: RowShape::Plain }
    }
}

/// The rows of the blocks from `i` on.
pub open spec fn rows_from(infos: Seq<RenderedRowSpacingInfo>, i: int) -> Seq<RowSpan>
    decreases infos.len() - i,
{
    if 0 <= i < infos.len() {
        let row = row_at(infos, i);
        if i < row.end <= infos.len() {
            seq![row] + rows_from(infos, row.end as int)
        } else {
            Seq::empty()
        }
    } else {
        Seq::empty()
    }
}

/// The row inside a callout that begins with the block at `i`.
pub open spec fn part_at(infos: Seq<RenderedRowSpacingInfo>, callout: Option<u128>, i: int) -> RowSpan {
    if infos[i].footnote_anchor is Some {
        RowSpan {
            start: i as usize,
            end: group_end(infos, callout, infos[i].footnote_anchor, i + 1) as usize,
            shape: RowShape::Footnote,
        }
    } else {
        RowSpan { start: i as usize, end: (i + 1) as usize, shape: RowShape::Plain }
    }
}

/// The rows inside a callout, for its blocks from `i` up to `end`.
pub open spec fn parts_from(
    infos: Seq<RenderedRowSpacingInfo>,
    callout: Option<u128>,
    i: int,
    end: int,
) -> Seq<RowSpan>
    decreases end - i,
{
    if 0 <= i < end {
        let part = part_at(infos, callout, i);
        if i < part.end <= end {
            seq![part] + parts_from(infos, callout, part.end as int, end)
        } else {
            Seq::empty()
        }
    } else {
        Seq::empty()
    }
}

/// Whether rows lie one behind the other, without a gap, from `from` up to `to`.
pub open spec fn tiles(rows: Seq<RowSpan>, from: int, to: int) -> bool
    decreases rows.len(),
{
    if rows.len() == 0 {
        from == to
    } else {
        &&& rows[0].start == from
        &&& from < rows[0].end
        &&& tiles(rows.drop_first(), rows[0].end as int, to)
    }
}

/// How many rows begin at or before a block.
pub open spec fn rows_up_to(rows: Seq<RowSpan>, index: int) -> nat
    decreases rows.len(),
{
    if rows.len() == 0 {
        0
    } else if rows[0].start <= index {
        1 + rows_up_to(rows.drop_first(), index)
    } else {
        0
    }
}

/// The row that a block lies in.
pub open spec fn row_of(rows: Seq<RowSpan>, index: int) -> int {
    let n = rows_up_to(rows, index);
    if n == 0 {
        0
    } else {
        n - 1
    }
}

/// The block that a focused block or cell is, or lies in.
pub open spec fn focus_index(nodes: Nodes, id: u64) -> Option<int> {
    match document::index_of(nodes, id) {
        Some(i) => Some(i),
        None => match targets::binding_of(nodes, id) {
            Some(binding) => Some(binding.0),
            None => None,
        },
    }
}

/// The ids of the blocks of a document.
pub open spec fn visible_ids(nodes: Nodes) -> Seq<u64> {
    Seq::new(nodes.len(), |i: int| nodes[i].id)
}

/// A group ends inside the document, holds the blocks that belong to it, and ends at
/// the first that does not.
pub proof fn lemma_group_end(
    infos: Seq<RenderedRowSpacingInfo>,
    callout: Option<u128>,
    footnote: Option<u128>,
    at: int,
)
    requires
        0 <= at <= infos.len(),
    ensures
        at <= group_end(infos, callout, footnote, at) <= infos.len(),
        forall|k: int|
            at <= k < group_end(infos, callout, footnote, at) ==> belongs(
                #[trigger] infos[k],
                callout,
                footnote,
            ),
        group_end(infos, callout, footnote, at) < infos.len() ==> !belongs(
            infos[group_end(infos, callout, footnote, at)],
            callout,
            footnote,
        ),
    decreases infos.len() - at,
{
    if at < infos.len() && belongs(infos[at], callout, footnote) {
        lemma_group_end(infos, callout, footnote, at + 1);
    }
}

proof fn lemma_row_at(infos: Seq<RenderedRowSpacingInfo>, i: int)
    requires
        0 <= i < infos.len() <= usize::MAX,
    ensures
        row_at(infos, i).start == i,
        i < row_at(infos, i).end <= infos.len(),
{
    lemma_group_end(infos, infos[i].callout_anchor, None, i + 1);
    lemma_group_end(infos, None, infos[i].footnote_anchor, i + 1);
}

proof fn lemma_rows(infos: Seq<RenderedRowSpacingInfo>, i: int)
    requires
        0 <= i <= infos.len() <= usize::MAX,
    ensures
        tiles(rows_from(infos, i), i, infos.len() as int),
    decreases infos.len() - i,
{
    if i < infos.len() {
        lemma_row_at(infos, i);
        let row = row_at(infos, i);
        lemma_rows(infos, row.end as int);
        assert(rows_from(infos, i).drop_first() =~= rows_from(infos, row.end as int));
    }
}

/// Every block lies in one row, and the rows keep the order of the blocks.
pub proof fn rows_cover_every_block(infos: Seq<RenderedRowSpacingInfo>)
    requires
        infos.len() <= usize::MAX,
    ensures
        tiles(rows_from(infos, 0), 0, infos.len() as int),
{
    lemma_rows(infos, 0);
}

/// The blocks of a row of several belong to the same callout or footnote, and the
/// block behind them does not.
pub proof fn rows_are_whole_groups(infos: Seq<RenderedRowSpacingInfo>, i: int, k: int)
    requires
        0 <= i < infos.len() <= usize::MAX,
        i <= k < infos.len(),
    ensures
        ({
            let row = row_at(infos, i);
            &&& row.shape == RowShape::Callout && k < row.end ==> infos[k].callout_anchor
                == infos[i].callout_anchor
            &&& row.shape == RowShape::Callout && k == row.end ==> infos[k].callout_anchor
                != infos[i].callout_anchor
            &&& row.shape == RowShape::Footnote && k < row.end ==> infos[k].footnote_anchor
                == infos[i].footnote_anchor
            &&& row.shape == RowShape::Footnote && k == row.end ==> infos[k].footnote_anchor
                != infos[i].footnote_anchor
        }),
{
    lemma_group_end(infos, infos[i].callout_anchor, None, i + 1);
    lemma_group_end(infos, None, infos[i].footnote_anchor, i + 1);
}

proof fn lemma_part_at(infos: Seq<RenderedRowSpacingInfo>, callout: Option<u128>, i: int, end: int)
    requires
        0 <= i < end <= infos.len() <= usize::MAX,
        callout is Some,
        end < infos.len() ==> infos[end].callout_anchor != callout,
    ensures
        part_at(infos, callout, i).start == i,
        i < part_at(infos, callout, i).end <= end,
{
    lemma_group_end(infos, callout, infos[i].footnote_anchor, i + 1);
}

/// The rows inside a callout cover its blocks.
pub proof fn parts_cover_the_callout(
    infos: Seq<RenderedRowSpacingInfo>,
    callout: Option<u128>,
    i: int,
    end: int,
)
    requires
        0 <= i <= end <= infos.len() <= usize::MAX,
        callout is Some,
        end < infos.len() ==> infos[end].callout_anchor != callout,
    ensures
        tiles(parts_from(infos, callout, i, end), i, end),
    decreases end - i,
{
    if i < end {
        lemma_part_at(infos, callout, i, end);
        let part = part_at(infos, callout, i);
        parts_cover_the_callout(infos, callout, part.end as int, end);
        assert(parts_from(infos, callout, i, end).drop_first() =~= parts_from(
            infos,
            callout,
            part.end as int,
            end,
        ));
    }
}

/// The row of a block holds it.
pub proof fn the_row_of_a_block_holds_it(rows: Seq<RowSpan>, from: int, to: int, index: int)
    requires
        tiles(rows, from, to),
        from <= index < to,
    ensures
        0 <= row_of(rows, index) < rows.len(),
        rows[row_of(rows, index)].start <= index < rows[row_of(rows, index)].end,
        1 <= rows_up_to(rows, index) <= rows.len(),
    decreases rows.len(),
{
    let rest = rows.drop_first();
    assert(tiles(rest, rows[0].end as int, to));
    if index < rows[0].end {
        if rest.len() > 0 {
            assert(rest[0].start == rows[0].end);
        }
        assert(rows_up_to(rest, index) == 0);
    } else {
        the_row_of_a_block_holds_it(rest, rows[0].end as int, to, index);
        assert(rest[row_of(rest, index)] == rows[row_of(rest, index) + 1]);
    }
}

// ---------------------------------------------------------------------------
// Mounting
// ---------------------------------------------------------------------------

/// The rows that were mounted, and where among the children of the column.
#[derive(Clone, Copy, Debug, PartialEq, Eq, Structural)]
pub struct MountedRun {
    pub row_start: usize,
    pub row_end: usize,
    pub child_base: usize,
    pub child_count: usize,
}

/// A child of the column.
#[derive(Clone, Copy, Debug, PartialEq, Eq, Structural)]
pub enum ColumnChild {
    /// Room for the rows before the focused one, where that lies outside the run.
    LeadSpacer,
    /// Room for the rows before the run.
    TopSpacer,
    /// Room for the rows behind the run.
    BottomSpacer,
    Row(usize),
}

/// Which rooms are high enough to need a child.
#[derive(Clone, Copy, Debug, PartialEq, Eq, Structural)]
pub struct SpacersShown {
    pub lead: bool,
    pub top: bool,
    pub bottom: bool,
}

/// A child, if it is shown.
pub open spec fn shown(child: ColumnChild, is_shown: bool) -> Seq<ColumnChild> {
    if is_shown {
        seq![child]
    } else {
        Seq::empty()
    }
}

/// The focused row with the room before it.
pub open spec fn island_children(island: Option<usize>, lead: bool) -> Seq<ColumnChild> {
    match island {
        Some(row) => shown(ColumnChild::LeadSpacer, lead) + seq![ColumnChild::Row(row)],
        None => Seq::empty(),
    }
}

/// The rows of a run.
pub open spec fn run_children(run_start: usize, run_end: usize) -> Seq<ColumnChild> {
    Seq::new(
        (if run_start <= run_end {
            run_end - run_start
        } else {
            0
        }) as nat,
        |k: int| ColumnChild::Row((run_start + k) as usize),
    )
}

/// The focused row, if it lies before a run.
pub open spec fn island_before(run_start: usize, island: Option<usize>) -> Option<usize> {
    match island {
        Some(row) => if row < run_start {
            Some(row)
        } else {
            None
        },
        None => None,
    }
}

/// The focused row, if it lies behind a run.
pub open spec fn island_behind(run_start: usize, island: Option<usize>) -> Option<usize> {
    match island {
        Some(row) => if row < run_start {
            None
        } else {
            Some(row)
        },
        None => None,
    }
}

/// The children before the rows of a run.
pub open spec fn children_before(
    run_start: usize,
    island: Option<usize>,
    spacers: SpacersShown,
) -> Seq<ColumnChild> {
    island_children(island_before(run_start, island), spacers.lead) + shown(
        ColumnChild::TopSpacer,
        spacers.top,
    )
}

/// The children of the column: the rows of a run, the focused row before or behind
/// it, and the room that the other rows take.
pub open spec fn column_children(
    run_start: usize,
    run_end: usize,
    island: Option<usize>,
    spacers: SpacersShown,
) -> Seq<ColumnChild> {
    children_before(run_start, island, spacers) + run_children(run_start, run_end)
        + island_children(island_behind(run_start, island), spacers.lead) + shown(
        ColumnChild::BottomSpacer,
        spacers.bottom,
    )
}

/// The rows of a run whose heights can be read back: those with another one of the
/// run behind them, each with its place among the children.
pub open spec fn measured(run: MountedRun, rows: usize) -> Seq<(usize, usize)> {
    let end = if run.row_end < rows {
        run.row_end
    } else {
        rows
    };
    Seq::new(
        (if run.row_start + 1 <= end {
            end - 1 - run.row_start
        } else {
            0
        }) as nat,
        |k: int| ((run.row_start + k) as usize, (run.child_base + k) as usize),
    )
}

/// The children of the run can be found again: its first row is the child at the
/// run's base, and the others follow.
pub proof fn mounted_rows_are_found_again(
    run_start: usize,
    run_end: usize,
    island: Option<usize>,
    spacers: SpacersShown,
    row: usize,
)
    requires
        run_start <= row < run_end,
    ensures
        column_children(run_start, run_end, island, spacers)[children_before(
            run_start,
            island,
            spacers,
        ).len() + row - run_start] == ColumnChild::Row(row),
{
    assert(run_children(run_start, run_end)[row - run_start] == ColumnChild::Row(row));
}

/// The focused row is always mounted.
pub proof fn the_focused_row_is_mounted(
    run_start: usize,
    run_end: usize,
    row: usize,
    spacers: SpacersShown,
)
    requires
        run_start <= run_end,
    ensures
        column_children(run_start, run_end, Some(row), spacers).contains(ColumnChild::Row(row)),
{
    let before = children_before(run_start, Some(row), spacers);
    let all = column_children(run_start, run_end, Some(row), spacers);
    if row < run_start {
        let at = if spacers.lead {
            1int
        } else {
            0
        };
        assert(before[at] == ColumnChild::Row(row));
        assert(all[at] == ColumnChild::Row(row));
    } else {
        let at = before.len() + (run_end - run_start) + if spacers.lead {
            1int
        } else {
            0
        };
        let island = island_children(Some(row), spacers.lead);
        assert(island[if spacers.lead {
            1int
        } else {
            0
        }] == ColumnChild::Row(row));
        assert(all[at] == ColumnChild::Row(row));
    }
}

// ---------------------------------------------------------------------------
// Running code
// ---------------------------------------------------------------------------

fn same_anchor(a: Option<u128>, b: Option<u128>) -> (r: bool)
    ensures
        r == same_group(a, b),
{
    match (a, b) {
        (Some(x), Some(y)) => x == y,
        _ => false,
    }
}

/// The block that the gap above the one at `index` depends on: the one before it in
/// the document, or in a callout or footnote that begins at `start`.
pub fn info_before(infos: &[RenderedRowSpacingInfo], start: usize, index: usize) -> (r: Option<
    RenderedRowSpacingInfo,
>)
    requires
        index < infos@.len(),
    ensures
        r == block_before(infos@, start as int, index as int),
{
    if index > start {
        Some(infos[index - 1])
    } else {
        None
    }
}

/// The gap above a row.
pub fn rendered_row_top_gap<T>(
    previous: Option<RenderedRowSpacingInfo>,
    current: RenderedRowSpacingInfo,
    default_gap: T,
    no_gap: T,
) -> (r: T)
    ensures
        r == row_gap(previous, current, default_gap, no_gap),
{
    match previous {
        None => no_gap,
        Some(p) => {
            if same_anchor(p.quote_group_anchor, current.quote_group_anchor) {
                no_gap
            } else {
                default_gap
            }
        },
    }
}

/// The gap above a row inside a callout.
pub fn callout_row_top_gap<T>(
    previous: Option<RenderedRowSpacingInfo>,
    current: RenderedRowSpacingInfo,
    gaps: CalloutGaps<T>,
    no_gap: T,
) -> (r: T)
    ensures
        r == callout_gap(previous, current, gaps, no_gap),
{
    match previous {
        None => no_gap,
        Some(p) => {
            if same_anchor(
                p.visible_quote_group_anchor,
                current.visible_quote_group_anchor,
            ) {
                no_gap
            } else if p.is_callout_header {
                gaps.callout_header_margin_bottom
            } else {
                gaps.callout_body_gap
            }
        },
    }
}

/// The gap above a row inside a footnote.
pub fn footnote_row_top_gap<T>(
    previous: Option<RenderedRowSpacingInfo>,
    below_header: T,
    default_gap: T,
    no_gap: T,
) -> (r: T)
    ensures
        r == footnote_gap(previous, below_header, default_gap, no_gap),
{
    match previous {
        None => no_gap,
        Some(p) => {
            if p.is_footnote_header {
                below_header
            } else {
                default_gap
            }
        },
    }
}

fn in_group(info: &RenderedRowSpacingInfo, callout: Option<u128>, footnote: Option<u128>) -> (r: bool)
    ensures
        r == belongs(*info, callout, footnote),
{
    (callout.is_none() || same_anchor(info.callout_anchor, callout)) && (footnote.is_none()
        || same_anchor(info.footnote_anchor, footnote))
}

fn find_group_end(
    infos: &[RenderedRowSpacingInfo],
    callout: Option<u128>,
    footnote: Option<u128>,
    at: usize,
) -> (r: usize)
    requires
        at <= infos@.len(),
    ensures
        r == group_end(infos@, callout, footnote, at as int),
        at <= r <= infos@.len(),
{
    let mut i: usize = at;
    while i < infos.len() && in_group(&infos[i], callout, footnote)
        invariant
            at <= i <= infos@.len(),
            group_end(infos@, callout, footnote, at as int) == group_end(
                infos@,
                callout,
                footnote,
                i as int,
            ),
        decreases infos@.len() - i,
    {
        i = i + 1;
    }
    i
}

/// The rows of the visible blocks.
pub fn group_rows(infos: &[RenderedRowSpacingInfo]) -> (r: Vec<RowSpan>)
    ensures
        r@ == rows_from(infos@, 0),
{
    let mut rows: Vec<RowSpan> = Vec::new();
    let mut i: usize = 0;
    while i < infos.len()
        invariant
            i <= infos@.len(),
            rows@ + rows_from(infos@, i as int) == rows_from(infos@, 0),
        decreases infos@.len() - i,
    {
        let info: RenderedRowSpacingInfo = infos[i];
        let row: RowSpan = if info.callout_anchor.is_some() && info.callout_variant.is_some() {
            RowSpan {
                start: i,
                end: find_group_end(infos, info.callout_anchor, None, i + 1),
                shape: RowShape::Callout,
            }
        } else if info.footnote_anchor.is_some() {
            RowSpan {
                start: i,
                end: find_group_end(infos, None, info.footnote_anchor, i + 1),
                shape: RowShape::Footnote,
            }
        } else {
            RowSpan { start: i, end: i + 1, shape: RowShape::Plain }
        };
        assert(row == row_at(infos@, i as int));
        let ghost before = rows@;
        rows.push(row);
        assert(rows@ + rows_from(infos@, row.end as int) =~= before + rows_from(
            infos@,
            i as int,
        ));
        i = row.end;
    }
    assert(rows@ + rows_from(infos@, i as int) =~= rows@);
    rows
}

/// The rows inside a callout row.
pub fn callout_parts(infos: &[RenderedRowSpacingInfo], row: RowSpan) -> (r: Vec<RowSpan>)
    requires
        row.start < infos@.len(),
        row == row_at(infos@, row.start as int),
        row.shape == RowShape::Callout,
    ensures
        r@ == parts_from(
            infos@,
            infos@[row.start as int].callout_anchor,
            row.start as int,
            row.end as int,
        ),
{
    let callout: Option<u128> = infos[row.start].callout_anchor;
    let n: usize = infos.len();
    let mut parts: Vec<RowSpan> = Vec::new();
    let mut i: usize = row.start;
    proof {
        lemma_group_end(infos@, callout, None, row.start + 1);
    }
    while i < row.end
        invariant
            row.start <= i <= row.end <= infos@.len(),
            n == infos@.len(),
            callout is Some,
            row.end < infos@.len() ==> infos@[row.end as int].callout_anchor != callout,
            parts@ + parts_from(infos@, callout, i as int, row.end as int) == parts_from(
                infos@,
                callout,
                row.start as int,
                row.end as int,
            ),
        decreases row.end - i,
    {
        proof {
            lemma_part_at(infos@, callout, i as int, row.end as int);
        }
        let part: RowSpan = if infos[i].footnote_anchor.is_some() {
            RowSpan {
                start: i,
                end: find_group_end(infos, callout, infos[i].footnote_anchor, i + 1),
                shape: RowShape::Footnote,
            }
        } else {
            RowSpan { start: i, end: i + 1, shape: RowShape::Plain }
        };
        assert(part == part_at(infos@, callout, i as int));
        let ghost before = parts@;
        parts.push(part);
        assert(parts@ + parts_from(infos@, callout, part.end as int, row.end as int) =~= before
            + parts_from(infos@, callout, i as int, row.end as int));
        i = part.end;
    }
    assert(parts@ + parts_from(infos@, callout, i as int, row.end as int) =~= parts@);
    parts
}

/// The row that a block lies in.
pub fn find_row(rows: &[RowSpan], index: usize) -> (r: usize)
    ensures
        r == row_of(rows@, index as int),
{
    let mut n: usize = 0;
    assert(rows@.skip(0) =~= rows@);
    while n < rows.len() && rows[n].start <= index
        invariant
            n <= rows@.len(),
            rows_up_to(rows@, index as int) == n + rows_up_to(rows@.skip(n as int), index as int),
        decreases rows@.len() - n,
    {
        assert(rows@.skip(n as int).drop_first() =~= rows@.skip(n + 1));
        assert(rows@.skip(n as int)[0] == rows@[n as int]);
        n = n + 1;
    }
    if n < rows.len() {
        assert(rows@.skip(n as int)[0] == rows@[n as int]);
    }
    if n == 0 {
        0
    } else {
        n - 1
    }
}

fn push_island(children: &mut Vec<ColumnChild>, island: Option<usize>, lead: bool)
    ensures
        final(children)@ == old(children)@ + island_children(island, lead),
{
    let ghost before = children@;
    if let Some(row) = island {
        if lead {
            children.push(ColumnChild::LeadSpacer);
        }
        children.push(ColumnChild::Row(row));
    }
    assert(children@ =~= before + island_children(island, lead));
}

/// The children of the column, and where among them the run of rows begins.
pub fn mount_rows(
    run_start: usize,
    run_end: usize,
    island: Option<usize>,
    spacers: SpacersShown,
) -> (r: (Vec<ColumnChild>, usize))
    requires
        run_start <= run_end,
    ensures
        r.0@ == column_children(run_start, run_end, island, spacers),
        r.1 == children_before(run_start, island, spacers).len(),
{
    let (before, behind): (Option<usize>, Option<usize>) = match island {
        Some(row) => {
            if row < run_start {
                (Some(row), None)
            } else {
                (None, Some(row))
            }
        },
        None => (None, None),
    };
    let mut children: Vec<ColumnChild> = Vec::new();
    push_island(&mut children, before, spacers.lead);
    if spacers.top {
        children.push(ColumnChild::TopSpacer);
    }
    assert(children@ =~= children_before(run_start, island, spacers));
    let base: usize = children.len();
    let ghost head = children@;
    let mut row: usize = run_start;
    while row < run_end
        invariant
            run_start <= row <= run_end,
            children@ == head + run_children(run_start, row),
        decreases run_end - row,
    {
        children.push(ColumnChild::Row(row));
        row = row + 1;
        assert(children@ =~= head + run_children(run_start, row));
    }
    push_island(&mut children, behind, spacers.lead);
    if spacers.bottom {
        children.push(ColumnChild::BottomSpacer);
    }
    assert(children@ =~= column_children(run_start, run_end, island, spacers));
    (children, base)
}

/// The rows of a run whose heights can be read back, each with its place among the
/// children.
pub fn measured_rows(run: MountedRun, rows: usize) -> (r: Vec<(usize, usize)>)
    requires
        run.child_base + (run.row_end - run.row_start) <= usize::MAX,
    ensures
        r@ == measured(run, rows),
{
    let end: usize = if run.row_end < rows {
        run.row_end
    } else {
        rows
    };
    let mut out: Vec<(usize, usize)> = Vec::new();
    if end == 0 {
        assert(out@ =~= measured(run, rows));
        return out;
    }
    let mut row: usize = run.row_start;
    while row < end - 1
        invariant
            end > 0,
            end <= run.row_end,
            run.row_start <= row,
            row <= end - 1 || row == run.row_start,
            run.child_base + (run.row_end - run.row_start) <= usize::MAX,
            out@.len() == row - run.row_start,
            forall|k: int|
                0 <= k < out@.len() ==> #[trigger] out@[k] == ((run.row_start + k) as usize, (
                run.child_base + k) as usize),
        decreases end - row,
    {
        out.push((row, run.child_base + (row - run.row_start)));
        row = row + 1;
    }
    assert(out@ =~= measured(run, rows));
    out
}

impl Editor {
    /// The row that the focused block or cell lies in.
    pub fn focus_row(&self, rows: &[RowSpan], focused: Option<u64>) -> (r: Option<usize>)
        ensures
            r matches Some(row) ==> focused matches Some(id) && focus_index(self@.document, id)
                matches Some(index) && row == row_of(rows@, index),
            r is None ==> focused is None || focus_index(self@.document, focused->0) is None,
    {
        let id: u64 = match focused {
            Some(id) => id,
            None => {
                return None;
            },
        };
        match find_index(&self.document, id) {
            Some(i) => Some(find_row(rows, i)),
            None => match find_binding(&self.document, id) {
                Some((i, _)) => Some(find_row(rows, i)),
                None => None,
            },
        }
    }

    /// Whether the visible blocks are others than before.
    pub fn structure_changed(&self, previous: &[u64]) -> (r: bool)
        ensures
            r == (visible_ids(self@.document) != previous@),
    {
        let n: usize = self.document.len();
        if n != previous.len() {
            return true;
        }
        let mut i: usize = 0;
        while i < n
            invariant
                i <= n,
                n == self.document@.len(),
                n == previous@.len(),
                forall|k: int| 0 <= k < i ==> self.document@[k].id == #[trigger] previous@[k],
            decreases n - i,
        {
            if self.document[i].id != previous[i] {
                assert(visible_ids(self@.document)[i as int] != previous@[i as int]);
                return true;
            }
            i = i + 1;
        }
        assert(visible_ids(self@.document) =~= previous@);
        false
    }

    /// The ids of the visible blocks.
    pub fn visible_block_ids(&self) -> (r: Vec<u64>)
        ensures
            r@ == visible_ids(self@.document),
    {
        let mut ids: Vec<u64> = Vec::new();
        let n: usize = self.document.len();
        let mut i: usize = 0;
        while i < n
            invariant
                i <= n,
                n == self.document@.len(),
                ids@.len() == i,
                forall|k: int| 0 <= k < i ==> #[trigger] ids@[k] == self.document@[k].id,
            decreases n - i,
        {
            ids.push(self.document[i].id);
            i = i + 1;
        }
        assert(ids@ =~= visible_ids(self@.document));
        ids
    }
}

} // verus!
