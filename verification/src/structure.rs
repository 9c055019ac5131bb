//! Indenting, outdenting, merging and deleting blocks.

use crate::blocks;
use crate::blocks::{BlockKind, InlineTextTree, Title};
use crate::document;
use crate::document::{cut_nodes, deepen_nodes, find_subtree_end, insert_nodes, raise_nodes};
use crate::editor;
use crate::editor::{BlockSelection, DocBlock, NodeView, Nodes};
use vstd::prelude::*;
use vstd::utf8::*;

verus! {

// ---------------------------------------------------------------------------
// What becomes of the document
// ---------------------------------------------------------------------------

/// The block at `i` and those under it.
pub open spec fn subtree(nodes: Nodes, i: int) -> Nodes {
    nodes.subrange(i, document::subtree_end(nodes, i))
}

/// The blocks under the one at `i`.
pub open spec fn under(nodes: Nodes, i: int) -> Nodes {
    nodes.subrange(i + 1, document::subtree_end(nodes, i))
}

/// The document with the block at `i`, and those under it, nested under the
/// block before it.
pub open spec fn indented(nodes: Nodes, i: int) -> Nodes {
    let levels = (nodes[i - 1].depth + 1 - nodes[i].depth) as nat;
    document::inserted(
        document::removed(nodes, i),
        i,
        document::deepened(subtree(nodes, i), levels),
    )
}

/// The document with the block at `i`, and those under it, moved behind the block
/// at `parent` that it lies under.
pub open spec fn outdented(nodes: Nodes, i: int, parent: int) -> Nodes {
    let rest = document::removed(nodes, i);
    document::inserted(
        rest,
        document::subtree_end(rest, parent),
        document::raised(subtree(nodes, i), 1),
    )
}

/// The document without the block at `i`; those under it take its place.
pub open spec fn deleted(nodes: Nodes, i: int) -> Nodes {
    document::inserted(document::removed(nodes, i), i, document::raised(under(nodes, i), 1))
}

/// A block with another title. It shows the title's source until it is rendered.
pub open spec fn retitled(node: NodeView, title: Title) -> NodeView {
    NodeView { title, display_text: blocks::title_text(title), ..node }
}

/// A block with a caret and nothing selected.
pub open spec fn with_caret(node: NodeView, selection: BlockSelection) -> NodeView {
    NodeView { selection, selection_reversed: false, marked: false, ..node }
}

/// How many bytes the text of a block has.
pub open spec fn text_len(node: NodeView) -> int {
    encode_utf8(node.display_text).len() as int
}

/// A block with more text behind its own, and the caret between the two.
pub open spec fn extended(node: NodeView, content: Title) -> NodeView {
    let len = text_len(node) as usize;
    with_caret(
        retitled(node, node.title + content),
        BlockSelection::Visible { start: len, end: len },
    )
}

/// Blocks moved from under one of depth `from` to under one of depth `to`.
pub open spec fn rehung(nodes: Nodes, from: nat, to: nat) -> Nodes {
    Seq::new(
        nodes.len(),
        |k: int| NodeView { depth: (nodes[k].depth + to - from) as nat, ..nodes[k] },
    )
}

/// The document with the block at `i` merged into the one before it: its text goes
/// behind that block's, and the blocks under it behind those under that block.
pub open spec fn merged(nodes: Nodes, i: int, content: Title) -> Nodes {
    let rest = document::removed(nodes, i);
    let kids = rehung(under(nodes, i), nodes[i].depth, nodes[i - 1].depth);
    document::inserted(
        rest.update(i - 1, extended(nodes[i - 1], content)),
        document::subtree_end(rest, i - 1),
        kids,
    )
}

/// The document with the list item at `i` made a paragraph. The blocks under it
/// follow it at its level.
pub open spec fn downgraded(nodes: Nodes, i: int) -> Nodes {
    document::inserted(
        document::removed(nodes, i),
        i,
        seq![NodeView { kind: BlockKind::Paragraph, ..nodes[i] }] + document::raised(
            under(nodes, i),
            1,
        ),
    )
}

// ---------------------------------------------------------------------------
// Shape
// ---------------------------------------------------------------------------

/// Depths rise by at most one from block to block.
pub proof fn lemma_relative_depth(nodes: Nodes, i: int, k: int)
    requires
        document::forest(nodes),
        0 <= i <= k < nodes.len(),
    ensures
        nodes[k].depth <= nodes[i].depth + (k - i),
    decreases k - i,
{
    if i < k {
        lemma_relative_depth(nodes, i, k - 1);
        assert(document::depth_step(nodes, k));
    }
}

/// Whether blocks have the same ids and cells in the same order.
pub open spec fn same_ids(a: Nodes, b: Nodes) -> bool {
    a.len() == b.len() && forall|k: int|
        0 <= k < a.len() ==> (#[trigger] b[k]).id == a[k].id && document::cells_kept(
            a[k].runtime,
            b[k].runtime,
        )
}

/// The shape of a run of blocks that can stand at a level.
pub open spec fn run_shape(added: Nodes, depth: nat) -> bool {
    &&& added.len() > 0 ==> added[0].depth == depth
    &&& forall|k: int| 0 <= k < added.len() ==> (#[trigger] added[k]).depth >= depth
    &&& forall|k: int| 0 < k < added.len() ==> #[trigger] document::depth_step(added, k)
}

/// Putting blocks in at a fitting level keeps the depths those of a forest.
pub proof fn lemma_insert_forest(nodes: Nodes, at: int, added: Nodes, depth: nat)
    requires
        document::forest(nodes),
        document::fits(nodes, at, depth),
        run_shape(added, depth),
    ensures
        document::forest(document::inserted(nodes, at, added)),
{
    let whole = document::inserted(nodes, at, added);
    let n = added.len() as int;
    assert forall|i: int| 0 <= i < whole.len() implies #[trigger] whole[i] == (if i < at {
        nodes[i]
    } else if i < at + n {
        added[i - at]
    } else {
        nodes[i - n]
    }) by {}
    assert forall|i: int| 0 < i < whole.len() implies #[trigger] document::depth_step(whole, i) by {
        assert(whole[i] == whole[i] && whole[i - 1] == whole[i - 1]);
        if i < at {
            assert(document::depth_step(nodes, i));
        } else if i == at && n > 0 {
            assert(whole[i] == added[0]);
        } else if i < at + n {
            assert(document::depth_step(added, i - at));
        } else if i == at + n {
            if n > 0 {
                assert(added[n - 1].depth >= depth);
            } else {
                assert(document::depth_step(nodes, i));
            }
        } else {
            assert(document::depth_step(nodes, i - n));
        }
    }
    if whole.len() > 0 {
        assert(whole[0].depth == 0) by {
            if at > 0 {
                assert(whole[0] == nodes[0]);
            } else if n > 0 {
                assert(whole[0] == added[0]);
            } else {
                assert(whole[0] == nodes[0]);
            }
        }
    }
}

/// Putting blocks with ids of their own in keeps the ids distinct.
pub proof fn lemma_insert_ids(nodes: Nodes, at: int, added: Nodes, limit: int)
    requires
        document::distinct_ids(nodes),
        document::ids_below(nodes, limit),
        document::distinct_ids(added),
        document::ids_below(added, limit),
        0 <= at <= nodes.len(),
        forall|i: int, j: int|
            0 <= i < nodes.len() && 0 <= j < added.len() ==> (#[trigger] nodes[i]).id != (
            #[trigger] added[j]).id,
    ensures
        document::distinct_ids(document::inserted(nodes, at, added)),
        document::ids_below(document::inserted(nodes, at, added), limit),
{
    let whole = document::inserted(nodes, at, added);
    let n = added.len() as int;
    assert forall|i: int| 0 <= i < whole.len() implies #[trigger] whole[i] == (if i < at {
        nodes[i]
    } else if i < at + n {
        added[i - at]
    } else {
        nodes[i - n]
    }) by {}
    assert forall|i: int, j: int| 0 <= i < j < whole.len() implies (#[trigger] whole[i]).id != (
    #[trigger] whole[j]).id by {}
    assert forall|i: int| 0 <= i < whole.len() implies (#[trigger] whole[i]).id < limit by {}
}

/// Taking a subtree out and putting a run with some of its ids in at a fitting
/// level keeps a document well formed.
pub proof fn lemma_move_well_formed(
    nodes: Nodes,
    next_id: u64,
    i: int,
    at: int,
    added: Nodes,
    depth: nat,
    from: int,
)
    requires
        document::well_formed(nodes, next_id),
        0 <= i < nodes.len(),
        i <= from <= document::subtree_end(nodes, i),
        same_ids(nodes.subrange(from, document::subtree_end(nodes, i)), added),
        document::fits(document::removed(nodes, i), at, depth),
        run_shape(added, depth),
    ensures
        document::well_formed(
            document::inserted(document::removed(nodes, i), at, added),
            next_id,
        ),
{
    let end = document::subtree_end(nodes, i);
    document::removing_keeps_a_document_well_formed(nodes, next_id, i);
    let rest = document::removed(nodes, i);
    let run = nodes.subrange(from, end);
    let n = end - i;
    assert forall|k: int| 0 <= k < rest.len() implies #[trigger] rest[k] == (if k < i {
        nodes[k]
    } else {
        nodes[k + n]
    }) by {}
    assert forall|j: int| 0 <= j < added.len() implies (#[trigger] added[j]).id == nodes[from + j].id
        && nodes[from + j].id < next_id by {
        assert(run[j] == nodes[from + j]);
    }
    assert(document::distinct_ids(added)) by {
        assert forall|a: int, b: int| 0 <= a < b < added.len() implies (#[trigger] added[a]).id != (
        #[trigger] added[b]).id by {
            assert(nodes[from + a].id != nodes[from + b].id);
        }
    }
    assert forall|a: int, b: int|
        0 <= a < rest.len() && 0 <= b < added.len() implies (#[trigger] rest[a]).id != (
    #[trigger] added[b]).id by {
        assert(added[b].id == nodes[from + b].id);
        if a < i {
            assert(nodes[a].id != nodes[from + b].id);
        } else {
            assert(nodes[a + n].id != nodes[from + b].id);
        }
    }
    assert(document::ids_below(added, next_id as int)) by {
        assert forall|j: int| 0 <= j < added.len() implies (#[trigger] added[j]).id < next_id by {}
    }
    lemma_insert_forest(rest, at, added, depth);
    lemma_insert_ids(rest, at, added, next_id as int);
    let whole = document::inserted(rest, at, added);
    let m = added.len() as int;
    let origins = Seq::new(
        whole.len(),
        |k: int|
            if at <= k < at + m {
                from + k - at
            } else {
                let j = if k < at {
                    k
                } else {
                    k - m
                };
                if j < i {
                    j
                } else {
                    j + n
                }
            },
    );
    assert forall|k: int| 0 <= k < whole.len() implies #[trigger] document::stems_from(
        nodes,
        whole,
        k,
        origins[k],
        next_id as int,
        next_id as int,
    ) by {
        if at <= k < at + m {
            assert(whole[k] == added[k - at]);
            assert(run[k - at] == nodes[from + k - at]);
        } else if k < at {
            assert(whole[k] == rest[k]);
        } else {
            assert(whole[k] == rest[k - m]);
        }
    }
    document::lemma_cells_stem(nodes, whole, origins, next_id as int, next_id as int);
}

proof fn lemma_subtree(nodes: Nodes, i: int)
    requires
        0 <= i < nodes.len(),
    ensures
        i < document::subtree_end(nodes, i) <= nodes.len(),
        forall|k: int|
            i < k < document::subtree_end(nodes, i) ==> (#[trigger] nodes[k]).depth
                > nodes[i].depth,
        document::subtree_end(nodes, i) < nodes.len() ==> nodes[document::subtree_end(
            nodes,
            i,
        )].depth <= nodes[i].depth,
{
    document::lemma_run_end(nodes, nodes[i].depth, i + 1);
}

/// Indenting keeps a document well formed.
pub proof fn indenting_keeps_documents_well_formed(nodes: Nodes, next_id: u64, i: int)
    requires
        document::well_formed(nodes, next_id),
        0 < i < nodes.len(),
    ensures
        document::well_formed(indented(nodes, i), next_id),
{
    lemma_subtree(nodes, i);
    assert(document::depth_step(nodes, i));
    let end = document::subtree_end(nodes, i);
    let levels = (nodes[i - 1].depth + 1 - nodes[i].depth) as nat;
    let moved = document::deepened(subtree(nodes, i), levels);
    let run = nodes.subrange(i, end);
    let rest = document::removed(nodes, i);
    assert(rest[i - 1] == nodes[i - 1]);
    if i < rest.len() {
        assert(rest[i] == nodes[end]);
    }
    assert forall|k: int| 0 < k < moved.len() implies #[trigger] document::depth_step(moved, k) by {
        assert(document::depth_step(nodes, i + k));
        assert(run[k] == nodes[i + k] && run[k - 1] == nodes[i + k - 1]);
    }
    assert forall|k: int| 0 <= k < moved.len() implies (#[trigger] moved[k]).depth
        >= nodes[i - 1].depth + 1 by {
        assert(run[k] == nodes[i + k]);
    }
    lemma_move_well_formed(nodes, next_id, i, i, moved, nodes[i - 1].depth + 1, i);
}

proof fn lemma_parent_end(nodes: Nodes, i: int, parent: int)
    requires
        document::forest(nodes),
        0 <= i < nodes.len(),
        document::parent_of(nodes, i) == Some(parent),
    ensures
        0 <= parent < i,
        nodes[parent].depth + 1 == nodes[i].depth,
        ({
            let rest = document::removed(nodes, i);
            let at = document::subtree_end(rest, parent);
            &&& i <= at <= rest.len()
            &&& forall|k: int| parent < k < at ==> (#[trigger] rest[k]).depth > nodes[parent].depth
            &&& at < rest.len() ==> rest[at].depth <= nodes[parent].depth
            &&& rest[parent] == nodes[parent]
        }),
{
    document::lemma_above(nodes, nodes[i].depth, i);
    lemma_subtree(nodes, i);
    lemma_parent_depth(nodes, i, parent);
    let rest = document::removed(nodes, i);
    assert(rest[parent] == nodes[parent]);
    lemma_subtree(rest, parent);
    let at = document::subtree_end(rest, parent);
    assert(at >= i) by {
        if at < i {
            assert(rest[at] == nodes[at]);
            assert(nodes[at].depth >= nodes[i].depth);
        }
    }
}

proof fn lemma_parent_depth(nodes: Nodes, i: int, parent: int)
    requires
        document::forest(nodes),
        0 <= i < nodes.len(),
        document::parent_of(nodes, i) == Some(parent),
    ensures
        0 <= parent < i,
        nodes[parent].depth + 1 == nodes[i].depth,
{
    document::lemma_above(nodes, nodes[i].depth, i);
    assert(document::depth_step(nodes, parent + 1));
    if parent + 1 < i {
        assert(nodes[parent + 1].depth >= nodes[i].depth);
    }
}

/// Outdenting keeps a document well formed.
pub proof fn outdenting_keeps_documents_well_formed(
    nodes: Nodes,
    next_id: u64,
    i: int,
    parent: int,
)
    requires
        document::well_formed(nodes, next_id),
        0 <= i < nodes.len(),
        document::parent_of(nodes, i) == Some(parent),
    ensures
        document::well_formed(outdented(nodes, i, parent), next_id),
{
    lemma_subtree(nodes, i);
    lemma_parent_end(nodes, i, parent);
    let end = document::subtree_end(nodes, i);
    let rest = document::removed(nodes, i);
    let at = document::subtree_end(rest, parent);
    let run = nodes.subrange(i, end);
    let moved = document::raised(subtree(nodes, i), 1);
    let depth = nodes[parent].depth;
    assert forall|k: int| 0 <= k < moved.len() implies (#[trigger] moved[k]).depth >= depth by {
        assert(run[k] == nodes[i + k]);
    }
    assert forall|k: int| 0 < k < moved.len() implies #[trigger] document::depth_step(moved, k) by {
        assert(document::depth_step(nodes, i + k));
        assert(run[k] == nodes[i + k] && run[k - 1] == nodes[i + k - 1]);
    }
    assert(document::fits(rest, at, depth)) by {
        if at - 1 > parent {
            assert(rest[at - 1].depth > depth);
        } else {
            assert(rest[at - 1] == nodes[parent]);
        }
    }
    lemma_move_well_formed(nodes, next_id, i, at, moved, depth, i);
}

proof fn lemma_raised_kids(nodes: Nodes, i: int)
    requires
        document::forest(nodes),
        0 <= i < nodes.len(),
    ensures
        run_shape(document::raised(under(nodes, i), 1), nodes[i].depth),
        same_ids(under(nodes, i), document::raised(under(nodes, i), 1)),
{
    lemma_subtree(nodes, i);
    let end = document::subtree_end(nodes, i);
    let kids = under(nodes, i);
    let moved = document::raised(kids, 1);
    assert forall|k: int| 0 <= k < moved.len() implies (#[trigger] moved[k]).depth
        >= nodes[i].depth by {
        assert(kids[k] == nodes[i + 1 + k]);
    }
    assert forall|k: int| 0 < k < moved.len() implies #[trigger] document::depth_step(moved, k) by {
        assert(document::depth_step(nodes, i + 1 + k));
        assert(kids[k] == nodes[i + 1 + k] && kids[k - 1] == nodes[i + k]);
    }
    if kids.len() > 0 {
        assert(document::depth_step(nodes, i + 1));
        assert(kids[0] == nodes[i + 1]);
    }
}

/// Deleting a block keeps a document well formed.
pub proof fn deleting_keeps_documents_well_formed(nodes: Nodes, next_id: u64, i: int)
    requires
        document::well_formed(nodes, next_id),
        0 <= i < nodes.len(),
    ensures
        document::well_formed(deleted(nodes, i), next_id),
        deleted(nodes, i).len() == nodes.len() - 1,
{
    lemma_subtree(nodes, i);
    lemma_raised_kids(nodes, i);
    let end = document::subtree_end(nodes, i);
    let rest = document::removed(nodes, i);
    assert(document::fits(rest, i, nodes[i].depth)) by {
        if i > 0 {
            assert(rest[i - 1] == nodes[i - 1]);
            assert(document::depth_step(nodes, i));
        }
        if i < rest.len() {
            assert(rest[i] == nodes[end]);
        }
    }
    lemma_move_well_formed(
        nodes,
        next_id,
        i,
        i,
        document::raised(under(nodes, i), 1),
        nodes[i].depth,
        i + 1,
    );
}

/// Making a list item a paragraph keeps a document well formed.
pub proof fn downgrading_keeps_documents_well_formed(nodes: Nodes, next_id: u64, i: int)
    requires
        document::well_formed(nodes, next_id),
        0 <= i < nodes.len(),
    ensures
        document::well_formed(downgraded(nodes, i), next_id),
        same_ids(nodes, downgraded(nodes, i)),
{
    lemma_subtree(nodes, i);
    lemma_raised_kids(nodes, i);
    let end = document::subtree_end(nodes, i);
    let rest = document::removed(nodes, i);
    let head = NodeView { kind: BlockKind::Paragraph, ..nodes[i] };
    let kids = document::raised(under(nodes, i), 1);
    let run = seq![head] + kids;
    assert(document::fits(rest, i, nodes[i].depth)) by {
        if i > 0 {
            assert(rest[i - 1] == nodes[i - 1]);
            assert(document::depth_step(nodes, i));
        }
        if i < rest.len() {
            assert(rest[i] == nodes[end]);
        }
    }
    assert forall|k: int| 0 <= k < run.len() implies (#[trigger] run[k]).depth >= nodes[i].depth by {
        if k > 0 {
            assert(run[k] == kids[k - 1]);
        }
    }
    assert forall|k: int| 0 < k < run.len() implies #[trigger] document::depth_step(run, k) by {
        assert(run[k] == kids[k - 1]);
        if k > 1 {
            assert(run[k - 1] == kids[k - 2]);
            assert(document::depth_step(kids, k - 1));
        }
    }
    let whole = nodes.subrange(i, end);
    assert(same_ids(whole, run)) by {
        assert forall|k: int| 0 <= k < whole.len() implies (#[trigger] run[k]).id == whole[k].id by {
            if k > 0 {
                assert(run[k] == kids[k - 1]);
                assert(under(nodes, i)[k - 1] == nodes[i + k]);
            }
        }
    }
    lemma_move_well_formed(nodes, next_id, i, i, run, nodes[i].depth, i);
    assert forall|k: int| 0 <= k < nodes.len() implies (#[trigger] downgraded(nodes, i)[k]).id
        == nodes[k].id by {
        if i <= k < end {
            assert(downgraded(nodes, i)[k] == run[k - i]);
            assert(whole[k - i] == nodes[k]);
        }
    }
}

/// Merging a block into the one before it keeps a document well formed.
pub proof fn merging_keeps_documents_well_formed(
    nodes: Nodes,
    next_id: u64,
    i: int,
    content: Title,
)
    requires
        document::well_formed(nodes, next_id),
        0 < i < nodes.len(),
    ensures
        document::well_formed(merged(nodes, i, content), next_id),
        merged(nodes, i, content).len() == nodes.len() - 1,
{
    lemma_subtree(nodes, i);
    lemma_raised_kids(nodes, i);
    assert(document::depth_step(nodes, i));
    let end = document::subtree_end(nodes, i);
    let rest = document::removed(nodes, i);
    let d = nodes[i].depth;
    let p = nodes[i - 1].depth;
    assert(rest[i - 1] == nodes[i - 1]);
    lemma_subtree(rest, i - 1);
    let at = document::subtree_end(rest, i - 1);
    let kids = under(nodes, i);
    let moved = rehung(kids, d, p);
    assert forall|k: int| 0 <= k < moved.len() implies (#[trigger] moved[k]).depth >= p + 1 by {
        assert(kids[k] == nodes[i + 1 + k]);
    }
    assert forall|k: int| 0 < k < moved.len() implies #[trigger] document::depth_step(moved, k) by {
        assert(document::depth_step(nodes, i + 1 + k));
        assert(kids[k] == nodes[i + 1 + k] && kids[k - 1] == nodes[i + k]);
    }
    if kids.len() > 0 {
        assert(document::depth_step(nodes, i + 1));
        assert(kids[0] == nodes[i + 1]);
        assert(moved[0].depth == p + 1);
    }
    assert(document::fits(rest, at, p + 1)) by {
        if at - 1 > i - 1 {
            assert(rest[at - 1].depth > p);
        }
    }
    lemma_move_well_formed(nodes, next_id, i, at, moved, p + 1, i + 1);
    let plain = document::inserted(rest, at, moved);
    let after = merged(nodes, i, content);
    assert(document::same_shape(plain, after)) by {
        let changed = rest.update(i - 1, extended(nodes[i - 1], content));
        assert forall|k: int| 0 <= k < plain.len() implies (#[trigger] after[k]).id == plain[k].id
            && after[k].depth == plain[k].depth by {
            if k < at {
                assert(plain[k] == rest[k]);
                assert(after[k] == changed[k]);
            } else if k < at + moved.len() {
                assert(after[k] == moved[k - at]);
                assert(plain[k] == moved[k - at]);
            } else {
                assert(plain[k] == rest[k - moved.len()]);
                assert(after[k] == changed[k - moved.len()]);
            }
        }
    }
    document::lemma_same_shape(plain, after, next_id);
}

/// A block that is nested under the one before it, which was at its level and had
/// nothing under it, and is outdented again, is back where it was.
pub proof fn outdenting_takes_back_an_indent(nodes: Nodes, i: int)
    requires
        document::forest(nodes),
        0 < i < nodes.len(),
        nodes[i - 1].depth == nodes[i].depth,
    ensures
        document::parent_of(indented(nodes, i), i) == Some(i - 1),
        outdented(indented(nodes, i), i, i - 1) == nodes,
{
    lemma_subtree(nodes, i);
    let end = document::subtree_end(nodes, i);
    let d = nodes[i].depth;
    let nested = indented(nodes, i);
    let rest = document::removed(nodes, i);
    let run = subtree(nodes, i);
    let deeper = document::deepened(run, 1);
    assert forall|k: int| 0 <= k < nested.len() implies #[trigger] nested[k] == (if i <= k < end {
        NodeView { depth: nodes[k].depth + 1, ..nodes[k] }
    } else {
        nodes[k]
    }) by {
        if k < i {
            assert(rest[k] == nodes[k]);
        } else if k < end {
            assert(nested[k] == deeper[k - i]);
            assert(run[k - i] == nodes[k]);
        } else {
            assert(nested[k] == rest[k - (end - i)]);
        }
    }
    assert(nested[i - 1].depth < nested[i].depth);
    lemma_run_is(nested, nested[i].depth, i + 1, end);
    assert(document::subtree_end(nested, i) == end);
    let back_rest = document::removed(nested, i);
    assert(back_rest =~= rest);
    lemma_run_is(rest, d, i, i);
    assert(document::subtree_end(rest, i - 1) == i);
    let back = document::raised(subtree(nested, i), 1);
    assert(back =~= run) by {
        assert forall|k: int| 0 <= k < run.len() implies back[k] == run[k] by {
            assert(subtree(nested, i)[k] == nested[i + k]);
            assert(run[k] == nodes[i + k]);
        }
    }
    assert(document::inserted(rest, i, run) =~= nodes);
}

proof fn lemma_run_is(nodes: Nodes, depth: nat, at: int, end: int)
    requires
        0 <= at <= end <= nodes.len(),
        forall|k: int| at <= k < end ==> (#[trigger] nodes[k]).depth > depth,
        end < nodes.len() ==> nodes[end].depth <= depth,
    ensures
        document::run_end(nodes, depth, at) == end,
    decreases end - at,
{
    if at < end {
        assert(nodes[at].depth > depth);
        lemma_run_is(nodes, depth, at + 1, end);
    }
}

// ---------------------------------------------------------------------------
// Running code
// ---------------------------------------------------------------------------

fn rehang_nodes(nodes: Vec<DocBlock>, from: usize, to: usize) -> (r: Vec<DocBlock>)
    requires
        forall|k: int|
            0 <= k < nodes@.len() ==> (#[trigger] nodes@[k]).depth >= from && nodes@[k].depth + to
                - from <= usize::MAX,
    ensures
        editor::node_views(r@) == rehung(editor::node_views(nodes@), from as nat, to as nat),
{
    let ghost before = nodes@;
    let mut nodes = nodes;
    let mut i: usize = 0;
    while i < nodes.len()
        invariant
            i <= nodes@.len(),
            nodes@.len() == before.len(),
            forall|k: int|
                0 <= k < before.len() ==> (#[trigger] before[k]).depth >= from && before[k].depth
                    + to - from <= usize::MAX,
            forall|k: int|
                0 <= k < i ==> (#[trigger] nodes@[k])@ == (NodeView {
                    depth: (before[k]@.depth + to - from) as nat,
                    ..before[k]@
                }),
            forall|k: int| i <= k < before.len() ==> #[trigger] nodes@[k] == before[k],
        decreases nodes@.len() - i,
    {
        assert(before[i as int].depth >= from);
        let above: usize = nodes[i].depth - from;
        nodes[i].depth = above + to;
        i = i + 1;
    }
    assert(editor::node_views(nodes@) =~= rehung(
        editor::node_views(before),
        from as nat,
        to as nat,
    ));
    nodes
}

/// Nests the block at `i`, and those under it, under the block before it.
pub fn indent_node(nodes: &mut Vec<DocBlock>, i: usize)
    requires
        0 < i < old(nodes)@.len(),
        document::forest(editor::node_views(old(nodes)@)),
        old(nodes)@[i - 1].depth >= old(nodes)@[i as int].depth,
    ensures
        editor::node_views(final(nodes)@) == indented(editor::node_views(old(nodes)@), i as int),
{
    let ghost views = editor::node_views(nodes@);
    let above: usize = nodes[i - 1].depth;
    let levels: usize = above - nodes[i].depth;
    let end: usize = find_subtree_end(nodes, i);
    let n: usize = nodes.len();
    let run = cut_nodes(nodes, i, end);
    proof {
        assert forall|k: int| 0 <= k < run@.len() implies (#[trigger] run@[k]).depth + levels + 1
            <= usize::MAX by {
            assert(editor::node_views(run@)[k] == views[i + k]);
            lemma_relative_depth(views, i as int, i + k);
            document::lemma_depth_bound(views, i - 1);
        }
        document::lemma_depth_bound(views, i - 1);
    }
    let moved = deepen_nodes(run, levels + 1);
    insert_nodes(nodes, i, moved);
}

/// Moves the block at `i`, and those under it, behind the block at `parent` that
/// it lies under.
pub fn outdent_node(nodes: &mut Vec<DocBlock>, i: usize, parent: usize)
    requires
        i < old(nodes)@.len(),
        document::forest(editor::node_views(old(nodes)@)),
        document::parent_of(editor::node_views(old(nodes)@), i as int) == Some(parent as int),
    ensures
        editor::node_views(final(nodes)@) == outdented(
            editor::node_views(old(nodes)@),
            i as int,
            parent as int,
        ),
{
    let ghost views = editor::node_views(nodes@);
    proof {
        lemma_parent_end(views, i as int, parent as int);
        lemma_subtree(views, i as int);
    }
    let end: usize = find_subtree_end(nodes, i);
    let run = cut_nodes(nodes, i, end);
    proof {
        assert forall|k: int| 0 <= k < run@.len() implies (#[trigger] run@[k]).depth >= 1 by {
            assert(editor::node_views(run@)[k] == views[i + k]);
        }
        assert(editor::node_views(nodes@)[parent as int] == views[parent as int]);
    }
    let moved = raise_nodes(run, 1);
    let at: usize = find_subtree_end(nodes, parent);
    insert_nodes(nodes, at, moved);
}

/// Deletes the block at `i`; those under it take its place.
pub fn delete_node(nodes: &mut Vec<DocBlock>, i: usize)
    requires
        i < old(nodes)@.len(),
    ensures
        editor::node_views(final(nodes)@) == deleted(editor::node_views(old(nodes)@), i as int),
{
    let ghost views = editor::node_views(nodes@);
    proof {
        lemma_subtree(views, i as int);
    }
    let end: usize = find_subtree_end(nodes, i);
    let mut run = cut_nodes(nodes, i, end);
    let ghost whole = editor::node_views(run@);
    let kids = run.split_off(1);
    proof {
        assert(editor::node_views(kids@) =~= under(views, i as int)) by {
            assert forall|k: int| 0 <= k < kids@.len() implies kids@[k]@ == views[i + 1 + k] by {
                assert(whole[k + 1] == views[i + 1 + k]);
            }
        }
        assert forall|k: int| 0 <= k < kids@.len() implies (#[trigger] kids@[k]).depth >= 1 by {
            assert(editor::node_views(kids@)[k] == views[i + 1 + k]);
        }
    }
    let moved = raise_nodes(kids, 1);
    insert_nodes(nodes, i, moved);
}

/// Makes the list item at `i` a paragraph; the blocks under it follow it at its
/// level.
pub fn downgrade_node(nodes: &mut Vec<DocBlock>, i: usize)
    requires
        i < old(nodes)@.len(),
    ensures
        editor::node_views(final(nodes)@) == downgraded(editor::node_views(old(nodes)@), i as int),
{
    let ghost views = editor::node_views(nodes@);
    proof {
        lemma_subtree(views, i as int);
    }
    let end: usize = find_subtree_end(nodes, i);
    let mut run = cut_nodes(nodes, i, end);
    let ghost whole = editor::node_views(run@);
    let kids = run.split_off(1);
    proof {
        assert(whole[0] == views[i as int]);
        assert(editor::node_views(kids@) =~= under(views, i as int)) by {
            assert forall|k: int| 0 <= k < kids@.len() implies kids@[k]@ == views[i + 1 + k] by {
                assert(whole[k + 1] == views[i + 1 + k]);
            }
        }
        assert forall|k: int| 0 <= k < kids@.len() implies (#[trigger] kids@[k]).depth >= 1 by {
            assert(editor::node_views(kids@)[k] == views[i + 1 + k]);
        }
    }
    let mut moved = raise_nodes(kids, 1);
    let ghost tail = editor::node_views(moved@);
    run[0].kind = BlockKind::Paragraph;
    run.append(&mut moved);
    proof {
        let head = NodeView { kind: BlockKind::Paragraph, ..views[i as int] };
        assert(editor::node_views(run@) =~= seq![head] + tail);
    }
    insert_nodes(nodes, i, run);
}

/// Gives the block at `i` another title and a caret.
pub fn retitle_node(
    nodes: &mut Vec<DocBlock>,
    i: usize,
    title: InlineTextTree,
    selection: BlockSelection,
)
    requires
        i < old(nodes)@.len(),
    ensures
        editor::node_views(final(nodes)@) == editor::node_views(old(nodes)@).update(
            i as int,
            with_caret(retitled(editor::node_views(old(nodes)@)[i as int], title@), selection),
        ),
        final(nodes)@.len() == old(nodes)@.len(),
{
    let ghost views = editor::node_views(nodes@);
    let display_text = title.text();
    nodes[i].title = title;
    nodes[i].display_text = display_text;
    nodes[i].selection = selection;
    nodes[i].selection_reversed = false;
    nodes[i].marked = false;
    assert(editor::node_views(nodes@) =~= views.update(
        i as int,
        with_caret(retitled(views[i as int], title@), selection),
    ));
}

/// Merges the block at `i` into the one before it.
pub fn merge_node(nodes: &mut Vec<DocBlock>, i: usize, content: &InlineTextTree)
    requires
        0 < i < old(nodes)@.len(),
        document::forest(editor::node_views(old(nodes)@)),
    ensures
        editor::node_views(final(nodes)@) == merged(
            editor::node_views(old(nodes)@),
            i as int,
            content@,
        ),
{
    let ghost views = editor::node_views(nodes@);
    let depth: usize = nodes[i].depth;
    let above: usize = nodes[i - 1].depth;
    proof {
        lemma_subtree(views, i as int);
        assert(document::depth_step(views, i as int));
    }
    let end: usize = find_subtree_end(nodes, i);
    let n: usize = nodes.len();
    let mut run = cut_nodes(nodes, i, end);
    let ghost whole = editor::node_views(run@);
    let kids = run.split_off(1);
    proof {
        assert(editor::node_views(kids@) =~= under(views, i as int)) by {
            assert forall|k: int| 0 <= k < kids@.len() implies kids@[k]@ == views[i + 1 + k] by {
                assert(whole[k + 1] == views[i + 1 + k]);
            }
        }
        assert forall|k: int| 0 <= k < kids@.len() implies (#[trigger] kids@[k]).depth >= depth
            && kids@[k].depth + above - depth <= usize::MAX by {
            assert(editor::node_views(kids@)[k] == views[i + 1 + k]);
            lemma_relative_depth(views, i as int, i + 1 + k);
            document::lemma_depth_bound(views, i - 1);
        }
        assert(editor::node_views(nodes@)[i - 1] == views[i - 1]);
    }
    let moved = rehang_nodes(kids, depth, above);
    let ghost rest = editor::node_views(nodes@);
    let at: usize = find_subtree_end(nodes, i - 1);
    let len: usize = nodes[i - 1].display_text.as_str().as_bytes().len();
    let mut title = nodes[i - 1].title.duplicate();
    title.append_tree(content.duplicate());
    retitle_node(nodes, i - 1, title, BlockSelection::Visible { start: len, end: len });
    insert_nodes(nodes, at, moved);
}

} // verus!
