//! Where the caret goes when a quote or a callout is left, entered, made or given up.

use crate::blocks;
use crate::blocks::{BlockKind, CalloutVariant, InlineFragment};
use crate::document;
use crate::editing_laws::lies_under;
use crate::editor::{EditorView, NodeView, Nodes, ViewMode};
use crate::history::DocumentFacts;
use crate::kinds;
use crate::newline;
use crate::paste_laws;
use crate::paste_laws::ends_at;
use crate::quotes;
use crate::reading_laws;
use vstd::prelude::*;

verus! {

/// Whether a block is a quote or a callout.
pub open spec fn quoting(node: NodeView) -> bool {
    node.kind is Quote || node.kind is Callout
}

/// Whether the block at `i` lies in the one at `k`.
pub open spec fn encloses(nodes: Nodes, k: int, i: int) -> bool {
    &&& 0 <= k < i < nodes.len()
    &&& forall|j: int| k < j <= i ==> (#[trigger] nodes[j]).depth > nodes[k].depth
}

/// Whether the block at `q` is the innermost quote or callout that the block at `i` is or
/// lies in.
pub open spec fn innermost(nodes: Nodes, q: int, i: int) -> bool {
    &&& quoting(nodes[q])
    &&& 0 <= q == i < nodes.len() || encloses(nodes, q, i)
    &&& q < i ==> !quoting(nodes[i])
    &&& forall|k: int| q < k && #[trigger] encloses(nodes, k, i) ==> !quoting(nodes[k])
}

/// Whether the block at `q` is the outermost of the quotes and callouts that lie directly
/// in one another around the one at `m`.
pub open spec fn outermost(nodes: Nodes, q: int, m: int) -> bool {
    &&& quoting(nodes[m])
    &&& 0 <= q == m < nodes.len() || encloses(nodes, q, m)
    &&& quoting(nodes[q])
    &&& forall|k: int| q < k && #[trigger] encloses(nodes, k, m) ==> quoting(nodes[k])
    &&& forall|p: int| #[trigger] lies_under(nodes, q, p) ==> !quoting(nodes[p])
}

/// Whether a block is new, empty and without a table.
pub open spec fn empty_block(
    node: NodeView,
    id: u64,
    kind: BlockKind<Seq<char>>,
    depth: nat,
) -> bool {
    &&& node.id == id
    &&& node.kind == kind
    &&& node.depth == depth
    &&& node.display_text.len() == 0
    &&& node.table is None
}

/// How many blocks are put in behind a quote: one at the root, and two elsewhere.
pub open spec fn blocks_added(quote: NodeView) -> int {
    if quote.depth == 0 {
        1
    } else {
        2
    }
}

/// Whether a block of a kind was put in at `end`, behind the one at `q`, at the level of
/// that one. Where the one at `q` lies in another block, an empty paragraph keeps the two
/// apart. The new block has the focus, and all other blocks stay.
pub open spec fn put_behind(
    s: EditorView,
    after: EditorView,
    q: int,
    end: int,
    kind: BlockKind<Seq<char>>,
) -> bool {
    let added = blocks_added(s.document[q]);
    &&& after.document.len() == s.document.len() + added
    &&& forall|k: int| 0 <= k < end ==> #[trigger] after.document[k] == s.document[k]
    &&& forall|k: int|
        end <= k < s.document.len() ==> s.document[k] == #[trigger] after.document[k + added]
    &&& empty_block(after.document[end + added - 1], s.next_id, kind, s.document[q].depth)
    &&& added == 2 ==> empty_block(
        after.document[end],
        (s.next_id + 1) as u64,
        BlockKind::Paragraph,
        s.document[q].depth,
    )
    &&& after.focus.pending_focus == Some(s.next_id)
    &&& after.window.document_dirty
}

/// An empty title shows nothing.
pub proof fn lemma_empty()
    ensures
        blocks::title_text(blocks::plain_title(Seq::empty())).len() == 0,
{
    let title = blocks::plain_title(Seq::empty());
    assert(title.drop_last() =~= Seq::empty());
    assert(blocks::title_text(Seq::empty()).len() == 0);
}

proof fn lemma_markdown_text(text: Seq<char>)
    ensures
        blocks::title_text(blocks::markdown_title(text)) == text,
{
    let title = blocks::markdown_title(text);
    assert(title.drop_last() =~= Seq::empty());
    assert(blocks::title_text(Seq::empty()) =~= Seq::empty());
    assert(Seq::<char>::empty() + text =~= text);
}

proof fn lemma_parent_encloses(nodes: Nodes, i: int)
    requires
        0 <= i < nodes.len(),
    ensures
        document::parent_of(nodes, i) matches Some(p) ==> encloses(nodes, p, i) && lies_under(
            nodes,
            i,
            p,
        ) && forall|k: int| #[trigger] encloses(nodes, k, i) ==> k == p || encloses(nodes, k, p),
        document::parent_of(nodes, i) is None ==> forall|k: int| !#[trigger] encloses(nodes, k, i),
{
    document::lemma_above(nodes, nodes[i].depth, i);
    if let Some(p) = document::parent_of(nodes, i) {
        assert forall|k: int| #[trigger] encloses(nodes, k, i) implies k == p || encloses(
            nodes,
            k,
            p,
        ) by {
            if k > p {
                assert(nodes[i].depth > nodes[k].depth);
            }
        }
    } else {
        assert forall|k: int| !#[trigger] encloses(nodes, k, i) by {
            if encloses(nodes, k, i) {
                assert(nodes[i].depth > nodes[k].depth);
            }
        }
    }
}

proof fn lemma_encloses_on(nodes: Nodes, k: int, p: int, i: int)
    requires
        encloses(nodes, k, p),
        encloses(nodes, p, i),
    ensures
        encloses(nodes, k, i),
{
    assert(nodes[p].depth > nodes[k].depth);
    assert forall|j: int| k < j <= i implies (#[trigger] nodes[j]).depth > nodes[k].depth by {
        if j > p {
            assert(nodes[j].depth > nodes[p].depth);
        }
    }
}

proof fn lemma_innermost(nodes: Nodes, q: int, i: int)
    requires
        innermost(nodes, q, i),
    ensures
        quotes::nearest_quote(nodes, i) == Some(q),
    decreases i,
{
    lemma_parent_encloses(nodes, i);
    if q < i {
        let p = document::parent_of(nodes, i)->0;
        if p == q {
            assert(quotes::nearest_quote(nodes, q) == Some(q));
        } else {
            assert(encloses(nodes, q, p));
            assert(p > q);
            assert forall|k: int| q < k && #[trigger] encloses(nodes, k, p) implies !quoting(
                nodes[k],
            ) by {
                lemma_encloses_on(nodes, k, p, i);
            }
            lemma_innermost(nodes, q, p);
        }
    }
}

proof fn lemma_outermost(nodes: Nodes, q: int, m: int)
    requires
        outermost(nodes, q, m),
    ensures
        quotes::outermost_quote(nodes, m) == q,
    decreases m,
{
    lemma_parent_encloses(nodes, m);
    if q < m {
        let p = document::parent_of(nodes, m)->0;
        if p == q {
            lemma_outermost(nodes, q, q);
        } else {
            assert(encloses(nodes, q, p));
            assert forall|k: int| q < k && #[trigger] encloses(nodes, k, p) implies quoting(
                nodes[k],
            ) by {
                lemma_encloses_on(nodes, k, p, m);
            }
            lemma_outermost(nodes, q, p);
        }
    }
}

proof fn lemma_broken_off(s: EditorView, q: int, end: int, kind: BlockKind<Seq<char>>)
    requires
        ends_at(s.document, q, end),
        document::forest(s.document),
    ensures
        put_behind(s, quotes::broken_off(s, q, kind), q, end, kind),
{
    paste_laws::lemma_ends_at(s.document, q, end);
    lemma_empty();
    document::lemma_above(s.document, s.document[q].depth, q);
    if document::parent_of(s.document, q) is None && s.document[q].depth > 0 {
        if q > 0 {
            assert(s.document[0].depth >= s.document[q].depth);
        }
    }
}

// ---------------------------------------------------------------------------
// Laws
// ---------------------------------------------------------------------------

/// A quote that is broken is followed by a new quote: right behind the innermost quote
/// or callout that the block at `i` is or lies in. A block in no quote changes nothing.
pub proof fn breaking_a_quote_opens_one_behind_it(
    s: EditorView,
    i: int,
    q: int,
    end: int,
    facts: DocumentFacts,
    now: u64,
)
    requires
        document::well_formed(s.document, s.next_id),
        innermost(s.document, q, i),
        ends_at(s.document, q, end),
    ensures
        put_behind(
            s,
            quotes::quote_broken(s, s.document[i].id, facts, now),
            q,
            end,
            BlockKind::Quote,
        ),
{
    newline::lemma_index_is(s.document, i, 0);
    lemma_innermost(s.document, q, i);
    lemma_broken_off(quotes::begun(s, facts, now), q, end, BlockKind::Quote);
}

/// Leaving a callout goes into a new paragraph behind all the quotes and callouts that
/// the block at `i` lies in: right behind the outermost one.
pub proof fn leaving_a_callout_goes_behind_all_quotes(
    s: EditorView,
    i: int,
    m: int,
    q: int,
    end: int,
    facts: DocumentFacts,
    now: u64,
)
    requires
        document::well_formed(s.document, s.next_id),
        innermost(s.document, m, i),
        outermost(s.document, q, m),
        ends_at(s.document, q, end),
    ensures
        put_behind(
            s,
            quotes::callout_broken(s, s.document[i].id, facts, now),
            q,
            end,
            BlockKind::Paragraph,
        ),
{
    newline::lemma_index_is(s.document, i, 0);
    lemma_innermost(s.document, m, i);
    lemma_outermost(s.document, q, m);
    lemma_broken_off(quotes::begun(s, facts, now), q, end, BlockKind::Paragraph);
}

/// A block that is no quote and lies in none is left as it is by both.
pub proof fn outside_quotes_nothing_is_broken(
    s: EditorView,
    i: int,
    facts: DocumentFacts,
    now: u64,
)
    requires
        document::well_formed(s.document, s.next_id),
        0 <= i < s.document.len(),
        !quoting(s.document[i]),
        forall|k: int| #[trigger] encloses(s.document, k, i) ==> !quoting(s.document[k]),
    ensures
        quotes::quote_broken(s, s.document[i].id, facts, now) == s,
        quotes::callout_broken(s, s.document[i].id, facts, now) == s,
{
    newline::lemma_index_is(s.document, i, 0);
    lemma_no_quote(s.document, i);
}

proof fn lemma_no_quote(nodes: Nodes, i: int)
    requires
        0 <= i < nodes.len(),
        !quoting(nodes[i]),
        forall|k: int| #[trigger] encloses(nodes, k, i) ==> !quoting(nodes[k]),
    ensures
        quotes::nearest_quote(nodes, i) is None,
    decreases i,
{
    lemma_parent_encloses(nodes, i);
    if let Some(p) = document::parent_of(nodes, i) {
        assert forall|k: int| #[trigger] encloses(nodes, k, p) implies !quoting(nodes[k]) by {
            lemma_encloses_on(nodes, k, p, i);
        }
        lemma_no_quote(nodes, p);
    }
}

/// Entering a callout gives the focus to the first block under it. A callout with nothing
/// under it gets an empty paragraph there first.
pub proof fn entering_a_callout_goes_to_its_first_block(
    s: EditorView,
    i: int,
    facts: DocumentFacts,
    now: u64,
)
    requires
        document::well_formed(s.document, s.next_id),
        0 <= i < s.document.len(),
        s.document[i].kind is Callout,
    ensures
        ({
            let after = quotes::body_entered(s, s.document[i].id, facts, now).0;
            let filled = i + 1 < s.document.len() && s.document[i + 1].depth
                > s.document[i].depth;
            &&& filled ==> after.document == s.document && after.focus.pending_focus == Some(
                s.document[i + 1].id,
            )
            &&& !filled ==> {
                &&& after.document.len() == s.document.len() + 1
                &&& empty_block(
                    after.document[i + 1],
                    s.next_id,
                    BlockKind::Paragraph,
                    s.document[i].depth + 1,
                )
                &&& forall|k: int| 0 <= k <= i ==> #[trigger] after.document[k] == s.document[k]
                &&& forall|k: int|
                    i < k < s.document.len() ==> s.document[k] == #[trigger] after.document[k + 1]
                &&& after.focus.pending_focus == Some(s.next_id)
                &&& after.window.document_dirty
            }
        }),
{
    newline::lemma_index_is(s.document, i, 0);
    lemma_empty();
}

/// A quote whose text is the header of a callout becomes that callout, with the title of
/// the header and an empty paragraph under it.
pub proof fn a_typed_header_makes_a_callout(
    s: EditorView,
    i: int,
    variant: CalloutVariant,
    title: Seq<char>,
)
    requires
        0 <= i < s.document.len(),
        s.view_mode == ViewMode::Rendered,
        s.document[i].kind is Quote,
        i + 1 < s.document.len() ==> s.document[i + 1].depth <= s.document[i].depth,
        reading_laws::trimmed_text(title),
    ensures
        ({
            let header = seq!['[', '!'] + reading_laws::callout_word(variant) + seq![']', ' ']
                + title;
            let made = quotes::callout_made(s, i, header);
            let after = made.0.document;
            &&& after.len() == s.document.len() + 1
            &&& after[i].kind == BlockKind::<Seq<char>>::Callout(variant)
            &&& after[i].title == seq![InlineFragment { markdown: true, text: title }]
            &&& after[i].display_text == title
            &&& after[i].id == s.document[i].id
            &&& after[i].depth == s.document[i].depth
            &&& empty_block(
                after[i + 1],
                s.next_id,
                BlockKind::Paragraph,
                s.document[i].depth + 1,
            )
            &&& forall|k: int| 0 <= k < i ==> #[trigger] after[k] == s.document[k]
            &&& forall|k: int|
                i < k < s.document.len() ==> s.document[k] == #[trigger] after[k + 1]
            &&& made.1 == Some(s.next_id)
        }),
{
    reading_laws::lemma_callout_header(variant, title);
    lemma_empty();
    lemma_markdown_text(title);
}

/// A callout whose only block is an empty paragraph becomes a quote again when that
/// paragraph is given up. The quote holds the header of the callout.
pub proof fn a_given_up_callout_is_a_quote_of_its_header(
    s: EditorView,
    i: int,
    title: Seq<char>,
    facts: DocumentFacts,
    now: u64,
)
    requires
        document::well_formed(s.document, s.next_id),
        0 <= i,
        i + 1 < s.document.len(),
        s.document[i].kind is Callout,
        s.document[i + 1].depth == s.document[i].depth + 1,
        s.document[i + 1].kind is Paragraph,
        s.document[i + 1].display_text.len() == 0,
        i + 2 < s.document.len() ==> s.document[i + 2].depth <= s.document[i].depth,
    ensures
        ({
            let p = quotes::callout_to_downgrade(s, s.document[i + 1].id);
            let after = quotes::callout_downgraded(s, i, title, facts, now);
            let nodes = after.document;
            let word = reading_laws::callout_word(s.document[i].kind->Callout_0);
            &&& p == Some(i)
            &&& nodes.len() == s.document.len() - 1
            &&& nodes[i].kind is Quote
            &&& nodes[i].id == s.document[i].id
            &&& nodes[i].depth == s.document[i].depth
            &&& title.len() == 0 ==> nodes[i].display_text == seq!['[', '!'] + word + seq![']']
            &&& title.len() > 0 ==> nodes[i].display_text == seq!['[', '!'] + word
                + seq![']', ' '] + title
            &&& forall|k: int| 0 <= k < i ==> #[trigger] nodes[k] == s.document[k]
            &&& forall|k: int| i < k < nodes.len() ==> #[trigger] nodes[k] == s.document[k + 1]
            &&& after.focus.pending_focus == Some(s.document[i].id)
            &&& after.window.document_dirty
        }),
{
    newline::lemma_index_is(s.document, i + 1, 0);
    assert(document::parent_of(s.document, i + 1) == Some(i));
    assert(ends_at(s.document, i, i + 2));
    paste_laws::lemma_ends_at(s.document, i, i + 2);
    assert(ends_at(s.document, i + 1, i + 2));
    paste_laws::lemma_ends_at(s.document, i + 1, i + 2);
    let variant = s.document[i].kind->Callout_0;
    let header = kinds::callout_header_markdown(variant, title);
    lemma_markdown_text(header);
    reveal_strlit("[!");
    reveal_strlit("]");
    reveal_strlit("] ");
    reveal_strlit("NOTE");
    reveal_strlit("TIP");
    reveal_strlit("IMPORTANT");
    reveal_strlit("WARNING");
    reveal_strlit("CAUTION");
    assert(kinds::variant_name(variant) =~= reading_laws::callout_word(variant));
    assert("[!"@ =~= seq!['[', '!']);
    assert("]"@ =~= seq![']']);
    assert("] "@ =~= seq![']', ' ']);
}

/// A callout that has more than an empty paragraph, and a block that lies in no callout,
/// are not given up.
pub proof fn only_empty_callouts_are_given_up(s: EditorView, i: int)
    requires
        document::well_formed(s.document, s.next_id),
        0 <= i < s.document.len(),
        s.document[i].display_text.len() > 0 || !(s.document[i].kind is Paragraph)
            || s.document[i].depth == 0 || !(s.document[i - 1].kind is Callout),
    ensures
        quotes::callout_to_downgrade(s, s.document[i].id) is None,
{
    newline::lemma_index_is(s.document, i, 0);
    document::lemma_above(s.document, s.document[i].depth, i);
}

} // verus!
