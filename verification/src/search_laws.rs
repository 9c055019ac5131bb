//! What a search finds: every place where the query stands, and nothing else, in
//! document order.

use crate::document;
use crate::editor::{CellView, EditorView, NodeView, Nodes, SearchMatch, SearchView};
use crate::search;
use crate::text;
use vstd::prelude::*;
use vstd::utf8::*;

verus! {

// ---------------------------------------------------------------------------
// Texts
// ---------------------------------------------------------------------------

/// Whether two characters are the same but for the case of an ASCII letter.
pub open spec fn same_letter(a: char, b: char) -> bool {
    ||| a == b
    ||| 'A' <= a <= 'Z' && b as u32 == a as u32 + 32
    ||| 'A' <= b <= 'Z' && a as u32 == b as u32 + 32
}

/// Whether a query stands in a text at a position, ASCII case aside.
pub open spec fn stands_at(s: Seq<char>, query: Seq<char>, at: int) -> bool {
    &&& query.len() > 0
    &&& 0 <= at
    &&& at + query.len() <= s.len()
    &&& forall|j: int| 0 <= j < query.len() ==> same_letter(s[at + j], #[trigger] query[j])
}

/// Where the character at `at` starts among the bytes of a text.
pub open spec fn byte_at(s: Seq<char>, at: int) -> int {
    encode_utf8(s.subrange(0, at)).len() as int
}

/// Whether a match is the query at position `at` of a text of this block or cell.
pub open spec fn is_match_at(
    found: SearchMatch,
    id: u64,
    s: Seq<char>,
    query: Seq<char>,
    at: int,
) -> bool {
    &&& found.entity_id == id
    &&& found.start == byte_at(s, at)
    &&& found.end == byte_at(s, at + query.len())
}

/// A text of a document: that of a block that is no table, in row 0 and column 0, or
/// that of a cell of a table, the header being row 0.
pub open spec fn text_there(nodes: Nodes, k: int, row: int, column: int) -> bool {
    0 <= k < nodes.len() && if nodes[k].kind is Table {
        nodes[k].runtime matches Some(cells) && {
            ||| row == 0 && 0 <= column < cells.header.len()
            ||| 1 <= row <= cells.rows.len() && 0 <= column < cells.rows[row - 1].len()
        }
    } else {
        row == 0 && column == 0
    }
}

/// The id of the block or cell that a text is of.
pub open spec fn id_there(nodes: Nodes, k: int, row: int, column: int) -> u64 {
    if nodes[k].kind is Table {
        if row == 0 {
            nodes[k].runtime->0.header[column].id
        } else {
            nodes[k].runtime->0.rows[row - 1][column].id
        }
    } else {
        nodes[k].id
    }
}

/// A text of a document.
pub open spec fn text_at(nodes: Nodes, k: int, row: int, column: int) -> Seq<char> {
    if nodes[k].kind is Table {
        if row == 0 {
            nodes[k].runtime->0.header[column].display_text
        } else {
            nodes[k].runtime->0.rows[row - 1][column].display_text
        }
    } else {
        nodes[k].display_text
    }
}

/// Whether one text of a document comes before another.
pub open spec fn comes_before(
    k: int,
    row: int,
    column: int,
    l: int,
    other_row: int,
    other_column: int,
) -> bool {
    k < l || (k == l && (row < other_row || (row == other_row && column < other_column)))
}

proof fn lemma_letters(a: char, b: char)
    ensures
        same_letter(a, b) <==> text::ascii_lower(a) == text::ascii_lower(b),
{
}

proof fn lemma_stands(s: Seq<char>, query: Seq<char>, at: int)
    requires
        query.len() > 0,
    ensures
        stands_at(s, query, at) <==> text::occurs_at(search::folded(s), search::folded(query), at),
{
    let hay = search::folded(s);
    let needle = search::folded(query);
    if 0 <= at && at + query.len() <= s.len() {
        let part = hay.subrange(at, at + needle.len());
        if stands_at(s, query, at) {
            assert forall|j: int| 0 <= j < needle.len() implies part[j] == needle[j] by {
                assert(same_letter(s[at + j], query[j]));
                lemma_letters(s[at + j], query[j]);
            }
            assert(part =~= needle);
        }
        if part == needle {
            assert forall|j: int| 0 <= j < query.len() implies same_letter(
                s[at + j],
                #[trigger] query[j],
            ) by {
                assert(part[j] == needle[j]);
                lemma_letters(s[at + j], query[j]);
            }
        }
    }
}

proof fn lemma_bytes(s: Seq<char>, at: int)
    requires
        0 <= at <= s.len(),
    ensures
        search::byte_offset(s, at) == byte_at(s, at),
        0 <= byte_at(s, at) <= encode_utf8(s).len(),
{
    assert(s.take(at) =~= s.subrange(0, at));
    search::offsets_lie_on_character_boundaries(s, at);
}

/// The matches in one text.
spec fn in_text(id: u64, s: Seq<char>, query: Seq<char>) -> Seq<SearchMatch> {
    search::text_matches(id, s, search::folded(query))
}

proof fn lemma_text_match(id: u64, s: Seq<char>, query: Seq<char>, m: int) -> (at: int)
    requires
        encode_utf8(s).len() <= usize::MAX,
        0 <= m < in_text(id, s, query).len(),
    ensures
        at == search::occurrences(s, search::folded(query), 0)[m].0,
        stands_at(s, query, at),
        is_match_at(in_text(id, s, query)[m], id, s, query, at),
{
    let needle = search::folded(query);
    search::matches_are_the_query(s, needle, 0, m);
    let place = search::occurrences(s, needle, 0)[m];
    assert(place.1 - place.0 == needle.len()) by {
        assert(search::folded(s.subrange(place.0, place.1)).len() == place.1 - place.0);
    }
    assert(search::folded(s).subrange(place.0, place.1) =~= search::folded(
        s.subrange(place.0, place.1),
    ));
    lemma_stands(s, query, place.0);
    lemma_bytes(s, place.0);
    lemma_bytes(s, place.1);
    place.0
}

proof fn lemma_text_covered(id: u64, s: Seq<char>, query: Seq<char>, at: int) -> (r: (int, int))
    requires
        encode_utf8(s).len() <= usize::MAX,
        stands_at(s, query, at),
    ensures
        0 <= r.0 < in_text(id, s, query).len(),
        r.1 <= at < r.1 + query.len(),
        stands_at(s, query, r.1),
        is_match_at(in_text(id, s, query)[r.0], id, s, query, r.1),
{
    lemma_stands(s, query, at);
    let m = search::no_match_is_missed(s, search::folded(query), 0, at);
    let from = lemma_text_match(id, s, query, m);
    search::matches_are_the_query(s, search::folded(query), 0, m);
    let place = search::occurrences(s, search::folded(query), 0)[m];
    assert(search::folded(s.subrange(place.0, place.1)).len() == place.1 - place.0);
    (m, from)
}

proof fn lemma_text_order(id: u64, s: Seq<char>, query: Seq<char>, m: int, n: int)
    requires
        encode_utf8(s).len() <= usize::MAX,
        0 <= m < n < in_text(id, s, query).len(),
    ensures
        in_text(id, s, query)[m].end <= in_text(id, s, query)[n].start,
{
    let needle = search::folded(query);
    let a = lemma_text_match(id, s, query, m);
    let b = lemma_text_match(id, s, query, n);
    search::matches_do_not_overlap(s, needle, 0, m, n);
    search::matches_are_the_query(s, needle, 0, m);
    let place = search::occurrences(s, needle, 0)[m];
    assert(search::folded(s.subrange(place.0, place.1)).len() == place.1 - place.0);
    lemma_bytes_grow(s, a + query.len(), b);
}

proof fn lemma_bytes_grow(s: Seq<char>, a: int, b: int)
    requires
        0 <= a <= b <= s.len(),
    ensures
        byte_at(s, a) <= byte_at(s, b),
{
    let part = s.subrange(0, b);
    lemma_bytes(part, a);
    assert(part.subrange(0, a) =~= s.subrange(0, a));
}

// ---------------------------------------------------------------------------
// Parts behind one another
// ---------------------------------------------------------------------------

/// The parts one behind the other.
spec fn chained<A>(parts: Seq<Seq<A>>) -> Seq<A>
    decreases parts.len(),
{
    if parts.len() == 0 {
        Seq::empty()
    } else {
        chained(parts.drop_last()) + parts.last()
    }
}

/// Where a part starts.
spec fn part_start<A>(parts: Seq<Seq<A>>, p: int) -> int {
    chained(parts.take(p)).len() as int
}

proof fn lemma_part<A>(parts: Seq<Seq<A>>, p: int)
    requires
        0 <= p < parts.len(),
    ensures
        0 <= part_start(parts, p),
        part_start(parts, p) + parts[p].len() <= chained(parts).len(),
        forall|j: int|
            0 <= j < parts[p].len() ==> chained(parts)[part_start(parts, p) + j]
                == #[trigger] parts[p][j],
    decreases parts.len(),
{
    if p == parts.len() - 1 {
        assert(parts.take(p) =~= parts.drop_last());
    } else {
        let shorter = parts.drop_last();
        lemma_part(shorter, p);
        assert(shorter.take(p) =~= parts.take(p));
        assert(shorter[p] == parts[p]);
        assert forall|j: int| 0 <= j < parts[p].len() implies chained(parts)[part_start(parts, p)
            + j] == #[trigger] parts[p][j] by {
            assert(shorter[p][j] == parts[p][j]);
        }
    }
}

proof fn lemma_part_order<A>(parts: Seq<Seq<A>>, p: int, q: int)
    requires
        0 <= p < q < parts.len(),
    ensures
        part_start(parts, p) + parts[p].len() <= part_start(parts, q),
{
    let shorter = parts.take(q);
    lemma_part(shorter, p);
    assert(shorter.take(p) =~= parts.take(p));
}

proof fn lemma_part_found<A>(parts: Seq<Seq<A>>, m: int) -> (p: int)
    requires
        0 <= m < chained(parts).len(),
    ensures
        0 <= p < parts.len(),
        part_start(parts, p) <= m < part_start(parts, p) + parts[p].len(),
        chained(parts)[m] == parts[p][m - part_start(parts, p)],
    decreases parts.len(),
{
    let shorter = parts.drop_last();
    let start = chained(shorter).len();
    if m < start {
        let p = lemma_part_found(shorter, m);
        assert(shorter.take(p) =~= parts.take(p));
        p
    } else {
        assert(parts.take(parts.len() - 1) =~= shorter);
        parts.len() - 1
    }
}

spec fn row_parts(cells: Seq<CellView>, query: Seq<char>) -> Seq<Seq<SearchMatch>> {
    Seq::new(cells.len(), |c: int| in_text(cells[c].id, cells[c].display_text, query))
}

spec fn body_parts(rows: Seq<Seq<CellView>>, query: Seq<char>) -> Seq<Seq<SearchMatch>> {
    Seq::new(rows.len(), |r: int| chained(row_parts(rows[r], query)))
}

/// The matches in a block, table or not.
spec fn in_node(node: NodeView, query: Seq<char>) -> Seq<SearchMatch> {
    if node.kind is Table {
        match node.runtime {
            Some(cells) => chained(row_parts(cells.header, query)) + chained(
                body_parts(cells.rows, query),
            ),
            None => Seq::empty(),
        }
    } else {
        in_text(node.id, node.display_text, query)
    }
}

spec fn node_parts(nodes: Nodes, query: Seq<char>) -> Seq<Seq<SearchMatch>> {
    Seq::new(nodes.len(), |k: int| in_node(nodes[k], query))
}

proof fn lemma_row_parts(cells: Seq<CellView>, query: Seq<char>)
    ensures
        search::row_matches(cells, search::folded(query)) == chained(row_parts(cells, query)),
    decreases cells.len(),
{
    if cells.len() > 0 {
        lemma_row_parts(cells.drop_last(), query);
        assert(row_parts(cells, query).drop_last() =~= row_parts(cells.drop_last(), query));
    }
}

proof fn lemma_body_parts(rows: Seq<Seq<CellView>>, query: Seq<char>)
    ensures
        search::body_matches(rows, search::folded(query)) == chained(body_parts(rows, query)),
    decreases rows.len(),
{
    if rows.len() > 0 {
        lemma_body_parts(rows.drop_last(), query);
        lemma_row_parts(rows.last(), query);
        assert(body_parts(rows, query).drop_last() =~= body_parts(rows.drop_last(), query));
    }
}

proof fn lemma_node_parts(nodes: Nodes, query: Seq<char>)
    ensures
        search::document_matches(nodes, search::folded(query)) == chained(
            node_parts(nodes, query),
        ),
    decreases nodes.len(),
{
    if nodes.len() > 0 {
        lemma_node_parts(nodes.drop_last(), query);
        assert(node_parts(nodes, query).drop_last() =~= node_parts(nodes.drop_last(), query));
        if let Some(cells) = nodes.last().runtime {
            lemma_row_parts(cells.header, query);
            lemma_body_parts(cells.rows, query);
        }
    }
}

/// Where the matches in a text start among those of its block.
spec fn start_in_node(node: NodeView, row: int, column: int, query: Seq<char>) -> int {
    if node.kind is Table {
        let cells = node.runtime->0;
        if row == 0 {
            part_start(row_parts(cells.header, query), column)
        } else {
            chained(row_parts(cells.header, query)).len() + part_start(
                body_parts(cells.rows, query),
                row - 1,
            ) + part_start(row_parts(cells.rows[row - 1], query), column)
        }
    } else {
        0
    }
}

/// Where the matches in a text start among those of the document.
spec fn start_of(nodes: Nodes, k: int, row: int, column: int, query: Seq<char>) -> int {
    part_start(node_parts(nodes, query), k) + start_in_node(nodes[k], row, column, query)
}

/// The matches in a text of a document.
spec fn matches_there(nodes: Nodes, k: int, row: int, column: int, query: Seq<char>) -> Seq<
    SearchMatch,
> {
    in_text(id_there(nodes, k, row, column), text_at(nodes, k, row, column), query)
}

proof fn lemma_in_node(nodes: Nodes, k: int, row: int, column: int, query: Seq<char>)
    requires
        text_there(nodes, k, row, column),
    ensures
        ({
            let start = start_in_node(nodes[k], row, column, query);
            let part = matches_there(nodes, k, row, column, query);
            &&& 0 <= start
            &&& start + part.len() <= in_node(nodes[k], query).len()
            &&& forall|j: int|
                0 <= j < part.len() ==> in_node(nodes[k], query)[start + j] == #[trigger] part[j]
        }),
{
    let start = start_in_node(nodes[k], row, column, query);
    let part = matches_there(nodes, k, row, column, query);
    if nodes[k].kind is Table {
        let cells = nodes[k].runtime->0;
        let head = chained(row_parts(cells.header, query));
        let body = chained(body_parts(cells.rows, query));
        if row == 0 {
            lemma_part(row_parts(cells.header, query), column);
            assert forall|j: int| 0 <= j < part.len() implies in_node(nodes[k], query)[start + j]
                == #[trigger] part[j] by {
                assert(row_parts(cells.header, query)[column][j] == part[j]);
            }
        } else {
            let in_row = row_parts(cells.rows[row - 1], query);
            let rows = body_parts(cells.rows, query);
            lemma_part(rows, row - 1);
            lemma_part(in_row, column);
            assert(rows[row - 1] == chained(in_row));
            assert forall|j: int| 0 <= j < part.len() implies in_node(nodes[k], query)[start + j]
                == #[trigger] part[j] by {
                let inner = part_start(in_row, column) + j;
                assert(in_row[column][j] == part[j]);
                assert(rows[row - 1][inner] == part[j]);
                assert(body[part_start(rows, row - 1) + inner] == rows[row - 1][inner]);
            }
        }
    }
}

proof fn lemma_there(nodes: Nodes, k: int, row: int, column: int, query: Seq<char>)
    requires
        text_there(nodes, k, row, column),
    ensures
        ({
            let all = search::document_matches(nodes, search::folded(query));
            let start = start_of(nodes, k, row, column, query);
            let part = matches_there(nodes, k, row, column, query);
            &&& part_start(node_parts(nodes, query), k) <= start
            &&& start + part.len() <= part_start(node_parts(nodes, query), k) + in_node(
                nodes[k],
                query,
            ).len()
            &&& start + part.len() <= all.len()
            &&& forall|j: int| 0 <= j < part.len() ==> all[start + j] == #[trigger] part[j]
        }),
{
    let all = search::document_matches(nodes, search::folded(query));
    let start = start_of(nodes, k, row, column, query);
    let part = matches_there(nodes, k, row, column, query);
    let parts = node_parts(nodes, query);
    lemma_node_parts(nodes, query);
    lemma_part(parts, k);
    lemma_in_node(nodes, k, row, column, query);
    assert forall|j: int| 0 <= j < part.len() implies all[start + j] == #[trigger] part[j] by {
        let inner = start_in_node(nodes[k], row, column, query) + j;
        assert(in_node(nodes[k], query)[inner] == part[j]);
        assert(parts[k][inner] == part[j]);
    }
}

proof fn lemma_starts_in_order(
    nodes: Nodes,
    k: int,
    row: int,
    column: int,
    l: int,
    other_row: int,
    other_column: int,
    query: Seq<char>,
)
    requires
        text_there(nodes, k, row, column),
        text_there(nodes, l, other_row, other_column),
        comes_before(k, row, column, l, other_row, other_column),
    ensures
        start_of(nodes, k, row, column, query) + matches_there(nodes, k, row, column, query).len()
            <= start_of(nodes, l, other_row, other_column, query),
{
    lemma_there(nodes, k, row, column, query);
    lemma_there(nodes, l, other_row, other_column, query);
    if k < l {
        lemma_part_order(node_parts(nodes, query), k, l);
    } else {
        let cells = nodes[k].runtime->0;
        let rows = body_parts(cells.rows, query);
        if row == 0 {
            lemma_part(row_parts(cells.header, query), column);
            if other_row == 0 {
                lemma_part_order(row_parts(cells.header, query), column, other_column);
            }
        } else {
            lemma_part(row_parts(cells.rows[row - 1], query), column);
            if row == other_row {
                lemma_part_order(row_parts(cells.rows[row - 1], query), column, other_column);
            } else {
                lemma_part_order(rows, row - 1, other_row - 1);
            }
        }
    }
}

proof fn lemma_found_in(nodes: Nodes, query: Seq<char>, m: int) -> (place: (int, int, int, int))
    requires
        0 <= m < search::document_matches(nodes, search::folded(query)).len(),
    ensures
        text_there(nodes, place.0, place.1, place.2),
        0 <= place.3 < matches_there(nodes, place.0, place.1, place.2, query).len(),
        m == start_of(nodes, place.0, place.1, place.2, query) + place.3,
        search::document_matches(nodes, search::folded(query))[m] == matches_there(
            nodes,
            place.0,
            place.1,
            place.2,
            query,
        )[place.3],
{
    lemma_node_parts(nodes, query);
    let parts = node_parts(nodes, query);
    let k = lemma_part_found(parts, m);
    let inner = m - part_start(parts, k);
    if nodes[k].kind is Table {
        let cells = nodes[k].runtime->0;
        let head = chained(row_parts(cells.header, query));
        if inner < head.len() {
            let column = lemma_part_found(row_parts(cells.header, query), inner);
            (k, 0, column, inner - part_start(row_parts(cells.header, query), column))
        } else {
            let rows = body_parts(cells.rows, query);
            let r = lemma_part_found(rows, inner - head.len());
            let deeper = inner - head.len() - part_start(rows, r);
            let in_row = row_parts(cells.rows[r], query);
            assert(rows[r] == chained(in_row));
            let column = lemma_part_found(in_row, deeper);
            (k, r + 1, column, deeper - part_start(in_row, column))
        }
    } else {
        (k, 0, 0, inner)
    }
}

// ---------------------------------------------------------------------------
// Laws
// ---------------------------------------------------------------------------

/// Whether the bytes of every text of a document can be counted.
pub open spec fn texts_fit(nodes: Nodes) -> bool {
    forall|k: int, row: int, column: int| #[trigger]
        text_there(nodes, k, row, column) ==> encode_utf8(text_at(nodes, k, row, column)).len()
            <= usize::MAX
}

/// The matches that the search bar holds.
pub open spec fn found(s: EditorView) -> Seq<SearchMatch> {
    (s.overlays.search_bar->0).matches
}

/// Wherever the query stands in a block that is no table or in a cell of a table, header
/// or body, there is a match of that block or cell over its first character. It starts
/// right there unless another place of the query overlaps it from before.
pub proof fn every_place_of_the_query_is_found(
    s: EditorView,
    query: Seq<char>,
    k: int,
    row: int,
    column: int,
    at: int,
)
    requires
        s.overlays.search_bar is Some,
        texts_fit(s.document),
        text_there(s.document, k, row, column),
        stands_at(text_at(s.document, k, row, column), query, at),
    ensures
        ({
            let matches = found(search::queried(s, query));
            let id = id_there(s.document, k, row, column);
            let text = text_at(s.document, k, row, column);
            &&& exists|m: int, from: int|
                0 <= m < matches.len() && from <= at < from + query.len() && stands_at(
                    text,
                    query,
                    from,
                ) && #[trigger] is_match_at(matches[m], id, text, query, from)
            &&& (forall|other: int|
                at - query.len() < other < at ==> !#[trigger] stands_at(text, query, other))
                ==> exists|m: int|
                0 <= m < matches.len() && #[trigger] is_match_at(matches[m], id, text, query, at)
        }),
{
    let nodes = s.document;
    let matches = found(search::queried(s, query));
    assert(matches == search::document_matches(nodes, search::folded(query)));
    let id = id_there(nodes, k, row, column);
    let text = text_at(nodes, k, row, column);
    let hit = lemma_text_covered(id, text, query, at);
    lemma_there(nodes, k, row, column, query);
    let m = start_of(nodes, k, row, column, query) + hit.0;
    assert(matches[m] == matches_there(nodes, k, row, column, query)[hit.0]);
    assert(is_match_at(matches[m], id, text, query, hit.1));
}

/// Every match is a place where the query stands in the text of its block or cell. The
/// search changes nothing but the search bar, and no match is stepped to yet.
pub proof fn every_match_is_a_place_of_the_query(s: EditorView, query: Seq<char>, m: int)
    requires
        s.overlays.search_bar is Some,
        texts_fit(s.document),
        0 <= m < found(search::queried(s, query)).len(),
    ensures
        exists|k: int, row: int, column: int, at: int|
            text_there(s.document, k, row, column) && stands_at(
                text_at(s.document, k, row, column),
                query,
                at,
            ) && #[trigger] is_match_at(
                found(search::queried(s, query))[m],
                id_there(s.document, k, row, column),
                text_at(s.document, k, row, column),
                query,
                at,
            ),
        search::queried(s, query).document == s.document,
        (search::queried(s, query).overlays.search_bar->0).query == query,
        (search::queried(s, query).overlays.search_bar->0).active_index is None,
{
    let nodes = s.document;
    let matches = found(search::queried(s, query));
    assert(matches == search::document_matches(nodes, search::folded(query)));
    let place = lemma_found_in(nodes, query, m);
    let id = id_there(nodes, place.0, place.1, place.2);
    let text = text_at(nodes, place.0, place.1, place.2);
    let at = lemma_text_match(id, text, query, place.3);
    assert(is_match_at(matches[m], id, text, query, at));
}

proof fn lemma_texts_have_ids_of_their_own(
    nodes: Nodes,
    next_id: u64,
    k: int,
    row: int,
    column: int,
    l: int,
    other_row: int,
    other_column: int,
)
    requires
        document::well_formed(nodes, next_id),
        text_there(nodes, k, row, column),
        text_there(nodes, l, other_row, other_column),
        id_there(nodes, k, row, column) == id_there(nodes, l, other_row, other_column),
    ensures
        k == l && row == other_row && column == other_column,
{
    reveal(document::cells_apart);
    if nodes[k].kind is Table {
        assert(document::cell_there(nodes, k, row, column));
        if !(nodes[l].kind is Table) {
            assert(nodes[l].id == id_there(nodes, k, row, column));
        }
    }
    if nodes[l].kind is Table {
        assert(document::cell_there(nodes, l, other_row, other_column));
        if !(nodes[k].kind is Table) {
            assert(nodes[k].id == id_there(nodes, l, other_row, other_column));
        }
    }
}

/// Matches come in document order: block by block, in a table row by row from the header
/// on and cell by cell, and in one text from its start to its end without overlapping.
pub proof fn matches_come_in_document_order(
    s: EditorView,
    query: Seq<char>,
    m: int,
    n: int,
    k: int,
    row: int,
    column: int,
    l: int,
    other_row: int,
    other_column: int,
)
    requires
        document::well_formed(s.document, s.next_id),
        s.overlays.search_bar is Some,
        texts_fit(s.document),
        0 <= m < n < found(search::queried(s, query)).len(),
        text_there(s.document, k, row, column),
        text_there(s.document, l, other_row, other_column),
        found(search::queried(s, query))[m].entity_id == id_there(s.document, k, row, column),
        found(search::queried(s, query))[n].entity_id == id_there(
            s.document,
            l,
            other_row,
            other_column,
        ),
    ensures
        comes_before(k, row, column, l, other_row, other_column) || (k == l && row == other_row
            && column == other_column && found(search::queried(s, query))[m].end <= found(
            search::queried(s, query),
        )[n].start),
{
    let nodes = s.document;
    let matches = found(search::queried(s, query));
    assert(matches == search::document_matches(nodes, search::folded(query)));
    let p = lemma_found_in(nodes, query, m);
    let q = lemma_found_in(nodes, query, n);
    let a = lemma_text_match(
        id_there(nodes, p.0, p.1, p.2),
        text_at(nodes, p.0, p.1, p.2),
        query,
        p.3,
    );
    let b = lemma_text_match(
        id_there(nodes, q.0, q.1, q.2),
        text_at(nodes, q.0, q.1, q.2),
        query,
        q.3,
    );
    lemma_texts_have_ids_of_their_own(nodes, s.next_id, k, row, column, p.0, p.1, p.2);
    lemma_texts_have_ids_of_their_own(
        nodes,
        s.next_id,
        l,
        other_row,
        other_column,
        q.0,
        q.1,
        q.2,
    );
    if comes_before(l, other_row, other_column, k, row, column) {
        lemma_starts_in_order(nodes, l, other_row, other_column, k, row, column, query);
    }
    if k == l && row == other_row && column == other_column {
        lemma_text_order(
            id_there(nodes, k, row, column),
            text_at(nodes, k, row, column),
            query,
            p.3,
            q.3,
        );
    }
}

/// A step goes to the next match, from the last one to the first, and the other way
/// round backwards; the first step goes to the first match. The text of the match is
/// what the focus goes to, if its block or cell is still there.
pub proof fn steps_go_through_the_matches_in_order(s: EditorView, bar: SearchView, forward: bool)
    requires
        s.overlays.search_bar == Some(bar),
        bar.matches.len() > 0,
        bar.matches.len() <= usize::MAX,
        bar.active_index matches Some(i) ==> i < bar.matches.len(),
    ensures
        ({
            let after = search::stepped(s, forward);
            let count = bar.matches.len() as int;
            let next: int = match bar.active_index {
                None => 0,
                Some(i) => if forward {
                    if i + 1 == count {
                        0
                    } else {
                        i + 1
                    }
                } else if i == 0 {
                    count - 1
                } else {
                    i - 1
                },
            };
            &&& after.overlays.search_bar matches Some(b) && b.active_index == Some(next as usize)
                && b.matches == bar.matches && b.query == bar.query
            &&& crate::targets::focusable(s.document, bar.matches[next].entity_id)
                ==> after.focus.pending_focus == Some(bar.matches[next].entity_id)
        }),
{
    if let Some(i) = bar.active_index {
        search::lemma_steps(i as int, bar.matches.len() as int);
    }
}

} // verus!
