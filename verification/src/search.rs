//! The search bar: finding a query in the document and stepping through what
//! was found.
//!
//! Letters are compared without regard to ASCII case. Matches are byte ranges
//! of the text of a block or cell; since only ASCII letters are folded, they lie
//! on character boundaries.

use crate::blocks;
use crate::blocks::BlockKind;
use crate::editor;
use crate::editor::{
    CellView, Editor, EditorView, NodeView, Nodes, OverlaysView, SearchBarState, SearchMatch,
    SearchView, TableCell, TableRuntime,
};
use crate::focus;
use crate::images;
use crate::images::push_decimal;
use crate::targets;
use crate::targets::is_focusable;
use crate::text;
use crate::text::{chars_of, find_from, lower_ascii, same_text, slice_text};
use std::ops::Range;
use vstd::prelude::*;
use vstd::utf8::*;

verus! {

// ---------------------------------------------------------------------------
// Matches in a text
// ---------------------------------------------------------------------------

/// The text with its ASCII letters in lower case.
pub open spec fn folded(s: Seq<char>) -> Seq<char> {
    Seq::new(s.len(), |i: int| text::ascii_lower(s[i]))
}

/// The places where a lower-case query stands in a text from `from` on, each as
/// the positions of its first character and of the one after its last. A match
/// starts where the one before it ends or later.
pub open spec fn occurrences(s: Seq<char>, needle: Seq<char>, from: int) -> Seq<(int, int)>
    decreases s.len() - from,
{
    if needle.len() == 0 || from < 0 || from >= s.len() {
        Seq::empty()
    } else {
        proof {
            text::lemma_find_at(folded(s), needle, from);
        }
        match text::find_at(folded(s), needle, from) {
            None => Seq::empty(),
            Some(at) => seq![(at, at + needle.len() as int)] + occurrences(
                s,
                needle,
                at + needle.len() as int,
            ),
        }
    }
}

/// The byte offset of the character at `i`.
pub open spec fn byte_offset(s: Seq<char>, i: int) -> int {
    encode_utf8(s.take(i)).len() as int
}

/// The matches as byte ranges.
pub open spec fn byte_ranges(s: Seq<char>, needle: Seq<char>) -> Seq<(int, int)> {
    let places = occurrences(s, needle, 0);
    Seq::new(places.len(), |i: int| (byte_offset(s, places[i].0), byte_offset(s, places[i].1)))
}

/// The bounds of ranges.
pub open spec fn bounds(ranges: Seq<Range<usize>>) -> Seq<(int, int)> {
    Seq::new(ranges.len(), |i: int| (ranges[i].start as int, ranges[i].end as int))
}

// ---------------------------------------------------------------------------
// Matches in a document
// ---------------------------------------------------------------------------

/// The matches in the text of one block or cell.
pub open spec fn text_matches(id: u64, s: Seq<char>, needle: Seq<char>) -> Seq<SearchMatch> {
    let ranges = byte_ranges(s, needle);
    Seq::new(
        ranges.len(),
        |i: int|
            SearchMatch {
                entity_id: id,
                start: ranges[i].0 as usize,
                end: ranges[i].1 as usize,
            },
    )
}

/// The matches in a row of cells.
pub open spec fn row_matches(cells: Seq<CellView>, needle: Seq<char>) -> Seq<SearchMatch>
    decreases cells.len(),
{
    if cells.len() == 0 {
        Seq::empty()
    } else {
        row_matches(cells.drop_last(), needle) + text_matches(
            cells.last().id,
            cells.last().display_text,
            needle,
        )
    }
}

/// The matches in rows of cells.
pub open spec fn body_matches(rows: Seq<Seq<CellView>>, needle: Seq<char>) -> Seq<SearchMatch>
    decreases rows.len(),
{
    if rows.len() == 0 {
        Seq::empty()
    } else {
        body_matches(rows.drop_last(), needle) + row_matches(rows.last(), needle)
    }
}

/// The matches in a block: in the cells of a table, and in the text of any other.
pub open spec fn node_matches(node: NodeView, needle: Seq<char>) -> Seq<SearchMatch> {
    if node.kind is Table {
        match node.runtime {
            Some(runtime) => row_matches(runtime.header, needle) + body_matches(
                runtime.rows,
                needle,
            ),
            None => Seq::empty(),
        }
    } else {
        text_matches(node.id, node.display_text, needle)
    }
}

/// The matches in a document, in visible order.
pub open spec fn document_matches(nodes: Nodes, needle: Seq<char>) -> Seq<SearchMatch>
    decreases nodes.len(),
{
    if nodes.len() == 0 {
        Seq::empty()
    } else {
        document_matches(nodes.drop_last(), needle) + node_matches(nodes.last(), needle)
    }
}

// ---------------------------------------------------------------------------
// The search bar
// ---------------------------------------------------------------------------

/// The state with another search bar.
pub open spec fn with_bar(s: EditorView, bar: Option<SearchView>) -> EditorView {
    EditorView { overlays: OverlaysView { search_bar: bar, ..s.overlays }, ..s }
}

/// The state with the matches of the query looked up anew. None of them is
/// stepped to yet.
pub open spec fn searched(s: EditorView) -> EditorView {
    match s.overlays.search_bar {
        None => s,
        Some(bar) => with_bar(
            s,
            Some(
                SearchView {
                    matches: document_matches(s.document, folded(bar.query)),
                    active_index: None,
                    ..bar
                },
            ),
        ),
    }
}

/// The state with another query, and its matches looked up.
pub open spec fn queried(s: EditorView, query: Seq<char>) -> EditorView {
    match s.overlays.search_bar {
        None => s,
        Some(bar) => searched(with_bar(s, Some(SearchView { query, ..bar }))),
    }
}

/// The state with one of the matches stepped to: its text is selected and its
/// block or cell focused, if that is still there.
pub open spec fn match_shown(s: EditorView, index: int) -> EditorView {
    match s.overlays.search_bar {
        None => s,
        Some(bar) => if 0 <= index < bar.matches.len() {
            let found = bar.matches[index];
            let active = with_bar(
                s,
                Some(SearchView { active_index: Some(index as usize), ..bar }),
            );
            if targets::focusable(s.document, found.entity_id) {
                targets::range_focused(active, found.entity_id, found.start, found.end)
            } else {
                active
            }
        } else {
            s
        },
    }
}

/// The match after or before the active one, going around at the ends, or the
/// first one where none is active.
pub open spec fn stepped_index(active: Option<usize>, count: int, forward: bool) -> int {
    match active {
        Some(current) => if forward {
            (current + 1) % count
        } else {
            (current + count - 1) % count
        },
        None => 0,
    }
}

/// The state after a step through the matches.
pub open spec fn stepped(s: EditorView, forward: bool) -> EditorView {
    match s.overlays.search_bar {
        None => s,
        Some(bar) => if bar.matches.len() == 0 {
            s
        } else {
            match_shown(s, stepped_index(bar.active_index, bar.matches.len() as int, forward))
        },
    }
}

/// Whether the active match, if there is one, is one of the matches.
pub open spec fn bar_ok(s: EditorView) -> bool {
    s.overlays.search_bar matches Some(bar) ==> bar.active_index matches Some(i) ==> i
        < bar.matches.len()
}

/// What the search bar shows next to the query: the number of the active match, or
/// zero, and how many there are.
pub open spec fn count_label(bar: SearchView, no_matches: Seq<char>) -> Seq<char> {
    if bar.query.len() == 0 {
        Seq::empty()
    } else if bar.matches.len() == 0 {
        no_matches
    } else {
        let active = match bar.active_index {
            Some(i) => (i + 1) as nat,
            None => 0,
        };
        images::decimal(active) + "/"@ + images::decimal(bar.matches.len())
    }
}

/// The state with an empty search bar open, unless one is open already.
pub open spec fn bar_opened(s: EditorView, previous_focus: Option<u64>) -> EditorView {
    if s.overlays.search_bar is Some {
        s
    } else {
        with_bar(
            s,
            Some(
                SearchView {
                    query: Seq::empty(),
                    matches: Seq::empty(),
                    active_index: None,
                    previous_focus,
                },
            ),
        )
    }
}

/// The state with the search bar closed. Where no match was stepped to, the focus
/// goes back to where it was.
pub open spec fn bar_closed(s: EditorView) -> EditorView {
    match s.overlays.search_bar {
        None => s,
        Some(bar) => {
            let closed = with_bar(s, None);
            match bar.previous_focus {
                Some(previous) => if bar.active_index is None {
                    focus::focused(closed, previous)
                } else {
                    closed
                },
                None => closed,
            }
        },
    }
}

/// The text without its line breaks.
pub open spec fn one_line(s: Seq<char>) -> Seq<char>
    decreases s.len(),
{
    if s.len() == 0 {
        Seq::empty()
    } else if s.last() == '\n' || s.last() == '\r' {
        one_line(s.drop_last())
    } else {
        one_line(s.drop_last()).push(s.last())
    }
}

/// A key pressed in the search bar.
#[derive(Debug, PartialEq, Eq)]
pub struct SearchKey<T> {
    pub key: T,
    pub shortcut: bool,
    pub shift: bool,
    /// The text that the key types.
    pub typed: Option<T>,
    /// The text on the clipboard.
    pub clipboard: Option<T>,
}

impl View for SearchKey<String> {
    type V = SearchKey<Seq<char>>;

    open spec fn view(&self) -> SearchKey<Seq<char>> {
        SearchKey {
            key: self.key@,
            shortcut: self.shortcut,
            shift: self.shift,
            typed: crate::blocks::opt_text(self.typed),
            clipboard: crate::blocks::opt_text(self.clipboard),
        }
    }
}

/// The query after a character of it was taken back.
pub open spec fn shortened(query: Seq<char>) -> Seq<char> {
    if query.len() == 0 {
        query
    } else {
        query.drop_last()
    }
}

/// The state after a key was pressed in the search bar, and whether the key was
/// used up.
pub open spec fn key_pressed(s: EditorView, key: SearchKey<Seq<char>>) -> (EditorView, bool) {
    match s.overlays.search_bar {
        None => (s, false),
        Some(bar) => if key.key == "backspace"@ {
            (queried(s, shortened(bar.query)), true)
        } else if key.key == "enter"@ {
            (stepped(s, !key.shift), true)
        } else if key.key == "v"@ && key.shortcut {
            match key.clipboard {
                Some(pasted) => (queried(s, bar.query + one_line(pasted)), true),
                None => (s, true),
            }
        } else if key.shortcut {
            (s, false)
        } else {
            match key.typed {
                Some(typed) => (queried(s, bar.query + typed), true),
                None => (s, false),
            }
        },
    }
}

// ---------------------------------------------------------------------------
// Laws
// ---------------------------------------------------------------------------

/// Every match is the query but for the case of ASCII letters.
pub proof fn matches_are_the_query(s: Seq<char>, needle: Seq<char>, from: int, i: int)
    requires
        0 <= from,
        0 <= i < occurrences(s, needle, from).len(),
    ensures
        ({
            let m = occurrences(s, needle, from)[i];
            &&& from <= m.0 < m.1 <= s.len()
            &&& folded(s.subrange(m.0, m.1)) == needle
        }),
    decreases s.len() - from,
{
    text::lemma_find_at(folded(s), needle, from);
    let at = text::find_at(folded(s), needle, from)->0;
    if i == 0 {
        assert(folded(s.subrange(at, at + needle.len())) =~= folded(s).subrange(
            at,
            at + needle.len(),
        ));
    } else {
        matches_are_the_query(s, needle, at + needle.len(), i - 1);
    }
}

/// Matches do not overlap, and they come in order.
pub proof fn matches_do_not_overlap(s: Seq<char>, needle: Seq<char>, from: int, i: int, j: int)
    requires
        0 <= from,
        0 <= i < j < occurrences(s, needle, from).len(),
    ensures
        occurrences(s, needle, from)[i].1 <= occurrences(s, needle, from)[j].0,
    decreases s.len() - from,
{
    text::lemma_find_at(folded(s), needle, from);
    let at = text::find_at(folded(s), needle, from)->0;
    if i == 0 {
        matches_are_the_query(s, needle, at + needle.len(), j - 1);
    } else {
        matches_do_not_overlap(s, needle, at + needle.len(), i - 1, j - 1);
    }
}

/// Wherever the query stands, a match covers its first character.
pub proof fn no_match_is_missed(s: Seq<char>, needle: Seq<char>, from: int, at: int) -> (i: int)
    requires
        0 <= from <= at,
        needle.len() > 0,
        text::occurs_at(folded(s), needle, at),
    ensures
        0 <= i < occurrences(s, needle, from).len(),
        occurrences(s, needle, from)[i].0 <= at < occurrences(s, needle, from)[i].1,
    decreases s.len() - from,
{
    text::lemma_find_at(folded(s), needle, from);
    lemma_first_place(folded(s), needle, from, at);
    let first = text::find_at(folded(s), needle, from)->0;
    if at < first + needle.len() {
        0
    } else {
        1 + no_match_is_missed(s, needle, first + needle.len(), at)
    }
}

proof fn lemma_first_place(s: Seq<char>, needle: Seq<char>, from: int, at: int)
    requires
        0 <= from <= at,
        text::occurs_at(s, needle, at),
    ensures
        text::find_at(s, needle, from) matches Some(first) && first <= at,
    decreases at - from,
{
    if !text::occurs_at(s, needle, from) {
        lemma_first_place(s, needle, from + 1, at);
    }
}

/// An empty query has no matches.
pub proof fn an_empty_query_has_no_matches(s: Seq<char>, from: int)
    ensures
        occurrences(s, Seq::empty(), from).len() == 0,
{
}

/// A step forward and one back, or the other way round, come back to the same
/// match.
pub proof fn stepping_back_returns(active: usize, count: int, forward: bool)
    requires
        active < count <= usize::MAX,
    ensures
        stepped_index(
            Some(stepped_index(Some(active), count, forward) as usize),
            count,
            !forward,
        ) == active,
        0 <= stepped_index(Some(active), count, forward) < count,
{
    lemma_steps(active as int, count);
    lemma_steps(stepped_index(Some(active), count, forward), count);
}

/// Stepping by one goes around at the ends.
pub proof fn lemma_steps(current: int, count: int)
    requires
        0 <= current < count,
    ensures
        (current + 1) % count == (if current + 1 == count {
            0
        } else {
            current + 1
        }),
        (current + count - 1) % count == (if current == 0 {
            count - 1
        } else {
            current - 1
        }),
{
    if current + 1 == count {
        vstd::arithmetic::div_mod::lemma_mod_self_0(count);
    } else {
        vstd::arithmetic::div_mod::lemma_small_mod((current + 1) as nat, count as nat);
    }
    if current == 0 {
        vstd::arithmetic::div_mod::lemma_small_mod((count - 1) as nat, count as nat);
    } else {
        vstd::arithmetic::div_mod::lemma_mod_add_multiples_vanish(current - 1, count);
        vstd::arithmetic::div_mod::lemma_small_mod((current - 1) as nat, count as nat);
        assert(count + (current - 1) == current + count - 1);
    }
}

/// Changing the query, stepping and opening keep the active match one of the
/// matches.
pub proof fn the_active_match_is_there(
    s: EditorView,
    query: Seq<char>,
    forward: bool,
    previous_focus: Option<u64>,
)
    requires
        bar_ok(s),
    ensures
        bar_ok(queried(s, query)),
        bar_ok(stepped(s, forward)),
        bar_ok(bar_opened(s, previous_focus)),
        bar_ok(bar_closed(s)),
{
}

/// The byte offset of a character lies on a character boundary.
pub proof fn offsets_lie_on_character_boundaries(s: Seq<char>, i: int)
    requires
        0 <= i <= s.len(),
    ensures
        valid_utf8(encode_utf8(s)),
        is_char_boundary(encode_utf8(s), byte_offset(s, i)),
        0 <= byte_offset(s, i) <= encode_utf8(s).len(),
    decreases i,
{
    encode_utf8_valid_utf8(s);
    assert(s.take(0) =~= Seq::empty());
    if i > 0 {
        let rest = s.drop_first();
        offsets_lie_on_character_boundaries(rest, i - 1);
        encode_utf8_first_scalar(s);
        assert(s.take(i).drop_first() =~= rest.take(i - 1));
        encode_utf8_first_scalar(s.take(i));
        assert(pop_first_scalar(encode_utf8(s)) =~= encode_utf8(rest));
        assert(byte_offset(s, i) == encode_scalar(s[0] as u32).len() + byte_offset(rest, i - 1));
    } else {
        is_char_boundary_start_end_of_seq(encode_utf8(s));
    }
}

/// Every match is a range of the text's bytes between character boundaries.
pub proof fn matches_lie_on_character_boundaries(s: Seq<char>, needle: Seq<char>, i: int)
    requires
        0 <= i < byte_ranges(s, needle).len(),
    ensures
        is_char_boundary(encode_utf8(s), byte_ranges(s, needle)[i].0),
        is_char_boundary(encode_utf8(s), byte_ranges(s, needle)[i].1),
        byte_ranges(s, needle)[i].1 <= encode_utf8(s).len(),
{
    matches_are_the_query(s, needle, 0, i);
    offsets_lie_on_character_boundaries(s, occurrences(s, needle, 0)[i].0);
    offsets_lie_on_character_boundaries(s, occurrences(s, needle, 0)[i].1);
}

// ---------------------------------------------------------------------------
// Running code
// ---------------------------------------------------------------------------

fn offset_of(s: &str, i: usize) -> (r: usize)
    requires
        i <= s@.len(),
    ensures
        r == byte_offset(s@, i as int),
{
    assert(s@.subrange(0, i as int) =~= s@.take(i as int));
    slice_text(s, 0, i).as_bytes().len()
}

fn fold_chars(s: &str) -> (r: Vec<char>)
    ensures
        r@ == folded(s@),
{
    let chars = chars_of(s);
    let mut out: Vec<char> = Vec::new();
    let mut i: usize = 0;
    while i < chars.len()
        invariant
            chars@ == s@,
            i <= chars@.len(),
            out@ == folded(s@).take(i as int),
        decreases chars@.len() - i,
    {
        out.push(lower_ascii(chars[i]));
        assert(folded(s@).take(i + 1) =~= folded(s@).take(i as int).push(folded(s@)[i as int]));
        i = i + 1;
    }
    assert(folded(s@).take(i as int) =~= folded(s@));
    out
}

/// The byte ranges at which a lower-case query stands in a text, letters being
/// compared without regard to ASCII case.
pub fn find_all_case_insensitive(haystack: &str, needle_lower: &str) -> (r: Vec<Range<usize>>)
    ensures
        bounds(r@) == byte_ranges(haystack@, needle_lower@),
{
    let needle = chars_of(needle_lower);
    let hay = fold_chars(haystack);
    let ghost s = haystack@;
    let ghost all = occurrences(s, needle@, 0);
    let mut out: Vec<Range<usize>> = Vec::new();
    if needle.len() == 0 {
        assert(bounds(out@) =~= byte_ranges(haystack@, needle_lower@));
        return out;
    }
    let n: usize = hay.len();
    let mut start: usize = 0;
    let ghost mut seen: int = 0;
    assert(all.skip(0) =~= all);
    while start < n
        invariant
            s == haystack@,
            n == hay@.len(),
            hay@ == folded(s),
            needle@.len() > 0,
            start <= n,
            all == occurrences(s, needle@, 0),
            0 <= seen <= all.len(),
            all.skip(seen) == occurrences(s, needle@, start as int),
            out@.len() == seen,
            forall|k: int|
                0 <= k < seen ==> (#[trigger] out@[k]).start == byte_offset(s, all[k].0)
                    && out@[k].end == byte_offset(s, all[k].1),
        ensures
            seen == all.len(),
        decreases n - start,
    {
        match find_from(hay.as_slice(), needle.as_slice(), start) {
            None => {
                assert(all.skip(seen).len() == 0);
                break;
            },
            Some(at) => {
                proof {
                    text::lemma_find_at(folded(s), needle@, start as int);
                    assert(all.skip(seen)[0] == all[seen]);
                    assert(all.skip(seen + 1) =~= all.skip(seen).skip(1));
                    assert(all.skip(seen).skip(1) =~= occurrences(s, needle@, at + needle@.len()));
                }
                let end: usize = at + needle.len();
                out.push(offset_of(haystack, at)..offset_of(haystack, end));
                start = end;
                proof {
                    seen = seen + 1;
                }
            },
        }
    }
    assert(bounds(out@) =~= byte_ranges(haystack@, needle_lower@));
    out
}

fn push_text_matches(id: u64, s: &str, needle: &str, out: &mut Vec<SearchMatch>)
    ensures
        final(out)@ == old(out)@ + text_matches(id, s@, needle@),
{
    let ranges = find_all_case_insensitive(s, needle);
    let ghost before = out@;
    let ghost all = text_matches(id, s@, needle@);
    let mut i: usize = 0;
    assert(before + all.take(0) =~= before);
    while i < ranges.len()
        invariant
            bounds(ranges@) == byte_ranges(s@, needle@),
            all == text_matches(id, s@, needle@),
            i <= ranges@.len(),
            out@ == before + all.take(i as int),
        decreases ranges@.len() - i,
    {
        assert(bounds(ranges@)[i as int] == byte_ranges(s@, needle@)[i as int]);
        out.push(SearchMatch { entity_id: id, start: ranges[i].start, end: ranges[i].end });
        assert(all.take(i + 1) =~= all.take(i as int).push(all[i as int]));
        assert(out@ =~= before + all.take(i + 1));
        i = i + 1;
    }
    assert(bounds(ranges@).len() == byte_ranges(s@, needle@).len());
    assert(all.take(i as int) =~= all);
}

fn push_row_matches(cells: &Vec<TableCell>, needle: &str, out: &mut Vec<SearchMatch>)
    ensures
        final(out)@ == old(out)@ + row_matches(editor::cell_views(cells@), needle@),
{
    let ghost before = out@;
    let ghost views = editor::cell_views(cells@);
    let mut i: usize = 0;
    assert(views.take(0) =~= Seq::empty());
    assert(before + row_matches(views.take(0), needle@) =~= before);
    while i < cells.len()
        invariant
            views == editor::cell_views(cells@),
            i <= cells@.len(),
            out@ == before + row_matches(views.take(i as int), needle@),
        decreases cells@.len() - i,
    {
        push_text_matches(cells[i].id, cells[i].display_text.as_str(), needle, out);
        proof {
            assert(views.take(i + 1).drop_last() =~= views.take(i as int));
            assert(out@ =~= before + row_matches(views.take(i + 1), needle@));
        }
        i = i + 1;
    }
    assert(views.take(i as int) =~= views);
}

fn push_runtime_matches(runtime: &TableRuntime, needle: &str, out: &mut Vec<SearchMatch>)
    ensures
        final(out)@ == old(out)@ + (row_matches(runtime@.header, needle@) + body_matches(
            runtime@.rows,
            needle@,
        )),
{
    let ghost start = out@;
    push_row_matches(&runtime.header, needle, out);
    let ghost before = out@;
    let ghost rows = runtime@.rows;
    let mut i: usize = 0;
    assert(rows.take(0) =~= Seq::empty());
    assert(before + body_matches(rows.take(0), needle@) =~= before);
    while i < runtime.rows.len()
        invariant
            rows == editor::cell_rows(runtime.rows@),
            i <= runtime.rows@.len(),
            out@ == before + body_matches(rows.take(i as int), needle@),
        decreases runtime.rows@.len() - i,
    {
        push_row_matches(&runtime.rows[i], needle, out);
        proof {
            assert(rows.take(i + 1).drop_last() =~= rows.take(i as int));
            assert(rows.take(i + 1).last() == editor::cell_views(runtime.rows@[i as int]@));
            assert(out@ =~= before + body_matches(rows.take(i + 1), needle@));
        }
        i = i + 1;
    }
    assert(rows.take(i as int) =~= rows);
    assert(out@ =~= start + (row_matches(runtime@.header, needle@) + body_matches(
        runtime@.rows,
        needle@,
    )));
}

fn remove_line_breaks(s: &str) -> (r: String)
    ensures
        r@ == one_line(s@),
{
    let chars = chars_of(s);
    let mut out = String::new();
    let mut from: usize = 0;
    let mut i: usize = 0;
    assert(s@.take(0) =~= Seq::empty());
    while i < chars.len()
        invariant
            chars@ == s@,
            from <= i <= chars@.len(),
            out@ + s@.subrange(from as int, i as int) == one_line(s@.take(i as int)),
        decreases chars@.len() - i,
    {
        assert(s@.take(i + 1).drop_last() =~= s@.take(i as int));
        if chars[i] == '\n' || chars[i] == '\r' {
            out.append(slice_text(s, from, i));
            from = i + 1;
            assert(out@ + s@.subrange(from as int, i + 1) =~= out@);
        } else {
            assert(out@ + s@.subrange(from as int, i + 1) =~= (out@ + s@.subrange(
                from as int,
                i as int,
            )).push(s@[i as int]));
        }
        i = i + 1;
    }
    assert(s@.take(i as int) =~= s@);
    out.append(slice_text(s, from, chars.len()));
    out
}

impl Editor {
    /// The matches of a lower-case query in the document.
    pub fn collect_search_matches(&self, query_lower: &str) -> (r: Vec<SearchMatch>)
        ensures
            r@ == document_matches(self@.document, query_lower@),
    {
        let mut out: Vec<SearchMatch> = Vec::new();
        let ghost nodes = self@.document;
        let mut i: usize = 0;
        assert(nodes.take(0) =~= Seq::empty());
        while i < self.document.len()
            invariant
                nodes == editor::node_views(self.document@),
                i <= self.document@.len(),
                out@ == document_matches(nodes.take(i as int), query_lower@),
            decreases self.document@.len() - i,
        {
            let ghost before = out@;
            let block = &self.document[i];
            if matches!(block.kind, BlockKind::Table) {
                if let Some(runtime) = &block.runtime {
                    push_runtime_matches(runtime, query_lower, &mut out);
                } else {
                    assert(before + Seq::<SearchMatch>::empty() =~= before);
                }
            } else {
                push_text_matches(block.id, block.display_text.as_str(), query_lower, &mut out);
            }
            proof {
                assert(nodes.take(i + 1).drop_last() =~= nodes.take(i as int));
                assert(nodes.take(i + 1).last() == block@);
                assert(out@ == before + node_matches(block@, query_lower@));
            }
            i = i + 1;
        }
        assert(nodes.take(i as int) =~= nodes);
        out
    }

    /// Looks the matches of the query up anew.
    pub fn recompute_search_matches(&mut self)
        ensures
            final(self)@ == searched(old(self)@),
    {
        let bar = match self.overlays.search_bar.take() {
            Some(bar) => bar,
            None => {
                return;
            },
        };
        let lower = fold_text(bar.query.as_str());
        let matches = self.collect_search_matches(lower.as_str());
        self.overlays.search_bar = Some(
            SearchBarState {
                query: bar.query,
                matches,
                active_index: None,
                previous_focus: bar.previous_focus,
            },
        );
    }

    /// Steps to one of the matches.
    pub fn go_to_search_match(&mut self, index: usize)
        ensures
            final(self)@ == match_shown(old(self)@, index as int),
    {
        let found = match &mut self.overlays.search_bar {
            Some(bar) => {
                if index < bar.matches.len() {
                    bar.active_index = Some(index);
                    bar.matches[index]
                } else {
                    return;
                }
            },
            None => {
                return;
            },
        };
        if is_focusable(&self.document, found.entity_id) {
            self.focus_block_range(found.entity_id, found.start, found.end);
        }
    }

    /// Steps to the next or the previous match.
    pub fn step_search_match(&mut self, forward: bool)
        requires
            bar_ok(old(self)@),
        ensures
            final(self)@ == stepped(old(self)@, forward),
            bar_ok(final(self)@),
    {
        let next: usize = match &self.overlays.search_bar {
            Some(bar) => {
                let count: usize = bar.matches.len();
                if count == 0 {
                    return;
                }
                match bar.active_index {
                    Some(current) => {
                        proof {
                            lemma_steps(current as int, count as int);
                        }
                        if forward {
                            if current == count - 1 {
                                0
                            } else {
                                current + 1
                            }
                        } else if current == 0 {
                            count - 1
                        } else {
                            current - 1
                        }
                    },
                    None => 0,
                }
            },
            None => {
                return;
            },
        };
        self.go_to_search_match(next);
    }

    /// Opens an empty search bar, unless one is open already.
    pub fn open_search_bar(&mut self, previous_focus: Option<u64>)
        ensures
            final(self)@ == bar_opened(old(self)@, previous_focus),
    {
        if self.overlays.search_bar.is_some() {
            return;
        }
        let bar = SearchBarState {
            query: String::new(),
            matches: Vec::new(),
            active_index: None,
            previous_focus,
        };
        assert(bar@.query =~= Seq::empty());
        assert(bar@.matches =~= Seq::empty());
        self.overlays.search_bar = Some(bar);
    }

    /// Closes the search bar.
    pub fn close_search_bar(&mut self)
        ensures
            final(self)@ == bar_closed(old(self)@),
    {
        let bar = match self.overlays.search_bar.take() {
            Some(bar) => bar,
            None => {
                return;
            },
        };
        if bar.active_index.is_none() {
            if let Some(previous) = bar.previous_focus {
                self.focus_block(previous);
            }
        }
    }

    /// What the open search bar shows next to the query. `no_matches` says that
    /// nothing was found.
    pub fn search_count_label(&self, no_matches: &str) -> (r: Option<String>)
        requires
            bar_ok(self@),
        ensures
            blocks::opt_text(r) == match self@.overlays.search_bar {
                Some(bar) => Some(count_label(bar, no_matches@)),
                None => None,
            },
    {
        let bar = match &self.overlays.search_bar {
            Some(bar) => bar,
            None => {
                return None;
            },
        };
        let mut label = String::new();
        if bar.query.as_str().is_empty() {
            assert(label@ =~= count_label(bar@, no_matches@));
            return Some(label);
        }
        let count: usize = bar.matches.len();
        if count == 0 {
            return Some(String::from_str(no_matches));
        }
        let active: usize = match bar.active_index {
            Some(i) => i + 1,
            None => 0,
        };
        push_decimal(active, &mut label);
        label.append("/");
        push_decimal(count, &mut label);
        assert(label@ =~= count_label(bar@, no_matches@));
        Some(label)
    }

    fn set_search_query(&mut self, query: String)
        ensures
            final(self)@ == queried(old(self)@, query@),
    {
        match &mut self.overlays.search_bar {
            Some(bar) => {
                bar.query = query;
            },
            None => {
                return;
            },
        }
        self.recompute_search_matches();
    }

    /// Takes a key pressed in the search bar. The result says whether the key was
    /// used up.
    pub fn on_search_query_key_down(&mut self, key: &SearchKey<String>) -> (r: bool)
        requires
            bar_ok(old(self)@),
        ensures
            final(self)@ == key_pressed(old(self)@, key@).0,
            r == key_pressed(old(self)@, key@).1,
    {
        let query = match &self.overlays.search_bar {
            Some(bar) => bar.query.clone(),
            None => {
                return false;
            },
        };
        if same_text(key.key.as_str(), "backspace") {
            let n: usize = chars_of(query.as_str()).len();
            if n > 0 {
                let shorter = String::from_str(slice_text(query.as_str(), 0, n - 1));
                assert(shorter@ =~= shortened(query@));
                self.set_search_query(shorter);
            } else {
                self.set_search_query(query);
            }
            return true;
        }
        if same_text(key.key.as_str(), "enter") {
            self.step_search_match(!key.shift);
            return true;
        }
        if key.shortcut && same_text(key.key.as_str(), "v") {
            if let Some(pasted) = &key.clipboard {
                let mut longer = query;
                longer.append(remove_line_breaks(pasted.as_str()).as_str());
                self.set_search_query(longer);
            }
            return true;
        }
        if key.shortcut {
            return false;
        }
        match &key.typed {
            Some(typed) => {
                let mut longer = query;
                longer.append(typed.as_str());
                self.set_search_query(longer);
                true
            },
            None => false,
        }
    }
}

fn fold_text(s: &str) -> (r: String)
    ensures
        r@ == folded(s@),
{
    let chars = fold_chars(s);
    let mut out = String::new();
    let mut i: usize = 0;
    while i < chars.len()
        invariant
            chars@ == folded(s@),
            i <= chars@.len(),
            out@ == folded(s@).take(i as int),
        decreases chars@.len() - i,
    {
        out.push(chars[i]);
        assert(folded(s@).take(i + 1) =~= folded(s@).take(i as int).push(folded(s@)[i as int]));
        i = i + 1;
    }
    assert(folded(s@).take(i as int) =~= folded(s@));
    out
}

} // verus!
