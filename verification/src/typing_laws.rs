//! What typed marks make of a paragraph: at the start of its text, in a line of marks
//! below another one, and in a table row.

use crate::blocks::{BlockKind, InlineFragment, TableColumnAlignment, TableView};
use crate::document;
use crate::editor::{EditorView, NodeView, Nodes};
use crate::grammar;
use crate::history::DocumentFacts;
use crate::kinds;
use crate::markup_laws;
use crate::newline;
use crate::newline::{TypedRow, Underline};
use crate::paste_laws;
use crate::paste_laws::{ends_at, same_text_block};
use crate::quote_laws;
use crate::quote_laws::empty_block;
use crate::quotes;
use crate::reading_laws;
use crate::reading_laws::run_of;
use crate::regions::Lines;
use crate::table_syntax;
use crate::tables;
use crate::text;
use vstd::prelude::*;

verus! {

// ---------------------------------------------------------------------------
// At the start of a text
// ---------------------------------------------------------------------------

/// One to six `#` with a space behind them make a heading of that level, and more of them
/// make none. The marks and the space are taken out of the text.
pub proof fn typed_heading_marks_give_their_level(level: nat, rest: Seq<char>)
    requires
        level >= 1,
    ensures
        level <= 6 ==> kinds::markdown_shortcut(run_of('#', level) + seq![' '] + rest) == Some(
            (BlockKind::<Seq<char>>::Heading { level: level as u8 }, level + 1),
        ),
        level > 6 ==> kinds::markdown_shortcut(run_of('#', level) + seq![' '] + rest) is None,
{
    reveal(kinds::markdown_shortcut);
    let line = run_of('#', level) + seq![' '] + rest;
    assert(line[0] == '#');
    assert(line[level as int] == ' ');
    assert forall|k: int| 0 <= k < level implies line[k] == '#' by {}
    text::lemma_run_len_is(line, '#', level);
    grammar::lemma_digit_run_is(line, 0);
}

/// A `>` and a space make a quote, a list mark and a space make an item of a list, with a
/// box behind them a task, and a number with a dot or a bracket and a space an item of a
/// numbered list.
pub proof fn typed_marks_give_their_kind(
    mark: char,
    inside: char,
    digits: Seq<char>,
    dot: char,
    rest: Seq<char>,
)
    requires
        mark == '-' || mark == '*' || mark == '+',
        inside == ' ' || inside == 'x' || inside == 'X',
        1 <= digits.len() <= 9,
        forall|k: int| 0 <= k < digits.len() ==> '0' <= #[trigger] digits[k] <= '9',
        dot == '.' || dot == ')',
    ensures
        kinds::markdown_shortcut(seq!['>', ' '] + rest) == Some(
            (BlockKind::<Seq<char>>::Quote, 2nat),
        ),
        rest.len() == 0 || rest[0] != '[' ==> kinds::markdown_shortcut(seq![mark, ' '] + rest)
            == Some((BlockKind::<Seq<char>>::BulletedListItem, 2nat)),
        kinds::markdown_shortcut(seq![mark, ' ', '[', inside, ']', ' '] + rest) == Some(
            (BlockKind::<Seq<char>>::TaskListItem { checked: inside != ' ' }, 6nat),
        ),
        kinds::markdown_shortcut(digits + seq![dot, ' '] + rest) == Some(
            (BlockKind::<Seq<char>>::NumberedListItem, digits.len() + 2),
        ),
{
    lemma_list_mark(mark, inside, rest);
    reveal(kinds::markdown_shortcut);
    let numbered = digits + seq![dot, ' '] + rest;
    let n = digits.len();
    assert(numbered[0] == digits[0]);
    assert forall|k: int| 0 <= k < n implies '0' <= #[trigger] numbered[k] <= '9' by {
        assert(numbered[k] == digits[k]);
    }
    assert(numbered[n as int] == dot && numbered[n as int + 1] == ' ');
    grammar::lemma_digit_run_is(numbered, n);
    text::lemma_run_len_is(numbered, '#', 0);
}

proof fn lemma_list_mark(mark: char, inside: char, rest: Seq<char>)
    requires
        mark == '-' || mark == '*' || mark == '+',
        inside == ' ' || inside == 'x' || inside == 'X',
    ensures
        rest.len() == 0 || rest[0] != '[' ==> kinds::markdown_shortcut(seq![mark, ' '] + rest)
            == Some((BlockKind::<Seq<char>>::BulletedListItem, 2nat)),
        kinds::markdown_shortcut(seq![mark, ' ', '[', inside, ']', ' '] + rest) == Some(
            (BlockKind::<Seq<char>>::TaskListItem { checked: inside != ' ' }, 6nat),
        ),
{
    reveal(kinds::markdown_shortcut);
    reveal_strlit("[ ] ");
    reveal_strlit("[x] ");
    reveal_strlit("[X] ");
    let bullet = seq![mark, ' '] + rest;
    text::lemma_run_len_is(bullet, '#', 0);
    assert(bullet.skip(2) =~= rest);
    assert("[ ] "@[0] == '[' && "[x] "@[0] == '[' && "[X] "@[0] == '[');
    let task = seq![mark, ' ', '[', inside, ']', ' '] + rest;
    text::lemma_run_len_is(task, '#', 0);
    let tail = task.skip(2);
    assert(tail.take(4) =~= seq!['[', inside, ']', ' ']);
    assert("[ ] "@ =~= seq!['[', ' ', ']', ' ']);
    assert("[x] "@ =~= seq!['[', 'x', ']', ' ']);
    assert("[X] "@ =~= seq!['[', 'X', ']', ' ']);
    assert(tail[1] == inside);
    assert("[ ] "@[1] == ' ');
    assert("[ ] "@.is_prefix_of(tail) <==> inside == ' ');
    assert("[x] "@.is_prefix_of(tail) <==> inside == 'x');
    assert("[X] "@.is_prefix_of(tail) <==> inside == 'X');
}

/// Without the space behind them, and with other text at the start, the marks change
/// nothing.
pub proof fn marks_without_a_space_change_nothing(s: Seq<char>)
    requires
        s.len() == 0 || reading_laws::letter(s[0]) || (forall|k: int|
            0 <= k < s.len() ==> s[k] != ' '),
    ensures
        kinds::markdown_shortcut(s) is None,
{
    reveal(kinds::markdown_shortcut);
    if s.len() > 0 && reading_laws::letter(s[0]) {
        text::lemma_run_len_is(s, '#', 0);
        grammar::lemma_digit_run_is(s, 0);
    }
}

// ---------------------------------------------------------------------------
// Lines of marks
// ---------------------------------------------------------------------------

/// Whether a text is a single line.
pub open spec fn one_line(s: Seq<char>) -> bool {
    forall|k: int| 0 <= k < s.len() ==> s[k] != '\n'
}

/// Whether the block at `i` is a paragraph at the root with nothing under it.
pub open spec fn root_paragraph(nodes: Nodes, i: int) -> bool {
    &&& 0 <= i < nodes.len()
    &&& nodes[i].kind is Paragraph
    &&& nodes[i].depth == 0
    &&& i + 1 < nodes.len() ==> nodes[i + 1].depth == 0
}

proof fn lemma_at_root(nodes: Nodes, i: int)
    requires
        0 <= i < nodes.len(),
        nodes[i].depth == 0,
        i + 1 < nodes.len() ==> nodes[i + 1].depth == 0,
    ensures
        document::parent_of(nodes, i) is None,
        i > 0 && nodes[i - 1].depth == 0 ==> document::previous_sibling_of(nodes, i) == Some(
            i - 1,
        ),
        document::subtree_end(nodes, i) == i + 1,
{
    document::lemma_above(nodes, 0, i);
    assert(ends_at(nodes, i, i + 1));
    paste_laws::lemma_ends_at(nodes, i, i + 1);
}

proof fn lemma_underline(mark: char, count: nat)
    requires
        mark == '=' || mark == '-',
        count >= 3,
    ensures
        grammar::setext_underline(run_of(mark, count)) == Some(
            if mark == '=' {
                1u8
            } else {
                2u8
            },
        ),
{
    let under = run_of(mark, count);
    reading_laws::lemma_start(under);
    text::lemma_trimmed_end_is(under, under.len() as int);
    assert(under.subrange(0, under.len() as int) =~= under);
    text::lemma_run_len_is(under, mark, count);
    if mark == '-' {
        text::lemma_run_len_is(under, '=', 0);
    }
    reveal(grammar::setext_underline);
}

/// Enter in a line of three or more `=` or `-` below a paragraph of one line makes the
/// paragraph a heading of level one or two, with its text kept. The line of marks goes,
/// and the caret goes into an empty paragraph in its place.
pub proof fn a_typed_underline_makes_a_heading(
    s: EditorView,
    i: int,
    mark: char,
    count: nat,
    facts: DocumentFacts,
    now: u64,
)
    requires
        document::well_formed(s.document, s.next_id),
        i > 0,
        root_paragraph(s.document, i),
        root_paragraph(s.document, i - 1),
        mark == '=' || mark == '-',
        count >= 3,
        s.document[i].display_text == run_of(mark, count),
        !text::blank(s.document[i - 1].display_text),
        one_line(s.document[i - 1].display_text),
    ensures
        ({
            let done = newline::underline_entered(s, s.document[i].id, facts, now);
            let after = done.0.document;
            &&& done.1
            &&& after.len() == s.document.len()
            &&& after[i - 1].kind == (BlockKind::<Seq<char>>::Heading {
                level: if mark == '=' {
                    1
                } else {
                    2
                },
            })
            &&& after[i - 1].title == s.document[i - 1].title
            &&& after[i - 1].display_text == s.document[i - 1].display_text
            &&& after[i - 1].id == s.document[i - 1].id
            &&& empty_block(after[i], s.next_id, BlockKind::Paragraph, 0)
            &&& forall|k: int|
                0 <= k < s.document.len() && k != i && k != i - 1 ==> #[trigger] after[k]
                    == s.document[k]
            &&& done.0.focus.pending_focus == Some(s.next_id)
            &&& done.0.window.document_dirty
        }),
{
    let nodes = s.document;
    newline::lemma_index_is(nodes, i, 0);
    lemma_at_root(nodes, i);
    lemma_at_root(nodes, i - 1);
    lemma_underline(mark, count);
    let line = nodes[i - 1].display_text;
    reveal_strlit("\n");
    assert(!text::occurs(line, "\n"@)) by {
        reveal(text::occurs);
        assert("\n"@[0] == '\n');
    }
    quote_laws::lemma_empty();
    let level = if mark == '=' {
        1u8
    } else {
        2u8
    };
    assert(newline::underline_of(nodes, i) == Some(Underline::Heading { at: i - 1, level }));
    let rest = document::removed(nodes, i).update(
        i - 1,
        newline::as_heading(nodes[i - 1], level),
    );
    assert(ends_at(rest, i - 1, i));
    paste_laws::lemma_ends_at(rest, i - 1, i);
}

/// Enter in a line of three or more `-` that is the first block, or below a block that is
/// no paragraph, makes a separator, with an empty paragraph behind it for the caret.
pub proof fn a_typed_line_makes_a_separator(
    s: EditorView,
    i: int,
    count: nat,
    facts: DocumentFacts,
    now: u64,
)
    requires
        document::well_formed(s.document, s.next_id),
        root_paragraph(s.document, i),
        i > 0 ==> s.document[i - 1].depth == 0 && !(s.document[i - 1].kind is Paragraph),
        count >= 3,
        s.document[i].display_text == run_of('-', count),
    ensures
        ({
            let done = newline::underline_entered(s, s.document[i].id, facts, now);
            let after = done.0.document;
            &&& done.1
            &&& after.len() == s.document.len() + 1
            &&& after[i].kind is Separator
            &&& after[i].display_text.len() == 0
            &&& after[i].id == s.document[i].id
            &&& empty_block(after[i + 1], s.next_id, BlockKind::Paragraph, 0)
            &&& forall|k: int| 0 <= k < i ==> #[trigger] after[k] == s.document[k]
            &&& forall|k: int|
                i < k < s.document.len() ==> s.document[k] == #[trigger] after[k + 1]
            &&& done.0.focus.pending_focus == Some(s.next_id)
            &&& done.0.window.document_dirty
        }),
{
    let nodes = s.document;
    newline::lemma_index_is(nodes, i, 0);
    lemma_at_root(nodes, i);
    lemma_underline('-', count);
    quote_laws::lemma_empty();
    let line = run_of('-', count);
    reading_laws::lemma_start(line);
    text::lemma_trimmed_end_is(line, line.len() as int);
    assert(line.subrange(0, line.len() as int) =~= line);
    reading_laws::lemma_count_of_run('-', count);
    assert(grammar::separator_line(line)) by {
        reveal(grammar::separator_line);
    }
    assert(newline::underline_of(nodes, i) == Some(Underline::Separator));
    let marked = nodes.update(i, newline::as_separator(nodes[i]));
    assert(ends_at(marked, i, i + 1));
    paste_laws::lemma_ends_at(marked, i, i + 1);
}

// ---------------------------------------------------------------------------
// Table rows
// ---------------------------------------------------------------------------

/// Whether a table has just the texts of a header and the alignments of a delimiter row.
pub open spec fn table_of(
    table: TableView,
    header: Lines,
    alignments: Seq<TableColumnAlignment>,
) -> bool {
    &&& table.header.len() == header.len()
    &&& forall|c: int|
        0 <= c < header.len() ==> #[trigger] table.header[c] == seq![
            InlineFragment { markdown: true, text: header[c] },
        ]
    &&& table.alignments == alignments
    &&& table.rows.len() == 0
}

/// Enter in a delimiter row below the row of a header makes the two a table with that
/// header and those alignments, and the caret goes into an empty paragraph behind it.
pub proof fn a_typed_delimiter_row_makes_a_table(
    s: EditorView,
    i: int,
    header: Lines,
    alignments: Seq<TableColumnAlignment>,
    facts: DocumentFacts,
    now: u64,
)
    requires
        document::well_formed(s.document, s.next_id),
        i > 0,
        root_paragraph(s.document, i),
        root_paragraph(s.document, i - 1),
        markup_laws::row_texts(header),
        alignments.len() == header.len(),
        s.document[i - 1].display_text == markup_laws::written_row(header),
        s.document[i].display_text == markup_laws::written_row(
            Seq::new(alignments.len(), |k: int| markup_laws::written_alignment(alignments[k])),
        ),
    ensures
        ({
            let done = newline::row_entered(s, i, facts, now);
            let after = done.0.document;
            &&& done.1
            &&& after.len() == s.document.len()
            &&& after[i - 1].kind is Table
            &&& after[i - 1].id == s.next_id
            &&& after[i - 1].table matches Some(table) && table_of(table, header, alignments)
            &&& empty_block(after[i], (s.next_id + 1) as u64, BlockKind::Paragraph, 0)
            &&& forall|k: int|
                0 <= k < s.document.len() && k != i && k != i - 1 ==> same_text_block(
                    s.document[k],
                    #[trigger] after[k],
                )
            &&& done.0.focus.pending_focus == Some((s.next_id + 1) as u64)
            &&& done.0.window.document_dirty
        }),
{
    let nodes = s.document;
    lemma_at_root(nodes, i);
    let lines = markup_laws::written_table(header, alignments, Seq::empty());
    markup_laws::lemma_parsed(header, alignments, Seq::empty());
    assert(lines =~= seq![nodes[i - 1].display_text, nodes[i].display_text]);
    assert(table_syntax::table_candidate(lines[0]));
    assert(table_syntax::table_candidate(lines[1]));
    let table = table_syntax::parsed_table(lines)->0;
    assert(newline::typed_row(nodes, i) == Some(TypedRow::Delimiter { at: i - 1, table }));
    let ready = quotes::begun(s, facts, now);
    let formed = EditorView {
        document: newline::table_formed_nodes(ready, i - 1, i, table),
        next_id: (s.next_id + 2) as u64,
        ..ready
    };
    tables::lemma_rebuilt_nodes(formed.document, formed.next_id as int);
    quote_laws::lemma_empty();
    assert(formed.document.len() == nodes.len());
    assert forall|k: int| 0 <= k < nodes.len() && k != i && k != i - 1 implies #[trigger]
        formed.document[k] == nodes[k] by {}
}

/// Enter in a row below a table puts the row behind the others of the table: with a cell
/// for each column, in order, and empty ones where the row is too short. The header and
/// the other rows stay, and the caret goes into an empty paragraph in place of the typed
/// one.
#[verifier::rlimit(40)]
pub proof fn a_typed_row_goes_to_the_end_of_the_table(
    s: EditorView,
    i: int,
    cells: Lines,
    facts: DocumentFacts,
    now: u64,
)
    requires
        document::well_formed(s.document, s.next_id),
        i > 0,
        root_paragraph(s.document, i),
        s.document[i - 1].kind is Table,
        s.document[i - 1].depth == 0,
        tables::synced_record(s, s.document[i - 1].id).document[i - 1].table is Some,
        markup_laws::row_texts(cells),
        s.document[i].display_text == markup_laws::written_row(cells),
    ensures
        ({
            let before = tables::synced_record(s, s.document[i - 1].id).document[i - 1].table->0;
            let done = newline::row_entered(s, i, facts, now);
            let after = done.0.document;
            &&& done.1
            &&& after.len() == s.document.len()
            &&& after[i - 1].kind is Table
            &&& after[i - 1].id == s.document[i - 1].id
            &&& after[i - 1].table matches Some(table) && {
                &&& table.header == before.header
                &&& table.alignments == before.alignments
                &&& table.rows.len() == before.rows.len() + 1
                &&& forall|r: int|
                    0 <= r < before.rows.len() ==> #[trigger] table.rows[r] == before.rows[r]
                &&& table.rows[before.rows.len() as int].len() == before.header.len()
                &&& forall|c: int|
                    0 <= c < before.header.len() ==> #[trigger] table.rows[before.rows.len() as int][c]
                        == seq![
                        InlineFragment {
                            markdown: true,
                            text: if c < cells.len() {
                                cells[c]
                            } else {
                                Seq::empty()
                            },
                        },
                    ]
            }
            &&& empty_block(after[i], s.next_id, BlockKind::Paragraph, 0)
            &&& forall|k: int|
                0 <= k < s.document.len() && k != i && k != i - 1 ==> same_text_block(
                    s.document[k],
                    #[trigger] after[k],
                )
            &&& done.0.focus.pending_focus == Some(s.next_id)
            &&& done.0.window.document_dirty
        }),
{
    let nodes = s.document;
    lemma_at_root(nodes, i);
    markup_laws::lemma_row_is_read(cells);
    assert(newline::typed_row(nodes, i) == Some(TypedRow::Body { at: i - 1 }));
    let id = nodes[i - 1].id;
    let synced = tables::synced_record(s, id);
    newline::lemma_index_is(nodes, i - 1, 0);
    assert(synced.document.len() == nodes.len());
    assert forall|k: int| 0 <= k < nodes.len() && k != i - 1 implies #[trigger] synced.document[k]
        == nodes[k] by {}
    assert(same_text_block(nodes[i - 1], synced.document[i - 1]));
    let table = newline::with_typed_row(
        synced.document[i - 1].table->0,
        nodes[i].display_text,
    );
    let ready = quotes::begun(synced, facts, now);
    lemma_absorbed(ready, i, table);
    let absorbed = newline::row_absorbed(ready, i - 1, i, table);
    tables::lemma_rebuilt_nodes(absorbed.document, absorbed.next_id as int);
}

proof fn lemma_absorbed(s: EditorView, i: int, table: TableView)
    requires
        0 < i < s.document.len(),
        s.document[i].depth == 0,
        s.document[i - 1].depth == 0,
        i + 1 < s.document.len() ==> s.document[i + 1].depth == 0,
    ensures
        ({
            let absorbed = newline::row_absorbed(s, i - 1, i, table);
            let after = absorbed.document;
            &&& after.len() == s.document.len()
            &&& after[i - 1] == (NodeView { table: Some(table), ..s.document[i - 1] })
            &&& empty_block(after[i], s.next_id, BlockKind::Paragraph, 0)
            &&& forall|k: int|
                0 <= k < s.document.len() && k != i && k != i - 1 ==> #[trigger] after[k]
                    == s.document[k]
        }),
{
    let placed = s.document.update(
        i - 1,
        NodeView { table: Some(table), ..s.document[i - 1] },
    );
    assert(ends_at(placed, i, i + 1));
    paste_laws::lemma_ends_at(placed, i, i + 1);
    let rest = document::removed(placed, i);
    assert(ends_at(rest, i - 1, i));
    paste_laws::lemma_ends_at(rest, i - 1, i);
    quote_laws::lemma_empty();
}

} // verus!
