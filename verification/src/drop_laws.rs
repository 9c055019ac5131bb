//! What a dropped file does to the document, and what a new table from the dialog does.

use crate::blocks;
use crate::blocks::BlockKind;
use crate::document;
use crate::editor::{EditorView, Nodes, TableInsertDialogState, TableInsertTarget, ViewMode};
use crate::file_drop;
use crate::file_drop::DroppedPath;
use crate::history::DocumentFacts;
use crate::menus;
use crate::newline;
use crate::paste_laws;
use crate::paste_laws::{ends_at, same_text_block};
use crate::quote_laws;
use crate::quote_laws::empty_block;
use crate::restore;
use crate::table_data;
use crate::table_edit_laws;
use crate::table_edit_laws::{empty_text, shows};
use crate::table_laws;
use crate::tables;
use crate::text;
use vstd::prelude::*;

verus! {

// ---------------------------------------------------------------------------
// Line breaks
// ---------------------------------------------------------------------------

/// Line breaks are taken one by one: those of two texts one after the other are those of
/// the one and then those of the other, unless a line break lies half in each.
pub proof fn line_breaks_are_taken_one_by_one(a: Seq<char>, b: Seq<char>)
    requires
        !(a.len() > 0 && b.len() > 0 && a[a.len() - 1] == '\r' && b[0] == '\n'),
    ensures
        file_drop::unix_lines(a + b) == file_drop::unix_lines(a) + file_drop::unix_lines(b),
    decreases a.len(),
{
    let both = a + b;
    if a.len() == 0 {
        assert(both =~= b);
        assert(a + file_drop::unix_lines(b) =~= file_drop::unix_lines(b));
    } else if a.len() > 1 && a[0] == '\r' && a[1] == '\n' {
        assert(both.skip(2) =~= a.skip(2) + b);
        line_breaks_are_taken_one_by_one(a.skip(2), b);
        assert(file_drop::unix_lines(both) =~= file_drop::unix_lines(a)
            + file_drop::unix_lines(b));
    } else {
        assert(both.skip(1) =~= a.skip(1) + b);
        line_breaks_are_taken_one_by_one(a.skip(1), b);
        assert(both.len() > 1 && a.len() > 1 ==> both[1] == a[1]);
        assert(both.len() > 1 && a.len() == 1 ==> both[1] == b[0]);
        assert(file_drop::unix_lines(both) =~= file_drop::unix_lines(a)
            + file_drop::unix_lines(b));
    }
}

/// A line break of any of the three kinds becomes one line feed, and any other character
/// stays.
pub proof fn each_line_break_becomes_one_line_feed(c: char)
    ensures
        file_drop::unix_lines(seq!['\r', '\n']) == seq!['\n'],
        file_drop::unix_lines(seq!['\r']) == seq!['\n'],
        c != '\r' ==> file_drop::unix_lines(seq![c]) == seq![c],
        file_drop::unix_lines(Seq::empty()) == Seq::<char>::empty(),
{
    assert(seq!['\r', '\n'].skip(2) =~= Seq::empty());
    assert(seq!['\r'].skip(1) =~= Seq::empty());
    assert(seq![c].skip(1) =~= Seq::empty());
    assert(file_drop::unix_lines(Seq::empty()) =~= Seq::<char>::empty());
}

/// A file gives the same document whichever line breaks it has.
pub proof fn line_breaks_do_not_matter(
    s: EditorView,
    a: Seq<char>,
    b: Seq<char>,
    path: Option<Seq<char>>,
    semantic: Seq<Seq<char>>,
    facts: DocumentFacts,
)
    requires
        a.len() > 0 ==> a[a.len() - 1] != '\r',
        b.len() > 0 ==> b[0] != '\n',
    ensures
        file_drop::document_replaced(s, a + seq!['\r', '\n'] + b, path, semantic, facts)
            == file_drop::document_replaced(s, a + seq!['\n'] + b, path, semantic, facts),
        file_drop::document_replaced(s, a + seq!['\r'] + b, path, semantic, facts)
            == file_drop::document_replaced(s, a + seq!['\n'] + b, path, semantic, facts),
{
    each_line_break_becomes_one_line_feed('\n');
    line_breaks_are_taken_one_by_one(a, seq!['\r', '\n']);
    line_breaks_are_taken_one_by_one(a + seq!['\r', '\n'], b);
    line_breaks_are_taken_one_by_one(a, seq!['\n']);
    line_breaks_are_taken_one_by_one(a + seq!['\n'], b);
    line_breaks_are_taken_one_by_one(a, seq!['\r']);
    line_breaks_are_taken_one_by_one(a + seq!['\r'], b);
}

/// The document after a file was dropped has the blocks that are read from its text.
pub proof fn a_replaced_document_has_the_blocks_of_the_file(
    s: EditorView,
    markdown: Seq<char>,
    path: Option<Seq<char>>,
    semantic: Seq<Seq<char>>,
    facts: DocumentFacts,
)
    requires
        forall|k: int| 0 <= k < markdown.len() ==> markdown[k] != '\r',
    ensures
        ({
            let read = restore::loaded(
                EditorView { file_path: path, view_mode: ViewMode::Rendered, ..s },
                markdown,
                semantic,
            ).document;
            let after = file_drop::document_replaced(s, markdown, path, semantic, facts);
            &&& after.document.len() == read.len()
            &&& forall|k: int|
                0 <= k < read.len() ==> same_text_block(read[k], #[trigger] after.document[k])
                    && after.document[k].table == read[k].table
            &&& after.focus.pending_focus == facts.first_focusable
        }),
{
    lemma_no_returns(markdown);
}

proof fn lemma_no_returns(s: Seq<char>)
    requires
        forall|k: int| 0 <= k < s.len() ==> s[k] != '\r',
    ensures
        file_drop::unix_lines(s) == s,
    decreases s.len(),
{
    if s.len() > 0 {
        let rest = s.skip(1);
        assert forall|k: int| 0 <= k < rest.len() implies rest[k] != '\r' by {
            assert(rest[k] == s[k + 1]);
        }
        lemma_no_returns(rest);
        assert(seq![s[0]] + rest =~= s);
    }
}

// ---------------------------------------------------------------------------
// Files
// ---------------------------------------------------------------------------

/// Whether a character is one of two.
pub open spec fn either(c: char, a: char, b: char) -> bool {
    c == a || c == b
}

/// Whether an extension is `md`, in small or large letters.
pub open spec fn short_extension(e: Seq<char>) -> bool {
    e.len() == 2 && either(e[0], 'm', 'M') && either(e[1], 'd', 'D')
}

/// Whether an extension is `markdown`, in small or large letters.
pub open spec fn long_extension(e: Seq<char>) -> bool {
    &&& e.len() == 8
    &&& either(e[0], 'm', 'M')
    &&& either(e[1], 'a', 'A')
    &&& either(e[2], 'r', 'R')
    &&& either(e[3], 'k', 'K')
    &&& either(e[4], 'd', 'D')
    &&& either(e[5], 'o', 'O')
    &&& either(e[6], 'w', 'W')
    &&& either(e[7], 'n', 'N')
}

/// Markdown files are those with the extension `md` or `markdown`, in small or large
/// letters.
pub proof fn markdown_files_have_one_of_two_extensions(e: Seq<char>)
    ensures
        file_drop::markdown_extension(Some(e)) <==> short_extension(e) || long_extension(e),
        !file_drop::markdown_extension(None),
{
    reveal_strlit("md");
    reveal_strlit("markdown");
    let short = "md"@;
    let long = "markdown"@;
    assert(short =~= seq!['m', 'd']);
    assert(long =~= seq!['m', 'a', 'r', 'k', 'd', 'o', 'w', 'n']);
    if text::same_ignoring_ascii_case(e, short) {
        assert(text::ascii_lower(e[0]) == text::ascii_lower(short[0]));
        assert(text::ascii_lower(e[1]) == text::ascii_lower(short[1]));
    }
    if text::same_ignoring_ascii_case(e, long) {
        assert(text::ascii_lower(e[0]) == text::ascii_lower(long[0]));
        assert(text::ascii_lower(e[1]) == text::ascii_lower(long[1]));
        assert(text::ascii_lower(e[2]) == text::ascii_lower(long[2]));
        assert(text::ascii_lower(e[3]) == text::ascii_lower(long[3]));
        assert(text::ascii_lower(e[4]) == text::ascii_lower(long[4]));
        assert(text::ascii_lower(e[5]) == text::ascii_lower(long[5]));
        assert(text::ascii_lower(e[6]) == text::ascii_lower(long[6]));
        assert(text::ascii_lower(e[7]) == text::ascii_lower(long[7]));
    }
    if short_extension(e) {
        assert(text::same_ignoring_ascii_case(e, short));
    }
    if long_extension(e) {
        assert(text::same_ignoring_ascii_case(e, long));
    }
}

/// A folder is no Markdown file, whatever its name.
pub proof fn folders_are_no_markdown_files(dropped: DroppedPath)
    requires
        !dropped.is_file,
    ensures
        !file_drop::markdown_file(dropped),
{
}

// ---------------------------------------------------------------------------
// New tables
// ---------------------------------------------------------------------------

/// Whether a block follows the one at `i`, which ends at `end`, at the same level.
pub open spec fn goes_on(nodes: Nodes, i: int, end: int) -> bool {
    end < nodes.len() && nodes[end].depth == nodes[i].depth
}

/// How many blocks a new table adds: a paragraph follows it where nothing else does.
pub open spec fn blocks_for_table(nodes: Nodes, i: int, end: int) -> int {
    if goes_on(nodes, i, end) {
        1
    } else {
        2
    }
}

/// The dialog asks for two rows and two columns first, and neither count goes below one.
pub proof fn the_dialog_asks_for_two_by_two(s: EditorView, count: usize)
    ensures
        menus::dialog_opened(s).overlays.table_insert_dialog matches Some(dialog)
            ==> s.overlays.table_insert_dialog == Some(dialog) || (dialog.body_rows == 2
            && dialog.columns == 2),
        count > 1 ==> menus::lowered(count) == count - 1,
        count <= 1 ==> menus::lowered(count) == 1,
{
}

/// A confirmed dialog puts an empty table with the counts of the dialog right behind the
/// block that it was opened for, at the level of that block. Its first cell gets the
/// focus, and the other blocks stay.
pub proof fn a_new_table_has_the_size_of_the_dialog(
    s: EditorView,
    i: int,
    end: int,
    rows: usize,
    columns: usize,
)
    requires
        document::well_formed(s.document, s.next_id),
        s.next_id + 2 <= u64::MAX,
        ends_at(s.document, i, end),
        columns > 0,
        s.overlays.table_insert_dialog == Some(
            TableInsertDialogState {
                target: TableInsertTarget::After(s.document[i].id),
                body_rows: rows,
                columns,
            },
        ),
    ensures
        ({
            let after = menus::dialog_confirmed(s);
            let nodes = after.document;
            let added = blocks_for_table(s.document, i, end);
            &&& nodes.len() == s.document.len() + added
            &&& nodes[end].id == s.next_id
            &&& nodes[end].depth == s.document[i].depth
            &&& nodes[end].table matches Some(table) && {
                &&& shows(nodes[end], table)
                &&& table.header.len() == columns
                &&& forall|c: int| 0 <= c < columns ==> empty_text(#[trigger] table.header[c])
                &&& table.rows.len() == rows
                &&& forall|r: int| 0 <= r < rows ==> (#[trigger] table.rows[r]).len() == columns
                &&& forall|r: int, c: int|
                    0 <= r < rows && 0 <= c < columns ==> empty_text(#[trigger] table.rows[r][c])
            }
            &&& !goes_on(s.document, i, end) ==> empty_block(
                nodes[end + 1],
                (s.next_id + 1) as u64,
                BlockKind::Paragraph,
                s.document[i].depth,
            )
            &&& forall|k: int|
                0 <= k < end ==> same_text_block(s.document[k], #[trigger] nodes[k])
            &&& forall|k: int|
                end <= k < s.document.len() ==> same_text_block(
                    s.document[k],
                    #[trigger] nodes[k + added],
                )
            &&& after.focus.pending_focus == Some(nodes[end].runtime->0.header[0].id)
            &&& after.overlays.table_insert_dialog is None
            &&& after.window.document_dirty
        }),
{
    let dialog = s.overlays.table_insert_dialog->0;
    let closed = menus::dialog_set(s, None);
    newline::lemma_index_is(s.document, i, 0);
    paste_laws::lemma_ends_at(s.document, i, end);
    let node = document::fresh_node(
        s.next_id,
        s.document[i].depth,
        BlockKind::Table,
        blocks::plain_title(Seq::empty()),
        Some(table_data::empty_table(rows as nat, columns as nat)),
    );
    let grown = document::inserted(s.document, end, seq![node]);
    assert(grown[end] == node);
    assert(end + 1 < grown.len() ==> grown[end + 1] == s.document[end]);
    assert(ends_at(grown, end, end + 1));
    paste_laws::lemma_ends_at(grown, end, end + 1);
    let placed = menus::table_placed(closed, dialog);
    let added = blocks_for_table(s.document, i, end);
    quote_laws::lemma_empty();
    assert(placed.document.len() == s.document.len() + added);
    assert(placed.document[end] == node);
    assert forall|k: int| 0 <= k < end implies #[trigger] placed.document[k] == s.document[k] by {}
    assert forall|k: int| end <= k < s.document.len() implies s.document[k]
        == #[trigger] placed.document[k + added] by {}
    assert(document::index_of(placed.document, s.next_id) == Some(end)) by {
        lemma_first(placed.document, s.next_id, end, 0);
    }
    let table = table_data::empty_table(rows as nat, columns as nat);
    table_laws::lemma_rebuilt_in_step(placed, s.next_id, end, table);
    let rebuilt = tables::tables_rebuilt(placed);
    table_edit_laws::lemma_shown(rebuilt.document, s.next_id, end, table);
    paste_laws::lemma_rebuilt_texts(placed);
    tables::lemma_rebuilt_nodes(placed.document, placed.next_id as int);
}

proof fn lemma_first(nodes: Nodes, id: u64, at: int, from: int)
    requires
        0 <= from <= at < nodes.len(),
        nodes[at].id == id,
        forall|k: int| 0 <= k < at ==> (#[trigger] nodes[k]).id != id,
    ensures
        document::index_from(nodes, id, from) == Some(at),
    decreases at - from,
{
    if from < at {
        assert(nodes[from].id != id);
        lemma_first(nodes, id, at, from + 1);
    }
}

} // verus!
