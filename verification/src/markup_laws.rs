//! What tables, formulas, comments, definitions and images are read as.

use crate::blocks;
use crate::blocks::{BlockKind, BlockView, InlineFragment, TableColumnAlignment};
use crate::import_model;
use crate::markup;
use crate::reading_laws;
use crate::reading_laws::{
    block_of, literal_block_of, no_fence, plain_lines, plain_text, run_of, trimmed_text,
};
use crate::regions;
use crate::regions::Lines;
use crate::table_syntax;
use crate::text;
use vstd::prelude::*;

verus! {

// ---------------------------------------------------------------------------
// Tables
// ---------------------------------------------------------------------------

/// The cells of a table row as they are written behind the first pipe: a space, the
/// text, a space and a pipe for each.
pub open spec fn written_cells(cells: Lines) -> Seq<char>
    decreases cells.len(),
{
    if cells.len() == 0 {
        Seq::empty()
    } else {
        seq![' '] + cells[0] + seq![' ', '|'] + written_cells(cells.drop_first())
    }
}

/// A table row as it is written.
pub open spec fn written_row(cells: Lines) -> Seq<char> {
    seq!['|'] + written_cells(cells)
}

/// Whether a text can be written into a cell as it is: it is not empty, has no white
/// space at its ends, and holds neither a pipe nor a backslash.
pub open spec fn cell_text(s: Seq<char>) -> bool {
    trimmed_text(s) && forall|k: int| 0 <= k < s.len() ==> s[k] != '|' && s[k] != '\\'
}

/// Whether these are texts of a row of a table.
pub open spec fn row_texts(cells: Lines) -> bool {
    cells.len() > 0 && forall|k: int| 0 <= k < cells.len() ==> cell_text(#[trigger] cells[k])
}

/// How an alignment is written below the header.
pub open spec fn written_alignment(alignment: TableColumnAlignment) -> Seq<char> {
    match alignment {
        TableColumnAlignment::Default => seq!['-', '-', '-'],
        TableColumnAlignment::Left => seq![':', '-', '-'],
        TableColumnAlignment::Center => seq![':', '-', ':'],
        TableColumnAlignment::Right => seq!['-', '-', ':'],
    }
}

/// A table as it is written: the header, the alignments and the body rows.
pub open spec fn written_table(
    header: Lines,
    alignments: Seq<TableColumnAlignment>,
    rows: Seq<Lines>,
) -> Lines {
    seq![
        written_row(header),
        written_row(Seq::new(alignments.len(), |k: int| written_alignment(alignments[k]))),
    ] + Seq::new(rows.len(), |k: int| written_row(rows[k]))
}

proof fn lemma_cell_end_is(s: Seq<char>, at: int, end: int)
    requires
        0 <= at <= end < s.len(),
        forall|k: int| at <= k < end ==> s[k] != '|' && s[k] != '\\',
        s[end] == '|',
    ensures
        table_syntax::cell_end(s, at) == end,
    decreases end - at,
{
    if at < end {
        lemma_cell_end_is(s, at + 1, end);
    }
}

proof fn lemma_spaced(c: Seq<char>)
    requires
        trimmed_text(c),
    ensures
        text::trimmed(seq![' '] + c + seq![' ']) == c,
{
    let s = seq![' '] + c + seq![' '];
    text::lemma_trimmed_start_is(s, 1);
    let rest = s.subrange(1, s.len() as int);
    assert(rest =~= c + seq![' ']);
    text::lemma_trimmed_end_is(rest, c.len() as int);
    assert(rest.subrange(0, c.len() as int) =~= c);
}

proof fn lemma_cells_from(pre: Seq<char>, cells: Lines)
    requires
        row_texts(cells),
    ensures
        table_syntax::cells_from(pre + written_cells(cells), pre.len() as int) == cells,
    decreases cells.len(),
{
    let s = pre + written_cells(cells);
    let at = pre.len() as int;
    let c = cells[0];
    let rest = cells.drop_first();
    let end = at + c.len() + 1 + 1;
    assert(cell_text(c));
    assert forall|k: int| at <= k < end implies s[k] != '|' && s[k] != '\\' by {
        if at < k < end - 1 {
            assert(s[k] == c[k - at - 1]);
        }
    }
    assert(s[end] == '|');
    lemma_cell_end_is(s, at, end);
    assert(s.subrange(at, end) =~= seq![' '] + c + seq![' ']);
    lemma_spaced(c);
    if rest.len() > 0 {
        assert forall|k: int| 0 <= k < rest.len() implies cell_text(#[trigger] rest[k]) by {
            assert(rest[k] == cells[k + 1]);
        }
        let longer = pre + seq![' '] + c + seq![' ', '|'];
        lemma_cells_from(longer, rest);
        assert(s =~= longer + written_cells(rest));
        assert(end + 1 < s.len());
        assert(seq![c] + rest =~= cells);
    } else {
        assert(written_cells(rest).len() == 0);
        assert(s.len() == end + 1);
        assert(cells =~= seq![c]);
    }
}

proof fn lemma_written_ends(cells: Lines)
    requires
        cells.len() > 0,
    ensures
        written_cells(cells).len() > 0,
        written_cells(cells).last() == '|',
    decreases cells.len(),
{
    if cells.len() > 1 {
        lemma_written_ends(cells.drop_first());
    } else {
        assert(written_cells(cells.drop_first()).len() == 0);
    }
}

/// A written row is read as its cells.
pub proof fn lemma_row_is_read(cells: Lines)
    requires
        row_texts(cells),
    ensures
        table_syntax::row_cells(written_row(cells)) == cells,
        table_syntax::table_candidate(written_row(cells)),
        written_row(cells).len() > 0,
        written_row(cells)[0] == '|',
{
    let line = written_row(cells);
    lemma_written_ends(cells);
    reading_laws::lemma_start(line);
    text::lemma_trimmed_end_is(line, line.len() as int);
    assert(line.subrange(0, line.len() as int) =~= line);
    reveal(table_syntax::row_cells);
    reveal(table_syntax::table_candidate);
    assert(table_syntax::row_body(line) =~= written_cells(cells));
    lemma_cells_from(Seq::empty(), cells);
    assert(Seq::<char>::empty() + written_cells(cells) =~= written_cells(cells));
}

proof fn lemma_alignment_is_read(alignment: TableColumnAlignment)
    ensures
        cell_text(written_alignment(alignment)),
        table_syntax::delimiter_alignment(written_alignment(alignment)) == Some(alignment),
{
    let cell = written_alignment(alignment);
    match alignment {
        TableColumnAlignment::Default => {
            text::lemma_run_len_is(cell, '-', 3);
        },
        TableColumnAlignment::Left => {
            assert(cell.skip(1) =~= seq!['-', '-']);
            text::lemma_run_len_is(cell.skip(1), '-', 2);
        },
        TableColumnAlignment::Center => {
            assert(cell.skip(1).drop_last() =~= seq!['-']);
            text::lemma_run_len_is(cell.skip(1).drop_last(), '-', 1);
        },
        TableColumnAlignment::Right => {
            assert(cell.drop_last() =~= seq!['-', '-']);
            text::lemma_run_len_is(cell.drop_last(), '-', 2);
        },
    }
}

proof fn lemma_table_rows_run(lines: Lines, index: int)
    requires
        0 <= index <= lines.len(),
        forall|k: int| 0 <= k < lines.len() ==> table_syntax::table_candidate(#[trigger] lines[k]),
    ensures
        table_syntax::table_run_end(lines, index) == lines.len(),
    decreases lines.len() - index,
{
    if index < lines.len() {
        lemma_table_rows_run(lines, index + 1);
    }
}

/// The lines of a written table hold its cells.
pub proof fn lemma_parsed(header: Lines, alignments: Seq<TableColumnAlignment>, rows: Seq<Lines>)
    requires
        row_texts(header),
        alignments.len() == header.len(),
        forall|k: int| 0 <= k < rows.len() ==> row_texts(#[trigger] rows[k]),
    ensures
        ({
            let lines = written_table(header, alignments, rows);
            &&& forall|k: int|
                0 <= k < lines.len() ==> table_syntax::table_candidate(#[trigger] lines[k])
                    && lines[k].len() > 0 && lines[k][0] == '|'
            &&& table_syntax::parsed_table(lines) matches Some(table) && {
                &&& table.header.len() == header.len()
                &&& forall|c: int|
                    0 <= c < header.len() ==> #[trigger] table.header[c] == seq![
                        InlineFragment { markdown: true, text: header[c] },
                    ]
                &&& table.alignments == alignments
                &&& table.rows.len() == rows.len()
                &&& forall|r: int|
                    0 <= r < rows.len() ==> (#[trigger] table.rows[r]).len() == header.len()
                &&& forall|r: int, c: int|
                    0 <= r < rows.len() && 0 <= c < header.len() ==> #[trigger] table.rows[r][c]
                        == seq![
                        InlineFragment {
                            markdown: true,
                            text: if c < rows[r].len() {
                                rows[r][c]
                            } else {
                                Seq::empty()
                            },
                        },
                    ]
                &&& table.widths is None
            }
        }),
{
    let lines = written_table(header, alignments, rows);
    let marks = Seq::new(alignments.len(), |k: int| written_alignment(alignments[k]));
    assert forall|k: int| 0 <= k < marks.len() implies cell_text(#[trigger] marks[k]) by {
        lemma_alignment_is_read(alignments[k]);
    }
    lemma_row_is_read(header);
    lemma_row_is_read(marks);
    assert forall|k: int| 0 <= k < lines.len() implies table_syntax::table_candidate(
        #[trigger] lines[k],
    ) && lines[k].len() > 0 && lines[k][0] == '|' by {
        if k >= 2 {
            assert(lines[k] == written_row(rows[k - 2]));
            lemma_row_is_read(rows[k - 2]);
        }
    }
    reveal(table_syntax::parsed_table);
    assert(lines[0] == written_row(header));
    assert(lines[1] == written_row(marks));
    assert forall|k: int| 0 <= k < marks.len() implies (
    #[trigger] table_syntax::delimiter_alignment(marks[k])) is Some by {
        lemma_alignment_is_read(alignments[k]);
    }
    let table = table_syntax::parsed_table(lines)->0;
    assert(table.alignments =~= alignments) by {
        assert forall|k: int| 0 <= k < alignments.len() implies table.alignments[k]
            == alignments[k] by {
            lemma_alignment_is_read(alignments[k]);
        }
    }
    assert forall|r: int| 0 <= r < rows.len() implies #[trigger] table.rows[r]
        == table_syntax::fitted_row(rows[r], header.len()) by {
        assert(lines[r + 2] == written_row(rows[r]));
        lemma_row_is_read(rows[r]);
    }
}

/// A table with pipes around its cells is read cell by cell: each text in its row and
/// column, the alignments as they are written, and rows cut off or filled up with empty
/// cells to the width of the header.
pub proof fn tables_are_read_cell_by_cell(
    header: Lines,
    alignments: Seq<TableColumnAlignment>,
    rows: Seq<Lines>,
    native: bool,
    semantic: Lines,
)
    requires
        row_texts(header),
        alignments.len() == header.len(),
        forall|k: int| 0 <= k < rows.len() ==> row_texts(#[trigger] rows[k]),
    ensures
        ({
            let items = import_model::blocks_of(
                written_table(header, alignments, rows),
                native,
                semantic,
            );
            &&& items.len() == 1
            &&& items[0].kind is Table
            &&& items[0].children.len() == 0
            &&& items[0].table matches Some(table) && {
                &&& table.header.len() == header.len()
                &&& forall|c: int|
                    0 <= c < header.len() ==> #[trigger] table.header[c] == seq![
                        InlineFragment { markdown: true, text: header[c] },
                    ]
                &&& table.alignments == alignments
                &&& table.rows.len() == rows.len()
                &&& forall|r: int|
                    0 <= r < rows.len() ==> (#[trigger] table.rows[r]).len() == header.len()
                &&& forall|r: int, c: int|
                    0 <= r < rows.len() && 0 <= c < header.len() ==> #[trigger] table.rows[r][c]
                        == seq![
                        InlineFragment {
                            markdown: true,
                            text: if c < rows[r].len() {
                                rows[r][c]
                            } else {
                                Seq::empty()
                            },
                        },
                    ]
                &&& table.widths is None
            }
        }),
{
    let lines = written_table(header, alignments, rows);
    lemma_parsed(header, alignments, rows);
    assert(lines[0].len() > 0 && lines[0][0] == '|');
    assert(lines[1].len() > 0 && lines[1][0] == '|');
    reading_laws::lemma_start(lines[0]);
    reading_laws::lemma_not_started(lines[0]);
    reading_laws::lemma_not_started(lines[1]);
    reading_laws::lemma_no_comment(lines, 0);
    reveal(table_syntax::table_region_end);
    lemma_table_rows_run(lines, 1);
    assert(lines.subrange(0, lines.len() as int) =~= lines);
    let table = table_syntax::parsed_table(lines)->0;
    reading_laws::lemma_one_block(lines, native, semantic, import_model::table_leaf(table));
}

// ---------------------------------------------------------------------------
// Formulas
// ---------------------------------------------------------------------------

/// A formula between two `$$` on one line is a math block that keeps the line.
pub proof fn formulas_on_a_line_are_read(formula: Seq<char>, native: bool, semantic: Lines)
    requires
        formula.len() > 0,
    ensures
        ({
            let line = seq!['$', '$'] + formula + seq!['$', '$'];
            import_model::blocks_of(seq![line], native, semantic) == seq![
                literal_block_of(BlockKind::MathBlock, line),
            ]
        }),
{
    let line = seq!['$', '$'] + formula + seq!['$', '$'];
    let lines = seq![line];
    let n = formula.len() as int;
    reading_laws::lemma_start(line);
    reading_laws::lemma_not_started(line);
    reading_laws::lemma_no_comment(lines, 0);
    reading_laws::lemma_no_pipeless(lines, 0);
    text::lemma_trimmed_end_is(line, line.len() as int);
    assert(line.subrange(0, line.len() as int) =~= line);
    reveal_strlit("$$");
    assert("$$"@ =~= seq!['$', '$']);
    assert(line.take(2) =~= "$$"@);
    reveal(markup::display_math_start);
    reveal(regions::math_region_end);
    reveal(markup::display_math_source);
    assert(text::occurs_at(line.skip(2), "$$"@, n)) by {
        assert(line.skip(2).subrange(n, n + 2) =~= "$$"@);
    }
    assert(text::ends_with(line, "$$"@)) by {
        assert(line.subrange(n + 2, n + 4) =~= "$$"@);
    }
    assert(lines.subrange(0, 1) =~= lines);
    assert(text::joined(lines) == line);
    reading_laws::lemma_one_block(
        lines,
        native,
        semantic,
        literal_block_of(BlockKind::MathBlock, line),
    );
}

proof fn lemma_math_closes(lines: Lines, index: int)
    requires
        0 < index < lines.len(),
        forall|k: int| index <= k < lines.len() - 1 ==> plain_text(#[trigger] lines[k]),
        lines[lines.len() - 1] == seq!['$', '$'],
    ensures
        regions::math_end_from(lines, index) == lines.len(),
    decreases lines.len() - index,
{
    reveal_strlit("$$");
    assert("$$"@ =~= seq!['$', '$']);
    if index < lines.len() - 1 {
        reading_laws::lemma_plain(lines[index]);
        assert(lines[index][0] != '$');
        lemma_math_closes(lines, index + 1);
    } else {
        let line = lines[index];
        reading_laws::lemma_start(line);
        text::lemma_trimmed_end_is(line, 2);
        assert(line.subrange(0, 2) =~= line);
    }
}

proof fn lemma_joined_ends(lines: Lines)
    requires
        lines.len() > 1,
    ensures
        text::joined(lines).len() >= lines[0].len() + 1 + lines.last().len(),
        forall|k: int| 0 <= k < lines[0].len() ==> text::joined(lines)[k] == #[trigger] lines[0][k],
        forall|k: int|
            0 <= k < lines.last().len() ==> text::joined(lines)[text::joined(lines).len()
                - lines.last().len() + k] == #[trigger] lines.last()[k],
    decreases lines.len(),
{
    let before = lines.drop_last();
    if before.len() > 1 {
        lemma_joined_ends(before);
        assert(before[0] == lines[0]);
    } else {
        assert(text::joined(before) == lines[0]);
    }
}

/// Lines of plain text between two lines of `$$` are a math block that keeps them all.
pub proof fn formulas_of_several_lines_are_read(body: Lines, native: bool, semantic: Lines)
    requires
        plain_lines(body),
    ensures
        ({
            let lines = seq![seq!['$', '$']] + body + seq![seq!['$', '$']];
            import_model::blocks_of(lines, native, semantic) == seq![
                literal_block_of(BlockKind::MathBlock, text::joined(lines)),
            ]
        }),
{
    let fence = seq!['$', '$'];
    let lines = seq![fence] + body + seq![fence];
    let n = lines.len() as int;
    reading_laws::lemma_start(fence);
    reading_laws::lemma_not_started(fence);
    reading_laws::lemma_no_comment(lines, 0);
    reveal_strlit("$$");
    assert("$$"@ =~= fence);
    text::lemma_trimmed_end_is(fence, 2);
    assert(fence.subrange(0, 2) =~= fence);
    assert(fence.take(2) =~= fence);
    reveal(markup::display_math_start);
    reveal(regions::math_region_end);
    reveal(markup::display_math_source);
    assert forall|k: int| 1 <= k < n - 1 implies plain_text(#[trigger] lines[k]) by {
        assert(lines[k] == body[k - 1]);
    }
    lemma_math_closes(lines, 1);
    if body.len() > 0 {
        assert(lines[1] == body[0]);
        reading_laws::lemma_plain(lines[1]);
        reading_laws::lemma_no_pipeless(lines, 0);
    } else {
        assert(lines[1] == fence);
        lemma_no_table_above_dollars(lines);
    }
    assert(lines[0] == fence && lines.last() == fence);
    lemma_joined_ends(lines);
    let source = text::joined(lines);
    assert(source[0] == '$') by {
        assert(lines[0][0] == '$');
    }
    assert(source[1] == '$') by {
        assert(lines[0][1] == '$');
    }
    assert(source[source.len() - 2] == '$') by {
        assert(lines.last()[0] == '$');
    }
    assert(source[source.len() - 1] == '$') by {
        assert(lines.last()[1] == '$');
    }
    reading_laws::lemma_start(source);
    text::lemma_trimmed_end_is(source, source.len() as int);
    assert(source.subrange(0, source.len() as int) =~= source);
    assert(source.take(2) =~= "$$"@);
    assert(source.subrange(source.len() - 2, source.len() as int) =~= "$$"@);
    assert(text::ends_with(source, "$$"@));
    assert(lines.subrange(0, n) =~= lines);
    reading_laws::lemma_one_block(
        lines,
        native,
        semantic,
        literal_block_of(BlockKind::MathBlock, source),
    );
}

proof fn lemma_no_table_above_dollars(lines: Lines)
    requires
        lines.len() > 1,
        lines[1] == seq!['$', '$'],
    ensures
        import_model::pipeless_table(lines, 0) is None,
{
    reveal(import_model::pipeless_table);
    reveal(table_syntax::pipeless_region_end);
    reveal(table_syntax::row_cells);
    let line = lines[1];
    reading_laws::lemma_start(line);
    text::lemma_trimmed_end_is(line, 2);
    assert(line.subrange(0, 2) =~= line);
    reveal_with_fuel(table_syntax::cell_end, 3);
    assert(table_syntax::cell_end(line, 0) == 2);
    let cells = table_syntax::row_cells(line);
    assert(cells[0] == line);
    assert(table_syntax::delimiter_alignment(cells[0]) is None);
}

// ---------------------------------------------------------------------------
// Comments, definitions and images
// ---------------------------------------------------------------------------

/// A comment on one line is a comment block that keeps the line.
pub proof fn comments_are_kept(content: Seq<char>, native: bool, semantic: Lines)
    ensures
        ({
            let line = seq!['<', '!', '-', '-'] + content + seq!['-', '-', '>'];
            import_model::blocks_of(seq![line], native, semantic) == seq![
                literal_block_of(BlockKind::Comment, line),
            ]
        }),
{
    let line = seq!['<', '!', '-', '-'] + content + seq!['-', '-', '>'];
    let lines = seq![line];
    let n = content.len() as int;
    reading_laws::lemma_start(line);
    reading_laws::lemma_not_started(line);
    text::lemma_trimmed_end_is(line, line.len() as int);
    assert(line.subrange(0, line.len() as int) =~= line);
    reveal_strlit("<!--");
    reveal_strlit("-->");
    assert("<!--"@ =~= seq!['<', '!', '-', '-']);
    assert("-->"@ =~= seq!['-', '-', '>']);
    assert(line.take(4) =~= "<!--"@);
    reveal(markup::html_block_start);
    reveal(regions::closed_comment_end);
    reveal(import_model::comment_block);
    assert(text::occurs_at(line, "-->"@, n + 4)) by {
        assert(line.subrange(n + 4, n + 7) =~= "-->"@);
    }
    assert(lines.subrange(0, 1) =~= lines);
    assert(text::joined(lines) == line);
    reading_laws::lemma_one_block(
        lines,
        native,
        semantic,
        literal_block_of(BlockKind::Comment, line),
    );
}

proof fn lemma_find_is(s: Seq<char>, needle: Seq<char>, from: int, at: int)
    requires
        0 <= from <= at,
        needle.len() > 0,
        text::occurs_at(s, needle, at),
        forall|k: int| from <= k < at ==> s[k] != needle[0],
    ensures
        text::find_at(s, needle, from) == Some(at),
    decreases at - from,
{
    if from < at {
        assert(!text::occurs_at(s, needle, from)) by {
            assert(s.subrange(from, from + needle.len())[0] == s[from]);
        }
        lemma_find_is(s, needle, from + 1, at);
    }
}

/// A label between `[^` and `]:` and a plain text are a footnote with that label, and the
/// text is a paragraph under it. Where footnotes are no blocks of their own, the line is
/// kept as it is written.
pub proof fn footnotes_are_read(label: Seq<char>, content: Seq<char>, semantic: Lines)
    requires
        label.len() > 0,
        forall|k: int| 0 <= k < label.len() ==> label[k] != ']',
        plain_text(content),
    ensures
        ({
            let line = seq!['[', '^'] + label + seq![']', ':', ' '] + content;
            &&& import_model::blocks_of(seq![line], true, semantic) == seq![
                BlockView {
                    kind: BlockKind::FootnoteDefinition,
                    title: seq![InlineFragment { markdown: false, text: label }],
                    table: None,
                    children: seq![block_of(BlockKind::Paragraph, content)],
                },
            ]
            &&& import_model::blocks_of(seq![line], false, semantic) == seq![
                literal_block_of(BlockKind::RawMarkdown, line),
            ]
        }),
{
    let line = seq!['[', '^'] + label + seq![']', ':', ' '] + content;
    let lines = seq![line];
    let close = 2 + label.len() as int;
    lemma_label(line, close);
    reading_laws::lemma_start(line);
    reading_laws::lemma_not_started(line);
    reading_laws::lemma_no_comment(lines, 0);
    text::lemma_trimmed_end_is(line, line.len() as int);
    assert(line.subrange(0, line.len() as int) =~= line);
    reveal_strlit("[^");
    assert("[^"@ =~= seq!['[', '^']);
    assert(line.take(2) =~= "[^"@);
    reveal(markup::footnote_definition_start);
    reveal(markup::footnote_head);
    assert(line.subrange(2, close) =~= label);
    let tail = line.skip(close + 2);
    assert(tail =~= seq![' '] + content);
    text::lemma_trimmed_start_is(tail, 1);
    assert(tail.subrange(1, tail.len() as int) =~= content);
    assert(markup::footnote_head(line) == Some((label, content)));
    let body = import_model::footnote_body(lines, content);
    assert(lines.skip(1).len() == 0);
    assert(import_model::dedent_all(lines.skip(1), 4) =~= Seq::empty());
    assert(body =~= seq![content]);
    reading_laws::plain_lines_are_one_paragraph(body, false, semantic);
    assert(text::joined(body) == content);
    assert(lines.subrange(0, 1) =~= lines);
    assert(text::joined(lines) == line);
    assert(regions::footnote_end_from(lines, 1) == 1);
    let block = BlockView {
        kind: BlockKind::FootnoteDefinition,
        title: seq![InlineFragment { markdown: false, text: label }],
        table: None,
        children: seq![block_of(BlockKind::Paragraph, content)],
    };
    assert(import_model::footnote_block(lines, semantic) == block);
    reading_laws::lemma_one_block(lines, true, semantic, block);
    reading_laws::lemma_one_block(
        lines,
        false,
        semantic,
        literal_block_of(BlockKind::RawMarkdown, line),
    );
}

proof fn lemma_label(line: Seq<char>, close: int)
    requires
        0 < close,
        close + 1 < line.len(),
        line[close] == ']',
        line[close + 1] == ':',
        forall|k: int| 0 <= k < close ==> line[k] != ']',
    ensures
        markup::label_end(line) == Some(close),
{
    reveal_strlit("]:");
    assert(text::occurs_at(line, "]:"@, close)) by {
        assert(line.subrange(close, close + 2) =~= "]:"@);
    }
    lemma_find_is(line, "]:"@, 0, close);
}

/// The definition of a link is kept as it is written.
pub proof fn link_definitions_are_kept(
    label: Seq<char>,
    target: Seq<char>,
    native: bool,
    semantic: Lines,
)
    requires
        label.len() > 0,
        label[0] != '^',
        forall|k: int| 0 <= k < label.len() ==> label[k] != ']',
        trimmed_text(target),
    ensures
        ({
            let line = seq!['['] + label + seq![']', ':', ' '] + target;
            import_model::blocks_of(seq![line], native, semantic) == seq![
                literal_block_of(BlockKind::RawMarkdown, line),
            ]
        }),
{
    let line = seq!['['] + label + seq![']', ':', ' '] + target;
    let lines = seq![line];
    let close = 1 + label.len() as int;
    lemma_label(line, close);
    reading_laws::lemma_start(line);
    reading_laws::lemma_not_started(line);
    reading_laws::lemma_no_comment(lines, 0);
    text::lemma_trimmed_end_is(line, line.len() as int);
    assert(line.subrange(0, line.len() as int) =~= line);
    reveal_strlit("[^");
    assert(line[1] == label[0]);
    assert(!"[^"@.is_prefix_of(line)) by {
        assert("[^"@[1] == '^');
    }
    reveal(markup::footnote_definition_start);
    reveal(markup::reference_definition_start);
    assert(lines.subrange(0, 1) =~= lines);
    assert(text::joined(lines) == line);
    assert(regions::reference_end_from(lines, 1) == 1);
    reading_laws::lemma_one_block(
        lines,
        native,
        semantic,
        literal_block_of(BlockKind::RawMarkdown, line),
    );
}

/// An image alone on a line is a paragraph that keeps the line.
pub proof fn images_stand_alone(
    alt: Seq<char>,
    target: Seq<char>,
    native: bool,
    semantic: Lines,
)
    requires
        forall|k: int| 0 <= k < alt.len() ==> alt[k] != ']',
        target.len() > 0,
        forall|k: int| 0 <= k < target.len() ==> target[k] != ')',
    ensures
        ({
            let line = seq!['!', '['] + alt + seq![']', '('] + target + seq![')'];
            &&& markup::standalone_image(line) == Some(target)
            &&& import_model::blocks_of(seq![line], native, semantic) == seq![
                literal_block_of(BlockKind::Paragraph, line),
            ]
        }),
{
    let line = seq!['!', '['] + alt + seq![']', '('] + target + seq![')'];
    let lines = seq![line];
    let close = 2 + alt.len() as int;
    let n = line.len() as int;
    reading_laws::lemma_start(line);
    reading_laws::lemma_not_started(line);
    reading_laws::lemma_no_comment(lines, 0);
    text::lemma_trimmed_end_is(line, n);
    assert(line.subrange(0, n) =~= line);
    reveal_strlit("![");
    reveal_strlit("]");
    reveal_strlit(")");
    assert("!["@ =~= seq!['!', '[']);
    assert(line.take(2) =~= "!["@);
    reveal(markup::standalone_image);
    assert(text::occurs_at(line, "]"@, close)) by {
        assert(line.subrange(close, close + 1) =~= "]"@);
    }
    assert forall|k: int| 2 <= k < close implies line[k] != "]"@[0] by {
        assert(line[k] == alt[k - 2]);
    }
    lemma_find_is(line, "]"@, 2, close);
    assert(text::occurs_at(line, ")"@, n - 1)) by {
        assert(line.subrange(n - 1, n) =~= ")"@);
    }
    assert forall|k: int| close + 2 <= k < n - 1 implies line[k] != ")"@[0] by {
        assert(line[k] == target[k - close - 2]);
    }
    lemma_find_is(line, ")"@, close + 2, n - 1);
    assert(line.subrange(close + 2, n - 1) =~= target);
    reading_laws::lemma_one_block(
        lines,
        native,
        semantic,
        literal_block_of(BlockKind::Paragraph, line),
    );
}

} // verus!
