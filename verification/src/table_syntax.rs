//! Recognizers and the parser for pipe tables.

use crate::blocks;
use crate::blocks::{InlineTextTree, TableColumnAlignment, TableData, TableView};
use crate::text;
use crate::text::{chars_of, is_blank, slice_text, trim, trim_start};
use vstd::prelude::*;

verus! {

/// Whether `line` looks like a row of a pipe table.
#[verifier::opaque]
pub open spec fn table_candidate(line: Seq<char>) -> bool {
    let s = text::trimmed_start(line);
    s.len() > 0 && s[0] == '|'
}

/// Whether a line can be a row of a table.
pub fn is_table_candidate_line(line: &str) -> (r: bool)
    ensures
        r == table_candidate(line@),
{
    reveal(table_candidate);
    let cs = chars_of(trim_start(line));
    cs.len() > 0 && cs[0] == '|'
}

/// Whether `line` looks like a row of a pipe table at the root of a document.
pub fn is_root_table_candidate_line(line: &str) -> (r: bool)
    ensures
        r == table_candidate(line@),
{
    is_table_candidate_line(line)
}

/// Where the run of table rows that goes through `index` ends.
pub open spec fn table_run_end(lines: Seq<Seq<char>>, index: int) -> int
    decreases lines.len() - index,
{
    if 0 <= index < lines.len() && table_candidate(lines[index]) {
        table_run_end(lines, index + 1)
    } else {
        index
    }
}

/// Where the table whose first row is `lines[start]` ends.
#[verifier::opaque]
pub open spec fn table_region_end(lines: Seq<Seq<char>>, start: int) -> int {
    table_run_end(lines, start + 1)
}

/// The line behind those that can be rows of a table.
pub fn collect_table_candidate_region(lines: &[String], start: usize) -> (r: usize)
    requires
        start < lines@.len(),
    ensures
        r == table_region_end(text::texts(lines@), start as int),
        start < r <= lines@.len(),
{
    reveal(table_region_end);
    let ghost all = text::texts(lines@);
    let n: usize = lines.len();
    let mut index: usize = start + 1;
    while index < n && is_table_candidate_line(lines[index].as_str())
        invariant
            all == text::texts(lines@),
            n == lines@.len(),
            start < index <= n,
            table_run_end(all, start + 1) == table_run_end(all, index as int),
        decreases n - index,
    {
        index = index + 1;
    }
    index
}

/// Where the table at the root whose first row is `lines[start]` ends.
pub fn collect_root_table_candidate_region(lines: &[String], start: usize) -> (r: usize)
    requires
        start < lines@.len(),
    ensures
        r == table_region_end(text::texts(lines@), start as int),
        start < r <= lines@.len(),
{
    collect_table_candidate_region(lines, start)
}

/// Where the cell that goes through `at` ends: at the next pipe that no
/// backslash hides, or at the end of the row.
pub open spec fn cell_end(s: Seq<char>, at: int) -> int
    decreases s.len() + 1 - at,
{
    if at < 0 || at >= s.len() {
        s.len() as int
    } else if s[at] == '|' {
        at
    } else if s[at] == '\\' {
        cell_end(s, at + 2)
    } else {
        cell_end(s, at + 1)
    }
}

/// A cell ends inside the row.
pub proof fn lemma_cell_end(s: Seq<char>, at: int)
    requires
        0 <= at <= s.len(),
    ensures
        at <= cell_end(s, at) <= s.len(),
    decreases s.len() + 1 - at,
{
    if at < s.len() && s[at] != '|' {
        if s[at] == '\\' {
            if at + 2 <= s.len() {
                lemma_cell_end(s, at + 2);
            }
        } else {
            lemma_cell_end(s, at + 1);
        }
    }
}

/// The cells of a row from `at` on, without white space around them.
pub open spec fn cells_from(s: Seq<char>, at: int) -> Seq<Seq<char>>
    decreases s.len() + 1 - at,
{
    let end = cell_end(s, at);
    let cell = text::trimmed(s.subrange(at, end));
    if 0 <= at <= end && end + 1 < s.len() {
        seq![cell] + cells_from(s, end + 1)
    } else {
        seq![cell]
    }
}

/// A row without white space around it and without the pipe it starts with.
pub open spec fn row_body(line: Seq<char>) -> Seq<char> {
    let s = text::trimmed(line);
    if s.len() > 0 && s[0] == '|' {
        s.skip(1)
    } else {
        s
    }
}

/// The cells of a table row. A pipe at either end of the row is optional, and a
/// pipe behind a backslash belongs to its cell.
#[verifier::opaque]
pub open spec fn row_cells(line: Seq<char>) -> Seq<Seq<char>> {
    cells_from(row_body(line), 0)
}

/// The cells of a row.
pub fn split_row(line: &str) -> (r: Vec<String>)
    ensures
        text::texts(r@) == row_cells(line@),
        r@.len() >= 1,
{
    reveal(row_cells);
    let s = trim(line);
    let ss = chars_of(s);
    let body = if ss.len() > 0 && ss[0] == '|' {
        slice_text(s, 1, ss.len())
    } else {
        s
    };
    let cs = chars_of(body);
    let n: usize = cs.len();
    let mut out: Vec<String> = Vec::new();
    let mut at: usize = 0;
    assert(text::texts(out@) + cells_from(body@, 0) =~= cells_from(body@, 0));
    loop
        invariant_except_break
            text::texts(out@) + cells_from(body@, at as int) == cells_from(body@, 0),
        invariant
            cs@ == body@,
            n == cs@.len(),
            at <= n,
            body@ == row_body(line@),
        ensures
            text::texts(out@) == cells_from(body@, 0),
            out@.len() >= 1,
        decreases n + 1 - at,
    {
        let mut end: usize = at;
        proof {
            lemma_cell_end(body@, at as int);
        }
        while end < n && cs[end] != '|'
            invariant
                cs@ == body@,
                n == cs@.len(),
                at <= end <= n,
                cell_end(body@, at as int) == cell_end(body@, end as int),
            decreases n - end,
        {
            if cs[end] == '\\' {
                if n - end <= 2 {
                    assert(cell_end(body@, end + 2) == n);
                    end = n;
                } else {
                    end = end + 2;
                }
            } else {
                end = end + 1;
            }
        }
        let ghost before = out@;
        out.push(String::from_str(trim(slice_text(body, at, end))));
        proof {
            let cell = text::trimmed(body@.subrange(at as int, end as int));
            assert(text::texts(out@) =~= text::texts(before).push(cell));
            assert(text::texts(before).push(cell) =~= text::texts(before) + seq![cell]);
        }
        if end < n && n - end > 1 {
            proof {
                let cell = text::trimmed(body@.subrange(at as int, end as int));
                assert(text::texts(before) + (seq![cell] + cells_from(body@, end + 1)) =~= (
                text::texts(before) + seq![cell]) + cells_from(body@, end + 1));
            }
            at = end + 1;
        } else {
            break;
        }
    }
    out
}

/// The alignment that a cell of the delimiter row sets: dashes with an optional
/// colon at either end.
pub open spec fn delimiter_alignment(cell: Seq<char>) -> Option<TableColumnAlignment> {
    let left = cell.len() > 0 && cell[0] == ':';
    let after = if left {
        cell.skip(1)
    } else {
        cell
    };
    let right = after.len() > 0 && after.last() == ':';
    let dashes = if right {
        after.drop_last()
    } else {
        after
    };
    if dashes.len() == 0 || text::run_len(dashes, '-') != dashes.len() {
        None
    } else if left && right {
        Some(TableColumnAlignment::Center)
    } else if right {
        Some(TableColumnAlignment::Right)
    } else if left {
        Some(TableColumnAlignment::Left)
    } else {
        Some(TableColumnAlignment::Default)
    }
}

/// The alignment that a cell below the header gives to its column.
pub fn parse_delimiter_cell(cell: &str) -> (r: Option<TableColumnAlignment>)
    ensures
        r == delimiter_alignment(cell@),
{
    let cs = chars_of(cell);
    let n: usize = cs.len();
    let left: bool = n > 0 && cs[0] == ':';
    let from: usize = if left {
        1
    } else {
        0
    };
    let right: bool = n > from && cs[n - 1] == ':';
    let to: usize = if right {
        n - 1
    } else {
        n
    };
    let dashes = slice_text(cell, from, to);
    let ds = chars_of(dashes);
    let run: usize = text::leading_run(ds.as_slice(), '-');
    proof {
        let after = if left {
            cell@.skip(1)
        } else {
            cell@
        };
        let middle = if right {
            after.drop_last()
        } else {
            after
        };
        assert(dashes@ =~= middle);
    }
    if ds.len() == 0 || run != ds.len() {
        None
    } else if left && right {
        Some(TableColumnAlignment::Center)
    } else if right {
        Some(TableColumnAlignment::Right)
    } else if left {
        Some(TableColumnAlignment::Left)
    } else {
        Some(TableColumnAlignment::Default)
    }
}

/// Whether every cell of a row sets an alignment.
pub open spec fn all_delimiters(cells: Seq<Seq<char>>) -> bool {
    forall|i: int| 0 <= i < cells.len() ==> (#[trigger] delimiter_alignment(cells[i])) is Some
}

/// The alignments that a delimiter row sets.
pub open spec fn alignments_of(cells: Seq<Seq<char>>) -> Seq<TableColumnAlignment> {
    Seq::new(cells.len(), |i: int| delimiter_alignment(cells[i])->0)
}

/// A row of `columns` titles: its cells, cut off or filled up with empty ones.
pub open spec fn fitted_row(cells: Seq<Seq<char>>, columns: nat) -> Seq<blocks::Title> {
    Seq::new(
        columns,
        |j: int|
            if j < cells.len() {
                blocks::markdown_title(cells[j])
            } else {
                blocks::markdown_title(Seq::empty())
            },
    )
}

/// The table that the lines hold: a header row, a delimiter row with as many
/// cells, and body rows.
#[verifier::opaque]
pub open spec fn parsed_table(region: Seq<Seq<char>>) -> Option<TableView> {
    if region.len() < 2 {
        None
    } else {
        let header = row_cells(region[0]);
        let delimiters = row_cells(region[1]);
        if !all_delimiters(delimiters) || header.len() != delimiters.len() {
            None
        } else {
            Some(
                TableView {
                    header: fitted_row(header, header.len()),
                    alignments: alignments_of(delimiters),
                    rows: Seq::new(
                        (region.len() - 2) as nat,
                        |i: int| fitted_row(row_cells(region[i + 2]), header.len()),
                    ),
                    widths: None,
                },
            )
        }
    }
}

fn parse_delimiter_row(line: &str) -> (r: Option<Vec<TableColumnAlignment>>)
    ensures
        r matches Some(v) ==> all_delimiters(row_cells(line@)) && v@ == alignments_of(
            row_cells(line@),
        ),
        r is None ==> !all_delimiters(row_cells(line@)),
{
    let cells = split_row(line);
    let ghost all = text::texts(cells@);
    let mut out: Vec<TableColumnAlignment> = Vec::new();
    let mut i: usize = 0;
    while i < cells.len()
        invariant
            all == text::texts(cells@),
            all == row_cells(line@),
            i <= cells@.len(),
            out@ =~= alignments_of(all.take(i as int)),
            forall|k: int| 0 <= k < i ==> (#[trigger] delimiter_alignment(all[k])) is Some,
        decreases cells@.len() - i,
    {
        match parse_delimiter_cell(cells[i].as_str()) {
            Some(alignment) => {
                out.push(alignment);
                assert(delimiter_alignment(all[i as int]) == Some(alignment));
            },
            None => {
                assert(delimiter_alignment(all[i as int]) is None);
                return None;
            },
        }
        i = i + 1;
    }
    assert(all.take(i as int) =~= all);
    Some(out)
}

fn fit_row(cells: &Vec<String>, columns: usize) -> (r: Vec<InlineTextTree>)
    ensures
        blocks::titles(r@) == fitted_row(text::texts(cells@), columns as nat),
{
    let ghost all = text::texts(cells@);
    let mut out: Vec<InlineTextTree> = Vec::new();
    let mut j: usize = 0;
    while j < columns
        invariant
            all == text::texts(cells@),
            j <= columns,
            out@.len() == j,
            forall|k: int|
                0 <= k < j ==> (#[trigger] out@[k])@ == fitted_row(all, columns as nat)[k],
        decreases columns - j,
    {
        let text = if j < cells.len() {
            cells[j].clone()
        } else {
            String::new()
        };
        out.push(InlineTextTree::from_markdown(text));
        j = j + 1;
    }
    assert(blocks::titles(out@) =~= fitted_row(all, columns as nat));
    out
}

/// Reads a table from `lines[from..to]`.
pub fn parse_table_region(lines: &[String], from: usize, to: usize) -> (r: Option<TableData>)
    requires
        from <= to <= lines@.len(),
    ensures
        blocks::opt_table(r) == parsed_table(
            text::texts(lines@).subrange(from as int, to as int),
        ),
{
    reveal(parsed_table);
    let ghost region = text::texts(lines@).subrange(from as int, to as int);
    if to - from < 2 {
        return None;
    }
    let header = split_row(lines[from].as_str());
    let columns: usize = header.len();
    match parse_delimiter_row(lines[from + 1].as_str()) {
        None => None,
        Some(alignments) => {
            if alignments.len() != columns {
                return None;
            }
            let mut rows: Vec<Vec<InlineTextTree>> = Vec::new();
            let mut index: usize = from + 2;
            while index < to
                invariant
                    region == text::texts(lines@).subrange(from as int, to as int),
                    from + 2 <= index <= to <= lines@.len(),
                    rows@.len() == index - from - 2,
                    forall|i: int|
                        0 <= i < rows@.len() ==> blocks::titles((#[trigger] rows@[i])@)
                            == fitted_row(row_cells(region[i + 2]), columns as nat),
                decreases to - index,
            {
                let cells = split_row(lines[index].as_str());
                let row = fit_row(&cells, columns);
                assert(region[index - from] == lines@[index as int]@);
                rows.push(row);
                index = index + 1;
            }
            let head = fit_row(&header, columns);
            let table = TableData { header: head, alignments, rows, widths: None };
            proof {
                let want = parsed_table(region)->0;
                assert(region[0] == lines@[from as int]@);
                assert(region[1] == lines@[from + 1]@);
                assert(table@.rows =~= want.rows);
                assert(table@.header =~= want.header);
                assert(table@.alignments =~= want.alignments);
            }
            Some(table)
        },
    }
}

/// Reads a table at the root from `lines[from..to]`.
pub fn parse_root_table_region(lines: &[String], from: usize, to: usize) -> (r: Option<TableData>)
    requires
        from <= to <= lines@.len(),
    ensures
        blocks::opt_table(r) == parsed_table(
            text::texts(lines@).subrange(from as int, to as int),
        ),
{
    parse_table_region(lines, from, to)
}

/// Where the run of lines with at least two cells that goes through `index`
/// ends.
pub open spec fn pipeless_run_end(lines: Seq<Seq<char>>, index: int) -> int
    decreases lines.len() - index,
{
    if 0 <= index < lines.len() && !text::blank(lines[index]) && row_cells(lines[index]).len() >= 2
    {
        pipeless_run_end(lines, index + 1)
    } else {
        index
    }
}

/// Where the table ends that starts at `index` with a row that no pipe opens:
/// a row of at least two cells above a delimiter row of as many.
#[verifier::opaque]
pub open spec fn pipeless_region_end(lines: Seq<Seq<char>>, index: int) -> Option<int> {
    if 0 <= index && index + 1 < lines.len() && row_cells(lines[index]).len() >= 2
        && all_delimiters(row_cells(lines[index + 1])) && row_cells(lines[index + 1]).len()
        == row_cells(lines[index]).len() {
        Some(pipeless_run_end(lines, index + 2))
    } else {
        None
    }
}

/// The line behind a table whose rows have no pipes around them.
pub fn collect_pipeless_table_region(lines: &[String], index: usize) -> (r: Option<usize>)
    requires
        index < lines@.len(),
    ensures
        r matches Some(end) ==> pipeless_region_end(text::texts(lines@), index as int) == Some(
            end as int,
        ) && index < end <= lines@.len(),
        r is None ==> pipeless_region_end(text::texts(lines@), index as int) is None,
{
    let ghost all = text::texts(lines@);
    let n: usize = lines.len();
    proof {
        reveal(pipeless_region_end);
    }
    if n - index < 2 {
        return None;
    }
    let header = split_row(lines[index].as_str());
    if header.len() < 2 {
        return None;
    }
    match parse_delimiter_row(lines[index + 1].as_str()) {
        None => None,
        Some(alignments) => {
            if alignments.len() != header.len() {
                return None;
            }
            let mut end: usize = index + 2;
            while end < n && !is_blank(lines[end].as_str()) && split_row(lines[end].as_str()).len()
                >= 2
                invariant
                    all == text::texts(lines@),
                    n == lines@.len(),
                    index + 2 <= end <= n,
                    pipeless_run_end(all, index + 2) == pipeless_run_end(all, end as int),
                decreases n - end,
            {
                end = end + 1;
            }
            Some(end)
        },
    }
}

/// Whether a typed line can be a row of a table: it starts with a pipe, or pipes
/// part it into several cells.
pub open spec fn row_candidate(line: Seq<char>) -> bool {
    table_candidate(line) || row_cells(line).len() >= 2
}

/// Whether a typed line can be a row of a table.
pub fn is_table_row_candidate(line: &str) -> (r: bool)
    ensures
        r == row_candidate(line@),
{
    let cells = split_row(line);
    assert(text::texts(cells@).len() == cells@.len());
    is_table_candidate_line(line) || cells.len() >= 2
}

/// The cells of a typed body row, fitted to the width of its table.
pub fn parse_table_body_row(line: &str, columns: usize) -> (r: Option<Vec<InlineTextTree>>)
    ensures
        r matches Some(row) ==> row_candidate(line@) && blocks::titles(row@) == fitted_row(
            row_cells(line@),
            columns as nat,
        ),
        r is None ==> !row_candidate(line@),
{
    if !is_table_row_candidate(line) {
        return None;
    }
    let cells = split_row(line);
    Some(fit_row(&cells, columns))
}

} // verus!
