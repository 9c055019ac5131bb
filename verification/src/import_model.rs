//! What importing Markdown means: the blocks that a sequence of lines stands
//! for.
//!
//! The functions here are the reading of Markdown that the importer is proved
//! against. Constructs that the block model does not hold become raw Markdown
//! blocks that keep their source lines.

use crate::blocks;
use crate::blocks::{BlockKind, BlockView, CalloutVariant, InlineFragment, Title};
use crate::grammar;
use crate::markup;
use crate::regions;
use crate::regions::Lines;
use crate::table_syntax;
use crate::text;
use vstd::prelude::*;

verus! {

/// A sequence of blocks.
pub type Blocks = Seq<BlockView>;

// ---------------------------------------------------------------------------
// Blocks without children
// ---------------------------------------------------------------------------

/// A block whose title is Markdown source.
pub open spec fn native_leaf(kind: BlockKind<Seq<char>>, markdown: Seq<char>) -> BlockView {
    blocks::leaf(kind, blocks::markdown_title(markdown))
}

/// A block whose title is literal text.
pub open spec fn literal_leaf(kind: BlockKind<Seq<char>>, source: Seq<char>) -> BlockView {
    blocks::leaf(kind, blocks::plain_title(source))
}

/// A block that keeps Markdown as it stands in the source.
pub open spec fn raw_leaf(source: Seq<char>) -> BlockView {
    literal_leaf(BlockKind::RawMarkdown, source)
}

/// An empty paragraph.
pub open spec fn empty_paragraph() -> BlockView {
    native_leaf(BlockKind::Paragraph, Seq::empty())
}

/// `count` empty paragraphs.
pub open spec fn empty_paragraphs(count: nat) -> Blocks {
    Seq::new(count, |i: int| empty_paragraph())
}

/// A paragraph that an image makes up.
pub open spec fn image_leaf(markdown: Seq<char>) -> BlockView {
    literal_leaf(BlockKind::Paragraph, text::trimmed(markdown))
}

/// A block of HTML, if its source is one of those known to be semantic, and raw
/// Markdown otherwise.
pub open spec fn html_leaf(source: Seq<char>, semantic: Lines) -> BlockView {
    if semantic.contains(source) {
        literal_leaf(BlockKind::HtmlBlock, source)
    } else {
        raw_leaf(source)
    }
}

/// A block of display math, if the source is a whole one, and raw Markdown
/// otherwise.
pub open spec fn math_leaf(source: Seq<char>) -> BlockView {
    if markup::display_math_source(source) is Some {
        literal_leaf(BlockKind::MathBlock, source)
    } else {
        raw_leaf(source)
    }
}

/// The block of a table.
pub open spec fn table_leaf(table: blocks::TableView) -> BlockView {
    BlockView {
        kind: BlockKind::Table,
        title: blocks::plain_title(Seq::empty()),
        table: Some(table),
        children: Seq::empty(),
    }
}

/// The source of `lines[from..to]`.
pub open spec fn source(lines: Lines, from: int, to: int) -> Seq<char> {
    text::joined(lines.subrange(from, to))
}

/// A table, if the lines hold one, and raw Markdown otherwise.
pub open spec fn table_or_raw(lines: Lines, from: int, to: int) -> BlockView {
    match table_syntax::parsed_table(lines.subrange(from, to)) {
        Some(table) => table_leaf(table),
        None => raw_leaf(source(lines, from, to)),
    }
}

/// The fenced code block that starts at `start`, if it is closed.
#[verifier::opaque]
pub open spec fn fenced_block(lines: Lines, start: int) -> Option<(BlockView, int)> {
    match grammar::opening_fence(lines[start]) {
        None => None,
        Some(fence) => match regions::fence_close_from(lines, start + 1, fence) {
            None => None,
            Some(close) => if grammar::mermaid_info(fence.language) {
                Some(
                    (
                        literal_leaf(BlockKind::MermaidBlock, source(lines, start, close + 1)),
                        close + 1,
                    ),
                )
            } else {
                Some(
                    (
                        literal_leaf(
                            BlockKind::CodeBlock { language: fence.language },
                            source(lines, start + 1, close),
                        ),
                        close + 1,
                    ),
                )
            },
        },
    }
}

/// The first line at or after `index` that is neither indented code nor blank.
pub open spec fn indented_end_from(lines: Lines, index: int) -> int
    decreases lines.len() - index,
{
    if 0 <= index < lines.len() && (grammar::indented_code_body(lines[index]) is Some
        || text::blank(lines[index])) {
        indented_end_from(lines, index + 1)
    } else {
        index
    }
}

/// A line of indented code without its indentation. A blank line that is not
/// indented far enough becomes empty.
pub open spec fn code_line(line: Seq<char>) -> Seq<char> {
    match grammar::indented_code_body(line) {
        Some(body) => body,
        None => Seq::empty(),
    }
}

/// The lines without the indentation of code.
pub open spec fn code_lines(lines: Lines) -> Lines {
    Seq::new(lines.len(), |i: int| code_line(lines[i]))
}

/// The indented code block that starts at `start`.
#[verifier::opaque]
pub open spec fn indented_block(lines: Lines, start: int) -> (BlockView, int) {
    let end = indented_end_from(lines, start + 1);
    (
        literal_leaf(
            BlockKind::CodeBlock { language: None },
            text::joined(code_lines(lines.subrange(start, end))),
        ),
        end,
    )
}

/// The closed HTML comment that starts at `start`.
#[verifier::opaque]
pub open spec fn comment_block(lines: Lines, start: int) -> Option<(BlockView, int)> {
    match regions::closed_comment_end(lines, start) {
        Some(end) => Some((literal_leaf(BlockKind::Comment, source(lines, start, end)), end)),
        None => None,
    }
}

/// The paragraph that starts at `start`.
pub open spec fn paragraph_block(lines: Lines, start: int) -> (BlockView, int) {
    let end = regions::paragraph_end(lines, start);
    (native_leaf(BlockKind::Paragraph, source(lines, start, end)), end)
}

/// Whether `lines[start]` is an image that the next line lets stand alone.
#[verifier::opaque]
pub open spec fn image_child_start(lines: Lines, start: int) -> bool {
    &&& markup::standalone_image(lines[start]) is Some
    &&& {
        ||| start + 1 >= lines.len()
        ||| text::blank(lines[start + 1])
        ||| grammar::list_marker(lines[start + 1]) is Some
        ||| grammar::quote_start(lines[start + 1])
        ||| grammar::opening_fence(lines[start + 1]) is Some
        ||| grammar::indented_code_body(lines[start + 1]) is Some
        ||| markup::html_block_start(lines[start + 1]) is Some
        ||| markup::footnote_definition_start(lines[start + 1])
        ||| markup::reference_definition_start(lines[start + 1])
        ||| table_syntax::table_candidate(lines[start + 1])
        ||| markup::display_math_start(lines[start + 1])
    }
}

// ---------------------------------------------------------------------------
// Rewritten lines
// ---------------------------------------------------------------------------

/// The lines without `columns` columns of indentation.
pub open spec fn dedent_all(lines: Lines, columns: nat) -> Lines {
    Seq::new(lines.len(), |i: int| grammar::dedented(lines[i], columns))
}

/// The lines without one level of quoting.
pub open spec fn unquote_all(lines: Lines) -> Lines {
    Seq::new(lines.len(), |i: int| grammar::unquoted(lines[i])->0)
}

/// The body of the footnote that the lines define: the text behind the label
/// and the other lines without four columns of indentation.
pub open spec fn footnote_body(lines: Lines, first: Seq<char>) -> Lines {
    let rest = dedent_all(lines.skip(1), 4);
    if first.len() == 0 {
        rest
    } else {
        seq![first] + rest
    }
}

/// How many characters the lines hold in all.
pub open spec fn total(lines: Lines) -> nat
    decreases lines.len(),
{
    if lines.len() == 0 {
        0
    } else {
        total(lines.drop_last()) + lines.last().len()
    }
}

/// The size of a single line.
pub proof fn lemma_total_of_one(line: Seq<char>)
    ensures
        total(seq![line]) == line.len(),
{
    assert(seq![line].drop_last() =~= Seq::empty());
    assert(total(Seq::empty()) == 0);
}

/// The size of lines behind one another.
pub proof fn lemma_total_concat(a: Lines, b: Lines)
    ensures
        total(a + b) == total(a) + total(b),
    decreases b.len(),
{
    if b.len() == 0 {
        assert(a + b =~= a);
    } else {
        assert((a + b).drop_last() =~= a + b.drop_last());
        lemma_total_concat(a, b.drop_last());
    }
}

/// Some of the lines are no larger than all of them.
pub proof fn lemma_total_subrange(lines: Lines, from: int, to: int)
    requires
        0 <= from <= to <= lines.len(),
    ensures
        total(lines.subrange(from, to)) <= total(lines),
        from > 0 ==> total(lines.subrange(from, to)) + lines[from - 1].len() <= total(lines),
{
    let head = lines.subrange(0, from);
    let middle = lines.subrange(from, to);
    let tail = lines.subrange(to, lines.len() as int);
    assert(lines =~= (head + middle) + tail);
    lemma_total_concat(head + middle, tail);
    lemma_total_concat(head, middle);
}

/// Lines that are no larger one by one are no larger together.
pub proof fn lemma_total_pointwise(a: Lines, b: Lines)
    requires
        a.len() == b.len(),
        forall|i: int| 0 <= i < a.len() ==> (#[trigger] a[i]).len() <= b[i].len(),
    ensures
        total(a) <= total(b),
        a.len() > 0 && a[0].len() < b[0].len() ==> total(a) < total(b),
    decreases a.len(),
{
    if a.len() > 0 {
        let x = a.drop_last();
        let y = b.drop_last();
        assert forall|i: int| 0 <= i < x.len() implies (#[trigger] x[i]).len() <= y[i].len() by {
            assert(x[i] == a[i]);
        }
        assert(a[a.len() - 1].len() <= b[a.len() - 1].len());
        lemma_total_pointwise(x, y);
    }
}

/// A line gets shorter when columns of indentation are taken away.
pub proof fn lemma_strip_columns_shrinks(line: Seq<char>, columns: nat, k: int)
    ensures
        grammar::strip_columns_from(line, columns, k) matches Some(rest) ==> rest.len() < line.len(),
    decreases line.len() - k,
{
    if 0 <= k < line.len() && (line[k] == ' ' || line[k] == '\t') {
        lemma_strip_columns_shrinks(line, columns, k + 1);
    }
}

/// Lines do not grow when indentation is taken away.
pub proof fn lemma_dedent_shrinks(lines: Lines, columns: nat)
    ensures
        total(dedent_all(lines, columns)) <= total(lines),
{
    assert forall|i: int| 0 <= i < lines.len() implies (#[trigger] dedent_all(
        lines,
        columns,
    )[i]).len() <= lines[i].len() by {
        lemma_strip_columns_shrinks(lines[i], columns, 0);
    }
    lemma_total_pointwise(dedent_all(lines, columns), lines);
}

/// A quoted line can be unquoted, and is shorter then.
pub proof fn lemma_unquote_shrinks(line: Seq<char>)
    requires
        grammar::quote_start(line),
    ensures
        grammar::unquoted(line) is Some,
        grammar::unquoted(line)->0.len() < line.len(),
{
    reveal(grammar::quote_start);
    reveal(grammar::unquoted);
    let cut = text::trimmed_end(line);
    text::lemma_trimmed_end_shape(line);
    text::lemma_run_len_bound(cut, ' ');
    let run = text::run_len(cut, ' ');
    assert(cut[run as int] == line[run as int]);
    assert(cut.skip(run as int)[0] == cut[run as int]);
    assert forall|i: int| 0 <= i < run implies line[i] == ' ' by {
        assert(cut[i] == line[i]);
    }
    text::lemma_run_len_is(line, ' ', run);
    assert(line.skip(run as int)[0] == line[run as int]);
}

/// The lines of a quote are shorter without one level of quoting.
pub proof fn lemma_unquote_all_shrinks(lines: Lines)
    requires
        lines.len() > 0,
        forall|i: int| 0 <= i < lines.len() ==> grammar::quote_start(#[trigger] lines[i]),
    ensures
        total(unquote_all(lines)) < total(lines),
{
    assert forall|i: int| 0 <= i < lines.len() implies (#[trigger] unquote_all(lines)[i]).len()
        <= lines[i].len() by {
        lemma_unquote_shrinks(lines[i]);
    }
    lemma_unquote_shrinks(lines[0]);
    lemma_total_pointwise(unquote_all(lines), lines);
}

/// The body of a footnote is shorter than its definition.
pub proof fn lemma_footnote_body_shrinks(lines: Lines)
    requires
        lines.len() > 0,
    ensures
        markup::footnote_head(lines[0]) matches Some(head) ==> total(footnote_body(lines, head.1))
            < total(lines),
{
    if let Some(head) = markup::footnote_head(lines[0]) {
        markup::lemma_footnote_head_shrinks(lines[0]);
        let rest = lines.skip(1);
        lemma_dedent_shrinks(rest, 4);
        assert(lines =~= seq![lines[0]] + rest);
        lemma_total_concat(seq![lines[0]], rest);
        lemma_total_concat(seq![head.1], dedent_all(rest, 4));
        lemma_total_of_one(lines[0]);
        lemma_total_of_one(head.1);
    }
}

/// A line with a list marker is not empty.
pub proof fn lemma_marker_line_is_not_empty(line: Seq<char>)
    requires
        grammar::list_marker(line) is Some,
    ensures
        line.len() > 0,
{
    reveal(grammar::list_marker);
    grammar::lemma_indent_len_bound(line);
    if line.len() == 0 {
        assert(line.skip(0).len() == 0);
    }
}

/// A quote ends inside the text, and all its lines have a quote marker.
pub proof fn lemma_quote_region(lines: Lines, start: int)
    requires
        0 <= start <= lines.len(),
    ensures
        start <= regions::quote_region_end(lines, start) <= lines.len(),
        forall|k: int|
            start <= k < regions::quote_region_end(lines, start) ==> grammar::quote_start(
                #[trigger] lines[k],
            ),
    decreases lines.len() - start,
{
    reveal(regions::quote_region_end);
    if start < lines.len() && !text::blank(lines[start]) && grammar::quote_start(lines[start]) {
        lemma_quote_region(lines, start + 1);
    }
}

/// A list item ends inside the text, behind all lines that were read but the blank
/// ones at the end.
pub proof fn lemma_item_end(lines: Lines, index: int, pending: int, columns: nat)
    requires
        0 <= index <= lines.len(),
        0 <= pending <= index,
    ensures
        index - pending <= regions::item_end_from(lines, index, pending, columns) <= lines.len(),
    decreases lines.len() - index,
{
    if index < lines.len() {
        if text::blank(lines[index]) {
            lemma_item_end(lines, index + 1, pending + 1, columns);
        } else {
            lemma_item_end(lines, index + 1, 0, columns);
        }
    }
}

/// A footnote definition ends inside the text.
pub proof fn lemma_footnote_end(lines: Lines, index: int)
    requires
        0 <= index <= lines.len(),
    ensures
        index <= regions::footnote_end_from(lines, index) <= lines.len(),
    decreases lines.len() - index,
{
    if index < lines.len() {
        lemma_footnote_end(lines, index + 1);
    }
}

/// Skipping blank lines never goes back, leaves a blank line behind, and stays
/// inside the text.
pub proof fn lemma_skip_blank(lines: Lines, index: int)
    requires
        0 <= index <= lines.len(),
    ensures
        index <= regions::skip_blank(lines, index) <= lines.len(),
        index < lines.len() && text::blank(lines[index]) ==> index < regions::skip_blank(
            lines,
            index,
        ),
    decreases lines.len() - index,
{
    if index < lines.len() && text::blank(lines[index]) {
        lemma_skip_blank(lines, index + 1);
    }
}

/// The first place of a text stays the first when characters are added at the
/// end.
pub proof fn lemma_find_in_longer(short: Seq<char>, long: Seq<char>, needle: Seq<char>, from: int)
    requires
        0 <= from,
        short.len() <= long.len(),
        forall|i: int| 0 <= i < short.len() ==> short[i] == long[i],
        text::find_at(short, needle, from) is Some,
    ensures
        text::find_at(long, needle, from) == text::find_at(short, needle, from),
    decreases short.len() + 1 - from,
{
    let a = short.subrange(from, from + needle.len());
    let b = long.subrange(from, from + needle.len());
    if from + needle.len() <= short.len() {
        assert(a =~= b);
        if !text::occurs_at(short, needle, from) {
            lemma_find_in_longer(short, long, needle, from + 1);
        }
    }
}

// ---------------------------------------------------------------------------
// Documents
// ---------------------------------------------------------------------------

/// The blocks that the lines stand for. `native_footnotes` says whether footnote
/// definitions become blocks of their own; `semantic` holds the HTML sources
/// known to be semantic.
pub open spec fn blocks_of(lines: Lines, native_footnotes: bool, semantic: Lines) -> Blocks
    decreases total(lines), 5int, 0int,
{
    roots_from(lines, native_footnotes, semantic, 0, false, false)
}

/// The blocks of the lines from `index` on. `any` says whether a block came
/// before, and `after_list` whether the last one was a list item.
pub open spec fn roots_from(
    lines: Lines,
    native_footnotes: bool,
    semantic: Lines,
    index: int,
    any: bool,
    after_list: bool,
) -> Blocks
    decreases total(lines), 4int, lines.len() - index,
{
    if index < 0 || index >= lines.len() {
        Seq::empty()
    } else {
        let step = root_step(lines, native_footnotes, semantic, index, any, after_list);
        if index < step.1 <= lines.len() {
            step.0 + roots_from(
                lines,
                native_footnotes,
                semantic,
                step.1,
                any || step.0.len() > 0,
                if step.0.len() > 0 {
                    blocks::kind_is_list_item(step.0.last().kind)
                } else {
                    after_list
                },
            )
        } else {
            step.0
        }
    }
}

/// How many empty paragraphs a run of blank lines stands for: all of them at
/// the start of a document and between two list items, one fewer elsewhere.
pub open spec fn preserved_blanks(
    lines: Lines,
    index: int,
    end: int,
    any: bool,
    after_list: bool,
) -> nat {
    if !any || (after_list && end < lines.len() && grammar::list_marker(lines[end]) is Some) {
        (end - index) as nat
    } else {
        (end - index - 1) as nat
    }
}

/// The blocks that start at `index`, and the index of the line after them.
pub open spec fn root_step(
    lines: Lines,
    native_footnotes: bool,
    semantic: Lines,
    index: int,
    any: bool,
    after_list: bool,
) -> (Blocks, int)
    decreases total(lines), 3int, 0int,
{
    let line = lines[index];
    if index < 0 || index >= lines.len() {
        (Seq::empty(), index)
    } else if text::blank(line) {
        let end = regions::skip_blank(lines, index);
        (empty_paragraphs(preserved_blanks(lines, index, end, any, after_list)), end)
    } else if grammar::opening_fence(line) is Some {
        match fenced_block(lines, index) {
            Some(block) => (seq![block.0], block.1),
            None => (seq![paragraph_block(lines, index).0], paragraph_block(lines, index).1),
        }
    } else if comment_block(lines, index) is Some {
        (seq![(comment_block(lines, index)->0).0], (comment_block(lines, index)->0).1)
    } else if markup::html_block_start(line) is Some {
        let end = regions::html_region_end(lines, index);
        (seq![html_leaf(source(lines, index, end), semantic)], end)
    } else if markup::footnote_definition_start(line) {
        let end = regions::footnote_end_from(lines, index + 1);
        if native_footnotes {
            proof {
                lemma_footnote_end(lines, index + 1);
                lemma_total_subrange(lines, index, end);
            }
            (seq![footnote_block(lines.subrange(index, end), semantic)], end)
        } else {
            (seq![raw_leaf(source(lines, index, end))], end)
        }
    } else if markup::reference_definition_start(line) {
        let end = regions::reference_end_from(lines, index + 1);
        (seq![raw_leaf(source(lines, index, end))], end)
    } else if regions::setext_below(lines, index) is Some {
        (
            seq![
                native_leaf(
                    BlockKind::Heading { level: regions::setext_below(lines, index)->0 },
                    text::trimmed_end(line),
                ),
            ],
            index + 2,
        )
    } else if markup::standalone_image(line) is Some {
        (seq![image_leaf(line)], index + 1)
    } else if grammar::indented_code_body(line) is Some {
        (seq![indented_block(lines, index).0], indented_block(lines, index).1)
    } else if grammar::list_marker(line) is Some {
        list_blocks(lines, semantic, index)
    } else if grammar::quote_start(line) {
        (seq![quote_block(lines, semantic, index).0], quote_block(lines, semantic, index).1)
    } else if grammar::atx_heading(line) is Some {
        let heading = grammar::atx_heading(line)->0;
        (seq![native_leaf(BlockKind::Heading { level: heading.0 }, heading.1)], index + 1)
    } else if grammar::separator_line(line) {
        (seq![literal_leaf(BlockKind::Separator, Seq::empty())], index + 1)
    } else if table_syntax::table_candidate(line) {
        let end = table_syntax::table_region_end(lines, index);
        match table_syntax::parsed_table(lines.subrange(index, end)) {
            Some(table) => (seq![table_leaf(table)], end),
            None => (plain_paragraphs(lines.subrange(index, end)), end),
        }
    } else if pipeless_table(lines, index) is Some {
        (seq![table_leaf((pipeless_table(lines, index)->0).0)], (pipeless_table(lines, index)->0).1)
    } else if markup::display_math_start(line) {
        let end = regions::math_region_end(lines, index);
        (seq![math_leaf(source(lines, index, end))], end)
    } else {
        (seq![paragraph_block(lines, index).0], paragraph_block(lines, index).1)
    }
}

/// Each line as a paragraph of literal text.
pub open spec fn plain_paragraphs(lines: Lines) -> Blocks {
    Seq::new(lines.len(), |i: int| literal_leaf(BlockKind::Paragraph, lines[i]))
}

/// The table that starts at `index` with a row that no pipe opens.
#[verifier::opaque]
pub open spec fn pipeless_table(lines: Lines, index: int) -> Option<(blocks::TableView, int)> {
    match table_syntax::pipeless_region_end(lines, index) {
        Some(end) => match table_syntax::parsed_table(lines.subrange(index, end)) {
            Some(table) => Some((table, end)),
            None => None,
        },
        None => None,
    }
}

/// The block of the footnote that the lines define.
pub open spec fn footnote_block(lines: Lines, semantic: Lines) -> BlockView
    decreases total(lines), 1int, 0int,
{
    match markup::footnote_head(lines[0]) {
        Some(head) => BlockView {
            kind: BlockKind::FootnoteDefinition,
            title: blocks::plain_title(head.0),
            table: None,
            children: if lines.len() > 0 {
                proof {
                    lemma_footnote_body_shrinks(lines);
                }
                blocks_of(footnote_body(lines, head.1), false, semantic)
            } else {
                Seq::empty()
            },
        },
        None => raw_leaf(text::joined(lines)),
    }
}

// ---------------------------------------------------------------------------
// Lists
// ---------------------------------------------------------------------------

/// The list items from `index` on, and the index of the line after them.
pub open spec fn list_blocks(lines: Lines, semantic: Lines, index: int) -> (Blocks, int)
    decreases total(lines), 2int, lines.len() - index,
{
    if index < 0 || index >= lines.len() || grammar::list_marker(lines[index]) is None {
        (Seq::empty(), index)
    } else {
        let end = regions::item_end_from(
            lines,
            index + 1,
            0,
            (grammar::list_marker(lines[index])->0).indent_columns,
        );
        proof {
            lemma_item_end(
                lines,
                index + 1,
                0,
                (grammar::list_marker(lines[index])->0).indent_columns,
            );
        }
        let rest = list_blocks(lines, semantic, end);
        (seq![list_item(lines, semantic, index)] + rest.0, rest.1)
    }
}

/// The list item that starts at `index`. One that holds a quote that cannot be
/// a block becomes raw Markdown.
pub open spec fn list_item(lines: Lines, semantic: Lines, index: int) -> BlockView
    decreases total(lines), 1int, 0int,
{
    let marker = grammar::list_marker(lines[index])->0;
    let end = regions::item_end_from(lines, index + 1, 0, marker.indent_columns);
    if index < 0 || index >= lines.len() || grammar::list_marker(lines[index]) is None {
        arbitrary()
    } else {
        proof {
            lemma_item_end(lines, index + 1, 0, marker.indent_columns);
            lemma_total_subrange(lines, index + 1, end);
            lemma_marker_line_is_not_empty(lines[index]);
        }
        let body = item_body(
            lines.subrange(index + 1, end),
            semantic,
            marker.indent_columns,
            marker.content_indent_columns,
            0,
            false,
            false,
            blocks::markdown_title(marker.text),
            Seq::empty(),
        );
        match body {
            Some(content) => BlockView {
                kind: marker.kind,
                title: content.0,
                table: None,
                children: content.1,
            },
            None => raw_leaf(source(lines, index, end)),
        }
    }
}

/// What a line in the body of a list item stands for.
pub enum ItemStep {
    /// Blocks under the item, and how many lines they take up.
    Children(Blocks, int),
    /// A quote that cannot be a block.
    Unsupported,
    /// More text for the item's title.
    Text,
}

/// The title and the children of a list item whose body lines are `body`, read
/// from `index` on. `gap` says whether blank lines came just before, `nested`
/// whether a child did already.
pub open spec fn item_body(
    body: Lines,
    semantic: Lines,
    columns: nat,
    content_columns: nat,
    index: int,
    gap: bool,
    nested: bool,
    title: Title,
    children: Blocks,
) -> Option<(Title, Blocks)>
    decreases total(body), 6int, body.len() - index,
{
    if index < 0 || index >= body.len() {
        Some((title, children))
    } else if text::blank(body[index]) {
        item_body(
            body,
            semantic,
            columns,
            content_columns,
            index + 1,
            true,
            nested,
            title,
            children,
        )
    } else {
        match item_step(body, semantic, columns, content_columns, index, gap || nested, title) {
            ItemStep::Children(blocks, lines) => if 0 < lines <= body.len() - index {
                item_body(
                    body,
                    semantic,
                    columns,
                    content_columns,
                    index + lines,
                    false,
                    true,
                    title,
                    children + blocks,
                )
            } else {
                None
            },
            ItemStep::Unsupported => None,
            ItemStep::Text => item_body(
                body,
                semantic,
                columns,
                content_columns,
                index + 1,
                false,
                nested,
                title + continuation(body[index], gap),
                children,
            ),
        }
    }
}

/// The pieces that a further line of text adds to a title.
pub open spec fn continuation(line: Seq<char>, gap: bool) -> Title {
    seq![
        InlineFragment {
            markdown: false,
            text: if gap {
                "\n\n"@
            } else {
                "\n"@
            },
        },
        InlineFragment { markdown: true, text: line.skip(grammar::indent_len(line) as int) },
    ]
}

/// Whether plain text under a list item becomes a paragraph of its own.
pub open spec fn promotes_text(separated: bool, title: Title) -> bool {
    ||| separated
    ||| blocks::title_text(title).len() == 0
    ||| markup::standalone_image(blocks::title_text(title)) is Some
}

/// What `body[index]` stands for in a list item. `separated` says whether blank
/// lines or a child came before.
pub open spec fn item_step(
    body: Lines,
    semantic: Lines,
    columns: nat,
    content_columns: nat,
    index: int,
    separated: bool,
    title: Title,
) -> ItemStep
    decreases total(body), 5int, 0int,
{
    let indent = grammar::indent_columns(body[index]);
    let rest = body.subrange(index, body.len() as int);
    let anchored = dedent_all(rest, indent);
    if index < 0 || index >= body.len() || indent <= columns {
        ItemStep::Text
    } else if grammar::list_marker(anchored[0]) is Some {
        proof {
            lemma_total_subrange(body, index, body.len() as int);
            lemma_dedent_shrinks(rest, indent);
        }
        let list = list_blocks(anchored, semantic, 0);
        ItemStep::Children(list.0, list.1)
    } else if grammar::quote_start(anchored[0]) {
        proof {
            lemma_total_subrange(body, index, body.len() as int);
            lemma_dedent_shrinks(rest, indent);
        }
        let quote = quote_block(anchored, semantic, 0);
        if quote.0.kind is RawMarkdown {
            ItemStep::Unsupported
        } else {
            ItemStep::Children(seq![quote.0], quote.1)
        }
    } else {
        leaf_item_step(
            anchored,
            dedent_all(rest, content_columns),
            semantic,
            indent >= content_columns,
            promotes_text(separated, title),
        )
    }
}

/// What the first of the lines stands for in a list item, lists and quotes
/// aside. `content` holds the lines dedented to the item's content, which count
/// if `in_content`; `promote` says whether plain text becomes a paragraph.
#[verifier::opaque]
pub open spec fn leaf_item_step(
    lines: Lines,
    content: Lines,
    semantic: Lines,
    in_content: bool,
    promote: bool,
) -> ItemStep {
    let line = lines[0];
    if fenced_block(lines, 0) is Some {
        ItemStep::Children(seq![(fenced_block(lines, 0)->0).0], (fenced_block(lines, 0)->0).1)
    } else if table_syntax::table_candidate(line) {
        let end = table_syntax::table_region_end(lines, 0);
        ItemStep::Children(seq![table_or_raw(lines, 0, end)], end)
    } else if image_child_start(lines, 0) {
        ItemStep::Children(seq![image_leaf(line)], 1)
    } else if in_content && grammar::indented_code_body(content[0]) is Some {
        ItemStep::Children(seq![indented_block(content, 0).0], indented_block(content, 0).1)
    } else if markup::reference_definition_start(line) {
        let end = regions::reference_end_from(lines, 1);
        ItemStep::Children(seq![raw_leaf(source(lines, 0, end))], end)
    } else if comment_block(lines, 0) is Some {
        ItemStep::Children(seq![(comment_block(lines, 0)->0).0], (comment_block(lines, 0)->0).1)
    } else if markup::html_block_start(line) is Some {
        let end = regions::html_region_end(lines, 0);
        ItemStep::Children(seq![html_leaf(source(lines, 0, end), semantic)], end)
    } else if markup::footnote_definition_start(line) {
        let end = regions::footnote_end_from(lines, 1);
        ItemStep::Children(seq![raw_leaf(source(lines, 0, end))], end)
    } else if markup::display_math_start(line) {
        let end = regions::math_region_end(lines, 0);
        ItemStep::Children(seq![math_leaf(source(lines, 0, end))], end)
    } else if promote {
        ItemStep::Children(seq![paragraph_block(lines, 0).0], paragraph_block(lines, 0).1)
    } else {
        ItemStep::Text
    }
}

// ---------------------------------------------------------------------------
// Quotes and callouts
// ---------------------------------------------------------------------------

/// The quote that starts at `start`, and the index of the line after it. One
/// that cannot be a block becomes raw Markdown.
pub open spec fn quote_block(lines: Lines, semantic: Lines, start: int) -> (BlockView, int)
    decreases total(lines), 1int, 0int,
{
    let end = regions::quote_region_end(lines, start);
    if start < 0 || end <= start || start >= lines.len() {
        (raw_leaf(Seq::empty()), end)
    } else {
        proof {
            lemma_quote_region(lines, start);
            lemma_total_subrange(lines, start, end);
            lemma_unquote_all_shrinks(lines.subrange(start, end));
        }
        match native_quote(unquote_all(lines.subrange(start, end)), semantic) {
            Some(block) => (block, end),
            None => (raw_leaf(source(lines, start, end)), end),
        }
    }
}

/// The quote or callout whose unquoted lines these are.
pub open spec fn native_quote(lines: Lines, semantic: Lines) -> Option<BlockView>
    decreases total(lines), 8int, 0int,
{
    let header = regions::skip_blank(lines, 0);
    if header < lines.len() && grammar::callout_header(lines[header]) is Some {
        let head = grammar::callout_header(lines[header])->0;
        proof {
            lemma_skip_blank(lines, 0);
            lemma_total_subrange(lines, header + 1, lines.len() as int);
        }
        native_callout(
            lines.subrange(header + 1, lines.len() as int),
            semantic,
            head.0,
            head.1,
        )
    } else {
        match quote_body(lines, semantic, 0, 0, false, Seq::empty(), Seq::empty()) {
            Some(content) => Some(
                BlockView {
                    kind: BlockKind::Quote,
                    title: blocks::markdown_title(content.0),
                    table: None,
                    children: content.1,
                },
            ),
            None => None,
        }
    }
}

/// The callout whose unquoted body lines these are.
pub open spec fn native_callout(
    lines: Lines,
    semantic: Lines,
    variant: CalloutVariant,
    title: Seq<char>,
) -> Option<BlockView>
    decreases total(lines), 7int, 0int,
{
    match callout_body(lines, semantic, 0, 0, Seq::empty()) {
        Some(children) => Some(
            BlockView {
                kind: BlockKind::Callout(variant),
                title: blocks::markdown_title(title),
                table: None,
                children,
            },
        ),
        None => None,
    }
}

/// What a line in a quote stands for.
pub enum QuoteStep {
    /// Blocks under the quote, and the index of the line after them.
    Children(Blocks, int),
    /// A list or quote that cannot be blocks.
    Unsupported,
    /// A paragraph that ends before this index.
    Paragraph(int),
}

/// Whether one of the blocks is raw Markdown.
pub open spec fn any_raw(items: Blocks) -> bool {
    exists|i: int| 0 <= i < items.len() && (#[trigger] items[i]).kind is RawMarkdown
}

/// What `lines[index]` stands for in a quote or a callout.
pub open spec fn quote_step(lines: Lines, semantic: Lines, index: int) -> QuoteStep
    decreases total(lines), 5int, 0int,
{
    let line = lines[index];
    if index < 0 || index >= lines.len() {
        QuoteStep::Unsupported
    } else if table_syntax::table_candidate(line) {
        let end = table_syntax::table_region_end(lines, index);
        QuoteStep::Children(seq![table_or_raw(lines, index, end)], end)
    } else if markup::footnote_definition_start(line) {
        let end = regions::footnote_end_from(lines, index + 1);
        proof {
            lemma_footnote_end(lines, index + 1);
            lemma_total_subrange(lines, index, end);
        }
        QuoteStep::Children(seq![footnote_block(lines.subrange(index, end), semantic)], end)
    } else if comment_block(lines, index) is Some {
        QuoteStep::Children(
            seq![(comment_block(lines, index)->0).0],
            (comment_block(lines, index)->0).1,
        )
    } else if markup::html_block_start(line) is Some {
        let end = regions::html_region_end(lines, index);
        QuoteStep::Children(seq![html_leaf(source(lines, index, end), semantic)], end)
    } else if markup::display_math_start(line) {
        let end = regions::math_region_end(lines, index);
        QuoteStep::Children(seq![math_leaf(source(lines, index, end))], end)
    } else if regions::unsupported_quote_end(lines, index) is Some {
        let end = regions::unsupported_quote_end(lines, index)->0;
        QuoteStep::Children(seq![raw_leaf(source(lines, index, end))], end)
    } else if grammar::quote_start(line) {
        let quote = quote_block(lines, semantic, index);
        if quote.0.kind is RawMarkdown {
            QuoteStep::Unsupported
        } else {
            QuoteStep::Children(seq![quote.0], quote.1)
        }
    } else if grammar::list_marker(line) is Some {
        let list = list_blocks(lines, semantic, index);
        if any_raw(list.0) {
            QuoteStep::Unsupported
        } else {
            QuoteStep::Children(list.0, list.1)
        }
    } else if fenced_block(lines, index) is Some {
        QuoteStep::Children(
            seq![(fenced_block(lines, index)->0).0],
            (fenced_block(lines, index)->0).1,
        )
    } else if image_child_start(lines, index) {
        QuoteStep::Children(seq![image_leaf(line)], index + 1)
    } else if grammar::indented_code_body(line) is Some {
        QuoteStep::Children(seq![indented_block(lines, index).0], indented_block(lines, index).1)
    } else {
        QuoteStep::Paragraph(quote_paragraph_end(lines, index + 1))
    }
}

/// Where a paragraph in a quote that goes through `index` ends.
pub open spec fn quote_paragraph_end(lines: Lines, index: int) -> int
    decreases lines.len() - index,
{
    if 0 <= index < lines.len() && !text::blank(lines[index]) && !grammar::quote_start(lines[index])
        && grammar::list_marker(lines[index]) is None && grammar::opening_fence(lines[index])
        is None && grammar::indented_code_body(lines[index]) is None
        && !regions::quote_content_unsupported(lines, index) {
        quote_paragraph_end(lines, index + 1)
    } else {
        index
    }
}

/// The empty paragraphs for `pending` blank lines in a quote: none before
/// anything else stands in it.
pub open spec fn quote_separators(pending: nat, title: Seq<char>, children: Blocks) -> Blocks {
    if title.len() > 0 || children.len() > 0 {
        empty_paragraphs(pending)
    } else {
        Seq::empty()
    }
}

/// The title source of a quote with a further paragraph.
pub open spec fn extended_title(title: Seq<char>, pending: nat, paragraph: Seq<char>) -> Seq<char> {
    if title.len() == 0 {
        paragraph
    } else if pending > 0 {
        title + "\n\n"@ + paragraph
    } else {
        title + "\n"@ + paragraph
    }
}

/// The title source and the children of a quote, read from `index` on.
/// `pending` blank lines came just before; `nested` says whether a child came
/// already.
pub open spec fn quote_body(
    lines: Lines,
    semantic: Lines,
    index: int,
    pending: nat,
    nested: bool,
    title: Seq<char>,
    children: Blocks,
) -> Option<(Seq<char>, Blocks)>
    decreases total(lines), 6int, lines.len() - index,
{
    if index < 0 || index >= lines.len() {
        Some((title, children + quote_separators(pending, title, children)))
    } else if text::blank(lines[index]) {
        quote_body(lines, semantic, index + 1, pending + 1, nested, title, children)
    } else {
        let separated = children + quote_separators(pending, title, children);
        match quote_step(lines, semantic, index) {
            QuoteStep::Unsupported => None,
            QuoteStep::Children(blocks, end) => if index < end <= lines.len() {
                quote_body(lines, semantic, end, 0, true, title, separated + blocks)
            } else {
                None
            },
            QuoteStep::Paragraph(end) => if end <= index || end > lines.len() {
                None
            } else if end == index + 1 && markup::standalone_image(lines[index]) is Some {
                quote_body(
                    lines,
                    semantic,
                    end,
                    0,
                    true,
                    title,
                    separated.push(image_leaf(source(lines, index, end))),
                )
            } else if nested {
                quote_body(
                    lines,
                    semantic,
                    end,
                    0,
                    true,
                    title,
                    separated.push(native_leaf(BlockKind::Paragraph, source(lines, index, end))),
                )
            } else {
                quote_body(
                    lines,
                    semantic,
                    end,
                    0,
                    false,
                    extended_title(title, pending, source(lines, index, end)),
                    children,
                )
            },
        }
    }
}

/// The children of a callout, read from `index` on, `pending` blank lines having
/// come just before.
pub open spec fn callout_body(
    lines: Lines,
    semantic: Lines,
    index: int,
    pending: nat,
    children: Blocks,
) -> Option<Blocks>
    decreases total(lines), 6int, lines.len() - index,
{
    if index < 0 || index >= lines.len() {
        Some(children + empty_paragraphs(pending))
    } else if text::blank(lines[index]) {
        callout_body(lines, semantic, index + 1, pending + 1, children)
    } else {
        let separated = children + empty_paragraphs(pending);
        match quote_step(lines, semantic, index) {
            QuoteStep::Unsupported => None,
            QuoteStep::Children(blocks, end) => if index < end <= lines.len() {
                callout_body(lines, semantic, end, 0, separated + blocks)
            } else {
                None
            },
            QuoteStep::Paragraph(end) => if index < end <= lines.len() {
                callout_body(
                    lines,
                    semantic,
                    end,
                    0,
                    separated.push(native_leaf(BlockKind::Paragraph, source(lines, index, end))),
                )
            } else {
                None
            },
        }
    }
}

} // verus!
