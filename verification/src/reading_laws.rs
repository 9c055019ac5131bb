//! What Markdown lines are read as, line by line as they are written.

use crate::blocks;
use crate::blocks::{BlockKind, BlockView, CalloutVariant, InlineFragment};
use crate::editor::{EditorView, ViewMode};
use crate::grammar;
use crate::import_model;
use crate::kinds;
use crate::markup;
use crate::regions;
use crate::regions::Lines;
use crate::restore;
use crate::table_syntax;
use crate::text;
use vstd::prelude::*;

verus! {

// ---------------------------------------------------------------------------
// How a line starts
// ---------------------------------------------------------------------------

/// A text of `n` times the same character.
pub open spec fn run_of(c: char, n: nat) -> Seq<char> {
    Seq::new(n, |i: int| c)
}

/// Whether a text is not empty and has no white space at either end.
pub open spec fn trimmed_text(s: Seq<char>) -> bool {
    s.len() > 0 && !text::is_space(s[0]) && !text::is_space(s[s.len() - 1])
}

/// Whether a character is an ASCII letter.
pub open spec fn letter(c: char) -> bool {
    ('a' <= c <= 'z') || ('A' <= c <= 'Z')
}

/// Whether a text starts with an ASCII letter and has no white space at its end, so that
/// no marks stand at its start.
pub open spec fn plain_text(s: Seq<char>) -> bool {
    s.len() > 0 && letter(s[0]) && !text::is_space(s[s.len() - 1])
}

/// A block without a table and without blocks under it, whose title is this Markdown.
pub open spec fn block_of(kind: BlockKind<Seq<char>>, markdown: Seq<char>) -> BlockView {
    BlockView {
        kind,
        title: seq![InlineFragment { markdown: true, text: markdown }],
        table: None,
        children: Seq::empty(),
    }
}

/// A block without a table and without blocks under it, whose title is literal text.
pub open spec fn literal_block_of(kind: BlockKind<Seq<char>>, text: Seq<char>) -> BlockView {
    BlockView {
        kind,
        title: seq![InlineFragment { markdown: false, text }],
        table: None,
        children: Seq::empty(),
    }
}

/// A line that starts with no white space is not indented and not blank.
pub proof fn lemma_start(line: Seq<char>)
    requires
        line.len() > 0,
        !text::is_space(line[0]),
    ensures
        !text::blank(line),
        grammar::fence_body(line) == Some(line),
        text::trimmed_end(line).len() > 0,
        text::trimmed_end(line)[0] == line[0],
        grammar::fence_body(text::trimmed_end(line)) == Some(text::trimmed_end(line)),
        text::trimmed_start(line) == line,
        grammar::indent_len(line) == 0,
        grammar::indented_code_body(line) is None,
{
    text::lemma_trimmed_end_shape(line);
    let cut = text::trimmed_end(line);
    if cut.len() == 0 {
        assert(text::is_space(line[0]));
    }
    assert(cut[0] == line[0]);
    assert(line.skip(0) =~= line);
    assert(cut.skip(0) =~= cut);
    reveal_strlit("    ");
    assert("    "@[0] == ' ');
    assert(!"    "@.is_prefix_of(line));
}

/// The character at the start of a line decides what it cannot be.
pub proof fn lemma_not_started(line: Seq<char>)
    requires
        line.len() > 0,
        !text::is_space(line[0]),
    ensures
        line[0] != '`' && line[0] != '~' ==> grammar::opening_fence(line) is None,
        line[0] != '<' ==> markup::html_block_start(line) is None,
        line[0] != '[' ==> !markup::footnote_definition_start(line),
        line[0] != '[' ==> !markup::reference_definition_start(line),
        line[0] != '!' ==> markup::standalone_image(line) is None,
        line[0] != '-' && line[0] != '*' && line[0] != '+' && !('0' <= line[0] <= '9')
            ==> grammar::list_marker(line) is None,
        line[0] != '>' ==> !grammar::quote_start(line),
        line[0] != '#' ==> grammar::atx_heading(line) is None,
        line[0] != '-' && line[0] != '*' && line[0] != '_' ==> !grammar::separator_line(line),
        line[0] != '|' ==> !table_syntax::table_candidate(line),
        line[0] != '$' ==> !markup::display_math_start(line),
        line[0] != '[' ==> grammar::callout_header(line) is None,
        line[0] != '=' && line[0] != '-' ==> grammar::setext_underline(line) is None,
{
    lemma_start(line);
    let cut = text::trimmed_end(line);
    reveal(grammar::opening_fence);
    reveal(markup::html_block_start);
    reveal(markup::footnote_definition_start);
    reveal(markup::reference_definition_start);
    reveal(markup::standalone_image);
    reveal(grammar::list_marker);
    reveal(grammar::quote_start);
    reveal(grammar::atx_heading);
    reveal(grammar::separator_line);
    reveal(table_syntax::table_candidate);
    reveal(markup::display_math_start);
    reveal(grammar::callout_header);
    reveal(grammar::setext_underline);
    reveal_strlit("<!--");
    reveal_strlit("[^");
    reveal_strlit("![");
    reveal_strlit("$$");
    reveal_strlit("[!");
    assert("<!--"@[0] == '<');
    assert("[^"@[0] == '[');
    assert("!["@[0] == '!');
    assert("$$"@[0] == '$');
    assert("[!"@[0] == '[');
    assert(line.skip(0) =~= line);
    assert(text::trimmed(line) == cut);
}

/// A line that starts no HTML starts no comment.
pub proof fn lemma_no_comment(lines: Lines, index: int)
    requires
        markup::html_block_start(lines[index]) is None,
    ensures
        import_model::comment_block(lines, index) is None,
{
    reveal(import_model::comment_block);
    reveal(regions::closed_comment_end);
}

/// A document that one step reads whole is that one block.
pub proof fn lemma_one_block(lines: Lines, native: bool, semantic: Lines, block: BlockView)
    requires
        lines.len() > 0,
        ({
            let step = import_model::root_step(lines, native, semantic, 0, false, false);
            step.0 == seq![block] && step.1 == lines.len()
        }),
    ensures
        import_model::blocks_of(lines, native, semantic) == seq![block],
{
    let step = import_model::root_step(lines, native, semantic, 0, false, false);
    assert(import_model::roots_from(lines, native, semantic, lines.len() as int, true,
        blocks::kind_is_list_item(step.0.last().kind)) =~= Seq::empty());
    assert(import_model::blocks_of(lines, native, semantic) =~= seq![block]);
}

proof fn lemma_single_line(line: Seq<char>)
    requires
        forall|k: int| 0 <= k < line.len() ==> line[k] != '\n',
    ensures
        text::lines_of(line) == seq![line],
    decreases line.len(),
{
    if line.len() > 0 {
        let shorter = line.drop_last();
        assert forall|k: int| 0 <= k < shorter.len() implies shorter[k] != '\n' by {
            assert(shorter[k] == line[k]);
        }
        lemma_single_line(shorter);
        assert(line[line.len() - 1] != '\n');
        assert(shorter.push(line.last()) =~= line);
        assert(text::lines_of(line) =~= seq![line]);
    } else {
        assert(line =~= Seq::empty());
        assert(text::lines_of(line) =~= seq![line]);
    }
}

proof fn lemma_read(source: Seq<char>, semantic: Lines, block: BlockView)
    requires
        forall|k: int| 0 <= k < source.len() ==> source[k] != '\n',
        import_model::blocks_of(seq![source], true, semantic) == seq![block],
    ensures
        restore::root_blocks(source, semantic) == seq![block],
{
    lemma_single_line(source);
}

// ---------------------------------------------------------------------------
// Headings
// ---------------------------------------------------------------------------

/// A line of one to six `#`, a space and a text.
pub open spec fn heading_line(level: nat, title: Seq<char>) -> Seq<char> {
    run_of('#', level) + seq![' '] + title
}

proof fn lemma_heading_line(level: nat, title: Seq<char>)
    requires
        1 <= level <= 6,
        trimmed_text(title),
    ensures
        grammar::atx_heading(heading_line(level, title)) == Some((level as u8, title)),
        heading_line(level, title)[0] == '#',
{
    let line = heading_line(level, title);
    lemma_start(line);
    reveal(grammar::atx_heading);
    text::lemma_run_len_is(line, '#', level);
    let after = line.skip(level as int);
    assert(after =~= seq![' '] + title);
    text::lemma_trimmed_start_is(after, 1);
    assert(after.subrange(1, after.len() as int) =~= title);
    text::lemma_trimmed_end_is(title, title.len() as int);
    assert(title.subrange(0, title.len() as int) =~= title);
}

/// One to six `#`, a space and a text are a heading of that level with that text: read as
/// one, imported as the one block of a document of that line, and shown as such.
pub proof fn headings_of_all_six_levels_are_read(
    level: nat,
    title: Seq<char>,
    native: bool,
    semantic: Lines,
    s: EditorView,
)
    requires
        1 <= level <= 6,
        trimmed_text(title),
    ensures
        ({
            let line = run_of('#', level) + seq![' '] + title;
            let block = block_of(BlockKind::Heading { level: level as u8 }, title);
            &&& grammar::atx_heading(line) == Some((level as u8, title))
            &&& import_model::blocks_of(seq![line], native, semantic) == seq![block]
            &&& (forall|k: int| 0 <= k < title.len() ==> title[k] != '\n') ==> {
                &&& restore::root_blocks(line, semantic) == seq![block]
                &&& s.view_mode == ViewMode::Rendered ==> {
                    let shown = restore::loaded(s, line, semantic).document;
                    &&& shown.len() == 1
                    &&& shown[0].kind == BlockKind::<Seq<char>>::Heading { level: level as u8 }
                    &&& shown[0].title == block.title
                    &&& shown[0].display_text == title
                    &&& shown[0].depth == 0
                }
            }
        }),
{
    let line = heading_line(level, title);
    let lines = seq![line];
    let block = block_of(BlockKind::Heading { level: level as u8 }, title);
    lemma_heading_line(level, title);
    lemma_start(line);
    lemma_not_started(line);
    lemma_no_comment(lines, 0);
    lemma_one_block(lines, native, semantic, block);
    if forall|k: int| 0 <= k < title.len() ==> title[k] != '\n' {
        assert forall|k: int| 0 <= k < line.len() implies line[k] != '\n' by {
            if k > level {
                assert(line[k] == title[k - level - 1]);
            }
        }
        lemma_one_block(lines, true, semantic, block);
        lemma_read(line, semantic, block);
        if s.view_mode == ViewMode::Rendered {
            lemma_shown(s, line, semantic, block);
            lemma_title_text(block.title[0]);
        }
    }
}

proof fn lemma_title_text(piece: InlineFragment<Seq<char>>)
    ensures
        blocks::title_text(seq![piece]) == piece.text,
{
    reveal_with_fuel(blocks::title_text, 2);
    assert(seq![piece].drop_last() =~= Seq::empty());
    assert(blocks::title_text(seq![piece]) =~= piece.text);
}

/// A document of one block without blocks under it.
proof fn lemma_shown(s: EditorView, source: Seq<char>, semantic: Lines, block: BlockView)
    requires
        s.view_mode == ViewMode::Rendered,
        restore::root_blocks(source, semantic) == seq![block],
        block.children.len() == 0,
    ensures
        ({
            let shown = restore::loaded(s, source, semantic).document;
            &&& shown.len() == 1
            &&& shown[0].kind == block.kind
            &&& shown[0].title == block.title
            &&& shown[0].table == block.table
            &&& shown[0].display_text == blocks::title_text(block.title)
            &&& shown[0].depth == 0
        }),
{
    let items = seq![block];
    let nodes = restore::loaded_nodes(s, source, semantic);
    let before = items.drop_last();
    assert(before =~= Seq::empty());
    assert(crate::document::blocks_size(before) == 0);
    assert(crate::document::nodes_of(before, 0, s.next_id as int).len() == 0);
    assert(crate::document::nodes_of(block.children, 1, s.next_id + 1).len() == 0);
    let head = crate::document::fresh_node(s.next_id, 0, block.kind, block.title, block.table);
    assert(crate::document::block_nodes(block, 0, s.next_id as int) =~= seq![head]);
    assert(nodes =~= seq![head]);
    let replaced = EditorView {
        document: nodes,
        next_id: (s.next_id + restore::loaded_size(s, source, semantic)) as u64,
        ..s
    };
    crate::tables::lemma_rebuilt_nodes(nodes, replaced.next_id as int);
}

// ---------------------------------------------------------------------------
// Lists
// ---------------------------------------------------------------------------

proof fn lemma_item(line: Seq<char>, native: bool, semantic: Lines)
    requires
        line.len() > 0,
        !text::is_space(line[0]),
        line[0] == '-' || line[0] == '*' || line[0] == '+' || '0' <= line[0] <= '9',
        grammar::list_marker(line) is Some,
    ensures
        ({
            let marker = grammar::list_marker(line)->0;
            import_model::blocks_of(seq![line], native, semantic) == seq![
                block_of(marker.kind, marker.text),
            ]
        }),
{
    let lines = seq![line];
    let marker = grammar::list_marker(line)->0;
    let block = block_of(marker.kind, marker.text);
    lemma_start(line);
    lemma_not_started(line);
    lemma_no_comment(lines, 0);
    let body = lines.subrange(1, 1);
    assert(body.len() == 0);
    assert(regions::item_end_from(lines, 1, 0, marker.indent_columns) == 1);
    assert(import_model::list_item(lines, semantic, 0) == block);
    let rest = import_model::list_blocks(lines, semantic, 1);
    assert(rest.0 =~= Seq::empty() && rest.1 == 1);
    assert(import_model::list_blocks(lines, semantic, 0).0 =~= seq![block]);
    lemma_one_block(lines, native, semantic, block);
}

/// A `-`, `*` or `+`, a space and a text are a bulleted list item with that text.
pub proof fn bullets_are_read(
    mark: char,
    title: Seq<char>,
    native: bool,
    semantic: Lines,
)
    requires
        mark == '-' || mark == '*' || mark == '+',
        title.len() > 0 ==> title[0] != '[',
    ensures
        import_model::blocks_of(seq![seq![mark, ' '] + title], native, semantic) == seq![
            block_of(BlockKind::BulletedListItem, title),
        ],
{
    let line = seq![mark, ' '] + title;
    lemma_start(line);
    reveal(grammar::list_marker);
    reveal_strlit("[ ] ");
    reveal_strlit("[x] ");
    reveal_strlit("[X] ");
    assert("[ ] "@[0] == '[' && "[x] "@[0] == '[' && "[X] "@[0] == '[');
    assert(line.skip(0) =~= line);
    assert(line.skip(2) =~= title);
    lemma_item(line, native, semantic);
}

/// A bullet with an empty box behind it is a task that is not done, one with a `x` or `X`
/// in the box a task that is done. The text is what stands behind the box.
pub proof fn tasks_are_read(
    mark: char,
    inside: char,
    title: Seq<char>,
    native: bool,
    semantic: Lines,
)
    requires
        mark == '-' || mark == '*' || mark == '+',
        inside == ' ' || inside == 'x' || inside == 'X',
    ensures
        import_model::blocks_of(
            seq![seq![mark, ' ', '[', inside, ']', ' '] + title],
            native,
            semantic,
        ) == seq![block_of(BlockKind::TaskListItem { checked: inside != ' ' }, title)],
{
    let line = seq![mark, ' ', '[', inside, ']', ' '] + title;
    lemma_start(line);
    reveal(grammar::list_marker);
    reveal_strlit("[ ] ");
    reveal_strlit("[x] ");
    reveal_strlit("[X] ");
    let rest = line.skip(2);
    assert(line.skip(0) =~= line);
    assert(rest.take(4) =~= seq!['[', inside, ']', ' ']);
    assert("[ ] "@ =~= seq!['[', ' ', ']', ' ']);
    assert("[x] "@ =~= seq!['[', 'x', ']', ' ']);
    assert("[X] "@ =~= seq!['[', 'X', ']', ' ']);
    assert(rest[1] == inside);
    assert("[ ] "@[1] == ' ');
    assert("[ ] "@.is_prefix_of(rest) <==> inside == ' ');
    assert("[x] "@.is_prefix_of(rest) <==> inside == 'x');
    assert("[X] "@.is_prefix_of(rest) <==> inside == 'X');
    assert(rest.skip(4) =~= title);
    lemma_item(line, native, semantic);
}

/// One to nine digits, a dot or a closing parenthesis, a space and a text are a numbered
/// list item with that text.
pub proof fn numbered_items_are_read(
    digits: Seq<char>,
    mark: char,
    title: Seq<char>,
    native: bool,
    semantic: Lines,
)
    requires
        1 <= digits.len() <= 9,
        forall|k: int| 0 <= k < digits.len() ==> '0' <= #[trigger] digits[k] <= '9',
        mark == '.' || mark == ')',
    ensures
        import_model::blocks_of(seq![digits + seq![mark, ' '] + title], native, semantic) == seq![
            block_of(BlockKind::NumberedListItem, title),
        ],
{
    let line = digits + seq![mark, ' '] + title;
    let n = digits.len();
    assert(line[0] == digits[0]);
    lemma_start(line);
    reveal(grammar::list_marker);
    assert(line.skip(0) =~= line);
    assert forall|k: int| 0 <= k < n implies '0' <= #[trigger] line[k] <= '9' by {
        assert(line[k] == digits[k]);
    }
    assert(line[n as int] == mark && line[n as int + 1] == ' ');
    grammar::lemma_digit_run_is(line, n);
    assert(line.skip(n as int + 2) =~= title);
    lemma_item(line, native, semantic);
}

// ---------------------------------------------------------------------------
// Paragraphs
// ---------------------------------------------------------------------------

/// A line of plain text starts no block but a paragraph.
pub proof fn lemma_plain(line: Seq<char>)
    requires
        plain_text(line),
    ensures
        !text::is_space(line[0]),
        !text::blank(line),
        grammar::opening_fence(line) is None,
        markup::html_block_start(line) is None,
        !markup::footnote_definition_start(line),
        !markup::reference_definition_start(line),
        markup::standalone_image(line) is None,
        grammar::indented_code_body(line) is None,
        grammar::list_marker(line) is None,
        !grammar::quote_start(line),
        grammar::atx_heading(line) is None,
        !grammar::separator_line(line),
        !table_syntax::table_candidate(line),
        !markup::display_math_start(line),
        grammar::callout_header(line) is None,
        grammar::setext_underline(line) is None,
        text::trimmed_end(line) == line,
        text::trimmed(line) == line,
        !table_syntax::all_delimiters(table_syntax::row_cells(line)),
{
    lemma_start(line);
    lemma_not_started(line);
    text::lemma_trimmed_end_is(line, line.len() as int);
    assert(line.subrange(0, line.len() as int) =~= line);
    reveal(table_syntax::row_cells);
    let end = table_syntax::cell_end(line, 0);
    table_syntax::lemma_cell_end(line, 0);
    table_syntax::lemma_cell_end(line, 1);
    assert(end >= 1);
    let piece = line.subrange(0, end);
    lemma_start(piece);
    let cell = text::trimmed(piece);
    let cells = table_syntax::row_cells(line);
    assert(cells[0] == cell);
    assert(cell[0] == line[0]);
    let dashes = if cell.last() == ':' {
        cell.drop_last()
    } else {
        cell
    };
    assert(dashes.len() > 0 && dashes[0] == line[0]);
    assert(table_syntax::delimiter_alignment(cells[0]) is None);
}

/// Whether every line is plain text.
pub open spec fn plain_lines(lines: Lines) -> bool {
    forall|k: int| 0 <= k < lines.len() ==> plain_text(#[trigger] lines[k])
}

/// Above plain text or a blank line stands no table header without pipes around it.
pub proof fn lemma_no_pipeless(lines: Lines, index: int)
    requires
        0 <= index,
        index + 1 < lines.len() ==> plain_text(lines[index + 1]) || text::blank(lines[index + 1]),
    ensures
        import_model::pipeless_table(lines, index) is None,
{
    reveal(import_model::pipeless_table);
    reveal(table_syntax::pipeless_region_end);
    if index + 1 < lines.len() {
        let next = lines[index + 1];
        if plain_text(next) {
            lemma_plain(next);
        } else {
            reveal(table_syntax::row_cells);
            text::blank_iff_trimmed_is_empty(next);
            let body = table_syntax::row_body(next);
            assert(body.len() == 0);
            assert(table_syntax::cell_end(body, 0) == 0);
            text::blank_iff_trimmed_is_empty(body.subrange(0, 0));
            let cells = table_syntax::row_cells(next);
            assert(cells[0].len() == 0);
            assert(table_syntax::delimiter_alignment(cells[0]) is None);
        }
    }
}

proof fn lemma_paragraph_goes_on(lines: Lines, index: int)
    requires
        plain_lines(lines),
        0 < index <= lines.len(),
    ensures
        regions::paragraph_end_from(lines, 0, index) == lines.len(),
    decreases lines.len() - index,
{
    if index < lines.len() {
        lemma_plain(lines[index]);
        if index + 1 < lines.len() {
            lemma_plain(lines[index + 1]);
        }
        reveal(regions::root_block_start);
        assert(!regions::root_block_start(lines, index));
        lemma_paragraph_goes_on(lines, index + 1);
    }
}

/// Lines of plain text are one paragraph that holds them all, with the line breaks
/// between them.
pub proof fn plain_lines_are_one_paragraph(lines: Lines, native: bool, semantic: Lines)
    requires
        lines.len() > 0,
        plain_lines(lines),
    ensures
        import_model::blocks_of(lines, native, semantic) == seq![
            block_of(BlockKind::Paragraph, text::joined(lines)),
        ],
{
    let line = lines[0];
    lemma_plain(line);
    if lines.len() > 1 {
        lemma_plain(lines[1]);
    }
    lemma_no_comment(lines, 0);
    lemma_no_pipeless(lines, 0);
    lemma_paragraph_goes_on(lines, 1);
    reveal(regions::paragraph_end);
    assert(lines.subrange(0, lines.len() as int) =~= lines);
    lemma_one_block(
        lines,
        native,
        semantic,
        block_of(BlockKind::Paragraph, text::joined(lines)),
    );
}

/// A line of plain text above three or more `=` is a heading of the first level, and
/// above three or more `-` one of the second.
pub proof fn underlined_lines_are_headings(
    title: Seq<char>,
    mark: char,
    count: nat,
    native: bool,
    semantic: Lines,
)
    requires
        plain_text(title),
        mark == '=' || mark == '-',
        count >= 3,
    ensures
        import_model::blocks_of(seq![title, run_of(mark, count)], native, semantic) == seq![
            block_of(
                BlockKind::Heading {
                    level: if mark == '=' {
                        1
                    } else {
                        2
                    },
                },
                title,
            ),
        ],
{
    let under = run_of(mark, count);
    let lines = seq![title, under];
    lemma_plain(title);
    lemma_no_comment(lines, 0);
    lemma_start(under);
    text::lemma_trimmed_end_is(under, under.len() as int);
    assert(under.subrange(0, under.len() as int) =~= under);
    text::lemma_run_len_is(under, mark, count);
    if mark == '-' {
        text::lemma_run_len_is(under, '=', 0);
    }
    reveal(grammar::setext_underline);
    assert(regions::setext_below(lines, 0) is Some);
    lemma_one_block(
        lines,
        native,
        semantic,
        block_of(
            BlockKind::Heading {
                level: if mark == '=' {
                    1
                } else {
                    2
                },
            },
            title,
        ),
    );
}

/// A text of one character has as many of it as it is long.
pub proof fn lemma_count_of_run(c: char, n: nat)
    ensures
        grammar::count_char(run_of(c, n), c) == n,
    decreases n,
{
    if n > 0 {
        lemma_count_of_run(c, (n - 1) as nat);
        assert(run_of(c, n).drop_last() =~= run_of(c, (n - 1) as nat));
    }
}

/// Three or more `-`, `*` or `_` alone are a separator.
pub proof fn separators_are_read(mark: char, count: nat, native: bool, semantic: Lines)
    requires
        mark == '-' || mark == '*' || mark == '_',
        count >= 3,
    ensures
        import_model::blocks_of(seq![run_of(mark, count)], native, semantic) == seq![
            literal_block_of(BlockKind::Separator, Seq::empty()),
        ],
{
    let line = run_of(mark, count);
    let lines = seq![line];
    lemma_start(line);
    lemma_not_started(line);
    lemma_no_comment(lines, 0);
    text::lemma_trimmed_end_is(line, line.len() as int);
    assert(line.subrange(0, line.len() as int) =~= line);
    lemma_count_of_run(mark, count);
    reveal(grammar::separator_line);
    reveal(grammar::list_marker);
    assert(line.skip(0) =~= line);
    assert(line[1] == mark);
    assert(grammar::list_marker(line) is None) by {
        assert(grammar::digit_run(line) == 0);
    }
    assert(grammar::separator_line(line));
    lemma_one_block(
        lines,
        native,
        semantic,
        literal_block_of(BlockKind::Separator, Seq::empty()),
    );
}

// ---------------------------------------------------------------------------
// Quotes and callouts
// ---------------------------------------------------------------------------

/// The lines with a quote mark and a space before each.
pub open spec fn quoted(lines: Lines) -> Lines {
    Seq::new(lines.len(), |k: int| seq!['>', ' '] + lines[k])
}

proof fn lemma_quoted_line(line: Seq<char>)
    ensures
        ({
            let q = seq!['>', ' '] + line;
            &&& q[0] == '>'
            &&& grammar::quote_start(q)
            &&& grammar::unquoted(q) == Some(line)
        }),
{
    let q = seq!['>', ' '] + line;
    lemma_start(q);
    reveal(grammar::quote_start);
    reveal(grammar::unquoted);
    assert(q.skip(2) =~= line);
}

proof fn lemma_quoted_region(lines: Lines, index: int)
    requires
        0 <= index <= lines.len(),
    ensures
        regions::quote_region_end(quoted(lines), index) == lines.len(),
    decreases lines.len() - index,
{
    reveal(regions::quote_region_end);
    if index < lines.len() {
        lemma_quoted_line(lines[index]);
        lemma_start(quoted(lines)[index]);
        lemma_quoted_region(lines, index + 1);
    }
}

/// Quoted lines are read as one block: that of the lines without their quote marks.
proof fn lemma_quoted(lines: Lines, native: bool, semantic: Lines)
    requires
        lines.len() > 0,
        import_model::native_quote(lines, semantic) is Some,
        lines.len() > 1 ==> grammar::setext_underline(quoted(lines)[1]) is None,
    ensures
        import_model::blocks_of(quoted(lines), native, semantic) == seq![
            import_model::native_quote(lines, semantic)->0,
        ],
{
    let all = quoted(lines);
    lemma_quoted_line(lines[0]);
    lemma_start(all[0]);
    lemma_not_started(all[0]);
    lemma_no_comment(all, 0);
    lemma_quoted_region(lines, 0);
    assert(all.subrange(0, all.len() as int) =~= all);
    assert(import_model::unquote_all(all) =~= lines) by {
        assert forall|k: int| 0 <= k < lines.len() implies import_model::unquote_all(all)[k]
            == lines[k] by {
            lemma_quoted_line(lines[k]);
        }
    }
    lemma_one_block(all, native, semantic, import_model::native_quote(lines, semantic)->0);
}

proof fn lemma_quoted_paragraph(lines: Lines, index: int)
    requires
        plain_lines(lines),
        0 < index <= lines.len(),
    ensures
        import_model::quote_paragraph_end(lines, index) == lines.len(),
    decreases lines.len() - index,
{
    if index < lines.len() {
        lemma_plain(lines[index]);
        if index + 1 < lines.len() {
            lemma_plain(lines[index + 1]);
        }
        reveal(regions::quote_content_unsupported);
        lemma_quoted_paragraph(lines, index + 1);
    }
}

proof fn lemma_plain_quote(lines: Lines, semantic: Lines)
    requires
        lines.len() > 0,
        plain_lines(lines),
    ensures
        import_model::native_quote(lines, semantic) == Some(
            block_of(BlockKind::Quote, text::joined(lines)),
        ),
{
    let line = lines[0];
    lemma_plain(line);
    if lines.len() > 1 {
        lemma_plain(lines[1]);
    }
    lemma_no_comment(lines, 0);
    reveal(regions::unsupported_quote_end);
    reveal(import_model::fenced_block);
    reveal(import_model::image_child_start);
    lemma_quoted_paragraph(lines, 1);
    let n = lines.len() as int;
    assert(import_model::quote_step(lines, semantic, 0) == import_model::QuoteStep::Paragraph(n));
    assert(lines.subrange(0, n) =~= lines);
    let joined = import_model::extended_title(
        Seq::empty(),
        0,
        import_model::source(lines, 0, n),
    );
    let done = import_model::quote_body(lines, semantic, n, 0, false, joined, Seq::empty());
    assert(import_model::empty_paragraphs(0) =~= Seq::empty());
    assert(done == Some((joined, Seq::<BlockView>::empty()))) by {
        assert(Seq::<BlockView>::empty() + import_model::quote_separators(
            0,
            joined,
            Seq::empty(),
        ) =~= Seq::empty());
    }
    assert(import_model::quote_body(
        lines,
        semantic,
        0,
        0,
        false,
        Seq::empty(),
        Seq::empty(),
    ) == done);
}

/// Lines of plain text with a quote mark before each are one quote that holds them all,
/// with the line breaks between them.
pub proof fn quoted_lines_are_one_quote(lines: Lines, native: bool, semantic: Lines)
    requires
        lines.len() > 0,
        plain_lines(lines),
    ensures
        import_model::blocks_of(
            Seq::new(lines.len(), |k: int| seq!['>', ' '] + lines[k]),
            native,
            semantic,
        ) == seq![block_of(BlockKind::Quote, text::joined(lines))],
{
    lemma_plain_quote(lines, semantic);
    if lines.len() > 1 {
        lemma_quoted_line(lines[1]);
        lemma_start(quoted(lines)[1]);
        lemma_not_started(quoted(lines)[1]);
    }
    lemma_quoted(lines, native, semantic);
    assert(quoted(lines) =~= Seq::new(lines.len(), |k: int| seq!['>', ' '] + lines[k]));
}

/// The word that names a callout.
pub open spec fn callout_word(variant: CalloutVariant) -> Seq<char> {
    match variant {
        CalloutVariant::Note => seq!['N', 'O', 'T', 'E'],
        CalloutVariant::Tip => seq!['T', 'I', 'P'],
        CalloutVariant::Important => seq!['I', 'M', 'P', 'O', 'R', 'T', 'A', 'N', 'T'],
        CalloutVariant::Warning => seq!['W', 'A', 'R', 'N', 'I', 'N', 'G'],
        CalloutVariant::Caution => seq!['C', 'A', 'U', 'T', 'I', 'O', 'N'],
    }
}

/// The header line of a callout is read as its variant and title.
pub proof fn lemma_callout_header(variant: CalloutVariant, title: Seq<char>)
    requires
        trimmed_text(title),
    ensures
        grammar::callout_header(
            seq!['[', '!'] + callout_word(variant) + seq![']', ' '] + title,
        ) == Some((variant, title)),
{
    let header = kinds::callout_header_markdown(variant, title);
    reveal_strlit("[!");
    reveal_strlit("] ");
    reveal_strlit("NOTE");
    reveal_strlit("TIP");
    reveal_strlit("IMPORTANT");
    reveal_strlit("WARNING");
    reveal_strlit("CAUTION");
    assert(kinds::variant_name(variant) =~= callout_word(variant));
    assert("[!"@ =~= seq!['[', '!']);
    assert("] "@ =~= seq![']', ' ']);
    assert(header =~= seq!['[', '!'] + callout_word(variant) + seq![']', ' '] + title);
    kinds::callout_headers_are_read_back(variant, title);
    text::lemma_trimmed_start_is(title, 0);
    assert(title.subrange(0, title.len() as int) =~= title);
    text::lemma_trimmed_end_is(title, title.len() as int);
}

proof fn lemma_callout(
    header: Seq<char>,
    variant: CalloutVariant,
    title: Seq<char>,
    semantic: Lines,
)
    requires
        header.len() > 0,
        header[0] == '[',
        grammar::callout_header(header) == Some((variant, title)),
    ensures
        import_model::native_quote(seq![header], semantic) == Some(
            block_of(BlockKind::Callout(variant), title),
        ),
{
    let lines = seq![header];
    lemma_start(header);
    let body = lines.subrange(1, 1);
    assert(body.len() == 0);
    assert(import_model::empty_paragraphs(0) =~= Seq::empty());
    assert(import_model::callout_body(body, semantic, 0, 0, Seq::empty()) == Some(
        Seq::<BlockView>::empty(),
    )) by {
        assert(Seq::<BlockView>::empty() + import_model::empty_paragraphs(0) =~= Seq::empty());
    }
    assert(regions::skip_blank(lines, 0) == 0);
}

/// A quoted line of a callout's word between `[!` and `]` and a text is a callout of that
/// name with that text as its title.
pub proof fn callouts_of_all_names_are_read(
    variant: CalloutVariant,
    title: Seq<char>,
    native: bool,
    semantic: Lines,
)
    requires
        trimmed_text(title),
    ensures
        import_model::blocks_of(
            seq![seq!['>', ' ', '[', '!'] + callout_word(variant) + seq![']', ' '] + title],
            native,
            semantic,
        ) == seq![block_of(BlockKind::Callout(variant), title)],
{
    let header = seq!['[', '!'] + callout_word(variant) + seq![']', ' '] + title;
    let line = seq!['>', ' ', '[', '!'] + callout_word(variant) + seq![']', ' '] + title;
    lemma_callout_header(variant, title);
    lemma_callout(header, variant, title, semantic);
    assert(line =~= seq!['>', ' '] + header);
    assert(quoted(seq![header]) =~= seq![line]);
    lemma_quoted(seq![header], native, semantic);
}

// ---------------------------------------------------------------------------
// Code
// ---------------------------------------------------------------------------

/// Whether a line holds neither a backtick nor a tilde.
pub open spec fn no_fence(line: Seq<char>) -> bool {
    forall|k: int| 0 <= k < line.len() ==> line[k] != '`' && line[k] != '~'
}

proof fn lemma_no_fence(line: Seq<char>, fence: grammar::FenceView)
    requires
        no_fence(line),
        fence.ch == '`' || fence.ch == '~',
    ensures
        !grammar::closing_fence(line, fence),
        grammar::opening_fence(line) is None,
{
    reveal(grammar::closing_fence);
    reveal(grammar::opening_fence);
    text::lemma_run_len_bound(line, ' ');
    if let Some(rest) = grammar::fence_body(line) {
        text::lemma_trimmed_end_shape(rest);
        let body = text::trimmed_end(rest);
        if body.len() > 0 {
            assert(body[0] == rest[0]);
            assert(rest[0] == line[text::run_len(line, ' ') as int]);
        }
        assert(text::run_len(body, fence.ch) == 0);
    }
}

/// The last line closes a fence where no line before it holds one.
pub proof fn lemma_fence_closes(lines: Lines, index: int, fence: grammar::FenceView)
    requires
        0 < index < lines.len(),
        forall|k: int| index <= k < lines.len() - 1 ==> no_fence(#[trigger] lines[k]),
        fence.ch == '`' || fence.ch == '~',
        grammar::closing_fence(lines[lines.len() - 1], fence),
    ensures
        regions::fence_close_from(lines, index, fence) == Some(lines.len() - 1),
    decreases lines.len() - index,
{
    if index < lines.len() - 1 {
        lemma_no_fence(lines[index], fence);
        lemma_fence_closes(lines, index + 1, fence);
    }
}

/// A fence with a language behind it opens a code block.
pub proof fn lemma_fence_line(mark: char, count: nat, language: Seq<char>)
    requires
        mark == '`' || mark == '~',
        count >= 3,
        language.len() == 0 || (plain_text(language) && no_fence(language)),
    ensures
        grammar::opening_fence(run_of(mark, count) + language) == Some(
            grammar::FenceView {
                ch: mark,
                len: count,
                language: if language.len() == 0 {
                    None
                } else {
                    Some(language)
                },
            },
        ),
{
    let line = run_of(mark, count) + language;
    lemma_start(line);
    reveal(grammar::opening_fence);
    reveal_strlit("`");
    text::lemma_trimmed_end_is(line, line.len() as int);
    assert(line.subrange(0, line.len() as int) =~= line);
    text::lemma_run_len_is(line, mark, count);
    assert(line.skip(count as int) =~= language);
    if language.len() > 0 {
        lemma_plain(language);
        assert(!text::occurs(language, "`"@)) by {
            if text::occurs(language, "`"@) {
                let at = choose|at: int| text::occurs_at(language, "`"@, at);
                assert(language.subrange(at, at + 1)[0] == language[at]);
                assert("`"@[0] == '`');
            }
        }
    } else {
        text::blank_iff_trimmed_is_empty(language);
        assert(!text::occurs(text::trimmed(language), "`"@)) by {
            if text::occurs(text::trimmed(language), "`"@) {
                let at = choose|at: int| text::occurs_at(text::trimmed(language), "`"@, at);
                assert("`"@.len() == 1);
            }
        }
    }
}

/// Lines between two equal fences of three or more backticks or tildes are a code block
/// that holds just these lines, in the language behind the first fence, if there is one.
pub proof fn fenced_lines_are_code(
    mark: char,
    count: nat,
    language: Seq<char>,
    body: Lines,
    native: bool,
    semantic: Lines,
)
    requires
        mark == '`' || mark == '~',
        count >= 3,
        language.len() == 0 || (plain_text(language) && no_fence(language) && language[0] != 'm'
            && language[0] != 'M'),
        forall|k: int| 0 <= k < body.len() ==> no_fence(#[trigger] body[k]),
    ensures
        import_model::blocks_of(
            seq![run_of(mark, count) + language] + body + seq![run_of(mark, count)],
            native,
            semantic,
        ) == seq![
            literal_block_of(
                BlockKind::CodeBlock {
                    language: if language.len() == 0 {
                        None
                    } else {
                        Some(language)
                    },
                },
                text::joined(body),
            ),
        ],
{
    let open = run_of(mark, count) + language;
    let close = run_of(mark, count);
    let lines = seq![open] + body + seq![close];
    lemma_fence_line(mark, count, language);
    let fence = grammar::opening_fence(open)->0;
    lemma_start(open);
    lemma_start(close);
    text::lemma_trimmed_end_is(close, close.len() as int);
    assert(close.subrange(0, close.len() as int) =~= close);
    text::lemma_run_len_is(close, mark, count);
    reveal(grammar::closing_fence);
    assert(text::blank(close.skip(count as int)));
    assert(grammar::closing_fence(close, fence));
    assert forall|k: int| 1 <= k < lines.len() - 1 implies no_fence(#[trigger] lines[k]) by {
        assert(lines[k] == body[k - 1]);
    }
    lemma_fence_closes(lines, 1, fence);
    reveal(import_model::fenced_block);
    reveal(grammar::mermaid_info);
    reveal_strlit("mermaid");
    reveal_strlit("mmd");
    assert(!grammar::mermaid_info(fence.language)) by {
        if language.len() > 0 {
            assert(text::ascii_lower(language[0]) != 'm');
            assert(text::ascii_lower("mermaid"@[0]) == 'm');
            assert(text::ascii_lower("mmd"@[0]) == 'm');
        }
    }
    assert(lines.subrange(1, lines.len() - 1) =~= body);
    lemma_one_block(
        lines,
        native,
        semantic,
        literal_block_of(BlockKind::CodeBlock { language: fence.language }, text::joined(body)),
    );
}

/// A line of plain text behind four spaces is a code block that holds the text.
pub proof fn indented_lines_are_code(title: Seq<char>, native: bool, semantic: Lines)
    requires
        plain_text(title),
    ensures
        import_model::blocks_of(seq![seq![' ', ' ', ' ', ' '] + title], native, semantic) == seq![
            literal_block_of(BlockKind::CodeBlock { language: None }, title),
        ],
{
    let line = seq![' ', ' ', ' ', ' '] + title;
    let lines = seq![line];
    reveal_strlit("    ");
    assert("    "@ =~= seq![' ', ' ', ' ', ' ']);
    assert(line.take(4) =~= "    "@);
    text::lemma_run_len_is(line, ' ', 4);
    assert(!text::is_space(line[4]));
    text::lemma_trimmed_end_is(line, line.len() as int);
    assert(line.subrange(0, line.len() as int) =~= line);
    text::lemma_trimmed_start_is(line, 4);
    assert(line.subrange(4, line.len() as int) =~= title);
    assert(line.skip(4) =~= title);
    lemma_plain(title);
    reveal(grammar::opening_fence);
    reveal(markup::html_block_start);
    reveal(markup::footnote_definition_start);
    reveal(markup::reference_definition_start);
    reveal(markup::standalone_image);
    lemma_no_comment(lines, 0);
    reveal(import_model::indented_block);
    assert(lines.subrange(0, 1) =~= lines);
    assert(import_model::code_lines(lines) =~= seq![title]);
    assert(import_model::indented_end_from(lines, 1) == 1);
    lemma_one_block(
        lines,
        native,
        semantic,
        literal_block_of(BlockKind::CodeBlock { language: None }, title),
    );
}

// ---------------------------------------------------------------------------
// Documents of several blocks
// ---------------------------------------------------------------------------

/// The list items from `index` on, each on a line of its own.
pub proof fn lemma_bullets(lines: Lines, texts: Lines, mark: char, semantic: Lines, index: int)
    requires
        mark == '-' || mark == '*' || mark == '+',
        lines.len() == texts.len(),
        0 <= index <= lines.len(),
        forall|k: int| 0 <= k < lines.len() ==> #[trigger] lines[k] == seq![mark, ' '] + texts[k],
        forall|k: int| 0 <= k < texts.len() ==> (#[trigger] texts[k]).len() > 0 && texts[k][0] != '[',
    ensures
        import_model::list_blocks(lines, semantic, index).1 == lines.len(),
        import_model::list_blocks(lines, semantic, index).0 == Seq::new(
            (lines.len() - index) as nat,
            |k: int| block_of(BlockKind::BulletedListItem, texts[index + k]),
        ),
    decreases lines.len() - index,
{
    let all = Seq::new(
        (lines.len() - index) as nat,
        |k: int| block_of(BlockKind::BulletedListItem, texts[index + k]),
    );
    if index < lines.len() {
        lemma_bullet_marker(mark, texts[index]);
        assert(lines[index] == seq![mark, ' '] + texts[index]);
        if index + 1 < lines.len() {
            lemma_bullet_marker(mark, texts[index + 1]);
            assert(lines[index + 1] == seq![mark, ' '] + texts[index + 1]);
            lemma_start(lines[index + 1]);
        }
        let marker = grammar::list_marker(lines[index])->0;
        assert(regions::item_end_from(lines, index + 1, 0, marker.indent_columns) == index + 1);
        let body = lines.subrange(index + 1, index + 1);
        assert(body.len() == 0);
        assert(import_model::list_item(lines, semantic, index) == block_of(
            BlockKind::BulletedListItem,
            texts[index],
        ));
        lemma_bullets(lines, texts, mark, semantic, index + 1);
        let rest = import_model::list_blocks(lines, semantic, index + 1);
        assert(import_model::list_blocks(lines, semantic, index).0 =~= all);
    } else {
        assert(import_model::list_blocks(lines, semantic, index).0 =~= all);
    }
}

/// A bullet marks an item with the text behind it.
pub proof fn lemma_bullet_marker(mark: char, title: Seq<char>)
    requires
        mark == '-' || mark == '*' || mark == '+',
        title.len() > 0 ==> title[0] != '[',
    ensures
        grammar::list_marker(seq![mark, ' '] + title) matches Some(marker) && marker.kind
            == BlockKind::<Seq<char>>::BulletedListItem && marker.text == title
            && marker.indent_columns == 0,
{
    let line = seq![mark, ' '] + title;
    lemma_start(line);
    reveal(grammar::list_marker);
    reveal_strlit("[ ] ");
    reveal_strlit("[x] ");
    reveal_strlit("[X] ");
    assert("[ ] "@[0] == '[' && "[x] "@[0] == '[' && "[X] "@[0] == '[');
    assert(line.skip(0) =~= line);
    assert(line.skip(2) =~= title);
    assert(line.take(0) =~= Seq::empty());
}

/// Lines with a bullet each are as many list items in their order, none under another.
pub proof fn bullets_are_read_in_order(
    texts: Lines,
    mark: char,
    native: bool,
    semantic: Lines,
)
    requires
        mark == '-' || mark == '*' || mark == '+',
        texts.len() > 0,
        plain_lines(texts),
    ensures
        import_model::blocks_of(
            Seq::new(texts.len(), |k: int| seq![mark, ' '] + texts[k]),
            native,
            semantic,
        ) == Seq::new(texts.len(), |k: int| block_of(BlockKind::BulletedListItem, texts[k])),
{
    let lines = Seq::new(texts.len(), |k: int| seq![mark, ' '] + texts[k]);
    let all = Seq::new(texts.len(), |k: int| block_of(BlockKind::BulletedListItem, texts[k]));
    assert forall|k: int| 0 <= k < texts.len() implies (#[trigger] texts[k]).len() > 0
        && texts[k][0] != '[' by {
        assert(plain_text(texts[k]));
    }
    lemma_bullets(lines, texts, mark, semantic, 0);
    lemma_bullet_marker(mark, texts[0]);
    lemma_start(lines[0]);
    lemma_not_started(lines[0]);
    lemma_no_comment(lines, 0);
    if lines.len() > 1 {
        lemma_start(lines[1]);
        reveal(grammar::setext_underline);
        let cut = text::trimmed_end(lines[1]);
        text::lemma_trimmed_end_shape(lines[1]);
        assert(lines[1][2] == texts[1][0]);
        assert(plain_text(texts[1]));
        lemma_plain(texts[1]);
        assert(cut.len() > 2);
        assert(cut[2] == lines[1][2]);
        text::lemma_run_len_bound(cut, '=');
        text::lemma_run_len_bound(cut, '-');
    }
    let step = import_model::root_step(lines, native, semantic, 0, false, false);
    assert(step.1 == lines.len());
    assert(import_model::roots_from(lines, native, semantic, lines.len() as int, true,
        blocks::kind_is_list_item(step.0.last().kind)) =~= Seq::empty());
    assert(import_model::blocks_of(lines, native, semantic) =~= all);
}

proof fn lemma_blank_run(lines: Lines, index: int, end: int)
    requires
        0 <= index <= end <= lines.len(),
        forall|k: int| index <= k < end ==> text::blank(#[trigger] lines[k]),
        end < lines.len() ==> !text::blank(lines[end]),
    ensures
        regions::skip_blank(lines, index) == end,
    decreases end - index,
{
    if index < end {
        lemma_blank_run(lines, index + 1, end);
    }
}

/// Blank lines part paragraphs: one between them parts them, and each further one is an
/// empty paragraph between them.
pub proof fn blank_lines_part_paragraphs(
    first: Seq<char>,
    gap: Lines,
    second: Seq<char>,
    native: bool,
    semantic: Lines,
)
    requires
        plain_text(first),
        forall|k: int| 0 <= k < first.len() ==> first[k] != '`',
        plain_text(second),
        gap.len() > 0,
        forall|k: int| 0 <= k < gap.len() ==> text::blank(#[trigger] gap[k]),
    ensures
        import_model::blocks_of(seq![first] + gap + seq![second], native, semantic) == seq![
            block_of(BlockKind::Paragraph, first),
        ] + Seq::new(
            (gap.len() - 1) as nat,
            |k: int| block_of(BlockKind::Paragraph, Seq::empty()),
        ) + seq![block_of(BlockKind::Paragraph, second)],
{
    let lines = seq![first] + gap + seq![second];
    let n = gap.len() as int;
    let a = block_of(BlockKind::Paragraph, first);
    let b = block_of(BlockKind::Paragraph, second);
    lemma_plain(first);
    lemma_plain(second);
    assert(lines[1] == gap[0]);
    assert(text::blank(lines[1]));
    lemma_blank_underlines_nothing(lines[1]);
    lemma_no_comment(lines, 0);
    lemma_no_pipeless(lines, 0);
    reveal(regions::paragraph_end);
    reveal(regions::root_block_start);
    reveal(regions::continues_through);
    reveal(markup::pending_code_run);
    assert(lines.subrange(0, 1) =~= seq![first]);
    assert(text::joined(lines.subrange(0, 1)) == first);
    lemma_no_code_run(first, 0);
    assert(regions::paragraph_end(lines, 0) == 1);
    let one = import_model::root_step(lines, native, semantic, 0, false, false);
    assert(one.0 =~= seq![a] && one.1 == 1);
    assert forall|k: int| 1 <= k < n + 1 implies text::blank(#[trigger] lines[k]) by {
        assert(lines[k] == gap[k - 1]);
    }
    assert(lines[n + 1] == second);
    lemma_blank_run(lines, 1, n + 1);
    let two = import_model::root_step(lines, native, semantic, 1, true, false);
    let empties = Seq::new(
        (n - 1) as nat,
        |k: int| block_of(BlockKind::Paragraph, Seq::empty()),
    );
    assert(two.0 =~= empties && two.1 == n + 1);
    lemma_no_comment(lines, n + 1);
    lemma_no_pipeless(lines, n + 1);
    assert(lines.subrange(n + 1, n + 2) =~= seq![second]);
    assert(regions::paragraph_end(lines, n + 1) == n + 2);
    let three = import_model::root_step(lines, native, semantic, n + 1, true, false);
    assert(three.0 =~= seq![b] && three.1 == n + 2);
    assert(import_model::roots_from(lines, native, semantic, n + 2, true, false) =~= Seq::empty());
    assert(import_model::roots_from(lines, native, semantic, n + 1, true, false) =~= seq![b]);
    assert(import_model::roots_from(lines, native, semantic, 1, true, false) =~= empties + seq![b]);
    assert(import_model::blocks_of(lines, native, semantic) =~= seq![a] + empties + seq![b]);
}

proof fn lemma_blank_underlines_nothing(line: Seq<char>)
    requires
        text::blank(line),
    ensures
        grammar::setext_underline(line) is None,
{
    reveal(grammar::setext_underline);
    text::lemma_run_len_bound(line, ' ');
    if let Some(rest) = grammar::fence_body(line) {
        assert forall|i: int| 0 <= i < rest.len() implies text::is_space(#[trigger] rest[i]) by {
            assert(rest[i] == line[i + text::run_len(line, ' ')]);
        }
        text::blank_iff_trimmed_is_empty(rest);
    }
}

proof fn lemma_no_code_run(s: Seq<char>, at: int)
    requires
        0 <= at,
        forall|k: int| 0 <= k < s.len() ==> s[k] != '`',
    ensures
        markup::code_run_from(s, at, None) is None,
    decreases s.len() + 2 - at,
{
    if at < s.len() {
        lemma_no_code_run(s, at + 1);
        lemma_no_code_run(s, at + 2);
    }
}

} // verus!
