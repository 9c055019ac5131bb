//! Where the marks of a line begin and stop to count: indentation, and how many there
//! have to be.

use crate::blocks::{BlockKind, InlineFragment};
use crate::grammar;
use crate::grammar::FenceView;
use crate::import_model;
use crate::reading_laws;
use crate::reading_laws::{block_of, plain_lines, plain_text, run_of};
use crate::regions;
use crate::regions::Lines;
use crate::text;
use vstd::prelude::*;

verus! {

// ---------------------------------------------------------------------------
// Indentation
// ---------------------------------------------------------------------------

proof fn lemma_indented(n: nat, line: Seq<char>)
    requires
        line.len() > 0,
        !text::is_space(line[0]),
    ensures
        n <= 3 ==> grammar::fence_body(run_of(' ', n) + line) == Some(line),
        n > 3 ==> grammar::fence_body(run_of(' ', n) + line) is None,
        grammar::fence_body(line) == Some(line),
        text::trimmed_end(run_of(' ', n) + line) == run_of(' ', n) + text::trimmed_end(line),
        text::trimmed_end(line).len() > 0,
        text::trimmed_end(line)[0] == line[0],
{
    let all = run_of(' ', n) + line;
    reading_laws::lemma_start(line);
    assert(all[n as int] == line[0]);
    text::lemma_run_len_is(all, ' ', n);
    assert(all.skip(n as int) =~= line);
    text::lemma_trimmed_end_shape(line);
    let m = text::trimmed_end(line).len() as int;
    assert forall|k: int| n + m <= k < all.len() implies text::is_space(#[trigger] all[k]) by {
        assert(all[k] == line[k - n]);
    }
    assert(all[n + m - 1] == line[m - 1]);
    assert(text::trimmed_end(line).last() == line[m - 1]);
    text::lemma_trimmed_end_is(all, n + m);
    assert(all.subrange(0, n + m) =~= run_of(' ', n) + text::trimmed_end(line));
}

/// Up to three spaces before a heading, a separator, an underline, a fence or a quote do
/// not matter, and with more it is none.
pub proof fn up_to_three_spaces_do_not_matter(n: nat, line: Seq<char>, opener: FenceView)
    requires
        line.len() > 0,
        !text::is_space(line[0]),
    ensures
        ({
            let all = run_of(' ', n) + line;
            &&& n <= 3 ==> {
                &&& grammar::atx_heading(all) == grammar::atx_heading(line)
                &&& grammar::separator_line(all) == grammar::separator_line(line)
                &&& grammar::setext_underline(all) == grammar::setext_underline(line)
                &&& grammar::opening_fence(all) == grammar::opening_fence(line)
                &&& grammar::closing_fence(all, opener) == grammar::closing_fence(line, opener)
                &&& grammar::quote_start(all) == grammar::quote_start(line)
            }
            &&& n > 3 ==> {
                &&& grammar::atx_heading(all) is None
                &&& !grammar::separator_line(all)
                &&& grammar::setext_underline(all) is None
                &&& grammar::opening_fence(all) is None
                &&& !grammar::closing_fence(all, opener)
                &&& !grammar::quote_start(all)
            }
        }),
{
    lemma_indented(n, line);
    let cut = text::trimmed_end(line);
    lemma_indented(n, cut);
    reveal(grammar::atx_heading);
    reveal(grammar::separator_line);
    reveal(grammar::setext_underline);
    reveal(grammar::opening_fence);
    reveal(grammar::closing_fence);
    reveal(grammar::quote_start);
}

// ---------------------------------------------------------------------------
// White space
// ---------------------------------------------------------------------------

/// Spaces, tabs, line breaks and the spaces of other widths are white space. Letters,
/// digits and the marks of ASCII are not, nor are the characters of other scripts.
pub proof fn what_counts_as_white_space(c: char)
    ensures
        c == ' ' || c == '\t' || c == '\n' || c == '\r' ==> text::is_space(c),
        c == '\u{a0}' || c == '\u{3000}' || '\u{2000}' <= c <= '\u{200a}' ==> text::is_space(c),
        '!' <= c <= '~' ==> !text::is_space(c),
        '\u{a1}' <= c <= '\u{167f}' ==> !text::is_space(c),
        c > '\u{3000}' ==> !text::is_space(c),
{
}

/// Trimming takes away the white space at the ends and nothing else.
pub proof fn trimming_takes_white_space_at_the_ends(
    before: Seq<char>,
    s: Seq<char>,
    after: Seq<char>,
)
    requires
        reading_laws::trimmed_text(s),
        text::blank(before),
        text::blank(after),
    ensures
        text::trimmed(before + s + after) == s,
        text::trimmed_start(before + s) == s,
        text::trimmed_end(s + after) == s,
        text::trimmed(before).len() == 0,
{
    let all = before + s + after;
    let n = before.len() as int;
    assert(all[n] == s[0]);
    assert forall|k: int| 0 <= k < n implies text::is_space(#[trigger] all[k]) by {
        assert(all[k] == before[k]);
    }
    text::lemma_trimmed_start_is(all, n);
    let rest = s + after;
    assert(all.subrange(n, all.len() as int) =~= rest);
    assert forall|k: int| s.len() <= k < rest.len() implies text::is_space(#[trigger] rest[k]) by {
        assert(rest[k] == after[k - s.len()]);
    }
    assert(rest[s.len() - 1] == s[s.len() - 1]);
    text::lemma_trimmed_end_is(rest, s.len() as int);
    assert(rest.subrange(0, s.len() as int) =~= s);
    let front = before + s;
    assert(front[n] == s[0]);
    assert forall|k: int| 0 <= k < n implies text::is_space(#[trigger] front[k]) by {
        assert(front[k] == before[k]);
    }
    text::lemma_trimmed_start_is(front, n);
    assert(front.subrange(n, front.len() as int) =~= s);
    text::blank_iff_trimmed_is_empty(before);
}

// ---------------------------------------------------------------------------
// How many marks
// ---------------------------------------------------------------------------

/// More than six `#`, and `#` with no space behind them, are no heading.
pub proof fn other_heading_marks_are_none(level: nat, c: char, rest: Seq<char>)
    requires
        level >= 1,
        c != '#',
    ensures
        level > 6 ==> grammar::atx_heading(run_of('#', level) + seq![c] + rest) is None,
        c != ' ' && c != '\t' ==> grammar::atx_heading(run_of('#', level) + seq![c] + rest)
            is None,
{
    let line = run_of('#', level) + seq![c] + rest;
    assert(line[0] == '#');
    reading_laws::lemma_start(line);
    assert(line[level as int] == c);
    text::lemma_run_len_is(line, '#', level);
    assert(line.skip(level as int)[0] == c);
    reveal(grammar::atx_heading);
}

/// What is read as a heading starts, behind at most three spaces, with as many `#` as its
/// level says.
pub proof fn headings_start_with_their_marks(line: Seq<char>)
    ensures
        grammar::atx_heading(line) matches Some(heading) ==> 1 <= heading.0 <= 6 && exists|n: int|
            {
                &&& 0 <= n <= 3
                &&& n + heading.0 <= line.len()
                &&& #[trigger] line.take(n) == run_of(' ', n as nat)
                &&& line.subrange(n, n + heading.0) == run_of('#', heading.0 as nat)
                &&& n + heading.0 < line.len() ==> line[n + heading.0] == ' ' || line[n
                    + heading.0] == '\t'
            },
{
    reveal(grammar::atx_heading);
    if let Some(heading) = grammar::atx_heading(line) {
        text::lemma_run_len_bound(line, ' ');
        let n = text::run_len(line, ' ') as int;
        let rest = line.skip(n);
        text::lemma_run_len_bound(rest, '#');
        assert(line.take(n) =~= run_of(' ', n as nat));
        assert(line.subrange(n, n + heading.0) =~= run_of('#', heading.0 as nat)) by {
            let marks = line.subrange(n, n + heading.0);
            assert forall|k: int| 0 <= k < heading.0 implies #[trigger] marks[k] == '#' by {
                assert(marks[k] == rest[k]);
            }
        }
        if n + heading.0 < line.len() {
            assert(rest.skip(heading.0 as int)[0] == line[n + heading.0]);
        }
    }
}

/// Fewer than three marks are no separator and no underline, three or more with spaces
/// between them are a separator, and other characters among them make it none.
pub proof fn separators_have_three_marks(mark: char, a: nat, b: nat, n: nat)
    requires
        mark == '-' || mark == '*' || mark == '_',
        n < 3,
    ensures
        !grammar::separator_line(run_of(mark, n)),
        grammar::setext_underline(run_of(mark, n)) is None,
        grammar::setext_underline(run_of('=', n)) is None,
        grammar::separator_line(
            seq![mark] + run_of(' ', a) + seq![mark] + run_of(' ', b) + seq![mark],
        ),
{
    lemma_short_run(mark, n);
    lemma_short_run('=', n);
    let line = seq![mark] + run_of(' ', a) + seq![mark] + run_of(' ', b) + seq![mark];
    reading_laws::lemma_start(line);
    text::lemma_trimmed_end_is(line, line.len() as int);
    assert(line.subrange(0, line.len() as int) =~= line);
    let head = seq![mark] + run_of(' ', a);
    let middle = head + seq![mark] + run_of(' ', b);
    lemma_count_spaces(seq![mark], mark, a);
    lemma_count_one(head, mark);
    lemma_count_spaces(head + seq![mark], mark, b);
    lemma_count_one(middle, mark);
    lemma_count_one(Seq::empty(), mark);
    assert(Seq::<char>::empty() + seq![mark] =~= seq![mark]);
    assert(line =~= middle + seq![mark]);
    assert forall|k: int| 0 <= k < line.len() implies #[trigger] line[k] == line[0] || line[k]
        == ' ' || line[k] == '\t' by {}
    reveal(grammar::separator_line);
}

proof fn lemma_count_one(s: Seq<char>, c: char)
    ensures
        grammar::count_char(s + seq![c], c) == grammar::count_char(s, c) + 1,
{
    assert((s + seq![c]).drop_last() =~= s);
}

proof fn lemma_count_spaces(s: Seq<char>, c: char, n: nat)
    requires
        c != ' ',
    ensures
        grammar::count_char(s + run_of(' ', n), c) == grammar::count_char(s, c),
    decreases n,
{
    let all = s + run_of(' ', n);
    if n > 0 {
        lemma_count_spaces(s, c, (n - 1) as nat);
        assert(all.drop_last() =~= s + run_of(' ', (n - 1) as nat));
    } else {
        assert(all =~= s);
    }
}

proof fn lemma_short_run(mark: char, n: nat)
    requires
        mark == '-' || mark == '*' || mark == '_' || mark == '=',
        n < 3,
    ensures
        !grammar::separator_line(run_of(mark, n)),
        grammar::setext_underline(run_of(mark, n)) is None,
{
    let line = run_of(mark, n);
    text::lemma_run_len_is(line, ' ', 0);
    assert(line.skip(0) =~= line);
    text::lemma_trimmed_end_is(line, line.len() as int);
    assert(line.subrange(0, line.len() as int) =~= line);
    reading_laws::lemma_count_of_run(mark, n);
    reveal(grammar::separator_line);
    reveal(grammar::setext_underline);
}

/// A line with another character among its marks is no separator and no underline.
pub proof fn other_characters_end_a_line_of_marks(line: Seq<char>, k: int)
    requires
        reading_laws::trimmed_text(line),
        0 <= k < line.len(),
        line[k] != line[0],
    ensures
        grammar::setext_underline(line) is None,
        line[k] != ' ' && line[k] != '\t' ==> !grammar::separator_line(line),
{
    reading_laws::lemma_start(line);
    text::lemma_trimmed_end_is(line, line.len() as int);
    assert(line.subrange(0, line.len() as int) =~= line);
    text::lemma_run_len_bound(line, '=');
    text::lemma_run_len_bound(line, '-');
    reveal(grammar::separator_line);
    reveal(grammar::setext_underline);
}

/// Fewer than three backquotes or tildes open no code, and code is closed by just as many
/// marks of the kind that opened it.
pub proof fn fences_close_with_their_own_marks(mark: char, n: nat, opener: FenceView)
    requires
        mark == '`' || mark == '~',
        n >= 1,
    ensures
        n < 3 ==> grammar::opening_fence(run_of(mark, n)) is None,
        n >= 3 ==> grammar::opening_fence(run_of(mark, n)) == Some(
            FenceView { ch: mark, len: n, language: None },
        ),
        grammar::closing_fence(run_of(mark, n), opener) <==> mark == opener.ch && n == opener.len,
{
    let line = run_of(mark, n);
    reading_laws::lemma_start(line);
    text::lemma_trimmed_end_is(line, line.len() as int);
    assert(line.subrange(0, line.len() as int) =~= line);
    text::lemma_run_len_is(line, mark, n);
    if mark != opener.ch {
        text::lemma_run_len_is(line, opener.ch, 0);
    }
    let rest = line.skip(n as int);
    assert(rest =~= Seq::empty());
    text::blank_iff_trimmed_is_empty(rest);
    assert(text::blank(rest));
    reveal_strlit("`");
    assert(!text::occurs(Seq::empty(), "`"@));
    reveal(grammar::opening_fence);
    reveal(grammar::closing_fence);
    assert(text::trimmed(rest) =~= Seq::empty());
}

/// A number of more than nine digits marks no item of a list, and neither does one with
/// no dot or bracket behind it.
pub proof fn other_numbers_mark_no_item(digits: Seq<char>, c: char, rest: Seq<char>)
    requires
        digits.len() >= 1,
        forall|k: int| 0 <= k < digits.len() ==> '0' <= #[trigger] digits[k] <= '9',
        !('0' <= c <= '9'),
    ensures
        digits.len() > 9 ==> grammar::list_marker(digits + seq![c] + rest) is None,
        c != '.' && c != ')' ==> grammar::list_marker(digits + seq![c] + rest) is None,
        rest.len() == 0 || (rest[0] != ' ' && rest[0] != '\t') ==> grammar::list_marker(
            digits + seq![c] + rest,
        ) is None,
{
    let line = digits + seq![c] + rest;
    let n = digits.len();
    assert(line[0] == digits[0]);
    reading_laws::lemma_start(line);
    assert forall|k: int| 0 <= k < n implies '0' <= #[trigger] line[k] <= '9' by {
        assert(line[k] == digits[k]);
    }
    assert(line[n as int] == c);
    grammar::lemma_digit_run_is(line, n);
    assert(line.skip(0) =~= line);
    if rest.len() > 0 {
        assert(line[n as int + 1] == rest[0]);
    }
    reveal(grammar::list_marker);
}

// ---------------------------------------------------------------------------
// Nested lists
// ---------------------------------------------------------------------------

/// Whether lines are list items that are indented by two spaces.
pub open spec fn indented_items(lines: Lines, texts: Lines, mark: char) -> bool {
    &&& lines.len() == texts.len()
    &&& forall|k: int|
        0 <= k < lines.len() ==> #[trigger] lines[k] == seq![' ', ' ', mark, ' '] + texts[k]
}

proof fn lemma_indented_item(mark: char, title: Seq<char>)
    requires
        mark == '-' || mark == '*' || mark == '+',
        title.len() > 0,
        title[0] != '[',
    ensures
        ({
            let line = seq![' ', ' ', mark, ' '] + title;
            &&& !text::blank(line)
            &&& grammar::indent_columns(line) == 2
            &&& grammar::list_marker(line) matches Some(marker) && marker.indent_columns == 2
            &&& grammar::dedented(line, 2) == seq![mark, ' '] + title
        }),
{
    let line = seq![' ', ' ', mark, ' '] + title;
    assert(!text::is_space(line[2]));
    text::lemma_trimmed_start_is(line, 2);
    text::blank_iff_trimmed_is_empty(line);
    assert(!text::blank(line)) by {
        if text::blank(line) {
            assert(text::is_space(line[2]));
        }
    }
    grammar::lemma_indent_len_is(line, 2);
    assert(line.take(2) =~= seq![' ', ' ']);
    assert(line.take(1) =~= seq![' ']);
    assert(seq![' ', ' '].drop_last() =~= seq![' ']);
    assert(seq![' '].drop_last() =~= Seq::empty());
    assert(grammar::columns_of(Seq::empty()) == 0);
    assert(grammar::columns_of(seq![' ']) == 1);
    assert(grammar::columns_of(seq![' ', ' ']) == 2);
    assert(line.skip(2) =~= seq![mark, ' '] + title);
    assert(line[0] == ' ' && line[1] == ' ');
    assert(grammar::strip_columns_from(line, 2, 1) == Some(line.skip(2)));
    assert(grammar::strip_columns_from(line, 2, 0) == Some(line.skip(2)));
    reveal(grammar::list_marker);
}

proof fn lemma_items_go_on(lines: Lines, texts: Lines, mark: char, index: int)
    requires
        mark == '-' || mark == '*' || mark == '+',
        lines.len() == texts.len() + 1,
        indented_items(lines.skip(1), texts, mark),
        plain_lines(texts),
        1 <= index <= lines.len(),
    ensures
        regions::item_end_from(lines, index, 0, 0) == lines.len(),
    decreases lines.len() - index,
{
    if index < lines.len() {
        assert(lines[index] == lines.skip(1)[index - 1]);
        assert(plain_text(texts[index - 1]));
        lemma_indented_item(mark, texts[index - 1]);
        lemma_items_go_on(lines, texts, mark, index + 1);
    }
}

/// List items that are indented by two spaces lie under the item before them, in their
/// order.
pub proof fn indented_items_lie_under_the_item_before(
    title: Seq<char>,
    texts: Lines,
    mark: char,
    native: bool,
    semantic: Lines,
)
    requires
        mark == '-' || mark == '*' || mark == '+',
        plain_text(title),
        texts.len() > 0,
        plain_lines(texts),
    ensures
        ({
            let lines = seq![seq![mark, ' '] + title] + Seq::new(
                texts.len(),
                |k: int| seq![' ', ' ', mark, ' '] + texts[k],
            );
            let items = import_model::blocks_of(lines, native, semantic);
            &&& items.len() == 1
            &&& items[0].kind is BulletedListItem
            &&& items[0].title == block_of(BlockKind::BulletedListItem, title).title
            &&& items[0].children == Seq::new(
                texts.len(),
                |k: int| block_of(BlockKind::BulletedListItem, texts[k]),
            )
        }),
{
    let lines = seq![seq![mark, ' '] + title] + Seq::new(
        texts.len(),
        |k: int| seq![' ', ' ', mark, ' '] + texts[k],
    );
    let body = lines.subrange(1, lines.len() as int);
    let all = Seq::new(texts.len(), |k: int| block_of(BlockKind::BulletedListItem, texts[k]));
    reading_laws::lemma_bullet_marker(mark, title);
    assert(lines.skip(1) =~= body);
    assert forall|k: int| 0 <= k < body.len() implies #[trigger] body[k] == seq![
        ' ',
        ' ',
        mark,
        ' ',
    ] + texts[k] by {}
    lemma_items_go_on(lines, texts, mark, 1);
    assert(plain_text(texts[0]));
    lemma_indented_item(mark, texts[0]);
    assert(body[0] == seq![' ', ' ', mark, ' '] + texts[0]);
    let anchored = import_model::dedent_all(body, 2);
    assert forall|k: int| 0 <= k < anchored.len() implies #[trigger] anchored[k] == seq![mark, ' ']
        + texts[k] by {
        assert(body[k] == seq![' ', ' ', mark, ' '] + texts[k]);
        assert(plain_text(texts[k]));
        lemma_indented_item(mark, texts[k]);
    }
    assert forall|k: int| 0 <= k < texts.len() implies (#[trigger] texts[k]).len() > 0
        && texts[k][0] != '[' by {
        assert(plain_text(texts[k]));
    }
    reading_laws::lemma_bullets(anchored, texts, mark, semantic, 0);
    reading_laws::lemma_bullet_marker(mark, texts[0]);
    assert(anchored[0] == seq![mark, ' '] + texts[0]);
    assert(body.subrange(0, body.len() as int) =~= body);
    assert(import_model::list_blocks(anchored, semantic, 0).0 =~= all);
    lemma_nested(lines, title, texts, mark, native, semantic, all);
}

proof fn lemma_nested(
    lines: Lines,
    title: Seq<char>,
    texts: Lines,
    mark: char,
    native: bool,
    semantic: Lines,
    all: import_model::Blocks,
)
    requires
        mark == '-' || mark == '*' || mark == '+',
        lines.len() == texts.len() + 1,
        texts.len() > 0,
        plain_text(title),
        plain_lines(texts),
        lines[0] == seq![mark, ' '] + title,
        lines[1] == seq![' ', ' ', mark, ' '] + texts[0],
        regions::item_end_from(lines, 1, 0, 0) == lines.len(),
        ({
            let body = lines.subrange(1, lines.len() as int);
            let anchored = import_model::dedent_all(body, 2);
            &&& body.subrange(0, body.len() as int) == body
            &&& grammar::list_marker(anchored[0]) is Some
            &&& import_model::list_blocks(anchored, semantic, 0) == (all, lines.len() - 1)
        }),
    ensures
        ({
            let items = import_model::blocks_of(lines, native, semantic);
            &&& items.len() == 1
            &&& items[0].kind is BulletedListItem
            &&& items[0].title == block_of(BlockKind::BulletedListItem, title).title
            &&& items[0].children == all
        }),
{
    let body = lines.subrange(1, lines.len() as int);
    reading_laws::lemma_bullet_marker(mark, title);
    reading_laws::lemma_start(lines[0]);
    reading_laws::lemma_not_started(lines[0]);
    reading_laws::lemma_no_comment(lines, 0);
    assert(plain_text(texts[0]));
    lemma_indented_item(mark, texts[0]);
    assert(body[0] == lines[1]);
    let marker = grammar::list_marker(lines[0])->0;
    let first = seq![InlineFragment { markdown: true, text: title }];
    let columns = marker.content_indent_columns;
    assert(import_model::item_body(
        body,
        semantic,
        0,
        columns,
        body.len() as int,
        false,
        true,
        first,
        Seq::empty() + all,
    ) == Some((first, Seq::empty() + all)));
    assert(Seq::empty() + all =~= all);
    let item = import_model::list_item(lines, semantic, 0);
    assert(item.children == all);
    let rest = import_model::list_blocks(lines, semantic, lines.len() as int);
    assert(rest.0 =~= Seq::empty());
    assert(import_model::list_blocks(lines, semantic, 0).0 =~= seq![item]);
    lemma_no_underline(mark, texts[0]);
    reading_laws::lemma_one_block(lines, native, semantic, item);
}

proof fn lemma_no_underline(mark: char, title: Seq<char>)
    requires
        mark == '-' || mark == '*' || mark == '+',
        plain_text(title),
    ensures
        grammar::setext_underline(seq![' ', ' ', mark, ' '] + title) is None,
{
    let line = seq![mark, ' '] + title;
    let all = seq![' ', ' ', mark, ' '] + title;
    assert(all =~= run_of(' ', 2) + line);
    reading_laws::lemma_plain(title);
    assert(line[line.len() - 1] == title[title.len() - 1]);
    up_to_three_spaces_do_not_matter(2, line, FenceView { ch: '`', len: 3, language: None });
    assert(line[1] == ' ');
    other_characters_end_a_line_of_marks(line, 1);
}

} // verus!
