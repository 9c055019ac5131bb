//! Recognizers for the block syntax of a single line.
//!
//! Each recognizer reads one source line and says which block construct, if
//! any, starts or ends there.

use crate::blocks;
use crate::blocks::{BlockKind, CalloutVariant};
use crate::text;
use crate::text::{
    chars_of, contains, eq_ignore_ascii_case, find_from, has_prefix, is_blank, leading_run,
    slice_text, trim, trim_end,
};
use vstd::prelude::*;

verus! {

/// The opening line of a fenced code block: the marker character, the length
/// of its run and the info string behind it.
///
/// Only a closing fence with the same character and run length ends the block.
#[derive(Debug, PartialEq, Eq)]
pub struct CodeFenceOpening {
    pub ch: char,
    pub len: usize,
    pub language: Option<String>,
}

/// The model of an opening fence.
pub struct FenceView {
    pub ch: char,
    pub len: nat,
    pub language: Option<Seq<char>>,
}

impl View for CodeFenceOpening {
    type V = FenceView;

    open spec fn view(&self) -> FenceView {
        FenceView { ch: self.ch, len: self.len as nat, language: blocks::opt_text(self.language) }
    }
}

/// How an HTML block starts.
#[derive(Debug, PartialEq, Eq)]
pub enum HtmlBlockStart<T> {
    /// A comment that begins with `<!--`.
    Comment,
    /// A tag; where the block ends depends on the tag's shape.
    Tag { name: T, self_closing: bool, closes_same_line: bool },
}

impl View for HtmlBlockStart<String> {
    type V = HtmlBlockStart<Seq<char>>;

    open spec fn view(&self) -> HtmlBlockStart<Seq<char>> {
        match *self {
            HtmlBlockStart::Comment => HtmlBlockStart::Comment,
            HtmlBlockStart::Tag { name, self_closing, closes_same_line } => HtmlBlockStart::Tag {
                name: name@,
                self_closing,
                closes_same_line,
            },
        }
    }
}

/// A list item's marker as one source line shows it. Columns are counted in
/// `u128`, which no line is long enough to exceed.
#[derive(Debug, PartialEq, Eq)]
pub struct ListMarker {
    pub kind: BlockKind<String>,
    pub indent_columns: u128,
    pub content_indent_columns: u128,
    pub text: String,
}

/// The model of a list item's marker.
#[verifier::ext_equal]
pub struct MarkerView {
    pub kind: BlockKind<Seq<char>>,
    pub indent_columns: nat,
    pub content_indent_columns: nat,
    pub text: Seq<char>,
}

impl View for ListMarker {
    type V = MarkerView;

    open spec fn view(&self) -> MarkerView {
        MarkerView {
            kind: self.kind@,
            indent_columns: self.indent_columns as nat,
            content_indent_columns: self.content_indent_columns as nat,
            text: self.text@,
        }
    }
}

/// The view of an optional value.
pub open spec fn opt_view<T: View>(value: Option<T>) -> Option<T::V> {
    match value {
        Some(v) => Some(v@),
        None => None,
    }
}

/// The text of an optional slice.
pub open spec fn opt_str(value: Option<&str>) -> Option<Seq<char>> {
    match value {
        Some(v) => Some(v@),
        None => None,
    }
}

// ---------------------------------------------------------------------------
// Indentation
// ---------------------------------------------------------------------------

/// `line` without its leading spaces, if there are at most three of them.
pub open spec fn fence_body(line: Seq<char>) -> Option<Seq<char>> {
    if text::run_len(line, ' ') <= 3 {
        Some(line.skip(text::run_len(line, ' ') as int))
    } else {
        None
    }
}

/// The line without the indentation that a code fence may have.
pub fn strip_fence_indent(line: &str) -> (r: Option<&str>)
    ensures
        opt_str(r) == fence_body(line@),
{
    let cs = chars_of(line);
    let indent: usize = leading_run(cs.as_slice(), ' ');
    if indent <= 3 {
        Some(slice_text(line, indent, cs.len()))
    } else {
        None
    }
}

/// The column after a character that starts at `columns`; tab stops are four
/// columns apart.
pub open spec fn next_column(columns: nat, c: char) -> nat {
    if c == '\t' {
        (columns + 4 - columns % 4) as nat
    } else {
        columns + 1
    }
}

/// How many columns `s` takes up.
pub open spec fn columns_of(s: Seq<char>) -> nat
    decreases s.len(),
{
    if s.len() == 0 {
        0
    } else {
        next_column(columns_of(s.drop_last()), s.last())
    }
}

/// How many spaces and tabs stand at the start of `line`.
pub open spec fn indent_len(line: Seq<char>) -> nat
    decreases line.len(),
{
    if line.len() > 0 && (line[0] == ' ' || line[0] == '\t') {
        1 + indent_len(line.drop_first())
    } else {
        0
    }
}

/// How many columns the spaces and tabs at the start of `line` take up.
pub open spec fn indent_columns(line: Seq<char>) -> nat {
    columns_of(line.take(indent_len(line) as int))
}

/// Indentation takes at least one column, and at most four for each character.
pub proof fn lemma_columns_bound(s: Seq<char>)
    ensures
        columns_of(s) <= 4 * s.len(),
        s.len() > 0 ==> columns_of(s) > 0,
    decreases s.len(),
{
    if s.len() > 0 {
        lemma_columns_bound(s.drop_last());
    }
}

/// The indentation ends at the first character that is no blank.
pub proof fn lemma_indent_len_is(line: Seq<char>, n: nat)
    requires
        n <= line.len(),
        forall|i: int| 0 <= i < n ==> line[i] == ' ' || line[i] == '\t',
        n < line.len() ==> line[n as int] != ' ' && line[n as int] != '\t',
    ensures
        indent_len(line) == n,
    decreases line.len(),
{
    if n > 0 {
        assert(line[0] == ' ' || line[0] == '\t');
        let rest = line.drop_first();
        assert forall|i: int| 0 <= i < n - 1 implies rest[i] == ' ' || rest[i] == '\t' by {
            assert(rest[i] == line[i + 1]);
        }
        lemma_indent_len_is(rest, (n - 1) as nat);
    }
}

/// The indentation is no longer than the text.
pub proof fn lemma_indent_len_bound(line: Seq<char>)
    ensures
        indent_len(line) <= line.len(),
    decreases line.len(),
{
    if line.len() > 0 {
        lemma_indent_len_bound(line.drop_first());
    }
}

/// The column behind a character at a column.
pub fn advance_column(columns: u128, c: char) -> (r: u128)
    requires
        columns <= 0x1_0000_0000_0000_0000_0000,
    ensures
        r == next_column(columns as nat, c),
{
    if c == '\t' {
        columns + (4 - columns % 4)
    } else {
        columns + 1
    }
}

/// The columns and the characters that the spaces and tabs at the start of
/// `line` take up.
pub fn leading_indent_columns_and_bytes(line: &str) -> (r: (u128, usize))
    ensures
        r.0 == indent_columns(line@),
        r.1 == indent_len(line@),
        r.1 <= line@.len(),
{
    let cs = chars_of(line);
    let n: usize = cs.len();
    let mut columns: u128 = 0;
    let mut len: usize = 0;
    while len < n && (cs[len] == ' ' || cs[len] == '\t')
        invariant
            n == cs@.len(),
            cs@ == line@,
            len <= n,
            columns == columns_of(line@.take(len as int)),
            columns <= 4 * len,
            forall|i: int| 0 <= i < len ==> line@[i] == ' ' || line@[i] == '\t',
        decreases n - len,
    {
        proof {
            assert(line@.take(len + 1).drop_last() =~= line@.take(len as int));
            lemma_columns_bound(line@.take(len + 1));
        }
        columns = advance_column(columns, cs[len]);
        len = len + 1;
    }
    proof {
        lemma_indent_len_is(line@, len as nat);
    }
    (columns, len)
}

/// How many columns `value` takes up.
pub fn display_columns(value: &str) -> (r: u128)
    ensures
        r == columns_of(value@),
{
    let cs = chars_of(value);
    let n: usize = cs.len();
    let mut columns: u128 = 0;
    let mut len: usize = 0;
    while len < n
        invariant
            n == cs@.len(),
            cs@ == value@,
            len <= n,
            columns == columns_of(value@.take(len as int)),
            columns <= 4 * len,
        decreases n - len,
    {
        proof {
            assert(value@.take(len + 1).drop_last() =~= value@.take(len as int));
            lemma_columns_bound(value@.take(len + 1));
        }
        columns = advance_column(columns, cs[len]);
        len = len + 1;
    }
    assert(value@.take(n as int) =~= value@);
    columns
}

/// `line` without the prefix that makes it indented code: a tab or four spaces.
pub open spec fn indented_code_body(line: Seq<char>) -> Option<Seq<char>> {
    if line.len() > 0 && line[0] == '\t' {
        Some(line.skip(1))
    } else if "    "@.is_prefix_of(line) {
        Some(line.skip(4))
    } else {
        None
    }
}

/// The line without the indentation that makes it code.
pub fn strip_indented_code_prefix(line: &str) -> (r: Option<&str>)
    ensures
        opt_str(r) == indented_code_body(line@),
{
    let cs = chars_of(line);
    proof {
        reveal_strlit("    ");
    }
    if cs.len() > 0 && cs[0] == '\t' {
        Some(slice_text(line, 1, cs.len()))
    } else if has_prefix(line, "    ") {
        Some(slice_text(line, 4, cs.len()))
    } else {
        None
    }
}

/// Strips from the `k`-th character on until `columns` columns are gone.
pub open spec fn strip_columns_from(line: Seq<char>, columns: nat, k: int) -> Option<Seq<char>>
    decreases line.len() - k,
{
    if k < 0 || k >= line.len() || (line[k] != ' ' && line[k] != '\t') {
        None
    } else if columns_of(line.take(k + 1)) >= columns {
        Some(line.skip(k + 1))
    } else {
        strip_columns_from(line, columns, k + 1)
    }
}

/// `line` without its first `columns` columns of spaces and tabs. A blank line
/// becomes empty; a line with less indentation has no such rest.
pub open spec fn without_columns(line: Seq<char>, columns: nat) -> Option<Seq<char>> {
    if columns == 0 {
        Some(line)
    } else if text::blank(line) {
        Some(Seq::empty())
    } else {
        strip_columns_from(line, columns, 0)
    }
}

/// The line without this many columns of indentation, if it has them.
pub fn strip_leading_columns(line: &str, columns: u128) -> (r: Option<&str>)
    ensures
        opt_str(r) == without_columns(line@, columns as nat),
{
    if columns == 0 {
        return Some(line);
    }
    let cs = chars_of(line);
    let n: usize = cs.len();
    if is_blank(line) {
        let empty = slice_text(line, 0, 0);
        assert(empty@ =~= Seq::empty());
        return Some(empty);
    }
    let mut consumed: u128 = 0;
    let mut k: usize = 0;
    while k < n && (cs[k] == ' ' || cs[k] == '\t')
        invariant
            n == cs@.len(),
            cs@ == line@,
            k <= n,
            columns > 0,
            !text::blank(line@),
            consumed == columns_of(line@.take(k as int)),
            consumed <= 4 * k,
            strip_columns_from(line@, columns as nat, 0) == strip_columns_from(
                line@,
                columns as nat,
                k as int,
            ),
        decreases n - k,
    {
        proof {
            assert(line@.take(k + 1).drop_last() =~= line@.take(k as int));
            lemma_columns_bound(line@.take(k + 1));
        }
        consumed = advance_column(consumed, cs[k]);
        if consumed >= columns {
            return Some(slice_text(line, k + 1, n));
        }
        k = k + 1;
    }
    None
}

/// `line` without its first `columns` columns, or as it is if it has fewer.
pub open spec fn dedented(line: Seq<char>, columns: nat) -> Seq<char> {
    match without_columns(line, columns) {
        Some(rest) => rest,
        None => line,
    }
}

/// The line without this many columns of indentation, or without all that it has.
pub fn dedent_line(line: &str, columns: u128) -> (r: String)
    ensures
        r@ == dedented(line@, columns as nat),
{
    match strip_leading_columns(line, columns) {
        Some(rest) => String::from_str(rest),
        None => String::from_str(line),
    }
}

// ---------------------------------------------------------------------------
// Fences
// ---------------------------------------------------------------------------

impl BlockKind<String> {
    /// Reads an opening code fence at the start of `text`.
    pub fn parse_code_fence_opening(text: &str) -> (r: Option<CodeFenceOpening>)
        ensures
            opt_view(r) == fence_opening(text@),
    {
        let cs = chars_of(text);
        if cs.len() == 0 {
            return None;
        }
        let ch = cs[0];
        if ch != '`' && ch != '~' {
            return None;
        }
        let len: usize = leading_run(cs.as_slice(), ch);
        if len < 3 {
            return None;
        }
        let rest = slice_text(text, len, cs.len());
        let info = trim(rest);
        if ch == '`' && contains(info, "`") {
            return None;
        }
        let language = if info.is_empty() {
            None
        } else {
            Some(String::from_str(info))
        };
        Some(CodeFenceOpening { ch, len, language })
    }
}

/// The opening code fence at the start of `s`: at least three equal backticks
/// or tildes, then the info string, which must not hold a backtick behind
/// backticks.
pub open spec fn fence_opening(s: Seq<char>) -> Option<FenceView> {
    if s.len() == 0 || (s[0] != '`' && s[0] != '~') {
        None
    } else {
        let len = text::run_len(s, s[0]);
        let info = text::trimmed(s.skip(len as int));
        if len < 3 || (s[0] == '`' && text::occurs(info, "`"@)) {
            None
        } else {
            Some(
                FenceView {
                    ch: s[0],
                    len,
                    language: if info.len() == 0 {
                        None
                    } else {
                        Some(info)
                    },
                },
            )
        }
    }
}

/// The opening code fence that `line` holds.
#[verifier::opaque]
pub open spec fn opening_fence(line: Seq<char>) -> Option<FenceView> {
    match fence_body(line) {
        Some(rest) => fence_opening(text::trimmed_end(rest)),
        None => None,
    }
}

/// The code fence that a line opens.
pub fn parse_opening_fence(line: &str) -> (r: Option<CodeFenceOpening>)
    ensures
        opt_view(r) == opening_fence(line@),
{
    reveal(opening_fence);
    match strip_fence_indent(line) {
        Some(rest) => BlockKind::parse_code_fence_opening(trim_end(rest)),
        None => None,
    }
}

/// Whether `line` closes the block that `opener` opened.
#[verifier::opaque]
pub open spec fn closing_fence(line: Seq<char>, opener: FenceView) -> bool {
    match fence_body(line) {
        Some(rest) => {
            let body = text::trimmed_end(rest);
            let run = text::run_len(body, opener.ch);
            &&& run >= 1
            &&& run == opener.len
            &&& text::blank(body.skip(run as int))
        },
        None => false,
    }
}

/// Whether a line closes the code block that a fence opened.
pub fn is_closing_fence(line: &str, opener: &CodeFenceOpening) -> (r: bool)
    ensures
        r == closing_fence(line@, opener@),
{
    reveal(closing_fence);
    match strip_fence_indent(line) {
        Some(rest) => {
            let body = trim_end(rest);
            let cs = chars_of(body);
            let run: usize = leading_run(cs.as_slice(), opener.ch);
            run >= 1 && run == opener.len && is_blank(slice_text(body, run, cs.len()))
        },
        None => false,
    }
}

/// Whether `language` names a Mermaid diagram.
#[verifier::opaque]
pub open spec fn mermaid_info(language: Option<Seq<char>>) -> bool {
    match language {
        Some(info) => text::same_ignoring_ascii_case(info, "mermaid"@) || text::same_ignoring_ascii_case(
            info,
            "mmd"@,
        ),
        None => false,
    }
}

/// Whether the language of a code block is that of Mermaid diagrams.
pub fn is_mermaid_info_string(language: &Option<String>) -> (r: bool)
    ensures
        r == mermaid_info(blocks::opt_text(*language)),
{
    reveal(mermaid_info);
    match language {
        Some(info) => eq_ignore_ascii_case(info.as_str(), "mermaid") || eq_ignore_ascii_case(
            info.as_str(),
            "mmd",
        ),
        None => false,
    }
}

// ---------------------------------------------------------------------------
// Headings and separators
// ---------------------------------------------------------------------------

/// The level and the content of the ATX heading that `line` holds.
#[verifier::opaque]
pub open spec fn atx_heading(line: Seq<char>) -> Option<(u8, Seq<char>)> {
    match fence_body(line) {
        Some(rest) => {
            let level = text::run_len(rest, '#');
            let after = rest.skip(level as int);
            if 1 <= level <= 6 && (after.len() == 0 || after[0] == ' ' || after[0] == '\t') {
                Some((level as u8, text::trimmed(after)))
            } else {
                None
            }
        },
        None => None,
    }
}

/// The text of an optional heading.
pub open spec fn opt_heading(value: Option<(u8, String)>) -> Option<(u8, Seq<char>)> {
    match value {
        Some(v) => Some((v.0, v.1@)),
        None => None,
    }
}

/// Whether `line` is a thematic break: at least three equal `-`, `*` or `_`
/// with nothing but spaces and tabs between them.
#[verifier::opaque]
pub open spec fn separator_line(line: Seq<char>) -> bool {
    match fence_body(line) {
        Some(rest) => {
            let body = text::trimmed_end(rest);
            &&& body.len() > 0
            &&& (body[0] == '-' || body[0] == '*' || body[0] == '_')
            &&& forall|i: int|
                0 <= i < body.len() ==> #[trigger] body[i] == body[0] || body[i] == ' ' || body[i]
                    == '\t'
            &&& count_char(body, body[0]) >= 3
        },
        None => false,
    }
}

/// How often `c` stands in `s`.
pub open spec fn count_char(s: Seq<char>, c: char) -> nat
    decreases s.len(),
{
    if s.len() == 0 {
        0
    } else {
        count_char(s.drop_last(), c) + (if s.last() == c {
            1nat
        } else {
            0nat
        })
    }
}

/// The heading level that `line` gives to the line above it: at least three
/// `=` or three `-` and nothing else.
#[verifier::opaque]
pub open spec fn setext_underline(line: Seq<char>) -> Option<u8> {
    match fence_body(line) {
        Some(rest) => {
            let body = text::trimmed_end(rest);
            if body.len() >= 3 && text::run_len(body, '=') == body.len() {
                Some(1u8)
            } else if body.len() >= 3 && text::run_len(body, '-') == body.len() {
                Some(2u8)
            } else {
                None
            }
        },
        None => None,
    }
}

/// Whether a task list item starts in `text`, whether it is checked, and how
/// many characters its box takes up.
pub open spec fn task_prefix(text: Seq<char>) -> Option<(bool, nat)> {
    if "[ ] "@.is_prefix_of(text) {
        Some((false, 4nat))
    } else if "[x] "@.is_prefix_of(text) || "[X] "@.is_prefix_of(text) {
        Some((true, 4nat))
    } else {
        None
    }
}

impl BlockKind<String> {
    /// Reads an ATX heading line.
    pub fn parse_atx_heading_line(line: &str) -> (r: Option<(u8, String)>)
        ensures
            opt_heading(r) == atx_heading(line@),
    {
        reveal(atx_heading);
        match strip_fence_indent(line) {
            Some(rest) => {
                let cs = chars_of(rest);
                let level: usize = leading_run(cs.as_slice(), '#');
                if level < 1 || level > 6 {
                    return None;
                }
                if level < cs.len() && cs[level] != ' ' && cs[level] != '\t' {
                    return None;
                }
                let after = slice_text(rest, level, cs.len());
                Some((level as u8, String::from_str(trim(after))))
            },
            None => None,
        }
    }

    /// Whether `line` is a thematic break.
    pub fn parse_separator_line(line: &str) -> (r: bool)
        ensures
            r == separator_line(line@),
    {
        reveal(separator_line);
        match strip_fence_indent(line) {
            Some(rest) => {
                let body = trim_end(rest);
                let cs = chars_of(body);
                if cs.len() == 0 {
                    return false;
                }
                let marker = cs[0];
                if marker != '-' && marker != '*' && marker != '_' {
                    return false;
                }
                let mut count: usize = 0;
                let mut k: usize = 0;
                assert(body@.take(0) =~= Seq::empty());
                while k < cs.len()
                    invariant
                        cs@ == body@,
                        fence_body(line@) == Some(rest@),
                        body@ == text::trimmed_end(rest@),
                        k <= cs@.len(),
                        count <= k,
                        cs@.len() > 0,
                        marker == body@[0],
                        count == count_char(body@.take(k as int), marker),
                        forall|i: int|
                            0 <= i < k ==> #[trigger] body@[i] == marker || body@[i] == ' '
                                || body@[i] == '\t',
                    decreases cs@.len() - k,
                {
                    assert(body@.take(k + 1).drop_last() =~= body@.take(k as int));
                    if cs[k] == marker {
                        count = count + 1;
                    } else if cs[k] != ' ' && cs[k] != '\t' {
                        proof {
                            reveal(separator_line);
                            assert(body@[k as int] != marker);
                        }
                        return false;
                    }
                    k = k + 1;
                }
                assert(body@.take(k as int) =~= body@);
                count >= 3
            },
            None => false,
        }
    }

    /// The heading level that an underline of `=` or `-` gives.
    pub fn parse_setext_underline(line: &str) -> (r: Option<u8>)
        ensures
            r == setext_underline(line@),
    {
        reveal(setext_underline);
        match strip_fence_indent(line) {
            Some(rest) => {
                let body = trim_end(rest);
                let cs = chars_of(body);
                if cs.len() < 3 {
                    None
                } else if leading_run(cs.as_slice(), '=') == cs.len() {
                    Some(1)
                } else if leading_run(cs.as_slice(), '-') == cs.len() {
                    Some(2)
                } else {
                    None
                }
            },
            None => None,
        }
    }

    /// Reads the box of a task list item.
    pub fn parse_task_list_item_prefix(text: &str) -> (r: Option<(bool, usize)>)
        ensures
            r matches Some(p) ==> task_prefix(text@) == Some((p.0, p.1 as nat)) && p.1
                <= text@.len(),
            r is None ==> task_prefix(text@) is None,
    {
        proof {
            reveal_strlit("[ ] ");
            reveal_strlit("[x] ");
            reveal_strlit("[X] ");
        }
        if has_prefix(text, "[ ] ") {
            Some((false, 4))
        } else if has_prefix(text, "[x] ") || has_prefix(text, "[X] ") {
            Some((true, 4))
        } else {
            None
        }
    }
}

// ---------------------------------------------------------------------------
// List markers
// ---------------------------------------------------------------------------

/// How many ASCII digits stand at the start of `s`.
pub open spec fn digit_run(s: Seq<char>) -> nat
    decreases s.len(),
{
    if s.len() > 0 && '0' <= s[0] <= '9' {
        1 + digit_run(s.drop_first())
    } else {
        0
    }
}

/// How many characters the ordered list marker at the start of `rest` takes
/// up: one to nine digits, a dot or a closing parenthesis, and a space or a tab.
pub open spec fn ordered_marker_len(rest: Seq<char>) -> Option<nat> {
    let digits = digit_run(rest);
    if 1 <= digits <= 9 && digits + 1 < rest.len() && (rest[digits as int] == '.' || rest[digits
        as int] == ')') && (rest[digits as int + 1] == ' ' || rest[digits as int + 1] == '\t') {
        Some(digits + 2)
    } else {
        None
    }
}

/// The list marker that `line` starts with.
#[verifier::opaque]
pub open spec fn list_marker(line: Seq<char>) -> Option<MarkerView> {
    let indent = indent_len(line);
    let rest = line.skip(indent as int);
    if rest.len() > 0 && (rest[0] == '-' || rest[0] == '*' || rest[0] == '+') {
        if rest.len() > 1 && (rest[1] == ' ' || rest[1] == '\t') {
            let text = rest.skip(2);
            Some(
                MarkerView {
                    kind: match task_prefix(text) {
                        Some(p) => BlockKind::TaskListItem { checked: p.0 },
                        None => BlockKind::BulletedListItem,
                    },
                    indent_columns: indent_columns(line),
                    content_indent_columns: columns_of(line.take(indent as int + 2)),
                    text: match task_prefix(text) {
                        Some(p) => text.skip(p.1 as int),
                        None => text,
                    },
                },
            )
        } else {
            None
        }
    } else {
        match ordered_marker_len(rest) {
            Some(len) => Some(
                MarkerView {
                    kind: BlockKind::NumberedListItem,
                    indent_columns: indent_columns(line),
                    content_indent_columns: columns_of(line.take((indent + len) as int)),
                    text: rest.skip(len as int),
                },
            ),
            None => None,
        }
    }
}

/// The digits end at the first character that is none.
pub proof fn lemma_digit_run_is(s: Seq<char>, n: nat)
    requires
        n <= s.len(),
        forall|i: int| 0 <= i < n ==> '0' <= #[trigger] s[i] <= '9',
        n < s.len() ==> !('0' <= s[n as int] <= '9'),
    ensures
        digit_run(s) == n,
    decreases s.len(),
{
    if n > 0 {
        let rest = s.drop_first();
        assert('0' <= s[0] <= '9');
        assert forall|i: int| 0 <= i < n - 1 implies '0' <= #[trigger] rest[i] <= '9' by {
            assert(rest[i] == s[i + 1]);
        }
        lemma_digit_run_is(rest, (n - 1) as nat);
    }
}

/// How many characters the ordered list marker at the start of `rest` takes up.
pub fn parse_ordered_list_marker(rest: &str) -> (r: Option<usize>)
    ensures
        r matches Some(len) ==> ordered_marker_len(rest@) == Some(len as nat) && len <= rest@.len(),
        r is None ==> ordered_marker_len(rest@) is None,
{
    let cs = chars_of(rest);
    let n: usize = cs.len();
    let mut digits: usize = 0;
    while digits < n && '0' <= cs[digits] && cs[digits] <= '9'
        invariant
            n == cs@.len(),
            cs@ == rest@,
            digits <= n,
            forall|i: int| 0 <= i < digits ==> '0' <= #[trigger] rest@[i] <= '9',
        decreases n - digits,
    {
        digits = digits + 1;
    }
    proof {
        lemma_digit_run_is(rest@, digits as nat);
    }
    if digits < 1 || digits > 9 || digits >= n || n - digits < 2 {
        return None;
    }
    if cs[digits] != '.' && cs[digits] != ')' {
        return None;
    }
    if cs[digits + 1] != ' ' && cs[digits + 1] != '\t' {
        return None;
    }
    Some(digits + 2)
}

/// The marker of the list item that a line starts.
pub fn parse_list_marker(line: &str) -> (r: Option<ListMarker>)
    ensures
        opt_view(r) == list_marker(line@),
{
    reveal(list_marker);
    let (indent_columns, indent) = leading_indent_columns_and_bytes(line);
    let cs = chars_of(line);
    let n: usize = cs.len();
    let rest = slice_text(line, indent, n);
    let rs = chars_of(rest);
    if rs.len() > 0 && (rs[0] == '-' || rs[0] == '*' || rs[0] == '+') {
        if rs.len() < 2 || (rs[1] != ' ' && rs[1] != '\t') {
            return None;
        }
        let text = slice_text(rest, 2, rs.len());
        let content_indent_columns: u128 = display_columns(slice_text(line, 0, indent + 2));
        proof {
            assert(line@.subrange(0, indent + 2) =~= line@.take(indent + 2));
        }
        match BlockKind::parse_task_list_item_prefix(text) {
            Some((checked, prefix_len)) => {
                let body = slice_text(text, prefix_len, rs.len() - 2);
                let marker = ListMarker {
                    kind: BlockKind::TaskListItem { checked },
                    indent_columns,
                    content_indent_columns,
                    text: String::from_str(body),
                };
                return Some(marker);
            },
            None => {
                return Some(
                    ListMarker {
                        kind: BlockKind::BulletedListItem,
                        indent_columns,
                        content_indent_columns,
                        text: String::from_str(text),
                    },
                );
            },
        }
    }
    match parse_ordered_list_marker(rest) {
        Some(len) => {
            let content_indent_columns: u128 = display_columns(slice_text(line, 0, indent + len));
            proof {
                assert(line@.subrange(0, indent + len) =~= line@.take(indent + len));
            }
            Some(
                ListMarker {
                    kind: BlockKind::NumberedListItem,
                    indent_columns,
                    content_indent_columns,
                    text: String::from_str(slice_text(rest, len, rs.len())),
                },
            )
        },
        None => None,
    }
}

// ---------------------------------------------------------------------------
// Quotes and callouts
// ---------------------------------------------------------------------------

/// `line` without one level of quoting: up to three spaces, `>` and one space.
#[verifier::opaque]
pub open spec fn unquoted(line: Seq<char>) -> Option<Seq<char>> {
    match fence_body(line) {
        Some(rest) => if rest.len() > 0 && rest[0] == '>' {
            if rest.len() > 1 && rest[1] == ' ' {
                Some(rest.skip(2))
            } else {
                Some(rest.skip(1))
            }
        } else {
            None
        },
        None => None,
    }
}

/// The line without its outermost quote marker.
pub fn strip_one_quote_level(line: &str) -> (r: Option<String>)
    ensures
        blocks::opt_text(r) == unquoted(line@),
{
    reveal(unquoted);
    match strip_fence_indent(line) {
        Some(rest) => {
            let cs = chars_of(rest);
            if cs.len() == 0 || cs[0] != '>' {
                None
            } else if cs.len() > 1 && cs[1] == ' ' {
                Some(String::from_str(slice_text(rest, 2, cs.len())))
            } else {
                Some(String::from_str(slice_text(rest, 1, cs.len())))
            }
        },
        None => None,
    }
}

/// Whether `line` starts with a quote marker.
#[verifier::opaque]
pub open spec fn quote_start(line: Seq<char>) -> bool {
    match fence_body(text::trimmed_end(line)) {
        Some(rest) => rest.len() > 0 && rest[0] == '>',
        None => false,
    }
}

/// Whether a line starts a quote.
pub fn is_quote_start(line: &str) -> (r: bool)
    ensures
        r == quote_start(line@),
{
    reveal(quote_start);
    match strip_fence_indent(trim_end(line)) {
        Some(rest) => {
            let cs = chars_of(rest);
            cs.len() > 0 && cs[0] == '>'
        },
        None => false,
    }
}

/// The variant that a callout header names.
pub open spec fn callout_variant(name: Seq<char>) -> Option<CalloutVariant> {
    if text::same_ignoring_ascii_case(name, "NOTE"@) {
        Some(CalloutVariant::Note)
    } else if text::same_ignoring_ascii_case(name, "TIP"@) {
        Some(CalloutVariant::Tip)
    } else if text::same_ignoring_ascii_case(name, "IMPORTANT"@) {
        Some(CalloutVariant::Important)
    } else if text::same_ignoring_ascii_case(name, "WARNING"@) {
        Some(CalloutVariant::Warning)
    } else if text::same_ignoring_ascii_case(name, "CAUTION"@) {
        Some(CalloutVariant::Caution)
    } else {
        None
    }
}

/// The variant and the title of the callout that the header `line` opens:
/// `[!NAME]` and then the title.
#[verifier::opaque]
pub open spec fn callout_header(line: Seq<char>) -> Option<(CalloutVariant, Seq<char>)> {
    let s = text::trimmed(line);
    if "[!"@.is_prefix_of(s) {
        match text::find_at(s, "]"@, 2) {
            Some(close) => match callout_variant(s.subrange(2, close)) {
                Some(variant) => Some((variant, text::trimmed(s.skip(close + 1)))),
                None => None,
            },
            None => None,
        }
    } else {
        None
    }
}

/// The text of an optional callout header.
pub open spec fn opt_callout(value: Option<(CalloutVariant, String)>) -> Option<
    (CalloutVariant, Seq<char>),
> {
    match value {
        Some(v) => Some((v.0, v.1@)),
        None => None,
    }
}

impl CalloutVariant {
    /// The variant that `name` stands for.
    pub fn from_name(name: &str) -> (r: Option<Self>)
        ensures
            r == callout_variant(name@),
    {
        if eq_ignore_ascii_case(name, "NOTE") {
            Some(CalloutVariant::Note)
        } else if eq_ignore_ascii_case(name, "TIP") {
            Some(CalloutVariant::Tip)
        } else if eq_ignore_ascii_case(name, "IMPORTANT") {
            Some(CalloutVariant::Important)
        } else if eq_ignore_ascii_case(name, "WARNING") {
            Some(CalloutVariant::Warning)
        } else if eq_ignore_ascii_case(name, "CAUTION") {
            Some(CalloutVariant::Caution)
        } else {
            None
        }
    }

    /// Reads a callout header line.
    pub fn parse_header_line(line: &str) -> (r: Option<(Self, String)>)
        ensures
            opt_callout(r) == callout_header(line@),
    {
        reveal(callout_header);
        let s = trim(line);
        proof {
            reveal_strlit("[!");
            reveal_strlit("]");
        }
        if !has_prefix(s, "[!") {
            return None;
        }
        let cs = chars_of(s);
        let n: usize = cs.len();
        let close_mark = chars_of("]");
        proof {
            text::lemma_find_at(s@, "]"@, 2);
        }
        match find_from(cs.as_slice(), close_mark.as_slice(), 2) {
            Some(close) => {
                match CalloutVariant::from_name(slice_text(s, 2, close)) {
                    Some(variant) => {
                        let title = trim(slice_text(s, close + 1, n));
                        Some((variant, String::from_str(title)))
                    },
                    None => None,
                }
            },
            None => None,
        }
    }
}

} // verus!
