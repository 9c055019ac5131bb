//! Recognizers for definitions, HTML, display math, images and inline code
//! runs.

use crate::blocks;
use crate::grammar;
use crate::grammar::{leading_indent_columns_and_bytes, strip_fence_indent, HtmlBlockStart};
use crate::text;
use crate::text::{
    chars_of, contains, eq_ignore_ascii_case, find_from, has_prefix, has_suffix, leading_run,
    slice_text, trim, trim_end, trim_start,
};
use vstd::prelude::*;

verus! {

// ---------------------------------------------------------------------------
// Reference and footnote definitions
// ---------------------------------------------------------------------------

/// Where the label of the definition that `rest` holds ends.
pub open spec fn label_end(rest: Seq<char>) -> Option<int> {
    text::find_at(rest, "]:"@, 0)
}

/// Whether `line` starts a link reference definition, `[label]:`.
#[verifier::opaque]
pub open spec fn reference_definition_start(line: Seq<char>) -> bool {
    match grammar::fence_body(text::trimmed_end(line)) {
        Some(rest) => match label_end(rest) {
            Some(end) => rest[0] == '[' && end > 1,
            None => false,
        },
        None => false,
    }
}

/// Whether a line starts the definition of a link reference.
pub fn is_reference_definition_start(line: &str) -> (r: bool)
    ensures
        r == reference_definition_start(line@),
{
    reveal(reference_definition_start);
    match strip_fence_indent(trim_end(line)) {
        Some(rest) => {
            let cs = chars_of(rest);
            let mark = chars_of("]:");
            proof {
                reveal_strlit("]:");
                text::lemma_find_at(rest@, "]:"@, 0);
            }
            match find_from(cs.as_slice(), mark.as_slice(), 0) {
                Some(end) => cs[0] == '[' && end > 1,
                None => false,
            }
        },
        None => false,
    }
}

/// Whether `line` starts a footnote definition, `[^label]:`.
#[verifier::opaque]
pub open spec fn footnote_definition_start(line: Seq<char>) -> bool {
    match grammar::fence_body(text::trimmed_end(line)) {
        Some(rest) => match label_end(rest) {
            Some(end) => "[^"@.is_prefix_of(rest) && end > 2,
            None => false,
        },
        None => false,
    }
}

/// Whether a line starts the definition of a footnote.
pub fn is_footnote_definition_start(line: &str) -> (r: bool)
    ensures
        r == footnote_definition_start(line@),
{
    reveal(footnote_definition_start);
    match strip_fence_indent(trim_end(line)) {
        Some(rest) => {
            let cs = chars_of(rest);
            let mark = chars_of("]:");
            match find_from(cs.as_slice(), mark.as_slice(), 0) {
                Some(end) => has_prefix(rest, "[^") && end > 2,
                None => false,
            }
        },
        None => false,
    }
}

/// The label of the footnote that `line` defines and the text that follows it
/// on the same line.
#[verifier::opaque]
pub open spec fn footnote_head(line: Seq<char>) -> Option<(Seq<char>, Seq<char>)> {
    match grammar::fence_body(line) {
        Some(rest) => match label_end(rest) {
            Some(end) => if "[^"@.is_prefix_of(rest) && end > 2 {
                Some((rest.subrange(2, end), text::trimmed_start(rest.skip(end + 2))))
            } else {
                None
            },
            None => None,
        },
        None => None,
    }
}

/// The texts of an optional pair of strings.
pub open spec fn opt_pair(value: Option<(String, String)>) -> Option<(Seq<char>, Seq<char>)> {
    match value {
        Some(v) => Some((v.0@, v.1@)),
        None => None,
    }
}

/// Reads the first line of a footnote definition.
pub fn parse_footnote_definition_head(line: &str) -> (r: Option<(String, String)>)
    ensures
        opt_pair(r) == footnote_head(line@),
{
    reveal(footnote_head);
    match strip_fence_indent(line) {
        Some(rest) => {
            let cs = chars_of(rest);
            let n: usize = cs.len();
            let mark = chars_of("]:");
            proof {
                reveal_strlit("]:");
                text::lemma_find_at(rest@, "]:"@, 0);
            }
            match find_from(cs.as_slice(), mark.as_slice(), 0) {
                Some(end) => if has_prefix(rest, "[^") && end > 2 {
                    let id = String::from_str(slice_text(rest, 2, end));
                    let first = String::from_str(trim_start(slice_text(rest, end + 2, n)));
                    Some((id, first))
                } else {
                    None
                },
                None => None,
            }
        },
        None => None,
    }
}

/// The first line of a definition is longer than what it leaves for the body.
pub proof fn lemma_footnote_head_shrinks(line: Seq<char>)
    ensures
        footnote_head(line) matches Some(head) ==> head.1.len() < line.len(),
{
    reveal(footnote_head);
    reveal_strlit("]:");
    text::lemma_run_len_bound(line, ' ');
    if let Some(rest) = grammar::fence_body(line) {
        text::lemma_find_at(rest, "]:"@, 0);
        if let Some(end) = label_end(rest) {
            text::lemma_trimmed_start_shape(rest.skip(end + 2));
        }
    }
}

/// Whether `line` continues a reference definition with a title: it is
/// indented, and quotes or parentheses stand around it.
#[verifier::opaque]
pub open spec fn reference_title_continuation(line: Seq<char>) -> bool {
    let indent = grammar::indent_len(line);
    let body = text::trimmed(line.skip(indent as int));
    &&& indent > 0
    &&& {
        ||| enclosed(body, '"', '"')
        ||| enclosed(body, '\'', '\'')
        ||| enclosed(body, '(', ')')
    }
}

/// Whether `s` starts with `open` and ends with `close`.
pub open spec fn enclosed(s: Seq<char>, open: char, close: char) -> bool {
    s.len() > 0 && s[0] == open && s.last() == close
}

/// Whether a line holds the title of the definition before it.
pub fn is_reference_definition_title_continuation(line: &str) -> (r: bool)
    ensures
        r == reference_title_continuation(line@),
{
    reveal(reference_title_continuation);
    let (_columns, indent) = leading_indent_columns_and_bytes(line);
    if indent == 0 {
        return false;
    }
    let cs = chars_of(line);
    let body = trim(slice_text(line, indent, cs.len()));
    let bs = chars_of(body);
    let n: usize = bs.len();
    n > 0 && ((bs[0] == '"' && bs[n - 1] == '"') || (bs[0] == '\'' && bs[n - 1] == '\'') || (bs[0]
        == '(' && bs[n - 1] == ')'))
}

// ---------------------------------------------------------------------------
// HTML
// ---------------------------------------------------------------------------

/// How many characters of an HTML tag name stand at the start of `s`.
pub open spec fn tag_name_len(s: Seq<char>) -> nat
    decreases s.len(),
{
    if s.len() > 0 && (text::ascii_alphanumeric(s[0]) || s[0] == '-') {
        1 + tag_name_len(s.drop_first())
    } else {
        0
    }
}

/// The name of a tag ends at the first character that cannot be in it.
pub proof fn lemma_tag_name_len_is(s: Seq<char>, n: nat)
    requires
        n <= s.len(),
        forall|i: int|
            0 <= i < n ==> text::ascii_alphanumeric(#[trigger] s[i]) || s[i] == '-',
        n < s.len() ==> !text::ascii_alphanumeric(s[n as int]) && s[n as int] != '-',
    ensures
        tag_name_len(s) == n,
    decreases s.len(),
{
    if n > 0 {
        let rest = s.drop_first();
        assert(text::ascii_alphanumeric(s[0]) || s[0] == '-');
        assert forall|i: int| 0 <= i < n - 1 implies text::ascii_alphanumeric(#[trigger] rest[i])
            || rest[i] == '-' by {
            assert(rest[i] == s[i + 1]);
        }
        lemma_tag_name_len_is(rest, (n - 1) as nat);
    }
}

fn leading_tag_name(cs: &[char]) -> (r: usize)
    ensures
        r == tag_name_len(cs@),
        r <= cs@.len(),
{
    let n: usize = cs.len();
    let mut len: usize = 0;
    while len < n && (('a' <= cs[len] && cs[len] <= 'z') || ('A' <= cs[len] && cs[len] <= 'Z') || (
    '0' <= cs[len] && cs[len] <= '9') || cs[len] == '-')
        invariant
            n == cs@.len(),
            len <= n,
            forall|i: int|
                0 <= i < len ==> text::ascii_alphanumeric(#[trigger] cs@[i]) || cs@[i] == '-',
        decreases n - len,
    {
        len = len + 1;
    }
    proof {
        lemma_tag_name_len_is(cs@, len as nat);
    }
    len
}

/// Whether an HTML element of this name never has content.
pub open spec fn void_block_tag(name: Seq<char>) -> bool {
    text::same_ignoring_ascii_case(name, "br"@) || text::same_ignoring_ascii_case(name, "hr"@)
        || text::same_ignoring_ascii_case(name, "img"@)
}

/// Whether a tag has no closing tag.
pub fn is_html_void_block_tag(name: &str) -> (r: bool)
    ensures
        r == void_block_tag(name@),
{
    eq_ignore_ascii_case(name, "br") || eq_ignore_ascii_case(name, "hr") || eq_ignore_ascii_case(
        name,
        "img",
    )
}

/// The closing tag of an element.
pub open spec fn closing_tag(name: Seq<char>) -> Seq<char> {
    "</"@ + name + ">"@
}

/// The HTML block that starts on `line`.
#[verifier::opaque]
pub open spec fn html_block_start(line: Seq<char>) -> Option<HtmlBlockStart<Seq<char>>> {
    match grammar::fence_body(line) {
        None => None,
        Some(body) => {
            let rest = text::trimmed_end(body);
            let tagged = rest.skip(1);
            let len = tag_name_len(tagged);
            if "<!--"@.is_prefix_of(rest) {
                Some(HtmlBlockStart::Comment)
            } else if rest.len() == 0 || rest[0] != '<' {
                None
            } else if len == 0 || len >= tagged.len() {
                None
            } else if tagged[len as int] != '>' && tagged[len as int] != ' ' && tagged[len as int]
                != '\t' && tagged[len as int] != '/' {
                None
            } else {
                let name = tagged.take(len as int);
                Some(
                    HtmlBlockStart::Tag {
                        name,
                        self_closing: text::ends_with(rest, "/>"@) || void_block_tag(name),
                        closes_same_line: text::occurs(rest, closing_tag(name)),
                    },
                )
            }
        },
    }
}

/// Reads the start of an HTML block. A closing tag starts none: its name would
/// be empty.
pub fn parse_html_block_start(line: &str) -> (r: Option<HtmlBlockStart<String>>)
    ensures
        grammar::opt_view(r) == html_block_start(line@),
{
    reveal(html_block_start);
    match strip_fence_indent(line) {
        None => None,
        Some(body) => {
            let rest = trim_end(body);
            if has_prefix(rest, "<!--") {
                return Some(HtmlBlockStart::Comment);
            }
            let cs = chars_of(rest);
            let n: usize = cs.len();
            if n == 0 || cs[0] != '<' {
                return None;
            }
            let tagged = slice_text(rest, 1, n);
            let ts = chars_of(tagged);
            let len: usize = leading_tag_name(ts.as_slice());
            if len == 0 || len >= ts.len() {
                return None;
            }
            let next = ts[len];
            if next != '>' && next != ' ' && next != '\t' && next != '/' {
                return None;
            }
            let name = slice_text(tagged, 0, len);
            let mut close = String::from_str("</");
            close.append(name);
            close.append(">");
            assert(close@ == closing_tag(name@));
            Some(
                HtmlBlockStart::Tag {
                    name: String::from_str(name),
                    self_closing: has_suffix(rest, "/>") || is_html_void_block_tag(name),
                    closes_same_line: contains(rest, close.as_str()),
                },
            )
        },
    }
}

/// Whether a line starts a block of HTML.
pub fn is_block_html_start(line: &str) -> (r: bool)
    ensures
        r == (html_block_start(line@) is Some),
{
    parse_html_block_start(line).is_some()
}

/// The name of the closing tag that `line` starts with.
#[verifier::opaque]
pub open spec fn html_close_tag_name(line: Seq<char>) -> Option<Seq<char>> {
    match grammar::fence_body(line) {
        None => None,
        Some(body) => {
            let rest = text::trimmed_end(body);
            let tagged = rest.skip(2);
            let len = tag_name_len(tagged);
            if !"</"@.is_prefix_of(rest) || len == 0 || len >= tagged.len() {
                None
            } else if tagged[len as int] != '>' && tagged[len as int] != ' ' && tagged[len as int]
                != '\t' {
                None
            } else {
                Some(tagged.take(len as int))
            }
        },
    }
}

/// The name in the closing tag that a line starts with.
pub fn parse_html_close_tag_name(line: &str) -> (r: Option<String>)
    ensures
        blocks::opt_text(r) == html_close_tag_name(line@),
{
    reveal(html_close_tag_name);
    match strip_fence_indent(line) {
        None => None,
        Some(body) => {
            let rest = trim_end(body);
            proof {
                reveal_strlit("</");
            }
            if !has_prefix(rest, "</") {
                return None;
            }
            let cs = chars_of(rest);
            let tagged = slice_text(rest, 2, cs.len());
            let ts = chars_of(tagged);
            let len: usize = leading_tag_name(ts.as_slice());
            if len == 0 || len >= ts.len() {
                return None;
            }
            let next = ts[len];
            if next != '>' && next != ' ' && next != '\t' {
                return None;
            }
            Some(String::from_str(slice_text(tagged, 0, len)))
        },
    }
}

// ---------------------------------------------------------------------------
// Display math and images
// ---------------------------------------------------------------------------

/// `line` as a display math delimiter is looked for in it.
pub open spec fn math_body(line: Seq<char>) -> Option<Seq<char>> {
    match grammar::fence_body(line) {
        Some(rest) => Some(text::trimmed_end(rest)),
        None => None,
    }
}

/// Whether `line` starts display math.
#[verifier::opaque]
pub open spec fn display_math_start(line: Seq<char>) -> bool {
    match math_body(line) {
        Some(rest) => "$$"@.is_prefix_of(rest),
        None => false,
    }
}

/// Whether a line starts a displayed formula.
pub fn is_display_math_start(line: &str) -> (r: bool)
    ensures
        r == display_math_start(line@),
{
    reveal(display_math_start);
    match strip_fence_indent(line) {
        Some(rest) => has_prefix(trim_end(rest), "$$"),
        None => false,
    }
}

/// Whether `source` is a whole display math block: `$$`, the formula and `$$`.
#[verifier::opaque]
pub open spec fn display_math_source(source: Seq<char>) -> Option<Seq<char>> {
    let s = text::trimmed(source);
    if s.len() >= 4 && "$$"@.is_prefix_of(s) && text::ends_with(s, "$$"@) {
        Some(s.subrange(2, s.len() - 2))
    } else {
        None
    }
}

/// The formula of a display math block.
pub fn parse_display_math_source(source: &str) -> (r: Option<&str>)
    ensures
        grammar::opt_str(r) == display_math_source(source@),
{
    reveal(display_math_source);
    let s = trim(source);
    let cs = chars_of(s);
    let n: usize = cs.len();
    if n >= 4 && has_prefix(s, "$$") && has_suffix(s, "$$") {
        Some(slice_text(s, 2, n - 2))
    } else {
        None
    }
}

/// The target of the image that `line` consists of: `![alt](target)` or
/// `![alt][label]`, with nothing else on the line.
#[verifier::opaque]
pub open spec fn standalone_image(line: Seq<char>) -> Option<Seq<char>> {
    let s = text::trimmed(line);
    if !"!["@.is_prefix_of(s) {
        None
    } else {
        match text::find_at(s, "]"@, 2) {
            None => None,
            Some(alt_end) => {
                let open = alt_end + 1;
                if open + 2 < s.len() && s[open] == '(' && text::find_at(s, ")"@, open + 1) == Some(
                    s.len() - 1,
                ) {
                    Some(s.subrange(open + 1, s.len() - 1))
                } else if open + 2 < s.len() && s[open] == '[' && text::find_at(s, "]"@, open + 1)
                    == Some(s.len() - 1) {
                    Some(s.subrange(open + 1, s.len() - 1))
                } else {
                    None
                }
            },
        }
    }
}

/// The target of the image that a line consists of.
pub fn parse_standalone_image(line: &str) -> (r: Option<&str>)
    ensures
        grammar::opt_str(r) == standalone_image(line@),
{
    reveal(standalone_image);
    let s = trim(line);
    let cs = chars_of(s);
    let n: usize = cs.len();
    if !has_prefix(s, "![") {
        return None;
    }
    let bracket = chars_of("]");
    let paren = chars_of(")");
    proof {
        reveal_strlit("]");
        text::lemma_find_at(s@, "]"@, 2);
    }
    match find_from(cs.as_slice(), bracket.as_slice(), 2) {
        None => None,
        Some(alt_end) => {
            let open: usize = alt_end + 1;
            if n - open <= 2 {
                return None;
            }
            let close = if cs[open] == '(' {
                find_from(cs.as_slice(), paren.as_slice(), open + 1)
            } else if cs[open] == '[' {
                find_from(cs.as_slice(), bracket.as_slice(), open + 1)
            } else {
                return None;
            };
            match close {
                Some(end) => if end == n - 1 {
                    Some(slice_text(s, open + 1, n - 1))
                } else {
                    None
                },
                None => None,
            }
        },
    }
}

// ---------------------------------------------------------------------------
// Inline code runs
// ---------------------------------------------------------------------------

/// Reads `s` from `at` on with the run length of the inline code span that is
/// open there, and gives that of the span open at the end. Outside a span a
/// backslash hides the next character.
pub open spec fn code_run_from(s: Seq<char>, at: int, open: Option<nat>) -> Option<nat>
    decreases s.len() + 1 - at,
{
    if at < 0 || at >= s.len() {
        open
    } else if open is None && s[at] == '\\' {
        code_run_from(s, at + 2, open)
    } else if s[at] != '`' {
        code_run_from(s, at + 1, open)
    } else {
        let run = text::run_len(s.skip(at), '`');
        let next = if open == Some(run) {
            None
        } else if open is None {
            Some(run)
        } else {
            open
        };
        if run == 0 {
            next
        } else {
            proof {
                text::lemma_run_len_bound(s.skip(at), '`');
            }
            code_run_from(s, at + run, next)
        }
    }
}

/// The run length of the inline code span that `markdown` leaves open.
#[verifier::opaque]
pub open spec fn pending_code_run(markdown: Seq<char>) -> Option<nat> {
    code_run_from(markdown, 0, None)
}

/// How many backticks opened the inline code that a text leaves open.
pub fn pending_inline_code_run_len(markdown: &str) -> (r: Option<usize>)
    ensures
        r matches Some(run) ==> pending_code_run(markdown@) == Some(run as nat),
        r is None ==> pending_code_run(markdown@) is None,
{
    let cs = chars_of(markdown);
    let n: usize = cs.len();
    let mut open: Option<usize> = None;
    let mut at: usize = 0;
    while at < n
        invariant
            n == cs@.len(),
            cs@ == markdown@,
            at <= n,
            code_run_from(markdown@, 0, None) == code_run_from(
                markdown@,
                at as int,
                (match open {
                    Some(run) => Some(run as nat),
                    None => None,
                }),
            ),
        decreases n - at,
    {
        if open.is_none() && cs[at] == '\\' {
            if n - at <= 2 {
                assert(code_run_from(markdown@, at + 2, None::<nat>) == None::<nat>);
                at = n;
            } else {
                at = at + 2;
            }
        } else if cs[at] != '`' {
            at = at + 1;
        } else {
            let tail = vstd::slice::slice_subrange(cs.as_slice(), at, n);
            let run: usize = leading_run(tail, '`');
            proof {
                assert(tail@ =~= markdown@.skip(at as int));
                text::lemma_run_len_bound(tail@, '`');
            }
            match open {
                None => {
                    open = Some(run);
                },
                Some(current) => {
                    if current == run {
                        open = None;
                    }
                },
            }
            at = at + run;
        }
    }
    proof {
        reveal(pending_code_run);
    }
    open
}

/// Whether a run of exactly `run` backticks stands in `s` at or after `at`.
pub open spec fn backtick_run_from(s: Seq<char>, at: int, run: nat) -> bool
    decreases s.len() - at,
{
    if at < 0 || at >= s.len() {
        false
    } else if s[at] != '`' {
        backtick_run_from(s, at + 1, run)
    } else {
        let len = text::run_len(s.skip(at), '`');
        if len == run {
            true
        } else if len == 0 {
            false
        } else {
            proof {
                text::lemma_run_len_bound(s.skip(at), '`');
            }
            backtick_run_from(s, at + len, run)
        }
    }
}

/// Whether `line` holds a run of exactly `run` backticks.
#[verifier::opaque]
pub open spec fn matching_backtick_run(line: Seq<char>, run: nat) -> bool {
    backtick_run_from(line, 0, run)
}

/// Whether a line holds a run of just this many backticks.
pub fn line_contains_matching_backtick_run(line: &str, run_len: usize) -> (r: bool)
    ensures
        r == matching_backtick_run(line@, run_len as nat),
{
    let cs = chars_of(line);
    let n: usize = cs.len();
    let mut at: usize = 0;
    while at < n
        invariant
            n == cs@.len(),
            cs@ == line@,
            at <= n,
            backtick_run_from(line@, 0, run_len as nat) == backtick_run_from(
                line@,
                at as int,
                run_len as nat,
            ),
        decreases n - at,
    {
        if cs[at] != '`' {
            at = at + 1;
        } else {
            let tail = vstd::slice::slice_subrange(cs.as_slice(), at, n);
            let len: usize = leading_run(tail, '`');
            proof {
                assert(tail@ =~= line@.skip(at as int));
                text::lemma_run_len_bound(tail@, '`');
            }
            if len == run_len {
                proof {
                    reveal(matching_backtick_run);
                }
                return true;
            }
            at = at + len;
        }
    }
    proof {
        reveal(matching_backtick_run);
    }
    false
}

} // verus!
