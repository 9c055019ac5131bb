//! Where multi-line constructs end.
//!
//! Each collector takes the lines of a document and the index of the line that
//! opens a construct, and gives the index of the first line after it.

use crate::blocks::BlockKind;
use crate::grammar;
use crate::grammar::{
    is_closing_fence, is_quote_start, leading_indent_columns_and_bytes, parse_list_marker,
    parse_opening_fence, strip_fence_indent, strip_indented_code_prefix, CodeFenceOpening,
    HtmlBlockStart,
};
use crate::markup;
use crate::markup::{
    is_block_html_start, is_display_math_start, is_footnote_definition_start,
    is_reference_definition_start, is_reference_definition_title_continuation,
    line_contains_matching_backtick_run, parse_html_block_start, parse_html_close_tag_name,
    parse_standalone_image, pending_inline_code_run_len,
};
use crate::table_syntax;
use crate::table_syntax::{collect_root_table_candidate_region, is_root_table_candidate_line};
use crate::text;
use crate::text::{chars_of, contains, is_blank, join_lines, same_text, slice_text, trim, trim_end};
use vstd::prelude::*;

verus! {

/// The lines of a document.
pub type Lines = Seq<Seq<char>>;

// ---------------------------------------------------------------------------
// Block boundaries
// ---------------------------------------------------------------------------

/// The heading level that the line below `lines[index]` gives to it.
pub open spec fn setext_below(lines: Lines, index: int) -> Option<u8> {
    if index + 1 < lines.len() {
        grammar::setext_underline(lines[index + 1])
    } else {
        None
    }
}

/// The level of the heading that the line below underlines.
pub fn setext_level_below(lines: &[String], index: usize) -> (r: Option<u8>)
    requires
        index < lines@.len(),
    ensures
        r == setext_below(text::texts(lines@), index as int),
{
    let n: usize = lines.len();
    if n - index >= 2 {
        BlockKind::parse_setext_underline(lines[index + 1].as_str())
    } else {
        None
    }
}

/// Whether `lines[index]` is blank or starts a block of its own.
#[verifier::opaque]
pub open spec fn root_block_start(lines: Lines, index: int) -> bool {
    let line = lines[index];
    ||| text::blank(line)
    ||| grammar::opening_fence(line) is Some
    ||| markup::html_block_start(line) is Some
    ||| markup::footnote_definition_start(line)
    ||| markup::reference_definition_start(line)
    ||| grammar::indented_code_body(line) is Some
    ||| grammar::list_marker(line) is Some
    ||| grammar::quote_start(line)
    ||| grammar::atx_heading(line) is Some
    ||| grammar::separator_line(line)
    ||| setext_below(lines, index) is Some
    ||| table_syntax::table_candidate(line)
    ||| markup::display_math_start(line)
}

/// Whether a line starts a block other than a paragraph.
pub fn looks_like_root_block_start(lines: &[String], index: usize) -> (r: bool)
    requires
        index < lines@.len(),
    ensures
        r == root_block_start(text::texts(lines@), index as int),
{
    reveal(root_block_start);
    let line = lines[index].as_str();
    if is_blank(line) {
        return true;
    }
    parse_opening_fence(line).is_some() || is_block_html_start(line)
        || is_footnote_definition_start(line) || is_reference_definition_start(line)
        || strip_indented_code_prefix(line).is_some() || parse_list_marker(line).is_some()
        || is_quote_start(line) || BlockKind::parse_atx_heading_line(line).is_some()
        || BlockKind::parse_separator_line(line) || setext_level_below(lines, index).is_some()
        || is_root_table_candidate_line(line) || is_display_math_start(line)
}

/// Whether a construct that a quote does not take into its title starts at
/// `lines[index]`.
#[verifier::opaque]
pub open spec fn quote_content_unsupported(lines: Lines, index: int) -> bool {
    let line = lines[index];
    ||| markup::html_block_start(line) is Some
    ||| markup::footnote_definition_start(line)
    ||| markup::reference_definition_start(line)
    ||| table_syntax::table_candidate(line)
    ||| markup::display_math_start(line)
    ||| grammar::atx_heading(line) is Some
    ||| grammar::separator_line(line)
    ||| setext_below(lines, index) is Some
}

/// Whether a line in a quote starts a block that a quote cannot hold.
pub fn quote_content_starts_unsupported(lines: &[String], index: usize) -> (r: bool)
    requires
        index < lines@.len(),
    ensures
        r == quote_content_unsupported(text::texts(lines@), index as int),
{
    reveal(quote_content_unsupported);
    let line = lines[index].as_str();
    is_block_html_start(line) || is_footnote_definition_start(line)
        || is_reference_definition_start(line) || is_root_table_candidate_line(line)
        || is_display_math_start(line) || BlockKind::parse_atx_heading_line(line).is_some()
        || BlockKind::parse_separator_line(line) || setext_level_below(lines, index).is_some()
}

/// The first line at or after `index` that is not blank.
pub open spec fn skip_blank(lines: Lines, index: int) -> int
    decreases lines.len() - index,
{
    if 0 <= index < lines.len() && text::blank(lines[index]) {
        skip_blank(lines, index + 1)
    } else {
        index
    }
}

/// The first line from here on that is not blank.
pub fn skip_blank_lines(lines: &[String], index: usize) -> (r: usize)
    requires
        index <= lines@.len(),
    ensures
        r == skip_blank(text::texts(lines@), index as int),
        index <= r <= lines@.len(),
        index < lines@.len() && text::blank(lines@[index as int]@) ==> index < r,
{
    let ghost all = text::texts(lines@);
    let n: usize = lines.len();
    let mut at: usize = index;
    while at < n && is_blank(lines[at].as_str())
        invariant
            all == text::texts(lines@),
            n == lines@.len(),
            index <= at <= n,
            skip_blank(all, index as int) == skip_blank(all, at as int),
        decreases n - at,
    {
        at = at + 1;
    }
    at
}

/// The first line at or after `index` that is blank.
pub open spec fn until_blank(lines: Lines, index: int) -> int
    decreases lines.len() - index,
{
    if 0 <= index < lines.len() && !text::blank(lines[index]) {
        until_blank(lines, index + 1)
    } else {
        index
    }
}

/// The blank line that ends the lines from here on.
pub fn collect_until_blank_line(lines: &[String], start: usize) -> (r: usize)
    requires
        start < lines@.len(),
    ensures
        r == until_blank(text::texts(lines@), start + 1),
        start < r <= lines@.len(),
{
    let ghost all = text::texts(lines@);
    let n: usize = lines.len();
    let mut index: usize = start + 1;
    while index < n && !is_blank(lines[index].as_str())
        invariant
            all == text::texts(lines@),
            n == lines@.len(),
            start < index <= n,
            until_blank(all, start + 1) == until_blank(all, index as int),
        decreases n - index,
    {
        index = index + 1;
    }
    index
}

/// Where an HTML construct that is never closed ends: before the next block.
pub open spec fn html_fallback_from(lines: Lines, index: int) -> int
    decreases lines.len() - index,
{
    if 0 <= index < lines.len() && !text::blank(lines[index]) && !root_block_start(lines, index)
        && markup::standalone_image(lines[index]) is None {
        html_fallback_from(lines, index + 1)
    } else {
        index
    }
}

/// The line behind HTML whose end is not marked.
pub fn collect_html_fallback_region(lines: &[String], start: usize) -> (r: usize)
    requires
        start < lines@.len(),
    ensures
        r == html_fallback_from(text::texts(lines@), start + 1),
        start < r <= lines@.len(),
{
    let ghost all = text::texts(lines@);
    let n: usize = lines.len();
    let mut index: usize = start + 1;
    while index < n
        invariant
            all == text::texts(lines@),
            n == lines@.len(),
            start < index <= n,
            html_fallback_from(all, start + 1) == html_fallback_from(all, index as int),
        ensures
            html_fallback_from(all, start + 1) == index,
            start < index <= n,
        decreases n - index,
    {
        if is_blank(lines[index].as_str()) || looks_like_root_block_start(lines, index)
            || parse_standalone_image(lines[index].as_str()).is_some() {
            break;
        }
        index = index + 1;
    }
    index
}

// ---------------------------------------------------------------------------
// Paragraphs
// ---------------------------------------------------------------------------

/// Whether a run of exactly `run` backticks stands in a line from `index` on.
pub open spec fn backtick_run_ahead(lines: Lines, index: int, run: nat) -> bool {
    exists|k: int|
        index <= k < lines.len() && markup::matching_backtick_run(#[trigger] lines[k], run)
}

/// Whether a paragraph goes on across the boundary at `boundary`: it leaves an
/// inline code span open that a later line closes.
#[verifier::opaque]
pub open spec fn continues_through(paragraph: Lines, lines: Lines, boundary: int) -> bool {
    match markup::pending_code_run(text::joined(paragraph)) {
        Some(run) => backtick_run_ahead(lines, boundary, run),
        None => false,
    }
}

/// Whether the paragraph `lines[start..boundary]` goes on across `boundary`.
pub fn paragraph_can_continue_through_boundary(
    lines: &[String],
    start: usize,
    boundary: usize,
) -> (r: bool)
    requires
        start <= boundary <= lines@.len(),
    ensures
        r == continues_through(
            text::texts(lines@).subrange(start as int, boundary as int),
            text::texts(lines@),
            boundary as int,
        ),
{
    let ghost all = text::texts(lines@);
    let paragraph = join_lines(lines, start, boundary);
    match pending_inline_code_run_len(paragraph.as_str()) {
        None => {
            reveal(continues_through);
            false
        },
        Some(run) => {
            let n: usize = lines.len();
            let mut index: usize = boundary;
            while index < n
                invariant
                    all == text::texts(lines@),
                    n == lines@.len(),
                    boundary <= index <= n,
                    markup::pending_code_run(
                        text::joined(all.subrange(start as int, boundary as int)),
                    ) == Some(run as nat),
                    forall|k: int|
                        boundary <= k < index ==> !markup::matching_backtick_run(
                            #[trigger] all[k],
                            run as nat,
                        ),
                decreases n - index,
            {
                if line_contains_matching_backtick_run(lines[index].as_str(), run) {
                    proof {
                        reveal(continues_through);
                        assert(markup::matching_backtick_run(all[index as int], run as nat));
                    }
                    return true;
                }
                index = index + 1;
            }
            reveal(continues_through);
            false
        },
    }
}

/// Where the paragraph that starts at `start` and goes through `index` ends.
pub open spec fn paragraph_end_from(lines: Lines, start: int, index: int) -> int
    decreases lines.len() - index,
{
    if 0 <= index < lines.len() && (!root_block_start(lines, index) || continues_through(
        lines.subrange(start, index),
        lines,
        index,
    )) {
        paragraph_end_from(lines, start, index + 1)
    } else {
        index
    }
}

/// Where the paragraph that starts at `start` ends.
#[verifier::opaque]
pub open spec fn paragraph_end(lines: Lines, start: int) -> int {
    paragraph_end_from(lines, start, start + 1)
}

/// Where the paragraph that starts at `start` ends: before a blank line or
/// another block, but not inside an inline code span that is closed later.
pub fn collect_paragraph_region(lines: &[String], start: usize) -> (r: usize)
    requires
        start < lines@.len(),
    ensures
        r == paragraph_end(text::texts(lines@), start as int),
        start < r <= lines@.len(),
{
    let ghost all = text::texts(lines@);
    let n: usize = lines.len();
    let mut index: usize = start + 1;
    while index < n
        invariant
            all == text::texts(lines@),
            n == lines@.len(),
            start < index <= n,
            paragraph_end_from(all, start as int, start + 1) == paragraph_end_from(
                all,
                start as int,
                index as int,
            ),
        ensures
            paragraph_end_from(all, start as int, start + 1) == index,
            start < index <= n,
        decreases n - index,
    {
        proof {
            reveal(root_block_start);
        }
        if (is_blank(lines[index].as_str()) || looks_like_root_block_start(lines, index))
            && !paragraph_can_continue_through_boundary(lines, start, index) {
            break;
        }
        index = index + 1;
    }
    reveal(paragraph_end);
    index
}

// ---------------------------------------------------------------------------
// Fenced code
// ---------------------------------------------------------------------------

/// The first line at or after `index` that closes the fence, unless an opening
/// fence with an info string comes before it.
pub open spec fn fence_close_from(
    lines: Lines,
    index: int,
    opener: grammar::FenceView,
) -> Option<int>
    decreases lines.len() - index,
{
    if index < 0 || index >= lines.len() {
        None
    } else if grammar::closing_fence(lines[index], opener) {
        Some(index)
    } else if grammar::opening_fence(lines[index]) matches Some(f) && f.language is Some {
        None
    } else {
        fence_close_from(lines, index + 1, opener)
    }
}

/// The line that closes the code block of a fence.
pub fn find_matching_closing_fence(
    lines: &[String],
    start_index: usize,
    opener: &CodeFenceOpening,
) -> (r: Option<usize>)
    requires
        start_index < lines@.len(),
    ensures
        r matches Some(at) ==> fence_close_from(text::texts(lines@), start_index + 1, opener@)
            == Some(at as int) && start_index < at < lines@.len(),
        r is None ==> fence_close_from(text::texts(lines@), start_index + 1, opener@) is None,
{
    let ghost all = text::texts(lines@);
    let n: usize = lines.len();
    let mut index: usize = start_index + 1;
    while index < n
        invariant
            all == text::texts(lines@),
            n == lines@.len(),
            start_index < index <= n,
            fence_close_from(all, start_index + 1, opener@) == fence_close_from(
                all,
                index as int,
                opener@,
            ),
        decreases n - index,
    {
        let line = lines[index].as_str();
        if is_closing_fence(line, opener) {
            return Some(index);
        }
        let tagged = match parse_opening_fence(line) {
            Some(fence) => fence.language.is_some(),
            None => false,
        };
        if tagged {
            return None;
        }
        index = index + 1;
    }
    None
}

// ---------------------------------------------------------------------------
// HTML
// ---------------------------------------------------------------------------

/// The line after the first one at or after `index` that holds `-->`.
pub open spec fn comment_close_from(lines: Lines, index: int) -> Option<int>
    decreases lines.len() - index,
{
    if index < 0 || index >= lines.len() {
        None
    } else if text::occurs(lines[index], "-->"@) {
        Some(index + 1)
    } else {
        comment_close_from(lines, index + 1)
    }
}

/// Where the HTML comment that starts at `start` ends, if it is closed.
#[verifier::opaque]
pub open spec fn closed_comment_end(lines: Lines, start: int) -> Option<int> {
    if markup::html_block_start(lines[start]) == Some(HtmlBlockStart::<Seq<char>>::Comment) {
        comment_close_from(lines, start)
    } else {
        None
    }
}

/// The line behind a comment that is closed.
pub fn collect_closed_html_comment_region(lines: &[String], start: usize) -> (r: Option<usize>)
    requires
        start < lines@.len(),
    ensures
        r matches Some(end) ==> closed_comment_end(text::texts(lines@), start as int) == Some(
            end as int,
        ) && start < end <= lines@.len(),
        r is None ==> closed_comment_end(text::texts(lines@), start as int) is None,
{
    let ghost all = text::texts(lines@);
    let n: usize = lines.len();
    match parse_html_block_start(lines[start].as_str()) {
        Some(HtmlBlockStart::Comment) => {
            let mut index: usize = start;
            while index < n
                invariant
                    all == text::texts(lines@),
                    n == lines@.len(),
                    start <= index <= n,
                    markup::html_block_start(all[start as int]) == Some(
                        HtmlBlockStart::<Seq<char>>::Comment,
                    ),
                    comment_close_from(all, start as int) == comment_close_from(all, index as int),
                decreases n - index,
            {
                if contains(lines[index].as_str(), "-->") {
                    reveal(closed_comment_end);
                    return Some(index + 1);
                }
                index = index + 1;
            }
            reveal(closed_comment_end);
            None
        },
        Some(HtmlBlockStart::Tag { .. }) => {
            reveal(closed_comment_end);
            None
        },
        None => {
            reveal(closed_comment_end);
            None
        },
    }
}

/// Whether `line` opens an element of this name that it does not close.
pub open spec fn opens_tag(line: Seq<char>, name: Seq<char>) -> bool {
    markup::html_block_start(line) == Some(
        HtmlBlockStart::Tag { name, self_closing: false, closes_same_line: false },
    )
}

/// The line after the one that closes the last of `depth` open elements of
/// this name.
pub open spec fn tag_close_from(lines: Lines, index: int, name: Seq<char>, depth: nat) -> Option<
    int,
>
    decreases lines.len() - index,
{
    if index < 0 || index >= lines.len() {
        None
    } else {
        let opened = if opens_tag(lines[index], name) {
            depth + 1
        } else {
            depth
        };
        if markup::html_close_tag_name(lines[index]) == Some(name) {
            if opened <= 1 {
                Some(index + 1)
            } else {
                tag_close_from(lines, index + 1, name, (opened - 1) as nat)
            }
        } else {
            tag_close_from(lines, index + 1, name, opened)
        }
    }
}

/// Where the HTML block that starts at `start` ends.
#[verifier::opaque]
pub open spec fn html_region_end(lines: Lines, start: int) -> int {
    match markup::html_block_start(lines[start]) {
        Some(HtmlBlockStart::Comment) => match closed_comment_end(lines, start) {
            Some(end) => end,
            None => html_fallback_from(lines, start + 1),
        },
        Some(HtmlBlockStart::Tag { name, self_closing, closes_same_line }) => if self_closing
            || closes_same_line {
            start + 1
        } else {
            match tag_close_from(lines, start + 1, name, 1) {
                Some(end) => end,
                None => html_fallback_from(lines, start + 1),
            }
        },
        None => until_blank(lines, start + 1),
    }
}

/// The line after the one that closes the element opened at `start`.
fn collect_html_tag_region(lines: &[String], start: usize, name: &String) -> (r: Option<usize>)
    requires
        start < lines@.len(),
    ensures
        r matches Some(end) ==> tag_close_from(text::texts(lines@), start + 1, name@, 1) == Some(
            end as int,
        ) && start < end <= lines@.len(),
        r is None ==> tag_close_from(text::texts(lines@), start + 1, name@, 1) is None,
{
    let ghost all = text::texts(lines@);
    let n: usize = lines.len();
    let mut depth: usize = 1;
    let mut index: usize = start + 1;
    while index < n
        invariant
            all == text::texts(lines@),
            n == lines@.len(),
            start < index <= n,
            1 <= depth <= index,
            tag_close_from(all, start + 1, name@, 1) == tag_close_from(
                all,
                index as int,
                name@,
                depth as nat,
            ),
        decreases n - index,
    {
        let opens = match parse_html_block_start(lines[index].as_str()) {
            Some(
                HtmlBlockStart::Tag { name: nested, self_closing, closes_same_line },
            ) => same_text(nested.as_str(), name.as_str()) && !self_closing && !closes_same_line,
            Some(HtmlBlockStart::Comment) => false,
            None => false,
        };
        let ghost before = depth;
        if opens {
            depth = depth + 1;
        }
        let closes = match parse_html_close_tag_name(lines[index].as_str()) {
            Some(closed) => same_text(closed.as_str(), name.as_str()),
            None => false,
        };
        assert(opens == opens_tag(all[index as int], name@));
        assert(closes == (markup::html_close_tag_name(all[index as int]) == Some(name@)));
        if closes {
            depth = depth - 1;
            if depth == 0 {
                return Some(index + 1);
            }
        }
        index = index + 1;
    }
    None
}

/// The line behind a block of HTML.
pub fn collect_block_html_region(lines: &[String], start: usize) -> (r: usize)
    requires
        start < lines@.len(),
    ensures
        r == html_region_end(text::texts(lines@), start as int),
        start < r <= lines@.len(),
{
    reveal(html_region_end);
    match parse_html_block_start(lines[start].as_str()) {
        Some(HtmlBlockStart::Comment) => match collect_closed_html_comment_region(lines, start) {
            Some(end) => end,
            None => collect_html_fallback_region(lines, start),
        },
        Some(HtmlBlockStart::Tag { name, self_closing, closes_same_line }) => {
            if self_closing || closes_same_line {
                return start + 1;
            }
            match collect_html_tag_region(lines, start, &name) {
                Some(end) => end,
                None => collect_html_fallback_region(lines, start),
            }
        },
        None => collect_until_blank_line(lines, start),
    }
}

// ---------------------------------------------------------------------------
// Definitions
// ---------------------------------------------------------------------------

/// The line behind the definitions of link references from a line on.
pub open spec fn reference_end_from(lines: Lines, index: int) -> int
    decreases lines.len() - index,
{
    if 0 <= index < lines.len() && markup::reference_title_continuation(lines[index]) {
        reference_end_from(lines, index + 1)
    } else {
        index
    }
}

/// The line behind the definitions of link references.
pub fn collect_reference_definition_region(lines: &[String], start: usize) -> (r: usize)
    requires
        start < lines@.len(),
    ensures
        r == reference_end_from(text::texts(lines@), start + 1),
        start < r <= lines@.len(),
{
    let ghost all = text::texts(lines@);
    let n: usize = lines.len();
    let mut index: usize = start + 1;
    while index < n && is_reference_definition_title_continuation(lines[index].as_str())
        invariant
            all == text::texts(lines@),
            n == lines@.len(),
            start < index <= n,
            reference_end_from(all, start + 1) == reference_end_from(all, index as int),
        decreases n - index,
    {
        index = index + 1;
    }
    index
}

/// The first line at or after `index` that is neither blank nor indented.
pub open spec fn footnote_end_from(lines: Lines, index: int) -> int
    decreases lines.len() - index,
{
    if 0 <= index < lines.len() && (text::blank(lines[index]) || grammar::indent_columns(
        lines[index],
    ) > 0) {
        footnote_end_from(lines, index + 1)
    } else {
        index
    }
}

/// The line behind the definition of a footnote.
pub fn collect_footnote_definition_region(lines: &[String], start: usize) -> (r: usize)
    requires
        start < lines@.len(),
    ensures
        r == footnote_end_from(text::texts(lines@), start + 1),
        start < r <= lines@.len(),
{
    let ghost all = text::texts(lines@);
    let n: usize = lines.len();
    let mut index: usize = start + 1;
    while index < n
        invariant
            all == text::texts(lines@),
            n == lines@.len(),
            start < index <= n,
            footnote_end_from(all, start + 1) == footnote_end_from(all, index as int),
        ensures
            footnote_end_from(all, start + 1) == index,
            start < index <= n,
        decreases n - index,
    {
        if !is_blank(lines[index].as_str()) {
            let (columns, _len) = leading_indent_columns_and_bytes(lines[index].as_str());
            if columns == 0 {
                break;
            }
        }
        index = index + 1;
    }
    index
}

// ---------------------------------------------------------------------------
// Display math
// ---------------------------------------------------------------------------

/// Where display math that goes through `index` ends: after a line of `$$`, or
/// after blank lines that another block or the end of the document follows.
pub open spec fn math_end_from(lines: Lines, index: int) -> int
    decreases lines.len() - index,
{
    if index < 0 || index >= lines.len() {
        lines.len() as int
    } else if text::trimmed(lines[index]) == "$$"@ {
        index + 1
    } else {
        let ahead = skip_blank(lines, index + 1);
        if text::blank(lines[index]) && (ahead >= lines.len() || root_block_start(lines, ahead)) {
            ahead
        } else {
            math_end_from(lines, index + 1)
        }
    }
}

/// Where the display math that starts at `start` ends.
#[verifier::opaque]
pub open spec fn math_region_end(lines: Lines, start: int) -> int {
    let opener = markup::math_body(lines[start])->0;
    if opener != "$$"@ && text::occurs(opener.skip(2), "$$"@) {
        start + 1
    } else {
        math_end_from(lines, start + 1)
    }
}

/// The line behind a displayed formula.
pub fn collect_display_math_region(lines: &[String], start: usize) -> (r: usize)
    requires
        start < lines@.len(),
        markup::display_math_start(lines@[start as int]@),
    ensures
        r == math_region_end(text::texts(lines@), start as int),
        start < r <= lines@.len(),
{
    let ghost all = text::texts(lines@);
    let n: usize = lines.len();
    proof {
        reveal(math_region_end);
        reveal(markup::display_math_start);
        reveal_strlit("$$");
    }
    let opener = match strip_fence_indent(lines[start].as_str()) {
        Some(rest) => trim_end(rest),
        None => "",
    };
    let os = chars_of(opener);
    if !same_text(opener, "$$") && contains(slice_text(opener, 2, os.len()), "$$") {
        return start + 1;
    }
    let mut index: usize = start + 1;
    while index < n
        invariant
            all == text::texts(lines@),
            n == lines@.len(),
            start < index <= n,
            math_region_end(all, start as int) == math_end_from(all, start + 1),
            math_end_from(all, start + 1) == math_end_from(all, index as int),
        decreases n - index,
    {
        let line = lines[index].as_str();
        if same_text(trim(line), "$$") {
            return index + 1;
        }
        if is_blank(line) {
            let ahead: usize = skip_blank_lines(lines, index + 1);
            if ahead >= n || looks_like_root_block_start(lines, ahead) {
                return ahead;
            }
        }
        index = index + 1;
    }
    n
}

// ---------------------------------------------------------------------------
// Quotes and lists
// ---------------------------------------------------------------------------

/// The first line at or after `index` that is blank or not quoted.
#[verifier::opaque]
pub open spec fn quote_region_end(lines: Lines, index: int) -> int
    decreases lines.len() - index,
{
    if 0 <= index < lines.len() && !text::blank(lines[index]) && grammar::quote_start(lines[index])
    {
        quote_region_end(lines, index + 1)
    } else {
        index
    }
}

/// The line behind a quote.
pub fn collect_quote_raw_region(lines: &[String], start: usize) -> (r: usize)
    requires
        start < lines@.len(),
    ensures
        r == quote_region_end(text::texts(lines@), start as int),
        start <= r <= lines@.len(),
        grammar::quote_start(lines@[start as int]@) && !text::blank(lines@[start as int]@) ==> start
            < r,
        forall|k: int|
            start <= k < r ==> grammar::quote_start((#[trigger] lines@[k])@) && !text::blank(
                lines@[k]@,
            ),
{
    let ghost all = text::texts(lines@);
    let n: usize = lines.len();
    let mut index: usize = start;
    while index < n && !is_blank(lines[index].as_str()) && is_quote_start(lines[index].as_str())
        invariant
            all == text::texts(lines@),
            n == lines@.len(),
            start <= index <= n,
            quote_region_end(all, start as int) == quote_region_end(all, index as int),
            forall|k: int|
                start <= k < index ==> grammar::quote_start((#[trigger] lines@[k])@)
                    && !text::blank(lines@[k]@),
        decreases n - index,
    {
        reveal(quote_region_end);
        index = index + 1;
    }
    reveal(quote_region_end);
    index
}

/// Where a construct that a quote keeps as raw Markdown ends, if one starts at
/// `start`.
#[verifier::opaque]
pub open spec fn unsupported_quote_end(lines: Lines, start: int) -> Option<int> {
    let line = lines[start];
    if markup::html_block_start(line) is Some {
        Some(html_region_end(lines, start))
    } else if markup::footnote_definition_start(line) {
        Some(footnote_end_from(lines, start + 1))
    } else if markup::reference_definition_start(line) {
        Some(reference_end_from(lines, start + 1))
    } else if table_syntax::table_candidate(line) {
        Some(table_syntax::table_region_end(lines, start))
    } else if markup::display_math_start(line) {
        Some(math_region_end(lines, start))
    } else if grammar::atx_heading(line) is Some || grammar::separator_line(line) {
        Some(start + 1)
    } else if setext_below(lines, start) is Some {
        Some(start + 2)
    } else {
        None
    }
}

/// The line behind a quote that holds what a quote cannot.
pub fn collect_unsupported_quote_region(lines: &[String], start: usize) -> (r: Option<usize>)
    requires
        start < lines@.len(),
    ensures
        r matches Some(end) ==> unsupported_quote_end(text::texts(lines@), start as int) == Some(
            end as int,
        ) && start < end <= lines@.len(),
        r is None ==> unsupported_quote_end(text::texts(lines@), start as int) is None,
{
    reveal(unsupported_quote_end);
    let line = lines[start].as_str();
    if is_block_html_start(line) {
        return Some(collect_block_html_region(lines, start));
    }
    if is_footnote_definition_start(line) {
        return Some(collect_footnote_definition_region(lines, start));
    }
    if is_reference_definition_start(line) {
        return Some(collect_reference_definition_region(lines, start));
    }
    if is_root_table_candidate_line(line) {
        return Some(collect_root_table_candidate_region(lines, start));
    }
    if is_display_math_start(line) {
        return Some(collect_display_math_region(lines, start));
    }
    if BlockKind::parse_atx_heading_line(line).is_some() || BlockKind::parse_separator_line(line) {
        return Some(start + 1);
    }
    if setext_level_below(lines, start).is_some() {
        return Some(start + 2);
    }
    None
}

/// Where a list item that goes through `index` ends, `pending` blank lines
/// having come just before.
pub open spec fn item_end_from(lines: Lines, index: int, pending: int, columns: nat) -> int
    decreases lines.len() - index,
{
    if index < 0 || index >= lines.len() {
        index
    } else if text::blank(lines[index]) {
        item_end_from(lines, index + 1, pending + 1, columns)
    } else {
        match grammar::list_marker(lines[index]) {
            Some(marker) => if marker.indent_columns <= columns {
                index - pending
            } else {
                item_end_from(lines, index + 1, 0, columns)
            },
            None => if grammar::indent_columns(lines[index]) > columns || pending == 0 {
                item_end_from(lines, index + 1, 0, columns)
            } else {
                index - pending
            },
        }
    }
}

/// The line behind a list item.
pub fn collect_list_item_region(lines: &[String], start: usize, marker_indent_columns: u128) -> (r:
    usize)
    requires
        start < lines@.len(),
    ensures
        r == item_end_from(text::texts(lines@), start + 1, 0, marker_indent_columns as nat),
        start < r <= lines@.len(),
{
    let ghost all = text::texts(lines@);
    let ghost columns = marker_indent_columns as nat;
    let n: usize = lines.len();
    let mut index: usize = start + 1;
    let mut pending: usize = 0;
    while index < n
        invariant
            all == text::texts(lines@),
            columns == marker_indent_columns as nat,
            n == lines@.len(),
            start < index <= n,
            pending <= index - start - 1,
            item_end_from(all, start + 1, 0, columns) == item_end_from(
                all,
                index as int,
                pending as int,
                columns,
            ),
        decreases n - index,
    {
        let line = lines[index].as_str();
        if is_blank(line) {
            pending = pending + 1;
            index = index + 1;
            continue;
        }
        match parse_list_marker(line) {
            Some(marker) => {
                if marker.indent_columns <= marker_indent_columns {
                    return index - pending;
                }
            },
            None => {
                let (indent, _len) = leading_indent_columns_and_bytes(line);
                if indent <= marker_indent_columns && pending != 0 {
                    return index - pending;
                }
            },
        }
        pending = 0;
        index = index + 1;
    }
    index
}

} // verus!
