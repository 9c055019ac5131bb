//! Where blocks of HTML start and end.

use crate::grammar::HtmlBlockStart;
use crate::markup;
use crate::reading_laws;
use crate::reading_laws::{letter, plain_lines, plain_text};
use crate::regions;
use crate::regions::Lines;
use crate::text;
use vstd::prelude::*;

verus! {

/// Whether a name is made of ASCII letters.
pub open spec fn tag_name(name: Seq<char>) -> bool {
    name.len() > 0 && forall|k: int| 0 <= k < name.len() ==> letter(#[trigger] name[k])
}

/// Whether a text is one of another, each letter being small or large.
pub open spec fn spelled(s: Seq<char>, small: Seq<char>, large: Seq<char>) -> bool {
    &&& s.len() == small.len()
    &&& forall|k: int| 0 <= k < s.len() ==> #[trigger] s[k] == small[k] || s[k] == large[k]
}

/// Whether a name is that of an element without content: `br`, `hr` or `img`.
pub open spec fn empty_element(name: Seq<char>) -> bool {
    ||| spelled(name, seq!['b', 'r'], seq!['B', 'R'])
    ||| spelled(name, seq!['h', 'r'], seq!['H', 'R'])
    ||| spelled(name, seq!['i', 'm', 'g'], seq!['I', 'M', 'G'])
}

/// The elements without content are `br`, `hr` and `img`, in small or large letters.
pub proof fn three_elements_have_no_content(name: Seq<char>)
    ensures
        markup::void_block_tag(name) <==> empty_element(name),
{
    reveal_strlit("br");
    reveal_strlit("hr");
    reveal_strlit("img");
    lemma_spelled(name, "br"@, seq!['b', 'r'], seq!['B', 'R']);
    lemma_spelled(name, "hr"@, seq!['h', 'r'], seq!['H', 'R']);
    lemma_spelled(name, "img"@, seq!['i', 'm', 'g'], seq!['I', 'M', 'G']);
}

proof fn lemma_spelled(name: Seq<char>, word: Seq<char>, small: Seq<char>, large: Seq<char>)
    requires
        word =~= small,
        small.len() == large.len(),
        forall|k: int|
            0 <= k < small.len() ==> 'a' <= #[trigger] small[k] <= 'z' && large[k] as int
                == small[k] as int - 32,
    ensures
        text::same_ignoring_ascii_case(name, word) <==> spelled(name, small, large),
{
    if text::same_ignoring_ascii_case(name, word) {
        assert forall|k: int| 0 <= k < name.len() implies #[trigger] name[k] == small[k] || name[k]
            == large[k] by {
            assert(text::ascii_lower(name[k]) == text::ascii_lower(word[k]));
            assert('a' <= small[k] <= 'z');
        }
    }
    if spelled(name, small, large) {
        assert forall|k: int| 0 <= k < name.len() implies text::ascii_lower(#[trigger] name[k])
            == text::ascii_lower(word[k]) by {
            assert('a' <= small[k] <= 'z');
        }
    }
}

proof fn lemma_open_line(name: Seq<char>)
    requires
        tag_name(name),
    ensures
        ({
            let line = seq!['<'] + name + seq!['>'];
            &&& markup::html_block_start(line) == Some(
                HtmlBlockStart::Tag {
                    name,
                    self_closing: markup::void_block_tag(name),
                    closes_same_line: false,
                },
            )
            &&& markup::html_close_tag_name(line) is None
        }),
{
    let line = seq!['<'] + name + seq!['>'];
    let n = name.len() as int;
    reading_laws::lemma_start(line);
    text::lemma_trimmed_end_is(line, line.len() as int);
    assert(line.subrange(0, line.len() as int) =~= line);
    let tagged = line.skip(1);
    assert(tagged =~= name + seq!['>']);
    assert forall|k: int| 0 <= k < n implies text::ascii_alphanumeric(#[trigger] tagged[k])
        || tagged[k] == '-' by {
        assert(tagged[k] == name[k]);
    }
    assert(tagged[n] == '>');
    markup::lemma_tag_name_len_is(tagged, n as nat);
    assert(tagged.take(n) =~= name);
    reveal_strlit("<!--");
    reveal_strlit("</");
    reveal_strlit("/>");
    reveal_strlit(">");
    assert(line[1] == name[0]);
    assert("<!--"@[1] == '!');
    assert("</"@[1] == '/');
    assert(!"<!--"@.is_prefix_of(line)) by {
        if "<!--"@.is_prefix_of(line) {
            assert(line[1] == "<!--"@[1]);
        }
    }
    assert(!"</"@.is_prefix_of(line)) by {
        if "</"@.is_prefix_of(line) {
            assert(line[1] == "</"@[1]);
        }
    }
    let close = markup::closing_tag(name);
    assert(close.len() > line.len());
    assert(!text::occurs(line, close)) by {
        reveal(text::occurs);
    }
    assert(!text::ends_with(line, "/>"@)) by {
        assert(line[line.len() - 2] == name[n - 1]);
        assert("/>"@[0] == '/');
        if text::ends_with(line, "/>"@) {
            assert(line.subrange(line.len() - 2, line.len() as int)[0] == "/>"@[0]);
        }
    }
    reveal(markup::html_block_start);
    reveal(markup::html_close_tag_name);
}

proof fn lemma_close_line(name: Seq<char>)
    requires
        tag_name(name),
    ensures
        ({
            let line = seq!['<', '/'] + name + seq!['>'];
            &&& markup::html_block_start(line) is None
            &&& markup::html_close_tag_name(line) == Some(name)
        }),
{
    let line = seq!['<', '/'] + name + seq!['>'];
    let n = name.len() as int;
    reading_laws::lemma_start(line);
    text::lemma_trimmed_end_is(line, line.len() as int);
    assert(line.subrange(0, line.len() as int) =~= line);
    let tagged = line.skip(2);
    assert(tagged =~= name + seq!['>']);
    assert forall|k: int| 0 <= k < n implies text::ascii_alphanumeric(#[trigger] tagged[k])
        || tagged[k] == '-' by {
        assert(tagged[k] == name[k]);
    }
    assert(tagged[n] == '>');
    markup::lemma_tag_name_len_is(tagged, n as nat);
    assert(tagged.take(n) =~= name);
    assert(line.skip(1)[0] == '/');
    markup::lemma_tag_name_len_is(line.skip(1), 0);
    reveal_strlit("<!--");
    reveal_strlit("</");
    assert("<!--"@[1] == '!');
    assert(!"<!--"@.is_prefix_of(line)) by {
        if "<!--"@.is_prefix_of(line) {
            assert(line[1] == "<!--"@[1]);
        }
    }
    assert("</"@ =~= seq!['<', '/']);
    assert(line.take(2) =~= "</"@);
    assert("</"@.is_prefix_of(line));
    reveal(markup::html_block_start);
    reveal(markup::html_close_tag_name);
}

proof fn lemma_text_line(line: Seq<char>)
    requires
        plain_text(line),
    ensures
        markup::html_block_start(line) is None,
        markup::html_close_tag_name(line) is None,
{
    reading_laws::lemma_plain(line);
    reading_laws::lemma_start(line);
    reading_laws::lemma_not_started(line);
    reveal_strlit("</");
    assert("</"@[0] == '<');
    let cut = text::trimmed_end(line);
    assert(!"</"@.is_prefix_of(cut)) by {
        if "</"@.is_prefix_of(cut) {
            assert(cut[0] == "</"@[0]);
        }
    }
    reveal(markup::html_close_tag_name);
}

/// The lines of an element that is opened on a line of its own.
pub open spec fn element_lines(name: Seq<char>, inside: Lines) -> Lines {
    seq![seq!['<'] + name + seq!['>']] + inside + seq![seq!['<', '/'] + name + seq!['>']]
}

proof fn lemma_text_goes_on(lines: Lines, index: int, end: int, name: Seq<char>, depth: nat)
    requires
        0 <= index <= end <= lines.len(),
        forall|k: int| index <= k < end ==> plain_text(#[trigger] lines[k]),
    ensures
        regions::tag_close_from(lines, index, name, depth) == regions::tag_close_from(
            lines,
            end,
            name,
            depth,
        ),
    decreases end - index,
{
    if index < end {
        lemma_text_line(lines[index]);
        lemma_text_goes_on(lines, index + 1, end, name, depth);
    }
}

/// An element ends at the line of its closing tag, and what follows is no part of it. An
/// element of the same name within it is closed by a tag of its own first.
pub proof fn elements_end_at_their_closing_tag(
    name: Seq<char>,
    before: Lines,
    inside: Lines,
    after: Lines,
    rest: Lines,
)
    requires
        tag_name(name),
        !empty_element(name),
        plain_lines(before),
        plain_lines(inside),
        plain_lines(after),
    ensures
        regions::html_region_end(element_lines(name, inside) + rest, 0) == inside.len() + 2,
        ({
            let nested = before + element_lines(name, inside) + after;
            regions::html_region_end(element_lines(name, nested) + rest, 0) == nested.len() + 2
        }),
{
    three_elements_have_no_content(name);
    lemma_flat(name, inside, rest);
    lemma_nested(name, before, inside, after, rest);
}

proof fn lemma_flat(name: Seq<char>, inside: Lines, rest: Lines)
    requires
        tag_name(name),
        !markup::void_block_tag(name),
        plain_lines(inside),
    ensures
        regions::html_region_end(element_lines(name, inside) + rest, 0) == inside.len() + 2,
{
    let lines = element_lines(name, inside) + rest;
    let n = inside.len() as int;
    lemma_open_line(name);
    lemma_close_line(name);
    assert(lines[0] == seq!['<'] + name + seq!['>']);
    assert(lines[n + 1] == seq!['<', '/'] + name + seq!['>']);
    assert forall|k: int| 1 <= k < n + 1 implies plain_text(#[trigger] lines[k]) by {
        assert(lines[k] == inside[k - 1]);
    }
    lemma_text_goes_on(lines, 1, n + 1, name, 1);
    reveal(regions::html_region_end);
}

proof fn lemma_nested(
    name: Seq<char>,
    before: Lines,
    inside: Lines,
    after: Lines,
    rest: Lines,
)
    requires
        tag_name(name),
        !markup::void_block_tag(name),
        plain_lines(before),
        plain_lines(inside),
        plain_lines(after),
    ensures
        ({
            let nested = before + element_lines(name, inside) + after;
            regions::html_region_end(element_lines(name, nested) + rest, 0) == nested.len() + 2
        }),
{
    let nested = before + element_lines(name, inside) + after;
    let lines = element_lines(name, nested) + rest;
    lemma_open_line(name);
    lemma_close_line(name);
    let a = 1 + before.len() as int;
    let b = a + 1 + inside.len();
    let c = b + 1 + after.len();
    assert(lines[0] == seq!['<'] + name + seq!['>']);
    assert(lines[a] == seq!['<'] + name + seq!['>']);
    assert(lines[b] == seq!['<', '/'] + name + seq!['>']);
    assert(lines[c] == seq!['<', '/'] + name + seq!['>']);
    assert forall|k: int| 1 <= k < a implies plain_text(#[trigger] lines[k]) by {
        assert(lines[k] == before[k - 1]);
    }
    assert forall|k: int| a + 1 <= k < b implies plain_text(#[trigger] lines[k]) by {
        assert(lines[k] == inside[k - a - 1]);
    }
    assert forall|k: int| b + 1 <= k < c implies plain_text(#[trigger] lines[k]) by {
        assert(lines[k] == after[k - b - 1]);
    }
    lemma_text_goes_on(lines, 1, a, name, 1);
    lemma_text_goes_on(lines, a + 1, b, name, 2);
    lemma_text_goes_on(lines, b + 1, c, name, 1);
    reveal(regions::html_region_end);
}

/// An element without content ends with its line.
pub proof fn elements_without_content_end_with_their_line(name: Seq<char>, rest: Lines)
    requires
        tag_name(name),
        empty_element(name),
    ensures
        regions::html_region_end(seq![seq!['<'] + name + seq!['>']] + rest, 0) == 1,
{
    three_elements_have_no_content(name);
    lemma_open_line(name);
    let lines = seq![seq!['<'] + name + seq!['>']] + rest;
    assert(lines[0] == seq!['<'] + name + seq!['>']);
    reveal(regions::html_region_end);
}

} // verus!
