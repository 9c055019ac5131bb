//! What follows from the kind of a block.

use crate::blocks;
use crate::blocks::{BlockKind, CalloutVariant};
use crate::grammar;
use crate::grammar::parse_ordered_list_marker;
use crate::text;
use crate::text::{chars_of, leading_run, slice_text};
use vstd::prelude::*;

verus! {

/// Whether blocks of this kind quote the blocks under them.
pub open spec fn quote_container<T>(kind: BlockKind<T>) -> bool {
    kind is Quote || kind is Callout
}

/// Whether blocks of this kind hold text of several lines that is edited as it
/// stands.
pub open spec fn multiline_text<T>(kind: BlockKind<T>) -> bool {
    kind is CodeBlock || kind is MathBlock || kind is MermaidBlock || kind is HtmlBlock
        || kind is RawMarkdown || kind is Comment
}

/// Whether blocks of this kind are shown as one piece that the caret cannot move
/// past.
pub open spec fn atomic_structural<T>(kind: BlockKind<T>) -> bool {
    multiline_text(kind) || kind is Table || kind is Separator
}

/// The kind of a block that is opened below one of this kind.
pub open spec fn newline_sibling<T>(kind: BlockKind<T>) -> BlockKind<T> {
    match kind {
        BlockKind::BulletedListItem => BlockKind::BulletedListItem,
        BlockKind::NumberedListItem => BlockKind::NumberedListItem,
        BlockKind::TaskListItem { .. } => BlockKind::TaskListItem { checked: false },
        BlockKind::Quote => BlockKind::Quote,
        _ => BlockKind::Paragraph,
    }
}

/// Whether a block of this kind can be nested under one of kind `parent`.
pub open spec fn nests_under<T>(kind: BlockKind<T>, parent: BlockKind<T>) -> bool {
    (blocks::kind_is_list_item(kind) || kind is Paragraph) && blocks::kind_is_list_item(parent)
}

/// Whether the context menu of a block of this kind offers to insert a table.
pub open spec fn allows_table_insert<T>(kind: BlockKind<T>) -> bool {
    !multiline_text(kind)
}

/// Whether the tab key indents a block of this kind.
pub open spec fn handles_tab<T>(kind: BlockKind<T>) -> bool {
    blocks::kind_is_list_item(kind) || kind is Paragraph || kind is CodeBlock
}

/// The kind that text typed into a paragraph gives it, and how many characters
/// of the text say so: a quote mark, a heading mark or a list marker, each with a
/// space behind it.
#[verifier::opaque]
pub open spec fn markdown_shortcut(s: Seq<char>) -> Option<(BlockKind<Seq<char>>, nat)> {
    let level = text::run_len(s, '#');
    if s.len() >= 2 && s[0] == '>' && s[1] == ' ' {
        Some((BlockKind::Quote, 2nat))
    } else if 1 <= level <= 6 && level < s.len() && s[level as int] == ' ' {
        Some((BlockKind::Heading { level: level as u8 }, level + 1))
    } else if s.len() >= 2 && (s[0] == '-' || s[0] == '*' || s[0] == '+') && s[1] == ' ' {
        match grammar::task_prefix(s.skip(2)) {
            Some(p) => Some((BlockKind::TaskListItem { checked: p.0 }, 2 + p.1)),
            None => Some((BlockKind::BulletedListItem, 2nat)),
        }
    } else {
        match grammar::ordered_marker_len(s) {
            Some(len) => if s[len - 1] == ' ' {
                Some((BlockKind::NumberedListItem, len))
            } else {
                None
            },
            None => None,
        }
    }
}

/// The name of a callout variant.
pub open spec fn variant_name(variant: CalloutVariant) -> Seq<char> {
    match variant {
        CalloutVariant::Note => "NOTE"@,
        CalloutVariant::Tip => "TIP"@,
        CalloutVariant::Important => "IMPORTANT"@,
        CalloutVariant::Warning => "WARNING"@,
        CalloutVariant::Caution => "CAUTION"@,
    }
}

/// The header line of a callout.
pub open spec fn callout_header_markdown(variant: CalloutVariant, title: Seq<char>) -> Seq<char> {
    if title.len() == 0 {
        "[!"@ + variant_name(variant) + "]"@
    } else {
        "[!"@ + variant_name(variant) + "] "@ + title
    }
}

// ---------------------------------------------------------------------------
// Laws
// ---------------------------------------------------------------------------

proof fn lemma_names()
    ensures
        forall|v: CalloutVariant|
            grammar::callout_variant(#[trigger] variant_name(v)) == Some(v) && 3
                <= variant_name(v).len() <= 9 && forall|i: int|
                0 <= i < variant_name(v).len() ==> 'A' <= #[trigger] variant_name(v)[i] <= 'Z',
{
    reveal_strlit("NOTE");
    reveal_strlit("TIP");
    reveal_strlit("IMPORTANT");
    reveal_strlit("WARNING");
    reveal_strlit("CAUTION");
    assert forall|v: CalloutVariant| grammar::callout_variant(#[trigger] variant_name(v)) == Some(
        v,
    ) by {
        let name = variant_name(v);
        assert(text::ascii_lower('N') != text::ascii_lower('T'));
        match v {
            CalloutVariant::Note => {},
            CalloutVariant::Tip => {
                assert(name.len() != "NOTE"@.len());
            },
            CalloutVariant::Important => {},
            CalloutVariant::Warning => {},
            CalloutVariant::Caution => {
                assert(text::ascii_lower(name[0]) != text::ascii_lower("WARNING"@[0]));
                assert(name.len() == "WARNING"@.len());
            },
        }
    }
}

/// The header line of a callout is read back as the callout it was written for,
/// its title without white space at the ends.
pub proof fn callout_headers_are_read_back(variant: CalloutVariant, title: Seq<char>)
    ensures
        grammar::callout_header(callout_header_markdown(variant, title)) == Some(
            (variant, text::trimmed(title)),
        ),
{
    reveal(grammar::callout_header);
    reveal_strlit("[!");
    reveal_strlit("]");
    reveal_strlit("] ");
    lemma_names();
    let name = variant_name(variant);
    let line = callout_header_markdown(variant, title);
    let s = text::trimmed(line);
    let close = 2 + name.len() as int;
    assert(line[0] == '[');
    lemma_trim_keeps_head(line, close + 1);
    assert(s.len() >= close + 1);
    assert forall|i: int| 0 <= i <= close implies s[i] == line[i] by {
        assert(line.take(s.len() as int)[i] == line[i]);
    }
    assert("[!"@.is_prefix_of(s)) by {
        assert(s.take(2) =~= "[!"@);
        assert(s[0] == '[' && s[1] == '!');
    }
    assert(s[close] == ']');
    assert(forall|i: int| 2 <= i < close ==> s[i] != ']') by {
        assert forall|i: int| 2 <= i < close implies s[i] != ']' by {
            assert(s[i] == name[i - 2]);
        }
    }
    lemma_find_bracket(s, 2, close);
    assert(s.subrange(2, close) =~= name);
    assert(text::trimmed(s.skip(close + 1)) == text::trimmed(title)) by {
        lemma_trimmed_tail(line, close + 1);
        if title.len() == 0 {
            assert(line.skip(close + 1) =~= title);
        } else {
            let tail = line.skip(close + 1);
            assert(tail[0] == ' ');
            assert(tail.drop_first() =~= title);
            assert(text::trimmed_start(tail) == text::trimmed_start(title));
        }
    }
}

proof fn lemma_find_bracket(s: Seq<char>, from: int, close: int)
    requires
        0 <= from <= close < s.len(),
        s[close] == ']',
        forall|i: int| from <= i < close ==> s[i] != ']',
    ensures
        text::find_at(s, "]"@, from) == Some(close),
    decreases close - from,
{
    reveal_strlit("]");
    if from < close {
        assert(!text::occurs_at(s, "]"@, from)) by {
            assert(s.subrange(from, from + 1)[0] == s[from]);
        }
        lemma_find_bracket(s, from + 1, close);
    } else {
        assert(s.subrange(close, close + 1) =~= "]"@);
    }
}

proof fn lemma_trim_keeps_head(s: Seq<char>, n: int)
    requires
        0 < n <= s.len(),
        !text::is_space(s[0]),
        !text::is_space(s[n - 1]),
    ensures
        n <= text::trimmed(s).len() <= s.len(),
        text::trimmed(s) == text::trimmed_end(s),
        text::trimmed(s) == s.take(text::trimmed(s).len() as int),
    decreases s.len(),
{
    text::lemma_trimmed_end_shape(s);
    lemma_trimmed_end_keeps(s, n);
}

proof fn lemma_trimmed_end_keeps(s: Seq<char>, n: int)
    requires
        0 < n <= s.len(),
        !text::is_space(s[n - 1]),
    ensures
        n <= text::trimmed_end(s).len() <= s.len(),
        text::trimmed_end(s) == s.take(text::trimmed_end(s).len() as int),
    decreases s.len(),
{
    if text::is_space(s.last()) {
        lemma_trimmed_end_keeps(s.drop_last(), n);
        let m = text::trimmed_end(s).len() as int;
        assert(s.drop_last().take(m) =~= s.take(m));
    } else {
        assert(s.take(s.len() as int) =~= s);
    }
}

proof fn lemma_trimmed_tail(s: Seq<char>, n: int)
    requires
        0 < n <= s.len(),
        !text::is_space(s[0]),
        !text::is_space(s[n - 1]),
    ensures
        text::trimmed(text::trimmed(s).skip(n)) == text::trimmed(s.skip(n)),
{
    lemma_trim_keeps_head(s, n);
    lemma_trimmed_end_skip(s, n);
    let tail = s.skip(n);
    assert(text::trimmed(s).skip(n) == text::trimmed_end(tail));
    lemma_trimmed_end_then_trim(tail);
}

proof fn lemma_trimmed_end_skip(s: Seq<char>, n: int)
    requires
        0 < n <= s.len(),
        !text::is_space(s[n - 1]),
    ensures
        text::trimmed_end(s).skip(n) == text::trimmed_end(s.skip(n)),
        text::trimmed_end(s).len() >= n,
    decreases s.len(),
{
    lemma_trimmed_end_keeps(s, n);
    let tail = s.skip(n);
    if text::is_space(s.last()) {
        assert(s.len() > n);
        lemma_trimmed_end_skip(s.drop_last(), n);
        assert(tail.drop_last() =~= s.drop_last().skip(n));
        assert(tail.last() == s.last());
    } else if tail.len() > 0 {
        assert(tail.last() == s.last());
    } else {
        assert(text::trimmed_end(s).skip(n) =~= Seq::empty());
        assert(tail =~= Seq::empty());
    }
}

proof fn lemma_trimmed_end_then_trim(s: Seq<char>)
    ensures
        text::trimmed(text::trimmed_end(s)) == text::trimmed(s),
    decreases s.len(),
{
    if s.len() > 0 && text::is_space(s.last()) {
        lemma_trimmed_end_then_trim(s.drop_last());
        lemma_trimmed_drop_last(s);
    } else {
    }
}

proof fn lemma_trimmed_drop_last(s: Seq<char>)
    requires
        s.len() > 0,
        text::is_space(s.last()),
    ensures
        text::trimmed(s.drop_last()) == text::trimmed(s),
    decreases s.len(),
{
    if text::is_space(s[0]) {
        if s.len() == 1 {
            assert(s.drop_last() =~= Seq::empty());
            assert(s.drop_first() =~= Seq::empty());
            assert(text::trimmed_start(s.drop_first()) =~= Seq::empty());
        } else {
            let rest = s.drop_first();
            lemma_trimmed_drop_last(rest);
            assert(s.drop_last().drop_first() =~= rest.drop_last());
            assert(s.drop_last()[0] == s[0]);
        }
    } else {
        assert(s.len() > 1);
        assert(s.drop_last()[0] == s[0]);
        assert(text::trimmed_start(s) == s);
        assert(text::trimmed_start(s.drop_last()) == s.drop_last());
    }
}

// ---------------------------------------------------------------------------
// Running code
// ---------------------------------------------------------------------------

impl BlockKind<String> {
    /// Whether blocks of this kind quote the blocks under them.
    pub fn is_quote_container(&self) -> (r: bool)
        ensures
            r == quote_container(self@),
    {
        matches!(self, BlockKind::Quote | BlockKind::Callout(_))
    }

    /// Whether blocks of this kind define footnotes.
    pub fn is_footnote_definition(&self) -> (r: bool)
        ensures
            r == (self@ is FootnoteDefinition),
    {
        matches!(self, BlockKind::FootnoteDefinition)
    }

    /// Whether blocks of this kind hold text of several lines that is edited as it
    /// stands.
    pub fn is_multiline_text_block(&self) -> (r: bool)
        ensures
            r == multiline_text(self@),
    {
        matches!(
            self,
            BlockKind::CodeBlock { .. }
                | BlockKind::MathBlock
                | BlockKind::MermaidBlock
                | BlockKind::HtmlBlock
                | BlockKind::RawMarkdown
                | BlockKind::Comment
        )
    }

    /// Whether blocks of this kind are shown as one piece that the caret cannot
    /// move past.
    pub fn is_atomic_structural(&self) -> (r: bool)
        ensures
            r == atomic_structural(self@),
    {
        self.is_multiline_text_block() || matches!(self, BlockKind::Table | BlockKind::Separator)
    }

    /// The kind of a block that is opened below one of this kind.
    pub fn newline_sibling_kind(&self) -> (r: Self)
        ensures
            r@ == newline_sibling(self@),
    {
        match self {
            BlockKind::BulletedListItem => BlockKind::BulletedListItem,
            BlockKind::NumberedListItem => BlockKind::NumberedListItem,
            BlockKind::TaskListItem { .. } => BlockKind::TaskListItem { checked: false },
            BlockKind::Quote => BlockKind::Quote,
            _ => BlockKind::Paragraph,
        }
    }

    /// Whether a block of this kind can be nested under one of kind `parent`.
    pub fn can_nest_under(&self, parent: &Self) -> (r: bool)
        ensures
            r == nests_under(self@, parent@),
    {
        (self.is_list_item() || matches!(self, BlockKind::Paragraph)) && parent.is_list_item()
    }

    /// Whether the context menu of a block of this kind offers to insert a table.
    pub fn allows_context_table_insert(&self) -> (r: bool)
        ensures
            r == allows_table_insert(self@),
    {
        !self.is_multiline_text_block()
    }

    /// The kind that text typed into a paragraph gives it, and how many characters
    /// of the text say so.
    pub fn detect_markdown_shortcut(s: &str) -> (r: Option<(Self, usize)>)
        ensures
            r matches Some(hit) ==> markdown_shortcut(s@) == Some((hit.0@, hit.1 as nat)) && hit.1
                <= s@.len(),
            r is None ==> markdown_shortcut(s@) is None,
    {
        reveal(markdown_shortcut);
        let cs = chars_of(s);
        let n: usize = cs.len();
        if n >= 2 && cs[0] == '>' && cs[1] == ' ' {
            return Some((BlockKind::Quote, 2));
        }
        let level: usize = leading_run(cs.as_slice(), '#');
        if 1 <= level && level <= 6 && level < n && cs[level] == ' ' {
            return Some((BlockKind::Heading { level: level as u8 }, level + 1));
        }
        if n >= 2 && (cs[0] == '-' || cs[0] == '*' || cs[0] == '+') && cs[1] == ' ' {
            let rest = slice_text(s, 2, n);
            assert(rest@ =~= s@.skip(2));
            return match BlockKind::parse_task_list_item_prefix(rest) {
                Some((checked, len)) => Some((BlockKind::TaskListItem { checked }, 2 + len)),
                None => Some((BlockKind::BulletedListItem, 2)),
            };
        }
        match parse_ordered_list_marker(s) {
            Some(len) => {
                if cs[len - 1] == ' ' {
                    Some((BlockKind::NumberedListItem, len))
                } else {
                    None
                }
            },
            None => None,
        }
    }
}

impl CalloutVariant {
    /// The header line of a callout of this variant.
    pub fn header_markdown(self, title: &str) -> (r: String)
        ensures
            r@ == callout_header_markdown(self, title@),
    {
        let mut out = String::from_str("[!");
        let name = match self {
            CalloutVariant::Note => "NOTE",
            CalloutVariant::Tip => "TIP",
            CalloutVariant::Important => "IMPORTANT",
            CalloutVariant::Warning => "WARNING",
            CalloutVariant::Caution => "CAUTION",
        };
        out.append(name);
        if title.is_empty() {
            out.append("]");
        } else {
            out.append("] ");
            out.append(title);
        }
        out
    }
}

} // verus!
