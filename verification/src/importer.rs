//! Markdown-to-block import.
//!
//! Markdown is read into the blocks that the editor can edit safely. Syntax
//! beyond that model is kept as raw Markdown blocks with its source lines.

use crate::blocks;
use crate::blocks::{Block, BlockKind, CalloutVariant, InlineFragment, InlineTextTree, TableData};
use crate::editor::Editor;
use crate::grammar;
use crate::grammar::{
    dedent_line, is_mermaid_info_string, is_quote_start, leading_indent_columns_and_bytes,
    parse_list_marker, parse_opening_fence, strip_indented_code_prefix, strip_one_quote_level,
    ListMarker,
};
use crate::import_model;
use crate::import_model::{ItemStep, QuoteStep};
use crate::markup::{
    is_block_html_start, is_display_math_start, is_footnote_definition_start,
    is_reference_definition_start, parse_display_math_source, parse_footnote_definition_head,
    parse_standalone_image,
};
use crate::regions;
use crate::regions::{
    collect_block_html_region, collect_closed_html_comment_region, collect_display_math_region,
    collect_footnote_definition_region, collect_list_item_region, collect_paragraph_region,
    collect_quote_raw_region, collect_reference_definition_region,
    collect_unsupported_quote_region, find_matching_closing_fence,
    quote_content_starts_unsupported, setext_level_below, skip_blank_lines,
};
use crate::table_syntax::{
    collect_pipeless_table_region, collect_root_table_candidate_region,
    collect_table_candidate_region, is_root_table_candidate_line, is_table_candidate_line,
    parse_root_table_region, parse_table_region,
};
use crate::text;
use crate::text::{is_blank, join_lines, same_text, slice_text, split_lines, trim, trim_end};
use vstd::prelude::*;
use vstd::slice::slice_subrange;

verus! {

/// The model of an optional block with the index of the line after it.
pub open spec fn opt_block(r: Option<(Block, usize)>) -> Option<(blocks::BlockView, int)> {
    match r {
        Some(b) => Some((b.0@, b.1 as int)),
        None => None,
    }
}

// ---------------------------------------------------------------------------
// Blocks without children
// ---------------------------------------------------------------------------

/// A block of a kind with a title in Markdown.
pub fn native_block(kind: BlockKind<String>, markdown: String) -> (r: Block)
    ensures
        r@ == import_model::native_leaf(kind@, markdown@),
{
    Block::leaf(kind, InlineTextTree::from_markdown(markdown))
}

fn literal_block(kind: BlockKind<String>, source: String) -> (r: Block)
    ensures
        r@ == import_model::literal_leaf(kind@, source@),
{
    Block::leaf(kind, InlineTextTree::plain(source))
}

/// A block that keeps Markdown as it is.
pub fn raw_block(markdown: String) -> (r: Block)
    ensures
        r@ == import_model::raw_leaf(markdown@),
{
    literal_block(BlockKind::RawMarkdown, markdown)
}

/// A block that keeps a comment as it is.
pub fn comment_block(markdown: String) -> (r: Block)
    ensures
        r@ == import_model::literal_leaf(BlockKind::Comment, markdown@),
{
    literal_block(BlockKind::Comment, markdown)
}

/// A code block with a language and its text.
pub fn build_code_block(language: Option<String>, content: String) -> (r: Block)
    ensures
        r@ == import_model::literal_leaf(
            BlockKind::CodeBlock { language: blocks::opt_text(language) },
            content@,
        ),
{
    literal_block(BlockKind::CodeBlock { language }, content)
}

/// A paragraph that shows an image.
pub fn standalone_image_block(markdown: String) -> (r: Block)
    ensures
        r@ == import_model::image_leaf(markdown@),
{
    literal_block(BlockKind::Paragraph, String::from_str(trim(markdown.as_str())))
}

/// A paragraph of literal text.
pub fn plain_text_paragraph_block(text: String) -> (r: Block)
    ensures
        r@ == import_model::literal_leaf(BlockKind::Paragraph, text@),
{
    literal_block(BlockKind::Paragraph, text)
}

/// The block of a piece of HTML. `semantic` holds the sources that the HTML
/// reader found to be semantic.
pub fn html_or_raw_block(markdown: String, semantic: &[String]) -> (r: Block)
    ensures
        r@ == import_model::html_leaf(markdown@, text::texts(semantic@)),
{
    let ghost known = text::texts(semantic@);
    let mut index: usize = 0;
    while index < semantic.len()
        invariant
            known == text::texts(semantic@),
            index <= semantic@.len(),
            forall|k: int| 0 <= k < index ==> #[trigger] known[k] != markdown@,
        decreases semantic@.len() - index,
    {
        if same_text(semantic[index].as_str(), markdown.as_str()) {
            assert(known[index as int] == markdown@);
            return literal_block(BlockKind::HtmlBlock, markdown);
        }
        index = index + 1;
    }
    assert(!known.contains(markdown@));
    raw_block(markdown)
}

/// A formula, or raw Markdown where the text is none.
pub fn math_or_raw_block(markdown: String) -> (r: Block)
    ensures
        r@ == import_model::math_leaf(markdown@),
{
    if parse_display_math_source(markdown.as_str()).is_some() {
        literal_block(BlockKind::MathBlock, markdown)
    } else {
        raw_block(markdown)
    }
}

/// A block that holds a table.
pub fn table_block(table: TableData) -> (r: Block)
    ensures
        r@ == import_model::table_leaf(table@),
{
    let r = Block {
        kind: BlockKind::Table,
        title: InlineTextTree::plain(String::new()),
        table: Some(table),
        children: Vec::new(),
    };
    assert(r@.children =~= Seq::empty());
    r
}

fn table_or_raw_block(lines: &[String], from: usize, to: usize) -> (r: Block)
    requires
        from <= to <= lines@.len(),
    ensures
        r@ == import_model::table_or_raw(text::texts(lines@), from as int, to as int),
{
    match parse_table_region(lines, from, to) {
        Some(table) => table_block(table),
        None => raw_block(join_lines(lines, from, to)),
    }
}

/// The models of blocks with one more behind them.
pub proof fn lemma_block_views_push(items: Seq<Block>, item: Block)
    ensures
        blocks::block_views(items.push(item)) == blocks::block_views(items).push(item@),
{
    assert(blocks::block_views(items.push(item)) =~= blocks::block_views(items).push(item@));
}

/// The models of blocks behind one another.
pub proof fn lemma_block_views_concat(a: Seq<Block>, b: Seq<Block>)
    ensures
        blocks::block_views(a + b) == blocks::block_views(a) + blocks::block_views(b),
{
    assert(blocks::block_views(a + b) =~= blocks::block_views(a) + blocks::block_views(b));
}

fn one_block(block: Block) -> (r: Vec<Block>)
    ensures
        blocks::block_views(r@) == seq![block@],
{
    let r = vec![block];
    assert(blocks::block_views(r@) =~= seq![block@]);
    r
}

/// Adds `count` empty paragraphs at the end.
pub fn append_quote_separator_children(children: &mut Vec<Block>, count: usize)
    ensures
        blocks::block_views(final(children)@) == blocks::block_views(old(children)@)
            + import_model::empty_paragraphs(count as nat),
{
    let ghost before = blocks::block_views(children@);
    let mut done: usize = 0;
    assert(before + import_model::empty_paragraphs(0) =~= before);
    while done < count
        invariant
            done <= count,
            blocks::block_views(children@) == before + import_model::empty_paragraphs(done as nat),
        decreases count - done,
    {
        let block = native_block(BlockKind::Paragraph, String::new());
        proof {
            lemma_block_views_push(children@, block);
            assert((before + import_model::empty_paragraphs(done as nat)).push(block@) =~= before
                + import_model::empty_paragraphs((done + 1) as nat));
        }
        children.push(block);
        done = done + 1;
    }
}

/// Adds the blocks at the end of the block's children.
pub fn attach_child_blocks(parent: &mut Block, children: Vec<Block>)
    ensures
        final(parent)@ == (blocks::BlockView {
            children: old(parent)@.children + blocks::block_views(children@),
            ..old(parent)@
        }),
{
    let mut children = children;
    let ghost before = parent@;
    let ghost added = blocks::block_views(children@);
    parent.children.append(&mut children);
    assert(parent@.children =~= before.children + added);
}

/// Adds a further line of Markdown to the block's title.
pub fn append_markdown_to_block(block: &mut Block, separator: &str, markdown: &str)
    ensures
        final(block)@ == (blocks::BlockView {
            title: old(block)@.title + (if separator@.len() == 0 {
                Seq::empty()
            } else {
                blocks::plain_title(separator@)
            }) + blocks::markdown_title(markdown@),
            ..old(block)@
        }),
{
    let ghost before = block@;
    if !separator.is_empty() {
        block.title.append_tree(InlineTextTree::plain(String::from_str(separator)));
    }
    block.title.append_tree(InlineTextTree::from_markdown(String::from_str(markdown)));
    assert(block@.children =~= before.children);
    assert(before.title + Seq::<InlineFragment<Seq<char>>>::empty() =~= before.title);
}

// ---------------------------------------------------------------------------
// Code, comments and images
// ---------------------------------------------------------------------------

/// The code block between two fences and the line behind it.
pub fn collect_fenced_code_block(lines: &[String], start: usize) -> (r: Option<(Block, usize)>)
    requires
        start < lines@.len(),
    ensures
        opt_block(r) == import_model::fenced_block(text::texts(lines@), start as int),
        r matches Some(b) ==> start < b.1 <= lines@.len(),
{
    reveal(import_model::fenced_block);
    match parse_opening_fence(lines[start].as_str()) {
        None => None,
        Some(fence) => match find_matching_closing_fence(lines, start, &fence) {
            None => None,
            Some(close) => {
                if is_mermaid_info_string(&fence.language) {
                    let raw = join_lines(lines, start, close + 1);
                    return Some((literal_block(BlockKind::MermaidBlock, raw), close + 1));
                }
                let content = join_lines(lines, start + 1, close);
                Some((build_code_block(fence.language, content), close + 1))
            },
        },
    }
}

/// The code block of indented lines and the line behind it.
pub fn collect_indented_code_block(lines: &[String], start: usize) -> (r: (Block, usize))
    requires
        start < lines@.len(),
        grammar::indented_code_body(lines@[start as int]@) is Some,
    ensures
        (r.0@, r.1 as int) == import_model::indented_block(text::texts(lines@), start as int),
        start < r.1 <= lines@.len(),
{
    let ghost all = text::texts(lines@);
    let n: usize = lines.len();
    let mut code_lines: Vec<String> = Vec::new();
    let mut index: usize = start;
    while index < n
        invariant
            all == text::texts(lines@),
            n == lines@.len(),
            start <= index <= n,
            start < n,
            grammar::indented_code_body(lines@[start as int]@) is Some,
            index == start || import_model::indented_end_from(all, start + 1)
                == import_model::indented_end_from(all, index as int),
            text::texts(code_lines@) == import_model::code_lines(
                all.subrange(start as int, index as int),
            ),
        ensures
            start < index <= n,
            import_model::indented_end_from(all, start + 1) == index,
            text::texts(code_lines@) == import_model::code_lines(
                all.subrange(start as int, index as int),
            ),
        decreases n - index,
    {
        let ghost before = code_lines@;
        let line = match strip_indented_code_prefix(lines[index].as_str()) {
            Some(stripped) => String::from_str(stripped),
            None => {
                if !is_blank(lines[index].as_str()) {
                    break;
                }
                String::new()
            },
        };
        proof {
            assert(all.subrange(start as int, index + 1) =~= all.subrange(
                start as int,
                index as int,
            ).push(all[index as int]));
            assert(import_model::code_lines(all.subrange(start as int, index + 1))
                =~= import_model::code_lines(all.subrange(start as int, index as int)).push(
                import_model::code_line(all[index as int]),
            ));
            assert(text::texts(before.push(line)) =~= text::texts(before).push(line@));
        }
        code_lines.push(line);
        index = index + 1;
    }
    let content = join_lines(code_lines.as_slice(), 0, code_lines.len());
    proof {
        reveal(import_model::indented_block);
        let cl = text::texts(code_lines@);
        assert(cl.subrange(0, cl.len() as int) =~= cl);
    }
    (build_code_block(None, content), index)
}

/// The comment that starts at a line and the line behind it.
pub fn collect_comment_block(lines: &[String], start: usize) -> (r: Option<(Block, usize)>)
    requires
        start < lines@.len(),
    ensures
        opt_block(r) == import_model::comment_block(text::texts(lines@), start as int),
        r matches Some(b) ==> start < b.1 <= lines@.len(),
{
    reveal(import_model::comment_block);
    match collect_closed_html_comment_region(lines, start) {
        Some(end) => Some((comment_block(join_lines(lines, start, end)), end)),
        None => None,
    }
}

/// Whether `lines[start]` is an image that the next line lets stand alone.
pub fn starts_with_standalone_image_child_paragraph(lines: &[String], start: usize) -> (r: bool)
    requires
        start < lines@.len(),
    ensures
        r == import_model::image_child_start(text::texts(lines@), start as int),
{
    reveal(import_model::image_child_start);
    if parse_standalone_image(lines[start].as_str()).is_none() {
        return false;
    }
    let n: usize = lines.len();
    if n - start < 2 {
        return true;
    }
    let next = lines[start + 1].as_str();
    is_blank(next) || parse_list_marker(next).is_some() || is_quote_start(next)
        || parse_opening_fence(next).is_some() || strip_indented_code_prefix(next).is_some()
        || is_block_html_start(next) || is_footnote_definition_start(next)
        || is_reference_definition_start(next) || is_root_table_candidate_line(next)
        || is_display_math_start(next)
}

/// The lines without `columns` columns of indentation.
pub fn dedent_lines(lines: &[String], columns: u128) -> (r: Vec<String>)
    ensures
        text::texts(r@) == import_model::dedent_all(text::texts(lines@), columns as nat),
{
    let ghost all = text::texts(lines@);
    let mut out: Vec<String> = Vec::new();
    let mut index: usize = 0;
    while index < lines.len()
        invariant
            all == text::texts(lines@),
            index <= lines@.len(),
            out@.len() == index,
            forall|k: int|
                0 <= k < index ==> (#[trigger] out@[k])@ == grammar::dedented(
                    all[k],
                    columns as nat,
                ),
        decreases lines@.len() - index,
    {
        out.push(dedent_line(lines[index].as_str(), columns));
        index = index + 1;
    }
    assert(text::texts(out@) =~= import_model::dedent_all(all, columns as nat));
    out
}

impl Editor {
    /// The paragraph that starts at `start`.
    pub fn collect_paragraph_block(lines: &[String], start: usize) -> (r: (Block, usize))
        requires
            start < lines@.len(),
        ensures
            (r.0@, r.1 as int) == import_model::paragraph_block(text::texts(lines@), start as int),
            start < r.1 <= lines@.len(),
    {
        let end: usize = collect_paragraph_region(lines, start);
        (native_block(BlockKind::Paragraph, join_lines(lines, start, end)), end)
    }

    /// The blocks of a Markdown document.
    pub fn build_root_blocks_from_markdown(markdown: &str, semantic: &[String]) -> (r: Vec<Block>)
        ensures
            blocks::block_views(r@) == import_model::blocks_of(
                text::lines_of(markdown@),
                true,
                text::texts(semantic@),
            ),
    {
        let lines = split_lines(markdown);
        Self::build_blocks_from_lines(lines.as_slice(), semantic)
    }

    /// The blocks of the lines of a Markdown document.
    ///
    /// Blocks are native only for syntax that the editor can edit safely. More
    /// complex regions become raw Markdown, which keeps their source.
    pub fn build_blocks_from_lines(lines: &[String], semantic: &[String]) -> (r: Vec<Block>)
        ensures
            blocks::block_views(r@) == import_model::blocks_of(
                text::texts(lines@),
                true,
                text::texts(semantic@),
            ),
    {
        Self::build_blocks_from_lines_internal(lines, true, semantic)
    }

    fn build_blocks_from_lines_internal(
        lines: &[String],
        native_footnotes: bool,
        semantic: &[String],
    ) -> (r: Vec<Block>)
        ensures
            blocks::block_views(r@) == import_model::blocks_of(
                text::texts(lines@),
                native_footnotes,
                text::texts(semantic@),
            ),
        decreases import_model::total(text::texts(lines@)), 5int,
    {
        let ghost all = text::texts(lines@);
        let ghost known = text::texts(semantic@);
        let n: usize = lines.len();
        let mut roots: Vec<Block> = Vec::new();
        let mut index: usize = 0;
        proof {
            assert(blocks::block_views(roots@) =~= Seq::empty());
            assert(blocks::block_views(roots@) + import_model::blocks_of(
                all,
                native_footnotes,
                known,
            ) =~= import_model::blocks_of(all, native_footnotes, known));
        }
        while index < n
            invariant
                all == text::texts(lines@),
                known == text::texts(semantic@),
                n == lines@.len(),
                index <= n,
                blocks::block_views(roots@) + import_model::roots_from(
                    all,
                    native_footnotes,
                    known,
                    index as int,
                    roots@.len() > 0,
                    ends_in_list(blocks::block_views(roots@)),
                ) == import_model::blocks_of(all, native_footnotes, known),
            decreases n - index,
        {
            let any = roots.len() > 0;
            let after_list = if any {
                roots[roots.len() - 1].kind.is_list_item()
            } else {
                false
            };
            let (mut step, next) = Self::build_root_step(
                lines,
                native_footnotes,
                semantic,
                index,
                any,
                after_list,
            );
            proof {
                let before = blocks::block_views(roots@);
                let added = blocks::block_views(step@);
                lemma_block_views_concat(roots@, step@);
                let tail = import_model::roots_from(
                    all,
                    native_footnotes,
                    known,
                    next as int,
                    any || added.len() > 0,
                    if added.len() > 0 {
                        blocks::kind_is_list_item(added.last().kind)
                    } else {
                        after_list
                    },
                );
                assert(before + (added + tail) =~= (before + added) + tail);
                if added.len() > 0 {
                    assert((before + added).last() == added.last());
                } else {
                    assert(before + added =~= before);
                }
            }
            roots.append(&mut step);
            index = next;
        }
        proof {
            assert(blocks::block_views(roots@) + Seq::<blocks::BlockView>::empty()
                =~= blocks::block_views(roots@));
        }
        roots
    }

    /// The blocks that start at `index`, and the index of the line after them.
    #[verifier::rlimit(40)]
    fn build_root_step(
        lines: &[String],
        native_footnotes: bool,
        semantic: &[String],
        index: usize,
        any: bool,
        after_list: bool,
    ) -> (r: (Vec<Block>, usize))
        requires
            index < lines@.len(),
        ensures
            (blocks::block_views(r.0@), r.1 as int) == import_model::root_step(
                text::texts(lines@),
                native_footnotes,
                text::texts(semantic@),
                index as int,
                any,
                after_list,
            ),
            index < r.1 <= lines@.len(),
        decreases import_model::total(text::texts(lines@)), 3int,
    {
        let ghost all = text::texts(lines@);
        let n: usize = lines.len();
        let line = lines[index].as_str();
        if is_blank(line) {
            let end: usize = skip_blank_lines(lines, index);
            let next_is_list_item = end < n && parse_list_marker(lines[end].as_str()).is_some();
            let count: usize = if !any || (after_list && next_is_list_item) {
                end - index
            } else {
                end - index - 1
            };
            let mut out: Vec<Block> = Vec::new();
            append_quote_separator_children(&mut out, count);
            proof {
                assert(blocks::block_views(Seq::<Block>::empty()) =~= Seq::empty());
                assert(Seq::<blocks::BlockView>::empty() + import_model::empty_paragraphs(
                    count as nat,
                ) =~= import_model::empty_paragraphs(count as nat));
            }
            return (out, end);
        }
        if parse_opening_fence(line).is_some() {
            match collect_fenced_code_block(lines, index) {
                Some((block, end)) => {
                    return (one_block(block), end);
                },
                None => {
                    let (block, end) = Self::collect_paragraph_block(lines, index);
                    return (one_block(block), end);
                },
            }
        }
        if let Some((block, end)) = collect_comment_block(lines, index) {
            return (one_block(block), end);
        }
        if is_block_html_start(line) {
            let end: usize = collect_block_html_region(lines, index);
            return (one_block(html_or_raw_block(join_lines(lines, index, end), semantic)), end);
        }
        if is_footnote_definition_start(line) {
            let end: usize = collect_footnote_definition_region(lines, index);
            if native_footnotes {
                let region = slice_subrange(lines, index, end);
                proof {
                    assert(text::texts(region@) =~= all.subrange(index as int, end as int));
                    import_model::lemma_total_subrange(all, index as int, end as int);
                }
                let block = Self::build_native_footnote_definition_block(region, semantic);
                return (one_block(block), end);
            }
            return (one_block(raw_block(join_lines(lines, index, end))), end);
        }
        if is_reference_definition_start(line) {
            let end: usize = collect_reference_definition_region(lines, index);
            return (one_block(raw_block(join_lines(lines, index, end))), end);
        }
        if let Some(level) = setext_level_below(lines, index) {
            let block = native_block(
                BlockKind::Heading { level },
                String::from_str(trim_end(line)),
            );
            return (one_block(block), index + 2);
        }
        if parse_standalone_image(line).is_some() {
            return (one_block(standalone_image_block(String::from_str(line))), index + 1);
        }
        if strip_indented_code_prefix(line).is_some() {
            let (block, end) = collect_indented_code_block(lines, index);
            return (one_block(block), end);
        }
        if parse_list_marker(line).is_some() {
            return Self::collect_list_blocks(lines, semantic, index);
        }
        if is_quote_start(line) {
            let (block, end) = Self::collect_quote_block(lines, semantic, index);
            return (one_block(block), end);
        }
        if let Some((level, content)) = BlockKind::parse_atx_heading_line(line) {
            return (one_block(native_block(BlockKind::Heading { level }, content)), index + 1);
        }
        if BlockKind::parse_separator_line(line) {
            return (one_block(literal_block(BlockKind::Separator, String::new())), index + 1);
        }
        if is_root_table_candidate_line(line) {
            let end: usize = collect_root_table_candidate_region(lines, index);
            match parse_root_table_region(lines, index, end) {
                Some(table) => {
                    return (one_block(table_block(table)), end);
                },
                None => {
                    let region = slice_subrange(lines, index, end);
                    let out = plain_text_paragraph_blocks(region);
                    assert(text::texts(region@) =~= all.subrange(index as int, end as int));
                    return (out, end);
                },
            }
        }
        if let Some((table, end)) = parse_pipeless_table(lines, index) {
            return (one_block(table_block(table)), end);
        }
        if is_display_math_start(line) {
            let end: usize = collect_display_math_region(lines, index);
            return (one_block(math_or_raw_block(join_lines(lines, index, end))), end);
        }
        let (block, end) = Self::collect_paragraph_block(lines, index);
        (one_block(block), end)
    }

    /// The block of the footnote that the lines define.
    fn build_native_footnote_definition_block(lines: &[String], semantic: &[String]) -> (r: Block)
        requires
            lines@.len() > 0,
        ensures
            r@ == import_model::footnote_block(text::texts(lines@), text::texts(semantic@)),
        decreases import_model::total(text::texts(lines@)), 1int,
    {
        let ghost all = text::texts(lines@);
        match parse_footnote_definition_head(lines[0].as_str()) {
            None => {
                assert(all.subrange(0, all.len() as int) =~= all);
                raw_block(join_lines(lines, 0, lines.len()))
            },
            Some((id, first_line)) => {
                let rest = slice_subrange(lines, 1, lines.len());
                let mut dedented = dedent_lines(rest, 4);
                let mut body: Vec<String> = Vec::new();
                let ghost first = first_line@;
                if !first_line.as_str().is_empty() {
                    body.push(first_line);
                }
                let ghost head = body@;
                let ghost tail = dedented@;
                body.append(&mut dedented);
                proof {
                    assert(text::texts(rest@) =~= all.skip(1));
                    assert(text::texts(body@) =~= text::texts(head) + text::texts(tail));
                    if first.len() == 0 {
                        assert(text::texts(body@) =~= import_model::footnote_body(all, first));
                    } else {
                        assert(text::texts(head) =~= seq![first]);
                        assert(text::texts(body@) =~= import_model::footnote_body(all, first));
                    }
                    import_model::lemma_footnote_body_shrinks(all);
                }
                let children = Self::build_blocks_from_lines_internal(
                    body.as_slice(),
                    false,
                    semantic,
                );
                let mut block = literal_block(BlockKind::FootnoteDefinition, id);
                attach_child_blocks(&mut block, children);
                assert(block@.children =~= blocks::block_views(children@));
                block
            },
        }
    }

    /// The list items from `start` on, and the index of the line after them.
    fn collect_list_blocks(lines: &[String], semantic: &[String], start: usize) -> (r: (
        Vec<Block>,
        usize,
    ))
        requires
            start < lines@.len(),
            grammar::list_marker(lines@[start as int]@) is Some,
        ensures
            (blocks::block_views(r.0@), r.1 as int) == import_model::list_blocks(
                text::texts(lines@),
                text::texts(semantic@),
                start as int,
            ),
            start < r.1 <= lines@.len(),
        decreases import_model::total(text::texts(lines@)), 2int,
    {
        let ghost all = text::texts(lines@);
        let ghost known = text::texts(semantic@);
        let n: usize = lines.len();
        let mut roots: Vec<Block> = Vec::new();
        let mut index: usize = start;
        proof {
            assert(blocks::block_views(roots@) =~= Seq::empty());
            let whole = import_model::list_blocks(all, known, start as int);
            assert(blocks::block_views(roots@) + whole.0 =~= whole.0);
        }
        while index < n
            invariant
                all == text::texts(lines@),
                known == text::texts(semantic@),
                n == lines@.len(),
                start <= index <= n,
                start < n,
                grammar::list_marker(lines@[start as int]@) is Some,
                index > start || roots@.len() == 0,
                ({
                    let whole = import_model::list_blocks(all, known, start as int);
                    let tail = import_model::list_blocks(all, known, index as int);
                    whole.0 == blocks::block_views(roots@) + tail.0 && whole.1 == tail.1
                }),
            ensures
                start < index <= n,
                (blocks::block_views(roots@), index as int) == import_model::list_blocks(
                    all,
                    known,
                    start as int,
                ),
            decreases n - index,
        {
            match parse_list_marker(lines[index].as_str()) {
                None => {
                    proof {
                        assert(blocks::block_views(roots@) + Seq::<blocks::BlockView>::empty()
                            =~= blocks::block_views(roots@));
                    }
                    break;
                },
                Some(marker) => {
                    let end: usize = collect_list_item_region(
                        lines,
                        index,
                        marker.indent_columns,
                    );
                    let block = Self::collect_list_item(lines, semantic, index, marker, end);
                    proof {
                        let before = blocks::block_views(roots@);
                        lemma_block_views_push(roots@, block);
                        let tail = import_model::list_blocks(all, known, end as int);
                        assert(before + (seq![block@] + tail.0) =~= before.push(block@) + tail.0);
                    }
                    roots.push(block);
                    index = end;
                },
            }
        }
        proof {
            assert(blocks::block_views(roots@) + Seq::<blocks::BlockView>::empty()
                =~= blocks::block_views(roots@));
        }
        (roots, index)
    }

    /// The list item that `lines[index..end]` hold.
    fn collect_list_item(
        lines: &[String],
        semantic: &[String],
        index: usize,
        marker: ListMarker,
        end: usize,
    ) -> (r: Block)
        requires
            index < end <= lines@.len(),
            grammar::list_marker(lines@[index as int]@) == Some(marker@),
            end == regions::item_end_from(
                text::texts(lines@),
                index + 1,
                0,
                marker@.indent_columns,
            ),
        ensures
            r@ == import_model::list_item(
                text::texts(lines@),
                text::texts(semantic@),
                index as int,
            ),
        decreases import_model::total(text::texts(lines@)), 1int,
    {
        let ghost all = text::texts(lines@);
        let body = slice_subrange(lines, index + 1, end);
        let ListMarker { kind, indent_columns, content_indent_columns, text } = marker;
        let block = native_block(kind, text);
        proof {
            assert(text::texts(body@) =~= all.subrange(index + 1, end as int));
            import_model::lemma_total_subrange(all, index + 1, end as int);
            import_model::lemma_marker_line_is_not_empty(all[index as int]);
        }
        match Self::collect_item_body(
            body,
            semantic,
            indent_columns,
            content_indent_columns,
            block,
        ) {
            Some(item) => item,
            None => raw_block(join_lines(lines, index, end)),
        }
    }

    /// Reads the body lines of a list item into its block. There is none if the
    /// body holds a quote that cannot be a block.
    fn collect_item_body(
        body: &[String],
        semantic: &[String],
        columns: u128,
        content_columns: u128,
        item: Block,
    ) -> (r: Option<Block>)
        requires
            item@.children.len() == 0,
            item@.table is None,
        ensures
            ({
                let content = import_model::item_body(
                    text::texts(body@),
                    text::texts(semantic@),
                    columns as nat,
                    content_columns as nat,
                    0,
                    false,
                    false,
                    item@.title,
                    Seq::empty(),
                );
                match r {
                    Some(block) => content is Some && block@ == (blocks::BlockView {
                        kind: item@.kind,
                        title: (content->0).0,
                        table: None,
                        children: (content->0).1,
                    }),
                    None => content is None,
                }
            }),
        decreases import_model::total(text::texts(body@)), 6int,
    {
        let ghost all = text::texts(body@);
        let ghost known = text::texts(semantic@);
        let ghost c = columns as nat;
        let ghost cc = content_columns as nat;
        let n: usize = body.len();
        let mut block = item;
        let mut index: usize = 0;
        let mut gap = false;
        let mut nested = false;
        assert(block@.children =~= Seq::empty());
        while index < n
            invariant
                all == text::texts(body@),
                known == text::texts(semantic@),
                c == columns as nat,
                cc == content_columns as nat,
                n == body@.len(),
                index <= n,
                block@.kind == item@.kind,
                block@.table is None,
                import_model::item_body(all, known, c, cc, 0, false, false, item@.title, Seq::empty())
                    == import_model::item_body(
                    all,
                    known,
                    c,
                    cc,
                    index as int,
                    gap,
                    nested,
                    block@.title,
                    block@.children,
                ),
            decreases n - index,
        {
            if is_blank(body[index].as_str()) {
                gap = true;
                index = index + 1;
                continue;
            }
            match Self::collect_item_step(
                body,
                semantic,
                columns,
                content_columns,
                index,
                gap || nested,
                &block.title,
            ) {
                BodyStep::Children(children, lines) => {
                    attach_child_blocks(&mut block, children);
                    gap = false;
                    nested = true;
                    index = index + lines;
                },
                BodyStep::Unsupported => {
                    return None;
                },
                BodyStep::Text => {
                    let ghost before = block@;
                    let line = body[index].as_str();
                    let (_columns, indent) = leading_indent_columns_and_bytes(line);
                    let cs = text::chars_of(line);
                    let trimmed = slice_text(line, indent, cs.len());
                    let separator = if gap {
                        "\n\n"
                    } else {
                        "\n"
                    };
                    append_markdown_to_block(&mut block, separator, trimmed);
                    proof {
                        reveal_strlit("\n\n");
                        reveal_strlit("\n");
                        assert(trimmed@ =~= all[index as int].skip(
                            grammar::indent_len(all[index as int]) as int,
                        ));
                        assert(block@.title =~= before.title + import_model::continuation(
                            all[index as int],
                            gap,
                        ));
                    }
                    gap = false;
                    index = index + 1;
                },
            }
        }
        Some(block)
    }

    /// What `body[index]` stands for in a list item.
    #[verifier::rlimit(40)]
    fn collect_item_step(
        body: &[String],
        semantic: &[String],
        columns: u128,
        content_columns: u128,
        index: usize,
        separated: bool,
        title: &InlineTextTree,
    ) -> (r: BodyStep)
        requires
            index < body@.len(),
        ensures
            r.item_view() == import_model::item_step(
                text::texts(body@),
                text::texts(semantic@),
                columns as nat,
                content_columns as nat,
                index as int,
                separated,
                title@,
            ),
            r matches BodyStep::Children(_, lines) ==> 0 < lines <= body@.len() - index,
        decreases import_model::total(text::texts(body@)), 5int,
    {
        let ghost all = text::texts(body@);
        let n: usize = body.len();
        let (indent, _len) = leading_indent_columns_and_bytes(body[index].as_str());
        if indent <= columns {
            return BodyStep::Text;
        }
        let rest = slice_subrange(body, index, n);
        let anchored_lines = dedent_lines(rest, indent);
        let anchored = anchored_lines.as_slice();
        proof {
            assert(text::texts(rest@) =~= all.subrange(index as int, n as int));
            import_model::lemma_total_subrange(all, index as int, n as int);
            import_model::lemma_dedent_shrinks(text::texts(rest@), indent as nat);
            assert(text::texts(anchored@).len() == n - index);
            assert(anchored@.len() == n - index);
        }
        let first = anchored[0].as_str();
        if parse_list_marker(first).is_some() {
            let (children, lines) = Self::collect_list_blocks(anchored, semantic, 0);
            return BodyStep::Children(children, lines);
        }
        if is_quote_start(first) {
            let (quote, lines) = Self::collect_quote_block(anchored, semantic, 0);
            if quote.kind.is_raw_markdown() {
                return BodyStep::Unsupported;
            }
            return BodyStep::Children(one_block(quote), lines);
        }
        let content = dedent_lines(rest, content_columns);
        proof {
            assert(text::texts(content@).len() == n - index);
            assert(content@.len() == n - index);
        }
        let title_source = title.text();
        let promote = separated || title_source.as_str().is_empty() || parse_standalone_image(
            title_source.as_str(),
        ).is_some();
        collect_leaf_item_step(
            anchored,
            content.as_slice(),
            semantic,
            indent >= content_columns,
            promote,
        )
    }

    /// The quote that starts at `start`, and the index of the line after it.
    fn collect_quote_block(lines: &[String], semantic: &[String], start: usize) -> (r: (
        Block,
        usize,
    ))
        requires
            start < lines@.len(),
            grammar::quote_start(lines@[start as int]@),
        ensures
            (r.0@, r.1 as int) == import_model::quote_block(
                text::texts(lines@),
                text::texts(semantic@),
                start as int,
            ),
            start < r.1 <= lines@.len(),
        decreases import_model::total(text::texts(lines@)), 1int,
    {
        let ghost all = text::texts(lines@);
        proof {
            lemma_quoted_line_is_not_blank(all[start as int]);
        }
        let end: usize = collect_quote_raw_region(lines, start);
        let ghost region = all.subrange(start as int, end as int);
        let mut dequoted: Vec<String> = Vec::new();
        let mut index: usize = start;
        while index < end
            invariant
                all == text::texts(lines@),
                region == all.subrange(start as int, end as int),
                start <= index <= end <= lines@.len(),
                forall|k: int|
                    start <= k < end ==> grammar::quote_start((#[trigger] lines@[k])@),
                text::texts(dequoted@) == import_model::unquote_all(region.take(index - start)),
            decreases end - index,
        {
            let ghost before = dequoted@;
            proof {
                import_model::lemma_unquote_shrinks(lines@[index as int]@);
                assert(region.take(index + 1 - start) =~= region.take(index - start).push(
                    lines@[index as int]@,
                ));
            }
            match strip_one_quote_level(lines[index].as_str()) {
                Some(content) => {
                    proof {
                        assert(text::texts(before.push(content)) =~= text::texts(before).push(
                            content@,
                        ));
                        assert(import_model::unquote_all(region.take(index + 1 - start))
                            =~= import_model::unquote_all(region.take(index - start)).push(
                            content@,
                        ));
                    }
                    dequoted.push(content);
                },
                None => {},
            }
            index = index + 1;
        }
        proof {
            assert(region.take(end - start) =~= region);
            import_model::lemma_total_subrange(all, start as int, end as int);
            assert forall|i: int| 0 <= i < region.len() implies grammar::quote_start(
                #[trigger] region[i],
            ) by {
                assert(region[i] == lines@[start + i]@);
            }
            import_model::lemma_unquote_all_shrinks(region);
        }
        match Self::build_native_quote_block(dequoted.as_slice(), semantic) {
            Some(block) => (block, end),
            None => (raw_block(join_lines(lines, start, end)), end),
        }
    }

    /// The quote or callout whose unquoted lines these are.
    fn build_native_quote_block(lines: &[String], semantic: &[String]) -> (r: Option<Block>)
        ensures
            grammar::opt_view(r) == import_model::native_quote(
                text::texts(lines@),
                text::texts(semantic@),
            ),
        decreases import_model::total(text::texts(lines@)), 8int,
    {
        let ghost all = text::texts(lines@);
        let ghost known = text::texts(semantic@);
        let n: usize = lines.len();
        let header: usize = skip_blank_lines(lines, 0);
        if header < n {
            if let Some((variant, title)) = CalloutVariant::parse_header_line(
                lines[header].as_str(),
            ) {
                let body = slice_subrange(lines, header + 1, n);
                proof {
                    assert(text::texts(body@) =~= all.subrange(header + 1, n as int));
                    import_model::lemma_total_subrange(all, header + 1, n as int);
                }
                return Self::build_native_callout_block(body, semantic, variant, title);
            }
        }
        let mut title = String::new();
        let mut children: Vec<Block> = Vec::new();
        let mut index: usize = 0;
        let mut pending: usize = 0;
        let mut nested = false;
        let ghost whole = import_model::quote_body(
            all,
            known,
            0,
            0,
            false,
            Seq::empty(),
            Seq::empty(),
        );
        proof {
            assert(blocks::block_views(children@) =~= Seq::empty());
        }
        while index < n
            invariant
                all == text::texts(lines@),
                known == text::texts(semantic@),
                n == lines@.len(),
                index <= n,
                pending <= index,
                import_model::native_quote(all, known) == (match whole {
                    Some(content) => Some(
                        blocks::BlockView {
                            kind: BlockKind::Quote,
                            title: blocks::markdown_title(content.0),
                            table: None,
                            children: content.1,
                        },
                    ),
                    None => None::<blocks::BlockView>,
                }),
                whole == import_model::quote_body(
                    all,
                    known,
                    index as int,
                    pending as nat,
                    nested,
                    title@,
                    blocks::block_views(children@),
                ),
            decreases n - index,
        {
            if is_blank(lines[index].as_str()) {
                pending = pending + 1;
                index = index + 1;
                continue;
            }
            let step = Self::collect_quote_step(lines, semantic, index);
            let separate = !title.as_str().is_empty() || children.len() > 0;
            let ghost before = blocks::block_views(children@);
            let ghost separated = before + import_model::quote_separators(
                pending as nat,
                title@,
                before,
            );
            match step {
                ContentStep::Unsupported => {
                    return None;
                },
                ContentStep::Children(blocks, end) => {
                    let mut blocks = blocks;
                    if separate {
                        append_quote_separator_children(&mut children, pending);
                    }
                    proof {
                        assert(blocks::block_views(children@) =~= separated);
                        lemma_block_views_concat(children@, blocks@);
                    }
                    children.append(&mut blocks);
                    nested = true;
                    pending = 0;
                    index = end;
                },
                ContentStep::Paragraph(end) => {
                    let source = join_lines(lines, index, end);
                    let image = end - index == 1 && parse_standalone_image(
                        lines[index].as_str(),
                    ).is_some();
                    if image || nested {
                        if separate {
                            append_quote_separator_children(&mut children, pending);
                        }
                        assert(blocks::block_views(children@) =~= separated);
                        let block = if image {
                            standalone_image_block(source)
                        } else {
                            native_block(BlockKind::Paragraph, source)
                        };
                        proof {
                            lemma_block_views_push(children@, block);
                        }
                        children.push(block);
                        nested = true;
                    } else {
                        let ghost title_before = title@;
                        if !title.as_str().is_empty() {
                            title.append(
                                if pending > 0 {
                                    "\n\n"
                                } else {
                                    "\n"
                                },
                            );
                        }
                        title.append(source.as_str());
                        assert(title@ =~= import_model::extended_title(
                            title_before,
                            pending as nat,
                            source@,
                        ));
                    }
                    pending = 0;
                    index = end;
                },
            }
        }
        let ghost before = blocks::block_views(children@);
        if !title.as_str().is_empty() || children.len() > 0 {
            append_quote_separator_children(&mut children, pending);
        }
        proof {
            assert(blocks::block_views(children@) =~= before + import_model::quote_separators(
                pending as nat,
                title@,
                before,
            ));
        }
        let mut block = native_block(BlockKind::Quote, title);
        attach_child_blocks(&mut block, children);
        assert(block@.children =~= blocks::block_views(children@));
        Some(block)
    }

    /// The callout whose unquoted body lines these are.
    fn build_native_callout_block(
        lines: &[String],
        semantic: &[String],
        variant: CalloutVariant,
        title: String,
    ) -> (r: Option<Block>)
        ensures
            grammar::opt_view(r) == import_model::native_callout(
                text::texts(lines@),
                text::texts(semantic@),
                variant,
                title@,
            ),
        decreases import_model::total(text::texts(lines@)), 7int,
    {
        let ghost all = text::texts(lines@);
        let ghost known = text::texts(semantic@);
        let n: usize = lines.len();
        let mut children: Vec<Block> = Vec::new();
        let mut index: usize = 0;
        let mut pending: usize = 0;
        let ghost whole = import_model::callout_body(all, known, 0, 0, Seq::empty());
        proof {
            assert(blocks::block_views(children@) =~= Seq::empty());
        }
        while index < n
            invariant
                all == text::texts(lines@),
                known == text::texts(semantic@),
                n == lines@.len(),
                index <= n,
                pending <= index,
                import_model::native_callout(all, known, variant, title@) == (match whole {
                    Some(content) => Some(
                        blocks::BlockView {
                            kind: BlockKind::Callout(variant),
                            title: blocks::markdown_title(title@),
                            table: None,
                            children: content,
                        },
                    ),
                    None => None::<blocks::BlockView>,
                }),
                whole == import_model::callout_body(
                    all,
                    known,
                    index as int,
                    pending as nat,
                    blocks::block_views(children@),
                ),
            decreases n - index,
        {
            if is_blank(lines[index].as_str()) {
                pending = pending + 1;
                index = index + 1;
                continue;
            }
            let step = Self::collect_quote_step(lines, semantic, index);
            append_quote_separator_children(&mut children, pending);
            pending = 0;
            match step {
                ContentStep::Unsupported => {
                    return None;
                },
                ContentStep::Children(blocks, end) => {
                    let mut blocks = blocks;
                    proof {
                        lemma_block_views_concat(children@, blocks@);
                    }
                    children.append(&mut blocks);
                    index = end;
                },
                ContentStep::Paragraph(end) => {
                    let block = native_block(
                        BlockKind::Paragraph,
                        join_lines(lines, index, end),
                    );
                    proof {
                        lemma_block_views_push(children@, block);
                    }
                    children.push(block);
                    index = end;
                },
            }
        }
        append_quote_separator_children(&mut children, pending);
        let mut block = native_block(BlockKind::Callout(variant), title);
        attach_child_blocks(&mut block, children);
        assert(block@.children =~= blocks::block_views(children@));
        Some(block)
    }

    /// What `lines[index]` stands for in a quote or a callout.
    #[verifier::rlimit(40)]
    fn collect_quote_step(lines: &[String], semantic: &[String], index: usize) -> (r: ContentStep)
        requires
            index < lines@.len(),
        ensures
            r.quote_view() == import_model::quote_step(
                text::texts(lines@),
                text::texts(semantic@),
                index as int,
            ),
            r matches ContentStep::Children(_, end) ==> index < end <= lines@.len(),
            r matches ContentStep::Paragraph(end) ==> index < end <= lines@.len(),
        decreases import_model::total(text::texts(lines@)), 5int,
    {
        let ghost all = text::texts(lines@);
        let line = lines[index].as_str();
        if is_table_candidate_line(line) {
            let end: usize = collect_table_candidate_region(lines, index);
            return ContentStep::Children(one_block(table_or_raw_block(lines, index, end)), end);
        }
        if is_footnote_definition_start(line) {
            let end: usize = collect_footnote_definition_region(lines, index);
            let region = slice_subrange(lines, index, end);
            proof {
                assert(text::texts(region@) =~= all.subrange(index as int, end as int));
                import_model::lemma_total_subrange(all, index as int, end as int);
            }
            let block = Self::build_native_footnote_definition_block(region, semantic);
            return ContentStep::Children(one_block(block), end);
        }
        if let Some((comment, end)) = collect_comment_block(lines, index) {
            return ContentStep::Children(one_block(comment), end);
        }
        if is_block_html_start(line) {
            let end: usize = collect_block_html_region(lines, index);
            let block = html_or_raw_block(join_lines(lines, index, end), semantic);
            return ContentStep::Children(one_block(block), end);
        }
        if is_display_math_start(line) {
            let end: usize = collect_display_math_region(lines, index);
            let block = math_or_raw_block(join_lines(lines, index, end));
            return ContentStep::Children(one_block(block), end);
        }
        if let Some(end) = collect_unsupported_quote_region(lines, index) {
            let block = raw_block(join_lines(lines, index, end));
            return ContentStep::Children(one_block(block), end);
        }
        if is_quote_start(line) {
            let (quote, end) = Self::collect_quote_block(lines, semantic, index);
            if quote.kind.is_raw_markdown() {
                return ContentStep::Unsupported;
            }
            return ContentStep::Children(one_block(quote), end);
        }
        if parse_list_marker(line).is_some() {
            let (items, end) = Self::collect_list_blocks(lines, semantic, index);
            if has_raw_block(&items) {
                return ContentStep::Unsupported;
            }
            return ContentStep::Children(items, end);
        }
        if let Some((code, end)) = collect_fenced_code_block(lines, index) {
            return ContentStep::Children(one_block(code), end);
        }
        if starts_with_standalone_image_child_paragraph(lines, index) {
            let block = standalone_image_block(String::from_str(line));
            return ContentStep::Children(one_block(block), index + 1);
        }
        if strip_indented_code_prefix(line).is_some() {
            let (code, end) = collect_indented_code_block(lines, index);
            return ContentStep::Children(one_block(code), end);
        }
        ContentStep::Paragraph(collect_quote_paragraph_region(lines, index))
    }
}

/// What a line in the body of a list item stands for.
pub enum BodyStep {
    /// Blocks under the item, and how many lines they take up.
    Children(Vec<Block>, usize),
    /// A quote that cannot be a block.
    Unsupported,
    /// More text for the item's title.
    Text,
}

impl BodyStep {
    pub open spec fn item_view(self) -> ItemStep {
        match self {
            BodyStep::Children(items, lines) => ItemStep::Children(
                blocks::block_views(items@),
                lines as int,
            ),
            BodyStep::Unsupported => ItemStep::Unsupported,
            BodyStep::Text => ItemStep::Text,
        }
    }
}

/// What a line in a quote stands for.
pub enum ContentStep {
    /// Blocks under the quote, and the index of the line after them.
    Children(Vec<Block>, usize),
    /// A list or quote that cannot be blocks.
    Unsupported,
    /// A paragraph that ends before this index.
    Paragraph(usize),
}

impl ContentStep {
    pub open spec fn quote_view(self) -> QuoteStep {
        match self {
            ContentStep::Children(items, end) => QuoteStep::Children(
                blocks::block_views(items@),
                end as int,
            ),
            ContentStep::Unsupported => QuoteStep::Unsupported,
            ContentStep::Paragraph(end) => QuoteStep::Paragraph(end as int),
        }
    }
}

/// Whether the last of the blocks is a list item.
pub open spec fn ends_in_list(items: Seq<blocks::BlockView>) -> bool {
    items.len() > 0 && blocks::kind_is_list_item(items.last().kind)
}

/// A line with a quote marker is not blank.
pub proof fn lemma_quoted_line_is_not_blank(line: Seq<char>)
    requires
        grammar::quote_start(line),
    ensures
        !text::blank(line),
{
    reveal(grammar::quote_start);
    text::blank_iff_trimmed_is_empty(line);
}

fn has_raw_block(items: &Vec<Block>) -> (r: bool)
    ensures
        r == import_model::any_raw(blocks::block_views(items@)),
{
    let ghost views = blocks::block_views(items@);
    let mut index: usize = 0;
    while index < items.len()
        invariant
            views == blocks::block_views(items@),
            index <= items@.len(),
            forall|k: int| 0 <= k < index ==> !((#[trigger] views[k]).kind is RawMarkdown),
        decreases items@.len() - index,
    {
        if items[index].kind.is_raw_markdown() {
            assert(views[index as int].kind is RawMarkdown);
            return true;
        }
        index = index + 1;
    }
    false
}

fn plain_text_paragraph_blocks(lines: &[String]) -> (r: Vec<Block>)
    ensures
        blocks::block_views(r@) == import_model::plain_paragraphs(text::texts(lines@)),
{
    let ghost all = text::texts(lines@);
    let mut out: Vec<Block> = Vec::new();
    let mut index: usize = 0;
    while index < lines.len()
        invariant
            all == text::texts(lines@),
            index <= lines@.len(),
            out@.len() == index,
            forall|k: int|
                0 <= k < index ==> (#[trigger] out@[k])@ == import_model::literal_leaf(
                    BlockKind::Paragraph,
                    all[k],
                ),
        decreases lines@.len() - index,
    {
        out.push(plain_text_paragraph_block(lines[index].clone()));
        index = index + 1;
    }
    assert(blocks::block_views(out@) =~= import_model::plain_paragraphs(all));
    out
}

fn parse_pipeless_table(lines: &[String], index: usize) -> (r: Option<(TableData, usize)>)
    requires
        index < lines@.len(),
    ensures
        (match r {
            Some(t) => Some((t.0@, t.1 as int)),
            None => None,
        }) == import_model::pipeless_table(text::texts(lines@), index as int),
        r matches Some(t) ==> index < t.1 <= lines@.len(),
{
    reveal(import_model::pipeless_table);
    match collect_pipeless_table_region(lines, index) {
        Some(end) => match parse_root_table_region(lines, index, end) {
            Some(table) => Some((table, end)),
            None => None,
        },
        None => None,
    }
}

fn collect_quote_paragraph_region(lines: &[String], start: usize) -> (r: usize)
    requires
        start < lines@.len(),
    ensures
        r == import_model::quote_paragraph_end(text::texts(lines@), start + 1),
        start < r <= lines@.len(),
{
    let ghost all = text::texts(lines@);
    let n: usize = lines.len();
    let mut index: usize = start + 1;
    while index < n
        invariant
            all == text::texts(lines@),
            n == lines@.len(),
            start < index <= n,
            import_model::quote_paragraph_end(all, start + 1) == import_model::quote_paragraph_end(
                all,
                index as int,
            ),
        ensures
            import_model::quote_paragraph_end(all, start + 1) == index,
            start < index <= n,
        decreases n - index,
    {
        let next = lines[index].as_str();
        if is_blank(next) || is_quote_start(next) || parse_list_marker(next).is_some()
            || parse_opening_fence(next).is_some() || strip_indented_code_prefix(next).is_some()
            || quote_content_starts_unsupported(lines, index) {
            break;
        }
        index = index + 1;
    }
    index
}

/// What the first of the lines stands for in a list item, lists and quotes
/// aside.
fn collect_leaf_item_step(
    lines: &[String],
    content: &[String],
    semantic: &[String],
    in_content: bool,
    promote: bool,
) -> (r: BodyStep)
    requires
        lines@.len() > 0,
        content@.len() == lines@.len(),
    ensures
        r.item_view() == import_model::leaf_item_step(
            text::texts(lines@),
            text::texts(content@),
            text::texts(semantic@),
            in_content,
            promote,
        ),
        r matches BodyStep::Children(_, taken) ==> 0 < taken <= lines@.len(),
{
    reveal(import_model::leaf_item_step);
    let line = lines[0].as_str();
    if let Some((code, end)) = collect_fenced_code_block(lines, 0) {
        return BodyStep::Children(one_block(code), end);
    }
    if is_root_table_candidate_line(line) {
        let end: usize = collect_root_table_candidate_region(lines, 0);
        return BodyStep::Children(one_block(table_or_raw_block(lines, 0, end)), end);
    }
    if starts_with_standalone_image_child_paragraph(lines, 0) {
        let block = standalone_image_block(String::from_str(line));
        return BodyStep::Children(one_block(block), 1);
    }
    if in_content && strip_indented_code_prefix(content[0].as_str()).is_some() {
        let (code, end) = collect_indented_code_block(content, 0);
        return BodyStep::Children(one_block(code), end);
    }
    if is_reference_definition_start(line) {
        let end: usize = collect_reference_definition_region(lines, 0);
        return BodyStep::Children(one_block(raw_block(join_lines(lines, 0, end))), end);
    }
    if let Some((comment, end)) = collect_comment_block(lines, 0) {
        return BodyStep::Children(one_block(comment), end);
    }
    if is_block_html_start(line) {
        let end: usize = collect_block_html_region(lines, 0);
        let block = html_or_raw_block(join_lines(lines, 0, end), semantic);
        return BodyStep::Children(one_block(block), end);
    }
    if is_footnote_definition_start(line) {
        let end: usize = collect_footnote_definition_region(lines, 0);
        return BodyStep::Children(one_block(raw_block(join_lines(lines, 0, end))), end);
    }
    if is_display_math_start(line) {
        let end: usize = collect_display_math_region(lines, 0);
        return BodyStep::Children(one_block(math_or_raw_block(join_lines(lines, 0, end))), end);
    }
    if promote {
        let (paragraph, end) = Editor::collect_paragraph_block(lines, 0);
        return BodyStep::Children(one_block(paragraph), end);
    }
    BodyStep::Text
}

} // verus!
