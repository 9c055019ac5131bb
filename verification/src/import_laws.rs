//! Laws of importing Markdown.

use crate::blocks;
use crate::blocks::BlockKind;
use crate::grammar;
use crate::import_model;
use crate::markup;
use crate::regions;
use crate::regions::Lines;
use crate::table_syntax;
use crate::text;
use vstd::prelude::*;

verus! {

proof fn lemma_until_blank(lines: Lines, index: int)
    requires
        0 <= index <= lines.len(),
    ensures
        index <= regions::until_blank(lines, index) <= lines.len(),
    decreases lines.len() - index,
{
    if index < lines.len() {
        lemma_until_blank(lines, index + 1);
    }
}

proof fn lemma_html_fallback(lines: Lines, index: int)
    requires
        0 <= index <= lines.len(),
    ensures
        index <= regions::html_fallback_from(lines, index) <= lines.len(),
    decreases lines.len() - index,
{
    if index < lines.len() {
        lemma_html_fallback(lines, index + 1);
    }
}

proof fn lemma_paragraph_end(lines: Lines, start: int, index: int)
    requires
        0 <= index <= lines.len(),
    ensures
        index <= regions::paragraph_end_from(lines, start, index) <= lines.len(),
    decreases lines.len() - index,
{
    if index < lines.len() {
        lemma_paragraph_end(lines, start, index + 1);
    }
}

proof fn lemma_fence_close(lines: Lines, index: int, opener: grammar::FenceView)
    requires
        0 <= index <= lines.len(),
    ensures
        regions::fence_close_from(lines, index, opener) matches Some(close) ==> index <= close
            < lines.len(),
    decreases lines.len() - index,
{
    if index < lines.len() {
        lemma_fence_close(lines, index + 1, opener);
    }
}

proof fn lemma_comment_close(lines: Lines, index: int)
    requires
        0 <= index <= lines.len(),
    ensures
        regions::comment_close_from(lines, index) matches Some(end) ==> index < end <= lines.len(),
    decreases lines.len() - index,
{
    if index < lines.len() {
        lemma_comment_close(lines, index + 1);
    }
}

proof fn lemma_tag_close(lines: Lines, index: int, name: Seq<char>, depth: nat)
    requires
        0 <= index <= lines.len(),
    ensures
        regions::tag_close_from(lines, index, name, depth) matches Some(end) ==> index < end
            <= lines.len(),
    decreases lines.len() - index,
{
    if index < lines.len() {
        let opened = if regions::opens_tag(lines[index], name) {
            depth + 1
        } else {
            depth
        };
        lemma_tag_close(lines, index + 1, name, opened);
        if opened > 1 {
            lemma_tag_close(lines, index + 1, name, (opened - 1) as nat);
        }
    }
}

proof fn lemma_reference_end(lines: Lines, index: int)
    requires
        0 <= index <= lines.len(),
    ensures
        index <= regions::reference_end_from(lines, index) <= lines.len(),
    decreases lines.len() - index,
{
    if index < lines.len() {
        lemma_reference_end(lines, index + 1);
    }
}

proof fn lemma_math_end(lines: Lines, index: int)
    requires
        0 <= index <= lines.len(),
    ensures
        index <= regions::math_end_from(lines, index) <= lines.len(),
    decreases lines.len() - index,
{
    if index < lines.len() {
        import_model::lemma_skip_blank(lines, index + 1);
        lemma_math_end(lines, index + 1);
    }
}

proof fn lemma_indented_end(lines: Lines, index: int)
    requires
        0 <= index <= lines.len(),
    ensures
        index <= import_model::indented_end_from(lines, index) <= lines.len(),
    decreases lines.len() - index,
{
    if index < lines.len() {
        lemma_indented_end(lines, index + 1);
    }
}

proof fn lemma_table_run(lines: Lines, index: int)
    requires
        0 <= index <= lines.len(),
    ensures
        index <= table_syntax::table_run_end(lines, index) <= lines.len(),
        index <= table_syntax::pipeless_run_end(lines, index) <= lines.len(),
    decreases lines.len() - index,
{
    if index < lines.len() {
        lemma_table_run(lines, index + 1);
    }
}

proof fn lemma_html_region(lines: Lines, start: int)
    requires
        0 <= start < lines.len(),
    ensures
        start < regions::html_region_end(lines, start) <= lines.len(),
{
    reveal(regions::html_region_end);
    reveal(regions::closed_comment_end);
    lemma_comment_close(lines, start);
    lemma_html_fallback(lines, start + 1);
    lemma_until_blank(lines, start + 1);
    if let Some(grammar::HtmlBlockStart::Tag { name, self_closing, closes_same_line }) =
        markup::html_block_start(lines[start]) {
        lemma_tag_close(lines, start + 1, name, 1);
    }
}

proof fn lemma_list_blocks(lines: Lines, semantic: Lines, index: int)
    requires
        0 <= index <= lines.len(),
    ensures
        index <= import_model::list_blocks(lines, semantic, index).1 <= lines.len(),
        index < lines.len() && grammar::list_marker(lines[index]) is Some ==> index
            < import_model::list_blocks(lines, semantic, index).1,
    decreases lines.len() - index,
{
    if index < lines.len() && grammar::list_marker(lines[index]) is Some {
        let columns = (grammar::list_marker(lines[index])->0).indent_columns;
        import_model::lemma_item_end(lines, index + 1, 0, columns);
        lemma_list_blocks(
            lines,
            semantic,
            regions::item_end_from(lines, index + 1, 0, columns),
        );
    }
}

proof fn lemma_leaf_ends(lines: Lines, index: int)
    requires
        0 <= index < lines.len(),
    ensures
        import_model::fenced_block(lines, index) matches Some(block) ==> index < block.1
            <= lines.len(),
        import_model::comment_block(lines, index) matches Some(block) ==> index < block.1
            <= lines.len(),
        index < import_model::paragraph_block(lines, index).1 <= lines.len(),
        index < import_model::indented_block(lines, index).1 <= lines.len(),
        index < table_syntax::table_region_end(lines, index) <= lines.len(),
        import_model::pipeless_table(lines, index) matches Some(table) ==> index < table.1
            <= lines.len(),
        index < regions::math_region_end(lines, index) <= lines.len(),
{
    reveal(import_model::fenced_block);
    reveal(import_model::comment_block);
    reveal(import_model::indented_block);
    reveal(import_model::pipeless_table);
    reveal(regions::closed_comment_end);
    reveal(regions::paragraph_end);
    reveal(regions::math_region_end);
    reveal(table_syntax::table_region_end);
    reveal(table_syntax::pipeless_region_end);
    if let Some(fence) = grammar::opening_fence(lines[index]) {
        lemma_fence_close(lines, index + 1, fence);
    }
    lemma_comment_close(lines, index);
    lemma_paragraph_end(lines, index, index + 1);
    lemma_indented_end(lines, index + 1);
    lemma_table_run(lines, index + 1);
    if index + 1 < lines.len() {
        lemma_table_run(lines, index + 2);
    }
    lemma_math_end(lines, index + 1);
}

/// Every block or run of blank lines takes up at least one line and none beyond the
/// last, so that no line of a document is left out.
pub proof fn every_step_takes_a_line(
    lines: Lines,
    native_footnotes: bool,
    semantic: Lines,
    index: int,
    any: bool,
    after_list: bool,
)
    requires
        0 <= index < lines.len(),
    ensures
        index < import_model::root_step(
            lines,
            native_footnotes,
            semantic,
            index,
            any,
            after_list,
        ).1 <= lines.len(),
{
    let line = lines[index];
    import_model::lemma_skip_blank(lines, index);
    lemma_leaf_ends(lines, index);
    lemma_html_region(lines, index);
    import_model::lemma_footnote_end(lines, index + 1);
    lemma_reference_end(lines, index + 1);
    lemma_list_blocks(lines, semantic, index);
    import_model::lemma_quote_region(lines, index);
    if grammar::quote_start(line) && !text::blank(line) {
        reveal(regions::quote_region_end);
        import_model::lemma_quote_region(lines, index + 1);
    }
}

/// Whether a kind keeps the Markdown that it was written with.
pub open spec fn keeps_source(kind: BlockKind<Seq<char>>) -> bool {
    kind is RawMarkdown || kind is HtmlBlock || kind is Comment || kind is MathBlock
        || kind is MermaidBlock
}

proof fn lemma_leaves_kept(lines: Lines, index: int)
    ensures
        import_model::fenced_block(lines, index) matches Some(block) ==> (keeps_source(
            block.0.kind,
        ) ==> block.0.title == blocks::plain_title(import_model::source(lines, index, block.1))),
        import_model::comment_block(lines, index) matches Some(block) ==> block.0.title
            == blocks::plain_title(import_model::source(lines, index, block.1)),
        !keeps_source(import_model::indented_block(lines, index).0.kind),
{
    reveal(import_model::fenced_block);
    reveal(import_model::comment_block);
    reveal(import_model::indented_block);
}

proof fn lemma_quote_kept(lines: Lines, semantic: Lines, index: int)
    requires
        0 <= index < lines.len(),
    ensures
        ({
            let quote = import_model::quote_block(lines, semantic, index);
            keeps_source(quote.0.kind) && index < quote.1 ==> quote.0.title == blocks::plain_title(
                import_model::source(lines, index, quote.1),
            )
        }),
{
    let region = regions::quote_region_end(lines, index);
    let unquoted = import_model::unquote_all(lines.subrange(index, region));
    assert(import_model::native_quote(unquoted, semantic) matches Some(block)
        ==> !keeps_source(block.kind)) by {
        let header = regions::skip_blank(unquoted, 0);
        if header < unquoted.len() && grammar::callout_header(unquoted[header]) is Some {
            let head = grammar::callout_header(unquoted[header])->0;
            let body = unquoted.subrange(header + 1, unquoted.len() as int);
            assert(import_model::native_callout(body, semantic, head.0, head.1) matches Some(block)
                ==> block.kind is Callout);
        }
    }
}

proof fn lemma_runs_kept(lines: Lines, count: nat)
    ensures
        forall|k: int|
            0 <= k < lines.len() ==> !keeps_source(
                (#[trigger] import_model::plain_paragraphs(lines)[k]).kind,
            ),
        forall|k: int|
            0 <= k < count ==> !keeps_source(
                (#[trigger] import_model::empty_paragraphs(count)[k]).kind,
            ),
{
}

proof fn lemma_footnote_kept(lines: Lines, semantic: Lines)
    ensures
        ({
            let block = import_model::footnote_block(lines, semantic);
            keeps_source(block.kind) ==> block.title == blocks::plain_title(text::joined(lines))
        }),
{
}

/// What cannot be a block of its own is kept as it was written: raw Markdown, HTML,
/// comments, math and diagrams hold exactly their lines.
pub proof fn what_is_no_block_is_kept_as_written(
    lines: Lines,
    native_footnotes: bool,
    semantic: Lines,
    index: int,
    any: bool,
    after_list: bool,
)
    requires
        0 <= index < lines.len(),
        grammar::list_marker(lines[index]) is None,
    ensures
        ({
            let step = import_model::root_step(
                lines,
                native_footnotes,
                semantic,
                index,
                any,
                after_list,
            );
            forall|k: int|
                0 <= k < step.0.len() && keeps_source((#[trigger] step.0[k]).kind)
                    ==> step.0.len() == 1 && step.0[k].title == blocks::plain_title(
                    import_model::source(lines, index, step.1),
                )
        }),
{
    let line = lines[index];
    every_step_takes_a_line(lines, native_footnotes, semantic, index, any, after_list);
    lemma_leaves_kept(lines, index);
    lemma_quote_kept(lines, semantic, index);
    lemma_runs_kept(
        lines.subrange(index, table_syntax::table_region_end(lines, index)),
        import_model::preserved_blanks(
            lines,
            index,
            regions::skip_blank(lines, index),
            any,
            after_list,
        ),
    );
    if markup::footnote_definition_start(line) {
        lemma_footnote_kept(
            lines.subrange(index, regions::footnote_end_from(lines, index + 1)),
            semantic,
        );
    }
}

/// The text of a fenced code block is what stands between the fences.
pub proof fn code_is_what_stands_between_the_fences(lines: Lines, start: int)
    ensures
        import_model::fenced_block(lines, start) matches Some(block) ==> (block.0.kind is CodeBlock
            ==> block.0.title == blocks::plain_title(
            import_model::source(lines, start + 1, block.1 - 1),
        )),
{
    reveal(import_model::fenced_block);
}

proof fn lemma_all_blank(lines: Lines, index: int)
    requires
        0 <= index <= lines.len(),
        forall|k: int| 0 <= k < lines.len() ==> text::blank(#[trigger] lines[k]),
    ensures
        regions::skip_blank(lines, index) == lines.len(),
    decreases lines.len() - index,
{
    if index < lines.len() {
        lemma_all_blank(lines, index + 1);
    }
}

/// Blank lines alone are as many empty paragraphs.
pub proof fn blank_lines_are_empty_paragraphs(
    lines: Lines,
    native_footnotes: bool,
    semantic: Lines,
)
    requires
        forall|k: int| 0 <= k < lines.len() ==> text::blank(#[trigger] lines[k]),
    ensures
        import_model::blocks_of(lines, native_footnotes, semantic)
            == import_model::empty_paragraphs(lines.len()),
{
    if lines.len() > 0 {
        lemma_all_blank(lines, 0);
        let step = import_model::root_step(lines, native_footnotes, semantic, 0, false, false);
        assert(text::blank(lines[0]));
        assert(step.0 == import_model::empty_paragraphs(lines.len()));
        assert(step.1 == lines.len());
        assert(import_model::blocks_of(lines, native_footnotes, semantic) =~= step.0);
    } else {
        assert(import_model::blocks_of(lines, native_footnotes, semantic)
            =~= import_model::empty_paragraphs(0));
    }
}

} // verus!
