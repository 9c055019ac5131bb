//! How a pasted image is named, written and put into a document.

use crate::blocks;
use crate::blocks::{InlineFragment, Title};
use crate::cell_laws;
use crate::document;
use crate::editor::{CellView, EditorView, ViewMode};
use crate::history::DocumentFacts;
use crate::images;
use crate::images::{ImageFormat, ImagePaste, ImagePasteBehavior};
use crate::kinds;
use crate::newline;
use crate::paste_laws;
use crate::paste_laws::{ends_at, no_marks};
use crate::quotes;
use crate::targets;
use crate::text;
use vstd::prelude::*;

verus! {

// ---------------------------------------------------------------------------
// Names
// ---------------------------------------------------------------------------

/// The number that a text of decimal digits stands for.
pub open spec fn number(s: Seq<char>) -> int
    decreases s.len(),
{
    if s.len() == 0 {
        0
    } else {
        10 * number(s.drop_last()) + (s.last() as int - '0' as int)
    }
}

/// A number is written in decimal digits, without zeros in front.
pub proof fn numbers_are_written_in_decimals(n: nat)
    ensures
        number(images::decimal(n)) == n,
        forall|k: int|
            0 <= k < images::decimal(n).len() ==> '0' <= #[trigger] images::decimal(n)[k] <= '9',
        images::decimal(n).len() > 0,
        n > 0 ==> images::decimal(n)[0] != '0',
    decreases n,
{
    let written = images::decimal(n);
    assert(written.drop_last() =~= if n < 10 {
        Seq::empty()
    } else {
        images::decimal(n / 10)
    });
    if n >= 10 {
        numbers_are_written_in_decimals(n / 10);
    } else {
        assert(number(Seq::empty()) == 0);
    }
    assert(written.last() as int == '0' as int + n % 10);
}

/// The first name tried for an image is its own. Later ones are the stem with a number
/// behind it, and the extension again.
pub proof fn later_names_hold_a_number(
    preferred: Seq<char>,
    stem: Seq<char>,
    extension: Seq<char>,
    index: nat,
)
    ensures
        images::candidate_name(preferred, stem, Some(extension), 0) == preferred,
        images::candidate_name(preferred, stem, None, 0) == preferred,
        index > 0 ==> {
            let name = images::candidate_name(preferred, stem, Some(extension), index);
            let bare = images::candidate_name(preferred, stem, None, index);
            let from = stem.len() as int;
            let to = name.len() - extension.len() - 1;
            &&& from < to
            &&& name.take(from) == stem
            &&& number(name.subrange(from, to)) == index
            &&& name[to] == '.'
            &&& name.skip(to + 1) == extension
            &&& bare == name.take(to)
        },
{
    reveal_strlit(".");
    numbers_are_written_in_decimals(index);
    if index > 0 {
        let digits = images::decimal(index);
        let name = images::candidate_name(preferred, stem, Some(extension), index);
        let from = stem.len() as int;
        let to = name.len() - extension.len() - 1;
        assert(name =~= stem + digits + seq!['.'] + extension);
        assert(name.take(from) =~= stem);
        assert(name.subrange(from, to) =~= digits);
        assert(name.skip(to + 1) =~= extension);
        assert(name.take(to) =~= stem + digits);
    }
}

/// Images are copied beside the document, into its folder for assets, or into one named
/// after it; a document without a file gets one with a number that is not taken.
pub proof fn images_go_to_the_folder_that_is_set(
    has_file: bool,
    stem: Option<Seq<char>>,
    index: nat,
)
    ensures
        images::image_folder(ImagePasteBehavior::Keep, has_file, stem, index) is None,
        images::image_folder(ImagePasteBehavior::CopyToDocumentFolder, has_file, stem, index)
            is None,
        images::image_folder(ImagePasteBehavior::CopyToAssetsFolder, has_file, stem, index)
            == Some(seq!['a', 's', 's', 'e', 't', 's']),
        stem matches Some(name) && !text::blank(name) ==> images::image_folder(
            ImagePasteBehavior::CopyToNamedAssetsFolder,
            true,
            stem,
            index,
        ) == Some(stem->0 + seq!['.', 'a', 's', 's', 'e', 't', 's']),
        (stem is None || text::blank(stem->0)) ==> images::image_folder(
            ImagePasteBehavior::CopyToNamedAssetsFolder,
            true,
            stem,
            index,
        ) == Some(
            seq!['u', 'n', 't', 'i', 't', 'l', 'e'] + seq!['.', 'a', 's', 's', 'e', 't', 's'],
        ),
        images::image_folder(ImagePasteBehavior::CopyToNamedAssetsFolder, false, stem, 0)
            == Some(
            seq!['u', 'n', 't', 'i', 't', 'l', 'e'] + seq!['.', 'a', 's', 's', 'e', 't', 's'],
        ),
        index > 0 ==> images::image_folder(
            ImagePasteBehavior::CopyToNamedAssetsFolder,
            false,
            stem,
            index,
        ) == Some(
            seq!['u', 'n', 't', 'i', 't', 'l', 'e'] + images::decimal(index)
                + seq!['.', 'a', 's', 's', 'e', 't', 's'],
        ),
{
    reveal_strlit("assets");
    reveal_strlit(".assets");
    reveal_strlit("untitle");
    reveal_strlit("untitle.assets");
    assert("assets"@ =~= seq!['a', 's', 's', 'e', 't', 's']);
    assert(".assets"@ =~= seq!['.', 'a', 's', 's', 'e', 't', 's']);
    assert("untitle"@ =~= seq!['u', 'n', 't', 'i', 't', 'l', 'e']);
    assert("untitle.assets"@ =~= seq!['u', 'n', 't', 'i', 't', 'l', 'e']
        + seq!['.', 'a', 's', 's', 'e', 't', 's']);
}

/// Only a local file may stay where it is, and only where that is set.
pub proof fn only_kept_local_images_stay(behavior: ImagePasteBehavior, is_local: bool)
    ensures
        images::stays_in_place(behavior, is_local) <==> is_local && behavior
            == ImagePasteBehavior::Keep,
{
}

/// Each format has its own extension.
pub proof fn formats_have_their_extension()
    ensures
        images::format_extension(ImageFormat::Png) == seq!['p', 'n', 'g'],
        images::format_extension(ImageFormat::Jpeg) == seq!['j', 'p', 'g'],
        images::format_extension(ImageFormat::Webp) == seq!['w', 'e', 'b', 'p'],
        images::format_extension(ImageFormat::Gif) == seq!['g', 'i', 'f'],
        images::format_extension(ImageFormat::Svg) == seq!['s', 'v', 'g'],
        images::format_extension(ImageFormat::Bmp) == seq!['b', 'm', 'p'],
        images::format_extension(ImageFormat::Tiff) == seq!['t', 'i', 'f', 'f'],
{
    reveal_strlit("png");
    reveal_strlit("jpg");
    reveal_strlit("webp");
    reveal_strlit("gif");
    reveal_strlit("svg");
    reveal_strlit("bmp");
    reveal_strlit("tiff");
    assert("png"@ =~= seq!['p', 'n', 'g']);
    assert("jpg"@ =~= seq!['j', 'p', 'g']);
    assert("webp"@ =~= seq!['w', 'e', 'b', 'p']);
    assert("gif"@ =~= seq!['g', 'i', 'f']);
    assert("svg"@ =~= seq!['s', 'v', 'g']);
    assert("bmp"@ =~= seq!['b', 'm', 'p']);
    assert("tiff"@ =~= seq!['t', 'i', 'f', 'f']);
}

// ---------------------------------------------------------------------------
// Markdown
// ---------------------------------------------------------------------------

/// Whether a text holds no backslash, bracket or quotation mark.
pub open spec fn needs_no_escape(s: Seq<char>) -> bool {
    forall|k: int|
        0 <= k < s.len() ==> s[k] != '\\' && s[k] != ']' && s[k] != '(' && s[k] != ')' && s[k]
            != '"'
}

proof fn lemma_unescaped_stays(s: Seq<char>, in_target: bool)
    requires
        needs_no_escape(s),
    ensures
        images::escaped(s, in_target) == s,
    decreases s.len(),
{
    if s.len() > 0 {
        let head = s.drop_last();
        assert(needs_no_escape(head));
        lemma_unescaped_stays(head, in_target);
        assert(head.push(s.last()) =~= s);
    } else {
        assert(s =~= Seq::empty());
    }
}

/// An image is written as its name in square brackets and its path in round ones, with an
/// exclamation mark before them. Without a name the word `image` stands there.
pub proof fn images_are_written_with_name_and_path(name: Seq<char>, path: Seq<char>)
    requires
        needs_no_escape(name),
        needs_no_escape(path),
    ensures
        name.len() > 0 ==> images::image_markdown(Some(name), path) == seq!['!', '['] + name
            + seq![']', '('] + path + seq![')'],
        images::image_markdown(None, path) == seq!['!', '[', 'i', 'm', 'a', 'g', 'e', ']', '(']
            + path + seq![')'],
        images::image_markdown(Some(Seq::empty()), path) == images::image_markdown(None, path),
{
    lemma_unescaped_stays(name, false);
    lemma_unescaped_stays(path, true);
    reveal_strlit("![");
    reveal_strlit("](");
    reveal_strlit(")");
    reveal_strlit("image");
    assert("!["@ =~= seq!['!', '[']);
    assert("]("@ =~= seq![']', '(']);
    assert(")"@ =~= seq![')']);
    assert("image"@ =~= seq!['i', 'm', 'a', 'g', 'e']);
    assert(images::image_markdown(None, path) =~= seq![
        '!',
        '[',
        'i',
        'm',
        'a',
        'g',
        'e',
        ']',
        '(',
    ] + path + seq![')']);
}

/// Characters that would end the name or the path get a backslash.
pub proof fn closing_characters_are_escaped(s: Seq<char>)
    ensures
        images::escaped(s.push(']'), false) == images::escaped(s, false) + seq!['\\', ']'],
        images::escaped(s.push('\\'), false) == images::escaped(s, false) + seq!['\\', '\\'],
        images::escaped(s.push(')'), true) == images::escaped(s, true) + seq!['\\', ')'],
        images::escaped(s.push('('), true) == images::escaped(s, true) + seq!['\\', '('],
        images::escaped(s.push('"'), true) == images::escaped(s, true) + seq!['\\', '"'],
        images::escaped(s.push('\\'), true) == images::escaped(s, true) + seq!['\\', '\\'],
{
    assert(s.push(']').drop_last() =~= s);
    assert(s.push(')').drop_last() =~= s);
    assert(s.push('(').drop_last() =~= s);
    assert(s.push('"').drop_last() =~= s);
    assert(s.push('\\').drop_last() =~= s);
}

// ---------------------------------------------------------------------------
// Places
// ---------------------------------------------------------------------------

/// The title of a paragraph that shows an image alone.
pub open spec fn image_alone(markdown: Seq<char>) -> Title {
    seq![InlineFragment { markdown: false, text: markdown }]
}

/// How many blocks an image of its own adds: one for the image, unless the block at the
/// caret takes it, and one for the text behind the caret, if there is any.
pub open spec fn blocks_for_image(image: ImagePaste) -> int {
    (if image.leading_blank {
        0int
    } else {
        1int
    }) + (if image.trailing_blank {
        0int
    } else {
        1int
    })
}

/// An image pasted into a paragraph gets a paragraph of its own between the texts before
/// and behind the caret. The text before stays in the block at `i`, which takes the image
/// itself where there is none; the text behind goes into a paragraph below. The other
/// blocks stay.
pub proof fn an_image_stands_between_the_texts_around_the_caret(
    s: EditorView,
    i: int,
    end: int,
    image: ImagePaste,
    facts: DocumentFacts,
    now: u64,
)
    requires
        document::well_formed(s.document, s.next_id),
        ends_at(s.document, i, end),
        facts.cross_block is None,
        s.view_mode == ViewMode::Rendered,
        s.document[i].kind is Paragraph,
        !s.document[i].raw_text_editing,
        no_marks(image.shown.visible_text@),
    ensures
        ({
            let after = images::image_pasted(s, s.document[i].id, image, facts, now);
            let nodes = after.document;
            let added = blocks_for_image(image);
            let at = if image.leading_blank {
                i
            } else {
                end
            };
            &&& nodes.len() == s.document.len() + added
            &&& nodes[at].kind is Paragraph
            &&& nodes[at].title == image_alone(image.markdown@)
            &&& nodes[at].depth == s.document[i].depth
            &&& nodes[i].id == s.document[i].id
            &&& !image.leading_blank ==> nodes[i].kind is Paragraph && nodes[i].title
                == image.leading@ && nodes[at].id == s.next_id
            &&& !image.trailing_blank ==> {
                &&& nodes[end + added - 1].kind is Paragraph
                &&& nodes[end + added - 1].title == image.trailing@
                &&& nodes[end + added - 1].depth == s.document[i].depth
            }
            &&& forall|k: int| 0 <= k < end && k != i ==> #[trigger] nodes[k] == s.document[k]
            &&& forall|k: int|
                end <= k < s.document.len() ==> s.document[k] == #[trigger] nodes[k + added]
            &&& after.focus.pending_focus == Some(nodes[at].id)
            &&& after.window.document_dirty
        }),
{
    cell_laws::blocks_are_not_taken_for_cells(s.document, s.next_id, i);
    newline::lemma_index_is(s.document, i, 0);
    paste_laws::lemma_ends_at(s.document, i, end);
    assert(kinds::markdown_shortcut(image.shown.visible_text@) is None) by {
        reveal(kinds::markdown_shortcut);
    }
    let ready = quotes::begun(s, facts, now);
    assert(ready.document == s.document && ready.next_id == s.next_id);
    let after = images::image_pasted(s, s.document[i].id, image, facts, now);
    assert(after.document == images::image_in_paragraph(ready, i, image).document);
    let added = blocks_for_image(image);
    assert forall|k: int| end <= k < s.document.len() implies s.document[k]
        == #[trigger] after.document[k + added] by {}
}

/// In any other block an image stands in the text, right at the caret: the text before
/// it, the image and the text behind it, and nothing else changes in the document.
pub proof fn an_image_goes_in_at_the_caret(
    s: EditorView,
    i: int,
    image: ImagePaste,
    facts: DocumentFacts,
    now: u64,
)
    requires
        document::well_formed(s.document, s.next_id),
        0 <= i < s.document.len(),
        facts.cross_block is None,
        s.view_mode == ViewMode::Source || !(s.document[i].kind is Paragraph)
            || s.document[i].raw_text_editing,
        no_marks(image.shown.visible_text@),
    ensures
        ({
            let after = images::image_pasted(s, s.document[i].id, image, facts, now);
            let literal = s.document[i].raw_text_editing || s.document[i].kind is CodeBlock;
            &&& after.document.len() == s.document.len()
            &&& after.document[i].title == image.leading@ + seq![
                InlineFragment { markdown: !literal, text: image.markdown@ },
            ] + image.trailing@
            &&& after.document[i].kind == s.document[i].kind
            &&& after.document[i].id == s.document[i].id
            &&& after.document[i].depth == s.document[i].depth
            &&& forall|k: int|
                0 <= k < s.document.len() && k != i ==> #[trigger] after.document[k]
                    == s.document[k]
            &&& after.focus.pending_focus == Some(s.document[i].id)
            &&& after.window.document_dirty
        }),
{
    cell_laws::blocks_are_not_taken_for_cells(s.document, s.next_id, i);
    newline::lemma_index_is(s.document, i, 0);
    assert(kinds::markdown_shortcut(image.shown.visible_text@) is None) by {
        reveal(kinds::markdown_shortcut);
    }
}

/// Whether a cell is the one with this id and holds the image between the texts around
/// the caret, or is another one and stayed.
pub open spec fn cell_holds(before: CellView, after: CellView, id: u64, image: ImagePaste) -> bool {
    if before.id == id {
        &&& after.id == id
        &&& after.title == image.leading@ + seq![
            InlineFragment { markdown: true, text: image.markdown@ },
        ] + image.trailing@
        &&& after.display_text == blocks::title_text(after.title)
    } else {
        after == before
    }
}

/// An image pasted into a cell of a table stands in the text of that cell, and the other
/// cells and blocks stay.
pub proof fn an_image_goes_into_its_cell(
    s: EditorView,
    id: u64,
    image: ImagePaste,
    facts: DocumentFacts,
    now: u64,
)
    requires
        facts.cross_block is None,
        targets::binding_of(s.document, id) is Some,
    ensures
        ({
            let binding = targets::binding_of(s.document, id)->0;
            let i = binding.0;
            let after = images::image_pasted(s, id, image, facts, now);
            &&& 0 <= i < s.document.len()
            &&& after.document.len() == s.document.len()
            &&& s.document[i].runtime matches Some(old_cells)
                && after.document[i].runtime matches Some(cells) && {
                &&& cells.header.len() == old_cells.header.len()
                &&& forall|c: int|
                    0 <= c < old_cells.header.len() ==> cell_holds(
                        old_cells.header[c],
                        #[trigger] cells.header[c],
                        id,
                        image,
                    )
                &&& cells.rows.len() == old_cells.rows.len()
                &&& forall|r: int|
                    0 <= r < old_cells.rows.len() ==> (#[trigger] cells.rows[r]).len()
                        == old_cells.rows[r].len()
                &&& forall|r: int, c: int|
                    0 <= r < old_cells.rows.len() && 0 <= c < old_cells.rows[r].len()
                        ==> cell_holds(
                        old_cells.rows[r][c],
                        #[trigger] cells.rows[r][c],
                        id,
                        image,
                    )
            }
            &&& forall|k: int|
                0 <= k < s.document.len() && k != i ==> #[trigger] after.document[k]
                    == s.document[k]
            &&& after.focus.pending_focus == Some(id)
            &&& after.window.document_dirty
        }),
{
    targets::lemma_binding_from(s.document, id, 0);
}

} // verus!
