//! Pasted images: where their files go, the Markdown that shows them, and the
//! blocks they are put into.

use crate::blocks;
use crate::blocks::{BlockKind, InlineTextTree, Title};
use crate::document;
use crate::document::find_index;
use crate::editor;
use crate::editor::{
    BlockSelection, CellView, DocBlock, Editor, EditorView, NodeView, RuntimeView, TableCell,
    TableRuntime, ViewMode,
};
use crate::focus;
use crate::grammar;
use crate::history;
use crate::history::{find_gone, DocumentFacts};
use crate::paste;
use crate::paste::{reshape_node, ShownText};
use crate::quotes;
use crate::tables;
use crate::targets;
use crate::targets::find_binding;
use crate::text;
use crate::text::{chars_of, is_blank};
use vstd::prelude::*;

verus! {

// ---------------------------------------------------------------------------
// Files
// ---------------------------------------------------------------------------

/// The format of an image on the clipboard.
#[derive(Clone, Copy, Debug, PartialEq, Eq, Structural)]
pub enum ImageFormat {
    Png,
    Jpeg,
    Webp,
    Gif,
    Svg,
    Bmp,
    Tiff,
}

/// What becomes of the file of a pasted image.
#[derive(Clone, Copy, Debug, PartialEq, Eq, Structural)]
pub enum ImagePasteBehavior {
    /// It stays where it is.
    Keep,
    /// It is copied next to the document.
    CopyToDocumentFolder,
    /// It is copied into the folder `assets` next to the document.
    CopyToAssetsFolder,
    /// It is copied into a folder named after the document.
    CopyToNamedAssetsFolder,
}

/// The file extension of an image format.
pub open spec fn format_extension(format: ImageFormat) -> Seq<char> {
    match format {
        ImageFormat::Png => "png"@,
        ImageFormat::Jpeg => "jpg"@,
        ImageFormat::Webp => "webp"@,
        ImageFormat::Gif => "gif"@,
        ImageFormat::Svg => "svg"@,
        ImageFormat::Bmp => "bmp"@,
        ImageFormat::Tiff => "tiff"@,
    }
}

/// A decimal digit.
pub open spec fn digit(n: nat) -> char {
    (('0' as u32) + n % 10) as char
}

/// A number in decimal digits.
pub open spec fn decimal(n: nat) -> Seq<char>
    decreases n,
{
    if n < 10 {
        seq![digit(n)]
    } else {
        decimal(n / 10).push(digit(n))
    }
}

/// The name that is tried for a file after `index` others were taken.
pub open spec fn candidate_name(
    preferred: Seq<char>,
    stem: Seq<char>,
    extension: Option<Seq<char>>,
    index: nat,
) -> Seq<char> {
    if index == 0 {
        preferred
    } else {
        match extension {
            Some(ext) => stem + decimal(index) + "."@ + ext,
            None => stem + decimal(index),
        }
    }
}

/// The folder for images that is tried for a document without a file after `index`
/// others were taken.
pub open spec fn untitled_folder(index: nat) -> Seq<char> {
    if index == 0 {
        "untitle.assets"@
    } else {
        "untitle"@ + decimal(index) + ".assets"@
    }
}

/// The folder inside the document's own that a pasted image is copied into, or none
/// for the document's own folder. `stem` is the name of the document's file without
/// its extension; a document without a file has none.
pub open spec fn image_folder(
    behavior: ImagePasteBehavior,
    has_file: bool,
    stem: Option<Seq<char>>,
    index: nat,
) -> Option<Seq<char>> {
    match behavior {
        ImagePasteBehavior::Keep | ImagePasteBehavior::CopyToDocumentFolder => None,
        ImagePasteBehavior::CopyToAssetsFolder => Some("assets"@),
        ImagePasteBehavior::CopyToNamedAssetsFolder => if has_file {
            match stem {
                Some(name) => if text::blank(name) {
                    Some("untitle"@ + ".assets"@)
                } else {
                    Some(name + ".assets"@)
                },
                None => Some("untitle"@ + ".assets"@),
            }
        } else {
            Some(untitled_folder(index))
        },
    }
}

/// Whether a pasted image stays where it is.
pub open spec fn stays_in_place(behavior: ImagePasteBehavior, is_local: bool) -> bool {
    behavior == ImagePasteBehavior::Keep && is_local
}

// ---------------------------------------------------------------------------
// Markdown
// ---------------------------------------------------------------------------

/// Whether a character has to be escaped in the target of an image.
pub open spec fn special_in_target(c: char) -> bool {
    c == '\\' || c == '(' || c == ')' || c == '"'
}

/// Whether a character has to be escaped in the description of an image.
pub open spec fn special_in_alt(c: char) -> bool {
    c == '\\' || c == ']'
}

/// A text with a backslash before the characters that need one.
pub open spec fn escaped(s: Seq<char>, in_target: bool) -> Seq<char>
    decreases s.len(),
{
    if s.len() == 0 {
        Seq::empty()
    } else {
        let c = s.last();
        let head = escaped(s.drop_last(), in_target);
        if (in_target && special_in_target(c)) || (!in_target && special_in_alt(c)) {
            head.push('\\').push(c)
        } else {
            head.push(c)
        }
    }
}

/// A text without the backslashes that escape characters.
pub open spec fn unescaped(s: Seq<char>) -> Seq<char>
    decreases s.len(),
{
    if s.len() == 0 {
        Seq::empty()
    } else if s[0] == '\\' && s.len() > 1 {
        seq![s[1]] + unescaped(s.skip(2))
    } else {
        seq![s[0]] + unescaped(s.skip(1))
    }
}

/// A path with slashes for backslashes.
pub open spec fn slashed(s: Seq<char>) -> Seq<char> {
    Seq::new(s.len(), |i: int| if s[i] == '\\' {
        '/'
    } else {
        s[i]
    })
}

/// The description of an image: its file's name without the extension.
pub open spec fn image_alt(stem: Option<Seq<char>>) -> Seq<char> {
    match stem {
        Some(name) => if name.len() > 0 {
            escaped(name, false)
        } else {
            "image"@
        },
        None => "image"@,
    }
}

/// The Markdown that shows an image.
pub open spec fn image_markdown(stem: Option<Seq<char>>, path: Seq<char>) -> Seq<char> {
    "!["@ + image_alt(stem) + "]("@ + escaped(path, true) + ")"@
}

// ---------------------------------------------------------------------------
// Laws
// ---------------------------------------------------------------------------

proof fn lemma_escaped_append(s: Seq<char>, c: char)
    requires
        c != '\\',
    ensures
        unescaped(s.push(c)) == unescaped(s).push(c) || exists|k: int|
            0 <= k < s.len() && #[trigger] s[k] == '\\',
    decreases s.len(),
{
    if forall|k: int| 0 <= k < s.len() ==> s[k] != '\\' {
        if s.len() == 0 {
            assert(s.push(c).skip(1) =~= Seq::empty());
            assert(unescaped(Seq::<char>::empty()) =~= Seq::empty());
            assert(unescaped(s.push(c)) =~= seq![c]);
        } else {
            let t = s.push(c);
            assert(t.skip(1) =~= s.skip(1).push(c));
            assert forall|k: int| 0 <= k < s.skip(1).len() implies s.skip(1)[k] != '\\' by {}
            lemma_escaped_append(s.skip(1), c);
            assert(unescaped(t) =~= seq![s[0]] + unescaped(s.skip(1)).push(c));
            assert(unescaped(s) =~= seq![s[0]] + unescaped(s.skip(1)));
        }
    }
}

/// The escaped form of a text written from its front.
proof fn lemma_escaped_front(s: Seq<char>, in_target: bool)
    requires
        s.len() > 0,
    ensures
        escaped(s, in_target) == escaped(seq![s[0]], in_target) + escaped(s.skip(1), in_target),
    decreases s.len(),
{
    if s.len() == 1 {
        assert(s =~= seq![s[0]]);
        assert(s.skip(1) =~= Seq::empty());
        assert(escaped(s.skip(1), in_target) =~= Seq::empty());
        assert(escaped(seq![s[0]], in_target) + Seq::<char>::empty() =~= escaped(
            seq![s[0]],
            in_target,
        ));
    } else {
        let rest = s.skip(1);
        lemma_escaped_front(s.drop_last(), in_target);
        assert(s.drop_last().skip(1) =~= rest.drop_last());
        assert(rest.last() == s.last());
        assert(s.drop_last()[0] == s[0]);
        assert(escaped(s, in_target) =~= escaped(seq![s[0]], in_target) + escaped(
            rest,
            in_target,
        ));
    }
}

/// Taking the escapes of an image's target or description away gives back the text.
pub proof fn escapes_are_taken_back(s: Seq<char>, in_target: bool)
    ensures
        unescaped(escaped(s, in_target)) == s,
    decreases s.len(),
{
    if s.len() == 0 {
        assert(unescaped(escaped(s, in_target)) =~= s);
    } else {
        lemma_escaped_front(s, in_target);
        let rest = s.skip(1);
        escapes_are_taken_back(rest, in_target);
        let c = s[0];
        let front = escaped(seq![c], in_target);
        let tail = escaped(rest, in_target);
        assert(seq![c].drop_last() =~= Seq::empty());
        assert(escaped(Seq::<char>::empty(), in_target) =~= Seq::empty());
        assert(seq![c].last() == c);
        let whole = escaped(s, in_target);
        if (in_target && special_in_target(c)) || (!in_target && special_in_alt(c)) {
            assert(front =~= seq!['\\', c]);
            assert(whole =~= seq!['\\', c] + tail);
            assert(whole.skip(2) =~= tail);
            assert(unescaped(whole) =~= seq![c] + rest);
        } else {
            assert(front =~= seq![c]);
            assert(whole =~= seq![c] + tail);
            assert(whole.skip(1) =~= tail);
            assert(c != '\\');
            assert(unescaped(whole) =~= seq![c] + rest);
        }
        assert(seq![c] + rest =~= s);
    }
}

proof fn lemma_digit(n: nat)
    ensures
        digit(n) as u32 == 48 + n % 10,
{
    assert(n % 10 < 10);
}

/// Different numbers have different decimal digits.
pub proof fn decimals_differ(a: nat, b: nat)
    requires
        decimal(a) == decimal(b),
    ensures
        a == b,
    decreases a,
{
    lemma_digit(a);
    lemma_digit(b);
    lemma_decimal_len(a);
    lemma_decimal_len(b);
    assert(decimal(a).last() == digit(a));
    assert(decimal(b).last() == digit(b));
    assert(a % 10 == b % 10);
    if a >= 10 || b >= 10 {
        if a < 10 {
            lemma_decimal_len(b / 10);
            assert(decimal(b).len() >= 2);
            assert(decimal(a).len() == 1);
        } else if b < 10 {
            lemma_decimal_len(a / 10);
            assert(decimal(a).len() >= 2);
            assert(decimal(b).len() == 1);
        } else {
            assert(decimal(a).drop_last() =~= decimal(a / 10));
            assert(decimal(b).drop_last() =~= decimal(b / 10));
            decimals_differ(a / 10, b / 10);
        }
    }
}

proof fn lemma_decimal_len(n: nat)
    ensures
        decimal(n).len() > 0,
{
}

/// The names that are tried for a file after the first one all differ, so that the
/// search for one that is not taken gets on.
pub proof fn candidate_names_differ(
    preferred: Seq<char>,
    stem: Seq<char>,
    extension: Option<Seq<char>>,
    a: nat,
    b: nat,
)
    requires
        0 < a,
        0 < b,
        a != b,
    ensures
        candidate_name(preferred, stem, extension, a) != candidate_name(
            preferred,
            stem,
            extension,
            b,
        ),
{
    let x = candidate_name(preferred, stem, extension, a);
    let y = candidate_name(preferred, stem, extension, b);
    if x == y {
        let n = stem.len() as int;
        let m = match extension {
            Some(ext) => {
                reveal_strlit(".");
                1 + ext.len() as int
            },
            None => 0,
        };
        assert(x.subrange(n, x.len() - m) =~= decimal(a));
        assert(y.subrange(n, y.len() - m) =~= decimal(b));
        decimals_differ(a, b);
    }
}

// ---------------------------------------------------------------------------
// Running code: names and Markdown
// ---------------------------------------------------------------------------

/// Writes a number in decimal digits behind a text.
pub(crate) fn push_decimal(n: usize, out: &mut String)
    ensures
        final(out)@ == old(out)@ + decimal(n as nat),
    decreases n,
{
    let ghost before = out@;
    if n >= 10 {
        push_decimal(n / 10, out);
    }
    let d: u8 = (n % 10) as u8;
    proof {
        lemma_digit(n as nat);
    }
    let c: char = (48 + d) as char;
    assert(c as u32 == 48 + n % 10);
    assert(c == digit(n as nat));
    out.push(c);
    assert(out@ =~= before + decimal(n as nat));
}

fn escape_text(s: &str, in_target: bool) -> (r: String)
    ensures
        r@ == escaped(s@, in_target),
{
    let cs = chars_of(s);
    let mut out = String::new();
    let mut i: usize = 0;
    assert(s@.take(0) =~= Seq::empty());
    while i < cs.len()
        invariant
            cs@ == s@,
            i <= cs@.len(),
            out@ == escaped(s@.take(i as int), in_target),
        decreases cs@.len() - i,
    {
        let c = cs[i];
        assert(s@.take(i + 1).drop_last() =~= s@.take(i as int));
        let special = c == '\\' || (in_target && (c == '(' || c == ')' || c == '"')) || (!in_target
            && c == ']');
        if special {
            out.push('\\');
        }
        out.push(c);
        i = i + 1;
    }
    assert(s@.take(i as int) =~= s@);
    out
}

impl Editor {
    /// The file extension of an image format.
    pub fn clipboard_image_extension(format: ImageFormat) -> (r: &'static str)
        ensures
            r@ == format_extension(format),
    {
        match format {
            ImageFormat::Png => "png",
            ImageFormat::Jpeg => "jpg",
            ImageFormat::Webp => "webp",
            ImageFormat::Gif => "gif",
            ImageFormat::Svg => "svg",
            ImageFormat::Bmp => "bmp",
            ImageFormat::Tiff => "tiff",
        }
    }

    /// The name of the file that an image on the clipboard is written to.
    pub fn clipboard_image_name(format: ImageFormat) -> (r: String)
        ensures
            r@ == "pasted-image."@ + format_extension(format),
    {
        let mut out = String::from_str("pasted-image.");
        out.append(Self::clipboard_image_extension(format));
        out
    }

    /// The name that is tried for a file after `index` others were taken. An empty
    /// or missing stem counts as `image`.
    pub fn candidate_file_name(
        preferred_name: &str,
        stem: Option<&str>,
        extension: Option<&str>,
        index: usize,
    ) -> (r: String)
        ensures
            r@ == candidate_name(
                preferred_name@,
                match stem {
                    Some(name) => if name@.len() > 0 {
                        name@
                    } else {
                        "image"@
                    },
                    None => "image"@,
                },
                grammar::opt_str(extension),
                index as nat,
            ),
    {
        if index == 0 {
            return String::from_str(preferred_name);
        }
        let base = match stem {
            Some(name) => {
                if name.is_empty() {
                    "image"
                } else {
                    name
                }
            },
            None => "image",
        };
        let mut out = String::from_str(base);
        push_decimal(index, &mut out);
        if let Some(ext) = extension {
            out.append(".");
            out.append(ext);
        }
        out
    }

    /// The folder inside the document's own that a pasted image is copied into, or
    /// none for the document's own folder.
    pub fn image_target_folder(
        behavior: ImagePasteBehavior,
        has_file: bool,
        stem: Option<&str>,
        index: usize,
    ) -> (r: Option<String>)
        ensures
            blocks::opt_text(r) == image_folder(
                behavior,
                has_file,
                grammar::opt_str(stem),
                index as nat,
            ),
    {
        match behavior {
            ImagePasteBehavior::Keep | ImagePasteBehavior::CopyToDocumentFolder => None,
            ImagePasteBehavior::CopyToAssetsFolder => Some(String::from_str("assets")),
            ImagePasteBehavior::CopyToNamedAssetsFolder => {
                if has_file {
                    let base = match stem {
                        Some(name) => {
                            if is_blank(name) {
                                "untitle"
                            } else {
                                name
                            }
                        },
                        None => "untitle",
                    };
                    let mut out = String::from_str(base);
                    out.append(".assets");
                    return Some(out);
                }
                if index == 0 {
                    return Some(String::from_str("untitle.assets"));
                }
                let mut out = String::from_str("untitle");
                push_decimal(index, &mut out);
                out.append(".assets");
                Some(out)
            },
        }
    }

    /// Whether a pasted image stays where it is.
    pub fn keeps_pasted_image_in_place(behavior: ImagePasteBehavior, is_local: bool) -> (r: bool)
        ensures
            r == stays_in_place(behavior, is_local),
    {
        behavior == ImagePasteBehavior::Keep && is_local
    }

    /// A path with slashes for backslashes.
    pub fn markdown_path_string(path: &str) -> (r: String)
        ensures
            r@ == slashed(path@),
    {
        let cs = chars_of(path);
        let mut out = String::new();
        let mut i: usize = 0;
        assert(slashed(path@).take(0) =~= Seq::empty());
        while i < cs.len()
            invariant
                cs@ == path@,
                i <= cs@.len(),
                out@ == slashed(path@).take(i as int),
            decreases cs@.len() - i,
        {
            out.push(
                if cs[i] == '\\' {
                    '/'
                } else {
                    cs[i]
                },
            );
            assert(slashed(path@).take(i + 1) =~= slashed(path@).take(i as int).push(
                slashed(path@)[i as int],
            ));
            i = i + 1;
        }
        assert(slashed(path@).take(i as int) =~= slashed(path@));
        out
    }

    /// A path as the target of an image.
    pub fn markdown_image_target(path: &str) -> (r: String)
        ensures
            r@ == escaped(path@, true),
    {
        escape_text(path, true)
    }

    /// The description of an image whose file has this name.
    pub fn markdown_image_alt(stem: Option<&str>) -> (r: String)
        ensures
            r@ == image_alt(grammar::opt_str(stem)),
    {
        match stem {
            Some(name) => {
                if name.is_empty() {
                    String::from_str("image")
                } else {
                    escape_text(name, false)
                }
            },
            None => String::from_str("image"),
        }
    }

    /// The path of a file inside the document's folder as Markdown has it.
    pub fn relative_markdown_path(relative: &str) -> (r: String)
        ensures
            r@ == "./"@ + slashed(relative@),
    {
        let mut out = String::from_str("./");
        out.append(Self::markdown_path_string(relative).as_str());
        out
    }

    /// The Markdown that shows an image.
    pub fn pasted_image_markdown(stem: Option<&str>, path: &str) -> (r: String)
        ensures
            r@ == image_markdown(grammar::opt_str(stem), path@),
    {
        let mut out = String::from_str("![");
        out.append(Self::markdown_image_alt(stem).as_str());
        out.append("](");
        out.append(Self::markdown_image_target(path).as_str());
        out.append(")");
        out
    }
}

// ---------------------------------------------------------------------------
// Blocks
// ---------------------------------------------------------------------------

/// A pasted image. `leading` and `trailing` are the text before and behind the
/// caret; the flags next to them say whether they show no text.
#[derive(Debug, PartialEq, Eq)]
pub struct ImagePaste {
    pub leading: InlineTextTree,
    pub leading_blank: bool,
    /// The Markdown that shows the image.
    pub markdown: String,
    pub trailing: InlineTextTree,
    pub trailing_blank: bool,
    /// The text that the block keeps, as it shows: where the image gets a paragraph
    /// of its own, what stands before the caret, else the whole of it.
    pub shown: ShownText,
}

/// The piece of a title that shows an image. Where text is edited as it stands it
/// is literal.
pub open spec fn image_piece(node: NodeView, markdown: Seq<char>) -> Title {
    if node.raw_text_editing || node.kind is CodeBlock {
        blocks::plain_title(markdown)
    } else {
        blocks::markdown_title(markdown)
    }
}

/// A block with an image between the text before and behind the caret.
pub open spec fn with_image(node: NodeView, image: ImagePaste) -> NodeView {
    let head = image.leading@ + image_piece(node, image.markdown@);
    paste::reshaped(
        node,
        node.kind,
        head + image.trailing@,
        BlockSelection::AfterFragments(head.len() as usize),
        Some(image.shown),
    )
}

/// A cell with an image between the text before and behind the caret, if it is the
/// one with this id.
pub open spec fn cell_with_image(cell: CellView, id: u64, image: ImagePaste) -> CellView {
    if cell.id == id {
        let head = image.leading@ + blocks::markdown_title(image.markdown@);
        let title = head + image.trailing@;
        CellView {
            title,
            display_text: blocks::title_text(title),
            selection: BlockSelection::AfterFragments(head.len() as usize),
            selection_reversed: false,
            marked: false,
            ..cell
        }
    } else {
        cell
    }
}

/// A table with an image in the cell with this id.
pub open spec fn runtime_with_image(runtime: RuntimeView, id: u64, image: ImagePaste) -> RuntimeView {
    RuntimeView {
        header: Seq::new(
            runtime.header.len(),
            |k: int| cell_with_image(runtime.header[k], id, image),
        ),
        rows: Seq::new(
            runtime.rows.len(),
            |k: int|
                Seq::new(
                    runtime.rows[k].len(),
                    |j: int| cell_with_image(runtime.rows[k][j], id, image),
                ),
        ),
    }
}

/// The state with an image in the text of the block at `i`.
pub open spec fn image_in_block(s: EditorView, i: int, image: ImagePaste) -> EditorView {
    focus::focused(
        EditorView {
            document: s.document.update(i, with_image(s.document[i], image)),
            ..s
        },
        s.document[i].id,
    )
}

/// The state with an image in the text of a cell of the table at `i`.
pub open spec fn image_in_cell(s: EditorView, i: int, cell: u64, image: ImagePaste) -> EditorView {
    focus::focused(
        EditorView {
            document: s.document.update(
                i,
                tables::record_synced(
                    NodeView {
                        runtime: Some(runtime_with_image(s.document[i].runtime->0, cell, image)),
                        ..s.document[i]
                    },
                ),
            ),
            ..s
        },
        cell,
    )
}

/// The state with an image in a paragraph of its own: the block at `i` keeps the
/// text before it, or takes the image where there is none, and the text behind it
/// goes into a paragraph below.
pub open spec fn image_in_paragraph(s: EditorView, i: int, image: ImagePaste) -> EditorView {
    let at = document::subtree_end(s.document, i);
    let depth = s.document[i].depth;
    if image.leading_blank {
        let title = blocks::plain_title(image.markdown@);
        let taken = EditorView {
            document: s.document.update(
                i,
                paste::reshaped(
                    s.document[i],
                    BlockKind::Paragraph,
                    title,
                    BlockSelection::AfterFragments(1),
                    None,
                ),
            ),
            ..s
        };
        let parted = if image.trailing_blank {
            taken
        } else {
            quotes::fresh_inserted(taken, at, depth, BlockKind::Paragraph, image.trailing@)
        };
        focus::focused(parted, s.document[i].id)
    } else {
        let kept = EditorView {
            document: s.document.update(
                i,
                paste::reshaped(
                    s.document[i],
                    BlockKind::Paragraph,
                    image.leading@,
                    BlockSelection::AfterFragments(image.leading@.len() as usize),
                    Some(image.shown),
                ),
            ),
            ..s
        };
        let shown = quotes::fresh_inserted(
            kept,
            at,
            depth,
            BlockKind::Paragraph,
            blocks::plain_title(image.markdown@),
        );
        let parted = if image.trailing_blank {
            shown
        } else {
            quotes::fresh_inserted(shown, at + 1, depth, BlockKind::Paragraph, image.trailing@)
        };
        focus::focused(parted, s.next_id)
    }
}

/// Whether an image pasted into a block gets a paragraph of its own.
pub open spec fn image_stands_alone(s: EditorView, node: NodeView) -> bool {
    s.view_mode == ViewMode::Rendered && node.kind is Paragraph && !node.raw_text_editing
}

/// Whether an image pasted into a block that is no longer in the document would get a
/// paragraph of its own. It gets none then, and the block none of it.
pub open spec fn gone_stands_alone(s: EditorView, facts: DocumentFacts, id: u64) -> bool {
    s.view_mode == ViewMode::Rendered && (history::gone_block(facts, id) matches Some(gone)
        ==> gone.block@.kind is Paragraph && !gone.block.raw_text_editing)
}

/// Whether an image takes the place of a selection that spans blocks.
pub open spec fn replaces_selection(facts: DocumentFacts) -> bool {
    facts.cross_block is Some
}

/// The state after an image was pasted into a block or cell. Where a selection spans
/// blocks, the image takes its place instead, and nothing is pasted here.
pub open spec fn image_pasted(
    s: EditorView,
    id: u64,
    image: ImagePaste,
    facts: DocumentFacts,
    now: u64,
) -> EditorView {
    if replaces_selection(facts) {
        s
    } else {
        image_placed(s, id, image, facts, now)
    }
}

/// The state with an image in a block or cell.
pub open spec fn image_placed(
    s: EditorView,
    id: u64,
    image: ImagePaste,
    facts: DocumentFacts,
    now: u64,
) -> EditorView {
    let ready = quotes::begun(s, facts, now);
    let placed = match targets::binding_of(s.document, id) {
        Some(binding) => image_in_cell(ready, binding.0, id, image),
        None => match document::index_of(s.document, id) {
            Some(i) => if image_stands_alone(s, s.document[i]) {
                image_in_paragraph(ready, i, image)
            } else {
                image_in_block(ready, i, image)
            },
            None => if gone_stands_alone(s, facts, id) {
                ready
            } else {
                focus::focused(ready, id)
            },
        },
    };
    focus::dirtied(placed)
}

proof fn lemma_image_in_paragraph(s: EditorView, i: int, image: ImagePaste)
    requires
        document::well_formed(s.document, s.next_id),
        0 <= i < s.document.len(),
        s.next_id + 2 <= u64::MAX,
    ensures
        document::well_formed(
            image_in_paragraph(s, i, image).document,
            image_in_paragraph(s, i, image).next_id,
        ),
{
    let at = document::subtree_end(s.document, i);
    let depth = s.document[i].depth;
    let kept = if image.leading_blank {
        s.document.update(
            i,
            paste::reshaped(
                s.document[i],
                BlockKind::Paragraph,
                blocks::plain_title(image.markdown@),
                BlockSelection::AfterFragments(1),
                None,
            ),
        )
    } else {
        s.document.update(
            i,
            paste::reshaped(
                s.document[i],
                BlockKind::Paragraph,
                image.leading@,
                BlockSelection::AfterFragments(image.leading@.len() as usize),
                Some(image.shown),
            ),
        )
    };
    document::lemma_same_shape(s.document, kept, s.next_id);
    document::lemma_run_end_same(s.document, kept, depth, i + 1);
    quotes::lemma_after_fits(kept, i);
    document::lemma_run_end(s.document, depth, i + 1);
    let t = EditorView { document: kept, ..s };
    if image.leading_blank {
        quotes::a_new_block_keeps_documents_well_formed(
            t,
            at,
            depth,
            BlockKind::Paragraph,
            image.trailing@,
        );
    } else {
        let title = blocks::plain_title(image.markdown@);
        quotes::a_new_block_keeps_documents_well_formed(
            t,
            at,
            depth,
            BlockKind::Paragraph,
            title,
        );
        let shown = quotes::fresh_inserted(t, at, depth, BlockKind::Paragraph, title);
        assert(shown.document[at].depth == depth);
        assert(document::fits(shown.document, at + 1, depth)) by {
            if at + 1 < shown.document.len() {
                assert(shown.document[at + 1] == kept[at]);
            }
        }
        quotes::a_new_block_keeps_documents_well_formed(
            shown,
            at + 1,
            depth,
            BlockKind::Paragraph,
            image.trailing@,
        );
    }
}

/// Pasting an image keeps a document well formed.
pub proof fn pasting_an_image_keeps_documents_well_formed(
    s: EditorView,
    id: u64,
    image: ImagePaste,
    facts: DocumentFacts,
    now: u64,
)
    requires
        document::well_formed(s.document, s.next_id),
        s.next_id + 2 <= u64::MAX,
    ensures
        ({
            let after = image_pasted(s, id, image, facts, now);
            document::well_formed(after.document, after.next_id)
        }),
{
    let ready = quotes::begun(s, facts, now);
    let after = image_pasted(s, id, image, facts, now);
    targets::lemma_binding_from(s.document, id, 0);
    document::lemma_index_from(s.document, id, 0);
    match targets::binding_of(s.document, id) {
        Some(binding) => {
            document::lemma_same_shape(s.document, after.document, s.next_id);
        },
        None => {
            if let Some(i) = document::index_of(s.document, id) {
                if image_stands_alone(s, s.document[i]) {
                    lemma_image_in_paragraph(ready, i, image);
                } else {
                    document::lemma_same_shape(s.document, after.document, s.next_id);
                }
            }
        },
    }
}

// ---------------------------------------------------------------------------
// Running code: blocks
// ---------------------------------------------------------------------------

fn put_image_in_row(cells: &mut Vec<TableCell>, id: u64, image: &ImagePaste)
    ensures
        editor::cell_views(final(cells)@) == Seq::new(
            old(cells)@.len(),
            |k: int| cell_with_image(editor::cell_views(old(cells)@)[k], id, *image),
        ),
{
    let ghost before = editor::cell_views(cells@);
    let mut k: usize = 0;
    while k < cells.len()
        invariant
            k <= cells@.len(),
            cells@.len() == before.len(),
            forall|j: int|
                0 <= j < k ==> (#[trigger] cells@[j])@ == cell_with_image(before[j], id, *image),
            forall|j: int| k <= j < before.len() ==> (#[trigger] cells@[j])@ == before[j],
        decreases cells@.len() - k,
    {
        assert(cells@[k as int]@ == before[k as int]);
        if cells[k].id == id {
            let mut title = image.leading.duplicate();
            title.append_tree(InlineTextTree::from_markdown(image.markdown.clone()));
            let pieces: usize = title.fragments.len();
            title.append_tree(image.trailing.duplicate());
            let display_text = title.text();
            cells[k].title = title;
            cells[k].display_text = display_text;
            cells[k].selection = BlockSelection::AfterFragments(pieces);
            cells[k].selection_reversed = false;
            cells[k].marked = false;
        }
        k = k + 1;
    }
    assert(editor::cell_views(cells@) =~= Seq::new(
        before.len(),
        |j: int| cell_with_image(before[j], id, *image),
    ));
}

fn put_image_in_runtime(runtime: &mut TableRuntime, id: u64, image: &ImagePaste)
    ensures
        final(runtime)@ == runtime_with_image(old(runtime)@, id, *image),
{
    let ghost before = runtime@;
    put_image_in_row(&mut runtime.header, id, image);
    let ghost header1 = runtime@.header;
    assert(header1 =~= runtime_with_image(before, id, *image).header);
    let mut k: usize = 0;
    while k < runtime.rows.len()
        invariant
            k <= runtime.rows@.len(),
            runtime.rows@.len() == before.rows.len(),
            runtime@.header == header1,
            forall|j: int|
                0 <= j < k ==> editor::cell_views((#[trigger] runtime.rows@[j])@)
                    == runtime_with_image(before, id, *image).rows[j],
            forall|j: int|
                k <= j < before.rows.len() ==> editor::cell_views((#[trigger] runtime.rows@[j])@)
                    == before.rows[j],
        decreases runtime.rows@.len() - k,
    {
        assert(editor::cell_views(runtime.rows@[k as int]@) == before.rows[k as int]);
        put_image_in_row(&mut runtime.rows[k], id, image);
        assert(editor::cell_views(runtime.rows@[k as int]@) =~= runtime_with_image(
            before,
            id,
            *image,
        ).rows[k as int]);
        k = k + 1;
    }
    assert(runtime@.rows =~= runtime_with_image(before, id, *image).rows);
}

fn put_image_in_table(nodes: &mut Vec<DocBlock>, i: usize, cell: u64, image: &ImagePaste)
    requires
        i < old(nodes)@.len(),
        old(nodes)@[i as int].runtime is Some,
    ensures
        editor::node_views(final(nodes)@) == editor::node_views(old(nodes)@).update(
            i as int,
            tables::record_synced(
                NodeView {
                    runtime: Some(
                        runtime_with_image(old(nodes)@[i as int].runtime->0@, cell, *image),
                    ),
                    ..editor::node_views(old(nodes)@)[i as int]
                },
            ),
        ),
{
    let ghost before = editor::node_views(nodes@);
    let ghost raw = nodes@;
    let mut runtime: Option<TableRuntime> = None;
    std::mem::swap(&mut runtime, &mut nodes[i].runtime);
    if let Some(cells) = runtime {
        let mut cells = cells;
        put_image_in_runtime(&mut cells, cell, image);
        let table = crate::tables::read_table(&cells, &nodes[i].table);
        nodes[i].table = Some(table);
        nodes[i].runtime = Some(cells);
    }
    proof {
        let want = tables::record_synced(
            NodeView {
                runtime: Some(runtime_with_image(raw[i as int].runtime->0@, cell, *image)),
                ..before[i as int]
            },
        );
        assert forall|k: int| 0 <= k < before.len() implies editor::node_views(nodes@)[k]
            == before.update(i as int, want)[k] by {
            assert(before[k] == raw[k]@);
        }
        assert(editor::node_views(nodes@) =~= before.update(i as int, want));
    }
}

impl Editor {
    /// The piece of a title that shows an image in the block at `i`.
    pub fn inserted_image_tree_for_block(&self, i: usize, markdown: &str) -> (r: InlineTextTree)
        requires
            i < self@.document.len(),
        ensures
            r@ == image_piece(self@.document[i as int], markdown@),
    {
        if self.document[i].raw_text_editing || self.document[i].kind.is_code_block() {
            InlineTextTree::plain(String::from_str(markdown))
        } else {
            InlineTextTree::from_markdown(String::from_str(markdown))
        }
    }

    /// Puts an image into the text of the block at `i`.
    pub fn replace_current_block_selection_with_image_text(&mut self, i: usize, image: &ImagePaste)
        requires
            i < old(self)@.document.len(),
        ensures
            final(self)@ == image_in_block(old(self)@, i as int, *image),
    {
        let id: u64 = self.document[i].id;
        let kind = self.document[i].kind.duplicate();
        let mut title = image.leading.duplicate();
        title.append_tree(self.inserted_image_tree_for_block(i, image.markdown.as_str()));
        let pieces: usize = title.fragments.len();
        title.append_tree(image.trailing.duplicate());
        reshape_node(
            &mut self.document,
            i,
            kind,
            title,
            BlockSelection::AfterFragments(pieces),
            Some(&image.shown),
        );
        self.focus_block(id);
    }

    /// Puts an image into a paragraph of its own at the block at `i`.
    pub fn insert_image_block_after_paragraph(&mut self, i: usize, image: &ImagePaste)
        requires
            i < old(self)@.document.len(),
            old(self)@.next_id + 2 <= u64::MAX,
        ensures
            final(self)@ == image_in_paragraph(old(self)@, i as int, *image),
    {
        let ghost s0 = self@;
        let id: u64 = self.document[i].id;
        let depth: usize = self.document[i].depth;
        let at: usize = crate::document::find_subtree_end(&self.document, i);
        if image.leading_blank {
            let title = InlineTextTree::plain(image.markdown.clone());
            reshape_node(
                &mut self.document,
                i,
                BlockKind::Paragraph,
                title,
                BlockSelection::AfterFragments(1),
                None,
            );
            if !image.trailing_blank {
                let _below: u64 = self.insert_fresh(
                    at,
                    depth,
                    BlockKind::Paragraph,
                    image.trailing.duplicate(),
                );
            }
            self.focus_block(id);
            return;
        }
        let title = image.leading.duplicate();
        let pieces: usize = title.fragments.len();
        reshape_node(
            &mut self.document,
            i,
            BlockKind::Paragraph,
            title,
            BlockSelection::AfterFragments(pieces),
            Some(&image.shown),
        );
        let shown: u64 = self.insert_fresh(
            at,
            depth,
            BlockKind::Paragraph,
            InlineTextTree::plain(image.markdown.clone()),
        );
        let n: usize = self.document.len();
        assert(self@.document.len() == s0.document.len() + 1);
        if !image.trailing_blank {
            let _below: u64 = self.insert_fresh(
                at + 1,
                depth,
                BlockKind::Paragraph,
                image.trailing.duplicate(),
            );
        }
        self.focus_block(shown);
    }

    /// Puts a pasted image into a block or cell. The result says whether it did: where
    /// a selection spans blocks, the image's Markdown is to take its place instead.
    pub fn handle_paste_image_request(
        &mut self,
        entity_id: u64,
        image: &ImagePaste,
        facts: &DocumentFacts,
        now: u64,
    ) -> (r: bool)
        requires
            history::facts_ok(*facts),
            old(self)@.next_id + 2 <= u64::MAX,
        ensures
            final(self)@ == image_pasted(old(self)@, entity_id, *image, *facts, now),
            r == !replaces_selection(*facts),
    {
        if facts.cross_block.is_some() {
            return false;
        }
        self.begin_capture(facts, now);
        let alone = self.image_gets_a_paragraph(entity_id);
        match find_binding(&self.document, entity_id) {
            Some((i, _position)) => {
                put_image_in_table(&mut self.document, i, entity_id, image);
                self.focus_block(entity_id);
            },
            None => {
                match find_index(&self.document, entity_id) {
                    Some(i) => {
                        if alone {
                            self.insert_image_block_after_paragraph(i, image);
                        } else {
                            self.replace_current_block_selection_with_image_text(i, image);
                        }
                    },
                    None => {
                        let stands_alone = self.view_mode == ViewMode::Rendered && match find_gone(
                            facts,
                            entity_id,
                        ) {
                            Some(k) => matches!(facts.gone[k].block.kind, BlockKind::Paragraph)
                                && !facts.gone[k].block.raw_text_editing,
                            None => true,
                        };
                        if !stands_alone {
                            self.focus_block(entity_id);
                        }
                    },
                }
            },
        }
        self.mark_dirty();
        true
    }

    /// Whether an image pasted into a block or cell gets a paragraph of its own.
    pub fn image_gets_a_paragraph(&self, entity_id: u64) -> (r: bool)
        ensures
            r == (targets::binding_of(self@.document, entity_id) is None
                && (document::index_of(self@.document, entity_id) matches Some(i)
                && image_stands_alone(self@, self@.document[i]))),
    {
        if find_binding(&self.document, entity_id).is_some() {
            return false;
        }
        match find_index(&self.document, entity_id) {
            Some(i) => self.view_mode == ViewMode::Rendered && matches!(
                self.document[i].kind,
                BlockKind::Paragraph
            ) && !self.document[i].raw_text_editing,
            None => false,
        }
    }
}

} // verus!
