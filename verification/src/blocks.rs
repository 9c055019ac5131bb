//! The block model that the importer builds and the editor edits.

use vstd::prelude::*;

verus! {

/// The callout flavours that a quote header can name.
#[derive(Clone, Copy, Debug, PartialEq, Eq, Structural)]
pub enum CalloutVariant {
    Note,
    Tip,
    Important,
    Warning,
    Caution,
}

/// What a block is. `T` is the type of the texts in it: `String` in running
/// code, `Seq<char>` in contracts.
#[derive(Debug, PartialEq, Eq)]
pub enum BlockKind<T> {
    Paragraph,
    Heading { level: u8 },
    BulletedListItem,
    NumberedListItem,
    TaskListItem { checked: bool },
    Quote,
    Callout(CalloutVariant),
    CodeBlock { language: Option<T> },
    Separator,
    Table,
    RawMarkdown,
    Comment,
    HtmlBlock,
    MathBlock,
    MermaidBlock,
    FootnoteDefinition,
}

/// A piece of a block's title: literal text, or Markdown source for the inline
/// formatter.
#[derive(Debug, PartialEq, Eq)]
pub struct InlineFragment<T> {
    pub markdown: bool,
    pub text: T,
}

/// A block's title as its pieces in order.
#[derive(Debug, PartialEq, Eq)]
pub struct InlineTextTree {
    pub fragments: Vec<InlineFragment<String>>,
}

/// The model of a title.
pub type Title = Seq<InlineFragment<Seq<char>>>;

/// Text alignment of one table column.
#[derive(Clone, Copy, Debug, PartialEq, Eq, Structural)]
pub enum TableColumnAlignment {
    Default,
    Left,
    Center,
    Right,
}

/// A table's header, body rows and column settings. A width is the bit pattern
/// of the column's fraction of the table width.
#[derive(Debug, PartialEq, Eq)]
pub struct TableData {
    pub header: Vec<InlineTextTree>,
    pub alignments: Vec<TableColumnAlignment>,
    pub rows: Vec<Vec<InlineTextTree>>,
    pub widths: Option<Vec<u32>>,
}

/// The model of a table.
#[verifier::ext_equal]
pub struct TableView {
    pub header: Seq<Title>,
    pub alignments: Seq<TableColumnAlignment>,
    pub rows: Seq<Seq<Title>>,
    pub widths: Option<Seq<u32>>,
}

/// A block with the blocks under it.
#[derive(Debug, PartialEq, Eq)]
pub struct Block {
    pub kind: BlockKind<String>,
    pub title: InlineTextTree,
    pub table: Option<TableData>,
    pub children: Vec<Block>,
}

/// The model of a block.
#[verifier::ext_equal]
pub struct BlockView {
    pub kind: BlockKind<Seq<char>>,
    pub title: Title,
    pub table: Option<TableView>,
    pub children: Seq<BlockView>,
}

/// The text of an optional string.
pub open spec fn opt_text(s: Option<String>) -> Option<Seq<char>> {
    match s {
        Some(t) => Some(t@),
        None => None,
    }
}

impl View for BlockKind<String> {
    type V = BlockKind<Seq<char>>;

    open spec fn view(&self) -> BlockKind<Seq<char>> {
        match *self {
            BlockKind::Paragraph => BlockKind::Paragraph,
            BlockKind::Heading { level } => BlockKind::Heading { level },
            BlockKind::BulletedListItem => BlockKind::BulletedListItem,
            BlockKind::NumberedListItem => BlockKind::NumberedListItem,
            BlockKind::TaskListItem { checked } => BlockKind::TaskListItem { checked },
            BlockKind::Quote => BlockKind::Quote,
            BlockKind::Callout(variant) => BlockKind::Callout(variant),
            BlockKind::CodeBlock { language } => BlockKind::CodeBlock {
                language: opt_text(language),
            },
            BlockKind::Separator => BlockKind::Separator,
            BlockKind::Table => BlockKind::Table,
            BlockKind::RawMarkdown => BlockKind::RawMarkdown,
            BlockKind::Comment => BlockKind::Comment,
            BlockKind::HtmlBlock => BlockKind::HtmlBlock,
            BlockKind::MathBlock => BlockKind::MathBlock,
            BlockKind::MermaidBlock => BlockKind::MermaidBlock,
            BlockKind::FootnoteDefinition => BlockKind::FootnoteDefinition,
        }
    }
}

impl View for InlineFragment<String> {
    type V = InlineFragment<Seq<char>>;

    open spec fn view(&self) -> InlineFragment<Seq<char>> {
        InlineFragment { markdown: self.markdown, text: self.text@ }
    }
}

impl View for InlineTextTree {
    type V = Title;

    open spec fn view(&self) -> Title {
        Seq::new(self.fragments@.len(), |i: int| self.fragments@[i]@)
    }
}

/// The models of a sequence of titles.
pub open spec fn titles(cells: Seq<InlineTextTree>) -> Seq<Title> {
    Seq::new(cells.len(), |i: int| cells[i]@)
}

/// The models of the rows of a table.
pub open spec fn title_rows(rows: Seq<Vec<InlineTextTree>>) -> Seq<Seq<Title>> {
    Seq::new(rows.len(), |i: int| titles(rows[i]@))
}

impl View for TableData {
    type V = TableView;

    open spec fn view(&self) -> TableView {
        TableView {
            header: titles(self.header@),
            alignments: self.alignments@,
            rows: title_rows(self.rows@),
            widths: match self.widths {
                Some(w) => Some(w@),
                None => None,
            },
        }
    }
}

/// The model of an optional table.
pub open spec fn opt_table(table: Option<TableData>) -> Option<TableView> {
    match table {
        Some(t) => Some(t@),
        None => None,
    }
}

impl View for Block {
    type V = BlockView;

    open spec fn view(&self) -> BlockView {
        block_view(*self)
    }
}

/// The model of a block, with those of the blocks under it.
pub open spec fn block_view(block: Block) -> BlockView
    decreases block,
{
    BlockView {
        kind: block.kind@,
        title: block.title@,
        table: opt_table(block.table),
        children: Seq::new(
            block.children@.len(),
            |i: int|
                if 0 <= i < block.children@.len() {
                    block_view(block.children@[i])
                } else {
                    arbitrary()
                },
        ),
    }
}

/// The models of a sequence of blocks.
pub open spec fn block_views(blocks: Seq<Block>) -> Seq<BlockView> {
    Seq::new(blocks.len(), |i: int| block_view(blocks[i]))
}

/// A title of literal text.
pub open spec fn plain_title(text: Seq<char>) -> Title {
    seq![InlineFragment { markdown: false, text }]
}

/// A title of Markdown source.
pub open spec fn markdown_title(text: Seq<char>) -> Title {
    seq![InlineFragment { markdown: true, text }]
}

/// The text of a title: its pieces' texts one after the other.
pub open spec fn title_text(title: Title) -> Seq<char>
    decreases title.len(),
{
    if title.len() == 0 {
        Seq::empty()
    } else {
        title_text(title.drop_last()) + title.last().text
    }
}

/// A block without children and without a table.
pub open spec fn leaf(kind: BlockKind<Seq<char>>, title: Title) -> BlockView {
    BlockView { kind, title, table: None, children: Seq::empty() }
}

/// Whether blocks of this kind are list items.
pub open spec fn kind_is_list_item<T>(kind: BlockKind<T>) -> bool {
    kind is BulletedListItem || kind is NumberedListItem || kind is TaskListItem
}

impl BlockKind<String> {
    /// Whether blocks of this kind are list items.
    pub fn is_list_item(&self) -> (r: bool)
        ensures
            r == kind_is_list_item(self@),
    {
        matches!(
            self,
            BlockKind::BulletedListItem
                | BlockKind::NumberedListItem
                | BlockKind::TaskListItem { .. }
        )
    }

    /// Whether blocks of this kind hold code.
    pub fn is_code_block(&self) -> (r: bool)
        ensures
            r == (self@ is CodeBlock),
    {
        matches!(self, BlockKind::CodeBlock { .. })
    }

    /// Whether blocks of this kind keep Markdown that the editor does not model.
    pub fn is_raw_markdown(&self) -> (r: bool)
        ensures
            r == (self@ is RawMarkdown),
    {
        matches!(self, BlockKind::RawMarkdown)
    }

    /// The same kind again.
    pub fn duplicate(&self) -> (r: Self)
        ensures
            r@ == self@,
    {
        match self {
            BlockKind::Paragraph => BlockKind::Paragraph,
            BlockKind::Heading { level } => BlockKind::Heading { level: *level },
            BlockKind::BulletedListItem => BlockKind::BulletedListItem,
            BlockKind::NumberedListItem => BlockKind::NumberedListItem,
            BlockKind::TaskListItem { checked } => BlockKind::TaskListItem { checked: *checked },
            BlockKind::Quote => BlockKind::Quote,
            BlockKind::Callout(variant) => BlockKind::Callout(*variant),
            BlockKind::CodeBlock { language } => BlockKind::CodeBlock {
                language: match language {
                    Some(name) => Some(name.clone()),
                    None => None,
                },
            },
            BlockKind::Separator => BlockKind::Separator,
            BlockKind::Table => BlockKind::Table,
            BlockKind::RawMarkdown => BlockKind::RawMarkdown,
            BlockKind::Comment => BlockKind::Comment,
            BlockKind::HtmlBlock => BlockKind::HtmlBlock,
            BlockKind::MathBlock => BlockKind::MathBlock,
            BlockKind::MermaidBlock => BlockKind::MermaidBlock,
            BlockKind::FootnoteDefinition => BlockKind::FootnoteDefinition,
        }
    }
}

impl InlineTextTree {
    /// A title of literal text.
    pub fn plain(text: String) -> (r: Self)
        ensures
            r@ == plain_title(text@),
    {
        let r = InlineTextTree { fragments: vec![InlineFragment { markdown: false, text }] };
        assert(r@ =~= plain_title(text@));
        r
    }

    /// A title of Markdown source.
    pub fn from_markdown(text: String) -> (r: Self)
        ensures
            r@ == markdown_title(text@),
    {
        let r = InlineTextTree { fragments: vec![InlineFragment { markdown: true, text }] };
        assert(r@ =~= markdown_title(text@));
        r
    }

    /// Adds the pieces of `other` after those of this title.
    pub fn append_tree(&mut self, other: InlineTextTree)
        ensures
            final(self)@ == old(self)@ + other@,
    {
        let mut other = other;
        let ghost before = self@;
        let ghost added = other@;
        self.fragments.append(&mut other.fragments);
        assert(self@ =~= before + added);
    }

    /// The text of this title.
    pub fn text(&self) -> (r: String)
        ensures
            r@ == title_text(self@),
    {
        let mut out = String::new();
        let mut index: usize = 0;
        assert(self@.take(0) =~= Seq::empty());
        while index < self.fragments.len()
            invariant
                index <= self.fragments@.len(),
                out@ == title_text(self@.take(index as int)),
            decreases self.fragments@.len() - index,
        {
            out.append(self.fragments[index].text.as_str());
            proof {
                let next = self@.take(index + 1);
                assert(next.drop_last() =~= self@.take(index as int));
            }
            index = index + 1;
        }
        assert(self@.take(self@.len() as int) =~= self@);
        out
    }
}

impl Block {
    /// A block without children and without a table.
    pub fn leaf(kind: BlockKind<String>, title: InlineTextTree) -> (r: Self)
        ensures
            r@ == leaf(kind@, title@),
    {
        let r = Block { kind, title, table: None, children: Vec::new() };
        assert(r@.children =~= Seq::empty());
        r
    }
}

} // verus!
