//! The events that flow from the tokenizer through the lexer to the tree
//! builder.

use vstd::prelude::*;
use vstd::string::StringSliceAdditionalSpecFns;
use crate::component::Alignment;

verus! {

/// A range of bytes of the source.
#[derive(Debug, Clone, Copy, PartialEq, Eq, Structural)]
pub struct Span {
    pub start: usize,
    pub end: usize,
}

/// The kind of an element, as a closing tag names it.
#[derive(Debug, Clone, Copy, PartialEq, Eq, Structural)]
pub enum ElementKind {
    Paragraph,
    Heading,
    BlockQuote,
    CodeBlock,
    HtmlBlock,
    List,
    Item,
    FootnoteDefinition,
    Table,
    TableHead,
    TableRow,
    TableCell,
    Emphasis,
    Strong,
    Strikethrough,
    Link,
    Image,
    MetadataBlock,
}

/// An element as its opening tag describes it.
#[derive(Debug, PartialEq, Eq)]
pub enum Element {
    Paragraph,
    /// A heading and its level.
    Heading(u8),
    BlockQuote,
    /// A code block; a fenced one names its language.
    CodeBlock(Option<String>),
    HtmlBlock,
    /// A list; a numbered one gives the number of its first item.
    List(Option<u64>),
    Item,
    /// The definition of the footnote with this label.
    FootnoteDefinition(String),
    /// A table and the alignment of each of its columns.
    Table(Vec<Alignment>),
    TableHead,
    TableRow,
    TableCell,
    Emphasis,
    Strong,
    Strikethrough,
    Link { dest_url: String, title: String },
    Image { dest_url: String, title: String },
    MetadataBlock,
}

/// An event of the base tokenizer.
#[derive(Debug, PartialEq, Eq)]
pub enum Token {
    Start(Element),
    End(ElementKind),
    Text(String),
    Code(String),
    Html(String),
    InlineHtml(String),
    FootnoteReference(String),
    SoftBreak,
    HardBreak,
    Rule,
    TaskListMarker(bool),
}

/// A token and the part of the source that it stands for.
#[derive(Debug, PartialEq, Eq)]
pub struct Spanned {
    pub token: Token,
    pub span: Span,
}

/// A construct that is written with delimiters inside text.
#[derive(Debug, Clone, Copy, PartialEq, Eq, Structural)]
pub enum Construct {
    /// Highlighted text, between `==` and `==`.
    Highlight,
    /// A formula: within a line between `$` and `$`, or over several lines
    /// between `$$` and `$$`. The flag says whether it is the latter.
    Tex(bool),
}

/// An event of the extended lexer: a token of the base tokenizer, or the
/// start or end of a delimited construct.
#[derive(Debug, PartialEq, Eq)]
pub enum Lexeme {
    Base(Token),
    Start(Construct),
    End(Construct),
}

/// A lexeme and the part of the source that it stands for.
#[derive(Debug, PartialEq, Eq)]
pub struct Located {
    pub lexeme: Lexeme,
    pub span: Span,
}

/// The mathematical value of an [`Element`].
pub enum ElementView {
    Paragraph,
    Heading(u8),
    BlockQuote,
    CodeBlock(Option<Seq<char>>),
    HtmlBlock,
    List(Option<u64>),
    Item,
    FootnoteDefinition(Seq<char>),
    Table(Seq<Alignment>),
    TableHead,
    TableRow,
    TableCell,
    Emphasis,
    Strong,
    Strikethrough,
    Link { dest_url: Seq<char>, title: Seq<char> },
    Image { dest_url: Seq<char>, title: Seq<char> },
    MetadataBlock,
}

/// The mathematical value of a [`Token`].
pub enum TokenView {
    Start(ElementView),
    End(ElementKind),
    Text(Seq<char>),
    Code(Seq<char>),
    Html(Seq<char>),
    InlineHtml(Seq<char>),
    FootnoteReference(Seq<char>),
    SoftBreak,
    HardBreak,
    Rule,
    TaskListMarker(bool),
}

/// The mathematical value of a [`Spanned`] token.
pub struct SpannedView {
    pub token: TokenView,
    pub span: Span,
}

/// The mathematical value of a [`Lexeme`].
pub enum LexemeView {
    Base(TokenView),
    Start(Construct),
    End(Construct),
}

/// The mathematical value of a [`Located`] lexeme.
pub struct LocatedView {
    pub lexeme: LexemeView,
    pub span: Span,
}

impl View for Element {
    type V = ElementView;

    open spec fn view(&self) -> ElementView {
        match self {
            Element::Paragraph => ElementView::Paragraph,
            Element::Heading(level) => ElementView::Heading(*level),
            Element::BlockQuote => ElementView::BlockQuote,
            Element::CodeBlock(language) => ElementView::CodeBlock(
                match language {
                    Some(language) => Some(language@),
                    None => None,
                },
            ),
            Element::HtmlBlock => ElementView::HtmlBlock,
            Element::List(first) => ElementView::List(*first),
            Element::Item => ElementView::Item,
            Element::FootnoteDefinition(label) => ElementView::FootnoteDefinition(label@),
            Element::Table(alignment) => ElementView::Table(alignment@),
            Element::TableHead => ElementView::TableHead,
            Element::TableRow => ElementView::TableRow,
            Element::TableCell => ElementView::TableCell,
            Element::Emphasis => ElementView::Emphasis,
            Element::Strong => ElementView::Strong,
            Element::Strikethrough => ElementView::Strikethrough,
            Element::Link { dest_url, title } => ElementView::Link {
                dest_url: dest_url@,
                title: title@,
            },
            Element::Image { dest_url, title } => ElementView::Image {
                dest_url: dest_url@,
                title: title@,
            },
            Element::MetadataBlock => ElementView::MetadataBlock,
        }
    }
}

impl ElementView {
    /// The kind of this element.
    pub open spec fn kind(self) -> ElementKind {
        match self {
            ElementView::Paragraph => ElementKind::Paragraph,
            ElementView::Heading(_) => ElementKind::Heading,
            ElementView::BlockQuote => ElementKind::BlockQuote,
            ElementView::CodeBlock(_) => ElementKind::CodeBlock,
            ElementView::HtmlBlock => ElementKind::HtmlBlock,
            ElementView::List(_) => ElementKind::List,
            ElementView::Item => ElementKind::Item,
            ElementView::FootnoteDefinition(_) => ElementKind::FootnoteDefinition,
            ElementView::Table(_) => ElementKind::Table,
            ElementView::TableHead => ElementKind::TableHead,
            ElementView::TableRow => ElementKind::TableRow,
            ElementView::TableCell => ElementKind::TableCell,
            ElementView::Emphasis => ElementKind::Emphasis,
            ElementView::Strong => ElementKind::Strong,
            ElementView::Strikethrough => ElementKind::Strikethrough,
            ElementView::Link { .. } => ElementKind::Link,
            ElementView::Image { .. } => ElementKind::Image,
            ElementView::MetadataBlock => ElementKind::MetadataBlock,
        }
    }
}

impl Element {
    /// The kind of this element: what its closing tag names.
    pub fn kind(&self) -> (kind: ElementKind)
        ensures
            kind == self@.kind(),
    {
        match self {
            Element::Paragraph => ElementKind::Paragraph,
            Element::Heading(_) => ElementKind::Heading,
            Element::BlockQuote => ElementKind::BlockQuote,
            Element::CodeBlock(_) => ElementKind::CodeBlock,
            Element::HtmlBlock => ElementKind::HtmlBlock,
            Element::List(_) => ElementKind::List,
            Element::Item => ElementKind::Item,
            Element::FootnoteDefinition(_) => ElementKind::FootnoteDefinition,
            Element::Table(_) => ElementKind::Table,
            Element::TableHead => ElementKind::TableHead,
            Element::TableRow => ElementKind::TableRow,
            Element::TableCell => ElementKind::TableCell,
            Element::Emphasis => ElementKind::Emphasis,
            Element::Strong => ElementKind::Strong,
            Element::Strikethrough => ElementKind::Strikethrough,
            Element::Link { .. } => ElementKind::Link,
            Element::Image { .. } => ElementKind::Image,
            Element::MetadataBlock => ElementKind::MetadataBlock,
        }
    }
}

impl View for Token {
    type V = TokenView;

    open spec fn view(&self) -> TokenView {
        match self {
            Token::Start(element) => TokenView::Start(element@),
            Token::End(kind) => TokenView::End(*kind),
            Token::Text(text) => TokenView::Text(text@),
            Token::Code(text) => TokenView::Code(text@),
            Token::Html(markup) => TokenView::Html(markup@),
            Token::InlineHtml(markup) => TokenView::InlineHtml(markup@),
            Token::FootnoteReference(label) => TokenView::FootnoteReference(label@),
            Token::SoftBreak => TokenView::SoftBreak,
            Token::HardBreak => TokenView::HardBreak,
            Token::Rule => TokenView::Rule,
            Token::TaskListMarker(checked) => TokenView::TaskListMarker(*checked),
        }
    }
}

impl View for Spanned {
    type V = SpannedView;

    open spec fn view(&self) -> SpannedView {
        SpannedView { token: self.token@, span: self.span }
    }
}

impl View for Lexeme {
    type V = LexemeView;

    open spec fn view(&self) -> LexemeView {
        match self {
            Lexeme::Base(token) => LexemeView::Base(token@),
            Lexeme::Start(construct) => LexemeView::Start(*construct),
            Lexeme::End(construct) => LexemeView::End(*construct),
        }
    }
}

impl View for Located {
    type V = LocatedView;

    open spec fn view(&self) -> LocatedView {
        LocatedView { lexeme: self.lexeme@, span: self.span }
    }
}

/// The values of a sequence of tokens.
pub open spec fn tokens_view(tokens: Seq<Spanned>) -> Seq<SpannedView> {
    Seq::new(tokens.len(), |i: int| tokens[i]@)
}

/// The values of a sequence of lexemes.
pub open spec fn lexemes_view(lexemes: Seq<Located>) -> Seq<LocatedView> {
    Seq::new(lexemes.len(), |i: int| lexemes[i]@)
}

impl Construct {
    /// The characters that open and close this construct, as bytes.
    pub open spec fn delimiter(self) -> Seq<u8> {
        match self {
            Construct::Highlight => seq![61u8, 61u8],
            Construct::Tex(false) => seq![36u8],
            Construct::Tex(true) => seq![36u8, 36u8],
        }
    }

    /// Whether this construct reaches over several events and is closed by
    /// a later one.
    pub open spec fn is_multiline(self) -> bool {
        self == Construct::Tex(true)
    }

    /// The string that opens and closes this construct.
    pub fn delimiter_str(&self) -> (delimiter: &'static str)
        ensures
            delimiter.spec_bytes() == self.delimiter(),
            delimiter@.len() == self.delimiter().len(),
    {
        match self {
            Construct::Highlight => {
                proof {
                    reveal_strlit("==");
                    lemma_ascii_bytes("=="@);
                }
                "=="
            },
            Construct::Tex(false) => {
                proof {
                    reveal_strlit("$");
                    lemma_ascii_bytes("$"@);
                }
                "$"
            },
            Construct::Tex(true) => {
                proof {
                    reveal_strlit("$$");
                    lemma_ascii_bytes("$$"@);
                }
                "$$"
            },
        }
    }
}

/// The bytes of characters that are all ASCII are the characters themselves.
pub proof fn lemma_ascii_bytes(chars: Seq<char>)
    requires
        vstd::utf8::is_ascii_chars(chars),
    ensures
        vstd::utf8::encode_utf8(chars) =~= Seq::new(chars.len(), |i: int| chars[i] as u8),
{
    vstd::utf8::is_ascii_chars_encode_utf8(chars);
}

} // verus!
