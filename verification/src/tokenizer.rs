//! The base tokenizer: markdown source in, tokens with their spans out.

use pulldown_cmark::{CodeBlockKind, Event, Tag, TagEnd};
use vstd::prelude::*;
use crate::component::Alignment;
use crate::event::{tokens_view, Element, ElementKind, Span, Spanned, SpannedView, Token};

verus! {

/// `pulldown_cmark::Event`, an event of the tokenizer. Nothing is known
/// here of what it holds.
#[verifier::external_type_specification]
#[verifier::external_body]
pub struct ExEvent<'a>(pulldown_cmark::Event<'a>);

/// `pulldown_cmark::TagEnd`, a closing tag of the tokenizer. Nothing is
/// known here of what it holds.
#[verifier::external_type_specification]
#[verifier::external_body]
pub struct ExTagEnd(pulldown_cmark::TagEnd);

/// The tokens that the tokenizer makes of a source, with their spans.
pub uninterp spec fn base_tokens(source: Seq<char>) -> Seq<SpannedView>;

/// What an event of the tokenizer is, without what it carries.
#[derive(Debug, Clone, Copy, PartialEq, Eq, Structural)]
pub enum Shape {
    Start,
    End,
    Text,
    Code,
    Html,
    InlineHtml,
    FootnoteReference,
    SoftBreak,
    HardBreak,
    Rule,
    TaskListMarker(bool),
}

/// Tells the variants of `pulldown_cmark::Event` apart.
#[verifier::external_body]
fn event_shape(event: &Event<'_>) -> Shape {
    match event {
        Event::Start(_) => Shape::Start,
        Event::End(_) => Shape::End,
        Event::Text(_) => Shape::Text,
        Event::Code(_) => Shape::Code,
        Event::Html(_) => Shape::Html,
        Event::InlineHtml(_) => Shape::InlineHtml,
        Event::FootnoteReference(_) => Shape::FootnoteReference,
        Event::SoftBreak => Shape::SoftBreak,
        Event::HardBreak => Shape::HardBreak,
        Event::Rule => Shape::Rule,
        Event::TaskListMarker(checked) => Shape::TaskListMarker(*checked),
    }
}

/// The characters that a `pulldown_cmark::Event` carries: its text, code,
/// markup or label. An event that carries none gives an empty string.
#[verifier::external_body]
fn event_text(event: &Event<'_>) -> String {
    match event {
        Event::Text(text) | Event::Code(text) | Event::Html(text) | Event::InlineHtml(text) => {
            text.to_string()
        },
        Event::FootnoteReference(label) => label.to_string(),
        Event::Start(Tag::FootnoteDefinition(label)) => label.to_string(),
        _ => String::new(),
    }
}

/// The closing tag that belongs to a `pulldown_cmark::Event`: that of an
/// end event, and for a start event the one that `Tag::to_end` gives.
#[verifier::external_body]
fn closing_tag(event: &Event<'_>) -> Option<TagEnd> {
    match event {
        Event::Start(tag) => Some(tag.to_end()),
        Event::End(end) => Some(*end),
        _ => None,
    }
}

/// Tells the variants of `pulldown_cmark::TagEnd` apart.
#[verifier::external_body]
fn closing_kind(end: TagEnd) -> ElementKind {
    match end {
        TagEnd::Paragraph => ElementKind::Paragraph, TagEnd::Heading(_) => ElementKind::Heading,
        TagEnd::BlockQuote => ElementKind::BlockQuote, TagEnd::CodeBlock => ElementKind::CodeBlock,
        TagEnd::HtmlBlock => ElementKind::HtmlBlock, TagEnd::List(_) => ElementKind::List,
        TagEnd::Item => ElementKind::Item,
        TagEnd::FootnoteDefinition => ElementKind::FootnoteDefinition,
        TagEnd::Table => ElementKind::Table, TagEnd::TableHead => ElementKind::TableHead,
        TagEnd::TableRow => ElementKind::TableRow, TagEnd::TableCell => ElementKind::TableCell,
        TagEnd::Emphasis => ElementKind::Emphasis, TagEnd::Strong => ElementKind::Strong,
        TagEnd::Strikethrough => ElementKind::Strikethrough, TagEnd::Link => ElementKind::Link,
        TagEnd::Image => ElementKind::Image, TagEnd::MetadataBlock(_) => ElementKind::MetadataBlock,
    }
}

/// The level of the heading that a `pulldown_cmark::Event` starts, as the
/// number that `HeadingLevel` stands for; zero for every other event.
#[verifier::external_body]
fn heading_level(event: &Event<'_>) -> u8 {
    match event {
        Event::Start(Tag::Heading { level, .. }) => *level as u8,
        _ => 0,
    }
}

/// The language of the fenced code block that a `pulldown_cmark::Event`
/// starts. An indented code block, and every other event, has none.
#[verifier::external_body]
fn code_language(event: &Event<'_>) -> Option<String> {
    match event {
        Event::Start(Tag::CodeBlock(CodeBlockKind::Fenced(language))) => Some(language.to_string()),
        _ => None,
    }
}

/// The number of the first item of the list that a `pulldown_cmark::Event`
/// starts, if it starts a numbered list.
#[verifier::external_body]
fn list_start(event: &Event<'_>) -> Option<u64> {
    match event {
        Event::Start(Tag::List(first)) => *first,
        _ => None,
    }
}

/// The alignments of the columns of the table that a
/// `pulldown_cmark::Event` starts; none for every other event.
#[verifier::external_body]
fn column_alignments(event: &Event<'_>) -> Vec<Alignment> {
    match event {
        Event::Start(Tag::Table(columns)) => columns.iter().map(|column| match column {
            pulldown_cmark::Alignment::None => Alignment::Unaligned,
            pulldown_cmark::Alignment::Left => Alignment::Left,
            pulldown_cmark::Alignment::Center => Alignment::Center,
            pulldown_cmark::Alignment::Right => Alignment::Right,
        }).collect(),
        _ => Vec::new(),
    }
}

/// The destination of the link or image that a `pulldown_cmark::Event`
/// starts; empty for every other event.
#[verifier::external_body]
fn link_destination(event: &Event<'_>) -> String {
    match event {
        Event::Start(Tag::Link { dest_url, .. }) => dest_url.to_string(),
        Event::Start(Tag::Image { dest_url, .. }) => dest_url.to_string(),
        _ => String::new(),
    }
}

/// The title of the link or image that a `pulldown_cmark::Event` starts;
/// empty for every other event.
#[verifier::external_body]
fn link_title(event: &Event<'_>) -> String {
    match event {
        Event::Start(Tag::Link { title, .. }) => title.to_string(),
        Event::Start(Tag::Image { title, .. }) => title.to_string(),
        _ => String::new(),
    }
}

/// The element that `event` starts, given its kind: the element of that
/// kind, with what the event carries for it. An element that carries nothing
/// is known from its kind alone.
fn convert_element(event: &Event<'_>, kind: ElementKind) -> (element: Element)
    ensures
        element@.kind() == kind,
{
    match kind {
        ElementKind::Paragraph => Element::Paragraph,
        ElementKind::Heading => Element::Heading(heading_level(event)),
        ElementKind::BlockQuote => Element::BlockQuote,
        ElementKind::CodeBlock => Element::CodeBlock(code_language(event)),
        ElementKind::HtmlBlock => Element::HtmlBlock,
        ElementKind::List => Element::List(list_start(event)),
        ElementKind::Item => Element::Item,
        ElementKind::FootnoteDefinition => Element::FootnoteDefinition(event_text(event)),
        ElementKind::Table => Element::Table(column_alignments(event)),
        ElementKind::TableHead => Element::TableHead,
        ElementKind::TableRow => Element::TableRow,
        ElementKind::TableCell => Element::TableCell,
        ElementKind::Emphasis => Element::Emphasis,
        ElementKind::Strong => Element::Strong,
        ElementKind::Strikethrough => Element::Strikethrough,
        ElementKind::Link => Element::Link {
            dest_url: link_destination(event),
            title: link_title(event),
        },
        ElementKind::Image => Element::Image {
            dest_url: link_destination(event),
            title: link_title(event),
        },
        ElementKind::MetadataBlock => Element::MetadataBlock,
    }
}

/// The token that stands for `event`, with the span from `start` to `end`.
pub fn convert(event: &Event<'_>, start: usize, end: usize) -> (token: Spanned)
    ensures
        token.span == (Span { start, end }),
{
    let kind = match closing_tag(event) {
        Some(end) => closing_kind(end),
        None => ElementKind::Paragraph,
    };
    let token = match event_shape(event) {
        Shape::Start => Token::Start(convert_element(event, kind)),
        Shape::End => Token::End(kind),
        Shape::Text => Token::Text(event_text(event)),
        Shape::Code => Token::Code(event_text(event)),
        Shape::Html => Token::Html(event_text(event)),
        Shape::InlineHtml => Token::InlineHtml(event_text(event)),
        Shape::FootnoteReference => Token::FootnoteReference(event_text(event)),
        Shape::SoftBreak => Token::SoftBreak,
        Shape::HardBreak => Token::HardBreak,
        Shape::Rule => Token::Rule,
        Shape::TaskListMarker(checked) => Token::TaskListMarker(checked),
    };
    Spanned { token, span: Span { start, end } }
}

/// `pulldown_cmark::Parser::new` on `source` and `Parser::into_offset_iter`,
/// each event turned into a token of this library. The tokenizer works on
/// the source alone, so the same source always gives the same tokens: they
/// are `base_tokens` of the source. Nothing more is claimed of them here.
#[verifier::external_body]
fn run_tokenizer(source: &str) -> (tokens: Vec<Spanned>)
    ensures
        tokens_view(tokens@) == base_tokens(source@),
{
    pulldown_cmark::Parser::new(source)
        .into_offset_iter()
        .map(|(event, range)| convert(&event, range.start, range.end))
        .collect()
}

/// The tokens of the markdown `source`, with their spans.
pub fn tokenize(source: &str) -> (tokens: Vec<Spanned>)
    ensures
        tokens_view(tokens@) == base_tokens(source@),
{
    run_tokenizer(source)
}

} // verus!
