use nbs::component::Alignment;
use nbs::event::{Element, ElementKind, Span, Spanned, Token};
use nbs::tokenizer::convert;
use pulldown_cmark::{
    CodeBlockKind, CowStr, Event, HeadingLevel, LinkType, MetadataBlockKind, Tag, TagEnd,
};

fn token(event: Event<'_>) -> Token {
    convert(&event, 0, 0).token
}

#[test]
fn span_of_a_converted_event() {
    assert_eq!(
        convert(&Event::Rule, 3, 9),
        Spanned { token: Token::Rule, span: Span { start: 3, end: 9 } }
    );
}

#[test]
fn leaves_are_converted() {
    assert_eq!(token(Event::Text(CowStr::from("t"))), Token::Text("t".to_string()));
    assert_eq!(token(Event::Code(CowStr::from("c"))), Token::Code("c".to_string()));
    assert_eq!(token(Event::Html(CowStr::from("<p>"))), Token::Html("<p>".to_string()));
    assert_eq!(
        token(Event::InlineHtml(CowStr::from("<i>"))),
        Token::InlineHtml("<i>".to_string())
    );
    assert_eq!(
        token(Event::FootnoteReference(CowStr::from("n"))),
        Token::FootnoteReference("n".to_string())
    );
    assert_eq!(token(Event::SoftBreak), Token::SoftBreak);
    assert_eq!(token(Event::HardBreak), Token::HardBreak);
    assert_eq!(token(Event::Rule), Token::Rule);
    assert_eq!(token(Event::TaskListMarker(true)), Token::TaskListMarker(true));
    assert_eq!(token(Event::TaskListMarker(false)), Token::TaskListMarker(false));
}

#[test]
fn opening_tags_are_converted() {
    let heading = |level: HeadingLevel| Tag::Heading {
        level,
        id: Some(CowStr::from("id")),
        classes: vec![CowStr::from("c")],
        attrs: vec![],
    };
    let link = || (LinkType::Inline, CowStr::from("u"), CowStr::from("t"), CowStr::from("i"));
    let (link_type, dest_url, title, id) = link();
    let link_tag = Tag::Link { link_type, dest_url, title, id };
    let (link_type, dest_url, title, id) = link();
    let image_tag = Tag::Image { link_type, dest_url, title, id };
    let pairs = vec![
        (Tag::Paragraph, Element::Paragraph),
        (heading(HeadingLevel::H1), Element::Heading(1)),
        (heading(HeadingLevel::H2), Element::Heading(2)),
        (heading(HeadingLevel::H3), Element::Heading(3)),
        (heading(HeadingLevel::H4), Element::Heading(4)),
        (heading(HeadingLevel::H5), Element::Heading(5)),
        (heading(HeadingLevel::H6), Element::Heading(6)),
        (Tag::BlockQuote, Element::BlockQuote),
        (Tag::CodeBlock(CodeBlockKind::Indented), Element::CodeBlock(None)),
        (
            Tag::CodeBlock(CodeBlockKind::Fenced(CowStr::from(""))),
            Element::CodeBlock(Some(String::new())),
        ),
        (
            Tag::CodeBlock(CodeBlockKind::Fenced(CowStr::from("rust"))),
            Element::CodeBlock(Some("rust".to_string())),
        ),
        (Tag::HtmlBlock, Element::HtmlBlock),
        (Tag::List(None), Element::List(None)),
        (Tag::List(Some(0)), Element::List(Some(0))),
        (Tag::List(Some(u64::MAX)), Element::List(Some(u64::MAX))),
        (Tag::Item, Element::Item),
        (
            Tag::FootnoteDefinition(CowStr::from("n")),
            Element::FootnoteDefinition("n".to_string()),
        ),
        (
            Tag::Table(vec![
                pulldown_cmark::Alignment::None,
                pulldown_cmark::Alignment::Left,
                pulldown_cmark::Alignment::Center,
                pulldown_cmark::Alignment::Right,
            ]),
            Element::Table(vec![
                Alignment::Unaligned,
                Alignment::Left,
                Alignment::Center,
                Alignment::Right,
            ]),
        ),
        (Tag::Table(vec![]), Element::Table(vec![])),
        (Tag::TableHead, Element::TableHead),
        (Tag::TableRow, Element::TableRow),
        (Tag::TableCell, Element::TableCell),
        (Tag::Emphasis, Element::Emphasis),
        (Tag::Strong, Element::Strong),
        (Tag::Strikethrough, Element::Strikethrough),
        (link_tag, Element::Link { dest_url: "u".to_string(), title: "t".to_string() }),
        (image_tag, Element::Image { dest_url: "u".to_string(), title: "t".to_string() }),
        (Tag::MetadataBlock(MetadataBlockKind::YamlStyle), Element::MetadataBlock),
    ];
    for (tag, element) in pairs {
        let kind = element.kind();
        assert_eq!(token(Event::End(tag.to_end())), Token::End(kind));
        assert_eq!(token(Event::Start(tag)), Token::Start(element));
    }
}

#[test]
fn closing_tags_are_converted() {
    let pairs = vec![
        (TagEnd::Paragraph, ElementKind::Paragraph),
        (TagEnd::Heading(HeadingLevel::H3), ElementKind::Heading),
        (TagEnd::BlockQuote, ElementKind::BlockQuote),
        (TagEnd::CodeBlock, ElementKind::CodeBlock),
        (TagEnd::HtmlBlock, ElementKind::HtmlBlock),
        (TagEnd::List(true), ElementKind::List),
        (TagEnd::List(false), ElementKind::List),
        (TagEnd::Item, ElementKind::Item),
        (TagEnd::FootnoteDefinition, ElementKind::FootnoteDefinition),
        (TagEnd::Table, ElementKind::Table),
        (TagEnd::TableHead, ElementKind::TableHead),
        (TagEnd::TableRow, ElementKind::TableRow),
        (TagEnd::TableCell, ElementKind::TableCell),
        (TagEnd::Emphasis, ElementKind::Emphasis),
        (TagEnd::Strong, ElementKind::Strong),
        (TagEnd::Strikethrough, ElementKind::Strikethrough),
        (TagEnd::Link, ElementKind::Link),
        (TagEnd::Image, ElementKind::Image),
        (TagEnd::MetadataBlock(MetadataBlockKind::PlusesStyle), ElementKind::MetadataBlock),
    ];
    for (end, kind) in pairs {
        assert_eq!(token(Event::End(end)), Token::End(kind));
    }
}

#[test]
fn tables_of_the_tokenizer_are_built_and_rendered() {
    let source = "| A | B |\n|:--|---|\n| 1 | 2 |\n";
    let mut options = pulldown_cmark::Options::empty();
    options.insert(pulldown_cmark::Options::ENABLE_TABLES);
    let tokens: Vec<Spanned> = pulldown_cmark::Parser::new_ext(source, options)
        .into_offset_iter()
        .map(|(event, range)| convert(&event, range.start, range.end))
        .collect();
    let components = nbs::parser::ComponentParser::from_tokens(
        source,
        tokens,
        nbs::parser::ParserOptions::default(),
    )
    .collect()
    .unwrap();
    assert_eq!(components.len(), 1);
    let mut out = String::new();
    components[0].render_with(&mut out, &vec!["tableid0".to_string()]).unwrap();
    assert_eq!(
        out,
        "<table id=\"tableid0\"><thead><td>A</td><td>B</td></thead>\
         <tbody><tr><td>1</td><td>2</td></tr></tbody></table>\
         <style>table#tableid0 td:nth-child(1){text-align:left;}</style>"
    );
}

#[test]
fn formula_that_ends_inside_a_table_takes_the_table_with_it() {
    let source = "$$\n\n| A |\n|---|\n| $$ |\n";
    let mut options = pulldown_cmark::Options::empty();
    options.insert(pulldown_cmark::Options::ENABLE_TABLES);
    let tokens: Vec<Spanned> = pulldown_cmark::Parser::new_ext(source, options)
        .into_offset_iter()
        .map(|(event, range)| convert(&event, range.start, range.end))
        .collect();
    assert!(tokens.iter().any(|token| matches!(token.token, Token::Start(Element::Table(_)))));
    let result = nbs::parser::ComponentParser::from_tokens(
        source,
        tokens,
        nbs::parser::ParserOptions::default(),
    )
    .collect();
    assert_eq!(
        result,
        Err(nbs::error::ComponentError::Invariant(nbs::error::Violation::TableMissing))
    );
}
