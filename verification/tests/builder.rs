use nbs::component::{
    Alignment, Format, LatexComponent, ListComponent, PostComponent, PostComponentKind,
    TableComponent,
};
use nbs::error::{ComponentError, Unsupported, Violation};
use nbs::event::{Construct, Element, ElementKind, Lexeme, Span, Spanned, Token};
use nbs::parser::{parse, Builder, ComponentParser, ParseStage, ParserOptions};
use nbs::text::{Style, TextComponent, TextPart};

fn start(element: Element) -> Lexeme {
    Lexeme::Base(Token::Start(element))
}

fn end(kind: ElementKind) -> Lexeme {
    Lexeme::Base(Token::End(kind))
}

fn words(value: &str) -> Lexeme {
    Lexeme::Base(Token::Text(value.to_string()))
}

fn plain(value: &str) -> PostComponent {
    PostComponent::Text(TextComponent::new(value))
}

fn feed_all(builder: &mut Builder, events: Vec<Lexeme>) -> Vec<PostComponent> {
    let mut produced = Vec::new();
    for event in events {
        if let Some(component) = builder.feed(event).unwrap() {
            produced.push(component);
        }
    }
    produced
}

fn build(events: Vec<Lexeme>) -> Vec<PostComponent> {
    let mut builder = Builder::new(ParserOptions::default());
    let produced = feed_all(&mut builder, events);
    assert!(builder.stack.is_empty());
    assert_eq!(builder.stage, ParseStage::Inactive);
    produced
}

#[test]
fn paragraph_of_text() {
    let built = build(vec![start(Element::Paragraph), words("a"), end(ElementKind::Paragraph)]);
    assert_eq!(
        built,
        vec![PostComponent::Text(TextComponent {
            style: Style::Paragraph,
            content: TextPart::Raw("a".to_string())
        })]
    );
}

#[test]
fn consecutive_texts_become_one_string() {
    let built = build(vec![
        start(Element::Paragraph),
        words("a"),
        words("b<"),
        words(""),
        words("c"),
        end(ElementKind::Paragraph),
    ]);
    assert_eq!(
        built,
        vec![PostComponent::Text(TextComponent {
            style: Style::Paragraph,
            content: TextPart::Raw("ab<c".to_string())
        })]
    );
}

#[test]
fn seeds_of_the_elements() {
    let seeds = vec![
        (Element::Paragraph, PostComponent::Text(TextComponent::new_styled(Style::Paragraph))),
        (Element::Heading(3), PostComponent::Text(TextComponent::new_styled(Style::Heading(3)))),
        (Element::BlockQuote, PostComponent::BlockQuote(vec![])),
        (
            Element::CodeBlock(Some("rust".to_string())),
            PostComponent::CodeBlock { language: Some("rust".to_string()), content: String::new() },
        ),
        (
            Element::CodeBlock(None),
            PostComponent::CodeBlock { language: None, content: String::new() },
        ),
        (
            Element::List(Some(4)),
            PostComponent::List(ListComponent { numbered: Some(4), items: vec![] }),
        ),
        (Element::List(None), PostComponent::List(ListComponent { numbered: None, items: vec![] })),
        (Element::Item, PostComponent::Placeholder),
        (
            Element::FootnoteDefinition("n".to_string()),
            PostComponent::Footnote { id: "n".to_string(), text: TextComponent::empty() },
        ),
        (
            Element::Table(vec![Alignment::Right]),
            PostComponent::Table(TableComponent {
                headers: vec![],
                alignment: vec![Alignment::Right],
                rows: vec![],
            }),
        ),
        (Element::TableCell, PostComponent::Placeholder),
        (Element::Emphasis, PostComponent::Text(TextComponent::new_styled(Style::Emphasis))),
        (Element::Strong, PostComponent::Text(TextComponent::new_styled(Style::Strong))),
        (
            Element::Strikethrough,
            PostComponent::Text(TextComponent::new_styled(Style::Strikethrough)),
        ),
        (
            Element::Link { dest_url: "u".to_string(), title: "t".to_string() },
            PostComponent::Text(TextComponent::new_link("u", "t")),
        ),
        (
            Element::Image { dest_url: "u".to_string(), title: "t".to_string() },
            PostComponent::Image { source: "u".to_string(), alt: Some("t".to_string()) },
        ),
        (
            Element::Image { dest_url: "u".to_string(), title: String::new() },
            PostComponent::Image { source: "u".to_string(), alt: None },
        ),
    ];
    for (element, seed) in seeds {
        let mut builder = Builder::new(ParserOptions::default());
        assert_eq!(builder.feed(start(element)), Ok(None));
        assert_eq!(builder.stack, vec![seed]);
    }
}

#[test]
fn seeds_of_the_constructs() {
    let mut builder = Builder::new(ParserOptions::default());
    feed_all(
        &mut builder,
        vec![
            Lexeme::Start(Construct::Highlight),
            Lexeme::Start(Construct::Tex(false)),
            Lexeme::Start(Construct::Tex(true)),
        ],
    );
    assert_eq!(
        builder.stack,
        vec![
            PostComponent::Text(TextComponent::new_styled(Style::Highlight)),
            PostComponent::Latex(LatexComponent {
                format: Format::Inline,
                source: String::new(),
                rendered: None
            }),
            PostComponent::Latex(LatexComponent {
                format: Format::Multiline,
                source: String::new(),
                rendered: None
            }),
        ]
    );
}

#[test]
fn head_and_row_open_nothing() {
    let mut builder = Builder::new(ParserOptions::default());
    assert_eq!(builder.feed(start(Element::TableHead)), Ok(None));
    assert!(builder.stack.is_empty());
    assert_ne!(builder.stage, ParseStage::Inactive);
    assert_eq!(builder.feed(start(Element::TableRow)), Ok(None));
    assert!(builder.stack.is_empty());
}

#[test]
fn unsupported_blocks_are_refused() {
    let mut builder = Builder::new(ParserOptions::default());
    assert_eq!(
        builder.feed(start(Element::MetadataBlock)),
        Err(ComponentError::Unsupported(Unsupported::MetadataBlock))
    );
    assert_eq!(
        builder.feed(start(Element::HtmlBlock)),
        Err(ComponentError::Unsupported(Unsupported::HtmlBlock))
    );
    assert!(builder.stack.is_empty());
    assert!(!ComponentError::Unsupported(Unsupported::HtmlBlock).is_internal());
    assert!(ComponentError::Invariant(Violation::TableStage).is_internal());
    assert_eq!(
        parse("<div>\n", ParserOptions::default()),
        Err(ComponentError::Unsupported(Unsupported::HtmlBlock))
    );
}

#[test]
fn closing_table_parts_outside_a_table_is_a_violation() {
    for kind in [
        ElementKind::Table,
        ElementKind::TableHead,
        ElementKind::TableRow,
        ElementKind::TableCell,
    ] {
        let mut builder = Builder::new(ParserOptions::default());
        feed_all(&mut builder, vec![start(Element::Paragraph), words("kept")]);
        let before = format!("{:?}", builder);
        assert_eq!(builder.feed(end(kind)), Err(ComponentError::Invariant(Violation::TableStage)));
        assert_eq!(format!("{:?}", builder), before);
    }
}

#[test]
fn closing_a_row_without_a_table_is_a_violation() {
    let mut builder = Builder::new(ParserOptions::default());
    feed_all(&mut builder, vec![start(Element::Paragraph), start(Element::TableHead)]);
    let before = format!("{:?}", builder);
    assert_eq!(
        builder.feed(end(ElementKind::TableRow)),
        Err(ComponentError::Invariant(Violation::TableMissing))
    );
    assert_eq!(
        builder.feed(end(ElementKind::TableHead)),
        Err(ComponentError::Invariant(Violation::TableMissing))
    );
    assert_eq!(format!("{:?}", builder), before);
}

#[test]
fn closing_a_cell_with_nothing_open_is_a_violation() {
    let mut builder = Builder::new(ParserOptions::default());
    feed_all(&mut builder, vec![start(Element::TableHead)]);
    assert_eq!(
        builder.feed(end(ElementKind::TableCell)),
        Err(ComponentError::Invariant(Violation::NothingOpen))
    );
}

#[test]
fn text_with_nothing_open_is_a_violation() {
    let mut builder = Builder::new(ParserOptions::default());
    assert_eq!(builder.feed(words("a")), Err(ComponentError::Invariant(Violation::NothingOpen)));
    assert_eq!(
        builder.feed(Lexeme::Base(Token::SoftBreak)),
        Err(ComponentError::Invariant(Violation::NothingOpen))
    );
}

#[test]
fn closing_with_nothing_open_changes_nothing() {
    let mut builder = Builder::new(ParserOptions::default());
    assert_eq!(builder.feed(end(ElementKind::Paragraph)), Ok(None));
    assert_eq!(builder.feed(Lexeme::End(Construct::Highlight)), Ok(None));
    assert!(builder.stack.is_empty());
}

fn table_events() -> Vec<Lexeme> {
    vec![
        start(Element::Table(vec![Alignment::Left, Alignment::Unaligned])),
        start(Element::TableHead),
        start(Element::TableCell),
        words("A"),
        end(ElementKind::TableCell),
        start(Element::TableCell),
        words("B"),
        end(ElementKind::TableCell),
        end(ElementKind::TableHead),
        start(Element::TableRow),
        start(Element::TableCell),
        words("1"),
        end(ElementKind::TableCell),
        start(Element::TableCell),
        end(ElementKind::TableCell),
        end(ElementKind::TableRow),
        end(ElementKind::Table),
    ]
}

#[test]
fn table_is_assembled() {
    assert_eq!(
        build(table_events()),
        vec![PostComponent::Table(TableComponent {
            headers: vec![plain("A"), plain("B")],
            alignment: vec![Alignment::Left, Alignment::Unaligned],
            rows: vec![vec![plain("1"), PostComponent::blank()]],
        })]
    );
}

#[test]
fn row_closed_while_the_header_is_due_becomes_the_header() {
    let built = build(vec![
        start(Element::Table(vec![])),
        start(Element::TableHead),
        start(Element::TableRow),
        start(Element::TableCell),
        words("A"),
        end(ElementKind::TableCell),
        end(ElementKind::TableRow),
        start(Element::TableRow),
        start(Element::TableCell),
        words("1"),
        end(ElementKind::TableCell),
        end(ElementKind::TableRow),
        end(ElementKind::Table),
    ]);
    assert_eq!(
        built,
        vec![PostComponent::Table(TableComponent {
            headers: vec![plain("A")],
            alignment: vec![],
            rows: vec![vec![plain("1")]],
        })]
    );
}

#[test]
fn row_finds_the_table_below_other_components() {
    let mut builder = Builder::new(ParserOptions::default());
    feed_all(
        &mut builder,
        vec![
            start(Element::Table(vec![])),
            start(Element::TableHead),
            end(ElementKind::TableHead),
            start(Element::TableCell),
            words("1"),
            end(ElementKind::TableCell),
            start(Element::Emphasis),
            end(ElementKind::TableRow),
        ],
    );
    assert_eq!(
        builder.stack,
        vec![
            PostComponent::Table(TableComponent {
                headers: vec![],
                alignment: vec![],
                rows: vec![vec![plain("1")]],
            }),
            PostComponent::Text(TextComponent::new_styled(Style::Emphasis)),
        ]
    );
}

#[test]
fn empty_list_item_becomes_empty_markup() {
    let built = build(vec![
        start(Element::List(None)),
        start(Element::Item),
        end(ElementKind::Item),
        end(ElementKind::List),
    ]);
    assert_eq!(
        built,
        vec![PostComponent::List(ListComponent {
            numbered: None,
            items: vec![PostComponent::Raw(String::new())]
        })]
    );
    let from_source = parse("- \n", ParserOptions::default()).unwrap();
    assert_eq!(from_source, built);
}

#[test]
fn code_is_kept_apart_from_the_text_behind_it() {
    let built = parse("`x`y", ParserOptions::default()).unwrap();
    let code = TextPart::Nested(Box::new(TextComponent {
        style: Style::Code,
        content: TextPart::Raw("x".to_string()),
    }));
    assert_eq!(
        built,
        vec![PostComponent::Text(TextComponent {
            style: Style::Paragraph,
            content: TextPart::Nested(Box::new(TextComponent {
                style: Style::Plain,
                content: TextPart::Chained(vec![
                    code,
                    TextPart::Empty,
                    TextPart::Raw("y".to_string())
                ]),
            })),
        })]
    );
}

#[test]
fn leaves_at_the_top_are_components_of_the_document() {
    let built = build(vec![
        Lexeme::Base(Token::Rule),
        Lexeme::Base(Token::Html("<b>".to_string())),
        Lexeme::Base(Token::InlineHtml("<i>".to_string())),
        Lexeme::Base(Token::TaskListMarker(true)),
        Lexeme::Base(Token::TaskListMarker(false)),
        Lexeme::Base(Token::HardBreak),
    ]);
    assert_eq!(
        built,
        vec![
            PostComponent::HorizonalRule,
            PostComponent::Raw("<b>".to_string()),
            PostComponent::Raw("<i>".to_string()),
            PostComponent::Raw("<input type=\"checkbox\" disabled=\"true\" checked />".to_string()),
            PostComponent::Raw("<input type=\"checkbox\" disabled=\"true\" />".to_string()),
            PostComponent::Text(TextComponent { style: Style::Plain, content: TextPart::NewLine }),
        ]
    );
}

#[test]
fn footnote_reference_links_to_the_footnote() {
    let built = build(vec![Lexeme::Base(Token::FootnoteReference("n1".to_string()))]);
    assert_eq!(
        built,
        vec![PostComponent::Text(TextComponent {
            style: Style::Link("#footnote-n1".to_string()),
            content: TextPart::Nested(Box::new(TextComponent {
                style: Style::Superscript,
                content: TextPart::Raw("[n1]".to_string()),
            })),
        })]
    );
}

#[test]
fn breaks_follow_the_option() {
    let events = || {
        vec![
            start(Element::Paragraph),
            words("a"),
            Lexeme::Base(Token::SoftBreak),
            words("b"),
            Lexeme::Base(Token::HardBreak),
            end(ElementKind::Paragraph),
        ]
    };
    let spaces = build(events());
    assert_eq!(
        spaces,
        vec![PostComponent::Text(TextComponent {
            style: Style::Paragraph,
            content: TextPart::Chained(vec![
                TextPart::Raw("a b".to_string()),
                TextPart::Nested(Box::new(TextComponent {
                    style: Style::Plain,
                    content: TextPart::NewLine
                })),
            ]),
        })]
    );
    let mut builder = Builder::new(ParserOptions { newline_soft_break: true });
    let lines = feed_all(&mut builder, events());
    let line = || {
        TextPart::Nested(Box::new(TextComponent { style: Style::Plain, content: TextPart::NewLine }))
    };
    assert_eq!(
        lines,
        vec![PostComponent::Text(TextComponent {
            style: Style::Paragraph,
            content: TextPart::Chained(vec![
                TextPart::Raw("a".to_string()),
                line(),
                TextPart::Raw("b".to_string()),
                TextPart::Nested(Box::new(TextComponent {
                    style: Style::Plain,
                    content: TextPart::Chained(vec![TextPart::NewLine, TextPart::NewLine]),
                })),
            ]),
        })]
    );
}

#[test]
fn multiline_formula_becomes_one_latex_component() {
    let source = "$$\nx < y & z\n$$\n";
    let built = parse(source, ParserOptions::default()).unwrap();
    assert_eq!(built.len(), 1);
    let parts = match &built[0] {
        PostComponent::Chained(parts) => parts,
        other => panic!("not chained: {:?}", other),
    };
    let formulas: Vec<&PostComponent> = parts
        .iter()
        .filter(|part| part.discriminant() == PostComponentKind::Latex)
        .collect();
    assert_eq!(
        formulas,
        vec![&PostComponent::Latex(LatexComponent {
            format: Format::Multiline,
            source: "\nx < y & z\n".to_string(),
            rendered: None,
        })]
    );
    assert_eq!(&source[2..13], "\nx < y & z\n");
}

#[test]
fn parser_gives_components_one_by_one() {
    let mut parser = ComponentParser::new("a\n\nb\n");
    let first = parser.next().unwrap().unwrap();
    let second = parser.next().unwrap().unwrap();
    assert_eq!(
        first,
        PostComponent::Text(TextComponent {
            style: Style::Paragraph,
            content: TextPart::Raw("a".to_string())
        })
    );
    assert_eq!(
        second,
        PostComponent::Text(TextComponent {
            style: Style::Paragraph,
            content: TextPart::Raw("b".to_string())
        })
    );
    assert_eq!(parser.next(), Ok(None));
    assert_eq!(parser.next(), Ok(None));
}

#[test]
fn parser_over_given_tokens() {
    let tokens = vec![
        Spanned { token: Token::Start(Element::Paragraph), span: Span { start: 0, end: 5 } },
        Spanned { token: Token::Text("==a==".to_string()), span: Span { start: 0, end: 5 } },
        Spanned { token: Token::End(ElementKind::Paragraph), span: Span { start: 0, end: 5 } },
    ];
    let built = ComponentParser::from_tokens("==a==", tokens, ParserOptions::default())
        .collect()
        .unwrap();
    assert_eq!(
        built,
        vec![PostComponent::Text(TextComponent {
            style: Style::Paragraph,
            content: TextPart::Chained(vec![
                TextPart::Raw(String::new()),
                TextPart::Nested(Box::new(TextComponent {
                    style: Style::Highlight,
                    content: TextPart::Raw("a".to_string()),
                })),
                TextPart::Raw(String::new()),
            ]),
        })]
    );
}

#[test]
fn options_default_to_spaces() {
    assert_eq!(ParserOptions::default(), ParserOptions { newline_soft_break: false });
    let built = ComponentParser::with_options("a\nb", ParserOptions { newline_soft_break: false })
        .collect()
        .unwrap();
    assert_eq!(
        built,
        vec![PostComponent::Text(TextComponent {
            style: Style::Paragraph,
            content: TextPart::Raw("a b".to_string())
        })]
    );
}
