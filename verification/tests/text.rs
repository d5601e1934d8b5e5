use nbs::component::{
    Format, LatexComponent, ListComponent, PostComponent, PostComponentKind, TableComponent,
};
use nbs::text::{Style, TextComponent, TextPart, TextValue};

fn raw(value: &str) -> TextPart {
    TextPart::Raw(value.to_string())
}

fn plain(value: &str) -> PostComponent {
    PostComponent::Text(TextComponent::new(value))
}

fn nested(style: Style, content: TextPart) -> TextPart {
    TextPart::Nested(Box::new(TextComponent { style, content }))
}

#[test]
fn copy_of_a_style() {
    assert_eq!(Style::Strong.copy(), Some(Style::Strong));
    assert_eq!(Style::Heading(4).copy(), Some(Style::Heading(4)));
    assert_eq!(Style::Plain.copy(), Some(Style::Plain));
    assert_eq!(Style::Link("x".to_string()).copy(), None);
    assert_eq!(Style::Link("x".to_string()).clone(), Style::Link("x".to_string()));
    assert_eq!(Style::default(), Style::Plain);
}

#[test]
fn wrapper_of_a_part() {
    let part = nested(Style::Emphasis, raw("a"));
    assert_eq!(part.wrapper_ref(), Some(&Style::Emphasis));
    assert_eq!(part.wrapper(), Style::Emphasis);
    assert_eq!(raw("a").wrapper_ref(), None);
    assert_eq!(raw("a").wrapper(), Style::Plain);
    assert_eq!(TextPart::Chained(vec![part]).wrapper(), Style::Plain);
}

#[test]
fn children_of_a_part() {
    let chain = TextPart::Chained(vec![raw("a"), TextPart::NewLine]);
    assert_eq!(chain.children(), vec![&raw("a"), &TextPart::NewLine]);
    assert_eq!(nested(Style::Code, raw("a")).children(), vec![&raw("a")]);
    assert!(raw("a").children().is_empty());
    assert!(TextPart::Empty.children().is_empty());
}

#[test]
fn children_can_be_changed() {
    let mut chain = TextPart::Chained(vec![raw("a"), TextPart::NewLine, raw("c")]);
    {
        let children = chain.children_mut();
        assert_eq!(children.len(), 3);
        for child in children {
            child.write_str("!");
        }
    }
    assert_eq!(
        chain,
        TextPart::Chained(vec![
            raw("a!"),
            TextPart::Chained(vec![TextPart::NewLine, raw("!")]),
            raw("c!")
        ])
    );
    let mut wrapped = nested(Style::Code, raw("a"));
    for child in wrapped.children_mut() {
        *child = TextPart::Empty;
    }
    assert_eq!(wrapped, nested(Style::Code, TextPart::Empty));
    let mut run = raw("a");
    assert!(run.children_mut().is_empty());
    assert_eq!(run, raw("a"));
    assert!(TextPart::Chained(vec![]).children_mut().is_empty());
}

#[test]
fn taking_the_inner_part() {
    let mut chain = TextPart::Chained(vec![raw("a")]);
    assert_eq!(chain.take_inner(), TextPart::Chained(vec![raw("a")]));
    assert_eq!(chain, TextPart::Empty);
    let mut wrapped = nested(Style::Code, raw("a"));
    assert_eq!(wrapped.take_inner(), raw("a"));
    assert_eq!(wrapped, nested(Style::Code, TextPart::Empty));
    let mut run = raw("a");
    assert_eq!(run.take_inner(), TextPart::Empty);
    assert_eq!(run, raw("a"));
}

#[test]
fn appending_a_part() {
    let mut part = TextPart::Empty;
    part.append(raw("a"));
    assert_eq!(part, raw("a"));
    part.append(raw("b"));
    assert_eq!(part, TextPart::Chained(vec![raw("a"), raw("b")]));
    part.append(TextPart::NewLine);
    assert_eq!(part, TextPart::Chained(vec![raw("a"), raw("b"), TextPart::NewLine]));
    let mut line = TextPart::NewLine;
    line.append(raw("a"));
    assert_eq!(line, TextPart::Chained(vec![TextPart::NewLine, raw("a")]));
    let mut wrapped = nested(Style::Strong, raw("a"));
    wrapped.append(raw("b"));
    assert_eq!(wrapped, nested(Style::Strong, TextPart::Chained(vec![raw("a"), raw("b")])));
}

#[test]
fn writing_characters() {
    let mut part = TextPart::Empty;
    part.write_str("a");
    assert_eq!(part, raw("a"));
    part.write_str("b");
    part.write_str("");
    part.write_str("c");
    assert_eq!(part, raw("abc"));
    let mut line = TextPart::NewLine;
    line.write_str("a");
    assert_eq!(line, TextPart::Chained(vec![TextPart::NewLine, raw("a")]));
    line.write_str("b");
    assert_eq!(line, TextPart::Chained(vec![TextPart::NewLine, raw("a"), raw("b")]));
    let mut wrapped = nested(Style::Strong, raw("a"));
    wrapped.write_str("b");
    assert_eq!(wrapped, nested(Style::Strong, raw("ab")));
}

#[test]
fn text_components() {
    assert_eq!(
        TextComponent::empty(),
        TextComponent { style: Style::Plain, content: TextPart::Empty }
    );
    assert_eq!(TextComponent::new("a"), TextComponent { style: Style::Plain, content: raw("a") });
    assert_eq!(
        TextComponent::new_styled(Style::Code),
        TextComponent { style: Style::Code, content: TextPart::Empty }
    );
    assert_eq!(
        TextComponent::new_link("u", "t"),
        TextComponent { style: Style::Link("u".to_string()), content: raw("t") }
    );
    assert_eq!(
        TextComponent::new_chained(vec![raw("a"), TextPart::Empty]),
        TextComponent {
            style: Style::Plain,
            content: TextPart::Chained(vec![raw("a"), TextPart::Empty])
        }
    );
    let mut text = TextComponent::new_styled(Style::Paragraph);
    text.push(TextValue::Raw("a".to_string()));
    text.push(TextValue::Raw("b".to_string()));
    text.push(TextValue::Segment(TextPart::NewLine));
    text.push(TextValue::nested(TextComponent::new("c")));
    assert_eq!(
        text,
        TextComponent {
            style: Style::Paragraph,
            content: TextPart::Chained(vec![
                raw("ab"),
                TextPart::NewLine,
                nested(Style::Plain, raw("c"))
            ]),
        }
    );
}

#[test]
fn parts_and_components_stand_for_each_other() {
    assert_eq!(TextPart::from(TextComponent::new("a")), raw("a"));
    assert_eq!(TextComponent::new("a").into_part(), raw("a"));
    let emphasis = TextComponent { style: Style::Emphasis, content: raw("a") };
    assert_eq!(TextPart::from(emphasis.clone()), nested(Style::Emphasis, raw("a")));
    assert_eq!(TextComponent::from(nested(Style::Emphasis, raw("a"))), emphasis);
    assert_eq!(TextComponent::from(raw("a")), TextComponent::new("a"));
    assert_eq!(raw("a").into_component(), TextComponent::new("a"));
    assert_eq!(TextPart::from("a".to_string()), raw("a"));
    assert_eq!(TextPart::raw("a"), raw("a"));
    assert_eq!(PostComponent::from(TextPart::NewLine), PostComponent::Text(TextComponent {
        style: Style::Plain,
        content: TextPart::NewLine
    }));
    assert_eq!(raw("a").clone(), raw("a"));
    let deep = TextPart::Chained(vec![nested(Style::Code, raw("x")), TextPart::Empty]);
    assert_eq!(deep.clone(), deep);
}

#[test]
fn kinds_of_components() {
    let kinds = vec![
        (PostComponent::Placeholder, PostComponentKind::Placeholder),
        (plain("a"), PostComponentKind::Text),
        (PostComponent::BlockQuote(vec![]), PostComponentKind::BlockQuote),
        (PostComponent::Image { source: String::new(), alt: None }, PostComponentKind::Image),
        (
            PostComponent::CodeBlock { language: None, content: String::new() },
            PostComponentKind::CodeBlock,
        ),
        (
            PostComponent::List(ListComponent { numbered: None, items: vec![] }),
            PostComponentKind::List,
        ),
        (PostComponent::HorizonalRule, PostComponentKind::HorizonalRule),
        (
            PostComponent::Table(TableComponent { headers: vec![], alignment: vec![], rows: vec![] }),
            PostComponentKind::Table,
        ),
        (
            PostComponent::Footnote { id: String::new(), text: TextComponent::empty() },
            PostComponentKind::Footnote,
        ),
        (PostComponent::Latex(LatexComponent::default()), PostComponentKind::Latex),
        (PostComponent::Chained(vec![]), PostComponentKind::Chained),
        (PostComponent::Raw(String::new()), PostComponentKind::Raw),
    ];
    for (component, kind) in kinds {
        assert_eq!(component.discriminant(), kind);
    }
    assert_eq!(PostComponent::default(), PostComponent::Placeholder);
    assert_eq!(PostComponent::blank(), PostComponent::Raw(String::new()));
    assert_eq!(LatexComponent::default().format, Format::Multiline);
}

#[test]
fn folding_a_component_into_another() {
    let push = |mut current: PostComponent, other: PostComponent| {
        current.push(other);
        current
    };
    assert_eq!(push(PostComponent::Placeholder, plain("a")), plain("a"));
    assert_eq!(
        push(PostComponent::BlockQuote(vec![plain("a")]), PostComponent::HorizonalRule),
        PostComponent::BlockQuote(vec![plain("a"), PostComponent::HorizonalRule])
    );
    assert_eq!(
        push(PostComponent::List(ListComponent { numbered: Some(2), items: vec![] }), plain("a")),
        PostComponent::List(ListComponent { numbered: Some(2), items: vec![plain("a")] })
    );
    assert_eq!(
        push(plain("a"), plain("b")),
        PostComponent::Text(TextComponent {
            style: Style::Plain,
            content: TextPart::Chained(vec![raw("a"), nested(Style::Plain, raw("b"))]),
        })
    );
    assert_eq!(push(plain("a"), PostComponent::Raw("<b>".to_string())), plain("a<b>"));
    assert_eq!(
        push(
            PostComponent::Footnote { id: "n".to_string(), text: TextComponent::empty() },
            plain("b")
        ),
        PostComponent::Footnote {
            id: "n".to_string(),
            text: TextComponent { style: Style::Plain, content: nested(Style::Plain, raw("b")) },
        }
    );
    assert_eq!(
        push(
            PostComponent::Footnote { id: "n".to_string(), text: TextComponent::new("a") },
            PostComponent::Raw("b".to_string())
        ),
        PostComponent::Footnote { id: "n".to_string(), text: TextComponent::new("ab") }
    );
    assert_eq!(
        push(plain("a"), PostComponent::HorizonalRule),
        PostComponent::Chained(vec![plain("a"), PostComponent::HorizonalRule])
    );
    assert_eq!(
        push(PostComponent::HorizonalRule, plain("a")),
        PostComponent::Chained(vec![PostComponent::HorizonalRule, plain("a")])
    );
    assert_eq!(
        push(PostComponent::Chained(vec![plain("a")]), plain("b")),
        PostComponent::Chained(vec![PostComponent::Chained(vec![plain("a")]), plain("b")])
    );
    assert_eq!(
        push(PostComponent::Raw("a".to_string()), PostComponent::Raw("b".to_string())),
        PostComponent::Chained(vec![
            PostComponent::Raw("a".to_string()),
            PostComponent::Raw("b".to_string())
        ])
    );
}

#[test]
fn writing_text_into_a_component() {
    let write = |mut current: PostComponent, text: &str| {
        let taken = current.push_text(text);
        (taken, current)
    };
    assert_eq!(write(PostComponent::Placeholder, "a"), (true, plain("a")));
    assert_eq!(write(plain("a"), "b"), (true, plain("ab")));
    assert_eq!(
        write(PostComponent::BlockQuote(vec![]), "a"),
        (true, PostComponent::BlockQuote(vec![plain("a")]))
    );
    assert_eq!(
        write(PostComponent::BlockQuote(vec![PostComponent::HorizonalRule, plain("a")]), "b"),
        (true, PostComponent::BlockQuote(vec![PostComponent::HorizonalRule, plain("ab")]))
    );
    assert_eq!(
        write(PostComponent::BlockQuote(vec![PostComponent::HorizonalRule]), "b"),
        (true, PostComponent::BlockQuote(vec![PostComponent::HorizonalRule, plain("b")]))
    );
    assert_eq!(
        write(PostComponent::CodeBlock { language: None, content: "a".to_string() }, "<b"),
        (true, PostComponent::CodeBlock { language: None, content: "a<b".to_string() })
    );
    let list = |items: Vec<PostComponent>| PostComponent::List(ListComponent { numbered: None, items });
    assert_eq!(write(list(vec![]), "a"), (true, list(vec![plain("a")])));
    assert_eq!(
        write(list(vec![plain("x"), PostComponent::Placeholder]), "a"),
        (true, list(vec![plain("x"), plain("a")]))
    );
    assert_eq!(
        write(list(vec![list(vec![plain("x")])]), "a"),
        (true, list(vec![list(vec![plain("xa")])]))
    );
    assert_eq!(
        write(list(vec![PostComponent::HorizonalRule]), "a"),
        (false, list(vec![PostComponent::HorizonalRule]))
    );
    assert_eq!(
        write(PostComponent::Footnote { id: "n".to_string(), text: TextComponent::empty() }, "a"),
        (true, PostComponent::Footnote { id: "n".to_string(), text: TextComponent::new("a") })
    );
    let formula = |source: &str| {
        PostComponent::Latex(LatexComponent {
            format: Format::Inline,
            source: source.to_string(),
            rendered: None,
        })
    };
    assert_eq!(write(formula("a"), "<b"), (true, formula("a<b")));
    assert_eq!(
        write(PostComponent::Chained(vec![plain("a")]), "b"),
        (true, PostComponent::Chained(vec![plain("ab")]))
    );
    assert_eq!(
        write(PostComponent::Chained(vec![PostComponent::HorizonalRule]), "b"),
        (true, PostComponent::Chained(vec![PostComponent::HorizonalRule, plain("b")]))
    );
    assert_eq!(write(PostComponent::Chained(vec![]), "b"), (true, PostComponent::Chained(vec![plain("b")])));
    for refusing in [
        PostComponent::Image { source: "s".to_string(), alt: None },
        PostComponent::Table(TableComponent { headers: vec![], alignment: vec![], rows: vec![] }),
        PostComponent::HorizonalRule,
        PostComponent::Raw("r".to_string()),
    ] {
        let before = format!("{:?}", refusing);
        let (taken, after) = write(refusing, "a");
        assert!(!taken);
        assert_eq!(format!("{:?}", after), before);
    }
}

#[test]
fn many_texts_become_one_run() {
    let texts = ["a", "", "b<", "c d", "é"];
    let mut component = PostComponent::Text(TextComponent::new_styled(Style::Paragraph));
    for text in texts {
        assert!(component.push_text(text));
    }
    assert_eq!(
        component,
        PostComponent::Text(TextComponent { style: Style::Paragraph, content: raw("ab<c dé") })
    );
    let mut continued = plain("x");
    for text in texts {
        assert!(continued.push_text(text));
    }
    assert_eq!(continued, plain("xab<c dé"));
}
