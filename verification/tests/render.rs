use nbs::component::{
    Alignment, Format, LatexComponent, ListComponent, PostComponent, TableComponent,
};
use nbs::error::{ComponentError, Violation};
use nbs::markup::{
    emit_rules, find_fault, has_alignment, render_document, Component,
};
use nbs::parser::{parse, ParserOptions};
use nbs::render::{escape_into, write_decimal};
use nbs::structured::{Container, Structured};
use nbs::text::{Style, TextComponent, TextPart};
use nbs::util::{program_path, random_id, random_string};

fn plain(value: &str) -> PostComponent {
    PostComponent::Text(TextComponent::new(value))
}

fn rendered(component: &PostComponent) -> String {
    let mut out = String::new();
    component.render_with(&mut out, &vec![]).unwrap();
    out
}

fn markup_of(source: &str) -> String {
    render_document(&parse(source, ParserOptions::default()).unwrap()).unwrap()
}

#[test]
fn escaping_names_four_characters() {
    let mut out = String::from(">");
    escape_into(&mut out, "a&b<c>d\"e'f/g é");
    assert_eq!(out, ">a&amp;b&lt;c&gt;d&quot;e'f/g é");
    let mut empty = String::new();
    escape_into(&mut empty, "");
    assert_eq!(empty, "");
}

#[test]
fn decimal_notation() {
    for (n, text) in [(0usize, "0"), (7, "7"), (10, "10"), (909, "909"), (12345678, "12345678")] {
        let mut out = String::from("n=");
        write_decimal(&mut out, n);
        assert_eq!(out, format!("n={}", text));
    }
    let mut out = String::new();
    write_decimal(&mut out, usize::MAX);
    assert_eq!(out, format!("{}", usize::MAX));
}

#[test]
fn tags_of_the_styles() {
    let tags = [
        (Style::Plain, "span"),
        (Style::Span, "span"),
        (Style::Paragraph, "p"),
        (Style::Heading(1), "h1"),
        (Style::Heading(2), "h2"),
        (Style::Heading(3), "h3"),
        (Style::Heading(4), "h4"),
        (Style::Heading(5), "h5"),
        (Style::Heading(6), "h6"),
        (Style::Emphasis, "em"),
        (Style::Strong, "strong"),
        (Style::Link("x".to_string()), "a"),
        (Style::Code, "code"),
        (Style::Strikethrough, "del"),
        (Style::Highlight, "mark"),
        (Style::Superscript, "sup"),
        (Style::Subscript, "sub"),
    ];
    for (style, tag) in tags {
        assert_eq!(style.tag(), tag);
    }
}

#[test]
fn text_in_its_style() {
    let styled = |style: Style| {
        let mut out = String::new();
        TextComponent { style, content: TextPart::Raw("a<b".to_string()) }
            .render(&mut out)
            .unwrap();
        out
    };
    assert_eq!(styled(Style::Plain), "a&lt;b");
    assert_eq!(styled(Style::Span), "<span>a&lt;b</span>");
    assert_eq!(styled(Style::Heading(2)), "<h2>a&lt;b</h2>");
    assert_eq!(styled(Style::Emphasis), "<em>a&lt;b</em>");
    assert_eq!(styled(Style::Link("u?a=1&b=2".to_string())), "<a href=\"u?a=1&b=2\">a&lt;b</a>");
    let mut out = String::new();
    Style::Strong.render_content(&TextPart::NewLine, &mut out);
    assert_eq!(out, "<strong><br/></strong>");
}

#[test]
fn parts_of_text() {
    let part = TextPart::Chained(vec![
        TextPart::Empty,
        TextPart::Raw("a".to_string()),
        TextPart::NewLine,
        TextPart::Nested(Box::new(TextComponent {
            style: Style::Code,
            content: TextPart::Raw("<".to_string()),
        })),
    ]);
    let mut out = String::from("x");
    part.render(&mut out).unwrap();
    assert_eq!(out, "xa<br/><code>&lt;</code>");
}

#[test]
fn heading_level_out_of_range_is_refused() {
    for level in [0u8, 7, 255] {
        let text = TextComponent::new_styled(Style::Heading(level));
        let mut out = String::from("kept");
        assert_eq!(
            text.render(&mut out),
            Err(ComponentError::Invariant(Violation::HeadingLevel))
        );
        assert_eq!(out, "kept");
        let part = TextPart::Chained(vec![TextPart::Nested(Box::new(text))]);
        assert_eq!(
            part.render(&mut out),
            Err(ComponentError::Invariant(Violation::HeadingLevel))
        );
        let quote = PostComponent::BlockQuote(vec![
            plain("a"),
            PostComponent::Text(TextComponent::new_styled(Style::Heading(level))),
        ]);
        assert_eq!(find_fault(&quote), Some(Violation::HeadingLevel));
    }
}

#[test]
fn placeholder_is_never_rendered() {
    let mut out = String::from("kept");
    assert_eq!(
        PostComponent::Placeholder.render(&mut out),
        Err(ComponentError::Invariant(Violation::Placeholder))
    );
    let nested = PostComponent::Chained(vec![
        plain("a"),
        PostComponent::List(ListComponent {
            numbered: None,
            items: vec![PostComponent::Placeholder],
        }),
        PostComponent::Text(TextComponent::new_styled(Style::Heading(9))),
    ]);
    assert_eq!(nested.render(&mut out), Err(ComponentError::Invariant(Violation::Placeholder)));
    assert_eq!(
        nested.render_with(&mut out, &vec![]),
        Err(ComponentError::Invariant(Violation::Placeholder))
    );
    let table = TableComponent {
        headers: vec![plain("a")],
        alignment: vec![],
        rows: vec![vec![plain("b")], vec![PostComponent::Placeholder]],
    };
    assert_eq!(table.render(&mut out), Err(ComponentError::Invariant(Violation::Placeholder)));
    assert_eq!(
        render_document(&vec![plain("a"), PostComponent::Placeholder]),
        Err(ComponentError::Invariant(Violation::Placeholder))
    );
    assert_eq!(out, "kept");
}

#[test]
fn components_one_by_one() {
    assert_eq!(rendered(&plain("a & b")), "a &amp; b");
    assert_eq!(
        rendered(&PostComponent::BlockQuote(vec![plain("a"), plain("b")])),
        "<blockquote>ab</blockquote>"
    );
    assert_eq!(
        rendered(&PostComponent::Image { source: "a.png".to_string(), alt: None }),
        "<img src=\"a.png\"/>"
    );
    assert_eq!(
        rendered(&PostComponent::Image {
            source: "a.png".to_string(),
            alt: Some("an a".to_string())
        }),
        "<img src=\"a.png\" alt=\"an a\"/>"
    );
    assert_eq!(
        rendered(&PostComponent::CodeBlock { language: None, content: "a<b".to_string() }),
        "<pre><code class=\"block\">a<b</code></pre>"
    );
    assert_eq!(
        rendered(&PostComponent::CodeBlock {
            language: Some("rust".to_string()),
            content: "x".to_string()
        }),
        "<pre><code class=\"block language-rust\">x</code></pre>"
    );
    assert_eq!(rendered(&PostComponent::HorizonalRule), "<hr/>");
    assert_eq!(
        rendered(&PostComponent::Footnote { id: "n".to_string(), text: TextComponent::new("t") }),
        "<aside id=\"footnote-n\"><span class=\"fn-id\">n:</span> t</aside>"
    );
    assert_eq!(
        rendered(&PostComponent::Latex(LatexComponent {
            format: Format::Inline,
            source: "a<b".to_string(),
            rendered: None
        })),
        "<code data-lang=\"latex\">a<b</code>"
    );
    assert_eq!(rendered(&PostComponent::Chained(vec![plain("a"), plain("b")])), "ab");
    assert_eq!(rendered(&PostComponent::Raw("<b>&</b>".to_string())), "<b>&</b>");
}

#[test]
fn lists_say_where_they_start() {
    let list = |numbered: Option<usize>| {
        rendered(&PostComponent::List(ListComponent {
            numbered,
            items: vec![plain("a"), PostComponent::blank()],
        }))
    };
    assert_eq!(list(None), "<ul><li>a</li><li></li></ul>");
    assert_eq!(list(Some(0)), "<ol><li>a</li><li></li></ol>");
    assert_eq!(list(Some(1)), "<ol start=\"1\"><li>a</li><li></li></ol>");
    assert_eq!(list(Some(42)), "<ol start=\"42\"><li>a</li><li></li></ol>");
    let mut out = String::new();
    ListComponent { numbered: Some(3), items: vec![] }.render(&mut out).unwrap();
    assert_eq!(out, "<ol start=\"3\"></ol>");
}

fn sample_table(alignment: Vec<Alignment>) -> TableComponent {
    TableComponent {
        headers: vec![plain("A"), plain("B")],
        alignment,
        rows: vec![vec![plain("1"), plain("2")]],
    }
}

#[test]
fn table_with_an_aligned_column() {
    let table = PostComponent::Table(sample_table(vec![Alignment::Left, Alignment::Unaligned]));
    let mut out = String::new();
    table.render_with(&mut out, &vec!["Ab3dEf9h".to_string()]).unwrap();
    assert_eq!(
        out,
        "<table id=\"Ab3dEf9h\"><thead><td>A</td><td>B</td></thead>\
         <tbody><tr><td>1</td><td>2</td></tr></tbody></table>\
         <style>table#Ab3dEf9h td:nth-child(1){text-align:left;}</style>"
    );
    assert_eq!(out.matches("nth-child").count(), 1);
}

#[test]
fn table_with_a_random_identifier() {
    let table = sample_table(vec![Alignment::Unaligned, Alignment::Center, Alignment::Right]);
    let mut out = String::new();
    table.render(&mut out).unwrap();
    let id = &out["<table id=\"".len().."<table id=\"".len() + 8];
    assert!(id.chars().all(|c| c.is_ascii_alphanumeric()));
    assert_eq!(
        out,
        format!(
            "<table id=\"{id}\"><thead><td>A</td><td>B</td></thead>\
             <tbody><tr><td>1</td><td>2</td></tr></tbody></table>\
             <style>table#{id} td:nth-child(2){{text-align:center;}}\
             table#{id} td:nth-child(3){{text-align:right;}}</style>"
        )
    );
}

#[test]
fn table_without_alignment_has_no_identifier() {
    for alignment in [vec![], vec![Alignment::Unaligned, Alignment::Unaligned]] {
        assert!(!has_alignment(&alignment));
        let mut out = String::new();
        sample_table(alignment).render(&mut out).unwrap();
        assert_eq!(
            out,
            "<table><thead><td>A</td><td>B</td></thead>\
             <tbody><tr><td>1</td><td>2</td></tr></tbody></table>"
        );
    }
    assert!(has_alignment(&vec![Alignment::Unaligned, Alignment::Right]));
}

#[test]
fn style_rules_of_a_table() {
    let mut out = String::new();
    emit_rules(
        &vec![Alignment::Right, Alignment::Unaligned, Alignment::Center, Alignment::Left],
        "t",
        &mut out,
    );
    assert_eq!(
        out,
        "table#t td:nth-child(1){text-align:right;}table#t td:nth-child(3){text-align:center;}\
         table#t td:nth-child(4){text-align:left;}"
    );
}

#[test]
fn tables_take_identifiers_in_document_order() {
    let inner = PostComponent::Table(TableComponent {
        headers: vec![],
        alignment: vec![Alignment::Right],
        rows: vec![],
    });
    let outer = PostComponent::Table(TableComponent {
        headers: vec![inner],
        alignment: vec![Alignment::Left],
        rows: vec![vec![PostComponent::Table(sample_table(vec![]))]],
    });
    let both = PostComponent::Chained(vec![
        outer,
        PostComponent::Table(TableComponent {
            headers: vec![],
            alignment: vec![Alignment::Center],
            rows: vec![],
        }),
    ]);
    let ids = vec!["outer000".to_string(), "inner000".to_string(), "last0000".to_string()];
    let mut out = String::new();
    both.render_with(&mut out, &ids).unwrap();
    let first = out.find("outer000").unwrap();
    let second = out.find("inner000").unwrap();
    let third = out.find("last0000").unwrap();
    assert!(first < second && second < third);
    assert_eq!(out.matches("<style>").count(), 3);
    let mut short = String::from("kept");
    assert_eq!(
        both.render_with(&mut short, &ids[..2].to_vec()),
        Err(ComponentError::Invariant(Violation::Identifier))
    );
    assert_eq!(short, "kept");
}

#[test]
fn random_identifiers() {
    let id = random_id();
    assert_eq!(id.len(), 8);
    assert!(id.chars().all(|c| c.is_ascii_alphanumeric()));
    assert_eq!(random_string(0), "");
    let long = random_string(200);
    assert_eq!(long.chars().count(), 200);
    assert!(long.chars().all(|c| c.is_ascii_alphanumeric()));
    assert!(long.chars().any(|c| c != long.chars().next().unwrap()));
}

#[test]
fn documents_from_source() {
    assert_eq!(markup_of("hello *world*"), "<p>hello <em>world</em></p>");
    assert_eq!(markup_of("x ==a== y"), "<p>x <mark>a</mark> y</p>");
    assert_eq!(markup_of("a < b & c"), "<p>a &lt; b &amp; c</p>");
    assert_eq!(markup_of("- \n"), "<ul><li></li></ul>");
    assert_eq!(markup_of("`x`y"), "<p><code>x</code>y</p>");
    assert_eq!(markup_of("# T\n\n2. a\n3. b\n"), "<h1>T</h1><ol start=\"2\"><li>a</li><li>b</li></ol>");
    assert_eq!(markup_of("a $x+y$ b"), "<p>a </p><code data-lang=\"latex\">x+y</code> b");
    assert_eq!(markup_of("a $x<y$ b"), "<p>a $x&lt;y$ b</p>");
    assert_eq!(
        markup_of("$$\nx < y\n$$\n"),
        "<p></p><code data-lang=\"latex\">\nx < y\n</code>"
    );
    assert_eq!(markup_of("[t](u)"), "<p><a href=\"u\">t</a></p>");
    assert_eq!(markup_of("[t](u \"v\")"), "<p><a href=\"u\">vt</a></p>");
    assert_eq!(markup_of("> q\n"), "<blockquote><p>q</p></blockquote>");
    assert_eq!(
        markup_of("```rust\na<b\n```\n"),
        "<pre><code class=\"block language-rust\">a<b\n</code></pre>"
    );
    assert_eq!(markup_of("a\\\nb"), "<p>a<br/>b</p>");
    assert_eq!(markup_of("![alt](i.png \"t\")"), "<p></p><img src=\"i.png\" alt=\"t\"/>alt");
    assert_eq!(markup_of(""), "");
}

#[test]
fn structures_keep_their_values_in_order() {
    let mut structure: Structured<PostComponent> = Structured::default();
    let mut out = String::from(">");
    structure.render(&mut out).unwrap();
    assert_eq!(out, ">");
    structure.push(plain("a"));
    assert!(matches!(structure, Structured::Value(_)));
    structure.push(plain("b"));
    structure.push(PostComponent::HorizonalRule);
    match &structure {
        Structured::Sequence(items) => assert_eq!(items.len(), 3),
        other => panic!("not a sequence: {:?}", other),
    }
    structure.render(&mut out).unwrap();
    assert_eq!(out, ">ab<hr/>");
    let nested = Structured::Sequence(vec![
        Structured::Value(plain("x")),
        Structured::Sequence(vec![Structured::Empty, Structured::Value(plain("y"))]),
        structure,
    ]);
    let mut all = String::new();
    nested.render(&mut all).unwrap();
    assert_eq!(all, "xyab<hr/>");
    let faulty = Structured::Sequence(vec![
        Structured::Value(plain("x")),
        Structured::Value(PostComponent::Placeholder),
    ]);
    let mut kept = String::from("kept");
    assert_eq!(faulty.render(&mut kept), Err(ComponentError::Invariant(Violation::Placeholder)));
    assert_eq!(kept, "kept");
}

#[test]
fn first_place_where_a_program_was_found() {
    let candidates = vec!["/bin/ls".to_string(), "/usr/bin/ls".to_string(), "/opt/ls".to_string()];
    assert_eq!(
        program_path(&candidates, &vec![false, true, true]),
        Some("/usr/bin/ls".to_string())
    );
    assert_eq!(program_path(&candidates, &vec![false, false, false]), None);
    assert_eq!(program_path(&vec![], &vec![]), None);
}
