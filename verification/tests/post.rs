use std::collections::VecDeque;

use nbs::arguments::{Args, GitSource, RepoUrl, Verb};
use nbs::blog::{target_name, FileHistory, IndexData};
use nbs::bytes::{find, rfind, same_text, slice, split, trim};
use nbs::component::PostComponent;
use nbs::error::{BlogError, ComponentError, FormatError, Unsupported, UserError, Violation};
use nbs::event::{Element, ElementKind, Token};
use nbs::header::{part_post, to_lower, HeaderEntry, PostHeader};
use nbs::minmax::MinMax;
use nbs::post::{
    Author, AuthorEntry, Edit, MergeData, Post, PostInfo, RawPostContent, Timestamp,
};
use nbs::query::{Date, Field, PostQuery};
use nbs::template::{Redirect, RedirectTemplate};
use nbs::transformer::{
    process_md_event, StreamTransformer, TransformerError, TransformerState, WriteEvent, HTML,
};

#[test]
fn searching_bytes() {
    assert_eq!(find(b"a--b--c", b"--", 0, 7), Some(1));
    assert_eq!(find(b"a--b--c", b"--", 2, 7), Some(4));
    assert_eq!(find(b"a--b--c", b"--", 2, 5), None);
    assert_eq!(find(b"a--b--c", b"--", 5, 7), None);
    assert_eq!(find(b"a--b--c", b"--", 9, 7), None);
    assert_eq!(find(b"ab", b"abc", 0, 2), None);
    assert_eq!(find(b"", b"a", 0, 0), None);
    assert_eq!(rfind(b"a--b--c", b"--", 0), Some(4));
    assert_eq!(rfind(b"a--b--c", b"--", 4), Some(4));
    assert_eq!(rfind(b"a--b--c", b"--", 5), None);
    assert_eq!(rfind(b"---", b"--", 0), Some(1));
    assert_eq!(rfind(b"a", b"--", 0), None);
    assert_eq!(rfind(b"--", b"--", 0), Some(0));
}

#[test]
fn slicing_text() {
    assert_eq!(slice("héllo", 0, 3), Some("hé"));
    assert_eq!(slice("héllo", 3, 6), Some("llo"));
    assert_eq!(slice("héllo", 2, 3), None);
    assert_eq!(slice("héllo", 0, 2), None);
    assert_eq!(slice("héllo", 4, 3), None);
    assert_eq!(slice("héllo", 0, 7), None);
    assert_eq!(slice("héllo", 6, 6), Some(""));
    assert!(same_text("é", "é"));
    assert!(!same_text("e", "é"));
}

#[test]
fn splitting_and_trimming() {
    assert_eq!(split("a---b------c", "---"), vec!["a", "b", "", "c"]);
    assert_eq!(split("abc", "---"), vec!["abc"]);
    assert_eq!(split("", ","), vec![""]);
    assert_eq!(split("----", "---"), vec!["", "-"]);
    assert_eq!(split("é,ü", ","), vec!["é", "ü"]);
    assert_eq!(trim(" \t\na b\r\n "), "a b");
    assert_eq!(trim("   "), "");
    assert_eq!(trim(""), "");
    assert_eq!(trim("é "), "é");
}

#[test]
fn frontmatter_is_taken_off() {
    let mut raw = RawPostContent::from_string("---\ntitle: x\n---\nbody\n---\nmore".to_string());
    assert_eq!(raw.take_frontmatter(), Ok(Some("title: x\n".to_string())));
    assert_eq!(raw.as_str(), "body\n---\nmore");
    let mut spaced = RawPostContent::from_string(" \n\t---\na: b\n---\n".to_string());
    assert_eq!(spaced.take_frontmatter(), Ok(Some("a: b\n".to_string())));
    assert_eq!(spaced.into_string(), "");
}

#[test]
fn post_without_frontmatter_is_left_alone() {
    for text in ["", "---\n---\n", "no header here at all", "x---\na: b\n---\nrest", "        "] {
        let mut raw = RawPostContent::from_string(text.to_string());
        assert_eq!(raw.take_frontmatter(), Ok(None));
        assert_eq!(raw.inner, text);
    }
    assert_eq!(RawPostContent::new().inner, "");
}

#[test]
fn unclosed_frontmatter_is_an_error() {
    let mut raw = RawPostContent::from_string("---\ntitle: x\nbody".to_string());
    assert_eq!(raw.take_frontmatter(), Err(FormatError::UnclosedFrontmatter));
    assert_eq!(raw.inner, "---\ntitle: x\nbody");
    assert_eq!(FormatError::UnclosedFrontmatter.message(), "frontmatter is not closed");
    assert_eq!(FormatError::EmptyPost.message(), "post is empty");
    assert_eq!(FormatError::MissingHeader.message(), "YAML header is missing");
    assert_eq!(FormatError::Yaml.message(), "YAML header is malformed");
    assert_eq!(
        FormatError::DateTimeParse { invalid: "x".to_string() }.message(),
        "unable to parse x DateTime"
    );
}

fn info() -> PostInfo {
    PostInfo {
        title: Some("t".to_string()),
        description: Some("d".to_string()),
        tags: vec!["a".to_string()],
        slug: Some("s".to_string()),
        author: Some(AuthorEntry::Name("n".to_string())),
        edits: Some(vec![]),
    }
}

#[test]
fn merging_information() {
    let mut base = info();
    base.merge_replace(PostInfo::default());
    assert_eq!(base, info());
    let author = Author { name: "m".to_string(), email: None, web: Some("w".to_string()) };
    let edit = Edit { summary: "e".to_string(), time: Timestamp { seconds: 5, nanos: 6 } };
    base.merge_replace(PostInfo {
        title: Some("other".to_string()),
        description: Some("d2".to_string()),
        tags: vec!["b".to_string(), "c".to_string()],
        slug: Some("s2".to_string()),
        author: Some(AuthorEntry::AuthorList(vec![author])),
        edits: Some(vec![edit]),
    });
    assert_eq!(base.title, Some("t".to_string()));
    assert_eq!(base.description, Some("d2".to_string()));
    assert_eq!(base.tags, vec!["b".to_string(), "c".to_string()]);
    assert_eq!(base.slug, Some("s2".to_string()));
    assert!(matches!(base.author, Some(AuthorEntry::AuthorList(_))));
    assert_eq!(base.edits.as_ref().unwrap().len(), 1);
    let mut empty = PostInfo::default();
    empty.merge_replace(PostInfo { slug: Some("s".to_string()), ..PostInfo::default() });
    assert_eq!(empty, PostInfo { slug: Some("s".to_string()), ..PostInfo::default() });
    assert_eq!(
        PostInfo::new(),
        PostInfo { title: Some("Blog article".to_string()), ..PostInfo::default() }
    );
}

#[test]
fn post_is_rendered_into_its_context() {
    let post = Post::from_parts(info(), "# T\n\nhello ==you==\n".to_string());
    let components: Vec<PostComponent> = post.components().collect().unwrap();
    assert_eq!(components.len(), 2);
    let context = post.template_ctx().unwrap();
    assert_eq!(context.info, info());
    assert_eq!(context.content, "<h1>T</h1><p>hello <mark>you</mark></p>");
    let filled = Post::from_parts(info(), String::new())
        .fill(&vec![PostComponent::HorizonalRule])
        .unwrap();
    assert_eq!(filled.content, "<hr/>");
    let refused = Post::from_parts(info(), String::new()).fill(&vec![PostComponent::Placeholder]);
    assert_eq!(refused.err(), Some(ComponentError::Invariant(Violation::Placeholder)));
    let unsupported = Post::from_parts(info(), "<div>\n".to_string()).template_ctx();
    assert_eq!(unsupported.err(), Some(ComponentError::Unsupported(Unsupported::HtmlBlock)));
}

#[test]
fn repository_addresses() {
    let repo = RepoUrl::new("https://a.b/c.git").unwrap();
    assert_eq!(repo.as_str(), "https://a.b/c.git");
    assert_eq!(repo.to_string(), "https://a.b/c.git");
    assert!(RepoUrl::new("see http://x.y.z/a/-/_.git now").is_ok());
    for refused in ["", "https://a.b/c", "ftp://a.b/c.git", "https://github.com/user/repo.git"] {
        assert_eq!(
            RepoUrl::new(refused).err(),
            Some(BlogError::User(UserError::InvalidRepoUrl(refused.to_string())))
        );
    }
    assert!(RepoUrl::from_match("x".to_string(), Some(true)).is_ok());
    for matched in [Some(false), None] {
        assert_eq!(
            RepoUrl::from_match("x".to_string(), matched).err(),
            Some(BlogError::User(UserError::InvalidRepoUrl("x".to_string())))
        );
    }
    assert_eq!(
        UserError::InvalidRepoUrl("u".to_string()).message(),
        "provided repository url (u) is invalid"
    );
}

#[test]
fn arguments_have_defaults() {
    let source = GitSource {
        repo: RepoUrl::new("https://a.b/c.git").unwrap(),
        repo_branch: "master".to_string(),
    };
    let args = Args::with_defaults(Verb::Clone(source));
    assert_eq!(args.working_dir, "./posts");
    assert_eq!(args.target_dir, "./out");
    assert_eq!(args.ext, "html");
    assert!(!args.print_output);
    assert!(matches!(args.verb, Verb::Clone(_)));
    let verbs = [Verb::Pull, Verb::Index, Verb::Watch, Verb::Build, Verb::Posts, Verb::Publish];
    assert_eq!(verbs.len(), 6);
}

#[test]
fn smallest_and_largest() {
    let empty: MinMax<u32> = MinMax::new();
    assert_eq!(empty.min(), None);
    assert_eq!(empty.max(), None);
    let one = MinMax::One(5u32);
    assert_eq!((one.min(), one.max()), (Some(&5), Some(&5)));
    let two = one.update(3);
    assert_eq!((two.min(), two.max()), (Some(&3), Some(&5)));
    let same = MinMax::One(5u32).update(5);
    assert_eq!((same.min(), same.max()), (Some(&5), Some(&5)));
    let up = MinMax::One(5u32).update(9);
    assert_eq!((up.min(), up.max()), (Some(&5), Some(&9)));
    let wide = up.update(1).update(7).update(12).update(12);
    assert_eq!((wide.min(), wide.max()), (Some(&1), Some(&12)));
    assert_eq!(MinMax::One(1u8).to_min(), Some(1));
    assert_eq!(MinMax::Complete { min: 1u8, max: 2 }.to_min(), Some(1));
    assert_eq!(MinMax::Complete { min: 1u8, max: 2 }.to_max(), Some(2));
    assert_eq!(MinMax::<u8>::new().to_max(), None);
    let both = MinMax::new_complete(4, 2);
    assert_eq!((both.min(), both.max()), (Some(&2), Some(&4)));
    let ordered = MinMax::new_complete(2, 4);
    assert_eq!((ordered.to_min(), MinMax::new_complete(2, 4).to_max()), (Some(2), Some(4)));
    let _ = both;
}

#[test]
fn values_that_cannot_be_compared_are_dropped() {
    let one = MinMax::One(1.5f64).update(f64::NAN);
    assert_eq!((one.min(), one.max()), (Some(&1.5), Some(&1.5)));
    let two = MinMax::Complete { min: 1.0f64, max: 2.0 }.update(f64::NAN);
    assert_eq!((two.to_min(), MinMax::Complete { min: 1.0f64, max: 2.0 }.to_max()), (Some(1.0), Some(2.0)));
}

fn time(seconds: i64, nanos: u32) -> Timestamp {
    Timestamp { seconds, nanos }
}

#[test]
fn history_moves_the_times() {
    assert_eq!(time(1, 5).min(time(1, 4)), time(1, 4));
    assert_eq!(time(1, 5).min(time(2, 0)), time(1, 5));
    assert_eq!(time(-3, 0).min(time(2, 0)), time(-3, 0));
    let known = IndexData::from_times(Some(time(10, 0)), Some(time(20, 0)));
    assert_eq!(known.with_history(MinMax::Empty), known);
    assert_eq!(
        known.with_history(MinMax::One(time(5, 0))),
        IndexData { created: Some(time(5, 0)), modified: Some(time(20, 0)) }
    );
    assert_eq!(known.with_history(MinMax::One(time(15, 0))), known);
    assert_eq!(
        known.with_history(MinMax::Complete { min: time(5, 0), max: time(30, 0) }),
        IndexData { created: Some(time(5, 0)), modified: Some(time(5, 0)) }
    );
    assert_eq!(
        IndexData::default().with_history(MinMax::Complete { min: time(5, 0), max: time(3, 0) }),
        IndexData { created: Some(time(5, 0)), modified: Some(time(3, 0)) }
    );
    assert_eq!(
        IndexData::default().with_history(MinMax::One(time(7, 1))),
        IndexData { created: Some(time(7, 1)), modified: None }
    );
    assert!(FileHistory::new().edits.is_empty());
    assert_eq!(FileHistory::from_edits(vec![time(1, 1)]).edits, vec![time(1, 1)]);
}

#[test]
fn names_of_the_target_files() {
    assert_eq!(target_name(Some("my-slug".to_string()), "post.md", "html"), "my-slug.html");
    assert_eq!(target_name(None, "post.md", "html"), "post.html");
    assert_eq!(target_name(None, "a.b.md", "txt"), "a.txt");
    assert_eq!(target_name(None, "plain", "html"), "plain.html");
    assert_eq!(target_name(None, ".hidden", "html"), ".html");
    assert_eq!(target_name(None, "é.md", "ü"), "é.ü");
}

#[test]
fn fields_and_queries() {
    let names: Vec<&str> = [
        Field::title(),
        Field::description(),
        Field::slug(),
        Field::tags(),
        Field::published(),
        Field::last_update(),
        Field::content(),
    ]
    .iter()
    .map(|field| field.name)
    .collect();
    assert_eq!(
        names,
        vec!["title", "description", "slug", "tags", "published", "last_updated", "content"]
    );
    assert_eq!(Field::title().to_string(), "title");
    let empty = PostQuery { start_date: None, end_date: None, tags: None, content: None };
    assert!(empty.is_empty());
    assert_eq!(empty.iter_tags(), None);
    let day = Date { year: 2020, month: 1, day: 2 };
    assert!(!PostQuery { start_date: Some(day), ..empty.clone() }.is_empty());
    assert!(!PostQuery { end_date: Some(day), ..empty.clone() }.is_empty());
    assert!(!PostQuery { content: Some(String::new()), ..empty.clone() }.is_empty());
    let tagged = PostQuery { tags: Some("a,b,,c d".to_string()), ..empty };
    assert!(!tagged.is_empty());
    assert_eq!(tagged.iter_tags(), Some(vec!["a", "b", "", "c d"]));
}

#[test]
fn redirects_have_defaults() {
    let redirect = Redirect::default();
    assert_eq!((redirect.target.as_str(), redirect.delay.as_str(), redirect.head), ("#", "3", None));
    let template = RedirectTemplate::default();
    assert_eq!((template.target.as_str(), template.delay.as_str(), template.head), ("#", "3", None));
}

fn entry(key: &str, text: &str) -> HeaderEntry {
    HeaderEntry { key: Some(key.to_string()), text: Some(text.to_string()), items: None }
}

#[test]
fn header_from_entries() {
    let entries = vec![
        entry("Title", "T"),
        entry("desc", "D1"),
        entry("DESCRIPTION", "D2"),
        entry("slug", "s"),
        entry("unknown", "u"),
        HeaderEntry {
            key: Some("tags".to_string()),
            text: None,
            items: Some(vec![Some("a".to_string()), None, Some("b".to_string())]),
        },
        HeaderEntry { key: None, text: Some("x".to_string()), items: None },
        HeaderEntry { key: Some("title".to_string()), text: None, items: Some(vec![]) },
        entry("published", "2020-01-02T03:04:05Z"),
        entry("updated", "2021-01-01T00:00:00.5+01:00"),
    ];
    let header = PostHeader::from_entries(&entries).unwrap();
    assert_eq!(
        header,
        PostHeader {
            title: "T".to_string(),
            description: "D2".to_string(),
            slug: "s".to_string(),
            tags: vec!["a".to_string(), "b".to_string()],
            published: time(1577934245, 0),
            last_updated: time(1609455600, 500_000_000),
        }
    );
    assert_eq!(PostHeader::from_entries(&vec![]), Ok(PostHeader::default()));
    let late = vec![entry("last_updated", "1970-01-01T00:00:01Z"), entry("lastUpdated", "x")];
    assert_eq!(PostHeader::from_entries(&late).unwrap().last_updated, time(1, 0));
}

#[test]
fn date_that_cannot_be_read_is_an_error() {
    let entries = vec![entry("title", "T"), entry("published", "yesterday"), entry("updated", "x")];
    assert_eq!(
        PostHeader::from_entries(&entries),
        Err(FormatError::DateTimeParse { invalid: "yesterday".to_string() })
    );
}

#[test]
fn header_from_text() {
    let header = PostHeader::parse("\n  title: Hello\ntags: [a, 1, b]\nslug: s\n\n").unwrap();
    assert_eq!(header.title, "Hello");
    assert_eq!(header.tags, vec!["a".to_string(), "b".to_string()]);
    assert_eq!(header.slug, "s");
    assert_eq!(PostHeader::parse("- a\n- b").err(), Some(FormatError::Yaml));
    assert_eq!(PostHeader::parse("a: [").err(), Some(FormatError::Yaml));
    assert_eq!(to_lower("Last_UPDATED é Ä"), "last_updated é Ä");
}

#[test]
fn parting_a_post() {
    let (header, text) = part_post("just text");
    assert_eq!((header, text), (None, "just text"));
    let (header, text) = part_post("title: T\n---\n text \n");
    assert_eq!(header.unwrap().title, "T");
    assert_eq!(text, "text");
    let (header, text) = part_post("- no mapping\n---\ntext");
    assert_eq!((header, text), (None, "- no mapping\n---\ntext"));
    let content = "---\ntitle: T\n---\nbody";
    let (header, text) = part_post(content);
    assert_eq!(header.unwrap().title, "T");
    assert_eq!(text, &content["title: T".len()..]);
    let (header, text) = part_post("---\n- a\n---\n- b");
    assert_eq!((header, text), (None, "---\n- a\n---\n- b"));
}

#[test]
fn writing_tokens_as_safe_text() {
    let mut out = String::from(">");
    assert_eq!(out.write_event(&Token::Text("a&b<c>d\"e'f/g".to_string())), Ok(()));
    assert_eq!(out, ">a&amp;b&lt;c&gt;d&quot;e&#x27;f&#x2F;g");
    assert_eq!(out.write_event(&Token::Code("é<".to_string())), Ok(()));
    assert_eq!(out.write_event(&Token::Html("<b>".to_string())), Ok(()));
    assert_eq!(out, ">a&amp;b&lt;c&gt;d&quot;e&#x27;f&#x2F;gé&lt;&lt;b&gt;");
    assert_eq!(out.write_event(&Token::SoftBreak), Err(()));
    assert_eq!(out.write_event(&Token::InlineHtml("<i>".to_string())), Err(()));
    assert_eq!(out, ">a&amp;b&lt;c&gt;d&quot;e&#x27;f&#x2F;gé&lt;&lt;b&gt;");
}

#[test]
fn code_blocks_become_markup() {
    let tokens = vec![
        Token::Start(Element::Paragraph),
        Token::Text("p".to_string()),
        Token::End(ElementKind::Paragraph),
        Token::Start(Element::CodeBlock(Some("rust".to_string()))),
        Token::Text("a<b\n".to_string()),
        Token::Text("c".to_string()),
        Token::End(ElementKind::CodeBlock),
        Token::Start(Element::CodeBlock(None)),
        Token::Text("q".to_string()),
        Token::End(ElementKind::CodeBlock),
        Token::Rule,
    ];
    let transformer = StreamTransformer::new();
    assert!(transformer.accepts(&tokens));
    let passed = transformer.process_stream(VecDeque::from(tokens));
    assert_eq!(
        passed,
        vec![
            Token::Start(Element::Paragraph),
            Token::Text("p".to_string()),
            Token::End(ElementKind::Paragraph),
            Token::Html("<pre><code class=\"language-rust\">\na&lt;b\nc\n</code></pre>".to_string()),
            Token::Html("<p class=\"quote\">q</p>".to_string()),
            Token::Rule,
        ]
    );
    let refused = vec![Token::Start(Element::CodeBlock(None)), Token::SoftBreak];
    assert!(!StreamTransformer::new().accepts(&refused));
    assert!(StreamTransformer::new().accepts(&vec![Token::SoftBreak, Token::End(ElementKind::Item)]));
}

#[test]
fn transformer_step_by_step() {
    let mut state = TransformerState::default();
    assert_eq!(process_md_event(&mut state, Token::Rule), Ok(Some(Token::Rule)));
    assert_eq!(process_md_event(&mut state, Token::Start(Element::CodeBlock(None))), Ok(None));
    assert!(matches!(state, TransformerState::InQuote { .. }));
    assert_eq!(process_md_event(&mut state, Token::Code("x".to_string())), Ok(None));
    assert_eq!(
        process_md_event(&mut state, Token::End(ElementKind::CodeBlock)),
        Ok(Some(Token::Html("<p class=\"quote\">x</p>".to_string())))
    );
    assert!(matches!(state, TransformerState::Passthrough));
    let mut stopped = TransformerState::Error(TransformerError::Stopped);
    assert_eq!(process_md_event(&mut stopped, Token::Rule), Err(TransformerError::Stopped));
    assert!(matches!(stopped, TransformerState::Error(_)));
    assert_eq!(HTML("a".to_string()), HTML("a".to_string()));
}
