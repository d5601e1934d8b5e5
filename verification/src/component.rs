//! The document tree: what a post is made of, and the rules by which
//! finished pieces are folded into the piece that is still open.

use vstd::prelude::*;
use crate::text::{
    Style, StyleView, TextComponent, TextComponentView, TextPart, TextPartView, TextValue,
};

verus! {

/// Horizontal alignment of a table column.
#[derive(Debug, Clone, Copy, PartialEq, Eq, Structural)]
pub enum Alignment {
    /// The column keeps the default alignment.
    Unaligned,
    Left,
    Center,
    Right,
}

/// How a formula is laid out.
#[derive(Debug, Clone, Copy, PartialEq, Eq, Structural, Default)]
pub enum Format {
    /// Within a line of text.
    Inline,
    /// As a block of its own.
    #[default]
    Multiline,
}

/// What is known of a formula once it has been typeset.
#[derive(Debug, Clone, Copy, PartialEq, Eq, Structural)]
pub struct LatexRenderInfo {}

/// A formula in LaTeX notation.
#[derive(Debug, PartialEq, Eq, Default)]
pub struct LatexComponent {
    pub format: Format,
    pub source: String,
    pub rendered: Option<LatexRenderInfo>,
}

/// A table: a header row, one alignment per column, and body rows.
#[derive(Debug, PartialEq, Eq)]
pub struct TableComponent {
    pub headers: Vec<PostComponent>,
    pub alignment: Vec<Alignment>,
    pub rows: Vec<Vec<PostComponent>>,
}

/// A list. A numbered list knows the number of its first item.
#[derive(Debug, PartialEq, Eq)]
pub struct ListComponent {
    pub numbered: Option<usize>,
    pub items: Vec<PostComponent>,
}

/// A node of the document tree.
#[derive(Debug, PartialEq, Eq, Default)]
pub enum PostComponent {
    /// Stands for content that is not known yet. It is replaced by the first
    /// thing pushed into it and never rendered.
    #[default]
    Placeholder,
    Text(TextComponent),
    BlockQuote(Vec<PostComponent>),
    Image { source: String, alt: Option<String> },
    CodeBlock { language: Option<String>, content: String },
    List(ListComponent),
    HorizonalRule,
    Table(TableComponent),
    Footnote { id: String, text: TextComponent },
    Latex(LatexComponent),
    /// Components of different kinds side by side, in order.
    Chained(Vec<PostComponent>),
    /// Markup that is emitted as it stands.
    Raw(String),
}

/// The kind of a [`PostComponent`], without its content.
#[derive(Debug, Clone, Copy, PartialEq, Eq, Structural)]
pub enum PostComponentKind {
    Placeholder,
    Text,
    BlockQuote,
    Image,
    CodeBlock,
    List,
    HorizonalRule,
    Table,
    Footnote,
    Latex,
    Chained,
    Raw,
}

/// The mathematical value of a [`LatexComponent`].
pub struct LatexView {
    pub format: Format,
    pub source: Seq<char>,
}

/// The mathematical value of a [`TableComponent`].
pub struct TableView {
    pub headers: Seq<ComponentView>,
    pub alignment: Seq<Alignment>,
    pub rows: Seq<Seq<ComponentView>>,
}

/// The mathematical value of a [`ListComponent`].
pub struct ListView {
    pub numbered: Option<usize>,
    pub items: Seq<ComponentView>,
}

/// The mathematical value of a [`PostComponent`].
pub enum ComponentView {
    Placeholder,
    Text(TextComponentView),
    BlockQuote(Seq<ComponentView>),
    Image { source: Seq<char>, alt: Option<Seq<char>> },
    CodeBlock { language: Option<Seq<char>>, content: Seq<char> },
    List(ListView),
    HorizonalRule,
    Table(TableView),
    Footnote { id: Seq<char>, text: TextComponentView },
    Latex(LatexView),
    Chained(Seq<ComponentView>),
    Raw(Seq<char>),
}

/// The characters of an optional string.
pub open spec fn optional_text(text: Option<String>) -> Option<Seq<char>> {
    match text {
        Some(text) => Some(text@),
        None => None,
    }
}

/// The value of a component, node by node.
pub open spec fn post_view(component: PostComponent) -> ComponentView
    decreases component,
{
    match component {
        PostComponent::Placeholder => ComponentView::Placeholder,
        PostComponent::Text(text) => ComponentView::Text(text@),
        PostComponent::BlockQuote(items) => ComponentView::BlockQuote(posts_view(items@)),
        PostComponent::Image { source, alt } => ComponentView::Image {
            source: source@,
            alt: optional_text(alt),
        },
        PostComponent::CodeBlock { language, content } => ComponentView::CodeBlock {
            language: optional_text(language),
            content: content@,
        },
        PostComponent::List(list) => ComponentView::List(
            ListView { numbered: list.numbered, items: posts_view(list.items@) },
        ),
        PostComponent::HorizonalRule => ComponentView::HorizonalRule,
        PostComponent::Table(table) => ComponentView::Table(
            TableView {
                headers: posts_view(table.headers@),
                alignment: table.alignment@,
                rows: rows_view(table.rows@),
            },
        ),
        PostComponent::Footnote { id, text } => ComponentView::Footnote { id: id@, text: text@ },
        PostComponent::Latex(latex) => ComponentView::Latex(latex@),
        PostComponent::Chained(items) => ComponentView::Chained(posts_view(items@)),
        PostComponent::Raw(markup) => ComponentView::Raw(markup@),
    }
}

/// The values of a sequence of components.
pub open spec fn posts_view(components: Seq<PostComponent>) -> Seq<ComponentView>
    decreases components,
{
    Seq::new(
        components.len(),
        |i: int|
            if 0 <= i < components.len() {
                post_view(components[i])
            } else {
                ComponentView::Placeholder
            },
    )
}

/// The values of the rows of a table.
pub open spec fn rows_view(rows: Seq<Vec<PostComponent>>) -> Seq<Seq<ComponentView>>
    decreases rows,
{
    Seq::new(
        rows.len(),
        |r: int|
            if 0 <= r < rows.len() {
                posts_view(rows[r]@)
            } else {
                Seq::empty()
            },
    )
}

impl View for LatexComponent {
    type V = LatexView;

    open spec fn view(&self) -> LatexView {
        LatexView { format: self.format, source: self.source@ }
    }
}

impl View for TableComponent {
    type V = TableView;

    open spec fn view(&self) -> TableView {
        TableView {
            headers: posts_view(self.headers@),
            alignment: self.alignment@,
            rows: rows_view(self.rows@),
        }
    }
}

impl View for ListComponent {
    type V = ListView;

    open spec fn view(&self) -> ListView {
        ListView { numbered: self.numbered, items: posts_view(self.items@) }
    }
}

impl View for PostComponent {
    type V = ComponentView;

    open spec fn view(&self) -> ComponentView {
        post_view(*self)
    }
}

/// Pushing onto a vector pushes onto its value.
pub proof fn lemma_posts_view_push(items: Seq<PostComponent>, last: PostComponent)
    ensures
        posts_view(items.push(last)) == posts_view(items).push(last@),
{
    assert(posts_view(items.push(last)) =~= posts_view(items).push(last@));
}

/// Dropping the last element of a vector drops the last element of its value.
pub proof fn lemma_posts_view_drop_last(items: Seq<PostComponent>)
    requires
        items.len() > 0,
    ensures
        posts_view(items.drop_last()) == posts_view(items).drop_last(),
        posts_view(items).last() == items.last()@,
{
    assert(posts_view(items.drop_last()) =~= posts_view(items).drop_last());
}

/// Replacing an element of a vector replaces an element of its value.
pub proof fn lemma_posts_view_replace(items: Seq<PostComponent>, at: int, new: PostComponent)
    requires
        0 <= at < items.len(),
    ensures
        posts_view(items.remove(at).insert(at, new)) == posts_view(items).update(at, new@),
{
    assert(posts_view(items.remove(at).insert(at, new)) =~= posts_view(items).update(at, new@));
}

/// The value of a component that may be there.
pub open spec fn optional_post(component: Option<PostComponent>) -> Option<ComponentView> {
    match component {
        Some(component) => Some(component@),
        None => None,
    }
}

impl ComponentView {
    /// The kind of this component.
    pub open spec fn kind(self) -> PostComponentKind {
        match self {
            ComponentView::Placeholder => PostComponentKind::Placeholder,
            ComponentView::Text(_) => PostComponentKind::Text,
            ComponentView::BlockQuote(_) => PostComponentKind::BlockQuote,
            ComponentView::Image { .. } => PostComponentKind::Image,
            ComponentView::CodeBlock { .. } => PostComponentKind::CodeBlock,
            ComponentView::List(_) => PostComponentKind::List,
            ComponentView::HorizonalRule => PostComponentKind::HorizonalRule,
            ComponentView::Table(_) => PostComponentKind::Table,
            ComponentView::Footnote { .. } => PostComponentKind::Footnote,
            ComponentView::Latex(_) => PostComponentKind::Latex,
            ComponentView::Chained(_) => PostComponentKind::Chained,
            ComponentView::Raw(_) => PostComponentKind::Raw,
        }
    }

    /// Unstyled text holding the characters `text`, as a component.
    pub open spec fn plain_text(text: Seq<char>) -> ComponentView {
        ComponentView::Text(TextComponentView::plain(text))
    }

    /// The component after the finished component `other` was folded into
    /// it. A placeholder gives way to `other`; a quote or a list takes it as
    /// its last item; text and footnotes absorb text and markup; in every
    /// other case the two stand side by side in a chain, so that nothing is
    /// lost.
    pub open spec fn push(self, other: ComponentView) -> ComponentView {
        match (self, other) {
            (ComponentView::Placeholder, _) => other,
            (ComponentView::BlockQuote(items), _) => ComponentView::BlockQuote(items.push(other)),
            (ComponentView::List(list), _) => ComponentView::List(
                ListView { numbered: list.numbered, items: list.items.push(other) },
            ),
            (ComponentView::Text(text), ComponentView::Text(child)) => ComponentView::Text(
                text.append(TextPartView::Nested(Box::new(child))),
            ),
            (ComponentView::Text(text), ComponentView::Raw(markup)) => ComponentView::Text(
                text.write_str(markup),
            ),
            (ComponentView::Footnote { id, text }, ComponentView::Text(child)) => {
                ComponentView::Footnote {
                    id,
                    text: text.append(TextPartView::Nested(Box::new(child))),
                }
            },
            (ComponentView::Footnote { id, text }, ComponentView::Raw(markup)) => {
                ComponentView::Footnote { id, text: text.write_str(markup) }
            },
            _ => ComponentView::Chained(seq![self, other]),
        }
    }

    /// The component after the characters `text` were written into it, or
    /// `None` where the component takes no text: an image, a table, a rule
    /// and markup do not, and a list does not when its last item does not.
    pub open spec fn push_text(self, text: Seq<char>) -> Option<ComponentView>
        decreases self,
    {
        match self {
            ComponentView::Placeholder => Some(ComponentView::plain_text(text)),
            ComponentView::Text(component) => Some(ComponentView::Text(component.write_str(text))),
            ComponentView::BlockQuote(items) => Some(
                ComponentView::BlockQuote(Self::write_to_last_text(items, text)),
            ),
            ComponentView::CodeBlock { language, content } => Some(
                ComponentView::CodeBlock { language, content: content + text },
            ),
            ComponentView::List(list) => if list.items.len() == 0 {
                Some(
                    ComponentView::List(
                        ListView {
                            numbered: list.numbered,
                            items: seq![ComponentView::plain_text(text)],
                        },
                    ),
                )
            } else {
                match list.items.last().push_text(text) {
                    Some(last) => Some(
                        ComponentView::List(
                            ListView {
                                numbered: list.numbered,
                                items: list.items.drop_last().push(last),
                            },
                        ),
                    ),
                    None => None,
                }
            },
            ComponentView::Footnote { id, text: note } => Some(
                ComponentView::Footnote { id, text: note.write_str(text) },
            ),
            ComponentView::Latex(latex) => Some(
                ComponentView::Latex(
                    LatexView { format: latex.format, source: latex.source + text },
                ),
            ),
            ComponentView::Chained(items) => Some(
                ComponentView::Chained(Self::write_to_last_text(items, text)),
            ),
            _ => None,
        }
    }

    /// The items after `text` was written into the last of them, if that is
    /// text, and added as a new item of unstyled text otherwise.
    pub open spec fn write_to_last_text(items: Seq<ComponentView>, text: Seq<char>) -> Seq<
        ComponentView,
    > {
        if items.len() > 0 && items.last() is Text {
            items.drop_last().push(ComponentView::Text(items.last()->Text_0.write_str(text)))
        } else {
            items.push(ComponentView::plain_text(text))
        }
    }
}

/// Writes `text` into the last of `items` if that is text, and adds it as a
/// new item of unstyled text otherwise.
fn write_to_last_text(items: &mut Vec<PostComponent>, text: &str)
    ensures
        posts_view(final(items)@) == ComponentView::write_to_last_text(
            posts_view(old(items)@),
            text@,
        ),
{
    let ghost before = items@;
    match items.pop() {
        Some(PostComponent::Text(mut component)) => {
            proof {
                lemma_posts_view_drop_last(before);
            }
            component.push(TextValue::Raw(text.to_owned()));
            let ghost rest = items@;
            items.push(PostComponent::Text(component));
            proof {
                lemma_posts_view_push(rest, items@.last());
            }
        },
        Some(last) => {
            proof {
                lemma_posts_view_drop_last(before);
            }
            let ghost rest = items@;
            items.push(last);
            assert(items@ =~= before);
            let ghost all = items@;
            items.push(PostComponent::Text(TextComponent::new(text)));
            proof {
                lemma_posts_view_push(all, items@.last());
            }
        },
        None => {
            items.push(PostComponent::Text(TextComponent::new(text)));
            proof {
                lemma_posts_view_push(before, items@.last());
            }
        },
    }
}

impl PostComponent {
    /// Markup without content: what an empty list item or table cell becomes.
    pub fn blank() -> (component: PostComponent)
        ensures
            component@ == ComponentView::Raw(Seq::<char>::empty()),
    {
        PostComponent::Raw(String::new())
    }

    /// The kind of this component.
    pub fn discriminant(&self) -> (kind: PostComponentKind)
        ensures
            kind == self@.kind(),
    {
        match self {
            PostComponent::Placeholder => PostComponentKind::Placeholder,
            PostComponent::Text(_) => PostComponentKind::Text,
            PostComponent::BlockQuote(_) => PostComponentKind::BlockQuote,
            PostComponent::Image { .. } => PostComponentKind::Image,
            PostComponent::CodeBlock { .. } => PostComponentKind::CodeBlock,
            PostComponent::List(_) => PostComponentKind::List,
            PostComponent::HorizonalRule => PostComponentKind::HorizonalRule,
            PostComponent::Table(_) => PostComponentKind::Table,
            PostComponent::Footnote { .. } => PostComponentKind::Footnote,
            PostComponent::Latex(_) => PostComponentKind::Latex,
            PostComponent::Chained(_) => PostComponentKind::Chained,
            PostComponent::Raw(_) => PostComponentKind::Raw,
        }
    }

    /// Folds the finished component `other` into this one.
    pub fn push(&mut self, other: PostComponent)
        ensures
            final(self)@ == old(self)@.push(other@),
    {
        let mut current = PostComponent::Placeholder;
        std::mem::swap(self, &mut current);
        *self = match (current, other) {
            (PostComponent::Placeholder, other) => other,
            (PostComponent::BlockQuote(mut items), other) => {
                proof {
                    lemma_posts_view_push(items@, other);
                }
                items.push(other);
                PostComponent::BlockQuote(items)
            },
            (PostComponent::List(mut list), other) => {
                proof {
                    lemma_posts_view_push(list.items@, other);
                }
                list.items.push(other);
                PostComponent::List(list)
            },
            (PostComponent::Text(mut text), PostComponent::Text(child)) => {
                text.push(TextValue::nested(child));
                PostComponent::Text(text)
            },
            (PostComponent::Text(mut text), PostComponent::Raw(markup)) => {
                text.push(TextValue::Raw(markup));
                PostComponent::Text(text)
            },
            (PostComponent::Footnote { id, mut text }, PostComponent::Text(child)) => {
                text.push(TextValue::nested(child));
                PostComponent::Footnote { id, text }
            },
            (PostComponent::Footnote { id, mut text }, PostComponent::Raw(markup)) => {
                text.push(TextValue::Raw(markup));
                PostComponent::Footnote { id, text }
            },
            (current, added) => {
                let mut items: Vec<PostComponent> = Vec::new();
                items.push(current);
                items.push(added);
                assert(posts_view(items@) =~= seq![current@, added@]);
                PostComponent::Chained(items)
            },
        };
    }

    /// Writes the characters of `text` into this component. Returns whether
    /// the component took them; one that did not is left as it was.
    pub fn push_text(&mut self, text: &str) -> (taken: bool)
        ensures
            taken <==> old(self)@.push_text(text@) is Some,
            taken ==> final(self)@ == old(self)@.push_text(text@)->0,
            !taken ==> final(self)@ == old(self)@,
        decreases *old(self),
    {
        match self {
            PostComponent::Placeholder => {
                *self = PostComponent::Text(TextComponent::new(text));
                true
            },
            PostComponent::Text(component) => {
                component.push(TextValue::Raw(text.to_owned()));
                true
            },
            PostComponent::BlockQuote(quote) => {
                write_to_last_text(quote, text);
                true
            },
            PostComponent::CodeBlock { content, .. } => {
                content.append(text);
                true
            },
            PostComponent::List(list) => {
                let ghost before = list.items@;
                match list.items.pop() {
                    Some(mut last) => {
                        proof {
                            lemma_posts_view_drop_last(before);
                        }
                        let taken = last.push_text(text);
                        let ghost rest = list.items@;
                        list.items.push(last);
                        proof {
                            lemma_posts_view_push(rest, last);
                            if taken {
                                assert(posts_view(list.items@) =~= posts_view(
                                    before,
                                ).drop_last().push(last@));
                            } else {
                                assert(posts_view(list.items@) =~= posts_view(before));
                            }
                        }
                        taken
                    },
                    None => {
                        list.items.push(PostComponent::Text(TextComponent::new(text)));
                        proof {
                            lemma_posts_view_push(before, list.items@.last());
                            assert(posts_view(list.items@) =~= seq![
                                ComponentView::plain_text(text@),
                            ]);
                        }
                        true
                    },
                }
            },
            PostComponent::Footnote { text: note, .. } => {
                note.push(TextValue::Raw(text.to_owned()));
                true
            },
            PostComponent::Latex(latex) => {
                latex.source.append(text);
                true
            },
            PostComponent::Chained(items) => {
                write_to_last_text(items, text);
                true
            },
            _ => false,
        }
    }
}

/// Texts one after the other, as one text.
pub open spec fn joined(texts: Seq<Seq<char>>) -> Seq<char>
    decreases texts.len(),
{
    if texts.len() == 0 {
        Seq::empty()
    } else {
        texts[0] + joined(texts.skip(1))
    }
}

/// The characters that text content holds where it is a run of characters.
pub open spec fn run_of(content: TextPartView) -> Seq<char> {
    match content {
        TextPartView::Raw(text) => text,
        _ => Seq::empty(),
    }
}

impl ComponentView {
    /// The component after the texts were written into it one after the
    /// other, or `None` where it refuses one of them.
    pub open spec fn push_texts(self, texts: Seq<Seq<char>>) -> Option<ComponentView>
        decreases texts.len(),
    {
        if texts.len() == 0 {
            Some(self)
        } else {
            match self.push_text(texts[0]) {
                Some(next) => next.push_texts(texts.skip(1)),
                None => None,
            }
        }
    }
}

/// Texts that are written one after the other into text whose content is a
/// run of characters, or nothing yet, become one run of characters: the
/// characters that were there followed by the texts in order. They do not
/// become parts of their own.
pub proof fn lemma_texts_coalesce(style: StyleView, content: TextPartView, texts: Seq<Seq<char>>)
    requires
        content is Empty || content is Raw,
        texts.len() > 0,
    ensures
        ComponentView::Text(TextComponentView { style, content }).push_texts(texts) == Some(
            ComponentView::Text(
                TextComponentView {
                    style,
                    content: TextPartView::Raw(run_of(content) + joined(texts)),
                },
            ),
        ),
    decreases texts.len(),
{
    let first = TextPartView::Raw(run_of(content) + texts[0]);
    assert(content.write_str(texts[0]) == first) by {
        assert(Seq::<char>::empty() + texts[0] =~= texts[0]);
    }
    let start = ComponentView::Text(TextComponentView { style, content });
    let next = ComponentView::Text(TextComponentView { style, content: first });
    let rest = texts.skip(1);
    assert(start.push_text(texts[0]) == Some(next));
    assert(start.push_texts(texts) == next.push_texts(rest));
    if rest.len() == 0 {
        assert(next.push_texts(rest) == Some(next));
        assert(joined(rest) =~= Seq::<char>::empty());
        assert(run_of(content) + texts[0] =~= run_of(content) + joined(texts));
    } else {
        lemma_texts_coalesce(style, first, rest);
        assert((run_of(content) + texts[0]) + joined(rest) =~= run_of(content) + joined(texts));
    }
}

impl From<TextPart> for PostComponent {
    /// The part as a component of its own.
    fn from(value: TextPart) -> (component: PostComponent)
        ensures
            component@ == ComponentView::Text(value@.as_component()),
    {
        PostComponent::Text(
            match value {
                TextPart::Nested(inner) => *inner,
                content => TextComponent { style: Style::Plain, content },
            },
        )
    }
}

impl vstd::std_specs::convert::FromSpecImpl<TextPart> for PostComponent {
    open spec fn obeys_from_spec() -> bool {
        true
    }

    open spec fn from_spec(value: TextPart) -> PostComponent {
        PostComponent::Text(
            match value {
                TextPart::Nested(inner) => *inner,
                content => TextComponent { style: Style::Plain, content },
            },
        )
    }
}

} // verus!
