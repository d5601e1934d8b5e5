//! The tree builder: a stack machine that takes the events of the lexer and
//! gives the components of the document, one top-level component at a time.

use vstd::prelude::*;
use crate::component::{
    joined, lemma_posts_view_drop_last, lemma_posts_view_push, lemma_posts_view_replace,
    optional_post, posts_view, rows_view, run_of, ComponentView, Format, LatexComponent,
    LatexView, ListComponent, ListView, PostComponent, TableComponent, TableView,
};
use crate::error::{ComponentError, Unsupported, Violation};
use crate::event::{
    tokens_view, Construct, Element, ElementKind, ElementView, Lexeme, LexemeView, Spanned,
    SpannedView, Token, TokenView,
};
use crate::lexer::{lemma_pull_decreases, Lexer, LexerView};
use crate::tokenizer::{base_tokens, tokenize};
use vstd::string::StringSliceAdditionalSpecFns;
use crate::text::{
    component_view, part_view, parts_view, Style, StyleView, TextComponent, TextComponentView,
    TextPart, TextPartView,
};

verus! {

/// How the tree is built.
#[derive(Debug, Clone, Copy, PartialEq, Eq, Structural)]
pub struct ParserOptions {
    /// Whether a soft break becomes a line break and a hard break two of
    /// them. Otherwise a soft break becomes a space and a hard break one
    /// line break.
    pub newline_soft_break: bool,
}

impl Default for ParserOptions {
    fn default() -> (options: ParserOptions)
        ensures
            options == (ParserOptions { newline_soft_break: false }),
    {
        ParserOptions { newline_soft_break: false }
    }
}

/// The row of a table that is being assembled.
#[derive(Debug, PartialEq, Eq)]
pub struct TableParseStage {
    /// Whether the row is the header of the table.
    pub header: bool,
    /// The cells of the row that are finished.
    pub row: Vec<PostComponent>,
}

/// Whether a table is being assembled.
#[derive(Debug, PartialEq, Eq)]
pub enum ParseStage {
    Inactive,
    Table(TableParseStage),
}

/// The mathematical value of a [`ParseStage`].
pub enum StageView {
    Inactive,
    Table { header: bool, row: Seq<ComponentView> },
}

impl View for ParseStage {
    type V = StageView;

    open spec fn view(&self) -> StageView {
        match self {
            ParseStage::Inactive => StageView::Inactive,
            ParseStage::Table(stage) => StageView::Table {
                header: stage.header,
                row: posts_view(stage.row@),
            },
        }
    }
}

/// The state of the tree builder.
#[derive(Debug)]
pub struct Builder {
    /// The components that are open, the innermost last.
    pub stack: Vec<PostComponent>,
    /// The table row that is being assembled, if any.
    pub stage: ParseStage,
    pub options: ParserOptions,
}

/// The mathematical value of a [`Builder`].
pub struct BuilderView {
    pub stack: Seq<ComponentView>,
    pub stage: StageView,
    pub options: ParserOptions,
}

impl View for Builder {
    type V = BuilderView;

    open spec fn view(&self) -> BuilderView {
        BuilderView { stack: posts_view(self.stack@), stage: self.stage@, options: self.options }
    }
}

/// The markup of a checkbox.
pub open spec fn checkbox(checked: bool) -> Seq<char> {
    if checked {
        "<input type=\"checkbox\" disabled=\"true\" checked />"@
    } else {
        "<input type=\"checkbox\" disabled=\"true\" />"@
    }
}

/// The number of the first item of a list, as far as the machine can count.
pub open spec fn first_number(first: u64) -> usize {
    if first <= usize::MAX {
        first as usize
    } else {
        usize::MAX
    }
}

/// The component that an opening tag puts on the stack. A list item and a
/// table cell begin as placeholders.
pub open spec fn seed(element: ElementView) -> ComponentView {
    match element {
        ElementView::Paragraph => styled(StyleView::Paragraph),
        ElementView::Heading(level) => styled(StyleView::Heading(level)),
        ElementView::BlockQuote => ComponentView::BlockQuote(Seq::empty()),
        ElementView::CodeBlock(language) => ComponentView::CodeBlock {
            language,
            content: Seq::empty(),
        },
        ElementView::List(first) => ComponentView::List(
            ListView {
                numbered: match first {
                    Some(first) => Some(first_number(first)),
                    None => None,
                },
                items: Seq::empty(),
            },
        ),
        ElementView::FootnoteDefinition(label) => ComponentView::Footnote {
            id: label,
            text: TextComponentView { style: StyleView::Plain, content: TextPartView::Empty },
        },
        ElementView::Table(alignment) => ComponentView::Table(
            TableView { headers: Seq::empty(), alignment, rows: Seq::empty() },
        ),
        ElementView::Emphasis => styled(StyleView::Emphasis),
        ElementView::Strong => styled(StyleView::Strong),
        ElementView::Strikethrough => styled(StyleView::Strikethrough),
        ElementView::Link { dest_url, title } => ComponentView::Text(
            TextComponentView { style: StyleView::Link(dest_url), content: TextPartView::Raw(title) },
        ),
        ElementView::Image { dest_url, title } => ComponentView::Image {
            source: dest_url,
            alt: if title.len() > 0 {
                Some(title)
            } else {
                None
            },
        },
        _ => ComponentView::Placeholder,
    }
}

/// Text of the given style without content.
pub open spec fn styled(style: StyleView) -> ComponentView {
    ComponentView::Text(TextComponentView { style, content: TextPartView::Empty })
}

/// The component that the start of a construct puts on the stack.
pub open spec fn seed_construct(construct: Construct) -> ComponentView {
    match construct {
        Construct::Highlight => styled(StyleView::Highlight),
        Construct::Tex(multiline) => ComponentView::Latex(
            LatexView {
                format: if multiline {
                    Format::Multiline
                } else {
                    Format::Inline
                },
                source: Seq::empty(),
            },
        ),
    }
}

/// Inline code: text in code style, followed by an empty part that keeps
/// later text from joining it.
pub open spec fn code_leaf(value: Seq<char>) -> ComponentView {
    ComponentView::Text(
        TextComponentView {
            style: StyleView::Plain,
            content: TextPartView::Chained(
                seq![
                    TextPartView::Nested(
                        Box::new(
                            TextComponentView {
                                style: StyleView::Code,
                                content: TextPartView::Raw(value),
                            },
                        ),
                    ),
                    TextPartView::Empty,
                ],
            ),
        },
    )
}

/// A reference to a footnote: a link to the footnote that shows its label
/// in brackets, raised.
pub open spec fn reference_leaf(label: Seq<char>) -> ComponentView {
    ComponentView::Text(
        TextComponentView {
            style: StyleView::Link("#footnote-"@ + label),
            content: TextPartView::Nested(
                Box::new(
                    TextComponentView {
                        style: StyleView::Superscript,
                        content: TextPartView::Raw("["@ + label + "]"@),
                    },
                ),
            ),
        },
    )
}

/// Line breaks as a component: two where `double` says so, else one.
pub open spec fn break_leaf(double: bool) -> ComponentView {
    ComponentView::Text(
        TextComponentView {
            style: StyleView::Plain,
            content: if double {
                TextPartView::Chained(seq![TextPartView::NewLine, TextPartView::NewLine])
            } else {
                TextPartView::NewLine
            },
        },
    )
}

/// The place of the innermost open table on the stack.
pub open spec fn nearest_table(stack: Seq<ComponentView>) -> Option<int>
    decreases stack.len(),
{
    if stack.len() == 0 {
        None
    } else if stack.last() is Table {
        Some(stack.len() - 1)
    } else {
        nearest_table(stack.drop_last())
    }
}

impl BuilderView {
    /// The builder after the finished component `child` was folded: into the
    /// innermost open component if there is one, and out of the builder as a
    /// component of the document otherwise.
    pub open spec fn fold(self, child: ComponentView) -> (BuilderView, Option<ComponentView>) {
        if self.stack.len() > 0 {
            (
                BuilderView {
                    stack: self.stack.drop_last().push(self.stack.last().push(child)),
                    ..self
                },
                None,
            )
        } else {
            (self, Some(child))
        }
    }

    /// The builder after `text` was written into the innermost open
    /// component. A component that takes no text is chained with the text.
    /// Text that arrives while nothing is open is a violation.
    pub open spec fn write(self, text: Seq<char>) -> Result<BuilderView, ComponentError> {
        if self.stack.len() == 0 {
            Err(ComponentError::Invariant(Violation::NothingOpen))
        } else {
            let top = self.stack.last();
            let written = match top.push_text(text) {
                Some(written) => written,
                None => ComponentView::Chained(seq![top, ComponentView::plain_text(text)]),
            };
            Ok(BuilderView { stack: self.stack.drop_last().push(written), ..self })
        }
    }

    /// The builder after an opening tag. A block of metadata or of markup is
    /// not supported. The head of a table begins the assembly of its header
    /// row; a row changes nothing; every other element puts its seed on the
    /// stack.
    pub open spec fn open(self, element: ElementView) -> Result<BuilderView, ComponentError> {
        match element {
            ElementView::MetadataBlock => Err(
                ComponentError::Unsupported(Unsupported::MetadataBlock),
            ),
            ElementView::HtmlBlock => Err(ComponentError::Unsupported(Unsupported::HtmlBlock)),
            ElementView::TableHead => Ok(
                BuilderView { stage: StageView::Table { header: true, row: Seq::empty() }, ..self },
            ),
            ElementView::TableRow => Ok(self),
            _ => Ok(BuilderView { stack: self.stack.push(seed(element)), ..self }),
        }
    }

    /// The builder after the innermost open component was taken from the
    /// stack, and that component, if there was one.
    pub open spec fn pop(self) -> (BuilderView, Option<ComponentView>) {
        if self.stack.len() > 0 {
            (BuilderView { stack: self.stack.drop_last(), ..self }, Some(self.stack.last()))
        } else {
            (self, None)
        }
    }

    /// The builder after the row that is assembled became the header of the
    /// innermost open table. The row buffer takes what the header held.
    pub open spec fn finish_head(self, row: Seq<ComponentView>) -> Result<
        BuilderView,
        ComponentError,
    > {
        match nearest_table(self.stack) {
            Some(at) => {
                let table = self.stack[at]->Table_0;
                Ok(
                    BuilderView {
                        stack: self.stack.update(
                            at,
                            ComponentView::Table(TableView { headers: row, ..table }),
                        ),
                        stage: StageView::Table { header: false, row: table.headers },
                        ..self
                    },
                )
            },
            None => Err(ComponentError::Invariant(Violation::TableMissing)),
        }
    }

    /// The builder after the row that is assembled became the last body row
    /// of the innermost open table. The row buffer is empty again.
    pub open spec fn finish_row(self, row: Seq<ComponentView>) -> Result<
        BuilderView,
        ComponentError,
    > {
        match nearest_table(self.stack) {
            Some(at) => {
                let table = self.stack[at]->Table_0;
                Ok(
                    BuilderView {
                        stack: self.stack.update(
                            at,
                            ComponentView::Table(TableView { rows: table.rows.push(row), ..table }),
                        ),
                        stage: StageView::Table { header: false, row: Seq::empty() },
                        ..self
                    },
                )
            },
            None => Err(ComponentError::Invariant(Violation::TableMissing)),
        }
    }

    /// The builder after a closing tag, and the component that the tag
    /// finished, if it finished one.
    ///
    /// A list item that is still a placeholder is finished as empty markup.
    /// Inside a table, the end of the head makes the assembled row the
    /// header, the end of a row adds the assembled row to the table (or
    /// makes it the header, if the header is still due), and the end of a
    /// cell moves the innermost component into the row. The end of the table
    /// ends the assembly and finishes the innermost component. The end of a
    /// table, head, row or cell while no table is assembled is a violation.
    /// Every other closing tag finishes the innermost open component.
    pub open spec fn close(self, kind: ElementKind) -> Result<
        (BuilderView, Option<ComponentView>),
        ComponentError,
    > {
        if kind == ElementKind::Item && self.stack.len() > 0 && self.stack.last() is Placeholder {
            Ok(
                (
                    BuilderView { stack: self.stack.drop_last(), ..self },
                    Some(ComponentView::Raw(Seq::empty())),
                ),
            )
        } else {
            match (kind, self.stage) {
                (ElementKind::TableHead, StageView::Table { header, row }) => match self.finish_head(
                    row,
                ) {
                    Ok(builder) => Ok((builder, None)),
                    Err(error) => Err(error),
                },
                (ElementKind::TableRow, StageView::Table { header, row }) => match (if header {
                    self.finish_head(row)
                } else {
                    self.finish_row(row)
                }) {
                    Ok(builder) => Ok((builder, None)),
                    Err(error) => Err(error),
                },
                (ElementKind::TableCell, StageView::Table { header, row }) => if self.stack.len()
                    == 0 {
                    Err(ComponentError::Invariant(Violation::NothingOpen))
                } else {
                    let cell = if self.stack.last() is Placeholder {
                        ComponentView::Raw(Seq::empty())
                    } else {
                        self.stack.last()
                    };
                    Ok(
                        (
                            BuilderView {
                                stack: self.stack.drop_last(),
                                stage: StageView::Table { header, row: row.push(cell) },
                                ..self
                            },
                            None,
                        ),
                    )
                },
                (ElementKind::Table, StageView::Table { .. }) => Ok(
                    (BuilderView { stage: StageView::Inactive, ..self }).pop(),
                ),
                (ElementKind::Table, StageView::Inactive) => Err(
                    ComponentError::Invariant(Violation::TableStage),
                ),
                (ElementKind::TableHead, StageView::Inactive) => Err(
                    ComponentError::Invariant(Violation::TableStage),
                ),
                (ElementKind::TableRow, StageView::Inactive) => Err(
                    ComponentError::Invariant(Violation::TableStage),
                ),
                (ElementKind::TableCell, StageView::Inactive) => Err(
                    ComponentError::Invariant(Violation::TableStage),
                ),
                _ => Ok(self.pop()),
            }
        }
    }

    /// The builder after a finished component, if there is one, was folded.
    pub open spec fn settle(self, finished: Option<ComponentView>) -> (
        BuilderView,
        Option<ComponentView>,
    ) {
        match finished {
            Some(child) => self.fold(child),
            None => (self, None),
        }
    }

    /// The builder after one event, and the component of the document that
    /// the event completed, if it completed one.
    pub open spec fn feed(self, lexeme: LexemeView) -> Result<
        (BuilderView, Option<ComponentView>),
        ComponentError,
    > {
        match lexeme {
            LexemeView::Start(construct) => Ok(
                (BuilderView { stack: self.stack.push(seed_construct(construct)), ..self }, None),
            ),
            LexemeView::End(_) => {
                let (builder, finished) = self.pop();
                Ok(builder.settle(finished))
            },
            LexemeView::Base(token) => match token {
                TokenView::Start(element) => match self.open(element) {
                    Ok(builder) => Ok((builder, None)),
                    Err(error) => Err(error),
                },
                TokenView::End(kind) => match self.close(kind) {
                    Ok((builder, finished)) => Ok(builder.settle(finished)),
                    Err(error) => Err(error),
                },
                TokenView::Text(value) => match self.write(value) {
                    Ok(builder) => Ok((builder, None)),
                    Err(error) => Err(error),
                },
                TokenView::Code(value) => Ok(self.fold(code_leaf(value))),
                TokenView::Html(markup) => Ok(self.fold(ComponentView::Raw(markup))),
                TokenView::InlineHtml(markup) => Ok(self.fold(ComponentView::Raw(markup))),
                TokenView::FootnoteReference(label) => Ok(self.fold(reference_leaf(label))),
                TokenView::SoftBreak => if self.options.newline_soft_break {
                    Ok(self.fold(break_leaf(false)))
                } else {
                    match self.write(" "@) {
                        Ok(builder) => Ok((builder, None)),
                        Err(error) => Err(error),
                    }
                },
                TokenView::HardBreak => Ok(self.fold(break_leaf(self.options.newline_soft_break))),
                TokenView::Rule => Ok(self.fold(ComponentView::HorizonalRule)),
                TokenView::TaskListMarker(checked) => Ok(
                    self.fold(ComponentView::Raw(checkbox(checked))),
                ),
            },
        }
    }
}

/// The place of the innermost open table on `stack`.
fn find_table(stack: &Vec<PostComponent>) -> (found: Option<usize>)
    ensures
        found matches Some(at) ==> nearest_table(posts_view(stack@)) == Some(at as int) && at
            < stack@.len() && stack@[at as int] is Table,
        found is None ==> nearest_table(posts_view(stack@)) is None,
{
    let ghost views = posts_view(stack@);
    let mut i = stack.len();
    assert(views.take(i as int) =~= views);
    while i > 0
        invariant
            i <= stack@.len(),
            views == posts_view(stack@),
            nearest_table(views) == nearest_table(views.take(i as int)),
        decreases i,
    {
        i -= 1;
        let ghost front = views.take(i + 1);
        assert(front.drop_last() =~= views.take(i as int));
        assert(front.last() == stack@[i as int]@);
        if let PostComponent::Table(_) = &stack[i] {
            return Some(i);
        }
    }
    None
}

/// Inline code as a component.
fn make_code(value: String) -> (leaf: PostComponent)
    ensures
        leaf@ == code_leaf(value@),
{
    let code = TextComponent { style: Style::Code, content: TextPart::Raw(value) };
    assert(code@ == TextComponentView {
        style: StyleView::Code,
        content: TextPartView::Raw(value@),
    });
    let nested = TextPart::Nested(Box::new(code));
    assert(nested@ == TextPartView::Nested(Box::new(code@)));
    let mut parts: Vec<TextPart> = Vec::new();
    parts.push(nested);
    parts.push(TextPart::Empty);
    assert(parts_view(parts@) =~= seq![nested@, TextPartView::Empty]);
    PostComponent::Text(TextComponent::new_chained(parts))
}

/// A reference to the footnote `label` as a component.
fn make_reference(label: String) -> (leaf: PostComponent)
    ensures
        leaf@ == reference_leaf(label@),
{
    proof {
        reveal_with_fuel(part_view, 3);
        reveal_with_fuel(component_view, 3);
    }
    let mut target = String::from_str("#footnote-");
    target.append(label.as_str());
    let mut shown = String::from_str("[");
    shown.append(label.as_str());
    shown.append("]");
    PostComponent::Text(
        TextComponent {
            style: Style::Link(target),
            content: TextPart::Nested(
                Box::new(
                    TextComponent { style: Style::Superscript, content: TextPart::Raw(shown) },
                ),
            ),
        },
    )
}

/// One line break, or two, as a component.
fn make_break(double: bool) -> (leaf: PostComponent)
    ensures
        leaf@ == break_leaf(double),
{
    if double {
        let mut parts: Vec<TextPart> = Vec::new();
        parts.push(TextPart::NewLine);
        parts.push(TextPart::NewLine);
        assert(parts_view(parts@) =~= seq![TextPartView::NewLine, TextPartView::NewLine]);
        PostComponent::Text(TextComponent::new_chained(parts))
    } else {
        PostComponent::Text(TextComponent { style: Style::Plain, content: TextPart::NewLine })
    }
}

/// The component that the opening tag of `element` puts on the stack.
fn make_seed(element: Element) -> (component: PostComponent)
    ensures
        component@ == seed(element@),
{
    match element {
        Element::Paragraph => PostComponent::Text(TextComponent::new_styled(Style::Paragraph)),
        Element::Heading(level) => PostComponent::Text(
            TextComponent::new_styled(Style::Heading(level)),
        ),
        Element::BlockQuote => {
            let items: Vec<PostComponent> = Vec::new();
            assert(posts_view(items@) =~= Seq::empty());
            PostComponent::BlockQuote(items)
        },
        Element::CodeBlock(language) => PostComponent::CodeBlock {
            language,
            content: String::new(),
        },
        Element::List(first) => {
            let items: Vec<PostComponent> = Vec::new();
            assert(posts_view(items@) =~= Seq::empty());
            PostComponent::List(
                ListComponent {
                    numbered: match first {
                        Some(first) => Some(
                            if first <= usize::MAX as u64 {
                                first as usize
                            } else {
                                usize::MAX
                            },
                        ),
                        None => None,
                    },
                    items,
                },
            )
        },
        Element::FootnoteDefinition(label) => PostComponent::Footnote {
            id: label,
            text: TextComponent::empty(),
        },
        Element::Table(alignment) => {
            let headers: Vec<PostComponent> = Vec::new();
            let rows: Vec<Vec<PostComponent>> = Vec::new();
            assert(posts_view(headers@) =~= Seq::empty());
            assert(rows_view(rows@) =~= Seq::empty());
            PostComponent::Table(TableComponent { headers, alignment, rows })
        },
        Element::Emphasis => PostComponent::Text(TextComponent::new_styled(Style::Emphasis)),
        Element::Strong => PostComponent::Text(TextComponent::new_styled(Style::Strong)),
        Element::Strikethrough => PostComponent::Text(
            TextComponent::new_styled(Style::Strikethrough),
        ),
        Element::Link { dest_url, title } => PostComponent::Text(
            TextComponent { style: Style::Link(dest_url), content: TextPart::Raw(title) },
        ),
        Element::Image { dest_url, title } => {
            let alt = if !title.as_str().is_empty() {
                Some(title)
            } else {
                None
            };
            PostComponent::Image { source: dest_url, alt }
        },
        _ => PostComponent::Placeholder,
    }
}

/// The component that the start of `construct` puts on the stack.
fn make_construct(construct: Construct) -> (component: PostComponent)
    ensures
        component@ == seed_construct(construct),
{
    match construct {
        Construct::Highlight => PostComponent::Text(TextComponent::new_styled(Style::Highlight)),
        Construct::Tex(multiline) => PostComponent::Latex(
            LatexComponent {
                format: if multiline {
                    Format::Multiline
                } else {
                    Format::Inline
                },
                source: String::new(),
                rendered: None,
            },
        ),
    }
}

impl Builder {
    /// A builder with nothing open.
    pub fn new(options: ParserOptions) -> (builder: Builder)
        ensures
            builder@ == (BuilderView {
                stack: Seq::empty(),
                stage: StageView::Inactive,
                options,
            }),
    {
        let stack: Vec<PostComponent> = Vec::new();
        assert(posts_view(stack@) =~= Seq::empty());
        Builder { stack, stage: ParseStage::Inactive, options }
    }

    /// Puts `component` on the stack.
    fn push(&mut self, component: PostComponent)
        ensures
            final(self)@ == (BuilderView { stack: old(self)@.stack.push(component@), ..old(self)@ }),
    {
        proof {
            lemma_posts_view_push(self.stack@, component);
        }
        self.stack.push(component);
    }

    /// Takes the innermost open component from the stack.
    fn pop(&mut self) -> (taken: Option<PostComponent>)
        ensures
            (final(self)@, optional_post(taken)) == old(self)@.pop(),
    {
        proof {
            if self.stack@.len() > 0 {
                lemma_posts_view_drop_last(self.stack@);
            }
        }
        self.stack.pop()
    }

    /// Folds the finished component `child`: into the innermost open
    /// component if there is one, out of the builder otherwise.
    fn fold(&mut self, child: PostComponent) -> (produced: Option<PostComponent>)
        ensures
            (final(self)@, optional_post(produced)) == old(self)@.fold(child@),
    {
        match self.pop() {
            Some(mut top) => {
                top.push(child);
                self.push(top);
                None
            },
            None => Some(child),
        }
    }

    /// Folds a finished component, if there is one.
    fn settle(&mut self, finished: Option<PostComponent>) -> (produced: Option<PostComponent>)
        ensures
            (final(self)@, optional_post(produced)) == old(self)@.settle(optional_post(finished)),
    {
        match finished {
            Some(child) => self.fold(child),
            None => None,
        }
    }

    /// Writes `text` into the innermost open component.
    fn write(&mut self, text: &str) -> (result: Result<(), ComponentError>)
        ensures
            match old(self)@.write(text@) {
                Ok(builder) => result is Ok && final(self)@ == builder,
                Err(error) => result == Err::<(), ComponentError>(error) && final(self)@ == old(
                    self,
                )@,
            },
    {
        match self.pop() {
            Some(mut top) => {
                let ghost before = top@;
                if !top.push_text(text) {
                    let mut items: Vec<PostComponent> = Vec::new();
                    items.push(top);
                    items.push(PostComponent::Text(TextComponent::new(text)));
                    assert(posts_view(items@) =~= seq![before, ComponentView::plain_text(text@)]);
                    top = PostComponent::Chained(items);
                }
                self.push(top);
                Ok(())
            },
            None => Err(ComponentError::Invariant(Violation::NothingOpen)),
        }
    }

    /// Handles an opening tag.
    fn open(&mut self, element: Element) -> (result: Result<(), ComponentError>)
        ensures
            match old(self)@.open(element@) {
                Ok(builder) => result is Ok && final(self)@ == builder,
                Err(error) => result == Err::<(), ComponentError>(error) && final(self)@ == old(
                    self,
                )@,
            },
    {
        match element {
            Element::MetadataBlock => Err(ComponentError::Unsupported(Unsupported::MetadataBlock)),
            Element::HtmlBlock => Err(ComponentError::Unsupported(Unsupported::HtmlBlock)),
            Element::TableHead => {
                let row: Vec<PostComponent> = Vec::new();
                assert(posts_view(row@) =~= Seq::empty());
                self.stage = ParseStage::Table(TableParseStage { header: true, row });
                Ok(())
            },
            Element::TableRow => Ok(()),
            other => {
                self.push(make_seed(other));
                Ok(())
            },
        }
    }

    /// Makes `row` the header of the table at place `at` of the stack, or
    /// its last body row. Returns what the header held, or an empty row.
    fn store_row(&mut self, at: usize, row: Vec<PostComponent>, as_header: bool) -> (buffer: Vec<
        PostComponent,
    >)
        requires
            nearest_table(old(self)@.stack) == Some(at as int),
            at < old(self).stack@.len(),
            old(self).stack@[at as int] is Table,
        ensures
            (BuilderView {
                stack: final(self)@.stack,
                stage: StageView::Table { header: false, row: posts_view(buffer@) },
                options: final(self).options,
            }) == (if as_header {
                old(self)@.finish_head(posts_view(row@))
            } else {
                old(self)@.finish_row(posts_view(row@))
            })->Ok_0,
            final(self).stage == old(self).stage,
    {
        let ghost before = self.stack@;
        match self.stack.remove(at) {
            PostComponent::Table(mut table) => {
                let mut buffer = row;
                if as_header {
                    std::mem::swap(&mut table.headers, &mut buffer);
                } else {
                    let ghost rows = table.rows@;
                    table.rows.push(buffer);
                    assert(rows_view(table.rows@) =~= rows_view(rows).push(posts_view(row@)));
                    buffer = Vec::new();
                    assert(posts_view(buffer@) =~= Seq::empty());
                }
                let updated = PostComponent::Table(table);
                proof {
                    lemma_posts_view_replace(before, at as int, updated);
                }
                self.stack.insert(at, updated);
                buffer
            },
            other => {
                assert(false);
                self.stack.insert(at, other);
                row
            },
        }
    }

    /// Whether the innermost open component is a placeholder.
    fn top_is_placeholder(&self) -> (placeholder: bool)
        ensures
            placeholder == (self@.stack.len() > 0 && self@.stack.last() is Placeholder),
    {
        let n = self.stack.len();
        if n == 0 {
            false
        } else {
            match &self.stack[n - 1] {
                PostComponent::Placeholder => true,
                _ => false,
            }
        }
    }

    /// Handles the closing tag of a table or of a part of one.
    fn close_table_part(&mut self, kind: ElementKind) -> (result: Result<
        Option<PostComponent>,
        ComponentError,
    >)
        requires
            kind == ElementKind::Table || kind == ElementKind::TableHead || kind
                == ElementKind::TableRow || kind == ElementKind::TableCell,
        ensures
            match old(self)@.close(kind) {
                Ok((builder, finished)) => result matches Ok(made) && optional_post(made)
                    == finished && final(self)@ == builder,
                Err(error) => result matches Err(found) && found == error && final(self)@ == old(
                    self,
                )@,
            },
    {
        let mut stage = ParseStage::Inactive;
        std::mem::swap(&mut self.stage, &mut stage);
        match stage {
            ParseStage::Inactive => Err(ComponentError::Invariant(Violation::TableStage)),
            ParseStage::Table(assembly) => {
                let TableParseStage { header, row } = assembly;
                match kind {
                    ElementKind::Table => Ok(self.pop()),
                    ElementKind::TableCell => {
                        let mut row = row;
                        match self.pop() {
                            Some(top) => {
                                let cell = match top {
                                    PostComponent::Placeholder => PostComponent::blank(),
                                    other => other,
                                };
                                proof {
                                    lemma_posts_view_push(row@, cell);
                                }
                                row.push(cell);
                                self.stage = ParseStage::Table(TableParseStage { header, row });
                                Ok(None)
                            },
                            None => {
                                self.stage = ParseStage::Table(TableParseStage { header, row });
                                Err(ComponentError::Invariant(Violation::NothingOpen))
                            },
                        }
                    },
                    _ => {
                        let as_header = match kind {
                            ElementKind::TableHead => true,
                            _ => header,
                        };
                        match find_table(&self.stack) {
                            Some(at) => {
                                let buffer = self.store_row(at, row, as_header);
                                self.stage = ParseStage::Table(
                                    TableParseStage { header: false, row: buffer },
                                );
                                Ok(None)
                            },
                            None => {
                                self.stage = ParseStage::Table(TableParseStage { header, row });
                                Err(ComponentError::Invariant(Violation::TableMissing))
                            },
                        }
                    },
                }
            },
        }
    }

    /// Handles a closing tag.
    fn close(&mut self, kind: ElementKind) -> (result: Result<Option<PostComponent>, ComponentError>)
        ensures
            match old(self)@.close(kind) {
                Ok((builder, finished)) => result matches Ok(made) && optional_post(made)
                    == finished && final(self)@ == builder,
                Err(error) => result matches Err(found) && found == error && final(self)@ == old(
                    self,
                )@,
            },
    {
        match kind {
            ElementKind::Item => {
                if self.top_is_placeholder() {
                    let _ = self.pop();
                    Ok(Some(PostComponent::blank()))
                } else {
                    Ok(self.pop())
                }
            },
            ElementKind::Table => self.close_table_part(kind),
            ElementKind::TableHead => self.close_table_part(kind),
            ElementKind::TableRow => self.close_table_part(kind),
            ElementKind::TableCell => self.close_table_part(kind),
            _ => Ok(self.pop()),
        }
    }

    /// Takes one event. Returns the component of the document that the event
    /// completed, if it completed one. An event that is refused leaves the
    /// builder as it was.
    pub fn feed(&mut self, lexeme: Lexeme) -> (result: Result<Option<PostComponent>, ComponentError>)
        ensures
            match old(self)@.feed(lexeme@) {
                Ok((builder, produced)) => result matches Ok(made) && optional_post(made)
                    == produced && final(self)@ == builder,
                Err(error) => result matches Err(found) && found == error && final(self)@ == old(
                    self,
                )@,
            },
    {
        match lexeme {
            Lexeme::Start(construct) => {
                self.push(make_construct(construct));
                Ok(None)
            },
            Lexeme::End(_) => {
                let finished = self.pop();
                Ok(self.settle(finished))
            },
            Lexeme::Base(token) => match token {
                Token::Start(element) => match self.open(element) {
                    Ok(()) => Ok(None),
                    Err(error) => Err(error),
                },
                Token::End(kind) => match self.close(kind) {
                    Ok(finished) => Ok(self.settle(finished)),
                    Err(error) => Err(error),
                },
                Token::Text(value) => match self.write(value.as_str()) {
                    Ok(()) => Ok(None),
                    Err(error) => Err(error),
                },
                Token::Code(value) => Ok(self.fold(make_code(value))),
                Token::Html(markup) => Ok(self.fold(PostComponent::Raw(markup))),
                Token::InlineHtml(markup) => Ok(self.fold(PostComponent::Raw(markup))),
                Token::FootnoteReference(label) => Ok(self.fold(make_reference(label))),
                Token::SoftBreak => if self.options.newline_soft_break {
                    Ok(self.fold(make_break(false)))
                } else {
                    match self.write(" ") {
                        Ok(()) => Ok(None),
                        Err(error) => Err(error),
                    }
                },
                Token::HardBreak => {
                    let double = self.options.newline_soft_break;
                    Ok(self.fold(make_break(double)))
                },
                Token::Rule => Ok(self.fold(PostComponent::HorizonalRule)),
                Token::TaskListMarker(checked) => Ok(
                    self.fold(
                        PostComponent::Raw(
                            String::from_str(
                                if checked {
                                    "<input type=\"checkbox\" disabled=\"true\" checked />"
                                } else {
                                    "<input type=\"checkbox\" disabled=\"true\" />"
                                },
                            ),
                        ),
                    ),
                ),
            },
        }
    }
}

/// The parser of one document: it reads the events of the lexer and gives
/// the components of the document in order.
pub struct ComponentParser<'input> {
    inner: Lexer<'input>,
    builder: Builder,
}

/// The mathematical value of a [`ComponentParser`].
pub struct ParserView {
    pub lexer: LexerView,
    pub builder: BuilderView,
}

impl<'input> View for ComponentParser<'input> {
    type V = ParserView;

    closed spec fn view(&self) -> ParserView {
        ParserView { lexer: self.inner@, builder: self.builder@ }
    }
}

impl ParserView {
    /// A parser that has not read any of `tokens` yet.
    pub open spec fn fresh(
        source: Seq<u8>,
        tokens: Seq<SpannedView>,
        options: ParserOptions,
    ) -> ParserView {
        ParserView {
            lexer: LexerView::fresh(source, tokens),
            builder: BuilderView { stack: Seq::empty(), stage: StageView::Inactive, options },
        }
    }

    /// The next component of the document and the parser after it, or `None`
    /// where the events are used up, or the error on which the parser fails
    /// before it completes another component.
    pub open spec fn produce(self) -> Result<(Option<ComponentView>, ParserView), ComponentError>
        decreases self.lexer.tokens.len(), self.lexer.remainder.len(),
    {
        match self.lexer.pull() {
            Ok((Some(event), lexer)) => match self.builder.feed(event.lexeme) {
                Ok((builder, Some(component))) => Ok(
                    (Some(component), ParserView { lexer, builder }),
                ),
                Ok((builder, None)) => {
                    proof {
                        lemma_pull_decreases(self.lexer);
                    }
                    (ParserView { lexer, builder }).produce()
                },
                Err(error) => Err(error),
            },
            Ok((None, lexer)) => Ok((None, ParserView { lexer, builder: self.builder })),
            Err(error) => Err(error),
        }
    }

    /// The parser after it failed to produce its next component: the events
    /// up to the one on which it failed are read and built into the tree,
    /// and the failing event has changed nothing in the builder.
    pub open spec fn stalled(self) -> ParserView
        decreases self.lexer.tokens.len(), self.lexer.remainder.len(),
    {
        match self.lexer.pull() {
            Ok((Some(event), lexer)) => match self.builder.feed(event.lexeme) {
                Ok((builder, None)) => {
                    proof {
                        lemma_pull_decreases(self.lexer);
                    }
                    (ParserView { lexer, builder }).stalled()
                },
                Ok((_, Some(_))) => self,
                Err(_) => ParserView { lexer, builder: self.builder },
            },
            Ok((None, _)) => self,
            Err(_) => ParserView { lexer: self.lexer.stalled(), builder: self.builder },
        }
    }

    /// All the components of the document that are still to come, or the
    /// error on which the parser fails.
    pub open spec fn run(self) -> Result<Seq<ComponentView>, ComponentError>
        decreases self.lexer.tokens.len(), self.lexer.remainder.len(),
    {
        match self.produce() {
            Ok((Some(component), next)) => {
                proof {
                    lemma_produce_decreases(self);
                }
                match next.run() {
                    Ok(rest) => Ok(seq![component] + rest),
                    Err(error) => Err(error),
                }
            },
            Ok((None, _)) => Ok(Seq::empty()),
            Err(error) => Err(error),
        }
    }
}

/// Producing a component leaves less to do.
pub proof fn lemma_produce_decreases(parser: ParserView)
    ensures
        parser.produce() matches Ok((Some(_), after)) ==> (after.lexer.tokens.len()
            < parser.lexer.tokens.len() || (after.lexer.tokens.len() == parser.lexer.tokens.len()
            && after.lexer.remainder.len() < parser.lexer.remainder.len())),
    decreases parser.lexer.tokens.len(), parser.lexer.remainder.len(),
{
    lemma_pull_decreases(parser.lexer);
    match parser.lexer.pull() {
        Ok((Some(event), lexer)) => match parser.builder.feed(event.lexeme) {
            Ok((builder, None)) => {
                lemma_produce_decreases(ParserView { lexer, builder });
            },
            _ => {},
        },
        _ => {},
    }
}

impl<'input> ComponentParser<'input> {
    /// A parser over the markdown `source`, with the default options.
    pub fn new(source: &'input str) -> (parser: ComponentParser<'input>)
        ensures
            parser@ == ParserView::fresh(
                source.spec_bytes(),
                base_tokens(source@),
                ParserOptions { newline_soft_break: false },
            ),
    {
        ComponentParser::with_options(source, ParserOptions { newline_soft_break: false })
    }

    /// A parser over the markdown `source`.
    pub fn with_options(source: &'input str, options: ParserOptions) -> (parser: ComponentParser<
        'input,
    >)
        ensures
            parser@ == ParserView::fresh(source.spec_bytes(), base_tokens(source@), options),
    {
        ComponentParser::from_tokens(source, tokenize(source), options)
    }

    /// A parser over `tokens`, which stand for parts of `source`.
    pub fn from_tokens(source: &'input str, tokens: Vec<Spanned>, options: ParserOptions) -> (parser:
        ComponentParser<'input>)
        ensures
            parser@ == ParserView::fresh(source.spec_bytes(), tokens_view(tokens@), options),
    {
        ComponentParser { inner: Lexer::from_tokens(source, tokens), builder: Builder::new(options) }
    }

    /// The next component of the document, or `None` where the events are
    /// used up.
    pub fn next(&mut self) -> (result: Result<Option<PostComponent>, ComponentError>)
        ensures
            match old(self)@.produce() {
                Ok((component, after)) => result matches Ok(made) && optional_post(made)
                    == component && final(self)@ == after,
                Err(error) => result matches Err(found) && found == error && final(self)@ == old(
                    self,
                )@.stalled(),
            },
    {
        loop
            invariant
                self@.produce() == old(self)@.produce(),
                self@.stalled() == old(self)@.stalled(),
            decreases self@.lexer.tokens.len(), self@.lexer.remainder.len(),
        {
            proof {
                lemma_pull_decreases(self@.lexer);
            }
            match self.inner.next() {
                Ok(Some(event)) => match self.builder.feed(event.lexeme) {
                    Ok(Some(component)) => {
                        return Ok(Some(component));
                    },
                    Ok(None) => {},
                    Err(error) => {
                        return Err(error);
                    },
                },
                Ok(None) => {
                    return Ok(None);
                },
                Err(error) => {
                    return Err(error);
                },
            }
        }
    }

    /// All the components of the document that are still to come, in order.
    pub fn collect(self) -> (result: Result<Vec<PostComponent>, ComponentError>)
        ensures
            match self@.run() {
                Ok(components) => result matches Ok(made) && posts_view(made@) == components,
                Err(error) => result matches Err(found) && found == error,
            },
    {
        let mut parser = self;
        let mut components: Vec<PostComponent> = Vec::new();
        assert(posts_view(components@) =~= Seq::empty());
        loop
            invariant
                match parser@.run() {
                    Ok(rest) => self@.run() == Ok::<Seq<ComponentView>, ComponentError>(
                        posts_view(components@) + rest,
                    ),
                    Err(error) => self@.run() == Err::<Seq<ComponentView>, ComponentError>(error),
                },
            decreases parser@.lexer.tokens.len(), parser@.lexer.remainder.len(),
        {
            proof {
                lemma_produce_decreases(parser@);
            }
            let ghost before = components@;
            match parser.next() {
                Ok(Some(component)) => {
                    proof {
                        lemma_posts_view_push(before, component);
                    }
                    components.push(component);
                    assert(forall|rest: Seq<ComponentView>|
                        posts_view(before) + (seq![component@] + rest) =~= posts_view(components@)
                            + rest);
                },
                Ok(None) => {
                    assert(posts_view(components@) + Seq::<ComponentView>::empty() =~= posts_view(
                        components@,
                    ));
                    return Ok(components);
                },
                Err(error) => {
                    return Err(error);
                },
            }
        }
    }
}

/// The components of the markdown document `source`, in order.
pub fn parse(source: &str, options: ParserOptions) -> (result: Result<
    Vec<PostComponent>,
    ComponentError,
>)
    ensures
        match ParserView::fresh(source.spec_bytes(), base_tokens(source@), options).run() {
            Ok(components) => result matches Ok(made) && posts_view(made@) == components,
            Err(error) => result matches Err(found) && found == error,
        },
{
    ComponentParser::with_options(source, options).collect()
}

impl BuilderView {
    /// The builder after the texts arrived one after the other as text
    /// events, or the error on which it refuses one of them.
    pub open spec fn feed_texts(self, texts: Seq<Seq<char>>) -> Result<BuilderView, ComponentError>
        decreases texts.len(),
    {
        if texts.len() == 0 {
            Ok(self)
        } else {
            match self.feed(LexemeView::Base(TokenView::Text(texts[0]))) {
                Ok((builder, _)) => builder.feed_texts(texts.skip(1)),
                Err(error) => Err(error),
            }
        }
    }
}

/// Text events that arrive one after the other while the innermost open
/// component is text whose content is a run of characters, or nothing yet,
/// leave one run of characters in it: the characters that were there
/// followed by the texts in order.
pub proof fn lemma_text_events_coalesce(
    builder: BuilderView,
    style: StyleView,
    content: TextPartView,
    texts: Seq<Seq<char>>,
)
    requires
        builder.stack.len() > 0,
        builder.stack.last() == ComponentView::Text(TextComponentView { style, content }),
        content is Empty || content is Raw,
        texts.len() > 0,
    ensures
        builder.feed_texts(texts) == Ok::<BuilderView, ComponentError>(
            BuilderView {
                stack: builder.stack.drop_last().push(
                    ComponentView::Text(
                        TextComponentView {
                            style,
                            content: TextPartView::Raw(run_of(content) + joined(texts)),
                        },
                    ),
                ),
                ..builder
            },
        ),
    decreases texts.len(),
{
    let first = TextPartView::Raw(run_of(content) + texts[0]);
    assert(content.write_str(texts[0]) == first) by {
        assert(Seq::<char>::empty() + texts[0] =~= texts[0]);
    }
    let written = ComponentView::Text(TextComponentView { style, content: first });
    let next = BuilderView { stack: builder.stack.drop_last().push(written), ..builder };
    assert(builder.feed(LexemeView::Base(TokenView::Text(texts[0]))) == Ok::<
        (BuilderView, Option<ComponentView>),
        ComponentError,
    >((next, None)));
    let rest = texts.skip(1);
    assert(builder.feed_texts(texts) == next.feed_texts(rest));
    if rest.len() == 0 {
        assert(next.feed_texts(rest) == Ok::<BuilderView, ComponentError>(next));
        assert(joined(rest) =~= Seq::<char>::empty());
        assert(run_of(content) + texts[0] =~= run_of(content) + joined(texts));
    } else {
        lemma_text_events_coalesce(next, style, first, rest);
        assert(next.stack.drop_last() =~= builder.stack.drop_last());
        assert((run_of(content) + texts[0]) + joined(rest) =~= run_of(content) + joined(texts));
    }
}

} // verus!
