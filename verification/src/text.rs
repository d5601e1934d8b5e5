//! Styled text: the recursive content of paragraphs, headings and spans, and
//! the rules by which text is accumulated into it.

use vstd::prelude::*;

verus! {

/// How a run of text is presented.
#[derive(Debug, PartialEq, Eq, Default)]
pub enum Style {
    /// No presentation of its own: the content stands bare.
    #[default]
    Plain,
    Span,
    Paragraph,
    /// A heading of level 1 to 6.
    Heading(u8),
    Emphasis,
    Strong,
    /// A hyperlink to the given target.
    Link(String),
    Code,
    Strikethrough,
    Highlight,
    Superscript,
    Subscript,
}

/// The mathematical value of a [`Style`].
pub enum StyleView {
    Plain,
    Span,
    Paragraph,
    Heading(u8),
    Emphasis,
    Strong,
    Link(Seq<char>),
    Code,
    Strikethrough,
    Highlight,
    Superscript,
    Subscript,
}

impl View for Style {
    type V = StyleView;

    open spec fn view(&self) -> StyleView {
        match self {
            Style::Plain => StyleView::Plain,
            Style::Span => StyleView::Span,
            Style::Paragraph => StyleView::Paragraph,
            Style::Heading(level) => StyleView::Heading(*level),
            Style::Emphasis => StyleView::Emphasis,
            Style::Strong => StyleView::Strong,
            Style::Link(target) => StyleView::Link(target@),
            Style::Code => StyleView::Code,
            Style::Strikethrough => StyleView::Strikethrough,
            Style::Highlight => StyleView::Highlight,
            Style::Superscript => StyleView::Superscript,
            Style::Subscript => StyleView::Subscript,
        }
    }
}

impl StyleView {
    /// A heading's level lies between 1 and 6; every other style is always
    /// well formed.
    pub open spec fn wf(self) -> bool {
        match self {
            StyleView::Heading(level) => 1 <= level <= 6,
            _ => true,
        }
    }

    /// The name of the element that wraps content of this style.
    pub open spec fn tag(self) -> Seq<char> {
        match self {
            StyleView::Plain => "span"@,
            StyleView::Span => "span"@,
            StyleView::Paragraph => "p"@,
            StyleView::Heading(level) => if level == 1 {
                "h1"@
            } else if level == 2 {
                "h2"@
            } else if level == 3 {
                "h3"@
            } else if level == 4 {
                "h4"@
            } else if level == 5 {
                "h5"@
            } else {
                "h6"@
            },
            StyleView::Emphasis => "em"@,
            StyleView::Strong => "strong"@,
            StyleView::Link(_) => "a"@,
            StyleView::Code => "code"@,
            StyleView::Strikethrough => "del"@,
            StyleView::Highlight => "mark"@,
            StyleView::Superscript => "sup"@,
            StyleView::Subscript => "sub"@,
        }
    }
}

impl Clone for Style {
    fn clone(&self) -> (copy: Self)
        ensures
            copy@ == self@,
    {
        match self {
            Style::Plain => Style::Plain,
            Style::Span => Style::Span,
            Style::Paragraph => Style::Paragraph,
            Style::Heading(level) => Style::Heading(*level),
            Style::Emphasis => Style::Emphasis,
            Style::Strong => Style::Strong,
            Style::Link(target) => Style::Link(target.clone()),
            Style::Code => Style::Code,
            Style::Strikethrough => Style::Strikethrough,
            Style::Highlight => Style::Highlight,
            Style::Superscript => Style::Superscript,
            Style::Subscript => Style::Subscript,
        }
    }
}

impl Style {
    /// The name of the element that wraps content of this style.
    pub fn tag(&self) -> (tag: &'static str)
        requires
            self@.wf(),
        ensures
            tag@ == self@.tag(),
    {
        match self {
            Style::Plain => "span",
            Style::Span => "span",
            Style::Paragraph => "p",
            Style::Heading(level) => if *level == 1 {
                "h1"
            } else if *level == 2 {
                "h2"
            } else if *level == 3 {
                "h3"
            } else if *level == 4 {
                "h4"
            } else if *level == 5 {
                "h5"
            } else {
                "h6"
            },
            Style::Emphasis => "em",
            Style::Strong => "strong",
            Style::Link(_) => "a",
            Style::Code => "code",
            Style::Strikethrough => "del",
            Style::Highlight => "mark",
            Style::Superscript => "sup",
            Style::Subscript => "sub",
        }
    }

    /// Duplicates a style that carries no owned data. A link owns its target
    /// and is not duplicated this way.
    pub fn copy(&self) -> (copy: Option<Style>)
        ensures
            self@ is Link <==> copy is None,
            copy is Some ==> copy->0@ == self@,
    {
        match self {
            Style::Link(_) => None,
            _ => Some(self.clone()),
        }
    }
}

/// A piece of text content.
#[derive(Debug, PartialEq, Eq, Default)]
pub enum TextPart {
    #[default]
    Empty,
    /// A line break.
    NewLine,
    /// A run of characters.
    Raw(String),
    /// Parts in sequence.
    Chained(Vec<TextPart>),
    /// A styled component inside the text.
    Nested(Box<TextComponent>),
}

/// Text content together with the style it is presented in.
#[derive(Debug, Clone, PartialEq, Eq, Default)]
pub struct TextComponent {
    pub style: Style,
    pub content: TextPart,
}

/// The mathematical value of a [`TextPart`].
pub enum TextPartView {
    Empty,
    NewLine,
    Raw(Seq<char>),
    Chained(Seq<TextPartView>),
    Nested(Box<TextComponentView>),
}

/// The mathematical value of a [`TextComponent`].
pub struct TextComponentView {
    pub style: StyleView,
    pub content: TextPartView,
}

/// The value of a text part, part by part.
pub open spec fn part_view(part: TextPart) -> TextPartView
    decreases part,
{
    match part {
        TextPart::Empty => TextPartView::Empty,
        TextPart::NewLine => TextPartView::NewLine,
        TextPart::Raw(text) => TextPartView::Raw(text@),
        TextPart::Chained(items) => TextPartView::Chained(parts_view(items@)),
        TextPart::Nested(inner) => TextPartView::Nested(Box::new(component_view(*inner))),
    }
}

/// The values of a sequence of text parts.
pub open spec fn parts_view(parts: Seq<TextPart>) -> Seq<TextPartView>
    decreases parts,
{
    Seq::new(
        parts.len(),
        |i: int|
            if 0 <= i < parts.len() {
                part_view(parts[i])
            } else {
                TextPartView::Empty
            },
    )
}

/// The value of a text component.
pub open spec fn component_view(component: TextComponent) -> TextComponentView
    decreases component,
{
    TextComponentView { style: component.style@, content: part_view(component.content) }
}

impl View for TextPart {
    type V = TextPartView;

    open spec fn view(&self) -> TextPartView {
        part_view(*self)
    }
}

impl View for TextComponent {
    type V = TextComponentView;

    open spec fn view(&self) -> TextComponentView {
        component_view(*self)
    }
}

/// A structural copy of a text part.
#[verifier::loop_isolation(false)]
fn clone_part(part: &TextPart) -> (copy: TextPart)
    ensures
        copy@ == part@,
    decreases part,
{
    match part {
        TextPart::Empty => TextPart::Empty,
        TextPart::NewLine => TextPart::NewLine,
        TextPart::Raw(text) => TextPart::Raw(text.clone()),
        TextPart::Chained(items) => {
            let mut copies: Vec<TextPart> = Vec::new();
            let mut i: usize = 0;
            while i < items.len()
                invariant
                    i <= items.len(),
                    copies@.len() == i,
                    forall|k: int| 0 <= k < i ==> (#[trigger] copies@[k])@ == items@[k]@,
                    part == TextPart::Chained(*items),
                decreases items.len() - i,
            {
                assert(decreases_to!(*items => items[i as int]));
                let copy = clone_part(&items[i]);
                copies.push(copy);
                i += 1;
            }
            assert(parts_view(copies@) =~= parts_view(items@));
            TextPart::Chained(copies)
        },
        TextPart::Nested(inner) => TextPart::Nested(
            Box::new(
                TextComponent { style: inner.style.clone(), content: clone_part(&inner.content) },
            ),
        ),
    }
}

impl Clone for TextPart {
    fn clone(&self) -> (copy: Self)
        ensures
            copy@ == self@,
    {
        clone_part(self)
    }
}

impl TextPartView {
    /// The style that wraps this part: that of a nested component, and
    /// `Plain` for every other part.
    pub open spec fn wrapper(self) -> StyleView {
        match self {
            TextPartView::Nested(inner) => inner.style,
            _ => StyleView::Plain,
        }
    }

    /// The parts directly below this one.
    pub open spec fn children(self) -> Seq<TextPartView> {
        match self {
            TextPartView::Chained(items) => items,
            TextPartView::Nested(inner) => seq![inner.content],
            _ => Seq::empty(),
        }
    }

    /// What `take_inner` hands out.
    pub open spec fn inner(self) -> TextPartView {
        match self {
            TextPartView::Chained(_) => self,
            TextPartView::Nested(inner) => inner.content,
            _ => TextPartView::Empty,
        }
    }

    /// What `take_inner` leaves behind.
    pub open spec fn without_inner(self) -> TextPartView {
        match self {
            TextPartView::Chained(_) => TextPartView::Empty,
            TextPartView::Nested(inner) => TextPartView::Nested(
                Box::new(TextComponentView { style: inner.style, content: TextPartView::Empty }),
            ),
            _ => self,
        }
    }

    /// This part with `child` added as its last piece of content.
    pub open spec fn append(self, child: TextPartView) -> TextPartView
        decreases self,
    {
        match self {
            TextPartView::Empty => child,
            TextPartView::Raw(_) | TextPartView::NewLine => TextPartView::Chained(
                seq![self, child],
            ),
            TextPartView::Chained(items) => TextPartView::Chained(items.push(child)),
            TextPartView::Nested(inner) => TextPartView::Nested(
                Box::new(
                    TextComponentView {
                        style: inner.style,
                        content: inner.content.append(child),
                    },
                ),
            ),
        }
    }

    /// This part with the characters `text` written at its end. A run of
    /// characters grows in place; nothing else absorbs them.
    pub open spec fn write_str(self, text: Seq<char>) -> TextPartView
        decreases self,
    {
        match self {
            TextPartView::Empty => TextPartView::Raw(text),
            TextPartView::NewLine => TextPartView::Chained(
                seq![TextPartView::NewLine, TextPartView::Raw(text)],
            ),
            TextPartView::Raw(content) => TextPartView::Raw(content + text),
            TextPartView::Chained(items) => TextPartView::Chained(
                items.push(TextPartView::Raw(text)),
            ),
            TextPartView::Nested(inner) => TextPartView::Nested(
                Box::new(
                    TextComponentView {
                        style: inner.style,
                        content: inner.content.write_str(text),
                    },
                ),
            ),
        }
    }
}

impl TextPart {
    /// The style of the component nested here, if this part is one.
    pub fn wrapper_ref(&self) -> (style: Option<&Style>)
        ensures
            style is Some <==> self@ is Nested,
            style is Some ==> style->0@ == self@.wrapper(),
    {
        match self {
            TextPart::Nested(text) => Some(&text.style),
            _ => None,
        }
    }

    /// The style that wraps this part.
    pub fn wrapper(&self) -> (style: Style)
        ensures
            style@ == self@.wrapper(),
    {
        match self {
            TextPart::Nested(text) => text.style.clone(),
            _ => Style::Plain,
        }
    }

    /// The parts directly below this one, in order.
    pub fn children(&self) -> (children: Vec<&TextPart>)
        ensures
            children@.len() == self@.children().len(),
            forall|i: int| 0 <= i < children@.len() ==> (#[trigger] children@[i])@ == self@.children()[i],
    {
        match self {
            TextPart::Chained(items) => {
                let mut children: Vec<&TextPart> = Vec::new();
                let mut i: usize = 0;
                while i < items.len()
                    invariant
                        i <= items.len(),
                        children@.len() == i,
                        forall|k: int| 0 <= k < i ==> *(#[trigger] children@[k]) == items@[k],
                    decreases items.len() - i,
                {
                    children.push(&items[i]);
                    i += 1;
                }
                children
            },
            TextPart::Nested(text) => {
                let mut children: Vec<&TextPart> = Vec::new();
                children.push(&text.content);
                children
            },
            _ => Vec::new(),
        }
    }

    /// Moves the content below this part out of it: a chain leaves as a
    /// whole, a nested component gives up its content, and any other part
    /// has nothing to give.
    pub fn take_inner(&mut self) -> (inner: TextPart)
        ensures
            inner@ == old(self)@.inner(),
            final(self)@ == old(self)@.without_inner(),
    {
        proof {
            reveal_with_fuel(part_view, 2);
        }
        let mut taken = TextPart::Empty;
        match self {
            TextPart::Chained(_) => {
                std::mem::swap(self, &mut taken);
            },
            TextPart::Nested(text) => {
                std::mem::swap(&mut text.content, &mut taken);
            },
            _ => {},
        }
        taken
    }

    /// Adds `child` as the last piece of content.
    pub fn append(&mut self, child: TextPart)
        ensures
            final(self)@ == old(self)@.append(child@),
        decreases *old(self),
    {
        match self {
            TextPart::Empty => {
                *self = child;
            },
            TextPart::Raw(_) | TextPart::NewLine => {
                let mut content = TextPart::Empty;
                std::mem::swap(self, &mut content);
                let mut items: Vec<TextPart> = Vec::new();
                items.push(content);
                items.push(child);
                assert(parts_view(items@) =~= seq![old(self)@, child@]);
                *self = TextPart::Chained(items);
            },
            TextPart::Chained(items) => {
                let ghost before = items@;
                items.push(child);
                assert(parts_view(items@) =~= parts_view(before).push(child@));
            },
            TextPart::Nested(component) => {
                component.content.append(child);
            },
        }
    }

    /// Writes the characters of `value` at the end of this part.
    pub fn write_str(&mut self, value: &str)
        ensures
            final(self)@ == old(self)@.write_str(value@),
        decreases *old(self),
    {
        match self {
            TextPart::Empty => {
                *self = TextPart::Raw(value.to_owned());
            },
            TextPart::NewLine => {
                let mut items: Vec<TextPart> = Vec::new();
                items.push(TextPart::NewLine);
                items.push(TextPart::Raw(value.to_owned()));
                assert(parts_view(items@) =~= seq![TextPartView::NewLine, TextPartView::Raw(value@)]);
                *self = TextPart::Chained(items);
            },
            TextPart::Raw(content) => {
                content.append(value);
            },
            TextPart::Chained(items) => {
                let ghost before = items@;
                items.push(TextPart::Raw(value.to_owned()));
                assert(parts_view(items@) =~= parts_view(before).push(TextPartView::Raw(value@)));
            },
            TextPart::Nested(text) => {
                text.content.write_str(value);
            },
        }
    }
}

/// What can be pushed into a text component: characters, or a part of text.
#[derive(Debug)]
pub enum TextValue {
    /// Characters, which join the run of characters at the end of the content.
    Raw(String),
    /// A part, which becomes the last piece of the content.
    Segment(TextPart),
}

impl TextValue {
    /// A whole component as a value to push: it is nested, whatever its style.
    pub fn nested(component: TextComponent) -> (value: TextValue)
        ensures
            value matches TextValue::Segment(part) && part@ == TextPartView::Nested(
                Box::new(component@),
            ),
    {
        TextValue::Segment(TextPart::Nested(Box::new(component)))
    }
}

impl TextComponentView {
    /// The component after the characters `text` were pushed into it.
    pub open spec fn write_str(self, text: Seq<char>) -> TextComponentView {
        TextComponentView { style: self.style, content: self.content.write_str(text) }
    }

    /// The component after `part` was pushed into it.
    pub open spec fn append(self, part: TextPartView) -> TextComponentView {
        TextComponentView { style: self.style, content: self.content.append(part) }
    }

    /// Unstyled text holding the characters `text`.
    pub open spec fn plain(text: Seq<char>) -> TextComponentView {
        TextComponentView { style: StyleView::Plain, content: TextPartView::Raw(text) }
    }

    /// The part that stands for this component inside other text: the
    /// component itself when it has a style, and only its content when it
    /// has none.
    pub open spec fn as_part(self) -> TextPartView {
        if self.style is Plain {
            self.content
        } else {
            TextPartView::Nested(Box::new(self))
        }
    }
}

impl TextPartView {
    /// The component that stands for this part on its own: a nested
    /// component is unwrapped, any other part becomes unstyled text.
    pub open spec fn as_component(self) -> TextComponentView {
        match self {
            TextPartView::Nested(inner) => *inner,
            _ => TextComponentView { style: StyleView::Plain, content: self },
        }
    }
}

impl TextComponent {
    /// Unstyled text without content.
    pub fn empty() -> (component: TextComponent)
        ensures
            component@ == (TextComponentView {
                style: StyleView::Plain,
                content: TextPartView::Empty,
            }),
    {
        TextComponent { style: Style::Plain, content: TextPart::Empty }
    }

    /// Unstyled text holding `content`.
    pub fn new(content: &str) -> (component: TextComponent)
        ensures
            component@ == TextComponentView::plain(content@),
    {
        TextComponent { style: Style::Plain, content: TextPart::Raw(content.to_owned()) }
    }

    /// Text of the given style, without content yet.
    pub fn new_styled(style: Style) -> (component: TextComponent)
        ensures
            component@ == (TextComponentView { style: style@, content: TextPartView::Empty }),
    {
        TextComponent { style, content: TextPart::Empty }
    }

    /// A link to `target` whose text is `content`.
    pub fn new_link(target: &str, content: &str) -> (component: TextComponent)
        ensures
            component@ == (TextComponentView {
                style: StyleView::Link(target@),
                content: TextPartView::Raw(content@),
            }),
    {
        TextComponent {
            style: Style::Link(target.to_owned()),
            content: TextPart::Raw(content.to_owned()),
        }
    }

    /// Unstyled text whose content is the chain of `items`, in order.
    pub fn new_chained(items: Vec<TextPart>) -> (component: TextComponent)
        ensures
            component@ == (TextComponentView {
                style: StyleView::Plain,
                content: TextPartView::Chained(parts_view(items@)),
            }),
    {
        TextComponent { style: Style::Plain, content: TextPart::Chained(items) }
    }

    /// Pushes `value` into the content: characters are written at its end,
    /// a part is appended to it.
    pub fn push(&mut self, value: TextValue)
        ensures
            final(self)@ == (match value {
                TextValue::Raw(text) => old(self)@.write_str(text@),
                TextValue::Segment(part) => old(self)@.append(part@),
            }),
    {
        match value {
            TextValue::Raw(text) => self.content.write_str(text.as_str()),
            TextValue::Segment(part) => self.content.append(part),
        }
    }

    /// The part that stands for this component inside other text.
    pub fn into_part(self) -> (part: TextPart)
        ensures
            part@ == self@.as_part(),
    {
        match self.style {
            Style::Plain => self.content,
            _ => TextPart::Nested(Box::new(self)),
        }
    }
}

impl TextPart {
    /// A run of the characters of `text`.
    pub fn raw(text: &str) -> (part: TextPart)
        ensures
            part@ == TextPartView::Raw(text@),
    {
        TextPart::Raw(text.to_owned())
    }

    /// The component that stands for this part on its own.
    pub fn into_component(self) -> (component: TextComponent)
        ensures
            component@ == self@.as_component(),
    {
        match self {
            TextPart::Nested(inner) => *inner,
            content => TextComponent { style: Style::Plain, content },
        }
    }
}

impl From<TextComponent> for TextPart {
    /// The part that stands for the component inside other text.
    fn from(value: TextComponent) -> (part: TextPart)
        ensures
            part@ == value@.as_part(),
    {
        match value.style {
            Style::Plain => value.content,
            _ => TextPart::Nested(Box::new(value)),
        }
    }
}

impl vstd::std_specs::convert::FromSpecImpl<TextComponent> for TextPart {
    open spec fn obeys_from_spec() -> bool {
        true
    }

    open spec fn from_spec(value: TextComponent) -> TextPart {
        match value.style {
            Style::Plain => value.content,
            _ => TextPart::Nested(Box::new(value)),
        }
    }
}

impl From<TextPart> for TextComponent {
    /// The component that stands for the part on its own.
    fn from(value: TextPart) -> (component: TextComponent)
        ensures
            component@ == value@.as_component(),
    {
        match value {
            TextPart::Nested(inner) => *inner,
            content => TextComponent { style: Style::Plain, content },
        }
    }
}

impl vstd::std_specs::convert::FromSpecImpl<TextPart> for TextComponent {
    open spec fn obeys_from_spec() -> bool {
        true
    }

    open spec fn from_spec(value: TextPart) -> TextComponent {
        match value {
            TextPart::Nested(inner) => *inner,
            content => TextComponent { style: Style::Plain, content },
        }
    }
}

impl From<String> for TextPart {
    /// A run of the characters of the string.
    fn from(value: String) -> (part: TextPart)
        ensures
            part@ == TextPartView::Raw(value@),
    {
        TextPart::Raw(value)
    }
}

impl vstd::std_specs::convert::FromSpecImpl<String> for TextPart {
    open spec fn obeys_from_spec() -> bool {
        true
    }

    open spec fn from_spec(value: String) -> TextPart {
        TextPart::Raw(value)
    }
}

/// Adds a mutable reference to each of `items` to `out`, in order.
fn collect_mut<'a>(items: &'a mut [TextPart], out: &mut Vec<&'a mut TextPart>)
    ensures
        final(out)@.len() == old(out)@.len() + old(items)@.len(),
        forall|i: int| 0 <= i < old(out)@.len() ==> final(out)@[i] == old(out)@[i],
        forall|i: int|
            0 <= i < old(items)@.len() ==> *(#[trigger] final(out)@[old(out)@.len() + i]) == old(items)@[i],
        final(items)@.len() == old(items)@.len(),
        forall|i: int|
            0 <= i < old(items)@.len() ==> #[trigger] final(items)@[i] == *final(final(out)@[old(out)@.len() + i]),
    decreases old(items)@.len(),
{
    if items.len() > 0 {
        let ghost before = out@.len();
        let (head, tail) = items.split_at_mut(1);
        match head.first_mut() {
            Some(first) => {
                out.push(first);
            },
            None => {},
        }
        let ghost first = out@[before as int];
        collect_mut(tail, out);
        proof {
            assert forall|i: int| 0 <= i < old(items)@.len() implies *(#[trigger] final(out)@[before
                + i]) == old(items)@[i] by {
                if i > 0 {
                    assert(final(out)@[(before + 1) + (i - 1)] == final(out)@[before + i]);
                } else {
                    assert(final(out)@[before as int] == first);
                }
            }
        }
    }
}

impl TextPartView {
    /// This part without what stands directly below it.
    pub open spec fn shell(self) -> TextPartView {
        match self {
            TextPartView::Chained(_) => TextPartView::Chained(Seq::empty()),
            TextPartView::Nested(inner) => TextPartView::Nested(
                Box::new(TextComponentView { style: inner.style, content: TextPartView::Empty }),
            ),
            _ => self,
        }
    }
}

impl TextPart {
    /// The parts directly below this one, in order, for changing them. What
    /// the references come to hold is what this part holds below it
    /// afterwards; nothing else of the part changes.
    pub fn children_mut(&mut self) -> (children: Vec<&mut TextPart>)
        ensures
            children@.len() == old(self)@.children().len(),
            forall|i: int|
                0 <= i < children@.len() ==> (*(#[trigger] children@[i]))@ == old(self)@.children()[i],
            final(self)@.shell() == old(self)@.shell(),
            final(self)@.children().len() == children@.len(),
            forall|i: int|
                0 <= i < children@.len() ==> #[trigger] final(self)@.children()[i] == (*final(children@[i]))@,
    {
        let mut children: Vec<&mut TextPart> = Vec::new();
        match self {
            TextPart::Chained(items) => {
                collect_mut(items.as_mut_slice(), &mut children);
            },
            TextPart::Nested(text) => {
                children.push(&mut text.content);
            },
            _ => {},
        }
        proof {
            assert forall|i: int| 0 <= i < children@.len() implies (*(#[trigger] children@[i]))@
                == old(self)@.children()[i] by {
                match *old(self) {
                    TextPart::Chained(items) => {
                        assert(*children@[0 + i] == items@[i]);
                        assert(parts_view(items@)[i] == items@[i]@);
                    },
                    TextPart::Nested(text) => {
                        assert(*children@[0] == text.content);
                    },
                    _ => {},
                }
            }
        }
        children
    }
}

} // verus!
