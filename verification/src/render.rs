//! Rendering: from a finished tree to markup text.

use vstd::prelude::*;
use crate::text::{Style, StyleView, TextComponent, TextComponentView, TextPart, TextPartView};

verus! {

broadcast use vstd::string::group_string_axioms;

/// `String::push`: the string with the character added at its end.
#[verifier::external_body]
pub(crate) fn push_char(target: &mut String, ch: char)
    ensures
        final(target)@ == old(target)@.push(ch),
{
    target.push(ch)
}

/// What a character becomes in markup: the four characters that markup gives
/// a meaning to are named, every other character stands for itself.
pub open spec fn escape_char(c: char) -> Seq<char> {
    if c == '&' {
        "&amp;"@
    } else if c == '<' {
        "&lt;"@
    } else if c == '>' {
        "&gt;"@
    } else if c == '"' {
        "&quot;"@
    } else {
        seq![c]
    }
}

/// Text as it stands in markup, character by character.
pub open spec fn escape(text: Seq<char>) -> Seq<char>
    decreases text.len(),
{
    if text.len() == 0 {
        Seq::empty()
    } else {
        escape(text.drop_last()) + escape_char(text.last())
    }
}

/// Texts that stand in a row can be escaped one by one.
pub proof fn lemma_escape_concat(a: Seq<char>, b: Seq<char>)
    ensures
        escape(a + b) == escape(a) + escape(b),
    decreases b.len(),
{
    if b.len() == 0 {
        assert(a + b =~= a);
        assert(escape(a) + escape(b) =~= escape(a));
    } else {
        lemma_escape_concat(a, b.drop_last());
        assert((a + b).drop_last() =~= a + b.drop_last());
        assert((a + b).last() == b.last());
        assert(escape(a + b) =~= escape(a) + escape(b));
    }
}

/// Writes `text` to `target` as it stands in markup.
pub fn escape_into(target: &mut String, text: &str)
    ensures
        final(target)@ == old(target)@ + escape(text@),
{
    let ghost start = target@;
    assert(target@ =~= start + escape(text@.take(0)));
    for c in it: text.chars()
        invariant
            it.seq() == text@,
            target@ == start + escape(text@.take(it.index() as int)),
    {
        let ghost done = text@.take(it.index() as int);
        let ghost next = text@.take(it.index() + 1);
        assert(next.drop_last() =~= done);
        assert(next.last() == c);
        if c == '&' {
            target.append("&amp;");
        } else if c == '<' {
            target.append("&lt;");
        } else if c == '>' {
            target.append("&gt;");
        } else if c == '"' {
            target.append("&quot;");
        } else {
            push_char(target, c);
            assert(seq![c] =~= Seq::<char>::empty().push(c));
        }
        assert(target@ =~= start + escape(next));
    }
    assert(text@.take(text@.len() as int) =~= text@);
}

/// The digit that stands for a number below ten.
pub open spec fn digit(d: nat) -> char
    recommends
        d < 10,
{
    if d == 0 {
        '0'
    } else if d == 1 {
        '1'
    } else if d == 2 {
        '2'
    } else if d == 3 {
        '3'
    } else if d == 4 {
        '4'
    } else if d == 5 {
        '5'
    } else if d == 6 {
        '6'
    } else if d == 7 {
        '7'
    } else if d == 8 {
        '8'
    } else {
        '9'
    }
}

/// A number in decimal notation.
pub open spec fn decimal(n: nat) -> Seq<char>
    decreases n,
{
    if n < 10 {
        seq![digit(n)]
    } else {
        decimal(n / 10).push(digit(n % 10))
    }
}

/// Writes `n` to `target` in decimal notation.
pub fn write_decimal(target: &mut String, n: usize)
    ensures
        final(target)@ == old(target)@ + decimal(n as nat),
    decreases n,
{
    if n >= 10 {
        write_decimal(target, n / 10);
    }
    let d = n % 10;
    let c = if d == 0 {
        '0'
    } else if d == 1 {
        '1'
    } else if d == 2 {
        '2'
    } else if d == 3 {
        '3'
    } else if d == 4 {
        '4'
    } else if d == 5 {
        '5'
    } else if d == 6 {
        '6'
    } else if d == 7 {
        '7'
    } else if d == 8 {
        '8'
    } else {
        '9'
    };
    push_char(target, c);
    assert(final(target)@ =~= old(target)@ + decimal(n as nat));
}

impl StyleView {
    /// What stands before content of this style.
    pub open spec fn opening(self) -> Seq<char> {
        match self {
            StyleView::Plain => Seq::empty(),
            StyleView::Link(target) => "<a href=\""@ + target + "\">"@,
            _ => "<"@ + self.tag() + ">"@,
        }
    }

    /// What stands behind content of this style.
    pub open spec fn closing(self) -> Seq<char> {
        match self {
            StyleView::Plain => Seq::empty(),
            StyleView::Link(_) => "</a>"@,
            _ => "</"@ + self.tag() + ">"@,
        }
    }
}

/// Whether every style in a text part is well formed.
pub open spec fn part_wf(part: TextPartView) -> bool
    decreases part,
{
    match part {
        TextPartView::Chained(items) => parts_wf(items),
        TextPartView::Nested(inner) => text_wf(*inner),
        _ => true,
    }
}

/// Whether every style in each of the text parts is well formed.
pub open spec fn parts_wf(parts: Seq<TextPartView>) -> bool
    decreases parts,
{
    parts.len() == 0 || (parts_wf(parts.drop_last()) && part_wf(parts.last()))
}

/// Whether every style in a text component is well formed.
pub open spec fn text_wf(text: TextComponentView) -> bool
    decreases text,
{
    text.style.wf() && part_wf(text.content)
}

/// The markup of a text part. Characters are escaped, a line break becomes
/// a break element, a chain is the markup of its parts in order.
pub open spec fn part_markup(part: TextPartView) -> Seq<char>
    decreases part,
{
    match part {
        TextPartView::Empty => Seq::empty(),
        TextPartView::NewLine => "<br/>"@,
        TextPartView::Raw(content) => escape(content),
        TextPartView::Chained(items) => parts_markup(items),
        TextPartView::Nested(inner) => text_markup(*inner),
    }
}

/// The markup of text parts, one after the other.
pub open spec fn parts_markup(parts: Seq<TextPartView>) -> Seq<char>
    decreases parts,
{
    if parts.len() == 0 {
        Seq::empty()
    } else {
        parts_markup(parts.drop_last()) + part_markup(parts.last())
    }
}

/// The markup of a text component: its content between what its style puts
/// before and behind it.
pub open spec fn text_markup(text: TextComponentView) -> Seq<char>
    decreases text,
{
    text.style.opening() + part_markup(text.content) + text.style.closing()
}

/// Parts are well formed together exactly when each of them is.
pub proof fn lemma_parts_wf(parts: Seq<TextPartView>)
    ensures
        parts_wf(parts) <==> forall|i: int| 0 <= i < parts.len() ==> part_wf(#[trigger] parts[i]),
    decreases parts.len(),
{
    if parts.len() > 0 {
        lemma_parts_wf(parts.drop_last());
        if parts_wf(parts) {
            assert forall|i: int| 0 <= i < parts.len() implies part_wf(#[trigger] parts[i]) by {
                if i < parts.len() - 1 {
                    assert(parts.drop_last()[i] == parts[i]);
                }
            }
        } else if parts_wf(parts.drop_last()) {
            assert(!part_wf(parts[parts.len() - 1]));
        } else {
            let i = choose|i: int|
                0 <= i < parts.drop_last().len() && !part_wf(#[trigger] parts.drop_last()[i]);
            assert(parts.drop_last()[i] == parts[i]);
        }
    }
}

/// Whether every style in `part` is well formed.
#[verifier::loop_isolation(false)]
pub fn part_is_wf(part: &TextPart) -> (wf: bool)
    ensures
        wf == part_wf(part@),
    decreases part,
{
    match part {
        TextPart::Chained(items) => {
            let ghost views = part@->Chained_0;
            let mut i: usize = 0;
            while i < items.len()
                invariant
                    i <= items.len(),
                    parts_wf(views.take(i as int)),
                decreases items.len() - i,
            {
                assert(decreases_to!(*items => items[i as int]));
                let ghost next = views.take(i + 1);
                assert(next.drop_last() =~= views.take(i as int));
                assert(next.last() == items[i as int]@);
                if !part_is_wf(&items[i]) {
                    proof {
                        lemma_parts_wf(views);
                    }
                    return false;
                }
                i += 1;
            }
            assert(views.take(items.len() as int) =~= views);
            true
        },
        TextPart::Nested(inner) => text_is_wf(inner),
        _ => true,
    }
}

/// Whether every style in `text` is well formed.
pub fn text_is_wf(text: &TextComponent) -> (wf: bool)
    ensures
        wf == text_wf(text@),
    decreases text,
{
    let style_wf = match &text.style {
        Style::Heading(level) => 1 <= *level && *level <= 6,
        _ => true,
    };
    style_wf && part_is_wf(&text.content)
}

impl Style {
    /// Writes `content` to `writer` in this style: bare if the style is
    /// plain, inside an anchor for a link, and inside the style's element
    /// otherwise.
    pub fn render_content(&self, content: &TextPart, writer: &mut String)
        requires
            self@.wf(),
            part_wf(content@),
        ensures
            final(writer)@ == old(writer)@ + self@.opening() + part_markup(content@)
                + self@.closing(),
        decreases content, 1int,
    {
        match self {
            Style::Plain => {
                emit_part(content, writer);
            },
            Style::Link(target) => {
                writer.append("<a href=\"");
                writer.append(target.as_str());
                writer.append("\">");
                emit_part(content, writer);
                writer.append("</a>");
            },
            _ => {
                let tag = self.tag();
                writer.append("<");
                writer.append(tag);
                writer.append(">");
                emit_part(content, writer);
                writer.append("</");
                writer.append(tag);
                writer.append(">");
            },
        }
        assert(final(writer)@ =~= old(writer)@ + self@.opening() + part_markup(content@)
            + self@.closing());
    }
}

/// Writes the markup of `part` to `out`.
#[verifier::loop_isolation(false)]
pub fn emit_part(part: &TextPart, out: &mut String)
    requires
        part_wf(part@),
    ensures
        final(out)@ == old(out)@ + part_markup(part@),
    decreases part, 0int,
{
    match part {
        TextPart::Empty => {
            assert(out@ =~= old(out)@ + part_markup(part@));
        },
        TextPart::NewLine => {
            out.append("<br/>");
        },
        TextPart::Raw(content) => {
            escape_into(out, content.as_str());
        },
        TextPart::Chained(items) => {
            let ghost start = out@;
            let ghost views = part@->Chained_0;
            let mut i: usize = 0;
            assert(out@ =~= start + parts_markup(views.take(0)));
            while i < items.len()
                invariant
                    i <= items.len(),
                    part == TextPart::Chained(*items),
                    views == part@->Chained_0,
                    part_wf(part@),
                    out@ == start + parts_markup(views.take(i as int)),
                decreases items.len() - i,
            {
                assert(decreases_to!(*items => items[i as int]));
                proof {
                    lemma_parts_wf(views);
                    assert(views[i as int] == items[i as int]@);
                }
                emit_part(&items[i], out);
                proof {
                    let next = views.take(i + 1);
                    assert(next.drop_last() =~= views.take(i as int));
                    assert(next.last() == items[i as int]@);
                    assert(out@ =~= start + parts_markup(next));
                }
                i += 1;
            }
            assert(views.take(items.len() as int) =~= views);
        },
        TextPart::Nested(inner) => {
            emit_text(inner, out);
        },
    }
}

/// Writes the markup of `text` to `out`.
pub fn emit_text(text: &TextComponent, out: &mut String)
    requires
        text_wf(text@),
    ensures
        final(out)@ == old(out)@ + text_markup(text@),
    decreases text, 0int,
{
    text.style.render_content(&text.content, out);
    assert(final(out)@ =~= old(out)@ + text_markup(text@));
}

} // verus!
