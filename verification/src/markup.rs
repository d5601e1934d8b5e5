//! The markup of a document tree, and the functions that write it.

use vstd::prelude::*;
use crate::component::{
    posts_view, rows_view, Alignment, ComponentView, LatexComponent, ListComponent,
    PostComponent, TableComponent, TableView,
};
use crate::error::{ComponentError, Violation};
use crate::render::{
    decimal, emit_part, emit_text, part_is_wf, part_markup, part_wf, text_is_wf, text_markup,
    text_wf, write_decimal,
};
use crate::text::{TextComponent, TextPart};
use crate::util::{is_identifier, random_id};

verus! {

impl Alignment {
    /// The style declaration that aligns a column this way.
    pub open spec fn css(self) -> Option<Seq<char>> {
        match self {
            Alignment::Unaligned => None,
            Alignment::Left => Some("text-align:left;"@),
            Alignment::Center => Some("text-align:center;"@),
            Alignment::Right => Some("text-align:right;"@),
        }
    }

    /// The style declaration that aligns a column this way, or `None` for a
    /// column that keeps the default.
    pub fn as_css(&self) -> (css: Option<&'static str>)
        ensures
            css is Some <==> self.css() is Some,
            css is Some ==> css->0@ == self.css()->0,
    {
        match self {
            Alignment::Unaligned => None,
            Alignment::Left => Some("text-align:left;"),
            Alignment::Center => Some("text-align:center;"),
            Alignment::Right => Some("text-align:right;"),
        }
    }
}

/// Whether some column has an alignment of its own.
pub open spec fn is_aligned(alignment: Seq<Alignment>) -> bool {
    exists|i: int| 0 <= i < alignment.len() && #[trigger] alignment[i] != Alignment::Unaligned
}

/// The first reason, in document order, why a component cannot be rendered:
/// a placeholder that was left in the tree, or text with a heading level
/// that does not exist.
pub open spec fn fault(component: ComponentView) -> Option<Violation>
    decreases component,
{
    match component {
        ComponentView::Placeholder => Some(Violation::Placeholder),
        ComponentView::Text(text) => text_fault(text_wf(text)),
        ComponentView::Footnote { text, .. } => text_fault(text_wf(text)),
        ComponentView::BlockQuote(items) => faults(items),
        ComponentView::Chained(items) => faults(items),
        ComponentView::List(list) => faults(list.items),
        ComponentView::Table(table) => match faults(table.headers) {
            Some(violation) => Some(violation),
            None => row_faults(table.rows),
        },
        _ => None,
    }
}

/// The fault of text, given whether its styles are well formed.
pub open spec fn text_fault(wf: bool) -> Option<Violation> {
    if wf {
        None
    } else {
        Some(Violation::HeadingLevel)
    }
}

/// The first fault among components, in order.
pub open spec fn faults(components: Seq<ComponentView>) -> Option<Violation>
    decreases components,
{
    if components.len() == 0 {
        None
    } else {
        match faults(components.drop_last()) {
            Some(violation) => Some(violation),
            None => fault(components.last()),
        }
    }
}

/// The first fault among the rows of a table, in order.
pub open spec fn row_faults(rows: Seq<Seq<ComponentView>>) -> Option<Violation>
    decreases rows,
{
    if rows.len() == 0 {
        None
    } else {
        match row_faults(rows.drop_last()) {
            Some(violation) => Some(violation),
            None => faults(rows.last()),
        }
    }
}

/// How many identifiers the markup of a component takes: one for each table
/// in it that has an aligned column.
pub open spec fn demand(component: ComponentView) -> nat
    decreases component,
{
    match component {
        ComponentView::BlockQuote(items) => demand_all(items),
        ComponentView::Chained(items) => demand_all(items),
        ComponentView::List(list) => demand_all(list.items),
        ComponentView::Table(table) => own_demand(table.alignment) + demand_all(table.headers)
            + demand_rows(table.rows),
        _ => 0,
    }
}

/// How many identifiers a table with these alignments takes for itself.
pub open spec fn own_demand(alignment: Seq<Alignment>) -> nat {
    if is_aligned(alignment) {
        1
    } else {
        0
    }
}

/// How many identifiers the markup of the components takes together.
pub open spec fn demand_all(components: Seq<ComponentView>) -> nat
    decreases components,
{
    if components.len() == 0 {
        0
    } else {
        demand_all(components.drop_last()) + demand(components.last())
    }
}

/// How many identifiers the markup of the rows takes together.
pub open spec fn demand_rows(rows: Seq<Seq<ComponentView>>) -> nat
    decreases rows,
{
    if rows.len() == 0 {
        0
    } else {
        demand_rows(rows.drop_last()) + demand_all(rows.last())
    }
}

/// The opening tag of a list: numbered lists that do not start at zero say
/// where they start.
pub open spec fn list_opening(numbered: Option<usize>) -> Seq<char> {
    match numbered {
        Some(first) => if first > 0 {
            "<ol start=\""@ + decimal(first as nat) + "\">"@
        } else {
            "<ol>"@
        },
        None => "<ul>"@,
    }
}

/// The closing tag of a list.
pub open spec fn list_closing(numbered: Option<usize>) -> Seq<char> {
    if numbered is Some {
        "</ol>"@
    } else {
        "</ul>"@
    }
}

/// The style rule for column `column` (counted from one) of the table
/// `id`, if the column is aligned.
pub open spec fn rule(id: Seq<char>, column: nat, alignment: Alignment) -> Seq<char> {
    match alignment.css() {
        Some(css) => "table#"@ + id + " td:nth-child("@ + decimal(column) + "){"@ + css + "}"@,
        None => Seq::empty(),
    }
}

/// The style rules of the table `id`, one for each aligned column.
pub open spec fn rules(id: Seq<char>, alignment: Seq<Alignment>) -> Seq<char>
    decreases alignment.len(),
{
    if alignment.len() == 0 {
        Seq::empty()
    } else {
        rules(id, alignment.drop_last()) + rule(id, alignment.len(), alignment.last())
    }
}

/// The markup of a component. Tables that need an identifier take them from
/// `ids`, in document order.
pub open spec fn markup(component: ComponentView, ids: Seq<Seq<char>>) -> Seq<char>
    decreases component,
{
    match component {
        ComponentView::Placeholder => Seq::empty(),
        ComponentView::Text(text) => text_markup(text),
        ComponentView::BlockQuote(items) => "<blockquote>"@ + wrapped(
            items,
            ids,
            Seq::empty(),
            Seq::empty(),
        ) + "</blockquote>"@,
        ComponentView::Image { source, alt } => "<img src=\""@ + source + "\""@ + (match alt {
            Some(alt) => " alt=\""@ + alt + "\""@,
            None => Seq::empty(),
        }) + "/>"@,
        ComponentView::CodeBlock { language, content } => "<pre><code class=\"block"@
            + (match language {
            Some(language) => " language-"@ + language,
            None => Seq::empty(),
        }) + "\">"@ + content + "</code></pre>"@,
        ComponentView::List(list) => list_opening(list.numbered) + wrapped(
            list.items,
            ids,
            "<li>"@,
            "</li>"@,
        ) + list_closing(list.numbered),
        ComponentView::HorizonalRule => "<hr/>"@,
        ComponentView::Table(table) => table_markup(table, ids),
        ComponentView::Footnote { id, text } => "<aside id=\"footnote-"@ + id
            + "\"><span class=\"fn-id\">"@ + id + ":</span> "@ + text_markup(text) + "</aside>"@,
        ComponentView::Latex(latex) => "<code data-lang=\"latex\">"@ + latex.source + "</code>"@,
        ComponentView::Chained(items) => wrapped(items, ids, Seq::empty(), Seq::empty()),
        ComponentView::Raw(markup) => markup,
    }
}

/// The markup of a table. A table with an aligned column carries the first
/// identifier and is followed by a style sheet with one rule for each
/// aligned column; a table without one has neither.
pub open spec fn table_markup(table: TableView, ids: Seq<Seq<char>>) -> Seq<char>
    decreases table,
{
    let rest = ids.skip(own_demand(table.alignment) as int);
    let body = "<thead>"@ + wrapped(table.headers, rest, "<td>"@, "</td>"@) + "</thead>"@
        + "<tbody>"@ + rows_markup(table.rows, rest.skip(demand_all(table.headers) as int))
        + "</tbody>"@ + "</table>"@;
    if is_aligned(table.alignment) {
        "<table id=\""@ + ids[0] + "\">"@ + body + "<style>"@ + rules(ids[0], table.alignment)
            + "</style>"@
    } else {
        "<table>"@ + body
    }
}

/// The markup of components in order, each between `open` and `close`.
pub open spec fn wrapped(
    components: Seq<ComponentView>,
    ids: Seq<Seq<char>>,
    open: Seq<char>,
    close: Seq<char>,
) -> Seq<char>
    decreases components,
{
    if components.len() == 0 {
        Seq::empty()
    } else {
        wrapped(components.drop_last(), ids, open, close) + open + markup(
            components.last(),
            ids.skip(demand_all(components.drop_last()) as int),
        ) + close
    }
}

/// The markup of the body rows of a table.
pub open spec fn rows_markup(rows: Seq<Seq<ComponentView>>, ids: Seq<Seq<char>>) -> Seq<char>
    decreases rows,
{
    if rows.len() == 0 {
        Seq::empty()
    } else {
        rows_markup(rows.drop_last(), ids) + "<tr>"@ + wrapped(
            rows.last(),
            ids.skip(demand_rows(rows.drop_last()) as int),
            "<td>"@,
            "</td>"@,
        ) + "</tr>"@
    }
}

/// The identifiers from position `cursor` on, as characters.
pub open spec fn supply(ids: Seq<String>, cursor: int) -> Seq<Seq<char>> {
    Seq::new(ids.len(), |i: int| ids[i]@).skip(cursor)
}

/// Components are free of faults together exactly when each of them is.
pub proof fn lemma_faults(components: Seq<ComponentView>)
    ensures
        faults(components) is None <==> forall|i: int|
            0 <= i < components.len() ==> fault(#[trigger] components[i]) is None,
    decreases components.len(),
{
    if components.len() > 0 {
        let front = components.drop_last();
        lemma_faults(front);
        if faults(components) is None {
            assert forall|i: int| 0 <= i < components.len() implies fault(
                #[trigger] components[i],
            ) is None by {
                if i < components.len() - 1 {
                    assert(front[i] == components[i]);
                }
            }
        } else if faults(front) is None {
            assert(fault(components[components.len() - 1]) is Some);
        } else {
            let i = choose|i: int| 0 <= i < front.len() && fault(#[trigger] front[i]) is Some;
            assert(front[i] == components[i]);
        }
    }
}

/// Rows are free of faults together exactly when each of them is.
pub proof fn lemma_row_faults(rows: Seq<Seq<ComponentView>>)
    ensures
        row_faults(rows) is None <==> forall|r: int|
            0 <= r < rows.len() ==> faults(#[trigger] rows[r]) is None,
    decreases rows.len(),
{
    if rows.len() > 0 {
        let front = rows.drop_last();
        lemma_row_faults(front);
        if row_faults(rows) is None {
            assert forall|r: int| 0 <= r < rows.len() implies faults(#[trigger] rows[r]) is None by {
                if r < rows.len() - 1 {
                    assert(front[r] == rows[r]);
                }
            }
        } else if row_faults(front) is None {
            assert(faults(rows[rows.len() - 1]) is Some);
        } else {
            let r = choose|r: int| 0 <= r < front.len() && faults(#[trigger] front[r]) is Some;
            assert(front[r] == rows[r]);
        }
    }
}

/// The first components of a sequence take no more identifiers than all of
/// them.
pub proof fn lemma_demand_prefix(components: Seq<ComponentView>, n: int)
    requires
        0 <= n <= components.len(),
    ensures
        demand_all(components.take(n)) <= demand_all(components),
    decreases components.len(),
{
    if n == components.len() {
        assert(components.take(n) =~= components);
    } else {
        lemma_demand_prefix(components.drop_last(), n);
        assert(components.drop_last().take(n) =~= components.take(n));
    }
}

/// The first rows of a table take no more identifiers than all of them.
pub proof fn lemma_demand_rows_prefix(rows: Seq<Seq<ComponentView>>, n: int)
    requires
        0 <= n <= rows.len(),
    ensures
        demand_rows(rows.take(n)) <= demand_rows(rows),
    decreases rows.len(),
{
    if n == rows.len() {
        assert(rows.take(n) =~= rows);
    } else {
        lemma_demand_rows_prefix(rows.drop_last(), n);
        assert(rows.drop_last().take(n) =~= rows.take(n));
    }
}

/// Skipping part of the supply moves the cursor.
pub proof fn lemma_supply_skip(ids: Seq<String>, cursor: int, n: int)
    requires
        0 <= cursor,
        0 <= n,
        cursor + n <= ids.len(),
    ensures
        supply(ids, cursor).skip(n) == supply(ids, cursor + n),
{
    assert(supply(ids, cursor).skip(n) =~= supply(ids, cursor + n));
}

/// Whether some column has an alignment of its own.
pub fn has_alignment(alignment: &Vec<Alignment>) -> (aligned: bool)
    ensures
        aligned == is_aligned(alignment@),
{
    let mut i: usize = 0;
    while i < alignment.len()
        invariant
            i <= alignment.len(),
            forall|k: int| 0 <= k < i ==> alignment@[k] == Alignment::Unaligned,
        decreases alignment.len() - i,
    {
        match alignment[i] {
            Alignment::Unaligned => {},
            _ => {
                assert(alignment@[i as int] != Alignment::Unaligned);
                return true;
            },
        }
        i += 1;
    }
    false
}

/// Writes the style rules of the table `id` to `out`.
pub fn emit_rules(alignment: &Vec<Alignment>, id: &str, out: &mut String)
    ensures
        final(out)@ == old(out)@ + rules(id@, alignment@),
{
    let ghost start = out@;
    let mut i: usize = 0;
    assert(out@ =~= start + rules(id@, alignment@.take(0)));
    while i < alignment.len()
        invariant
            i <= alignment.len(),
            out@ == start + rules(id@, alignment@.take(i as int)),
        decreases alignment.len() - i,
    {
        let ghost done = out@;
        if let Some(css) = alignment[i].as_css() {
            out.append("table#");
            out.append(id);
            out.append(" td:nth-child(");
            write_decimal(out, i + 1);
            out.append("){");
            out.append(css);
            out.append("}");
        }
        proof {
            let next = alignment@.take(i + 1);
            assert(next.drop_last() =~= alignment@.take(i as int));
            assert(next.last() == alignment@[i as int]);
            assert(out@ =~= done + rule(id@, (i + 1) as nat, alignment@[i as int]));
            assert(out@ =~= start + rules(id@, next));
        }
        i += 1;
    }
    assert(alignment@.take(alignment.len() as int) =~= alignment@);
}

/// The first fault of `component`, in document order.
pub fn find_fault(component: &PostComponent) -> (found: Option<Violation>)
    ensures
        found == fault(component@),
    decreases component, 0int,
{
    match component {
        PostComponent::Placeholder => Some(Violation::Placeholder),
        PostComponent::Text(text) => if text_is_wf(text) {
            None
        } else {
            Some(Violation::HeadingLevel)
        },
        PostComponent::Footnote { text, .. } => if text_is_wf(text) {
            None
        } else {
            Some(Violation::HeadingLevel)
        },
        PostComponent::BlockQuote(items) => find_faults(items),
        PostComponent::Chained(items) => find_faults(items),
        PostComponent::List(list) => find_faults(&list.items),
        PostComponent::Table(table) => match find_faults(&table.headers) {
            Some(violation) => Some(violation),
            None => find_row_faults(&table.rows),
        },
        _ => None,
    }
}

/// The first fault among `components`, in order.
pub fn find_faults(components: &Vec<PostComponent>) -> (found: Option<Violation>)
    ensures
        found == faults(posts_view(components@)),
    decreases components, 1int,
{
    let ghost views = posts_view(components@);
    let mut i: usize = 0;
    while i < components.len()
        invariant
            i <= components.len(),
            views == posts_view(components@),
            faults(views.take(i as int)) is None,
        decreases components.len() - i,
    {
        let ghost next = views.take(i + 1);
        assert(next.drop_last() =~= views.take(i as int));
        assert(next.last() == components[i as int]@);
        let found = find_fault(&components[i]);
        if found.is_some() {
            proof {
                lemma_faults_first(views, i as int);
            }
            return found;
        }
        i += 1;
    }
    assert(views.take(components.len() as int) =~= views);
    None
}

/// The first fault among the rows of a table, in order.
pub fn find_row_faults(rows: &Vec<Vec<PostComponent>>) -> (found: Option<Violation>)
    ensures
        found == row_faults(rows_view(rows@)),
    decreases rows, 2int,
{
    let ghost views = rows_view(rows@);
    let mut r: usize = 0;
    while r < rows.len()
        invariant
            r <= rows.len(),
            views == rows_view(rows@),
            row_faults(views.take(r as int)) is None,
        decreases rows.len() - r,
    {
        let ghost next = views.take(r + 1);
        assert(next.drop_last() =~= views.take(r as int));
        assert(next.last() == posts_view(rows[r as int]@));
        let found = find_faults(&rows[r]);
        if found.is_some() {
            proof {
                lemma_row_faults_first(views, r as int);
            }
            return found;
        }
        r += 1;
    }
    assert(views.take(rows.len() as int) =~= views);
    None
}

/// Where the first `n` components are free of faults and the next one is
/// not, its fault is the first of all.
pub proof fn lemma_faults_first(components: Seq<ComponentView>, n: int)
    requires
        0 <= n < components.len(),
        faults(components.take(n)) is None,
        fault(components[n]) is Some,
    ensures
        faults(components) == fault(components[n]),
    decreases components.len(),
{
    if n == components.len() - 1 {
        assert(components.take(n) =~= components.drop_last());
    } else {
        assert(components.drop_last().take(n) =~= components.take(n));
        lemma_faults_first(components.drop_last(), n);
    }
}

/// Where the first `n` rows are free of faults and the next one is not, its
/// fault is the first of all.
pub proof fn lemma_row_faults_first(rows: Seq<Seq<ComponentView>>, n: int)
    requires
        0 <= n < rows.len(),
        row_faults(rows.take(n)) is None,
        faults(rows[n]) is Some,
    ensures
        row_faults(rows) == faults(rows[n]),
    decreases rows.len(),
{
    if n == rows.len() - 1 {
        assert(rows.take(n) =~= rows.drop_last());
    } else {
        assert(rows.drop_last().take(n) =~= rows.take(n));
        lemma_row_faults_first(rows.drop_last(), n);
    }
}

/// Writes the markup of `component` to `out`, taking identifiers from `ids`
/// at position `cursor` on. Returns the position behind the identifiers it
/// took, or `None` where `ids` holds too few.
pub fn emit(component: &PostComponent, out: &mut String, ids: &Vec<String>, cursor: usize) -> (next:
    Option<usize>)
    requires
        fault(component@) is None,
        cursor <= ids.len(),
    ensures
        next is Some <==> cursor + demand(component@) <= ids.len(),
        next is Some ==> next->0 == cursor + demand(component@) && final(out)@ == old(out)@
            + markup(component@, supply(ids@, cursor as int)),
    decreases component, 0int,
{
    match component {
        PostComponent::Placeholder => Some(cursor),
        PostComponent::Text(text) => {
            emit_text(text, out);
            Some(cursor)
        },
        PostComponent::BlockQuote(content) => {
            out.append("<blockquote>");
            let next = emit_all(content, out, ids, cursor, "", "");
            out.append("</blockquote>");
            proof {
                reveal_strlit("");
                assert(""@ =~= Seq::<char>::empty());
                if next is Some {
                    assert(final(out)@ =~= old(out)@ + markup(
                        component@,
                        supply(ids@, cursor as int),
                    ));
                }
            }
            next
        },
        PostComponent::Image { source, alt } => {
            out.append("<img src=\"");
            out.append(source.as_str());
            out.append("\"");
            if let Some(alt) = alt {
                out.append(" alt=\"");
                out.append(alt.as_str());
                out.append("\"");
            }
            out.append("/>");
            assert(final(out)@ =~= old(out)@ + markup(component@, supply(ids@, cursor as int)));
            Some(cursor)
        },
        PostComponent::CodeBlock { language, content } => {
            out.append("<pre><code class=\"block");
            if let Some(language) = language {
                out.append(" language-");
                out.append(language.as_str());
            }
            out.append("\">");
            out.append(content.as_str());
            out.append("</code></pre>");
            assert(final(out)@ =~= old(out)@ + markup(component@, supply(ids@, cursor as int)));
            Some(cursor)
        },
        PostComponent::List(list) => emit_list(list, out, ids, cursor),
        PostComponent::HorizonalRule => {
            out.append("<hr/>");
            Some(cursor)
        },
        PostComponent::Table(table) => emit_table(table, out, ids, cursor),
        PostComponent::Footnote { id, text } => {
            out.append("<aside id=\"footnote-");
            out.append(id.as_str());
            out.append("\"><span class=\"fn-id\">");
            out.append(id.as_str());
            out.append(":</span> ");
            emit_text(text, out);
            out.append("</aside>");
            assert(final(out)@ =~= old(out)@ + markup(component@, supply(ids@, cursor as int)));
            Some(cursor)
        },
        PostComponent::Latex(latex) => {
            out.append("<code data-lang=\"latex\">");
            out.append(latex.source.as_str());
            out.append("</code>");
            assert(final(out)@ =~= old(out)@ + markup(component@, supply(ids@, cursor as int)));
            Some(cursor)
        },
        PostComponent::Chained(items) => {
            let next = emit_all(items, out, ids, cursor, "", "");
            proof {
                reveal_strlit("");
                assert(""@ =~= Seq::<char>::empty());
            }
            next
        },
        PostComponent::Raw(html) => {
            out.append(html.as_str());
            Some(cursor)
        },
    }
}

/// Writes the markup of a list to `out`.
pub fn emit_list(list: &ListComponent, out: &mut String, ids: &Vec<String>, cursor: usize) -> (next:
    Option<usize>)
    requires
        fault(ComponentView::List(list@)) is None,
        cursor <= ids.len(),
    ensures
        next is Some <==> cursor + demand(ComponentView::List(list@)) <= ids.len(),
        next is Some ==> next->0 == cursor + demand(ComponentView::List(list@)) && final(out)@
            == old(out)@ + markup(ComponentView::List(list@), supply(ids@, cursor as int)),
    decreases list, 3int,
{
    match list.numbered {
        Some(first) => if first > 0 {
            out.append("<ol start=\"");
            write_decimal(out, first);
            out.append("\">");
        } else {
            out.append("<ol>");
        },
        None => {
            out.append("<ul>");
        },
    }
    assert(out@ =~= old(out)@ + list_opening(list.numbered));
    let next = emit_all(&list.items, out, ids, cursor, "<li>", "</li>");
    if list.numbered.is_some() {
        out.append("</ol>");
    } else {
        out.append("</ul>");
    }
    proof {
        if next is Some {
            assert(final(out)@ =~= old(out)@ + markup(
                ComponentView::List(list@),
                supply(ids@, cursor as int),
            ));
        }
    }
    next
}

/// Writes the markup of a table to `out`.
pub fn emit_table(table: &TableComponent, out: &mut String, ids: &Vec<String>, cursor: usize) -> (next:
    Option<usize>)
    requires
        fault(ComponentView::Table(table@)) is None,
        cursor <= ids.len(),
    ensures
        next is Some <==> cursor + demand(ComponentView::Table(table@)) <= ids.len(),
        next is Some ==> next->0 == cursor + demand(ComponentView::Table(table@)) && final(out)@
            == old(out)@ + table_markup(table@, supply(ids@, cursor as int)),
    decreases table, 3int,
{
    let ghost pending = supply(ids@, cursor as int);
    let aligned = has_alignment(&table.alignment);
    let mut at = cursor;
    if aligned {
        if cursor >= ids.len() {
            return None;
        }
        out.append("<table id=\"");
        out.append(ids[cursor].as_str());
        out.append("\">");
        at = cursor + 1;
        assert(pending[0] == ids@[cursor as int]@);
    } else {
        out.append("<table>");
    }
    proof {
        lemma_supply_skip(ids@, cursor as int, own_demand(table@.alignment) as int);
    }
    let ghost rest = supply(ids@, at as int);
    let ghost opened = out@;
    out.append("<thead>");
    match emit_all(&table.headers, out, ids, at, "<td>", "</td>") {
        Some(next) => {
            proof {
                lemma_supply_skip(ids@, at as int, demand_all(table@.headers) as int);
            }
            at = next;
        },
        None => {
            return None;
        },
    }
    out.append("</thead>");
    out.append("<tbody>");
    match emit_rows(&table.rows, out, ids, at) {
        Some(next) => {
            at = next;
        },
        None => {
            return None;
        },
    }
    out.append("</tbody>");
    out.append("</table>");
    let ghost body = "<thead>"@ + wrapped(table@.headers, rest, "<td>"@, "</td>"@) + "</thead>"@
        + "<tbody>"@ + rows_markup(table@.rows, rest.skip(demand_all(table@.headers) as int))
        + "</tbody>"@ + "</table>"@;
    assert(out@ =~= opened + body);
    if aligned {
        out.append("<style>");
        emit_rules(&table.alignment, ids[cursor].as_str(), out);
        out.append("</style>");
    }
    assert(out@ =~= old(out)@ + table_markup(table@, pending));
    Some(at)
}

/// Writes the markup of `components` to `out` in order, each between `open`
/// and `close`.
pub fn emit_all(
    components: &Vec<PostComponent>,
    out: &mut String,
    ids: &Vec<String>,
    cursor: usize,
    open: &str,
    close: &str,
) -> (next: Option<usize>)
    requires
        faults(posts_view(components@)) is None,
        cursor <= ids.len(),
    ensures
        next is Some <==> cursor + demand_all(posts_view(components@)) <= ids.len(),
        next is Some ==> next->0 == cursor + demand_all(posts_view(components@)) && final(out)@
            == old(out)@ + wrapped(
            posts_view(components@),
            supply(ids@, cursor as int),
            open@,
            close@,
        ),
    decreases components, 1int,
{
    let ghost views = posts_view(components@);
    let ghost pending = supply(ids@, cursor as int);
    let ghost start = out@;
    let mut at = cursor;
    let mut i: usize = 0;
    assert(out@ =~= start + wrapped(views.take(0), pending, open@, close@));
    while i < components.len()
        invariant
            i <= components.len(),
            views == posts_view(components@),
            pending == supply(ids@, cursor as int),
            faults(views) is None,
            cursor <= at <= ids.len(),
            at == cursor + demand_all(views.take(i as int)),
            out@ == start + wrapped(views.take(i as int), pending, open@, close@),
        decreases components.len() - i,
    {
        let ghost next = views.take(i + 1);
        proof {
            lemma_faults(views);
            lemma_demand_prefix(views, i + 1);
            assert(next.drop_last() =~= views.take(i as int));
            assert(next.last() == components[i as int]@);
            assert(views[i as int] == components[i as int]@);
            lemma_supply_skip(ids@, cursor as int, demand_all(views.take(i as int)) as int);
        }
        out.append(open);
        match emit(&components[i], out, ids, at) {
            Some(after) => {
                at = after;
            },
            None => {
                return None;
            },
        }
        out.append(close);
        assert(out@ =~= start + wrapped(next, pending, open@, close@));
        i += 1;
    }
    assert(views.take(components.len() as int) =~= views);
    Some(at)
}

/// Writes the markup of the body rows of a table to `out`.
pub fn emit_rows(rows: &Vec<Vec<PostComponent>>, out: &mut String, ids: &Vec<String>, cursor: usize) -> (next:
    Option<usize>)
    requires
        row_faults(rows_view(rows@)) is None,
        cursor <= ids.len(),
    ensures
        next is Some <==> cursor + demand_rows(rows_view(rows@)) <= ids.len(),
        next is Some ==> next->0 == cursor + demand_rows(rows_view(rows@)) && final(out)@ == old(
            out,
        )@ + rows_markup(rows_view(rows@), supply(ids@, cursor as int)),
    decreases rows, 2int,
{
    let ghost views = rows_view(rows@);
    let ghost pending = supply(ids@, cursor as int);
    let ghost start = out@;
    let mut at = cursor;
    let mut r: usize = 0;
    assert(out@ =~= start + rows_markup(views.take(0), pending));
    while r < rows.len()
        invariant
            r <= rows.len(),
            views == rows_view(rows@),
            pending == supply(ids@, cursor as int),
            row_faults(views) is None,
            cursor <= at <= ids.len(),
            at == cursor + demand_rows(views.take(r as int)),
            out@ == start + rows_markup(views.take(r as int), pending),
        decreases rows.len() - r,
    {
        let ghost next = views.take(r + 1);
        proof {
            lemma_row_faults(views);
            lemma_demand_rows_prefix(views, r + 1);
            assert(next.drop_last() =~= views.take(r as int));
            assert(next.last() == posts_view(rows[r as int]@));
            assert(views[r as int] == posts_view(rows[r as int]@));
            lemma_supply_skip(ids@, cursor as int, demand_rows(views.take(r as int)) as int);
        }
        out.append("<tr>");
        match emit_all(&rows[r], out, ids, at, "<td>", "</td>") {
            Some(after) => {
                at = after;
            },
            None => {
                return None;
            },
        }
        out.append("</tr>");
        assert(out@ =~= start + rows_markup(next, pending));
        r += 1;
    }
    assert(views.take(rows.len() as int) =~= views);
    Some(at)
}

/// Whether `after` is `before` followed by `count` identifiers.
pub open spec fn extended(before: Seq<String>, after: Seq<String>, count: nat) -> bool {
    &&& after.len() == before.len() + count
    &&& forall|k: int| 0 <= k < before.len() ==> after[k] == before[k]
    &&& forall|k: int| before.len() <= k < after.len() ==> is_identifier(#[trigger] after[k]@)
}

/// Adds to `ids` a fresh random identifier for each table of `component`
/// that takes one.
pub fn draw(component: &PostComponent, ids: &mut Vec<String>)
    ensures
        extended(old(ids)@, final(ids)@, demand(component@)),
    decreases component, 0int,
{
    match component {
        PostComponent::BlockQuote(items) => draw_all(items, ids),
        PostComponent::Chained(items) => draw_all(items, ids),
        PostComponent::List(list) => draw_all(&list.items, ids),
        PostComponent::Table(table) => draw_table(table, ids),
        _ => {},
    }
}

/// Adds to `ids` the identifiers that a table takes.
pub fn draw_table(table: &TableComponent, ids: &mut Vec<String>)
    ensures
        extended(old(ids)@, final(ids)@, demand(ComponentView::Table(table@))),
    decreases table, 3int,
{
    if has_alignment(&table.alignment) {
        ids.push(random_id());
    }
    draw_all(&table.headers, ids);
    draw_rows(&table.rows, ids);
}

/// Adds to `ids` the identifiers that `components` take.
pub fn draw_all(components: &Vec<PostComponent>, ids: &mut Vec<String>)
    ensures
        extended(old(ids)@, final(ids)@, demand_all(posts_view(components@))),
    decreases components, 1int,
{
    let ghost views = posts_view(components@);
    let mut i: usize = 0;
    while i < components.len()
        invariant
            i <= components.len(),
            views == posts_view(components@),
            extended(old(ids)@, ids@, demand_all(views.take(i as int))),
        decreases components.len() - i,
    {
        let ghost next = views.take(i + 1);
        assert(next.drop_last() =~= views.take(i as int));
        assert(next.last() == components[i as int]@);
        draw(&components[i], ids);
        i += 1;
    }
    assert(views.take(components.len() as int) =~= views);
}

/// Adds to `ids` the identifiers that the rows of a table take.
pub fn draw_rows(rows: &Vec<Vec<PostComponent>>, ids: &mut Vec<String>)
    ensures
        extended(old(ids)@, final(ids)@, demand_rows(rows_view(rows@))),
    decreases rows, 2int,
{
    let ghost views = rows_view(rows@);
    let mut r: usize = 0;
    while r < rows.len()
        invariant
            r <= rows.len(),
            views == rows_view(rows@),
            extended(old(ids)@, ids@, demand_rows(views.take(r as int))),
        decreases rows.len() - r,
    {
        let ghost next = views.take(r + 1);
        assert(next.drop_last() =~= views.take(r as int));
        assert(next.last() == posts_view(rows[r as int]@));
        draw_all(&rows[r], ids);
        r += 1;
    }
    assert(views.take(rows.len() as int) =~= views);
}

/// Why a component cannot be rendered with `available` identifiers at hand,
/// if it cannot: its first fault or, where it has none, that it takes more
/// identifiers than there are.
pub open spec fn refusal(component: ComponentView, available: nat) -> Option<ComponentError> {
    match fault(component) {
        Some(violation) => Some(ComponentError::Invariant(violation)),
        None => if demand(component) > available {
            Some(ComponentError::Invariant(Violation::Identifier))
        } else {
            None
        },
    }
}

/// Whether `markup` is the markup of `component` with the identifiers `ids`,
/// and these are as many identifiers as it takes.
pub open spec fn rendered_with(
    component: ComponentView,
    ids: Seq<Seq<char>>,
    markup: Seq<char>,
) -> bool {
    &&& ids.len() == demand(component)
    &&& forall|k: int| 0 <= k < ids.len() ==> is_identifier(#[trigger] ids[k])
    &&& markup == self::markup(component, ids)
}

/// Whether `markup` is a rendering of `component`: its markup with some
/// identifiers.
pub open spec fn rendering(component: ComponentView, markup: Seq<char>) -> bool {
    exists|ids: Seq<Seq<char>>| #[trigger] rendered_with(component, ids, markup)
}

/// Something that can be rendered to markup.
pub trait Component {
    /// Why this cannot be rendered, if it cannot.
    spec fn fault(&self) -> Option<Violation>;

    /// Whether `markup` is a rendering of this.
    spec fn renders_as(&self, markup: Seq<char>) -> bool;

    /// Writes a rendering of this at the end of `target`, or fails and
    /// leaves `target` as it was.
    fn render(&self, target: &mut String) -> (result: Result<(), ComponentError>)
        ensures
            self.fault() is None ==> result is Ok && old(target)@.len() <= final(target)@.len()
                && final(target)@.take(old(target)@.len() as int) == old(target)@
                && self.renders_as(final(target)@.skip(old(target)@.len() as int)),
            self.fault() is Some ==> result == Err::<(), ComponentError>(
                ComponentError::Invariant(self.fault()->0),
            ) && final(target)@ == old(target)@,
    ;
}

/// Renders `component` with fresh random identifiers.
fn render_random(component: &PostComponent, target: &mut String) -> (result: Result<
    (),
    ComponentError,
>)
    ensures
        fault(component@) is None ==> result is Ok && old(target)@.len() <= final(target)@.len()
            && rendering(component@, final(target)@.skip(old(target)@.len() as int)) && final(target)@.take(old(target)@.len() as int) == old(target)@,
        fault(component@) is Some ==> result == Err::<(), ComponentError>(
            ComponentError::Invariant(fault(component@)->0),
        ) && final(target)@ == old(target)@,
{
    match find_fault(component) {
        Some(violation) => Err(ComponentError::Invariant(violation)),
        None => {
            let mut ids: Vec<String> = Vec::new();
            draw(component, &mut ids);
            let mut buffer = String::new();
            let _ = emit(component, &mut buffer, &ids, 0);
            append_rendering(target, &buffer, &ids, Ghost(component@));
            Ok(())
        },
    }
}

impl PostComponent {
    /// Writes the markup of this component at the end of `target`, with the
    /// identifiers `ids` for the tables that take one, in document order.
    /// Fails, and leaves `target` as it was, where the component has a
    /// fault or takes more identifiers than `ids` holds.
    pub fn render_with(&self, target: &mut String, ids: &Vec<String>) -> (result: Result<
        (),
        ComponentError,
    >)
        ensures
            refusal(self@, ids@.len()) is None ==> result is Ok && final(target)@ == old(target)@
                + markup(self@, supply(ids@, 0)),
            refusal(self@, ids@.len()) is Some ==> result == Err::<(), ComponentError>(
                refusal(self@, ids@.len())->0,
            ) && final(target)@ == old(target)@,
    {
        match find_fault(self) {
            Some(violation) => Err(ComponentError::Invariant(violation)),
            None => {
                let mut buffer = String::new();
                match emit(self, &mut buffer, ids, 0) {
                    Some(_) => {
                        target.append(buffer.as_str());
                        assert(buffer@ =~= markup(self@, supply(ids@, 0)));
                        Ok(())
                    },
                    None => Err(ComponentError::Invariant(Violation::Identifier)),
                }
            },
        }
    }
}

impl Component for PostComponent {
    open spec fn fault(&self) -> Option<Violation> {
        self::fault(self@)
    }

    open spec fn renders_as(&self, markup: Seq<char>) -> bool {
        rendering(self@, markup)
    }

    fn render(&self, target: &mut String) -> (result: Result<(), ComponentError>) {
        render_random(self, target)
    }
}

impl Component for TextPart {
    open spec fn fault(&self) -> Option<Violation> {
        text_fault(part_wf(self@))
    }

    open spec fn renders_as(&self, markup: Seq<char>) -> bool {
        markup == part_markup(self@)
    }

    fn render(&self, target: &mut String) -> (result: Result<(), ComponentError>) {
        if part_is_wf(self) {
            emit_part(self, target);
            proof {
                assert(final(target)@.skip(old(target)@.len() as int) =~= part_markup(self@));
                assert(final(target)@.take(old(target)@.len() as int) =~= old(target)@);
            }
            Ok(())
        } else {
            Err(ComponentError::Invariant(Violation::HeadingLevel))
        }
    }
}

impl Component for TextComponent {
    open spec fn fault(&self) -> Option<Violation> {
        text_fault(text_wf(self@))
    }

    open spec fn renders_as(&self, markup: Seq<char>) -> bool {
        markup == text_markup(self@)
    }

    fn render(&self, target: &mut String) -> (result: Result<(), ComponentError>) {
        if text_is_wf(self) {
            emit_text(self, target);
            proof {
                assert(final(target)@.skip(old(target)@.len() as int) =~= text_markup(self@));
                assert(final(target)@.take(old(target)@.len() as int) =~= old(target)@);
            }
            Ok(())
        } else {
            Err(ComponentError::Invariant(Violation::HeadingLevel))
        }
    }
}

impl Component for LatexComponent {
    open spec fn fault(&self) -> Option<Violation> {
        None
    }

    open spec fn renders_as(&self, markup: Seq<char>) -> bool {
        markup == self::markup(ComponentView::Latex(self@), Seq::empty())
    }

    fn render(&self, target: &mut String) -> (result: Result<(), ComponentError>) {
        target.append("<code data-lang=\"latex\">");
        target.append(self.source.as_str());
        target.append("</code>");
        proof {
            assert(final(target)@.skip(old(target)@.len() as int) =~= self::markup(
                ComponentView::Latex(self@),
                Seq::empty(),
            ));
            assert(final(target)@.take(old(target)@.len() as int) =~= old(target)@);
        }
        Ok(())
    }
}

/// Appends `buffer`, which holds the markup of `component` with the
/// identifiers `ids`, all of them fresh, to `target`.
fn append_rendering(
    target: &mut String,
    buffer: &String,
    ids: &Vec<String>,
    Ghost(component): Ghost<ComponentView>,
)
    requires
        extended(Seq::empty(), ids@, demand(component)),
        buffer@ == markup(component, supply(ids@, 0)),
    ensures
        old(target)@.len() <= final(target)@.len(),
        final(target)@.take(old(target)@.len() as int) == old(target)@,
        rendering(component, final(target)@.skip(old(target)@.len() as int)),
{
    target.append(buffer.as_str());
    proof {
        let used = supply(ids@, 0);
        assert forall|k: int| 0 <= k < used.len() implies is_identifier(#[trigger] used[k]) by {
            assert(used[k] == ids@[k]@);
        }
        assert(rendered_with(component, used, buffer@));
        assert(final(target)@.skip(old(target)@.len() as int) =~= buffer@);
        assert(final(target)@.take(old(target)@.len() as int) =~= old(target)@);
    }
}

impl Component for ListComponent {
    open spec fn fault(&self) -> Option<Violation> {
        self::fault(ComponentView::List(self@))
    }

    open spec fn renders_as(&self, markup: Seq<char>) -> bool {
        rendering(ComponentView::List(self@), markup)
    }

    fn render(&self, target: &mut String) -> (result: Result<(), ComponentError>) {
        match find_faults(&self.items) {
            Some(violation) => Err(ComponentError::Invariant(violation)),
            None => {
                let mut ids: Vec<String> = Vec::new();
                let mut buffer = String::new();
                draw_all(&self.items, &mut ids);
                let _ = emit_list(self, &mut buffer, &ids, 0);
                append_rendering(target, &buffer, &ids, Ghost(ComponentView::List(self@)));
                Ok(())
            },
        }
    }
}

impl Component for TableComponent {
    open spec fn fault(&self) -> Option<Violation> {
        self::fault(ComponentView::Table(self@))
    }

    open spec fn renders_as(&self, markup: Seq<char>) -> bool {
        rendering(ComponentView::Table(self@), markup)
    }

    fn render(&self, target: &mut String) -> (result: Result<(), ComponentError>) {
        let found = match find_faults(&self.headers) {
            Some(violation) => Some(violation),
            None => find_row_faults(&self.rows),
        };
        match found {
            Some(violation) => Err(ComponentError::Invariant(violation)),
            None => {
                let mut ids: Vec<String> = Vec::new();
                let mut buffer = String::new();
                draw_table(self, &mut ids);
                let _ = emit_table(self, &mut buffer, &ids, 0);
                append_rendering(target, &buffer, &ids, Ghost(ComponentView::Table(self@)));
                Ok(())
            },
        }
    }
}

/// Renders the components of a document one after the other, with fresh
/// random identifiers, or fails on the first of them that has a fault.
pub fn render_document(components: &Vec<PostComponent>) -> (result: Result<String, ComponentError>)
    ensures
        match faults(posts_view(components@)) {
            Some(violation) => result == Err::<String, ComponentError>(
                ComponentError::Invariant(violation),
            ),
            None => result matches Ok(content) && rendering(
                ComponentView::Chained(posts_view(components@)),
                content@,
            ),
        },
{
    match find_faults(components) {
        Some(violation) => Err(ComponentError::Invariant(violation)),
        None => {
            let mut ids: Vec<String> = Vec::new();
            draw_all(components, &mut ids);
            let mut content = String::new();
            let _ = emit_all(components, &mut content, &ids, 0, "", "");
            proof {
                reveal_strlit("");
                assert(""@ =~= Seq::<char>::empty());
                let used = supply(ids@, 0);
                let view = ComponentView::Chained(posts_view(components@));
                assert(content@ =~= markup(view, used));
                assert forall|k: int| 0 <= k < used.len() implies is_identifier(
                    #[trigger] used[k],
                ) by {
                    assert(used[k] == ids@[k]@);
                }
                assert(rendered_with(view, used, content@));
            }
            Ok(content)
        },
    }
}

} // verus!
