//! Well-formed streams of events, and the proof that the tree builder finds
//! no violation in them.

use vstd::prelude::*;
use crate::event::{ElementKind, LexemeView, LocatedView, SpannedView, TokenView};
use crate::lexer::{
    is_plain, lemma_drain_pull, lemma_passthrough, lemma_pull_decreases, passed_on,
};
use crate::parser::{nearest_table, BuilderView, ParserOptions, ParserView};

verus! {

/// Where a stream of events stands with respect to a table.
pub enum TableState {
    /// Outside any table.
    Outside,
    /// A table was opened and its head is due.
    Opened,
    /// Directly inside a table, behind its head or a row.
    Between,
    /// Directly inside the head of a table.
    InHead,
    /// Directly inside a body row of a table.
    InRow,
    /// Inside a cell, of the head or of a body row.
    InCell { head: bool },
}

/// What is open at a point of a stream of events: the number of elements
/// and constructs that are open outside the table, where the stream stands
/// with respect to a table, and the number of elements and constructs that
/// are open inside the cell of the table.
pub struct Nesting {
    pub outer: nat,
    pub table: TableState,
    pub inner: nat,
}

impl Nesting {
    /// Nothing is open.
    pub open spec fn start() -> Nesting {
        Nesting { outer: 0, table: TableState::Outside, inner: 0 }
    }

    /// The number of components that the builder holds open here.
    pub open spec fn size(self) -> nat {
        match self.table {
            TableState::Outside => self.outer,
            TableState::InCell { .. } => self.outer + 2 + self.inner,
            _ => self.outer + 1,
        }
    }

    /// Whether a table is being assembled here.
    pub open spec fn assembling(self) -> bool {
        !(self.table is Outside) && !(self.table is Opened)
    }

    /// What is open after an element other than a table or a part of one,
    /// or a construct, was opened. Such a thing opens outside a table or
    /// inside a cell.
    pub open spec fn enter(self) -> Option<Nesting> {
        match self.table {
            TableState::Outside => Some(Nesting { outer: self.outer + 1, ..self }),
            TableState::InCell { .. } => Some(Nesting { inner: self.inner + 1, ..self }),
            _ => None,
        }
    }

    /// What is open after an element other than a table or a part of one,
    /// or a construct, was closed. It must have been opened before.
    pub open spec fn leave(self) -> Option<Nesting> {
        match self.table {
            TableState::Outside => if self.outer > 0 {
                Some(Nesting { outer: (self.outer - 1) as nat, ..self })
            } else {
                None
            },
            TableState::InCell { .. } => if self.inner > 0 {
                Some(Nesting { inner: (self.inner - 1) as nat, ..self })
            } else {
                None
            },
            _ => None,
        }
    }

    /// Whether text can stand here: inside an open element or construct,
    /// but not directly inside a table, its head or a row.
    pub open spec fn holds_text(self) -> bool {
        (self.table is Outside && self.outer > 0) || self.table is InCell
    }

    /// Whether a leaf can stand here: at the top of the document or inside
    /// an open element, but not directly inside a table, its head or a row.
    pub open spec fn holds_leaves(self) -> bool {
        self.table is Outside || self.table is InCell
    }

    /// What is open after the event, or `None` where the event cannot stand
    /// here in a well-formed stream. Tags nest; a table holds a head and
    /// then rows, a head and a row hold cells, and a cell holds no table.
    pub open spec fn follow(self, lexeme: LexemeView) -> Option<Nesting> {
        match lexeme {
            LexemeView::Start(_) => self.enter(),
            LexemeView::End(_) => self.leave(),
            LexemeView::Base(token) => match token {
                TokenView::Start(element) => match element.kind() {
                    ElementKind::Table => if self.table is Outside {
                        Some(Nesting { table: TableState::Opened, ..self })
                    } else {
                        None
                    },
                    ElementKind::TableHead => if self.table is Opened {
                        Some(Nesting { table: TableState::InHead, ..self })
                    } else {
                        None
                    },
                    ElementKind::TableRow => if self.table is Between {
                        Some(Nesting { table: TableState::InRow, ..self })
                    } else {
                        None
                    },
                    ElementKind::TableCell => match self.table {
                        TableState::InHead => Some(
                            Nesting { table: TableState::InCell { head: true }, inner: 0, ..self },
                        ),
                        TableState::InRow => Some(
                            Nesting { table: TableState::InCell { head: false }, inner: 0, ..self },
                        ),
                        _ => None,
                    },
                    _ => self.enter(),
                },
                TokenView::End(kind) => match kind {
                    ElementKind::Table => if self.table is Between {
                        Some(Nesting { table: TableState::Outside, ..self })
                    } else {
                        None
                    },
                    ElementKind::TableHead => if self.table is InHead {
                        Some(Nesting { table: TableState::Between, ..self })
                    } else {
                        None
                    },
                    ElementKind::TableRow => if self.table is InRow {
                        Some(Nesting { table: TableState::Between, ..self })
                    } else {
                        None
                    },
                    ElementKind::TableCell => match self.table {
                        TableState::InCell { head } => if self.inner == 0 {
                            Some(
                                Nesting {
                                    table: if head {
                                        TableState::InHead
                                    } else {
                                        TableState::InRow
                                    },
                                    ..self
                                },
                            )
                        } else {
                            None
                        },
                        _ => None,
                    },
                    _ => self.leave(),
                },
                TokenView::Text(_) => if self.holds_text() {
                    Some(self)
                } else {
                    None
                },
                TokenView::SoftBreak => if self.holds_text() {
                    Some(self)
                } else {
                    None
                },
                _ => if self.holds_leaves() {
                    Some(self)
                } else {
                    None
                },
            },
        }
    }

    /// Whether the events can stand here one after the other in a
    /// well-formed stream.
    pub open spec fn well_formed(self, lexemes: Seq<LexemeView>) -> bool
        decreases lexemes.len(),
    {
        lexemes.len() == 0 || match self.follow(lexemes[0]) {
            Some(next) => next.well_formed(lexemes.skip(1)),
            None => false,
        }
    }
}

/// Whether the builder holds open what is open in the stream: as many
/// components as there are open elements, the table where the stream has
/// one, and a row in assembly where the stream is past the opening of the
/// head.
pub open spec fn agrees(builder: BuilderView, nesting: Nesting) -> bool {
    &&& builder.stack.len() == nesting.size()
    &&& builder.stage is Table <==> nesting.assembling()
    &&& !(nesting.table is Outside) ==> builder.stack[nesting.outer as int] is Table
    &&& !(nesting.table is InCell) ==> nesting.inner == 0
}

/// An event that can stand in a well-formed stream is taken by a builder
/// that agrees with the stream, which then agrees with the stream behind
/// the event. The only error that the event can meet is that it opens a
/// block that is not supported. No violation is found: no table part is
/// closed while no table is assembled, no row is closed without a table,
/// and no text arrives while nothing is open.
pub proof fn lemma_feed_well_formed(builder: BuilderView, nesting: Nesting, lexeme: LexemeView)
    requires
        agrees(builder, nesting),
        nesting.follow(lexeme) is Some,
    ensures
        match builder.feed(lexeme) {
            Ok((next, _)) => agrees(next, nesting.follow(lexeme)->0),
            Err(error) => error is Unsupported,
        },
{
    let stack = builder.stack;
    let after = nesting.follow(lexeme)->0;
    if stack.len() > 0 && stack.last() is Table {
        assert(nearest_table(stack) == Some(stack.len() - 1));
    }
    match builder.feed(lexeme) {
        Ok((next, _)) => {
            if !(after.table is Outside) {
                assert(next.stack[after.outer as int] is Table);
            }
        },
        Err(_) => {},
    }
}

/// The events without their spans.
pub open spec fn lexemes_of(events: Seq<LocatedView>) -> Seq<LexemeView> {
    Seq::new(events.len(), |i: int| events[i].lexeme)
}

impl ParserView {
    /// What is open in the stream once the parser has produced its next
    /// component, given what is open now.
    pub open spec fn nesting_after(self, nesting: Nesting) -> Nesting
        decreases self.lexer.tokens.len(), self.lexer.remainder.len(),
    {
        match self.lexer.pull() {
            Ok((Some(event), lexer)) => match (
                nesting.follow(event.lexeme),
                self.builder.feed(event.lexeme),
            ) {
                (Some(next), Ok((builder, None))) => {
                    proof {
                        lemma_pull_decreases(self.lexer);
                    }
                    (ParserView { lexer, builder }).nesting_after(next)
                },
                (Some(next), _) => next,
                _ => nesting,
            },
            _ => nesting,
        }
    }

    /// Whether what the lexer still gives is a well-formed stream that the
    /// builder agrees with.
    pub open spec fn on_track(self, nesting: Nesting) -> bool {
        agrees(self.builder, nesting) && (self.lexer.drain() matches Ok(events)
            && nesting.well_formed(lexemes_of(events)))
    }
}

/// A parser that is on track in a well-formed stream produces its next
/// component without a violation and is on track afterwards.
pub proof fn lemma_produce_well_formed(parser: ParserView, nesting: Nesting)
    requires
        parser.on_track(nesting),
    ensures
        match parser.produce() {
            Ok((Some(_), next)) => next.on_track(parser.nesting_after(nesting)),
            Ok((None, _)) => true,
            Err(error) => error is Unsupported,
        },
    decreases parser.lexer.tokens.len(), parser.lexer.remainder.len(),
{
    lemma_drain_pull(parser.lexer);
    lemma_pull_decreases(parser.lexer);
    match parser.lexer.pull() {
        Ok((Some(event), lexer)) => {
            let events = parser.lexer.drain()->Ok_0;
            let rest = lexer.drain()->Ok_0;
            assert(events =~= seq![event] + rest);
            assert(lexemes_of(events)[0] == event.lexeme);
            assert(lexemes_of(events).skip(1) =~= lexemes_of(rest));
            let next = nesting.follow(event.lexeme)->0;
            lemma_feed_well_formed(parser.builder, nesting, event.lexeme);
            match parser.builder.feed(event.lexeme) {
                Ok((builder, None)) => {
                    lemma_produce_well_formed(ParserView { lexer, builder }, next);
                },
                _ => {},
            }
        },
        _ => {},
    }
}

/// A parser that is on track in a well-formed stream gives all the
/// components of the document without a violation.
pub proof fn lemma_run_well_formed(parser: ParserView, nesting: Nesting)
    requires
        parser.on_track(nesting),
    ensures
        match parser.run() {
            Ok(_) => true,
            Err(error) => error is Unsupported,
        },
    decreases parser.lexer.tokens.len(), parser.lexer.remainder.len(),
{
    lemma_produce_well_formed(parser, nesting);
    crate::parser::lemma_produce_decreases(parser);
    match parser.produce() {
        Ok((Some(_), next)) => {
            lemma_run_well_formed(next, parser.nesting_after(nesting));
        },
        _ => {},
    }
}

/// A document whose tokens form a well-formed stream and whose texts hold
/// no delimiters is parsed without a violation. In particular no part of a
/// table is closed while no table is assembled. The only error that such a
/// document can meet is a block that is not supported.
pub proof fn lemma_well_formed_document(
    source: Seq<u8>,
    tokens: Seq<SpannedView>,
    options: ParserOptions,
)
    requires
        forall|i: int| 0 <= i < tokens.len() ==> is_plain(#[trigger] tokens[i].token),
        Nesting::start().well_formed(lexemes_of(passed_on(tokens))),
    ensures
        match ParserView::fresh(source, tokens, options).run() {
            Ok(_) => true,
            Err(error) => error is Unsupported,
        },
{
    lemma_passthrough(source, tokens);
    lemma_run_well_formed(ParserView::fresh(source, tokens, options), Nesting::start());
}

} // verus!
