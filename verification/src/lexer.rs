//! The extended lexer: it passes the tokens of the base tokenizer on and
//! finds, inside their text, the constructs that are written with
//! delimiters.

use std::collections::VecDeque;
use vstd::prelude::*;
use vstd::string::StringSliceAdditionalSpecFns;
use vstd::utf8::{decode_utf8, encode_utf8};
use crate::bytes::{
    find, find_from, is_white, lemma_ascii_boundaries, lemma_find_from, lemma_rfind_from,
    occurs_at, rfind, rfind_from, same_bytes, slice, sliceable,
};
use crate::error::{ComponentError, Violation};
use crate::event::{
    lexemes_view, tokens_view, Construct, Lexeme, LexemeView, Located, LocatedView, Span, Spanned,
    SpannedView, Token, TokenView,
};

verus! {

/// What the lexer is in the middle of.
#[derive(Debug, Clone, Copy, PartialEq, Eq, Structural)]
pub enum Context {
    /// Between constructs.
    Idle,
    /// Inside a construct that reaches over several events. Its content
    /// begins at byte `start` of the source.
    Open { construct: Construct, start: usize },
}

/// Whether bytes hold nothing but white space.
pub open spec fn blank(bytes: Seq<u8>) -> bool {
    forall|i: int| 0 <= i < bytes.len() ==> is_white(#[trigger] bytes[i])
}

/// The pair of delimiters that encloses a construct within one text: the
/// first occurrence of the delimiter and the last one behind it. Delimiters
/// with nothing between them, or nothing but white space, are no pair.
pub open spec fn pair(text: Seq<u8>, delimiter: Seq<u8>) -> Option<(int, int)> {
    match find_from(text, delimiter, 0) {
        Some(first) => match rfind_from(text, delimiter, first + delimiter.len()) {
            Some(last) => if blank(text.subrange(first + delimiter.len(), last)) {
                None
            } else {
                Some((first, last))
            },
            None => None,
        },
        None => None,
    }
}

/// What the lexer finds in a text.
pub enum Scan {
    /// A construct within the text, between delimiters at these two places.
    Pair(Construct, int, int),
    /// The opening delimiter, at this place, of a construct that a later
    /// event closes.
    Opener(Construct, int),
    /// No construct.
    Nothing,
}

/// What the lexer finds in a text. The constructs are tried in a fixed
/// order: highlight, formula within a line, formula over several lines. The
/// last is only found where the text can be located in the source.
pub open spec fn scan(text: Seq<u8>, locatable: bool) -> Scan {
    match pair(text, Construct::Highlight.delimiter()) {
        Some((first, last)) => Scan::Pair(Construct::Highlight, first, last),
        None => match pair(text, Construct::Tex(false).delimiter()) {
            Some((first, last)) => Scan::Pair(Construct::Tex(false), first, last),
            None => match find_from(text, Construct::Tex(true).delimiter(), 0) {
                Some(at) => if locatable {
                    Scan::Opener(Construct::Tex(true), at)
                } else {
                    Scan::Nothing
                },
                None => Scan::Nothing,
            },
        },
    }
}

/// Whether a span is as long as a text of `len` bytes.
pub open spec fn fits(span: Span, len: int) -> bool {
    span.start <= span.end && span.end - span.start == len
}

/// Whether the text is what the source holds at the span.
pub open spec fn verbatim(source: Seq<u8>, span: Span, text: Seq<u8>) -> bool {
    sliceable(source, span.start as int, span.end as int) && source.subrange(
        span.start as int,
        span.end as int,
    ) == text
}

/// The span of the bytes `from` to `to` of a text that has the span `base`.
/// Where the text is not as long as its span, its pieces keep the span of
/// the whole.
pub open spec fn place(base: Span, exact: bool, from: int, to: int) -> Span {
    if exact {
        Span { start: (base.start + from) as usize, end: (base.start + to) as usize }
    } else {
        base
    }
}

/// A text event that holds the bytes `from` to `to` of `bytes`.
pub open spec fn text_event(bytes: Seq<u8>, from: int, to: int, span: Span) -> LocatedView {
    LocatedView {
        lexeme: LexemeView::Base(TokenView::Text(decode_utf8(bytes.subrange(from, to)))),
        span,
    }
}

/// What the lexer makes of a text outside any construct.
pub open spec fn split(source: Seq<u8>, value: Seq<char>, base: Span) -> (Seq<LocatedView>, Context) {
    let text = encode_utf8(value);
    match scan(text, verbatim(source, base, text)) {
        Scan::Pair(construct, first, last) => (
            split_events(text, base, construct, first, last),
            Context::Idle,
        ),
        Scan::Opener(construct, at) => {
            let width = construct.delimiter().len();
            (
                seq![
                    text_event(text, 0, at, place(base, true, 0, at)),
                    LocatedView {
                        lexeme: LexemeView::Start(construct),
                        span: place(base, true, at, at + width),
                    },
                ],
                Context::Open { construct, start: (base.start + at + width) as usize },
            )
        },
        Scan::Nothing => (
            seq![LocatedView { lexeme: LexemeView::Base(TokenView::Text(value)), span: base }],
            Context::Idle,
        ),
    }
}

/// What the lexer makes of an event inside a construct that reaches over
/// several events. The part of the source that the event stands for is
/// searched for the closing delimiter, from the start of the content on. An
/// event without it is left out. The event with it ends the construct: the
/// content is all of the source from its start to the delimiter, and what
/// follows the delimiter in the event is text again.
pub open spec fn close(source: Seq<u8>, span: Span, construct: Construct, start: usize) -> Result<
    (Seq<LocatedView>, Context),
    ComponentError,
> {
    let width = construct.delimiter().len() as int;
    let from = if span.start < start {
        start as int
    } else {
        span.start as int
    };
    if !sliceable(source, span.start as int, span.end as int) {
        Err(ComponentError::Invariant(Violation::Span))
    } else {
        match find_from(source.subrange(0, span.end as int), construct.delimiter(), from) {
            None => Ok((Seq::empty(), Context::Open { construct, start })),
            Some(at) => if sliceable(source, start as int, at) && sliceable(
                source,
                at + width,
                span.end as int,
            ) {
                Ok(
                    (
                        seq![
                            text_event(source, start as int, at, Span { start, end: at as usize }),
                            LocatedView {
                                lexeme: LexemeView::End(construct),
                                span: Span { start: at as usize, end: (at + width) as usize },
                            },
                            text_event(
                                source,
                                at + width,
                                span.end as int,
                                Span { start: (at + width) as usize, end: span.end },
                            ),
                        ],
                        Context::Idle,
                    ),
                )
            } else {
                Err(ComponentError::Invariant(Violation::Span))
            },
        }
    }
}

/// What the lexer makes of one token: the events that it gives rise to, and
/// what the lexer is in the middle of afterwards.
pub open spec fn advance(source: Seq<u8>, token: SpannedView, context: Context) -> Result<
    (Seq<LocatedView>, Context),
    ComponentError,
> {
    match context {
        Context::Idle => match token.token {
            TokenView::Text(value) => Ok(split(source, value, token.span)),
            _ => Ok(
                (
                    seq![LocatedView { lexeme: LexemeView::Base(token.token), span: token.span }],
                    Context::Idle,
                ),
            ),
        },
        Context::Open { construct, start } => close(source, token.span, construct, start),
    }
}

/// Whether the bytes `from` to `to` of `bytes` hold nothing but white space.
fn is_blank(bytes: &[u8], from: usize, to: usize) -> (empty: bool)
    requires
        from <= to <= bytes@.len(),
    ensures
        empty == blank(bytes@.subrange(from as int, to as int)),
{
    let ghost piece = bytes@.subrange(from as int, to as int);
    let mut i = from;
    while i < to
        invariant
            from <= i <= to <= bytes@.len(),
            piece == bytes@.subrange(from as int, to as int),
            forall|k: int| 0 <= k < i - from ==> is_white(#[trigger] piece[k]),
        decreases to - i,
    {
        let byte = bytes[i];
        if !((9 <= byte && byte <= 13) || byte == 32) {
            assert(!is_white(piece[i - from]));
            return false;
        }
        i += 1;
    }
    true
}

/// The pair of delimiters that encloses a construct within `text`.
fn find_pair(text: &[u8], delimiter: &[u8]) -> (found: Option<(usize, usize)>)
    ensures
        found is Some <==> pair(text@, delimiter@) is Some,
        found matches Some((first, last)) ==> pair(text@, delimiter@) == Some(
            (first as int, last as int),
        ),
{
    assert(text@.subrange(0, text@.len() as int) =~= text@);
    proof {
        lemma_find_from(text@, delimiter@, 0);
    }
    match find(text, delimiter, 0, text.len()) {
        Some(first) => {
            proof {
                lemma_rfind_from(text@, delimiter@, first + delimiter@.len());
            }
            match rfind(text, delimiter, first + delimiter.len()) {
                Some(last) => if is_blank(text, first + delimiter.len(), last) {
                    None
                } else {
                    Some((first, last))
                },
                None => None,
            }
        },
        None => None,
    }
}

/// A text event that holds `piece`.
fn text_of(piece: &str, span: Span) -> (event: Located)
    ensures
        event@ == (LocatedView {
            lexeme: LexemeView::Base(TokenView::Text(decode_utf8(piece.spec_bytes()))),
            span,
        }),
{
    proof {
        vstd::utf8::encode_utf8_decode_utf8(piece@);
    }
    Located { lexeme: Lexeme::Base(Token::Text(piece.to_owned())), span }
}

/// The span of the bytes `from` to `to` of a text that has the span `base`.
fn place_at(base: Span, exact: bool, from: usize, to: usize) -> (span: Span)
    requires
        exact ==> base.start + to <= usize::MAX && from <= to,
    ensures
        span == place(base, exact, from as int, to as int),
{
    if exact {
        Span { start: base.start + from, end: base.start + to }
    } else {
        base
    }
}

/// The events of a construct within `text`, between delimiters at `first`
/// and `last`.
fn split_pair(text: &str, base: Span, construct: Construct, first: usize, last: usize) -> (events:
    VecDeque<Located>)
    requires
        occurs_at(text.spec_bytes(), construct.delimiter(), first as int),
        occurs_at(text.spec_bytes(), construct.delimiter(), last as int),
        first + construct.delimiter().len() <= last,
    ensures
        lexemes_view(events@) == split_events(text.spec_bytes(), base, construct, first as int, last as int),
{
    let bytes = text.as_bytes();
    let size = bytes.len();
    let width = construct.delimiter_str().as_bytes().len();
    let exact = base.start <= base.end && base.end - base.start == size;
    proof {
        let all = text.spec_bytes();
        let mark = construct.delimiter();
        vstd::utf8::encode_utf8_valid_utf8(text@);
        vstd::utf8::is_char_boundary_start_end_of_seq(all);
        assert(all.subrange(first as int, first + width)[0] == mark[0]);
        assert(all.subrange(first as int, first + width)[width - 1] == mark[width - 1]);
        assert(all.subrange(last as int, last + width)[0] == mark[0]);
        assert(all.subrange(last as int, last + width)[width - 1] == mark[width - 1]);
        lemma_ascii_boundaries(all, first as int);
        lemma_ascii_boundaries(all, first + width - 1);
        lemma_ascii_boundaries(all, last as int);
        lemma_ascii_boundaries(all, last + width - 1);
    }
    let lead = slice(text, 0, first).unwrap();
    let inner = slice(text, first + width, last).unwrap();
    let trail = slice(text, last + width, size).unwrap();
    let mut events: VecDeque<Located> = VecDeque::new();
    events.push_back(text_of(lead, place_at(base, exact, 0, first)));
    events.push_back(
        Located {
            lexeme: Lexeme::Start(construct),
            span: place_at(base, exact, first, first + width),
        },
    );
    events.push_back(text_of(inner, place_at(base, exact, first + width, last)));
    events.push_back(
        Located { lexeme: Lexeme::End(construct), span: place_at(base, exact, last, last + width) },
    );
    events.push_back(text_of(trail, place_at(base, exact, last + width, size)));
    assert(lexemes_view(events@) =~= split_events(
        text.spec_bytes(),
        base,
        construct,
        first as int,
        last as int,
    ));
    events
}

/// The events of a construct within a text, between delimiters at `first`
/// and `last`: the text before it, its start, its content, its end, and the
/// text behind it.
pub open spec fn split_events(
    text: Seq<u8>,
    base: Span,
    construct: Construct,
    first: int,
    last: int,
) -> Seq<LocatedView> {
    let exact = fits(base, text.len() as int);
    let width = construct.delimiter().len();
    seq![
        text_event(text, 0, first, place(base, exact, 0, first)),
        LocatedView {
            lexeme: LexemeView::Start(construct),
            span: place(base, exact, first, first + width),
        },
        text_event(text, first + width, last, place(base, exact, first + width, last)),
        LocatedView {
            lexeme: LexemeView::End(construct),
            span: place(base, exact, last, last + width),
        },
        text_event(
            text,
            last + width,
            text.len() as int,
            place(base, exact, last + width, text.len() as int),
        ),
    ]
}

/// The delimiters of a pair stand in the text, the second behind the first.
pub proof fn lemma_pair(text: Seq<u8>, delimiter: Seq<u8>)
    ensures
        pair(text, delimiter) matches Some((first, last)) ==> occurs_at(text, delimiter, first)
            && occurs_at(text, delimiter, last) && first + delimiter.len() <= last,
{
    lemma_find_from(text, delimiter, 0);
    if let Some(first) = find_from(text, delimiter, 0) {
        lemma_rfind_from(text, delimiter, first + delimiter.len());
    }
}

/// What the lexer makes of the text `value` outside any construct.
fn split_text(source: &str, value: String, base: Span) -> (made: (VecDeque<Located>, Context))
    ensures
        lexemes_view(made.0@) == split(source.spec_bytes(), value@, base).0,
        made.1 == split(source.spec_bytes(), value@, base).1,
{
    let text = value.as_str();
    let bytes = text.as_bytes();
    let ghost all = text.spec_bytes();
    proof {
        lemma_pair(all, Construct::Highlight.delimiter());
        lemma_pair(all, Construct::Tex(false).delimiter());
        lemma_find_from(all, Construct::Tex(true).delimiter(), 0);
        assert(all.subrange(0, all.len() as int) =~= all);
    }
    if let Some((first, last)) = find_pair(bytes, Construct::Highlight.delimiter_str().as_bytes()) {
        return (split_pair(text, base, Construct::Highlight, first, last), Context::Idle);
    }
    if let Some((first, last)) = find_pair(bytes, Construct::Tex(false).delimiter_str().as_bytes()) {
        return (split_pair(text, base, Construct::Tex(false), first, last), Context::Idle);
    }
    let opener = Construct::Tex(true);
    if let Some(at) = find(bytes, opener.delimiter_str().as_bytes(), 0, bytes.len()) {
        let located = match slice(source, base.start, base.end) {
            Some(piece) => same_bytes(piece.as_bytes(), bytes),
            None => false,
        };
        if located {
            proof {
                vstd::utf8::encode_utf8_valid_utf8(text@);
                vstd::utf8::is_char_boundary_start_end_of_seq(all);
                assert(all.subrange(at as int, at + 2)[0] == opener.delimiter()[0]);
                lemma_ascii_boundaries(all, at as int);
            }
            let lead = slice(text, 0, at).unwrap();
            let mut events: VecDeque<Located> = VecDeque::new();
            events.push_back(text_of(lead, place_at(base, true, 0, at)));
            events.push_back(
                Located { lexeme: Lexeme::Start(opener), span: place_at(base, true, at, at + 2) },
            );
            assert(lexemes_view(events@) =~= split(source.spec_bytes(), value@, base).0);
            return (events, Context::Open { construct: opener, start: base.start + at + 2 });
        }
    }
    let mut events: VecDeque<Located> = VecDeque::new();
    events.push_back(Located { lexeme: Lexeme::Base(Token::Text(value)), span: base });
    assert(lexemes_view(events@) =~= split(source.spec_bytes(), value@, base).0);
    (events, Context::Idle)
}

/// What the lexer makes of an event with the span `span` inside a construct
/// that reaches over several events.
fn close_with(source: &str, span: Span, construct: Construct, start: usize) -> (result: Result<
    (VecDeque<Located>, Context),
    ComponentError,
>)
    ensures
        match close(source.spec_bytes(), span, construct, start) {
            Ok((events, context)) => result matches Ok((made, after)) && lexemes_view(made@)
                == events && after == context,
            Err(error) => result matches Err(found) && found == error,
        },
{
    if slice(source, span.start, span.end).is_none() {
        return Err(ComponentError::Invariant(Violation::Span));
    }
    let mark = construct.delimiter_str().as_bytes();
    let width = mark.len();
    let from = if span.start < start {
        start
    } else {
        span.start
    };
    proof {
        lemma_find_from(
            source.spec_bytes().subrange(0, span.end as int),
            construct.delimiter(),
            from as int,
        );
    }
    match find(source.as_bytes(), mark, from, span.end) {
        None => Ok((VecDeque::new(), Context::Open { construct, start })),
        Some(at) => {
            let content = slice(source, start, at);
            let trail = slice(source, at + width, span.end);
            match (content, trail) {
                (Some(content), Some(trail)) => {
                    let mut events: VecDeque<Located> = VecDeque::new();
                    events.push_back(text_of(content, Span { start, end: at }));
                    events.push_back(
                        Located {
                            lexeme: Lexeme::End(construct),
                            span: Span { start: at, end: at + width },
                        },
                    );
                    events.push_back(text_of(trail, Span { start: at + width, end: span.end }));
                    assert(lexemes_view(events@) =~= close(
                        source.spec_bytes(),
                        span,
                        construct,
                        start,
                    )->Ok_0.0);
                    Ok((events, Context::Idle))
                },
                _ => Err(ComponentError::Invariant(Violation::Span)),
            }
        },
    }
}

/// What the lexer makes of one token: the events that it gives rise to, and
/// what the lexer is in the middle of afterwards.
pub fn step(source: &str, token: Spanned, context: Context) -> (result: Result<
    (VecDeque<Located>, Context),
    ComponentError,
>)
    ensures
        match advance(source.spec_bytes(), token@, context) {
            Ok((events, next)) => result matches Ok((made, after)) && lexemes_view(made@)
                == events && after == next,
            Err(error) => result matches Err(found) && found == error,
        },
{
    match context {
        Context::Idle => match token.token {
            Token::Text(value) => Ok(split_text(source, value, token.span)),
            other => {
                let mut events: VecDeque<Located> = VecDeque::new();
                events.push_back(Located { lexeme: Lexeme::Base(other), span: token.span });
                assert(lexemes_view(events@) =~= advance(
                    source.spec_bytes(),
                    token@,
                    context,
                )->Ok_0.0);
                Ok((events, Context::Idle))
            },
        },
        Context::Open { construct, start } => close_with(source, token.span, construct, start),
    }
}

/// The extended lexer over the tokens of one source: a sequence of events
/// that is read from the front, once.
pub struct Lexer<'a> {
    source: &'a str,
    tokens: VecDeque<Spanned>,
    remainder: VecDeque<Located>,
    context: Context,
}

/// The mathematical value of a [`Lexer`].
pub struct LexerView {
    /// The bytes of the source.
    pub source: Seq<u8>,
    /// The tokens that are still to be read.
    pub tokens: Seq<SpannedView>,
    /// The events that are made and not handed out yet.
    pub remainder: Seq<LocatedView>,
    /// What the lexer is in the middle of.
    pub context: Context,
}

impl<'a> View for Lexer<'a> {
    type V = LexerView;

    closed spec fn view(&self) -> LexerView {
        LexerView {
            source: self.source.spec_bytes(),
            tokens: tokens_view(self.tokens@),
            remainder: lexemes_view(self.remainder@),
            context: self.context,
        }
    }
}

impl LexerView {
    /// A lexer that has not read any of `tokens` yet.
    pub open spec fn fresh(source: Seq<u8>, tokens: Seq<SpannedView>) -> LexerView {
        LexerView { source, tokens, remainder: Seq::empty(), context: Context::Idle }
    }

    /// The next event and the lexer after it was handed out, or `None` and
    /// the lexer as it is where no event is left, or the error on which the
    /// lexer fails before it makes another event.
    pub open spec fn pull(self) -> Result<(Option<LocatedView>, LexerView), ComponentError>
        decreases self.tokens.len(), self.remainder.len(),
    {
        if self.remainder.len() > 0 {
            Ok(
                (
                    Some(self.remainder[0]),
                    LexerView { remainder: self.remainder.skip(1), ..self },
                ),
            )
        } else if self.tokens.len() == 0 {
            Ok((None, self))
        } else {
            match advance(self.source, self.tokens[0], self.context) {
                Ok((events, context)) => (LexerView {
                    source: self.source,
                    tokens: self.tokens.skip(1),
                    remainder: events,
                    context,
                }).pull(),
                Err(error) => Err(error),
            }
        }
    }

    /// The lexer after it failed to make its next event: the token on which
    /// it failed is read, and nothing else has changed.
    pub open spec fn stalled(self) -> LexerView
        decreases self.tokens.len(), self.remainder.len(),
    {
        if self.remainder.len() > 0 || self.tokens.len() == 0 {
            self
        } else {
            match advance(self.source, self.tokens[0], self.context) {
                Ok((events, context)) => (LexerView {
                    source: self.source,
                    tokens: self.tokens.skip(1),
                    remainder: events,
                    context,
                }).stalled(),
                Err(_) => LexerView { tokens: self.tokens.skip(1), ..self },
            }
        }
    }

    /// All the events that are left, or the error on which the lexer fails.
    pub open spec fn drain(self) -> Result<Seq<LocatedView>, ComponentError>
        decreases self.tokens.len(),
    {
        if self.tokens.len() == 0 {
            Ok(self.remainder)
        } else {
            match advance(self.source, self.tokens[0], self.context) {
                Ok((events, context)) => match (LexerView {
                    source: self.source,
                    tokens: self.tokens.skip(1),
                    remainder: events,
                    context,
                }).drain() {
                    Ok(rest) => Ok(self.remainder + rest),
                    Err(error) => Err(error),
                },
                Err(error) => Err(error),
            }
        }
    }
}

/// The value of an event that may be there.
pub open spec fn optional_event(event: Option<Located>) -> Option<LocatedView> {
    match event {
        Some(event) => Some(event@),
        None => None,
    }
}

impl<'a> Lexer<'a> {
    /// A lexer over `tokens`, which stand for parts of `source`.
    pub fn from_tokens(source: &'a str, tokens: Vec<Spanned>) -> (lexer: Lexer<'a>)
        ensures
            lexer@ == LexerView::fresh(source.spec_bytes(), tokens_view(tokens@)),
    {
        let mut tokens = tokens;
        let ghost all = tokens@;
        let mut queue: VecDeque<Spanned> = VecDeque::new();
        while tokens.len() > 0
            invariant
                tokens@ + queue@ == all,
            decreases tokens@.len(),
        {
            let ghost before = tokens@;
            let ghost queued = queue@;
            let token = tokens.pop().unwrap();
            queue.push_front(token);
            assert(tokens@ + queue@ =~= before + queued);
        }
        assert(queue@ =~= all);
        let lexer = Lexer { source, tokens: queue, remainder: VecDeque::new(), context: Context::Idle };
        assert(lexer@.remainder =~= Seq::empty());
        lexer
    }

    /// The next event, or `None` where no event is left. Where the lexer
    /// fails on a token, that token is read all the same.
    pub fn next(&mut self) -> (result: Result<Option<Located>, ComponentError>)
        ensures
            match old(self)@.pull() {
                Ok((event, after)) => result matches Ok(made) && optional_event(made) == event
                    && final(self)@ == after,
                Err(error) => result matches Err(found) && found == error && final(self)@ == old(
                    self,
                )@.stalled(),
            },
    {
        loop
            invariant
                self@.pull() == old(self)@.pull(),
                self@.stalled() == old(self)@.stalled(),
            decreases self.tokens@.len(),
        {
            let ghost before = self@;
            if let Some(event) = self.remainder.pop_front() {
                assert(self@.remainder =~= before.remainder.skip(1));
                return Ok(Some(event));
            }
            match self.tokens.pop_front() {
                None => {
                    return Ok(None);
                },
                Some(token) => {
                    assert(self@.tokens =~= before.tokens.skip(1));
                    match step(self.source, token, self.context) {
                        Ok((events, context)) => {
                            self.remainder = events;
                            self.context = context;
                        },
                        Err(error) => {
                            return Err(error);
                        },
                    }
                },
            }
        }
    }

    /// All the events that are left, in order.
    pub fn collect(self) -> (result: Result<Vec<Located>, ComponentError>)
        ensures
            match self@.drain() {
                Ok(events) => result matches Ok(made) && lexemes_view(made@) == events,
                Err(error) => result matches Err(found) && found == error,
            },
    {
        let mut lexer = self;
        let mut events: Vec<Located> = Vec::new();
        loop
            invariant
                match lexer@.drain() {
                    Ok(rest) => self@.drain() == Ok::<Seq<LocatedView>, ComponentError>(
                        lexemes_view(events@) + rest,
                    ),
                    Err(error) => self@.drain() == Err::<Seq<LocatedView>, ComponentError>(error),
                },
            decreases lexer@.tokens.len(), lexer@.remainder.len(),
        {
            proof {
                lemma_drain_pull(lexer@);
            }
            let ghost before = events@;
            match lexer.next() {
                Ok(Some(event)) => {
                    events.push(event);
                    assert(lexemes_view(events@) =~= lexemes_view(before).push(event@));
                    assert(forall|rest: Seq<LocatedView>|
                        lexemes_view(before) + (seq![event@] + rest) =~= lexemes_view(events@)
                            + rest);
                },
                Ok(None) => {
                    assert(lexemes_view(events@) + Seq::<LocatedView>::empty() =~= lexemes_view(
                        events@,
                    ));
                    return Ok(events);
                },
                Err(error) => {
                    return Err(error);
                },
            }
        }
    }
}

/// Draining a lexer is pulling its events one by one.
pub proof fn lemma_drain_pull(lexer: LexerView)
    ensures
        match lexer.pull() {
            Ok((Some(event), after)) => (match after.drain() {
                Ok(rest) => lexer.drain() == Ok::<Seq<LocatedView>, ComponentError>(
                    seq![event] + rest,
                ),
                Err(error) => lexer.drain() == Err::<Seq<LocatedView>, ComponentError>(error),
            }) && (after.tokens.len() < lexer.tokens.len() || (after.tokens.len()
                == lexer.tokens.len() && after.remainder.len() < lexer.remainder.len())),
            Ok((None, after)) => lexer.drain() == Ok::<Seq<LocatedView>, ComponentError>(
                Seq::empty(),
            ),
            Err(error) => lexer.drain() == Err::<Seq<LocatedView>, ComponentError>(error),
        },
    decreases lexer.tokens.len(), lexer.remainder.len(),
{
    if lexer.remainder.len() > 0 {
        let after = LexerView { remainder: lexer.remainder.skip(1), ..lexer };
        lemma_drain_remainder(lexer);
        lemma_drain_remainder(after);
        match after.drain() {
            Ok(rest) => {
                let tail = (LexerView { remainder: Seq::empty(), ..lexer }).drain()->Ok_0;
                assert(lexer.remainder + tail =~= seq![lexer.remainder[0]] + (
                lexer.remainder.skip(1) + tail));
            },
            Err(_) => {},
        }
    } else if lexer.tokens.len() == 0 {
        assert(lexer.remainder =~= Seq::empty());
    } else {
        match advance(lexer.source, lexer.tokens[0], lexer.context) {
            Ok((events, context)) => {
                let next = LexerView {
                    source: lexer.source,
                    tokens: lexer.tokens.skip(1),
                    remainder: events,
                    context,
                };
                lemma_drain_pull(next);
                match next.drain() {
                    Ok(rest) => {
                        assert(lexer.remainder + rest =~= rest);
                    },
                    Err(_) => {},
                }
            },
            Err(_) => {},
        }
    }
}

/// What is made and not handed out yet stands first in what is left.
pub proof fn lemma_drain_remainder(lexer: LexerView)
    ensures
        match (LexerView { remainder: Seq::empty(), ..lexer }).drain() {
            Ok(rest) => lexer.drain() == Ok::<Seq<LocatedView>, ComponentError>(
                lexer.remainder + rest,
            ),
            Err(error) => lexer.drain() == Err::<Seq<LocatedView>, ComponentError>(error),
        },
{
    let bare = LexerView { remainder: Seq::empty(), ..lexer };
    if lexer.tokens.len() == 0 {
        assert(lexer.remainder + bare.remainder =~= lexer.remainder);
    } else {
        match advance(lexer.source, lexer.tokens[0], lexer.context) {
            Ok((events, context)) => {
                let next = LexerView {
                    source: lexer.source,
                    tokens: lexer.tokens.skip(1),
                    remainder: events,
                    context,
                };
                match next.drain() {
                    Ok(rest) => {
                        assert(bare.remainder + rest =~= rest);
                    },
                    Err(_) => {},
                }
            },
            Err(_) => {},
        }
    }
}

/// Pulling an event leaves less to do.
pub proof fn lemma_pull_decreases(lexer: LexerView)
    ensures
        lexer.pull() matches Ok((Some(_), after)) ==> after.source == lexer.source && (
        after.tokens.len() < lexer.tokens.len() || (after.tokens.len() == lexer.tokens.len()
            && after.remainder.len() < lexer.remainder.len())),
    decreases lexer.tokens.len(), lexer.remainder.len(),
{
    if lexer.remainder.len() == 0 && lexer.tokens.len() > 0 {
        match advance(lexer.source, lexer.tokens[0], lexer.context) {
            Ok((events, context)) => {
                lemma_pull_decreases(
                    LexerView {
                        source: lexer.source,
                        tokens: lexer.tokens.skip(1),
                        remainder: events,
                        context,
                    },
                );
            },
            Err(_) => {},
        }
    }
}

/// Whether a token is free of the characters that delimit constructs.
pub open spec fn is_plain(token: TokenView) -> bool {
    match token {
        TokenView::Text(value) => find_from(
            encode_utf8(value),
            Construct::Highlight.delimiter(),
            0,
        ) is None && find_from(encode_utf8(value), Construct::Tex(false).delimiter(), 0) is None,
        _ => true,
    }
}

/// The tokens as events, each as it stands.
pub open spec fn passed_on(tokens: Seq<SpannedView>) -> Seq<LocatedView> {
    Seq::new(
        tokens.len(),
        |i: int| LocatedView { lexeme: LexemeView::Base(tokens[i].token), span: tokens[i].span },
    )
}

/// A token that is free of delimiters is passed on as it stands.
pub proof fn lemma_plain_token(source: Seq<u8>, token: SpannedView)
    requires
        is_plain(token.token),
    ensures
        advance(source, token, Context::Idle) == Ok::<(Seq<LocatedView>, Context), ComponentError>(
            (
                seq![LocatedView { lexeme: LexemeView::Base(token.token), span: token.span }],
                Context::Idle,
            ),
        ),
{
    if let TokenView::Text(value) = token.token {
        let text = encode_utf8(value);
        let single = Construct::Tex(false).delimiter();
        let double = Construct::Tex(true).delimiter();
        lemma_find_from(text, single, 0);
        lemma_find_from(text, double, 0);
        if let Some(at) = find_from(text, double, 0) {
            assert(text.subrange(at, at + 2)[0] == double[0]);
            assert(text.subrange(at, at + 1) =~= single);
            assert(occurs_at(text, single, at));
        }
    }
}

/// Where no token holds a delimiter, the events of the lexer are the tokens
/// of the tokenizer, each as it stands.
pub proof fn lemma_passthrough(source: Seq<u8>, tokens: Seq<SpannedView>)
    requires
        forall|i: int| 0 <= i < tokens.len() ==> is_plain(#[trigger] tokens[i].token),
    ensures
        LexerView::fresh(source, tokens).drain() == Ok::<Seq<LocatedView>, ComponentError>(
            passed_on(tokens),
        ),
    decreases tokens.len(),
{
    let lexer = LexerView::fresh(source, tokens);
    if tokens.len() == 0 {
        assert(lexer.remainder =~= passed_on(tokens));
    } else {
        let first = LocatedView { lexeme: LexemeView::Base(tokens[0].token), span: tokens[0].span };
        let rest = tokens.skip(1);
        lemma_plain_token(source, tokens[0]);
        assert forall|i: int| 0 <= i < rest.len() implies is_plain(#[trigger] rest[i].token) by {
            assert(rest[i] == tokens[i + 1]);
        }
        lemma_passthrough(source, rest);
        let next = LexerView {
            source,
            tokens: rest,
            remainder: seq![first],
            context: Context::Idle,
        };
        lemma_drain_remainder(next);
        assert(LexerView { remainder: Seq::empty(), ..next } == LexerView::fresh(source, rest));
        assert(lexer.remainder + (seq![first] + passed_on(rest)) =~= passed_on(tokens));
    }
}

/// The content that the lexer hands out when it closes a construct that
/// reaches over several events is, byte for byte, the source from the start
/// of the content to the closing delimiter, and the closing delimiter is the
/// first one that the closing event holds behind the start of the content.
pub proof fn lemma_capture_is_verbatim(
    source: Seq<u8>,
    span: Span,
    construct: Construct,
    start: usize,
)
    requires
        vstd::utf8::valid_utf8(source),
        close(source, span, construct, start) matches Ok((_, context)) && context is Idle,
    ensures
        close(source, span, construct, start) matches Ok((events, _)) && events.len() == 3 && (
        events[0].lexeme matches LexemeView::Base(TokenView::Text(content)) && events[1].lexeme
            == LexemeView::End(construct) && start <= events[1].span.start && encode_utf8(content)
            == source.subrange(start as int, events[1].span.start as int) && occurs_at(
            source.subrange(0, span.end as int),
            construct.delimiter(),
            events[1].span.start as int,
        )),
{
    let from = if span.start < start {
        start as int
    } else {
        span.start as int
    };
    let window = source.subrange(0, span.end as int);
    lemma_find_from(window, construct.delimiter(), from);
    let at = find_from(window, construct.delimiter(), from)->0;
    let content = source.subrange(start as int, at);
    assert(vstd::utf8::valid_utf8(content)) by {
        vstd::utf8::valid_utf8_split(source, at);
        crate::bytes::lemma_boundary_in_prefix(source, start as int, at);
        vstd::utf8::valid_utf8_split(source.subrange(0, at), start as int);
        assert(source.subrange(0, at).subrange(start as int, at) =~= content);
    }
    vstd::utf8::decode_utf8_encode_utf8(content);
}

} // verus!
