//! A transformer of token streams that turns code blocks into markup
//! before the rest of the stream is rendered.

use std::collections::VecDeque;
use vstd::prelude::*;
use crate::event::{Element, ElementKind, ElementView, Token, TokenView};

verus! {

/// Markup text.
#[derive(Debug, Clone, PartialEq, Eq, Hash)]
pub struct HTML(pub String);

/// Why a transformer stops.
#[derive(Debug, Clone, Copy, PartialEq, Eq, Structural)]
#[non_exhaustive]
pub enum TransformerError {
    /// The transformer was stopped from outside.
    Stopped,
}

/// What a character becomes when it is made safe for markup: six characters
/// are replaced by entities, every other character stands for itself.
pub open spec fn safe_char(c: char) -> Seq<char> {
    if c == '&' {
        "&amp;"@
    } else if c == '<' {
        "&lt;"@
    } else if c == '>' {
        "&gt;"@
    } else if c == '"' {
        "&quot;"@
    } else if c == '\'' {
        "&#x27;"@
    } else if c == '/' {
        "&#x2F;"@
    } else {
        seq![c]
    }
}

/// Text made safe for markup, character by character.
pub open spec fn safe_text(text: Seq<char>) -> Seq<char>
    decreases text.len(),
{
    if text.len() == 0 {
        Seq::empty()
    } else {
        safe_text(text.drop_last()) + safe_char(text.last())
    }
}

/// `html_escape::encode_safe`: the text with `&`, `<`, `>`, `"`, `'` and `/`
/// replaced by the entities `&amp;`, `&lt;`, `&gt;`, `&quot;`, `&#x27;` and
/// `&#x2F;`, and every other character as it is.
#[verifier::external_body]
fn encode_safe(text: &str) -> (encoded: String)
    ensures
        encoded@ == safe_text(text@),
{
    html_escape::encode_safe(text).into_owned()
}

/// The text that a token carries, if it is one that can be written as text.
pub open spec fn written_text(token: TokenView) -> Option<Seq<char>> {
    match token {
        TokenView::Text(text) => Some(text),
        TokenView::Code(text) => Some(text),
        TokenView::Html(text) => Some(text),
        _ => None,
    }
}

/// Something that tokens can be written to as safe text.
pub trait WriteEvent {
    /// The characters that were written so far.
    spec fn written(&self) -> Seq<char>;

    /// Writes the text of `event`, made safe for markup. A token that is
    /// not text, code or markup is refused and nothing is written.
    fn write_event(&mut self, event: &Token) -> (result: Result<(), ()>)
        ensures
            match written_text(event@) {
                Some(text) => result is Ok && final(self).written() == old(self).written()
                    + safe_text(text),
                None => result is Err && final(self).written() == old(self).written(),
            },
    ;
}

impl WriteEvent for String {
    open spec fn written(&self) -> Seq<char> {
        self@
    }

    fn write_event(&mut self, event: &Token) -> (result: Result<(), ()>) {
        match event {
            Token::Text(text) => {
                self.append(encode_safe(text.as_str()).as_str());
                Ok(())
            },
            Token::Code(code) => {
                self.append(encode_safe(code.as_str()).as_str());
                Ok(())
            },
            Token::Html(html) => {
                self.append(encode_safe(html.as_str()).as_str());
                Ok(())
            },
            _ => Err(()),
        }
    }
}

/// What the transformer is in the middle of.
#[derive(Debug)]
pub enum TransformerState {
    /// Outside any code block: tokens pass.
    Passthrough,
    /// Inside an indented code block, which becomes a quote.
    InQuote { content: String },
    /// Inside a fenced code block in the language `lang`.
    InCode { lang: String, content: String },
    /// Stopped.
    Error(TransformerError),
}

/// The mathematical value of a [`TransformerState`].
pub enum StateView {
    Passthrough,
    InQuote { content: Seq<char> },
    InCode { lang: Seq<char>, content: Seq<char> },
    Error(TransformerError),
}

impl View for TransformerState {
    type V = StateView;

    open spec fn view(&self) -> StateView {
        match self {
            TransformerState::Passthrough => StateView::Passthrough,
            TransformerState::InQuote { content } => StateView::InQuote { content: content@ },
            TransformerState::InCode { lang, content } => StateView::InCode {
                lang: lang@,
                content: content@,
            },
            TransformerState::Error(error) => StateView::Error(*error),
        }
    }
}

impl Default for TransformerState {
    fn default() -> (state: TransformerState)
        ensures
            state@ is Passthrough,
    {
        TransformerState::Passthrough
    }
}

/// The markup of a quote with the given content.
pub open spec fn quote_markup(content: Seq<char>) -> Seq<char> {
    "<p class=\"quote\">"@ + content + "</p>"@
}

/// The markup of code in the given language.
pub open spec fn code_markup(lang: Seq<char>, content: Seq<char>) -> Seq<char> {
    "<pre><code class=\"language-"@ + lang + "\">\n"@ + content + "\n</code></pre>"@
}

impl StateView {
    /// Whether the transformer takes `token` in this state. Inside a code
    /// block it takes what can be written as text, and the end of the block.
    pub open spec fn takes(self, token: TokenView) -> bool {
        match self {
            StateView::InQuote { .. } | StateView::InCode { .. } => token == TokenView::End(
                ElementKind::CodeBlock,
            ) || written_text(token) is Some,
            _ => true,
        }
    }

    /// The state after `token`, and the token that is handed on, if any.
    /// Outside a code block a token passes as it is, but the start of a code
    /// block is held back. Inside, text is collected and not handed on; the
    /// end of the block hands on the collected text as one piece of markup.
    pub open spec fn step(self, token: TokenView) -> (StateView, Option<TokenView>) {
        match self {
            StateView::Passthrough => match token {
                TokenView::Start(ElementView::CodeBlock(None)) => (
                    StateView::InQuote { content: Seq::empty() },
                    None,
                ),
                TokenView::Start(ElementView::CodeBlock(Some(lang))) => (
                    StateView::InCode { lang, content: Seq::empty() },
                    None,
                ),
                _ => (self, Some(token)),
            },
            StateView::InQuote { content } => match written_text(token) {
                Some(text) => (StateView::InQuote { content: content + safe_text(text) }, None),
                None => (StateView::Passthrough, Some(TokenView::Html(quote_markup(content)))),
            },
            StateView::InCode { lang, content } => match written_text(token) {
                Some(text) => (
                    StateView::InCode { lang, content: content + safe_text(text) },
                    None,
                ),
                None => (StateView::Passthrough, Some(TokenView::Html(code_markup(lang, content)))),
            },
            StateView::Error(_) => (self, None),
        }
    }
}

/// The value of a token that may be there.
pub open spec fn optional_token(token: Option<Token>) -> Option<TokenView> {
    match token {
        Some(token) => Some(token@),
        None => None,
    }
}

/// Whether `token` can be written as text.
fn is_written(token: &Token) -> (written: bool)
    ensures
        written == written_text(token@) is Some,
{
    match token {
        Token::Text(_) => true,
        Token::Code(_) => true,
        Token::Html(_) => true,
        _ => false,
    }
}

/// Takes one token: moves `state` on and returns the token that is handed
/// on, if any. A transformer that stopped hands its error on.
pub fn process_md_event(state: &mut TransformerState, ev: Token) -> (result: Result<
    Option<Token>,
    TransformerError,
>)
    requires
        old(state)@.takes(ev@),
    ensures
        old(state)@ matches StateView::Error(error) ==> result == Err::<
            Option<Token>,
            TransformerError,
        >(error) && final(state)@ == old(state)@,
        !(old(state)@ is Error) ==> (result matches Ok(passed) && (final(state)@, optional_token(passed))
            == old(state)@.step(ev@)),
{
    let mut current = TransformerState::Passthrough;
    std::mem::swap(state, &mut current);
    match current {
        TransformerState::Passthrough => match ev {
            Token::Start(Element::CodeBlock(None)) => {
                *state = TransformerState::InQuote { content: String::new() };
                Ok(None)
            },
            Token::Start(Element::CodeBlock(Some(lang))) => {
                *state = TransformerState::InCode { lang, content: String::new() };
                Ok(None)
            },
            ev => Ok(Some(ev)),
        },
        TransformerState::InQuote { content } => {
            if is_written(&ev) {
                let mut content = content;
                let _ = content.write_event(&ev);
                *state = TransformerState::InQuote { content };
                Ok(None)
            } else {
                let mut markup = String::from_str("<p class=\"quote\">");
                markup.append(content.as_str());
                markup.append("</p>");
                Ok(Some(Token::Html(markup)))
            }
        },
        TransformerState::InCode { lang, content } => {
            if is_written(&ev) {
                let mut content = content;
                let _ = content.write_event(&ev);
                *state = TransformerState::InCode { lang, content };
                Ok(None)
            } else {
                let mut markup = String::from_str("<pre><code class=\"language-");
                markup.append(lang.as_str());
                markup.append("\">\n");
                markup.append(content.as_str());
                markup.append("\n</code></pre>");
                Ok(Some(Token::Html(markup)))
            }
        },
        TransformerState::Error(error) => {
            *state = TransformerState::Error(error);
            Err(error)
        },
    }
}

/// The values of tokens.
pub open spec fn plain_tokens(tokens: Seq<Token>) -> Seq<TokenView> {
    Seq::new(tokens.len(), |i: int| tokens[i]@)
}

impl StateView {
    /// Whether the transformer takes the tokens one after the other,
    /// beginning in this state.
    pub open spec fn takes_all(self, tokens: Seq<TokenView>) -> bool
        decreases tokens.len(),
    {
        tokens.len() == 0 || (self.takes(tokens[0]) && (self is Error || self.step(
            tokens[0],
        ).0.takes_all(tokens.skip(1))))
    }

    /// The tokens that the transformer hands on for the given tokens,
    /// beginning in this state. A transformer that stopped hands on nothing
    /// more.
    pub open spec fn run(self, tokens: Seq<TokenView>) -> Seq<TokenView>
        decreases tokens.len(),
    {
        if tokens.len() == 0 || self is Error {
            Seq::empty()
        } else {
            let (next, passed) = self.step(tokens[0]);
            match passed {
                Some(token) => seq![token] + next.run(tokens.skip(1)),
                None => next.run(tokens.skip(1)),
            }
        }
    }
}

/// A transformer of a stream of tokens.
#[derive(Debug)]
pub struct StreamTransformer {
    state: TransformerState,
}

impl View for StreamTransformer {
    type V = StateView;

    closed spec fn view(&self) -> StateView {
        self.state@
    }
}

impl StreamTransformer {
    /// A transformer outside any code block.
    pub fn new() -> (transformer: StreamTransformer)
        ensures
            transformer@ is Passthrough,
    {
        StreamTransformer { state: TransformerState::Passthrough }
    }

    /// Whether the transformer takes all of `tokens`: whether inside code
    /// blocks there is nothing but text and the end of the block.
    pub fn accepts(&self, tokens: &Vec<Token>) -> (taken: bool)
        ensures
            taken == self@.takes_all(plain_tokens(tokens@)),
    {
        let ghost views = plain_tokens(tokens@);
        if let TransformerState::Error(_) = &self.state {
            return true;
        }
        let mut inside = match &self.state {
            TransformerState::Passthrough => false,
            _ => true,
        };
        let ghost mut state = self@;
        let mut i: usize = 0;
        assert(views.skip(0) =~= views);
        while i < tokens.len()
            invariant
                i <= tokens@.len(),
                views == plain_tokens(tokens@),
                !(state is Error),
                inside == !(state is Passthrough),
                self@.takes_all(views) == state.takes_all(views.skip(i as int)),
            decreases tokens@.len() - i,
        {
            let ghost rest = views.skip(i as int);
            assert(rest[0] == tokens@[i as int]@);
            assert(rest.skip(1) =~= views.skip(i + 1));
            if inside {
                if is_written(&tokens[i]) {
                } else if let Token::End(ElementKind::CodeBlock) = &tokens[i] {
                    inside = false;
                } else {
                    return false;
                }
            } else if let Token::Start(Element::CodeBlock(_)) = &tokens[i] {
                inside = true;
            }
            proof {
                state = state.step(rest[0]).0;
            }
            i += 1;
        }
        true
    }

    /// Hands the tokens through the transformer and returns those that it
    /// hands on, in order.
    pub fn process_stream(self, tokens: VecDeque<Token>) -> (passed: Vec<Token>)
        requires
            self@.takes_all(plain_tokens(tokens@)),
        ensures
            plain_tokens(passed@) == self@.run(plain_tokens(tokens@)),
    {
        let mut state = self.state;
        let mut queue = tokens;
        let mut passed: Vec<Token> = Vec::new();
        let ghost all = plain_tokens(tokens@);
        assert(plain_tokens(passed@) + state@.run(plain_tokens(queue@)) =~= self@.run(all));
        loop
            invariant
                all == plain_tokens(tokens@),
                state@.takes_all(plain_tokens(queue@)),
                plain_tokens(passed@) + state@.run(plain_tokens(queue@)) == self@.run(all),
            decreases queue@.len(),
        {
            let ghost before = plain_tokens(queue@);
            let ghost done = plain_tokens(passed@);
            let ghost was = state@;
            match queue.pop_front() {
                Some(token) => {
                    assert(plain_tokens(queue@) =~= before.skip(1));
                    assert(before[0] == token@);
                    match process_md_event(&mut state, token) {
                        Ok(Some(result)) => {
                            passed.push(result);
                            assert(plain_tokens(passed@) =~= done.push(result@));
                            assert(done + (seq![result@] + state@.run(before.skip(1)))
                                =~= plain_tokens(passed@) + state@.run(before.skip(1)));
                        },
                        Ok(None) => {},
                        Err(_) => {
                            assert(was.run(before) =~= Seq::<TokenView>::empty());
                            assert(done + Seq::<TokenView>::empty() =~= done);
                            return passed;
                        },
                    }
                },
                None => {
                    assert(was.run(before) =~= Seq::<TokenView>::empty());
                    assert(done + Seq::<TokenView>::empty() =~= done);
                    return passed;
                },
            }
        }
    }
}

} // verus!
