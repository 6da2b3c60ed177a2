//! Parsing infrastructure: the token stream with one token of lookahead, the
//! errors that grammar rules report, and what every grammar rule offers.
use crate::lexer::grammar::{lemma_tokens_from, tokens_from};
use crate::lexer::position::Span;
use crate::lexer::token::{Token, TokenKind, TokenKindView, TokenView};
use crate::lexer::tokens::Tokens;
use vstd::prelude::*;

pub mod ast;

verus! {

/// Why a grammar rule gave up.
#[derive(Debug, PartialEq)]
pub enum ParseError {
    /// The rule needed a token like `expected` and met `received`, which
    /// stands at `span`.
    UnexpectedToken { expected: TokenKind, received: TokenKind, span: Span },
    /// The rule needed a token and the stream had none left.
    UnexpectedEndOfInput,
}

/// A parse error as a mathematical value.
pub enum ParseErrorView {
    UnexpectedToken { expected: TokenKindView, received: TokenKindView, span: Span },
    UnexpectedEndOfInput,
}

impl View for ParseError {
    type V = ParseErrorView;

    open spec fn view(&self) -> ParseErrorView {
        match self {
            ParseError::UnexpectedToken { expected, received, span } => {
                ParseErrorView::UnexpectedToken {
                    expected: expected@,
                    received: received@,
                    span: *span,
                }
            },
            ParseError::UnexpectedEndOfInput => ParseErrorView::UnexpectedEndOfInput,
        }
    }
}

impl ParseError {
    pub fn unexpected(expected: TokenKind, received: TokenKind, span: Span) -> (error: ParseError)
        ensures
            error == (ParseError::UnexpectedToken { expected, received, span }),
    {
        ParseError::UnexpectedToken { expected, received, span }
    }
}

/// The tokens of a text, read one at a time with one token of lookahead.
pub struct TokenStream<'a> {
    tokens: Tokens<'a>,
    peeked: Option<Token>,
}

impl<'a> TokenStream<'a> {
    /// The tokens that have not been consumed yet, in order.
    pub closed spec fn remaining(&self) -> Seq<TokenView> {
        match self.peeked {
            Some(token) => seq![token@] + tokens_from(self.tokens.text(), self.tokens.index()),
            None => Seq::empty(),
        }
    }

    /// The stream's invariant: the lookahead is empty only when the
    /// tokenizer is exhausted.
    pub closed spec fn wf(&self) -> bool {
        &&& self.tokens.wf()
        &&& self.peeked is None ==> self.tokens.index() == self.tokens.text().len()
    }

    /// A stream of the tokens that `tokens` has yet to yield.
    pub fn new(tokens: Tokens<'a>) -> (stream: Self)
        requires
            tokens.wf(),
        ensures
            stream.wf(),
            stream.remaining() == tokens_from(tokens.text(), tokens.index()),
    {
        let mut tokens = tokens;
        proof {
            tokens.lemma_wf();
            lemma_tokens_from(tokens.text(), tokens.index());
        }
        let peeked = tokens.next();
        Self { tokens, peeked }
    }

    /// The next token, without consuming it; `None` at the end of the input.
    pub fn peek(&self) -> (token: Option<&Token>)
        requires
            self.wf(),
        ensures
            match token {
                Some(token) => self.remaining().len() > 0 && token@ == self.remaining()[0],
                None => self.remaining().len() == 0,
            },
    {
        self.peeked.as_ref()
    }

    /// Consumes and returns the next token; `None` at the end of the input.
    pub fn next(&mut self) -> (token: Option<Token>)
        requires
            old(self).wf(),
        ensures
            final(self).wf(),
            match token {
                Some(token) => {
                    &&& old(self).remaining().len() > 0
                    &&& token@ == old(self).remaining()[0]
                    &&& final(self).remaining() == old(self).remaining().drop_first()
                },
                None => old(self).remaining().len() == 0 && final(self).remaining().len() == 0,
            },
    {
        proof {
            self.tokens.lemma_wf();
            lemma_tokens_from(self.tokens.text(), self.tokens.index());
        }
        let token = self.peeked.take();
        if token.is_some() {
            self.peeked = self.tokens.next();
            proof {
                let rest = tokens_from(old(self).tokens.text(), old(self).tokens.index());
                assert((seq![token.unwrap()@] + rest).drop_first() =~= rest);
            }
        }
        token
    }
}

/// What a grammar rule makes of a sequence of tokens: the node it builds or
/// the error it reports, and the tokens it leaves unconsumed.
pub struct Parsed<T> {
    pub outcome: Result<T, ParseErrorView>,
    pub rest: Seq<TokenView>,
}

/// The outcome of a parse as a mathematical value.
pub open spec fn outcome_view<T: View>(outcome: Result<T, ParseError>) -> Result<
    T::V,
    ParseErrorView,
> {
    match outcome {
        Ok(node) => Ok(node@),
        Err(error) => Err(error@),
    }
}

/// A grammar rule: a node of the syntax tree that can be parsed from a token
/// stream. The first error ends the parse; nothing is consumed beyond what
/// the rule itself says.
pub trait Parse: Sized + View {
    /// What the rule makes of `tokens`.
    spec fn rule(tokens: Seq<TokenView>) -> Parsed<Self::V>;

    /// Parses one node from the front of `tokens`.
    fn parse(tokens: &mut TokenStream<'_>) -> (outcome: Result<Self, ParseError>)
        requires
            old(tokens).wf(),
        ensures
            final(tokens).wf(),
            outcome_view(outcome) == Self::rule(old(tokens).remaining()).outcome,
            final(tokens).remaining() == Self::rule(old(tokens).remaining()).rest,
    ;
}

} // verus!
