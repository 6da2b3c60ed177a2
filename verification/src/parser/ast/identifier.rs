//! Identifiers: the smallest grammar rule.
use crate::lexer::position::Span;
use crate::lexer::token::{TokenKind, TokenKindView, TokenView};
use crate::parser::{Parse, ParseError, ParseErrorView, Parsed, TokenStream};
use vstd::prelude::*;

verus! {

/// A name in the source, with the span of its token.
#[derive(Debug, PartialEq)]
pub struct Identifier {
    pub name: String,
    pub span: Span,
}

/// An identifier as a mathematical value.
pub struct IdentifierView {
    pub name: Seq<char>,
    pub span: Span,
}

impl View for Identifier {
    type V = IdentifierView;

    open spec fn view(&self) -> IdentifierView {
        IdentifierView { name: self.name@, span: self.span }
    }
}

/// What an identifier is expected to look like in an error report: an
/// identifier token without a name.
pub open spec fn identifier_shape() -> TokenKindView {
    TokenKindView::Identifier(Seq::empty())
}

/// The identifier rule consumes exactly one token where there is one. It
/// succeeds if and only if that token is an identifier.
pub open spec fn identifier_rule(tokens: Seq<TokenView>) -> Parsed<IdentifierView> {
    if tokens.len() == 0 {
        Parsed { outcome: Err(ParseErrorView::UnexpectedEndOfInput), rest: tokens }
    } else {
        Parsed {
            outcome: match tokens[0].kind {
                TokenKindView::Identifier(name) => Ok(
                    IdentifierView { name, span: tokens[0].span },
                ),
                received => Err(
                    ParseErrorView::UnexpectedToken {
                        expected: identifier_shape(),
                        received,
                        span: tokens[0].span,
                    },
                ),
            },
            rest: tokens.drop_first(),
        }
    }
}

impl Parse for Identifier {
    open spec fn rule(tokens: Seq<TokenView>) -> Parsed<IdentifierView> {
        identifier_rule(tokens)
    }

    fn parse(tokens: &mut TokenStream<'_>) -> (outcome: Result<Self, ParseError>) {
        let token = match tokens.next() {
            Some(token) => token,
            None => {
                return Err(ParseError::UnexpectedEndOfInput);
            },
        };
        match token.kind {
            TokenKind::Identifier(name) => Ok(Identifier { name, span: token.span }),
            received => Err(
                ParseError::unexpected(TokenKind::Identifier(String::new()), received, token.span),
            ),
        }
    }
}

} // verus!
