//! Type expressions: a name followed by any number of array and optional
//! suffixes.
use super::identifier::{identifier_rule, Identifier, IdentifierView};
use crate::lexer::token::{TokenKind, TokenKindView, TokenView};
use crate::parser::{outcome_view, Parse, ParseError, ParseErrorView, Parsed, TokenStream};
use vstd::prelude::*;

verus! {

/// The three forms of a type expression.
#[derive(Debug, PartialEq)]
pub enum TypeVariant {
    /// A type known by its name.
    Named { name: Identifier },
    /// `inner[]`: an array of `inner`.
    Array { inner: Box<Type> },
    /// `inner?`: an optional `inner`.
    Optional { inner: Box<Type> },
}

/// A type expression.
#[derive(Debug, PartialEq)]
pub struct Type {
    pub variant: TypeVariant,
}

/// A type expression as a mathematical value.
pub enum TypeView {
    Named(IdentifierView),
    Array(Box<TypeView>),
    Optional(Box<TypeView>),
}

/// The mathematical value of a type expression, node by node.
pub open spec fn type_view(ty: Type) -> TypeView
    decreases ty,
{
    match ty.variant {
        TypeVariant::Named { name } => TypeView::Named(name@),
        TypeVariant::Array { inner } => TypeView::Array(Box::new(type_view(*inner))),
        TypeVariant::Optional { inner } => TypeView::Optional(Box::new(type_view(*inner))),
    }
}

impl View for Type {
    type V = TypeView;

    open spec fn view(&self) -> TypeView {
        type_view(*self)
    }
}

impl View for TypeVariant {
    type V = TypeView;

    open spec fn view(&self) -> TypeView {
        type_view(Type { variant: *self })
    }
}

/// The error for a `[` that no `]` follows. It reports what stands in the
/// place of the `]`, or the end of the input with the span of the `[`.
pub open spec fn unclosed_bracket(tokens: Seq<TokenView>) -> ParseErrorView {
    if tokens.len() > 1 {
        ParseErrorView::UnexpectedToken {
            expected: TokenKindView::RightSquare,
            received: tokens[1].kind,
            span: tokens[1].span,
        }
    } else {
        ParseErrorView::UnexpectedToken {
            expected: TokenKindView::RightSquare,
            received: TokenKindView::EndOfInput,
            span: tokens[0].span,
        }
    }
}

/// The suffixes that follow the type `current`: each `[]` wraps what was
/// parsed so far in an array, each `?` in an optional, so that the last
/// suffix in the source is the outermost node. The first token that starts no
/// suffix ends the type and is left in the stream. A `[` without its `]` is
/// an error, and what stands in the place of the `]` is left in the stream.
pub open spec fn suffix_rule(current: TypeView, tokens: Seq<TokenView>) -> Parsed<TypeView>
    decreases tokens.len(),
{
    if tokens.len() > 0 && tokens[0].kind == TokenKindView::LeftSquare {
        if tokens.len() > 1 && tokens[1].kind == TokenKindView::RightSquare {
            suffix_rule(TypeView::Array(Box::new(current)), tokens.skip(2))
        } else {
            Parsed { outcome: Err(unclosed_bracket(tokens)), rest: tokens.skip(1) }
        }
    } else if tokens.len() > 0 && tokens[0].kind == TokenKindView::Question {
        suffix_rule(TypeView::Optional(Box::new(current)), tokens.skip(1))
    } else {
        Parsed { outcome: Ok(current), rest: tokens }
    }
}

/// A type expression is an identifier and the suffixes that follow it.
pub open spec fn type_rule(tokens: Seq<TokenView>) -> Parsed<TypeView> {
    let base = identifier_rule(tokens);
    match base.outcome {
        Ok(name) => suffix_rule(TypeView::Named(name), base.rest),
        Err(error) => Parsed { outcome: Err(error), rest: base.rest },
    }
}

impl Parse for Type {
    open spec fn rule(tokens: Seq<TokenView>) -> Parsed<TypeView> {
        type_rule(tokens)
    }

    fn parse(tokens: &mut TokenStream<'_>) -> (outcome: Result<Self, ParseError>) {
        let name = match Identifier::parse(tokens) {
            Ok(name) => name,
            Err(error) => {
                return Err(error);
            },
        };
        parse_inner(Type { variant: TypeVariant::Named { name } }, tokens)
    }
}

/// Parses the suffixes that follow the type `ty`.
pub fn parse_inner(ty: Type, tokens: &mut TokenStream<'_>) -> (outcome: Result<Type, ParseError>)
    requires
        old(tokens).wf(),
    ensures
        final(tokens).wf(),
        outcome_view(outcome) == suffix_rule(ty@, old(tokens).remaining()).outcome,
        final(tokens).remaining() == suffix_rule(ty@, old(tokens).remaining()).rest,
{
    let ghost expected = suffix_rule(ty@, tokens.remaining());
    let mut current = ty;
    loop
        invariant
            tokens.wf(),
            expected == suffix_rule(ty@, old(tokens).remaining()),
            suffix_rule(current@, tokens.remaining()) == expected,
        decreases tokens.remaining().len(),
    {
        let ghost before = tokens.remaining();
        if next_is(tokens, &TokenKind::LeftSquare) {
            let opening = tokens.next();
            if next_is(tokens, &TokenKind::RightSquare) {
                tokens.next();
                proof {
                    assert(before.drop_first().drop_first() =~= before.skip(2));
                }
                current = Type { variant: TypeVariant::Array { inner: Box::new(current) } };
            } else {
                proof {
                    assert(before.drop_first() =~= before.skip(1));
                }
                let (received, span) = match tokens.peek() {
                    Some(token) => (token.kind.clone(), token.span),
                    None => (TokenKind::EndOfInput, opening.unwrap().span),
                };
                return Err(ParseError::unexpected(TokenKind::RightSquare, received, span));
            }
        } else if next_is(tokens, &TokenKind::Question) {
            tokens.next();
            proof {
                assert(before.drop_first() =~= before.skip(1));
            }
            current = Type { variant: TypeVariant::Optional { inner: Box::new(current) } };
        } else {
            return Ok(current);
        }
    }
}

/// Whether the next token of `tokens` is the bracket or mark `kind`.
fn next_is(tokens: &TokenStream<'_>, kind: &TokenKind) -> (found: bool)
    requires
        tokens.wf(),
        kind@ == TokenKindView::LeftSquare || kind@ == TokenKindView::RightSquare || kind@
            == TokenKindView::Question,
    ensures
        found == (tokens.remaining().len() > 0 && tokens.remaining()[0].kind == kind@),
{
    match tokens.peek() {
        Some(token) => match (&token.kind, kind) {
            (TokenKind::LeftSquare, TokenKind::LeftSquare) => true,
            (TokenKind::RightSquare, TokenKind::RightSquare) => true,
            (TokenKind::Question, TokenKind::Question) => true,
            _ => false,
        },
        None => false,
    }
}

/// Suffixes parsed to the end of the input can be parsed on: with more
/// tokens behind them, the rule goes on from the type that they built.
proof fn lemma_suffixes_continue(current: TypeView, tokens: Seq<TokenView>, more: Seq<TokenView>)
    requires
        suffix_rule(current, tokens).outcome is Ok,
        suffix_rule(current, tokens).rest.len() == 0,
    ensures
        suffix_rule(current, tokens + more) == suffix_rule(
            suffix_rule(current, tokens).outcome->Ok_0,
            more,
        ),
    decreases tokens.len(),
{
    if tokens.len() == 0 {
        assert(tokens + more =~= more);
    } else if tokens[0].kind == TokenKindView::LeftSquare {
        assert(tokens.len() > 1 && tokens[1].kind == TokenKindView::RightSquare);
        assert((tokens + more).skip(2) =~= tokens.skip(2) + more);
        lemma_suffixes_continue(TypeView::Array(Box::new(current)), tokens.skip(2), more);
    } else if tokens[0].kind == TokenKindView::Question {
        assert((tokens + more).skip(1) =~= tokens.skip(1) + more);
        lemma_suffixes_continue(TypeView::Optional(Box::new(current)), tokens.skip(1), more);
    }
}

/// The last suffix in the source is the outermost node. If `tokens` are a
/// whole type expression, then with a `?` behind them they are the optional
/// of that type, and with `[` and `]` behind them the array of that type.
pub proof fn lemma_last_suffix_is_outermost(
    tokens: Seq<TokenView>,
    question: TokenView,
    left: TokenView,
    right: TokenView,
)
    requires
        type_rule(tokens).outcome is Ok,
        type_rule(tokens).rest.len() == 0,
        question.kind == TokenKindView::Question,
        left.kind == TokenKindView::LeftSquare,
        right.kind == TokenKindView::RightSquare,
    ensures
        type_rule(tokens + seq![question]) == (Parsed {
            outcome: Ok(TypeView::Optional(Box::new(type_rule(tokens).outcome->Ok_0))),
            rest: Seq::empty(),
        }),
        type_rule(tokens + seq![left, right]) == (Parsed {
            outcome: Ok(TypeView::Array(Box::new(type_rule(tokens).outcome->Ok_0))),
            rest: Seq::empty(),
        }),
{
    let base = TypeView::Named(identifier_rule(tokens).outcome->Ok_0);
    let parsed = type_rule(tokens).outcome->Ok_0;
    let optional = seq![question];
    let array = seq![left, right];
    assert((tokens + optional).drop_first() =~= tokens.drop_first() + optional);
    assert((tokens + array).drop_first() =~= tokens.drop_first() + array);
    lemma_suffixes_continue(base, tokens.drop_first(), optional);
    lemma_suffixes_continue(base, tokens.drop_first(), array);
    assert(optional.skip(1) =~= Seq::<TokenView>::empty());
    assert(array.skip(2) =~= Seq::<TokenView>::empty());
    assert(suffix_rule(TypeView::Optional(Box::new(parsed)), optional.skip(1)).rest
        =~= Seq::<TokenView>::empty());
    assert(suffix_rule(TypeView::Array(Box::new(parsed)), array.skip(2)).rest
        =~= Seq::<TokenView>::empty());
}

} // verus!
