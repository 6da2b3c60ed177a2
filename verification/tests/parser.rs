use idl_parser::lexer::char_positions::CharPositions;
use idl_parser::lexer::position::{Position, Span};
use idl_parser::lexer::token::{KeywordKind, Token, TokenKind};
use idl_parser::lexer::tokens::Tokens;
use idl_parser::parser::ast::identifier::Identifier;
use idl_parser::parser::ast::ty::{parse_inner, Type, TypeVariant};
use idl_parser::parser::{Parse, ParseError, TokenStream};

fn stream(text: &str) -> TokenStream<'_> {
    TokenStream::new(Tokens::new(CharPositions::new(text)))
}

fn named(name: &str, start: usize, end: usize) -> Type {
    Type {
        variant: TypeVariant::Named {
            name: Identifier {
                name: name.into(),
                span: Span::range(Position::new(0, start, start), Position::new(0, end, end)),
            },
        },
    }
}

fn array(inner: Type) -> Type {
    Type {
        variant: TypeVariant::Array {
            inner: Box::new(inner),
        },
    }
}

fn optional(inner: Type) -> Type {
    Type {
        variant: TypeVariant::Optional {
            inner: Box::new(inner),
        },
    }
}

#[test]
fn parses_type() {
    let mut tokens = TokenStream::new(Tokens::new(CharPositions::new("apples[]?")));

    let ty = Type::parse(&mut tokens);
    assert_eq!(
        ty,
        Ok(Type {
            variant: TypeVariant::Optional {
                inner: Box::new(Type {
                    variant: TypeVariant::Array {
                        inner: Box::new(Type {
                            variant: TypeVariant::Named {
                                name: Identifier {
                                    name: "apples".into(),
                                    span: Span::range(
                                        Position::new(0, 0, 0),
                                        Position::new(0, 5, 5)
                                    )
                                }
                            }
                        })
                    }
                })
            }
        })
    )
}

#[test]
fn suffixes_nest_in_source_order() {
    assert_eq!(Type::parse(&mut stream("x")), Ok(named("x", 0, 0)));
    assert_eq!(Type::parse(&mut stream("x[]")), Ok(array(named("x", 0, 0))));
    assert_eq!(Type::parse(&mut stream("x?")), Ok(optional(named("x", 0, 0))));
    assert_eq!(
        Type::parse(&mut stream("x[]?")),
        Ok(optional(array(named("x", 0, 0))))
    );
    assert_eq!(
        Type::parse(&mut stream("x?[]")),
        Ok(array(optional(named("x", 0, 0))))
    );
    assert_eq!(
        Type::parse(&mut stream("x [ ] [ ] ? ?")),
        Ok(optional(optional(array(array(named("x", 0, 0))))))
    );
}

#[test]
fn one_more_suffix_wraps_the_whole_type() {
    let parsed = Type::parse(&mut stream("item?[]")).unwrap();
    assert_eq!(parsed, array(optional(named("item", 0, 3))));
    assert_eq!(Type::parse(&mut stream("item?[]?")), Ok(optional(parsed)));
    let parsed = Type::parse(&mut stream("item?[]")).unwrap();
    assert_eq!(Type::parse(&mut stream("item?[][]")), Ok(array(parsed)));
}

#[test]
fn unterminated_bracket_reports_the_end_of_input() {
    assert_eq!(
        Type::parse(&mut stream("x[")),
        Err(ParseError::UnexpectedToken {
            expected: TokenKind::RightSquare,
            received: TokenKind::EndOfInput,
            span: Span::at(Position::new(0, 1, 1)),
        })
    );
}

#[test]
fn bracket_followed_by_another_token_reports_that_token() {
    let mut tokens = stream("x[?]");
    assert_eq!(
        Type::parse(&mut tokens),
        Err(ParseError::UnexpectedToken {
            expected: TokenKind::RightSquare,
            received: TokenKind::Question,
            span: Span::at(Position::new(0, 2, 2)),
        })
    );
    // The offending token was looked at, not consumed.
    assert_eq!(
        tokens.next(),
        Some(Token::new(TokenKind::Question, Span::at(Position::new(0, 2, 2))))
    );

    assert_eq!(
        Type::parse(&mut stream("x[]?[y]")),
        Err(ParseError::UnexpectedToken {
            expected: TokenKind::RightSquare,
            received: TokenKind::Identifier("y".into()),
            span: Span::at(Position::new(0, 5, 5)),
        })
    );
}

#[test]
fn a_type_ends_before_the_first_token_that_is_no_suffix() {
    let mut tokens = stream("x[] y?");
    assert_eq!(Type::parse(&mut tokens), Ok(array(named("x", 0, 0))));
    assert_eq!(
        tokens.peek(),
        Some(&Token::new(
            TokenKind::Identifier("y".into()),
            Span::at(Position::new(0, 4, 4))
        ))
    );
    assert_eq!(Type::parse(&mut tokens), Ok(optional(named("y", 4, 4))));
    assert_eq!(tokens.peek(), None);
    assert_eq!(Type::parse(&mut tokens), Err(ParseError::UnexpectedEndOfInput));
}

#[test]
fn a_type_needs_a_name() {
    assert_eq!(Type::parse(&mut stream("")), Err(ParseError::UnexpectedEndOfInput));
    assert_eq!(
        Type::parse(&mut stream("[]")),
        Err(ParseError::UnexpectedToken {
            expected: TokenKind::Identifier(String::new()),
            received: TokenKind::LeftSquare,
            span: Span::at(Position::new(0, 0, 0)),
        })
    );
}

#[test]
fn empty_input_is_no_identifier() {
    assert_eq!(
        Identifier::parse(&mut stream("")),
        Err(ParseError::UnexpectedEndOfInput)
    );
    assert_eq!(
        Identifier::parse(&mut stream("  \n ")),
        Err(ParseError::UnexpectedEndOfInput)
    );
}

#[test]
fn identifier_takes_exactly_one_token() {
    let mut tokens = stream("apples pears");
    assert_eq!(
        Identifier::parse(&mut tokens),
        Ok(Identifier {
            name: "apples".into(),
            span: Span::range(Position::new(0, 0, 0), Position::new(0, 5, 5)),
        })
    );
    assert_eq!(
        Identifier::parse(&mut tokens),
        Ok(Identifier {
            name: "pears".into(),
            span: Span::range(Position::new(0, 7, 7), Position::new(0, 11, 11)),
        })
    );
    assert_eq!(Identifier::parse(&mut tokens), Err(ParseError::UnexpectedEndOfInput));
}

#[test]
fn identifier_rejects_other_tokens_and_consumes_them() {
    let mut tokens = stream("model ( x");
    assert_eq!(
        Identifier::parse(&mut tokens),
        Err(ParseError::UnexpectedToken {
            expected: TokenKind::Identifier(String::new()),
            received: TokenKind::Keyword(KeywordKind::Model),
            span: Span::range(Position::new(0, 0, 0), Position::new(0, 4, 4)),
        })
    );
    assert_eq!(
        Identifier::parse(&mut tokens),
        Err(ParseError::UnexpectedToken {
            expected: TokenKind::Identifier(String::new()),
            received: TokenKind::LeftParenthesis,
            span: Span::at(Position::new(0, 6, 6)),
        })
    );
    assert_eq!(
        Identifier::parse(&mut tokens),
        Ok(Identifier {
            name: "x".into(),
            span: Span::at(Position::new(0, 8, 8)),
        })
    );
}

#[test]
fn unrecognized_character_surfaces_as_a_syntax_error() {
    assert_eq!(
        Identifier::parse(&mut stream("#")),
        Err(ParseError::UnexpectedToken {
            expected: TokenKind::Identifier(String::new()),
            received: TokenKind::UnrecognizedCharacter('#'),
            span: Span::at(Position::new(0, 0, 0)),
        })
    );
}

#[test]
fn parse_inner_wraps_the_type_it_is_given() {
    let mut tokens = stream("?[] z");
    assert_eq!(
        parse_inner(named("seed", 0, 3), &mut tokens),
        Ok(array(optional(named("seed", 0, 3))))
    );
    assert_eq!(
        tokens.next(),
        Some(Token::new(
            TokenKind::Identifier("z".into()),
            Span::at(Position::new(0, 4, 4))
        ))
    );
    assert_eq!(tokens.next(), None);
}

#[test]
fn unexpected_builds_the_error() {
    assert_eq!(
        ParseError::unexpected(
            TokenKind::RightSquare,
            TokenKind::Question,
            Span::at(Position::new(0, 1, 1))
        ),
        ParseError::UnexpectedToken {
            expected: TokenKind::RightSquare,
            received: TokenKind::Question,
            span: Span::at(Position::new(0, 1, 1)),
        }
    );
}

#[test]
fn stream_peeks_without_consuming() {
    let mut tokens = stream("a ?");
    let first = Token::new(TokenKind::Identifier("a".into()), Span::at(Position::new(0, 0, 0)));
    assert_eq!(tokens.peek(), Some(&first));
    assert_eq!(tokens.peek(), Some(&first));
    assert_eq!(tokens.next(), Some(first));
    assert_eq!(
        tokens.next(),
        Some(Token::new(TokenKind::Question, Span::at(Position::new(0, 2, 2))))
    );
    assert_eq!(tokens.peek(), None);
    assert_eq!(tokens.next(), None);
    assert_eq!(tokens.next(), None);
}

#[test]
fn end_to_end() {
    let mut tokens = Tokens::new(CharPositions::new("apples[]?"));
    assert_eq!(
        tokens.next(),
        Some(Token::new(
            TokenKind::Identifier("apples".into()),
            Span::range(Position::new(0, 0, 0), Position::new(0, 5, 5))
        ))
    );
    assert_eq!(
        tokens.next(),
        Some(Token::new(TokenKind::LeftSquare, Span::at(Position::new(0, 6, 6))))
    );
    assert_eq!(
        tokens.next(),
        Some(Token::new(TokenKind::RightSquare, Span::at(Position::new(0, 7, 7))))
    );
    assert_eq!(
        tokens.next(),
        Some(Token::new(TokenKind::Question, Span::at(Position::new(0, 8, 8))))
    );
    assert_eq!(tokens.next(), None);
    assert_eq!(
        Type::parse(&mut stream("apples[]?")),
        Ok(optional(array(named("apples", 0, 5))))
    );
}
