//! Tokens, their kinds, and the reserved words.
use super::position::Span;
use vstd::prelude::*;
use vstd::std_specs::iter::IteratorSpec;

verus! {

/// The reserved words of the language.
#[derive(Clone, Copy, Debug, PartialEq, Eq)]
pub enum KeywordKind {
    Model,
    Rpc,
}

/// What a token is. `EndOfInput` is never produced by the tokenizer: it
/// stands for the exhausted stream in error reports.
#[derive(Debug, PartialEq, Eq)]
pub enum TokenKind {
    Identifier(String),
    Keyword(KeywordKind),
    LeftParenthesis,
    RightParenthesis,
    LeftSquiggle,
    RightSquiggle,
    LeftSquare,
    RightSquare,
    Question,
    EndOfInput,
    UnrecognizedCharacter(char),
}

/// A token kind as a mathematical value: an identifier carries its name as
/// a sequence of characters.
pub enum TokenKindView {
    Identifier(Seq<char>),
    Keyword(KeywordKind),
    LeftParenthesis,
    RightParenthesis,
    LeftSquiggle,
    RightSquiggle,
    LeftSquare,
    RightSquare,
    Question,
    EndOfInput,
    UnrecognizedCharacter(char),
}

/// A token: its kind and where it stands in the source.
#[derive(Debug, PartialEq, Eq)]
pub struct Token {
    pub kind: TokenKind,
    pub span: Span,
}

/// A token as a mathematical value.
pub struct TokenView {
    pub kind: TokenKindView,
    pub span: Span,
}

impl View for TokenKind {
    type V = TokenKindView;

    open spec fn view(&self) -> TokenKindView {
        match self {
            TokenKind::Identifier(name) => TokenKindView::Identifier(name@),
            TokenKind::Keyword(keyword) => TokenKindView::Keyword(*keyword),
            TokenKind::LeftParenthesis => TokenKindView::LeftParenthesis,
            TokenKind::RightParenthesis => TokenKindView::RightParenthesis,
            TokenKind::LeftSquiggle => TokenKindView::LeftSquiggle,
            TokenKind::RightSquiggle => TokenKindView::RightSquiggle,
            TokenKind::LeftSquare => TokenKindView::LeftSquare,
            TokenKind::RightSquare => TokenKindView::RightSquare,
            TokenKind::Question => TokenKindView::Question,
            TokenKind::EndOfInput => TokenKindView::EndOfInput,
            TokenKind::UnrecognizedCharacter(c) => TokenKindView::UnrecognizedCharacter(*c),
        }
    }
}

impl Clone for TokenKind {
    fn clone(&self) -> (copy: Self)
        ensures
            copy@ == self@,
    {
        match self {
            TokenKind::Identifier(name) => TokenKind::Identifier(name.clone()),
            TokenKind::Keyword(keyword) => TokenKind::Keyword(*keyword),
            TokenKind::LeftParenthesis => TokenKind::LeftParenthesis,
            TokenKind::RightParenthesis => TokenKind::RightParenthesis,
            TokenKind::LeftSquiggle => TokenKind::LeftSquiggle,
            TokenKind::RightSquiggle => TokenKind::RightSquiggle,
            TokenKind::LeftSquare => TokenKind::LeftSquare,
            TokenKind::RightSquare => TokenKind::RightSquare,
            TokenKind::Question => TokenKind::Question,
            TokenKind::EndOfInput => TokenKind::EndOfInput,
            TokenKind::UnrecognizedCharacter(c) => TokenKind::UnrecognizedCharacter(*c),
        }
    }
}

impl Clone for Token {
    fn clone(&self) -> (copy: Self)
        ensures
            copy@ == self@,
    {
        Token { kind: self.kind.clone(), span: self.span }
    }
}

impl View for Token {
    type V = TokenView;

    open spec fn view(&self) -> TokenView {
        TokenView { kind: self.kind@, span: self.span }
    }
}

/// The spelling of a reserved word.
pub open spec fn keyword_text(keyword: KeywordKind) -> Seq<char> {
    match keyword {
        KeywordKind::Model => seq!['m', 'o', 'd', 'e', 'l'],
        KeywordKind::Rpc => seq!['r', 'p', 'c'],
    }
}

/// The reserved word that `name` spells, if it spells one.
pub open spec fn keyword(name: Seq<char>) -> Option<KeywordKind> {
    if name == keyword_text(KeywordKind::Model) {
        Some(KeywordKind::Model)
    } else if name == keyword_text(KeywordKind::Rpc) {
        Some(KeywordKind::Rpc)
    } else {
        None
    }
}

impl TokenKindView {
    /// How a token of this kind is written; `EOF` for the end of input.
    pub open spec fn text(self) -> Seq<char> {
        match self {
            TokenKindView::Identifier(name) => name,
            TokenKindView::Keyword(keyword) => keyword_text(keyword),
            TokenKindView::LeftParenthesis => seq!['('],
            TokenKindView::RightParenthesis => seq![')'],
            TokenKindView::LeftSquiggle => seq!['{'],
            TokenKindView::RightSquiggle => seq!['}'],
            TokenKindView::LeftSquare => seq!['['],
            TokenKindView::RightSquare => seq![']'],
            TokenKindView::Question => seq!['?'],
            TokenKindView::EndOfInput => seq!['E', 'O', 'F'],
            TokenKindView::UnrecognizedCharacter(c) => seq![c],
        }
    }
}

/// Whether two strings hold the same characters.
fn same_text(a: &str, b: &str) -> (same: bool)
    ensures
        same == (a@ == b@),
{
    broadcast use vstd::string::group_string_axioms;

    let mut left = a.chars();
    let mut right = b.chars();
    let ghost mut n: int = 0;
    proof {
        assert(a@.skip(0) =~= a@);
        assert(b@.skip(0) =~= b@);
    }
    loop
        invariant
            0 <= n <= a@.len(),
            n <= b@.len(),
            left.remaining() == a@.skip(n),
            right.remaining() == b@.skip(n),
            a@.take(n) == b@.take(n),
        decreases a@.len() - n,
    {
        let x = left.next();
        let y = right.next();
        match (x, y) {
            (Some(x), Some(y)) => {
                if x != y {
                    assert(a@[n] != b@[n]);
                    return false;
                }
            },
            (None, None) => {
                assert(a@.take(n) =~= a@);
                assert(b@.take(n) =~= b@);
                return true;
            },
            _ => {
                assert(a@.len() != b@.len());
                return false;
            },
        }
        proof {
            assert(a@.skip(n).drop_first() =~= a@.skip(n + 1));
            assert(b@.skip(n).drop_first() =~= b@.skip(n + 1));
            assert(a@.take(n + 1) =~= a@.take(n).push(a@[n]));
            assert(b@.take(n + 1) =~= b@.take(n).push(b@[n]));
            n = n + 1;
        }
    }
}

/// Looks `name` up among the reserved words.
pub fn to_keyword(name: &str) -> (found: Option<KeywordKind>)
    ensures
        found == keyword(name@),
{
    proof {
        reveal_strlit("model");
        reveal_strlit("rpc");
        assert("model"@ =~= keyword_text(KeywordKind::Model));
        assert("rpc"@ =~= keyword_text(KeywordKind::Rpc));
    }
    if same_text(name, "model") {
        Some(KeywordKind::Model)
    } else if same_text(name, "rpc") {
        Some(KeywordKind::Rpc)
    } else {
        None
    }
}

impl core::str::FromStr for KeywordKind {
    type Err = ();

    /// Reads a reserved word; any other text is an error.
    fn from_str(name: &str) -> (found: Result<Self, ()>)
        ensures
            found == match keyword(name@) {
                Some(keyword) => Ok::<KeywordKind, ()>(keyword),
                None => Err(()),
            },
    {
        match to_keyword(name) {
            Some(keyword) => Ok(keyword),
            None => Err(()),
        }
    }
}

impl TokenKind {
    /// How a token of this kind is written; `EOF` for the end of input.
    pub fn to_string(&self) -> (text: String)
        ensures
            text@ == self@.text(),
    {
        proof {
            reveal_strlit("model");
            reveal_strlit("rpc");
            reveal_strlit("(");
            reveal_strlit(")");
            reveal_strlit("{");
            reveal_strlit("}");
            reveal_strlit("[");
            reveal_strlit("]");
            reveal_strlit("?");
            reveal_strlit("EOF");
        }
        let text = match self {
            TokenKind::Identifier(name) => name.clone(),
            TokenKind::Keyword(keyword) => match keyword {
                KeywordKind::Model => "model".to_owned(),
                KeywordKind::Rpc => "rpc".to_owned(),
            },
            TokenKind::LeftParenthesis => "(".to_owned(),
            TokenKind::RightParenthesis => ")".to_owned(),
            TokenKind::LeftSquiggle => "{".to_owned(),
            TokenKind::RightSquiggle => "}".to_owned(),
            TokenKind::LeftSquare => "[".to_owned(),
            TokenKind::RightSquare => "]".to_owned(),
            TokenKind::Question => "?".to_owned(),
            TokenKind::EndOfInput => "EOF".to_owned(),
            TokenKind::UnrecognizedCharacter(c) => {
                let mut text = String::new();
                text.push(*c);
                text
            },
        };
        assert(text@ =~= self@.text());
        text
    }
}

impl Token {
    pub fn new(kind: TokenKind, span: Span) -> (token: Self)
        ensures
            token.kind == kind,
            token.span == span,
    {
        Self { kind, span }
    }
}

} // verus!
