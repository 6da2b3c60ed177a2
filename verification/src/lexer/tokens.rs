//! The tokenizer: reads characters with one character of lookahead and
//! yields tokens.
use super::char_positions::{item_at, position_at, CharPositions};
use super::grammar::{
    identifier_end, lemma_skip_whitespace, next_token, skip_whitespace, symbol_kind,
};
use super::position::{Position, Span};
use super::token::{to_keyword, Token, TokenKind};
use super::unicode::{has_xid_continue, has_xid_start};
use vstd::prelude::*;

verus! {

/// A single pass over a text that yields its tokens.
pub struct Tokens<'a> {
    inner: CharPositions<'a>,
    peeked: Option<(char, Position)>,
}

impl<'a> Tokens<'a> {
    /// The whole text that is being tokenized.
    pub closed spec fn text(&self) -> Seq<char> {
        self.inner.text()
    }

    /// The index of the next character that no token has consumed yet.
    pub closed spec fn index(&self) -> int {
        if self.peeked is Some {
            self.inner.index() - 1
        } else {
            self.inner.index()
        }
    }

    /// The tokenizer's invariant: the lookahead holds the next unconsumed
    /// character, and is empty only at the end of the text.
    pub closed spec fn wf(&self) -> bool {
        &&& self.inner.wf()
        &&& 0 <= self.index() <= self.text().len()
        &&& self.peeked == item_at(self.text(), self.index())
    }

    /// A well-formed tokenizer stands inside its text.
    pub proof fn lemma_wf(&self)
        requires
            self.wf(),
        ensures
            0 <= self.index() <= self.text().len(),
    {
    }

    /// A tokenizer that goes on where `inner` stands.
    pub fn new(inner: CharPositions<'a>) -> (tokens: Self)
        requires
            inner.wf(),
        ensures
            tokens.wf(),
            tokens.text() == inner.text(),
            tokens.index() == inner.index(),
    {
        let mut inner = inner;
        proof {
            inner.lemma_wf();
        }
        let peeked = inner.next();
        Self { inner, peeked }
    }

    /// The next unconsumed character with its position, without consuming it.
    pub fn peek_char(&self) -> (item: Option<(char, Position)>)
        requires
            self.wf(),
        ensures
            item == item_at(self.text(), self.index()),
    {
        self.peeked
    }

    /// Consumes and returns the next character with its position; `None` at
    /// the end of the text.
    pub fn next_char(&mut self) -> (item: Option<(char, Position)>)
        requires
            old(self).wf(),
        ensures
            final(self).wf(),
            final(self).text() == old(self).text(),
            item == item_at(old(self).text(), old(self).index()),
            final(self).index() == if item is Some {
                old(self).index() + 1
            } else {
                old(self).index()
            },
    {
        proof {
            self.inner.lemma_wf();
        }
        let item = self.peeked;
        self.peeked = self.inner.next();
        item
    }

    /// Consumes whitespace up to the next character that is none.
    pub fn consume_whitespace(&mut self)
        requires
            old(self).wf(),
        ensures
            final(self).wf(),
            final(self).text() == old(self).text(),
            final(self).index() == skip_whitespace(old(self).text(), old(self).index()),
    {
        loop
            invariant
                self.wf(),
                self.text() == old(self).text(),
                skip_whitespace(self.text(), self.index()) == skip_whitespace(
                    old(self).text(),
                    old(self).index(),
                ),
            ensures
                self.wf(),
                self.text() == old(self).text(),
                self.index() == skip_whitespace(old(self).text(), old(self).index()),
            decreases self.text().len() - self.index(),
        {
            match self.peek_char() {
                Some((c, _)) => {
                    if c.is_whitespace() {
                        self.next_char();
                    } else {
                        break;
                    }
                },
                None => {
                    break;
                },
            }
        }
    }

    /// Yields the next token, or `None` once only whitespace is left.
    pub fn next(&mut self) -> (token: Option<Token>)
        requires
            old(self).wf(),
        ensures
            final(self).wf(),
            final(self).text() == old(self).text(),
            match next_token(old(self).text(), old(self).index()) {
                Some((expected, end)) => {
                    &&& token matches Some(found)
                    &&& found@ == expected
                    &&& final(self).index() == end
                },
                None => token is None && final(self).index() == old(self).text().len(),
            },
    {
        let ghost text = self.text();
        proof {
            self.lemma_wf();
            lemma_skip_whitespace(text, self.index());
        }
        self.consume_whitespace();
        let ghost start = self.index();
        let (ch, first) = match self.next_char() {
            Some(item) => item,
            None => {
                return None;
            },
        };
        if !has_xid_start(ch) {
            return Some(Token::new(symbol(ch), Span::at(first)));
        }
        let mut name = String::new();
        name.push(ch);
        let mut last = first;
        proof {
            assert(name@ =~= text.subrange(start, start + 1));
        }
        loop
            invariant
                self.wf(),
                self.text() == text,
                0 <= start < self.index() <= text.len(),
                name@ == text.subrange(start, self.index()),
                last == position_at(text, self.index() - 1),
                identifier_end(text, self.index()) == identifier_end(text, start + 1),
            ensures
                self.wf(),
                self.text() == text,
                self.index() == identifier_end(text, start + 1),
                name@ == text.subrange(start, self.index()),
                last == position_at(text, self.index() - 1),
            decreases text.len() - self.index(),
        {
            match self.peek_char() {
                Some((c, position)) => {
                    if has_xid_continue(c) {
                        let ghost index = self.index();
                        self.next_char();
                        name.push(c);
                        last = position;
                        proof {
                            assert(text.subrange(start, index).push(text[index])
                                =~= text.subrange(start, index + 1));
                        }
                    } else {
                        break;
                    }
                },
                None => {
                    break;
                },
            }
        }
        let span = Span::range(first, last);
        match to_keyword(name.as_str()) {
            Some(keyword) => Some(Token::new(TokenKind::Keyword(keyword), span)),
            None => Some(Token::new(TokenKind::Identifier(name), span)),
        }
    }
}

/// The kind of a token that is the single character `c`, which starts no word.
fn symbol(c: char) -> (kind: TokenKind)
    ensures
        kind@ == symbol_kind(c),
{
    if c == '{' {
        TokenKind::LeftSquiggle
    } else if c == '}' {
        TokenKind::RightSquiggle
    } else if c == '[' {
        TokenKind::LeftSquare
    } else if c == ']' {
        TokenKind::RightSquare
    } else if c == '(' {
        TokenKind::LeftParenthesis
    } else if c == ')' {
        TokenKind::RightParenthesis
    } else if c == '?' {
        TokenKind::Question
    } else {
        TokenKind::UnrecognizedCharacter(c)
    }
}

} // verus!
