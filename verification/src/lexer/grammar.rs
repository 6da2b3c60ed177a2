//! The lexical grammar: which tokens a text holds, as a function of the text.
use super::char_positions::position_at;
use super::position::Span;
use super::token::{keyword, TokenKindView, TokenView};
use super::unicode::{white_space, xid_continue, xid_start};
use vstd::prelude::*;

verus! {

/// The first index from `index` on that holds no whitespace character; the
/// length of the text if there is none.
pub open spec fn skip_whitespace(text: Seq<char>, index: int) -> int
    decreases text.len() - index,
{
    if 0 <= index < text.len() && white_space(text[index]) {
        skip_whitespace(text, index + 1)
    } else {
        index
    }
}

/// The first index from `index` on that holds no identifier-continue
/// character; the length of the text if there is none.
pub open spec fn identifier_end(text: Seq<char>, index: int) -> int
    decreases text.len() - index,
{
    if 0 <= index < text.len() && xid_continue(text[index]) {
        identifier_end(text, index + 1)
    } else {
        index
    }
}

/// The kind of a scanned word: a keyword if it spells one, else an identifier.
pub open spec fn word_kind(name: Seq<char>) -> TokenKindView {
    match keyword(name) {
        Some(keyword) => TokenKindView::Keyword(keyword),
        None => TokenKindView::Identifier(name),
    }
}

/// The kind of a token that is a single character and starts no word.
pub open spec fn symbol_kind(c: char) -> TokenKindView {
    if c == '{' {
        TokenKindView::LeftSquiggle
    } else if c == '}' {
        TokenKindView::RightSquiggle
    } else if c == '[' {
        TokenKindView::LeftSquare
    } else if c == ']' {
        TokenKindView::RightSquare
    } else if c == '(' {
        TokenKindView::LeftParenthesis
    } else if c == ')' {
        TokenKindView::RightParenthesis
    } else if c == '?' {
        TokenKindView::Question
    } else {
        TokenKindView::UnrecognizedCharacter(c)
    }
}

/// The index just past the token that starts at `start`: a word runs on
/// through every identifier-continue character, anything else is one
/// character long.
pub open spec fn token_end(text: Seq<char>, start: int) -> int {
    if xid_start(text[start]) {
        identifier_end(text, start + 1)
    } else {
        start + 1
    }
}

/// The token that starts at `start`, from its first to its last character.
pub open spec fn token_at(text: Seq<char>, start: int) -> TokenView {
    let end = token_end(text, start);
    TokenView {
        kind: if xid_start(text[start]) {
            word_kind(text.subrange(start, end))
        } else {
            symbol_kind(text[start])
        },
        span: Span { start: position_at(text, start), end: position_at(text, end - 1) },
    }
}

/// What the tokenizer yields at `index`: the first token after any
/// whitespace, and the index just past it; nothing if only whitespace is left.
pub open spec fn next_token(text: Seq<char>, index: int) -> Option<(TokenView, int)> {
    let start = skip_whitespace(text, index);
    if start < text.len() {
        Some((token_at(text, start), token_end(text, start)))
    } else {
        None
    }
}

/// The tokens of `text` from `index` on: after whitespace comes a token, and
/// after the token the rest.
pub open spec fn tokens_from(text: Seq<char>, index: int) -> Seq<TokenView>
    decreases text.len() - index,
{
    let start = skip_whitespace(text, index);
    if 0 <= index && start < text.len() {
        proof {
            lemma_skip_whitespace(text, index);
            lemma_token_end(text, start);
        }
        seq![token_at(text, start)] + tokens_from(text, token_end(text, start))
    } else {
        Seq::empty()
    }
}

/// All the tokens of `text`.
pub open spec fn tokenize(text: Seq<char>) -> Seq<TokenView> {
    tokens_from(text, 0)
}

/// The tokens from `index` on are what the tokenizer yields there, followed
/// by the tokens from where it then stands.
pub proof fn lemma_tokens_from(text: Seq<char>, index: int)
    requires
        0 <= index,
    ensures
        tokens_from(text, index) == match next_token(text, index) {
            Some((token, end)) => seq![token] + tokens_from(text, end),
            None => Seq::empty(),
        },
{
}

/// Skipping whitespace passes over whitespace only, and stops at the first
/// character that is none.
pub proof fn lemma_skip_whitespace(text: Seq<char>, index: int)
    requires
        0 <= index,
    ensures
        index <= skip_whitespace(text, index),
        index <= text.len() ==> skip_whitespace(text, index) <= text.len(),
        forall|k: int| index <= k < skip_whitespace(text, index) ==> white_space(text[k]),
        skip_whitespace(text, index) < text.len() ==> !white_space(
            text[skip_whitespace(text, index)],
        ),
    decreases text.len() - index,
{
    if index < text.len() && white_space(text[index]) {
        lemma_skip_whitespace(text, index + 1);
    }
}

/// A word ends at the first character that cannot continue it.
pub proof fn lemma_identifier_end(text: Seq<char>, index: int)
    requires
        0 <= index,
    ensures
        index <= identifier_end(text, index),
        index <= text.len() ==> identifier_end(text, index) <= text.len(),
        forall|k: int| index <= k < identifier_end(text, index) ==> xid_continue(text[k]),
        identifier_end(text, index) < text.len() ==> !xid_continue(
            text[identifier_end(text, index)],
        ),
    decreases text.len() - index,
{
    if index < text.len() && xid_continue(text[index]) {
        lemma_identifier_end(text, index + 1);
    }
}

/// Every token holds at least one character and ends inside the text.
pub proof fn lemma_token_end(text: Seq<char>, start: int)
    requires
        0 <= start < text.len(),
    ensures
        start < token_end(text, start) <= text.len(),
{
    lemma_identifier_end(text, start + 1);
}

} // verus!
