//! What holds of the tokens of every text.
use super::char_positions::{fits, lemma_offset_increases, lemma_position_bounds, position_at};
use super::grammar::{
    identifier_end, lemma_skip_whitespace, lemma_token_end, skip_whitespace, token_at,
    token_end, tokenize, tokens_from, word_kind,
};
use super::position::Span;
use super::token::{keyword, TokenKindView, TokenView};
use super::unicode::{lemma_encode_concat, white_space, xid_continue, xid_start};
use vstd::prelude::*;
use vstd::utf8::*;

verus! {

/// A run of identifier-continue characters is part of one word.
proof fn lemma_identifier_end_through(text: Seq<char>, from: int, to: int)
    requires
        0 <= from <= to <= text.len(),
        forall|k: int| from <= k < to ==> xid_continue(text[k]),
    ensures
        identifier_end(text, from) == identifier_end(text, to),
    decreases to - from,
{
    if from < to {
        lemma_identifier_end_through(text, from + 1, to);
    }
}

/// A run of whitespace is skipped as a whole.
proof fn lemma_skip_whitespace_through(text: Seq<char>, from: int, to: int)
    requires
        0 <= from <= to <= text.len(),
        forall|k: int| from <= k < to ==> white_space(text[k]),
    ensures
        skip_whitespace(text, from) == skip_whitespace(text, to),
    decreases to - from,
{
    if from < to {
        lemma_skip_whitespace_through(text, from + 1, to);
    }
}

/// A text that is one identifier is one token. If `text` starts with an
/// identifier-start character that is no whitespace, goes on with
/// identifier-continue characters only, and spells no keyword, then its
/// tokens are a single identifier, named by the whole text and spanning it
/// from its first to its last character.
pub proof fn lemma_identifier_is_one_token(text: Seq<char>)
    requires
        text.len() > 0,
        xid_start(text[0]),
        !white_space(text[0]),
        forall|k: int| 1 <= k < text.len() ==> xid_continue(text[k]),
        keyword(text) is None,
    ensures
        tokenize(text) == seq![
            TokenView {
                kind: TokenKindView::Identifier(text),
                span: Span {
                    start: position_at(text, 0),
                    end: position_at(text, text.len() - 1),
                },
            },
        ],
{
    let len = text.len() as int;
    lemma_identifier_end_through(text, 1, len);
    assert(identifier_end(text, len) == len);
    assert(token_end(text, 0) == len);
    assert(text.subrange(0, len) =~= text);
    assert(skip_whitespace(text, 0) == 0);
    assert(skip_whitespace(text, len) == len);
    assert(tokens_from(text, len) =~= Seq::<TokenView>::empty());
    assert(tokenize(text) =~= seq![token_at(text, 0)]);
}

/// Every token starts at a character of the text that is no whitespace.
/// Returns the index at which token number `k` from `index` on starts.
pub proof fn lemma_token_start(text: Seq<char>, index: int, k: int) -> (start: int)
    requires
        0 <= index,
        0 <= k < tokens_from(text, index).len(),
    ensures
        index <= start < text.len(),
        !white_space(text[start]),
        tokens_from(text, index)[k] == token_at(text, start),
    decreases text.len() - index,
{
    let first = skip_whitespace(text, index);
    lemma_skip_whitespace(text, index);
    lemma_token_end(text, first);
    if k == 0 {
        first
    } else {
        lemma_token_start(text, token_end(text, first), k - 1)
    }
}

/// What holds of each token of a text: it is never the end-of-input mark;
/// it is written with a first character that is no whitespace; an
/// identifier never spells a keyword, and a keyword token is spelled as that
/// keyword; and its span does not end before it starts.
pub proof fn lemma_token(text: Seq<char>, k: int)
    requires
        fits(text),
        0 <= k < tokenize(text).len(),
    ensures
        tokenize(text)[k].kind != TokenKindView::EndOfInput,
        tokenize(text)[k].kind.text().len() > 0,
        !white_space(tokenize(text)[k].kind.text()[0]),
        tokenize(text)[k].kind matches TokenKindView::Identifier(name) ==> keyword(name) is None,
        tokenize(text)[k].span.wf(),
{
    let start = lemma_token_start(text, 0, k);
    let end = token_end(text, start);
    lemma_token_end(text, start);
    lemma_position_bounds(text, start);
    lemma_position_bounds(text, end - 1);
    if start < end - 1 {
        lemma_offset_increases(text, start, end - 1);
    }
    if xid_start(text[start]) {
        let name = text.subrange(start, end);
        assert(name[0] == text[start]);
        assert(word_kind(name).text() == name);
    }
}

/// Whitespace in front of a text changes no token's content. If `space`
/// holds whitespace only, then `space + text` has as many tokens as `text`,
/// each of the same kind as its counterpart, and each span's offsets are
/// greater by the UTF-8 length of `space`.
pub proof fn lemma_leading_whitespace(space: Seq<char>, text: Seq<char>)
    requires
        forall|k: int| 0 <= k < space.len() ==> white_space(space[k]),
        fits(space + text),
    ensures
        tokenize(space + text).len() == tokenize(text).len(),
        forall|k: int|
            0 <= k < tokenize(text).len() ==> {
                &&& (#[trigger] tokenize(space + text)[k]).kind == tokenize(text)[k].kind
                &&& tokenize(space + text)[k].span.start.offset == tokenize(
                    text,
                )[k].span.start.offset + encode_utf8(space).len()
                &&& tokenize(space + text)[k].span.end.offset == tokenize(text)[k].span.end.offset
                    + encode_utf8(space).len()
            },
{
    let both = space + text;
    let n = space.len() as int;
    assert forall|k: int| 0 <= k < n implies white_space(both[k]) by {
        assert(both[k] == space[k]);
    }
    lemma_skip_whitespace_through(both, 0, n);
    lemma_skip_whitespace(both, n);
    assert(tokens_from(both, 0) == tokens_from(both, n));
    lemma_shifted_tokens(space, text, 0);
}

/// The tokens of `space + text` behind `space` are those of `text`, moved
/// by the length of `space`.
proof fn lemma_shifted_tokens(space: Seq<char>, text: Seq<char>, index: int)
    requires
        fits(space + text),
        0 <= index <= text.len(),
    ensures
        tokens_from(space + text, space.len() + index).len() == tokens_from(text, index).len(),
        forall|k: int|
            0 <= k < tokens_from(text, index).len() ==> {
                &&& (#[trigger] tokens_from(space + text, space.len() + index)[k]).kind
                    == tokens_from(text, index)[k].kind
                &&& tokens_from(space + text, space.len() + index)[k].span.start.offset
                    == tokens_from(text, index)[k].span.start.offset + encode_utf8(space).len()
                &&& tokens_from(space + text, space.len() + index)[k].span.end.offset
                    == tokens_from(text, index)[k].span.end.offset + encode_utf8(space).len()
            },
    decreases text.len() - index,
{
    let both = space + text;
    let n = space.len() as int;
    let start = skip_whitespace(text, index);
    lemma_skip_whitespace(text, index);
    lemma_shifted_skip(space, text, index);
    if start < text.len() {
        let end = token_end(text, start);
        lemma_token_end(text, start);
        lemma_shifted_end(space, text, start + 1);
        assert(both[n + start] == text[start]);
        assert(token_end(both, n + start) == n + end);
        assert(both.subrange(n + start, n + end) =~= text.subrange(start, end));
        lemma_shifted_offset(space, text, start);
        lemma_shifted_offset(space, text, end - 1);
        lemma_shifted_tokens(space, text, end);
        let here = tokens_from(text, index);
        let there = tokens_from(both, n + index);
        assert(here == seq![token_at(text, start)] + tokens_from(text, end));
        assert(there == seq![token_at(both, n + start)] + tokens_from(both, n + end));
        assert forall|k: int| 0 <= k < here.len() implies {
            &&& (#[trigger] there[k]).kind == here[k].kind
            &&& there[k].span.start.offset == here[k].span.start.offset + encode_utf8(space).len()
            &&& there[k].span.end.offset == here[k].span.end.offset + encode_utf8(space).len()
        } by {
            if k > 0 {
                assert(here[k] == tokens_from(text, end)[k - 1]);
                assert(there[k] == tokens_from(both, n + end)[k - 1]);
            }
        }
    }
}

/// Skipping whitespace behind `space` stops where it stops in `text` alone.
proof fn lemma_shifted_skip(space: Seq<char>, text: Seq<char>, index: int)
    requires
        0 <= index <= text.len(),
    ensures
        skip_whitespace(space + text, space.len() + index) == space.len() + skip_whitespace(
            text,
            index,
        ),
    decreases text.len() - index,
{
    if index < text.len() {
        assert((space + text)[space.len() + index] == text[index]);
        if white_space(text[index]) {
            lemma_shifted_skip(space, text, index + 1);
        }
    }
}

/// A word behind `space` ends where it ends in `text` alone.
proof fn lemma_shifted_end(space: Seq<char>, text: Seq<char>, index: int)
    requires
        0 <= index <= text.len(),
    ensures
        identifier_end(space + text, space.len() + index) == space.len() + identifier_end(
            text,
            index,
        ),
    decreases text.len() - index,
{
    if index < text.len() {
        assert((space + text)[space.len() + index] == text[index]);
        if xid_continue(text[index]) {
            lemma_shifted_end(space, text, index + 1);
        }
    }
}

/// A character behind `space` stands at its offset in `text` alone plus the
/// length of `space`.
proof fn lemma_shifted_offset(space: Seq<char>, text: Seq<char>, index: int)
    requires
        fits(space + text),
        0 <= index <= text.len(),
    ensures
        position_at(space + text, space.len() + index).offset == position_at(text, index).offset
            + encode_utf8(space).len(),
{
    let both = space + text;
    assert(both.take(space.len() + index) =~= space + text.take(index));
    lemma_encode_concat(space, text.take(index));
    lemma_encode_concat(space, text);
    lemma_position_bounds(both, space.len() + index);
    lemma_position_bounds(text, index);
}

} // verus!
