//! The position tracker: pairs each character of a text with its line, column
//! and byte offset.
use super::position::Position;
use super::unicode::{lemma_encode_push, lemma_utf8_width_bounds, utf8_width};
use vstd::prelude::*;
use vstd::utf8::*;

verus! {

/// The byte offset of the character at `index`: the UTF-8 length of
/// everything before it.
pub open spec fn offset_at(text: Seq<char>, index: int) -> nat {
    encode_utf8(text.take(index)).len()
}

/// The line of the character at `index`: the number of line feeds before it.
pub open spec fn line_at(text: Seq<char>, index: int) -> nat
    decreases index,
{
    if index <= 0 {
        0
    } else if text[index - 1] == '\n' {
        line_at(text, index - 1) + 1
    } else {
        line_at(text, index - 1)
    }
}

/// The column of the character at `index`: the number of characters between
/// it and the start of its line.
pub open spec fn column_at(text: Seq<char>, index: int) -> nat
    decreases index,
{
    if index <= 0 || text[index - 1] == '\n' {
        0
    } else {
        column_at(text, index - 1) + 1
    }
}

/// The position of the character at `index` of `text`.
pub open spec fn position_at(text: Seq<char>, index: int) -> Position {
    Position {
        line: line_at(text, index) as usize,
        column: column_at(text, index) as usize,
        offset: offset_at(text, index) as usize,
    }
}

/// What the tracker yields for `index`: the character there with its
/// position, or nothing past the end.
pub open spec fn item_at(text: Seq<char>, index: int) -> Option<(char, Position)> {
    if 0 <= index < text.len() {
        Some((text[index], position_at(text, index)))
    } else {
        None
    }
}

/// Whether `text` is short enough for every offset in it to be a `usize`.
pub open spec fn fits(text: Seq<char>) -> bool {
    encode_utf8(text).len() <= usize::MAX
}

/// Each character moves the offset on by its width.
pub proof fn lemma_offset_step(text: Seq<char>, index: int)
    requires
        0 <= index < text.len(),
    ensures
        offset_at(text, index + 1) == offset_at(text, index) + utf8_width(text[index]),
        offset_at(text, index) < offset_at(text, index + 1),
{
    assert(text.take(index + 1) =~= text.take(index).push(text[index]));
    lemma_encode_push(text.take(index), text[index]);
    lemma_utf8_width_bounds(text[index]);
}

/// Offsets grow strictly from one character to any later one, and none
/// exceeds the UTF-8 length of the text.
pub proof fn lemma_offset_increases(text: Seq<char>, i: int, j: int)
    requires
        0 <= i < j <= text.len(),
    ensures
        offset_at(text, i) < offset_at(text, j),
        offset_at(text, j) <= encode_utf8(text).len(),
    decreases text.len() - i,
{
    lemma_offset_step(text, i);
    if i + 1 < j {
        lemma_offset_increases(text, i + 1, j);
    } else if j < text.len() {
        lemma_offset_increases(text, j, text.len() as int);
    } else {
        assert(text.take(j) =~= text);
    }
}

/// Lines, columns and character counts never exceed byte offsets.
pub proof fn lemma_position_bounds(text: Seq<char>, index: int)
    requires
        0 <= index <= text.len(),
    ensures
        line_at(text, index) <= index,
        column_at(text, index) <= index,
        index <= offset_at(text, index) <= encode_utf8(text).len(),
    decreases index,
{
    if index > 0 {
        lemma_position_bounds(text, index - 1);
        lemma_offset_step(text, index - 1);
        lemma_offset_increases(text, index - 1, index);
    } else {
        assert(text.take(0) =~= Seq::<char>::empty());
    }
}

/// The predicate that picks out line feeds.
pub open spec fn is_line_feed() -> spec_fn(char) -> bool {
    |c: char| c == '\n'
}

/// The line of a character is the number of line feeds before it.
pub proof fn lemma_line_counts_line_feeds(text: Seq<char>, index: int)
    requires
        0 <= index <= text.len(),
    ensures
        line_at(text, index) == text.take(index).filter(is_line_feed()).len(),
    decreases index,
{
    reveal(Seq::filter);
    if index > 0 {
        lemma_line_counts_line_feeds(text, index - 1);
        assert(text.take(index).drop_last() =~= text.take(index - 1));
    }
}

/// The column of a character is its distance from the start of its line: no
/// line feed lies in between, and the line starts at the start of the text or
/// right after a line feed.
pub proof fn lemma_column_counts_from_line_start(text: Seq<char>, index: int)
    requires
        0 <= index <= text.len(),
    ensures
        column_at(text, index) <= index,
        forall|k: int| index - column_at(text, index) <= k < index ==> text[k] != '\n',
        column_at(text, index) == index || text[index - column_at(text, index) - 1] == '\n',
    decreases index,
{
    if index > 0 && text[index - 1] != '\n' {
        lemma_column_counts_from_line_start(text, index - 1);
    }
}

/// The positions of a text, in the order in which the tracker yields them:
/// the offset grows strictly from each character to the next, the column is
/// zero right after a line feed, and the line is the number of line feeds
/// before the character.
pub proof fn lemma_positions(text: Seq<char>, index: int)
    requires
        fits(text),
        0 <= index < text.len(),
    ensures
        index + 1 < text.len() ==> position_at(text, index).offset < position_at(
            text,
            index + 1,
        ).offset,
        index > 0 && text[index - 1] == '\n' ==> position_at(text, index).column == 0,
        position_at(text, index).line == text.take(index).filter(is_line_feed()).len(),
{
    lemma_position_bounds(text, index);
    lemma_line_counts_line_feeds(text, index);
    if index + 1 < text.len() {
        lemma_position_bounds(text, index + 1);
        lemma_offset_step(text, index);
    }
}

/// A single pass over a text that yields each character with its position.
pub struct CharPositions<'a> {
    rest: &'a str,
    offset: usize,
    line: usize,
    column: usize,
    prev: Option<char>,
    text: Ghost<Seq<char>>,
    index: Ghost<int>,
}

impl<'a> CharPositions<'a> {
    /// The whole text that this tracker runs over.
    pub closed spec fn text(&self) -> Seq<char> {
        self.text@
    }

    /// The number of characters already yielded.
    pub closed spec fn index(&self) -> int {
        self.index@
    }

    /// The tracker's invariant: it stands inside its text, and what it has
    /// counted so far is the position of the last character it yielded.
    pub closed spec fn wf(&self) -> bool {
        &&& 0 <= self.index@ <= self.text@.len()
        &&& fits(self.text@)
        &&& self.rest@ == self.text@.skip(self.index@)
        &&& self.offset == offset_at(self.text@, self.index@)
        &&& self.index@ == 0 ==> self.prev is None && self.line == 0 && self.column == 0
        &&& self.index@ > 0 ==> {
            &&& self.prev == Some(self.text@[self.index@ - 1])
            &&& self.line == line_at(self.text@, self.index@ - 1)
            &&& self.column == column_at(self.text@, self.index@ - 1)
        }
    }

    /// A well-formed tracker stands inside its text, and the text is short
    /// enough for its positions.
    pub proof fn lemma_wf(&self)
        requires
            self.wf(),
        ensures
            0 <= self.index() <= self.text().len(),
            fits(self.text()),
    {
    }

    /// A tracker at the start of `text`.
    pub fn new(text: &'a str) -> (tracker: Self)
        ensures
            tracker.wf(),
            tracker.text() == text@,
            tracker.index() == 0,
    {
        let bytes = text.as_bytes();
        proof {
            vstd::slice::axiom_spec_len(bytes);
            assert(text@.skip(0) =~= text@);
            assert(text@.take(0) =~= Seq::<char>::empty());
        }
        Self {
            rest: text,
            offset: 0,
            line: 0,
            column: 0,
            prev: None,
            text: Ghost(text@),
            index: Ghost(0),
        }
    }

    /// Yields the next character with its position, or `None` once the text
    /// is exhausted.
    pub fn next(&mut self) -> (item: Option<(char, Position)>)
        requires
            old(self).wf(),
        ensures
            final(self).wf(),
            final(self).text() == old(self).text(),
            item == item_at(old(self).text(), old(self).index()),
            final(self).index() == if item is Some {
                old(self).index() + 1
            } else {
                old(self).index()
            },
    {
        broadcast use vstd::string::group_string_axioms;

        let ghost text = self.text@;
        let ghost index = self.index@;
        let mut chars = self.rest.chars();
        let ch = match chars.next() {
            Some(ch) => ch,
            None => {
                return None;
            },
        };
        assert(index < text.len());
        assert(ch == text[index]);
        let width = ch.len_utf8();
        proof {
            lemma_rest_after_first(self.rest@);
            lemma_position_bounds(text, index);
            lemma_position_bounds(text, index + 1);
            lemma_offset_step(text, index);
        }
        let (_, tail) = self.rest.split_at(width);
        proof {
            lemma_same_encoding(tail@, self.rest@.drop_first());
            assert(text.skip(index).drop_first() =~= text.skip(index + 1));
        }
        match self.prev {
            Some(prev) => {
                if prev == '\n' {
                    self.line = self.line + 1;
                    self.column = 0;
                } else {
                    self.column = self.column + 1;
                }
            },
            None => {},
        }
        self.prev = Some(ch);
        let position = Position { line: self.line, column: self.column, offset: self.offset };
        self.offset = self.offset + width;
        self.rest = tail;
        proof {
            self.index@ = index + 1;
        }
        Some((ch, position))
    }
}

/// Texts that can be read character by character with positions.
pub trait CharPositionIterators<'a> {
    /// The characters that the tracker will run over.
    spec fn characters(self) -> Seq<char>;

    /// A tracker at the start of this text.
    fn char_positions(self) -> (tracker: CharPositions<'a>)
        ensures
            tracker.wf(),
            tracker.text() == self.characters(),
            tracker.index() == 0,
    ;
}

impl<'a> CharPositionIterators<'a> for &'a str {
    open spec fn characters(self) -> Seq<char> {
        self@
    }

    fn char_positions(self) -> (tracker: CharPositions<'a>) {
        CharPositions::new(self)
    }
}

/// The encoding of a non-empty text splits after its first character.
proof fn lemma_rest_after_first(s: Seq<char>)
    requires
        s.len() > 0,
    ensures
        is_char_boundary(encode_utf8(s), utf8_width(s[0]) as int),
        encode_utf8(s).subrange(utf8_width(s[0]) as int, encode_utf8(s).len() as int)
            == encode_utf8(s.drop_first()),
{
    let bytes = encode_utf8(s);
    let first = encode_scalar(s[0] as u32);
    let rest = encode_utf8(s.drop_first());
    lemma_utf8_width_bounds(s[0]);
    encode_utf8_first_scalar(s);
    encode_utf8_valid_utf8(s);
    encode_utf8_valid_utf8(s.drop_first());
    assert(bytes == first + rest);
    assert(bytes.subrange(first.len() as int, bytes.len() as int) =~= rest);
    assert(pop_first_scalar(bytes) =~= rest);
    is_char_boundary_start_end_of_seq(rest);
    reveal_with_fuel(is_char_boundary, 2);
}

/// Texts with the same encoding are the same text.
proof fn lemma_same_encoding(a: Seq<char>, b: Seq<char>)
    requires
        encode_utf8(a) == encode_utf8(b),
    ensures
        a == b,
{
    encode_utf8_decode_utf8(a);
    encode_utf8_decode_utf8(b);
}

} // verus!
