use idl_parser::lexer::char_positions::{CharPositionIterators, CharPositions};
use idl_parser::lexer::position::{Position, Span};

#[test]
fn char_positions_works() {
    let mut char_pos = CharPositions::new("a\nbc");

    assert_eq!(
        char_pos.next(),
        Some((
            'a',
            Position {
                line: 0,
                column: 0,
                offset: 0
            }
        ))
    );
    assert_eq!(
        char_pos.next(),
        Some((
            '\n',
            Position {
                line: 0,
                column: 1,
                offset: 1
            }
        ))
    );
    assert_eq!(
        char_pos.next(),
        Some((
            'b',
            Position {
                line: 1,
                column: 0,
                offset: 2
            }
        ))
    );
    assert_eq!(
        char_pos.next(),
        Some((
            'c',
            Position {
                line: 1,
                column: 1,
                offset: 3
            }
        ))
    );
}

#[test]
fn iterates() {
    let mut char_positions = "abcd\nef".char_positions();

    assert_eq!(char_positions.next(), Some(('a', Position::new(0, 0, 0))));
    assert_eq!(char_positions.next(), Some(('b', Position::new(0, 1, 1))));
    assert_eq!(char_positions.next(), Some(('c', Position::new(0, 2, 2))));
    assert_eq!(char_positions.next(), Some(('d', Position::new(0, 3, 3))));
    assert_eq!(char_positions.next(), Some(('\n', Position::new(0, 4, 4))));
    assert_eq!(char_positions.next(), Some(('e', Position::new(1, 0, 5))));
    assert_eq!(char_positions.next(), Some(('f', Position::new(1, 1, 6))));
}

#[test]
fn empty_text_yields_nothing() {
    let mut char_positions = CharPositions::new("");
    assert_eq!(char_positions.next(), None);
    assert_eq!(char_positions.next(), None);
}

#[test]
fn stays_exhausted_after_the_last_character() {
    let mut char_positions = CharPositions::new("x");
    assert_eq!(char_positions.next(), Some(('x', Position::new(0, 0, 0))));
    assert_eq!(char_positions.next(), None);
    assert_eq!(char_positions.next(), None);
}

#[test]
fn offsets_count_bytes_and_columns_count_characters() {
    // 'é' takes two bytes, '€' three, '𝄞' four.
    let mut char_positions = CharPositions::new("é€𝄞a");
    assert_eq!(char_positions.next(), Some(('é', Position::new(0, 0, 0))));
    assert_eq!(char_positions.next(), Some(('€', Position::new(0, 1, 2))));
    assert_eq!(char_positions.next(), Some(('𝄞', Position::new(0, 2, 5))));
    assert_eq!(char_positions.next(), Some(('a', Position::new(0, 3, 9))));
    assert_eq!(char_positions.next(), None);
}

#[test]
fn consecutive_line_feeds_each_start_a_line() {
    let mut char_positions = CharPositions::new("\n\nx\n");
    assert_eq!(char_positions.next(), Some(('\n', Position::new(0, 0, 0))));
    assert_eq!(char_positions.next(), Some(('\n', Position::new(1, 0, 1))));
    assert_eq!(char_positions.next(), Some(('x', Position::new(2, 0, 2))));
    assert_eq!(char_positions.next(), Some(('\n', Position::new(2, 1, 3))));
    assert_eq!(char_positions.next(), None);
}

#[test]
fn positions_follow_offsets_line_feeds_and_columns() {
    let text = "ab\né\n\nxyz";
    let mut char_positions = CharPositions::new(text);
    let mut previous: Option<(char, Position)> = None;
    let mut line_feeds = 0;
    let mut count = 0;
    while let Some((ch, position)) = char_positions.next() {
        assert_eq!(position.line, line_feeds);
        if let Some((before, earlier)) = previous {
            assert!(earlier.offset < position.offset);
            if before == '\n' {
                assert_eq!(position.column, 0);
            } else {
                assert_eq!(position.column, earlier.column + 1);
            }
        } else {
            assert_eq!(position, Position::new(0, 0, 0));
        }
        if ch == '\n' {
            line_feeds += 1;
        }
        previous = Some((ch, position));
        count += 1;
    }
    assert_eq!(count, text.chars().count());
}

#[test]
fn span_constructors_set_both_ends() {
    let start = Position::new(1, 2, 3);
    let end = Position::new(4, 5, 6);
    assert_eq!(Span::starts(start), Span { start, end: start });
    assert_eq!(Span::starts(start).ends(end), Span { start, end });
    assert_eq!(Span::range(start, end), Span { start, end });
    assert_eq!(Span::at(end), Span { start: end, end });
}
