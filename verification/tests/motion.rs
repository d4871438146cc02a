use brz::buffer::Buffer;
use brz::idx::Idx;
use brz::position::Position;
use brz::selection::Selection;
use ropey::Rope;

fn buffer_on(text: &str) -> Buffer {
    Buffer::from_text(Rope::from_str(text))
}

fn caret(at: usize) -> Selection {
    Selection { anchor: Idx(at), cursor: Idx(at), was_forward: true }
}

#[test]
fn forward_word_lands_on_each_next_token() {
    let mut buffer = buffer_on("foo  bar.baz");
    buffer.move_cursor_forward_word();
    assert_eq!(buffer.selection.selections[0].anchor, Idx(0));
    assert_eq!(buffer.selection.selections[0].cursor, Idx(5));
    buffer.move_cursor_forward_word();
    assert_eq!(buffer.selection.selections[0].anchor, Idx(5));
    assert_eq!(buffer.selection.selections[0].cursor, Idx(8));
    buffer.move_cursor_forward_word();
    assert_eq!(buffer.selection.selections[0].anchor, Idx(8));
    assert_eq!(buffer.selection.selections[0].cursor, Idx(9));
    buffer.move_cursor_forward_word();
    assert_eq!(buffer.selection.selections[0].cursor, Idx(12));
}

#[test]
fn forward_word_skips_line_feeds_first() {
    let text = Rope::from_str("ab\n\ncd  \nef");
    assert_eq!(Idx(2).forward_word(&text), (Idx(4), Idx(8)));
    assert_eq!(Idx(12).forward_word(&text), (Idx(12), Idx(12)));
}

#[test]
fn backward_word_spans_the_word_before() {
    let text = Rope::from_str("foo  bar.baz");
    assert_eq!(Idx(12).backward_word(&text), (Idx(12), Idx(9)));
    assert_eq!(Idx(9).backward_word(&text), (Idx(9), Idx(8)));
    assert_eq!(Idx(8).backward_word(&text), (Idx(8), Idx(5)));
    assert_eq!(Idx(5).backward_word(&text), (Idx(3), Idx(0)));
    assert_eq!(Idx(0).backward_word(&text), (Idx(0), Idx(0)));
}

#[test]
fn backward_at_the_start_changes_nothing() {
    let mut buffer = buffer_on("abc");
    buffer.move_cursor_backward(1);
    assert_eq!(buffer.selection.selections, vec![caret(0)]);
    buffer.move_cursor_backward(usize::MAX);
    assert_eq!(buffer.selection.selections, vec![caret(0)]);
    assert_eq!(buffer.text, Rope::from_str("abc"));
}

#[test]
fn forward_stops_at_the_end() {
    let mut buffer = buffer_on("abc");
    buffer.move_cursor_forward(usize::MAX);
    assert_eq!(buffer.selection.selections[0].cursor, Idx(3));
    buffer.move_cursor_forward(1);
    assert_eq!(buffer.selection.selections[0], caret(3));
}

#[test]
fn up_in_the_first_line_changes_nothing() {
    let mut buffer = buffer_on("abc\ndef");
    buffer.selection.selections = vec![caret(2)];
    buffer.move_cursor_up(1);
    assert_eq!(buffer.selection.selections, vec![caret(2)]);
    buffer.move_cursor_up(100);
    assert_eq!(buffer.selection.selections, vec![caret(2)]);
}

#[test]
fn down_in_the_last_line_changes_nothing() {
    let mut buffer = buffer_on("abc\ndef");
    buffer.selection.selections = vec![caret(5)];
    buffer.move_cursor_down(3);
    assert_eq!(buffer.selection.selections, vec![caret(5)]);
}

#[test]
fn vertical_moves_keep_the_column_across_short_lines() {
    let mut buffer = buffer_on("abcdef\nx\nabcdef\n");
    buffer.selection.selections = vec![caret(4)];
    buffer.move_cursor_down(1);
    // the second line holds "x" and its line feed: the cursor stops at the line feed
    assert_eq!(buffer.selection.selections[0].cursor, Idx(8));
    assert_eq!(buffer.selection.cursor_column, vec![4]);
    buffer.move_cursor_down(1);
    assert_eq!(buffer.selection.selections[0].cursor, Idx(13));
    buffer.move_cursor_up(2);
    assert_eq!(buffer.selection.selections[0].cursor, Idx(4));
    buffer.move_cursor_forward(1);
    assert!(buffer.selection.cursor_column.is_empty());
}

#[test]
fn extending_keeps_the_anchor() {
    let mut buffer = buffer_on("hello world");
    buffer.selection.selections = vec![caret(3)];
    buffer.extend_cursor_forward(4);
    assert_eq!(
        buffer.selection.selections,
        vec![Selection { anchor: Idx(3), cursor: Idx(7), was_forward: true }]
    );
    buffer.extend_cursor_backward(6);
    assert_eq!(
        buffer.selection.selections,
        vec![Selection { anchor: Idx(3), cursor: Idx(1), was_forward: false }]
    );
}

#[test]
fn positions_and_offsets_convert_both_ways() {
    let text = Rope::from_str("ab\ncde\n\nf");
    assert_eq!(Position::from_idx(Idx(0), &text), Position { line: 0, column: 0 });
    assert_eq!(Position::from_idx(Idx(2), &text), Position { line: 0, column: 2 });
    assert_eq!(Position::from_idx(Idx(3), &text), Position { line: 1, column: 0 });
    assert_eq!(Position::from_idx(Idx(7), &text), Position { line: 2, column: 0 });
    assert_eq!(Position::from_idx(Idx(9), &text), Position { line: 3, column: 1 });
    for i in 0..=9 {
        assert_eq!(Position::from_idx(Idx(i), &text).to_idx(&text), Idx(i));
    }
}

#[test]
fn columns_are_trimmed_to_the_line() {
    let text = Rope::from_str("ab\ncde\n\nf");
    // a line that is not the last: at most its last character, the line feed
    assert_eq!(
        (Position { line: 1, column: 10 }).trim_column_to_buf(&text),
        Position { line: 1, column: 3 }
    );
    // the last line: the end of the text
    assert_eq!(
        (Position { line: 3, column: 10 }).trim_column_to_buf(&text),
        Position { line: 3, column: 1 }
    );
    assert_eq!((Position { line: 2, column: 10 }).to_idx(&text), Idx(7));
    assert_eq!(
        (Position { line: 9, column: 1 }).trim_line_to_buf(&text),
        Position { line: 3, column: 1 }
    );
    assert_eq!((Position { line: 1, column: 1 }).up_unaligned(5, &text).line, 0);
    assert_eq!((Position { line: 1, column: 1 }).down_unaligned(usize::MAX, &text).line, 3);
}

#[test]
fn empty_text_has_one_line() {
    let text = Rope::from_str("");
    assert_eq!(Position::from_idx(Idx(0), &text), Position { line: 0, column: 0 });
    assert_eq!((Position { line: 0, column: 7 }).to_idx(&text), Idx(0));
    assert_eq!(Idx(0).forward(&text), Idx(0));
    assert_eq!(Idx(0).backward(&text), Idx(0));
    assert_eq!(Idx(0).next_char(&text), None);
    assert_eq!(Idx(0).prev_char(&text), None);
    assert_eq!(Idx::end(&text), Idx(0));
}

#[test]
fn line_scans_stop_at_line_feeds() {
    let text = Rope::from_str("  ab\ncd");
    assert_eq!(Idx(3).forward_to_line_end(&text), Idx(4));
    assert_eq!(Idx(3).forward_past_line_end(&text), Idx(5));
    assert_eq!(Idx(3).backward_to_line_start(&text), Idx(0));
    assert_eq!(Idx(3).before_first_non_whitespace(&text), Idx(2));
    assert_eq!(Idx(6).forward_past_line_end(&text), Idx(7));
    assert_eq!(Idx(6).backward_to_line_start(&text), Idx(5));
    assert_eq!(Idx(9).trim_to_text(&text), Idx(7));
    assert_eq!(Idx(1).next_char(&text), Some(' '));
    assert_eq!(Idx(3).prev_char(&text), Some('a'));
}

#[test]
fn move_line_spans_the_whole_line() {
    let mut buffer = buffer_on("ab\ncde\nf");
    buffer.selection.selections = vec![caret(4)];
    buffer.move_line();
    assert_eq!(
        buffer.selection.selections,
        vec![Selection { anchor: Idx(3), cursor: Idx(7), was_forward: true }]
    );
    buffer.extend_line();
    assert_eq!(
        buffer.selection.selections,
        vec![Selection { anchor: Idx(3), cursor: Idx(8), was_forward: true }]
    );
}

#[test]
fn cursor_coord_is_the_position_of_the_first_cursor() {
    let mut buffer = buffer_on("ab\ncde\nf");
    buffer.selection.selections = vec![caret(5), caret(0)];
    assert_eq!(buffer.cursor_coord(), Position { line: 1, column: 2 });
    assert_eq!(buffer.lines(), 3);
}

#[test]
fn every_line_break_of_unicode_ends_a_line() {
    let text = Rope::from_str("a\u{85}b\u{2028}c\u{2029}d\u{b}e\u{c}f\rg\nh");
    for (i, line) in (0..15).step_by(2).zip(0..) {
        assert_eq!(Position::from_idx(Idx(i), &text), Position { line, column: 0 });
        assert_eq!(Position::line_length(line, &text), if line == 7 { 1 } else { 2 });
    }
    assert_eq!(Position::from_idx(Idx(15), &text), Position { line: 7, column: 1 });
}
