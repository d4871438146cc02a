use brz::buffer::{Buffer, VisualSelection};
use brz::idx::Idx;
use brz::position::Position;
use brz::range::Range;
use brz::selection::Selection;
use ropey::Rope;

fn buffer_on(text: &str) -> Buffer {
    Buffer::from_text(Rope::from_str(text))
}

fn caret(at: usize) -> Selection {
    Selection { anchor: Idx(at), cursor: Idx(at), was_forward: true }
}

fn span(anchor: usize, cursor: usize) -> Selection {
    Selection { anchor: Idx(anchor), cursor: Idx(cursor), was_forward: anchor <= cursor }
}

#[test]
fn typing_follows_the_caret() {
    let mut buffer = buffer_on("ad");
    buffer.selection.selections = vec![caret(1)];
    buffer.insert("b", false);
    buffer.insert("c", false);
    assert_eq!(buffer.text.to_string(), "abcd");
    assert_eq!(buffer.selection.selections, vec![span(2, 3)]);
}

#[test]
fn non_ascii_text_moves_the_selections_by_characters() {
    let mut buffer = buffer_on("xy");
    buffer.selection.selections = vec![caret(1), caret(2)];
    buffer.insert("äö", false);
    assert_eq!(buffer.text.to_string(), "xäöyäö");
    assert_eq!(buffer.selection.selections, vec![span(1, 3), span(4, 6)]);
}

#[test]
fn typing_at_adjacent_cursors_neither_drops_nor_doubles() {
    let mut buffer = buffer_on("abc");
    buffer.selection.selections = vec![caret(1), caret(2), caret(2)];
    buffer.insert("-", false);
    assert_eq!(buffer.text.to_string(), "a-b--c");
}

#[test]
fn typing_nothing_only_makes_carets() {
    let mut buffer = buffer_on("abc");
    buffer.selection.selections = vec![span(2, 0)];
    buffer.insert("", false);
    assert_eq!(buffer.text.to_string(), "abc");
    assert_eq!(buffer.selection.selections, vec![caret(0)]);
}

#[test]
fn text_put_in_and_taken_out_again_restores_everything() {
    let mut buffer = buffer_on("hello world");
    buffer.selection.selections = vec![caret(5)];
    let before = buffer.clone();
    buffer.insert(", dear", false);
    assert_eq!(buffer.text.to_string(), "hello, dear world");
    assert_eq!(buffer.selection.selections, vec![span(5, 11)]);
    let taken = buffer.delete();
    assert_eq!(taken, vec![Rope::from_str(", dear")]);
    assert_eq!(buffer.text, before.text);
    assert_eq!(buffer.selection.selections, before.selection.selections);
}

#[test]
fn selections_behind_an_edit_move_with_their_text() {
    let mut buffer = buffer_on("one two three");
    // three selections: "one", a caret before "two", and "three"
    buffer.selection.selections = vec![span(0, 3), caret(4), span(8, 13)];
    buffer.paste(&[Rope::from_str("X"), Rope::from_str("YY"), Rope::from_str("ZZZ")]);
    assert_eq!(buffer.text.to_string(), "oneZZZ YYtwo threeX");
    // every selection spans what was pasted at its cursor
    assert_eq!(buffer.selection.selections, vec![span(3, 6), span(7, 9), span(18, 19)]);
}

#[test]
fn fewer_texts_than_selections_leave_the_first_selections_alone() {
    let mut buffer = buffer_on("abcdef");
    buffer.selection.selections = vec![span(0, 1), span(2, 3), span(4, 5)];
    buffer.paste(&[Rope::from_str("!")]);
    assert_eq!(buffer.text.to_string(), "abcde!f");
    assert_eq!(buffer.selection.selections, vec![span(0, 1), span(2, 3), span(5, 6)]);
}

#[test]
fn paste_extend_grows_the_selection() {
    let mut buffer = buffer_on("abcdef");
    buffer.selection.selections = vec![span(1, 3)];
    buffer.paste_extend(&[Rope::from_str("--")]);
    assert_eq!(buffer.text.to_string(), "abc--def");
    assert_eq!(buffer.selection.selections, vec![span(1, 5)]);
}

#[test]
fn tab_reaches_to_the_next_tab_stop() {
    let mut buffer = buffer_on("ab");
    buffer.selection.selections = vec![caret(2)];
    buffer.insert_tab(false);
    assert_eq!(buffer.text.to_string(), "ab  ");
    let mut buffer = buffer_on("abcd");
    buffer.selection.selections = vec![caret(4)];
    buffer.insert_tab(false);
    assert_eq!(buffer.text.to_string(), "abcd    ");
}

#[test]
fn tab_counts_columns_not_characters() {
    let mut buffer = buffer_on("\tab");
    buffer.selection.selections = vec![caret(3)];
    assert_eq!(buffer.to_visual(Position { line: 0, column: 3 }), Position { line: 0, column: 6 });
    buffer.insert_tab(false);
    assert_eq!(buffer.text.to_string(), "\tab  ");
}

#[test]
fn tab_is_kept_where_tabs_are_not_expanded() {
    let mut buffer = buffer_on("ab");
    buffer.expand_tabs = false;
    buffer.selection.selections = vec![caret(1)];
    buffer.insert_tab(false);
    assert_eq!(buffer.text.to_string(), "a\tb");
}

#[test]
fn delete_takes_what_the_caret_faces() {
    let mut buffer = buffer_on("abc");
    buffer.selection.selections = vec![caret(1)];
    let taken = buffer.delete();
    assert_eq!(taken, vec![Rope::from_str("b")]);
    assert_eq!(buffer.text.to_string(), "ac");
    assert_eq!(buffer.selection.selections, vec![caret(1)]);

    let mut buffer = buffer_on("abc");
    buffer.selection.selections = vec![Selection { anchor: Idx(1), cursor: Idx(1), was_forward: false }];
    let taken = buffer.delete();
    assert_eq!(taken, vec![Rope::from_str("a")]);
    assert_eq!(buffer.text.to_string(), "bc");
    assert_eq!(buffer.selection.selections[0].cursor, Idx(0));
}

#[test]
fn delete_hands_out_one_text_for_each_selection_in_their_order() {
    let mut buffer = buffer_on("one two three");
    buffer.selection.selections = vec![span(8, 13), span(0, 3), span(7, 4)];
    let taken = buffer.delete();
    assert_eq!(
        taken,
        vec![Rope::from_str("three"), Rope::from_str("one"), Rope::from_str("two")]
    );
    assert_eq!(buffer.text.to_string(), "  ");
    assert_eq!(
        buffer.selection.selections.iter().map(|s| (s.anchor.0, s.cursor.0)).collect::<Vec<_>>(),
        vec![(2, 2), (0, 0), (1, 1)]
    );
}

#[test]
fn overlapping_selections_are_deleted_once() {
    let mut buffer = buffer_on("0123456789");
    buffer.selection.selections = vec![span(2, 6), span(4, 8)];
    let taken = buffer.delete();
    assert_eq!(taken, vec![Rope::from_str("2345"), Rope::from_str("4567")]);
    assert_eq!(buffer.text.to_string(), "0189");
    assert_eq!(buffer.selection.selections, vec![caret(2), caret(2)]);
}

#[test]
fn edits_on_an_empty_buffer_are_safe() {
    let mut buffer = Buffer::default();
    assert_eq!(buffer.delete(), vec![Rope::from_str("")]);
    buffer.backspace(false);
    buffer.backspace_one();
    buffer.move_cursor_up(1);
    buffer.move_cursor_down(1);
    buffer.move_cursor_backward(1);
    buffer.move_cursor_forward(1);
    buffer.move_cursor_forward_word();
    buffer.move_cursor_backward_word();
    buffer.move_line();
    buffer.extend_line();
    buffer.select_inner_surrounding();
    buffer.expand_inner_surrounding();
    buffer.decrease_indent(1);
    buffer.select_all();
    buffer.collapse();
    buffer.reverse_selections();
    assert_eq!(buffer.yank(), vec![Rope::from_str("")]);
    assert_eq!(buffer.text.len_chars(), 0);
    assert_eq!(buffer.selection.selections.len(), 1);
    assert_eq!(buffer.selection.selections[0].cursor, Idx(0));
    buffer.open();
    assert_eq!(buffer.text.to_string(), "\n");
}

#[test]
fn yank_copies_and_changes_nothing() {
    let mut buffer = buffer_on("hello world");
    buffer.selection.selections = vec![span(0, 5), span(11, 6)];
    let before = buffer.clone();
    assert_eq!(buffer.yank(), vec![Rope::from_str("hello"), Rope::from_str("world")]);
    assert_eq!(buffer, before);
}

#[test]
fn backspace_takes_one_character() {
    let mut buffer = buffer_on("abc");
    buffer.selection.selections = vec![caret(2)];
    buffer.backspace(false);
    assert_eq!(buffer.text.to_string(), "ac");
    assert_eq!(buffer.selection.selections, vec![caret(1)]);
    buffer.backspace(false);
    buffer.backspace(false);
    assert_eq!(buffer.text.to_string(), "c");
    assert_eq!(buffer.selection.selections, vec![caret(0)]);
}

#[test]
fn backspace_takes_a_tab_stop_of_indentation() {
    let mut buffer = buffer_on("        x");
    buffer.selection.selections = vec![caret(8)];
    buffer.backspace(false);
    assert_eq!(buffer.text.to_string(), "    x");
    // not at a tab stop: one character
    let mut buffer = buffer_on("      x");
    buffer.selection.selections = vec![caret(6)];
    buffer.backspace(false);
    assert_eq!(buffer.text.to_string(), "     x");
    // not in the indentation: one character
    let mut buffer = buffer_on("abcd    x");
    buffer.selection.selections = vec![caret(8)];
    buffer.backspace(false);
    assert_eq!(buffer.text.to_string(), "abcd   x");
    // tabs kept: one character
    let mut buffer = buffer_on("        x");
    buffer.expand_tabs = false;
    buffer.selection.selections = vec![caret(8)];
    buffer.backspace(false);
    assert_eq!(buffer.text.to_string(), "       x");
}

#[test]
fn backspace_one_at_several_cursors() {
    let mut buffer = buffer_on("abcdef");
    buffer.selection.selections = vec![caret(2), caret(4), caret(0)];
    buffer.backspace_one();
    assert_eq!(buffer.text.to_string(), "acef");
    assert_eq!(buffer.selection.selections, vec![caret(1), caret(2), caret(0)]);
}

#[test]
fn enter_keeps_the_indentation() {
    let mut buffer = buffer_on("  ab");
    buffer.selection.selections = vec![caret(4)];
    buffer.insert_enter(false);
    assert_eq!(buffer.text.to_string(), "  ab\n  ");
    assert_eq!(buffer.selection.selections, vec![caret(7)]);
}

#[test]
fn enter_behind_an_open_bracket_indents_deeper() {
    let mut buffer = buffer_on("  f(");
    buffer.selection.selections = vec![caret(4)];
    buffer.insert_enter(false);
    assert_eq!(buffer.text.to_string(), "  f(\n      ");
    assert_eq!(buffer.selection.selections, vec![caret(11)]);
    // a bracket opened in an earlier line does not indent deeper
    let mut buffer = buffer_on("f(\n  a");
    buffer.selection.selections = vec![caret(6)];
    buffer.insert_enter(false);
    assert_eq!(buffer.text.to_string(), "f(\n  a\n  ");
}

#[test]
fn open_makes_a_line_below() {
    let mut buffer = buffer_on("  ab\ncd");
    buffer.selection.selections = vec![caret(1)];
    buffer.open();
    assert_eq!(buffer.text.to_string(), "  ab\n  \ncd");
    assert_eq!(buffer.selection.selections, vec![caret(7)]);
}

#[test]
fn indent_touches_every_line_of_a_selection_once() {
    let mut buffer = buffer_on("a\nb\nc\nd");
    buffer.selection.selections = vec![span(0, 3), span(2, 3)];
    buffer.increase_indent(1);
    assert_eq!(buffer.text.to_string(), "    a\n    b\nc\nd");
    buffer.decrease_indent(1);
    assert_eq!(buffer.text.to_string(), "a\nb\nc\nd");
    buffer.increase_indent(2);
    assert_eq!(buffer.text.to_string(), "        a\n        b\nc\nd");
}

#[test]
fn decrease_indent_leaves_lines_that_do_not_begin_with_it() {
    let mut buffer = buffer_on("    a\n  b\nc");
    buffer.selection.selections = vec![span(0, 11)];
    buffer.decrease_indent(1);
    assert_eq!(buffer.text.to_string(), "a\n  b\nc");
}

#[test]
fn touched_lines_of_selections() {
    let mut buffer = buffer_on("a\nb\nc\nd");
    buffer.selection.selections = vec![span(0, 3), caret(6)];
    let lines: Vec<usize> = buffer.selection.to_lines(&buffer.text).into_iter().collect();
    assert_eq!(lines, vec![0, 1, 3]);
    assert_eq!(buffer.selection.touched_lines(&buffer.text), vec![0, 1, 3]);
    // a selection that ends at the start of a line does not touch that line
    buffer.selection.selections = vec![span(0, 2)];
    assert_eq!(buffer.selection.touched_lines(&buffer.text), vec![0]);
}

#[test]
fn select_all_faces_as_the_primary_selection_did() {
    let mut buffer = buffer_on("abc");
    buffer.selection.selections = vec![caret(1), span(2, 1)];
    buffer.selection.primary = 1;
    buffer.select_all();
    assert_eq!(
        buffer.selection.selections,
        vec![Selection { anchor: Idx(3), cursor: Idx(0), was_forward: false }]
    );
    assert_eq!(buffer.selection.primary, 0);
}

#[test]
fn collapse_keeps_the_primary_selection() {
    let mut buffer = buffer_on("abcdef");
    buffer.selection.selections = vec![span(0, 1), span(2, 4)];
    buffer.selection.primary = 1;
    buffer.collapse();
    assert_eq!(buffer.selection.selections, vec![span(2, 4)]);
    buffer.collapse();
    assert_eq!(buffer.selection.selections, vec![caret(4)]);
}

#[test]
fn reverse_exchanges_the_ends() {
    let mut buffer = buffer_on("abcdef");
    buffer.selection.selections = vec![span(1, 4)];
    buffer.reverse_selections();
    assert_eq!(buffer.selection.selections, vec![span(4, 1)]);
}

#[test]
fn characters_are_shown_as_selected_or_marked() {
    let mut buffer = buffer_on("abcdef");
    buffer.selection.selections = vec![span(1, 3), caret(4)];
    assert_eq!(buffer.idx_selection_type(Idx(0)), VisualSelection::Unselected);
    assert_eq!(buffer.idx_selection_type(Idx(1)), VisualSelection::Selection);
    assert_eq!(buffer.idx_selection_type(Idx(2)), VisualSelection::Selection);
    assert_eq!(buffer.idx_selection_type(Idx(3)), VisualSelection::Unselected);
    assert_eq!(buffer.idx_selection_type(Idx(4)), VisualSelection::DirectionMarker);
}

#[test]
fn ranges_slice_and_remove() {
    let mut text = Rope::from_str("hello world");
    let range = Idx(11).range_to(Idx(6));
    assert_eq!(range.len(), 5);
    assert_eq!(range.sorted().from, Idx(6));
    assert_eq!(range.reversed().from, Idx(6));
    assert_eq!(range.slice(&text), Rope::from_str("world"));
    (Range { from: Idx(5), to: Idx(11) }).remove_from(&mut text);
    assert_eq!(text.to_string(), "hello");
}

#[test]
fn shifted_offsets_agree_with_saved_positions() {
    let mut buffer = buffer_on("one\ntwo\nthree");
    buffer.selection.selections = vec![span(0, 3), caret(5), span(13, 8)];
    let saved: Vec<(Position, Position)> = buffer
        .selection
        .selections
        .iter()
        .map(|sel| (sel.anchor.to_position(&buffer.text), sel.cursor.to_position(&buffer.text)))
        .collect();
    // an edit at the second selection, within its line
    buffer.text.insert(5, "XY");
    buffer.selection.fix_on_insert(Idx(5), 2);
    assert_eq!(buffer.text.to_string(), "one\ntXYwo\nthree");
    assert_eq!(buffer.selection.selections, vec![span(0, 3), span(5, 7), span(15, 10)]);
    for k in [0, 2] {
        let sel = buffer.selection.selections[k];
        assert_eq!(saved[k].0.to_idx(&buffer.text), sel.anchor);
        assert_eq!(saved[k].1.to_idx(&buffer.text), sel.cursor);
    }
    // and back
    let before = buffer.text.clone();
    buffer.selection.fix_on_delete(Idx(5), 2, &before);
    buffer.text.remove(5..7);
    assert_eq!(buffer.selection.selections, vec![span(0, 3), caret(5), span(13, 8)]);
    for k in [0, 2] {
        let sel = buffer.selection.selections[k];
        assert_eq!(saved[k].0.to_idx(&buffer.text), sel.anchor);
        assert_eq!(saved[k].1.to_idx(&buffer.text), sel.cursor);
    }
}

#[test]
fn carriage_returns_end_lines_for_positions() {
    let buffer = buffer_on("ab\r\ncd\ref");
    assert_eq!(buffer.lines(), 3);
    assert_eq!(Idx(3).to_position(&buffer.text), Position { line: 0, column: 3 });
    assert_eq!(Idx(4).to_position(&buffer.text), Position { line: 1, column: 0 });
    assert_eq!(Idx(7).to_position(&buffer.text), Position { line: 2, column: 0 });
    assert_eq!((Position { line: 1, column: 9 }).to_idx(&buffer.text), Idx(6));
}
