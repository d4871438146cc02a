use brz::buffer::Buffer;
use brz::idx::brackets::{is_indent_closing_char, is_indent_opening_char, matching_char};
use brz::idx::Idx;
use brz::selection::Selection;
use ropey::Rope;

fn texts(buffer: &mut Buffer) -> Vec<String> {
    buffer.yank().iter().map(|rope| rope.to_string()).collect()
}

#[test]
fn inner_surrounding_grows_pair_by_pair() {
    let mut buffer = Buffer::from_text(Rope::from_str("f(a, (b), c)"));
    buffer.selection.selections =
        vec![Selection { anchor: Idx(6), cursor: Idx(6), was_forward: true }];
    buffer.select_inner_surrounding();
    assert_eq!(texts(&mut buffer), vec!["b"]);
    buffer.select_inner_surrounding();
    assert_eq!(texts(&mut buffer), vec!["a, (b), c"]);
    // no pair is left: the whole text
    buffer.select_inner_surrounding();
    assert_eq!(texts(&mut buffer), vec!["f(a, (b), c)"]);
    buffer.select_inner_surrounding();
    assert_eq!(texts(&mut buffer), vec!["f(a, (b), c)"]);
}

#[test]
fn inner_surrounding_from_behind_the_character() {
    let mut buffer = Buffer::from_text(Rope::from_str("f(a, (b), c)"));
    buffer.selection.selections =
        vec![Selection { anchor: Idx(7), cursor: Idx(7), was_forward: true }];
    buffer.select_inner_surrounding();
    assert_eq!(texts(&mut buffer), vec!["b"]);
}

#[test]
fn inner_surrounding_keeps_the_direction() {
    let mut buffer = Buffer::from_text(Rope::from_str("x [a b] y"));
    buffer.selection.selections =
        vec![Selection { anchor: Idx(5), cursor: Idx(4), was_forward: false }];
    buffer.select_inner_surrounding();
    assert_eq!(
        buffer.selection.selections,
        vec![Selection { anchor: Idx(6), cursor: Idx(3), was_forward: false }]
    );
}

#[test]
fn surrounding_area_of_an_offset() {
    let text = Rope::from_str("f(a, (b), c)");
    assert_eq!(Idx(6).find_surounding_area_opt(&text), Some((Idx(6), Idx(7))));
    assert_eq!(Idx(3).find_surounding_area(&text), (Idx(2), Idx(11)));
    assert_eq!(Idx(0).find_surounding_area_opt(&text), None);
    assert_eq!(Idx(0).find_surounding_area(&text), (Idx(0), Idx(12)));
    assert_eq!(Idx::surrounding_area(Idx(5), Idx(8), &text), (Idx(2), Idx(11)));
}

#[test]
fn quotes_pair_with_themselves() {
    let text = Rope::from_str("say \"hi you\" now");
    assert_eq!(Idx(7).find_surounding_area(&text), (Idx(5), Idx(11)));
    assert_eq!(matching_char('"'), '"');
    assert_eq!(matching_char('('), ')');
    assert_eq!(matching_char('}'), '{');
    assert_eq!(matching_char('x'), 'x');
    assert!(is_indent_opening_char('\'') && is_indent_closing_char('\''));
    assert!(is_indent_opening_char('<') && !is_indent_closing_char('<'));
}

#[test]
fn opening_and_closing_brackets_are_found_across_nesting() {
    let text = Rope::from_str("a(b[c]d)e");
    assert_eq!(Idx(7).to_after_indent_opening_char(&text), Some(Idx(2)));
    assert_eq!(Idx(3).to_before_indent_closing_char(&text), Some(Idx(7)));
    assert_eq!(Idx(1).to_after_indent_opening_char(&text), None);
    assert_eq!(Idx(8).to_before_indent_closing_char(&text), None);
    assert_eq!(Idx(5).to_after_indent_opening_char(&text), Some(Idx(4)));
}

#[test]
fn expand_reaches_the_brackets_around() {
    let mut buffer = Buffer::from_text(Rope::from_str("a(b[c]d)e"));
    buffer.selection.selections =
        vec![Selection { anchor: Idx(4), cursor: Idx(5), was_forward: true }];
    // the selection fills its brackets: it takes them in
    buffer.expand_inner_surrounding();
    assert_eq!(texts(&mut buffer), vec!["[c]"]);
    buffer.expand_inner_surrounding();
    assert_eq!(texts(&mut buffer), vec!["b[c]d"]);
}

#[test]
fn indentation_wished_for_a_new_line() {
    let text = Rope::from_str("  f(x\n    y");
    let (indent, deeper) = Idx(5).desired_indent_when_opening_line(&text);
    assert_eq!(indent.to_string(), "  ");
    assert!(deeper);
    let (indent, deeper) = Idx(11).desired_indent_when_opening_line(&text);
    assert_eq!(indent.to_string(), "    ");
    assert!(!deeper);
}
