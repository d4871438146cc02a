use brz::buffer::SelectionSet;
use brz::idx::Idx;
use brz::position::Position;
use brz::selection::{Selection, SelectionUnaligned};
use ropey::Rope;

fn span(anchor: usize, cursor: usize) -> Selection {
    Selection { anchor: Idx(anchor), cursor: Idx(cursor), was_forward: anchor <= cursor }
}

#[test]
fn a_caret_faces_the_way_it_last_faced() {
    assert!(span(1, 4).is_forward());
    assert!(!span(4, 1).is_forward());
    assert!(Selection { anchor: Idx(2), cursor: Idx(2), was_forward: true }.is_forward());
    assert!(!Selection { anchor: Idx(2), cursor: Idx(2), was_forward: false }.is_forward());
    assert!(Selection::default().is_forward());
    assert!(Selection::default().is_empty());
}

#[test]
fn sorting_and_reversing() {
    assert_eq!(span(4, 1).sorted(), span(1, 4));
    assert_eq!(span(1, 4).sorted(), span(1, 4));
    assert_eq!(span(4, 1).sorted_pair(), (Idx(1), Idx(4)));
    assert_eq!(span(4, 1).sorted_range(), Idx(1)..Idx(4));
    assert_eq!(span(4, 1).sorted_range_usize(), 1..4);
    assert_eq!(span(4, 1).reversed(), span(1, 4));
    assert_eq!(span(4, 1).collapsed(), Selection { anchor: Idx(1), cursor: Idx(1), was_forward: false });
    assert_eq!(span(4, 1).len(), 3);
    assert_eq!(span(1, 4).unify_direction_of(span(9, 7)), span(7, 9));
    assert_eq!(span(4, 1).unify_direction_of(span(9, 7)), span(9, 7));
    assert_eq!(Selection::new_from_normalized(Idx(3), Idx(1)), span(3, 1));
}

#[test]
fn membership() {
    assert!(span(1, 4).is_idx_strictly_inside(Idx(1)));
    assert!(span(4, 1).is_idx_strictly_inside(Idx(3)));
    assert!(!span(1, 4).is_idx_strictly_inside(Idx(4)));
    assert!(!span(2, 2).is_idx_strictly_inside(Idx(2)));
    let forward = Selection { anchor: Idx(2), cursor: Idx(2), was_forward: true };
    let backward = Selection { anchor: Idx(2), cursor: Idx(2), was_forward: false };
    assert!(forward.is_idx_inside_direction_marker(Idx(2)));
    assert!(!forward.is_idx_inside_direction_marker(Idx(1)));
    assert!(backward.is_idx_inside_direction_marker(Idx(1)));
    assert!(!backward.is_idx_inside_direction_marker(Idx(usize::MAX)));
}

#[test]
fn normalizing_brings_the_ends_within_the_text() {
    let text = Rope::from_str("abc");
    assert_eq!(span(1, 9).normalized(&text), span(1, 3));
    assert_eq!(span(9, 7).aligned(&text).cursor, Idx(3));
    assert_eq!(Selection::new(Idx(8), Idx(2), &text), span(3, 2));
    // a caret stays a caret
    assert!(span(9, 9).normalized(&text).is_empty());
}

#[test]
fn a_caret_is_given_the_character_it_faces() {
    let text = Rope::from_str("abc");
    let forward = Selection { anchor: Idx(1), cursor: Idx(1), was_forward: true };
    let backward = Selection { anchor: Idx(1), cursor: Idx(1), was_forward: false };
    assert_eq!(forward.self_or_direction_marker(&text).sorted_pair(), (Idx(1), Idx(2)));
    assert_eq!(backward.self_or_direction_marker(&text).sorted_pair(), (Idx(0), Idx(1)));
    assert_eq!(span(0, 2).self_or_direction_marker(&text), span(0, 2));
    // nothing to face at the ends of the text
    let at_end = Selection { anchor: Idx(3), cursor: Idx(3), was_forward: true };
    assert!(at_end.self_or_direction_marker(&text).is_empty());
    let at_start = Selection { anchor: Idx(0), cursor: Idx(0), was_forward: false };
    assert!(at_start.self_or_direction_marker(&text).is_empty());
}

#[test]
fn an_insertion_moves_what_stands_behind_it() {
    // behind: both ends move
    assert_eq!(span(5, 8).fix_on_insert(Idx(2), 3), span(8, 11));
    // before: nothing moves
    assert_eq!(span(5, 8).fix_on_insert(Idx(9), 3), span(5, 8));
    // inside: the far end moves
    assert_eq!(span(5, 8).fix_on_insert(Idx(6), 3), span(5, 11));
    // at the near end of a selection that faces forward: both ends move
    assert_eq!(span(5, 8).fix_on_insert(Idx(5), 3), span(5, 11));
    // at the cursor of a selection that faces forward: the cursor gives way
    assert_eq!(span(5, 8).fix_on_insert(Idx(8), 3), span(5, 11));
    // at the cursor of a selection that faces backward: the cursor stays
    assert_eq!(span(8, 5).fix_on_insert(Idx(5), 3), span(11, 5));
    assert_eq!(span(8, 5).fix_on_insert(Idx(8), 3), span(11, 5));
    // offsets stop at the largest that can be held
    assert_eq!(span(5, 8).fix_on_insert(Idx(0), usize::MAX).cursor, Idx(usize::MAX));
}

#[test]
fn a_removal_moves_or_collapses() {
    assert_eq!(span(5, 8).fix_on_delete(Idx(1), 2), span(3, 6));
    assert_eq!(span(5, 8).fix_on_delete(Idx(8), 2), span(5, 8));
    assert_eq!(span(5, 8).fix_on_delete(Idx(6), 1), span(5, 7));
    assert_eq!(span(5, 8).fix_on_delete(Idx(6), 9), span(5, 6));
    let collapsed = span(8, 5).fix_on_delete(Idx(4), 6);
    assert_eq!(collapsed, Selection { anchor: Idx(4), cursor: Idx(4), was_forward: false });
    // moved for an insertion and moved back for its removal
    for sel in [span(5, 8), span(8, 5), span(3, 3), span(0, 12)] {
        for at in 0..13 {
            assert_eq!(sel.fix_on_insert(Idx(at), 4).fix_on_delete(Idx(at), 4), sel);
        }
    }
}

#[test]
fn selection_sets_fix_every_selection() {
    let mut set = SelectionSet::default();
    assert_eq!(set.selections, vec![Selection::default()]);
    set.selections = vec![span(0, 2), span(4, 6)];
    set.cursor_column = vec![1, 2];
    set.fix_on_insert(Idx(3), 2);
    assert_eq!(set.selections, vec![span(0, 2), span(6, 8)]);
    let text = Rope::from_str("0123456789");
    set.fix_on_delete(Idx(0), 1, &text);
    assert_eq!(set.selections, vec![span(0, 1), span(5, 7)]);
    set.selections = vec![span(7, 5)];
    set.sort();
    assert_eq!(set.selections, vec![span(5, 7)]);
    set.collapse();
    assert_eq!(set.selections, vec![Selection { anchor: Idx(7), cursor: Idx(7), was_forward: true }]);
    set.clear_cursor_column();
    assert!(set.cursor_column.is_empty());
    set.maybe_save_cursor_column(&text);
    assert_eq!(set.cursor_column, vec![7]);
}

#[test]
fn selections_between_positions() {
    let text = Rope::from_str("ab\ncde");
    let sel = SelectionUnaligned {
        anchor: Position { line: 1, column: 9 },
        cursor: Position { line: 0, column: 1 },
        was_forward: true,
    };
    assert_eq!(sel.sorted(), (sel.cursor, sel.anchor));
    assert_eq!(sel.update_last_direction().was_forward, false);
    assert_eq!(sel.aligned(&text), Selection { anchor: Idx(6), cursor: Idx(1), was_forward: true });
    assert!(!sel.is_empty(&text));
    assert_eq!(sel.reversed().anchor, sel.cursor);
    assert_eq!(sel.collapsed().anchor, sel.cursor);
    let far = SelectionUnaligned {
        anchor: Position { line: 7, column: 0 },
        cursor: Position { line: 0, column: 0 },
        was_forward: false,
    };
    assert_eq!(far.line_trimed(&text).anchor.line, 1);
    let back = SelectionUnaligned::from_selection(span(1, 5), &text);
    assert_eq!(back.anchor, Position { line: 0, column: 1 });
    assert_eq!(back.cursor, Position { line: 1, column: 2 });
}
