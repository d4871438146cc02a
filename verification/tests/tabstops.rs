use brz::buffer::{distance_to_next_tabstop, distance_to_prev_tabstop};

#[test]
fn distance_to_next_tabstop_test() {
    for (v_col, expected) in &[(0, 4), (1, 3), (2, 2), (3, 1), (4, 4)] {
        assert_eq!(distance_to_next_tabstop(*v_col, 4), *expected);
    }
}

#[test]
fn distance_to_prev_tabstop_test() {
    for (v_col, expected) in &[(0, 0), (1, 1), (2, 2), (3, 3), (4, 4), (5, 1)] {
        assert_eq!(distance_to_prev_tabstop(*v_col, 4), *expected);
    }
}
