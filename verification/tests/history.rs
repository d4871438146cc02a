use brz::buffer::Buffer;
use brz::history::BufferState;
use brz::idx::Idx;
use brz::selection::Selection;
use ropey::Rope;

fn state_on(text: &str) -> BufferState {
    BufferState::new(Buffer::from_text(Rope::from_str(text)), None)
}

fn caret(at: usize) -> Selection {
    Selection { anchor: Idx(at), cursor: Idx(at), was_forward: true }
}

#[test]
fn undo_with_nothing_committed_leaves_the_buffer() {
    let mut state = state_on("abc");
    state.undo(1);
    assert_eq!(state.buffer.text.to_string(), "abc");
    assert_eq!(state.buffer_history.len(), 1);
    assert_eq!(state.buffer_history_undo_i, Some(0));
    state.undo(5);
    assert_eq!(state.buffer_history_undo_i, Some(0));
    assert_eq!(state.buffer.text.to_string(), "abc");
}

#[test]
fn redo_while_live_changes_nothing() {
    let mut state = state_on("abc");
    state.redo(3);
    assert_eq!(state.buffer.text.to_string(), "abc");
    assert_eq!(state.buffer_history.len(), 0);
    assert_eq!(state.buffer_history_undo_i, None);
}

#[test]
fn committing_twice_adds_one_state() {
    let mut state = state_on("abc");
    state.maybe_commit_undo_point();
    state.maybe_commit_undo_point();
    assert_eq!(state.buffer_history.len(), 1);
    state.buffer.selection.selections = vec![caret(2)];
    state.maybe_commit_undo_point();
    assert_eq!(state.buffer_history.len(), 1);
    assert_eq!(state.buffer_history[0].selection.selections, vec![caret(2)]);
    state.buffer.insert("x", false);
    state.maybe_commit_undo_point();
    assert_eq!(state.buffer_history.len(), 2);
}

#[test]
fn undo_and_redo_walk_the_history() {
    let mut state = state_on("a");
    state.maybe_commit_undo_point();
    state.buffer.selection.selections = vec![caret(1)];
    state.maybe_commit_undo_point();
    state.buffer.insert("b", false);
    state.maybe_commit_undo_point();
    state.buffer.insert("c", false);
    // the edit not yet committed is committed by the undo
    state.undo(1);
    assert_eq!(state.buffer.text.to_string(), "ab");
    assert_eq!(state.buffer_history.len(), 3);
    state.undo(1);
    assert_eq!(state.buffer.text.to_string(), "a");
    // the cursor stands where it stood just before the edit
    assert_eq!(state.buffer.selection.selections, vec![caret(1)]);
    state.undo(1);
    assert_eq!(state.buffer.text.to_string(), "a");
    state.redo(1);
    assert_eq!(state.buffer.text.to_string(), "ab");
    state.redo(7);
    assert_eq!(state.buffer.text.to_string(), "abc");
    assert_eq!(state.buffer_history_undo_i, Some(2));
    state.undo(2);
    assert_eq!(state.buffer.text.to_string(), "a");
}

#[test]
fn an_edit_made_mid_history_is_kept_with_the_state_it_set_out_from() {
    let mut state = state_on("a");
    state.maybe_commit_undo_point();
    state.buffer.selection.selections = vec![caret(1)];
    state.maybe_commit_undo_point();
    state.buffer.insert("b", false);
    state.maybe_commit_undo_point();
    state.buffer.insert("c", false);
    state.maybe_commit_undo_point();
    state.undo(2);
    assert_eq!(state.buffer.text.to_string(), "a");
    // a new edit from the oldest state
    state.buffer.insert("z", false);
    state.maybe_commit_undo_point();
    assert_eq!(state.buffer_history_undo_i, None);
    let texts: Vec<String> =
        state.buffer_history.iter().map(|buffer| buffer.text.to_string()).collect();
    assert_eq!(texts, vec!["a", "ab", "abc", "a", "az"]);
    state.undo(1);
    assert_eq!(state.buffer.text.to_string(), "a");
    assert_eq!(state.buffer_history_undo_i, Some(3));
    state.redo(1);
    assert_eq!(state.buffer.text.to_string(), "az");
}

#[test]
fn snapshots_are_independent_of_the_buffer() {
    let mut state = state_on("abc");
    state.maybe_commit_undo_point();
    state.buffer.insert("x", false);
    assert_eq!(state.buffer_history[0].text.to_string(), "abc");
    let copy = state.buffer.snapshot();
    state.buffer.insert("y", false);
    assert_eq!(copy.text.to_string(), "xabc");
    assert!(copy.same_text_as(&copy.snapshot()));
    assert!(!copy.same_text_as(&state.buffer));
    assert!(copy.selection.same_as(&copy.selection.duplicate()));
    assert!(!copy.selection.same_as(&state.buffer.selection));
}
