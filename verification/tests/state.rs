use brz::action::{action_by_key, default_key_mappings, Action};
use brz::key::{Key, NaturalyOrderedKey};
use brz::mode::command::split_words;
use brz::mode::Mode;
use brz::state::{Request, State};
use ropey::Rope;

fn keys(state: &mut State, typed: &str) -> Vec<Request> {
    let mut requests = vec![];
    for ch in typed.chars() {
        requests.extend(state.handle_key(Key::Char(ch)));
    }
    requests
}

fn state_on(text: &str) -> State {
    let mut state = State::default();
    state.buffer_read("a.txt".to_string(), Rope::from_str(text));
    state
}

fn text(state: &State) -> String {
    state.cur_buffer().text.to_string()
}

fn paths(requests: &[Request]) -> Vec<String> {
    requests
        .iter()
        .map(|request| match request {
            Request::Read(path) => format!("read {}", path),
            Request::Write(path) => format!("write {}", path),
            Request::Find(query) => format!("find {}", query),
        })
        .collect()
}

#[test]
fn with_no_buffer_only_command_and_find_are_reached() {
    let mut state = State::default();
    assert!(keys(&mut state, "dix").is_empty());
    assert_eq!(state.mode_name(), "normal");
    assert!(state.cur_buffer_opt().is_none());
    keys(&mut state, ":");
    assert_eq!(state.mode_name(), "command");
    state.handle_key(Key::Esc);
    assert_eq!(state.mode_name(), "normal");
    let requests = state.handle_key(Key::Ctrl('p'));
    assert_eq!(paths(&requests), vec!["find "]);
    assert_eq!(state.mode_name(), "find");
}

#[test]
fn typing_in_insert_mode() {
    let mut state = state_on("");
    keys(&mut state, "ihello");
    assert_eq!(state.mode_name(), "insert");
    state.handle_key(Key::Backspace);
    state.handle_key(Key::Char('\n'));
    state.handle_key(Key::Char('\u{7}'));
    keys(&mut state, "x");
    assert_eq!(text(&state), "hell\nx");
    state.handle_key(Key::Esc);
    assert_eq!(state.mode_name(), "normal");
}

#[test]
fn counts_repeat_a_command() {
    let mut state = state_on("0123456789abcdef");
    keys(&mut state, "12l");
    assert_eq!(state.cur_buffer().selection.selections[0].cursor.0, 12);
    assert_eq!(state.get_mode().get_num_prefix(), None);
    keys(&mut state, "3");
    assert_eq!(state.get_mode().get_num_prefix(), Some(3));
    keys(&mut state, "h");
    assert_eq!(state.cur_buffer().selection.selections[0].cursor.0, 9);
    keys(&mut state, "99999999999999999999999999");
    assert_eq!(state.get_mode().get_num_prefix(), Some(usize::MAX));
}

#[test]
fn one_undo_takes_back_one_action() {
    let mut state = state_on("one two three");
    keys(&mut state, "wd");
    assert_eq!(text(&state), "two three");
    keys(&mut state, "wd");
    assert_eq!(text(&state), "three");
    keys(&mut state, "u");
    assert_eq!(text(&state), "two three");
    keys(&mut state, "u");
    assert_eq!(text(&state), "one two three");
    keys(&mut state, "5u");
    assert_eq!(text(&state), "one two three");
    keys(&mut state, "U");
    assert_eq!(text(&state), "two three");
    keys(&mut state, "9U");
    assert_eq!(text(&state), "three");
}

#[test]
fn yank_and_paste() {
    let mut state = state_on("ab cd");
    keys(&mut state, "wy");
    assert_eq!(state.yanked, vec![Rope::from_str("ab ")]);
    keys(&mut state, "p");
    assert_eq!(text(&state), "ab ab cd");
    keys(&mut state, "%d");
    assert_eq!(text(&state), "");
    assert_eq!(state.yanked, vec![Rope::from_str("ab ab cd")]);
}

#[test]
fn change_and_open_lead_to_insert_mode() {
    let mut state = state_on("ab\ncd");
    keys(&mut state, "xcZ");
    state.handle_key(Key::Esc);
    assert_eq!(text(&state), "Zcd");
    keys(&mut state, "oY");
    state.handle_key(Key::Esc);
    assert_eq!(text(&state), "Zcd\nY");
    keys(&mut state, "kaW");
    state.handle_key(Key::Esc);
    assert_eq!(text(&state), "ZcdW\nY");
}

#[test]
fn goto_jumps() {
    let mut state = state_on("  ab\ncd\nef");
    let cursor = |state: &State| state.cur_buffer().selection.selections[0].cursor.0;
    keys(&mut state, "gl");
    assert_eq!(cursor(&state), 4);
    assert_eq!(state.mode_name(), "normal");
    keys(&mut state, "gh");
    assert_eq!(cursor(&state), 0);
    keys(&mut state, "gi");
    assert_eq!(cursor(&state), 2);
    keys(&mut state, "gj");
    assert_eq!(cursor(&state), 10);
    keys(&mut state, "gk");
    assert_eq!(cursor(&state), 2);
    keys(&mut state, "2g");
    assert_eq!(cursor(&state), 7);
    keys(&mut state, "g");
    assert_eq!(state.mode_name(), "goto");
    state.handle_key(Key::Esc);
    assert_eq!(state.mode_name(), "normal");
    assert_eq!(cursor(&state), 7);
    keys(&mut state, "gz");
    assert_eq!(cursor(&state), 7);
}

#[test]
fn indent_keys() {
    let mut state = state_on("a\nb");
    // a selection that ends at the start of a line does not touch that line
    keys(&mut state, "J2>");
    assert_eq!(text(&state), "        a\nb");
    keys(&mut state, "L>");
    assert_eq!(text(&state), "            a\n    b");
    keys(&mut state, "3<");
    assert_eq!(text(&state), "a\n    b");
    keys(&mut state, "<");
    assert_eq!(text(&state), "a\nb");
}

#[test]
fn surrounding_keys() {
    let mut state = state_on("f(a, (b), c)");
    // a move leaves a selection from where the cursor was: make it a caret
    keys(&mut state, "6l ");
    state.handle_key(Key::Alt('i'));
    state.handle_key(Key::Alt('i'));
    keys(&mut state, "d");
    assert_eq!(text(&state), "f()");
}

#[test]
fn command_lines() {
    let mut state = state_on("abc");
    let requests = keys(&mut state, ":e  b.txt a.txt\tc.txt\n");
    assert_eq!(paths(&requests), vec!["read b.txt", "read c.txt"]);
    assert_eq!(state.mode_name(), "normal");
    state.buffer_read("b.txt".to_string(), Rope::from_str("bbb"));
    assert_eq!(text(&state), "bbb");
    let requests = keys(&mut state, ":e a.txt\n");
    assert!(requests.is_empty());
    assert_eq!(text(&state), "abc");
    keys(&mut state, ":bn\n");
    assert_eq!(text(&state), "bbb");
    keys(&mut state, ":bn\n");
    assert_eq!(text(&state), "abc");
    keys(&mut state, ":bp\n");
    assert_eq!(text(&state), "bbb");
    let requests = keys(&mut state, ":w\n");
    assert_eq!(paths(&requests), vec!["write b.txt"]);
    let requests = keys(&mut state, ":w other.txt\n");
    assert_eq!(paths(&requests), vec!["write other.txt"]);
    state.buffer_written("other.txt".to_string());
    assert_eq!(state.cur_buffer_state().path, Some("other.txt".to_string()));
    keys(&mut state, ":db\n");
    assert_eq!(text(&state), "abc");
    keys(&mut state, ":db\n");
    assert!(state.cur_buffer_opt().is_none());
    assert!(state.cur_buffer_state_opt().is_none());
    keys(&mut state, ":bn\n");
    assert!(state.cur_buffer_opt().is_none());
    assert!(!state.is_finished());
    keys(&mut state, ":q\n");
    assert!(state.is_finished());
}

#[test]
fn the_command_line_is_shown_and_edited() {
    let mut state = State::default();
    keys(&mut state, ":wx");
    assert_eq!(state.cmd_string(), Some(":wx".to_string()));
    state.handle_key(Key::Backspace);
    assert_eq!(state.cmd_string(), Some(":w".to_string()));
    state.handle_key(Key::Left);
    assert_eq!(state.cmd_string(), Some(":w".to_string()));
    keys(&mut state, "\n");
    assert_eq!(state.cmd_string(), Some("No path given".to_string()));
    keys(&mut state, ":frob it\n");
    assert_eq!(state.msg, Some("unrecognized command: frob it".to_string()));
    // the message goes with the next key
    state.handle_key(Key::Esc);
    assert_eq!(state.cmd_string(), None);
    keys(&mut state, ":  \n");
    assert_eq!(state.msg, None);
    state.failed("no such file".to_string());
    assert_eq!(state.cmd_string(), Some("no such file".to_string()));
}

#[test]
fn find_mode_asks_as_the_query_grows() {
    let mut state = State::default();
    let mut requests = state.handle_key(Key::Ctrl('p'));
    requests.extend(keys(&mut state, "ab"));
    requests.extend(state.handle_key(Key::Backspace));
    requests.extend(state.handle_key(Key::Up));
    assert_eq!(paths(&requests), vec!["find ", "find a", "find ab", "find a"]);
    state.matches_found(vec!["x/a.rs".to_string(), "y/a.rs".to_string()]);
    let requests = keys(&mut state, "\n");
    assert_eq!(paths(&requests), vec!["read x/a.rs"]);
    assert_eq!(state.mode_name(), "normal");
    // outside find mode, matches are not taken
    state.matches_found(vec!["z".to_string()]);
    assert!(matches!(state.get_mode(), Mode::Normal(_)));
    // nothing found: the enter key only leads back
    state.handle_key(Key::Ctrl('p'));
    assert!(keys(&mut state, "\n").is_empty());
    assert_eq!(state.mode_name(), "normal");
}

#[test]
fn mode_names() {
    let mut state = state_on("a");
    assert_eq!(state.get_mode().name4(), "norm");
    keys(&mut state, "i");
    assert_eq!(state.get_mode().name4(), "inse");
    state.handle_key(Key::Esc);
    keys(&mut state, "I");
    assert!(matches!(state.get_mode(), Mode::Insert(insert) if insert.extend));
    state.handle_key(Key::Esc);
    keys(&mut state, "g");
    assert_eq!(state.get_mode().name4(), "goto");
}

#[test]
fn words_of_a_line() {
    assert_eq!(split_words("  e  a.txt\tb "), vec!["e", "a.txt", "b"]);
    assert!(split_words(" \n ").is_empty());
    assert_eq!(split_words("q"), vec!["q"]);
}

#[test]
fn keys_in_their_natural_order() {
    let before = |a: Key, b: Key| NaturalyOrderedKey(a).comes_before(NaturalyOrderedKey(b));
    assert!(before(Key::Esc, Key::Char('a')));
    assert!(before(Key::Char('a'), Key::Char('A')));
    assert!(before(Key::Char('A'), Key::Ctrl('a')));
    assert!(before(Key::Ctrl('a'), Key::Alt('a')));
    assert!(before(Key::Alt('A'), Key::Char('b')));
    assert!(before(Key::Char('z'), Key::F(1)));
    assert!(before(Key::F(1), Key::F(2)));
    assert!(before(Key::F(9), Key::Left));
    assert!(before(Key::Backspace, Key::Left));
    assert!(!before(Key::Left, Key::Left));
    assert_eq!(NaturalyOrderedKey(Key::F(3)).ordering_keys(), (9, '3', 0));
    assert_eq!(NaturalyOrderedKey(Key::Char('Q')).ordering_keys(), (1, 'q', 2));
    assert_eq!(NaturalyOrderedKey(Key::Ctrl('q')).ordering_keys(), (1, 'q', 3));
    assert_eq!(NaturalyOrderedKey(Key::Alt('Q')).ordering_keys(), (1, 'q', 6));
    assert_eq!(NaturalyOrderedKey(Key::Esc).ordering_keys(), (0, '\0', 0));
    assert_eq!(NaturalyOrderedKey(Key::Home).ordering_keys(), (10, '?', 0));
    assert_eq!(Key::Char('a').rank(), (12, 97));
}

#[test]
fn bindings_are_listed_in_the_natural_order_of_their_keys() {
    let list = default_key_mappings();
    let keys: Vec<Key> = list.iter().map(|(key, _)| key.0).collect();
    assert_eq!(
        keys,
        vec![
            Key::Char(':'),
            Key::Char('<'),
            Key::Char('>'),
            Key::Char('a'),
            Key::Char('A'),
            Key::Ctrl('d'),
            Key::Ctrl('D'),
            Key::Char('i'),
            Key::Char('I'),
            Key::Alt('i'),
            Key::Alt('I'),
            Key::Char('o'),
            Key::Ctrl('p'),
            Key::Ctrl('u'),
            Key::Ctrl('U'),
        ]
    );
    for (key, action) in list {
        assert_eq!(action.key(), key.0);
        assert_eq!(action_by_key(key.0), Some(action));
    }
    assert_eq!(action_by_key(Key::Char('z')), None);
    assert_eq!(Action::LineAppendExtend.help(), "append to line (extend)");
}

#[test]
fn keys_are_written_as_they_are_typed() {
    assert_eq!(Key::Char('x').label(), "x");
    assert_eq!(Key::Alt('x').label(), "a-x");
    assert_eq!(Key::Ctrl('x').label(), "c-x");
    assert_eq!(Key::F(1).label(), "f1");
    assert_eq!(Key::F(12).label(), "f12");
    assert_eq!(Key::F(205).label(), "f205");
    assert_eq!(Key::Esc.label(), "esc");
    assert_eq!(Key::Home.label(), "?");
}
