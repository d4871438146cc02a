use brz::buffer::Buffer;
use brz::idx::Idx;
use brz::key::Key;
use brz::selection::Selection;
use brz::state::{Request, State};
use ropey::Rope;

/// A small generator of numbers that look random and are the same on every
/// run.
struct Numbers(u64);

impl Numbers {
    fn next(&mut self, below: usize) -> usize {
        self.0 = self.0.wrapping_mul(6364136223846793005).wrapping_add(1442695040888963407);
        ((self.0 >> 33) as usize) % below
    }
}

fn holds_together(buffer: &Buffer) {
    let len = buffer.text.len_chars();
    assert!(!buffer.selection.selections.is_empty());
    assert!(buffer.selection.primary < buffer.selection.selections.len());
    for sel in &buffer.selection.selections {
        assert!(sel.anchor.0 <= len && sel.cursor.0 <= len);
    }
}

#[test]
fn any_walk_through_the_operations_keeps_the_selections_within_the_text() {
    let mut numbers = Numbers(7);
    let texts = ["", "a", "f(a, (b), c)\n  x\ty\r\n\n", "  one\n    two [3 \"4\"]\n", "\n\n\n"];
    for round in 0..60 {
        let text = texts[round % texts.len()];
        let mut buffer = Buffer::from_text(Rope::from_str(text));
        let len = buffer.text.len_chars();
        let count = 1 + numbers.next(4);
        buffer.selection.selections = (0..count)
            .map(|_| Selection {
                anchor: Idx(numbers.next(len + 1)),
                cursor: Idx(numbers.next(len + 1)),
                was_forward: numbers.next(2) == 0,
            })
            .collect();
        buffer.expand_tabs = numbers.next(3) != 0;
        let mut yanked = vec![Rope::from_str("p"), Rope::from_str("")];
        for _ in 0..40 {
            let extend = numbers.next(2) == 0;
            let n = numbers.next(4);
            match numbers.next(30) {
                0 => buffer.insert("xy", extend),
                1 => buffer.insert_char('\n', extend),
                2 => buffer.insert_tab(extend),
                3 => buffer.insert_enter(extend),
                4 => buffer.open(),
                5 => yanked = buffer.delete(),
                6 => yanked = buffer.yank(),
                7 => buffer.paste(&yanked),
                8 => buffer.paste_extend(&yanked),
                9 => buffer.backspace(extend),
                10 => buffer.backspace_one(),
                11 => buffer.move_cursor_backward(n),
                12 => buffer.move_cursor_forward(n),
                13 => buffer.move_cursor_up(n),
                14 => buffer.move_cursor_down(n),
                15 => buffer.extend_cursor_up(n),
                16 => buffer.extend_cursor_down(n),
                17 => buffer.extend_cursor_backward(n),
                18 => buffer.extend_cursor_forward(n),
                19 => buffer.move_cursor_forward_word(),
                20 => buffer.move_cursor_backward_word(),
                21 => buffer.select_inner_surrounding(),
                22 => buffer.expand_inner_surrounding(),
                23 => buffer.move_line(),
                24 => buffer.extend_line(),
                25 => buffer.increase_indent(n),
                26 => buffer.decrease_indent(n),
                27 => buffer.reverse_selections(),
                28 => {
                    if numbers.next(4) == 0 {
                        buffer.select_all()
                    }
                }
                _ => {
                    if numbers.next(4) == 0 {
                        buffer.collapse()
                    }
                }
            }
            holds_together(&buffer);
            for i in 0..=buffer.text.len_chars() {
                let _ = buffer.idx_selection_type(Idx(i));
            }
            let _ = buffer.selection.to_lines(&buffer.text);
            let _ = buffer.cursor_coord();
        }
    }
}

#[test]
fn any_walk_through_the_keys_is_safe() {
    let mut numbers = Numbers(11);
    let keys = [
        Key::Esc,
        Key::Backspace,
        Key::Left,
        Key::Right,
        Key::Up,
        Key::Down,
        Key::Home,
        Key::F(3),
        Key::Ctrl('p'),
        Key::Ctrl('u'),
        Key::Ctrl('d'),
        Key::Ctrl('U'),
        Key::Ctrl('D'),
        Key::Alt('i'),
        Key::Alt('I'),
        Key::Alt(';'),
        Key::Char('\n'),
        Key::Char('\t'),
    ];
    let typed: Vec<char> = " :% '<>3 0 aAbBcdgGhHiIjJkKlLopPuUwWxXy(e)\"q".chars().collect();
    for round in 0..20 {
        let mut state = State::default();
        if round % 4 != 0 {
            state.buffer_read("a".to_string(), Rope::from_str("fn f(a: [u8; 2]) {\n\tlet x = \"y\";\n}\n"));
        }
        if round % 3 == 0 {
            state.buffer_read("b".to_string(), Rope::from_str(""));
        }
        for _ in 0..400 {
            let key = if numbers.next(3) == 0 {
                keys[numbers.next(keys.len())]
            } else {
                Key::Char(typed[numbers.next(typed.len())])
            };
            let requests = state.handle_key(key);
            for request in requests {
                match request {
                    Request::Read(path) => {
                        if numbers.next(2) == 0 {
                            state.buffer_read(path, Rope::from_str("read\n"))
                        } else {
                            state.failed("unreadable".to_string())
                        }
                    }
                    Request::Write(path) => state.buffer_written(path),
                    Request::Find(query) => state.matches_found(vec![query, "b".to_string()]),
                }
            }
            state.quit = false;
            if let Some(buffer) = state.cur_buffer_opt() {
                holds_together(buffer);
            }
            if let Some(history) = state.cur_buffer_state_opt() {
                if let Some(i) = history.buffer_history_undo_i {
                    assert!(i < history.buffer_history.len());
                }
            }
        }
    }
}
