//! Insert mode: keys are text to put in at the cursors.

use crate::buffer::{Buffer, BufferView};
use crate::history::HistoryView;
use crate::key::Key;
use crate::mode::{Mode, ModeView};
use crate::state::{buffer_at_mut, State, StateView};
use crate::util::chars::control;
use vstd::prelude::*;

verus! {

/// The buffer after a key of insert mode: the enter key opens a line, the
/// tab key reaches to the next tab stop, backspace takes out what stands
/// before the cursor, the arrows move, and a character that is no control
/// character is typed. Any other key leaves the buffer as it is.
pub open spec fn insert_edit(b: BufferView, extend: bool, key: Key) -> BufferView {
    match key {
        Key::Char('\n') => b.spec_open(true, extend),
        Key::Char('\t') => b.spec_insert_tab(extend),
        Key::Backspace => b.spec_backspace(extend),
        Key::Left => b.spec_backward(1, extend),
        Key::Right => b.spec_forward(1, extend),
        Key::Up => b.spec_vertical(1, false, extend),
        Key::Down => b.spec_vertical(1, true, extend),
        Key::Char(ch) => if control(ch) {
            b
        } else {
            b.spec_insert(seq![ch], extend)
        },
        _ => b,
    }
}

impl StateView {
    /// The state after a key in insert mode: escape leads back to normal
    /// mode, any other key acts on the current buffer.
    pub open spec fn insert_handle(self, extend: bool, key: Key) -> StateView {
        if key == Key::Esc {
            self.in_mode(ModeView::normal())
        } else {
            match self.cur {
                Some(i) => self.with_current(
                    HistoryView {
                        buffer: insert_edit(self.buffers[i].buffer, extend, key),
                        ..self.buffers[i]
                    },
                ),
                None => self,
            }
        }
    }
}

/// Does to `buffer` what `key` asks for in insert mode.
pub fn insert_key(buffer: &mut Buffer, extend: bool, key: Key)
    requires
        old(buffer).wf(),
    ensures
        final(buffer)@ == insert_edit(old(buffer)@, extend, key),
        final(buffer).wf(),
{
    match key {
        Key::Char('\n') => {
            buffer.insert_enter(extend);
        },
        Key::Char('\t') => {
            buffer.insert_tab(extend);
        },
        Key::Backspace => {
            buffer.backspace(extend);
        },
        Key::Left => {
            if extend {
                buffer.extend_cursor_backward(1);
            } else {
                buffer.move_cursor_backward(1);
            }
        },
        Key::Right => {
            if extend {
                buffer.extend_cursor_forward(1);
            } else {
                buffer.move_cursor_forward(1);
            }
        },
        Key::Up => {
            if extend {
                buffer.extend_cursor_up(1);
            } else {
                buffer.move_cursor_up(1);
            }
        },
        Key::Down => {
            if extend {
                buffer.extend_cursor_down(1);
            } else {
                buffer.move_cursor_down(1);
            }
        },
        Key::Char(ch) => {
            if !ch.is_control() {
                buffer.insert_char(ch, extend);
            }
        },
        _ => {},
    }
}

impl State {
    /// Handles a key in insert mode.
    pub(crate) fn handle_insert(&mut self, extend: bool, key: Key)
        requires
            old(self).wf(),
        ensures
            final(self)@ == old(self)@.insert_handle(extend, key),
            final(self).wf(),
    {
        match key {
            Key::Esc => {
                self.set_mode(Mode::normal());
            },
            _ => {
                match self.cur_buffer_i {
                    Some(i) => {
                        assert(self@.buffers.contains_key(i));
                        assert(self@.buffers[i].wf());
                        let state = buffer_at_mut(&mut self.buffers, i);
                        insert_key(&mut state.buffer, extend, key);
                        assert(self@.buffers =~= old(self)@.insert_handle(extend, key).buffers);
                    },
                    None => {},
                }
            },
        }
    }
}

} // verus!
