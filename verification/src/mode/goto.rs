//! Goto mode: the key that follows says where the cursors jump.

use crate::buffer::{Buffer, BufferView};
use crate::history::HistoryView;
use crate::idx::{spec_indent_end, Idx};
use crate::key::Key;
use crate::mode::{Mode, ModeView};
use crate::position::{column_of, lemma_offset_round_trip, line_len, line_of, offset_at, Position};
use crate::state::{buffer_at_mut, State, StateView};
use crate::text::{chars_of, line_count};
use ropey::Rope;
use vstd::prelude::*;

verus! {

/// The column of the last character of line `l`: its line break, as a rule.
pub open spec fn last_column(t: Seq<char>, l: int) -> int {
    if line_len(t, l) <= 0 {
        0
    } else {
        line_len(t, l) - 1
    }
}

/// Where a cursor at offset `c` jumps for `key`: `l` to the end of its
/// line, `h` to the start of its line, `k` to the first line and `j` to the
/// last line at its column, `i` to the end of its line's indentation.
pub open spec fn jump_target(t: Seq<char>, c: int, key: Key) -> int {
    match key {
        Key::Char('l') => offset_at(t, line_of(t, c), last_column(t, line_of(t, c))),
        Key::Char('h') => offset_at(t, line_of(t, c), 0),
        Key::Char('k') => offset_at(t, 0, column_of(t, c)),
        Key::Char('j') => offset_at(t, line_count(t) - 1, column_of(t, c)),
        Key::Char('i') => spec_indent_end(t, c),
        _ => c,
    }
}

/// The key names a place to jump to.
pub open spec fn is_jump(key: Key) -> bool {
    key == Key::Char('l') || key == Key::Char('h') || key == Key::Char('k') || key == Key::Char(
        'j',
    ) || key == Key::Char('i')
}

/// The buffer after the key that follows `g`: every cursor has jumped
/// where the key says; any other key leaves the buffer as it is.
pub open spec fn goto_edit(b: BufferView, key: Key) -> BufferView {
    if is_jump(key) {
        b.cursors_to(|c: int| jump_target(b.text, c, key), false)
    } else {
        b
    }
}

impl StateView {
    /// The state after a key in goto mode: back in normal mode, the cursors
    /// of the current buffer where the key says.
    pub open spec fn goto_handle(self, key: Key) -> StateView {
        let back = self.in_mode(ModeView::normal());
        match back.cur {
            Some(i) => back.with_current(
                HistoryView { buffer: goto_edit(back.buffers[i].buffer, key), ..back.buffers[i] },
            ),
            None => back,
        }
    }
}

/// Where a cursor at `idx` jumps for `key`.
fn jump(idx: Idx, key: Key, text: &Rope) -> (r: Idx)
    requires
        idx.within(chars_of(*text)),
    ensures
        r.0 == jump_target(chars_of(*text), idx.0 as int, key),
        r.within(chars_of(*text)),
{
    proof {
        lemma_offset_round_trip(chars_of(*text), idx.0 as int);
    }
    let coord = idx.to_position(text);
    match key {
        Key::Char('l') => {
            let len = Position::line_length(coord.line, text);
            coord.set_column(len.saturating_sub(1), text).to_idx(text)
        },
        Key::Char('h') => coord.set_column(0, text).to_idx(text),
        Key::Char('k') => coord.set_line(0, text).to_idx(text),
        Key::Char('j') => coord.set_line(text.len_lines().saturating_sub(1), text).to_idx(text),
        Key::Char('i') => idx.before_first_non_whitespace(text),
        _ => idx,
    }
}

/// Does to `buffer` what `key` asks for in goto mode.
pub fn goto_key(buffer: &mut Buffer, key: Key)
    requires
        old(buffer).wf(),
    ensures
        final(buffer)@ == goto_edit(old(buffer)@, key),
        final(buffer).wf(),
{
    let jumps = match key {
        Key::Char(ch) => ch == 'l' || ch == 'h' || ch == 'k' || ch == 'j' || ch == 'i',
        _ => false,
    };
    if jumps {
        let ghost t = buffer@.text;
        let to = |idx: Idx, text: &Rope| -> (r: Idx)
            requires
                idx.within(chars_of(*text)),
            ensures
                r.0 == jump_target(chars_of(*text), idx.0 as int, key),
                r.within(chars_of(*text)),
            { jump(idx, key, text) };
        buffer.cursors_to(to, false, Ghost(|c: int| jump_target(t, c, key)));
    }
}

impl State {
    /// Handles a key in goto mode.
    pub(crate) fn handle_goto(&mut self, key: Key)
        requires
            old(self).wf(),
        ensures
            final(self)@ == old(self)@.goto_handle(key),
            final(self).wf(),
    {
        self.set_mode(Mode::normal());
        let ghost back = self@;
        match self.cur_buffer_i {
            Some(i) => {
                assert(self@.buffers.contains_key(i));
                assert(self@.buffers[i].wf());
                let state = buffer_at_mut(&mut self.buffers, i);
                goto_key(&mut state.buffer, key);
                assert(self@.buffers =~= back.with_current(
                    HistoryView { buffer: goto_edit(back.buffers[i].buffer, key), ..back.buffers[i] },
                ).buffers);
            },
            None => {},
        }
    }
}

} // verus!
