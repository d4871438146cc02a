//! Normal mode: keys are commands.
//!
//! Digits typed before a command count how often it is to be done. Every
//! other key is one action: the current buffer is committed to its history
//! before the action and after it, so that one undo takes back one action,
//! whatever it did to however many selections.

use crate::buffer::{all_reversed, Buffer, BufferView};
use crate::history::HistoryView;
use crate::idx::{spec_line_end, word_end_backward, word_end_forward, Idx};
use crate::key::Key;
use crate::mode::{Command, Goto, Insert, Mode, ModeView, Normal};
use crate::position::{column_of, lemma_offset_round_trip, offset_at, trimmed_line};
use crate::state::{buffer_at_mut, requests_of, Request, RequestView, State, StateView};
use crate::text::chars_of;
use ropey::Rope;
use vstd::prelude::*;

verus! {

/// The number of lines that a page key moves by.
pub const PAGE: usize = 25;

/// The number that a digit key stands for.
pub open spec fn digit_value(key: Key) -> Option<usize> {
    match key {
        Key::Char(ch) => if '0' <= ch <= '9' {
            Some((ch as u32 - 48) as usize)
        } else {
            None
        },
        _ => None,
    }
}

/// The count `prefix` with the digit `digit` written behind it; the largest
/// count that can be held where that would be larger still.
pub open spec fn counted(prefix: Option<usize>, digit: usize) -> usize {
    let before = match prefix {
        Some(n) => n as int,
        None => 0,
    };
    if before * 10 + digit <= usize::MAX {
        (before * 10 + digit) as usize
    } else {
        usize::MAX
    }
}

/// The line that `g` behind the count `n` goes to: lines are counted from
/// one.
pub open spec fn counted_line(n: usize) -> int {
    if n == 0 {
        0
    } else {
        n - 1
    }
}

/// The buffer after a command of normal mode, done `times` times where it
/// can be counted; `prefix` is the count as typed, `yanked` what was yanked
/// last. A key that is no command on the buffer leaves it as it is.
pub open spec fn normal_edit(
    b: BufferView,
    key: Key,
    times: usize,
    prefix: Option<usize>,
    yanked: Seq<Seq<char>>,
) -> BufferView {
    match key {
        Key::Char(' ') => b.spec_collapse(),
        Key::Char('g') => match prefix {
            Some(n) => b.cursors_to(
                |c: int|
                    offset_at(b.text, trimmed_line(b.text, counted_line(n)), column_of(b.text, c)),
                false,
            ),
            None => b,
        },
        Key::Left => b.spec_backward(times as int, false),
        Key::Right => b.spec_forward(times as int, false),
        Key::Up => b.spec_vertical(times as int, false, false),
        Key::Down => b.spec_vertical(times as int, true, false),
        Key::Char('h') => b.spec_backward(times as int, false),
        Key::Char('H') => b.spec_backward(times as int, true),
        Key::Char('l') => b.spec_forward(times as int, false),
        Key::Char('L') => b.spec_forward(times as int, true),
        Key::Char('j') => b.spec_vertical(times as int, true, false),
        Key::Char('J') => b.spec_vertical(times as int, true, true),
        Key::Char('k') => b.spec_vertical(times as int, false, false),
        Key::Char('K') => b.spec_vertical(times as int, false, true),
        Key::Char('d') => b.spec_delete(),
        Key::Char('c') => b.spec_delete(),
        Key::Char('o') => b.spec_open(false, false),
        Key::Char('p') => b.spec_paste(yanked, false),
        Key::Char('P') => b.spec_paste(yanked, true),
        Key::Char('w') => b.spec_forward_word(),
        Key::Char('W') => b.cursors_to(|c: int| word_end_forward(b.text, c), true),
        Key::Char('b') => b.spec_backward_word(),
        Key::Char('B') => b.cursors_to(|c: int| word_end_backward(b.text, c), true),
        Key::Char('x') => b.spec_move_line(),
        Key::Char('X') => b.spec_extend_line(),
        Key::Char('%') => b.spec_select_all(),
        Key::Char('\'') => b.reselected(all_reversed(b.selections)),
        Key::Alt(';') => b.reselected(all_reversed(b.selections)),
        Key::Char('>') => if b.tabstop * times <= usize::MAX {
            b.spec_increase_indent(times as int)
        } else {
            b
        },
        Key::Char('<') => if b.tabstop * times <= usize::MAX {
            b.spec_decrease_indent(times as int)
        } else {
            b
        },
        Key::Char('a') => b.cursors_to(|c: int| spec_line_end(b.text, c), true),
        Key::Char('A') => b.cursors_to(|c: int| spec_line_end(b.text, c), true),
        Key::Ctrl('u') => b.spec_vertical(PAGE as int, false, false),
        Key::Ctrl('d') => b.spec_vertical(PAGE as int, true, false),
        Key::Ctrl('U') => b.spec_vertical(PAGE as int, false, true),
        Key::Ctrl('D') => b.spec_vertical(PAGE as int, true, true),
        Key::Alt('i') => b.spec_select_inner_surrounding(),
        Key::Alt('I') => b.spec_expand_inner_surrounding(),
        _ => b,
    }
}

/// What is held as yanked after a command of normal mode: what the
/// selections marked, for a command that yanks or takes out; what was held
/// before, for any other.
pub open spec fn normal_yank(b: BufferView, key: Key, yanked: Seq<Seq<char>>) -> Seq<Seq<char>> {
    match key {
        Key::Char('d') => b.marked(b.spans()),
        Key::Char('c') => b.marked(b.spans()),
        Key::Char('y') => b.marked(b.selections),
        _ => yanked,
    }
}

/// The mode that a command of normal mode leads to, where it leads to
/// another.
pub open spec fn normal_leads_to(key: Key, prefix: Option<usize>) -> Option<ModeView> {
    match key {
        Key::Char('g') => match prefix {
            Some(n) => None,
            None => Some(ModeView::Goto),
        },
        Key::Char('c') => Some(ModeView::Insert { extend: false }),
        Key::Char('o') => Some(ModeView::Insert { extend: false }),
        Key::Char('i') => Some(ModeView::Insert { extend: false }),
        Key::Char('I') => Some(ModeView::Insert { extend: true }),
        Key::Char('a') => Some(ModeView::Insert { extend: false }),
        Key::Char('A') => Some(ModeView::Insert { extend: true }),
        Key::Char(':') => Some(ModeView::Command { cmd: Seq::empty() }),
        _ => None,
    }
}

impl StateView {
    /// The state after a command of normal mode on the current buffer,
    /// which is the one under key `i`: an undo or a redo, or an edit that
    /// may yank and may lead to another mode.
    pub open spec fn normal_command(self, i: usize, prefix: Option<usize>, key: Key) -> StateView {
        let times = match prefix {
            Some(n) => n,
            None => 1,
        };
        let state = self.buffers[i];
        match key {
            Key::Char('u') => self.with_current(state.undo(times as int)),
            Key::Char('U') => self.with_current(state.redo(times as int)),
            Key::Ctrl('p') => self.finding(),
            _ => {
                let done = StateView {
                    yanked: normal_yank(state.buffer, key, self.yanked),
                    ..self.with_current(
                        HistoryView {
                            buffer: normal_edit(state.buffer, key, times, prefix, self.yanked),
                            ..state
                        },
                    )
                };
                match normal_leads_to(key, prefix) {
                    Some(mode) => done.in_mode(mode),
                    None => done,
                }
            },
        }
    }

    /// The state after a key in normal mode. With no buffer open, only the
    /// colon and control-p do anything: they lead to command mode and to
    /// find mode. Else a digit adds to the count, and any other key is a
    /// command: the current buffer is committed, the command is done, the
    /// count is dropped, and the buffer is committed again.
    pub open spec fn normal_handle(self, prefix: Option<usize>, key: Key) -> StateView {
        match self.cur {
            None => match key {
                Key::Char(':') => self.in_mode(ModeView::Command { cmd: Seq::empty() }),
                Key::Ctrl('p') => self.finding(),
                _ => self,
            },
            Some(i) => match digit_value(key) {
                Some(digit) => StateView {
                    mode: ModeView::Normal { num_prefix: Some(counted(prefix, digit)) },
                    ..self
                },
                None => {
                    let done = self.committed().normal_command(i, prefix, key);
                    (if done.mode is Normal {
                        StateView { mode: ModeView::normal(), ..done }
                    } else {
                        done
                    }).committed()
                },
            },
        }
    }

    /// What is asked of the host after a key in normal mode: to seek files
    /// for the empty query when the key leads to find mode.
    pub open spec fn normal_requests(self, key: Key) -> Seq<RequestView> {
        if key == Key::Ctrl('p') {
            seq![RequestView::Find(Seq::empty())]
        } else {
            Seq::empty()
        }
    }
}

/// Does to `buffer` what `key` asks for in normal mode, and hands out what
/// the command yanked, where it yanked.
pub fn normal_key(
    buffer: &mut Buffer,
    key: Key,
    times: usize,
    prefix: Option<usize>,
    yanked: &Vec<Rope>,
) -> (taken: Option<Vec<Rope>>)
    requires
        old(buffer).wf(),
    ensures
        final(buffer)@ == normal_edit(
            old(buffer)@,
            key,
            times,
            prefix,
            crate::buffer::edit::texts_of(yanked@),
        ),
        final(buffer).wf(),
        match taken {
            Some(texts) => crate::buffer::edit::texts_of(texts@) == normal_yank(
                old(buffer)@,
                key,
                crate::buffer::edit::texts_of(yanked@),
            ),
            None => normal_yank(old(buffer)@, key, crate::buffer::edit::texts_of(yanked@))
                == crate::buffer::edit::texts_of(yanked@),
        },
{
    let ghost t = buffer@.text;
    match key {
        Key::Char(' ') => {
            buffer.collapse();
        },
        Key::Char('g') => {
            match prefix {
                Some(n) => {
                    let line = n.saturating_sub(1);
                    let to = |idx: Idx, text: &Rope| -> (r: Idx)
                        requires
                            idx.within(chars_of(*text)),
                        ensures
                            r.0 == offset_at(
                                chars_of(*text),
                                trimmed_line(chars_of(*text), counted_line(n)),
                                column_of(chars_of(*text), idx.0 as int),
                            ),
                            r.within(chars_of(*text)),
                        {
                            proof {
                                lemma_offset_round_trip(chars_of(*text), idx.0 as int);
                            }
                            idx.to_position(text).set_line(line, text).to_idx(text)
                        };
                    buffer.cursors_to(
                        to,
                        false,
                        Ghost(
                            |c: int|
                                offset_at(t, trimmed_line(t, counted_line(n)), column_of(t, c)),
                        ),
                    );
                },
                None => {},
            }
        },
        Key::Left => {
            buffer.move_cursor_backward(times);
        },
        Key::Right => {
            buffer.move_cursor_forward(times);
        },
        Key::Up => {
            buffer.move_cursor_up(times);
        },
        Key::Down => {
            buffer.move_cursor_down(times);
        },
        Key::Char('h') => {
            buffer.move_cursor_backward(times);
        },
        Key::Char('H') => {
            buffer.extend_cursor_backward(times);
        },
        Key::Char('l') => {
            buffer.move_cursor_forward(times);
        },
        Key::Char('L') => {
            buffer.extend_cursor_forward(times);
        },
        Key::Char('j') => {
            buffer.move_cursor_down(times);
        },
        Key::Char('J') => {
            buffer.extend_cursor_down(times);
        },
        Key::Char('k') => {
            buffer.move_cursor_up(times);
        },
        Key::Char('K') => {
            buffer.extend_cursor_up(times);
        },
        Key::Char('d') => {
            return Some(buffer.delete());
        },
        Key::Char('c') => {
            return Some(buffer.delete());
        },
        Key::Char('o') => {
            buffer.open();
        },
        Key::Char('y') => {
            return Some(buffer.yank());
        },
        Key::Char('p') => {
            buffer.paste(yanked.as_slice());
        },
        Key::Char('P') => {
            buffer.paste_extend(yanked.as_slice());
        },
        Key::Char('w') => {
            buffer.move_cursor_forward_word();
        },
        Key::Char('W') => {
            let word = |idx: Idx, text: &Rope| -> (r: Idx)
                requires
                    idx.within(chars_of(*text)),
                ensures
                    r.0 == word_end_forward(chars_of(*text), idx.0 as int),
                    r.within(chars_of(*text)),
                { idx.forward_word(text).1 };
            buffer.cursors_to(word, true, Ghost(|c: int| word_end_forward(t, c)));
        },
        Key::Char('b') => {
            buffer.move_cursor_backward_word();
        },
        Key::Char('B') => {
            let word = |idx: Idx, text: &Rope| -> (r: Idx)
                requires
                    idx.within(chars_of(*text)),
                ensures
                    r.0 == word_end_backward(chars_of(*text), idx.0 as int),
                    r.within(chars_of(*text)),
                { idx.backward_word(text).1 };
            buffer.cursors_to(word, true, Ghost(|c: int| word_end_backward(t, c)));
        },
        Key::Char('x') => {
            buffer.move_line();
        },
        Key::Char('X') => {
            buffer.extend_line();
        },
        Key::Char('%') => {
            buffer.select_all();
        },
        Key::Char('\'') => {
            buffer.reverse_selections();
        },
        Key::Alt(';') => {
            buffer.reverse_selections();
        },
        Key::Char('>') => {
            if buffer.tabstop.checked_mul(times).is_some() {
                buffer.increase_indent(times);
            }
        },
        Key::Char('<') => {
            if buffer.tabstop.checked_mul(times).is_some() {
                buffer.decrease_indent(times);
            }
        },
        Key::Char('a') => {
            let end = |idx: Idx, text: &Rope| -> (r: Idx)
                requires
                    idx.within(chars_of(*text)),
                ensures
                    r.0 == spec_line_end(chars_of(*text), idx.0 as int),
                    r.within(chars_of(*text)),
                { idx.forward_to_line_end(text) };
            buffer.cursors_to(end, true, Ghost(|c: int| spec_line_end(t, c)));
        },
        Key::Char('A') => {
            let end = |idx: Idx, text: &Rope| -> (r: Idx)
                requires
                    idx.within(chars_of(*text)),
                ensures
                    r.0 == spec_line_end(chars_of(*text), idx.0 as int),
                    r.within(chars_of(*text)),
                { idx.forward_to_line_end(text) };
            buffer.cursors_to(end, true, Ghost(|c: int| spec_line_end(t, c)));
        },
        Key::Ctrl('u') => {
            buffer.move_cursor_up(PAGE);
        },
        Key::Ctrl('d') => {
            buffer.move_cursor_down(PAGE);
        },
        Key::Ctrl('U') => {
            buffer.extend_cursor_up(PAGE);
        },
        Key::Ctrl('D') => {
            buffer.extend_cursor_down(PAGE);
        },
        Key::Alt('i') => {
            buffer.select_inner_surrounding();
        },
        Key::Alt('I') => {
            buffer.expand_inner_surrounding();
        },
        _ => {},
    }
    None
}

/// The mode that a command of normal mode leads to, where it leads to
/// another.
fn leads_to(key: Key, prefix: Option<usize>) -> (r: Option<Mode>)
    ensures
        match r {
            Some(mode) => normal_leads_to(key, prefix) == Some(mode@),
            None => normal_leads_to(key, prefix) is None,
        },
{
    match key {
        Key::Char('g') => match prefix {
            Some(_) => None,
            None => Some(Mode::Goto(Goto)),
        },
        Key::Char('c') => Some(Mode::Insert(Insert::new_normal())),
        Key::Char('o') => Some(Mode::Insert(Insert::new_normal())),
        Key::Char('i') => Some(Mode::Insert(Insert::new_normal())),
        Key::Char('I') => Some(Mode::Insert(Insert::new_extend())),
        Key::Char('a') => Some(Mode::Insert(Insert::new_normal())),
        Key::Char('A') => Some(Mode::Insert(Insert::new_extend())),
        Key::Char(':') => {
            let command = Command::new();
            assert(command.cmd@ =~= Seq::<char>::empty());
            Some(Mode::Command(command))
        },
        _ => None,
    }
}

/// The number that a digit key stands for.
fn digit_of(key: Key) -> (r: Option<usize>)
    ensures
        r == digit_value(key),
{
    match key {
        Key::Char(ch) => if '0' <= ch && ch <= '9' {
            Some((ch as u32 - 48) as usize)
        } else {
            None
        },
        _ => None,
    }
}

impl State {
    /// Does a command of normal mode on the current buffer.
    fn normal_command(&mut self, i: usize, prefix: Option<usize>, key: Key) -> (requests: Vec<
        Request,
    >)
        requires
            old(self).wf(),
            old(self)@.cur == Some(i),
        ensures
            final(self)@ == old(self)@.normal_command(i, prefix, key),
            requests_of(requests@) == old(self)@.normal_requests(key),
            final(self).wf(),
    {
        let mut requests: Vec<Request> = Vec::new();
        assert(requests_of(requests@) =~= Seq::<RequestView>::empty());
        let times = match prefix {
            Some(n) => n,
            None => 1,
        };
        assert(self@.buffers.contains_key(i));
        assert(self@.buffers[i].wf());
        match key {
            Key::Char('u') => {
                let state = buffer_at_mut(&mut self.buffers, i);
                state.undo(times);
                assert(self@.buffers =~= old(self)@.normal_command(i, prefix, key).buffers);
            },
            Key::Char('U') => {
                let state = buffer_at_mut(&mut self.buffers, i);
                state.redo(times);
                assert(self@.buffers =~= old(self)@.normal_command(i, prefix, key).buffers);
            },
            Key::Ctrl('p') => {
                let request = self.start_finding();
                requests.push(request);
                assert(requests_of(requests@) =~= seq![request@]);
            },
            _ => {
                let state = buffer_at_mut(&mut self.buffers, i);
                let taken = normal_key(&mut state.buffer, key, times, prefix, &self.yanked);
                match taken {
                    Some(texts) => {
                        self.yanked = texts;
                    },
                    None => {},
                }
                assert(self@.buffers =~= old(self)@.with_current(
                    HistoryView {
                        buffer: normal_edit(
                            old(self)@.buffers[i].buffer,
                            key,
                            times,
                            prefix,
                            old(self)@.yanked,
                        ),
                        ..old(self)@.buffers[i]
                    },
                ).buffers);
                match leads_to(key, prefix) {
                    Some(mode) => {
                        self.set_mode(mode);
                    },
                    None => {},
                }
            },
        }
        requests
    }

    /// Handles a key in normal mode.
    pub(crate) fn handle_normal(&mut self, prefix: Option<usize>, key: Key) -> (requests: Vec<
        Request,
    >)
        requires
            old(self).wf(),
        ensures
            final(self)@ == old(self)@.normal_handle(prefix, key),
            requests_of(requests@) == old(self)@.normal_requests(key),
            final(self).wf(),
    {
        match self.cur_buffer_i {
            None => {
                let mut requests: Vec<Request> = Vec::new();
                assert(requests_of(requests@) =~= Seq::<RequestView>::empty());
                match key {
                    Key::Char(':') => {
                        let command = Command::new();
                        assert(command.cmd@ =~= Seq::<char>::empty());
                        self.set_mode(Mode::Command(command));
                    },
                    Key::Ctrl('p') => {
                        let request = self.start_finding();
                        requests.push(request);
                        assert(requests_of(requests@) =~= seq![request@]);
                    },
                    _ => {},
                }
                requests
            },
            Some(i) => {
                match digit_of(key) {
                    Some(digit) => {
                        let before = match prefix {
                            Some(n) => n,
                            None => 0,
                        };
                        let count = match before.checked_mul(10) {
                            Some(tens) => tens.saturating_add(digit),
                            None => usize::MAX,
                        };
                        self.mode = Mode::Normal(Normal { num_prefix: Some(count) });
                        let requests: Vec<Request> = Vec::new();
                        assert(requests_of(requests@) =~= Seq::<RequestView>::empty());
                        requests
                    },
                    None => {
                        self.commit_current();
                        let requests = self.normal_command(i, prefix, key);
                        match &self.mode {
                            Mode::Normal(_) => {
                                self.mode = Mode::normal();
                            },
                            _ => {},
                        }
                        self.commit_current();
                        requests
                    },
                }
            },
        }
    }
}

} // verus!
