//! The editor state: the open buffers, the one being edited, the mode that
//! keys are handled in, and what was yanked last.

use crate::buffer::edit::texts_of;
use crate::buffer::{Buffer, BufferView};
use crate::history::{BufferState, HistoryView};
use crate::key::Key;
use crate::mode::{Mode, ModeView};
use crate::text::chars_of;
use ropey::Rope;
use slab::Slab;
use vstd::prelude::*;

verus! {

/// `slab::Slab`, taken as it is: all that contracts know of the slab of
/// buffers is what [`entries_of`] says it holds.
#[verifier::external_type_specification]
#[verifier::external_body]
#[verifier::reject_recursive_types(T)]
pub struct ExSlab<T>(slab::Slab<T>);

/// The buffers that a slab holds, each under its key.
pub uninterp spec fn entries_of(slab: Slab<BufferState>) -> Map<usize, BufferState>;

/// `Slab::new`: a slab that holds nothing.
#[verifier::external_body]
pub(crate) fn no_buffers() -> (held: Slab<BufferState>)
    ensures
        forall|key: usize| !entries_of(held).contains_key(key),
{
    Slab::new()
}

/// `Slab::contains`: whether a buffer is held under `key`.
#[verifier::external_body]
pub(crate) fn holds(slab: &Slab<BufferState>, key: usize) -> (r: bool)
    ensures
        r == entries_of(*slab).contains_key(key),
{
    slab.contains(key)
}

/// `Slab::insert`: holds `state` under a key that was free, and hands out
/// the key. Which of the free keys it is, is the slab's own affair.
#[verifier::external_body]
pub(crate) fn add_buffer(slab: &mut Slab<BufferState>, state: BufferState) -> (key: usize)
    ensures
        !entries_of(*old(slab)).contains_key(key),
        entries_of(*final(slab)) == entries_of(*old(slab)).insert(key, state),
{
    slab.insert(state)
}

/// `Slab::remove`: takes out the buffer held under `key`.
#[verifier::external_body]
pub(crate) fn take_buffer(slab: &mut Slab<BufferState>, key: usize) -> (state: BufferState)
    requires
        entries_of(*old(slab)).contains_key(key),
    ensures
        state == entries_of(*old(slab))[key],
        entries_of(*final(slab)) == entries_of(*old(slab)).remove(key),
{
    slab.remove(key)
}

/// `Slab::is_empty`: whether no buffer is held.
#[verifier::external_body]
pub(crate) fn holds_none(slab: &Slab<BufferState>) -> (r: bool)
    ensures
        r == (forall|key: usize| !entries_of(*slab).contains_key(key)),
{
    slab.is_empty()
}

/// `Slab::capacity`: some number above every key in use. How far above is
/// the allocator's affair.
#[verifier::external_body]
pub(crate) fn key_bound(slab: &Slab<BufferState>) -> (bound: usize)
    ensures
        forall|key: usize| entries_of(*slab).contains_key(key) ==> key < bound,
{
    slab.capacity()
}

/// Indexing a slab: the buffer held under `key`.
#[verifier::external_body]
pub(crate) fn buffer_at(slab: &Slab<BufferState>, key: usize) -> (state: &BufferState)
    requires
        entries_of(*slab).contains_key(key),
    ensures
        *state == entries_of(*slab)[key],
{
    &slab[key]
}

/// Indexing a slab for change: the buffer held under `key`, to be changed in
/// place. The other buffers stay as they are.
#[verifier::external_body]
pub(crate) fn buffer_at_mut(slab: &mut Slab<BufferState>, key: usize) -> (state: &mut BufferState)
    requires
        entries_of(*old(slab)).contains_key(key),
    ensures
        *state == entries_of(*old(slab))[key],
        entries_of(*final(slab)) == entries_of(*old(slab)).insert(key, *final(state)),
{
    &mut slab[key]
}

/// Something for the host of the editor to do before the next key: the
/// editor itself reads no file, writes none and seeks none. The host answers
/// a request by the call named with it.
#[derive(Debug, Clone)]
pub enum Request {
    /// Read the file at the path, and answer with [`State::buffer_read`] or
    /// [`State::failed`].
    Read(String),
    /// Write the text of the current buffer to the path, and answer with
    /// [`State::buffer_written`] or [`State::failed`].
    Write(String),
    /// Seek the files that the query stands for, and answer with
    /// [`State::matches_found`].
    Find(String),
}

/// What a request is taken to be in contracts.
pub ghost enum RequestView {
    Read(Seq<char>),
    Write(Seq<char>),
    Find(Seq<char>),
}

impl View for Request {
    type V = RequestView;

    open spec fn view(&self) -> RequestView {
        match *self {
            Request::Read(path) => RequestView::Read(path@),
            Request::Write(path) => RequestView::Write(path@),
            Request::Find(query) => RequestView::Find(query@),
        }
    }
}

/// What the requests `v` are taken to be.
pub open spec fn requests_of(v: Seq<Request>) -> Seq<RequestView> {
    Seq::new(v.len(), |i: int| v[i]@)
}

/// The text of `s`, where there is one.
pub open spec fn text_of(s: Option<String>) -> Option<Seq<char>> {
    match s {
        Some(s) => Some(s@),
        None => None,
    }
}

/// The editor state.
pub struct State {
    /// Whether the editor is to end.
    pub quit: bool,
    /// The mode that keys are handled in.
    pub mode: Mode,
    /// The texts yanked or deleted last, one for each selection.
    pub yanked: Vec<Rope>,
    pub find_result: Option<String>,
    /// A message for the user, shown until the next key.
    pub msg: Option<String>,
    /// The open buffers.
    pub buffers: Slab<BufferState>,
    /// The key of the buffer being edited, if any is.
    pub cur_buffer_i: Option<usize>,
}

/// What the editor state is taken to be in contracts.
pub ghost struct StateView {
    pub quit: bool,
    pub mode: ModeView,
    pub yanked: Seq<Seq<char>>,
    pub find_result: Option<Seq<char>>,
    pub msg: Option<Seq<char>>,
    pub buffers: Map<usize, HistoryView>,
    pub cur: Option<usize>,
}

/// `key` is the smallest key from `from` on under which `buffers` holds a
/// buffer.
pub open spec fn first_key_from(buffers: Map<usize, HistoryView>, from: int, key: usize) -> bool {
    from <= key && buffers.contains_key(key) && forall|k: usize|
        from <= k < key ==> !buffers.contains_key(k)
}

/// `key` is the largest key below `below` under which `buffers` holds a
/// buffer.
pub open spec fn last_key_below(buffers: Map<usize, HistoryView>, below: int, key: usize) -> bool {
    key < below && buffers.contains_key(key) && forall|k: usize|
        key < k < below ==> !buffers.contains_key(k)
}

/// `key` is the smallest key under which `buffers` holds a buffer kept at
/// `path`.
pub open spec fn first_kept_at(buffers: Map<usize, HistoryView>, path: Seq<char>, key: usize) -> bool {
    buffers.contains_key(key) && buffers[key].path == Some(path) && forall|k: usize|
        k < key && buffers.contains_key(k) ==> buffers[k].path != Some(path)
}

impl StateView {
    /// The current buffer is one of the open buffers, and every open buffer
    /// is well formed.
    pub open spec fn wf(self) -> bool {
        &&& match self.cur {
            Some(i) => self.buffers.contains_key(i),
            None => true,
        }
        &&& forall|k: usize| self.buffers.contains_key(k) ==> (#[trigger] self.buffers[k]).wf()
    }

    /// The state with the current buffer, where there is one, replaced.
    pub open spec fn with_current(self, state: HistoryView) -> StateView {
        match self.cur {
            Some(i) => StateView { buffers: self.buffers.insert(i, state), ..self },
            None => self,
        }
    }

    /// The state after the current buffer, where there is one, is committed
    /// to its history.
    pub open spec fn committed(self) -> StateView {
        match self.cur {
            Some(i) => self.with_current(self.buffers[i].commit()),
            None => self,
        }
    }

    /// The state in mode `mode`, the current buffer committed on the way.
    pub open spec fn in_mode(self, mode: ModeView) -> StateView {
        StateView { mode, ..self.committed() }
    }

    /// The key of the buffer that follows the current one: the next larger
    /// key in use, or the smallest where there is none larger.
    pub open spec fn is_next(self, key: usize) -> bool {
        let from = match self.cur {
            Some(i) => i + 1,
            None => 0,
        };
        first_key_from(self.buffers, from, key) || ((forall|k: usize|
            from <= k ==> !self.buffers.contains_key(k)) && first_key_from(self.buffers, 0, key))
    }

    /// The key of the buffer that precedes the current one: the next
    /// smaller key in use, or the largest where there is none smaller.
    pub open spec fn is_prev(self, key: usize) -> bool {
        let below = match self.cur {
            Some(i) => i as int,
            None => 0,
        };
        last_key_below(self.buffers, below, key) || ((forall|k: usize|
            k < below ==> !self.buffers.contains_key(k)) && last_key_below(
            self.buffers,
            usize::MAX + 1,
            key,
        ))
    }

    /// No buffer is open.
    pub open spec fn none_open(self) -> bool {
        forall|k: usize| !self.buffers.contains_key(k)
    }

    /// The key of the buffer that follows the current one, if any buffer is
    /// open.
    pub open spec fn next_cur(self) -> Option<usize> {
        if self.none_open() {
            None
        } else {
            Some(choose|key: usize| self.is_next(key))
        }
    }

    /// The key of the buffer that precedes the current one, if any buffer is
    /// open.
    pub open spec fn prev_cur(self) -> Option<usize> {
        if self.none_open() {
            None
        } else {
            Some(choose|key: usize| self.is_prev(key))
        }
    }

    /// A buffer kept at `path` is open.
    pub open spec fn kept_at(self, path: Seq<char>) -> bool {
        exists|key: usize| first_kept_at(self.buffers, path, key)
    }

    /// The state after the buffer kept at `path` is made the current one,
    /// where such a buffer is open: of several, the one with the smallest
    /// key.
    pub open spec fn opening(self, path: Seq<char>) -> StateView {
        if self.kept_at(path) {
            StateView { cur: Some(choose|key: usize| first_kept_at(self.buffers, path, key)), ..self }
        } else {
            self
        }
    }

    /// What is asked of the host when the file at `path` is to be opened:
    /// to read it, unless a buffer kept at `path` is open already.
    pub open spec fn opening_requests(self, path: Seq<char>) -> Seq<RequestView> {
        if self.kept_at(path) {
            Seq::empty()
        } else {
            seq![RequestView::Read(path)]
        }
    }

    /// The state after the current buffer is closed, where there is one:
    /// the buffer that followed it is the current one.
    pub open spec fn closing(self) -> StateView {
        match self.cur {
            Some(i) => {
                let left = StateView { buffers: self.buffers.remove(i), ..self };
                StateView { cur: left.next_cur(), ..left }
            },
            None => self,
        }
    }

    /// The state after a key: the message shown is dropped, and the key is
    /// handled in the mode that the state is in.
    pub open spec fn handle_key(self, key: Key) -> StateView {
        let cleared = StateView { msg: None, ..self };
        match self.mode {
            ModeView::Normal { num_prefix } => cleared.normal_handle(num_prefix, key),
            ModeView::Insert { extend } => cleared.insert_handle(extend, key),
            ModeView::Command { cmd } => cleared.command_handle(cmd, key),
            ModeView::Find { match_str, cur_matches } => cleared.find_handle(
                match_str,
                cur_matches,
                key,
            ),
            ModeView::Goto => cleared.goto_handle(key),
        }
    }

    /// What is asked of the host after a key.
    pub open spec fn key_requests(self, key: Key) -> Seq<RequestView> {
        let cleared = StateView { msg: None, ..self };
        match self.mode {
            ModeView::Normal { num_prefix } => cleared.normal_requests(key),
            ModeView::Insert { extend } => Seq::empty(),
            ModeView::Command { cmd } => cleared.command_requests(cmd, key),
            ModeView::Find { match_str, cur_matches } => cleared.find_requests(
                match_str,
                cur_matches,
                key,
            ),
            ModeView::Goto => Seq::empty(),
        }
    }

    /// The path that the current buffer is to be written to: `path` where
    /// one is given, else the path that the buffer is kept at.
    pub open spec fn write_path(self, path: Option<Seq<char>>) -> Option<Seq<char>> {
        match self.cur {
            Some(i) => match path {
                Some(p) => Some(p),
                None => self.buffers[i].path,
            },
            None => None,
        }
    }

    /// The state after a write of the current buffer is asked for: a
    /// message where there is no path to write to.
    pub open spec fn writing(self, path: Option<Seq<char>>) -> StateView {
        match self.write_path(path) {
            Some(p) => self,
            None => StateView { msg: Some("No path given"@), ..self },
        }
    }

    /// What is asked of the host when the current buffer is to be written.
    pub open spec fn writing_requests(self, path: Option<Seq<char>>) -> Seq<RequestView> {
        match self.write_path(path) {
            Some(p) => seq![RequestView::Write(p)],
            None => Seq::empty(),
        }
    }
}

/// Escape leads back to normal mode from whatever mode, and touches no
/// buffer on the way: every open buffer holds the text and the selections
/// that it held.
pub proof fn lemma_escape_keeps_buffers(v: StateView, k: usize)
    requires
        v.wf(),
        v.buffers.contains_key(k),
    ensures
        v.handle_key(Key::Esc).mode is Normal,
        v.handle_key(Key::Esc).buffers.contains_key(k),
        v.handle_key(Key::Esc).buffers[k].buffer == v.buffers[k].buffer,
        v.handle_key(Key::Esc).cur == v.cur,
        v.key_requests(Key::Esc).len() == 0,
{
    let cleared = StateView { msg: None, ..v };
    match v.cur {
        Some(i) => {
            assert(v.buffers[i].wf());
            crate::history::lemma_commit_wf(v.buffers[i]);
            let once = cleared.committed();
            assert(once.buffers[i].wf());
            crate::history::lemma_commit_wf(once.buffers[i]);
        },
        None => {},
    }
}

/// Only one key follows the current one.
pub proof fn lemma_next_unique(v: StateView, a: usize, b: usize)
    requires
        v.is_next(a),
        v.is_next(b),
    ensures
        a == b,
        v.next_cur() == Some(a),
{
    assert(v.buffers.contains_key(a));
    let c = choose|key: usize| v.is_next(key);
    assert(v.is_next(c));
    lemma_next_same(v, a, c);
}

proof fn lemma_next_same(v: StateView, a: usize, b: usize)
    requires
        v.is_next(a),
        v.is_next(b),
    ensures
        a == b,
{
    assert(v.buffers.contains_key(a) && v.buffers.contains_key(b));
}

/// Only one key precedes the current one.
pub proof fn lemma_prev_unique(v: StateView, a: usize, b: usize)
    requires
        v.is_prev(a),
        v.is_prev(b),
    ensures
        a == b,
        v.prev_cur() == Some(a),
{
    assert(v.buffers.contains_key(a));
    let c = choose|key: usize| v.is_prev(key);
    assert(v.is_prev(c));
    lemma_prev_same(v, a, c);
}

proof fn lemma_prev_same(v: StateView, a: usize, b: usize)
    requires
        v.is_prev(a),
        v.is_prev(b),
    ensures
        a == b,
{
    assert(v.buffers.contains_key(a) && v.buffers.contains_key(b));
}

/// Only one key is the smallest under which a buffer is kept at `path`.
pub proof fn lemma_kept_at_unique(v: StateView, path: Seq<char>, a: usize)
    requires
        first_kept_at(v.buffers, path, a),
    ensures
        v.kept_at(path),
        (choose|key: usize| first_kept_at(v.buffers, path, key)) == a,
{
    let c = choose|key: usize| first_kept_at(v.buffers, path, key);
    assert(first_kept_at(v.buffers, path, c));
    if c < a {
        assert(v.buffers.contains_key(c));
    }
    if a < c {
        assert(v.buffers.contains_key(a));
    }
}

impl View for State {
    type V = StateView;

    open spec fn view(&self) -> StateView {
        StateView {
            quit: self.quit,
            mode: self.mode@,
            yanked: texts_of(self.yanked@),
            find_result: text_of(self.find_result),
            msg: text_of(self.msg),
            buffers: Map::new(
                |k: usize| entries_of(self.buffers).contains_key(k),
                |k: usize| entries_of(self.buffers)[k]@,
            ),
            cur: self.cur_buffer_i,
        }
    }
}

impl Default for State {
    /// The state of an editor just started: normal mode, no buffer open.
    fn default() -> (r: State)
        ensures
            !r@.quit,
            r@.mode == ModeView::normal(),
            r@.yanked.len() == 0,
            r@.find_result is None,
            r@.msg is None,
            r@.none_open(),
            r@.cur is None,
            r.wf(),
    {
        State {
            quit: false,
            mode: Mode::normal(),
            yanked: Vec::new(),
            find_result: None,
            msg: None,
            buffers: no_buffers(),
            cur_buffer_i: None,
        }
    }
}

impl State {
    /// The state is well formed: see [`StateView::wf`].
    pub open spec fn wf(&self) -> bool {
        self@.wf()
    }

    /// What to show in the command line: the message, where there is one,
    /// else what the mode shows.
    pub fn cmd_string(&self) -> (r: Option<String>)
        ensures
            text_of(r) == match self@.msg {
                Some(msg) => Some(msg),
                None => self@.mode.cmd_string(),
            },
    {
        match &self.msg {
            Some(msg) => Some(msg.clone()),
            None => self.mode.cmd_string(),
        }
    }

    /// The mode that keys are handled in.
    pub fn get_mode(&self) -> (r: &Mode)
        ensures
            *r == self.mode,
    {
        &self.mode
    }

    /// The name of the mode that keys are handled in.
    pub fn mode_name(&self) -> (r: &'static str)
        ensures
            r@ == self@.mode.name(),
    {
        self.mode.name()
    }

    /// Whether the editor is to end.
    pub fn is_finished(&self) -> (r: bool)
        ensures
            r == self@.quit,
    {
        self.quit
    }

    /// Enters the mode `mode`, having committed the current buffer to its
    /// history.
    pub fn set_mode(&mut self, mode: Mode)
        requires
            old(self).wf(),
        ensures
            final(self)@ == old(self)@.in_mode(mode@),
            final(self).wf(),
    {
        self.commit_current();
        self.mode = mode;
    }

    /// Commits the current buffer, where there is one, to its history.
    pub fn commit_current(&mut self)
        requires
            old(self).wf(),
        ensures
            final(self)@ == old(self)@.committed(),
            final(self).wf(),
    {
        match self.cur_buffer_i {
            Some(i) => {
                assert(self@.buffers.contains_key(i));
                assert(self@.buffers[i].wf());
                let state = buffer_at_mut(&mut self.buffers, i);
                state.maybe_commit_undo_point();
                assert(self@.buffers =~= old(self)@.buffers.insert(i, old(self)@.buffers[i].commit()));
            },
            None => {},
        }
    }

    /// The current buffer, if there is one.
    pub fn cur_buffer_opt(&self) -> (r: Option<&Buffer>)
        requires
            self.wf(),
        ensures
            match r {
                Some(buffer) => self@.cur is Some && buffer@ == self@.buffers[self@.cur->0].buffer,
                None => self@.cur is None,
            },
    {
        match self.cur_buffer_i {
            Some(i) => {
                assert(self@.buffers.contains_key(i));
                Some(&buffer_at(&self.buffers, i).buffer)
            },
            None => None,
        }
    }

    /// The current buffer.
    pub fn cur_buffer(&self) -> (r: &Buffer)
        requires
            self.wf(),
            self@.cur is Some,
        ensures
            r@ == self@.buffers[self@.cur->0].buffer,
    {
        let i = self.cur_buffer_i.unwrap();
        assert(self@.buffers.contains_key(i));
        &buffer_at(&self.buffers, i).buffer
    }

    /// The current buffer with its history, if there is one.
    pub fn cur_buffer_state_opt(&self) -> (r: Option<&BufferState>)
        requires
            self.wf(),
        ensures
            match r {
                Some(state) => self@.cur is Some && state@ == self@.buffers[self@.cur->0],
                None => self@.cur is None,
            },
    {
        match self.cur_buffer_i {
            Some(i) => {
                assert(self@.buffers.contains_key(i));
                Some(buffer_at(&self.buffers, i))
            },
            None => None,
        }
    }

    /// The current buffer with its history.
    pub fn cur_buffer_state(&self) -> (r: &BufferState)
        requires
            self.wf(),
            self@.cur is Some,
        ensures
            r@ == self@.buffers[self@.cur->0],
    {
        let i = self.cur_buffer_i.unwrap();
        assert(self@.buffers.contains_key(i));
        buffer_at(&self.buffers, i)
    }

    /// The current buffer, to be changed in place.
    pub fn cur_buffer_mut(&mut self) -> (r: &mut Buffer)
        requires
            old(self).wf(),
            old(self)@.cur is Some,
        ensures
            r@ == old(self)@.buffers[old(self)@.cur->0].buffer,
            r.wf(),
            final(self)@ == old(self)@.with_current(
                HistoryView { buffer: final(r)@, ..old(self)@.buffers[old(self)@.cur->0] },
            ),
    {
        let i = self.cur_buffer_i.unwrap();
        assert(self@.buffers.contains_key(i));
        assert(self@.buffers[i].wf());
        let ghost before = self@;
        let state = buffer_at_mut(&mut self.buffers, i);
        let buffer = &mut state.buffer;
        proof {
            assert(after_borrow(self)@.buffers =~= before.buffers.insert(
                i,
                HistoryView { buffer: final(buffer)@, ..before.buffers[i] },
            ));
        }
        buffer
    }

    /// The current buffer with its history, to be changed in place. The
    /// caller keeps it well formed.
    pub fn cur_buffer_state_mut(&mut self) -> (r: &mut BufferState)
        requires
            old(self).wf(),
            old(self)@.cur is Some,
        ensures
            r@ == old(self)@.buffers[old(self)@.cur->0],
            r.wf(),
            final(self)@ == old(self)@.with_current(final(r)@),
    {
        let i = self.cur_buffer_i.unwrap();
        assert(self@.buffers.contains_key(i));
        assert(self@.buffers[i].wf());
        let ghost before = self@;
        let state = buffer_at_mut(&mut self.buffers, i);
        proof {
            assert(after_borrow(self)@.buffers =~= before.buffers.insert(i, final(state)@));
        }
        state
    }

    /// The smallest key from `from` on under which a buffer is held, if
    /// there is one.
    fn first_key(&self, from: usize) -> (r: Option<usize>)
        ensures
            match r {
                Some(key) => first_key_from(self@.buffers, from as int, key),
                None => forall|k: usize| from <= k ==> !self@.buffers.contains_key(k),
            },
    {
        let bound = key_bound(&self.buffers);
        let mut key = from;
        while key < bound
            invariant
                from <= key,
                forall|k: usize| self@.buffers.contains_key(k) ==> k < bound,
                forall|k: usize| from <= k < key ==> !self@.buffers.contains_key(k),
            decreases bound - key,
        {
            if holds(&self.buffers, key) {
                return Some(key);
            }
            key += 1;
        }
        None
    }

    /// The largest key below `below` under which a buffer is held, if there
    /// is one.
    fn last_key(&self, below: usize) -> (r: Option<usize>)
        ensures
            match r {
                Some(key) => last_key_below(self@.buffers, below as int, key),
                None => forall|k: usize| k < below ==> !self@.buffers.contains_key(k),
            },
    {
        let bound = key_bound(&self.buffers);
        let mut key = if below <= bound {
            below
        } else {
            bound
        };
        while key > 0
            invariant
                key <= below,
                forall|k: usize| self@.buffers.contains_key(k) ==> k < bound,
                forall|k: usize| key <= k < below ==> !self@.buffers.contains_key(k),
            decreases key,
        {
            key -= 1;
            if holds(&self.buffers, key) {
                return Some(key);
            }
        }
        None
    }

    /// The key of the buffer that follows the one under `cur`, going round
    /// from the last to the first, if any buffer is held.
    fn next_key(&self, cur: Option<usize>) -> (r: Option<usize>)
        ensures
            r == (StateView { cur, ..self@ }).next_cur(),
            match r {
                Some(key) => self@.buffers.contains_key(key),
                None => true,
            },
    {
        let r = self.next_key_sought(cur);
        proof {
            match r {
                Some(key) => {
                    lemma_next_unique(StateView { cur, ..self@ }, key, key);
                },
                None => {},
            }
        }
        r
    }

    fn next_key_sought(&self, cur: Option<usize>) -> (r: Option<usize>)
        ensures
            match r {
                Some(key) => (StateView { cur, ..self@ }).is_next(key),
                None => self@.none_open(),
            },
    {
        let after = match cur {
            Some(i) => if i < usize::MAX {
                self.first_key(i + 1)
            } else {
                None
            },
            None => self.first_key(0),
        };
        match after {
            Some(key) => Some(key),
            None => self.first_key(0),
        }
    }

    /// The key of the buffer that precedes the one under `cur`, going round
    /// from the first to the last, if any buffer is held.
    fn prev_key(&self, cur: Option<usize>) -> (r: Option<usize>)
        ensures
            r == (StateView { cur, ..self@ }).prev_cur(),
            match r {
                Some(key) => self@.buffers.contains_key(key),
                None => true,
            },
    {
        let r = self.prev_key_sought(cur);
        proof {
            match r {
                Some(key) => {
                    lemma_prev_unique(StateView { cur, ..self@ }, key, key);
                },
                None => {},
            }
        }
        r
    }

    fn prev_key_sought(&self, cur: Option<usize>) -> (r: Option<usize>)
        ensures
            match r {
                Some(key) => (StateView { cur, ..self@ }).is_prev(key),
                None => self@.none_open(),
            },
    {
        let before = match cur {
            Some(i) => self.last_key(i),
            None => None,
        };
        match before {
            Some(key) => Some(key),
            None => if holds(&self.buffers, usize::MAX) {
                Some(usize::MAX)
            } else {
                self.last_key(usize::MAX)
            },
        }
    }

    /// Makes the buffer that follows the current one the current one, going
    /// round from the last to the first.
    pub fn buffer_next(&mut self)
        requires
            old(self).wf(),
        ensures
            final(self)@ == (StateView { cur: old(self)@.next_cur(), ..old(self)@ }),
            final(self).wf(),
    {
        self.cur_buffer_i = self.next_key(self.cur_buffer_i);
    }

    /// Makes the buffer that precedes the current one the current one, going
    /// round from the first to the last.
    pub fn buffer_prev(&mut self)
        requires
            old(self).wf(),
        ensures
            final(self)@ == (StateView { cur: old(self)@.prev_cur(), ..old(self)@ }),
            final(self).wf(),
    {
        self.cur_buffer_i = self.prev_key(self.cur_buffer_i);
    }

    /// Closes the current buffer, where there is one, and makes the buffer
    /// that followed it the current one.
    pub fn delete_buffer(&mut self)
        requires
            old(self).wf(),
        ensures
            final(self)@ == old(self)@.closing(),
            final(self).wf(),
    {
        match self.cur_buffer_i {
            Some(i) => {
                assert(self@.buffers.contains_key(i));
                let _ = take_buffer(&mut self.buffers, i);
                assert(self@.buffers =~= old(self)@.buffers.remove(i));
                self.cur_buffer_i = self.next_key(Some(i));
            },
            None => {},
        }
    }

    /// The smallest key under which a buffer kept at `path` is held, if
    /// there is one.
    fn key_kept_at(&self, path: &String) -> (r: Option<usize>)
        ensures
            match r {
                Some(key) => first_kept_at(self@.buffers, path@, key),
                None => !self@.kept_at(path@),
            },
    {
        let bound = key_bound(&self.buffers);
        let mut key: usize = 0;
        while key < bound
            invariant
                forall|k: usize| self@.buffers.contains_key(k) ==> k < bound,
                forall|k: usize|
                    k < key && self@.buffers.contains_key(k) ==> self@.buffers[k].path != Some(
                        path@,
                    ),
            decreases bound - key,
        {
            if holds(&self.buffers, key) {
                match &buffer_at(&self.buffers, key).path {
                    Some(kept) => {
                        if *kept == *path {
                            return Some(key);
                        }
                    },
                    None => {},
                }
            }
            key += 1;
        }
        None
    }

    /// Makes the buffer kept at `path` the current one where such a buffer
    /// is open, and asks for the file to be read where none is.
    pub fn open_buffer(&mut self, path: String) -> (r: Option<Request>)
        requires
            old(self).wf(),
        ensures
            final(self)@ == old(self)@.opening(path@),
            match r {
                Some(request) => old(self)@.opening_requests(path@) == seq![request@],
                None => old(self)@.opening_requests(path@).len() == 0,
            },
            final(self).wf(),
    {
        match self.key_kept_at(&path) {
            Some(found) => {
                proof {
                    lemma_kept_at_unique(self@, path@, found);
                }
                self.cur_buffer_i = Some(found);
                None
            },
            None => Some(Request::Read(path)),
        }
    }

    /// Opens a buffer on `text`, kept at `path`, and makes it the current
    /// one: the answer to a request to read.
    pub fn buffer_read(&mut self, path: String, text: Rope)
        requires
            old(self).wf(),
        ensures
            final(self)@.cur is Some,
            !old(self)@.buffers.contains_key(final(self)@.cur->0),
            final(self)@ == (StateView {
                cur: final(self)@.cur,
                buffers: old(self)@.buffers.insert(
                    final(self)@.cur->0,
                    HistoryView {
                        buffer: BufferView { text: chars_of(text), ..Buffer::default_view() },
                        history: Seq::empty(),
                        undo_i: None,
                        path: Some(path@),
                    },
                ),
                ..old(self)@
            }),
            final(self).wf(),
    {
        let state = BufferState::new(Buffer::from_text(text), Some(path));
        let ghost opened = state@;
        let key = add_buffer(&mut self.buffers, state);
        self.cur_buffer_i = Some(key);
        proof {
            assert(opened.history =~= Seq::empty());
            assert(opened.buffer.cursor_column =~= Seq::empty());
            assert(self@.buffers =~= old(self)@.buffers.insert(key, opened));
        }
    }

    /// Handles a key: drops the message shown, and does what the key asks
    /// for in the mode that the state is in. What this asks of the host is
    /// handed out.
    pub fn handle_key(&mut self, key: Key) -> (requests: Vec<Request>)
        requires
            old(self).wf(),
        ensures
            final(self)@ == old(self)@.handle_key(key),
            requests_of(requests@) == old(self)@.key_requests(key),
            final(self).wf(),
    {
        self.msg = None;
        match &self.mode {
            Mode::Normal(normal) => {
                let prefix = normal.num_prefix;
                self.handle_normal(prefix, key)
            },
            Mode::Insert(insert) => {
                let extend = insert.extend;
                self.handle_insert(extend, key);
                let requests: Vec<Request> = Vec::new();
                assert(requests_of(requests@) =~= Seq::<RequestView>::empty());
                requests
            },
            Mode::Command(_) => self.handle_command(key),
            Mode::Find(_) => self.handle_find(key),
            Mode::Goto(_) => {
                self.handle_goto(key);
                let requests: Vec<Request> = Vec::new();
                assert(requests_of(requests@) =~= Seq::<RequestView>::empty());
                requests
            },
        }
    }

    /// Takes the mode out of the state, which is in normal mode until
    /// another is put in.
    pub(crate) fn take_mode(&mut self) -> (mode: Mode)
        ensures
            mode == old(self).mode,
            final(self)@ == (StateView { mode: ModeView::normal(), ..old(self)@ }),
    {
        let mut mode = Mode::normal();
        std::mem::swap(&mut self.mode, &mut mode);
        mode
    }

    /// Notes `msg` as the message to show: the answer to a request that
    /// could not be met.
    pub fn failed(&mut self, msg: String)
        ensures
            final(self)@ == (StateView { msg: Some(msg@), ..old(self)@ }),
    {
        self.msg = Some(msg);
    }

    /// Asks for the current buffer to be written to `path`, or to the path
    /// that it is kept at where none is given. With no path to write to, a
    /// message says so.
    pub fn write_buffer(&mut self, path: Option<String>) -> (r: Option<Request>)
        requires
            old(self).wf(),
        ensures
            final(self)@ == old(self)@.writing(text_of(path)),
            match r {
                Some(request) => old(self)@.writing_requests(text_of(path)) == seq![request@],
                None => old(self)@.writing_requests(text_of(path)).len() == 0,
            },
            final(self).wf(),
    {
        let to = match self.cur_buffer_i {
            Some(i) => {
                assert(self@.buffers.contains_key(i));
                match path {
                    Some(p) => Some(p),
                    None => match &buffer_at(&self.buffers, i).path {
                        Some(kept) => Some(kept.clone()),
                        None => None,
                    },
                }
            },
            None => None,
        };
        match to {
            Some(p) => Some(Request::Write(p)),
            None => {
                self.msg = Some(String::from_str("No path given"));
                None
            },
        }
    }

    /// Notes that the current buffer is kept at `path` from now on: the
    /// answer to a request to write.
    pub fn buffer_written(&mut self, path: String)
        requires
            old(self).wf(),
        ensures
            final(self)@ == match old(self)@.cur {
                Some(i) => old(self)@.with_current(
                    HistoryView { path: Some(path@), ..old(self)@.buffers[i] },
                ),
                None => old(self)@,
            },
            final(self).wf(),
    {
        match self.cur_buffer_i {
            Some(i) => {
                assert(self@.buffers.contains_key(i));
                assert(self@.buffers[i].wf());
                let state = buffer_at_mut(&mut self.buffers, i);
                state.path = Some(path);
                assert(self@.buffers =~= old(self)@.buffers.insert(
                    i,
                    HistoryView { path: Some(path@), ..old(self)@.buffers[i] },
                ));
            },
            None => {},
        }
    }

    /// Takes `matches` as the paths found for the query of find mode: the
    /// answer to a request to find. Outside find mode nothing is taken.
    pub fn matches_found(&mut self, matches: Vec<String>)
        ensures
            final(self)@ == match old(self)@.mode {
                ModeView::Find { match_str, cur_matches } => StateView {
                    mode: ModeView::Find {
                        match_str,
                        cur_matches: crate::mode::strings_of(matches@),
                    },
                    ..old(self)@
                },
                _ => old(self)@,
            },
            old(self).wf() ==> final(self).wf(),
    {
        let mode = self.take_mode();
        match mode {
            Mode::Find(find) => {
                self.mode = Mode::Find(
                    crate::mode::Find { match_str: find.match_str, cur_matches: matches },
                );
            },
            other => {
                self.mode = other;
            },
        }
    }
}

} // verus!
