//! The undo history of a buffer: the states committed so far, and the place
//! among them that the buffer shows while undoing.
//!
//! The history is *live* while the buffer is ahead of every committed state,
//! and *mid-history* while it shows one of them after an undo. An edit made
//! mid-history forks: the state it set out from and the edited state are
//! committed behind the states already there, so that nothing done is lost.

use crate::buffer::{Buffer, BufferView};
use vstd::prelude::*;

verus! {

/// What a buffer with its history is taken to be in contracts.
pub ghost struct HistoryView {
    /// The buffer as it is now.
    pub buffer: BufferView,
    /// The states committed, oldest first.
    pub history: Seq<BufferView>,
    /// The index of the committed state that the buffer shows, while
    /// mid-history.
    pub undo_i: Option<usize>,
    /// Where the text is kept, if anywhere.
    pub path: Option<Seq<char>>,
}

/// The state `kept` with the selections of `from`: what a commit leaves of a
/// committed state when only the selections have changed since.
pub open spec fn with_selection_of(kept: BufferView, from: BufferView) -> BufferView {
    BufferView {
        selections: from.selections,
        primary: from.primary,
        cursor_column: from.cursor_column,
        ..kept
    }
}

/// The two states hold the same selections.
pub open spec fn same_selection(a: BufferView, b: BufferView) -> bool {
    a.selections == b.selections && a.primary == b.primary && a.cursor_column == b.cursor_column
}

impl HistoryView {
    /// The buffer and every committed state are well formed, and the place
    /// shown mid-history is one of the committed states.
    pub open spec fn wf(self) -> bool {
        &&& self.buffer.wf()
        &&& forall|k: int| 0 <= k < self.history.len() ==> (#[trigger] self.history[k]).wf()
        &&& match self.undo_i {
            Some(i) => i < self.history.len(),
            None => true,
        }
    }

    /// A commit while live. A buffer whose text differs from the newest
    /// committed state becomes a new state. One that differs from it in the
    /// selections alone passes them to that state, so that an undo comes
    /// back to the selections as they were just before the next edit.
    pub open spec fn commit_live(self) -> HistoryView {
        if self.history.len() == 0 {
            HistoryView { history: self.history.push(self.buffer), ..self }
        } else if self.history.last().text != self.buffer.text {
            HistoryView { history: self.history.push(self.buffer), ..self }
        } else if !same_selection(self.history.last(), self.buffer) {
            HistoryView {
                history: self.history.update(
                    self.history.len() - 1,
                    with_selection_of(self.history.last(), self.buffer),
                ),
                ..self
            }
        } else {
            self
        }
    }

    /// A commit. While live, see [`commit_live`](Self::commit_live).
    /// Mid-history, a buffer whose text differs from the state shown forks:
    /// the history turns live, the state shown is committed again, and then
    /// the buffer. A buffer that differs from the state shown in the
    /// selections alone passes them to that state.
    pub open spec fn commit(self) -> HistoryView {
        match self.undo_i {
            Some(i) => if self.history[i as int].text != self.buffer.text {
                let restored = HistoryView {
                    buffer: self.history[i as int],
                    undo_i: None,
                    ..self
                }.commit_live();
                HistoryView { buffer: self.buffer, ..restored }.commit_live()
            } else if !same_selection(self.history[i as int], self.buffer) {
                HistoryView {
                    history: self.history.update(
                        i as int,
                        with_selection_of(self.history[i as int], self.buffer),
                    ),
                    ..self
                }
            } else {
                self
            },
            None => self.commit_live(),
        }
    }

    /// The committed state that an undo of `times` steps shows: while live,
    /// counted back from the newest state after a commit; mid-history, from
    /// the state shown. The count stops at the oldest state.
    pub open spec fn undo(self, times: int) -> HistoryView {
        let from = match self.undo_i {
            Some(i) => self,
            None => self.commit(),
        };
        let newest = match self.undo_i {
            Some(i) => i as int,
            None => from.history.len() - 1,
        };
        let i = if newest <= times {
            0
        } else {
            newest - times
        };
        HistoryView { undo_i: Some(i as usize), buffer: from.history[i], ..from }
    }

    /// The committed state that a redo of `times` steps shows, counted on
    /// from the state shown and stopping at the newest. While live there is
    /// nothing to redo.
    pub open spec fn redo(self, times: int) -> HistoryView {
        match self.undo_i {
            Some(i) => {
                let to = if i + times <= self.history.len() - 1 {
                    i + times
                } else {
                    self.history.len() - 1
                };
                HistoryView { undo_i: Some(to as usize), buffer: self.history[to], ..self }
            },
            None => self,
        }
    }
}

/// A commit keeps the history well formed, and never drops a state.
pub proof fn lemma_commit_wf(m: HistoryView)
    requires
        m.wf(),
    ensures
        m.commit().wf(),
        m.commit_live().undo_i == m.undo_i,
        m.undo_i is None ==> m.commit().history.len() > 0,
        m.commit().history.len() >= m.history.len(),
        m.commit().buffer == m.buffer,
{
    lemma_commit_live_wf(m);
    match m.undo_i {
        Some(i) => {
            let restored = HistoryView { buffer: m.history[i as int], undo_i: None, ..m };
            assert(m.history[i as int].wf());
            lemma_commit_live_wf(restored);
            lemma_commit_live_wf(HistoryView { buffer: m.buffer, ..restored.commit_live() });
            lemma_selection_passed(m.history[i as int], m.buffer);
        },
        None => {},
    }
}

/// A commit while live keeps the history well formed.
pub proof fn lemma_commit_live_wf(m: HistoryView)
    requires
        m.buffer.wf(),
        forall|k: int| 0 <= k < m.history.len() ==> (#[trigger] m.history[k]).wf(),
    ensures
        m.commit_live().buffer == m.buffer,
        m.commit_live().history.len() > 0,
        m.commit_live().history.len() >= m.history.len(),
        forall|k: int|
            0 <= k < m.commit_live().history.len() ==> (#[trigger] m.commit_live().history[k]).wf(),
        m.commit_live().history.last().text == m.buffer.text,
        same_selection(m.commit_live().history.last(), m.buffer),
{
    if m.history.len() > 0 {
        assert(m.history.last().wf());
        lemma_selection_passed(m.history.last(), m.buffer);
    }
}

/// A state keeps well formed when it takes the selections of a state with
/// the same text.
pub proof fn lemma_selection_passed(kept: BufferView, from: BufferView)
    requires
        kept.wf(),
        from.wf(),
    ensures
        kept.text == from.text ==> with_selection_of(kept, from).wf(),
{
    if kept.text == from.text {
        let passed = with_selection_of(kept, from);
        assert forall|k: int| 0 <= k < passed.selections.len() implies (
        #[trigger] passed.selections[k]).anchor.0 <= passed.text.len()
            && passed.selections[k].cursor.0 <= passed.text.len() by {
            assert(from.selections[k].cursor.0 <= from.text.len());
        }
    }
}

/// Committing twice in a row is committing once: the second commit finds
/// nothing new.
pub proof fn lemma_commit_twice(m: HistoryView)
    requires
        m.wf(),
    ensures
        m.commit().commit() == m.commit(),
{
    lemma_commit_wf(m);
    let once = m.commit();
    match m.undo_i {
        Some(i) => {
            if m.history[i as int].text != m.buffer.text {
                let restored = HistoryView { buffer: m.history[i as int], undo_i: None, ..m };
                assert(m.history[i as int].wf());
                lemma_commit_live_wf(restored);
                lemma_commit_live_wf(HistoryView { buffer: m.buffer, ..restored.commit_live() });
            } else if !same_selection(m.history[i as int], m.buffer) {
                assert(once.history[i as int] == with_selection_of(m.history[i as int], m.buffer));
            }
        },
        None => {
            lemma_commit_live_wf(m);
        },
    }
}

/// A commit after a change of the selections alone adds no state: it passes
/// the selections to the state that the buffer was committed as.
pub proof fn lemma_commit_selection_only(m: HistoryView, changed: BufferView)
    requires
        m.wf(),
        changed.wf(),
        changed.text == m.buffer.text,
    ensures
        ({
            let committed = m.commit();
            let again = HistoryView { buffer: changed, ..committed }.commit();
            let at = match committed.undo_i {
                Some(i) => i as int,
                None => committed.history.len() - 1,
            };
            &&& again.history.len() == committed.history.len()
            &&& again.undo_i == committed.undo_i
            &&& again.history =~= committed.history.update(
                at,
                with_selection_of(committed.history[at], changed),
            )
        }),
{
    lemma_commit_wf(m);
    let committed = m.commit();
    match m.undo_i {
        Some(i) => {
            if m.history[i as int].text != m.buffer.text {
                let restored = HistoryView { buffer: m.history[i as int], undo_i: None, ..m };
                assert(m.history[i as int].wf());
                lemma_commit_live_wf(restored);
                lemma_commit_live_wf(HistoryView { buffer: m.buffer, ..restored.commit_live() });
            }
        },
        None => {
            lemma_commit_live_wf(m);
        },
    }
}

/// An edit made mid-history is not lost, and neither is the state it set out
/// from: after the commit the edited buffer is the newest state, and one
/// undo shows the text and the selections of the state that was edited.
pub proof fn lemma_undo_after_fork(m: HistoryView)
    requires
        m.wf(),
        m.undo_i is Some,
        m.history[m.undo_i->0 as int].text != m.buffer.text,
    ensures
        m.commit().undo_i is None,
        m.commit().history.last() == m.buffer,
        m.commit().history.len() >= 2,
        m.commit().undo(1).undo_i == Some((m.commit().history.len() - 2) as usize),
        m.commit().undo(1).buffer.text == m.history[m.undo_i->0 as int].text,
        same_selection(m.commit().undo(1).buffer, m.history[m.undo_i->0 as int]),
        m.commit().undo(1).history == m.commit().history,
{
    let i = m.undo_i->0 as int;
    let restored = HistoryView { buffer: m.history[i], undo_i: None, ..m };
    assert(m.history[i].wf());
    lemma_commit_live_wf(restored);
    let first = restored.commit_live();
    let second = HistoryView { buffer: m.buffer, ..first };
    lemma_commit_live_wf(second);
    lemma_commit_wf(m);
    lemma_commit_twice(m);
}

/// Undo and redo stop at the ends of the history. With nothing committed
/// yet, an undo leaves the buffer as it is; at the oldest state an undo
/// stays there; while live a redo changes nothing; at the newest state a
/// redo stays there.
pub proof fn lemma_undo_redo_saturate(m: HistoryView, times: int)
    requires
        m.wf(),
        0 <= times,
    ensures
        m.undo_i is None && m.history.len() == 0 ==> m.undo(times).buffer == m.buffer,
        m.undo_i == Some(0usize) ==> m.undo(times).undo_i == Some(0usize) && m.undo(
            times,
        ).buffer == m.history[0],
        m.undo_i is None ==> m.redo(times) == m,
        m.undo_i is Some && m.undo_i->0 == m.history.len() - 1 ==> m.redo(times).undo_i
            == m.undo_i && m.redo(times).buffer == m.history[m.history.len() - 1],
{
    lemma_commit_wf(m);
}

/// A buffer with its undo history.
#[derive(Debug, Clone)]
pub struct BufferState {
    /// The buffer as it is now.
    pub buffer: Buffer,
    /// The states committed, oldest first.
    pub buffer_history: Vec<Buffer>,
    /// The index of the committed state that the buffer shows, while
    /// mid-history.
    pub buffer_history_undo_i: Option<usize>,
    /// Where the text is kept, if anywhere.
    pub path: Option<String>,
}

impl View for BufferState {
    type V = HistoryView;

    open spec fn view(&self) -> HistoryView {
        HistoryView {
            buffer: self.buffer@,
            history: Seq::new(self.buffer_history@.len(), |k: int| self.buffer_history@[k]@),
            undo_i: self.buffer_history_undo_i,
            path: match self.path {
                Some(p) => Some(p@),
                None => None,
            },
        }
    }
}

impl Default for BufferState {
    /// An empty buffer with nothing committed.
    fn default() -> (r: BufferState)
        ensures
            r@.buffer == Buffer::default_view(),
            r@.history.len() == 0,
            r@.undo_i is None,
            r@.path is None,
            r.wf(),
    {
        BufferState {
            buffer: Buffer::default(),
            buffer_history: Vec::new(),
            buffer_history_undo_i: None,
            path: None,
        }
    }
}

impl BufferState {
    /// The history is well formed: see [`HistoryView::wf`].
    pub open spec fn wf(&self) -> bool {
        self@.wf()
    }

    /// A buffer on `buffer` with nothing committed, kept at `path`.
    pub fn new(buffer: Buffer, path: Option<String>) -> (r: BufferState)
        requires
            buffer.wf(),
        ensures
            r@.buffer == buffer@,
            r@.history.len() == 0,
            r@.undo_i is None,
            r@.path == match path {
                Some(p) => Some(p@),
                None => None,
            },
            r.wf(),
    {
        BufferState { buffer, buffer_history: Vec::new(), buffer_history_undo_i: None, path }
    }

    /// Commits the buffer as it is while the history is live.
    fn commit_live(&mut self)
        requires
            old(self)@.buffer.wf(),
            forall|k: int| 0 <= k < old(self)@.history.len() ==> (#[trigger] old(self)@.history[k]).wf(),
        ensures
            final(self)@ == old(self)@.commit_live(),
    {
        let n = self.buffer_history.len();
        if n == 0 {
            self.buffer_history.push(self.buffer.snapshot());
            assert(self@.history =~= old(self)@.history.push(old(self)@.buffer));
        } else if !self.buffer_history[n - 1].same_text_as(&self.buffer) {
            self.buffer_history.push(self.buffer.snapshot());
            assert(self@.history =~= old(self)@.history.push(old(self)@.buffer));
        } else if !self.buffer_history[n - 1].selection.same_as(&self.buffer.selection) {
            self.note_selection(n - 1);
        } else {
            assert(self@.history =~= old(self)@.history);
        }
    }

    /// Passes the selections of the buffer to committed state `i`.
    fn note_selection(&mut self, i: usize)
        requires
            i < old(self)@.history.len(),
        ensures
            final(self)@ == (HistoryView {
                history: old(self)@.history.update(
                    i as int,
                    with_selection_of(old(self)@.history[i as int], old(self)@.buffer),
                ),
                ..old(self)@
            }),
    {
        let mut noted = self.buffer_history[i].snapshot();
        noted.selection = self.buffer.selection.duplicate();
        self.buffer_history.set(i, noted);
        assert(self@.history =~= old(self)@.history.update(
            i as int,
            with_selection_of(old(self)@.history[i as int], old(self)@.buffer),
        ));
    }

    /// Commits the buffer as it is, where it differs from what was
    /// committed last: as a new state where the text differs, in place where
    /// the selections alone do. Mid-history, a buffer with another text
    /// than the state shown forks the history, which is live afterwards.
    pub fn maybe_commit_undo_point(&mut self)
        requires
            old(self).wf(),
        ensures
            final(self)@ == old(self)@.commit(),
            final(self).wf(),
    {
        proof {
            lemma_commit_wf(self@);
        }
        match self.buffer_history_undo_i {
            Some(restored_i) => {
                if !self.buffer_history[restored_i].same_text_as(&self.buffer) {
                    self.buffer_history_undo_i = None;
                    let mut edited = self.buffer_history[restored_i].snapshot();
                    std::mem::swap(&mut self.buffer, &mut edited);
                    proof {
                        assert(old(self)@.history[restored_i as int].wf());
                        assert(self@.history =~= old(self)@.history);
                        lemma_commit_live_wf(self@);
                    }
                    self.commit_live();
                    std::mem::swap(&mut self.buffer, &mut edited);
                    self.commit_live();
                } else if !self.buffer_history[restored_i].selection.same_as(
                    &self.buffer.selection,
                ) {
                    self.note_selection(restored_i);
                } else {
                    assert(self@.history =~= old(self)@.history);
                }
            },
            None => {
                self.commit_live();
            },
        }
    }

    /// Goes `times` states back in the history and shows the state reached.
    /// While live, the buffer is committed first, so that what it holds is
    /// not lost.
    pub fn undo(&mut self, times: usize)
        requires
            old(self).wf(),
        ensures
            final(self)@ == old(self)@.undo(times as int),
            final(self).wf(),
    {
        proof {
            lemma_commit_wf(self@);
        }
        let i = match self.buffer_history_undo_i {
            Some(restored_i) => restored_i.saturating_sub(times),
            None => {
                self.maybe_commit_undo_point();
                self.buffer_history.len().saturating_sub(1).saturating_sub(times)
            },
        };
        self.buffer_history_undo_i = Some(i);
        self.buffer = self.buffer_history[i].snapshot();
        proof {
            let from = match old(self)@.undo_i {
                Some(r) => old(self)@,
                None => old(self)@.commit(),
            };
            assert(self@.history =~= from.history);
            assert(from.history[i as int].wf());
        }
    }

    /// Goes `times` states on in the history and shows the state reached.
    /// While live there is nothing to go on to.
    pub fn redo(&mut self, times: usize)
        requires
            old(self).wf(),
        ensures
            final(self)@ == old(self)@.redo(times as int),
            final(self).wf(),
    {
        match self.buffer_history_undo_i {
            Some(undo_i) => {
                let last = self.buffer_history.len() - 1;
                let moved = undo_i.saturating_add(times);
                let new_i = if moved <= last {
                    moved
                } else {
                    last
                };
                self.buffer_history_undo_i = Some(new_i);
                self.buffer = self.buffer_history[new_i].snapshot();
                proof {
                    assert(self@.history =~= old(self)@.history);
                    assert(old(self)@.history[new_i as int].wf());
                }
            },
            None => {
                assert(self@.history =~= old(self)@.history);
            },
        }
    }
}

} // verus!
