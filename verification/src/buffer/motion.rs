//! Movement: repositioning the cursor of every selection.
//!
//! To *move* is to bring the anchor to where the cursor was and then the
//! cursor to its new place; to *extend* is to move the cursor and leave the
//! anchor. Vertical movement aims for the column that the cursor had when it
//! began, however short the lines it passes through.

use crate::buffer::{all_within, Buffer, BufferView};
use crate::idx::{
    spec_line_begin, spec_past_line_end, vertical_target, word_end_backward, word_end_forward,
    word_start_backward, word_start_forward, Idx,
};
use crate::position::{
    column_of, lemma_offset_round_trip, line_of, offset_at, trimmed_line, Position,
};
use crate::selection::Selection;
use crate::text::chars_of;
use ropey::Rope;
use vstd::prelude::*;

verus! {

impl BufferView {
    /// The same buffer with other selections, the columns noted for vertical
    /// movement kept.
    pub open spec fn with_selections(self, selections: Seq<Selection>) -> BufferView {
        BufferView { selections, ..self }
    }

    /// The column that vertical movement aims for with selection `i`, where
    /// one is noted.
    pub open spec fn aimed_column(self, i: int) -> Option<usize> {
        if 0 <= i < self.cursor_column.len() {
            Some(self.cursor_column[i])
        } else {
            None
        }
    }

    /// The buffer with the column of each cursor noted as the one to aim
    /// for, unless columns are noted already.
    pub open spec fn columns_noted(self) -> BufferView {
        if self.cursor_column.len() == 0 {
            BufferView {
                cursor_column: Seq::new(
                    self.selections.len(),
                    |i: int| column_of(self.text, self.selections[i].cursor.0 as int) as usize,
                ),
                ..self
            }
        } else {
            self
        }
    }

    /// The buffer after every cursor has moved `n` characters back.
    pub open spec fn spec_backward(self, n: int, extend: bool) -> BufferView {
        self.reselected(
            Seq::new(
                self.selections.len(),
                |i: int|
                    {
                        let c = self.selections[i].cursor.0;
                        let to = if c <= n {
                            0usize
                        } else {
                            (c - n) as usize
                        };
                        if extend {
                            self.selections[i].extended_to(to)
                        } else {
                            self.selections[i].moved_to(to)
                        }
                    },
            ),
        )
    }

    /// The buffer after every cursor has moved `n` characters on.
    pub open spec fn spec_forward(self, n: int, extend: bool) -> BufferView {
        self.reselected(
            Seq::new(
                self.selections.len(),
                |i: int|
                    {
                        let c = self.selections[i].cursor.0;
                        let to = if c + n <= self.text.len() {
                            (c + n) as usize
                        } else {
                            self.text.len() as usize
                        };
                        if extend {
                            self.selections[i].extended_to(to)
                        } else {
                            self.selections[i].moved_to(to)
                        }
                    },
            ),
        )
    }

    /// The line that a vertical move of `n` lines from offset `c` aims for.
    pub open spec fn aimed_line(self, c: int, n: int, down: bool) -> int {
        if down {
            line_of(self.text, c) + n
        } else if line_of(self.text, c) <= n {
            0
        } else {
            line_of(self.text, c) - n
        }
    }

    /// The buffer after every cursor has moved `n` lines down or up, each
    /// to the column noted for it. A move leaves carets; an extension leaves
    /// the anchors.
    pub open spec fn spec_vertical(self, n: int, down: bool, extend: bool) -> BufferView {
        let noted = self.columns_noted();
        noted.with_selections(
            Seq::new(
                self.selections.len(),
                |i: int|
                    {
                        let c = self.selections[i].cursor.0 as int;
                        let to = vertical_target(
                            self.text,
                            c,
                            self.aimed_line(c, n, down),
                            noted.aimed_column(i),
                        ) as usize;
                        if extend {
                            self.selections[i].extended_to(to)
                        } else {
                            self.selections[i].replaced_by(to, to)
                        }
                    },
            ),
        )
    }

    /// The buffer after every selection has come to span the word at or
    /// after its cursor.
    pub open spec fn spec_forward_word(self) -> BufferView {
        self.reselected(
            Seq::new(
                self.selections.len(),
                |i: int|
                    self.selections[i].replaced_by(
                        word_start_forward(self.text, self.selections[i].cursor.0 as int) as usize,
                        word_end_forward(self.text, self.selections[i].cursor.0 as int) as usize,
                    ),
            ),
        )
    }

    /// The buffer after every selection has come to span the word before
    /// its cursor, facing backward.
    pub open spec fn spec_backward_word(self) -> BufferView {
        self.reselected(
            Seq::new(
                self.selections.len(),
                |i: int|
                    self.selections[i].replaced_by(
                        word_start_backward(self.text, self.selections[i].cursor.0 as int) as usize,
                        word_end_backward(self.text, self.selections[i].cursor.0 as int) as usize,
                    ),
            ),
        )
    }

    /// The buffer after every cursor has gone to where `target` takes its
    /// offset: moved there, or extended to there.
    pub open spec fn cursors_to(self, target: spec_fn(int) -> int, extend: bool) -> BufferView {
        self.reselected(
            Seq::new(
                self.selections.len(),
                |i: int|
                    {
                        let to = target(self.selections[i].cursor.0 as int) as usize;
                        if extend {
                            self.selections[i].extended_to(to)
                        } else {
                            self.selections[i].moved_to(to)
                        }
                    },
            ),
        )
    }

    /// The buffer after every selection has come to span the line of its
    /// cursor, line feed included.
    pub open spec fn spec_move_line(self) -> BufferView {
        self.reselected(
            Seq::new(
                self.selections.len(),
                |i: int|
                    self.selections[i].replaced_by(
                        spec_line_begin(self.text, self.selections[i].cursor.0 as int) as usize,
                        spec_past_line_end(self.text, self.selections[i].cursor.0 as int) as usize,
                    ),
            ),
        )
    }

    /// The buffer after every selection has grown to whole lines: from the
    /// start of the line of its first end to behind the line of its cursor.
    pub open spec fn spec_extend_line(self) -> BufferView {
        self.reselected(
            Seq::new(
                self.selections.len(),
                |i: int|
                    {
                        let low = self.selections[i].low() as int;
                        self.selections[i].replaced_by(
                            if column_of(self.text, low) == 0 {
                                low as usize
                            } else {
                                spec_line_begin(self.text, low) as usize
                            },
                            spec_past_line_end(
                                self.text,
                                self.selections[i].cursor.0 as int,
                            ) as usize,
                        )
                    },
            ),
        )
    }
}

/// At the start of the text a move back changes nothing: a caret there
/// stays the caret it is, however far it is asked to move, and a selection
/// whose cursor is there keeps both its ends when it is extended.
pub proof fn lemma_backward_at_start(v: BufferView, n: int, i: int)
    requires
        v.wf(),
        0 <= n,
        0 <= i < v.selections.len(),
        v.selections[i].cursor.0 == 0,
    ensures
        v.spec_backward(n, false).text == v.text,
        v.spec_backward(n, true).text == v.text,
        v.selections[i].anchor.0 == 0 ==> v.spec_backward(n, false).selections[i]
            == v.selections[i],
        v.spec_backward(n, true).selections[i].anchor == v.selections[i].anchor,
        v.spec_backward(n, true).selections[i].cursor == v.selections[i].cursor,
{
}

/// At the end of the text a move on changes nothing for a caret there.
pub proof fn lemma_forward_at_end(v: BufferView, n: int, i: int)
    requires
        v.wf(),
        0 <= n,
        0 <= i < v.selections.len(),
        v.selections[i].cursor.0 == v.text.len(),
        v.selections[i].anchor.0 == v.text.len(),
    ensures
        v.spec_forward(n, false).text == v.text,
        v.spec_forward(n, false).selections[i] == v.selections[i],
{
}

/// In the first line a move up changes nothing for a caret: it stays at its
/// offset, however many lines it is asked to move, when it sets out with no
/// column noted or with its own column noted.
pub proof fn lemma_up_in_first_line(v: BufferView, n: int, i: int)
    requires
        v.wf(),
        0 <= n,
        0 <= i < v.selections.len(),
        v.selections[i].anchor == v.selections[i].cursor,
        line_of(v.text, v.selections[i].cursor.0 as int) == 0,
        v.cursor_column.len() == 0 || (i < v.cursor_column.len() && v.cursor_column[i]
            == column_of(v.text, v.selections[i].cursor.0 as int)),
    ensures
        v.spec_vertical(n, false, false).text == v.text,
        v.spec_vertical(n, false, false).selections[i] == v.selections[i],
{
    let c = v.selections[i].cursor.0 as int;
    assert(v.selections[i].cursor.0 <= v.text.len());
    lemma_offset_round_trip(v.text, c);
    crate::text::lemma_line_start(v.text, 0);
}

/// In the last line a move down changes nothing for a caret.
pub proof fn lemma_down_in_last_line(v: BufferView, n: int, i: int)
    requires
        v.wf(),
        0 <= n,
        0 <= i < v.selections.len(),
        v.selections[i].anchor == v.selections[i].cursor,
        line_of(v.text, v.selections[i].cursor.0 as int) + 1 == crate::text::line_count(v.text),
        v.cursor_column.len() == 0 || (i < v.cursor_column.len() && v.cursor_column[i]
            == column_of(v.text, v.selections[i].cursor.0 as int)),
    ensures
        v.spec_vertical(n, true, false).text == v.text,
        v.spec_vertical(n, true, false).selections[i] == v.selections[i],
{
    let c = v.selections[i].cursor.0 as int;
    assert(v.selections[i].cursor.0 <= v.text.len());
    lemma_offset_round_trip(v.text, c);
    crate::text::lemma_line_start(v.text, line_of(v.text, c));
}

impl Buffer {
    /// Replaces the selections by `selections`.
    fn set_selections(&mut self, selections: Vec<Selection>)
        requires
            selections@.len() == old(self)@.selections.len(),
            old(self).wf(),
            all_within(selections@, old(self)@.text.len()),
        ensures
            final(self)@ == old(self)@.with_selections(selections@),
            final(self).wf(),
    {
        self.selection.selections = selections;
    }

    /// Moves every selection: the anchor comes to the cursor, and the cursor
    /// to where `f` takes it.
    pub fn move_cursor<F: Fn(Idx, &Rope) -> Idx>(&mut self, f: F)
        requires
            old(self).wf(),
            forall|idx: Idx|
                idx.within(old(self)@.text) ==> #[trigger] call_requires(f, (idx, &old(self).text)),
            forall|idx: Idx, to: Idx|
                idx.within(old(self)@.text) && call_ensures(f, (idx, &old(self).text), to)
                    ==> to.within(old(self)@.text),
        ensures
            final(self).wf(),
            final(self)@.selections.len() == old(self)@.selections.len(),
            final(self)@ == old(self)@.with_selections(final(self)@.selections),
            forall|i: int|
                0 <= i < old(self)@.selections.len() ==> call_ensures(
                    f,
                    (old(self)@.selections[i].cursor, &old(self).text),
                    (#[trigger] final(self)@.selections[i]).cursor,
                ) && final(self)@.selections[i] == old(self)@.selections[i].moved_to(
                    final(self)@.selections[i].cursor.0,
                ),
    {
        let n = self.selection.selections.len();
        let mut moved: Vec<Selection> = Vec::new();
        let mut i: usize = 0;
        while i < n
            invariant
                i <= n,
                n == self@.selections.len(),
                *self == *old(self),
                self.wf(),
                forall|idx: Idx|
                    idx.within(self@.text) ==> #[trigger] call_requires(f, (idx, &self.text)),
                forall|idx: Idx, to: Idx|
                    idx.within(self@.text) && call_ensures(f, (idx, &self.text), to)
                        ==> to.within(self@.text),
                moved@.len() == i,
                all_within(moved@, self@.text.len()),
                forall|k: int|
                    0 <= k < i ==> call_ensures(
                        f,
                        (self@.selections[k].cursor, &self.text),
                        (#[trigger] moved@[k]).cursor,
                    ) && moved@[k] == self@.selections[k].moved_to(moved@[k].cursor.0),
            decreases n - i,
        {
            let sel = self.selection.selections[i];
            assert(self@.selections[i as int].cursor.0 <= self@.text.len());
            let to = f(sel.cursor, &self.text);
            moved.push(
                (Selection {
                    anchor: sel.cursor,
                    cursor: to,
                    was_forward: sel.was_forward,
                }).update_last_direction(),
            );
            i += 1;
        }
        self.set_selections(moved);
    }

    /// Moves every selection to a caret where `f` takes its cursor, given
    /// the column noted for it.
    pub fn move_cursor_vertically_with_column<F: Fn(Idx, Option<usize>, &Rope) -> Idx>(
        &mut self,
        f: F,
    )
        requires
            old(self).wf(),
            forall|idx: Idx, column: Option<usize>|
                idx.within(old(self)@.text) ==> call_requires(f, (idx, column, &old(self).text)),
            forall|idx: Idx, column: Option<usize>, to: Idx|
                idx.within(old(self)@.text) && call_ensures(f, (idx, column, &old(self).text), to)
                    ==> to.within(old(self)@.text),
        ensures
            final(self).wf(),
            final(self)@.selections.len() == old(self)@.selections.len(),
            final(self)@ == old(self)@.with_selections(final(self)@.selections),
            forall|i: int|
                0 <= i < old(self)@.selections.len() ==> call_ensures(
                    f,
                    (old(self)@.selections[i].cursor, old(self)@.aimed_column(i), &old(self).text),
                    (#[trigger] final(self)@.selections[i]).cursor,
                ) && final(self)@.selections[i] == old(self)@.selections[i].replaced_by(
                    final(self)@.selections[i].cursor.0,
                    final(self)@.selections[i].cursor.0,
                ),
    {
        let n = self.selection.selections.len();
        let mut moved: Vec<Selection> = Vec::new();
        let mut i: usize = 0;
        while i < n
            invariant
                i <= n,
                n == self@.selections.len(),
                *self == *old(self),
                self.wf(),
                forall|idx: Idx, column: Option<usize>|
                    idx.within(self@.text) ==> call_requires(f, (idx, column, &self.text)),
                forall|idx: Idx, column: Option<usize>, to: Idx|
                    idx.within(self@.text) && call_ensures(f, (idx, column, &self.text), to)
                        ==> to.within(self@.text),
                moved@.len() == i,
                all_within(moved@, self@.text.len()),
                forall|k: int|
                    0 <= k < i ==> call_ensures(
                        f,
                        (self@.selections[k].cursor, self@.aimed_column(k), &self.text),
                        (#[trigger] moved@[k]).cursor,
                    ) && moved@[k] == self@.selections[k].replaced_by(
                        moved@[k].cursor.0,
                        moved@[k].cursor.0,
                    ),
            decreases n - i,
        {
            let sel = self.selection.selections[i];
            assert(self@.selections[i as int].cursor.0 <= self@.text.len());
            let column = self.aimed_column_of(i);
            let to = f(sel.cursor, column, &self.text);
            moved.push(
                (Selection { anchor: to, cursor: to, was_forward: sel.was_forward }).update_last_direction(),
            );
            i += 1;
        }
        self.set_selections(moved);
    }

    /// The column that vertical movement aims for with selection `i`, where
    /// one is noted.
    fn aimed_column_of(&self, i: usize) -> (r: Option<usize>)
        ensures
            r == self@.aimed_column(i as int),
    {
        if i < self.selection.cursor_column.len() {
            Some(self.selection.cursor_column[i])
        } else {
            None
        }
    }

    /// Replaces every selection by the pair of anchor and cursor that `f`
    /// gives for its cursor.
    pub fn move_cursor_2<F: Fn(Idx, &Rope) -> (Idx, Idx)>(&mut self, f: F)
        requires
            old(self).wf(),
            forall|idx: Idx|
                idx.within(old(self)@.text) ==> #[trigger] call_requires(f, (idx, &old(self).text)),
            forall|idx: Idx, to: (Idx, Idx)|
                idx.within(old(self)@.text) && call_ensures(f, (idx, &old(self).text), to)
                    ==> to.0.within(old(self)@.text) && to.1.within(old(self)@.text),
        ensures
            final(self).wf(),
            final(self)@.selections.len() == old(self)@.selections.len(),
            final(self)@ == old(self)@.with_selections(final(self)@.selections),
            forall|i: int|
                0 <= i < old(self)@.selections.len() ==> call_ensures(
                    f,
                    (old(self)@.selections[i].cursor, &old(self).text),
                    (
                        (#[trigger] final(self)@.selections[i]).anchor,
                        final(self)@.selections[i].cursor,
                    ),
                ) && final(self)@.selections[i] == old(self)@.selections[i].replaced_by(
                    final(self)@.selections[i].anchor.0,
                    final(self)@.selections[i].cursor.0,
                ),
    {
        let n = self.selection.selections.len();
        let mut moved: Vec<Selection> = Vec::new();
        let mut i: usize = 0;
        while i < n
            invariant
                i <= n,
                n == self@.selections.len(),
                *self == *old(self),
                self.wf(),
                forall|idx: Idx|
                    idx.within(self@.text) ==> #[trigger] call_requires(f, (idx, &self.text)),
                forall|idx: Idx, to: (Idx, Idx)|
                    idx.within(self@.text) && call_ensures(f, (idx, &self.text), to)
                        ==> to.0.within(self@.text) && to.1.within(self@.text),
                moved@.len() == i,
                all_within(moved@, self@.text.len()),
                forall|k: int|
                    0 <= k < i ==> call_ensures(
                        f,
                        (self@.selections[k].cursor, &self.text),
                        ((#[trigger] moved@[k]).anchor, moved@[k].cursor),
                    ) && moved@[k] == self@.selections[k].replaced_by(
                        moved@[k].anchor.0,
                        moved@[k].cursor.0,
                    ),
            decreases n - i,
        {
            let sel = self.selection.selections[i];
            assert(self@.selections[i as int].cursor.0 <= self@.text.len());
            let (new_anchor, new_cursor) = f(sel.cursor, &self.text);
            moved.push(
                (Selection {
                    anchor: new_anchor,
                    cursor: new_cursor,
                    was_forward: sel.was_forward,
                }).update_last_direction(),
            );
            i += 1;
        }
        self.set_selections(moved);
    }

    /// Extends every selection: the cursor comes to where `f` takes it.
    pub fn extend_cursor<F: Fn(Idx, &Rope) -> Idx>(&mut self, f: F)
        requires
            old(self).wf(),
            forall|idx: Idx|
                idx.within(old(self)@.text) ==> #[trigger] call_requires(f, (idx, &old(self).text)),
            forall|idx: Idx, to: Idx|
                idx.within(old(self)@.text) && call_ensures(f, (idx, &old(self).text), to)
                    ==> to.within(old(self)@.text),
        ensures
            final(self).wf(),
            final(self)@.selections.len() == old(self)@.selections.len(),
            final(self)@ == old(self)@.with_selections(final(self)@.selections),
            forall|i: int|
                0 <= i < old(self)@.selections.len() ==> call_ensures(
                    f,
                    (old(self)@.selections[i].cursor, &old(self).text),
                    (#[trigger] final(self)@.selections[i]).cursor,
                ) && final(self)@.selections[i] == old(self)@.selections[i].extended_to(
                    final(self)@.selections[i].cursor.0,
                ),
    {
        let n = self.selection.selections.len();
        let mut moved: Vec<Selection> = Vec::new();
        let mut i: usize = 0;
        while i < n
            invariant
                i <= n,
                n == self@.selections.len(),
                *self == *old(self),
                self.wf(),
                forall|idx: Idx|
                    idx.within(self@.text) ==> #[trigger] call_requires(f, (idx, &self.text)),
                forall|idx: Idx, to: Idx|
                    idx.within(self@.text) && call_ensures(f, (idx, &self.text), to)
                        ==> to.within(self@.text),
                moved@.len() == i,
                all_within(moved@, self@.text.len()),
                forall|k: int|
                    0 <= k < i ==> call_ensures(
                        f,
                        (self@.selections[k].cursor, &self.text),
                        (#[trigger] moved@[k]).cursor,
                    ) && moved@[k] == self@.selections[k].extended_to(moved@[k].cursor.0),
            decreases n - i,
        {
            let sel = self.selection.selections[i];
            assert(self@.selections[i as int].cursor.0 <= self@.text.len());
            let to = f(sel.cursor, &self.text);
            moved.push(
                (Selection {
                    anchor: sel.anchor,
                    cursor: to,
                    was_forward: sel.was_forward,
                }).update_last_direction(),
            );
            i += 1;
        }
        self.set_selections(moved);
    }

    /// Extends every selection to where `f` takes its cursor, given the
    /// column noted for it.
    pub fn extend_cursor_with_column<F: Fn(Idx, Option<usize>, &Rope) -> Idx>(&mut self, f: F)
        requires
            old(self).wf(),
            forall|idx: Idx, column: Option<usize>|
                idx.within(old(self)@.text) ==> call_requires(f, (idx, column, &old(self).text)),
            forall|idx: Idx, column: Option<usize>, to: Idx|
                idx.within(old(self)@.text) && call_ensures(f, (idx, column, &old(self).text), to)
                    ==> to.within(old(self)@.text),
        ensures
            final(self).wf(),
            final(self)@.selections.len() == old(self)@.selections.len(),
            final(self)@ == old(self)@.with_selections(final(self)@.selections),
            forall|i: int|
                0 <= i < old(self)@.selections.len() ==> call_ensures(
                    f,
                    (old(self)@.selections[i].cursor, old(self)@.aimed_column(i), &old(self).text),
                    (#[trigger] final(self)@.selections[i]).cursor,
                ) && final(self)@.selections[i] == old(self)@.selections[i].extended_to(
                    final(self)@.selections[i].cursor.0,
                ),
    {
        let n = self.selection.selections.len();
        let mut moved: Vec<Selection> = Vec::new();
        let mut i: usize = 0;
        while i < n
            invariant
                i <= n,
                n == self@.selections.len(),
                *self == *old(self),
                self.wf(),
                forall|idx: Idx, column: Option<usize>|
                    idx.within(self@.text) ==> call_requires(f, (idx, column, &self.text)),
                forall|idx: Idx, column: Option<usize>, to: Idx|
                    idx.within(self@.text) && call_ensures(f, (idx, column, &self.text), to)
                        ==> to.within(self@.text),
                moved@.len() == i,
                all_within(moved@, self@.text.len()),
                forall|k: int|
                    0 <= k < i ==> call_ensures(
                        f,
                        (self@.selections[k].cursor, self@.aimed_column(k), &self.text),
                        (#[trigger] moved@[k]).cursor,
                    ) && moved@[k] == self@.selections[k].extended_to(moved@[k].cursor.0),
            decreases n - i,
        {
            let sel = self.selection.selections[i];
            assert(self@.selections[i as int].cursor.0 <= self@.text.len());
            let column = self.aimed_column_of(i);
            let to = f(sel.cursor, column, &self.text);
            moved.push(
                (Selection {
                    anchor: sel.anchor,
                    cursor: to,
                    was_forward: sel.was_forward,
                }).update_last_direction(),
            );
            i += 1;
        }
        self.set_selections(moved);
    }

    /// Extends every selection to the second of the two offsets that `f`
    /// gives for its cursor.
    pub fn extend_cursor_2<F: Fn(Idx, &Rope) -> (Idx, Idx)>(&mut self, f: F)
        requires
            old(self).wf(),
            forall|idx: Idx|
                idx.within(old(self)@.text) ==> #[trigger] call_requires(f, (idx, &old(self).text)),
            forall|idx: Idx, to: (Idx, Idx)|
                idx.within(old(self)@.text) && call_ensures(f, (idx, &old(self).text), to)
                    ==> to.1.within(old(self)@.text),
        ensures
            final(self).wf(),
            final(self)@.selections.len() == old(self)@.selections.len(),
            final(self)@ == old(self)@.with_selections(final(self)@.selections),
            forall|i: int|
                0 <= i < old(self)@.selections.len() ==> (exists|start: Idx|
                    call_ensures(
                        f,
                        (old(self)@.selections[i].cursor, &old(self).text),
                        (start, (#[trigger] final(self)@.selections[i]).cursor),
                    )) && final(self)@.selections[i] == old(self)@.selections[i].extended_to(
                    final(self)@.selections[i].cursor.0,
                ),
    {
        let n = self.selection.selections.len();
        let mut moved: Vec<Selection> = Vec::new();
        let mut i: usize = 0;
        while i < n
            invariant
                i <= n,
                n == self@.selections.len(),
                *self == *old(self),
                self.wf(),
                forall|idx: Idx|
                    idx.within(self@.text) ==> #[trigger] call_requires(f, (idx, &self.text)),
                forall|idx: Idx, to: (Idx, Idx)|
                    idx.within(self@.text) && call_ensures(f, (idx, &self.text), to)
                        ==> to.1.within(self@.text),
                moved@.len() == i,
                all_within(moved@, self@.text.len()),
                forall|k: int|
                    0 <= k < i ==> (exists|start: Idx|
                        call_ensures(
                            f,
                            (self@.selections[k].cursor, &self.text),
                            (start, (#[trigger] moved@[k]).cursor),
                        )) && moved@[k] == self@.selections[k].extended_to(moved@[k].cursor.0),
            decreases n - i,
        {
            let sel = self.selection.selections[i];
            assert(self@.selections[i as int].cursor.0 <= self@.text.len());
            let (_new_anchor, new_cursor) = f(sel.cursor, &self.text);
            moved.push(
                (Selection {
                    anchor: sel.anchor,
                    cursor: new_cursor,
                    was_forward: sel.was_forward,
                }).update_last_direction(),
            );
            i += 1;
        }
        self.set_selections(moved);
    }

    /// Replaces every selection by the pair of cursor and anchor that `f`
    /// gives for its cursor and anchor.
    pub fn change_selection<F: Fn(Idx, Idx, &Rope) -> (Idx, Idx)>(&mut self, f: F)
        requires
            old(self).wf(),
            forall|cursor: Idx, anchor: Idx|
                cursor.within(old(self)@.text) && anchor.within(old(self)@.text) ==> call_requires(
                    f,
                    (cursor, anchor, &old(self).text),
                ),
            forall|cursor: Idx, anchor: Idx, to: (Idx, Idx)|
                cursor.within(old(self)@.text) && anchor.within(old(self)@.text) && call_ensures(
                    f,
                    (cursor, anchor, &old(self).text),
                    to,
                ) ==> to.0.within(old(self)@.text) && to.1.within(old(self)@.text),
        ensures
            final(self).wf(),
            final(self)@.selections.len() == old(self)@.selections.len(),
            final(self)@ == old(self)@.with_selections(final(self)@.selections),
            forall|i: int|
                0 <= i < old(self)@.selections.len() ==> call_ensures(
                    f,
                    (
                        old(self)@.selections[i].cursor,
                        old(self)@.selections[i].anchor,
                        &old(self).text,
                    ),
                    (
                        (#[trigger] final(self)@.selections[i]).cursor,
                        final(self)@.selections[i].anchor,
                    ),
                ) && final(self)@.selections[i] == old(self)@.selections[i].replaced_by(
                    final(self)@.selections[i].anchor.0,
                    final(self)@.selections[i].cursor.0,
                ),
    {
        let n = self.selection.selections.len();
        let mut moved: Vec<Selection> = Vec::new();
        let mut i: usize = 0;
        while i < n
            invariant
                i <= n,
                n == self@.selections.len(),
                *self == *old(self),
                self.wf(),
                forall|cursor: Idx, anchor: Idx|
                    cursor.within(self@.text) && anchor.within(self@.text) ==> call_requires(
                        f,
                        (cursor, anchor, &self.text),
                    ),
                forall|cursor: Idx, anchor: Idx, to: (Idx, Idx)|
                    cursor.within(self@.text) && anchor.within(self@.text) && call_ensures(
                        f,
                        (cursor, anchor, &self.text),
                        to,
                    ) ==> to.0.within(self@.text) && to.1.within(self@.text),
                moved@.len() == i,
                all_within(moved@, self@.text.len()),
                forall|k: int|
                    0 <= k < i ==> call_ensures(
                        f,
                        (self@.selections[k].cursor, self@.selections[k].anchor, &self.text),
                        ((#[trigger] moved@[k]).cursor, moved@[k].anchor),
                    ) && moved@[k] == self@.selections[k].replaced_by(
                        moved@[k].anchor.0,
                        moved@[k].cursor.0,
                    ),
            decreases n - i,
        {
            let sel = self.selection.selections[i];
            assert(self@.selections[i as int].cursor.0 <= self@.text.len());
            let (new_cursor, new_anchor) = f(sel.cursor, sel.anchor, &self.text);
            moved.push(
                (Selection {
                    anchor: new_anchor,
                    cursor: new_cursor,
                    was_forward: sel.was_forward,
                }).update_last_direction(),
            );
            i += 1;
        }
        self.set_selections(moved);
    }

    /// Moves every selection: the anchor comes to the cursor, and the cursor
    /// to the offset of the position that `f` gives for the cursor's
    /// position, its line trimmed to the text and its column to the line.
    pub fn move_cursor_coord<F: Fn(Position, &Rope) -> Position>(&mut self, f: F)
        requires
            old(self).wf(),
            forall|at: Position|
                at.in_text(old(self)@.text) ==> #[trigger] call_requires(f, (at, &old(self).text)),
        ensures
            final(self).wf(),
            final(self)@.selections.len() == old(self)@.selections.len(),
            final(self)@ == old(self)@.with_selections(final(self)@.selections),
            forall|i: int|
                0 <= i < old(self)@.selections.len() ==> (exists|to: Position|
                    call_ensures(
                        f,
                        (
                            Position::of_offset(
                                old(self)@.text,
                                old(self)@.selections[i].cursor.0 as int,
                            ),
                            &old(self).text,
                        ),
                        to,
                    ) && (#[trigger] final(self)@.selections[i]).cursor.0 == offset_at(
                        old(self)@.text,
                        trimmed_line(old(self)@.text, to.line as int),
                        to.column as int,
                    )) && final(self)@.selections[i] == old(self)@.selections[i].moved_to(
                    final(self)@.selections[i].cursor.0,
                ),
    {
        let ghost mut given: Seq<Position> = Seq::empty();
        let n = self.selection.selections.len();
        let mut moved: Vec<Selection> = Vec::new();
        let mut i: usize = 0;
        while i < n
            invariant
                i <= n,
                n == self@.selections.len(),
                *self == *old(self),
                self.wf(),
                forall|at: Position|
                    at.in_text(self@.text) ==> #[trigger] call_requires(f, (at, &self.text)),
                moved@.len() == i,
                all_within(moved@, self@.text.len()),
                given.len() == i,
                forall|k: int|
                    0 <= k < i ==> call_ensures(
                        f,
                        (
                            Position::of_offset(self@.text, self@.selections[k].cursor.0 as int),
                            &self.text,
                        ),
                        #[trigger] given[k],
                    ) && moved@[k].cursor.0 == offset_at(
                        self@.text,
                        trimmed_line(self@.text, given[k].line as int),
                        given[k].column as int,
                    ) && moved@[k] == self@.selections[k].moved_to(moved@[k].cursor.0),
            decreases n - i,
        {
            let sel = self.selection.selections[i];
            assert(self@.selections[i as int].cursor.0 <= self@.text.len());
            let to = f(sel.cursor.to_position(&self.text), &self.text);
            proof {
                given = given.push(to);
            }
            let cursor = to.trim_line_to_buf(&self.text).to_idx(&self.text);
            moved.push(
                (Selection {
                    anchor: sel.cursor,
                    cursor,
                    was_forward: sel.was_forward,
                }).update_last_direction(),
            );
            i += 1;
        }
        self.set_selections(moved);
        proof {
            assert forall|i: int| 0 <= i < old(self)@.selections.len() implies (exists|to: Position|
                call_ensures(
                    f,
                    (
                        Position::of_offset(
                            old(self)@.text,
                            old(self)@.selections[i].cursor.0 as int,
                        ),
                        &old(self).text,
                    ),
                    to,
                ) && (#[trigger] self@.selections[i]).cursor.0 == offset_at(
                    old(self)@.text,
                    trimmed_line(old(self)@.text, to.line as int),
                    to.column as int,
                )) && self@.selections[i] == old(self)@.selections[i].moved_to(
                self@.selections[i].cursor.0,
            ) by {
                let to = given[i];
                assert(call_ensures(
                    f,
                    (
                        Position::of_offset(
                            old(self)@.text,
                            old(self)@.selections[i].cursor.0 as int,
                        ),
                        &old(self).text,
                    ),
                    to,
                ));
            }
        }
    }

    /// Extends every selection: the cursor comes to the offset of the
    /// position that `f` gives for the cursor's position, its line trimmed
    /// to the text and its column to the line.
    pub fn extend_cursor_coord<F: Fn(Position, &Rope) -> Position>(&mut self, f: F)
        requires
            old(self).wf(),
            forall|at: Position|
                at.in_text(old(self)@.text) ==> #[trigger] call_requires(f, (at, &old(self).text)),
        ensures
            final(self).wf(),
            final(self)@.selections.len() == old(self)@.selections.len(),
            final(self)@ == old(self)@.with_selections(final(self)@.selections),
            forall|i: int|
                0 <= i < old(self)@.selections.len() ==> (exists|to: Position|
                    call_ensures(
                        f,
                        (
                            Position::of_offset(
                                old(self)@.text,
                                old(self)@.selections[i].cursor.0 as int,
                            ),
                            &old(self).text,
                        ),
                        to,
                    ) && (#[trigger] final(self)@.selections[i]).cursor.0 == offset_at(
                        old(self)@.text,
                        trimmed_line(old(self)@.text, to.line as int),
                        to.column as int,
                    )) && final(self)@.selections[i] == old(self)@.selections[i].extended_to(
                    final(self)@.selections[i].cursor.0,
                ),
    {
        let ghost mut given: Seq<Position> = Seq::empty();
        let n = self.selection.selections.len();
        let mut moved: Vec<Selection> = Vec::new();
        let mut i: usize = 0;
        while i < n
            invariant
                i <= n,
                n == self@.selections.len(),
                *self == *old(self),
                self.wf(),
                forall|at: Position|
                    at.in_text(self@.text) ==> #[trigger] call_requires(f, (at, &self.text)),
                moved@.len() == i,
                all_within(moved@, self@.text.len()),
                given.len() == i,
                forall|k: int|
                    0 <= k < i ==> call_ensures(
                        f,
                        (
                            Position::of_offset(self@.text, self@.selections[k].cursor.0 as int),
                            &self.text,
                        ),
                        #[trigger] given[k],
                    ) && moved@[k].cursor.0 == offset_at(
                        self@.text,
                        trimmed_line(self@.text, given[k].line as int),
                        given[k].column as int,
                    ) && moved@[k] == self@.selections[k].extended_to(moved@[k].cursor.0),
            decreases n - i,
        {
            let sel = self.selection.selections[i];
            assert(self@.selections[i as int].cursor.0 <= self@.text.len());
            let to = f(sel.cursor.to_position(&self.text), &self.text);
            proof {
                given = given.push(to);
            }
            let cursor = to.trim_line_to_buf(&self.text).to_idx(&self.text);
            moved.push(
                (Selection {
                    anchor: sel.anchor,
                    cursor,
                    was_forward: sel.was_forward,
                }).update_last_direction(),
            );
            i += 1;
        }
        self.set_selections(moved);
        proof {
            assert forall|i: int| 0 <= i < old(self)@.selections.len() implies (exists|to: Position|
                call_ensures(
                    f,
                    (
                        Position::of_offset(
                            old(self)@.text,
                            old(self)@.selections[i].cursor.0 as int,
                        ),
                        &old(self).text,
                    ),
                    to,
                ) && (#[trigger] self@.selections[i]).cursor.0 == offset_at(
                    old(self)@.text,
                    trimmed_line(old(self)@.text, to.line as int),
                    to.column as int,
                )) && self@.selections[i] == old(self)@.selections[i].extended_to(
                self@.selections[i].cursor.0,
            ) by {
                let to = given[i];
                assert(call_ensures(
                    f,
                    (
                        Position::of_offset(
                            old(self)@.text,
                            old(self)@.selections[i].cursor.0 as int,
                        ),
                        &old(self).text,
                    ),
                    to,
                ));
            }
        }
    }

    /// Moves every cursor `n` characters back; stops at the start of the
    /// text.
    pub fn move_cursor_backward(&mut self, n: usize)
        requires
            old(self).wf(),
        ensures
            final(self)@ == old(self)@.spec_backward(n as int, false),
            final(self).wf(),
    {
        self.selection.clear_cursor_column();
        let back = |idx: Idx, text: &Rope| -> (r: Idx)
            requires
                idx.within(chars_of(*text)),
            ensures
                r.0 == if idx.0 <= n { 0 } else { idx.0 - n },
                r.within(chars_of(*text)),
            { idx.backward_n(n, text) };
        self.move_cursor(back);
        assert(self@.selections =~= old(self)@.spec_backward(n as int, false).selections);
        assert(self@.cursor_column =~= Seq::empty());
    }

    /// Moves every cursor `n` characters on; stops at the end of the text.
    pub fn move_cursor_forward(&mut self, n: usize)
        requires
            old(self).wf(),
        ensures
            final(self)@ == old(self)@.spec_forward(n as int, false),
            final(self).wf(),
    {
        self.selection.clear_cursor_column();
        let on = |idx: Idx, text: &Rope| -> (r: Idx)
            ensures
                r.0 == if idx.0 + n <= chars_of(*text).len() {
                    idx.0 + n
                } else {
                    chars_of(*text).len() as int
                },
                r.within(chars_of(*text)),
            { idx.forward_n(n, text) };
        self.move_cursor(on);
        assert(self@.selections =~= old(self)@.spec_forward(n as int, false).selections);
        assert(self@.cursor_column =~= Seq::empty());
    }

    /// Moves every cursor `n` lines down, to the column noted for it; stops
    /// in the last line.
    pub fn move_cursor_down(&mut self, n: usize)
        requires
            old(self).wf(),
        ensures
            final(self)@ == old(self)@.spec_vertical(n as int, true, false),
            final(self).wf(),
    {
        self.selection.maybe_save_cursor_column(&self.text);
        let ghost noted = self@;
        assert(noted == old(self)@.columns_noted());
        let down = |idx: Idx, column: Option<usize>, text: &Rope| -> (r: Idx)
            requires
                idx.within(chars_of(*text)),
            ensures
                r.0 == vertical_target(
                    chars_of(*text),
                    idx.0 as int,
                    line_of(chars_of(*text), idx.0 as int) + n,
                    column,
                ),
                r.within(chars_of(*text)),
            { idx.down_unaligned(n, column, text) };
        self.move_cursor_vertically_with_column(down);
        assert(self@.selections =~= old(self)@.spec_vertical(n as int, true, false).selections);
    }

    /// Moves every cursor `n` lines up, to the column noted for it; stops in
    /// the first line.
    pub fn move_cursor_up(&mut self, n: usize)
        requires
            old(self).wf(),
        ensures
            final(self)@ == old(self)@.spec_vertical(n as int, false, false),
            final(self).wf(),
    {
        self.selection.maybe_save_cursor_column(&self.text);
        let ghost noted = self@;
        assert(noted == old(self)@.columns_noted());
        let up = |idx: Idx, column: Option<usize>, text: &Rope| -> (r: Idx)
            requires
                idx.within(chars_of(*text)),
            ensures
                r.0 == vertical_target(
                    chars_of(*text),
                    idx.0 as int,
                    if line_of(chars_of(*text), idx.0 as int) <= n {
                        0
                    } else {
                        line_of(chars_of(*text), idx.0 as int) - n
                    },
                    column,
                ),
                r.within(chars_of(*text)),
            { idx.up_unaligned(n, column, text) };
        self.move_cursor_vertically_with_column(up);
        assert(self@.selections =~= old(self)@.spec_vertical(n as int, false, false).selections);
    }

    /// Extends every selection `n` lines down, to the column noted for it.
    pub fn extend_cursor_down(&mut self, n: usize)
        requires
            old(self).wf(),
        ensures
            final(self)@ == old(self)@.spec_vertical(n as int, true, true),
            final(self).wf(),
    {
        self.selection.maybe_save_cursor_column(&self.text);
        let ghost noted = self@;
        assert(noted == old(self)@.columns_noted());
        let down = |idx: Idx, column: Option<usize>, text: &Rope| -> (r: Idx)
            requires
                idx.within(chars_of(*text)),
            ensures
                r.0 == vertical_target(
                    chars_of(*text),
                    idx.0 as int,
                    line_of(chars_of(*text), idx.0 as int) + n,
                    column,
                ),
                r.within(chars_of(*text)),
            { idx.down_unaligned(n, column, text) };
        self.extend_cursor_with_column(down);
        assert(self@.selections =~= old(self)@.spec_vertical(n as int, true, true).selections);
    }

    /// Extends every selection `n` lines up, to the column noted for it.
    pub fn extend_cursor_up(&mut self, n: usize)
        requires
            old(self).wf(),
        ensures
            final(self)@ == old(self)@.spec_vertical(n as int, false, true),
            final(self).wf(),
    {
        self.selection.maybe_save_cursor_column(&self.text);
        let ghost noted = self@;
        assert(noted == old(self)@.columns_noted());
        let up = |idx: Idx, column: Option<usize>, text: &Rope| -> (r: Idx)
            requires
                idx.within(chars_of(*text)),
            ensures
                r.0 == vertical_target(
                    chars_of(*text),
                    idx.0 as int,
                    if line_of(chars_of(*text), idx.0 as int) <= n {
                        0
                    } else {
                        line_of(chars_of(*text), idx.0 as int) - n
                    },
                    column,
                ),
                r.within(chars_of(*text)),
            { idx.up_unaligned(n, column, text) };
        self.extend_cursor_with_column(up);
        assert(self@.selections =~= old(self)@.spec_vertical(n as int, false, true).selections);
    }

    /// Extends every selection `n` characters back.
    pub fn extend_cursor_backward(&mut self, n: usize)
        requires
            old(self).wf(),
        ensures
            final(self)@ == old(self)@.spec_backward(n as int, true),
            final(self).wf(),
    {
        self.selection.clear_cursor_column();
        let back = |idx: Idx, text: &Rope| -> (r: Idx)
            requires
                idx.within(chars_of(*text)),
            ensures
                r.0 == if idx.0 <= n { 0 } else { idx.0 - n },
                r.within(chars_of(*text)),
            { idx.backward_n(n, text) };
        self.extend_cursor(back);
        assert(self@.selections =~= old(self)@.spec_backward(n as int, true).selections);
        assert(self@.cursor_column =~= Seq::empty());
    }

    /// Extends every selection `n` characters on.
    pub fn extend_cursor_forward(&mut self, n: usize)
        requires
            old(self).wf(),
        ensures
            final(self)@ == old(self)@.spec_forward(n as int, true),
            final(self).wf(),
    {
        self.selection.clear_cursor_column();
        let on = |idx: Idx, text: &Rope| -> (r: Idx)
            ensures
                r.0 == if idx.0 + n <= chars_of(*text).len() {
                    idx.0 + n
                } else {
                    chars_of(*text).len() as int
                },
                r.within(chars_of(*text)),
            { idx.forward_n(n, text) };
        self.extend_cursor(on);
        assert(self@.selections =~= old(self)@.spec_forward(n as int, true).selections);
        assert(self@.cursor_column =~= Seq::empty());
    }

    /// Makes every selection span the word at or after its cursor, the
    /// cursor at the start of the word that follows.
    pub fn move_cursor_forward_word(&mut self)
        requires
            old(self).wf(),
        ensures
            final(self)@ == old(self)@.spec_forward_word(),
            final(self).wf(),
    {
        self.selection.clear_cursor_column();
        let word = |idx: Idx, text: &Rope| -> (r: (Idx, Idx))
            requires
                idx.within(chars_of(*text)),
            ensures
                r.0.0 == word_start_forward(chars_of(*text), idx.0 as int),
                r.1.0 == word_end_forward(chars_of(*text), idx.0 as int),
                r.0.within(chars_of(*text)),
                r.1.within(chars_of(*text)),
            { idx.forward_word(text) };
        self.move_cursor_2(word);
        assert(self@.selections =~= old(self)@.spec_forward_word().selections);
        assert(self@.cursor_column =~= Seq::empty());
    }

    /// Makes every selection span the word before its cursor, the cursor at
    /// the start of the word.
    pub fn move_cursor_backward_word(&mut self)
        requires
            old(self).wf(),
        ensures
            final(self)@ == old(self)@.spec_backward_word(),
            final(self).wf(),
    {
        self.selection.clear_cursor_column();
        let word = |idx: Idx, text: &Rope| -> (r: (Idx, Idx))
            requires
                idx.within(chars_of(*text)),
            ensures
                r.0.0 == word_start_backward(chars_of(*text), idx.0 as int),
                r.1.0 == word_end_backward(chars_of(*text), idx.0 as int),
                r.0.within(chars_of(*text)),
                r.1.within(chars_of(*text)),
            { idx.backward_word(text) };
        self.move_cursor_2(word);
        assert(self@.selections =~= old(self)@.spec_backward_word().selections);
        assert(self@.cursor_column =~= Seq::empty());
    }

    /// The position of the cursor of the first selection.
    pub fn cursor_coord(&self) -> (r: Position)
        requires
            self.wf(),
        ensures
            r == Position::of_offset(self@.text, self@.selections[0].cursor.0 as int),
            r.line == line_of(self@.text, self@.selections[0].cursor.0 as int),
            r.column == column_of(self@.text, self@.selections[0].cursor.0 as int),
    {
        assert(self@.selections[0].cursor.0 <= self@.text.len());
        self.selection.selections[0].cursor.to_position(&self.text)
    }

    /// Makes every selection span the line of its cursor, from the start of
    /// the line to behind its line feed.
    pub fn move_line(&mut self)
        requires
            old(self).wf(),
        ensures
            final(self)@ == old(self)@.spec_move_line(),
            final(self).wf(),
    {
        self.selection.clear_cursor_column();
        let line = |cursor: Idx, _anchor: Idx, text: &Rope| -> (r: (Idx, Idx))
            requires
                cursor.within(chars_of(*text)),
            ensures
                r.0.0 == spec_past_line_end(chars_of(*text), cursor.0 as int),
                r.1.0 == spec_line_begin(chars_of(*text), cursor.0 as int),
                r.0.within(chars_of(*text)),
                r.1.within(chars_of(*text)),
            { (cursor.forward_past_line_end(text), cursor.backward_to_line_start(text)) };
        self.change_selection(line);
        assert(self@.selections =~= old(self)@.spec_move_line().selections);
        assert(self@.cursor_column =~= Seq::empty());
    }

    /// Makes every selection grow to whole lines: the anchor comes to the
    /// start of the line of the selection's first end, and the cursor to
    /// behind the line of the cursor.
    pub fn extend_line(&mut self)
        requires
            old(self).wf(),
        ensures
            final(self)@ == old(self)@.spec_extend_line(),
            final(self).wf(),
    {
        self.selection.clear_cursor_column();
        let lines = |cursor: Idx, anchor: Idx, text: &Rope| -> (r: (Idx, Idx))
            requires
                cursor.within(chars_of(*text)),
                anchor.within(chars_of(*text)),
            ensures
                r.0.0 == spec_past_line_end(chars_of(*text), cursor.0 as int),
                r.1.0 == ({
                    let low = if anchor.0 <= cursor.0 {
                        anchor.0 as int
                    } else {
                        cursor.0 as int
                    };
                    if column_of(chars_of(*text), low) == 0 {
                        low
                    } else {
                        spec_line_begin(chars_of(*text), low)
                    }
                }),
                r.0.within(chars_of(*text)),
                r.1.within(chars_of(*text)),
            {
                let first = if anchor.0 <= cursor.0 {
                    anchor
                } else {
                    cursor
                };
                (
                    cursor.forward_past_line_end(text),
                    if first.to_position(text).column == 0 {
                        first
                    } else {
                        first.backward_to_line_start(text)
                    },
                )
            };
        self.change_selection(lines);
        assert(self@.selections =~= old(self)@.spec_extend_line().selections);
        assert(self@.cursor_column =~= Seq::empty());
    }

    /// Moves or extends every cursor to where `f` takes it, and forgets the
    /// columns noted for vertical movement. `target` says in contracts
    /// where `f` takes an offset.
    pub(crate) fn cursors_to<F: Fn(Idx, &Rope) -> Idx>(
        &mut self,
        f: F,
        extend: bool,
        Ghost(target): Ghost<spec_fn(int) -> int>,
    )
        requires
            old(self).wf(),
            forall|idx: Idx|
                idx.within(old(self)@.text) ==> #[trigger] call_requires(f, (idx, &old(self).text)),
            forall|idx: Idx, to: Idx|
                idx.within(old(self)@.text) && call_ensures(f, (idx, &old(self).text), to)
                    ==> to.within(old(self)@.text) && to.0 == target(idx.0 as int),
        ensures
            final(self)@ == old(self)@.cursors_to(target, extend),
            final(self).wf(),
    {
        self.selection.clear_cursor_column();
        assert(self@.cursor_column =~= Seq::empty());
        if extend {
            self.extend_cursor(f);
        } else {
            self.move_cursor(f);
        }
        assert(self@.selections =~= old(self)@.cursors_to(target, extend).selections);
    }
}

} // verus!
