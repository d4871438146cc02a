//! Operations on the selections as such: reversing them, dropping all but
//! one, selecting everything, and growing a selection to the brackets that
//! surround it.

use crate::buffer::{all_reversed, Buffer, BufferView, VisualSelection};
use crate::idx::brackets::{closing_after, one_back, one_on, opening_before, surrounding};
use crate::idx::Idx;
use crate::selection::Selection;
use vstd::prelude::*;

verus! {

/// The character at `idx` is selected by one of `sels`.
pub open spec fn inside_some(sels: Seq<Selection>, idx: usize) -> bool {
    exists|i: int| 0 <= i < sels.len() && (#[trigger] sels[i]).low() <= idx < sels[i].high()
}

/// The character at `idx` is the one that a caret among `sels` faces.
pub open spec fn marks_some(sels: Seq<Selection>, idx: usize) -> bool {
    exists|i: int|
        0 <= i < sels.len() && (#[trigger] sels[i]).anchor == sels[i].cursor && if sels[i].was_forward {
            sels[i].cursor.0 == idx
        } else {
            sels[i].cursor.0 == idx + 1
        }
}

/// The area that a selection from `low` to `high` grows to when the
/// surrounding brackets are sought: the inside of the nearest pair of
/// brackets around it. Where that is the selection itself, the search sets
/// out again one character further out on either side, and so finds the next
/// pair.
pub open spec fn inner_surrounding(t: Seq<char>, low: int, high: int) -> (int, int) {
    let found = surrounding(t, low, high);
    if found == (low, high) {
        surrounding(t, one_back(low), one_on(high, t.len() as int))
    } else {
        found
    }
}

/// The area that a selection from `low` to `high` expands to: from behind
/// the nearest bracket still open before it to the nearest bracket not yet
/// closed behind it, widened to take in the partner of each; and by one
/// character on either side where that is the selection itself.
pub open spec fn expanded_surrounding(t: Seq<char>, low: int, high: int) -> (int, int) {
    let left = match opening_before(t, low, Seq::empty()) {
        Some(at) => at,
        None => 0,
    };
    let right = match closing_after(t, high, Seq::empty()) {
        Some(at) => at,
        None => t.len() as int,
    };
    let counter_left = match opening_before(t, right, Seq::empty()) {
        Some(at) => at,
        None => 0,
    };
    let counter_right = match closing_after(t, left, Seq::empty()) {
        Some(at) => at,
        None => t.len() as int,
    };
    let first = if left <= counter_left {
        left
    } else {
        counter_left
    };
    let last = if right >= counter_right {
        right
    } else {
        counter_right
    };
    if first == low && last == high {
        (one_back(first), one_on(last, t.len() as int))
    } else {
        (first, last)
    }
}

/// A selection never shrinks when it grows to the brackets that surround
/// it: the area it grows to takes in all that was selected.
pub proof fn lemma_inner_surrounding_encloses(t: Seq<char>, low: int, high: int)
    requires
        0 <= low <= high <= t.len() <= usize::MAX,
    ensures
        0 <= inner_surrounding(t, low, high).0 <= low,
        high <= inner_surrounding(t, low, high).1 <= t.len(),
{
    crate::idx::brackets::lemma_surrounding_encloses(t, low, high);
    crate::idx::brackets::lemma_surrounding_encloses(
        t,
        one_back(low),
        one_on(high, t.len() as int),
    );
}

/// The selection over the area from `first` to `last`, facing the way `sel`
/// faces.
pub open spec fn facing_as(sel: Selection, first: usize, last: usize) -> Selection {
    if sel.faces_forward() {
        Selection { anchor: Idx(first), cursor: Idx(last), was_forward: true }
    } else {
        Selection { anchor: Idx(last), cursor: Idx(first), was_forward: false }
    }
}

impl BufferView {
    /// How the character at `idx` is to be shown: as selected where a
    /// selection holds it, else as a direction marker where a caret faces
    /// it, else plainly.
    pub open spec fn shown_as(self, idx: usize) -> VisualSelection {
        if inside_some(self.selections, idx) {
            VisualSelection::Selection
        } else if marks_some(self.selections, idx) {
            VisualSelection::DirectionMarker
        } else {
            VisualSelection::Unselected
        }
    }

    /// The buffer with one selection over the whole text, facing the way
    /// the primary selection faced.
    pub open spec fn spec_select_all(self) -> BufferView {
        BufferView {
            selections: seq![
                facing_as(self.selections[self.primary as int], 0, self.text.len() as usize),
            ],
            primary: 0,
            cursor_column: Seq::empty(),
            ..self
        }
    }

    /// The buffer with the primary selection alone where there were
    /// several, and with the one selection made a caret where there was one.
    pub open spec fn spec_collapse(self) -> BufferView {
        BufferView {
            selections: seq![
                if self.selections.len() > 1 {
                    self.selections[self.primary as int]
                } else {
                    self.selections[self.primary as int].spec_collapsed()
                },
            ],
            primary: 0,
            cursor_column: Seq::empty(),
            ..self
        }
    }

    /// The buffer with every selection grown to the inside of the brackets
    /// that surround it.
    pub open spec fn spec_select_inner_surrounding(self) -> BufferView {
        self.reselected(
            Seq::new(
                self.selections.len(),
                |i: int|
                    {
                        let area = inner_surrounding(
                            self.text,
                            self.selections[i].low() as int,
                            self.selections[i].high() as int,
                        );
                        facing_as(self.selections[i], area.0 as usize, area.1 as usize)
                    },
            ),
        )
    }

    /// The buffer with every selection expanded to the brackets around it.
    pub open spec fn spec_expand_inner_surrounding(self) -> BufferView {
        self.reselected(
            Seq::new(
                self.selections.len(),
                |i: int|
                    {
                        let area = expanded_surrounding(
                            self.text,
                            self.selections[i].low() as int,
                            self.selections[i].high() as int,
                        );
                        facing_as(self.selections[i], area.0 as usize, area.1 as usize)
                    },
            ),
        )
    }
}

impl Buffer {
    /// How the character at `idx` is to be shown.
    pub fn idx_selection_type(&self, idx: Idx) -> (r: VisualSelection)
        ensures
            r == self@.shown_as(idx.0),
    {
        let n = self.selection.selections.len();
        let mut i: usize = 0;
        while i < n
            invariant
                i <= n,
                n == self@.selections.len(),
                forall|k: int|
                    0 <= k < i ==> !((#[trigger] self@.selections[k]).low() <= idx.0
                        < self@.selections[k].high()),
            decreases n - i,
        {
            if self.selection.selections[i].is_idx_strictly_inside(idx) {
                return VisualSelection::Selection;
            }
            i += 1;
        }
        let mut j: usize = 0;
        while j < n
            invariant
                j <= n,
                n == self@.selections.len(),
                !inside_some(self@.selections, idx.0),
                forall|k: int|
                    0 <= k < j ==> !((#[trigger] self@.selections[k]).anchor
                        == self@.selections[k].cursor && if self@.selections[k].was_forward {
                        self@.selections[k].cursor.0 == idx.0
                    } else {
                        self@.selections[k].cursor.0 == idx.0 + 1
                    }),
            decreases n - j,
        {
            let sel = self.selection.selections[j];
            if sel.is_empty() && sel.is_idx_inside_direction_marker(idx) {
                return VisualSelection::DirectionMarker;
            }
            j += 1;
        }
        VisualSelection::Unselected
    }

    /// Exchanges the anchor and the cursor of every selection.
    pub fn reverse_selections(&mut self)
        requires
            old(self).wf(),
        ensures
            final(self)@ == old(self)@.reselected(all_reversed(old(self)@.selections)),
            final(self).wf(),
    {
        self.selection.clear_cursor_column();
        assert(self@.cursor_column =~= Seq::empty());
        let n = self.selection.selections.len();
        let mut i: usize = 0;
        while i < n
            invariant
                i <= n,
                n == self@.selections.len(),
                n == old(self)@.selections.len(),
                old(self).wf(),
                self@.cursor_column.len() == 0,
                self@ == old(self)@.reselected(self@.selections),
                forall|k: int|
                    0 <= k < i ==> (#[trigger] self.selection.selections@[k]) == old(
                        self,
                    )@.selections[k].spec_reversed(),
                forall|k: int|
                    i <= k < n ==> (#[trigger] self.selection.selections@[k]) == old(
                        self,
                    )@.selections[k],
            decreases n - i,
        {
            let reversed = self.selection.selections[i].reversed();
            self.selection.selections.set(i, reversed);
            assert(self@.cursor_column =~= Seq::empty());
            i += 1;
        }
        proof {
            assert(self@.selections =~= all_reversed(old(self)@.selections));
            assert forall|k: int| 0 <= k < self@.selections.len() implies (
            #[trigger] self@.selections[k]).anchor.0 <= self@.text.len()
                && self@.selections[k].cursor.0 <= self@.text.len() by {
                assert(old(self)@.selections[k].cursor.0 <= old(self)@.text.len());
            }
        }
    }

    /// Replaces the selections by one over the whole text, facing the way
    /// the primary selection faced.
    pub fn select_all(&mut self)
        requires
            old(self).wf(),
        ensures
            final(self)@ == old(self)@.spec_select_all(),
            final(self).wf(),
    {
        let forward = self.selection.selections[self.selection.primary].is_forward();
        let end = Idx::end(&self.text);
        let all = if forward {
            Selection { anchor: Idx(0), cursor: end, was_forward: true }
        } else {
            Selection { cursor: Idx(0), anchor: end, was_forward: false }
        };
        let mut selections: Vec<Selection> = Vec::new();
        selections.push(all);
        self.selection.selections = selections;
        self.selection.primary = 0;
        self.selection.clear_cursor_column();
        assert(self@.selections =~= old(self)@.spec_select_all().selections);
        assert(self@.cursor_column =~= Seq::empty());
    }

    /// Drops all selections but the primary one; where there is only one,
    /// makes it a caret at its cursor.
    pub fn collapse(&mut self)
        requires
            old(self).wf(),
        ensures
            final(self)@ == old(self)@.spec_collapse(),
            final(self).wf(),
    {
        let primary = self.selection.selections[self.selection.primary];
        assert(old(self)@.selections[old(self)@.primary as int].cursor.0 <= old(self)@.text.len());
        let kept = if self.selection.selections.len() > 1 {
            primary
        } else {
            primary.collapsed()
        };
        let mut selections: Vec<Selection> = Vec::new();
        selections.push(kept);
        self.selection.selections = selections;
        self.selection.primary = 0;
        self.selection.clear_cursor_column();
        assert(self@.selections =~= old(self)@.spec_collapse().selections);
        assert(self@.cursor_column =~= Seq::empty());
    }

    /// Grows every selection to the inside of the nearest pair of brackets
    /// or quotes around it, and to the whole text where there is none. A
    /// selection that fills the inside of its brackets already grows to the
    /// inside of the next pair out.
    pub fn select_inner_surrounding(&mut self)
        requires
            old(self).wf(),
        ensures
            final(self)@ == old(self)@.spec_select_inner_surrounding(),
            final(self).wf(),
    {
        self.selection.clear_cursor_column();
        assert(self@.cursor_column =~= Seq::empty());
        let n = self.selection.selections.len();
        let mut i: usize = 0;
        while i < n
            invariant
                i <= n,
                n == self@.selections.len(),
                n == old(self)@.selections.len(),
                old(self).wf(),
                self@ == old(self)@.reselected(self@.selections),
                forall|k: int|
                    0 <= k < i ==> (#[trigger] self.selection.selections@[k])
                        == old(self)@.spec_select_inner_surrounding().selections[k]
                        && self.selection.selections@[k].anchor.0 <= self@.text.len()
                        && self.selection.selections@[k].cursor.0 <= self@.text.len(),
                forall|k: int|
                    i <= k < n ==> (#[trigger] self.selection.selections@[k]) == old(
                        self,
                    )@.selections[k],
            decreases n - i,
        {
            let sel = self.selection.selections[i];
            assert(old(self)@.selections[i as int].cursor.0 <= old(self)@.text.len());
            let (start_left, start_right) = sel.sorted_pair();
            let (mut left, mut right) = Idx::surrounding_area(start_left, start_right, &self.text);
            if left.0 == start_left.0 && right.0 == start_right.0 {
                let area = Idx::surrounding_area(
                    start_left.backward(&self.text),
                    start_right.forward(&self.text),
                    &self.text,
                );
                left = area.0;
                right = area.1;
            }
            let grown = sel.unify_direction_of(Selection::new_from_normalized(left, right));
            self.selection.selections.set(i, grown);
            assert(self@.cursor_column =~= Seq::empty());
            i += 1;
        }
        assert(self@.selections =~= old(self)@.spec_select_inner_surrounding().selections);
    }

    /// Expands every selection to the brackets or quotes around it: from
    /// behind the nearest one still open before the selection to the nearest
    /// one not yet closed behind it.
    pub fn expand_inner_surrounding(&mut self)
        requires
            old(self).wf(),
        ensures
            final(self)@ == old(self)@.spec_expand_inner_surrounding(),
            final(self).wf(),
    {
        self.selection.clear_cursor_column();
        assert(self@.cursor_column =~= Seq::empty());
        let n = self.selection.selections.len();
        let mut i: usize = 0;
        while i < n
            invariant
                i <= n,
                n == self@.selections.len(),
                n == old(self)@.selections.len(),
                old(self).wf(),
                self@ == old(self)@.reselected(self@.selections),
                forall|k: int|
                    0 <= k < i ==> (#[trigger] self.selection.selections@[k])
                        == old(self)@.spec_expand_inner_surrounding().selections[k]
                        && self.selection.selections@[k].anchor.0 <= self@.text.len()
                        && self.selection.selections@[k].cursor.0 <= self@.text.len(),
                forall|k: int|
                    i <= k < n ==> (#[trigger] self.selection.selections@[k]) == old(
                        self,
                    )@.selections[k],
            decreases n - i,
        {
            let sel = self.selection.selections[i];
            assert(old(self)@.selections[i as int].cursor.0 <= old(self)@.text.len());
            let (start_left, start_right) = sel.sorted_pair();
            let left = match start_left.to_after_indent_opening_char(&self.text) {
                Some(at) => at,
                None => Idx::begining(&self.text),
            };
            let right = match start_right.to_before_indent_closing_char(&self.text) {
                Some(at) => at,
                None => Idx::end(&self.text),
            };
            let counter_left = match right.to_after_indent_opening_char(&self.text) {
                Some(at) => at,
                None => Idx::begining(&self.text),
            };
            let counter_right = match left.to_before_indent_closing_char(&self.text) {
                Some(at) => at,
                None => Idx::end(&self.text),
            };
            let mut first = if left.0 <= counter_left.0 {
                left
            } else {
                counter_left
            };
            let mut last = if right.0 >= counter_right.0 {
                right
            } else {
                counter_right
            };
            if first.0 == start_left.0 && last.0 == start_right.0 {
                first = first.backward(&self.text);
                last = last.forward(&self.text);
            }
            let grown = if sel.is_forward() {
                Selection { anchor: first, cursor: last, was_forward: true }
            } else {
                Selection { cursor: first, anchor: last, was_forward: false }
            };
            self.selection.selections.set(i, grown);
            assert(self@.cursor_column =~= Seq::empty());
            i += 1;
        }
        assert(self@.selections =~= old(self)@.spec_expand_inner_surrounding().selections);
    }
}

} // verus!
