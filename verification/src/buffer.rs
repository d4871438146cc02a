//! The buffer: a text, the selections on it, and the settings that shape
//! edits. Every edit acts on all selections in one step and leaves each of
//! them where the text it marked has come to stand.

pub mod edit;
pub mod fixup;
pub mod motion;
pub mod order;
pub mod select;

use crate::idx::Idx;
use crate::position::line_of;
use crate::selection::Selection;
use crate::text::{chars_of, inserted, line_count, remove_range, removed, same_text};
use ropey::Rope;
use vstd::prelude::*;

verus! {

/// How a character of the text is to be shown.
#[derive(Debug, Copy, Clone, PartialEq, Eq, Structural)]
pub enum VisualSelection {
    /// The character marks the direction of a selection.
    DirectionMarker,
    /// The character is selected.
    Selection,
    /// Neither.
    Unselected,
}

/// The distance from a column to the next tab stop, where the tab stops are
/// `tabstop` columns apart: between 1 and `tabstop`.
pub open spec fn spec_distance_to_next_tabstop(visual_column: int, tabstop: int) -> int {
    tabstop - visual_column % tabstop
}

/// The distance from a column back to the tab stop before it: between 1 and
/// `tabstop`, and 0 at column 0.
pub open spec fn spec_distance_to_prev_tabstop(visual_column: int, tabstop: int) -> int {
    if visual_column <= 0 {
        0
    } else {
        (visual_column - 1) % tabstop + 1
    }
}

/// The number of columns from `visual_column` to the next tab stop.
pub fn distance_to_next_tabstop(visual_column: usize, tabstop: usize) -> (r: usize)
    requires
        tabstop > 0,
    ensures
        r == spec_distance_to_next_tabstop(visual_column as int, tabstop as int),
        visual_column + r == (visual_column + tabstop) / (tabstop as int) * tabstop,
        1 <= r <= tabstop,
{
    proof {
        let v = visual_column as int;
        let ts = tabstop as int;
        vstd::arithmetic::div_mod::lemma_fundamental_div_mod(v, ts);
        vstd::arithmetic::div_mod::lemma_mod_bound(v, ts);
        assert((v / ts + 1) * ts == (v / ts) * ts + ts) by (nonlinear_arith);
        assert(ts * (v / ts) == (v / ts) * ts) by (nonlinear_arith);
        vstd::arithmetic::div_mod::lemma_fundamental_div_mod_converse(
            v + ts,
            ts,
            v / ts + 1,
            v % ts,
        );
    }
    tabstop - visual_column % tabstop
}

/// The number of columns from `visual_column` back to the tab stop before
/// it.
pub fn distance_to_prev_tabstop(visual_column: usize, tabstop: usize) -> (r: usize)
    requires
        tabstop > 0,
    ensures
        r == spec_distance_to_prev_tabstop(visual_column as int, tabstop as int),
        visual_column > 0 ==> visual_column - r == (visual_column - 1) / (tabstop as int)
            * tabstop,
        r <= tabstop,
        r <= visual_column,
{
    if visual_column == 0 {
        return 0;
    }
    proof {
        let v = visual_column as int - 1;
        let ts = tabstop as int;
        vstd::arithmetic::div_mod::lemma_fundamental_div_mod(v, ts);
        vstd::arithmetic::div_mod::lemma_mod_bound(v, ts);
        assert(ts * (v / ts) == (v / ts) * ts) by (nonlinear_arith);
    }
    (visual_column - 1) % tabstop + 1
}

/// The width in columns of the characters `s` shown from column 0: a tab
/// reaches to the next tab stop, any other character takes one column. The
/// width stops at the largest that `usize` can hold.
pub open spec fn visual_width(s: Seq<char>, tabstop: int) -> int
    decreases s.len(),
{
    if s.len() == 0 {
        0
    } else {
        let before = visual_width(s.drop_last(), tabstop);
        let wide = if s.last() == '\t' {
            before + spec_distance_to_next_tabstop(before, tabstop)
        } else {
            before + 1
        };
        if wide <= usize::MAX {
            wide
        } else {
            usize::MAX as int
        }
    }
}

/// The selections of a buffer: one or more, one of them the primary one, and
/// for each the column that vertical movement aims for.
#[derive(Debug, Clone, PartialEq, Eq)]
pub struct SelectionSet {
    /// The index of the selection that stays when the others are dropped.
    pub primary: usize,
    pub selections: Vec<Selection>,
    /// Empty, or for each selection the column that its cursor had when
    /// vertical movement began: the column the cursor returns to in each
    /// line long enough, however short the lines in between.
    pub cursor_column: Vec<usize>,
}

pub open spec fn all_fixed_on_insert(sels: Seq<Selection>, at: usize, len: usize) -> Seq<
    Selection,
> {
    Seq::new(sels.len(), |i: int| sels[i].fixed_on_insert(at, len))
}

pub open spec fn all_fixed_on_delete(sels: Seq<Selection>, at: usize, len: usize) -> Seq<
    Selection,
> {
    Seq::new(sels.len(), |i: int| sels[i].fixed_on_delete(at, len))
}

pub open spec fn all_collapsed(sels: Seq<Selection>) -> Seq<Selection> {
    Seq::new(sels.len(), |i: int| sels[i].spec_collapsed())
}

pub open spec fn all_sorted(sels: Seq<Selection>) -> Seq<Selection> {
    Seq::new(sels.len(), |i: int| sels[i].spec_sorted())
}

pub open spec fn all_reversed(sels: Seq<Selection>) -> Seq<Selection> {
    Seq::new(sels.len(), |i: int| sels[i].spec_reversed())
}

/// Every selection lies within a text of `len` characters.
pub open spec fn all_within(sels: Seq<Selection>, len: nat) -> bool {
    forall|i: int| 0 <= i < sels.len() ==> (#[trigger] sels[i]).anchor.0 <= len && sels[i].cursor.0 <= len
}

/// The cursors of the selections.
pub open spec fn cursors_of(sels: Seq<Selection>) -> Seq<usize> {
    Seq::new(sels.len(), |i: int| sels[i].cursor.0)
}

impl Default for SelectionSet {
    /// One caret at the start of the text.
    fn default() -> (r: SelectionSet)
        ensures
            r.selections@ == seq![Selection { anchor: Idx(0), cursor: Idx(0), was_forward: true }],
            r.primary == 0,
            r.cursor_column@.len() == 0,
            r.wf(),
    {
        let mut selections = Vec::new();
        selections.push(Selection::default());
        SelectionSet { selections, primary: 0, cursor_column: Vec::new() }
    }
}

impl SelectionSet {
    /// There is at least one selection, and the primary one is among them.
    pub open spec fn wf(&self) -> bool {
        self.primary < self.selections@.len()
    }

    /// The lines of `t` that the selections touch, as a set.
    pub open spec fn spec_lines(&self, t: Seq<char>) -> Set<usize> {
        Set::new(|line: usize| touches(self.selections@, t, line as int))
    }

    /// The lines of `text` that the selections touch, in ascending order.
    pub fn touched_lines(&self, text: &Rope) -> (lines: Vec<usize>)
        requires
            all_within(self.selections@, chars_of(*text).len()),
        ensures
            lines@ == touched_below(
                self.selections@,
                chars_of(*text),
                line_count(chars_of(*text)) as int,
            ),
            line_count(chars_of(*text)) <= usize::MAX,
    {
        let ghost t = chars_of(*text);
        let n = self.selections.len();
        let mut firsts: Vec<usize> = Vec::new();
        let mut lasts: Vec<usize> = Vec::new();
        let mut i: usize = 0;
        while i < n
            invariant
                i <= n,
                n == self.selections@.len(),
                t == chars_of(*text),
                all_within(self.selections@, t.len()),
                firsts@.len() == i,
                lasts@.len() == i,
                forall|k: int|
                    0 <= k < i ==> (#[trigger] firsts@[k]) == line_of(
                        t,
                        self.selections@[k].low() as int,
                    ),
                forall|k: int|
                    0 <= k < i ==> (#[trigger] lasts@[k]) == line_of(
                        t,
                        last_touched(self.selections@[k]),
                    ),
            decreases n - i,
        {
            assert(self.selections@[i as int].cursor.0 <= t.len());
            let (from, to) = self.selections[i].sorted_pair();
            let before_to = to.backward(text);
            let last = if from.0 <= before_to.0 {
                before_to
            } else {
                from
            };
            firsts.push(from.to_position(text).line);
            lasts.push(last.to_position(text).line);
            i += 1;
        }
        let count = text.len_lines();
        let mut lines: Vec<usize> = Vec::new();
        let mut line: usize = 0;
        while line < count
            invariant
                line <= count,
                count == line_count(t),
                n == self.selections@.len(),
                firsts@.len() == n,
                lasts@.len() == n,
                forall|k: int|
                    0 <= k < n ==> (#[trigger] firsts@[k]) == line_of(
                        t,
                        self.selections@[k].low() as int,
                    ),
                forall|k: int|
                    0 <= k < n ==> (#[trigger] lasts@[k]) == line_of(
                        t,
                        last_touched(self.selections@[k]),
                    ),
                lines@ == touched_below(self.selections@, t, line as int),
            decreases count - line,
        {
            let mut touched = false;
            let mut k: usize = 0;
            while k < n && !touched
                invariant
                    k <= n,
                    n == self.selections@.len(),
                    firsts@.len() == n,
                    lasts@.len() == n,
                    forall|j: int|
                        0 <= j < n ==> (#[trigger] firsts@[j]) == line_of(
                            t,
                            self.selections@[j].low() as int,
                        ),
                    forall|j: int|
                        0 <= j < n ==> (#[trigger] lasts@[j]) == line_of(
                            t,
                            last_touched(self.selections@[j]),
                        ),
                    touched ==> touches(self.selections@, t, line as int),
                    !touched ==> forall|j: int|
                        0 <= j < k ==> !selection_touches(
                            #[trigger] self.selections@[j],
                            t,
                            line as int,
                        ),
                decreases n - k + if touched { 0int } else { 1int },
            {
                if firsts[k] <= line && line <= lasts[k] {
                    touched = true;
                    assert(selection_touches(self.selections@[k as int], t, line as int));
                } else {
                    k += 1;
                }
            }
            if touched {
                lines.push(line);
            }
            line += 1;
        }
        lines
    }

    /// The lines of `text` that the selections touch: for each selection,
    /// the lines from that of its first character to that of its last; for a
    /// caret, the line it stands in.
    pub fn to_lines(&self, text: &Rope) -> (lines: std::collections::BTreeSet<usize>)
        requires
            all_within(self.selections@, chars_of(*text).len()),
        ensures
            lines@ == self.spec_lines(chars_of(*text)),
    {
        broadcast use vstd::std_specs::btree::group_btree_axioms;

        let ghost t = chars_of(*text);
        let listed = self.touched_lines(text);
        let mut lines: std::collections::BTreeSet<usize> = std::collections::BTreeSet::new();
        let mut k: usize = 0;
        while k < listed.len()
            invariant
                k <= listed@.len(),
                lines@ == listed@.subrange(0, k as int).to_set(),
            decreases listed@.len() - k,
        {
            let _ = lines.insert(listed[k]);
            proof {
                assert(listed@.subrange(0, k + 1) =~= listed@.subrange(0, k as int).push(
                    listed@[k as int],
                ));
                listed@.subrange(0, k as int).lemma_push_to_set_commute(listed@[k as int]);
            }
            k += 1;
        }
        proof {
            assert(listed@.subrange(0, listed@.len() as int) =~= listed@);
            lemma_touched_below(self.selections@, t, line_count(t) as int);
            assert forall|line: usize| self.spec_lines(t).contains(line) implies listed@.contains(
                line,
            ) by {
                lemma_touches_in_text(self.selections@, t, line as int);
            }
            assert(lines@ =~= self.spec_lines(t));
        }
        lines
    }

    /// Moves every selection to where it stands after `len` characters are
    /// put in at `idx`.
    pub fn fix_on_insert(&mut self, idx: Idx, len: usize)
        ensures
            final(self).selections@ == all_fixed_on_insert(old(self).selections@, idx.0, len),
            final(self).primary == old(self).primary,
            final(self).cursor_column == old(self).cursor_column,
    {
        let n = self.selections.len();
        let mut i: usize = 0;
        while i < n
            invariant
                i <= n,
                n == self.selections@.len(),
                n == old(self).selections@.len(),
                self.primary == old(self).primary,
                self.cursor_column == old(self).cursor_column,
                forall|k: int|
                    0 <= k < i ==> self.selections@[k] == old(self).selections@[k].fixed_on_insert(
                        idx.0,
                        len,
                    ),
                forall|k: int| i <= k < n ==> self.selections@[k] == old(self).selections@[k],
            decreases n - i,
        {
            let fixed = self.selections[i].fix_on_insert(idx, len);
            self.selections.set(i, fixed);
            i += 1;
        }
        assert(self.selections@ =~= all_fixed_on_insert(old(self).selections@, idx.0, len));
    }

    /// Moves every selection to where it stands after the `len` characters
    /// from `idx` on are taken out.
    pub fn fix_on_delete(&mut self, idx: Idx, len: usize, _text: &Rope)
        ensures
            final(self).selections@ == all_fixed_on_delete(old(self).selections@, idx.0, len),
            final(self).primary == old(self).primary,
            final(self).cursor_column == old(self).cursor_column,
    {
        let n = self.selections.len();
        let mut i: usize = 0;
        while i < n
            invariant
                i <= n,
                n == self.selections@.len(),
                n == old(self).selections@.len(),
                self.primary == old(self).primary,
                self.cursor_column == old(self).cursor_column,
                forall|k: int|
                    0 <= k < i ==> self.selections@[k] == old(self).selections@[k].fixed_on_delete(
                        idx.0,
                        len,
                    ),
                forall|k: int| i <= k < n ==> self.selections@[k] == old(self).selections@[k],
            decreases n - i,
        {
            let fixed = self.selections[i].fix_on_delete(idx, len);
            self.selections.set(i, fixed);
            i += 1;
        }
        assert(self.selections@ =~= all_fixed_on_delete(old(self).selections@, idx.0, len));
    }

    /// Notes the column of each cursor as the one to aim for, unless columns
    /// are noted already.
    pub fn maybe_save_cursor_column(&mut self, text: &Rope)
        requires
            all_within(old(self).selections@, chars_of(*text).len()),
        ensures
            final(self).selections == old(self).selections,
            final(self).primary == old(self).primary,
            final(self).cursor_column@ == if old(self).cursor_column@.len() == 0 {
                Seq::new(
                    old(self).selections@.len(),
                    |i: int|
                        crate::position::column_of(
                            chars_of(*text),
                            old(self).selections@[i].cursor.0 as int,
                        ) as usize,
                )
            } else {
                old(self).cursor_column@
            },
    {
        if self.cursor_column.len() == 0 {
            let n = self.selections.len();
            let mut columns: Vec<usize> = Vec::new();
            let mut i: usize = 0;
            while i < n
                invariant
                    i <= n,
                    n == self.selections@.len(),
                    self.selections == old(self).selections,
                    all_within(self.selections@, chars_of(*text).len()),
                    columns@.len() == i,
                    forall|k: int|
                        0 <= k < i ==> columns@[k] == crate::position::column_of(
                            chars_of(*text),
                            self.selections@[k].cursor.0 as int,
                        ) as usize,
                decreases n - i,
            {
                columns.push(self.selections[i].cursor.to_position(text).column);
                i += 1;
            }
            self.cursor_column = columns;
            assert(self.cursor_column@ =~= Seq::new(
                old(self).selections@.len(),
                |i: int|
                    crate::position::column_of(
                        chars_of(*text),
                        old(self).selections@[i].cursor.0 as int,
                    ) as usize,
            ));
        }
    }

    /// Forgets the columns noted for vertical movement.
    pub fn clear_cursor_column(&mut self)
        ensures
            final(self).selections == old(self).selections,
            final(self).primary == old(self).primary,
            final(self).cursor_column@.len() == 0,
    {
        self.cursor_column.clear();
    }

    /// Makes every selection a caret at its cursor.
    pub fn collapse(&mut self)
        ensures
            final(self).selections@ == all_collapsed(old(self).selections@),
            final(self).primary == old(self).primary,
            final(self).cursor_column == old(self).cursor_column,
    {
        let n = self.selections.len();
        let mut i: usize = 0;
        while i < n
            invariant
                i <= n,
                n == self.selections@.len(),
                n == old(self).selections@.len(),
                self.primary == old(self).primary,
                self.cursor_column == old(self).cursor_column,
                forall|k: int|
                    0 <= k < i ==> self.selections@[k] == old(self).selections@[k].spec_collapsed(),
                forall|k: int| i <= k < n ==> self.selections@[k] == old(self).selections@[k],
            decreases n - i,
        {
            let collapsed = self.selections[i].collapsed();
            self.selections.set(i, collapsed);
            i += 1;
        }
        assert(self.selections@ =~= all_collapsed(old(self).selections@));
    }

    /// Turns every selection to face forward.
    pub fn sort(&mut self)
        ensures
            final(self).selections@ == all_sorted(old(self).selections@),
            final(self).primary == old(self).primary,
            final(self).cursor_column == old(self).cursor_column,
    {
        let n = self.selections.len();
        let mut i: usize = 0;
        while i < n
            invariant
                i <= n,
                n == self.selections@.len(),
                n == old(self).selections@.len(),
                self.primary == old(self).primary,
                self.cursor_column == old(self).cursor_column,
                forall|k: int|
                    0 <= k < i ==> self.selections@[k] == old(self).selections@[k].spec_sorted(),
                forall|k: int| i <= k < n ==> self.selections@[k] == old(self).selections@[k],
            decreases n - i,
        {
            let sorted = self.selections[i].sorted();
            self.selections.set(i, sorted);
            i += 1;
        }
        assert(self.selections@ =~= all_sorted(old(self).selections@));
    }

    /// Whether the two sets hold the same selections, the same primary one,
    /// and the same columns noted.
    pub fn same_as(&self, other: &SelectionSet) -> (r: bool)
        ensures
            r == (self.selections@ == other.selections@ && self.primary == other.primary
                && self.cursor_column@ == other.cursor_column@),
    {
        if self.primary != other.primary || self.selections.len() != other.selections.len()
            || self.cursor_column.len() != other.cursor_column.len() {
            return false;
        }
        let n = self.selections.len();
        let mut i: usize = 0;
        while i < n
            invariant
                i <= n,
                n == self.selections@.len(),
                n == other.selections@.len(),
                forall|k: int| 0 <= k < i ==> self.selections@[k] == other.selections@[k],
            decreases n - i,
        {
            if self.selections[i] != other.selections[i] {
                return false;
            }
            i += 1;
        }
        assert(self.selections@ =~= other.selections@);
        let m = self.cursor_column.len();
        let mut j: usize = 0;
        while j < m
            invariant
                j <= m,
                m == self.cursor_column@.len(),
                m == other.cursor_column@.len(),
                forall|k: int| 0 <= k < j ==> self.cursor_column@[k] == other.cursor_column@[k],
            decreases m - j,
        {
            if self.cursor_column[j] != other.cursor_column[j] {
                return false;
            }
            j += 1;
        }
        assert(self.cursor_column@ =~= other.cursor_column@);
        true
    }

    /// A copy of the set.
    pub fn duplicate(&self) -> (r: SelectionSet)
        ensures
            r.selections@ == self.selections@,
            r.primary == self.primary,
            r.cursor_column@ == self.cursor_column@,
    {
        let mut selections: Vec<Selection> = Vec::new();
        let n = self.selections.len();
        let mut i: usize = 0;
        while i < n
            invariant
                i <= n,
                n == self.selections@.len(),
                selections@ == self.selections@.subrange(0, i as int),
            decreases n - i,
        {
            selections.push(self.selections[i]);
            assert(self.selections@.subrange(0, i + 1) =~= self.selections@.subrange(
                0,
                i as int,
            ).push(self.selections@[i as int]));
            i += 1;
        }
        assert(self.selections@.subrange(0, n as int) =~= self.selections@);
        let mut cursor_column: Vec<usize> = Vec::new();
        let m = self.cursor_column.len();
        let mut j: usize = 0;
        while j < m
            invariant
                j <= m,
                m == self.cursor_column@.len(),
                cursor_column@ == self.cursor_column@.subrange(0, j as int),
            decreases m - j,
        {
            cursor_column.push(self.cursor_column[j]);
            assert(self.cursor_column@.subrange(0, j + 1) =~= self.cursor_column@.subrange(
                0,
                j as int,
            ).push(self.cursor_column@[j as int]));
            j += 1;
        }
        assert(self.cursor_column@.subrange(0, m as int) =~= self.cursor_column@);
        SelectionSet { primary: self.primary, selections, cursor_column }
    }
}

/// The offset of the last character that a selection touches: the character
/// before its larger end; for a caret, its own offset.
pub open spec fn last_touched(sel: Selection) -> int {
    if sel.low() < sel.high() {
        sel.high() - 1
    } else {
        sel.low() as int
    }
}

/// The selection touches line `line` of `t`: the line lies between that of
/// its first character and that of its last.
pub open spec fn selection_touches(sel: Selection, t: Seq<char>, line: int) -> bool {
    line_of(t, sel.low() as int) <= line <= line_of(t, last_touched(sel))
}

/// One of the selections touches line `line` of `t`.
pub open spec fn touches(sels: Seq<Selection>, t: Seq<char>, line: int) -> bool {
    exists|i: int| 0 <= i < sels.len() && selection_touches(#[trigger] sels[i], t, line)
}

/// The lines before line `n` that the selections touch, in ascending order.
pub open spec fn touched_below(sels: Seq<Selection>, t: Seq<char>, n: int) -> Seq<usize>
    decreases n,
{
    if n <= 0 {
        Seq::empty()
    } else if touches(sels, t, n - 1) {
        touched_below(sels, t, n - 1).push((n - 1) as usize)
    } else {
        touched_below(sels, t, n - 1)
    }
}

/// The list holds just the touched lines before `n`, each once, in
/// ascending order.
pub proof fn lemma_touched_below(sels: Seq<Selection>, t: Seq<char>, n: int)
    requires
        0 <= n <= usize::MAX,
    ensures
        forall|k: int|
            0 <= k < touched_below(sels, t, n).len() ==> (#[trigger] touched_below(sels, t, n)[k])
                < n && touches(sels, t, touched_below(sels, t, n)[k] as int),
        forall|a: int, b: int|
            0 <= a < b < touched_below(sels, t, n).len() ==> (#[trigger] touched_below(
                sels,
                t,
                n,
            )[a]) < (#[trigger] touched_below(sels, t, n)[b]),
        forall|line: usize|
            line < n && touches(sels, t, line as int) ==> touched_below(sels, t, n).contains(line),
    decreases n,
{
    if n > 0 {
        lemma_touched_below(sels, t, n - 1);
        let before = touched_below(sels, t, n - 1);
        let now = touched_below(sels, t, n);
        assert forall|line: usize| line < n && touches(sels, t, line as int) implies now.contains(
            line,
        ) by {
            if line < n - 1 {
                assert(before.contains(line));
                let k = choose|k: int| 0 <= k < before.len() && before[k] == line;
                assert(now[k] == line);
            } else {
                assert(now[now.len() - 1] == line);
            }
        }
    }
}

/// A line that a selection within the text touches is a line of the text.
pub proof fn lemma_touches_in_text(sels: Seq<Selection>, t: Seq<char>, line: int)
    requires
        all_within(sels, t.len()),
        touches(sels, t, line),
    ensures
        0 <= line < line_count(t),
{
    let i = choose|i: int| 0 <= i < sels.len() && selection_touches(#[trigger] sels[i], t, line);
    assert(sels[i].anchor.0 <= t.len() && sels[i].cursor.0 <= t.len());
    crate::text::lemma_line_of_offset(t, last_touched(sels[i]));
}

/// A text together with the selections on it: what an edit acts on.
pub ghost struct Doc {
    pub text: Seq<char>,
    pub selections: Seq<Selection>,
}

impl Doc {
    /// Every selection lies within the text.
    pub open spec fn wf(self) -> bool {
        all_within(self.selections, self.text.len())
    }

    /// The text with `s` put in at `at`, and every selection moved to where
    /// it stands then.
    pub open spec fn insert_at(self, at: usize, s: Seq<char>) -> Doc {
        Doc {
            text: inserted(self.text, at as int, s),
            selections: all_fixed_on_insert(self.selections, at, s.len() as usize),
        }
    }

    /// The text without the characters at `from..to`, and every selection
    /// moved to where it stands then.
    pub open spec fn remove_at(self, from: usize, to: usize) -> Doc {
        Doc {
            text: removed(self.text, from as int, to as int),
            selections: all_fixed_on_delete(self.selections, from, (to - from) as usize),
        }
    }

    /// The same text, with selection `i` replaced by `sel`.
    pub open spec fn with_selection(self, i: int, sel: Selection) -> Doc {
        Doc { text: self.text, selections: self.selections.update(i, sel) }
    }
}

/// What a buffer is taken to be in contracts.
pub ghost struct BufferView {
    pub text: Seq<char>,
    pub selections: Seq<Selection>,
    pub primary: usize,
    pub cursor_column: Seq<usize>,
    pub path: Option<Seq<char>>,
    pub tabstop: usize,
    pub expand_tabs: bool,
}

impl BufferView {
    /// The text and the selections.
    pub open spec fn doc(self) -> Doc {
        Doc { text: self.text, selections: self.selections }
    }

    /// The same buffer with the text and selections of `doc`, and no column
    /// noted for vertical movement: the state after an edit.
    pub open spec fn edited(self, doc: Doc) -> BufferView {
        BufferView {
            text: doc.text,
            selections: doc.selections,
            cursor_column: Seq::empty(),
            ..self
        }
    }

    /// The same buffer with other selections, and no column noted for
    /// vertical movement: the state after a move that is not vertical.
    pub open spec fn reselected(self, selections: Seq<Selection>) -> BufferView {
        BufferView { selections, cursor_column: Seq::empty(), ..self }
    }

    /// The primary selection is one of the selections, every selection lies
    /// within the text, and tab stops are at least one column apart.
    pub open spec fn wf(self) -> bool {
        &&& self.primary < self.selections.len()
        &&& all_within(self.selections, self.text.len())
        &&& self.tabstop > 0
    }
}

/// A text opened for editing, with its selections and settings.
#[derive(Debug, Clone, PartialEq, Eq)]
pub struct Buffer {
    pub text: Rope,
    pub selection: SelectionSet,
    /// Where the text is kept, if anywhere.
    pub path: Option<String>,
    /// The number of columns between two tab stops.
    pub tabstop: usize,
    /// Whether the tab key puts in spaces up to the next tab stop, or a tab
    /// character.
    pub expand_tabs: bool,
}

impl View for Buffer {
    type V = BufferView;

    open spec fn view(&self) -> BufferView {
        BufferView {
            text: chars_of(self.text),
            selections: self.selection.selections@,
            primary: self.selection.primary,
            cursor_column: self.selection.cursor_column@,
            path: match self.path {
                Some(p) => Some(p@),
                None => None,
            },
            tabstop: self.tabstop,
            expand_tabs: self.expand_tabs,
        }
    }
}

impl Default for Buffer {
    /// An empty text with one caret, tab stops four columns apart, and tabs
    /// expanded to spaces.
    fn default() -> (r: Buffer)
        ensures
            r@ == Buffer::default_view(),
            r.wf(),
    {
        let r = Buffer {
            text: Rope::new(),
            tabstop: 4,
            selection: SelectionSet::default(),
            expand_tabs: true,
            path: None,
        };
        assert(r@.cursor_column =~= Seq::empty());
        assert(r@.text =~= Seq::empty());
        r
    }
}

impl Buffer {
    /// What the default buffer is taken to be.
    pub open spec fn default_view() -> BufferView {
        BufferView {
            text: Seq::empty(),
            selections: seq![Selection { anchor: Idx(0), cursor: Idx(0), was_forward: true }],
            primary: 0,
            cursor_column: Seq::empty(),
            path: None,
            tabstop: 4,
            expand_tabs: true,
        }
    }

    /// The buffer is well formed: see [`BufferView::wf`].
    pub open spec fn wf(&self) -> bool {
        self@.wf()
    }

    /// A buffer on `text`, with one caret at its start and the default
    /// settings.
    pub fn from_text(text: Rope) -> (r: Buffer)
        ensures
            r@.text == chars_of(text),
            r@.selections == seq![Selection { anchor: Idx(0), cursor: Idx(0), was_forward: true }],
            r@.primary == 0,
            r@.cursor_column.len() == 0,
            r@.path is None,
            r@.tabstop == 4,
            r@.expand_tabs,
            r.wf(),
    {
        Buffer {
            text,
            tabstop: 4,
            selection: SelectionSet::default(),
            expand_tabs: true,
            path: None,
        }
    }

    /// The number of lines of the text.
    pub fn lines(&self) -> (n: usize)
        ensures
            n == line_count(self@.text),
    {
        self.text.len_lines()
    }

    /// A copy of the buffer, independent of it.
    pub fn snapshot(&self) -> (r: Buffer)
        ensures
            r@ == self@,
    {
        Buffer {
            text: self.text.clone(),
            selection: self.selection.duplicate(),
            path: match &self.path {
                Some(p) => Some(p.clone()),
                None => None,
            },
            tabstop: self.tabstop,
            expand_tabs: self.expand_tabs,
        }
    }

    /// Whether the two buffers hold the same text.
    pub fn same_text_as(&self, other: &Buffer) -> (r: bool)
        ensures
            r == (self@.text == other@.text),
    {
        same_text(&self.text, &other.text)
    }

    /// Puts `s` into the text at `at` and moves the selections along.
    pub(crate) fn put_in(&mut self, at: usize, s: &str)
        requires
            old(self).wf(),
            at <= old(self)@.text.len(),
        ensures
            final(self)@ == (BufferView {
                text: old(self)@.doc().insert_at(at, s@).text,
                selections: old(self)@.doc().insert_at(at, s@).selections,
                ..old(self)@
            }),
            final(self).wf(),
            old(self)@.text.len() + s@.len() <= usize::MAX,
    {
        let ghost before = self@;
        self.text.insert(at, s);
        let len = self.text.len_chars();
        let count = s.unicode_len();
        self.selection.fix_on_insert(Idx(at), count);
        proof {
            let after = self@;
            assert forall|i: int| 0 <= i < after.selections.len() implies (
            #[trigger] after.selections[i]).anchor.0 <= after.text.len()
                && after.selections[i].cursor.0 <= after.text.len() by {
                assert(before.selections[i].anchor.0 <= before.text.len());
            }
        }
    }

    /// Takes the characters at `from..to` out of the text and moves the
    /// selections along.
    pub(crate) fn take_out(&mut self, from: usize, to: usize)
        requires
            old(self).wf(),
            from <= to <= old(self)@.text.len(),
        ensures
            final(self)@ == (BufferView {
                text: old(self)@.doc().remove_at(from, to).text,
                selections: old(self)@.doc().remove_at(from, to).selections,
                ..old(self)@
            }),
            final(self).wf(),
    {
        let ghost before = self@;
        self.selection.fix_on_delete(Idx(from), to - from, &self.text);
        remove_range(&mut self.text, from, to);
        proof {
            let after = self@;
            assert forall|i: int| 0 <= i < after.selections.len() implies (
            #[trigger] after.selections[i]).anchor.0 <= after.text.len()
                && after.selections[i].cursor.0 <= after.text.len() by {
                assert(before.selections[i].anchor.0 <= before.text.len());
            }
        }
    }
}

} // verus!
