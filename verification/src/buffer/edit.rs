//! Edits: putting text in and taking text out at every selection.
//!
//! An edit visits the selections back to front (see [`back_to_front`]) and
//! acts at each in turn, on the text and selections as the edits before it
//! have left them.

use crate::buffer::order::{back_to_front, back_to_front_order, is_back_to_front};
use crate::buffer::{
    all_collapsed, all_sorted, cursors_of, spec_distance_to_next_tabstop,
    spec_distance_to_prev_tabstop, visual_width, Buffer, BufferView, Doc, distance_to_next_tabstop,
    distance_to_prev_tabstop,
};
use crate::buffer::{lemma_touched_below, touched_below};
use crate::idx::{indent_of_line, opens_in_line, spec_indent_end, spec_line_end, Idx};
use crate::position::{lemma_offset_round_trip, line_of, Position};
use crate::selection::Selection;
use crate::text::{
    chars_of, lemma_line_start, lemma_line_start_ordered, line_count, line_start, rope_to_string,
    slice_to_rope,
};
use ropey::Rope;
use vstd::prelude::*;

verus! {

/// `n` spaces.
pub open spec fn spaces(n: nat) -> Seq<char> {
    Seq::new(n, |i: int| ' ')
}

/// A string of `n` spaces.
pub fn spaces_string(n: usize) -> (s: String)
    ensures
        s@ == spaces(n as nat),
{
    let mut s = String::new();
    let mut i: usize = 0;
    while i < n
        invariant
            i <= n,
            s@ == spaces(i as nat),
        decreases n - i,
    {
        s.push(' ');
        i += 1;
        assert(s@ =~= spaces(i as nat));
    }
    s
}

/// The string that holds the one character `ch`.
pub fn char_string(ch: char) -> (s: String)
    ensures
        s@ == seq![ch],
{
    let mut s = String::new();
    s.push(ch);
    assert(s@ =~= seq![ch]);
    s
}

/// The texts held by the ropes `ropes`.
pub open spec fn texts_of(ropes: Seq<Rope>) -> Seq<Seq<char>> {
    Seq::new(ropes.len(), |i: int| chars_of(ropes[i]))
}

/// The column at which the character at offset `i` is shown: the width of
/// the characters before it in its line.
pub open spec fn visual_column_at(t: Seq<char>, i: int, tabstop: int) -> int {
    visual_width(t.subrange(line_start(t, line_of(t, i)), i), tabstop)
}

/// The `n` characters before offset `c` are spaces.
pub open spec fn spaces_before(t: Seq<char>, c: int, n: int) -> bool {
    n <= c <= t.len() && forall|k: int| c - n <= k < c ==> #[trigger] t[k] == ' '
}

/// The number of characters that a backspace at offset `c` takes out, the
/// start of the text permitting: a tab stop's worth of spaces where tabs are
/// expanded to spaces, `c` is the end of its line's indentation and stands
/// at a tab stop, and spaces fill the columns back to the tab stop before;
/// one character anywhere else.
pub open spec fn backspace_unit(v: BufferView, c: int) -> int {
    let column = visual_column_at(v.text, c, v.tabstop as int);
    if v.expand_tabs && c == spec_indent_end(v.text, c) && column > 0 && column % (
    v.tabstop as int) == 0 && spaces_before(v.text, c, v.tabstop as int) {
        spec_distance_to_prev_tabstop(column, v.tabstop as int)
    } else {
        1
    }
}

impl Doc {
    /// Selection `i` and what it marks taken out of the text.
    pub open spec fn cut(self, i: int) -> Doc {
        self.remove_at(self.selections[i].low(), self.selections[i].high())
    }

    /// `unit` characters taken out before the cursor of selection `i`, or as
    /// many as there are.
    pub open spec fn erase_before(self, i: int, unit: usize) -> Doc {
        let c = self.selections[i].cursor.0;
        self.remove_at(
            if c <= unit {
                0
            } else {
                (c - unit) as usize
            },
            c,
        )
    }

    /// `s` put in at the cursor of selection `i`.
    pub open spec fn type_at(self, i: int, s: Seq<char>) -> Doc {
        self.insert_at(self.selections[i].cursor.0, s)
    }
}

/// The text and selections after `texts[i]` is put in at the cursor of each
/// selection `i` of `order`, one after the other.
pub open spec fn typed_each(doc: Doc, order: Seq<usize>, texts: Seq<Seq<char>>) -> Doc
    decreases order.len(),
{
    if order.len() == 0 {
        doc
    } else {
        typed_each(doc, order.drop_last(), texts).type_at(
            order.last() as int,
            texts[order.last() as int],
        )
    }
}

/// The text and selections after each selection of `order` is taken out
/// with what it marks, one after the other.
pub open spec fn cut_each(doc: Doc, order: Seq<usize>) -> Doc
    decreases order.len(),
{
    if order.len() == 0 {
        doc
    } else {
        cut_each(doc, order.drop_last()).cut(order.last() as int)
    }
}

/// The text and selections after `units[i]` characters are taken out before
/// the cursor of each selection `i` of `order`, one after the other.
pub open spec fn erased_each(doc: Doc, order: Seq<usize>, units: Seq<usize>) -> Doc
    decreases order.len(),
{
    if order.len() == 0 {
        doc
    } else {
        erased_each(doc, order.drop_last(), units).erase_before(
            order.last() as int,
            units[order.last() as int],
        )
    }
}

impl BufferView {
    /// The carets, all facing forward, that the selections become before
    /// text is typed; the selections themselves where `extend` is set.
    pub open spec fn typing_start(self, extend: bool) -> Doc {
        if extend {
            self.doc()
        } else {
            Doc { text: self.text, selections: all_sorted(all_collapsed(self.selections)) }
        }
    }

    /// The buffer after `s` is typed at every cursor.
    pub open spec fn spec_insert(self, s: Seq<char>, extend: bool) -> BufferView {
        if s.len() == 0 {
            self.edited(self.typing_start(extend))
        } else {
            self.edited(
                typed_each(
                    self.typing_start(extend),
                    back_to_front(cursors_of(self.selections)),
                    Seq::new(self.selections.len(), |i: int| s),
                ),
            )
        }
    }

    /// For each selection, the spaces that reach from its cursor to the next
    /// tab stop.
    pub open spec fn tab_fills(self) -> Seq<Seq<char>> {
        Seq::new(
            self.selections.len(),
            |i: int|
                spaces(
                    spec_distance_to_next_tabstop(
                        visual_column_at(
                            self.text,
                            self.selections[i].cursor.0 as int,
                            self.tabstop as int,
                        ),
                        self.tabstop as int,
                    ) as nat,
                ),
        )
    }

    /// The buffer after the tab key: spaces up to the next tab stop at every
    /// cursor where tabs are expanded, a tab character else.
    pub open spec fn spec_insert_tab(self, extend: bool) -> BufferView {
        if self.expand_tabs {
            self.edited(
                typed_each(
                    self.typing_start(extend),
                    back_to_front(cursors_of(self.selections)),
                    self.tab_fills(),
                ),
            )
        } else {
            self.spec_insert(seq!['\t'], extend)
        }
    }

    /// What each selection marks for the next operation on selected text:
    /// itself, or for a caret the one character that it faces.
    pub open spec fn spans(self) -> Seq<Selection> {
        Seq::new(
            self.selections.len(),
            |i: int| self.selections[i].spec_or_direction_marker(self.text.len()),
        )
    }

    /// The text that each selection of `sels` marks.
    pub open spec fn marked(self, sels: Seq<Selection>) -> Seq<Seq<char>> {
        Seq::new(
            sels.len(),
            |i: int| self.text.subrange(sels[i].low() as int, sels[i].high() as int),
        )
    }

    /// The buffer after every selection is taken out with what it marks: a
    /// caret takes the character that it faces with it.
    pub open spec fn spec_delete(self) -> BufferView {
        self.edited(
            cut_each(
                Doc { text: self.text, selections: self.spans() },
                back_to_front(Seq::new(self.selections.len(), |i: int| self.spans()[i].low())),
            ),
        )
    }

    /// For each selection, the number of characters that a backspace takes
    /// out before its cursor.
    pub open spec fn backspace_units(self) -> Seq<usize> {
        Seq::new(
            self.selections.len(),
            |i: int| backspace_unit(self, self.selections[i].cursor.0 as int) as usize,
        )
    }

    /// The buffer after a backspace at every cursor.
    pub open spec fn spec_backspace(self, extend: bool) -> BufferView {
        self.edited(
            erased_each(
                self.typing_start(extend),
                back_to_front(cursors_of(self.selections)),
                self.backspace_units(),
            ),
        )
    }

    /// The buffer after one character is taken out before every cursor.
    pub open spec fn spec_backspace_one(self) -> BufferView {
        self.edited(
            erased_each(
                self.typing_start(false),
                back_to_front(cursors_of(self.selections)),
                Seq::new(self.selections.len(), |i: int| 1usize),
            ),
        )
    }
}

/// The text and selections after `texts[k]` is pasted at the cursor of the
/// `k`-th selection of `order`, one after the other. A selection is made a
/// caret at its cursor before its text is pasted, unless `extend` is set: the
/// caret then comes to span what was pasted.
pub open spec fn pasted_each(doc: Doc, order: Seq<usize>, texts: Seq<Seq<char>>, extend: bool) -> Doc
    decreases order.len(),
{
    if order.len() == 0 {
        doc
    } else {
        let before = pasted_each(doc, order.drop_last(), texts, extend);
        let i = order.last() as int;
        let ready = if extend {
            before
        } else {
            before.with_selection(i, before.selections[i].spec_collapsed())
        };
        ready.type_at(i, texts[order.len() - 1])
    }
}

impl BufferView {
    /// The buffer after the texts `yanked` are pasted: the first at the
    /// cursor of the selection that stands last in the text, the second at
    /// the one before it, and so on, as far as there are texts and
    /// selections.
    pub open spec fn spec_paste(self, yanked: Seq<Seq<char>>, extend: bool) -> BufferView {
        let order = back_to_front(cursors_of(self.selections));
        let count = if yanked.len() <= order.len() {
            yanked.len() as int
        } else {
            order.len() as int
        };
        self.edited(pasted_each(self.doc(), order.take(count), yanked, extend))
    }
}

/// The text and selections after a line is opened at `points[i]` for each
/// selection `i` of `order`, one after the other: `texts[i]` is put in
/// there, and the cursor of the selection comes to stand behind it. The
/// selection is left a caret there unless `extend` is set.
pub open spec fn opened_each(
    doc: Doc,
    order: Seq<usize>,
    points: Seq<usize>,
    texts: Seq<Seq<char>>,
    extend: bool,
) -> Doc
    decreases order.len(),
{
    if order.len() == 0 {
        doc
    } else {
        let before = opened_each(doc, order.drop_last(), points, texts, extend);
        let i = order.last() as int;
        let filled = before.insert_at(points[i], texts[i]);
        let moved = Selection {
            cursor: Idx((points[i] + texts[i].len()) as usize),
            ..filled.selections[i]
        };
        filled.with_selection(
            i,
            if extend {
                moved
            } else {
                moved.spec_collapsed()
            },
        )
    }
}

/// The text and selections after `unit` is put in at each of the offsets
/// `starts`, the last of them first.
pub open spec fn indented_each(doc: Doc, starts: Seq<usize>, unit: Seq<char>) -> Doc
    decreases starts.len(),
{
    if starts.len() == 0 {
        doc
    } else {
        indented_each(doc, starts.drop_first(), unit).insert_at(starts.first(), unit)
    }
}

impl Doc {
    /// The text at offset `at` goes on with the characters `unit`.
    pub open spec fn stands_at(self, at: usize, unit: Seq<char>) -> bool {
        at + unit.len() <= self.text.len() && self.text.subrange(at as int, at + unit.len())
            == unit
    }

    /// `unit` taken out at offset `at` where it stands there; nothing
    /// changed where it does not.
    pub open spec fn unindent_at(self, at: usize, unit: Seq<char>) -> Doc {
        if self.stands_at(at, unit) {
            self.remove_at(at, (at + unit.len()) as usize)
        } else {
            self
        }
    }
}

/// The text and selections after `unit` is taken out at each of the offsets
/// `starts` where it stands, the last of them first.
pub open spec fn unindented_each(doc: Doc, starts: Seq<usize>, unit: Seq<char>) -> Doc
    decreases starts.len(),
{
    if starts.len() == 0 {
        doc
    } else {
        unindented_each(doc, starts.drop_first(), unit).unindent_at(starts.first(), unit)
    }
}

impl BufferView {
    /// The text of `times` levels of indentation: one tab where tabs are
    /// kept, however many levels; `times` tab stops' worth of spaces where
    /// they are expanded.
    pub open spec fn indent_unit(self, times: int) -> Seq<char> {
        if !self.expand_tabs {
            seq!['\t']
        } else {
            spaces((self.tabstop * times) as nat)
        }
    }

    /// For each selection, the offset at which a line is opened for it: its
    /// cursor for the enter key, the end of the cursor's line else.
    pub open spec fn opening_points(self, was_enter: bool) -> Seq<usize> {
        Seq::new(
            self.selections.len(),
            |i: int|
                if was_enter {
                    self.selections[i].cursor.0
                } else {
                    spec_line_end(self.text, self.selections[i].cursor.0 as int) as usize
                },
        )
    }

    /// For each selection, the text that opens a line for it: a line feed,
    /// one level of indentation more where a bracket opened in the cursor's
    /// line is still open at the cursor, and the indentation of the
    /// cursor's line.
    pub open spec fn opening_texts(self) -> Seq<Seq<char>> {
        Seq::new(
            self.selections.len(),
            |i: int|
                seq!['\n'] + if opens_in_line(self.text, self.selections[i].cursor.0 as int) {
                    self.indent_unit(1)
                } else {
                    Seq::empty()
                } + indent_of_line(self.text, self.selections[i].cursor.0 as int),
        )
    }

    /// The buffer after a line is opened for every selection.
    pub open spec fn spec_open(self, was_enter: bool, extend: bool) -> BufferView {
        self.edited(
            opened_each(
                if extend {
                    self.doc()
                } else {
                    Doc { text: self.text, selections: all_collapsed(self.selections) }
                },
                back_to_front(self.opening_points(was_enter)),
                self.opening_points(was_enter),
                self.opening_texts(),
                extend,
            ),
        )
    }

    /// The offsets at which the lines start that the selections touch, in
    /// ascending order.
    pub open spec fn indent_starts(self) -> Seq<usize> {
        let lines = touched_below(self.selections, self.text, line_count(self.text) as int);
        Seq::new(lines.len(), |k: int| line_start(self.text, lines[k] as int) as usize)
    }

    /// The buffer after every line that a selection touches is indented by
    /// `times` levels.
    pub open spec fn spec_increase_indent(self, times: int) -> BufferView {
        self.edited(indented_each(self.doc(), self.indent_starts(), self.indent_unit(times)))
    }

    /// The buffer after `times` levels of indentation are taken from every
    /// line that a selection touches and that begins with them.
    pub open spec fn spec_decrease_indent(self, times: int) -> BufferView {
        self.edited(unindented_each(self.doc(), self.indent_starts(), self.indent_unit(times)))
    }
}

/// Carets made of selections within a text lie within it, and so do the
/// selections turned forward.
pub proof fn lemma_typing_start_wf(v: BufferView, extend: bool)
    requires
        v.wf(),
    ensures
        v.typing_start(extend).wf(),
        v.typing_start(extend).selections.len() == v.selections.len(),
        v.edited(v.typing_start(extend)).wf(),
{
    let start = v.typing_start(extend);
    assert forall|i: int| 0 <= i < start.selections.len() implies (#[trigger] start.selections[i]).anchor.0
        <= start.text.len() && start.selections[i].cursor.0 <= start.text.len() by {
        assert(v.selections[i].anchor.0 <= v.text.len());
    }
}

impl Buffer {
    /// The cursor of every selection.
    pub(crate) fn cursor_offsets(&self) -> (r: Vec<usize>)
        ensures
            r@ == cursors_of(self@.selections),
    {
        let n = self.selection.selections.len();
        let mut offsets: Vec<usize> = Vec::new();
        let mut i: usize = 0;
        while i < n
            invariant
                i <= n,
                n == self.selection.selections@.len(),
                offsets@.len() == i,
                forall|k: int| 0 <= k < i ==> offsets@[k] == self.selection.selections@[k].cursor.0,
            decreases n - i,
        {
            offsets.push(self.selection.selections[i].cursor.0);
            i += 1;
        }
        assert(offsets@ =~= cursors_of(self@.selections));
        offsets
    }

    /// Makes the selections carets that face forward, unless `extend` is
    /// set, and forgets the columns noted for vertical movement.
    pub(crate) fn start_typing(&mut self, extend: bool)
        requires
            old(self).wf(),
        ensures
            final(self)@ == old(self)@.edited(old(self)@.typing_start(extend)),
            final(self).wf(),
    {
        proof {
            lemma_typing_start_wf(self@, extend);
        }
        self.selection.clear_cursor_column();
        if !extend {
            self.selection.collapse();
            self.selection.sort();
        }
        assert(self@.cursor_column =~= Seq::empty());
    }

    /// Puts `texts[i]` in at the cursor of each selection `i`, back to
    /// front in the order `order`.
    pub(crate) fn type_each(&mut self, order: &Vec<usize>, texts: &Vec<String>)
        requires
            old(self).wf(),
            old(self)@.cursor_column.len() == 0,
            texts@.len() == old(self)@.selections.len(),
            forall|k: int| 0 <= k < order@.len() ==> (#[trigger] order@[k]) < texts@.len(),
        ensures
            final(self)@ == old(self)@.edited(
                typed_each(
                    old(self)@.doc(),
                    order@,
                    Seq::new(texts@.len(), |i: int| texts@[i]@),
                ),
            ),
            final(self).wf(),
    {
        let ghost start = self@;
        let ghost given = Seq::new(texts@.len(), |i: int| texts@[i]@);
        let mut k: usize = 0;
        assert(start.cursor_column =~= Seq::empty());
        assert(order@.take(0).len() == 0);
        while k < order.len()
            invariant
                k <= order@.len(),
                start == old(self)@,
                given == Seq::new(texts@.len(), |i: int| texts@[i]@),
                texts@.len() == start.selections.len(),
                forall|j: int| 0 <= j < order@.len() ==> (#[trigger] order@[j]) < texts@.len(),
                self.wf(),
                self@ == start.edited(typed_each(start.doc(), order@.take(k as int), given)),
                self@.selections.len() == start.selections.len(),
            decreases order@.len() - k,
        {
            let i = order[k];
            let at = self.selection.selections[i].cursor.0;
            assert(self@.selections[i as int].cursor.0 <= self@.text.len());
            self.put_in(at, texts[i].as_str());
            proof {
                assert(order@.take(k + 1).drop_last() =~= order@.take(k as int));
                assert(order@.take(k + 1).last() == order@[k as int]);
            }
            k += 1;
        }
        assert(order@.take(order@.len() as int) =~= order@);
    }

    /// Types `s` at every cursor. The selections become carets first unless
    /// `extend` is set; what is typed then joins each selection, or follows
    /// each caret, at its cursor.
    pub fn insert(&mut self, s: &str, extend: bool)
        requires
            old(self).wf(),
        ensures
            final(self)@ == old(self)@.spec_insert(s@, extend),
            final(self).wf(),
    {
        let order = back_to_front_order(&self.cursor_offsets());
        self.start_typing(extend);
        if s.unicode_len() == 0 {
            return ;
        }
        let n = self.selection.selections.len();
        let mut texts: Vec<String> = Vec::new();
        let mut i: usize = 0;
        while i < n
            invariant
                i <= n,
                texts@.len() == i,
                forall|k: int| 0 <= k < i ==> (#[trigger] texts@[k])@ == s@,
            decreases n - i,
        {
            texts.push(s.to_owned());
            i += 1;
        }
        assert(Seq::new(texts@.len(), |i: int| texts@[i]@) =~= Seq::new(
            old(self)@.selections.len(),
            |i: int| s@,
        ));
        self.type_each(&order, &texts);
    }

    /// Types the character `ch` at every cursor.
    pub fn insert_char(&mut self, ch: char, extend: bool)
        requires
            old(self).wf(),
        ensures
            final(self)@ == old(self)@.spec_insert(seq![ch], extend),
            final(self).wf(),
    {
        let s = char_string(ch);
        self.insert(s.as_str(), extend);
    }

    /// The position at which the character at `coord` is shown: the same
    /// line, and the column that the characters before it in the line reach
    /// to, a tab reaching to the next tab stop. A column beyond the line
    /// counts as the end of the line.
    pub fn to_visual(&self, coord: Position) -> (r: Position)
        requires
            self.tabstop > 0,
            coord.in_text(self@.text),
        ensures
            r.line == coord.line,
            r.column == visual_width(
                self@.text.subrange(
                    line_start(self@.text, coord.line as int),
                    line_start(self@.text, coord.line as int) + if coord.column <= crate::position::line_len(
                        self@.text,
                        coord.line as int,
                    ) {
                        coord.column as int
                    } else {
                        crate::position::line_len(self@.text, coord.line as int)
                    },
                ),
                self.tabstop as int,
            ),
    {
        let ghost t = self@.text;
        proof {
            lemma_line_start(t, coord.line as int);
            lemma_line_start(t, coord.line + 1);
            crate::text::lemma_line_start_ordered(t, coord.line as int, coord.line + 1);
        }
        let lines = self.text.len_lines();
        let start = self.text.line_to_char(coord.line);
        let next = self.text.line_to_char(coord.line + 1);
        let len = next - start;
        let count = if coord.column <= len {
            coord.column
        } else {
            len
        };
        let mut v_col: usize = 0;
        let mut i: usize = 0;
        while i < count
            invariant
                i <= count,
                start + count <= next,
                next <= t.len(),
                t == self@.text,
                self.tabstop > 0,
                v_col == visual_width(t.subrange(start as int, start + i), self.tabstop as int),
            decreases count - i,
        {
            let ch = self.text.char(start + i);
            proof {
                assert(t.subrange(start as int, start + i + 1).drop_last() =~= t.subrange(
                    start as int,
                    start + i,
                ));
            }
            if ch == '\t' {
                v_col = v_col.saturating_add(distance_to_next_tabstop(v_col, self.tabstop));
            } else {
                v_col = v_col.saturating_add(1);
            }
            i += 1;
        }
        Position { line: coord.line, column: v_col }
    }

    /// The column at which the character at offset `at` is shown.
    pub(crate) fn visual_column(&self, at: Idx) -> (r: usize)
        requires
            self.tabstop > 0,
            at.within(self@.text),
        ensures
            r == visual_column_at(self@.text, at.0 as int, self.tabstop as int),
    {
        proof {
            lemma_offset_round_trip(self@.text, at.0 as int);
            crate::text::lemma_line_of_offset(self@.text, at.0 as int);
            lemma_line_start(self@.text, line_of(self@.text, at.0 as int));
            lemma_line_start(self@.text, line_of(self@.text, at.0 as int) + 1);
        }
        self.to_visual(at.to_position(&self.text)).column
    }

    /// The tab key at every cursor: spaces up to the next tab stop where tabs
    /// are expanded to spaces, a tab character else.
    pub fn insert_tab(&mut self, extend: bool)
        requires
            old(self).wf(),
        ensures
            final(self)@ == old(self)@.spec_insert_tab(extend),
            final(self).wf(),
    {
        if self.expand_tabs {
            let n = self.selection.selections.len();
            let mut texts: Vec<String> = Vec::new();
            let mut i: usize = 0;
            while i < n
                invariant
                    i <= n,
                    n == self@.selections.len(),
                    self.wf(),
                    self@ == old(self)@,
                    texts@.len() == i,
                    forall|k: int| 0 <= k < i ==> (#[trigger] texts@[k])@ == self@.tab_fills()[k],
                decreases n - i,
            {
                let cursor = self.selection.selections[i].cursor;
                assert(self@.selections[i as int].cursor.0 <= self@.text.len());
                let v_col = self.visual_column(cursor);
                texts.push(spaces_string(distance_to_next_tabstop(v_col, self.tabstop)));
                i += 1;
            }
            assert(Seq::new(texts@.len(), |i: int| texts@[i]@) =~= old(self)@.tab_fills());
            let order = back_to_front_order(&self.cursor_offsets());
            self.start_typing(extend);
            self.type_each(&order, &texts);
        } else {
            self.insert_char('\t', extend);
        }
    }

    /// The text that each selection marks, in the order of the selections.
    fn marked_texts(&self) -> (r: Vec<Rope>)
        requires
            self.wf(),
        ensures
            texts_of(r@) == self@.marked(self@.selections),
    {
        let n = self.selection.selections.len();
        let mut texts: Vec<Rope> = Vec::new();
        let mut i: usize = 0;
        while i < n
            invariant
                i <= n,
                n == self@.selections.len(),
                self.wf(),
                texts@.len() == i,
                forall|k: int|
                    0 <= k < i ==> chars_of(#[trigger] texts@[k]) == self@.text.subrange(
                        self@.selections[k].low() as int,
                        self@.selections[k].high() as int,
                    ),
            decreases n - i,
        {
            assert(self@.selections[i as int].cursor.0 <= self@.text.len());
            let (low, high) = self.selection.selections[i].sorted_pair();
            texts.push(slice_to_rope(&self.text, low.0, high.0));
            i += 1;
        }
        assert(texts_of(texts@) =~= self@.marked(self@.selections));
        texts
    }

    /// Takes every selection out of the text with what it marks, and hands
    /// out what was marked, one text for each selection in their order. A
    /// caret takes the character that it faces with it. The selections are
    /// left as carets where their text stood.
    pub fn delete(&mut self) -> (yanked: Vec<Rope>)
        requires
            old(self).wf(),
        ensures
            final(self)@ == old(self)@.spec_delete(),
            texts_of(yanked@) == old(self)@.marked(old(self)@.spans()),
            final(self).wf(),
    {
        self.selection.clear_cursor_column();
        let n = self.selection.selections.len();
        let mut starts: Vec<usize> = Vec::new();
        let mut i: usize = 0;
        while i < n
            invariant
                i <= n,
                n == old(self)@.selections.len(),
                n == self@.selections.len(),
                old(self).wf(),
                self@.text == old(self)@.text,
                self@.primary == old(self)@.primary,
                self@.path == old(self)@.path,
                self@.tabstop == old(self)@.tabstop,
                self@.expand_tabs == old(self)@.expand_tabs,
                self@.cursor_column.len() == 0,
                starts@.len() == i,
                forall|k: int|
                    0 <= k < i ==> (#[trigger] self.selection.selections@[k]) == old(
                        self,
                    )@.selections[k].spec_or_direction_marker(old(self)@.text.len()),
                forall|k: int|
                    0 <= k < i ==> (#[trigger] starts@[k]) == old(
                        self,
                    )@.selections[k].spec_or_direction_marker(old(self)@.text.len()).low(),
                forall|k: int|
                    i <= k < n ==> (#[trigger] self.selection.selections@[k]) == old(
                        self,
                    )@.selections[k],
            decreases n - i,
        {
            assert(old(self)@.selections[i as int].cursor.0 <= old(self)@.text.len());
            let span = self.selection.selections[i].self_or_direction_marker(&self.text);
            self.selection.selections.set(i, span);
            starts.push(span.sorted_pair().0.0);
            i += 1;
        }
        let ghost start = self@;
        proof {
            assert(start.selections =~= old(self)@.spans());
            assert(starts@ =~= Seq::new(
                old(self)@.selections.len(),
                |i: int| old(self)@.spans()[i].low(),
            ));
            assert(start.cursor_column =~= Seq::empty());
            assert forall|k: int| 0 <= k < start.selections.len() implies (
            #[trigger] start.selections[k]).anchor.0 <= start.text.len()
                && start.selections[k].cursor.0 <= start.text.len() by {
                assert(old(self)@.selections[k].cursor.0 <= old(self)@.text.len());
            }
        }
        let yanked = self.marked_texts();
        let order = back_to_front_order(&starts);
        let mut k: usize = 0;
        assert(order@.take(0).len() == 0);
        while k < order.len()
            invariant
                k <= order@.len(),
                start.wf(),
                start.cursor_column.len() == 0,
                is_back_to_front(order@, starts@),
                starts@.len() == start.selections.len(),
                self.wf(),
                self@ == start.edited(cut_each(start.doc(), order@.take(k as int))),
                self@.selections.len() == start.selections.len(),
            decreases order@.len() - k,
        {
            let i = order[k];
            assert(self@.selections[i as int].cursor.0 <= self@.text.len());
            let (low, high) = self.selection.selections[i].sorted_pair();
            self.take_out(low.0, high.0);
            proof {
                assert(order@.take(k + 1).drop_last() =~= order@.take(k as int));
                assert(order@.take(k + 1).last() == order@[k as int]);
            }
            k += 1;
        }
        assert(order@.take(order@.len() as int) =~= order@);
        yanked
    }

    /// What each selection marks, one text for each selection in their
    /// order. The buffer stays as it is.
    pub fn yank(&mut self) -> (yanked: Vec<Rope>)
        requires
            old(self).wf(),
        ensures
            *final(self) == *old(self),
            texts_of(yanked@) == old(self)@.marked(old(self)@.selections),
    {
        self.marked_texts()
    }

    /// Pastes the texts `yanked` at the cursors, back to front, and leaves
    /// each selection spanning what was pasted at it. Selections for which
    /// no text is left stay as they are, but for what the pasted text moves.
    pub fn paste(&mut self, yanked: &[Rope])
        requires
            old(self).wf(),
        ensures
            final(self)@ == old(self)@.spec_paste(texts_of(yanked@), false),
            final(self).wf(),
    {
        self.paste_each(yanked, false);
    }

    /// Pastes the texts `yanked` at the cursors, back to front; each
    /// selection grows by what was pasted at its cursor.
    pub fn paste_extend(&mut self, yanked: &[Rope])
        requires
            old(self).wf(),
        ensures
            final(self)@ == old(self)@.spec_paste(texts_of(yanked@), true),
            final(self).wf(),
    {
        self.paste_each(yanked, true);
    }

    fn paste_each(&mut self, yanked: &[Rope], extend: bool)
        requires
            old(self).wf(),
        ensures
            final(self)@ == old(self)@.spec_paste(texts_of(yanked@), extend),
            final(self).wf(),
    {
        let order = back_to_front_order(&self.cursor_offsets());
        self.selection.clear_cursor_column();
        let ghost start = self@;
        let ghost texts = texts_of(yanked@);
        assert(start == old(self)@.reselected(old(self)@.selections)) by {
            assert(start.cursor_column =~= Seq::empty());
        }
        let count = if yanked.len() <= order.len() {
            yanked.len()
        } else {
            order.len()
        };
        let mut k: usize = 0;
        assert(start.cursor_column =~= Seq::empty());
        assert(order@.take(count as int).take(0).len() == 0);
        while k < count
            invariant
                k <= count,
                count <= order@.len(),
                count <= yanked@.len(),
                texts == texts_of(yanked@),
                start == old(self)@.reselected(old(self)@.selections),
                old(self).wf(),
                is_back_to_front(order@, cursors_of(old(self)@.selections)),
                order@.len() == start.selections.len(),
                self.wf(),
                self@ == start.edited(
                    pasted_each(start.doc(), order@.take(count as int).take(k as int), texts, extend),
                ),
                self@.selections.len() == start.selections.len(),
            decreases count - k,
        {
            let i = order[k];
            if !extend {
                let caret = self.selection.selections[i].collapsed();
                assert(self@.selections[i as int].cursor.0 <= self@.text.len());
                self.selection.selections.set(i, caret);
            }
            assert(self@.selections[i as int].cursor.0 <= self@.text.len());
            let at = self.selection.selections[i].cursor.0;
            let text = crate::text::rope_to_string(&yanked[k]);
            self.put_in(at, text.as_str());
            proof {
                let done = order@.take(count as int).take(k + 1);
                assert(done.drop_last() =~= order@.take(count as int).take(k as int));
                assert(done.last() == order@[k as int]);
                assert(done.len() - 1 == k);
            }
            k += 1;
        }
        assert(order@.take(count as int).take(count as int) =~= order@.take(count as int));
    }

    /// For each selection, the number of characters that a backspace takes
    /// out before its cursor.
    fn units_to_erase(&self) -> (units: Vec<usize>)
        requires
            self.wf(),
        ensures
            units@ == self@.backspace_units(),
    {
        let n = self.selection.selections.len();
        let mut units: Vec<usize> = Vec::new();
        let mut i: usize = 0;
        while i < n
            invariant
                i <= n,
                n == self@.selections.len(),
                self.wf(),
                units@.len() == i,
                forall|k: int|
                    0 <= k < i ==> units@[k] == backspace_unit(
                        self@,
                        self@.selections[k].cursor.0 as int,
                    ),
            decreases n - i,
        {
            let cursor = self.selection.selections[i].cursor;
            assert(self@.selections[i as int].cursor.0 <= self@.text.len());
            let mut unit: usize = 1;
            if self.expand_tabs && cursor.0 == cursor.before_first_non_whitespace(&self.text).0 {
                let v_col = self.visual_column(cursor);
                if v_col > 0 && v_col % self.tabstop == 0 && self.spaces_stand_before(
                    cursor,
                    self.tabstop,
                ) {
                    unit = distance_to_prev_tabstop(v_col, self.tabstop);
                }
            }
            units.push(unit);
            i += 1;
        }
        assert(units@ =~= self@.backspace_units());
        units
    }

    /// Whether the `n` characters before `at` are spaces.
    fn spaces_stand_before(&self, at: Idx, n: usize) -> (r: bool)
        requires
            at.within(self@.text),
        ensures
            r == spaces_before(self@.text, at.0 as int, n as int),
    {
        if at.0 < n {
            return false;
        }
        let mut k: usize = at.0 - n;
        while k < at.0
            invariant
                at.0 - n <= k <= at.0,
                at.0 <= self@.text.len(),
                forall|j: int| at.0 - n <= j < k ==> #[trigger] self@.text[j] == ' ',
            decreases at.0 - k,
        {
            if self.text.char(k) != ' ' {
                return false;
            }
            k += 1;
        }
        true
    }

    /// Takes `units[i]` characters out before the cursor of each selection
    /// `i`, back to front in the order `order`.
    fn erase_each(&mut self, order: &Vec<usize>, units: &Vec<usize>)
        requires
            old(self).wf(),
            old(self)@.cursor_column.len() == 0,
            units@.len() == old(self)@.selections.len(),
            forall|k: int| 0 <= k < order@.len() ==> (#[trigger] order@[k]) < units@.len(),
        ensures
            final(self)@ == old(self)@.edited(erased_each(old(self)@.doc(), order@, units@)),
            final(self).wf(),
    {
        let ghost start = self@;
        let mut k: usize = 0;
        assert(start.cursor_column =~= Seq::empty());
        assert(order@.take(0).len() == 0);
        while k < order.len()
            invariant
                k <= order@.len(),
                start == old(self)@,
                units@.len() == start.selections.len(),
                forall|j: int| 0 <= j < order@.len() ==> (#[trigger] order@[j]) < units@.len(),
                self.wf(),
                self@ == start.edited(erased_each(start.doc(), order@.take(k as int), units@)),
                self@.selections.len() == start.selections.len(),
            decreases order@.len() - k,
        {
            let i = order[k];
            let cursor = self.selection.selections[i].cursor;
            assert(self@.selections[i as int].cursor.0 <= self@.text.len());
            let from = cursor.backward_n(units[i], &self.text);
            self.take_out(from.0, cursor.0);
            proof {
                assert(order@.take(k + 1).drop_last() =~= order@.take(k as int));
                assert(order@.take(k + 1).last() == order@[k as int]);
            }
            k += 1;
        }
        assert(order@.take(order@.len() as int) =~= order@);
    }

    /// Takes one character out before every cursor, and leaves the
    /// selections as carets.
    pub fn backspace_one(&mut self)
        requires
            old(self).wf(),
        ensures
            final(self)@ == old(self)@.spec_backspace_one(),
            final(self).wf(),
    {
        let order = back_to_front_order(&self.cursor_offsets());
        let n = self.selection.selections.len();
        let mut units: Vec<usize> = Vec::new();
        let mut i: usize = 0;
        while i < n
            invariant
                i <= n,
                units@.len() == i,
                forall|k: int| 0 <= k < i ==> units@[k] == 1,
            decreases n - i,
        {
            units.push(1);
            i += 1;
        }
        assert(units@ =~= Seq::new(old(self)@.selections.len(), |i: int| 1usize));
        self.start_typing(false);
        self.erase_each(&order, &units);
    }

    /// Takes one unit out before every cursor: a tab stop's worth of spaces
    /// where the cursor ends its line's indentation at a tab stop and tabs
    /// are expanded to spaces, one character anywhere else. At the start of
    /// the text there is nothing to take.
    pub fn backspace(&mut self, extend: bool)
        requires
            old(self).wf(),
        ensures
            final(self)@ == old(self)@.spec_backspace(extend),
            final(self).wf(),
    {
        let units = self.units_to_erase();
        let order = back_to_front_order(&self.cursor_offsets());
        self.start_typing(extend);
        self.erase_each(&order, &units);
    }

    /// The text of `times` levels of indentation.
    fn indent_text(&self, times: usize) -> (s: String)
        requires
            self.tabstop * times <= usize::MAX,
        ensures
            s@ == self@.indent_unit(times as int),
    {
        if !self.expand_tabs {
            char_string('\t')
        } else {
            spaces_string(self.tabstop * times)
        }
    }

    /// The enter key at every cursor: a new line that begins with the
    /// indentation of the line it leaves, one level deeper behind a bracket
    /// that the line left open.
    pub fn insert_enter(&mut self, extend: bool)
        requires
            old(self).wf(),
        ensures
            final(self)@ == old(self)@.spec_open(true, extend),
            final(self).wf(),
    {
        self.open_impl(true, extend);
    }

    /// Opens a line below the line of every cursor, indented as the enter
    /// key would indent it at the cursor, and leaves a caret in it.
    pub fn open(&mut self)
        requires
            old(self).wf(),
        ensures
            final(self)@ == old(self)@.spec_open(false, false),
            final(self).wf(),
    {
        self.open_impl(false, false);
    }

    fn open_impl(&mut self, was_enter: bool, extend: bool)
        requires
            old(self).wf(),
        ensures
            final(self)@ == old(self)@.spec_open(was_enter, extend),
            final(self).wf(),
    {
        let n = self.selection.selections.len();
        let mut points: Vec<usize> = Vec::new();
        let mut texts: Vec<String> = Vec::new();
        let mut i: usize = 0;
        while i < n
            invariant
                i <= n,
                n == self@.selections.len(),
                self.wf(),
                self@ == old(self)@,
                points@.len() == i,
                texts@.len() == i,
                forall|k: int|
                    0 <= k < i ==> (#[trigger] points@[k]) == self@.opening_points(was_enter)[k]
                        && points@[k] <= self@.text.len(),
                forall|k: int| 0 <= k < i ==> (#[trigger] texts@[k])@ == self@.opening_texts()[k],
            decreases n - i,
        {
            let cursor = self.selection.selections[i].cursor;
            assert(self@.selections[i as int].cursor.0 <= self@.text.len());
            let (indent, increase_indent) = cursor.desired_indent_when_opening_line(&self.text);
            let mut text = char_string('\n');
            if increase_indent {
                text.append(self.indent_text(1).as_str());
            }
            text.append(rope_to_string(&indent).as_str());
            texts.push(text);
            points.push(
                if was_enter {
                    cursor.0
                } else {
                    cursor.forward_to_line_end(&self.text).0
                },
            );
            i += 1;
        }
        let order = back_to_front_order(&points);
        self.selection.clear_cursor_column();
        if !extend {
            self.selection.collapse();
        }
        let ghost start = self@;
        let ghost given = old(self)@.opening_texts();
        proof {
            assert(points@ =~= old(self)@.opening_points(was_enter));
            assert(start.cursor_column =~= Seq::empty());
            assert forall|k: int| 0 <= k < start.selections.len() implies (
            #[trigger] start.selections[k]).anchor.0 <= start.text.len()
                && start.selections[k].cursor.0 <= start.text.len() by {
                assert(old(self)@.selections[k].cursor.0 <= old(self)@.text.len());
            }
            assert(order@.take(0).len() == 0);
        }
        let mut k: usize = 0;
        while k < order.len()
            invariant
                k <= order@.len(),
                n == start.selections.len(),
                points@.len() == n,
                texts@.len() == n,
                start.cursor_column.len() == 0,
                given.len() == n,
                forall|j: int| 0 <= j < n ==> (#[trigger] texts@[j])@ == given[j],
                forall|j: int| 0 <= j < n ==> (#[trigger] points@[j]) <= start.text.len(),
                is_back_to_front(order@, points@),
                self.wf(),
                self@ == start.edited(
                    opened_each(start.doc(), order@.take(k as int), points@, given, extend),
                ),
                self@.selections.len() == n,
                start.text.len() <= self@.text.len(),
            decreases order@.len() - k,
        {
            let i = order[k];
            let at = points[i];
            let ghost before = self@;
            self.put_in(at, texts[i].as_str());
            let inserted_len = texts[i].as_str().unicode_len();
            let mut sel = self.selection.selections[i];
            sel.cursor = Idx(at).forward_n(inserted_len, &self.text);
            if !extend {
                sel = sel.collapsed();
            }
            assert(self@.selections[i as int].anchor.0 <= self@.text.len());
            self.selection.selections.set(i, sel);
            proof {
                assert(order@.take(k + 1).drop_last() =~= order@.take(k as int));
                assert(order@.take(k + 1).last() == order@[k as int]);
                let filled = before.doc().insert_at(points@[i as int], given[i as int]);
                assert(self@.selections =~= filled.selections.update(i as int, sel));
                assert forall|j: int| 0 <= j < self@.selections.len() implies (
                #[trigger] self@.selections[j]).anchor.0 <= self@.text.len()
                    && self@.selections[j].cursor.0 <= self@.text.len() by {
                    if j != i {
                        assert(filled.selections[j].anchor.0 <= filled.text.len());
                    }
                }
            }
            k += 1;
        }
        assert(order@.take(order@.len() as int) =~= order@);
    }

    /// The offsets at which the lines start that the selections touch, in
    /// ascending order.
    fn starts_of_touched_lines(&self) -> (starts: Vec<usize>)
        requires
            self.wf(),
        ensures
            starts@ == self@.indent_starts(),
            forall|k: int| 0 <= k < starts@.len() ==> (#[trigger] starts@[k]) <= self@.text.len(),
            forall|a: int, b: int|
                0 <= a <= b < starts@.len() ==> (#[trigger] starts@[a]) <= (#[trigger] starts@[b]),
    {
        let ghost t = self@.text;
        let lines = self.selection.touched_lines(&self.text);
        proof {
            lemma_touched_below(self@.selections, t, line_count(t) as int);
        }
        let mut starts: Vec<usize> = Vec::new();
        let mut k: usize = 0;
        while k < lines.len()
            invariant
                k <= lines@.len(),
                t == self@.text,
                self.wf(),
                lines@ == touched_below(self@.selections, t, line_count(t) as int),
                forall|j: int| 0 <= j < lines@.len() ==> (#[trigger] lines@[j]) < line_count(t),
                forall|a: int, b: int|
                    0 <= a < b < lines@.len() ==> (#[trigger] lines@[a]) < (#[trigger] lines@[b]),
                starts@.len() == k,
                forall|j: int|
                    0 <= j < k ==> (#[trigger] starts@[j]) == line_start(t, lines@[j] as int)
                        && starts@[j] <= t.len(),
            decreases lines@.len() - k,
        {
            proof {
                lemma_line_start(t, lines@[k as int] as int);
                crate::position::lemma_offset_at(t, lines@[k as int] as int, 0);
            }
            starts.push((Position { line: lines[k], column: 0 }).to_idx(&self.text).0);
            k += 1;
        }
        proof {
            assert(starts@ =~= self@.indent_starts());
            assert forall|a: int, b: int| 0 <= a <= b < starts@.len() implies (
            #[trigger] starts@[a]) <= (#[trigger] starts@[b]) by {
                if a < b {
                    assert(lines@[a] < lines@[b]);
                }
                lemma_line_start_ordered(t, lines@[a] as int, lines@[b] as int);
            }
        }
        starts
    }

    /// Indents every line that a selection touches by `times` levels.
    pub fn increase_indent(&mut self, times: usize)
        requires
            old(self).wf(),
            old(self).tabstop * times <= usize::MAX,
        ensures
            final(self)@ == old(self)@.spec_increase_indent(times as int),
            final(self).wf(),
    {
        let starts = self.starts_of_touched_lines();
        let unit = self.indent_text(times);
        self.selection.clear_cursor_column();
        let ghost start = self@;
        let n = starts.len();
        let mut k: usize = n;
        proof {
            assert(start.cursor_column =~= Seq::empty());
            assert(starts@.subrange(n as int, n as int).len() == 0);
        }
        while k > 0
            invariant
                k <= n,
                n == starts@.len(),
                start.cursor_column.len() == 0,
                forall|j: int| 0 <= j < n ==> (#[trigger] starts@[j]) <= start.text.len(),
                self.wf(),
                self@ == start.edited(
                    indented_each(start.doc(), starts@.subrange(k as int, n as int), unit@),
                ),
                start.text.len() <= self@.text.len(),
            decreases k,
        {
            k -= 1;
            self.put_in(starts[k], unit.as_str());
            proof {
                let done = starts@.subrange(k as int, n as int);
                assert(done.drop_first() =~= starts@.subrange(k + 1, n as int));
                assert(done.first() == starts@[k as int]);
            }
        }
        assert(starts@.subrange(0, n as int) =~= starts@);
    }

    /// Whether the text goes on with the characters of `unit` at `at`.
    fn stands_at(&self, at: usize, unit: &str) -> (r: bool)
        ensures
            r == self@.doc().stands_at(at, unit@),
            r ==> at + unit@.len() <= usize::MAX,
    {
        let len = unit.unicode_len();
        let total = self.text.len_chars();
        if at > total || total - at < len {
            return false;
        }
        let mut j: usize = 0;
        while j < len
            invariant
                j <= len,
                len == unit@.len(),
                at + len <= total,
                total == self@.text.len(),
                forall|k: int| 0 <= k < j ==> self@.text[at + k] == #[trigger] unit@[k],
            decreases len - j,
        {
            if self.text.char(at + j) != unit.get_char(j) {
                assert(self@.text.subrange(at as int, at + len)[j as int] != unit@[j as int]);
                return false;
            }
            j += 1;
        }
        assert(self@.text.subrange(at as int, at + len) =~= unit@);
        true
    }

    /// Takes `times` levels of indentation from every line that a selection
    /// touches and that begins with just that indentation; other lines stay
    /// as they are.
    pub fn decrease_indent(&mut self, times: usize)
        requires
            old(self).wf(),
            old(self).tabstop * times <= usize::MAX,
        ensures
            final(self)@ == old(self)@.spec_decrease_indent(times as int),
            final(self).wf(),
    {
        let starts = self.starts_of_touched_lines();
        let unit = self.indent_text(times);
        let len = unit.as_str().unicode_len();
        self.selection.clear_cursor_column();
        let ghost start = self@;
        let n = starts.len();
        let mut k: usize = n;
        proof {
            assert(start.cursor_column =~= Seq::empty());
            assert(starts@.subrange(n as int, n as int).len() == 0);
        }
        while k > 0
            invariant
                k <= n,
                n == starts@.len(),
                len == unit@.len(),
                start.cursor_column.len() == 0,
                forall|a: int, b: int|
                    0 <= a <= b < n ==> (#[trigger] starts@[a]) <= (#[trigger] starts@[b]),
                forall|j: int| 0 <= j < k ==> (#[trigger] starts@[j]) <= self@.text.len(),
                self.wf(),
                self@ == start.edited(
                    unindented_each(start.doc(), starts@.subrange(k as int, n as int), unit@),
                ),
            decreases k,
        {
            k -= 1;
            let at = starts[k];
            if self.stands_at(at, unit.as_str()) {
                self.take_out(at, at + len);
            }
            proof {
                let done = starts@.subrange(k as int, n as int);
                assert(done.drop_first() =~= starts@.subrange(k + 1, n as int));
                assert(done.first() == starts@[k as int]);
                assert forall|j: int| 0 <= j < k implies (#[trigger] starts@[j])
                    <= self@.text.len() by {
                    assert(starts@[j] <= starts@[k as int]);
                }
            }
        }
        assert(starts@.subrange(0, n as int) =~= starts@);
    }
}

} // verus!
