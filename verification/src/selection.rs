//! Selections: an anchor, a cursor, and the direction the pair faces.
//!
//! The anchor is the fixed end of a selection and the cursor the end that
//! movement repositions. A selection with its two ends apart faces from the
//! anchor to the cursor. One whose ends coincide (a caret) has no direction
//! of its own: it faces the way it last faced, which `was_forward` remembers.

use crate::idx::Idx;
use crate::position::Position;
use crate::text::chars_of;
use ropey::Rope;
use vstd::prelude::*;

verus! {

/// A selection between two positions, which may name columns beyond their
/// lines.
#[derive(Debug, Clone, Copy, PartialEq, Eq, Structural)]
pub struct SelectionUnaligned {
    pub anchor: Position,
    pub cursor: Position,
    pub was_forward: bool,
}

/// `a` comes before `b` in the text: in an earlier line, or in the same line
/// at an earlier column.
pub open spec fn position_before(a: Position, b: Position) -> bool {
    a.line < b.line || (a.line == b.line && a.column < b.column)
}

fn is_position_before(a: Position, b: Position) -> (r: bool)
    ensures
        r == position_before(a, b),
{
    a.line < b.line || (a.line == b.line && a.column < b.column)
}

impl SelectionUnaligned {
    /// Both ends name lines that the text `t` has.
    pub open spec fn in_text(self, t: Seq<char>) -> bool {
        self.anchor.in_text(t) && self.cursor.in_text(t)
    }

    /// The selection with the direction it faces written down: unchanged for
    /// a caret, which has none of its own.
    pub fn update_last_direction(self) -> (r: SelectionUnaligned)
        ensures
            r.anchor == self.anchor,
            r.cursor == self.cursor,
            r.was_forward == if position_before(self.anchor, self.cursor) {
                true
            } else if position_before(self.cursor, self.anchor) {
                false
            } else {
                self.was_forward
            },
    {
        let mut updated = self;
        if is_position_before(self.anchor, self.cursor) {
            updated.was_forward = true;
        } else if is_position_before(self.cursor, self.anchor) {
            updated.was_forward = false;
        }
        updated
    }

    /// The two ends, the earlier one first.
    pub fn sorted(self) -> (r: (Position, Position))
        ensures
            r == if position_before(self.cursor, self.anchor) {
                (self.cursor, self.anchor)
            } else {
                (self.anchor, self.cursor)
            },
    {
        if is_position_before(self.cursor, self.anchor) {
            (self.cursor, self.anchor)
        } else {
            (self.anchor, self.cursor)
        }
    }

    /// Whether the two ends stand at the same offset of `text`.
    pub fn is_empty(self, text: &Rope) -> (r: bool)
        requires
            self.in_text(chars_of(*text)),
        ensures
            r == (self.anchor.offset(chars_of(*text)) == self.cursor.offset(chars_of(*text))),
    {
        let aligned = self.aligned(text);
        aligned.cursor.0 == aligned.anchor.0
    }

    /// The selection between the offsets of the two ends, their columns
    /// trimmed to their lines.
    pub fn aligned(self, text: &Rope) -> (r: Selection)
        requires
            self.in_text(chars_of(*text)),
        ensures
            r.anchor.0 == self.anchor.offset(chars_of(*text)),
            r.cursor.0 == self.cursor.offset(chars_of(*text)),
            r.was_forward == self.was_forward,
            r.within(chars_of(*text)),
    {
        Selection {
            anchor: self.anchor.trim_column_to_buf(text).to_idx(text),
            cursor: self.cursor.trim_column_to_buf(text).to_idx(text),
            was_forward: self.was_forward,
        }
    }

    /// The selection with the lines of both ends trimmed to the text.
    pub fn line_trimed(self, text: &Rope) -> (r: SelectionUnaligned)
        ensures
            r.anchor.line == crate::position::trimmed_line(
                chars_of(*text),
                self.anchor.line as int,
            ),
            r.cursor.line == crate::position::trimmed_line(
                chars_of(*text),
                self.cursor.line as int,
            ),
            r.anchor.column == self.anchor.column,
            r.cursor.column == self.cursor.column,
            r.was_forward == self.was_forward,
            r.in_text(chars_of(*text)),
    {
        SelectionUnaligned {
            anchor: self.anchor.trim_line_to_buf(text),
            cursor: self.cursor.trim_line_to_buf(text),
            was_forward: self.was_forward,
        }
    }

    /// The caret at the cursor: the anchor comes to the cursor.
    pub fn collapsed(self) -> (r: SelectionUnaligned)
        ensures
            r.cursor == self.cursor,
            r.anchor == self.cursor,
            r.was_forward == self.was_forward,
    {
        SelectionUnaligned { cursor: self.cursor, anchor: self.cursor, was_forward: self.was_forward }
    }

    /// The selection with its ends exchanged, facing the other way.
    pub fn reversed(self) -> (r: SelectionUnaligned)
        ensures
            r.anchor == self.cursor,
            r.cursor == self.anchor,
            r.was_forward == !self.was_forward,
    {
        SelectionUnaligned {
            anchor: self.cursor,
            cursor: self.anchor,
            was_forward: !self.was_forward,
        }
    }

    /// The selection between the positions of the two ends of `sel`.
    pub fn from_selection(sel: Selection, text: &Rope) -> (r: SelectionUnaligned)
        requires
            sel.within(chars_of(*text)),
        ensures
            r.cursor == Position::of_offset(chars_of(*text), sel.cursor.0 as int),
            r.anchor == Position::of_offset(chars_of(*text), sel.anchor.0 as int),
            r.was_forward == sel.was_forward,
            r.in_text(chars_of(*text)),
            r.anchor.offset(chars_of(*text)) == sel.anchor.0,
            r.cursor.offset(chars_of(*text)) == sel.cursor.0,
    {
        SelectionUnaligned {
            cursor: sel.cursor.to_position(text),
            anchor: sel.anchor.to_position(text),
            was_forward: sel.was_forward,
        }
    }
}

/// Where an offset `e` comes to stand when `len` characters are put in at
/// `at`: it moves up by `len` if it stood behind `at`, or at `at` and `tied`
/// says that it gives way; it stays where it stood before `at`. An offset
/// that `usize` cannot hold stops at the largest that it can.
pub open spec fn shifted_on_insert(e: usize, at: usize, len: usize, tied: bool) -> usize {
    if at < e || (at == e && tied) {
        if e + len <= usize::MAX {
            (e + len) as usize
        } else {
            usize::MAX
        }
    } else {
        e
    }
}

/// Where an offset `e` comes to stand when the `len` characters from `at` on
/// are taken out: it moves down by `len` if it stood behind them, comes to
/// `at` if it stood among them or at their end, and stays where it stood at
/// or before `at`.
pub open spec fn shifted_on_delete(e: usize, at: usize, len: usize) -> usize {
    if at + len < e {
        (e - len) as usize
    } else if at < e {
        at
    } else {
        e
    }
}

/// A selection between two offsets of a text.
#[derive(Debug, Clone, Copy, PartialEq, Eq, Structural)]
pub struct Selection {
    pub anchor: Idx,
    pub cursor: Idx,
    pub was_forward: bool,
}

impl Default for Selection {
    /// The caret at the start of a text, facing forward.
    fn default() -> (r: Selection)
        ensures
            r == (Selection { anchor: Idx(0), cursor: Idx(0), was_forward: true }),
    {
        Selection { anchor: Idx(0), cursor: Idx(0), was_forward: true }
    }
}

impl Selection {
    /// Both ends lie within the text `t`.
    pub open spec fn within(self, t: Seq<char>) -> bool {
        self.anchor.within(t) && self.cursor.within(t)
    }

    /// The direction the selection faces: from the anchor to the cursor, or
    /// for a caret the direction it last faced.
    pub open spec fn faces_forward(self) -> bool {
        if self.anchor.0 < self.cursor.0 {
            true
        } else if self.cursor.0 < self.anchor.0 {
            false
        } else {
            self.was_forward
        }
    }

    /// The smaller of the two offsets.
    pub open spec fn low(self) -> usize {
        if self.anchor.0 <= self.cursor.0 {
            self.anchor.0
        } else {
            self.cursor.0
        }
    }

    /// The larger of the two offsets.
    pub open spec fn high(self) -> usize {
        if self.anchor.0 <= self.cursor.0 {
            self.cursor.0
        } else {
            self.anchor.0
        }
    }

    /// The selection with its ends exchanged, facing the other way.
    pub open spec fn spec_reversed(self) -> Selection {
        Selection { anchor: self.cursor, cursor: self.anchor, was_forward: !self.was_forward }
    }

    /// The caret at the cursor.
    pub open spec fn spec_collapsed(self) -> Selection {
        Selection { anchor: self.cursor, cursor: self.cursor, was_forward: self.was_forward }
    }

    /// The selection facing forward: itself, or reversed.
    pub open spec fn spec_sorted(self) -> Selection {
        if self.faces_forward() {
            self
        } else {
            self.spec_reversed()
        }
    }

    /// Both ends brought within a text of length `len`.
    pub open spec fn spec_normalized(self, len: nat) -> Selection {
        Selection {
            anchor: if self.anchor.0 <= len {
                self.anchor
            } else {
                Idx(len as usize)
            },
            cursor: if self.cursor.0 <= len {
                self.cursor
            } else {
                Idx(len as usize)
            },
            was_forward: self.was_forward,
        }
    }

    /// The selection, or for a caret the one character that it faces: the
    /// character at the cursor for a caret that faces forward, the one
    /// before it for a caret that faces backward. At the end of a text of
    /// length `len` that a caret faces, it stays a caret.
    pub open spec fn spec_or_direction_marker(self, len: nat) -> Selection {
        if self.anchor.0 == self.cursor.0 {
            Selection {
                anchor: self.anchor,
                cursor: if self.was_forward {
                    Idx(
                        if self.cursor.0 + 1 <= usize::MAX {
                            (self.cursor.0 + 1) as usize
                        } else {
                            usize::MAX
                        },
                    )
                } else {
                    Idx(
                        if self.cursor.0 == 0 {
                            0
                        } else {
                            (self.cursor.0 - 1) as usize
                        },
                    )
                },
                was_forward: self.was_forward,
            }.spec_normalized(len)
        } else {
            self
        }
    }

    /// The selection with the direction it faces written down: unchanged for
    /// a caret, which has none of its own.
    pub open spec fn noted(self) -> Selection {
        Selection { was_forward: self.faces_forward(), ..self }
    }

    /// The selection after its cursor has moved to `to` and its anchor has
    /// come to where the cursor was.
    pub open spec fn moved_to(self, to: usize) -> Selection {
        Selection { anchor: self.cursor, cursor: Idx(to), was_forward: self.was_forward }.noted()
    }

    /// The selection after its cursor has moved to `to`, the anchor staying.
    pub open spec fn extended_to(self, to: usize) -> Selection {
        Selection { anchor: self.anchor, cursor: Idx(to), was_forward: self.was_forward }.noted()
    }

    /// The selection from `anchor` to `cursor`, facing as its ends say, or
    /// as this selection did where they coincide.
    pub open spec fn replaced_by(self, anchor: usize, cursor: usize) -> Selection {
        Selection { anchor: Idx(anchor), cursor: Idx(cursor), was_forward: self.was_forward }.noted()
    }

    /// The selection after `len` characters are put in at `at`. An end
    /// behind `at` moves up. Of two ends at `at`, only the one that trails in
    /// the direction the selection faces moves up (the cursor of a selection
    /// that faces forward, the anchor of one that faces backward): text put
    /// in at the edge of a selection joins it at its far end and stays out
    /// of it at its near end.
    pub open spec fn fixed_on_insert(self, at: usize, len: usize) -> Selection {
        Selection {
            anchor: Idx(shifted_on_insert(self.anchor.0, at, len, !self.faces_forward())),
            cursor: Idx(shifted_on_insert(self.cursor.0, at, len, self.faces_forward())),
            was_forward: self.was_forward,
        }
    }

    /// The selection after the `len` characters from `at` on are taken out.
    /// A selection that loses all its characters becomes a caret that faces
    /// the way the selection did.
    pub open spec fn fixed_on_delete(self, at: usize, len: usize) -> Selection {
        let anchor = shifted_on_delete(self.anchor.0, at, len);
        let cursor = shifted_on_delete(self.cursor.0, at, len);
        Selection {
            anchor: Idx(anchor),
            cursor: Idx(cursor),
            was_forward: if anchor == cursor {
                self.faces_forward()
            } else {
                self.was_forward
            },
        }
    }

    /// The selection from `anchor` to `cursor`, both taken to lie within the
    /// text. A caret made so faces forward.
    pub fn new_from_normalized(anchor: Idx, cursor: Idx) -> (r: Selection)
        ensures
            r.anchor == anchor,
            r.cursor == cursor,
            r.was_forward == (anchor.0 <= cursor.0),
    {
        Selection { anchor, cursor, was_forward: anchor.0 <= cursor.0 }
    }

    /// The selection from `anchor` to `cursor`, both brought within `text`.
    pub fn new(anchor: Idx, cursor: Idx, text: &Rope) -> (r: Selection)
        ensures
            r == (Selection { anchor, cursor, was_forward: anchor.0 <= cursor.0 }).spec_normalized(
                chars_of(*text).len(),
            ),
            r.within(chars_of(*text)),
    {
        Selection::new_from_normalized(anchor, cursor).normalized(text)
    }

    /// `other`, turned to face the way this selection faces.
    pub fn unify_direction_of(self, other: Selection) -> (r: Selection)
        ensures
            r == if self.faces_forward() != other.faces_forward() {
                other.spec_reversed()
            } else {
                other
            },
            r.faces_forward() == self.faces_forward(),
    {
        if self.is_forward() != other.is_forward() {
            other.reversed()
        } else {
            other
        }
    }

    /// The selection with both ends brought within `text`. A caret stays a
    /// caret: no end is moved apart from the other.
    pub fn normalized(self, text: &Rope) -> (r: Selection)
        ensures
            r == self.spec_normalized(chars_of(*text).len()),
            r.within(chars_of(*text)),
    {
        Selection {
            anchor: self.anchor.trim_to_text(text),
            cursor: self.cursor.trim_to_text(text),
            was_forward: self.was_forward,
        }
    }

    /// The selection with both ends brought within `text`.
    pub fn aligned(self, text: &Rope) -> (r: Selection)
        ensures
            r == self.spec_normalized(chars_of(*text).len()),
            r.within(chars_of(*text)),
    {
        self.normalized(text)
    }

    /// Whether the character at `idx` is one of the selected ones.
    pub fn is_idx_strictly_inside(self, idx: Idx) -> (r: bool)
        ensures
            r == (self.low() <= idx.0 < self.high()),
    {
        let anchor = self.anchor.0;
        let cursor = self.cursor.0;
        if anchor < cursor {
            anchor <= idx.0 && idx.0 < cursor
        } else if cursor < anchor {
            cursor <= idx.0 && idx.0 < anchor
        } else {
            false
        }
    }

    /// Whether the character at `idx` is the one that marks the direction
    /// of the selection: the one at the cursor of a selection that faces
    /// forward, the one before the cursor of one that faces backward.
    pub fn is_idx_inside_direction_marker(self, idx: Idx) -> (r: bool)
        ensures
            r == if self.faces_forward() {
                self.cursor.0 == idx.0
            } else {
                self.cursor.0 == idx.0 + 1
            },
    {
        if self.is_forward() {
            self.cursor.0 == idx.0
        } else {
            idx.0 < usize::MAX && self.cursor.0 == idx.0 + 1
        }
    }

    /// The selection, or for a caret the one character that it faces, so
    /// that an operation on the selected text always has some to act on
    /// where the text has any on that side.
    pub fn self_or_direction_marker(self, text: &Rope) -> (r: Selection)
        ensures
            r == self.spec_or_direction_marker(chars_of(*text).len()),
            self.anchor.0 != self.cursor.0 ==> r == self,
            self.anchor.0 == self.cursor.0 ==> r.within(chars_of(*text)),
    {
        if self.anchor.0 == self.cursor.0 {
            let cursor = if self.was_forward {
                Idx(self.cursor.0.saturating_add(1))
            } else {
                Idx(self.cursor.0.saturating_sub(1))
            };
            Selection { anchor: self.anchor, cursor, was_forward: self.was_forward }.normalized(
                text,
            )
        } else {
            self
        }
    }

    /// The selection with the direction it faces written down: unchanged for
    /// a caret, which has none of its own.
    pub fn update_last_direction(self) -> (r: Selection)
        ensures
            r == self.noted(),
    {
        Selection { anchor: self.anchor, cursor: self.cursor, was_forward: self.is_forward() }
    }

    /// The direction the selection faces.
    pub fn is_forward(self) -> (r: bool)
        ensures
            r == self.faces_forward(),
    {
        let anchor = self.anchor.0;
        let cursor = self.cursor.0;
        if anchor < cursor {
            true
        } else if cursor < anchor {
            false
        } else {
            self.was_forward
        }
    }

    /// The selection facing forward: itself, or reversed.
    pub fn sorted(self) -> (r: Selection)
        ensures
            r == self.spec_sorted(),
            r.faces_forward(),
            r.anchor.0 == self.low(),
            r.cursor.0 == self.high(),
    {
        if self.is_forward() {
            self
        } else {
            self.reversed()
        }
    }

    /// The two ends, the smaller first.
    pub fn sorted_pair(self) -> (r: (Idx, Idx))
        ensures
            r.0.0 == self.low(),
            r.1.0 == self.high(),
    {
        if self.anchor.0 <= self.cursor.0 {
            (self.anchor, self.cursor)
        } else {
            (self.cursor, self.anchor)
        }
    }

    /// The selected offsets as a range of `Idx`.
    pub fn sorted_range(self) -> (r: std::ops::Range<Idx>)
        ensures
            r.start.0 == self.low(),
            r.end.0 == self.high(),
    {
        let (a, b) = self.sorted_pair();
        std::ops::Range { start: a, end: b }
    }

    /// The selected offsets as a range of `usize`.
    pub fn sorted_range_usize(self) -> (r: std::ops::Range<usize>)
        ensures
            r.start == self.low(),
            r.end == self.high(),
    {
        let (a, b) = self.sorted_pair();
        std::ops::Range { start: a.0, end: b.0 }
    }

    /// The caret at the cursor: the anchor comes to the cursor.
    pub fn collapsed(self) -> (r: Selection)
        ensures
            r == self.spec_collapsed(),
    {
        Selection { cursor: self.cursor, anchor: self.cursor, was_forward: self.was_forward }
    }

    /// The selection with its ends exchanged, facing the other way.
    pub fn reversed(self) -> (r: Selection)
        ensures
            r == self.spec_reversed(),
            r.faces_forward() == !self.faces_forward(),
    {
        Selection { anchor: self.cursor, cursor: self.anchor, was_forward: !self.was_forward }
    }

    /// Whether the selection is a caret.
    pub fn is_empty(self) -> (r: bool)
        ensures
            r == (self.cursor == self.anchor),
    {
        self.cursor.0 == self.anchor.0
    }

    /// The number of selected characters.
    pub fn len(self) -> (n: usize)
        ensures
            n == self.high() - self.low(),
    {
        let (a, b) = self.sorted_pair();
        b.0 - a.0
    }

    /// The selection after `len` characters are put in at `at`.
    pub fn fix_on_insert(self, at: Idx, len: usize) -> (r: Selection)
        ensures
            r == self.fixed_on_insert(at.0, len),
    {
        let forward = self.is_forward();
        let mut fixed = self;
        if at.0 < self.cursor.0 || (at.0 == self.cursor.0 && forward) {
            fixed.cursor = Idx(self.cursor.0.saturating_add(len));
        }
        if at.0 < self.anchor.0 || (at.0 == self.anchor.0 && !forward) {
            fixed.anchor = Idx(self.anchor.0.saturating_add(len));
        }
        fixed
    }

    /// The selection after the `len` characters from `at` on are taken out.
    pub fn fix_on_delete(self, at: Idx, len: usize) -> (r: Selection)
        ensures
            r == self.fixed_on_delete(at.0, len),
    {
        let forward = self.is_forward();
        let mut fixed = self;
        if at.0 < self.cursor.0.saturating_sub(len) {
            fixed.cursor = Idx(self.cursor.0 - len);
        } else if at.0 < self.cursor.0 {
            fixed.cursor = at;
        }
        if at.0 < self.anchor.0.saturating_sub(len) {
            fixed.anchor = Idx(self.anchor.0 - len);
        } else if at.0 < self.anchor.0 {
            fixed.anchor = at;
        }
        if fixed.anchor.0 == fixed.cursor.0 {
            fixed.was_forward = forward;
        }
        fixed
    }
}

} // verus!
