//! Line and column positions, and their conversion to and from offsets.
//!
//! A position names a line of the text and a column in it. The column may
//! lie beyond the end of the line: such a position remembers a column wished
//! for while the cursor passes through shorter lines. It is trimmed to the
//! line before it is turned into an offset.

use crate::idx::{
    spec_line_begin, spec_line_end, spec_past_line_end, word_end_backward, word_end_forward,
    word_start_backward, word_start_forward, Idx,
};
use crate::text::{
    chars_of, count_line_ends, lemma_line_of_offset, lemma_line_start, lemma_line_start_ordered,
    lemma_offset_in_line, line_count, line_start,
};
use ropey::Rope;
use vstd::prelude::*;

verus! {

/// The number of characters in line `l`, its line break included.
pub open spec fn line_len(t: Seq<char>, l: int) -> int {
    line_start(t, l + 1) - line_start(t, l)
}

/// The column that `column` is trimmed to in line `l`: at most the last
/// character of the line (its line break, as a rule), and in the last line
/// at most the end of the text.
pub open spec fn trimmed_column(t: Seq<char>, l: int, column: int) -> int {
    let n = line_len(t, l);
    let most = if n == 0 {
        0
    } else if l + 1 == line_count(t) {
        n
    } else {
        n - 1
    };
    if column <= most {
        column
    } else {
        most
    }
}

/// The line that `line` is trimmed to: at most the last line of the text.
pub open spec fn trimmed_line(t: Seq<char>, line: int) -> int {
    if line < line_count(t) {
        line
    } else {
        line_count(t) - 1
    }
}

/// The offset that stands at line `line` and column `column`, the column
/// trimmed to the line.
pub open spec fn offset_at(t: Seq<char>, line: int, column: int) -> int {
    line_start(t, line) + trimmed_column(t, line, column)
}

/// The line in which offset `i` lies.
pub open spec fn line_of(t: Seq<char>, i: int) -> int {
    count_line_ends(t, i) as int
}

/// The column at which offset `i` stands in its line.
pub open spec fn column_of(t: Seq<char>, i: int) -> int {
    i - line_start(t, line_of(t, i))
}

/// A trimmed column keeps the offset in its line and within the text.
pub proof fn lemma_offset_at(t: Seq<char>, line: int, column: int)
    requires
        0 <= line < line_count(t),
        0 <= column,
    ensures
        0 <= trimmed_column(t, line, column) <= column,
        line_start(t, line) <= offset_at(t, line, column) <= t.len(),
        line_of(t, offset_at(t, line, column)) == line,
        column_of(t, offset_at(t, line, column)) == trimmed_column(t, line, column),
{
    lemma_line_start(t, line);
    lemma_line_start(t, line + 1);
    lemma_line_start_ordered(t, line, line + 1);
    lemma_offset_in_line(t, line, offset_at(t, line, column));
}

/// Turning an offset into a position and back gives the offset again.
pub proof fn lemma_offset_round_trip(t: Seq<char>, i: int)
    requires
        0 <= i <= t.len(),
    ensures
        0 <= line_of(t, i) < line_count(t),
        0 <= column_of(t, i),
        offset_at(t, line_of(t, i), column_of(t, i)) == i,
{
    lemma_line_of_offset(t, i);
    lemma_line_start(t, line_of(t, i));
    lemma_line_start(t, line_of(t, i) + 1);
}

/// A line and a column in a text.
#[derive(Copy, Clone, Debug, Default, PartialOrd, PartialEq, Eq, Ord, Structural)]
pub struct Position {
    pub line: usize,
    pub column: usize,
}

impl Position {
    /// The position names a line that the text `t` has.
    pub open spec fn in_text(self, t: Seq<char>) -> bool {
        self.line < line_count(t)
    }

    /// The position of the offset `i`.
    pub open spec fn of_offset(t: Seq<char>, i: int) -> Position {
        Position { line: line_of(t, i) as usize, column: column_of(t, i) as usize }
    }

    /// The offset at this position, its column trimmed to the line.
    pub open spec fn offset(self, t: Seq<char>) -> int {
        offset_at(t, self.line as int, self.column as int)
    }

    /// Turns the position into an offset, applies `f`, and turns the result
    /// back into a position.
    pub fn map_as_idx<F: FnOnce(Idx) -> Idx>(self, text: &Rope, f: F) -> (r: Position)
        requires
            self.in_text(chars_of(*text)),
            call_requires(f, (Idx(self.offset(chars_of(*text)) as usize),)),
            forall|out: Idx|
                call_ensures(f, (Idx(self.offset(chars_of(*text)) as usize),), out)
                    ==> out.within(chars_of(*text)),
        ensures
            exists|out: Idx|
                call_ensures(f, (Idx(self.offset(chars_of(*text)) as usize),), out) && r
                    == Position::of_offset(chars_of(*text), out.0 as int),
            r.in_text(chars_of(*text)),
    {
        let out = f(self.to_idx(text));
        Position::from_idx(out, text)
    }

    /// As `map_as_idx`, for an `f` that gives two offsets.
    pub fn map_as_idx_2<F: FnOnce(Idx) -> (Idx, Idx)>(self, text: &Rope, f: F) -> (r: (
        Position,
        Position,
    ))
        requires
            self.in_text(chars_of(*text)),
            call_requires(f, (Idx(self.offset(chars_of(*text)) as usize),)),
            forall|out: (Idx, Idx)|
                call_ensures(f, (Idx(self.offset(chars_of(*text)) as usize),), out)
                    ==> out.0.within(chars_of(*text)) && out.1.within(chars_of(*text)),
        ensures
            exists|out: (Idx, Idx)|
                call_ensures(f, (Idx(self.offset(chars_of(*text)) as usize),), out) && r.0
                    == Position::of_offset(chars_of(*text), out.0.0 as int) && r.1
                    == Position::of_offset(chars_of(*text), out.1.0 as int),
            r.0.in_text(chars_of(*text)),
            r.1.in_text(chars_of(*text)),
    {
        let (a, b) = f(self.to_idx(text));
        (Position::from_idx(a, text), Position::from_idx(b, text))
    }

    /// The same column in line `line`, or in the last line where the text
    /// has no such line.
    pub fn set_line(self, line: usize, text: &Rope) -> (r: Position)
        ensures
            r.line == trimmed_line(chars_of(*text), line as int),
            r.column == self.column,
            r.in_text(chars_of(*text)),
    {
        Position { line, column: self.column }.trim_line_to_buf(text)
    }

    /// Column `column` of the same line, trimmed to the line.
    pub fn set_column(self, column: usize, text: &Rope) -> (r: Position)
        requires
            self.in_text(chars_of(*text)),
        ensures
            r.line == self.line,
            r.column == trimmed_column(chars_of(*text), self.line as int, column as int),
    {
        Position { line: self.line, column }.trim_column_to_buf(text)
    }

    /// The offset at this position, its column trimmed to the line.
    pub fn to_idx(self, text: &Rope) -> (r: Idx)
        requires
            self.in_text(chars_of(*text)),
        ensures
            r.0 == self.offset(chars_of(*text)),
            r.within(chars_of(*text)),
    {
        let trimmed = self.trim_column_to_buf(text);
        proof {
            lemma_offset_at(chars_of(*text), self.line as int, self.column as int);
        }
        Idx(text.line_to_char(trimmed.line) + trimmed.column)
    }

    /// `n` lines up, the column kept as it is; stops at the first line.
    pub fn up_unaligned(self, n: usize, _text: &Rope) -> (r: Position)
        ensures
            r.line == if self.line <= n { 0 } else { self.line - n },
            r.column == self.column,
    {
        Position { line: self.line.saturating_sub(n), column: self.column }
    }

    /// `n` lines down, the column kept as it is; stops at the last line.
    pub fn down_unaligned(self, n: usize, text: &Rope) -> (r: Position)
        ensures
            r.line == trimmed_line(chars_of(*text), self.line + n),
            r.column == self.column,
            r.in_text(chars_of(*text)),
    {
        Position { line: self.line.saturating_add(n), column: self.column }.trim_line_to_buf(text)
    }

    /// The position with its column trimmed to its line: a column beyond the
    /// line comes back to the line's last character, or to the end of the
    /// text in the last line.
    pub fn trim_column_to_buf(self, text: &Rope) -> (r: Position)
        requires
            self.in_text(chars_of(*text)),
        ensures
            r.line == self.line,
            r.column == trimmed_column(chars_of(*text), self.line as int, self.column as int),
            line_start(chars_of(*text), self.line as int) + r.column <= usize::MAX,
    {
        proof {
            lemma_line_start(chars_of(*text), self.line as int);
            lemma_line_start(chars_of(*text), self.line + 1);
            lemma_line_start_ordered(chars_of(*text), self.line as int, self.line + 1);
        }
        let lines = text.len_lines();
        let line_len = text.line_to_char(self.line + 1) - text.line_to_char(self.line);
        let most = if line_len == 0 {
            0
        } else if self.line + 1 == lines {
            line_len
        } else {
            line_len - 1
        };
        Position { line: self.line, column: if self.column <= most { self.column } else { most } }
    }

    /// The number of characters in line `line` of `text`, its line break
    /// included.
    pub fn line_length(line: usize, text: &Rope) -> (n: usize)
        requires
            line < line_count(chars_of(*text)),
        ensures
            n == line_len(chars_of(*text), line as int),
    {
        proof {
            lemma_line_start(chars_of(*text), line as int);
            lemma_line_start(chars_of(*text), line + 1);
            lemma_line_start_ordered(chars_of(*text), line as int, line + 1);
        }
        let _lines = text.len_lines();
        text.line_to_char(line + 1) - text.line_to_char(line)
    }

    /// The position with its line trimmed to the text: a line beyond the
    /// last comes back to the last.
    pub fn trim_line_to_buf(self, text: &Rope) -> (r: Position)
        ensures
            r.line == trimmed_line(chars_of(*text), self.line as int),
            r.column == self.column,
            r.in_text(chars_of(*text)),
            line_count(chars_of(*text)) <= usize::MAX,
    {
        let last = text.len_lines() - 1;
        Position { line: if self.line <= last { self.line } else { last }, column: self.column }
    }

    /// The position of an offset.
    pub fn from_idx(idx: Idx, text: &Rope) -> (r: Position)
        requires
            idx.within(chars_of(*text)),
        ensures
            r == Position::of_offset(chars_of(*text), idx.0 as int),
            r.line == line_of(chars_of(*text), idx.0 as int),
            r.column == column_of(chars_of(*text), idx.0 as int),
            r.in_text(chars_of(*text)),
            r.offset(chars_of(*text)) == idx.0,
    {
        proof {
            lemma_offset_round_trip(chars_of(*text), idx.0 as int);
            lemma_line_of_offset(chars_of(*text), idx.0 as int);
        }
        let line = text.char_to_line(idx.0);
        let line_start_pos = text.line_to_char(line);
        let column = idx.0 - line_start_pos;
        Position { line, column }
    }

    /// `n` characters on; stops at the end of the text.
    pub fn forward(self, n: usize, text: &Rope) -> (r: Position)
        requires
            self.in_text(chars_of(*text)),
        ensures
            r == Position::of_offset(
                chars_of(*text),
                if self.offset(chars_of(*text)) + n <= chars_of(*text).len() {
                    self.offset(chars_of(*text)) + n
                } else {
                    chars_of(*text).len() as int
                },
            ),
            r.offset(chars_of(*text)) == (
                if self.offset(chars_of(*text)) + n <= chars_of(*text).len() {
                    self.offset(chars_of(*text)) + n
                } else {
                    chars_of(*text).len() as int
                }
            ),
            r.in_text(chars_of(*text)),
    {
        Position::from_idx(self.to_idx(text).forward_n(n, text), text)
    }

    /// To the end of the line, before its line feed.
    pub fn forward_to_line_end(self, text: &Rope) -> (r: Position)
        requires
            self.in_text(chars_of(*text)),
        ensures
            r == Position::of_offset(
                chars_of(*text),
                spec_line_end(chars_of(*text), self.offset(chars_of(*text))),
            ),
            r.offset(chars_of(*text)) == (
                spec_line_end(chars_of(*text), self.offset(chars_of(*text)))
            ),
            r.in_text(chars_of(*text)),
    {
        Position::from_idx(self.to_idx(text).forward_to_line_end(text), text)
    }

    /// To the start of the next line, behind the line feed of this one.
    pub fn forward_past_line_end(self, text: &Rope) -> (r: Position)
        requires
            self.in_text(chars_of(*text)),
        ensures
            r == Position::of_offset(
                chars_of(*text),
                spec_past_line_end(chars_of(*text), self.offset(chars_of(*text))),
            ),
            r.offset(chars_of(*text)) == (
                spec_past_line_end(chars_of(*text), self.offset(chars_of(*text)))
            ),
            r.in_text(chars_of(*text)),
    {
        Position::from_idx(self.to_idx(text).forward_past_line_end(text), text)
    }

    /// To the start of the line, behind the line feed of the one before.
    pub fn backward_to_line_start(self, text: &Rope) -> (r: Position)
        requires
            self.in_text(chars_of(*text)),
        ensures
            r == Position::of_offset(
                chars_of(*text),
                spec_line_begin(chars_of(*text), self.offset(chars_of(*text))),
            ),
            r.offset(chars_of(*text)) == (
                spec_line_begin(chars_of(*text), self.offset(chars_of(*text)))
            ),
            r.in_text(chars_of(*text)),
    {
        Position::from_idx(self.to_idx(text).backward_to_line_start(text), text)
    }

    /// `n` characters back; stops at the start of the text.
    pub fn backward(self, n: usize, text: &Rope) -> (r: Position)
        requires
            self.in_text(chars_of(*text)),
        ensures
            r == Position::of_offset(
                chars_of(*text),
                if self.offset(chars_of(*text)) <= n {
                    0
                } else {
                    self.offset(chars_of(*text)) - n
                },
            ),
            r.offset(chars_of(*text)) == (
                if self.offset(chars_of(*text)) <= n {
                    0
                } else {
                    self.offset(chars_of(*text)) - n
                }
            ),
            r.in_text(chars_of(*text)),
    {
        Position::from_idx(self.to_idx(text).backward_n(n, text), text)
    }

    /// The word at or after the position: where it begins, and where the
    /// next one begins.
    pub fn forward_word(self, text: &Rope) -> (r: (Position, Position))
        requires
            self.in_text(chars_of(*text)),
        ensures
            r.0 == Position::of_offset(
                chars_of(*text),
                word_start_forward(chars_of(*text), self.offset(chars_of(*text))),
            ),
            r.1 == Position::of_offset(
                chars_of(*text),
                word_end_forward(chars_of(*text), self.offset(chars_of(*text))),
            ),
            r.0.offset(chars_of(*text)) == word_start_forward(
                chars_of(*text),
                self.offset(chars_of(*text)),
            ),
            r.1.offset(chars_of(*text)) == word_end_forward(
                chars_of(*text),
                self.offset(chars_of(*text)),
            ),
    {
        let (start, cur) = self.to_idx(text).forward_word(text);
        (Position::from_idx(start, text), Position::from_idx(cur, text))
    }

    /// The word before the position: where it ends, and where it begins.
    pub fn backward_word(self, text: &Rope) -> (r: (Position, Position))
        requires
            self.in_text(chars_of(*text)),
        ensures
            r.0 == Position::of_offset(
                chars_of(*text),
                word_start_backward(chars_of(*text), self.offset(chars_of(*text))),
            ),
            r.1 == Position::of_offset(
                chars_of(*text),
                word_end_backward(chars_of(*text), self.offset(chars_of(*text))),
            ),
            r.0.offset(chars_of(*text)) == word_start_backward(
                chars_of(*text),
                self.offset(chars_of(*text)),
            ),
            r.1.offset(chars_of(*text)) == word_end_backward(
                chars_of(*text),
                self.offset(chars_of(*text)),
            ),
    {
        let (start, cur) = self.to_idx(text).backward_word(text);
        (Position::from_idx(start, text), Position::from_idx(cur, text))
    }
}

} // verus!
