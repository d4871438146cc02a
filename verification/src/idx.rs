//! Character offsets into a text, and the scans that move them: by
//! characters, by words, to the ends of a line.

pub mod brackets;

use crate::idx::brackets::opening_before;
use crate::position::{column_of, line_of, offset_at, trimmed_line, Position};
use crate::range::Range;
use crate::text::{chars_of, slice_to_rope};
use crate::util::chars::{
    is_newline, is_non_newline_whitespace, is_not_newline, is_word_forming, spec_is_newline,
    spec_is_non_newline_whitespace, spec_is_not_newline, spec_is_word_forming, whitespace,
};
use ropey::Rope;
use vstd::prelude::*;

verus! {

/// The three classes of characters that word motion tells apart. A word is a
/// longest run of characters of one class.
#[derive(Debug, PartialEq, Eq, Copy, Clone, Structural)]
pub enum CharCategory {
    Alphanumeric,
    Whitespace,
    Punctuation,
}

pub open spec fn spec_char_category(ch: char) -> CharCategory {
    if spec_is_word_forming(ch) {
        CharCategory::Alphanumeric
    } else if whitespace(ch) {
        CharCategory::Whitespace
    } else {
        CharCategory::Punctuation
    }
}

/// The class of a character: word-forming, white space, or anything else.
pub fn char_category(ch: char) -> (r: CharCategory)
    ensures
        r == spec_char_category(ch),
{
    if is_word_forming(ch) {
        CharCategory::Alphanumeric
    } else if ch.is_whitespace() {
        CharCategory::Whitespace
    } else {
        CharCategory::Punctuation
    }
}

/// The end of the run of characters that satisfy `p` and start at `i`: the
/// first offset at or after `i` whose character does not satisfy `p`, or the
/// length of the text.
pub open spec fn run_end(t: Seq<char>, i: int, p: spec_fn(char) -> bool) -> int
    decreases t.len() - i,
{
    if 0 <= i < t.len() && p(t[i]) {
        run_end(t, i + 1, p)
    } else {
        i
    }
}

/// The start of the run of characters that satisfy `p` and end just before
/// `i`: the last offset at or before `i` whose preceding character does not
/// satisfy `p`, or 0.
pub open spec fn run_start(t: Seq<char>, i: int, p: spec_fn(char) -> bool) -> int
    decreases i,
{
    if 0 < i <= t.len() && p(t[i - 1]) {
        run_start(t, i - 1, p)
    } else {
        i
    }
}

/// An offset that closes a run of `p` from `i` is the end of that run.
pub proof fn lemma_run_end_is(t: Seq<char>, i: int, r: int, p: spec_fn(char) -> bool)
    requires
        0 <= i <= r <= t.len(),
        forall|k: int| i <= k < r ==> p(#[trigger] t[k]),
        r == t.len() || !p(t[r]),
    ensures
        run_end(t, i, p) == r,
    decreases r - i,
{
    if i < r {
        lemma_run_end_is(t, i + 1, r, p);
    }
}

/// An offset that opens a run of `p` up to `i` is the start of that run.
pub proof fn lemma_run_start_is(t: Seq<char>, i: int, r: int, p: spec_fn(char) -> bool)
    requires
        0 <= r <= i <= t.len(),
        forall|k: int| r <= k < i ==> p(#[trigger] t[k]),
        r == 0 || !p(t[r - 1]),
    ensures
        run_start(t, i, p) == r,
    decreases i - r,
{
    if r < i {
        lemma_run_start_is(t, i - 1, r, p);
    }
}

/// A run ends within the text, at or after its start.
pub proof fn lemma_run_end_bounds(t: Seq<char>, i: int, p: spec_fn(char) -> bool)
    requires
        0 <= i <= t.len(),
    ensures
        i <= run_end(t, i, p) <= t.len(),
    decreases t.len() - i,
{
    if i < t.len() && p(t[i]) {
        lemma_run_end_bounds(t, i + 1, p);
    }
}

/// Where a forward word scan from `i` begins its word: behind the line feeds
/// that follow `i`.
pub open spec fn word_start_forward(t: Seq<char>, i: int) -> int {
    run_end(t, i, |c: char| spec_is_newline(c))
}

/// Where a forward word scan from `i` stops: behind the word that begins at
/// `word_start_forward`, and behind the white space other than line feeds
/// that follows it.
pub open spec fn word_end_forward(t: Seq<char>, i: int) -> int {
    let start = word_start_forward(t, i);
    let word_end = if 0 <= start < t.len() {
        run_end(t, start, |c: char| spec_char_category(c) == spec_char_category(t[start]))
    } else {
        start
    };
    run_end(t, word_end, |c: char| spec_is_non_newline_whitespace(c))
}

/// Where a backward word scan from `i` begins its word: before the line
/// feeds, and then the other white space, that precede `i`.
pub open spec fn word_start_backward(t: Seq<char>, i: int) -> int {
    run_start(
        t,
        run_start(t, i, |c: char| spec_is_newline(c)),
        |c: char| spec_is_non_newline_whitespace(c),
    )
}

/// Where a backward word scan from `i` stops: before the word that ends at
/// `word_start_backward`.
pub open spec fn word_end_backward(t: Seq<char>, i: int) -> int {
    let start = word_start_backward(t, i);
    if 0 < start <= t.len() {
        run_start(t, start, |c: char| spec_char_category(c) == spec_char_category(t[start - 1]))
    } else {
        start
    }
}

/// The end of the line that holds `i`, not counting its line feed.
pub open spec fn spec_line_end(t: Seq<char>, i: int) -> int {
    run_end(t, i, |c: char| spec_is_not_newline(c))
}

/// The offset just behind the line feed that ends the line of `i`, or the
/// end of the text.
pub open spec fn spec_past_line_end(t: Seq<char>, i: int) -> int {
    let e = spec_line_end(t, i);
    if e < t.len() {
        e + 1
    } else {
        e
    }
}

/// The offset just behind the line feed that precedes `i`, or 0.
pub open spec fn spec_line_begin(t: Seq<char>, i: int) -> int {
    run_start(t, i, |c: char| spec_is_not_newline(c))
}

/// The end of the white space that leads the line of `i`.
pub open spec fn spec_indent_end(t: Seq<char>, i: int) -> int {
    run_end(t, spec_line_begin(t, i), |c: char| spec_is_non_newline_whitespace(c))
}

/// The white space that leads the line of `i`.
pub open spec fn indent_of_line(t: Seq<char>, i: int) -> Seq<char> {
    t.subrange(spec_line_begin(t, i), spec_indent_end(t, i))
}

/// A bracket or quote that is still open at `i` was opened in the line of
/// `i`: a line opened behind `i` is indented one level deeper.
pub open spec fn opens_in_line(t: Seq<char>, i: int) -> bool {
    match opening_before(t, i, Seq::empty()) {
        Some(at) => line_of(t, at) == line_of(t, i),
        None => false,
    }
}

/// Where a vertical move from `i` to line `line` lands: in that line, or the
/// last line of the text, at the column wished for, or at the column of `i`
/// where none is; the column trimmed to the line.
pub open spec fn vertical_target(t: Seq<char>, i: int, line: int, column: Option<usize>) -> int {
    offset_at(
        t,
        trimmed_line(t, line),
        match column {
            Some(c) => c as int,
            None => column_of(t, i),
        },
    )
}

/// A character offset into a text. An offset is *within* a text when it is at
/// most the text's length; the offset equal to the length stands for the end.
#[derive(Copy, Clone, Debug, Default, PartialEq, Eq, PartialOrd, Ord, Structural)]
pub struct Idx(pub usize);

impl Idx {
    /// The offset lies within the text `t`.
    pub open spec fn within(self, t: Seq<char>) -> bool {
        self.0 <= t.len()
    }

    /// The start of the text.
    pub fn begining(_text: &Rope) -> (r: Idx)
        ensures
            r.0 == 0,
    {
        Idx(0)
    }

    /// The end of the text.
    pub fn end(text: &Rope) -> (r: Idx)
        ensures
            r.0 == chars_of(*text).len(),
    {
        Idx(text.len_chars())
    }

    /// One character back; stays at the start of the text.
    pub fn backward(self, text: &Rope) -> (r: Idx)
        ensures
            r.0 == if self.0 == 0 { 0 } else { self.0 - 1 },
    {
        self.backward_n(1, text)
    }

    /// `n` characters back; stops at the start of the text.
    pub fn backward_n(self, n: usize, _text: &Rope) -> (r: Idx)
        ensures
            r.0 == if self.0 <= n { 0 } else { self.0 - n },
    {
        Idx(self.0.saturating_sub(n))
    }

    /// `n` characters on; stops at the end of the text.
    pub fn forward_n(self, n: usize, text: &Rope) -> (r: Idx)
        ensures
            r.0 == if self.0 + n <= chars_of(*text).len() {
                self.0 + n
            } else {
                chars_of(*text).len() as int
            },
            r.within(chars_of(*text)),
    {
        let moved = self.0.saturating_add(n);
        let len = text.len_chars();
        if moved <= len {
            Idx(moved)
        } else {
            Idx(len)
        }
    }

    /// One character on; stops at the end of the text.
    pub fn forward(self, text: &Rope) -> (r: Idx)
        ensures
            r.0 == if self.0 + 1 <= chars_of(*text).len() {
                self.0 + 1
            } else {
                chars_of(*text).len() as int
            },
            r.within(chars_of(*text)),
    {
        self.forward_n(1, text)
    }

    /// The character before the offset, if there is one.
    pub fn prev_char(self, text: &Rope) -> (r: Option<char>)
        requires
            self.within(chars_of(*text)),
        ensures
            r == if self.0 == 0 {
                None
            } else {
                Some(chars_of(*text)[self.0 - 1])
            },
    {
        if self.0 == 0 {
            None
        } else {
            Some(text.char(self.0 - 1))
        }
    }

    /// The character at the offset, if there is one.
    pub fn next_char(self, text: &Rope) -> (r: Option<char>)
        ensures
            r == if self.0 >= chars_of(*text).len() {
                None
            } else {
                Some(chars_of(*text)[self.0 as int])
            },
    {
        if self.0 >= text.len_chars() {
            None
        } else {
            Some(text.char(self.0))
        }
    }

    /// Moves back while `f` accepts the character before the offset.
    pub fn backward_while<F: Fn(char) -> bool>(self, f: F, text: &Rope) -> (r: Idx)
        requires
            self.within(chars_of(*text)),
            forall|c: char| call_requires(f, (c,)),
        ensures
            r.0 <= self.0,
            forall|k: int| r.0 <= k < self.0 ==> call_ensures(f, (#[trigger] chars_of(*text)[k],), true),
            r.0 == 0 || call_ensures(f, (chars_of(*text)[r.0 - 1],), false),
    {
        let mut cur = self;
        loop
            invariant
                cur.0 <= self.0,
                self.within(chars_of(*text)),
                forall|c: char| call_requires(f, (c,)),
                forall|k: int|
                    cur.0 <= k < self.0 ==> call_ensures(f, (#[trigger] chars_of(*text)[k],), true),
            ensures
                cur.0 == 0 || call_ensures(f, (chars_of(*text)[cur.0 - 1],), false),
            decreases cur.0,
        {
            match cur.prev_char(text) {
                None => {
                    break ;
                },
                Some(ch) => {
                    if !f(ch) {
                        break ;
                    }
                    cur = cur.backward(text);
                },
            }
        }
        cur
    }

    /// Moves on while `f` accepts the character at the offset.
    pub fn forward_while<F: Fn(char) -> bool>(self, f: F, text: &Rope) -> (r: Idx)
        requires
            self.within(chars_of(*text)),
            forall|c: char| call_requires(f, (c,)),
        ensures
            self.0 <= r.0 <= chars_of(*text).len(),
            forall|k: int| self.0 <= k < r.0 ==> call_ensures(f, (#[trigger] chars_of(*text)[k],), true),
            r.0 == chars_of(*text).len() || call_ensures(f, (chars_of(*text)[r.0 as int],), false),
    {
        let mut cur = self;
        loop
            invariant
                self.0 <= cur.0 <= chars_of(*text).len(),
                forall|c: char| call_requires(f, (c,)),
                forall|k: int|
                    self.0 <= k < cur.0 ==> call_ensures(f, (#[trigger] chars_of(*text)[k],), true),
            ensures
                cur.0 == chars_of(*text).len() || call_ensures(
                    f,
                    (chars_of(*text)[cur.0 as int],),
                    false,
                ),
            decreases chars_of(*text).len() - cur.0,
        {
            match cur.next_char(text) {
                None => {
                    break ;
                },
                Some(ch) => {
                    if !f(ch) {
                        break ;
                    }
                    cur = cur.forward(text);
                },
            }
        }
        cur
    }

    /// The word before the offset: where it ends (`start`, the point the scan
    /// sets out from after skipping back over white space) and where it
    /// begins (`cur`).
    pub fn backward_word(self, text: &Rope) -> (r: (Idx, Idx))
        requires
            self.within(chars_of(*text)),
        ensures
            r.0.0 == word_start_backward(chars_of(*text), self.0 as int),
            r.1.0 == word_end_backward(chars_of(*text), self.0 as int),
            r.1.0 <= r.0.0 <= self.0,
    {
        let ghost t = chars_of(*text);
        let after_newlines = self.backward_while(is_newline, text);
        proof {
            lemma_run_start_is(t, self.0 as int, after_newlines.0 as int, |c: char| spec_is_newline(c));
        }
        let start = after_newlines.backward_while(is_non_newline_whitespace, text);
        proof {
            lemma_run_start_is(
                t,
                after_newlines.0 as int,
                start.0 as int,
                |c: char| spec_is_non_newline_whitespace(c),
            );
        }
        let mut cur = start;
        match start.prev_char(text) {
            None => {},
            Some(first) => {
                let category = char_category(first);
                let same = |ch: char| -> (b: bool)
                    ensures
                        b == (spec_char_category(ch) == category),
                    { char_category(ch) == category };
                cur = start.backward_while(same, text);
                proof {
                    lemma_run_start_is(
                        t,
                        start.0 as int,
                        cur.0 as int,
                        |c: char| spec_char_category(c) == spec_char_category(t[start.0 - 1]),
                    );
                }
            },
        }
        (start, cur)
    }

    /// The word at or after the offset: where it begins (`start`, behind any
    /// line feeds) and where the next one begins (`cur`, behind the word and
    /// the white space other than line feeds that follows it).
    pub fn forward_word(self, text: &Rope) -> (r: (Idx, Idx))
        requires
            self.within(chars_of(*text)),
        ensures
            r.0.0 == word_start_forward(chars_of(*text), self.0 as int),
            r.1.0 == word_end_forward(chars_of(*text), self.0 as int),
            self.0 <= r.0.0 <= r.1.0 <= chars_of(*text).len(),
    {
        let ghost t = chars_of(*text);
        let start = self.forward_while(is_newline, text);
        proof {
            lemma_run_end_is(t, self.0 as int, start.0 as int, |c: char| spec_is_newline(c));
        }
        let mut cur = start;
        match start.next_char(text) {
            None => {},
            Some(first) => {
                let category = char_category(first);
                let same = |ch: char| -> (b: bool)
                    ensures
                        b == (spec_char_category(ch) == category),
                    { char_category(ch) == category };
                cur = start.forward_while(same, text);
                proof {
                    lemma_run_end_is(
                        t,
                        start.0 as int,
                        cur.0 as int,
                        |c: char| spec_char_category(c) == spec_char_category(t[start.0 as int]),
                    );
                }
            },
        }
        let word_end = cur;
        cur = cur.forward_while(is_non_newline_whitespace, text);
        proof {
            lemma_run_end_is(
                t,
                word_end.0 as int,
                cur.0 as int,
                |c: char| spec_is_non_newline_whitespace(c),
            );
        }
        (start, cur)
    }

    /// To the end of the line, before its line feed.
    pub fn forward_to_line_end(self, text: &Rope) -> (r: Idx)
        requires
            self.within(chars_of(*text)),
        ensures
            r.0 == spec_line_end(chars_of(*text), self.0 as int),
            self.0 <= r.0 <= chars_of(*text).len(),
    {
        let r = self.forward_while(is_not_newline, text);
        proof {
            lemma_run_end_is(
                chars_of(*text),
                self.0 as int,
                r.0 as int,
                |c: char| spec_is_not_newline(c),
            );
        }
        r
    }

    /// To the start of the next line, behind the line feed of this one.
    pub fn forward_past_line_end(self, text: &Rope) -> (r: Idx)
        requires
            self.within(chars_of(*text)),
        ensures
            r.0 == spec_past_line_end(chars_of(*text), self.0 as int),
            self.0 <= r.0 <= chars_of(*text).len(),
    {
        self.forward_to_line_end(text).forward(text)
    }

    /// To the start of the line, behind the line feed of the one before.
    pub fn backward_to_line_start(self, text: &Rope) -> (r: Idx)
        requires
            self.within(chars_of(*text)),
        ensures
            r.0 == spec_line_begin(chars_of(*text), self.0 as int),
            r.0 <= self.0,
    {
        let r = self.backward_while(is_not_newline, text);
        proof {
            lemma_run_start_is(
                chars_of(*text),
                self.0 as int,
                r.0 as int,
                |c: char| spec_is_not_newline(c),
            );
        }
        r
    }

    /// To the first character of the line that is not white space: the end of
    /// the line's indentation.
    pub fn before_first_non_whitespace(self, text: &Rope) -> (r: Idx)
        requires
            self.within(chars_of(*text)),
        ensures
            r.0 == spec_indent_end(chars_of(*text), self.0 as int),
            r.within(chars_of(*text)),
    {
        let begin = self.backward_to_line_start(text);
        let r = begin.forward_while(is_non_newline_whitespace, text);
        proof {
            lemma_run_end_is(
                chars_of(*text),
                begin.0 as int,
                r.0 as int,
                |c: char| spec_is_non_newline_whitespace(c),
            );
        }
        r
    }

    /// The position of the offset.
    pub fn to_position(self, text: &Rope) -> (r: Position)
        requires
            self.within(chars_of(*text)),
        ensures
            r == Position::of_offset(chars_of(*text), self.0 as int),
            r.line == line_of(chars_of(*text), self.0 as int),
            r.column == column_of(chars_of(*text), self.0 as int),
            r.in_text(chars_of(*text)),
            r.offset(chars_of(*text)) == self.0,
    {
        Position::from_idx(self, text)
    }

    /// The indentation to give a line opened at this offset: the white space
    /// that leads the offset's line, and whether to indent one level deeper,
    /// which is so when a bracket or quote opened in this line is still open
    /// here.
    pub fn desired_indent_when_opening_line(&self, text: &Rope) -> (r: (Rope, bool))
        requires
            self.within(chars_of(*text)),
        ensures
            chars_of(r.0) == indent_of_line(chars_of(*text), self.0 as int),
            r.1 == opens_in_line(chars_of(*text), self.0 as int),
    {
        let increase_indent = match self.to_after_indent_opening_char(text) {
            Some(indent_opening) => indent_opening.to_position(text).line == self.to_position(
                text,
            ).line,
            None => false,
        };
        let line_begining = self.backward_to_line_start(text);
        let indent_end = self.before_first_non_whitespace(text);
        proof {
            lemma_run_end_bounds(
                chars_of(*text),
                line_begining.0 as int,
                |c: char| spec_is_non_newline_whitespace(c),
            );
        }
        (slice_to_rope(text, line_begining.0, indent_end.0), increase_indent)
    }

    /// `n` lines down, to the column `column` where one is given and to the
    /// offset's own column else; stops in the last line.
    pub fn down_unaligned(self, n: usize, column: Option<usize>, text: &Rope) -> (r: Idx)
        requires
            self.within(chars_of(*text)),
        ensures
            r.0 == vertical_target(
                chars_of(*text),
                self.0 as int,
                line_of(chars_of(*text), self.0 as int) + n,
                column,
            ),
            r.within(chars_of(*text)),
    {
        let mut coord = self.to_position(text);
        coord.line = coord.line.saturating_add(n);
        match column {
            Some(c) => {
                coord.column = c;
            },
            None => {},
        }
        coord.trim_line_to_buf(text).to_idx(text)
    }

    /// `n` lines up, to the column `column` where one is given and to the
    /// offset's own column else; stops in the first line.
    pub fn up_unaligned(self, n: usize, column: Option<usize>, text: &Rope) -> (r: Idx)
        requires
            self.within(chars_of(*text)),
        ensures
            r.0 == vertical_target(
                chars_of(*text),
                self.0 as int,
                if line_of(chars_of(*text), self.0 as int) <= n {
                    0
                } else {
                    line_of(chars_of(*text), self.0 as int) - n
                },
                column,
            ),
            r.within(chars_of(*text)),
    {
        let mut coord = self.to_position(text);
        coord.line = coord.line.saturating_sub(n);
        match column {
            Some(c) => {
                coord.column = c;
            },
            None => {},
        }
        coord.trim_line_to_buf(text).to_idx(text)
    }

    /// The offset itself where it lies within the text, else the end of the
    /// text.
    pub fn trim_to_text(self, text: &Rope) -> (r: Idx)
        ensures
            r.0 == if self.0 <= chars_of(*text).len() {
                self.0 as int
            } else {
                chars_of(*text).len() as int
            },
            r.within(chars_of(*text)),
    {
        let len = text.len_chars();
        if self.0 > len {
            Idx(len)
        } else {
            self
        }
    }

    /// The range from this offset to `other`.
    pub fn range_to(self, other: Idx) -> (r: Range)
        ensures
            r.from == self,
            r.to == other,
    {
        Range { from: self, to: other }
    }
}

} // verus!
