//! The text storage and its model.
//!
//! The buffer's characters live in a `ropey::Rope`. Contracts speak of a rope
//! through [`chars_of`], the sequence of characters it holds, and of lines
//! through [`is_line_end`], [`count_line_ends`] and [`line_start`], which
//! restate the rope's own notion of a line over that sequence.

use ropey::Rope;
use vstd::prelude::*;

verus! {

/// `ropey::Rope`, taken as it is: all that contracts know of a rope is what
/// [`chars_of`] says it holds.
#[verifier::external_type_specification]
#[verifier::external_body]
pub struct ExRope(ropey::Rope);

/// The characters that a rope holds, first to last.
pub uninterp spec fn chars_of(rope: Rope) -> Seq<char>;

/// The characters that the rope treats as line breaks, built as it is with
/// all the line breaks of Unicode: LF, VT, FF, CR, NEL, LS and PS.
pub open spec fn is_break_char(c: char) -> bool {
    c == '\u{000A}' || c == '\u{000B}' || c == '\u{000C}' || c == '\u{000D}' || c == '\u{0085}'
        || c == '\u{2028}' || c == '\u{2029}'
}

/// A line break ends at offset `j`: the character there is a break character,
/// and it is not a CR directly followed by LF (such a pair is one break, which
/// ends at the LF).
pub open spec fn is_line_end(t: Seq<char>, j: int) -> bool {
    &&& 0 <= j < t.len()
    &&& is_break_char(t[j])
    &&& !(t[j] == '\u{000D}' && j + 1 < t.len() && t[j + 1] == '\u{000A}')
}

/// The number of line breaks that end before offset `n`.
pub open spec fn count_line_ends(t: Seq<char>, n: int) -> nat
    decreases n,
{
    if n <= 0 {
        0
    } else {
        count_line_ends(t, n - 1) + if is_line_end(t, n - 1) {
            1nat
        } else {
            0nat
        }
    }
}

/// The number of lines: one more than the number of line breaks.
pub open spec fn line_count(t: Seq<char>) -> nat {
    count_line_ends(t, t.len() as int) + 1
}

/// The first offset at or after `i` before which at least `l` line breaks
/// end, or the length of the text where there is none.
pub open spec fn first_reaching(t: Seq<char>, l: int, i: int) -> int
    decreases t.len() - i,
{
    if i >= t.len() {
        t.len() as int
    } else if count_line_ends(t, i) >= l {
        i
    } else {
        first_reaching(t, l, i + 1)
    }
}

/// The offset at which line `l` starts: 0 for the first line, the offset just
/// behind the `l`-th line break for a later one, and the length of the text
/// for the line index one past the last.
pub open spec fn line_start(t: Seq<char>, l: int) -> int {
    first_reaching(t, l, 0)
}

/// `t` with `s` put in at offset `at`.
pub open spec fn inserted(t: Seq<char>, at: int, s: Seq<char>) -> Seq<char> {
    t.subrange(0, at) + s + t.subrange(at, t.len() as int)
}

/// `t` without the characters at offsets `from..to`.
pub open spec fn removed(t: Seq<char>, from: int, to: int) -> Seq<char> {
    t.subrange(0, from) + t.subrange(to, t.len() as int)
}

/// `Rope::new`: the empty text.
pub assume_specification[ Rope::new ]() -> (rope: Rope)
    ensures
        chars_of(rope) == Seq::<char>::empty(),
;

/// `Rope::len_chars`: the number of characters held.
pub assume_specification[ Rope::len_chars ](rope: &Rope) -> (n: usize)
    ensures
        n == chars_of(*rope).len(),
;

/// `Rope::len_lines`: the number of line breaks, plus one.
pub assume_specification[ Rope::len_lines ](rope: &Rope) -> (n: usize)
    ensures
        n == line_count(chars_of(*rope)),
;

/// `Rope::char`: the character at an offset within the text.
pub assume_specification[ Rope::char ](rope: &Rope, char_idx: usize) -> (c: char)
    requires
        char_idx < chars_of(*rope).len(),
    ensures
        c == chars_of(*rope)[char_idx as int],
;

/// `Rope::char_to_line`: the number of line breaks that end before the
/// offset, which may be one past the end.
pub assume_specification[ Rope::char_to_line ](rope: &Rope, char_idx: usize) -> (line: usize)
    requires
        char_idx <= chars_of(*rope).len(),
    ensures
        line == count_line_ends(chars_of(*rope), char_idx as int),
;

/// `Rope::line_to_char`: the offset of the first character of the line; for
/// the line index one past the last, the length of the text.
pub assume_specification[ Rope::line_to_char ](rope: &Rope, line_idx: usize) -> (at: usize)
    requires
        line_idx <= line_count(chars_of(*rope)),
    ensures
        at == line_start(chars_of(*rope), line_idx as int),
;

/// `Rope::insert`: puts `text` in at `char_idx`; what stood there moves up.
pub assume_specification[ Rope::insert ](rope: &mut Rope, char_idx: usize, text: &str)
    requires
        char_idx <= chars_of(*old(rope)).len(),
    ensures
        chars_of(*final(rope)) == inserted(chars_of(*old(rope)), char_idx as int, text@),
;

/// `Clone` for `Rope`: the copy holds the same characters.
pub assume_specification[ <Rope as Clone>::clone ](rope: &Rope) -> (copy: Rope)
    ensures
        chars_of(copy) == chars_of(*rope),
;

/// `String::push`: appends one character.
pub assume_specification[ String::push ](s: &mut String, ch: char)
    ensures
        final(s)@ == old(s)@.push(ch),
;

/// `String::pop`: takes off the last character, if there is one.
pub assume_specification[ String::pop ](s: &mut String) -> (last: Option<char>)
    ensures
        match last {
            Some(ch) => old(s)@.len() > 0 && ch == old(s)@.last() && final(s)@ == old(
                s,
            )@.drop_last(),
            None => old(s)@.len() == 0 && final(s)@ == old(s)@,
        },
;

/// `Rope::remove` on the range `from..to`: takes those characters out.
#[verifier::external_body]
pub(crate) fn remove_range(rope: &mut Rope, from: usize, to: usize)
    requires
        from <= to <= chars_of(*old(rope)).len(),
    ensures
        chars_of(*final(rope)) == removed(chars_of(*old(rope)), from as int, to as int),
{
    rope.remove(from..to)
}

/// `Rope::slice` on the range `from..to`, made a rope of its own by `Rope::from`:
/// the characters at those offsets.
#[verifier::external_body]
pub(crate) fn slice_to_rope(rope: &Rope, from: usize, to: usize) -> (part: Rope)
    requires
        from <= to <= chars_of(*rope).len(),
    ensures
        chars_of(part) == chars_of(*rope).subrange(from as int, to as int),
{
    Rope::from(rope.slice(from..to))
}

/// `String::from` on a rope: the rope's characters as a string.
#[verifier::external_body]
pub(crate) fn rope_to_string(rope: &Rope) -> (s: String)
    ensures
        s@ == chars_of(*rope),
{
    String::from(rope)
}

/// `==` on two ropes: whether they hold the same characters.
#[verifier::external_body]
pub(crate) fn same_text(a: &Rope, b: &Rope) -> (same: bool)
    ensures
        same == (chars_of(*a) == chars_of(*b)),
{
    a == b
}

/// The count of line breaks grows with the offset, by at most one a
/// character.
pub proof fn lemma_count_grows(t: Seq<char>, a: int, b: int)
    requires
        0 <= a <= b,
    ensures
        count_line_ends(t, a) <= count_line_ends(t, b) <= count_line_ends(t, a) + (b - a),
    decreases b - a,
{
    if a < b {
        lemma_count_grows(t, a, b - 1);
    }
}

/// What `first_reaching` finds: no offset from `i` up to the result has `l`
/// line breaks before it, and the result has, unless it is the end of the
/// text.
pub proof fn lemma_first_reaching(t: Seq<char>, l: int, i: int)
    requires
        0 <= i <= t.len(),
    ensures
        i <= first_reaching(t, l, i) <= t.len(),
        forall|k: int| i <= k < first_reaching(t, l, i) ==> count_line_ends(t, k) < l,
        first_reaching(t, l, i) < t.len() ==> count_line_ends(t, first_reaching(t, l, i)) >= l,
    decreases t.len() - i,
{
    if i < t.len() && count_line_ends(t, i) < l {
        lemma_first_reaching(t, l, i + 1);
    }
}

/// A line starts within the text. A line that the text has starts just
/// behind as many line breaks as its index says; the index one past the last
/// line stands for the end of the text.
pub proof fn lemma_line_start(t: Seq<char>, l: int)
    requires
        0 <= l,
    ensures
        0 <= line_start(t, l) <= t.len(),
        l < line_count(t) ==> count_line_ends(t, line_start(t, l)) == l,
        l >= line_count(t) ==> line_start(t, l) == t.len(),
        l == 0 ==> line_start(t, l) == 0,
{
    let r = line_start(t, l);
    lemma_first_reaching(t, l, 0);
    lemma_count_grows(t, r, t.len() as int);
    if r > 0 {
        assert(count_line_ends(t, r - 1) < l);
        lemma_count_grows(t, r - 1, r);
    }
}

/// Later lines start later.
pub proof fn lemma_line_start_ordered(t: Seq<char>, a: int, b: int)
    requires
        0 <= a <= b,
    ensures
        line_start(t, a) <= line_start(t, b),
{
    lemma_first_reaching(t, a, 0);
    lemma_first_reaching(t, b, 0);
    let ra = line_start(t, a);
    let rb = line_start(t, b);
    if rb < ra {
        assert(count_line_ends(t, rb) < a);
    }
}

/// An offset lies in the line that `count_line_ends` gives for it: at or
/// behind that line's start, and before the start of the next line unless
/// the line is the last.
pub proof fn lemma_line_of_offset(t: Seq<char>, i: int)
    requires
        0 <= i <= t.len(),
    ensures
        ({
            let l = count_line_ends(t, i) as int;
            &&& l < line_count(t)
            &&& line_start(t, l) <= i
            &&& l + 1 < line_count(t) ==> i < line_start(t, l + 1)
            &&& l + 1 == line_count(t) ==> line_start(t, l + 1) == t.len()
        }),
{
    let l = count_line_ends(t, i) as int;
    lemma_count_grows(t, i, t.len() as int);
    lemma_first_reaching(t, l, 0);
    if line_start(t, l) > i {
        assert(count_line_ends(t, i) < l);
    }
    lemma_line_start(t, l + 1);
    if l + 1 < line_count(t) && line_start(t, l + 1) <= i {
        lemma_count_grows(t, line_start(t, l + 1), i);
    }
}

/// Every offset from the start of a line up to the start of the next lies in
/// that line; in the last line, every offset up to the end of the text.
pub proof fn lemma_offset_in_line(t: Seq<char>, l: int, i: int)
    requires
        0 <= l < line_count(t),
        line_start(t, l) <= i <= t.len(),
        l + 1 < line_count(t) ==> i < line_start(t, l + 1),
    ensures
        count_line_ends(t, i) == l,
{
    lemma_line_start(t, l);
    lemma_count_grows(t, line_start(t, l), i);
    lemma_count_grows(t, i, t.len() as int);
    if l + 1 < line_count(t) {
        lemma_first_reaching(t, l + 1, 0);
    }
}

} // verus!
