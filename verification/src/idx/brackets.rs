//! Bracket scans: from an offset outward to the brackets and quotes that
//! enclose it.
//!
//! The scans keep a stack (or two queues) of the brackets met so far. A
//! bracket is resolved against the one it pairs with; a quote character
//! pairs with itself, so quotes alternate between opening and closing.

use crate::idx::Idx;
use crate::text::chars_of;
use ropey::Rope;
use std::collections::VecDeque;
use vstd::prelude::*;

verus! {

pub open spec fn spec_is_indent_opening_char(ch: char) -> bool {
    ch == '{' || ch == '(' || ch == '[' || ch == '<' || ch == '"' || ch == '\''
}

pub open spec fn spec_is_indent_closing_char(ch: char) -> bool {
    ch == '}' || ch == ')' || ch == ']' || ch == '>' || ch == '"' || ch == '\''
}

pub open spec fn spec_matching_char(ch: char) -> char {
    if ch == '{' {
        '}'
    } else if ch == '}' {
        '{'
    } else if ch == '[' {
        ']'
    } else if ch == ']' {
        '['
    } else if ch == '<' {
        '>'
    } else if ch == '>' {
        '<'
    } else if ch == '(' {
        ')'
    } else if ch == ')' {
        '('
    } else {
        ch
    }
}

/// A character that can open a nesting level: an opening bracket or a quote.
pub fn is_indent_opening_char(ch: char) -> (r: bool)
    ensures
        r == spec_is_indent_opening_char(ch),
{
    ch == '{' || ch == '(' || ch == '[' || ch == '<' || ch == '"' || ch == '\''
}

/// A character that can close a nesting level: a closing bracket or a quote.
pub fn is_indent_closing_char(ch: char) -> (r: bool)
    ensures
        r == spec_is_indent_closing_char(ch),
{
    ch == '}' || ch == ')' || ch == ']' || ch == '>' || ch == '"' || ch == '\''
}

/// The character that a bracket pairs with; any other character pairs with
/// itself.
pub fn matching_char(ch: char) -> (r: char)
    ensures
        r == spec_matching_char(ch),
{
    if ch == '{' {
        '}'
    } else if ch == '}' {
        '{'
    } else if ch == '[' {
        ']'
    } else if ch == ']' {
        '['
    } else if ch == '<' {
        '>'
    } else if ch == '>' {
        '<'
    } else if ch == '(' {
        ')'
    } else if ch == ')' {
        '('
    } else {
        ch
    }
}

/// The offset just behind the nearest opening character before `i` that is
/// still open at `i`, given the closing characters in `nesting` that wait for
/// their partners, innermost last. Walking back from `i`: an opening
/// character met with nothing waiting is the answer; one that pairs with the
/// innermost waiting character resolves it; a closing character joins the
/// waiting ones.
pub open spec fn opening_before(t: Seq<char>, i: int, nesting: Seq<char>) -> Option<int>
    decreases i,
{
    if i <= 0 || i > t.len() {
        None
    } else {
        let ch = t[i - 1];
        if spec_is_indent_opening_char(ch) && nesting.len() == 0 {
            Some(i)
        } else if spec_is_indent_opening_char(ch) && ch == spec_matching_char(nesting.last()) {
            opening_before(t, i - 1, nesting.drop_last())
        } else if spec_is_indent_closing_char(ch) {
            opening_before(t, i - 1, nesting.push(ch))
        } else {
            opening_before(t, i - 1, nesting)
        }
    }
}

/// The offset of the nearest closing character at or after `i` whose partner
/// lies before `i`, given the opening characters in `nesting` that wait for
/// their partners, innermost last. The mirror image of [`opening_before`].
pub open spec fn closing_after(t: Seq<char>, i: int, nesting: Seq<char>) -> Option<int>
    decreases t.len() - i,
{
    if i < 0 || i >= t.len() {
        None
    } else {
        let ch = t[i];
        if spec_is_indent_closing_char(ch) && nesting.len() == 0 {
            Some(i)
        } else if spec_is_indent_closing_char(ch) && ch == spec_matching_char(nesting.last()) {
            closing_after(t, i + 1, nesting.drop_last())
        } else if spec_is_indent_opening_char(ch) {
            closing_after(t, i + 1, nesting.push(ch))
        } else {
            closing_after(t, i + 1, nesting)
        }
    }
}

/// What `opening_before` finds is the offset just behind an opening
/// character.
pub proof fn lemma_opening_before_opens(t: Seq<char>, i: int, nesting: Seq<char>)
    ensures
        match opening_before(t, i, nesting) {
            Some(at) => 0 < at <= i && at <= t.len() && spec_is_indent_opening_char(t[at - 1]),
            None => true,
        },
    decreases i,
{
    if 0 < i <= t.len() {
        let ch = t[i - 1];
        if spec_is_indent_opening_char(ch) && nesting.len() == 0 {
        } else if spec_is_indent_opening_char(ch) && ch == spec_matching_char(nesting.last()) {
            lemma_opening_before_opens(t, i - 1, nesting.drop_last());
        } else if spec_is_indent_closing_char(ch) {
            lemma_opening_before_opens(t, i - 1, nesting.push(ch));
        } else {
            lemma_opening_before_opens(t, i - 1, nesting);
        }
    }
}

/// What `closing_after` finds is the offset of a closing character.
pub proof fn lemma_closing_after_closes(t: Seq<char>, i: int, nesting: Seq<char>)
    ensures
        match closing_after(t, i, nesting) {
            Some(at) => 0 <= i <= at < t.len() && spec_is_indent_closing_char(t[at]),
            None => true,
        },
    decreases t.len() - i,
{
    if 0 <= i < t.len() {
        let ch = t[i];
        if spec_is_indent_closing_char(ch) && nesting.len() == 0 {
        } else if spec_is_indent_closing_char(ch) && ch == spec_matching_char(nesting.last()) {
            lemma_closing_after_closes(t, i + 1, nesting.drop_last());
        } else if spec_is_indent_opening_char(ch) {
            lemma_closing_after_closes(t, i + 1, nesting.push(ch));
        } else {
            lemma_closing_after_closes(t, i + 1, nesting);
        }
    }
}

/// A bracket that one side of the surrounding scan has met and that waits
/// for its partner on the other side: the character, and the offset the scan
/// had reached behind it. The offset is missing for a bracket that faces
/// away from the start of the scan (a closing bracket met on the way left, an
/// opening one on the way right): its partner ends no surrounding area.
pub type Waiting = (char, Option<Idx>);

/// The index of the first entry of `q` from `from` on that holds the
/// character `m`, or the length of `q`.
pub open spec fn first_match(q: Seq<Waiting>, m: char, from: int) -> int
    decreases q.len() - from,
{
    if from < 0 || from >= q.len() {
        q.len() as int
    } else if q[from].0 == m {
        from
    } else {
        first_match(q, m, from + 1)
    }
}

/// The state of the surrounding scan: how far it has walked to the left and
/// to the right, the brackets waiting on either side, and whether it has yet
/// met a bracket that could open or close a surrounding area.
pub ghost struct SurroundScan {
    pub left: int,
    pub right: int,
    pub left_q: Seq<Waiting>,
    pub right_q: Seq<Waiting>,
    pub pushed: bool,
}

/// What one step of the surrounding scan leads to.
pub ghost enum ScanStep {
    /// The scan ends, with the area it found or with none.
    Done(Option<(int, int)>),
    /// The scan goes on from this state.
    Next(SurroundScan),
}

pub open spec fn one_on(i: int, len: int) -> int {
    if i + 1 <= len {
        i + 1
    } else {
        len
    }
}

pub open spec fn one_back(i: int) -> int {
    if i <= 0 {
        0
    } else {
        i - 1
    }
}

/// One step to the left: the scan takes in the character before `s.left`.
pub open spec fn step_left(t: Seq<char>, s: SurroundScan) -> ScanStep {
    let ch = t[s.left - 1];
    let left = s.left - 1;
    let here = Idx(left as usize);
    if spec_is_indent_opening_char(ch) {
        let j = first_match(s.right_q, spec_matching_char(ch), 0);
        if j < s.right_q.len() {
            match s.right_q[j].1 {
                Some(idx) => ScanStep::Done(
                    Some((one_on(left, t.len() as int), one_back(idx.0 as int))),
                ),
                None => ScanStep::Next(
                    SurroundScan {
                        left,
                        right_q: s.right_q.subrange(j + 1, s.right_q.len() as int),
                        ..s
                    },
                ),
            }
        } else if spec_is_indent_closing_char(ch) {
            ScanStep::Next(
                SurroundScan { left, left_q: seq![(ch, Some(here))] + s.left_q, pushed: true, ..s },
            )
        } else {
            ScanStep::Next(
                SurroundScan { left, left_q: s.left_q.push((ch, Some(here))), pushed: true, ..s },
            )
        }
    } else if spec_is_indent_closing_char(ch) {
        ScanStep::Next(SurroundScan { left, right_q: seq![(ch, None)] + s.right_q, ..s })
    } else {
        ScanStep::Next(SurroundScan { left, ..s })
    }
}

/// One step to the right: the scan takes in the character at `s.right`.
pub open spec fn step_right(t: Seq<char>, s: SurroundScan) -> ScanStep {
    let ch = t[s.right];
    let right = s.right + 1;
    let here = Idx(right as usize);
    if spec_is_indent_closing_char(ch) {
        let j = first_match(s.left_q, spec_matching_char(ch), 0);
        if j < s.left_q.len() {
            match s.left_q[j].1 {
                Some(idx) => ScanStep::Done(
                    Some((one_on(idx.0 as int, t.len() as int), one_back(right))),
                ),
                None => ScanStep::Next(
                    SurroundScan {
                        right,
                        left_q: s.left_q.subrange(j + 1, s.left_q.len() as int),
                        ..s
                    },
                ),
            }
        } else if spec_is_indent_opening_char(ch) {
            ScanStep::Next(
                SurroundScan {
                    right,
                    right_q: seq![(ch, Some(here))] + s.right_q,
                    pushed: true,
                    ..s
                },
            )
        } else {
            ScanStep::Next(
                SurroundScan { right, right_q: s.right_q.push((ch, Some(here))), pushed: true, ..s },
            )
        }
    } else if spec_is_indent_opening_char(ch) {
        ScanStep::Next(SurroundScan { right, left_q: seq![(ch, None)] + s.left_q, ..s })
    } else {
        ScanStep::Next(SurroundScan { right, ..s })
    }
}

/// The next step of the scan from state `s`. The scan ends once every
/// bracket it took in has found its partner, or when it has walked over the
/// whole text. Else it steps left while the left side waits for no more
/// brackets than the right (or the right has reached the end), and right
/// otherwise.
pub open spec fn scan_step(t: Seq<char>, s: SurroundScan) -> ScanStep {
    if s.pushed && s.left_q.len() == 0 && s.right_q.len() == 0 {
        ScanStep::Done(Some((one_on(s.left, t.len() as int), one_back(s.right))))
    } else if s.left == 0 && s.right == t.len() {
        ScanStep::Done(None)
    } else if s.left != 0 && (s.left_q.len() <= s.right_q.len() || s.right == t.len()) {
        step_left(t, s)
    } else {
        step_right(t, s)
    }
}

/// The area that the surrounding scan finds from state `s`, if any: the
/// offsets just inside the nearest pair of brackets that encloses what the
/// scan started from.
pub open spec fn scan_from(t: Seq<char>, s: SurroundScan) -> Option<(int, int)>
    decreases s.left + t.len() - s.right,
{
    if !(0 <= s.left <= t.len() && 0 <= s.right <= t.len()) {
        None
    } else {
        match scan_step(t, s) {
            ScanStep::Done(r) => r,
            ScanStep::Next(n) => if n.left + t.len() - n.right < s.left + t.len() - s.right {
                scan_from(t, n)
            } else {
                None
            },
        }
    }
}

/// The state in which the surrounding scan sets out from `left` and `right`.
pub open spec fn scan_start(left: int, right: int) -> SurroundScan {
    SurroundScan { left, right, left_q: Seq::empty(), right_q: Seq::empty(), pushed: false }
}

/// The area between the nearest pair of brackets that encloses the stretch
/// from `left` to `right`, if there is such a pair.
pub open spec fn surrounding_opt(t: Seq<char>, left: int, right: int) -> Option<(int, int)> {
    scan_from(t, scan_start(left, right))
}

/// The same, with the whole text standing in where no pair encloses the
/// stretch.
pub open spec fn surrounding(t: Seq<char>, left: int, right: int) -> (int, int) {
    match surrounding_opt(t, left, right) {
        Some(area) => area,
        None => (0, t.len() as int),
    }
}

/// Every offset that a waiting bracket carries lies within a text of length
/// `len`.
pub open spec fn waiting_within(q: Seq<Waiting>, len: int) -> bool {
    forall|k: int|
        0 <= k < q.len() ==> match (#[trigger] q[k]).1 {
            Some(idx) => idx.0 <= len,
            None => true,
        }
}

proof fn lemma_waiting_tail(q: Seq<Waiting>, from: int, len: int)
    requires
        waiting_within(q, len),
        0 <= from <= q.len(),
    ensures
        waiting_within(q.subrange(from, q.len() as int), len),
{
    let tail = q.subrange(from, q.len() as int);
    assert forall|k: int| 0 <= k < tail.len() implies match (#[trigger] tail[k]).1 {
        Some(idx) => idx.0 <= len,
        None => true,
    } by {
        assert(tail[k] == q[k + from]);
    }
}

proof fn lemma_waiting_joined(q: Seq<Waiting>, w: Waiting, len: int)
    requires
        waiting_within(q, len),
        match w.1 {
            Some(idx) => idx.0 <= len,
            None => true,
        },
    ensures
        waiting_within(q.push(w), len),
        waiting_within(seq![w] + q, len),
{
    let back = q.push(w);
    assert forall|k: int| 0 <= k < back.len() implies match (#[trigger] back[k]).1 {
        Some(idx) => idx.0 <= len,
        None => true,
    } by {
        if k < q.len() {
            assert(back[k] == q[k]);
        }
    }
    let front = seq![w] + q;
    assert forall|k: int| 0 <= k < front.len() implies match (#[trigger] front[k]).1 {
        Some(idx) => idx.0 <= len,
        None => true,
    } by {
        if k > 0 {
            assert(front[k] == q[k - 1]);
        }
    }
}

/// One of the brackets waiting in `q` carries an offset.
pub open spec fn carries_some(q: Seq<Waiting>) -> bool {
    exists|k: int| 0 <= k < q.len() && (#[trigger] q[k]).1 is Some
}

/// What holds of the surrounding scan at every step, when it has set out
/// from `left` and `right` in a text of length `len`: it has walked outward
/// from where it set out; the brackets that wait on the left were met
/// before `left`, and those that wait on the right behind `right`; and once
/// it has met a bracket that could bound an area, it has left `left` or
/// keeps such a bracket waiting on the right, and has left `right` or
/// keeps one waiting on the left.
pub open spec fn scan_on_course(s: SurroundScan, left: int, right: int, len: int) -> bool {
    &&& 0 <= s.left <= left <= right <= s.right <= len <= usize::MAX
    &&& forall|k: int|
        0 <= k < s.left_q.len() ==> match (#[trigger] s.left_q[k]).1 {
            Some(idx) => idx.0 < left,
            None => true,
        }
    &&& forall|k: int|
        0 <= k < s.right_q.len() ==> match (#[trigger] s.right_q[k]).1 {
            Some(idx) => right < idx.0 <= len,
            None => true,
        }
    &&& s.pushed ==> (s.left < left || carries_some(s.right_q)) && (s.right > right
        || carries_some(s.left_q))
}

proof fn lemma_course_joined(
    q: Seq<Waiting>,
    w: Waiting,
    fits: spec_fn(Idx) -> bool,
)
    requires
        forall|k: int|
            0 <= k < q.len() ==> match (#[trigger] q[k]).1 {
                Some(idx) => fits(idx),
                None => true,
            },
        match w.1 {
            Some(idx) => fits(idx),
            None => true,
        },
    ensures
        forall|k: int|
            0 <= k < q.push(w).len() ==> match (#[trigger] q.push(w)[k]).1 {
                Some(idx) => fits(idx),
                None => true,
            },
        forall|k: int|
            0 <= k < (seq![w] + q).len() ==> match (#[trigger] (seq![w] + q)[k]).1 {
                Some(idx) => fits(idx),
                None => true,
            },
        carries_some(q) || w.1 is Some ==> carries_some(q.push(w)) && carries_some(seq![w] + q),
{
    let back = q.push(w);
    let front = seq![w] + q;
    assert forall|k: int| 0 <= k < back.len() implies match (#[trigger] back[k]).1 {
        Some(idx) => fits(idx),
        None => true,
    } by {
        if k < q.len() {
            assert(back[k] == q[k]);
        }
    }
    assert forall|k: int| 0 <= k < front.len() implies match (#[trigger] front[k]).1 {
        Some(idx) => fits(idx),
        None => true,
    } by {
        if k > 0 {
            assert(front[k] == q[k - 1]);
        }
    }
    if carries_some(q) {
        let k = choose|k: int| 0 <= k < q.len() && (#[trigger] q[k]).1 is Some;
        assert(back[k] == q[k]);
        assert(front[k + 1] == q[k]);
    } else if w.1 is Some {
        assert(back[q.len() as int] == w);
        assert(front[0] == w);
    }
}

proof fn lemma_course_tail(q: Seq<Waiting>, from: int, fits: spec_fn(Idx) -> bool)
    requires
        0 <= from <= q.len(),
        forall|k: int|
            0 <= k < q.len() ==> match (#[trigger] q[k]).1 {
                Some(idx) => fits(idx),
                None => true,
            },
    ensures
        forall|k: int|
            0 <= k < q.subrange(from, q.len() as int).len() ==> match (#[trigger] q.subrange(
                from,
                q.len() as int,
            )[k]).1 {
                Some(idx) => fits(idx),
                None => true,
            },
{
    let tail = q.subrange(from, q.len() as int);
    assert forall|k: int| 0 <= k < tail.len() implies match (#[trigger] tail[k]).1 {
        Some(idx) => fits(idx),
        None => true,
    } by {
        assert(tail[k] == q[k + from]);
    }
}

proof fn lemma_first_match_within(q: Seq<Waiting>, m: char, from: int)
    requires
        0 <= from <= q.len(),
    ensures
        from <= first_match(q, m, from) <= q.len(),
    decreases q.len() - from,
{
    if from < q.len() && q[from].0 != m {
        lemma_first_match_within(q, m, from + 1);
    }
}

/// The area that the scan finds from a state on its course encloses what
/// the scan set out from.
pub proof fn lemma_scan_encloses(t: Seq<char>, s: SurroundScan, left: int, right: int)
    requires
        scan_on_course(s, left, right, t.len() as int),
    ensures
        match scan_from(t, s) {
            Some(area) => 0 <= area.0 <= left && right <= area.1 <= t.len(),
            None => true,
        },
    decreases s.left + t.len() - s.right,
{
    let len = t.len() as int;
    let on_left = |idx: Idx| idx.0 < left;
    let on_right = |idx: Idx| right < idx.0 <= len;
    if s.pushed && s.left_q.len() == 0 && s.right_q.len() == 0 {
    } else if s.left == 0 && s.right == t.len() {
    } else if s.left != 0 && (s.left_q.len() <= s.right_q.len() || s.right == t.len()) {
        let ch = t[s.left - 1];
        let here = Idx((s.left - 1) as usize);
        if spec_is_indent_opening_char(ch) {
            let j = first_match(s.right_q, spec_matching_char(ch), 0);
            lemma_first_match_within(s.right_q, spec_matching_char(ch), 0);
            if j < s.right_q.len() {
                match s.right_q[j].1 {
                    Some(idx) => {},
                    None => {
                        lemma_course_tail(s.right_q, j + 1, on_right);
                        let n = SurroundScan {
                            left: s.left - 1,
                            right_q: s.right_q.subrange(j + 1, s.right_q.len() as int),
                            ..s
                        };
                        assert(scan_on_course(n, left, right, len));
                        lemma_scan_encloses(t, n, left, right);
                    },
                }
            } else {
                lemma_course_joined(s.left_q, (ch, Some(here)), on_left);
                let n = if spec_is_indent_closing_char(ch) {
                    SurroundScan {
                        left: s.left - 1,
                        left_q: seq![(ch, Some(here))] + s.left_q,
                        pushed: true,
                        ..s
                    }
                } else {
                    SurroundScan {
                        left: s.left - 1,
                        left_q: s.left_q.push((ch, Some(here))),
                        pushed: true,
                        ..s
                    }
                };
                assert(scan_on_course(n, left, right, len));
                lemma_scan_encloses(t, n, left, right);
            }
        } else if spec_is_indent_closing_char(ch) {
            lemma_course_joined(s.right_q, (ch, None), on_right);
            let n = SurroundScan { left: s.left - 1, right_q: seq![(ch, None)] + s.right_q, ..s };
            assert(scan_on_course(n, left, right, len));
            lemma_scan_encloses(t, n, left, right);
        } else {
            let n = SurroundScan { left: s.left - 1, ..s };
            assert(scan_on_course(n, left, right, len));
            lemma_scan_encloses(t, n, left, right);
        }
    } else {
        let ch = t[s.right];
        let here = Idx((s.right + 1) as usize);
        if spec_is_indent_closing_char(ch) {
            let j = first_match(s.left_q, spec_matching_char(ch), 0);
            lemma_first_match_within(s.left_q, spec_matching_char(ch), 0);
            if j < s.left_q.len() {
                match s.left_q[j].1 {
                    Some(idx) => {},
                    None => {
                        lemma_course_tail(s.left_q, j + 1, on_left);
                        let n = SurroundScan {
                            right: s.right + 1,
                            left_q: s.left_q.subrange(j + 1, s.left_q.len() as int),
                            ..s
                        };
                        assert(scan_on_course(n, left, right, len));
                        lemma_scan_encloses(t, n, left, right);
                    },
                }
            } else {
                lemma_course_joined(s.right_q, (ch, Some(here)), on_right);
                let n = if spec_is_indent_opening_char(ch) {
                    SurroundScan {
                        right: s.right + 1,
                        right_q: seq![(ch, Some(here))] + s.right_q,
                        pushed: true,
                        ..s
                    }
                } else {
                    SurroundScan {
                        right: s.right + 1,
                        right_q: s.right_q.push((ch, Some(here))),
                        pushed: true,
                        ..s
                    }
                };
                assert(scan_on_course(n, left, right, len));
                lemma_scan_encloses(t, n, left, right);
            }
        } else if spec_is_indent_opening_char(ch) {
            lemma_course_joined(s.left_q, (ch, None), on_left);
            let n = SurroundScan { right: s.right + 1, left_q: seq![(ch, None)] + s.left_q, ..s };
            assert(scan_on_course(n, left, right, len));
            lemma_scan_encloses(t, n, left, right);
        } else {
            let n = SurroundScan { right: s.right + 1, ..s };
            assert(scan_on_course(n, left, right, len));
            lemma_scan_encloses(t, n, left, right);
        }
    }
}

/// The surrounding area of a stretch encloses the stretch.
pub proof fn lemma_surrounding_encloses(t: Seq<char>, left: int, right: int)
    requires
        0 <= left <= right <= t.len() <= usize::MAX,
    ensures
        0 <= surrounding(t, left, right).0 <= left,
        right <= surrounding(t, left, right).1 <= t.len(),
{
    lemma_scan_encloses(t, scan_start(left, right), left, right);
}

/// Drops the entries of `q` up to and with the first that holds `m`, and
/// hands out what that entry carried; leaves `q` alone where none holds `m`.
fn take_first_match(q: &mut VecDeque<Waiting>, m: char) -> (r: Option<Option<Idx>>)
    ensures
        0 <= first_match(old(q)@, m, 0) <= old(q)@.len(),
        first_match(old(q)@, m, 0) == old(q)@.len() ==> r is None && final(q)@ == old(q)@,
        first_match(old(q)@, m, 0) < old(q)@.len() ==> r == Some(
            old(q)@[first_match(old(q)@, m, 0)].1,
        ) && final(q)@ == old(q)@.subrange(
            first_match(old(q)@, m, 0) + 1,
            old(q)@.len() as int,
        ),
{
    let n = q.len();
    let mut j: usize = 0;
    while j < n && q[j].0 != m
        invariant
            n == q@.len(),
            j <= n,
            q@ == old(q)@,
            first_match(q@, m, 0) == first_match(q@, m, j as int),
        decreases n - j,
    {
        j += 1;
    }
    if j >= n {
        return None;
    }
    let carried = q[j].1;
    let mut dropped: usize = 0;
    while dropped <= j
        invariant
            j < n,
            n == old(q)@.len(),
            dropped <= j + 1,
            q@ == old(q)@.subrange(dropped as int, n as int),
        decreases j + 1 - dropped,
    {
        let _ = q.pop_front();
        dropped += 1;
    }
    Some(carried)
}

impl Idx {
    /// The offset just behind the nearest opening bracket or quote before
    /// this offset that is not closed again before it.
    pub fn to_after_indent_opening_char(self, text: &Rope) -> (r: Option<Idx>)
        requires
            self.within(chars_of(*text)),
        ensures
            match r {
                Some(at) => opening_before(chars_of(*text), self.0 as int, Seq::empty()) == Some(
                    at.0 as int,
                ) && 0 < at.0 <= self.0 && spec_is_indent_opening_char(
                    chars_of(*text)[at.0 - 1],
                ),
                None => opening_before(chars_of(*text), self.0 as int, Seq::empty()) is None,
            },
    {
        let ghost t = chars_of(*text);
        proof {
            lemma_opening_before_opens(t, self.0 as int, Seq::empty());
        }
        let mut cur = self;
        let mut nesting: Vec<char> = Vec::new();
        loop
            invariant
                t == chars_of(*text),
                cur.0 <= self.0 <= t.len(),
                opening_before(t, self.0 as int, Seq::empty()) == opening_before(
                    t,
                    cur.0 as int,
                    nesting@,
                ),
            decreases cur.0,
        {
            if cur.0 == 0 {
                return None;
            }
            let ch = text.char(cur.0 - 1);
            if is_indent_opening_char(ch) {
                if nesting.len() == 0 {
                    return Some(cur);
                } else if ch == matching_char(nesting[nesting.len() - 1]) {
                    let _ = nesting.pop();
                    cur = cur.backward(text);
                    continue ;
                }
            }
            if is_indent_closing_char(ch) {
                nesting.push(ch);
            }
            cur = cur.backward(text);
        }
    }

    /// The offset of the nearest closing bracket or quote at or after this
    /// offset that is not opened after it.
    pub fn to_before_indent_closing_char(self, text: &Rope) -> (r: Option<Idx>)
        requires
            self.within(chars_of(*text)),
        ensures
            match r {
                Some(at) => closing_after(chars_of(*text), self.0 as int, Seq::empty()) == Some(
                    at.0 as int,
                ) && self.0 <= at.0 < chars_of(*text).len() && spec_is_indent_closing_char(
                    chars_of(*text)[at.0 as int],
                ),
                None => closing_after(chars_of(*text), self.0 as int, Seq::empty()) is None,
            },
    {
        let ghost t = chars_of(*text);
        proof {
            lemma_closing_after_closes(t, self.0 as int, Seq::empty());
        }
        let len = text.len_chars();
        let mut cur = self;
        let mut nesting: Vec<char> = Vec::new();
        loop
            invariant
                t == chars_of(*text),
                len == t.len(),
                self.0 <= cur.0 <= t.len(),
                closing_after(t, self.0 as int, Seq::empty()) == closing_after(
                    t,
                    cur.0 as int,
                    nesting@,
                ),
            decreases t.len() - cur.0,
        {
            if cur.0 == len {
                return None;
            }
            let ch = text.char(cur.0);
            if is_indent_closing_char(ch) {
                if nesting.len() == 0 {
                    return Some(cur);
                } else if ch == matching_char(nesting[nesting.len() - 1]) {
                    let _ = nesting.pop();
                    cur = cur.forward(text);
                    continue ;
                }
            }
            if is_indent_opening_char(ch) {
                nesting.push(ch);
            }
            cur = cur.forward(text);
        }
    }

    /// The area between the nearest pair of brackets or quotes that encloses
    /// the stretch from `left` to `right`, if there is such a pair.
    pub fn surrounding_area_opt(left: Idx, right: Idx, text: &Rope) -> (r: Option<(Idx, Idx)>)
        requires
            left.0 <= right.0,
            right.within(chars_of(*text)),
        ensures
            match r {
                Some(area) => surrounding_opt(chars_of(*text), left.0 as int, right.0 as int)
                    == Some((area.0.0 as int, area.1.0 as int)) && area.0.within(chars_of(*text))
                    && area.1.within(chars_of(*text)),
                None => surrounding_opt(chars_of(*text), left.0 as int, right.0 as int) is None,
            },
    {
        let ghost t = chars_of(*text);
        let end = Idx::end(text);
        let mut left_q: VecDeque<Waiting> = VecDeque::new();
        let mut right_q: VecDeque<Waiting> = VecDeque::new();
        let mut lo = left;
        let mut hi = right;
        let mut pushed_something = false;
        loop
            invariant
                t == chars_of(*text),
                end.0 == t.len(),
                lo.0 <= t.len(),
                hi.0 <= t.len(),
                surrounding_opt(t, left.0 as int, right.0 as int) == scan_from(
                    t,
                    SurroundScan {
                        left: lo.0 as int,
                        right: hi.0 as int,
                        left_q: left_q@,
                        right_q: right_q@,
                        pushed: pushed_something,
                    },
                ),
                waiting_within(left_q@, t.len() as int),
                waiting_within(right_q@, t.len() as int),
            decreases lo.0 + t.len() - hi.0,
        {
            if pushed_something && left_q.len() == 0 && right_q.len() == 0 {
                return Some((lo.forward(text), hi.backward(text)));
            }
            if lo.0 == 0 && hi.0 == end.0 {
                return None;
            }
            if lo.0 != 0 && (left_q.len() <= right_q.len() || hi.0 == end.0) {
                let ch = text.char(lo.0 - 1);
                lo = lo.backward(text);
                if is_indent_opening_char(ch) {
                    let ghost waiting = right_q@;
                    let ghost j = first_match(waiting, spec_matching_char(ch), 0);
                    match take_first_match(&mut right_q, matching_char(ch)) {
                        Some(Some(idx)) => {
                            assert(waiting[j].1 == Some(idx));
                            return Some((lo.forward(text), idx.backward(text)));
                        },
                        Some(None) => {
                            proof {
                                lemma_waiting_tail(waiting, j + 1, t.len() as int);
                            }
                        },
                        None => {
                            proof {
                                lemma_waiting_joined(left_q@, (ch, Some(lo)), t.len() as int);
                            }
                            if is_indent_closing_char(ch) {
                                left_q.push_front((ch, Some(lo)));
                            } else {
                                left_q.push_back((ch, Some(lo)));
                            }
                            pushed_something = true;
                        },
                    }
                } else if is_indent_closing_char(ch) {
                    proof {
                        lemma_waiting_joined(right_q@, (ch, None), t.len() as int);
                    }
                    right_q.push_front((ch, None));
                }
            } else {
                let ch = text.char(hi.0);
                hi = hi.forward(text);
                if is_indent_closing_char(ch) {
                    let ghost waiting = left_q@;
                    let ghost j = first_match(waiting, spec_matching_char(ch), 0);
                    match take_first_match(&mut left_q, matching_char(ch)) {
                        Some(Some(idx)) => {
                            return Some((idx.forward(text), hi.backward(text)));
                        },
                        Some(None) => {
                            proof {
                                lemma_waiting_tail(waiting, j + 1, t.len() as int);
                            }
                        },
                        None => {
                            proof {
                                lemma_waiting_joined(right_q@, (ch, Some(hi)), t.len() as int);
                            }
                            if is_indent_opening_char(ch) {
                                right_q.push_front((ch, Some(hi)));
                            } else {
                                right_q.push_back((ch, Some(hi)));
                            }
                            pushed_something = true;
                        },
                    }
                } else if is_indent_opening_char(ch) {
                    proof {
                        lemma_waiting_joined(left_q@, (ch, None), t.len() as int);
                    }
                    left_q.push_front((ch, None));
                }
            }
        }
    }

    /// The area between the nearest enclosing pair of brackets or quotes
    /// around the stretch from `left` to `right`; the whole text where no
    /// pair encloses the stretch.
    pub fn surrounding_area(left: Idx, right: Idx, text: &Rope) -> (r: (Idx, Idx))
        requires
            left.0 <= right.0,
            right.within(chars_of(*text)),
        ensures
            (r.0.0 as int, r.1.0 as int) == surrounding(
                chars_of(*text),
                left.0 as int,
                right.0 as int,
            ),
            r.0.0 <= left.0,
            right.0 <= r.1.0,
            r.1.within(chars_of(*text)),
    {
        let _len = text.len_chars();
        proof {
            lemma_surrounding_encloses(chars_of(*text), left.0 as int, right.0 as int);
        }
        match Idx::surrounding_area_opt(left, right, text) {
            Some(area) => area,
            None => (Idx::begining(text), Idx::end(text)),
        }
    }

    /// The area between the nearest enclosing pair of brackets or quotes
    /// around this offset, if there is such a pair.
    pub fn find_surounding_area_opt(self, text: &Rope) -> (r: Option<(Idx, Idx)>)
        requires
            self.within(chars_of(*text)),
        ensures
            match r {
                Some(area) => surrounding_opt(chars_of(*text), self.0 as int, self.0 as int)
                    == Some((area.0.0 as int, area.1.0 as int)) && area.0.within(chars_of(*text))
                    && area.1.within(chars_of(*text)),
                None => surrounding_opt(chars_of(*text), self.0 as int, self.0 as int) is None,
            },
    {
        Idx::surrounding_area_opt(self, self, text)
    }

    /// The area between the nearest enclosing pair of brackets or quotes
    /// around this offset; the whole text where there is no such pair.
    pub fn find_surounding_area(self, text: &Rope) -> (r: (Idx, Idx))
        requires
            self.within(chars_of(*text)),
        ensures
            (r.0.0 as int, r.1.0 as int) == surrounding(
                chars_of(*text),
                self.0 as int,
                self.0 as int,
            ),
            r.0.0 <= self.0 <= r.1.0,
            r.1.within(chars_of(*text)),
    {
        Idx::surrounding_area(self, self, text)
    }
}

} // verus!
