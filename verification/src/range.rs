//! A pair of offsets that bounds a stretch of text.

use crate::idx::Idx;
use crate::text::{chars_of, remove_range, removed, slice_to_rope};
use ropey::Rope;
use vstd::prelude::*;

verus! {

/// A stretch of text between two offsets, in either order.
#[derive(Copy, Clone, Debug)]
pub struct Range {
    pub from: Idx,
    pub to: Idx,
}

impl Range {
    /// The smaller of the two offsets.
    pub open spec fn low(self) -> int {
        if self.from.0 <= self.to.0 {
            self.from.0 as int
        } else {
            self.to.0 as int
        }
    }

    /// The larger of the two offsets.
    pub open spec fn high(self) -> int {
        if self.from.0 <= self.to.0 {
            self.to.0 as int
        } else {
            self.from.0 as int
        }
    }

    /// Both offsets lie within the text `t`.
    pub open spec fn within(self, t: Seq<char>) -> bool {
        self.from.within(t) && self.to.within(t)
    }

    /// The same stretch, from its smaller offset to its larger.
    pub fn sorted(self) -> (r: Range)
        ensures
            r.from.0 == self.low(),
            r.to.0 == self.high(),
    {
        if self.from.0 > self.to.0 {
            self.reversed()
        } else {
            self
        }
    }

    /// The number of characters between the two offsets.
    pub fn len(self) -> (n: usize)
        ensures
            n == self.high() - self.low(),
    {
        let sorted = self.sorted();
        sorted.to.0 - sorted.from.0
    }

    /// The same stretch with its offsets exchanged.
    pub fn reversed(self) -> (r: Range)
        ensures
            r.from == self.to,
            r.to == self.from,
    {
        Range { to: self.from, from: self.to }
    }

    /// The characters of `text` in this stretch, as a text of their own.
    pub fn slice(self, text: &Rope) -> (part: Rope)
        requires
            self.within(chars_of(*text)),
        ensures
            chars_of(part) == chars_of(*text).subrange(self.low(), self.high()),
    {
        let sorted = self.sorted();
        slice_to_rope(text, sorted.from.0, sorted.to.0)
    }

    /// Takes the characters in this stretch out of `text`.
    pub fn remove_from(self, text: &mut Rope)
        requires
            self.within(chars_of(*old(text))),
        ensures
            chars_of(*final(text)) == removed(chars_of(*old(text)), self.low(), self.high()),
    {
        let sorted = self.sorted();
        remove_range(text, sorted.from.0, sorted.to.0)
    }
}

} // verus!
