//! What the fixup of selections under an edit guarantees.
//!
//! An edit moves the ends of every selection by shifting their offsets.
//! The proofs here show that the shift keeps each end at the character it
//! stood at: an edit undone brings every selection back, and an end that
//! the edit does not reach keeps its line and column.

use crate::buffer::edit::{cut_each, typed_each};
use crate::buffer::order::{back_to_front, back_to_front_upto, place_for};
use crate::buffer::{cursors_of, BufferView, Doc};
use crate::position::{column_of, lemma_offset_round_trip, line_of, offset_at};
use crate::selection::{shifted_on_delete, shifted_on_insert, Selection};
use crate::position::{line_len, trimmed_column};
use crate::text::{
    count_line_ends, first_reaching, inserted, is_break_char, is_line_end, lemma_count_grows,
    lemma_first_reaching, lemma_line_of_offset, lemma_line_start, line_count, line_start, removed,
};
use vstd::prelude::*;

verus! {

/// A selection moved for an insertion and moved back for the removal of
/// what was put in is the selection it was.
pub proof fn lemma_selection_restored(sel: Selection, at: usize, len: usize)
    requires
        sel.anchor.0 + len <= usize::MAX,
        sel.cursor.0 + len <= usize::MAX,
    ensures
        sel.fixed_on_insert(at, len).fixed_on_delete(at, len) == sel,
{
}

/// Putting text in and taking the same stretch out again restores the text
/// and every selection.
pub proof fn lemma_insert_then_remove(doc: Doc, at: usize, s: Seq<char>)
    requires
        doc.wf(),
        at <= doc.text.len(),
        doc.text.len() + s.len() <= usize::MAX,
    ensures
        doc.insert_at(at, s).remove_at(at, (at + s.len()) as usize) == doc,
{
    let put = doc.insert_at(at, s);
    let back = put.remove_at(at, (at + s.len()) as usize);
    assert(back.text =~= doc.text);
    assert forall|i: int| 0 <= i < doc.selections.len() implies back.selections[i]
        == doc.selections[i] by {
        assert(doc.selections[i].anchor.0 <= doc.text.len());
        lemma_selection_restored(doc.selections[i], at, s.len() as usize);
    }
    assert(back.selections =~= doc.selections);
}

/// The text and selections after the texts `edits` are put in, each at its
/// offset, one after the other.
pub open spec fn inserted_all(doc: Doc, edits: Seq<(usize, Seq<char>)>) -> Doc
    decreases edits.len(),
{
    if edits.len() == 0 {
        doc
    } else {
        inserted_all(doc, edits.drop_last()).insert_at(edits.last().0, edits.last().1)
    }
}

/// The text and selections after the stretches that the texts `edits`
/// filled when they were put in are taken out again, the last first.
pub open spec fn removed_all(doc: Doc, edits: Seq<(usize, Seq<char>)>) -> Doc
    decreases edits.len(),
{
    if edits.len() == 0 {
        doc
    } else {
        removed_all(
            doc.remove_at(edits.last().0, (edits.last().0 + edits.last().1.len()) as usize),
            edits.drop_last(),
        )
    }
}

/// Each of the texts `edits` is put in at an offset within the text as the
/// texts before it have left it, and the text never grows beyond what can be
/// addressed.
pub open spec fn can_insert_all(doc: Doc, edits: Seq<(usize, Seq<char>)>) -> bool
    decreases edits.len(),
{
    if edits.len() == 0 {
        true
    } else {
        let before = inserted_all(doc, edits.drop_last());
        &&& can_insert_all(doc, edits.drop_last())
        &&& edits.last().0 <= before.text.len()
        &&& before.text.len() + edits.last().1.len() <= usize::MAX
    }
}

/// Texts put in one after the other and taken out again, the last first,
/// leave the text and every selection as they were.
pub proof fn lemma_insert_all_then_remove_all(doc: Doc, edits: Seq<(usize, Seq<char>)>)
    requires
        doc.wf(),
        can_insert_all(doc, edits),
    ensures
        inserted_all(doc, edits).wf(),
        removed_all(inserted_all(doc, edits), edits) == doc,
    decreases edits.len(),
{
    if edits.len() > 0 {
        let fewer = edits.drop_last();
        lemma_insert_all_then_remove_all(doc, fewer);
        let before = inserted_all(doc, fewer);
        lemma_insert_at_wf(before, edits.last().0, edits.last().1);
        lemma_insert_then_remove(before, edits.last().0, edits.last().1);
    }
}

/// Text typed at the one caret of a buffer and then deleted leaves the
/// buffer as it was when the typing began: the same text, and the caret
/// where it stood.
pub proof fn lemma_type_then_delete(v: BufferView, s: Seq<char>)
    requires
        v.wf(),
        v.selections.len() == 1,
        s.len() > 0,
        v.text.len() + s.len() <= usize::MAX,
    ensures
        v.spec_insert(s, false).spec_delete() == v.edited(v.typing_start(false)),
{
    let start = v.typing_start(false);
    let caret = start.selections[0];
    assert(v.selections[0].cursor.0 <= v.text.len());
    let keys = cursors_of(v.selections);
    assert(back_to_front_upto(keys, 0) =~= Seq::<usize>::empty());
    assert(place_for(Seq::<usize>::empty(), keys, keys[0], 0) == 0);
    let order = back_to_front(keys);
    assert(order =~= seq![0usize]);
    let texts = Seq::new(v.selections.len(), |i: int| s);
    assert(order.drop_last() =~= Seq::<usize>::empty());
    assert(typed_each(start, order.drop_last(), texts) == start);
    let typed = typed_each(start, order, texts);
    assert(typed == start.insert_at(caret.cursor.0, s));
    let after = v.spec_insert(s, false);
    assert(after.text == typed.text && after.selections == typed.selections);
    let grown = typed.selections[0];
    assert(grown.anchor.0 == caret.cursor.0 && grown.cursor.0 == caret.cursor.0 + s.len());
    assert(after.spans() =~= typed.selections);
    let starts = Seq::new(after.selections.len(), |i: int| after.spans()[i].low());
    assert(back_to_front_upto(starts, 0) =~= Seq::<usize>::empty());
    assert(place_for(Seq::<usize>::empty(), starts, starts[0], 0) == 0);
    let cut_order = back_to_front(starts);
    assert(cut_order =~= seq![0usize]);
    assert(cut_order.drop_last() =~= Seq::<usize>::empty());
    let before_cut = Doc { text: after.text, selections: after.spans() };
    assert(cut_each(before_cut, cut_order.drop_last()) == before_cut);
    lemma_insert_then_remove(start, caret.cursor.0, s);
    assert(cut_each(before_cut, cut_order) == start);
    assert(after.spec_delete().cursor_column =~= v.edited(start).cursor_column);
}

/// Text put in at an offset within the text makes the text longer by its
/// length and leaves every selection within it.
pub proof fn lemma_insert_at_wf(doc: Doc, at: usize, s: Seq<char>)
    requires
        doc.wf(),
        at <= doc.text.len(),
        doc.text.len() + s.len() <= usize::MAX,
    ensures
        doc.insert_at(at, s).wf(),
        doc.insert_at(at, s).text.len() == doc.text.len() + s.len(),
        doc.insert_at(at, s).selections.len() == doc.selections.len(),
{
    let after = doc.insert_at(at, s);
    assert forall|i: int| 0 <= i < after.selections.len() implies (#[trigger] after.selections[i]).anchor.0
        <= after.text.len() && after.selections[i].cursor.0 <= after.text.len() by {
        assert(doc.selections[i].anchor.0 <= doc.text.len());
    }
}

/// Text typed at the cursors of `order` is neither dropped nor doubled:
/// the text grows by the length of what was typed, once for each cursor,
/// however close the cursors stand.
pub proof fn lemma_typed_each_grows(doc: Doc, order: Seq<usize>, s: Seq<char>)
    requires
        doc.wf(),
        forall|k: int| 0 <= k < order.len() ==> (#[trigger] order[k]) < doc.selections.len(),
        doc.text.len() + order.len() * s.len() <= usize::MAX,
    ensures
        typed_each(doc, order, Seq::new(doc.selections.len(), |i: int| s)).wf(),
        typed_each(doc, order, Seq::new(doc.selections.len(), |i: int| s)).text.len()
            == doc.text.len() + order.len() * s.len(),
        typed_each(doc, order, Seq::new(doc.selections.len(), |i: int| s)).selections.len()
            == doc.selections.len(),
    decreases order.len(),
{
    if order.len() > 0 {
        let texts = Seq::new(doc.selections.len(), |i: int| s);
        let fewer = order.drop_last();
        assert((order.len() - 1) * s.len() + s.len() == order.len() * s.len())
            by (nonlinear_arith);
        assert(0 <= (order.len() - 1) * s.len()) by (nonlinear_arith)
            requires
                order.len() >= 1,
                s.len() >= 0,
        ;
        assert forall|k: int| 0 <= k < fewer.len() implies (#[trigger] fewer[k])
            < doc.selections.len() by {
            assert(fewer[k] == order[k]);
        }
        lemma_typed_each_grows(doc, fewer, s);
        let before = typed_each(doc, fewer, texts);
        let i = order.last() as int;
        assert(order[order.len() - 1] < doc.selections.len());
        assert(before.selections[i].cursor.0 <= before.text.len());
        lemma_insert_at_wf(before, before.selections[i].cursor.0, s);
    }
}

/// Every selection taken out with what it marks is left a caret, and stays
/// one while the others are taken out.
pub proof fn lemma_cut_each_leaves_carets(doc: Doc, order: Seq<usize>, k: int)
    requires
        0 <= k < order.len(),
        forall|j: int| 0 <= j < order.len() ==> (#[trigger] order[j]) < doc.selections.len(),
    ensures
        cut_each(doc, order).selections.len() == doc.selections.len(),
        cut_each(doc, order).selections[order[k] as int].anchor == cut_each(
            doc,
            order,
        ).selections[order[k] as int].cursor,
    decreases order.len(),
{
    let fewer = order.drop_last();
    lemma_cut_each_keeps_count(doc, fewer);
    let before = cut_each(doc, fewer);
    if k < order.len() - 1 {
        assert forall|j: int| 0 <= j < fewer.len() implies (#[trigger] fewer[j])
            < doc.selections.len() by {
            assert(fewer[j] == order[j]);
        }
        assert(fewer[k] == order[k]);
        lemma_cut_each_leaves_carets(doc, fewer, k);
    }
}

/// Taking selections out leaves as many selections as there were.
pub proof fn lemma_cut_each_keeps_count(doc: Doc, order: Seq<usize>)
    ensures
        cut_each(doc, order).selections.len() == doc.selections.len(),
    decreases order.len(),
{
    if order.len() > 0 {
        lemma_cut_each_keeps_count(doc, order.drop_last());
    }
}

/// Two texts that agree before offset `p` count the same line breaks before
/// every offset below `p`.
pub proof fn lemma_same_prefix_same_count(t: Seq<char>, u: Seq<char>, p: int, n: int)
    requires
        0 <= n < p,
        p <= t.len(),
        p <= u.len(),
        forall|j: int| 0 <= j < p ==> t[j] == u[j],
    ensures
        count_line_ends(t, n) == count_line_ends(u, n),
    decreases n,
{
    if n > 0 {
        lemma_same_prefix_same_count(t, u, p, n - 1);
        assert(is_line_end(t, n - 1) == is_line_end(u, n - 1));
    }
}

proof fn lemma_same_prefix_same_reach(t: Seq<char>, u: Seq<char>, p: int, l: int, i: int)
    requires
        0 <= i <= first_reaching(t, l, i) < p,
        p <= t.len(),
        p <= u.len(),
        forall|j: int| 0 <= j < p ==> t[j] == u[j],
    ensures
        first_reaching(u, l, i) == first_reaching(t, l, i),
    decreases p - i,
{
    lemma_same_prefix_same_count(t, u, p, i);
    if count_line_ends(t, i) < l {
        lemma_first_reaching(t, l, i + 1);
        lemma_same_prefix_same_reach(t, u, p, l, i + 1);
    }
}

/// Two texts that agree before offset `p` give every offset below `p` the
/// same line and column, and the offset found again from that line and
/// column in either text is the offset itself.
pub proof fn lemma_same_prefix_same_position(t: Seq<char>, u: Seq<char>, p: int, e: int)
    requires
        0 <= e < p,
        p <= t.len(),
        p <= u.len(),
        forall|j: int| 0 <= j < p ==> t[j] == u[j],
    ensures
        line_of(u, e) == line_of(t, e),
        column_of(u, e) == column_of(t, e),
        offset_at(u, line_of(t, e), column_of(t, e)) == e,
{
    lemma_same_prefix_same_count(t, u, p, e);
    lemma_line_of_offset(t, e);
    lemma_first_reaching(t, line_of(t, e), 0);
    lemma_same_prefix_same_reach(t, u, p, line_of(t, e), 0);
    lemma_offset_round_trip(u, e);
}

/// A selection that ends before the offset of an insertion stays as it is,
/// and each of its ends is the offset found again, in the text as edited,
/// from the line and column that the end had before: shifting the offsets
/// and finding them again from saved positions agree.
pub proof fn lemma_insert_keeps_earlier(doc: Doc, at: usize, s: Seq<char>, i: int)
    requires
        doc.wf(),
        at <= doc.text.len(),
        0 <= i < doc.selections.len(),
        doc.selections[i].high() < at,
    ensures
        doc.insert_at(at, s).selections[i] == doc.selections[i],
        doc.selections[i].anchor.0 == offset_at(
            doc.insert_at(at, s).text,
            line_of(doc.text, doc.selections[i].anchor.0 as int),
            column_of(doc.text, doc.selections[i].anchor.0 as int),
        ),
        doc.selections[i].cursor.0 == offset_at(
            doc.insert_at(at, s).text,
            line_of(doc.text, doc.selections[i].cursor.0 as int),
            column_of(doc.text, doc.selections[i].cursor.0 as int),
        ),
{
    let after = inserted(doc.text, at as int, s);
    lemma_same_prefix_same_position(doc.text, after, at as int, doc.selections[i].anchor.0 as int);
    lemma_same_prefix_same_position(doc.text, after, at as int, doc.selections[i].cursor.0 as int);
}

/// The same for a removal: a selection that ends before the stretch taken
/// out stays as it is, and each of its ends is found again from its saved
/// line and column.
pub proof fn lemma_remove_keeps_earlier(doc: Doc, from: usize, to: usize, i: int)
    requires
        doc.wf(),
        from <= to <= doc.text.len(),
        0 <= i < doc.selections.len(),
        doc.selections[i].high() < from,
    ensures
        doc.remove_at(from, to).selections[i] == doc.selections[i],
        doc.selections[i].anchor.0 == offset_at(
            doc.remove_at(from, to).text,
            line_of(doc.text, doc.selections[i].anchor.0 as int),
            column_of(doc.text, doc.selections[i].anchor.0 as int),
        ),
        doc.selections[i].cursor.0 == offset_at(
            doc.remove_at(from, to).text,
            line_of(doc.text, doc.selections[i].cursor.0 as int),
            column_of(doc.text, doc.selections[i].cursor.0 as int),
        ),
{
    let after = removed(doc.text, from as int, to as int);
    lemma_same_prefix_same_position(doc.text, after, from as int, doc.selections[i].anchor.0 as int);
    lemma_same_prefix_same_position(doc.text, after, from as int, doc.selections[i].cursor.0 as int);
}

/// An end that an insertion moves stands, in the text as edited, before the
/// same characters as it did; one that it leaves stands behind the same
/// characters.
pub proof fn lemma_shift_keeps_place(t: Seq<char>, at: usize, s: Seq<char>, e: usize, tied: bool)
    requires
        at <= t.len(),
        e <= t.len(),
        t.len() + s.len() <= usize::MAX,
    ensures
        ({
            let after = inserted(t, at as int, s);
            let moved = shifted_on_insert(e, at, s.len() as usize, tied);
            &&& moved <= after.len()
            &&& moved != e ==> after.subrange(moved as int, after.len() as int) == t.subrange(
                e as int,
                t.len() as int,
            )
            &&& moved == e ==> after.subrange(0, moved as int) == t.subrange(0, e as int)
        }),
{
    let after = inserted(t, at as int, s);
    let moved = shifted_on_insert(e, at, s.len() as usize, tied);
    if moved != e {
        assert(after.subrange(moved as int, after.len() as int) =~= t.subrange(
            e as int,
            t.len() as int,
        ));
    } else if e <= at {
        assert(after.subrange(0, moved as int) =~= t.subrange(0, e as int));
    } else {
        assert(s.len() == 0);
        assert(after =~= t);
    }
}

/// An end behind a stretch that is taken out stands, in the text as edited,
/// before the same characters as it did; one before the stretch stands
/// behind the same characters; one within it comes to where it was.
pub proof fn lemma_unshift_keeps_place(t: Seq<char>, from: usize, to: usize, e: usize)
    requires
        from <= to <= t.len(),
        e <= t.len(),
    ensures
        ({
            let after = removed(t, from as int, to as int);
            let moved = shifted_on_delete(e, from, (to - from) as usize);
            &&& moved <= after.len()
            &&& e >= to ==> after.subrange(moved as int, after.len() as int) == t.subrange(
                e as int,
                t.len() as int,
            )
            &&& e <= from ==> moved == e && after.subrange(0, moved as int) == t.subrange(
                0,
                e as int,
            )
            &&& from < e < to ==> moved == from
        }),
{
    let after = removed(t, from as int, to as int);
    let moved = shifted_on_delete(e, from, (to - from) as usize);
    if e >= to {
        assert(after.subrange(moved as int, after.len() as int) =~= t.subrange(
            e as int,
            t.len() as int,
        ));
    }
    if e <= from {
        assert(after.subrange(0, moved as int) =~= t.subrange(0, e as int));
    }
}

/// No character of `s` is a line break.
pub open spec fn no_line_break(s: Seq<char>) -> bool {
    forall|k: int| 0 <= k < s.len() ==> !is_break_char(#[trigger] s[k])
}

/// Offset `at` of `t` lies between a carriage return and the line feed that
/// makes one line break with it.
pub open spec fn splits_line_break(t: Seq<char>, at: int) -> bool {
    0 < at < t.len() && t[at - 1] == '\u{000D}' && t[at] == '\u{000A}'
}

/// The offset that satisfies what `first_reaching` looks for is what it
/// finds.
proof fn lemma_first_reaching_is(t: Seq<char>, l: int, i: int, x: int)
    requires
        0 <= i <= x <= t.len(),
        forall|k: int| i <= k < x ==> count_line_ends(t, k) < l,
        x < t.len() ==> count_line_ends(t, x) >= l,
    ensures
        first_reaching(t, l, i) == x,
    decreases x - i,
{
    if i < x {
        lemma_first_reaching_is(t, l, i + 1, x);
    }
}

/// The line breaks before the offset of an insertion stay.
proof fn lemma_insert_prefix_count_at(t: Seq<char>, at: int, s: Seq<char>, n: int)
    requires
        0 <= n <= at <= t.len(),
        no_line_break(s),
        !splits_line_break(t, at),
        s.len() > 0,
    ensures
        count_line_ends(inserted(t, at, s), n) == count_line_ends(t, n),
    decreases n,
{
    let u = inserted(t, at, s);
    if n > 0 {
        lemma_insert_prefix_count_at(t, at, s, n - 1);
        assert(u[n - 1] == t[n - 1]);
        if n < at {
            assert(u[n] == t[n]);
        } else {
            assert(u[n] == s[0]);
            assert(!is_break_char(s[0]));
        }
        assert(is_line_end(u, n - 1) == is_line_end(t, n - 1));
    }
}

/// No line break ends within the stretch put in.
proof fn lemma_insert_stretch_has_no_line_end(t: Seq<char>, at: int, s: Seq<char>, k: int)
    requires
        0 <= at <= t.len(),
        no_line_break(s),
        at <= k <= at + s.len(),
    ensures
        count_line_ends(inserted(t, at, s), k) == count_line_ends(inserted(t, at, s), at),
    decreases k - at,
{
    let u = inserted(t, at, s);
    if k > at {
        lemma_insert_stretch_has_no_line_end(t, at, s, k - 1);
        assert(u[k - 1] == s[k - 1 - at]);
        assert(!is_break_char(s[k - 1 - at]));
    }
}

/// The line breaks behind the offset of an insertion move up with their
/// characters.
proof fn lemma_insert_suffix_count(t: Seq<char>, at: int, s: Seq<char>, n: int)
    requires
        0 <= at <= n <= t.len(),
        no_line_break(s),
        !splits_line_break(t, at),
        s.len() > 0,
    ensures
        count_line_ends(inserted(t, at, s), n + s.len()) == count_line_ends(t, n),
    decreases n - at,
{
    let u = inserted(t, at, s);
    if n == at {
        lemma_insert_stretch_has_no_line_end(t, at, s, at + s.len());
        lemma_insert_prefix_count_at(t, at, s, at);
    } else {
        lemma_insert_suffix_count(t, at, s, n - 1);
        assert(u[n - 1 + s.len()] == t[n - 1]);
        if n < t.len() {
            assert(u[n + s.len()] == t[n]);
        }
        assert(is_line_end(u, n - 1 + s.len()) == is_line_end(t, n - 1));
    }
}

/// Text without a line break, put in at an offset that splits no line
/// break, moves the start of every line behind the line of the offset up by
/// its length.
proof fn lemma_insert_moves_line_starts(t: Seq<char>, at: int, s: Seq<char>, l: int)
    requires
        0 <= at <= t.len(),
        no_line_break(s),
        !splits_line_break(t, at),
        s.len() > 0,
        count_line_ends(t, at) < l,
    ensures
        line_start(inserted(t, at, s), l) == line_start(t, l) + s.len(),
        line_count(inserted(t, at, s)) == line_count(t),
{
    let u = inserted(t, at, s);
    let r = line_start(t, l);
    lemma_first_reaching(t, l, 0);
    lemma_line_start(t, l);
    lemma_insert_suffix_count(t, at, s, t.len() as int);
    assert(u.len() == t.len() + s.len());
    if r <= at {
        if r < t.len() {
            lemma_count_grows(t, r, at);
        }
        assert(r == t.len());
        assert(at == t.len());
    }
    assert forall|k: int| 0 <= k < r + s.len() implies count_line_ends(u, k) < l by {
        if k <= at {
            lemma_insert_prefix_count_at(t, at, s, k);
            lemma_count_grows(t, k, at);
        } else if k <= at + s.len() {
            lemma_insert_stretch_has_no_line_end(t, at, s, k);
            lemma_insert_prefix_count_at(t, at, s, at);
        } else {
            lemma_insert_suffix_count(t, at, s, k - s.len());
            assert(count_line_ends(t, k - s.len()) < l);
        }
    }
    if r < t.len() {
        lemma_insert_suffix_count(t, at, s, r);
    }
    lemma_first_reaching_is(u, l, 0, r + s.len());
}

/// A selection that begins in a line behind the line of an insertion moves
/// up with the text, and each of its ends is the offset found again, in the
/// text as edited, from the line and column that the end had before,
/// provided that the text put in holds no line break and splits none:
/// shifting the offsets and finding them again from saved positions agree.
pub proof fn lemma_insert_keeps_later_lines(doc: Doc, at: usize, s: Seq<char>, i: int)
    requires
        doc.wf(),
        at <= doc.text.len(),
        doc.text.len() + s.len() <= usize::MAX,
        no_line_break(s),
        !splits_line_break(doc.text, at as int),
        0 <= i < doc.selections.len(),
        line_of(doc.text, at as int) < line_of(doc.text, doc.selections[i].low() as int),
    ensures
        doc.insert_at(at, s).selections[i].anchor.0 == doc.selections[i].anchor.0 + s.len(),
        doc.insert_at(at, s).selections[i].cursor.0 == doc.selections[i].cursor.0 + s.len(),
        doc.insert_at(at, s).selections[i].anchor.0 == offset_at(
            doc.insert_at(at, s).text,
            line_of(doc.text, doc.selections[i].anchor.0 as int),
            column_of(doc.text, doc.selections[i].anchor.0 as int),
        ),
        doc.insert_at(at, s).selections[i].cursor.0 == offset_at(
            doc.insert_at(at, s).text,
            line_of(doc.text, doc.selections[i].cursor.0 as int),
            column_of(doc.text, doc.selections[i].cursor.0 as int),
        ),
{
    let sel = doc.selections[i];
    assert(sel.anchor.0 <= doc.text.len() && sel.cursor.0 <= doc.text.len());
    if at as int >= sel.low() {
        lemma_count_grows(doc.text, sel.low() as int, at as int);
    }
    lemma_count_grows(doc.text, sel.low() as int, sel.anchor.0 as int);
    lemma_count_grows(doc.text, sel.low() as int, sel.cursor.0 as int);
    lemma_end_found_again(doc.text, at as int, s, sel.anchor.0 as int);
    lemma_end_found_again(doc.text, at as int, s, sel.cursor.0 as int);
}

/// An offset in a line behind the line of an insertion is found again, from
/// its line and column, at its place in the text as edited.
proof fn lemma_end_found_again(t: Seq<char>, at: int, s: Seq<char>, e: int)
    requires
        0 <= at <= t.len(),
        0 <= e <= t.len(),
        no_line_break(s),
        !splits_line_break(t, at),
        line_of(t, at) < line_of(t, e),
    ensures
        at < e,
        offset_at(inserted(t, at, s), line_of(t, e), column_of(t, e)) == e + s.len(),
{
    let u = inserted(t, at, s);
    if e <= at {
        lemma_count_grows(t, e, at);
    }
    if s.len() == 0 {
        assert(u =~= t);
        lemma_offset_round_trip(t, e);
    } else {
        let l = line_of(t, e);
        lemma_line_of_offset(t, e);
        lemma_offset_round_trip(t, e);
        lemma_insert_moves_line_starts(t, at, s, l);
        lemma_insert_moves_line_starts(t, at, s, l + 1);
        assert(line_len(u, l) == line_len(t, l));
        assert(trimmed_column(u, l, column_of(t, e)) == trimmed_column(t, l, column_of(t, e)));
    }
}

/// The same for a removal: a selection that begins in a line behind the
/// stretch taken out, and behind the line in which the stretch began, moves
/// down with the text, and each of its ends is the offset found again, in
/// the text as edited, from the line and column that the end had before,
/// provided that the stretch holds no line break and its removal makes none
/// of a carriage return before it and a line feed behind it.
pub proof fn lemma_remove_keeps_later_lines(doc: Doc, from: usize, to: usize, i: int)
    requires
        doc.wf(),
        from <= to <= doc.text.len(),
        no_line_break(doc.text.subrange(from as int, to as int)),
        !(0 < from && to < doc.text.len() && doc.text[from - 1] == '\u{000D}' && doc.text[to as int]
            == '\u{000A}'),
        0 <= i < doc.selections.len(),
        to <= doc.selections[i].low(),
        line_of(doc.text, from as int) < line_of(doc.text, doc.selections[i].low() as int),
    ensures
        doc.remove_at(from, to).selections[i].anchor.0 == doc.selections[i].anchor.0 - (to
            - from),
        doc.remove_at(from, to).selections[i].cursor.0 == doc.selections[i].cursor.0 - (to
            - from),
        doc.remove_at(from, to).selections[i].anchor.0 == offset_at(
            doc.remove_at(from, to).text,
            line_of(doc.text, doc.selections[i].anchor.0 as int),
            column_of(doc.text, doc.selections[i].anchor.0 as int),
        ),
        doc.remove_at(from, to).selections[i].cursor.0 == offset_at(
            doc.remove_at(from, to).text,
            line_of(doc.text, doc.selections[i].cursor.0 as int),
            column_of(doc.text, doc.selections[i].cursor.0 as int),
        ),
{
    let sel = doc.selections[i];
    assert(sel.anchor.0 <= doc.text.len() && sel.cursor.0 <= doc.text.len());
    lemma_count_grows(doc.text, from as int, to as int);
    lemma_count_grows(doc.text, to as int, sel.low() as int);
    lemma_count_grows(doc.text, sel.low() as int, sel.anchor.0 as int);
    lemma_count_grows(doc.text, sel.low() as int, sel.cursor.0 as int);
    lemma_end_found_after_removal(doc.text, from as int, to as int, sel.anchor.0 as int);
    lemma_end_found_after_removal(doc.text, from as int, to as int, sel.cursor.0 as int);
}

/// An offset behind a stretch that is taken out, in a line behind the line
/// in which the stretch began, is found again from its line and column at
/// its place in the text as edited.
proof fn lemma_end_found_after_removal(t: Seq<char>, from: int, to: int, e: int)
    requires
        0 <= from <= to <= e <= t.len(),
        no_line_break(t.subrange(from, to)),
        !(0 < from && to < t.len() && t[from - 1] == '\u{000D}' && t[to] == '\u{000A}'),
        line_of(t, from) < line_of(t, e),
    ensures
        offset_at(removed(t, from, to), line_of(t, e), column_of(t, e)) == e - (to - from),
{
    let u = removed(t, from, to);
    let s = t.subrange(from, to);
    if s.len() == 0 {
        assert(u =~= t);
        lemma_offset_round_trip(t, e);
    } else {
        assert(inserted(u, from, s) =~= t);
        if 0 < from < u.len() {
            assert(u[from - 1] == t[from - 1] && u[from] == t[to]);
        }
        let moved = e - s.len();
        lemma_insert_prefix_count_at(u, from, s, from);
        lemma_insert_suffix_count(u, from, s, moved);
        let l = line_of(t, e);
        assert(line_of(u, moved) == l);
        assert(line_of(u, from) < l);
        lemma_insert_moves_line_starts(u, from, s, l);
        lemma_offset_round_trip(u, moved);
    }
}

} // verus!
