//! The order in which the selections of a buffer are edited: back to front,
//! so that an edit at one selection leaves the offsets of those still to be
//! edited where they were.

use vstd::prelude::*;

verus! {

/// Selection `a` is edited before selection `b`: its offset is larger, or
/// the same and its index is larger.
pub open spec fn edited_before(keys: Seq<usize>, a: usize, b: usize) -> bool {
    keys[a as int] > keys[b as int] || (keys[a as int] == keys[b as int] && a > b)
}

/// `order` lists indices into `keys`, each before all that are edited after
/// it.
pub open spec fn is_back_to_front(order: Seq<usize>, keys: Seq<usize>) -> bool {
    &&& forall|j: int| 0 <= j < order.len() ==> (#[trigger] order[j]) < keys.len()
    &&& forall|a: int, b: int|
        0 <= a < b < order.len() ==> edited_before(keys, #[trigger] order[a], #[trigger] order[b])
}

/// The first place from `from` on in `order` whose offset is at most `key`,
/// or the length of `order`.
pub open spec fn place_for(order: Seq<usize>, keys: Seq<usize>, key: usize, from: int) -> int
    decreases order.len() - from,
{
    if from < 0 || from >= order.len() {
        order.len() as int
    } else if keys[order[from] as int] <= key {
        from
    } else {
        place_for(order, keys, key, from + 1)
    }
}

/// The first `n` indices into `keys`, ordered back to front: by offset, the
/// largest first, and among equal offsets by index, the largest first.
pub open spec fn back_to_front_upto(keys: Seq<usize>, n: int) -> Seq<usize>
    decreases n,
{
    if n <= 0 {
        Seq::empty()
    } else {
        let before = back_to_front_upto(keys, n - 1);
        before.insert(place_for(before, keys, keys[n - 1], 0), (n - 1) as usize)
    }
}

/// The indices into `keys`, ordered back to front.
pub open spec fn back_to_front(keys: Seq<usize>) -> Seq<usize> {
    back_to_front_upto(keys, keys.len() as int)
}

proof fn lemma_place_for(order: Seq<usize>, keys: Seq<usize>, key: usize, from: int)
    requires
        0 <= from <= order.len(),
    ensures
        from <= place_for(order, keys, key, from) <= order.len(),
        forall|a: int|
            from <= a < place_for(order, keys, key, from) ==> keys[(#[trigger] order[a]) as int]
                > key,
        place_for(order, keys, key, from) < order.len() ==> keys[order[place_for(
            order,
            keys,
            key,
            from,
        )] as int] <= key,
    decreases order.len() - from,
{
    if from < order.len() && keys[order[from] as int] > key {
        lemma_place_for(order, keys, key, from + 1);
    }
}

/// The order has one entry for each of the first `n` indices, and lists them
/// back to front.
pub proof fn lemma_back_to_front(keys: Seq<usize>, n: int)
    requires
        0 <= n <= keys.len() <= usize::MAX,
    ensures
        back_to_front_upto(keys, n).len() == n,
        is_back_to_front(back_to_front_upto(keys, n), keys),
        forall|j: int| 0 <= j < n ==> (#[trigger] back_to_front_upto(keys, n)[j]) < n,
    decreases n,
{
    if n > 0 {
        lemma_back_to_front(keys, n - 1);
        let before = back_to_front_upto(keys, n - 1);
        let key = keys[n - 1];
        let at = place_for(before, keys, key, 0);
        lemma_place_for(before, keys, key, 0);
        let order = back_to_front_upto(keys, n);
        let i = (n - 1) as usize;
        assert(order == before.insert(at, i));
        assert forall|a: int, b: int| 0 <= a < b < order.len() implies edited_before(
            keys,
            #[trigger] order[a],
            #[trigger] order[b],
        ) by {
            if b < at {
                assert(order[a] == before[a] && order[b] == before[b]);
            } else if b == at {
                assert(order[a] == before[a]);
            } else if a < at {
                assert(order[a] == before[a] && order[b] == before[b - 1]);
            } else if a == at {
                assert(order[b] == before[b - 1]);
                if at < b - 1 {
                    assert(edited_before(keys, before[at], before[b - 1]));
                }
            } else {
                assert(order[a] == before[a - 1] && order[b] == before[b - 1]);
            }
        }
        assert forall|j: int| 0 <= j < n implies (#[trigger] order[j]) < n by {
            if j < at {
                assert(order[j] == before[j]);
            } else if j > at {
                assert(order[j] == before[j - 1]);
            }
        }
    }
}

/// The indices into `keys`, ordered back to front: the order in which to
/// edit at the offsets `keys`.
pub fn back_to_front_order(keys: &Vec<usize>) -> (order: Vec<usize>)
    ensures
        order@ == back_to_front(keys@),
        order@.len() == keys@.len(),
        is_back_to_front(order@, keys@),
{
    let n = keys.len();
    let mut order: Vec<usize> = Vec::new();
    let mut i: usize = 0;
    while i < n
        invariant
            i <= n,
            n == keys@.len(),
            order@ == back_to_front_upto(keys@, i as int),
        decreases n - i,
    {
        proof {
            lemma_back_to_front(keys@, i as int);
        }
        let key = keys[i];
        let mut at: usize = 0;
        while at < order.len() && keys[order[at]] > key
            invariant
                at <= order@.len(),
                i < n,
                n == keys@.len(),
                key == keys@[i as int],
                order@ == back_to_front_upto(keys@, i as int),
                forall|j: int| 0 <= j < order@.len() ==> (#[trigger] order@[j]) < i,
                place_for(order@, keys@, key, 0) == place_for(order@, keys@, key, at as int),
            decreases order@.len() - at,
        {
            at += 1;
        }
        order.insert(at, i);
        i += 1;
    }
    proof {
        lemma_back_to_front(keys@, n as int);
    }
    order
}

} // verus!
