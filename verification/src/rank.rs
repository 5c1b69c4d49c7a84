//! Ordering of results: a stable sort under an order that the caller names.
//!
//! An order is a type that says, for two items, whether the first comes
//! strictly before the second. [`ranked`] is the sequence in that order,
//! items that neither come before the other keeping their places; [`rank`]
//! computes it.

use vstd::prelude::*;

verus! {

/// An order on the items of type `T`, stated on their models.
pub trait Order<T: View> {
    /// Whether `a` comes strictly before `b`.
    spec fn before(a: T::V, b: T::V) -> bool;

    /// Whether `a` comes strictly before `b`.
    fn comes_before(a: &T, b: &T) -> (yes: bool)
        ensures
            yes == Self::before(a@, b@),
    ;
}

/// The models of a sequence of items.
pub open spec fn views<T: View>(items: Seq<T>) -> Seq<T::V> {
    Seq::new(items.len(), |k: int| items[k]@)
}

/// A sequence in order with one more item: the item stands behind every
/// item that it does not come before.
pub open spec fn placed<T: View, O: Order<T>>(sorted: Seq<T::V>, item: T::V) -> Seq<T::V>
    decreases sorted.len(),
{
    if sorted.len() > 0 && O::before(item, sorted.last()) {
        placed::<T, O>(sorted.drop_last(), item).push(sorted.last())
    } else {
        sorted.push(item)
    }
}

/// The items in order, those that neither come before the other keeping
/// their places.
pub open spec fn ranked<T: View, O: Order<T>>(items: Seq<T::V>) -> Seq<T::V>
    decreases items.len(),
{
    if items.len() == 0 {
        items
    } else {
        placed::<T, O>(ranked::<T, O>(items.drop_last()), items.last())
    }
}

/// Whether no item of the sequence comes before an earlier one.
pub open spec fn in_order<T: View, O: Order<T>>(items: Seq<T::V>) -> bool {
    forall|i: int, j: int| 0 <= i < j < items.len() ==> !O::before(items[j], items[i])
}

/// Whether the order is consistent: of two items at most one comes
/// before the other, and where `b` does not come before `a` and `c` does
/// not come before `b`, `c` does not come before `a`.
pub open spec fn consistent<T: View, O: Order<T>>() -> bool {
    &&& forall|a: T::V, b: T::V| #[trigger] O::before(a, b) ==> !O::before(b, a)
    &&& forall|a: T::V, b: T::V, c: T::V|
        !#[trigger] O::before(b, a) && !#[trigger] O::before(c, b) ==> !O::before(c, a)
}

/// Placing an item keeps every item: the result holds the item once more
/// and everything else as often as before.
pub proof fn lemma_placed_keeps<T: View, O: Order<T>>(sorted: Seq<T::V>, item: T::V)
    ensures
        placed::<T, O>(sorted, item).to_multiset() == sorted.to_multiset().insert(item),
        placed::<T, O>(sorted, item).len() == sorted.len() + 1,
    decreases sorted.len(),
{
    broadcast use vstd::seq_lib::group_to_multiset_ensures;

    if sorted.len() > 0 && O::before(item, sorted.last()) {
        lemma_placed_keeps::<T, O>(sorted.drop_last(), item);
        assert(sorted.drop_last().push(sorted.last()) =~= sorted);
        assert(placed::<T, O>(sorted, item).to_multiset() =~= sorted.to_multiset().insert(item));
    }
}

/// Ranking rearranges: the result holds each item as often as the input.
pub proof fn lemma_ranked_rearranges<T: View, O: Order<T>>(items: Seq<T::V>)
    ensures
        ranked::<T, O>(items).to_multiset() == items.to_multiset(),
        ranked::<T, O>(items).len() == items.len(),
    decreases items.len(),
{
    broadcast use vstd::seq_lib::group_to_multiset_ensures;

    if items.len() > 0 {
        lemma_ranked_rearranges::<T, O>(items.drop_last());
        lemma_placed_keeps::<T, O>(ranked::<T, O>(items.drop_last()), items.last());
        assert(items.drop_last().push(items.last()) =~= items);
    }
}

/// Every item of a sequence with one more item placed is that item or an
/// item of the sequence, and each of those is in the result.
pub proof fn lemma_placed_members<T: View, O: Order<T>>(sorted: Seq<T::V>, item: T::V)
    ensures
        forall|x: T::V| #[trigger]
            placed::<T, O>(sorted, item).contains(x) <==> x == item || sorted.contains(x),
    decreases sorted.len(),
{
    let out = placed::<T, O>(sorted, item);
    lemma_placed_keeps::<T, O>(sorted, item);
    if sorted.len() > 0 && O::before(item, sorted.last()) {
        let front = sorted.drop_last();
        let inner = placed::<T, O>(front, item);
        lemma_placed_members::<T, O>(front, item);
        lemma_placed_keeps::<T, O>(front, item);
        assert forall|x: T::V| out.contains(x) <==> x == item || sorted.contains(x) by {
            if out.contains(x) {
                let k = choose|k: int| 0 <= k < out.len() && out[k] == x;
                if k < inner.len() {
                    assert(inner[k] == x);
                    assert(inner.contains(x));
                    if front.contains(x) {
                        let m = choose|m: int| 0 <= m < front.len() && front[m] == x;
                        assert(sorted[m] == x);
                    }
                } else {
                    assert(sorted[sorted.len() - 1] == x);
                }
            }
            if x == item {
                assert(inner.contains(x));
                let k = choose|k: int| 0 <= k < inner.len() && inner[k] == x;
                assert(out[k] == x);
            }
            if sorted.contains(x) {
                let m = choose|m: int| 0 <= m < sorted.len() && sorted[m] == x;
                if m < front.len() {
                    assert(front[m] == x);
                    assert(front.contains(x));
                    assert(inner.contains(x));
                    let k = choose|k: int| 0 <= k < inner.len() && inner[k] == x;
                    assert(out[k] == x);
                } else {
                    assert(out[out.len() - 1] == x);
                }
            }
        }
    } else {
        assert forall|x: T::V| out.contains(x) <==> x == item || sorted.contains(x) by {
            if out.contains(x) {
                let k = choose|k: int| 0 <= k < out.len() && out[k] == x;
                if k < sorted.len() {
                    assert(sorted[k] == x);
                }
            }
            if x == item {
                assert(out[out.len() - 1] == x);
            }
            if sorted.contains(x) {
                let m = choose|m: int| 0 <= m < sorted.len() && sorted[m] == x;
                assert(out[m] == x);
            }
        }
    }
}

/// Ranking neither adds nor drops an item.
pub proof fn lemma_ranked_members<T: View, O: Order<T>>(items: Seq<T::V>)
    ensures
        forall|x: T::V| #[trigger] ranked::<T, O>(items).contains(x) <==> items.contains(x),
    decreases items.len(),
{
    if items.len() > 0 {
        let front = items.drop_last();
        lemma_ranked_members::<T, O>(front);
        lemma_placed_members::<T, O>(ranked::<T, O>(front), items.last());
        assert forall|x: T::V| ranked::<T, O>(items).contains(x) <==> items.contains(x) by {
            if items.contains(x) {
                let m = choose|m: int| 0 <= m < items.len() && items[m] == x;
                if m < front.len() {
                    assert(front[m] == x);
                }
            }
            if front.contains(x) {
                let m = choose|m: int| 0 <= m < front.len() && front[m] == x;
                assert(items[m] == x);
            }
            assert(items[items.len() - 1] == items.last());
        }
    }
}

/// Placing an item into a sequence in order gives a sequence in order.
pub proof fn lemma_placed_in_order<T: View, O: Order<T>>(sorted: Seq<T::V>, item: T::V)
    requires
        consistent::<T, O>(),
        in_order::<T, O>(sorted),
    ensures
        in_order::<T, O>(placed::<T, O>(sorted, item)),
    decreases sorted.len(),
{
    let out = placed::<T, O>(sorted, item);
    if sorted.len() > 0 && O::before(item, sorted.last()) {
        let front = sorted.drop_last();
        lemma_placed_in_order::<T, O>(front, item);
        lemma_placed_members::<T, O>(front, item);
        lemma_placed_keeps::<T, O>(front, item);
        let inner = placed::<T, O>(front, item);
        assert forall|i: int, j: int| 0 <= i < j < out.len() implies !O::before(
            out[j],
            out[i],
        ) by {
            if j < inner.len() {
                assert(out[i] == inner[i] && out[j] == inner[j]);
            } else {
                assert(out[j] == sorted.last());
                assert(out[i] == inner[i]);
                assert(inner.contains(inner[i]));
                if inner[i] != item {
                    let k = choose|k: int| 0 <= k < front.len() && front[k] == inner[i];
                    assert(sorted[k] == inner[i]);
                }
            }
        }
    } else {
        assert forall|i: int, j: int| 0 <= i < j < out.len() implies !O::before(
            out[j],
            out[i],
        ) by {
            if j == sorted.len() && sorted.len() > 0 {
                assert(out[j] == item);
                assert(out[i] == sorted[i]);
                if i < sorted.len() - 1 {
                    assert(!O::before(sorted.last(), sorted[i]));
                }
            } else if j < sorted.len() {
                assert(out[i] == sorted[i] && out[j] == sorted[j]);
            }
        }
    }
}

/// Ranking under a consistent order gives a sequence in order.
pub proof fn lemma_ranked_in_order<T: View, O: Order<T>>(items: Seq<T::V>)
    requires
        consistent::<T, O>(),
    ensures
        in_order::<T, O>(ranked::<T, O>(items)),
    decreases items.len(),
{
    if items.len() > 0 {
        lemma_ranked_in_order::<T, O>(items.drop_last());
        lemma_placed_in_order::<T, O>(ranked::<T, O>(items.drop_last()), items.last());
    }
}

/// Puts the items in order, those that neither come before the other
/// keeping their places.
pub fn rank<T: View, O: Order<T>>(items: Vec<T>) -> (out: Vec<T>)
    ensures
        views(out@) == ranked::<T, O>(views(items@)),
{
    let ghost all = views(items@);
    let mut rest = items;
    let mut out: Vec<T> = Vec::new();
    let ghost mut done: int = 0;
    assert(views(out@) =~= ranked::<T, O>(all.take(0)));
    assert(views(rest@) =~= all.skip(0));
    while rest.len() > 0
        invariant
            0 <= done <= all.len(),
            rest@.len() == all.len() - done,
            views(rest@) == all.skip(done),
            views(out@) == ranked::<T, O>(all.take(done)),
        decreases rest.len(),
    {
        let ghost waiting = rest@;
        let item = rest.remove(0);
        let ghost sorted = views(out@);
        proof {
            assert(views(waiting)[0] == waiting[0]@);
            assert(all.skip(done)[0] == all[done]);
            assert(item@ == all[done]);
            assert forall|k: int| 0 <= k < rest@.len() implies views(rest@)[k] == all[done + 1
                + k] by {
                assert(rest@[k] == waiting[k + 1]);
                assert(views(waiting)[k + 1] == waiting[k + 1]@);
                assert(all.skip(done)[k + 1] == all[done + 1 + k]);
            }
            assert(views(rest@) =~= all.skip(done + 1));
            assert(all.take(done + 1).drop_last() =~= all.take(done));
        }
        let mut at: usize = out.len();
        assert(sorted.take(at as int) =~= sorted);
        assert(sorted.skip(at as int) =~= Seq::<T::V>::empty());
        while at > 0 && O::comes_before(&item, &out[at - 1])
            invariant
                at <= out.len(),
                sorted == views(out@),
                placed::<T, O>(sorted, item@) == placed::<T, O>(sorted.take(at as int), item@)
                    + sorted.skip(at as int),
            decreases at,
        {
            proof {
                let head = sorted.take(at as int);
                assert(head.last() == out@[at - 1]@);
                assert(head.drop_last() =~= sorted.take(at - 1));
                assert(placed::<T, O>(sorted.take(at - 1), item@).push(head.last()) + sorted.skip(
                    at as int,
                ) =~= placed::<T, O>(sorted.take(at - 1), item@) + sorted.skip(at - 1));
            }
            at -= 1;
        }
        proof {
            let head = sorted.take(at as int);
            if at > 0 {
                assert(head.last() == out@[at - 1]@);
            }
            assert(placed::<T, O>(head, item@) == head.push(item@));
        }
        out.insert(at, item);
        proof {
            assert(views(out@) =~= sorted.take(at as int).push(item@) + sorted.skip(at as int));
            done = done + 1;
        }
    }
    assert(all.take(all.len() as int) =~= all);
    out
}

} // verus!
