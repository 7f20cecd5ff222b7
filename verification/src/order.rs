//! Stable sorting by a strict order that is given as a predicate.
//!
//! `before(a, b)` says that `a` must stand before `b`. Items of which
//! neither must stand before the other keep the order they came in.

use vstd::prelude::*;

verus! {

/// `before` orders consistently: no item stands before itself or before one
/// that stands before it, and "does not stand before" is transitive.
pub open spec fn is_strict_weak_order<A>(before: spec_fn(A, A) -> bool) -> bool {
    &&& forall|a: A, b: A| #[trigger] before(a, b) ==> !before(b, a)
    &&& forall|a: A, b: A, c: A|
        !#[trigger] before(b, a) && !#[trigger] before(c, b) ==> !before(c, a)
}

/// Neither of the two items must stand before the other.
pub open spec fn equivalent<A>(before: spec_fn(A, A) -> bool, a: A, b: A) -> bool {
    !before(a, b) && !before(b, a)
}

/// The items equivalent to `x`.
pub open spec fn equivalent_to<A>(before: spec_fn(A, A) -> bool, x: A) -> spec_fn(A) -> bool {
    |e: A| equivalent(before, e, x)
}

/// No item stands behind one that it must stand before.
pub open spec fn is_sorted<A>(items: Seq<A>, before: spec_fn(A, A) -> bool) -> bool {
    forall|i: int, j: int| 0 <= i < j < items.len() ==> !before(items[j], items[i])
}

/// Where a new item goes in a sorted sequence: behind every item that it
/// need not stand before.
pub open spec fn insert_position<A>(sorted: Seq<A>, e: A, before: spec_fn(A, A) -> bool) -> int
    decreases sorted.len(),
{
    if sorted.len() == 0 {
        0
    } else if before(e, sorted.last()) {
        insert_position(sorted.drop_last(), e, before)
    } else {
        sorted.len() as int
    }
}

/// The items in the order that `before` asks for; equivalent items keep the
/// order they have in `items`.
pub open spec fn stable_sorted<A>(items: Seq<A>, before: spec_fn(A, A) -> bool) -> Seq<A>
    decreases items.len(),
{
    if items.len() == 0 {
        Seq::empty()
    } else {
        let head = stable_sorted(items.drop_last(), before);
        head.insert(insert_position(head, items.last(), before), items.last())
    }
}

/// The position of a new item lies in the sequence or at its end; the item
/// must stand before all that follow the position, and not before the one
/// that precedes it.
pub proof fn lemma_insert_position<A>(sorted: Seq<A>, e: A, before: spec_fn(A, A) -> bool)
    ensures
        0 <= insert_position(sorted, e, before) <= sorted.len(),
        forall|j: int|
            insert_position(sorted, e, before) <= j < sorted.len() ==> before(e, #[trigger] sorted[j]),
        insert_position(sorted, e, before) > 0 ==> !before(
            e,
            sorted[insert_position(sorted, e, before) - 1],
        ),
    decreases sorted.len(),
{
    if sorted.len() > 0 && before(e, sorted.last()) {
        let front = sorted.drop_last();
        lemma_insert_position(front, e, before);
        assert forall|j: int| insert_position(sorted, e, before) <= j < sorted.len() implies before(
            e,
            #[trigger] sorted[j],
        ) by {
            if j < front.len() {
                assert(sorted[j] == front[j]);
            }
        }
    }
}

/// Only one position has the two properties of `insert_position`.
pub proof fn lemma_insert_position_unique<A>(
    sorted: Seq<A>,
    e: A,
    before: spec_fn(A, A) -> bool,
    pos: int,
)
    requires
        0 <= pos <= sorted.len(),
        forall|j: int| pos <= j < sorted.len() ==> before(e, #[trigger] sorted[j]),
        pos > 0 ==> !before(e, sorted[pos - 1]),
    ensures
        pos == insert_position(sorted, e, before),
    decreases sorted.len(),
{
    if sorted.len() > 0 {
        if before(e, sorted.last()) {
            lemma_insert_position_unique(sorted.drop_last(), e, before, pos);
        }
    }
}

/// Sorting keeps the number of items.
pub proof fn lemma_sorted_len<A>(items: Seq<A>, before: spec_fn(A, A) -> bool)
    ensures
        stable_sorted(items, before).len() == items.len(),
    decreases items.len(),
{
    if items.len() > 0 {
        lemma_sorted_len(items.drop_last(), before);
        lemma_insert_position(stable_sorted(items.drop_last(), before), items.last(), before);
    }
}

/// Sorting rearranges: each item occurs as often after it as before.
pub proof fn lemma_sorted_is_permutation<A>(items: Seq<A>, before: spec_fn(A, A) -> bool)
    ensures
        stable_sorted(items, before).to_multiset() == items.to_multiset(),
    decreases items.len(),
{
    broadcast use vstd::seq_lib::group_to_multiset_ensures;

    if items.len() > 0 {
        let head = stable_sorted(items.drop_last(), before);
        let last = items.last();
        let pos = insert_position(head, last, before);
        lemma_sorted_is_permutation(items.drop_last(), before);
        lemma_insert_position(head, last, before);
        let whole = head.insert(pos, last);
        assert(whole.remove(pos) =~= head);
        assert(whole[pos] == last);
        assert(whole.to_multiset().remove(last) =~= head.to_multiset());
        assert(whole.to_multiset().count(last) > 0);
        assert(whole.to_multiset() =~= head.to_multiset().insert(last));
        assert(items =~= items.drop_last().push(last));
        assert(items.to_multiset() =~= items.drop_last().to_multiset().insert(last));
    } else {
        assert(stable_sorted(items, before) =~= items);
    }
}

/// Sorting sorts: in its result no item stands behind one that it must
/// stand before.
pub proof fn lemma_sorted_is_sorted<A>(items: Seq<A>, before: spec_fn(A, A) -> bool)
    requires
        is_strict_weak_order(before),
    ensures
        is_sorted(stable_sorted(items, before), before),
    decreases items.len(),
{
    if items.len() > 0 {
        let head = stable_sorted(items.drop_last(), before);
        let last = items.last();
        let pos = insert_position(head, last, before);
        lemma_sorted_is_sorted(items.drop_last(), before);
        lemma_insert_position(head, last, before);
        let whole = head.insert(pos, last);
        assert forall|i: int, j: int| 0 <= i < j < whole.len() implies !before(
            whole[j],
            whole[i],
        ) by {
            if j == pos {
                if i < pos - 1 {
                    assert(!before(head[pos - 1], head[i]));
                    assert(!before(last, head[pos - 1]));
                    assert(!before(last, head[i]));
                }
            } else if i == pos {
                assert(whole[j] == head[j - 1]);
                assert(before(last, head[j - 1]));
            } else {
                let hi = if i < pos { i } else { i - 1 };
                let hj = if j < pos { j } else { j - 1 };
                assert(whole[i] == head[hi]);
                assert(whole[j] == head[hj]);
                assert(!before(head[hj], head[hi]));
            }
        }
    }
}

/// Sorting is stable: the items equivalent to any given one stand in the
/// result in the order they had before.
pub proof fn lemma_sorted_is_stable<A>(items: Seq<A>, before: spec_fn(A, A) -> bool, x: A)
    requires
        is_strict_weak_order(before),
    ensures
        stable_sorted(items, before).filter(equivalent_to(before, x)) == items.filter(
            equivalent_to(before, x),
        ),
    decreases items.len(),
{
    let same = equivalent_to(before, x);
    if items.len() > 0 {
        let head = stable_sorted(items.drop_last(), before);
        let last = items.last();
        let pos = insert_position(head, last, before);
        lemma_sorted_is_stable(items.drop_last(), before, x);
        lemma_insert_position(head, last, before);
        let whole = head.insert(pos, last);
        let front = head.subrange(0, pos);
        let back = head.subrange(pos, head.len() as int);
        assert(whole =~= front + seq![last] + back);
        assert(head.push(last) =~= front + back + seq![last]);
        Seq::filter_distributes_over_add(front + seq![last], back, same);
        Seq::filter_distributes_over_add(front, seq![last], same);
        Seq::filter_distributes_over_add(front + back, seq![last], same);
        Seq::filter_distributes_over_add(front, back, same);
        if same(last) {
            assert forall|k: int| 0 <= k < back.len() implies !same(#[trigger] back[k]) by {
                let y = back[k];
                assert(y == head[pos + k]);
                assert(before(last, y));
                if same(y) {
                    // the new item does not stand before x, nor x before y
                    assert(!before(last, x));
                    assert(!before(x, y));
                    assert(!before(last, y));
                }
            }
            back.lemma_all_neg_filter_empty(same);
            assert(back.filter(same) =~= Seq::<A>::empty());
        } else {
            let single = seq![last];
            assert forall|k: int| 0 <= k < single.len() implies !same(#[trigger] single[k]) by {}
            single.lemma_all_neg_filter_empty(same);
            assert(single.filter(same) =~= Seq::<A>::empty());
        }
        assert(whole.filter(same) =~= head.push(last).filter(same));
        lemma_filter_push(head, same, last);
        lemma_filter_push(items.drop_last(), same, last);
        assert(items =~= items.drop_last().push(last));
    } else {
        assert(stable_sorted(items, before) =~= items);
    }
}

/// Filtering a sequence with one more item at its end keeps the item where
/// the predicate holds of it, and changes nothing before it.
pub proof fn lemma_filter_push<A>(s: Seq<A>, pred: spec_fn(A) -> bool, x: A)
    ensures
        s.push(x).filter(pred) == if pred(x) {
            s.filter(pred).push(x)
        } else {
            s.filter(pred)
        },
{
    reveal(Seq::filter);
    assert(s.push(x).drop_last() =~= s);
}

} // verus!
