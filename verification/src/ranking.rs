//! Ranking: records in descending order of score, ties in their prior order.

use vstd::prelude::*;
use crate::entry::{views, DirectoryEntry, EntryView};
use crate::order::{
    equivalent_to, is_sorted, is_strict_weak_order, lemma_insert_position_unique,
    lemma_sorted_is_permutation, lemma_sorted_is_sorted, lemma_sorted_is_stable, stable_sorted,
};
use crate::score::{lemma_exceeds_total, lemma_not_below_transitive};

verus! {

/// `a` scores strictly higher than `b` at `now`.
pub open spec fn outranks(a: EntryView, b: EntryView, now: int) -> bool {
    a.score(now).exceeds(b.score(now))
}

/// `a` and `b` score the same at `now`.
pub open spec fn ties(a: EntryView, b: EntryView, now: int) -> bool {
    a.score(now).ties(b.score(now))
}

/// The order of ranking at `now`: the higher score first.
pub open spec fn by_score(now: int) -> spec_fn(EntryView, EntryView) -> bool {
    |a: EntryView, b: EntryView| outranks(a, b, now)
}

/// No record of `entries` stands behind one that it outranks.
pub open spec fn is_ranked(entries: Seq<EntryView>, now: int) -> bool {
    forall|i: int, j: int| 0 <= i < j < entries.len() ==> !outranks(entries[j], entries[i], now)
}

/// The records of `entries` by descending score at `now`; records that tie
/// keep the order they have in `entries`.
pub open spec fn ranked(entries: Seq<EntryView>, now: int) -> Seq<EntryView> {
    stable_sorted(entries, by_score(now))
}

/// The records that tie with `x` at `now`: those that neither outrank it nor
/// are outranked by it.
pub open spec fn tied_with(x: EntryView, now: int) -> spec_fn(EntryView) -> bool {
    equivalent_to(by_score(now), x)
}

/// Two records tie where neither outranks the other, and only there.
pub proof fn lemma_tied_with(e: EntryView, x: EntryView, now: int)
    ensures
        tied_with(x, now)(e) == ties(e, x, now),
{
    lemma_exceeds_total(e.score(now), x.score(now));
}

/// Ranking by score is a consistent order.
pub proof fn lemma_by_score_is_order(now: int)
    ensures
        is_strict_weak_order(by_score(now)),
{
    let before = by_score(now);
    assert forall|a: EntryView, b: EntryView| #[trigger] before(a, b) implies !before(b, a) by {
        lemma_exceeds_total(a.score(now), b.score(now));
    }
    assert forall|a: EntryView, b: EntryView, c: EntryView|
        !#[trigger] before(b, a) && !#[trigger] before(c, b) implies !before(c, a) by {
        lemma_not_below_transitive(a.score(now), b.score(now), c.score(now));
    }
}

/// Ranking rearranges: each record occurs as often after it as before.
pub proof fn lemma_ranked_is_permutation(entries: Seq<EntryView>, now: int)
    ensures
        ranked(entries, now).to_multiset() == entries.to_multiset(),
        ranked(entries, now).len() == entries.len(),
{
    lemma_sorted_is_permutation(entries, by_score(now));
    crate::order::lemma_sorted_len(entries, by_score(now));
}

/// Ranking sorts: in its result no record stands behind one that it
/// outranks.
pub proof fn lemma_ranked_is_ranked(entries: Seq<EntryView>, now: int)
    ensures
        is_ranked(ranked(entries, now), now),
{
    lemma_by_score_is_order(now);
    lemma_sorted_is_sorted(entries, by_score(now));
    let out = ranked(entries, now);
    assert(is_sorted(out, by_score(now)));
    assert forall|i: int, j: int| 0 <= i < j < out.len() implies !outranks(out[j], out[i], now) by {
        assert(!by_score(now)(out[j], out[i]));
    }
}

/// Ranking is stable: the records that tie with any given one stand in the
/// result in the order they had before.
pub proof fn lemma_ranked_is_stable(entries: Seq<EntryView>, now: int, x: EntryView)
    ensures
        ranked(entries, now).filter(tied_with(x, now)) == entries.filter(tied_with(x, now)),
{
    lemma_by_score_is_order(now);
    lemma_sorted_is_stable(entries, by_score(now), x);
}

/// The records in the order that `goes_before` asks for; records of which
/// neither goes before the other keep the order they have in `entries`.
/// `before` says what `goes_before` answers.
pub(crate) fn sort_records<F: Fn(&DirectoryEntry, &DirectoryEntry) -> bool>(
    entries: &Vec<DirectoryEntry>,
    goes_before: F,
    Ghost(before): Ghost<spec_fn(EntryView, EntryView) -> bool>,
) -> (out: Vec<DirectoryEntry>)
    requires
        forall|a: &DirectoryEntry, b: &DirectoryEntry| call_requires(goes_before, (a, b)),
        forall|a: &DirectoryEntry, b: &DirectoryEntry, first: bool|
            call_ensures(goes_before, (a, b), first) ==> first == before(a@, b@),
    ensures
        views(out@) == stable_sorted(views(entries@), before),
{
    let mut out: Vec<DirectoryEntry> = Vec::new();
    let mut i: usize = 0;
    assert(views(entries@).take(0) =~= Seq::<EntryView>::empty());
    assert(views(out@) =~= Seq::<EntryView>::empty());
    while i < entries.len()
        invariant
            i <= entries.len(),
            forall|a: &DirectoryEntry, b: &DirectoryEntry| call_requires(goes_before, (a, b)),
            forall|a: &DirectoryEntry, b: &DirectoryEntry, first: bool|
                call_ensures(goes_before, (a, b), first) ==> first == before(a@, b@),
            views(out@) == stable_sorted(views(entries@).take(i as int), before),
        decreases entries.len() - i,
    {
        let e = &entries[i];
        let mut pos: usize = out.len();
        while pos > 0 && goes_before(e, &out[pos - 1])
            invariant
                pos <= out.len(),
                forall|a: &DirectoryEntry, b: &DirectoryEntry| call_requires(goes_before, (a, b)),
                forall|a: &DirectoryEntry, b: &DirectoryEntry, first: bool|
                    call_ensures(goes_before, (a, b), first) ==> first == before(a@, b@),
                forall|j: int| pos <= j < out.len() ==> before(e@, #[trigger] views(out@)[j]),
            decreases pos,
        {
            pos -= 1;
        }
        proof {
            let prior = views(entries@).take(i as int);
            let next = views(entries@).take(i + 1);
            assert(next.drop_last() =~= prior);
            assert(next.last() == e@);
            if pos > 0 {
                assert(views(out@)[pos - 1] == out@[pos - 1]@);
            }
            lemma_insert_position_unique(views(out@), e@, before, pos as int);
            assert(views(out@.insert(pos as int, *e)) =~= views(out@).insert(pos as int, e@));
        }
        out.insert(pos, e.clone());
        i += 1;
    }
    assert(views(entries@).take(entries.len() as int) =~= views(entries@));
    out
}

/// The records of `entries` by descending score at `now`, ties in the order
/// they have in `entries`.
pub fn rank(entries: &Vec<DirectoryEntry>, now: i64) -> (out: Vec<DirectoryEntry>)
    ensures
        views(out@) == ranked(views(entries@), now as int),
{
    let higher = |a: &DirectoryEntry, b: &DirectoryEntry| -> (first: bool)
        ensures
            first == outranks(a@, b@, now as int),
        { a.score(now).is_above(&b.score(now)) };
    sort_records(entries, higher, Ghost(by_score(now as int)))
}

} // verus!
