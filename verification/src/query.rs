//! Queries: the records that match, best first.
//!
//! A query ranks the records by score, keeps those whose path matches the
//! search terms, keeps only the aliased ones if asked to, and last drops the
//! records whose directory is gone. Whether a directory is there is the
//! caller's knowledge: it comes in as a predicate, or as one flag for each
//! candidate.

use vstd::prelude::*;
use crate::entry::{views, DirectoryEntry, EntryView};
use crate::pattern::{char_views, matches_chars, matches_terms, term_chars, term_views};
use crate::order::lemma_filter_push;
use crate::ranking::{is_ranked, lemma_ranked_is_permutation, lemma_ranked_is_ranked, rank, ranked};
use crate::model::{holds_path, kept_by};
use crate::registry::{Registry, answers, probe};
use crate::text::chars_of;

verus! {

/// The record passes the filters of a query: its path matches the terms,
/// and it carries an alias where only aliased records are asked for.
pub open spec fn admits(e: EntryView, terms: Seq<Seq<char>>, alias_only: bool) -> bool {
    matches_terms(e.path, terms) && (alias_only ==> e.has_alias())
}

/// The records that pass the filters of a query.
pub open spec fn admitted(terms: Seq<Seq<char>>, alias_only: bool) -> spec_fn(EntryView) -> bool {
    |e: EntryView| admits(e, terms, alias_only)
}

/// The records that a query considers, before it asks which directories
/// exist: the ranked records that pass its filters.
pub open spec fn candidates(
    entries: Seq<EntryView>,
    terms: Seq<Seq<char>>,
    alias_only: bool,
    now: int,
) -> Seq<EntryView> {
    ranked(entries, now).filter(admitted(terms, alias_only))
}

/// The answer to a query, where `flags` says of each candidate whether its
/// directory exists.
pub open spec fn query_result(
    entries: Seq<EntryView>,
    terms: Seq<Seq<char>>,
    alias_only: bool,
    now: int,
    flags: Seq<bool>,
) -> Seq<EntryView> {
    kept_by(candidates(entries, terms, alias_only, now), flags)
}

/// The candidates whose flag is set, in order. A candidate that has no flag
/// is kept.
pub fn select_existing(found: &Vec<DirectoryEntry>, flags: &Vec<bool>) -> (kept: Vec<DirectoryEntry>)
    ensures
        views(kept@) == kept_by(views(found@), flags@),
{
    let ghost all = views(found@);
    let mut kept: Vec<DirectoryEntry> = Vec::new();
    let mut i: usize = 0;
    assert(all.take(0) =~= Seq::<EntryView>::empty());
    assert(views(kept@) =~= kept_by(all.take(0), flags@));
    while i < found.len()
        invariant
            i <= found.len(),
            all == views(found@),
            views(kept@) == kept_by(all.take(i as int), flags@),
        decreases found.len() - i,
    {
        proof {
            assert(all.take(i + 1).drop_last() =~= all.take(i as int));
            assert(all.take(i + 1).last() == all[i as int]);
        }
        if i >= flags.len() || flags[i] {
            let ghost prior = kept@;
            kept.push(found[i].clone());
            assert(views(kept@) =~= views(prior).push(all[i as int]));
        }
        i += 1;
    }
    assert(all.take(all.len() as int) =~= all);
    kept
}

impl Registry {
    /// The records that a query considers, before it asks which directories
    /// exist: all records by descending score at `now`, ties in stored
    /// order, without those whose path does not match `terms` and, if
    /// `alias_only`, without those that carry no alias.
    pub fn candidates(&self, terms: &Vec<String>, alias_only: bool, now: i64) -> (found: Vec<
        DirectoryEntry,
    >)
        ensures
            views(found@) == candidates(self@, term_views(terms@), alias_only, now as int),
    {
        let sorted = rank(self.entries(), now);
        let wanted = term_chars(terms);
        let ghost all = views(sorted@);
        let ghost passes = admitted(term_views(terms@), alias_only);
        let mut found: Vec<DirectoryEntry> = Vec::new();
        let mut i: usize = 0;
        assert(all.take(0) =~= Seq::<EntryView>::empty());
        assert(views(found@) =~= all.take(0).filter(passes)) by {
            reveal(Seq::filter);
        }
        while i < sorted.len()
            invariant
                i <= sorted.len(),
                all == views(sorted@),
                passes == admitted(term_views(terms@), alias_only),
                char_views(wanted@) == term_views(terms@),
                views(found@) == all.take(i as int).filter(passes),
            decreases sorted.len() - i,
        {
            proof {
                assert(all.take(i + 1) =~= all.take(i as int).push(all[i as int]));
                lemma_filter_push(all.take(i as int), passes, all[i as int]);
            }
            let text = chars_of(sorted[i].path.as_str());
            if matches_chars(&text, &wanted) && (!alias_only || sorted[i].has_alias()) {
                let ghost prior = found@;
                found.push(sorted[i].clone());
                assert(views(found@) =~= views(prior).push(all[i as int]));
            }
            i += 1;
        }
        assert(all.take(all.len() as int) =~= all);
        found
    }

    /// The answer to a query: the candidates for whose path `on_disk`
    /// answers yes, best first. The predicate is asked once for each
    /// candidate, in order.
    pub fn query<F: Fn(&String) -> bool>(
        &self,
        terms: &Vec<String>,
        alias_only: bool,
        now: i64,
        on_disk: F,
    ) -> (result: Vec<DirectoryEntry>)
        requires
            forall|path: &String| call_requires(on_disk, (path,)),
        ensures
            exists|found: Seq<DirectoryEntry>, flags: Seq<bool>|
                {
                    &&& views(found) == candidates(
                        self@,
                        term_views(terms@),
                        alias_only,
                        now as int,
                    )
                    &&& #[trigger] answers(on_disk, found, flags)
                    &&& views(result@) == query_result(
                        self@,
                        term_views(terms@),
                        alias_only,
                        now as int,
                        flags,
                    )
                },
    {
        let found = self.candidates(terms, alias_only, now);
        let flags = probe(&found, &on_disk);
        let result = select_existing(&found, &flags);
        assert(answers(on_disk, found@, flags@));
        result
    }
}

/// Selecting by flags keeps the order: what is selected from ranked records
/// is ranked, and each selected record is one of those given.
pub proof fn lemma_kept_by_is_ranked(items: Seq<EntryView>, flags: Seq<bool>, now: int)
    requires
        is_ranked(items, now),
    ensures
        is_ranked(kept_by(items, flags), now),
        forall|k: int|
            0 <= k < kept_by(items, flags).len() ==> items.contains(#[trigger] kept_by(items, flags)[k]),
    decreases items.len(),
{
    if items.len() > 0 {
        let front = items.drop_last();
        let last = items.last();
        let n = items.len() - 1;
        assert forall|i: int, j: int| 0 <= i < j < front.len() implies !crate::ranking::outranks(
            front[j],
            front[i],
            now,
        ) by {
            assert(!crate::ranking::outranks(items[j], items[i], now));
        }
        lemma_kept_by_is_ranked(front, flags, now);
        let head = kept_by(front, flags);
        let whole = kept_by(items, flags);
        assert forall|k: int| 0 <= k < whole.len() implies items.contains(#[trigger] whole[k]) by {
            if k < head.len() {
                assert(front.contains(head[k]));
                let i = choose|i: int| 0 <= i < front.len() && front[i] == head[k];
                assert(items[i] == head[k]);
            } else {
                assert(items[n] == whole[k]);
            }
        }
        assert forall|a: int, b: int| 0 <= a < b < whole.len() implies !crate::ranking::outranks(
            whole[b],
            whole[a],
            now,
        ) by {
            if b < head.len() {
                assert(!crate::ranking::outranks(head[b], head[a], now));
            } else {
                assert(front.contains(head[a]));
                let i = choose|i: int| 0 <= i < front.len() && front[i] == head[a];
                assert(!crate::ranking::outranks(items[n], items[i], now));
            }
        }
    }
}

/// Filtering keeps the order: what a predicate selects from ranked records
/// is ranked.
pub proof fn lemma_filter_is_ranked(items: Seq<EntryView>, pred: spec_fn(EntryView) -> bool, now: int)
    requires
        is_ranked(items, now),
    ensures
        is_ranked(items.filter(pred), now),
    decreases items.len(),
{
    reveal(Seq::filter);
    if items.len() > 0 {
        let front = items.drop_last();
        let n = items.len() - 1;
        assert forall|i: int, j: int| 0 <= i < j < front.len() implies !crate::ranking::outranks(
            front[j],
            front[i],
            now,
        ) by {
            assert(!crate::ranking::outranks(items[j], items[i], now));
        }
        lemma_filter_is_ranked(front, pred, now);
        let head = front.filter(pred);
        let whole = items.filter(pred);
        assert forall|a: int, b: int| 0 <= a < b < whole.len() implies !crate::ranking::outranks(
            whole[b],
            whole[a],
            now,
        ) by {
            if b < head.len() {
                assert(!crate::ranking::outranks(head[b], head[a], now));
            } else {
                assert(head.contains(head[a]));
                front.lemma_filter_contains_rev(pred, head[a]);
                let i = choose|i: int| 0 <= i < front.len() && front[i] == head[a];
                assert(!crate::ranking::outranks(items[n], items[i], now));
            }
        }
    }
}

/// The answer to a query is in descending order of score: no record of it
/// stands behind one that it outranks.
pub proof fn lemma_query_is_ranked(
    entries: Seq<EntryView>,
    terms: Seq<Seq<char>>,
    alias_only: bool,
    now: int,
    flags: Seq<bool>,
)
    ensures
        is_ranked(candidates(entries, terms, alias_only, now), now),
        is_ranked(query_result(entries, terms, alias_only, now, flags), now),
{
    lemma_ranked_is_ranked(entries, now);
    lemma_filter_is_ranked(ranked(entries, now), admitted(terms, alias_only), now);
    lemma_kept_by_is_ranked(candidates(entries, terms, alias_only, now), flags, now);
}

/// Every record of an answer passes the filters of the query.
pub proof fn lemma_query_admits(
    entries: Seq<EntryView>,
    terms: Seq<Seq<char>>,
    alias_only: bool,
    now: int,
    flags: Seq<bool>,
    k: int,
)
    requires
        0 <= k < query_result(entries, terms, alias_only, now, flags).len(),
    ensures
        admits(query_result(entries, terms, alias_only, now, flags)[k], terms, alias_only),
{
    broadcast use vstd::seq_lib::group_filter_ensures;

    let found = candidates(entries, terms, alias_only, now);
    lemma_kept_by_contained(found, flags);
    let e = query_result(entries, terms, alias_only, now, flags)[k];
    assert(found.contains(e));
    let i = choose|i: int| 0 <= i < found.len() && found[i] == e;
    assert(admitted(terms, alias_only)(found[i]));
}

/// `x` stands in `items` at place `i`, and the flag of that place is set or
/// missing.
pub open spec fn is_kept_at<A>(items: Seq<A>, flags: Seq<bool>, x: A, i: int) -> bool {
    &&& 0 <= i < items.len()
    &&& items[i] == x
    &&& (i >= flags.len() || flags[i])
}

/// Each selected item is one of those given, at a place whose flag is set
/// or missing: the place is returned.
pub proof fn lemma_kept_by_source<A>(items: Seq<A>, flags: Seq<bool>, k: int) -> (i: int)
    requires
        0 <= k < kept_by(items, flags).len(),
    ensures
        is_kept_at(items, flags, kept_by(items, flags)[k], i),
    decreases items.len(),
{
    let front = items.drop_last();
    let head = kept_by(front, flags);
    if k < head.len() {
        let i = lemma_kept_by_source(front, flags, k);
        assert(items[i] == front[i]);
        i
    } else {
        items.len() - 1
    }
}

/// Each selected item is one of those given.
pub proof fn lemma_kept_by_contained<A>(items: Seq<A>, flags: Seq<bool>)
    ensures
        forall|k: int|
            0 <= k < kept_by(items, flags).len() ==> items.contains(#[trigger] kept_by(items, flags)[k]),
{
    assert forall|k: int| 0 <= k < kept_by(items, flags).len() implies items.contains(
        #[trigger] kept_by(items, flags)[k],
    ) by {
        let i = lemma_kept_by_source(items, flags, k);
        assert(items[i] == kept_by(items, flags)[k]);
    }
}

/// A path whose every record is flagged as gone is in no answer, however
/// high it ranks.
pub proof fn lemma_gone_is_excluded(items: Seq<EntryView>, flags: Seq<bool>, path: Seq<char>)
    requires
        flags.len() == items.len(),
        forall|i: int| 0 <= i < items.len() && (#[trigger] items[i]).path == path ==> !flags[i],
    ensures
        !holds_path(kept_by(items, flags), path),
{
    let kept = kept_by(items, flags);
    if holds_path(kept, path) {
        let k = choose|k: int| 0 <= k < kept.len() && (#[trigger] kept[k]).path == path;
        let i = lemma_kept_by_source(items, flags, k);
        assert(items[i].path == path);
    }
}

/// A directory that is gone is in no answer, however high its record
/// ranks: where the flag of every candidate with `path` says so, the answer
/// holds no record of `path`.
pub proof fn lemma_query_excludes_gone(
    entries: Seq<EntryView>,
    terms: Seq<Seq<char>>,
    alias_only: bool,
    now: int,
    flags: Seq<bool>,
    path: Seq<char>,
)
    requires
        flags.len() == candidates(entries, terms, alias_only, now).len(),
        forall|i: int|
            0 <= i < flags.len() && (#[trigger] candidates(entries, terms, alias_only, now)[i]).path
                == path ==> !flags[i],
    ensures
        !holds_path(query_result(entries, terms, alias_only, now, flags), path),
{
    lemma_gone_is_excluded(candidates(entries, terms, alias_only, now), flags, path);
}

/// Every record of an answer is a record of the registry, unchanged.
pub proof fn lemma_query_from_registry(
    entries: Seq<EntryView>,
    terms: Seq<Seq<char>>,
    alias_only: bool,
    now: int,
    flags: Seq<bool>,
    k: int,
)
    requires
        0 <= k < query_result(entries, terms, alias_only, now, flags).len(),
    ensures
        entries.contains(query_result(entries, terms, alias_only, now, flags)[k]),
{
    broadcast use vstd::seq_lib::group_to_multiset_ensures;

    let sorted = ranked(entries, now);
    let found = candidates(entries, terms, alias_only, now);
    let e = query_result(entries, terms, alias_only, now, flags)[k];
    lemma_kept_by_contained(found, flags);
    assert(found.contains(e));
    sorted.lemma_filter_contains_rev(admitted(terms, alias_only), e);
    assert(sorted.contains(e));
    lemma_ranked_is_permutation(entries, now);
    assert(sorted.to_multiset().count(e) > 0);
    assert(entries.to_multiset().count(e) > 0);
}

} // verus!
