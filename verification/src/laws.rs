//! What holds of the registry's operations taken together.

use vstd::prelude::*;
use crate::entry::EntryView;
use crate::model::{
    bumped, entry_at_path, entry_with_alias, holds_path, lemma_bumped_well_formed,
    lemma_entry_at_path, lemma_entry_with_alias, max_count, removed, well_formed,
};

verus! {

/// The count that a record has after one more visit.
pub open spec fn next_count(before: Option<EntryView>) -> int {
    match before {
        Some(e) => if e.access_count < max_count() {
            e.access_count + 1
        } else {
            e.access_count
        },
        None => 1,
    }
}

/// The last access that a record has after a visit at `now`: `now`, or the
/// last access that it had where that is later.
pub open spec fn next_last_access(before: Option<EntryView>, now: int) -> int {
    match before {
        Some(e) => if now > e.last_access {
            now
        } else {
            e.last_access
        },
        None => now,
    }
}

/// After a visit the registry holds the path; its record has one visit more
/// than before, or one, and the later of its last access and the time of the
/// visit as its last access.
pub proof fn lemma_visit_counts(
    entries: Seq<EntryView>,
    path: Seq<char>,
    alias: Option<Seq<char>>,
    now: int,
)
    requires
        well_formed(entries),
    ensures
        entry_at_path(bumped(entries, path, alias, now), path) is Some,
        entry_at_path(bumped(entries, path, alias, now), path).unwrap().access_count == next_count(
            entry_at_path(entries, path),
        ),
        entry_at_path(bumped(entries, path, alias, now), path).unwrap().last_access
            == next_last_access(entry_at_path(entries, path), now),
        entry_at_path(bumped(entries, path, alias, now), path).unwrap().path == path,
        alias is Some ==> entry_at_path(bumped(entries, path, alias, now), path).unwrap().alias
            == alias.unwrap(),
{
    let after = bumped(entries, path, alias, now);
    lemma_bumped_well_formed(entries, path, alias, now);
    if holds_path(entries, path) {
        let i = choose|i: int| 0 <= i < entries.len() && (#[trigger] entries[i]).path == path;
        lemma_entry_at_path(entries, path, i);
        assert(after[i].path == path);
        lemma_entry_at_path(after, path, i);
    } else {
        let n = entries.len() as int;
        assert(after[n].path == path);
        lemma_entry_at_path(after, path, n);
    }
}

/// Two visits to a path that the registry did not hold leave its record with
/// two visits and the later of the two times as its last access: the time of
/// the second visit, unless the clock ran backwards between them.
pub proof fn lemma_two_visits(
    entries: Seq<EntryView>,
    path: Seq<char>,
    first_alias: Option<Seq<char>>,
    first_now: int,
    second_alias: Option<Seq<char>>,
    second_now: int,
)
    requires
        well_formed(entries),
        !holds_path(entries, path),
    ensures
        ({
            let once = bumped(entries, path, first_alias, first_now);
            let twice = bumped(once, path, second_alias, second_now);
            &&& entry_at_path(twice, path) is Some
            &&& entry_at_path(twice, path).unwrap().access_count == 2
            &&& entry_at_path(twice, path).unwrap().last_access == if second_now > first_now {
                second_now
            } else {
                first_now
            }
            &&& second_now >= first_now ==> entry_at_path(twice, path).unwrap().last_access
                == second_now
        }),
{
    let once = bumped(entries, path, first_alias, first_now);
    lemma_visit_counts(entries, path, first_alias, first_now);
    lemma_bumped_well_formed(entries, path, first_alias, first_now);
    lemma_visit_counts(once, path, second_alias, second_now);
}

/// An alias given to a second path leaves the first: after a visit to one
/// path under a non-empty alias and a visit to another path under the same
/// alias, the alias leads to the record of the second path, and the record of
/// the first path carries none.
pub proof fn lemma_alias_moves(
    entries: Seq<EntryView>,
    first: Seq<char>,
    first_now: int,
    second: Seq<char>,
    second_now: int,
    alias: Seq<char>,
)
    requires
        well_formed(entries),
        first != second,
        alias.len() > 0,
    ensures
        ({
            let once = bumped(entries, first, Some(alias), first_now);
            let twice = bumped(once, second, Some(alias), second_now);
            &&& well_formed(twice)
            &&& entry_with_alias(twice, alias) is Some
            &&& entry_with_alias(twice, alias) == entry_at_path(twice, second)
            &&& entry_at_path(twice, first) is Some
            &&& entry_at_path(twice, first).unwrap().alias.len() == 0
        }),
{
    let once = bumped(entries, first, Some(alias), first_now);
    let twice = bumped(once, second, Some(alias), second_now);
    lemma_bumped_well_formed(entries, first, Some(alias), first_now);
    lemma_bumped_well_formed(once, second, Some(alias), second_now);
    lemma_visit_counts(entries, first, Some(alias), first_now);
    lemma_visit_counts(once, second, Some(alias), second_now);
    // the record of the first path, in the registry after the first visit
    let i = choose|i: int| 0 <= i < once.len() && (#[trigger] once[i]).path == first;
    lemma_entry_at_path(once, first, i);
    assert(once[i].alias == alias);
    assert(twice[i].path == first);
    lemma_entry_at_path(twice, first, i);
    assert(twice[i].alias.len() == 0);
    // the record of the second path, in the registry after the second visit
    let j = choose|j: int| 0 <= j < twice.len() && (#[trigger] twice[j]).path == second;
    lemma_entry_at_path(twice, second, j);
    assert(twice[j].alias == alias);
    lemma_entry_with_alias(twice, alias, j);
}

/// A visit lowers the count of no record, and moves no record to another
/// place.
pub proof fn lemma_visit_never_lowers_count(
    entries: Seq<EntryView>,
    path: Seq<char>,
    alias: Option<Seq<char>>,
    now: int,
    i: int,
)
    requires
        0 <= i < entries.len(),
    ensures
        bumped(entries, path, alias, now).len() >= entries.len(),
        bumped(entries, path, alias, now)[i].path == entries[i].path,
        bumped(entries, path, alias, now)[i].access_count >= entries[i].access_count,
{
}

/// A visit moves the last access of no record back, whatever its time.
pub proof fn lemma_visit_never_regresses_last_access(
    entries: Seq<EntryView>,
    path: Seq<char>,
    alias: Option<Seq<char>>,
    now: int,
    i: int,
)
    requires
        0 <= i < entries.len(),
    ensures
        bumped(entries, path, alias, now)[i].last_access >= entries[i].last_access,
{
}

/// A visit changes only the record of its path, but for the alias that the
/// other records may lose.
pub proof fn lemma_visit_leaves_others(
    entries: Seq<EntryView>,
    path: Seq<char>,
    alias: Option<Seq<char>>,
    now: int,
    i: int,
)
    requires
        0 <= i < entries.len(),
        entries[i].path != path,
    ensures
        bumped(entries, path, alias, now)[i].access_count == entries[i].access_count,
        bumped(entries, path, alias, now)[i].last_access == entries[i].last_access,
        alias is None ==> bumped(entries, path, alias, now)[i] == entries[i],
{
}

/// After a path is removed the registry does not hold it, and holds every
/// other path that it held.
pub proof fn lemma_removed_is_gone(entries: Seq<EntryView>, path: Seq<char>, other: Seq<char>)
    ensures
        !holds_path(removed(entries, path), path),
        other != path ==> holds_path(removed(entries, path), other) == holds_path(entries, other),
{
    broadcast use vstd::seq_lib::group_filter_ensures;

    let pred = crate::model::other_than(path);
    let after = removed(entries, path);
    if holds_path(after, path) {
        let k = choose|k: int| 0 <= k < after.len() && (#[trigger] after[k]).path == path;
        assert(pred(after[k]));
    }
    if other != path {
        if holds_path(entries, other) {
            let i = choose|i: int| 0 <= i < entries.len() && (#[trigger] entries[i]).path == other;
            assert(pred(entries[i]));
            assert(after.contains(entries[i]));
            let k = choose|k: int| 0 <= k < after.len() && after[k] == entries[i];
            assert(after[k].path == other);
        }
        if holds_path(after, other) {
            let k = choose|k: int| 0 <= k < after.len() && (#[trigger] after[k]).path == other;
            assert(after.contains(after[k]));
            entries.lemma_filter_contains_rev(pred, after[k]);
            assert(entries.contains(after[k]));
            let i = choose|i: int| 0 <= i < entries.len() && entries[i] == after[k];
            assert(entries[i].path == other);
        }
    }
}

} // verus!
