//! What the registry holds and what its operations make of it, as plain
//! values.
//!
//! A well-formed registry holds no path twice, no non-empty alias twice, and
//! no record with fewer than one visit.

use vstd::prelude::*;
use crate::entry::{first_visit, DirectoryEntry, EntryView};

verus! {

/// Some record of `entries` has `path`.
pub open spec fn holds_path(entries: Seq<EntryView>, path: Seq<char>) -> bool {
    exists|i: int| 0 <= i < entries.len() && (#[trigger] entries[i]).path == path
}

/// `alias` is not empty and some record of `entries` carries it.
pub open spec fn holds_alias(entries: Seq<EntryView>, alias: Seq<char>) -> bool {
    alias.len() > 0 && exists|i: int| 0 <= i < entries.len() && (#[trigger] entries[i]).alias == alias
}

/// No two records have the same path.
pub open spec fn paths_distinct(entries: Seq<EntryView>) -> bool {
    forall|i: int, j: int|
        0 <= i < j < entries.len() ==> (#[trigger] entries[i]).path != (#[trigger] entries[j]).path
}

/// No two records carry the same non-empty alias.
pub open spec fn aliases_distinct(entries: Seq<EntryView>) -> bool {
    forall|i: int, j: int|
        0 <= i < j < entries.len() && (#[trigger] entries[i]).has_alias() ==> entries[i].alias != (
        #[trigger] entries[j]).alias
}

/// Every record was visited at least once.
pub open spec fn counts_valid(entries: Seq<EntryView>) -> bool {
    forall|i: int| 0 <= i < entries.len() ==> (#[trigger] entries[i]).access_count >= 1
}

/// The invariant of the registry.
pub open spec fn well_formed(entries: Seq<EntryView>) -> bool {
    &&& counts_valid(entries)
    &&& paths_distinct(entries)
    &&& aliases_distinct(entries)
}

/// The record with `path`, if there is one.
pub open spec fn entry_at_path(entries: Seq<EntryView>, path: Seq<char>) -> Option<EntryView> {
    if holds_path(entries, path) {
        Some(
            entries[choose|i: int| 0 <= i < entries.len() && (#[trigger] entries[i]).path == path],
        )
    } else {
        None
    }
}

/// The record that carries `alias`, if `alias` is not empty and there is one.
pub open spec fn entry_with_alias(entries: Seq<EntryView>, alias: Seq<char>) -> Option<EntryView> {
    if holds_alias(entries, alias) {
        Some(
            entries[choose|i: int| 0 <= i < entries.len() && (#[trigger] entries[i]).alias == alias],
        )
    } else {
        None
    }
}

/// What a found record holds, as plain values.
pub open spec fn entry_view(found: Option<DirectoryEntry>) -> Option<EntryView> {
    match found {
        Some(entry) => Some(entry@),
        None => None,
    }
}

/// The characters of an alias that may be absent.
pub open spec fn alias_view(alias: Option<&str>) -> Option<Seq<char>> {
    match alias {
        Some(name) => Some(name@),
        None => None,
    }
}

/// The greatest count that a record can hold.
pub open spec fn max_count() -> int {
    0x7fff_ffff_ffff_ffff
}

/// `e` after one more visit at `now`: the count grows by one, unless it is
/// at its greatest already; the last access becomes `now`, unless `now` lies
/// before it; the alias changes only where one is given.
pub open spec fn visited(e: EntryView, alias: Option<Seq<char>>, now: int) -> EntryView {
    EntryView {
        path: e.path,
        access_count: if e.access_count < max_count() {
            e.access_count + 1
        } else {
            e.access_count
        },
        last_access: if now > e.last_access {
            now
        } else {
            e.last_access
        },
        alias: match alias {
            Some(name) => name,
            None => e.alias,
        },
    }
}

/// `e` after `alias` was given to another record: it loses the alias if it
/// carried that very one.
pub open spec fn released(e: EntryView, alias: Option<Seq<char>>) -> EntryView {
    match alias {
        Some(name) => if name.len() > 0 && e.alias == name {
            EntryView { path: e.path, access_count: e.access_count, last_access: e.last_access, alias: Seq::empty() }
        } else {
            e
        },
        None => e,
    }
}

/// What a visit to `path` under `alias` at `now` makes of the record `e`.
pub open spec fn bump_each(e: EntryView, path: Seq<char>, alias: Option<Seq<char>>, now: int) -> EntryView {
    if e.path == path {
        visited(e, alias, now)
    } else {
        released(e, alias)
    }
}

/// The alias of a new record: the one given, or none.
pub open spec fn alias_or_empty(alias: Option<Seq<char>>) -> Seq<char> {
    match alias {
        Some(name) => name,
        None => Seq::empty(),
    }
}

/// The registry after a visit to `path` under `alias` at `now`: the record
/// of `path` is bumped, or a new one is added at the end; every other record
/// that carried the alias loses it.
pub open spec fn bumped(
    entries: Seq<EntryView>,
    path: Seq<char>,
    alias: Option<Seq<char>>,
    now: int,
) -> Seq<EntryView> {
    let touched = Seq::new(entries.len(), |i: int| bump_each(entries[i], path, alias, now));
    if holds_path(entries, path) {
        touched
    } else {
        touched.push(first_visit(path, alias_or_empty(alias), now))
    }
}

/// `e` without its alias if its path is `path`, else `e`.
pub open spec fn unnamed_at(e: EntryView, path: Seq<char>) -> EntryView {
    if e.path == path {
        EntryView { path: e.path, access_count: e.access_count, last_access: e.last_access, alias: Seq::empty() }
    } else {
        e
    }
}

/// The registry after the record of `path` lost its alias.
pub open spec fn alias_cleared(entries: Seq<EntryView>, path: Seq<char>) -> Seq<EntryView> {
    Seq::new(entries.len(), |i: int| unnamed_at(entries[i], path))
}

/// The records whose path is not `path`.
pub open spec fn other_than(path: Seq<char>) -> spec_fn(EntryView) -> bool {
    |e: EntryView| e.path != path
}

/// The registry without the record of `path`.
pub open spec fn removed(entries: Seq<EntryView>, path: Seq<char>) -> Seq<EntryView> {
    entries.filter(other_than(path))
}

/// The record was visited no longer than `max_age` seconds before `now`.
pub open spec fn is_fresh(e: EntryView, now: int, max_age: int) -> bool {
    now - e.last_access <= max_age
}

/// The records visited no longer than `max_age` seconds before `now`.
pub open spec fn fresh_at(now: int, max_age: int) -> spec_fn(EntryView) -> bool {
    |e: EntryView| is_fresh(e, now, max_age)
}

/// The registry without the records last visited more than `max_age`
/// seconds before `now`.
pub open spec fn without_stale(entries: Seq<EntryView>, now: int, max_age: int) -> Seq<EntryView> {
    entries.filter(fresh_at(now, max_age))
}

/// The items of `items` whose flag in `flags` is set, in order. An item
/// that has no flag is kept.
pub open spec fn kept_by<A>(items: Seq<A>, flags: Seq<bool>) -> Seq<A>
    decreases items.len(),
{
    if items.len() == 0 {
        Seq::empty()
    } else {
        let head = kept_by(items.drop_last(), flags);
        if items.len() > flags.len() || flags[items.len() - 1] {
            head.push(items.last())
        } else {
            head
        }
    }
}

/// What giving `alias` to the record of `path` makes of the record `e`: the
/// record of `path` carries it, every other record that carried it loses it.
pub open spec fn named_at(e: EntryView, path: Seq<char>, alias: Seq<char>) -> EntryView {
    if e.path == path {
        EntryView { path: e.path, access_count: e.access_count, last_access: e.last_access, alias }
    } else {
        released(e, Some(alias))
    }
}

/// The registry after `alias` was given to the record of `path`; unchanged
/// where it holds no such record.
pub open spec fn alias_assigned(
    entries: Seq<EntryView>,
    path: Seq<char>,
    alias: Seq<char>,
) -> Seq<EntryView> {
    if holds_path(entries, path) {
        Seq::new(entries.len(), |i: int| named_at(entries[i], path, alias))
    } else {
        entries
    }
}

/// Giving an alias keeps the registry well-formed.
pub proof fn lemma_alias_assigned_well_formed(
    entries: Seq<EntryView>,
    path: Seq<char>,
    alias: Seq<char>,
)
    requires
        well_formed(entries),
    ensures
        well_formed(alias_assigned(entries, path, alias)),
{
    let after = alias_assigned(entries, path, alias);
    if holds_path(entries, path) {
        assert forall|i: int| 0 <= i < after.len() implies (#[trigger] after[i]).access_count >= 1 by {
            assert(entries[i].access_count >= 1);
        }
        assert forall|i: int, j: int| 0 <= i < j < after.len() implies (#[trigger] after[i]).path != (
        #[trigger] after[j]).path by {
            assert(entries[i].path != entries[j].path);
        }
        assert forall|i: int, j: int|
            0 <= i < j < after.len() && (#[trigger] after[i]).has_alias() implies after[i].alias != (
        #[trigger] after[j]).alias by {
            assert(entries[i].path != entries[j].path);
            if entries[i].has_alias() {
                assert(entries[i].alias != entries[j].alias);
            }
            if entries[j].has_alias() && entries[i].alias == entries[j].alias {
                assert(false);
            }
        }
    }
}

/// Where no two records share a path, the record with `path` is the one at
/// any place that has it.
pub proof fn lemma_entry_at_path(entries: Seq<EntryView>, path: Seq<char>, i: int)
    requires
        paths_distinct(entries),
        0 <= i < entries.len(),
        entries[i].path == path,
    ensures
        entry_at_path(entries, path) == Some(entries[i]),
{
    let k = choose|k: int| 0 <= k < entries.len() && (#[trigger] entries[k]).path == path;
    assert(k == i) by {
        if k < i {
            assert(entries[k].path != entries[i].path);
        } else if i < k {
            assert(entries[i].path != entries[k].path);
        }
    }
}

/// Where no two records share a non-empty alias, the record with a non-empty
/// `alias` is the one at any place that has it.
pub proof fn lemma_entry_with_alias(entries: Seq<EntryView>, alias: Seq<char>, i: int)
    requires
        aliases_distinct(entries),
        alias.len() > 0,
        0 <= i < entries.len(),
        entries[i].alias == alias,
    ensures
        entry_with_alias(entries, alias) == Some(entries[i]),
{
    let k = choose|k: int| 0 <= k < entries.len() && (#[trigger] entries[k]).alias == alias;
    assert(k == i) by {
        if k < i {
            assert(entries[k].has_alias());
            assert(entries[k].alias != entries[i].alias);
        } else if i < k {
            assert(entries[i].has_alias());
            assert(entries[i].alias != entries[k].alias);
        }
    }
}

/// A visit keeps the registry well-formed.
pub proof fn lemma_bumped_well_formed(
    entries: Seq<EntryView>,
    path: Seq<char>,
    alias: Option<Seq<char>>,
    now: int,
)
    requires
        well_formed(entries),
    ensures
        well_formed(bumped(entries, path, alias, now)),
{
    let after = bumped(entries, path, alias, now);
    let n = entries.len() as int;
    assert forall|i: int| 0 <= i < after.len() implies (#[trigger] after[i]).access_count >= 1 by {
        if i < n {
            assert(entries[i].access_count >= 1);
        }
    }
    assert forall|i: int, j: int| 0 <= i < j < after.len() implies (#[trigger] after[i]).path != (
    #[trigger] after[j]).path by {
        if j < n {
            assert(entries[i].path != entries[j].path);
        } else {
            assert(after[i].path == entries[i].path);
        }
    }
    assert forall|i: int, j: int|
        0 <= i < j < after.len() && (#[trigger] after[i]).has_alias() implies after[i].alias != (
    #[trigger] after[j]).alias by {
        if j < n {
            assert(entries[i].path != entries[j].path);
            if entries[i].has_alias() {
                assert(entries[i].alias != entries[j].alias);
            }
            if entries[j].has_alias() && entries[i].alias == entries[j].alias {
                assert(false);
            }
        } else {
            assert(after[i].path == entries[i].path);
        }
    }
}

/// Taking the alias from a record keeps the registry well-formed.
pub proof fn lemma_alias_cleared_well_formed(entries: Seq<EntryView>, path: Seq<char>)
    requires
        well_formed(entries),
    ensures
        well_formed(alias_cleared(entries, path)),
{
    let after = alias_cleared(entries, path);
    assert forall|i: int| 0 <= i < after.len() implies (#[trigger] after[i]).access_count >= 1 by {
        assert(entries[i].access_count >= 1);
    }
    assert forall|i: int, j: int| 0 <= i < j < after.len() implies (#[trigger] after[i]).path != (
    #[trigger] after[j]).path by {
        assert(entries[i].path != entries[j].path);
    }
    assert forall|i: int, j: int|
        0 <= i < j < after.len() && (#[trigger] after[i]).has_alias() implies after[i].alias != (
    #[trigger] after[j]).alias by {
        assert(entries[i].has_alias());
        assert(entries[i].alias != entries[j].alias);
    }
}

/// A well-formed registry without its last record is well-formed.
pub proof fn lemma_front_well_formed(entries: Seq<EntryView>)
    requires
        well_formed(entries),
        entries.len() > 0,
    ensures
        well_formed(entries.drop_last()),
{
    let front = entries.drop_last();
    assert forall|i: int, j: int| 0 <= i < j < front.len() implies (#[trigger] front[i]).path != (
    #[trigger] front[j]).path by {
        assert(entries[i].path != entries[j].path);
    }
    assert forall|i: int, j: int|
        0 <= i < j < front.len() && (#[trigger] front[i]).has_alias() implies front[i].alias != (
    #[trigger] front[j]).alias by {
        assert(entries[i].has_alias());
        assert(entries[i].alias != entries[j].alias);
    }
    assert forall|i: int| 0 <= i < front.len() implies (#[trigger] front[i]).access_count >= 1 by {
        assert(entries[i].access_count >= 1);
    }
}

/// A well-formed registry stays well-formed when a record is added at its
/// end that was visited at least once, whose path the registry does not
/// hold, and whose alias is empty or carried by no record.
pub proof fn lemma_added_well_formed(kept: Seq<EntryView>, e: EntryView)
    requires
        well_formed(kept),
        e.access_count >= 1,
        !holds_path(kept, e.path),
        !holds_alias(kept, e.alias),
    ensures
        well_formed(kept.push(e)),
{
    let whole = kept.push(e);
    assert forall|i: int| 0 <= i < whole.len() implies (#[trigger] whole[i]).access_count >= 1 by {
        if i < kept.len() {
            assert(kept[i].access_count >= 1);
        }
    }
    assert forall|i: int, j: int| 0 <= i < j < whole.len() implies (#[trigger] whole[i]).path != (
    #[trigger] whole[j]).path by {
        if j < kept.len() {
            assert(kept[i].path != kept[j].path);
        } else {
            assert(kept[i].path != e.path);
        }
    }
    assert forall|i: int, j: int|
        0 <= i < j < whole.len() && (#[trigger] whole[i]).has_alias() implies whole[i].alias != (
    #[trigger] whole[j]).alias by {
        if j < kept.len() {
            assert(kept[i].has_alias());
            assert(kept[i].alias != kept[j].alias);
        } else {
            assert(kept[i].alias != e.alias);
        }
    }
}

/// What a stored record becomes when it joins the records `kept`: it counts
/// one visit at least, and it carries its alias only where none of `kept`
/// carries it.
pub open spec fn admitted_record(kept: Seq<EntryView>, e: EntryView) -> EntryView {
    EntryView {
        path: e.path,
        access_count: if e.access_count < 1 {
            1
        } else {
            e.access_count
        },
        last_access: e.last_access,
        alias: if holds_alias(kept, e.alias) {
            Seq::empty()
        } else {
            e.alias
        },
    }
}

/// The registry that a stored list of records gives, whatever the list
/// holds: of the records of one path the first stays, of the records that
/// carry one alias the first keeps it, and a record counts one visit at
/// least.
pub open spec fn recovered(entries: Seq<EntryView>) -> Seq<EntryView>
    decreases entries.len(),
{
    if entries.len() == 0 {
        Seq::empty()
    } else {
        let kept = recovered(entries.drop_last());
        if holds_path(kept, entries.last().path) {
            kept
        } else {
            kept.push(admitted_record(kept, entries.last()))
        }
    }
}

/// What is recovered from a stored list is well-formed.
pub proof fn lemma_recovered_well_formed(entries: Seq<EntryView>)
    ensures
        well_formed(recovered(entries)),
    decreases entries.len(),
{
    if entries.len() > 0 {
        let kept = recovered(entries.drop_last());
        lemma_recovered_well_formed(entries.drop_last());
        if !holds_path(kept, entries.last().path) {
            lemma_added_well_formed(kept, admitted_record(kept, entries.last()));
        }
    }
}

/// A well-formed list is recovered as it is.
pub proof fn lemma_recovered_keeps_well_formed(entries: Seq<EntryView>)
    requires
        well_formed(entries),
    ensures
        recovered(entries) == entries,
    decreases entries.len(),
{
    if entries.len() > 0 {
        let front = entries.drop_last();
        let last = entries.last();
        let n = entries.len() - 1;
        lemma_front_well_formed(entries);
        lemma_recovered_keeps_well_formed(front);
        assert(!holds_path(front, last.path)) by {
            if holds_path(front, last.path) {
                let i = choose|i: int| 0 <= i < front.len() && (#[trigger] front[i]).path == last.path;
                assert(entries[i].path != entries[n].path);
            }
        }
        assert(!holds_alias(front, last.alias)) by {
            if holds_alias(front, last.alias) {
                let i = choose|i: int|
                    0 <= i < front.len() && (#[trigger] front[i]).alias == last.alias;
                assert(entries[i].has_alias());
                assert(entries[i].alias != entries[n].alias);
            }
        }
        assert(entries[n].access_count >= 1);
        assert(admitted_record(front, last) == last);
        assert(entries =~= front.push(last));
    } else {
        assert(recovered(entries) =~= entries);
    }
}

/// Every part of a well-formed registry that a predicate selects is
/// well-formed.
pub proof fn lemma_filter_well_formed(entries: Seq<EntryView>, pred: spec_fn(EntryView) -> bool)
    requires
        well_formed(entries),
    ensures
        well_formed(entries.filter(pred)),
        forall|k: int|
            0 <= k < entries.filter(pred).len() ==> entries.contains(
                #[trigger] entries.filter(pred)[k],
            ),
    decreases entries.len(),
{
    reveal(Seq::filter);
    if entries.len() > 0 {
        let front = entries.drop_last();
        let last = entries.last();
        lemma_front_well_formed(entries);
        lemma_filter_well_formed(front, pred);
        let head = front.filter(pred);
        let whole = entries.filter(pred);
        assert forall|k: int| 0 <= k < whole.len() implies entries.contains(#[trigger] whole[k]) by {
            if k < head.len() {
                assert(front.contains(head[k]));
                let i = choose|i: int| 0 <= i < front.len() && front[i] == head[k];
                assert(entries[i] == head[k]);
            } else {
                assert(whole[k] == last);
                assert(entries[entries.len() - 1] == last);
            }
        }
        if pred(last) {
            assert(whole == head.push(last));
            lemma_push_well_formed(entries, head, last);
        }
    }
}

/// A well-formed part of a registry's front stays well-formed when the
/// registry's last record is added to it.
pub proof fn lemma_push_well_formed(entries: Seq<EntryView>, head: Seq<EntryView>, last: EntryView)
    requires
        well_formed(entries),
        entries.len() > 0,
        last == entries.last(),
        well_formed(head),
        forall|k: int| 0 <= k < head.len() ==> entries.drop_last().contains(#[trigger] head[k]),
    ensures
        well_formed(head.push(last)),
{
    let whole = head.push(last);
    let front = entries.drop_last();
    let n = entries.len() - 1;
    assert(entries[n].access_count >= 1);
    assert forall|i: int, j: int| 0 <= i < j < whole.len() implies (#[trigger] whole[i]).path != (
    #[trigger] whole[j]).path by {
        if j < head.len() {
            assert(head[i].path != head[j].path);
        } else {
            assert(front.contains(head[i]));
            let a = choose|a: int| 0 <= a < front.len() && front[a] == head[i];
            assert(entries[a].path != entries[n].path);
        }
    }
    assert forall|i: int, j: int|
        0 <= i < j < whole.len() && (#[trigger] whole[i]).has_alias() implies whole[i].alias != (
    #[trigger] whole[j]).alias by {
        if j < head.len() {
            assert(head[i].has_alias());
            assert(head[i].alias != head[j].alias);
        } else {
            assert(front.contains(head[i]));
            let a = choose|a: int| 0 <= a < front.len() && front[a] == head[i];
            assert(entries[a].has_alias());
            assert(entries[a].alias != entries[n].alias);
        }
    }
}

/// Every part of a well-formed registry that flags select is well-formed,
/// and each of its records is one of the registry.
pub proof fn lemma_kept_by_well_formed(entries: Seq<EntryView>, flags: Seq<bool>)
    requires
        well_formed(entries),
    ensures
        well_formed(kept_by(entries, flags)),
        forall|k: int|
            0 <= k < kept_by(entries, flags).len() ==> entries.contains(
                #[trigger] kept_by(entries, flags)[k],
            ),
    decreases entries.len(),
{
    if entries.len() > 0 {
        let front = entries.drop_last();
        let last = entries.last();
        lemma_front_well_formed(entries);
        lemma_kept_by_well_formed(front, flags);
        let head = kept_by(front, flags);
        let whole = kept_by(entries, flags);
        assert forall|k: int| 0 <= k < whole.len() implies entries.contains(#[trigger] whole[k]) by {
            if k < head.len() {
                assert(front.contains(head[k]));
                let i = choose|i: int| 0 <= i < front.len() && front[i] == head[k];
                assert(entries[i] == head[k]);
            } else {
                assert(whole[k] == last);
                assert(entries[entries.len() - 1] == last);
            }
        }
        if entries.len() > flags.len() || flags[entries.len() - 1] {
            lemma_push_well_formed(entries, head, last);
        }
    }
}

} // verus!
