//! The registry: one record per canonical path.
//!
//! Every operation takes a well-formed registry and leaves one.

use vstd::prelude::*;
use crate::entry::{views, DirectoryEntry, EntryView};
use crate::model::{
    admitted_record, lemma_added_well_formed, lemma_recovered_keeps_well_formed, recovered,
    alias_assigned, alias_cleared, alias_view, aliases_distinct, bump_each, bumped, counts_valid,
    entry_at_path, entry_view, entry_with_alias, fresh_at, holds_path, kept_by,
    lemma_alias_assigned_well_formed, lemma_alias_cleared_well_formed, lemma_bumped_well_formed,
    lemma_entry_at_path, lemma_entry_with_alias, lemma_filter_well_formed,
    lemma_kept_by_well_formed, named_at, other_than, paths_distinct, removed, unnamed_at, visited,
    well_formed, without_stale,
};
use crate::path::{canonical, canonicalize};

verus! {

/// Seconds after which a record that was not visited again is dropped:
/// thirty days.
pub const DEFAULT_MAX_AGE_SECONDS: i64 = 2_592_000;

/// Why a list of records is no registry.
#[derive(Clone, Copy, Debug, PartialEq, Eq, Structural)]
pub enum RegistryError {
    /// Some record has fewer than one visit.
    InvalidCount,
    /// Two records have the same path.
    DuplicatePath,
    /// Two records carry the same non-empty alias.
    DuplicateAlias,
}

/// `flags` holds, for each record, an answer that `on_disk` gave for its
/// path.
pub open spec fn answers<F: Fn(&String) -> bool>(
    on_disk: F,
    records: Seq<DirectoryEntry>,
    flags: Seq<bool>,
) -> bool {
    &&& flags.len() == records.len()
    &&& forall|i: int|
        0 <= i < records.len() ==> call_ensures(on_disk, (&records[i].path,), #[trigger] flags[i])
}

/// Asks `on_disk` about the path of each record, in order.
pub fn probe<F: Fn(&String) -> bool>(records: &Vec<DirectoryEntry>, on_disk: &F) -> (flags: Vec<bool>)
    requires
        forall|path: &String| call_requires(*on_disk, (path,)),
    ensures
        answers(*on_disk, records@, flags@),
{
    let mut flags: Vec<bool> = Vec::new();
    let mut i: usize = 0;
    while i < records.len()
        invariant
            i <= records.len(),
            flags.len() == i,
            forall|path: &String| call_requires(*on_disk, (path,)),
            forall|j: int|
                0 <= j < i ==> call_ensures(*on_disk, (&records@[j].path,), #[trigger] flags@[j]),
        decreases records.len() - i,
    {
        let answer = on_disk(&records[i].path);
        flags.push(answer);
        i += 1;
    }
    flags
}

/// The registry of visited directories.
pub struct Registry {
    entries: Vec<DirectoryEntry>,
}

impl View for Registry {
    type V = Seq<EntryView>;

    open spec fn view(&self) -> Seq<EntryView> {
        views(self.records())
    }
}

impl Registry {
    /// The records of the registry, in the order in which they are stored.
    pub closed spec fn records(&self) -> Seq<DirectoryEntry> {
        self.entries@
    }

    /// The registry is well-formed.
    pub open spec fn wf(&self) -> bool {
        well_formed(self@)
    }

    /// A registry without records.
    pub fn new() -> (registry: Self)
        ensures
            registry@ == Seq::<EntryView>::empty(),
            registry.wf(),
    {
        let registry = Registry { entries: Vec::new() };
        assert(registry@ =~= Seq::<EntryView>::empty());
        registry
    }

    /// The number of records.
    pub fn len(&self) -> (n: usize)
        ensures
            n == self@.len(),
    {
        self.entries.len()
    }

    /// Whether the registry holds no record.
    pub fn is_empty(&self) -> (empty: bool)
        ensures
            empty == (self@.len() == 0),
    {
        self.entries.len() == 0
    }

    /// The records, in the order in which they are stored.
    pub fn entries(&self) -> (all: &Vec<DirectoryEntry>)
        ensures
            all@ == self.records(),
            views(all@) == self@,
    {
        &self.entries
    }

    /// Drops every record.
    pub fn clear(&mut self)
        ensures
            final(self)@ == Seq::<EntryView>::empty(),
            final(self).wf(),
    {
        self.entries.clear();
        assert(self@ =~= Seq::<EntryView>::empty());
    }

    /// Counts a visit to the canonical path `key` at `now`. The record of
    /// `key` gets one more visit, and `now` as its last access unless it was
    /// visited later than that already; or it is created with one visit. Where `alias` is given it becomes the alias of that
    /// record, and a non-empty one is taken from every other record.
    /// Returns the record as it stands after the visit.
    pub fn bump_key(&mut self, key: &str, alias: Option<&str>, now: i64) -> (entry: DirectoryEntry)
        requires
            old(self).wf(),
        ensures
            final(self).wf(),
            final(self)@ == bumped(old(self)@, key@, alias_view(alias), now as int),
            entry_at_path(final(self)@, key@) == Some(entry@),
    {
        let ghost before = self@;
        let ghost given = alias_view(alias);
        let key_owned: String = key.to_owned();
        let alias_owned: Option<String> = match alias {
            Some(name) => Some(name.to_owned()),
            None => None,
        };
        let n: usize = self.entries.len();
        let mut found: Option<usize> = None;
        let mut i: usize = 0;
        while i < n
            invariant
                i <= n,
                n == before.len(),
                self.entries@.len() == n,
                key_owned@ == key@,
                given == alias_view(alias),
                match alias_owned {
                    Some(name) => given == Some(name@),
                    None => given.is_none(),
                },
                forall|j: int|
                    0 <= j < i ==> (#[trigger] self.entries@[j])@ == bump_each(
                        before[j],
                        key@,
                        given,
                        now as int,
                    ),
                forall|j: int| i <= j < n ==> (#[trigger] self.entries@[j])@ == before[j],
                match found {
                    Some(k) => k < i && before[k as int].path == key@,
                    None => forall|j: int| 0 <= j < i ==> (#[trigger] before[j]).path != key@,
                },
            decreases n - i,
        {
            if self.entries[i].path == key_owned {
                if self.entries[i].access_count < i64::MAX {
                    self.entries[i].access_count = self.entries[i].access_count + 1;
                }
                if now > self.entries[i].last_access {
                    self.entries[i].last_access = now;
                }
                match &alias_owned {
                    Some(name) => {
                        self.entries[i].alias = name.clone();
                    },
                    None => {},
                }
                found = Some(i);
            } else {
                match &alias_owned {
                    Some(name) => {
                        if !name.as_str().is_empty() && self.entries[i].alias == *name {
                            self.entries[i].alias = String::new();
                        }
                    },
                    None => {},
                }
            }
            i += 1;
        }
        proof {
            lemma_bumped_well_formed(before, key@, given, now as int);
        }
        match found {
            Some(k) => {
                proof {
                    assert(before[k as int].path == key@);
                    assert(holds_path(before, key@));
                    assert(self@ =~= bumped(before, key@, given, now as int));
                    lemma_entry_at_path(self@, key@, k as int);
                }
                self.entries[k].clone()
            },
            None => {
                let name: String = match alias_owned {
                    Some(name) => name,
                    None => String::new(),
                };
                let entry = DirectoryEntry {
                    path: key_owned,
                    access_count: 1,
                    last_access: now,
                    alias: name,
                };
                let copy = entry.clone();
                self.entries.push(entry);
                proof {
                    assert(!holds_path(before, key@));
                    assert(self@ =~= bumped(before, key@, given, now as int));
                    lemma_entry_at_path(self@, key@, n as int);
                }
                copy
            },
        }
    }

    /// The record of the canonical path `key`, if the registry has one.
    pub fn find_key(&self, key: &str) -> (found: Option<DirectoryEntry>)
        requires
            self.wf(),
        ensures
            entry_view(found) == entry_at_path(self@, key@),
    {
        let key_owned: String = key.to_owned();
        let mut i: usize = 0;
        while i < self.entries.len()
            invariant
                i <= self.entries.len(),
                self.wf(),
                key_owned@ == key@,
                forall|j: int| 0 <= j < i ==> (#[trigger] self@[j]).path != key@,
            decreases self.entries.len() - i,
        {
            if self.entries[i].path == key_owned {
                proof {
                    assert(self@[i as int].path == key@);
                    lemma_entry_at_path(self@, key@, i as int);
                }
                return Some(self.entries[i].clone());
            }
            i += 1;
        }
        None
    }

    /// The record that carries `alias`. There is none for the empty alias.
    pub fn find_by_alias(&self, alias: &str) -> (found: Option<DirectoryEntry>)
        requires
            self.wf(),
        ensures
            entry_view(found) == entry_with_alias(self@, alias@),
    {
        if alias.is_empty() {
            return None;
        }
        let alias_owned: String = alias.to_owned();
        let mut i: usize = 0;
        while i < self.entries.len()
            invariant
                i <= self.entries.len(),
                self.wf(),
                alias_owned@ == alias@,
                alias@.len() > 0,
                forall|j: int| 0 <= j < i ==> (#[trigger] self@[j]).alias != alias@,
            decreases self.entries.len() - i,
        {
            if self.entries[i].alias == alias_owned {
                proof {
                    assert(self@[i as int].alias == alias@);
                    lemma_entry_with_alias(self@, alias@, i as int);
                }
                return Some(self.entries[i].clone());
            }
            i += 1;
        }
        None
    }

    /// Takes the alias from the record of the canonical path `key`. Changes
    /// nothing where the registry has no such record.
    pub fn clear_alias_key(&mut self, key: &str)
        requires
            old(self).wf(),
        ensures
            final(self).wf(),
            final(self)@ == alias_cleared(old(self)@, key@),
    {
        let ghost before = self@;
        let key_owned: String = key.to_owned();
        let n: usize = self.entries.len();
        let mut i: usize = 0;
        while i < n
            invariant
                i <= n,
                n == before.len(),
                self.entries@.len() == n,
                key_owned@ == key@,
                forall|j: int|
                    0 <= j < i ==> (#[trigger] self.entries@[j])@ == unnamed_at(before[j], key@),
                forall|j: int| i <= j < n ==> (#[trigger] self.entries@[j])@ == before[j],
            decreases n - i,
        {
            if self.entries[i].path == key_owned {
                self.entries[i].alias = String::new();
            }
            i += 1;
        }
        proof {
            lemma_alias_cleared_well_formed(before, key@);
            assert(self@ =~= alias_cleared(before, key@));
        }
    }

    /// Gives `alias` to the record of the canonical path `key`, without
    /// counting a visit, and takes a non-empty one from every other record.
    /// Changes nothing where the registry has no record of `key`.
    pub fn assign_alias_key(&mut self, key: &str, alias: &str)
        requires
            old(self).wf(),
        ensures
            final(self).wf(),
            final(self)@ == alias_assigned(old(self)@, key@, alias@),
    {
        let ghost before = self@;
        if self.find_key(key).is_none() {
            return;
        }
        let key_owned: String = key.to_owned();
        let alias_owned: String = alias.to_owned();
        let n: usize = self.entries.len();
        let mut i: usize = 0;
        while i < n
            invariant
                i <= n,
                n == before.len(),
                self.entries@.len() == n,
                key_owned@ == key@,
                alias_owned@ == alias@,
                forall|j: int|
                    0 <= j < i ==> (#[trigger] self.entries@[j])@ == named_at(before[j], key@, alias@),
                forall|j: int| i <= j < n ==> (#[trigger] self.entries@[j])@ == before[j],
            decreases n - i,
        {
            if self.entries[i].path == key_owned {
                self.entries[i].alias = alias_owned.clone();
            } else if !alias_owned.as_str().is_empty() && self.entries[i].alias == alias_owned {
                self.entries[i].alias = String::new();
            }
            i += 1;
        }
        proof {
            lemma_alias_assigned_well_formed(before, key@, alias@);
            assert(self@ =~= alias_assigned(before, key@, alias@));
        }
    }

    /// Drops the record of the canonical path `key`. Changes nothing where
    /// the registry has no such record.
    pub fn remove_key(&mut self, key: &str)
        requires
            old(self).wf(),
        ensures
            final(self).wf(),
            final(self)@ == removed(old(self)@, key@),
    {
        let ghost before = self@;
        let key_owned: String = key.to_owned();
        let mut kept: Vec<DirectoryEntry> = Vec::new();
        let mut i: usize = 0;
        assert(before.take(0) =~= Seq::<EntryView>::empty());
        assert(views(kept@) =~= before.take(0).filter(other_than(key@))) by {
            reveal(Seq::filter);
        }
        while i < self.entries.len()
            invariant
                i <= self.entries.len(),
                self@ == before,
                key_owned@ == key@,
                views(kept@) == before.take(i as int).filter(other_than(key@)),
            decreases self.entries.len() - i,
        {
            proof {
                assert(before.take(i + 1) =~= before.take(i as int).push(before[i as int]));
                crate::order::lemma_filter_push(
                    before.take(i as int),
                    other_than(key@),
                    before[i as int],
                );
            }
            if !(self.entries[i].path == key_owned) {
                let ghost prior = kept@;
                kept.push(self.entries[i].clone());
                assert(views(kept@) =~= views(prior).push(before[i as int]));
            }
            i += 1;
        }
        proof {
            assert(before.take(before.len() as int) =~= before);
            lemma_filter_well_formed(before, other_than(key@));
        }
        self.entries = kept;
    }

    /// Drops every record that was last visited more than `max_age_seconds`
    /// before `now`.
    pub fn purge_stale(&mut self, now: i64, max_age_seconds: i64)
        requires
            old(self).wf(),
        ensures
            final(self).wf(),
            final(self)@ == without_stale(old(self)@, now as int, max_age_seconds as int),
    {
        let ghost before = self@;
        let ghost fresh = fresh_at(now as int, max_age_seconds as int);
        let mut kept: Vec<DirectoryEntry> = Vec::new();
        let mut i: usize = 0;
        assert(before.take(0) =~= Seq::<EntryView>::empty());
        assert(views(kept@) =~= before.take(0).filter(fresh)) by {
            reveal(Seq::filter);
        }
        while i < self.entries.len()
            invariant
                i <= self.entries.len(),
                self@ == before,
                fresh == fresh_at(now as int, max_age_seconds as int),
                views(kept@) == before.take(i as int).filter(fresh),
            decreases self.entries.len() - i,
        {
            proof {
                assert(before.take(i + 1) =~= before.take(i as int).push(before[i as int]));
                crate::order::lemma_filter_push(before.take(i as int), fresh, before[i as int]);
            }
            let age: i128 = now as i128 - self.entries[i].last_access as i128;
            if age <= max_age_seconds as i128 {
                let ghost prior = kept@;
                kept.push(self.entries[i].clone());
                assert(views(kept@) =~= views(prior).push(before[i as int]));
            }
            i += 1;
        }
        proof {
            assert(before.take(before.len() as int) =~= before);
            lemma_filter_well_formed(before, fresh);
        }
        self.entries = kept;
    }

    /// Keeps the records whose flag is set and drops the others; the flag of
    /// a record is the one at its place in `flags`. A record that has no
    /// flag is kept.
    pub fn retain_flagged(&mut self, flags: &Vec<bool>)
        requires
            old(self).wf(),
        ensures
            final(self).wf(),
            final(self)@ == kept_by(old(self)@, flags@),
    {
        proof {
            lemma_kept_by_well_formed(self@, flags@);
        }
        self.entries = crate::query::select_existing(&self.entries, flags);
    }

    /// The registry that holds `entries`, in their order. The list is
    /// refused where it is not well-formed: for a record with fewer than one
    /// visit first, else for a path that occurs twice, else for a non-empty
    /// alias that occurs twice.
    pub fn from_entries(entries: Vec<DirectoryEntry>) -> (made: Result<Registry, RegistryError>)
        ensures
            match made {
                Ok(registry) => {
                    &&& well_formed(views(entries@))
                    &&& registry.records() == entries@
                    &&& registry@ == views(entries@)
                },
                Err(RegistryError::InvalidCount) => !counts_valid(views(entries@)),
                Err(RegistryError::DuplicatePath) => {
                    &&& counts_valid(views(entries@))
                    &&& !paths_distinct(views(entries@))
                },
                Err(RegistryError::DuplicateAlias) => {
                    &&& counts_valid(views(entries@))
                    &&& paths_distinct(views(entries@))
                    &&& !aliases_distinct(views(entries@))
                },
            },
    {
        let ghost all = views(entries@);
        let n: usize = entries.len();
        let mut i: usize = 0;
        while i < n
            invariant
                i <= n,
                n == entries.len(),
                all == views(entries@),
                forall|k: int| 0 <= k < i ==> (#[trigger] all[k]).access_count >= 1,
            decreases n - i,
        {
            if entries[i].access_count < 1 {
                assert(all[i as int].access_count < 1);
                return Err(RegistryError::InvalidCount);
            }
            i += 1;
        }
        assert(counts_valid(all));
        let mut j: usize = 0;
        while j < n
            invariant
                j <= n,
                n == entries.len(),
                all == views(entries@),
                counts_valid(all),
                forall|a: int, b: int|
                    0 <= a < b < j ==> (#[trigger] all[a]).path != (#[trigger] all[b]).path,
            decreases n - j,
        {
            let mut i: usize = 0;
            while i < j
                invariant
                    i <= j < n,
                    n == entries.len(),
                    all == views(entries@),
                    counts_valid(all),
                    forall|a: int| 0 <= a < i ==> (#[trigger] all[a]).path != all[j as int].path,
                decreases j - i,
            {
                if entries[i].path == entries[j].path {
                    assert(all[i as int].path == all[j as int].path);
                    return Err(RegistryError::DuplicatePath);
                }
                i += 1;
            }
            j += 1;
        }
        assert(paths_distinct(all));
        let mut j: usize = 0;
        while j < n
            invariant
                j <= n,
                n == entries.len(),
                all == views(entries@),
                counts_valid(all),
                paths_distinct(all),
                forall|a: int, b: int|
                    0 <= a < b < j && (#[trigger] all[a]).has_alias() ==> all[a].alias != (
                    #[trigger] all[b]).alias,
            decreases n - j,
        {
            let mut i: usize = 0;
            while i < j
                invariant
                    i <= j < n,
                    n == entries.len(),
                    all == views(entries@),
                    counts_valid(all),
                    paths_distinct(all),
                    forall|a: int|
                        0 <= a < i && (#[trigger] all[a]).has_alias() ==> all[a].alias != all[j as int].alias,
                decreases j - i,
            {
                if entries[i].has_alias() && entries[i].alias == entries[j].alias {
                    assert(all[i as int].has_alias() && all[i as int].alias == all[j as int].alias);
                    return Err(RegistryError::DuplicateAlias);
                }
                i += 1;
            }
            j += 1;
        }
        Ok(Registry { entries })
    }

    /// The registry that a stored list gives, whatever the list holds: of
    /// the records of one path the first stays, of the records that carry
    /// one alias the first keeps it, and a record counts one visit at least.
    /// A well-formed list is taken as it is.
    pub fn recover(entries: Vec<DirectoryEntry>) -> (registry: Registry)
        ensures
            registry.wf(),
            registry@ == recovered(views(entries@)),
            well_formed(views(entries@)) ==> registry@ == views(entries@),
    {
        let ghost all = views(entries@);
        let mut registry = Registry::new();
        let mut i: usize = 0;
        assert(all.take(0) =~= Seq::<EntryView>::empty());
        while i < entries.len()
            invariant
                i <= entries.len(),
                all == views(entries@),
                registry.wf(),
                registry@ == recovered(all.take(i as int)),
            decreases entries.len() - i,
        {
            proof {
                assert(all.take(i + 1).drop_last() =~= all.take(i as int));
                assert(all.take(i + 1).last() == all[i as int]);
            }
            let e = &entries[i];
            if registry.find_key(e.path.as_str()).is_none() {
                let ghost kept = registry@;
                let taken: bool = registry.find_by_alias(e.alias.as_str()).is_some();
                let record = DirectoryEntry {
                    path: e.path.clone(),
                    access_count: if e.access_count < 1 {
                        1
                    } else {
                        e.access_count
                    },
                    last_access: e.last_access,
                    alias: if taken {
                        String::new()
                    } else {
                        e.alias.clone()
                    },
                };
                proof {
                    assert(record@ == admitted_record(kept, all[i as int]));
                    lemma_added_well_formed(kept, record@);
                    assert(views(registry.entries@.push(record)) =~= kept.push(record@));
                }
                registry.entries.push(record);
            }
            i += 1;
        }
        proof {
            assert(all.take(all.len() as int) =~= all);
            if well_formed(all) {
                lemma_recovered_keeps_well_formed(all);
            }
        }
        registry
    }

    /// Drops every record for whose path `on_disk` answers no. The predicate
    /// is asked once for each record, in order.
    pub fn purge_nonexistent<F: Fn(&String) -> bool>(&mut self, on_disk: F)
        requires
            old(self).wf(),
            forall|path: &String| call_requires(on_disk, (path,)),
        ensures
            final(self).wf(),
            exists|flags: Seq<bool>|
                #[trigger] answers(on_disk, old(self).records(), flags) && final(self)@ == kept_by(
                    old(self)@,
                    flags,
                ),
    {
        let flags = probe(&self.entries, &on_disk);
        self.retain_flagged(&flags);
    }

    /// Counts a visit to `path` at `now`, under its canonical form.
    pub fn bump_or_insert(&mut self, path: &str, alias: Option<&str>, now: i64) -> (entry:
        DirectoryEntry)
        requires
            old(self).wf(),
        ensures
            final(self).wf(),
            final(self)@ == bumped(old(self)@, canonical(path@), alias_view(alias), now as int),
            entry_at_path(final(self)@, canonical(path@)) == Some(entry@),
    {
        let key = canonicalize(path);
        self.bump_key(key.as_str(), alias, now)
    }

    /// The record of `path`, looked up under its canonical form.
    pub fn find_by_path(&self, path: &str) -> (found: Option<DirectoryEntry>)
        requires
            self.wf(),
        ensures
            entry_view(found) == entry_at_path(self@, canonical(path@)),
    {
        let key = canonicalize(path);
        self.find_key(key.as_str())
    }

    /// Takes the alias from the record of `path`, looked up under its
    /// canonical form.
    pub fn clear_alias(&mut self, path: &str)
        requires
            old(self).wf(),
        ensures
            final(self).wf(),
            final(self)@ == alias_cleared(old(self)@, canonical(path@)),
    {
        let key = canonicalize(path);
        self.clear_alias_key(key.as_str())
    }

    /// Drops the record of `path`, looked up under its canonical form.
    pub fn remove(&mut self, path: &str)
        requires
            old(self).wf(),
        ensures
            final(self).wf(),
            final(self)@ == removed(old(self)@, canonical(path@)),
    {
        let key = canonicalize(path);
        self.remove_key(key.as_str())
    }
}

} // verus!
