//! The record kept for one visited directory.

use vstd::prelude::*;
use crate::score::{frecency, score, Frecency, Score};

verus! {

/// One visited directory.
pub struct DirectoryEntry {
    /// Canonical path: the key of the record.
    pub path: String,
    /// How many times the path was visited.
    pub access_count: i64,
    /// When it was last visited, in seconds since the epoch.
    pub last_access: i64,
    /// Shorthand name; empty where the record has none.
    pub alias: String,
}

/// What a record holds, as plain values.
pub struct EntryView {
    pub path: Seq<char>,
    pub access_count: int,
    pub last_access: int,
    pub alias: Seq<char>,
}

impl EntryView {
    /// The score of the record at `now`.
    pub open spec fn score(self, now: int) -> Frecency {
        frecency(self.access_count, self.last_access, now)
    }

    /// The record carries an alias.
    pub open spec fn has_alias(self) -> bool {
        self.alias.len() > 0
    }
}

impl View for DirectoryEntry {
    type V = EntryView;

    open spec fn view(&self) -> EntryView {
        EntryView {
            path: self.path@,
            access_count: self.access_count as int,
            last_access: self.last_access as int,
            alias: self.alias@,
        }
    }
}

impl Clone for DirectoryEntry {
    fn clone(&self) -> (copy: Self)
        ensures
            copy == *self,
    {
        DirectoryEntry {
            path: self.path.clone(),
            access_count: self.access_count,
            last_access: self.last_access,
            alias: self.alias.clone(),
        }
    }
}

/// The records of `entries` as plain values, in the same order.
pub open spec fn views(entries: Seq<DirectoryEntry>) -> Seq<EntryView> {
    Seq::new(entries.len(), |i: int| entries[i]@)
}

/// The record of a path on its first visit, at `now`.
pub open spec fn first_visit(path: Seq<char>, alias: Seq<char>, now: int) -> EntryView {
    EntryView { path, access_count: 1, last_access: now, alias }
}

impl DirectoryEntry {
    /// The record of `path` on its first visit, at `now`, under `alias`
    /// (empty for none).
    pub fn new(path: &str, alias: &str, now: i64) -> (entry: Self)
        ensures
            entry@ == first_visit(path@, alias@, now as int),
    {
        DirectoryEntry {
            path: path.to_owned(),
            access_count: 1,
            last_access: now,
            alias: alias.to_owned(),
        }
    }

    /// The score of the record at `now`.
    pub fn score(&self, now: i64) -> (s: Score)
        ensures
            s@ == self@.score(now as int),
    {
        score(self.access_count, self.last_access, now)
    }

    /// Whether the record carries an alias.
    pub fn has_alias(&self) -> (named: bool)
        ensures
            named == self@.has_alias(),
    {
        !self.alias.as_str().is_empty()
    }
}

} // verus!
