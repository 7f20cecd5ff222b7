//! What a command does to the registry, and what the program is to do next.
//!
//! The program asks the file system and the user; the decisions in between
//! are made here.

use vstd::prelude::*;
use vstd::string::*;
use crate::entry::{views, DirectoryEntry, EntryView};
use crate::navigation::is_dot_name;
use crate::order::stable_sorted;
use crate::ranking::sort_records;
use crate::path::{canonical, canonicalize};
use crate::pattern::term_views;
use crate::policy::Policy;
use crate::model::{
    alias_assigned, alias_cleared, bumped, entry_view, entry_with_alias, holds_path, removed,
};
use crate::registry::Registry;
use crate::text::same_text;

verus! {

/// The order of recency: the later visit first.
pub open spec fn by_recency() -> spec_fn(EntryView, EntryView) -> bool {
    |a: EntryView, b: EntryView| a.last_access > b.last_access
}

/// The records by the time of their last visit, the latest first; records
/// of the same time keep the order they have in `entries`.
pub open spec fn by_last_visit(entries: Seq<EntryView>) -> Seq<EntryView> {
    stable_sorted(entries, by_recency())
}

/// The record at place `n` of the records by last visit, if there are so
/// many.
pub open spec fn nth_by_last_visit(entries: Seq<EntryView>, n: int) -> Option<EntryView> {
    if 0 <= n < by_last_visit(entries).len() {
        Some(by_last_visit(entries)[n])
    } else {
        None
    }
}

/// The records by the time of their last visit, the latest first.
pub fn sort_by_last_visit(entries: &Vec<DirectoryEntry>) -> (out: Vec<DirectoryEntry>)
    ensures
        views(out@) == by_last_visit(views(entries@)),
{
    let later = |a: &DirectoryEntry, b: &DirectoryEntry| -> (first: bool)
        ensures
            first == (a@.last_access > b@.last_access),
        { a.last_access > b.last_access };
    sort_records(entries, later, Ghost(by_recency()))
}

/// The registry without the records of `paths`.
pub open spec fn removed_all(entries: Seq<EntryView>, paths: Seq<Seq<char>>) -> Seq<EntryView>
    decreases paths.len(),
{
    if paths.len() == 0 {
        entries
    } else {
        removed(removed_all(entries, paths.drop_last()), paths.last())
    }
}

/// What became of a request to give or take an alias.
#[derive(Clone, Copy, Debug, PartialEq, Eq, Structural)]
pub enum AliasOutcome {
    /// The path was new: a record with the alias was added.
    Inserted,
    /// The record of the path lost its alias.
    Removed,
    /// The record of the path got the alias.
    Assigned,
    /// The path is `.` or `..` and is not recorded.
    Ignored,
}

/// What a request to give `alias` to `path` at `now` comes to: a path that
/// the registry does not hold is recorded under the alias, unless it is `.`
/// or `..`; the record of a path that it holds loses its alias where the
/// alias given is empty, and gets the alias otherwise.
pub open spec fn alias_outcome(entries: Seq<EntryView>, path: Seq<char>, alias: Seq<char>) -> AliasOutcome {
    if !holds_path(entries, path) {
        if is_dot_name(path) {
            AliasOutcome::Ignored
        } else {
            AliasOutcome::Inserted
        }
    } else if alias.len() == 0 {
        AliasOutcome::Removed
    } else {
        AliasOutcome::Assigned
    }
}

/// The registry after a request to give `alias` to `path` at `now`.
pub open spec fn alias_set(
    entries: Seq<EntryView>,
    path: Seq<char>,
    alias: Seq<char>,
    now: int,
) -> Seq<EntryView> {
    match alias_outcome(entries, path, alias) {
        AliasOutcome::Ignored => entries,
        AliasOutcome::Inserted => bumped(entries, path, Some(alias), now),
        AliasOutcome::Removed => alias_cleared(entries, path),
        AliasOutcome::Assigned => alias_assigned(entries, path, alias),
    }
}

impl Registry {
    /// The record at place `n` of the records by last visit: the latest for
    /// zero, the one before it for one.
    pub fn nth_recent(&self, n: usize) -> (found: Option<DirectoryEntry>)
        ensures
            entry_view(found) == nth_by_last_visit(self@, n as int),
    {
        let sorted = sort_by_last_visit(self.entries());
        if n < sorted.len() {
            assert(views(sorted@)[n as int] == sorted@[n as int]@);
            Some(sorted[n].clone())
        } else {
            None
        }
    }

    /// Drops the records of the canonical paths `keys`.
    pub fn remove_keys(&mut self, keys: &Vec<String>)
        requires
            old(self).wf(),
        ensures
            final(self).wf(),
            final(self)@ == removed_all(old(self)@, term_views(keys@)),
    {
        let ghost before = self@;
        let ghost all = term_views(keys@);
        let mut i: usize = 0;
        assert(all.take(0) =~= Seq::<Seq<char>>::empty());
        while i < keys.len()
            invariant
                i <= keys.len(),
                all == term_views(keys@),
                self.wf(),
                self@ == removed_all(before, all.take(i as int)),
            decreases keys.len() - i,
        {
            proof {
                assert(all.take(i + 1).drop_last() =~= all.take(i as int));
                assert(all.take(i + 1).last() == keys@[i as int]@);
            }
            self.remove_key(keys[i].as_str());
            i += 1;
        }
        assert(all.take(all.len() as int) =~= all);
    }

    /// Gives `alias` to the record of the canonical path `key` at `now`, or
    /// takes its alias where `alias` is empty; records the path where it is
    /// new.
    pub fn set_alias_key(&mut self, key: &str, alias: &str, now: i64) -> (outcome: AliasOutcome)
        requires
            old(self).wf(),
        ensures
            final(self).wf(),
            outcome == alias_outcome(old(self)@, key@, alias@),
            final(self)@ == alias_set(old(self)@, key@, alias@, now as int),
    {
        proof {
            reveal_strlit(".");
            reveal_strlit("..");
            assert("."@ =~= seq!['.']);
            assert(".."@ =~= seq!['.', '.']);
        }
        if self.find_key(key).is_none() {
            if same_text(key, ".") || same_text(key, "..") {
                AliasOutcome::Ignored
            } else {
                let _ = self.bump_key(key, Some(alias), now);
                AliasOutcome::Inserted
            }
        } else if alias.is_empty() {
            self.clear_alias_key(key);
            AliasOutcome::Removed
        } else {
            self.assign_alias_key(key, alias);
            AliasOutcome::Assigned
        }
    }

    /// Gives `alias` to the record of `path`, looked up under its canonical
    /// form, or takes its alias where `alias` is empty; records the path
    /// where it is new.
    pub fn set_alias(&mut self, path: &str, alias: &str, now: i64) -> (outcome: AliasOutcome)
        requires
            old(self).wf(),
        ensures
            final(self).wf(),
            outcome == alias_outcome(old(self)@, canonical(path@), alias@),
            final(self)@ == alias_set(old(self)@, canonical(path@), alias@, now as int),
    {
        let key = canonicalize(path);
        self.set_alias_key(key.as_str(), alias, now)
    }
}

/// What the arguments behind the alias option ask for.
pub enum AliasRequest {
    /// No argument: show the aliased records.
    ListAliased,
    /// One argument: take the alias from this directory.
    Remove(String),
    /// Two arguments: give the alias to the directory.
    Assign(String, String),
}

/// What the arguments behind the alias option ask for, as plain values.
pub enum AliasRequestView {
    ListAliased,
    Remove(Seq<char>),
    Assign(Seq<char>, Seq<char>),
}

impl View for AliasRequest {
    type V = AliasRequestView;

    open spec fn view(&self) -> AliasRequestView {
        match self {
            AliasRequest::ListAliased => AliasRequestView::ListAliased,
            AliasRequest::Remove(dir) => AliasRequestView::Remove(dir@),
            AliasRequest::Assign(alias, dir) => AliasRequestView::Assign(alias@, dir@),
        }
    }
}

/// What the arguments of the alias option ask for; the option itself is
/// the second argument.
pub open spec fn alias_request_of(args: Seq<Seq<char>>) -> AliasRequestView {
    if args.len() < 3 {
        AliasRequestView::ListAliased
    } else if args.len() < 4 {
        AliasRequestView::Remove(args[2])
    } else {
        AliasRequestView::Assign(args[2], args[3])
    }
}

/// What the arguments of the alias option ask for.
pub fn alias_request(args: &Vec<String>) -> (request: AliasRequest)
    ensures
        request@ == alias_request_of(term_views(args@)),
{
    if args.len() < 3 {
        AliasRequest::ListAliased
    } else if args.len() < 4 {
        AliasRequest::Remove(args[2].clone())
    } else {
        AliasRequest::Assign(args[2].clone(), args[3].clone())
    }
}

/// What to do with the argument of a change of directory.
pub enum CdPlan {
    /// The argument is the alias of this record, and its directory exists:
    /// go there.
    VisitAlias(DirectoryEntry),
    /// The argument is an alias, and the directory of its record is gone:
    /// do nothing.
    Nothing,
    /// The argument is a directory: go there.
    VisitArgument,
    /// The argument is neither: search for it.
    Search,
}

/// `is_dir` answers `answer` for some path that holds `path`.
pub open spec fn answered<F: Fn(&String) -> bool>(is_dir: F, path: Seq<char>, answer: bool) -> bool {
    exists|asked: String| asked@ == path && #[trigger] call_ensures(is_dir, (&asked,), answer)
}

/// What to do with the argument of a change of directory: an alias wins
/// over a directory of the same name, and a directory over a search.
pub fn plan_cd<F: Fn(&String) -> bool>(registry: &Registry, argument: &String, is_dir: F) -> (plan:
    CdPlan)
    requires
        registry.wf(),
        forall|path: &String| call_requires(is_dir, (path,)),
    ensures
        match plan {
            CdPlan::VisitAlias(e) => {
                &&& entry_with_alias(registry@, argument@) == Some(e@)
                &&& answered(is_dir, e@.path, true)
            },
            CdPlan::Nothing => {
                &&& entry_with_alias(registry@, argument@) matches Some(e)
                &&& answered(is_dir, e.path, false)
            },
            CdPlan::VisitArgument => {
                &&& entry_with_alias(registry@, argument@) is None
                &&& answered(is_dir, argument@, true)
            },
            CdPlan::Search => {
                &&& entry_with_alias(registry@, argument@) is None
                &&& answered(is_dir, argument@, false)
            },
        },
{
    match registry.find_by_alias(argument.as_str()) {
        Some(e) => {
            let there = is_dir(&e.path);
            assert(call_ensures(is_dir, (&e.path,), there));
            if there {
                CdPlan::VisitAlias(e)
            } else {
                CdPlan::Nothing
            }
        },
        None => {
            let there = is_dir(argument);
            assert(call_ensures(is_dir, (argument,), there));
            if there {
                CdPlan::VisitArgument
            } else {
                CdPlan::Search
            }
        },
    }
}

/// The search terms of a change of directory: the arguments behind the
/// program's name, and behind the option too where one forces the policy.
pub open spec fn search_terms_of(args: Seq<Seq<char>>, forced: bool) -> Seq<Seq<char>> {
    if forced {
        args.skip(2)
    } else {
        args.skip(1)
    }
}

/// The search terms of a change of directory; none where the arguments
/// end before them.
pub fn search_terms(args: &Vec<String>, forced: bool) -> (terms: Vec<String>)
    ensures
        term_views(terms@) == if args.len() >= (if forced { 2int } else { 1int }) {
            search_terms_of(term_views(args@), forced)
        } else {
            Seq::empty()
        },
{
    let first: usize = if forced { 2 } else { 1 };
    let mut terms: Vec<String> = Vec::new();
    if args.len() < first {
        assert(term_views(terms@) =~= Seq::<Seq<char>>::empty());
        return terms;
    }
    let mut i: usize = first;
    while i < args.len()
        invariant
            first <= i <= args.len(),
            terms@.len() == i - first,
            forall|k: int| 0 <= k < terms@.len() ==> (#[trigger] terms@[k])@ == args@[k + first]@,
        decreases args.len() - i,
    {
        terms.push(args[i].clone());
        i += 1;
    }
    assert(term_views(terms@) =~= term_views(args@).skip(first as int));
    terms
}

/// What the program is asked to do.
#[derive(Clone, Copy, Debug, PartialEq, Eq, Structural)]
pub enum Command {
    /// Show the version.
    Version,
    /// Show where the records are stored.
    DatabasePath,
    /// Drop every record.
    Clear,
    /// Go to the directory visited before the latest.
    Previous,
    /// Go to the directory visited latest.
    Last,
    /// Show the help text.
    Help,
    /// List the directories that exist.
    List,
    /// Walk the tree from the current directory: with hidden directories or
    /// without, with files or without.
    Navigate { hidden: bool, dirs_only: bool },
    /// Choose records to drop.
    Remove,
    /// Give or take an alias.
    Alias,
    /// Choose a record that loses its alias.
    RemoveAlias,
    /// Drop the records whose directory is gone.
    Sync,
    /// List all directories.
    ListAll,
    /// Choose among the matches of the terms.
    ListMatching,
    /// Change directory by the arguments: behind the option where one
    /// stands before them, and under the policy that it forces, if any.
    Cd { option: bool, forced: Option<Policy> },
    /// No argument: choose among all records.
    Choose,
}

/// What the arguments ask for: the first argument behind the program's
/// name decides.
pub open spec fn command_of(args: Seq<Seq<char>>) -> Command {
    if args.len() < 2 {
        Command::Choose
    } else if args[1] == "-v"@ || args[1] == "--version"@ {
        Command::Version
    } else if args[1] == "--database-path"@ {
        Command::DatabasePath
    } else if args[1] == "--clear"@ {
        Command::Clear
    } else if args[1] == "-"@ {
        Command::Previous
    } else if args[1] == "="@ {
        Command::Last
    } else if args[1] == "--help"@ || args[1] == "-h"@ {
        Command::Help
    } else if args[1] == "-l"@ {
        Command::List
    } else if args[1] == "-i"@ {
        Command::Navigate { hidden: false, dirs_only: false }
    } else if args[1] == "--id"@ {
        Command::Navigate { hidden: false, dirs_only: true }
    } else if args[1] == "--ih"@ {
        Command::Navigate { hidden: true, dirs_only: false }
    } else if args[1] == "-r"@ {
        Command::Remove
    } else if args[1] == "-a"@ {
        Command::Alias
    } else if args[1] == "--remove-alias"@ {
        Command::RemoveAlias
    } else if args[1] == "--sync"@ {
        Command::Sync
    } else if args[1] == "--list-all"@ {
        Command::ListAll
    } else if args[1] == "-f"@ {
        Command::ListMatching
    } else if args[1] == "-t"@ {
        Command::Cd { option: true, forced: Some(Policy::Shortest) }
    } else if args[1] == "-e"@ {
        Command::Cd { option: true, forced: Some(Policy::Score) }
    } else if args[1] == "-b"@ {
        Command::Cd { option: true, forced: None }
    } else {
        Command::Cd { option: false, forced: None }
    }
}

/// What the arguments ask for.
pub fn parse_command(args: &Vec<String>) -> (command: Command)
    ensures
        command == command_of(term_views(args@)),
{
    if args.len() < 2 {
        return Command::Choose;
    }
    let first = args[1].as_str();
    if same_text(first, "-v") || same_text(first, "--version") {
        Command::Version
    } else if same_text(first, "--database-path") {
        Command::DatabasePath
    } else if same_text(first, "--clear") {
        Command::Clear
    } else if same_text(first, "-") {
        Command::Previous
    } else if same_text(first, "=") {
        Command::Last
    } else if same_text(first, "--help") || same_text(first, "-h") {
        Command::Help
    } else if same_text(first, "-l") {
        Command::List
    } else if same_text(first, "-i") {
        Command::Navigate { hidden: false, dirs_only: false }
    } else if same_text(first, "--id") {
        Command::Navigate { hidden: false, dirs_only: true }
    } else if same_text(first, "--ih") {
        Command::Navigate { hidden: true, dirs_only: false }
    } else if same_text(first, "-r") {
        Command::Remove
    } else if same_text(first, "-a") {
        Command::Alias
    } else if same_text(first, "--remove-alias") {
        Command::RemoveAlias
    } else if same_text(first, "--sync") {
        Command::Sync
    } else if same_text(first, "--list-all") {
        Command::ListAll
    } else if same_text(first, "-f") {
        Command::ListMatching
    } else if same_text(first, "-t") {
        Command::Cd { option: true, forced: Some(Policy::Shortest) }
    } else if same_text(first, "-e") {
        Command::Cd { option: true, forced: Some(Policy::Score) }
    } else if same_text(first, "-b") {
        Command::Cd { option: true, forced: None }
    } else {
        Command::Cd { option: false, forced: None }
    }
}

} // verus!
