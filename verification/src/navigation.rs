//! Walking the directory tree by numbered lists: what a list shows, and
//! what a step records.
//!
//! Reading a directory and asking the user are the caller's part. The
//! caller hands in what it read and gets back what to show; it hands in
//! what was chosen and the registry records it.

use vstd::prelude::*;
use vstd::string::*;
use crate::order::{
    insert_position, is_strict_weak_order, lemma_insert_position_unique, stable_sorted,
};
use crate::pattern::{char_views, term_views};
use crate::model::{bumped, holds_path};
use crate::path::{canonical, canonicalize};
use crate::registry::Registry;
use crate::text::{chars_of, same_text, string_of};

verus! {

/// `a` comes before `b` in the order of the dictionary, character by
/// character.
pub open spec fn precedes(a: Seq<char>, b: Seq<char>) -> bool
    decreases a.len(),
{
    if b.len() == 0 {
        false
    } else if a.len() == 0 {
        true
    } else if a[0] != b[0] {
        (a[0] as u32) < (b[0] as u32)
    } else {
        precedes(a.drop_first(), b.drop_first())
    }
}

/// The order of names.
pub open spec fn by_name() -> spec_fn(Seq<char>, Seq<char>) -> bool {
    |a: Seq<char>, b: Seq<char>| precedes(a, b)
}

/// Of two names at most one comes before the other.
pub proof fn lemma_precedes_asymmetric(a: Seq<char>, b: Seq<char>)
    requires
        precedes(a, b),
    ensures
        !precedes(b, a),
    decreases a.len(),
{
    if a.len() > 0 && b.len() > 0 && a[0] == b[0] {
        lemma_precedes_asymmetric(a.drop_first(), b.drop_first());
    }
}

/// Where `b` does not come before `a`, nor `c` before `b`, `c` does not come
/// before `a`.
pub proof fn lemma_not_before_transitive(a: Seq<char>, b: Seq<char>, c: Seq<char>)
    requires
        !precedes(b, a),
        !precedes(c, b),
    ensures
        !precedes(c, a),
    decreases a.len(),
{
    if a.len() > 0 {
        assert(b.len() > 0);
        assert(c.len() > 0);
        // distinct characters have distinct numbers
        vstd::utf8::char_u32_cast(a[0], a[0] as u32);
        vstd::utf8::char_u32_cast(b[0], b[0] as u32);
        vstd::utf8::char_u32_cast(c[0], c[0] as u32);
        if a[0] == b[0] && b[0] == c[0] {
            lemma_not_before_transitive(a.drop_first(), b.drop_first(), c.drop_first());
        }
    }
}

/// The order of names is consistent.
pub proof fn lemma_by_name_is_order()
    ensures
        is_strict_weak_order(by_name()),
{
    let before = by_name();
    assert forall|a: Seq<char>, b: Seq<char>| #[trigger] before(a, b) implies !before(b, a) by {
        lemma_precedes_asymmetric(a, b);
    }
    assert forall|a: Seq<char>, b: Seq<char>, c: Seq<char>|
        !#[trigger] before(b, a) && !#[trigger] before(c, b) implies !before(c, a) by {
        lemma_not_before_transitive(a, b, c);
    }
}

/// Whether `a` comes before `b` in the order of the dictionary.
pub fn name_precedes(a: &Vec<char>, b: &Vec<char>) -> (first: bool)
    ensures
        first == precedes(a@, b@),
{
    let mut i: usize = 0;
    assert(a@.skip(0) =~= a@);
    assert(b@.skip(0) =~= b@);
    loop
        invariant
            i <= a.len(),
            i <= b.len(),
            precedes(a@, b@) == precedes(a@.skip(i as int), b@.skip(i as int)),
        decreases a.len() - i,
    {
        if i == b.len() {
            return false;
        }
        if i == a.len() {
            return true;
        }
        proof {
            assert(a@.skip(i as int)[0] == a@[i as int]);
            assert(b@.skip(i as int)[0] == b@[i as int]);
            assert(a@.skip(i as int).drop_first() =~= a@.skip(i + 1));
            assert(b@.skip(i as int).drop_first() =~= b@.skip(i + 1));
        }
        if a[i] != b[i] {
            return (a[i] as u32) < (b[i] as u32);
        }
        i += 1;
    }
}

/// A directory of this name is shown: every one but `.` where hidden ones
/// are shown, else those whose name does not begin with a dot.
pub open spec fn shows_dir(name: Seq<char>, hidden: bool) -> bool {
    if hidden {
        name != seq!['.']
    } else {
        !(name.len() > 0 && name[0] == '.')
    }
}

/// The names and kinds of the children of a directory, as plain values:
/// the flag says whether the child is a directory.
pub open spec fn child_views(children: Seq<(String, bool)>) -> Seq<(Seq<char>, bool)> {
    Seq::new(children.len(), |i: int| (children[i].0@, children[i].1))
}

/// The names of the directories that are shown, in the order read.
pub open spec fn shown_dirs(children: Seq<(Seq<char>, bool)>, hidden: bool) -> Seq<Seq<char>>
    decreases children.len(),
{
    if children.len() == 0 {
        Seq::empty()
    } else {
        let head = shown_dirs(children.drop_last(), hidden);
        if children.last().1 && shows_dir(children.last().0, hidden) {
            head.push(children.last().0)
        } else {
            head
        }
    }
}

/// The names of the files that are shown, in the order read: none where
/// only directories are asked for.
pub open spec fn shown_files(children: Seq<(Seq<char>, bool)>, dirs_only: bool) -> Seq<Seq<char>>
    decreases children.len(),
{
    if children.len() == 0 {
        Seq::empty()
    } else {
        let head = shown_files(children.drop_last(), dirs_only);
        if !children.last().1 && !dirs_only {
            head.push(children.last().0)
        } else {
            head
        }
    }
}

/// The name of the parent directory.
pub open spec fn parent_name() -> Seq<char> {
    seq!['.', '.']
}

/// The directories of a list: those shown and the parent directory, sorted
/// by name.
pub open spec fn listed_dirs(children: Seq<(Seq<char>, bool)>, hidden: bool) -> Seq<Seq<char>> {
    stable_sorted(shown_dirs(children, hidden).push(parent_name()), by_name())
}

/// What a list of a directory shows.
pub struct Listing {
    /// The directories to choose from, sorted by name.
    pub dirs: Vec<String>,
    /// The files, in the order read.
    pub files: Vec<String>,
}

/// Whether a directory of this name is shown.
pub fn dir_is_shown(name: &Vec<char>, hidden: bool) -> (shown: bool)
    ensures
        shown == shows_dir(name@, hidden),
{
    if hidden {
        let only_dot: bool = name.len() == 1 && name[0] == '.';
        assert(only_dot == (name@ =~= seq!['.']));
        !only_dot
    } else {
        !(name.len() > 0 && name[0] == '.')
    }
}

/// What the list of a directory shows, given the names of its children and
/// which of them are directories.
pub fn listing(children: &Vec<(String, bool)>, hidden: bool, force_dir_only: bool) -> (list:
    Listing)
    ensures
        term_views(list.dirs@) == listed_dirs(child_views(children@), hidden),
        term_views(list.files@) == shown_files(child_views(children@), force_dir_only),
{
    let ghost all = child_views(children@);
    let ghost before = by_name();
    let mut sorted: Vec<Vec<char>> = Vec::new();
    let mut files: Vec<String> = Vec::new();
    let mut i: usize = 0;
    assert(all.take(0) =~= Seq::<(Seq<char>, bool)>::empty());
    assert(char_views(sorted@) =~= Seq::<Seq<char>>::empty());
    assert(term_views(files@) =~= Seq::<Seq<char>>::empty());
    while i < children.len()
        invariant
            i <= children.len(),
            all == child_views(children@),
            before == by_name(),
            char_views(sorted@) == stable_sorted(shown_dirs(all.take(i as int), hidden), before),
            term_views(files@) == shown_files(all.take(i as int), force_dir_only),
        decreases children.len() - i,
    {
        proof {
            assert(all.take(i + 1).drop_last() =~= all.take(i as int));
            assert(all.take(i + 1).last() == all[i as int]);
        }
        let name = chars_of(children[i].0.as_str());
        if children[i].1 {
            if dir_is_shown(&name, hidden) {
                proof {
                    let prior = shown_dirs(all.take(i as int), hidden);
                    assert(prior.push(name@).drop_last() =~= prior);
                }
                insert_name(&mut sorted, name);
            }
        } else if !force_dir_only {
            let ghost prior = files@;
            files.push(string_of(&name));
            assert(term_views(files@) =~= term_views(prior).push(name@));
        }
        i += 1;
    }
    assert(all.take(all.len() as int) =~= all);
    proof {
        reveal_strlit("..");
        assert(".."@ =~= parent_name());
        let shown = shown_dirs(all, hidden);
        assert(shown.push(parent_name()).drop_last() =~= shown);
    }
    insert_name(&mut sorted, chars_of(".."));
    let mut dirs: Vec<String> = Vec::new();
    let mut k: usize = 0;
    while k < sorted.len()
        invariant
            k <= sorted.len(),
            dirs@.len() == k,
            forall|j: int| 0 <= j < k ==> (#[trigger] dirs@[j])@ == sorted@[j]@,
        decreases sorted.len() - k,
    {
        dirs.push(string_of(&sorted[k]));
        k += 1;
    }
    assert(term_views(dirs@) =~= char_views(sorted@));
    Listing { dirs, files }
}

/// Puts `name` at its place among sorted names.
fn insert_name(sorted: &mut Vec<Vec<char>>, name: Vec<char>)
    ensures
        char_views(final(sorted)@) == char_views(old(sorted)@).insert(
            insert_position(char_views(old(sorted)@), name@, by_name()),
            name@,
        ),
{
    let ghost before = by_name();
    let mut pos: usize = sorted.len();
    while pos > 0 && name_precedes(&name, &sorted[pos - 1])
        invariant
            pos <= sorted.len(),
            before == by_name(),
            forall|j: int| pos <= j < sorted.len() ==> before(name@, #[trigger] char_views(sorted@)[j]),
        decreases pos,
    {
        pos -= 1;
    }
    proof {
        if pos > 0 {
            assert(char_views(sorted@)[pos - 1] == sorted@[pos - 1]@);
        }
        lemma_insert_position_unique(char_views(sorted@), name@, before, pos as int);
        assert(char_views(sorted@.insert(pos as int, name)) =~= char_views(sorted@).insert(
            pos as int,
            name@,
        ));
    }
    sorted.insert(pos, name);
}

/// The path of `name` seen from the directory `base`: `name` itself where
/// it starts at the root, else `base`, a slash unless `base` is empty or
/// ends in one, and `name`.
pub open spec fn joined_path(base: Seq<char>, name: Seq<char>) -> Seq<char> {
    if name.len() > 0 && name[0] == '/' {
        name
    } else if base.len() == 0 || base.last() == '/' {
        base + name
    } else {
        base + seq!['/'] + name
    }
}

/// The path of the child `name` of the directory `base`.
pub fn child_path(base: &str, name: &str) -> (joined: String)
    ensures
        joined@ == joined_path(base@, name@),
{
    proof {
        reveal_strlit("/");
        assert("/"@ =~= seq!['/']);
    }
    if name.unicode_len() > 0 && name.get_char(0) == '/' {
        return String::from_str(name);
    }
    let n: usize = base.unicode_len();
    let mut joined = String::from_str(base);
    if n > 0 && base.get_char(n - 1) != '/' {
        joined.append("/");
    }
    joined.append(name);
    joined
}

/// The path stands for the directory itself or its parent: `.` or `..`.
pub open spec fn is_dot_name(path: Seq<char>) -> bool {
    path == seq!['.'] || path == seq!['.', '.']
}

/// The registry after a step into `path`: a record with one visit is added
/// where the registry holds none for it and the path is neither `.` nor
/// `..`.
pub open spec fn recorded_if_new(
    entries: Seq<crate::entry::EntryView>,
    path: Seq<char>,
    now: int,
) -> Seq<crate::entry::EntryView> {
    if holds_path(entries, path) || is_dot_name(path) {
        entries
    } else {
        bumped(entries, path, None, now)
    }
}

impl Registry {
    /// Records a step into the directory of the canonical path `key` at
    /// `now`: adds a record with one visit where there is none, unless the
    /// path is `.` or `..`. Says whether a record was added.
    pub fn record_key_if_new(&mut self, key: &str, now: i64) -> (added: bool)
        requires
            old(self).wf(),
        ensures
            final(self).wf(),
            final(self)@ == recorded_if_new(old(self)@, key@, now as int),
            added == (!holds_path(old(self)@, key@) && !is_dot_name(key@)),
    {
        proof {
            reveal_strlit(".");
            reveal_strlit("..");
            assert("."@ =~= seq!['.']);
            assert(".."@ =~= seq!['.', '.']);
        }
        if self.find_key(key).is_some() {
            return false;
        }
        if same_text(key, ".") || same_text(key, "..") {
            return false;
        }
        let _ = self.bump_key(key, None, now);
        true
    }

    /// Records a step into the directory `path` at `now`, under its
    /// canonical form: adds a record with one visit where there is none,
    /// unless the canonical path is `.` or `..`. Says whether a record was
    /// added.
    pub fn record_if_new(&mut self, path: &str, now: i64) -> (added: bool)
        requires
            old(self).wf(),
        ensures
            final(self).wf(),
            final(self)@ == recorded_if_new(old(self)@, canonical(path@), now as int),
            added == (!holds_path(old(self)@, canonical(path@)) && !is_dot_name(canonical(path@))),
    {
        let key = canonicalize(path);
        self.record_key_if_new(key.as_str(), now)
    }
}

} // verus!
