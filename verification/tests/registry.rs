use contemporary_z::entry::DirectoryEntry;
use contemporary_z::registry::{Registry, RegistryError, DEFAULT_MAX_AGE_SECONDS};

fn entry(path: &str, count: i64, last_access: i64, alias: &str) -> DirectoryEntry {
    DirectoryEntry {
        path: path.to_string(),
        access_count: count,
        last_access,
        alias: alias.to_string(),
    }
}

fn paths(registry: &Registry) -> Vec<String> {
    registry.entries().iter().map(|e| e.path.clone()).collect()
}

#[test]
fn new_registry_is_empty() {
    let registry = Registry::new();
    assert!(registry.is_empty());
    assert_eq!(registry.len(), 0);
}

#[test]
fn first_visit_creates_a_record() {
    let mut registry = Registry::new();
    let e = registry.bump_or_insert("/home/u/proj", None, 1000);
    assert_eq!(e.path, "/home/u/proj");
    assert_eq!(e.access_count, 1);
    assert_eq!(e.last_access, 1000);
    assert_eq!(e.alias, "");
    assert_eq!(registry.len(), 1);
}

#[test]
fn two_visits_count_two_and_keep_the_second_time() {
    let mut registry = Registry::new();
    registry.bump_or_insert("/srv/data", None, 1000);
    let e = registry.bump_or_insert("/srv/data", None, 2000);
    assert_eq!(e.access_count, 2);
    assert_eq!(e.last_access, 2000);
    assert_eq!(registry.len(), 1);
    let found = registry.find_by_path("/srv/data").unwrap();
    assert_eq!(found.access_count, 2);
    assert_eq!(found.last_access, 2000);
}

#[test]
fn a_visit_without_alias_keeps_the_alias() {
    let mut registry = Registry::new();
    registry.bump_or_insert("/a", Some("x"), 1);
    let e = registry.bump_or_insert("/a", None, 2);
    assert_eq!(e.alias, "x");
    assert_eq!(e.access_count, 2);
}

#[test]
fn an_alias_moves_to_the_second_path() {
    let mut registry = Registry::new();
    registry.bump_or_insert("/a", Some("x"), 1);
    registry.bump_or_insert("/b", Some("x"), 2);
    let held = registry.find_by_alias("x").unwrap();
    assert_eq!(held.path, "/b");
    assert_eq!(registry.find_by_path("/a").unwrap().alias, "");
    assert_eq!(registry.find_by_path("/b").unwrap().alias, "x");
}

#[test]
fn an_alias_moves_to_an_existing_record() {
    let mut registry = Registry::new();
    registry.bump_or_insert("/a", Some("x"), 1);
    registry.bump_or_insert("/b", Some("y"), 2);
    registry.bump_or_insert("/a", Some("y"), 3);
    assert_eq!(registry.find_by_alias("y").unwrap().path, "/a");
    assert!(registry.find_by_alias("x").is_none());
    assert_eq!(registry.find_by_path("/b").unwrap().alias, "");
    assert_eq!(registry.find_by_path("/b").unwrap().access_count, 1);
}

#[test]
fn the_empty_alias_finds_nothing() {
    let mut registry = Registry::new();
    registry.bump_or_insert("/a", None, 1);
    assert!(registry.find_by_alias("").is_none());
    assert!(registry.find_by_alias("nobody").is_none());
}

#[test]
fn giving_the_empty_alias_clears_only_the_visited_record() {
    let mut registry = Registry::new();
    registry.bump_or_insert("/a", Some("x"), 1);
    registry.bump_or_insert("/b", Some("y"), 2);
    registry.bump_or_insert("/a", Some(""), 3);
    assert_eq!(registry.find_by_path("/a").unwrap().alias, "");
    assert_eq!(registry.find_by_path("/b").unwrap().alias, "y");
}

#[test]
fn equivalent_paths_share_one_record() {
    let mut registry = Registry::new();
    registry.bump_or_insert("/a/b/", None, 1);
    registry.bump_or_insert("/a/b", None, 2);
    let e = registry.bump_or_insert("/a//b", None, 3);
    assert_eq!(registry.len(), 1);
    assert_eq!(e.path, "/a/b");
    assert_eq!(e.access_count, 3);
    assert_eq!(registry.find_by_path("/a///b//").unwrap().access_count, 3);
}

#[test]
fn clear_alias_removes_it_and_ignores_unknown_paths() {
    let mut registry = Registry::new();
    registry.bump_or_insert("/a", Some("x"), 1);
    registry.clear_alias("/nowhere");
    assert_eq!(registry.find_by_path("/a").unwrap().alias, "x");
    registry.clear_alias("/a/");
    assert_eq!(registry.find_by_path("/a").unwrap().alias, "");
    assert_eq!(registry.find_by_path("/a").unwrap().access_count, 1);
}

#[test]
fn remove_drops_the_record_and_ignores_unknown_paths() {
    let mut registry = Registry::new();
    registry.bump_or_insert("/a", None, 1);
    registry.bump_or_insert("/b", None, 2);
    registry.bump_or_insert("/c", None, 3);
    registry.remove("/nowhere");
    assert_eq!(registry.len(), 3);
    registry.remove("/b/");
    assert_eq!(paths(&registry), vec!["/a".to_string(), "/c".to_string()]);
    assert!(registry.find_by_path("/b").is_none());
}

#[test]
fn purge_stale_drops_what_is_older_than_the_limit() {
    let now: i64 = 1_700_000_000;
    let registry = Registry::from_entries(vec![
        entry("/old", 3, now - 2_592_001, ""),
        entry("/edge", 3, now - 2_592_000, ""),
        entry("/new", 3, now - 2_591_999, ""),
    ]);
    let mut registry = registry.unwrap();
    assert_eq!(DEFAULT_MAX_AGE_SECONDS, 2_592_000);
    registry.purge_stale(now, DEFAULT_MAX_AGE_SECONDS);
    assert_eq!(paths(&registry), vec!["/edge".to_string(), "/new".to_string()]);
}

#[test]
fn purge_stale_does_not_overflow_at_the_ends_of_time() {
    let registry = Registry::from_entries(vec![
        entry("/past", 1, i64::MIN, ""),
        entry("/future", 1, i64::MAX, ""),
    ]);
    let mut registry = registry.unwrap();
    registry.purge_stale(i64::MAX, i64::MAX);
    assert_eq!(paths(&registry), vec!["/future".to_string()]);
}

#[test]
fn purge_nonexistent_asks_the_predicate() {
    let mut registry = Registry::new();
    registry.bump_or_insert("/here", None, 1);
    registry.bump_or_insert("/gone", Some("g"), 2);
    registry.bump_or_insert("/also/here", None, 3);
    registry.purge_nonexistent(|p: &String| !p.contains("gone"));
    assert_eq!(paths(&registry), vec!["/here".to_string(), "/also/here".to_string()]);
    assert!(registry.find_by_alias("g").is_none());
}

#[test]
fn retain_flagged_keeps_records_without_a_flag() {
    let mut registry = Registry::new();
    registry.bump_or_insert("/a", None, 1);
    registry.bump_or_insert("/b", None, 2);
    registry.bump_or_insert("/c", None, 3);
    registry.retain_flagged(&vec![false, true]);
    assert_eq!(paths(&registry), vec!["/b".to_string(), "/c".to_string()]);
}

#[test]
fn from_entries_accepts_a_well_formed_list() {
    let registry = Registry::from_entries(vec![
        entry("/a", 1, 10, "x"),
        entry("/b", 2, 20, ""),
        entry("/c", 3, 30, ""),
    ])
    .unwrap();
    assert_eq!(registry.len(), 3);
    assert_eq!(registry.find_by_alias("x").unwrap().path, "/a");
}

#[test]
fn from_entries_refuses_a_count_below_one() {
    let made = Registry::from_entries(vec![entry("/a", 0, 10, ""), entry("/a", 1, 10, "")]);
    assert_eq!(made.err(), Some(RegistryError::InvalidCount));
}

#[test]
fn from_entries_refuses_a_path_twice() {
    let made = Registry::from_entries(vec![
        entry("/a", 1, 10, "x"),
        entry("/b", 1, 10, "x"),
        entry("/a", 1, 10, ""),
    ]);
    assert_eq!(made.err(), Some(RegistryError::DuplicatePath));
}

#[test]
fn from_entries_refuses_an_alias_twice() {
    let made = Registry::from_entries(vec![
        entry("/a", 1, 10, "x"),
        entry("/b", 1, 10, ""),
        entry("/c", 1, 10, "x"),
    ]);
    assert_eq!(made.err(), Some(RegistryError::DuplicateAlias));
}

#[test]
fn a_full_count_stays_full() {
    let mut registry = Registry::from_entries(vec![entry("/a", i64::MAX, 10, "")]).unwrap();
    let e = registry.bump_or_insert("/a", None, 11);
    assert_eq!(e.access_count, i64::MAX);
    assert_eq!(e.last_access, 11);
}

#[test]
fn clear_drops_every_record() {
    let mut registry = Registry::new();
    registry.bump_or_insert("/a", None, 1);
    registry.clear();
    assert!(registry.is_empty());
}

#[test]
fn a_visit_at_an_earlier_time_does_not_move_the_last_access_back() {
    let mut registry = Registry::from_entries(vec![entry("/a", 1, 200, "")]).unwrap();
    let e = registry.bump_or_insert("/a", None, 100);
    assert_eq!(e.access_count, 2);
    assert_eq!(e.last_access, 200);
    let e = registry.bump_or_insert("/a", None, 200);
    assert_eq!((e.access_count, e.last_access), (3, 200));
    let e = registry.bump_or_insert("/a", None, 201);
    assert_eq!((e.access_count, e.last_access), (4, 201));
}

#[test]
fn two_visits_with_the_clock_set_back_keep_the_first_time() {
    let mut registry = Registry::new();
    registry.bump_or_insert("/srv/data", None, 2000);
    let e = registry.bump_or_insert("/srv/data", Some("d"), 1000);
    assert_eq!(e.access_count, 2);
    assert_eq!(e.last_access, 2000);
    assert_eq!(e.alias, "d");
}

#[test]
fn a_well_formed_list_is_recovered_as_it_is() {
    let all = vec![entry("/a", 1, 10, "x"), entry("/b", 2, 20, ""), entry("/c", 3, 30, "y")];
    let registry = Registry::recover(all);
    assert_eq!(paths(&registry), vec!["/a".to_string(), "/b".to_string(), "/c".to_string()]);
    let aliases: Vec<String> = registry.entries().iter().map(|e| e.alias.clone()).collect();
    assert_eq!(aliases, vec!["x".to_string(), "".to_string(), "y".to_string()]);
    let counts: Vec<i64> = registry.entries().iter().map(|e| e.access_count).collect();
    assert_eq!(counts, vec![1, 2, 3]);
}

#[test]
fn a_broken_list_is_recovered_to_a_registry() {
    let registry = Registry::recover(vec![
        entry("/a", 0, 10, "x"),
        entry("/b", -4, 20, "x"),
        entry("/a", 7, 30, "y"),
        entry("/c", 2, 40, "y"),
        entry("/d", 5, 50, ""),
        entry("/e", 6, 60, ""),
    ]);
    assert_eq!(
        paths(&registry),
        vec!["/a".to_string(), "/b".to_string(), "/c".to_string(), "/d".to_string(), "/e".to_string()]
    );
    let seen: Vec<(i64, i64, String)> = registry
        .entries()
        .iter()
        .map(|e| (e.access_count, e.last_access, e.alias.clone()))
        .collect();
    assert_eq!(
        seen,
        vec![
            (1, 10, "x".to_string()),
            (1, 20, "".to_string()),
            (2, 40, "y".to_string()),
            (5, 50, "".to_string()),
            (6, 60, "".to_string()),
        ]
    );
    assert_eq!(registry.find_by_alias("x").unwrap().path, "/a");
    assert_eq!(registry.find_by_alias("y").unwrap().path, "/c");
    assert!(Registry::recover(Vec::new()).is_empty());
}
