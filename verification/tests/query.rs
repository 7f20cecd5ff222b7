use contemporary_z::entry::DirectoryEntry;
use contemporary_z::pattern::path_matches;
use contemporary_z::policy::{resolve, Policy, Resolution};
use contemporary_z::query::select_existing;
use contemporary_z::ranking::rank;
use contemporary_z::registry::Registry;

fn entry(path: &str, count: i64, last_access: i64, alias: &str) -> DirectoryEntry {
    DirectoryEntry {
        path: path.to_string(),
        access_count: count,
        last_access,
        alias: alias.to_string(),
    }
}

fn names(entries: &Vec<DirectoryEntry>) -> Vec<String> {
    entries.iter().map(|e| e.path.clone()).collect()
}

fn terms(words: &[&str]) -> Vec<String> {
    words.iter().map(|w| w.to_string()).collect()
}

#[test]
fn query_orders_by_descending_score() {
    let now = 5000;
    let registry = Registry::from_entries(vec![
        entry("/five", 5, now, ""),
        entry("/twenty", 20, now, ""),
        entry("/one", 1, now, ""),
    ])
    .unwrap();
    let result = registry.query(&terms(&[]), false, now, |_p: &String| true);
    assert_eq!(names(&result), vec!["/twenty", "/five", "/one"]);
}

#[test]
fn ranking_is_stable_for_ties() {
    let now = 5000;
    let all = vec![
        entry("/b", 2, now - 10, ""),
        entry("/a", 2, now - 10, ""),
        entry("/top", 9, now, ""),
        entry("/c", 2, now - 10, ""),
        // 4 visits 12500 s ago tie with 2 visits just now: not with the above
        entry("/d", 1, now - 10, ""),
    ];
    let ranked = rank(&all, now);
    assert_eq!(names(&ranked), vec!["/top", "/b", "/a", "/c", "/d"]);
}

#[test]
fn ranking_uses_recency() {
    let now = 10_000_000;
    let all = vec![entry("/stale", 10, now - 5_000_000, ""), entry("/recent", 1, now, "")];
    assert_eq!(names(&rank(&all, now)), vec!["/recent", "/stale"]);
    assert_eq!(names(&rank(&all, now - 5_000_000)), vec!["/stale", "/recent"]);
}

#[test]
fn query_of_an_empty_registry_is_empty() {
    let registry = Registry::new();
    assert!(registry.query(&terms(&["x"]), false, 1, |_p: &String| true).is_empty());
    assert!(registry.candidates(&terms(&[]), true, 1).is_empty());
}

#[test]
fn query_excludes_what_is_gone_even_if_it_ranks_first() {
    let now = 5000;
    let registry = Registry::from_entries(vec![
        entry("/low", 1, now - 100, ""),
        entry("/gone", 50, now, ""),
        entry("/mid", 5, now - 100, ""),
    ])
    .unwrap();
    assert_eq!(names(&registry.candidates(&terms(&[]), false, now)), vec!["/gone", "/mid", "/low"]);
    let result = registry.query(&terms(&[]), false, now, |p: &String| p != "/gone");
    assert_eq!(names(&result), vec!["/mid", "/low"]);
}

#[test]
fn query_matches_terms_in_order() {
    let now = 100_000;
    let registry = Registry::from_entries(vec![entry("/home/u/proj", 5, now - 60, "")]).unwrap();
    let hit = registry.query(&terms(&["proj"]), false, now, |_p: &String| true);
    assert_eq!(hit.len(), 1);
    assert_eq!(hit[0].path, "/home/u/proj");
    assert_eq!(hit[0].access_count, 5);
    assert_eq!(hit[0].last_access, now - 60);
    let miss = registry.query(&terms(&["proj", "x"]), false, now, |_p: &String| true);
    assert!(miss.is_empty());
    let ordered = registry.query(&terms(&["home", "proj"]), false, now, |_p: &String| true);
    assert_eq!(ordered.len(), 1);
    let reversed = registry.query(&terms(&["proj", "home"]), false, now, |_p: &String| true);
    assert!(reversed.is_empty());
}

#[test]
fn query_can_ask_for_aliased_records_only() {
    let now = 100;
    let registry = Registry::from_entries(vec![
        entry("/a", 9, now, ""),
        entry("/b", 1, now, "bee"),
        entry("/c", 5, now, "sea"),
    ])
    .unwrap();
    let result = registry.query(&terms(&[]), true, now, |_p: &String| true);
    assert_eq!(names(&result), vec!["/c", "/b"]);
}

#[test]
fn query_does_not_change_the_registry() {
    let now = 100;
    let registry = Registry::from_entries(vec![entry("/a", 1, now, ""), entry("/b", 9, now, "")]).unwrap();
    let _ = registry.query(&terms(&[]), false, now, |_p: &String| false);
    assert_eq!(names(registry.entries()), vec!["/a", "/b"]);
}

#[test]
fn select_existing_keeps_flagged_candidates() {
    let found = vec![entry("/a", 1, 1, ""), entry("/b", 1, 1, ""), entry("/c", 1, 1, "")];
    assert_eq!(names(&select_existing(&found, &vec![true, false, true])), vec!["/a", "/c"]);
    assert_eq!(names(&select_existing(&found, &vec![false])), vec!["/b", "/c"]);
    assert!(select_existing(&found, &vec![false, false, false, true]).is_empty());
}

#[test]
fn terms_must_not_overlap() {
    assert!(path_matches("/abab", &terms(&["ab", "ab"])));
    assert!(!path_matches("/aba", &terms(&["ab", "ba"])));
    assert!(path_matches("/abba", &terms(&["ab", "ba"])));
    assert!(path_matches("/anything", &terms(&[])));
    assert!(path_matches("/anything", &terms(&["", "any", ""])));
    assert!(!path_matches("", &terms(&["a"])));
    assert!(path_matches("", &terms(&[""])));
    assert!(!path_matches("/Proj", &terms(&["proj"])));
    assert!(path_matches("/x/*lit*", &terms(&["*lit*"])));
    assert!(!path_matches("/x/lit", &terms(&["*lit*"])));
    assert!(path_matches("/größe/ü", &terms(&["öß", "ü"])));
}

#[test]
fn a_single_match_is_taken_under_every_policy() {
    let one = vec![entry("/only", 1, 1, "")];
    for policy in [Policy::Shortest, Policy::Score, Policy::Interactive] {
        assert_eq!(resolve(&one, policy), Resolution::Direct(0));
    }
}

#[test]
fn no_match_resolves_to_nothing() {
    for policy in [Policy::Shortest, Policy::Score, Policy::Interactive] {
        assert_eq!(resolve(&Vec::new(), policy), Resolution::NoMatch);
    }
}

#[test]
fn several_matches_resolve_by_policy() {
    let found = vec![
        entry("/home/u/projects/deep", 9, 1, ""),
        entry("/srv/p", 5, 1, ""),
        entry("/srv/q", 4, 1, ""),
        entry("/x", 1, 1, ""),
        entry("/y", 1, 1, ""),
    ];
    assert_eq!(resolve(&found, Policy::Score), Resolution::Direct(0));
    assert_eq!(resolve(&found, Policy::Shortest), Resolution::Direct(3));
    assert_eq!(resolve(&found, Policy::Interactive), Resolution::Ask);
}

#[test]
fn shortest_counts_characters() {
    let found = vec![entry("/äöü", 2, 1, ""), entry("/abcd", 1, 1, "")];
    assert_eq!(resolve(&found, Policy::Shortest), Resolution::Direct(0));
}

#[test]
fn policies_have_names() {
    assert_eq!(Policy::from_name("shortest"), Policy::Shortest);
    assert_eq!(Policy::from_name("score"), Policy::Score);
    assert_eq!(Policy::from_name("none"), Policy::Interactive);
    assert_eq!(Policy::from_name("Shortest"), Policy::Interactive);
    assert_eq!(Policy::Score.or_forced(Some(Policy::Shortest)), Policy::Shortest);
    assert_eq!(Policy::Shortest.or_forced(Some(Policy::Score)), Policy::Score);
    assert_eq!(Policy::Shortest.or_forced(None), Policy::Shortest);
}
