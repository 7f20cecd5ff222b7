use contemporary_z::commands::{
    alias_request, parse_command, plan_cd, search_terms, sort_by_last_visit, AliasOutcome,
    AliasRequest, CdPlan, Command,
};
use contemporary_z::config::{parse_config, Settings, DEFAULT_CONFIG};
use contemporary_z::entry::DirectoryEntry;
use contemporary_z::policy::Policy;
use contemporary_z::registry::Registry;

fn entry(path: &str, count: i64, last_access: i64, alias: &str) -> DirectoryEntry {
    DirectoryEntry {
        path: path.to_string(),
        access_count: count,
        last_access,
        alias: alias.to_string(),
    }
}

fn args(words: &[&str]) -> Vec<String> {
    words.iter().map(|w| w.to_string()).collect()
}

fn sample() -> Registry {
    Registry::from_entries(vec![
        entry("/a", 1, 30, "x"),
        entry("/b", 1, 50, ""),
        entry("/c", 1, 50, "y"),
        entry("/d", 1, 10, ""),
    ])
    .unwrap()
}

#[test]
fn the_latest_and_the_previous_directory_are_found() {
    let registry = sample();
    assert_eq!(registry.nth_recent(0).unwrap().path, "/b");
    assert_eq!(registry.nth_recent(1).unwrap().path, "/c");
    assert_eq!(registry.nth_recent(2).unwrap().path, "/a");
    assert_eq!(registry.nth_recent(3).unwrap().path, "/d");
    assert!(registry.nth_recent(4).is_none());
    assert!(Registry::new().nth_recent(0).is_none());
    let sorted = sort_by_last_visit(&vec![entry("/p", 1, i64::MIN, ""), entry("/q", 1, i64::MAX, "")]);
    assert_eq!(sorted[0].path, "/q");
}

#[test]
fn an_alias_is_assigned_without_a_visit() {
    let mut registry = sample();
    registry.assign_alias_key("/b", "x");
    assert_eq!(registry.find_by_alias("x").unwrap().path, "/b");
    assert_eq!(registry.find_by_path("/a").unwrap().alias, "");
    assert_eq!(registry.find_by_path("/b").unwrap().access_count, 1);
    assert_eq!(registry.find_by_path("/b").unwrap().last_access, 50);
    registry.assign_alias_key("/nowhere", "y");
    assert_eq!(registry.find_by_alias("y").unwrap().path, "/c");
    assert_eq!(registry.len(), 4);
}

#[test]
fn setting_an_alias_inserts_assigns_or_removes() {
    let mut registry = sample();
    assert_eq!(registry.set_alias("/new/", "n", 99), AliasOutcome::Inserted);
    let e = registry.find_by_alias("n").unwrap();
    assert_eq!((e.path.as_str(), e.access_count, e.last_access), ("/new", 1, 99));
    assert_eq!(registry.set_alias("/d", "x", 100), AliasOutcome::Assigned);
    assert_eq!(registry.find_by_alias("x").unwrap().path, "/d");
    assert_eq!(registry.find_by_path("/d").unwrap().last_access, 10);
    assert_eq!(registry.set_alias("/c", "", 101), AliasOutcome::Removed);
    assert!(registry.find_by_alias("y").is_none());
    assert_eq!(registry.set_alias("..", "up", 102), AliasOutcome::Ignored);
    assert!(registry.find_by_alias("up").is_none());
    assert_eq!(registry.len(), 5);
}

#[test]
fn several_records_are_removed_at_once() {
    let mut registry = sample();
    registry.remove_keys(&args(&["/a", "/nowhere", "/d", "/a"]));
    let left: Vec<String> = registry.entries().iter().map(|e| e.path.clone()).collect();
    assert_eq!(left, vec!["/b", "/c"]);
}

#[test]
fn the_alias_option_reads_its_arguments() {
    assert!(matches!(alias_request(&args(&["cz", "-a"])), AliasRequest::ListAliased));
    match alias_request(&args(&["cz", "-a", "/dir"])) {
        AliasRequest::Remove(dir) => assert_eq!(dir, "/dir"),
        _ => panic!("not a removal"),
    }
    match alias_request(&args(&["cz", "-a", "name", "/dir", "more"])) {
        AliasRequest::Assign(alias, dir) => {
            assert_eq!(alias, "name");
            assert_eq!(dir, "/dir");
        }
        _ => panic!("not an assignment"),
    }
}

#[test]
fn an_alias_wins_over_a_directory_and_a_directory_over_a_search() {
    let registry = sample();
    match plan_cd(&registry, &"x".to_string(), |p: &String| p == "/a") {
        CdPlan::VisitAlias(e) => assert_eq!(e.path, "/a"),
        _ => panic!("alias not taken"),
    }
    assert!(matches!(plan_cd(&registry, &"x".to_string(), |_p: &String| false), CdPlan::Nothing));
    assert!(matches!(
        plan_cd(&registry, &"/tmp".to_string(), |p: &String| p == "/tmp"),
        CdPlan::VisitArgument
    ));
    assert!(matches!(plan_cd(&registry, &"proj".to_string(), |_p: &String| false), CdPlan::Search));
}

#[test]
fn search_terms_follow_the_option() {
    assert_eq!(search_terms(&args(&["cz", "a", "b"]), false), vec!["a", "b"]);
    assert_eq!(search_terms(&args(&["cz", "-t", "a", "b"]), true), vec!["a", "b"]);
    assert!(search_terms(&args(&["cz", "-t"]), true).is_empty());
    assert!(search_terms(&args(&["cz"]), true).is_empty());
    assert!(search_terms(&args(&[]), false).is_empty());
}

#[test]
fn the_first_argument_names_the_command() {
    let parse = |words: &[&str]| parse_command(&args(words));
    assert_eq!(parse(&["cz"]), Command::Choose);
    assert_eq!(parse(&[]), Command::Choose);
    assert_eq!(parse(&["cz", "-v"]), Command::Version);
    assert_eq!(parse(&["cz", "--version"]), Command::Version);
    assert_eq!(parse(&["cz", "--database-path"]), Command::DatabasePath);
    assert_eq!(parse(&["cz", "--clear"]), Command::Clear);
    assert_eq!(parse(&["cz", "-"]), Command::Previous);
    assert_eq!(parse(&["cz", "="]), Command::Last);
    assert_eq!(parse(&["cz", "--help"]), Command::Help);
    assert_eq!(parse(&["cz", "-h"]), Command::Help);
    assert_eq!(parse(&["cz", "-l", "5"]), Command::List);
    assert_eq!(parse(&["cz", "-i"]), Command::Navigate { hidden: false, dirs_only: false });
    assert_eq!(parse(&["cz", "--id"]), Command::Navigate { hidden: false, dirs_only: true });
    assert_eq!(parse(&["cz", "--ih"]), Command::Navigate { hidden: true, dirs_only: false });
    assert_eq!(parse(&["cz", "-r"]), Command::Remove);
    assert_eq!(parse(&["cz", "-a", "n", "/d"]), Command::Alias);
    assert_eq!(parse(&["cz", "--remove-alias"]), Command::RemoveAlias);
    assert_eq!(parse(&["cz", "--sync"]), Command::Sync);
    assert_eq!(parse(&["cz", "--list-all"]), Command::ListAll);
    assert_eq!(parse(&["cz", "-f", "x"]), Command::ListMatching);
    assert_eq!(parse(&["cz", "-t", "x"]), Command::Cd { option: true, forced: Some(Policy::Shortest) });
    assert_eq!(parse(&["cz", "-e", "x"]), Command::Cd { option: true, forced: Some(Policy::Score) });
    assert_eq!(parse(&["cz", "-b", "x"]), Command::Cd { option: true, forced: None });
    assert_eq!(parse(&["cz", "proj"]), Command::Cd { option: false, forced: None });
    assert_eq!(parse(&["cz", "--unknown"]), Command::Cd { option: false, forced: None });
}

#[test]
fn settings_come_from_the_user_over_the_defaults() {
    let defaults = parse_config(DEFAULT_CONFIG.to_string());
    let s = Settings::from_options(&Vec::new(), &defaults).unwrap();
    assert_eq!(s.theme, "dark");
    assert!(s.abs_paths && s.compact_paths);
    assert_eq!(s.max_results, 9);
    assert_eq!(s.database_path, "$HOME/.local/share/contemporary-z/directories.dir");
    assert_eq!(s.substring, Policy::Score);
    assert_eq!(s.show_files, "none");
    assert_eq!(s.nav_start_number, 1);
    let user = parse_config("theme = bright\nmax_results = 3\nsubstring = shortest\n".to_string());
    let s = Settings::from_options(&user, &defaults).unwrap();
    assert_eq!(s.theme, "bright");
    assert_eq!(s.max_results, 3);
    assert_eq!(s.substring, Policy::Shortest);
    assert_eq!(s.nav_start_number, 1);
    let broken = parse_config("max_results = -3\n".to_string());
    assert!(Settings::from_options(&broken, &defaults).is_none());
    let broken = parse_config("abs_paths = perhaps\n".to_string());
    assert!(Settings::from_options(&broken, &defaults).is_none());
    assert!(Settings::from_options(&user, &Vec::new()).is_none());
}
