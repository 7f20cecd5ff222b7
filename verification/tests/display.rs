use contemporary_z::display::{compact_path, error_line, list_line, list_lines, report_line, ListStyle};
use contemporary_z::entry::DirectoryEntry;
use contemporary_z::pattern::wildcard_pattern;

fn entry(path: &str, alias: &str) -> DirectoryEntry {
    DirectoryEntry { path: path.to_string(), access_count: 1, last_access: 1, alias: alias.to_string() }
}

fn style<'a>(compact: bool) -> ListStyle<'a> {
    ListStyle { theme: "dark", compact_paths: compact, home: "/home/u", user: "u" }
}

#[test]
fn paths_are_abbreviated() {
    assert_eq!(compact_path("/home/u/proj", "/home/u", "u"), "~/proj");
    assert_eq!(compact_path("/run/media/u/disk", "/home/u", "u"), ">/disk");
    assert_eq!(compact_path("/media/u/disk", "/home/u", "u"), ">/disk");
    assert_eq!(compact_path("/srv/www", "/home/u", "u"), "/srv/www");
}

#[test]
fn a_line_shows_number_alias_and_path() {
    assert_eq!(
        list_line("dark", 3, "p", "~/proj"),
        "\x1b[1m3\x1b[0m) p:\x1b[1;34m~/proj\x1b[0m 3"
    );
    assert_eq!(list_line("bright", 10, "", "/x"), "\x1b[1m10\x1b[0m) \x1b[1;94m/x\x1b[0m 10");
}

#[test]
fn a_list_stops_at_its_limit() {
    let all: Vec<DirectoryEntry> = (0..12).map(|i| entry(&format!("/d{}", i), "")).collect();
    assert_eq!(list_lines(&style(false), &all, 9, 1).len(), 9);
    assert_eq!(list_lines(&style(false), &all, 20, 1).len(), 12);
    assert_eq!(list_lines(&style(false), &all, usize::MAX, 0).len(), 12);
    assert_eq!(list_lines(&style(false), &all, 0, 0).len(), 1);
    assert_eq!(list_lines(&style(false), &all, 0, 5).len(), 1);
    assert_eq!(list_lines(&style(false), &Vec::new(), 9, 1).len(), 0);
}

#[test]
fn a_list_numbers_from_its_start() {
    let all = vec![entry("/home/u/a", "x"), entry("/b", "")];
    let lines = list_lines(&style(true), &all, 9, 1);
    assert_eq!(lines[0], list_line("dark", 1, "x", "~/a"));
    assert_eq!(lines[1], list_line("dark", 2, "", "/b"));
    let lines = list_lines(&style(false), &all, usize::MAX, 0);
    assert_eq!(lines[0], list_line("dark", 0, "x", "/home/u/a"));
    assert_eq!(lines[1], list_line("dark", 1, "", "/b"));
}

#[test]
fn messages_are_coloured() {
    assert_eq!(error_line("dark", "Invalid number", "7 > 3"), "\x1b[1;35mInvalid number\x1b[0m: 7 > 3");
    assert_eq!(error_line("dark", "No dir selected", ""), "\x1b[1;35mNo dir selected\x1b[0m ");
    assert_eq!(report_line("dark", "Added dir alias", "p->/x"), "\x1b[1;32mAdded dir alias\x1b[0m: p->/x");
}

#[test]
fn terms_join_into_a_wildcard_pattern() {
    let terms = |words: &[&str]| words.iter().map(|w| w.to_string()).collect::<Vec<String>>();
    assert_eq!(wildcard_pattern(&terms(&[])), "");
    assert_eq!(wildcard_pattern(&terms(&["proj"])), "*proj*");
    assert_eq!(wildcard_pattern(&terms(&["proj", "x"])), "*proj*x*");
    assert_eq!(wildcard_pattern(&terms(&["a", "", "c"])), "*a**c*");
}
