use contemporary_z::navigation::{child_path, listing, name_precedes};
use contemporary_z::registry::Registry;
use contemporary_z::text::chars_of;

fn child(name: &str, is_dir: bool) -> (String, bool) {
    (name.to_string(), is_dir)
}

fn sample() -> Vec<(String, bool)> {
    vec![
        child("src", true),
        child("notes.txt", false),
        child(".git", true),
        child("Cargo.toml", false),
        child("docs", true),
        child(".hidden", false),
        child("Zed", true),
        child("app", true),
    ]
}

#[test]
fn a_list_shows_plain_directories_and_the_parent_sorted_by_name() {
    let list = listing(&sample(), false, false);
    assert_eq!(list.dirs, vec!["..", "Zed", "app", "docs", "src"]);
    assert_eq!(list.files, vec!["notes.txt", "Cargo.toml", ".hidden"]);
}

#[test]
fn a_list_can_show_hidden_directories() {
    let list = listing(&sample(), true, false);
    assert_eq!(list.dirs, vec!["..", ".git", "Zed", "app", "docs", "src"]);
    let with_dot = vec![child(".", true), child("..", true), child("a", true)];
    assert_eq!(listing(&with_dot, true, false).dirs, vec!["..", "..", "a"]);
    assert_eq!(listing(&with_dot, false, false).dirs, vec!["..", "a"]);
}

#[test]
fn a_list_can_leave_out_files() {
    let list = listing(&sample(), false, true);
    assert!(list.files.is_empty());
    assert_eq!(list.dirs.len(), 5);
}

#[test]
fn an_empty_directory_lists_its_parent() {
    let list = listing(&Vec::new(), false, false);
    assert_eq!(list.dirs, vec![".."]);
    assert!(list.files.is_empty());
}

#[test]
fn names_sort_as_strings_do() {
    let mut names = vec!["b", "a", "ab", "", "B", "ä", "a/b", "zz", "z", "é", "😀", "~"];
    let children: Vec<(String, bool)> = names.iter().map(|n| child(n, true)).collect();
    names.push("..");
    names.sort();
    assert_eq!(listing(&children, true, true).dirs, names);
}

#[test]
fn names_are_compared_character_by_character() {
    assert!(name_precedes(&chars_of("a"), &chars_of("b")));
    assert!(!name_precedes(&chars_of("b"), &chars_of("a")));
    assert!(name_precedes(&chars_of("a"), &chars_of("ab")));
    assert!(!name_precedes(&chars_of("ab"), &chars_of("a")));
    assert!(!name_precedes(&chars_of("a"), &chars_of("a")));
    assert!(name_precedes(&chars_of(""), &chars_of("a")));
    assert!(!name_precedes(&chars_of(""), &chars_of("")));
    assert!(name_precedes(&chars_of("Z"), &chars_of("a")));
}

#[test]
fn a_child_path_is_joined_to_its_directory() {
    assert_eq!(child_path("/a", "b"), "/a/b");
    assert_eq!(child_path("/a/", "b"), "/a/b");
    assert_eq!(child_path(".", "src"), "./src");
    assert_eq!(child_path("/a", ".."), "/a/..");
    assert_eq!(child_path("/a", "/b"), "/b");
    assert_eq!(child_path("", "b"), "b");
    assert_eq!(child_path("/a", ""), "/a/");
}

#[test]
fn a_child_path_is_what_the_standard_library_joins() {
    for base in ["", ".", "/", "/a", "/a/", "a/b", "/ä", "a//"] {
        for name in ["", "b", "..", "/b", "b/c", "ö", "/"] {
            let joined = std::path::Path::new(base).join(name);
            assert_eq!(child_path(base, name), joined.to_str().unwrap(), "{:?} {:?}", base, name);
        }
    }
}

#[test]
fn a_step_records_a_new_directory_once() {
    let mut registry = Registry::new();
    assert!(registry.record_if_new("/a/b", 10));
    assert!(!registry.record_if_new("/a/b", 20));
    let e = registry.find_by_path("/a/b").unwrap();
    assert_eq!(e.access_count, 1);
    assert_eq!(e.last_access, 10);
}

#[test]
fn a_step_records_under_the_canonical_path() {
    let mut registry = Registry::new();
    assert!(registry.record_if_new("/a//b/", 10));
    assert!(!registry.record_if_new("/a/b", 20));
    assert!(!registry.record_if_new("/a/b/", 30));
    assert_eq!(registry.len(), 1);
    assert_eq!(registry.entries()[0].path, "/a/b");
    assert!(!registry.record_key_if_new("/a/b", 40));
    assert!(registry.record_key_if_new("/a/b/", 50));
    assert_eq!(registry.len(), 2);
}

#[test]
fn a_step_does_not_record_dot_names() {
    let mut registry = Registry::new();
    assert!(!registry.record_if_new(".", 10));
    assert!(!registry.record_if_new("..", 10));
    assert!(!registry.record_if_new("./", 10));
    assert!(!registry.record_key_if_new("..", 10));
    assert!(registry.is_empty());
    assert!(registry.record_if_new("./..", 10));
    assert_eq!(registry.len(), 1);
}
