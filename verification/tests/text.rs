use contemporary_z::colors::{color_code, sgr_code};
use contemporary_z::config::{
    build_settings, expand_home, find_option, parse_bool, parse_config, parse_option_string,
    try_get_option, try_parse_config, try_parse_option_string, Value, DEFAULT_CONFIG,
};
use contemporary_z::path::{canonicalize, collapse_slashes, strip_trailing_slash};
use contemporary_z::policy::Policy;
use contemporary_z::selection::{
    choose_numbered, number_of_pages, pager_step, parse_and_validate_dir_number, read_number,
    select_many, select_numbered, turn_page, Pager, PagerStep,
};
use contemporary_z::text::{chars_of, split_chars, split_text, string_of};

fn pair(option: &str, value: &str) -> (String, String) {
    (option.to_string(), value.to_string())
}

fn strings(pieces: Vec<Vec<char>>) -> Vec<String> {
    pieces.iter().map(|p| p.iter().collect()).collect()
}

#[test]
fn canonical_paths_have_single_slashes_and_no_trailing_one() {
    assert_eq!(canonicalize("/a/b/"), "/a/b");
    assert_eq!(canonicalize("/a/b"), "/a/b");
    assert_eq!(canonicalize("/a//b"), "/a/b");
    assert_eq!(canonicalize("//a////b///"), "/a/b");
    assert_eq!(canonicalize("/"), "/");
    assert_eq!(canonicalize("///"), "/");
    assert_eq!(canonicalize(""), "");
    assert_eq!(canonicalize("rel/dir/"), "rel/dir");
}

#[test]
fn canonicalizing_twice_changes_nothing_more() {
    for p in ["/a/b//", "//", "/x//y///z/", "a", "/ä//ö/"] {
        let once = canonicalize(p);
        assert_eq!(canonicalize(&once), once);
    }
}

#[test]
fn slashes_collapse() {
    assert_eq!(collapse_slashes("a//b///c/d"), "a/b/c/d");
    assert_eq!(collapse_slashes("no-slash"), "no-slash");
    assert_eq!(collapse_slashes("//"), "/");
}

#[test]
fn one_trailing_slash_is_stripped() {
    assert_eq!(strip_trailing_slash("/a/"), "/a");
    assert_eq!(strip_trailing_slash("/a//"), "/a/");
    assert_eq!(strip_trailing_slash("/"), "/");
    assert_eq!(strip_trailing_slash("/ä/"), "/ä");
    assert_eq!(strip_trailing_slash(""), "");
}

#[test]
fn characters_round_trip() {
    let s = "a/ä€😀";
    let chars = chars_of(s);
    assert_eq!(chars.len(), 5);
    assert_eq!(string_of(&chars), s);
}

#[test]
fn splitting_on_a_character_keeps_empty_pieces() {
    assert_eq!(strings(split_chars(&chars_of("1 2  3"), ' ')), vec!["1", "2", "", "3"]);
    assert_eq!(strings(split_chars(&chars_of(""), ' ')), vec![""]);
    assert_eq!(strings(split_chars(&chars_of("a\n"), '\n')), vec!["a", ""]);
}

#[test]
fn splitting_on_a_text_takes_matches_from_the_left() {
    let sep = chars_of("---");
    assert_eq!(strings(split_text(&chars_of("a---b-----c"), &sep)), vec!["a", "b", "--c"]);
    assert_eq!(strings(split_text(&chars_of("abc"), &sep)), vec!["abc"]);
    assert_eq!(strings(split_text(&chars_of("---"), &sep)), vec!["", ""]);
    let aa = chars_of("aa");
    assert_eq!(strings(split_text(&chars_of("aaa"), &aa)), vec!["", "a"]);
}

#[test]
fn colours_have_codes() {
    assert_eq!(color_code("black_fg"), "30");
    assert_eq!(color_code("white_fg"), "37");
    assert_eq!(color_code("bright_black_fg"), "90");
    assert_eq!(color_code("bright_magenta_fg"), "95");
    assert_eq!(color_code("blue_bg"), "44");
    assert_eq!(color_code("bright_white_bg"), "107");
    assert_eq!(color_code("no such colour"), "30");
    assert_eq!(sgr_code("bold"), "1");
    assert_eq!(sgr_code("normal"), "0");
    assert_eq!(sgr_code("italic"), "0");
}

#[test]
fn text_is_wrapped_in_escape_sequences() {
    assert_eq!(contemporary_z::colors::format("dark", "bold", "green", "ok"), "\x1b[1;32mok\x1b[0m");
    assert_eq!(contemporary_z::colors::format("bright", "bold", "green", "ok"), "\x1b[1;92mok\x1b[0m");
    assert_eq!(contemporary_z::colors::format("bright", "normal", "black", "ok"), "\x1b[0;97mok\x1b[0m");
    assert_eq!(contemporary_z::colors::format("dark", "bold", "", "7"), "\x1b[1m7\x1b[0m");
    assert_eq!(contemporary_z::colors::format("dark", "bold", "purple", "x"), "\x1b[1;30mx\x1b[0m");
}

#[test]
fn numbers_are_read_from_typed_lines() {
    assert_eq!(read_number("12"), Some(12));
    assert_eq!(read_number("0"), Some(0));
    assert_eq!(read_number(""), None);
    assert_eq!(read_number("e"), None);
    assert_eq!(read_number("-1"), None);
    assert_eq!(read_number(" 1"), None);
    assert_eq!(read_number("99999999999999999999999"), None);
}

#[test]
fn a_number_selects_within_the_list() {
    assert_eq!(choose_numbered(Some(1), 3, 1).ok(), Some(0));
    assert_eq!(choose_numbered(Some(3), 3, 1).ok(), Some(2));
    assert!(choose_numbered(Some(4), 3, 1).is_err());
    assert!(choose_numbered(Some(0), 3, 1).is_err());
    assert_eq!(choose_numbered(Some(0), 3, 0).ok(), Some(0));
    assert!(choose_numbered(Some(3), 3, 0).is_err());
    assert!(choose_numbered(None, 3, 1).is_err());
    assert!(choose_numbered(Some(1), 0, 1).is_err());
    assert_eq!(choose_numbered(Some(usize::MAX), 2, usize::MAX).ok(), Some(0));
    assert_eq!(select_numbered("7", 3, 5).ok(), Some(2));
    assert!(select_numbered("x", 3, 5).is_err());
}

#[test]
fn a_directory_number_is_validated() {
    assert_eq!(parse_and_validate_dir_number("2", 3).ok(), Some(2));
    assert_eq!(parse_and_validate_dir_number("3", 3).ok(), Some(3));
    assert!(parse_and_validate_dir_number("4", 3).is_err());
    assert!(parse_and_validate_dir_number("0", 3).is_err());
    assert!(parse_and_validate_dir_number("two", 3).is_err());
}

#[test]
fn several_numbers_select_several_items() {
    assert_eq!(select_many("1 3 2", 3).ok(), Some(vec![0, 2, 1]));
    assert_eq!(select_many("2", 3).ok(), Some(vec![1]));
    assert!(select_many("1  2", 3).is_err());
    assert!(select_many("1 4", 3).is_err());
    assert!(select_many("", 3).is_err());
}

#[test]
fn pages_are_counted_and_turned() {
    assert_eq!(number_of_pages(0, 9), 0);
    assert_eq!(number_of_pages(1, 9), 1);
    assert_eq!(number_of_pages(9, 9), 1);
    assert_eq!(number_of_pages(10, 9), 2);
    assert_eq!(number_of_pages(usize::MAX, 1), usize::MAX);
    let start = Pager { page: 0, first: 0 };
    let second = turn_page(start, 20, 9);
    assert_eq!(second, Pager { page: 1, first: 9 });
    let third = turn_page(second, 20, 9);
    assert_eq!(third, Pager { page: 2, first: 18 });
    assert_eq!(turn_page(third, 20, 9), start);
    assert_eq!(turn_page(start, 9, 9), start);
    assert_eq!(turn_page(Pager { page: usize::MAX, first: 0 }, 9, 9), start);
}

#[test]
fn a_typed_line_turns_the_page_or_selects() {
    let second = Pager { page: 1, first: 9 };
    assert_eq!(pager_step("e", second, 20, 9), PagerStep::Turn(Pager { page: 2, first: 18 }));
    assert_eq!(pager_step("1", second, 20, 9), PagerStep::Chosen(9));
    assert_eq!(pager_step("11", second, 20, 9), PagerStep::Chosen(19));
    assert_eq!(pager_step("12", second, 20, 9), PagerStep::Invalid);
    assert_eq!(pager_step("0", second, 20, 9), PagerStep::Invalid);
    assert_eq!(pager_step("E", second, 20, 9), PagerStep::Invalid);
}

#[test]
fn the_default_configuration_parses() {
    let pairs = parse_config(DEFAULT_CONFIG.to_string());
    assert_eq!(pairs.len(), 8);
    assert_eq!(pairs[0], pair("theme", "dark"));
    assert_eq!(pairs[1], pair("max_results", "9"));
    assert_eq!(pairs[4], pair("database_path", "$HOME/.local/share/contemporary-z/directories.dir"));
    assert_eq!(pairs[7], pair("nav_start_number", "1"));
}

#[test]
fn a_configuration_is_read_line_by_line() {
    let pairs = try_parse_config("  theme = bright  \n\n\t\nname = a = b\n").unwrap();
    assert_eq!(pairs, vec![pair("theme", "bright"), pair("name", "a")]);
    assert!(try_parse_config("theme=bright\n").is_none());
    // the blank behind the sign is trimmed away, and with it the separator
    assert!(try_parse_config("empty = \n").is_none());
    assert!(try_parse_config("theme = dark\nnonsense\n").is_none());
    assert_eq!(try_parse_config("").unwrap().len(), 0);
}

#[test]
fn option_values_have_types() {
    let number = pair("max_results", "12");
    match parse_option_string(&Some(&number)) {
        Value::I64(n) => assert_eq!(n, 12),
        _ => panic!("not a number"),
    }
    let flag = pair("abs_paths", "false");
    match parse_option_string(&Some(&flag)) {
        Value::Bool(b) => assert!(!b),
        _ => panic!("not a flag"),
    }
    let text = pair("theme", "dark");
    match parse_option_string(&Some(&text)) {
        Value::String(s) => assert_eq!(s, "dark"),
        _ => panic!("not a text"),
    }
    assert!(try_parse_option_string(&Some(&pair("max_results", "many"))).is_none());
    assert!(try_parse_option_string(&Some(&pair("compact_paths", "yes"))).is_none());
    assert!(try_parse_option_string(&None).is_none());
    assert_eq!(parse_bool("true"), Some(true));
    assert_eq!(parse_bool("True"), None);
}

#[test]
fn values_convert() {
    assert_eq!(Value::I64(-7).to_string(), "-7");
    assert_eq!(Value::Bool(true).to_string(), "true");
    assert_eq!(Value::Bool(false).to_string(), "false");
    assert_eq!(Value::String("x y").to_string(), "x y");
    assert_eq!(Value::I64(3).to_i64(), 3);
    assert!(Value::Bool(true).to_bool());
    assert_eq!(Value::I64(3).as_bool(), None);
    assert_eq!(Value::String("3").as_i64(), None);
    assert_eq!(Value::I64(9).clone().as_i64(), Some(9));
}

#[test]
fn the_user_setting_wins_over_the_default() {
    let user = vec![pair("theme", "bright"), pair("theme", "other")];
    let defaults = parse_config(DEFAULT_CONFIG.to_string());
    assert_eq!(find_option(&user, "theme"), Some(0));
    assert_eq!(find_option(&user, "max_results"), None);
    assert_eq!(try_get_option(&user, &defaults, "theme").unwrap().to_string(), "bright");
    assert_eq!(try_get_option(&user, &defaults, "max_results").unwrap().as_i64(), Some(9));
    assert_eq!(try_get_option(&user, &defaults, "abs_paths").unwrap().as_bool(), Some(true));
    assert!(try_get_option(&user, &defaults, "unknown").is_none());
    let broken = vec![pair("max_results", "x")];
    assert!(try_get_option(&broken, &defaults, "max_results").is_none());
}

#[test]
fn settings_are_built_from_values() {
    let s = build_settings(
        "dark".to_string(),
        true,
        false,
        9,
        "/db".to_string(),
        "shortest".to_string(),
        "none".to_string(),
        1,
    )
    .unwrap();
    assert_eq!(s.max_results, 9);
    assert_eq!(s.nav_start_number, 1);
    assert_eq!(s.substring, Policy::Shortest);
    assert!(s.abs_paths && !s.compact_paths);
    assert!(build_settings(
        "dark".to_string(),
        true,
        false,
        -1,
        "/db".to_string(),
        "score".to_string(),
        "none".to_string(),
        1
    )
    .is_none());
}

#[test]
fn the_home_directory_is_filled_in() {
    assert_eq!(expand_home("$HOME/.local/x", "/home/u"), "/home/u/.local/x");
    assert_eq!(expand_home("/plain", "/home/u"), "/plain");
}
