use contemporary_z::entry::DirectoryEntry;
use contemporary_z::registry::Registry;
use contemporary_z::storage::{parse_records, render_records};

fn entry(path: &str, count: i64, last_access: i64, alias: &str) -> DirectoryEntry {
    DirectoryEntry {
        path: path.to_string(),
        access_count: count,
        last_access,
        alias: alias.to_string(),
    }
}

fn same(a: &Vec<DirectoryEntry>, b: &Vec<DirectoryEntry>) -> bool {
    a.len() == b.len()
        && a.iter().zip(b.iter()).all(|(x, y)| {
            x.path == y.path
                && x.access_count == y.access_count
                && x.last_access == y.last_access
                && x.alias == y.alias
        })
}

#[test]
fn records_are_written_block_by_block() {
    let text = render_records(&vec![entry("/a/b", 3, 1700000000, ""), entry("/c", 12, -5, "sea")]);
    assert_eq!(text, "/a/b\n3\n1700000000\n---\n/c\n12\n-5\nsea\n---\n");
    assert_eq!(render_records(&Vec::new()), "");
}

#[test]
fn records_are_read_block_by_block() {
    let read = parse_records("/a/b\n3\n1700000000\n---\n/c\n12\n-5\nsea\n---\n").unwrap();
    assert!(same(&read, &vec![entry("/a/b", 3, 1700000000, ""), entry("/c", 12, -5, "sea")]));
}

#[test]
fn what_is_written_reads_back() {
    let all = vec![
        entry("/home/u/proj", 5, 1_699_999_940, "p"),
        entry("/tmp", 1, 0, ""),
        entry("/größe/ü", i64::MAX, i64::MIN, "ä"),
    ];
    let read = parse_records(&render_records(&all)).unwrap();
    assert!(same(&read, &all));
    assert!(Registry::from_entries(read).is_ok());
}

#[test]
fn an_empty_or_blank_text_holds_no_record() {
    assert!(parse_records("").unwrap().is_empty());
    assert!(parse_records("\n \n").unwrap().is_empty());
    assert!(parse_records("---\n---\n").unwrap().is_empty());
}

#[test]
fn a_fifth_line_is_no_alias() {
    let read = parse_records("/a\n1\n2\n3.5\nname\n---\n").unwrap();
    assert!(same(&read, &vec![entry("/a", 1, 2, "")]));
}

#[test]
fn a_broken_block_is_refused() {
    assert!(parse_records("/a\n1\n---\n").is_none());
    assert!(parse_records("/a\none\n2\n---\n").is_none());
    assert!(parse_records("/a\n1\n2.0\n---\n").is_none());
    assert!(parse_records("/a\n1\n2\n---\n/b\n").is_none());
    assert!(parse_records("/a\n1\n99999999999999999999\n---\n").is_none());
}
