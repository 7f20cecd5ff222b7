//! Lines for the terminal: numbered lists of directories, and messages.

use vstd::prelude::*;
use vstd::string::*;
use crate::colors::formatted;
use crate::entry::DirectoryEntry;
use crate::text::{render_u64, rendered_u64, replace_text, replaced};

verus! {

/// `path` with `~` in place of the home directory and `>` in place of the
/// user's media directory.
pub open spec fn compacted(path: Seq<char>, home: Seq<char>, user: Seq<char>) -> Seq<char> {
    replaced(
        replaced(replaced(path, home, "~"@), "/run/media/"@ + user, ">"@),
        "/media/"@ + user,
        ">"@,
    )
}

/// `path` with `~` in place of the home directory and `>` in place of the
/// user's media directory.
pub fn compact_path(path: &str, home: &str, user: &str) -> (short: String)
    ensures
        short@ == compacted(path@, home@, user@),
{
    let mut run_media = String::from_str("/run/media/");
    run_media.append(user);
    let mut media = String::from_str("/media/");
    media.append(user);
    let first = replace_text(path, home, "~");
    let second = replace_text(first.as_str(), run_media.as_str(), ">");
    replace_text(second.as_str(), media.as_str(), ">")
}

/// The line of a list for the item of this number: the number in bold, the
/// alias and a colon where there is one, the path in bold blue, and the
/// number again.
pub open spec fn list_line_of(
    theme: Seq<char>,
    number: u64,
    alias: Seq<char>,
    shown: Seq<char>,
) -> Seq<char> {
    formatted(theme, "bold"@, ""@, rendered_u64(number)) + ") "@ + (if alias.len() > 0 {
        alias + ":"@
    } else {
        Seq::empty()
    }) + formatted(theme, "bold"@, "blue"@, shown) + " "@ + rendered_u64(number)
}

/// The line of a list for the item of this number.
pub fn list_line(theme: &str, number: u64, alias: &str, shown: &str) -> (line: String)
    ensures
        line@ == list_line_of(theme@, number, alias@, shown@),
{
    let digits = render_u64(number);
    let mut line = crate::colors::format(theme, "bold", "", digits.as_str());
    line.append(") ");
    if !alias.is_empty() {
        line.append(alias);
        line.append(":");
    }
    line.append(crate::colors::format(theme, "bold", "blue", shown).as_str());
    line.append(" ");
    line.append(digits.as_str());
    line
}

/// How many items a list shows of `count`, where it numbers them from
/// `start` and stops behind the number `limit`; at least one where there is
/// one.
pub open spec fn lines_shown(count: int, limit: int, start: int) -> int {
    if count <= limit - start + 1 {
        count
    } else if limit - start + 1 >= 1 {
        limit - start + 1
    } else if count >= 1 {
        1
    } else {
        0
    }
}

/// How the list is shown.
pub struct ListStyle<'a> {
    /// Colour theme.
    pub theme: &'a str,
    /// Whether paths are abbreviated.
    pub compact_paths: bool,
    /// The home directory, for the abbreviation.
    pub home: &'a str,
    /// The user's name, for the abbreviation.
    pub user: &'a str,
}

/// The path that a list shows for a record.
pub open spec fn shown_path(style: ListStyle, path: Seq<char>) -> Seq<char> {
    if style.compact_paths {
        compacted(path, style.home@, style.user@)
    } else {
        path
    }
}

/// The lines of a list of `entries`, numbered from `start`, up to the
/// number `limit`.
pub fn list_lines(style: &ListStyle, entries: &Vec<DirectoryEntry>, limit: usize, start: usize) -> (lines:
    Vec<String>)
    requires
        entries.len() + start <= u64::MAX,
    ensures
        lines@.len() == lines_shown(entries.len() as int, limit as int, start as int),
        forall|i: int|
            0 <= i < lines@.len() ==> (#[trigger] lines@[i])@ == list_line_of(
                style.theme@,
                (i + start) as u64,
                entries@[i].alias@,
                shown_path(*style, entries@[i].path@),
            ),
{
    let mut lines: Vec<String> = Vec::new();
    let mut i: usize = 0;
    while i < entries.len()
        invariant
            i <= entries.len(),
            entries.len() + start <= u64::MAX,
            lines@.len() == i,
            i == 0 || (limit >= start && i <= limit - start),
            forall|k: int|
                0 <= k < i ==> (#[trigger] lines@[k])@ == list_line_of(
                    style.theme@,
                    (k + start) as u64,
                    entries@[k].alias@,
                    shown_path(*style, entries@[k].path@),
                ),
        decreases entries.len() - i,
    {
        let e = &entries[i];
        let shown: String = if style.compact_paths {
            compact_path(e.path.as_str(), style.home, style.user)
        } else {
            e.path.clone()
        };
        let number: u64 = (i as u64) + (start as u64);
        lines.push(list_line(style.theme, number, e.alias.as_str(), shown.as_str()));
        if limit < start || i >= limit - start {
            return lines;
        }
        i += 1;
    }
    lines
}

/// The line that reports an error: the message in bold magenta, then a
/// colon where details follow, a blank and the details.
pub open spec fn error_line_of(theme: Seq<char>, message: Seq<char>, details: Seq<char>) -> Seq<
    char,
> {
    formatted(theme, "bold"@, "magenta"@, message) + (if details.len() > 0 {
        ":"@
    } else {
        Seq::empty()
    }) + " "@ + details
}

/// The line that reports an error.
pub fn error_line(theme: &str, message: &str, details: &str) -> (line: String)
    ensures
        line@ == error_line_of(theme@, message@, details@),
{
    let mut line = crate::colors::format(theme, "bold", "magenta", message);
    if !details.is_empty() {
        line.append(":");
    }
    line.append(" ");
    line.append(details);
    line
}

/// The line that reports what was done: the message in bold green, a colon,
/// a blank and the details.
pub open spec fn report_line_of(theme: Seq<char>, message: Seq<char>, details: Seq<char>) -> Seq<
    char,
> {
    formatted(theme, "bold"@, "green"@, message) + ": "@ + details
}

/// The line that reports what was done.
pub fn report_line(theme: &str, message: &str, details: &str) -> (line: String)
    ensures
        line@ == report_line_of(theme@, message@, details@),
{
    let mut line = crate::colors::format(theme, "bold", "green", message);
    line.append(": ");
    line.append(details);
    line
}

} // verus!
