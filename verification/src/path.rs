//! Canonical paths: the keys of the registry.
//!
//! A path is made canonical in two steps. First each run of slashes is
//! replaced by one slash; this is the work of the regular-expression crate,
//! which is taken on trust, so that the contracts here speak of its result
//! by name. Then a slash at the end is dropped, unless the slash is the
//! whole path. Making a path absolute needs the file system and is left to
//! the caller.

use vstd::prelude::*;
use vstd::string::*;
use regex::Regex;

verus! {

/// The regular expression for a run of two or more slashes.
pub open spec fn slash_run() -> Seq<char> {
    seq!['/', '(', '/', ')', '+']
}

/// A single slash.
pub open spec fn slash() -> Seq<char> {
    seq!['/']
}

/// What `regex::Regex::replace_all` returns for `haystack` and `replacement`
/// on the expression that `regex::Regex::new` compiles from `pattern`, and
/// `None` where `pattern` does not compile.
pub uninterp spec fn regex_replace_all(
    pattern: Seq<char>,
    haystack: Seq<char>,
    replacement: Seq<char>,
) -> Option<Seq<char>>;

/// Compiles `pattern` with `regex::Regex::new` and, where that succeeds,
/// calls `regex::Regex::replace_all` on the result. Nothing is proved of
/// either; the contract only gives the outcome its name.
#[verifier::external_body]
fn replace_all(pattern: &str, haystack: &str, replacement: &str) -> (replaced: Option<String>)
    ensures
        match replaced {
            Some(text) => regex_replace_all(pattern@, haystack@, replacement@) == Some(text@),
            None => regex_replace_all(pattern@, haystack@, replacement@).is_none(),
        },
{
    match Regex::new(pattern) {
        Ok(re) => Some(re.replace_all(haystack, replacement).into_owned()),
        Err(_) => None,
    }
}

/// What the regular-expression crate makes of `path` when it replaces each
/// match of the expression for a run of slashes by one slash; `path` itself
/// where that expression does not compile.
pub open spec fn collapsed(path: Seq<char>) -> Seq<char> {
    match regex_replace_all(slash_run(), path, slash()) {
        Some(text) => text,
        None => path,
    }
}

/// `path` without the slash at its end, if it has one and is longer than
/// that slash.
pub open spec fn without_trailing_slash(path: Seq<char>) -> Seq<char> {
    if path.len() > 1 && path.last() == '/' {
        path.drop_last()
    } else {
        path
    }
}

/// The canonical form of `path`.
pub open spec fn canonical(path: Seq<char>) -> Seq<char> {
    without_trailing_slash(collapsed(path))
}

/// `path` with one slash in place of each run of slashes, as the
/// regular-expression crate replaces them.
pub fn collapse_slashes(path: &str) -> (text: String)
    ensures
        text@ == collapsed(path@),
{
    proof {
        reveal_strlit("/(/)+");
        reveal_strlit("/");
        assert("/(/)+"@ =~= slash_run());
        assert("/"@ =~= slash());
    }
    match replace_all("/(/)+", path, "/") {
        Some(text) => text,
        None => path.to_owned(),
    }
}

/// `path` without the slash at its end, if it has one and is longer than
/// that slash.
pub fn strip_trailing_slash(path: &str) -> (text: String)
    ensures
        text@ == without_trailing_slash(path@),
{
    let n: usize = path.unicode_len();
    if n > 1 && path.get_char(n - 1) == '/' {
        assert(path@.subrange(0, n - 1) =~= path@.drop_last());
        path.substring_char(0, n - 1).to_owned()
    } else {
        path.to_owned()
    }
}

/// The canonical form of `path`.
pub fn canonicalize(path: &str) -> (text: String)
    ensures
        text@ == canonical(path@),
{
    let collapsed = collapse_slashes(path);
    strip_trailing_slash(collapsed.as_str())
}

} // verus!
