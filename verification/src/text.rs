//! Text: strings as sequences of characters, split and compared in verified
//! code, and the few functions of the standard library that are taken on
//! trust.
//!
//! What is trusted stands behind a private function each, with a doc
//! comment that says so: reading and writing numbers, trimming, and
//! replacing. Their results are given names; nothing more is claimed of
//! them.

use vstd::prelude::*;
use vstd::std_specs::iter::IteratorSpec;
use crate::pattern::{char_views, find_term, occurs_at};

verus! {

/// Trusted of `String::push`: it appends the character to the end of the
/// string and changes nothing before it.
pub assume_specification[ std::string::String::push ](s: &mut std::string::String, ch: char)
    ensures
        final(s)@ == old(s)@.push(ch),
;

/// The characters of `s`, in order.
pub fn chars_of(s: &str) -> (chars: Vec<char>)
    ensures
        chars@ == s@,
{
    let mut chars: Vec<char> = Vec::new();
    for c in it: s.chars()
        invariant
            it.seq() == s@,
            chars@ == it.seq().take(it.index() as int),
    {
        chars.push(c);
    }
    chars
}

/// The string made of `chars`, in order.
pub fn string_of(chars: &Vec<char>) -> (s: String)
    ensures
        s@ == chars@,
{
    let mut s = String::new();
    let mut i: usize = 0;
    while i < chars.len()
        invariant
            i <= chars.len(),
            s@ == chars@.take(i as int),
        decreases chars.len() - i,
    {
        s.push(chars[i]);
        assert(chars@.take(i + 1) =~= chars@.take(i as int).push(chars@[i as int]));
        i += 1;
    }
    assert(chars@.take(chars.len() as int) =~= chars@);
    s
}

/// Whether two strings hold the same characters.
pub fn same_text(a: &str, b: &str) -> (same: bool)
    ensures
        same == (a@ == b@),
{
    let left: String = a.to_owned();
    let right: String = b.to_owned();
    left == right
}

/// What `str::parse::<u64>` returns for `text`: the number that it
/// denotes, and `None` where it denotes none that fits.
pub uninterp spec fn parsed_u64(text: Seq<char>) -> Option<u64>;

/// What `str::parse::<i64>` returns for `text`: the number that it
/// denotes, and `None` where it denotes none that fits.
pub uninterp spec fn parsed_i64(text: Seq<char>) -> Option<i64>;

/// The text that `i64::to_string` returns for `number`.
pub uninterp spec fn rendered_i64(number: i64) -> Seq<char>;

/// The text that `u64::to_string` returns for `number`.
pub uninterp spec fn rendered_u64(number: u64) -> Seq<char>;

/// What `str::trim` returns for `text`: the text without the whitespace at
/// its two ends.
pub uninterp spec fn trimmed(text: Seq<char>) -> Seq<char>;

/// What `str::replace` returns for `text`: the text with `to` in place of
/// each match of `from`.
pub uninterp spec fn replaced(text: Seq<char>, from: Seq<char>, to: Seq<char>) -> Seq<char>;

/// Calls `str::parse::<u64>`; its error becomes `None`. The contract gives
/// the result its name and claims nothing else.
#[verifier::external_body]
pub(crate) fn parse_u64(text: &str) -> (number: Option<u64>)
    ensures
        number == parsed_u64(text@),
{
    match text.parse::<u64>() {
        Ok(n) => Some(n),
        Err(_) => None,
    }
}

/// Calls `str::parse::<i64>`; its error becomes `None`. The contract gives
/// the result its name and claims nothing else.
#[verifier::external_body]
pub(crate) fn parse_i64(text: &str) -> (number: Option<i64>)
    ensures
        number == parsed_i64(text@),
{
    match text.parse::<i64>() {
        Ok(n) => Some(n),
        Err(_) => None,
    }
}

/// Calls `i64::to_string`. The contract gives the result its name and claims
/// nothing else.
#[verifier::external_body]
pub(crate) fn render_i64(number: i64) -> (text: String)
    ensures
        text@ == rendered_i64(number),
{
    number.to_string()
}

/// Calls `u64::to_string`. The contract gives the result its name and claims
/// nothing else.
#[verifier::external_body]
pub(crate) fn render_u64(number: u64) -> (text: String)
    ensures
        text@ == rendered_u64(number),
{
    number.to_string()
}

/// Calls `str::trim`. The contract gives the result its name and claims
/// nothing else.
#[verifier::external_body]
pub(crate) fn trim_text(text: &str) -> (inner: String)
    ensures
        inner@ == trimmed(text@),
{
    text.trim().to_owned()
}

/// Calls `str::replace`. The contract gives the result its name and claims
/// nothing else.
#[verifier::external_body]
pub(crate) fn replace_text(text: &str, from: &str, to: &str) -> (changed: String)
    ensures
        changed@ == replaced(text@, from@, to@),
{
    text.replace(from, to)
}

/// The pieces of `text` between the places where `separator` stands.
pub open spec fn split_on(text: Seq<char>, separator: char) -> Seq<Seq<char>>
    decreases text.len(),
{
    if text.len() == 0 {
        seq![Seq::empty()]
    } else {
        let head = split_on(text.drop_last(), separator);
        if text.last() == separator {
            head.push(Seq::empty())
        } else {
            head.drop_last().push(head.last().push(text.last()))
        }
    }
}

/// The pieces of `text` between the places where `separator` stands.
pub fn split_chars(text: &Vec<char>, separator: char) -> (pieces: Vec<Vec<char>>)
    ensures
        pieces@.len() >= 1,
        char_views(pieces@) == split_on(text@, separator),
{
    let mut pieces: Vec<Vec<char>> = Vec::new();
    let mut current: Vec<char> = Vec::new();
    let mut i: usize = 0;
    assert(text@.take(0) =~= Seq::<char>::empty());
    assert(char_views(pieces@).push(current@) =~= split_on(
        text@.take(0),
        separator,
    ));
    while i < text.len()
        invariant
            i <= text.len(),
            char_views(pieces@).push(current@) == split_on(
                text@.take(i as int),
                separator,
            ),
        decreases text.len() - i,
    {
        proof {
            assert(text@.take(i + 1).drop_last() =~= text@.take(i as int));
            assert(text@.take(i + 1).last() == text@[i as int]);
        }
        let ghost before = char_views(pieces@).push(current@);
        if text[i] == separator {
            let ghost prior = pieces@;
            pieces.push(current);
            current = Vec::new();
            assert(char_views(pieces@) =~= before);
        } else {
            let ghost prior = current@;
            current.push(text[i]);
            assert(before.drop_last() =~= char_views(pieces@));
            assert(before.last() == prior);
        }
        assert(char_views(pieces@).push(current@) =~= split_on(
            text@.take(i + 1),
            separator,
        ));
        i += 1;
    }
    assert(text@.take(text.len() as int) =~= text@);
    let ghost head = char_views(pieces@);
    pieces.push(current);
    assert(char_views(pieces@) =~= head.push(current@));
    pieces
}

/// `term` stands in `text` at `at` and nowhere before.
pub open spec fn is_first_place(text: Seq<char>, term: Seq<char>, at: int) -> bool {
    &&& occurs_at(text, term, at)
    &&& forall|k: int| 0 <= k < at ==> !occurs_at(text, term, k)
}

/// The first place where `term` stands in `text`, if it stands anywhere.
pub open spec fn first_place(text: Seq<char>, term: Seq<char>) -> Option<int> {
    if exists|at: int| is_first_place(text, term, at) {
        Some(choose|at: int| is_first_place(text, term, at))
    } else {
        None
    }
}

/// The pieces of `text` between the matches of `separator`, which are taken
/// from the left and do not overlap. An empty separator splits nothing.
pub open spec fn split_by(text: Seq<char>, separator: Seq<char>) -> Seq<Seq<char>>
    decreases text.len(),
{
    match first_place(text, separator) {
        Some(at) => if separator.len() > 0 && 0 <= at && at + separator.len() <= text.len() {
            seq![text.take(at)] + split_by(text.skip(at + separator.len()), separator)
        } else {
            seq![text]
        },
        None => seq![text],
    }
}

/// The first place of a term is the only one with its two properties.
pub proof fn lemma_first_place(text: Seq<char>, term: Seq<char>, at: int)
    requires
        is_first_place(text, term, at),
    ensures
        first_place(text, term) == Some(at),
{
    let other = choose|other: int| is_first_place(text, term, other);
    if other < at {
        assert(!occurs_at(text, term, other));
    } else if at < other {
        assert(!occurs_at(text, term, at));
    }
}

/// A term that stands nowhere has no first place.
pub proof fn lemma_no_place(text: Seq<char>, term: Seq<char>)
    requires
        forall|k: int| 0 <= k ==> !occurs_at(text, term, k),
    ensures
        first_place(text, term) is None,
{
    if exists|at: int| is_first_place(text, term, at) {
        let at = choose|at: int| is_first_place(text, term, at);
        assert(occurs_at(text, term, at));
    }
}

/// The pieces of `text` between the matches of `separator`.
pub fn split_text(text: &Vec<char>, separator: &Vec<char>) -> (pieces: Vec<Vec<char>>)
    requires
        separator@.len() > 0,
    ensures
        pieces@.len() >= 1,
        char_views(pieces@) == split_by(text@, separator@),
{
    let mut pieces: Vec<Vec<char>> = Vec::new();
    let mut from: usize = 0;
    assert(text@.skip(0) =~= text@);
    assert(char_views(pieces@) + split_by(text@.skip(0), separator@) =~= split_by(
        text@,
        separator@,
    ));
    loop
        invariant
            from <= text.len(),
            separator@.len() > 0,
            char_views(pieces@) + split_by(text@.skip(from as int), separator@) == split_by(
                text@,
                separator@,
            ),
        decreases text.len() - from,
    {
        let ghost rest = text@.skip(from as int);
        let ghost done = char_views(pieces@);
        match find_term(text, separator, from) {
            Some(at) => {
                let mut piece: Vec<char> = Vec::new();
                let mut k: usize = from;
                while k < at
                    invariant
                        from <= k <= at <= text.len(),
                        piece@ == text@.subrange(from as int, k as int),
                    decreases at - k,
                {
                    piece.push(text[k]);
                    assert(text@.subrange(from as int, k + 1) =~= text@.subrange(
                        from as int,
                        k as int,
                    ).push(text@[k as int]));
                    k += 1;
                }
                proof {
                    let local = at - from;
                    assert forall|j: int| 0 <= j implies occurs_at(rest, separator@, j) == occurs_at(
                        text@,
                        separator@,
                        from + j,
                    ) by {
                        if j + separator@.len() <= rest.len() {
                            assert(rest.subrange(j, j + separator@.len()) =~= text@.subrange(
                                from + j,
                                from + j + separator@.len(),
                            ));
                        }
                    }
                    assert(is_first_place(rest, separator@, local));
                    lemma_first_place(rest, separator@, local);
                    assert(rest.take(local) =~= piece@);
                    assert(rest.skip(local + separator@.len()) =~= text@.skip(
                        at + separator@.len(),
                    ));
                }
                pieces.push(piece);
                assert(char_views(pieces@) =~= done.push(piece@));
                assert(done + (seq![piece@] + split_by(
                    text@.skip(at + separator@.len()),
                    separator@,
                )) =~= done.push(piece@) + split_by(text@.skip(at + separator@.len()), separator@));
                from = at + separator.len();
            },
            None => {
                let mut piece: Vec<char> = Vec::new();
                let mut k: usize = from;
                while k < text.len()
                    invariant
                        from <= k <= text.len(),
                        piece@ == text@.subrange(from as int, k as int),
                    decreases text.len() - k,
                {
                    piece.push(text[k]);
                    assert(text@.subrange(from as int, k + 1) =~= text@.subrange(
                        from as int,
                        k as int,
                    ).push(text@[k as int]));
                    k += 1;
                }
                proof {
                    assert forall|j: int| 0 <= j implies !occurs_at(rest, separator@, j) by {
                        if j + separator@.len() <= rest.len() {
                            assert(rest.subrange(j, j + separator@.len()) =~= text@.subrange(
                                from + j,
                                from + j + separator@.len(),
                            ));
                            assert(!occurs_at(text@, separator@, from + j));
                        }
                    }
                    lemma_no_place(rest, separator@);
                    assert(rest =~= piece@);
                }
                pieces.push(piece);
                assert(char_views(pieces@) =~= done.push(piece@));
                assert(done + seq![piece@] =~= done.push(piece@));
                return pieces;
            },
        }
    }
}

} // verus!
