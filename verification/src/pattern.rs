//! Matching a path against search terms: the terms must occur in the path
//! one after the other, in the order given, without overlapping.

use vstd::prelude::*;
use crate::text::chars_of;

verus! {

/// `term` stands in `text` at position `at`.
pub open spec fn occurs_at(text: Seq<char>, term: Seq<char>, at: int) -> bool {
    &&& 0 <= at
    &&& at + term.len() <= text.len()
    &&& text.subrange(at, at + term.len()) == term
}

/// The terms occur in `text` in order, the first of them at or after `start`
/// and each one after the end of the one before.
pub open spec fn matches_from(text: Seq<char>, terms: Seq<Seq<char>>, start: int) -> bool
    decreases terms.len(),
{
    terms.len() == 0 || exists|at: int|
        start <= at && #[trigger] occurs_at(text, terms.first(), at) && matches_from(
            text,
            terms.drop_first(),
            at + terms.first().len(),
        )
}

/// The terms occur in `text` in order. No term at all matches every text.
pub open spec fn matches_terms(text: Seq<char>, terms: Seq<Seq<char>>) -> bool {
    matches_from(text, terms, 0)
}

/// The characters of each term.
pub open spec fn term_views(terms: Seq<String>) -> Seq<Seq<char>> {
    Seq::new(terms.len(), |i: int| terms[i]@)
}

/// The characters of each term.
pub open spec fn char_views(terms: Seq<Vec<char>>) -> Seq<Seq<char>> {
    Seq::new(terms.len(), |i: int| terms[i]@)
}

/// A match that may start later may also start earlier.
pub proof fn lemma_matches_from_earlier(
    text: Seq<char>,
    terms: Seq<Seq<char>>,
    earlier: int,
    later: int,
)
    requires
        earlier <= later,
        matches_from(text, terms, later),
    ensures
        matches_from(text, terms, earlier),
{
    if terms.len() > 0 {
        let at = choose|at: int|
            later <= at && #[trigger] occurs_at(text, terms.first(), at) && matches_from(
                text,
                terms.drop_first(),
                at + terms.first().len(),
            );
        assert(earlier <= at && occurs_at(text, terms.first(), at) && matches_from(
            text,
            terms.drop_first(),
            at + terms.first().len(),
        ));
    }
}

/// Taking the first place where the first term occurs loses no match.
pub proof fn lemma_first_occurrence_suffices(
    text: Seq<char>,
    terms: Seq<Seq<char>>,
    start: int,
    first: int,
)
    requires
        terms.len() > 0,
        start <= first,
        occurs_at(text, terms.first(), first),
        forall|k: int| start <= k < first ==> !occurs_at(text, terms.first(), k),
    ensures
        matches_from(text, terms, start) == matches_from(
            text,
            terms.drop_first(),
            first + terms.first().len(),
        ),
{
    let rest = terms.drop_first();
    let len = terms.first().len();
    if matches_from(text, terms, start) {
        let at = choose|at: int|
            start <= at && #[trigger] occurs_at(text, terms.first(), at) && matches_from(
                text,
                rest,
                at + len,
            );
        lemma_matches_from_earlier(text, rest, first + len, at + len);
    }
}

/// Whether `term` stands in `text` at position `at`.
pub fn term_at(text: &Vec<char>, term: &Vec<char>, at: usize) -> (found: bool)
    ensures
        found == occurs_at(text@, term@, at as int),
{
    if term.len() > text.len() || at > text.len() - term.len() {
        return false;
    }
    let mut k: usize = 0;
    while k < term.len()
        invariant
            k <= term.len(),
            at + term.len() <= text.len(),
            forall|j: int| 0 <= j < k ==> text@[at + j] == term@[j],
        decreases term.len() - k,
    {
        if text[at + k] != term[k] {
            proof {
                let part = text@.subrange(at as int, at + term.len());
                assert(part[k as int] == text@[at + k]);
            }
            return false;
        }
        k += 1;
    }
    assert(text@.subrange(at as int, at + term.len()) =~= term@);
    true
}

/// The first position at or after `start` where `term` stands in `text`.
pub fn find_term(text: &Vec<char>, term: &Vec<char>, start: usize) -> (place: Option<usize>)
    ensures
        match place {
            Some(at) => {
                &&& start <= at
                &&& occurs_at(text@, term@, at as int)
                &&& forall|k: int| start <= k < at ==> !occurs_at(text@, term@, k)
            },
            None => forall|k: int| start <= k ==> !occurs_at(text@, term@, k),
        },
{
    if term.len() > text.len() {
        return None;
    }
    let last: usize = text.len() - term.len();
    if start > last {
        return None;
    }
    let mut at: usize = start;
    loop
        invariant
            start <= at <= last,
            last == text.len() - term.len(),
            forall|k: int| start <= k < at ==> !occurs_at(text@, term@, k),
        decreases last - at,
    {
        if term_at(text, term, at) {
            return Some(at);
        }
        if at == last {
            return None;
        }
        at += 1;
    }
}

/// Whether the terms occur in `text` in order.
pub fn matches_chars(text: &Vec<char>, terms: &Vec<Vec<char>>) -> (matched: bool)
    ensures
        matched == matches_terms(text@, char_views(terms@)),
{
    let ghost all = char_views(terms@);
    let mut start: usize = 0;
    let mut k: usize = 0;
    assert(all.skip(0) =~= all);
    while k < terms.len()
        invariant
            k <= terms.len(),
            start <= text.len(),
            all == char_views(terms@),
            matches_terms(text@, all) == matches_from(text@, all.skip(k as int), start as int),
        decreases terms.len() - k,
    {
        let ghost rest = all.skip(k as int);
        assert(rest.first() == terms@[k as int]@);
        assert(rest.drop_first() =~= all.skip(k + 1));
        match find_term(text, &terms[k], start) {
            None => {
                return false;
            },
            Some(at) => {
                proof {
                    lemma_first_occurrence_suffices(text@, rest, start as int, at as int);
                }
                start = at + terms[k].len();
            },
        }
        k += 1;
    }
    assert(all.skip(k as int).len() == 0);
    true
}

/// The characters of each term, in the same order.
pub fn term_chars(terms: &Vec<String>) -> (chars: Vec<Vec<char>>)
    ensures
        char_views(chars@) == term_views(terms@),
{
    let mut chars: Vec<Vec<char>> = Vec::new();
    let mut i: usize = 0;
    while i < terms.len()
        invariant
            i <= terms.len(),
            chars.len() == i,
            forall|j: int| 0 <= j < i ==> chars@[j]@ == terms@[j]@,
        decreases terms.len() - i,
    {
        chars.push(chars_of(terms[i].as_str()));
        i += 1;
    }
    assert(char_views(chars@) =~= term_views(terms@));
    chars
}

/// Whether the terms occur in `path` in order.
pub fn path_matches(path: &str, terms: &Vec<String>) -> (matched: bool)
    ensures
        matched == matches_terms(path@, term_views(terms@)),
{
    let text = chars_of(path);
    let chars = term_chars(terms);
    matches_chars(&text, &chars)
}

/// The terms one after the other, with `separator` between each two.
pub open spec fn joined(terms: Seq<Seq<char>>, separator: Seq<char>) -> Seq<char>
    decreases terms.len(),
{
    if terms.len() == 0 {
        Seq::empty()
    } else if terms.len() == 1 {
        terms[0]
    } else {
        joined(terms.drop_last(), separator) + separator + terms.last()
    }
}

/// The terms as one pattern for a store that matches with wildcards: a
/// star before, between and behind them; empty where there is no term.
pub open spec fn wildcard_pattern_of(terms: Seq<Seq<char>>) -> Seq<char> {
    if terms.len() == 0 {
        Seq::empty()
    } else {
        seq!['*'] + joined(terms, seq!['*']) + seq!['*']
    }
}

/// The terms as one pattern for a store that matches with wildcards.
pub fn wildcard_pattern(terms: &Vec<String>) -> (pattern: String)
    ensures
        pattern@ == wildcard_pattern_of(term_views(terms@)),
{
    let ghost all = term_views(terms@);
    let ghost star = seq!['*'];
    let mut pattern = String::new();
    if terms.len() == 0 {
        return pattern;
    }
    proof {
        reveal_strlit("*");
        assert("*"@ =~= star);
    }
    pattern.append("*");
    pattern.append(terms[0].as_str());
    let mut i: usize = 1;
    assert(all.take(1) =~= seq![all[0]]);
    assert(pattern@ =~= star + joined(all.take(1), star));
    while i < terms.len()
        invariant
            1 <= i <= terms.len(),
            all == term_views(terms@),
            star == seq!['*'],
            "*"@ == star,
            pattern@ == star + joined(all.take(i as int), star),
        decreases terms.len() - i,
    {
        proof {
            assert(all.take(i + 1).drop_last() =~= all.take(i as int));
            assert(all.take(i + 1).last() == terms@[i as int]@);
        }
        let ghost prior = pattern@;
        pattern.append("*");
        pattern.append(terms[i].as_str());
        assert(pattern@ =~= star + (joined(all.take(i as int), star) + star + terms@[i as int]@));
        i += 1;
    }
    assert(all.take(all.len() as int) =~= all);
    pattern.append("*");
    pattern
}

} // verus!
