//! Choosing from a numbered list: what the typed line selects.

use vstd::prelude::*;
use vstd::string::*;
use crate::pattern::char_views;
use crate::text::{chars_of, parse_u64, parsed_u64, same_text, split_chars, split_on, string_of};

verus! {

/// The typed line selects nothing of the list.
#[derive(Debug, Clone)]
pub struct SelectionError;

/// The number that `text` denotes, if it denotes one that fits.
pub open spec fn typed_number(text: Seq<char>) -> Option<usize> {
    match parsed_u64(text) {
        Some(n) => if n <= usize::MAX {
            Some(n as usize)
        } else {
            None
        },
        None => None,
    }
}

/// What `parsed` selects from a list of `count` items that are numbered
/// from `start`: the place of the item, counted from zero.
pub open spec fn numbered_choice(parsed: Option<usize>, count: int, start: int) -> Option<usize> {
    match parsed {
        Some(n) => if start <= n < start + count {
            Some((n - start) as usize)
        } else {
            None
        },
        None => None,
    }
}

/// The number that `text` denotes, if it denotes one that fits.
pub fn read_number(text: &str) -> (number: Option<usize>)
    ensures
        number == typed_number(text@),
{
    match parse_u64(text) {
        Some(n) => {
            if n <= usize::MAX as u64 {
                Some(n as usize)
            } else {
                None
            }
        },
        None => None,
    }
}

/// What a parsed number selects from a list of `count` items numbered from
/// `start`: the place of the item, counted from zero, or an error where
/// there is no number or no item of that number.
pub fn choose_numbered(parsed: Option<usize>, count: usize, start: usize) -> (chosen: Result<
    usize,
    SelectionError,
>)
    ensures
        match chosen {
            Ok(place) => numbered_choice(parsed, count as int, start as int) == Some(place),
            Err(_) => numbered_choice(parsed, count as int, start as int) is None,
        },
        chosen matches Ok(place) ==> place < count,
{
    match parsed {
        Some(n) => {
            if n >= start && n - start < count {
                Ok(n - start)
            } else {
                Err(SelectionError)
            }
        },
        None => Err(SelectionError),
    }
}

/// What the typed line selects from a list of `count` items numbered from
/// `start`.
pub fn select_numbered(line: &str, count: usize, start: usize) -> (chosen: Result<
    usize,
    SelectionError,
>)
    ensures
        match chosen {
            Ok(place) => numbered_choice(typed_number(line@), count as int, start as int) == Some(
                place,
            ),
            Err(_) => numbered_choice(typed_number(line@), count as int, start as int) is None,
        },
        chosen matches Ok(place) ==> place < count,
{
    choose_numbered(read_number(line), count, start)
}

/// What the typed number selects from a list of `max_num` items numbered
/// from one: the number itself, or an error where it is not a number of the
/// list.
pub fn parse_and_validate_dir_number(selected_dir: &str, max_num: usize) -> (chosen: Result<
    usize,
    SelectionError,
>)
    ensures
        match chosen {
            Ok(number) => {
                &&& 1 <= number <= max_num
                &&& numbered_choice(typed_number(selected_dir@), max_num as int, 1) == Some(
                    (number - 1) as usize,
                )
            },
            Err(_) => numbered_choice(typed_number(selected_dir@), max_num as int, 1) is None,
        },
{
    match select_numbered(selected_dir, max_num, 1) {
        Ok(place) => Ok(place + 1),
        Err(e) => Err(e),
    }
}

/// The number of pages that `count` items fill, `page_size` to a page.
pub open spec fn page_count(count: int, page_size: int) -> int {
    (count + page_size - 1) / page_size
}

/// The number of pages that `count` items fill, `page_size` to a page.
pub fn number_of_pages(count: usize, page_size: usize) -> (pages: usize)
    requires
        page_size > 0,
    ensures
        pages == page_count(count as int, page_size as int),
{
    let full: usize = count / page_size;
    let rest: usize = count % page_size;
    proof {
        lemma_page_count(count as int, page_size as int);
    }
    if rest == 0 {
        full
    } else {
        full + 1
    }
}

/// The number of pages is the number of full pages, and one more where
/// items are left over.
proof fn lemma_page_count(count: int, page_size: int)
    requires
        count >= 0,
        page_size > 0,
    ensures
        page_count(count, page_size) == if count % page_size == 0 {
            count / page_size
        } else {
            count / page_size + 1
        },
        count / page_size <= count,
        count % page_size != 0 ==> count / page_size < count,
{
    let q = count / page_size;
    let r = count % page_size;
    vstd::arithmetic::div_mod::lemma_fundamental_div_mod(count, page_size);
    assert(count == page_size * q + r);
    vstd::arithmetic::div_mod::lemma_div_pos_is_pos(count, page_size);
    assert(q <= count) by (nonlinear_arith)
        requires
            count == page_size * q + r,
            page_size >= 1,
            r >= 0,
            q >= 0,
    ;
    if r != 0 {
        assert(q < count) by (nonlinear_arith)
            requires
                count == page_size * q + r,
                page_size >= 1,
                r > 0,
                q >= 0,
        ;
    }
    assert(page_size * q == q * page_size) by (nonlinear_arith);
    assert((q + 1) * page_size == q * page_size + page_size) by (nonlinear_arith);
    if r == 0 {
        vstd::arithmetic::div_mod::lemma_fundamental_div_mod_converse(
            count + page_size - 1,
            page_size,
            q,
            page_size - 1,
        );
    } else {
        vstd::arithmetic::div_mod::lemma_fundamental_div_mod_converse(
            count + page_size - 1,
            page_size,
            q + 1,
            r - 1,
        );
    }
}

/// Where the user stands in a list that is shown page by page.
#[derive(Clone, Copy, Debug, PartialEq, Eq, Structural)]
pub struct Pager {
    /// The page shown, counted from zero.
    pub page: usize,
    /// The place, in the whole list, of the first item shown.
    pub first: usize,
}

/// What a typed line does to a paged list.
#[derive(Clone, Copy, Debug, PartialEq, Eq, Structural)]
pub enum PagerStep {
    /// Show the list from this position.
    Turn(Pager),
    /// The item at this place of the whole list was chosen.
    Chosen(usize),
    /// The line selects nothing.
    Invalid,
}

/// The position after a turn of the page: the next page, or the first one
/// again where the list ends.
pub open spec fn turned(pager: Pager, count: int, page_size: int) -> Pager {
    if (pager.page + 1) * page_size >= count || (pager.page + 1) * page_size > usize::MAX {
        Pager { page: 0, first: 0 }
    } else {
        Pager { page: (pager.page + 1) as usize, first: ((pager.page + 1) * page_size) as usize }
    }
}

/// The line that asks for the next page.
pub open spec fn turn_request() -> Seq<char> {
    seq!['e']
}

/// What `line` does to a list of `count` items shown from `pager.first`,
/// `page_size` to a page: `e` turns the page; a number selects among the
/// items from `pager.first` on, numbered from one.
pub open spec fn pager_outcome(line: Seq<char>, pager: Pager, count: int, page_size: int) -> PagerStep {
    if line == turn_request() {
        PagerStep::Turn(turned(pager, count, page_size))
    } else {
        match numbered_choice(typed_number(line), count - pager.first, 1) {
            Some(place) => PagerStep::Chosen((pager.first + place) as usize),
            None => PagerStep::Invalid,
        }
    }
}

/// The position after a turn of the page.
pub fn turn_page(pager: Pager, count: usize, page_size: usize) -> (next: Pager)
    requires
        page_size > 0,
    ensures
        next == turned(pager, count as int, page_size as int),
        count > 0 ==> next.first < count,
        count == 0 ==> next.first == 0,
{
    if pager.page == usize::MAX {
        assert((pager.page + 1) * page_size >= count || (pager.page + 1) * page_size > usize::MAX)
            by (nonlinear_arith)
            requires
                pager.page + 1 > usize::MAX,
                page_size >= 1,
        ;
        return Pager { page: 0, first: 0 };
    }
    let page: usize = pager.page + 1;
    match page.checked_mul(page_size) {
        Some(first) => {
            if first >= count {
                Pager { page: 0, first: 0 }
            } else {
                Pager { page, first }
            }
        },
        None => Pager { page: 0, first: 0 },
    }
}

/// What the typed line does to a list of `count` items shown from
/// `pager.first`, `page_size` to a page.
pub fn pager_step(line: &str, pager: Pager, count: usize, page_size: usize) -> (step: PagerStep)
    requires
        page_size > 0,
        pager.first <= count,
    ensures
        step == pager_outcome(line@, pager, count as int, page_size as int),
        step matches PagerStep::Chosen(place) ==> place < count,
{
    proof {
        reveal_strlit("e");
        assert("e"@ =~= turn_request());
    }
    if same_text(line, "e") {
        PagerStep::Turn(turn_page(pager, count, page_size))
    } else {
        match select_numbered(line, count - pager.first, 1) {
            Ok(place) => PagerStep::Chosen(pager.first + place),
            Err(_) => PagerStep::Invalid,
        }
    }
}

/// What each of the numbers of `line`, which a blank separates, selects
/// from a list of `count` items numbered from one.
pub open spec fn numbered_choices(line: Seq<char>, count: int) -> Seq<Option<usize>> {
    Seq::new(
        split_on(line, ' ').len(),
        |i: int| numbered_choice(typed_number(split_on(line, ' ')[i]), count, 1),
    )
}

/// The places that the numbers of `line`, which a blank separates, select
/// from a list of `count` items numbered from one, in the order typed; an
/// error where one of them selects nothing.
pub fn select_many(line: &str, count: usize) -> (chosen: Result<Vec<usize>, SelectionError>)
    ensures
        match chosen {
            Ok(places) => {
                &&& places@.len() == numbered_choices(line@, count as int).len()
                &&& forall|i: int|
                    0 <= i < places@.len() ==> numbered_choices(line@, count as int)[i] == Some(
                        #[trigger] places@[i],
                    )
                &&& forall|i: int| 0 <= i < places@.len() ==> (#[trigger] places@[i]) < count
            },
            Err(_) => exists|i: int|
                0 <= i < numbered_choices(line@, count as int).len() && (#[trigger] numbered_choices(
                    line@,
                    count as int,
                )[i]) is None,
        },
{
    let text = chars_of(line);
    let pieces = split_chars(&text, ' ');
    let ghost all = numbered_choices(line@, count as int);
    let mut places: Vec<usize> = Vec::new();
    let mut i: usize = 0;
    while i < pieces.len()
        invariant
            i <= pieces.len(),
            char_views(pieces@) == split_on(line@, ' '),
            all == numbered_choices(line@, count as int),
            places@.len() == i,
            forall|j: int| 0 <= j < i ==> all[j] == Some(#[trigger] places@[j]),
            forall|j: int| 0 <= j < i ==> (#[trigger] places@[j]) < count,
        decreases pieces.len() - i,
    {
        let piece = string_of(&pieces[i]);
        assert(piece@ == split_on(line@, ' ')[i as int]) by {
            assert(char_views(pieces@)[i as int] == pieces@[i as int]@);
        }
        match select_numbered(piece.as_str(), count, 1) {
            Ok(place) => {
                places.push(place);
            },
            Err(e) => {
                assert(all[i as int] is None);
                return Err(e);
            },
        }
        i += 1;
    }
    Ok(places)
}

} // verus!
