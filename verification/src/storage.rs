//! The records as text: one block for each record, closed by a line of
//! three dashes. A block holds the path, the number of visits and the time
//! of the last visit, each on a line of its own, and the alias on a fourth
//! line where the record has one.

use vstd::prelude::*;
use vstd::string::*;
use crate::entry::{views, DirectoryEntry, EntryView};
use crate::pattern::char_views;
use crate::text::{
    chars_of, parse_i64, parsed_i64, render_i64, rendered_i64, split_by, split_chars, split_on,
    split_text, string_of, trim_text, trimmed,
};

verus! {

/// What one block holds: nothing where it is blank, a record where its
/// lines are a path, two numbers and perhaps an alias, and no sense
/// (`None`) otherwise.
pub open spec fn record_of(block: Seq<char>) -> Option<Option<EntryView>> {
    let inner = trimmed(block);
    if inner.len() == 0 {
        Some(None)
    } else {
        let lines = split_on(inner, '\n');
        if lines.len() < 3 {
            None
        } else {
            match (parsed_i64(lines[1]), parsed_i64(lines[2])) {
                (Some(count), Some(last)) => Some(
                    Some(
                        EntryView {
                            path: lines[0],
                            access_count: count as int,
                            last_access: last as int,
                            alias: if lines.len() == 4 {
                                lines[3]
                            } else {
                                Seq::empty()
                            },
                        },
                    ),
                ),
                _ => None,
            }
        }
    }
}

/// The records that the blocks hold, in order; `None` where some block
/// makes no sense.
pub open spec fn records_of(blocks: Seq<Seq<char>>) -> Option<Seq<EntryView>>
    decreases blocks.len(),
{
    if blocks.len() == 0 {
        Some(Seq::empty())
    } else {
        match records_of(blocks.drop_last()) {
            Some(head) => match record_of(blocks.last()) {
                Some(Some(e)) => Some(head.push(e)),
                Some(None) => Some(head),
                None => None,
            },
            None => None,
        }
    }
}

/// The records that a text holds, in order; `None` where some block of it
/// makes no sense.
pub open spec fn stored_records(text: Seq<char>) -> Option<Seq<EntryView>> {
    records_of(split_by(text, "---"@))
}

/// Once a block makes no sense, no longer list of blocks does.
proof fn lemma_records_fail(blocks: Seq<Seq<char>>, at: int)
    requires
        0 <= at < blocks.len(),
        record_of(blocks[at]) is None,
    ensures
        records_of(blocks) is None,
    decreases blocks.len(),
{
    if at < blocks.len() - 1 {
        lemma_records_fail(blocks.drop_last(), at);
    }
}

/// What one block holds.
fn parse_record(block: &Vec<char>) -> (record: Option<Option<DirectoryEntry>>)
    ensures
        match record {
            Some(Some(e)) => record_of(block@) == Some(Some(e@)),
            Some(None) => record_of(block@) == Some(None::<EntryView>),
            None => record_of(block@) is None,
        },
{
    let whole = string_of(block);
    let inner = chars_of(trim_text(whole.as_str()).as_str());
    if inner.len() == 0 {
        return Some(None);
    }
    let lines = split_chars(&inner, '\n');
    if lines.len() < 3 {
        return None;
    }
    proof {
        assert(char_views(lines@)[0] == lines@[0]@);
        assert(char_views(lines@)[1] == lines@[1]@);
        assert(char_views(lines@)[2] == lines@[2]@);
    }
    let count = parse_i64(string_of(&lines[1]).as_str());
    let last = parse_i64(string_of(&lines[2]).as_str());
    match (count, last) {
        (Some(access_count), Some(last_access)) => {
            let alias: String = if lines.len() == 4 {
                assert(char_views(lines@)[3] == lines@[3]@);
                string_of(&lines[3])
            } else {
                String::new()
            };
            Some(Some(DirectoryEntry { path: string_of(&lines[0]), access_count, last_access, alias }))
        },
        _ => None,
    }
}

/// The records that a text holds, in order; `None` where some block of it
/// is neither blank nor a path, a number of visits, a time and perhaps an
/// alias.
pub fn parse_records(text: &str) -> (records: Option<Vec<DirectoryEntry>>)
    ensures
        match records {
            Some(list) => stored_records(text@) == Some(views(list@)),
            None => stored_records(text@) is None,
        },
{
    proof {
        reveal_strlit("---");
    }
    let separator = chars_of("---");
    let blocks = split_text(&chars_of(text), &separator);
    let ghost all = split_by(text@, "---"@);
    let mut records: Vec<DirectoryEntry> = Vec::new();
    let mut i: usize = 0;
    assert(all.take(0) =~= Seq::<Seq<char>>::empty());
    assert(views(records@) =~= Seq::<EntryView>::empty());
    while i < blocks.len()
        invariant
            i <= blocks.len(),
            char_views(blocks@) == all,
            all == split_by(text@, "---"@),
            records_of(all.take(i as int)) == Some(views(records@)),
        decreases blocks.len() - i,
    {
        proof {
            assert(all.take(i + 1).drop_last() =~= all.take(i as int));
            assert(all.take(i + 1).last() == all[i as int]);
            assert(char_views(blocks@)[i as int] == blocks@[i as int]@);
        }
        match parse_record(&blocks[i]) {
            Some(Some(e)) => {
                let ghost prior = records@;
                records.push(e);
                assert(views(records@) =~= views(prior).push(e@));
            },
            Some(None) => {},
            None => {
                proof {
                    lemma_records_fail(all, i as int);
                }
                return None;
            },
        }
        i += 1;
    }
    assert(all.take(all.len() as int) =~= all);
    Some(records)
}

/// The block of one record.
pub open spec fn record_text(e: EntryView) -> Seq<char> {
    e.path + "\n"@ + rendered_i64(e.access_count as i64) + "\n"@ + rendered_i64(
        e.last_access as i64,
    ) + "\n"@ + (if e.alias.len() > 0 {
        e.alias + "\n"@
    } else {
        Seq::empty()
    }) + "---\n"@
}

/// The blocks of the records, one after the other.
pub open spec fn records_text(entries: Seq<EntryView>) -> Seq<char>
    decreases entries.len(),
{
    if entries.len() == 0 {
        Seq::empty()
    } else {
        records_text(entries.drop_last()) + record_text(entries.last())
    }
}

/// The text that holds the records, in order.
pub fn render_records(entries: &Vec<DirectoryEntry>) -> (text: String)
    ensures
        text@ == records_text(views(entries@)),
{
    let ghost all = views(entries@);
    let mut text = String::new();
    let mut i: usize = 0;
    assert(all.take(0) =~= Seq::<EntryView>::empty());
    while i < entries.len()
        invariant
            i <= entries.len(),
            all == views(entries@),
            text@ == records_text(all.take(i as int)),
        decreases entries.len() - i,
    {
        proof {
            assert(all.take(i + 1).drop_last() =~= all.take(i as int));
            assert(all.take(i + 1).last() == all[i as int]);
        }
        let ghost start = text@;
        let e = &entries[i];
        text.append(e.path.as_str());
        text.append("\n");
        text.append(render_i64(e.access_count).as_str());
        text.append("\n");
        text.append(render_i64(e.last_access).as_str());
        text.append("\n");
        if e.has_alias() {
            text.append(e.alias.as_str());
            text.append("\n");
        }
        text.append("---\n");
        assert(text@ =~= start + record_text(all[i as int]));
        i += 1;
    }
    assert(all.take(all.len() as int) =~= all);
    text
}

} // verus!
