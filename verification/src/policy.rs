//! Choosing among the records that a query found.

use vstd::prelude::*;
use vstd::string::*;
use crate::entry::{views, DirectoryEntry, EntryView};
use crate::text::same_text;

verus! {

/// How one record is chosen where a query found several.
#[derive(Clone, Copy, Debug, PartialEq, Eq, Structural)]
pub enum Policy {
    /// The record with the fewest characters in its path; of several, the
    /// one that ranks highest.
    Shortest,
    /// The record that ranks highest.
    Score,
    /// The user chooses from the list.
    Interactive,
}

/// What to do with the answer to a query.
#[derive(Clone, Copy, Debug, PartialEq, Eq, Structural)]
pub enum Resolution {
    /// The query found nothing.
    NoMatch,
    /// Go to the record at this place of the answer.
    Direct(usize),
    /// Show the answer and let the user choose.
    Ask,
}

/// The place of the record with the shortest path; of several such, the
/// first.
pub open spec fn shortest_index(matches: Seq<EntryView>) -> int
    decreases matches.len(),
{
    if matches.len() <= 1 {
        0
    } else {
        let best = shortest_index(matches.drop_last());
        if matches.last().path.len() < matches[best].path.len() {
            matches.len() - 1
        } else {
            best
        }
    }
}

/// What to do with an answer under a policy. A single match is taken
/// whatever the policy.
pub open spec fn resolution(matches: Seq<EntryView>, policy: Policy) -> Resolution {
    if matches.len() == 0 {
        Resolution::NoMatch
    } else if matches.len() == 1 {
        Resolution::Direct(0)
    } else {
        match policy {
            Policy::Score => Resolution::Direct(0),
            Policy::Shortest => Resolution::Direct(shortest_index(matches) as usize),
            Policy::Interactive => Resolution::Ask,
        }
    }
}

/// The policy that a name of the configuration stands for. Every name but
/// `shortest` and `score` leaves the choice to the user.
pub open spec fn policy_named(name: Seq<char>) -> Policy {
    if name == seq!['s', 'h', 'o', 'r', 't', 'e', 's', 't'] {
        Policy::Shortest
    } else if name == seq!['s', 'c', 'o', 'r', 'e'] {
        Policy::Score
    } else {
        Policy::Interactive
    }
}

/// The policy in force: the forced one where there is one, else the
/// configured one.
pub open spec fn policy_in_force(configured: Policy, forced: Option<Policy>) -> Policy {
    match forced {
        Some(policy) => policy,
        None => configured,
    }
}

impl Policy {
    /// The policy that `name` stands for.
    pub fn from_name(name: &str) -> (policy: Policy)
        ensures
            policy == policy_named(name@),
    {
        proof {
            reveal_strlit("shortest");
            reveal_strlit("score");
            assert("shortest"@ =~= seq!['s', 'h', 'o', 'r', 't', 'e', 's', 't']);
            assert("score"@ =~= seq!['s', 'c', 'o', 'r', 'e']);
        }
        if same_text(name, "shortest") {
            Policy::Shortest
        } else if same_text(name, "score") {
            Policy::Score
        } else {
            Policy::Interactive
        }
    }

    /// The policy in force where `forced` may override this one.
    pub fn or_forced(self, forced: Option<Policy>) -> (policy: Policy)
        ensures
            policy == policy_in_force(self, forced),
    {
        match forced {
            Some(policy) => policy,
            None => self,
        }
    }
}

/// The shortest path stands at `shortest_index`: no path is shorter, and
/// every path before it is longer.
pub proof fn lemma_shortest_index(matches: Seq<EntryView>)
    requires
        matches.len() > 0,
    ensures
        0 <= shortest_index(matches) < matches.len(),
        forall|j: int|
            0 <= j < matches.len() ==> matches[shortest_index(matches)].path.len() <= (
            #[trigger] matches[j]).path.len(),
        forall|j: int|
            0 <= j < shortest_index(matches) ==> matches[shortest_index(matches)].path.len() < (
            #[trigger] matches[j]).path.len(),
    decreases matches.len(),
{
    if matches.len() > 1 {
        let front = matches.drop_last();
        lemma_shortest_index(front);
        let best = shortest_index(front);
        assert(front[best] == matches[best]);
        assert forall|j: int| 0 <= j < matches.len() implies matches[shortest_index(
            matches,
        )].path.len() <= (#[trigger] matches[j]).path.len() by {
            if j < front.len() {
                assert(front[j] == matches[j]);
            }
        }
        assert forall|j: int| 0 <= j < shortest_index(matches) implies matches[shortest_index(
            matches,
        )].path.len() < (#[trigger] matches[j]).path.len() by {
            assert(front[j] == matches[j]);
        }
    }
}

/// A single match is taken directly, whatever the policy.
pub proof fn lemma_single_match(matches: Seq<EntryView>, policy: Policy)
    requires
        matches.len() == 1,
    ensures
        resolution(matches, policy) == Resolution::Direct(0),
{
}

/// What to do with the answer `matches` under `policy`.
pub fn resolve(matches: &Vec<DirectoryEntry>, policy: Policy) -> (chosen: Resolution)
    ensures
        chosen == resolution(views(matches@), policy),
        chosen matches Resolution::Direct(i) ==> i < matches.len(),
{
    let ghost all = views(matches@);
    if matches.len() == 0 {
        return Resolution::NoMatch;
    }
    if matches.len() == 1 {
        return Resolution::Direct(0);
    }
    match policy {
        Policy::Score => Resolution::Direct(0),
        Policy::Interactive => Resolution::Ask,
        Policy::Shortest => {
            let mut best: usize = 0;
            let mut best_len: usize = matches[0].path.as_str().unicode_len();
            let mut i: usize = 1;
            assert(all.take(1).drop_last().len() == 0);
            while i < matches.len()
                invariant
                    1 <= i <= matches.len(),
                    all == views(matches@),
                    best < i,
                    best_len == all[best as int].path.len(),
                    best == shortest_index(all.take(i as int)),
                decreases matches.len() - i,
            {
                let len: usize = matches[i].path.as_str().unicode_len();
                proof {
                    assert(all.take(i + 1).drop_last() =~= all.take(i as int));
                    assert(all.take(i + 1).last() == all[i as int]);
                    assert(all.take(i + 1)[best as int] == all[best as int]);
                }
                if len < best_len {
                    best = i;
                    best_len = len;
                }
                i += 1;
            }
            assert(all.take(all.len() as int) =~= all);
            Resolution::Direct(best)
        },
    }
}

} // verus!
