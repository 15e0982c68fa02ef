use vstd::prelude::*;
use crate::names::{names_of, titles_of};
use crate::plan::Plan;
use crate::table::Table;

verus! {

/// The key under which the blank sink's share is reported.
pub open spec fn blank_key() -> Seq<char> {
    seq!['(', 'B', 'l', 'a', 'n', 'k', ')']
}

/// The map that gives `vals[i]` to `names[i]`, a later name overriding an
/// earlier equal one.
pub open spec fn named<V>(names: Seq<Seq<char>>, vals: Seq<V>) -> Map<Seq<char>, V>
    decreases names.len(),
{
    if names.len() == 0 {
        Map::empty()
    } else {
        named(names.drop_last(), vals).insert(names.last(), vals[names.len() - 1])
    }
}

/// The names are exactly the keys, and distinct names carry their own values.
pub proof fn lemma_named<V>(names: Seq<Seq<char>>, vals: Seq<V>)
    ensures
        named(names, vals).dom() == names.to_set(),
        names.no_duplicates() ==> forall|i: int|
            0 <= i < names.len() ==> #[trigger] named(names, vals)[names[i]] == vals[i],
    decreases names.len(),
{
    if names.len() > 0 {
        let init = names.drop_last();
        lemma_named(init, vals);
        assert(named(names, vals).dom() =~= names.to_set()) by {
            assert forall|x: Seq<char>| names.to_set().contains(x) <==> init.to_set().insert(
                names.last(),
            ).contains(x) by {
                if names.contains(x) {
                    let j = choose|j: int| 0 <= j < names.len() && names[j] == x;
                    if j < names.len() - 1 {
                        assert(init[j] == x);
                    }
                }
                if init.contains(x) {
                    let j = choose|j: int| 0 <= j < init.len() && init[j] == x;
                    assert(names[j] == x);
                }
            }
        }
        if names.no_duplicates() {
            assert forall|i: int| 0 <= i < names.len() implies #[trigger] named(names, vals)[names[i]]
                == vals[i] by {
                if i < names.len() - 1 {
                    assert(init[i] == names[i]);
                    assert(names[i] != names.last());
                }
            }
        }
    } else {
        assert(names.to_set() =~= Set::<Seq<char>>::empty());
    }
}

/// The named report of a poll: the share of each policy and of the blank sink,
/// and the influence of each voter. `None` means that no value could be given.
#[derive(Debug)]
pub struct PollResult<W> {
    pub votes: Table<Option<W>>,
    pub influence: Table<Option<W>>,
}

/// What the report gives each policy: its share.
pub open spec fn vote_entries<W>(plans: Seq<Plan>, vote_results: Seq<W>) -> Map<Seq<char>, Option<W>> {
    named(titles_of(plans), vote_results.map_values(|w: W| Some(w))).insert(
        blank_key(),
        Some(vote_results.last()),
    )
}

/// What the report gives each voter: the influence, or `None` for a voter
/// whose weight is trapped.
pub open spec fn influence_entries<W>(voters: Seq<String>, influence: Seq<W>, trapped: Seq<bool>) -> Map<Seq<char>, Option<W>> {
    named(
        names_of(voters),
        Seq::new(influence.len(), |i: int| if trapped[i] { None } else { Some(influence[i]) }),
    )
}

/// Names the solver's output: `vote_results` holds one share per policy and
/// the blank sink's last, `influence` one value per voter. The influence of a
/// trapped voter is reported as `None`.
pub fn poll_result<W: Copy>(
    voters: &Vec<String>,
    plans: &Vec<Plan>,
    vote_results: &Vec<W>,
    influence: &Vec<W>,
    trapped: &Vec<bool>,
) -> (r: PollResult<W>)
    requires
        vote_results@.len() == plans@.len() + 1,
        influence@.len() == voters@.len(),
        trapped@.len() == voters@.len(),
    ensures
        r.votes.wf(),
        r.influence.wf(),
        r.votes@ == vote_entries(plans@, vote_results@),
        r.influence@ == influence_entries(voters@, influence@, trapped@),
        r.votes@.dom() == titles_of(plans@).to_set().insert(blank_key()),
        r.influence@.dom() == names_of(voters@).to_set(),
{
    let mut votes: Table<Option<W>> = Table::new();
    let mut i: usize = 0;
    let ghost shares = vote_results@.map_values(|w: W| Some(w));
    while i < plans.len()
        invariant
            i <= plans@.len(),
            vote_results@.len() == plans@.len() + 1,
            shares == vote_results@.map_values(|w: W| Some(w)),
            votes.wf(),
            votes@ == named(titles_of(plans@).take(i as int), shares),
        decreases plans@.len() - i,
    {
        votes.insert(plans[i].title.clone(), Some(vote_results[i]));
        proof {
            let t = titles_of(plans@);
            assert(t.take(i + 1).drop_last() =~= t.take(i as int));
        }
        i += 1;
    }
    let blank = "(Blank)".to_owned();
    proof {
        reveal_strlit("(Blank)");
        assert(blank@ =~= blank_key());
        assert(titles_of(plans@).take(i as int) =~= titles_of(plans@));
    }
    votes.insert(blank, Some(vote_results[plans.len()]));
    let mut inf: Table<Option<W>> = Table::new();
    let ghost vals = Seq::new(influence@.len(), |q: int| if trapped@[q] { None } else { Some(influence@[q]) });
    let mut j: usize = 0;
    while j < voters.len()
        invariant
            j <= voters@.len(),
            influence@.len() == voters@.len(),
            trapped@.len() == voters@.len(),
            vals == Seq::new(influence@.len(), |q: int| if trapped@[q] { None } else { Some(influence@[q]) }),
            inf.wf(),
            inf@ == named(names_of(voters@).take(j as int), vals),
        decreases voters@.len() - j,
    {
        let v = if trapped[j] { None } else { Some(influence[j]) };
        inf.insert(voters[j].clone(), v);
        proof {
            let t = names_of(voters@);
            assert(t.take(j + 1).drop_last() =~= t.take(j as int));
        }
        j += 1;
    }
    proof {
        assert(names_of(voters@).take(j as int) =~= names_of(voters@));
        lemma_named(titles_of(plans@), shares);
        lemma_named(names_of(voters@), vals);
    }
    PollResult { votes, influence: inf }
}

} // verus!
