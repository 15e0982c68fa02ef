use vstd::prelude::*;
use vstd::hash_set::StringHashSet;
use crate::names::{find_name, find_title, names_of, titles_of};
use crate::plan::Plan;
use crate::table::Table;

verus! {

/// A poll as people edit it: the voters, the policies, and for each voter who
/// voted a table from targets (voters or policies) to weights. Weights are
/// stored as given and are of any type `W`.
#[derive(Debug)]
pub struct Setting<W> {
    voters: Vec<String>,
    plans: Vec<Plan>,
    votes: Table<Table<W>>,
}

impl<W> Setting<W> {
    /// The voters' identifiers, in insertion order.
    pub closed spec fn voter_names(&self) -> Seq<Seq<char>> {
        names_of(self.voters@)
    }

    /// The policies, in insertion order.
    pub closed spec fn plan_list(&self) -> Seq<Plan> {
        self.plans@
    }

    pub open spec fn plan_titles(&self) -> Seq<Seq<char>> {
        titles_of(self.plan_list())
    }

    /// The table of recorded votes, keyed by voter.
    pub closed spec fn ballot_table(&self) -> Table<Table<W>> {
        self.votes
    }

    /// The recorded votes: voter to (target to weight).
    pub open spec fn ballots(&self) -> Map<Seq<char>, Map<Seq<char>, W>> {
        self.ballot_table()@.map_values(|t: Table<W>| t@)
    }

    /// The recorded vote of `v`, empty when there is none.
    pub open spec fn ballot_of(&self, v: Seq<char>) -> Map<Seq<char>, W> {
        if self.ballots().contains_key(v) {
            self.ballots()[v]
        } else {
            Map::empty()
        }
    }

    /// A name that a vote may target: a voter or a policy.
    pub open spec fn is_target(&self, k: Seq<char>) -> bool {
        self.voter_names().contains(k) || self.plan_titles().contains(k)
    }

    /// Voters and policy titles are unique, and every table is well formed.
    pub open spec fn wf(&self) -> bool {
        &&& self.voter_names().no_duplicates()
        &&& self.plan_titles().no_duplicates()
        &&& self.ballot_table().wf()
        &&& forall|k: Seq<char>|
            #[trigger] self.ballot_table()@.contains_key(k) ==> self.ballot_table()@[k].wf()
    }

    pub fn new() -> (s: Setting<W>)
        ensures
            s.wf(),
            s.voter_names() == Seq::<Seq<char>>::empty(),
            s.plan_list() == Seq::<Plan>::empty(),
            s.ballots() == Map::<Seq<char>, Map<Seq<char>, W>>::empty(),
    {
        let s = Setting { voters: Vec::new(), plans: Vec::new(), votes: Table::new() };
        assert(s.voter_names() =~= Seq::<Seq<char>>::empty());
        assert(s.ballots() =~= Map::<Seq<char>, Map<Seq<char>, W>>::empty());
        s
    }

    pub fn voters(&self) -> (r: &Vec<String>)
        ensures
            names_of(r@) == self.voter_names(),
    {
        &self.voters
    }

    pub fn plans(&self) -> (r: &Vec<Plan>)
        ensures
            r@ == self.plan_list(),
    {
        &self.plans
    }

    pub fn votes(&self) -> (r: &Table<Table<W>>)
        ensures
            *r == self.ballot_table(),
    {
        &self.votes
    }

    /// Adds a voter at the end, unless one of that name is already there.
    pub fn add_voter(&mut self, p: &str)
        requires
            old(self).wf(),
        ensures
            final(self).wf(),
            final(self).voter_names() == if old(self).voter_names().contains(p@) {
                old(self).voter_names()
            } else {
                old(self).voter_names().push(p@)
            },
            final(self).plan_list() == old(self).plan_list(),
            final(self).ballots() == old(self).ballots(),
    {
        let name = p.to_owned();
        if find_name(&self.voters, &name).is_none() {
            self.voters.push(name);
            proof {
                assert(names_of(self.voters@) =~= names_of(old(self).voters@).push(p@));
            }
        }
    }

    /// Removes voter `p` and the vote that `p` recorded, and gives the position
    /// `p` had; `None`, with nothing changed, when there is no such voter.
    /// Votes of others that name `p` stay as they are.
    pub fn delete_voter(&mut self, p: &str) -> (r: Option<usize>)
        requires
            old(self).wf(),
        ensures
            final(self).wf(),
            final(self).plan_list() == old(self).plan_list(),
            match r {
                Some(i) => {
                    &&& i < old(self).voter_names().len()
                    &&& old(self).voter_names()[i as int] == p@
                    &&& final(self).voter_names() == old(self).voter_names().remove(i as int)
                    &&& final(self).ballots() == old(self).ballots().remove(p@)
                },
                None => {
                    &&& !old(self).voter_names().contains(p@)
                    &&& final(self).voter_names() == old(self).voter_names()
                    &&& final(self).ballots() == old(self).ballots()
                },
            },
    {
        let name = p.to_owned();
        match find_name(&self.voters, &name) {
            Some(index) => {
                let ghost old_names = self.voter_names();
                self.voters.remove(index);
                let _ = self.votes.remove(&name);
                proof {
                    assert(self.voter_names() =~= old_names.remove(index as int));
                    assert forall|a: int, b: int|
                        0 <= a < self.voter_names().len() && 0 <= b < self.voter_names().len()
                            && a != b implies self.voter_names()[a] != self.voter_names()[b] by {
                        let a2 = if a < index { a } else { a + 1 };
                        let b2 = if b < index { b } else { b + 1 };
                        assert(self.voter_names()[a] == old_names[a2]);
                        assert(self.voter_names()[b] == old_names[b2]);
                    }
                    assert forall|k: Seq<char>| #[trigger] self.ballot_table()@.contains_key(k)
                        implies self.ballot_table()@[k].wf() by {
                        assert(old(self).ballot_table()@.contains_key(k));
                    }
                    assert(self.ballots() =~= old(self).ballots().remove(p@));
                }
                Some(index)
            },
            None => None,
        }
    }

    /// Adds a policy at the end, unless one with that title is already there.
    pub fn add_plan(&mut self, plan: Plan)
        requires
            old(self).wf(),
        ensures
            final(self).wf(),
            final(self).plan_list() == if old(self).plan_titles().contains(plan.title@) {
                old(self).plan_list()
            } else {
                old(self).plan_list().push(plan)
            },
            final(self).voter_names() == old(self).voter_names(),
            final(self).ballots() == old(self).ballots(),
    {
        let ghost p = plan;
        if find_title(&self.plans, &plan.title).is_none() {
            self.plans.push(plan);
            proof {
                assert(self.plan_titles() =~= old(self).plan_titles().push(p.title@));
            }
        }
    }

    /// The set of voters' identifiers.
    pub fn get_voters(&self) -> (r: StringHashSet)
        ensures
            r@ == self.voter_names().to_set(),
    {
        let mut r = StringHashSet::new();
        let mut i: usize = 0;
        while i < self.voters.len()
            invariant
                i <= self.voters@.len(),
                names_of(self.voters@) == self.voter_names(),
                forall|x: Seq<char>| #[trigger]
                    r@.contains(x) <==> exists|j: int| 0 <= j < i && self.voter_names()[j] == x,
            decreases self.voters@.len() - i,
        {
            r.insert(self.voters[i].clone());
            proof {
                assert forall|x: Seq<char>| #[trigger] r@.contains(x) <==> exists|j: int|
                    0 <= j < i + 1 && self.voter_names()[j] == x by {
                    if x == self.voter_names()[i as int] {
                        assert(0 <= i < i + 1);
                    }
                }
            }
            i += 1;
        }
        proof {
            assert(r@ =~= self.voter_names().to_set());
        }
        r
    }

    /// Removes the policy titled `other_title` and gives the position it had;
    /// `None`, with nothing changed, when there is no such policy.
    pub fn delete_plan(&mut self, other_title: &String) -> (r: Option<usize>)
        requires
            old(self).wf(),
        ensures
            final(self).wf(),
            final(self).voter_names() == old(self).voter_names(),
            final(self).ballots() == old(self).ballots(),
            match r {
                Some(i) => {
                    &&& i < old(self).plan_list().len()
                    &&& old(self).plan_titles()[i as int] == other_title@
                    &&& final(self).plan_list() == old(self).plan_list().remove(i as int)
                },
                None => {
                    &&& !old(self).plan_titles().contains(other_title@)
                    &&& final(self).plan_list() == old(self).plan_list()
                },
            },
    {
        match find_title(&self.plans, other_title) {
            Some(index) => {
                let ghost old_titles = self.plan_titles();
                self.plans.remove(index);
                proof {
                    assert(self.plan_titles() =~= old_titles.remove(index as int));
                    assert forall|a: int, b: int|
                        0 <= a < self.plan_titles().len() && 0 <= b < self.plan_titles().len()
                            && a != b implies self.plan_titles()[a] != self.plan_titles()[b] by {
                        let a2 = if a < index { a } else { a + 1 };
                        let b2 = if b < index { b } else { b + 1 };
                        assert(self.plan_titles()[a] == old_titles[a2]);
                        assert(self.plan_titles()[b] == old_titles[b2]);
                    }
                }
                Some(index)
            },
            None => None,
        }
    }

    /// Records weight `value` from `voter` to `plan_or_voter`, replacing an
    /// earlier weight for the same target. Nothing changes unless `voter` is a
    /// voter and `plan_or_voter` a policy or a voter.
    pub fn cast_vote(&mut self, voter: &str, plan_or_voter: &str, value: W)
        requires
            old(self).wf(),
        ensures
            final(self).wf(),
            final(self).voter_names() == old(self).voter_names(),
            final(self).plan_list() == old(self).plan_list(),
            final(self).ballots() == if old(self).voter_names().contains(voter@) && old(
                self,
            ).is_target(plan_or_voter@) {
                old(self).ballots().insert(
                    voter@,
                    old(self).ballot_of(voter@).insert(plan_or_voter@, value),
                )
            } else {
                old(self).ballots()
            },
    {
        let name = voter.to_owned();
        let target = plan_or_voter.to_owned();
        if find_name(&self.voters, &name).is_none() {
            return;
        }
        if find_title(&self.plans, &target).is_none() && find_name(&self.voters, &target).is_none() {
            return;
        }
        let mut ballot = match self.votes.remove(&name) {
            Some(b) => b,
            None => Table::new(),
        };
        proof {
            assert(ballot.wf());
            assert(ballot@ == old(self).ballot_of(voter@));
        }
        ballot.insert(target, value);
        let ghost b = ballot;
        self.votes.insert(name, ballot);
        proof {
            assert forall|k: Seq<char>| #[trigger] self.ballot_table()@.contains_key(k)
                implies self.ballot_table()@[k].wf() by {
                if k != voter@ {
                    assert(old(self).ballot_table()@.contains_key(k));
                }
            }
            assert(self.ballots() =~= old(self).ballots().insert(
                voter@,
                old(self).ballot_of(voter@).insert(plan_or_voter@, value),
            ));
        }
    }

    /// Replaces the whole recorded vote of `voter` by `vote`, if `voter` is a
    /// voter; otherwise nothing changes. Targets are not checked here.
    pub fn overwrite_vote(&mut self, voter: &str, vote: Table<W>)
        requires
            old(self).wf(),
            vote.wf(),
        ensures
            final(self).wf(),
            final(self).voter_names() == old(self).voter_names(),
            final(self).plan_list() == old(self).plan_list(),
            final(self).ballots() == if old(self).voter_names().contains(voter@) {
                old(self).ballots().insert(voter@, vote@)
            } else {
                old(self).ballots()
            },
    {
        let name = voter.to_owned();
        if find_name(&self.voters, &name).is_some() {
            let ghost v = vote;
            self.votes.insert(name, vote);
            proof {
                assert forall|k: Seq<char>| #[trigger] self.ballot_table()@.contains_key(k)
                    implies self.ballot_table()@[k].wf() by {
                    if k != voter@ {
                        assert(old(self).ballot_table()@.contains_key(k));
                    }
                }
                assert(self.ballots() =~= old(self).ballots().insert(voter@, v@));
            }
        }
    }
}

} // verus!
