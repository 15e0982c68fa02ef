use vstd::prelude::*;
use crate::names::{find_name, find_title, names_of, titles_of};
use crate::plan::Plan;
use crate::setting::Setting;

verus! {

/// What a vote's target names: the voter or the policy at a position, or nothing known.
#[derive(Debug, PartialEq, Eq, Structural)]
pub enum Target {
    Voter(usize),
    Policy(usize),
    NotFound,
}

/// Resolves a target name: voters are looked up first, then policies, each at
/// the first position that carries the name.
pub fn resolve_target(voters: &Vec<String>, plans: &Vec<Plan>, key: &String) -> (r: Target)
    ensures
        match r {
            Target::Voter(i) => {
                &&& i < voters@.len()
                &&& names_of(voters@)[i as int] == key@
                &&& forall|j: int| 0 <= j < i ==> names_of(voters@)[j] != key@
            },
            Target::Policy(i) => {
                &&& !names_of(voters@).contains(key@)
                &&& i < plans@.len()
                &&& titles_of(plans@)[i as int] == key@
                &&& forall|j: int| 0 <= j < i ==> titles_of(plans@)[j] != key@
            },
            Target::NotFound => {
                &&& !names_of(voters@).contains(key@)
                &&& !titles_of(plans@).contains(key@)
            },
        },
{
    match find_name(voters, key) {
        Some(i) => Target::Voter(i),
        None => match find_title(plans, key) {
            Some(i) => Target::Policy(i),
            None => Target::NotFound,
        },
    }
}

/// The state where the weight of a voter who cast no vote goes: after the
/// voters and the policies.
pub fn blank_row(num_voters: usize, num_plans: usize) -> (r: usize)
    requires
        num_voters + num_plans <= usize::MAX,
    ensures
        r == num_voters + num_plans,
{
    num_voters + num_plans
}

/// The number of states: voters, then policies, then the blank sink.
pub open spec fn dim<W>(s: &Setting<W>) -> int {
    s.voter_names().len() + s.plan_titles().len() + 1int
}

/// The name that state `r` stands for, a voter's or a policy's.
pub open spec fn row_name<W>(s: &Setting<W>, r: int) -> Seq<char> {
    if r < s.voter_names().len() {
        s.voter_names()[r]
    } else {
        s.plan_titles()[r - s.voter_names().len()]
    }
}

/// Whether a vote for `row_name(s, r)` lands on state `r`: always for a voter,
/// and for a policy unless a voter has the same name.
pub open spec fn owns_row<W>(s: &Setting<W>, r: int) -> bool {
    r < s.voter_names().len() || !s.voter_names().contains(
        s.plan_titles()[r - s.voter_names().len()],
    )
}

/// Whether the vote `b` gives a weight to at least one existing voter or policy.
pub open spec fn has_valid_entry<W>(s: &Setting<W>, b: Map<Seq<char>, W>) -> bool {
    exists|k: Seq<char>| #[trigger] b.contains_key(k) && s.is_target(k)
}

/// Whether voter `c` recorded a weight for at least one existing voter or policy.
pub open spec fn has_valid_vote<W>(s: &Setting<W>, c: int) -> bool {
    has_valid_entry(s, s.ballot_of(s.voter_names()[c]))
}

/// The entry at state `r` of the column that the vote `b` makes: the weight
/// of each target that resolves to `r`, or, when no target of `b` resolves,
/// `one` at the blank sink and `zero` elsewhere.
pub open spec fn column_cell<W>(s: &Setting<W>, b: Map<Seq<char>, W>, zero: W, one: W, r: int) -> W {
    if !has_valid_entry(s, b) {
        if r == dim(s) - 1 {
            one
        } else {
            zero
        }
    } else if r < dim(s) - 1 && owns_row(s, r) && b.contains_key(row_name(s, r)) {
        b[row_name(s, r)]
    } else {
        zero
    }
}

/// The entry of the transition matrix at state `r` and column `c`, before the
/// voter columns are normalized. Column `c` of a voter is the column that the
/// voter's recorded vote makes (an empty one when there is none); the columns
/// of policies and of the blank sink are those of the identity.
pub open spec fn cell<W>(s: &Setting<W>, zero: W, one: W, r: int, c: int) -> W {
    if c < s.voter_names().len() {
        column_cell(s, s.ballot_of(s.voter_names()[c]), zero, one, r)
    } else if r == c {
        one
    } else {
        zero
    }
}

/// Whether `x` is recorded by some voter as a target that is neither a voter nor a policy.
pub open spec fn is_unknown_target<W>(s: &Setting<W>, x: Seq<char>) -> bool {
    exists|c: int|
        0 <= c < s.voter_names().len() && #[trigger] s.ballot_of(s.voter_names()[c]).contains_key(x)
            && !s.is_target(x)
}

/// The transition matrix of a poll, stored by columns, and the target names
/// that resolved to nothing and were left out.
#[derive(Debug)]
pub struct TransitionMatrix<W> {
    pub columns: Vec<Vec<W>>,
    pub unknown: Vec<String>,
}

/// Distinct states that own their names carry distinct names, and every such
/// name is a valid target.
pub proof fn lemma_row_names<W>(s: &Setting<W>)
    requires
        s.wf(),
    ensures
        forall|r1: int, r2: int|
            0 <= r1 < dim(s) - 1 && 0 <= r2 < dim(s) - 1 && r1 != r2 && owns_row(s, r1) && owns_row(
                s,
                r2,
            ) ==> #[trigger] row_name(s, r1) != #[trigger] row_name(s, r2),
        forall|r: int| 0 <= r < dim(s) - 1 ==> s.is_target(#[trigger] row_name(s, r)),
{
    let nv = s.voter_names().len() as int;
    assert forall|r: int| 0 <= r < dim(s) - 1 implies s.is_target(#[trigger] row_name(s, r)) by {
        if r < nv {
            assert(s.voter_names()[r] == row_name(s, r));
        } else {
            assert(s.plan_titles()[r - nv] == row_name(s, r));
        }
    }
    assert forall|r1: int, r2: int|
        0 <= r1 < dim(s) - 1 && 0 <= r2 < dim(s) - 1 && r1 != r2 && owns_row(s, r1) && owns_row(
            s,
            r2,
        ) implies #[trigger] row_name(s, r1) != #[trigger] row_name(s, r2) by {
        if r1 < nv && r2 >= nv {
            assert(s.voter_names()[r1] == row_name(s, r1));
        }
        if r2 < nv && r1 >= nv {
            assert(s.voter_names()[r2] == row_name(s, r2));
        }
    }
}

/// The column of voter `c`; the targets of the voter's vote that resolve to
/// nothing are added to `unknown`.
fn voter_column<W: Copy>(s: &Setting<W>, c: usize, zero: W, one: W, unknown: &mut Vec<String>) -> (col: Vec<W>)
    requires
        s.wf(),
        c < s.voter_names().len(),
        dim(s) <= usize::MAX,
    ensures
        col@.len() == dim(s),
        forall|r: int| 0 <= r < dim(s) ==> col@[r] == cell(s, zero, one, r, c as int),
        forall|x: Seq<char>|
            #[trigger] names_of(final(unknown)@).contains(x) <==> (names_of(old(unknown)@).contains(x)
                || (s.ballot_of(s.voter_names()[c as int]).contains_key(x) && !s.is_target(x))),
{
    let voters = s.voters();
    let plans = s.plans();
    let nv = voters.len();
    let n = nv + plans.len() + 1;
    let ghost u0 = unknown@;
    let ghost name = s.voter_names()[c as int];
    proof {
        lemma_row_names(s);
        assert(titles_of(plans@) == s.plan_titles());
    }
    let mut col: Vec<W> = Vec::new();
    let mut r: usize = 0;
    while r < n
        invariant
            r <= n,
            n == dim(s),
            col@.len() == r,
            forall|i: int| 0 <= i < r ==> col@[i] == zero,
        decreases n - r,
    {
        col.push(zero);
        r += 1;
    }
    match s.votes().get(&voters[c]) {
        None => {
            col.set(n - 1, one);
            proof {
                assert(s.ballot_of(name) =~= Map::<Seq<char>, W>::empty());
                assert(names_of(unknown@) == names_of(u0));
            }
        },
        Some(ballot) => {
            proof {
                ballot.lemma_view();
                assert(ballot@ == s.ballot_of(name));
            }
            let mut any = false;
            let mut j: usize = 0;
            while j < ballot.len()
                invariant
                    s.wf(),
                    ballot.wf(),
                    ballot@ == s.ballot_of(name),
                    names_of(voters@) == s.voter_names(),
                    titles_of(plans@) == s.plan_titles(),
                    nv == s.voter_names().len(),
                    n == dim(s),
                    name == s.voter_names()[c as int],
                    j <= ballot.keys().len(),
                    col@.len() == n,
                    col@[n - 1] == zero,
                    forall|r: int| 0 <= r < n - 1 ==> #[trigger] col@[r] == if owns_row(s, r) && exists|jj: int|
                        0 <= jj < j && ballot.keys()[jj] == row_name(s, r) {
                        ballot@[row_name(s, r)]
                    } else {
                        zero
                    },
                    any == exists|jj: int| 0 <= jj < j && s.is_target(#[trigger] ballot.keys()[jj]),
                    forall|x: Seq<char>|
                        #[trigger] names_of(unknown@).contains(x) <==> (names_of(u0).contains(x) || exists|jj: int|
                            0 <= jj < j && ballot.keys()[jj] == x && !s.is_target(x)),
                decreases ballot.keys().len() - j,
            {
                let key = ballot.name_at(j);
                let w = *ballot.value_at(j);
                let ghost k = key@;
                proof {
                    ballot.lemma_view();
                    assert(ballot@[k] == w);
                }
                let ghost col0 = col@;
                let ghost un0 = unknown@;
                match resolve_target(voters, plans, key) {
                    Target::Voter(i) => {
                        col.set(i, w);
                        any = true;
                        proof {
                            assert(row_name(s, i as int) == k);
                            assert(s.is_target(k));
                        }
                    },
                    Target::Policy(i) => {
                        col.set(nv + i, w);
                        any = true;
                        proof {
                            assert(row_name(s, nv + i) == k);
                            assert(owns_row(s, nv + i));
                            assert(s.is_target(k));
                        }
                    },
                    Target::NotFound => {
                        unknown.push(key.clone());
                        proof {
                            assert(!s.is_target(k));
                            assert forall|r: int| 0 <= r < n - 1 && owns_row(s, r) implies row_name(s, r) != k by {
                                if r < nv {
                                    assert(s.voter_names()[r] == row_name(s, r));
                                } else {
                                    assert(s.plan_titles()[r - nv] == row_name(s, r));
                                }
                            }
                            assert(names_of(unknown@) == names_of(un0).push(k));
                            assert forall|x: Seq<char>| #[trigger] names_of(unknown@).contains(x) <==> (
                                names_of(un0).contains(x) || x == k) by {
                                if names_of(unknown@).contains(x) {
                                    let q = choose|q: int| 0 <= q < names_of(unknown@).len() && names_of(unknown@)[q] == x;
                                    if q < names_of(un0).len() {
                                        assert(names_of(un0)[q] == x);
                                    }
                                }
                                if names_of(un0).contains(x) {
                                    let q = choose|q: int| 0 <= q < names_of(un0).len() && names_of(un0)[q] == x;
                                    assert(names_of(unknown@)[q] == x);
                                }
                                if x == k {
                                    assert(names_of(unknown@)[names_of(un0).len() as int] == x);
                                }
                            }
                        }
                    },
                }
                proof {
                    assert forall|r: int| 0 <= r < n - 1 implies #[trigger] col@[r] == if owns_row(s, r) && exists|jj: int|
                        0 <= jj < j + 1 && ballot.keys()[jj] == row_name(s, r) {
                        ballot@[row_name(s, r)]
                    } else {
                        zero
                    } by {
                        if owns_row(s, r) && row_name(s, r) == k {
                            assert(ballot.keys()[j as int] == row_name(s, r));
                        }
                    }
                    assert(any == exists|jj: int| 0 <= jj < j + 1 && s.is_target(#[trigger] ballot.keys()[jj])) by {
                        if s.is_target(k) {
                            assert(s.is_target(ballot.keys()[j as int]));
                        }
                    }
                    assert forall|x: Seq<char>|
                        #[trigger] names_of(unknown@).contains(x) <==> (names_of(u0).contains(x) || exists|jj: int|
                            0 <= jj < j + 1 && ballot.keys()[jj] == x && !s.is_target(x)) by {
                        if x == k && !s.is_target(x) {
                            assert(ballot.keys()[j as int] == x);
                        }
                    }
                }
                j += 1;
            }
            proof {
                ballot.lemma_view();
                assert(any == has_valid_vote(s, c as int)) by {
                    if any {
                        let jj = choose|jj: int| 0 <= jj < j && s.is_target(#[trigger] ballot.keys()[jj]);
                        assert(ballot@.contains_key(ballot.keys()[jj]));
                    }
                    if has_valid_vote(s, c as int) {
                        let kk = choose|kk: Seq<char>|
                            #[trigger] s.ballot_of(name).contains_key(kk) && s.is_target(kk);
                        assert(ballot.keys().contains(kk));
                        let jj = choose|jj: int| 0 <= jj < ballot.keys().len() && ballot.keys()[jj] == kk;
                        assert(s.is_target(ballot.keys()[jj]));
                    }
                }
                assert forall|r: int| 0 <= r < n - 1 implies (exists|jj: int|
                    0 <= jj < j && ballot.keys()[jj] == row_name(s, r)) == ballot@.contains_key(row_name(s, r)) by {
                    if ballot@.contains_key(row_name(s, r)) {
                        assert(ballot.keys().contains(row_name(s, r)));
                    }
                }
                assert forall|x: Seq<char>| (exists|jj: int|
                    0 <= jj < j && ballot.keys()[jj] == x && !s.is_target(x)) == (ballot@.contains_key(x) && !s.is_target(x)) by {
                    if ballot@.contains_key(x) && !s.is_target(x) {
                        assert(ballot.keys().contains(x));
                    }
                }
            }
            if !any {
                col.set(n - 1, one);
                proof {
                    assert forall|r: int| 0 <= r < n - 1 implies col@[r] == zero by {
                        if owns_row(s, r) && ballot@.contains_key(row_name(s, r)) {
                            assert(s.ballot_of(name).contains_key(row_name(s, r)) && s.is_target(row_name(s, r)));
                        }
                    }
                }
            }
        },
    }
    col
}

/// Builds the transition matrix of a poll over its states: the voters, the
/// policies, and the blank sink last. Weights are those recorded, not yet
/// normalized; `zero` and `one` are the weight type's zero and one.
pub fn create_matrix<W: Copy>(s: &Setting<W>, zero: W, one: W) -> (m: TransitionMatrix<W>)
    requires
        s.wf(),
        dim(s) <= usize::MAX,
    ensures
        m.columns@.len() == dim(s),
        forall|c: int| 0 <= c < dim(s) ==> (#[trigger] m.columns@[c])@.len() == dim(s),
        forall|r: int, c: int|
            0 <= r < dim(s) && 0 <= c < dim(s) ==> #[trigger] m.columns@[c]@[r] == cell(s, zero, one, r, c),
        forall|x: Seq<char>| #[trigger] names_of(m.unknown@).contains(x) <==> is_unknown_target(s, x),
{
    let nv = s.voters().len();
    let n = nv + s.plans().len() + 1;
    let mut columns: Vec<Vec<W>> = Vec::new();
    let mut unknown: Vec<String> = Vec::new();
    let mut c: usize = 0;
    while c < n
        invariant
            s.wf(),
            nv == s.voter_names().len(),
            n == dim(s),
            c <= n,
            columns@.len() == c,
            forall|cc: int| 0 <= cc < c ==> (#[trigger] columns@[cc])@.len() == n,
            forall|r: int, cc: int|
                0 <= r < n && 0 <= cc < c ==> #[trigger] columns@[cc]@[r] == cell(s, zero, one, r, cc),
            forall|x: Seq<char>| #[trigger] names_of(unknown@).contains(x) <==> exists|cc: int|
                0 <= cc < c && cc < nv && #[trigger] s.ballot_of(s.voter_names()[cc]).contains_key(x)
                    && !s.is_target(x),
        decreases n - c,
    {
        let ghost un0 = unknown@;
        let col = if c < nv {
            voter_column(s, c, zero, one, &mut unknown)
        } else {
            let mut col: Vec<W> = Vec::new();
            let mut r: usize = 0;
            while r < n
                invariant
                    r <= n,
                    c < n,
                    n == dim(s),
                    nv == s.voter_names().len(),
                    c >= nv,
                    col@.len() == r,
                    forall|i: int| 0 <= i < r ==> col@[i] == cell(s, zero, one, i, c as int),
                decreases n - r,
            {
                if r == c {
                    col.push(one);
                } else {
                    col.push(zero);
                }
                r += 1;
            }
            col
        };
        columns.push(col);
        proof {
            assert forall|x: Seq<char>| #[trigger] names_of(unknown@).contains(x) <==> exists|cc: int|
                0 <= cc < c + 1 && cc < nv && #[trigger] s.ballot_of(s.voter_names()[cc]).contains_key(x)
                    && !s.is_target(x) by {
                if c < nv && s.ballot_of(s.voter_names()[c as int]).contains_key(x) && !s.is_target(x) {
                    assert(0 <= c < c + 1);
                }
            }
            assert forall|r: int, cc: int|
                0 <= r < n && 0 <= cc < c + 1 implies #[trigger] columns@[cc]@[r] == cell(s, zero, one, r, cc) by {
            }
        }
        c += 1;
    }
    TransitionMatrix { columns, unknown }
}

} // verus!
