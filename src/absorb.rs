use vstd::prelude::*;
use vstd::set_lib::{lemma_int_range, lemma_len_subset, set_int_range};

verus! {

/// Whether weight at state `i` can reach an absorbing state (one at position
/// `nv` or later) in at most `k` steps, where `flows[i][j]` says that some
/// weight passes from state `i` to state `j` in one step.
pub open spec fn escapes(flows: Seq<Seq<bool>>, nv: int, k: nat, i: int) -> bool
    decreases k,
{
    nv <= i || (k > 0 && exists|j: int|
        0 <= j < flows.len() && #[trigger] flows[i][j] && escapes(flows, nv, (k - 1) as nat, j))
}

/// Whether weight at state `i` reaches an absorbing state in some number of steps.
pub open spec fn can_escape(flows: Seq<Seq<bool>>, nv: int, i: int) -> bool {
    exists|k: nat| escapes(flows, nv, k, i)
}

/// The states among the first `flows.len()` that escape within `k` steps.
pub open spec fn escape_set(flows: Seq<Seq<bool>>, nv: int, k: nat) -> Set<int> {
    Set::new(|i: int| 0 <= i < flows.len() && escapes(flows, nv, k, i))
}

/// One more step allowed never loses a state that escapes.
pub proof fn lemma_escapes_monotone(flows: Seq<Seq<bool>>, nv: int, k: nat, i: int)
    requires
        escapes(flows, nv, k, i),
    ensures
        escapes(flows, nv, k + 1, i),
    decreases k,
{
    if i < nv {
        let j = choose|j: int|
            0 <= j < flows.len() && #[trigger] flows[i][j] && escapes(flows, nv, (k - 1) as nat, j);
        lemma_escapes_monotone(flows, nv, (k - 1) as nat, j);
    }
}

proof fn lemma_escapes_monotone_to(flows: Seq<Seq<bool>>, nv: int, k: nat, m: nat, i: int)
    requires
        escapes(flows, nv, k, i),
        k <= m,
    ensures
        escapes(flows, nv, m, i),
    decreases m - k,
{
    if k < m {
        lemma_escapes_monotone(flows, nv, k, i);
        lemma_escapes_monotone_to(flows, nv, k + 1, m, i);
    }
}

/// Once one more step adds no state, no number of further steps adds one.
proof fn lemma_escape_stable(flows: Seq<Seq<bool>>, nv: int, k: nat, m: nat, i: int)
    requires
        escape_set(flows, nv, k) == escape_set(flows, nv, k + 1),
        0 <= i < flows.len(),
    ensures
        escapes(flows, nv, k + m, i) == escapes(flows, nv, k, i),
    decreases m,
{
    if m > 0 {
        assert(escape_set(flows, nv, k + 1) =~= escape_set(flows, nv, k + 2)) by {
            assert forall|q: int| 0 <= q < flows.len() implies #[trigger] escapes(flows, nv, k + 2, q) == escapes(
                flows,
                nv,
                k + 1,
                q,
            ) by {
                assert forall|j: int| 0 <= j < flows.len() implies #[trigger] escapes(flows, nv, k + 1, j) == escapes(
                    flows,
                    nv,
                    k,
                    j,
                ) by {
                    assert(escape_set(flows, nv, k).contains(j) == escapes(flows, nv, k, j));
                    assert(escape_set(flows, nv, k + 1).contains(j) == escapes(flows, nv, k + 1, j));
                    assert(escape_set(flows, nv, k).contains(j) == escape_set(flows, nv, k + 1).contains(j));
                }
                if escapes(flows, nv, k + 2, q) && q < nv {
                    let j = choose|j: int|
                        0 <= j < flows.len() && #[trigger] flows[q][j] && escapes(flows, nv, k + 1, j);
                    assert(flows[q][j] && escapes(flows, nv, k, j));
                }
                if escapes(flows, nv, k + 1, q) && q < nv {
                    let j = choose|j: int|
                        0 <= j < flows.len() && #[trigger] flows[q][j] && escapes(flows, nv, k, j);
                    assert(flows[q][j] && escapes(flows, nv, k + 1, j));
                }
            }
        }
        lemma_escape_stable(flows, nv, k + 1, (m - 1) as nat, i);
        assert(escape_set(flows, nv, k).contains(i) == escapes(flows, nv, k, i));
        assert(escape_set(flows, nv, k + 1).contains(i) == escapes(flows, nv, k + 1, i));
        assert(k + 1 + (m - 1) as nat == k + m);
    }
}

/// Either the escaping states stopped growing at some step before `k`, or
/// there are at least `k` of them after `k` steps.
proof fn lemma_escape_growth(flows: Seq<Seq<bool>>, nv: int, k: nat)
    ensures
        (exists|t: nat| t < k && #[trigger] escape_set(flows, nv, t) == escape_set(flows, nv, t + 1))
            || escape_set(flows, nv, k).len() >= k,
    decreases k,
{
    lemma_int_range(0, flows.len() as int);
    assert(escape_set(flows, nv, k).subset_of(set_int_range(0, flows.len() as int)));
    lemma_len_subset(escape_set(flows, nv, k), set_int_range(0, flows.len() as int));
    if k > 0 {
        let t = (k - 1) as nat;
        lemma_escape_growth(flows, nv, t);
        if !(exists|t2: nat| t2 < t && #[trigger] escape_set(flows, nv, t2) == escape_set(flows, nv, t2 + 1)) {
            if escape_set(flows, nv, t) == escape_set(flows, nv, t + 1) {
                assert(escape_set(flows, nv, t) == escape_set(flows, nv, t + 1));
            } else {
                assert forall|q: int| escape_set(flows, nv, t).contains(q) implies escape_set(
                    flows,
                    nv,
                    t + 1,
                ).contains(q) by {
                    lemma_escapes_monotone(flows, nv, t, q);
                }
                assert(escape_set(flows, nv, t + 1).subset_of(set_int_range(0, flows.len() as int)));
                lemma_len_subset(escape_set(flows, nv, t + 1), set_int_range(0, flows.len() as int));
                assert(!(escape_set(flows, nv, t) =~= escape_set(flows, nv, t + 1)));
                let q = choose|q: int| escape_set(flows, nv, t + 1).contains(q) && !escape_set(flows, nv, t).contains(q);
                escape_set(flows, nv, t).lemma_subset_not_in_lt(escape_set(flows, nv, t + 1), q);
            }
        }
    }
}

/// A state among the first `flows.len()` that escapes at all escapes within
/// `flows.len()` steps.
pub proof fn lemma_escape_bound(flows: Seq<Seq<bool>>, nv: int, k: nat, i: int)
    requires
        0 <= i < flows.len(),
        escapes(flows, nv, k, i),
    ensures
        escapes(flows, nv, flows.len() as nat, i),
{
    let n = flows.len() as nat;
    if k <= n {
        lemma_escapes_monotone_to(flows, nv, k, n, i);
    } else {
        lemma_escape_growth(flows, nv, n + 1);
        lemma_int_range(0, n as int);
        assert(escape_set(flows, nv, n + 1).subset_of(set_int_range(0, n as int)));
        lemma_len_subset(escape_set(flows, nv, n + 1), set_int_range(0, n as int));
        let t = choose|t: nat| t < n + 1 && #[trigger] escape_set(flows, nv, t) == escape_set(flows, nv, t + 1);
        lemma_escape_stable(flows, nv, t, (k - t) as nat, i);
        lemma_escapes_monotone_to(flows, nv, t, n, i);
    }
}

/// A group of voters whose flows all stay inside the group never sends any
/// weight to a policy or to the blank sink.
pub proof fn lemma_closed_group_trapped(flows: Seq<Seq<bool>>, nv: int, group: Set<int>, i: int)
    requires
        group.contains(i),
        forall|j: int| group.contains(j) ==> 0 <= j < nv,
        forall|j: int, q: int|
            group.contains(j) && 0 <= q < flows.len() && #[trigger] flows[j][q] ==> group.contains(q),
    ensures
        !can_escape(flows, nv, i),
{
    assert forall|k: nat| !escapes(flows, nv, k, i) by {
        lemma_closed_group_stays(flows, nv, group, k, i);
    }
}

proof fn lemma_closed_group_stays(flows: Seq<Seq<bool>>, nv: int, group: Set<int>, k: nat, i: int)
    requires
        group.contains(i),
        forall|j: int| group.contains(j) ==> 0 <= j < nv,
        forall|j: int, q: int|
            group.contains(j) && 0 <= q < flows.len() && #[trigger] flows[j][q] ==> group.contains(q),
    ensures
        !escapes(flows, nv, k, i),
    decreases k,
{
    if k > 0 {
        assert forall|q: int| 0 <= q < flows.len() && #[trigger] flows[i][q] implies !escapes(
            flows,
            nv,
            (k - 1) as nat,
            q,
        ) by {
            lemma_closed_group_stays(flows, nv, group, (k - 1) as nat, q);
        }
    }
}

/// A square table of flows between `n` states.
pub open spec fn is_square(flows: Seq<Vec<bool>>, n: int) -> bool {
    flows.len() == n && forall|i: int| 0 <= i < n ==> (#[trigger] flows[i])@.len() == n
}

/// The flows as plain sequences.
pub open spec fn flow_view(flows: Seq<Vec<bool>>) -> Seq<Seq<bool>> {
    flows.map_values(|v: Vec<bool>| v@)
}

/// For each of the first `nv` states (the voters), whether its weight is
/// trapped: no absorbing state can be reached from it in any number of steps.
pub fn trapped_voters(flows: &Vec<Vec<bool>>, nv: usize) -> (r: Vec<bool>)
    requires
        nv <= flows@.len(),
        is_square(flows@, flows@.len() as int),
    ensures
        r@.len() == nv,
        forall|i: int| 0 <= i < nv ==> #[trigger] r@[i] == !can_escape(flow_view(flows@), nv as int, i),
{
    let n = flows.len();
    let ghost f = flow_view(flows@);
    let mut esc: Vec<bool> = Vec::new();
    let mut i: usize = 0;
    while i < n
        invariant
            i <= n,
            n == flows@.len(),
            esc@.len() == i,
            forall|q: int| 0 <= q < i ==> #[trigger] esc@[q] == escapes(f, nv as int, 0, q),
        decreases n - i,
    {
        esc.push(nv <= i);
        i += 1;
    }
    let mut round: usize = 0;
    while round < n
        invariant
            round <= n,
            n == flows@.len(),
            f == flow_view(flows@),
            is_square(flows@, n as int),
            esc@.len() == n,
            forall|q: int| 0 <= q < n ==> #[trigger] esc@[q] == escapes(f, nv as int, round as nat, q),
        decreases n - round,
    {
        let mut next: Vec<bool> = Vec::new();
        let mut a: usize = 0;
        while a < n
            invariant
                a <= n,
                round < n,
                n == flows@.len(),
                f == flow_view(flows@),
                is_square(flows@, n as int),
                esc@.len() == n,
                forall|q: int| 0 <= q < n ==> #[trigger] esc@[q] == escapes(f, nv as int, round as nat, q),
                next@.len() == a,
                forall|q: int| 0 <= q < a ==> #[trigger] next@[q] == escapes(f, nv as int, (round + 1) as nat, q),
            decreases n - a,
        {
            let row = &flows[a];
            let mut found = nv <= a;
            let mut b: usize = 0;
            while b < n && !found
                invariant
                    b <= n,
                    a < n,
                    n == flows@.len(),
                    f == flow_view(flows@),
                    is_square(flows@, n as int),
                    row@ == f[a as int],
                    esc@.len() == n,
                    forall|q: int| 0 <= q < n ==> #[trigger] esc@[q] == escapes(f, nv as int, round as nat, q),
                    found ==> escapes(f, nv as int, (round + 1) as nat, a as int),
                    !found ==> a < nv && forall|j: int| 0 <= j < b ==> !(#[trigger] f[a as int][j] && escapes(f, nv as int, round as nat, j)),
                decreases n - b,
            {
                if row[b] && esc[b] {
                    found = true;
                    proof {
                        assert(f[a as int][b as int] && escapes(f, nv as int, round as nat, b as int));
                    }
                }
                b += 1;
            }
            proof {
                if !found {
                    assert(!escapes(f, nv as int, (round + 1) as nat, a as int)) by {
                        if exists|j: int| 0 <= j < f.len() && #[trigger] f[a as int][j] && escapes(f, nv as int, round as nat, j) {
                            let j = choose|j: int| 0 <= j < f.len() && #[trigger] f[a as int][j] && escapes(f, nv as int, round as nat, j);
                            assert(j < b);
                        }
                    }
                }
            }
            next.push(found);
            a += 1;
        }
        esc = next;
        round += 1;
    }
    let mut r: Vec<bool> = Vec::new();
    let mut q: usize = 0;
    while q < nv
        invariant
            q <= nv,
            nv <= n,
            n == flows@.len(),
            f == flow_view(flows@),
            esc@.len() == n,
            forall|t: int| 0 <= t < n ==> #[trigger] esc@[t] == escapes(f, nv as int, n as nat, t),
            r@.len() == q,
            forall|t: int| 0 <= t < q ==> #[trigger] r@[t] == !escapes(f, nv as int, n as nat, t),
        decreases nv - q,
    {
        r.push(!esc[q]);
        q += 1;
    }
    proof {
        assert forall|i: int| 0 <= i < nv implies #[trigger] r@[i] == !can_escape(f, nv as int, i) by {
            if can_escape(f, nv as int, i) {
                let k = choose|k: nat| escapes(f, nv as int, k, i);
                lemma_escape_bound(f, nv as int, k, i);
            }
        }
    }
    r
}

} // verus!
