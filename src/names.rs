use vstd::prelude::*;
use crate::plan::Plan;

verus! {

/// The character sequences of a list of names.
pub open spec fn names_of(v: Seq<String>) -> Seq<Seq<char>> {
    v.map_values(|s: String| s@)
}

/// The titles of a list of policies.
pub open spec fn titles_of(v: Seq<Plan>) -> Seq<Seq<char>> {
    v.map_values(|p: Plan| p.title@)
}

/// The first position of `k` in `names`.
pub fn find_name(names: &Vec<String>, k: &String) -> (r: Option<usize>)
    ensures
        match r {
            Some(i) => {
                &&& i < names@.len()
                &&& names_of(names@)[i as int] == k@
                &&& forall|j: int| 0 <= j < i ==> names_of(names@)[j] != k@
            },
            None => !names_of(names@).contains(k@),
        },
{
    let mut i: usize = 0;
    while i < names.len()
        invariant
            i <= names@.len(),
            forall|j: int| 0 <= j < i ==> names_of(names@)[j] != k@,
        decreases names@.len() - i,
    {
        if names[i] == *k {
            return Some(i);
        }
        i += 1;
    }
    None
}

/// The first position of a policy titled `k` in `plans`.
pub fn find_title(plans: &Vec<Plan>, k: &String) -> (r: Option<usize>)
    ensures
        match r {
            Some(i) => {
                &&& i < plans@.len()
                &&& titles_of(plans@)[i as int] == k@
                &&& forall|j: int| 0 <= j < i ==> titles_of(plans@)[j] != k@
            },
            None => !titles_of(plans@).contains(k@),
        },
{
    let mut i: usize = 0;
    while i < plans.len()
        invariant
            i <= plans@.len(),
            forall|j: int| 0 <= j < i ==> titles_of(plans@)[j] != k@,
        decreases plans@.len() - i,
    {
        if plans[i].title == *k {
            return Some(i);
        }
        i += 1;
    }
    None
}

} // verus!
