use vstd::prelude::*;

verus! {

/// A policy that voters can support: an identifier and an optional long-form
/// description. Two policies are the same policy when their titles agree.
#[derive(Debug)]
pub struct Plan {
    pub title: String,
    pub description: Option<String>,
}

impl Plan {
    /// A policy with the given identifier and no description.
    pub fn new(title: String) -> (p: Plan)
        ensures
            p.title@ == title@,
            p.description is None,
    {
        Plan { title, description: None }
    }

    /// A policy with the given identifier and description.
    pub fn described(title: String, description: String) -> (p: Plan)
        ensures
            p.title@ == title@,
            p.description == Some(description),
    {
        Plan { title, description: Some(description) }
    }
}

impl PartialEq for Plan {
    fn eq(&self, other: &Plan) -> (r: bool)
        ensures
            r == (self.title@ == other.title@),
    {
        self.title == other.title
    }
}

impl vstd::std_specs::cmp::PartialEqSpecImpl for Plan {
    open spec fn obeys_eq_spec() -> bool {
        true
    }

    open spec fn eq_spec(&self, other: &Plan) -> bool {
        self.title@ == other.title@
    }
}

impl Eq for Plan {}

} // verus!
