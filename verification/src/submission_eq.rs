use crate::submission::Submission;
use vstd::prelude::*;

verus! {

/// Two submissions are the same post when they bear the same fullname,
/// whatever else is known of them.
impl PartialEq for Submission {
    fn eq(&self, other: &Submission) -> (r: bool) {
        self.data.name == other.data.name
    }
}

impl vstd::std_specs::cmp::PartialEqSpecImpl for Submission {
    open spec fn obeys_eq_spec() -> bool {
        true
    }

    open spec fn eq_spec(&self, other: &Submission) -> bool {
        self.data.name@ == other.data.name@
    }
}

} // verus!
