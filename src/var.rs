use vstd::prelude::*;

verus! {

/// A named variable; two variables are equal when their names are.
#[derive(Debug, Clone, Hash)]
pub struct Var(pub String);

impl Var {
    /// The variable's name.
    pub fn to_string(&self) -> (r: String)
        ensures
            r@ == self.0@,
    {
        self.0.clone()
    }
}

impl PartialEq for Var {
    fn eq(&self, other: &Var) -> (r: bool) {
        self.0 == other.0
    }
}

impl vstd::std_specs::cmp::PartialEqSpecImpl for Var {
    open spec fn obeys_eq_spec() -> bool {
        true
    }

    open spec fn eq_spec(&self, other: &Var) -> bool {
        self.0@ == other.0@
    }
}

impl Eq for Var {}

} // verus!
