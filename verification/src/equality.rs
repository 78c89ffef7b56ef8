//! `==` on values.

use vstd::prelude::*;
use vstd::std_specs::cmp::PartialEqSpecImpl;
use crate::value::Value;

verus! {

impl PartialEq for Value {
    /// Whether the two values store the same tree.
    fn eq(&self, other: &Value) -> (r: bool) {
        self.same(other)
    }
}

impl PartialEqSpecImpl for Value {
    open spec fn obeys_eq_spec() -> bool {
        true
    }

    open spec fn eq_spec(&self, other: &Value) -> bool {
        self@ == other@
    }
}

} // verus!
