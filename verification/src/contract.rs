//! Limits that a task runs under.
use crate::text::same_text;
use vstd::prelude::*;

verus! {

/// The limits of a task: their canonical JSON, and whether every one of them is positive.
#[derive(Debug, PartialEq, Eq)]
pub struct Limits {
    pub canonical: String,
    pub positive: bool,
}

/// Whether two sets of limits are the same.
pub open spec fn same_limits(a: Limits, b: Limits) -> bool {
    a.canonical@ == b.canonical@ && a.positive == b.positive
}

impl Limits {
    pub fn new(canonical: String, positive: bool) -> (r: Self)
        ensures
            r == (Limits { canonical, positive }),
    {
        Limits { canonical, positive }
    }

    pub(crate) fn same(&self, other: &Limits) -> (r: bool)
        ensures
            r == same_limits(*self, *other),
    {
        self.positive == other.positive && same_text(
            self.canonical.as_str(),
            other.canonical.as_str(),
        )
    }
}

impl Clone for Limits {
    fn clone(&self) -> (r: Self)
        ensures
            r == *self,
    {
        Limits { canonical: self.canonical.clone(), positive: self.positive }
    }
}

} // verus!
