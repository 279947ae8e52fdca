//! A vector wrapper compared by length alone.
//!
//! Derived collections sometimes need an ordered record type whose order is
//! irrelevant because only one aggregate of the kind ever exists; comparing
//! by length keeps that order cheap and total.

use vstd::prelude::*;

verus! {

/// A vector whose equality is equality of lengths.
#[derive(Debug, Clone)]
pub struct SafeVec<G>(pub Vec<G>);

impl<G> SafeVec<G> {
    /// How many items the vector holds.
    pub fn len(&self) -> (r: usize)
        ensures
            r == self.0@.len(),
    {
        self.0.len()
    }
}

impl<G> PartialEq for SafeVec<G> {
    fn eq(&self, other: &SafeVec<G>) -> (r: bool) {
        self.0.len() == other.0.len()
    }
}

impl<G> vstd::std_specs::cmp::PartialEqSpecImpl for SafeVec<G> {
    open spec fn obeys_eq_spec() -> bool {
        true
    }

    open spec fn eq_spec(&self, other: &SafeVec<G>) -> bool {
        self.0@.len() == other.0@.len()
    }
}

} // verus!
