//! The identity encoder: no state, and every record passes through
//! unchanged.

use vstd::prelude::*;

use crate::types::row_value::RowValue;
use crate::EncodeError;

verus! {

/// The identity encoder.
pub struct Passthrough {}

impl Passthrough {
    /// A fresh pass-through encoder.
    pub fn new() -> (r: Passthrough) {
        Passthrough {  }
    }

    /// Fitting is a no-op: there is no state.
    pub fn fit(&mut self, data: &Vec<((usize, RowValue), i64)>) -> (r: Result<(), EncodeError>)
        ensures
            *final(self) == *old(self),
            r is Ok,
    {
        Ok(())
    }

    /// Hands every record back unchanged (up to cloning, which keeps the
    /// observed value).
    pub fn transform(&self, data: &Vec<((usize, RowValue), i64)>) -> (r: Result<
        Vec<((usize, RowValue), i64)>,
        EncodeError,
    >)
        ensures
            r matches Ok(out) ==> {
                &&& out@.len() == data@.len()
                &&& forall|j: int|
                    0 <= j < data@.len() ==> (#[trigger] out@[j]).0.0 == data@[j].0.0
                        && out@[j].1 == data@[j].1 && out@[j].0.1.like(data@[j].0.1)
            },
            r is Ok,
    {
        let mut out: Vec<((usize, RowValue), i64)> = Vec::new();
        let mut i: usize = 0;
        while i < data.len()
            invariant
                0 <= i <= data@.len(),
                out@.len() == i,
                forall|j: int|
                    0 <= j < i ==> (#[trigger] out@[j]).0.0 == data@[j].0.0 && out@[j].1
                        == data@[j].1 && out@[j].0.1.like(data@[j].0.1),
            decreases data@.len() - i,
        {
            out.push(((data[i].0.0, data[i].0.1.clone()), data[i].1));
            i += 1;
        }
        Ok(out)
    }
}

} // verus!
