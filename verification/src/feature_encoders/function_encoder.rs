//! A user-defined scalar transformation: a pure function applied to every
//! value. The function must be deterministic, or incremental maintenance of
//! anything downstream is ill-defined.

use vstd::prelude::*;

use crate::types::row_value::RowValue;
use crate::EncodeError;

verus! {

/// An encoder that applies a user-defined function to every value.
pub struct FunctionEncoder<F: Fn(RowValue) -> RowValue> {
    /// The user-defined function.
    pub udf: F,
}

impl<F: Fn(RowValue) -> RowValue> FunctionEncoder<F> {
    /// An encoder around `udf`.
    pub fn new(udf: F) -> (r: FunctionEncoder<F>)
        ensures
            r.udf == udf,
    {
        FunctionEncoder { udf }
    }

    /// Fitting is a no-op: there is no state.
    pub fn fit(&mut self, data: &Vec<((usize, RowValue), i64)>) -> (r: Result<(), EncodeError>)
        ensures
            *final(self) == *old(self),
            r is Ok,
    {
        Ok(())
    }

    /// Applies the function to every value; ids and multiplicities pass
    /// through.
    pub fn transform(&self, data: &Vec<((usize, RowValue), i64)>) -> (r: Result<
        Vec<((usize, RowValue), i64)>,
        EncodeError,
    >)
        requires
            forall|v: RowValue| #[trigger] self.udf.requires((v,)),
        ensures
            r matches Ok(out) ==> {
                &&& out@.len() == data@.len()
                &&& forall|j: int|
                    0 <= j < data@.len() ==> (#[trigger] out@[j]).0.0 == data@[j].0.0
                        && out@[j].1 == data@[j].1 && exists|a: RowValue|
                        a.like(data@[j].0.1) && self.udf.ensures((a,), out@[j].0.1)
            },
            r is Ok,
    {
        let mut out: Vec<((usize, RowValue), i64)> = Vec::new();
        let mut i: usize = 0;
        while i < data.len()
            invariant
                0 <= i <= data@.len(),
                forall|v: RowValue| #[trigger] self.udf.requires((v,)),
                out@.len() == i,
                forall|j: int|
                    0 <= j < i ==> (#[trigger] out@[j]).0.0 == data@[j].0.0 && out@[j].1
                        == data@[j].1 && exists|a: RowValue|
                        a.like(data@[j].0.1) && self.udf.ensures((a,), out@[j].0.1),
            decreases data@.len() - i,
        {
            let arg = data[i].0.1.clone();
            let ghost garg = arg;
            let mapped = (self.udf)(arg);
            proof {
                assert(garg.like(data@[i as int].0.1) && self.udf.ensures((garg,), mapped));
            }
            out.push(((data[i].0.0, mapped), data[i].1));
            i += 1;
        }
        Ok(out)
    }
}

} // verus!
