//! Rows: ordered sequences of tagged values with positional access.

use vstd::prelude::*;

use crate::types::ratio::Ratio;
use crate::types::row_value::RowValue;

verus! {

/// An ordered sequence of values, immutable once built up.
#[derive(Debug)]
pub struct Row {
    pub values: Vec<RowValue>,
    pub size: usize,
}

impl Row {
    /// Well-formedness: the recorded size is the number of values, and each
    /// value is well-formed.
    pub open spec fn wf(self) -> bool {
        &&& self.size == self.values@.len()
        &&& forall|i: int| 0 <= i < self.values@.len() ==> (#[trigger] self.values@[i]).wf()
    }

    /// An empty row.
    pub fn new() -> (r: Row)
        ensures
            r.wf(),
            r.values@ =~= Seq::<RowValue>::empty(),
            r.size == 0,
    {
        Row { values: Vec::new(), size: 0 }
    }

    /// Appends one integer cell.
    pub fn append_integer(&mut self, value: i64)
        requires
            old(self).wf(),
        ensures
            final(self).wf(),
            final(self).values@ == old(self).values@.push(RowValue::Integer(value)),
            final(self).size == old(self).size + 1,
    {
        self.values.push(RowValue::Integer(value));
        self.size = self.values.len();
    }

    /// Appends one cell of any kind, handing the row back.
    pub fn append_row_value(self, val: RowValue) -> (r: Row)
        requires
            self.wf(),
            val.wf(),
        ensures
            r.wf(),
            r.values@ == self.values@.push(val),
            r.size == self.size + 1,
    {
        let mut row = self;
        row.values.push(val);
        row.size = row.values.len();
        row
    }

    /// A row of one integer, one scalar and one text cell.
    pub fn with_values(integer: i64, number: Ratio, text: String) -> (r: Row)
        requires
            number.wf(),
        ensures
            r.wf(),
            r.values@ =~= seq![
                RowValue::Integer(integer),
                RowValue::Number(number),
                RowValue::Text(text),
            ],
            r.size == 3,
    {
        let mut values: Vec<RowValue> = Vec::new();
        values.push(RowValue::Integer(integer));
        values.push(RowValue::Number(number));
        values.push(RowValue::Text(text));
        Row { values, size: 3 }
    }

    /// A row of integer cells.
    pub fn with_integer_vec(integers: Vec<i64>) -> (r: Row)
        ensures
            r.wf(),
            r.values@.len() == integers@.len(),
            forall|i: int|
                0 <= i < integers@.len() ==> (#[trigger] r.values@[i]) == RowValue::Integer(
                    integers@[i],
                ),
            r.size == integers@.len(),
    {
        let mut values: Vec<RowValue> = Vec::new();
        let mut i: usize = 0;
        while i < integers.len()
            invariant
                0 <= i <= integers@.len(),
                values@.len() == i,
                forall|j: int|
                    0 <= j < i ==> (#[trigger] values@[j]) == RowValue::Integer(integers@[j]),
            decreases integers@.len() - i,
        {
            values.push(RowValue::Integer(integers[i]));
            i += 1;
        }
        let size = values.len();
        Row { values, size }
    }

    /// A row of a single cell.
    pub fn with_row_value(val: RowValue) -> (r: Row)
        requires
            val.wf(),
        ensures
            r.wf(),
            r.values@ =~= seq![val],
            r.size == 1,
    {
        let mut values: Vec<RowValue> = Vec::new();
        values.push(val);
        Row { values, size: 1 }
    }

    /// A row of the given cells.
    pub fn with_row_values(vals: Vec<RowValue>) -> (r: Row)
        requires
            forall|i: int| 0 <= i < vals@.len() ==> (#[trigger] vals@[i]).wf(),
        ensures
            r.wf(),
            r.values@ == vals@,
            r.size == vals@.len(),
    {
        let size = vals.len();
        Row { values: vals, size }
    }

    /// The positions of the cells the predicate accepts, in increasing
    /// order.
    pub fn find_indices<F: Fn(&RowValue) -> bool>(&self, predicate: F) -> (r: Vec<usize>)
        requires
            forall|v: &RowValue| #[trigger] predicate.requires((v,)),
        ensures
            forall|j: int| 0 <= j < r@.len() ==> (#[trigger] r@[j]) < self.values@.len(),
            forall|j: int, l: int| 0 <= j < l < r@.len() ==> r@[j] < r@[l],
            forall|j: int|
                0 <= j < r@.len() ==> predicate.ensures(
                    (&self.values@[#[trigger] r@[j] as int],),
                    true,
                ),
            forall|i: int|
                0 <= i < self.values@.len() ==> (r@.contains(i as usize) || predicate.ensures(
                    (&self.values@[i],),
                    false,
                )),
    {
        let mut out: Vec<usize> = Vec::new();
        let mut i: usize = 0;
        while i < self.values.len()
            invariant
                0 <= i <= self.values@.len(),
                forall|v: &RowValue| #[trigger] predicate.requires((v,)),
                forall|j: int| 0 <= j < out@.len() ==> (#[trigger] out@[j]) < i,
                forall|j: int, l: int| 0 <= j < l < out@.len() ==> out@[j] < out@[l],
                forall|j: int|
                    0 <= j < out@.len() ==> predicate.ensures(
                        (&self.values@[#[trigger] out@[j] as int],),
                        true,
                    ),
                forall|l: int|
                    0 <= l < i ==> (out@.contains(l as usize) || predicate.ensures(
                        (&self.values@[l],),
                        false,
                    )),
            decreases self.values@.len() - i,
        {
            let ghost pre_out = out@;
            if predicate(&self.values[i]) {
                out.push(i);
                proof {
                    assert(out@[out@.len() - 1] == i);
                }
            }
            proof {
                assert forall|l: int|
                    0 <= l < i + 1 implies (out@.contains(l as usize) || predicate.ensures(
                    (&self.values@[l],),
                    false,
                )) by {
                    if l < i {
                        if pre_out.contains(l as usize) {
                            let w = choose|w: int|
                                0 <= w < pre_out.len() && pre_out[w] == l as usize;
                            assert(out@[w] == l as usize);
                            assert(out@.contains(l as usize));
                        }
                    } else {
                        if out@.len() > pre_out.len() {
                            assert(out@.contains(i as usize));
                        }
                    }
                }
            }
            i += 1;
        }
        out
    }
}

impl Clone for Row {
    /// Cloning keeps the observed cells.
    fn clone(&self) -> (r: Row)
        ensures
            r.size == self.size,
            r.values@.len() == self.values@.len(),
            forall|i: int|
                0 <= i < self.values@.len() ==> (#[trigger] r.values@[i]).like(self.values@[i]),
            self.wf() ==> r.wf(),
    {
        let mut values: Vec<RowValue> = Vec::new();
        let mut i: usize = 0;
        while i < self.values.len()
            invariant
                0 <= i <= self.values@.len(),
                values@.len() == i,
                forall|j: int|
                    0 <= j < i ==> (#[trigger] values@[j]).like(self.values@[j]) && values@[j].wf()
                        == self.values@[j].wf(),
            decreases self.values@.len() - i,
        {
            values.push(self.values[i].clone());
            i += 1;
        }
        Row { values, size: self.size }
    }
}

} // verus!
