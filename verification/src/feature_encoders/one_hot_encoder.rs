//! One-hot encoding: every live value becomes a vector of the current
//! nominal width with a single one at its assigned position; unknown values
//! become the all-zero vector.

use vstd::prelude::*;

use crate::feature_encoders::column_encoder::lemma_net_mult_take_step;
use crate::feature_encoders::column_encoder::paa_fit_ok;
use crate::feature_encoders::column_encoder::paa_prior_count;
use crate::feature_encoders::column_encoder::lemma_net_mult_nonneg_take;
use crate::feature_encoders::column_encoder::paa_prior_next;
use crate::feature_encoders::column_encoder::net_mult;
use crate::feature_encoders::column_encoder::wf_updates;
use crate::types::integer_assignment_aggregate::PositionAssignmentAggregate;
use crate::types::ratio::Ratio;
use crate::types::row_value::RowValue;
use crate::types::safe_hash_map::lemma_index_of;
use crate::types::safe_hash_map::spec_index_of;
use crate::EncodeError;
use vstd::pervasive::VecAdditionalExecFns;

verus! {

/// The one-hot encoder: fits a position-assignment aggregate over a column
/// and emits one-hot vectors of the current nominal width.
pub struct OneHotEncoder {
    /// The fitted aggregate; absent until the first `fit`.
    pub value_positions: Option<PositionAssignmentAggregate>,
}

impl OneHotEncoder {
    /// An encoder with nothing fitted yet.
    pub fn new() -> (r: OneHotEncoder)
        ensures
            r.value_positions is None,
    {
        OneHotEncoder { value_positions: None }
    }

    /// Whether the fitted aggregate is well-formed.
    pub open spec fn wf(self) -> bool {
        self.value_positions matches Some(a) ==> a.wf()
    }

    /// Folds a batch of updates into the fitted aggregate, creating it on
    /// the first call: every value's net count moves by the batch's net
    /// multiplicity for it.
    pub fn fit(&mut self, data: &Vec<((usize, RowValue), i64)>) -> (r: Result<(), EncodeError>)
        requires
            old(self).wf(),
            wf_updates(data@),
        ensures
            final(self).wf(),
            r matches Err(e) ==> e == EncodeError::Overflow,
            paa_prior_next(old(self).value_positions) + data@.len() <= usize::MAX ==> (r is Ok
                <==> paa_fit_ok(old(self).value_positions, data@)),
            (r is Ok && (forall|i: int| 0 <= i < data@.len() ==> (#[trigger] data@[i]).1 > 0)
                && (match old(self).value_positions {
                Some(b) => b.live_count() >= 2 * (b.len as int) / 3,
                None => true,
            })) ==> (final(self).value_positions matches Some(a) && {
                &&& a.len as int >= (match old(self).value_positions {
                    Some(b) => b.len as int,
                    None => 1,
                })
                &&& a.live_count() >= 2 * (a.len as int) / 3
                &&& forall|k2: RowValue|
                    k2.wf() && paa_prior_count(old(self).value_positions, k2) > 0 ==> #[trigger] a.spec_index(
                        k2,
                    ) == (match old(self).value_positions {
                        Some(b) => b.spec_index(k2),
                        None => None,
                    })
            }),
            r is Ok ==> (final(self).value_positions matches Some(a) && a.wf() && forall|
                k2: RowValue,
            |
                k2.wf() ==> #[trigger] a.spec_count(k2) == paa_prior_count(
                    old(self).value_positions,
                    k2,
                ) + net_mult(data@, k2)),
    {
        let ghost growth = (forall|i: int| 0 <= i < data@.len() ==> (#[trigger] data@[i]).1 > 0)
            && (match old(self).value_positions {
            Some(b) => b.live_count() >= 2 * (b.len as int) / 3,
            None => true,
        });
        let mut agg = match self.value_positions.take() {
            Some(a) => a,
            None => PositionAssignmentAggregate::zero(),
        };
        let ghost start = agg;
        let mut i: usize = 0;
        while i < data.len()
            invariant
                0 <= i <= data@.len(),
                wf_updates(data@),
                agg.wf(),
                start.wf(),
                agg.next_index <= start.next_index + i,
                start.next_index as int == paa_prior_next(old(self).value_positions),
                growth == ((forall|j: int| 0 <= j < data@.len() ==> (#[trigger] data@[j]).1 > 0)
                    && start.live_count() >= 2 * (start.len as int) / 3),
                start.live_count() as int == (match old(self).value_positions {
                    Some(b) => b.live_count(),
                    None => 0,
                }),
                start.len as int == (match old(self).value_positions {
                    Some(b) => b.len as int,
                    None => 1,
                }),
                forall|k2: RowValue|
                    k2.wf() ==> #[trigger] start.spec_index(k2) == (match old(self).value_positions {
                        Some(b) => b.spec_index(k2),
                        None => None,
                    }),
                growth ==> (agg.live_count() >= 2 * (agg.len as int) / 3 && agg.len >= start.len
                    && forall|k2: RowValue|
                    k2.wf() && start.spec_count(k2) > 0 ==> #[trigger] agg.spec_index(k2)
                        == start.spec_index(k2)),
                forall|k2: RowValue|
                    k2.wf() ==> #[trigger] start.spec_count(k2) == paa_prior_count(
                        old(self).value_positions,
                        k2,
                    ),
                forall|m: int|
                    0 <= m < i ==> i64::MIN <= paa_prior_count(
                        old(self).value_positions,
                        (#[trigger] data@[m]).0.1,
                    ) + net_mult(data@.take(m), data@[m].0.1) + data@[m].1 <= i64::MAX,
                forall|k2: RowValue|
                    k2.wf() ==> #[trigger] agg.spec_count(k2) == start.spec_count(k2) + net_mult(
                        data@.take(i as int),
                        k2,
                    ),
            decreases data@.len() - i,
        {
            proof {
                assert(data@[i as int].0.1.wf());
            }
            let ghost before = agg;
            match agg.plus_equals_value_count(&data[i].0.1, data[i].1) {
                Ok(_) => {},
                Err(_) => {
                    proof {
                        assert(before.spec_count(data@[i as int].0.1) == paa_prior_count(
                            old(self).value_positions,
                            data@[i as int].0.1,
                        ) + net_mult(data@.take(i as int), data@[i as int].0.1));
                    }
                    self.value_positions = Some(agg);
                    return Err(EncodeError::Overflow);
                },
            }
            proof {
                assert forall|k2: RowValue| k2.wf() implies #[trigger] agg.spec_count(k2)
                    == start.spec_count(k2) + net_mult(data@.take(i as int + 1), k2) by {
                    lemma_net_mult_take_step(data@, i as int, k2);
                    assert(before.spec_count(k2) == start.spec_count(k2) + net_mult(
                        data@.take(i as int),
                        k2,
                    ));
                }
                if growth {
                    // An insertion-only run never compacts, so live
                    // positions stay put and the width never shrinks.
                    assert(!before.compacts(data@[i as int].0.1, data@[i as int].1 as int));
                    assert forall|k2: RowValue|
                        k2.wf() && start.spec_count(k2) > 0 implies #[trigger] agg.spec_index(k2)
                        == start.spec_index(k2) by {
                        if data@[i as int].0.1.spec_eqv(k2) {
                            // The value stays live: its count only grew.
                            crate::types::row_value::lemma_eqv_sym(data@[i as int].0.1, k2);
                            crate::types::safe_hash_map::lemma_get_eqv(
                                before.val_to_count@,
                                k2,
                                data@[i as int].0.1,
                            );
                            crate::types::safe_hash_map::lemma_get_eqv(
                                before.val_to_index@,
                                k2,
                                data@[i as int].0.1,
                            );
                            crate::types::safe_hash_map::lemma_get_eqv(
                                agg.val_to_index@,
                                k2,
                                data@[i as int].0.1,
                            );
                            lemma_net_mult_nonneg_take(data@, i as int, k2);
                        }
                    }
                }
            }
            i += 1;
        }
        proof {
            assert(data@.take(data@.len() as int) =~= data@);
        }
        self.value_positions = Some(agg);
        Ok(())
    }

    /// Replaces every record's value by a vector of the current nominal
    /// width: a single one at the value's assigned position, or all zeros
    /// for a value that holds none.
    pub fn transform(&self, data: &Vec<((usize, RowValue), i64)>) -> (r: Result<
        Vec<((usize, RowValue), i64)>,
        EncodeError,
    >)
        requires
            self.wf(),
            wf_updates(data@),
        ensures
            self.value_positions is None <==> r == Err::<
                Vec<((usize, RowValue), i64)>,
                EncodeError,
            >(EncodeError::NotFitted),
            r is Ok <==> self.value_positions is Some,
            r matches Ok(out) ==> {
                &&& out@.len() == data@.len()
                &&& forall|j: int|
                    0 <= j < data@.len() ==> {
                        &&& (#[trigger] out@[j]).0.0 == data@[j].0.0
                        &&& out@[j].1 == data@[j].1
                        &&& out@[j].0.1 matches RowValue::Vector(v) && v@.len() == self
                            .value_positions->Some_0.len && (
                        match self.value_positions->Some_0.spec_index(data@[j].0.1) {
                            Some(idx) => idx < v@.len() && forall|p: int|
                                0 <= p < v@.len() ==> (#[trigger] v@[p]) == (if p == idx {
                                    Ratio { num: 1, den: 1 }
                                } else {
                                    Ratio { num: 0, den: 1 }
                                }),
                            None => forall|p: int|
                                0 <= p < v@.len() ==> (#[trigger] v@[p]) == (Ratio {
                                    num: 0,
                                    den: 1,
                                }),
                        })
                    }
            },
    {
        let agg = match &self.value_positions {
            None => {
                return Err(EncodeError::NotFitted);
            },
            Some(a) => a,
        };
        let width = agg.len;
        let mut out: Vec<((usize, RowValue), i64)> = Vec::new();
        let mut i: usize = 0;
        while i < data.len()
            invariant
                0 <= i <= data@.len(),
                self.wf(),
                self.value_positions matches Some(a) && a == *agg,
                width == agg.len,
                out@.len() == i,
                forall|j: int|
                    0 <= j < i ==> {
                        &&& (#[trigger] out@[j]).0.0 == data@[j].0.0
                        &&& out@[j].1 == data@[j].1
                        &&& out@[j].0.1 matches RowValue::Vector(v) && v@.len() == agg.len && (
                        match agg.spec_index(data@[j].0.1) {
                            Some(idx) => idx < v@.len() && forall|p: int|
                                0 <= p < v@.len() ==> (#[trigger] v@[p]) == (if p == idx {
                                    Ratio { num: 1, den: 1 }
                                } else {
                                    Ratio { num: 0, den: 1 }
                                }),
                            None => forall|p: int|
                                0 <= p < v@.len() ==> (#[trigger] v@[p]) == (Ratio {
                                    num: 0,
                                    den: 1,
                                }),
                        })
                    },
            decreases data@.len() - i,
        {
            let mut vec: Vec<Ratio> = Vec::new();
            let mut p: usize = 0;
            while p < width
                invariant
                    0 <= p <= width,
                    vec@.len() == p,
                    forall|l: int| 0 <= l < p ==> (#[trigger] vec@[l]) == (Ratio {
                        num: 0,
                        den: 1,
                    }),
                decreases width - p,
            {
                vec.push(Ratio::zero());
                p += 1;
            }
            match agg.val_to_index.get(&data[i].0.1) {
                Some(idx) => {
                    let ix = *idx;
                    proof {
                        // The looked-up position belongs to some entry, so
                        // it lies below `next_index`, hence below the width.
                        lemma_index_of(agg.val_to_index@, data@[i as int].0.1);
                        let e = spec_index_of(agg.val_to_index@, data@[i as int].0.1);
                        assert(agg.val_to_index@[e].1 < agg.next_index);
                    }
                    vec.set(ix, Ratio::from_int(1));
                },
                None => {},
            }
            out.push(((data[i].0.0, RowValue::Vector(vec)), data[i].1));
            i += 1;
        }
        Ok(out)
    }
}

} // verus!
