//! Ordinal encoding: every live value is mapped to its assigned position;
//! values never seen (or no longer live) map to `-1`.

use vstd::prelude::*;

use crate::feature_encoders::column_encoder::lemma_net_mult_take_step;
use crate::feature_encoders::column_encoder::paa_fit_ok;
use crate::feature_encoders::column_encoder::paa_prior_count;
use crate::feature_encoders::column_encoder::lemma_net_mult_nonneg_take;
use crate::feature_encoders::column_encoder::paa_prior_next;
use crate::feature_encoders::column_encoder::net_mult;
use crate::feature_encoders::column_encoder::wf_updates;
use crate::types::integer_assignment_aggregate::PositionAssignmentAggregate;
use crate::types::ratio::Ratio;
use crate::types::row_value::RowValue;
use crate::EncodeError;

verus! {

/// The ordinal encoder: fits a position-assignment aggregate over a column
/// and replaces each value by its position, or by `-1` when the value holds
/// none.
pub struct OrdinalEncoder {
    /// The fitted aggregate; absent until the first `fit`.
    pub value_map: Option<PositionAssignmentAggregate>,
}

impl OrdinalEncoder {
    /// An encoder with nothing fitted yet.
    pub fn new() -> (r: OrdinalEncoder)
        ensures
            r.value_map is None,
    {
        OrdinalEncoder { value_map: None }
    }

    /// Whether the fitted aggregate is well-formed.
    pub open spec fn wf(self) -> bool {
        self.value_map matches Some(a) ==> a.wf()
    }

    /// Folds a batch of updates into the fitted aggregate, creating it on
    /// the first call: every value's net count moves by the batch's net
    /// multiplicity for it.
    pub fn fit(&mut self, data: &Vec<((usize, RowValue), i64)>) -> (r: Result<(), EncodeError>)
        requires
            old(self).wf(),
            wf_updates(data@),
        ensures
            final(self).wf(),
            r matches Err(e) ==> e == EncodeError::Overflow,
            paa_prior_next(old(self).value_map) + data@.len() <= usize::MAX ==> (r is Ok
                <==> paa_fit_ok(old(self).value_map, data@)),
            (r is Ok && (forall|i: int| 0 <= i < data@.len() ==> (#[trigger] data@[i]).1 > 0)
                && (match old(self).value_map {
                Some(b) => b.live_count() >= 2 * (b.len as int) / 3,
                None => true,
            })) ==> (final(self).value_map matches Some(a) && {
                &&& a.len as int >= (match old(self).value_map {
                    Some(b) => b.len as int,
                    None => 1,
                })
                &&& a.live_count() >= 2 * (a.len as int) / 3
                &&& forall|k2: RowValue|
                    k2.wf() && paa_prior_count(old(self).value_map, k2) > 0 ==> #[trigger] a.spec_index(
                        k2,
                    ) == (match old(self).value_map {
                        Some(b) => b.spec_index(k2),
                        None => None,
                    })
            }),
            r is Ok ==> (final(self).value_map matches Some(a) && a.wf() && forall|k2: RowValue|
                k2.wf() ==> #[trigger] a.spec_count(k2) == paa_prior_count(
                    old(self).value_map,
                    k2,
                ) + net_mult(data@, k2)),
    {
        let ghost growth = (forall|i: int| 0 <= i < data@.len() ==> (#[trigger] data@[i]).1 > 0)
            && (match old(self).value_map {
            Some(b) => b.live_count() >= 2 * (b.len as int) / 3,
            None => true,
        });
        let mut agg = match self.value_map.take() {
            Some(a) => a,
            None => PositionAssignmentAggregate::zero(),
        };
        let ghost start = agg;
        let mut i: usize = 0;
        while i < data.len()
            invariant
                0 <= i <= data@.len(),
                wf_updates(data@),
                agg.wf(),
                start.wf(),
                agg.next_index <= start.next_index + i,
                start.next_index as int == paa_prior_next(old(self).value_map),
                growth == ((forall|j: int| 0 <= j < data@.len() ==> (#[trigger] data@[j]).1 > 0)
                    && start.live_count() >= 2 * (start.len as int) / 3),
                start.live_count() as int == (match old(self).value_map {
                    Some(b) => b.live_count(),
                    None => 0,
                }),
                start.len as int == (match old(self).value_map {
                    Some(b) => b.len as int,
                    None => 1,
                }),
                forall|k2: RowValue|
                    k2.wf() ==> #[trigger] start.spec_index(k2) == (match old(self).value_map {
                        Some(b) => b.spec_index(k2),
                        None => None,
                    }),
                growth ==> (agg.live_count() >= 2 * (agg.len as int) / 3 && agg.len >= start.len
                    && forall|k2: RowValue|
                    k2.wf() && start.spec_count(k2) > 0 ==> #[trigger] agg.spec_index(k2)
                        == start.spec_index(k2)),
                forall|k2: RowValue|
                    k2.wf() ==> #[trigger] start.spec_count(k2) == paa_prior_count(
                        old(self).value_map,
                        k2,
                    ),
                forall|m: int|
                    0 <= m < i ==> i64::MIN <= paa_prior_count(
                        old(self).value_map,
                        (#[trigger] data@[m]).0.1,
                    ) + net_mult(data@.take(m), data@[m].0.1) + data@[m].1 <= i64::MAX,
                forall|k2: RowValue|
                    k2.wf() ==> #[trigger] agg.spec_count(k2) == start.spec_count(k2) + net_mult(
                        data@.take(i as int),
                        k2,
                    ),
            decreases data@.len() - i,
        {
            proof {
                assert(data@[i as int].0.1.wf());
            }
            let ghost before = agg;
            match agg.plus_equals_value_count(&data[i].0.1, data[i].1) {
                Ok(_) => {},
                Err(_) => {
                    proof {
                        assert(before.spec_count(data@[i as int].0.1) == paa_prior_count(
                            old(self).value_map,
                            data@[i as int].0.1,
                        ) + net_mult(data@.take(i as int), data@[i as int].0.1));
                    }
                    self.value_map = Some(agg);
                    return Err(EncodeError::Overflow);
                },
            }
            proof {
                assert forall|k2: RowValue| k2.wf() implies #[trigger] agg.spec_count(k2)
                    == start.spec_count(k2) + net_mult(data@.take(i as int + 1), k2) by {
                    lemma_net_mult_take_step(data@, i as int, k2);
                    assert(before.spec_count(k2) == start.spec_count(k2) + net_mult(
                        data@.take(i as int),
                        k2,
                    ));
                }
                if growth {
                    // An insertion-only run never compacts, so live
                    // positions stay put and the width never shrinks.
                    assert(!before.compacts(data@[i as int].0.1, data@[i as int].1 as int));
                    assert forall|k2: RowValue|
                        k2.wf() && start.spec_count(k2) > 0 implies #[trigger] agg.spec_index(k2)
                        == start.spec_index(k2) by {
                        if data@[i as int].0.1.spec_eqv(k2) {
                            // The value stays live: its count only grew.
                            crate::types::row_value::lemma_eqv_sym(data@[i as int].0.1, k2);
                            crate::types::safe_hash_map::lemma_get_eqv(
                                before.val_to_count@,
                                k2,
                                data@[i as int].0.1,
                            );
                            crate::types::safe_hash_map::lemma_get_eqv(
                                before.val_to_index@,
                                k2,
                                data@[i as int].0.1,
                            );
                            crate::types::safe_hash_map::lemma_get_eqv(
                                agg.val_to_index@,
                                k2,
                                data@[i as int].0.1,
                            );
                            lemma_net_mult_nonneg_take(data@, i as int, k2);
                        }
                    }
                }
            }
            i += 1;
        }
        proof {
            assert(data@.take(data@.len() as int) =~= data@);
        }
        self.value_map = Some(agg);
        Ok(())
    }

    /// Replaces every record's value by its assigned position, or by `-1`
    /// when the value holds none.
    pub fn transform(&self, data: &Vec<((usize, RowValue), i64)>) -> (r: Result<
        Vec<((usize, RowValue), i64)>,
        EncodeError,
    >)
        requires
            self.wf(),
            wf_updates(data@),
        ensures
            self.value_map is None <==> r == Err::<Vec<((usize, RowValue), i64)>, EncodeError>(
                EncodeError::NotFitted,
            ),
            r matches Err(e) ==> e == EncodeError::NotFitted || e == EncodeError::Overflow,
            r is Ok <==> (self.value_map matches Some(a) && forall|j: int|
                0 <= j < data@.len() ==> (match a.spec_index((#[trigger] data@[j]).0.1) {
                    Some(idx) => idx <= i64::MAX,
                    None => true,
                })),
            r matches Ok(out) ==> {
                &&& out@.len() == data@.len()
                &&& forall|j: int|
                    0 <= j < data@.len() ==> {
                        &&& (#[trigger] out@[j]).0.0 == data@[j].0.0
                        &&& out@[j].1 == data@[j].1
                        &&& out@[j].0.1 matches RowValue::Number(oq) && oq.den == 1 && (
                        match self.value_map->Some_0.spec_index(data@[j].0.1) {
                            Some(idx) => oq.num == idx,
                            None => oq.num == -1,
                        })
                    }
            },
    {
        let agg = match &self.value_map {
            None => {
                return Err(EncodeError::NotFitted);
            },
            Some(a) => a,
        };
        let mut out: Vec<((usize, RowValue), i64)> = Vec::new();
        let mut i: usize = 0;
        while i < data.len()
            invariant
                0 <= i <= data@.len(),
                self.wf(),
                self.value_map matches Some(a) && a == *agg,
                forall|j: int|
                    0 <= j < i ==> (match agg.spec_index((#[trigger] data@[j]).0.1) {
                        Some(idx) => idx <= i64::MAX,
                        None => true,
                    }),
                out@.len() == i,
                forall|j: int|
                    0 <= j < i ==> {
                        &&& (#[trigger] out@[j]).0.0 == data@[j].0.0
                        &&& out@[j].1 == data@[j].1
                        &&& out@[j].0.1 matches RowValue::Number(oq) && oq.den == 1 && (
                        match agg.spec_index(data@[j].0.1) {
                            Some(idx) => oq.num == idx,
                            None => oq.num == -1,
                        })
                    },
            decreases data@.len() - i,
        {
            let code: i64 = match agg.val_to_index.get(&data[i].0.1) {
                Some(idx) => {
                    if *idx as u64 > i64::MAX as u64 {
                        proof {
                            assert(agg.spec_index(data@[i as int].0.1) == Some(*idx));
                            assert(!(match agg.spec_index(data@[i as int].0.1) {
                                Some(p) => p <= i64::MAX,
                                None => true,
                            }));
                        }
                        return Err(EncodeError::Overflow);
                    }
                    *idx as i64
                },
                None => -1,
            };
            out.push(((data[i].0.0, RowValue::Number(Ratio { num: code, den: 1 })), data[i].1));
            i += 1;
        }
        Ok(out)
    }
}

} // verus!
