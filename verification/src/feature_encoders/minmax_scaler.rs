//! Min–max scaling, backed by a signed count of every observed value.
//!
//! The aggregate carries a map from numeric values to net counts; the live
//! minimum and maximum are the least and greatest values with positive net
//! count, so a retraction cancels its insertion exactly. Reading an empty
//! aggregate is reported, and so is a zero range.

use vstd::prelude::*;

use crate::feature_encoders::column_encoder::lemma_net_mult_number_take_step;
use crate::feature_encoders::column_encoder::net_mult_number;
use crate::feature_encoders::column_encoder::wf_updates;
use crate::types::ratio::lemma_ratio_le_trans;
use crate::types::ratio::spec_sub_val;
use crate::types::ratio::Ratio;
use crate::types::row_value::lemma_eqv_refl;
use crate::types::row_value::RowValue;
use crate::types::safe_hash_map::lemma_get_like;
use crate::types::safe_hash_map::lemma_remove_class;
use crate::types::safe_hash_map::lemma_set_value;
use crate::types::safe_hash_map::spec_get;
use crate::types::safe_hash_map::spec_index_of;
use crate::types::safe_hash_map::wf_keys;
use crate::types::safe_hash_map::SafeHashMap;
use crate::EncodeError;

verus! {

/// The net counts of every observed numeric value; pruned, so every entry
/// is nonzero and keyed by a well-formed scalar.
#[derive(Debug, Clone)]
pub struct MinMaxAggregate {
    pub counts: SafeHashMap<i64>,
}

/// The live extremes of a count map, read in entry order: among the entries
/// with positive net count, the least and the greatest value (the earliest
/// entry kept on ties).
pub open spec fn spec_extremes(entries: Seq<(RowValue, i64)>) -> Option<(Ratio, Ratio)>
    decreases entries.len(),
{
    if entries.len() == 0 {
        None
    } else {
        let rest = spec_extremes(entries.drop_last());
        if entries.last().1 > 0 {
            let q = entries.last().0->Number_0;
            match rest {
                None => Some((q, q)),
                Some((mn, mx)) => Some(
                    (
                        if q.spec_lt(mn) {
                            q
                        } else {
                            mn
                        },
                        if mx.spec_lt(q) {
                            q
                        } else {
                            mx
                        },
                    ),
                ),
            }
        } else {
            rest
        }
    }
}

/// There are extremes exactly when some entry is positive.
pub proof fn lemma_extremes_none(entries: Seq<(RowValue, i64)>)
    ensures
        spec_extremes(entries) is None <==> (forall|i: int|
            0 <= i < entries.len() ==> (#[trigger] entries[i]).1 <= 0),
    decreases entries.len(),
{
    if entries.len() > 0 {
        lemma_extremes_none(entries.drop_last());
        assert(forall|i: int|
            0 <= i < entries.drop_last().len() ==> #[trigger] entries.drop_last()[i]
                == entries[i]);
        if entries.last().1 > 0 {
            assert(spec_extremes(entries) is Some);
            assert(entries[entries.len() - 1].1 > 0);
        } else {
            assert(spec_extremes(entries) == spec_extremes(entries.drop_last()));
            if spec_extremes(entries) is None {
                assert forall|i: int| 0 <= i < entries.len() implies (#[trigger] entries[i]).1
                    <= 0 by {
                    if i < entries.len() - 1 {
                        assert(entries.drop_last()[i] == entries[i]);
                    }
                }
            }
        }
    }
}

/// `mn` and `mx` are the live minimum and maximum of the aggregate: both
/// carry positive net count, and every positive-count value lies between
/// them.
pub open spec fn is_minmax_meta(agg: MinMaxAggregate, mn: Ratio, mx: Ratio) -> bool {
    &&& mn.wf()
    &&& mx.wf()
    &&& agg.spec_count_ratio(mn) > 0
    &&& agg.spec_count_ratio(mx) > 0
    &&& forall|q: Ratio|
        q.wf() && #[trigger] agg.spec_count_ratio(q) > 0 ==> mn.spec_le(q) && q.spec_le(mx)
}

/// `mn` and `rng` are a faithful reading of the aggregate: `mn` its live
/// minimum and `rng` exactly `max - min` for its live maximum `mx`.
pub open spec fn is_range_meta(agg: MinMaxAggregate, mn: Ratio, rng: Ratio) -> bool {
    exists|mx: Ratio|
        #![trigger is_minmax_meta(agg, mn, mx)]
        {
            &&& is_minmax_meta(agg, mn, mx)
            &&& rng.num == mx.num * mn.den - mn.num * mx.den
            &&& rng.den == mx.den * mn.den
        }
}

impl MinMaxAggregate {
    /// The net count recorded for the value `v`.
    pub open spec fn spec_count(self, v: RowValue) -> int {
        match spec_get(self.counts@, v) {
            Some(c) => c as int,
            None => 0,
        }
    }

    /// The net count recorded for the numeric value `q`.
    pub open spec fn spec_count_ratio(self, q: Ratio) -> int {
        self.spec_count(RowValue::Number(q))
    }

    /// Well-formedness: distinct well-formed numeric keys, every entry
    /// nonzero.
    pub open spec fn wf(self) -> bool {
        &&& self.counts.wf()
        &&& wf_keys(self.counts@)
        &&& forall|i: int| 0 <= i < self.counts@.len() ==> (#[trigger] self.counts@[i]).0 is Number
        &&& forall|i: int| 0 <= i < self.counts@.len() ==> (#[trigger] self.counts@[i]).1 != 0
    }

    /// The empty aggregate.
    pub fn zero() -> (r: MinMaxAggregate)
        ensures
            r.wf(),
            r.counts@ =~= Seq::<(RowValue, i64)>::empty(),
            forall|k2: RowValue| k2.wf() ==> #[trigger] r.spec_count(k2) == 0,
    {
        MinMaxAggregate { counts: SafeHashMap::new() }
    }

    /// The aggregate contributed by one record carrying `value` with signed
    /// multiplicity `count`.
    pub fn new(value: Ratio, count: i64) -> (r: MinMaxAggregate)
        requires
            value.wf(),
        ensures
            r.wf(),
            forall|k2: RowValue|
                k2.wf() ==> #[trigger] r.spec_count(k2) == (if RowValue::Number(value).spec_eqv(
                    k2,
                ) {
                    count as int
                } else {
                    0
                }),
    {
        let mut agg = MinMaxAggregate::zero();
        if count != 0 {
            let r = agg.plus_equals_value_count(value, count);
            proof {
                assert(r is Ok);
            }
        }
        agg
    }

    /// Applies a signed count to one numeric value, pruning the entry when
    /// its net count reaches zero.
    pub fn plus_equals_value_count(&mut self, value: Ratio, count_to_add: i64) -> (r: Result<
        (),
        EncodeError,
    >)
        requires
            old(self).wf(),
            value.wf(),
        ensures
            final(self).wf(),
            r is Ok <==> i64::MIN <= old(self).spec_count_ratio(value) + count_to_add
                <= i64::MAX,
            r is Err ==> *final(self) == *old(self) && r == Err::<(), EncodeError>(
                EncodeError::Overflow,
            ),
            r is Ok ==> forall|k2: RowValue|
                k2.wf() ==> #[trigger] final(self).spec_count(k2) == old(self).spec_count(k2) + (
                if RowValue::Number(value).spec_eqv(k2) {
                    count_to_add as int
                } else {
                    0
                }),
    {
        let rv = RowValue::Number(value);
        proof {
            lemma_eqv_refl(rv);
        }
        let c0: i64 = match self.counts.get(&rv) {
            Some(c) => *c,
            None => 0,
        };
        let c1: i64 = match c0.checked_add(count_to_add) {
            Some(c) => c,
            None => {
                return Err(EncodeError::Overflow);
            },
        };
        let ghost pre = *self;
        proof {
            assert(pre.spec_count(rv) == c0 as int);
        }
        if c1 == 0 {
            self.counts.remove(&rv);
            proof {
                if spec_index_of(pre.counts@, rv) == -1 {
                    assert forall|k2: RowValue| k2.wf() implies #[trigger] self.spec_count(k2)
                        == pre.spec_count(k2) + (if rv.spec_eqv(k2) {
                        count_to_add as int
                    } else {
                        0
                    }) by {
                        if rv.spec_eqv(k2) {
                            crate::types::row_value::lemma_eqv_sym(rv, k2);
                            crate::types::safe_hash_map::lemma_get_eqv(pre.counts@, k2, rv);
                        }
                    }
                } else {
                    lemma_remove_class(pre.counts@, self.counts@, rv);
                    assert forall|k2: RowValue| k2.wf() implies #[trigger] self.spec_count(k2)
                        == pre.spec_count(k2) + (if rv.spec_eqv(k2) {
                        count_to_add as int
                    } else {
                        0
                    }) by {
                        if rv.spec_eqv(k2) {
                            crate::types::row_value::lemma_eqv_sym(rv, k2);
                            crate::types::safe_hash_map::lemma_get_eqv(pre.counts@, k2, rv);
                        }
                    }
                    assert(self.wf()) by {
                        let i0 = spec_index_of(pre.counts@, rv);
                        crate::types::safe_hash_map::lemma_index_of(pre.counts@, rv);
                        assert(self.counts@ =~= pre.counts@.remove(i0));
                        assert forall|j: int| 0 <= j < self.counts@.len() implies (
                        #[trigger] self.counts@[j]).0 is Number && self.counts@[j].1 != 0 by {
                            if j < i0 {
                                assert(self.counts@[j] == pre.counts@[j]);
                            } else {
                                assert(self.counts@[j] == pre.counts@[j + 1]);
                            }
                        }
                    }
                }
            }
            Ok(())
        } else {
            let key = rv.clone();
            proof {
                lemma_get_like(pre.counts@, key, rv);
            }
            self.counts.insert(key, c1);
            proof {
                lemma_set_value(pre.counts@, self.counts@, key, rv, c1);
                assert forall|k2: RowValue| k2.wf() implies #[trigger] self.spec_count(k2)
                    == pre.spec_count(k2) + (if rv.spec_eqv(k2) {
                    count_to_add as int
                } else {
                    0
                }) by {
                    if rv.spec_eqv(k2) {
                        crate::types::row_value::lemma_eqv_sym(rv, k2);
                        crate::types::safe_hash_map::lemma_get_eqv(pre.counts@, k2, rv);
                    }
                }
                assert(self.wf()) by {
                    assert(key is Number);
                    if spec_index_of(pre.counts@, key) == -1 {
                        assert(forall|j: int|
                            0 <= j < pre.counts@.len() ==> #[trigger] self.counts@[j]
                                == pre.counts@[j]);
                        assert(self.counts@[self.counts@.len() - 1] == (key, c1));
                    } else {
                        assert(forall|j: int|
                            0 <= j < self.counts@.len() ==> (#[trigger] self.counts@[j]).0
                                == pre.counts@[j].0 && (self.counts@[j].1 == pre.counts@[j].1
                                || self.counts@[j].1 == c1));
                    }
                }
            }
            Ok(())
        }
    }

    /// Merges another aggregate in: every value class of the other count
    /// map is applied. On overflow a prefix of the merge may have been
    /// applied; the invariant still holds.
    pub fn plus_equals(&mut self, other: &MinMaxAggregate) -> (r: Result<(), EncodeError>)
        requires
            old(self).wf(),
            other.wf(),
        ensures
            final(self).wf(),
            r is Err ==> r == Err::<(), EncodeError>(EncodeError::Overflow),
            r is Ok <==> minmax_merge_fits(*old(self), other.counts@),
            r is Ok ==> forall|k2: RowValue|
                k2.wf() ==> #[trigger] final(self).spec_count(k2) == old(self).spec_count(k2)
                    + crate::types::integer_assignment_aggregate::class_sum(other.counts@, k2),
    {
        let ghost start = *self;
        let entries = other.counts.iter();
        let n = entries.len();
        let mut i: usize = 0;
        while i < n
            invariant
                0 <= i <= n,
                n == other.counts@.len(),
                entries@ == other.counts@,
                other.wf(),
                self.wf(),
                start.wf(),
                start == *old(self),
                forall|k2: RowValue|
                    k2.wf() ==> #[trigger] self.spec_count(k2) == start.spec_count(k2)
                        + crate::types::integer_assignment_aggregate::class_sum(
                        other.counts@.take(i as int),
                        k2,
                    ),
                forall|m: int|
                    0 <= m < i ==> i64::MIN <= start.spec_count(
                        (#[trigger] other.counts@[m]).0,
                    ) + other.counts@[m].1 <= i64::MAX,
            decreases n - i,
        {
            let pair = &entries[i];
            proof {
                assert(other.counts@[i as int].0.wf());
                assert(other.counts@[i as int].0 is Number);
            }
            let q = match &pair.0 {
                RowValue::Number(q) => *q,
                _ => {
                    proof {
                        assert(false);
                    }
                    vstd::pervasive::unreached()
                },
            };
            proof {
                // No earlier entry of the other map matches this class, so
                // the receiving count is still the starting one.
                assert forall|m: int|
                    0 <= m < other.counts@.take(i as int).len() implies !(
                #[trigger] other.counts@.take(i as int)[m]).0.spec_eqv(
                    other.counts@[i as int].0,
                ) by {
                    assert(other.counts@.take(i as int)[m] == other.counts@[m]);
                }
                crate::types::integer_assignment_aggregate::lemma_class_sum_absent(
                    other.counts@.take(i as int),
                    other.counts@[i as int].0,
                );
                assert(self.spec_count(other.counts@[i as int].0) == start.spec_count(
                    other.counts@[i as int].0,
                ));
                assert(RowValue::Number(q) == other.counts@[i as int].0);
            }
            let ghost before = *self;
            match self.plus_equals_value_count(q, pair.1) {
                Ok(_) => {},
                Err(_) => {
                    return Err(EncodeError::Overflow);
                },
            }
            proof {
                assert forall|k2: RowValue| k2.wf() implies #[trigger] self.spec_count(k2)
                    == start.spec_count(k2)
                    + crate::types::integer_assignment_aggregate::class_sum(
                    other.counts@.take(i as int + 1),
                    k2,
                ) by {
                    crate::types::integer_assignment_aggregate::lemma_class_sum_take_step(
                        other.counts@,
                        i as int,
                        k2,
                    );
                    assert(other.counts@[i as int].0 == RowValue::Number(q));
                }
            }
            i += 1;
        }
        proof {
            assert(other.counts@.take(n as int) =~= other.counts@);
        }
        Ok(())
    }

    /// Negates the aggregate: every net count flips its sign.
    pub fn negate(&mut self) -> (r: Result<(), EncodeError>)
        requires
            old(self).wf(),
        ensures
            final(self).wf(),
            r is Ok <==> (forall|i: int|
                0 <= i < old(self).counts@.len() ==> (#[trigger] old(self).counts@[i]).1
                    != i64::MIN),
            r is Err ==> *final(self) == *old(self) && r == Err::<(), EncodeError>(
                EncodeError::Overflow,
            ),
            r is Ok ==> forall|k2: RowValue|
                k2.wf() ==> #[trigger] final(self).spec_count(k2) == -old(self).spec_count(k2),
    {
        let ghost orig = self.counts@;
        let entries = self.counts.iter();
        let n = entries.len();
        let mut out: SafeHashMap<i64> = SafeHashMap::new();
        let mut i: usize = 0;
        while i < n
            invariant
                0 <= i <= n,
                n == orig.len(),
                entries@ == orig,
                self.counts@ == orig,
                old(self).counts@ == orig,
                old(self).wf(),
                *self == *old(self),
                out.wf(),
                out@.len() == i,
                forall|j: int| 0 <= j < i ==> (#[trigger] out@[j]).0.like(orig[j].0)
                    && out@[j].1 as int == -orig[j].1,
                forall|j: int| 0 <= j < i ==> (#[trigger] orig[j]).1 != i64::MIN,
            decreases n - i,
        {
            let pair = &entries[i];
            let c: i64 = match 0i64.checked_sub(pair.1) {
                Some(c) => c,
                None => {
                    return Err(EncodeError::Overflow);
                },
            };
            let key = pair.0.clone();
            proof {
                crate::types::row_value::lemma_like_trans(key, orig[i as int].0,
                    orig[i as int].0);
                assert forall|j: int| 0 <= j < i implies !(#[trigger] out@[j]).0.spec_eqv(key) by {
                    crate::types::row_value::lemma_like_both(out@[j].0, orig[j].0, key,
                        orig[i as int].0);
                }
                crate::types::safe_hash_map::lemma_index_of(out@, key);
                if spec_index_of(out@, key) != -1 {
                    assert(out@[spec_index_of(out@, key)].0.spec_eqv(key));
                    assert(false);
                }
            }
            out.insert(key, c);
            i += 1;
        }
        proof {
            assert forall|k2: RowValue| k2.wf() implies (match spec_get(out@, k2) {
                Some(c) => c as int,
                None => 0,
            }) == -old(self).spec_count(k2) by {
                crate::types::safe_hash_map::lemma_index_like_pointwise(out@, orig, k2);
                crate::types::safe_hash_map::lemma_index_of(out@, k2);
                crate::types::safe_hash_map::lemma_index_of(orig, k2);
            }
            assert(wf_keys(out@)) by {
                assert forall|j: int| 0 <= j < out@.len() implies (#[trigger] out@[j]).0.wf() by {
                    crate::types::row_value::lemma_like_wf(out@[j].0, orig[j].0);
                }
            }
        }
        self.counts = out;
        Ok(())
    }

    /// Whether the aggregate summarizes no live value: no entry carries a
    /// positive net count.
    pub fn is_zero(&self) -> (r: bool)
        requires
            self.wf(),
        ensures
            r == (forall|i: int| 0 <= i < self.counts@.len() ==> (#[trigger] self.counts@[i]).1
                <= 0),
    {
        let entries = self.counts.iter();
        let mut i: usize = 0;
        while i < entries.len()
            invariant
                0 <= i <= entries@.len(),
                entries@ == self.counts@,
                forall|j: int| 0 <= j < i ==> (#[trigger] self.counts@[j]).1 <= 0,
            decreases entries@.len() - i,
        {
            if entries[i].1 > 0 {
                return false;
            }
            i += 1;
        }
        true
    }

    /// Reads the live minimum and the range `max - min`. An aggregate with
    /// no live value is empty and cannot be read.
    #[verifier::rlimit(30)]
    pub fn get(&self) -> (r: Result<(Ratio, Ratio), EncodeError>)
        requires
            self.wf(),
        ensures
            (forall|i: int| 0 <= i < self.counts@.len() ==> (#[trigger] self.counts@[i]).1 <= 0)
                <==> r == Err::<(Ratio, Ratio), EncodeError>(EncodeError::EmptyAggregate),
            r matches Err(e) ==> e == EncodeError::EmptyAggregate || e == EncodeError::Overflow,
            r is Ok <==> (spec_extremes(self.counts@) matches Some(ext) && ext.1.sub_fits(ext.0)),
            r matches Ok((mn, rng)) ==> (spec_extremes(self.counts@) matches Some(ext) && mn
                == ext.0 && rng == spec_sub_val(ext.1, ext.0) && is_minmax_meta(
                *self,
                ext.0,
                ext.1,
            )),
            r matches Ok((mn, rng)) ==> is_range_meta(*self, mn, rng) && rng.wf(),
            r == Err::<(Ratio, Ratio), EncodeError>(EncodeError::Overflow) ==> (spec_extremes(
                self.counts@,
            ) matches Some(ext) && !ext.1.sub_fits(ext.0) && is_minmax_meta(*self, ext.0, ext.1)),
    {
        let entries = self.counts.iter();
        let n = entries.len();
        let mut found: bool = false;
        let mut mn: Ratio = Ratio::zero();
        let mut mx: Ratio = Ratio::zero();
        let mut i: usize = 0;
        while i < n
            invariant
                0 <= i <= n,
                n == self.counts@.len(),
                entries@ == self.counts@,
                self.wf(),
                !found ==> spec_extremes(self.counts@.take(i as int)) is None,
                found ==> spec_extremes(self.counts@.take(i as int)) == Some((mn, mx)),
                !found ==> forall|j: int| 0 <= j < i ==> (#[trigger] self.counts@[j]).1 <= 0,
                found ==> {
                    &&& mn.wf()
                    &&& mx.wf()
                    &&& exists|j: int|
                        0 <= j < i && (#[trigger] self.counts@[j]).1 > 0 && self.counts@[j].0
                            == RowValue::Number(mn)
                    &&& exists|j: int|
                        0 <= j < i && (#[trigger] self.counts@[j]).1 > 0 && self.counts@[j].0
                            == RowValue::Number(mx)
                    &&& forall|j: int|
                        0 <= j < i && (#[trigger] self.counts@[j]).1 > 0 ==> mn.spec_le(
                            self.counts@[j].0->Number_0,
                        ) && (self.counts@[j].0->Number_0).spec_le(mx)
                },
            decreases n - i,
        {
            proof {
                assert(self.counts@.take(i as int + 1).drop_last() =~= self.counts@.take(
                    i as int,
                ));
                assert(self.counts@.take(i as int + 1).last() == self.counts@[i as int]);
            }
            if entries[i].1 > 0 {
                let q = match &entries[i].0 {
                    RowValue::Number(q) => *q,
                    _ => {
                        proof {
                            assert(false);
                        }
                        vstd::pervasive::unreached()
                    },
                };
                if !found {
                    found = true;
                    mn = q;
                    mx = q;
                } else {
                    if q.lt(&mn) {
                        proof {
                            assert forall|j: int|
                                0 <= j < i && (#[trigger] self.counts@[j]).1 > 0 implies q.spec_le(
                                self.counts@[j].0->Number_0,
                            ) by {
                                lemma_ratio_le_trans(q, mn, self.counts@[j].0->Number_0);
                            }
                        }
                        mn = q;
                    }
                    if mx.lt(&q) {
                        proof {
                            assert forall|j: int|
                                0 <= j < i && (#[trigger] self.counts@[j]).1 > 0 implies (
                            self.counts@[j].0->Number_0).spec_le(q) by {
                                lemma_ratio_le_trans(self.counts@[j].0->Number_0, mx, q);
                            }
                        }
                        mx = q;
                    }
                }
            }
            i += 1;
        }
        proof {
            assert(self.counts@.take(n as int) =~= self.counts@);
        }
        if !found {
            return Err(EncodeError::EmptyAggregate);
        }
        proof {
            // The live minimum and maximum read through the count map: a
            // positive class has a positive entry whose key is equal as a
            // rational number.
            lemma_entries_to_counts(*self, mn, mx);
        }
        let rng = match mx.checked_sub(mn) {
            Some(rng) => rng,
            None => {
                proof {
                    lemma_extremes_none(self.counts@);
                }
                return Err(EncodeError::Overflow);
            },
        };
        proof {
            lemma_extremes_none(self.counts@);
            assert(is_minmax_meta(*self, mn, mx) && rng.num == mx.num * mn.den - mn.num * mx.den
                && rng.den == mx.den * mn.den && rng.wf());
            assert(is_range_meta(*self, mn, rng));
        }
        Ok((mn, rng))
    }
}

/// Bridges entry-level minimum/maximum facts to the count-map reading that
/// `is_minmax_meta` states.
proof fn lemma_entries_to_counts(agg: MinMaxAggregate, mn: Ratio, mx: Ratio)
    requires
        agg.wf(),
        mn.wf(),
        mx.wf(),
        exists|j: int|
            0 <= j < agg.counts@.len() && (#[trigger] agg.counts@[j]).1 > 0 && agg.counts@[j].0
                == RowValue::Number(mn),
        exists|j: int|
            0 <= j < agg.counts@.len() && (#[trigger] agg.counts@[j]).1 > 0 && agg.counts@[j].0
                == RowValue::Number(mx),
        forall|j: int|
            0 <= j < agg.counts@.len() && (#[trigger] agg.counts@[j]).1 > 0 ==> mn.spec_le(
                agg.counts@[j].0->Number_0,
            ) && (agg.counts@[j].0->Number_0).spec_le(mx),
    ensures
        is_minmax_meta(agg, mn, mx),
{
    let jn = choose|j: int|
        0 <= j < agg.counts@.len() && (#[trigger] agg.counts@[j]).1 > 0 && agg.counts@[j].0
            == RowValue::Number(mn);
    lemma_count_at_entry(agg, jn);
    let jx = choose|j: int|
        0 <= j < agg.counts@.len() && (#[trigger] agg.counts@[j]).1 > 0 && agg.counts@[j].0
            == RowValue::Number(mx);
    lemma_count_at_entry(agg, jx);
    assert forall|q: Ratio| q.wf() && #[trigger] agg.spec_count_ratio(q) > 0 implies mn.spec_le(q)
        && q.spec_le(mx) by {
        crate::types::safe_hash_map::lemma_index_of(agg.counts@, RowValue::Number(q));
        let j = spec_index_of(agg.counts@, RowValue::Number(q));
        assert(0 <= j < agg.counts@.len());
        assert(agg.counts@[j].0.spec_eqv(RowValue::Number(q)));
        let p = agg.counts@[j].0->Number_0;
        assert(p.spec_eqv(q));
        assert(agg.counts@[j].1 > 0);
        assert(mn.spec_le(p) && p.spec_le(mx));
        lemma_le_respects_eqv(mn, p, q);
        lemma_ge_respects_eqv(mx, p, q);
    }
}

/// Looking up an entry's own key finds that entry's count.
proof fn lemma_count_at_entry(agg: MinMaxAggregate, j: int)
    requires
        agg.wf(),
        0 <= j < agg.counts@.len(),
    ensures
        agg.spec_count(agg.counts@[j].0) == agg.counts@[j].1 as int,
{
    lemma_eqv_refl(agg.counts@[j].0);
    crate::types::safe_hash_map::lemma_index_of_unique(agg.counts@, agg.counts@[j].0, j);
}

/// `a <= p` carries over to any value equal to `p` as a rational number.
proof fn lemma_le_respects_eqv(a: Ratio, p: Ratio, q: Ratio)
    requires
        a.wf(),
        p.wf(),
        q.wf(),
        a.spec_le(p),
        p.spec_eqv(q),
    ensures
        a.spec_le(q),
{
    assert(a.num * q.den <= q.num * a.den) by (nonlinear_arith)
        requires
            a.num * p.den <= p.num * a.den,
            p.num * q.den == q.num * p.den,
            a.den >= 1,
            p.den >= 1,
            q.den >= 1,
    ;
}

/// `p <= a` carries over to any value equal to `p` as a rational number.
proof fn lemma_ge_respects_eqv(a: Ratio, p: Ratio, q: Ratio)
    requires
        a.wf(),
        p.wf(),
        q.wf(),
        p.spec_le(a),
        p.spec_eqv(q),
    ensures
        q.spec_le(a),
{
    assert(q.num * a.den <= a.num * q.den) by (nonlinear_arith)
        requires
            p.num * a.den <= a.num * p.den,
            p.num * q.den == q.num * p.den,
            a.den >= 1,
            p.den >= 1,
            q.den >= 1,
    ;
}

/// Folding the other count map in stays inside the machine integers: every
/// class's merged net count fits. (Each class appears once in a map, so the
/// receiving count it meets is the starting one.)
pub open spec fn minmax_merge_fits(start: MinMaxAggregate, entries: Seq<(RowValue, i64)>) -> bool {
    forall|i: int|
        0 <= i < entries.len() ==> i64::MIN <= start.spec_count((#[trigger] entries[i]).0)
            + entries[i].1 <= i64::MAX
}

/// The net count of the fitted-so-far aggregate before a batch.
pub open spec fn prior_count(meta: Option<MinMaxAggregate>, q: Ratio) -> int {
    match meta {
        Some(b) => b.spec_count_ratio(q),
        None => 0,
    }
}

/// Folding the batch in stays inside the machine integers: at every step,
/// the running net count of the step's value class fits.
pub open spec fn minmax_fit_ok(
    meta: Option<MinMaxAggregate>,
    data: Seq<((usize, RowValue), i64)>,
) -> bool {
    forall|i: int|
        0 <= i < data.len() ==> (match (#[trigger] data[i]).0.1.spec_number() {
            Some(q) => i64::MIN <= prior_count(meta, q) + net_mult_number(data.take(i), q)
                + data[i].1 <= i64::MAX,
            None => true,
        })
}

/// The min–max scaler: fits a `MinMaxAggregate` over a column and rescales
/// every value by `(value - min) / range`.
pub struct MinMaxScaler {
    /// The fitted aggregate; absent until the first `fit`.
    pub meta: Option<MinMaxAggregate>,
}

impl MinMaxScaler {
    /// A scaler with nothing fitted yet.
    pub fn new() -> (r: MinMaxScaler)
        ensures
            r.meta is None,
    {
        MinMaxScaler { meta: None }
    }

    /// Whether the fitted aggregate is well-formed (trivially true before
    /// the first fit).
    pub open spec fn wf(self) -> bool {
        self.meta matches Some(a) ==> a.wf()
    }

    /// Folds a batch of updates into the fitted aggregate, creating it on
    /// the first call. Every value must read as a number.
    pub fn fit(&mut self, data: &Vec<((usize, RowValue), i64)>) -> (r: Result<(), EncodeError>)
        requires
            old(self).wf(),
            wf_updates(data@),
        ensures
            final(self).wf(),
            r matches Err(e) ==> e == EncodeError::TypeMismatch || e == EncodeError::Overflow,
            r == Err::<(), EncodeError>(EncodeError::TypeMismatch) <==> exists|i: int|
                0 <= i < data@.len() && (#[trigger] data@[i]).0.1.spec_number() is None,
            (forall|i: int| 0 <= i < data@.len() ==> (#[trigger] data@[i]).0.1.spec_number()
                is Some) ==> (r is Ok <==> minmax_fit_ok(old(self).meta, data@)),
            r is Ok ==> {
                &&& final(self).meta matches Some(a) && a.wf() && forall|q: Ratio|
                    q.wf() ==> #[trigger] a.spec_count_ratio(q) == prior_count(old(self).meta, q)
                        + net_mult_number(data@, q)
            },
    {
        let mut i: usize = 0;
        while i < data.len()
            invariant
                0 <= i <= data@.len(),
                *self == *old(self),
                old(self).wf(),
                forall|j: int| 0 <= j < i ==> (#[trigger] data@[j]).0.1.spec_number() is Some,
            decreases data@.len() - i,
        {
            match data[i].0.1.get_number() {
                Ok(_) => {},
                Err(_) => {
                    return Err(EncodeError::TypeMismatch);
                },
            }
            i += 1;
        }
        let mut agg = match self.meta.take() {
            Some(a) => a,
            None => MinMaxAggregate::zero(),
        };
        let ghost start = agg;
        let mut i: usize = 0;
        while i < data.len()
            invariant
                0 <= i <= data@.len(),
                wf_updates(data@),
                forall|j: int| 0 <= j < data@.len() ==> (#[trigger] data@[j]).0.1.spec_number()
                    is Some,
                agg.wf(),
                start.wf(),
                forall|q: Ratio|
                    q.wf() ==> #[trigger] start.spec_count_ratio(q) == prior_count(
                        old(self).meta,
                        q,
                    ),
                forall|q: Ratio|
                    q.wf() ==> #[trigger] agg.spec_count_ratio(q) == start.spec_count_ratio(q)
                        + net_mult_number(data@.take(i as int), q),
                forall|m: int|
                    0 <= m < i ==> (match (#[trigger] data@[m]).0.1.spec_number() {
                        Some(q) => i64::MIN <= prior_count(old(self).meta, q) + net_mult_number(
                            data@.take(m),
                            q,
                        ) + data@[m].1 <= i64::MAX,
                        None => true,
                    }),
            decreases data@.len() - i,
        {
            let q = match data[i].0.1.get_number() {
                Ok(q) => q,
                Err(_) => {
                    proof {
                        assert(false);
                    }
                    vstd::pervasive::unreached()
                },
            };
            proof {
                assert(data@[i as int].0.1.wf());
            }
            let ghost before = agg;
            match agg.plus_equals_value_count(q, data[i].1) {
                Ok(_) => {},
                Err(_) => {
                    proof {
                        assert(before.spec_count_ratio(q) == prior_count(old(self).meta, q)
                            + net_mult_number(data@.take(i as int), q));
                        assert(!(match data@[i as int].0.1.spec_number() {
                            Some(p) => i64::MIN <= prior_count(old(self).meta, p)
                                + net_mult_number(data@.take(i as int), p) + data@[i as int].1
                                <= i64::MAX,
                            None => true,
                        }));
                    }
                    self.meta = Some(agg);
                    return Err(EncodeError::Overflow);
                },
            }
            proof {
                assert forall|p: Ratio| p.wf() implies #[trigger] agg.spec_count_ratio(p)
                    == start.spec_count_ratio(p) + net_mult_number(data@.take(i as int + 1), p) by {
                    lemma_net_mult_number_take_step(data@, i as int, p);
                    assert(RowValue::Number(p).wf());
                    assert(before.spec_count_ratio(p) == start.spec_count_ratio(p)
                        + net_mult_number(data@.take(i as int), p));
                    assert(agg.spec_count(RowValue::Number(p)) == before.spec_count(
                        RowValue::Number(p),
                    ) + (if RowValue::Number(q).spec_eqv(RowValue::Number(p)) {
                        data@[i as int].1 as int
                    } else {
                        0
                    }));
                    assert(RowValue::Number(q).spec_eqv(RowValue::Number(p)) == q.spec_eqv(p));
                    assert(data@[i as int].0.1.spec_number() == Some(q));
                }
            }
            i += 1;
        }
        proof {
            assert(data@.take(data@.len() as int) =~= data@);
        }
        self.meta = Some(agg);
        Ok(())
    }

    /// Rescales every record by `(value - min) / range` against the fitted
    /// aggregate. Succeeds exactly when something was fitted, a live value
    /// exists, the range fits and is nonzero, and every value reads as a
    /// number whose rescaling fits the machine integers.
    pub fn transform(&self, data: &Vec<((usize, RowValue), i64)>) -> (r: Result<
        Vec<((usize, RowValue), i64)>,
        EncodeError,
    >)
        requires
            self.wf(),
            wf_updates(data@),
        ensures
            self.meta is None <==> r == Err::<Vec<((usize, RowValue), i64)>, EncodeError>(
                EncodeError::NotFitted,
            ),
            r == Err::<Vec<((usize, RowValue), i64)>, EncodeError>(EncodeError::EmptyAggregate)
                <==> (self.meta matches Some(a) && spec_extremes(a.counts@) is None),
            r == Err::<Vec<((usize, RowValue), i64)>, EncodeError>(EncodeError::DegenerateScale)
                <==> (self.meta matches Some(a) && spec_extremes(a.counts@) matches Some(ext)
                && ext.1.sub_fits(ext.0) && spec_sub_val(ext.1, ext.0).num == 0),
            r is Ok <==> (self.meta matches Some(a) && spec_extremes(a.counts@) matches Some(ext)
                && ext.1.sub_fits(ext.0) && spec_sub_val(ext.1, ext.0).num != 0 && forall|j: int|
                0 <= j < data@.len() ==> ((#[trigger] data@[j]).0.1.spec_number() matches Some(vq)
                    && crate::types::ratio::scale_step_fits(vq, ext.0, spec_sub_val(ext.1, ext.0)))),
            r matches Ok(out) ==> {
                &&& out@.len() == data@.len()
                &&& spec_extremes(self.meta->Some_0.counts@) matches Some(ext) && is_minmax_meta(
                    self.meta->Some_0,
                    ext.0,
                    ext.1,
                ) && forall|j: int|
                    0 <= j < data@.len() ==> {
                        &&& (#[trigger] out@[j]).0.0 == data@[j].0.0
                        &&& out@[j].1 == data@[j].1
                        &&& out@[j].0.1 matches RowValue::Number(oq) && oq.wf()
                            && crate::types::ratio::scales_to(
                            data@[j].0.1.spec_number()->Some_0,
                            ext.0,
                            spec_sub_val(ext.1, ext.0),
                            oq,
                        )
                    }
            },
    {
        let agg = match &self.meta {
            None => {
                return Err(EncodeError::NotFitted);
            },
            Some(a) => a,
        };
        let (mn, rng) = match agg.get() {
            Ok(m) => m,
            Err(e) => {
                proof {
                    lemma_extremes_none(agg.counts@);
                }
                return Err(e);
            },
        };
        proof {
            lemma_extremes_none(agg.counts@);
        }
        if rng.is_zero() {
            return Err(EncodeError::DegenerateScale);
        }
        let mut out: Vec<((usize, RowValue), i64)> = Vec::new();
        let mut i: usize = 0;
        while i < data.len()
            invariant
                0 <= i <= data@.len(),
                wf_updates(data@),
                self.wf(),
                self.meta matches Some(a) && a == *agg,
                mn.wf(),
                rng.wf(),
                rng.num != 0,
                spec_extremes(agg.counts@) matches Some(ext) && mn == ext.0 && rng == spec_sub_val(
                    ext.1,
                    ext.0,
                ) && ext.1.sub_fits(ext.0) && is_minmax_meta(*agg, ext.0, ext.1),
                forall|j: int|
                    0 <= j < i ==> ((#[trigger] data@[j]).0.1.spec_number() matches Some(vq)
                        && crate::types::ratio::scale_step_fits(vq, mn, rng)),
                out@.len() == i,
                forall|j: int|
                    0 <= j < i ==> {
                        &&& (#[trigger] out@[j]).0.0 == data@[j].0.0
                        &&& out@[j].1 == data@[j].1
                        &&& data@[j].0.1.spec_number() matches Some(vq)
                        &&& out@[j].0.1 matches RowValue::Number(oq) && oq.wf()
                            && crate::types::ratio::scales_to(
                            data@[j].0.1.spec_number()->Some_0,
                            mn,
                            rng,
                            oq,
                        )
                    },
            decreases data@.len() - i,
        {
            let v = match data[i].0.1.get_number() {
                Ok(q) => q,
                Err(e) => {
                    return Err(e);
                },
            };
            proof {
                assert(data@[i as int].0.1.wf());
            }
            let d = match v.checked_sub(mn) {
                Some(d) => d,
                None => {
                    return Err(EncodeError::Overflow);
                },
            };
            let q = match d.checked_div(rng) {
                Some(q) => q,
                None => {
                    return Err(EncodeError::Overflow);
                },
            };
            proof {
                crate::types::ratio::lemma_scale_chain(v, mn, rng, d, q);
            }
            out.push(((data[i].0.0, RowValue::Number(q)), data[i].1));
            i += 1;
        }
        Ok(out)
    }
}

/// `mn` and `mx` are the live minimum and maximum of the updates in `data`:
/// both carry positive net multiplicity, and every value with positive net
/// multiplicity lies between them.
pub open spec fn is_minmax_of_data(data: Seq<((usize, RowValue), i64)>, mn: Ratio, mx: Ratio) -> bool {
    &&& mn.wf()
    &&& mx.wf()
    &&& net_mult_number(data, mn) > 0
    &&& net_mult_number(data, mx) > 0
    &&& forall|q: Ratio|
        q.wf() && #[trigger] net_mult_number(data, q) > 0 ==> mn.spec_le(q) && q.spec_le(mx)
}

/// `mn` and `rng` are a faithful reading of the updates in `data`: `mn`
/// their live minimum and `rng` exactly `max - min` for their live maximum.
pub open spec fn is_range_meta_of_data(
    data: Seq<((usize, RowValue), i64)>,
    mn: Ratio,
    rng: Ratio,
) -> bool {
    exists|mx: Ratio|
        #![trigger is_minmax_of_data(data, mn, mx)]
        {
            &&& is_minmax_of_data(data, mn, mx)
            &&& rng.num == mx.num * mn.den - mn.num * mx.den
            &&& rng.den == mx.den * mn.den
        }
}

/// The batch reads cleanly into a fresh aggregate: every value is numeric
/// and every running count fits.
pub open spec fn minmax_data_ok(data: Seq<((usize, RowValue), i64)>) -> bool {
    let fresh: Option<MinMaxAggregate> = None;
    &&& forall|i: int| 0 <= i < data.len() ==> (#[trigger] data[i]).0.1.spec_number() is Some
    &&& minmax_fit_ok(fresh, data)
}

/// Fits a fresh min–max aggregate over `data` and reads it: the live
/// minimum and the range `max - min`. A clean batch with a live value and
/// representable extremes is owed success.
pub fn get_meta(data: &Vec<((usize, RowValue), i64)>) -> (r: Result<(Ratio, Ratio), EncodeError>)
    requires
        wf_updates(data@),
    ensures
        r matches Err(e) ==> e == EncodeError::TypeMismatch || e == EncodeError::Overflow || e
            == EncodeError::EmptyAggregate,
        (minmax_data_ok(data@) && (exists|q: Ratio|
            #![trigger net_mult_number(data@, q)]
            q.wf() && net_mult_number(data@, q) > 0) && (forall|q1: Ratio, q2: Ratio|
            #![trigger q1.sub_fits(q2)]
            q1.wf() && q2.wf() && net_mult_number(data@, q1) > 0 && net_mult_number(data@, q2) > 0
                ==> q1.sub_fits(q2))) ==> r is Ok,
        r matches Ok((mn, rng)) ==> is_range_meta_of_data(data@, mn, rng) && rng.wf(),
{
    let mut scaler = MinMaxScaler::new();
    match scaler.fit(data) {
        Ok(_) => {},
        Err(e) => {
            return Err(e);
        },
    }
    let agg = match &scaler.meta {
        Some(a) => a,
        None => {
            proof {
                assert(false);
            }
            vstd::pervasive::unreached()
        },
    };
    let (mn, rng) = match agg.get() {
        Ok(m) => m,
        Err(e) => {
            proof {
                lemma_extremes_none(agg.counts@);
                if e == EncodeError::EmptyAggregate {
                    // A live value would put a positive entry in the map.
                    if exists|q: Ratio| q.wf() && #[trigger] net_mult_number(data@, q) > 0 {
                        let q = choose|q: Ratio| q.wf() && #[trigger] net_mult_number(data@, q)
                            > 0;
                        assert(agg.spec_count_ratio(q) > 0);
                        crate::types::safe_hash_map::lemma_index_of(
                            agg.counts@,
                            RowValue::Number(q),
                        );
                        let e0 = spec_index_of(agg.counts@, RowValue::Number(q));
                        assert(agg.counts@[e0].1 > 0);
                    }
                }
            }
            return Err(e);
        },
    };
    proof {
        let mx = choose|mx: Ratio|
            #![trigger is_minmax_meta(*agg, mn, mx)]
            {
                &&& is_minmax_meta(*agg, mn, mx)
                &&& rng.num == mx.num * mn.den - mn.num * mx.den
                &&& rng.den == mx.den * mn.den
            };
        assert(agg.spec_count_ratio(mn) == net_mult_number(data@, mn));
        assert(agg.spec_count_ratio(mx) == net_mult_number(data@, mx));
        assert forall|q: Ratio|
            q.wf() && #[trigger] net_mult_number(data@, q) > 0 implies mn.spec_le(q) && q.spec_le(
            mx,
        ) by {
            assert(agg.spec_count_ratio(q) == net_mult_number(data@, q));
        }
        assert(is_minmax_of_data(data@, mn, mx));
        assert(is_range_meta_of_data(data@, mn, rng));
    }
    Ok((mn, rng))
}

} // verus!
