//! The position-assignment aggregate.
//!
//! It maintains a live bijection between observed values and positions of a
//! dense vector: a value whose net count rises above zero is assigned an
//! index (reusing freed ones), a value whose net count falls back to zero
//! frees its index, and the nominal vector width grows geometrically and
//! shrinks again, with a compaction, when too few values stay live. This is
//! what makes one-hot encoding, ordinal encoding and count vectorization
//! incrementally maintainable under retractions.

use vstd::prelude::*;

use crate::types::row_value::lemma_eqv_refl;
use crate::types::row_value::lemma_like_both;
use crate::types::row_value::lemma_like_trans;
use crate::types::row_value::lemma_like_wf;
use crate::types::row_value::RowValue;
use crate::types::safe_hash_map::distinct_keys;
use crate::types::safe_hash_map::lemma_get_eqv;
use crate::types::safe_hash_map::lemma_get_like;
use crate::types::safe_hash_map::lemma_get_push;
use crate::types::safe_hash_map::lemma_get_update_value;
use crate::types::safe_hash_map::lemma_index_like_pointwise;
use crate::types::safe_hash_map::lemma_insert_fresh;
use crate::types::safe_hash_map::lemma_remove_class;
use crate::types::safe_hash_map::lemma_index_of;
use crate::types::safe_hash_map::spec_contains_key;
use crate::types::safe_hash_map::spec_get;
use crate::types::safe_hash_map::spec_index_of;
use crate::types::safe_hash_map::wf_keys;
use crate::types::safe_hash_map::SafeHashMap;
use crate::EncodeError;

verus! {

/// The nominal width after growing geometrically (steps of one half) until
/// it covers `live` positions.
pub open spec fn grow_width(len: int, live: int) -> int
    decreases (if live > len {
        live - len
    } else {
        0
    }),
{
    if live <= len {
        len
    } else {
        let next = if len <= (usize::MAX - 1) as int / 3 {
            (3 * len + 1) / 2
        } else {
            live
        };
        if next > len {
            grow_width(next, live)
        } else {
            live
        }
    }
}

/// The nominal width after shrinking by steps of one third while fewer than
/// two thirds of it is live.
pub open spec fn shrink_width(len: int, live: int) -> int
    decreases len,
{
    if 0 <= live < 2 * len / 3 && len >= 2 {
        let next = (2 * len + 2) / 3;
        shrink_width(if next < len { next } else { len - 1 }, live)
    } else {
        len
    }
}

/// A live, compactable assignment of dense-vector positions to observed
/// values, together with the signed bookkeeping that makes it a group
/// element for differential maintenance.
#[derive(Debug, Clone)]
pub struct PositionAssignmentAggregate {
    /// The position of each live value.
    pub val_to_index: SafeHashMap<usize>,
    /// The net count of each value ever touched.
    pub val_to_count: SafeHashMap<i64>,
    /// Positions freed by values that died, ready for reuse.
    pub free_indices: Vec<usize>,
    /// The next never-used position.
    pub next_index: usize,
    /// The nominal vector width; at least the number of live values.
    pub len: usize,
    /// Whether the aggregate has been negated (counts read with flipped
    /// sign when merging).
    pub neg: bool,
    /// The signed number of rows summarized.
    pub row_count: i64,
}

impl PositionAssignmentAggregate {
    /// The net count recorded for `v`.
    pub open spec fn spec_count(self, v: RowValue) -> int {
        match spec_get(self.val_to_count@, v) {
            Some(c) => c as int,
            None => 0,
        }
    }

    /// The position assigned to `v`, if `v` is live.
    pub open spec fn spec_index(self, v: RowValue) -> Option<usize> {
        spec_get(self.val_to_index@, v)
    }

    /// How many values are live.
    pub open spec fn live_count(self) -> int {
        self.val_to_index@.len() as int
    }

    /// The bookkeeping of positions: pairwise distinct, below `next_index`
    /// and disjoint from the free list, whose members are themselves
    /// distinct and below `next_index`.
    pub open spec fn positions_wf(self) -> bool {
        &&& forall|i: int|
            0 <= i < self.val_to_index@.len() ==> (#[trigger] self.val_to_index@[i]).1
                < self.next_index
        &&& forall|i: int, j: int|
            0 <= i < j < self.val_to_index@.len() ==> (#[trigger] self.val_to_index@[i]).1 != (
            #[trigger] self.val_to_index@[j]).1
        &&& forall|i: int, f: int|
            0 <= i < self.val_to_index@.len() && 0 <= f < self.free_indices@.len() ==> (
            #[trigger] self.val_to_index@[i]).1 != (#[trigger] self.free_indices@[f])
        &&& forall|f: int|
            0 <= f < self.free_indices@.len() ==> (#[trigger] self.free_indices@[f])
                < self.next_index
        &&& forall|f: int, g: int|
            0 <= f < g < self.free_indices@.len() ==> (#[trigger] self.free_indices@[f]) != (
            #[trigger] self.free_indices@[g])
    }

    /// The aggregate invariant: maps are well-formed, exactly the values
    /// with positive net count hold a position, the position bookkeeping is
    /// consistent, every position below `next_index` is either in use or
    /// free, and the nominal width covers them.
    pub open spec fn wf(self) -> bool {
        &&& self.val_to_index.wf()
        &&& wf_keys(self.val_to_index@)
        &&& self.val_to_count.wf()
        &&& wf_keys(self.val_to_count@)
        &&& self.len >= 1
        &&& self.len >= self.val_to_index@.len()
        &&& forall|k2: RowValue|
            k2.wf() ==> (spec_contains_key(self.val_to_index@, k2) <==> self.spec_count(k2) > 0)
        &&& self.positions_wf()
        &&& self.next_index == self.val_to_index@.len() + self.free_indices@.len()
        &&& self.next_index <= self.len
    }

    /// The empty aggregate: no values, no rows, width one.
    pub fn zero() -> (r: PositionAssignmentAggregate)
        ensures
            r.wf(),
            r.val_to_index@ =~= Seq::<(RowValue, usize)>::empty(),
            r.val_to_count@ =~= Seq::<(RowValue, i64)>::empty(),
            r.free_indices@ =~= Seq::<usize>::empty(),
            r.next_index == 0,
            r.len == 1,
            r.neg == false,
            r.row_count == 0,
    {
        PositionAssignmentAggregate {
            val_to_index: SafeHashMap::new(),
            val_to_count: SafeHashMap::new(),
            free_indices: Vec::new(),
            next_index: 0,
            len: 1,
            neg: false,
            row_count: 0,
        }
    }

    /// Whether the aggregate is the group zero.
    pub fn is_zero(&self) -> (r: bool)
        ensures
            r == (self.row_count == 0),
    {
        self.row_count == 0
    }

    /// How many values are live.
    pub fn value_count(&self) -> (r: usize)
        ensures
            r == self.live_count(),
    {
        self.val_to_index.len()
    }

    /// Hands out the vocabulary and the nominal width, consuming the
    /// aggregate.
    pub fn get_map_and_len(self) -> (r: (SafeHashMap<usize>, usize))
        ensures
            r.0 == self.val_to_index,
            r.1 == self.len,
    {
        (self.val_to_index, self.len)
    }

    /// Picks a fresh position: the most recently freed one, or the next
    /// never-used one.
    pub fn assign_index(&mut self) -> (idx: usize)
        requires
            old(self).positions_wf(),
            old(self).free_indices@.len() > 0 || old(self).next_index < usize::MAX,
        ensures
            final(self).positions_wf(),
            final(self).val_to_index == old(self).val_to_index,
            final(self).val_to_count == old(self).val_to_count,
            final(self).len == old(self).len,
            final(self).neg == old(self).neg,
            final(self).row_count == old(self).row_count,
            if old(self).free_indices@.len() > 0 {
                &&& idx == old(self).free_indices@.last()
                &&& final(self).free_indices@ == old(self).free_indices@.drop_last()
                &&& final(self).next_index == old(self).next_index
            } else {
                &&& idx == old(self).next_index
                &&& final(self).free_indices@ == old(self).free_indices@
                &&& final(self).next_index == old(self).next_index + 1
            },
            idx < final(self).next_index,
            forall|i: int|
                0 <= i < final(self).val_to_index@.len() ==> (
                #[trigger] final(self).val_to_index@[i]).1 != idx,
            forall|f: int|
                0 <= f < final(self).free_indices@.len() ==> (
                #[trigger] final(self).free_indices@[f]) != idx,
    {
        if self.free_indices.len() > 0 {
            let idx = self.free_indices.pop().unwrap();
            proof {
                assert(forall|f: int|
                    0 <= f < self.free_indices@.len() ==> #[trigger] self.free_indices@[f]
                        == old(self).free_indices@[f]);
            }
            idx
        } else {
            self.next_index = self.next_index + 1;
            self.next_index - 1
        }
    }

    /// Reassigns consecutive positions `0..n-1` to the live values, in
    /// vocabulary order, and resets the free list.
    pub fn compress(&mut self)
        requires
            old(self).wf(),
        ensures
            final(self).wf(),
            final(self).val_to_count == old(self).val_to_count,
            final(self).free_indices@ =~= Seq::<usize>::empty(),
            final(self).next_index == old(self).live_count(),
            final(self).len == old(self).len,
            final(self).neg == old(self).neg,
            final(self).row_count == old(self).row_count,
            final(self).val_to_index@.len() == old(self).val_to_index@.len(),
            forall|i: int|
                0 <= i < final(self).val_to_index@.len() ==> (
                #[trigger] final(self).val_to_index@[i]).0.like(old(self).val_to_index@[i].0) && (
                #[trigger] final(self).val_to_index@[i]).1 == i,
            forall|k2: RowValue|
                spec_contains_key(#[trigger] final(self).val_to_index@, k2)
                    == spec_contains_key(old(self).val_to_index@, k2),
    {
        let keys = self.val_to_index.keys();
        let ghost old_entries = self.val_to_index@;
        let mut new_map: SafeHashMap<usize> = SafeHashMap::new();
        let mut i: usize = 0;
        while i < keys.len()
            invariant
                0 <= i <= keys@.len(),
                keys@.len() == old_entries.len(),
                old(self).val_to_index@ == old_entries,
                old(self).wf(),
                forall|j: int| 0 <= j < keys@.len() ==> (#[trigger] keys@[j]).like(
                    old_entries[j].0,
                ),
                new_map@.len() == i,
                new_map.wf(),
                forall|j: int| 0 <= j < i ==> (#[trigger] new_map@[j]).0.like(old_entries[j].0)
                    && (#[trigger] new_map@[j]).1 == j,
            decreases keys@.len() - i,
        {
            let key_i = keys[i].clone();
            proof {
                lemma_like_trans(key_i, keys@[i as int], old_entries[i as int].0);
                // The key about to be inserted matches no key already in the
                // new map: the old map's keys are pairwise unequal.
                assert forall|j: int| 0 <= j < i implies !(#[trigger] new_map@[j]).0.spec_eqv(
                    key_i,
                ) by {
                    lemma_like_both(new_map@[j].0, old_entries[j].0, key_i,
                        old_entries[i as int].0);
                }
                lemma_index_of(new_map@, key_i);
                if spec_index_of(new_map@, key_i) != -1 {
                    let m = spec_index_of(new_map@, key_i);
                    assert(new_map@[m].0.spec_eqv(key_i));
                }
            }
            new_map.insert(key_i, i);
            i += 1;
        }
        self.val_to_index = new_map;
        self.free_indices = Vec::new();
        self.next_index = i;
        proof {
            let fin = *self;
            let olds = *old(self);
            assert forall|j: int| 0 <= j < fin.val_to_index@.len() implies (
            #[trigger] fin.val_to_index@[j]).0.like(olds.val_to_index@[j].0)
                && fin.val_to_index@[j].1 == j by {}
            assert forall|k2: RowValue| spec_contains_key(#[trigger] fin.val_to_index@, k2)
                == spec_contains_key(olds.val_to_index@, k2) by {
                lemma_index_like_pointwise(fin.val_to_index@, olds.val_to_index@, k2);
            }
            assert(fin.wf()) by {
                assert(wf_keys(fin.val_to_index@)) by {
                    assert(forall|j: int|
                        0 <= j < fin.val_to_index@.len() ==> (
                        #[trigger] fin.val_to_index@[j]).0.like(olds.val_to_index@[j].0));
                    assert(forall|j: int|
                        0 <= j < olds.val_to_index@.len() ==> (
                        #[trigger] olds.val_to_index@[j]).0.wf());
                    assert forall|j: int| 0 <= j < fin.val_to_index@.len() implies (
                    #[trigger] fin.val_to_index@[j]).0.wf() by {
                        assert(fin.val_to_index@[j].0.like(olds.val_to_index@[j].0));
                        lemma_like_wf(fin.val_to_index@[j].0, olds.val_to_index@[j].0);
                    }
                }
                assert forall|k2: RowValue| k2.wf() implies (spec_contains_key(
                    fin.val_to_index@,
                    k2,
                ) <==> fin.spec_count(k2) > 0) by {
                    lemma_index_like_pointwise(fin.val_to_index@, olds.val_to_index@, k2);
                }
            }
        }
    }

    /// `k` would push the net count of `value` above zero.
    pub open spec fn crossing_up(self, value: RowValue, k: int) -> bool {
        self.spec_count(value) <= 0 && self.spec_count(value) + k > 0
    }

    /// `k` would pull the net count of `value` down to zero or below.
    pub open spec fn crossing_down(self, value: RowValue, k: int) -> bool {
        self.spec_count(value) > 0 && self.spec_count(value) + k <= 0
    }

    /// How many values are live after applying `k` to `value`.
    pub open spec fn live_after(self, value: RowValue, k: int) -> int {
        if self.crossing_up(value, k) {
            self.live_count() + 1
        } else if self.crossing_down(value, k) {
            self.live_count() - 1
        } else {
            self.live_count()
        }
    }

    /// The update stays within the machine integers.
    pub open spec fn update_fits(self, value: RowValue, k: int) -> bool {
        &&& i64::MIN <= self.spec_count(value) + k <= i64::MAX
        &&& (self.crossing_up(value, k) ==> self.free_indices@.len() > 0 || self.next_index
            < usize::MAX)
    }

    /// Whether applying `k` to `value` triggers a compaction.
    pub open spec fn compacts(self, value: RowValue, k: int) -> bool {
        let live1 = self.live_after(value, k);
        !(live1 > self.len) && live1 < 2 * (self.len as int) / 3
    }

    /// The nominal width after applying `k` to `value`.
    pub open spec fn width_after(self, value: RowValue, k: int) -> int {
        let live1 = self.live_after(value, k);
        if live1 > self.len {
            grow_width(self.len as int, live1)
        } else if live1 < 2 * (self.len as int) / 3 {
            shrink_width(self.len as int, live1)
        } else {
            self.len as int
        }
    }

    /// Applies a signed count to one value: updates its net count, assigns
    /// or frees its position on the zero crossings, and adjusts the nominal
    /// width (growing geometrically, or compacting when live values fall
    /// under two thirds of it).
    #[verifier::rlimit(60)]
    pub fn plus_equals_value_count(&mut self, value: &RowValue, count_to_add: i64) -> (r: Result<
        (),
        EncodeError,
    >)
        requires
            old(self).wf(),
            value.wf(),
        ensures
            final(self).wf(),
            r is Ok <==> old(self).update_fits(*value, count_to_add as int),
            r is Err ==> *final(self) == *old(self),
            r is Ok ==> final(self).next_index <= old(self).next_index + 1,
            r is Ok ==> {
                let k = count_to_add as int;
                &&& forall|k2: RowValue|
                    k2.wf() ==> final(self).spec_count(k2) == old(self).spec_count(k2) + (
                    if value.spec_eqv(k2) {
                        k
                    } else {
                        0
                    })
                &&& final(self).live_count() == old(self).live_after(*value, k)
                &&& final(self).len == old(self).width_after(*value, k)
                &&& final(self).row_count == old(self).row_count
                &&& final(self).neg == old(self).neg
                &&& (!old(self).compacts(*value, k) ==> forall|k2: RowValue|
                    k2.wf() && !value.spec_eqv(k2) ==> final(self).spec_index(k2) == old(
                        self,
                    ).spec_index(k2))
                &&& (!old(self).compacts(*value, k) ==> {
                    if old(self).crossing_up(*value, k) {
                        final(self).spec_index(*value) == Some(
                            if old(self).free_indices@.len() > 0 {
                                old(self).free_indices@.last()
                            } else {
                                old(self).next_index
                            },
                        )
                    } else if old(self).crossing_down(*value, k) {
                        final(self).spec_index(*value) is None
                    } else {
                        final(self).spec_index(*value) == old(self).spec_index(*value)
                    }
                })
                &&& (old(self).compacts(*value, k) ==> forall|i: int|
                    0 <= i < final(self).val_to_index@.len() ==> (
                    #[trigger] final(self).val_to_index@[i]).1 == i)
                &&& ((count_to_add > 0 && old(self).live_count() >= 2 * (old(self).len as int)
                    / 3) ==> {
                    &&& !old(self).compacts(*value, k)
                    &&& final(self).len >= old(self).len
                    &&& final(self).live_count() >= 2 * (final(self).len as int) / 3
                })
            },
    {
        proof {
            lemma_eqv_refl(*value);
        }
        let c0: i64 = match self.val_to_count.get(value) {
            Some(c) => *c,
            None => 0,
        };
        let c1: i64 = match c0.checked_add(count_to_add) {
            Some(c) => c,
            None => {
                return Err(EncodeError::Overflow);
            },
        };
        let crossing_up = c0 <= 0 && c1 > 0;
        let crossing_down = c0 > 0 && c1 <= 0;
        if crossing_up && self.free_indices.len() == 0 && self.next_index == usize::MAX {
            return Err(EncodeError::Overflow);
        }
        let ghost pre = *self;
        let ghost k = count_to_add as int;
        proof {
            assert(pre.spec_count(*value) == c0 as int);
        }
        let key = value.clone();
        proof {
            lemma_get_like(pre.val_to_count@, key, *value);
        }
        self.val_to_count.insert(key, c1);
        proof {
            if spec_index_of(pre.val_to_count@, *value) == -1 {
                assert(key.like(*value) && self.val_to_count@ == pre.val_to_count@.push(
                    (key, c1),
                ));
            }
            lemma_count_after_insert(pre, *self, *value, c0 as int, c1, k);
        }
        if crossing_up {
            proof {
                // `value` holds no position yet: its net count was not
                // positive.
                if spec_contains_key(pre.val_to_index@, *value) {
                    assert(pre.spec_count(*value) > 0);
                    assert(false);
                }
            }
            let idx = self.assign_index();
            let ghost assigned = *self;
            let key2 = value.clone();
            self.val_to_index.insert(key2, idx);
            proof {
                lemma_index_of(pre.val_to_index@, *value);
                if spec_index_of(pre.val_to_index@, *value) != -1 {
                    assert(spec_contains_key(pre.val_to_index@, *value));
                    assert(false);
                }
                lemma_get_like(assigned.val_to_index@, key2, *value);
                assert(self.val_to_index@ == pre.val_to_index@.push((key2, idx)));
                lemma_insert_fresh(pre.val_to_index@, self.val_to_index@, key2, *value, idx);
                lemma_eqv_refl(*value);
                // The liveness reading of the new state.
                assert forall|k2: RowValue| k2.wf() implies (spec_contains_key(
                    self.val_to_index@,
                    k2,
                ) <==> self.spec_count(k2) > 0) by {
                    if value.spec_eqv(k2) {
                        crate::types::row_value::lemma_eqv_sym(*value, k2);
                        lemma_get_eqv(pre.val_to_count@, k2, *value);
                        assert(spec_get(self.val_to_index@, k2) == Some(idx));
                    }
                }
                // Position bookkeeping of the new state.
                assert(self.positions_wf()) by {
                    assert(forall|i: int|
                        0 <= i < pre.val_to_index@.len() ==> #[trigger] self.val_to_index@[i]
                            == pre.val_to_index@[i]);
                    assert(self.val_to_index@[self.val_to_index@.len() - 1] == (key2, idx));
                }
            }
        } else if crossing_down {
            proof {
                assert(pre.spec_count(*value) > 0);
                assert(spec_contains_key(pre.val_to_index@, *value));
            }
            let idx = match self.val_to_index.get(value) {
                Some(i) => *i,
                None => {
                    proof {
                        assert(false);
                    }
                    vstd::pervasive::unreached()
                },
            };
            self.val_to_index.remove(value);
            self.free_indices.push(idx);
            proof {
                let i0 = spec_index_of(pre.val_to_index@, *value);
                lemma_index_of(pre.val_to_index@, *value);
                assert(pre.val_to_index@[i0].1 == idx);
                lemma_remove_class(pre.val_to_index@, self.val_to_index@, *value);
                assert forall|k2: RowValue| k2.wf() implies (spec_contains_key(
                    self.val_to_index@,
                    k2,
                ) <==> self.spec_count(k2) > 0) by {
                    if value.spec_eqv(k2) {
                        crate::types::row_value::lemma_eqv_sym(*value, k2);
                        lemma_get_eqv(pre.val_to_count@, k2, *value);
                        assert(spec_get(self.val_to_index@, k2) is None);
                    }
                }
                assert(self.positions_wf()) by {
                    assert(forall|j: int|
                        0 <= j < i0 ==> #[trigger] self.val_to_index@[j]
                            == pre.val_to_index@[j]);
                    assert(forall|j: int|
                        i0 <= j < self.val_to_index@.len() ==> #[trigger] self.val_to_index@[j]
                            == pre.val_to_index@[j + 1]);
                    assert(forall|f: int|
                        0 <= f < pre.free_indices@.len() ==> #[trigger] self.free_indices@[f]
                            == pre.free_indices@[f]);
                    assert(self.free_indices@[self.free_indices@.len() - 1] == idx);
                }
            }
        } else {
            proof {
                assert forall|k2: RowValue| k2.wf() implies (spec_contains_key(
                    self.val_to_index@,
                    k2,
                ) <==> self.spec_count(k2) > 0) by {
                    if value.spec_eqv(k2) {
                        crate::types::row_value::lemma_eqv_sym(*value, k2);
                        lemma_get_eqv(pre.val_to_count@, k2, *value);
                    }
                }
            }
        }
        let ghost mid = *self;
        proof {
            assert(mid.val_to_count@ == (if spec_index_of(pre.val_to_count@, *value) == -1 {
                pre.val_to_count@.push((key, c1))
            } else {
                pre.val_to_count@.update(
                    spec_index_of(pre.val_to_count@, *value),
                    (pre.val_to_count@[spec_index_of(pre.val_to_count@, *value)].0, c1),
                )
            }));
            assert(mid.live_count() == pre.live_after(*value, k));
        }
        let live = self.val_to_index.len();
        if live > self.len {
            proof {
                lemma_grow_width_bounds(self.len as int, live as int);
            }
            while live > self.len
                invariant
                    self.val_to_index == mid.val_to_index,
                    self.val_to_count == mid.val_to_count,
                    self.free_indices == mid.free_indices,
                    self.next_index == mid.next_index,
                    self.neg == mid.neg,
                    self.row_count == mid.row_count,
                    live == mid.val_to_index@.len(),
                    self.len >= 1,
                    grow_width(self.len as int, live as int) == grow_width(
                        mid.len as int,
                        live as int,
                    ),
                decreases (if live > self.len {
                    live - self.len
                } else {
                    0int
                }),
            {
                let next = if self.len <= (usize::MAX - 1) / 3 {
                    let stepped = (3 * self.len + 1) / 2;
                    proof {
                        vstd::arithmetic::div_mod::lemma_fundamental_div_mod(
                            3 * self.len as int + 1,
                            2,
                        );
                        assert(stepped >= self.len + 1);
                    }
                    stepped
                } else {
                    live
                };
                self.len = next;
            }
        } else {
            let live_w = live as u128;
            let shrink_now = live_w < 2 * (self.len as u128) / 3;
            if shrink_now {
                proof {
                    assert(self.wf());
                }
                self.compress();
                let ghost comp = *self;
                while (live as u128) < 2 * (self.len as u128) / 3
                    invariant
                        self.val_to_index == comp.val_to_index,
                        self.val_to_count == comp.val_to_count,
                        self.free_indices == comp.free_indices,
                        self.next_index == comp.next_index,
                        self.neg == comp.neg,
                        self.row_count == comp.row_count,
                        live == comp.val_to_index@.len(),
                        self.len >= 1,
                        self.len >= live,
                        shrink_width(self.len as int, live as int) == shrink_width(
                            comp.len as int,
                            live as int,
                        ),
                    decreases self.len,
                {
                    let next_w = (2 * (self.len as u128) + 2) / 3;
                    proof {
                        assert(2 * (self.len as int) / 3 >= 1);
                        assert(self.len >= 2);
                        assert(next_w <= self.len as u128);
                    }
                    let next = next_w as usize;
                    self.len = if next < self.len {
                        next
                    } else {
                        self.len - 1
                    };
                }
            }
        }
        Ok(())
    }

    /// Negates the aggregate: flips the negation flag and the row count.
    /// Counts are left in place and read with flipped sign when merging.
    pub fn negate(&mut self) -> (r: Result<(), EncodeError>)
        requires
            old(self).wf(),
        ensures
            final(self).wf(),
            r is Ok <==> old(self).row_count != i64::MIN,
            r is Err ==> *final(self) == *old(self) && r == Err::<(), EncodeError>(
                EncodeError::Overflow,
            ),
            r is Ok ==> {
                &&& final(self).neg == !old(self).neg
                &&& final(self).row_count == -old(self).row_count
                &&& final(self).val_to_index == old(self).val_to_index
                &&& final(self).val_to_count == old(self).val_to_count
                &&& final(self).free_indices == old(self).free_indices
                &&& final(self).next_index == old(self).next_index
                &&& final(self).len == old(self).len
            },
    {
        if self.row_count == i64::MIN {
            return Err(EncodeError::Overflow);
        }
        self.neg = !self.neg;
        self.row_count = -self.row_count;
        Ok(())
    }

    /// Folds another aggregate in: every value class of the other count map
    /// is applied with the sign given by the two negation flags, and the row
    /// counts are added. On overflow a prefix of the merge may have been
    /// applied; the invariant still holds.
    pub fn plus_equals(&mut self, other: &PositionAssignmentAggregate) -> (r: Result<
        (),
        EncodeError,
    >)
        requires
            old(self).wf(),
            other.wf(),
        ensures
            final(self).wf(),
            final(self).neg == old(self).neg,
            r is Err ==> r == Err::<(), EncodeError>(EncodeError::Overflow)
                && final(self).row_count == old(self).row_count,
            paa_merge_fits(*old(self), *other) ==> r is Ok,
            r is Ok ==> {
                let sign: int = if old(self).neg != other.neg {
                    -1
                } else {
                    1
                };
                &&& final(self).row_count == old(self).row_count + other.row_count
                &&& forall|k2: RowValue|
                    k2.wf() ==> final(self).spec_count(k2) == old(self).spec_count(k2) + sign
                        * class_sum(other.val_to_count@, k2)
            },
    {
        let new_rc: i64 = match self.row_count.checked_add(other.row_count) {
            Some(c) => c,
            None => {
                return Err(EncodeError::Overflow);
            },
        };
        let ghost start = *self;
        let ghost sign: int = if start.neg != other.neg {
            -1
        } else {
            1
        };
        let flip = self.neg != other.neg;
        let entries = other.val_to_count.iter();
        let n = entries.len();
        let mut i: usize = 0;
        while i < n
            invariant
                0 <= i <= n,
                n == other.val_to_count@.len(),
                entries@ == other.val_to_count@,
                other.wf(),
                self.wf(),
                self.neg == start.neg,
                self.row_count == start.row_count,
                start == *old(self),
                start.wf(),
                self.next_index <= start.next_index + i,
                flip == (start.neg != other.neg),
                sign == (if start.neg != other.neg {
                    -1int
                } else {
                    1int
                }),
                forall|k2: RowValue|
                    k2.wf() ==> self.spec_count(k2) == start.spec_count(k2) + sign * class_sum(
                        other.val_to_count@.take(i as int),
                        k2,
                    ),
            decreases n - i,
        {
            let pair = &entries[i];
            let eff: i64 = if flip {
                match 0i64.checked_sub(pair.1) {
                    Some(c) => c,
                    None => {
                        proof {
                            assert(!paa_merge_fits(start, *other));
                        }
                        return Err(EncodeError::Overflow);
                    },
                }
            } else {
                pair.1
            };
            proof {
                if paa_merge_fits(start, *other) {
                    // The receiving class count is still the starting one:
                    // no earlier entry of the other map matches this class.
                    assert forall|m: int|
                        0 <= m < other.val_to_count@.take(i as int).len() implies !(
                    #[trigger] other.val_to_count@.take(i as int)[m]).0.spec_eqv(
                        other.val_to_count@[i as int].0,
                    ) by {
                        assert(other.val_to_count@.take(i as int)[m] == other.val_to_count@[m]);
                    }
                    lemma_class_sum_absent(
                        other.val_to_count@.take(i as int),
                        other.val_to_count@[i as int].0,
                    );
                    assert(self.spec_count(other.val_to_count@[i as int].0) == start.spec_count(
                        other.val_to_count@[i as int].0,
                    ));
                }
            }
            let ghost before = *self;
            match self.plus_equals_value_count(&pair.0, eff) {
                Ok(_) => {},
                Err(e) => {
                    proof {
                        assert(!paa_merge_fits(start, *other));
                    }
                    return Err(EncodeError::Overflow);
                },
            }
            proof {
                assert forall|k2: RowValue| k2.wf() implies self.spec_count(k2)
                    == start.spec_count(k2) + sign * class_sum(
                    other.val_to_count@.take(i as int + 1),
                    k2,
                ) by {
                    lemma_class_sum_take_step(other.val_to_count@, i as int, k2);
                    assert(self.spec_count(k2) == before.spec_count(k2) + (
                    if other.val_to_count@[i as int].0.spec_eqv(k2) {
                        eff as int
                    } else {
                        0
                    }));
                    if other.val_to_count@[i as int].0.spec_eqv(k2) {
                        assert(eff as int == sign * other.val_to_count@[i as int].1)
                            by (nonlinear_arith)
                            requires
                                eff as int == (if flip {
                                    -(other.val_to_count@[i as int].1 as int)
                                } else {
                                    other.val_to_count@[i as int].1 as int
                                }),
                                sign == (if flip {
                                    -1int
                                } else {
                                    1int
                                }),
                        ;
                        assert(sign * class_sum(other.val_to_count@.take(i as int + 1), k2)
                            == sign * class_sum(other.val_to_count@.take(i as int), k2) + sign
                            * other.val_to_count@[i as int].1) by (nonlinear_arith)
                            requires
                                class_sum(other.val_to_count@.take(i as int + 1), k2)
                                    == class_sum(other.val_to_count@.take(i as int), k2)
                                    + other.val_to_count@[i as int].1,
                        ;
                    } else {
                        assert(class_sum(other.val_to_count@.take(i as int + 1), k2)
                            == class_sum(other.val_to_count@.take(i as int), k2));
                    }
                }
            }
            i += 1;
        }
        proof {
            assert(other.val_to_count@.take(n as int) =~= other.val_to_count@);
        }
        self.row_count = new_rc;
        Ok(())
    }

    /// The aggregate contributed by one record carrying `val` with signed
    /// multiplicity `mult`.
    pub fn new_with_val(val: &RowValue, mult: i64) -> (r: Result<
        PositionAssignmentAggregate,
        EncodeError,
    >)
        requires
            val.wf(),
        ensures
            r is Ok,
            r matches Ok(agg) ==> {
                &&& agg.wf()
                &&& agg.row_count == mult
                &&& agg.neg == false
                &&& forall|k2: RowValue|
                    k2.wf() ==> agg.spec_count(k2) == (if val.spec_eqv(k2) {
                        mult as int
                    } else {
                        0
                    })
            },
    {
        let mut agg = PositionAssignmentAggregate::zero();
        agg.row_count = mult;
        proof {
            assert(forall|k2: RowValue| k2.wf() ==> #[trigger] agg.spec_count(k2) == 0);
        }
        match agg.plus_equals_value_count(val, mult) {
            Ok(_) => Ok(agg),
            Err(e) => Err(e),
        }
    }

    /// The aggregate contributed by one record carrying the sequence of
    /// values `tokens` (each occurrence counted once) with signed
    /// multiplicity `mult`.
    pub fn new_with_vec(tokens: &Vec<RowValue>, mult: i64) -> (r: Result<
        PositionAssignmentAggregate,
        EncodeError,
    >)
        requires
            forall|i: int| 0 <= i < tokens@.len() ==> (#[trigger] tokens@[i]).wf(),
        ensures
            r matches Err(e) ==> e == EncodeError::Overflow,
            r is Ok <==> vec_counts_fit(tokens@, mult as int),
            r matches Ok(agg) ==> {
                &&& agg.wf()
                &&& agg.row_count == mult
                &&& agg.neg == false
                &&& forall|k2: RowValue|
                    k2.wf() ==> agg.spec_count(k2) == token_occurrences(tokens@, k2) * mult
            },
    {
        let mut agg = PositionAssignmentAggregate::zero();
        agg.row_count = mult;
        let mut i: usize = 0;
        while i < tokens.len()
            invariant
                0 <= i <= tokens@.len(),
                forall|j: int| 0 <= j < tokens@.len() ==> (#[trigger] tokens@[j]).wf(),
                agg.wf(),
                agg.row_count == mult,
                agg.neg == false,
                agg.next_index <= i,
                forall|m: int|
                    0 <= m < i ==> i64::MIN <= (token_occurrences(
                        tokens@.take(m),
                        #[trigger] tokens@[m],
                    ) + 1) * mult <= i64::MAX,
                forall|k2: RowValue|
                    k2.wf() ==> agg.spec_count(k2) == token_occurrences(tokens@.take(i as int), k2)
                        * mult,
            decreases tokens@.len() - i,
        {
            proof {
                lemma_eqv_refl(tokens@[i as int]);
                lemma_token_occurrences_take_step(tokens@, i as int, tokens@[i as int]);
                assert((token_occurrences(tokens@.take(i as int), tokens@[i as int]) + 1) * mult
                    == token_occurrences(tokens@.take(i as int), tokens@[i as int]) * mult
                    + mult as int) by (nonlinear_arith);
            }
            let ghost before = agg;
            match agg.plus_equals_value_count(&tokens[i], mult) {
                Ok(_) => {},
                Err(e) => {
                    proof {
                        assert(!vec_counts_fit(tokens@, mult as int));
                    }
                    return Err(EncodeError::Overflow);
                },
            }
            proof {
                assert forall|k2: RowValue| k2.wf() implies agg.spec_count(k2)
                    == token_occurrences(tokens@.take(i as int + 1), k2) * mult by {
                    lemma_token_occurrences_take_step(tokens@, i as int, k2);
                    assert(agg.spec_count(k2) == before.spec_count(k2) + (
                    if tokens@[i as int].spec_eqv(k2) {
                        mult as int
                    } else {
                        0
                    }));
                    if tokens@[i as int].spec_eqv(k2) {
                        assert((token_occurrences(tokens@.take(i as int), k2) + 1) * mult
                            == token_occurrences(tokens@.take(i as int), k2) * mult + mult)
                            by (nonlinear_arith);
                    }
                }
            }
            i += 1;
        }
        proof {
            assert(tokens@.take(tokens@.len() as int) =~= tokens@);
        }
        Ok(agg)
    }
}

/// Folding one record's token sequence in stays inside the machine
/// integers: each token's running weighted count fits. (Positions cannot
/// run out: a fresh aggregate hands out at most one per token.)
pub open spec fn vec_counts_fit(tokens: Seq<RowValue>, mult: int) -> bool {
    forall|m: int|
        0 <= m < tokens.len() ==> i64::MIN <= (token_occurrences(
            tokens.take(m),
            #[trigger] tokens[m],
        ) + 1) * mult <= i64::MAX
}

/// Folding the other aggregate in is owed success: the row counts fit,
/// fresh positions cannot run out, and every class's merged net count fits.
/// (Each class appears once in a count map, so the receiving count it meets
/// is the starting one.)
pub open spec fn paa_merge_fits(
    start: PositionAssignmentAggregate,
    other: PositionAssignmentAggregate,
) -> bool {
    let sign: int = if start.neg != other.neg {
        -1
    } else {
        1
    };
    &&& i64::MIN <= start.row_count + other.row_count <= i64::MAX
    &&& start.next_index + other.val_to_count@.len() <= usize::MAX
    &&& forall|m: int|
        0 <= m < other.val_to_count@.len() ==> {
            &&& i64::MIN <= start.spec_count((#[trigger] other.val_to_count@[m]).0) + sign
                * other.val_to_count@[m].1 <= i64::MAX
            &&& (start.neg != other.neg ==> other.val_to_count@[m].1 != i64::MIN)
        }
}

/// The signed total that the entries whose key equals `k2` carry.
pub open spec fn class_sum(entries: Seq<(RowValue, i64)>, k2: RowValue) -> int
    decreases entries.len(),
{
    if entries.len() == 0 {
        0
    } else {
        (if entries[0].0.spec_eqv(k2) {
            entries[0].1 as int
        } else {
            0
        }) + class_sum(entries.drop_first(), k2)
    }
}

/// How many entries of `tokens` equal `k2`.
pub open spec fn token_occurrences(tokens: Seq<RowValue>, k2: RowValue) -> int
    decreases tokens.len(),
{
    if tokens.len() == 0 {
        0
    } else {
        (if tokens[0].spec_eqv(k2) {
            1int
        } else {
            0
        }) + token_occurrences(tokens.drop_first(), k2)
    }
}

/// The group law behind retraction for count maps: a pointwise-negated
/// count map cancels every value class, so folding an aggregate with its
/// own negation nets every count to zero.
pub proof fn lemma_count_map_group_law(
    a: Seq<(RowValue, i64)>,
    b: Seq<(RowValue, i64)>,
    k2: RowValue,
)
    requires
        a.len() == b.len(),
        forall|i: int|
            0 <= i < a.len() ==> (#[trigger] b[i]).0 == a[i].0 && b[i].1 as int == -(
            a[i].1 as int),
    ensures
        class_sum(a, k2) + class_sum(b, k2) == 0,
    decreases a.len(),
{
    if a.len() > 0 {
        assert(forall|i: int|
            0 <= i < a.drop_first().len() ==> #[trigger] a.drop_first()[i] == a[i + 1]
                && #[trigger] b.drop_first()[i] == b[i + 1]);
        lemma_count_map_group_law(a.drop_first(), b.drop_first(), k2);
    }
}

/// Entries none of which match `k2` contribute nothing to its class sum.
pub proof fn lemma_class_sum_absent(entries: Seq<(RowValue, i64)>, k2: RowValue)
    requires
        forall|m: int| 0 <= m < entries.len() ==> !(#[trigger] entries[m]).0.spec_eqv(k2),
    ensures
        class_sum(entries, k2) == 0,
    decreases entries.len(),
{
    if entries.len() > 0 {
        assert(forall|m: int|
            0 <= m < entries.drop_first().len() ==> #[trigger] entries.drop_first()[m]
                == entries[m + 1]);
        lemma_class_sum_absent(entries.drop_first(), k2);
    }
}

/// One more prefix entry adds its own contribution to the class sum.
pub proof fn lemma_class_sum_take_step(entries: Seq<(RowValue, i64)>, i: int, k2: RowValue)
    requires
        0 <= i < entries.len(),
    ensures
        class_sum(entries.take(i + 1), k2) == class_sum(entries.take(i), k2) + (
        if entries[i].0.spec_eqv(k2) {
            entries[i].1 as int
        } else {
            0
        }),
    decreases i,
{
    if i == 0 {
        assert(entries.take(1).drop_first() =~= entries.take(0));
        assert(entries.take(1)[0] == entries[0]);
    } else {
        assert(entries.take(i + 1).drop_first() =~= entries.drop_first().take(i));
        assert(entries.take(i).drop_first() =~= entries.drop_first().take(i - 1));
        assert(entries.take(i + 1)[0] == entries[0]);
        assert(entries.take(i)[0] == entries[0]);
        lemma_class_sum_take_step(entries.drop_first(), i - 1, k2);
    }
}

/// One more prefix token adds its own occurrence.
pub proof fn lemma_token_occurrences_take_step(tokens: Seq<RowValue>, i: int, k2: RowValue)
    requires
        0 <= i < tokens.len(),
    ensures
        token_occurrences(tokens.take(i + 1), k2) == token_occurrences(tokens.take(i), k2) + (
        if tokens[i].spec_eqv(k2) {
            1int
        } else {
            0
        }),
    decreases i,
{
    if i == 0 {
        assert(tokens.take(1).drop_first() =~= tokens.take(0));
        assert(tokens.take(1)[0] == tokens[0]);
    } else {
        assert(tokens.take(i + 1).drop_first() =~= tokens.drop_first().take(i));
        assert(tokens.take(i).drop_first() =~= tokens.drop_first().take(i - 1));
        assert(tokens.take(i + 1)[0] == tokens[0]);
        assert(tokens.take(i)[0] == tokens[0]);
        lemma_token_occurrences_take_step(tokens.drop_first(), i - 1, k2);
    }
}

/// Growing covers the live values and never overshoots them by more than
/// half: the result is at least `live`, and two thirds of it stay below
/// `live`.
pub proof fn lemma_grow_width_bounds(len: int, live: int)
    requires
        1 <= len,
        len < live,
    ensures
        grow_width(len, live) >= live,
        2 * grow_width(len, live) / 3 <= live,
    decreases live - len,
{
    let next = if len <= (usize::MAX - 1) as int / 3 {
        (3 * len + 1) / 2
    } else {
        live
    };
    if next > len {
        if next < live {
            lemma_grow_width_bounds(next, live);
        } else {
            // The recursion bottoms out at `next`: two thirds of it stay
            // at or below `len`, which is below `live`.
            assert(grow_width(next, live) == next);
            if len <= (usize::MAX - 1) as int / 3 {
                vstd::arithmetic::div_mod::lemma_fundamental_div_mod(3 * len + 1, 2);
                vstd::arithmetic::div_mod::lemma_div_is_ordered(2 * next, 3 * len + 1, 3);
                vstd::arithmetic::div_mod::lemma_fundamental_div_mod(3 * len + 1, 3);
                assert(2 * next <= 3 * len + 1);
                assert(2 * next / 3 <= (3 * len + 1) / 3);
                assert((3 * len + 1) / 3 == len);
            } else {
                vstd::arithmetic::div_mod::lemma_fundamental_div_mod(2 * live, 3);
            }
        }
    } else {
        assert(grow_width(len, live) == live);
        vstd::arithmetic::div_mod::lemma_fundamental_div_mod(2 * live, 3);
    }
}

/// After the count-map insert, every well-formed key reads the updated
/// count of `value`'s class and the untouched count of every other class.
proof fn lemma_count_after_insert(
    pre: PositionAssignmentAggregate,
    cur: PositionAssignmentAggregate,
    value: RowValue,
    c0: int,
    c1: i64,
    k: int,
)
    requires
        pre.wf(),
        value.wf(),
        c0 == pre.spec_count(value),
        c1 as int == c0 + k,
        cur.val_to_index == pre.val_to_index,
        cur.free_indices == pre.free_indices,
        cur.next_index == pre.next_index,
        if spec_index_of(pre.val_to_count@, value) == -1 {
            exists|key: RowValue|
                (#[trigger] key.like(value)) && cur.val_to_count@ == pre.val_to_count@.push(
                    (key, c1),
                )
        } else {
            cur.val_to_count@ == pre.val_to_count@.update(
                spec_index_of(pre.val_to_count@, value),
                (pre.val_to_count@[spec_index_of(pre.val_to_count@, value)].0, c1),
            )
        },
    ensures
        cur.val_to_count.wf(),
        wf_keys(cur.val_to_count@),
        forall|k2: RowValue|
            k2.wf() ==> cur.spec_count(k2) == pre.spec_count(k2) + (if value.spec_eqv(k2) {
                k
            } else {
                0
            }),
{
    let i = spec_index_of(pre.val_to_count@, value);
    lemma_index_of(pre.val_to_count@, value);
    if i == -1 {
        let key = choose|key: RowValue|
            (#[trigger] key.like(value)) && cur.val_to_count@ == pre.val_to_count@.push(
                (key, c1),
            );
        lemma_like_wf(key, value);
        assert(wf_keys(cur.val_to_count@)) by {
            assert(forall|j: int|
                0 <= j < pre.val_to_count@.len() ==> #[trigger] cur.val_to_count@[j]
                    == pre.val_to_count@[j]);
        }
        assert(distinct_keys(cur.val_to_count@)) by {
            assert forall|m: int, n: int|
                0 <= m < n < cur.val_to_count@.len() implies !(
            #[trigger] cur.val_to_count@[m]).0.spec_eqv((#[trigger] cur.val_to_count@[n]).0) by {
                if n == cur.val_to_count@.len() - 1 {
                    crate::types::row_value::lemma_like_congruent(key, value,
                        pre.val_to_count@[m].0);
                    if pre.val_to_count@[m].0.spec_eqv(key) {
                        crate::types::row_value::lemma_eqv_sym(pre.val_to_count@[m].0, key);
                        crate::types::row_value::lemma_eqv_sym(pre.val_to_count@[m].0, value);
                        lemma_index_of(pre.val_to_count@, value);
                        assert(pre.val_to_count@[m].0.spec_eqv(value));
                        assert(false);
                    }
                }
            }
        }
        assert forall|k2: RowValue| k2.wf() implies cur.spec_count(k2) == pre.spec_count(k2) + (
        if value.spec_eqv(k2) {
            k
        } else {
            0
        }) by {
            lemma_get_push(pre.val_to_count@, key, c1, k2);
            crate::types::row_value::lemma_like_congruent(key, value, k2);
            if value.spec_eqv(k2) {
                if spec_contains_key(pre.val_to_count@, k2) {
                    crate::types::row_value::lemma_eqv_sym(value, k2);
                    lemma_get_eqv(pre.val_to_count@, k2, value);
                    assert(false);
                }
            } else {
                if spec_contains_key(pre.val_to_count@, k2) {
                } else {
                    assert(!key.spec_eqv(k2));
                }
            }
        }
    } else {
        assert(0 <= i < pre.val_to_count@.len());
        assert(pre.val_to_count@[i].0.spec_eqv(value));
        assert(wf_keys(cur.val_to_count@)) by {
            assert(forall|j: int|
                0 <= j < cur.val_to_count@.len() ==> (#[trigger] cur.val_to_count@[j]).0
                    == pre.val_to_count@[j].0);
        }
        assert(distinct_keys(cur.val_to_count@)) by {
            assert(forall|j: int|
                0 <= j < cur.val_to_count@.len() ==> (#[trigger] cur.val_to_count@[j]).0
                    == pre.val_to_count@[j].0);
        }
        assert forall|k2: RowValue| k2.wf() implies cur.spec_count(k2) == pre.spec_count(k2) + (
        if value.spec_eqv(k2) {
            k
        } else {
            0
        }) by {
            lemma_get_update_value(pre.val_to_count@, i, c1, k2);
            if value.spec_eqv(k2) {
                crate::types::row_value::lemma_eqv_sym(value, k2);
                lemma_get_eqv(pre.val_to_count@, k2, value);
            } else {
                if spec_index_of(pre.val_to_count@, k2) == i {
                    lemma_index_of(pre.val_to_count@, k2);
                    assert(pre.val_to_count@[i].0.spec_eqv(k2));
                    crate::types::row_value::lemma_eqv_sym(pre.val_to_count@[i].0, value);
                    crate::types::row_value::lemma_eqv_trans(value, pre.val_to_count@[i].0, k2);
                    assert(false);
                }
            }
        }
    }
}


} // verus!
