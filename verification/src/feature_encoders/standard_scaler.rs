//! Standard scaling, backed by an exact moment aggregate.
//!
//! The aggregate carries the weighted sum, the weighted sum of squares and
//! the signed record count of everything it has seen. Those three moments
//! form a commutative group under component-wise addition, so insertions
//! and retractions fold in exactly; the mean and the variance are recovered
//! only when the aggregate is read.

use vstd::prelude::*;

use crate::feature_encoders::column_encoder::wf_updates;
use crate::types::ratio::spec_div_val;
use crate::types::ratio::spec_mul_val;
use crate::types::ratio::spec_sub_val;
use crate::types::ratio::Ratio;
use crate::types::row_value::RowValue;
use crate::EncodeError;

verus! {

/// The mathematical reading of a moment aggregate: two unbounded rationals
/// and a count.
pub struct VarModel {
    /// The weighted sum of the observed values, as `s_num / s_den`.
    pub s_num: int,
    pub s_den: int,
    /// The weighted sum of their squares, as `q_num / q_den`.
    pub q_num: int,
    pub q_den: int,
    /// The signed number of records summarized.
    pub count: int,
}

/// Component-wise addition of moment models: exact rational addition of the
/// two sums, integer addition of the counts.
pub open spec fn v_add(a: VarModel, b: VarModel) -> VarModel {
    VarModel {
        s_num: a.s_num * b.s_den + b.s_num * a.s_den,
        s_den: a.s_den * b.s_den,
        q_num: a.q_num * b.q_den + b.q_num * a.q_den,
        q_den: a.q_den * b.q_den,
        count: a.count + b.count,
    }
}

/// The group inverse: every signed component flips.
pub open spec fn v_neg(a: VarModel) -> VarModel {
    VarModel { s_num: -a.s_num, s_den: a.s_den, q_num: -a.q_num, q_den: a.q_den, count: -a.count }
}

/// The moments contributed by one record carrying `v` with signed
/// multiplicity `m`.
pub open spec fn v_of(v: Ratio, m: int) -> VarModel {
    VarModel {
        s_num: v.num * m,
        s_den: v.den as int,
        q_num: v.num * v.num * m,
        q_den: v.den * v.den,
        count: m,
    }
}

/// A model is the zero of the group when its sums are the rational zero and
/// its count is zero.
pub open spec fn v_is_zero(a: VarModel) -> bool {
    a.s_num == 0 && a.q_num == 0 && a.count == 0
}

/// The moments of one record stay inside the machine integers.
pub open spec fn v_of_fits(value: Ratio, m: int) -> bool {
    &&& i64::MIN <= value.num * m <= i64::MAX
    &&& i64::MIN <= value.num * value.num <= i64::MAX
    &&& i64::MIN <= (value.num * value.num) * m <= i64::MAX
    &&& value.den * value.den <= i64::MAX
}

/// The component-wise sum of two moment models stays inside the machine
/// integers.
pub open spec fn v_add_fits(a: VarModel, b: VarModel) -> bool {
    &&& i64::MIN <= a.s_num * b.s_den + b.s_num * a.s_den <= i64::MAX
    &&& a.s_den * b.s_den <= i64::MAX
    &&& i64::MIN <= a.q_num * b.q_den + b.q_num * a.q_den <= i64::MAX
    &&& a.q_den * b.q_den <= i64::MAX
    &&& i64::MIN <= a.count + b.count <= i64::MAX
}

/// Addition of moment models is commutative.
pub proof fn lemma_v_add_comm(a: VarModel, b: VarModel)
    ensures
        v_add(a, b) == v_add(b, a),
{
}

/// Addition of moment models is associative.
pub proof fn lemma_v_add_assoc(a: VarModel, b: VarModel, c: VarModel)
    ensures
        v_add(v_add(a, b), c) == v_add(a, v_add(b, c)),
{
    broadcast use vstd::arithmetic::mul::lemma_mul_is_associative;
    broadcast use vstd::arithmetic::mul::lemma_mul_is_commutative;
    broadcast use vstd::arithmetic::mul::group_mul_is_distributive;

    assert((a.s_num * b.s_den + b.s_num * a.s_den) * c.s_den == a.s_num * (b.s_den * c.s_den) + (
    b.s_num * c.s_den) * a.s_den);
    assert(c.s_num * (a.s_den * b.s_den) == (c.s_num * b.s_den) * a.s_den);
    assert((a.q_num * b.q_den + b.q_num * a.q_den) * c.q_den == a.q_num * (b.q_den * c.q_den) + (
    b.q_num * c.q_den) * a.q_den);
    assert(c.q_num * (a.q_den * b.q_den) == (c.q_num * b.q_den) * a.q_den);
}

/// The group law behind retraction: folding a model with its own negation
/// cancels to zero.
pub proof fn lemma_v_group_law(a: VarModel)
    ensures
        v_is_zero(v_add(a, v_neg(a))),
{
    assert(a.s_num * a.s_den + (-a.s_num) * a.s_den == 0) by (nonlinear_arith);
    assert(a.q_num * a.q_den + (-a.q_num) * a.q_den == 0) by (nonlinear_arith);
}

/// The exact moment aggregate.
#[derive(Debug, Clone)]
pub struct VarianceAggregate {
    /// The weighted sum of the observed values.
    pub sum: Ratio,
    /// The weighted sum of their squares.
    pub sum_sq: Ratio,
    /// The signed number of records summarized.
    pub count: i64,
}

impl View for VarianceAggregate {
    type V = VarModel;

    open spec fn view(&self) -> VarModel {
        VarModel {
            s_num: self.sum.num as int,
            s_den: self.sum.den as int,
            q_num: self.sum_sq.num as int,
            q_den: self.sum_sq.den as int,
            count: self.count as int,
        }
    }
}

impl VarianceAggregate {
    /// Well-formedness: both sums are well-formed scalars.
    pub open spec fn wf(self) -> bool {
        self.sum.wf() && self.sum_sq.wf()
    }

    /// The group zero.
    pub fn zero() -> (r: VarianceAggregate)
        ensures
            r.wf(),
            r@ == (VarModel { s_num: 0, s_den: 1, q_num: 0, q_den: 1, count: 0 }),
    {
        VarianceAggregate { sum: Ratio::zero(), sum_sq: Ratio::zero(), count: 0 }
    }

    /// The aggregate contributed by one record carrying `value` with signed
    /// multiplicity `multiplicity`.
    pub fn new(value: Ratio, multiplicity: i64) -> (r: Result<VarianceAggregate, EncodeError>)
        requires
            value.wf(),
        ensures
            r matches Err(e) ==> e == EncodeError::Overflow,
            r is Ok <==> v_of_fits(value, multiplicity as int),
            r matches Ok(a) ==> a.wf() && a@ == v_of(value, multiplicity as int),
    {
        let sn = match value.num.checked_mul(multiplicity) {
            Some(x) => x,
            None => {
                return Err(EncodeError::Overflow);
            },
        };
        let qn0 = match value.num.checked_mul(value.num) {
            Some(x) => x,
            None => {
                return Err(EncodeError::Overflow);
            },
        };
        let qn = match qn0.checked_mul(multiplicity) {
            Some(x) => x,
            None => {
                return Err(EncodeError::Overflow);
            },
        };
        let qd = match value.den.checked_mul(value.den) {
            Some(x) => x,
            None => {
                return Err(EncodeError::Overflow);
            },
        };
        let agg = VarianceAggregate {
            sum: Ratio { num: sn, den: value.den },
            sum_sq: Ratio { num: qn, den: qd },
            count: multiplicity,
        };
        proof {
            assert(qd >= 1) by (nonlinear_arith)
                requires
                    value.den >= 1,
                    qd == value.den * value.den,
            ;
            let m = v_of(value, multiplicity as int);
            assert(agg@.s_num == m.s_num);
            assert(agg@.s_den == m.s_den);
            assert(agg@.q_num == m.q_num);
            assert(agg@.q_den == m.q_den);
            assert(agg@.count == m.count);
            assert(agg@ == m);
        }
        Ok(agg)
    }

    /// Whether the aggregate is the group zero.
    pub fn is_zero(&self) -> (r: bool)
        ensures
            r == (self.count == 0),
    {
        self.count == 0
    }

    /// Folds another aggregate in: exact component-wise addition.
    pub fn plus_equals(&mut self, other: &VarianceAggregate) -> (r: Result<(), EncodeError>)
        requires
            old(self).wf(),
            other.wf(),
        ensures
            final(self).wf(),
            r is Err ==> *final(self) == *old(self) && r == Err::<(), EncodeError>(
                EncodeError::Overflow,
            ),
            r is Ok <==> v_add_fits(old(self)@, other@),
            r is Ok ==> final(self)@ == v_add(old(self)@, other@),
    {
        let sum = match self.sum.checked_add(other.sum) {
            Some(s) => s,
            None => {
                return Err(EncodeError::Overflow);
            },
        };
        let sum_sq = match self.sum_sq.checked_add(other.sum_sq) {
            Some(s) => s,
            None => {
                return Err(EncodeError::Overflow);
            },
        };
        let count = match self.count.checked_add(other.count) {
            Some(c) => c,
            None => {
                return Err(EncodeError::Overflow);
            },
        };
        self.sum = sum;
        self.sum_sq = sum_sq;
        self.count = count;
        Ok(())
    }

    /// Negates the aggregate: the group inverse.
    pub fn negate(&mut self) -> (r: Result<(), EncodeError>)
        requires
            old(self).wf(),
        ensures
            final(self).wf(),
            r is Ok <==> (old(self).sum.num != i64::MIN && old(self).sum_sq.num != i64::MIN && old(
                self,
            ).count != i64::MIN),
            r is Err ==> *final(self) == *old(self) && r == Err::<(), EncodeError>(
                EncodeError::Overflow,
            ),
            r is Ok ==> final(self)@ == v_neg(old(self)@),
    {
        if self.sum.num == i64::MIN || self.sum_sq.num == i64::MIN || self.count == i64::MIN {
            return Err(EncodeError::Overflow);
        }
        self.sum = Ratio { num: -self.sum.num, den: self.sum.den };
        self.sum_sq = Ratio { num: -self.sum_sq.num, den: self.sum_sq.den };
        self.count = -self.count;
        Ok(())
    }

    /// Reads the mean and the variance. Only a zero count means empty: a
    /// negative count (a transiently negated aggregate) still reads as
    /// `sum / count` and `sum_sq / count - mean^2`, which is what the
    /// moments represent. Succeeds exactly when the aggregate is nonempty
    /// and the exact results fit the machine integers.
    pub fn get(&self) -> (r: Result<(Ratio, Ratio), EncodeError>)
        requires
            self.wf(),
        ensures
            self.count == 0 <==> r == Err::<(Ratio, Ratio), EncodeError>(
                EncodeError::EmptyAggregate,
            ),
            r matches Err(e) ==> e == EncodeError::EmptyAggregate || e == EncodeError::Overflow,
            r is Ok <==> self.count != 0 && get_fits(*self),
            r matches Ok((mean, var)) ==> is_variance_meta(*self, mean, var),
    {
        if self.count == 0 {
            return Err(EncodeError::EmptyAggregate);
        }
        let c = Ratio::from_int(self.count);
        let t1 = match self.sum_sq.checked_div(c) {
            Some(t) => t,
            None => {
                return Err(EncodeError::Overflow);
            },
        };
        let m = match self.sum.checked_div(c) {
            Some(t) => t,
            None => {
                return Err(EncodeError::Overflow);
            },
        };
        let msq = match m.checked_mul(m) {
            Some(t) => t,
            None => {
                return Err(EncodeError::Overflow);
            },
        };
        let var = match t1.checked_sub(msq) {
            Some(t) => t,
            None => {
                return Err(EncodeError::Overflow);
            },
        };
        Ok((m, var))
    }
}

/// The count as a ratio, the divisor of every read.
pub open spec fn count_ratio(agg: VarianceAggregate) -> Ratio {
    Ratio { num: agg.count, den: 1 }
}

/// The exact mean `sum / count` of a nonempty aggregate.
pub open spec fn mean_of(agg: VarianceAggregate) -> Ratio {
    spec_div_val(agg.sum, count_ratio(agg))
}

/// The exact variance `sum_sq / count - mean^2` of a nonempty aggregate.
pub open spec fn var_of(agg: VarianceAggregate) -> Ratio {
    spec_sub_val(
        spec_div_val(agg.sum_sq, count_ratio(agg)),
        spec_mul_val(mean_of(agg), mean_of(agg)),
    )
}

/// The exact mean and variance stay inside the machine integers.
pub open spec fn get_fits(agg: VarianceAggregate) -> bool {
    &&& agg.sum_sq.div_fits(count_ratio(agg))
    &&& agg.sum.div_fits(count_ratio(agg))
    &&& mean_of(agg).mul_fits(mean_of(agg))
    &&& spec_div_val(agg.sum_sq, count_ratio(agg)).sub_fits(
        spec_mul_val(mean_of(agg), mean_of(agg)),
    )
}

/// `mean` and `var` are the exact mean `sum / count` and variance
/// `sum_sq / count - mean^2` of a nonempty moment aggregate.
pub open spec fn is_variance_meta(agg: VarianceAggregate, mean: Ratio, var: Ratio) -> bool {
    &&& agg.count != 0
    &&& get_fits(agg)
    &&& mean.wf()
    &&& var.wf()
    &&& mean == mean_of(agg)
    &&& var == var_of(agg)
}

/// The moments one update contributes (nothing, for a non-numeric value).
pub open spec fn v_contrib(u: ((usize, RowValue), i64)) -> VarModel {
    match u.0.1.spec_number() {
        Some(q) => v_of(q, u.1 as int),
        None => VarModel { s_num: 0, s_den: 1, q_num: 0, q_den: 1, count: 0 },
    }
}

/// The moments folded out of a batch of updates, once every value reads as
/// a number: each record contributes its value and square, weighted by its
/// signed multiplicity.
pub open spec fn v_fold(start: VarModel, data: Seq<((usize, RowValue), i64)>) -> VarModel
    decreases data.len(),
{
    if data.len() == 0 {
        start
    } else {
        v_add(v_fold(start, data.drop_last()), v_contrib(data.last()))
    }
}

/// Any one update can be folded in last: the fold is insensitive to where
/// the update stands in the batch.
pub proof fn lemma_v_fold_remove(
    start: VarModel,
    data: Seq<((usize, RowValue), i64)>,
    j: int,
)
    requires
        0 <= j < data.len(),
    ensures
        v_fold(start, data) == v_add(v_fold(start, data.remove(j)), v_contrib(data[j])),
    decreases data.len(),
{
    if j == data.len() - 1 {
        assert(data.remove(j) =~= data.drop_last());
    } else {
        lemma_v_fold_remove(start, data.drop_last(), j);
        assert(data.drop_last()[j] == data[j]);
        let f = v_fold(start, data.drop_last().remove(j));
        lemma_v_add_assoc(f, v_contrib(data[j]), v_contrib(data.last()));
        lemma_v_add_comm(v_contrib(data[j]), v_contrib(data.last()));
        lemma_v_add_assoc(f, v_contrib(data.last()), v_contrib(data[j]));
        assert(data.remove(j).drop_last() =~= data.drop_last().remove(j));
        assert(data.remove(j).last() == data.last());
    }
}

/// The folded moments are a function of the multiset of updates: the
/// settled mean and variance cannot depend on the order in which records
/// arrived within an epoch.
pub proof fn lemma_v_fold_permutation(
    start: VarModel,
    s1: Seq<((usize, RowValue), i64)>,
    s2: Seq<((usize, RowValue), i64)>,
)
    requires
        s1.to_multiset() == s2.to_multiset(),
    ensures
        v_fold(start, s1) == v_fold(start, s2),
    decreases s1.len(),
{
    s1.to_multiset_ensures();
    s2.to_multiset_ensures();
    if s1.len() == 0 {
        assert(s2.to_multiset().len() == 0);
        assert(s2.len() == 0);
    } else {
        let x = s1.last();
        assert(s1.to_multiset().contains(x));
        assert(s2.to_multiset().contains(x));
        assert(s2.contains(x));
        let j = choose|j: int| 0 <= j < s2.len() && s2[j] == x;
        lemma_v_fold_remove(start, s2, j);
        assert(s1.drop_last() =~= s1.remove(s1.len() - 1));
        assert(s1.drop_last().to_multiset() =~= s1.to_multiset().remove(x));
        assert(s2.remove(j).to_multiset() =~= s2.to_multiset().remove(x));
        lemma_v_fold_permutation(start, s1.drop_last(), s2.remove(j));
    }
}

/// The whole fold stays inside the machine integers: every record reads as
/// a number whose moments fit, and every running sum fits.
pub open spec fn v_fold_ok(start: VarModel, data: Seq<((usize, RowValue), i64)>) -> bool
    decreases data.len(),
{
    if data.len() == 0 {
        true
    } else {
        &&& v_fold_ok(start, data.drop_last())
        &&& data.last().0.1.spec_number() matches Some(q) && v_of_fits(q, data.last().1 as int)
            && v_add_fits(v_fold(start, data.drop_last()), v_of(q, data.last().1 as int))
    }
}

/// A fold that fits also fits on every prefix.
pub proof fn lemma_v_fold_ok_take(start: VarModel, data: Seq<((usize, RowValue), i64)>, i: int)
    requires
        0 <= i <= data.len(),
        v_fold_ok(start, data),
    ensures
        v_fold_ok(start, data.take(i)),
    decreases data.len(),
{
    if i == data.len() {
        assert(data.take(i) =~= data);
    } else {
        assert(data.drop_last().take(i) =~= data.take(i));
        lemma_v_fold_ok_take(start, data.drop_last(), i);
    }
}

/// The standard scaler: fits a `VarianceAggregate` over a column and
/// rescales every value by `(value - mean) / variance`.
pub struct StandardScaler {
    /// The fitted aggregate; absent until the first `fit`.
    pub meta: Option<VarianceAggregate>,
}

impl StandardScaler {
    /// A scaler with nothing fitted yet.
    pub fn new() -> (r: StandardScaler)
        ensures
            r.meta is None,
    {
        StandardScaler { meta: None }
    }

    /// Whether the fitted aggregate is well-formed.
    pub open spec fn wf(self) -> bool {
        self.meta matches Some(a) ==> a.wf()
    }

    /// Folds a batch of updates into the fitted aggregate, creating it on
    /// the first call. Every value must read as a number.
    pub fn fit(&mut self, data: &Vec<((usize, RowValue), i64)>) -> (r: Result<(), EncodeError>)
        requires
            old(self).wf(),
            wf_updates(data@),
        ensures
            final(self).wf(),
            r matches Err(e) ==> e == EncodeError::TypeMismatch || e == EncodeError::Overflow,
            r == Err::<(), EncodeError>(EncodeError::TypeMismatch) <==> exists|i: int|
                0 <= i < data@.len() && (#[trigger] data@[i]).0.1.spec_number() is None,
            (forall|i: int| 0 <= i < data@.len() ==> (#[trigger] data@[i]).0.1.spec_number()
                is Some) ==> (r is Ok <==> v_fold_ok(
                match old(self).meta {
                    Some(b) => b@,
                    None => VarModel { s_num: 0, s_den: 1, q_num: 0, q_den: 1, count: 0 },
                },
                data@,
            )),
            r is Ok ==> (final(self).meta matches Some(a) && a.wf() && a@ == v_fold(
                match old(self).meta {
                    Some(b) => b@,
                    None => VarModel { s_num: 0, s_den: 1, q_num: 0, q_den: 1, count: 0 },
                },
                data@,
            )),
    {
        let mut i: usize = 0;
        while i < data.len()
            invariant
                0 <= i <= data@.len(),
                *self == *old(self),
                old(self).wf(),
                forall|j: int| 0 <= j < i ==> (#[trigger] data@[j]).0.1.spec_number() is Some,
            decreases data@.len() - i,
        {
            match data[i].0.1.get_number() {
                Ok(_) => {},
                Err(_) => {
                    return Err(EncodeError::TypeMismatch);
                },
            }
            i += 1;
        }
        let mut agg = match self.meta.take() {
            Some(a) => a,
            None => VarianceAggregate::zero(),
        };
        let ghost start = agg@;
        let mut i: usize = 0;
        while i < data.len()
            invariant
                0 <= i <= data@.len(),
                wf_updates(data@),
                forall|j: int| 0 <= j < data@.len() ==> (#[trigger] data@[j]).0.1.spec_number()
                    is Some,
                agg.wf(),
                agg@ == v_fold(start, data@.take(i as int)),
                v_fold_ok(start, data@.take(i as int)),
                start == (match old(self).meta {
                    Some(b) => b@,
                    None => VarModel { s_num: 0, s_den: 1, q_num: 0, q_den: 1, count: 0 },
                }),
            decreases data@.len() - i,
        {
            let q = match data[i].0.1.get_number() {
                Ok(q) => q,
                Err(_) => {
                    proof {
                        assert(false);
                    }
                    vstd::pervasive::unreached()
                },
            };
            proof {
                assert(data@[i as int].0.1.wf());
            }
            proof {
                assert(data@.take(i as int + 1).drop_last() =~= data@.take(i as int));
                assert(data@.take(i as int + 1).last() == data@[i as int]);
            }
            let delta = match VarianceAggregate::new(q, data[i].1) {
                Ok(a) => a,
                Err(_) => {
                    proof {
                        // The record's own moments do not fit, so no fold
                        // holding this record fits.
                        if v_fold_ok(start, data@) {
                            lemma_v_fold_ok_take(start, data@, i as int + 1);
                        }
                    }
                    self.meta = Some(agg);
                    return Err(EncodeError::Overflow);
                },
            };
            match agg.plus_equals(&delta) {
                Ok(_) => {},
                Err(_) => {
                    proof {
                        if v_fold_ok(start, data@) {
                            lemma_v_fold_ok_take(start, data@, i as int + 1);
                        }
                    }
                    self.meta = Some(agg);
                    return Err(EncodeError::Overflow);
                },
            }
            i += 1;
        }
        proof {
            assert(data@.take(data@.len() as int) =~= data@);
        }
        self.meta = Some(agg);
        Ok(())
    }

    /// Rescales every record by `(value - mean) / variance` against the
    /// fitted aggregate. Succeeds exactly when something was fitted, the
    /// aggregate is nonempty and readable, the variance is nonzero, and
    /// every value reads as a number whose rescaling fits the machine
    /// integers.
    pub fn transform(&self, data: &Vec<((usize, RowValue), i64)>) -> (r: Result<
        Vec<((usize, RowValue), i64)>,
        EncodeError,
    >)
        requires
            self.wf(),
            wf_updates(data@),
        ensures
            self.meta is None <==> r == Err::<Vec<((usize, RowValue), i64)>, EncodeError>(
                EncodeError::NotFitted,
            ),
            r == Err::<Vec<((usize, RowValue), i64)>, EncodeError>(EncodeError::EmptyAggregate)
                <==> (self.meta matches Some(a) && a.count == 0),
            r == Err::<Vec<((usize, RowValue), i64)>, EncodeError>(EncodeError::DegenerateScale)
                <==> (self.meta matches Some(a) && a.count != 0 && get_fits(a) && var_of(a).num
                == 0),
            r is Ok <==> (self.meta matches Some(a) && a.count != 0 && get_fits(a) && var_of(
                a,
            ).num != 0 && forall|j: int|
                0 <= j < data@.len() ==> ((#[trigger] data@[j]).0.1.spec_number() matches Some(
                    vq,
                ) && crate::types::ratio::scale_step_fits(vq, mean_of(a), var_of(a)))),
            r matches Ok(out) ==> {
                &&& out@.len() == data@.len()
                &&& forall|j: int|
                    0 <= j < data@.len() ==> {
                        &&& (#[trigger] out@[j]).0.0 == data@[j].0.0
                        &&& out@[j].1 == data@[j].1
                        &&& out@[j].0.1 matches RowValue::Number(oq) && oq.wf()
                            && crate::types::ratio::scales_to(
                            data@[j].0.1.spec_number()->Some_0,
                            mean_of(self.meta->Some_0),
                            var_of(self.meta->Some_0),
                            oq,
                        )
                    }
            },
    {
        let agg = match &self.meta {
            None => {
                return Err(EncodeError::NotFitted);
            },
            Some(a) => a,
        };
        let (mean, var) = match agg.get() {
            Ok(m) => m,
            Err(e) => {
                return Err(e);
            },
        };
        if var.is_zero() {
            return Err(EncodeError::DegenerateScale);
        }
        let mut out: Vec<((usize, RowValue), i64)> = Vec::new();
        let mut i: usize = 0;
        while i < data.len()
            invariant
                0 <= i <= data@.len(),
                wf_updates(data@),
                self.wf(),
                self.meta matches Some(a) && a == *agg,
                mean.wf(),
                var.wf(),
                var.num != 0,
                is_variance_meta(*agg, mean, var),
                mean == mean_of(*agg),
                var == var_of(*agg),
                forall|j: int|
                    0 <= j < i ==> ((#[trigger] data@[j]).0.1.spec_number() matches Some(vq)
                        && crate::types::ratio::scale_step_fits(vq, mean, var)),
                out@.len() == i,
                forall|j: int|
                    0 <= j < i ==> {
                        &&& (#[trigger] out@[j]).0.0 == data@[j].0.0
                        &&& out@[j].1 == data@[j].1
                        &&& data@[j].0.1.spec_number() matches Some(vq)
                        &&& out@[j].0.1 matches RowValue::Number(oq) && oq.wf()
                            && crate::types::ratio::scales_to(
                            data@[j].0.1.spec_number()->Some_0,
                            mean,
                            var,
                            oq,
                        )
                    },
            decreases data@.len() - i,
        {
            let v = match data[i].0.1.get_number() {
                Ok(q) => q,
                Err(e) => {
                    return Err(e);
                },
            };
            proof {
                assert(data@[i as int].0.1.wf());
            }
            let d = match v.checked_sub(mean) {
                Some(d) => d,
                None => {
                    return Err(EncodeError::Overflow);
                },
            };
            let q = match d.checked_div(var) {
                Some(q) => q,
                None => {
                    return Err(EncodeError::Overflow);
                },
            };
            proof {
                crate::types::ratio::lemma_scale_chain(v, mean, var, d, q);
            }
            out.push(((data[i].0.0, RowValue::Number(q)), data[i].1));
            i += 1;
        }
        proof {
            assert(is_variance_meta(*agg, mean, var));
        }
        Ok(out)
    }
}

} // verus!
