//! Discretization into `k` equal bins over the fitted range.
//!
//! The discretizer reuses the min–max reading of the column: a value is
//! rescaled to `(value - min) / range` and mapped to
//! `floor(scaled * k)`, clamped to the last bin so that a scaled value of
//! exactly one still falls inside.

use vstd::prelude::*;

use crate::feature_encoders::minmax_scaler::get_meta;
use crate::feature_encoders::minmax_scaler::is_range_meta_of_data;
use crate::feature_encoders::minmax_scaler::minmax_data_ok;
use crate::feature_encoders::column_encoder::net_mult_number;
use crate::types::ratio::spec_mul_val;
use crate::types::ratio::spec_sub_val;
use crate::feature_encoders::column_encoder::wf_updates;
use crate::types::ratio::Ratio;
use crate::types::row_value::RowValue;
use crate::EncodeError;

verus! {

/// The bin that a value falls into: the floor of the rescaled value times
/// `k`, clamped from above to `k - 1`.
pub open spec fn kbins_bin(v: Ratio, mn: Ratio, rng: Ratio, k: int) -> int {
    let n = (v.num * mn.den - mn.num * v.den) * k * rng.den;
    let d = (v.den * mn.den) * rng.num;
    let b = n / d;
    if b > k - 1 {
        k - 1
    } else {
        b
    }
}

/// Floor division of machine integers by a positive divisor.
fn floor_div(n: i64, d: i64) -> (r: i64)
    requires
        d >= 1,
    ensures
        r == n as int / d as int,
{
    if n >= 0 {
        let q = (n as u64) / (d as u64);
        proof {
            vstd::arithmetic::div_mod::lemma_div_is_ordered(n as int, n as int, d as int);
            assert(n as int / d as int <= n as int) by {
                vstd::arithmetic::div_mod::lemma_fundamental_div_mod(n as int, d as int);
                assert(n as int / d as int <= n as int) by (nonlinear_arith)
                    requires
                        n as int == d as int * (n as int / d as int) + (n as int % d as int),
                        0 <= n as int % d as int,
                        d >= 1,
                        n >= 0,
                ;
            }
        }
        q as i64
    } else {
        let m = (-(n as i128)) as u128;
        let c = (m + (d as u128) - 1) / (d as u128);
        proof {
            lemma_floor_neg(n as int, d as int);
            assert(c <= m) by {
                vstd::arithmetic::div_mod::lemma_fundamental_div_mod(
                    m as int + d as int - 1,
                    d as int,
                );
                assert((m as int + d as int - 1) / d as int <= m as int) by (nonlinear_arith)
                    requires
                        m as int + d as int - 1 == d as int * ((m as int + d as int - 1)
                            / d as int) + ((m as int + d as int - 1) % d as int),
                        0 <= (m as int + d as int - 1) % (d as int),
                        (m as int + d as int - 1) % (d as int) < d as int,
                        d >= 1,
                        m as int >= 1,
                ;
            }
        }
        (-(c as i128)) as i64
    }
}

/// Euclidean (floor) division of a negative value expressed through the
/// rounded-up division of its magnitude.
proof fn lemma_floor_neg(n: int, d: int)
    requires
        n < 0,
        d >= 1,
    ensures
        n / d == -((-n + d - 1) / d),
{
    let m = -n;
    let c = (m + d - 1) / d;
    vstd::arithmetic::div_mod::lemma_fundamental_div_mod(m + d - 1, d);
    let r1 = (m + d - 1) % d;
    assert(m + d - 1 == d * c + r1);
    assert(n == (-c) * d + (d - 1 - r1)) by (nonlinear_arith)
        requires
            n == -m,
            m + d - 1 == d * c + r1,
    ;
    vstd::arithmetic::div_mod::lemma_fundamental_div_mod_converse(n, d, -c, d - 1 - r1);
}

/// One binning step `(v - mn) * k / rng` stays inside the machine integers.
pub open spec fn kbins_step_fits(v: Ratio, mn: Ratio, rng: Ratio, k: int) -> bool {
    &&& v.sub_fits(mn)
    &&& spec_sub_val(v, mn).mul_fits(Ratio { num: k as i64, den: 1 })
    &&& spec_mul_val(spec_sub_val(v, mn), Ratio { num: k as i64, den: 1 }).div_fits(rng)
}

/// The k-bins discretizer: reads the column's min–max meta and maps every
/// value to its bin.
pub struct KBinsDiscretizer {
    /// The fitted `(min, range)` pair; absent until the first `fit`.
    pub meta: Option<(Ratio, Ratio)>,
    /// How many bins.
    pub k: usize,
}

impl KBinsDiscretizer {
    /// Whether the fitted meta is well-formed and the bin count usable.
    pub open spec fn wf(self) -> bool {
        &&& self.meta matches Some((mn, rng)) ==> mn.wf() && rng.wf()
        &&& 1 <= self.k <= i64::MAX
    }

    /// A discretizer with `k` bins and nothing fitted yet.
    pub fn new(k: usize) -> (r: KBinsDiscretizer)
        requires
            1 <= k <= i64::MAX,
        ensures
            r.meta is None,
            r.k == k,
            r.wf(),
    {
        KBinsDiscretizer { meta: None, k }
    }

    /// Reads the min–max meta of the batch and stores it.
    pub fn fit(&mut self, data: &Vec<((usize, RowValue), i64)>) -> (r: Result<(), EncodeError>)
        requires
            old(self).wf(),
            wf_updates(data@),
        ensures
            final(self).wf(),
            final(self).k == old(self).k,
            r is Err ==> final(self).meta == old(self).meta,
            r matches Err(e) ==> e == EncodeError::TypeMismatch || e == EncodeError::Overflow
                || e == EncodeError::EmptyAggregate,
            (minmax_data_ok(data@) && (exists|q: Ratio|
                #![trigger net_mult_number(data@, q)]
                q.wf() && net_mult_number(data@, q) > 0) && (forall|q1: Ratio, q2: Ratio|
                #![trigger q1.sub_fits(q2)]
                q1.wf() && q2.wf() && net_mult_number(data@, q1) > 0 && net_mult_number(data@, q2)
                    > 0 ==> q1.sub_fits(q2))) ==> r is Ok,
            r is Ok ==> (final(self).meta matches Some((mn, rng)) && is_range_meta_of_data(
                data@,
                mn,
                rng,
            ) && rng.wf()),
    {
        let meta = match get_meta(data) {
            Ok(m) => m,
            Err(e) => {
                return Err(e);
            },
        };
        self.meta = Some(meta);
        Ok(())
    }

    /// Maps every record's value to its bin against the fitted meta.
    pub fn transform(&self, data: &Vec<((usize, RowValue), i64)>) -> (r: Result<
        Vec<((usize, RowValue), i64)>,
        EncodeError,
    >)
        requires
            self.wf(),
            wf_updates(data@),
        ensures
            self.meta is None <==> r == Err::<Vec<((usize, RowValue), i64)>, EncodeError>(
                EncodeError::NotFitted,
            ),
            r == Err::<Vec<((usize, RowValue), i64)>, EncodeError>(EncodeError::DegenerateScale)
                <==> (self.meta matches Some((mn, rng)) && rng.num <= 0),
            r is Ok <==> (self.meta matches Some((mn, rng)) && rng.num > 0 && forall|j: int|
                0 <= j < data@.len() ==> ((#[trigger] data@[j]).0.1.spec_number() matches Some(vq)
                    && kbins_step_fits(vq, mn, rng, self.k as int))),
            r matches Ok(out) ==> {
                &&& self.meta matches Some((mn, rng)) && rng.num > 0
                &&& out@.len() == data@.len()
                &&& forall|j: int|
                    0 <= j < data@.len() ==> {
                        &&& (#[trigger] out@[j]).0.0 == data@[j].0.0
                        &&& out@[j].1 == data@[j].1
                        &&& data@[j].0.1.spec_number() matches Some(vq)
                        &&& out@[j].0.1 matches RowValue::Number(oq) && oq.den == 1 && oq.num
                            == kbins_bin(
                            data@[j].0.1.spec_number()->Some_0,
                            self.meta->Some_0.0,
                            self.meta->Some_0.1,
                            self.k as int,
                        )
                    }
            },
    {
        let (mn, rng) = match &self.meta {
            None => {
                return Err(EncodeError::NotFitted);
            },
            Some((mn, rng)) => (*mn, *rng),
        };
        if rng.num <= 0 {
            return Err(EncodeError::DegenerateScale);
        }
        let kr = Ratio::from_int(self.k as i64);
        let mut out: Vec<((usize, RowValue), i64)> = Vec::new();
        let mut i: usize = 0;
        while i < data.len()
            invariant
                0 <= i <= data@.len(),
                wf_updates(data@),
                self.wf(),
                self.meta matches Some((m0, r0)) && m0 == mn && r0 == rng,
                mn.wf(),
                rng.wf(),
                rng.num > 0,
                kr.num == self.k && kr.den == 1,
                forall|j: int|
                    0 <= j < i ==> ((#[trigger] data@[j]).0.1.spec_number() matches Some(vq)
                        && kbins_step_fits(vq, mn, rng, self.k as int)),
                out@.len() == i,
                forall|j: int|
                    0 <= j < i ==> {
                        &&& (#[trigger] out@[j]).0.0 == data@[j].0.0
                        &&& out@[j].1 == data@[j].1
                        &&& data@[j].0.1.spec_number() matches Some(vq)
                        &&& out@[j].0.1 matches RowValue::Number(oq) && oq.den == 1 && oq.num
                            == kbins_bin(
                            data@[j].0.1.spec_number()->Some_0,
                            mn,
                            rng,
                            self.k as int,
                        )
                    },
            decreases data@.len() - i,
        {
            let v = match data[i].0.1.get_number() {
                Ok(q) => q,
                Err(e) => {
                    return Err(e);
                },
            };
            proof {
                assert(data@[i as int].0.1.wf());
            }
            let d0 = match v.checked_sub(mn) {
                Some(d) => d,
                None => {
                    return Err(EncodeError::Overflow);
                },
            };
            let t = match d0.checked_mul(kr) {
                Some(t) => t,
                None => {
                    return Err(EncodeError::Overflow);
                },
            };
            let q = match t.checked_div(rng) {
                Some(q) => q,
                None => {
                    return Err(EncodeError::Overflow);
                },
            };
            let b0 = floor_div(q.num, q.den);
            let k_top = self.k as i64 - 1;
            let bin = if b0 > k_top {
                k_top
            } else {
                b0
            };
            proof {
                assert(q.num as int == (v.num * mn.den - mn.num * v.den) * (self.k as int)
                    * rng.den) by (nonlinear_arith)
                    requires
                        q.num == t.num * rng.den,
                        t.num == d0.num * kr.num,
                        d0.num == v.num * mn.den - mn.num * v.den,
                        kr.num == self.k as int,
                ;
                assert(q.den as int == (v.den * mn.den) * rng.num) by (nonlinear_arith)
                    requires
                        q.den == t.den * rng.num,
                        t.den == d0.den * kr.den,
                        d0.den == v.den * mn.den,
                        kr.den == 1,
                ;
                assert(bin as int == kbins_bin(v, mn, rng, self.k as int));
            }
            out.push(((data[i].0.0, RowValue::Number(Ratio { num: bin, den: 1 })), data[i].1));
            i += 1;
        }
        Ok(out)
    }
}

} // verus!
