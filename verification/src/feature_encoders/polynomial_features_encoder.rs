//! Polynomial features over scalar inputs: the vector of powers
//! `value^d` for `d` from the minimal to the maximal degree, computed
//! iteratively and exactly.

use vstd::prelude::*;

use crate::feature_encoders::column_encoder::wf_updates;
use crate::types::ratio::Ratio;
use crate::types::row_value::RowValue;
use crate::EncodeError;
use vstd::arithmetic::power::pow;

verus! {

/// The `e`-th power of the value stays inside the machine integers.
pub open spec fn power_ok(v: Ratio, e: int) -> bool {
    &&& i64::MIN <= pow(v.num as int, e as nat) <= i64::MAX
    &&& pow(v.den as int, e as nat) <= i64::MAX
}

/// Every emitted power of the value stays inside the machine integers.
pub open spec fn powers_fit(v: Ratio, max_degree: int) -> bool {
    forall|e: int| 1 <= e <= max_degree ==> #[trigger] power_ok(v, e)
}

/// The polynomial features encoder for scalar inputs.
pub struct PolynomialFeaturesEncoder {
    /// The lowest power emitted.
    pub min_degree: usize,
    /// The highest power emitted.
    pub max_degree: usize,
}

impl PolynomialFeaturesEncoder {
    /// Well-formedness: a nonempty degree range.
    pub open spec fn wf(self) -> bool {
        self.min_degree <= self.max_degree < usize::MAX
    }

    /// An encoder emitting the powers from `min_degree` to `max_degree`.
    pub fn new(min_degree: usize, max_degree: usize) -> (r: PolynomialFeaturesEncoder)
        requires
            min_degree <= max_degree < usize::MAX,
        ensures
            r.min_degree == min_degree,
            r.max_degree == max_degree,
            r.wf(),
    {
        PolynomialFeaturesEncoder { min_degree, max_degree }
    }

    /// Fitting is a no-op: the encoder keeps no state.
    pub fn fit(&mut self, data: &Vec<((usize, RowValue), i64)>) -> (r: Result<(), EncodeError>)
        ensures
            *final(self) == *old(self),
            r is Ok,
    {
        Ok(())
    }

    /// Replaces every numeric record by the vector of its powers, from
    /// `min_degree` to `max_degree`.
    pub fn transform(&self, data: &Vec<((usize, RowValue), i64)>) -> (r: Result<
        Vec<((usize, RowValue), i64)>,
        EncodeError,
    >)
        requires
            self.wf(),
            wf_updates(data@),
        ensures
            r is Ok <==> (forall|j: int|
                0 <= j < data@.len() ==> ((#[trigger] data@[j]).0.1.spec_number() matches Some(vq)
                    && powers_fit(vq, self.max_degree as int))),
            r matches Ok(out) ==> {
                &&& out@.len() == data@.len()
                &&& forall|j: int|
                    0 <= j < data@.len() ==> {
                        &&& (#[trigger] out@[j]).0.0 == data@[j].0.0
                        &&& out@[j].1 == data@[j].1
                        &&& data@[j].0.1.spec_number() matches Some(vq)
                        &&& out@[j].0.1 matches RowValue::Vector(v) && v@.len() == self.max_degree
                            + 1 - self.min_degree && forall|d: int|
                            0 <= d < v@.len() ==> (#[trigger] v@[d]).num == pow(
                                data@[j].0.1.spec_number()->Some_0.num as int,
                                (self.min_degree + d) as nat,
                            ) && v@[d].den == pow(
                                data@[j].0.1.spec_number()->Some_0.den as int,
                                (self.min_degree + d) as nat,
                            )
                    }
            },
    {
        let mut out: Vec<((usize, RowValue), i64)> = Vec::new();
        let mut i: usize = 0;
        while i < data.len()
            invariant
                0 <= i <= data@.len(),
                wf_updates(data@),
                self.wf(),
                forall|j: int|
                    0 <= j < i ==> ((#[trigger] data@[j]).0.1.spec_number() matches Some(vq)
                        && powers_fit(vq, self.max_degree as int)),
                out@.len() == i,
                forall|j: int|
                    0 <= j < i ==> {
                        &&& (#[trigger] out@[j]).0.0 == data@[j].0.0
                        &&& out@[j].1 == data@[j].1
                        &&& data@[j].0.1.spec_number() matches Some(vq)
                        &&& out@[j].0.1 matches RowValue::Vector(v) && v@.len() == self.max_degree
                            + 1 - self.min_degree && forall|d: int|
                            0 <= d < v@.len() ==> (#[trigger] v@[d]).num == pow(
                                data@[j].0.1.spec_number()->Some_0.num as int,
                                (self.min_degree + d) as nat,
                            ) && v@[d].den == pow(
                                data@[j].0.1.spec_number()->Some_0.den as int,
                                (self.min_degree + d) as nat,
                            )
                    },
            decreases data@.len() - i,
        {
            let v = match data[i].0.1.get_number() {
                Ok(q) => q,
                Err(e) => {
                    return Err(e);
                },
            };
            proof {
                assert(data@[i as int].0.1.wf());
            }
            // Raise to the minimal degree first.
            let mut x = Ratio::from_int(1);
            proof {
                vstd::arithmetic::power::lemma_pow0(v.num as int);
                vstd::arithmetic::power::lemma_pow0(v.den as int);
            }
            let mut e: usize = 0;
            while e < self.min_degree
                invariant
                    0 <= e <= self.min_degree,
                    self.wf(),
                    0 <= i < data@.len(),
                    data@[i as int].0.1.spec_number() == Some(v),
                    v.wf(),
                    x.wf(),
                    x.num == pow(v.num as int, e as nat),
                    x.den == pow(v.den as int, e as nat),
                    forall|e2: int| 1 <= e2 <= e ==> #[trigger] power_ok(v, e2),
                decreases self.min_degree - e,
            {
                match x.checked_mul(v) {
                    Some(y) => {
                        proof {
                            vstd::arithmetic::power::lemma_pow1(v.num as int);
                            assert(pow(v.num as int, (e + 1) as nat) == pow(v.num as int, e as nat)
                                * v.num) by {
                                vstd::arithmetic::power::lemma_pow_adds(v.num as int, e as nat, 1);
                            }
                            vstd::arithmetic::power::lemma_pow1(v.den as int);
                            assert(pow(v.den as int, (e + 1) as nat) == pow(v.den as int, e as nat)
                                * v.den) by {
                                vstd::arithmetic::power::lemma_pow_adds(v.den as int, e as nat, 1);
                            }
                            assert(power_ok(v, e + 1));
                        }
                        x = y;
                    },
                    None => {
                        proof {
                            vstd::arithmetic::power::lemma_pow1(v.num as int);
                            vstd::arithmetic::power::lemma_pow_adds(v.num as int, e as nat, 1);
                            vstd::arithmetic::power::lemma_pow1(v.den as int);
                            vstd::arithmetic::power::lemma_pow_adds(v.den as int, e as nat, 1);
                            assert(!power_ok(v, e + 1));
                        }
                        return Err(EncodeError::Overflow);
                    },
                }
                e += 1;
            }
            let width = self.max_degree - self.min_degree + 1;
            let mut vec: Vec<Ratio> = Vec::new();
            let mut d: usize = 0;
            while d < width
                invariant
                    0 <= d <= width,
                    width == self.max_degree + 1 - self.min_degree,
                    self.wf(),
                    0 <= i < data@.len(),
                    data@[i as int].0.1.spec_number() == Some(v),
                    v.wf(),
                    x.wf(),
                    d < width ==> x.num == pow(v.num as int, (self.min_degree + d) as nat)
                        && x.den == pow(v.den as int, (self.min_degree + d) as nat),
                    forall|e2: int|
                        1 <= e2 <= self.min_degree + d && e2 <= self.max_degree
                            ==> #[trigger] power_ok(v, e2),
                    vec@.len() == d,
                    forall|l: int|
                        0 <= l < d ==> (#[trigger] vec@[l]).num == pow(
                            v.num as int,
                            (self.min_degree + l) as nat,
                        ) && vec@[l].den == pow(v.den as int, (self.min_degree + l) as nat),
                decreases width - d,
            {
                vec.push(x);
                if d + 1 < width {
                    match x.checked_mul(v) {
                        Some(y) => {
                            proof {
                                vstd::arithmetic::power::lemma_pow1(v.num as int);
                                vstd::arithmetic::power::lemma_pow_adds(
                                    v.num as int,
                                    (self.min_degree + d) as nat,
                                    1,
                                );
                                vstd::arithmetic::power::lemma_pow1(v.den as int);
                                vstd::arithmetic::power::lemma_pow_adds(
                                    v.den as int,
                                    (self.min_degree + d) as nat,
                                    1,
                                );
                                assert(power_ok(v, self.min_degree + d + 1));
                            }
                            x = y;
                        },
                        None => {
                            proof {
                                vstd::arithmetic::power::lemma_pow1(v.num as int);
                                vstd::arithmetic::power::lemma_pow_adds(
                                    v.num as int,
                                    (self.min_degree + d) as nat,
                                    1,
                                );
                                vstd::arithmetic::power::lemma_pow1(v.den as int);
                                vstd::arithmetic::power::lemma_pow_adds(
                                    v.den as int,
                                    (self.min_degree + d) as nat,
                                    1,
                                );
                                assert(!power_ok(v, self.min_degree + d + 1));
                            }
                            return Err(EncodeError::Overflow);
                        },
                    }
                }
                d += 1;
            }
            proof {
                assert(powers_fit(v, self.max_degree as int));
            }
            out.push(((data[i].0.0, RowValue::Vector(vec)), data[i].1));
            i += 1;
        }
        Ok(out)
    }
}

} // verus!
