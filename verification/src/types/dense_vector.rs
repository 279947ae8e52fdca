//! Dense feature vectors: the output unit of every encoder.
//!
//! A vector is a single scalar or a finite sequence of scalars. It supports
//! element-wise addition, scaling, binarization and concatenation; the
//! concatenation promotes scalars to vectors, and its view is plain sequence
//! concatenation.

use vstd::prelude::*;

use crate::types::ratio::Ratio;
use crate::EncodeError;

verus! {

/// A scalar or a finite ordered sequence of scalars.
#[derive(Debug, Clone, PartialEq)]
pub enum DenseVector {
    Scalar(Ratio),
    Vector(Vec<Ratio>),
}

impl View for DenseVector {
    type V = Seq<Ratio>;

    open spec fn view(&self) -> Seq<Ratio> {
        match self {
            DenseVector::Scalar(q) => seq![*q],
            DenseVector::Vector(v) => v@,
        }
    }
}

/// Every scalar of the sequence is well-formed.
pub open spec fn wf_entries(s: Seq<Ratio>) -> bool {
    forall|i: int| 0 <= i < s.len() ==> (#[trigger] s[i]).wf()
}

/// Every element of the sequence can be scaled by `f` within the machine
/// integers.
pub open spec fn scale_fits(s: Seq<Ratio>, f: Ratio) -> bool {
    forall|i: int| 0 <= i < s.len() ==> (#[trigger] s[i]).mul_fits(f)
}

/// Two sequences can be added pointwise within the machine integers.
pub open spec fn add_fits_pointwise(a: Seq<Ratio>, b: Seq<Ratio>) -> bool {
    forall|i: int| 0 <= i < a.len() ==> (#[trigger] a[i]).add_fits(b[i])
}

impl DenseVector {
    /// Well-formedness: every scalar is well-formed.
    pub open spec fn wf(self) -> bool {
        wf_entries(self@)
    }

    /// A zeroed vector: a scalar for capacity one, an empty growable vector
    /// otherwise.
    pub fn new_with_capacity(capacity: usize) -> (r: DenseVector)
        ensures
            r.wf(),
            capacity == 1 ==> r@ =~= seq![Ratio { num: 0, den: 1 }],
            capacity != 1 ==> r@ =~= Seq::<Ratio>::empty(),
    {
        if capacity == 1 {
            DenseVector::Scalar(Ratio::zero())
        } else {
            DenseVector::Vector(Vec::new())
        }
    }

    /// The first scalar of the vector.
    pub fn get_first_value(&self) -> (r: Ratio)
        requires
            self@.len() > 0,
        ensures
            r == self@[0],
    {
        match self {
            DenseVector::Scalar(q) => *q,
            DenseVector::Vector(v) => v[0],
        }
    }

    /// Makes room for `capacity` more scalars; a scalar becomes a vector of
    /// length one. The contents are unchanged.
    pub fn increase_capacity(self, capacity: usize) -> (r: DenseVector)
        ensures
            r@ == self@,
            r.wf() == self.wf(),
            capacity > 0 ==> r is Vector,
    {
        match (self, capacity) {
            (v, 0) => v,
            (DenseVector::Scalar(q), _cap) => {
                let mut v: Vec<Ratio> = Vec::new();
                v.push(q);
                proof {
                    assert(v@ =~= seq![q]);
                }
                DenseVector::Vector(v)
            },
            (DenseVector::Vector(v), _cap) => DenseVector::Vector(v),
        }
    }

    /// Concatenation, promoting scalars to vectors: the result reads as the
    /// two contents one after the other.
    pub fn concat_dense_vector(self, other: DenseVector) -> (r: DenseVector)
        ensures
            r@ == self@ + other@,
            r is Vector,
    {
        match (self, other) {
            (DenseVector::Scalar(a), DenseVector::Scalar(b)) => {
                let mut v: Vec<Ratio> = Vec::new();
                v.push(a);
                v.push(b);
                proof {
                    assert(v@ =~= seq![a] + seq![b]);
                }
                DenseVector::Vector(v)
            },
            (DenseVector::Scalar(a), DenseVector::Vector(b)) => {
                let mut v: Vec<Ratio> = Vec::new();
                v.push(a);
                let mut rest = b;
                let ghost rest_view = rest@;
                v.append(&mut rest);
                proof {
                    assert(v@ =~= seq![a] + rest_view);
                }
                DenseVector::Vector(v)
            },
            (DenseVector::Vector(a), DenseVector::Scalar(b)) => {
                let mut v = a;
                v.push(b);
                proof {
                    assert(v@ =~= a@ + seq![b]);
                }
                DenseVector::Vector(v)
            },
            (DenseVector::Vector(a), DenseVector::Vector(b)) => {
                let mut v = a;
                let mut rest = b;
                v.append(&mut rest);
                DenseVector::Vector(v)
            },
        }
    }

    /// Multiplies every scalar by `factor`, exactly. Either every element
    /// fits and the whole vector is scaled, or nothing changes.
    pub fn scale(&mut self, factor: Ratio) -> (r: Result<(), EncodeError>)
        requires
            old(self).wf(),
            factor.wf(),
        ensures
            final(self).wf(),
            r is Ok <==> scale_fits(old(self)@, factor),
            r is Err ==> *final(self) == *old(self) && r == Err::<(), EncodeError>(
                EncodeError::Overflow,
            ),
            r is Ok ==> {
                &&& final(self)@.len() == old(self)@.len()
                &&& forall|i: int|
                    0 <= i < old(self)@.len() ==> (#[trigger] final(self)@[i]).num
                        == old(self)@[i].num * factor.num && final(self)@[i].den
                        == old(self)@[i].den * factor.den
            },
    {
        let ghost orig = self@;
        match &*self {
            DenseVector::Scalar(q) => {
                proof {
                    assert(orig[0] == *q);
                }
                match q.checked_mul(factor) {
                    Some(s) => {
                        *self = DenseVector::Scalar(s);
                        proof {
                            assert(self@ =~= seq![s]);
                        }
                        Ok(())
                    },
                    None => Err(EncodeError::Overflow),
                }
            },
            DenseVector::Vector(v) => {
                let mut out: Vec<Ratio> = Vec::new();
                let mut i: usize = 0;
                while i < v.len()
                    invariant
                        0 <= i <= v@.len(),
                        v@ == orig,
                        orig == old(self)@,
                        *self == *old(self),
                        old(self).wf(),
                        wf_entries(orig),
                        factor.wf(),
                        out@.len() == i,
                        forall|j: int| 0 <= j < i ==> (#[trigger] orig[j]).mul_fits(factor),
                        forall|j: int|
                            0 <= j < i ==> (#[trigger] out@[j]).num == orig[j].num * factor.num
                                && out@[j].den == orig[j].den * factor.den && out@[j].wf(),
                    decreases v@.len() - i,
                {
                    match v[i].checked_mul(factor) {
                        Some(s) => out.push(s),
                        None => {
                            return Err(EncodeError::Overflow);
                        },
                    }
                    i += 1;
                }
                *self = DenseVector::Vector(out);
                Ok(())
            },
        }
    }

    /// Binarization: every nonzero scalar becomes one, every zero stays
    /// zero.
    pub fn binarize(&mut self)
        ensures
            final(self)@.len() == old(self)@.len(),
            forall|i: int|
                0 <= i < old(self)@.len() ==> (#[trigger] final(self)@[i]) == (
                if old(self)@[i].num == 0 {
                    Ratio { num: 0, den: 1 }
                } else {
                    Ratio { num: 1, den: 1 }
                }),
            final(self).wf(),
    {
        let ghost orig = self@;
        match &*self {
            DenseVector::Scalar(q) => {
                proof {
                    assert(orig[0] == *q);
                }
                let b = if q.num == 0 {
                    Ratio::zero()
                } else {
                    Ratio::from_int(1)
                };
                *self = DenseVector::Scalar(b);
                proof {
                    assert(self@ =~= seq![b]);
                }
            },
            DenseVector::Vector(v) => {
                let mut out: Vec<Ratio> = Vec::new();
                let mut i: usize = 0;
                while i < v.len()
                    invariant
                        0 <= i <= v@.len(),
                        v@ == orig,
                        orig == old(self)@,
                        *self == *old(self),
                        out@.len() == i,
                        forall|j: int|
                            0 <= j < i ==> (#[trigger] out@[j]) == (if orig[j].num == 0 {
                                Ratio { num: 0, den: 1 }
                            } else {
                                Ratio { num: 1, den: 1 }
                            }),
                    decreases v@.len() - i,
                {
                    if v[i].num == 0 {
                        out.push(Ratio::zero());
                    } else {
                        out.push(Ratio::from_int(1));
                    }
                    i += 1;
                }
                *self = DenseVector::Vector(out);
            },
        }
    }

    /// Element-wise exact addition. The two sides must have the same shape
    /// and length; either every element fits and the whole sum is stored, or
    /// nothing changes.
    pub fn add_assign(&mut self, rhs: &DenseVector) -> (r: Result<(), EncodeError>)
        requires
            old(self).wf(),
            rhs.wf(),
        ensures
            final(self).wf(),
            r is Err ==> *final(self) == *old(self),
            r is Ok <==> ((*old(self)) is Scalar == (*rhs) is Scalar && old(self)@.len()
                == rhs@.len()
                && add_fits_pointwise(old(self)@, rhs@)),
            r is Ok ==> {
                &&& final(self)@.len() == old(self)@.len()
                &&& forall|i: int|
                    0 <= i < old(self)@.len() ==> (#[trigger] final(self)@[i]).num
                        == old(self)@[i].num * rhs@[i].den + rhs@[i].num * old(self)@[i].den
                        && final(self)@[i].den == old(self)@[i].den * rhs@[i].den
            },
    {
        let ghost orig = self@;
        match (&*self, rhs) {
            (DenseVector::Scalar(a), DenseVector::Scalar(b)) => {
                proof {
                    assert(orig[0] == *a);
                    assert(rhs@[0] == *b);
                }
                match a.checked_add(*b) {
                    Some(s) => {
                        *self = DenseVector::Scalar(s);
                        proof {
                            assert(self@ =~= seq![s]);
                        }
                        Ok(())
                    },
                    None => Err(EncodeError::Overflow),
                }
            },
            (DenseVector::Vector(a), DenseVector::Vector(b)) => {
                if a.len() != b.len() {
                    return Err(EncodeError::TypeMismatch);
                }
                let mut out: Vec<Ratio> = Vec::new();
                let mut i: usize = 0;
                while i < a.len()
                    invariant
                        0 <= i <= a@.len(),
                        a@ == orig,
                        orig == old(self)@,
                        *self == *old(self),
                        old(self).wf(),
                        (*old(self)) is Vector,
                        (*rhs) is Vector,
                        rhs@ == b@,
                        a@.len() == b@.len(),
                        wf_entries(orig),
                        wf_entries(b@),
                        out@.len() == i,
                        forall|j: int| 0 <= j < i ==> (#[trigger] orig[j]).add_fits(b@[j]),
                        forall|j: int|
                            0 <= j < i ==> (#[trigger] out@[j]).num == orig[j].num * b@[j].den
                                + b@[j].num * orig[j].den && out@[j].den == orig[j].den * b@[j].den
                                && out@[j].wf(),
                    decreases a@.len() - i,
                {
                    match a[i].checked_add(b[i]) {
                        Some(s) => out.push(s),
                        None => {
                            return Err(EncodeError::Overflow);
                        },
                    }
                    i += 1;
                }
                *self = DenseVector::Vector(out);
                Ok(())
            },
            (_, _) => Err(EncodeError::TypeMismatch),
        }
    }

    /// Exact negation of every scalar; either all of them fit, or the input
    /// is handed back unchanged.
    pub fn neg(self) -> (r: Result<DenseVector, EncodeError>)
        requires
            self.wf(),
        ensures
            r matches Err(e) ==> e == EncodeError::Overflow,
            r is Ok <==> (forall|i: int| 0 <= i < self@.len() ==> (#[trigger] self@[i]).num
                != i64::MIN),
            r matches Ok(out) ==> {
                &&& out.wf()
                &&& out@.len() == self@.len()
                &&& forall|i: int|
                    0 <= i < self@.len() ==> (#[trigger] out@[i]).num == -self@[i].num
                        && out@[i].den == self@[i].den
            },
    {
        match self {
            DenseVector::Scalar(q) => {
                proof {
                    assert(self@[0] == q);
                }
                match q.checked_neg() {
                    Some(s) => Ok(DenseVector::Scalar(s)),
                    None => Err(EncodeError::Overflow),
                }
            },
            DenseVector::Vector(v) => {
                let mut out: Vec<Ratio> = Vec::new();
                let mut i: usize = 0;
                while i < v.len()
                    invariant
                        0 <= i <= v@.len(),
                        self@ == v@,
                        self is Vector,
                        wf_entries(v@),
                        out@.len() == i,
                        forall|j: int| 0 <= j < i ==> (#[trigger] v@[j]).num != i64::MIN,
                        forall|j: int|
                            0 <= j < i ==> (#[trigger] out@[j]).num == -v@[j].num && out@[j].den
                                == v@[j].den && out@[j].wf(),
                    decreases v@.len() - i,
                {
                    match v[i].checked_neg() {
                        Some(s) => out.push(s),
                        None => {
                            return Err(EncodeError::Overflow);
                        },
                    }
                    i += 1;
                }
                Ok(DenseVector::Vector(out))
            },
        }
    }
}

} // verus!
