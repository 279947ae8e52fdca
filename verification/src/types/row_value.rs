//! Tagged values: the cells of a row.
//!
//! A value is an integer, an exact numeric scalar, a piece of text, or a
//! vector of scalars. Cross-variant operations are reported as
//! `TypeMismatch`, mirroring the contract that every encoder only accepts
//! the variants it was built for.

use vstd::prelude::*;

use crate::types::ratio::Ratio;
use crate::EncodeError;

verus! {

/// One cell of a row.
#[derive(Debug, PartialEq)]
pub enum RowValue {
    /// A machine integer.
    Integer(i64),
    /// An exact numeric scalar (stands in for a floating-point value).
    Number(Ratio),
    /// A piece of text.
    Text(String),
    /// A vector of exact scalars.
    Vector(Vec<Ratio>),
}

/// Two scalar sequences are equal as sequences of rational numbers.
pub open spec fn seq_ratio_eqv(a: Seq<Ratio>, b: Seq<Ratio>) -> bool {
    &&& a.len() == b.len()
    &&& forall|i: int| 0 <= i < a.len() ==> a[i].spec_eqv(#[trigger] b[i])
}

impl RowValue {
    /// Well-formedness: every scalar carried by the value is well-formed.
    pub open spec fn wf(self) -> bool {
        match self {
            RowValue::Integer(_) => true,
            RowValue::Number(r) => r.wf(),
            RowValue::Text(_) => true,
            RowValue::Vector(v) => forall|i: int| 0 <= i < v@.len() ==> (#[trigger] v@[i]).wf(),
        }
    }

    /// Observational equality: same variant and same contents, where text is
    /// compared by its characters and scalars field by field.
    pub open spec fn like(self, other: RowValue) -> bool {
        match (self, other) {
            (RowValue::Integer(a), RowValue::Integer(b)) => a == b,
            (RowValue::Number(a), RowValue::Number(b)) => a == b,
            (RowValue::Text(a), RowValue::Text(b)) => a@ == b@,
            (RowValue::Vector(a), RowValue::Vector(b)) => a@ == b@,
            _ => false,
        }
    }

    /// Value equality: like `like`, except that numeric scalars are compared
    /// as rational numbers, so `1/2` equals `2/4`. Values of different
    /// variants are never equal.
    pub open spec fn spec_eqv(self, other: RowValue) -> bool {
        match (self, other) {
            (RowValue::Integer(a), RowValue::Integer(b)) => a == b,
            (RowValue::Number(a), RowValue::Number(b)) => a.spec_eqv(b),
            (RowValue::Text(a), RowValue::Text(b)) => a@ == b@,
            (RowValue::Vector(a), RowValue::Vector(b)) => seq_ratio_eqv(a@, b@),
            _ => false,
        }
    }

    /// The numeric reading of the value, with integers promoted.
    pub open spec fn spec_number(self) -> Option<Ratio> {
        match self {
            RowValue::Integer(a) => Some(Ratio { num: a, den: 1 }),
            RowValue::Number(r) => Some(r),
            _ => None,
        }
    }

    /// An empty vector value.
    pub fn initial_vec() -> (r: RowValue)
        ensures
            r matches RowValue::Vector(v) && v@ =~= Seq::<Ratio>::empty(),
            r.wf(),
    {
        RowValue::Vector(Vec::new())
    }

    /// The integer carried by the value; any other variant is a mismatch.
    pub fn get_integer(&self) -> (r: Result<i64, EncodeError>)
        ensures
            match *self {
                RowValue::Integer(a) => r == Ok::<i64, EncodeError>(a),
                _ => r == Err::<i64, EncodeError>(EncodeError::TypeMismatch),
            },
    {
        match *self {
            RowValue::Integer(a) => Ok(a),
            _ => Err(EncodeError::TypeMismatch),
        }
    }

    /// The numeric reading of the value, with integers promoted to scalars;
    /// text and vectors are a mismatch.
    pub fn get_number(&self) -> (r: Result<Ratio, EncodeError>)
        ensures
            match self.spec_number() {
                Some(q) => r == Ok::<Ratio, EncodeError>(q),
                None => r == Err::<Ratio, EncodeError>(EncodeError::TypeMismatch),
            },
    {
        match *self {
            RowValue::Integer(a) => Ok(Ratio::from_int(a)),
            RowValue::Number(q) => Ok(q),
            _ => Err(EncodeError::TypeMismatch),
        }
    }

    /// The text carried by the value; any other variant is a mismatch.
    pub fn get_text(&self) -> (r: Result<&String, EncodeError>)
        ensures
            match *self {
                RowValue::Text(ref s) => r matches Ok(t) && t@ == s@,
                _ => r == Err::<&String, EncodeError>(EncodeError::TypeMismatch),
            },
    {
        match *self {
            RowValue::Text(ref s) => Ok(s),
            _ => Err(EncodeError::TypeMismatch),
        }
    }

    /// The scalar vector carried by the value; any other variant is a
    /// mismatch.
    pub fn get_vec(&self) -> (r: Result<&Vec<Ratio>, EncodeError>)
        ensures
            match *self {
                RowValue::Vector(ref v) => r matches Ok(w) && w@ == v@,
                _ => r == Err::<&Vec<Ratio>, EncodeError>(EncodeError::TypeMismatch),
            },
    {
        match *self {
            RowValue::Vector(ref v) => Ok(v),
            _ => Err(EncodeError::TypeMismatch),
        }
    }

    /// Appends a scalar or a whole vector to a vector value. The receiver
    /// must be a vector and the argument must not be text.
    pub fn vector_append(self, other: RowValue) -> (r: Result<RowValue, EncodeError>)
        ensures
            match self {
                RowValue::Vector(v) => match other {
                    RowValue::Vector(v1) => r matches Ok(RowValue::Vector(w)) && w@ == v@ + v1@,
                    RowValue::Integer(a) => r matches Ok(RowValue::Vector(w)) && w@ == v@.push(
                        Ratio { num: a, den: 1 },
                    ),
                    RowValue::Number(q) => r matches Ok(RowValue::Vector(w)) && w@ == v@.push(q),
                    RowValue::Text(_) => r == Err::<RowValue, EncodeError>(
                        EncodeError::TypeMismatch,
                    ),
                },
                _ => r == Err::<RowValue, EncodeError>(EncodeError::TypeMismatch),
            },
    {
        match self {
            RowValue::Vector(mut v) => match other {
                RowValue::Vector(mut v1) => {
                    v.append(&mut v1);
                    Ok(RowValue::Vector(v))
                },
                RowValue::Integer(a) => {
                    v.push(Ratio::from_int(a));
                    Ok(RowValue::Vector(v))
                },
                RowValue::Number(q) => {
                    v.push(q);
                    Ok(RowValue::Vector(v))
                },
                RowValue::Text(_) => Err(EncodeError::TypeMismatch),
            },
            _ => Err(EncodeError::TypeMismatch),
        }
    }

    /// Exact addition with the usual numeric promotion; mismatched variants
    /// are an error, and so is leaving the machine integers.
    pub fn checked_add(self, rhs: RowValue) -> (r: Result<RowValue, EncodeError>)
        requires
            self.wf(),
            rhs.wf(),
        ensures
            match (self, rhs) {
                (RowValue::Integer(x), RowValue::Integer(y)) => if i64::MIN <= x + y <= i64::MAX {
                    r == Ok::<RowValue, EncodeError>(RowValue::Integer((x + y) as i64))
                } else {
                    r == Err::<RowValue, EncodeError>(EncodeError::Overflow)
                },
                _ => match (self.spec_number(), rhs.spec_number()) {
                    (Some(a), Some(b)) => if a.add_fits(b) {
                        r matches Ok(RowValue::Number(s)) && s.wf() && s.num == a.num * b.den
                            + b.num * a.den && s.den == a.den * b.den
                    } else {
                        r == Err::<RowValue, EncodeError>(EncodeError::Overflow)
                    },
                    _ => r == Err::<RowValue, EncodeError>(EncodeError::TypeMismatch),
                },
            },
    {
        match (self, rhs) {
            (RowValue::Integer(x), RowValue::Integer(y)) => match x.checked_add(y) {
                Some(s) => Ok(RowValue::Integer(s)),
                None => Err(EncodeError::Overflow),
            },
            (RowValue::Integer(x), RowValue::Number(b)) => match Ratio::from_int(x).checked_add(
                b,
            ) {
                Some(s) => Ok(RowValue::Number(s)),
                None => Err(EncodeError::Overflow),
            },
            (RowValue::Number(a), RowValue::Integer(y)) => match a.checked_add(
                Ratio::from_int(y),
            ) {
                Some(s) => Ok(RowValue::Number(s)),
                None => Err(EncodeError::Overflow),
            },
            (RowValue::Number(a), RowValue::Number(b)) => match a.checked_add(b) {
                Some(s) => Ok(RowValue::Number(s)),
                None => Err(EncodeError::Overflow),
            },
            (_, _) => Err(EncodeError::TypeMismatch),
        }
    }

    /// Whether the two values are equal, comparing numeric scalars as
    /// rational numbers.
    pub fn eqv(&self, other: &RowValue) -> (r: bool)
        ensures
            r == self.spec_eqv(*other),
    {
        match (self, other) {
            (RowValue::Integer(a), RowValue::Integer(b)) => *a == *b,
            (RowValue::Number(a), RowValue::Number(b)) => a.eqv(b),
            (RowValue::Text(a), RowValue::Text(b)) => a.eq(b),
            (RowValue::Vector(a), RowValue::Vector(b)) => {
                if a.len() != b.len() {
                    return false;
                }
                let mut i: usize = 0;
                while i < a.len()
                    invariant
                        0 <= i <= a@.len(),
                        a@.len() == b@.len(),
                        self.spec_eqv(*other) == seq_ratio_eqv(a@, b@),
                        forall|j: int| 0 <= j < i ==> a@[j].spec_eqv(#[trigger] b@[j]),
                    decreases a@.len() - i,
                {
                    if !a[i].eqv(&b[i]) {
                        return false;
                    }
                    i += 1;
                }
                true
            },
            (_, _) => false,
        }
    }
}

impl Clone for RowValue {
    /// Cloning keeps the observed value.
    fn clone(&self) -> (r: RowValue)
        ensures
            r.like(*self),
            r.wf() == self.wf(),
    {
        match self {
            RowValue::Integer(a) => RowValue::Integer(*a),
            RowValue::Number(q) => RowValue::Number(*q),
            RowValue::Text(s) => RowValue::Text(s.clone()),
            RowValue::Vector(v) => {
                let w = v.clone();
                proof {
                    assert(w@ =~= v@);
                }
                RowValue::Vector(w)
            },
        }
    }
}

/// Value equality is symmetric.
pub proof fn lemma_eqv_sym(a: RowValue, b: RowValue)
    ensures
        a.spec_eqv(b) == b.spec_eqv(a),
{
}

/// Value equality is transitive when the middle value is well-formed (its
/// denominators are positive, so cross-multiplication can be cancelled).
pub proof fn lemma_eqv_trans(a: RowValue, b: RowValue, c: RowValue)
    requires
        b.wf(),
        a.spec_eqv(b),
        b.spec_eqv(c),
    ensures
        a.spec_eqv(c),
{
    match (a, b, c) {
        (RowValue::Number(x), RowValue::Number(y), RowValue::Number(z)) => {
            lemma_ratio_eqv_trans(x, y, z);
        },
        (RowValue::Vector(x), RowValue::Vector(y), RowValue::Vector(z)) => {
            assert forall|i: int| 0 <= i < x@.len() implies x@[i].spec_eqv(#[trigger] z@[i]) by {
                assert(y@[i].wf());
                assert(x@[i].spec_eqv(y@[i]));
                assert(y@[i].spec_eqv(z@[i]));
                lemma_ratio_eqv_trans(x@[i], y@[i], z@[i]);
            }
        },
        _ => {},
    }
}

/// Rational equivalence is transitive when the middle ratio is well-formed.
pub proof fn lemma_ratio_eqv_trans(x: Ratio, y: Ratio, z: Ratio)
    requires
        y.wf(),
        x.spec_eqv(y),
        y.spec_eqv(z),
    ensures
        x.spec_eqv(z),
{
    assert(x.num * z.den == z.num * x.den) by (nonlinear_arith)
        requires
            x.num * y.den == y.num * x.den,
            y.num * z.den == z.num * y.den,
            y.den >= 1,
    ;
}

/// `like` values cannot be told apart by value equality.
pub proof fn lemma_like_congruent(a: RowValue, a2: RowValue, b: RowValue)
    requires
        a.like(a2),
    ensures
        a.spec_eqv(b) == a2.spec_eqv(b),
        b.spec_eqv(a) == b.spec_eqv(a2),
{
}

/// Value equality is reflexive.
pub proof fn lemma_eqv_refl(a: RowValue)
    ensures
        a.spec_eqv(a),
{
}

/// Observational equality is transitive.
pub proof fn lemma_like_trans(a: RowValue, b: RowValue, c: RowValue)
    requires
        a.like(b),
        b.like(c),
    ensures
        a.like(c),
{
}

/// `like` values share their well-formedness.
pub proof fn lemma_like_wf(a: RowValue, b: RowValue)
    requires
        a.like(b),
    ensures
        a.wf() == b.wf(),
{
}

/// Keys that stand `like` old keys compare as the old keys did.
pub proof fn lemma_like_both(a2: RowValue, a: RowValue, b2: RowValue, b: RowValue)
    requires
        a2.like(a),
        b2.like(b),
        !a.spec_eqv(b),
    ensures
        !a2.spec_eqv(b2),
{
    lemma_like_congruent(a2, a, b2);
    lemma_like_congruent(b2, b, a);
}

} // verus!
