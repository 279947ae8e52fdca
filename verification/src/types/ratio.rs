//! The exact scalar of the value model.
//!
//! Differential maintenance needs every aggregate to be a commutative group
//! *exactly*, not approximately, so scalars are carried as rational numbers
//! `num / den` over machine integers instead of binary floating point. All
//! operations either return the mathematically exact result or report
//! `Overflow`; a driver converts to floating point only when it prints or
//! ships a settled value.

use vstd::prelude::*;

verus! {

/// The rational number `num / den`. Well-formed values keep `den >= 1`, so
/// the sign lives in the numerator and comparisons by cross-multiplication
/// never flip.
#[derive(Clone, Copy, Debug, PartialEq, Eq, Structural)]
pub struct Ratio {
    pub num: i64,
    pub den: i64,
}

impl Ratio {
    /// Well-formedness: the denominator is positive.
    pub open spec fn wf(self) -> bool {
        self.den >= 1
    }

    /// `self <= other` as rational numbers (by cross-multiplication; exact
    /// because well-formed denominators are positive).
    pub open spec fn spec_le(self, other: Ratio) -> bool {
        self.num * other.den <= other.num * self.den
    }

    /// `self < other` as rational numbers.
    pub open spec fn spec_lt(self, other: Ratio) -> bool {
        self.num * other.den < other.num * self.den
    }

    /// `self == other` as rational numbers (`1/2` and `2/4` are equivalent).
    pub open spec fn spec_eqv(self, other: Ratio) -> bool {
        self.num * other.den == other.num * self.den
    }

    /// The exact sum does not leave the machine integers.
    pub open spec fn add_fits(self, other: Ratio) -> bool {
        &&& i64::MIN <= self.num * other.den + other.num * self.den <= i64::MAX
        &&& self.den * other.den <= i64::MAX
    }

    /// The exact difference does not leave the machine integers.
    pub open spec fn sub_fits(self, other: Ratio) -> bool {
        &&& i64::MIN <= self.num * other.den - other.num * self.den <= i64::MAX
        &&& self.den * other.den <= i64::MAX
    }

    /// The exact product does not leave the machine integers.
    pub open spec fn mul_fits(self, other: Ratio) -> bool {
        &&& i64::MIN <= self.num * other.num <= i64::MAX
        &&& self.den * other.den <= i64::MAX
    }

    /// The exact quotient does not leave the machine integers.
    pub open spec fn div_fits(self, other: Ratio) -> bool {
        if other.num > 0 {
            &&& i64::MIN <= self.num * other.den <= i64::MAX
            &&& self.den * other.num <= i64::MAX
        } else {
            &&& i64::MIN <= -(self.num * other.den) <= i64::MAX
            &&& -(self.den * other.num) <= i64::MAX
        }
    }

    /// The integer `n` as a ratio.
    pub fn from_int(n: i64) -> (r: Ratio)
        ensures
            r.num == n,
            r.den == 1,
            r.wf(),
    {
        Ratio { num: n, den: 1 }
    }

    /// The ratio zero.
    pub fn zero() -> (r: Ratio)
        ensures
            r.num == 0,
            r.den == 1,
            r.wf(),
    {
        Ratio { num: 0, den: 1 }
    }

    /// Whether this ratio is the rational number zero.
    pub fn is_zero(&self) -> (r: bool)
        ensures
            r == (self.num == 0),
    {
        self.num == 0
    }

    /// Exact sum, or `None` exactly when the result would not fit.
    pub fn checked_add(self, other: Ratio) -> (r: Option<Ratio>)
        requires
            self.wf(),
            other.wf(),
        ensures
            r is Some <==> self.add_fits(other),
            r matches Some(s) ==> {
                &&& s.wf()
                &&& s.num == self.num * other.den + other.num * self.den
                &&& s.den == self.den * other.den
                &&& s == spec_add_val(self, other)
            },
    {
        let n1 = wide_mul(self.num, other.den);
        let n2 = wide_mul(other.num, self.den);
        proof {
            lemma_cross_sum_in_range(self.num as int, other.den as int, other.num as int,
                self.den as int);
        }
        let n = n1 + n2;
        let d = wide_mul(self.den, other.den);
        proof {
            lemma_pos_mul_pos(self.den as int, other.den as int);
        }
        if n >= i64::MIN as i128 && n <= i64::MAX as i128 && d <= i64::MAX as i128 {
            Some(Ratio { num: n as i64, den: d as i64 })
        } else {
            None
        }
    }

    /// Exact difference, or `None` exactly when the result would not fit.
    pub fn checked_sub(self, other: Ratio) -> (r: Option<Ratio>)
        requires
            self.wf(),
            other.wf(),
        ensures
            r is Some <==> self.sub_fits(other),
            r matches Some(s) ==> {
                &&& s.wf()
                &&& s.num == self.num * other.den - other.num * self.den
                &&& s.den == self.den * other.den
                &&& s == spec_sub_val(self, other)
            },
    {
        let n1 = wide_mul(self.num, other.den);
        let n2 = wide_mul(other.num, self.den);
        proof {
            lemma_cross_sum_in_range(self.num as int, other.den as int, other.num as int,
                self.den as int);
        }
        let n = n1 - n2;
        let d = wide_mul(self.den, other.den);
        proof {
            lemma_pos_mul_pos(self.den as int, other.den as int);
        }
        if n >= i64::MIN as i128 && n <= i64::MAX as i128 && d <= i64::MAX as i128 {
            Some(Ratio { num: n as i64, den: d as i64 })
        } else {
            None
        }
    }

    /// Exact product, or `None` exactly when the result would not fit.
    pub fn checked_mul(self, other: Ratio) -> (r: Option<Ratio>)
        requires
            self.wf(),
            other.wf(),
        ensures
            r is Some <==> self.mul_fits(other),
            r matches Some(s) ==> {
                &&& s.wf()
                &&& s.num == self.num * other.num
                &&& s.den == self.den * other.den
                &&& s == spec_mul_val(self, other)
            },
    {
        let n = wide_mul(self.num, other.num);
        let d = wide_mul(self.den, other.den);
        proof {
            lemma_pos_mul_pos(self.den as int, other.den as int);
        }
        if n >= i64::MIN as i128 && n <= i64::MAX as i128 && d <= i64::MAX as i128 {
            Some(Ratio { num: n as i64, den: d as i64 })
        } else {
            None
        }
    }

    /// Exact quotient by a nonzero ratio, or `None` exactly when the result
    /// would not fit. The sign is moved into the numerator so that the result
    /// stays well-formed.
    pub fn checked_div(self, other: Ratio) -> (r: Option<Ratio>)
        requires
            self.wf(),
            other.wf(),
            other.num != 0,
        ensures
            r is Some <==> self.div_fits(other),
            r matches Some(s) ==> {
                &&& s.wf()
                &&& if other.num > 0 {
                    s.num == self.num * other.den && s.den == self.den * other.num
                } else {
                    s.num == -(self.num * other.den) && s.den == self.den * -other.num
                }
                &&& s == spec_div_val(self, other)
            },
    {
        let n0 = wide_mul(self.num, other.den);
        let d0 = wide_mul(self.den, other.num);
        let (n, d) = if other.num > 0 {
            (n0, d0)
        } else {
            proof {
                lemma_pos_mul_pos(self.den as int, -(other.num as int));
                lemma_i64_mul_tight(self.num as int, other.den as int);
                lemma_i64_mul_tight(self.den as int, other.num as int);
                assert(self.den as int * (-(other.num as int)) == -(self.den as int
                    * other.num as int)) by (nonlinear_arith);
            }
            (-n0, -d0)
        };
        proof {
            if other.num > 0 {
                lemma_pos_mul_pos(self.den as int, other.num as int);
            }
        }
        if n >= i64::MIN as i128 && n <= i64::MAX as i128 && d <= i64::MAX as i128 {
            Some(Ratio { num: n as i64, den: d as i64 })
        } else {
            None
        }
    }

    /// Exact negation, or `None` exactly when the result would not fit.
    pub fn checked_neg(self) -> (r: Option<Ratio>)
        requires
            self.wf(),
        ensures
            r is Some <==> self.num != i64::MIN,
            r matches Some(s) ==> {
                &&& s.wf()
                &&& s.num == -self.num
                &&& s.den == self.den
            },
    {
        if self.num == i64::MIN {
            None
        } else {
            Some(Ratio { num: -self.num, den: self.den })
        }
    }

    /// `self <= other` as rational numbers.
    pub fn le(&self, other: &Ratio) -> (r: bool)
        requires
            self.wf(),
            other.wf(),
        ensures
            r == self.spec_le(*other),
    {
        wide_mul(self.num, other.den) <= wide_mul(other.num, self.den)
    }

    /// `self < other` as rational numbers.
    pub fn lt(&self, other: &Ratio) -> (r: bool)
        requires
            self.wf(),
            other.wf(),
        ensures
            r == self.spec_lt(*other),
    {
        wide_mul(self.num, other.den) < wide_mul(other.num, self.den)
    }

    /// `self == other` as rational numbers.
    pub fn eqv(&self, other: &Ratio) -> (r: bool)
        ensures
            r == self.spec_eqv(*other),
    {
        wide_mul(self.num, other.den) == wide_mul(other.num, self.den)
    }
}

/// The exact sum as a value (meaningful when `add_fits` holds, so the casts
/// are lossless).
pub open spec fn spec_add_val(a: Ratio, b: Ratio) -> Ratio {
    Ratio { num: (a.num * b.den + b.num * a.den) as i64, den: (a.den * b.den) as i64 }
}

/// The exact difference as a value (meaningful when `sub_fits` holds).
pub open spec fn spec_sub_val(a: Ratio, b: Ratio) -> Ratio {
    Ratio { num: (a.num * b.den - b.num * a.den) as i64, den: (a.den * b.den) as i64 }
}

/// The exact product as a value (meaningful when `mul_fits` holds).
pub open spec fn spec_mul_val(a: Ratio, b: Ratio) -> Ratio {
    Ratio { num: (a.num * b.num) as i64, den: (a.den * b.den) as i64 }
}

/// The exact quotient as a value, its sign moved into the numerator
/// (meaningful when `div_fits` holds and `b` is nonzero).
pub open spec fn spec_div_val(a: Ratio, b: Ratio) -> Ratio {
    if b.num > 0 {
        Ratio { num: (a.num * b.den) as i64, den: (a.den * b.num) as i64 }
    } else {
        Ratio { num: (-(a.num * b.den)) as i64, den: (a.den * -b.num) as i64 }
    }
}

/// `out` is `(v - m) / s` as rational numbers (stated by cross-
/// multiplication, so it is meaningful whatever the signs).
pub open spec fn scales_to(v: Ratio, m: Ratio, s: Ratio, out: Ratio) -> bool {
    out.num * (v.den * m.den * s.num) == (v.num * m.den - m.num * v.den) * s.den * out.den
}

/// The checked subtract-then-divide chain computes `(v - m) / s`.
pub proof fn lemma_scale_chain(v: Ratio, m: Ratio, s: Ratio, d: Ratio, q: Ratio)
    requires
        d.num == v.num * m.den - m.num * v.den,
        d.den == v.den * m.den,
        if s.num > 0 {
            q.num == d.num * s.den && q.den == d.den * s.num
        } else {
            q.num == -(d.num * s.den) && q.den == d.den * -s.num
        },
    ensures
        scales_to(v, m, s, q),
{
    if s.num > 0 {
        assert(q.num * (v.den * m.den * s.num) == (v.num * m.den - m.num * v.den) * s.den * q.den)
            by (nonlinear_arith)
            requires
                d.num == v.num * m.den - m.num * v.den,
                d.den == v.den * m.den,
                q.num == d.num * s.den,
                q.den == d.den * s.num,
        ;
    } else {
        assert(q.num * (v.den * m.den * s.num) == (v.num * m.den - m.num * v.den) * s.den * q.den)
            by (nonlinear_arith)
            requires
                d.num == v.num * m.den - m.num * v.den,
                d.den == v.den * m.den,
                q.num == -(d.num * s.den),
                q.den == d.den * -s.num,
        ;
    }
}

/// One rescaling step `(v - m) / s` stays inside the machine integers.
pub open spec fn scale_step_fits(v: Ratio, m: Ratio, s: Ratio) -> bool {
    v.sub_fits(m) && spec_sub_val(v, m).div_fits(s)
}

/// The rational order is transitive (through a well-formed middle value).
pub proof fn lemma_ratio_le_trans(a: Ratio, b: Ratio, c: Ratio)
    requires
        a.wf(),
        b.wf(),
        c.wf(),
        a.spec_le(b),
        b.spec_le(c),
    ensures
        a.spec_le(c),
{
    assert(a.num * c.den <= c.num * a.den) by (nonlinear_arith)
        requires
            a.num * b.den <= b.num * a.den,
            b.num * c.den <= c.num * b.den,
            a.den >= 1,
            b.den >= 1,
            c.den >= 1,
    ;
}

/// The full product of two machine integers, carried out in a wider type so
/// it is always exact.
pub fn wide_mul(a: i64, b: i64) -> (r: i128)
    ensures
        r == a * b,
{
    proof {
        lemma_i64_mul_in_i128(a as int, b as int);
    }
    (a as i128) * (b as i128)
}

/// The product of two machine integers fits the wider type.
proof fn lemma_i64_mul_in_i128(a: int, b: int)
    requires
        i64::MIN <= a <= i64::MAX,
        i64::MIN <= b <= i64::MAX,
    ensures
        i128::MIN <= a * b <= i128::MAX,
{
    assert(i128::MIN <= a * b <= i128::MAX) by (nonlinear_arith)
        requires
            -0x8000_0000_0000_0000 <= a <= 0x7fff_ffff_ffff_ffff,
            -0x8000_0000_0000_0000 <= b <= 0x7fff_ffff_ffff_ffff,
    ;
}

/// The product of two machine integers stays well inside the wide type, so
/// its negation does too.
proof fn lemma_i64_mul_tight(a: int, b: int)
    requires
        i64::MIN <= a <= i64::MAX,
        i64::MIN <= b <= i64::MAX,
    ensures
        -0x4000_0000_0000_0000_0000_0000_0000_0000 <= a * b
            <= 0x4000_0000_0000_0000_0000_0000_0000_0000,
{
    assert(-0x4000_0000_0000_0000_0000_0000_0000_0000 <= a * b
        <= 0x4000_0000_0000_0000_0000_0000_0000_0000) by (nonlinear_arith)
        requires
            -0x8000_0000_0000_0000 <= a <= 0x7fff_ffff_ffff_ffff,
            -0x8000_0000_0000_0000 <= b <= 0x7fff_ffff_ffff_ffff,
    ;
}

/// With positive denominators, the sum of two cross products stays inside
/// the wide integer type.
proof fn lemma_cross_sum_in_range(n1: int, d2: int, n2: int, d1: int)
    requires
        i64::MIN <= n1 <= i64::MAX,
        i64::MIN <= n2 <= i64::MAX,
        1 <= d1 <= i64::MAX,
        1 <= d2 <= i64::MAX,
    ensures
        i128::MIN <= n1 * d2 + n2 * d1 <= i128::MAX,
        i128::MIN <= n1 * d2 - n2 * d1 <= i128::MAX,
{
    assert(i128::MIN <= n1 * d2 + n2 * d1 <= i128::MAX && i128::MIN <= n1 * d2 - n2 * d1
        <= i128::MAX) by (nonlinear_arith)
        requires
            -0x8000_0000_0000_0000 <= n1 <= 0x7fff_ffff_ffff_ffff,
            -0x8000_0000_0000_0000 <= n2 <= 0x7fff_ffff_ffff_ffff,
            1 <= d1 <= 0x7fff_ffff_ffff_ffff,
            1 <= d2 <= 0x7fff_ffff_ffff_ffff,
    ;
}

/// A product of positive factors is positive.
proof fn lemma_pos_mul_pos(a: int, b: int)
    requires
        a >= 1,
        b >= 1,
    ensures
        a * b >= 1,
{
    assert(a * b >= 1) by (nonlinear_arith)
        requires
            a >= 1,
            b >= 1,
    ;
}

} // verus!
