use vstd::prelude::*;

verus! {

/// An exact rational value with a positive denominator. Probabilities,
/// expected values, profit percentages and stake splits are all ratios of
/// machine integers, so the core never rounds: every comparison the
/// detectors make is decided exactly.
#[derive(Clone, Copy, Debug, PartialEq, Eq)]
pub struct Ratio {
    pub num: i64,
    pub den: i64,
}

impl Ratio {
    pub open spec fn wf(self) -> bool {
        0 < self.den
    }

    /// `self <= other` as mathematical rationals (cross multiplication;
    /// meaningful when both denominators are positive).
    pub open spec fn spec_le(self, other: Ratio) -> bool {
        self.num * other.den <= other.num * self.den
    }

    pub open spec fn spec_ge(self, other: Ratio) -> bool {
        other.spec_le(self)
    }

    /// The ratio is strictly greater than zero.
    pub open spec fn spec_pos(self) -> bool {
        self.num > 0
    }

    pub fn new(num: i64, den: i64) -> (r: Ratio)
        requires
            0 < den,
        ensures
            r.num == num,
            r.den == den,
            r.wf(),
    {
        Ratio { num, den }
    }

    /// Exact comparison by cross multiplication in `i128`, which cannot
    /// overflow for `i64` operands.
    pub fn ge(&self, other: &Ratio) -> (r: bool)
        ensures
            r == self.spec_ge(*other),
    {
        proof {
            lemma_i64_mul_fits_i128(self.num as int, other.den as int);
            lemma_i64_mul_fits_i128(other.num as int, self.den as int);
        }
        let lhs: i128 = (self.num as i128) * (other.den as i128);
        let rhs: i128 = (other.num as i128) * (self.den as i128);
        lhs >= rhs
    }

    pub fn is_positive(&self) -> (r: bool)
        ensures
            r == self.spec_pos(),
    {
        self.num > 0
    }

    /// Componentwise equality (used for deduplication keys).
    pub fn same_parts(&self, other: &Ratio) -> (r: bool)
        ensures
            r == (self.num == other.num && self.den == other.den),
    {
        self.num == other.num && self.den == other.den
    }
}

/// The ratio `num / den` with both parts as machine integers; meaningful
/// for in-range arguments.
pub open spec fn ratio64(num: int, den: int) -> Ratio {
    Ratio { num: num as i64, den: den as i64 }
}

/// The product of two `i64` values always fits in `i128`.
pub proof fn lemma_i64_mul_fits_i128(a: int, b: int)
    requires
        i64::MIN <= a <= i64::MAX,
        i64::MIN <= b <= i64::MAX,
    ensures
        i128::MIN <= a * b <= i128::MAX,
{
    assert(i128::MIN <= a * b <= i128::MAX) by (nonlinear_arith)
        requires
            i64::MIN <= a <= i64::MAX,
            i64::MIN <= b <= i64::MAX,
    ;
}

/// `spec_ge` is transitive on well-formed ratios, which is what makes
/// the descending sorts used by the detectors well defined.
pub proof fn lemma_ratio_ge_trans(a: Ratio, b: Ratio, c: Ratio)
    requires
        a.wf(),
        b.wf(),
        c.wf(),
        a.spec_ge(b),
        b.spec_ge(c),
    ensures
        a.spec_ge(c),
{
    assert(a.num * c.den >= c.num * a.den) by (nonlinear_arith)
        requires
            0 < a.den,
            0 < b.den,
            0 < c.den,
            b.num * a.den <= a.num * b.den,
            c.num * b.den <= b.num * c.den,
    ;
}

} // verus!
