//! Fractions of lengths, as ratios of integers.
use vstd::prelude::*;

verus! {

/// The fraction `num / den`. A denominator of zero counts as one.
#[derive(Clone, Copy, Debug, PartialEq, Eq, Structural)]
pub struct Ratio {
    pub num: i64,
    pub den: u32,
}

/// A part of a length, towards zero.
pub open spec fn part_of(length: int, num: int, den: int) -> int {
    if num >= 0 {
        length * num / den
    } else {
        -(length * (-num) / den)
    }
}

impl Ratio {
    /// What one is counted in.
    pub open spec fn whole(self) -> int {
        if self.den == 0 {
            1
        } else {
            self.den as int
        }
    }

    /// The numerator where the fraction lies between minus one and one, else that of the nearer of
    /// the two.
    pub open spec fn within_one(self) -> int {
        if self.num > self.whole() {
            self.whole()
        } else if self.num < -self.whole() {
            -self.whole()
        } else {
            self.num as int
        }
    }

    /// The numerator where the fraction lies between zero and one, else that of the nearer of the
    /// two.
    pub open spec fn unit(self) -> int {
        if self.num < 0 {
            0
        } else {
            self.within_one()
        }
    }

    /// Whether a fraction between zero and one is no greater than another one.
    pub open spec fn unit_up_to(self, other: Ratio) -> bool {
        self.unit() * other.whole() <= other.unit() * self.whole()
    }

    pub(crate) fn denominator(self) -> (r: i128)
        ensures
            r == self.whole(),
            1 <= r <= 0xFFFF_FFFF,
    {
        if self.den == 0 {
            1
        } else {
            self.den as i128
        }
    }

    pub(crate) fn numerator(self) -> (r: i128)
        ensures
            r == self.within_one(),
            -0xFFFF_FFFF <= r <= 0xFFFF_FFFF,
    {
        let d: i128 = self.denominator();
        let n: i128 = self.num as i128;
        if n > d {
            d
        } else if n < -d {
            -d
        } else {
            n
        }
    }

    pub(crate) fn unit_numerator(self) -> (r: i128)
        ensures
            r == self.unit(),
            0 <= r <= self.whole(),
            r <= 0xFFFF_FFFF,
    {
        if self.num < 0 {
            0
        } else {
            self.numerator()
        }
    }
}

/// A part of a length.
pub(crate) fn part(length: i128, num: i128, den: i128) -> (r: i128)
    requires
        0 <= length <= 0x1_0000_0000_0000_0000,
        1 <= den <= 0xFFFF_FFFF,
        -den <= num <= den,
    ensures
        r == part_of(length as int, num as int, den as int),
        -length <= r <= length,
        num >= 0 ==> r >= 0,
{
    let size: i128 = if num >= 0 {
        num
    } else {
        -num
    };
    proof {
        assert(0 <= length * size <= length * den) by (nonlinear_arith)
            requires
                0 <= length,
                0 <= size <= den,
        ;
        assert(length * den <= 0x1_0000_0000_0000_0000 * 0xFFFF_FFFF) by (nonlinear_arith)
            requires
                0 <= length <= 0x1_0000_0000_0000_0000,
                1 <= den <= 0xFFFF_FFFF,
        ;
        assert(0 <= length * size / den as int <= length) by (nonlinear_arith)
            requires
                0 <= length * size <= length * den,
                den >= 1,
        ;
    }
    let p: i128 = length * size / den;
    if num >= 0 {
        p
    } else {
        -p
    }
}

/// The greater a fraction between zero and one, the greater its part of a length.
pub proof fn law_parts_follow_their_fractions(length: int, low: Ratio, high: Ratio)
    requires
        length >= 0,
        low.unit_up_to(high),
    ensures
        0 <= part_of(length, low.unit(), low.whole()) <= part_of(length, high.unit(), high.whole())
            <= length,
{
    let ln = low.unit();
    let ld = low.whole();
    let hn = high.unit();
    let hd = high.whole();
    let q = length * ln / ld;
    assert(0 <= length * ln) by (nonlinear_arith)
        requires
            0 <= length,
            0 <= ln,
    ;
    vstd::arithmetic::div_mod::lemma_fundamental_div_mod(length * ln, ld);
    assert(0 <= q) by (nonlinear_arith)
        requires
            0 <= length * ln,
            q == length * ln / ld,
            ld >= 1,
    ;
    assert(q * ld <= length * ln) by (nonlinear_arith)
        requires
            length * ln == ld * q + (length * ln) % ld,
            (length * ln) % ld >= 0,
    ;
    assert(q * hd <= length * hn) by (nonlinear_arith)
        requires
            q * ld <= length * ln,
            ln * hd <= hn * ld,
            length >= 0,
            ld >= 1,
            hd >= 1,
    {
        assert((q * hd) * ld <= (length * ln) * hd);
        assert((length * ln) * hd <= (length * hn) * ld);
        assert((q * hd) * ld <= (length * hn) * ld);
    }
    assert(q <= length * hn / hd) by (nonlinear_arith)
        requires
            q * hd <= length * hn,
            hd >= 1,
    ;
    assert(length * hn / hd <= length) by (nonlinear_arith)
        requires
            0 <= length,
            hn <= hd,
            hd >= 1,
    {
        assert(length * hn <= length * hd);
    }
}

} // verus!
