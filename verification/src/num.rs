//! Double-precision numbers as bit patterns.
//!
//! The machine carries every number as the 64 bits of its IEEE 754 binary64
//! encoding: one sign bit, eleven exponent bits, fifty-two fraction bits.
//! What can be decided on the bits alone is decided here: the sign flip, the
//! test for zero, the ordering, and the conversions from and to an index.
//! Sums, differences, products and quotients are left to the host of the
//! machine, which hands their bits back.
use vstd::arithmetic::power2::*;
use vstd::prelude::*;

verus! {

/// The sign bit, two to the 63rd.
pub const SIGN: u64 = 0x8000_0000_0000_0000;

/// The bit just above the fraction, two to the 52nd.
pub const HIDDEN: u64 = 0x0010_0000_0000_0000;

/// Positive infinity: every exponent bit set, no fraction bit.
pub const INFINITE: u64 = 0x7ff0_0000_0000_0000;

/// The number one.
pub const ONE: u64 = 0x3ff0_0000_0000_0000;

/// The number minus one.
pub const MINUS_ONE: u64 = 0xbff0_0000_0000_0000;

/// A binary64 value, held as its bit pattern. Two values are equal when their
/// bits are: a NaN equals itself, and the two zeros differ.
#[derive(Clone, Copy, Debug, PartialEq, Eq, Structural)]
pub struct Double {
    pub bits: u64,
}

/// The position of the highest set bit of `n`, and 0 for 0.
pub open spec fn top_bit(n: nat) -> nat
    decreases n,
{
    if n < 2 {
        0
    } else {
        1 + top_bit(n / 2)
    }
}

impl Double {
    /// The sign bit is set.
    pub open spec fn negative(self) -> bool {
        self.bits >= SIGN
    }

    /// The bits without the sign.
    pub open spec fn magnitude(self) -> u64 {
        if self.bits >= SIGN {
            (self.bits - SIGN) as u64
        } else {
            self.bits
        }
    }

    /// Not a number: the exponent bits are all set and a fraction bit is.
    pub open spec fn nan(self) -> bool {
        self.magnitude() > INFINITE
    }

    /// Plus or minus zero.
    pub open spec fn zero(self) -> bool {
        self.magnitude() == 0
    }

    /// An integer that orders the values other than NaN as the numbers they
    /// encode: the magnitude, negated under a set sign bit.
    pub open spec fn rank(self) -> int {
        if self.negative() {
            -(self.magnitude() as int)
        } else {
            self.magnitude() as int
        }
    }

    /// Numerically less: neither is NaN, and the ranks are so ordered.
    pub open spec fn less(self, other: Double) -> bool {
        !self.nan() && !other.nan() && self.rank() < other.rank()
    }

    /// The value with its sign bit flipped.
    pub open spec fn negated(self) -> Double {
        Double {
            bits: if self.bits >= SIGN {
                (self.bits - SIGN) as u64
            } else {
                (self.bits + SIGN) as u64
            },
        }
    }

    /// Minus one, zero or one as `self` is less than, neither, or more than
    /// `other`.
    pub open spec fn ordering(self, other: Double) -> Double {
        if self.less(other) {
            Double { bits: MINUS_ONE }
        } else if other.less(self) {
            Double { bits: ONE }
        } else {
            Double { bits: 0 }
        }
    }

    /// The biased exponent, from 0 to 2047.
    pub open spec fn exponent(self) -> int {
        self.magnitude() as int / HIDDEN as int
    }

    /// The fraction bits.
    pub open spec fn fraction(self) -> int {
        self.magnitude() as int % HIDDEN as int
    }

    /// The integer part of a finite value of magnitude one or more: the
    /// significand, scaled by two to the unbiased exponent less 52.
    pub open spec fn whole(self) -> int {
        let m = HIDDEN as int + self.fraction();
        if self.exponent() >= 1075 {
            m * pow2((self.exponent() - 1075) as nat)
        } else {
            m / pow2((1075 - self.exponent()) as nat) as int
        }
    }

    /// The value as an index: truncated towards zero and held to the range of
    /// `usize`, with 0 for NaN.
    pub open spec fn index(self) -> usize {
        if self.nan() || self.negative() || self.exponent() < 1023 {
            0
        } else if self.exponent() == 2047 || self.whole() > usize::MAX {
            usize::MAX
        } else {
            self.whole() as usize
        }
    }

    /// The double nearest to `n`, ties going to the even significand.
    pub open spec fn of_index(n: usize) -> Double {
        if n == 0 {
            Double { bits: 0 }
        } else {
            let k = top_bit(n as nat);
            let high = (1023 + k) * HIDDEN;
            if k <= 52 {
                Double { bits: (high + (n - pow2(k)) * pow2((52 - k) as nat)) as u64 }
            } else {
                let d = pow2((k - 52) as nat);
                let q = n as nat / d;
                let rest = n as nat % d;
                let up: int = if 2 * rest > d || (2 * rest == d && q % 2 == 1) {
                    1
                } else {
                    0
                };
                Double { bits: (high + (q - HIDDEN) + up) as u64 }
            }
        }
    }

    pub fn from_bits(bits: u64) -> (r: Double)
        ensures
            r.bits == bits,
    {
        Double { bits }
    }

    /// The sign flip, which is negation for every value, NaN included.
    #[verifier::when_used_as_spec(negated)]
    pub fn neg(self) -> (r: Double)
        ensures
            r == self.negated(),
    {
        if self.bits >= SIGN {
            Double { bits: self.bits - SIGN }
        } else {
            Double { bits: self.bits + SIGN }
        }
    }

    fn mag(self) -> (r: u64)
        ensures
            r == self.magnitude(),
    {
        if self.bits >= SIGN {
            self.bits - SIGN
        } else {
            self.bits
        }
    }

    #[verifier::when_used_as_spec(nan)]
    pub fn is_nan(self) -> (r: bool)
        ensures
            r == self.nan(),
    {
        self.mag() > INFINITE
    }

    /// The machine's falsehood: plus or minus zero. NaN is not zero.
    #[verifier::when_used_as_spec(zero)]
    pub fn is_zero(self) -> (r: bool)
        ensures
            r == self.zero(),
    {
        self.mag() == 0
    }

    #[verifier::when_used_as_spec(less)]
    pub fn lt(self, other: Double) -> (r: bool)
        ensures
            r == self.less(other),
    {
        if self.is_nan() || other.is_nan() {
            false
        } else {
            let a = self.mag();
            let b = other.mag();
            if self.bits >= SIGN {
                if other.bits >= SIGN {
                    a > b
                } else {
                    a != 0 || b != 0
                }
            } else {
                if other.bits >= SIGN {
                    false
                } else {
                    a < b
                }
            }
        }
    }

    #[verifier::when_used_as_spec(ordering)]
    pub fn compare(self, other: Double) -> (r: Double)
        ensures
            r == self.ordering(other),
    {
        if self.lt(other) {
            Double { bits: MINUS_ONE }
        } else if other.lt(self) {
            Double { bits: ONE }
        } else {
            Double { bits: 0 }
        }
    }

    #[verifier::when_used_as_spec(index)]
    pub fn to_index(self) -> (r: usize)
        ensures
            r == self.index(),
    {
        let m = self.mag();
        if self.bits >= SIGN || m > INFINITE {
            return 0;
        }
        let e = m / HIDDEN;
        let f = m % HIDDEN;
        if e < 1023 {
            return 0;
        }
        if e == 2047 {
            return usize::MAX;
        }
        let sig = HIDDEN + f;
        if e >= 1075 {
            let sh = e - 1075;
            if sh >= 12 {
                proof {
                    lemma2_to64();
                    lemma_pow2_adds(12, (sh - 12) as nat);
                    lemma_pow2_pos((sh - 12) as nat);
                    let p = pow2(sh as nat) as int;
                    assert(p >= 0x1000) by (nonlinear_arith)
                        requires
                            p == 0x1000 * pow2((sh - 12) as nat),
                            pow2((sh - 12) as nat) >= 1,
                    ;
                    assert(sig * p >= 0x1_0000_0000_0000_0000) by (nonlinear_arith)
                        requires
                            p >= 0x1000,
                            sig >= 0x0010_0000_0000_0000,
                    ;
                }
                return usize::MAX;
            }
            let p = pow2_u64(sh);
            proof {
                lemma2_to64();
                lemma_pow2_adds(sh as nat, (11 - sh) as nat);
                lemma_pow2_pos((11 - sh) as nat);
                assert(p <= 0x800) by (nonlinear_arith)
                    requires
                        p * pow2((11 - sh) as nat) == 0x800,
                        pow2((11 - sh) as nat) >= 1,
                        p >= 0,
                ;
                assert(sig * p < 0x1_0000_0000_0000_0000) by (nonlinear_arith)
                    requires
                        p <= 0x800,
                        sig < 0x0020_0000_0000_0000,
                        sig >= 0,
                        p >= 0,
                ;
            }
            clamp(sig * p)
        } else {
            let sh = 1075 - e;
            let p = pow2_u64(sh);
            proof {
                lemma_pow2_pos(sh as nat);
            }
            clamp(sig / p)
        }
    }

    #[verifier::when_used_as_spec(of_index)]
    pub fn from_index(n: usize) -> (r: Double)
        ensures
            r == Double::of_index(n),
    {
        if n == 0 {
            return Double { bits: 0 };
        }
        let v: u64 = n as u64;
        let mut k: u64 = 0;
        let mut p: u64 = 1;
        let mut t: u64 = v;
        proof {
            lemma2_to64();
        }
        while t >= 2
            invariant
                1 <= t,
                k <= 63,
                p == pow2(k as nat),
                p * t <= v < p * (t + 1),
                top_bit(v as nat) == k + top_bit(t as nat),
            decreases t,
        {
            proof {
                lemma_pow2_unfold((k + 1) as nat);
                lemma_pow2_pos(k as nat);
                let h = t / 2;
                assert(2 * p * h <= v && v < 2 * p * (h + 1)) by (nonlinear_arith)
                    requires
                        p * t <= v < p * (t + 1),
                        h == t / 2,
                        p >= 1,
                        t >= 2,
                ;
                assert(2 * p <= v) by (nonlinear_arith)
                    requires
                        2 * p * h <= v,
                        h >= 1,
                        p >= 1,
                ;
                if k == 63 {
                    lemma2_to64_rest();
                }
            }
            t = t / 2;
            p = p * 2;
            k = k + 1;
        }
        proof {
            lemma2_to64();
            lemma2_to64_rest();
        }
        assert(t == 1);
        assert(p <= v < 2 * p) by (nonlinear_arith)
            requires
                p * t <= v < p * (t + 1),
                t == 1,
        ;
        let high = (1023 + k) * HIDDEN;
        if k <= 52 {
            let s = pow2_u64(52 - k);
            proof {
                lemma_pow2_adds(k as nat, (52 - k) as nat);
                lemma_pow2_pos((52 - k) as nat);
                assert((k + (52 - k)) as nat == 52);
                assert(p * s == 0x0010_0000_0000_0000);
                assert((v - p) * s < 0x0010_0000_0000_0000) by (nonlinear_arith)
                    requires
                        p * s == 0x0010_0000_0000_0000,
                        p <= v < 2 * p,
                        s >= 1,
                ;
            }
            Double { bits: high + (v - p) * s }
        } else {
            let d = pow2_u64(k - 52);
            proof {
                lemma_pow2_adds(52, (k - 52) as nat);
                lemma_pow2_pos((k - 52) as nat);
                assert((52 + (k - 52)) as nat == k);
                assert(p == 0x0010_0000_0000_0000 * d);
            }
            let q = v / d;
            let rest = v % d;
            proof {
                assert(0x0010_0000_0000_0000 <= q < 0x0020_0000_0000_0000) by (nonlinear_arith)
                    requires
                        p == 0x0010_0000_0000_0000 * d,
                        p <= v < 2 * p,
                        q == v / d,
                        d >= 1,
                ;
            }
            let up: u64 = if d - rest < rest || (d - rest == rest && q % 2 == 1) {
                1
            } else {
                0
            };
            Double { bits: high + (q - HIDDEN) + up }
        }
    }
}

/// Two to the power `e`.
fn pow2_u64(e: u64) -> (r: u64)
    requires
        e < 64,
    ensures
        r == pow2(e as nat),
{
    let mut r: u64 = 1;
    let mut i: u64 = 0;
    proof {
        lemma2_to64();
    }
    while i < e
        invariant
            i <= e < 64,
            r == pow2(i as nat),
        decreases e - i,
    {
        proof {
            lemma_pow2_unfold((i + 1) as nat);
            lemma_pow2_strictly_increases((i + 1) as nat, 64);
            lemma2_to64_rest();
        }
        r = r * 2;
        i = i + 1;
    }
    r
}

/// `w` held to the range of `usize`.
fn clamp(w: u64) -> (r: usize)
    ensures
        r == if w > usize::MAX {
            usize::MAX
        } else {
            w as usize
        },
{
    if w > usize::MAX as u64 {
        usize::MAX
    } else {
        w as usize
    }
}

/// Flipping the sign twice gives the value back, bit for bit.
pub proof fn negated_twice(x: Double)
    ensures
        x.negated().negated() == x,
{
}

/// A zero stays a zero under the sign flip, and only a zero becomes one.
pub proof fn negated_zero(x: Double)
    ensures
        x.negated().zero() == x.zero(),
{
}

/// No value is less than itself, and of two values at most one is less than
/// the other.
pub proof fn less_is_strict(x: Double, y: Double)
    ensures
        !x.less(x),
        !(x.less(y) && y.less(x)),
{
}

/// Every index below two to the 53rd is a double exactly: converting it to a
/// double and back gives the index.
pub proof fn index_round_trip(n: usize)
    requires
        n < 0x0020_0000_0000_0000,
    ensures
        Double::of_index(n).index() == n,
{
    if n != 0 {
        let k = top_bit(n as nat);
        top_bit_bounds(n as nat);
        lemma2_to64();
        lemma2_to64_rest();
        if k > 52 {
            lemma_pow2_strictly_increases(52, k);
            lemma_pow2_strictly_increases(53, k);
        }
        assert(k <= 52);
        let s = pow2((52 - k) as nat);
        let p = pow2(k);
        lemma_pow2_adds(k, (52 - k) as nat);
        lemma_pow2_pos((52 - k) as nat);
        let frac = (n - p) * s;
        assert(0 <= frac < 0x0010_0000_0000_0000) by (nonlinear_arith)
            requires
                frac == (n - p) * s,
                p * s == 0x0010_0000_0000_0000,
                p <= n < 2 * p,
                s >= 1,
        ;
        let high = (1023 + k) * HIDDEN;
        let d = Double::of_index(n);
        assert(d.bits == high + frac);
        assert(d.magnitude() == high + frac);
        assert(d.exponent() == 1023 + k && d.fraction() == frac) by (nonlinear_arith)
            requires
                d.exponent() == (high + frac) / 0x0010_0000_0000_0000,
                d.fraction() == (high + frac) % 0x0010_0000_0000_0000,
                high == (1023 + k) * 0x0010_0000_0000_0000,
                0 <= frac < 0x0010_0000_0000_0000,
        ;
        assert(HIDDEN + frac == n * s) by (nonlinear_arith)
            requires
                frac == (n - p) * s,
                p * s == 0x0010_0000_0000_0000,
        ;
        assert((n * s) / (s as int) == n) by (nonlinear_arith)
            requires
                s >= 1,
        ;
        assert(1075 - d.exponent() == 52 - k);
        if k == 52 {
            assert(d.whole() == (HIDDEN + frac) * pow2(0));
        }
    }
}

/// `top_bit(n)` is the one exponent whose power of two is at most `n` while
/// the next is more.
pub proof fn top_bit_bounds(n: nat)
    requires
        n > 0,
    ensures
        pow2(top_bit(n)) <= n < pow2(top_bit(n) + 1),
    decreases n,
{
    lemma2_to64();
    if n >= 2 {
        top_bit_bounds(n / 2);
        lemma_pow2_unfold(top_bit(n));
        lemma_pow2_unfold(top_bit(n) + 1);
    } else {
        lemma_pow2_unfold(1);
    }
}

} // verus!
