//! Exact fixed-point arithmetic.
//!
//! Every real number of the domain (a price, a quantity, a sentiment score, a
//! fraction, a percentage) is held as an unsigned integer count of millionths.
//! The value of a position is the product of a quantity and a price and is
//! therefore a count of million-millionths, held in a `u128`.
//!
//! The decisions of the library compare products of such numbers.  They are
//! taken on the exact products: nothing here rounds, wraps or saturates.

use vstd::prelude::*;
use vstd::arithmetic::div_mod::lemma_fundamental_div_mod_converse;

verus! {

/// How many units make one whole: a price of `1_500_000` is 1.5.
pub const SCALE: u64 = 1_000_000;

/// How many units of value make one whole unit of currency.
pub const VALUE_SCALE: u128 = 1_000_000_000_000;

/// Two to the power 64.
pub const WORD: u128 = 0x1_0000_0000_0000_0000;

/// Two to the power 128, the number of values of a `u128`.
pub open spec fn span() -> int {
    0x1_0000_0000_0000_0000_0000_0000_0000_0000int
}

/// A natural number below two to the power 192, in two limbs.
#[derive(Clone, Copy, Debug)]
pub struct Wide {
    pub hi: u64,
    pub lo: u128,
}

impl Wide {
    /// The number that the two limbs stand for.
    pub open spec fn value(self) -> int {
        self.hi * span() + self.lo
    }

    /// Whether `self` stands for a larger number than `other`.
    pub fn exceeds(self, other: Wide) -> (r: bool)
        ensures
            r == (self.value() > other.value()),
    {
        self.hi > other.hi || (self.hi == other.hi && self.lo > other.lo)
    }
}

/// The exact product of `a` and `b`.
pub fn wide_mul(a: u128, b: u64) -> (w: Wide)
    ensures
        w.value() == a * b,
{
    let a_lo: u128 = a % WORD;
    let a_hi: u128 = a / WORD;
    let b_wide: u128 = b as u128;
    assert(a_lo * b_wide <= (WORD - 1) * (WORD - 1)) by (nonlinear_arith)
        requires
            0 <= a_lo <= WORD - 1,
            0 <= b_wide <= WORD - 1,
    ;
    assert(a_hi * b_wide <= (WORD - 1) * (WORD - 1)) by (nonlinear_arith)
        requires
            0 <= a_hi <= WORD - 1,
            0 <= b_wide <= WORD - 1,
    ;
    let low: u128 = a_lo * b_wide;
    let high: u128 = a_hi * b_wide;
    let high_lo: u128 = high % WORD;
    let high_hi: u128 = high / WORD;
    let mid: u128 = high_lo * WORD;
    assert(a * b == high_hi * span() + mid + low) by (nonlinear_arith)
        requires
            a == a_hi * WORD + a_lo,
            low == a_lo * b,
            high == a_hi * b,
            high == high_hi * WORD + high_lo,
            mid == high_lo * WORD,
            WORD * WORD == span(),
    ;
    if low > u128::MAX - mid {
        let lo: u128 = low - (u128::MAX - mid) - 1;
        let hi: u128 = high_hi + 1;
        Wide { hi: hi as u64, lo }
    } else {
        Wide { hi: high_hi as u64, lo: low + mid }
    }
}

/// Whether `a * b` is larger than `c * d`, on the exact products.
pub fn product_exceeds(a: u128, b: u64, c: u128, d: u64) -> (r: bool)
    ensures
        r == (a * b > c * d),
{
    wide_mul(a, b).exceeds(wide_mul(c, d))
}

/// Quotient and remainder of `r * k` by `d`, for `r` below `d`.
///
/// The product may be far larger than a `u128`; the quotient is at most `k`.
pub fn scaled_div_rem(r: u128, k: u64, d: u128) -> (res: (u64, u128))
    requires
        r < d,
    ensures
        res.0 == (r * k) / (d as int),
        res.1 == (r * k) % (d as int),
        res.0 <= k,
    decreases k,
{
    if k == 0 {
        assert(r * k == 0) by (nonlinear_arith)
            requires
                k == 0,
        ;
        proof {
            lemma_fundamental_div_mod_converse(0, d as int, 0, 0);
        }
        (0, 0)
    } else {
        let half: u64 = k / 2;
        let odd: bool = k % 2 == 1;
        let (q_half, r_half) = scaled_div_rem(r, half, d);
        assert(r * half == q_half * d + r_half) by {
            vstd::arithmetic::div_mod::lemma_fundamental_div_mod(r * half, d as int);
            assert(d * q_half == q_half * d) by (nonlinear_arith);
        }
        // Twice the half.
        let (q_even, r_even): (u64, u128) = if r_half >= d - r_half {
            (2 * q_half + 1, r_half - (d - r_half))
        } else {
            (2 * q_half, 2 * r_half)
        };
        assert(r * (2 * half) == q_even * d + r_even) by (nonlinear_arith)
            requires
                r * half == q_half * d + r_half,
                (q_even == 2 * q_half + 1 && r_even == 2 * r_half - d) || (q_even == 2 * q_half
                    && r_even == 2 * r_half),
        ;
        assert(q_even <= 2 * half) by (nonlinear_arith)
            requires
                r * (2 * half) == q_even * d + r_even,
                0 <= r < d,
                0 <= r_even,
                0 <= q_even,
                0 <= half,
        ;
        // One more where `k` is odd.
        let (q, rem): (u64, u128) = if odd {
            if r_even >= d - r {
                (q_even + 1, r_even - (d - r))
            } else {
                (q_even, r_even + r)
            }
        } else {
            (q_even, r_even)
        };
        assert(r * k == q * d + rem) by (nonlinear_arith)
            requires
                r * (2 * half) == q_even * d + r_even,
                (k == 2 * half + 1 && ((q == q_even + 1 && rem == r_even + r - d) || (q == q_even
                    && rem == r_even + r))) || (k == 2 * half && q == q_even && rem == r_even),
        ;
        assert(q <= k) by (nonlinear_arith)
            requires
                r * k == q * d + rem,
                0 <= r < d,
                0 <= rem,
                0 <= q,
                0 <= k,
        ;
        proof {
            lemma_fundamental_div_mod_converse(r * k, d as int, q as int, rem as int);
        }
        (q, rem)
    }
}

} // verus!
