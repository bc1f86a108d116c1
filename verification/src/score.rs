//! Relevance scores as exact numbers.

use vstd::arithmetic::power2::pow2;
use vstd::prelude::*;

verus! {

/// A relevance score: an integer times a power of two, and how it is shown.
pub struct Score {
    pub mantissa: i64,
    pub exponent: i32,
    /// The score with three decimals.
    pub text: String,
}

/// Whether one integer times a power of two is less than another.
pub open spec fn is_less(m: int, e: int, n: int, f: int) -> bool {
    if e >= f {
        m * pow2((e - f) as nat) < n
    } else {
        m < n * pow2((f - e) as nat)
    }
}

/// Whether a score is less than another.
pub open spec fn scores_less(a: Score, b: Score) -> bool {
    is_less(a.mantissa as int, a.exponent as int, b.mantissa as int, b.exponent as int)
}

/// Whether a score is less than half of another.
pub open spec fn less_than_half(a: Score, top: Score) -> bool {
    is_less(a.mantissa as int, a.exponent + 1, top.mantissa as int, top.exponent as int)
}

/// `m` times two to the power of `d`.
fn shifted(m: i64, d: u32) -> (product: i128)
    requires
        d <= 63,
    ensures
        product == m * pow2(d as nat),
{
    let mut product: i128 = m as i128;
    let mut bound: i128 = 0x8000_0000_0000_0000;
    let mut i: u32 = 0;
    proof {
        vstd::arithmetic::power2::lemma2_to64();
        vstd::arithmetic::power2::lemma2_to64_rest();
    }
    while i < d
        invariant
            i <= d <= 63,
            product == m * pow2(i as nat),
            bound == 0x8000_0000_0000_0000 * pow2(i as nat),
            -bound <= product <= bound,
            pow2(63) == 0x8000_0000_0000_0000,
        decreases d - i,
    {
        proof {
            vstd::arithmetic::power2::lemma_pow2_unfold((i + 1) as nat);
            if i + 1 < 63 {
                vstd::arithmetic::power2::lemma_pow2_strictly_increases((i + 1) as nat, 63);
            }
            assert(m * pow2((i + 1) as nat) == 2 * (m * pow2(i as nat))) by (nonlinear_arith)
                requires
                    pow2((i + 1) as nat) == 2 * pow2(i as nat),
            ;
        }
        product = product * 2;
        bound = bound * 2;
        i = i + 1;
    }
    product
}

/// A number times a large power of two lies beyond every other number, unless
/// it is zero.
proof fn lemma_beyond(m: int, d: nat)
    requires
        d >= 64,
    ensures
        m > 0 ==> m * pow2(d) > i64::MAX,
        m < 0 ==> m * pow2(d) < i64::MIN,
        m == 0 ==> m * pow2(d) == 0,
{
    vstd::arithmetic::power2::lemma2_to64_rest();
    if d > 64 {
        vstd::arithmetic::power2::lemma_pow2_strictly_increases(64, d);
    }
    let p = pow2(d) as int;
    assert(p >= 0x1_0000_0000_0000_0000);
    assert(m > 0 ==> m * p >= p) by (nonlinear_arith)
        requires
            p > 0,
    ;
    assert(m < 0 ==> m * p <= -p) by (nonlinear_arith)
        requires
            p > 0,
    ;
}

/// Whether one integer times a power of two is less than another.
pub fn less(m: i64, e: i64, n: i64, f: i64) -> (is: bool)
    requires
        -0x1_0000_0000 <= e <= 0x1_0000_0000,
        -0x1_0000_0000 <= f <= 0x1_0000_0000,
    ensures
        is == is_less(m as int, e as int, n as int, f as int),
{
    if e >= f {
        let d: i64 = e - f;
        if d >= 64 {
            proof {
                lemma_beyond(m as int, d as nat);
            }
            if m == 0 {
                0 < n
            } else {
                m < 0
            }
        } else {
            shifted(m, d as u32) < n as i128
        }
    } else {
        let d: i64 = f - e;
        if d >= 64 {
            proof {
                lemma_beyond(n as int, d as nat);
            }
            if n == 0 {
                m < 0
            } else {
                n > 0
            }
        } else {
            (m as i128) < shifted(n, d as u32)
        }
    }
}

impl Score {
    pub fn less_than(&self, other: &Score) -> (is: bool)
        ensures
            is == scores_less(*self, *other),
    {
        less(self.mantissa, self.exponent as i64, other.mantissa, other.exponent as i64)
    }

    /// Whether this score is less than half of `top`.
    pub fn is_weak(&self, top: &Score) -> (weak: bool)
        ensures
            weak == less_than_half(*self, *top),
    {
        less(self.mantissa, self.exponent as i64 + 1, top.mantissa, top.exponent as i64)
    }
}

/// Scores are compared as the numbers they stand for, whatever the powers of two
/// they are written with: for every power that is no larger than either, one is
/// less than another, and less than half of it, exactly where that holds of the
/// multiples of that power.
pub proof fn law_scores_are_compared_as_numbers(a: Score, b: Score, base: int)
    requires
        base <= a.exponent,
        base <= b.exponent,
    ensures
        scores_less(a, b) <==> a.mantissa * pow2((a.exponent - base) as nat) < b.mantissa * pow2(
            (b.exponent - base) as nat,
        ),
        less_than_half(a, b) <==> 2 * (a.mantissa * pow2((a.exponent - base) as nat)) < b.mantissa
            * pow2((b.exponent - base) as nat),
{
    lemma_scaled(
        a.mantissa as int,
        a.exponent as int,
        b.mantissa as int,
        b.exponent as int,
        base,
    );
    lemma_scaled(
        a.mantissa as int,
        a.exponent + 1,
        b.mantissa as int,
        b.exponent as int,
        base,
    );
    let d = (a.exponent - base) as nat;
    vstd::arithmetic::power2::lemma_pow2_unfold(d + 1);
    let m = a.mantissa as int;
    let p = pow2(d) as int;
    assert(m * (2 * p) == 2 * (m * p)) by (nonlinear_arith);
}

proof fn lemma_scaled(m: int, e: int, n: int, f: int, base: int)
    requires
        base <= e,
        base <= f,
    ensures
        is_less(m, e, n, f) <==> m * pow2((e - base) as nat) < n * pow2((f - base) as nat),
{
    if e >= f {
        let (d, k) = ((e - f) as nat, (f - base) as nat);
        vstd::arithmetic::power2::lemma_pow2_adds(d, k);
        vstd::arithmetic::power2::lemma_pow2_pos(k);
        let (p, q) = (pow2(d) as int, pow2(k) as int);
        assert((m * p < n) <==> (m * (p * q) < n * q)) by (nonlinear_arith)
            requires
                q > 0,
        ;
    } else {
        let (d, k) = ((f - e) as nat, (e - base) as nat);
        vstd::arithmetic::power2::lemma_pow2_adds(d, k);
        vstd::arithmetic::power2::lemma_pow2_pos(k);
        let (p, q) = (pow2(d) as int, pow2(k) as int);
        assert((m < n * p) <==> (m * q < n * (p * q))) by (nonlinear_arith)
            requires
                q > 0,
        ;
    }
}

} // verus!
