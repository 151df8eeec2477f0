//! Integer arithmetic that the simulations share: floor division and
//! remainder on signed numbers, division rounded to the nearest integer, and
//! the rounded square root.

use vstd::arithmetic::div_mod::lemma_fundamental_div_mod;
use vstd::arithmetic::div_mod::lemma_fundamental_div_mod_converse;
use vstd::prelude::*;

verus! {

/// The largest magnitude of a numerator that [`div_floor`] and [`div_round`]
/// take.
pub const DIV_LIMIT: i128 = 0x1000_0000_0000_0000_0000_0000_0000;

/// The integer nearest to `n / d`, a tie going to the larger one.
pub open spec fn round_div(n: int, d: int) -> int {
    (2 * n + d) / (2 * d)
}

/// `x` brought into `0..n` by adding or taking away multiples of `n`.
pub open spec fn wrap(x: int, n: int) -> int {
    x % n
}

/// `x` held to the range from `lo` to `hi`.
pub open spec fn clamp(x: int, lo: int, hi: int) -> int {
    if x < lo {
        lo
    } else if x > hi {
        hi
    } else {
        x
    }
}

/// Whether `r` is the integer nearest to the square root of `n`.
pub open spec fn is_rounded_sqrt(r: int, n: int) -> bool {
    &&& r >= 0
    &&& r == 0 || (2 * r - 1) * (2 * r - 1) <= 4 * n
    &&& 4 * n < (2 * r + 1) * (2 * r + 1)
}

/// The quotient of `n` by `d`, rounded down.
pub fn div_floor(n: i128, d: i128) -> (q: i128)
    requires
        0 < d <= DIV_LIMIT,
        -DIV_LIMIT <= n <= DIV_LIMIT,
    ensures
        q == n as int / d as int,
        q * d <= n < q * d + d,
        n >= 0 ==> 0 <= q <= n,
        n < 0 ==> n <= q < 0,
{
    proof {
        lemma_fundamental_div_mod(n as int, d as int);
        vstd::arithmetic::div_mod::lemma_mod_bound(n as int, d as int);
        let e = n as int / d as int;
        assert(d * e == e * d) by (nonlinear_arith);
        assert(n >= 0 ==> 0 <= e <= n) by (nonlinear_arith)
            requires
                e * d <= n < e * d + d,
                d >= 1,
        ;
        assert(n < 0 ==> n <= e < 0) by (nonlinear_arith)
            requires
                e * d <= n < e * d + d,
                d >= 1,
        ;
    }
    if n >= 0 {
        (n as u128 / d as u128) as i128
    } else {
        let m: u128 = (-n) as u128;
        let e: u128 = m + (d as u128 - 1);
        let t: u128 = e / d as u128;
        proof {
            let r = e as int % d as int;
            lemma_fundamental_div_mod(e as int, d as int);
            assert(d * t == t * d) by (nonlinear_arith);
            assert((-(t as int)) * d == -(t * d)) by (nonlinear_arith);
            lemma_fundamental_div_mod_converse(n as int, d as int, -(t as int), d - 1 - r);
            assert(t <= e) by (nonlinear_arith)
                requires
                    e == d * t + r,
                    r >= 0,
                    d >= 1,
                    t >= 0,
            ;
        }
        -(t as i128)
    }
}

/// The integer nearest to `n / d`, a tie going to the larger one.
pub fn div_round(n: i128, d: i128) -> (q: i128)
    requires
        0 < d <= DIV_LIMIT / 4,
        -DIV_LIMIT / 4 <= n <= DIV_LIMIT / 4,
    ensures
        q == round_div(n as int, d as int),
        2 * (q * d) <= 2 * n + d < 2 * (q * d) + 2 * d,
{
    let q = div_floor(2 * n + d, 2 * d);
    assert(q * (2 * d) == 2 * (q * d)) by (nonlinear_arith);
    q
}

/// `x` brought into `0..n`.
pub fn wrap_index(x: i32, n: i32) -> (r: i32)
    requires
        n > 0,
    ensures
        r == wrap(x as int, n as int),
        0 <= r < n,
{
    if x >= 0 {
        (x as u32 % n as u32) as i32
    } else {
        let m: u32 = (-(x as i64)) as u32;
        let k: u32 = m % n as u32;
        proof {
            lemma_fundamental_div_mod(m as int, n as int);
            let q = m as int / n as int;
            assert(n * q == q * n) by (nonlinear_arith);
            if k == 0 {
                assert((-q) * n == -(q * n)) by (nonlinear_arith);
                lemma_fundamental_div_mod_converse(x as int, n as int, -q, 0);
            } else {
                assert((-q - 1) * n == -(q * n) - n) by (nonlinear_arith);
                lemma_fundamental_div_mod_converse(x as int, n as int, -q - 1, n - k);
            }
        }
        if k == 0 {
            0
        } else {
            n - k as i32
        }
    }
}

/// The integer nearest to the square root of `n`.
pub fn sqrt_round(n: u128) -> (r: u64)
    requires
        n <= 0x4_0000_0000_0000_0000,
    ensures
        is_rounded_sqrt(r as int, n as int),
        r <= 0x2_0000_0000,
{
    // The answer is the largest r with (2r - 1)^2 <= 4n.
    let target: u128 = 4 * n;
    let mut lo: u128 = 0;
    let mut hi: u128 = 0x2_0000_0001;
    assert(0x4_0000_0001int * 0x4_0000_0001int == 0x10_0000_0008_0000_0001int) by (nonlinear_arith);
    while hi - lo > 1
        invariant
            target == 4 * n,
            n <= 0x4_0000_0000_0000_0000,
            0 <= lo < hi <= 0x2_0000_0001,
            lo == 0 || (2 * lo - 1) * (2 * lo - 1) <= target,
            (2 * hi - 1) * (2 * hi - 1) > target,
        decreases hi - lo,
    {
        let mid: u128 = lo + (hi - lo) / 2;
        let side: u128 = 2 * mid - 1;
        assert(side * side <= 0x4_0000_0001 * 0x4_0000_0001) by (nonlinear_arith)
            requires
                0 <= side <= 0x4_0000_0001,
        ;
        if side * side <= target {
            lo = mid;
        } else {
            hi = mid;
        }
    }
    proof {
        assert(hi == lo + 1);
        assert((2 * lo + 1) * (2 * lo + 1) > 4 * n);
    }
    lo as u64
}

/// No number has two rounded square roots.
pub proof fn lemma_rounded_sqrt_unique(r1: int, r2: int, n: int)
    requires
        is_rounded_sqrt(r1, n),
        is_rounded_sqrt(r2, n),
    ensures
        r1 == r2,
{
    if r1 < r2 {
        assert((2 * r2 - 1) * (2 * r2 - 1) >= (2 * r1 + 1) * (2 * r1 + 1)) by (nonlinear_arith)
            requires
                2 * r2 - 1 >= 2 * r1 + 1,
                2 * r1 + 1 > 0,
        ;
    }
    if r2 < r1 {
        assert((2 * r1 - 1) * (2 * r1 - 1) >= (2 * r2 + 1) * (2 * r2 + 1)) by (nonlinear_arith)
            requires
                2 * r1 - 1 >= 2 * r2 + 1,
                2 * r2 + 1 > 0,
        ;
    }
}

/// The point `i` of `n` equal parts of the way from `from` to `to`, rounded
/// to the nearest integer.
pub open spec fn lerp(from: int, to: int, i: int, n: int) -> int {
    from + round_div((to - from) * i, n)
}

/// A quotient rounded to the nearest lies between 0 and the numerator's
/// factor when the other factor is at most the divisor.
proof fn lemma_part_in_range(d: int, i: int, n: int, q: int)
    requires
        0 <= i <= n,
        n >= 1,
        2 * (q * n) <= 2 * (d * i) + n < 2 * (q * n) + 2 * n,
    ensures
        d >= 0 ==> 0 <= q <= d,
        d <= 0 ==> d <= q <= 0,
{
    if d >= 0 {
        assert(0 <= d * i <= d * n) by (nonlinear_arith)
            requires
                d >= 0,
                0 <= i <= n,
        ;
        if q <= -1 {
            assert(q * n <= -n) by (nonlinear_arith)
                requires
                    q <= -1,
                    n >= 1,
            ;
        }
        if q >= d + 1 {
            assert(q * n >= d * n + n) by (nonlinear_arith)
                requires
                    q >= d + 1,
                    n >= 1,
            ;
        }
    }
    if d <= 0 {
        assert(d * n <= d * i <= 0) by (nonlinear_arith)
            requires
                d <= 0,
                0 <= i <= n,
        ;
        if q >= 1 {
            assert(q * n >= n) by (nonlinear_arith)
                requires
                    q >= 1,
                    n >= 1,
            ;
        }
        if q <= d - 1 {
            assert(q * n <= d * n - n) by (nonlinear_arith)
                requires
                    q <= d - 1,
                    n >= 1,
            ;
        }
    }
}

/// The point `i` of `n` equal parts of the way from `from` to `to`.
pub fn lerp_round(from: i32, to: i32, i: u64, n: u64) -> (p: i32)
    requires
        1 <= n <= 0x2_0000_0000,
        i <= n,
    ensures
        p == lerp(from as int, to as int, i as int, n as int),
        from <= to ==> from <= p <= to,
        to <= from ==> to <= p <= from,
{
    let d: i128 = to as i128 - from as i128;
    assert(-0x1_0000_0000 * 0x2_0000_0000 <= d * i <= 0x1_0000_0000 * 0x2_0000_0000)
        by (nonlinear_arith)
        requires
            -0x1_0000_0000 <= d <= 0x1_0000_0000,
            0 <= i <= 0x2_0000_0000,
    ;
    let q = div_round(d * (i as i128), n as i128);
    proof {
        lemma_part_in_range(d as int, i as int, n as int, q as int);
    }
    (from as i128 + q) as i32
}

/// A quotient rounded to the nearest is at most half a divisor away from the
/// true one: `d` times the quotient differs from `n` by no more than `d / 2`.
pub proof fn lemma_round_div_is_near(n: int, d: int)
    requires
        d > 0,
    ensures
        -d <= 2 * (n - round_div(n, d) * d) < d,
{
    let q = round_div(n, d);
    lemma_fundamental_div_mod(2 * n + d, 2 * d);
    vstd::arithmetic::div_mod::lemma_mod_bound(2 * n + d, 2 * d);
    assert((2 * d) * q == 2 * (q * d)) by (nonlinear_arith);
}

} // verus!
