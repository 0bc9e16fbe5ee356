//! Exact integer arithmetic for the statistical estimators.
//!
//! The bin-width strategies are specified through real-valued formulas
//! (square roots, cube roots, base-2 logarithms). Over integer samples all
//! of them reduce to exact integer computations, which this module provides
//! together with the spec-level definitions the contracts are stated over.
use vstd::prelude::*;
use vstd::arithmetic::power2::{
    pow2, lemma2_to64, lemma2_to64_rest, lemma_pow2_adds, lemma_pow2_strictly_increases,
    lemma_pow2_unfold,
};

verus! {

/// Truncating (round-toward-zero) integer division, the behaviour of `/` on
/// the machine integer types.
pub open spec fn trunc_div(a: int, b: int) -> int
    recommends
        b > 0,
{
    if a >= 0 {
        a / b
    } else {
        -((-a) / b)
    }
}

/// Squaring is monotone on the non-negative integers.
pub proof fn lemma_sq_mono(a: int, b: int)
    by (nonlinear_arith)
    requires
        0 <= a <= b,
    ensures
        a * a <= b * b,
{
}

/// Squaring is strictly monotone on the non-negative integers.
pub proof fn lemma_sq_strict(a: int, b: int)
    by (nonlinear_arith)
    requires
        0 <= a < b,
    ensures
        a * a < b * b,
{
}

/// Cubing is monotone on the non-negative integers.
pub proof fn lemma_cube_mono(a: int, b: int)
    by (nonlinear_arith)
    requires
        0 <= a <= b,
    ensures
        a * a * a <= b * b * b,
{
}

/// Cubing is strictly monotone on the non-negative integers.
pub proof fn lemma_cube_strict(a: int, b: int)
    by (nonlinear_arith)
    requires
        0 <= a < b,
    ensures
        a * a * a < b * b * b,
{
}

/// `floor(sqrt(n))`.
pub open spec fn floor_sqrt(n: nat) -> nat
    decreases n,
{
    if n == 0 {
        0
    } else {
        let r = floor_sqrt((n - 1) as nat);
        if (r + 1) * (r + 1) <= n {
            (r + 1) as nat
        } else {
            r
        }
    }
}

/// `floor_sqrt` is the integer square root: its square is at most `n` and
/// the next square is beyond `n`.
pub proof fn lemma_floor_sqrt(n: nat)
    ensures
        floor_sqrt(n) * floor_sqrt(n) <= n,
        n < (floor_sqrt(n) + 1) * (floor_sqrt(n) + 1),
    decreases n,
{
    let s = floor_sqrt(n);
    if n == 0 {
        assert(s == 0);
        assert(s * s <= n && n < (s + 1) * (s + 1)) by (nonlinear_arith)
            requires
                s == 0,
                n == 0;
    } else {
        lemma_floor_sqrt((n - 1) as nat);
        let r = floor_sqrt((n - 1) as nat);
        if (r + 1) * (r + 1) <= n {
            assert(s == r + 1);
            assert(s * s <= n && n < (s + 1) * (s + 1)) by (nonlinear_arith)
                requires
                    s == r + 1,
                    (r + 1) * (r + 1) <= n,
                    n - 1 < (r + 1) * (r + 1);
        } else {
            assert(s == r);
            assert(s * s <= n && n < (s + 1) * (s + 1)) by (nonlinear_arith)
                requires
                    s == r,
                    r * r <= n - 1,
                    n >= 1,
                    n < (r + 1) * (r + 1);
        }
    }
}

/// The integer square root is the unique `r` with `r^2 <= n < (r+1)^2`.
pub proof fn lemma_sqrt_unique(n: nat, r: nat)
    requires
        r * r <= n,
        n < (r + 1) * (r + 1),
    ensures
        r == floor_sqrt(n),
{
    let f = floor_sqrt(n);
    lemma_floor_sqrt(n);
    if r < f {
        lemma_sq_mono(r + 1 as int, f as int);
    }
    if f < r {
        lemma_sq_mono(f + 1 as int, r as int);
    }
}

/// `floor(cbrt(n))`.
pub open spec fn floor_cbrt(n: nat) -> nat
    decreases n,
{
    if n == 0 {
        0
    } else {
        let r = floor_cbrt((n - 1) as nat);
        if (r + 1) * (r + 1) * (r + 1) <= n {
            (r + 1) as nat
        } else {
            r
        }
    }
}

/// `floor_cbrt` is the integer cube root: its cube is at most `n` and the
/// next cube is beyond `n`.
pub proof fn lemma_floor_cbrt(n: nat)
    ensures
        floor_cbrt(n) * floor_cbrt(n) * floor_cbrt(n) <= n,
        n < (floor_cbrt(n) + 1) * (floor_cbrt(n) + 1) * (floor_cbrt(n) + 1),
    decreases n,
{
    let s = floor_cbrt(n);
    if n == 0 {
        assert(s == 0);
        assert(s * s * s <= n && n < (s + 1) * (s + 1) * (s + 1)) by (nonlinear_arith)
            requires
                s == 0,
                n == 0;
    } else {
        lemma_floor_cbrt((n - 1) as nat);
        let r = floor_cbrt((n - 1) as nat);
        if (r + 1) * (r + 1) * (r + 1) <= n {
            assert(s == r + 1);
            assert(s * s * s <= n && n < (s + 1) * (s + 1) * (s + 1)) by (nonlinear_arith)
                requires
                    s == r + 1,
                    (r + 1) * (r + 1) * (r + 1) <= n,
                    n - 1 < (r + 1) * (r + 1) * (r + 1);
        } else {
            assert(s == r);
            assert(s * s * s <= n && n < (s + 1) * (s + 1) * (s + 1)) by (nonlinear_arith)
                requires
                    s == r,
                    r * r * r <= n - 1,
                    n >= 1,
                    n < (r + 1) * (r + 1) * (r + 1);
        }
    }
}

/// The integer cube root is the unique `r` with `r^3 <= n < (r+1)^3`.
pub proof fn lemma_cbrt_unique(n: nat, r: nat)
    requires
        r * r * r <= n,
        n < (r + 1) * (r + 1) * (r + 1),
    ensures
        r == floor_cbrt(n),
{
    let f = floor_cbrt(n);
    lemma_floor_cbrt(n);
    if r < f {
        lemma_cube_mono(r + 1 as int, f as int);
    }
    if f < r {
        lemma_cube_mono(f + 1 as int, r as int);
    }
}

/// `floor(log2(n))` for `n >= 1`, and `0` for `n == 0`.
pub open spec fn floor_log2(n: nat) -> nat
    decreases n,
{
    if n < 2 {
        0
    } else {
        1 + floor_log2(n / 2)
    }
}

/// `floor_log2` brackets `n` between consecutive powers of two.
pub proof fn lemma_floor_log2(n: nat)
    requires
        n >= 1,
    ensures
        pow2(floor_log2(n)) <= n,
        n < pow2(floor_log2(n) + 1),
    decreases n,
{
    if n < 2 {
        lemma2_to64();
    } else {
        lemma_floor_log2(n / 2);
        let b = floor_log2(n / 2);
        lemma_pow2_unfold(b + 1);
        lemma_pow2_unfold(b + 2);
    }
}

/// Anything below `2^k` has its base-2 logarithm below `k`.
pub proof fn lemma_floor_log2_below(n: nat, k: nat)
    requires
        1 <= n,
        n < pow2(k),
    ensures
        floor_log2(n) < k,
{
    lemma_floor_log2(n);
    if floor_log2(n) >= k {
        if floor_log2(n) > k {
            lemma_pow2_strictly_increases(k, floor_log2(n));
        }
    }
}

/// Powers of two, as an executable function over small exponents.
pub fn pow2_u128(e: u32) -> (r: u128)
    requires
        e <= 127,
    ensures
        r as nat == pow2(e as nat),
{
    proof {
        lemma2_to64();
        lemma_pow2_adds(64, 64);
    }
    let mut r: u128 = 1;
    let mut i: u32 = 0;
    while i < e
        invariant
            i <= e,
            e <= 127,
            r as nat == pow2(i as nat),
            pow2(128) == 0x1_0000_0000_0000_0000_0000_0000_0000_0000nat,
        decreases e - i,
    {
        proof {
            lemma_pow2_adds(i as nat, 1);
            lemma2_to64();
            lemma_pow2_strictly_increases(i as nat + 1, 128);
        }
        r = r * 2;
        i = i + 1;
    }
    r
}

/// The integer square root, by bisection.
pub fn isqrt_u128(x: u128) -> (r: u128)
    ensures
        r as nat == floor_sqrt(x as nat),
{
    let mut lo: u128 = 0;
    let mut hi: u128 = 0x1_0000_0000_0000_0000;
    assert((hi as int) * (hi as int) == 0x1_0000_0000_0000_0000_0000_0000_0000_0000int);
    while lo + 1 < hi
        invariant
            lo < hi,
            hi <= 0x1_0000_0000_0000_0000u128,
            (lo as int) * (lo as int) <= x as int,
            (x as int) < (hi as int) * (hi as int),
        decreases hi - lo,
    {
        let mid = lo + (hi - lo) / 2;
        assert(lo < mid < hi);
        proof {
            lemma_sq_strict(mid as int, 0x1_0000_0000_0000_0000int);
        }
        if mid * mid <= x {
            lo = mid;
        } else {
            hi = mid;
        }
    }
    proof {
        lemma_sqrt_unique(x as nat, lo as nat);
    }
    lo
}

/// The integer cube root, by bisection; callers stay far below `2^96`.
pub fn icbrt_u128(x: u128) -> (r: u128)
    requires
        x < 0x1_0000_0000_0000_0000_0000_0000u128,
    ensures
        r as nat == floor_cbrt(x as nat),
{
    let mut lo: u128 = 0;
    let mut hi: u128 = 0x1_0000_0000;
    assert((hi as int) * (hi as int) * (hi as int) == 0x1_0000_0000_0000_0000_0000_0000int);
    while lo + 1 < hi
        invariant
            lo < hi,
            hi <= 0x1_0000_0000u128,
            (lo as int) * (lo as int) * (lo as int) <= x as int,
            (x as int) < (hi as int) * (hi as int) * (hi as int),
        decreases hi - lo,
    {
        let mid = lo + (hi - lo) / 2;
        assert(lo < mid < hi);
        proof {
            lemma_sq_strict(mid as int, 0x1_0000_0000int);
            lemma_cube_strict(mid as int, 0x1_0000_0000int);
        }
        if mid * mid * mid <= x {
            lo = mid;
        } else {
            hi = mid;
        }
    }
    proof {
        lemma_cbrt_unique(x as nat, lo as nat);
    }
    lo
}

/// `floor(log2(n))`, by repeated halving.
pub fn floor_log2_u64(n: u64) -> (r: u32)
    requires
        n >= 1,
    ensures
        r as nat == floor_log2(n as nat),
        r <= 63,
    decreases n,
{
    if n < 2 {
        0
    } else {
        let inner = floor_log2_u64(n / 2);
        proof {
            lemma2_to64();
            lemma2_to64_rest();
            lemma_floor_log2_below(n as nat / 2, 63);
        }
        1 + inner
    }
}

/// `round(sqrt(n))`, the square-root bin-count estimator, with ties rounded
/// up.
pub open spec fn round_sqrt(n: nat) -> nat {
    (floor_sqrt(4 * n) + 1) / 2
}

/// `round(2 * cbrt(n))`, the Rice bin-count estimator, with ties rounded up.
pub open spec fn round_2cbrt(n: nat) -> nat {
    (floor_cbrt(64 * n) + 1) / 2
}

/// `round(log2(n))` with ties rounded up.
pub open spec fn round_log2(n: nat) -> nat {
    let b = floor_log2(n);
    if n * n < 2 * pow2(2 * b) {
        b
    } else {
        b + 1
    }
}

/// `1 + round(log2(n))`, the Sturges bin-count estimator.
pub open spec fn sturges_count(n: nat) -> nat {
    1 + round_log2(n)
}

/// `round_sqrt(n)` is the integer nearest to `sqrt(n)`: its distance to the
/// true square root is at most one half, ties rounded up, which the squared
/// inequalities `(2c - 1)^2 <= 4n < (2c + 1)^2` state exactly.
pub proof fn lemma_round_sqrt_is_nearest(n: nat)
    requires
        n >= 1,
    ensures
        (2 * round_sqrt(n) - 1) * (2 * round_sqrt(n) - 1) <= 4 * n,
        4 * n < (2 * round_sqrt(n) + 1) * (2 * round_sqrt(n) + 1),
        1 <= round_sqrt(n) <= n,
{
    let s = floor_sqrt(4 * n);
    let c = round_sqrt(n);
    lemma_floor_sqrt(4 * n);
    assert(c == (s + 1) / 2);
    if s % 2 == 0 {
        let m = s / 2;
        assert(s == 2 * m);
        assert(c == m);
        assert(s >= 2) by {
            if s < 2 {
                assert(s * s <= 1) by (nonlinear_arith)
                    requires
                        0 <= s < 2;
                assert(4 * n < (s + 1) * (s + 1));
                assert((s + 1) * (s + 1) <= 4) by (nonlinear_arith)
                    requires
                        0 <= s < 2;
            }
        }
        lemma_sq_mono(2 * c - 1, s as int);
    } else {
        let m = (s - 1) / 2;
        assert(s == 2 * m + 1);
        assert(c == m + 1);
        lemma_sq_mono(s as int + 1, 2 * (c as int) + 1);
    }
    assert(c >= 1) by {
        if c == 0 {
            assert(4 * n < 1);
        }
    }
    assert(c <= n) by {
        if c > n {
            lemma_sq_mono(2 * (n as int) + 1, 2 * c - 1);
            assert(4 * n < (2 * n + 1) * (2 * n + 1)) by (nonlinear_arith);
        }
    }
}

/// `round_2cbrt(n)` is the integer nearest to `2 * cbrt(n)`, ties rounded
/// up: `(2c - 1)^3 <= 64n < (2c + 1)^3`.
pub proof fn lemma_round_2cbrt_is_nearest(n: nat)
    requires
        n >= 1,
    ensures
        (2 * round_2cbrt(n) - 1) * (2 * round_2cbrt(n) - 1) * (2 * round_2cbrt(n) - 1) <= 64 * n,
        64 * n < (2 * round_2cbrt(n) + 1) * (2 * round_2cbrt(n) + 1) * (2 * round_2cbrt(n) + 1),
        1 <= round_2cbrt(n),
{
    let s = floor_cbrt(64 * n);
    let c = round_2cbrt(n);
    lemma_floor_cbrt(64 * n);
    assert(c == (s + 1) / 2);
    if s % 2 == 0 {
        let m = s / 2;
        assert(s == 2 * m);
        assert(c == m);
        assert(s >= 2) by {
            if s < 2 {
                assert(s * s * s <= 1) by (nonlinear_arith)
                    requires
                        0 <= s < 2;
                assert((s + 1) * (s + 1) * (s + 1) <= 27) by (nonlinear_arith)
                    requires
                        0 <= s < 2;
            }
        }
        lemma_cube_mono(2 * c - 1, s as int);
    } else {
        let m = (s - 1) / 2;
        assert(s == 2 * m + 1);
        assert(c == m + 1);
        lemma_cube_mono(s as int + 1, 2 * (c as int) + 1);
    }
    assert(c >= 1) by {
        if c == 0 {
            assert(64 * n < 1);
        }
    }
}

/// `round_log2(n)` is the integer nearest to `log2(n)`, ties rounded up:
/// `2^(2k) <= 2 * n^2` and `n^2 < 2 * 2^(2k)`.
pub proof fn lemma_round_log2_is_nearest(n: nat)
    requires
        n >= 1,
    ensures
        pow2(2 * round_log2(n)) <= 2 * (n * n),
        n * n < 2 * pow2(2 * round_log2(n)),
        round_log2(n) <= n,
{
    let b = floor_log2(n);
    let k = round_log2(n);
    lemma_floor_log2(n);
    lemma_pow2_adds(b, b);
    lemma_pow2_adds(b + 1, b + 1);
    lemma_pow2_unfold(2 * b + 1);
    lemma_pow2_unfold(2 * b + 2);
    if n * n < 2 * pow2(2 * b) {
        assert(k == b);
        lemma_sq_mono(pow2(b) as int, n as int);
        assert(pow2(2 * b) == pow2(b) * pow2(b));
    } else {
        assert(k == b + 1);
        lemma_sq_strict(n as int, pow2(b + 1) as int);
        assert(pow2(2 * b + 2) == pow2(b + 1) * pow2(b + 1));
        assert(pow2(2 * b + 2) == 2 * (2 * pow2(2 * b)));
    }
    assert(k <= n) by {
        lemma_floor_log2_le(n);
    }
}

/// `floor_log2(n) + 1 <= n` is crude but enough to bound `round_log2`.
proof fn lemma_floor_log2_le(n: nat)
    requires
        n >= 1,
    ensures
        floor_log2(n) + 1 <= n || n == 1,
    decreases n,
{
    if n >= 2 {
        lemma_floor_log2_le(n / 2);
    }
}

/// The square-root bin-count candidate, `round(sqrt(n))`.
pub fn sqrt_candidate(n: usize) -> (c: usize)
    ensures
        c as nat == round_sqrt(n as nat),
{
    let x: u128 = 4 * (n as u128);
    let s = isqrt_u128(x);
    proof {
        if n >= 1 {
            lemma_round_sqrt_is_nearest(n as nat);
            lemma_floor_sqrt(x as nat);
        }
    }
    ((s + 1) / 2) as usize
}

/// The Rice bin-count candidate, `round(2 * cbrt(n))`.
pub fn rice_candidate(n: usize) -> (c: usize)
    ensures
        c as nat == round_2cbrt(n as nat),
{
    let x: u128 = 64 * (n as u128);
    let s = icbrt_u128(x);
    proof {
        lemma_floor_cbrt(x as nat);
        if floor_cbrt(x as nat) >= 0x1_0000_0000 {
            lemma_cube_mono(0x1_0000_0000int, floor_cbrt(x as nat) as int);
        }
    }
    ((s + 1) / 2) as usize
}

/// The Sturges bin-count candidate, `1 + round(log2(n))`.
pub fn sturges_candidate(n: usize) -> (c: usize)
    requires
        n >= 1,
    ensures
        c as nat == sturges_count(n as nat),
{
    let n64: u64 = n as u64;
    let b = floor_log2_u64(n64);
    proof {
        lemma_sq_strict(n as int, 0x1_0000_0000_0000_0000int);
    }
    let nsq: u128 = (n as u128) * (n as u128);
    proof {
        lemma2_to64();
        lemma2_to64_rest();
        lemma_pow2_adds(64, 63);
        if 2 * b < 127 {
            lemma_pow2_strictly_increases(2 * (b as nat), 127);
        }
        lemma_floor_log2(n as nat);
    }
    let threshold: u128 = 2 * pow2_u128(2 * b);
    let k: u32 = if nsq < threshold {
        b
    } else {
        b + 1
    };
    (k as usize) + 1
}

/// Multiplication by a non-negative factor preserves order.
pub proof fn lemma_mul_le(a: int, b: int, c: int)
    by (nonlinear_arith)
    requires
        a <= b,
        0 <= c,
    ensures
        a * c <= b * c,
{
}

/// `a <= d * b` with positive `d` bounds the quotient: `a / d <= b`.
pub proof fn lemma_div_le(a: int, b: int, d: int)
    requires
        0 <= a,
        0 < d,
        a <= d * b,
    ensures
        a / d <= b,
{
    vstd::arithmetic::div_mod::lemma_div_is_ordered(a, d * b, d);
    vstd::arithmetic::div_mod::lemma_div_multiples_vanish(b, d);
}

/// `d * b <= a` with positive `d` bounds the quotient: `b <= a / d`.
pub proof fn lemma_div_ge(a: int, b: int, d: int)
    requires
        0 < d,
        d * b <= a,
    ensures
        b <= a / d,
{
    vstd::arithmetic::div_mod::lemma_div_is_ordered(d * b, a, d);
    vstd::arithmetic::div_mod::lemma_div_multiples_vanish(b, d);
}

} // verus!
