//! Fixed-point arithmetic in micro-units: the value 1.0 is represented by
//! `MICRO` = 1_000_000.  Products are truncated (floored) back into the
//! micro scale; all operations here are proved exact against their spec
//! mirrors, and the monotonicity facts that the lighting tables rely on are
//! proved as lemmas.

use vstd::prelude::*;
use vstd::arithmetic::mul::{lemma_mul_inequality, lemma_mul_upper_bound};
use vstd::arithmetic::div_mod::lemma_div_is_ordered;

verus! {

/// The fixed-point scale: one whole unit.
pub const MICRO: u64 = 1_000_000;

/// Fixed-point product: `(a * b) / MICRO`, truncated.
pub open spec fn mul_fp_spec(a: int, b: int) -> int {
    (a * b) / (MICRO as int)
}

/// Iterated fixed-point product `b^n` (in micro-units), multiplying from the
/// left so that `pow_fp_spec(b, n + 1) == mul_fp_spec(pow_fp_spec(b, n), b)`.
pub open spec fn pow_fp_spec(b: int, n: nat) -> int
    decreases n,
{
    if n == 0 {
        MICRO as int
    } else {
        mul_fp_spec(pow_fp_spec(b, (n - 1) as nat), b)
    }
}

/// Fixed-point product of two micro-unit values.
pub fn mul_fp(a: u64, b: u64) -> (r: u64)
    requires
        a * b <= u64::MAX,
    ensures
        r == mul_fp_spec(a as int, b as int),
{
    (a * b) / MICRO
}

/// The fixed-point product grows with its left argument.
pub proof fn lemma_mul_fp_mono_left(a1: int, a2: int, b: int)
    requires
        0 <= a1 <= a2,
        0 <= b,
    ensures
        mul_fp_spec(a1, b) <= mul_fp_spec(a2, b),
{
    lemma_mul_inequality(a1, a2, b);
    lemma_div_is_ordered(a1 * b, a2 * b, MICRO as int);
}

/// The fixed-point product grows with its right argument.
pub proof fn lemma_mul_fp_mono_right(a: int, b1: int, b2: int)
    requires
        0 <= a,
        0 <= b1 <= b2,
    ensures
        mul_fp_spec(a, b1) <= mul_fp_spec(a, b2),
{
    lemma_mul_inequality(b1, b2, a);
    assert(b1 * a == a * b1) by (nonlinear_arith);
    assert(b2 * a == a * b2) by (nonlinear_arith);
    lemma_div_is_ordered(a * b1, a * b2, MICRO as int);
}

/// Multiplying by a factor of at most one whole unit never amplifies.
pub proof fn lemma_mul_fp_le_left(a: int, b: int)
    requires
        0 <= a,
        0 <= b <= MICRO,
    ensures
        0 <= mul_fp_spec(a, b) <= a,
{
    lemma_mul_upper_bound(a, a, b, MICRO as int);
    lemma_div_is_ordered(0, a * b, MICRO as int);
    lemma_div_is_ordered(a * b, a * (MICRO as int), MICRO as int);
    assert(a * (MICRO as int) / (MICRO as int) == a) by (nonlinear_arith)
        requires 0 <= a;
}

/// Fixed-point powers of a sub-unit base stay within the unit interval.
pub proof fn lemma_pow_fp_bounds(b: int, n: nat)
    requires
        0 <= b <= MICRO,
    ensures
        0 <= pow_fp_spec(b, n) <= MICRO,
    decreases n,
{
    if n > 0 {
        lemma_pow_fp_bounds(b, (n - 1) as nat);
        lemma_mul_fp_le_left(pow_fp_spec(b, (n - 1) as nat), b);
    }
}

/// The fixed-point power grows with its base.
pub proof fn lemma_pow_fp_mono_base(b1: int, b2: int, n: nat)
    requires
        0 <= b1 <= b2 <= MICRO,
    ensures
        pow_fp_spec(b1, n) <= pow_fp_spec(b2, n),
    decreases n,
{
    if n > 0 {
        lemma_pow_fp_mono_base(b1, b2, (n - 1) as nat);
        lemma_pow_fp_bounds(b1, (n - 1) as nat);
        lemma_pow_fp_bounds(b2, (n - 1) as nat);
        lemma_mul_fp_mono_left(pow_fp_spec(b1, (n - 1) as nat), pow_fp_spec(b2, (n - 1) as nat), b1);
        lemma_mul_fp_mono_right(pow_fp_spec(b2, (n - 1) as nat), b1, b2);
    }
}

/// A full unit is a fixed point of every fixed-point power.
pub proof fn lemma_pow_fp_unit(n: nat)
    ensures
        pow_fp_spec(MICRO as int, n) == MICRO,
    decreases n,
{
    if n > 0 {
        lemma_pow_fp_unit((n - 1) as nat);
    }
}

/// A zero base collapses every positive fixed-point power.
pub proof fn lemma_pow_fp_zero(n: nat)
    requires
        n > 0,
    ensures
        pow_fp_spec(0, n) == 0,
    decreases n,
{
    if n > 1 {
        lemma_pow_fp_zero((n - 1) as nat);
    }
}

/// Fixed-point power of a sub-unit base.
pub fn pow_fp(b: u64, n: u64) -> (r: u64)
    requires
        b <= MICRO,
    ensures
        r == pow_fp_spec(b as int, n as nat),
        r <= MICRO,
{
    let mut acc: u64 = MICRO;
    let mut i: u64 = 0;
    while i < n
        invariant
            i <= n,
            b <= MICRO,
            acc <= MICRO,
            acc == pow_fp_spec(b as int, i as nat),
        decreases n - i,
    {
        proof {
            lemma_mul_fp_le_left(acc as int, b as int);
        }
        acc = mul_fp(acc, b);
        i += 1;
    }
    acc
}

/// Signed division with the magnitude truncated toward zero, mirroring what
/// the hardware division of the executable code does.
pub open spec fn sdiv_spec(a: int, b: int) -> int {
    if a >= 0 {
        a / b
    } else {
        -((-a) / b)
    }
}

/// Signed truncating division.
pub fn sdiv(a: i64, b: i64) -> (r: i64)
    requires
        b > 0,
        a > i64::MIN,
    ensures
        r == sdiv_spec(a as int, b as int),
{
    if a >= 0 {
        a / b
    } else {
        -((-a) / b)
    }
}

/// Signed fixed-point product of a non-negative magnitude and a signed
/// micro-unit factor, truncated toward zero.
pub open spec fn smul_fp_spec(m: int, s: int) -> int {
    if s >= 0 {
        (m * s) / (MICRO as int)
    } else {
        -((m * (-s)) / (MICRO as int))
    }
}

/// Signed fixed-point product.
pub fn smul_fp(m: u64, s: i64) -> (r: i64)
    requires
        m <= 4_000_000,
        -1_000_000 <= s <= 1_000_000,
    ensures
        r == smul_fp_spec(m as int, s as int),
        -4_000_000 <= r <= 4_000_000,
{
    proof {
        lemma_mul_upper_bound(m as int, 4_000_000, if s >= 0 { s as int } else { -(s as int) }, MICRO as int);
        if s >= 0 {
            lemma_mul_fp_le_left(m as int, s as int);
        } else {
            lemma_mul_fp_le_left(m as int, -(s as int));
        }
    }
    if s >= 0 {
        ((m * (s as u64)) / MICRO) as i64
    } else {
        -(((m * ((-s) as u64)) / MICRO) as i64)
    }
}

/// What it is to be the integer square root of `n`.
pub open spec fn is_isqrt(r: int, n: int) -> bool {
    0 <= r && r * r <= n && n < (r + 1) * (r + 1)
}

/// The integer square root of a non-negative value.
pub open spec fn isqrt_spec(n: int) -> int {
    choose|r: int| is_isqrt(r, n)
}

/// Integer square roots are unique, so any witness is the chosen one.
pub proof fn lemma_isqrt_unique(r: int, n: int)
    requires
        is_isqrt(r, n),
    ensures
        r == isqrt_spec(n),
{
    assert(is_isqrt(isqrt_spec(n), n)) by {
        assert(exists|q: int| is_isqrt(q, n));
    }
    let c = isqrt_spec(n);
    assert(r == c) by (nonlinear_arith)
        requires is_isqrt(r, n) && is_isqrt(c, n);
}

/// Integer square root, exact: the greatest `r` with `r * r <= n`.
pub fn isqrt(n: u64) -> (r: u64)
    ensures
        r * r <= n,
        n < (r + 1) * (r + 1),
        r == isqrt_spec(n as int),
{
    let mut lo: u64 = 0;
    let mut hi: u64 = 0x1_0000_0000;
    proof {
        assert((0x1_0000_0000u64 as int) * (0x1_0000_0000u64 as int) > n) by (nonlinear_arith)
            requires n <= u64::MAX;
    }
    while lo + 1 < hi
        invariant
            lo < hi <= 0x1_0000_0000,
            lo * lo <= n,
            n < (hi as int) * (hi as int),
        decreases hi - lo,
    {
        let mid: u64 = lo + (hi - lo) / 2;
        assert(mid * mid <= u64::MAX) by (nonlinear_arith)
            requires mid < 0x1_0000_0000;
        if mid * mid <= n {
            lo = mid;
        } else {
            hi = mid;
        }
    }
    proof {
        lemma_isqrt_unique(lo as int, n as int);
    }
    lo
}

} // verus!
