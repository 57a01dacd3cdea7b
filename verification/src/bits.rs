//! Power-of-two arithmetic used by the untyped carver and the page-table
//! code: the largest power of two dividing an address, the floor of the
//! base-two logarithm, and executable counterparts proved against them.
use vstd::arithmetic::div_mod::*;
use vstd::arithmetic::power2::*;
use vstd::prelude::*;

verus! {

/// Largest exponent `k` such that `pow2(k)` divides `x`, for `x > 0`
/// (the count of low zero bits).  Meaningless for `x == 0`.
pub open spec fn align_bits(x: u64) -> nat
    decreases x,
{
    if x == 0 || x % 2 == 1 {
        0
    } else {
        align_bits(x / 2) + 1
    }
}

/// Floor of the base-two logarithm of `x`, for `x > 0`.
pub open spec fn floor_log2(x: u64) -> nat
    decreases x,
{
    if x <= 1 {
        0
    } else {
        floor_log2(x / 2) + 1
    }
}

/// `align_bits(x)` is the exact alignment of `x`: `pow2(align_bits(x))`
/// divides `x`, the quotient is odd, and the power is at most `x`.
pub proof fn lemma_align_bits(x: u64)
    requires
        x > 0,
    ensures
        x as int % pow2(align_bits(x)) as int == 0,
        (x as int / pow2(align_bits(x)) as int) % 2 == 1,
        pow2(align_bits(x)) <= x,
        align_bits(x) <= 63,
    decreases x,
{
    lemma_pow2_pos(align_bits(x));
    if x % 2 == 1 {
        lemma2_to64();
    } else {
        let h = (x / 2) as int;
        let a = align_bits((x / 2) as u64);
        let p = pow2(a) as int;
        lemma_align_bits((x / 2) as u64);
        lemma_pow2_unfold(a + 1);
        lemma_pow2_pos(a);
        assert(h % p == 0);
        lemma_fundamental_div_mod(h, p);
        let q = h / p;
        assert(h == p * q);
        assert(x == 2 * h);
        assert(x == (2 * p) * q) by (nonlinear_arith)
            requires
                h == p * q,
                x == 2 * h,
        ;
        lemma_mod_multiples_basic(q, 2 * p);
        lemma_div_multiples_vanish(q, 2 * p);
        assert(x as int % (2 * p) == 0);
        assert(x as int / (2 * p) == q);
        assert(q % 2 == 1);
        assert(2 * p <= 2 * h);
        if align_bits(x) > 63 {
            lemma_pow2_strictly_increases(63, align_bits(x));
            lemma2_to64_rest();
            assert(false);
        }
    }
}

/// Any exponent at most `align_bits(x)` still yields a divisor of `x`.
pub proof fn lemma_align_bits_divides(x: u64, k: nat)
    requires
        x > 0,
        k <= align_bits(x),
    ensures
        x as int % pow2(k) as int == 0,
{
    let a = align_bits(x);
    lemma_align_bits(x);
    lemma_pow2_adds(k, (a - k) as nat);
    lemma_pow2_pos(k);
    lemma_pow2_pos((a - k) as nat);
    lemma_pow2_pos(a);
    let p = pow2(k) as int;
    let d = pow2((a - k) as nat) as int;
    lemma_fundamental_div_mod(x as int, (p * d) as int);
    let q = x as int / (p * d);
    assert(x as int == (p * d) * q);
    assert(x as int == p * (d * q)) by (nonlinear_arith)
        requires
            x as int == (p * d) * q,
    ;
    lemma_mod_multiples_basic(d * q, p);
}

/// `x` is not divisible by the next power of two beyond its alignment.
pub proof fn lemma_align_bits_exact(x: u64)
    requires
        x > 0,
    ensures
        x as int % pow2(align_bits(x) + 1) as int != 0,
{
    let a = align_bits(x);
    let p = pow2(a) as int;
    lemma_align_bits(x);
    lemma_pow2_unfold(a + 1);
    lemma_pow2_pos(a);
    if x as int % (2 * p) == 0 {
        lemma_fundamental_div_mod(x as int, 2 * p);
        let q = x as int / (2 * p);
        assert(x as int == (2 * p) * q);
        assert(x as int == p * (2 * q)) by (nonlinear_arith)
            requires
                x as int == (2 * p) * q,
        ;
        lemma_div_multiples_vanish(2 * q, p);
        assert(x as int / p == 2 * q);
        assert((2 * q) % 2 == 0) by (nonlinear_arith);
        assert(false);
    }
}

/// The alignment of `x` is the unique `k` with `pow2(k)` dividing `x`
/// and an odd quotient.
pub proof fn lemma_align_bits_unique(y: u64, k: nat)
    requires
        y > 0,
        y as int % pow2(k) as int == 0,
        (y as int / pow2(k) as int) % 2 == 1,
    ensures
        align_bits(y) == k,
    decreases y,
{
    lemma_pow2_pos(k);
    lemma_fundamental_div_mod(y as int, pow2(k) as int);
    let q = y as int / pow2(k) as int;
    assert(y as int == pow2(k) as int * q);
    if y % 2 == 1 {
        if k >= 1 {
            lemma_pow2_unfold(k);
            let h = pow2((k - 1) as nat) as int;
            assert(y as int == 2 * (h * q)) by (nonlinear_arith)
                requires
                    y as int == pow2(k) as int * q,
                    pow2(k) as int == 2 * h,
            ;
            lemma_mod_multiples_basic(h * q, 2);
            assert(false);
        }
        assert(k == 0);
    } else {
        assert(k >= 1) by {
            if k == 0 {
                lemma2_to64();
                assert(q == y as int);
            }
        }
        lemma_pow2_unfold(k);
        let h = pow2((k - 1) as nat) as int;
        lemma_pow2_pos((k - 1) as nat);
        assert(y as int == 2 * (h * q)) by (nonlinear_arith)
            requires
                y as int == pow2(k) as int * q,
                pow2(k) as int == 2 * h,
        ;
        assert((y / 2) as int == h * q) by (nonlinear_arith)
            requires
                y as int == 2 * (h * q),
                y % 2 == 0,
        ;
        lemma_mod_multiples_basic(q, h);
        lemma_div_multiples_vanish(q, h);
        assert(h * q == q * h) by (nonlinear_arith);
        assert((y / 2) as int % h == 0);
        assert((y / 2) as int / h == q);
        lemma_align_bits_unique((y / 2) as u64, (k - 1) as nat);
    }
}

/// Adding `pow2(k)` to a multiple of `pow2(k + 1)` yields a value whose
/// alignment is exactly `k`.
pub proof fn lemma_align_bits_of_sum(x: u64, k: nat)
    requires
        x as int % pow2(k + 1) as int == 0,
        x + pow2(k) <= u64::MAX,
    ensures
        align_bits((x + pow2(k)) as u64) == k,
{
    lemma_pow2_pos(k);
    lemma_pow2_unfold(k + 1);
    let p = pow2(k) as int;
    lemma_fundamental_div_mod(x as int, 2 * p);
    let q = x as int / (2 * p);
    assert(x as int == (2 * p) * q);
    let y = (x + pow2(k)) as u64;
    assert(y as int == p * (2 * q + 1)) by (nonlinear_arith)
        requires
            x as int == (2 * p) * q,
            y as int == x as int + p,
    ;
    lemma_mod_multiples_basic(2 * q + 1, p);
    lemma_div_multiples_vanish(2 * q + 1, p);
    assert(y as int % p == 0);
    assert(y as int / p == 2 * q + 1);
    assert((2 * q + 1) % 2 == 1) by (nonlinear_arith);
    lemma_align_bits_unique(y, k);
}

/// `floor_log2(x)` brackets `x` between two consecutive powers of two.
pub proof fn lemma_floor_log2(x: u64)
    requires
        x > 0,
    ensures
        pow2(floor_log2(x)) <= x,
        x < pow2(floor_log2(x) + 1),
        floor_log2(x) <= 63,
    decreases x,
{
    if x <= 1 {
        lemma2_to64();
    } else {
        let f = floor_log2((x / 2) as u64);
        lemma_floor_log2((x / 2) as u64);
        lemma_pow2_unfold(f + 1);
        lemma_pow2_unfold(f + 2);
        if floor_log2(x) > 63 {
            lemma_pow2_strictly_increases(63, floor_log2(x));
            lemma2_to64_rest();
            assert(false);
        }
    }
}

/// Computes `pow2(e)` for `e <= 63`.
pub fn pow2_u64(e: u64) -> (r: u64)
    requires
        e <= 63,
    ensures
        r as nat == pow2(e as nat),
{
    let mut i: u64 = 0;
    let mut p: u64 = 1;
    proof {
        lemma2_to64();
    }
    while i < e
        invariant
            i <= e <= 63,
            p as nat == pow2(i as nat),
        decreases e - i,
    {
        proof {
            lemma_pow2_unfold(i as nat + 1);
            if i as nat + 1 < 63 {
                lemma_pow2_strictly_increases(i as nat + 1, 63);
            }
            lemma2_to64_rest();
        }
        p = p * 2;
        i = i + 1;
    }
    p
}

/// Computes the smallest power of two that is at least `x` (one, for
/// `x` of zero or one), as the platform needs it to round the kernel
/// image's end up to `kernel_top`.
pub fn next_power_of_two_u64(x: u64) -> (r: u64)
    requires
        x <= 0x8000_0000_0000_0000,
    ensures
        x <= 1 ==> r == 1,
        x >= 2 ==> r as nat == pow2((floor_log2((x - 1) as u64) + 1) as nat),
        x <= r,
        x >= 1 ==> r < 2 * x,
{
    if x <= 1 {
        proof {
            lemma2_to64();
        }
        1
    } else {
        let f = floor_log2_u64(x - 1);
        proof {
            lemma_floor_log2((x - 1) as u64);
            lemma2_to64_rest();
            if floor_log2((x - 1) as u64) == 63 {
                assert(pow2(63) <= x - 1);
                assert(false);
            }
            lemma_pow2_unfold(floor_log2((x - 1) as u64) + 1);
        }
        pow2_u64(f + 1)
    }
}

/// Computes `align_bits(x)`: the number of low zero bits of `x`.
pub fn align_bits_u64(x: u64) -> (r: u64)
    requires
        x > 0,
    ensures
        r as nat == align_bits(x),
        r <= 63,
{
    proof {
        lemma_align_bits(x);
    }
    let mut v: u64 = x;
    let mut c: u64 = 0;
    while v % 2 == 0
        invariant
            v > 0,
            align_bits(x) == c as nat + align_bits(v),
            align_bits(x) <= 63,
        decreases v,
    {
        v = v / 2;
        c = c + 1;
    }
    c
}

/// Computes `floor_log2(x)`.
pub fn floor_log2_u64(x: u64) -> (r: u64)
    requires
        x > 0,
    ensures
        r as nat == floor_log2(x),
        r <= 63,
{
    proof {
        lemma_floor_log2(x);
    }
    let mut v: u64 = x;
    let mut c: u64 = 0;
    while v > 1
        invariant
            v > 0,
            floor_log2(x) == c as nat + floor_log2(v),
            floor_log2(x) <= 63,
        decreases v,
    {
        v = v / 2;
        c = c + 1;
    }
    c
}

} // verus!
