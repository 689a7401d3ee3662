//! Arithmetic on clock frequencies as a binary64 unit does it, in integers.
//!
//! A frequency is counted in units of 2^-60 MHz, and a result that does not fit
//! 53 significant bits is rounded to the nearest value that does, a tie going
//! to the even one. Every frequency that a search can meet lies between half a
//! megahertz and 2^38 MHz, where binary64 has no special cases, so the integers
//! here and the floating-point values there are the same numbers.

use vstd::arithmetic::power2::{lemma2_to64, lemma_pow2_pos, lemma_pow2_unfold, pow2};
use vstd::prelude::*;

verus! {

/// One megahertz, in units of 2^-60 MHz.
pub const ONE: u128 = 0x1000_0000_0000_0000;

/// 2^53: the first integer that needs more than 53 significant bits.
pub const PRECISION: u128 = 0x20_0000_0000_0000;

/// The weight of the last of 53 significant bits of `p / q`: the least power
/// of two, one at least, of which the quotient holds fewer than 2^53.
pub open spec fn ulp(p: nat, q: nat) -> nat
    decreases p - q,
{
    if q == 0 || p < q * PRECISION {
        1
    } else {
        2 * ulp(p, 2 * q)
    }
}

/// `p / d` rounded to an integer, a tie going to the even one.
pub open spec fn nearest(p: nat, d: nat) -> nat {
    let n = p / d;
    let twice = 2 * (p % d);
    if twice < d || (twice == d && n % 2 == 0) {
        n
    } else {
        n + 1
    }
}

/// `p / q` rounded to 53 significant bits.
pub open spec fn rounded(p: nat, q: nat) -> nat {
    nearest(p, q * ulp(p, q)) * ulp(p, q)
}

/// Does `v` fit 53 significant bits?
pub open spec fn exact(v: nat) -> bool {
    v % ulp(v, 1) == 0
}

/// The frequency, in units of 2^-60 MHz, that the binary64 value with this
/// encoding stands for in MHz, if it lies between half a megahertz and
/// 2^38 MHz.
pub open spec fn units(bits: u64) -> Option<nat> {
    let exponent = bits as nat / 0x10_0000_0000_0000;
    if 1022 <= exponent <= 1060 {
        Some((0x10_0000_0000_0000 + bits as nat % 0x10_0000_0000_0000) * pow2(
            (exponent - 1015) as nat,
        ))
    } else {
        None
    }
}

/// The last bit's weight is a power of two, the quotient holds fewer than 2^53
/// of it, and at least 2^52 if it holds that many ones at all.
pub proof fn lemma_ulp(p: nat, q: nat) -> (s: nat)
    requires
        q > 0,
    ensures
        ulp(p, q) == pow2(s),
        ulp(p, q) > 0,
        p < q * ulp(p, q) * PRECISION,
        p * 2 >= q * PRECISION ==> p * 2 >= q * ulp(p, q) * PRECISION,
    decreases p - q,
{
    lemma2_to64();
    if p < q * PRECISION {
        assert(q * 1 * PRECISION == q * PRECISION);
        0
    } else {
        let t = lemma_ulp(p, 2 * q);
        lemma_pow2_unfold(t + 1);
        let u = ulp(p, 2 * q);
        assert(q * (2 * u) == 2 * q * u) by (nonlinear_arith);
        t + 1
    }
}

/// The last bit's weight is known from the size of the quotient.
pub proof fn lemma_ulp_is(p: nat, q: nat, s: nat)
    requires
        q > 0,
        q * pow2(s) * PRECISION <= 2 * p,
        p < q * pow2(s) * PRECISION,
    ensures
        ulp(p, q) == pow2(s),
    decreases s,
{
    lemma2_to64();
    if s == 0 {
        assert(q * 1 * PRECISION == q * PRECISION);
    } else {
        lemma_pow2_unfold(s);
        let h = pow2((s - 1) as nat);
        lemma_pow2_pos((s - 1) as nat);
        assert(q * (2 * h) == 2 * q * h) by (nonlinear_arith);
        assert(q * h >= q) by (nonlinear_arith)
            requires
                h >= 1,
        ;
        assert((2 * q) * h == 2 * (q * h)) by (nonlinear_arith);
        assert(p >= q * PRECISION);
        lemma_ulp_is(p, 2 * q, (s - 1) as nat);
    }
}

/// Rounding moves a quotient by no more than one part in 2^52.
pub proof fn lemma_rounded_is_close(p: nat, q: nat)
    requires
        q > 0,
        p * 2 >= q * PRECISION,
    ensures
        rounded(p, q) * q * 0x10_0000_0000_0001 >= p * 0x10_0000_0000_0000,
        rounded(p, q) * q * 0x10_0000_0000_0000 <= p * 0x10_0000_0000_0001,
{
    let s = lemma_ulp(p, q);
    let u = ulp(p, q);
    let d = q * u;
    let n = p / d;
    assert(d > 0) by (nonlinear_arith)
        requires
            q > 0,
            u > 0,
            d == q * u,
    ;
    vstd::arithmetic::div_mod::lemma_fundamental_div_mod(p as int, d as int);
    assert(p == d * n + p % d);
    assert(n >= 0x10_0000_0000_0000) by (nonlinear_arith)
        requires
            p * 2 >= d * PRECISION,
            p == d * n + p % d,
            p % d < d,
            d > 0,
    ;
    let v = nearest(p, d);
    assert(n <= v <= n + 1);
    let r = v * u;
    assert(r * q == v * d) by (nonlinear_arith)
        requires
            r == v * u,
            d == q * u,
    ;
    assert(v * d * 0x10_0000_0000_0001 >= p * 0x10_0000_0000_0000) by (nonlinear_arith)
        requires
            v >= n,
            n >= 0x10_0000_0000_0000,
            p < d * n + d,
            d > 0,
    ;
    assert(v * d * 0x10_0000_0000_0000 <= p * 0x10_0000_0000_0001) by (nonlinear_arith)
        requires
            v <= n + 1,
            n >= 0x10_0000_0000_0000,
            p >= d * n,
            d > 0,
    ;
}

/// A number of at most 53 bits is not rounded.
pub proof fn lemma_rounded_is_same(p: nat)
    requires
        p < PRECISION,
    ensures
        rounded(p, 1) == p,
{
    assert(ulp(p, 1) == 1);
    assert(p / 1 == p && p % 1 == 0);
}

/// A rounded quotient fits 53 significant bits.
pub proof fn lemma_rounded_is_exact(p: nat, q: nat)
    requires
        q > 0,
        p * 2 >= q * PRECISION,
    ensures
        exact(rounded(p, q)),
        rounded(p, q) * 2 >= PRECISION,
{
    let s = lemma_ulp(p, q);
    let u = ulp(p, q);
    let d = q * u;
    let n = p / d;
    assert(d > 0) by (nonlinear_arith)
        requires
            q > 0,
            u > 0,
            d == q * u,
    ;
    vstd::arithmetic::div_mod::lemma_fundamental_div_mod(p as int, d as int);
    assert(p == d * n + p % d);
    assert(2 * n + 2 > PRECISION) by (nonlinear_arith)
        requires
            p * 2 >= d * PRECISION,
            p == d * n + p % d,
            p % d < d,
            d > 0,
    ;
    assert(n < PRECISION) by (nonlinear_arith)
        requires
            p < d * PRECISION,
            p >= d * n,
            d > 0,
    ;
    let v = nearest(p, d);
    assert(PRECISION <= 2 * v <= 2 * PRECISION);
    let r = rounded(p, q);
    assert(r == v * u);
    assert(r * 2 >= PRECISION) by (nonlinear_arith)
        requires
            r == v * u,
            2 * v >= PRECISION,
            u >= 1,
    ;
    if v == PRECISION {
        lemma_pow2_unfold(s + 1);
        lemma_pow2_pos(s);
        assert(1 * pow2(s + 1) * PRECISION <= 2 * r && r < 1 * pow2(s + 1) * PRECISION)
            by (nonlinear_arith)
            requires
                r == v * u,
                v == PRECISION,
                u >= 1,
                pow2(s + 1) == 2 * u,
        ;
        lemma_ulp_is(r, 1, s + 1);
        assert(r == (v / 2) * (2 * u)) by (nonlinear_arith)
            requires
                r == v * u,
                v == PRECISION,
        ;
        vstd::arithmetic::div_mod::lemma_mod_multiples_basic((v / 2) as int, (2 * u) as int);
    } else {
        assert(1 * pow2(s) * PRECISION <= 2 * r && r < 1 * pow2(s) * PRECISION)
            by (nonlinear_arith)
            requires
                r == v * u,
                PRECISION <= 2 * v,
                v < PRECISION,
                u >= 1,
                pow2(s) == u,
        ;
        lemma_ulp_is(r, 1, s);
        vstd::arithmetic::div_mod::lemma_mod_multiples_basic(v as int, u as int);
    }
}

/// Rounding takes no quotient of at least eight below eight, nor one of at
/// least a power of two below that power.
pub proof fn lemma_rounded_keeps_powers(p: nat, q: nat, k: nat)
    requires
        q > 0,
        p * 2 >= q * PRECISION,
        p >= q * pow2(k),
    ensures
        rounded(p, q) >= pow2(k),
{
    let s = lemma_ulp(p, q);
    let u = ulp(p, q);
    let d = q * u;
    let n = p / d;
    assert(d > 0) by (nonlinear_arith)
        requires
            q > 0,
            u > 0,
            d == q * u,
    ;
    vstd::arithmetic::div_mod::lemma_fundamental_div_mod(p as int, d as int);
    let v = nearest(p, d);
    assert(v >= n);
    if k >= s {
        vstd::arithmetic::power2::lemma_pow2_adds((k - s) as nat, s);
        let h = pow2((k - s) as nat);
        assert(n >= h) by (nonlinear_arith)
            requires
                p >= q * pow2(k),
                pow2(k) == h * u,
                d == q * u,
                p == d * n + p % d,
                p % d < d,
                d > 0,
        ;
        assert(v * u >= h * u) by (nonlinear_arith)
            requires
                v >= h,
        ;
    } else {
        vstd::arithmetic::power2::lemma_pow2_strictly_increases(k, s);
        assert(n >= 1) by (nonlinear_arith)
            requires
                p * 2 >= d * PRECISION,
                p == d * n + p % d,
                p % d < d,
                d > 0,
        ;
        assert(v * u >= u) by (nonlinear_arith)
            requires
                v >= 1,
        ;
    }
}

/// `p / q` rounded to 53 significant bits.
pub fn round(p: u128, q: u128) -> (r: u128)
    requires
        0 < q < 0x1_0000_0000,
        p < 0x80_0000_0000_0000_0000_0000_0000_0000,
    ensures
        r == rounded(p as nat, q as nat),
{
    let mut d: u128 = q;
    let mut u: u128 = 1;
    while p >= d * PRECISION
        invariant
            q > 0,
            d > 0,
            u > 0,
            p < 0x80_0000_0000_0000_0000_0000_0000_0000,
            d < 0x1_0000_0000 || d * PRECISION <= 2 * p,
            d == q * u,
            u <= d,
            ulp(p as nat, q as nat) == u * ulp(p as nat, d as nat),
        decreases p - d,
    {
        let ghost rest = ulp(p as nat, 2 * d as nat);
        assert(u * (2 * rest) == (2 * u) * rest) by (nonlinear_arith);
        assert(q * (2 * u) == 2 * (q * u)) by (nonlinear_arith);
        d = 2 * d;
        u = 2 * u;
    }
    assert(ulp(p as nat, d as nat) == 1);
    assert(u * 1 == u);
    let n: u128 = p / d;
    let twice: u128 = 2 * (p % d);
    let v: u128 = if twice < d || (twice == d && n % 2 == 0) {
        n
    } else {
        n + 1
    };
    assert(n * d <= p) by (nonlinear_arith)
        requires
            n == p / d,
            d > 0,
    ;
    assert(v * u <= 0x1_0000_0000_0000_0000_0000_0000_0000_0000 - 1) by (nonlinear_arith)
        requires
            v <= n + 1,
            n * d <= p,
            u <= d,
            d < 0x1_0000_0000 || d <= 2 * p,
            p < 0x80_0000_0000_0000_0000_0000_0000_0000,
            d > 0,
            u > 0,
    ;
    v * u
}

/// 2^45, the weight of the last bit of the largest frequencies.
proof fn lemma_pow2_45()
    ensures
        pow2(45) == 0x2000_0000_0000,
{
    lemma2_to64();
    vstd::arithmetic::power2::lemma_pow2_adds(32, 13);
}

/// The frequency that a binary64 encoding stands for.
pub fn to_units(bits: u64) -> (r: Option<u128>)
    ensures
        r is Some <==> units(bits) is Some,
        r matches Some(f) ==> {
            &&& f as nat == units(bits)->0
            &&& ONE <= 2 * f
            &&& f < ONE * 0x40_0000_0000
        },
{
    let exponent: u64 = bits / 0x10_0000_0000_0000;
    if exponent < 1022 || exponent > 1060 {
        return None;
    }
    let mantissa: u128 = 0x10_0000_0000_0000 + (bits % 0x10_0000_0000_0000) as u128;
    let mut f: u128 = mantissa;
    let mut i: u64 = 1015;
    proof {
        lemma2_to64();
        assert(mantissa * 1 == mantissa);
    }
    while i < exponent
        invariant
            1015 <= i <= exponent <= 1060,
            0x10_0000_0000_0000 <= mantissa < PRECISION,
            f == mantissa * pow2((i - 1015) as nat),
        decreases exponent - i,
    {
        proof {
            lemma_pow2_unfold((i - 1014) as nat);
            lemma_pow2_45();
            vstd::arithmetic::power2::lemma_pow2_adds((i - 1015) as nat, (1060 - i) as nat);
            lemma_pow2_pos((1060 - i) as nat);
            let h = pow2((i - 1015) as nat);
            assert(h <= pow2(45)) by (nonlinear_arith)
                requires
                    pow2(45) == h * pow2((1060 - i) as nat),
                    pow2((1060 - i) as nat) > 0,
            ;
            assert(mantissa * h <= PRECISION * 0x2000_0000_0000) by (nonlinear_arith)
                requires
                    mantissa < PRECISION,
                    h <= 0x2000_0000_0000,
            ;
            assert(mantissa * (2 * h) == 2 * (mantissa * h)) by (nonlinear_arith);
        }
        f = f * 2;
        i = i + 1;
    }
    proof {
        lemma_units_in_range(bits);
    }
    Some(f)
}

/// The binary64 encoding of a frequency that fits 53 significant bits.
pub fn to_bits(v: u128) -> (bits: u64)
    requires
        exact(v as nat),
        ONE <= 2 * v,
        v < ONE * 0x40_0000_0000,
    ensures
        units(bits) == Some(v as nat),
{
    let mut mantissa: u128 = v;
    let mut exponent: u64 = 1015;
    proof {
        lemma2_to64();
        assert(v * 1 == v);
    }
    while mantissa >= PRECISION
        invariant
            1015 <= exponent <= 1060,
            mantissa >= 0x10_0000_0000_0000,
            v < ONE * 0x40_0000_0000,
            v == mantissa * pow2((exponent - 1015) as nat),
            ulp(v as nat, 1) == pow2((exponent - 1015) as nat) * ulp(mantissa as nat, 1),
            exact(mantissa as nat),
        decreases mantissa,
    {
        proof {
            lemma_pow2_unfold((exponent - 1014) as nat);
            lemma_pow2_45();
            let h = pow2((exponent - 1015) as nat);
            lemma_halved(mantissa as nat);
            assert(mantissa == 2 * (mantissa / 2));
            assert((mantissa / 2) * (2 * h) == mantissa * h) by (nonlinear_arith)
                requires
                    mantissa == 2 * (mantissa / 2),
            ;
            let rest = ulp((mantissa / 2) as nat, 1);
            assert((2 * h) * rest == h * (2 * rest)) by (nonlinear_arith);
            if exponent == 1060 {
                assert(false) by (nonlinear_arith)
                    requires
                        v == mantissa * h,
                        mantissa >= PRECISION,
                        h == 0x2000_0000_0000,
                        v < ONE * 0x40_0000_0000,
                ;
            }
        }
        mantissa = mantissa / 2;
        exponent = exponent + 1;
    }
    proof {
        let h = pow2((exponent - 1015) as nat);
        lemma2_to64();
        if exponent < 1022 {
            vstd::arithmetic::power2::lemma_pow2_strictly_increases((exponent - 1015) as nat, 7);
            assert(false) by (nonlinear_arith)
                requires
                    v == mantissa * h,
                    mantissa < PRECISION,
                    h <= 64,
                    ONE <= 2 * v,
            ;
        }
    }
    let frac: u64 = (mantissa - 0x10_0000_0000_0000) as u64;
    let bits: u64 = exponent * 0x10_0000_0000_0000 + frac;
    assert(bits as nat / 0x10_0000_0000_0000 == exponent);
    assert(bits as nat % 0x10_0000_0000_0000 == frac);
    bits
}

/// Halving a number of more than 53 bits that fits 53 significant ones loses
/// nothing.
proof fn lemma_halved(v: nat)
    requires
        exact(v),
        v >= PRECISION,
    ensures
        v % 2 == 0,
        exact(v / 2),
        ulp(v, 1) == 2 * ulp(v / 2, 1),
{
    let s = lemma_ulp(v / 2, 1);
    let u = ulp(v / 2, 1);
    lemma_pow2_unfold(s + 1);
    lemma_ulp_doubled(v, 2);
    assert(ulp(v, 1) == 2 * ulp(v, 2));
    lemma_even(v, ulp(v, 2));
    lemma_ulp_doubled(2 * (v / 2), 2);
    assert(ulp(v, 2) == u);
    assert((v / 2) % u == 0) by {
        vstd::arithmetic::div_mod::lemma_fundamental_div_mod(v as int, (2 * u) as int);
        let k = v / (2 * u);
        assert(v / 2 == k * u) by (nonlinear_arith)
            requires
                v == (2 * u) * k,
        ;
        vstd::arithmetic::div_mod::lemma_mod_multiples_basic(k as int, u as int);
    }
}

/// A multiple of an even number is even.
proof fn lemma_even(v: nat, u: nat)
    requires
        u > 0,
        v % (2 * u) == 0,
    ensures
        v % 2 == 0,
{
    vstd::arithmetic::div_mod::lemma_fundamental_div_mod(v as int, (2 * u) as int);
    let k = v / (2 * u);
    assert(v == 2 * (u * k)) by (nonlinear_arith)
        requires
            v == (2 * u) * k,
    ;
}

/// Doubling numerator and denominator changes nothing.
proof fn lemma_ulp_doubled(p: nat, q: nat)
    requires
        q > 0,
        q % 2 == 0,
    ensures
        ulp(p, q) == ulp(p / 2, q / 2),
        ulp(p, q) > 0,
    decreases p - q,
{
    if p >= q * PRECISION {
        lemma_ulp_doubled(p, 2 * q);
    }
}

/// A frequency that can be encoded lies between half a megahertz and 2^38 MHz.
pub proof fn lemma_units_in_range(bits: u64)
    requires
        units(bits) is Some,
    ensures
        ONE <= 2 * units(bits)->0,
        units(bits)->0 < ONE * 0x40_0000_0000,
{
    let exponent = bits as nat / 0x10_0000_0000_0000;
    let mantissa = 0x10_0000_0000_0000 + bits as nat % 0x10_0000_0000_0000;
    let h = pow2((exponent - 1015) as nat);
    lemma2_to64();
    lemma_pow2_45();
    vstd::arithmetic::power2::lemma_pow2_adds(7, (exponent - 1022) as nat);
    vstd::arithmetic::power2::lemma_pow2_adds((exponent - 1015) as nat, (1060 - exponent) as nat);
    lemma_pow2_pos((exponent - 1022) as nat);
    lemma_pow2_pos((1060 - exponent) as nat);
    assert(128 <= h) by (nonlinear_arith)
        requires
            h == 128 * pow2((exponent - 1022) as nat),
            pow2((exponent - 1022) as nat) > 0,
    ;
    assert(h <= 0x2000_0000_0000) by (nonlinear_arith)
        requires
            0x2000_0000_0000 == h * pow2((1060 - exponent) as nat),
            pow2((1060 - exponent) as nat) > 0,
    ;
    assert(ONE <= 2 * (mantissa * h) && mantissa * h < ONE * 0x40_0000_0000) by (nonlinear_arith)
        requires
            0x10_0000_0000_0000 <= mantissa < PRECISION,
            128 <= h <= 0x2000_0000_0000,
    ;
}

/// An encoding counts the units of its frequency as binary64 does: from one
/// megahertz on, each step of the encoding is 2^-52 MHz, and 2^52 steps further on
/// the frequency has doubled. There is none below half a megahertz, none from 2^38
/// MHz on, and none for a negative number.
pub proof fn an_encoding_counts_its_units(bits: u64, step: u64)
    requires
        step < 0x10_0000_0000_0000,
    ensures
        units((0x3FF0_0000_0000_0000 + step) as u64) == Some((ONE + step * 0x100) as nat),
        0x3FE0_0000_0000_0000 <= bits < 0x4240_0000_0000_0000 ==> {
            &&& units(bits) is Some
            &&& units((bits + 0x10_0000_0000_0000) as u64) == Some(2 * units(bits)->0)
        },
        bits < 0x3FE0_0000_0000_0000 || bits >= 0x4250_0000_0000_0000 ==> units(bits) is None,
{
    lemma2_to64();
    let one = (0x3FF0_0000_0000_0000 + step) as u64;
    assert(one as nat / 0x10_0000_0000_0000 == 1023);
    assert(one as nat % 0x10_0000_0000_0000 == step);
    assert((0x10_0000_0000_0000 + step) * 256 == ONE + step * 0x100);
    if 0x3FE0_0000_0000_0000 <= bits < 0x4240_0000_0000_0000 {
        let next = (bits + 0x10_0000_0000_0000) as u64;
        let e = bits as nat / 0x10_0000_0000_0000;
        assert(next as nat / 0x10_0000_0000_0000 == e + 1);
        assert(next as nat % 0x10_0000_0000_0000 == bits as nat % 0x10_0000_0000_0000);
        lemma_pow2_unfold((e - 1014) as nat);
        let m = 0x10_0000_0000_0000 + bits as nat % 0x10_0000_0000_0000;
        let h = pow2((e - 1015) as nat);
        assert(m * (2 * h) == 2 * (m * h)) by (nonlinear_arith);
    }
}

/// Rounding goes to the nearest integer, and to the even one of two that are as
/// near.
pub proof fn rounding_goes_to_the_nearest(p: nat, d: nat)
    requires
        d > 0,
    ensures
        -(d as int) <= 2 * (nearest(p, d) * d - p) <= d,
        2 * (nearest(p, d) * d - p) == d || 2 * (p - nearest(p, d) * d) == d ==> nearest(p, d) % 2
            == 0,
{
    let n = p / d;
    vstd::arithmetic::div_mod::lemma_fundamental_div_mod(p as int, d as int);
    assert((n + 1) * d == n * d + d && n * d == d * n) by (nonlinear_arith);
}

/// What is rounded keeps 53 significant bits: it is a multiple of a power of two,
/// one at least, of which the quotient holds fewer than 2^53 and, where that power
/// is more than one, no fewer than 2^52.
pub proof fn rounding_keeps_53_bits(p: nat, q: nat) -> (s: nat)
    requires
        q > 0,
    ensures
        rounded(p, q) == nearest(p, q * pow2(s)) * pow2(s),
        p < q * pow2(s) * 0x20_0000_0000_0000,
        s > 0 ==> p >= q * pow2(s) * 0x10_0000_0000_0000,
{
    let s = lemma_ulp(p, q);
    if s > 0 {
        lemma2_to64();
        lemma_pow2_unfold(s);
        lemma_pow2_pos((s - 1) as nat);
        if p < q * PRECISION {
            assert(ulp(p, q) == 1);
            assert(pow2(s) >= 2);
        }
        assert(q * PRECISION <= 2 * p);
        assert(q * pow2(s) * 0x20_0000_0000_0000 == 2 * (q * pow2(s) * 0x10_0000_0000_0000))
            by (nonlinear_arith);
    }
    s
}

} // verus!
