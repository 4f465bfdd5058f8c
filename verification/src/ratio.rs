//! A price divided by a surface, in binary floating point: rounded as doubles
//! are, then to whole cents.
use crate::double::{magnitude_units, Double, ONE_BITS, STEP};
use vstd::arithmetic::div_mod::{lemma_fundamental_div_mod, lemma_fundamental_div_mod_converse};
use vstd::arithmetic::power2::{lemma_pow2_adds, lemma_pow2_pos, lemma_pow2_unfold, pow2};
use vstd::prelude::*;

verus! {

/// A quotient rounded to an integer; halfway between two, to the even one.
pub open spec fn half_even(num: int, den: int) -> int {
    let n = num / den;
    let rest = num % den;
    if 2 * rest > den || (2 * rest == den && n % 2 == 1) {
        n + 1
    } else {
        n
    }
}

/// A quotient rounded to an integer; halfway between two, to the larger one.
pub open spec fn half_up(num: int, den: int) -> int {
    (2 * num + den) / (2 * den)
}

/// The power of two at which a quotient has 53 binary digits or fewer.
pub open spec fn binade(num: nat, den: nat) -> nat
    decreases num - den,
{
    if den == 0 || num < 0x20_0000_0000_0000 * den {
        0
    } else {
        binade(num, 2 * den) + 1
    }
}

/// A quotient as a double has it: 53 binary digits, halfway to even. The
/// quotient and the result count the smallest positive double.
pub open spec fn as_double(num: nat, den: nat) -> int {
    let p = pow2(binade(num, den));
    half_even(num as int, (den * p) as int) * p
}

/// One, counted in the smallest positive double.
pub open spec fn one() -> nat {
    pow2(1074)
}

/// A price divided by a surface in double precision (the price as a double,
/// the quotient as a double), rounded to an integer, halves away from zero.
pub open spec fn magnitude_ratio(price: nat, surface: nat) -> int {
    let p = as_double(price * one(), 1);
    let q = as_double((p * one()) as nat, surface);
    half_up(q, one() as int)
}

/// The price per unit of surface, within the range of an `i64`.
pub open spec fn price_ratio(price: int, surface: Double) -> int {
    let s = magnitude_units(surface.magnitude());
    if price >= 0 {
        let r = magnitude_ratio(price as nat, s);
        if r > i64::MAX {
            i64::MAX as int
        } else {
            r
        }
    } else {
        let r = -magnitude_ratio((-price) as nat, s);
        if r < i64::MIN {
            i64::MIN as int
        } else {
            r
        }
    }
}

// ---------------------------------------------------------------------------
// Lemmas

/// The binade is the one that the quotient lies in.
pub proof fn lemma_binade(num: nat, den: nat, q: nat)
    requires
        den > 0,
        num < pow2(53) * (den * pow2(q)),
        q == 0 || num >= pow2(52) * (den * pow2(q)),
    ensures
        binade(num, den) == q,
    decreases q,
{
    lemma_pow2_values();
    if q == 0 {
        assert(den * pow2(0) == den) by (nonlinear_arith)
            requires
                pow2(0) == 1,
        ;
    } else {
        lemma_pow2_unfold(q);
        let p = pow2((q - 1) as nat);
        lemma_pow2_pos((q - 1) as nat);
        assert(den * pow2(q) == (2 * den) * p) by (nonlinear_arith)
            requires
                pow2(q) == 2 * p,
        ;
        assert(pow2(52) * ((2 * den) * p) >= pow2(53) * den) by (nonlinear_arith)
            requires
                p >= 1,
                pow2(53) == 2 * pow2(52),
        ;
        if q > 1 {
            assert(num >= pow2(52) * ((2 * den) * p));
        }
        lemma_binade(num, 2 * den, (q - 1) as nat);
    }
}

pub proof fn lemma_pow2_values()
    ensures
        pow2(0) == 1,
        pow2(1) == 2,
        pow2(52) == 0x10_0000_0000_0000,
        pow2(53) == 0x20_0000_0000_0000,
        pow2(53) == 2 * pow2(52),
{
    vstd::arithmetic::power2::lemma2_to64();
    vstd::arithmetic::power2::lemma2_to64_rest();
}

/// A common factor changes neither quotient nor rounding.
pub proof fn lemma_half_even_scale(num: int, den: int, c: int)
    requires
        num >= 0,
        den > 0,
        c > 0,
    ensures
        half_even(num * c, den * c) == half_even(num, den),
{
    let n = num / den;
    let r = num % den;
    lemma_fundamental_div_mod(num, den);
    assert(num * c == n * (den * c) + r * c) by (nonlinear_arith)
        requires
            num == den * n + r,
    ;
    assert(0 <= r * c < den * c) by (nonlinear_arith)
        requires
            0 <= r < den,
            c > 0,
    ;
    lemma_fundamental_div_mod_converse(num * c, den * c, n, r * c);
    assert((2 * r > den) == (2 * (r * c) > den * c)) by (nonlinear_arith)
        requires
            c > 0,
    ;
    assert((2 * r == den) == (2 * (r * c) == den * c)) by (nonlinear_arith)
        requires
            c > 0,
    ;
}

proof fn lemma_half_up_scale(num: int, den: int, c: int)
    requires
        num >= 0,
        den > 0,
        c > 0,
    ensures
        half_up(num * c, den * c) == half_up(num, den),
{
    let a = 2 * num + den;
    let b = 2 * den;
    assert(2 * (num * c) + den * c == a * c) by (nonlinear_arith)
        requires
            a == 2 * num + den,
    ;
    assert(2 * (den * c) == b * c) by (nonlinear_arith)
        requires
            b == 2 * den,
    ;
    lemma_fundamental_div_mod(a, b);
    let n = a / b;
    let r = a % b;
    assert(a * c == n * (b * c) + r * c) by (nonlinear_arith)
        requires
            a == b * n + r,
    ;
    assert(0 <= r * c < b * c) by (nonlinear_arith)
        requires
            0 <= r < b,
            c > 0,
    ;
    lemma_fundamental_div_mod_converse(a * c, b * c, n, r * c);
}

proof fn lemma_half_up_integer(w: int)
    ensures
        half_up(w, 1) == w,
{
    lemma_fundamental_div_mod_converse(2 * w + 1, 2, w, 1);
}

pub proof fn lemma_half_even_bounds(num: int, den: int, low: int, high: int)
    requires
        den > 0,
        low * den <= num,
        num < high * den,
    ensures
        low <= half_even(num, den) <= high,
{
    lemma_fundamental_div_mod(num, den);
    let n = num / den;
    let r = num % den;
    assert(low <= n) by (nonlinear_arith)
        requires
            low * den <= num,
            num == den * n + r,
            0 <= r < den,
            den > 0,
    ;
    assert(n < high) by (nonlinear_arith)
        requires
            num < high * den,
            num == den * n + r,
            0 <= r < den,
            den > 0,
    ;
}

// ---------------------------------------------------------------------------
// Execution

/// A small power of two.
pub fn power(k: u32) -> (r: u128)
    requires
        k <= 120,
    ensures
        r == pow2(k as nat),
        r > 0,
{
    let mut r: u128 = 1;
    let mut i: u32 = 0;
    proof {
        lemma_pow2_values();
        lemma_pow2_pos(0);
    }
    while i < k
        invariant
            i <= k <= 120,
            r == pow2(i as nat),
            r > 0,
        decreases k - i,
    {
        proof {
            lemma_pow2_unfold((i + 1) as nat);
            lemma_pow2_pos((i + 1) as nat);
            lemma_pow2_small((i + 1) as nat);
        }
        r = r * 2;
        i = i + 1;
    }
    r
}

pub proof fn lemma_pow2_small(k: nat)
    requires
        k <= 120,
    ensures
        pow2(k) <= 0x100_0000_0000_0000_0000_0000_0000_0000,
{
    vstd::arithmetic::power2::lemma2_to64_rest();
    lemma_pow2_adds(60, 60);
    assert(pow2(60) == 0x1000_0000_0000_0000);
    assert(0x1000_0000_0000_0000nat * 0x1000_0000_0000_0000nat
        == 0x100_0000_0000_0000_0000_0000_0000_0000nat) by (nonlinear_arith);
    if k < 120 {
        vstd::arithmetic::power2::lemma_pow2_strictly_increases(k, 120);
    }
}

/// Rounds a quotient; halfway to even.
pub fn round_half_even(num: u128, den: u128) -> (r: u128)
    requires
        0 < den <= 0x1000_0000_0000_0000_0000_0000_0000_0000,
        num <= 0x1000_0000_0000_0000_0000_0000_0000_0000,
    ensures
        r == half_even(num as int, den as int),
{
    let n: u128 = num / den;
    let rest: u128 = num % den;
    proof {
        assert(n <= num) by (nonlinear_arith)
            requires
                n == num / den,
                den >= 1,
                num >= 0,
        ;
    }
    if 2 * rest > den || (2 * rest == den && n % 2 == 1) {
        n + 1
    } else {
        n
    }
}

/// The 53 binary digits of a positive integer as a double, and where they
/// start: the double is `n` times two to the power of `e - 52`.
fn significand(v: u64) -> (r: (u64, u32))
    requires
        0 < v,
    ensures
        0x10_0000_0000_0000 <= r.0 < 0x20_0000_0000_0000,
        r.1 <= 64,
        as_double((v * one()) as nat, 1) == r.0 * pow2((1022 + r.1) as nat),
{
    let mut e: u32 = 0;
    let mut top: u128 = 1;
    proof {
        lemma_pow2_values();
    }
    while top * 2 <= v as u128
        invariant
            0 < v,
            top == pow2(e as nat),
            top <= v,
            e <= 63,
        decreases v - top,
    {
        proof {
            lemma_pow2_unfold((e + 1) as nat);
            lemma_pow2_pos(e as nat);
            if e == 63 {
                vstd::arithmetic::power2::lemma2_to64_rest();
            }
        }
        top = top * 2;
        e = e + 1;
    }
    proof {
        lemma_pow2_unfold((e + 1) as nat);
    }
    let ghost num = (v * one()) as nat;
    let ghost q = (1022 + e) as nat;
    proof {
        lemma_int_binade(v as nat, e as nat);
    }
    let n: u128 = if e <= 52 {
        let scale: u128 = power(52 - e);
        proof {
            lemma_exact(v as nat, e as nat);
            lemma_pow2_adds(e as nat, (52 - e) as nat);
            lemma_pow2_adds((e + 1) as nat, (52 - e) as nat);
            assert(top * scale <= v * scale < (2 * top) * scale) by (nonlinear_arith)
                requires
                    top <= v < 2 * top,
                    scale > 0,
            ;
            lemma_pow2_values();
        }
        v as u128 * scale
    } else {
        let scale: u128 = power(e - 52);
        proof {
            lemma_inexact(v as nat, e as nat);
            lemma_pow2_adds(52, (e - 52) as nat);
            lemma_pow2_adds(53, (e - 52) as nat);
            lemma_half_even_bounds(
                v as int,
                scale as int,
                pow2(52) as int,
                pow2(53) as int,
            );
            lemma_pow2_values();
            lemma_pow2_small((e - 52) as nat);
        }
        round_half_even(v as u128, scale)
    };
    proof {
        assert(as_double(num, 1) == n * pow2(q));
        lemma_pow2_values();
    }
    if n == 0x20_0000_0000_0000 {
        proof {
            lemma_pow2_unfold((1023 + e) as nat);
            assert(0x20_0000_0000_0000 * pow2(q) == 0x10_0000_0000_0000 * (2 * pow2(q)))
                by (nonlinear_arith);
        }
        (0x10_0000_0000_0000, e + 1)
    } else {
        (n as u64, e)
    }
}

proof fn lemma_int_binade(v: nat, e: nat)
    requires
        e <= 63,
        pow2(e) <= v < 2 * pow2(e),
    ensures
        binade((v * one()) as nat, 1) == 1022 + e,
{
    let q = (1022 + e) as nat;
    let num = (v * one()) as nat;
    lemma_pow2_pos(1074);
    lemma_pow2_adds(e, 1074);
    lemma_pow2_adds(52, q);
    lemma_pow2_adds(53, q);
    lemma_pow2_unfold((e + 1075) as nat);
    assert(pow2(e) * one() <= v * one() < (2 * pow2(e)) * one()) by (nonlinear_arith)
        requires
            pow2(e) <= v < 2 * pow2(e),
            one() > 0,
    ;
    lemma_pow2_pos(1074);
    assert((2 * pow2(e)) * one() == 2 * (pow2(e) * one())) by (nonlinear_arith);
    assert(1 * pow2(q) == pow2(q));
    lemma_binade(num, 1, q);
}

/// An integer of 53 binary digits is a double.
pub proof fn lemma_exact(v: nat, e: nat)
    requires
        e <= 52,
        pow2(e) <= v < 2 * pow2(e),
    ensures
        as_double((v * one()) as nat, 1) == (v * pow2((52 - e) as nat)) * pow2((1022 + e) as nat),
{
    let q = (1022 + e) as nat;
    lemma_int_binade(v, e);
    lemma_pow2_adds((52 - e) as nat, q);
    lemma_pow2_pos(q);
    let n = (v * pow2((52 - e) as nat)) as int;
    assert(v * one() == n * pow2(q)) by (nonlinear_arith)
        requires
            n == v * pow2((52 - e) as nat),
            one() == pow2((52 - e) as nat) * pow2(q),
    ;
    assert(n >= 0) by (nonlinear_arith)
        requires
            n == v * pow2((52 - e) as nat),
            v >= 0,
            pow2((52 - e) as nat) >= 0,
    ;
    assert(1 * pow2(q) == pow2(q));
    lemma_half_even_scale(n, 1, pow2(q) as int);
    assert(half_even(n, 1) == n);
}

proof fn lemma_inexact(v: nat, e: nat)
    requires
        52 < e <= 63,
        pow2(e) <= v < 2 * pow2(e),
    ensures
        as_double((v * one()) as nat, 1) == half_even(v as int, pow2((e - 52) as nat) as int)
            * pow2((1022 + e) as nat),
{
    let q = (1022 + e) as nat;
    lemma_int_binade(v, e);
    lemma_pow2_adds((e - 52) as nat, 1074);
    lemma_pow2_pos((e - 52) as nat);
    lemma_pow2_pos(1074);
    assert(1 * pow2(q) == pow2(q));
    lemma_half_even_scale(v as int, pow2((e - 52) as nat) as int, one() as int);
}

/// The quotient of two doubles that are not subnormal, by their binary digits.
proof fn lemma_quotient(np: nat, qp: nat, ms: nat, es: nat, up: nat, q: int)
    requires
        pow2(52) <= np < pow2(53),
        pow2(52) <= ms < pow2(53),
        (np >= ms && up == 52) || (np < ms && up == 53),
        q == qp + 1074 - es - up,
    ensures
        q >= 0 ==> as_double(((np * pow2(qp)) * one()) as nat, ms * pow2(es)) == half_even(
            (np * pow2(up)) as int,
            ms as int,
        ) * pow2(q as nat),
        q < 0 ==> as_double(((np * pow2(qp)) * one()) as nat, ms * pow2(es)) <= pow2(53),
{
    let num = ((np * pow2(qp)) * one()) as nat;
    let den = ms * pow2(es);
    lemma_pow2_pos(es);
    lemma_pow2_pos(qp);
    lemma_pow2_pos(1074);
    lemma_pow2_values();
    assert(den > 0) by (nonlinear_arith)
        requires
            den == ms * pow2(es),
            ms > 0,
            pow2(es) > 0,
    ;
    lemma_pow2_adds(qp, 1074);
    assert(num == np * pow2((qp + 1074) as nat)) by (nonlinear_arith)
        requires
            num == (np * pow2(qp)) * one(),
            pow2((qp + 1074) as nat) == pow2(qp) * one(),
    ;
    let a = (np * pow2(up)) as nat;
    assert(a >= pow2(52) * ms && a < pow2(53) * ms) by (nonlinear_arith)
        requires
            a == np * pow2(up),
            (np >= ms && up == 52) || (np < ms && up == 53),
            pow2(53) == 2 * pow2(52),
            np < pow2(53),
            pow2(52) <= np,
            pow2(52) <= ms < pow2(53),
    ;
    if q >= 0 {
        let qn = q as nat;
        let c = (es + qn) as nat;
        lemma_pow2_pos(c);
        lemma_pow2_adds(es, qn);
        lemma_pow2_adds(up, c);
        assert(up + c == qp + 1074);
        assert(num == a * pow2(c)) by (nonlinear_arith)
            requires
                num == np * pow2((qp + 1074) as nat),
                a == np * pow2(up),
                pow2((qp + 1074) as nat) == pow2(up) * pow2(c),
        ;
        assert(den * pow2(qn) == ms * pow2(c)) by (nonlinear_arith)
            requires
                den == ms * pow2(es),
                pow2(c) == pow2(es) * pow2(qn),
        ;
        assert(pow2(52) * (ms * pow2(c)) <= a * pow2(c) < pow2(53) * (ms * pow2(c)))
            by (nonlinear_arith)
            requires
                pow2(52) * ms <= a < pow2(53) * ms,
                pow2(c) > 0,
        ;
        lemma_binade(num, den, qn);
        lemma_half_even_scale(a as int, ms as int, pow2(c) as int);
    } else {
        let d = (-q) as nat;
        lemma_pow2_pos(d);
        assert(up + es == qp + 1074 + d);
        lemma_pow2_adds((qp + 1074) as nat, d);
        lemma_pow2_adds(up, es);
        assert(num * pow2(d) == a * pow2(es)) by (nonlinear_arith)
            requires
                num == np * pow2((qp + 1074) as nat),
                a == np * pow2(up),
                pow2((qp + 1074) as nat) * pow2(d) == pow2(up) * pow2(es),
        ;
        assert(num < pow2(53) * den) by (nonlinear_arith)
            requires
                num * pow2(d) == a * pow2(es),
                a < pow2(53) * ms,
                den == ms * pow2(es),
                pow2(es) > 0,
                pow2(d) >= 1,
                num >= 0,
        ;
        assert(den * pow2(0) == den) by (nonlinear_arith)
            requires
                pow2(0) == 1,
        ;
        lemma_binade(num, den, 0);
        assert(0 * den <= num) by (nonlinear_arith)
            requires
                num >= 0,
        ;
        lemma_half_even_bounds(num as int, den as int, 0, pow2(53) as int);
        assert(half_even(num as int, den as int) * pow2(0) == half_even(num as int, den as int))
            by (nonlinear_arith)
            requires
                pow2(0) == 1,
        ;
    }
}

/// Less than a quarter rounds to nothing.
proof fn lemma_small_rounds_to_zero(u: int)
    requires
        0 <= u <= pow2(1072),
    ensures
        half_up(u, one() as int) == 0,
{
    lemma_pow2_unfold(1074);
    lemma_pow2_unfold(1073);
    lemma_pow2_pos(1072);
    let o = one() as int;
    assert(0 <= 2 * u + o < 2 * o);
    lemma_fundamental_div_mod_converse(2 * u + o, 2 * o, 0, 2 * u + o);
}

/// Rounds a value to an integer, halves up: `n` times two to the power of `q`,
/// counted in the smallest positive double.
fn nearest_integer(n: u128, q: u32) -> (r: u128)
    requires
        n <= 0x20_0000_0000_0000,
        q <= 1100,
    ensures
        r == half_up((n * pow2(q as nat)) as int, one() as int),
{
    let ghost u = (n * pow2(q as nat)) as int;
    proof {
        lemma_pow2_values();
        lemma_pow2_pos(q as nat);
        assert(0 <= u <= pow2(53) * pow2(q as nat)) by (nonlinear_arith)
            requires
                u == n * pow2(q as nat),
                0 <= n <= pow2(53),
                pow2(q as nat) > 0,
        ;
    }
    if q <= 1019 {
        proof {
            lemma_pow2_adds(53, q as nat);
            if q < 1019 {
                vstd::arithmetic::power2::lemma_pow2_strictly_increases((53 + q) as nat, 1072);
            }
            lemma_small_rounds_to_zero(u);
        }
        return 0;
    }
    if q >= 1074 {
        let t: u32 = q - 1074;
        let factor: u128 = power(t);
        proof {
            lemma_pow2_adds(t as nat, 1074);
            lemma_pow2_pos(1074);
            let w = n * pow2(t as nat);
            assert(u == w * one()) by (nonlinear_arith)
                requires
                    u == n * pow2(q as nat),
                    w == n * pow2(t as nat),
                    pow2(q as nat) == pow2(t as nat) * one(),
            ;
            assert(w >= 0) by (nonlinear_arith)
                requires
                    w == n * pow2(t as nat),
                    n >= 0,
                    pow2(t as nat) >= 0,
            ;
            lemma_half_up_scale(w as int, 1, one() as int);
            lemma_half_up_integer(w as int);
            vstd::arithmetic::power2::lemma2_to64();
            if t < 26 {
                vstd::arithmetic::power2::lemma_pow2_strictly_increases(t as nat, 26);
            }
            assert(pow2(26) == 0x400_0000);
            assert(n * factor <= 0x20_0000_0000_0000 * 0x400_0000) by (nonlinear_arith)
                requires
                    n <= 0x20_0000_0000_0000,
                    factor <= 0x400_0000,
                    n >= 0,
            ;
        }
        n * factor
    } else {
        let k: u32 = 1074 - q;
        let factor: u128 = power(k);
        proof {
            lemma_pow2_adds(k as nat, q as nat);
            lemma_half_up_scale(n as int, factor as int, pow2(q as nat) as int);
            lemma_pow2_small(k as nat);
        }
        (2 * n + factor) / (2 * factor)
    }
}

/// The price per unit of surface of a price without its sign.
fn unsigned_ratio(price: u64, surface: Double) -> (r: u128)
    requires
        surface.ge(Double { bits: ONE_BITS }),
    ensures
        r == magnitude_ratio(price as nat, magnitude_units(surface.magnitude())),
{
    let ghost s = magnitude_units(surface.magnitude());
    let magnitude: u64 = surface.bits % 0x8000_0000_0000_0000;
    let fraction: u64 = magnitude % STEP;
    let exponent: u64 = magnitude / STEP;
    proof {
        lemma_at_least_one(surface);
        lemma_pow2_values();
    }
    let ms: u64 = fraction + STEP;
    let ghost es = (exponent - 1) as nat;
    proof {
        lemma_pow2_pos(es);
        assert(s == ms * pow2(es));
        assert(s > 0) by (nonlinear_arith)
            requires
                s == ms * pow2(es),
                ms > 0,
                pow2(es) > 0,
        ;
    }
    if price == 0 {
        proof {
            lemma_zero_ratio(s);
        }
        return 0;
    }
    let (np, e) = significand(price);
    let ghost qp = (1022 + e) as nat;
    let up: u32 = if np >= ms {
        52
    } else {
        53
    };
    let q: i64 = 1022 + e as i64 + 1074 - (exponent as i64 - 1) - up as i64;
    let ghost num = ((np * pow2(qp)) * one()) as nat;
    proof {
        lemma_quotient(np as nat, qp, ms as nat, es, up as nat, q as int);
        lemma_pow2_pos(qp);
        assert(np * pow2(qp) >= 0) by (nonlinear_arith)
            requires
                np >= 0,
                pow2(qp) > 0,
        ;
        assert(as_double((price * one()) as nat, 1) == np * pow2(qp));
    }
    if q < 0 {
        proof {
            vstd::arithmetic::power2::lemma_pow2_strictly_increases(53, 1072);
            lemma_double_not_negative(num, s);
            lemma_small_rounds_to_zero(as_double(num, s));
        }
        return 0;
    }
    let scale: u128 = power(up);
    proof {
        lemma_pow2_small(up as nat);
        assert(np * scale <= 0x1000_0000_0000_0000_0000_0000_0000_0000) by (nonlinear_arith)
            requires
                np < 0x20_0000_0000_0000,
                scale <= 0x20_0000_0000_0000,
        ;
        let a = np * pow2(up as nat);
        assert(pow2(52) * ms <= a < pow2(53) * ms) by (nonlinear_arith)
            requires
                a == np * pow2(up as nat),
                (np >= ms && up == 52) || (np < ms && up == 53),
                pow2(53) == 2 * pow2(52),
                np < pow2(53),
                pow2(52) <= np,
                pow2(52) <= ms < pow2(53),
        ;
        lemma_half_even_bounds(a as int, ms as int, pow2(52) as int, pow2(53) as int);
    }
    let n: u128 = round_half_even(np as u128 * scale, ms as u128);
    nearest_integer(n, q as u32)
}

proof fn lemma_at_least_one(surface: Double)
    requires
        surface.ge(Double { bits: ONE_BITS }),
    ensures
        surface.bits < 0x8000_0000_0000_0000,
        1023 <= surface.magnitude() / STEP as nat <= 2047,
        magnitude_units(surface.magnitude()) == (surface.magnitude() % STEP as nat + STEP as nat)
            * pow2((surface.magnitude() / STEP as nat - 1) as nat),
{
    let one_double = Double { bits: ONE_BITS };
    crate::double::law_one_is_one();
    lemma_pow2_pos(1074);
    let m = surface.magnitude();
    assert(magnitude_units(m) >= 0);
    assert(!surface.is_negative());
    if m < one_double.magnitude() {
        crate::double::lemma_units_order(m, one_double.magnitude());
    }
    assert(m >= 0x3FF0_0000_0000_0000);
}

proof fn lemma_zero_ratio(s: nat)
    requires
        s > 0,
    ensures
        magnitude_ratio(0, s) == 0,
{
    lemma_zero_double(1);
    lemma_zero_double(s);
    assert(0 * one() == 0);
    lemma_pow2_pos(1072);
    lemma_small_rounds_to_zero(0);
}

pub proof fn lemma_zero_double(den: nat)
    requires
        den > 0,
    ensures
        as_double(0, den) == 0,
{
    let p = pow2(binade(0, den));
    lemma_pow2_pos(binade(0, den));
    assert(den * p > 0) by (nonlinear_arith)
        requires
            den > 0,
            p > 0,
    ;
    lemma_fundamental_div_mod_converse(0, (den * p) as int, 0, 0);
    assert(half_even(0, (den * p) as int) == 0);
    assert(0 * p == 0);
}

pub proof fn lemma_double_not_negative(num: nat, den: nat)
    requires
        den > 0,
    ensures
        as_double(num, den) >= 0,
{
    let p = pow2(binade(num, den));
    lemma_pow2_pos(binade(num, den));
    assert(den * p > 0) by (nonlinear_arith)
        requires
            den > 0,
            p > 0,
    ;
    lemma_fundamental_div_mod(num as int, (den * p) as int);
    assert(num / (den * p) >= 0) by (nonlinear_arith)
        requires
            num >= 0,
            den * p > 0,
    ;
    let h = half_even(num as int, (den * p) as int);
    assert(h * p >= 0) by (nonlinear_arith)
        requires
            h >= 0,
            p > 0,
    ;
}

// ---------------------------------------------------------------------------
// Euros

/// An amount of euros in cents: a hundredfold in double precision, rounded to an
/// integer, halves away from zero, within the range of an `i64`. What is not a
/// number is nothing.
pub open spec fn euro_cents(euros: Double) -> int {
    let p = as_double(100 * magnitude_units(euros.magnitude()), 1);
    let r = half_up(p, one() as int);
    if euros.is_nan() {
        0
    } else if euros.is_negative() {
        if -r < i64::MIN {
            i64::MIN as int
        } else {
            -r
        }
    } else {
        if r > i64::MAX {
            i64::MAX as int
        } else {
            r
        }
    }
}

/// An integer as a double is not far from it.
proof fn lemma_double_is_close(num: nat)
    ensures
        as_double(num, 1) <= 2 * num,
        2 * as_double(num, 1) >= num,
    decreases num,
{
    let q = binade(num, 1);
    let p = pow2(q);
    lemma_pow2_pos(q);
    lemma_pow2_values();
    lemma_in_binade(num, 1);
    assert(1 * p == p);
    if q == 0 {
        assert(half_even(num as int, 1) == num);
        assert(num * p == num) by (nonlinear_arith)
            requires
                p == 1,
        ;
    } else {
        lemma_half_even_bounds(num as int, p as int, pow2(52) as int, pow2(53) as int);
        let h = half_even(num as int, p as int);
        assert(h * p <= 2 * num && 2 * (h * p) >= num) by (nonlinear_arith)
            requires
                pow2(52) <= h <= pow2(53),
                pow2(52) * p <= num < pow2(53) * p,
                pow2(53) == 2 * pow2(52),
                p > 0,
        ;
    }
}

/// A quotient lies in its binade.
pub proof fn lemma_in_binade(num: nat, den: nat)
    requires
        den > 0,
    ensures
        num < pow2(53) * (den * pow2(binade(num, den))),
        binade(num, den) == 0 || num >= pow2(52) * (den * pow2(binade(num, den))),
    decreases num - den,
{
    lemma_pow2_values();
    let q = binade(num, den);
    if num < 0x20_0000_0000_0000 * den {
        assert(den * pow2(0) == den) by (nonlinear_arith)
            requires
                pow2(0) == 1,
        ;
    } else {
        lemma_in_binade(num, 2 * den);
        let r = binade(num, 2 * den);
        lemma_pow2_unfold(q);
        assert(den * pow2(q) == (2 * den) * pow2(r)) by (nonlinear_arith)
            requires
                pow2(q) == 2 * pow2(r),
        ;
        if r == 0 {
            assert((2 * den) * pow2(0) == 2 * den) by (nonlinear_arith)
                requires
                    pow2(0) == 1,
            ;
            assert(pow2(52) * (2 * den) == pow2(53) * den) by (nonlinear_arith)
                requires
                    pow2(53) == 2 * pow2(52),
            ;
        }
    }
}

/// An amount of euros, without its sign, in cents; `u64::MAX` where that is
/// beyond an `i64`.
fn unsigned_cents(magnitude: u64) -> (r: u128)
    requires
        magnitude <= 0x7FF0_0000_0000_0000,
    ensures
        ({
            let cents = half_up(
                as_double(100 * magnitude_units(magnitude as nat), 1),
                one() as int,
            );
            r == cents || (r > i64::MAX && cents > i64::MAX + 1)
        }),
{
    let fraction: u64 = magnitude % STEP;
    let exponent: u64 = magnitude / STEP;
    let ghost u = magnitude_units(magnitude as nat);
    let ghost num = 100 * u;
    proof {
        lemma_pow2_values();
        lemma_double_is_close(num);
        lemma_pow2_pos(1074);
    }
    if exponent <= 1011 {
        proof {
            lemma_small_units(magnitude as nat);
            lemma_pow2_adds(1063, 9);
            vstd::arithmetic::power2::lemma2_to64();
            assert(pow2(9) == 512);
            assert(2 * num <= pow2(1072));
            lemma_double_not_negative(num, 1);
            lemma_small_rounds_to_zero(as_double(num, 1));
        }
        return 0;
    }
    let m: u64 = fraction + STEP;
    let ghost es = (exponent - 1) as nat;
    proof {
        assert(u == m * pow2(es));
        lemma_pow2_pos(es);
    }
    if exponent > 1088 {
        proof {
            lemma_large_units(m as nat, es);
        }
        return 0xFFFF_FFFF_FFFF_FFFF;
    }
    let a: u128 = 100 * m as u128;
    let k: u32 = if a < 0x800_0000_0000_0000 {
        6
    } else {
        7
    };
    let scale: u128 = power(k);
    let ghost q = (es + k) as nat;
    proof {
        vstd::arithmetic::power2::lemma2_to64();
        vstd::arithmetic::power2::lemma2_to64_rest();
        assert(pow2(52) * scale <= a < pow2(53) * scale);
        lemma_half_even_bounds(a as int, scale as int, pow2(52) as int, pow2(53) as int);
        lemma_pow2_adds(k as nat, es);
        assert(num == a * pow2(es)) by (nonlinear_arith)
            requires
                num == 100 * u,
                u == m * pow2(es),
                a == 100 * m,
        ;
        assert(1 * pow2(q) == pow2(q));
        assert(pow2(52) * (scale * pow2(es)) <= a * pow2(es) < pow2(53) * (scale * pow2(es)))
            by (nonlinear_arith)
            requires
                pow2(52) * scale <= a < pow2(53) * scale,
                pow2(es) > 0,
        ;
        lemma_binade(num, 1, q);
        lemma_half_even_scale(a as int, scale as int, pow2(es) as int);
    }
    let n: u128 = round_half_even(a, scale);
    nearest_integer(n, (exponent as u32 - 1) + k)
}

proof fn lemma_small_units(magnitude: nat)
    requires
        magnitude / STEP as nat <= 1011,
    ensures
        magnitude_units(magnitude) <= pow2(1063),
{
    lemma_pow2_values();
    let exponent = magnitude / STEP as nat;
    let fraction = magnitude % STEP as nat;
    if exponent == 0 {
        vstd::arithmetic::power2::lemma_pow2_strictly_increases(52, 1063);
    } else {
        let p = pow2((exponent - 1) as nat);
        lemma_pow2_adds(53, (exponent - 1) as nat);
        assert((fraction + STEP as nat) * p <= pow2(53) * p) by (nonlinear_arith)
            requires
                fraction + (STEP as nat) <= pow2(53),
        ;
        if exponent < 1011 {
            vstd::arithmetic::power2::lemma_pow2_strictly_increases((52 + exponent) as nat, 1063);
        }
    }
}

proof fn lemma_large_units(m: nat, es: nat)
    requires
        m >= pow2(52),
        es >= 1088,
    ensures
        half_up(as_double(100 * (m * pow2(es)), 1), one() as int) > i64::MAX + 1,
{
    let u = m * pow2(es);
    lemma_pow2_values();
    lemma_double_is_close(100 * u);
    lemma_pow2_adds(52, es);
    lemma_pow2_pos(es);
    assert(u >= pow2(52) * pow2(es)) by (nonlinear_arith)
        requires
            u == m * pow2(es),
            m >= pow2(52),
    ;
    if es > 1088 {
        vstd::arithmetic::power2::lemma_pow2_strictly_increases(1140, (52 + es) as nat);
    }
    lemma_pow2_adds(66, 1074);
    lemma_pow2_adds(60, 6);
    vstd::arithmetic::power2::lemma2_to64();
    vstd::arithmetic::power2::lemma2_to64_rest();
    lemma_pow2_pos(1074);
    let o = one() as int;
    let p = as_double(100 * u, 1);
    assert(p >= 50 * pow2(1140));
    assert(pow2(66) == 0x4_0000_0000_0000_0000) by {
        assert(pow2(60) == 0x1000_0000_0000_0000 && pow2(6) == 64);
    }
    let bound = 0x4_0000_0000_0000_0000int;
    assert(2 * p + o >= bound * (2 * o)) by (nonlinear_arith)
        requires
            p >= 50 * pow2(1140),
            pow2(1140) == bound * o,
            o > 0,
            bound > 0,
    ;
    lemma_fundamental_div_mod(2 * p + o, 2 * o);
    let n = (2 * p + o) / (2 * o);
    let r = (2 * p + o) % (2 * o);
    assert(n >= bound) by (nonlinear_arith)
        requires
            2 * p + o >= bound * (2 * o),
            2 * p + o == (2 * o) * n + r,
            0 <= r < 2 * o,
            o > 0,
    ;
}

/// An amount of euros in cents.
pub fn cents_of_euros(euros: Double) -> (r: i64)
    ensures
        r == euro_cents(euros),
{
    let magnitude: u64 = euros.bits % 0x8000_0000_0000_0000;
    if magnitude > 0x7FF0_0000_0000_0000 {
        return 0;
    }
    let r: u128 = unsigned_cents(magnitude);
    if euros.bits >= 0x8000_0000_0000_0000 {
        if r > i64::MAX as u128 {
            i64::MIN
        } else {
            -(r as i64)
        }
    } else if r > i64::MAX as u128 {
        i64::MAX
    } else {
        r as i64
    }
}

// ---------------------------------------------------------------------------
// Prices per surface

/// An integer as a double: the nearest one, halfway to even.
pub open spec fn integer_units(v: int) -> int {
    if v < 0 {
        -as_double(((-v) * one()) as nat, 1)
    } else {
        as_double((v * one()) as nat, 1)
    }
}

fn magnitude_of(v: u64) -> (r: u64)
    ensures
        r < 0x7FF0_0000_0000_0000,
        v > 0 ==> r > 0,
        magnitude_units(r as nat) == as_double((v * one()) as nat, 1),
{
    if v == 0 {
        proof {
            lemma_zero_double(1);
            assert(0 * one() == 0);
        }
        return 0;
    }
    let (n, e) = significand(v);
    let r: u64 = (1022 + e as u64) * STEP + n;
    proof {
        let q = (1022 + e) as int;
        let step = STEP as int;
        assert(r == (q + 1) * step + (n - step)) by (nonlinear_arith)
            requires
                r == q * step + n,
        ;
        lemma_fundamental_div_mod_converse(r as int, step, q + 1, n - step);
    }
    r
}

/// An integer that is not negative as a double.
pub fn unsigned_double(v: u64) -> (r: Double)
    ensures
        r.magnitude() < 0x7FF0_0000_0000_0000,
        r.units() == integer_units(v as int),
        !r.is_negative(),
{
    Double { bits: magnitude_of(v) }
}

/// An integer as a double.
pub fn double_of(v: i64) -> (r: Double)
    ensures
        r.magnitude() < 0x7FF0_0000_0000_0000,
        r.units() == integer_units(v as int),
        r.is_negative() == (v < 0),
        v > 0 ==> r.magnitude() > 0,
{
    if v >= 0 {
        Double { bits: magnitude_of(v as u64) }
    } else {
        let magnitude: u64 = if v == i64::MIN {
            0x8000_0000_0000_0000
        } else {
            (-v) as u64
        };
        Double { bits: 0x8000_0000_0000_0000 + magnitude_of(magnitude) }
    }
}

/// A price divided by a surface of at least one: the quotient in double
/// precision, rounded to whole cents, halves away from zero.
pub fn per_square_metre(price: i64, surface: Double) -> (r: i64)
    requires
        surface.ge(Double { bits: ONE_BITS }),
    ensures
        r == price_ratio(price as int, surface),
{
    if price >= 0 {
        let r: u128 = unsigned_ratio(price as u64, surface);
        if r > i64::MAX as u128 {
            i64::MAX
        } else {
            r as i64
        }
    } else {
        let magnitude: u64 = if price == i64::MIN {
            0x8000_0000_0000_0000
        } else {
            (-price) as u64
        };
        let r: u128 = unsigned_ratio(magnitude, surface);
        if r > i64::MAX as u128 {
            i64::MIN
        } else {
            -(r as i64)
        }
    }
}

// ---------------------------------------------------------------------------
// Laws

/// Rounding gives the nearest integer.
pub proof fn lemma_half_even_nearest(num: int, den: int, k: int)
    requires
        num >= 0,
        den > 0,
    ensures
        vstd::math::abs(half_even(num, den) * den - num) <= vstd::math::abs(k * den - num),
{
    lemma_fundamental_div_mod(num, den);
    let n = num / den;
    let r = num % den;
    let h = half_even(num, den);
    if k <= n {
        assert(k * den <= n * den) by (nonlinear_arith)
            requires
                k <= n,
                den > 0,
        ;
    } else {
        assert(k * den >= n * den + den) by (nonlinear_arith)
            requires
                k >= n + 1,
                den > 0,
        ;
    }
    assert((n + 1) * den == n * den + den) by (nonlinear_arith);
    assert(n * den + r == num) by (nonlinear_arith)
        requires
            num == den * n + r,
    ;
}

/// A double at least as large as a binade's lower end is a multiple of its step.
pub proof fn lemma_multiple(magnitude: nat, q: nat) -> (k: int)
    requires
        magnitude_units(magnitude) >= pow2(52) * pow2(q),
    ensures
        magnitude_units(magnitude) == k * pow2(q),
{
    lemma_pow2_values();
    lemma_pow2_pos(q);
    let exponent = magnitude / STEP as nat;
    let fraction = magnitude % STEP as nat;
    let m = magnitude_units(magnitude);
    if exponent == 0 {
        assert(pow2(52) * pow2(q) >= pow2(52)) by (nonlinear_arith)
            requires
                pow2(q) >= 1,
        ;
        assert(false);
        0
    } else {
        let e = (exponent - 1) as nat;
        if e < q {
            lemma_pow2_adds((q - e) as nat, e);
            lemma_pow2_pos(e);
            assert(pow2((q - e) as nat) >= 2) by {
                if q - e > 1 {
                    vstd::arithmetic::power2::lemma_pow2_strictly_increases(1, (q - e) as nat);
                }
            }
            assert(m < pow2(52) * pow2(q)) by (nonlinear_arith)
                requires
                    m == (fraction + STEP as nat) * pow2(e),
                    fraction + (STEP as nat) < 2 * pow2(52),
                    pow2(q) == pow2((q - e) as nat) * pow2(e),
                    pow2((q - e) as nat) >= 2,
                    pow2(e) > 0,
            ;
            assert(false);
            0
        } else {
            lemma_pow2_adds((e - q) as nat, q);
            let k = ((fraction + STEP as nat) * pow2((e - q) as nat)) as int;
            assert(m == k * pow2(q)) by (nonlinear_arith)
                requires
                    m == (fraction + STEP as nat) * pow2(e),
                    k == (fraction + STEP as nat) * pow2((e - q) as nat),
                    pow2(e) == pow2((e - q) as nat) * pow2(q),
            ;
            k
        }
    }
}

/// Rounding to a double gives the nearest one: no double lies closer to the
/// quotient.
pub proof fn law_rounding_is_to_the_nearest(num: nat, den: nat, other: Double)
    requires
        den > 0,
    ensures
        vstd::math::abs(as_double(num, den) * den - num) <= vstd::math::abs(
            other.units() * den - num,
        ),
{
    let q = binade(num, den);
    let p = pow2(q);
    let w = (den * p) as int;
    let h = half_even(num as int, w);
    let u = other.units();
    lemma_pow2_pos(q);
    lemma_pow2_values();
    lemma_in_binade(num, den);
    assert(w > 0) by (nonlinear_arith)
        requires
            w == den * p,
            den > 0,
            p > 0,
    ;
    assert((h * p) * den == h * w) by (nonlinear_arith)
        requires
            w == den * p,
    ;
    if u >= pow2(52) * p || q == 0 {
        let k = if q == 0 {
            u
        } else {
            lemma_multiple(other.magnitude(), q)
        };
        assert(u * den == k * w) by (nonlinear_arith)
            requires
                u == k * p,
                w == den * p,
        ;
        lemma_half_even_nearest(num as int, w, k);
    } else {
        let low = pow2(52) as int;
        lemma_half_even_nearest(num as int, w, low);
        assert(u * den < low * w) by (nonlinear_arith)
            requires
                u < low * p,
                w == den * p,
                den > 0,
        ;
        assert(low * w <= num);
    }
}

/// What rounding gives is a double, where it is not beyond the largest ones.
pub proof fn law_rounding_gives_a_double(num: nat, den: nat)
    requires
        den > 0,
        binade(num, den) <= 2044,
    ensures
        exists|d: Double| !d.is_nan() && #[trigger] d.units() == as_double(num, den),
{
    let q = binade(num, den);
    let p = pow2(q);
    lemma_pow2_values();
    lemma_pow2_pos(q);
    lemma_in_binade(num, den);
    let w = (den * p) as int;
    assert(w > 0) by (nonlinear_arith)
        requires
            w == den * p,
            den > 0,
            p > 0,
    ;
    let low: int = if q == 0 {
        0
    } else {
        pow2(52) as int
    };
    assert(0 * w <= num) by (nonlinear_arith)
        requires
            num >= 0,
    ;
    lemma_half_even_bounds(num as int, w, low, pow2(53) as int);
    let n = half_even(num as int, w);
    let step = STEP as int;
    let bits = q * step + n;
    assert(0 <= bits < 0x7FF0_0000_0000_0000) by (nonlinear_arith)
        requires
            bits == q * step + n,
            0 <= q <= 2044,
            0 <= n <= 2 * step,
            step == 0x10_0000_0000_0000,
    ;
    let d = Double { bits: bits as u64 };
    assert(d.magnitude() == bits);
    if n < step {
        assert(q == 0);
        assert(bits / step == 0 && bits % step == n);
        assert(n * p == n) by (nonlinear_arith)
            requires
                p == 1,
        ;
    } else if n < 2 * step {
        assert(bits == (q + 1) * step + (n - step)) by (nonlinear_arith)
            requires
                bits == q * step + n,
        ;
        lemma_fundamental_div_mod_converse(bits, step, (q + 1) as int, n - step);
    } else {
        assert(bits == (q + 2) * step) by (nonlinear_arith)
            requires
                bits == q * step + n,
                n == 2 * step,
        ;
        lemma_fundamental_div_mod_converse(bits, step, (q + 2) as int, 0);
        lemma_pow2_unfold((q + 1) as nat);
        assert(step * (2 * p) == n * p) by (nonlinear_arith)
            requires
                n == 2 * step,
        ;
    }
    assert(d.units() == n * p);
}

/// A larger quotient rounds to no smaller a double.
pub proof fn law_rounding_keeps_the_order(a: nat, b: nat, den: nat)
    requires
        den > 0,
        a <= b,
        binade(a, den) <= 2044,
        binade(b, den) <= 2044,
    ensures
        as_double(a, den) <= as_double(b, den),
{
    law_rounding_gives_a_double(a, den);
    law_rounding_gives_a_double(b, den);
    let x = as_double(a, den);
    let y = as_double(b, den);
    let dx = choose|d: Double| !d.is_nan() && #[trigger] d.units() == x;
    let dy = choose|d: Double| !d.is_nan() && #[trigger] d.units() == y;
    law_rounding_is_to_the_nearest(a, den, dy);
    law_rounding_is_to_the_nearest(b, den, dx);
    if x > y {
        assert(x * den > y * den) by (nonlinear_arith)
            requires
                x > y,
                den > 0,
        ;
        assert(a == b);
    }
}

/// A larger integer is no smaller as a double.
pub proof fn lemma_integers_keep_the_order(a: int, b: int)
    requires
        0 <= a <= b <= 0x8000_0000_0000_0000,
    ensures
        0 <= integer_units(a) <= integer_units(b),
{
    lemma_integer_binade(a as nat);
    lemma_integer_binade(b as nat);
    lemma_pow2_pos(1074);
    assert(a * one() <= b * one()) by (nonlinear_arith)
        requires
            a <= b,
            one() > 0,
    ;
    assert(a * one() >= 0) by (nonlinear_arith)
        requires
            a >= 0,
            one() > 0,
    ;
    law_rounding_keeps_the_order((a * one()) as nat, (b * one()) as nat, 1);
    lemma_double_not_negative((a * one()) as nat, 1);
}

/// An integer lies below the largest doubles.
pub proof fn lemma_integer_binade(v: nat)
    requires
        v <= 0x8000_0000_0000_0000,
    ensures
        binade((v * one()) as nat, 1) <= 2044,
{
    let num = (v * one()) as nat;
    lemma_in_binade(num, 1);
    let q = binade(num, 1);
    lemma_pow2_values();
    if q > 2044 {
        lemma_pow2_adds(63, 1074);
        vstd::arithmetic::power2::lemma2_to64_rest();
        lemma_pow2_adds(52, q);
        vstd::arithmetic::power2::lemma_pow2_strictly_increases(1137, (52 + q) as nat);
        assert(1 * pow2(q) == pow2(q));
        assert(v * one() <= pow2(63) * one()) by (nonlinear_arith)
            requires
                v <= pow2(63),
                one() >= 0,
        ;
    }
}

/// The double that a power of two is.
proof fn lemma_power_double(k: nat) -> (d: Double)
    requires
        52 <= k <= 2097,
    ensures
        !d.is_nan(),
        d.units() == pow2(k),
{
    let d = Double { bits: ((k - 51) * 0x10_0000_0000_0000) as u64 };
    lemma_pow2_values();
    lemma_pow2_adds(52, (k - 52) as nat);
    lemma_fundamental_div_mod_converse(d.magnitude() as int, STEP as int, k - 51, 0);
    d
}

/// What is at most a power of two rounds to at most that.
pub proof fn lemma_rounds_to_at_most(num: nat, den: nat, k: nat)
    requires
        den > 0,
        52 <= k <= 2097,
        num <= pow2(k) * den,
    ensures
        as_double(num, den) <= pow2(k),
{
    let d = lemma_power_double(k);
    law_rounding_is_to_the_nearest(num, den, d);
    let u = as_double(num, den);
    if u > pow2(k) {
        assert(u * den > pow2(k) * den) by (nonlinear_arith)
            requires
                u > pow2(k),
                den > 0,
        ;
    }
}

/// What is at least a power of two rounds to at least that.
pub proof fn lemma_rounds_to_at_least(num: nat, den: nat, k: nat)
    requires
        den > 0,
        52 <= k <= 2097,
        num >= pow2(k) * den,
    ensures
        as_double(num, den) >= pow2(k),
{
    let d = lemma_power_double(k);
    law_rounding_is_to_the_nearest(num, den, d);
    let u = as_double(num, den);
    if u < pow2(k) {
        assert(u * den < pow2(k) * den) by (nonlinear_arith)
            requires
                u < pow2(k),
                den > 0,
        ;
    }
}

} // verus!
