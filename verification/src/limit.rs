//! The highest price that counts as a drop: a price less a percentage, in
//! double precision.
use crate::double::{magnitude_units, Double, STEP};
use crate::ratio::{
    as_double, binade, double_of, half_even, integer_units, lemma_binade, lemma_half_even_bounds,
    lemma_half_even_scale, lemma_in_binade, lemma_pow2_values, one, power, round_half_even,
    unsigned_double,
};
use vstd::arithmetic::div_mod::{lemma_fundamental_div_mod, lemma_fundamental_div_mod_converse};
use vstd::arithmetic::power2::{lemma_pow2_adds, lemma_pow2_pos, lemma_pow2_unfold, pow2};
use vstd::prelude::*;

verus! {

/// Infinity, counted in the smallest positive double.
pub open spec fn infinite() -> nat {
    pow2(2098)
}

/// A quotient as a double has it, beyond the largest one infinite.
pub open spec fn rounded(num: nat, den: nat) -> int {
    let u = as_double(num, den);
    if u > infinite() {
        infinite() as int
    } else {
        u
    }
}

/// A quotient with its sign, as a double has it.
pub open spec fn signed_rounded(num: int, den: nat) -> int {
    if num < 0 {
        -rounded((-num) as nat, den)
    } else {
        rounded(num as nat, den)
    }
}

impl Double {
    /// What the double is as a number, the sign of zero aside; nothing where it
    /// is not a number.
    pub open spec fn value(self) -> Option<int> {
        if self.is_nan() {
            None
        } else {
            Some(self.units())
        }
    }
}

/// An infinite value.
pub open spec fn is_infinite(v: int) -> bool {
    v == infinite() || v == -(infinite() as int)
}

/// A value divided by a hundred.
pub open spec fn hundredth_of(a: Option<int>) -> Option<int> {
    match a {
        None => None,
        Some(v) => if is_infinite(v) {
            Some(v)
        } else {
            Some(signed_rounded(v, 100))
        },
    }
}

/// One less a value.
pub open spec fn complement_of(a: Option<int>) -> Option<int> {
    match a {
        None => None,
        Some(v) => if is_infinite(v) {
            Some(-v)
        } else {
            Some(signed_rounded(one() - v, 1))
        },
    }
}

/// A finite value times a value.
pub open spec fn product_of(a: int, b: Option<int>) -> Option<int> {
    match b {
        None => None,
        Some(v) => if is_infinite(v) {
            if a == 0 {
                None
            } else if (a < 0) == (v < 0) {
                Some(infinite() as int)
            } else {
                Some(-(infinite() as int))
            }
        } else {
            Some(signed_rounded(a * v, one()))
        },
    }
}

/// A price less a percentage, each step in double precision.
pub open spec fn limit_of(previous: int, percent: Double) -> Option<int> {
    product_of(integer_units(previous), complement_of(hundredth_of(percent.value())))
}

/// The price has dropped from the previous one by at least the percentage.
pub open spec fn has_dropped(price: int, previous: int, percent: Double) -> bool {
    limit_of(previous, percent) matches Some(limit) && integer_units(price) <= limit
}

// ---------------------------------------------------------------------------
// Lemmas

/// Equal quotients round equally.
proof fn lemma_half_even_equal(a: int, b: int, c: int, d: int)
    requires
        a >= 0,
        c >= 0,
        b > 0,
        d > 0,
        a * d == c * b,
    ensures
        half_even(a, b) == half_even(c, d),
{
    lemma_half_even_scale(a, b, d);
    lemma_half_even_scale(c, d, b);
    assert(b * d == d * b) by (nonlinear_arith);
}

/// A large double takes up what is less than a quarter of its last digit.
proof fn lemma_absorb(m: nat, e: nat, t: int)
    requires
        pow2(52) <= m < pow2(53),
        e >= 2,
        -pow2((e - 2) as nat) < t < pow2((e - 2) as nat),
    ensures
        m * pow2(e) + t >= 0,
        as_double((m * pow2(e) + t) as nat, 1) == m * pow2(e),
{
    lemma_pow2_values();
    lemma_pow2_unfold(e);
    lemma_pow2_unfold((e - 1) as nat);
    lemma_pow2_pos((e - 2) as nat);
    let p = pow2(e) as int;
    let quarter = pow2((e - 2) as nat) as int;
    assert(p == 4 * quarter);
    let v = m * p + t;
    assert(m * p >= pow2(52) * p) by (nonlinear_arith)
        requires
            m >= pow2(52),
            p > 0,
    ;
    assert(pow2(52) * p >= p) by (nonlinear_arith)
        requires
            pow2(52) >= 1,
            p > 0,
    ;
    let num = v as nat;
    if m > pow2(52) || t >= 0 {
        assert(pow2(52) * p <= v < pow2(53) * p) by (nonlinear_arith)
            requires
                v == m * p + t,
                -p < t < p,
                m > pow2(52) || (t >= 0 && m >= pow2(52)),
                m + 1 <= pow2(53),
        ;
        assert(1 * pow2(e) == pow2(e));
        lemma_binade(num, 1, e);
        if t >= 0 {
            lemma_fundamental_div_mod_converse(v, p, m as int, t);
        } else {
            assert(v == (m - 1) * p + (p + t)) by (nonlinear_arith)
                requires
                    v == m * p + t,
            ;
            lemma_fundamental_div_mod_converse(v, p, m - 1, p + t);
        }
        assert(half_even(v, p) == m);
    } else {
        let h = pow2((e - 1) as nat) as int;
        assert(h == 2 * quarter && p == 2 * h);
        assert(v == (pow2(53) - 1) * h + (h + t)) by (nonlinear_arith)
            requires
                v == m * p + t,
                m == pow2(52),
                pow2(53) == 2 * pow2(52),
                p == 2 * h,
        ;
        assert(pow2(52) * h <= v < pow2(53) * h) by (nonlinear_arith)
            requires
                v == (pow2(53) - 1) * h + (h + t),
                0 < h + t < h,
                pow2(53) == 2 * pow2(52),
                pow2(52) >= 1,
        ;
        assert(1 * pow2((e - 1) as nat) == h);
        lemma_binade(num, 1, (e - 1) as nat);
        lemma_fundamental_div_mod_converse(v, h, pow2(53) - 1, h + t);
        assert(half_even(v, h) == pow2(53));
        assert(pow2(53) * h == m * p) by (nonlinear_arith)
            requires
                m == pow2(52),
                pow2(53) == 2 * pow2(52),
                p == 2 * h,
        ;
    }
}

// ---------------------------------------------------------------------------
// Execution

/// The binary digits of a finite magnitude, and the power of two they count.
pub fn digits(magnitude: u64) -> (r: (u64, u32))
    requires
        magnitude < 0x7FF0_0000_0000_0000,
    ensures
        magnitude_units(magnitude as nat) == r.0 * pow2(r.1 as nat),
        r.0 < 0x20_0000_0000_0000,
        r.1 <= 2045,
        r.1 > 0 ==> r.0 >= 0x10_0000_0000_0000,
{
    let fraction: u64 = magnitude % STEP;
    let exponent: u64 = magnitude / STEP;
    proof {
        lemma_pow2_values();
    }
    if exponent == 0 {
        proof {
            assert(fraction * pow2(0) == fraction) by (nonlinear_arith)
                requires
                    pow2(0) == 1,
            ;
        }
        (fraction, 0)
    } else {
        (fraction + STEP, (exponent - 1) as u32)
    }
}

/// The magnitude with these binary digits; infinite where it is too large.
fn pack(n: u128, q: u32) -> (r: u64)
    requires
        n <= 0x20_0000_0000_0000,
        q > 0 ==> n >= 0x10_0000_0000_0000,
    ensures
        r <= 0x7FF0_0000_0000_0000,
        magnitude_units(r as nat) == if n * pow2(q as nat) > infinite() {
            infinite() as int
        } else {
            n * pow2(q as nat)
        },
{
    let ghost step = STEP as int;
    proof {
        lemma_pow2_values();
        lemma_pow2_pos(q as nat);
    }
    if q >= 2046 {
        proof {
            lemma_pow2_adds(52, 2046);
            if q > 2046 {
                vstd::arithmetic::power2::lemma_pow2_strictly_increases(2046, q as nat);
            }
            assert(n * pow2(q as nat) >= pow2(52) * pow2(2046)) by (nonlinear_arith)
                requires
                    n >= pow2(52),
                    pow2(q as nat) >= pow2(2046),
            ;
            lemma_infinite_units();
        }
        return 0x7FF0_0000_0000_0000;
    }
    let r: u64 = q as u64 * STEP + n as u64;
    proof {
        let qi = q as int;
        if n < step {
            assert(r == n);
            assert(n * pow2(0) == n) by (nonlinear_arith)
                requires
                    pow2(0) == 1,
            ;
            lemma_fundamental_div_mod_converse(r as int, step, 0, n as int);
        } else if n < 2 * step {
            assert(r == (qi + 1) * step + (n - step)) by (nonlinear_arith)
                requires
                    r == qi * step + n,
            ;
            lemma_fundamental_div_mod_converse(r as int, step, qi + 1, n - step);
        } else {
            assert(r == (qi + 2) * step) by (nonlinear_arith)
                requires
                    r == qi * step + n,
                    n == 2 * step,
            ;
            lemma_fundamental_div_mod_converse(r as int, step, qi + 2, 0);
            lemma_pow2_unfold((q + 1) as nat);
            assert(step * (2 * pow2(q as nat)) == n * pow2(q as nat)) by (nonlinear_arith)
                requires
                    n == 2 * step,
            ;
        }
        lemma_pow2_adds(53, 2045);
        assert(n * pow2(q as nat) <= infinite()) by {
            if q < 2045 {
                vstd::arithmetic::power2::lemma_pow2_strictly_increases(q as nat, 2045);
            }
            assert(n * pow2(q as nat) <= pow2(53) * pow2(2045)) by (nonlinear_arith)
                requires
                    n <= pow2(53),
                    pow2(q as nat) <= pow2(2045),
            ;
        }
    }
    r
}

proof fn lemma_infinite_units()
    ensures
        magnitude_units(0x7FF0_0000_0000_0000) == infinite(),
{
    lemma_pow2_values();
    lemma_pow2_adds(52, 2046);
    assert(0x7FF0_0000_0000_0000nat / STEP as nat == 2047);
    assert(0x7FF0_0000_0000_0000nat % STEP as nat == 0);
}

/// A quotient in another form, within its binade, is rounded there.
proof fn lemma_rounded_form(whole: nat, den: nat, a: nat, b: nat, q: nat)
    requires
        den > 0,
        b > 0,
        whole * b == a * (den * pow2(q)),
        a < pow2(53) * b,
        q == 0 || a >= pow2(52) * b,
    ensures
        as_double(whole, den) == half_even(a as int, b as int) * pow2(q),
{
    lemma_pow2_pos(q);
    let w = den * pow2(q);
    assert(w > 0) by (nonlinear_arith)
        requires
            w == den * pow2(q),
            den > 0,
            pow2(q) > 0,
    ;
    assert(whole < pow2(53) * w) by (nonlinear_arith)
        requires
            whole * b == a * w,
            a < pow2(53) * b,
            w > 0,
            b > 0,
    ;
    if q > 0 {
        assert(whole >= pow2(52) * w) by (nonlinear_arith)
            requires
                whole * b == a * w,
                a >= pow2(52) * b,
                w > 0,
                b > 0,
        ;
    }
    lemma_binade(whole, den, q);
    lemma_half_even_equal(whole as int, w as int, a as int, b as int);
}

/// The magnitude nearest to a quotient times a power of two, counted in the
/// smallest positive double.
fn nearest_magnitude(num: u128, den: u128, e: u32) -> (r: u64)
    requires
        num < 0x4000_0000_0000_0000_0000_0000_0000,
        0 < den <= 0x8000_0000_0000_0000_0000_0000_0000,
        e == 0 || den <= 0x20_0000_0000_0000,
        e <= 4200,
    ensures
        r <= 0x7FF0_0000_0000_0000,
        magnitude_units(r as nat) == rounded((num * pow2(e as nat)) as nat, den as nat),
{
    let ghost whole = (num * pow2(e as nat)) as nat;
    let mut a: u128 = num;
    let mut b: u128 = den;
    let mut q: u32 = e;
    proof {
        lemma_pow2_values();
        assert(den * pow2(0) == den) by (nonlinear_arith)
            requires
                pow2(0) == 1,
        ;
        assert(num * pow2(0) == num) by (nonlinear_arith)
            requires
                pow2(0) == 1,
        ;
    }
    while a / b >= 0x20_0000_0000_0000
        invariant
            a == num,
            num < 0x4000_0000_0000_0000_0000_0000_0000,
            den > 0,
            b > 0,
            e <= q <= e + 60,
            e <= 4200,
            b == den * pow2((q - e) as nat),
            q > e ==> a >= pow2(52) * b,
            pow2(53) == 0x20_0000_0000_0000,
            pow2(52) == 0x10_0000_0000_0000,
        decreases 60 + e - q,
    {
        proof {
            lemma_fundamental_div_mod(a as int, b as int);
            assert(a >= 0x20_0000_0000_0000 * b) by (nonlinear_arith)
                requires
                    a / b >= 0x20_0000_0000_0000,
                    a == b * (a / b) + a % b,
                    a % b >= 0,
                    b > 0,
            ;
            lemma_pow2_unfold((q - e + 1) as nat);
            assert(den * pow2((q - e + 1) as nat) == 2 * b) by (nonlinear_arith)
                requires
                    b == den * pow2((q - e) as nat),
                    pow2((q - e + 1) as nat) == 2 * pow2((q - e) as nat),
            ;
            vstd::arithmetic::power2::lemma2_to64_rest();
            if q - e == 60 {
                assert(b >= pow2(60)) by (nonlinear_arith)
                    requires
                        b == den * pow2(60),
                        den >= 1,
                ;
            }
        }
        b = b * 2;
        q = q + 1;
    }
    proof {
        lemma_fundamental_div_mod(a as int, b as int);
        assert(a < 0x20_0000_0000_0000 * b) by (nonlinear_arith)
            requires
                a / b < 0x20_0000_0000_0000,
                a == b * (a / b) + a % b,
                a % b < b,
                b > 0,
        ;
    }
    if q > e {
        proof {
            lemma_pow2_adds(e as nat, (q - e) as nat);
            assert(whole * b == a * (den * pow2(q as nat))) by (nonlinear_arith)
                requires
                    whole == num * pow2(e as nat),
                    b == den * pow2((q - e) as nat),
                    a == num,
                    pow2(q as nat) == pow2(e as nat) * pow2((q - e) as nat),
            ;
        }
    } else {
        while q > 0 && a / b < 0x10_0000_0000_0000
            invariant
                b == den,
                den > 0,
                q <= e,
                e == 0 || den <= 0x20_0000_0000_0000,
                a == num * pow2((e - q) as nat),
                a < 0x20_0000_0000_0000 * b,
                pow2(53) == 0x20_0000_0000_0000,
                pow2(52) == 0x10_0000_0000_0000,
            decreases q,
        {
            proof {
                lemma_fundamental_div_mod(a as int, b as int);
                assert(a < 0x10_0000_0000_0000 * b) by (nonlinear_arith)
                    requires
                        a / b < 0x10_0000_0000_0000,
                        a == b * (a / b) + a % b,
                        a % b < b,
                        b > 0,
                ;
                lemma_pow2_unfold((e - q + 1) as nat);
                assert(num * pow2((e - q + 1) as nat) == 2 * a) by (nonlinear_arith)
                    requires
                        a == num * pow2((e - q) as nat),
                        pow2((e - q + 1) as nat) == 2 * pow2((e - q) as nat),
                ;
            }
            a = a * 2;
            q = q - 1;
        }
        proof {
            lemma_fundamental_div_mod(a as int, b as int);
            if q > 0 {
                assert(a >= 0x10_0000_0000_0000 * b) by (nonlinear_arith)
                    requires
                        a / b >= 0x10_0000_0000_0000,
                        a == b * (a / b) + a % b,
                        a % b >= 0,
                        b > 0,
                ;
            }
            lemma_pow2_adds((e - q) as nat, q as nat);
            assert(whole * b == a * (den * pow2(q as nat))) by (nonlinear_arith)
                requires
                    whole == num * pow2(e as nat),
                    b == den,
                    a == num * pow2((e - q) as nat),
                    pow2(e as nat) == pow2((e - q) as nat) * pow2(q as nat),
            ;
        }
    }
    proof {
        lemma_rounded_form(whole, den as nat, a as nat, b as nat, q as nat);
        assert(0 * b <= a);
        let low: int = if q > 0 {
            pow2(52) as int
        } else {
            0
        };
        lemma_half_even_bounds(a as int, b as int, low, pow2(53) as int);
    }
    let n: u128 = round_half_even(a, b);
    pack(n, q)
}

/// A finite magnitude is less than infinity.
pub proof fn lemma_finite(magnitude: nat)
    ensures
        magnitude < 0x7FF0_0000_0000_0000 ==> magnitude_units(magnitude) < infinite(),
        magnitude == 0x7FF0_0000_0000_0000 ==> magnitude_units(magnitude) == infinite(),
{
    lemma_infinite_units();
    crate::double::lemma_units_order(magnitude, 0x7FF0_0000_0000_0000);
}

/// A magnitude with a sign.
fn signed(magnitude: u64, negative: bool) -> (r: Double)
    requires
        magnitude <= 0x7FF0_0000_0000_0000,
    ensures
        r.value() == Some(
            if negative {
                -(magnitude_units(magnitude as nat) as int)
            } else {
                magnitude_units(magnitude as nat) as int
            },
        ),
        r.is_negative() == negative,
{
    if negative {
        Double { bits: 0x8000_0000_0000_0000 + magnitude }
    } else {
        Double { bits: magnitude }
    }
}

proof fn lemma_rounded_zero(den: nat)
    requires
        den > 0,
    ensures
        rounded(0, den) == 0,
{
    crate::ratio::lemma_zero_double(den);
    lemma_pow2_pos(2098);
}

/// `a / 100`.
pub fn hundredth(a: Double) -> (r: Double)
    ensures
        r.value() == hundredth_of(a.value()),
        r.is_negative() == a.is_negative(),
{
    let magnitude: u64 = a.bits % 0x8000_0000_0000_0000;
    proof {
        lemma_finite(magnitude as nat);
        lemma_pow2_pos(2098);
        lemma_rounded_zero(100);
    }
    if magnitude >= 0x7FF0_0000_0000_0000 {
        return a;
    }
    let negative: bool = a.bits >= 0x8000_0000_0000_0000;
    let (m, e) = digits(magnitude);
    let r: u64 = nearest_magnitude(m as u128, 100, e);
    signed(r, negative)
}

/// `1 - a`.
pub fn complement(a: Double) -> (r: Double)
    ensures
        r.value() == complement_of(a.value()),
        a.value() matches Some(v) ==> (v <= one() ==> !r.is_negative()),
{
    let magnitude: u64 = a.bits % 0x8000_0000_0000_0000;
    let negative: bool = a.bits >= 0x8000_0000_0000_0000;
    proof {
        lemma_finite(magnitude as nat);
        lemma_pow2_pos(2098);
        vstd::arithmetic::power2::lemma_pow2_strictly_increases(1074, 2098);
    }
    if magnitude > 0x7FF0_0000_0000_0000 {
        return a;
    }
    if magnitude == 0x7FF0_0000_0000_0000 {
        return signed(magnitude, !negative);
    }
    let (m, e) = digits(magnitude);
    let ghost u = (m * pow2(e as nat)) as int;
    proof {
        lemma_pow2_values();
        lemma_pow2_adds(52, 1022);
        lemma_pow2_pos(e as nat);
        lemma_pow2_pos(1074);
        assert(u == magnitude_units(magnitude as nat));
    }
    if e > 1076 {
        proof {
            let t: int = if negative {
                one() as int
            } else {
                -(one() as int)
            };
            vstd::arithmetic::power2::lemma_pow2_strictly_increases(1074, (e - 2) as nat);
            lemma_absorb(m as nat, e as nat, t);
            vstd::arithmetic::power2::lemma_pow2_strictly_increases(1074, e as nat);
            assert(u >= pow2(e as nat)) by (nonlinear_arith)
                requires
                    u == m * pow2(e as nat),
                    m >= 1,
            ;
        }
        return signed(magnitude, !negative);
    }
    if e <= 967 {
        proof {
            lemma_pow2_adds(53, e as nat);
            if e < 967 {
                vstd::arithmetic::power2::lemma_pow2_strictly_increases((53 + e) as nat, 1020);
            }
            assert(0 <= u < pow2(1020)) by (nonlinear_arith)
                requires
                    u == m * pow2(e as nat),
                    0 <= m < pow2(53),
                    pow2(53) * pow2(e as nat) <= pow2(1020),
                    pow2(e as nat) > 0,
            ;
            let t: int = if negative {
                u
            } else {
                -u
            };
            lemma_absorb(0x10_0000_0000_0000, 1022, t);
            crate::double::law_one_is_one();
            vstd::arithmetic::power2::lemma_pow2_strictly_increases(1074, 2098);
            vstd::arithmetic::power2::lemma_pow2_strictly_increases(1020, 1074);
        }
        return Double { bits: crate::double::ONE_BITS };
    }
    let base: u32 = if e < 1022 {
        e
    } else {
        1022
    };
    let scale: u128 = power(e - base);
    let one_scale: u128 = power(1022 - base);
    proof {
        lemma_pow2_upto((e - base) as nat, 54);
        lemma_pow2_upto((1022 - base) as nat, 54);
        vstd::arithmetic::power2::lemma2_to64_rest();
        assert(pow2(54) == 0x40_0000_0000_0000);
        assert(m * scale <= 0x20_0000_0000_0000 * 0x40_0000_0000_0000) by (nonlinear_arith)
            requires
                0 <= m <= 0x20_0000_0000_0000,
                0 <= scale <= 0x40_0000_0000_0000,
        ;
    }
    let x: u128 = m as u128 * scale;
    let unit: u128 = 0x10_0000_0000_0000 * one_scale;
    let ghost p = pow2(base as nat) as int;
    proof {
        lemma_pow2_pos(base as nat);
        lemma_pow2_adds((e - base) as nat, base as nat);
        lemma_pow2_adds((1022 - base) as nat, base as nat);
        assert(x * p == u) by (nonlinear_arith)
            requires
                x == m * pow2((e - base) as nat),
                p == pow2(base as nat),
                u == m * pow2(e as nat),
                pow2(e as nat) == pow2((e - base) as nat) * pow2(base as nat),
        ;
        assert(unit * p == one()) by (nonlinear_arith)
            requires
                unit == 0x10_0000_0000_0000 * pow2((1022 - base) as nat),
                p == pow2(base as nat),
                one() == 0x10_0000_0000_0000 * pow2(1022),
                pow2(1022) == pow2((1022 - base) as nat) * pow2(base as nat),
        ;
        assert((unit + x) * p == one() + u) by (nonlinear_arith)
            requires
                x * p == u,
                unit * p == one(),
        ;
        assert((unit - x) * p == one() - u) by (nonlinear_arith)
            requires
                x * p == u,
                unit * p == one(),
        ;
        assert((x - unit) * p == u - one()) by (nonlinear_arith)
            requires
                x * p == u,
                unit * p == one(),
        ;
        assert(x > unit ==> u > one()) by (nonlinear_arith)
            requires
                x * p == u,
                unit * p == one(),
                p > 0,
        ;
        assert(x <= unit ==> u <= one()) by (nonlinear_arith)
            requires
                x * p == u,
                unit * p == one(),
                p > 0,
        ;
    }
    if negative {
        signed(nearest_magnitude(unit + x, 1, base), false)
    } else if x <= unit {
        signed(nearest_magnitude(unit - x, 1, base), false)
    } else {
        signed(nearest_magnitude(x - unit, 1, base), true)
    }
}

proof fn lemma_pow2_upto(a: nat, b: nat)
    requires
        a <= b,
    ensures
        pow2(a) <= pow2(b),
{
    if a < b {
        vstd::arithmetic::power2::lemma_pow2_strictly_increases(a, b);
    }
}

/// A common factor changes nothing in a quotient.
proof fn lemma_as_double_scale(num: nat, den: nat, c: nat)
    requires
        den > 0,
        c > 0,
    ensures
        as_double(num * c, den * c) == as_double(num, den),
{
    let q = binade(num, den);
    let p = pow2(q);
    lemma_pow2_pos(q);
    lemma_in_binade(num, den);
    assert(den * c > 0) by (nonlinear_arith)
        requires
            den > 0,
            c > 0,
    ;
    assert((den * c) * p == (den * p) * c) by (nonlinear_arith);
    assert(num * c < pow2(53) * ((den * p) * c)) by (nonlinear_arith)
        requires
            num < pow2(53) * (den * p),
            c > 0,
    ;
    if q > 0 {
        assert(num * c >= pow2(52) * ((den * p) * c)) by (nonlinear_arith)
            requires
                num >= pow2(52) * (den * p),
                c > 0,
        ;
    }
    lemma_binade(num * c, den * c, q);
    assert(den * p > 0) by (nonlinear_arith)
        requires
            den > 0,
            p > 0,
    ;
    lemma_half_even_scale(num as int, (den * p) as int, c as int);
}

/// The magnitude of the product of two magnitudes.
fn product_magnitude(a: u64, b: u64) -> (r: u64)
    requires
        a < 0x7FF0_0000_0000_0000,
        b < 0x7FF0_0000_0000_0000,
    ensures
        r <= 0x7FF0_0000_0000_0000,
        magnitude_units(r as nat) == rounded(
            magnitude_units(a as nat) * magnitude_units(b as nat),
            one(),
        ),
{
    let (m, e) = digits(a);
    let (n, f) = digits(b);
    let sum: u32 = e + f;
    let ghost whole = magnitude_units(a as nat) * magnitude_units(b as nat);
    proof {
        assert(m * n <= 0x20_0000_0000_0000 * 0x20_0000_0000_0000) by (nonlinear_arith)
            requires
                0 <= m <= 0x20_0000_0000_0000,
                0 <= n <= 0x20_0000_0000_0000,
        ;
        lemma_pow2_adds(e as nat, f as nat);
        lemma_pow2_pos(1074);
        assert(whole == (m * n) * pow2(sum as nat)) by (nonlinear_arith)
            requires
                whole == (m * pow2(e as nat)) * (n * pow2(f as nat)),
                pow2(sum as nat) == pow2(e as nat) * pow2(f as nat),
        ;
    }
    let p: u128 = m as u128 * n as u128;
    if sum >= 1074 {
        let shift: u32 = sum - 1074;
        proof {
            lemma_pow2_adds(shift as nat, 1074);
            let v = (p * pow2(shift as nat)) as nat;
            assert(whole == v * one()) by (nonlinear_arith)
                requires
                    whole == p * pow2(sum as nat),
                    v == p * pow2(shift as nat),
                    pow2(sum as nat) == pow2(shift as nat) * one(),
            ;
            lemma_as_double_scale(v, 1, one());
            assert(1 * one() == one());
        }
        return nearest_magnitude(p, 1, shift);
    }
    let d: u32 = 1074 - sum;
    proof {
        lemma_pow2_adds(d as nat, sum as nat);
        lemma_pow2_pos(sum as nat);
        lemma_pow2_pos(d as nat);
        lemma_as_double_scale(p as nat, pow2(d as nat), pow2(sum as nat));
        lemma_pow2_values();
        assert(p * pow2(0) == p) by (nonlinear_arith)
            requires
                pow2(0) == 1,
        ;
    }
    if d > 111 {
        proof {
            lemma_pow2_adds(54, 54);
            lemma_pow2_upto(108, d as nat);
            vstd::arithmetic::power2::lemma2_to64_rest();
            assert(pow2(54) == 0x40_0000_0000_0000);
            assert(pow2(108) == 0x40_0000_0000_0000 * 0x40_0000_0000_0000);
            let den = pow2(d as nat);
            assert(p < pow2(53) * den) by (nonlinear_arith)
                requires
                    p < den,
                    pow2(53) >= 1,
                    den > 0,
            ;
            assert(den * pow2(0) == den) by (nonlinear_arith)
                requires
                    pow2(0) == 1,
            ;
            lemma_binade(p as nat, den, 0);
            lemma_fundamental_div_mod_converse(p as int, den as int, 0, p as int);
            assert(half_even(p as int, den as int) == 0);
            assert(0 * pow2(0) == 0);
            crate::double::lemma_zero_units();
            lemma_pow2_pos(2098);
        }
        return 0;
    }
    let den: u128 = power(d);
    proof {
        lemma_pow2_upto(d as nat, 111);
        lemma_pow2_adds(57, 54);
        vstd::arithmetic::power2::lemma2_to64_rest();
        assert(pow2(57) == 0x200_0000_0000_0000 && pow2(54) == 0x40_0000_0000_0000);
        assert(0x200_0000_0000_0000nat * 0x40_0000_0000_0000nat
            == 0x8000_0000_0000_0000_0000_0000_0000nat) by (nonlinear_arith);
    }
    nearest_magnitude(p, den, 0)
}

/// `a * b`, for a finite `a`.
pub fn product(a: Double, b: Double) -> (r: Double)
    requires
        a.magnitude() < 0x7FF0_0000_0000_0000,
    ensures
        r.value() == product_of(a.units(), b.value()),
        !a.is_negative() && !b.is_negative() ==> !r.is_negative(),
{
    let am: u64 = a.bits % 0x8000_0000_0000_0000;
    let bm: u64 = b.bits % 0x8000_0000_0000_0000;
    let an: bool = a.bits >= 0x8000_0000_0000_0000;
    let bn: bool = b.bits >= 0x8000_0000_0000_0000;
    let ghost x = magnitude_units(am as nat) as int;
    let ghost y = magnitude_units(bm as nat) as int;
    proof {
        lemma_finite(bm as nat);
        lemma_pow2_pos(2098);
        lemma_pow2_pos(1074);
        crate::double::lemma_zero_units();
        crate::double::lemma_units_order(0, am as nat);
    }
    if bm > 0x7FF0_0000_0000_0000 {
        return b;
    }
    if bm == 0x7FF0_0000_0000_0000 {
        if am == 0 {
            return Double { bits: 0x7FF8_0000_0000_0000 };
        }
        return signed(bm, an != bn);
    }
    let r: u64 = product_magnitude(am, bm);
    proof {
        assert((-x) * y == -(x * y)) by (nonlinear_arith);
        assert(x * (-y) == -(x * y)) by (nonlinear_arith);
        assert((-x) * (-y) == x * y) by (nonlinear_arith);
        assert(x * y >= 0) by (nonlinear_arith)
            requires
                x >= 0,
                y >= 0,
        ;
        lemma_rounded_zero(one());
    }
    signed(r, an != bn)
}

/// A finite value divided by a positive finite one.
pub open spec fn quotient_of(a: int, b: int) -> int {
    signed_rounded(a * one(), b as nat)
}

/// The sum of two values that are not negative, the first one finite.
pub open spec fn sum_of(a: int, b: int) -> int {
    if b == infinite() {
        b
    } else {
        rounded((a + b) as nat, 1)
    }
}

/// The magnitude of the quotient of two magnitudes.
fn quotient_magnitude(a: u64, b: u64) -> (r: u64)
    requires
        a < 0x7FF0_0000_0000_0000,
        0 < b < 0x7FF0_0000_0000_0000,
    ensures
        r <= 0x7FF0_0000_0000_0000,
        magnitude_units(r as nat) == rounded(
            magnitude_units(a as nat) * one(),
            magnitude_units(b as nat),
        ),
{
    let (m, e) = digits(a);
    let (n, f) = digits(b);
    let ghost num = magnitude_units(a as nat) * one();
    let ghost den = magnitude_units(b as nat);
    proof {
        crate::double::lemma_zero_units();
        crate::double::lemma_units_order(0, b as nat);
        lemma_pow2_pos(f as nat);
        lemma_pow2_pos(1074);
        assert(n > 0) by (nonlinear_arith)
            requires
                n * pow2(f as nat) > 0,
                n >= 0,
        ;
        lemma_pow2_adds(e as nat, 1074);
        assert(num == m * pow2((e + 1074) as nat)) by (nonlinear_arith)
            requires
                num == (m * pow2(e as nat)) * one(),
                pow2((e + 1074) as nat) == pow2(e as nat) * one(),
        ;
    }
    if e + 1074 >= f {
        let shift: u32 = e + 1074 - f;
        proof {
            lemma_pow2_adds(shift as nat, f as nat);
            let v = (m * pow2(shift as nat)) as nat;
            assert(num == v * pow2(f as nat)) by (nonlinear_arith)
                requires
                    num == m * pow2((e + 1074) as nat),
                    v == m * pow2(shift as nat),
                    pow2((e + 1074) as nat) == pow2(shift as nat) * pow2(f as nat),
            ;
            lemma_as_double_scale(v, n as nat, pow2(f as nat));
        }
        return nearest_magnitude(m as u128, n as u128, shift);
    }
    let d: u32 = f - (e + 1074);
    let ghost c = pow2((e + 1074) as nat);
    proof {
        lemma_pow2_adds(d as nat, (e + 1074) as nat);
        lemma_pow2_pos(d as nat);
        lemma_pow2_pos((e + 1074) as nat);
        lemma_pow2_values();
        let w = (n * pow2(d as nat)) as nat;
        assert(den == w * c) by (nonlinear_arith)
            requires
                den == n * pow2(f as nat),
                w == n * pow2(d as nat),
                pow2(f as nat) == pow2(d as nat) * c,
        ;
        assert(w >= pow2(d as nat)) by (nonlinear_arith)
            requires
                w == n * pow2(d as nat),
                n >= 1,
        ;
        lemma_as_double_scale(m as nat, w, c);
        assert(m * pow2(0) == m) by (nonlinear_arith)
            requires
                pow2(0) == 1,
        ;
    }
    if d > 57 {
        proof {
            let w = (n * pow2(d as nat)) as nat;
            lemma_pow2_upto(57, d as nat);
            vstd::arithmetic::power2::lemma2_to64_rest();
            assert(pow2(57) == 0x200_0000_0000_0000);
            assert(m < pow2(53) * w) by (nonlinear_arith)
                requires
                    m < w,
                    pow2(53) >= 1,
                    w > 0,
            ;
            assert(w * pow2(0) == w) by (nonlinear_arith)
                requires
                    pow2(0) == 1,
            ;
            lemma_binade(m as nat, w, 0);
            lemma_fundamental_div_mod_converse(m as int, w as int, 0, m as int);
            assert(half_even(m as int, w as int) == 0);
            assert(0 * pow2(0) == 0);
            lemma_pow2_pos(2098);
        }
        return 0;
    }
    let scale: u128 = power(d);
    proof {
        lemma_pow2_upto(d as nat, 57);
        vstd::arithmetic::power2::lemma2_to64_rest();
        assert(pow2(57) == 0x200_0000_0000_0000);
        assert(n * scale <= 0x20_0000_0000_0000 * 0x200_0000_0000_0000) by (nonlinear_arith)
            requires
                0 <= n <= 0x20_0000_0000_0000,
                0 <= scale <= 0x200_0000_0000_0000,
        ;
        assert(n * scale > 0) by (nonlinear_arith)
            requires
                n > 0,
                scale > 0,
        ;
    }
    nearest_magnitude(m as u128, n as u128 * scale, 0)
}

/// `a / b`, for a finite `a` and a positive finite `b`.
pub fn quotient(a: Double, b: Double) -> (r: Double)
    requires
        a.magnitude() < 0x7FF0_0000_0000_0000,
        0 < b.magnitude() < 0x7FF0_0000_0000_0000,
        !b.is_negative(),
    ensures
        r.value() == Some(quotient_of(a.units(), b.units())),
        !a.is_negative() ==> !r.is_negative(),
{
    let am: u64 = a.bits % 0x8000_0000_0000_0000;
    let r: u64 = quotient_magnitude(am, b.bits);
    let ghost x = magnitude_units(am as nat) as int;
    proof {
        lemma_pow2_pos(1074);
        assert((-x) * one() == -(x * one())) by (nonlinear_arith);
        assert(x * one() >= 0) by (nonlinear_arith)
            requires
                x >= 0,
                one() >= 0,
        ;
        crate::double::lemma_zero_units();
        crate::double::lemma_units_order(0, b.bits as nat);
        lemma_rounded_zero(magnitude_units(b.magnitude()));
    }
    signed(r, a.bits >= 0x8000_0000_0000_0000)
}

/// `a + b`, for values that are not negative, the first one finite.
pub fn sum(a: Double, b: Double) -> (r: Double)
    requires
        a.magnitude() < 0x7FF0_0000_0000_0000,
        b.magnitude() <= 0x7FF0_0000_0000_0000,
        !a.is_negative(),
        !b.is_negative(),
    ensures
        r.value() == Some(sum_of(a.units(), b.units())),
        !r.is_negative(),
{
    proof {
        lemma_finite(b.bits as nat);
        lemma_finite(a.bits as nat);
        lemma_pow2_values();
    }
    if b.bits == 0x7FF0_0000_0000_0000 {
        return b;
    }
    let (x, e) = digits(a.bits);
    let (y, f) = digits(b.bits);
    // The larger last digit first.
    let (m, g, n, h): (u64, u32, u64, u32) = if e >= f {
        (x, e, y, f)
    } else {
        (y, f, x, e)
    };
    let ghost u = (m * pow2(g as nat)) as int;
    let ghost v = (n * pow2(h as nat)) as int;
    proof {
        assert(u + v == a.units() + b.units());
        lemma_pow2_pos(g as nat);
        lemma_pow2_pos(h as nat);
        assert(v >= 0) by (nonlinear_arith)
            requires
                v == n * pow2(h as nat),
                n >= 0,
                pow2(h as nat) > 0,
        ;
    }
    if g - h > 55 {
        proof {
            lemma_pow2_adds(53, h as nat);
            lemma_pow2_upto((53 + h) as nat, (g - 3) as nat);
            vstd::arithmetic::power2::lemma_pow2_strictly_increases(
                (g - 3) as nat,
                (g - 2) as nat,
            );
            assert(v < pow2((g - 2) as nat)) by (nonlinear_arith)
                requires
                    v == n * pow2(h as nat),
                    n < pow2(53),
                    pow2(53) * pow2(h as nat) < pow2((g - 2) as nat),
                    pow2(h as nat) > 0,
            ;
            lemma_absorb(m as nat, g as nat, v);
        }
        return if e >= f {
            a
        } else {
            b
        };
    }
    let scale: u128 = power(g - h);
    proof {
        lemma_pow2_upto((g - h) as nat, 55);
        vstd::arithmetic::power2::lemma2_to64_rest();
        assert(pow2(55) == 0x80_0000_0000_0000);
        assert(m * scale <= 0x20_0000_0000_0000 * 0x80_0000_0000_0000) by (nonlinear_arith)
            requires
                0 <= m <= 0x20_0000_0000_0000,
                0 <= scale <= 0x80_0000_0000_0000,
        ;
        lemma_pow2_adds((g - h) as nat, h as nat);
        assert((m * scale + n) * pow2(h as nat) == u + v) by (nonlinear_arith)
            requires
                u == m * pow2(g as nat),
                v == n * pow2(h as nat),
                scale == pow2((g - h) as nat),
                pow2(g as nat) == pow2((g - h) as nat) * pow2(h as nat),
        ;
    }
    signed(nearest_magnitude(m as u128 * scale + n as u128, 1, h), false)
}

/// The bits of `100.0`.
pub const HUNDRED_BITS: u64 = 0x4059_0000_0000_0000;

/// A part of a whole in percent, in double precision: the quotient, times a
/// hundred.
pub open spec fn percent_of(part: int, whole: int) -> Option<int> {
    product_of(
        (Double { bits: HUNDRED_BITS }).units(),
        Some(quotient_of(integer_units(part), integer_units(whole))),
    )
}

/// A part of a whole in percent, neither of them negative.
pub fn percent(part: u64, whole: i64) -> (r: Double)
    requires
        whole > 0,
    ensures
        r.value() == percent_of(part as int, whole as int),
        !r.is_negative(),
{
    let p = unsigned_double(part);
    let w = double_of(whole);
    product(Double { bits: HUNDRED_BITS }, quotient(p, w))
}

/// The highest price that counts as a drop from the previous one by at least
/// the percentage, as a double.
pub fn drop_limit(previous: i64, percent: Double) -> (r: Double)
    ensures
        r.value() == limit_of(previous as int, percent),
{
    let p = double_of(previous);
    product(p, complement(hundredth(percent)))
}

/// Has the price dropped from the previous one by at least the percentage?
pub fn dropped(price: i64, previous: i64, percent: Double) -> (r: bool)
    ensures
        r == has_dropped(price as int, previous as int, percent),
{
    let limit = drop_limit(previous, percent);
    limit.at_least(double_of(price))
}

/// A lower price has dropped too.
pub proof fn law_lower_prices_have_dropped_too(
    lower: i64,
    price: i64,
    previous: int,
    percent: Double,
)
    requires
        lower <= price,
        has_dropped(price as int, previous, percent),
    ensures
        has_dropped(lower as int, previous, percent),
{
    if lower >= 0 {
        crate::ratio::lemma_integers_keep_the_order(lower as int, price as int);
    } else if price < 0 {
        crate::ratio::lemma_integers_keep_the_order(-(price as int), -(lower as int));
    } else {
        crate::ratio::lemma_integers_keep_the_order(0, -(lower as int));
        crate::ratio::lemma_integers_keep_the_order(0, price as int);
    }
}

/// A double that is not negative is its magnitude.
proof fn lemma_positive(d: Double)
    requires
        d.units() > 0,
    ensures
        d.units() == magnitude_units(d.magnitude()),
        d.magnitude() < 0x8000_0000_0000_0000,
{
}

/// A double below one lies below it by one in the last of its digits.
proof fn lemma_below_one(d: Double)
    requires
        0 < d.units() < one(),
    ensures
        d.units() + pow2(1021) <= one(),
{
    lemma_pow2_adds(52, 1021);
    lemma_pow2_adds(53, 1021);
    lemma_pow2_values();
    lemma_pow2_unfold(1074);
    lemma_pow2_unfold(1073);
    lemma_pow2_pos(1021);
    lemma_pow2_upto(1021, 1073);
    lemma_positive(d);
    if d.units() >= pow2(1073) {
        let k = crate::ratio::lemma_multiple(d.magnitude(), 1021);
        let w = pow2(1021) as int;
        assert(k < pow2(53)) by (nonlinear_arith)
            requires
                k * w < pow2(53) * w,
                w > 0,
        ;
        assert(k * w + w <= pow2(53) * w) by (nonlinear_arith)
            requires
                k + 1 <= pow2(53),
                w > 0,
        ;
    }
}

/// A product with what lies below one is closer to the double before than to
/// the double itself.
proof fn lemma_closer_to_the_one_before(d: Double, v: int) -> (before: Double)
    requires
        d.units() >= one(),
        0 < v,
        v + pow2(1021) <= one(),
    ensures
        before.units() < d.units(),
        2 * (d.units() * v) < (d.units() + before.units()) * one(),
{
    lemma_positive(d);
    lemma_pow2_values();
    let step = STEP as int;
    let m = d.magnitude() as int;
    let e = m / step;
    let f = m % step;
    let p = d.units();
    let w = pow2(1021) as int;
    let o = one() as int;
    lemma_pow2_adds(53, 1021);
    lemma_pow2_pos(1021);
    lemma_pow2_upto(53, 1074);
    assert(pow2(53) == 2 * step);
    assert(e >= 2) by {
        if e <= 1 {
            assert(p < pow2(53)) by {
                if e == 1 {
                    assert(p == (f + step) * pow2(0));
                }
            }
        }
    }
    let g = pow2((e - 1) as nat) as int;
    let h = pow2((e - 2) as nat) as int;
    lemma_pow2_unfold((e - 1) as nat);
    lemma_pow2_pos((e - 2) as nat);
    assert(g == 2 * h);
    assert(p == (f + step) * g);
    assert(p * v <= p * o - p * w) by (nonlinear_arith)
        requires
            p > 0,
            v <= o - w,
    ;
    let before = Double { bits: (d.magnitude() - 1) as u64 };
    lemma_fundamental_div_mod(m, step);
    assert(before.magnitude() == m - 1);
    if f > 0 {
        assert(m - 1 == e * step + (f - 1)) by (nonlinear_arith)
            requires
                m == step * e + f,
        ;
        lemma_fundamental_div_mod_converse(m - 1, step, e, f - 1);
        let b = before.units();
        assert(b == (f - 1 + step) * g);
        assert(b == p - g) by (nonlinear_arith)
            requires
                b == (f - 1 + step) * g,
                p == (f + step) * g,
        ;
        assert(2 * (p * w) > g * o) by (nonlinear_arith)
            requires
                p == (f + step) * g,
                f > 0,
                g > 0,
                w > 0,
                o == (2 * step) * w,
        ;
        assert((p + b) * o == 2 * (p * o) - g * o) by (nonlinear_arith)
            requires
                b == p - g,
        ;
    } else {
        assert(m - 1 == (e - 1) * step + (step - 1)) by (nonlinear_arith)
            requires
                m == step * e + f,
                f == 0,
        ;
        lemma_fundamental_div_mod_converse(m - 1, step, e - 1, step - 1);
        let b = before.units();
        assert(b == (step - 1 + step) * h);
        assert(b == p - h) by (nonlinear_arith)
            requires
                b == (step - 1 + step) * h,
                p == (f + step) * g,
                f == 0,
                g == 2 * h,
        ;
        assert(p * w == h * o) by (nonlinear_arith)
            requires
                p == (f + step) * g,
                f == 0,
                g == 2 * h,
                o == (2 * step) * w,
        ;
        assert(h * o > 0) by (nonlinear_arith)
            requires
                h > 0,
                o > 0,
        ;
        assert((p + b) * o == 2 * (p * o) - h * o) by (nonlinear_arith)
            requires
                b == p - h,
        ;
    }
    before
}

/// A positive price that stays as it is has not dropped, however small the
/// percentage, as long as one less it is below one in double precision.
pub proof fn law_an_unchanged_price_has_not_dropped(price: i64, percent: Double)
    requires
        price > 0,
        complement_of(hundredth_of(percent.value())) matches Some(v) ==> v < one(),
    ensures
        !has_dropped(price as int, price as int, percent),
{
    let whole = (price * one()) as nat;
    let p = integer_units(price as int);
    lemma_pow2_pos(1074);
    lemma_pow2_pos(2098);
    assert(price * one() >= one()) by (nonlinear_arith)
        requires
            price >= 1,
            one() > 0,
    ;
    crate::ratio::lemma_rounds_to_at_least(whole, 1, 1074);
    crate::ratio::lemma_integer_binade(price as nat);
    crate::ratio::law_rounding_gives_a_double(whole, 1);
    let d = choose|d: Double| !d.is_nan() && #[trigger] d.units() == p;
    assert(d.units() == p && p >= one());
    let c = complement_of(hundredth_of(percent.value()));
    if c is Some && !is_infinite(c->0) {
        let v = c->0;
        if v <= 0 {
            assert(p * v <= 0) by (nonlinear_arith)
                requires
                    p > 0,
                    v <= 0,
            ;
            crate::ratio::lemma_double_not_negative((-(p * v)) as nat, one());
            lemma_rounded_zero(one());
        } else {
            let num = (p * v) as nat;
            lemma_complement_double(percent);
            let dv = choose|d: Double| #[trigger] d.units() == v;
            lemma_below_one(dv);
            let before = lemma_closer_to_the_one_before(d, v);
            assert(p * v >= 0) by (nonlinear_arith)
                requires
                    p > 0,
                    v > 0,
            ;
            let u = as_double(num, one());
            let b = before.units();
            let o = one() as int;
            crate::ratio::law_rounding_is_to_the_nearest(num, one(), before);
            if u >= p {
                assert(u * o >= p * o) by (nonlinear_arith)
                    requires
                        u >= p,
                        o > 0,
                ;
                assert(b * o < p * o) by (nonlinear_arith)
                    requires
                        b < p,
                        o > 0,
                ;
                assert((p + b) * o == p * o + b * o) by (nonlinear_arith);
            }
        }
    }
}

/// One less a fraction is a double, where it lies between nothing and one.
proof fn lemma_complement_double(percent: Double)
    requires
        complement_of(hundredth_of(percent.value())) matches Some(v) && 0 < v < one(),
    ensures
        exists|d: Double| #[trigger] d.units() == complement_of(hundredth_of(percent.value()))->0,
{
    let h = hundredth_of(percent.value())->0;
    let v = complement_of(hundredth_of(percent.value()))->0;
    lemma_pow2_upto(1074, 2098);
    lemma_pow2_pos(1074);
    assert(!is_infinite(h));
    let num = one() - h;
    if num < 0 {
        crate::ratio::lemma_double_not_negative((-num) as nat, 1);
    } else {
        let q = binade(num as nat, 1);
        assert(v == as_double(num as nat, 1)) by {
            vstd::arithmetic::power2::lemma_pow2_strictly_increases(1074, 2098);
        }
        if q > 2044 {
            lemma_in_binade(num as nat, 1);
            lemma_pow2_values();
            lemma_pow2_adds(52, q);
            assert(1 * pow2(q) == pow2(q));
            lemma_pow2_upto(1074, (52 + q) as nat);
            assert(num * 1 >= pow2(1074) * 1);
            crate::ratio::lemma_rounds_to_at_least(num as nat, 1, 1074);
        }
        crate::ratio::law_rounding_gives_a_double(num as nat, 1);
        let d = choose|d: Double| !d.is_nan() && #[trigger] d.units() == as_double(num as nat, 1);
        assert(d.units() == v);
    }
}

} // verus!
