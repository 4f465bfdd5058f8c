//! Numbers: prices by surface, drops by percentage, amounts in cents.
use crate::double::{lemma_units_order, magnitude_units, Double};
use crate::fixed::{fixed_text, pointed, power10};
use crate::limit::{complement_of, has_dropped, hundredth_of, infinite, is_infinite, limit_of};
use crate::listing::{Listing, Timestamp};
use crate::ratio::{
    as_double, binade, euro_cents, half_even, half_up, integer_units, law_rounding_gives_a_double,
    law_rounding_is_to_the_nearest, lemma_double_not_negative, lemma_exact, lemma_in_binade,
    lemma_integer_binade, lemma_pow2_values, lemma_rounds_to_at_least, lemma_rounds_to_at_most,
    lemma_zero_double, one, price_ratio,
};
use crate::text::decimal;
use crate::ui::status::whole_minutes;
use vstd::arithmetic::div_mod::{lemma_fundamental_div_mod, lemma_fundamental_div_mod_converse};
use vstd::arithmetic::power2::{
    lemma_pow2_adds, lemma_pow2_pos, lemma_pow2_strictly_increases, lemma_pow2_unfold, pow2,
};
use vstd::math::abs;
use vstd::prelude::*;

verus! {

// ---------------------------------------------------------------------------
// Exact values

proof fn lemma_log(v: nat) -> (e: nat)
    requires
        1 <= v < pow2(53),
    ensures
        e <= 52,
        pow2(e) <= v < 2 * pow2(e),
    decreases v,
{
    lemma_pow2_values();
    if v == 1 {
        0
    } else {
        let e = lemma_log(v / 2);
        lemma_pow2_unfold(e + 1);
        if e + 1 > 52 {
            assert(pow2(53) <= v);
        }
        e + 1
    }
}

/// An integer of 53 binary digits is a double as it is.
pub proof fn lemma_integers_are_exact(v: nat)
    requires
        v < pow2(53),
    ensures
        as_double((v * one()) as nat, 1) == v * one(),
        integer_units(v as int) == v * one(),
{
    assert(v * one() >= 0) by (nonlinear_arith);
    if v == 0 {
        assert(v * one() == 0) by (nonlinear_arith)
            requires
                v == 0,
        ;
        lemma_zero_double(1);
    } else {
        let e = lemma_log(v);
        lemma_exact(v, e);
        lemma_pow2_adds((52 - e) as nat, (1022 + e) as nat);
        assert((v * pow2((52 - e) as nat)) * pow2((1022 + e) as nat) == v * (pow2((52 - e) as nat)
            * pow2((1022 + e) as nat))) by (nonlinear_arith);
    }
}

/// An integer of 53 binary digits, as a double.
proof fn lemma_integer_double(v: nat) -> (d: Double)
    requires
        v < pow2(53),
    ensures
        d.units() == v * one(),
{
    lemma_pow2_values();
    lemma_integers_are_exact(v);
    lemma_integer_binade(v);
    law_rounding_gives_a_double((v * one()) as nat, 1);
    choose|d: Double| !d.is_nan() && #[trigger] d.units() == as_double((v * one()) as nat, 1)
}

proof fn lemma_half_up_exact(v: int)
    ensures
        half_up(v * one(), one() as int) == v,
{
    lemma_pow2_pos(1074);
    let o = one() as int;
    assert(2 * (v * o) + o == v * (2 * o) + o) by (nonlinear_arith);
    lemma_fundamental_div_mod_converse(2 * (v * o) + o, 2 * o, v, o);
}

/// A price that is a whole number of cents per square metre is shown as that
/// number: the ratio times the surface is the price.
pub proof fn law_ratio_times_surface_is_the_price(ratio: nat, surface: nat, s: Double)
    requires
        surface >= 1,
        ratio * surface < pow2(53),
        surface < pow2(53),
        s.units() == surface * one(),
    ensures
        price_ratio((ratio * surface) as int, s) == ratio,
        price_ratio(-((ratio * surface) as int), s) == -(ratio as int),
{
    let o = one() as int;
    lemma_pow2_pos(1074);
    lemma_pow2_values();
    let price = ratio * surface;
    assert(ratio <= price) by (nonlinear_arith)
        requires
            price == ratio * surface,
            surface >= 1,
            ratio >= 0,
    ;
    lemma_integers_are_exact(price as nat);
    let d = lemma_integer_double(ratio);
    let p = as_double((price * o) as nat, 1);
    let den = surface * o;
    assert(den > 0) by (nonlinear_arith)
        requires
            den == surface * o,
            surface >= 1,
            o > 0,
    ;
    assert(s.units() == magnitude_units(s.magnitude()));
    let num = p * o;
    assert(num >= 0) by (nonlinear_arith)
        requires
            num == (price * o) * o,
            price >= 0,
            o > 0,
            p == price * o,
            num == p * o,
    ;
    assert((ratio * o) * den == num) by (nonlinear_arith)
        requires
            den == surface * o,
            price == ratio * surface,
            p == price * o,
            num == p * o,
    ;
    law_rounding_is_to_the_nearest(num as nat, den as nat, d);
    let q = as_double(num as nat, den as nat);
    assert(q == ratio * o) by (nonlinear_arith)
        requires
            q * den == (ratio * o) * den,
            den > 0,
    ;
    lemma_half_up_exact(ratio as int);
    if price == 0 {
        assert(ratio == 0) by (nonlinear_arith)
            requires
                ratio * surface == 0,
                surface >= 1,
        ;
    }
}

/// A listing has a price per square metre exactly where its surface is known and
/// at least one square metre, and it is that of its price and its surface.
pub proof fn law_plausible_surfaces_have_a_ratio(l: Listing)
    ensures
        l.m2_cents() is Some <==> l.surface_m2 is Some && !l.surface_m2->0.is_nan()
            && l.surface_m2->0.units() >= one(),
        l.m2_cents() matches Some(m2) ==> m2 == price_ratio(
            l.price_cents as int,
            l.surface_m2->0,
        ),
{
    crate::double::law_one_is_one();
}

// ---------------------------------------------------------------------------
// Rounded values

/// What is rounded is off by no more than one part in two to the power of 53.
pub proof fn lemma_relative(num: nat, den: nat)
    requires
        den > 0,
        num >= pow2(52) * den,
    ensures
        pow2(53) * abs(as_double(num, den) * den - num) <= num,
{
    let q = binade(num, den);
    let p = pow2(q) as int;
    lemma_pow2_pos(q);
    lemma_pow2_values();
    lemma_in_binade(num, den);
    let w = den * p;
    assert(w > 0) by (nonlinear_arith)
        requires
            w == den * p,
            den > 0,
            p > 0,
    ;
    if q == 0 {
        assert(w == den) by (nonlinear_arith)
            requires
                w == den * p,
                p == 1,
        ;
    }
    let h = half_even(num as int, w);
    lemma_half(num as int, w);
    assert((h * p) * den == h * w) by (nonlinear_arith)
        requires
            w == den * p,
    ;
    let off = abs(h * w - num);
    assert(pow2(53) * off <= pow2(52) * w) by (nonlinear_arith)
        requires
            2 * off <= w,
            pow2(53) == 2 * pow2(52),
    ;
}

proof fn lemma_half(num: int, den: int)
    requires
        num >= 0,
        den > 0,
    ensures
        2 * abs(half_even(num, den) * den - num) <= den,
{
    lemma_fundamental_div_mod(num, den);
    let n = num / den;
    let r = num % den;
    assert((n + 1) * den == n * den + den) by (nonlinear_arith);
    assert(n * den == den * n) by (nonlinear_arith);
}

/// An amount of euros that is written in cents is worth those cents: the double
/// nearest to a hundredth of them gives them back.
pub proof fn law_euros_are_worth_their_cents(cents: nat, euros: Double)
    requires
        cents < pow2(50),
        !euros.is_negative(),
        !euros.is_nan(),
        euros.units() == as_double((cents * one()) as nat, 100),
    ensures
        euro_cents(euros) == cents,
{
    let o = one() as int;
    lemma_pow2_pos(1074);
    lemma_pow2_values();
    lemma_pow2_adds(50, 3);
    lemma_pow2_adds(52, 1022);
    vstd::arithmetic::power2::lemma2_to64();
    lemma_pow2_strictly_increases(10, 1022);
    assert(cents * o >= 0) by (nonlinear_arith)
        requires
            cents >= 0,
            o > 0,
    ;
    let num = (cents * one()) as nat;
    let u = as_double(num, 100);
    lemma_double_not_negative(num, 100);
    assert(euros.units() == magnitude_units(euros.magnitude()));
    if cents == 0 {
        assert(num == 0) by (nonlinear_arith)
            requires
                num == cents * one(),
                cents == 0,
        ;
        lemma_zero_double(100);
        lemma_zero_double(1);
        lemma_half_up_exact(0);
    } else {
        assert(o >= pow2(52) * 1024) by (nonlinear_arith)
            requires
                o == pow2(52) * pow2(1022),
                pow2(1022) >= 1024,
        ;
        assert(cents * o >= o) by (nonlinear_arith)
            requires
                cents >= 1,
                o > 0,
        ;
        lemma_relative(num, 100);
        let p = as_double((100 * u) as nat, 1);
        let big = pow2(53) as int;
        let a = u * 100 - cents * o;
        assert(big * abs(a) <= cents * o);
        assert(abs(a) <= cents * o) by (nonlinear_arith)
            requires
                big * abs(a) <= cents * o,
                big >= 1,
                abs(a) >= 0,
        ;
        assert(4 * abs(a) < o) by (nonlinear_arith)
            requires
                big * abs(a) <= cents * o,
                big == 8 * pow2(50),
                cents < pow2(50),
                o > 0,
                abs(a) >= 0,
        ;
        assert(100 * u >= pow2(52));
        lemma_relative((100 * u) as nat, 1);
        let b = p - 100 * u;
        assert(big * abs(b) <= 100 * u);
        assert(100 * u <= 2 * (cents * o));
        assert(4 * abs(b) <= o) by (nonlinear_arith)
            requires
                big * abs(b) <= 2 * (cents * o),
                big == 8 * pow2(50),
                cents < pow2(50),
                o > 0,
                abs(b) >= 0,
        ;
        let off = p - cents * o;
        assert(2 * abs(off) < o);
        lemma_near(p, cents as int, o);
        assert(magnitude_units(euros.magnitude()) * 100 == 100 * u);
    }
}

proof fn lemma_near(p: int, v: int, o: int)
    requires
        o > 0,
        2 * abs(p - v * o) < o,
    ensures
        half_up(p, o) == v,
{
    let r = 2 * p + o - v * (2 * o);
    assert(v * (2 * o) == 2 * (v * o)) by (nonlinear_arith);
    lemma_fundamental_div_mod_converse(2 * p + o, 2 * o, v, r);
}

// ---------------------------------------------------------------------------
// Drops

/// How far the limit of a drop lies from the price less the percentage.
proof fn lemma_limit_is_close(previous: nat, k: nat, percent: Double) -> (limit: int)
    requires
        1 <= previous < pow2(53),
        1 <= k <= 99,
        percent.units() == k * one(),
        !percent.is_nan(),
    ensures
        limit_of(previous as int, percent) == Some(limit),
        pow2(53) * abs(100 * limit - (previous * one()) * (100 - k)) <= 399 * (previous * one()),
{
    let o = one() as int;
    let big = pow2(53) as int;
    lemma_pow2_pos(1074);
    lemma_pow2_values();
    lemma_pow2_adds(52, 1022);
    vstd::arithmetic::power2::lemma2_to64();
    lemma_pow2_strictly_increases(14, 1022);
    lemma_pow2_strictly_increases(1074, 2098);
    assert(o >= pow2(52) * 16384) by (nonlinear_arith)
        requires
            o == pow2(52) * pow2(1022),
            pow2(1022) >= 16384,
    ;
    // the percentage
    let kn = (k * one()) as nat;
    assert(o <= k * o <= 99 * o) by (nonlinear_arith)
        requires
            1 <= k <= 99,
            o > 0,
    ;
    let h = as_double(kn, 100);
    lemma_relative(kn, 100);
    lemma_double_not_negative(kn, 100);
    lemma_rounds_to_at_most(kn, 100, 1074);
    assert(!is_infinite(kn as int)) by {
        lemma_pow2_adds(7, 1074);
        lemma_pow2_strictly_increases(1081, 2098);
        assert(99 * o < 128 * o);
        assert(pow2(7) == 128);
    }
    assert(hundredth_of(Some(kn as int)) == Some(h));
    let c_off = 100 * h - k * o;
    assert(big * abs(c_off) <= k * o) by {
        assert(h * 100 == 100 * h);
    }
    // one less it
    let rest = o - h;
    assert(big >= 10000);
    assert(abs(c_off) * 10000 <= k * o) by (nonlinear_arith)
        requires
            big * abs(c_off) <= k * o,
            big >= 10000,
            abs(c_off) >= 0,
    ;
    assert(10000 * h <= 100 * (99 * o) + 99 * o);
    assert(200 * rest >= o);
    assert(rest >= pow2(52));
    let c = as_double(rest as nat, 1);
    lemma_relative(rest as nat, 1);
    lemma_double_not_negative(rest as nat, 1);
    lemma_rounds_to_at_most(rest as nat, 1, 1074);
    let b_off = c - rest;
    assert(big * abs(b_off) <= rest);
    assert(!is_infinite(h));
    assert(complement_of(Some(h)) == Some(c));
    assert(abs(b_off) * 10000 <= rest) by (nonlinear_arith)
        requires
            big * abs(b_off) <= rest,
            big >= 10000,
            abs(b_off) >= 0,
    ;
    assert(400 * c >= o);
    // the product
    let price = previous * o;
    lemma_integers_are_exact(previous);
    assert(price >= o) by (nonlinear_arith)
        requires
            price == previous * o,
            previous >= 1,
            o > 0,
    ;
    let num = price * c;
    assert(num >= pow2(52) * o) by (nonlinear_arith)
        requires
            num == price * c,
            price >= o,
            400 * c >= o,
            o >= pow2(52) * 16384,
            o > 0,
            c >= 0,
    ;
    let limit = as_double(num as nat, one());
    lemma_relative(num as nat, one());
    let a_off = limit * o - num;
    assert(big * abs(a_off) <= num);
    assert(!is_infinite(c));
    // the limit is finite
    lemma_pow2_adds(53, 1074);
    lemma_pow2_strictly_increases(1127, 2098);
    assert(num <= pow2(1127) * one()) by (nonlinear_arith)
        requires
            num == (previous * o) * c,
            previous < pow2(53),
            0 <= c <= o,
            o > 0,
            pow2(1127) == pow2(53) * o,
            o == one(),
            previous >= 1,
            num == price * c,
            price == previous * o,
    ;
    lemma_rounds_to_at_most(num as nat, one(), 1127);
    assert(limit_of(previous as int, percent) == Some(limit));
    // together
    lemma_together(o, big, price, k as int, h, c, limit);
    limit
}

proof fn lemma_together(o: int, big: int, price: int, k: int, h: int, c: int, limit: int)
    requires
        o > 0,
        big > 0,
        price > 0,
        1 <= k <= 99,
        0 <= h,
        0 <= c <= o,
        big * abs(100 * h - k * o) <= k * o,
        big * abs(c - (o - h)) <= o - h,
        big * abs(limit * o - price * c) <= price * c,
    ensures
        big * abs(100 * limit - price * (100 - k)) <= 399 * price,
{
    let a = limit * o - price * c;
    let b = c - (o - h);
    let e = 100 * h - k * o;
    let d = 100 * limit - price * (100 - k);
    let s = 100 * b - e;
    assert(s == 100 * c - 100 * o + k * o);
    assert(d * o == 100 * a + price * s) by (nonlinear_arith)
        requires
            a == limit * o - price * c,
            s == 100 * c - 100 * o + k * o,
            d == 100 * limit - price * (100 - k),
    ;
    assert(big * abs(s) <= 199 * o) by (nonlinear_arith)
        requires
            s == 100 * b - e,
            big * abs(b) <= o - h,
            big * abs(e) <= k * o,
            0 <= h,
            k <= 99,
            o > 0,
            big > 0,
            abs(s) <= 100 * abs(b) + abs(e),
    ;
    assert(big * abs(a) <= price * o) by (nonlinear_arith)
        requires
            big * abs(a) <= price * c,
            c <= o,
            price > 0,
    ;
    let ps = price * s;
    assert(abs(ps) == price * abs(s)) by (nonlinear_arith)
        requires
            ps == price * s,
            price > 0,
    ;
    assert(big * abs(ps) <= 199 * (price * o)) by (nonlinear_arith)
        requires
            abs(ps) == price * abs(s),
            big * abs(s) <= 199 * o,
            price > 0,
    ;
    assert(abs(d * o) <= 100 * abs(a) + abs(ps));
    assert(big * abs(d * o) <= 299 * (price * o)) by (nonlinear_arith)
        requires
            abs(d * o) <= 100 * abs(a) + abs(ps),
            big * abs(a) <= price * o,
            big * abs(ps) <= 199 * (price * o),
            big > 0,
    ;
    let off = d * o;
    assert(abs(off) == abs(d) * o) by (nonlinear_arith)
        requires
            off == d * o,
            o > 0,
    ;
    assert((big * abs(d)) * o <= (299 * price) * o) by (nonlinear_arith)
        requires
            big * abs(off) <= 299 * (price * o),
            abs(off) == abs(d) * o,
    ;
    assert(big * abs(d) <= 299 * price) by (nonlinear_arith)
        requires
            (big * abs(d)) * o <= (299 * price) * o,
            o > 0,
    ;
}

/// A price has dropped by a percentage where it lies below the price before less
/// that percentage, and has not where it lies above, whatever the prices are.
pub proof fn law_drops_are_measured_in_percent(
    price: nat,
    previous: nat,
    k: nat,
    percent: Double,
)
    requires
        1 <= previous < pow2(44),
        price < pow2(53),
        1 <= k <= 99,
        percent.units() == k * one(),
        !percent.is_nan(),
    ensures
        100 * price < previous * (100 - k) ==> has_dropped(price as int, previous as int, percent),
        100 * price > previous * (100 - k) ==> !has_dropped(price as int, previous as int, percent),
{
    let o = one() as int;
    let big = pow2(53) as int;
    lemma_pow2_pos(1074);
    lemma_pow2_values();
    lemma_pow2_adds(44, 9);
    lemma_pow2_strictly_increases(44, 53);
    vstd::arithmetic::power2::lemma2_to64();
    assert(pow2(9) == 512);
    let limit = lemma_limit_is_close(previous, k, percent);
    lemma_integers_are_exact(price);
    let t = previous * o;
    assert(t * (100 - k) == (previous * (100 - k)) * o) by (nonlinear_arith)
        requires
            t == previous * o,
    ;
    let target = previous * (100 - k);
    let d = 100 * limit - target * o;
    assert(big * abs(d) <= 399 * t);
    // off by less than one unit
    assert(399 * t < big * o) by (nonlinear_arith)
        requires
            t == previous * o,
            previous < pow2(44),
            big == pow2(44) * 512,
            o > 0,
    ;
    assert(abs(d) < o) by (nonlinear_arith)
        requires
            big * abs(d) < big * o,
            big > 0,
    ;
    if 100 * price < target {
        assert(100 * (price * o) <= target * o - o) by (nonlinear_arith)
            requires
                100 * price <= target - 1,
                o > 0,
        ;
    }
    if 100 * price > target {
        assert(100 * (price * o) >= target * o + o) by (nonlinear_arith)
            requires
                100 * price >= target + 1,
                o > 0,
        ;
    }
}

// ---------------------------------------------------------------------------
// Decimals and times

/// A number is written with its decimals rounded to the nearest: none, one or
/// two of them, with a point before them and all of them there.
pub proof fn law_numbers_are_written_to_the_nearest(d: Double, k: nat, n: nat)
    requires
        k <= 2,
        !d.is_negative(),
        d.magnitude() < 0x7FF0_0000_0000_0000,
        2 * abs(n * one() - magnitude_units(d.magnitude()) * power10(k)) < one(),
    ensures
        k == 0 ==> fixed_text(d, k) == decimal(n),
        k == 1 ==> fixed_text(d, k) == decimal(n / 10) + "."@ + decimal(n % 10),
        k == 2 && n % 100 >= 10 ==> fixed_text(d, k) == decimal(n / 100) + "."@ + decimal(n % 100),
        k == 2 && n % 100 < 10 ==> fixed_text(d, k) == decimal(n / 100) + "."@ + (seq!['0']
            + decimal(n % 100)),
        power10(0) == 1 && power10(1) == 10 && power10(2) == 100,
{
    let o = one() as int;
    lemma_pow2_pos(1074);
    let v = (magnitude_units(d.magnitude()) * power10(k)) as int;
    assert(v >= 0) by (nonlinear_arith)
        requires
            v == magnitude_units(d.magnitude()) * power10(k),
            magnitude_units(d.magnitude()) >= 0,
            power10(k) >= 0,
    ;
    crate::ratio::lemma_half_even_nearest(v, o, n as int);
    let h = half_even(v, o);
    assert(h == n) by (nonlinear_arith)
        requires
            2 * abs(h * o - v) < o,
            2 * abs(n * o - v) < o,
            o > 0,
    ;
    reveal_strlit("");
    let t = pointed(n, k);
    assert(""@ + t =~= t);
}

/// Minutes are whole ones, cut off toward none.
pub proof fn law_minutes_are_whole(now: Timestamp, then: Timestamp)
    ensures
        ({
            let nanos = (now.secs - then.secs) * 1_000_000_000 + now.nanos - then.nanos;
            &&& nanos >= 0 ==> whole_minutes(now, then) * 60_000_000_000 <= nanos < (whole_minutes(
                now,
                then,
            ) + 1) * 60_000_000_000
            &&& nanos < 0 ==> whole_minutes(now, then) == -whole_minutes(then, now)
        }),
{
}

/// The sign of a double turns its value round and makes it no less a number; infinity is a number
/// that is at least every number, and the next pattern is none.
pub proof fn law_signs_turn_values_round(a: Double, b: Double, inf: Double, nan: Double)
    requires
        a.bits < 0x8000_0000_0000_0000,
        b.bits == a.bits + 0x8000_0000_0000_0000,
        inf.bits == 0x7FF0_0000_0000_0000,
        nan.bits == 0x7FF0_0000_0000_0001,
    ensures
        !a.is_negative() && b.is_negative(),
        a.units() >= 0 && b.units() == -a.units(),
        a.is_nan() <==> b.is_nan(),
        !inf.is_nan() && nan.is_nan(),
        !a.is_nan() ==> inf.ge(a) && inf.ge(b),
        !nan.ge(a) && !a.ge(nan),
        a.bits == 0 ==> a.ge(b) && b.ge(a),
{
    assert(b.bits % 0x8000_0000_0000_0000u64 == a.bits);
    assert(a.bits % 0x8000_0000_0000_0000u64 == a.bits);
    assert(b.magnitude() == a.magnitude());
    lemma_units_order(a.magnitude(), inf.magnitude());
}

} // verus!
