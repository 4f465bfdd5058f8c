//! Doubles as decimal text with a fixed number of decimals.
use crate::double::{magnitude_units, Double};
use crate::limit::{
    digits, hundredth, hundredth_of, infinite, is_infinite, lemma_finite, percent, percent_of,
    signed_rounded,
};
use crate::ratio::{
    double_of, half_even, integer_units, lemma_half_even_scale, lemma_pow2_values, lemma_zero_double,
    one, power, round_half_even,
};
use crate::text::{
    all_digits, chars_of, decimal, digit_char, digits_value, is_digit, lemma_decimal_value,
    push_decimal, string_of,
};
use vstd::arithmetic::div_mod::lemma_fundamental_div_mod_converse;
use vstd::arithmetic::power2::{lemma_pow2_adds, lemma_pow2_pos, lemma_pow2_unfold, pow2};
use vstd::prelude::*;
use vstd::string::StringExecFns;

verus! {

/// One, ten or a hundred.
pub open spec fn power10(decimals: nat) -> nat {
    if decimals == 0 {
        1
    } else if decimals == 1 {
        10
    } else {
        100
    }
}

/// The decimals of a number below the power of ten, zeros in front.
pub open spec fn padded(n: nat, decimals: nat) -> Seq<char> {
    if decimals == 2 && n < 10 {
        seq!['0'] + decimal(n)
    } else {
        decimal(n)
    }
}

/// A number of tenths or hundredths with its point; a whole number without.
pub open spec fn pointed(n: nat, decimals: nat) -> Seq<char> {
    if decimals == 0 {
        decimal(n)
    } else {
        decimal(n / power10(decimals)) + "."@ + padded(n % power10(decimals), decimals)
    }
}

/// A double with none, one or two decimals: its exact value rounded there,
/// halfway to even.
pub open spec fn fixed_text(d: Double, decimals: nat) -> Seq<char> {
    if d.is_nan() {
        "NaN"@
    } else {
        let sign = if d.is_negative() {
            "-"@
        } else {
            ""@
        };
        if d.magnitude() == 0x7FF0_0000_0000_0000nat {
            sign + "inf"@
        } else {
            sign + pointed(
                half_even(
                    (magnitude_units(d.magnitude()) * power10(decimals)) as int,
                    one() as int,
                ) as nat,
                decimals,
            )
        }
    }
}

/// A value that is not negative, as a double is written.
pub open spec fn value_text(v: Option<int>, decimals: nat) -> Seq<char> {
    match v {
        None => "NaN"@,
        Some(u) => if u == infinite() {
            "inf"@
        } else {
            pointed(half_even(u * power10(decimals), one() as int) as nat, decimals)
        },
    }
}

/// A double that is not negative is written by its value.
pub proof fn lemma_value_text(d: Double, decimals: nat)
    requires
        !d.is_negative(),
    ensures
        fixed_text(d, decimals) == value_text(d.value(), decimals),
{
    lemma_finite(d.magnitude());
    reveal_strlit("");
    assert(""@ =~= Seq::<char>::empty());
    assert(""@ + "inf"@ =~= "inf"@);
    if !d.is_nan() && d.magnitude() < 0x7FF0_0000_0000_0000nat {
        let t = pointed(
            half_even(d.units() * power10(decimals), one() as int) as nat,
            decimals,
        );
        assert(""@ + t =~= t);
    }
}

/// A negative double is written by its opposite, with a minus sign.
pub proof fn lemma_negative_text(d: Double, decimals: nat)
    requires
        d.is_negative(),
        !d.is_nan(),
    ensures
        fixed_text(d, decimals) == "-"@ + value_text(Some(-d.units()), decimals),
{
    lemma_finite(d.magnitude());
}

/// An amount of cents in euros: the quotient in double precision, with none,
/// one or two decimals.
pub open spec fn euros_text(cents: int, decimals: nat) -> Seq<char> {
    if cents < 0 {
        "-"@ + value_text(hundredth_of(Some(integer_units(-cents))), decimals)
    } else {
        value_text(hundredth_of(Some(integer_units(cents))), decimals)
    }
}

/// A negative amount is that of its opposite, with a minus sign.
proof fn lemma_negative_euros(cents: i64, d: Double, decimals: nat)
    requires
        cents < 0,
        d.is_negative(),
        d.value() == hundredth_of(Some(integer_units(cents as int))),
    ensures
        fixed_text(d, decimals) == euros_text(cents as int, decimals),
{
    let u = integer_units(-(cents as int));
    lemma_finite_integer(cents);
    assert(integer_units(cents as int) == -u);
    assert(!is_infinite(-u) && !is_infinite(u));
    assert(d.value() == Some(signed_rounded(-u, 100)));
    if u == 0 {
        lemma_zero_double(100);
        assert(signed_rounded(0, 100) == 0);
    }
    assert(signed_rounded(-u, 100) == -signed_rounded(u, 100));
    assert(!d.is_nan());
    assert(-d.units() == signed_rounded(u, 100));
    assert(hundredth_of(Some(u)) == Some(-d.units()));
    lemma_negative_text(d, decimals);
}

/// An amount of cents in euros, as text.
pub fn euros_fixed(cents: i64, decimals: u32) -> (r: String)
    requires
        decimals <= 2,
    ensures
        r@ == euros_text(cents as int, decimals as nat),
{
    let amount = double_of(cents);
    let d = hundredth(amount);
    proof {
        assert(!amount.is_nan());
        assert(amount.value() == Some(integer_units(cents as int)));
        if cents < 0 {
            lemma_negative_euros(cents, d, decimals as nat);
        } else {
            lemma_value_text(d, decimals as nat);
        }
    }
    fixed(d, decimals)
}

/// An integer is finite as a double.
proof fn lemma_finite_integer(v: i64)
    ensures
        !is_infinite(integer_units(v as int)),
        v < 0 ==> integer_units(-(v as int)) == -integer_units(v as int),
        v < 0 ==> integer_units(-(v as int)) >= 0,
{
    let m: int = if v < 0 {
        -(v as int)
    } else {
        v as int
    };
    crate::ratio::lemma_integers_keep_the_order(0, m);
    lemma_pow2_adds(63, 1074);
    lemma_pow2_pos(1074);
    vstd::arithmetic::power2::lemma2_to64_rest();
    assert(m * one() <= pow2(63) * one()) by (nonlinear_arith)
        requires
            m <= pow2(63),
            one() > 0,
    ;
    assert(m * one() >= 0) by (nonlinear_arith)
        requires
            m >= 0,
            one() > 0,
    ;
    crate::ratio::lemma_rounds_to_at_most((m * one()) as nat, 1, 1137);
    vstd::arithmetic::power2::lemma_pow2_strictly_increases(1137, 2098);
}

/// A surface with no decimals, as text.
pub fn whole_text(d: Double) -> (r: String)
    ensures
        r@ == fixed_text(d, 0),
{
    fixed(d, 0)
}

/// How far a price has moved, in percent of the one before: one decimal, with
/// its sign.
pub open spec fn move_text(now: int, before: int) -> Seq<char> {
    if now < before {
        "-"@ + value_text(percent_of(before - now, before), 1)
    } else {
        "+"@ + value_text(percent_of(now - before, before), 1)
    }
}

/// How far a price has moved, in percent of the one before.
pub fn percent_move(now: i64, before: i64) -> (r: String)
    requires
        before > 0,
        i64::MIN <= now - before <= i64::MAX,
    ensures
        r@ == move_text(now as int, before as int),
{
    let apart: u64 = if now < before {
        (before as i128 - now as i128) as u64
    } else {
        (now as i128 - before as i128) as u64
    };
    let d = percent(apart, before);
    proof {
        lemma_value_text(d, 1);
    }
    let text = fixed(d, 1);
    if now < before {
        "-".to_owned().concat(text.as_str())
    } else {
        "+".to_owned().concat(text.as_str())
    }
}

// ---------------------------------------------------------------------------
// Digits

/// Digits without a zero in front are the digits of their number.
proof fn lemma_digits_are_decimal(s: Seq<char>)
    requires
        s.len() > 0,
        all_digits(s),
        s.len() > 1 ==> s[0] != '0',
    ensures
        s == decimal(digits_value(s)),
        s[0] != '0' ==> digits_value(s) > 0,
    decreases s.len(),
{
    let n = digits_value(s);
    let init = s.drop_last();
    let d = s.last() as int - '0' as int;
    assert(is_digit(s[s.len() - 1]));
    assert(n == 10 * digits_value(init) + d);
    if s.len() == 1 {
        assert(digits_value(init) == 0);
        assert(s =~= seq![digit_char(n as int)]);
    } else {
        assert(init[0] == s[0]);
        assert forall|i: int| 0 <= i < init.len() implies is_digit(#[trigger] init[i]) by {
            assert(init[i] == s[i]);
        }
        lemma_digits_are_decimal(init);
        assert(n / 10 == digits_value(init) && n % 10 == d);
        assert(digits_value(init) > 0);
        assert(s =~= decimal(n / 10).push(digit_char((n % 10) as int)));
    }
}

/// The digits of twice a number, where the digits have no zero in front; a
/// carry of one comes in at the end.
fn doubled_digits(s: &Vec<char>) -> (r: Vec<char>)
    requires
        s@.len() > 0,
        all_digits(s@),
        s@[0] != '0',
    ensures
        r@.len() > 0,
        all_digits(r@),
        r@[0] != '0',
        digits_value(r@) == 2 * digits_value(s@),
{
    // The digits from the end on, and the carry into the next one.
    let mut back: Vec<char> = Vec::new();
    let mut carry: u8 = 0;
    let mut i: usize = s.len();
    proof {
        assert(s@.skip(s@.len() as int) =~= Seq::<char>::empty());
        assert(back@.reverse() =~= Seq::<char>::empty());
    }
    while i > 0
        invariant
            i <= s@.len(),
            all_digits(s@),
            carry <= 1,
            back@.len() == s@.len() - i,
            all_digits(back@),
            tail_value(back@) + carry * pow10(back@.len()) == 2 * digits_value(s@.skip(i as int)),
            back@.len() > 0 ==> (back@.last() as int - 48) + 10 * carry >= 2 * (s@[i as int] as int
                - 48),
        decreases i,
    {
        let c = s[i - 1];
        proof {
            assert(is_digit(s@[i - 1]));
            lemma_skip_value(s@, (i - 1) as int);
        }
        let d: u8 = 2 * (c as u8 - 48) + carry;
        let low: u8 = d % 10;
        let ghost before = back@;
        back.push((48 + low) as char);
        proof {
            let p = pow10(before.len());
            let x = c as int - 48;
            lemma_tail_push(before, back@.last());
            assert(all_digits(back@));
            assert(back@.last() as int - 48 == low);
            let q = (d / 10) as int;
            assert(d == 10 * q + low);
            assert(low * p + q * (10 * p) == (2 * x + carry) * p) by (nonlinear_arith)
                requires
                    2 * x + carry == 10 * q + low,
            ;
            assert((2 * x + carry) * p == 2 * (x * p) + carry * p) by (nonlinear_arith);
        }
        carry = d / 10;
        i = i - 1;
    }
    proof {
        assert(s@.skip(0) =~= s@);
    }
    if carry == 1 {
        let ghost before = back@;
        back.push('1');
        proof {
            lemma_tail_push(before, '1');
        }
    }
    proof {
        assert(is_digit(s@[0]));
        assert(back@.last() != '0');
        lemma_tail_is_value(back@);
    }
    // The other way round.
    let mut r: Vec<char> = Vec::new();
    let mut j: usize = back.len();
    while j > 0
        invariant
            j <= back@.len(),
            r@ == back@.skip(j as int).reverse(),
            all_digits(back@),
        decreases j,
    {
        r.push(back[j - 1]);
        j = j - 1;
        proof {
            assert(back@.skip(j as int).reverse() =~= back@.skip(j + 1).reverse().push(
                back@[j as int],
            ));
        }
    }
    proof {
        assert(back@.skip(0) =~= back@);
        assert(r@ == back@.reverse());
        assert forall|k: int| 0 <= k < r@.len() implies is_digit(#[trigger] r@[k]) by {
            assert(r@[k] == back@[back@.len() - 1 - k]);
        }
        assert(r@[0] == back@.last());
    }
    r
}

pub open spec fn pow10(n: nat) -> nat
    decreases n,
{
    if n == 0 {
        1
    } else {
        10 * pow10((n - 1) as nat)
    }
}

/// The number that digits write from the last one to the first.
pub open spec fn tail_value(s: Seq<char>) -> nat
    decreases s.len(),
{
    if s.len() == 0 {
        0
    } else {
        (tail_value(s.drop_last()) + (s.last() as int - '0' as int) * pow10(
            (s.len() - 1) as nat,
        )) as nat
    }
}

proof fn lemma_tail_push(s: Seq<char>, c: char)
    requires
        is_digit(c),
    ensures
        tail_value(s.push(c)) == tail_value(s) + (c as int - 48) * pow10(s.len()),
{
    assert(s.push(c).drop_last() =~= s);
    assert((c as int - 48) * pow10(s.len()) >= 0) by (nonlinear_arith)
        requires
            c as int >= 48,
            pow10(s.len()) >= 0,
    ;
}

proof fn lemma_skip_value(s: Seq<char>, i: int)
    requires
        0 <= i < s.len(),
        all_digits(s),
    ensures
        digits_value(s.skip(i)) == (s[i] as int - 48) * pow10((s.len() - i - 1) as nat)
            + digits_value(s.skip(i + 1)),
    decreases s.len() - i,
{
    let a = s.skip(i);
    assert(is_digit(s[s.len() - 1]));
    if i + 1 == s.len() {
        assert(a.drop_last() =~= Seq::<char>::empty());
        assert(s.skip(i + 1) =~= Seq::<char>::empty());
        assert(digits_value(a.drop_last()) == 0);
        assert(pow10(0) == 1);
        assert((s[i] as int - 48) * 1 == s[i] as int - 48);
        assert(a.last() == s[i]);
    } else {
        let init = s.drop_last();
        assert forall|k: int| 0 <= k < init.len() implies is_digit(#[trigger] init[k]) by {
            assert(init[k] == s[k]);
        }
        lemma_skip_value(init, i);
        assert(a.drop_last() =~= init.skip(i));
        assert(s.skip(i + 1).drop_last() =~= init.skip(i + 1));
        assert(s.skip(i + 1).last() == s.last());
        assert(a.last() == s.last());
        let p = pow10((init.len() - i - 1) as nat);
        let x = s[i] as int - 48;
        assert(x * (10 * p) == 10 * (x * p)) by (nonlinear_arith);
    }
}

proof fn lemma_tail_is_value(s: Seq<char>)
    requires
        all_digits(s),
    ensures
        tail_value(s) == digits_value(s.reverse()),
    decreases s.len(),
{
    if s.len() > 0 {
        let init = s.drop_last();
        assert forall|k: int| 0 <= k < init.len() implies is_digit(#[trigger] init[k]) by {
            assert(init[k] == s[k]);
        }
        lemma_tail_is_value(init);
        let r = s.reverse();
        assert forall|k: int| 0 <= k < r.len() implies is_digit(#[trigger] r[k]) by {
            assert(r[k] == s[s.len() - 1 - k]);
        }
        lemma_skip_value(r, 0);
        assert(r.skip(0) =~= r);
        assert(r.skip(1) =~= init.reverse());
        assert(is_digit(s[s.len() - 1]));
    } else {
        assert(s.reverse() =~= Seq::<char>::empty());
    }
}

proof fn lemma_decimal_first(n: nat)
    requires
        n > 0,
    ensures
        decimal(n).len() > 0,
        decimal(n)[0] != '0',
    decreases n,
{
    if n >= 10 {
        lemma_decimal_first(n / 10);
    } else {
        assert(digit_char(n as int) as int == 48 + n);
    }
}

/// The digits of a number times a power of two.
fn whole_digits(m: u64, shift: u32) -> (r: String)
    requires
        m > 0,
    ensures
        r@ == decimal(m as nat * pow2(shift as nat)),
{
    let mut text = String::new();
    push_decimal(&mut text, m);
    let mut v: Vec<char> = chars_of(text.as_str());
    let mut i: u32 = 0;
    proof {
        assert(v@ =~= decimal(m as nat));
        lemma_decimal_value(m as nat);
        lemma_decimal_first(m as nat);
        lemma_pow2_values();
        assert(m as nat * pow2(0) == m) by (nonlinear_arith)
            requires
                pow2(0) == 1,
        ;
    }
    while i < shift
        invariant
            i <= shift,
            v@.len() > 0,
            all_digits(v@),
            v@[0] != '0',
            digits_value(v@) == m as nat * pow2(i as nat),
        decreases shift - i,
    {
        v = doubled_digits(&v);
        proof {
            lemma_pow2_unfold((i + 1) as nat);
            assert(2 * (m as nat * pow2(i as nat)) == m as nat * pow2((i + 1) as nat))
                by (nonlinear_arith)
                requires
                    pow2((i + 1) as nat) == 2 * pow2(i as nat),
            ;
        }
        i = i + 1;
    }
    proof {
        lemma_digits_are_decimal(v@);
    }
    string_of(v.as_slice())
}

/// A whole double in tenths or hundredths is a whole number of them.
proof fn lemma_whole(m: nat, e: nat, ten: nat)
    requires
        e >= 1074,
        ten > 0,
    ensures
        half_even(((m * pow2(e)) * ten) as int, one() as int) == (m * pow2((e - 1074) as nat))
            * ten,
{
    let v = m * pow2((e - 1074) as nat);
    lemma_pow2_adds((e - 1074) as nat, 1074);
    lemma_pow2_pos(1074);
    assert((m * pow2(e)) * ten == (v * ten) * one()) by (nonlinear_arith)
        requires
            v == m * pow2((e - 1074) as nat),
            pow2(e) == pow2((e - 1074) as nat) * one(),
    ;
    assert(v * ten >= 0) by (nonlinear_arith)
        requires
            v >= 0,
            ten >= 0,
    ;
    lemma_half_even_scale((v * ten) as int, 1, one() as int);
    assert(1 * one() == one());
    assert(half_even((v * ten) as int, 1) == v * ten);
}

/// A double below that, in tenths or hundredths.
proof fn lemma_part(m: nat, e: nat, ten: nat)
    requires
        e < 1074,
        ten > 0,
    ensures
        half_even(((m * pow2(e)) * ten) as int, one() as int) == half_even(
            (m * ten) as int,
            pow2((1074 - e) as nat) as int,
        ),
{
    lemma_pow2_adds((1074 - e) as nat, e);
    lemma_pow2_pos(e);
    lemma_pow2_pos((1074 - e) as nat);
    assert((m * pow2(e)) * ten == (m * ten) * pow2(e)) by (nonlinear_arith);
    assert(m * ten >= 0) by (nonlinear_arith)
        requires
            m >= 0,
            ten >= 0,
    ;
    lemma_half_even_scale((m * ten) as int, pow2((1074 - e) as nat) as int, pow2(e) as int);
}

/// A double as text, with none, one or two decimals.
pub fn fixed(d: Double, decimals: u32) -> (r: String)
    requires
        decimals <= 2,
    ensures
        r@ == fixed_text(d, decimals as nat),
{
    let magnitude: u64 = d.bits % 0x8000_0000_0000_0000;
    if magnitude > 0x7FF0_0000_0000_0000 {
        return "NaN".to_owned();
    }
    let mut out = if d.bits >= 0x8000_0000_0000_0000 {
        "-".to_owned()
    } else {
        "".to_owned()
    };
    if magnitude == 0x7FF0_0000_0000_0000 {
        out.append("inf");
        return out;
    }
    let ghost sign = out@;
    let (m, e) = digits(magnitude);
    let ten: u64 = if decimals == 0 {
        1
    } else if decimals == 1 {
        10
    } else {
        100
    };
    if e >= 1074 {
        let whole = whole_digits(m, e - 1074);
        proof {
            lemma_whole(m as nat, e as nat, ten as nat);
            let v = m as nat * pow2((e - 1074) as nat);
            assert(v * 1 == v);
            lemma_fundamental_div_mod_converse((v * ten) as int, ten as int, v as int, 0);
            reveal_strlit(".0");
            reveal_strlit(".00");
            reveal_strlit(".");
            assert(digit_char(0) == '0');
        }
        out.append(whole.as_str());
        if decimals == 1 {
            out.append(".0");
        } else if decimals == 2 {
            out.append(".00");
        }
        proof {
            assert(out@ =~= fixed_text(d, decimals as nat));
        }
        return out;
    }
    let k: u32 = 1074 - e;
    proof {
        assert(m * ten <= 0x20_0000_0000_0000 * 100) by (nonlinear_arith)
            requires
                0 <= m <= 0x20_0000_0000_0000,
                0 <= ten <= 100,
        ;
    }
    let a: u128 = m as u128 * ten as u128;
    proof {
        lemma_part(m as nat, e as nat, ten as nat);
        lemma_pow2_pos(k as nat);
    }
    let n: u128 = if k > 62 {
        proof {
            vstd::arithmetic::power2::lemma2_to64_rest();
            vstd::arithmetic::power2::lemma_pow2_strictly_increases(62, k as nat);
            assert(pow2(62) == 0x4000_0000_0000_0000);
            lemma_fundamental_div_mod_converse(a as int, pow2(k as nat) as int, 0, a as int);
        }
        0
    } else {
        let den: u128 = power(k);
        proof {
            crate::ratio::lemma_pow2_small(k as nat);
            crate::ratio::lemma_half_even_bounds(a as int, den as int, 0, 0x1000_0000_0000_0000);
        }
        round_half_even(a, den)
    };
    let units: u64 = n as u64;
    push_decimal(&mut out, units / ten);
    if decimals > 0 {
        out.append(".");
        let rest: u64 = units % ten;
        if decimals == 2 && rest < 10 {
            out.push('0');
        }
        push_decimal(&mut out, rest);
    }
    proof {
        assert(out@ =~= fixed_text(d, decimals as nat));
    }
    out
}

} // verus!
