//! The price history as a line in a small picture, and its caption.
use crate::double::{magnitude_units, Double};
use crate::fixed::{euros_fixed, euros_text, fixed, lemma_value_text, value_text};
use crate::limit::{
    complement, complement_of, infinite, is_infinite, product, product_of, quotient, quotient_of,
    sum, sum_of,
};
use crate::listing::PricePoint;
use crate::ratio::{double_of, integer_units, one};
use crate::text::{decimal, join, joined, push_decimal, texts};
use vstd::arithmetic::power2::{lemma_pow2_adds, lemma_pow2_pos, pow2};
use vstd::prelude::*;
use vstd::string::StringExecFns;

verus! {

/// The bits of the padding, 5.0.
pub const PAD: u64 = 0x4014_0000_0000_0000;

/// The bits of the width inside the padding, 210.0.
pub const INNER_WIDTH: u64 = 0x406A_4000_0000_0000;

/// The bits of the height inside the padding, 38.0.
pub const INNER_HEIGHT: u64 = 0x4043_0000_0000_0000;

/// The bits of half the height, 24.0.
pub const MIDDLE: u64 = 0x4038_0000_0000_0000;

pub open spec fn units_of(bits: u64) -> int {
    (Double { bits }).units()
}

/// The lowest of some prices.
pub open spec fn lowest(prices: Seq<i64>) -> int
    decreases prices.len(),
{
    if prices.len() <= 1 {
        prices[0] as int
    } else if prices.last() < lowest(prices.drop_last()) {
        prices.last() as int
    } else {
        lowest(prices.drop_last())
    }
}

/// The highest of some prices.
pub open spec fn highest(prices: Seq<i64>) -> int
    decreases prices.len(),
{
    if prices.len() <= 1 {
        prices[0] as int
    } else if prices.last() > highest(prices.drop_last()) {
        prices.last() as int
    } else {
        highest(prices.drop_last())
    }
}

/// The padding and a value behind it.
pub open spec fn padded(v: Option<int>) -> Option<int> {
    match v {
        Some(u) => Some(sum_of(units_of(PAD), u)),
        None => None,
    }
}

/// The distance between two points.
pub open spec fn step_of(count: int) -> int {
    if count > 1 {
        quotient_of(units_of(INNER_WIDTH), integer_units(count - 1))
    } else {
        0
    }
}

/// Where the point of a price stands from the left: the points are spread
/// evenly between the paddings.
pub open spec fn x_of(count: int, i: int) -> Option<int> {
    padded(product_of(integer_units(i), Some(step_of(count))))
}

/// Where the point of a price stands from the top: the highest price at the
/// upper padding, the lowest at the lower one; in the middle where all prices
/// are the same.
pub open spec fn y_of(price: int, low: int, high: int) -> Option<int> {
    if low == high {
        Some(units_of(MIDDLE))
    } else {
        let q = quotient_of(integer_units(price - low), integer_units(high - low));
        padded(product_of(units_of(INNER_HEIGHT), complement_of(Some(q))))
    }
}

/// The point of a price, as text.
pub open spec fn point_text(prices: Seq<i64>, i: int) -> Seq<char> {
    value_text(x_of(prices.len() as int, i), 1) + ","@ + value_text(
        y_of(prices[i] as int, lowest(prices), highest(prices)),
        1,
    )
}

/// The points of all prices.
pub open spec fn point_texts(prices: Seq<i64>) -> Seq<Seq<char>> {
    Seq::new(prices.len(), |i: int| point_text(prices, i))
}

/// The span of the prices is one that an `i64` holds.
pub open spec fn span_fits(prices: Seq<i64>) -> bool {
    prices.len() > 0 ==> highest(prices) - lowest(prices) <= i64::MAX
}

proof fn lemma_extremes(prices: Seq<i64>, i: int)
    requires
        0 <= i < prices.len(),
    ensures
        lowest(prices) <= prices[i] <= highest(prices),
        i64::MIN <= lowest(prices),
        highest(prices) <= i64::MAX,
    decreases prices.len(),
{
    if prices.len() > 1 {
        let init = prices.drop_last();
        if i < init.len() {
            assert(init[i] == prices[i]);
            lemma_extremes(init, i);
        } else {
            lemma_extremes(init, 0);
        }
    }
}

/// The lowest and the highest of some prices.
fn extremes(prices: &Vec<i64>) -> (r: (i64, i64))
    requires
        prices@.len() > 0,
    ensures
        r.0 == lowest(prices@),
        r.1 == highest(prices@),
{
    let mut low: i64 = prices[0];
    let mut high: i64 = prices[0];
    let mut i: usize = 1;
    while i < prices.len()
        invariant
            1 <= i <= prices@.len(),
            low == lowest(prices@.take(i as int)),
            high == highest(prices@.take(i as int)),
        decreases prices@.len() - i,
    {
        proof {
            assert(prices@.take(i as int + 1).drop_last() =~= prices@.take(i as int));
            assert(prices@.take(i as int + 1).last() == prices@[i as int]);
        }
        if prices[i] < low {
            low = prices[i];
        }
        if prices[i] > high {
            high = prices[i];
        }
        i = i + 1;
    }
    proof {
        assert(prices@.take(prices@.len() as int) =~= prices@);
    }
    (low, high)
}

/// Is the span of the prices one that an `i64` holds?
pub fn has_fitting_span(prices: &Vec<i64>) -> (r: bool)
    ensures
        r == span_fits(prices@),
{
    if prices.len() == 0 {
        return true;
    }
    let (low, high) = extremes(prices);
    high as i128 - low as i128 <= i64::MAX as i128
}

proof fn lemma_constants()
    ensures
        0 < units_of(INNER_WIDTH) <= pow2(1082),
        0 < units_of(INNER_HEIGHT) <= pow2(1082),
{
    lemma_pow2_adds(52, 1030);
    let limit_bits = 0x4070_0000_0000_0000nat;
    crate::ratio::lemma_pow2_values();
    assert(limit_bits / crate::double::STEP as nat == 1031);
    assert(limit_bits % crate::double::STEP as nat == 0);
    assert(magnitude_units(limit_bits) == pow2(1082));
    crate::double::lemma_zero_units();
    crate::double::lemma_units_order(0, INNER_WIDTH as nat);
    crate::double::lemma_units_order(0, INNER_HEIGHT as nat);
    crate::double::lemma_units_order(INNER_WIDTH as nat, limit_bits);
    crate::double::lemma_units_order(INNER_HEIGHT as nat, limit_bits);
}

/// The distance between two points is finite.
proof fn lemma_step_finite(count: int)
    requires
        1 < count <= i64::MAX,
    ensures
        !is_infinite(step_of(count)),
        step_of(count) >= 0,
{
    lemma_constants();
    let num = (units_of(INNER_WIDTH) * one()) as nat;
    let den = integer_units(count - 1) as nat;
    lemma_pow2_pos(1074);
    assert((count - 1) * one() >= one()) by (nonlinear_arith)
        requires
            count >= 2,
            one() > 0,
    ;
    crate::ratio::lemma_rounds_to_at_least(((count - 1) * one()) as nat, 1, 1074);
    assert(den >= one());
    assert(num <= pow2(1082) * den) by (nonlinear_arith)
        requires
            num == units_of(INNER_WIDTH) * one(),
            units_of(INNER_WIDTH) <= pow2(1082),
            den >= one(),
            one() > 0,
            units_of(INNER_WIDTH) >= 0,
    ;
    assert(units_of(INNER_WIDTH) * one() >= 0) by (nonlinear_arith)
        requires
            units_of(INNER_WIDTH) >= 0,
            one() >= 0,
    ;
    crate::ratio::lemma_rounds_to_at_most(num, den, 1082);
    crate::ratio::lemma_double_not_negative(num, den);
    vstd::arithmetic::power2::lemma_pow2_strictly_increases(1082, 2098);
}

/// The share of a price in the span is at most one.
proof fn lemma_share(part: int, whole: int)
    requires
        0 <= part <= whole <= i64::MAX,
        0 < whole,
    ensures
        0 <= quotient_of(integer_units(part), integer_units(whole)) <= one(),
        one() < infinite(),
{
    crate::ratio::lemma_integers_keep_the_order(part, whole);
    lemma_pow2_pos(1074);
    let p = integer_units(part);
    let w = integer_units(whole);
    assert(whole * one() >= one()) by (nonlinear_arith)
        requires
            whole >= 1,
            one() > 0,
    ;
    crate::ratio::lemma_rounds_to_at_least((whole * one()) as nat, 1, 1074);
    assert(p * one() <= one() * w) by (nonlinear_arith)
        requires
            p <= w,
            one() > 0,
    ;
    assert(p * one() >= 0) by (nonlinear_arith)
        requires
            p >= 0,
            one() > 0,
    ;
    crate::ratio::lemma_rounds_to_at_most((p * one()) as nat, w as nat, 1074);
    crate::ratio::lemma_double_not_negative((p * one()) as nat, w as nat);
    vstd::arithmetic::power2::lemma_pow2_strictly_increases(1074, 2098);
}

/// Where the point of a price stands from the left.
fn x_at(count: usize, i: usize) -> (r: Double)
    requires
        i < count <= i64::MAX,
    ensures
        !r.is_negative(),
        r.value() == x_of(count as int, i as int),
{
    let step: Double = if count > 1 {
        let gaps = double_of((count - 1) as i64);
        quotient(Double { bits: INNER_WIDTH }, gaps)
    } else {
        Double { bits: 0 }
    };
    proof {
        if count > 1 {
            lemma_step_finite(count as int);
        } else {
            crate::double::lemma_zero_units();
            lemma_pow2_pos(2098);
        }
        assert(step.value() == Some(step_of(count as int)));
    }
    let offset = product(double_of(i as i64), step);
    sum(Double { bits: PAD }, offset)
}

/// Where the point of a price stands from the top.
fn y_at(price: i64, low: i64, high: i64) -> (r: Double)
    requires
        low <= price <= high,
        high - low <= i64::MAX,
    ensures
        !r.is_negative(),
        r.value() == y_of(price as int, low as int, high as int),
{
    if low == high {
        return Double { bits: MIDDLE };
    }
    let above: i64 = (price as i128 - low as i128) as i64;
    let span: i64 = (high as i128 - low as i128) as i64;
    let share = quotient(double_of(above), double_of(span));
    proof {
        lemma_share(above as int, span as int);
        lemma_constants();
    }
    let rest = complement(share);
    proof {
        let q = quotient_of(integer_units(above as int), integer_units(span as int));
        crate::ratio::lemma_rounds_to_at_most((one() - q) as nat, 1, 1074);
        crate::ratio::lemma_double_not_negative((one() - q) as nat, 1);
        assert(one() * 1 == one());
        lemma_pow2_pos(2098);
    }
    let offset = product(Double { bits: INNER_HEIGHT }, rest);
    sum(Double { bits: PAD }, offset)
}

/// The prices as `x,y` pairs for a line in a picture of 220 by 48, padded by 5.
pub fn polyline_points(prices: &Vec<i64>) -> (r: String)
    requires
        span_fits(prices@),
        prices@.len() <= i64::MAX,
    ensures
        r@ == join(point_texts(prices@), " "@),
{
    let mut points: Vec<String> = Vec::new();
    if prices.len() == 0 {
        proof {
            assert(texts(points@) =~= point_texts(prices@));
        }
        return joined(&points, " ");
    }
    let (low, high) = extremes(prices);
    let mut i: usize = 0;
    while i < prices.len()
        invariant
            i <= prices@.len() <= i64::MAX,
            low == lowest(prices@),
            high == highest(prices@),
            high - low <= i64::MAX,
            points@.len() == i,
            forall|k: int| 0 <= k < i ==> (#[trigger] points@[k])@ == point_text(prices@, k),
        decreases prices@.len() - i,
    {
        proof {
            lemma_extremes(prices@, i as int);
        }
        let x = x_at(prices.len(), i);
        let y = y_at(prices[i], low, high);
        let mut point = fixed(x, 1);
        let height = fixed(y, 1);
        proof {
            lemma_value_text(x, 1);
            lemma_value_text(y, 1);
        }
        point.append(",");
        point.append(height.as_str());
        points.push(point);
        i = i + 1;
    }
    proof {
        assert(texts(points@) =~= point_texts(prices@));
    }
    joined(&points, " ")
}

/// One observation: its day and its price.
pub open spec fn observation_text(p: PricePoint, currency: Seq<char>) -> Seq<char> {
    p.day@ + ": "@ + euros_text(p.price_cents as int, 2) + " "@ + currency
}

/// The observations, one on a line.
pub open spec fn title_text(prices: Seq<PricePoint>, currency: Seq<char>) -> Seq<char> {
    join(Seq::new(prices.len(), |i: int| observation_text(prices[i], currency)), "\n"@)
}

/// What stands below the line: how many observations there are, the lowest
/// price and the latest.
pub open spec fn caption_text(values: Seq<i64>, currency: Seq<char>) -> Seq<char> {
    decimal(values.len()) + (if values.len() == 1 {
        " pt"@
    } else {
        " pts"@
    }) + " · min "@ + euros_text(lowest(values), 2) + " · now "@ + euros_text(
        values.last() as int,
        2,
    ) + " "@ + currency
}

/// The prices of some observations.
pub open spec fn values(prices: Seq<PricePoint>) -> Seq<i64> {
    Seq::new(prices.len(), |i: int| prices[i].price_cents)
}

/// What the picture of a price history shows.
pub struct Spark {
    /// The line, where there is more than one observation.
    pub line: Option<String>,
    /// The mark of the latest price, from the left and from the top.
    pub x: String,
    pub y: String,
    /// The mark of the lowest price, the first one of several.
    pub low_x: String,
    pub low_y: String,
    pub title: String,
    pub caption: String,
}

/// The observations, one on a line.
fn title_of(prices: &Vec<PricePoint>, currency: &str) -> (r: String)
    ensures
        r@ == title_text(prices@, currency@),
{
    let mut lines: Vec<String> = Vec::new();
    let mut i: usize = 0;
    while i < prices.len()
        invariant
            i <= prices@.len(),
            lines@.len() == i,
            forall|k: int|
                0 <= k < i ==> (#[trigger] lines@[k])@ == observation_text(prices@[k], currency@),
        decreases prices@.len() - i,
    {
        let amount = euros_fixed(prices[i].price_cents, 2);
        let line = prices[i].day.clone().concat(": ").concat(amount.as_str()).concat(" ").concat(
            currency,
        );
        lines.push(line);
        i = i + 1;
    }
    proof {
        assert(texts(lines@) =~= Seq::new(
            prices@.len(),
            |i: int| observation_text(prices@[i], currency@),
        ));
    }
    joined(&lines, "\n")
}

/// What stands below the line.
fn caption_of(prices: &Vec<i64>, currency: &str) -> (r: String)
    requires
        prices@.len() > 0,
    ensures
        r@ == caption_text(prices@, currency@),
{
    let count: usize = prices.len();
    let (low, _) = extremes(prices);
    let mut s = String::new();
    push_decimal(&mut s, count as u64);
    s.append(
        if count == 1 {
            " pt"
        } else {
            " pts"
        },
    );
    s.append(" · min ");
    let lowest_text = euros_fixed(low, 2);
    s.append(lowest_text.as_str());
    s.append(" · now ");
    let latest_text = euros_fixed(prices[count - 1], 2);
    s.append(latest_text.as_str());
    s.append(" ");
    s.append(currency);
    proof {
        assert(Seq::<char>::empty() + decimal(count as nat) =~= decimal(count as nat));
    }
    s
}

/// The lowest price stands here, and nowhere before.
pub open spec fn is_first_lowest(values: Seq<i64>, i: int) -> bool {
    0 <= i < values.len() && values[i] == lowest(values) && forall|j: int|
        0 <= j < i ==> #[trigger] values[j] > lowest(values)
}

/// The picture shows the observations: the line through them where there is
/// more than one, the marks of the latest and of the lowest price, and the texts.
pub open spec fn pictures(s: Spark, prices: Seq<PricePoint>, currency: Seq<char>) -> bool {
    let v = values(prices);
    let i = v.len() - 1;
    &&& match s.line {
        Some(line) => v.len() > 1 && line@ == join(point_texts(v), " "@),
        None => v.len() == 1,
    }
    &&& s.x@ == value_text(x_of(v.len() as int, i), 1)
    &&& s.y@ == value_text(y_of(v[i] as int, lowest(v), highest(v)), 1)
    &&& exists|k: int|
        #[trigger] is_first_lowest(v, k) && s.low_x@ == value_text(x_of(v.len() as int, k), 1)
    &&& s.low_y@ == value_text(y_of(lowest(v), lowest(v), highest(v)), 1)
    &&& s.title@ == title_text(prices, currency)
    &&& s.caption@ == caption_text(v, currency)
}

/// The position of the lowest of some prices, the first one of several.
fn lowest_position(prices: &Vec<i64>, low: i64) -> (r: usize)
    requires
        prices@.len() > 0,
        low == lowest(prices@),
    ensures
        is_first_lowest(prices@, r as int),
{
    let n: usize = prices.len();
    let mut i: usize = 0;
    proof {
        lemma_lowest_is_there(prices@);
    }
    while prices[i] != low
        invariant
            i < n == prices@.len(),
            low == lowest(prices@),
            prices@.contains(low),
            forall|j: int| 0 <= j < i ==> #[trigger] prices@[j] > low,
        decreases prices@.len() - i,
    {
        proof {
            lemma_extremes(prices@, i as int);
            let k = choose|k: int| 0 <= k < prices@.len() && prices@[k] == low;
            assert(k > i);
        }
        i = i + 1;
    }
    i
}

proof fn lemma_lowest_is_there(prices: Seq<i64>)
    requires
        prices.len() > 0,
    ensures
        prices.contains(lowest(prices) as i64),
        i64::MIN <= lowest(prices) <= i64::MAX,
    decreases prices.len(),
{
    if prices.len() > 1 {
        let init = prices.drop_last();
        lemma_lowest_is_there(init);
        let k = choose|k: int| 0 <= k < init.len() && init[k] == lowest(init) as i64;
        assert(prices[k] == init[k]);
        assert(prices[prices.len() - 1] == prices.last());
    } else {
        assert(prices[0] == lowest(prices));
    }
}

/// The picture of a price history; none where nothing was observed.
pub fn sparkline(prices: &Vec<PricePoint>, currency: &str) -> (r: Option<Spark>)
    requires
        span_fits(values(prices@)),
        prices@.len() <= i64::MAX,
    ensures
        match r {
            Some(s) => prices@.len() > 0 && pictures(s, prices@, currency@),
            None => prices@.len() == 0,
        },
{
    let n: usize = prices.len();
    if n == 0 {
        return None;
    }
    let v = values_of(prices);
    proof {
        lemma_extremes(v@, n - 1);
    }
    let (low, high) = extremes(&v);
    let k: usize = lowest_position(&v, low);
    let x = x_at(n, n - 1);
    let y = y_at(v[n - 1], low, high);
    let low_x = x_at(n, k);
    let low_y = y_at(low, low, high);
    proof {
        lemma_value_text(x, 1);
        lemma_value_text(y, 1);
        lemma_value_text(low_x, 1);
        lemma_value_text(low_y, 1);
        assert(is_first_lowest(v@, k as int));
    }
    let line = if n > 1 {
        Some(polyline_points(&v))
    } else {
        None
    };
    Some(
        Spark {
            line,
            x: fixed(x, 1),
            y: fixed(y, 1),
            low_x: fixed(low_x, 1),
            low_y: fixed(low_y, 1),
            title: title_of(prices, currency),
            caption: caption_of(&v, currency),
        },
    )
}

/// The prices of some observations.
fn values_of(prices: &Vec<PricePoint>) -> (r: Vec<i64>)
    ensures
        r@ == values(prices@),
{
    let n: usize = prices.len();
    let mut v: Vec<i64> = Vec::new();
    let mut i: usize = 0;
    while i < n
        invariant
            i <= n == prices@.len(),
            v@.len() == i,
            forall|k: int| 0 <= k < i ==> #[trigger] v@[k] == prices@[k].price_cents,
        decreases n - i,
    {
        v.push(prices[i].price_cents);
        i = i + 1;
    }
    proof {
        assert(v@ =~= values(prices@));
    }
    v
}

/// Does an `i64` hold the span of the prices?
pub fn has_fitting_history(prices: &Vec<PricePoint>) -> (r: bool)
    ensures
        r == span_fits(values(prices@)),
{
    let v = values_of(prices);
    has_fitting_span(&v)
}

} // verus!
