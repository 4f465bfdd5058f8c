//! The dashboard of communes: the median €/m², now and thirty days ago.
use crate::fixed::{move_text, percent_move};
use crate::pipeline::{format_price, price_text};
use crate::status::CommuneStat;
use crate::ui::listings::{place, place_text};
use vstd::prelude::*;
use vstd::string::StringExecFns;

verus! {

/// A row of the dashboard.
pub struct CommuneRow {
    pub name: String,
    pub now: String,
    pub before: String,
    /// The style of the trend: "ok" where prices have not risen.
    pub trend_class: &'static str,
    pub trend: String,
}

/// A median as text; a dash where there is none.
pub open spec fn median_text(cents: Option<i64>) -> Seq<char> {
    match cents {
        Some(c) => price_text(c as int),
        None => "—"@,
    }
}

fn median_label(cents: Option<i64>) -> (r: String)
    ensures
        r@ == median_text(cents),
{
    match cents {
        Some(c) => format_price(c),
        None => "—".to_owned(),
    }
}

/// There is a trend: both medians are known, and the earlier one is positive.
pub open spec fn has_trend(s: CommuneStat) -> bool {
    s.median_m2_cents is Some && s.median_m2_cents_30d is Some && s.median_m2_cents_30d->0 > 0
}

/// The move of the median is a number that an `i64` holds.
pub open spec fn trend_fits(s: CommuneStat) -> bool {
    has_trend(s) ==> i64::MIN <= s.median_m2_cents->0 - s.median_m2_cents_30d->0 <= i64::MAX
}

/// Does an `i64` hold the move of the median?
pub fn has_fitting_trend(s: &CommuneStat) -> (r: bool)
    ensures
        r == trend_fits(*s),
{
    match (s.median_m2_cents, s.median_m2_cents_30d) {
        (Some(now), Some(before)) => if before > 0 {
            let d: i128 = now as i128 - before as i128;
            d >= i64::MIN as i128 && d <= i64::MAX as i128
        } else {
            true
        },
        _ => true,
    }
}

/// A row of the dashboard.
pub fn commune_row(s: &CommuneStat) -> (r: CommuneRow)
    requires
        trend_fits(*s),
    ensures
        r.name@ == place_text(s.commune@, s.postal_code),
        r.now@ == median_text(s.median_m2_cents),
        r.before@ == median_text(s.median_m2_cents_30d),
        r.trend_class@ == if !has_trend(*s) {
            "muted"@
        } else if s.median_m2_cents->0 <= s.median_m2_cents_30d->0 {
            "ok"@
        } else {
            "warn"@
        },
        r.trend@ == if has_trend(*s) {
            move_text(s.median_m2_cents->0 as int, s.median_m2_cents_30d->0 as int) + "%"@
        } else {
            "—"@
        },
{
    let (trend_class, trend) = match (s.median_m2_cents, s.median_m2_cents_30d) {
        (Some(now), Some(before)) => if before > 0 {
            (
                if now <= before {
                    "ok"
                } else {
                    "warn"
                },
                percent_move(now, before).concat("%"),
            )
        } else {
            ("muted", "—".to_owned())
        },
        _ => ("muted", "—".to_owned()),
    };
    CommuneRow {
        name: place(s.commune.as_str(), &s.postal_code),
        now: median_label(s.median_m2_cents),
        before: median_label(s.median_m2_cents_30d),
        trend_class,
        trend,
    }
}

} // verus!
