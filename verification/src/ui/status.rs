//! The strip of sources: is anything actually scraping?
use crate::listing::Timestamp;
use crate::status::SourceStatus;
use crate::store::is_ordinary;
use crate::text::{decimal, int_text, push_decimal, push_int};
use vstd::prelude::*;
use vstd::string::StringExecFns;

verus! {

pub uninterp spec fn minutes_between(now: Timestamp, then: Timestamp) -> Option<i64>;

/// The whole minutes from one point in time to another, what is left over cut
/// off.
pub open spec fn whole_minutes(now: Timestamp, then: Timestamp) -> int {
    let nanos = (now.secs - then.secs) * 1_000_000_000 + (now.nanos - then.nanos);
    if nanos >= 0 {
        nanos / 60_000_000_000
    } else {
        -((-nanos) / 60_000_000_000)
    }
}

/// The difference of two `chrono::DateTime`s made by `from_timestamp`, by
/// `TimeDelta::num_minutes`, which the name `minutes_between` stands for; nothing
/// where the calendar does not reach. Between ordinary times it is the whole
/// minutes.
#[verifier::external_body]
fn chrono_minutes(now: Timestamp, then: Timestamp) -> (r: Option<i64>)
    ensures
        r == minutes_between(now, then),
        is_ordinary(now) && is_ordinary(then) ==> r is Some && r->0 == whole_minutes(now, then),
{
    let now = chrono::DateTime::from_timestamp(now.secs, now.nanos)?;
    let then = chrono::DateTime::from_timestamp(then.secs, then.nanos)?;
    Some(now.signed_duration_since(then).num_minutes())
}

/// The minutes since a source last ran; nothing where it has not run, or where
/// the calendar does not reach.
pub fn minutes_since(last_tick: Option<Timestamp>, now: Timestamp) -> (r: Option<i64>)
    ensures
        match last_tick {
            Some(then) => {
                &&& r == minutes_between(now, then)
                &&& is_ordinary(now) && is_ordinary(then) ==> r is Some && r->0 == whole_minutes(
                    now,
                    then,
                )
            },
            None => r is None,
        },
{
    match last_tick {
        Some(then) => chrono_minutes(now, then),
        None => None,
    }
}

/// Two digits at least.
pub open spec fn two_digits(n: nat) -> Seq<char> {
    if n < 10 {
        seq!['0'] + decimal(n)
    } else {
        decimal(n)
    }
}

/// How long ago a source ran, given the minutes since; nothing where it has not
/// run.
pub open spec fn ago_text(minutes: Option<i64>) -> Seq<char> {
    match minutes {
        None => "waiting for first pass"@,
        Some(m) => if m < 1 {
            "just now"@
        } else if m < 60 {
            int_text(m as int) + " min ago"@
        } else {
            int_text(m as int / 60) + "h"@ + two_digits((m as int % 60) as nat) + " ago"@
        },
    }
}

pub fn ago(minutes: Option<i64>) -> (r: String)
    ensures
        r@ == ago_text(minutes),
{
    match minutes {
        None => "waiting for first pass".to_owned(),
        Some(m) => if m < 1 {
            "just now".to_owned()
        } else if m < 60 {
            let mut s = String::new();
            push_int(&mut s, m);
            s.append(" min ago");
            proof {
                assert(s@ =~= ago_text(minutes));
            }
            s
        } else {
            let mut s = String::new();
            push_int(&mut s, m / 60);
            s.append("h");
            let rest: u64 = (m % 60) as u64;
            if rest < 10 {
                s.push('0');
            }
            push_decimal(&mut s, rest);
            s.append(" ago");
            proof {
                assert(s@ =~= ago_text(minutes));
            }
            s
        },
    }
}

/// What the strip says of a source: failing, how much it fetched, or how often
/// it runs; and when it last ran.
pub open spec fn source_text(s: SourceStatus, minutes: Option<i64>) -> Seq<char> {
    if s.last_error is Some {
        s.source_id@ + " ✗ failing, "@ + ago_text(minutes)
    } else {
        match s.last_stats {
            Some(stats) => s.source_id@ + " ✓ "@ + decimal(stats.fetched as nat) + " annonces, "@
                + ago_text(minutes),
            None => s.source_id@ + " · every "@ + decimal(s.interval_minutes as nat) + " min, "@
                + ago_text(minutes),
        }
    }
}

/// The label of a source in the strip. `minutes` is how long ago it last ran.
pub fn source_label(s: &SourceStatus, minutes: Option<i64>) -> (r: String)
    ensures
        r@ == source_text(*s, minutes),
{
    let when = ago(minutes);
    let mut text = s.source_id.clone();
    if s.last_error.is_some() {
        text.append(" ✗ failing, ");
    } else {
        match &s.last_stats {
            Some(stats) => {
                text.append(" ✓ ");
                push_decimal(&mut text, stats.fetched);
                text.append(" annonces, ");
            },
            None => {
                text.append(" · every ");
                push_decimal(&mut text, s.interval_minutes);
                text.append(" min, ");
            },
        }
    }
    text.append(when.as_str());
    text
}

/// Is the source marked as failing?
pub fn is_failing(s: &SourceStatus) -> (r: bool)
    ensures
        r == (s.last_error is Some),
{
    s.last_error.is_some()
}

} // verus!
