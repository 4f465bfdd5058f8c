//! Per-source scheduling: exponential backoff, and a single alert per outage.
use crate::listing::Timestamp;
use crate::pipeline::{says, PipelineStats, Push};
use crate::status::{SourceStatus, TickStats};
use crate::store::{double_up_to, doubled, lemma_doubled_monotone};
use vstd::arithmetic::power2::pow2;
use vstd::prelude::*;
use vstd::string::StringExecFns;

verus! {

/// How often a source has failed in a row, and whether that has been said.
#[derive(Debug, Clone, Copy, PartialEq, Eq, Structural)]
pub struct FailureState {
    pub consecutive: u32,
    pub alert_after: u32,
    pub alerted: bool,
}

/// The backoff in seconds after a number of failures in a row: a minute,
/// doubled with every further one, up to an hour.
pub open spec fn backoff(consecutive: int) -> nat {
    doubled(60, (consecutive - 1) as nat, 3600)
}

impl FailureState {
    /// The state after one more failure. The count stops at its largest value.
    pub open spec fn failed(self) -> FailureState {
        FailureState {
            consecutive: if self.consecutive < u32::MAX {
                (self.consecutive + 1) as u32
            } else {
                self.consecutive
            },
            ..self
        }
    }

    /// An alert is due: the outage is long enough, and has not been said yet.
    pub open spec fn alert_due(self) -> bool {
        !self.alerted && self.consecutive >= self.alert_after
    }

    /// The state once a due alert is taken.
    pub open spec fn after_alert(self) -> FailureState {
        FailureState { alerted: self.alerted || self.alert_due(), ..self }
    }

    /// The state after a success.
    pub open spec fn recovered(self) -> FailureState {
        FailureState { consecutive: 0, alerted: false, ..self }
    }

    pub fn new(alert_after: u32) -> (r: FailureState)
        ensures
            r == (FailureState { consecutive: 0, alert_after, alerted: false }),
    {
        FailureState { consecutive: 0, alert_after, alerted: false }
    }

    /// Counts a failure, and says for how many seconds to back off.
    pub fn record_failure(&mut self) -> (r: u64)
        ensures
            *final(self) == old(self).failed(),
            r == backoff(final(self).consecutive as int),
    {
        if self.consecutive < u32::MAX {
            self.consecutive = self.consecutive + 1;
        }
        double_up_to(60, self.consecutive - 1, 3600)
    }

    /// Is an alert due? It is taken with the answer: at most one per outage.
    pub fn should_alert(&mut self) -> (r: bool)
        ensures
            r == old(self).alert_due(),
            *final(self) == old(self).after_alert(),
    {
        if !self.alerted && self.consecutive >= self.alert_after {
            self.alerted = true;
            return true;
        }
        false
    }

    pub fn record_success(&mut self)
        ensures
            *final(self) == old(self).recovered(),
    {
        self.consecutive = 0;
        self.alerted = false;
    }
}

/// The backoff starts at a minute, never shrinks while an outage lasts, and
/// never passes an hour, which it reaches with the seventh failure.
pub proof fn law_backoff_grows_and_caps(n: nat, m: nat)
    requires
        1 <= n <= m,
    ensures
        backoff(1) == 60,
        60 <= backoff(n as int) <= backoff(m as int) <= 3600,
        n >= 7 ==> backoff(n as int) == 3600,
{
    vstd::arithmetic::power2::lemma2_to64();
    lemma_doubled_monotone(60, 0, (n - 1) as nat, 3600);
    lemma_doubled_monotone(60, (n - 1) as nat, (m - 1) as nat, 3600);
    if n >= 7 {
        assert(pow2(6) == 64);
        lemma_doubled_monotone(60, 6, (n - 1) as nat, 3600);
    }
}

/// The state after `n` failures in a row, each followed by the question
/// whether to alert.
pub open spec fn outage(start: FailureState, n: nat) -> FailureState
    decreases n,
{
    if n == 0 {
        start
    } else {
        outage(start, (n - 1) as nat).failed().after_alert()
    }
}

/// How many alerts `n` failures in a row bring.
pub open spec fn alerts(start: FailureState, n: nat) -> nat
    decreases n,
{
    if n == 0 {
        0
    } else {
        alerts(start, (n - 1) as nat) + if outage(start, (n - 1) as nat).failed().alert_due() {
            1nat
        } else {
            0nat
        }
    }
}

/// An outage brings one alert once it is long enough, none before, and never a
/// second one.
pub proof fn law_one_alert_per_outage(start: FailureState, n: nat)
    requires
        start.consecutive == 0,
        !start.alerted,
        n <= u32::MAX,
    ensures
        alerts(start, n) == if n >= 1 && n >= start.alert_after {
            1nat
        } else {
            0nat
        },
        outage(start, n).consecutive == n,
        outage(start, n).alert_after == start.alert_after,
        outage(start, n).alerted == (n >= 1 && n >= start.alert_after),
    decreases n,
{
    if n > 0 {
        law_one_alert_per_outage(start, (n - 1) as nat);
    }
}

/// A success arms the alert again, whatever came before.
pub proof fn law_success_rearms(state: FailureState, n: nat)
    requires
        1 <= n <= u32::MAX,
        n >= state.alert_after,
    ensures
        alerts(state.recovered(), n) == 1,
{
    law_one_alert_per_outage(state.recovered(), n);
}

/// Takes the outcome of a tick into the status of its source.
pub fn record_tick(status: &mut SourceStatus, result: Result<TickStats, String>, now: Timestamp)
    requires
        result is Err ==> old(status).consecutive_failures < u32::MAX,
    ensures
        *final(status) == match result {
            Ok(stats) => SourceStatus {
                last_tick: Some(now),
                last_stats: Some(stats),
                last_error: None,
                consecutive_failures: 0,
                ..*old(status)
            },
            Err(error) => SourceStatus {
                last_tick: Some(now),
                last_error: Some(error),
                consecutive_failures: (old(status).consecutive_failures + 1) as u32,
                ..*old(status)
            },
        },
{
    status.last_tick = Some(now);
    match result {
        Ok(stats) => {
            status.last_stats = Some(stats);
            status.last_error = None;
            status.consecutive_failures = 0;
        },
        Err(error) => {
            status.last_error = Some(error);
            status.consecutive_failures = status.consecutive_failures + 1;
        },
    }
}

/// The alert about a source that keeps failing.
pub open spec fn says_failing(push: Push, source_id: Seq<char>, error: Seq<char>) -> bool {
    says(
        push,
        "terrier: source "@ + source_id + " is failing"@,
        "Repeated scrape failures, backing off.\nLast error: "@ + error,
        "warning,terrier"@,
        "high"@,
    )
}

/// The alert about a failing source, when it is due.
pub fn maybe_alert(failures: &mut FailureState, source_id: &str, error: &str) -> (r: Option<Push>)
    ensures
        *final(failures) == old(failures).after_alert(),
        match r {
            Some(push) => old(failures).alert_due() && says_failing(push, source_id@, error@),
            None => !old(failures).alert_due(),
        },
{
    if failures.should_alert() {
        Some(
            Push {
                title: "terrier: source ".to_owned().concat(source_id).concat(" is failing"),
                message: "Repeated scrape failures, backing off.\nLast error: ".to_owned().concat(
                    error,
                ),
                tags: "warning,terrier".to_owned(),
                priority: "high".to_owned(),
            },
        )
    } else {
        None
    }
}

/// What to do after a tick: sleep this long, and send this alert first.
pub struct AfterTick {
    pub sleep_secs: u64,
    pub alert: Option<Push>,
    /// What to take into the status of the source.
    pub result: Result<TickStats, String>,
}

/// A tick of a source has ended: with how many listings it fetched and what the
/// pipeline made of them, or with an error of either. After a success the source
/// rests for its interval; after a failure it backs off.
pub fn run_source(
    failures: &mut FailureState,
    source_id: &str,
    interval_secs: u64,
    outcome: Result<(u64, PipelineStats), String>,
) -> (r: AfterTick)
    ensures
        match outcome {
            Ok((fetched, stats)) => {
                &&& *final(failures) == old(failures).recovered()
                &&& r.sleep_secs == interval_secs
                &&& r.alert is None
                &&& r.result == Ok::<TickStats, String>(
                    TickStats {
                        fetched,
                        new_listings: stats.new_listings,
                        updated_listings: stats.updated_listings,
                        skipped: stats.skipped,
                        notified: stats.notified,
                        gone: stats.gone,
                        suppressed: stats.suppressed,
                    },
                )
            },
            Err(error) => {
                &&& *final(failures) == old(failures).failed().after_alert()
                &&& r.sleep_secs == backoff(old(failures).failed().consecutive as int)
                &&& r.result == Err::<TickStats, String>(error)
                &&& match r.alert {
                    Some(push) => old(failures).failed().alert_due() && says_failing(
                        push,
                        source_id@,
                        error@,
                    ),
                    None => !old(failures).failed().alert_due(),
                }
            },
        },
{
    match outcome {
        Ok((fetched, stats)) => {
            failures.record_success();
            AfterTick { sleep_secs: interval_secs, alert: None, result: Ok(stats.tick(fetched)) }
        },
        Err(error) => {
            let sleep_secs: u64 = failures.record_failure();
            let alert = maybe_alert(failures, source_id, error.as_str());
            AfterTick { sleep_secs, alert, result: Err(error) }
        },
    }
}

} // verus!
