//! Liveness: is anything actually scraping, and did a search match?
use crate::listing::Timestamp;
use std::collections::HashMap;
use vstd::prelude::*;

verus! {

#[derive(Debug, Clone, Copy, PartialEq, Eq, Structural)]
pub struct TickStats {
    pub fetched: u64,
    pub new_listings: u64,
    pub updated_listings: u64,
    pub skipped: u64,
    pub notified: u64,
    pub gone: u64,
    /// Matches recorded without a push (wanted ads).
    pub suppressed: u64,
}

impl Default for TickStats {
    fn default() -> (r: TickStats)
        ensures
            r == (TickStats {
                fetched: 0,
                new_listings: 0,
                updated_listings: 0,
                skipped: 0,
                notified: 0,
                gone: 0,
                suppressed: 0,
            }),
    {
        TickStats {
            fetched: 0,
            new_listings: 0,
            updated_listings: 0,
            skipped: 0,
            notified: 0,
            gone: 0,
            suppressed: 0,
        }
    }
}

#[derive(Debug, Clone, PartialEq)]
pub struct SourceStatus {
    pub source_id: String,
    pub interval_minutes: u64,
    pub last_tick: Option<Timestamp>,
    pub last_stats: Option<TickStats>,
    pub last_error: Option<String>,
    pub consecutive_failures: u32,
}

impl SourceStatus {
    /// A source that has not run yet.
    pub fn idle(source_id: &str, interval_minutes: u64) -> (r: SourceStatus)
        ensures
            r.source_id@ == source_id@,
            r.interval_minutes == interval_minutes,
            r.last_tick is None,
            r.last_stats is None,
            r.last_error is None,
            r.consecutive_failures == 0,
    {
        SourceStatus {
            source_id: source_id.to_owned(),
            interval_minutes,
            last_tick: None,
            last_stats: None,
            last_error: None,
            consecutive_failures: 0,
        }
    }
}

/// The language model as the status page shows it.
#[derive(Debug, Clone, PartialEq)]
pub struct LlmStatus {
    pub enabled: bool,
    pub model: Option<String>,
    /// Extractions running now.
    pub busy: u32,
}

#[derive(Debug, Clone, PartialEq)]
pub struct StatusResponse {
    pub sources: Vec<SourceStatus>,
    /// Current match count per search id.
    pub search_matches: HashMap<u128, i64>,
    /// Listings waiting for enrichment.
    pub enrichment_pending: i64,
    pub llm: Option<LlmStatus>,
}

/// The connectivity probe, with build identity.
#[derive(Debug, Clone, PartialEq)]
pub struct HealthResponse {
    pub status: String,
    pub version: String,
    pub commit: Option<String>,
}

/// Per-commune price aggregates.
#[derive(Debug, Clone, PartialEq)]
pub struct CommuneStat {
    pub commune: String,
    pub postal_code: Option<String>,
    /// Active listings with a known surface.
    pub listings: i64,
    /// Median €/m² (cents) over active listings, now.
    pub median_m2_cents: Option<i64>,
    /// The same median over prices observed at least 30 days ago, when enough
    /// history exists: the anchor of the trend.
    pub median_m2_cents_30d: Option<i64>,
}

} // verus!
