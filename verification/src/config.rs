//! The settings and their defaults.
use crate::double::{Double, ONE_BITS};
use vstd::prelude::*;

verus! {

/// Where the server listens.
#[derive(Debug, Clone, Copy, PartialEq, Eq)]
pub struct Listen {
    pub a: u8,
    pub b: u8,
    pub c: u8,
    pub d: u8,
    pub port: u16,
}

#[derive(Debug, Clone, PartialEq)]
pub struct Config {
    pub listen: Listen,
    pub db_path: String,
    /// Directory of the built web frontend to serve (unset: API only).
    pub static_dir: Option<String>,
    pub scrape: ScrapeConfig,
    pub notifications: NotificationsConfig,
    pub leboncoin: LeboncoinConfig,
    /// Needs a fetch command.
    pub ouestfrance: OuestFranceConfig,
    pub llm: LlmConfig,
    pub enrichment: EnrichmentConfig,
}

impl Default for Config {
    fn default() -> (r: Config)
        ensures
            r.listen == (Listen { a: 0, b: 0, c: 0, d: 0, port: 4810 }),
            r.db_path@ == "terrier.db"@,
            r.static_dir is None,
            r.scrape.is_default(),
            r.notifications.is_default(),
            r.leboncoin.is_default(),
            r.ouestfrance.is_default(),
            r.llm.is_default(),
            r.enrichment.is_default(),
    {
        Config {
            listen: Listen { a: 0, b: 0, c: 0, d: 0, port: 4810 },
            db_path: "terrier.db".to_owned(),
            static_dir: None,
            scrape: ScrapeConfig::default(),
            notifications: NotificationsConfig::default(),
            leboncoin: LeboncoinConfig::default(),
            ouestfrance: OuestFranceConfig::default(),
            llm: LlmConfig::default(),
            enrichment: EnrichmentConfig::default(),
        }
    }
}

#[derive(Debug, Clone, PartialEq)]
pub struct ScrapeConfig {
    /// Failures of one source in a row before an alert.
    pub failure_alert_after: u32,
    /// Push a known match again when its price drops by at least this much, in
    /// percent.
    pub renotify_drop_pct: Double,
    /// No more search locations than this go into the rotation.
    pub max_search_locations: usize,
}

impl ScrapeConfig {
    pub open spec fn is_default(self) -> bool {
        &&& self.failure_alert_after == 5
        &&& self.renotify_drop_pct == Double { bits: ONE_BITS }
        &&& self.max_search_locations == 20
    }
}

impl Default for ScrapeConfig {
    fn default() -> (r: ScrapeConfig)
        ensures
            r.is_default(),
    {
        ScrapeConfig {
            failure_alert_after: 5,
            renotify_drop_pct: Double { bits: ONE_BITS },
            max_search_locations: 20,
        }
    }
}

#[derive(Debug, Clone, PartialEq)]
pub struct NotificationsConfig {
    /// Base URL of the ntfy server; unset: no notifications.
    pub ntfy_url: Option<String>,
    pub topic: String,
    /// File with the bearer token for protected topics.
    pub token_file: Option<String>,
}

impl NotificationsConfig {
    pub open spec fn is_default(self) -> bool {
        self.ntfy_url is None && self.topic@.len() == 0 && self.token_file is None
    }
}

impl Default for NotificationsConfig {
    fn default() -> (r: NotificationsConfig)
        ensures
            r.is_default(),
    {
        NotificationsConfig { ntfy_url: None, topic: String::new(), token_file: None }
    }
}

#[derive(Debug, Clone, PartialEq)]
pub struct LeboncoinConfig {
    pub enabled: bool,
    /// Baseline locations; those of the searches pile on top.
    pub locations: Vec<String>,
    pub pages_per_location: u32,
    pub delay_ms: u64,
    pub interval_minutes: u64,
}

impl LeboncoinConfig {
    pub open spec fn is_default(self) -> bool {
        &&& !self.enabled
        &&& self.locations@.len() == 0
        &&& self.pages_per_location == 1
        &&& self.delay_ms == 3000
        &&& self.interval_minutes == 60
    }
}

impl Default for LeboncoinConfig {
    fn default() -> (r: LeboncoinConfig)
        ensures
            r.is_default(),
    {
        LeboncoinConfig {
            enabled: false,
            locations: Vec::new(),
            pages_per_location: 1,
            delay_ms: 3000,
            interval_minutes: 60,
        }
    }
}

#[derive(Debug, Clone, PartialEq)]
pub struct OuestFranceConfig {
    pub enabled: bool,
    pub locations: Vec<String>,
    pub delay_ms: u64,
    pub interval_minutes: u64,
    /// Command that fetches a page, with `{url}` for the page's URL.
    pub fetch_command: Vec<String>,
}

impl OuestFranceConfig {
    pub open spec fn is_default(self) -> bool {
        &&& !self.enabled
        &&& self.locations@.len() == 0
        &&& self.delay_ms == 5000
        &&& self.interval_minutes == 120
        &&& self.fetch_command@.len() == 0
    }
}

impl Default for OuestFranceConfig {
    fn default() -> (r: OuestFranceConfig)
        ensures
            r.is_default(),
    {
        OuestFranceConfig {
            enabled: false,
            locations: Vec::new(),
            delay_ms: 5000,
            interval_minutes: 120,
            fetch_command: Vec::new(),
        }
    }
}

/// The language model that reads descriptions, as the configuration file has it.
#[derive(Debug, Clone, PartialEq)]
pub struct LlmConfig {
    pub enabled: bool,
    pub base_url: String,
    pub model: String,
    /// File with the bearer key for the server.
    pub api_key_file: Option<String>,
    pub timeout_secs: u64,
}

impl LlmConfig {
    pub open spec fn is_default(self) -> bool {
        &&& !self.enabled
        &&& self.base_url@ == "http://127.0.0.1:8080/v1"@
        &&& self.model@.len() == 0
        &&& self.api_key_file is None
        &&& self.timeout_secs == 120
    }
}

impl Default for LlmConfig {
    fn default() -> (r: LlmConfig)
        ensures
            r.is_default(),
    {
        LlmConfig {
            enabled: false,
            base_url: "http://127.0.0.1:8080/v1".to_owned(),
            model: String::new(),
            api_key_file: None,
            timeout_secs: 120,
        }
    }
}

#[derive(Debug, Clone, PartialEq)]
pub struct EnrichmentConfig {
    /// Seconds between two looks at the queue.
    pub poll_seconds: u64,
    pub max_attempts: u32,
    /// Photos fetched per listing.
    pub max_images: usize,
    pub images_dir: String,
}

impl EnrichmentConfig {
    pub open spec fn is_default(self) -> bool {
        &&& self.poll_seconds == 60
        &&& self.max_attempts == 8
        &&& self.max_images == 10
        &&& self.images_dir@ == "images"@
    }
}

impl Default for EnrichmentConfig {
    fn default() -> (r: EnrichmentConfig)
        ensures
            r.is_default(),
    {
        EnrichmentConfig {
            poll_seconds: 60,
            max_attempts: 8,
            max_images: 10,
            images_dir: "images".to_owned(),
        }
    }
}

} // verus!
