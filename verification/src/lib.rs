//! A tracker for real-estate adverts: what it records of every listing, which
//! saved searches a listing satisfies, and when to say so.
pub mod api;
pub mod client;
pub mod communes;
pub mod config;
pub mod double;
pub mod enrich;
pub mod fixed;
pub mod json;
pub mod laws;
pub mod limit;
pub mod listing;
pub mod llm;
pub mod normalize;
pub mod notify;
pub mod pipeline;
pub mod politeness;
pub mod ratio;
pub mod scheduler;
pub mod scrape;
pub mod search;
pub mod state;
pub mod status;
pub mod store;
pub mod text;
pub mod ui;
