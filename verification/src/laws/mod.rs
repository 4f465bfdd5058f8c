//! What the operations are for: laws over their inputs and results.
pub mod calls;
pub mod communes;
pub mod documents;
pub mod leboncoin;
pub mod matching;
pub mod normalizing;
pub mod numbers;
pub mod ouestfrance;
pub mod pushing;
pub mod reading;
pub mod running;
pub mod scraping;
pub mod showing;
pub mod storing;
pub mod texts;
