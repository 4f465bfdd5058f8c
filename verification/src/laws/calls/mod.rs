//! What the calls give back: laws over the arguments and the results of the functions themselves.
pub mod keeping;
pub mod reading;
pub mod scraping;
pub mod serving;
pub mod showing;
pub mod tracking;
