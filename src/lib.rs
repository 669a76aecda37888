//! A cron-style scheduling engine: schedule fields, the next-occurrence
//! search, memoized entries, the config grammar and the dispatch decisions.

pub mod constraint;
pub mod time;
pub mod schedule;
pub mod entry;
pub mod config;
pub mod dispatch;
