//! Reporting the state of a cache.

use crate::cached::CacheStats;
use crate::text::{parse_number, parsed_number};
use vstd::prelude::*;

verus! {

/// How long to wait between two reports to the log, where nothing else is configured.
pub const STATS_LOG_INTERVAL_MS: u64 = 30000;

/// How long to wait between two reports to statsd, where nothing else is configured.
pub const STATS_EMIT_INTERVAL_MS: u64 = 5000;

/// How long to wait between two reports, in milliseconds: what is configured, which has to be a
/// number, or `default`.
pub fn stats_interval_ms(configured: Option<&str>, default: u64) -> (interval: u64)
    requires
        configured matches Some(text) ==> parsed_number(text@) is Some,
    ensures
        interval == (match configured {
            Some(text) => parsed_number(text@)->0,
            None => default,
        }),
{
    match configured {
        Some(text) => parse_number(text).unwrap(),
        None => default,
    }
}

/// The gauges that are reported to statsd, in order, each with its value.
pub fn gauges(stats: &CacheStats) -> (gauges: Vec<(&'static str, u64)>)
    ensures
        gauges@.len() == 3,
        gauges@[0].0@ == "cache.pending_requests"@,
        gauges@[0].1 == stats.pending_requests,
        gauges@[1].0@ == "cache.pending_disk_write_bytes"@,
        gauges@[1].1 == stats.pending_disk_write_bytes,
        gauges@[2].0@ == "cache.pending_disk_write_pages"@,
        gauges@[2].1 == stats.pending_disk_write_pages,
{
    vec![
        ("cache.pending_requests", stats.pending_requests),
        ("cache.pending_disk_write_bytes", stats.pending_disk_write_bytes),
        ("cache.pending_disk_write_pages", stats.pending_disk_write_pages),
    ]
}

} // verus!
