//! Points in time, held as seconds and nanoseconds since the Unix epoch.
use vstd::prelude::*;

verus! {

/// A UTC instant: whole seconds since 1970-01-01T00:00:00Z and the
/// nanoseconds within that second.
#[derive(Clone, Copy, PartialEq, Eq, Structural)]
pub struct Timestamp {
    pub secs: i64,
    pub nanos: u32,
}

/// Calls `chrono::Utc::now` and keeps its seconds and nanoseconds.  The clock
/// decides the value, so nothing is claimed of it.
#[verifier::external_body]
pub(crate) fn now_timestamp() -> Timestamp {
    let now = chrono::Utc::now();
    Timestamp { secs: now.timestamp(), nanos: now.timestamp_subsec_nanos() }
}

} // verus!
