// SPDX-License-Identifier: AGPL-3.0-or-later
//! Wall-clock timestamps.

use vstd::prelude::*;

verus! {

/// A point in time in UTC: whole seconds since the Unix epoch and the
/// nanoseconds into that second.
#[derive(Clone, Copy, Debug, PartialEq, Eq, PartialOrd, Ord, Hash)]
pub struct Timestamp {
    pub secs: i64,
    pub nanos: u32,
}

/// The current time, read with `chrono::Utc::now` and split into the seconds
/// and sub-second nanoseconds that chrono reports for it. Nothing is claimed
/// of the value, which depends on the system clock. chrono itself panics if
/// that clock stands before the Unix epoch.
#[verifier::external_body]
pub(crate) fn now() -> Timestamp {
    let t = chrono::Utc::now();
    Timestamp { secs: t.timestamp(), nanos: t.timestamp_subsec_nanos() }
}

} // verus!
