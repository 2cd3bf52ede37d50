//! The system clock.

use std::time::{SystemTime, UNIX_EPOCH};
use vstd::prelude::*;
use crate::attr::Timestamp;

verus! {

/// Reads the system clock with `SystemTime::now` and gives the time as its
/// distance from `UNIX_EPOCH`, which `SystemTime::duration_since` measures
/// forwards (`Ok`) or backwards (`Err`). Nothing is claimed of the time that
/// comes back but what std promises of `Duration::subsec_nanos`: a fraction
/// of one second.
#[verifier::external_body]
pub(crate) fn current_time() -> (now: Timestamp)
    ensures
        now.wf(),
{
    match SystemTime::now().duration_since(UNIX_EPOCH) {
        Ok(d) => Timestamp { before_epoch: false, secs: d.as_secs(), nanos: d.subsec_nanos() },
        Err(e) => Timestamp {
            before_epoch: true,
            secs: e.duration().as_secs(),
            nanos: e.duration().subsec_nanos(),
        },
    }
}

} // verus!
