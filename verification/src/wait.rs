//! Waiting for something in short looks, until a deadline.

use vstd::prelude::*;

verus! {

/// How long to look next, when this much of the time has gone by: at most one interval, and
/// not past the deadline. When the deadline has passed there is no next look.
pub open spec fn poll(elapsed_ns: u64, timeout_ns: u64, interval_ns: u64) -> Option<u64> {
    if elapsed_ns >= timeout_ns {
        None
    } else if timeout_ns - elapsed_ns < interval_ns {
        Some((timeout_ns - elapsed_ns) as u64)
    } else {
        Some(interval_ns)
    }
}

/// How long to look next.
pub fn next_poll(elapsed_ns: u64, timeout_ns: u64, interval_ns: u64) -> (look: Option<u64>)
    ensures
        look == poll(elapsed_ns, timeout_ns, interval_ns),
{
    if elapsed_ns >= timeout_ns {
        None
    } else if timeout_ns - elapsed_ns < interval_ns {
        Some(timeout_ns - elapsed_ns)
    } else {
        Some(interval_ns)
    }
}

/// While the time is not up there is a next look, and none reaches past the deadline.
pub proof fn polling_keeps_the_deadline(elapsed_ns: u64, timeout_ns: u64, interval_ns: u64)
    requires
        interval_ns > 0,
    ensures
        poll(elapsed_ns, timeout_ns, interval_ns) is Some == (elapsed_ns < timeout_ns),
        poll(elapsed_ns, timeout_ns, interval_ns) matches Some(look) ==> 0 < look <= interval_ns
            && elapsed_ns + look <= timeout_ns,
{
}

/// A look lasts an interval, or to the deadline if that comes first, and there is none after
/// the deadline.
pub proof fn looks_last_an_interval_or_to_the_deadline(
    elapsed_ns: u64,
    timeout_ns: u64,
    interval_ns: u64,
    look: Option<u64>,
)
    requires
        call_ensures(next_poll, (elapsed_ns, timeout_ns, interval_ns), look),
    ensures
        look is Some <==> elapsed_ns < timeout_ns,
        look matches Some(ns) ==> ns <= interval_ns && elapsed_ns + ns <= timeout_ns && (ns
            == interval_ns || elapsed_ns + ns == timeout_ns),
{
}

} // verus!
