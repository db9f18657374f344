//! Differential-update planning for the OHLCV cache: given the last
//! cached bar of a (symbol, timeframe), decide what to ask the sidecar for.

use vstd::prelude::*;

use crate::models::{bar_seconds_spec, Tf};

verus! {

/// What to fetch for a (symbol, tf) given the cache state.
#[derive(Debug, Clone, Copy, PartialEq, Eq, Structural)]
pub enum FetchDecision {
    /// No cached bars — request full history.
    Full,
    /// Cached but stale — request from the last cached bar (overlap upserts).
    From(i64),
    /// Cache is fresh for this timeframe.
    Skip,
}

/// The decision for the latest cached bar `last` at time `now`: no bars ⇒
/// full history; older than one bar period ⇒ from the last bar; else skip.
pub open spec fn plan_spec(last: Option<i64>, tf: Tf, now: i64) -> FetchDecision {
    match last {
        None => FetchDecision::Full,
        Some(l) => if now - l > bar_seconds_spec(tf) {
            FetchDecision::From(l)
        } else {
            FetchDecision::Skip
        },
    }
}

/// Decide what to fetch for a (symbol, tf) at time `now` (Unix seconds) from
/// its latest cached bar timestamp. `now - last` must fit in an `i64`, as the
/// subtraction does.
pub fn plan_fetch(last: Option<i64>, tf: Tf, now: i64) -> (d: FetchDecision)
    requires
        last matches Some(l) ==> i64::MIN <= now - l <= i64::MAX,
    ensures
        d == plan_spec(last, tf, now),
{
    match last {
        None => FetchDecision::Full,
        Some(l) => {
            if now - l > tf.bar_seconds() {
                FetchDecision::From(l)
            } else {
                FetchDecision::Skip
            }
        },
    }
}

/// Law: a cache whose newest bar is no older than one bar period is left
/// alone, an empty one is fetched in full, and a stale one is fetched from
/// its newest bar (so the overlap re-writes it).
pub proof fn law_plan_cases(last: Option<i64>, tf: Tf, now: i64)
    ensures
        (plan_spec(last, tf, now) == FetchDecision::Full) <==> last is None,
        plan_spec(last, tf, now) matches FetchDecision::From(l) ==> last == Some(l) && now - l
            > bar_seconds_spec(tf),
        (plan_spec(last, tf, now) == FetchDecision::Skip) <==> (last matches Some(l) && now - l
            <= bar_seconds_spec(tf)),
{
}

/// Law: right after the cache is brought up to `now` (its newest bar is at
/// most one bar period old), planning again at `now` fetches nothing.
pub proof fn law_plan_after_refresh(newest: i64, tf: Tf, now: i64)
    requires
        newest <= now <= newest + bar_seconds_spec(tf),
    ensures
        plan_spec(Some(newest), tf, now) == FetchDecision::Skip,
{
}

} // verus!
