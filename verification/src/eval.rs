//! Grouping labels of the evaluation harness.

use vstd::prelude::*;

use crate::proximity::SignalState;

verus! {

/// Proximity tier of a state for stratified statistics: `Triggered`,
/// `Active` or `Primed`; Neutral bars are not grouped.
pub open spec fn state_tier_spec(state: SignalState) -> Option<Seq<char>> {
    match state {
        SignalState::TriggeredBuy | SignalState::TriggeredSell => Some("Triggered"@),
        SignalState::ActiveBuy | SignalState::ActiveSell => Some("Active"@),
        SignalState::PrimedBuy | SignalState::PrimedSell => Some("Primed"@),
        SignalState::Neutral => None,
    }
}

/// Proximity tier label of a state (`None` for Neutral).
pub fn state_tier(state: SignalState) -> (t: Option<&'static str>)
    ensures
        match t {
            Some(s) => state_tier_spec(state) == Some(s@),
            None => state_tier_spec(state) is None,
        },
{
    match state {
        SignalState::TriggeredBuy | SignalState::TriggeredSell => Some("Triggered"),
        SignalState::ActiveBuy | SignalState::ActiveSell => Some("Active"),
        SignalState::PrimedBuy | SignalState::PrimedSell => Some("Primed"),
        SignalState::Neutral => None,
    }
}

} // verus!
