//! Configuration presets and the integer parameter defaults that flow into
//! the indicator configuration. The floating-point
//! thresholds and weights live with the numeric engine.

use vstd::prelude::*;

verus! {

/// Threshold/gate preset. `Standard` is the walk-forward result; the raw
/// default configuration stays the un-tuned baseline.
#[derive(Debug, Clone, Copy, PartialEq, Eq, Structural)]
pub enum Preset {
    Conservative,
    Standard,
    Aggressive,
}

/// Q-Trend close-range window (bars); matches the TradingView Q-Trend script's stock
/// setting.
pub fn default_qtrend_period() -> (n: usize)
    ensures
        n == 200,
{
    200
}

/// Q-Trend ATR period.
pub fn default_qtrend_atr() -> (n: usize)
    ensures
        n == 14,
{
    14
}

/// ATR period of the Supertrend flip display layer.
pub fn default_stflip_atr() -> (n: usize)
    ensures
        n == 10,
{
    10
}

/// Initial chart window: about half a year of daily bars.
pub fn default_chart_bars() -> (n: usize)
    ensures
        n == 120,
{
    120
}

/// Forward window (daily bars) of the marker hit-rate column: about two
/// weeks, the same swing horizon as the evaluation harness.
pub fn default_marker_horizon_bars() -> (n: usize)
    ensures
        n == 10,
{
    10
}

} // verus!
