//! Market regime labels. Detection itself works on floating-point
//! ADX/DI/Choppiness readings; this module holds the label and its indexing.

use vstd::prelude::*;

verus! {

/// Market regime. Index order (`index()`) matches the columns of the regime
/// weight table.
#[derive(Debug, Clone, Copy, PartialEq, Eq, PartialOrd, Ord, Structural)]
pub enum Regime {
    TrendUp,
    TrendDown,
    Range,
    Transition,
}

impl Regime {
    pub open spec fn index_spec(self) -> nat {
        match self {
            Regime::TrendUp => 0,
            Regime::TrendDown => 1,
            Regime::Range => 2,
            Regime::Transition => 3,
        }
    }

    pub open spec fn direction_spec(self) -> int {
        match self {
            Regime::TrendUp => 1,
            Regime::TrendDown => -1,
            _ => 0,
        }
    }

    /// Column index into the regime weight table (TrendUp, TrendDown, Range,
    /// Transition).
    pub fn index(self) -> (i: usize)
        ensures
            i == self.index_spec(),
    {
        match self {
            Regime::TrendUp => 0,
            Regime::TrendDown => 1,
            Regime::Range => 2,
            Regime::Transition => 3,
        }
    }

    /// Whether this is a directional trend regime.
    pub fn is_trend(self) -> (b: bool)
        ensures
            b == (self == Regime::TrendUp || self == Regime::TrendDown),
    {
        matches!(self, Regime::TrendUp | Regime::TrendDown)
    }

    /// Directional sign: +1 up-trend, −1 down-trend, 0 otherwise.
    pub fn direction(self) -> (d: i8)
        ensures
            d == self.direction_spec(),
    {
        match self {
            Regime::TrendUp => 1,
            Regime::TrendDown => -1,
            _ => 0,
        }
    }
}

/// The weight-table index tells regimes apart: distinct regimes have
/// distinct columns, and every column `0..4` belongs to a regime.
pub proof fn law_regime_index_is_bijective(a: Regime, b: Regime, i: nat)
    ensures
        a.index_spec() < 4,
        a.index_spec() == b.index_spec() ==> a == b,
        i < 4 ==> exists|r: Regime| r.index_spec() == i,
{
    if i < 4 {
        if i == 0 {
            assert(Regime::TrendUp.index_spec() == i);
        } else if i == 1 {
            assert(Regime::TrendDown.index_spec() == i);
        } else if i == 2 {
            assert(Regime::Range.index_spec() == i);
        } else {
            assert(Regime::Transition.index_spec() == i);
        }
    }
}

/// A regime has a nonzero direction exactly when it is a trend.
pub proof fn law_regime_direction_iff_trend(r: Regime)
    ensures
        (r.direction_spec() != 0) == (r == Regime::TrendUp || r == Regime::TrendDown),
        r.direction_spec() == 1 || r.direction_spec() == -1 || r.direction_spec() == 0,
{
}

} // verus!
