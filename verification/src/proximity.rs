//! Entry-imminence state machine. A threshold cross of
//! the daily direction score starts a signal: Triggered while fresh, Active
//! once stale; with no cross on record a forming setup is Primed, else the
//! bar is Neutral. The score is the composite `clamp(round(S·gate·100), ±100)`
//! — an integer — so the machine runs on integer scores and the integer
//! thresholds that compare the same way (`⌈buy⌉`, `⌊sell⌋`).

use vstd::prelude::*;

verus! {

/// Candidate trade direction for a bar.
#[derive(Debug, Clone, Copy, PartialEq, Eq, Structural)]
pub enum Direction {
    Buy,
    Sell,
    Flat,
}

pub open spec fn sign_spec(d: Direction) -> int {
    match d {
        Direction::Buy => 1,
        Direction::Sell => -1,
        Direction::Flat => 0,
    }
}

impl Direction {
    /// +1 buy, −1 sell, 0 none.
    pub fn sign(self) -> (s: i8)
        ensures
            s == sign_spec(self),
    {
        match self {
            Direction::Buy => 1,
            Direction::Sell => -1,
            Direction::Flat => 0,
        }
    }
}

/// Imminence state machine.
#[derive(Debug, Clone, Copy, PartialEq, Eq, Structural)]
pub enum SignalState {
    PrimedBuy,
    TriggeredBuy,
    ActiveBuy,
    Neutral,
    PrimedSell,
    TriggeredSell,
    ActiveSell,
}

pub open spec fn primed_spec(d: Direction) -> SignalState {
    match d {
        Direction::Buy => SignalState::PrimedBuy,
        Direction::Sell => SignalState::PrimedSell,
        Direction::Flat => SignalState::Neutral,
    }
}

pub open spec fn triggered_spec(d: Direction) -> SignalState {
    match d {
        Direction::Buy => SignalState::TriggeredBuy,
        Direction::Sell => SignalState::TriggeredSell,
        Direction::Flat => SignalState::Neutral,
    }
}

pub open spec fn active_spec(d: Direction) -> SignalState {
    match d {
        Direction::Buy => SignalState::ActiveBuy,
        Direction::Sell => SignalState::ActiveSell,
        Direction::Flat => SignalState::Neutral,
    }
}

pub open spec fn state_direction_spec(s: SignalState) -> Direction {
    match s {
        SignalState::PrimedBuy | SignalState::TriggeredBuy | SignalState::ActiveBuy => Direction::Buy,
        SignalState::PrimedSell | SignalState::TriggeredSell | SignalState::ActiveSell => {
            Direction::Sell
        },
        SignalState::Neutral => Direction::Flat,
    }
}

pub open spec fn is_triggered(s: SignalState) -> bool {
    s == SignalState::TriggeredBuy || s == SignalState::TriggeredSell
}

pub open spec fn is_active(s: SignalState) -> bool {
    s == SignalState::ActiveBuy || s == SignalState::ActiveSell
}

pub open spec fn is_primed(s: SignalState) -> bool {
    s == SignalState::PrimedBuy || s == SignalState::PrimedSell
}

impl SignalState {
    pub(crate) fn primed(d: Direction) -> (s: SignalState)
        ensures
            s == primed_spec(d),
    {
        match d {
            Direction::Buy => SignalState::PrimedBuy,
            Direction::Sell => SignalState::PrimedSell,
            Direction::Flat => SignalState::Neutral,
        }
    }

    pub(crate) fn triggered(d: Direction) -> (s: SignalState)
        ensures
            s == triggered_spec(d),
    {
        match d {
            Direction::Buy => SignalState::TriggeredBuy,
            Direction::Sell => SignalState::TriggeredSell,
            Direction::Flat => SignalState::Neutral,
        }
    }

    pub(crate) fn active(d: Direction) -> (s: SignalState)
        ensures
            s == active_spec(d),
    {
        match d {
            Direction::Buy => SignalState::ActiveBuy,
            Direction::Sell => SignalState::ActiveSell,
            Direction::Flat => SignalState::Neutral,
        }
    }

    /// The trade direction implied by this state.
    pub fn direction(self) -> (d: Direction)
        ensures
            d == state_direction_spec(self),
    {
        match self {
            SignalState::PrimedBuy | SignalState::TriggeredBuy | SignalState::ActiveBuy => {
                Direction::Buy
            },
            SignalState::PrimedSell | SignalState::TriggeredSell | SignalState::ActiveSell => {
                Direction::Sell
            },
            SignalState::Neutral => Direction::Flat,
        }
    }
}

/// Law: each state keeps the direction it was built from, and only a
/// directionless setup is Neutral.
pub proof fn law_state_direction_round_trip(d: Direction)
    ensures
        state_direction_spec(primed_spec(d)) == d,
        state_direction_spec(triggered_spec(d)) == d,
        state_direction_spec(active_spec(d)) == d,
        (sign_spec(d) == 0) == (d == Direction::Flat),
{
}

/// Candidate direction from the sign of the (daily) score.
pub open spec fn score_direction_spec(score: Option<i64>) -> Direction {
    match score {
        Some(s) => if s > 0 {
            Direction::Buy
        } else if s < 0 {
            Direction::Sell
        } else {
            Direction::Flat
        },
        None => Direction::Flat,
    }
}

/// Candidate direction from the (daily) score sign.
pub fn score_direction(score: Option<i64>) -> (d: Direction)
    ensures
        d == score_direction_spec(score),
{
    match score {
        Some(s) => if s > 0 {
            Direction::Buy
        } else if s < 0 {
            Direction::Sell
        } else {
            Direction::Flat
        },
        None => Direction::Flat,
    }
}

/// The threshold cross at bar `i`, if any: the score steps from below `buy`
/// to at least `buy` (buy), or from above `sell` to at most `sell` (sell).
pub open spec fn cross_at(score: Seq<Option<i64>>, i: int, buy: i64, sell: i64) -> Option<Direction> {
    if 0 < i < score.len() {
        match (score[i], score[i - 1]) {
            (Some(s), Some(ps)) => if ps < buy && s >= buy {
                Some(Direction::Buy)
            } else if ps > sell && s <= sell {
                Some(Direction::Sell)
            } else {
                None
            },
            _ => None,
        }
    } else {
        None
    }
}

/// The most recent threshold cross at or before bar `i`.
pub open spec fn last_cross(score: Seq<Option<i64>>, i: int, buy: i64, sell: i64) -> Option<
    (int, Direction),
>
    decreases i + 1,
{
    if i < 0 {
        None
    } else {
        match cross_at(score, i, buy, sell) {
            Some(d) => Some((i, d)),
            None => last_cross(score, i - 1, buy, sell),
        }
    }
}

/// Per-bar result of the state machine.
#[derive(Debug, Clone, Copy, PartialEq, Eq, Structural)]
pub struct StatePoint {
    pub state: SignalState,
    /// Bars since the most recent threshold cross (`as u32`), if any.
    pub bars_since_trigger: Option<u32>,
}

/// The state at bar `i`: a cross within `fresh` bars ⇒ Triggered, an older
/// cross ⇒ Active (both in the cross's direction); no cross but a forming
/// setup (`primed[i]`) with a score lean ⇒ Primed in that direction; else
/// Neutral.
pub open spec fn point_spec(
    score: Seq<Option<i64>>,
    primed: Seq<bool>,
    i: int,
    buy: i64,
    sell: i64,
    fresh: u32,
) -> StatePoint {
    let dir = score_direction_spec(score[i]);
    match last_cross(score, i, buy, sell) {
        Some((ci, d)) => {
            let b = (i - ci) as u32;
            StatePoint {
                state: if b <= fresh {
                    triggered_spec(d)
                } else {
                    active_spec(d)
                },
                bars_since_trigger: Some(b),
            }
        },
        None => StatePoint {
            state: if dir != Direction::Flat && primed[i] {
                primed_spec(dir)
            } else {
                SignalState::Neutral
            },
            bars_since_trigger: None,
        },
    }
}

proof fn lemma_last_cross_bounds(score: Seq<Option<i64>>, i: int, buy: i64, sell: i64)
    ensures
        last_cross(score, i, buy, sell) matches Some((ci, d)) ==> 0 < ci <= i && cross_at(
            score,
            ci,
            buy,
            sell,
        ) == Some(d) && d != Direction::Flat,
    decreases i + 1,
{
    if i >= 0 {
        lemma_last_cross_bounds(score, i - 1, buy, sell);
    }
}

/// State machine over the daily score series. `primed[i]` says
/// whether bar `i`'s strongest proximity component reaches the Primed floor.
pub fn classify_states(
    score: &Vec<Option<i64>>,
    primed: &Vec<bool>,
    buy: i64,
    sell: i64,
    fresh_bars_n: u32,
) -> (pts: Vec<StatePoint>)
    requires
        primed.len() >= score.len(),
    ensures
        pts.len() == score.len(),
        forall|i: int|
            0 <= i < score.len() ==> #[trigger] pts@[i] == point_spec(
                score@,
                primed@,
                i,
                buy,
                sell,
                fresh_bars_n,
            ),
{
    let n = score.len();
    let mut last: Option<(usize, Direction)> = None;
    let mut pts: Vec<StatePoint> = Vec::new();
    let mut i: usize = 0;
    while i < n
        invariant
            n == score.len(),
            primed.len() >= n,
            i <= n,
            pts.len() == i,
            match last {
                Some((ci, d)) => last_cross(score@, i - 1, buy, sell) == Some((ci as int, d)),
                None => last_cross(score@, i - 1, buy, sell) is None,
            },
            forall|j: int|
                0 <= j < i ==> #[trigger] pts@[j] == point_spec(
                    score@,
                    primed@,
                    j,
                    buy,
                    sell,
                    fresh_bars_n,
                ),
        decreases n - i,
    {
        if i > 0 {
            match (score[i], score[i - 1]) {
                (Some(s), Some(ps)) => {
                    if ps < buy && s >= buy {
                        last = Some((i, Direction::Buy));
                    } else if ps > sell && s <= sell {
                        last = Some((i, Direction::Sell));
                    }
                },
                _ => {},
            }
        }
        proof {
            lemma_last_cross_bounds(score@, i as int, buy, sell);
        }
        let dir = score_direction(score[i]);
        let pt = match last {
            Some((ci, d)) => {
                let b = #[verifier::truncate] ((i - ci) as u32);
                let state = if b <= fresh_bars_n {
                    SignalState::triggered(d)
                } else {
                    SignalState::active(d)
                };
                StatePoint { state, bars_since_trigger: Some(b) }
            },
            None => {
                let state = if dir != Direction::Flat && primed[i] {
                    SignalState::primed(dir)
                } else {
                    SignalState::Neutral
                };
                StatePoint { state, bars_since_trigger: None }
            },
        };
        pts.push(pt);
        i = i + 1;
    }
    pts
}

/// Law: while no cross is on record, a bar is Primed exactly when its setup
/// is forming and its score leans one way, and the Primed state points the
/// way the score leans — buy for a positive score, sell for a negative one.
pub proof fn law_primed_follows_score_lean(
    score: Seq<Option<i64>>,
    primed: Seq<bool>,
    i: int,
    buy: i64,
    sell: i64,
    fresh: u32,
)
    ensures
        ({
            let pt = point_spec(score, primed, i, buy, sell, fresh);
            &&& (pt.state == SignalState::PrimedBuy) ==> (score[i] matches Some(s) && s > 0) && primed[i]
            &&& (pt.state == SignalState::PrimedSell) ==> (score[i] matches Some(s) && s < 0) && primed[i]
            &&& (pt.bars_since_trigger is None && primed[i] && (score[i] matches Some(s) && s > 0))
                ==> pt.state == SignalState::PrimedBuy
            &&& (pt.bars_since_trigger is None && primed[i] && (score[i] matches Some(s) && s < 0))
                ==> pt.state == SignalState::PrimedSell
        }),
{
}

/// Law: a bar is `bars_since_trigger == 0` exactly when the score crosses a
/// threshold on that bar (for series shorter than 2³² bars).
pub proof fn law_zero_bars_since_iff_cross(
    score: Seq<Option<i64>>,
    primed: Seq<bool>,
    i: int,
    buy: i64,
    sell: i64,
    fresh: u32,
)
    requires
        0 <= i < score.len() <= u32::MAX,
    ensures
        (point_spec(score, primed, i, buy, sell, fresh).bars_since_trigger == Some(0u32)) == (
        cross_at(score, i, buy, sell) is Some),
{
    lemma_last_cross_bounds(score, i, buy, sell);
}

/// Law: Triggered and Active states carry the most recent cross's direction
/// and age (Triggered while the age is at most `fresh`); Primed and Neutral
/// states occur only while no cross is on record.
pub proof fn law_state_matches_last_cross(
    score: Seq<Option<i64>>,
    primed: Seq<bool>,
    i: int,
    buy: i64,
    sell: i64,
    fresh: u32,
)
    requires
        0 <= i < score.len(),
        i < primed.len(),
    ensures
        ({
            let p = point_spec(score, primed, i, buy, sell, fresh);
            match last_cross(score, i, buy, sell) {
                Some((ci, d)) => {
                    &&& state_direction_spec(p.state) == d
                    &&& d != Direction::Flat
                    &&& p.bars_since_trigger == Some((i - ci) as u32)
                    &&& is_triggered(p.state) == ((i - ci) as u32 <= fresh)
                    &&& is_active(p.state) == ((i - ci) as u32 > fresh)
                },
                None => {
                    &&& p.bars_since_trigger is None
                    &&& (is_primed(p.state) || p.state == SignalState::Neutral)
                    &&& is_primed(p.state) == (primed[i] && score_direction_spec(score[i])
                        != Direction::Flat)
                },
            }
        }),
{
    lemma_last_cross_bounds(score, i, buy, sell);
}

proof fn lemma_last_cross_persists(score: Seq<Option<i64>>, i: int, j: int, buy: i64, sell: i64)
    requires
        0 <= i <= j,
        last_cross(score, i, buy, sell) is Some,
    ensures
        last_cross(score, j, buy, sell) is Some,
    decreases j - i,
{
    if j > i {
        lemma_last_cross_persists(score, i, j - 1, buy, sell);
    }
}

/// Law: once a threshold cross is on record the machine never returns to
/// Primed or Neutral — every later bar is Triggered or Active.
pub proof fn law_signal_never_resets(
    score: Seq<Option<i64>>,
    primed: Seq<bool>,
    i: int,
    j: int,
    buy: i64,
    sell: i64,
    fresh: u32,
)
    requires
        0 <= i <= j < score.len(),
        point_spec(score, primed, i, buy, sell, fresh).bars_since_trigger is Some,
    ensures
        point_spec(score, primed, j, buy, sell, fresh).bars_since_trigger is Some,
        is_triggered(point_spec(score, primed, j, buy, sell, fresh).state) || is_active(
            point_spec(score, primed, j, buy, sell, fresh).state,
        ),
{
    lemma_last_cross_persists(score, i, j, buy, sell);
    lemma_last_cross_bounds(score, j, buy, sell);
}

/// Law: without a new cross, the age of the signal grows by one bar per bar
/// (for series shorter than 2³² bars).
pub proof fn law_bars_since_counts_up(
    score: Seq<Option<i64>>,
    primed: Seq<bool>,
    i: int,
    buy: i64,
    sell: i64,
    fresh: u32,
    b: u32,
)
    requires
        0 <= i,
        i + 1 < score.len() <= u32::MAX,
        cross_at(score, i + 1, buy, sell) is None,
        point_spec(score, primed, i, buy, sell, fresh).bars_since_trigger == Some(b),
    ensures
        point_spec(score, primed, i + 1, buy, sell, fresh).bars_since_trigger == Some(
            (b + 1) as u32,
        ),
{
    lemma_last_cross_bounds(score, i, buy, sell);
}

} // verus!
