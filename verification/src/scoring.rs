//! Discrete decisions of direction scoring: the
//! BUY/SELL marker rule over the composite score and the Supertrend legs, the
//! multi-timeframe gate levels, and the conviction-velocity label. Scores are
//! the integer composite `clamp(round(S·gate·100), ±100)`; thresholds are the
//! integers that compare the same way (`⌈buy⌉`, `⌊sell⌋`).

use vstd::prelude::*;

use crate::regime::Regime;

verus! {

// ------------------------------------------------------------------ markers

/// Marker scan after the first `k` bars: (events so far, current leg already
/// marked, direction of the most recent leg bar).
pub open spec fn marker_scan(
    score: Seq<Option<i64>>,
    dir: Seq<Option<i8>>,
    buy: i64,
    sell: i64,
    k: int,
) -> (Seq<(int, i8)>, bool, Option<i8>)
    decreases k,
{
    if k <= 0 {
        (seq![], false, None)
    } else {
        let (ev, done, prev) = marker_scan(score, dir, buy, sell, k - 1);
        let i = k - 1;
        match dir[i] {
            None => (ev, done, prev),
            Some(d) => {
                let armed = prev == Some(d) && done;
                if armed {
                    (ev, true, Some(d))
                } else {
                    match score[i] {
                        None => (ev, false, Some(d)),
                        Some(s) => if (d > 0 && s >= buy) || (d <= 0 && s <= sell) {
                            (ev.push((i, d)), true, Some(d))
                        } else {
                            (ev, false, Some(d))
                        },
                    }
                }
            },
        }
    }
}

pub open spec fn min_len(a: int, b: int) -> int {
    if a <= b {
        a
    } else {
        b
    }
}

/// BUY/SELL marker events: at most one per Supertrend leg, on the first bar
/// whose score confirms the leg's direction at threshold strength.
pub open spec fn marker_events_spec(
    score: Seq<Option<i64>>,
    dir: Seq<Option<i8>>,
    buy: i64,
    sell: i64,
) -> Seq<(int, i8)> {
    marker_scan(score, dir, buy, sell, min_len(score.len() as int, dir.len() as int)).0
}

/// BUY/SELL marker events: at most one per Supertrend
/// leg, on the first bar whose score confirms the leg's direction at
/// threshold strength (score ≥ `buy` in an up leg / ≤ `sell` in a down leg).
/// Returns `(bar index, leg direction)`.
pub fn marker_events(score: &Vec<Option<i64>>, st_dir: &Vec<Option<i8>>, buy: i64, sell: i64) -> (out:
    Vec<(usize, i8)>)
    ensures
        out@.map_values(|e: (usize, i8)| (e.0 as int, e.1)) == marker_events_spec(
            score@,
            st_dir@,
            buy,
            sell,
        ),
{
    let n = if score.len() < st_dir.len() {
        score.len()
    } else {
        st_dir.len()
    };
    let mut out: Vec<(usize, i8)> = Vec::new();
    let mut leg_done = false;
    let mut prev_dir: Option<i8> = None;
    let mut i: usize = 0;
    while i < n
        invariant
            n == min_len(score.len() as int, st_dir.len() as int),
            i <= n,
            (out@.map_values(|e: (usize, i8)| (e.0 as int, e.1)), leg_done, prev_dir)
                == marker_scan(score@, st_dir@, buy, sell, i as int),
        decreases n - i,
    {
        let ghost ov = out@.map_values(|e: (usize, i8)| (e.0 as int, e.1));
        match st_dir[i] {
            None => {},
            Some(d) => {
                if prev_dir != Some(d) {
                    leg_done = false;
                }
                prev_dir = Some(d);
                if !leg_done {
                    match score[i] {
                        None => {},
                        Some(s) => {
                            let confirmed = if d > 0 {
                                s >= buy
                            } else {
                                s <= sell
                            };
                            if confirmed {
                                leg_done = true;
                                out.push((i, d));
                                proof {
                                    assert(out@.map_values(|e: (usize, i8)| (e.0 as int, e.1))
                                        =~= ov.push((i as int, d)));
                                }
                            }
                        },
                    }
                }
            },
        }
        i = i + 1;
    }
    out
}

/// The direction of the most recent bar before `k` that lies on a leg.
pub open spec fn last_leg_dir(dir: Seq<Option<i8>>, k: int) -> Option<i8>
    decreases k,
{
    if k <= 0 {
        None
    } else {
        match dir[k - 1] {
            Some(d) => Some(d),
            None => last_leg_dir(dir, k - 1),
        }
    }
}

/// Whether the leg direction changes away from `d` somewhere in `(a, b]`.
pub open spec fn leg_changed(dir: Seq<Option<i8>>, a: int, b: int, d: i8) -> bool {
    exists|j: int| a < j <= b && #[trigger] dir[j] is Some && dir[j] != Some(d)
}

/// Whether the event `(i, d)` sits on a `d` leg with a confirming score.
pub open spec fn event_confirms(
    score: Seq<Option<i64>>,
    dir: Seq<Option<i8>>,
    buy: i64,
    sell: i64,
    e: (int, i8),
) -> bool {
    &&& dir[e.0] == Some(e.1)
    &&& score[e.0] matches Some(s) && ((e.1 > 0 && s >= buy) || (e.1 <= 0 && s <= sell))
}

pub open spec fn scan_inv(
    score: Seq<Option<i64>>,
    dir: Seq<Option<i8>>,
    buy: i64,
    sell: i64,
    k: int,
) -> bool {
    let (ev, done, prev) = marker_scan(score, dir, buy, sell, k);
    &&& prev == last_leg_dir(dir, k)
    &&& forall|m: int|
        0 <= m < ev.len() ==> 0 <= (#[trigger] ev[m]).0 < k && event_confirms(
            score,
            dir,
            buy,
            sell,
            ev[m],
        )
    &&& forall|m: int|
        0 <= m < ev.len() - 1 ==> (#[trigger] ev[m]).0 < ev[m + 1].0 && leg_changed(
            dir,
            ev[m].0,
            ev[m + 1].0,
            ev[m].1,
        )
    &&& done ==> ev.len() > 0 && prev == Some(ev.last().1) && (forall|j: int|
        ev.last().0 < j < k && #[trigger] dir[j] is Some ==> dir[j] == Some(ev.last().1))
    &&& (!done && ev.len() > 0) ==> leg_changed(dir, ev.last().0, k - 1, ev.last().1)
}

proof fn lemma_scan_inv(score: Seq<Option<i64>>, dir: Seq<Option<i8>>, buy: i64, sell: i64, k: int)
    requires
        0 <= k <= score.len(),
        k <= dir.len(),
    ensures
        scan_inv(score, dir, buy, sell, k),
    decreases k,
{
    if k > 0 {
        lemma_scan_inv(score, dir, buy, sell, k - 1);
        let (ev, done, prev) = marker_scan(score, dir, buy, sell, k - 1);
        let (ev2, done2, prev2) = marker_scan(score, dir, buy, sell, k);
        let i = k - 1;
        if ev.len() > 0 {
            let a = ev.last().0;
            let d1 = ev.last().1;
            if dir[i] is Some && dir[i] != Some(d1) {
                assert(leg_changed(dir, a, i, d1)) by {
                    assert(a < i);
                }
            }
            if !done {
                assert(leg_changed(dir, a, k - 2, d1));
                let j = choose|j: int| a < j <= k - 2 && #[trigger] dir[j] is Some && dir[j]
                    != Some(d1);
                assert(leg_changed(dir, a, i, d1));
            }
        }
        if ev2.len() > ev.len() {
            assert(ev2 == ev.push((i, dir[i]->0)));
            assert forall|m: int| 0 <= m < ev2.len() - 1 implies (#[trigger] ev2[m]).0 < ev2[m
                + 1].0 && leg_changed(dir, ev2[m].0, ev2[m + 1].0, ev2[m].1) by {
                if m < ev.len() - 1 {
                    assert(ev2[m] == ev[m]);
                    assert(ev2[m + 1] == ev[m + 1]);
                    let j = choose|j: int| ev[m].0 < j <= ev[m + 1].0 && #[trigger] dir[j] is Some
                        && dir[j] != Some(ev[m].1);
                } else {
                    assert(ev2[m] == ev.last());
                }
            }
            assert forall|m: int| 0 <= m < ev2.len() implies 0 <= (#[trigger] ev2[m]).0 < k
                && event_confirms(score, dir, buy, sell, ev2[m]) by {
                if m < ev.len() {
                    assert(ev2[m] == ev[m]);
                }
            }
        } else {
            assert(ev2 == ev);
            if !done2 && ev.len() > 0 {
                let a = ev.last().0;
                let d1 = ev.last().1;
                if done {
                    assert(dir[i] is Some);
                }
                if !done {
                    let j = choose|j: int| a < j <= k - 2 && #[trigger] dir[j] is Some && dir[j]
                        != Some(d1);
                    assert(leg_changed(dir, a, k - 1, d1));
                }
            }
        }
    }
}

/// Law: every marker sits on a bar of its leg's direction whose score
/// confirms that direction at threshold strength.
pub proof fn law_marker_confirms(
    score: Seq<Option<i64>>,
    dir: Seq<Option<i8>>,
    buy: i64,
    sell: i64,
    m: int,
)
    requires
        0 <= m < marker_events_spec(score, dir, buy, sell).len(),
    ensures
        event_confirms(score, dir, buy, sell, marker_events_spec(score, dir, buy, sell)[m]),
        0 <= marker_events_spec(score, dir, buy, sell)[m].0 < min_len(
            score.len() as int,
            dir.len() as int,
        ),
{
    lemma_scan_inv(score, dir, buy, sell, min_len(score.len() as int, dir.len() as int));
    let ev = marker_events_spec(score, dir, buy, sell);
    assert(0 <= ev[m].0);
}

/// Law: markers come in bar order, and two consecutive markers never share a
/// Supertrend leg — the leg direction changes between them.
pub proof fn law_one_marker_per_leg(
    score: Seq<Option<i64>>,
    dir: Seq<Option<i8>>,
    buy: i64,
    sell: i64,
    m: int,
)
    requires
        0 <= m < marker_events_spec(score, dir, buy, sell).len() - 1,
    ensures
        ({
            let ev = marker_events_spec(score, dir, buy, sell);
            ev[m].0 < ev[m + 1].0 && leg_changed(dir, ev[m].0, ev[m + 1].0, ev[m].1)
        }),
{
    lemma_scan_inv(score, dir, buy, sell, min_len(score.len() as int, dir.len() as int));
    let ev = marker_events_spec(score, dir, buy, sell);
    assert(ev[m].0 < ev[m + 1].0);
}

/// Whether bar `i`'s score confirms direction `d` at threshold strength.
pub open spec fn confirms_at(score: Seq<Option<i64>>, buy: i64, sell: i64, i: int, d: i8) -> bool {
    score[i] matches Some(s) && ((d > 0 && s >= buy) || (d <= 0 && s <= sell))
}

/// Bar `j` lies on the same `d` leg as bar `i` (`j <= i`): it is a `d` bar
/// and no bar in `(j, i]` carries another direction.
pub open spec fn same_leg(dir: Seq<Option<i8>>, j: int, i: int, d: i8) -> bool {
    dir[j] == Some(d) && !leg_changed(dir, j, i, d)
}

/// Bar `i` is the first bar of its Supertrend leg whose score confirms the
/// leg's direction.
pub open spec fn first_confirming(
    score: Seq<Option<i64>>,
    dir: Seq<Option<i8>>,
    buy: i64,
    sell: i64,
    i: int,
) -> bool {
    dir[i] matches Some(d) && confirms_at(score, buy, sell, i, d) && forall|j: int|
        0 <= j < i && #[trigger] same_leg(dir, j, i, d) ==> !confirms_at(score, buy, sell, j, d)
}

/// No earlier bar lies on a `d` leg reaching bar `k - 1` unless the most
/// recent leg bar before `k` is a `d` bar.
proof fn lemma_other_leg(dir: Seq<Option<i8>>, k: int, d: i8)
    requires
        0 <= k <= dir.len(),
        last_leg_dir(dir, k) != Some(d),
    ensures
        forall|j: int| 0 <= j < k ==> !#[trigger] same_leg(dir, j, k - 1, d),
    decreases k,
{
    if k > 0 {
        match dir[k - 1] {
            Some(e) => {
                assert forall|j: int| 0 <= j < k implies !#[trigger] same_leg(dir, j, k - 1, d) by {
                    if j < k - 1 {
                        assert(leg_changed(dir, j, k - 1, d));
                    }
                }
            },
            None => {
                lemma_other_leg(dir, k - 1, d);
                assert forall|j: int| 0 <= j < k implies !#[trigger] same_leg(dir, j, k - 1, d) by {
                    if j < k - 1 && same_leg(dir, j, k - 1, d) {
                        assert(!same_leg(dir, j, k - 2, d));
                        let t = choose|t: int| j < t <= k - 2 && #[trigger] dir[t] is Some && dir[t]
                            != Some(d);
                        assert(leg_changed(dir, j, k - 1, d));
                    }
                }
            },
        }
    }
}

/// The marker scan after `k` bars: it has marked exactly the first
/// confirming bars so far, and `done` says whether the current leg already
/// has a confirming bar.
#[verifier::spinoff_prover]
#[verifier::rlimit(60)]
proof fn lemma_scan_complete(
    score: Seq<Option<i64>>,
    dir: Seq<Option<i8>>,
    buy: i64,
    sell: i64,
    k: int,
)
    requires
        0 <= k <= score.len(),
        k <= dir.len(),
    ensures
        ({
            let (ev, done, prev) = marker_scan(score, dir, buy, sell, k);
            &&& forall|i: int|
                0 <= i < k ==> (first_confirming(score, dir, buy, sell, i) <==> exists|m: int|
                    0 <= m < ev.len() && (#[trigger] ev[m]).0 == i)
            &&& done <==> (prev matches Some(d) && exists|j: int|
                0 <= j < k && #[trigger] same_leg(dir, j, k - 1, d) && confirms_at(
                    score,
                    buy,
                    sell,
                    j,
                    d,
                ))
        }),
    decreases k,
{
    lemma_scan_inv(score, dir, buy, sell, k);
    if k > 0 {
        lemma_scan_complete(score, dir, buy, sell, k - 1);
        lemma_scan_inv(score, dir, buy, sell, k - 1);
        let (ev, done, prev) = marker_scan(score, dir, buy, sell, k - 1);
        let (ev2, done2, prev2) = marker_scan(score, dir, buy, sell, k);
        let i = k - 1;
        match dir[i] {
            None => {
                assert(ev2 == ev);
                // Bar `i` carries no direction: legs reaching it are those
                // reaching `i - 1`.
                assert forall|j: int, d: i8| 0 <= j < i implies #[trigger] same_leg(dir, j, i, d)
                    == same_leg(dir, j, i - 1, d) by {
                    if leg_changed(dir, j, i, d) {
                        let t = choose|t: int| j < t <= i && #[trigger] dir[t] is Some && dir[t]
                            != Some(d);
                        assert(leg_changed(dir, j, i - 1, d));
                    }
                    if leg_changed(dir, j, i - 1, d) {
                        let t = choose|t: int| j < t <= i - 1 && #[trigger] dir[t] is Some && dir[t]
                            != Some(d);
                        assert(leg_changed(dir, j, i, d));
                    }
                }
                if done {
                    let d = prev->0;
                    let j = choose|j: int| 0 <= j < i && #[trigger] same_leg(dir, j, i - 1, d)
                        && confirms_at(score, buy, sell, j, d);
                    assert(same_leg(dir, j, i, d));
                }
                if done2 {
                    let d = prev2->0;
                    let j = choose|j: int| 0 <= j < k && #[trigger] same_leg(dir, j, k - 1, d)
                        && confirms_at(score, buy, sell, j, d);
                    assert(same_leg(dir, j, i - 1, d));
                }
            },
            Some(d) => {
                // Legs of `d` reaching `i` are those reaching `i - 1`, plus `i`.
                assert forall|j: int| 0 <= j < i implies #[trigger] same_leg(dir, j, i, d)
                    == same_leg(dir, j, i - 1, d) by {
                    if leg_changed(dir, j, i, d) {
                        let t = choose|t: int| j < t <= i && #[trigger] dir[t] is Some && dir[t]
                            != Some(d);
                        assert(leg_changed(dir, j, i - 1, d));
                    }
                    if leg_changed(dir, j, i - 1, d) {
                        let t = choose|t: int| j < t <= i - 1 && #[trigger] dir[t] is Some && dir[t]
                            != Some(d);
                        assert(leg_changed(dir, j, i, d));
                    }
                }
                assert(same_leg(dir, i, i, d));
                if prev == Some(d) && done {
                    let j = choose|j: int| 0 <= j < i && #[trigger] same_leg(dir, j, i - 1, d)
                        && confirms_at(score, buy, sell, j, d);
                    assert(same_leg(dir, j, i, d));
                    assert(!first_confirming(score, dir, buy, sell, i));
                    assert(ev2 == ev);
                } else {
                    // No earlier bar of this leg confirms.
                    assert forall|j: int| 0 <= j < i && #[trigger] same_leg(dir, j, i, d) implies !confirms_at(
                        score,
                        buy,
                        sell,
                        j,
                        d,
                    ) by {
                        if prev != Some(d) {
                            lemma_other_leg(dir, i, d);
                        }
                        assert(same_leg(dir, j, i - 1, d));
                    }
                    if confirms_at(score, buy, sell, i, d) {
                        assert(ev2 == ev.push((i, d)));
                        assert(first_confirming(score, dir, buy, sell, i));
                        assert(ev2[ev.len() as int].0 == i);
                    } else {
                        assert(ev2 == ev);
                        assert(!first_confirming(score, dir, buy, sell, i));
                        if done2 {
                            let j = choose|j: int| 0 <= j < k && #[trigger] same_leg(dir, j, k - 1, d)
                                && confirms_at(score, buy, sell, j, d);
                        }
                    }
                }
            },
        }
        let (ev2, done2, prev2) = marker_scan(score, dir, buy, sell, k);
        assert forall|x: int| 0 <= x < k implies (first_confirming(score, dir, buy, sell, x) <==> exists|m: int|
            0 <= m < ev2.len() && (#[trigger] ev2[m]).0 == x) by {
            if x < i {
                if exists|m: int| 0 <= m < ev2.len() && (#[trigger] ev2[m]).0 == x {
                    let m = choose|m: int| 0 <= m < ev2.len() && (#[trigger] ev2[m]).0 == x;
                    if m < ev.len() {
                        assert(ev2[m] == ev[m]);
                    }
                }
                if exists|m: int| 0 <= m < ev.len() && (#[trigger] ev[m]).0 == x {
                    let m = choose|m: int| 0 <= m < ev.len() && (#[trigger] ev[m]).0 == x;
                    assert(ev2[m] == ev[m]);
                }
            } else {
                if exists|m: int| 0 <= m < ev2.len() && (#[trigger] ev2[m]).0 == x {
                    let m = choose|m: int| 0 <= m < ev2.len() && (#[trigger] ev2[m]).0 == x;
                    if m < ev.len() {
                        assert(ev2[m] == ev[m]);
                    }
                }
            }
        }
    }
}

/// Law: a bar carries a marker exactly when it is the first bar of its
/// Supertrend leg whose score confirms the leg's direction — every leg with
/// a confirming bar is marked there, and no other bar is.
pub proof fn law_marker_at_first_confirmation(
    score: Seq<Option<i64>>,
    dir: Seq<Option<i8>>,
    buy: i64,
    sell: i64,
    i: int,
)
    requires
        0 <= i < min_len(score.len() as int, dir.len() as int),
    ensures
        first_confirming(score, dir, buy, sell, i) <==> exists|m: int|
            0 <= m < marker_events_spec(score, dir, buy, sell).len()
                && #[trigger] marker_events_spec(score, dir, buy, sell)[m] == (i, dir[i]->0),
{
    let n = min_len(score.len() as int, dir.len() as int);
    lemma_scan_complete(score, dir, buy, sell, n);
    law_marker_confirms_all(score, dir, buy, sell);
    let ev = marker_events_spec(score, dir, buy, sell);
    if exists|m: int| 0 <= m < ev.len() && (#[trigger] ev[m]).0 == i {
        let m = choose|m: int| 0 <= m < ev.len() && (#[trigger] ev[m]).0 == i;
        assert(event_confirms(score, dir, buy, sell, ev[m]));
        assert(ev[m] == (i, dir[i]->0));
    }
    if exists|m: int| 0 <= m < ev.len() && #[trigger] ev[m] == (i, dir[i]->0) {
        let m = choose|m: int| 0 <= m < ev.len() && #[trigger] ev[m] == (i, dir[i]->0);
        assert(ev[m].0 == i);
    }
}

proof fn law_marker_confirms_all(score: Seq<Option<i64>>, dir: Seq<Option<i8>>, buy: i64, sell: i64)
    ensures
        forall|m: int|
            0 <= m < marker_events_spec(score, dir, buy, sell).len() ==> event_confirms(
                score,
                dir,
                buy,
                sell,
                #[trigger] marker_events_spec(score, dir, buy, sell)[m],
            ),
{
    assert forall|m: int| 0 <= m < marker_events_spec(score, dir, buy, sell).len() implies event_confirms(
        score,
        dir,
        buy,
        sell,
        #[trigger] marker_events_spec(score, dir, buy, sell)[m],
    ) by {
        law_marker_confirms(score, dir, buy, sell, m);
    }
}

// ------------------------------------------------------------------ MTF gates

/// Level of the weekly gate: the config maps each level to its
/// factor (aligned 1.0, neutral 0.8, opposed 0.4 by default).
#[derive(Debug, Clone, Copy, PartialEq, Eq, Structural)]
pub enum GateLevel {
    Aligned,
    Neutral,
    Opposed,
}

/// Level of the soft monthly modifier: aligned 1.1, opposed
/// 0.85 by default; `Unit` is ×1.0.
#[derive(Debug, Clone, Copy, PartialEq, Eq, Structural)]
pub enum ModLevel {
    Aligned,
    Opposed,
    Unit,
}

/// Weekly gate: a flat daily score or a non-trend (or missing) weekly regime
/// is neutral; a weekly trend is aligned with or opposed to the daily sign.
pub fn weekly_gate_level(daily_dir: i8, weekly_regime: Option<Regime>) -> (g: GateLevel)
    ensures
        (daily_dir == 0 || weekly_regime is None) ==> g == GateLevel::Neutral,
        weekly_regime matches Some(r) ==> (daily_dir != 0 && (r == Regime::TrendUp || r
            == Regime::TrendDown) ==> g == (if r.direction_spec() == daily_dir {
            GateLevel::Aligned
        } else {
            GateLevel::Opposed
        })),
        weekly_regime matches Some(r) ==> (r == Regime::Range || r == Regime::Transition)
            ==> g == GateLevel::Neutral,
{
    if daily_dir == 0 {
        return GateLevel::Neutral;
    }
    match weekly_regime {
        Some(r) => {
            if r.is_trend() {
                if r.direction() == daily_dir {
                    GateLevel::Aligned
                } else {
                    GateLevel::Opposed
                }
            } else {
                GateLevel::Neutral
            }
        },
        None => GateLevel::Neutral,
    }
}

/// Monthly modifier: disabled, a flat daily score, or a non-trend (or
/// missing) monthly regime leaves the score unchanged; a monthly trend is
/// aligned with or opposed to the daily sign. Never a hard gate.
pub fn monthly_mod_level(enabled: bool, daily_dir: i8, monthly_regime: Option<Regime>) -> (m:
    ModLevel)
    ensures
        (!enabled || daily_dir == 0 || monthly_regime is None) ==> m == ModLevel::Unit,
        monthly_regime matches Some(r) ==> (enabled && daily_dir != 0 && (r == Regime::TrendUp
            || r == Regime::TrendDown) ==> m == (if r.direction_spec() == daily_dir {
            ModLevel::Aligned
        } else {
            ModLevel::Opposed
        })),
        monthly_regime matches Some(r) ==> (r == Regime::Range || r == Regime::Transition)
            ==> m == ModLevel::Unit,
{
    if !enabled || daily_dir == 0 {
        return ModLevel::Unit;
    }
    match monthly_regime {
        Some(r) => {
            if r.is_trend() {
                if r.direction() == daily_dir {
                    ModLevel::Aligned
                } else {
                    ModLevel::Opposed
                }
            } else {
                ModLevel::Unit
            }
        },
        None => ModLevel::Unit,
    }
}

// ------------------------------------------------------------------ velocity

/// The present (non-`None`) scores, in bar order.
pub open spec fn present(score: Seq<Option<i64>>) -> Seq<i64>
    decreases score.len(),
{
    if score.len() == 0 {
        seq![]
    } else {
        match score.last() {
            Some(v) => present(score.drop_last()).push(v),
            None => present(score.drop_last()),
        }
    }
}

pub open spec fn abs_int(x: int) -> int {
    if x < 0 {
        -x
    } else {
        x
    }
}

/// Conviction velocity over the last (up to) four present scores: the change
/// in |score| from the oldest of them to the newest above 1 point is
/// accelerating, below −1 decelerating, else flat (also with fewer than two).
pub open spec fn velocity_spec(score: Seq<Option<i64>>) -> Seq<char> {
    let p = present(score);
    if p.len() < 2 {
        "Flat"@
    } else {
        let k = if p.len() < 4 {
            p.len() as int
        } else {
            4
        };
        let delta = abs_int(p[p.len() - 1] as int) - abs_int(p[p.len() - k] as int);
        if delta > 1 {
            "Accelerating"@
        } else if delta < -1 {
            "Decelerating"@
        } else {
            "Flat"@
        }
    }
}

/// Law: the velocity label looks at the last `min(4, n)` present scores
/// (`n` of them in all): with fewer than two it is Flat; otherwise the change
/// in absolute score from the oldest to the newest of that window decides —
/// above 1 Accelerating, below −1 Decelerating, else Flat.
pub proof fn law_velocity_window(score: Seq<Option<i64>>)
    ensures
        ({
            let p = present(score);
            let v = velocity_spec(score);
            &&& p.len() < 2 ==> v == "Flat"@
            &&& p.len() >= 2 ==> {
                let w = if p.len() >= 4 {
                    p.subrange(p.len() - 4, p.len() as int)
                } else {
                    p
                };
                let newest = w[w.len() - 1] as int;
                let oldest = w[0] as int;
                let delta = (if newest < 0 {
                    -newest
                } else {
                    newest
                }) - (if oldest < 0 {
                    -oldest
                } else {
                    oldest
                });
                &&& (v == "Accelerating"@) <==> delta > 1
                &&& (v == "Decelerating"@) <==> delta < -1
                &&& (v == "Flat"@) <==> (-1 <= delta <= 1)
            }
        }),
{
    reveal_strlit("Accelerating");
    reveal_strlit("Decelerating");
    reveal_strlit("Flat");
    assert("Accelerating"@[0] != "Decelerating"@[0]);
    assert("Accelerating"@.len() != "Flat"@.len());
    assert("Decelerating"@.len() != "Flat"@.len());
}

/// Conviction velocity label from the tail of the score series.
pub fn velocity_label(score: &Vec<Option<i64>>) -> (s: &'static str)
    ensures
        s@ == velocity_spec(score@),
{
    let mut p: Vec<i64> = Vec::new();
    let mut i: usize = 0;
    while i < score.len()
        invariant
            i <= score.len(),
            p@ == present(score@.subrange(0, i as int)),
        decreases score.len() - i,
    {
        proof {
            assert(score@.subrange(0, i + 1).drop_last() =~= score@.subrange(0, i as int));
        }
        match score[i] {
            Some(v) => p.push(v),
            None => {},
        }
        i = i + 1;
    }
    proof {
        assert(score@.subrange(0, score.len() as int) =~= score@);
    }
    if p.len() < 2 {
        return "Flat";
    }
    let k: usize = if p.len() < 4 {
        p.len()
    } else {
        4
    };
    let newest = p[p.len() - 1] as i128;
    let oldest = p[p.len() - k] as i128;
    let an: i128 = if newest < 0 {
        -newest
    } else {
        newest
    };
    let ao: i128 = if oldest < 0 {
        -oldest
    } else {
        oldest
    };
    let delta = an - ao;
    if delta > 1 {
        "Accelerating"
    } else if delta < -1 {
        "Decelerating"
    } else {
        "Flat"
    }
}

} // verus!
