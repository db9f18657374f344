use alpha_radar::chart::{flip_events, precursor_events, qtrend_signals, st_flip_events};
use alpha_radar::markers::{
    confluence_markers, qtrend_flip_markers, qtrend_precursor_markers, st_flip_markers,
};
use alpha_radar::models::ChartMarker;
use alpha_radar::eval::state_tier;
use alpha_radar::proximity::{classify_states, score_direction, Direction, SignalState};
use alpha_radar::regime::Regime;
use alpha_radar::scoring::{
    marker_events, monthly_mod_level, velocity_label, weekly_gate_level, GateLevel, ModLevel,
};

/// Confluence markers over bars stamped by their index, all priced 100.00,
/// thresholds ±40.
fn markers(score: &Vec<Option<i64>>, dir: &Vec<Option<i8>>) -> Vec<ChartMarker> {
    let n = score.len();
    let ts: Vec<i64> = (0..n as i64).collect();
    let prices = vec!["100.00".to_string(); n];
    confluence_markers(&ts, &prices, score, dir, 40, -40)
}

#[test]
fn marker_events_one_per_leg() {
    // Up leg confirms at bar 2 (first ≥ +40); wobble below/above the
    // threshold within the same leg must not re-fire. Down leg from bar 5
    // confirms immediately.
    let score = [Some(10), Some(30), Some(45), Some(30), Some(50), Some(-60)];
    let dir = [Some(1), Some(1), Some(1), Some(1), Some(1), Some(-1)];
    assert_eq!(marker_events(&score.to_vec(), &dir.to_vec(), 40, -40), vec![(2, 1), (5, -1)]);
}

#[test]
fn one_marker_per_leg_at_first_confirmation() {
    // Up leg from bar 0; the score reaches the buy threshold at bar 2 and
    // stays above: exactly one BUY at bar 2.
    let score = vec![Some(10), Some(30), Some(45), Some(50), Some(60)];
    let dir = vec![Some(1); 5];
    assert_eq!(marker_events(&score, &dir, 40, -40), vec![(2, 1)]);
    let m = markers(&score, &dir);
    assert_eq!(m.len(), 1);
    assert_eq!(m[0].time, 2);
    assert_eq!(m[0].shape, "arrowUp");
}

#[test]
fn marker_at_flip_bar_when_score_already_confirms() {
    let score = vec![Some(50); 5];
    let dir = vec![Some(-1), Some(-1), Some(1), Some(1), Some(1)];
    assert_eq!(marker_events(&score, &dir, 40, -40), vec![(2, 1)]);
    let m = markers(&score, &dir);
    assert_eq!(m.len(), 1);
    assert_eq!(m[0].time, 2);
}

#[test]
fn unconfirmed_leg_yields_no_marker_and_next_leg_rearms() {
    let score = vec![Some(10), Some(20), Some(30), Some(-20), Some(-45), Some(-60)];
    let dir = vec![Some(1), Some(1), Some(1), Some(-1), Some(-1), Some(-1)];
    assert_eq!(marker_events(&score, &dir, 40, -40), vec![(4, -1)]);
    let m = markers(&score, &dir);
    assert_eq!(m.len(), 1);
    assert_eq!(m[0].time, 4);
    assert_eq!(m[0].shape, "arrowDown");
    assert_eq!(m[0].position, "aboveBar");
    assert_eq!(m[0].text, "SELL @ 100.00");
    assert_eq!(m[0].color, "#ef5350");
}

#[test]
fn score_wobble_across_threshold_does_not_refire_within_leg() {
    let wobble = vec![Some(45), Some(30), Some(45), Some(30), Some(45)];
    assert_eq!(marker_events(&wobble, &vec![Some(1); 5], 40, -40), vec![(0, 1)]);
    let m = markers(&wobble, &vec![Some(1); 5]);
    assert_eq!(m.len(), 1);
    assert_eq!(m[0].time, 0);
    assert_eq!(m[0].text, "BUY @ 100.00");
}

#[test]
fn warmup_nones_are_skipped() {
    assert_eq!(marker_events(&vec![None, None, Some(50)], &vec![None, Some(1), Some(1)], 40, -40), vec![(2, 1)]);
    let m = markers(&vec![None, None, Some(50)], &vec![None, Some(1), Some(1)]);
    assert_eq!(m.len(), 1);
    assert_eq!(m[0].time, 2);
    // Only the common prefix of the two series is scanned.
    assert!(marker_events(&vec![Some(50)], &vec![], 40, -40).is_empty());
}

#[test]
fn precursor_fires_once_per_leg_and_rearms_after_flip() {
    // Downtrend (pending BUY) for bars 0-5, flip up at bar 6. `near` holds the
    // closeness-and-momentum test per bar: bars 3 and 4 qualify, bar 4 must
    // not re-fire within the same leg.
    let mut dir = vec![Some(-1); 10];
    for d in dir.iter_mut().skip(6) {
        *d = Some(1);
    }
    let mut flip = vec![None; 10];
    flip[6] = Some(1);
    let mut near = vec![false; 10];
    near[3] = true;
    near[4] = true;
    assert_eq!(precursor_events(&flip, &dir, &near), vec![(3, 1)]);
    // After the flip the next qualifying bar fires the pending SELL.
    near[8] = true;
    assert_eq!(precursor_events(&flip, &dir, &near), vec![(3, 1), (8, -1)]);
    // Bar 0 and flip bars never fire; warm-up bars are skipped.
    let near_all = vec![true; 4];
    let flip2 = vec![None, Some(1), None, None];
    let dir2 = vec![Some(-1), Some(1), None, Some(1)];
    assert_eq!(precursor_events(&flip2, &dir2, &near_all), vec![(3, -1)]);
}

#[test]
fn threshold_cross_triggers_then_goes_active_states() {
    // buy 40, fresh 2: score rises across the buy threshold at bar 3.
    let score = vec![Some(20), Some(30), Some(38), Some(45), Some(46), Some(47), Some(48), Some(49)];
    let primed = vec![true; 8];
    let pts = classify_states(&score, &primed, 40, -40, 2);
    assert_eq!(pts[2].state, SignalState::PrimedBuy);
    assert_eq!(pts[2].bars_since_trigger, None);
    assert_eq!(pts[3].state, SignalState::TriggeredBuy);
    assert_eq!(pts[3].bars_since_trigger, Some(0));
    assert_eq!(pts[4].state, SignalState::TriggeredBuy);
    assert_eq!(pts[5].state, SignalState::TriggeredBuy);
    assert_eq!(pts[6].state, SignalState::ActiveBuy);
    assert_eq!(pts[6].bars_since_trigger, Some(3));
}

#[test]
fn sell_cross_and_quiet_series() {
    let score = vec![Some(-10), Some(-41), Some(-50), None, Some(5)];
    let pts = classify_states(&score, &vec![false; 5], 40, -40, 0);
    assert_eq!(pts[0].state, SignalState::Neutral);
    assert_eq!(pts[1].state, SignalState::TriggeredSell);
    assert_eq!(pts[2].state, SignalState::ActiveSell);
    assert_eq!(pts[4].bars_since_trigger, Some(3));
    let quiet = classify_states(&vec![Some(5), Some(6), Some(5)], &vec![false; 3], 40, -40, 2);
    assert!(quiet.iter().all(|p| p.state == SignalState::Neutral));
    // A primed bar with a flat score stays Neutral.
    let flat = classify_states(&vec![Some(0)], &vec![true], 40, -40, 2);
    assert_eq!(flat[0].state, SignalState::Neutral);
}

#[test]
fn directions_signs_and_tiers() {
    assert_eq!(score_direction(Some(3)), Direction::Buy);
    assert_eq!(score_direction(Some(-3)), Direction::Sell);
    assert_eq!(score_direction(Some(0)), Direction::Flat);
    assert_eq!(score_direction(None), Direction::Flat);
    assert_eq!(Direction::Buy.sign(), 1);
    assert_eq!(Direction::Sell.sign(), -1);
    assert_eq!(Direction::Flat.sign(), 0);
    assert_eq!(SignalState::ActiveSell.direction(), Direction::Sell);
    assert_eq!(SignalState::PrimedBuy.direction(), Direction::Buy);
    assert_eq!(SignalState::Neutral.direction(), Direction::Flat);
    assert_eq!(state_tier(SignalState::TriggeredSell), Some("Triggered"));
    assert_eq!(state_tier(SignalState::ActiveBuy), Some("Active"));
    assert_eq!(state_tier(SignalState::PrimedSell), Some("Primed"));
    assert_eq!(state_tier(SignalState::Neutral), None);
}

#[test]
fn weekly_gate_and_monthly_levels() {
    assert_eq!(weekly_gate_level(1, Some(Regime::TrendUp)), GateLevel::Aligned);
    assert_eq!(weekly_gate_level(1, Some(Regime::TrendDown)), GateLevel::Opposed);
    assert_eq!(weekly_gate_level(1, Some(Regime::Range)), GateLevel::Neutral);
    assert_eq!(weekly_gate_level(1, None), GateLevel::Neutral);
    assert_eq!(weekly_gate_level(0, Some(Regime::TrendUp)), GateLevel::Neutral);
    assert_eq!(monthly_mod_level(true, 1, Some(Regime::TrendUp)), ModLevel::Aligned);
    assert_eq!(monthly_mod_level(true, 1, Some(Regime::TrendDown)), ModLevel::Opposed);
    assert_eq!(monthly_mod_level(false, 1, Some(Regime::TrendDown)), ModLevel::Unit);
    assert_eq!(monthly_mod_level(true, -1, Some(Regime::Transition)), ModLevel::Unit);
}

#[test]
fn regime_index_and_direction() {
    let all = [Regime::TrendUp, Regime::TrendDown, Regime::Range, Regime::Transition];
    let idx: Vec<usize> = all.iter().map(|r| r.index()).collect();
    assert_eq!(idx, [0, 1, 2, 3]);
    assert!(Regime::TrendDown.is_trend() && !Regime::Range.is_trend());
    assert_eq!(Regime::TrendUp.direction(), 1);
    assert_eq!(Regime::TrendDown.direction(), -1);
    assert_eq!(Regime::Transition.direction(), 0);
}

#[test]
fn velocity_labels() {
    assert_eq!(velocity_label(&vec![Some(10)]), "Flat");
    assert_eq!(velocity_label(&vec![Some(10), None, Some(20)]), "Accelerating");
    assert_eq!(velocity_label(&vec![Some(-40), Some(-30), Some(-20), Some(-10)]), "Decelerating");
    // Only the last four present scores count: 1 → 50 is outside the window.
    assert_eq!(velocity_label(&vec![Some(1), Some(50), Some(51), Some(49), Some(51)]), "Flat");
    assert_eq!(velocity_label(&vec![Some(10), Some(11)]), "Flat");
}

#[test]
fn st_flip_markers_skip_init_and_fire_on_flips() {
    let n = 8;
    let ts: Vec<i64> = (0..n as i64).collect();
    let prices = vec!["100.00".to_string(); n];
    // Warm-up None, then init up (bar 2, not a flip), flip down at 4, up at 6.
    let dir = vec![None, None, Some(1), Some(1), Some(-1), Some(-1), Some(1), Some(1)];
    assert_eq!(st_flip_events(&dir), vec![(4, -1), (6, 1)]);
    let m = st_flip_markers(&ts, &prices, &dir);
    assert_eq!(m.len(), 2);
    assert_eq!(m[0].time, 4);
    assert_eq!(m[0].shape, "arrowDown");
    assert!(m[0].text.starts_with("ST SHORT"));
    assert_eq!(m[1].time, 6);
    assert_eq!(m[1].shape, "arrowUp");
    assert!(m[1].text.starts_with("ST LONG"));
}

#[test]
fn st_flip_markers_handle_none_gaps() {
    let ts: Vec<i64> = (0..5).collect();
    let prices = vec!["100.00".to_string(); 5];
    // A None gap between opposite directions still counts as a flip.
    let dir = vec![Some(1), None, Some(-1), None, Some(-1)];
    assert_eq!(st_flip_events(&dir), vec![(2, -1)]);
    let m = st_flip_markers(&ts, &prices, &dir);
    assert_eq!(m.len(), 1);
    assert_eq!(m[0].time, 2);
}

#[test]
fn qtrend_flip_markers_label_strong_and_direction() {
    let ts: Vec<i64> = (100..106).collect();
    let prices: Vec<String> = (0..6).map(|i| format!("{}.50", 10 + i)).collect();
    let flip = vec![None, Some(1), None, Some(-1), Some(-1), None];
    let strong = vec![false, true, false, false, true, false];
    let m = qtrend_flip_markers(&ts, &prices, &flip, &strong);
    assert_eq!(m.len(), 3);
    assert_eq!((m[0].time, m[0].shape.as_str(), m[0].position.as_str()), (101, "arrowUp", "belowBar"));
    assert_eq!(m[0].text, "QT STRONG @ 11.50");
    assert_eq!(m[0].color, "#2196f3");
    assert_eq!(m[1].text, "QT SELL @ 13.50");
    assert_eq!(m[1].color, "#ff9800");
    assert_eq!(m[2].text, "QT STRONG @ 14.50");
    assert_eq!(m[2].position, "aboveBar");
    assert_eq!(flip_events(&flip), vec![(1, 1), (3, -1), (4, -1)]);
}

#[test]
fn precursor_markers_are_circles_on_the_pending_side() {
    let ts: Vec<i64> = (0..6).collect();
    let prices = vec!["8.50".to_string(); 6];
    // Downtrend: the pending flip is up, so the circle sits below the bar.
    let dir = vec![Some(-1); 6];
    let flip = vec![None; 6];
    let mut near = vec![false; 6];
    near[3] = true;
    let m = qtrend_precursor_markers(&ts, &prices, &flip, &dir, &near);
    assert_eq!(m.len(), 1);
    assert_eq!(m[0].time, 3);
    assert_eq!(m[0].shape, "circle");
    assert_eq!(m[0].position, "belowBar");
    assert_eq!(m[0].color, "#90caf9");
    assert_eq!(m[0].text, "QT前兆 @ 8.50");
    // Uptrend: pending flip down, circle above the bar.
    let up = qtrend_precursor_markers(&ts, &prices, &flip, &vec![Some(1); 6], &near);
    assert_eq!((up[0].position.as_str(), up[0].color.as_str()), ("aboveBar", "#ffcc80"));
}

#[test]
fn qtrend_signal_latch_flips_only_on_direction_change() {
    // Warm-up bars 0-3, quiet until a break up at bar 10, repeated breaks up
    // (no re-flip), then a break down at bar 20.
    let mut step: Vec<Option<i8>> = vec![None; 4];
    step.extend(vec![Some(0); 26]);
    step[10] = Some(1);
    step[12] = Some(1);
    step[20] = Some(-1);
    let mut bottom = vec![false; 30];
    bottom[7] = true; // inside the five-bar window of bar 10
    let top = vec![false; 30];
    let sig = qtrend_signals(&step, &bottom, &top, 4);
    let flips: Vec<(usize, i8)> =
        sig.flip.iter().enumerate().filter_map(|(i, f)| f.map(|d| (i, d))).collect();
    assert_eq!(flips, vec![(10, 1), (20, -1)]);
    assert!(sig.dir[..10].iter().all(Option::is_none));
    assert!(sig.dir[10..20].iter().all(|d| *d == Some(1)));
    assert!(sig.dir[20..].iter().all(|d| *d == Some(-1)));
    assert!(sig.strong[10]);
    assert!(!sig.strong[20]);
    assert_eq!(sig.strong.iter().filter(|s| **s).count(), 1);
}

#[test]
fn qtrend_signal_strong_window_is_five_bars_from_start() {
    let step = vec![None, None, Some(0), Some(0), Some(0), Some(0), Some(0), Some(0), Some(-1)];
    let bottom = vec![false; 9];
    let mut top = vec![false; 9];
    top[3] = true; // six bars before the flip: outside the window
    assert!(!qtrend_signals(&step, &bottom, &top, 2).strong[8]);
    top[4] = true; // exactly four bars back: inside
    let sig = qtrend_signals(&step, &bottom, &top, 2);
    assert_eq!(sig.flip[8], Some(-1));
    assert!(sig.strong[8]);
    // A window clipped at `start` ignores flags before it.
    let step2 = vec![None, Some(1)];
    assert!(!qtrend_signals(&step2, &vec![true, false], &vec![false; 2], 1).strong[1]);
    assert!(qtrend_signals(&step2, &vec![false, true], &vec![false; 2], 1).strong[1]);
}

#[test]
fn every_confirming_leg_is_marked_at_its_first_confirming_bar() {
    // Up leg (0-3) first confirms at bar 2; down leg (4-6) never confirms;
    // up leg (7-9) first confirms at bar 9 after a None gap at bar 8.
    let score = vec![Some(10), Some(39), Some(40), Some(90), Some(-39), Some(-10), Some(0), Some(5), Some(80), Some(41)];
    let dir = vec![Some(1), Some(1), Some(1), Some(1), Some(-1), Some(-1), Some(-1), Some(1), None, Some(1)];
    assert_eq!(marker_events(&score, &dir, 40, -40), vec![(2, 1), (9, 1)]);
}
