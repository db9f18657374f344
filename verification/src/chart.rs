//! Discrete event rules of the chart display layers.

use vstd::prelude::*;

use crate::scoring::last_leg_dir;

verus! {

/// Supertrend flip bars: bars whose direction differs from the direction of
/// the most recent earlier bar that has one (the first direction after
/// warm-up is the initialization, not a flip; `None` gaps are carried over).
pub open spec fn st_flips_upto(dir: Seq<Option<i8>>, k: int) -> Seq<(int, i8)>
    decreases k,
{
    if k <= 0 {
        seq![]
    } else {
        let p = st_flips_upto(dir, k - 1);
        match (dir[k - 1], last_leg_dir(dir, k - 1)) {
            (Some(d), Some(prev)) => if prev != d {
                p.push((k - 1, d))
            } else {
                p
            },
            _ => p,
        }
    }
}

/// Supertrend direction-flip events `(bar, new direction)`: one per
/// flip bar.
pub fn st_flip_events(st_dir: &Vec<Option<i8>>) -> (out: Vec<(usize, i8)>)
    ensures
        out@.map_values(|e: (usize, i8)| (e.0 as int, e.1)) == st_flips_upto(
            st_dir@,
            st_dir.len() as int,
        ),
{
    let mut out: Vec<(usize, i8)> = Vec::new();
    let mut prev: Option<i8> = None;
    let mut i: usize = 0;
    while i < st_dir.len()
        invariant
            i <= st_dir.len(),
            prev == last_leg_dir(st_dir@, i as int),
            out@.map_values(|e: (usize, i8)| (e.0 as int, e.1)) == st_flips_upto(
                st_dir@,
                i as int,
            ),
        decreases st_dir.len() - i,
    {
        let ghost ov = out@.map_values(|e: (usize, i8)| (e.0 as int, e.1));
        match st_dir[i] {
            None => {},
            Some(d) => {
                match prev {
                    Some(p) => {
                        if p != d {
                            out.push((i, d));
                            proof {
                                assert(out@.map_values(|e: (usize, i8)| (e.0 as int, e.1))
                                    =~= ov.push((i as int, d)));
                            }
                        }
                    },
                    None => {},
                }
                prev = Some(d);
            },
        }
        i = i + 1;
    }
    out
}

/// Every Supertrend flip event lies on a bar before `k`.
pub proof fn lemma_st_flips_in_range(dir: Seq<Option<i8>>, k: int)
    ensures
        forall|m: int|
            0 <= m < st_flips_upto(dir, k).len() ==> 0 <= (#[trigger] st_flips_upto(dir, k)[m]).0 < k,
    decreases k,
{
    if k > 0 {
        lemma_st_flips_in_range(dir, k - 1);
        let p = st_flips_upto(dir, k - 1);
        let q = st_flips_upto(dir, k);
        assert forall|m: int| 0 <= m < q.len() implies 0 <= (#[trigger] q[m]).0 < k by {
            if m < p.len() {
                assert(q[m] == p[m]);
            }
        }
    }
}

/// Q-Trend flip events among the first `k` bars: `(bar, new direction)` for
/// every bar that carries a flip.
pub open spec fn flips_upto(flip: Seq<Option<i8>>, k: int) -> Seq<(int, i8)>
    decreases k,
{
    if k <= 0 {
        seq![]
    } else {
        match flip[k - 1] {
            Some(d) => flips_upto(flip, k - 1).push((k - 1, d)),
            None => flips_upto(flip, k - 1),
        }
    }
}

/// Every flip event lies on a bar before `k` that carries that flip.
pub proof fn lemma_flips_in_range(flip: Seq<Option<i8>>, k: int)
    ensures
        forall|m: int|
            0 <= m < flips_upto(flip, k).len() ==> 0 <= (#[trigger] flips_upto(flip, k)[m]).0 < k
                && flip[flips_upto(flip, k)[m].0] == Some(flips_upto(flip, k)[m].1),
    decreases k,
{
    if k > 0 {
        lemma_flips_in_range(flip, k - 1);
        let p = flips_upto(flip, k - 1);
        let q = flips_upto(flip, k);
        assert forall|m: int| 0 <= m < q.len() implies 0 <= (#[trigger] q[m]).0 < k && flip[q[m].0]
            == Some(q[m].1) by {
            if m < p.len() {
                assert(q[m] == p[m]);
            }
        }
    }
}

/// The Q-Trend flip events `(bar, new direction)`, in bar order.
pub fn flip_events(flip: &Vec<Option<i8>>) -> (out: Vec<(usize, i8)>)
    ensures
        out@.map_values(|e: (usize, i8)| (e.0 as int, e.1)) == flips_upto(flip@, flip.len() as int),
{
    let mut out: Vec<(usize, i8)> = Vec::new();
    let mut i: usize = 0;
    while i < flip.len()
        invariant
            i <= flip.len(),
            out@.map_values(|e: (usize, i8)| (e.0 as int, e.1)) == flips_upto(flip@, i as int),
        decreases flip.len() - i,
    {
        let ghost ov = out@.map_values(|e: (usize, i8)| (e.0 as int, e.1));
        match flip[i] {
            Some(d) => {
                out.push((i, d));
                proof {
                    assert(out@.map_values(|e: (usize, i8)| (e.0 as int, e.1)) =~= ov.push((i as int, d)));
                }
            },
            None => {},
        }
        i = i + 1;
    }
    out
}

} // verus!

verus! {

/// Q-Trend precursor scan after the first `k` bars: (events, armed). Bar 0
/// is never scanned; a flip bar re-arms and never fires; an armed bar that is
/// `near` its pending flip fires `(bar, pending direction)` and disarms.
pub open spec fn precursor_scan(
    flip: Seq<Option<i8>>,
    dir: Seq<Option<i8>>,
    near: Seq<bool>,
    k: int,
) -> (Seq<(int, i8)>, bool)
    decreases k,
{
    if k <= 1 {
        (seq![], true)
    } else {
        let (ev, armed) = precursor_scan(flip, dir, near, k - 1);
        let i = k - 1;
        if flip[i] is Some {
            (ev, true)
        } else {
            match dir[i] {
                Some(d) => if armed && near[i] {
                    (ev.push((i, (-d) as i8)), false)
                } else {
                    (ev, armed)
                },
                None => (ev, armed),
            }
        }
    }
}

/// Q-Trend precursor events: while waiting for the opposite flip,
/// the first bar whose close is `near` the pending flip threshold and moving
/// toward it fires `(bar, pending direction)`; one shot per leg, re-armed by
/// the next flip. `near[i]` is that closeness-and-momentum test of bar `i`.
pub fn precursor_events(flip: &Vec<Option<i8>>, dir: &Vec<Option<i8>>, near: &Vec<bool>) -> (out:
    Vec<(usize, i8)>)
    requires
        flip.len() == dir.len(),
        near.len() == dir.len(),
        forall|i: int| 0 <= i < dir.len() ==> #[trigger] dir@[i] != Some(i8::MIN),
    ensures
        out@.map_values(|e: (usize, i8)| (e.0 as int, e.1)) == precursor_scan(
            flip@,
            dir@,
            near@,
            dir.len() as int,
        ).0,
{
    let mut out: Vec<(usize, i8)> = Vec::new();
    if dir.len() == 0 {
        proof {
            assert(out@.map_values(|e: (usize, i8)| (e.0 as int, e.1)) =~= Seq::<(int, i8)>::empty());
        }
        return out;
    }
    let mut armed = true;
    let mut i: usize = 1;
    proof {
        assert(out@.map_values(|e: (usize, i8)| (e.0 as int, e.1)) =~= Seq::<(int, i8)>::empty());
    }
    while i < dir.len()
        invariant
            flip.len() == dir.len(),
            near.len() == dir.len(),
            forall|j: int| 0 <= j < dir.len() ==> #[trigger] dir@[j] != Some(i8::MIN),
            1 <= i,
            i <= dir.len(),
            (out@.map_values(|e: (usize, i8)| (e.0 as int, e.1)), armed) == precursor_scan(
                flip@,
                dir@,
                near@,
                i as int,
            ),
        decreases dir.len() - i,
    {
        let ghost ov = out@.map_values(|e: (usize, i8)| (e.0 as int, e.1));
        if flip[i].is_some() {
            armed = true;
        } else {
            match dir[i] {
                Some(d) => {
                    if armed && near[i] {
                        let pending: i8 = -d;
                        out.push((i, pending));
                        armed = false;
                        proof {
                            assert(out@.map_values(|e: (usize, i8)| (e.0 as int, e.1)) =~= ov.push(
                                (i as int, pending),
                            ));
                        }
                    }
                },
                None => {},
            }
        }
        i = i + 1;
    }
    out
}

/// Whether some bar in `(a, b]` is a flip bar.
pub open spec fn flip_between(flip: Seq<Option<i8>>, a: int, b: int) -> bool {
    exists|j: int| a < j <= b && #[trigger] flip[j] is Some
}

pub open spec fn precursor_inv(flip: Seq<Option<i8>>, dir: Seq<Option<i8>>, near: Seq<bool>, k: int) -> bool {
    let (ev, armed) = precursor_scan(flip, dir, near, k);
    &&& forall|m: int|
        0 <= m < ev.len() ==> 1 <= (#[trigger] ev[m]).0 < k && flip[ev[m].0] is None && near[ev[m].0]
            && dir[ev[m].0] is Some
    &&& forall|m: int|
        0 <= m < ev.len() - 1 ==> (#[trigger] ev[m]).0 < ev[m + 1].0 && flip_between(
            flip,
            ev[m].0,
            ev[m + 1].0,
        )
    &&& !armed ==> ev.len() > 0 && (forall|j: int| ev.last().0 < j < k ==> (#[trigger] flip[j]) is None)
    &&& (armed && ev.len() > 0) ==> flip_between(flip, ev.last().0, k - 1)
}

proof fn lemma_precursor_inv(flip: Seq<Option<i8>>, dir: Seq<Option<i8>>, near: Seq<bool>, k: int)
    requires
        k <= flip.len(),
        k <= dir.len(),
        k <= near.len(),
    ensures
        precursor_inv(flip, dir, near, k),
    decreases k,
{
    if k > 1 {
        lemma_precursor_inv(flip, dir, near, k - 1);
        let (ev, armed) = precursor_scan(flip, dir, near, k - 1);
        let (ev2, armed2) = precursor_scan(flip, dir, near, k);
        let i = k - 1;
        if ev.len() > 0 && armed {
            let j = choose|j: int| ev.last().0 < j <= k - 2 && #[trigger] flip[j] is Some;
            assert(flip_between(flip, ev.last().0, i));
        }
        if ev2.len() > ev.len() {
            assert forall|m: int| 0 <= m < ev2.len() - 1 implies (#[trigger] ev2[m]).0 < ev2[m
                + 1].0 && flip_between(flip, ev2[m].0, ev2[m + 1].0) by {
                if m < ev.len() - 1 {
                    assert(ev2[m] == ev[m]);
                    assert(ev2[m + 1] == ev[m + 1]);
                    let j = choose|j: int| ev[m].0 < j <= ev[m + 1].0 && #[trigger] flip[j] is Some;
                } else {
                    assert(ev2[m] == ev.last());
                }
            }
            assert forall|m: int| 0 <= m < ev2.len() implies 1 <= (#[trigger] ev2[m]).0 < k
                && flip[ev2[m].0] is None && near[ev2[m].0] && dir[ev2[m].0] is Some by {
                if m < ev.len() {
                    assert(ev2[m] == ev[m]);
                }
            }
        } else {
            if armed2 && ev.len() > 0 && flip[i] is Some {
                assert(flip_between(flip, ev.last().0, i));
            }
        }
    }
}

/// Law: each precursor fires on a bar that is not a flip bar, is near its
/// pending flip, and lies on a leg; successive precursors are separated by a
/// flip — one shot per leg.
pub proof fn law_one_precursor_per_leg(
    flip: Seq<Option<i8>>,
    dir: Seq<Option<i8>>,
    near: Seq<bool>,
    m: int,
)
    requires
        flip.len() == dir.len(),
        near.len() == dir.len(),
        0 <= m < precursor_scan(flip, dir, near, dir.len() as int).0.len(),
    ensures
        ({
            let ev = precursor_scan(flip, dir, near, dir.len() as int).0;
            &&& 1 <= ev[m].0 < dir.len()
            &&& flip[ev[m].0] is None && near[ev[m].0] && dir[ev[m].0] is Some
            &&& m + 1 < ev.len() ==> ev[m].0 < ev[m + 1].0 && flip_between(flip, ev[m].0, ev[m + 1].0)
        }),
{
    lemma_precursor_inv(flip, dir, near, dir.len() as int);
    let ev = precursor_scan(flip, dir, near, dir.len() as int).0;
    assert(1 <= ev[m].0);
}

} // verus!

verus! {

// ------------------------------------------------------------------ Q-Trend signals

/// The Q-Trend signal held after the first `k` bars: the most recent non-zero
/// step (`+1` after a break above the line, `-1` after a break below), `0`
/// before any.
pub open spec fn last_signal(step: Seq<Option<i8>>, k: int) -> i8
    decreases k,
{
    if k <= 0 {
        0
    } else {
        match step[k - 1] {
            Some(s) => if s != 0 {
                s
            } else {
                last_signal(step, k - 1)
            },
            None => last_signal(step, k - 1),
        }
    }
}

/// Flip at bar `i`: an evaluated break whose direction differs from the
/// signal held before the bar.
pub open spec fn qt_flip_spec(step: Seq<Option<i8>>, i: int) -> Option<i8> {
    match step[i] {
        Some(s) => if s != 0 && last_signal(step, i) != s {
            Some(s)
        } else {
            None
        },
        None => None,
    }
}

/// Held direction at bar `i`: the signal after the bar, on evaluated bars
/// once a first signal exists.
pub open spec fn qt_dir_spec(step: Seq<Option<i8>>, i: int) -> Option<i8> {
    if step[i] is Some && last_signal(step, i + 1) != 0 {
        Some(last_signal(step, i + 1))
    } else {
        None
    }
}

/// Whether some flag in bars `lo..=hi` is set.
pub open spec fn window_any(flags: Seq<bool>, lo: int, hi: int) -> bool {
    exists|j: int| lo <= j <= hi && #[trigger] flags[j]
}

/// STRONG at a flip bar: the open sat in the bottom (buy) or top (sell)
/// octile of its range on one of the last five bars, not before `start`.
pub open spec fn qt_strong_spec(
    step: Seq<Option<i8>>,
    bottom: Seq<bool>,
    top: Seq<bool>,
    start: int,
    i: int,
) -> bool {
    let lo = if i - 4 > start {
        i - 4
    } else {
        start
    };
    match qt_flip_spec(step, i) {
        Some(d) => if d > 0 {
            window_any(bottom, lo, i)
        } else {
            window_any(top, lo, i)
        },
        None => false,
    }
}

/// Per-bar Q-Trend signals: held direction, flip and STRONG qualifier.
pub struct QtSignals {
    pub dir: Vec<Option<i8>>,
    pub flip: Vec<Option<i8>>,
    pub strong: Vec<bool>,
}

/// Whether `bottom[lo..=hi]` (or `top`) has a set flag.
fn any_in(flags: &Vec<bool>, lo: usize, hi: usize) -> (b: bool)
    requires
        hi < flags.len(),
    ensures
        b == window_any(flags@, lo as int, hi as int),
{
    if lo > hi {
        return false;
    }
    let mut j = lo;
    while j <= hi
        invariant
            hi < flags.len(),
            lo <= j,
            j <= hi + 1,
            forall|t: int| lo <= t < j ==> !(#[trigger] flags@[t]),
        decreases hi + 1 - j,
    {
        if flags[j] {
            return true;
        }
        j = j + 1;
    }
    false
}

/// Q-Trend signal latch. `step[i]` is `None` on bars that are not evaluated
/// (warm-up: no full range window or no previous ATR yet), else `Some(+1)`
/// when the close broke above the carried line plus the band, `Some(-1)`
/// below it minus the band, `Some(0)` otherwise. `bottom[i]` / `top[i]` say
/// whether bar `i`'s open sat in the bottom / top octile of its range, and
/// `start` is the first bar with a full window. A break against the held
/// signal is a flip; the held signal is each evaluated bar's direction.
pub fn qtrend_signals(step: &Vec<Option<i8>>, bottom: &Vec<bool>, top: &Vec<bool>, start: usize) -> (out:
    QtSignals)
    requires
        bottom.len() == step.len(),
        top.len() == step.len(),
        forall|i: int|
            0 <= i < step.len() ==> (#[trigger] step@[i] matches Some(s) ==> -1 <= s <= 1),
    ensures
        out.dir.len() == step.len(),
        out.flip.len() == step.len(),
        out.strong.len() == step.len(),
        forall|i: int| 0 <= i < step.len() ==> #[trigger] out.dir@[i] == qt_dir_spec(step@, i),
        forall|i: int| 0 <= i < step.len() ==> #[trigger] out.flip@[i] == qt_flip_spec(step@, i),
        forall|i: int|
            0 <= i < step.len() ==> #[trigger] out.strong@[i] == qt_strong_spec(
                step@,
                bottom@,
                top@,
                start as int,
                i,
            ),
{
    let n = step.len();
    let mut dir: Vec<Option<i8>> = Vec::new();
    let mut flip: Vec<Option<i8>> = Vec::new();
    let mut strong: Vec<bool> = Vec::new();
    let mut ls: i8 = 0;
    let mut i: usize = 0;
    while i < n
        invariant
            n == step.len(),
            bottom.len() == n,
            top.len() == n,
            forall|t: int| 0 <= t < n ==> (#[trigger] step@[t] matches Some(s) ==> -1 <= s <= 1),
            i <= n,
            ls == last_signal(step@, i as int),
            dir.len() == i,
            flip.len() == i,
            strong.len() == i,
            forall|t: int| 0 <= t < i ==> #[trigger] dir@[t] == qt_dir_spec(step@, t),
            forall|t: int| 0 <= t < i ==> #[trigger] flip@[t] == qt_flip_spec(step@, t),
            forall|t: int|
                0 <= t < i ==> #[trigger] strong@[t] == qt_strong_spec(
                    step@,
                    bottom@,
                    top@,
                    start as int,
                    t,
                ),
        decreases n - i,
    {
        let lo: usize = if i >= 4 && i - 4 > start {
            i - 4
        } else {
            start
        };
        proof {
            assert(lo as int == (if i - 4 > start {
                i - 4
            } else {
                start as int
            }));
        }
        match step[i] {
            Some(s) => {
                let prev = ls;
                if s != 0 {
                    ls = s;
                }
                if s != 0 && prev != s {
                    flip.push(Some(s));
                    let st = if s > 0 {
                        any_in(bottom, lo, i)
                    } else {
                        any_in(top, lo, i)
                    };
                    strong.push(st);
                } else {
                    flip.push(None);
                    strong.push(false);
                }
                if ls != 0 {
                    dir.push(Some(ls));
                } else {
                    dir.push(None);
                }
            },
            None => {
                flip.push(None);
                strong.push(false);
                dir.push(None);
            },
        }
        i = i + 1;
    }
    QtSignals { dir, flip, strong }
}

} // verus!

verus! {

/// Without a flip in bars `i+1..k`, the held signal does not change.
proof fn lemma_signal_held(step: Seq<Option<i8>>, i: int, k: int)
    requires
        0 <= i < k <= step.len(),
        forall|m: int| i < m < k ==> #[trigger] qt_flip_spec(step, m) is None,
    ensures
        last_signal(step, k) == last_signal(step, i + 1),
    decreases k,
{
    if k > i + 1 {
        lemma_signal_held(step, i, k - 1);
        assert(qt_flip_spec(step, k - 1) is None);
    }
}

/// Law: the Q-Trend direction changes only at a flip — between two bars
/// with different held directions lies a flip bar, and a flip bar holds the
/// flip's direction.
pub proof fn law_qt_direction_changes_only_at_flips(step: Seq<Option<i8>>, i: int, j: int)
    requires
        0 <= i < j < step.len(),
        qt_dir_spec(step, i) is Some,
        qt_dir_spec(step, j) is Some,
        qt_dir_spec(step, i) != qt_dir_spec(step, j),
    ensures
        exists|k: int| i < k <= j && (#[trigger] qt_flip_spec(step, k)) is Some,
{
    if forall|m: int| i < m < j + 1 ==> #[trigger] qt_flip_spec(step, m) is None {
        lemma_signal_held(step, i, j + 1);
    }
}

/// Law: a flip bar holds its flip's direction.
pub proof fn law_qt_flip_sets_direction(step: Seq<Option<i8>>, i: int)
    requires
        0 <= i < step.len(),
        qt_flip_spec(step, i) is Some,
    ensures
        qt_dir_spec(step, i) == qt_flip_spec(step, i),
{
}

/// Law: consecutive Q-Trend flips alternate — a BUY flip is followed by a
/// SELL flip and vice versa; the same direction never flips twice in a row.
pub proof fn law_qt_flips_alternate(step: Seq<Option<i8>>, i: int, j: int)
    requires
        forall|t: int| 0 <= t < step.len() ==> (#[trigger] step[t] matches Some(s) ==> -1 <= s <= 1),
        0 <= i < j < step.len(),
        qt_flip_spec(step, i) is Some,
        qt_flip_spec(step, j) is Some,
        forall|m: int| i < m < j ==> #[trigger] qt_flip_spec(step, m) is None,
    ensures
        qt_flip_spec(step, j)->0 == -(qt_flip_spec(step, i)->0),
{
    lemma_signal_held(step, i, j);
    assert(step[i] is Some);
    assert(step[j] is Some);
}

} // verus!
