//! Price-pane markers of the chart layers: which bars carry a marker (the
//! event rules of `scoring` and `chart`) and how each marker looks. Prices
//! arrive already formatted (two decimals) from the caller.

use vstd::prelude::*;

use crate::chart::{
    flip_events, flips_upto, lemma_flips_in_range, lemma_st_flips_in_range,
    law_one_precursor_per_leg, precursor_events, precursor_scan, st_flip_events, st_flips_upto,
};
use crate::models::ChartMarker;
use crate::scoring::{law_marker_confirms, marker_events, marker_events_spec, min_len};
use crate::text::{chars_of, push_str, string_of};

verus! {

broadcast use vstd::string::group_string_axioms;

/// The chart layer a marker belongs to.
#[derive(Debug, Clone, Copy, PartialEq, Eq, Structural)]
pub enum MarkerLayer {
    /// BUY/SELL confluence markers (one per Supertrend leg).
    Confluence,
    /// Q-Trend direction flips.
    QTrendFlip,
    /// Supertrend direction flips.
    StFlip,
    /// Q-Trend precursor circles.
    Precursor,
}

/// A marker as plain values: (time, position, color, shape, text).
pub type MarkerView = (int, Seq<char>, Seq<char>, Seq<char>, Seq<char>);

pub open spec fn marker_view(m: ChartMarker) -> MarkerView {
    (m.time as int, m.position@, m.color@, m.shape@, m.text@)
}

/// The text label in front of the price.
pub open spec fn layer_label(layer: MarkerLayer, up: bool, strong: bool) -> Seq<char> {
    match layer {
        MarkerLayer::Confluence => if up {
            "BUY"@
        } else {
            "SELL"@
        },
        MarkerLayer::QTrendFlip => if strong {
            "QT STRONG"@
        } else if up {
            "QT BUY"@
        } else {
            "QT SELL"@
        },
        MarkerLayer::StFlip => if up {
            "ST LONG"@
        } else {
            "ST SHORT"@
        },
        MarkerLayer::Precursor => "QT前兆"@,
    }
}

pub open spec fn layer_color(layer: MarkerLayer, up: bool) -> Seq<char> {
    match layer {
        MarkerLayer::Confluence => if up {
            "#26a69a"@
        } else {
            "#ef5350"@
        },
        MarkerLayer::QTrendFlip => if up {
            "#2196f3"@
        } else {
            "#ff9800"@
        },
        MarkerLayer::StFlip => if up {
            "#3fb950"@
        } else {
            "#f0596a"@
        },
        MarkerLayer::Precursor => if up {
            "#90caf9"@
        } else {
            "#ffcc80"@
        },
    }
}

pub open spec fn layer_shape(layer: MarkerLayer, up: bool) -> Seq<char> {
    match layer {
        MarkerLayer::Precursor => "circle"@,
        _ => if up {
            "arrowUp"@
        } else {
            "arrowDown"@
        },
    }
}

/// The marker of `layer` at `time` for direction `d` (up when `d > 0`):
/// below the bar when up, above it otherwise; the text is the label, `" @ "`
/// and the formatted price.
pub open spec fn marker_spec(
    layer: MarkerLayer,
    time: i64,
    d: i8,
    strong: bool,
    price: Seq<char>,
) -> MarkerView {
    let up = d > 0;
    (
        time as int,
        if up {
            "belowBar"@
        } else {
            "aboveBar"@
        },
        layer_color(layer, up),
        layer_shape(layer, up),
        layer_label(layer, up, strong) + " @ "@ + price,
    )
}

fn label_str(layer: MarkerLayer, up: bool, strong: bool) -> (s: &'static str)
    ensures
        s@ == layer_label(layer, up, strong),
{
    match layer {
        MarkerLayer::Confluence => if up {
            "BUY"
        } else {
            "SELL"
        },
        MarkerLayer::QTrendFlip => if strong {
            "QT STRONG"
        } else if up {
            "QT BUY"
        } else {
            "QT SELL"
        },
        MarkerLayer::StFlip => if up {
            "ST LONG"
        } else {
            "ST SHORT"
        },
        MarkerLayer::Precursor => "QT前兆",
    }
}

fn color_str(layer: MarkerLayer, up: bool) -> (s: &'static str)
    ensures
        s@ == layer_color(layer, up),
{
    match layer {
        MarkerLayer::Confluence => if up {
            "#26a69a"
        } else {
            "#ef5350"
        },
        MarkerLayer::QTrendFlip => if up {
            "#2196f3"
        } else {
            "#ff9800"
        },
        MarkerLayer::StFlip => if up {
            "#3fb950"
        } else {
            "#f0596a"
        },
        MarkerLayer::Precursor => if up {
            "#90caf9"
        } else {
            "#ffcc80"
        },
    }
}

fn shape_str(layer: MarkerLayer, up: bool) -> (s: &'static str)
    ensures
        s@ == layer_shape(layer, up),
{
    match layer {
        MarkerLayer::Precursor => "circle",
        _ => if up {
            "arrowUp"
        } else {
            "arrowDown"
        },
    }
}

/// One marker of `layer` at `time` for direction `d`, priced `price`.
pub fn layer_marker(layer: MarkerLayer, time: i64, d: i8, strong: bool, price: &String) -> (m:
    ChartMarker)
    ensures
        marker_view(m) == marker_spec(layer, time, d, strong, price@),
{
    let up = d > 0;
    let mut text = chars_of(label_str(layer, up, strong));
    push_str(&mut text, " @ ");
    push_str(&mut text, price.as_str());
    let position = if up {
        "belowBar".to_string()
    } else {
        "aboveBar".to_string()
    };
    ChartMarker {
        time,
        position,
        color: color_str(layer, up).to_string(),
        shape: shape_str(layer, up).to_string(),
        text: string_of(&text),
    }
}

/// Whether every event bar has a timestamp and a price (and, for Q-Trend
/// flips, a strength flag).
pub open spec fn events_in_range(
    layer: MarkerLayer,
    ev: Seq<(int, i8)>,
    n_ts: int,
    n_prices: int,
    n_strong: int,
) -> bool {
    forall|k: int|
        0 <= k < ev.len() ==> 0 <= (#[trigger] ev[k]).0 < n_ts && ev[k].0 < n_prices && (layer
            == MarkerLayer::QTrendFlip ==> ev[k].0 < n_strong)
}

/// The markers of `layer` for the events `ev`, in order.
pub open spec fn markers_spec(
    layer: MarkerLayer,
    ev: Seq<(int, i8)>,
    ts: Seq<i64>,
    prices: Seq<String>,
    strong: Seq<bool>,
) -> Seq<MarkerView> {
    Seq::new(
        ev.len(),
        |k: int|
            marker_spec(
                layer,
                ts[ev[k].0],
                ev[k].1,
                layer == MarkerLayer::QTrendFlip && strong[ev[k].0],
                prices[ev[k].0]@,
            ),
    )
}

pub open spec fn events_view(ev: Seq<(usize, i8)>) -> Seq<(int, i8)> {
    ev.map_values(|e: (usize, i8)| (e.0 as int, e.1))
}

pub open spec fn markers_view(v: Seq<ChartMarker>) -> Seq<MarkerView> {
    v.map_values(|m: ChartMarker| marker_view(m))
}

/// Turns `(bar, direction)` events into the markers of `layer`, stamped with
/// the bar's time and formatted price.
pub fn layer_markers(
    layer: MarkerLayer,
    events: &Vec<(usize, i8)>,
    ts: &Vec<i64>,
    prices: &Vec<String>,
    strong: &Vec<bool>,
) -> (out: Vec<ChartMarker>)
    requires
        events_in_range(
            layer,
            events_view(events@),
            ts.len() as int,
            prices.len() as int,
            strong.len() as int,
        ),
    ensures
        markers_view(out@) == markers_spec(layer, events_view(events@), ts@, prices@, strong@),
{
    let ghost ev = events_view(events@);
    let mut out: Vec<ChartMarker> = Vec::new();
    let mut k: usize = 0;
    while k < events.len()
        invariant
            ev == events_view(events@),
            events_in_range(layer, ev, ts.len() as int, prices.len() as int, strong.len() as int),
            k <= events.len(),
            markers_view(out@) =~= markers_spec(layer, ev, ts@, prices@, strong@).take(k as int),
        decreases events.len() - k,
    {
        let (i, d) = events[k];
        assert(ev[k as int] == (i as int, d));
        let s = match layer {
            MarkerLayer::QTrendFlip => strong[i],
            _ => false,
        };
        let m = layer_marker(layer, ts[i], d, s, &prices[i]);
        let ghost before = markers_view(out@);
        out.push(m);
        proof {
            assert(markers_view(out@) =~= before.push(marker_view(m)));
        }
        k = k + 1;
    }
    proof {
        assert(markers_spec(layer, ev, ts@, prices@, strong@).take(events.len() as int) =~= markers_spec(
            layer,
            ev,
            ts@,
            prices@,
            strong@,
        ));
    }
    out
}

/// BUY/SELL confluence markers: one per Supertrend leg, on the first bar
/// whose integer score confirms the leg (see `marker_events`).
pub fn confluence_markers(
    ts: &Vec<i64>,
    prices: &Vec<String>,
    score: &Vec<Option<i64>>,
    st_dir: &Vec<Option<i8>>,
    buy: i64,
    sell: i64,
) -> (out: Vec<ChartMarker>)
    requires
        ts.len() >= min_len(score.len() as int, st_dir.len() as int),
        prices.len() >= min_len(score.len() as int, st_dir.len() as int),
    ensures
        markers_view(out@) == markers_spec(
            MarkerLayer::Confluence,
            marker_events_spec(score@, st_dir@, buy, sell),
            ts@,
            prices@,
            seq![],
        ),
{
    let events = marker_events(score, st_dir, buy, sell);
    let ghost ev = marker_events_spec(score@, st_dir@, buy, sell);
    proof {
        assert forall|k: int| 0 <= k < ev.len() implies 0 <= (#[trigger] ev[k]).0 < ts.len()
            && ev[k].0 < prices.len() by {
            law_marker_confirms(score@, st_dir@, buy, sell, k);
        }
    }
    let none: Vec<bool> = Vec::new();
    let out = layer_markers(MarkerLayer::Confluence, &events, ts, prices, &none);
    proof {
        assert(markers_spec(MarkerLayer::Confluence, ev, ts@, prices@, none@) =~= markers_spec(
            MarkerLayer::Confluence,
            ev,
            ts@,
            prices@,
            seq![],
        ));
    }
    out
}

/// Supertrend flip markers: one per direction flip (the first direction after
/// warm-up is the initialization and carries none).
pub fn st_flip_markers(ts: &Vec<i64>, prices: &Vec<String>, st_dir: &Vec<Option<i8>>) -> (out: Vec<
    ChartMarker,
>)
    requires
        ts.len() >= st_dir.len(),
        prices.len() >= st_dir.len(),
    ensures
        markers_view(out@) == markers_spec(
            MarkerLayer::StFlip,
            st_flips_upto(st_dir@, st_dir.len() as int),
            ts@,
            prices@,
            seq![],
        ),
{
    let events = st_flip_events(st_dir);
    proof {
        lemma_st_flips_in_range(st_dir@, st_dir.len() as int);
    }
    let none: Vec<bool> = Vec::new();
    let out = layer_markers(MarkerLayer::StFlip, &events, ts, prices, &none);
    proof {
        let ev = st_flips_upto(st_dir@, st_dir.len() as int);
        assert(markers_spec(MarkerLayer::StFlip, ev, ts@, prices@, none@) =~= markers_spec(
            MarkerLayer::StFlip,
            ev,
            ts@,
            prices@,
            seq![],
        ));
    }
    out
}

/// Q-Trend flip markers: one per flip bar, labelled STRONG when the flip bar
/// is strong, else BUY/SELL by the new direction.
pub fn qtrend_flip_markers(
    ts: &Vec<i64>,
    prices: &Vec<String>,
    flip: &Vec<Option<i8>>,
    strong: &Vec<bool>,
) -> (out: Vec<ChartMarker>)
    requires
        ts.len() >= flip.len(),
        prices.len() >= flip.len(),
        strong.len() >= flip.len(),
    ensures
        markers_view(out@) == markers_spec(
            MarkerLayer::QTrendFlip,
            flips_upto(flip@, flip.len() as int),
            ts@,
            prices@,
            strong@,
        ),
{
    let events = flip_events(flip);
    proof {
        lemma_flips_in_range(flip@, flip.len() as int);
    }
    layer_markers(MarkerLayer::QTrendFlip, &events, ts, prices, strong)
}

/// Q-Trend precursor circles: one per leg, on the first bar `near` its
/// pending flip (see `precursor_events`), placed on the pending side.
pub fn qtrend_precursor_markers(
    ts: &Vec<i64>,
    prices: &Vec<String>,
    flip: &Vec<Option<i8>>,
    dir: &Vec<Option<i8>>,
    near: &Vec<bool>,
) -> (out: Vec<ChartMarker>)
    requires
        flip.len() == dir.len(),
        near.len() == dir.len(),
        forall|i: int| 0 <= i < dir.len() ==> #[trigger] dir@[i] != Some(i8::MIN),
        ts.len() >= dir.len(),
        prices.len() >= dir.len(),
    ensures
        markers_view(out@) == markers_spec(
            MarkerLayer::Precursor,
            precursor_scan(flip@, dir@, near@, dir.len() as int).0,
            ts@,
            prices@,
            seq![],
        ),
{
    let events = precursor_events(flip, dir, near);
    let ghost ev = precursor_scan(flip@, dir@, near@, dir.len() as int).0;
    proof {
        assert forall|k: int| 0 <= k < ev.len() implies 0 <= (#[trigger] ev[k]).0 < ts.len()
            && ev[k].0 < prices.len() by {
            law_one_precursor_per_leg(flip@, dir@, near@, k);
        }
    }
    let none: Vec<bool> = Vec::new();
    let out = layer_markers(MarkerLayer::Precursor, &events, ts, prices, &none);
    proof {
        assert(markers_spec(MarkerLayer::Precursor, ev, ts@, prices@, none@) =~= markers_spec(
            MarkerLayer::Precursor,
            ev,
            ts@,
            prices@,
            seq![],
        ));
    }
    out
}

} // verus!
