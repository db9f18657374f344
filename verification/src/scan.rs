//! Decisions of a universe scan that sit between its I/O steps: which (symbol, timeframe) series to request, which timeframe a
//! sidecar result belongs to, and the row errors a scan collects.

use vstd::prelude::*;

use crate::freshness::FetchDecision;
use crate::models::{all_tfs, interval_spec, RowError, Tf};
use crate::sidecar::{FetchErrorItem, FetchRequestItem, ItemView};
use crate::models::chars_eq_str;
use crate::text::{chars_of, decimal_chars, decimal_spec, push_chars, push_str, string_of};
use crate::universe::UniverseEntry;

verus! {

broadcast use vstd::string::group_string_axioms;

/// The timeframe whose interval string is `s`, if any.
pub open spec fn tf_from_interval_spec(s: Seq<char>) -> Option<Tf> {
    if s == interval_spec(Tf::Daily) {
        Some(Tf::Daily)
    } else if s == interval_spec(Tf::Weekly) {
        Some(Tf::Weekly)
    } else if s == interval_spec(Tf::Monthly) {
        Some(Tf::Monthly)
    } else {
        None
    }
}

/// The timeframe whose yfinance interval string is `s`.
pub fn tf_from_interval(s: &str) -> (r: Option<Tf>)
    ensures
        r == tf_from_interval_spec(s@),
{
    let c = chars_of(s);
    if chars_eq_str(&c, Tf::Daily.interval()) {
        Some(Tf::Daily)
    } else if chars_eq_str(&c, Tf::Weekly.interval()) {
        Some(Tf::Weekly)
    } else if chars_eq_str(&c, Tf::Monthly.interval()) {
        Some(Tf::Monthly)
    } else {
        None
    }
}

/// Law: interval strings identify timeframes — each timeframe's interval maps
/// back to it, and distinct timeframes have distinct intervals.
pub proof fn law_interval_round_trip(tf: Tf)
    ensures
        tf_from_interval_spec(interval_spec(tf)) == Some(tf),
{
    reveal_strlit("1d");
    reveal_strlit("1wk");
    reveal_strlit("1mo");
    assert("1d"@.len() == 2);
    assert("1wk"@.len() == 3);
    assert("1mo"@.len() == 3);
    assert("1wk"@[1] == 'w');
    assert("1mo"@[1] == 'm');
    assert(interval_spec(Tf::Daily) != interval_spec(Tf::Weekly));
    assert(interval_spec(Tf::Daily) != interval_spec(Tf::Monthly));
    assert(interval_spec(Tf::Weekly) != interval_spec(Tf::Monthly));
}

/// The request item (if any) for a symbol × timeframe under a decision.
pub open spec fn item_spec(symbol: Seq<char>, tf: Tf, d: FetchDecision) -> Option<ItemView> {
    match d {
        FetchDecision::Full => Some((symbol, interval_spec(tf), None, None)),
        FetchDecision::From(last) => Some((symbol, interval_spec(tf), Some(last), None)),
        FetchDecision::Skip => None,
    }
}

/// Request items for the first `k` (symbol, timeframe) slots, where slot
/// `k` is symbol `k / 3` × timeframe `k % 3` (daily, weekly, monthly).
pub open spec fn items_upto(syms: Seq<Seq<char>>, ds: Seq<FetchDecision>, k: int) -> Seq<ItemView>
    decreases k,
{
    if k <= 0 {
        seq![]
    } else {
        let p = items_upto(syms, ds, k - 1);
        match item_spec(syms[(k - 1) / 3], all_tfs()[(k - 1) % 3], ds[k - 1]) {
            Some(it) => p.push(it),
            None => p,
        }
    }
}

pub open spec fn items_view(v: Seq<FetchRequestItem>) -> Seq<ItemView> {
    v.map_values(|it: FetchRequestItem| it@)
}

pub open spec fn symbols_of(u: Seq<UniverseEntry>) -> Seq<Seq<char>> {
    u.map_values(|e: UniverseEntry| e.symbol@)
}

/// The request item for one symbol × timeframe under its fetch decision.
pub fn fetch_item(symbol: &String, tf: Tf, d: FetchDecision) -> (r: Option<FetchRequestItem>)
    ensures
        match r {
            Some(it) => item_spec(symbol@, tf, d) == Some(it@),
            None => item_spec(symbol@, tf, d) is None,
        },
{
    let start = match d {
        FetchDecision::Full => None,
        FetchDecision::From(last) => Some(last),
        FetchDecision::Skip => {
            return None;
        },
    };
    let interval = tf.interval().to_string();
    Some(FetchRequestItem { symbol: symbol.clone(), interval, start, end: None })
}

/// Request items of a scan: `decisions` holds
/// the fetch decision of every universe symbol for daily, weekly and monthly,
/// in that order; skipped series are left out.
pub fn fetch_items(universe: &Vec<UniverseEntry>, decisions: &Vec<FetchDecision>) -> (r: Vec<
    FetchRequestItem,
>)
    requires
        decisions.len() == 3 * universe.len(),
    ensures
        items_view(r@) == items_upto(symbols_of(universe@), decisions@, decisions.len() as int),
{
    let ghost syms = symbols_of(universe@);
    let tfs = Tf::ALL;
    let mut r: Vec<FetchRequestItem> = Vec::new();
    let mut k: usize = 0;
    while k < decisions.len()
        invariant
            decisions.len() == 3 * universe.len(),
            k <= decisions.len(),
            syms == symbols_of(universe@),
            tfs@ == all_tfs(),
            items_view(r@) == items_upto(syms, decisions@, k as int),
        decreases decisions.len() - k,
    {
        let e = &universe[k / 3];
        let tf = tfs[k % 3];
        let ghost before = items_view(r@);
        proof {
            assert(syms[(k / 3) as int] == e.symbol@);
        }
        match fetch_item(&e.symbol, tf, decisions[k]) {
            Some(it) => {
                r.push(it);
                proof {
                    assert(items_view(r@) =~= before.push(it@));
                }
            },
            None => {},
        }
        k = k + 1;
    }
    r
}

/// Row error for a sidecar fetch failure: the symbol, and
/// `fetch <interval>: <reason>`.
pub open spec fn fetch_error_reason(interval: Seq<char>, reason: Seq<char>) -> Seq<char> {
    "fetch "@ + interval + ": "@ + reason
}

/// The row error a scan records for a sidecar fetch failure.
pub fn fetch_error_row(fe: &FetchErrorItem) -> (e: RowError)
    ensures
        e.symbol@ == fe.symbol@,
        e.reason@ == fetch_error_reason(fe.interval@, fe.reason@),
{
    let mut v = chars_of("fetch ");
    let iv = chars_of(fe.interval.as_str());
    push_chars(&mut v, &iv);
    push_str(&mut v, ": ");
    let rv = chars_of(fe.reason.as_str());
    push_chars(&mut v, &rv);
    RowError { symbol: fe.symbol.clone(), reason: string_of(&v) }
}

/// Reason recorded for a symbol with too little daily history.
pub open spec fn insufficient_reason(got: nat, min: nat) -> Seq<char> {
    "insufficient history: "@ + decimal_spec(got) + " < "@ + decimal_spec(min) + " bars"@
}

/// The row error for a symbol whose daily history is shorter than
/// `min_bars`; `None` when it has enough bars to be scored.
pub fn history_check(symbol: &String, bars: usize, min_bars: usize) -> (r: Option<RowError>)
    ensures
        (r is Some) == (bars < min_bars),
        r matches Some(e) ==> e.symbol@ == symbol@ && e.reason@ == insufficient_reason(
            bars as nat,
            min_bars as nat,
        ),
{
    if bars >= min_bars {
        return None;
    }
    let mut v = chars_of("insufficient history: ");
    let g = decimal_chars(bars as u128);
    push_chars(&mut v, &g);
    push_str(&mut v, " < ");
    let m = decimal_chars(min_bars as u128);
    push_chars(&mut v, &m);
    push_str(&mut v, " bars");
    Some(RowError { symbol: symbol.clone(), reason: string_of(&v) })
}

} // verus!
