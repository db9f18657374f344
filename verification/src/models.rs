//! Core value types shared across the pipeline: timeframes, asset classes and
//! the row-level error record, plus the chart marker/summary rows.

use vstd::prelude::*;

use crate::regime::Regime;
use crate::text::{
    chars_of, lower_spec, to_lowercase, to_uppercase, trim_spec, trim_str, upper_spec,
};

verus! {

broadcast use vstd::string::group_string_axioms;

/// Timeframe of a series. Proximity/timing is read from `Daily`; `Weekly` and
/// `Monthly` provide multi-timeframe context.
#[derive(Debug, Clone, Copy, PartialEq, Eq, Structural)]
pub enum Tf {
    Daily,
    Weekly,
    Monthly,
}

/// yfinance interval string of a timeframe.
pub open spec fn interval_spec(tf: Tf) -> Seq<char> {
    match tf {
        Tf::Daily => "1d"@,
        Tf::Weekly => "1wk"@,
        Tf::Monthly => "1mo"@,
    }
}

/// Approximate seconds per bar.
pub open spec fn bar_seconds_spec(tf: Tf) -> int {
    match tf {
        Tf::Daily => 86_400int,
        Tf::Weekly => 604_800int,
        Tf::Monthly => 2_592_000int,
    }
}

/// All timeframes, daily first.
pub open spec fn all_tfs() -> Seq<Tf> {
    seq![Tf::Daily, Tf::Weekly, Tf::Monthly]
}

impl Tf {
    pub const ALL: [Tf; 3] = [Tf::Daily, Tf::Weekly, Tf::Monthly];

    /// yfinance interval string.
    pub fn interval(self) -> (s: &'static str)
        ensures
            s@ == interval_spec(self),
    {
        match self {
            Tf::Daily => "1d",
            Tf::Weekly => "1wk",
            Tf::Monthly => "1mo",
        }
    }

    /// Approximate seconds per bar (for cache-freshness heuristics).
    pub fn bar_seconds(self) -> (s: i64)
        ensures
            s == bar_seconds_spec(self),
    {
        match self {
            Tf::Daily => 86_400,
            Tf::Weekly => 7 * 86_400,
            Tf::Monthly => 30 * 86_400,
        }
    }
}

/// Asset class. Inferred from the symbol when the watchlist omits it.
#[derive(Debug, Clone, Copy, PartialEq, Eq, PartialOrd, Ord, Structural)]
pub enum AssetClass {
    Equity,
    Crypto,
}

pub open spec fn ends_with_spec(s: Seq<char>, suffix: Seq<char>) -> bool {
    suffix.len() <= s.len() && s.subrange(s.len() - suffix.len(), s.len() as int) == suffix
}

/// Asset class inferred from a symbol: Yahoo crypto pairs end with `-USD` or
/// `-USDT` once upper-cased; everything else is equity.
pub open spec fn infer_spec(symbol: Seq<char>) -> AssetClass {
    let u = upper_spec(symbol);
    if ends_with_spec(u, "-USD"@) || ends_with_spec(u, "-USDT"@) {
        AssetClass::Crypto
    } else {
        AssetClass::Equity
    }
}

pub open spec fn asset_str_spec(a: AssetClass) -> Seq<char> {
    match a {
        AssetClass::Equity => "equity"@,
        AssetClass::Crypto => "crypto"@,
    }
}

/// Parse of an asset-class label: trimmed, lower-cased, then matched against
/// the accepted spellings.
pub open spec fn parse_asset_spec(s: Seq<char>) -> Option<AssetClass> {
    let l = lower_spec(trim_spec(s));
    if l == "equity"@ || l == "equities"@ || l == "stock"@ {
        Some(AssetClass::Equity)
    } else if l == "crypto"@ || l == "cryptocurrency"@ {
        Some(AssetClass::Crypto)
    } else {
        None
    }
}

/// `s.ends_with(suffix)` on characters.
pub fn ends_with(s: &Vec<char>, suffix: &str) -> (b: bool)
    ensures
        b == ends_with_spec(s@, suffix@),
{
    let t = chars_of(suffix);
    if t.len() > s.len() {
        return false;
    }
    let off = s.len() - t.len();
    let mut i: usize = 0;
    while i < t.len()
        invariant
            t@ == suffix@,
            off == s.len() - t.len(),
            i <= t.len(),
            forall|j: int| 0 <= j < i ==> s@[off + j] == #[trigger] t@[j],
        decreases t.len() - i,
    {
        if s[off + i] != t[i] {
            proof {
                assert(s@.subrange(off as int, s.len() as int)[i as int] != t@[i as int]);
            }
            return false;
        }
        i = i + 1;
    }
    proof {
        assert(s@.subrange(off as int, s.len() as int) =~= t@);
    }
    true
}

/// `a == b` on character sequences.
pub fn chars_eq(a: &Vec<char>, b: &Vec<char>) -> (r: bool)
    ensures
        r == (a@ == b@),
{
    if a.len() != b.len() {
        return false;
    }
    let mut i: usize = 0;
    while i < a.len()
        invariant
            a.len() == b.len(),
            i <= a.len(),
            forall|j: int| 0 <= j < i ==> a@[j] == b@[j],
        decreases a.len() - i,
    {
        if a[i] != b[i] {
            return false;
        }
        i = i + 1;
    }
    proof {
        assert(a@ =~= b@);
    }
    true
}

/// Whether the characters `a` spell the literal `s`.
pub fn chars_eq_str(a: &Vec<char>, s: &str) -> (r: bool)
    ensures
        r == (a@ == s@),
{
    let b = chars_of(s);
    chars_eq(a, &b)
}

impl AssetClass {
    /// Heuristic from the yfinance symbol: crypto pairs end with `-USD` (or
    /// `-USDT`) once upper-cased; everything else is treated as equity.
    pub fn infer(symbol: &str) -> (a: AssetClass)
        ensures
            a == infer_spec(symbol@),
    {
        let s = to_uppercase(symbol);
        let u = chars_of(s.as_str());
        if ends_with(&u, "-USD") || ends_with(&u, "-USDT") {
            AssetClass::Crypto
        } else {
            AssetClass::Equity
        }
    }

    pub fn as_str(self) -> (s: &'static str)
        ensures
            s@ == asset_str_spec(self),
    {
        match self {
            AssetClass::Equity => "equity",
            AssetClass::Crypto => "crypto",
        }
    }

    pub fn parse(s: &str) -> (r: Option<AssetClass>)
        ensures
            r == parse_asset_spec(s@),
    {
        let t = trim_str(s);
        let l = to_lowercase(t.as_str());
        let c = chars_of(l.as_str());
        if chars_eq_str(&c, "equity") || chars_eq_str(&c, "equities") || chars_eq_str(&c, "stock") {
            Some(AssetClass::Equity)
        } else if chars_eq_str(&c, "crypto") || chars_eq_str(&c, "cryptocurrency") {
            Some(AssetClass::Crypto)
        } else {
            None
        }
    }
}

/// A row-scoped failure collected during a scan; never aborts the whole run.
#[derive(Debug, Clone, PartialEq, Eq)]
pub struct RowError {
    pub symbol: String,
    pub reason: String,
}

impl View for RowError {
    type V = (Seq<char>, Seq<char>);

    open spec fn view(&self) -> (Seq<char>, Seq<char>) {
        (self.symbol@, self.reason@)
    }
}

/// A marker on the price pane (series-markers plugin).
#[derive(Debug, Clone, PartialEq, Eq)]
pub struct ChartMarker {
    pub time: i64,
    pub position: String,
    pub color: String,
    pub shape: String,
    pub text: String,
}

/// One row of the multi-timeframe summary header.
#[derive(Debug, Clone, PartialEq, Eq)]
pub struct TfSummary {
    pub tf: String,
    pub regime: Option<Regime>,
    pub velocity: String,
}

} // verus!
