use alpha_radar::config::{
    default_chart_bars, default_marker_horizon_bars, default_qtrend_atr, default_qtrend_period,
    default_stflip_atr,
};
use alpha_radar::freshness::{plan_fetch, FetchDecision};
use alpha_radar::models::{AssetClass, Tf};
use alpha_radar::scan::{fetch_error_row, fetch_items, history_check, tf_from_interval};
use alpha_radar::sidecar::{is_sidecar_file_name, FetchErrorItem, FetchRequest, FetchRequestItem, SidecarClient};
use alpha_radar::universe::UniverseEntry;

#[test]
fn freshness_plans_full_skip_and_from() {
    assert_eq!(plan_fetch(None, Tf::Daily, 1_000_000), FetchDecision::Full);
    assert_eq!(plan_fetch(Some(186_500), Tf::Daily, 186_500 + 10), FetchDecision::Skip);
    assert_eq!(plan_fetch(Some(186_500), Tf::Daily, 186_500 + 5 * 86_400), FetchDecision::From(186_500));
    // A weekly bar is fresh for a week.
    assert_eq!(plan_fetch(Some(0), Tf::Weekly, 6 * 86_400), FetchDecision::Skip);
    assert_eq!(plan_fetch(Some(0), Tf::Monthly, 31 * 86_400), FetchDecision::From(0));
}

#[test]
fn timeframes_and_asset_classes() {
    assert_eq!(Tf::Daily.interval(), "1d");
    assert_eq!(Tf::Weekly.interval(), "1wk");
    assert_eq!(Tf::Monthly.interval(), "1mo");
    assert_eq!(Tf::Monthly.bar_seconds(), 30 * 86_400);
    for tf in Tf::ALL {
        assert_eq!(tf_from_interval(tf.interval()), Some(tf));
    }
    assert_eq!(tf_from_interval("1h"), None);
    assert_eq!(AssetClass::infer("btc-usdt"), AssetClass::Crypto);
    assert_eq!(AssetClass::infer("7974.T"), AssetClass::Equity);
    assert_eq!(AssetClass::parse("  EQUITIES "), Some(AssetClass::Equity));
    assert_eq!(AssetClass::parse("CryptoCurrency"), Some(AssetClass::Crypto));
    assert_eq!(AssetClass::parse("bond"), None);
    assert_eq!(AssetClass::Crypto.as_str(), "crypto");
}

#[test]
fn scan_rows_and_request_items() {
    let e = |s: &str| UniverseEntry { symbol: s.into(), name: None, asset_class: AssetClass::Equity, weight: None };
    let universe = vec![e("AAPL"), e("7974.T")];
    let decisions = vec![
        FetchDecision::Full,
        FetchDecision::Skip,
        FetchDecision::From(100),
        FetchDecision::Skip,
        FetchDecision::Skip,
        FetchDecision::Full,
    ];
    let items = fetch_items(&universe, &decisions);
    let got: Vec<(&str, &str, Option<i64>)> =
        items.iter().map(|i| (i.symbol.as_str(), i.interval.as_str(), i.start)).collect();
    assert_eq!(got, [("AAPL", "1d", None), ("AAPL", "1mo", Some(100)), ("7974.T", "1mo", None)]);
    assert!(items.iter().all(|i| i.end.is_none()));

    let fe = FetchErrorItem { symbol: "XXXX.T".into(), interval: "1d".into(), reason: "no data / delisted".into() };
    let row = fetch_error_row(&fe);
    assert_eq!(row.symbol, "XXXX.T");
    assert_eq!(row.reason, "fetch 1d: no data / delisted");

    let short = history_check(&"TINY".to_string(), 10, 60).unwrap();
    assert_eq!(short.reason, "insufficient history: 10 < 60 bars");
    assert!(history_check(&"OK".to_string(), 60, 60).is_none());
}

#[test]
fn sidecar_client_choices() {
    let req = FetchRequest::json(vec![FetchRequestItem {
        symbol: "7974.T".into(),
        interval: "1d".into(),
        start: Some(1_719_100_800),
        end: None,
    }]);
    assert!(req.auto_adjust);
    assert_eq!(req.output, "json");
    assert_eq!(req.requests[0].start, Some(1_719_100_800));

    let dev = SidecarClient::resolve(None, "/repo".into());
    assert_eq!(dev.program(), "uv");
    assert_eq!(dev.args(), &["run", "--project", "sidecar", "python", "sidecar/fetch.py"]);
    assert_eq!(dev.cwd().as_deref(), Some("/repo"));
    let rel = SidecarClient::resolve(Some("/app/fetch.exe".into()), "/repo".into());
    assert_eq!(rel.program(), "/app/fetch.exe");
    assert!(rel.args().is_empty() && rel.cwd().is_none());
    let moved = SidecarClient::new("uv".into(), vec![]).with_cwd("/tmp".into());
    assert_eq!(moved.cwd().as_deref(), Some("/tmp"));

    assert!(is_sidecar_file_name("fetch"));
    assert!(is_sidecar_file_name("FETCH.EXE"));
    assert!(is_sidecar_file_name("fetch-x86_64-pc-windows-msvc.exe"));
    assert!(!is_sidecar_file_name("fetcher"));
    assert!(!is_sidecar_file_name("prefetch"));
}

#[test]
fn integer_defaults() {
    assert_eq!(default_qtrend_period(), 200);
    assert_eq!(default_qtrend_atr(), 14);
    assert_eq!(default_stflip_atr(), 10);
    assert_eq!(default_chart_bars(), 120);
    assert_eq!(default_marker_horizon_bars(), 10);
}
