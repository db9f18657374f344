use alpha_radar::models::AssetClass;
use alpha_radar::universe::{dedupe, normalize_symbol, parse_symbols_str, UniverseEntry};

#[test]
fn normalize_bare_tse_codes() {
    assert_eq!(normalize_symbol("7974"), "7974.T"); // classic 4-digit code
    assert_eq!(normalize_symbol("7974.T"), "7974.T"); // already suffixed
    assert_eq!(normalize_symbol("130A"), "130A.T"); // post-2024 alphanumeric
    assert_eq!(normalize_symbol("aapl"), "AAPL"); // US ticker
    assert_eq!(normalize_symbol("MSFT"), "MSFT"); // 4 alpha — not a code
    assert_eq!(normalize_symbol("BTC-USD"), "BTC-USD"); // crypto pair
}

#[test]
fn parse_symbols_handles_mixed_separators_and_bare_codes() {
    // "7974" normalizes to "7974.T" and dedupes against an explicit "7974.T".
    let out = parse_symbols_str(" aapl, 7974, 7974.T, btc-usd, 130A, aapl ");
    let syms: Vec<&str> = out.iter().map(|e| e.symbol.as_str()).collect();
    assert_eq!(syms, ["AAPL", "7974.T", "BTC-USD", "130A.T"]);
    assert_eq!(out[1].asset_class, AssetClass::Equity);
    assert_eq!(out[2].asset_class, AssetClass::Crypto);
}

#[test]
fn dedupe_keeps_first() {
    let entries = vec![
        UniverseEntry {
            symbol: "AAPL".into(),
            name: Some("Apple".into()),
            asset_class: AssetClass::Equity,
            weight: None,
        },
        UniverseEntry {
            symbol: "AAPL".into(),
            name: Some("dup".into()),
            asset_class: AssetClass::Equity,
            weight: None,
        },
    ];
    let out = dedupe(entries);
    assert_eq!(out.len(), 1);
    assert_eq!(out[0].name.as_deref(), Some("Apple"));
}

#[test]
fn normalize_trims_and_keeps_non_codes() {
    // Unicode white space (ideographic space, tab) is trimmed before upper-casing.
    assert_eq!(normalize_symbol("\u{3000}7203\t"), "7203.T");
    // Three digits, or a non-alphanumeric fourth character, is not a bare code.
    assert_eq!(normalize_symbol("720"), "720");
    assert_eq!(normalize_symbol("720_"), "720_");
    assert_eq!(normalize_symbol("12345"), "12345");
    assert_eq!(normalize_symbol("a130"), "A130");
}

#[test]
fn parse_symbols_splits_on_newlines_and_drops_empty_tokens() {
    let out = parse_symbols_str("msft\n\n,, nvda\r\n7203");
    let syms: Vec<&str> = out.iter().map(|e| e.symbol.as_str()).collect();
    assert_eq!(syms, ["MSFT", "NVDA", "7203.T"]);
    assert!(out.iter().all(|e| e.name.is_none() && e.weight.is_none()));
    assert!(parse_symbols_str(" , \n ").is_empty());
}

#[test]
fn dedupe_law_holds_on_repeats() {
    let mk = |s: &str, n: &str| UniverseEntry {
        symbol: s.into(),
        name: Some(n.into()),
        asset_class: AssetClass::Equity,
        weight: None,
    };
    let out = dedupe(vec![mk("A", "1"), mk("B", "2"), mk("A", "3"), mk("C", "4"), mk("B", "5")]);
    let got: Vec<(&str, &str)> =
        out.iter().map(|e| (e.symbol.as_str(), e.name.as_deref().unwrap())).collect();
    assert_eq!(got, [("A", "1"), ("B", "2"), ("C", "4")]);
}

#[test]
fn normalization_is_idempotent_and_codes_match_suffixed() {
    for raw in [" 7974 ", "130a", "aapl", "btc-usd", "7974.t", "MSFT"] {
        let once = normalize_symbol(raw);
        assert_eq!(normalize_symbol(&once), once);
    }
    assert_eq!(normalize_symbol("130a"), normalize_symbol("130a.T"));
    assert_eq!(normalize_symbol("130a"), "130A.T");
    assert_eq!(normalize_symbol("7974"), normalize_symbol("7974.T"));
}

#[test]
fn dedupe_is_an_in_order_subsequence() {
    let e = |s: &str, n: &str| UniverseEntry {
        symbol: s.into(),
        name: Some(n.into()),
        asset_class: AssetClass::Equity,
        weight: None,
    };
    let out = dedupe(vec![e("B", "b1"), e("A", "a1"), e("B", "b2"), e("C", "c1"), e("A", "a2")]);
    let got: Vec<(&str, &str)> =
        out.iter().map(|x| (x.symbol.as_str(), x.name.as_deref().unwrap())).collect();
    assert_eq!(got, [("B", "b1"), ("A", "a1"), ("C", "c1")]);
}
