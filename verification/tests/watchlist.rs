use alpha_radar::models::AssetClass;
use alpha_radar::universe::UniverseEntry;
use alpha_radar::watchlist::{decode_bytes, parse_csv_bytes, parse_csv_str, parse_csv_table, CsvTable};

/// The numeric weight a caller reads from the weight text.
fn weight_of(e: &UniverseEntry) -> Option<f64> {
    e.weight.as_deref().and_then(|w| w.parse::<f64>().ok())
}

#[test]
fn parses_required_and_optional_columns() {
    let csv = "symbol,name,asset_class,weight\n\
               7974.T,任天堂,equity,1.0\n\
               aapl,,,\n\
               BTC-USD,Bitcoin,,2.5\n";
    let (entries, errors) = parse_csv_str(csv);
    assert!(errors.is_empty());
    assert_eq!(entries.len(), 3);
    assert_eq!(entries[0].symbol, "7974.T");
    assert_eq!(entries[0].name.as_deref(), Some("任天堂"));
    assert_eq!(weight_of(&entries[0]), Some(1.0));
    // lowercased ticker is upper-cased; asset_class inferred as equity.
    assert_eq!(entries[1].symbol, "AAPL");
    assert_eq!(entries[1].asset_class, AssetClass::Equity);
    // crypto inferred from the -USD suffix.
    assert_eq!(entries[2].asset_class, AssetClass::Crypto);
    assert_eq!(weight_of(&entries[2]), Some(2.5));
}

#[test]
fn empty_symbol_becomes_row_error_and_continues() {
    // Truly blank lines are skipped by the reader; an explicit empty symbol
    // field becomes a row error while the scan continues.
    let csv = "symbol,name\nAAPL,Apple\n,Ghost\nMSFT,Microsoft\n";
    let (entries, errors) = parse_csv_str(csv);
    assert_eq!(entries.len(), 2);
    assert_eq!(errors.len(), 1);
    assert_eq!(errors[0].reason, "empty symbol");
}

#[test]
fn japanese_code_header_and_first_column_fallback() {
    // "コード" maps to the symbol via alias; "名称" to name. Bare TSE code
    // gets the .T suffix.
    let csv = "コード,名称\n7974,任天堂\n7203,トヨタ自動車\n";
    let (entries, errors) = parse_csv_str(csv);
    assert!(errors.is_empty());
    assert_eq!(entries.len(), 2);
    assert_eq!(entries[0].symbol, "7974.T");
    assert_eq!(entries[0].name.as_deref(), Some("任天堂"));

    // An unrecognized first-column header still works (first column = code).
    let csv2 = "証券番号,会社名\nAAPL,Apple\n";
    let (entries2, errors2) = parse_csv_str(csv2);
    assert!(errors2.is_empty());
    assert_eq!(entries2[0].symbol, "AAPL");
    assert_eq!(entries2[0].name.as_deref(), Some("Apple"));
}

#[test]
fn decodes_shift_jis_watchlist() {
    // Excel on JP Windows saves Shift_JIS (CP932). Round-trip through the
    // encoder so the test has no hand-coded byte literals.
    let utf8 = "コード,名称\n7974,任天堂\n";
    let (sjis, _, had_errors) = encoding_rs::SHIFT_JIS.encode(utf8);
    assert!(!had_errors);
    assert_ne!(sjis.as_ref(), utf8.as_bytes()); // genuinely non-UTF-8 bytes
    let (entries, errors) = parse_csv_bytes(&sjis);
    assert!(errors.is_empty());
    assert_eq!(entries.len(), 1);
    assert_eq!(entries[0].symbol, "7974.T");
    assert_eq!(entries[0].name.as_deref(), Some("任天堂"));
}

#[test]
fn row_errors_carry_the_line_label_and_duplicates_collapse() {
    let csv = "Symbol,Weight,Asset\n,1\nmsft, 3 ,Stock\nMSFT,9,crypto\n";
    let (entries, errors) = parse_csv_str(csv);
    assert_eq!(errors.len(), 1);
    assert_eq!(errors[0].symbol, "line 2");
    assert_eq!(errors[0].reason, "empty symbol");
    // The second MSFT is a duplicate; the first keeps its metadata.
    assert_eq!(entries.len(), 1);
    assert_eq!(entries[0].symbol, "MSFT");
    assert_eq!(entries[0].weight.as_deref(), Some("3"));
    assert_eq!(entries[0].asset_class, AssetClass::Equity);
}

#[test]
fn unknown_asset_label_falls_back_to_inference_and_bad_weight_has_no_value() {
    let csv = "ticker,asset_class,weight\nETH-usd,bond,abc\n";
    let (entries, errors) = parse_csv_str(csv);
    assert!(errors.is_empty());
    assert_eq!(entries[0].symbol, "ETH-USD");
    assert_eq!(entries[0].asset_class, AssetClass::Crypto);
    assert_eq!(entries[0].weight.as_deref(), Some("abc"));
    assert_eq!(weight_of(&entries[0]), None);
}

#[test]
fn table_header_error_is_a_single_row_error() {
    let t = CsvTable { header: Err("bad bytes".into()), rows: vec![Ok(vec!["AAPL".into()])] };
    let (entries, errors) = parse_csv_table(&t);
    assert!(entries.is_empty());
    assert_eq!(errors.len(), 1);
    assert_eq!(errors[0].symbol, "*");
    assert_eq!(errors[0].reason, "invalid header: bad bytes");
}

#[test]
fn table_record_error_is_reported_with_its_line() {
    let t = CsvTable {
        header: Ok(vec!["code".into(), "名前".into()]),
        rows: vec![
            Ok(vec!["7974".into(), " 任天堂 ".into()]),
            Err("record error".into()),
            Ok(vec!["9984".into()]),
        ],
    };
    let (entries, errors) = parse_csv_table(&t);
    assert_eq!(entries.len(), 2);
    assert_eq!(entries[0].name.as_deref(), Some("任天堂"));
    assert_eq!(entries[1].symbol, "9984.T");
    assert_eq!(entries[1].name, None);
    assert_eq!(errors.len(), 1);
    assert_eq!(errors[0].symbol, "line 3");
    assert_eq!(errors[0].reason, "record error");
}

#[test]
fn decode_handles_bom_utf8_and_shift_jis() {
    let mut with_bom = vec![0xEF, 0xBB, 0xBF];
    with_bom.extend_from_slice("symbol\nAAPL\n".as_bytes());
    assert_eq!(decode_bytes(&with_bom), "symbol\nAAPL\n");
    assert_eq!(decode_bytes("銘柄".as_bytes()), "銘柄");
    let (sjis, _, _) = encoding_rs::SHIFT_JIS.encode("銘柄");
    assert_eq!(decode_bytes(&sjis), "銘柄");
    assert_eq!(decode_bytes(&[]), "");
}

#[test]
fn duplicate_rows_keep_first_row_data_in_first_occurrence_order() {
    let csv = "symbol,name,asset_class,weight\n\
               MSFT,Microsoft,,1\n\
               7974,任天堂,,2\n\
               msft,dup,crypto,9\n\
               7974.T,dup,,9\n\
               AAPL,Apple,,3\n";
    let (entries, errors) = parse_csv_str(csv);
    assert!(errors.is_empty());
    let syms: Vec<&str> = entries.iter().map(|e| e.symbol.as_str()).collect();
    assert_eq!(syms, ["MSFT", "7974.T", "AAPL"]);
    assert_eq!(entries[0].name.as_deref(), Some("Microsoft"));
    assert_eq!(entries[0].asset_class, AssetClass::Equity);
    assert_eq!(entries[0].weight.as_deref(), Some("1"));
    assert_eq!(entries[1].name.as_deref(), Some("任天堂"));
    assert_eq!(entries[1].weight.as_deref(), Some("2"));
}
