//! Watchlist CSV parsing. Header-based and lenient: malformed rows
//! are collected as `RowError` and the scan continues. Bytes are decoded as
//! UTF-8 (with or without BOM) or, failing that, as Shift_JIS.

use vstd::prelude::*;

use crate::models::{infer_spec, parse_asset_spec, AssetClass, RowError};
use crate::text::{
    chars_of, decimal_chars, decimal_spec, eq_ignore_ascii_case, eq_ignore_ascii_case_spec,
    push_chars, string_of, trim_spec, trim_str,
};
use crate::universe::{
    dedupe, dedupe_spec, entries_view, first_indices, law_dedupe_is_subsequence, normalize_symbol,
    normalize_symbol_spec, seen_before, EntryView, UniverseEntry,
};
use vstd::utf8::{decode_utf8, valid_utf8};

verus! {

broadcast use vstd::string::group_string_axioms;

// ------------------------------------------------------------------ decoding

/// A name for what `String::from_utf8_lossy` returns: the bytes decoded as
/// UTF-8 with each invalid sequence replaced by U+FFFD.
pub uninterp spec fn lossy_utf8(bytes: Seq<u8>) -> Seq<char>;

/// A name for what `encoding_rs::SHIFT_JIS.decode` returns (its text part):
/// the bytes read as Shift_JIS, with BOM sniffing and U+FFFD replacement as
/// that crate defines them.
pub uninterp spec fn shift_jis_text(bytes: Seq<u8>) -> Seq<char>;

/// Calls `std::str::from_utf8`. Its documentation: the call succeeds exactly
/// when the bytes are valid UTF-8, and then yields the decoded text.
#[verifier::external_body]
fn utf8_str(bytes: &[u8]) -> (r: Option<String>)
    ensures
        r is Some <==> valid_utf8(bytes@),
        r matches Some(s) ==> s@ == decode_utf8(bytes@),
{
    std::str::from_utf8(bytes).ok().map(|s| s.to_owned())
}

/// Calls `String::from_utf8_lossy`; the result is named by [`lossy_utf8`].
/// Its documentation: valid UTF-8 comes back unchanged, which is stated; the
/// replacement of invalid sequences is left unsaid.
#[verifier::external_body]
fn utf8_lossy(bytes: &[u8]) -> (s: String)
    ensures
        s@ == lossy_utf8(bytes@),
        valid_utf8(bytes@) ==> s@ == decode_utf8(bytes@),
{
    String::from_utf8_lossy(bytes).into_owned()
}

/// Calls `encoding_rs::SHIFT_JIS.decode` and keeps the decoded text; the
/// result is named by [`shift_jis_text`] (the Shift_JIS tables are not
/// restated here).
#[verifier::external_body]
fn shift_jis_decode(bytes: &[u8]) -> (s: String)
    ensures
        s@ == shift_jis_text(bytes@),
{
    encoding_rs::SHIFT_JIS.decode(bytes).0.into_owned()
}

/// Whether the bytes open with the UTF-8 byte-order mark.
pub open spec fn has_utf8_bom(b: Seq<u8>) -> bool {
    b.len() >= 3 && b[0] == 0xEF && b[1] == 0xBB && b[2] == 0xBF
}

/// Text of a watchlist file: UTF-8 BOM → lossy UTF-8 of the rest; valid
/// UTF-8 → as is; otherwise Shift_JIS (Excel on Japanese Windows).
pub open spec fn decode_spec(b: Seq<u8>) -> Seq<char> {
    if has_utf8_bom(b) {
        lossy_utf8(b.subrange(3, b.len() as int))
    } else if valid_utf8(b) {
        decode_utf8(b)
    } else {
        shift_jis_text(b)
    }
}

/// Decode raw CSV bytes to a `String`, tolerating non-UTF-8 watchlists. Order:
/// UTF-8 BOM → valid UTF-8 → Shift_JIS/CP932.
pub fn decode_bytes(bytes: &[u8]) -> (s: String)
    ensures
        s@ == decode_spec(bytes@),
{
    if bytes.len() >= 3 && bytes[0] == 0xEF && bytes[1] == 0xBB && bytes[2] == 0xBF {
        let rest = &bytes[3..bytes.len()];
        return utf8_lossy(rest);
    }
    match utf8_str(bytes) {
        Some(s) => s,
        None => shift_jis_decode(bytes),
    }
}

// ------------------------------------------------------------------ records

/// The header and records of a CSV text as the `csv` crate reads them: each
/// is the list of its (trimmed) fields, or the reader's error message.
pub struct CsvTable {
    pub header: Result<Vec<String>, String>,
    pub rows: Vec<Result<Vec<String>, String>>,
}

pub type RecordView = Result<Seq<Seq<char>>, Seq<char>>;

pub type TableView = (RecordView, Seq<RecordView>);

pub open spec fn strings_view(v: Seq<String>) -> Seq<Seq<char>> {
    v.map_values(|s: String| s@)
}

pub open spec fn record_view(r: Result<Vec<String>, String>) -> RecordView {
    match r {
        Ok(v) => Ok(strings_view(v@)),
        Err(e) => Err(e@),
    }
}

impl View for CsvTable {
    type V = TableView;

    open spec fn view(&self) -> TableView {
        (record_view(self.header), self.rows@.map_values(|r: Result<Vec<String>, String>| record_view(r)))
    }
}

/// A name for what the `csv` crate reads from a text with headers, flexible
/// record lengths and all fields trimmed: the header record and the data
/// records, each as fields or an error message.
pub uninterp spec fn csv_read(content: Seq<char>) -> TableView;

/// Runs `csv::ReaderBuilder` (headers on, flexible, `Trim::All`) over the
/// text and converts the header and every record to plain strings; the result
/// is named by [`csv_read`].
#[verifier::external_body]
pub(crate) fn read_csv(content: &str) -> (t: CsvTable)
    ensures
        t@ == csv_read(content@),
{
    let mut rdr = ::csv::ReaderBuilder::new().has_headers(true).flexible(true).trim(
        ::csv::Trim::All,
    ).from_reader(content.as_bytes());
    let header = rdr.headers().map(|h| h.iter().map(String::from).collect()).map_err(
        |e| e.to_string(),
    );
    let rows = rdr.records().map(
        |r| r.map(|rec| rec.iter().map(String::from).collect()).map_err(|e| e.to_string()),
    ).collect();
    CsvTable { header, rows }
}

// ------------------------------------------------------------------ columns

/// Header aliases of the symbol/code column, in priority order.
pub open spec fn symbol_aliases_spec() -> Seq<Seq<char>> {
    seq![
        "symbol"@,
        "code"@,
        "ticker"@,
        "コード"@,
        "ティッカー"@,
        "銘柄"@,
        "銘柄コード"@,
        "証券コード"@,
    ]
}

/// Header aliases of the name column.
pub open spec fn name_aliases_spec() -> Seq<Seq<char>> {
    seq!["name"@, "名称"@, "名前"@, "銘柄名"@, "会社名"@, "社名"@]
}

/// Header aliases of the asset-class column.
pub open spec fn asset_aliases_spec() -> Seq<Seq<char>> {
    seq!["asset_class"@, "asset"@, "種別"@, "資産クラス"@]
}

/// Header aliases of the weight column.
pub open spec fn weight_aliases_spec() -> Seq<Seq<char>> {
    seq!["weight"@, "ウェイト"@, "比率"@, "重み"@]
}

fn symbol_aliases() -> (v: Vec<&'static str>)
    ensures
        v@.map_values(|s: &str| s@) == symbol_aliases_spec(),
{
    let v = vec!["symbol", "code", "ticker", "コード", "ティッカー", "銘柄", "銘柄コード", "証券コード"];
    proof {
        assert(v@.map_values(|s: &str| s@) =~= symbol_aliases_spec());
    }
    v
}

fn name_aliases() -> (v: Vec<&'static str>)
    ensures
        v@.map_values(|s: &str| s@) == name_aliases_spec(),
{
    let v = vec!["name", "名称", "名前", "銘柄名", "会社名", "社名"];
    proof {
        assert(v@.map_values(|s: &str| s@) =~= name_aliases_spec());
    }
    v
}

fn asset_aliases() -> (v: Vec<&'static str>)
    ensures
        v@.map_values(|s: &str| s@) == asset_aliases_spec(),
{
    let v = vec!["asset_class", "asset", "種別", "資産クラス"];
    proof {
        assert(v@.map_values(|s: &str| s@) =~= asset_aliases_spec());
    }
    v
}

fn weight_aliases() -> (v: Vec<&'static str>)
    ensures
        v@.map_values(|s: &str| s@) == weight_aliases_spec(),
{
    let v = vec!["weight", "ウェイト", "比率", "重み"];
    proof {
        assert(v@.map_values(|s: &str| s@) =~= weight_aliases_spec());
    }
    v
}

/// Position of the first header equal to `name` ignoring ASCII case, looking
/// from position `i` on.
pub open spec fn col_from(h: Seq<Seq<char>>, name: Seq<char>, i: int) -> Option<int>
    decreases h.len() - i,
{
    if 0 <= i < h.len() {
        if eq_ignore_ascii_case_spec(h[i], name) {
            Some(i)
        } else {
            col_from(h, name, i + 1)
        }
    } else {
        None
    }
}

/// The column of the first alias (in alias order) that some header matches.
pub open spec fn find_alias(h: Seq<Seq<char>>, aliases: Seq<Seq<char>>) -> Option<int>
    decreases aliases.len(),
{
    if aliases.len() == 0 {
        None
    } else {
        match col_from(h, aliases[0], 0) {
            Some(i) => Some(i),
            None => find_alias(h, aliases.drop_first()),
        }
    }
}

/// Column positions: symbol (first column when no alias matches), name,
/// asset class, weight.
pub struct Columns {
    pub sym: usize,
    pub name: Option<usize>,
    pub asset: Option<usize>,
    pub weight: Option<usize>,
}

pub type ColumnsView = (int, Option<int>, Option<int>, Option<int>);

pub open spec fn opt_int(o: Option<usize>) -> Option<int> {
    match o {
        Some(i) => Some(i as int),
        None => None,
    }
}

impl View for Columns {
    type V = ColumnsView;

    open spec fn view(&self) -> ColumnsView {
        (self.sym as int, opt_int(self.name), opt_int(self.asset), opt_int(self.weight))
    }
}

pub open spec fn columns_spec(h: Seq<Seq<char>>) -> ColumnsView {
    (
        match find_alias(h, symbol_aliases_spec()) {
            Some(i) => i,
            None => 0,
        },
        find_alias(h, name_aliases_spec()),
        find_alias(h, asset_aliases_spec()),
        find_alias(h, weight_aliases_spec()),
    )
}

proof fn lemma_col_from_bound(h: Seq<Seq<char>>, name: Seq<char>, i: int)
    ensures
        col_from(h, name, i) matches Some(k) ==> 0 <= k < h.len(),
    decreases h.len() - i,
{
    if 0 <= i < h.len() {
        lemma_col_from_bound(h, name, i + 1);
    }
}

proof fn lemma_find_alias_bound(h: Seq<Seq<char>>, aliases: Seq<Seq<char>>)
    ensures
        find_alias(h, aliases) matches Some(k) ==> 0 <= k < h.len(),
    decreases aliases.len(),
{
    if aliases.len() > 0 {
        lemma_col_from_bound(h, aliases[0], 0);
        lemma_find_alias_bound(h, aliases.drop_first());
    }
}

proof fn lemma_col_from_props(h: Seq<Seq<char>>, name: Seq<char>, i: int)
    requires
        0 <= i,
    ensures
        col_from(h, name, i) matches Some(k) ==> i <= k < h.len() && eq_ignore_ascii_case_spec(
            h[k],
            name,
        ) && forall|j: int| i <= j < k ==> !eq_ignore_ascii_case_spec(#[trigger] h[j], name),
        col_from(h, name, i) is None ==> forall|j: int|
            i <= j < h.len() ==> !eq_ignore_ascii_case_spec(#[trigger] h[j], name),
    decreases h.len() - i,
{
    if i < h.len() {
        lemma_col_from_props(h, name, i + 1);
    }
}

proof fn lemma_find_alias_props(h: Seq<Seq<char>>, al: Seq<Seq<char>>)
    ensures
        find_alias(h, al) matches Some(k) ==> 0 <= k < h.len() && exists|a: int|
            0 <= a < al.len() && #[trigger] eq_ignore_ascii_case_spec(h[k], al[a]) && (forall|j: int|
                0 <= j < k ==> !#[trigger] eq_ignore_ascii_case_spec(h[j], al[a])) && (forall|
                b: int,
                j: int,
            | 0 <= b < a && 0 <= j < h.len() ==> !#[trigger] eq_ignore_ascii_case_spec(h[j], al[b])),
        find_alias(h, al) is None ==> forall|a: int, j: int|
            0 <= a < al.len() && 0 <= j < h.len() ==> !#[trigger] eq_ignore_ascii_case_spec(h[j], al[a]),
    decreases al.len(),
{
    if al.len() > 0 {
        let rest = al.drop_first();
        lemma_col_from_props(h, al[0], 0);
        lemma_find_alias_props(h, rest);
        match col_from(h, al[0], 0) {
            Some(k) => {
                assert(eq_ignore_ascii_case_spec(h[k], al[0]));
            },
            None => {
                match find_alias(h, rest) {
                    Some(k) => {
                        let a = choose|a: int|
                            0 <= a < rest.len() && #[trigger] eq_ignore_ascii_case_spec(h[k], rest[a])
                                && (forall|j: int|
                                0 <= j < k ==> !#[trigger] eq_ignore_ascii_case_spec(h[j], rest[a]))
                                && (forall|b: int, j: int|
                                0 <= b < a && 0 <= j < h.len() ==> !#[trigger] eq_ignore_ascii_case_spec(
                                    h[j],
                                    rest[b],
                                ));
                        assert(al[a + 1] == rest[a]);
                        assert forall|b: int, j: int|
                            0 <= b < a + 1 && 0 <= j < h.len() implies !#[trigger] eq_ignore_ascii_case_spec(
                            h[j],
                            al[b],
                        ) by {
                            if b > 0 {
                                assert(al[b] == rest[b - 1]);
                            }
                        }
                        assert(eq_ignore_ascii_case_spec(h[k], al[a + 1]));
                    },
                    None => {
                        assert forall|a: int, j: int|
                            0 <= a < al.len() && 0 <= j < h.len() implies !#[trigger] eq_ignore_ascii_case_spec(
                            h[j],
                            al[a],
                        ) by {
                            if a > 0 {
                                assert(al[a] == rest[a - 1]);
                            }
                        }
                    },
                }
            },
        }
    }
}

/// Law: the symbol column is chosen by the documented header aliases
/// (`symbol`, `code`, `ticker`, `コード`, `ティッカー`, `銘柄`, `銘柄コード`,
/// `証券コード`, compared ignoring ASCII case). When some header matches one,
/// the symbol column is the first header matching the earliest-listed alias
/// that any header matches; only when no header matches any alias is the
/// first column used.
pub proof fn law_symbol_column_by_alias(h: Seq<Seq<char>>)
    ensures
        ({
            let al = seq![
                "symbol"@,
                "code"@,
                "ticker"@,
                "コード"@,
                "ティッカー"@,
                "銘柄"@,
                "銘柄コード"@,
                "証券コード"@,
            ];
            let col = columns_spec(h).0;
            &&& (exists|j: int, a: int|
                0 <= j < h.len() && 0 <= a < al.len() && #[trigger] eq_ignore_ascii_case_spec(
                    h[j],
                    al[a],
                )) ==> 0 <= col < h.len() && exists|a: int|
                0 <= a < al.len() && #[trigger] eq_ignore_ascii_case_spec(h[col], al[a]) && (forall|
                    j: int,
                | 0 <= j < col ==> !#[trigger] eq_ignore_ascii_case_spec(h[j], al[a])) && (forall|
                    b: int,
                    j: int,
                | 0 <= b < a && 0 <= j < h.len() ==> !#[trigger] eq_ignore_ascii_case_spec(h[j], al[b]))
            &&& !(exists|j: int, a: int|
                0 <= j < h.len() && 0 <= a < al.len() && #[trigger] eq_ignore_ascii_case_spec(
                    h[j],
                    al[a],
                )) ==> col == 0
        }),
{
    let al = seq![
        "symbol"@,
        "code"@,
        "ticker"@,
        "コード"@,
        "ティッカー"@,
        "銘柄"@,
        "銘柄コード"@,
        "証券コード"@,
    ];
    assert(symbol_aliases_spec() =~= al);
    lemma_find_alias_props(h, al);
    if exists|j: int, a: int|
        0 <= j < h.len() && 0 <= a < al.len() && #[trigger] eq_ignore_ascii_case_spec(h[j], al[a]) {
        let (j, a) = choose|j: int, a: int|
            0 <= j < h.len() && 0 <= a < al.len() && #[trigger] eq_ignore_ascii_case_spec(h[j], al[a]);
        assert(find_alias(h, al) is Some);
        let k = find_alias(h, al)->0;
        assert(columns_spec(h).0 == k);
    } else {
        if find_alias(h, al) is Some {
            let k = find_alias(h, al)->0;
            let a = choose|a: int|
                0 <= a < al.len() && #[trigger] eq_ignore_ascii_case_spec(h[k], al[a]) && (forall|j: int|
                    0 <= j < k ==> !#[trigger] eq_ignore_ascii_case_spec(h[j], al[a])) && (forall|
                    b: int,
                    j: int,
                | 0 <= b < a && 0 <= j < h.len() ==> !#[trigger] eq_ignore_ascii_case_spec(h[j], al[b]));
            assert(eq_ignore_ascii_case_spec(h[k], al[a]));
        }
    }
}

/// Law: an asset-class cell that reads as a known label decides the entry's
/// asset class; the class is inferred from the symbol only when the row has
/// no such cell or the cell is not a known label.
pub proof fn law_asset_label_wins(rec: Seq<Seq<char>>, n: nat, c: ColumnsView)
    ensures
        ({
            let labelled = c.2 matches Some(i) && 0 <= i < rec.len() && parse_asset_spec(rec[i]) is Some;
            &&& row_outcome(Ok(rec), n, c) matches Ok(e) ==> (labelled ==> e.2 == parse_asset_spec(
                rec[c.2->0],
            )->0)
            &&& row_outcome(Ok(rec), n, c) matches Ok(e) ==> (!labelled ==> e.2 == infer_spec(e.0))
        }),
{
}

/// Position of the first header matching `name` (ASCII case-insensitive).
fn column_of(h: &Vec<Vec<char>>, name: &str) -> (r: Option<usize>)
    ensures
        opt_int(r) == col_from(h@.map_values(|v: Vec<char>| v@), name@, 0),
{
    let ghost hv = h@.map_values(|v: Vec<char>| v@);
    let n = chars_of(name);
    let mut i: usize = 0;
    while i < h.len()
        invariant
            i <= h.len(),
            hv == h@.map_values(|v: Vec<char>| v@),
            n@ == name@,
            col_from(hv, name@, 0) == col_from(hv, name@, i as int),
        decreases h.len() - i,
    {
        if eq_ignore_ascii_case(&h[i], &n) {
            proof {
                assert(hv[i as int] == h@[i as int]@);
            }
            return Some(i);
        }
        proof {
            assert(hv[i as int] == h@[i as int]@);
        }
        i = i + 1;
    }
    None
}

/// The column of the first alias that some header matches.
fn find_column(h: &Vec<Vec<char>>, aliases: &Vec<&'static str>) -> (r: Option<usize>)
    ensures
        opt_int(r) == find_alias(
            h@.map_values(|v: Vec<char>| v@),
            aliases@.map_values(|s: &str| s@),
        ),
{
    let ghost hv = h@.map_values(|v: Vec<char>| v@);
    let ghost av = aliases@.map_values(|s: &str| s@);
    let mut k: usize = 0;
    proof {
        assert(av.subrange(0, av.len() as int) =~= av);
    }
    while k < aliases.len()
        invariant
            k <= aliases.len(),
            hv == h@.map_values(|v: Vec<char>| v@),
            av == aliases@.map_values(|s: &str| s@),
            find_alias(hv, av) == find_alias(hv, av.subrange(k as int, av.len() as int)),
        decreases aliases.len() - k,
    {
        let ghost rest = av.subrange(k as int, av.len() as int);
        proof {
            assert(rest[0] == aliases@[k as int]@);
            assert(rest.drop_first() =~= av.subrange(k + 1, av.len() as int));
        }
        let c = column_of(h, aliases[k]);
        if c.is_some() {
            return c;
        }
        k = k + 1;
    }
    proof {
        assert(av.subrange(k as int, av.len() as int) =~= Seq::<Seq<char>>::empty());
    }
    None
}

/// Locate the symbol / name / asset / weight columns from the header.
pub fn find_columns(h: &Vec<Vec<char>>) -> (c: Columns)
    ensures
        c@ == columns_spec(h@.map_values(|v: Vec<char>| v@)),
{
    let sa = symbol_aliases();
    let na = name_aliases();
    let aa = asset_aliases();
    let wa = weight_aliases();
    let sym = match find_column(h, &sa) {
        Some(i) => i,
        None => 0,
    };
    let name = find_column(h, &na);
    let asset = find_column(h, &aa);
    let weight = find_column(h, &wa);
    Columns { sym, name, asset, weight }
}

// ------------------------------------------------------------------ rows

/// Field `i` of a record, if the record has one.
pub open spec fn cell(rec: Seq<Seq<char>>, i: int) -> Option<Seq<char>> {
    if 0 <= i < rec.len() {
        Some(rec[i])
    } else {
        None
    }
}

pub open spec fn opt_cell(rec: Seq<Seq<char>>, i: Option<int>) -> Option<Seq<char>> {
    match i {
        Some(i) => cell(rec, i),
        None => None,
    }
}

/// Row label of the `n`-th data record (the header is line 1).
pub open spec fn line_label(n: nat) -> Seq<char> {
    "line "@ + decimal_spec(n + 2)
}

/// What one data record yields: a universe entry, or a row error
/// (symbol label, reason).
pub open spec fn row_outcome(rec: RecordView, n: nat, c: ColumnsView) -> Result<
    EntryView,
    (Seq<char>, Seq<char>),
> {
    match rec {
        Err(e) => Err((line_label(n), e)),
        Ok(r) => {
            let raw = trim_spec(
                match cell(r, c.0) {
                    Some(x) => x,
                    None => Seq::<char>::empty(),
                },
            );
            if raw.len() == 0 {
                Err((line_label(n), "empty symbol"@))
            } else {
                let symbol = normalize_symbol_spec(raw);
                let name = match opt_cell(r, c.1) {
                    Some(x) => if trim_spec(x).len() > 0 {
                        Some(trim_spec(x))
                    } else {
                        None
                    },
                    None => None,
                };
                let asset = match opt_cell(r, c.2) {
                    Some(x) => match parse_asset_spec(x) {
                        Some(a) => a,
                        None => infer_spec(symbol),
                    },
                    None => infer_spec(symbol),
                };
                let weight = match opt_cell(r, c.3) {
                    Some(x) => Some(trim_spec(x)),
                    None => None,
                };
                Ok((symbol, name, asset, weight))
            }
        },
    }
}

/// Entries from the records, in record order (before deduplication).
pub open spec fn table_entries(rows: Seq<RecordView>, c: ColumnsView) -> Seq<EntryView>
    decreases rows.len(),
{
    if rows.len() == 0 {
        seq![]
    } else {
        let p = table_entries(rows.drop_last(), c);
        match row_outcome(rows.last(), (rows.len() - 1) as nat, c) {
            Ok(e) => p.push(e),
            Err(_) => p,
        }
    }
}

/// Row errors from the records, in record order.
pub open spec fn table_errors(rows: Seq<RecordView>, c: ColumnsView) -> Seq<(Seq<char>, Seq<char>)>
    decreases rows.len(),
{
    if rows.len() == 0 {
        seq![]
    } else {
        let p = table_errors(rows.drop_last(), c);
        match row_outcome(rows.last(), (rows.len() - 1) as nat, c) {
            Ok(_) => p,
            Err(e) => p.push(e),
        }
    }
}

/// What a read CSV table yields: deduplicated entries plus row errors. An
/// unreadable header yields a single error and no entries.
pub open spec fn parse_table_spec(t: TableView) -> (Seq<EntryView>, Seq<(Seq<char>, Seq<char>)>) {
    match t.0 {
        Err(e) => (seq![], seq![("*"@, "invalid header: "@ + e)]),
        Ok(h) => {
            let c = columns_spec(h);
            (dedupe_spec(table_entries(t.1, c)), table_errors(t.1, c))
        },
    }
}

pub open spec fn errors_view(v: Seq<RowError>) -> Seq<(Seq<char>, Seq<char>)> {
    v.map_values(|e: RowError| e@)
}

/// Label of the `n`-th data record.
fn line_text(n: usize) -> (s: String)
    ensures
        s@ == line_label(n as nat),
{
    let mut v = chars_of("line ");
    let d = decimal_chars((n as u128) + 2);
    push_chars(&mut v, &d);
    string_of(&v)
}

fn get_cell(rec: &Vec<String>, i: usize) -> (r: Option<&String>)
    ensures
        match r {
            Some(s) => cell(strings_view(rec@), i as int) == Some(s@),
            None => cell(strings_view(rec@), i as int) is None,
        },
{
    if i < rec.len() {
        Some(&rec[i])
    } else {
        None
    }
}

fn get_opt_cell(rec: &Vec<String>, i: Option<usize>) -> (r: Option<&String>)
    ensures
        match r {
            Some(s) => opt_cell(strings_view(rec@), opt_int(i)) == Some(s@),
            None => opt_cell(strings_view(rec@), opt_int(i)) is None,
        },
{
    match i {
        Some(i) => get_cell(rec, i),
        None => None,
    }
}

pub open spec fn outcome_view(r: Result<UniverseEntry, RowError>) -> Result<
    EntryView,
    (Seq<char>, Seq<char>),
> {
    match r {
        Ok(e) => Ok(e@),
        Err(e) => Err(e@),
    }
}

/// The entry or row error of one record.
pub fn row_entry(rec: &Result<Vec<String>, String>, n: usize, c: &Columns) -> (r: Result<
    UniverseEntry,
    RowError,
>)
    ensures
        outcome_view(r) == row_outcome(record_view(*rec), n as nat, c@),
{
    match rec {
        Err(e) => Err(RowError { symbol: line_text(n), reason: e.clone() }),
        Ok(fields) => {
            let raw = match get_cell(fields, c.sym) {
                Some(x) => trim_str(x.as_str()),
                None => trim_str(""),
            };
            proof {
                assert(""@ =~= Seq::<char>::empty()) by {
                    reveal_strlit("");
                }
            }
            if raw.as_str().is_empty() {
                return Err(RowError { symbol: line_text(n), reason: "empty symbol".to_string() });
            }
            let symbol = normalize_symbol(raw.as_str());
            let name = match get_opt_cell(fields, c.name) {
                Some(x) => {
                    let t = trim_str(x.as_str());
                    if t.as_str().is_empty() {
                        None
                    } else {
                        Some(t)
                    }
                },
                None => None,
            };
            let asset_class = match get_opt_cell(fields, c.asset) {
                Some(x) => match AssetClass::parse(x.as_str()) {
                    Some(a) => a,
                    None => AssetClass::infer(symbol.as_str()),
                },
                None => AssetClass::infer(symbol.as_str()),
            };
            let weight = match get_opt_cell(fields, c.weight) {
                Some(x) => Some(trim_str(x.as_str())),
                None => None,
            };
            Ok(UniverseEntry { symbol, name, asset_class, weight })
        },
    }
}

/// Parse a read CSV table: deduplicated entries plus per-row errors.
pub fn parse_csv_table(t: &CsvTable) -> (r: (Vec<UniverseEntry>, Vec<RowError>))
    ensures
        entries_view(r.0@) == parse_table_spec(t@).0,
        errors_view(r.1@) == parse_table_spec(t@).1,
{
    let header = match &t.header {
        Ok(h) => h,
        Err(e) => {
            let mut v = chars_of("invalid header: ");
            let ec = chars_of(e.as_str());
            push_chars(&mut v, &ec);
            let err = RowError { symbol: "*".to_string(), reason: string_of(&v) };
            let mut errors: Vec<RowError> = Vec::new();
            errors.push(err);
            let entries: Vec<UniverseEntry> = Vec::new();
            proof {
                assert(entries_view(entries@) =~= Seq::<EntryView>::empty());
                assert(errors_view(errors@) =~= seq![("*"@, "invalid header: "@ + e@)]);
            }
            return (entries, errors);
        },
    };
    let mut hc: Vec<Vec<char>> = Vec::new();
    let mut k: usize = 0;
    while k < header.len()
        invariant
            k <= header.len(),
            hc@.map_values(|v: Vec<char>| v@) =~= strings_view(header@).subrange(0, k as int),
        decreases header.len() - k,
    {
        let c = chars_of(header[k].as_str());
        let ghost before = hc@.map_values(|v: Vec<char>| v@);
        hc.push(c);
        proof {
            assert(hc@.map_values(|v: Vec<char>| v@) =~= before.push(header@[k as int]@));
        }
        k = k + 1;
    }
    proof {
        assert(strings_view(header@).subrange(0, header.len() as int) =~= strings_view(header@));
    }
    let cols = find_columns(&hc);
    let ghost cv = cols@;
    let ghost rows = t@.1;
    let mut entries: Vec<UniverseEntry> = Vec::new();
    let mut errors: Vec<RowError> = Vec::new();
    let mut n: usize = 0;
    while n < t.rows.len()
        invariant
            n <= t.rows.len(),
            rows == t@.1,
            cv == cols@,
            cv == columns_spec(strings_view(header@)),
            entries_view(entries@) == table_entries(rows.subrange(0, n as int), cv),
            errors_view(errors@) == table_errors(rows.subrange(0, n as int), cv),
        decreases t.rows.len() - n,
    {
        let ghost pre = rows.subrange(0, n as int);
        let ghost nxt = rows.subrange(0, n + 1);
        proof {
            assert(nxt.drop_last() =~= pre);
            assert(nxt.last() == record_view(t.rows@[n as int]));
        }
        let out = row_entry(&t.rows[n], n, &cols);
        let ghost ev = entries_view(entries@);
        let ghost rv = errors_view(errors@);
        match out {
            Ok(e) => {
                entries.push(e);
                proof {
                    assert(entries_view(entries@) =~= ev.push(e@));
                }
            },
            Err(e) => {
                errors.push(e);
                proof {
                    assert(errors_view(errors@) =~= rv.push(e@));
                }
            },
        }
        n = n + 1;
    }
    proof {
        assert(rows.subrange(0, t.rows.len() as int) =~= rows);
    }
    (dedupe(entries), errors)
}

/// Parse a watchlist CSV from a string. Returns deduped entries plus per-row
/// errors. The only required column is the symbol; name / asset class /
/// weight are optional.
pub fn parse_csv_str(content: &str) -> (r: (Vec<UniverseEntry>, Vec<RowError>))
    ensures
        entries_view(r.0@) == parse_table_spec(csv_read(content@)).0,
        errors_view(r.1@) == parse_table_spec(csv_read(content@)).1,
{
    let t = read_csv(content);
    parse_csv_table(&t)
}

/// Parse a watchlist CSV from raw bytes (decodes UTF-8 / Shift_JIS — see
/// [`decode_bytes`]).
pub fn parse_csv_bytes(bytes: &[u8]) -> (r: (Vec<UniverseEntry>, Vec<RowError>))
    ensures
        entries_view(r.0@) == parse_table_spec(csv_read(decode_spec(bytes@))).0,
        errors_view(r.1@) == parse_table_spec(csv_read(decode_spec(bytes@))).1,
{
    let s = decode_bytes(bytes);
    parse_csv_str(s.as_str())
}

} // verus!

verus! {

/// Law: no record is lost or doubled — each data record yields exactly one
/// entry candidate or exactly one row error, and the scan goes on past it.
pub proof fn law_every_record_accounted(rows: Seq<RecordView>, c: ColumnsView)
    ensures
        table_entries(rows, c).len() + table_errors(rows, c).len() == rows.len(),
    decreases rows.len(),
{
    if rows.len() > 0 {
        law_every_record_accounted(rows.drop_last(), c);
    }
}

/// Record positions of the entries in `table_entries(rows, c)`: the records
/// whose outcome is an entry, in record order.
pub open spec fn entry_rows(rows: Seq<RecordView>, c: ColumnsView) -> Seq<int>
    decreases rows.len(),
{
    if rows.len() == 0 {
        seq![]
    } else {
        let p = entry_rows(rows.drop_last(), c);
        match row_outcome(rows.last(), (rows.len() - 1) as nat, c) {
            Ok(_) => p.push(rows.len() - 1),
            Err(_) => p,
        }
    }
}

/// The `k`-th entry candidate is the outcome of record `entry_rows[k]`;
/// those positions increase and every record with an entry is among them.
proof fn lemma_entry_rows(rows: Seq<RecordView>, c: ColumnsView)
    ensures
        entry_rows(rows, c).len() == table_entries(rows, c).len(),
        forall|k: int|
            0 <= k < entry_rows(rows, c).len() ==> 0 <= #[trigger] entry_rows(rows, c)[k] < rows.len()
                && row_outcome(rows[entry_rows(rows, c)[k]], entry_rows(rows, c)[k] as nat, c)
                == Ok::<EntryView, (Seq<char>, Seq<char>)>(table_entries(rows, c)[k]),
        forall|a: int, b: int|
            0 <= a < b < entry_rows(rows, c).len() ==> #[trigger] entry_rows(rows, c)[a]
                < #[trigger] entry_rows(rows, c)[b],
        forall|r: int|
            0 <= r < rows.len() && (#[trigger] row_outcome(rows[r], r as nat, c)) is Ok ==> exists|k: int|
                0 <= k < entry_rows(rows, c).len() && entry_rows(rows, c)[k] == r,
    decreases rows.len(),
{
    if rows.len() > 0 {
        let p = rows.drop_last();
        lemma_entry_rows(p, c);
        let f = entry_rows(rows, c);
        let fp = entry_rows(p, c);
        let e = table_entries(rows, c);
        let ep = table_entries(p, c);
        assert forall|k: int| 0 <= k < f.len() implies 0 <= #[trigger] f[k] < rows.len()
            && row_outcome(rows[f[k]], f[k] as nat, c) == Ok::<EntryView, (Seq<char>, Seq<char>)>(
            e[k],
        ) by {
            if k < fp.len() {
                assert(f[k] == fp[k]);
                assert(e[k] == ep[k]);
                assert(rows[fp[k]] == p[fp[k]]);
            }
        }
        assert forall|a: int, b: int| 0 <= a < b < f.len() implies #[trigger] f[a] < #[trigger] f[b] by {
            assert(f[a] == fp[a]);
            if b < fp.len() {
                assert(f[b] == fp[b]);
            }
        }
        assert forall|r: int|
            0 <= r < rows.len() && (#[trigger] row_outcome(rows[r], r as nat, c)) is Ok implies exists|k: int|
            0 <= k < f.len() && f[k] == r by {
            if r < rows.len() - 1 {
                assert(rows[r] == p[r]);
                assert(row_outcome(p[r], r as nat, c) is Ok);
                let k = choose|k: int| 0 <= k < fp.len() && fp[k] == r;
                assert(f[k] == fp[k]);
            } else {
                assert(f[fp.len() as int] == r);
            }
        }
    }
}

/// The record that the `k`-th parsed entry comes from.
pub open spec fn source_row(rows: Seq<RecordView>, c: ColumnsView, k: int) -> int {
    entry_rows(rows, c)[first_indices(table_entries(rows, c))[k]]
}

/// Law: each parsed entry is the outcome of one data record — its symbol is
/// that record's normalized code cell, and its name, asset class and weight
/// are that record's — and that record is the first one yielding the symbol
/// (a later duplicate row's data is dropped). Entries come in the order of
/// their source records.
pub proof fn law_parsed_entries_come_from_first_rows(h: Seq<Seq<char>>, rows: Seq<RecordView>)
    ensures
        ({
            let c = columns_spec(h);
            let out = parse_table_spec((Ok(h), rows)).0;
            &&& forall|k: int|
                0 <= k < out.len() ==> 0 <= #[trigger] source_row(rows, c, k) < rows.len()
                    && row_outcome(rows[source_row(rows, c, k)], source_row(rows, c, k) as nat, c)
                    == Ok::<EntryView, (Seq<char>, Seq<char>)>(out[k])
            &&& forall|k: int, r: int|
                0 <= k < out.len() && 0 <= r < #[trigger] source_row(rows, c, k) ==> !(
                #[trigger] row_outcome(rows[r], r as nat, c) matches Ok(e) && e.0 == out[k].0)
            &&& forall|a: int, b: int|
                0 <= a < b < out.len() ==> #[trigger] source_row(rows, c, a)
                    < #[trigger] source_row(rows, c, b)
        }),
{
    let c = columns_spec(h);
    let e = table_entries(rows, c);
    let out = dedupe_spec(e);
    let f = first_indices(e);
    let er = entry_rows(rows, c);
    lemma_entry_rows(rows, c);
    law_dedupe_is_subsequence(e);
    assert forall|k: int| 0 <= k < out.len() implies 0 <= #[trigger] source_row(rows, c, k) < rows.len()
        && row_outcome(rows[source_row(rows, c, k)], source_row(rows, c, k) as nat, c) == Ok::<
        EntryView,
        (Seq<char>, Seq<char>),
    >(out[k]) by {
        assert(0 <= f[k] < e.len());
    }
    assert forall|k: int, r: int| 0 <= k < out.len() && 0 <= r < #[trigger] source_row(rows, c, k) implies !(
    #[trigger] row_outcome(rows[r], r as nat, c) matches Ok(x) && x.0 == out[k].0) by {
        assert(0 <= f[k] < e.len());
        if let Ok(x) = row_outcome(rows[r], r as nat, c) {
            let j = choose|j: int| 0 <= j < er.len() && er[j] == r;
            if j >= f[k] {
                if j > f[k] {
                    assert(er[f[k]] < er[j]);
                }
            }
            assert(j < f[k]);
            assert(e[j] == x);
            if x.0 == out[k].0 {
                assert(seen_before(e, f[k]));
            }
        }
    }
    assert forall|a: int, b: int| 0 <= a < b < out.len() implies #[trigger] source_row(rows, c, a)
        < #[trigger] source_row(rows, c, b) by {
        assert(f[a] < f[b]);
        assert(0 <= f[b] < e.len());
    }
}

/// Law: the entries a watchlist yields carry pairwise distinct symbols.
pub proof fn law_parsed_symbols_distinct(t: TableView)
    ensures
        forall|a: int, b: int|
            0 <= a < b < parse_table_spec(t).0.len() ==> (#[trigger] parse_table_spec(t).0[a]).0
                != (#[trigger] parse_table_spec(t).0[b]).0,
{
    match t.0 {
        Ok(h) => crate::universe::law_dedupe_no_duplicates(table_entries(t.1, columns_spec(h))),
        Err(_) => {},
    }
}

} // verus!
