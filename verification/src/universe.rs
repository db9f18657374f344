//! Symbol universe management. A `UniverseEntry` is one watchlist
//! row after normalization; duplicates are collapsed keeping the first
//! occurrence.

use vstd::prelude::*;

use crate::models::{infer_spec, AssetClass};
use crate::text::{
    chars_of, is_ascii_alphabetic, is_ascii_alphabetic_spec, is_ascii_digit, is_ascii_digit_spec,
    ascii_upper, ascii_upper_char, is_white_space, is_white_space_spec, lemma_trim_fixed,
    lemma_trim_shape, push_str, string_of, to_uppercase, trim_spec, trim_str, upper_spec,
};
use vstd::utf8::is_ascii_chars;

verus! {

broadcast use vstd::string::group_string_axioms;

/// A normalized watchlist entry. `weight` keeps the trimmed text of the
/// watchlist's weight cell; its numeric reading is left to the caller.
#[derive(Debug, Clone, PartialEq)]
pub struct UniverseEntry {
    pub symbol: String,
    pub name: Option<String>,
    pub asset_class: AssetClass,
    pub weight: Option<String>,
}

/// The abstract entry: symbol, name, asset class, weight text.
pub type EntryView = (Seq<char>, Option<Seq<char>>, AssetClass, Option<Seq<char>>);

pub open spec fn opt_view(o: Option<String>) -> Option<Seq<char>> {
    match o {
        Some(s) => Some(s@),
        None => None,
    }
}

impl View for UniverseEntry {
    type V = EntryView;

    open spec fn view(&self) -> EntryView {
        (self.symbol@, opt_view(self.name), self.asset_class, opt_view(self.weight))
    }
}

pub open spec fn entries_view(v: Seq<UniverseEntry>) -> Seq<EntryView> {
    v.map_values(|e: UniverseEntry| e@)
}

pub fn clone_opt_string(o: &Option<String>) -> (r: Option<String>)
    ensures
        opt_view(r) == opt_view(*o),
{
    match o {
        Some(s) => Some(s.clone()),
        None => None,
    }
}

impl UniverseEntry {
    /// A copy with the same symbol, name, asset class and weight.
    pub fn duplicate(&self) -> (r: UniverseEntry)
        ensures
            r@ == self@,
    {
        UniverseEntry {
            symbol: self.symbol.clone(),
            name: clone_opt_string(&self.name),
            asset_class: self.asset_class,
            weight: clone_opt_string(&self.weight),
        }
    }
}

/// Whether some entry before position `i` has the same symbol as entry `i`.
pub open spec fn seen_before(s: Seq<EntryView>, i: int) -> bool {
    exists|j: int| 0 <= j < i && (#[trigger] s[j]).0 == s[i].0
}

/// Entries with duplicate symbols collapsed, each symbol keeping its first
/// occurrence, in input order.
pub open spec fn dedupe_spec(s: Seq<EntryView>) -> Seq<EntryView>
    decreases s.len(),
{
    if s.len() == 0 {
        seq![]
    } else if seen_before(s, s.len() - 1) {
        dedupe_spec(s.drop_last())
    } else {
        dedupe_spec(s.drop_last()).push(s.last())
    }
}

/// A symbol occurs in the deduplicated list exactly when it occurs in the
/// input.
pub proof fn lemma_dedupe_symbols(s: Seq<EntryView>, sym: Seq<char>)
    ensures
        (exists|k: int| 0 <= k < dedupe_spec(s).len() && (#[trigger] dedupe_spec(s)[k]).0 == sym)
            <==> (exists|j: int| 0 <= j < s.len() && (#[trigger] s[j]).0 == sym),
    decreases s.len(),
{
    if s.len() > 0 {
        let p = s.drop_last();
        lemma_dedupe_symbols(p, sym);
        let d = dedupe_spec(s);
        let dp = dedupe_spec(p);
        if exists|j: int| 0 <= j < s.len() && (#[trigger] s[j]).0 == sym {
            let j = choose|j: int| 0 <= j < s.len() && (#[trigger] s[j]).0 == sym;
            if j < s.len() - 1 {
                assert(p[j].0 == sym);
                let k = choose|k: int| 0 <= k < dp.len() && (#[trigger] dp[k]).0 == sym;
                assert(d[k] == dp[k]);
            } else if seen_before(s, s.len() - 1) {
                let j2 = choose|j2: int| 0 <= j2 < s.len() - 1 && (#[trigger] s[j2]).0 == s[s.len()
                    - 1].0;
                assert(p[j2].0 == sym);
                let k = choose|k: int| 0 <= k < dp.len() && (#[trigger] dp[k]).0 == sym;
                assert(d[k] == dp[k]);
            } else {
                assert(d[d.len() - 1].0 == sym);
            }
        }
        if exists|k: int| 0 <= k < d.len() && (#[trigger] d[k]).0 == sym {
            let k = choose|k: int| 0 <= k < d.len() && (#[trigger] d[k]).0 == sym;
            if k < dp.len() {
                assert(dp[k] == d[k]);
                let j = choose|j: int| 0 <= j < p.len() && (#[trigger] p[j]).0 == sym;
                assert(s[j] == p[j]);
            } else {
                assert(s[s.len() - 1].0 == sym);
            }
        }
    }
}

/// Collapse duplicate symbols, keeping the first occurrence's metadata
///.
pub fn dedupe(entries: Vec<UniverseEntry>) -> (out: Vec<UniverseEntry>)
    ensures
        entries_view(out@) == dedupe_spec(entries_view(entries@)),
{
    let ghost ev = entries_view(entries@);
    let mut out: Vec<UniverseEntry> = Vec::new();
    let mut i: usize = 0;
    while i < entries.len()
        invariant
            i <= entries.len(),
            ev == entries_view(entries@),
            entries_view(out@) == dedupe_spec(ev.subrange(0, i as int)),
        decreases entries.len() - i,
    {
        let ghost pre = ev.subrange(0, i as int);
        let ghost nxt = ev.subrange(0, i + 1);
        proof {
            assert(nxt.drop_last() =~= pre);
            lemma_dedupe_symbols(pre, ev[i as int].0);
        }
        let mut found = false;
        let mut k: usize = 0;
        while k < out.len()
            invariant
                k <= out.len(),
                i < entries.len(),
                !found ==> forall|m: int| 0 <= m < k ==> (#[trigger] out@[m]).symbol@
                    != entries@[i as int].symbol@,
                found ==> exists|m: int| 0 <= m < out.len() && (#[trigger] out@[m]).symbol@
                    == entries@[i as int].symbol@,
            decreases out.len() - k,
        {
            if out[k].symbol == entries[i].symbol {
                found = true;
            }
            k = k + 1;
        }
        let ghost ov = entries_view(out@);
        proof {
            if found {
                let m = choose|m: int| 0 <= m < out.len() && (#[trigger] out@[m]).symbol@
                    == entries@[i as int].symbol@;
                assert(ov[m].0 == ev[i as int].0);
                let j = choose|j: int| 0 <= j < pre.len() && (#[trigger] pre[j]).0 == ev[i as int].0;
                assert(nxt[j] == pre[j]);
                assert(seen_before(nxt, i as int));
            } else {
                if seen_before(nxt, i as int) {
                    let j = choose|j: int| 0 <= j < i && (#[trigger] nxt[j]).0 == nxt[i as int].0;
                    assert(pre[j] == nxt[j]);
                    let m = choose|m: int| 0 <= m < ov.len() && (#[trigger] ov[m]).0 == ev[i as int].0;
                    assert(out@[m].symbol@ == ov[m].0);
                }
            }
            assert(nxt.last() == ev[i as int]);
        }
        if !found {
            let e = entries[i].duplicate();
            out.push(e);
            proof {
                assert(entries_view(out@) =~= ov.push(ev[i as int]));
            }
        }
        i = i + 1;
    }
    proof {
        assert(ev.subrange(0, entries.len() as int) =~= ev);
    }
    out
}

/// Law: after deduplication no symbol occurs twice.
pub proof fn law_dedupe_no_duplicates(s: Seq<EntryView>)
    ensures
        forall|a: int, b: int|
            0 <= a < b < dedupe_spec(s).len() ==> (#[trigger] dedupe_spec(s)[a]).0 != (
            #[trigger] dedupe_spec(s)[b]).0,
    decreases s.len(),
{
    if s.len() > 0 {
        let p = s.drop_last();
        law_dedupe_no_duplicates(p);
        let d = dedupe_spec(s);
        let dp = dedupe_spec(p);
        if !seen_before(s, s.len() - 1) {
            assert forall|a: int, b: int| 0 <= a < b < d.len() implies (#[trigger] d[a]).0 != (
            #[trigger] d[b]).0 by {
                if b == d.len() - 1 {
                    assert(d[a] == dp[a]);
                    if dp[a].0 == s.last().0 {
                        lemma_dedupe_symbols(p, s.last().0);
                        let j = choose|j: int| 0 <= j < p.len() && (#[trigger] p[j]).0 == s.last().0;
                        assert(s[j] == p[j]);
                    }
                } else {
                    assert(d[a] == dp[a]);
                    assert(d[b] == dp[b]);
                }
            }
        }
    }
}

/// Positions of the entries that `dedupe_spec` keeps: the first occurrence
/// of each symbol, in input order.
pub open spec fn first_indices(s: Seq<EntryView>) -> Seq<int>
    decreases s.len(),
{
    if s.len() == 0 {
        seq![]
    } else if seen_before(s, s.len() - 1) {
        first_indices(s.drop_last())
    } else {
        first_indices(s.drop_last()).push(s.len() - 1)
    }
}

/// Law: deduplication is an in-order subsequence of its input. The `k`-th
/// kept entry is the input entry at position `first_indices(s)[k]`, that
/// position is the first occurrence of its symbol, and positions increase.
pub proof fn law_dedupe_is_subsequence(s: Seq<EntryView>)
    ensures
        first_indices(s).len() == dedupe_spec(s).len(),
        forall|k: int|
            0 <= k < dedupe_spec(s).len() ==> 0 <= #[trigger] first_indices(s)[k] < s.len()
                && dedupe_spec(s)[k] == s[first_indices(s)[k]] && !seen_before(
                s,
                first_indices(s)[k],
            ),
        forall|a: int, b: int|
            0 <= a < b < first_indices(s).len() ==> #[trigger] first_indices(s)[a]
                < #[trigger] first_indices(s)[b],
    decreases s.len(),
{
    if s.len() > 0 {
        let p = s.drop_last();
        law_dedupe_is_subsequence(p);
        let f = first_indices(s);
        let fp = first_indices(p);
        let d = dedupe_spec(s);
        let dp = dedupe_spec(p);
        assert forall|k: int| 0 <= k < d.len() implies 0 <= #[trigger] f[k] < s.len() && d[k]
            == s[f[k]] && !seen_before(s, f[k]) by {
            if k < dp.len() {
                assert(f[k] == fp[k]);
                assert(d[k] == dp[k]);
                assert(s[fp[k]] == p[fp[k]]);
                if seen_before(s, f[k]) {
                    let i = choose|i: int| 0 <= i < f[k] && (#[trigger] s[i]).0 == s[f[k]].0;
                    assert(p[i] == s[i]);
                    assert(seen_before(p, fp[k]));
                }
            }
        }
        assert forall|a: int, b: int| 0 <= a < b < f.len() implies #[trigger] f[a] < #[trigger] f[b] by {
            if b < fp.len() {
                assert(f[a] == fp[a]);
                assert(f[b] == fp[b]);
            } else {
                assert(f[a] == fp[a]);
            }
        }
    }
}

/// Law: the entry kept for a symbol is the first entry carrying it.
pub proof fn law_dedupe_keeps_first(s: Seq<EntryView>, j: int)
    requires
        0 <= j < s.len(),
        !seen_before(s, j),
    ensures
        exists|k: int| 0 <= k < dedupe_spec(s).len() && #[trigger] dedupe_spec(s)[k] == s[j],
    decreases s.len(),
{
    let p = s.drop_last();
    if j == s.len() - 1 {
        assert(dedupe_spec(s)[dedupe_spec(p).len() as int] == s[j]);
    } else {
        assert(p[j] == s[j]);
        assert(!seen_before(p, j)) by {
            if seen_before(p, j) {
                let i = choose|i: int| 0 <= i < j && (#[trigger] p[i]).0 == p[j].0;
                assert(s[i] == p[i]);
            }
        }
        law_dedupe_keeps_first(p, j);
        let k = choose|k: int| 0 <= k < dedupe_spec(p).len() && #[trigger] dedupe_spec(p)[k] == s[j];
        assert(dedupe_spec(s)[k] == dedupe_spec(p)[k]);
    }
}

/// A bare Tokyo Stock Exchange code: exactly four characters, the first three
/// ASCII digits and the last an ASCII digit or letter (`7974`, `130A`).
pub open spec fn is_bare_tse_code_spec(s: Seq<char>) -> bool {
    &&& s.len() == 4
    &&& is_ascii_digit_spec(s[0])
    &&& is_ascii_digit_spec(s[1])
    &&& is_ascii_digit_spec(s[2])
    &&& (is_ascii_digit_spec(s[3]) || is_ascii_alphabetic_spec(s[3]))
}

/// yfinance form of a raw symbol: trimmed, upper-cased, and a bare TSE code
/// suffixed with `.T`.
pub open spec fn normalize_symbol_spec(raw: Seq<char>) -> Seq<char> {
    let s = upper_spec(trim_spec(raw));
    if is_bare_tse_code_spec(s) {
        s + ".T"@
    } else {
        s
    }
}

/// A bare TSE code: exactly 4 chars, no exchange/quote suffix, with the first
/// three digits — classic `7974` or post-2024 alphanumeric `130A`.
pub fn is_bare_tse_code(s: &str) -> (b: bool)
    ensures
        b == is_bare_tse_code_spec(s@),
{
    let v = chars_of(s);
    if v.len() != 4 {
        return false;
    }
    is_ascii_digit(v[0]) && is_ascii_digit(v[1]) && is_ascii_digit(v[2]) && (is_ascii_digit(v[3])
        || is_ascii_alphabetic(v[3]))
}

/// Normalize a raw symbol to yfinance form. Bare Tokyo Stock Exchange codes
/// (e.g. `7974`, `130A`) get a `.T` suffix so `7974` and `7974.T` both resolve.
pub fn normalize_symbol(raw: &str) -> (r: String)
    ensures
        r@ == normalize_symbol_spec(raw@),
{
    let t = trim_str(raw);
    let s = to_uppercase(t.as_str());
    if is_bare_tse_code(s.as_str()) {
        let mut v = chars_of(s.as_str());
        push_str(&mut v, ".T");
        string_of(&v)
    } else {
        s
    }
}

proof fn lemma_upper_char(c: char)
    ensures
        is_white_space_spec(ascii_upper_char(c)) == is_white_space_spec(c),
        ascii_upper_char(ascii_upper_char(c)) == ascii_upper_char(c),
        is_ascii_digit_spec(c) ==> ascii_upper_char(c) == c,
        is_ascii_alphabetic_spec(c) ==> is_ascii_alphabetic_spec(ascii_upper_char(c)),
        '\0' <= c <= '\u{7f}' ==> '\0' <= ascii_upper_char(c) <= '\u{7f}',
{
}

proof fn lemma_ascii_upper_seq(s: Seq<char>)
    requires
        is_ascii_chars(s),
    ensures
        ascii_upper(s).len() == s.len(),
        is_ascii_chars(ascii_upper(s)),
        ascii_upper(ascii_upper(s)) == ascii_upper(s),
        s.len() > 0 ==> is_white_space_spec(ascii_upper(s)[0]) == is_white_space_spec(s[0])
            && is_white_space_spec(ascii_upper(s).last()) == is_white_space_spec(s.last()),
{
    let u = ascii_upper(s);
    assert forall|i: int| 0 <= i < s.len() implies '\0' <= #[trigger] u[i] <= '\u{7f}'
        && ascii_upper_char(u[i]) == u[i] by {
        lemma_upper_char(s[i]);
    }
    assert(ascii_upper(u) =~= u);
    if s.len() > 0 {
        lemma_upper_char(s[0]);
        lemma_upper_char(s.last());
    }
}

/// The upper-cased trimmed form of an ASCII symbol: ASCII, already upper
/// case, and with non-white-space ends.
proof fn lemma_upper_trim(raw: Seq<char>)
    requires
        is_ascii_chars(raw),
    ensures
        is_ascii_chars(upper_spec(trim_spec(raw))),
        upper_spec(trim_spec(raw)) == ascii_upper(trim_spec(raw)),
        ascii_upper(upper_spec(trim_spec(raw))) == upper_spec(trim_spec(raw)),
        upper_spec(trim_spec(raw)).len() > 0 ==> !is_white_space_spec(upper_spec(trim_spec(raw))[0])
            && !is_white_space_spec(upper_spec(trim_spec(raw)).last()),
{
    let t = trim_spec(raw);
    lemma_trim_shape(raw);
    assert forall|j: int| 0 <= j < t.len() implies '\0' <= #[trigger] t[j] <= '\u{7f}' by {
        let i = choose|i: int| 0 <= i < raw.len() && raw[i] == t[j];
    }
    lemma_ascii_upper_seq(t);
}

/// Law: normalizing an already normalized ASCII symbol changes nothing, so a
/// symbol is recognized the same however often it passes normalization.
pub proof fn law_normalize_idempotent(raw: Seq<char>)
    requires
        is_ascii_chars(raw),
    ensures
        normalize_symbol_spec(normalize_symbol_spec(raw)) == normalize_symbol_spec(raw),
{
    reveal_strlit(".T");
    let u = upper_spec(trim_spec(raw));
    lemma_upper_trim(raw);
    let n = normalize_symbol_spec(raw);
    if is_bare_tse_code_spec(u) {
        assert(is_ascii_chars(n));
        assert(ascii_upper(n) =~= ascii_upper(u) + ascii_upper(".T"@));
        assert(ascii_upper(".T"@) =~= ".T"@);
        lemma_trim_fixed(n);
    } else {
        lemma_trim_fixed(n);
    }
}

/// Law: a bare TSE code and the same code with its `.T` suffix normalize to
/// the same symbol (`7974` and `7974.T` are one listing), the upper-cased
/// code with `.T`.
pub proof fn law_bare_code_matches_suffixed(code: Seq<char>)
    requires
        is_bare_tse_code_spec(code),
    ensures
        normalize_symbol_spec(code) == ascii_upper(code) + ".T"@,
        normalize_symbol_spec(code + ".T"@) == normalize_symbol_spec(code),
{
    reveal_strlit(".T");
    assert(is_ascii_chars(code));
    lemma_upper_char(code[0]);
    lemma_upper_char(code[3]);
    lemma_trim_fixed(code);
    lemma_ascii_upper_seq(code);
    let u = ascii_upper(code);
    assert(is_bare_tse_code_spec(u)) by {
        lemma_upper_char(code[1]);
        lemma_upper_char(code[2]);
    }
    let s = code + ".T"@;
    assert(is_ascii_chars(s));
    lemma_trim_fixed(s);
    assert(ascii_upper(s) =~= u + ".T"@);
}

/// Token separators of a free-text ticker list: commas and white space.
pub open spec fn is_separator(c: char) -> bool {
    c == ',' || is_white_space_spec(c)
}

/// Tokens of `s` given the token `cur` under construction and the finished
/// tokens `acc`: maximal runs of non-separator characters, empty runs
/// dropped.
pub open spec fn tokens_from(s: Seq<char>, cur: Seq<char>, acc: Seq<Seq<char>>) -> Seq<Seq<char>>
    decreases s.len(),
{
    let flushed = if cur.len() > 0 {
        acc.push(cur)
    } else {
        acc
    };
    if s.len() == 0 {
        flushed
    } else if is_separator(s[0]) {
        tokens_from(s.drop_first(), seq![], flushed)
    } else {
        tokens_from(s.drop_first(), cur.push(s[0]), acc)
    }
}

/// Characters that may appear inside a ticker token: anything but a comma
/// or a Unicode white-space character.
pub open spec fn token_chars(s: Seq<char>) -> Seq<char> {
    s.filter(|c: char| c != ',' && !is_white_space_spec(c))
}

/// A non-empty run holding neither a comma nor white space.
pub open spec fn clean_token(t: Seq<char>) -> bool {
    t.len() > 0 && forall|j: int| 0 <= j < t.len() ==> #[trigger] t[j] != ',' && !is_white_space_spec(t[j])
}

proof fn lemma_tokens_from(s: Seq<char>, cur: Seq<char>, acc: Seq<Seq<char>>)
    requires
        forall|k: int| 0 <= k < acc.len() ==> clean_token(#[trigger] acc[k]),
        forall|j: int| 0 <= j < cur.len() ==> #[trigger] cur[j] != ',' && !is_white_space_spec(cur[j]),
    ensures
        forall|k: int|
            0 <= k < tokens_from(s, cur, acc).len() ==> clean_token(#[trigger] tokens_from(s, cur, acc)[k]),
        tokens_from(s, cur, acc).flatten() == acc.flatten() + cur + token_chars(s),
    decreases s.len(),
{
    broadcast use Seq::lemma_flatten_push;

    let flushed = if cur.len() > 0 {
        acc.push(cur)
    } else {
        acc
    };
    assert(flushed.flatten() =~= acc.flatten() + cur);
    assert forall|k: int| 0 <= k < flushed.len() implies clean_token(#[trigger] flushed[k]) by {
        if k < acc.len() {
            assert(flushed[k] == acc[k]);
        }
    }
    let pred = |c: char| c != ',' && !is_white_space_spec(c);
    if s.len() == 0 {
        assert(token_chars(s) =~= Seq::<char>::empty());
        assert(acc.flatten() + cur + token_chars(s) =~= acc.flatten() + cur);
    } else {
        let t = s.drop_first();
        assert(s =~= seq![s[0]] + t);
        Seq::filter_distributes_over_add(seq![s[0]], t, pred);
        reveal_with_fuel(Seq::filter, 2);
        assert(seq![s[0]].drop_last() =~= Seq::<char>::empty());
        if is_separator(s[0]) {
            assert(seq![s[0]].filter(pred) =~= Seq::<char>::empty());
            lemma_tokens_from(t, seq![], flushed);
            assert(token_chars(s) =~= token_chars(t));
            assert(flushed.flatten() + Seq::<char>::empty() + token_chars(t) =~= acc.flatten() + cur
                + token_chars(s));
        } else {
            assert(seq![s[0]].filter(pred) =~= seq![s[0]]);
            let c2 = cur.push(s[0]);
            assert forall|j: int| 0 <= j < c2.len() implies #[trigger] c2[j] != ','
                && !is_white_space_spec(c2[j]) by {
                if j < cur.len() {
                    assert(c2[j] == cur[j]);
                }
            }
            lemma_tokens_from(t, c2, acc);
            assert(acc.flatten() + c2 + token_chars(t) =~= acc.flatten() + cur + token_chars(s));
        }
    }
}

/// Law: splitting a ticker list cuts at every comma and every Unicode
/// white-space character and loses nothing else — each token is a non-empty
/// run free of commas and white space, and the tokens, joined in order, are
/// exactly the input with its commas and white space removed.
pub proof fn law_tokens_split_at_commas_and_white_space(s: Seq<char>)
    ensures
        forall|k: int|
            0 <= k < tokens_spec(s).len() ==> clean_token(#[trigger] tokens_spec(s)[k]),
        tokens_spec(s).flatten() == token_chars(s),
{
    lemma_tokens_from(s, seq![], seq![]);
    assert(Seq::<Seq<char>>::empty().flatten() + Seq::<char>::empty() + token_chars(s) =~= token_chars(
        s,
    ));
}

/// The non-empty tokens of a ticker list split at commas and white space.
/// (Tokens hold no white space, so trimming them changes nothing.)
pub open spec fn tokens_spec(s: Seq<char>) -> Seq<Seq<char>> {
    tokens_from(s, seq![], seq![])
}

/// The universe entry for one ticker token.
pub open spec fn token_entry(t: Seq<char>) -> EntryView {
    let sym = normalize_symbol_spec(t);
    (sym, None, infer_spec(sym), None)
}

/// Entries of a free-text ticker list: one per token, deduplicated.
pub open spec fn parse_symbols_spec(input: Seq<char>) -> Seq<EntryView> {
    dedupe_spec(tokens_spec(input).map_values(|t: Seq<char>| token_entry(t)))
}

/// Split a text into its non-empty tokens (commas and white space separate).
pub fn split_tokens(input: &str) -> (toks: Vec<Vec<char>>)
    ensures
        toks@.map_values(|t: Vec<char>| t@) == tokens_spec(input@),
{
    let s = chars_of(input);
    let mut toks: Vec<Vec<char>> = Vec::new();
    let mut cur: Vec<char> = Vec::new();
    let mut i: usize = 0;
    proof {
        assert(s@.subrange(0, s.len() as int) =~= s@);
        assert(toks@.map_values(|t: Vec<char>| t@) =~= Seq::<Seq<char>>::empty());
        assert(cur@ =~= Seq::<char>::empty());
    }
    while i < s.len()
        invariant
            i <= s.len(),
            s@ == input@,
            tokens_from(s@.subrange(i as int, s.len() as int), cur@, toks@.map_values(
                |t: Vec<char>| t@,
            )) == tokens_spec(input@),
        decreases s.len() - i,
    {
        let ghost rest = s@.subrange(i as int, s.len() as int);
        let ghost acc = toks@.map_values(|t: Vec<char>| t@);
        proof {
            assert(rest[0] == s@[i as int]);
            assert(rest.drop_first() =~= s@.subrange(i + 1, s.len() as int));
        }
        let c = s[i];
        if c == ',' || is_white_space(c) {
            if cur.len() > 0 {
                let done = cur;
                toks.push(done);
                cur = Vec::new();
                proof {
                    assert(toks@.map_values(|t: Vec<char>| t@) =~= acc.push(done@));
                }
            }
            proof {
                assert(cur@ =~= Seq::<char>::empty());
            }
        } else {
            cur.push(c);
        }
        i = i + 1;
    }
    let ghost acc = toks@.map_values(|t: Vec<char>| t@);
    if cur.len() > 0 {
        let done = cur;
        toks.push(done);
        proof {
            assert(toks@.map_values(|t: Vec<char>| t@) =~= acc.push(done@));
        }
    }
    toks
}

/// Parse a free-text ticker list (comma / whitespace / newline separated) into
/// universe entries. Symbols are normalized (see [`normalize_symbol`]) and the
/// asset class is inferred.
pub fn parse_symbols_str(input: &str) -> (out: Vec<UniverseEntry>)
    ensures
        entries_view(out@) == parse_symbols_spec(input@),
{
    let toks = split_tokens(input);
    let ghost tv = toks@.map_values(|t: Vec<char>| t@);
    let mut entries: Vec<UniverseEntry> = Vec::new();
    let mut i: usize = 0;
    while i < toks.len()
        invariant
            i <= toks.len(),
            tv == toks@.map_values(|t: Vec<char>| t@),
            entries_view(entries@) =~= tv.subrange(0, i as int).map_values(
                |t: Seq<char>| token_entry(t),
            ),
        decreases toks.len() - i,
    {
        let t = string_of(&toks[i]);
        let symbol = normalize_symbol(t.as_str());
        let asset_class = AssetClass::infer(symbol.as_str());
        let e = UniverseEntry { symbol, name: None, asset_class, weight: None };
        let ghost before = entries_view(entries@);
        proof {
            assert(tv[i as int] == toks@[i as int]@);
            assert(e@ == token_entry(tv[i as int]));
            assert(tv.subrange(0, i + 1).map_values(|t: Seq<char>| token_entry(t)) =~= tv.subrange(
                0,
                i as int,
            ).map_values(|t: Seq<char>| token_entry(t)).push(token_entry(tv[i as int])));
        }
        entries.push(e);
        proof {
            assert(entries_view(entries@) =~= before.push(e@));
        }
        i = i + 1;
    }
    proof {
        assert(tv.subrange(0, toks.len() as int) =~= tv);
        assert(tv == tokens_spec(input@));
    }
    dedupe(entries)
}

} // verus!

verus! {

/// Law: a free-text ticker list yields pairwise distinct symbols.
pub proof fn law_parse_symbols_distinct(input: Seq<char>)
    ensures
        forall|a: int, b: int|
            0 <= a < b < parse_symbols_spec(input).len() ==> (
            #[trigger] parse_symbols_spec(input)[a]).0 != (
            #[trigger] parse_symbols_spec(input)[b]).0,
{
    law_dedupe_no_duplicates(tokens_spec(input).map_values(|t: Seq<char>| token_entry(t)));
}

} // verus!
