//! Exchange symbol conventions: ticker pairs for Gate and Binance, the
//! base asset of a pair, the symbol list of a quote request, and the request
//! URLs of the quote and chart services.

use vstd::prelude::*;

use crate::text::{
    chars_of, contains_block, ends_with, has_char, has_suffix, joined, push_char, push_signed_decimal,
    signed_decimal_chars, string_of, trim, trimmed,
};

verus! {

/// What `str::to_uppercase` returns for a string of these characters.
pub uninterp spec fn spec_to_uppercase(s: Seq<char>) -> Seq<char>;

/// Every character of `s` is ASCII.
pub open spec fn is_ascii_text(s: Seq<char>) -> bool {
    forall|i: int| 0 <= i < s.len() ==> (#[trigger] s[i] as u32) < 128
}

/// The ASCII upper case of `c`: `a` to `z` become `A` to `Z`, anything else
/// stays.
pub open spec fn ascii_upper_char(c: char) -> char {
    let n = c as u32;
    if 97 <= n <= 122 {
        (n - 32) as char
    } else {
        c
    }
}

/// `s` with each character in ASCII upper case.
pub open spec fn ascii_upper(s: Seq<char>) -> Seq<char> {
    Seq::new(s.len(), |i: int| ascii_upper_char(s[i]))
}

/// Calls `str::to_uppercase`: the Unicode upper-case mapping of every
/// character. The full mapping is not stated here; its result is named
/// `spec_to_uppercase`. For ASCII text the mapping is stated: `a` to `z`
/// become `A` to `Z`, and every other character stays.
#[verifier::external_body]
fn upper_case(s: &str) -> (r: String)
    ensures
        r@ == spec_to_uppercase(s@),
        is_ascii_text(s@) ==> r@ == ascii_upper(s@),
{
    s.to_uppercase()
}

/// The quote currency appended to bare symbols: `USDT`.
pub open spec fn usdt() -> Seq<char> {
    seq!['U', 'S', 'D', 'T']
}

/// Currency pair on Gate for an upper-cased symbol: kept as it is when it
/// already names a pair (holds `_`), else paired with USDT (`BTC` -> `BTC_USDT`).
pub open spec fn gateio_pair_of(upper: Seq<char>) -> Seq<char> {
    if upper.contains('_') {
        upper
    } else {
        upper + seq!['_'] + usdt()
    }
}

/// The Binance symbol for an upper-cased symbol: kept as it is when it already
/// ends in `USDT`, else suffixed with it (`HOOD` -> `HOODUSDT`).
pub open spec fn binance_symbol_of(upper: Seq<char>) -> Seq<char> {
    if ends_with(upper, usdt()) {
        upper
    } else {
        upper + usdt()
    }
}

fn push_usdt(s: &mut String)
    ensures
        final(s)@ == old(s)@ + usdt(),
{
    push_char(s, 'U');
    push_char(s, 'S');
    push_char(s, 'D');
    push_char(s, 'T');
    assert(final(s)@ =~= old(s)@ + usdt());
}

/// Currency pair on Gate for a symbol that is already upper-cased.
pub fn gateio_pair_from_upper(upper: String) -> (r: String)
    ensures
        r@ == gateio_pair_of(upper@),
{
    let v = chars_of(upper.as_str());
    if has_char(&v, '_') {
        upper
    } else {
        let mut r = upper;
        push_char(&mut r, '_');
        push_usdt(&mut r);
        assert(r@ =~= upper@ + seq!['_'] + usdt());
        r
    }
}

/// The Binance symbol for a symbol that is already upper-cased.
pub fn binance_symbol_from_upper(upper: String) -> (r: String)
    ensures
        r@ == binance_symbol_of(upper@),
{
    let v = chars_of(upper.as_str());
    let suffix: Vec<char> = vec!['U', 'S', 'D', 'T'];
    assert(suffix@ =~= usdt());
    if has_suffix(&v, &suffix) {
        upper
    } else {
        let mut r = upper;
        push_usdt(&mut r);
        r
    }
}

/// Maps a user symbol to a Gate currency pair (`btc` -> `BTC_USDT`).
pub fn to_gateio_pair(symbol: &str) -> (r: String)
    ensures
        r@ == gateio_pair_of(spec_to_uppercase(symbol@)),
        is_ascii_text(symbol@) ==> r@ == gateio_pair_of(ascii_upper(symbol@)),
        r@.contains('_'),
{
    let upper = upper_case(symbol);
    let r = gateio_pair_from_upper(upper);
    proof {
        let u = spec_to_uppercase(symbol@);
        if !u.contains('_') {
            assert((u + seq!['_'] + usdt())[u.len() as int] == '_');
        }
    }
    r
}

/// Maps a user symbol to a Binance symbol (`hood` -> `HOODUSDT`).
pub fn to_binance_symbol(symbol: &str) -> (r: String)
    ensures
        r@ == binance_symbol_of(spec_to_uppercase(symbol@)),
        is_ascii_text(symbol@) ==> r@ == binance_symbol_of(ascii_upper(symbol@)),
        ends_with(r@, usdt()),
{
    let upper = upper_case(symbol);
    let r = binance_symbol_from_upper(upper);
    proof {
        let u = spec_to_uppercase(symbol@);
        if !ends_with(u, usdt()) {
            assert((u + usdt()).subrange(u.len() as int, (u.len() + 4) as int) =~= usdt());
        }
    }
    r
}

/// The characters of `s` before the first `c` (all of `s` when `c` is absent).
pub open spec fn before_first(s: Seq<char>, c: char) -> Seq<char>
    decreases s.len(),
{
    if s.len() == 0 {
        s
    } else if s[0] == c {
        Seq::empty()
    } else {
        seq![s[0]] + before_first(s.drop_first(), c)
    }
}

proof fn lemma_before_first_prefix(s: Seq<char>, c: char, i: int)
    requires
        0 <= i <= s.len(),
        forall|j: int| 0 <= j < i ==> s[j] != c,
    ensures
        before_first(s, c) == s.subrange(0, i) + before_first(s.subrange(i, s.len() as int), c),
    decreases i,
{
    if i > 0 {
        lemma_before_first_prefix(s.drop_first(), c, i - 1);
        assert(s.drop_first().subrange(i - 1, s.drop_first().len() as int) =~= s.subrange(i, s.len() as int));
        assert(seq![s[0]] + s.drop_first().subrange(0, i - 1) =~= s.subrange(0, i));
    } else {
        assert(s.subrange(0, s.len() as int) =~= s);
    }
}

/// The base asset of a currency pair: its part before the first `_`
/// (`BTC_USDT` -> `BTC`).
pub fn pair_base_name(pair: &str) -> (r: String)
    ensures
        r@ == before_first(pair@, '_'),
        !r@.contains('_'),
{
    let v = chars_of(pair);
    let mut out: Vec<char> = Vec::new();
    let mut i: usize = 0;
    while i < v.len() && v[i] != '_'
        invariant
            v@ == pair@,
            i <= v.len(),
            out@ == v@.subrange(0, i as int),
            forall|j: int| 0 <= j < i ==> v@[j] != '_',
        decreases v.len() - i,
    {
        out.push(v[i]);
        i = i + 1;
        assert(out@ =~= v@.subrange(0, i as int));
    }
    proof {
        lemma_before_first_prefix(v@, '_', i as int);
        let rest = v@.subrange(i as int, v@.len() as int);
        if i < v.len() {
            assert(rest[0] == '_');
        } else {
            assert(rest.len() == 0);
        }
        assert(before_first(v@, '_') =~= v@.subrange(0, i as int));
    }
    string_of(&out)
}

/// The pieces of `s` between occurrences of `sep`, as `str::split` yields
/// them: an empty `s` gives one empty piece, and adjacent separators give
/// empty pieces.
pub open spec fn split_pieces(s: Seq<char>, sep: char) -> Seq<Seq<char>>
    decreases s.len(),
{
    if s.len() == 0 {
        seq![Seq::empty()]
    } else {
        let p = split_pieces(s.drop_last(), sep);
        if s.last() == sep {
            p.push(Seq::empty())
        } else {
            p.update(p.len() - 1, p.last().push(s.last()))
        }
    }
}

/// There is always at least one piece.
pub proof fn lemma_split_pieces_nonempty(s: Seq<char>, sep: char)
    ensures
        split_pieces(s, sep).len() >= 1,
    decreases s.len(),
{
    if s.len() > 0 {
        lemma_split_pieces_nonempty(s.drop_last(), sep);
    }
}

/// No piece holds the separator.
pub proof fn lemma_split_pieces_free_of_separator(s: Seq<char>, sep: char)
    ensures
        forall|k: int| 0 <= k < split_pieces(s, sep).len() ==> !(#[trigger] split_pieces(s, sep)[k]).contains(sep),
    decreases s.len(),
{
    if s.len() > 0 {
        lemma_split_pieces_nonempty(s.drop_last(), sep);
        lemma_split_pieces_free_of_separator(s.drop_last(), sep);
        let p = split_pieces(s.drop_last(), sep);
        if s.last() != sep {
            let q = p.last().push(s.last());
            assert forall|k: int| 0 <= k < split_pieces(s, sep).len() implies !(#[trigger] split_pieces(s, sep)[k]).contains(sep) by {
                if k == p.len() - 1 {
                    assert(split_pieces(s, sep)[k] == q);
                    if q.contains(sep) {
                        let j = choose|j: int| 0 <= j < q.len() && q[j] == sep;
                        if j < p.last().len() {
                            assert(p.last()[j] == sep);
                        }
                    }
                } else {
                    assert(split_pieces(s, sep)[k] == p[k]);
                }
            }
        } else {
            assert forall|k: int| 0 <= k < split_pieces(s, sep).len() implies !(#[trigger] split_pieces(s, sep)[k]).contains(sep) by {
                if k < p.len() {
                    assert(split_pieces(s, sep)[k] == p[k]);
                } else {
                    assert(split_pieces(s, sep)[k] =~= Seq::<char>::empty());
                }
            }
        }
    }
}

/// Splits a comma-separated symbol list and trims the white space around each
/// entry (`"BTC, ETH"` -> `["BTC", "ETH"]`). Empty entries stay, as empty strings.
pub fn split_symbols(symbols: &str) -> (r: Vec<String>)
    ensures
        r.len() == split_pieces(symbols@, ',').len(),
        forall|k: int| 0 <= k < r.len() ==> #[trigger] r[k]@ == trimmed(split_pieces(symbols@, ',')[k]),
        forall|k: int| 0 <= k < r.len() ==> !(#[trigger] r[k]@).contains(','),
{
    let v = chars_of(symbols);
    let mut done: Vec<String> = Vec::new();
    let mut cur = String::new();
    let mut i: usize = 0;
    while i < v.len()
        invariant
            v@ == symbols@,
            i <= v.len(),
            split_pieces(v@.subrange(0, i as int), ',').len() == done.len() + 1,
            forall|k: int| 0 <= k < done.len() ==> #[trigger] done[k]@ == split_pieces(v@.subrange(0, i as int), ',')[k],
            cur@ == split_pieces(v@.subrange(0, i as int), ',')[done.len() as int],
        decreases v.len() - i,
    {
        let ghost before = v@.subrange(0, i as int);
        let ghost after = v@.subrange(0, i + 1);
        assert(after.drop_last() =~= before);
        assert(after.last() == v@[i as int]);
        if v[i] == ',' {
            let piece = cur;
            done.push(piece);
            cur = String::new();
        } else {
            push_char(&mut cur, v[i]);
        }
        i = i + 1;
        assert(forall|k: int| 0 <= k < done.len() ==> #[trigger] done[k]@ == split_pieces(v@.subrange(0, i as int), ',')[k]);
    }
    assert(v@.subrange(0, v.len() as int) =~= symbols@);
    done.push(cur);
    let ghost pieces = split_pieces(symbols@, ',');
    let mut r: Vec<String> = Vec::new();
    let mut k: usize = 0;
    while k < done.len()
        invariant
            done.len() == pieces.len(),
            forall|m: int| 0 <= m < done.len() ==> #[trigger] done[m]@ == pieces[m],
            k <= done.len(),
            r.len() == k,
            forall|m: int| 0 <= m < k ==> #[trigger] r[m]@ == trimmed(pieces[m]),
            forall|m: int| 0 <= m < k ==> contains_block(pieces[m], #[trigger] r[m]@),
        decreases done.len() - k,
    {
        let t = trim(done[k].as_str());
        r.push(t);
        k = k + 1;
    }
    proof {
        lemma_split_pieces_free_of_separator(symbols@, ',');
        assert forall|m: int| 0 <= m < r.len() implies !(#[trigger] r[m]@).contains(',') by {
            assert(contains_block(pieces[m], r[m]@));
            let a = choose|a: int| 0 <= a && a + r[m]@.len() <= pieces[m].len() && #[trigger] pieces[m].subrange(a, a + r[m]@.len()) == r[m]@;
            assert(!pieces[m].contains(','));
            if r[m]@.contains(',') {
                let j = choose|j: int| 0 <= j < r[m]@.len() && r[m]@[j] == ',';
                assert(pieces[m].subrange(a, a + r[m]@.len())[j] == ',');
                assert(pieces[m][a + j] == ',');
            }
        }
    }
    r
}

} // verus!

verus! {

/// Spot ticker URL on Gate for a currency pair.
pub fn gateio_ticker_url(pair: &str) -> (r: String)
    ensures
        r@ == "https://api.gateio.ws/api/v4/spot/tickers?currency_pair="@ + pair@,
{
    let mut r = String::new();
    r.append("https://api.gateio.ws/api/v4/spot/tickers?currency_pair=");
    r.append(pair);
    r
}

/// The Binance 24-hour ticker URL for a symbol.
pub fn binance_ticker_url(symbol: &str) -> (r: String)
    ensures
        r@ == "https://api.binance.com/api/v3/ticker/24hr?symbol="@ + symbol@,
{
    let mut r = String::new();
    r.append("https://api.binance.com/api/v3/ticker/24hr?symbol=");
    r.append(symbol);
    r
}

/// The Yahoo Finance daily chart URL for a symbol between two UNIX times.
pub fn benchmark_chart_url(symbol: &str, start_ts: i64, end_ts: i64) -> (r: String)
    ensures
        r@ == "https://query1.finance.yahoo.com/v8/finance/chart/"@ + symbol@ + "?period1="@
            + signed_decimal_chars(start_ts as int) + "&period2="@ + signed_decimal_chars(end_ts as int)
            + "&interval=1d"@,
{
    let mut r = String::new();
    r.append("https://query1.finance.yahoo.com/v8/finance/chart/");
    r.append(symbol);
    r.append("?period1=");
    push_signed_decimal(&mut r, start_ts);
    r.append("&period2=");
    push_signed_decimal(&mut r, end_ts);
    r.append("&interval=1d");
    r
}

} // verus!

verus! {

/// Pairing is stable: the pair of a pair is the pair itself.
pub proof fn lemma_gateio_pair_stable(upper: Seq<char>)
    ensures
        gateio_pair_of(gateio_pair_of(upper)) == gateio_pair_of(upper),
{
    if !upper.contains('_') {
        assert((upper + seq!['_'] + usdt())[upper.len() as int] == '_');
    }
}

/// The Binance symbol of a Binance symbol is itself.
pub proof fn lemma_binance_symbol_stable(upper: Seq<char>)
    ensures
        binance_symbol_of(binance_symbol_of(upper)) == binance_symbol_of(upper),
{
    if !ends_with(upper, usdt()) {
        assert((upper + usdt()).subrange(upper.len() as int, (upper.len() + 4) as int) =~= usdt());
    }
}

/// A bare symbol is the base asset of its pair on Gate.
pub proof fn lemma_pair_base_of_bare_symbol(upper: Seq<char>)
    requires
        !upper.contains('_'),
    ensures
        before_first(gateio_pair_of(upper), '_') == upper,
{
    let p = upper + seq!['_'] + usdt();
    assert forall|j: int| 0 <= j < upper.len() implies p[j] != '_' by {
        assert(p[j] == upper[j]);
    }
    lemma_before_first_prefix(p, '_', upper.len() as int);
    let rest = p.subrange(upper.len() as int, p.len() as int);
    assert(rest[0] == '_');
    assert(p.subrange(0, upper.len() as int) =~= upper);
    assert(upper + Seq::<char>::empty() =~= upper);
}

/// Splitting at a separator and joining the pieces with it gives back the
/// original text.
pub proof fn lemma_split_then_join(s: Seq<char>, sep: char)
    ensures
        joined(split_pieces(s, sep), seq![sep]) == s,
    decreases s.len(),
{
    if s.len() > 0 {
        lemma_split_then_join(s.drop_last(), sep);
        lemma_split_pieces_nonempty(s.drop_last(), sep);
        let p = split_pieces(s.drop_last(), sep);
        if s.last() == sep {
            let q = p.push(Seq::<char>::empty());
            assert(q.drop_last() =~= p);
            assert(joined(q, seq![sep]) == joined(p, seq![sep]) + seq![sep] + Seq::<char>::empty());
            assert(s =~= s.drop_last() + seq![sep] + Seq::<char>::empty());
        } else {
            lemma_join_extend_last(p, seq![sep], s.last());
            assert(s =~= s.drop_last().push(s.last()));
        }
    }
}

/// Appending a character to the last piece appends it to the joined text.
proof fn lemma_join_extend_last(list: Seq<Seq<char>>, sep: Seq<char>, c: char)
    requires
        list.len() >= 1,
    ensures
        joined(list.update(list.len() - 1, list.last().push(c)), sep) == joined(list, sep).push(c),
{
    let l2 = list.update(list.len() - 1, list.last().push(c));
    if list.len() == 1 {
        assert(l2[0] == list[0].push(c));
    } else {
        assert(l2.drop_last() =~= list.drop_last());
        assert(joined(l2, sep) == joined(list.drop_last(), sep) + sep + list.last().push(c));
        assert(joined(list.drop_last(), sep) + sep + list.last().push(c) =~= (joined(list.drop_last(), sep) + sep + list.last()).push(c));
    }
}

/// The part of `s` before its first `c` is a prefix of `s` free of `c`: when
/// `s` holds `c`, that prefix is followed by `c` in `s`; when it does not, the
/// part is all of `s`.
pub proof fn lemma_before_first_is_prefix_to_separator(s: Seq<char>, c: char)
    ensures
        !before_first(s, c).contains(c),
        s.contains(c) ==> before_first(s, c).len() < s.len() && s[before_first(s, c).len() as int] == c
            && s.subrange(0, before_first(s, c).len() as int) == before_first(s, c),
        !s.contains(c) ==> before_first(s, c) == s,
    decreases s.len(),
{
    if s.len() > 0 {
        if s[0] != c {
            let t = s.drop_first();
            lemma_before_first_is_prefix_to_separator(t, c);
            let b = before_first(s, c);
            let bt = before_first(t, c);
            assert(b == seq![s[0]] + bt);
            assert forall|i: int| 0 <= i < b.len() implies b[i] != c by {
                if i > 0 {
                    assert(b[i] == bt[i - 1]);
                }
            }
            if s.contains(c) {
                let j = choose|j: int| 0 <= j < s.len() && s[j] == c;
                assert(t[j - 1] == c);
                assert(t.contains(c));
                assert(s[b.len() as int] == t[bt.len() as int]);
                assert(s.subrange(0, b.len() as int) =~= seq![s[0]] + t.subrange(0, bt.len() as int));
            } else {
                assert forall|j: int| 0 <= j < t.len() implies t[j] != c by {
                    assert(t[j] == s[j + 1]);
                }
                assert(b =~= s);
            }
        } else {
            assert(s.contains(c)) by {
                assert(s[0] == c);
            }
            assert(s.subrange(0, 0) =~= Seq::<char>::empty());
        }
    }
}

} // verus!
