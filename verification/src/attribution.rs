//! Rules of return attribution and holding ranking that do not depend on
//! amounts: the cash effect of a transaction type, which symbols are cash,
//! the market and category a holding is attributed to, display labels and
//! names, and the ranking order asked for.

use vstd::prelude::*;

use crate::text::{chars_of, has_prefix, starts_with, str_equal};

verus! {

/// How a transaction type moves money into or out of a holding.
#[derive(Debug, Clone, Copy, PartialEq, Eq, Structural)]
pub enum CashFlow {
    /// Money invested: the amount counts positive.
    Invested,
    /// Money withdrawn: the amount counts negative.
    Withdrawn,
    /// No cash effect: the amount counts zero.
    NoEffect,
}

/// `BUY` and `OPEN` invest, `SELL` withdraws, anything else has no effect.
pub open spec fn cash_flow_of(tx_type: Seq<char>) -> CashFlow {
    if tx_type == "BUY"@ || tx_type == "OPEN"@ {
        CashFlow::Invested
    } else if tx_type == "SELL"@ {
        CashFlow::Withdrawn
    } else {
        CashFlow::NoEffect
    }
}

/// The cash effect of a transaction type.
pub fn cash_flow_kind(tx_type: &str) -> (r: CashFlow)
    ensures
        r == cash_flow_of(tx_type@),
{
    if str_equal(tx_type, "BUY") || str_equal(tx_type, "OPEN") {
        CashFlow::Invested
    } else if str_equal(tx_type, "SELL") {
        CashFlow::Withdrawn
    } else {
        CashFlow::NoEffect
    }
}

/// The prefix of the cash pseudo-symbols (`$CASH-CNY`, `$CASH-USD`, ...).
pub open spec fn cash_prefix() -> Seq<char> {
    seq!['$', 'C', 'A', 'S', 'H', '-']
}

/// Whether a symbol is one of the cash pseudo-symbols, which attribution and
/// ranking leave out.
pub fn is_cash_symbol(symbol: &str) -> (r: bool)
    ensures
        r == starts_with(symbol@, cash_prefix()),
{
    let v = chars_of(symbol);
    let p: Vec<char> = vec!['$', 'C', 'A', 'S', 'H', '-'];
    assert(p@ =~= cash_prefix());
    has_prefix(&v, &p)
}

/// The display label of a market code.
pub open spec fn market_label_of(market: Seq<char>) -> Seq<char> {
    if market == "US"@ {
        "🇺🇸 美股"@
    } else if market == "CN"@ {
        "🇨🇳 A股"@
    } else if market == "HK"@ {
        "🇭🇰 港股"@
    } else {
        market
    }
}

/// The display label of a market code: the known markets get a flag and a
/// name, any other code is shown as it is.
pub fn market_label(market: &str) -> (r: String)
    ensures
        r@ == market_label_of(market@),
{
    if str_equal(market, "US") {
        "🇺🇸 美股".to_owned()
    } else if str_equal(market, "CN") {
        "🇨🇳 A股".to_owned()
    } else if str_equal(market, "HK") {
        "🇭🇰 港股".to_owned()
    } else {
        market.to_owned()
    }
}

/// The attribution label of a holding: `SYMBOL NAME` when the holding has a
/// stored name that is neither empty nor the symbol itself, else the symbol.
pub open spec fn display_name_of(symbol: Seq<char>, name: Option<Seq<char>>) -> Seq<char> {
    match name {
        Some(n) => if n.len() > 0 && n != symbol {
            symbol + " "@ + n
        } else {
            symbol
        },
        None => symbol,
    }
}

/// The attribution label of a holding, from its symbol and stored name.
pub fn holding_display_name(symbol: String, name: Option<String>) -> (r: String)
    ensures
        r@ == display_name_of(symbol@, match name {
            Some(n) => Some(n@),
            None => None,
        }),
{
    match name {
        Some(n) => {
            if !n.as_str().is_empty() && !str_equal(n.as_str(), symbol.as_str()) {
                let mut r = symbol;
                r.append(" ");
                r.append(n.as_str());
                r
            } else {
                symbol
            }
        },
        None => symbol,
    }
}

/// The market and category a holding is attributed to: those seen at the
/// start of the period, else those seen at its end, else `Unknown` and the
/// uncategorised label.
pub open spec fn attribution_group_of(
    at_start: Option<(Seq<char>, Seq<char>)>,
    at_end: Option<(Seq<char>, Seq<char>)>,
) -> (Seq<char>, Seq<char>) {
    match at_start {
        Some(g) => g,
        None => match at_end {
            Some(g) => g,
            None => ("Unknown"@, "未分类"@),
        },
    }
}

/// The characters of an optional (market, category) pair.
pub open spec fn group_view(g: Option<(String, String)>) -> Option<(Seq<char>, Seq<char>)> {
    match g {
        Some((m, c)) => Some((m@, c@)),
        None => None,
    }
}

/// The market and category a holding is attributed to.
pub fn attribution_group(at_start: Option<(String, String)>, at_end: Option<(String, String)>) -> (r: (
    String,
    String,
))
    ensures
        (r.0@, r.1@) == attribution_group_of(group_view(at_start), group_view(at_end)),
{
    match at_start {
        Some(g) => g,
        None => match at_end {
            Some(g) => g,
            None => ("Unknown".to_owned(), "未分类".to_owned()),
        },
    }
}

/// The name a ranked holding is shown with: its stored name when there is a
/// non-empty one, else its symbol.
pub open spec fn ranked_name_of(symbol: Seq<char>, stored: Option<Seq<char>>) -> Seq<char> {
    match stored {
        Some(n) => if n.len() > 0 {
            n
        } else {
            symbol
        },
        None => symbol,
    }
}

/// The name a ranked holding is shown with.
pub fn ranked_holding_name(symbol: &String, stored: Option<String>) -> (r: String)
    ensures
        r@ == ranked_name_of(symbol@, match stored {
            Some(n) => Some(n@),
            None => None,
        }),
{
    match stored {
        Some(n) => if !n.as_str().is_empty() {
            n
        } else {
            symbol.clone()
        },
        None => symbol.clone(),
    }
}

/// The order of a holding ranking.
#[derive(Debug, Clone, Copy, PartialEq, Eq, Structural)]
pub enum RankingKey {
    /// By profit and loss, largest first.
    Pnl,
    /// By return rate, largest first.
    ReturnRate,
}

/// `pnl` ranks by profit and loss; anything else by return rate.
pub fn ranking_key(sort_by: &str) -> (r: RankingKey)
    ensures
        r == (if sort_by@ == "pnl"@ {
            RankingKey::Pnl
        } else {
            RankingKey::ReturnRate
        }),
{
    if str_equal(sort_by, "pnl") {
        RankingKey::Pnl
    } else {
        RankingKey::ReturnRate
    }
}

} // verus!

verus! {

/// An attribution label always begins with the holding's symbol.
pub proof fn lemma_display_name_starts_with_symbol(symbol: Seq<char>, name: Option<Seq<char>>)
    ensures
        starts_with(display_name_of(symbol, name), symbol),
{
    let r = display_name_of(symbol, name);
    assert(r.subrange(0, symbol.len() as int) =~= symbol);
}

} // verus!

verus! {

/// The characters of each string of a list.
pub open spec fn symbols_view(v: Seq<String>) -> Seq<Seq<char>> {
    v.map_values(|s: String| s@)
}

proof fn lemma_push_contains(p: Seq<Seq<char>>, x: Seq<char>)
    ensures
        forall|s: Seq<char>| #[trigger] p.push(x).contains(s) <==> (p.contains(s) || s == x),
{
    assert forall|s: Seq<char>| #[trigger] p.push(x).contains(s) <==> (p.contains(s) || s == x) by {
        if p.contains(s) {
            let j = choose|j: int| 0 <= j < p.len() && p[j] == s;
            assert(p.push(x)[j] == s);
        }
        if s == x {
            assert(p.push(x)[p.len() as int] == s);
        }
        if p.push(x).contains(s) {
            let j = choose|j: int| 0 <= j < p.push(x).len() && p.push(x)[j] == s;
            if j < p.len() {
                assert(p[j] == s);
            }
        }
    }
}

/// Whether `symbol` is among `v`.
fn listed(v: &Vec<String>, symbol: &String) -> (r: bool)
    ensures
        r == symbols_view(v@).contains(symbol@),
{
    let mut i: usize = 0;
    while i < v.len()
        invariant
            i <= v.len(),
            forall|j: int| 0 <= j < i ==> v@[j]@ != symbol@,
        decreases v.len() - i,
    {
        if str_equal(v[i].as_str(), symbol.as_str()) {
            assert(symbols_view(v@)[i as int] == symbol@);
            return true;
        }
        i = i + 1;
    }
    proof {
        if symbols_view(v@).contains(symbol@) {
            let j = choose|j: int| 0 <= j < symbols_view(v@).len() && symbols_view(v@)[j] == symbol@;
            assert(v@[j]@ == symbol@);
        }
    }
    false
}

fn add_attributed(out: &mut Vec<String>, from: &Vec<String>)
    requires
        forall|a: int, b: int| 0 <= a < b < old(out).len() ==> old(out)@[a]@ != old(out)@[b]@,
        forall|a: int| 0 <= a < old(out).len() ==> !starts_with(#[trigger] old(out)@[a]@, cash_prefix()),
    ensures
        forall|a: int, b: int| 0 <= a < b < final(out).len() ==> final(out)@[a]@ != final(out)@[b]@,
        forall|a: int| 0 <= a < final(out).len() ==> !starts_with(#[trigger] final(out)@[a]@, cash_prefix()),
        forall|s: Seq<char>| symbols_view(final(out)@).contains(s) <==> (symbols_view(old(out)@).contains(s) || (
        symbols_view(from@).contains(s) && !starts_with(s, cash_prefix()))),
{
    let ghost start = out@;
    let mut i: usize = 0;
    while i < from.len()
        invariant
            i <= from.len(),
            forall|a: int, b: int| 0 <= a < b < out.len() ==> out@[a]@ != out@[b]@,
            forall|a: int| 0 <= a < out.len() ==> !starts_with(#[trigger] out@[a]@, cash_prefix()),
            forall|s: Seq<char>| symbols_view(out@).contains(s) <==> (symbols_view(start).contains(s) || (
            symbols_view(from@.subrange(0, i as int)).contains(s) && !starts_with(s, cash_prefix()))),
        decreases from.len() - i,
    {
        let sym = &from[i];
        let ghost before = out@;
        let ghost prev = symbols_view(from@.subrange(0, i as int));
        let ghost next = symbols_view(from@.subrange(0, i + 1));
        proof {
            assert(next =~= prev.push(sym@));
            lemma_push_contains(prev, sym@);
        }
        if !is_cash_symbol(sym.as_str()) && !listed(out, sym) {
            out.push(sym.clone());
            proof {
                assert(symbols_view(out@) =~= symbols_view(before).push(sym@));
                lemma_push_contains(symbols_view(before), sym@);
                assert forall|a: int| 0 <= a < before.len() implies before[a]@ != sym@ by {
                    assert(symbols_view(before)[a] == before[a]@);
                }
                assert(out@[before.len() as int] == *sym);
            }
        }
        i = i + 1;
    }
    assert(from@.subrange(0, from.len() as int) =~= from@);
}

/// The symbols a return attribution covers: every symbol held at the start
/// or at the end of the period, once each, cash pseudo-symbols left out.
pub fn attributed_symbols(at_start: &Vec<String>, at_end: &Vec<String>) -> (r: Vec<String>)
    ensures
        forall|a: int, b: int| 0 <= a < b < r.len() ==> r@[a]@ != r@[b]@,
        forall|s: Seq<char>| symbols_view(r@).contains(s) <==> ((symbols_view(at_start@).contains(s)
            || symbols_view(at_end@).contains(s)) && !starts_with(s, cash_prefix())),
{
    let mut r: Vec<String> = Vec::new();
    assert(symbols_view(r@) =~= Seq::<Seq<char>>::empty());
    add_attributed(&mut r, at_start);
    add_attributed(&mut r, at_end);
    r
}

/// The group seen at the start of the period wins whatever was seen at its
/// end; without one the group seen at the end is taken; with neither the
/// holding is `Unknown` and uncategorised.
pub proof fn lemma_start_group_wins(
    at_start: Option<(Seq<char>, Seq<char>)>,
    at_end: Option<(Seq<char>, Seq<char>)>,
)
    ensures
        at_start is Some ==> attribution_group_of(at_start, at_end) == at_start.unwrap(),
        at_start is None && at_end is Some ==> attribution_group_of(at_start, at_end) == at_end.unwrap(),
        at_start is None && at_end is None ==> attribution_group_of(at_start, at_end) == ("Unknown"@, "未分类"@),
{
}

/// A holding with a stored name that is neither empty nor its symbol is
/// labelled `SYMBOL NAME`; any other holding by its symbol alone. A ranked
/// holding is shown by its non-empty stored name, else by its symbol.
pub proof fn lemma_names_shown(symbol: Seq<char>, name: Option<Seq<char>>)
    ensures
        name is Some && name.unwrap().len() > 0 && name.unwrap() != symbol ==> display_name_of(symbol, name)
            == symbol + " "@ + name.unwrap(),
        !(name is Some && name.unwrap().len() > 0 && name.unwrap() != symbol) ==> display_name_of(symbol, name)
            == symbol,
        name is Some && name.unwrap().len() > 0 ==> ranked_name_of(symbol, name) == name.unwrap(),
        !(name is Some && name.unwrap().len() > 0) ==> ranked_name_of(symbol, name) == symbol,
{
}

} // verus!
