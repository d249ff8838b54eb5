//! Narrowing of performance queries to one market and/or one account: the
//! filter itself, the `AND` clauses it adds to a query with their numbered
//! placeholders, and the parameterised queries built on them.

use vstd::prelude::*;

use crate::text::{decimal_chars, push_decimal};

verus! {

/// Optional filters for narrowing performance analysis to a specific market
/// or account.
#[derive(Debug, Clone)]
pub struct PerformanceFilter {
    pub market: Option<String>,
    pub account_id: Option<String>,
}

/// A query text with its positional parameters: `?k` in the text stands for
/// `params[k - 1]`.
#[derive(Debug, Clone)]
pub struct SqlQuery {
    pub sql: String,
    pub params: Vec<String>,
}

/// The characters of an optional string.
pub open spec fn opt_chars(o: Option<String>) -> Option<Seq<char>> {
    match o {
        Some(s) => Some(s@),
        None => None,
    }
}

/// The characters of each string of a list.
pub open spec fn strings_view(v: Seq<String>) -> Seq<Seq<char>> {
    v.map_values(|s: String| s@)
}

/// ` AND market = ?k`
pub open spec fn market_clause(position: nat) -> Seq<char> {
    " AND market = ?"@ + decimal_chars(position)
}

/// ` AND account_id = ?k`
pub open spec fn account_clause(position: nat) -> Seq<char> {
    " AND account_id = ?"@ + decimal_chars(position)
}

/// The clause and parameter one optional condition adds when `count`
/// parameters are already bound: its placeholder is the next position.
pub open spec fn optional_clause(
    value: Option<Seq<char>>,
    is_market: bool,
    count: nat,
) -> (Seq<char>, Seq<Seq<char>>) {
    match value {
        Some(v) => (
            if is_market {
                market_clause(count + 1)
            } else {
                account_clause(count + 1)
            },
            seq![v],
        ),
        None => (Seq::empty(), Seq::empty()),
    }
}

/// The clauses and parameters of two optional conditions, the first one
/// first, numbered after the `count` parameters already bound.
pub open spec fn two_clauses(
    first: Option<Seq<char>>,
    first_is_market: bool,
    second: Option<Seq<char>>,
    count: nat,
) -> (Seq<char>, Seq<Seq<char>>) {
    let a = optional_clause(first, first_is_market, count);
    let b = optional_clause(second, !first_is_market, count + a.1.len());
    (a.0 + b.0, a.1 + b.1)
}

impl PerformanceFilter {
    /// The market condition, then the account condition: the order of the
    /// snapshot queries.
    pub open spec fn clauses(&self, count: nat) -> (Seq<char>, Seq<Seq<char>>) {
        two_clauses(opt_chars(self.market), true, opt_chars(self.account_id), count)
    }

    /// The account condition, then the market condition: the order of the
    /// transaction queries.
    pub open spec fn transaction_clauses(&self, count: nat) -> (Seq<char>, Seq<Seq<char>>) {
        two_clauses(opt_chars(self.account_id), false, opt_chars(self.market), count)
    }

    /// Whether the filter narrows anything.
    pub fn is_active(&self) -> (r: bool)
        ensures
            r == (self.market is Some || self.account_id is Some),
    {
        self.market.is_some() || self.account_id.is_some()
    }
}

impl Default for PerformanceFilter {
    fn default() -> (r: PerformanceFilter)
        ensures
            r.market is None,
            r.account_id is None,
    {
        PerformanceFilter { market: None, account_id: None }
    }
}

fn push_condition(sql: &mut String, params: &mut Vec<String>, value: &Option<String>, is_market: bool)
    ensures
        final(sql)@ == old(sql)@ + optional_clause(opt_chars(*value), is_market, old(params).len() as nat).0,
        strings_view(final(params)@) == strings_view(old(params)@) + optional_clause(
            opt_chars(*value),
            is_market,
            old(params).len() as nat,
        ).1,
{
    match value {
        Some(v) => {
            if is_market {
                sql.append(" AND market = ?");
            } else {
                sql.append(" AND account_id = ?");
            }
            let position: u128 = params.len() as u128 + 1;
            push_decimal(sql, position);
            let ghost before = params@;
            params.push(v.clone());
            assert(strings_view(params@) =~= strings_view(before) + seq![v@]);
        },
        None => {
            assert(sql@ =~= sql@ + Seq::<char>::empty());
            assert(strings_view(params@) =~= strings_view(params@) + Seq::<Seq<char>>::empty());
        },
    }
}

fn push_two_conditions(
    sql: &mut String,
    params: &mut Vec<String>,
    first: &Option<String>,
    first_is_market: bool,
    second: &Option<String>,
)
    ensures
        final(sql)@ == old(sql)@ + two_clauses(opt_chars(*first), first_is_market, opt_chars(*second), old(params).len() as nat).0,
        strings_view(final(params)@) == strings_view(old(params)@) + two_clauses(
            opt_chars(*first),
            first_is_market,
            opt_chars(*second),
            old(params).len() as nat,
        ).1,
{
    let ghost sql0 = sql@;
    let ghost p0 = params@;
    push_condition(sql, params, first, first_is_market);
    proof {
        let a = optional_clause(opt_chars(*first), first_is_market, p0.len() as nat);
        assert(strings_view(params@).len() == params@.len());
        assert(params@.len() == p0.len() + a.1.len());
    }
    push_condition(sql, params, second, !first_is_market);
    proof {
        let a = optional_clause(opt_chars(*first), first_is_market, p0.len() as nat);
        let b = optional_clause(opt_chars(*second), !first_is_market, p0.len() + a.1.len());
        assert(sql@ =~= sql0 + (a.0 + b.0));
        assert(strings_view(params@) =~= strings_view(p0) + (a.1 + b.1));
    }
}

impl PerformanceFilter {
    /// Appends the market and account conditions that are set, each with a
    /// placeholder numbered after the parameters already bound, and binds
    /// their values in the same order. Returns the number of parameters
    /// added.
    pub fn append_where_clauses(&self, sql: &mut String, params: &mut Vec<String>) -> (added: usize)
        ensures
            final(sql)@ == old(sql)@ + self.clauses(old(params).len() as nat).0,
            strings_view(final(params)@) == strings_view(old(params)@) + self.clauses(old(params).len() as nat).1,
            added == self.clauses(old(params).len() as nat).1.len(),
    {
        let before = params.len();
        push_two_conditions(sql, params, &self.market, true, &self.account_id);
        proof {
            assert(strings_view(params@).len() == params@.len());
            assert(strings_view(old(params)@).len() == old(params)@.len());
        }
        params.len() - before
    }

    /// Appends the account and market conditions that are set, in that
    /// order, as the transaction queries do.
    pub fn append_transaction_clauses(&self, sql: &mut String, params: &mut Vec<String>)
        ensures
            final(sql)@ == old(sql)@ + self.transaction_clauses(old(params).len() as nat).0,
            strings_view(final(params)@) == strings_view(old(params)@) + self.transaction_clauses(
                old(params).len() as nat,
            ).1,
    {
        push_two_conditions(sql, params, &self.account_id, false, &self.market);
    }
}

} // verus!

verus! {

/// Query head: per-day snapshot totals between `?1` and `?2`.
pub open spec fn daily_snapshot_head() -> Seq<char> {
    "SELECT date, SUM(market_value) as total_value\n         FROM daily_holding_snapshots\n         WHERE date BETWEEN ?1 AND ?2"@
}

/// Query head: snapshot total on the latest date before `?1`.
pub open spec fn previous_snapshot_head() -> Seq<char> {
    "SELECT SUM(market_value) FROM daily_holding_snapshots WHERE date = (SELECT MAX(date) FROM daily_holding_snapshots WHERE date < ?1"@
}

/// Query head: per-symbol snapshot values on the latest date up to `?1`.
pub open spec fn symbol_snapshot_head() -> Seq<char> {
    "SELECT symbol, market, COALESCE(category_name, '未分类'), SUM(market_value)\n             FROM daily_holding_snapshots\n             WHERE date = (\n                 SELECT MAX(date) FROM daily_holding_snapshots WHERE date <= ?1"@
}

/// Query head: the latest snapshot date up to `?1`.
pub open spec fn snapshot_date_head() -> Seq<char> {
    "SELECT MAX(date) FROM daily_holding_snapshots WHERE date <= ?1"@
}

/// Query head: per-symbol, per-type transaction sums after `?1` up to `?2`.
pub open spec fn cash_flow_head() -> Seq<char> {
    "SELECT symbol, transaction_type, SUM(total_amount)\n             FROM transactions\n             WHERE DATE(traded_at) > ?1 AND DATE(traded_at) <= ?2"@
}

impl PerformanceFilter {
    /// Daily totals of the filtered holdings between `start` and `end`,
    /// one row per date in date order.
    pub fn filtered_daily_values_query(&self, start: &str, end: &str) -> (q: SqlQuery)
        ensures
            q.sql@ == daily_snapshot_head() + self.clauses(2).0 + " GROUP BY date ORDER BY date ASC"@,
            strings_view(q.params@) == seq![start@, end@] + self.clauses(2).1,
    {
        let mut sql = String::new();
        sql.append("SELECT date, SUM(market_value) as total_value\n         FROM daily_holding_snapshots\n         WHERE date BETWEEN ?1 AND ?2");
        let mut params: Vec<String> = Vec::new();
        params.push(start.to_owned());
        params.push(end.to_owned());
        assert(strings_view(params@) =~= seq![start@, end@]);
        self.append_where_clauses(&mut sql, &mut params);
        sql.append(" GROUP BY date ORDER BY date ASC");
        SqlQuery { sql, params }
    }

    /// The filtered holdings' total on the latest snapshot date before
    /// `date`; the conditions narrow both the date lookup and the sum.
    pub fn previous_day_value_query(&self, date: &str) -> (q: SqlQuery)
        ensures
            q.sql@ == previous_snapshot_head() + self.clauses(1).0 + ")"@ + self.clauses(
                1 + self.clauses(1).1.len(),
            ).0,
            strings_view(q.params@) == seq![date@] + self.clauses(1).1 + self.clauses(
                1 + self.clauses(1).1.len(),
            ).1,
    {
        let mut sql = String::new();
        sql.append("SELECT SUM(market_value) FROM daily_holding_snapshots WHERE date = (SELECT MAX(date) FROM daily_holding_snapshots WHERE date < ?1");
        let mut params: Vec<String> = Vec::new();
        params.push(date.to_owned());
        assert(strings_view(params@) =~= seq![date@]);
        self.append_where_clauses(&mut sql, &mut params);
        sql.append(")");
        let ghost mid = strings_view(params@);
        self.append_where_clauses(&mut sql, &mut params);
        assert(mid.len() == 1 + self.clauses(1).1.len());
        assert(strings_view(params@) =~= seq![date@] + self.clauses(1).1 + self.clauses(
            1 + self.clauses(1).1.len(),
        ).1);
        SqlQuery { sql, params }
    }

    /// Per-symbol market, category and value of the filtered holdings on the
    /// latest snapshot date up to `date`.
    pub fn symbol_snapshot_query(&self, date: &str) -> (q: SqlQuery)
        ensures
            q.sql@ == symbol_snapshot_head() + self.clauses(1).0 + ")"@ + self.clauses(
                1 + self.clauses(1).1.len(),
            ).0 + " GROUP BY symbol"@,
            strings_view(q.params@) == seq![date@] + self.clauses(1).1 + self.clauses(
                1 + self.clauses(1).1.len(),
            ).1,
    {
        let mut sql = String::new();
        sql.append("SELECT symbol, market, COALESCE(category_name, '未分类'), SUM(market_value)\n             FROM daily_holding_snapshots\n             WHERE date = (\n                 SELECT MAX(date) FROM daily_holding_snapshots WHERE date <= ?1");
        let mut params: Vec<String> = Vec::new();
        params.push(date.to_owned());
        assert(strings_view(params@) =~= seq![date@]);
        self.append_where_clauses(&mut sql, &mut params);
        sql.append(")");
        let ghost mid = strings_view(params@);
        self.append_where_clauses(&mut sql, &mut params);
        sql.append(" GROUP BY symbol");
        assert(mid.len() == 1 + self.clauses(1).1.len());
        assert(strings_view(params@) =~= seq![date@] + self.clauses(1).1 + self.clauses(
            1 + self.clauses(1).1.len(),
        ).1);
        SqlQuery { sql, params }
    }

    /// The latest snapshot date of the filtered holdings up to `start`.
    pub fn snapshot_start_date_query(&self, start: &str) -> (q: SqlQuery)
        ensures
            q.sql@ == snapshot_date_head() + self.clauses(1).0,
            strings_view(q.params@) == seq![start@] + self.clauses(1).1,
    {
        let mut sql = String::new();
        sql.append("SELECT MAX(date) FROM daily_holding_snapshots WHERE date <= ?1");
        let mut params: Vec<String> = Vec::new();
        params.push(start.to_owned());
        assert(strings_view(params@) =~= seq![start@]);
        self.append_where_clauses(&mut sql, &mut params);
        SqlQuery { sql, params }
    }

    /// Per-symbol, per-type transaction sums after `actual_start` up to
    /// `end`, narrowed by account, then by market.
    pub fn period_cash_flows_query(&self, actual_start: &str, end: &str) -> (q: SqlQuery)
        ensures
            q.sql@ == cash_flow_head() + self.transaction_clauses(2).0 + " GROUP BY symbol, transaction_type"@,
            strings_view(q.params@) == seq![actual_start@, end@] + self.transaction_clauses(2).1,
    {
        let mut sql = String::new();
        sql.append("SELECT symbol, transaction_type, SUM(total_amount)\n             FROM transactions\n             WHERE DATE(traded_at) > ?1 AND DATE(traded_at) <= ?2");
        let mut params: Vec<String> = Vec::new();
        params.push(actual_start.to_owned());
        params.push(end.to_owned());
        assert(strings_view(params@) =~= seq![actual_start@, end@]);
        self.append_transaction_clauses(&mut sql, &mut params);
        sql.append(" GROUP BY symbol, transaction_type");
        SqlQuery { sql, params }
    }
}

} // verus!

verus! {

/// A filter that narrows nothing adds no condition and binds no parameter,
/// in either order.
pub proof fn lemma_inactive_filter_adds_nothing(f: PerformanceFilter, count: nat)
    requires
        f.market is None,
        f.account_id is None,
    ensures
        f.clauses(count).0.len() == 0,
        f.clauses(count).1.len() == 0,
        f.transaction_clauses(count).0.len() == 0,
        f.transaction_clauses(count).1.len() == 0,
{
}

/// An active filter adds at least one condition and binds a parameter for
/// it, in either order.
pub proof fn lemma_active_filter_binds(f: PerformanceFilter, count: nat)
    requires
        f.market is Some || f.account_id is Some,
    ensures
        f.clauses(count).0.len() > 0,
        f.clauses(count).1.len() > 0,
        f.transaction_clauses(count).0.len() > 0,
        f.transaction_clauses(count).1.len() > 0,
{
    let m = optional_clause(opt_chars(f.market), true, count);
    let a = optional_clause(opt_chars(f.account_id), false, count);
    if f.market is Some {
        assert(m.0.len() > 0);
    } else {
        assert(a.0.len() > 0);
    }
}

/// Both orders bind the same values, one per condition that is set.
pub proof fn lemma_orders_bind_same_values(f: PerformanceFilter, count: nat)
    ensures
        f.clauses(count).1.len() == f.transaction_clauses(count).1.len(),
        f.clauses(count).1.len() == (if f.market is Some {
            1int
        } else {
            0
        }) + (if f.account_id is Some {
            1int
        } else {
            0
        }),
        forall|v: Seq<char>| f.clauses(count).1.contains(v) <==> f.transaction_clauses(count).1.contains(v),
{
    let p = f.clauses(count).1;
    let q = f.transaction_clauses(count).1;
    assert forall|v: Seq<char>| p.contains(v) <==> q.contains(v) by {
        if p.contains(v) {
            let i = choose|i: int| 0 <= i < p.len() && p[i] == v;
            if f.market is Some && f.account_id is Some {
                assert(q[1 - i] == v);
            } else {
                assert(q[i] == v);
            }
        }
        if q.contains(v) {
            let i = choose|i: int| 0 <= i < q.len() && q[i] == v;
            if f.market is Some && f.account_id is Some {
                assert(p[1 - i] == v);
            } else {
                assert(p[i] == v);
            }
        }
    }
}

/// Each set value is bound to a placeholder of its own column, numbered
/// after the parameters already bound: the market value only to
/// ` AND market = ?k` and the account only to ` AND account_id = ?k`. The
/// snapshot order puts the market first, the transaction order the account.
pub proof fn lemma_clauses_name_their_columns(m: String, a: String, count: nat)
    ensures
        (PerformanceFilter { market: Some(m), account_id: None }).clauses(count) == (market_clause(count + 1), seq![m@]),
        (PerformanceFilter { market: Some(m), account_id: None }).transaction_clauses(count) == (
            market_clause(count + 1),
            seq![m@],
        ),
        (PerformanceFilter { market: None, account_id: Some(a) }).clauses(count) == (account_clause(count + 1), seq![a@]),
        (PerformanceFilter { market: None, account_id: Some(a) }).transaction_clauses(count) == (
            account_clause(count + 1),
            seq![a@],
        ),
        (PerformanceFilter { market: Some(m), account_id: Some(a) }).clauses(count) == (
            market_clause(count + 1) + account_clause(count + 2),
            seq![m@, a@],
        ),
        (PerformanceFilter { market: Some(m), account_id: Some(a) }).transaction_clauses(count) == (
            account_clause(count + 1) + market_clause(count + 2),
            seq![a@, m@],
        ),
{
    assert(Seq::<char>::empty() + Seq::<char>::empty() =~= Seq::<char>::empty());
    assert(Seq::<Seq<char>>::empty() + Seq::<Seq<char>>::empty() =~= Seq::<Seq<char>>::empty());
    assert(market_clause(count + 1) + Seq::<char>::empty() =~= market_clause(count + 1));
    assert(Seq::<char>::empty() + market_clause(count + 1) =~= market_clause(count + 1));
    assert(seq![m@] + Seq::<Seq<char>>::empty() =~= seq![m@]);
    assert(Seq::<Seq<char>>::empty() + seq![m@] =~= seq![m@]);
    assert(account_clause(count + 1) + Seq::<char>::empty() =~= account_clause(count + 1));
    assert(Seq::<char>::empty() + account_clause(count + 1) =~= account_clause(count + 1));
    assert(seq![a@] + Seq::<Seq<char>>::empty() =~= seq![a@]);
    assert(Seq::<Seq<char>>::empty() + seq![a@] =~= seq![a@]);
    assert(seq![m@] + seq![a@] =~= seq![m@, a@]);
    assert(seq![a@] + seq![m@] =~= seq![a@, m@]);
}

} // verus!
