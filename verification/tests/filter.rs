use portfolio_tracker::filter::SqlQuery;
use portfolio_tracker::PerformanceFilter;

fn filter(market: Option<&str>, account: Option<&str>) -> PerformanceFilter {
    PerformanceFilter { market: market.map(|s| s.to_string()), account_id: account.map(|s| s.to_string()) }
}

#[test]
fn default_filter_is_inactive() {
    let f = PerformanceFilter::default();
    assert!(!f.is_active());
    assert!(f.market.is_none() && f.account_id.is_none());
}

#[test]
fn any_field_makes_filter_active() {
    assert!(filter(Some("US"), None).is_active());
    assert!(filter(None, Some("acc-1")).is_active());
    assert!(filter(Some("HK"), Some("acc-1")).is_active());
}

#[test]
fn inactive_filter_appends_nothing() {
    let mut sql = String::from("SELECT 1 WHERE x = ?1");
    let mut params = vec!["a".to_string()];
    filter(None, None).append_where_clauses(&mut sql, &mut params);
    assert_eq!(sql, "SELECT 1 WHERE x = ?1");
    assert_eq!(params, vec!["a".to_string()]);
}

#[test]
fn clauses_number_placeholders_after_bound_params() {
    let mut sql = String::from("WHERE date <= ?1");
    let mut params = vec!["2024-01-01".to_string()];
    filter(Some("US"), Some("acc-7")).append_where_clauses(&mut sql, &mut params);
    assert_eq!(sql, "WHERE date <= ?1 AND market = ?2 AND account_id = ?3");
    assert_eq!(params, vec!["2024-01-01", "US", "acc-7"]);
}

#[test]
fn transaction_clauses_put_account_first() {
    let mut sql = String::new();
    let mut params = vec!["s".to_string(), "e".to_string()];
    filter(Some("CN"), Some("acc-2")).append_transaction_clauses(&mut sql, &mut params);
    assert_eq!(sql, " AND account_id = ?3 AND market = ?4");
    assert_eq!(params, vec!["s", "e", "acc-2", "CN"]);
}

#[test]
fn placeholder_numbers_past_nine() {
    let mut sql = String::new();
    let mut params: Vec<String> = (0..10).map(|i| i.to_string()).collect();
    filter(None, Some("x")).append_where_clauses(&mut sql, &mut params);
    assert_eq!(sql, " AND account_id = ?11");
    assert_eq!(params.len(), 11);
}

#[test]
fn filtered_daily_values_query_text() {
    let q: SqlQuery = filter(Some("US"), None).filtered_daily_values_query("2024-01-01", "2024-03-31");
    assert_eq!(
        q.sql,
        "SELECT date, SUM(market_value) as total_value\n         FROM daily_holding_snapshots\n         WHERE date BETWEEN ?1 AND ?2 AND market = ?3 GROUP BY date ORDER BY date ASC"
    );
    assert_eq!(q.params, vec!["2024-01-01", "2024-03-31", "US"]);
}

#[test]
fn previous_day_query_filters_inner_and_outer() {
    let q = filter(Some("HK"), Some("a1")).previous_day_value_query("2024-02-01");
    assert_eq!(
        q.sql,
        "SELECT SUM(market_value) FROM daily_holding_snapshots WHERE date = (SELECT MAX(date) FROM daily_holding_snapshots WHERE date < ?1 AND market = ?2 AND account_id = ?3) AND market = ?4 AND account_id = ?5"
    );
    assert_eq!(q.params, vec!["2024-02-01", "HK", "a1", "HK", "a1"]);
}

#[test]
fn symbol_snapshot_query_text() {
    let q = filter(None, Some("a9")).symbol_snapshot_query("2024-05-31");
    assert!(q.sql.starts_with("SELECT symbol, market, COALESCE(category_name, '未分类'), SUM(market_value)"));
    assert!(q.sql.ends_with("WHERE date <= ?1 AND account_id = ?2) AND account_id = ?3 GROUP BY symbol"));
    assert_eq!(q.params, vec!["2024-05-31", "a9", "a9"]);
}

#[test]
fn snapshot_start_date_query_text() {
    let q = filter(None, None).snapshot_start_date_query("2024-01-01");
    assert_eq!(q.sql, "SELECT MAX(date) FROM daily_holding_snapshots WHERE date <= ?1");
    assert_eq!(q.params, vec!["2024-01-01"]);
}

#[test]
fn cash_flow_query_text() {
    let q = filter(Some("US"), Some("a3")).period_cash_flows_query("2024-01-01", "2024-06-30");
    assert_eq!(
        q.sql,
        "SELECT symbol, transaction_type, SUM(total_amount)\n             FROM transactions\n             WHERE DATE(traded_at) > ?1 AND DATE(traded_at) <= ?2 AND account_id = ?3 AND market = ?4 GROUP BY symbol, transaction_type"
    );
    assert_eq!(q.params, vec!["2024-01-01", "2024-06-30", "a3", "US"]);
}

#[test]
fn append_reports_parameters_added() {
    let mut sql = String::new();
    let mut params: Vec<String> = Vec::new();
    assert_eq!(filter(None, None).append_where_clauses(&mut sql, &mut params), 0);
    assert_eq!(filter(Some("US"), None).append_where_clauses(&mut sql, &mut params), 1);
    assert_eq!(filter(Some("US"), Some("a")).append_where_clauses(&mut sql, &mut params), 2);
    assert_eq!(params.len(), 3);
    assert_eq!(sql, " AND market = ?1 AND market = ?2 AND account_id = ?3");
}
