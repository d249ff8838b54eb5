use portfolio_tracker::attribution::{
    attributed_symbols, attribution_group, cash_flow_kind, holding_display_name, is_cash_symbol, market_label,
    ranked_holding_name, ranking_key, CashFlow, RankingKey,
};
use portfolio_tracker::contract::{
    default_asset_type, entry_liquidation_terms, merge_spot_details, non_empty_or, pnl_direction,
    position_side, stored_liquidation_terms, LiquidationTerms, PositionSide,
    SpotDetails, SpotDetailsEdit,
};
use portfolio_tracker::schema::schema_allows_pay;

#[test]
fn cash_flow_of_transaction_types() {
    assert_eq!(cash_flow_kind("BUY"), CashFlow::Invested);
    assert_eq!(cash_flow_kind("OPEN"), CashFlow::Invested);
    assert_eq!(cash_flow_kind("SELL"), CashFlow::Withdrawn);
    assert_eq!(cash_flow_kind("PAY"), CashFlow::NoEffect);
    assert_eq!(cash_flow_kind("buy"), CashFlow::NoEffect);
    assert_eq!(cash_flow_kind(""), CashFlow::NoEffect);
}

#[test]
fn cash_symbols() {
    assert!(is_cash_symbol("$CASH-CNY"));
    assert!(is_cash_symbol("$CASH-USD"));
    assert!(!is_cash_symbol("AAPL"));
    assert!(!is_cash_symbol("$CASH"));
}

#[test]
fn market_labels() {
    assert_eq!(market_label("US"), "🇺🇸 美股");
    assert_eq!(market_label("CN"), "🇨🇳 A股");
    assert_eq!(market_label("HK"), "🇭🇰 港股");
    assert_eq!(market_label("CRYPTO"), "CRYPTO");
}

#[test]
fn display_names() {
    assert_eq!(holding_display_name("AAPL".into(), Some("Apple".into())), "AAPL Apple");
    assert_eq!(holding_display_name("AAPL".into(), Some("".into())), "AAPL");
    assert_eq!(holding_display_name("AAPL".into(), Some("AAPL".into())), "AAPL");
    assert_eq!(holding_display_name("AAPL".into(), None), "AAPL");
}

#[test]
fn attribution_group_prefers_start() {
    let start = Some(("US".to_string(), "成长股".to_string()));
    let end = Some(("HK".to_string(), "分红股".to_string()));
    assert_eq!(attribution_group(start.clone(), end.clone()), ("US".to_string(), "成长股".to_string()));
    assert_eq!(attribution_group(None, end), ("HK".to_string(), "分红股".to_string()));
    assert_eq!(attribution_group(None, None), ("Unknown".to_string(), "未分类".to_string()));
}

#[test]
fn ranked_names_fall_back_to_symbol() {
    let sym = "0700".to_string();
    assert_eq!(ranked_holding_name(&sym, Some("腾讯".into())), "腾讯");
    assert_eq!(ranked_holding_name(&sym, Some("".into())), "0700");
    assert_eq!(ranked_holding_name(&sym, None), "0700");
}

#[test]
fn ranking_keys() {
    assert_eq!(ranking_key("pnl"), RankingKey::Pnl);
    assert_eq!(ranking_key("return_rate"), RankingKey::ReturnRate);
    assert_eq!(ranking_key(""), RankingKey::ReturnRate);
}

#[test]
fn pnl_direction_by_side() {
    assert_eq!(pnl_direction("long"), 1);
    assert_eq!(pnl_direction("short"), -1);
    assert_eq!(pnl_direction("LONG"), -1);
    assert_eq!(position_side("long"), Some(PositionSide::Long));
    assert_eq!(position_side("short"), Some(PositionSide::Short));
    assert_eq!(position_side("flat"), None);
}

#[test]
fn stored_liquidation_rules() {
    assert_eq!(stored_liquidation_terms("tradfi", "long", true), None);
    assert_eq!(
        stored_liquidation_terms("crypto", "long", true),
        Some(LiquidationTerms { side: PositionSide::Long, rate_added: true })
    );
    assert_eq!(
        stored_liquidation_terms("crypto", "short", true),
        Some(LiquidationTerms { side: PositionSide::Short, rate_added: true })
    );
    assert_eq!(stored_liquidation_terms("crypto", "long", false), None);
    assert_eq!(stored_liquidation_terms("crypto", "hedge", true), None);
}

#[test]
fn entry_liquidation_rules() {
    assert_eq!(
        entry_liquidation_terms("crypto", "long", true),
        Some(LiquidationTerms { side: PositionSide::Long, rate_added: true })
    );
    assert_eq!(
        entry_liquidation_terms("crypto", "short", true),
        Some(LiquidationTerms { side: PositionSide::Short, rate_added: false })
    );
    assert_eq!(entry_liquidation_terms("tradfi", "long", true), None);
    assert_eq!(entry_liquidation_terms("crypto", "long", false), None);
}

#[test]
fn asset_type_defaults_to_crypto() {
    assert_eq!(default_asset_type(String::new()), "crypto");
    assert_eq!(default_asset_type("tradfi".into()), "tradfi");
}

#[test]
fn empty_edit_fields_keep_stored() {
    assert_eq!(non_empty_or(String::new(), "BTC".into()), "BTC");
    assert_eq!(non_empty_or("ETH".into(), "BTC".into()), "ETH");
}

#[test]
fn spot_edit_merges_fields() {
    let stored = SpotDetails {
        symbol: "BTC".into(),
        name: Some("Bitcoin".into()),
        exchange: Some("Binance".into()),
        notes: None,
    };
    let edit = SpotDetailsEdit { symbol: None, name: None, exchange: Some("OKX".into()), notes: Some("cold".into()) };
    let merged = merge_spot_details(edit.clone(), stored.clone());
    assert_eq!(merged.symbol, "BTC");
    assert_eq!(merged.name.as_deref(), Some("Bitcoin"));
    assert_eq!(merged.exchange.as_deref(), Some("OKX"));
    assert_eq!(merged.notes.as_deref(), Some("cold"));
    let again = merge_spot_details(edit, merged.clone());
    assert_eq!(again.exchange, merged.exchange);
    assert_eq!(again.notes, merged.notes);
    let none = SpotDetailsEdit { symbol: None, name: None, exchange: None, notes: None };
    let kept = merge_spot_details(none, stored.clone());
    assert_eq!(kept.symbol, stored.symbol);
    assert_eq!(kept.name, stored.name);
    assert_eq!(kept.exchange, stored.exchange);
    assert_eq!(kept.notes, stored.notes);
}

#[test]
fn schema_pay_check() {
    assert!(schema_allows_pay(
        "CREATE TABLE transactions (transaction_type TEXT NOT NULL CHECK(transaction_type IN ('BUY', 'SELL', 'OPEN', 'PAY')))"
    ));
    assert!(!schema_allows_pay("CHECK(transaction_type IN ('BUY', 'SELL', 'OPEN'))"));
    assert!(!schema_allows_pay(""));
}

#[test]
fn attributed_symbols_union_without_cash() {
    let start = vec!["AAPL".to_string(), "$CASH-USD".to_string(), "0700".to_string()];
    let end = vec!["0700".to_string(), "TSLA".to_string(), "$CASH-HKD".to_string(), "AAPL".to_string()];
    let mut got = attributed_symbols(&start, &end);
    got.sort();
    assert_eq!(got, vec!["0700", "AAPL", "TSLA"]);
    assert!(attributed_symbols(&Vec::new(), &Vec::new()).is_empty());
}
