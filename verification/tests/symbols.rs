use portfolio_tracker::symbols::{
    benchmark_chart_url, binance_symbol_from_upper, binance_ticker_url, gateio_pair_from_upper,
    gateio_ticker_url, pair_base_name, split_symbols,
};
use portfolio_tracker::text::trim;
use portfolio_tracker::{to_binance_symbol, to_gateio_pair};

#[test]
fn gateio_pair_adds_usdt_quote() {
    assert_eq!(to_gateio_pair("btc"), "BTC_USDT");
    assert_eq!(to_gateio_pair("Eth"), "ETH_USDT");
}

#[test]
fn gateio_pair_keeps_explicit_pairs() {
    assert_eq!(to_gateio_pair("eth_btc"), "ETH_BTC");
    assert_eq!(gateio_pair_from_upper("SOL_USDT".to_string()), "SOL_USDT");
}

#[test]
fn gateio_pair_is_stable() {
    let once = to_gateio_pair("doge");
    assert_eq!(to_gateio_pair(&once), once);
}

#[test]
fn binance_symbol_adds_usdt_suffix() {
    assert_eq!(to_binance_symbol("hood"), "HOODUSDT");
    assert_eq!(binance_symbol_from_upper("BTC".to_string()), "BTCUSDT");
}

#[test]
fn binance_symbol_keeps_usdt_symbols() {
    assert_eq!(to_binance_symbol("btcusdt"), "BTCUSDT");
    let once = to_binance_symbol("aapl");
    assert_eq!(to_binance_symbol(&once), once);
}

#[test]
fn empty_symbol_maps_to_quote_only() {
    assert_eq!(to_gateio_pair(""), "_USDT");
    assert_eq!(to_binance_symbol(""), "USDT");
}

#[test]
fn base_name_is_part_before_underscore() {
    assert_eq!(pair_base_name("BTC_USDT"), "BTC");
    assert_eq!(pair_base_name("ETH"), "ETH");
    assert_eq!(pair_base_name("_USDT"), "");
    assert_eq!(pair_base_name(&to_gateio_pair("sol")), "SOL");
}

#[test]
fn symbol_list_is_split_and_trimmed() {
    assert_eq!(split_symbols("BTC, ETH ,SOL"), vec!["BTC", "ETH", "SOL"]);
    assert_eq!(split_symbols(" BTC\t"), vec!["BTC"]);
}

#[test]
fn symbol_list_keeps_empty_entries() {
    assert_eq!(split_symbols(""), vec![""]);
    assert_eq!(split_symbols("BTC,,ETH,"), vec!["BTC", "", "ETH", ""]);
}

#[test]
fn quote_urls() {
    assert_eq!(
        gateio_ticker_url("BTC_USDT"),
        "https://api.gateio.ws/api/v4/spot/tickers?currency_pair=BTC_USDT"
    );
    assert_eq!(
        binance_ticker_url("HOODUSDT"),
        "https://api.binance.com/api/v3/ticker/24hr?symbol=HOODUSDT"
    );
}

#[test]
fn chart_url_formats_timestamps() {
    assert_eq!(
        benchmark_chart_url("^GSPC", 1704067200, 1706745599),
        "https://query1.finance.yahoo.com/v8/finance/chart/^GSPC?period1=1704067200&period2=1706745599&interval=1d"
    );
    assert_eq!(
        benchmark_chart_url("SPY", -86400, 0),
        "https://query1.finance.yahoo.com/v8/finance/chart/SPY?period1=-86400&period2=0&interval=1d"
    );
    assert_eq!(
        benchmark_chart_url("SPY", i64::MIN, i64::MAX),
        format!(
            "https://query1.finance.yahoo.com/v8/finance/chart/SPY?period1={}&period2={}&interval=1d",
            i64::MIN,
            i64::MAX
        )
    );
}

#[test]
fn split_then_join_gives_back_the_list() {
    let list = "BTC,ETH,,SOL,";
    assert_eq!(split_symbols(list).join(","), list);
    for piece in split_symbols(" A , B,C ") {
        assert!(!piece.contains(','));
    }
}

#[test]
fn split_symbols_trims_unicode_white_space() {
    assert_eq!(split_symbols("\u{2003}BTC\u{3000},\u{85}ETH\n"), vec!["BTC", "ETH"]);
    // U+200B (zero width space) is not white space, so it stays.
    assert_eq!(split_symbols("\u{200b}BTC"), vec!["\u{200b}BTC"]);
}

#[test]
fn trim_agrees_with_str_trim() {
    let samples = [
        "",
        "   ",
        " a ",
        "\t\n\u{b}\u{c}\r x y \u{a0}",
        "\u{1680}\u{2000}\u{200a}\u{2028}\u{2029}\u{202f}\u{205f}\u{3000}z",
        "\u{200b}q\u{feff}",
        "no-space",
    ];
    for s in samples {
        assert_eq!(trim(s), s.trim());
    }
}
