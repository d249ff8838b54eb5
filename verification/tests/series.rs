use portfolio_tracker::drawdown::{drawdown_spans, spans_from_day_numbers, DrawdownSpans};
use portfolio_tracker::monthly::{group_by_month, CalendarDate, MonthSpan};
use portfolio_tracker::quotes::{batch_outcome, body_excerpt, join_lines, quote_failure_message, QuoteSource};

fn d(year: i32, month: u32, day: u32) -> CalendarDate {
    CalendarDate { year, month, day }
}

#[test]
fn months_in_order_with_first_and_last_rows() {
    let dates = vec![d(2024, 1, 2), d(2024, 1, 31), d(2024, 2, 1), d(2024, 2, 29), d(2024, 3, 1)];
    let spans = group_by_month(&dates);
    assert_eq!(
        spans,
        vec![
            MonthSpan { year: 2024, month: 1, first: 0, last: 1 },
            MonthSpan { year: 2024, month: 2, first: 2, last: 3 },
            MonthSpan { year: 2024, month: 3, first: 4, last: 4 },
        ]
    );
}

#[test]
fn months_from_unsorted_rows() {
    let dates = vec![d(2024, 3, 5), d(2023, 12, 31), d(2024, 3, 1), d(2024, 3, 9), d(2024, 3, 9)];
    let spans = group_by_month(&dates);
    assert_eq!(
        spans,
        vec![
            MonthSpan { year: 2023, month: 12, first: 1, last: 1 },
            MonthSpan { year: 2024, month: 3, first: 0, last: 3 },
        ]
    );
}

#[test]
fn no_rows_no_months() {
    assert!(group_by_month(&Vec::new()).is_empty());
}

#[test]
fn drawdown_spans_in_days() {
    let s = drawdown_spans("2024-01-02", "2024-01-03", Some("2024-01-04"));
    assert_eq!(s, DrawdownSpans { drawdown_days: 1, recovery_days: Some(1) });
    let s = drawdown_spans("2023-12-31", "2024-03-01", None);
    assert_eq!(s, DrawdownSpans { drawdown_days: 61, recovery_days: None });
}

#[test]
fn unreadable_dates_give_zero_or_none() {
    let s = drawdown_spans("", "", None);
    assert_eq!(s, DrawdownSpans { drawdown_days: 0, recovery_days: None });
    let s = drawdown_spans("2024-02-30", "2024-03-01", Some("2024-03-05"));
    assert_eq!(s, DrawdownSpans { drawdown_days: 0, recovery_days: Some(4) });
    let s = drawdown_spans("2024-01-01", "not a date", Some("2024-03-05"));
    assert_eq!(s, DrawdownSpans { drawdown_days: 0, recovery_days: None });
}

#[test]
fn spans_from_read_days() {
    let s = spans_from_day_numbers(Some(10), Some(15), Some(Some(40)));
    assert_eq!(s, DrawdownSpans { drawdown_days: 5, recovery_days: Some(25) });
    let s = spans_from_day_numbers(Some(i32::MIN), Some(i32::MAX), Some(None));
    assert_eq!(s, DrawdownSpans { drawdown_days: i32::MAX as i64 - i32::MIN as i64, recovery_days: None });
}

#[test]
fn failure_message_names_symbol() {
    assert_eq!(quote_failure_message("BTC", "timeout"), "获取 BTC 行情失败: timeout");
}

#[test]
fn batch_fails_only_when_nothing_succeeded() {
    let errors = vec!["e1".to_string(), "e2".to_string()];
    assert_eq!(batch_outcome(QuoteSource::Crypto, 0, &errors), Err("所有币种行情获取失败:\ne1\ne2".to_string()));
    assert_eq!(batch_outcome(QuoteSource::TradFi, 0, &errors), Err("所有 TradFi 行情获取失败:\ne1\ne2".to_string()));
    assert_eq!(batch_outcome(QuoteSource::Crypto, 1, &errors), Ok(()));
    assert_eq!(batch_outcome(QuoteSource::Crypto, 0, &Vec::new()), Ok(()));
}

#[test]
fn lines_join_with_newlines() {
    assert_eq!(join_lines(&vec![]), "");
    assert_eq!(join_lines(&vec!["a".to_string()]), "a");
    assert_eq!(join_lines(&vec!["a".to_string(), "".to_string(), "c".to_string()]), "a\n\nc");
}

#[test]
fn body_excerpt_keeps_first_300_bytes() {
    let long = "x".repeat(500);
    assert_eq!(body_excerpt(&long).len(), 300);
    assert_eq!(body_excerpt("short"), "short");
}

#[test]
fn drawdown_and_recovery_add_up() {
    let s = drawdown_spans("2024-01-01", "2024-01-10", Some("2024-02-01"));
    assert_eq!(s.drawdown_days, 9);
    assert_eq!(s.recovery_days, Some(22));
    let whole = drawdown_spans("2024-01-01", "2024-02-01", None);
    assert_eq!(s.drawdown_days + s.recovery_days.unwrap(), whole.drawdown_days);
}
