use payment_gateway::money::{format_currency, parse_currency, CurrencyError};
use payment_gateway::payment::processing_fee;

#[test]
fn test_format_currency() {
    assert_eq!(format_currency(1000), "$10.00");
    assert_eq!(format_currency(2550), "$25.50");
}

#[test]
fn format_currency_small_and_large_amounts() {
    assert_eq!(format_currency(0), "$0.00");
    assert_eq!(format_currency(5), "$0.05");
    assert_eq!(format_currency(99), "$0.99");
    assert_eq!(format_currency(123456789), "$1234567.89");
    assert_eq!(format_currency(u64::MAX), "$184467440737095516.15");
}

#[test]
fn fee_is_five_percent_rounded_down() {
    assert_eq!(processing_fee(1000), 50);
    assert_eq!(processing_fee(2200), 110);
    assert_eq!(processing_fee(500), 25);
    assert_eq!(processing_fee(19), 0);
    assert_eq!(processing_fee(39), 1);
    assert_eq!(processing_fee(u64::MAX), u64::MAX / 20);
}

#[test]
fn parse_currency_reads_dollar_texts() {
    assert_eq!(parse_currency("$10.00"), Ok(1000));
    assert_eq!(parse_currency("$25.50"), Ok(2550));
    assert_eq!(parse_currency("$1,234.50"), Ok(123450));
    assert_eq!(parse_currency("25.5"), Ok(2550));
    assert_eq!(parse_currency("0.05"), Ok(5));
    assert_eq!(parse_currency("0.29"), Ok(29));
    assert_eq!(parse_currency(".5"), Ok(50));
    assert_eq!(parse_currency("5."), Ok(500));
    assert_eq!(parse_currency("+3"), Ok(300));
    assert_eq!(parse_currency("1.999"), Ok(199));
    assert_eq!(parse_currency("184467440737095516.15"), Ok(u64::MAX));
}

#[test]
fn parse_currency_rejects_bad_texts() {
    for s in ["", "$", ".", "+", "abc", "1.2.3", "-5", "1e3", " 1", "1 "] {
        assert_eq!(parse_currency(s), Err(CurrencyError::Invalid), "input {:?}", s);
    }
    assert_eq!(parse_currency("184467440737095516.16"), Err(CurrencyError::TooLarge));
    assert_eq!(parse_currency("99999999999999999999999"), Err(CurrencyError::TooLarge));
}

#[test]
fn format_then_parse_gives_back_the_amount() {
    for amount in [0u64, 1, 99, 100, 2550, 123456789, u64::MAX] {
        assert_eq!(parse_currency(&format_currency(amount)), Ok(amount));
    }
}
