use ypbank_records::common::{TransactionStatus, TransactionType};
use ypbank_records::decimal::{digit, parse_u32, parse_u64, push_decimal};

fn chars(s: &str) -> Vec<char> {
    s.chars().collect()
}

fn decimal_text(n: u64) -> String {
    let mut out = Vec::new();
    push_decimal(&mut out, n);
    out.into_iter().collect()
}

#[test]
fn transaction_type_reads_its_three_wire_names() {
    assert_eq!(TransactionType::from_str("DEPOSIT"), Ok(TransactionType::Deposit));
    assert_eq!(TransactionType::from_str("TRANSFER"), Ok(TransactionType::Transfer));
    assert_eq!(TransactionType::from_str("WITHDRAWAL"), Ok(TransactionType::Withdrawal));
}

#[test]
fn transaction_type_refuses_any_other_spelling() {
    assert_eq!(TransactionType::from_str("deposit"), Err(()));
    assert_eq!(TransactionType::from_str("Deposit"), Err(()));
    assert_eq!(TransactionType::from_str(" DEPOSIT"), Err(()));
    assert_eq!(TransactionType::from_str("DEPOSITS"), Err(()));
    assert_eq!(TransactionType::from_str(""), Err(()));
    assert_eq!(TransactionType::from_str("PENDING"), Err(()));
}

#[test]
fn transaction_status_reads_its_three_wire_names() {
    assert_eq!(TransactionStatus::from_str("PENDING"), Ok(TransactionStatus::Pending));
    assert_eq!(TransactionStatus::from_str("SUCCESS"), Ok(TransactionStatus::Success));
    assert_eq!(TransactionStatus::from_str("FAILURE"), Ok(TransactionStatus::Failure));
}

#[test]
fn transaction_status_refuses_any_other_spelling() {
    assert_eq!(TransactionStatus::from_str("UNKNOWN_STATUS"), Err(()));
    assert_eq!(TransactionStatus::from_str("success"), Err(()));
    assert_eq!(TransactionStatus::from_str("SUCCESS "), Err(()));
    assert_eq!(TransactionStatus::from_str(""), Err(()));
    assert_eq!(TransactionStatus::from_str("DEPOSIT"), Err(()));
}

#[test]
fn enumerations_parse_through_the_std_trait() {
    assert_eq!("TRANSFER".parse::<TransactionType>(), Ok(TransactionType::Transfer));
    assert_eq!("nope".parse::<TransactionType>(), Err(()));
    assert_eq!("FAILURE".parse::<TransactionStatus>(), Ok(TransactionStatus::Failure));
    assert_eq!("nope".parse::<TransactionStatus>(), Err(()));
}

#[test]
fn wire_names_are_written_in_upper_case() {
    assert_eq!(TransactionType::Deposit.as_str(), "DEPOSIT");
    assert_eq!(TransactionType::Transfer.as_str(), "TRANSFER");
    assert_eq!(TransactionType::Withdrawal.as_str(), "WITHDRAWAL");
    assert_eq!(TransactionStatus::Pending.to_string(), "PENDING");
    assert_eq!(TransactionStatus::Success.to_string(), "SUCCESS");
    assert_eq!(TransactionStatus::Failure.to_string(), "FAILURE");
    assert_eq!(TransactionType::Withdrawal.to_string(), "WITHDRAWAL");
    assert_eq!(TransactionStatus::Pending.as_str(), "PENDING");
}

#[test]
fn every_variant_is_read_back_from_its_wire_name() {
    for kind in [TransactionType::Deposit, TransactionType::Transfer, TransactionType::Withdrawal] {
        assert_eq!(TransactionType::from_str(kind.as_str()), Ok(kind));
        assert_eq!(TransactionType::from_chars(&chars(kind.as_str())), Some(kind));
    }
    for status in [TransactionStatus::Pending, TransactionStatus::Success, TransactionStatus::Failure] {
        assert_eq!(TransactionStatus::from_str(status.as_str()), Ok(status));
        assert_eq!(TransactionStatus::from_chars(&chars(status.as_str())), Some(status));
    }
}

#[test]
fn digits_are_the_ten_ascii_digits() {
    for c in '0'..='9' {
        assert!(digit(c));
    }
    assert!(!digit('/'));
    assert!(!digit(':'));
    assert!(!digit('a'));
    assert!(!digit('\u{0661}'));
}

#[test]
fn unsigned_decimals_are_read() {
    assert_eq!(parse_u32(&chars("0")), Some(0));
    assert_eq!(parse_u32(&chars("1001")), Some(1001));
    assert_eq!(parse_u32(&chars("007")), Some(7));
    assert_eq!(parse_u32(&chars("+5")), Some(5));
    assert_eq!(parse_u32(&chars("4294967295")), Some(u32::MAX));
    assert_eq!(parse_u64(&chars("1672531200000")), Some(1672531200000));
    assert_eq!(parse_u64(&chars("18446744073709551615")), Some(u64::MAX));
    assert_eq!(parse_u64(&chars("00018446744073709551615")), Some(u64::MAX));
}

#[test]
fn text_that_is_no_unsigned_decimal_is_refused() {
    for text in ["", "+", "-", "-5", "--5", "+-5", "5-", "12a", "a12", " 5", "5 ", "1_000", "1.0", "0x10", "not_a_number", "\u{0661}"] {
        assert_eq!(parse_u32(&chars(text)), None, "{text:?}");
        assert_eq!(parse_u64(&chars(text)), None, "{text:?}");
    }
}

#[test]
fn numbers_that_do_not_fit_are_refused() {
    assert_eq!(parse_u32(&chars("4294967296")), None);
    assert_eq!(parse_u64(&chars("4294967296")), Some(4294967296));
    assert_eq!(parse_u64(&chars("18446744073709551616")), None);
    assert_eq!(parse_u64(&chars("99999999999999999999999999")), None);
    assert_eq!(parse_u32(&chars("99999999999999999999999999")), None);
}

#[test]
fn reading_agrees_with_std_on_a_range_of_texts() {
    let samples = ["0", "9", "10", "+0", "+10", "0010", "65535", "4294967295", "4294967296", "", "+", "-1", "1e3", "٣"];
    for text in samples {
        assert_eq!(parse_u32(&chars(text)), text.parse::<u32>().ok(), "{text:?}");
        assert_eq!(parse_u64(&chars(text)), text.parse::<u64>().ok(), "{text:?}");
    }
}

#[test]
fn numbers_are_written_in_shortest_decimal() {
    assert_eq!(decimal_text(0), "0");
    assert_eq!(decimal_text(7), "7");
    assert_eq!(decimal_text(10), "10");
    assert_eq!(decimal_text(1001), "1001");
    assert_eq!(decimal_text(1672531200000), "1672531200000");
    assert_eq!(decimal_text(u64::MAX), "18446744073709551615");
}

#[test]
fn push_decimal_appends_and_keeps_what_was_there() {
    let mut out = vec!['x', '='];
    push_decimal(&mut out, 42);
    assert_eq!(out, vec!['x', '=', '4', '2']);
}

#[test]
fn a_written_number_is_read_back() {
    for n in [0u64, 1, 9, 10, 99, 100, 4294967295, 4294967296, u64::MAX] {
        assert_eq!(parse_u64(&chars(&decimal_text(n))), Some(n));
    }
    for n in [0u32, 1, 501, 50000, u32::MAX] {
        assert_eq!(parse_u32(&chars(&decimal_text(n as u64))), Some(n));
    }
}
