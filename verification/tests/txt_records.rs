use ypbank_records::common::{TransactionStatus, TransactionType};
use ypbank_records::txt_format::{TextReader, TextRecordError, YPBankTextRecord};

fn sample_record() -> YPBankTextRecord {
    YPBankTextRecord {
        id: 1234567890,
        transaction_type: TransactionType::Transfer,
        from_user_id: 111,
        to_user_id: 222,
        amount: 1000,
        timestamp: 1633056800000,
        transaction_status: TransactionStatus::Failure,
        // the description is written as it is, quotes included
        description: "\"User transfer\"".to_string(),
    }
}

#[test]
fn write_to_writes_all_required_fields_and_blank_separator_line() {
    let mut rec = sample_record();

    let mut out = Vec::<u8>::new();

    rec.write_to(&mut out).unwrap();

    let bytes = out;
    let s = String::from_utf8(bytes).unwrap();

    assert!(s.contains("TX_ID: 1234567890\n"));
    assert!(s.contains("TX_TYPE: TRANSFER\n"));
    assert!(s.contains("FROM_USER_ID: 111\n"));
    assert!(s.contains("TO_USER_ID: 222\n"));
    assert!(s.contains("AMOUNT: 1000\n"));
    assert!(s.contains("TIMESTAMP: 1633056800000\n"));
    assert!(s.contains("STATUS: FAILURE\n"));

    assert!(s.contains("DESCRIPTION: \"User transfer\"\n"));

    assert!(s.ends_with("\n\n"), "expected record to end with a blank line separator, got: {s:?}");
}

#[test]
fn from_read_parses_record_with_arbitrary_field_order_and_ignores_comments() {
    let input = r#"
# leading comment
TX_ID: 2312321321
TIMESTAMP: 1633056800000
STATUS: FAILURE
TX_TYPE: TRANSFER
FROM_USER_ID: 123
TO_USER_ID: 987
AMOUNT: 1000
DESCRIPTION: "User transfer"

"#;

    let mut cur = TextReader::new(input.as_bytes().to_vec());
    let rec = YPBankTextRecord::from_read(&mut cur).unwrap();

    assert_eq!(rec.id, 2312321321);
    assert_eq!(rec.transaction_type, TransactionType::Transfer);
    assert_eq!(rec.from_user_id, 123);
    assert_eq!(rec.to_user_id, 987);
    assert_eq!(rec.amount, 1000);
    assert_eq!(rec.timestamp, 1633056800000);
    assert_eq!(rec.transaction_status, TransactionStatus::Failure);
    assert_eq!(rec.description, "\"User transfer\"");
}

#[test]
fn from_read_reads_two_records_separated_by_blank_line() {
    let input = r#"
# Record 1
TX_ID: 1
TX_TYPE: DEPOSIT
FROM_USER_ID: 0
TO_USER_ID: 10
AMOUNT: 100
TIMESTAMP: 1
STATUS: SUCCESS
DESCRIPTION: "Terminal deposit"

# Record 2
TX_ID: 2
TX_TYPE: WITHDRAWAL
FROM_USER_ID: 10
TO_USER_ID: 0
AMOUNT: 50
TIMESTAMP: 2
STATUS: PENDING
DESCRIPTION: "User withdrawal"
"#;

    let mut cur = TextReader::new(input.as_bytes().to_vec());

    let r1 = YPBankTextRecord::from_read(&mut cur).unwrap();
    let r2 = YPBankTextRecord::from_read(&mut cur).unwrap();

    // Record 1
    assert_eq!(r1.id, 1);
    assert_eq!(r1.transaction_type, TransactionType::Deposit);
    assert_eq!(r1.from_user_id, 0);
    assert_eq!(r1.to_user_id, 10);
    assert_eq!(r1.amount, 100);
    assert_eq!(r1.timestamp, 1);
    assert_eq!(r1.transaction_status, TransactionStatus::Success);
    assert_eq!(r1.description, "\"Terminal deposit\"");

    // Record 2
    assert_eq!(r2.id, 2);
    assert_eq!(r2.transaction_type, TransactionType::Withdrawal);
    assert_eq!(r2.from_user_id, 10);
    assert_eq!(r2.to_user_id, 0);
    assert_eq!(r2.amount, 50);
    assert_eq!(r2.timestamp, 2);
    assert_eq!(r2.transaction_status, TransactionStatus::Pending);
    assert_eq!(r2.description, "\"User withdrawal\"");
}

#[test]
fn from_read_parses_last_block_without_trailing_blank_line() {
    let input = r#"
TX_ID: 3
TX_TYPE: TRANSFER
FROM_USER_ID: 1
TO_USER_ID: 2
AMOUNT: 7
TIMESTAMP: 3
STATUS: SUCCESS
DESCRIPTION: "No trailing blank"
"#;

    let mut cur = TextReader::new(input.as_bytes().to_vec());
    let rec = YPBankTextRecord::from_read(&mut cur).unwrap();

    assert_eq!(rec.id, 3);
    assert_eq!(rec.description, "\"No trailing blank\"");
}

#[test]
fn from_read_errors_on_line_without_colon() {
    let input = r#"
TX_ID 123
TX_TYPE: DEPOSIT
FROM_USER_ID: 0
TO_USER_ID: 1
AMOUNT: 1
TIMESTAMP: 1
STATUS: SUCCESS
DESCRIPTION: "x"

"#;

    let mut cur = TextReader::new(input.as_bytes().to_vec());
    let err = YPBankTextRecord::from_read(&mut cur).unwrap_err();
    assert!(matches!(err, TextRecordError::MissingColonAfterKey));
}

#[test]
fn from_read_errors_on_invalid_data_types() {
    // 1. A negative id, where an unsigned number is expected
    let input_neg_id = r#"
TX_ID: -5
TX_TYPE: DEPOSIT
FROM_USER_ID: 0
TO_USER_ID: 10
AMOUNT: 100
TIMESTAMP: 1
STATUS: SUCCESS
DESCRIPTION: "Negative ID"
"#;
    let mut cur = TextReader::new(input_neg_id.as_bytes().to_vec());
    let err = YPBankTextRecord::from_read(&mut cur).unwrap_err();
    assert!(matches!(err, TextRecordError::ParseError { .. }));

    // 2. Text in place of a number in AMOUNT
    let input_bad_amount = r#"
TX_ID: 10
TX_TYPE: DEPOSIT
FROM_USER_ID: 0
TO_USER_ID: 10
AMOUNT: not_a_number
TIMESTAMP: 1
STATUS: SUCCESS
DESCRIPTION: "Bad Amount"
"#;
    let mut cur = TextReader::new(input_bad_amount.as_bytes().to_vec());
    let err = YPBankTextRecord::from_read(&mut cur).unwrap_err();
    assert!(matches!(err, TextRecordError::ParseError { .. }));

    // 3. A status that is none of the three
    let input_bad_status = r#"
TX_ID: 11
TX_TYPE: DEPOSIT
FROM_USER_ID: 0
TO_USER_ID: 10
AMOUNT: 100
TIMESTAMP: 1
STATUS: UNKNOWN_STATUS
DESCRIPTION: "Bad Status"
"#;
    let mut cur = TextReader::new(input_bad_status.as_bytes().to_vec());
    let err = YPBankTextRecord::from_read(&mut cur).unwrap_err();
    assert!(matches!(err, TextRecordError::ParseError { .. }));
}

#[test]
fn from_read_errors_on_empty_source() {
    let input = "";
    let mut cur = TextReader::new(input.as_bytes().to_vec());
    let err = YPBankTextRecord::from_read(&mut cur).unwrap_err();

    assert!(matches!(err, TextRecordError::SourceIsEmpty));
}

#[test]
fn from_read_ignores_extra_fields() {
    let input = r#"
TX_ID: 999
TX_TYPE: DEPOSIT
FROM_USER_ID: 10
TO_USER_ID: 20
AMOUNT: 500
TIMESTAMP: 123456789
STATUS: SUCCESS
DESCRIPTION: "Extra fields test"
UNKNOWN_FIELD: some_value
ANOTHER_ONE: 123
"#;
    let mut cur = TextReader::new(input.as_bytes().to_vec());
    let Err(_) = YPBankTextRecord::from_read(&mut cur) else {
        panic!("Extra field skipped.")
    };
}
