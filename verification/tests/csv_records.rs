use ypbank_records::common::{TransactionStatus, TransactionType};
use ypbank_records::csv_format::{CsvRecordError, YPBankCsvRecord};
use ypbank_records::{Parser, Serializer};

fn sample_record() -> YPBankCsvRecord {
    YPBankCsvRecord {
        id: 1001,
        transaction_type: TransactionType::Deposit,
        from_user_id: 0,
        to_user_id: 501,
        amount: 50000,
        timestamp: 1672531200000,
        transaction_status: TransactionStatus::Success,
        description: "Initial account funding".to_string(),
    }
}

#[test]
fn read_parses_single_record_correctly() {
    let csv_data = "\
TX_ID,TX_TYPE,FROM_USER_ID,TO_USER_ID,AMOUNT,TIMESTAMP,STATUS,DESCRIPTION
1001,DEPOSIT,0,501,50000,1672531200000,SUCCESS,\"Initial account funding\"
";
    let source = csv_data.as_bytes().to_vec();
    let mut parser = Parser::<YPBankCsvRecord, _, _>::new(source);

    let record = parser.next()
        .expect("Should have a record")
        .expect("Should parse successfully");

    assert_eq!(record, sample_record());
    assert!(parser.next().is_none());
}

#[test]
fn read_parses_multiple_records() {
    let csv_data = "\
TX_ID,TX_TYPE,FROM_USER_ID,TO_USER_ID,AMOUNT,TIMESTAMP,STATUS,DESCRIPTION
1,DEPOSIT,0,10,100,1000,SUCCESS,\"Desc 1\"
2,WITHDRAWAL,10,0,50,2000,PENDING,\"Desc 2\"
";
    let source = csv_data.as_bytes().to_vec();
    let mut parser = Parser::<YPBankCsvRecord, _, _>::new(source);

    let r1 = parser.next().unwrap().unwrap();
    assert_eq!(r1.id, 1);
    assert_eq!(r1.transaction_type, TransactionType::Deposit);
    assert_eq!(r1.from_user_id, 0);
    assert_eq!(r1.to_user_id, 10);
    assert_eq!(r1.amount, 100);
    assert_eq!(r1.timestamp, 1000);
    assert_eq!(r1.transaction_status, TransactionStatus::Success);
    assert_eq!(r1.description, "Desc 1");

    let r2 = parser.next().unwrap().unwrap();
    assert_eq!(r2.id, 2);
    assert_eq!(r2.transaction_type, TransactionType::Withdrawal);
    assert_eq!(r2.from_user_id, 10);
    assert_eq!(r2.to_user_id, 0);
    assert_eq!(r2.amount, 50);
    assert_eq!(r2.timestamp, 2000);
    assert_eq!(r2.transaction_status, TransactionStatus::Pending);
    assert_eq!(r2.description, "Desc 2");

    assert!(parser.next().is_none());
}

#[test]
fn read_returns_error_on_invalid_data() {
    let csv_data = "\
TX_ID,TX_TYPE,FROM_USER_ID,TO_USER_ID,AMOUNT,TIMESTAMP,STATUS,DESCRIPTION
NOT_A_NUMBER,DEPOSIT,0,501,50000,1672531200000,SUCCESS,\"Bad ID\"
";
    let source = csv_data.as_bytes().to_vec();
    let mut parser = Parser::<YPBankCsvRecord, _, _>::new(source);

    // The parser returns None on an error and keeps the error.
    assert!(parser.next().is_none());

    let err = parser.read_error().expect("Should have read_error");
    assert_eq!(*err, CsvRecordError::MalformedRow);
}

#[test]
fn write_formats_record_correctly() {
    let mut record1 = sample_record();
    // A comma inside the description shows that the quotes are needed.
    record1.description = "Initial account, funding".to_string();

    let record2 = YPBankCsvRecord {
        id: 1002,
        transaction_type: TransactionType::Withdrawal,
        from_user_id: 501,
        to_user_id: 0,
        amount: 100,
        timestamp: 1672531300000,
        transaction_status: TransactionStatus::Pending,
        description: "Payment".to_string(),
    };

    let writer = Vec::<u8>::new();
    let mut serializer = Serializer::new(writer);

    serializer.serialize(&[record1, record2]).unwrap();

    let bytes = serializer.into_inner();
    let output = String::from_utf8(bytes).unwrap();
    let expected = "\
TX_ID,TX_TYPE,FROM_USER_ID,TO_USER_ID,AMOUNT,TIMESTAMP,STATUS,DESCRIPTION
1001,DEPOSIT,0,501,50000,1672531200000,SUCCESS,\"Initial account, funding\"
1002,WITHDRAWAL,501,0,100,1672531300000,PENDING,\"Payment\"
";
    assert_eq!(output, expected);
}
