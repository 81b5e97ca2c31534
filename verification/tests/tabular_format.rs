use ypbank_records::common::{TransactionStatus, TransactionType};
use ypbank_records::csv_format::{CsvReader, CsvRecordError, YPBankCsvRecord};
use ypbank_records::{Parser, Readable, Serializer, Writable};

const HEADER: &str = "TX_ID,TX_TYPE,FROM_USER_ID,TO_USER_ID,AMOUNT,TIMESTAMP,STATUS,DESCRIPTION\n";

fn example() -> YPBankCsvRecord {
    YPBankCsvRecord {
        id: 1001,
        transaction_type: TransactionType::Deposit,
        from_user_id: 0,
        to_user_id: 501,
        amount: 50000,
        timestamp: 1672531200000,
        transaction_status: TransactionStatus::Success,
        description: "Initial account funding".to_string(),
    }
}

fn record(id: u32, description: &str) -> YPBankCsvRecord {
    YPBankCsvRecord {
        id,
        transaction_type: TransactionType::Withdrawal,
        from_user_id: u32::MAX,
        to_user_id: 0,
        amount: u64::MAX,
        timestamp: 1,
        transaction_status: TransactionStatus::Failure,
        description: description.to_string(),
    }
}

fn strings(fields: &[&str]) -> Vec<String> {
    fields.iter().map(|f| f.to_string()).collect()
}

fn parser(input: &str) -> Parser<YPBankCsvRecord, Vec<u8>, CsvRecordError> {
    Parser::new(input.as_bytes().to_vec())
}

fn all(input: &str) -> (Vec<YPBankCsvRecord>, Option<CsvRecordError>) {
    let mut p = parser(input);
    let mut records = Vec::new();
    while let Some(item) = p.next() {
        records.push(item.unwrap());
    }
    (records, p.into_error())
}

#[test]
fn tabular_encoding_of_the_example_record() {
    let text: String = example().to_row().into_iter().collect();
    assert_eq!(text, "1001,DEPOSIT,0,501,50000,1672531200000,SUCCESS,\"Initial account funding\"\n");

    let mut out = Vec::new();
    example().write(&mut out).unwrap();
    assert_eq!(out, text.as_bytes());
}

#[test]
fn the_header_row_is_written_once() {
    let mut out = Vec::new();
    YPBankCsvRecord::write_header(&mut out).unwrap();
    assert_eq!(out, HEADER.as_bytes());

    let mut serializer = Serializer::<YPBankCsvRecord, _>::new(Vec::new());
    serializer.serialize(&[]).unwrap();
    assert_eq!(serializer.into_inner(), HEADER.as_bytes());
}

#[test]
fn quotes_in_a_description_are_doubled() {
    let text: String = record(1, "say \"hi\"").to_row().into_iter().collect();
    assert_eq!(text, "1,WITHDRAWAL,4294967295,0,18446744073709551615,1,FAILURE,\"say \"\"hi\"\"\"\n");
    let empty: String = record(2, "").to_row().into_iter().collect();
    assert!(empty.ends_with(",FAILURE,\"\"\n"));
}

#[test]
fn written_rows_are_read_back() {
    let records = [
        example(),
        record(1, "plain"),
        record(2, "comma, inside"),
        record(3, "say \"hi\", twice \"\""),
        record(4, ""),
        record(5, "line\nbreak inside"),
        record(6, "оплата ✓"),
    ];
    let mut serializer = Serializer::new(b"".to_vec());
    serializer.serialize(&records).unwrap();
    let bytes = serializer.into_inner();

    let mut p = Parser::<YPBankCsvRecord, _, _>::new(bytes);
    for written in &records {
        assert_eq!(&p.next().unwrap().unwrap(), written);
    }
    assert!(p.next().is_none());
    assert_eq!(p.read_error(), Some(&CsvRecordError::EndOfInput));
}

#[test]
fn fields_and_header_names_are_trimmed() {
    let input = " TX_ID , TX_TYPE,FROM_USER_ID,TO_USER_ID,AMOUNT,TIMESTAMP,STATUS, DESCRIPTION \n 1001 , DEPOSIT ,0,501, 50000,1672531200000,SUCCESS ,  Initial account funding  \n";
    let (records, end) = all(input);
    assert_eq!(records, [example()]);
    assert_eq!(end, Some(CsvRecordError::EndOfInput));
}

#[test]
fn columns_are_found_by_name_in_any_order() {
    let input = "DESCRIPTION,STATUS,TIMESTAMP,AMOUNT,TO_USER_ID,FROM_USER_ID,TX_TYPE,TX_ID\nInitial account funding,SUCCESS,1672531200000,50000,501,0,DEPOSIT,1001\n";
    let (records, _) = all(input);
    assert_eq!(records, [example()]);
}

#[test]
fn the_input_ends_where_no_row_is_left() {
    for input in ["", HEADER, "\n\n"] {
        let mut p = parser(input);
        assert!(p.next().is_none(), "{input:?}");
        assert_eq!(p.read_error(), Some(&CsvRecordError::EndOfInput), "{input:?}");
    }
}

#[test]
fn a_row_under_a_wrong_header_is_malformed() {
    let row = "1001,DEPOSIT,0,501,50000,1672531200000,SUCCESS,x";
    let headers = [
        "TX_ID,TX_TYPE,FROM_USER_ID,TO_USER_ID,AMOUNT,TIMESTAMP,STATUS,UNKNOWN_FIELD",
        "TX_ID,TX_TYPE,FROM_USER_ID,TO_USER_ID,AMOUNT,TIMESTAMP,STATUS,STATUS",
        "tx_id,TX_TYPE,FROM_USER_ID,TO_USER_ID,AMOUNT,TIMESTAMP,STATUS,DESCRIPTION",
    ];
    for header in headers {
        let mut p = parser(&format!("{header}\n{row}\n"));
        assert!(p.next().is_none(), "{header}");
        assert_eq!(p.read_error(), Some(&CsvRecordError::MalformedRow), "{header}");
    }
}

#[test]
fn a_row_with_too_many_or_too_few_columns_is_malformed() {
    let nine = "TX_ID,TX_TYPE,FROM_USER_ID,TO_USER_ID,AMOUNT,TIMESTAMP,STATUS,DESCRIPTION,EXTRA\n1001,DEPOSIT,0,501,50000,1672531200000,SUCCESS,x,y\n";
    let seven = "TX_ID,TX_TYPE,FROM_USER_ID,TO_USER_ID,AMOUNT,TIMESTAMP,STATUS\n1001,DEPOSIT,0,501,50000,1672531200000,SUCCESS\n";
    let short_row = format!("{HEADER}1001,DEPOSIT,0\n");
    for input in [nine, seven, &short_row] {
        let mut p = parser(input);
        assert!(p.next().is_none());
        assert_eq!(p.read_error(), Some(&CsvRecordError::MalformedRow));
    }
}

#[test]
fn a_field_of_the_wrong_type_makes_the_row_malformed() {
    let rows = [
        "-5,DEPOSIT,0,501,50000,1672531200000,SUCCESS,x",
        "1,REFUND,0,501,50000,1672531200000,SUCCESS,x",
        "1,DEPOSIT,0,501,not_a_number,1672531200000,SUCCESS,x",
        "1,DEPOSIT,0,501,50000,1672531200000,UNKNOWN_STATUS,x",
        "1,DEPOSIT,0,4294967296,50000,1672531200000,SUCCESS,x",
    ];
    for row in rows {
        let mut p = parser(&format!("{HEADER}{row}\n"));
        assert!(p.next().is_none(), "{row}");
        assert_eq!(p.read_error(), Some(&CsvRecordError::MalformedRow), "{row}");
    }
}

#[test]
fn a_row_that_is_not_utf8_is_malformed() {
    let mut bytes = HEADER.as_bytes().to_vec();
    bytes.extend_from_slice(b"1,DEPOSIT,0,501,50000,1,SUCCESS,\xff\n");
    let mut p = Parser::<YPBankCsvRecord, _, _>::new(bytes);
    assert!(p.next().is_none());
    assert_eq!(p.read_error(), Some(&CsvRecordError::MalformedRow));
}

#[test]
fn rows_under_a_header_that_is_not_utf8_are_malformed() {
    let mut bytes = b"TX_ID,TX_TYPE,FROM_USER_ID,TO_USER_ID,AMOUNT,TIMESTAMP,STATUS,\xff\n".to_vec();
    bytes.extend_from_slice(b"1001,DEPOSIT,0,501,50000,1672531200000,SUCCESS,x\n");
    let mut p = Parser::<YPBankCsvRecord, _, _>::new(bytes);
    assert!(p.next().is_none());
    assert_eq!(p.read_error(), Some(&CsvRecordError::MalformedRow));
}

#[test]
fn reading_goes_on_after_a_malformed_row_when_asked_to() {
    let input = format!("{HEADER}x,DEPOSIT,0,501,50000,1672531200000,SUCCESS,bad\n1001,DEPOSIT,0,501,50000,1672531200000,SUCCESS,Initial account funding\n");
    let mut reader = CsvReader::new(input.into_bytes());
    assert_eq!(reader.remaining(), 2);
    assert_eq!(YPBankCsvRecord::read(&mut reader), Err(CsvRecordError::MalformedRow));
    assert_eq!(reader.remaining(), 1);
    assert_eq!(YPBankCsvRecord::read(&mut reader), Ok(example()));
    assert_eq!(reader.remaining(), 0);
    assert_eq!(YPBankCsvRecord::read(&mut reader), Err(CsvRecordError::EndOfInput));
    assert_eq!(YPBankCsvRecord::read(&mut reader), Err(CsvRecordError::EndOfInput));
    assert_eq!(reader.remaining(), 0);
}

#[test]
fn the_parser_keeps_the_first_error_of_the_rows() {
    let input = format!("{HEADER}x,DEPOSIT,0,501,50000,1672531200000,SUCCESS,bad\n1001,DEPOSIT,0,501,50000,1672531200000,SUCCESS,good\n");
    let mut p = parser(&input);
    assert!(p.next().is_none());
    assert!(p.next().is_none());
    assert_eq!(p.read_error(), Some(&CsvRecordError::MalformedRow));
}

#[test]
fn a_row_is_a_record_under_its_header() {
    let header = strings(&["TX_ID", "TX_TYPE", "FROM_USER_ID", "TO_USER_ID", "AMOUNT", "TIMESTAMP", "STATUS", "DESCRIPTION"]);
    let fields = strings(&["1001", "DEPOSIT", "0", "501", "50000", "1672531200000", "SUCCESS", "Initial account funding"]);
    assert_eq!(YPBankCsvRecord::from_row(&header, &fields), Ok(example()));

    let short = strings(&["1001", "DEPOSIT"]);
    assert_eq!(YPBankCsvRecord::from_row(&header, &short), Err(CsvRecordError::MalformedRow));
    assert_eq!(YPBankCsvRecord::from_row(&short, &short), Err(CsvRecordError::MalformedRow));

    let untrimmed = strings(&[" 1001", "DEPOSIT", "0", "501", "50000", "1672531200000", "SUCCESS", "x"]);
    assert_eq!(YPBankCsvRecord::from_row(&header, &untrimmed), Err(CsvRecordError::MalformedRow));
}

#[test]
fn a_reader_over_given_rows_hands_them_out_in_order() {
    let header = strings(&["TX_ID", "TX_TYPE", "FROM_USER_ID", "TO_USER_ID", "AMOUNT", "TIMESTAMP", "STATUS", "DESCRIPTION"]);
    let first = strings(&["1", "WITHDRAWAL", "4294967295", "0", "18446744073709551615", "1", "FAILURE", "one"]);
    let second = strings(&["2", "WITHDRAWAL", "4294967295", "0", "18446744073709551615", "1", "FAILURE", "two"]);
    let mut reader = CsvReader::from_rows(Some(header), vec![Some(first), None, Some(second)]);
    assert_eq!(YPBankCsvRecord::read(&mut reader), Ok(record(1, "one")));
    assert_eq!(YPBankCsvRecord::read(&mut reader), Err(CsvRecordError::MalformedRow));
    assert_eq!(YPBankCsvRecord::read(&mut reader), Ok(record(2, "two")));
    assert_eq!(YPBankCsvRecord::read(&mut reader), Err(CsvRecordError::EndOfInput));

    let mut headless = CsvReader::from_rows(None, vec![Some(strings(&["1"]))]);
    assert_eq!(YPBankCsvRecord::read(&mut headless), Err(CsvRecordError::MalformedRow));
}

#[test]
fn the_serializer_appends_to_what_its_sink_holds() {
    let mut serializer = Serializer::new(b"kept\n".to_vec());
    serializer.serialize(&[example()]).unwrap();
    let text = String::from_utf8(serializer.into_inner()).unwrap();
    assert_eq!(text, format!("kept\n{HEADER}1001,DEPOSIT,0,501,50000,1672531200000,SUCCESS,\"Initial account funding\"\n"));
}

#[test]
fn build_reader_splits_the_rows_of_the_source() {
    let input = format!("{HEADER}1001,DEPOSIT,0,501,50000,1672531200000,SUCCESS,Initial account funding\n");
    let mut reader = <YPBankCsvRecord as Readable<Vec<u8>, CsvRecordError>>::build_reader(input.into_bytes());
    assert_eq!(reader.remaining(), 1);
    assert_eq!(YPBankCsvRecord::read(&mut reader), Ok(example()));
}

#[test]
fn a_description_is_read_back_from_its_row_trimmed() {
    let mut serializer = Serializer::new(Vec::new());
    serializer.serialize(&[record(1, "  padded  "), record(2, "   ")]).unwrap();
    let mut p = Parser::<YPBankCsvRecord, _, _>::new(serializer.into_inner());
    assert_eq!(p.next().unwrap().unwrap(), record(1, "padded"));
    assert_eq!(p.next().unwrap().unwrap(), record(2, ""));
    assert!(p.next().is_none());
}

#[test]
fn the_fields_of_a_written_row_are_read_back_under_the_canonical_header() {
    let header = strings(&["TX_ID", "TX_TYPE", "FROM_USER_ID", "TO_USER_ID", "AMOUNT", "TIMESTAMP", "STATUS", "DESCRIPTION"]);
    for written in [example(), record(0, ""), record(u32::MAX, " as it is ")] {
        let fields = vec![
            written.id.to_string(),
            written.transaction_type.to_string(),
            written.from_user_id.to_string(),
            written.to_user_id.to_string(),
            written.amount.to_string(),
            written.timestamp.to_string(),
            written.transaction_status.to_string(),
            written.description.clone(),
        ];
        assert_eq!(YPBankCsvRecord::from_row(&header, &fields), Ok(written));
    }
}
