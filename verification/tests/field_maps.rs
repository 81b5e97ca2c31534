use ypbank_records::common::{TransactionStatus, TransactionType};
use ypbank_records::record::{FieldFault, FieldKey, FieldMap};
use ypbank_records::txt_format::YPBankTextRecord;

fn chars(s: &str) -> Vec<char> {
    s.chars().collect()
}

const ALL_KEYS: [FieldKey; 8] = [
    FieldKey::TxId,
    FieldKey::TxType,
    FieldKey::FromUserId,
    FieldKey::ToUserId,
    FieldKey::Amount,
    FieldKey::Timestamp,
    FieldKey::Status,
    FieldKey::Description,
];

fn value_of(key: FieldKey) -> &'static str {
    match key {
        FieldKey::TxId => "1001",
        FieldKey::TxType => "DEPOSIT",
        FieldKey::FromUserId => "0",
        FieldKey::ToUserId => "501",
        FieldKey::Amount => "50000",
        FieldKey::Timestamp => "1672531200000",
        FieldKey::Status => "SUCCESS",
        FieldKey::Description => "Initial account funding",
    }
}

fn full_map() -> FieldMap {
    let mut map = FieldMap::new();
    for key in ALL_KEYS {
        map.insert_str(key.as_str(), value_of(key));
    }
    map
}

#[test]
fn keys_have_their_wire_names_in_canonical_order() {
    let names: Vec<&str> = ALL_KEYS.iter().map(|k| k.as_str()).collect();
    assert_eq!(
        names,
        ["TX_ID", "TX_TYPE", "FROM_USER_ID", "TO_USER_ID", "AMOUNT", "TIMESTAMP", "STATUS", "DESCRIPTION"]
    );
}

#[test]
fn keys_are_read_from_their_names_only() {
    for key in ALL_KEYS {
        assert_eq!(FieldKey::from_chars(&chars(key.as_str())), Some(key));
    }
    assert_eq!(FieldKey::from_chars(&chars("tx_id")), None);
    assert_eq!(FieldKey::from_chars(&chars("TX_ID ")), None);
    assert_eq!(FieldKey::from_chars(&chars("UNKNOWN_FIELD")), None);
    assert_eq!(FieldKey::from_chars(&chars("")), None);
}

#[test]
fn a_new_map_is_empty() {
    let map = FieldMap::new();
    assert!(map.is_empty());
    assert_eq!(map.len(), 0);
    assert!(map.get(&chars("TX_ID")).is_none());
}

#[test]
fn a_later_value_replaces_an_earlier_one() {
    let mut map = FieldMap::new();
    map.insert_str("TX_ID", "1");
    map.insert_str("AMOUNT", "7");
    map.insert_str("TX_ID", "2");
    assert!(!map.is_empty());
    assert_eq!(map.get(&chars("TX_ID")), Some(&chars("2")));
    assert_eq!(map.get(&chars("AMOUNT")), Some(&chars("7")));
    assert_eq!(map.number_u32(FieldKey::TxId).unwrap(), 2);
}

#[test]
fn keys_are_case_sensitive() {
    let mut map = FieldMap::new();
    map.insert_str("tx_id", "1");
    assert!(map.get(&chars("TX_ID")).is_none());
    assert!(matches!(map.check_keys(), Err(FieldFault::UnknownField { name }) if name == "tx_id"));
}

#[test]
fn clear_forgets_all_pairs() {
    let mut map = full_map();
    assert_eq!(map.len(), 8);
    map.clear();
    assert!(map.is_empty());
}

#[test]
fn the_eight_fields_make_a_record() {
    let map = full_map();
    let record = YPBankTextRecord::from_fields(&map).unwrap();
    assert_eq!(record.id, 1001);
    assert_eq!(record.transaction_type, TransactionType::Deposit);
    assert_eq!(record.from_user_id, 0);
    assert_eq!(record.to_user_id, 501);
    assert_eq!(record.amount, 50000);
    assert_eq!(record.timestamp, 1672531200000);
    assert_eq!(record.transaction_status, TransactionStatus::Success);
    assert_eq!(record.description, "Initial account funding");
}

#[test]
fn parse_transaction_leaves_the_map_empty() {
    let mut map = full_map();
    let record = YPBankTextRecord::parse_transaction(&mut map).unwrap();
    assert_eq!(record.id, 1001);
    assert!(map.is_empty());

    let mut bad = FieldMap::new();
    bad.insert_str("TX_ID", "1");
    assert!(YPBankTextRecord::parse_transaction(&mut bad).is_err());
    assert!(bad.is_empty());
}

#[test]
fn each_missing_key_is_named() {
    for missing in ALL_KEYS {
        let mut map = FieldMap::new();
        for key in ALL_KEYS {
            if key != missing {
                map.insert_str(key.as_str(), value_of(key));
            }
        }
        let fault = YPBankTextRecord::from_fields(&map).unwrap_err();
        assert!(matches!(fault, FieldFault::MissingField { key } if key == missing), "{missing:?}");
    }
}

#[test]
fn a_ninth_key_is_refused_and_named() {
    let mut map = full_map();
    map.insert_str("UNKNOWN_FIELD", "x");
    let fault = YPBankTextRecord::from_fields(&map).unwrap_err();
    assert!(matches!(fault, FieldFault::UnknownField { name } if name == "UNKNOWN_FIELD"));
}

#[test]
fn the_first_unknown_key_comes_before_any_other_fault() {
    let mut map = FieldMap::new();
    map.insert_str("TX_ID", "not a number");
    map.insert_str("FIRST_EXTRA", "1");
    map.insert_str("SECOND_EXTRA", "2");
    let fault = YPBankTextRecord::from_fields(&map).unwrap_err();
    assert!(matches!(fault, FieldFault::UnknownField { name } if name == "FIRST_EXTRA"));
}

#[test]
fn faults_of_the_eight_keys_come_in_canonical_order() {
    let mut map = FieldMap::new();
    map.insert_str("STATUS", "UNKNOWN_STATUS");
    map.insert_str("AMOUNT", "not_a_number");
    map.insert_str("TX_ID", "1");
    map.insert_str("TX_TYPE", "DEPOSIT");
    map.insert_str("FROM_USER_ID", "0");
    map.insert_str("TO_USER_ID", "1");
    let fault = YPBankTextRecord::from_fields(&map).unwrap_err();
    assert!(matches!(fault, FieldFault::InvalidValue { key: FieldKey::Amount }));
}

#[test]
fn each_value_of_the_wrong_type_is_named() {
    let cases = [
        (FieldKey::TxId, "-5"),
        (FieldKey::TxId, "4294967296"),
        (FieldKey::TxType, "REFUND"),
        (FieldKey::FromUserId, ""),
        (FieldKey::ToUserId, "1.5"),
        (FieldKey::Amount, "not_a_number"),
        (FieldKey::Amount, "18446744073709551616"),
        (FieldKey::Timestamp, "-1"),
        (FieldKey::Status, "UNKNOWN_STATUS"),
    ];
    for (bad, value) in cases {
        let mut map = FieldMap::new();
        for key in ALL_KEYS {
            map.insert_str(key.as_str(), if key == bad { value } else { value_of(key) });
        }
        let fault = YPBankTextRecord::from_fields(&map).unwrap_err();
        assert!(matches!(fault, FieldFault::InvalidValue { key } if key == bad), "{bad:?} {value:?}");
    }
}

#[test]
fn any_text_is_a_description() {
    for text in ["", "x", "a: b", "# not a comment", "-5", "\"quoted\""] {
        let mut map = full_map();
        map.insert_str("DESCRIPTION", text);
        let record = YPBankTextRecord::from_fields(&map).unwrap();
        assert_eq!(record.description, text);
    }
}

#[test]
fn typed_getters_tell_missing_from_invalid() {
    let mut map = FieldMap::new();
    map.insert_str("AMOUNT", "12");
    map.insert_str("TIMESTAMP", "x");
    map.insert_str("TX_TYPE", "TRANSFER");
    map.insert_str("STATUS", "done");
    assert_eq!(map.number_u64(FieldKey::Amount).unwrap(), 12);
    assert!(matches!(map.number_u64(FieldKey::Timestamp), Err(FieldFault::InvalidValue { key: FieldKey::Timestamp })));
    assert!(matches!(map.number_u32(FieldKey::TxId), Err(FieldFault::MissingField { key: FieldKey::TxId })));
    assert_eq!(map.transaction_type(FieldKey::TxType).unwrap(), TransactionType::Transfer);
    assert!(matches!(map.transaction_status(FieldKey::Status), Err(FieldFault::InvalidValue { key: FieldKey::Status })));
    assert!(matches!(map.text(FieldKey::Description), Err(FieldFault::MissingField { key: FieldKey::Description })));
    assert_eq!(map.text(FieldKey::Amount).unwrap(), &chars("12"));
}
