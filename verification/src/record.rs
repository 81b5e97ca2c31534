//! The record model shared by both formats: the eight keys, the key/value
//! pairs gathered for one record, and the rule that turns them into a record
//! or names the field that is at fault.

use crate::common::{TransactionStatus, TransactionType};
use crate::decimal::{
    decimal, lemma_negative_rejected, lemma_parse_decimal, parse_u32, parse_u64, parse_unsigned,
};
use crate::text::{same_chars, spells, string_of};
use vstd::prelude::*;
use vstd::string::*;

verus! {

/// A transaction record as a mathematical value. Both record types of this
/// library have it as their view.
pub struct TransactionRecord {
    pub id: u32,
    pub transaction_type: TransactionType,
    pub from_user_id: u32,
    pub to_user_id: u32,
    pub amount: u64,
    pub timestamp: u64,
    pub transaction_status: TransactionStatus,
    pub description: Seq<char>,
}

/// The eight keys of a record, in their canonical order.
#[derive(Debug, Clone, Copy, PartialEq, Eq, Structural)]
pub enum FieldKey {
    TxId,
    TxType,
    FromUserId,
    ToUserId,
    Amount,
    Timestamp,
    Status,
    Description,
}

/// What is wrong with the text gathered for one record.
#[derive(Debug)]
pub enum FieldFault {
    /// A key is present that is none of the eight.
    UnknownField { name: String },
    /// One of the eight keys is absent.
    MissingField { key: FieldKey },
    /// The value under a key is not of the key's wire type.
    InvalidValue { key: FieldKey },
    /// A line is not UTF-8 text.
    InvalidUtf8,
}

/// A field fault as a mathematical value.
pub enum FieldFaultView {
    UnknownField { name: Seq<char> },
    MissingField { key: FieldKey },
    InvalidValue { key: FieldKey },
    InvalidUtf8,
}

impl View for FieldFault {
    type V = FieldFaultView;

    open spec fn view(&self) -> FieldFaultView {
        match self {
            FieldFault::UnknownField { name } => FieldFaultView::UnknownField { name: name@ },
            FieldFault::MissingField { key } => FieldFaultView::MissingField { key: *key },
            FieldFault::InvalidValue { key } => FieldFaultView::InvalidValue { key: *key },
            FieldFault::InvalidUtf8 => FieldFaultView::InvalidUtf8,
        }
    }
}

impl FieldKey {
    /// The key as it is written on the wire.
    pub open spec fn name(self) -> Seq<char> {
        match self {
            FieldKey::TxId => "TX_ID"@,
            FieldKey::TxType => "TX_TYPE"@,
            FieldKey::FromUserId => "FROM_USER_ID"@,
            FieldKey::ToUserId => "TO_USER_ID"@,
            FieldKey::Amount => "AMOUNT"@,
            FieldKey::Timestamp => "TIMESTAMP"@,
            FieldKey::Status => "STATUS"@,
            FieldKey::Description => "DESCRIPTION"@,
        }
    }

    /// The key that a name spells, if it spells one. Names are case-sensitive.
    pub open spec fn from_name(name: Seq<char>) -> Option<FieldKey> {
        if name == "TX_ID"@ {
            Some(FieldKey::TxId)
        } else if name == "TX_TYPE"@ {
            Some(FieldKey::TxType)
        } else if name == "FROM_USER_ID"@ {
            Some(FieldKey::FromUserId)
        } else if name == "TO_USER_ID"@ {
            Some(FieldKey::ToUserId)
        } else if name == "AMOUNT"@ {
            Some(FieldKey::Amount)
        } else if name == "TIMESTAMP"@ {
            Some(FieldKey::Timestamp)
        } else if name == "STATUS"@ {
            Some(FieldKey::Status)
        } else if name == "DESCRIPTION"@ {
            Some(FieldKey::Description)
        } else {
            None
        }
    }

    /// Whether a value is of the key's wire type: an unsigned decimal that
    /// fits the field, one of the three wire names, or any text.
    pub open spec fn accepts(self, value: Seq<char>) -> bool {
        match self {
            FieldKey::TxId | FieldKey::FromUserId | FieldKey::ToUserId => parse_unsigned(
                value,
                u32::MAX as nat,
            ) is Some,
            FieldKey::Amount | FieldKey::Timestamp => parse_unsigned(value, u64::MAX as nat) is Some,
            FieldKey::TxType => TransactionType::from_wire(value) is Some,
            FieldKey::Status => TransactionStatus::from_wire(value) is Some,
            FieldKey::Description => true,
        }
    }

    /// A letter `A` to `Z` or an underscore.
    pub open spec fn is_name_char(c: char) -> bool {
        0x41 <= c as u32 <= 0x5A || c as u32 == 0x5F
    }

    /// Each key is the one that its own name spells, and a name is made of
    /// upper-case letters and underscores.
    pub proof fn lemma_name(self)
        ensures
            Self::from_name(self.name()) == Some(self),
            self.name().len() > 0,
            forall|i: int| 0 <= i < self.name().len() ==> Self::is_name_char(#[trigger] self.name()[i]),
    {
        reveal_strlit("TX_ID");
        reveal_strlit("TX_TYPE");
        reveal_strlit("FROM_USER_ID");
        reveal_strlit("TO_USER_ID");
        reveal_strlit("AMOUNT");
        reveal_strlit("TIMESTAMP");
        reveal_strlit("STATUS");
        reveal_strlit("DESCRIPTION");
        assert("TX_ID"@.len() == 5);
        assert("TX_TYPE"@.len() == 7);
        assert("FROM_USER_ID"@.len() == 12);
        assert("TO_USER_ID"@.len() == 10);
        assert("AMOUNT"@.len() == 6);
        assert("TIMESTAMP"@.len() == 9);
        assert("STATUS"@.len() == 6);
        assert("DESCRIPTION"@.len() == 11);
        assert("AMOUNT"@[0] != "STATUS"@[0]);
    }

    /// The key as it is written on the wire.
    pub fn as_str(&self) -> (name: &'static str)
        ensures
            name@ == self.name(),
    {
        match self {
            FieldKey::TxId => "TX_ID",
            FieldKey::TxType => "TX_TYPE",
            FieldKey::FromUserId => "FROM_USER_ID",
            FieldKey::ToUserId => "TO_USER_ID",
            FieldKey::Amount => "AMOUNT",
            FieldKey::Timestamp => "TIMESTAMP",
            FieldKey::Status => "STATUS",
            FieldKey::Description => "DESCRIPTION",
        }
    }

    /// Reads a key from its name, given as characters.
    pub fn from_chars(name: &[char]) -> (key: Option<FieldKey>)
        ensures
            key == Self::from_name(name@),
    {
        if spells(name, "TX_ID") {
            Some(FieldKey::TxId)
        } else if spells(name, "TX_TYPE") {
            Some(FieldKey::TxType)
        } else if spells(name, "FROM_USER_ID") {
            Some(FieldKey::FromUserId)
        } else if spells(name, "TO_USER_ID") {
            Some(FieldKey::ToUserId)
        } else if spells(name, "AMOUNT") {
            Some(FieldKey::Amount)
        } else if spells(name, "TIMESTAMP") {
            Some(FieldKey::Timestamp)
        } else if spells(name, "STATUS") {
            Some(FieldKey::Status)
        } else if spells(name, "DESCRIPTION") {
            Some(FieldKey::Description)
        } else {
            None
        }
    }
}

/// The value that the pairs give a key: that of the last pair with this key.
pub open spec fn lookup(pairs: Seq<(Seq<char>, Seq<char>)>, key: Seq<char>) -> Option<Seq<char>>
    decreases pairs.len(),
{
    if pairs.len() == 0 {
        None
    } else if pairs.last().0 == key {
        Some(pairs.last().1)
    } else {
        lookup(pairs.drop_last(), key)
    }
}

/// The key of the first pair whose key is none of the eight, if there is one.
pub open spec fn first_unknown(pairs: Seq<(Seq<char>, Seq<char>)>) -> Option<Seq<char>>
    decreases pairs.len(),
{
    if pairs.len() == 0 {
        None
    } else if FieldKey::from_name(pairs[0].0) is None {
        Some(pairs[0].0)
    } else {
        first_unknown(pairs.drop_first())
    }
}

/// What is wrong with one key in the pairs: it is absent, or its value is not
/// of its wire type.
pub open spec fn field_fault(pairs: Seq<(Seq<char>, Seq<char>)>, key: FieldKey) -> Option<
    FieldFaultView,
> {
    match lookup(pairs, key.name()) {
        None => Some(FieldFaultView::MissingField { key }),
        Some(value) => if key.accepts(value) {
            None
        } else {
            Some(FieldFaultView::InvalidValue { key })
        },
    }
}

/// The fault that the pairs are refused for: the first unknown key in the
/// order of arrival, or else the first of the eight keys, in canonical order,
/// that is absent or has a value of the wrong type. `None` where the pairs
/// give each of the eight keys a value of its type and hold no other key.
pub open spec fn first_fault(pairs: Seq<(Seq<char>, Seq<char>)>) -> Option<FieldFaultView> {
    if let Some(name) = first_unknown(pairs) {
        Some(FieldFaultView::UnknownField { name })
    } else if field_fault(pairs, FieldKey::TxId) is Some {
        field_fault(pairs, FieldKey::TxId)
    } else if field_fault(pairs, FieldKey::TxType) is Some {
        field_fault(pairs, FieldKey::TxType)
    } else if field_fault(pairs, FieldKey::FromUserId) is Some {
        field_fault(pairs, FieldKey::FromUserId)
    } else if field_fault(pairs, FieldKey::ToUserId) is Some {
        field_fault(pairs, FieldKey::ToUserId)
    } else if field_fault(pairs, FieldKey::Amount) is Some {
        field_fault(pairs, FieldKey::Amount)
    } else if field_fault(pairs, FieldKey::Timestamp) is Some {
        field_fault(pairs, FieldKey::Timestamp)
    } else if field_fault(pairs, FieldKey::Status) is Some {
        field_fault(pairs, FieldKey::Status)
    } else {
        field_fault(pairs, FieldKey::Description)
    }
}

/// The 32-bit number under a key.
pub open spec fn u32_field(pairs: Seq<(Seq<char>, Seq<char>)>, key: FieldKey) -> u32 {
    parse_unsigned(lookup(pairs, key.name())->0, u32::MAX as nat)->0 as u32
}

/// The 64-bit number under a key.
pub open spec fn u64_field(pairs: Seq<(Seq<char>, Seq<char>)>, key: FieldKey) -> u64 {
    parse_unsigned(lookup(pairs, key.name())->0, u64::MAX as nat)->0 as u64
}

/// The record that the pairs stand for, or the fault they are refused for.
/// There is no record with a field left out or defaulted.
pub open spec fn record_of(pairs: Seq<(Seq<char>, Seq<char>)>) -> Result<
    TransactionRecord,
    FieldFaultView,
> {
    match first_fault(pairs) {
        Some(fault) => Err(fault),
        None => Ok(
            TransactionRecord {
                id: u32_field(pairs, FieldKey::TxId),
                transaction_type: TransactionType::from_wire(
                    lookup(pairs, FieldKey::TxType.name())->0,
                )->0,
                from_user_id: u32_field(pairs, FieldKey::FromUserId),
                to_user_id: u32_field(pairs, FieldKey::ToUserId),
                amount: u64_field(pairs, FieldKey::Amount),
                timestamp: u64_field(pairs, FieldKey::Timestamp),
                transaction_status: TransactionStatus::from_wire(
                    lookup(pairs, FieldKey::Status.name())->0,
                )->0,
                description: lookup(pairs, FieldKey::Description.name())->0,
            },
        ),
    }
}

/// No key is unknown exactly where every pair has one of the eight keys.
pub proof fn lemma_first_unknown(pairs: Seq<(Seq<char>, Seq<char>)>)
    ensures
        first_unknown(pairs) is None <==> forall|i: int|
            0 <= i < pairs.len() ==> FieldKey::from_name(#[trigger] pairs[i].0) is Some,
        first_unknown(pairs) matches Some(name) ==> FieldKey::from_name(name) is None && exists|
            i: int,
        |
            0 <= i < pairs.len() && #[trigger] pairs[i].0 == name,
    decreases pairs.len(),
{
    if pairs.len() > 0 {
        let rest = pairs.drop_first();
        lemma_first_unknown(rest);
        if FieldKey::from_name(pairs[0].0) is None {
            assert(pairs[0].0 == first_unknown(pairs)->0);
        } else {
            if first_unknown(rest) is None {
                assert forall|i: int| 0 <= i < pairs.len() implies FieldKey::from_name(
                    #[trigger] pairs[i].0,
                ) is Some by {
                    if i > 0 {
                        assert(pairs[i] == rest[i - 1]);
                    }
                }
            } else {
                let name = first_unknown(rest)->0;
                let j = choose|j: int| 0 <= j < rest.len() && #[trigger] rest[j].0 == name;
                assert(pairs[j + 1] == rest[j]);
            }
        }
    }
}

/// A key that no later pair has again is given the value of its pair.
pub proof fn lemma_lookup_last(pairs: Seq<(Seq<char>, Seq<char>)>, at: int)
    requires
        0 <= at < pairs.len(),
        forall|j: int| at < j < pairs.len() ==> (#[trigger] pairs[j]).0 != pairs[at].0,
    ensures
        lookup(pairs, pairs[at].0) == Some(pairs[at].1),
    decreases pairs.len(),
{
    if at < pairs.len() - 1 {
        let head = pairs.drop_last();
        assert(pairs.last() == pairs[pairs.len() - 1]);
        assert(head[at] == pairs[at]);
        assert forall|j: int| at < j < head.len() implies (#[trigger] head[j]).0 != head[at].0 by {
            assert(head[j] == pairs[j]);
        }
        lemma_lookup_last(head, at);
    }
}

/// The pairs are a record exactly where every pair has one of the eight
/// keys and each of the eight keys is given a value of its type. So a block
/// that lacks a key, holds a key that is none of the eight, or gives a key a
/// value that is not of its type, is refused.
pub proof fn lemma_record_iff(pairs: Seq<(Seq<char>, Seq<char>)>)
    ensures
        record_of(pairs) is Ok <==> {
            &&& forall|i: int|
                0 <= i < pairs.len() ==> FieldKey::from_name(#[trigger] pairs[i].0) is Some
            &&& forall|key: FieldKey|
                (#[trigger] lookup(pairs, key.name())) matches Some(value) && key.accepts(value)
        },
        (exists|i: int| 0 <= i < pairs.len() && FieldKey::from_name(#[trigger] pairs[i].0) is None)
            ==> (record_of(pairs) matches Err(FieldFaultView::UnknownField { name })
            && FieldKey::from_name(name) is None),
{
    lemma_first_unknown(pairs);
    if first_fault(pairs) is None {
        assert forall|key: FieldKey|
            (#[trigger] lookup(pairs, key.name())) matches Some(value) && key.accepts(
                value,
            ) by {
            assert(field_fault(pairs, key) is None);
        }
    } else if first_unknown(pairs) is None {
        let key = match first_fault(pairs)->0 {
            FieldFaultView::MissingField { key } => key,
            FieldFaultView::InvalidValue { key } => key,
            _ => FieldKey::TxId,
        };
        assert(field_fault(pairs, key) is Some);
        assert(!(lookup(pairs, key.name()) matches Some(value) && key.accepts(value)));
    }
}

/// The eight pairs that a record is written as, in canonical order: numbers
/// in decimal, enumerations by their wire names, the description as it is.
pub open spec fn pairs_of_record(record: TransactionRecord) -> Seq<(Seq<char>, Seq<char>)> {
    seq![
        (FieldKey::TxId.name(), decimal(record.id as nat)),
        (FieldKey::TxType.name(), record.transaction_type.wire_name()),
        (FieldKey::FromUserId.name(), decimal(record.from_user_id as nat)),
        (FieldKey::ToUserId.name(), decimal(record.to_user_id as nat)),
        (FieldKey::Amount.name(), decimal(record.amount as nat)),
        (FieldKey::Timestamp.name(), decimal(record.timestamp as nat)),
        (FieldKey::Status.name(), record.transaction_status.wire_name()),
        (FieldKey::Description.name(), record.description),
    ]
}

/// The pairs that a record is written as stand for that record.
pub proof fn lemma_pairs_of_record(record: TransactionRecord)
    ensures
        record_of(pairs_of_record(record)) == Ok::<TransactionRecord, FieldFaultView>(record),
{
    let pairs = pairs_of_record(record);
    record.transaction_type.lemma_wire_name();
    record.transaction_status.lemma_wire_name();
    lemma_parse_decimal(record.id as nat, u32::MAX as nat);
    lemma_parse_decimal(record.from_user_id as nat, u32::MAX as nat);
    lemma_parse_decimal(record.to_user_id as nat, u32::MAX as nat);
    lemma_parse_decimal(record.amount as nat, u64::MAX as nat);
    lemma_parse_decimal(record.timestamp as nat, u64::MAX as nat);
    FieldKey::TxId.lemma_name();
    FieldKey::TxType.lemma_name();
    FieldKey::FromUserId.lemma_name();
    FieldKey::ToUserId.lemma_name();
    FieldKey::Amount.lemma_name();
    FieldKey::Timestamp.lemma_name();
    FieldKey::Status.lemma_name();
    FieldKey::Description.lemma_name();
    lemma_first_unknown(pairs);
    assert forall|i: int, j: int| 0 <= i < j < 8 implies (#[trigger] pairs[j]).0 != (
    #[trigger] pairs[i]).0 by {
        assert(FieldKey::from_name(pairs[i].0) is Some);
        assert(FieldKey::from_name(pairs[j].0) is Some);
        assert(FieldKey::from_name(pairs[i].0) != FieldKey::from_name(pairs[j].0));
    }
    lemma_lookup_last(pairs, 0);
    lemma_lookup_last(pairs, 1);
    lemma_lookup_last(pairs, 2);
    lemma_lookup_last(pairs, 3);
    lemma_lookup_last(pairs, 4);
    lemma_lookup_last(pairs, 5);
    lemma_lookup_last(pairs, 6);
    lemma_lookup_last(pairs, 7);
    assert(lookup(pairs, FieldKey::TxId.name()) == Some(pairs[0].1));
    assert(lookup(pairs, FieldKey::TxType.name()) == Some(pairs[1].1));
    assert(lookup(pairs, FieldKey::FromUserId.name()) == Some(pairs[2].1));
    assert(lookup(pairs, FieldKey::ToUserId.name()) == Some(pairs[3].1));
    assert(lookup(pairs, FieldKey::Amount.name()) == Some(pairs[4].1));
    assert(lookup(pairs, FieldKey::Timestamp.name()) == Some(pairs[5].1));
    assert(lookup(pairs, FieldKey::Status.name()) == Some(pairs[6].1));
    assert(lookup(pairs, FieldKey::Description.name()) == Some(pairs[7].1));
}

/// A value that starts with a minus sign is not of the type of a key that
/// holds a number.
pub proof fn lemma_negative_refused(key: FieldKey, value: Seq<char>)
    requires
        key !is TxType,
        key !is Status,
        key !is Description,
        value.len() > 0,
        value[0] == '-',
    ensures
        !key.accepts(value),
{
    lemma_negative_rejected(value, u32::MAX as nat);
    lemma_negative_rejected(value, u64::MAX as nat);
}

/// The key/value pairs gathered for one record, in the order of arrival. A
/// key that arrives again takes the later value.
pub struct FieldMap {
    entries: Vec<(Vec<char>, Vec<char>)>,
}

impl View for FieldMap {
    type V = Seq<(Seq<char>, Seq<char>)>;

    closed spec fn view(&self) -> Seq<(Seq<char>, Seq<char>)> {
        Seq::new(self.entries@.len(), |i: int| (self.entries@[i].0@, self.entries@[i].1@))
    }
}

impl FieldMap {
    /// No pairs.
    pub fn new() -> (map: FieldMap)
        ensures
            map@ == Seq::<(Seq<char>, Seq<char>)>::empty(),
    {
        FieldMap { entries: Vec::new() }
    }

    /// How many pairs have arrived.
    pub fn len(&self) -> (n: usize)
        ensures
            n == self@.len(),
    {
        self.entries.len()
    }

    /// Whether no pair has arrived.
    pub fn is_empty(&self) -> (b: bool)
        ensures
            b == (self@.len() == 0),
    {
        self.entries.len() == 0
    }

    /// Forgets all pairs.
    pub fn clear(&mut self)
        ensures
            final(self)@ == Seq::<(Seq<char>, Seq<char>)>::empty(),
    {
        self.entries.clear();
    }

    /// Takes in one more pair.
    pub fn insert(&mut self, key: Vec<char>, value: Vec<char>)
        ensures
            final(self)@ == old(self)@.push((key@, value@)),
    {
        self.entries.push((key, value));
        assert(self@ =~= old(self)@.push((key@, value@)));
    }

    /// Takes in one more pair, given as strings.
    pub fn insert_str(&mut self, key: &str, value: &str)
        ensures
            final(self)@ == old(self)@.push((key@, value@)),
    {
        self.insert(crate::text::chars_of(key), crate::text::chars_of(value));
    }

    /// The value that the pairs give a key.
    pub fn get(&self, key: &[char]) -> (value: Option<&Vec<char>>)
        ensures
            match lookup(self@, key@) {
                Some(v) => value matches Some(x) && x@ == v,
                None => value is None,
            },
    {
        let mut i: usize = self.entries.len();
        assert(self@.take(i as int) == self@);
        while i > 0
            invariant
                i <= self.entries@.len(),
                lookup(self@, key@) == lookup(self@.take(i as int), key@),
            decreases i,
        {
            let ghost head = self@.take(i as int);
            assert(head.last() == self@[i - 1]);
            assert(head.drop_last() == self@.take(i - 1));
            if same_chars(self.entries[i - 1].0.as_slice(), key) {
                return Some(&self.entries[i - 1].1);
            }
            i -= 1;
        }
        assert(self@.take(0).len() == 0);
        None
    }

    /// Tells whether every key is one of the eight, and names the first that
    /// is not.
    pub fn check_keys(&self) -> (checked: Result<(), FieldFault>)
        ensures
            match first_unknown(self@) {
                Some(name) => checked matches Err(fault) && fault@ == (FieldFaultView::UnknownField {
                    name,
                }),
                None => checked is Ok,
            },
    {
        let mut i: usize = 0;
        assert(self@.skip(0) == self@);
        while i < self.entries.len()
            invariant
                i <= self.entries@.len(),
                first_unknown(self@) == first_unknown(self@.skip(i as int)),
            decreases self.entries@.len() - i,
        {
            let ghost tail = self@.skip(i as int);
            assert(tail[0] == self@[i as int]);
            assert(tail.drop_first() == self@.skip(i + 1));
            if FieldKey::from_chars(self.entries[i].0.as_slice()).is_none() {
                return Err(FieldFault::UnknownField { name: string_of(self.entries[i].0.as_slice()) });
            }
            i += 1;
        }
        assert(self@.skip(i as int).len() == 0);
        Ok(())
    }

    /// The text under a key, or the fault that the key is absent.
    pub fn text(&self, key: FieldKey) -> (value: Result<&Vec<char>, FieldFault>)
        ensures
            match lookup(self@, key.name()) {
                Some(v) => value matches Ok(x) && x@ == v,
                None => value matches Err(fault) && fault@ == (FieldFaultView::MissingField { key }),
            },
    {
        let name = crate::text::chars_of(key.as_str());
        match self.get(name.as_slice()) {
            Some(v) => Ok(v),
            None => Err(FieldFault::MissingField { key }),
        }
    }

    /// The 32-bit number under a key, or the fault that the key is absent or
    /// its value is no such number.
    pub fn number_u32(&self, key: FieldKey) -> (value: Result<u32, FieldFault>)
        ensures
            match lookup(self@, key.name()) {
                None => value matches Err(fault) && fault@ == (FieldFaultView::MissingField { key }),
                Some(v) => match parse_unsigned(v, u32::MAX as nat) {
                    Some(n) => value == Ok::<u32, FieldFault>(n as u32),
                    None => value matches Err(fault) && fault@ == (FieldFaultView::InvalidValue {
                        key,
                    }),
                },
            },
    {
        match self.text(key) {
            Err(fault) => Err(fault),
            Ok(v) => match parse_u32(v.as_slice()) {
                Some(n) => Ok(n),
                None => Err(FieldFault::InvalidValue { key }),
            },
        }
    }

    /// The 64-bit number under a key, or the fault that the key is absent or
    /// its value is no such number.
    pub fn number_u64(&self, key: FieldKey) -> (value: Result<u64, FieldFault>)
        ensures
            match lookup(self@, key.name()) {
                None => value matches Err(fault) && fault@ == (FieldFaultView::MissingField { key }),
                Some(v) => match parse_unsigned(v, u64::MAX as nat) {
                    Some(n) => value == Ok::<u64, FieldFault>(n as u64),
                    None => value matches Err(fault) && fault@ == (FieldFaultView::InvalidValue {
                        key,
                    }),
                },
            },
    {
        match self.text(key) {
            Err(fault) => Err(fault),
            Ok(v) => match parse_u64(v.as_slice()) {
                Some(n) => Ok(n),
                None => Err(FieldFault::InvalidValue { key }),
            },
        }
    }

    /// The transaction type under a key, or the fault that the key is absent
    /// or its value is none of the three wire names.
    pub fn transaction_type(&self, key: FieldKey) -> (value: Result<TransactionType, FieldFault>)
        ensures
            match lookup(self@, key.name()) {
                None => value matches Err(fault) && fault@ == (FieldFaultView::MissingField { key }),
                Some(v) => match TransactionType::from_wire(v) {
                    Some(kind) => value == Ok::<TransactionType, FieldFault>(kind),
                    None => value matches Err(fault) && fault@ == (FieldFaultView::InvalidValue {
                        key,
                    }),
                },
            },
    {
        match self.text(key) {
            Err(fault) => Err(fault),
            Ok(v) => match TransactionType::from_chars(v.as_slice()) {
                Some(kind) => Ok(kind),
                None => Err(FieldFault::InvalidValue { key }),
            },
        }
    }

    /// The transaction status under a key, or the fault that the key is
    /// absent or its value is none of the three wire names.
    pub fn transaction_status(&self, key: FieldKey) -> (value: Result<
        TransactionStatus,
        FieldFault,
    >)
        ensures
            match lookup(self@, key.name()) {
                None => value matches Err(fault) && fault@ == (FieldFaultView::MissingField { key }),
                Some(v) => match TransactionStatus::from_wire(v) {
                    Some(status) => value == Ok::<TransactionStatus, FieldFault>(status),
                    None => value matches Err(fault) && fault@ == (FieldFaultView::InvalidValue {
                        key,
                    }),
                },
            },
    {
        match self.text(key) {
            Err(fault) => Err(fault),
            Ok(v) => match TransactionStatus::from_chars(v.as_slice()) {
                Some(status) => Ok(status),
                None => Err(FieldFault::InvalidValue { key }),
            },
        }
    }
}

} // verus!
