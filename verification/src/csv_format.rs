//! The tabular format: a header row that names the eight columns, then one
//! comma-separated row per record. Splitting the bytes into rows and fields,
//! with the quoting that goes with it, is the work of the `csv` crate; which
//! rows are records is decided here.

use crate::common::{TransactionStatus, TransactionType};
use crate::decimal::{decimal, push_decimal};
use crate::record::{
    lemma_pairs_of_record, pairs_of_record, record_of, FieldKey, FieldMap, TransactionRecord,
};
use crate::text::{chars_of, push_str, push_utf8};
use crate::txt_format::YPBankTextRecord;
use vstd::prelude::*;
use vstd::string::*;
use vstd::utf8::*;

verus! {

/// The header row that `csv::Reader::headers` finds in the bytes, each field
/// trimmed; `None` where it reports an error.
pub uninterp spec fn csv_header(source: Seq<u8>) -> Option<Seq<Seq<char>>>;

/// What the iterator of `csv::Reader::into_records` yields for the bytes, row
/// by row after the header row, each field trimmed; `None` stands for a row
/// that it reports as an error.
pub uninterp spec fn csv_rows(source: Seq<u8>) -> Seq<Option<Seq<Seq<char>>>>;

/// The fields of a row as mathematical values.
pub open spec fn fields_view(fields: Seq<String>) -> Seq<Seq<char>> {
    Seq::new(fields.len(), |i: int| fields[i]@)
}

/// A row, or the lack of one, as a mathematical value.
pub open spec fn row_view(row: Option<Vec<String>>) -> Option<Seq<Seq<char>>> {
    match row {
        Some(fields) => Some(fields_view(fields@)),
        None => None,
    }
}

/// Rows as mathematical values.
pub open spec fn rows_view(rows: Seq<Option<Vec<String>>>) -> Seq<Option<Seq<Seq<char>>>> {
    Seq::new(rows.len(), |i: int| row_view(rows[i]))
}

/// Calls `csv::Reader::headers` on a reader over the bytes that trims headers
/// and fields. The contract only names the result.
#[verifier::external_body]
fn read_header(source: &[u8]) -> (header: Option<Vec<String>>)
    ensures
        row_view(header) == csv_header(source@),
{
    let mut reader = csv::ReaderBuilder::new().trim(csv::Trim::All).from_reader(source);
    reader.headers().ok().map(|row| row.iter().map(String::from).collect())
}

/// Walks the iterator of `csv::Reader::into_records` on a reader over the
/// bytes that trims headers and fields. The contract only names the result.
#[verifier::external_body]
fn read_rows(source: &[u8]) -> (rows: Vec<Option<Vec<String>>>)
    ensures
        rows_view(rows@) == csv_rows(source@),
{
    let reader = csv::ReaderBuilder::new().trim(csv::Trim::All).from_reader(source);
    reader.into_records().map(|row| row.ok().map(|r| r.iter().map(String::from).collect())).collect()
}

/// One record of the tabular format.
#[derive(Debug, PartialEq, Eq)]
pub struct YPBankCsvRecord {
    pub id: u32,
    pub transaction_type: TransactionType,
    pub from_user_id: u32,
    pub to_user_id: u32,
    pub amount: u64,
    pub timestamp: u64,
    pub transaction_status: TransactionStatus,
    pub description: String,
}

impl View for YPBankCsvRecord {
    type V = TransactionRecord;

    open spec fn view(&self) -> TransactionRecord {
        TransactionRecord {
            id: self.id,
            transaction_type: self.transaction_type,
            from_user_id: self.from_user_id,
            to_user_id: self.to_user_id,
            amount: self.amount,
            timestamp: self.timestamp,
            transaction_status: self.transaction_status,
            description: self.description@,
        }
    }
}

/// Why no record could be read.
#[derive(Debug, Clone, Copy, PartialEq, Eq, Structural)]
pub enum CsvRecordError {
    /// The next row is not a record.
    MalformedRow,
    /// There is no next row.
    EndOfInput,
}

/// The rows of a source, as split by the `csv` crate, as a mathematical value.
pub struct CsvStream {
    /// The header row; `None` where it could not be read.
    pub header: Option<Seq<Seq<char>>>,
    /// The rows that have not been handed out; `None` stands for a row that
    /// could not be read.
    pub rows: Seq<Option<Seq<Seq<char>>>>,
}

/// The rows of a source, handed out from first to last.
pub struct CsvReader {
    header: Option<Vec<String>>,
    rows: Vec<Option<Vec<String>>>,
    next: usize,
}

impl View for CsvReader {
    type V = CsvStream;

    closed spec fn view(&self) -> CsvStream {
        CsvStream {
            header: row_view(self.header),
            rows: rows_view(self.rows@).skip(self.next as int),
        }
    }
}

/// The header names paired with the fields of a row.
pub open spec fn pairs_of(header: Seq<Seq<char>>, fields: Seq<Seq<char>>) -> Seq<
    (Seq<char>, Seq<char>),
>
    recommends
        header.len() == fields.len(),
{
    Seq::new(header.len(), |i: int| (header[i], fields[i]))
}

/// The record that a row stands for under a header.
///
/// It is a record where there are exactly eight columns, their names are the
/// eight keys in any order, and each field is of its key's type. Anything
/// else is a malformed row.
pub open spec fn decode_row(header: Seq<Seq<char>>, fields: Seq<Seq<char>>) -> Result<
    TransactionRecord,
    CsvRecordError,
> {
    if header.len() == 8 && fields.len() == 8 {
        match record_of(pairs_of(header, fields)) {
            Ok(record) => Ok(record),
            Err(_) => Err(CsvRecordError::MalformedRow),
        }
    } else {
        Err(CsvRecordError::MalformedRow)
    }
}

/// The outcome of reading the next row: a row or a header that could not be
/// read is a malformed row.
pub open spec fn decode_next_row(header: Option<Seq<Seq<char>>>, row: Option<Seq<Seq<char>>>) -> Result<
    TransactionRecord,
    CsvRecordError,
> {
    match (header, row) {
        (Some(h), Some(f)) => decode_row(h, f),
        _ => Err(CsvRecordError::MalformedRow),
    }
}

/// The header names in canonical order.
pub open spec fn canonical_header() -> Seq<Seq<char>> {
    seq![
        FieldKey::TxId.name(),
        FieldKey::TxType.name(),
        FieldKey::FromUserId.name(),
        FieldKey::ToUserId.name(),
        FieldKey::Amount.name(),
        FieldKey::Timestamp.name(),
        FieldKey::Status.name(),
        FieldKey::Description.name(),
    ]
}

/// The fields of a record's row, as they stand between the commas once the
/// quotes are taken off.
pub open spec fn row_fields(record: TransactionRecord) -> Seq<Seq<char>> {
    seq![
        decimal(record.id as nat),
        record.transaction_type.wire_name(),
        decimal(record.from_user_id as nat),
        decimal(record.to_user_id as nat),
        decimal(record.amount as nat),
        decimal(record.timestamp as nat),
        record.transaction_status.wire_name(),
        record.description,
    ]
}

/// The fields of a record's row, under the canonical header, are read back as
/// the record. What is left to the `csv` crate is to split the written row
/// into these fields again.
pub proof fn lemma_row_round_trip(record: TransactionRecord)
    ensures
        decode_row(canonical_header(), row_fields(record)) == Ok::<
            TransactionRecord,
            CsvRecordError,
        >(record),
{
    assert(pairs_of(canonical_header(), row_fields(record)) == pairs_of_record(record));
    lemma_pairs_of_record(record);
}

/// The result of a read as a mathematical value.
pub open spec fn outcome_view(result: Result<YPBankCsvRecord, CsvRecordError>) -> Result<
    TransactionRecord,
    CsvRecordError,
> {
    match result {
        Ok(record) => Ok(record@),
        Err(error) => Err(error),
    }
}

/// A description with each `"` in it written twice.
pub open spec fn double_quotes(text: Seq<char>) -> Seq<char>
    decreases text.len(),
{
    if text.len() == 0 {
        Seq::empty()
    } else if text.last() == '"' {
        double_quotes(text.drop_last()) + seq!['"', '"']
    } else {
        double_quotes(text.drop_last()).push(text.last())
    }
}

/// The header row, with its line feed.
pub open spec fn header_text() -> Seq<char> {
    "TX_ID,TX_TYPE,FROM_USER_ID,TO_USER_ID,AMOUNT,TIMESTAMP,STATUS,DESCRIPTION\n"@
}

/// The row of a record, with its line feed: the fields in canonical order
/// between commas, the description between quotes with its own quotes
/// doubled.
pub open spec fn row_text(record: TransactionRecord) -> Seq<char> {
    decimal(record.id as nat) + seq![','] + record.transaction_type.wire_name() + seq![','] + decimal(
        record.from_user_id as nat,
    ) + seq![','] + decimal(record.to_user_id as nat) + seq![','] + decimal(record.amount as nat)
        + seq![','] + decimal(record.timestamp as nat) + seq![',']
        + record.transaction_status.wire_name() + seq![',', '"'] + double_quotes(record.description)
        + seq!['"', '\n']
}

/// Appends the text with each `"` in it written twice.
fn push_quoted(out: &mut Vec<char>, text: &[char])
    ensures
        final(out)@ == old(out)@ + double_quotes(text@),
{
    let mut i: usize = 0;
    assert(text@.take(0) == Seq::<char>::empty());
    while i < text.len()
        invariant
            i <= text.len(),
            out@ == old(out)@ + double_quotes(text@.take(i as int)),
        decreases text.len() - i,
    {
        let ghost head = text@.take(i + 1);
        assert(head.drop_last() == text@.take(i as int));
        assert(head.last() == text@[i as int]);
        let c = text[i];
        if c == '"' {
            out.push('"');
            out.push('"');
            assert(out@ == old(out)@ + double_quotes(head));
        } else {
            out.push(c);
            assert(out@ == old(out)@ + double_quotes(head));
        }
        i += 1;
    }
    assert(text@.take(i as int) == text@);
}

impl CsvReader {
    #[verifier::type_invariant]
    spec fn in_bounds(self) -> bool {
        self.next <= self.rows@.len()
    }

    /// The rows of the given bytes, as the `csv` crate splits them.
    pub fn new(source: Vec<u8>) -> (reader: CsvReader)
        ensures
            reader@ == (CsvStream { header: csv_header(source@), rows: csv_rows(source@) }),
    {
        let header = read_header(source.as_slice());
        let rows = read_rows(source.as_slice());
        let reader = CsvReader { header, rows, next: 0 };
        assert(rows_view(reader.rows@).skip(0) == rows_view(reader.rows@));
        reader
    }

    /// A reader over rows that are given as they are.
    pub fn from_rows(header: Option<Vec<String>>, rows: Vec<Option<Vec<String>>>) -> (reader:
        CsvReader)
        ensures
            reader@ == (CsvStream { header: row_view(header), rows: rows_view(rows@) }),
    {
        let reader = CsvReader { header, rows, next: 0 };
        assert(rows_view(reader.rows@).skip(0) == rows_view(reader.rows@));
        reader
    }

    /// How many rows are left to hand out.
    pub fn remaining(&self) -> (n: usize)
        ensures
            n == self@.rows.len(),
    {
        proof {
            use_type_invariant(self);
        }
        self.rows.len() - self.next
    }
}

impl YPBankCsvRecord {
    /// The record that a row stands for under a header.
    pub fn from_row(header: &Vec<String>, fields: &Vec<String>) -> (result: Result<
        YPBankCsvRecord,
        CsvRecordError,
    >)
        ensures
            outcome_view(result) == decode_row(fields_view(header@), fields_view(fields@)),
    {
        if header.len() != 8 || fields.len() != 8 {
            return Err(CsvRecordError::MalformedRow);
        }
        let mut map = FieldMap::new();
        let mut i: usize = 0;
        while i < 8
            invariant
                i <= 8,
                header.len() == 8,
                fields.len() == 8,
                map@ == pairs_of(fields_view(header@), fields_view(fields@)).take(i as int),
            decreases 8 - i,
        {
            map.insert_str(header[i].as_str(), fields[i].as_str());
            assert(map@ == pairs_of(fields_view(header@), fields_view(fields@)).take(i + 1));
            i += 1;
        }
        assert(map@ == pairs_of(fields_view(header@), fields_view(fields@)));
        match YPBankTextRecord::from_fields(&map) {
            Ok(record) => Ok(
                YPBankCsvRecord {
                    id: record.id,
                    transaction_type: record.transaction_type,
                    from_user_id: record.from_user_id,
                    to_user_id: record.to_user_id,
                    amount: record.amount,
                    timestamp: record.timestamp,
                    transaction_status: record.transaction_status,
                    description: record.description,
                },
            ),
            Err(_) => Err(CsvRecordError::MalformedRow),
        }
    }

    /// The text of the record's row.
    pub fn to_row(&self) -> (text: Vec<char>)
        ensures
            text@ == row_text(self@),
    {
        let mut text: Vec<char> = Vec::new();
        push_decimal(&mut text, self.id as u64);
        text.push(',');
        push_str(&mut text, self.transaction_type.as_str());
        text.push(',');
        push_decimal(&mut text, self.from_user_id as u64);
        text.push(',');
        push_decimal(&mut text, self.to_user_id as u64);
        text.push(',');
        push_decimal(&mut text, self.amount);
        text.push(',');
        push_decimal(&mut text, self.timestamp);
        text.push(',');
        push_str(&mut text, self.transaction_status.as_str());
        text.push(',');
        text.push('"');
        let description = chars_of(self.description.as_str());
        push_quoted(&mut text, description.as_slice());
        text.push('"');
        text.push('\n');
        assert(text@ == row_text(self@));
        text
    }
}

impl crate::Readable<Vec<u8>, CsvRecordError> for YPBankCsvRecord {
    type Reader = CsvReader;

    /// The reader holds the rows of the bytes, as the `csv` crate splits them.
    open spec fn built(source: Vec<u8>, reader: CsvReader) -> bool {
        reader@ == (CsvStream { header: csv_header(source@), rows: csv_rows(source@) })
    }

    /// With no row left the input has ended and the reader stays as it is.
    /// Else the first row is taken, and it is a record or a malformed row.
    open spec fn reads(
        before: CsvReader,
        after: CsvReader,
        outcome: Result<YPBankCsvRecord, CsvRecordError>,
    ) -> bool {
        if before@.rows.len() == 0 {
            &&& outcome == Err::<YPBankCsvRecord, CsvRecordError>(CsvRecordError::EndOfInput)
            &&& after@ == before@
        } else {
            &&& outcome_view(outcome) == decode_next_row(before@.header, before@.rows[0])
            &&& after@ == (CsvStream { header: before@.header, rows: before@.rows.drop_first() })
        }
    }

    fn build_reader(source: Vec<u8>) -> (reader: CsvReader) {
        CsvReader::new(source)
    }

    fn read(reader: &mut CsvReader) -> (outcome: Result<YPBankCsvRecord, CsvRecordError>) {
        proof {
            use_type_invariant(&*reader);
        }
        if reader.next >= reader.rows.len() {
            return Err(CsvRecordError::EndOfInput);
        }
        let at = reader.next;
        reader.next = at + 1;
        proof {
            let all = rows_view(old(reader).rows@);
            assert(old(reader)@.rows[0] == all[at as int]);
            assert(reader@.rows == old(reader)@.rows.drop_first());
        }
        match (&reader.header, &reader.rows[at]) {
            (Some(header), Some(fields)) => Self::from_row(header, fields),
            _ => Err(CsvRecordError::MalformedRow),
        }
    }
}

impl crate::Writable<std::io::Error> for YPBankCsvRecord {
    /// The header row.
    open spec fn header() -> Seq<u8> {
        encode_utf8(header_text())
    }

    open spec fn encoding(&self) -> Seq<u8> {
        encode_utf8(row_text(self@))
    }

    /// A sink in memory takes every byte.
    open spec fn unfailing() -> bool {
        true
    }

    fn write_header(writer: &mut Vec<u8>) -> (result: Result<(), std::io::Error>) {
        let text = chars_of(
            "TX_ID,TX_TYPE,FROM_USER_ID,TO_USER_ID,AMOUNT,TIMESTAMP,STATUS,DESCRIPTION\n",
        );
        push_utf8(writer, text.as_slice());
        Ok(())
    }

    fn write(&self, writer: &mut Vec<u8>) -> (result: Result<(), std::io::Error>) {
        let text = self.to_row();
        push_utf8(writer, text.as_slice());
        Ok(())
    }
}

} // verus!
