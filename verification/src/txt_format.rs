//! The block format: a record is a run of `KEY: value` lines, closed by a
//! blank line or by the end of the data. Lines that start with `#` are
//! comments.

use crate::common::{TransactionStatus, TransactionType};
use crate::decimal::{decimal, push_decimal};
use crate::record::{
    record_of, FieldFault, FieldFaultView, FieldKey, FieldMap, TransactionRecord,
};
use crate::text::{
    chars_of, first_index, lemma_first_index, push_str, push_utf8, string_of, trim, trim_bounds,
};
use vstd::prelude::*;
use vstd::slice::{slice_subrange, slice_to_vec};
use vstd::string::*;
use vstd::utf8::*;

verus! {

/// The fault that a reader of std reports. Nothing in it is looked at here.
#[verifier::external_type_specification]
#[verifier::external_body]
pub struct ExIoError(std::io::Error);

/// `std::str::from_utf8` gives the bytes back as text if and only if they are
/// valid UTF-8; the text is then made of exactly these bytes.
#[verifier::external_body]
fn text_of_bytes(bytes: &[u8]) -> (text: Option<&str>)
    ensures
        text is Some <==> valid_utf8(bytes@),
        text is Some ==> text->0.spec_bytes() == bytes@,
{
    std::str::from_utf8(bytes).ok()
}

/// One record of the block format.
#[derive(Debug)]
pub struct YPBankTextRecord {
    pub id: u32,
    pub transaction_type: TransactionType,
    pub from_user_id: u32,
    pub to_user_id: u32,
    pub amount: u64,
    pub timestamp: u64,
    pub transaction_status: TransactionStatus,
    pub description: String,
}

impl View for YPBankTextRecord {
    type V = TransactionRecord;

    open spec fn view(&self) -> TransactionRecord {
        TransactionRecord {
            id: self.id,
            transaction_type: self.transaction_type,
            from_user_id: self.from_user_id,
            to_user_id: self.to_user_id,
            amount: self.amount,
            timestamp: self.timestamp,
            transaction_status: self.transaction_status,
            description: self.description@,
        }
    }
}

/// Why no record could be read.
#[derive(Debug)]
pub enum TextRecordError {
    /// A line that is neither blank nor a comment holds no `:`.
    MissingColonAfterKey,
    /// The source failed while it was read.
    ReadLineError(std::io::Error),
    /// The block is not a record: a key is unknown or absent, a value is not
    /// of its type, or a line is not text.
    ParseError { error: FieldFault },
    /// The data ended before any record came out, with nothing but blank
    /// lines and comments in it.
    SourceIsEmpty,
    /// The data ended after at least one record, with nothing but blank lines
    /// and comments left.
    EmptyLinesAtEndOfFile,
}

/// A reading error as a mathematical value.
pub enum TextRecordErrorView {
    MissingColonAfterKey,
    ReadLineError(std::io::Error),
    ParseError { error: FieldFaultView },
    SourceIsEmpty,
    EmptyLinesAtEndOfFile,
}

impl View for TextRecordError {
    type V = TextRecordErrorView;

    open spec fn view(&self) -> TextRecordErrorView {
        match self {
            TextRecordError::MissingColonAfterKey => TextRecordErrorView::MissingColonAfterKey,
            TextRecordError::ReadLineError(fault) => TextRecordErrorView::ReadLineError(*fault),
            TextRecordError::ParseError { error } => TextRecordErrorView::ParseError { error: error@ },
            TextRecordError::SourceIsEmpty => TextRecordErrorView::SourceIsEmpty,
            TextRecordError::EmptyLinesAtEndOfFile => TextRecordErrorView::EmptyLinesAtEndOfFile,
        }
    }
}

/// The line feed that ends a line.
pub const LINE_FEED: u8 = 0x0A;

/// What one line of a block says.
#[derive(Debug)]
pub enum Line {
    /// The trimmed line starts with `#`.
    Comment,
    /// The trimmed line is empty.
    Blank,
    /// The trimmed line holds a `:`; the key stands before the first one and
    /// the value after it, both trimmed.
    Pair { key: Vec<char>, value: Vec<char> },
    /// The trimmed line is neither empty nor a comment and holds no `:`.
    NoColon,
    /// The line is not valid UTF-8.
    NotText,
}

/// A line as a mathematical value.
pub enum LineView {
    Comment,
    Blank,
    Pair { key: Seq<char>, value: Seq<char> },
    NoColon,
    NotText,
}

impl View for Line {
    type V = LineView;

    open spec fn view(&self) -> LineView {
        match self {
            Line::Comment => LineView::Comment,
            Line::Blank => LineView::Blank,
            Line::Pair { key, value } => LineView::Pair { key: key@, value: value@ },
            Line::NoColon => LineView::NoColon,
            Line::NotText => LineView::NotText,
        }
    }
}

/// How many characters stand before the first `:`; the length of the text
/// where it holds none.
pub open spec fn first_colon(text: Seq<char>) -> nat {
    first_index(text, ':')
}

/// What a line of text says, once trimmed.
pub open spec fn line_of_text(text: Seq<char>) -> LineView {
    let t = trim(text);
    if t.len() > 0 && t[0] == '#' {
        LineView::Comment
    } else if t.len() == 0 {
        LineView::Blank
    } else if first_colon(t) == t.len() {
        LineView::NoColon
    } else {
        LineView::Pair {
            key: trim(t.take(first_colon(t) as int)),
            value: trim(t.skip(first_colon(t) as int + 1)),
        }
    }
}

/// What a line says, given as the bytes between two line feeds.
pub open spec fn line_of(bytes: Seq<u8>) -> LineView {
    if valid_utf8(bytes) {
        line_of_text(decode_utf8(bytes))
    } else {
        LineView::NotText
    }
}

/// Finds the first `:`.
fn find_colon(text: &[char]) -> (n: usize)
    ensures
        n == first_colon(text@),
        n <= text.len(),
{
    let mut i: usize = 0;
    while i < text.len() && text[i] != ':'
        invariant
            i <= text.len(),
            forall|k: int| 0 <= k < i ==> #[trigger] text@[k] != ':',
        decreases text.len() - i,
    {
        i += 1;
    }
    proof {
        lemma_first_index(text@, ':', i as int);
    }
    i
}

/// A copy of the text without the whitespace at either end.
fn trimmed(text: &[char]) -> (out: Vec<char>)
    ensures
        out@ == trim(text@),
{
    let (start, end) = trim_bounds(text);
    slice_to_vec(slice_subrange(text, start, end))
}

/// Tells what a line of text says.
pub fn parse_text_line(text: &[char]) -> (line: Line)
    ensures
        line@ == line_of_text(text@),
{
    let (start, end) = trim_bounds(text);
    let t = slice_subrange(text, start, end);
    if t.len() > 0 && t[0] == '#' {
        return Line::Comment;
    }
    if t.len() == 0 {
        return Line::Blank;
    }
    let colon = find_colon(t);
    if colon == t.len() {
        return Line::NoColon;
    }
    let key = trimmed(slice_subrange(t, 0, colon));
    let value = trimmed(slice_subrange(t, colon + 1, t.len()));
    Line::Pair { key, value }
}

/// Tells what a line says, given as the bytes between two line feeds.
pub fn parse_line(bytes: &[u8]) -> (line: Line)
    ensures
        line@ == line_of(bytes@),
{
    match text_of_bytes(bytes) {
        None => Line::NotText,
        Some(text) => {
            proof {
                encode_utf8_decode_utf8(text@);
            }
            let chars = chars_of(text);
            parse_text_line(chars.as_slice())
        },
    }
}

/// A source of bytes as a mathematical value: what is left to read of it.
pub struct TextStream {
    /// The bytes that have not been read.
    pub rest: Seq<u8>,
    /// The fault that the source reports where its bytes run out; `None`
    /// where they end in the ordinary way.
    pub fault: Option<std::io::Error>,
    /// Whether a record has come out of this source.
    pub produced: bool,
}

/// A source of bytes held in memory, read from front to back.
pub struct TextReader {
    data: Vec<u8>,
    pos: usize,
    fault: Option<std::io::Error>,
    produced: bool,
}

impl View for TextReader {
    type V = TextStream;

    closed spec fn view(&self) -> TextStream {
        TextStream {
            rest: self.data@.skip(self.pos as int),
            fault: self.fault,
            produced: self.produced,
        }
    }
}

impl TextReader {
    #[verifier::type_invariant]
    spec fn in_bounds(self) -> bool {
        self.pos <= self.data@.len()
    }

    /// A reader at the start of the given bytes, which end in the ordinary way.
    pub fn new(data: Vec<u8>) -> (reader: TextReader)
        ensures
            reader@ == (TextStream { rest: data@, fault: None, produced: false }),
    {
        let reader = TextReader { data, pos: 0, fault: None, produced: false };
        assert(reader.data@.skip(0) == reader.data@);
        reader
    }

    /// A reader at the start of the bytes that a source gave before it failed
    /// with `fault`.
    pub fn with_fault(data: Vec<u8>, fault: std::io::Error) -> (reader: TextReader)
        ensures
            reader@ == (TextStream { rest: data@, fault: Some(fault), produced: false }),
    {
        let reader = TextReader { data, pos: 0, fault: Some(fault), produced: false };
        assert(reader.data@.skip(0) == reader.data@);
        reader
    }

    /// How many bytes are left to read.
    pub fn remaining(&self) -> (n: usize)
        ensures
            n == self@.rest.len(),
    {
        proof {
            use_type_invariant(self);
        }
        self.data.len() - self.pos
    }
}

/// How many bytes the first line has: those before the first line feed, or
/// all of them where there is none.
pub open spec fn line_len(bytes: Seq<u8>) -> nat {
    first_index(bytes, LINE_FEED)
}

/// The bytes of the first line, without its line feed.
pub open spec fn first_line(bytes: Seq<u8>) -> Seq<u8> {
    bytes.take(line_len(bytes) as int)
}

/// What follows the first line and its line feed.
pub open spec fn after_line(bytes: Seq<u8>) -> Seq<u8> {
    if line_len(bytes) < bytes.len() {
        bytes.skip(line_len(bytes) as int + 1)
    } else {
        Seq::empty()
    }
}

/// The outcome of reading one record, and what is left of the source.
pub struct Decoded {
    pub outcome: Result<TransactionRecord, TextRecordErrorView>,
    pub stream: TextStream,
}

/// The end of a block: its pairs are a record, after which the source has
/// produced one, or they are refused.
pub open spec fn close_block(stream: TextStream, pairs: Seq<(Seq<char>, Seq<char>)>) -> Decoded {
    match record_of(pairs) {
        Ok(record) => Decoded {
            outcome: Ok(record),
            stream: TextStream { produced: true, ..stream },
        },
        Err(error) => Decoded { outcome: Err(TextRecordErrorView::ParseError { error }), stream },
    }
}

/// Reading on in a block of which `pairs` have been gathered.
///
/// A line that runs into a failing end of the source gives the fault. At the
/// end of the data the gathered pairs are closed; with none gathered the
/// source is empty, or only blank lines and comments were left after an
/// earlier record. A comment is passed over. A blank line closes the block
/// if pairs have been gathered, and is passed over otherwise. A line with a
/// `:` adds a pair. Any other line is an error.
pub open spec fn decode_block(stream: TextStream, pairs: Seq<(Seq<char>, Seq<char>)>) -> Decoded
    decreases stream.rest.len(),
{
    if line_len(stream.rest) == stream.rest.len() && stream.fault is Some {
        Decoded {
            outcome: Err(TextRecordErrorView::ReadLineError(stream.fault->0)),
            stream: TextStream { rest: Seq::empty(), fault: None, produced: stream.produced },
        }
    } else if stream.rest.len() == 0 {
        if pairs.len() > 0 {
            close_block(stream, pairs)
        } else if stream.produced {
            Decoded { outcome: Err(TextRecordErrorView::EmptyLinesAtEndOfFile), stream }
        } else {
            Decoded { outcome: Err(TextRecordErrorView::SourceIsEmpty), stream }
        }
    } else {
        let after = TextStream { rest: after_line(stream.rest), ..stream };
        match line_of(first_line(stream.rest)) {
            LineView::NotText => Decoded {
                outcome: Err(
                    TextRecordErrorView::ParseError { error: FieldFaultView::InvalidUtf8 },
                ),
                stream: after,
            },
            LineView::NoColon => Decoded {
                outcome: Err(TextRecordErrorView::MissingColonAfterKey),
                stream: after,
            },
            LineView::Comment => decode_block(after, pairs),
            LineView::Blank => if pairs.len() > 0 {
                close_block(after, pairs)
            } else {
                decode_block(after, pairs)
            },
            LineView::Pair { key, value } => decode_block(after, pairs.push((key, value))),
        }
    }
}

/// Reading one record from a source.
pub open spec fn decode(stream: TextStream) -> Decoded {
    decode_block(stream, Seq::empty())
}

/// The result of a read as a mathematical value.
pub open spec fn outcome_view(result: Result<YPBankTextRecord, TextRecordError>) -> Result<
    TransactionRecord,
    TextRecordErrorView,
> {
    match result {
        Ok(record) => Ok(record@),
        Err(error) => Err(error@),
    }
}

/// One line of a block: the key, a colon and a space, the value, a line feed.
pub open spec fn field_line(key: FieldKey, value: Seq<char>) -> Seq<char> {
    key.name() + seq![':', ' '] + value + seq!['\n']
}

/// The text of a record's block: the eight lines in canonical order, numbers
/// in decimal, enumerations by their wire names, the description as it is,
/// and an empty line that closes the block.
pub open spec fn block_text(record: TransactionRecord) -> Seq<char> {
    field_line(FieldKey::TxId, decimal(record.id as nat)) + field_line(
        FieldKey::TxType,
        record.transaction_type.wire_name(),
    ) + field_line(FieldKey::FromUserId, decimal(record.from_user_id as nat)) + field_line(
        FieldKey::ToUserId,
        decimal(record.to_user_id as nat),
    ) + field_line(FieldKey::Amount, decimal(record.amount as nat)) + field_line(
        FieldKey::Timestamp,
        decimal(record.timestamp as nat),
    ) + field_line(FieldKey::Status, record.transaction_status.wire_name()) + field_line(
        FieldKey::Description,
        record.description,
    ) + seq!['\n']
}

/// The bytes of a record's block.
pub open spec fn encode(record: TransactionRecord) -> Seq<u8> {
    encode_utf8(block_text(record))
}

/// Appends the start of a line: the key, a colon and a space.
fn push_key(out: &mut Vec<char>, key: FieldKey)
    ensures
        final(out)@ == old(out)@ + key.name() + seq![':', ' '],
{
    push_str(out, key.as_str());
    out.push(':');
    out.push(' ');
    assert(out@ == old(out)@ + key.name() + seq![':', ' ']);
}

/// Appends a line whose value is a number.
fn push_number_line(out: &mut Vec<char>, key: FieldKey, n: u64)
    ensures
        final(out)@ == old(out)@ + field_line(key, decimal(n as nat)),
{
    push_key(out, key);
    push_decimal(out, n);
    out.push('\n');
    assert(out@ == old(out)@ + field_line(key, decimal(n as nat)));
}

/// Appends a line whose value is the given text.
fn push_text_line(out: &mut Vec<char>, key: FieldKey, value: &str)
    ensures
        final(out)@ == old(out)@ + field_line(key, value@),
{
    push_key(out, key);
    push_str(out, value);
    out.push('\n');
    assert(out@ == old(out)@ + field_line(key, value@));
}

/// Finds the end of the line that starts at `start`.
fn line_end(data: &Vec<u8>, start: usize) -> (end: usize)
    requires
        start <= data.len(),
    ensures
        start <= end <= data.len(),
        end - start == line_len(data@.skip(start as int)),
{
    let mut end: usize = start;
    while end < data.len() && data[end] != LINE_FEED
        invariant
            start <= end <= data.len(),
            forall|k: int| start <= k < end ==> #[trigger] data@[k] != LINE_FEED,
        decreases data.len() - end,
    {
        end += 1;
    }
    proof {
        let rest = data@.skip(start as int);
        assert forall|i: int| 0 <= i < end - start implies #[trigger] rest[i] != LINE_FEED by {
            assert(rest[i] == data@[start + i]);
        }
        lemma_first_index(rest, LINE_FEED, end - start);
    }
    end
}

impl YPBankTextRecord {
    /// A record with every number zero, the first variant of each
    /// enumeration and an empty description.
    pub fn default() -> (record: YPBankTextRecord)
        ensures
            record@ == (TransactionRecord {
                id: 0,
                transaction_type: TransactionType::Deposit,
                from_user_id: 0,
                to_user_id: 0,
                amount: 0,
                timestamp: 0,
                transaction_status: TransactionStatus::Pending,
                description: Seq::empty(),
            }),
    {
        YPBankTextRecord {
            id: 0,
            transaction_type: TransactionType::Deposit,
            from_user_id: 0,
            to_user_id: 0,
            amount: 0,
            timestamp: 0,
            transaction_status: TransactionStatus::Pending,
            description: String::new(),
        }
    }

    /// The record that the pairs stand for, or the fault they are refused for.
    pub fn from_fields(map: &FieldMap) -> (result: Result<YPBankTextRecord, FieldFault>)
        ensures
            match record_of(map@) {
                Ok(record) => result matches Ok(r) && r@ == record,
                Err(fault) => result matches Err(e) && e@ == fault,
            },
    {
        match map.check_keys() {
            Ok(()) => {},
            Err(fault) => {
                return Err(fault);
            },
        }
        let id = match map.number_u32(FieldKey::TxId) {
            Ok(v) => v,
            Err(fault) => {
                return Err(fault);
            },
        };
        let transaction_type = match map.transaction_type(FieldKey::TxType) {
            Ok(v) => v,
            Err(fault) => {
                return Err(fault);
            },
        };
        let from_user_id = match map.number_u32(FieldKey::FromUserId) {
            Ok(v) => v,
            Err(fault) => {
                return Err(fault);
            },
        };
        let to_user_id = match map.number_u32(FieldKey::ToUserId) {
            Ok(v) => v,
            Err(fault) => {
                return Err(fault);
            },
        };
        let amount = match map.number_u64(FieldKey::Amount) {
            Ok(v) => v,
            Err(fault) => {
                return Err(fault);
            },
        };
        let timestamp = match map.number_u64(FieldKey::Timestamp) {
            Ok(v) => v,
            Err(fault) => {
                return Err(fault);
            },
        };
        let transaction_status = match map.transaction_status(FieldKey::Status) {
            Ok(v) => v,
            Err(fault) => {
                return Err(fault);
            },
        };
        let description = match map.text(FieldKey::Description) {
            Ok(v) => string_of(v.as_slice()),
            Err(fault) => {
                return Err(fault);
            },
        };
        Ok(
            YPBankTextRecord {
                id,
                transaction_type,
                from_user_id,
                to_user_id,
                amount,
                timestamp,
                transaction_status,
                description,
            },
        )
    }

    /// Turns the gathered pairs into a record, or names the fault they are
    /// refused for, and leaves the map empty for the next block.
    pub fn parse_transaction(map: &mut FieldMap) -> (result: Result<YPBankTextRecord, FieldFault>)
        ensures
            final(map)@.len() == 0,
            match record_of(old(map)@) {
                Ok(record) => result matches Ok(r) && r@ == record,
                Err(fault) => result matches Err(e) && e@ == fault,
            },
    {
        let result = Self::from_fields(map);
        map.clear();
        result
    }

    /// The text of the record's block.
    pub fn to_block(&self) -> (text: Vec<char>)
        ensures
            text@ == block_text(self@),
    {
        let mut text: Vec<char> = Vec::new();
        push_number_line(&mut text, FieldKey::TxId, self.id as u64);
        push_text_line(&mut text, FieldKey::TxType, self.transaction_type.as_str());
        push_number_line(&mut text, FieldKey::FromUserId, self.from_user_id as u64);
        push_number_line(&mut text, FieldKey::ToUserId, self.to_user_id as u64);
        push_number_line(&mut text, FieldKey::Amount, self.amount);
        push_number_line(&mut text, FieldKey::Timestamp, self.timestamp);
        push_text_line(&mut text, FieldKey::Status, self.transaction_status.as_str());
        push_text_line(&mut text, FieldKey::Description, self.description.as_str());
        text.push('\n');
        assert(text@ == block_text(self@));
        text
    }

    /// Appends the record's block to the sink: eight `KEY: value` lines in
    /// canonical order and an empty line. A sink in memory takes every byte,
    /// so the call succeeds; the record is left as it was.
    pub fn write_to(&mut self, writer: &mut Vec<u8>) -> (result: Result<(), std::io::Error>)
        ensures
            result is Ok,
            *final(self) == *old(self),
            final(writer)@ == old(writer)@ + encode(old(self)@),
    {
        let text = self.to_block();
        push_utf8(writer, text.as_slice());
        Ok(())
    }

    /// Reads the next record from the source.
    ///
    /// The outcome and what is left of the source are those of `decode`: a
    /// record where the next block has each of the eight keys with a value of
    /// its type and no other key, and else the one error that `decode` names.
    pub fn from_read(reader: &mut TextReader) -> (result: Result<YPBankTextRecord, TextRecordError>)
        ensures
            outcome_view(result) == decode(old(reader)@).outcome,
            final(reader)@ == decode(old(reader)@).stream,
    {
        let ghost goal = decode(reader@);
        let mut map = FieldMap::new();
        loop
            invariant
                decode_block(reader@, map@) == goal,
                goal == decode(old(reader)@),
            decreases reader@.rest.len(),
        {
            proof {
                use_type_invariant(&*reader);
            }
            let ghost stream = reader@;
            let start = reader.pos;
            let end = line_end(&reader.data, start);
            let ran_out = end == reader.data.len();
            assert(ran_out == (line_len(stream.rest) == stream.rest.len()));
            if ran_out && reader.fault.is_some() {
                let mut spent = TextReader {
                    data: Vec::new(),
                    pos: 0,
                    fault: None,
                    produced: reader.produced,
                };
                std::mem::swap(reader, &mut spent);
                assert(reader@.rest == Seq::<u8>::empty());
                let TextReader { data: _, pos: _, fault, produced: _ } = spent;
                return Err(TextRecordError::ReadLineError(fault.unwrap()));
            }
            if start == reader.data.len() {
                if !map.is_empty() {
                    return match Self::parse_transaction(&mut map) {
                        Ok(record) => {
                            reader.produced = true;
                            Ok(record)
                        },
                        Err(error) => Err(TextRecordError::ParseError { error }),
                    };
                }
                if reader.produced {
                    return Err(TextRecordError::EmptyLinesAtEndOfFile);
                }
                return Err(TextRecordError::SourceIsEmpty);
            }
            let line = parse_line(slice_subrange(reader.data.as_slice(), start, end));
            reader.pos = if ran_out {
                end
            } else {
                end + 1
            };
            proof {
                assert(first_line(stream.rest) == reader.data@.subrange(start as int, end as int));
                assert(reader@.rest == after_line(stream.rest));
            }
            match line {
                Line::NotText => {
                    return Err(TextRecordError::ParseError { error: FieldFault::InvalidUtf8 });
                },
                Line::NoColon => {
                    return Err(TextRecordError::MissingColonAfterKey);
                },
                Line::Comment => {},
                Line::Blank => {
                    if !map.is_empty() {
                        return match Self::parse_transaction(&mut map) {
                            Ok(record) => {
                                reader.produced = true;
                                Ok(record)
                            },
                            Err(error) => Err(TextRecordError::ParseError { error }),
                        };
                    }
                },
                Line::Pair { key, value } => {
                    map.insert(key, value);
                },
            }
        }
    }
}

impl crate::Readable<Vec<u8>, TextRecordError> for YPBankTextRecord {
    type Reader = TextReader;

    /// The reader stands at the start of the bytes, which end in the
    /// ordinary way, and has produced nothing.
    open spec fn built(source: Vec<u8>, reader: TextReader) -> bool {
        reader@ == (TextStream { rest: source@, fault: None, produced: false })
    }

    /// The outcome and the reader afterwards are those that `decode` gives.
    open spec fn reads(
        before: TextReader,
        after: TextReader,
        outcome: Result<YPBankTextRecord, TextRecordError>,
    ) -> bool {
        &&& outcome_view(outcome) == decode(before@).outcome
        &&& after@ == decode(before@).stream
    }

    fn build_reader(source: Vec<u8>) -> (reader: TextReader) {
        TextReader::new(source)
    }

    fn read(reader: &mut TextReader) -> (outcome: Result<YPBankTextRecord, TextRecordError>) {
        Self::from_read(reader)
    }
}

impl crate::Writable<std::io::Error> for YPBankTextRecord {
    /// The block format has no header.
    open spec fn header() -> Seq<u8> {
        Seq::empty()
    }

    open spec fn encoding(&self) -> Seq<u8> {
        encode(self@)
    }

    /// A sink in memory takes every byte.
    open spec fn unfailing() -> bool {
        true
    }

    fn write_header(writer: &mut Vec<u8>) -> (result: Result<(), std::io::Error>) {
        assert(writer@ + Seq::<u8>::empty() == writer@);
        Ok(())
    }

    fn write(&self, writer: &mut Vec<u8>) -> (result: Result<(), std::io::Error>) {
        let text = self.to_block();
        push_utf8(writer, text.as_slice());
        Ok(())
    }
}

} // verus!
