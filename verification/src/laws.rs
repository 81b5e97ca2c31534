//! What holds of the block format as a whole: blocks are read one after the
//! other in the order they stand in, comments and blank lines between them
//! add nothing, and a record that was written is read back.

use crate::decimal::{decimal, is_digit, lemma_decimal_digits};
use crate::record::{
    lemma_pairs_of_record, pairs_of_record, record_of, FieldFaultView, FieldKey,
    TransactionRecord,
};
use crate::text::{
    is_whitespace, lemma_decode_encoded, lemma_encode_concat, lemma_encode_without_ascii,
    lemma_first_index, lemma_first_index_shape, lemma_trim_is_range, lemma_trim_of_trimmed,
    lemma_trim_range, trim,
};
use crate::txt_format::{
    after_line, block_text, close_block, decode, decode_block, encode, field_line, first_colon,
    first_line, line_len, line_of, line_of_text, Decoded, LineView, TextRecordErrorView,
    TextStream, YPBankTextRecord, LINE_FEED,
};
use crate::{encodings, Writable};
use vstd::prelude::*;
use vstd::utf8::*;

verus! {

/// Bytes that hold no line feed.
pub open spec fn without_line_feed(line: Seq<u8>) -> bool {
    forall|i: int| 0 <= i < line.len() ==> #[trigger] line[i] != LINE_FEED
}

/// The lines one after the other, each closed by a line feed.
pub open spec fn join_lines(lines: Seq<Seq<u8>>) -> Seq<u8>
    decreases lines.len(),
{
    if lines.len() == 0 {
        Seq::empty()
    } else {
        lines[0] + seq![LINE_FEED] + join_lines(lines.drop_first())
    }
}

/// The pairs that the lines hold, in the order of the lines. Comments and
/// blank lines contribute none.
pub open spec fn gathered(lines: Seq<Seq<u8>>) -> Seq<(Seq<char>, Seq<char>)>
    decreases lines.len(),
{
    if lines.len() == 0 {
        Seq::empty()
    } else {
        match line_of(lines[0]) {
            LineView::Pair { key, value } => seq![(key, value)] + gathered(lines.drop_first()),
            _ => gathered(lines.drop_first()),
        }
    }
}

/// Lines that make up one block and its closing blank line.
///
/// Before the first pair any number of blank lines and comments may stand;
/// from the first pair on only pairs and comments, up to the blank line that
/// is the last of the lines. `started` says whether a pair has been seen.
pub open spec fn is_block(lines: Seq<Seq<u8>>, started: bool) -> bool
    decreases lines.len(),
{
    if lines.len() == 0 || !without_line_feed(lines[0]) {
        false
    } else {
        match line_of(lines[0]) {
            LineView::Blank => if started {
                lines.len() == 1
            } else {
                is_block(lines.drop_first(), false)
            },
            LineView::Comment => is_block(lines.drop_first(), started),
            LineView::Pair { .. } => is_block(lines.drop_first(), true),
            _ => false,
        }
    }
}

/// A line that ends with a line feed is the first line of what it starts, and
/// what follows the line feed comes after it.
pub proof fn lemma_first_line(line: Seq<u8>, tail: Seq<u8>)
    requires
        without_line_feed(line),
    ensures
        line_len(line + seq![LINE_FEED] + tail) == line.len(),
        first_line(line + seq![LINE_FEED] + tail) == line,
        after_line(line + seq![LINE_FEED] + tail) == tail,
{
    let bytes = line + seq![LINE_FEED] + tail;
    assert forall|i: int| 0 <= i < line.len() implies #[trigger] bytes[i] != LINE_FEED by {
        assert(bytes[i] == line[i]);
    }
    assert(bytes[line.len() as int] == LINE_FEED);
    lemma_first_index(bytes, LINE_FEED, line.len() as int);
    assert(bytes.take(line.len() as int) == line);
    assert(bytes.skip(line.len() as int + 1) == tail);
}

/// Reading through the lines of a block gathers their pairs and closes the
/// block at its blank line, whatever follows.
pub proof fn lemma_block(
    lines: Seq<Seq<u8>>,
    pairs: Seq<(Seq<char>, Seq<char>)>,
    tail: Seq<u8>,
    fault: Option<std::io::Error>,
    produced: bool,
)
    requires
        is_block(lines, pairs.len() > 0),
    ensures
        decode_block(TextStream { rest: join_lines(lines) + tail, fault, produced }, pairs)
            == close_block(TextStream { rest: tail, fault, produced }, pairs + gathered(lines)),
    decreases lines.len(),
{
    let rest_lines = lines.drop_first();
    let follow = join_lines(rest_lines) + tail;
    let bytes = join_lines(lines) + tail;
    assert(bytes == lines[0] + seq![LINE_FEED] + follow);
    lemma_first_line(lines[0], follow);
    match line_of(lines[0]) {
        LineView::Blank => {
            if pairs.len() > 0 {
                assert(rest_lines.len() == 0);
                assert(follow == tail);
                assert(gathered(lines) == Seq::<(Seq<char>, Seq<char>)>::empty());
                assert(pairs + gathered(lines) == pairs);
            } else {
                lemma_block(rest_lines, pairs, tail, fault, produced);
            }
        },
        LineView::Comment => {
            lemma_block(rest_lines, pairs, tail, fault, produced);
        },
        LineView::Pair { key, value } => {
            lemma_block(rest_lines, pairs.push((key, value)), tail, fault, produced);
            assert(pairs.push((key, value)) + gathered(rest_lines) == pairs + gathered(lines));
        },
        _ => {},
    }
}

/// What follows the first line is shorter than the bytes, unless there are
/// none.
pub proof fn lemma_after_line_shorter(bytes: Seq<u8>)
    requires
        bytes.len() > 0,
    ensures
        after_line(bytes).len() < bytes.len(),
        line_len(bytes) <= bytes.len(),
{
    lemma_first_index_shape(bytes, LINE_FEED);
}

/// A read leaves no more bytes than it found, and fewer where it gives a
/// record.
pub proof fn lemma_decode_consumes(stream: TextStream, pairs: Seq<(Seq<char>, Seq<char>)>)
    ensures
        decode_block(stream, pairs).stream.rest.len() <= stream.rest.len(),
        decode_block(stream, pairs).outcome is Ok && pairs.len() == 0 ==> decode_block(
            stream,
            pairs,
        ).stream.rest.len() < stream.rest.len(),
    decreases stream.rest.len(),
{
    if line_len(stream.rest) == stream.rest.len() && stream.fault is Some {
    } else if stream.rest.len() == 0 {
    } else {
        lemma_after_line_shorter(stream.rest);
        let after = TextStream { rest: after_line(stream.rest), ..stream };
        match line_of(first_line(stream.rest)) {
            LineView::Comment => {
                lemma_decode_consumes(after, pairs);
            },
            LineView::Blank => {
                if pairs.len() == 0 {
                    lemma_decode_consumes(after, pairs);
                }
            },
            LineView::Pair { key, value } => {
                lemma_decode_consumes(after, pairs.push((key, value)));
            },
            _ => {},
        }
    }
}

/// The records that come out of a source, read after read, up to the first
/// error.
pub open spec fn decode_all(stream: TextStream) -> Seq<TransactionRecord>
    decreases stream.rest.len(),
    via decode_all_decreases
{
    match decode(stream).outcome {
        Ok(record) => seq![record] + decode_all(decode(stream).stream),
        Err(_) => Seq::empty(),
    }
}

#[via_fn]
proof fn decode_all_decreases(stream: TextStream) {
    lemma_decode_consumes(stream, Seq::empty());
}

/// Lines that make up a block whose pairs are the given record.
pub open spec fn is_block_of(lines: Seq<Seq<u8>>, record: TransactionRecord) -> bool {
    &&& is_block(lines, false)
    &&& record_of(gathered(lines)) == Ok::<TransactionRecord, FieldFaultView>(record)
}

/// The blocks one after the other.
pub open spec fn join_blocks(blocks: Seq<Seq<Seq<u8>>>) -> Seq<u8>
    decreases blocks.len(),
{
    if blocks.len() == 0 {
        Seq::empty()
    } else {
        join_lines(blocks[0]) + join_blocks(blocks.drop_first())
    }
}

/// A block of a record is read as that record, and the source is left at
/// what follows the block.
pub proof fn lemma_block_of(
    lines: Seq<Seq<u8>>,
    record: TransactionRecord,
    tail: Seq<u8>,
    fault: Option<std::io::Error>,
    produced: bool,
)
    requires
        is_block_of(lines, record),
    ensures
        decode(TextStream { rest: join_lines(lines) + tail, fault, produced }) == (Decoded {
            outcome: Ok(record),
            stream: TextStream { rest: tail, fault, produced: true },
        }),
{
    let none = Seq::<(Seq<char>, Seq<char>)>::empty();
    lemma_block(lines, none, tail, fault, produced);
    assert(none + gathered(lines) == gathered(lines));
}

/// Each of the blocks is a block of the record with the same index.
pub open spec fn are_blocks_of(blocks: Seq<Seq<Seq<u8>>>, records: Seq<TransactionRecord>) -> bool {
    &&& blocks.len() == records.len()
    &&& forall|i: int| 0 <= i < blocks.len() ==> is_block_of(#[trigger] blocks[i], records[i])
}

/// Where a read gives a record, that record is the first of all that come
/// out, and the others come out of what the read left.
pub proof fn lemma_decode_all_step(stream: TextStream)
    requires
        decode(stream).outcome is Ok,
    ensures
        decode_all(stream) == seq![decode(stream).outcome->Ok_0] + decode_all(decode(stream).stream),
{
}

/// A stream of well-formed blocks gives exactly their records, in the order
/// of the blocks; reading then goes on with what follows the last block.
///
/// Each block may start with blank lines and comments and may hold comments
/// between its pairs: they add no pair and end no block.
pub proof fn lemma_blocks_in_order(
    blocks: Seq<Seq<Seq<u8>>>,
    records: Seq<TransactionRecord>,
    tail: Seq<u8>,
    fault: Option<std::io::Error>,
    produced: bool,
)
    requires
        are_blocks_of(blocks, records),
    ensures
        decode_all(TextStream { rest: join_blocks(blocks) + tail, fault, produced }) == records
            + decode_all(TextStream { rest: tail, fault, produced: produced || blocks.len() > 0 }),
    decreases blocks.len(),
{
    let stream = TextStream { rest: join_blocks(blocks) + tail, fault, produced };
    if blocks.len() == 0 {
        assert(join_blocks(blocks) + tail == tail);
        assert(records + decode_all(stream) == decode_all(stream));
    } else {
        let later = blocks.drop_first();
        let later_records = records.drop_first();
        let follow = join_blocks(later) + tail;
        assert(stream.rest == join_lines(blocks[0]) + follow);
        assert(is_block_of(blocks[0], records[0]));
        lemma_block_of(blocks[0], records[0], follow, fault, produced);
        let next = TextStream { rest: follow, fault, produced: true };
        assert(decode(stream).stream == next);
        lemma_decode_all_step(stream);
        assert(are_blocks_of(later, later_records)) by {
            assert forall|i: int| 0 <= i < later.len() implies is_block_of(
                #[trigger] later[i],
                later_records[i],
            ) by {
                assert(later[i] == blocks[i + 1]);
                assert(later_records[i] == records[i + 1]);
            }
        }
        lemma_blocks_in_order(later, later_records, tail, fault, true);
        let end = decode_all(TextStream { rest: tail, fault, produced: true });
        assert(decode_all(next) == later_records + end);
        assert(seq![records[0]] + (later_records + end) == records + end);
    }
}

/// A line that is blank or a comment.
pub open spec fn is_filler(line: Seq<u8>) -> bool {
    line_of(line) is Blank || line_of(line) is Comment
}

/// Bytes in which every line is blank or a comment.
pub open spec fn only_filler(bytes: Seq<u8>) -> bool
    decreases bytes.len(),
    via only_filler_decreases
{
    if bytes.len() == 0 {
        true
    } else {
        is_filler(first_line(bytes)) && only_filler(after_line(bytes))
    }
}

#[via_fn]
proof fn only_filler_decreases(bytes: Seq<u8>) {
    if bytes.len() > 0 {
        lemma_after_line_shorter(bytes);
    }
}

/// A source with nothing in it but blank lines and comments gives no record:
/// it is empty if no record has come out of it, and else it has ended on
/// blank lines. An empty source is the plainest case.
pub proof fn lemma_only_filler(stream: TextStream)
    requires
        only_filler(stream.rest),
        stream.fault is None,
    ensures
        decode(stream).outcome == Err::<TransactionRecord, TextRecordErrorView>(
            if stream.produced {
                TextRecordErrorView::EmptyLinesAtEndOfFile
            } else {
                TextRecordErrorView::SourceIsEmpty
            },
        ),
        decode(stream).stream == (TextStream { rest: Seq::empty(), ..stream }),
        decode_all(stream) == Seq::<TransactionRecord>::empty(),
    decreases stream.rest.len(),
{
    if stream.rest.len() == 0 {
        assert(stream.rest == Seq::<u8>::empty());
    } else {
        lemma_after_line_shorter(stream.rest);
        lemma_only_filler(TextStream { rest: after_line(stream.rest), ..stream });
    }
}

/// A stream of well-formed blocks, with nothing but blank lines and comments
/// after the last one, gives exactly the records of the blocks.
pub proof fn lemma_blocks_then_filler(
    blocks: Seq<Seq<Seq<u8>>>,
    records: Seq<TransactionRecord>,
    tail: Seq<u8>,
)
    requires
        are_blocks_of(blocks, records),
        only_filler(tail),
    ensures
        decode_all(TextStream { rest: join_blocks(blocks) + tail, fault: None, produced: false })
            == records,
{
    lemma_blocks_in_order(blocks, records, tail, None, false);
    lemma_only_filler(TextStream { rest: tail, fault: None, produced: blocks.len() > 0 });
    assert(records + Seq::<TransactionRecord>::empty() == records);
}

/// A line made of a key, a colon, a space and a value says that pair, with
/// the value trimmed.
pub proof fn lemma_pair_line(key: FieldKey, value: Seq<char>)
    ensures
        line_of_text(key.name() + seq![':', ' '] + value) == (LineView::Pair {
            key: key.name(),
            value: trim(value),
        }),
{
    let k = key.name();
    let n = k.len() as int;
    let text = k + seq![':', ' '] + value;
    key.lemma_name();
    assert forall|i: int| 0 <= i < n implies !is_whitespace(#[trigger] k[i]) && k[i] != ':' && k[i]
        != '#' by {
        assert(FieldKey::is_name_char(k[i]));
    }
    assert(text[n] == ':');
    assert(text[n + 1] == ' ');
    let (a, b) = lemma_trim_range(value);
    // the end of the trimmed line: after the value's own end, or after the colon
    let end = if a < b {
        n + 2 + b
    } else {
        n + 1
    };
    assert forall|i: int| end <= i < text.len() implies is_whitespace(#[trigger] text[i]) by {
        if i >= n + 2 {
            assert(text[i] == value[i - n - 2]);
        }
    }
    assert(text[0] == k[0]);
    if a < b {
        assert(text[end - 1] == value[b - 1]);
    }
    lemma_trim_is_range(text, 0, end);
    let t = trim(text);
    assert(t == text.subrange(0, end));
    assert forall|i: int| 0 <= i < n implies #[trigger] t[i] != ':' by {
        assert(t[i] == k[i]);
    }
    assert(t[n] == ':');
    lemma_first_index(t, ':', n);
    assert(first_colon(t) == n);
    assert(t.take(n) == k);
    lemma_trim_of_trimmed(k);
    let after = t.skip(n + 1);
    if a < b {
        assert(after == seq![' '] + value.take(b));
        assert forall|i: int| 0 <= i < a + 1 implies is_whitespace(#[trigger] after[i]) by {
            if i > 0 {
                assert(after[i] == value[i - 1]);
            }
        }
        assert(after[a + 1] == value[a]);
        assert(after[b] == value[b - 1]);
        lemma_trim_is_range(after, a + 1, b + 1);
        assert(after.subrange(a + 1, b + 1) == value.subrange(a, b));
    } else {
        assert(after.len() == 0);
        lemma_trim_is_range(after, 0, 0);
        assert(after.subrange(0, 0) == value.subrange(a, b));
    }
}

/// Text that holds no line feed.
pub open spec fn single_line(text: Seq<char>) -> bool {
    forall|i: int| 0 <= i < text.len() ==> #[trigger] text[i] != '\n'
}

/// A record with its description trimmed: what a block can carry of it.
pub open spec fn trimmed(record: TransactionRecord) -> TransactionRecord {
    TransactionRecord { description: trim(record.description), ..record }
}

/// The eight fields of a record as they are written, in canonical order.
spec fn record_fields(record: TransactionRecord) -> Seq<(FieldKey, Seq<char>)> {
    seq![
        (FieldKey::TxId, decimal(record.id as nat)),
        (FieldKey::TxType, record.transaction_type.wire_name()),
        (FieldKey::FromUserId, decimal(record.from_user_id as nat)),
        (FieldKey::ToUserId, decimal(record.to_user_id as nat)),
        (FieldKey::Amount, decimal(record.amount as nat)),
        (FieldKey::Timestamp, decimal(record.timestamp as nat)),
        (FieldKey::Status, record.transaction_status.wire_name()),
        (FieldKey::Description, record.description),
    ]
}

/// The line of a field, without its line feed.
spec fn field_text(field: (FieldKey, Seq<char>)) -> Seq<char> {
    field.0.name() + seq![':', ' '] + field.1
}

/// The lines of the fields, each with its line feed, as one text.
spec fn fields_text(fields: Seq<(FieldKey, Seq<char>)>) -> Seq<char>
    decreases fields.len(),
{
    if fields.len() == 0 {
        Seq::empty()
    } else {
        field_line(fields[0].0, fields[0].1) + fields_text(fields.drop_first())
    }
}

/// The lines of the fields as bytes, without their line feeds.
spec fn fields_lines(fields: Seq<(FieldKey, Seq<char>)>) -> Seq<Seq<u8>> {
    Seq::new(fields.len(), |i: int| encode_utf8(field_text(fields[i])))
}

/// The pairs that the lines of the fields say.
spec fn fields_pairs(fields: Seq<(FieldKey, Seq<char>)>) -> Seq<(Seq<char>, Seq<char>)> {
    Seq::new(fields.len(), |i: int| (fields[i].0.name(), trim(fields[i].1)))
}

/// A line feed is encoded as the one byte that ends a line.
proof fn lemma_line_feed_byte()
    ensures
        encode_utf8(seq!['\n']) == seq![LINE_FEED],
{
    let text = seq!['\n'];
    assert(is_ascii_chars(text));
    is_ascii_chars_encode_utf8(text);
    assert(encode_utf8(text)[0] == text[0] as u8);
    assert(encode_utf8(text) == seq![LINE_FEED]);
}

/// Joining lines of which one is the last.
proof fn lemma_join_push(lines: Seq<Seq<u8>>, last: Seq<u8>)
    ensures
        join_lines(lines.push(last)) == join_lines(lines) + last + seq![LINE_FEED],
    decreases lines.len(),
{
    if lines.len() == 0 {
        let one = lines.push(last);
        assert(one.drop_first() == Seq::<Seq<u8>>::empty());
        assert(join_lines(one.drop_first()) == Seq::<u8>::empty());
        assert(join_lines(one) == last + seq![LINE_FEED] + Seq::<u8>::empty());
    } else {
        lemma_join_push(lines.drop_first(), last);
        assert(lines.push(last).drop_first() == lines.drop_first().push(last));
        assert(lines.push(last)[0] == lines[0]);
    }
}

/// The bytes of text without a line feed hold no line feed.
pub proof fn lemma_encode_single_line(text: Seq<char>)
    requires
        single_line(text),
    ensures
        without_line_feed(encode_utf8(text)),
{
    assert(LINE_FEED as char == '\n');
    lemma_encode_without_ascii(text, LINE_FEED);
}

/// The text of fields of which one is the last.
proof fn lemma_fields_text_push(fields: Seq<(FieldKey, Seq<char>)>, last: (FieldKey, Seq<char>))
    ensures
        fields_text(fields.push(last)) == fields_text(fields) + field_line(last.0, last.1),
    decreases fields.len(),
{
    let all = fields.push(last);
    if fields.len() == 0 {
        assert(all.drop_first() == Seq::<(FieldKey, Seq<char>)>::empty());
        assert(fields_text(all.drop_first()) == Seq::<char>::empty());
        assert(fields_text(all) == field_line(last.0, last.1) + Seq::<char>::empty());
    } else {
        lemma_fields_text_push(fields.drop_first(), last);
        assert(all.drop_first() == fields.drop_first().push(last));
        assert(all[0] == fields[0]);
    }
}

/// The text of a record's block is the text of its eight fields and an
/// empty line.
proof fn lemma_block_text(record: TransactionRecord)
    ensures
        block_text(record) == fields_text(record_fields(record)) + seq!['\n'],
{
    let fields = record_fields(record);
    let s0 = Seq::<(FieldKey, Seq<char>)>::empty();
    let s1 = s0.push(fields[0]);
    let s2 = s1.push(fields[1]);
    let s3 = s2.push(fields[2]);
    let s4 = s3.push(fields[3]);
    let s5 = s4.push(fields[4]);
    let s6 = s5.push(fields[5]);
    let s7 = s6.push(fields[6]);
    let s8 = s7.push(fields[7]);
    assert(s8 == fields);
    lemma_fields_text_push(s0, fields[0]);
    lemma_fields_text_push(s1, fields[1]);
    lemma_fields_text_push(s2, fields[2]);
    lemma_fields_text_push(s3, fields[3]);
    lemma_fields_text_push(s4, fields[4]);
    lemma_fields_text_push(s5, fields[5]);
    lemma_fields_text_push(s6, fields[6]);
    lemma_fields_text_push(s7, fields[7]);
    assert(fields_text(s0) == Seq::<char>::empty());
    assert(fields_text(s1) == field_line(fields[0].0, fields[0].1));
}

/// The bytes of the fields' text, followed by more text, are the fields'
/// lines joined and the bytes of what follows.
proof fn lemma_fields_bytes(fields: Seq<(FieldKey, Seq<char>)>, more: Seq<char>)
    ensures
        encode_utf8(fields_text(fields) + more) == join_lines(fields_lines(fields)) + encode_utf8(
            more,
        ),
    decreases fields.len(),
{
    if fields.len() == 0 {
        assert(fields_text(fields) + more == more);
        assert(join_lines(fields_lines(fields)) + encode_utf8(more) == encode_utf8(more));
    } else {
        let rest = fields.drop_first();
        let line = field_text(fields[0]);
        let feed = seq!['\n'];
        let follow = fields_text(rest) + more;
        assert(fields_text(fields) + more == line + (feed + follow));
        lemma_encode_concat(line, feed + follow);
        lemma_encode_concat(feed, follow);
        lemma_line_feed_byte();
        lemma_fields_bytes(rest, more);
        let lines = fields_lines(fields);
        assert(lines[0] == encode_utf8(line));
        assert(lines.drop_first() == fields_lines(rest));
        assert(encode_utf8(line) + (seq![LINE_FEED] + (join_lines(fields_lines(rest))
            + encode_utf8(more))) == join_lines(lines) + encode_utf8(more));
    }
}

/// The lines of fields that hold no line feed, closed by an empty line, make
/// up a block, and its pairs are those of the fields with the values trimmed.
proof fn lemma_fields_block(fields: Seq<(FieldKey, Seq<char>)>, started: bool)
    requires
        forall|i: int| 0 <= i < fields.len() ==> single_line((#[trigger] fields[i]).1),
        fields.len() > 0 || started,
    ensures
        is_block(fields_lines(fields).push(Seq::empty()), started),
        gathered(fields_lines(fields).push(Seq::empty())) == fields_pairs(fields),
    decreases fields.len(),
{
    let lines = fields_lines(fields).push(Seq::empty());
    let later = lines.drop_first();
    if fields.len() == 0 {
        let line = lines[0];
        assert(line == Seq::<u8>::empty());
        assert(decode_utf8(line) == Seq::<char>::empty());
        assert(line_of(line) == LineView::Blank);
        assert(later.len() == 0);
        assert(gathered(lines) == gathered(later));
        assert(fields_pairs(fields) == Seq::<(Seq<char>, Seq<char>)>::empty());
    } else {
        let rest = fields.drop_first();
        let key = fields[0].0;
        let value = fields[0].1;
        let text = field_text(fields[0]);
        assert(lines[0] == encode_utf8(text));
        key.lemma_name();
        assert forall|i: int| 0 <= i < text.len() implies #[trigger] text[i] != '\n' by {
            let n = key.name().len();
            if i < n {
                assert(text[i] == key.name()[i]);
                assert(FieldKey::is_name_char(key.name()[i]));
            } else if i == n {
                assert(text[i] == ':');
            } else if i == n + 1 {
                assert(text[i] == ' ');
            } else {
                assert(text[i] == value[i - n - 2]);
            }
        }
        lemma_encode_single_line(text);
        lemma_decode_encoded(text);
        lemma_pair_line(key, value);
        assert(later == fields_lines(rest).push(Seq::empty()));
        assert forall|i: int| 0 <= i < rest.len() implies single_line((#[trigger] rest[i]).1) by {
            assert(rest[i] == fields[i + 1]);
        }
        lemma_fields_block(rest, true);
        assert(seq![(key.name(), trim(value))] + fields_pairs(rest) == fields_pairs(fields));
    }
}

/// Text that neither holds whitespace at its ends nor a line feed.
proof fn lemma_digits_plain(n: nat)
    ensures
        trim(decimal(n)) == decimal(n),
        single_line(decimal(n)),
{
    lemma_decimal_digits(n);
    let text = decimal(n);
    assert(is_digit(text[0]));
    assert(is_digit(text.last()));
    lemma_trim_of_trimmed(text);
    assert forall|i: int| 0 <= i < text.len() implies #[trigger] text[i] != '\n' by {
        assert(is_digit(text[i]));
    }
}

/// The pairs that a written record is read back as stand for the record,
/// with its description trimmed.
proof fn lemma_record_pairs(record: TransactionRecord)
    ensures
        record_of(fields_pairs(record_fields(record))) == Ok::<
            TransactionRecord,
            FieldFaultView,
        >(trimmed(record)),
        forall|i: int|
            0 <= i < 7 ==> single_line((#[trigger] record_fields(record)[i]).1),
{
    let fields = record_fields(record);
    let kind = record.transaction_type;
    let status = record.transaction_status;
    kind.lemma_wire_name();
    status.lemma_wire_name();
    lemma_trim_of_trimmed(kind.wire_name());
    lemma_trim_of_trimmed(status.wire_name());
    lemma_digits_plain(record.id as nat);
    lemma_digits_plain(record.from_user_id as nat);
    lemma_digits_plain(record.to_user_id as nat);
    lemma_digits_plain(record.amount as nat);
    lemma_digits_plain(record.timestamp as nat);
    assert(fields_pairs(fields) == pairs_of_record(trimmed(record)));
    lemma_pairs_of_record(trimmed(record));
    assert forall|i: int| 0 <= i < 7 implies single_line((#[trigger] fields[i]).1) by {
        let text = fields[i].1;
        assert forall|k: int| 0 <= k < text.len() implies #[trigger] text[k] != '\n' by {
            if i == 1 {
                assert(0x41 <= kind.wire_name()[k] as u32);
            } else if i == 6 {
                assert(0x41 <= status.wire_name()[k] as u32);
            }
        }
    }
}

/// The lines of a record's block as bytes, the closing empty line included.
spec fn record_lines(record: TransactionRecord) -> Seq<Seq<u8>> {
    fields_lines(record_fields(record)).push(Seq::empty())
}

/// The bytes of a record's block are its lines joined, and the lines make up
/// a block of the record with its description trimmed.
proof fn lemma_record_block(record: TransactionRecord)
    requires
        single_line(record.description),
    ensures
        encode(record) == join_lines(record_lines(record)),
        is_block_of(record_lines(record), trimmed(record)),
{
    let fields = record_fields(record);
    lemma_record_pairs(record);
    lemma_block_text(record);
    lemma_fields_bytes(fields, seq!['\n']);
    lemma_line_feed_byte();
    lemma_join_push(fields_lines(fields), Seq::empty());
    assert(encode(record) == join_lines(record_lines(record))) by {
        assert(join_lines(fields_lines(fields)) + Seq::<u8>::empty() + seq![LINE_FEED]
            == join_lines(fields_lines(fields)) + seq![LINE_FEED]);
    }
    assert forall|i: int| 0 <= i < fields.len() implies single_line((#[trigger] fields[i]).1) by {
        if i == 7 {
            assert(fields[i].1 == record.description);
        }
    }
    lemma_fields_block(fields, false);
}

/// A record that was written is read back.
///
/// From the bytes of a record's block, whatever follows them, one read gives
/// the record with its description trimmed, and leaves the source at what
/// follows. The description must hold no line feed: it would end the line.
pub proof fn lemma_round_trip(
    record: TransactionRecord,
    tail: Seq<u8>,
    fault: Option<std::io::Error>,
    produced: bool,
)
    requires
        single_line(record.description),
    ensures
        decode(TextStream { rest: encode(record) + tail, fault, produced }) == (Decoded {
            outcome: Ok(trimmed(record)),
            stream: TextStream { rest: tail, fault, produced: true },
        }),
{
    lemma_record_block(record);
    lemma_block_of(record_lines(record), trimmed(record), tail, fault, produced);
}

/// The blocks of the records, one per record.
spec fn blocks_of(records: Seq<YPBankTextRecord>) -> Seq<Seq<Seq<u8>>> {
    Seq::new(records.len(), |i: int| record_lines(records[i]@))
}

/// Joining blocks of which one is the last.
proof fn lemma_join_blocks_push(blocks: Seq<Seq<Seq<u8>>>, last: Seq<Seq<u8>>)
    ensures
        join_blocks(blocks.push(last)) == join_blocks(blocks) + join_lines(last),
    decreases blocks.len(),
{
    let all = blocks.push(last);
    if blocks.len() == 0 {
        assert(all.drop_first() == Seq::<Seq<Seq<u8>>>::empty());
        assert(join_blocks(all.drop_first()) == Seq::<u8>::empty());
        assert(join_blocks(all) == join_lines(last) + Seq::<u8>::empty());
    } else {
        lemma_join_blocks_push(blocks.drop_first(), last);
        assert(all.drop_first() == blocks.drop_first().push(last));
        assert(all[0] == blocks[0]);
    }
}

/// What the serializer writes for the records is their blocks joined.
proof fn lemma_blocks_bytes(records: Seq<YPBankTextRecord>)
    requires
        forall|i: int| 0 <= i < records.len() ==> single_line((#[trigger] records[i])@.description),
    ensures
        encodings::<std::io::Error, YPBankTextRecord>(records) == join_blocks(blocks_of(records)),
    decreases records.len(),
{
    if records.len() > 0 {
        let head = records.drop_last();
        let last = records.last();
        assert forall|i: int| 0 <= i < head.len() implies single_line(
            (#[trigger] head[i])@.description,
        ) by {
            assert(head[i] == records[i]);
        }
        lemma_blocks_bytes(head);
        assert(last == records[records.len() - 1]);
        lemma_record_block(last@);
        assert(blocks_of(records) == blocks_of(head).push(record_lines(last@)));
        lemma_join_blocks_push(blocks_of(head), record_lines(last@));
    } else {
        assert(blocks_of(records).len() == 0);
    }
}

/// What the serializer writes for records of the block format, a parser reads
/// back: the same records in the same order, each with its description
/// trimmed. No description may hold a line feed.
pub proof fn lemma_written_blocks_read_back(records: Seq<YPBankTextRecord>)
    requires
        forall|i: int| 0 <= i < records.len() ==> single_line((#[trigger] records[i])@.description),
    ensures
        decode_all(
            TextStream {
                rest: <YPBankTextRecord as Writable<std::io::Error>>::header() + encodings::<
                    std::io::Error,
                    YPBankTextRecord,
                >(records),
                fault: None,
                produced: false,
            },
        ) == Seq::new(records.len(), |i: int| trimmed(records[i]@)),
{
    let blocks = blocks_of(records);
    let expected = Seq::new(records.len(), |i: int| trimmed(records[i]@));
    lemma_blocks_bytes(records);
    assert forall|i: int| 0 <= i < blocks.len() implies is_block_of(
        #[trigger] blocks[i],
        expected[i],
    ) by {
        lemma_record_block(records[i]@);
    }
    lemma_blocks_then_filler(blocks, expected, Seq::empty());
    let bytes = encodings::<std::io::Error, YPBankTextRecord>(records);
    assert(<YPBankTextRecord as Writable<std::io::Error>>::header() + bytes == bytes);
    assert(join_blocks(blocks) + Seq::<u8>::empty() == bytes);
}

/// Lines of a block that the end of the data cuts short of its closing blank
/// line: blank lines and comments, then at least one pair, then pairs and
/// comments to the end. `started` says whether a pair has been seen.
pub open spec fn is_open_block(lines: Seq<Seq<u8>>, started: bool) -> bool
    decreases lines.len(),
{
    if lines.len() == 0 {
        started
    } else if !without_line_feed(lines[0]) {
        false
    } else {
        match line_of(lines[0]) {
            LineView::Blank => !started && is_open_block(lines.drop_first(), false),
            LineView::Comment => is_open_block(lines.drop_first(), started),
            LineView::Pair { .. } => is_open_block(lines.drop_first(), true),
            _ => false,
        }
    }
}

/// The end of the data closes a block that has no closing blank line.
pub proof fn lemma_open_block(
    lines: Seq<Seq<u8>>,
    pairs: Seq<(Seq<char>, Seq<char>)>,
    produced: bool,
)
    requires
        is_open_block(lines, pairs.len() > 0),
    ensures
        decode_block(TextStream { rest: join_lines(lines), fault: None, produced }, pairs)
            == close_block(
            TextStream { rest: Seq::empty(), fault: None, produced },
            pairs + gathered(lines),
        ),
    decreases lines.len(),
{
    if lines.len() == 0 {
        assert(pairs + gathered(lines) == pairs);
        assert(join_lines(lines) == Seq::<u8>::empty());
    } else {
        let rest_lines = lines.drop_first();
        let follow = join_lines(rest_lines);
        assert(join_lines(lines) == lines[0] + seq![LINE_FEED] + follow);
        lemma_first_line(lines[0], follow);
        match line_of(lines[0]) {
            LineView::Pair { key, value } => {
                lemma_open_block(rest_lines, pairs.push((key, value)), produced);
                assert(pairs.push((key, value)) + gathered(rest_lines) == pairs + gathered(lines));
            },
            _ => {
                lemma_open_block(rest_lines, pairs, produced);
            },
        }
    }
}

/// Bytes that do not end with a line feed.
pub open spec fn is_unfinished(bytes: Seq<u8>) -> bool {
    bytes.len() > 0 ==> bytes.last() != LINE_FEED
}

/// Two outcomes of a read that differ at most by one line feed at the end of
/// what is left.
pub open spec fn same_but_line_feed(short: Decoded, long: Decoded) -> bool {
    &&& long.outcome == short.outcome
    &&& short.stream.fault is None
    &&& long.stream.fault is None
    &&& long.stream.produced == short.stream.produced
    &&& is_unfinished(short.stream.rest)
    &&& (long.stream.rest == short.stream.rest || long.stream.rest == short.stream.rest
        + seq![LINE_FEED])
}

/// The first line of bytes that do not end with a line feed, and of the same
/// bytes with one added.
proof fn lemma_longer_line(bytes: Seq<u8>)
    requires
        is_unfinished(bytes),
    ensures
        line_len(bytes + seq![LINE_FEED]) == line_len(bytes),
        line_len(bytes) <= bytes.len(),
        first_line(bytes + seq![LINE_FEED]) == first_line(bytes),
        line_len(bytes) < bytes.len() ==> after_line(bytes + seq![LINE_FEED]) == after_line(bytes)
            + seq![LINE_FEED],
        line_len(bytes) == bytes.len() ==> after_line(bytes + seq![LINE_FEED]) == Seq::<
            u8,
        >::empty() && after_line(bytes) == Seq::<u8>::empty(),
        is_unfinished(after_line(bytes)),
{
    let longer = bytes + seq![LINE_FEED];
    let n = line_len(bytes) as int;
    lemma_first_index_shape(bytes, LINE_FEED);
    assert forall|i: int| 0 <= i < n implies #[trigger] longer[i] != LINE_FEED by {
        assert(longer[i] == bytes[i]);
    }
    if n < bytes.len() {
        assert(longer[n] == bytes[n]);
        let after = after_line(bytes);
        if after.len() > 0 {
            assert(after.last() == bytes.last());
        }
    }
    lemma_first_index(longer, LINE_FEED, n);
    assert(longer.take(n) == bytes.take(n));
    if n < bytes.len() {
        assert(longer.skip(n + 1) == bytes.skip(n + 1) + seq![LINE_FEED]);
    } else {
        assert(longer.skip(n + 1) == Seq::<u8>::empty());
    }
}

/// One read does not tell whether the last line has its line feed: the
/// outcome is the same, and what is left is the same but for that line feed.
pub proof fn lemma_last_line_feed(
    bytes: Seq<u8>,
    pairs: Seq<(Seq<char>, Seq<char>)>,
    produced: bool,
)
    requires
        is_unfinished(bytes),
    ensures
        same_but_line_feed(
            decode_block(TextStream { rest: bytes, fault: None, produced }, pairs),
            decode_block(
                TextStream { rest: bytes + seq![LINE_FEED], fault: None, produced },
                pairs,
            ),
        ),
    decreases bytes.len(),
{
    let short = TextStream { rest: bytes, fault: None, produced };
    let long = TextStream { rest: bytes + seq![LINE_FEED], fault: None, produced };
    lemma_longer_line(bytes);
    let after = TextStream { rest: after_line(bytes), ..short };
    let after_long = TextStream { rest: after_line(long.rest), ..long };
    if bytes.len() == 0 {
        assert(first_line(long.rest) == Seq::<u8>::empty());
        assert(decode_utf8(Seq::<u8>::empty()) == Seq::<char>::empty());
        assert(line_of(first_line(long.rest)) == LineView::Blank);
        assert(bytes == Seq::<u8>::empty());
        assert(after_long == short);
    } else if line_len(bytes) == bytes.len() {
        assert(after_long == after);
        lemma_decode_unfinished(after, pairs);
        match line_of(first_line(bytes)) {
            LineView::Pair { key, value } => {
                lemma_decode_unfinished(after, pairs.push((key, value)));
            },
            _ => {},
        }
    } else {
        match line_of(first_line(bytes)) {
            LineView::Comment => {
                lemma_last_line_feed(after.rest, pairs, produced);
            },
            LineView::Blank => {
                if pairs.len() == 0 {
                    lemma_last_line_feed(after.rest, pairs, produced);
                }
            },
            LineView::Pair { key, value } => {
                lemma_last_line_feed(after.rest, pairs.push((key, value)), produced);
            },
            _ => {},
        }
    }
}

/// A read of a source that does not fail and has nothing left leaves it so.
proof fn lemma_decode_unfinished(stream: TextStream, pairs: Seq<(Seq<char>, Seq<char>)>)
    requires
        stream.rest.len() == 0,
        stream.fault is None,
    ensures
        decode_block(stream, pairs).stream.rest.len() == 0,
        decode_block(stream, pairs).stream.fault is None,
{
}

/// The line feed of the last line may be left out: the same records come out
/// of the bytes with it and without it.
pub proof fn lemma_last_line_feed_optional(bytes: Seq<u8>, produced: bool)
    requires
        is_unfinished(bytes),
    ensures
        decode_all(TextStream { rest: bytes, fault: None, produced }) == decode_all(
            TextStream { rest: bytes + seq![LINE_FEED], fault: None, produced },
        ),
    decreases bytes.len(),
{
    let short = TextStream { rest: bytes, fault: None, produced };
    let long = TextStream { rest: bytes + seq![LINE_FEED], fault: None, produced };
    lemma_last_line_feed(bytes, Seq::empty(), produced);
    let left = decode(short).stream;
    let left_long = decode(long).stream;
    assert(same_but_line_feed(decode(short), decode(long)));
    if decode(short).outcome is Ok {
        lemma_decode_consumes(short, Seq::empty());
        lemma_decode_all_step(short);
        lemma_decode_all_step(long);
        if left_long.rest == left.rest {
            assert(left_long == left);
        } else {
            lemma_last_line_feed_optional(left.rest, left.produced);
            assert(left == (TextStream { rest: left.rest, fault: None, produced: left.produced }));
            assert(left_long == (TextStream {
                rest: left.rest + seq![LINE_FEED],
                fault: None,
                produced: left.produced,
            }));
        }
    } else {
        assert(decode(long).outcome is Err);
    }
}

/// A block whose pairs are refused gives the fault they are refused for, and
/// the source is left at what follows the block.
pub proof fn lemma_refused_block(
    lines: Seq<Seq<u8>>,
    tail: Seq<u8>,
    fault: Option<std::io::Error>,
    produced: bool,
)
    requires
        is_block(lines, false),
        record_of(gathered(lines)) is Err,
    ensures
        decode(TextStream { rest: join_lines(lines) + tail, fault, produced }) == (Decoded {
            outcome: Err(
                TextRecordErrorView::ParseError { error: record_of(gathered(lines))->Err_0 },
            ),
            stream: TextStream { rest: tail, fault, produced },
        }),
{
    let none = Seq::<(Seq<char>, Seq<char>)>::empty();
    lemma_block(lines, none, tail, fault, produced);
    assert(none + gathered(lines) == gathered(lines));
}

/// Two blocks, the second right after the blank line that closes the first,
/// are read as their two records, in that order.
pub proof fn lemma_two_blocks(
    first: Seq<Seq<u8>>,
    second: Seq<Seq<u8>>,
    first_record: TransactionRecord,
    second_record: TransactionRecord,
)
    requires
        is_block_of(first, first_record),
        is_block_of(second, second_record),
    ensures
        decode_all(
            TextStream { rest: join_lines(first) + join_lines(second), fault: None, produced: false },
        ) == seq![first_record, second_record],
{
    let blocks = seq![first, second];
    let records = seq![first_record, second_record];
    let later = blocks.drop_first();
    assert(later.len() == 1 && later[0] == second);
    assert(later.drop_first().len() == 0);
    assert(join_blocks(later.drop_first()) == Seq::<u8>::empty());
    assert(join_blocks(later) == join_lines(second) + Seq::<u8>::empty());
    assert(join_blocks(blocks) == join_lines(first) + join_blocks(later));
    assert(join_blocks(blocks) + Seq::<u8>::empty() == join_lines(first) + join_lines(second));
    assert(are_blocks_of(blocks, records));
    lemma_blocks_then_filler(blocks, records, Seq::empty());
}

/// A line that holds text but no `:` is a line without a colon, whatever pairs
/// were gathered before it and whatever their values are: the error is that
/// of the line, not one of a field.
pub proof fn lemma_line_without_colon(
    text: Seq<char>,
    tail: Seq<u8>,
    pairs: Seq<(Seq<char>, Seq<char>)>,
    fault: Option<std::io::Error>,
    produced: bool,
)
    requires
        single_line(text),
        forall|i: int| 0 <= i < text.len() ==> #[trigger] text[i] != ':',
        trim(text).len() > 0,
        trim(text)[0] != '#',
    ensures
        decode_block(
            TextStream { rest: encode_utf8(text) + seq![LINE_FEED] + tail, fault, produced },
            pairs,
        ) == (Decoded {
            outcome: Err(TextRecordErrorView::MissingColonAfterKey),
            stream: TextStream { rest: tail, fault, produced },
        }),
{
    let line = encode_utf8(text);
    lemma_encode_single_line(text);
    lemma_first_line(line, tail);
    lemma_decode_encoded(text);
    let (a, b) = lemma_trim_range(text);
    let t = trim(text);
    assert forall|i: int| 0 <= i < t.len() implies #[trigger] t[i] != ':' by {
        assert(t[i] == text[a + i]);
    }
    lemma_first_index(t, ':', t.len() as int);
    assert(line_of(line) == LineView::NoColon);
}

} // verus!
