//! Transaction records of the YPBank exchange formats.
//!
//! A record is read from, and written to, two textual encodings: a block of
//! `KEY: value` lines closed by a blank line, and a comma-separated row under
//! a fixed header. Every function here works on bytes held in memory; the
//! contracts state which bytes give which record and which error.
//!
//! [`Parser`] and [`Serializer`] are written once for any record type that
//! can be read or written, by way of [`Readable`] and [`Writable`].

use std::marker::PhantomData;
use vstd::prelude::*;

pub mod common;
pub mod csv_format;
pub mod decimal;
pub mod laws;
pub mod record;
pub mod text;
pub mod txt_format;

verus! {

/// A record type that can be read from a source, one record at a time.
pub trait Readable<Source, E>: Sized {
    /// What stands between the source and the records.
    type Reader;

    /// Whether `reader` is what `build_reader` makes of `source`.
    spec fn built(source: Source, reader: Self::Reader) -> bool;

    /// Whether a read that finds the reader as `before` can leave it as
    /// `after` and give `outcome`.
    spec fn reads(before: Self::Reader, after: Self::Reader, outcome: Result<Self, E>) -> bool;

    /// Builds the reader for a source.
    fn build_reader(source: Source) -> (reader: Self::Reader)
        ensures
            Self::built(source, reader),
    ;

    /// Reads one record.
    fn read(reader: &mut Self::Reader) -> (outcome: Result<Self, E>)
        ensures
            Self::reads(*old(reader), *final(reader), outcome),
    ;
}

/// Hands out the records of a source one by one, until the first error. The
/// error is kept, and from then on no record comes and nothing is read.
pub struct Parser<TRecord, Source, E> where TRecord: Readable<Source, E> {
    reader: TRecord::Reader,
    read_error: Option<E>,
    _marker: PhantomData<Source>,
}

impl<TRecord, Source, E> Parser<TRecord, Source, E> where TRecord: Readable<Source, E> {
    /// The reader in its present state.
    pub closed spec fn reader(&self) -> TRecord::Reader {
        self.reader
    }

    /// The error that ended the sequence; `None` while records may still come.
    pub closed spec fn error(&self) -> Option<E> {
        self.read_error
    }

    /// A parser at the start of the source, with no error.
    pub fn new(source: Source) -> (parser: Self)
        ensures
            TRecord::built(source, parser.reader()),
            parser.error() is None,
    {
        let reader = TRecord::build_reader(source);
        Self { reader, read_error: None, _marker: PhantomData }
    }

    /// A parser that goes on from the given reader, with no error.
    pub fn from_reader(reader: TRecord::Reader) -> (parser: Self)
        ensures
            parser.reader() == reader,
            parser.error() is None,
    {
        Self { reader, read_error: None, _marker: PhantomData }
    }

    /// What the parser makes of the outcome of a read: a record is handed
    /// out, an error is kept and ends the sequence.
    pub fn latch(&mut self, outcome: Result<TRecord, E>) -> (item: Option<Result<TRecord, E>>)
        ensures
            final(self).reader() == old(self).reader(),
            match outcome {
                Ok(record) => item == Some(Ok::<TRecord, E>(record)) && final(self).error() == old(
                    self,
                ).error(),
                Err(error) => item is None && final(self).error() == Some(error),
            },
    {
        match outcome {
            Ok(record) => Some(Ok(record)),
            Err(error) => {
                self.read_error = Some(error);
                None
            },
        }
    }

    /// The next record, or `None` once an error has ended the sequence.
    ///
    /// After an error nothing is read and the parser stays as it is. Before,
    /// one read is made: its record is handed out, or its error is kept and
    /// `None` comes back. An error is never handed out as an item.
    pub fn next(&mut self) -> (item: Option<Result<TRecord, E>>)
        ensures
            old(self).error() is Some ==> item is None && *final(self) == *old(self),
            old(self).error() is None ==> match item {
                Some(Ok(record)) => final(self).error() is None && TRecord::reads(
                    old(self).reader(),
                    final(self).reader(),
                    Ok(record),
                ),
                Some(Err(_)) => false,
                None => final(self).error() matches Some(error) && TRecord::reads(
                    old(self).reader(),
                    final(self).reader(),
                    Err(error),
                ),
            },
    {
        if self.read_error.is_some() {
            return None;
        }
        let outcome = TRecord::read(&mut self.reader);
        self.latch(outcome)
    }

    /// The error that ended the sequence, if one has.
    pub fn read_error(&self) -> (error: Option<&E>)
        ensures
            match self.error() {
                Some(e) => error == Some(&e),
                None => error is None,
            },
    {
        self.read_error.as_ref()
    }

    /// Gives up the parser for the error that ended the sequence, if one has.
    pub fn into_error(self) -> (error: Option<E>)
        ensures
            error == self.error(),
    {
        self.read_error
    }
}

/// Whether a sink that held `before` holds `after` once some part of `bytes`,
/// from its start, has been appended: all of it, none of it or anything
/// between.
pub open spec fn partly_written(before: Seq<u8>, after: Seq<u8>, bytes: Seq<u8>) -> bool {
    exists|n: int| 0 <= n <= bytes.len() && after == before + #[trigger] bytes.take(n)
}

/// A record type that can be written to a sink of bytes.
pub trait Writable<E>: Sized {
    /// The bytes that stand once before all records.
    spec fn header() -> Seq<u8>;

    /// The bytes of this record.
    spec fn encoding(&self) -> Seq<u8>;

    /// Whether writing a header or a record of this type never fails.
    spec fn unfailing() -> bool;

    /// Appends the header.
    fn write_header(writer: &mut Vec<u8>) -> (result: Result<(), E>)
        ensures
            result is Ok ==> final(writer)@ == old(writer)@ + Self::header(),
            result is Err ==> partly_written(old(writer)@, final(writer)@, Self::header()),
            Self::unfailing() ==> result is Ok,
    ;

    /// Appends this record.
    fn write(&self, writer: &mut Vec<u8>) -> (result: Result<(), E>)
        ensures
            result is Ok ==> final(writer)@ == old(writer)@ + self.encoding(),
            result is Err ==> partly_written(old(writer)@, final(writer)@, self.encoding()),
            Self::unfailing() ==> result is Ok,
    ;
}

/// The bytes of the given records, one after the other.
pub open spec fn encodings<E, TRecord: Writable<E>>(records: Seq<TRecord>) -> Seq<u8>
    decreases records.len(),
{
    if records.len() == 0 {
        Seq::empty()
    } else {
        encodings::<E, TRecord>(records.drop_last()) + records.last().encoding()
    }
}

/// The bytes of the first records are the start of the bytes of all.
pub proof fn lemma_encodings_take<E, TRecord: Writable<E>>(records: Seq<TRecord>, n: int)
    requires
        0 <= n <= records.len(),
    ensures
        encodings::<E, TRecord>(records.take(n)).is_prefix_of(encodings::<E, TRecord>(records)),
    decreases records.len() - n,
{
    if n == records.len() {
        assert(records.take(n) == records);
    } else {
        lemma_encodings_take::<E, TRecord>(records.drop_last(), n);
        assert(records.drop_last().take(n) == records.take(n));
    }
}

/// Writes records to a sink of bytes that it owns.
pub struct Serializer<TRecord, E> where TRecord: Writable<E> {
    target: Vec<u8>,
    _marker: PhantomData<(TRecord, E)>,
}

impl<TRecord, E> Serializer<TRecord, E> where TRecord: Writable<E> {
    /// The bytes that the sink holds.
    pub closed spec fn target(&self) -> Seq<u8> {
        self.target@
    }

    /// A serializer that appends to the given sink.
    pub fn new(target: Vec<u8>) -> (serializer: Self)
        ensures
            serializer.target() == target@,
    {
        Self { target, _marker: PhantomData }
    }

    /// Appends the header and then each record, in the order given.
    ///
    /// It stops at the first write that fails and hands its error on: the
    /// sink then holds what it held before and, after that, the bytes of the
    /// header and the records up to some point. Nothing is taken back.
    pub fn serialize(&mut self, records: &[TRecord]) -> (result: Result<(), E>)
        ensures
            result is Ok ==> final(self).target() == old(self).target() + TRecord::header()
                + encodings::<E, TRecord>(records@),
            result is Err ==> partly_written(
                old(self).target(),
                final(self).target(),
                TRecord::header() + encodings::<E, TRecord>(records@),
            ),
            TRecord::unfailing() ==> result is Ok,
    {
        let ghost before = self.target@;
        let ghost all = TRecord::header() + encodings::<E, TRecord>(records@);
        match TRecord::write_header(&mut self.target) {
            Ok(()) => {},
            Err(error) => {
                proof {
                    let n = choose|n: int|
                        0 <= n <= TRecord::header().len() && self.target@ == before
                            + #[trigger] TRecord::header().take(n);
                    assert(all.take(n) == TRecord::header().take(n));
                }
                return Err(error);
            },
        }
        let mut i: usize = 0;
        while i < records.len()
            invariant
                i <= records.len(),
                before == old(self).target(),
                all == TRecord::header() + encodings::<E, TRecord>(records@),
                self.target() == old(self).target() + TRecord::header() + encodings::<E, TRecord>(
                    records@.take(i as int),
                ),
            decreases records.len() - i,
        {
            assert(records@.take(i + 1).drop_last() == records@.take(i as int));
            let ghost written = self.target@;
            match records[i].write(&mut self.target) {
                Ok(()) => {},
                Err(error) => {
                    proof {
                        let done = TRecord::header() + encodings::<E, TRecord>(
                            records@.take(i as int),
                        );
                        let next = records@[i as int].encoding();
                        let n = choose|n: int|
                            0 <= n <= next.len() && self.target@ == written + #[trigger] next.take(
                                n,
                            );
                        let upto = encodings::<E, TRecord>(records@.take(i + 1));
                        let every = encodings::<E, TRecord>(records@);
                        lemma_encodings_take::<E, TRecord>(records@, i + 1);
                        assert(upto == encodings::<E, TRecord>(records@.take(i as int)) + next);
                        assert(upto == every.subrange(0, upto.len() as int));
                        assert forall|j: int| 0 <= j < done.len() + n implies all[j] == (done
                            + next.take(n))[j] by {
                            if j >= TRecord::header().len() {
                                assert(all[j] == every[j - TRecord::header().len()]);
                                assert(every[j - TRecord::header().len()] == upto[j
                                    - TRecord::header().len()]);
                            }
                        }
                        assert(all.take(done.len() + n) == done + next.take(n));
                        assert(self.target@ == before + all.take(done.len() + n));
                        assert(partly_written(before, self.target@, all));
                    }
                    return Err(error);
                },
            }
            i += 1;
        }
        assert(records@.take(i as int) == records@);
        Ok(())
    }

    /// Gives up the serializer for its sink.
    pub fn into_inner(self) -> (target: Vec<u8>)
        ensures
            target@ == self.target(),
    {
        self.target
    }
}

} // verus!
