//! The interface that all decoders share, and the reader of presence bits.
use vstd::prelude::*;
use crate::boolreader::{bool_stream, BoolReader};
use crate::bytereader::ByteReader;
use crate::integerreader::{IntegerReader, UnsignedIntegerReader};
use crate::integerreaderv2::{IntegerReaderV2, SignedIntegerReaderV2};
use crate::source::ByteSource;
use crate::util::{ReaderError, Stream};

verus! {

/// A sequential decoder of values of type `T`.
pub trait ColumnReader<T> {
    /// What the decoder has still to deliver.
    spec fn stream(&self) -> Stream<T>;

    /// Delivers the next value, `None` at the clean end of the stream, or the
    /// error that stopped the decoding. The end, clean or not, is reported
    /// again by every later call.
    fn next(&mut self) -> (r: Result<Option<T>, ReaderError>)
        ensures
            r == old(self).stream().head(),
            final(self).stream() == old(self).stream().tail(),
            r matches Ok(None) ==> final(self).stream() == old(self).stream(),
    ;
}

impl ColumnReader<u8> for ByteReader {
    open spec fn stream(&self) -> Stream<u8> {
        self@
    }

    fn next(&mut self) -> (r: Result<Option<u8>, ReaderError>) {
        self.next_byte()
    }
}

impl ColumnReader<bool> for BoolReader {
    open spec fn stream(&self) -> Stream<bool> {
        self@
    }

    fn next(&mut self) -> (r: Result<Option<bool>, ReaderError>) {
        self.next_bool()
    }
}

impl ColumnReader<i64> for IntegerReader {
    open spec fn stream(&self) -> Stream<i64> {
        self@
    }

    fn next(&mut self) -> (r: Result<Option<i64>, ReaderError>) {
        self.next_int()
    }
}

impl ColumnReader<u64> for UnsignedIntegerReader {
    open spec fn stream(&self) -> Stream<u64> {
        self@
    }

    fn next(&mut self) -> (r: Result<Option<u64>, ReaderError>) {
        self.next_uint()
    }
}

impl ColumnReader<u64> for IntegerReaderV2 {
    open spec fn stream(&self) -> Stream<u64> {
        self@
    }

    fn next(&mut self) -> (r: Result<Option<u64>, ReaderError>) {
        self.next_uint()
    }
}

impl ColumnReader<i64> for SignedIntegerReaderV2 {
    open spec fn stream(&self) -> Stream<i64> {
        self@
    }

    fn next(&mut self) -> (r: Result<Option<i64>, ReaderError>) {
        self.next_int()
    }
}

/// Takes every value that `reader` has still to deliver, and reports with
/// them how the stream ends: `None` for a clean end, else the error.
pub fn read_all<T, R: ColumnReader<T>>(reader: &mut R) -> (r: (Vec<T>, Option<ReaderError>))
    ensures
        r.0@ == old(reader).stream().values,
        r.1 == old(reader).stream().end,
        final(reader).stream() == Stream::<T>::ended(old(reader).stream().end),
{
    let mut values: Vec<T> = Vec::new();
    loop
        invariant
            values@ + reader.stream().values == old(reader).stream().values,
            reader.stream().end == old(reader).stream().end,
        decreases reader.stream().values.len(),
    {
        match reader.next() {
            Ok(Some(value)) => {
                values.push(value);
            },
            Ok(None) => {
                return (values, None);
            },
            Err(e) => {
                return (values, Some(e));
            },
        }
    }
}

/// A reader of presence bits: the booleans that are bit-packed into a
/// run-length encoded byte stream, without a mark for the end of the stream.
pub struct RunLengthByteReader {
    bits: BoolReader,
}

impl View for RunLengthByteReader {
    type V = Stream<bool>;

    closed spec fn view(&self) -> Stream<bool> {
        self.bits@
    }
}

impl RunLengthByteReader {
    /// A reader at the start of `src`.
    pub fn new(src: ByteSource) -> (reader: RunLengthByteReader)
        ensures
            reader@ == bool_stream(src@),
    {
        RunLengthByteReader { bits: BoolReader::new(src) }
    }

    /// Delivers the next presence bit. Past the clean end of the stream every
    /// bit is `false`.
    pub fn next(&mut self) -> (r: Result<bool, ReaderError>)
        ensures
            r == match old(self)@.head() {
                Ok(Some(bit)) => Ok::<bool, ReaderError>(bit),
                Ok(None) => Ok(false),
                Err(e) => Err(e),
            },
            final(self)@ == old(self)@.tail(),
    {
        match self.bits.next_bool() {
            Ok(Some(bit)) => Ok(bit),
            Ok(None) => Ok(false),
            Err(e) => Err(e),
        }
    }
}

} // verus!
