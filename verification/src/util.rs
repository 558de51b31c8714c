//! The error type shared by all decoders and the model of what a decoder yields.
use vstd::prelude::*;

verus! {

/// Why a decoder stopped before a clean end of its input.
#[derive(Clone, Copy, Debug, PartialEq, Eq, Structural)]
pub enum ReaderError {
    /// The byte source itself failed.
    IO,
    /// The input ended inside an item that a control or header byte had announced.
    Truncated,
    /// A second-generation header names a sub-encoding this library does not decode.
    UnsupportedEncoding,
    /// A base-128 integer still asks for more bytes after its tenth group.
    MalformedVarint,
}

/// The signed integer with the same 64 bits as `value`.
pub open spec fn to_signed(value: u64) -> i64 {
    if value < 0x8000_0000_0000_0000 {
        value as i64
    } else {
        (value - 0x1_0000_0000_0000_0000) as i64
    }
}

/// The unsigned integer with the same 64 bits as `value`.
pub open spec fn to_unsigned(value: i64) -> u64 {
    if value >= 0 {
        value as u64
    } else {
        (value + 0x1_0000_0000_0000_0000) as u64
    }
}

/// Reads 64 bits as a signed integer.
pub fn reinterpret_signed(value: u64) -> (signed: i64)
    ensures
        signed == to_signed(value),
{
    let signed = #[verifier::truncate] (value as i64);
    assert(signed == to_signed(value)) by (bit_vector)
        requires
            signed == value as i64,
    ;
    signed
}

/// Reads 64 bits as an unsigned integer.
pub fn reinterpret_unsigned(value: i64) -> (unsigned: u64)
    ensures
        unsigned == to_unsigned(value),
{
    let unsigned = #[verifier::truncate] (value as u64);
    assert(unsigned == to_unsigned(value)) by (bit_vector)
        requires
            unsigned == value as u64,
    ;
    unsigned
}

/// What a decoder delivers from some point on: finitely many values, then
/// either a clean end (`end` is `None`) or an error that it keeps reporting.
#[verifier::ext_equal]
pub ghost struct Stream<T> {
    pub values: Seq<T>,
    pub end: Option<ReaderError>,
}

impl<T> Stream<T> {
    /// No value; only the ending.
    pub open spec fn ended(end: Option<ReaderError>) -> Stream<T> {
        Stream { values: Seq::empty(), end }
    }

    /// No value, and the error `e` for ever.
    pub open spec fn failed(e: ReaderError) -> Stream<T> {
        Stream { values: Seq::empty(), end: Some(e) }
    }

    /// `count` copies of `value`, then a clean end.
    pub open spec fn repeat(value: T, count: nat) -> Stream<T> {
        Stream { values: Seq::new(count, |i: int| value), end: None }
    }

    /// The values of `self`, then all of `rest`. Meant for a `self` that ends cleanly.
    pub open spec fn chain(self, rest: Stream<T>) -> Stream<T> {
        Stream { values: self.values + rest.values, end: rest.end }
    }

    /// What the next call on a decoder with this stream returns.
    pub open spec fn head(self) -> Result<Option<T>, ReaderError> {
        if self.values.len() > 0 {
            Ok(Some(self.values[0]))
        } else {
            match self.end {
                None => Ok(None),
                Some(e) => Err(e),
            }
        }
    }

    /// The stream that is left after that call: once the values are used up
    /// the ending repeats.
    pub open spec fn tail(self) -> Stream<T> {
        if self.values.len() > 0 {
            Stream { values: self.values.skip(1), end: self.end }
        } else {
            self
        }
    }
}

impl Stream<u64> {
    /// The same stream with every value read as a signed integer.
    pub open spec fn signed(self) -> Stream<i64> {
        Stream { values: self.values.map_values(|v: u64| to_signed(v)), end: self.end }
    }
}

impl Stream<i64> {
    /// The same stream with every value read as an unsigned integer.
    pub open spec fn unsigned(self) -> Stream<u64> {
        Stream { values: self.values.map_values(|v: i64| to_unsigned(v)), end: self.end }
    }
}

/// A clean end is final: a stream that has reported it is left as it was, and
/// so reports it again, never an error.
pub proof fn lemma_clean_end_repeats<T>(s: Stream<T>)
    requires
        s.head() == Ok::<Option<T>, ReaderError>(None),
    ensures
        s.tail() == s,
        s.tail().head() == Ok::<Option<T>, ReaderError>(None),
{
}

/// An error is final too: it is reported again by every later call.
pub proof fn lemma_error_repeats<T>(s: Stream<T>, e: ReaderError)
    requires
        s.head() == Err::<Option<T>, ReaderError>(e),
    ensures
        s.tail() == s,
        s.tail().head() == Err::<Option<T>, ReaderError>(e),
{
}

} // verus!
