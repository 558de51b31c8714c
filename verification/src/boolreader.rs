//! Bit-packed booleans on top of byte run-length decoding: every decoded
//! byte holds eight booleans, the most significant bit first.
use vstd::prelude::*;
use crate::bitpack::{bit_at, bit_of};
use crate::bytereader::{rle_stream, ByteReader};
use crate::source::{ByteSource, Input};
use crate::util::{ReaderError, Stream};

verus! {

/// The bits of `bytes`, eight per byte, as booleans.
pub open spec fn bits(bytes: Seq<u8>) -> Seq<bool> {
    Seq::new(8 * bytes.len(), |k: int| bit_at(bytes, k))
}

/// The booleans that decoding `input` yields, and how they end. The stream
/// ends where the bytes end: never inside a byte.
pub open spec fn bool_stream(input: Input) -> Stream<bool> {
    bit_stream(rle_stream(input))
}

/// The bits of a stream of bytes.
pub open spec fn bit_stream(bytes: Stream<u8>) -> Stream<bool> {
    Stream { values: bits(bytes.values), end: bytes.end }
}

/// A byte of which some bits have been delivered.
#[derive(Clone, Copy)]
struct BitCursor {
    /// The byte, shifted so that the next bit to deliver is its top bit.
    byte: u8,
    /// How many bits are still to deliver.
    remaining: u8,
}

impl BitCursor {
    /// The bits still to deliver.
    spec fn pending(self) -> Seq<bool> {
        Seq::new(self.remaining as nat, |k: int| bit_of(self.byte, k))
    }
}

/// A decoder that yields one boolean per call.
pub struct BoolReader {
    b: ByteReader,
    /// The byte in hand; `None` when all bits of the last byte are delivered.
    current: Option<BitCursor>,
}

impl View for BoolReader {
    type V = Stream<bool>;

    closed spec fn view(&self) -> Stream<bool> {
        Stream {
            values: match self.current {
                Some(cursor) => cursor.pending(),
                None => Seq::empty(),
            },
            end: None,
        }.chain(bit_stream(self.b@))
    }
}

/// Shifting a byte up by one moves each bit one place forward.
proof fn lemma_shifted_bit(byte: u8, k: int)
    requires
        0 <= k < 7,
    ensures
        bit_of(byte << 1, k) == bit_of(byte, k + 1),
{
    let from = (7 - k) as u8;
    let to = (6 - k) as u8;
    assert(((byte << 1) >> from) & 1 == (byte >> to) & 1) by (bit_vector)
        requires
            1 <= from <= 7,
            to == from - 1,
    ;
}

impl BoolReader {
    /// A byte in hand has between one and eight bits left.
    #[verifier::type_invariant]
    spec fn cursor_in_range(&self) -> bool {
        self.current matches Some(cursor) ==> 1 <= cursor.remaining <= 8
    }

    /// A decoder at the start of `src`.
    pub fn new(src: ByteSource) -> (reader: BoolReader)
        ensures
            reader@ == bool_stream(src@),
    {
        BoolReader { b: ByteReader::new(src), current: None }
    }

    /// Delivers the next boolean, `None` once the bytes have ended, or the
    /// error that stopped the byte decoding.
    pub fn next_bool(&mut self) -> (r: Result<Option<bool>, ReaderError>)
        ensures
            r == old(self)@.head(),
            final(self)@ == old(self)@.tail(),
            r matches Ok(None) ==> final(self)@ == old(self)@,
        no_unwind
    {
        proof {
            use_type_invariant(&*self);
        }
        match self.current {
            Some(cursor) => Ok(Some(self.read_next_bool(cursor))),
            None => self.load_next_byte(),
        }
    }

    /// Delivers the top bit of the byte in hand and shifts the byte up.
    fn read_next_bool(&mut self, cursor: BitCursor) -> (bit: bool)
        requires
            1 <= cursor.remaining <= 8,
        ensures
            bit == cursor.pending()[0],
            final(self)@ == (Stream { values: cursor.pending().skip(1), end: None }).chain(
                bit_stream(old(self).b@),
            ),
        no_unwind
    {
        let byte = cursor.byte;
        let bit = byte & 0x80 != 0;
        assert(bit == bit_of(byte, 0)) by (bit_vector)
            requires
                bit == (byte & 0x80 != 0),
        ;
        if cursor.remaining == 1 {
            self.current = None;
        } else {
            let shifted = BitCursor { byte: byte << 1, remaining: cursor.remaining - 1 };
            assert forall|k: int| 0 <= k < shifted.remaining implies shifted.pending()[k]
                == cursor.pending().skip(1)[k] by {
                lemma_shifted_bit(byte, k);
            }
            self.current = Some(shifted);
        }
        bit
    }

    /// Takes the next byte from the byte decoder and delivers its first bit.
    fn load_next_byte(&mut self) -> (r: Result<Option<bool>, ReaderError>)
        requires
            old(self).current is None,
        ensures
            r == old(self)@.head(),
            final(self)@ == old(self)@.tail(),
        no_unwind
    {
        match self.b.next_byte() {
            Ok(Some(byte)) => Ok(Some(self.read_next_bool(BitCursor { byte, remaining: 8 }))),
            Ok(None) => Ok(None),
            Err(e) => Err(e),
        }
    }
}

} // verus!
