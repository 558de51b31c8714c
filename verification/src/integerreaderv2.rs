//! Integer run-length decoding, second generation.
//!
//! A run opens with a header byte whose two top bits name a sub-encoding.
//! Direct runs are decoded: five bits of the header select a bit width, its
//! lowest bit and the following byte give the number of values less one, and
//! the values follow, bit-packed. The other three sub-encodings are reported
//! as unsupported.
use vstd::prelude::*;
use crate::bitpack::{bits_to_min_bytes, min_bytes, unpack, unpacked};
use crate::source::{ByteSource, Input};
use crate::util::{reinterpret_signed, ReaderError, Stream};

verus! {

/// The sub-encoding tag that opens a direct run.
pub const DIRECT: u8 = 1;

/// The bit width that a five-bit width code stands for.
pub open spec fn bit_width(code: u8) -> u8 {
    if code == 7 {
        15
    } else if code == 24 {
        26
    } else if code == 25 {
        28
    } else if code == 26 {
        30
    } else if code == 27 {
        32
    } else if code == 28 {
        40
    } else if code == 29 {
        48
    } else if code == 30 {
        56
    } else if code == 31 {
        64
    } else {
        (code + 1) as u8
    }
}

/// The sub-encoding tag of a header byte: its two top bits.
pub open spec fn header_tag(header: u8) -> u8 {
    header / 64
}

/// The bit width that the header of a direct run selects.
pub open spec fn direct_width(header: u8) -> nat {
    bit_width((header / 2) % 32) as nat
}

/// The number of values of a direct run: nine bits, the lowest bit of the
/// header above the eight of the byte `low` that follows it, plus one.
pub open spec fn direct_count(header: u8, low: u8) -> nat {
    ((header % 2) * 256 + low + 1) as nat
}

/// The values that decoding `input` yields, and how they end.
pub open spec fn v2_stream(input: Input) -> Stream<u64>
    decreases input.len(), 0nat,
{
    if input.len() == 0 {
        Stream::ended(input.close())
    } else if header_tag(input.bytes[0]) != DIRECT {
        Stream::failed(ReaderError::UnsupportedEncoding)
    } else if input.len() == 1 {
        Stream::failed(input.cut_short())
    } else {
        direct_run(
            input.skip(2),
            direct_width(input.bytes[0]),
            direct_count(input.bytes[0], input.bytes[1]),
        )
    }
}

/// The stream of an input that stands behind the two header bytes of a direct
/// run of `count` values of `width` bits: those values, then the runs after
/// them.
pub open spec fn direct_run(input: Input, width: nat, count: nat) -> Stream<u64>
    decreases input.len(), 1nat,
{
    let size = min_bytes(width * count);
    if size <= input.len() {
        Stream { values: unpacked(input.bytes.take(size as int), width, count), end: None }.chain(
            v2_stream(input.skip(size as int)),
        )
    } else {
        Stream::failed(input.cut_short())
    }
}

/// Looks a five-bit width code up in the table of bit widths.
pub fn decode_bit_width(code: u8) -> (width: u8)
    requires
        code < 32,
    ensures
        width == bit_width(code),
        1 <= width <= 64,
{
    match code {
        7 => 15,
        24 => 26,
        25 => 28,
        26 => 30,
        27 => 32,
        28 => 40,
        29 => 48,
        30 => 56,
        31 => 64,
        _ => code + 1,
    }
}

/// A decoder that yields one unsigned integer per call.
pub struct IntegerReaderV2 {
    src: ByteSource,
    /// The values of the run that was decoded last.
    buffer: Vec<u64>,
    /// How many of them have been delivered.
    head: usize,
    /// The error that ended the decoding, once there is one.
    failed: Option<ReaderError>,
}

impl IntegerReaderV2 {
    /// The staged values that have not been delivered yet.
    closed spec fn staged(&self) -> Seq<u64> {
        if self.head <= self.buffer.len() {
            self.buffer@.skip(self.head as int)
        } else {
            Seq::empty()
        }
    }

    /// What follows the staged values.
    closed spec fn unread(&self) -> Stream<u64> {
        match self.failed {
            Some(e) => Stream::failed(e),
            None => v2_stream(self.src@),
        }
    }
}

impl View for IntegerReaderV2 {
    type V = Stream<u64>;

    closed spec fn view(&self) -> Stream<u64> {
        Stream { values: self.staged(), end: None }.chain(self.unread())
    }
}

impl IntegerReaderV2 {
    /// A decoder at the start of `src`.
    pub fn new(src: ByteSource) -> (reader: IntegerReaderV2)
        ensures
            reader@ == v2_stream(src@),
    {
        IntegerReaderV2 { src, buffer: Vec::new(), head: 0, failed: None }
    }

    /// A decoder at the start of `src` that delivers each value as the signed
    /// integer with the same bits.
    pub fn new_signed(src: ByteSource) -> (reader: SignedIntegerReaderV2)
        ensures
            reader@ == v2_stream(src@).signed(),
    {
        SignedIntegerReaderV2(IntegerReaderV2::new(src))
    }

    /// Delivers the next value: a staged one if there is any, else the first
    /// of the next run; `None` once the input has ended between two runs; or
    /// the error that stopped the decoding.
    pub fn next_uint(&mut self) -> (r: Result<Option<u64>, ReaderError>)
        ensures
            r == old(self)@.head(),
            final(self)@ == old(self)@.tail(),
            r matches Ok(None) ==> final(self)@ == old(self)@,
    {
        if self.head < self.buffer.len() {
            let value = self.buffer[self.head];
            self.head = self.head + 1;
            return Ok(Some(value));
        }
        match self.failed {
            Some(e) => Err(e),
            None => self.read_mode(),
        }
    }

    /// Records `e` as the end of the decoding and reports it.
    fn fail(&mut self, e: ReaderError) -> (r: Result<Option<u64>, ReaderError>)
        requires
            old(self).staged().len() == 0,
        ensures
            r == Err::<Option<u64>, ReaderError>(e),
            final(self)@ == Stream::<u64>::failed(e),
    {
        self.failed = Some(e);
        Err(e)
    }

    /// Reads a header byte and decodes the run it opens.
    fn read_mode(&mut self) -> (r: Result<Option<u64>, ReaderError>)
        requires
            old(self).staged().len() == 0,
            old(self).failed is None,
        ensures
            r == v2_stream(old(self).src@).head(),
            final(self)@ == v2_stream(old(self).src@).tail(),
    {
        let ghost input = self.src@;
        match self.src.read() {
            Err(e) => self.fail(e),
            Ok(None) => Ok(None),
            Ok(Some(header)) => {
                assert(header >> 6 == header / 64) by (bit_vector);
                if header >> 6 == DIRECT {
                    assert(input.skip(1).unread(header) == input);
                    self.initialize_direct(header)
                } else {
                    self.fail(ReaderError::UnsupportedEncoding)
                }
            },
        }
    }

    /// Reads what is left of the header of a direct run and decodes the run.
    fn initialize_direct(&mut self, header: u8) -> (r: Result<Option<u64>, ReaderError>)
        requires
            header_tag(header) == DIRECT,
            old(self).staged().len() == 0,
            old(self).failed is None,
        ensures
            r == v2_stream(old(self).src@.unread(header)).head(),
            final(self)@ == v2_stream(old(self).src@.unread(header)).tail(),
    {
        let ghost input = self.src@;
        let ghost whole = input.unread(header);
        let code = (header >> 1) & 0x1f;
        assert(code == (header / 2) % 32) by (bit_vector)
            requires
                code == (header >> 1) & 0x1f,
        ;
        let width = decode_bit_width(code);
        match self.src.read_promised() {
            Err(e) => self.fail(e),
            Ok(low) => {
                let high = (header & 1) as u16;
                let wide = low as u16;
                assert((high << 8) | wide == (header % 2) * 256 + low) by (bit_vector)
                    requires
                        high == (header & 1) as u16,
                        wide == low as u16,
                ;
                let length = ((high << 8) | wide) + 1;
                assert(whole.skip(2) == input.skip(1));
                self.read_direct_to_buffer(width, length)
            },
        }
    }

    /// Reads the packed values of a direct run of `length` values of `width`
    /// bits, stages them and delivers the first.
    fn read_direct_to_buffer(&mut self, width: u8, length: u16) -> (r: Result<
        Option<u64>,
        ReaderError,
    >)
        requires
            1 <= width <= 64,
            1 <= length <= 512,
            old(self).staged().len() == 0,
            old(self).failed is None,
        ensures
            r == direct_run(old(self).src@, width as nat, length as nat).head(),
            final(self)@ == direct_run(old(self).src@, width as nat, length as nat).tail(),
    {
        let ghost input = self.src@;
        assert(width * length <= 64 * 512) by (nonlinear_arith)
            requires
                width <= 64,
                length <= 512,
        ;
        let size = bits_to_min_bytes(width as usize * length as usize);
        let mut packed: Vec<u8> = Vec::new();
        while packed.len() < size
            invariant
                input == old(self).src@,
                size == min_bytes((width * length) as nat),
                packed.len() <= size,
                size <= input.len() ==> packed@ == input.bytes.take(packed.len() as int)
                    && self.src@ == input.skip(packed.len() as int),
                size > input.len() ==> self.src@.len() + packed.len() == input.len()
                    && self.src@.failing == input.failing,
                self.staged().len() == 0,
                self.failed is None,
            decreases size - packed.len(),
        {
            match self.src.read_promised() {
                Err(e) => {
                    return self.fail(e);
                },
                Ok(byte) => {
                    packed.push(byte);
                },
            }
        }
        let values = unpack(&packed, width, length as usize);
        let first = values[0];
        self.head = 1;
        self.buffer = values;
        Ok(Some(first))
    }
}

/// A decoder that yields one signed integer per call: the values of an
/// [`IntegerReaderV2`], each read as the signed integer with the same bits.
pub struct SignedIntegerReaderV2(IntegerReaderV2);

impl View for SignedIntegerReaderV2 {
    type V = Stream<i64>;

    closed spec fn view(&self) -> Stream<i64> {
        self.0@.signed()
    }
}

impl SignedIntegerReaderV2 {
    /// Delivers the next value, `None` once the input has ended between two
    /// runs, or the error that stopped the decoding.
    pub fn next_int(&mut self) -> (r: Result<Option<i64>, ReaderError>)
        ensures
            r == old(self)@.head(),
            final(self)@ == old(self)@.tail(),
            r matches Ok(None) ==> final(self)@ == old(self)@,
    {
        match self.0.next_uint() {
            Ok(Some(unsigned)) => Ok(Some(reinterpret_signed(unsigned))),
            Ok(None) => Ok(None),
            Err(e) => Err(e),
        }
    }
}

} // verus!
