//! Integer run-length decoding, first generation.
//!
//! A control byte below `0x80` opens a delta run of `control + 3` values: a
//! signed byte, the delta, and a base-128 integer, the first value, follow;
//! each further value is the one before it plus the delta, in 64-bit
//! two's-complement arithmetic. A control byte from `0x80` on opens a literal
//! run of `control - 0x80` base-128 integers.
use vstd::prelude::*;
use vstd::arithmetic::div_mod::{lemma_fundamental_div_mod, lemma_fundamental_div_mod_converse};
use vstd::wrapping::i64_specs::{signed_crop, wrapping_add};
use crate::source::{ByteSource, Input};
use crate::util::{
    reinterpret_signed, reinterpret_unsigned, to_signed, ReaderError, Stream,
};
use crate::varint::{decode_unsigned, parse_varint, Varint};

verus! {

/// The length of the shortest delta run.
pub const MIN_REPEAT_SIZE: u8 = 3;

/// The signed integer with the same eight bits as `byte`.
pub open spec fn signed_byte(byte: u8) -> i8 {
    if byte < 0x80 {
        byte as i8
    } else {
        (byte - 0x100) as i8
    }
}

/// The value `k` steps of `delta` away from `first`, wrapped round at the
/// ends of the 64-bit range.
pub open spec fn progression_at(first: i64, delta: i8, k: int) -> i64 {
    signed_crop(first + k * delta)
}

/// `count` values that start at `first` and go on in steps of `delta`.
pub open spec fn progression(first: i64, delta: i8, count: nat) -> Seq<i64> {
    Seq::new(count, |k: int| progression_at(first, delta, k))
}

/// The integers that decoding `input` yields, and how they end.
pub open spec fn int_stream(input: Input) -> Stream<i64>
    decreases input.len(), 0nat,
{
    if input.len() == 0 {
        Stream::ended(input.close())
    } else if input.bytes[0] < 0x80 {
        delta_run(input.skip(1), (input.bytes[0] + MIN_REPEAT_SIZE) as nat)
    } else {
        literal_run(input.skip(1), (input.bytes[0] - 0x80) as nat)
    }
}

/// The stream of an input that stands behind the control byte of a delta run
/// of `count` values.
pub open spec fn delta_run(input: Input, count: nat) -> Stream<i64>
    decreases input.len(), 1nat,
{
    if input.len() == 0 {
        Stream::failed(input.cut_short())
    } else {
        match parse_varint(input.bytes.skip(1)) {
            Varint::Value { value, len } => Stream {
                values: progression(to_signed(value), signed_byte(input.bytes[0]), count),
                end: None,
            }.chain(int_stream(input.skip(1 + len as int))),
            Varint::Cut => Stream::failed(input.cut_short()),
            Varint::Overlong => Stream::failed(ReaderError::MalformedVarint),
        }
    }
}

/// The stream of an input that stands `count` integers before the end of a
/// literal run.
pub open spec fn literal_run(input: Input, count: nat) -> Stream<i64>
    decreases input.len(), count + 1,
{
    if count == 0 {
        int_stream(input)
    } else {
        match parse_varint(input.bytes) {
            Varint::Value { value, len } => Stream {
                values: seq![to_signed(value)],
                end: None,
            }.chain(literal_run(input.skip(len as int), (count - 1) as nat)),
            Varint::Cut => Stream::failed(input.cut_short()),
            Varint::Overlong => Stream::failed(ReaderError::MalformedVarint),
        }
    }
}

/// An integer of the 64-bit signed range is what every number that differs
/// from it by a multiple of two to the 64 wraps round to.
proof fn lemma_crop_congruent(x: int, y: int, q: int)
    requires
        i64::MIN <= y <= i64::MAX,
        x == y + q * 0x1_0000_0000_0000_0000,
    ensures
        signed_crop(x) == y,
{
    if y >= 0 {
        lemma_fundamental_div_mod_converse(x, 0x1_0000_0000_0000_0000, q, y);
    } else {
        lemma_fundamental_div_mod_converse(
            x,
            0x1_0000_0000_0000_0000,
            q - 1,
            y + 0x1_0000_0000_0000_0000,
        );
    }
}

/// Stepping once and then `k` times is stepping `k + 1` times.
proof fn lemma_progression_shift(first: i64, delta: i8, k: int)
    ensures
        progression_at(wrapping_add(first, delta as i64), delta, k) == progression_at(
            first,
            delta,
            k + 1,
        ),
{
    let m = 0x1_0000_0000_0000_0000int;
    let next = wrapping_add(first, delta as i64);
    let j = if first + delta > i64::MAX {
        -1int
    } else if first + delta < i64::MIN {
        1int
    } else {
        0int
    };
    let target = first + (k + 1) * delta;
    lemma_fundamental_div_mod(target, m);
    let t = signed_crop(target);
    let c = if target % m > i64::MAX {
        1int
    } else {
        0int
    };
    assert(next + k * delta == t + ((target / m) + c + j) * m) by (nonlinear_arith)
        requires
            target == first + (k + 1) * delta,
            target == m * (target / m) + target % m,
            next == first + delta + j * m,
            t == target % m - c * m,
    ;
    lemma_crop_congruent(next + k * delta, t as int, (target / m) + c + j);
}

/// What is left of a progression after its first value is the progression
/// from the wrapped second value on.
proof fn lemma_progression_tail(first: i64, delta: i8, count: nat)
    requires
        count > 0,
    ensures
        progression(first, delta, count)[0] == first,
        progression(first, delta, count).skip(1) == progression(
            wrapping_add(first, delta as i64),
            delta,
            (count - 1) as nat,
        ),
{
    let next = wrapping_add(first, delta as i64);
    assert forall|k: int| 0 <= k < count - 1 implies #[trigger] progression_at(next, delta, k)
        == progression_at(first, delta, k + 1) by {
        lemma_progression_shift(first, delta, k);
    }
}

/// Where a decoder stands between two calls.
#[derive(Clone, Copy)]
enum Run {
    /// Between runs: the next byte of the input is a control byte.
    Idle,
    /// Inside a delta run with `left` values still to deliver, `current` first.
    Delta { left: u8, current: i64, delta: i8 },
    /// Inside a literal run with `left` integers still to read.
    Literal { left: u8 },
    /// An error was reported; it is reported again on every call.
    Failed(ReaderError),
}

/// A decoder that yields one signed integer per call.
pub struct IntegerReader {
    src: ByteSource,
    run: Run,
}

impl View for IntegerReader {
    type V = Stream<i64>;

    closed spec fn view(&self) -> Stream<i64> {
        match self.run {
            Run::Idle => int_stream(self.src@),
            Run::Delta { left, current, delta } => Stream {
                values: progression(current, delta, left as nat),
                end: None,
            }.chain(int_stream(self.src@)),
            Run::Literal { left } => literal_run(self.src@, left as nat),
            Run::Failed(e) => Stream::failed(e),
        }
    }
}

impl IntegerReader {
    /// A counter is never zero: the decoder goes back to idle at the moment
    /// the last value of a run is delivered.
    #[verifier::type_invariant]
    spec fn counters_positive(&self) -> bool {
        match self.run {
            Run::Delta { left, .. } => 1 <= left <= 0x7f + MIN_REPEAT_SIZE - 1,
            Run::Literal { left } => 1 <= left <= 0x7f,
            _ => true,
        }
    }

    /// A decoder at the start of `src`.
    pub fn new(src: ByteSource) -> (reader: IntegerReader)
        ensures
            reader@ == int_stream(src@),
    {
        IntegerReader { src, run: Run::Idle }
    }

    /// A decoder at the start of `src` that delivers each value as the
    /// unsigned integer with the same bits.
    pub fn new_unsigned(src: ByteSource) -> (reader: UnsignedIntegerReader)
        ensures
            reader@ == int_stream(src@).unsigned(),
    {
        UnsignedIntegerReader(IntegerReader::new(src))
    }

    /// Delivers the next integer, `None` once the input has ended between two
    /// runs, or the error that stopped the decoding.
    pub fn next_int(&mut self) -> (r: Result<Option<i64>, ReaderError>)
        ensures
            r == old(self)@.head(),
            final(self)@ == old(self)@.tail(),
            r matches Ok(None) ==> final(self)@ == old(self)@,
    {
        proof {
            use_type_invariant(&*self);
        }
        match self.run {
            Run::Failed(e) => Err(e),
            Run::Delta { left, current, delta } => {
                proof {
                    lemma_progression_tail(current, delta, left as nat);
                }
                self.run = if left > 1 {
                    Run::Delta {
                        left: left - 1,
                        current: current.wrapping_add(delta as i64),
                        delta,
                    }
                } else {
                    Run::Idle
                };
                Ok(Some(current))
            },
            Run::Literal { left } => self.read_literal(left),
            Run::Idle => {
                loop
                    invariant
                        self.run is Idle,
                        self@ == old(self)@,
                    decreases self.src@.len(),
                {
                    match self.src.read() {
                        Err(e) => {
                            return self.fail(e);
                        },
                        Ok(None) => {
                            return Ok(None);
                        },
                        Ok(Some(control)) => {
                            if control < 0x80 {
                                return self.read_delta(control + MIN_REPEAT_SIZE);
                            } else if control > 0x80 {
                                return self.read_literal(control - 0x80);
                            }
                        },
                    }
                }
            },
        }
    }

    /// Records `e` as the end of the decoding and reports it.
    fn fail(&mut self, e: ReaderError) -> (r: Result<Option<i64>, ReaderError>)
        ensures
            r == Err::<Option<i64>, ReaderError>(e),
            final(self)@ == Stream::<i64>::failed(e),
    {
        self.run = Run::Failed(e);
        Err(e)
    }

    /// Reads the delta and the first value of a delta run of `count` values
    /// and delivers that value.
    fn read_delta(&mut self, count: u8) -> (r: Result<Option<i64>, ReaderError>)
        requires
            MIN_REPEAT_SIZE <= count <= 0x7f + MIN_REPEAT_SIZE,
            old(self).run is Idle,
        ensures
            r == delta_run(old(self).src@, count as nat).head(),
            final(self)@ == delta_run(old(self).src@, count as nat).tail(),
    {
        let ghost input = self.src@;
        let delta = match self.src.read_promised() {
            Err(e) => {
                return self.fail(e);
            },
            Ok(byte) => {
                let delta = #[verifier::truncate] (byte as i8);
                assert(delta == signed_byte(byte)) by (bit_vector)
                    requires
                        delta == byte as i8,
                ;
                delta
            },
        };
        match self.read_var_int() {
            Err(e) => self.fail(e),
            Ok(first) => {
                proof {
                    lemma_progression_tail(first, delta, count as nat);
                    let len = parse_varint(input.bytes.skip(1))->len;
                    assert(input.skip(1).skip(len as int) == input.skip(1 + len as int));
                }
                self.run = Run::Delta {
                    left: count - 1,
                    current: first.wrapping_add(delta as i64),
                    delta,
                };
                Ok(Some(first))
            },
        }
    }

    /// Reads one integer of a literal run of which `left` are outstanding.
    fn read_literal(&mut self, left: u8) -> (r: Result<Option<i64>, ReaderError>)
        requires
            1 <= left <= 0x7f,
            old(self).run is Idle || old(self).run is Literal,
        ensures
            r == literal_run(old(self).src@, left as nat).head(),
            final(self)@ == literal_run(old(self).src@, left as nat).tail(),
    {
        match self.read_var_int() {
            Err(e) => self.fail(e),
            Ok(value) => {
                self.run = if left > 1 {
                    Run::Literal { left: left - 1 }
                } else {
                    Run::Idle
                };
                Ok(Some(value))
            },
        }
    }

    /// Reads a base-128 integer that a control byte has announced and takes
    /// its 64 bits as a signed integer.
    fn read_var_int(&mut self) -> (r: Result<i64, ReaderError>)
        ensures
            final(self).run == old(self).run,
            match parse_varint(old(self).src@.bytes) {
                Varint::Value { value, len } => r == Ok::<i64, ReaderError>(to_signed(value))
                    && final(self).src@ == old(self).src@.skip(len as int),
                Varint::Cut => r == Err::<i64, ReaderError>(old(self).src@.cut_short()),
                Varint::Overlong => r == Err::<i64, ReaderError>(ReaderError::MalformedVarint),
            },
    {
        proof {
            use_type_invariant(&*self);
        }
        match decode_unsigned(&mut self.src) {
            Ok(Some(value)) => Ok(reinterpret_signed(value)),
            Ok(None) => Err(ReaderError::Truncated),
            Err(e) => Err(e),
        }
    }
}

/// A decoder that yields one unsigned integer per call: the values of an
/// [`IntegerReader`], each read as the unsigned integer with the same bits.
pub struct UnsignedIntegerReader(IntegerReader);

impl View for UnsignedIntegerReader {
    type V = Stream<u64>;

    closed spec fn view(&self) -> Stream<u64> {
        self.0@.unsigned()
    }
}

impl UnsignedIntegerReader {
    /// Delivers the next integer, `None` once the input has ended between two
    /// runs, or the error that stopped the decoding.
    pub fn next_uint(&mut self) -> (r: Result<Option<u64>, ReaderError>)
        ensures
            r == old(self)@.head(),
            final(self)@ == old(self)@.tail(),
            r matches Ok(None) ==> final(self)@ == old(self)@,
    {
        match self.0.next_int() {
            Ok(Some(signed)) => Ok(Some(reinterpret_unsigned(signed))),
            Ok(None) => Ok(None),
            Err(e) => Err(e),
        }
    }
}

} // verus!
