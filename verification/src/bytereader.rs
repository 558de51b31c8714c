//! Byte run-length decoding.
//!
//! The encoded form is a sequence of runs. A control byte below `0x80` opens a
//! repeat run: the byte after it stands for `control + 3` copies of itself. A
//! control byte from `0x80` on opens a literal run of `control - 0x80` bytes
//! that follow verbatim; an empty literal run is legal.
use vstd::prelude::*;
use crate::source::{ByteSource, Input};
use crate::util::{ReaderError, Stream};

verus! {

/// The length of the shortest repeat run.
pub const MIN_REPEAT_SIZE: u8 = 3;

/// The bytes that run-length decoding `input` yields, and how they end.
pub open spec fn rle_stream(input: Input) -> Stream<u8>
    decreases input.len(), 0nat,
{
    if input.len() == 0 {
        Stream::ended(input.close())
    } else {
        let control = input.bytes[0];
        let rest = input.skip(1);
        if control < 0x80 {
            if rest.len() == 0 {
                Stream::failed(rest.cut_short())
            } else {
                Stream::repeat(rest.bytes[0], (control + MIN_REPEAT_SIZE) as nat).chain(
                    rle_stream(rest.skip(1)),
                )
            }
        } else {
            literal_run(rest, (control - 0x80) as nat)
        }
    }
}

/// The stream of an input that stands `count` bytes before the end of a
/// literal run: those bytes, then the runs after them.
pub open spec fn literal_run(input: Input, count: nat) -> Stream<u8>
    decreases input.len(), 1nat,
{
    if count <= input.len() {
        Stream { values: input.bytes.take(count as int), end: None }.chain(
            rle_stream(input.skip(count as int)),
        )
    } else {
        Stream { values: input.bytes, end: Some(input.cut_short()) }
    }
}

/// One run of the encoded form.
pub ghost enum ByteRun {
    /// `count` copies of `value`.
    Repeat { value: u8, count: nat },
    /// The bytes `bytes` as they are.
    Literal { bytes: Seq<u8> },
}

impl ByteRun {
    /// Whether a control byte can announce the run: a repeat run has from 3
    /// to 130 copies, a literal run at most 127 bytes.
    pub open spec fn encodable(self) -> bool {
        match self {
            ByteRun::Repeat { count, .. } => MIN_REPEAT_SIZE <= count <= MIN_REPEAT_SIZE + 0x7f,
            ByteRun::Literal { bytes } => bytes.len() <= 0x7f,
        }
    }

    /// The control byte of the run and what follows it.
    pub open spec fn encoded(self) -> Seq<u8> {
        match self {
            ByteRun::Repeat { value, count } => seq![(count - MIN_REPEAT_SIZE) as u8, value],
            ByteRun::Literal { bytes } => seq![(0x80 + bytes.len()) as u8] + bytes,
        }
    }

    /// The bytes that the run stands for.
    pub open spec fn expanded(self) -> Seq<u8> {
        match self {
            ByteRun::Repeat { value, count } => Seq::new(count, |i: int| value),
            ByteRun::Literal { bytes } => bytes,
        }
    }
}

/// The encoded form of a sequence of runs.
pub open spec fn encode(runs: Seq<ByteRun>) -> Seq<u8>
    decreases runs.len(),
{
    if runs.len() == 0 {
        Seq::empty()
    } else {
        runs[0].encoded() + encode(runs.skip(1))
    }
}

/// The bytes that a sequence of runs stands for.
pub open spec fn expand(runs: Seq<ByteRun>) -> Seq<u8>
    decreases runs.len(),
{
    if runs.len() == 0 {
        Seq::empty()
    } else {
        runs[0].expanded() + expand(runs.skip(1))
    }
}

/// Decoding undoes encoding: whatever the split of a byte string into repeat
/// and literal runs, the encoded runs decode to that byte string and end as
/// the input ends.
pub proof fn lemma_decode_encoded(runs: Seq<ByteRun>, failing: bool)
    requires
        forall|i: int| 0 <= i < runs.len() ==> (#[trigger] runs[i]).encodable(),
    ensures
        rle_stream(Input { bytes: encode(runs), failing }) == (Stream {
            values: expand(runs),
            end: (Input { bytes: encode(runs), failing }).close(),
        }),
    decreases runs.len(),
{
    let input = Input { bytes: encode(runs), failing };
    if runs.len() > 0 {
        let rest = Input { bytes: encode(runs.skip(1)), failing };
        lemma_decode_encoded(runs.skip(1), failing);
        match runs[0] {
            ByteRun::Repeat { value, count } => {
                assert(input.skip(1).skip(1) == rest);
            },
            ByteRun::Literal { bytes } => {
                assert(input.skip(1).skip(bytes.len() as int) == rest);
                assert(rle_stream(input) == literal_run(input.skip(1), bytes.len()));
            },
        }
    }
}

/// Where a decoder stands between two calls.
#[derive(Clone, Copy)]
enum Run {
    /// Between runs: the next byte of the input is a control byte.
    Idle,
    /// Inside a repeat run with `left` copies of `value` still to deliver.
    Repeat { left: u8, value: u8 },
    /// Inside a literal run with `left` bytes still to read.
    Literal { left: u8 },
    /// An error was reported; it is reported again on every call.
    Failed(ReaderError),
}

/// A run-length decoder that yields one byte per call.
pub struct ByteReader {
    src: ByteSource,
    run: Run,
}

impl View for ByteReader {
    type V = Stream<u8>;

    closed spec fn view(&self) -> Stream<u8> {
        match self.run {
            Run::Idle => rle_stream(self.src@),
            Run::Repeat { left, value } => Stream::repeat(value, left as nat).chain(
                rle_stream(self.src@),
            ),
            Run::Literal { left } => literal_run(self.src@, left as nat),
            Run::Failed(e) => Stream::failed(e),
        }
    }
}

impl ByteReader {
    /// A counter is never zero: the decoder goes back to idle at the moment
    /// the last value of a run is delivered.
    #[verifier::type_invariant]
    spec fn counters_positive(&self) -> bool {
        match self.run {
            Run::Repeat { left, .. } => 1 <= left <= 0x7f + MIN_REPEAT_SIZE - 1,
            Run::Literal { left } => 1 <= left <= 0x7f,
            _ => true,
        }
    }

    /// A decoder at the start of `src`.
    pub fn new(src: ByteSource) -> (reader: ByteReader)
        ensures
            reader@ == rle_stream(src@),
    {
        ByteReader { src, run: Run::Idle }
    }

    /// Delivers the next decoded byte, `None` once the input has ended between
    /// two runs, or the error that stopped the decoding.
    pub fn next_byte(&mut self) -> (r: Result<Option<u8>, ReaderError>)
        ensures
            r == old(self)@.head(),
            final(self)@ == old(self)@.tail(),
            r matches Ok(None) ==> final(self)@ == old(self)@,
        no_unwind
    {
        proof {
            use_type_invariant(&*self);
        }
        match self.run {
            Run::Failed(e) => Err(e),
            Run::Repeat { left, value } => {
                self.run = if left > 1 {
                    Run::Repeat { left: left - 1, value }
                } else {
                    Run::Idle
                };
                Ok(Some(value))
            },
            Run::Literal { left } => self.read_raw_byte(left),
            Run::Idle => {
                loop
                    invariant
                        self.run is Idle,
                        self@ == old(self)@,
                    decreases self.src@.len(),
                {
                    let ghost input = self.src@;
                    match self.src.read() {
                        Err(e) => {
                            self.run = Run::Failed(e);
                            return Err(e);
                        },
                        Ok(None) => {
                            return Ok(None);
                        },
                        Ok(Some(control)) => {
                            assert(input.skip(1).unread(control) == input);
                            if control < 0x80 {
                                return self.load_next_byte(control);
                            } else if control > 0x80 {
                                return self.read_raw_byte(control - 0x80);
                            }
                            assert(input.skip(1).skip(0) == input.skip(1));
                            assert(literal_run(input.skip(1), 0) == rle_stream(input.skip(1)));
                        },
                    }
                }
            },
        }
    }

    /// Reads the byte that a repeat control byte announces and delivers its
    /// first copy.
    fn load_next_byte(&mut self, control: u8) -> (r: Result<Option<u8>, ReaderError>)
        requires
            control < 0x80,
            old(self).run is Idle,
        ensures
            r == rle_stream(old(self).src@.unread(control)).head(),
            final(self)@ == rle_stream(old(self).src@.unread(control)).tail(),
        no_unwind
    {
        assert(self.src@.unread(control).skip(1) == self.src@);
        match self.src.read_promised() {
            Ok(value) => {
                self.run = Run::Repeat { left: control + (MIN_REPEAT_SIZE - 1), value };
                Ok(Some(value))
            },
            Err(e) => {
                self.run = Run::Failed(e);
                Err(e)
            },
        }
    }

    /// Reads one byte of a literal run of which `left` bytes are outstanding.
    fn read_raw_byte(&mut self, left: u8) -> (r: Result<Option<u8>, ReaderError>)
        requires
            1 <= left <= 0x7f,
            old(self).run is Idle || old(self).run is Literal,
        ensures
            r == literal_run(old(self).src@, left as nat).head(),
            final(self)@ == literal_run(old(self).src@, left as nat).tail(),
        no_unwind
    {
        proof {
            use_type_invariant(&*self);
        }
        let ghost input = self.src@;
        match self.src.read_promised() {
            Ok(byte) => {
                self.run = if left > 1 {
                    Run::Literal { left: left - 1 }
                } else {
                    Run::Idle
                };
                assert(left <= input.len() ==> input.skip(1).skip(left - 1) == input.skip(
                    left as int,
                ));
                Ok(Some(byte))
            },
            Err(e) => {
                self.run = Run::Failed(e);
                Err(e)
            },
        }
    }
}

} // verus!
