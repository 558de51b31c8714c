//! The input of a decoder: bytes that were received, and whether the transport
//! that brought them broke off or closed in good order.
use vstd::prelude::*;
use crate::util::ReaderError;

verus! {

/// What a source still holds.
#[verifier::ext_equal]
pub ghost struct Input {
    /// The bytes not yet read, in order.
    pub bytes: Seq<u8>,
    /// Whether reading past the last byte reports a failure instead of the end.
    pub failing: bool,
}

impl Input {
    /// How many bytes are not yet read.
    pub open spec fn len(self) -> nat {
        self.bytes.len()
    }

    /// This input without its first `n` bytes.
    pub open spec fn skip(self, n: int) -> Input {
        Input { bytes: self.bytes.skip(n), failing: self.failing }
    }

    /// This input with the byte `b` put back in front of it.
    pub open spec fn unread(self, b: u8) -> Input {
        Input { bytes: seq![b] + self.bytes, failing: self.failing }
    }

    /// How a stream ends that has used this input up between two items.
    pub open spec fn close(self) -> Option<ReaderError> {
        if self.failing {
            Some(ReaderError::IO)
        } else {
            None
        }
    }

    /// The error of running off the end of this input inside an item.
    pub open spec fn cut_short(self) -> ReaderError {
        if self.failing {
            ReaderError::IO
        } else {
            ReaderError::Truncated
        }
    }
}

/// A sequential, read-once source of bytes held in memory.
pub struct ByteSource {
    bytes: Vec<u8>,
    pos: usize,
    failing: bool,
}

impl View for ByteSource {
    type V = Input;

    closed spec fn view(&self) -> Input {
        Input {
            bytes: if self.pos <= self.bytes.len() {
                self.bytes@.skip(self.pos as int)
            } else {
                Seq::empty()
            },
            failing: self.failing,
        }
    }
}

impl ByteSource {
    /// A source that yields `bytes` and then ends cleanly.
    pub fn new(bytes: Vec<u8>) -> (src: ByteSource)
        ensures
            src@ == (Input { bytes: bytes@, failing: false }),
    {
        ByteSource { bytes, pos: 0, failing: false }
    }

    /// A source that yields `bytes` and then reports that the transport failed.
    pub fn interrupted(bytes: Vec<u8>) -> (src: ByteSource)
        ensures
            src@ == (Input { bytes: bytes@, failing: true }),
    {
        ByteSource { bytes, pos: 0, failing: true }
    }

    /// Reads one byte: the next byte, or `None` at a clean end, or the failure.
    /// Only a byte that is returned is consumed.
    pub fn read(&mut self) -> (r: Result<Option<u8>, ReaderError>)
        ensures
            old(self)@.len() > 0 ==> r == Ok::<Option<u8>, ReaderError>(Some(old(self)@.bytes[0]))
                && final(self)@ == old(self)@.skip(1),
            old(self)@.len() == 0 ==> final(self)@ == old(self)@ && r == match old(self)@.close() {
                None => Ok::<Option<u8>, ReaderError>(None),
                Some(e) => Err(e),
            },
        no_unwind
    {
        if self.pos < self.bytes.len() {
            let b = self.bytes[self.pos];
            self.pos = self.pos + 1;
            Ok(Some(b))
        } else if self.failing {
            Err(ReaderError::IO)
        } else {
            Ok(None)
        }
    }

    /// Reads a byte that an earlier byte has announced: its absence is an error.
    pub fn read_promised(&mut self) -> (r: Result<u8, ReaderError>)
        ensures
            old(self)@.len() > 0 ==> r == Ok::<u8, ReaderError>(old(self)@.bytes[0]) && final(self)@
                == old(self)@.skip(1),
            old(self)@.len() == 0 ==> r == Err::<u8, ReaderError>(old(self)@.cut_short())
                && final(self)@ == old(self)@,
        no_unwind
    {
        match self.read() {
            Ok(Some(b)) => Ok(b),
            Ok(None) => Err(ReaderError::Truncated),
            Err(e) => Err(e),
        }
    }
}

} // verus!
