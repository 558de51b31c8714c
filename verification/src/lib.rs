//! Decoders for the column encodings of an ORC-style columnar file: byte
//! run-length encoding, bit-packed booleans, and two generations of integer
//! run-length encoding.
//!
//! Every decoder owns a [`source::ByteSource`] and hands out one value per
//! call. Its abstract value is the [`util::Stream`] that it has still to
//! deliver: the values, in order, and the way the stream ends. A call returns
//! the head of that stream and leaves the decoder with its tail.

pub mod bitpack;
pub mod boolreader;
pub mod bytereader;
pub mod columnreader;
pub mod integerreader;
pub mod integerreaderv2;
pub mod source;
pub mod util;
pub mod varint;
