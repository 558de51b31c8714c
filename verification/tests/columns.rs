use orc_rle::boolreader::BoolReader;
use orc_rle::bytereader::ByteReader;
use orc_rle::columnreader::{read_all, ColumnReader};
use orc_rle::integerreader::IntegerReader;
use orc_rle::integerreaderv2::IntegerReaderV2;
use orc_rle::source::ByteSource;
use orc_rle::util::ReaderError;

/// Asks `reader` for `count` values and then three more times for the end.
fn ends_for_good<T: PartialEq + std::fmt::Debug, R: ColumnReader<T>>(mut reader: R, count: usize) {
    for _ in 0..count {
        assert!(matches!(reader.next(), Ok(Some(_))));
    }
    for _ in 0..3 {
        assert_eq!(reader.next(), Ok(None));
    }
}

/// Asks `reader` for `count` values and then three more times for the error.
fn fails_for_good<T: PartialEq + std::fmt::Debug, R: ColumnReader<T>>(
    mut reader: R,
    count: usize,
    error: ReaderError,
) {
    for _ in 0..count {
        assert!(matches!(reader.next(), Ok(Some(_))));
    }
    for _ in 0..3 {
        assert_eq!(reader.next(), Err(error));
    }
}

#[test]
fn clean_end_repeats_in_every_decoder() {
    ends_for_good(ByteReader::new(ByteSource::new(vec![0x00, 0x07])), 3);
    ends_for_good(BoolReader::new(ByteSource::new(vec![0x00, 0x07])), 24);
    ends_for_good(IntegerReader::new(ByteSource::new(vec![0x00, 0x01, 0x07])), 3);
    ends_for_good(IntegerReader::new_unsigned(ByteSource::new(vec![0x82, 0x01, 0x07])), 2);
    ends_for_good(IntegerReaderV2::new(ByteSource::new(vec![0x5E, 0x01, 0, 1, 0, 2])), 2);
    ends_for_good(IntegerReaderV2::new_signed(ByteSource::new(vec![0x5E, 0x00, 0, 1])), 1);
}

#[test]
fn clean_end_of_empty_input_in_every_decoder() {
    ends_for_good(ByteReader::new(ByteSource::new(vec![])), 0);
    ends_for_good(BoolReader::new(ByteSource::new(vec![])), 0);
    ends_for_good(IntegerReader::new(ByteSource::new(vec![])), 0);
    ends_for_good(IntegerReader::new_unsigned(ByteSource::new(vec![])), 0);
    ends_for_good(IntegerReaderV2::new(ByteSource::new(vec![])), 0);
    ends_for_good(IntegerReaderV2::new_signed(ByteSource::new(vec![])), 0);
}

#[test]
fn errors_repeat_in_every_decoder() {
    let cut = ReaderError::Truncated;
    fails_for_good(ByteReader::new(ByteSource::new(vec![0x82, 0x07])), 1, cut);
    fails_for_good(BoolReader::new(ByteSource::new(vec![0x82, 0x07])), 8, cut);
    fails_for_good(IntegerReader::new(ByteSource::new(vec![0x82, 0x07])), 1, cut);
    fails_for_good(IntegerReader::new_unsigned(ByteSource::new(vec![0x82, 0x07])), 1, cut);
    fails_for_good(IntegerReaderV2::new(ByteSource::new(vec![0x5E, 0x00, 0])), 0, cut);
    fails_for_good(IntegerReaderV2::new_signed(ByteSource::new(vec![0x5E])), 0, cut);
    fails_for_good(
        IntegerReaderV2::new_signed(ByteSource::new(vec![0xFF])),
        0,
        ReaderError::UnsupportedEncoding,
    );
    fails_for_good(ByteReader::new(ByteSource::interrupted(vec![0x81, 0x07])), 1, ReaderError::IO);
}

#[test]
fn read_all_gives_values_and_ending() {
    let mut bytes = ByteReader::new(ByteSource::new(vec![0x00, 0x07]));
    assert_eq!(read_all(&mut bytes), (vec![7u8, 7, 7], None));
    assert_eq!(read_all(&mut bytes), (vec![], None));

    let mut ints = IntegerReader::new_unsigned(ByteSource::new(vec![0x00, 0xFF, 0x01]));
    assert_eq!(read_all(&mut ints), (vec![1u64, 0, u64::MAX], None));

    let input = vec![0x5E, 0x00, 0xFF, 0xFE, 0x00];
    let mut signed = IntegerReaderV2::new_signed(ByteSource::new(input));
    assert_eq!(read_all(&mut signed), (vec![0xFFFEi64], Some(ReaderError::UnsupportedEncoding)));
}
