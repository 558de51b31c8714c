use orc_rle::bitpack::{bits_to_min_bytes, read_bits, unpack};
use orc_rle::columnreader::read_all;
use orc_rle::integerreaderv2::{decode_bit_width, IntegerReaderV2};
use orc_rle::source::ByteSource;
use orc_rle::util::ReaderError;

fn decode(input: &[u8]) -> (Vec<u64>, Option<ReaderError>) {
    let mut reader = IntegerReaderV2::new(ByteSource::new(input.to_vec()));
    read_all(&mut reader)
}

#[test]
fn test_direct() {
    let input =
        vec![0x5eu8, 0x03u8, 0x5cu8, 0xa1u8, 0xabu8, 0x1eu8, 0xdeu8, 0xadu8, 0xbeu8, 0xefu8];
    let mut reader = IntegerReaderV2::new(ByteSource::new(input));
    for expected in [23713u64, 43806u64, 57005u64, 48879u64] {
        assert_eq!(reader.next_uint(), Ok(Some(expected)));
    }
    assert_eq!(reader.next_uint(), Ok(None));
    assert_eq!(reader.next_uint(), Ok(None));
}

#[test]
fn bit_width_table() {
    let expected: [u8; 32] = [
        1, 2, 3, 4, 5, 6, 7, 15, 9, 10, 11, 12, 13, 14, 15, 16, 17, 18, 19, 20, 21, 22, 23, 24,
        26, 28, 30, 32, 40, 48, 56, 64,
    ];
    for code in 0..32u8 {
        assert_eq!(decode_bit_width(code), expected[code as usize]);
    }
}

#[test]
fn whole_bytes_for_bits() {
    assert_eq!(bits_to_min_bytes(0), 0);
    assert_eq!(bits_to_min_bytes(1), 1);
    assert_eq!(bits_to_min_bytes(8), 1);
    assert_eq!(bits_to_min_bytes(9), 2);
    assert_eq!(bits_to_min_bytes(64), 8);
    assert_eq!(bits_to_min_bytes(64 * 512), 4096);
}

#[test]
fn one_bit_values() {
    // width code 0, eight values
    assert_eq!(decode(&[0x40, 0x07, 0xA5]), (vec![1u64, 0, 1, 0, 0, 1, 0, 1], None));
}

#[test]
fn values_cross_byte_boundaries() {
    // width code 2 is three bits; three values take nine bits
    assert_eq!(decode(&[0x44, 0x02, 0b1010_1111, 0b1000_0000]), (vec![5u64, 3, 7], None));
    // width code 4 is five bits; four values take twenty bits
    assert_eq!(
        decode(&[0x48, 0x03, 0b1111_1000, 0b0010_1010, 0b0001_0000]),
        (vec![31u64, 0, 21, 1], None)
    );
}

#[test]
fn last_byte_is_padded() {
    // one value of three bits: the five low bits of the byte belong to no value
    assert_eq!(decode(&[0x44, 0x00, 0b0111_1111]), (vec![3u64], None));
}

#[test]
fn widest_values() {
    let mut input = vec![0x7Eu8, 0x01];
    input.extend_from_slice(&[0xFF; 8]);
    input.extend_from_slice(&[0x01, 0x23, 0x45, 0x67, 0x89, 0xAB, 0xCD, 0xEF]);
    assert_eq!(decode(&input), (vec![u64::MAX, 0x0123_4567_89AB_CDEF], None));
    let mut signed = IntegerReaderV2::new_signed(ByteSource::new(input));
    assert_eq!(read_all(&mut signed), (vec![-1i64, 0x0123_4567_89AB_CDEF], None));
}

#[test]
fn irregular_width_fifteen() {
    // width code 7 is fifteen bits
    assert_eq!(
        decode(&[0x4E, 0x01, 0b1000_0000, 0b0000_0010, 0b0000_0000, 0b0000_1100]),
        (vec![0x4001u64, 0x0003], None)
    );
}

#[test]
fn ninth_bit_of_the_length() {
    // 257 values of one bit: 33 bytes
    let mut input = vec![0x41u8, 0x00];
    input.extend_from_slice(&[0xFF; 33]);
    assert_eq!(decode(&input), (vec![1u64; 257], None));
    // the longest run: 512 values
    let mut longest = vec![0x41u8, 0xFF];
    longest.extend_from_slice(&[0x00; 64]);
    assert_eq!(decode(&longest), (vec![0u64; 512], None));
}

#[test]
fn runs_follow_one_another_v2() {
    assert_eq!(
        decode(&[0x4E, 0x00, 0x12, 0x34, 0x40, 0x01, 0x80]),
        (vec![0x091Au64, 1, 0], None)
    );
}

#[test]
fn other_sub_encodings_are_unsupported() {
    assert_eq!(decode(&[0x0A, 0x27, 0x10]), (vec![], Some(ReaderError::UnsupportedEncoding)));
    assert_eq!(decode(&[0x8E, 0x09, 0x2B]), (vec![], Some(ReaderError::UnsupportedEncoding)));
    assert_eq!(decode(&[0xC6, 0x09, 0x02]), (vec![], Some(ReaderError::UnsupportedEncoding)));
    let mut reader = IntegerReaderV2::new(ByteSource::new(vec![0x40, 0x00, 0x80, 0x00]));
    assert_eq!(reader.next_uint(), Ok(Some(1)));
    assert_eq!(reader.next_uint(), Err(ReaderError::UnsupportedEncoding));
    assert_eq!(reader.next_uint(), Err(ReaderError::UnsupportedEncoding));
}

#[test]
fn direct_run_cut_short() {
    assert_eq!(decode(&[0x5E]), (vec![], Some(ReaderError::Truncated)));
    assert_eq!(decode(&[0x5E, 0x03]), (vec![], Some(ReaderError::Truncated)));
    assert_eq!(
        decode(&[0x5E, 0x03, 0x5C, 0xA1, 0xAB, 0x1E, 0xDE, 0xAD, 0xBE]),
        (vec![], Some(ReaderError::Truncated))
    );
    let input = vec![0x5E, 0x00, 0x00, 0x07, 0x5E, 0x00, 0x01];
    let mut reader = IntegerReaderV2::new(ByteSource::new(input));
    assert_eq!(reader.next_uint(), Ok(Some(7)));
    assert_eq!(reader.next_uint(), Err(ReaderError::Truncated));
    assert_eq!(reader.next_uint(), Err(ReaderError::Truncated));
}

#[test]
fn failing_source_under_direct_runs() {
    let mut reader = IntegerReaderV2::new(ByteSource::interrupted(vec![0x40, 0x00, 0x80]));
    assert_eq!(reader.next_uint(), Ok(Some(1)));
    assert_eq!(reader.next_uint(), Err(ReaderError::IO));
    let mut cut = IntegerReaderV2::new(ByteSource::interrupted(vec![0x5E, 0x03, 0x5C]));
    assert_eq!(cut.next_uint(), Err(ReaderError::IO));
    assert_eq!(cut.next_uint(), Err(ReaderError::IO));
}

#[test]
fn empty_input_has_no_integers() {
    assert_eq!(decode(&[]), (vec![], None));
    let mut signed = IntegerReaderV2::new_signed(ByteSource::new(vec![]));
    assert_eq!(signed.next_int(), Ok(None));
    assert_eq!(signed.next_int(), Ok(None));
}

#[test]
fn bits_spell_big_endian_numbers() {
    let packed = vec![0b1010_0101u8, 0b1100_0011u8];
    assert_eq!(read_bits(&packed, 0, 0), 0);
    assert_eq!(read_bits(&packed, 0, 1), 1);
    assert_eq!(read_bits(&packed, 1, 1), 0);
    assert_eq!(read_bits(&packed, 0, 8), 0xA5);
    assert_eq!(read_bits(&packed, 4, 8), 0x5C);
    assert_eq!(read_bits(&packed, 6, 5), 0b0_1110);
    assert_eq!(read_bits(&packed, 0, 16), 0xA5C3);
    assert_eq!(read_bits(&packed, 15, 1), 1);
}

#[test]
fn unpack_fixed_width_values() {
    let packed = vec![0x5cu8, 0xa1, 0xab, 0x1e, 0xde, 0xad, 0xbe, 0xef];
    assert_eq!(unpack(&packed, 16, 4), vec![23713u64, 43806, 57005, 48879]);
    assert_eq!(unpack(&packed, 32, 2), vec![0x5ca1_ab1eu64, 0xdead_beef]);
    assert_eq!(unpack(&packed, 64, 1), vec![0x5ca1_ab1e_dead_beefu64]);
    assert_eq!(unpack(&packed, 4, 3), vec![5u64, 12, 10]);
    assert_eq!(unpack(&packed, 7, 0), Vec::<u64>::new());
    assert_eq!(unpack(&packed, 0, 3), vec![0u64, 0, 0]);
}
