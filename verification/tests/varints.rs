use orc_rle::source::ByteSource;
use orc_rle::util::{reinterpret_signed, reinterpret_unsigned, ReaderError};
use orc_rle::varint::decode_unsigned;

fn decode(input: &[u8]) -> Result<Option<u64>, ReaderError> {
    let mut src = ByteSource::new(input.to_vec());
    decode_unsigned(&mut src)
}

#[test]
fn single_group() {
    assert_eq!(decode(&[0x00]), Ok(Some(0)));
    assert_eq!(decode(&[0x64]), Ok(Some(100)));
    assert_eq!(decode(&[0x7F]), Ok(Some(127)));
}

#[test]
fn groups_are_least_significant_first() {
    assert_eq!(decode(&[0x80, 0x01]), Ok(Some(128)));
    assert_eq!(decode(&[0xAC, 0x02]), Ok(Some(300)));
    assert_eq!(decode(&[0xFF, 0xFF, 0x03]), Ok(Some(0xFFFF)));
    assert_eq!(decode(&[0x80, 0x80, 0x80, 0x80, 0x10]), Ok(Some(1u64 << 32)));
}

#[test]
fn reading_stops_behind_the_integer() {
    let mut src = ByteSource::new(vec![0xAC, 0x02, 0x05]);
    assert_eq!(decode_unsigned(&mut src), Ok(Some(300)));
    assert_eq!(decode_unsigned(&mut src), Ok(Some(5)));
    assert_eq!(decode_unsigned(&mut src), Ok(None));
    assert_eq!(decode_unsigned(&mut src), Ok(None));
}

#[test]
fn tenth_group_gives_the_top_bit() {
    let mut input = vec![0x80u8; 9];
    input.push(0x01);
    assert_eq!(decode(&input), Ok(Some(1u64 << 63)));
    let mut full = vec![0xFFu8; 9];
    full.push(0x01);
    assert_eq!(decode(&full), Ok(Some(u64::MAX)));
}

#[test]
fn bits_beyond_the_64th_are_dropped() {
    let mut input = vec![0x80u8; 9];
    input.push(0x7E);
    assert_eq!(decode(&input), Ok(Some(0)));
    let mut odd = vec![0x81u8];
    odd.extend_from_slice(&[0x80; 8]);
    odd.push(0x03);
    assert_eq!(decode(&odd), Ok(Some((1u64 << 63) + 1)));
}

#[test]
fn more_than_ten_groups_are_malformed() {
    assert_eq!(decode(&[0x80; 10]), Err(ReaderError::MalformedVarint));
    let mut input = vec![0xFFu8; 10];
    input.push(0x00);
    let mut src = ByteSource::new(input);
    assert_eq!(decode_unsigned(&mut src), Err(ReaderError::MalformedVarint));
    // the eleventh byte was not read
    assert_eq!(src.read(), Ok(Some(0x00)));
}

#[test]
fn integer_cut_short() {
    assert_eq!(decode(&[0x80]), Err(ReaderError::Truncated));
    assert_eq!(decode(&[0xFF; 9]), Err(ReaderError::Truncated));
    let mut broken = ByteSource::interrupted(vec![0x80, 0x80]);
    assert_eq!(decode_unsigned(&mut broken), Err(ReaderError::IO));
}

#[test]
fn end_before_the_first_byte() {
    assert_eq!(decode(&[]), Ok(None));
    let mut broken = ByteSource::interrupted(vec![]);
    assert_eq!(decode_unsigned(&mut broken), Err(ReaderError::IO));
}

#[test]
fn same_bits_signed_and_unsigned() {
    assert_eq!(reinterpret_signed(0), 0);
    assert_eq!(reinterpret_signed(u64::MAX), -1);
    assert_eq!(reinterpret_signed(1u64 << 63), i64::MIN);
    assert_eq!(reinterpret_signed((1u64 << 63) - 1), i64::MAX);
    assert_eq!(reinterpret_unsigned(-1), u64::MAX);
    assert_eq!(reinterpret_unsigned(i64::MIN), 1u64 << 63);
    assert_eq!(reinterpret_unsigned(42), 42);
}
