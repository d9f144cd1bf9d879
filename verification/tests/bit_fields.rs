use h263::bits::{read_field, read_flag, skip_field};
use h263::error::Error;
use oxideav_core::bits::BitReader;

#[test]
fn fields_come_most_significant_bit_first() {
    let data = [0b1010_0101u8, 0b1100_0011];
    let mut r = BitReader::new(&data);
    assert_eq!(read_field(&mut r, 3), Ok(0b101));
    assert_eq!(read_flag(&mut r), Ok(false));
    assert_eq!(skip_field(&mut r, 2), Ok(()));
    assert_eq!(read_field(&mut r, 10), Ok(0b01_1100_0011));
    assert_eq!(read_flag(&mut r), Err(Error::UnexpectedEof));
}

#[test]
fn a_field_that_is_not_there_leaves_the_reader_in_place() {
    let data = [0xf0u8];
    let mut r = BitReader::new(&data);
    assert_eq!(read_field(&mut r, 4), Ok(15));
    assert_eq!(read_field(&mut r, 5), Err(Error::UnexpectedEof));
    assert_eq!(skip_field(&mut r, 5), Err(Error::UnexpectedEof));
    assert_eq!(read_field(&mut r, 4), Ok(0));
}
