use nwn_files::reader::ByteReader;
use nwn_files::types::Error;

#[test]
fn valid_read_bytes_to_string() {
    let data = "12345";
    let mut c = ByteReader::new(data.as_bytes().to_vec());

    let val = String::from_utf8(c.read_bytes(3).unwrap()).unwrap();

    assert_eq!("123", &val);
}

#[test]
fn invalid_read_bytes_to_string() {
    let data = "123";
    let mut c = ByteReader::new(data.as_bytes().to_vec());

    let err = c.read_bytes(5).unwrap_err();

    assert_eq!(Error::UnexpectedEof, err);
}

#[test]
fn valid_read_u16() {
    let num: u16 = 10;
    let mut c = ByteReader::new(num.to_le_bytes().to_vec());

    let val = c.read_u16().unwrap();

    assert_eq!(num, val);
}

#[test]
fn valid_read_f32() {
    let num: f32 = 10.2424;
    let mut c = ByteReader::new(num.to_le_bytes().to_vec());

    let val = f32::from_bits(c.read_u32().unwrap());

    assert_eq!(num, val);
}

#[test]
fn valid_read_u32() {
    let num: u32 = 10;
    let mut c = ByteReader::new(num.to_le_bytes().to_vec());

    let val = c.read_u32().unwrap();

    assert_eq!(num, val);
}

#[test]
fn invalid_read_u32() {
    let num: u8 = 1;
    let mut c = ByteReader::new(num.to_le_bytes().to_vec());

    let err = c.read_u32().unwrap_err();

    assert_eq!(Error::UnexpectedEof, err);
}

#[test]
fn valid_seek_from_current() {
    let data = "1234567890";
    let mut c = ByteReader::new(data.as_bytes().to_vec());

    c.seek_from_current(3).unwrap();
    let s = String::from_utf8(c.read_bytes(7).unwrap()).unwrap();

    assert_eq!("4567890", &s);
}

#[test]
fn invalid_seek_from_current() {
    let data = "1234567890";
    let mut c = ByteReader::new(data.as_bytes().to_vec());

    let err = c.seek_from_current(-1).unwrap_err();

    assert_eq!(Error::InvalidSeek, err);
}

#[test]
fn failed_read_keeps_position() {
    let mut c = ByteReader::new(vec![1, 2, 3]);
    c.seek_from_start(1);
    assert!(c.read_u32().is_err());
    assert_eq!(1, c.position());
    assert_eq!(0x0302, c.read_u16().unwrap());
}

#[test]
fn little_endian_helpers() {
    assert_eq!(0x0403_0201, nwn_files::bytes::u32_from_bytes(&[1, 2, 3, 4]));
    assert_eq!(0x0201, nwn_files::bytes::u16_from_bytes(&[1, 2]));
}
