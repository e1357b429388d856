use nwn_files::types::{ResRef, ResRefError};

#[test]
fn res_ref_from_string() {
    let result = ResRef::try_from("a".repeat(16));
    result.unwrap();
}

#[test]
fn res_ref_from_str() {
    let result = ResRef::try_from("blah");
    result.unwrap();
}

#[test]
fn res_ref_too_long() {
    let result = ResRef::try_from("I_am_over_16_chars_long_and_thus_invalid");
    assert_eq!(ResRefError::InvalidLengthTooLong, result.unwrap_err());
}

#[test]
fn modify_res_ref() {
    let mut resref = ResRef::try_from("123").unwrap();
    let new_contents = String::from("Blah");

    resref.replace(new_contents.clone()).unwrap();

    assert_eq!(ResRef::try_from(new_contents).unwrap(), resref);
}

#[test]
fn res_ref_from_bytes() {
    let bytes = vec![97, 98, 99, 0, 0, 0];
    let resref = ResRef::try_from(&bytes[..]).unwrap();

    let expected = ResRef::try_from("abc").unwrap();

    assert_eq!(expected, resref);
}

#[test]
fn res_ref_to_bytes() {
    let resref = ResRef::try_from("abc").unwrap();
    let serialized = resref.serialize();

    let expected = [97, 98, 99, 0, 0, 0, 0, 0, 0, 0, 0, 0, 0, 0, 0, 0];

    assert_eq!(&expected, serialized.as_slice());
}

#[test]
fn res_ref_sixteen_chars_has_no_padding() {
    let name = "abcdefghijklmnop";
    let serialized = ResRef::try_from(name).unwrap().serialize();
    assert_eq!(name.as_bytes(), serialized.as_slice());
    assert!(!serialized.contains(&0));
}

#[test]
fn res_ref_seventeen_chars_is_refused() {
    let result = ResRef::try_from("abcdefghijklmnopq");
    assert_eq!(ResRefError::InvalidLengthTooLong, result.unwrap_err());
}

#[test]
fn res_ref_fourteen_chars_and_two_nuls_is_trimmed() {
    let mut bytes = b"abcdefghijklmn".to_vec();
    bytes.extend_from_slice(&[0, 0]);
    let resref = ResRef::from_bytes(&bytes).unwrap();
    assert_eq!("abcdefghijklmn", resref.as_str());
    assert_eq!(resref, ResRef::try_from(&bytes[..]).unwrap());
    assert_eq!(14, resref.as_str().len());
}

#[test]
fn res_ref_invalid_bytes_are_replaced() {
    let bytes = vec![0x61, 0xFF, 0x62, 0];
    let resref = ResRef::from_bytes(&bytes).unwrap();
    assert_eq!("a\u{FFFD}b", resref.as_str());
}

#[test]
fn res_ref_replacement_characters_can_overflow() {
    let bytes = vec![0xFF; 16];
    assert_eq!(ResRefError::InvalidLengthTooLong, ResRef::from_bytes(&bytes).unwrap_err());
    assert_eq!(ResRefError::InvalidLengthTooLong, ResRef::try_from(&bytes[..]).unwrap_err());
}

#[test]
fn res_ref_record_field_is_cut_to_fit() {
    let bytes = vec![0xFF; 16];
    let resref = ResRef::read_field(&bytes);
    assert_eq!("\u{FFFD}".repeat(5), resref.as_str());
    let good = b"abc\0\0\0\0\0\0\0\0\0\0\0\0\0";
    assert_eq!("abc", ResRef::read_field(good).as_str());
}

#[test]
fn res_ref_written_and_read_back() {
    for name in ["", "a", "abcdefghijklmnop", "caf\u{e9}"] {
        let r = ResRef::try_from(name).unwrap();
        let bytes = ResRef::try_from(name).unwrap().serialize();
        assert_eq!(r, ResRef::try_from(&bytes[..]).unwrap());
    }
}

#[test]
fn res_ref_try_from_string_refuses_seventeen() {
    assert_eq!(
        ResRefError::InvalidLengthTooLong,
        ResRef::try_from("a".repeat(17)).unwrap_err()
    );
}

#[test]
fn res_ref_multibyte_length_counts_bytes() {
    let name = "\u{e9}".repeat(8);
    assert!(ResRef::try_from(name.as_str()).is_ok());
    let longer = "\u{e9}".repeat(9);
    assert!(ResRef::try_from(longer.as_str()).is_err());
}

#[test]
fn res_ref_replace_refuses_long_name() {
    let mut resref = ResRef::try_from("abc").unwrap();
    let e = resref.replace(String::from("I_am_over_16_chars_long")).unwrap_err();
    assert_eq!(ResRefError::InvalidLengthTooLong, e);
    assert_eq!("abc", resref.as_str());
}
