use nwn_files::types::{Error, FileType, LanguageId, ResourceType, Version};

#[test]
fn str_from_file_type() {
    let ft = FileType::Erf;

    assert_eq!("ERF ", ft.as_str_ref());
}

#[test]
fn file_type_from_str() {
    assert_eq!(FileType::Erf, FileType::from("ERF "));
    assert_eq!(FileType::Ssf, FileType::from("SSF "));
}

#[test]
fn file_type_unknown_tag() {
    assert_eq!(FileType::Unknown, FileType::from("XYZ "));
    assert_eq!("", FileType::Unknown.as_str_ref());
}

#[test]
fn version_as_str_ref() {
    let v = Version::V1;

    assert_eq!("V1.0", v.as_str_ref());
}

#[test]
fn version_from_str() {
    assert_eq!(Version::V1, Version::from("V1.0"));
    assert_eq!(Version::V3, Version::from("V3  "));
}

#[test]
fn version_from_bytes() {
    let s = "V1.0";
    let bytes = s.as_bytes();
    let v = Version::try_from(bytes).unwrap();
    assert_eq!(Version::V1, v);
}

#[test]
fn version_from_invalid_utf8() {
    let bytes: &[u8] = &[0x56, 0xFF, 0x2E, 0x30];
    assert_eq!(Error::InvalidUtf8, Version::try_from(bytes).unwrap_err());
}

#[test]
fn resource_type_codes() {
    assert_eq!(ResourceType::wav, ResourceType::from(4u16));
    assert_eq!(ResourceType::ssf, ResourceType::from(2060u32));
    assert_eq!(ResourceType::Unknown, ResourceType::from(3u16));
    assert_eq!(2017, ResourceType::x2da.code());
    assert_eq!(0, ResourceType::Unknown.code());
}

#[test]
fn language_codes() {
    assert_eq!(LanguageId::Japanese, LanguageId::from(131u32));
    assert_eq!(LanguageId::Unknown, LanguageId::from(121u32));
    assert_eq!(128, LanguageId::Korean.code());
}
