use nwn_files::types::{Error, FileType, LanguageId, ResRef, Resource, ResourceType};
use nwn_files::ErfFile;
use nwn_files::erf::{ErfDescription, ErfHeader, ErfKey, ErfResourceListItem};
use nwn_files::types::{SerializeToBytes, StaticByteSize, Version};

fn u32_at(b: &[u8], o: usize) -> u32 {
    u32::from_le_bytes([b[o], b[o + 1], b[o + 2], b[o + 3]])
}

fn resource(name: &str, data: &[u8], kind: ResourceType) -> Resource {
    Resource { name: ResRef::try_from(name).unwrap(), data: data.to_vec(), resource_type: kind }
}

fn sample_archive() -> Vec<u8> {
    ErfFile::new()
        .add_description(LanguageId::English, String::from("An archive"))
        .add_description(LanguageId::French, String::from("Une archive \u{e9}"))
        .add_resource(resource("organ_wav", b"RIFF0000", ResourceType::wav))
        .add_resource(resource("organ_wav_2", b"", ResourceType::nss))
        .add_resource(resource("script", b"void main() {}", ResourceType::Unknown))
        .write(FileType::Hak, 30, 200)
        .unwrap()
}

#[test]
fn parse_erf_parse() {
    ErfFile::parse_from(sample_archive()).unwrap();
}

#[test]
fn parse_erf_parse_to_plain_text() {
    let parsed = ErfFile::parse_from(sample_archive()).unwrap();
    let text = format!("{:#?}", parsed);
    assert!(text.contains("organ_wav"));
}

#[test]
fn erf_round_trip() {
    let parsed = ErfFile::parse_from(sample_archive()).unwrap();
    assert_eq!(2, parsed.descriptions.len());
    assert_eq!(LanguageId::English, parsed.descriptions[0].language_id);
    assert_eq!("An archive", parsed.descriptions[0].text);
    assert_eq!(LanguageId::French, parsed.descriptions[1].language_id);
    assert_eq!("Une archive \u{e9}", parsed.descriptions[1].text);
    assert_eq!(3, parsed.resources.len());
    assert_eq!("organ_wav", parsed.resources[0].name.as_str());
    assert_eq!(ResourceType::wav, parsed.resources[0].resource_type);
    assert_eq!(b"RIFF0000".to_vec(), parsed.resources[0].data);
    assert_eq!("organ_wav_2", parsed.resources[1].name.as_str());
    assert!(parsed.resources[1].data.is_empty());
    assert_eq!(ResourceType::Unknown, parsed.resources[2].resource_type);
    assert_eq!(b"void main() {}".to_vec(), parsed.resources[2].data);
    let h = parsed.header.unwrap();
    assert_eq!(FileType::Hak, h.file_type);
    assert_eq!(30, h.build_year);
    assert_eq!(200, h.build_day);
    assert_eq!(u32::MAX, h.description_str_ref);
}

#[test]
fn write_wav_file_to_erf() {
    let data = vec![1u8, 2, 3, 4, 5];
    let name = ResRef::try_from("organ_wav").unwrap();
    let resource = Resource { name: ResRef::try_from("organ_wav").unwrap(), data: data.clone(), resource_type: ResourceType::wav };
    let resource_2 = Resource { name: ResRef::try_from("organ_wav_2").unwrap(), data, resource_type: ResourceType::wav };
    let bytes = ErfFile::new()
        .add_resource(resource)
        .add_resource(resource_2)
        .write(FileType::Erf, 0, 0)
        .unwrap();
    let parsed = ErfFile::parse_from(bytes).unwrap();
    assert_eq!(name, parsed.resources[0].name);
}

#[test]
fn erf_offsets_follow_each_other() {
    let b = sample_archive();
    let descriptions = (8 + 10) + (8 + "Une archive \u{e9}".len() as u32);
    assert_eq!(160, u32_at(&b, 20));
    assert_eq!(descriptions, u32_at(&b, 12));
    assert_eq!(160 + descriptions, u32_at(&b, 24));
    assert_eq!(u32_at(&b, 24) + 24 * 3, u32_at(&b, 28));
    let locations = u32_at(&b, 28) as usize;
    let payload = locations as u32 + 8 * 3;
    assert_eq!(payload, u32_at(&b, locations));
    assert_eq!(8, u32_at(&b, locations + 4));
    assert_eq!(payload + 8, u32_at(&b, locations + 8));
    assert_eq!(payload + 8, u32_at(&b, locations + 16));
    assert_eq!(b.len() as u32, payload + 8 + 14);
}

#[test]
fn erf_fixed_sizes() {
    let empty = ErfFile::new().write(FileType::Erf, 0, 0).unwrap();
    assert_eq!(160, empty.len());
    assert!(empty[44..160].iter().all(|&x| x == 0));
    let one = ErfFile::new().add_resource(resource("a", b"", ResourceType::txt)).write(FileType::Erf, 0, 0).unwrap();
    assert_eq!(160 + 24 + 8, one.len());
    let key = &one[160..184];
    assert_eq!(&[0u8, 0], &key[22..24]);
    assert_eq!(0, u32_at(key, 16));
}

#[test]
fn erf_language_code_is_doubled() {
    let b = ErfFile::new().add_description(LanguageId::German, String::from("x")).write(FileType::Mod, 0, 0).unwrap();
    assert_eq!(4, u32_at(&b, 160));
    assert_eq!(1, u32_at(&b, 164));
    assert_eq!(b'x', b[168]);
}

#[test]
fn erf_refuses_other_kinds() {
    let e = ErfFile::new().write(FileType::Tlk, 0, 0).unwrap_err();
    assert_eq!(Error::InvalidFileTypeForErf(FileType::Tlk), e);
    assert!(ErfFile::new().write(FileType::Sav, 0, 0).is_ok());
}

#[test]
fn erf_truncated_is_an_error() {
    let b = sample_archive();
    assert_eq!(Error::UnexpectedEof, ErfFile::parse_from(b[..100].to_vec()).unwrap_err());
    assert_eq!(Error::UnexpectedEof, ErfFile::parse_from(b[..b.len() - 1].to_vec()).unwrap_err());
}

#[test]
fn erf_invalid_key_name_still_decodes() {
    let mut b = ErfFile::new().add_resource(resource("a", b"", ResourceType::txt)).write(FileType::Erf, 0, 0).unwrap();
    for x in &mut b[160..176] {
        *x = 0xFF;
    }
    let parsed = ErfFile::parse_from(b).unwrap();
    assert_eq!("\u{FFFD}".repeat(5), parsed.resources[0].name.as_str());
}

#[test]
fn erf_unknown_kind_header_keeps_its_size() {
    let h = ErfHeader {
        version: Version::Unknown,
        file_type: FileType::Unknown,
        language_count: 0,
        localized_string_size: 0,
        entry_count: 0,
        offset_to_localized_string: 160,
        offset_to_key_list: 160,
        offset_to_resource_list: 160,
        build_year: 0,
        build_day: 0,
        description_str_ref: 0,
    };
    let mut out = Vec::new();
    h.serialize_to(&mut out);
    assert_eq!(160, out.len());
    assert_eq!(b"        ", &out[0..8]);
}

#[test]
fn erf_mismatched_tables_are_refused() {
    use_reader_for_mismatch();
}

fn use_reader_for_mismatch() {
    let mut reader = nwn_files::reader::ByteReader::new(vec![0; 8]);
    let keys = vec![ErfKey { file_name: ResRef::try_from("a").unwrap(), resource_id: 0, resource_type: ResourceType::txt }];
    let items: Vec<ErfResourceListItem> = Vec::new();
    let e = nwn_files::erf::parse_resources(&mut reader, keys, &items).unwrap_err();
    assert_eq!(Error::StructuralMismatch, e);
}

#[test]
fn erf_add_resources_moves_them() {
    let mut more = vec![resource("a", b"1", ResourceType::txt), resource("b", b"2", ResourceType::txt)];
    let mut f = ErfFile::new();
    f.add_resources(&mut more);
    assert!(more.is_empty());
    assert_eq!(2, f.resources.len());
}

#[test]
fn erf_records_report_their_sizes() {
    for (count, name) in [(0u32, "a"), (7, "abcdefghijklmnop")] {
        let h = ErfHeader {
            version: Version::V1,
            file_type: FileType::Mod,
            language_count: count,
            localized_string_size: count,
            entry_count: count,
            offset_to_localized_string: 160,
            offset_to_key_list: 160,
            offset_to_resource_list: 160,
            build_year: count,
            build_day: count,
            description_str_ref: u32::MAX,
        };
        let mut out = Vec::new();
        h.serialize_to(&mut out);
        assert_eq!(ErfHeader::byte_size(), out.len());
        assert_eq!(160, out.len());
        let k = ErfKey { file_name: ResRef::try_from(name).unwrap(), resource_id: count, resource_type: ResourceType::wav };
        let mut out = Vec::new();
        k.serialize_to(&mut out);
        assert_eq!(ErfKey::byte_size(), out.len());
        assert_eq!(24, out.len());
        let l = ErfResourceListItem { offset: count, size: count };
        let mut out = Vec::new();
        l.serialize_to(&mut out);
        assert_eq!(ErfResourceListItem::byte_size(), out.len());
        assert_eq!(8, out.len());
    }
    let d = ErfDescription { language_id: LanguageId::English, text: String::from("caf\u{e9}") };
    assert_eq!(13, d.byte_size());
    let mut out = Vec::new();
    d.serialize_to(&mut out);
    assert_eq!(d.byte_size(), out.len());
}

#[test]
fn erf_free_write_matches_method() {
    let mut f = ErfFile::new();
    f.add_resource(resource("x", b"abc", ResourceType::txt));
    assert_eq!(f.write(FileType::Erf, 1, 2).unwrap(), nwn_files::erf::write(&f, FileType::Erf, 1, 2).unwrap());
}
