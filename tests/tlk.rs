use nwn_files::tlk::{string_data_list, TlkFlags};
use nwn_files::types::{Error, LanguageId, ResRef, TlkEntry, TlkSound};
use nwn_files::{TlkBuilder, TlkFile};
use nwn_files::tlk::{TlkData, TlkHeader};
use nwn_files::types::{FileType, SerializeToBytes, StaticByteSize, Version};

fn entry(text: &str, sound: Option<(&str, Option<u32>)>) -> TlkEntry {
    TlkEntry {
        string: String::from(text),
        sound: sound.map(|(n, l)| TlkSound { res_ref: ResRef::try_from(n).unwrap(), sound_length: l }),
    }
}

fn sample_table() -> Vec<u8> {
    let mut builder = TlkFile::new();
    builder
        .add_entry(entry("Hello", None))
        .add_entry(entry("", Some(("vs_hello", Some(2.5f32.to_bits())))))
        .add_entry(entry("Bye", Some(("vs_bye", None))));
    builder.write().unwrap()
}

#[test]
fn parse_tlk_parse() {
    TlkFile::parse_from(sample_table(), false).unwrap();
}

#[test]
fn parse_tlk_parse_to_plain_text() {
    let parsed = TlkFile::parse_from(sample_table(), false).unwrap();
    let text = format!("{:#?}", parsed);
    assert!(text.contains("Hello"));
    assert!(text.contains("vs_bye"));
}

#[test]
fn tlk_round_trip() {
    let parsed = TlkFile::parse_from(sample_table(), true).unwrap();
    assert_eq!(3, parsed.entries.len());
    assert_eq!(3, parsed.entry_count);
    assert!(parsed.alternative);
    assert_eq!("Hello", parsed.entries[0].string);
    assert!(parsed.entries[0].sound.is_none());
    assert_eq!("", parsed.entries[1].string);
    let s1 = parsed.entries[1].sound.as_ref().unwrap();
    assert_eq!("vs_hello", s1.res_ref.as_str());
    assert_eq!(Some(2.5f32), s1.sound_length.map(f32::from_bits));
    let s2 = parsed.entries[2].sound.as_ref().unwrap();
    assert_eq!("vs_bye", s2.res_ref.as_str());
    assert_eq!(None, s2.sound_length);
    let header = parsed.header.unwrap();
    assert_eq!(3, header.string_count);
    assert_eq!(20 + 40 * 3, header.string_offset);
    assert_eq!(LanguageId::English, header.language_id);
}

#[test]
fn tlk_offset_accumulation() {
    let entries = vec![entry("abcde", None), entry("", None), entry("xyz", None)];
    let data = string_data_list(&entries).unwrap();
    let offsets: Vec<u32> = data.iter().map(|d| d.offset_to_string).collect();
    let sizes: Vec<u32> = data.iter().map(|d| d.string_size).collect();
    assert_eq!(vec![0, 5, 5], offsets);
    assert_eq!(vec![5, 0, 3], sizes);
}

#[test]
fn tlk_flag_derivation() {
    let e = entry("text", Some(("snd", None)));
    assert_eq!(0b011, TlkFlags::u8_from_tlk_entry(&e));
    assert_eq!(0b111, TlkFlags::u8_from_tlk_entry(&entry("t", Some(("snd", Some(1))))));
    assert_eq!(0b000, TlkFlags::u8_from_tlk_entry(&entry("", None)));
    assert_eq!(0b010, TlkFlags::u8_from_tlk_entry(&entry("", Some(("snd", None)))));
}

#[test]
fn tlk_duration_absent_without_flag() {
    let mut builder = TlkFile::new();
    builder.add_entry(entry("text", Some(("snd", None))));
    let mut bytes = builder.write().unwrap();
    assert_eq!(3, bytes[20]);
    bytes[20 + 36..20 + 40].copy_from_slice(&7.0f32.to_le_bytes());
    let parsed = TlkFile::parse_from(bytes, false).unwrap();
    let sound = parsed.entries[0].sound.as_ref().unwrap();
    assert_eq!(None, sound.sound_length);
}

#[test]
fn tlk_sound_absent_without_flag() {
    let mut builder = TlkFile::new();
    builder.add_entry(entry("text", Some(("snd", Some(5)))));
    let mut bytes = builder.write().unwrap();
    bytes[20] = 1;
    let parsed = TlkFile::parse_from(bytes, false).unwrap();
    assert!(parsed.entries[0].sound.is_none());
}

#[test]
fn tlk_layout() {
    let bytes = sample_table();
    assert_eq!(b"TLK V3.0", &bytes[0..8]);
    assert_eq!(20 + 40 * 3 + 5 + 0 + 3, bytes.len());
    assert_eq!(b"HelloBye", &bytes[140..148]);
    let header = TlkFile::new().write_header();
    assert_eq!(20, header.len());
}

#[test]
fn tlk_truncated_is_an_error() {
    let bytes = sample_table();
    let short = bytes[..bytes.len() - 1].to_vec();
    assert_eq!(Error::UnexpectedEof, TlkFile::parse_from(short, false).unwrap_err());
    assert_eq!(Error::UnexpectedEof, TlkFile::parse_from(vec![0; 10], false).unwrap_err());
}

#[test]
fn tlk_next_id() {
    let mut alt = TlkFile::new();
    assert_eq!(0x0100_0000, alt.next_id());
    alt.add_entry(entry("a", None));
    assert_eq!(0x0100_0001, alt.next_id());
    let mut plain = TlkFile::new();
    plain.alternative = false;
    plain.add_entries(vec![entry("a", None), entry("b", None)]);
    assert_eq!(2, plain.next_id());
}

#[test]
fn tlk_builder_writes_same_bytes() {
    let mut b = TlkBuilder::new();
    b.add_entry(entry("Hello", None))
        .add_entry(entry("", Some(("vs_hello", Some(2.5f32.to_bits())))))
        .add_entry(entry("Bye", Some(("vs_bye", None))));
    assert_eq!(3, b.next_id());
    assert_eq!(sample_table(), b.write().unwrap());
    let from = TlkBuilder::from_file(TlkFile::parse_from(sample_table(), false).unwrap());
    assert_eq!(sample_table(), from.write().unwrap());
}

#[test]
fn tlk_records_report_their_sizes() {
    for (n, name) in [(0u32, ""), (9, "abcdefghijklmnop")] {
        let d = TlkData {
            flags: 3,
            sound_res_ref: ResRef::try_from(name).unwrap(),
            offset_to_string: n,
            string_size: n,
            sound_length: n,
        };
        let mut out = Vec::new();
        d.serialize_to(&mut out);
        assert_eq!(TlkData::byte_size(), out.len());
        assert_eq!(40, out.len());
        let h = TlkHeader { file_type: FileType::Tlk, version: Version::V3, language_id: LanguageId::Polish, string_count: n, string_offset: n };
        let mut out = Vec::new();
        h.serialize_to(&mut out);
        assert_eq!(TlkHeader::byte_size(), out.len());
        assert_eq!(20, out.len());
    }
}

#[test]
fn tlk_invalid_sound_name_still_decodes() {
    let mut builder = TlkFile::new();
    builder.add_entry(entry("text", None));
    let mut bytes = builder.write().unwrap();
    for x in &mut bytes[24..40] {
        *x = 0xFF;
    }
    let parsed = TlkFile::parse_from(bytes, false).unwrap();
    assert!(parsed.entries[0].sound.is_none());
    assert_eq!("text", parsed.entries[0].string);
}
