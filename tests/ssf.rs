use nwn_files::ssf::SsfEntry;
use nwn_files::types::ResRef;
use nwn_files::{SsfBuilder, SsfFile};

#[test]
fn ssf_round_trip() {
    let mut builder = SsfBuilder::new();
    for i in 0..30u32 {
        let name = if i == 0 { "organ_finale" } else { "" };
        builder.add_entry(SsfEntry {
            res_ref: ResRef::try_from(name).unwrap(),
            string_ref: if i % 2 == 0 { None } else { Some(i) },
        });
    }
    let bytes = builder.write().unwrap();
    assert_eq!(40 + 4 * 30 + 20 * 30, bytes.len());
    assert_eq!(b"V1.0SSF ", &bytes[0..8]);
    let parsed = SsfFile::parse_from(bytes).unwrap();
    assert_eq!(30, parsed.entries.len());
    assert_eq!("organ_finale", parsed.entries[0].res_ref.as_str());
    assert_eq!(None, parsed.entries[0].string_ref);
    assert_eq!(Some(1), parsed.entries[1].string_ref);
}

#[test]
fn ssf_default_entries() {
    let mut entries: Vec<SsfEntry> = Vec::with_capacity(30);
    entries.resize_with(30, Default::default);
    let mut builder = SsfBuilder::new();
    for e in entries {
        builder.add_entry(e);
    }
    let parsed = SsfFile::parse_from(builder.write().unwrap()).unwrap();
    assert_eq!(30, parsed.entries.len());
    assert_eq!("", parsed.entries[29].res_ref.as_str());
    assert_eq!(None, parsed.entries[29].string_ref);
    assert_eq!("", ResRef::default().as_str());
}
