use nwn_files::key::{archive_index, slot_index};
use nwn_files::types::{Error, ResourceType};
use nwn_files::{parse_bif, parse_key};

fn push_u32(out: &mut Vec<u8>, v: u32) {
    out.extend_from_slice(&v.to_le_bytes());
}

fn push_u16(out: &mut Vec<u8>, v: u16) {
    out.extend_from_slice(&v.to_le_bytes());
}

fn name16(s: &str) -> Vec<u8> {
    let mut v = s.as_bytes().to_vec();
    v.resize(16, 0);
    v
}

fn sample_key() -> Vec<u8> {
    let names = ["data\\first.bif", "second.bif"];
    let key_table = 64 + 12 * 2 + 24;
    let mut b = Vec::new();
    b.extend_from_slice(b"KEY V1  ");
    push_u32(&mut b, 2);
    push_u32(&mut b, 3);
    push_u32(&mut b, 64);
    push_u32(&mut b, key_table);
    push_u32(&mut b, 30);
    push_u32(&mut b, 12);
    b.resize(64, 0);
    let mut name_offset = 64 + 12 * 2;
    for n in names.iter() {
        push_u32(&mut b, 1000);
        push_u32(&mut b, name_offset);
        push_u16(&mut b, n.len() as u16);
        push_u16(&mut b, 1);
        name_offset += n.len() as u32;
    }
    for n in names.iter() {
        b.extend_from_slice(n.as_bytes());
    }
    assert_eq!(key_table as usize, b.len());
    let keys = [("soundset", 2017u16, 0x0000_0002u32), ("vs_fx0psycm", 2060, 0x0010_0005), ("readme", 10, 0x0000_0000)];
    for (n, t, id) in keys.iter() {
        b.extend_from_slice(&name16(n));
        push_u16(&mut b, *t);
        push_u32(&mut b, *id);
    }
    b
}

#[test]
fn parse_key_parse() {
    parse_key(sample_key()).unwrap();
}

#[test]
fn parse_key_parse_to_plain_text() {
    let parsed = parse_key(sample_key()).unwrap();
    let text = format!("{:#?}", parsed);
    assert!(text.contains("soundset"));
}

#[test]
fn key_groups_resources_by_archive() {
    let parsed = parse_key(sample_key()).unwrap();
    assert_eq!(2, parsed.0.len());
    assert_eq!("data\\first.bif", parsed.0[0].name);
    assert_eq!("second.bif", parsed.0[1].name);
    let first = &parsed.0[0].resources;
    assert_eq!(2, first.len());
    assert_eq!("soundset", first[0].name);
    assert_eq!(2, first[0].resource_index);
    assert_eq!(ResourceType::x2da, first[0].resource_type);
    assert_eq!("readme", first[1].name);
    let second = &parsed.0[1].resources;
    assert_eq!(1, second.len());
    assert_eq!("vs_fx0psycm", second[0].name);
    assert_eq!(5, second[0].resource_index);
    assert_eq!(ResourceType::ssf, second[0].resource_type);
}

#[test]
fn key_slot_derivation() {
    assert_eq!(1, archive_index(0x0010_0005));
    assert_eq!(5, slot_index(0x0010_0005));
    assert_eq!(4095, archive_index(u32::MAX));
    assert_eq!(0xFFFFF, slot_index(u32::MAX));
}

#[test]
fn key_truncated_is_an_error() {
    let b = sample_key();
    assert_eq!(Error::UnexpectedEof, parse_key(b[..b.len() - 1].to_vec()).err().unwrap());
    assert_eq!(Error::UnexpectedEof, parse_key(b[..40].to_vec()).err().unwrap());
}

fn sample_bif() -> Vec<u8> {
    let mut b = Vec::new();
    b.extend_from_slice(b"BIFFV1  ");
    push_u32(&mut b, 2);
    push_u32(&mut b, 0);
    push_u32(&mut b, 20);
    let data_start = 20 + 16 * 2;
    let payloads: [&[u8]; 2] = [b"2DA V2.0", b"SSF V1.0xx"];
    let mut off = data_start as u32;
    for (i, p) in payloads.iter().enumerate() {
        push_u32(&mut b, i as u32);
        push_u32(&mut b, off);
        push_u32(&mut b, p.len() as u32);
        push_u32(&mut b, if i == 0 { 2017 } else { 2060 });
        off += p.len() as u32;
    }
    for p in payloads.iter() {
        b.extend_from_slice(p);
    }
    b
}

#[test]
fn bif_slices_resources() {
    let parsed = parse_bif(sample_bif()).unwrap();
    assert_eq!(2, parsed.0.len());
    assert_eq!(b"2DA V2.0".to_vec(), parsed.0[0].bytes);
    assert_eq!(ResourceType::x2da, parsed.0[0].resource_type);
    assert_eq!(b"SSF V1.0xx".to_vec(), parsed.0[1].bytes);
    assert_eq!(ResourceType::ssf, parsed.0[1].resource_type);
}

#[test]
fn bif_past_the_end_is_an_error() {
    let mut b = sample_bif();
    b.truncate(b.len() - 1);
    assert_eq!(Error::UnexpectedEof, parse_bif(b).err().unwrap());
}

#[test]
fn key_locates_a_resource_then_bif_slices_it() {
    let key = parse_key(sample_key()).unwrap();
    assert_eq!(Some((1, 5)), nwn_files::key::locate(&key, &String::from("vs_fx0psycm")));
    assert_eq!(Some((0, 0)), nwn_files::key::locate(&key, &String::from("readme")));
    assert_eq!(None, nwn_files::key::locate(&key, &String::from("missing")));
    let (_, slot) = nwn_files::key::locate(&key, &String::from("soundset")).unwrap();
    assert_eq!(2, slot);
    let bif = parse_bif(sample_bif()).unwrap();
    assert_eq!(b"SSF V1.0xx".to_vec(), bif.0[1].bytes);
}
